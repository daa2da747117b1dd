use vstd::prelude::*;
use crate::value::CastMode;

verus! {

/// A size or bound written in a schema, such as the `5` of `uint8[<5]`.
#[derive(Clone, Debug, PartialEq, Eq)]
pub struct Index(pub u64);

/// The array shape of a field.
#[derive(Clone, Debug, PartialEq, Eq)]
pub enum ArrayInfo {
    /// Not an array.
    Single,
    /// A dynamic array with fewer than the given number of elements.
    DynamicLess(Index),
    /// A dynamic array with at most the given number of elements.
    DynamicLeq(Index),
    /// An array with exactly the given number of elements.
    Static(Index),
}

/// The primitive types of the schema language, with their bit widths.
#[derive(Clone, Debug, PartialEq, Eq)]
pub enum PrimitiveType {
    Bool,
    Uint(u8),
    Int(u8),
    Float(u8),
    Void(u8),
}

/// The type of a field or constant.
#[derive(Clone, Debug, PartialEq, Eq)]
pub enum Ty {
    Primitive(PrimitiveType),
    /// A nested type, by its full name.
    Composite(String),
}

/// `[cast] type[array] name`
#[derive(Clone, Debug, PartialEq, Eq)]
pub struct FieldDefinition {
    pub cast_mode: Option<CastMode>,
    pub field_type: Ty,
    pub array: ArrayInfo,
    pub name: Option<String>,
}

/// `[cast] type name = literal`
#[derive(Clone, Debug, PartialEq, Eq)]
pub struct ConstDefinition {
    pub cast_mode: Option<CastMode>,
    pub field_type: Ty,
    pub name: String,
    pub constant: String,
}

#[derive(Clone, Debug, PartialEq, Eq)]
pub enum AttributeDefinition {
    Field(FieldDefinition),
    Const(ConstDefinition),
}

#[derive(Clone, Debug, PartialEq, Eq)]
pub enum Directive {
    Union,
}

/// One line of a schema file; the trailing `Option<String>` is its comment.
#[derive(Clone, Debug, PartialEq, Eq)]
pub enum Line {
    Empty,
    Comment(String),
    Definition(AttributeDefinition, Option<String>),
    Directive(Directive, Option<String>),
}

#[derive(Clone, Debug, PartialEq, Eq)]
pub struct MessageDefinition(pub Vec<Line>);

#[derive(Clone, Debug, PartialEq, Eq)]
pub struct ServiceDefinition {
    pub request: MessageDefinition,
    pub response: MessageDefinition,
}

#[derive(Clone, Debug, PartialEq, Eq)]
pub enum TypeDefinition {
    Message(MessageDefinition),
    Service(ServiceDefinition),
}

/// A parsed schema file.
#[derive(Clone, Debug, PartialEq, Eq)]
pub struct File {
    pub name: String,
    pub definition: TypeDefinition,
}

/// A schema file in normal form: no comments, no empty lines, no constants,
/// an explicit cast mode on every field and every dynamic array bound written `<=`.
#[derive(Clone, Debug, PartialEq, Eq)]
pub struct Normalized(File);

/// Dynamic arrays written `[<0]` have no valid length and cannot be normalized.
pub open spec fn field_wf(f: FieldDefinition) -> bool {
    f.array != ArrayInfo::DynamicLess(Index(0))
}

pub open spec fn line_wf(l: Line) -> bool {
    match l {
        Line::Definition(AttributeDefinition::Field(f), _) => field_wf(f),
        _ => true,
    }
}

pub open spec fn message_wf(m: MessageDefinition) -> bool {
    forall|i: int| 0 <= i < m.0@.len() ==> line_wf(#[trigger] m.0@[i])
}

pub open spec fn type_wf(t: TypeDefinition) -> bool {
    match t {
        TypeDefinition::Message(m) => message_wf(m),
        TypeDefinition::Service(s) => message_wf(s.request) && message_wf(s.response),
    }
}

/// A field with its cast mode made explicit (saturated when absent) and
/// `[<X]` rewritten as `[<=X-1]`.
pub open spec fn normal_field(f: FieldDefinition) -> FieldDefinition {
    FieldDefinition {
        cast_mode: match f.cast_mode {
            None => Some(CastMode::Saturated),
            Some(m) => Some(m),
        },
        field_type: f.field_type,
        array: match f.array {
            ArrayInfo::DynamicLess(Index(n)) => ArrayInfo::DynamicLeq(Index((n - 1) as u64)),
            a => a,
        },
        name: f.name,
    }
}

/// Constants disappear; fields are normalized.
pub open spec fn normal_attribute(a: AttributeDefinition) -> Option<AttributeDefinition> {
    match a {
        AttributeDefinition::Field(f) => Some(AttributeDefinition::Field(normal_field(f))),
        AttributeDefinition::Const(_) => None,
    }
}

/// Empty lines, comment lines and constants disappear; trailing comments are dropped.
pub open spec fn normal_line(l: Line) -> Option<Line> {
    match l {
        Line::Empty => None,
        Line::Comment(_) => None,
        Line::Definition(d, _) => match normal_attribute(d) {
            Some(nd) => Some(Line::Definition(nd, None)),
            None => None,
        },
        Line::Directive(d, _) => Some(Line::Directive(d, None)),
    }
}

/// The normalized lines that remain, in their order.
pub open spec fn normal_lines(s: Seq<Line>) -> Seq<Line>
    decreases s.len(),
{
    if s.len() == 0 {
        Seq::empty()
    } else {
        let prefix = normal_lines(s.drop_last());
        match normal_line(s.last()) {
            Some(l) => prefix.push(l),
            None => prefix,
        }
    }
}

pub open spec fn normal_message(m: MessageDefinition) -> Seq<Line> {
    normal_lines(m.0@)
}

/// The normal form of a type definition, as the lines of its message(s).
pub open spec fn normal_type(t: TypeDefinition, r: TypeDefinition) -> bool {
    match (t, r) {
        (TypeDefinition::Message(m), TypeDefinition::Message(n)) => n.0@ == normal_message(m),
        (TypeDefinition::Service(s), TypeDefinition::Service(n)) =>
            n.request.0@ == normal_message(s.request) && n.response.0@ == normal_message(s.response),
        _ => false,
    }
}

impl Normalized {
    /// The file held.
    pub closed spec fn spec_file(&self) -> File {
        self.0
    }

    /// The normalized file.
    pub fn file(&self) -> (r: &File)
        ensures
            *r == self.spec_file(),
    {
        &self.0
    }
}

impl File {
    pub open spec fn wf(&self) -> bool {
        type_wf(self.definition)
    }

    /// Brings the file into normal form; its name is kept.
    pub fn normalize(self) -> (r: Normalized)
        requires
            self.wf(),
        ensures
            r.spec_file().name == self.name,
            normal_type(self.definition, r.spec_file().definition),
    {
        Normalized(File { name: self.name, definition: self.definition.normalize() })
    }
}

impl TypeDefinition {
    pub fn normalize(self) -> (r: Self)
        requires
            type_wf(self),
        ensures
            normal_type(self, r),
    {
        match self {
            TypeDefinition::Message(x) => TypeDefinition::Message(x.normalize()),
            TypeDefinition::Service(x) => TypeDefinition::Service(x.normalize()),
        }
    }
}

impl ServiceDefinition {
    pub fn normalize(self) -> (r: Self)
        requires
            message_wf(self.request),
            message_wf(self.response),
        ensures
            r.request.0@ == normal_message(self.request),
            r.response.0@ == normal_message(self.response),
    {
        ServiceDefinition { request: self.request.normalize(), response: self.response.normalize() }
    }
}

impl MessageDefinition {
    pub fn normalize(self) -> (r: Self)
        requires
            message_wf(self),
        ensures
            r.0@ == normal_message(self),
    {
        let mut lines = self.0;
        let ghost all = lines@;
        let mut normalized_lines: Vec<Line> = Vec::new();
        let ghost mut done: int = 0;
        while lines.len() > 0
            invariant
                0 <= done <= all.len(),
                lines@ == all.subrange(done, all.len() as int),
                forall|k: int| 0 <= k < all.len() ==> line_wf(#[trigger] all[k]),
                normalized_lines@ == normal_lines(all.subrange(0, done)),
            decreases lines@.len(),
        {
            let line = lines.remove(0);
            assert(line == all[done]);
            match line.normalize() {
                Some(x) => normalized_lines.push(x),
                None => (),
            }
            assert(all.subrange(0, done + 1).drop_last() =~= all.subrange(0, done));
            proof {
                done = done + 1;
            }
            assert(lines@ =~= all.subrange(done, all.len() as int));
        }
        assert(all.subrange(0, all.len() as int) =~= all);
        MessageDefinition(normalized_lines)
    }
}

impl Line {
    pub fn normalize(self) -> (r: Option<Self>)
        requires
            line_wf(self),
        ensures
            r == normal_line(self),
    {
        match self {
            Line::Empty => None,
            Line::Comment(_) => None,
            Line::Definition(def, _) => match def.normalize() {
                Some(norm_def) => Some(Line::Definition(norm_def, None)),
                None => None,
            },
            Line::Directive(dir, _) => Some(Line::Directive(dir, None)),
        }
    }
}

impl AttributeDefinition {
    pub fn normalize(self) -> (r: Option<Self>)
        requires
            match self {
                AttributeDefinition::Field(f) => field_wf(f),
                _ => true,
            },
        ensures
            r == normal_attribute(self),
    {
        match self {
            AttributeDefinition::Field(def) => match def.normalize() {
                Some(norm_field) => Some(AttributeDefinition::Field(norm_field)),
                None => None,
            },
            AttributeDefinition::Const(_) => None,
        }
    }
}

impl FieldDefinition {
    pub fn normalize(self) -> (r: Option<Self>)
        requires
            field_wf(self),
        ensures
            r == Some(normal_field(self)),
    {
        let cast_mode = match self.cast_mode {
            None => Some(CastMode::Saturated),
            x => x,
        };
        let array = match self.array {
            ArrayInfo::DynamicLess(Index(num)) => ArrayInfo::DynamicLeq(Index(num - 1)),
            x => x,
        };
        Some(FieldDefinition { cast_mode: cast_mode, field_type: self.field_type, array: array, name: self.name })
    }
}

} // verus!
