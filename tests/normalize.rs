use uavcan::normalize::{
    ArrayInfo, AttributeDefinition, ConstDefinition, Directive, FieldDefinition, File, Index, Line,
    MessageDefinition, PrimitiveType, ServiceDefinition, Ty, TypeDefinition,
};
use uavcan::value::CastMode;

fn field(cast_mode: Option<CastMode>, array: ArrayInfo, name: &str) -> FieldDefinition {
    FieldDefinition {
        cast_mode,
        field_type: Ty::Primitive(PrimitiveType::Uint(8)),
        array,
        name: Some(name.to_string()),
    }
}

#[test]
fn normalize_message() {
    let lines = vec![
        Line::Comment("header".to_string()),
        Line::Empty,
        Line::Definition(
            AttributeDefinition::Const(ConstDefinition {
                cast_mode: None,
                field_type: Ty::Primitive(PrimitiveType::Uint(8)),
                name: "MAX".to_string(),
                constant: "5".to_string(),
            }),
            None,
        ),
        Line::Definition(
            AttributeDefinition::Field(field(None, ArrayInfo::DynamicLess(Index(5)), "a")),
            Some("trailing".to_string()),
        ),
        Line::Directive(Directive::Union, Some("c".to_string())),
        Line::Definition(
            AttributeDefinition::Field(field(Some(CastMode::Truncated), ArrayInfo::Static(Index(3)), "b")),
            None,
        ),
    ];
    let file = File { name: "uavcan.protocol.Test".to_string(), definition: TypeDefinition::Message(MessageDefinition(lines)) };
    let normalized = file.normalize();
    let expected = File {
        name: "uavcan.protocol.Test".to_string(),
        definition: TypeDefinition::Message(MessageDefinition(vec![
            Line::Definition(
                AttributeDefinition::Field(field(Some(CastMode::Saturated), ArrayInfo::DynamicLeq(Index(4)), "a")),
                None,
            ),
            Line::Directive(Directive::Union, None),
            Line::Definition(
                AttributeDefinition::Field(field(Some(CastMode::Truncated), ArrayInfo::Static(Index(3)), "b")),
                None,
            ),
        ])),
    };
    assert_eq!(normalized.file(), &expected);
}

#[test]
fn normalize_service() {
    let req = MessageDefinition(vec![Line::Empty, Line::Definition(
        AttributeDefinition::Field(field(None, ArrayInfo::Single, "x")),
        None,
    )]);
    let resp = MessageDefinition(vec![Line::Comment("none".to_string())]);
    let file = File { name: "s".to_string(), definition: TypeDefinition::Service(ServiceDefinition { request: req, response: resp }) };
    let n = file.normalize();
    match &n.file().definition {
        TypeDefinition::Service(s) => {
            assert_eq!(s.request.0, vec![Line::Definition(
                AttributeDefinition::Field(field(Some(CastMode::Saturated), ArrayInfo::Single, "x")),
                None,
            )]);
            assert!(s.response.0.is_empty());
        },
        _ => panic!("a service stays a service"),
    }
}

#[test]
fn normalize_single_field() {
    let f = field(None, ArrayInfo::DynamicLess(Index(1)), "z").normalize().unwrap();
    assert_eq!(f.cast_mode, Some(CastMode::Saturated));
    assert_eq!(f.array, ArrayInfo::DynamicLeq(Index(0)));
}
