use cronyx::value::{Value, EnumValuePayload};

#[test]
fn values_display_like_the_language_prints_them() {
    let list = Value::List(vec![Value::Int(1), Value::String("a".to_string()), Value::Bool(true)]);
    assert_eq!(list.to_string(), "[1, a, true]");
    let point = Value::Struct {
        struct_name: "P".to_string(),
        fields: vec![("x".to_string(), Value::Int(1)), ("y".to_string(), Value::Int(-2))],
    };
    assert_eq!(point.to_string(), "P {x: 1, y: -2}");
    assert_eq!(Value::Tuple(vec![Value::Int(1), Value::Unit]).to_string(), "(1, )");
    let none = Value::Enum { enum_name: "Option".to_string(), variant: "None".to_string(), payload: EnumValuePayload::Unit };
    assert_eq!(none.to_string(), "None");
    let some = Value::Enum {
        enum_name: "Option".to_string(),
        variant: "Some".to_string(),
        payload: EnumValuePayload::Tuple(vec![Value::Int(3)]),
    };
    assert_eq!(some.to_string(), "Some(3)");
    let rec = Value::Enum {
        enum_name: "E".to_string(),
        variant: "V".to_string(),
        payload: EnumValuePayload::Struct(vec![("a".to_string(), Value::List(vec![]))]),
    };
    assert_eq!(rec.to_string(), "V {a: []}");
    assert_eq!(Value::Unit.to_string(), "");
    assert_eq!(Value::Int(i64::MIN).to_string(), "-9223372036854775808");
}

#[test]
fn only_lists_can_be_enumerated() {
    let list = Value::List(vec![Value::Int(4), Value::Int(5)]);
    assert_eq!(list.enumerate().unwrap().len(), 2);
    assert_eq!(Value::Int(3).enumerate().unwrap_err(), "value is not iterable: 3");
    assert_eq!(Value::String("hi".to_string()).enumerate().unwrap_err(), "value is not iterable: hi");
}
