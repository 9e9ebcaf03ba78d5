use cronyx::meta_ast::MetaTypeExpr;
use cronyx::type_env::TypeEnv;
use cronyx::type_hints::{hint_to_type, meta_type_expr_to_type};
use cronyx::types::{type_to_string, PrimitiveType, Type};

#[test]
fn hints_name_primitives_and_enums() {
    assert!(matches!(hint_to_type("int"), Type::Primitive(PrimitiveType::Int)));
    assert!(matches!(hint_to_type("i64"), Type::Primitive(PrimitiveType::Int)));
    assert!(matches!(hint_to_type("str"), Type::Primitive(PrimitiveType::String)));
    assert!(matches!(hint_to_type("string"), Type::Primitive(PrimitiveType::String)));
    assert!(matches!(hint_to_type("bool"), Type::Primitive(PrimitiveType::Bool)));
    assert!(matches!(hint_to_type("unit"), Type::Primitive(PrimitiveType::Unit)));
    match hint_to_type("Color") {
        Type::Enum(n) => assert_eq!(n, "Color"),
        other => panic!("unexpected {other:?}"),
    }
}

#[test]
fn written_types_use_local_parameters() {
    let mut env = TypeEnv::new();
    let local = vec![("T".to_string(), Type::Primitive(PrimitiveType::Bool))];
    let te = MetaTypeExpr::App(
        "Pair".to_string(),
        vec![MetaTypeExpr::Named("T".to_string()), MetaTypeExpr::Named("int".to_string())],
    );
    let t = meta_type_expr_to_type(&te, &local, &mut env);
    assert_eq!(type_to_string(&t), "Pair<bool, int>");
    let te = MetaTypeExpr::Slice(Box::new(MetaTypeExpr::Tuple(vec![
        MetaTypeExpr::Named("string".to_string()),
        MetaTypeExpr::Named("unit".to_string()),
    ])));
    let t = meta_type_expr_to_type(&te, &local, &mut env);
    assert_eq!(type_to_string(&t), "[(string, unit)]");
}

#[test]
fn written_names_without_aliases_are_enums() {
    let mut env = TypeEnv::new();
    // `i64` is a hint spelling only: written as a type, it names an enum.
    match meta_type_expr_to_type(&MetaTypeExpr::Named("i64".to_string()), &vec![], &mut env) {
        Type::Enum(n) => assert_eq!(n, "i64"),
        other => panic!("unexpected {other:?}"),
    }
    assert!(matches!(
        meta_type_expr_to_type(&MetaTypeExpr::Named("int".to_string()), &vec![], &mut env),
        Type::Primitive(PrimitiveType::Int)
    ));
}
