use std::collections::HashMap;
use cronyx::type_env::TypeEnv;
use cronyx::types::{Type, TypeVar, TypeScheme, PrimitiveType, int_type, bool_type, string_type, type_to_string};
use cronyx::type_error::TypeError;
use cronyx::type_var_verify::verify_no_type_vars;
use cronyx::enum_registry::{EnumRegistry, ResolvedPayload};
use cronyx::meta_ast::{EnumVariant, VariantPayload, MetaTypeExpr, MetaAst, MetaStmt, MetaExpr};
use cronyx::node_id::MetaNodeId;
use cronyx::id_provider::IdProvider;

fn variant(name: &str, payload: VariantPayload) -> EnumVariant {
    EnumVariant { name: name.to_string(), local_type_params: vec![], payload, return_type: None }
}

#[test]
fn a_bound_name_is_looked_up() {
    let mut env = TypeEnv::new();
    env.bind_mono("x", int_type());
    assert_eq!(type_to_string(&env.lookup("x").unwrap()), "int");
    assert!(env.lookup("y").is_none());
}

#[test]
fn a_scope_shadows_until_it_is_popped() {
    let mut env = TypeEnv::new();
    env.bind_mono("x", int_type());
    env.push_scope();
    env.bind_mono("x", bool_type());
    assert_eq!(type_to_string(&env.lookup("x").unwrap()), "bool");
    env.pop_scope();
    assert_eq!(type_to_string(&env.lookup("x").unwrap()), "int");
}

#[test]
fn fresh_type_variables_differ() {
    let mut env = TypeEnv::new();
    let a = env.fresh();
    let b = env.fresh();
    assert_ne!(a, b);
}

#[test]
fn polymorphic_bindings_are_instantiated() {
    let mut env = TypeEnv::new();
    let v = TypeVar { id: 0 };
    env.bind("id", TypeScheme::PolyType {
        vars: vec![v],
        ty: Type::Func { params: vec![Type::Var(v)], ret: Box::new(Type::Var(v)) },
    });
    let t = env.lookup("id").unwrap();
    match t {
        Type::Func { params, ret } => match (&params[0], &*ret) {
            (Type::Var(a), Type::Var(b)) => assert_eq!(a, b),
            other => panic!("unexpected {other:?}"),
        },
        other => panic!("unexpected {other:?}"),
    }
}

#[test]
fn types_are_written_as_in_source() {
    let f = Type::Func { params: vec![int_type(), string_type()], ret: Box::new(bool_type()) };
    assert_eq!(type_to_string(&f), "fn(int, string) -> bool");
    assert_eq!(type_to_string(&Type::Func { params: vec![], ret: Box::new(Type::Primitive(PrimitiveType::Unit)) }), "fn() -> unit");
    assert_eq!(type_to_string(&Type::Record(vec![("x".to_string(), int_type())])), "{x: int}");
    assert_eq!(
        type_to_string(&Type::Struct { name: "Point".to_string(), fields: vec![("x".to_string(), int_type()), ("y".to_string(), int_type())] }),
        "Point {x: int, y: int}"
    );
    assert_eq!(type_to_string(&Type::Tuple(vec![int_type(), bool_type()])), "(int, bool)");
    assert_eq!(type_to_string(&Type::Slice(Box::new(int_type()))), "[int]");
    assert_eq!(type_to_string(&Type::App("List".to_string(), vec![int_type()])), "List<int>");
    assert_eq!(type_to_string(&Type::Enum("Color".to_string())), "Color");
    assert_eq!(type_to_string(&Type::Var(TypeVar { id: 12 })), "'12");
}

#[test]
fn the_first_enum_declaration_wins() {
    let decls = vec![
        ("Color".to_string(), vec![
            variant("Red", VariantPayload::Unit),
            variant("Rgb", VariantPayload::Tuple(vec![MetaTypeExpr::Named("int".to_string()), MetaTypeExpr::Named("[bool]".to_string())])),
        ]),
        ("Color".to_string(), vec![variant("Blue", VariantPayload::Unit)]),
    ];
    let reg = EnumRegistry::build(&decls);
    let vs = reg.get("Color").unwrap();
    assert_eq!(vs.len(), 2);
    assert_eq!((vs[0].name.as_str(), vs[0].tag), ("Red", 0));
    assert_eq!((vs[1].name.as_str(), vs[1].tag), ("Rgb", 1));
    match &vs[1].payload {
        ResolvedPayload::Tuple(ts) => {
            assert_eq!(type_to_string(&ts[0]), "int");
            assert_eq!(type_to_string(&ts[1]), "[bool]");
        }
        other => panic!("unexpected {other:?}"),
    }
    assert_eq!(reg.iter().len(), 1);
    assert!(reg.get("Shape").is_none());
}

#[test]
fn the_innermost_location_wins() {
    let e = TypeError::invalid_return().at(MetaNodeId(3)).at(MetaNodeId(9));
    assert_eq!(e.node_id, Some(MetaNodeId(3)));
}

#[test]
fn leftover_type_variables_are_reported() {
    let mut m: HashMap<usize, Type> = HashMap::new();
    m.insert(1, int_type());
    m.insert(2, Type::Var(TypeVar { id: 0 }));
    m.insert(3, Type::Func { params: vec![Type::Var(TypeVar { id: 1 })], ret: Box::new(int_type()) });
    let mut bad = verify_no_type_vars(&m).unwrap_err();
    bad.sort();
    assert_eq!(bad, vec![2, 3]);
    m.remove(&2);
    m.remove(&3);
    assert!(verify_no_type_vars(&m).is_ok());
}

#[test]
fn an_injected_statement_gets_a_fresh_id() {
    let mut ast = MetaAst::new();
    let mut ids = IdProvider::new();
    let e = ast.insert_expr(&mut ids, MetaExpr::Int(1));
    let s = ast.insert_stmt(&mut ids, MetaStmt::ExprStmt(e));
    let injected = ast.inject_stmt(MetaStmt::Print(e));
    assert_eq!(injected.0, s.0.max(e.0) + 1);
    assert!(ast.get_stmt(injected).is_some());
    ast.remove_stmt(injected);
    assert!(ast.get_stmt(injected).is_none());
}

#[test]
fn a_poly_binding_is_instantiated_with_fresh_variables_each_time() {
    let mut env = TypeEnv::new();
    let a = TypeVar { id: 5 };
    let id_ty = Type::Func { params: vec![Type::Var(a)], ret: Box::new(Type::Var(a)) };
    env.bind("id", TypeScheme::PolyType { vars: vec![a], ty: id_ty });
    let first = env.lookup("id").unwrap();
    assert_eq!(type_to_string(&first), "fn('0) -> '0");
    let second = env.lookup("id").unwrap();
    assert_eq!(type_to_string(&second), "fn('1) -> '1");
    assert_eq!(env.fresh(), TypeVar { id: 2 });
}
