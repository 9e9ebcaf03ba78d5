use vstd::prelude::*;
use crate::meta_ast::MetaTypeExpr;
use crate::text::same_text;
use crate::types::{Type, PrimitiveType, type_text, contains_var, clone_type, int_type, string_type, bool_type, unit_type};
use crate::type_env::TypeEnv;

verus! {

// ── Type hints ───────────────────────────────────────────────────────────────

/// `t` is the type a type hint `name` stands for: `int`/`i64`, `string`/`str`,
/// `bool` and `unit` are primitive; any other name is an enum of that name.
pub open spec fn hint_means(name: Seq<char>, t: Type) -> bool {
    if name == "int"@ || name == "i64"@ {
        t == Type::Primitive(PrimitiveType::Int)
    } else if name == "string"@ || name == "str"@ {
        t == Type::Primitive(PrimitiveType::String)
    } else if name == "bool"@ {
        t == Type::Primitive(PrimitiveType::Bool)
    } else if name == "unit"@ {
        t == Type::Primitive(PrimitiveType::Unit)
    } else {
        t matches Type::Enum(n) && n@ == name
    }
}

/// The type a type hint stands for.
pub fn hint_to_type(name: &str) -> (t: Type)
    ensures
        hint_means(name@, t),
{
    if same_text(name, "int") || same_text(name, "i64") {
        int_type()
    } else if same_text(name, "string") || same_text(name, "str") {
        string_type()
    } else if same_text(name, "bool") {
        bool_type()
    } else if same_text(name, "unit") {
        unit_type()
    } else {
        Type::Enum(String::from_str(name))
    }
}

// ── Written types ────────────────────────────────────────────────────────────

/// The type bound to `name` by the first entry of `local` that names it.
pub open spec fn local_type(local: Seq<(String, Type)>, name: Seq<char>) -> Option<Type>
    decreases local.len(),
{
    if local.len() == 0 {
        None
    } else if local[0].0@ == name {
        Some(local[0].1)
    } else {
        local_type(local.drop_first(), name)
    }
}

/// `t` is the type a named type stands for when no local name binds it:
/// `int`, `string`, `bool` and `unit` are primitive, anything else an enum.
pub open spec fn named_means(name: Seq<char>, t: Type) -> bool {
    if name == "int"@ {
        t == Type::Primitive(PrimitiveType::Int)
    } else if name == "string"@ {
        t == Type::Primitive(PrimitiveType::String)
    } else if name == "bool"@ {
        t == Type::Primitive(PrimitiveType::Bool)
    } else if name == "unit"@ {
        t == Type::Primitive(PrimitiveType::Unit)
    } else {
        t matches Type::Enum(n) && n@ == name
    }
}

/// `t` is the type written as `te`, where `local` binds type parameters to
/// types (a bound name gives a copy of its type: the same text and the same
/// variables).
pub open spec fn written_type(te: MetaTypeExpr, local: Seq<(String, Type)>, t: Type) -> bool
    decreases te, 1nat,
{
    match te {
        MetaTypeExpr::Named(n) => match local_type(local, n@) {
            Some(b) => type_text(t) == type_text(b) && contains_var(t) == contains_var(b),
            None => named_means(n@, t),
        },
        MetaTypeExpr::App(name, args) => t matches Type::App(m, ts) && m@ == name@
            && written_types(args@, local, ts@),
        MetaTypeExpr::Tuple(elems) => t matches Type::Tuple(ts) && written_types(elems@, local, ts@),
        MetaTypeExpr::Slice(inner) => t matches Type::Slice(e) && written_type(*inner, local, *e),
    }
}

/// Each of `ts` is the type written as the matching one of `es`.
pub open spec fn written_types(es: Seq<MetaTypeExpr>, local: Seq<(String, Type)>, ts: Seq<Type>) -> bool
    decreases es, 0nat,
{
    &&& es.len() == ts.len()
    &&& es.len() > 0 ==> written_types(es.drop_last(), local, ts.drop_last())
        && written_type(es.last(), local, ts.last())
}

fn find_local(local: &Vec<(String, Type)>, name: &String) -> (r: Option<Type>)
    ensures
        match local_type(local@, name@) {
            Some(b) => r matches Some(t) && type_text(t) == type_text(b) && contains_var(t) == contains_var(b),
            None => r is None,
        },
{
    let mut i: usize = 0;
    proof { assert(local@.skip(0) =~= local@); }
    while i < local.len()
        invariant
            i <= local@.len(),
            local_type(local@, name@) == local_type(local@.skip(i as int), name@),
        decreases local@.len() - i,
    {
        proof { assert(local@.skip(i as int).drop_first() =~= local@.skip(i + 1)); }
        if same_text(local[i].0.as_str(), name.as_str()) {
            return Some(clone_type(&local[i].1));
        }
        i = i + 1;
    }
    None
}

fn named_type(name: &String) -> (t: Type)
    ensures
        named_means(name@, t),
{
    if same_text(name.as_str(), "int") {
        int_type()
    } else if same_text(name.as_str(), "string") {
        string_type()
    } else if same_text(name.as_str(), "bool") {
        bool_type()
    } else if same_text(name.as_str(), "unit") {
        unit_type()
    } else {
        Type::Enum(name.clone())
    }
}

fn written_types_of(es: &Vec<MetaTypeExpr>, local: &Vec<(String, Type)>, env: &mut TypeEnv) -> (r: Vec<Type>)
    ensures
        written_types(es@, local@, r@),
        *final(env) == *old(env),
    decreases es, 0nat,
{
    let mut out: Vec<Type> = Vec::new();
    let mut i: usize = 0;
    while i < es.len()
        invariant
            i <= es@.len(),
            written_types(es@.take(i as int), local@, out@),
            *env == *old(env),
        decreases es@.len() - i,
    {
        let t = meta_type_expr_to_type(&es[i], local, env);
        let ghost before = out@;
        out.push(t);
        proof {
            assert(es@.take(i + 1).drop_last() =~= es@.take(i as int));
            assert(out@.drop_last() =~= before);
        }
        i = i + 1;
    }
    proof { assert(es@.take(es@.len() as int) =~= es@); }
    out
}

/// The type written as `te`, with the type parameters bound in `local`.
pub fn meta_type_expr_to_type(te: &MetaTypeExpr, local: &Vec<(String, Type)>, env: &mut TypeEnv) -> (t: Type)
    ensures
        written_type(*te, local@, t),
        *final(env) == *old(env),
    decreases te, 1nat,
{
    match te {
        MetaTypeExpr::Named(n) => match find_local(local, n) {
            Some(t) => t,
            None => named_type(n),
        },
        MetaTypeExpr::App(name, args) => Type::App(name.clone(), written_types_of(args, local, env)),
        MetaTypeExpr::Tuple(elems) => Type::Tuple(written_types_of(elems, local, env)),
        MetaTypeExpr::Slice(inner) => Type::Slice(Box::new(meta_type_expr_to_type(inner, local, env))),
    }
}

} // verus!
