use vstd::prelude::*;
use crate::text::{usize_to_string, nat_text, push_char};

verus! {

#[derive(Debug, Clone, Copy, PartialEq, Eq, Structural)]
pub enum PrimitiveType {
    Int,
    String,
    Bool,
    Unit,
}

/// A type variable, named by its number.
#[derive(Debug, Clone, Copy, PartialEq, Eq, Structural)]
pub struct TypeVar {
    pub id: usize,
}

#[derive(Debug)]
pub enum Type {
    Primitive(PrimitiveType),
    Var(TypeVar),
    Func { params: Vec<Type>, ret: Box<Type> },
    Record(Vec<(String, Type)>),
    Struct { name: String, fields: Vec<(String, Type)> },
    Tuple(Vec<Type>),
    Slice(Box<Type>),
    App(String, Vec<Type>),
    Enum(String),
}

/// A type, or a type generalised over some of its variables.
#[derive(Debug)]
pub enum TypeScheme {
    MonoType(Type),
    PolyType { vars: Vec<TypeVar>, ty: Type },
}

pub fn int_type() -> (t: Type)
    ensures
        t == Type::Primitive(PrimitiveType::Int),
{
    Type::Primitive(PrimitiveType::Int)
}

pub fn string_type() -> (t: Type)
    ensures
        t == Type::Primitive(PrimitiveType::String),
{
    Type::Primitive(PrimitiveType::String)
}

pub fn bool_type() -> (t: Type)
    ensures
        t == Type::Primitive(PrimitiveType::Bool),
{
    Type::Primitive(PrimitiveType::Bool)
}

pub fn unit_type() -> (t: Type)
    ensures
        t == Type::Primitive(PrimitiveType::Unit),
{
    Type::Primitive(PrimitiveType::Unit)
}

// ── Copies ───────────────────────────────────────────────────────────────────

fn clone_types(v: &Vec<Type>) -> (r: Vec<Type>)
    ensures
        r@.len() == v@.len(),
        forall|i: int| 0 <= i < v@.len() ==> type_text(#[trigger] r@[i]) == type_text(v@[i])
            && contains_var(r@[i]) == contains_var(v@[i]),
        types_text(r@) == types_text(v@),
        types_contain_var(r@) == types_contain_var(v@),
    decreases v, 0nat,
{
    let mut out: Vec<Type> = Vec::new();
    let mut i: usize = 0;
    while i < v.len()
        invariant
            i <= v@.len(),
            out@.len() == i,
            forall|j: int| 0 <= j < i ==> type_text(#[trigger] out@[j]) == type_text(v@[j])
                && contains_var(out@[j]) == contains_var(v@[j]),
        decreases v@.len() - i,
    {
        let c = clone_type(&v[i]);
        out.push(c);
        i = i + 1;
    }
    proof { lemma_types_text_eq(out@, v@); }
    out
}

proof fn lemma_types_text_eq(a: Seq<Type>, b: Seq<Type>)
    requires
        a.len() == b.len(),
        forall|i: int| 0 <= i < b.len() ==> type_text(#[trigger] a[i]) == type_text(b[i])
            && contains_var(a[i]) == contains_var(b[i]),
    ensures
        types_text(a) == types_text(b),
        types_contain_var(a) == types_contain_var(b),
    decreases a.len(),
{
    if a.len() > 0 {
        lemma_types_text_eq(a.drop_last(), b.drop_last());
        assert(type_text(a.last()) == type_text(b.last()));
        if a.len() == 1 {
            assert(type_text(a[0]) == type_text(b[0]));
        }
    }
}

fn clone_fields(v: &Vec<(String, Type)>) -> (r: Vec<(String, Type)>)
    ensures
        r@.len() == v@.len(),
        forall|i: int| 0 <= i < v@.len() ==> #[trigger] r@[i].0@ == v@[i].0@
            && type_text(r@[i].1) == type_text(v@[i].1) && contains_var(r@[i].1) == contains_var(v@[i].1),
    decreases v, 0nat,
{
    let mut out: Vec<(String, Type)> = Vec::new();
    let mut i: usize = 0;
    while i < v.len()
        invariant
            i <= v@.len(),
            out@.len() == i,
            forall|j: int| 0 <= j < i ==> #[trigger] out@[j].0@ == v@[j].0@
                && type_text(out@[j].1) == type_text(v@[j].1) && contains_var(out@[j].1) == contains_var(v@[j].1),
        decreases v@.len() - i,
    {
        let c = clone_type(&v[i].1);
        out.push((v[i].0.clone(), c));
        i = i + 1;
    }
    out
}

/// A copy of `t` (Verus-visible: the copy equals `t`, up to string views).
pub fn clone_type(t: &Type) -> (r: Type)
    ensures
        type_text(r) == type_text(*t),
        contains_var(r) == contains_var(*t),
    decreases t, 1nat,
{
    match t {
        Type::Primitive(p) => Type::Primitive(*p),
        Type::Var(v) => Type::Var(*v),
        Type::Func { params, ret } => {
            let ps = clone_types(params);
            let r = clone_type(ret);
            Type::Func { params: ps, ret: Box::new(r) }
        },
        Type::Record(fields) => {
            let fs = clone_fields(fields);
            proof { lemma_fields_text_eq(fs@, fields@); }
            Type::Record(fs)
        },
        Type::Struct { name, fields } => {
            let fs = clone_fields(fields);
            proof { lemma_fields_text_eq(fs@, fields@); }
            Type::Struct { name: name.clone(), fields: fs }
        },
        Type::Tuple(items) => Type::Tuple(clone_types(items)),
        Type::Slice(inner) => Type::Slice(Box::new(clone_type(inner))),
        Type::App(name, args) => Type::App(name.clone(), clone_types(args)),
        Type::Enum(name) => Type::Enum(name.clone()),
    }
}

proof fn lemma_fields_text_eq(a: Seq<(String, Type)>, b: Seq<(String, Type)>)
    requires
        a.len() == b.len(),
        forall|i: int| 0 <= i < b.len() ==> #[trigger] a[i].0@ == b[i].0@
            && type_text(a[i].1) == type_text(b[i].1) && contains_var(a[i].1) == contains_var(b[i].1),
    ensures
        fields_text(a) == fields_text(b),
        fields_contain_var(a) == fields_contain_var(b),
    decreases a.len(),
{
    if a.len() > 0 {
        lemma_fields_text_eq(a.drop_last(), b.drop_last());
        assert(a.last().0@ == b.last().0@);
        assert(type_text(a.last().1) == type_text(b.last().1));
        if a.len() == 1 {
            assert(a[0].0@ == b[0].0@ && type_text(a[0].1) == type_text(b[0].1));
        }
    }
}

impl Clone for Type {
    fn clone(&self) -> (r: Self)
        ensures
            type_text(r) == type_text(*self),
            contains_var(r) == contains_var(*self),
    {
        clone_type(self)
    }
}

impl Clone for TypeScheme {
    fn clone(&self) -> (r: Self) {
        match self {
            TypeScheme::MonoType(t) => TypeScheme::MonoType(clone_type(t)),
            TypeScheme::PolyType { vars, ty } => TypeScheme::PolyType { vars: vars.clone(), ty: clone_type(ty) },
        }
    }
}

// ── Type variables ───────────────────────────────────────────────────────────

/// `t` mentions a type variable somewhere.
pub open spec fn contains_var(t: Type) -> bool
    decreases t, 1nat,
{
    match t {
        Type::Var(_) => true,
        Type::Func { params, ret } => types_contain_var(params@) || contains_var(*ret),
        Type::Record(fields) => fields_contain_var(fields@),
        Type::Struct { fields, .. } => fields_contain_var(fields@),
        Type::Tuple(items) => types_contain_var(items@),
        Type::Slice(elem) => contains_var(*elem),
        Type::App(_, args) => types_contain_var(args@),
        Type::Primitive(_) => false,
        Type::Enum(_) => false,
    }
}

pub open spec fn types_contain_var(ts: Seq<Type>) -> bool
    decreases ts, 0nat,
{
    if ts.len() == 0 {
        false
    } else {
        types_contain_var(ts.drop_last()) || contains_var(ts.last())
    }
}

pub open spec fn fields_contain_var(fs: Seq<(String, Type)>) -> bool
    decreases fs, 0nat,
{
    if fs.len() == 0 {
        false
    } else {
        fields_contain_var(fs.drop_last()) || contains_var(fs.last().1)
    }
}

fn types_have_var(ts: &Vec<Type>) -> (b: bool)
    ensures
        b == types_contain_var(ts@),
    decreases ts, 0nat,
{
    let mut i: usize = 0;
    let mut found = false;
    while i < ts.len()
        invariant
            i <= ts@.len(),
            found == types_contain_var(ts@.subrange(0, i as int)),
        decreases ts@.len() - i,
    {
        let here = type_has_var(&ts[i]);
        proof {
            assert(ts@.subrange(0, i + 1).drop_last() =~= ts@.subrange(0, i as int));
        }
        found = found || here;
        i = i + 1;
    }
    proof { assert(ts@.subrange(0, ts@.len() as int) =~= ts@); }
    found
}

fn fields_have_var(fs: &Vec<(String, Type)>) -> (b: bool)
    ensures
        b == fields_contain_var(fs@),
    decreases fs, 0nat,
{
    let mut i: usize = 0;
    let mut found = false;
    while i < fs.len()
        invariant
            i <= fs@.len(),
            found == fields_contain_var(fs@.subrange(0, i as int)),
        decreases fs@.len() - i,
    {
        let here = type_has_var(&fs[i].1);
        proof {
            assert(fs@.subrange(0, i + 1).drop_last() =~= fs@.subrange(0, i as int));
        }
        found = found || here;
        i = i + 1;
    }
    proof { assert(fs@.subrange(0, fs@.len() as int) =~= fs@); }
    found
}

/// Whether `t` mentions a type variable anywhere.
pub fn type_has_var(t: &Type) -> (b: bool)
    ensures
        b == contains_var(*t),
    decreases t, 1nat,
{
    match t {
        Type::Var(_) => true,
        Type::Func { params, ret } => types_have_var(params) || type_has_var(ret),
        Type::Record(fields) => fields_have_var(fields),
        Type::Struct { fields, .. } => fields_have_var(fields),
        Type::Tuple(items) => types_have_var(items),
        Type::Slice(elem) => type_has_var(elem),
        Type::App(_, args) => types_have_var(args),
        Type::Primitive(_) => false,
        Type::Enum(_) => false,
    }
}

// ── Display ──────────────────────────────────────────────────────────────────

pub open spec fn primitive_text(p: PrimitiveType) -> Seq<char> {
    match p {
        PrimitiveType::Int => seq!['i', 'n', 't'],
        PrimitiveType::String => seq!['s', 't', 'r', 'i', 'n', 'g'],
        PrimitiveType::Bool => seq!['b', 'o', 'o', 'l'],
        PrimitiveType::Unit => seq!['u', 'n', 'i', 't'],
    }
}

/// How a type is written: `int`, `'3`, `fn(int, bool) -> unit`, `{x: int}`,
/// `Point {x: int}`, `(int, bool)`, `[int]`, `Option<int>`, `Color`.
pub open spec fn type_text(t: Type) -> Seq<char>
    decreases t, 1nat,
{
    match t {
        Type::Primitive(p) => primitive_text(p),
        Type::Var(v) => seq!['\''] + nat_text(v.id as nat),
        Type::Func { params, ret } => seq!['f', 'n', '('] + types_text(params@) + seq![')', ' ', '-', '>', ' ']
            + type_text(*ret),
        Type::Record(fields) => seq!['{'] + fields_text(fields@) + seq!['}'],
        Type::Struct { name, fields } => name@ + seq![' ', '{'] + fields_text(fields@) + seq!['}'],
        Type::Tuple(items) => seq!['('] + types_text(items@) + seq![')'],
        Type::Slice(elem) => seq!['['] + type_text(*elem) + seq![']'],
        Type::App(name, args) => name@ + seq!['<'] + types_text(args@) + seq!['>'],
        Type::Enum(name) => name@,
    }
}

/// The texts of `ts`, separated by `, `.
pub open spec fn types_text(ts: Seq<Type>) -> Seq<char>
    decreases ts, 0nat,
{
    if ts.len() == 0 {
        Seq::empty()
    } else if ts.len() == 1 {
        type_text(ts[0])
    } else {
        types_text(ts.drop_last()) + seq![',', ' '] + type_text(ts.last())
    }
}

/// `name: type` for each field, separated by `, `.
pub open spec fn fields_text(fs: Seq<(String, Type)>) -> Seq<char>
    decreases fs, 0nat,
{
    if fs.len() == 0 {
        Seq::empty()
    } else if fs.len() == 1 {
        fs[0].0@ + seq![':', ' '] + type_text(fs[0].1)
    } else {
        fields_text(fs.drop_last()) + seq![',', ' '] + fs.last().0@ + seq![':', ' '] + type_text(fs.last().1)
    }
}

fn write_types(ts: &Vec<Type>, out: &mut String)
    ensures
        final(out)@ == old(out)@ + types_text(ts@),
    decreases ts, 0nat,
{
    let ghost start = out@;
    let mut i: usize = 0;
    while i < ts.len()
        invariant
            i <= ts@.len(),
            out@ == start + types_text(ts@.subrange(0, i as int)),
        decreases ts@.len() - i,
    {
        proof { reveal_strlit(", "); }
        let ghost prev = out@;
        if i > 0 {
            out.append(", ");
        }
        write_type(&ts[i], out);
        proof {
            let sub = ts@.subrange(0, i + 1);
            assert(sub.drop_last() =~= ts@.subrange(0, i as int));
            assert(sub.last() == ts@[i as int]);
            if i == 0 {
                assert(types_text(ts@.subrange(0, 0)) == Seq::<char>::empty());
                assert(out@ =~= start + types_text(sub));
            } else {
                assert(out@ =~= start + types_text(sub));
            }
        }
        i = i + 1;
    }
    proof { assert(ts@.subrange(0, ts@.len() as int) =~= ts@); }
}

fn write_fields(fs: &Vec<(String, Type)>, out: &mut String)
    ensures
        final(out)@ == old(out)@ + fields_text(fs@),
    decreases fs, 0nat,
{
    let ghost start = out@;
    let mut i: usize = 0;
    while i < fs.len()
        invariant
            i <= fs@.len(),
            out@ == start + fields_text(fs@.subrange(0, i as int)),
        decreases fs@.len() - i,
    {
        proof {
            reveal_strlit(", ");
            reveal_strlit(": ");
        }
        if i > 0 {
            out.append(", ");
        }
        out.append(fs[i].0.as_str());
        out.append(": ");
        write_type(&fs[i].1, out);
        proof {
            let sub = fs@.subrange(0, i + 1);
            assert(sub.drop_last() =~= fs@.subrange(0, i as int));
            assert(sub.last() == fs@[i as int]);
            if i == 0 {
                assert(fields_text(fs@.subrange(0, 0)) == Seq::<char>::empty());
                assert(out@ =~= start + fields_text(sub));
            } else {
                assert(out@ =~= start + fields_text(sub));
            }
        }
        i = i + 1;
    }
    proof { assert(fs@.subrange(0, fs@.len() as int) =~= fs@); }
}

/// Appends the text of `t` to `out`.
pub fn write_type(t: &Type, out: &mut String)
    ensures
        final(out)@ == old(out)@ + type_text(*t),
    decreases t, 1nat,
{
    proof {
        reveal_strlit("int");
        reveal_strlit("string");
        reveal_strlit("bool");
        reveal_strlit("unit");
        reveal_strlit("fn(");
        reveal_strlit(") -> ");
        reveal_strlit("{");
        reveal_strlit("}");
        reveal_strlit(" {");
        reveal_strlit("(");
        reveal_strlit(")");
        reveal_strlit("[");
        reveal_strlit("]");
        reveal_strlit("<");
        reveal_strlit(">");
    }
    let ghost start = out@;
    match t {
        Type::Primitive(p) => {
            match p {
                PrimitiveType::Int => out.append("int"),
                PrimitiveType::String => out.append("string"),
                PrimitiveType::Bool => out.append("bool"),
                PrimitiveType::Unit => out.append("unit"),
            }
        },
        Type::Var(v) => {
            push_char(out, '\'');
            let n = usize_to_string(v.id);
            out.append(n.as_str());
        },
        Type::Func { params, ret } => {
            out.append("fn(");
            write_types(params, out);
            out.append(") -> ");
            write_type(ret, out);
        },
        Type::Record(fields) => {
            out.append("{");
            write_fields(fields, out);
            out.append("}");
        },
        Type::Struct { name, fields } => {
            out.append(name.as_str());
            out.append(" {");
            write_fields(fields, out);
            out.append("}");
        },
        Type::Tuple(items) => {
            out.append("(");
            write_types(items, out);
            out.append(")");
        },
        Type::Slice(elem) => {
            out.append("[");
            write_type(elem, out);
            out.append("]");
        },
        Type::App(name, args) => {
            out.append(name.as_str());
            out.append("<");
            write_types(args, out);
            out.append(">");
        },
        Type::Enum(name) => {
            out.append(name.as_str());
        },
    }
    proof { assert(out@ =~= start + type_text(*t)); }
}

/// The text of `t`, as `{}` formats a type.
pub fn type_to_string(t: &Type) -> (s: String)
    ensures
        s@ == type_text(*t),
{
    let mut s = String::new();
    write_type(t, &mut s);
    proof { assert(s@ =~= type_text(*t)); }
    s
}

} // verus!
