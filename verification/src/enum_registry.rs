use vstd::prelude::*;
use crate::meta_ast::{EnumVariant, VariantPayload, type_expr_to_string, type_expr_text};
use crate::types::{Type, PrimitiveType, int_type, string_type, bool_type, unit_type};

verus! {

/// A variant's payload with its field type names resolved to types.
#[derive(Debug, Clone)]
pub enum ResolvedPayload {
    Unit,
    Tuple(Vec<Type>),
    Struct(Vec<(String, Type)>),
}

/// One variant of an enum, with its integer tag (its position) and payload.
#[derive(Debug, Clone)]
pub struct ResolvedVariant {
    pub name: String,
    pub tag: u32,
    pub payload: ResolvedPayload,
}

/// Enum names with their ordered, tagged variants.
#[derive(Debug)]
pub struct EnumRegistry {
    enums: Vec<(String, Vec<ResolvedVariant>)>,
}

/// `t` is what the type name `s` resolves to: a primitive for `int`,
/// `string`, `bool` and `unit`; a slice for `[inner]`; an enum otherwise.
pub open spec fn resolves_to(s: Seq<char>, t: Type) -> bool
    decreases s.len(),
{
    if s == seq!['i', 'n', 't'] {
        t == Type::Primitive(PrimitiveType::Int)
    } else if s == seq!['s', 't', 'r', 'i', 'n', 'g'] {
        t == Type::Primitive(PrimitiveType::String)
    } else if s == seq!['b', 'o', 'o', 'l'] {
        t == Type::Primitive(PrimitiveType::Bool)
    } else if s == seq!['u', 'n', 'i', 't'] {
        t == Type::Primitive(PrimitiveType::Unit)
    } else if s.len() >= 2 && s[0] == '[' && s[s.len() - 1] == ']' {
        t matches Type::Slice(inner) && resolves_to(s.subrange(1, s.len() - 1), *inner)
    } else {
        t matches Type::Enum(n) && n@ == s
    }
}

fn str_eq(a: &str, b: &str) -> (r: bool)
    ensures
        r == (a@ == b@),
{
    String::from_str(a) == String::from_str(b)
}

/// The type a source-level type name stands for.
pub fn resolve_type_name(name: &str) -> (t: Type)
    ensures
        resolves_to(name@, t),
        name@ == seq!['i', 'n', 't'] ==> t == Type::Primitive(PrimitiveType::Int),
        name@ == seq!['s', 't', 'r', 'i', 'n', 'g'] ==> t == Type::Primitive(PrimitiveType::String),
        name@ == seq!['b', 'o', 'o', 'l'] ==> t == Type::Primitive(PrimitiveType::Bool),
        name@ == seq!['u', 'n', 'i', 't'] ==> t == Type::Primitive(PrimitiveType::Unit),
    decreases name@.len(),
{
    proof {
        reveal_strlit("int");
        reveal_strlit("string");
        reveal_strlit("bool");
        reveal_strlit("unit");
    }
    if str_eq(name, "int") {
        assert(name@ =~= seq!['i', 'n', 't']);
        int_type()
    } else if str_eq(name, "string") {
        assert(name@ =~= seq!['s', 't', 'r', 'i', 'n', 'g']);
        string_type()
    } else if str_eq(name, "bool") {
        assert(name@ =~= seq!['b', 'o', 'o', 'l']);
        bool_type()
    } else if str_eq(name, "unit") {
        assert(name@ =~= seq!['u', 'n', 'i', 't']);
        unit_type()
    } else {
        proof {
            assert("int"@ =~= seq!['i', 'n', 't']);
            assert("string"@ =~= seq!['s', 't', 'r', 'i', 'n', 'g']);
            assert("bool"@ =~= seq!['b', 'o', 'o', 'l']);
            assert("unit"@ =~= seq!['u', 'n', 'i', 't']);
        }
        let n = name.unicode_len();
        if n >= 2 && name.get_char(0) == '[' && name.get_char(n - 1) == ']' {
            let inner = name.substring_char(1, n - 1);
            Type::Slice(Box::new(resolve_type_name(inner)))
        } else {
            Type::Enum(String::from_str(name))
        }
    }
}

/// `r` is `p` with each field type resolved.
pub open spec fn payload_resolved(p: VariantPayload, r: ResolvedPayload) -> bool {
    match (p, r) {
        (VariantPayload::Unit, ResolvedPayload::Unit) => true,
        (VariantPayload::Tuple(ts), ResolvedPayload::Tuple(rs)) => rs@.len() == ts@.len()
            && forall|i: int| 0 <= i < ts@.len() ==> resolves_to(type_expr_text(ts@[i]), #[trigger] rs@[i]),
        (VariantPayload::Struct(fs), ResolvedPayload::Struct(rs)) => rs@.len() == fs@.len()
            && forall|i: int| 0 <= i < fs@.len() ==> #[trigger] rs@[i].0@ == fs@[i].field_name@
                && resolves_to(fs@[i].field_type@, rs@[i].1),
        _ => false,
    }
}

fn resolve_payload(payload: &VariantPayload) -> (r: ResolvedPayload)
    ensures
        payload_resolved(*payload, r),
{
    match payload {
        VariantPayload::Unit => ResolvedPayload::Unit,
        VariantPayload::Tuple(type_exprs) => {
            let mut out: Vec<Type> = Vec::new();
            let mut i: usize = 0;
            while i < type_exprs.len()
                invariant
                    i <= type_exprs@.len(),
                    out@.len() == i,
                    forall|j: int| 0 <= j < i ==> resolves_to(type_expr_text(type_exprs@[j]), #[trigger] out@[j]),
                decreases type_exprs@.len() - i,
            {
                let text = type_expr_to_string(&type_exprs[i]);
                out.push(resolve_type_name(text.as_str()));
                i = i + 1;
            }
            ResolvedPayload::Tuple(out)
        },
        VariantPayload::Struct(fields) => {
            let mut out: Vec<(String, Type)> = Vec::new();
            let mut i: usize = 0;
            while i < fields.len()
                invariant
                    i <= fields@.len(),
                    out@.len() == i,
                    forall|j: int| 0 <= j < i ==> (#[trigger] out@[j]).0@ == fields@[j].field_name@
                        && resolves_to(fields@[j].field_type@, out@[j].1),
                decreases fields@.len() - i,
            {
                let t = resolve_type_name(fields[i].field_type.as_str());
                out.push((fields[i].field_name.clone(), t));
                i = i + 1;
            }
            ResolvedPayload::Struct(out)
        },
    }
}

/// `rs` is the tagged, resolved form of `vs`: same names, tags counting up
/// from zero, payloads resolved.
pub open spec fn variants_resolved(vs: Seq<EnumVariant>, rs: Seq<ResolvedVariant>) -> bool {
    &&& rs.len() == vs.len()
    &&& forall|i: int| 0 <= i < vs.len() ==> {
            &&& (#[trigger] rs[i]).name@ == vs[i].name@
            &&& rs[i].tag == i
            &&& payload_resolved(vs[i].payload, rs[i].payload)
        }
}

fn resolve_variants(variants: &Vec<EnumVariant>) -> (r: Vec<ResolvedVariant>)
    requires
        variants@.len() <= u32::MAX,
    ensures
        variants_resolved(variants@, r@),
{
    let mut out: Vec<ResolvedVariant> = Vec::new();
    let mut i: usize = 0;
    while i < variants.len()
        invariant
            i <= variants@.len() <= u32::MAX,
            out@.len() == i,
            forall|j: int| 0 <= j < i ==> {
                &&& (#[trigger] out@[j]).name@ == variants@[j].name@
                &&& out@[j].tag == j
                &&& payload_resolved(variants@[j].payload, out@[j].payload)
            },
        decreases variants@.len() - i,
    {
        let v = &variants[i];
        out.push(ResolvedVariant { name: v.name.clone(), tag: i as u32, payload: resolve_payload(&v.payload) });
        i = i + 1;
    }
    out
}

/// The first declaration named `name` among `decls`, if any.
pub open spec fn first_decl(decls: Seq<(String, Vec<EnumVariant>)>, name: Seq<char>) -> Option<Seq<EnumVariant>>
    decreases decls.len(),
{
    if decls.len() == 0 {
        None
    } else if decls[0].0@ == name {
        Some(decls[0].1@)
    } else {
        first_decl(decls.drop_first(), name)
    }
}

/// The entry named `name` in a registry list (the first such entry).
pub open spec fn registry_find(entries: Seq<(String, Vec<ResolvedVariant>)>, name: Seq<char>) -> Option<Seq<ResolvedVariant>>
    decreases entries.len(),
{
    if entries.len() == 0 {
        None
    } else if entries[0].0@ == name {
        Some(entries[0].1@)
    } else {
        registry_find(entries.drop_first(), name)
    }
}

proof fn lemma_registry_find_push(entries: Seq<(String, Vec<ResolvedVariant>)>, e: (String, Vec<ResolvedVariant>))
    requires
        registry_find(entries, e.0@) is None,
    ensures
        registry_find(entries.push(e), e.0@) == Some(e.1@),
        forall|n: Seq<char>| n != e.0@ ==> #[trigger] registry_find(entries.push(e), n) == registry_find(entries, n),
    decreases entries.len(),
{
    let u = entries.push(e);
    if entries.len() > 0 {
        assert(u.drop_first() =~= entries.drop_first().push(e));
        assert(u[0] == entries[0]);
        lemma_registry_find_push(entries.drop_first(), e);
        assert forall|n: Seq<char>| n != e.0@ implies #[trigger] registry_find(u, n) == registry_find(entries, n) by {
            assert(registry_find(entries.drop_first().push(e), n) == registry_find(entries.drop_first(), n));
        }
    } else {
        assert forall|n: Seq<char>| n != e.0@ implies #[trigger] registry_find(u, n) == registry_find(entries, n) by {
            assert(u.drop_first() =~= Seq::<(String, Vec<ResolvedVariant>)>::empty());
            assert(registry_find(u.drop_first(), n) is None);
        }
    }
}

proof fn lemma_first_decl_extend(decls: Seq<(String, Vec<EnumVariant>)>, i: int, name: Seq<char>)
    requires
        0 <= i < decls.len(),
    ensures
        first_decl(decls.subrange(0, i + 1), name) == match first_decl(decls.subrange(0, i), name) {
            Some(v) => Some(v),
            None => if decls[i].0@ == name { Some(decls[i].1@) } else { None },
        },
    decreases i,
{
    let a = decls.subrange(0, i + 1);
    assert(a[0] == decls[0]);
    if i > 0 {
        lemma_first_decl_extend(decls.drop_first(), i - 1, name);
        assert(a.drop_first() =~= decls.drop_first().subrange(0, i));
        assert(decls.subrange(0, i).drop_first() =~= decls.drop_first().subrange(0, i - 1));
        assert(decls.subrange(0, i)[0] == decls[0]);
        assert(decls.drop_first()[i - 1] == decls[i]);
    } else {
        assert(a.drop_first() =~= Seq::<(String, Vec<EnumVariant>)>::empty());
        assert(first_decl(a.drop_first(), name) is None);
        assert(decls.subrange(0, 0) =~= Seq::<(String, Vec<EnumVariant>)>::empty());
    }
}

impl EnumRegistry {
    /// The registered enums, in declaration order.
    pub closed spec fn entries(&self) -> Seq<(String, Vec<ResolvedVariant>)> {
        self.enums@
    }

    /// The variants registered for `name`.
    pub open spec fn spec_get(&self, name: Seq<char>) -> Option<Seq<ResolvedVariant>> {
        registry_find(self.entries(), name)
    }

    /// Builds the registry from the enum declarations, in the order the
    /// program holds them. Where two declarations share a name, the first
    /// one is kept.
    pub fn build(decls: &Vec<(String, Vec<EnumVariant>)>) -> (reg: Self)
        requires
            forall|i: int| 0 <= i < decls@.len() ==> (#[trigger] decls@[i]).1@.len() <= u32::MAX,
        ensures
            forall|name: Seq<char>| #![trigger reg.spec_get(name)] match (reg.spec_get(name), first_decl(decls@, name)) {
                (Some(rs), Some(vs)) => variants_resolved(vs, rs),
                (None, None) => true,
                _ => false,
            },
    {
        let mut enums: Vec<(String, Vec<ResolvedVariant>)> = Vec::new();
        let mut i: usize = 0;
        while i < decls.len()
            invariant
                i <= decls@.len(),
                forall|j: int| 0 <= j < decls@.len() ==> (#[trigger] decls@[j]).1@.len() <= u32::MAX,
                forall|name: Seq<char>| #![trigger registry_find(enums@, name)]
                    match (registry_find(enums@, name), first_decl(decls@.subrange(0, i as int), name)) {
                        (Some(rs), Some(vs)) => variants_resolved(vs, rs),
                        (None, None) => true,
                        _ => false,
                    },
            decreases decls@.len() - i,
        {
            let (name, variants) = (&decls[i].0, &decls[i].1);
            let ghost before = enums@;
            proof {
                assert forall|n: Seq<char>| #![trigger registry_find(enums@, n)] true by {
                    lemma_first_decl_extend(decls@, i as int, n);
                }
            }
            if !Self::contains(&enums, name) {
                let resolved = resolve_variants(variants);
                let entry = (name.clone(), resolved);
                proof { lemma_registry_find_push(before, entry); }
                enums.push(entry);
            }
            proof {
                assert forall|n: Seq<char>| #![trigger registry_find(enums@, n)]
                    match (registry_find(enums@, n), first_decl(decls@.subrange(0, i + 1), n)) {
                        (Some(rs), Some(vs)) => variants_resolved(vs, rs),
                        (None, None) => true,
                        _ => false,
                    } by {
                    lemma_first_decl_extend(decls@, i as int, n);
                    assert(registry_find(before, n) is Some == first_decl(decls@.subrange(0, i as int), n) is Some);
                }
            }
            i = i + 1;
        }
        proof { assert(decls@.subrange(0, decls@.len() as int) =~= decls@); }
        EnumRegistry { enums }
    }

    fn contains(enums: &Vec<(String, Vec<ResolvedVariant>)>, name: &String) -> (b: bool)
        ensures
            b == registry_find(enums@, name@) is Some,
    {
        let mut i: usize = 0;
        proof { assert(enums@.subrange(0, enums@.len() as int) =~= enums@); }
        while i < enums.len()
            invariant
                i <= enums@.len(),
                registry_find(enums@, name@) == registry_find(enums@.subrange(i as int, enums@.len() as int), name@),
            decreases enums@.len() - i,
        {
            proof {
                let rest = enums@.subrange(i as int, enums@.len() as int);
                assert(rest.drop_first() =~= enums@.subrange(i + 1, enums@.len() as int));
                assert(rest[0] == enums@[i as int]);
            }
            if enums[i].0 == *name {
                return true;
            }
            i = i + 1;
        }
        false
    }

    /// The variants of enum `name`.
    pub fn get(&self, name: &str) -> (r: Option<&Vec<ResolvedVariant>>)
        ensures
            match r {
                Some(v) => self.spec_get(name@) == Some(v@),
                None => self.spec_get(name@) is None,
            },
    {
        let key = String::from_str(name);
        let mut i: usize = 0;
        proof { assert(self.enums@.subrange(0, self.enums@.len() as int) =~= self.enums@); }
        while i < self.enums.len()
            invariant
                i <= self.enums@.len(),
                key@ == name@,
                registry_find(self.enums@, name@) == registry_find(self.enums@.subrange(i as int, self.enums@.len() as int), name@),
            decreases self.enums@.len() - i,
        {
            proof {
                let rest = self.enums@.subrange(i as int, self.enums@.len() as int);
                assert(rest.drop_first() =~= self.enums@.subrange(i + 1, self.enums@.len() as int));
                assert(rest[0] == self.enums@[i as int]);
            }
            if self.enums[i].0 == key {
                return Some(&self.enums[i].1);
            }
            i = i + 1;
        }
        None
    }

    /// Every registered enum with its variants.
    pub fn iter(&self) -> (r: &Vec<(String, Vec<ResolvedVariant>)>)
        ensures
            r@ == self.entries(),
    {
        &self.enums
    }
}

/// Building keeps the first declaration of a name, and each variant's tag is
/// its position in that declaration.
pub proof fn law_first_declaration_wins(decls: Seq<(String, Vec<EnumVariant>)>, reg: EnumRegistry, name: Seq<char>, i: int)
    requires
        forall|n: Seq<char>| #![trigger reg.spec_get(n)] match (reg.spec_get(n), first_decl(decls, n)) {
            (Some(rs), Some(vs)) => variants_resolved(vs, rs),
            (None, None) => true,
            _ => false,
        },
        0 <= i < decls.len(),
        decls[i].0@ == name,
        forall|j: int| 0 <= j < i ==> #[trigger] decls[j].0@ != name,
    ensures
        reg.spec_get(name) matches Some(rs) && variants_resolved(decls[i].1@, rs)
            && forall|k: int| 0 <= k < rs.len() ==> (#[trigger] rs[k]).tag == k,
    decreases i,
{
    lemma_first_decl_at(decls, i, name);
    assert(reg.spec_get(name) is Some);
}

proof fn lemma_first_decl_at(decls: Seq<(String, Vec<EnumVariant>)>, i: int, name: Seq<char>)
    requires
        0 <= i < decls.len(),
        decls[i].0@ == name,
        forall|j: int| 0 <= j < i ==> #[trigger] decls[j].0@ != name,
    ensures
        first_decl(decls, name) == Some(decls[i].1@),
    decreases i,
{
    if i > 0 {
        lemma_first_decl_at(decls.drop_first(), i - 1, name);
    }
}

/// The primitive type names `int`, `string`, `bool` and `unit` stand for
/// their primitive types and for nothing else.
pub proof fn law_primitive_type_names(t: Type)
    ensures
        resolves_to(seq!['i', 'n', 't'], t) <==> t == Type::Primitive(PrimitiveType::Int),
        resolves_to(seq!['s', 't', 'r', 'i', 'n', 'g'], t) <==> t == Type::Primitive(PrimitiveType::String),
        resolves_to(seq!['b', 'o', 'o', 'l'], t) <==> t == Type::Primitive(PrimitiveType::Bool),
        resolves_to(seq!['u', 'n', 'i', 't'], t) <==> t == Type::Primitive(PrimitiveType::Unit),
{
}

/// A name that is not a primitive's and not bracketed stands for the enum
/// of that name.
pub proof fn law_other_names_are_enums(s: Seq<char>, t: Type)
    requires
        s != seq!['i', 'n', 't'],
        s != seq!['s', 't', 'r', 'i', 'n', 'g'],
        s != seq!['b', 'o', 'o', 'l'],
        s != seq!['u', 'n', 'i', 't'],
        !(s.len() >= 2 && s[0] == '[' && s[s.len() - 1] == ']'),
    ensures
        resolves_to(s, t) <==> (t matches Type::Enum(n) && n@ == s),
{
}

/// `[name]` stands for the slice of what `name` stands for.
pub proof fn law_bracketed_names_are_slices(s: Seq<char>, t: Type)
    ensures
        resolves_to(seq!['['] + s + seq![']'], t) <==> (t matches Type::Slice(inner) && resolves_to(s, *inner)),
{
    let b = seq!['['] + s + seq![']'];
    assert(b.len() >= 2 && b[0] == '[' && b[b.len() - 1] == ']');
    assert(b.subrange(1, b.len() - 1) =~= s);
    assert(b != seq!['i', 'n', 't']) by { if b == seq!['i', 'n', 't'] { assert(b[0] == 'i'); } }
    assert(b != seq!['s', 't', 'r', 'i', 'n', 'g']) by { if b == seq!['s', 't', 'r', 'i', 'n', 'g'] { assert(b[0] == 's'); } }
    assert(b != seq!['b', 'o', 'o', 'l']) by { if b == seq!['b', 'o', 'o', 'l'] { assert(b[0] == 'b'); } }
    assert(b != seq!['u', 'n', 'i', 't']) by { if b == seq!['u', 'n', 'i', 't'] { assert(b[0] == 'u'); } }
}

} // verus!
