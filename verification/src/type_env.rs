use vstd::prelude::*;
use crate::meta_ast::EnumVariant;
use crate::types::{Type, TypeScheme, TypeVar, clone_type, type_text, types_text, fields_text, primitive_text};
use crate::text::nat_text;

verus! {

/// The variables a scheme is generalised over (none for a mono type).
pub open spec fn scheme_vars(s: TypeScheme) -> Seq<TypeVar> {
    match s {
        TypeScheme::MonoType(_) => Seq::empty(),
        TypeScheme::PolyType { vars, .. } => vars@,
    }
}

pub open spec fn scheme_is_poly(s: TypeScheme) -> bool {
    s is PolyType
}

/// The text of the scheme's body type.
pub open spec fn scheme_text(s: TypeScheme) -> Seq<char> {
    match s {
        TypeScheme::MonoType(t) => type_text(t),
        TypeScheme::PolyType { ty, .. } => type_text(ty),
    }
}

/// Two schemes are copies of each other.
pub open spec fn same_scheme(a: TypeScheme, b: TypeScheme) -> bool {
    &&& scheme_is_poly(a) == scheme_is_poly(b)
    &&& scheme_vars(a) == scheme_vars(b)
    &&& scheme_text(a) == scheme_text(b)
}

fn clone_vars(v: &Vec<TypeVar>) -> (r: Vec<TypeVar>)
    ensures
        r@ == v@,
{
    let mut out: Vec<TypeVar> = Vec::new();
    let mut i: usize = 0;
    while i < v.len()
        invariant
            i <= v@.len(),
            out@ == v@.subrange(0, i as int),
        decreases v@.len() - i,
    {
        out.push(v[i]);
        proof { assert(out@ =~= v@.subrange(0, i + 1)); }
        i = i + 1;
    }
    proof { assert(out@ =~= v@); }
    out
}

/// A copy of `s`.
pub fn clone_scheme(s: &TypeScheme) -> (r: TypeScheme)
    ensures
        same_scheme(r, *s),
{
    match s {
        TypeScheme::MonoType(t) => TypeScheme::MonoType(clone_type(t)),
        TypeScheme::PolyType { vars, ty } => TypeScheme::PolyType { vars: clone_vars(vars), ty: clone_type(ty) },
    }
}

// ── Scopes ───────────────────────────────────────────────────────────────────

pub type Scope = Seq<(Seq<char>, TypeScheme)>;

/// The binding of `name` in one scope (the latest entry wins).
pub open spec fn scope_find(scope: Scope, name: Seq<char>) -> Option<TypeScheme>
    decreases scope.len(),
{
    if scope.len() == 0 {
        None
    } else if scope.last().0 == name {
        Some(scope.last().1)
    } else {
        scope_find(scope.drop_last(), name)
    }
}

/// The binding of `name`, from the innermost scope outwards.
pub open spec fn env_find(scopes: Seq<Scope>, name: Seq<char>) -> Option<TypeScheme>
    decreases scopes.len(),
{
    if scopes.len() == 0 {
        None
    } else {
        match scope_find(scopes.last(), name) {
            Some(s) => Some(s),
            None => env_find(scopes.drop_last(), name),
        }
    }
}

pub open spec fn entries_view(entries: Seq<(String, TypeScheme)>) -> Scope {
    entries.map_values(|e: (String, TypeScheme)| (e.0@, e.1))
}

/// Typing environment: a stack of scopes from names to type schemes, a
/// counter for fresh type variables, and the declared enums.
pub struct TypeEnv {
    scopes: Vec<Vec<(String, TypeScheme)>>,
    next_id: usize,
    pub enums: Vec<(String, Vec<EnumVariant>)>,
}

impl TypeEnv {
    /// The scopes, outermost first, each as its list of bindings.
    pub closed spec fn scopes_view(&self) -> Seq<Scope> {
        self.scopes@.map_values(|s: Vec<(String, TypeScheme)>| entries_view(s@))
    }

    /// The registered enums, in registration order.
    pub closed spec fn enum_list(&self) -> Seq<(String, Vec<EnumVariant>)> {
        self.enums@
    }

    /// The next type variable `fresh` hands out.
    pub closed spec fn next_var(&self) -> nat {
        self.next_id as nat
    }

    /// The type bound to `name`, if any.
    pub open spec fn binding(&self, name: Seq<char>) -> Option<TypeScheme> {
        env_find(self.scopes_view(), name)
    }

    /// One empty global scope, no enums.
    pub fn new() -> (env: Self)
        ensures
            env.scopes_view() == seq![Seq::<(Seq<char>, TypeScheme)>::empty()],
            env.next_var() == 0,
            env.enum_list().len() == 0,
    {
        let mut scopes: Vec<Vec<(String, TypeScheme)>> = Vec::new();
        scopes.push(Vec::new());
        let env = TypeEnv { scopes, next_id: 0, enums: Vec::new() };
        proof {
            assert(env.scopes@.len() == 1);
            assert(env.scopes@[0]@.len() == 0);
            assert(entries_view(env.scopes@[0]@) =~= Seq::<(Seq<char>, TypeScheme)>::empty());
            assert(env.scopes_view() =~= seq![Seq::<(Seq<char>, TypeScheme)>::empty()]);
        }
        env
    }

    /// Records (or replaces) the variants of enum `name`.
    pub fn register_enum(&mut self, name: &str, variants: Vec<EnumVariant>)
        ensures
            final(self).scopes_view() == old(self).scopes_view(),
            final(self).next_var() == old(self).next_var(),
            enum_find(final(self).enum_list(), name@) == Some(variants@),
            forall|n: Seq<char>| n != name@ ==> #[trigger] enum_find(final(self).enum_list(), n) == enum_find(old(self).enum_list(), n),
    {
        let key = String::from_str(name);
        let ghost sv = self.scopes_view();
        let ghost nv = self.next_var();
        let ghost before = self.enums@;
        let mut i: usize = 0;
        while i < self.enums.len()
            invariant
                i <= self.enums@.len(),
                key@ == name@,
                self.scopes_view() == sv,
                self.next_var() == nv,
                self.enums@ == before,
                sv == old(self).scopes_view(),
                nv == old(self).next_var(),
                before == old(self).enum_list(),
                forall|j: int| 0 <= j < i ==> #[trigger] self.enums@[j].0@ != name@,
            decreases self.enums@.len() - i,
        {
            if self.enums[i].0 == key {
                let entry = (key, variants);
                proof { lemma_enum_find_update(before, i as int, name@, entry); }
                self.enums.set(i, entry);
                return;
            }
            i = i + 1;
        }
        let entry = (key, variants);
        proof { lemma_enum_find_push(before, name@, entry); }
        self.enums.push(entry);
    }

    /// The variants of enum `name`, if it was registered.
    pub fn lookup_enum(&self, name: &str) -> (r: Option<&Vec<EnumVariant>>)
        ensures
            match r {
                Some(v) => enum_find(self.enum_list(), name@) == Some(v@),
                None => enum_find(self.enum_list(), name@) is None,
            },
    {
        let key = String::from_str(name);
        let mut i: usize = 0;
        while i < self.enums.len()
            invariant
                i <= self.enums@.len(),
                key@ == name@,
                forall|j: int| 0 <= j < i ==> #[trigger] self.enums@[j].0@ != name@,
            decreases self.enums@.len() - i,
        {
            if self.enums[i].0 == key {
                proof { lemma_enum_find_at(self.enums@, i as int, name@); }
                return Some(&self.enums[i].1);
            }
            i = i + 1;
        }
        proof { lemma_enum_find_none(self.enums@, name@); }
        None
    }

    /// A type variable never handed out before.
    pub fn fresh(&mut self) -> (v: TypeVar)
        requires
            old(self).next_var() < usize::MAX,
        ensures
            v.id == old(self).next_var(),
            final(self).next_var() == old(self).next_var() + 1,
            final(self).scopes_view() == old(self).scopes_view(),
            final(self).enum_list() == old(self).enum_list(),
    {
        let id = self.next_id;
        self.next_id = self.next_id + 1;
        TypeVar { id }
    }

    /// The type bound to `name`, with a poly scheme's variables replaced
    /// by fresh ones (one per quantified variable, in order).
    pub fn lookup(&mut self, name: &str) -> (r: Option<Type>)
        requires
            old(self).next_var() + instantiate_cost(old(self).binding(name@)) <= usize::MAX,
        ensures
            final(self).scopes_view() == old(self).scopes_view(),
            final(self).enum_list() == old(self).enum_list(),
            match old(self).binding(name@) {
                None => r is None && final(self).next_var() == old(self).next_var(),
                Some(s) => r matches Some(t) && final(self).next_var() == old(self).next_var() + instantiate_cost(Some(s))
                    && (s is MonoType ==> type_text(t) == scheme_text(s))
                    && type_text(t) == instance_text(s, old(self).next_var()),
            },
    {
        let count = match self.binding_ref(name) {
            None => return None,
            Some(TypeScheme::MonoType(_)) => 0,
            Some(TypeScheme::PolyType { vars, .. }) => vars.len(),
        };
        let ghost n = self.next_var();
        let fresh = self.fresh_vars_n(count);
        match self.binding_ref(name) {
            Some(scheme) => Some(instantiate_with(scheme, &fresh, Ghost(n))),
            None => None,
        }
    }

    /// The scheme bound to `name`, in place.
    fn binding_ref(&self, name: &str) -> (r: Option<&TypeScheme>)
        ensures
            match r {
                Some(s) => self.binding(name@) == Some(*s),
                None => self.binding(name@) is None,
            },
    {
        let key = String::from_str(name);
        let ghost sv = self.scopes_view();
        let mut k: usize = self.scopes.len();
        while k > 0
            invariant
                k <= self.scopes@.len(),
                key@ == name@,
                sv == self.scopes_view(),
                forall|m: int| k <= m < sv.len() ==> #[trigger] scope_find(sv[m], name@) is None,
            decreases k,
        {
            let scope = &self.scopes[k - 1];
            assert(sv[k - 1] == entries_view(scope@));
            match find_in_scope(scope, &key) {
                Some(j) => {
                    proof { lemma_env_find_at(sv, name@, k - 1); }
                    return Some(&scope[j].1);
                },
                None => {},
            }
            k = k - 1;
        }
        proof { lemma_env_find_none(sv, name@); }
        None
    }

    /// `count` fresh variables, numbered on from the next one.
    fn fresh_vars_n(&mut self, count: usize) -> (r: Vec<TypeVar>)
        requires
            old(self).next_var() + count <= usize::MAX,
        ensures
            r@ == fresh_vars(old(self).next_var(), count as nat),
            final(self).next_var() == old(self).next_var() + count,
            final(self).scopes_view() == old(self).scopes_view(),
            final(self).enum_list() == old(self).enum_list(),
    {
        let mut fresh: Vec<TypeVar> = Vec::new();
        let mut i: usize = 0;
        let ghost start = self.next_var();
        while i < count
            invariant
                i <= count,
                self.next_var() == start + i,
                start + count <= usize::MAX,
                self.scopes_view() == old(self).scopes_view(),
                self.enum_list() == old(self).enum_list(),
                start == old(self).next_var(),
                fresh@ == fresh_vars(start, i as nat),
            decreases count - i,
        {
            let v = self.fresh();
            fresh.push(v);
            proof { assert(fresh@ =~= fresh_vars(start, (i + 1) as nat)); }
            i = i + 1;
        }
        fresh
    }

    /// Binds `name` to `ty` in the innermost scope, replacing a binding of
    /// the same name there.
    pub fn bind(&mut self, name: &str, ty: TypeScheme)
        requires
            old(self).scopes_view().len() > 0,
        ensures
            bound(old(self).scopes_view(), final(self).scopes_view(), name@, ty),
            final(self).next_var() == old(self).next_var(),
            final(self).enum_list() == old(self).enum_list(),
    {
        let key = String::from_str(name);
        let ghost old_view = self.scopes_view();
        let mut scope = match self.scopes.pop() {
            Some(sc) => sc,
            None => Vec::new(),
        };
        let ghost old_scope = entries_view(scope@);
        assert(old_scope == old_view.last());
        match find_in_scope(&scope, &key) {
            Some(j) => {
                let ghost before = scope@;
                scope.set(j, (key, ty));
                proof {
                    assert(entries_view(scope@) =~= old_scope.update(j as int, (name@, ty)));
                    lemma_scope_find_update(old_scope, j as int, name@, ty);
                }
            },
            None => {
                scope.push((key, ty));
                proof {
                    assert(entries_view(scope@) =~= old_scope.push((name@, ty)));
                    lemma_scope_find_push(old_scope, name@, ty);
                }
            },
        }
        let ghost new_scope = entries_view(scope@);
        self.scopes.push(scope);
        proof {
            assert(self.scopes_view() =~= old_view.drop_last().push(new_scope));
            assert(self.scopes_view().drop_last() =~= old_view.drop_last());
            assert(self.scopes_view().last() == new_scope);
        }
    }

    /// Binds `name` to the mono type `mono`.
    pub fn bind_mono(&mut self, name: &str, mono: Type)
        requires
            old(self).scopes_view().len() > 0,
        ensures
            bound(old(self).scopes_view(), final(self).scopes_view(), name@, TypeScheme::MonoType(mono)),
            final(self).next_var() == old(self).next_var(),
            final(self).enum_list() == old(self).enum_list(),
    {
        self.bind(name, TypeScheme::MonoType(mono))
    }

    /// Opens a new, empty innermost scope.
    pub fn push_scope(&mut self)
        ensures
            final(self).scopes_view() == old(self).scopes_view().push(Seq::<(Seq<char>, TypeScheme)>::empty()),
            final(self).next_var() == old(self).next_var(),
            final(self).enum_list() == old(self).enum_list(),
    {
        self.scopes.push(Vec::new());
        proof {
            assert(entries_view(Seq::<(String, TypeScheme)>::empty()) =~= Seq::<(Seq<char>, TypeScheme)>::empty());
            assert(self.scopes_view() =~= old(self).scopes_view().push(Seq::<(Seq<char>, TypeScheme)>::empty()));
        }
    }

    /// Closes the innermost scope, dropping its bindings. The global scope
    /// is never closed: a scope must have been pushed over it.
    pub fn pop_scope(&mut self)
        requires
            old(self).scopes_view().len() > 1,
        ensures
            final(self).scopes_view() == old(self).scopes_view().drop_last(),
            final(self).next_var() == old(self).next_var(),
            final(self).enum_list() == old(self).enum_list(),
    {
        let _ = self.scopes.pop();
        proof {
            assert(self.scopes_view() =~= old(self).scopes_view().drop_last());
        }
    }

    /// Every bound scheme, scope by scope from the outermost.
    pub fn all_types(&self) -> (r: Vec<TypeScheme>)
        ensures
            r@.len() == all_entries(self.scopes_view()).len(),
            forall|i: int| 0 <= i < r@.len() ==> same_scheme(#[trigger] r@[i], all_entries(self.scopes_view())[i].1),
    {
        let ghost sv = self.scopes_view();
        let mut out: Vec<TypeScheme> = Vec::new();
        let mut k: usize = 0;
        while k < self.scopes.len()
            invariant
                k <= self.scopes@.len(),
                sv == self.scopes_view(),
                out@.len() == all_entries(sv.subrange(0, k as int)).len(),
                forall|i: int| 0 <= i < out@.len() ==> same_scheme(#[trigger] out@[i], all_entries(sv.subrange(0, k as int))[i].1),
            decreases self.scopes@.len() - k,
        {
            let scope = &self.scopes[k];
            let ghost base = out@.len();
            let ghost ev = entries_view(scope@);
            assert(sv[k as int] == ev);
            let mut j: usize = 0;
            while j < scope.len()
                invariant
                    j <= scope@.len(),
                    ev == entries_view(scope@),
                    out@.len() == base + j,
                    base == all_entries(sv.subrange(0, k as int)).len(),
                    forall|i: int| 0 <= i < base ==> same_scheme(#[trigger] out@[i], all_entries(sv.subrange(0, k as int))[i].1),
                    forall|i: int| base <= i < out@.len() ==> same_scheme(#[trigger] out@[i], ev[i - base].1),
                decreases scope@.len() - j,
            {
                out.push(clone_scheme(&scope[j].1));
                j = j + 1;
            }
            proof {
                let next = sv.subrange(0, k + 1);
                assert(next.drop_last() =~= sv.subrange(0, k as int));
                assert(next.last() == ev);
                assert(all_entries(next) == all_entries(sv.subrange(0, k as int)) + ev);
            }
            k = k + 1;
        }
        proof { assert(sv.subrange(0, sv.len() as int) =~= sv); }
        out
    }

    /// The scheme bound to `name` in the innermost scope that binds it.
    pub fn get_type(&self, name: &str) -> (r: Option<TypeScheme>)
        ensures
            match (r, self.binding(name@)) {
                (Some(a), Some(b)) => same_scheme(a, b),
                (None, None) => true,
                _ => false,
            },
    {
        let key = String::from_str(name);
        let ghost sv = self.scopes_view();
        let mut k: usize = self.scopes.len();
        while k > 0
            invariant
                k <= self.scopes@.len(),
                key@ == name@,
                sv == self.scopes_view(),
                forall|m: int| k <= m < sv.len() ==> #[trigger] scope_find(sv[m], name@) is None,
            decreases k,
        {
            let scope = &self.scopes[k - 1];
            assert(sv[k - 1] == entries_view(scope@));
            match find_in_scope(scope, &key) {
                Some(j) => {
                    proof { lemma_env_find_at(sv, name@, k - 1); }
                    return Some(clone_scheme(&scope[j].1));
                },
                None => {},
            }
            k = k - 1;
        }
        proof { lemma_env_find_none(sv, name@); }
        None
    }
}

/// The variants registered for enum `name` (the first entry wins).
pub open spec fn enum_find(enums: Seq<(String, Vec<EnumVariant>)>, name: Seq<char>) -> Option<Seq<EnumVariant>>
    decreases enums.len(),
{
    if enums.len() == 0 {
        None
    } else if enums[0].0@ == name {
        Some(enums[0].1@)
    } else {
        enum_find(enums.drop_first(), name)
    }
}

proof fn lemma_enum_find_at(enums: Seq<(String, Vec<EnumVariant>)>, i: int, name: Seq<char>)
    requires
        0 <= i < enums.len(),
        enums[i].0@ == name,
        forall|j: int| 0 <= j < i ==> #[trigger] enums[j].0@ != name,
    ensures
        enum_find(enums, name) == Some(enums[i].1@),
    decreases i,
{
    if i > 0 {
        lemma_enum_find_at(enums.drop_first(), i - 1, name);
    }
}

proof fn lemma_enum_find_none(enums: Seq<(String, Vec<EnumVariant>)>, name: Seq<char>)
    requires
        forall|j: int| 0 <= j < enums.len() ==> #[trigger] enums[j].0@ != name,
    ensures
        enum_find(enums, name) is None,
    decreases enums.len(),
{
    if enums.len() > 0 {
        lemma_enum_find_none(enums.drop_first(), name);
    }
}

proof fn lemma_enum_find_update(enums: Seq<(String, Vec<EnumVariant>)>, i: int, name: Seq<char>,
    e: (String, Vec<EnumVariant>))
    requires
        0 <= i < enums.len(),
        enums[i].0@ == name,
        e.0@ == name,
        forall|j: int| 0 <= j < i ==> #[trigger] enums[j].0@ != name,
    ensures
        enum_find(enums.update(i, e), name) == Some(e.1@),
        forall|n: Seq<char>| n != name ==> #[trigger] enum_find(enums.update(i, e), n) == enum_find(enums, n),
    decreases i,
{
    let u = enums.update(i, e);
    if i == 0 {
        assert(u.drop_first() =~= enums.drop_first());
    } else {
        lemma_enum_find_update(enums.drop_first(), i - 1, name, e);
        assert(u.drop_first() =~= enums.drop_first().update(i - 1, e));
    }
    assert forall|n: Seq<char>| n != name implies #[trigger] enum_find(u, n) == enum_find(enums, n) by {
        if i == 0 {
            assert(enum_find(u, n) == enum_find(u.drop_first(), n));
            assert(enum_find(enums, n) == enum_find(enums.drop_first(), n));
        } else {
            assert(u[0] == enums[0]);
        }
    }
}

proof fn lemma_enum_find_push(enums: Seq<(String, Vec<EnumVariant>)>, name: Seq<char>, e: (String, Vec<EnumVariant>))
    requires
        e.0@ == name,
        forall|j: int| 0 <= j < enums.len() ==> #[trigger] enums[j].0@ != name,
    ensures
        enum_find(enums.push(e), name) == Some(e.1@),
        forall|n: Seq<char>| n != name ==> #[trigger] enum_find(enums.push(e), n) == enum_find(enums, n),
    decreases enums.len(),
{
    let u = enums.push(e);
    if enums.len() > 0 {
        lemma_enum_find_push(enums.drop_first(), name, e);
        assert(u.drop_first() =~= enums.drop_first().push(e));
        assert(u[0] == enums[0]);
        assert forall|n: Seq<char>| n != name implies #[trigger] enum_find(u, n) == enum_find(enums, n) by {
            assert(enum_find(enums.drop_first().push(e), n) == enum_find(enums.drop_first(), n));
        }
    } else {
        assert forall|n: Seq<char>| n != name implies #[trigger] enum_find(u, n) == enum_find(enums, n) by {
            assert(u.drop_first() =~= Seq::<(String, Vec<EnumVariant>)>::empty());
            assert(enum_find(u.drop_first(), n) is None);
        }
    }
}

/// `new` is `old` with `name` bound to `ty` in the innermost scope: the
/// outer scopes are untouched, and so is every other name.
pub open spec fn bound(old: Seq<Scope>, new: Seq<Scope>, name: Seq<char>, ty: TypeScheme) -> bool {
    &&& new.len() == old.len()
    &&& new.drop_last() == old.drop_last()
    &&& scope_find(new.last(), name) == Some(ty)
    &&& forall|n: Seq<char>| n != name ==> #[trigger] scope_find(new.last(), n) == scope_find(old.last(), n)
}

/// Every binding of every scope, outermost scope first.
pub open spec fn all_entries(scopes: Seq<Scope>) -> Scope
    decreases scopes.len(),
{
    if scopes.len() == 0 {
        Seq::empty()
    } else {
        all_entries(scopes.drop_last()) + scopes.last()
    }
}

proof fn lemma_scope_find_update(sc: Scope, j: int, name: Seq<char>, ty: TypeScheme)
    requires
        0 <= j < sc.len(),
        sc[j].0 == name,
        scope_find(sc, name) == Some(sc[j].1),
        forall|k: int| j < k < sc.len() ==> #[trigger] sc[k].0 != name,
    ensures
        scope_find(sc.update(j, (name, ty)), name) == Some(ty),
        forall|n: Seq<char>| n != name ==> #[trigger] scope_find(sc.update(j, (name, ty)), n) == scope_find(sc, n),
    decreases sc.len(),
{
    let u = sc.update(j, (name, ty));
    if j == sc.len() - 1 {
        assert(u.drop_last() =~= sc.drop_last());
    } else {
        assert(sc.last().0 != name);
        lemma_scope_find_last(sc.drop_last(), name, j);
        lemma_scope_find_update(sc.drop_last(), j, name, ty);
        assert(u.drop_last() =~= sc.drop_last().update(j, (name, ty)));
    }
    assert forall|n: Seq<char>| n != name implies #[trigger] scope_find(u, n) == scope_find(sc, n) by {
        if j == sc.len() - 1 {
            assert(scope_find(u, n) == scope_find(u.drop_last(), n));
            assert(scope_find(sc, n) == scope_find(sc.drop_last(), n));
        } else {
            assert(u.last() == sc.last());
        }
    }
}

proof fn lemma_scope_find_push(sc: Scope, name: Seq<char>, ty: TypeScheme)
    ensures
        scope_find(sc.push((name, ty)), name) == Some(ty),
        forall|n: Seq<char>| n != name ==> #[trigger] scope_find(sc.push((name, ty)), n) == scope_find(sc, n),
{
    assert(sc.push((name, ty)).drop_last() =~= sc);
}

/// A name just bound is found with the bound scheme, and binding one name
/// changes the lookup of no other name.
pub proof fn law_bind_then_lookup(before: Seq<Scope>, after: Seq<Scope>, name: Seq<char>, ty: TypeScheme)
    requires
        before.len() > 0,
        bound(before, after, name, ty),
    ensures
        env_find(after, name) == Some(ty),
        forall|n: Seq<char>| n != name ==> #[trigger] env_find(after, n) == env_find(before, n),
{
    assert forall|n: Seq<char>| n != name implies #[trigger] env_find(after, n) == env_find(before, n) by {
        assert(after.drop_last() == before.drop_last());
    }
}

/// A binding made in a pushed scope is gone once that scope is popped: the
/// scopes are exactly as before the push.
pub proof fn law_scoped_binding_is_undone(before: Seq<Scope>, pushed: Seq<Scope>, bound_in: Seq<Scope>,
    popped: Seq<Scope>, name: Seq<char>, ty: TypeScheme)
    requires
        pushed == before.push(Seq::<(Seq<char>, TypeScheme)>::empty()),
        bound(pushed, bound_in, name, ty),
        popped == bound_in.drop_last(),
    ensures
        popped == before,
{
    assert(pushed.drop_last() =~= before);
}

/// Two type variables handed out one after the other differ.
pub proof fn law_fresh_vars_differ(start: nat, first: TypeVar, mid: nat, second: TypeVar)
    requires
        first.id == start,
        mid == start + 1,
        second.id == mid,
    ensures
        first != second,
        first.id < second.id,
{
}

/// The number of fresh variables instantiating a binding takes.
pub open spec fn instantiate_cost(b: Option<TypeScheme>) -> nat {
    match b {
        Some(TypeScheme::PolyType { vars, .. }) => vars@.len(),
        _ => 0,
    }
}

/// The fresh variable standing for `v`, if `v` is one of `vars`.
pub open spec fn renamed(vars: Seq<TypeVar>, fresh: Seq<TypeVar>, v: TypeVar) -> TypeVar
    decreases vars.len(),
{
    if vars.len() == 0 || fresh.len() == 0 {
        v
    } else if vars[0] == v {
        fresh[0]
    } else {
        renamed(vars.drop_first(), fresh.drop_first(), v)
    }
}

fn rename_var(vars: &Vec<TypeVar>, fresh: &Vec<TypeVar>, v: TypeVar) -> (r: TypeVar)
    ensures
        r == renamed(vars@, fresh@, v),
{
    let mut i: usize = 0;
    proof {
        assert(vars@.subrange(0, vars@.len() as int) =~= vars@);
        assert(fresh@.subrange(0, fresh@.len() as int) =~= fresh@);
    }
    while i < vars.len() && i < fresh.len()
        invariant
            i <= vars@.len(),
            i <= fresh@.len(),
            renamed(vars@, fresh@, v) == renamed(vars@.subrange(i as int, vars@.len() as int),
                fresh@.subrange(i as int, fresh@.len() as int), v),
        decreases vars@.len() - i,
    {
        proof {
            let a = vars@.subrange(i as int, vars@.len() as int);
            let b = fresh@.subrange(i as int, fresh@.len() as int);
            assert(a.drop_first() =~= vars@.subrange(i + 1, vars@.len() as int));
            assert(b.drop_first() =~= fresh@.subrange(i + 1, fresh@.len() as int));
        }
        if vars[i] == v {
            return fresh[i];
        }
        i = i + 1;
    }
    proof {
        let a = vars@.subrange(i as int, vars@.len() as int);
        let b = fresh@.subrange(i as int, fresh@.len() as int);
        assert(a.len() == 0 || b.len() == 0);
    }
    v
}

/// How `t` is written once each variable of `vars` is replaced by the
/// matching one of `fresh` (see `type_text`).
pub open spec fn renamed_text(t: Type, vars: Seq<TypeVar>, fresh: Seq<TypeVar>) -> Seq<char>
    decreases t, 1nat,
{
    match t {
        Type::Primitive(p) => primitive_text(p),
        Type::Var(v) => seq!['\''] + nat_text(renamed(vars, fresh, v).id as nat),
        Type::Func { params, ret } => seq!['f', 'n', '('] + renamed_types_text(params@, vars, fresh)
            + seq![')', ' ', '-', '>', ' '] + renamed_text(*ret, vars, fresh),
        Type::Record(fields) => seq!['{'] + renamed_fields_text(fields@, vars, fresh) + seq!['}'],
        Type::Struct { name, fields } => name@ + seq![' ', '{'] + renamed_fields_text(fields@, vars, fresh) + seq!['}'],
        Type::Tuple(items) => seq!['('] + renamed_types_text(items@, vars, fresh) + seq![')'],
        Type::Slice(elem) => seq!['['] + renamed_text(*elem, vars, fresh) + seq![']'],
        Type::App(name, args) => name@ + seq!['<'] + renamed_types_text(args@, vars, fresh) + seq!['>'],
        Type::Enum(name) => name@,
    }
}

pub open spec fn renamed_types_text(ts: Seq<Type>, vars: Seq<TypeVar>, fresh: Seq<TypeVar>) -> Seq<char>
    decreases ts, 0nat,
{
    if ts.len() == 0 {
        Seq::empty()
    } else if ts.len() == 1 {
        renamed_text(ts[0], vars, fresh)
    } else {
        renamed_types_text(ts.drop_last(), vars, fresh) + seq![',', ' '] + renamed_text(ts.last(), vars, fresh)
    }
}

pub open spec fn renamed_fields_text(fs: Seq<(String, Type)>, vars: Seq<TypeVar>, fresh: Seq<TypeVar>) -> Seq<char>
    decreases fs, 0nat,
{
    if fs.len() == 0 {
        Seq::empty()
    } else if fs.len() == 1 {
        fs[0].0@ + seq![':', ' '] + renamed_text(fs[0].1, vars, fresh)
    } else {
        renamed_fields_text(fs.drop_last(), vars, fresh) + seq![',', ' '] + fs.last().0@ + seq![':', ' ']
            + renamed_text(fs.last().1, vars, fresh)
    }
}

fn subst_types(ts: &Vec<Type>, vars: &Vec<TypeVar>, fresh: &Vec<TypeVar>) -> (r: Vec<Type>)
    ensures
        r@.len() == ts@.len(),
        types_text(r@) == renamed_types_text(ts@, vars@, fresh@),
    decreases ts, 0nat,
{
    let mut out: Vec<Type> = Vec::new();
    let mut i: usize = 0;
    while i < ts.len()
        invariant
            i <= ts@.len(),
            out@.len() == i,
            types_text(out@) == renamed_types_text(ts@.subrange(0, i as int), vars@, fresh@),
        decreases ts@.len() - i,
    {
        let x = subst_type(&ts[i], vars, fresh);
        let ghost before = out@;
        out.push(x);
        proof {
            let sub = ts@.subrange(0, i + 1);
            assert(sub.drop_last() =~= ts@.subrange(0, i as int));
            assert(sub.last() == ts@[i as int]);
            assert(out@.drop_last() =~= before);
            assert(out@.last() == x);
            if i == 0 {
                assert(out@[0] == x);
            }
        }
        i = i + 1;
    }
    proof { assert(ts@.subrange(0, ts@.len() as int) =~= ts@); }
    out
}

fn subst_fields(fs: &Vec<(String, Type)>, vars: &Vec<TypeVar>, fresh: &Vec<TypeVar>) -> (r: Vec<(String, Type)>)
    ensures
        r@.len() == fs@.len(),
        fields_text(r@) == renamed_fields_text(fs@, vars@, fresh@),
    decreases fs, 0nat,
{
    let mut out: Vec<(String, Type)> = Vec::new();
    let mut i: usize = 0;
    while i < fs.len()
        invariant
            i <= fs@.len(),
            out@.len() == i,
            fields_text(out@) == renamed_fields_text(fs@.subrange(0, i as int), vars@, fresh@),
        decreases fs@.len() - i,
    {
        let x = (fs[i].0.clone(), subst_type(&fs[i].1, vars, fresh));
        let ghost before = out@;
        out.push(x);
        proof {
            let sub = fs@.subrange(0, i + 1);
            assert(sub.drop_last() =~= fs@.subrange(0, i as int));
            assert(sub.last() == fs@[i as int]);
            assert(out@.drop_last() =~= before);
            assert(out@.last() == x);
            if i == 0 {
                assert(out@[0] == x);
            }
        }
        i = i + 1;
    }
    proof { assert(fs@.subrange(0, fs@.len() as int) =~= fs@); }
    out
}

/// `t` with each variable of `vars` replaced by the matching one of `fresh`.
fn subst_type(t: &Type, vars: &Vec<TypeVar>, fresh: &Vec<TypeVar>) -> (r: Type)
    ensures
        type_text(r) == renamed_text(*t, vars@, fresh@),
    decreases t, 1nat,
{
    match t {
        Type::Primitive(p) => Type::Primitive(*p),
        Type::Var(v) => Type::Var(rename_var(vars, fresh, *v)),
        Type::Func { params, ret } => Type::Func {
            params: subst_types(params, vars, fresh),
            ret: Box::new(subst_type(ret, vars, fresh)),
        },
        Type::Record(fields) => Type::Record(subst_fields(fields, vars, fresh)),
        Type::Struct { name, fields } => Type::Struct { name: name.clone(), fields: subst_fields(fields, vars, fresh) },
        Type::Tuple(items) => Type::Tuple(subst_types(items, vars, fresh)),
        Type::Slice(inner) => Type::Slice(Box::new(subst_type(inner, vars, fresh))),
        Type::App(name, args) => Type::App(name.clone(), subst_types(args, vars, fresh)),
        Type::Enum(name) => Type::Enum(name.clone()),
    }
}

/// `k` new variables numbered from `n` on.
pub open spec fn fresh_vars(n: nat, k: nat) -> Seq<TypeVar> {
    Seq::new(k, |i: int| TypeVar { id: (n + i) as usize })
}

/// How what `lookup` gives for the scheme `s` is written, the fresh
/// variables numbered from `n` on.
pub open spec fn instance_text(s: TypeScheme, n: nat) -> Seq<char> {
    match s {
        TypeScheme::MonoType(t) => type_text(t),
        TypeScheme::PolyType { vars, ty } => renamed_text(ty, vars@, fresh_vars(n, vars@.len())),
    }
}

/// A mono scheme's type, or a poly scheme's type with its quantified
/// variables replaced by `fresh`, the variables numbered from `n` on.
fn instantiate_with(scheme: &TypeScheme, fresh: &Vec<TypeVar>, Ghost(n): Ghost<nat>) -> (t: Type)
    requires
        fresh@ == fresh_vars(n, instantiate_cost(Some(*scheme))),
    ensures
        scheme is MonoType ==> type_text(t) == scheme_text(*scheme),
        type_text(t) == instance_text(*scheme, n),
{
    match scheme {
        TypeScheme::MonoType(t) => clone_type(t),
        TypeScheme::PolyType { vars, ty } => subst_type(ty, vars, fresh),
    }
}

/// `scope_find` gives the last entry for `name`.
proof fn lemma_scope_find_last(sc: Scope, name: Seq<char>, j: int)
    requires
        0 <= j < sc.len(),
        sc[j].0 == name,
        forall|k: int| j < k < sc.len() ==> #[trigger] sc[k].0 != name,
    ensures
        scope_find(sc, name) == Some(sc[j].1),
    decreases sc.len(),
{
    if j < sc.len() - 1 {
        lemma_scope_find_last(sc.drop_last(), name, j);
    }
}

proof fn lemma_scope_find_none(sc: Scope, name: Seq<char>)
    requires
        forall|k: int| 0 <= k < sc.len() ==> #[trigger] sc[k].0 != name,
    ensures
        scope_find(sc, name) is None,
    decreases sc.len(),
{
    if sc.len() > 0 {
        lemma_scope_find_none(sc.drop_last(), name);
    }
}

/// `env_find` gives the binding of the innermost scope that binds `name`.
proof fn lemma_env_find_at(scopes: Seq<Scope>, name: Seq<char>, k: int)
    requires
        0 <= k < scopes.len(),
        scope_find(scopes[k], name) is Some,
        forall|m: int| k < m < scopes.len() ==> #[trigger] scope_find(scopes[m], name) is None,
    ensures
        env_find(scopes, name) == scope_find(scopes[k], name),
    decreases scopes.len(),
{
    if k < scopes.len() - 1 {
        lemma_env_find_at(scopes.drop_last(), name, k);
    }
}

proof fn lemma_env_find_none(scopes: Seq<Scope>, name: Seq<char>)
    requires
        forall|m: int| 0 <= m < scopes.len() ==> #[trigger] scope_find(scopes[m], name) is None,
    ensures
        env_find(scopes, name) is None,
    decreases scopes.len(),
{
    if scopes.len() > 0 {
        lemma_env_find_none(scopes.drop_last(), name);
    }
}

/// Index of the last entry of `scope` named `key`.
fn find_in_scope(scope: &Vec<(String, TypeScheme)>, key: &String) -> (r: Option<usize>)
    ensures
        match r {
            Some(j) => j < scope@.len() && scope@[j as int].0@ == key@
                && scope_find(entries_view(scope@), key@) == Some(scope@[j as int].1)
                && forall|k: int| j < k < scope@.len() ==> #[trigger] scope@[k].0@ != key@,
            None => scope_find(entries_view(scope@), key@) is None,
        },
{
    let ghost ev = entries_view(scope@);
    let mut j: usize = scope.len();
    while j > 0
        invariant
            j <= scope@.len(),
            ev == entries_view(scope@),
            forall|k: int| j <= k < scope@.len() ==> #[trigger] ev[k].0 != key@,
        decreases j,
    {
        if scope[j - 1].0 == *key {
            proof {
                assert(ev[j - 1].0 == key@);
                lemma_scope_find_last(ev, key@, j - 1);
                assert forall|k: int| j - 1 < k < scope@.len() implies #[trigger] scope@[k].0@ != key@ by {
                    assert(ev[k].0 == scope@[k].0@);
                }
            }
            return Some(j - 1);
        }
        j = j - 1;
    }
    proof { lemma_scope_find_none(ev, key@); }
    None
}

} // verus!
