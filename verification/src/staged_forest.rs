use vstd::prelude::*;
use std::collections::HashMap;
use crate::id_provider::IdProvider;
use crate::node_id::{MetaNodeId, StagedNodeId};
use crate::staged_ast::{StagedAst, StagedExpr, StagedStmt};
use crate::keys::keys_of;

verus! {

broadcast use vstd::std_specs::hash::group_hash_axioms;

/// Errors of staging and meta processing.
#[derive(Debug, Clone)]
pub enum MetaProcessError {
    UnresolvedSymbol(String),
    /// The trees that depend on each other, as a path `A → B → A`.
    CircularDependency(Vec<String>),
    EmbedFailed { path: String, error: String },
    UnknownType(String),
    Unimplemented(String),
    ExprNotFound(MetaNodeId),
    StmtNotFound(MetaNodeId),
}

/// What a tree must wait for before it is evaluated.
#[derive(Debug, Clone, Copy, PartialEq, Eq, Hash, Structural)]
pub enum ProcessDependency {
    /// A meta block staged into the given tree.
    MetaTree(usize),
    /// The tree that declares a name this tree uses.
    SymbolTree(usize),
}

impl ProcessDependency {
    pub open spec fn spec_dep_id(self) -> usize {
        match self {
            ProcessDependency::MetaTree(id) => id,
            ProcessDependency::SymbolTree(id) => id,
        }
    }

    /// The tree depended on.
    pub fn dep_id(&self) -> (id: usize)
        ensures
            id == self.spec_dep_id(),
    {
        match self {
            ProcessDependency::MetaTree(id) => *id,
            ProcessDependency::SymbolTree(id) => *id,
        }
    }
}

/// How a module's names are bound in the runtime environment.
#[derive(Debug, Clone)]
pub enum ModuleBinding {
    /// `import "path"` or `import "path" as alias`: the exports, by the staged
    /// ID of their declaration, wrapped in a module value.
    Namespace { bind_name: String, exports: Vec<(String, StagedNodeId)> },
    /// A transitive or circular import: the functions are already global, so
    /// the namespace is built by name.
    NamespaceByName { bind_name: String, names: Vec<String> },
    /// `import { name1, name2 } from "path"`: each name bound directly.
    Selective { names: Vec<String> },
}

/// The staged trees of a program: the runtime tree and one tree per meta
/// block, with what each tree waits for and the names each provides and uses.
#[derive(Debug, Clone)]
pub struct StagedForest {
    pub root_id: usize,
    pub ast_map: HashMap<usize, StagedAst>,
    pub dependency_map: HashMap<usize, Vec<ProcessDependency>>,
    pub source_dir: Option<String>,
    /// Name and the tree that declares it at its top level.
    pub symbol_provides: Vec<(String, usize)>,
    /// Tree and the names it uses but does not declare.
    pub symbol_uses: HashMap<usize, Vec<String>>,
    pub module_bindings: Vec<ModuleBinding>,
    /// (type name, method name, mangled function name) of each impl method.
    pub impl_registry: Vec<(String, String, String)>,
    /// (operator trait, type name, mangled function name).
    pub op_registry: Vec<(String, String, String)>,
    pub stdlib_fn_names: Vec<String>,
    /// Contents of the files named by `embed(..)`, as read for this program:
    /// the path as written, then the text or the reason it could not be read.
    pub embedded_files: Vec<(String, Result<String, String>)>,
}

/// The tree providing `name`, by the first matching entry.
pub open spec fn provider_of(provides: Seq<(String, usize)>, name: Seq<char>) -> Option<usize>
    decreases provides.len(),
{
    if provides.len() == 0 {
        None
    } else if provides[0].0@ == name {
        Some(provides[0].1)
    } else {
        provider_of(provides.drop_first(), name)
    }
}

/// Tree `t` has the dependency `d` recorded.
pub open spec fn has_dep(m: Map<usize, Vec<ProcessDependency>>, t: usize, d: ProcessDependency) -> bool {
    m.contains_key(t) && m[t]@.contains(d)
}

/// `d` is a dependency on the tree providing one of the first `n` names
/// of `uses`, when that tree is not `t` itself.
pub open spec fn uses_dep(provides: Seq<(String, usize)>, uses: Seq<String>, t: usize, d: ProcessDependency, n: int) -> bool {
    exists|i: int| 0 <= i < n && i < uses.len()
        && #[trigger] provider_of(provides, uses[i]@) == Some(d.spec_dep_id())
        && d == ProcessDependency::SymbolTree(d.spec_dep_id()) && d.spec_dep_id() != t
}

/// `d` is a dependency that symbol resolution adds to tree `t`: on the tree
/// providing a name that `t` uses, when that tree is another one.
pub open spec fn symbol_dep(f: StagedForest, t: usize, d: ProcessDependency) -> bool {
    &&& t != f.root_id
    &&& f.symbol_uses@.contains_key(t)
    &&& uses_dep(f.symbol_provides@, f.symbol_uses@[t]@, t, d, f.symbol_uses@[t]@.len() as int)
}

proof fn lemma_uses_dep_step(provides: Seq<(String, usize)>, uses: Seq<String>, t: usize, n: int)
    requires
        0 <= n < uses.len(),
    ensures
        forall|d: ProcessDependency| uses_dep(provides, uses, t, d, n + 1) <==> (uses_dep(provides, uses, t, d, n)
            || (provider_of(provides, uses[n]@) matches Some(p) && p != t && d == ProcessDependency::SymbolTree(p))),
{
    assert forall|d: ProcessDependency| uses_dep(provides, uses, t, d, n + 1) <==> (uses_dep(provides, uses, t, d, n)
        || (provider_of(provides, uses[n]@) matches Some(p) && p != t && d == ProcessDependency::SymbolTree(p))) by {
        if uses_dep(provides, uses, t, d, n + 1) && !uses_dep(provides, uses, t, d, n) {
            let i = choose|i: int| 0 <= i < n + 1 && i < uses.len()
                && #[trigger] provider_of(provides, uses[i]@) == Some(d.spec_dep_id())
                && d == ProcessDependency::SymbolTree(d.spec_dep_id()) && d.spec_dep_id() != t;
            assert(i == n);
        }
        if provider_of(provides, uses[n]@) matches Some(p) && p != t && d == ProcessDependency::SymbolTree(p) {
            assert(provider_of(provides, uses[n]@) == Some(d.spec_dep_id()));
        }
    }
}

fn find_provider(provides: &Vec<(String, usize)>, name: &String) -> (r: Option<usize>)
    ensures
        r == provider_of(provides@, name@),
{
    let mut i: usize = 0;
    proof { assert(provides@.subrange(0, provides@.len() as int) =~= provides@); }
    while i < provides.len()
        invariant
            i <= provides@.len(),
            provider_of(provides@, name@) == provider_of(provides@.subrange(i as int, provides@.len() as int), name@),
        decreases provides@.len() - i,
    {
        proof {
            let rest = provides@.subrange(i as int, provides@.len() as int);
            assert(rest.drop_first() =~= provides@.subrange(i + 1, provides@.len() as int));
            assert(rest[0] == provides@[i as int]);
        }
        if provides[i].0 == *name {
            return Some(provides[i].1);
        }
        i = i + 1;
    }
    None
}

/// Adds `d` to the dependencies of tree `t`.
fn add_dep(m: &mut HashMap<usize, Vec<ProcessDependency>>, t: usize, d: ProcessDependency)
    ensures
        final(m)@.dom() == old(m)@.dom().insert(t),
        forall|e: ProcessDependency| has_dep(final(m)@, t, e) <==> (has_dep(old(m)@, t, e) || e == d),
        forall|u: usize| u != t ==> #[trigger] final(m)@.get(u) == old(m)@.get(u),
        forall|u: usize, e: ProcessDependency| u != t ==> (#[trigger] has_dep(final(m)@, u, e) <==> has_dep(old(m)@, u, e)),
{
    let mut v: Vec<ProcessDependency> = match m.get(&t) {
        Some(existing) => existing.clone(),
        None => Vec::new(),
    };
    let ghost before = v@;
    assert(forall|e: ProcessDependency| before.contains(e) <==> has_dep(old(m)@, t, e));
    let mut found = false;
    let mut i: usize = 0;
    while i < v.len()
        invariant
            i <= v@.len(),
            v@ == before,
            found ==> v@.contains(d),
        decreases v@.len() - i,
    {
        if v[i] == d {
            found = true;
        }
        i = i + 1;
    }
    if !found {
        v.push(d);
        proof {
            assert forall|e: ProcessDependency| v@.contains(e) <==> (before.contains(e) || e == d) by {
                if v@.contains(e) && e != d {
                    let i = choose|i: int| 0 <= i < v@.len() && v@[i] == e;
                    assert(i < before.len());
                    assert(before[i] == e);
                }
                if before.contains(e) {
                    let i = choose|i: int| 0 <= i < before.len() && before[i] == e;
                    assert(v@[i] == e);
                }
                if e == d {
                    assert(v@[before.len() as int] == d);
                }
            }
        }
    }
    m.insert(t, v);
}

/// Symbol resolution never makes a tree wait for itself, and never gives
/// the runtime tree a dependency: every dependency it adds is on the tree
/// that provides a name, and that tree is another one.
pub proof fn law_symbol_deps_point_elsewhere(f: StagedForest, t: usize, d: ProcessDependency)
    requires
        symbol_dep(f, t, d),
    ensures
        d.spec_dep_id() != t,
        t != f.root_id,
        d is SymbolTree,
{
}



/// The name a top-level statement declares, if it declares one.
pub open spec fn stmt_provides(s: StagedStmt) -> Option<Seq<char>> {
    match s {
        StagedStmt::FnDecl { name, .. } => Some(name@),
        StagedStmt::StructDecl { name, .. } => Some(name@),
        StagedStmt::EnumDecl { name, .. } => Some(name@),
        StagedStmt::EffectDecl { name, .. } => Some(name@),
        _ => None,
    }
}

/// The function names a block of the top level declares (impl methods are
/// staged as such a block).
pub open spec fn block_provides(stmts: Map<usize, StagedStmt>, kids: Seq<StagedNodeId>) -> Seq<Seq<char>>
    decreases kids.len(),
{
    if kids.len() == 0 {
        Seq::empty()
    } else {
        let rest = block_provides(stmts, kids.drop_last());
        let k = kids.last().0;
        if stmts.contains_key(k) && stmts[k] is FnDecl {
            rest.push(stmt_provides(stmts[k]).unwrap())
        } else {
            rest
        }
    }
}

/// The names declared at the top level of a tree, in order.
pub open spec fn provided_names(stmts: Map<usize, StagedStmt>, roots: Seq<StagedNodeId>) -> Seq<Seq<char>>
    decreases roots.len(),
{
    if roots.len() == 0 {
        Seq::empty()
    } else {
        let rest = provided_names(stmts, roots.drop_last());
        let k = roots.last().0;
        if !stmts.contains_key(k) {
            rest
        } else {
            match stmts[k] {
                StagedStmt::Block(kids) => rest + block_provides(stmts, kids@),
                other => match stmt_provides(other) {
                    Some(n) => rest.push(n),
                    None => rest,
                },
            }
        }
    }
}

/// The name an expression refers to: a variable, or a function it calls.
pub open spec fn expr_uses(e: StagedExpr) -> Option<Seq<char>> {
    match e {
        StagedExpr::Variable(n) => Some(n@),
        StagedExpr::Call { callee, .. } => Some(callee@),
        _ => None,
    }
}

fn stmt_name(s: &StagedStmt) -> (r: Option<String>)
    ensures
        match r {
            Some(n) => stmt_provides(*s) == Some(n@),
            None => stmt_provides(*s) is None,
        },
{
    match s {
        StagedStmt::FnDecl { name, .. } => Some(name.clone()),
        StagedStmt::StructDecl { name, .. } => Some(name.clone()),
        StagedStmt::EnumDecl { name, .. } => Some(name.clone()),
        StagedStmt::EffectDecl { name, .. } => Some(name.clone()),
        _ => None,
    }
}

pub open spec fn names_view(v: Seq<String>) -> Seq<Seq<char>> {
    v.map_values(|s: String| s@)
}

/// The names a tree declares at its top level.
pub fn collect_provides(ast: &StagedAst) -> (r: Vec<String>)
    ensures
        names_view(r@) == provided_names(ast.stmts@, ast.sem_root_stmts@),
{
    let mut out: Vec<String> = Vec::new();
    let mut i: usize = 0;
    let ghost roots = ast.sem_root_stmts@;
    while i < ast.sem_root_stmts.len()
        invariant
            i <= roots.len(),
            roots == ast.sem_root_stmts@,
            names_view(out@) == provided_names(ast.stmts@, roots.subrange(0, i as int)),
        decreases roots.len() - i,
    {
        let ghost before = out@;
        let id = ast.sem_root_stmts[i];
        proof {
            assert(roots.subrange(0, i + 1).drop_last() =~= roots.subrange(0, i as int));
        }
        match ast.get_stmt(id) {
            Some(StagedStmt::Block(kids)) => {
                let mut j: usize = 0;
                while j < kids.len()
                    invariant
                        j <= kids@.len(),
                        names_view(out@) == names_view(before) + block_provides(ast.stmts@, kids@.subrange(0, j as int)),
                    decreases kids@.len() - j,
                {
                    proof {
                        assert(kids@.subrange(0, j + 1).drop_last() =~= kids@.subrange(0, j as int));
                    }
                    let ghost prev = out@;
                    let ghost bp = block_provides(ast.stmts@, kids@.subrange(0, j as int));
                    match ast.get_stmt(kids[j]) {
                        Some(StagedStmt::FnDecl { name, .. }) => {
                            out.push(name.clone());
                            proof {
                                assert(out@.drop_last() == prev);
                                assert(names_view(out@) =~= names_view(prev).push(name@));
                                assert(block_provides(ast.stmts@, kids@.subrange(0, j + 1)) == bp.push(name@));
                                assert(names_view(out@) =~= names_view(before) + bp.push(name@));
                            }
                        },
                        _ => {
                            proof {
                                assert(block_provides(ast.stmts@, kids@.subrange(0, j + 1)) == bp);
                            }
                        },
                    }
                    j = j + 1;
                }
                proof { assert(kids@.subrange(0, kids@.len() as int) =~= kids@); }
            },
            Some(s) => {
                match stmt_name(s) {
                    Some(n) => {
                        out.push(n);
                        proof { assert(names_view(out@) =~= names_view(before).push(out@.last()@)); }
                    },
                    None => {},
                }
            },
            None => {},
        }
        i = i + 1;
    }
    proof { assert(roots.subrange(0, roots.len() as int) =~= roots); }
    out
}

fn contains_name(v: &Vec<String>, n: &String) -> (b: bool)
    ensures
        b == names_view(v@).contains(n@),
{
    let mut i: usize = 0;
    while i < v.len()
        invariant
            i <= v@.len(),
            forall|j: int| 0 <= j < i ==> #[trigger] v@[j]@ != n@,
        decreases v@.len() - i,
    {
        if v[i] == *n {
            proof { assert(names_view(v@)[i as int] == n@); }
            return true;
        }
        i = i + 1;
    }
    proof {
        if names_view(v@).contains(n@) {
            let j = choose|j: int| 0 <= j < names_view(v@).len() && names_view(v@)[j] == n@;
            assert(v@[j]@ == n@);
        }
    }
    false
}

/// The names a tree refers to (variables and called functions) without
/// declaring them at its top level, each once.
pub fn collect_external_uses(ast: &StagedAst) -> (r: Vec<String>)
    ensures
        names_view(r@).no_duplicates(),
        forall|n: Seq<char>| names_view(r@).contains(n) <==> (
            (exists|k: usize| #[trigger] ast.exprs@.contains_key(k) && expr_uses(ast.exprs@[k]) == Some(n))
            && !provided_names(ast.stmts@, ast.sem_root_stmts@).contains(n)),
{
    let provided = collect_provides(ast);
    let mut out: Vec<String> = Vec::new();
    let keys = keys_of(&ast.exprs);
    let mut i: usize = 0;
    while i < keys.len()
        invariant
            i <= keys@.len(),
            keys@.to_set() == ast.exprs@.dom(),
            names_view(provided@) == provided_names(ast.stmts@, ast.sem_root_stmts@),
            names_view(out@).no_duplicates(),
            forall|n: Seq<char>| names_view(out@).contains(n) <==> (
                (exists|j: int| 0 <= j < i && ast.exprs@.contains_key(keys@[j])
                    && expr_uses(ast.exprs@[#[trigger] keys@[j]]) == Some(n))
                && !names_view(provided@).contains(n)),
        decreases keys@.len() - i,
    {
        let ghost before = out@;
        let k = keys[i];
        let used: Option<String> = match ast.exprs.get(&k) {
            Some(StagedExpr::Variable(n)) => Some(n.clone()),
            Some(StagedExpr::Call { callee, .. }) => Some(callee.clone()),
            _ => None,
        };
        proof {
            assert(keys@.to_set().contains(k));
        }
        match used {
            Some(n) => {
                if !contains_name(&provided, &n) && !contains_name(&out, &n) {
                    out.push(n);
                    proof {
                        assert(names_view(out@) =~= names_view(before).push(n@));
                    }
                }
            },
            None => {},
        }
        proof {
            assert forall|n: Seq<char>| names_view(out@).contains(n) <==> (
                (exists|j: int| 0 <= j < i + 1 && ast.exprs@.contains_key(keys@[j])
                    && expr_uses(ast.exprs@[#[trigger] keys@[j]]) == Some(n))
                && !names_view(provided@).contains(n)) by {
                if names_view(out@).contains(n) && !names_view(before).contains(n) {
                    assert(expr_uses(ast.exprs@[keys@[i as int]]) == Some(n));
                }
                if names_view(before).contains(n) {
                    let j = choose|j: int| 0 <= j < names_view(before).len() && names_view(before)[j] == n;
                    assert(names_view(out@)[j] == n);
                }
                if (exists|j: int| 0 <= j < i + 1 && ast.exprs@.contains_key(keys@[j])
                    && expr_uses(ast.exprs@[#[trigger] keys@[j]]) == Some(n)) && !names_view(provided@).contains(n) {
                    let j = choose|j: int| 0 <= j < i + 1 && ast.exprs@.contains_key(keys@[j])
                        && expr_uses(ast.exprs@[#[trigger] keys@[j]]) == Some(n);
                    if j == i {
                        if !names_view(before).contains(n) {
                            assert(names_view(out@)[before.len() as int] == n);
                        }
                    }
                }
            }
        }
        i = i + 1;
    }
    proof {
        assert forall|n: Seq<char>| names_view(out@).contains(n) <==> (
            (exists|k: usize| #[trigger] ast.exprs@.contains_key(k) && expr_uses(ast.exprs@[k]) == Some(n))
            && !provided_names(ast.stmts@, ast.sem_root_stmts@).contains(n)) by {
            if exists|k: usize| #[trigger] ast.exprs@.contains_key(k) && expr_uses(ast.exprs@[k]) == Some(n) {
                let k = choose|k: usize| #[trigger] ast.exprs@.contains_key(k) && expr_uses(ast.exprs@[k]) == Some(n);
                assert(keys@.to_set().contains(k));
                let j = choose|j: int| 0 <= j < keys@.len() && keys@[j] == k;
                assert(ast.exprs@.contains_key(keys@[j]));
            }
        }
    }
    out
}

/// `provides` after recording that tree `tree` declares `names`: each of
/// those names now maps to `tree`, the others keep their provider.
pub open spec fn provides_after(old: Seq<(String, usize)>, new: Seq<(String, usize)>, names: Seq<Seq<char>>, tree: usize) -> bool {
    forall|n: Seq<char>| #[trigger] provider_of(new, n) == if names.contains(n) { Some(tree) } else { provider_of(old, n) }
}

fn set_provider(provides: &mut Vec<(String, usize)>, name: String, tree: usize)
    ensures
        provider_of(final(provides)@, name@) == Some(tree),
        forall|n: Seq<char>| n != name@ ==> #[trigger] provider_of(final(provides)@, n) == provider_of(old(provides)@, n),
{
    let mut i: usize = 0;
    let ghost before = provides@;
    while i < provides.len()
        invariant
            i <= provides@.len(),
            provides@ == before,
            before == old(provides)@,
            forall|j: int| 0 <= j < i ==> #[trigger] provides@[j].0@ != name@,
        decreases provides@.len() - i,
    {
        if provides[i].0 == name {
            let entry = (name, tree);
            proof { lemma_provider_update(before, i as int, entry); }
            provides.set(i, entry);
            return;
        }
        i = i + 1;
    }
    let entry = (name, tree);
    proof { lemma_provider_push(before, entry); }
    provides.push(entry);
}

proof fn lemma_provider_update(ps: Seq<(String, usize)>, i: int, e: (String, usize))
    requires
        0 <= i < ps.len(),
        ps[i].0@ == e.0@,
        forall|j: int| 0 <= j < i ==> #[trigger] ps[j].0@ != e.0@,
    ensures
        provider_of(ps.update(i, e), e.0@) == Some(e.1),
        forall|n: Seq<char>| n != e.0@ ==> #[trigger] provider_of(ps.update(i, e), n) == provider_of(ps, n),
    decreases i,
{
    let u = ps.update(i, e);
    if i == 0 {
        assert(u.drop_first() =~= ps.drop_first());
    } else {
        lemma_provider_update(ps.drop_first(), i - 1, e);
        assert(u.drop_first() =~= ps.drop_first().update(i - 1, e));
    }
    assert forall|n: Seq<char>| n != e.0@ implies #[trigger] provider_of(u, n) == provider_of(ps, n) by {
        if i == 0 {
            assert(provider_of(u, n) == provider_of(u.drop_first(), n));
            assert(provider_of(ps, n) == provider_of(ps.drop_first(), n));
        } else {
            assert(u[0] == ps[0]);
        }
    }
}

proof fn lemma_provider_push(ps: Seq<(String, usize)>, e: (String, usize))
    requires
        forall|j: int| 0 <= j < ps.len() ==> #[trigger] ps[j].0@ != e.0@,
    ensures
        provider_of(ps.push(e), e.0@) == Some(e.1),
        forall|n: Seq<char>| n != e.0@ ==> #[trigger] provider_of(ps.push(e), n) == provider_of(ps, n),
    decreases ps.len(),
{
    let u = ps.push(e);
    if ps.len() > 0 {
        lemma_provider_push(ps.drop_first(), e);
        assert(u.drop_first() =~= ps.drop_first().push(e));
        assert(u[0] == ps[0]);
        assert forall|n: Seq<char>| n != e.0@ implies #[trigger] provider_of(u, n) == provider_of(ps, n) by {
            assert(provider_of(ps.drop_first().push(e), n) == provider_of(ps.drop_first(), n));
        }
    } else {
        assert forall|n: Seq<char>| n != e.0@ implies #[trigger] provider_of(u, n) == provider_of(ps, n) by {
            assert(u.drop_first() =~= Seq::<(String, usize)>::empty());
            assert(provider_of(u.drop_first(), n) is None);
        }
    }
}

impl StagedForest {
    pub fn new() -> (f: Self)
        ensures
            f.root_id == 0,
            f.ast_map@ == Map::<usize, StagedAst>::empty(),
            f.dependency_map@ == Map::<usize, Vec<ProcessDependency>>::empty(),
            f.source_dir is None,
            f.symbol_provides@.len() == 0,
            f.symbol_uses@ == Map::<usize, Vec<String>>::empty(),
            f.module_bindings@.len() == 0,
            f.impl_registry@.len() == 0,
            f.op_registry@.len() == 0,
            f.stdlib_fn_names@.len() == 0,
            f.embedded_files@.len() == 0,
    {
        StagedForest {
            root_id: 0,
            ast_map: HashMap::new(),
            dependency_map: HashMap::new(),
            source_dir: None,
            symbol_provides: Vec::new(),
            symbol_uses: HashMap::new(),
            module_bindings: Vec::new(),
            impl_registry: Vec::new(),
            op_registry: Vec::new(),
            stdlib_fn_names: Vec::new(),
            embedded_files: Vec::new(),
        }
    }

    /// Adds a staged tree under a fresh tree ID, recording the names it
    /// declares and the names it uses from elsewhere.
    pub fn insert_tree(&mut self, staged_ast: StagedAst, id_provider: &mut IdProvider) -> (id: usize)
        requires
            old(id_provider).counter() < usize::MAX,
        ensures
            id == old(id_provider).counter(),
            final(id_provider).counter() == old(id_provider).counter() + 1,
            final(self).ast_map@ == old(self).ast_map@.insert(id, staged_ast),
            provides_after(old(self).symbol_provides@, final(self).symbol_provides@,
                provided_names(staged_ast.stmts@, staged_ast.sem_root_stmts@), id),
            final(self).symbol_uses@.dom() == old(self).symbol_uses@.dom().insert(id),
            forall|t: usize| t != id && #[trigger] old(self).symbol_uses@.contains_key(t)
                ==> final(self).symbol_uses@[t] == old(self).symbol_uses@[t],
            forall|n: Seq<char>| names_view(final(self).symbol_uses@[id]@).contains(n) <==> (
                (exists|k: usize| #[trigger] staged_ast.exprs@.contains_key(k) && expr_uses(staged_ast.exprs@[k]) == Some(n))
                && !provided_names(staged_ast.stmts@, staged_ast.sem_root_stmts@).contains(n)),
            final(self).root_id == old(self).root_id,
            final(self).dependency_map == old(self).dependency_map,
            final(self).module_bindings == old(self).module_bindings,
            final(self).impl_registry == old(self).impl_registry,
            final(self).op_registry == old(self).op_registry,
            final(self).embedded_files == old(self).embedded_files,
    {
        let new_id = id_provider.next();
        self.register_symbols(new_id, &staged_ast);
        self.ast_map.insert(new_id, staged_ast);
        new_id
    }

    fn register_symbols(&mut self, tree_id: usize, ast: &StagedAst)
        ensures
            provides_after(old(self).symbol_provides@, final(self).symbol_provides@,
                provided_names(ast.stmts@, ast.sem_root_stmts@), tree_id),
            final(self).symbol_uses@.dom() == old(self).symbol_uses@.dom().insert(tree_id),
            forall|t: usize| t != tree_id && #[trigger] old(self).symbol_uses@.contains_key(t)
                ==> final(self).symbol_uses@[t] == old(self).symbol_uses@[t],
            forall|n: Seq<char>| names_view(final(self).symbol_uses@[tree_id]@).contains(n) <==> (
                (exists|k: usize| #[trigger] ast.exprs@.contains_key(k) && expr_uses(ast.exprs@[k]) == Some(n))
                && !provided_names(ast.stmts@, ast.sem_root_stmts@).contains(n)),
            final(self).root_id == old(self).root_id,
            final(self).ast_map == old(self).ast_map,
            final(self).dependency_map == old(self).dependency_map,
            final(self).module_bindings == old(self).module_bindings,
            final(self).impl_registry == old(self).impl_registry,
            final(self).op_registry == old(self).op_registry,
            final(self).embedded_files == old(self).embedded_files,
    {
        let provides = collect_provides(ast);
        let external_uses = collect_external_uses(ast);
        let ghost names = names_view(provides@);
        let ghost p0 = self.symbol_provides@;
        let mut i: usize = 0;
        while i < provides.len()
            invariant
                i <= provides@.len(),
                names == names_view(provides@),
                forall|n: Seq<char>| #[trigger] provider_of(self.symbol_provides@, n)
                    == if names.subrange(0, i as int).contains(n) { Some(tree_id) } else { provider_of(p0, n) },
                self.root_id == old(self).root_id,
                self.ast_map == old(self).ast_map,
                self.dependency_map == old(self).dependency_map,
                self.symbol_uses == old(self).symbol_uses,
                self.module_bindings == old(self).module_bindings,
                self.impl_registry == old(self).impl_registry,
                self.op_registry == old(self).op_registry,
                self.embedded_files == old(self).embedded_files,
                p0 == old(self).symbol_provides@,
            decreases provides@.len() - i,
        {
            set_provider(&mut self.symbol_provides, provides[i].clone(), tree_id);
            proof {
                assert forall|n: Seq<char>| #[trigger] provider_of(self.symbol_provides@, n)
                    == if names.subrange(0, i + 1).contains(n) { Some(tree_id) } else { provider_of(p0, n) } by {
                    assert(names.subrange(0, i + 1) =~= names.subrange(0, i as int).push(names[i as int]));
                    let a = names.subrange(0, i as int);
                    let b = names.subrange(0, i + 1);
                    if a.contains(n) {
                        let j = choose|j: int| 0 <= j < a.len() && a[j] == n;
                        assert(b[j] == n);
                    }
                    if n == names[i as int] {
                        assert(b[i as int] == n);
                    }
                    if b.contains(n) && n != names[i as int] {
                        let j = choose|j: int| 0 <= j < b.len() && b[j] == n;
                        assert(a[j] == n);
                    }
                }
            }
            i = i + 1;
        }
        proof { assert(names.subrange(0, names.len() as int) =~= names); }
        self.symbol_uses.insert(tree_id, external_uses);
    }

    /// Records the dependencies of tree `id`.
    pub fn insert_deps(&mut self, dependency_set: Vec<ProcessDependency>, id: usize)
        ensures
            final(self).dependency_map@ == old(self).dependency_map@.insert(id, dependency_set),
            final(self).embedded_files == old(self).embedded_files,
            final(self).module_bindings == old(self).module_bindings,
            final(self).ast_map == old(self).ast_map,
            final(self).root_id == old(self).root_id,
            final(self).symbol_provides == old(self).symbol_provides,
            final(self).symbol_uses == old(self).symbol_uses,
            final(self).impl_registry == old(self).impl_registry,
            final(self).op_registry == old(self).op_registry,
    {
        self.dependency_map.insert(id, dependency_set);
    }

    /// After all trees are staged, turns the names each tree uses into
    /// dependencies on the trees that declare them. The runtime tree gets no
    /// such dependency (hoisting orders it), names no tree declares are
    /// skipped (builtins), and no tree comes to depend on itself.
    pub fn resolve_symbol_deps(&mut self) -> (r: Result<(), MetaProcessError>)
        ensures
            r is Ok,
            final(self).root_id == old(self).root_id,
            final(self).ast_map == old(self).ast_map,
            final(self).symbol_provides == old(self).symbol_provides,
            final(self).symbol_uses == old(self).symbol_uses,
            forall|t: usize, d: ProcessDependency| #[trigger] has_dep(final(self).dependency_map@, t, d)
                <==> (has_dep(old(self).dependency_map@, t, d) || symbol_dep(*old(self), t, d)),
    {
        let ghost f0 = *self;
        let trees = keys_of(&self.symbol_uses);
        let mut ti: usize = 0;
        while ti < trees.len()
            invariant
                ti <= trees@.len(),
                trees@.to_set() == f0.symbol_uses@.dom(),
                trees@.no_duplicates(),
                self.root_id == f0.root_id,
                self.ast_map == f0.ast_map,
                self.symbol_provides == f0.symbol_provides,
                self.symbol_uses == f0.symbol_uses,
                forall|t: usize, d: ProcessDependency| #[trigger] has_dep(self.dependency_map@, t, d)
                    <==> (has_dep(f0.dependency_map@, t, d)
                        || (trees@.subrange(0, ti as int).contains(t) && symbol_dep(f0, t, d))),
            decreases trees@.len() - ti,
        {
            let t = trees[ti];
            let ghost start = self.dependency_map@;
            proof {
                assert(!trees@.subrange(0, ti as int).contains(t)) by {
                    if trees@.subrange(0, ti as int).contains(t) {
                        let sub = trees@.subrange(0, ti as int);
                        let j = choose|j: int| 0 <= j < sub.len() && sub[j] == t;
                        assert(trees@[j] == trees@[ti as int]);
                    }
                }
                assert(trees@.to_set().contains(t));
            }
            if t != self.root_id {
                if let Some(uses) = self.symbol_uses.get(&t) {
                    let mut ni: usize = 0;
                    while ni < uses.len()
                        invariant
                            ni <= uses@.len(),
                            t != f0.root_id,
                            f0.symbol_uses@.contains_key(t),
                            uses@ == f0.symbol_uses@[t]@,
                            self.root_id == f0.root_id,
                            self.ast_map == f0.ast_map,
                            self.symbol_provides == f0.symbol_provides,
                            self.symbol_uses == f0.symbol_uses,
                            forall|u: usize, d: ProcessDependency| u != t ==>
                                (#[trigger] has_dep(self.dependency_map@, u, d) <==> has_dep(start, u, d)),
                            forall|d: ProcessDependency| #[trigger] has_dep(self.dependency_map@, t, d)
                                <==> (has_dep(start, t, d) || uses_dep(f0.symbol_provides@, uses@, t, d, ni as int)),
                        decreases uses@.len() - ni,
                    {
                        let found = find_provider(&self.symbol_provides, &uses[ni]);
                        proof { lemma_uses_dep_step(f0.symbol_provides@, uses@, t, ni as int); }
                        match found {
                            Some(p) => {
                                if p != t {
                                    add_dep(&mut self.dependency_map, t, ProcessDependency::SymbolTree(p));
                                }
                            },
                            None => {},
                        }
                        ni = ni + 1;
                    }
                }
            }
            proof {
                assert(trees@.subrange(0, ti + 1) =~= trees@.subrange(0, ti as int).push(t));
                assert forall|u: usize, d: ProcessDependency| #[trigger] has_dep(self.dependency_map@, u, d)
                    <==> (has_dep(f0.dependency_map@, u, d)
                        || (trees@.subrange(0, ti + 1).contains(u) && symbol_dep(f0, u, d))) by {
                    if u != t {
                        assert(trees@.subrange(0, ti + 1).contains(u) == trees@.subrange(0, ti as int).contains(u)) by {
                            if trees@.subrange(0, ti + 1).contains(u) {
                                let sub = trees@.subrange(0, ti + 1);
                                let j = choose|j: int| 0 <= j < sub.len() && sub[j] == u;
                                assert(j < ti);
                                assert(trees@.subrange(0, ti as int)[j] == u);
                            }
                            if trees@.subrange(0, ti as int).contains(u) {
                                let sub = trees@.subrange(0, ti as int);
                                let j = choose|j: int| 0 <= j < sub.len() && sub[j] == u;
                                assert(trees@.subrange(0, ti + 1)[j] == u);
                            }
                        }
                    } else {
                        assert(trees@.subrange(0, ti + 1)[ti as int] == t);
                    }
                }
            }
            ti = ti + 1;
        }
        proof {
            assert(trees@.subrange(0, trees@.len() as int) =~= trees@);
            assert forall|t: usize, d: ProcessDependency| #[trigger] has_dep(self.dependency_map@, t, d)
                <==> (has_dep(f0.dependency_map@, t, d) || symbol_dep(f0, t, d)) by {
                if symbol_dep(f0, t, d) {
                    assert(trees@.to_set().contains(t));
                }
            }
        }
        Ok(())
    }
}

} // verus!
