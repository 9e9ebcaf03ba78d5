use vstd::prelude::*;
use std::collections::HashMap;
use crate::meta_ast::{ImportDecl, MetaAst, MetaStmt, present};
use crate::node_id::MetaNodeId;
use crate::parser::{parse, parse_pre, ParseCtx, ParseError, parse_error_text, ctx_inv, simple_program, simple_parsed};
use crate::text::{concat, strings_view, contains_string};
use crate::token::{Token, tokens_well_formed};

verus! {

broadcast use vstd::std_specs::hash::group_hash_axioms;

/// How a file was pulled into the compilation.
#[derive(Debug, Clone)]
pub enum FileRole {
    /// The program's entry point; all its top-level statements run.
    Entry,
    /// Named by an `import`; carries that import, for binding its names.
    Explicit(ImportDecl),
    /// Loaded from the standard library without an import.
    StdLib(ImportDecl),
}

impl FileRole {
    /// Whether this is the entry file.
    pub fn is_entry(&self) -> (b: bool)
        ensures
            b == (*self is Entry),
    {
        match self {
            FileRole::Entry => true,
            _ => false,
        }
    }
}

#[derive(Debug)]
pub struct LoadedFile {
    pub path: String,
    pub source: String,
    pub ast: MetaAst,
    pub role: FileRole,
    /// Node ID to the (line, col) of the node's first token.
    pub span_table: HashMap<usize, (usize, usize)>,
}

#[derive(Debug)]
pub enum LoadError {
    Io { path: String, error: String },
    Parse { path: String, error: String, line: Option<usize>, col: Option<usize> },
}

/// The source location a parse error names, if it names one.
pub fn parse_error_location(e: &ParseError) -> (r: (Option<usize>, Option<usize>))
    ensures
        match *e {
            ParseError::UnexpectedToken { line, col, .. } => r == (Some(line), Some(col)),
            _ => r == (None::<usize>, None::<usize>),
        },
{
    match e {
        ParseError::UnexpectedToken { line, col, .. } => (Some(*line), Some(*col)),
        ParseError::UnexpectedEOF { .. } | ParseError::UnterminatedString => (None, None),
    }
}

/// Parses the tokens of the file at `path` into a fresh tree. A parse error
/// becomes `LoadError::Parse` with the error's text and location.
pub fn parse_tokens(tokens: &[Token], path: &String) -> (r: Result<(MetaAst, HashMap<usize, (usize, usize)>), LoadError>)
    requires
        tokens_well_formed(tokens@),
        tokens@.len() < usize::MAX,
        8 * tokens@.len() + 16 <= usize::MAX,
    ensures
        match r {
            Ok((ast, _)) => ast.closed() && present(ast.roots(), ast.stmt_map()),
            Err(LoadError::Parse { path: p, error, line, col }) => p@ == path@ && exists|e: ParseError|
                error@ == parse_error_text(e) && (line, col) == (match e {
                    ParseError::UnexpectedToken { line, col, .. } => (Some(line), Some(col)),
                    _ => (None::<usize>, None::<usize>),
                }),
            Err(LoadError::Io { .. }) => false,
        },
        forall|n: nat| #[trigger] simple_program(tokens@, n) ==> (r matches Ok((ast, _))
            && simple_parsed(tokens@, ast, ast.roots(), n)),
{
    let mut ctx = ParseCtx::new();
    proof { assert(crate::meta_ast::present(ctx.ast.roots(), ctx.ast.stmt_map())); }
    let ghost c0 = ctx;
    match parse(tokens, &mut ctx) {
        Ok(()) => {
            proof { assert(ctx.ast.roots().skip(c0.ast.roots().len() as int) =~= ctx.ast.roots()); }
            Ok((ctx.ast, ctx.span_table))
        },
        Err(e) => {
            let (line, col) = parse_error_location(&e);
            Err(LoadError::Parse { path: path.clone(), error: e.debug_text(), line, col })
        },
    }
}

/// `a` and `b` are the same import.
pub open spec fn same_import(a: ImportDecl, b: ImportDecl) -> bool {
    match (a, b) {
        (ImportDecl::Qualified { path: p }, ImportDecl::Qualified { path: q }) => p@ == q@,
        (ImportDecl::Aliased { path: p, alias: x }, ImportDecl::Aliased { path: q, alias: y }) => p@ == q@ && x@ == y@,
        (ImportDecl::Selective { names: n, path: p }, ImportDecl::Selective { names: m, path: q }) =>
            p@ == q@ && n@.len() == m@.len() && forall|i: int| 0 <= i < n@.len() ==> #[trigger] n@[i]@ == m@[i]@,
        (ImportDecl::Wildcard { path: p }, ImportDecl::Wildcard { path: q }) => p@ == q@,
        _ => false,
    }
}

/// A copy of an import.
pub fn copy_import(d: &ImportDecl) -> (r: ImportDecl)
    ensures
        same_import(*d, r),
{
    match d {
        ImportDecl::Qualified { path } => ImportDecl::Qualified { path: path.clone() },
        ImportDecl::Aliased { path, alias } => ImportDecl::Aliased { path: path.clone(), alias: alias.clone() },
        ImportDecl::Selective { names, path } => {
            let mut out: Vec<String> = Vec::new();
            let mut i: usize = 0;
            while i < names.len()
                invariant
                    i <= names@.len(),
                    out@.len() == i,
                    forall|j: int| 0 <= j < i ==> #[trigger] out@[j]@ == names@[j]@,
                decreases names@.len() - i,
            {
                out.push(names[i].clone());
                i = i + 1;
            }
            ImportDecl::Selective { names: out, path: path.clone() }
        },
        ImportDecl::Wildcard { path } => ImportDecl::Wildcard { path: path.clone() },
    }
}

/// The imports among the top-level statements `roots`, in order.
pub open spec fn root_imports(stmts: Map<usize, MetaStmt>, roots: Seq<MetaNodeId>) -> Seq<ImportDecl>
    decreases roots.len(),
{
    if roots.len() == 0 {
        Seq::empty()
    } else {
        let rest = root_imports(stmts, roots.drop_last());
        let k = roots.last().0;
        if stmts.contains_key(k) && stmts[k] is Import {
            rest.push(stmts[k]->Import_0)
        } else {
            rest
        }
    }
}

/// The imports among a tree's top-level statements, in order.
pub fn collect_imports(ast: &MetaAst) -> (r: Vec<ImportDecl>)
    ensures
        r@.len() == root_imports(ast.stmt_map(), ast.roots()).len(),
        forall|i: int| 0 <= i < r@.len() ==> same_import(root_imports(ast.stmt_map(), ast.roots())[i], #[trigger] r@[i]),
{
    let roots = ast.root_stmts();
    let mut out: Vec<ImportDecl> = Vec::new();
    let mut i: usize = 0;
    while i < roots.len()
        invariant
            i <= roots@.len(),
            roots@ == ast.roots(),
            out@.len() == root_imports(ast.stmt_map(), roots@.subrange(0, i as int)).len(),
            forall|j: int| 0 <= j < out@.len() ==> same_import(root_imports(ast.stmt_map(), roots@.subrange(0, i as int))[j], #[trigger] out@[j]),
        decreases roots@.len() - i,
    {
        proof { assert(roots@.subrange(0, i + 1).drop_last() =~= roots@.subrange(0, i as int)); }
        match ast.get_stmt(roots[i]) {
            Some(MetaStmt::Import(decl)) => {
                out.push(copy_import(decl));
            },
            _ => {},
        }
        i = i + 1;
    }
    proof { assert(roots@.subrange(0, roots@.len() as int) =~= roots@); }
    out
}

/// `s` ends with `.cx`.
pub open spec fn has_cx_suffix(s: Seq<char>) -> bool {
    s.len() >= 3 && s.subrange(s.len() - 3, s.len() as int) == seq!['.', 'c', 'x']
}

/// The file an import path names: `.cx` is added unless present, and the
/// path is taken from `base_dir` unless it is absolute.
pub open spec fn resolved_import(base_dir: Seq<char>, import_path: Seq<char>) -> Seq<char> {
    let file = if has_cx_suffix(import_path) { import_path } else { import_path + seq!['.', 'c', 'x'] };
    if base_dir.len() == 0 || (import_path.len() > 0 && import_path[0] == '/') {
        file
    } else if base_dir[base_dir.len() - 1] == '/' {
        base_dir + file
    } else {
        base_dir + seq!['/'] + file
    }
}

fn ends_with_cx(s: &str) -> (b: bool)
    ensures
        b == has_cx_suffix(s@),
{
    let n = s.unicode_len();
    if n < 3 {
        return false;
    }
    let r = s.get_char(n - 3) == '.' && s.get_char(n - 2) == 'c' && s.get_char(n - 1) == 'x';
    proof {
        if r {
            assert(s@.subrange(n - 3, n as int) =~= seq!['.', 'c', 'x']);
        } else {
            if s@.subrange(n - 3, n as int) == seq!['.', 'c', 'x'] {
                assert(s@.subrange(n - 3, n as int)[0] == s@[n - 3]);
                assert(s@.subrange(n - 3, n as int)[1] == s@[n - 2]);
                assert(s@.subrange(n - 3, n as int)[2] == s@[n - 1]);
            }
        }
    }
    r
}

/// The file an import path names, relative to `base_dir`.
pub fn resolve_import(base_dir: &str, import_path: &str) -> (r: String)
    ensures
        r@ == resolved_import(base_dir@, import_path@),
{
    proof {
        reveal_strlit(".cx");
        reveal_strlit("/");
    }
    let file = if ends_with_cx(import_path) { String::from_str(import_path) } else { concat(import_path, ".cx") };
    let absolute = import_path.unicode_len() > 0 && import_path.get_char(0) == '/';
    let n = base_dir.unicode_len();
    if n == 0 || absolute {
        file
    } else if base_dir.get_char(n - 1) == '/' {
        concat(base_dir, file.as_str())
    } else {
        let with_sep = concat(base_dir, "/");
        concat(with_sep.as_str(), file.as_str())
    }
}

/// The directories named by `import "dir/*"` among `roots`, in order.
pub open spec fn root_wildcards(stmts: Map<usize, MetaStmt>, roots: Seq<MetaNodeId>) -> Seq<Seq<char>>
    decreases roots.len(),
{
    if roots.len() == 0 {
        Seq::empty()
    } else {
        let rest = root_wildcards(stmts, roots.drop_last());
        let k = roots.last().0;
        if stmts.contains_key(k) && stmts[k] is Import && stmts[k]->Import_0 is Wildcard {
            rest.push(stmts[k]->Import_0->Wildcard_path@)
        } else {
            rest
        }
    }
}

pub open spec fn strs(v: Seq<String>) -> Seq<Seq<char>> {
    v.map_values(|s: String| s@)
}

/// The directories named by `import "dir/*"` among the top-level statements.
pub fn wildcard_dirs(ast: &MetaAst) -> (r: Vec<String>)
    ensures
        strs(r@) == root_wildcards(ast.stmt_map(), ast.roots()),
{
    let roots = ast.root_stmts();
    let mut out: Vec<String> = Vec::new();
    let mut i: usize = 0;
    while i < roots.len()
        invariant
            i <= roots@.len(),
            roots@ == ast.roots(),
            strs(out@) == root_wildcards(ast.stmt_map(), roots@.subrange(0, i as int)),
        decreases roots@.len() - i,
    {
        proof { assert(roots@.subrange(0, i + 1).drop_last() =~= roots@.subrange(0, i as int)); }
        match ast.get_stmt(roots[i]) {
            Some(MetaStmt::Import(ImportDecl::Wildcard { path })) => {
                let ghost prev = out@;
                out.push(path.clone());
                proof { assert(strs(out@) =~= strs(prev).push(path@)); }
            },
            _ => {},
        }
        i = i + 1;
    }
    proof { assert(roots@.subrange(0, roots@.len() as int) =~= roots@); }
    out
}

/// `s` is a top-level `import "dir/*"`.
pub open spec fn is_wildcard_root(stmts: Map<usize, MetaStmt>, id: MetaNodeId) -> bool {
    stmts.contains_key(id.0) && stmts[id.0] is Import && stmts[id.0]->Import_0 is Wildcard
}

/// `msg` is the error one of the listings reports.
pub open spec fn listing_error(listings: Seq<(String, Result<Vec<String>, String>)>, msg: Seq<char>) -> bool {
    exists|i: int| 0 <= i < listings.len() && (#[trigger] listings[i]).1 is Err && listings[i].1->Err_0@ == msg
}

fn find_listing<'a>(listings: &'a Vec<(String, Result<Vec<String>, String>)>, dir: &String)
    -> (r: Option<&'a Result<Vec<String>, String>>)
    ensures
        match r {
            Some(l) => exists|i: int| 0 <= i < listings@.len() && #[trigger] listings@[i].0@ == dir@
                && listings@[i].1 == *l
                && forall|j: int| 0 <= j < i ==> (#[trigger] listings@[j]).0@ != dir@,
            None => forall|i: int| 0 <= i < listings@.len() ==> (#[trigger] listings@[i]).0@ != dir@,
        },
{
    let mut i: usize = 0;
    while i < listings.len()
        invariant
            i <= listings@.len(),
            forall|j: int| 0 <= j < i ==> (#[trigger] listings@[j]).0@ != dir@,
        decreases listings@.len() - i,
    {
        if listings[i].0 == *dir {
            return Some(&listings[i].1);
        }
        i = i + 1;
    }
    None
}

/// The entry of the first listing of directory `d`, if there is one.
pub open spec fn listing_for(listings: Seq<(String, Result<Vec<String>, String>)>, d: Seq<char>)
    -> Option<Result<Vec<String>, String>>
    decreases listings.len(),
{
    if listings.len() == 0 {
        None
    } else if listings[0].0@ == d {
        Some(listings[0].1)
    } else {
        listing_for(listings.drop_first(), d)
    }
}

proof fn lemma_listing_for_at(listings: Seq<(String, Result<Vec<String>, String>)>, d: Seq<char>, i: int)
    requires
        0 <= i < listings.len(),
        listings[i].0@ == d,
        forall|j: int| 0 <= j < i ==> (#[trigger] listings[j]).0@ != d,
    ensures
        listing_for(listings, d) == Some(listings[i].1),
    decreases i,
{
    if i > 0 {
        assert(listings[0].0@ != d);
        let rest = listings.drop_first();
        assert forall|j: int| 0 <= j < i - 1 implies (#[trigger] rest[j]).0@ != d by {
            assert(rest[j] == listings[j + 1]);
        }
        lemma_listing_for_at(rest, d, i - 1);
    }
}

/// A root as the expansion leaves it: `(Some(id), _)` keeps the root `id`;
/// `(None, path)` is a new `import "path"`.
pub open spec fn root_becomes(stmts: Map<usize, MetaStmt>, listings: Seq<(String, Result<Vec<String>, String>)>,
    earlier: Seq<MetaNodeId>, id: MetaNodeId) -> Seq<(Option<MetaNodeId>, Seq<char>)> {
    if is_wildcard_root(stmts, id) && !earlier.contains(id) {
        let d = stmts[id.0]->Import_0->Wildcard_path@;
        match listing_for(listings, d) {
            Some(Ok(stems)) => Seq::new(stems@.len(), |k: int| (None::<MetaNodeId>, d + seq!['/'] + stems@[k]@)),
            _ => Seq::empty(),
        }
    } else {
        seq![(Some(id), Seq::<char>::empty())]
    }
}

/// What the roots `roots` become: each wildcard import (met for the first
/// time) replaced in place by one import `dir/stem` per listed stem, in
/// listing order; every other root kept, in order.
pub open spec fn roots_become(stmts: Map<usize, MetaStmt>, listings: Seq<(String, Result<Vec<String>, String>)>,
    roots: Seq<MetaNodeId>) -> Seq<(Option<MetaNodeId>, Seq<char>)>
    decreases roots.len(),
{
    if roots.len() == 0 {
        Seq::empty()
    } else {
        roots_become(stmts, listings, roots.drop_last()) + root_becomes(stmts, listings, roots.drop_last(), roots.last())
    }
}

/// `id` is `import "path"` (qualified) in `stmts`.
pub open spec fn is_import_of(stmts: Map<usize, MetaStmt>, id: MetaNodeId, path: Seq<char>) -> bool {
    stmts.contains_key(id.0) && match stmts[id.0] {
        MetaStmt::Import(ImportDecl::Qualified { path: q }) => q@ == path,
        _ => false,
    }
}

/// The roots follow `plan` one for one: a kept root stays (same ID), a new
/// import is one of its path.
pub open spec fn follows_plan(stmts: Map<usize, MetaStmt>, roots: Seq<MetaNodeId>,
    plan: Seq<(Option<MetaNodeId>, Seq<char>)>) -> bool {
    &&& roots.len() == plan.len()
    &&& forall|k: int| 0 <= k < roots.len() ==> match #[trigger] plan[k] {
        (Some(id), _) => roots[k] == id,
        (None, path) => is_import_of(stmts, roots[k], path),
    }
}

/// Every root that is not a wildcard import is kept by the expansion, in
/// its place among the others.
pub proof fn law_expansion_keeps_other_roots(stmts: Map<usize, MetaStmt>, listings: Seq<(String, Result<Vec<String>, String>)>,
    roots: Seq<MetaNodeId>, j: int)
    requires
        0 <= j < roots.len(),
        !is_wildcard_root(stmts, roots[j]),
    ensures
        exists|k: int| 0 <= k < roots_become(stmts, listings, roots).len()
            && #[trigger] roots_become(stmts, listings, roots)[k] == (Some(roots[j]), Seq::<char>::empty())
            && roots_become(stmts, listings, roots.take(j)).len() == k,
    decreases roots.len(),
{
    let pre = roots.drop_last();
    if j == roots.len() - 1 {
        assert(roots.take(j) =~= pre);
        let k = roots_become(stmts, listings, pre).len() as int;
        assert(roots_become(stmts, listings, roots)[k] == (Some(roots[j]), Seq::<char>::empty()));
    } else {
        assert(pre[j] == roots[j]);
        law_expansion_keeps_other_roots(stmts, listings, pre, j);
        assert(pre.take(j) =~= roots.take(j));
        let k = choose|k: int| 0 <= k < roots_become(stmts, listings, pre).len()
            && #[trigger] roots_become(stmts, listings, pre)[k] == (Some(pre[j]), Seq::<char>::empty())
            && roots_become(stmts, listings, pre.take(j)).len() == k;
        assert(roots_become(stmts, listings, roots)[k] == roots_become(stmts, listings, pre)[k]);
    }
}

/// Keeping one more root, which is no wildcard import, follows the plan
/// that keeps it.
proof fn lemma_plan_keep(stmts: Map<usize, MetaStmt>, roots: Seq<MetaNodeId>, plan: Seq<(Option<MetaNodeId>, Seq<char>)>,
    id: MetaNodeId)
    requires
        follows_plan(stmts, roots, plan),
        forall|j: int| 0 <= j < roots.len() ==> !is_wildcard_root(stmts, #[trigger] roots[j]),
        !is_wildcard_root(stmts, id),
    ensures
        follows_plan(stmts, roots.push(id), plan + seq![(Some(id), Seq::<char>::empty())]),
        forall|j: int| 0 <= j < roots.push(id).len() ==> !is_wildcard_root(stmts, #[trigger] roots.push(id)[j]),
{
    let p2 = plan + seq![(Some(id), Seq::<char>::empty())];
    let r2 = roots.push(id);
    assert forall|t: int| 0 <= t < r2.len() implies match #[trigger] p2[t] {
        (Some(x), _) => r2[t] == x,
        (None, path) => is_import_of(stmts, r2[t], path),
    } by {
        if t < roots.len() {
            assert(r2[t] == roots[t]);
            assert(p2[t] == plan[t]);
        }
    }
    assert forall|j: int| 0 <= j < r2.len() implies !is_wildcard_root(stmts, #[trigger] r2[j]) by {
        if j < roots.len() { assert(r2[j] == roots[j]); }
    }
}

/// Replaces each top-level `import "dir/*"` by one `import "dir/stem"` per
/// `.cx` file of that directory. `listings` gives, for each directory as
/// written in the import, the stems of its `.cx` files in sorted order, or
/// the error reading it gave. A directory without a listing, or whose
/// listing is an error, stops the expansion with that error.
pub fn expand_wildcard_imports(ast: &mut MetaAst, listings: &Vec<(String, Result<Vec<String>, String>)>)
    -> (r: Result<(), String>)
    ensures
        final(ast).expr_map() == old(ast).expr_map(),
        r is Ok ==> forall|i: int| 0 <= i < final(ast).roots().len()
            ==> !is_wildcard_root(final(ast).stmt_map(), #[trigger] final(ast).roots()[i]),
        r is Ok ==> root_wildcards(final(ast).stmt_map(), final(ast).roots()).len() == 0,
        r is Ok ==> follows_plan(final(ast).stmt_map(), final(ast).roots(),
            roots_become(old(ast).stmt_map(), listings@, old(ast).roots())),
        r matches Err(msg) ==> listing_error(listings@, msg@)
            || msg@ == "node ID space exhausted"@
            || exists|d: Seq<char>| msg@ == d + ": the directory was not listed"@,
{
    let original = ast.root_stmts().clone();
    let ghost orig = original@;
    let ghost s0 = ast.stmt_map();
    ast.set_roots(Vec::new());
    let mut roots: Vec<MetaNodeId> = Vec::new();
    let mut i: usize = 0;
    proof { reveal_strlit("/"); }
    while i < original.len()
        invariant
            i <= original@.len(),
            orig == original@,
            orig == old(ast).roots(),
            s0 == old(ast).stmt_map(),
            ast.expr_map() == old(ast).expr_map(),
            forall|j: int| 0 <= j < roots@.len() ==> !is_wildcard_root(ast.stmt_map(), #[trigger] roots@[j]),
            follows_plan(ast.stmt_map(), roots@, roots_become(s0, listings@, orig.take(i as int))),
            forall|k: usize| #[trigger] s0.contains_key(k) && !orig.take(i as int).contains(MetaNodeId(k))
                ==> ast.stmt_map().contains_key(k) && ast.stmt_map()[k] == s0[k],
            forall|k: usize| #[trigger] ast.stmt_map().contains_key(k) && !s0.contains_key(k)
                ==> ast.stmt_map()[k] is Import && ast.stmt_map()[k]->Import_0 is Qualified,
            forall|x: MetaNodeId| #[trigger] orig.take(i as int).contains(x) ==> !is_wildcard_root(ast.stmt_map(), x),
        decreases original@.len() - i,
    {
        let id = original[i];
        let ghost cur = ast.stmt_map();
        let ghost plan = roots_become(s0, listings@, orig.take(i as int));
        let ghost roots0 = roots@;
        proof {
            assert(orig.take(i + 1).drop_last() =~= orig.take(i as int));
            assert(orig.take(i + 1).last() == id);
            assert(roots_become(s0, listings@, orig.take(i + 1))
                == plan + root_becomes(s0, listings@, orig.take(i as int), id));
            // the code's view of the root agrees with the plan's
            if orig.take(i as int).contains(id) {
                assert(!is_wildcard_root(cur, id));
            } else if s0.contains_key(id.0) {
                assert(cur.contains_key(id.0) && cur[id.0] == s0[id.0]);
            } else if cur.contains_key(id.0) {
                assert(cur[id.0] is Import && cur[id.0]->Import_0 is Qualified);
            }
            assert(is_wildcard_root(cur, id) == (is_wildcard_root(s0, id) && !orig.take(i as int).contains(id)));
            assert forall|x: MetaNodeId| #[trigger] orig.take(i + 1).contains(x) && x != id
                implies orig.take(i as int).contains(x) by {
                let t = choose|t: int| 0 <= t < i + 1 && #[trigger] orig.take(i + 1)[t] == x;
                assert(t < i);
                assert(orig.take(i as int)[t] == x);
            }
        }
        proof {
            if !is_wildcard_root(cur, id) {
                assert(root_becomes(s0, listings@, orig.take(i as int), id) == seq![(Some(id), Seq::<char>::empty())]);
                lemma_plan_keep(cur, roots0, plan, id);
            }
        }
        let wildcard_dir = match ast.get_stmt(id) {
            Some(MetaStmt::Import(ImportDecl::Wildcard { path })) => Some(path.clone()),
            _ => None,
        };
        match wildcard_dir {
            Some(dir_path) => {
                ast.remove_stmt(id);
                proof {
                    assert(orig.take(i + 1).contains(id)) by { assert(orig.take(i + 1)[i as int] == id); }
                    assert forall|j: int| 0 <= j < roots@.len() implies !is_wildcard_root(ast.stmt_map(), #[trigger] roots@[j]) by {
                        assert(!is_wildcard_root(cur, roots@[j]));
                    }
                    assert forall|k: int| 0 <= k < roots@.len() implies match #[trigger] plan[k] {
                        (Some(x), _) => roots@[k] == x,
                        (None, path) => is_import_of(ast.stmt_map(), roots@[k], path),
                    } by {
                        if plan[k].0 is None {
                            assert(is_import_of(cur, roots@[k], plan[k].1));
                            assert(roots@[k] != id);
                        }
                    }
                }
                let stems = match find_listing(listings, &dir_path) {
                    Some(Ok(stems)) => stems,
                    Some(Err(msg)) => {
                        ast.set_roots(roots);
                        let m = msg.clone();
                        proof {
                            let w = choose|w: int| 0 <= w < listings@.len() && #[trigger] listings@[w].0@ == dir_path@
                                && listings@[w].1 == Err::<Vec<String>, String>(*msg);
                            assert(listing_error(listings@, m@));
                        }
                        return Err(m);
                    },
                    None => {
                        ast.set_roots(roots);
                        let msg = concat(dir_path.as_str(), ": the directory was not listed");
                        return Err(msg);
                    },
                };
                let ghost items = root_becomes(s0, listings@, orig.take(i as int), id);
                proof {
                    let w = choose|w: int| 0 <= w < listings@.len() && #[trigger] listings@[w].0@ == dir_path@
                        && listings@[w].1 == Ok::<Vec<String>, String>(*stems)
                        && forall|j: int| 0 <= j < w ==> (#[trigger] listings@[j]).0@ != dir_path@;
                    lemma_listing_for_at(listings@, dir_path@, w);
                    assert(items.len() == stems@.len());
                }
                let mut k: usize = 0;
                while k < stems.len()
                    invariant
                        k <= stems@.len(),
                        i < orig.len(),
                        orig == original@,
                        s0 == old(ast).stmt_map(),
                        id == orig[i as int],
                        ast.expr_map() == old(ast).expr_map(),
                        items.len() == stems@.len(),
                        forall|t: int| 0 <= t < items.len() ==> #[trigger] items[t] == (None::<MetaNodeId>, dir_path@ + seq!['/'] + stems@[t]@),
                        forall|j: int| 0 <= j < roots@.len() ==> !is_wildcard_root(ast.stmt_map(), #[trigger] roots@[j]),
                        follows_plan(ast.stmt_map(), roots@, plan + items.take(k as int)),
                        forall|k2: usize| #[trigger] s0.contains_key(k2) && !orig.take(i + 1).contains(MetaNodeId(k2))
                            ==> ast.stmt_map().contains_key(k2) && ast.stmt_map()[k2] == s0[k2],
                        forall|k2: usize| #[trigger] ast.stmt_map().contains_key(k2) && !s0.contains_key(k2)
                            ==> ast.stmt_map()[k2] is Import && ast.stmt_map()[k2]->Import_0 is Qualified,
                        forall|x: MetaNodeId| #[trigger] orig.take(i + 1).contains(x) ==> !is_wildcard_root(ast.stmt_map(), x),
                    decreases stems@.len() - k,
                {
                    if ast.max_id() == usize::MAX {
                        ast.set_roots(roots);
                        return Err(String::from_str("node ID space exhausted"));
                    }
                    let with_sep = concat(dir_path.as_str(), "/");
                    let rel_path = concat(with_sep.as_str(), stems[k].as_str());
                    let ghost before = ast.stmt_map();
                    let ghost rp = rel_path@;
                    let new_id = ast.inject_stmt(MetaStmt::Import(ImportDecl::Qualified { path: rel_path }));
                    let ghost r0 = roots@;
                    roots.push(new_id);
                    proof {
                        assert(!before.contains_key(new_id.0));
                        reveal_strlit("/");
                        assert("/"@ =~= seq!['/']);
                        assert(rp == dir_path@ + seq!['/'] + stems@[k as int]@);
                        let p2 = plan + items.take(k + 1);
                        assert(p2 =~= (plan + items.take(k as int)).push(items[k as int]));
                        assert forall|t: int| 0 <= t < roots@.len() implies match #[trigger] p2[t] {
                            (Some(x), _) => roots@[t] == x,
                            (None, path) => is_import_of(ast.stmt_map(), roots@[t], path),
                        } by {
                            if t < r0.len() {
                                assert(roots@[t] == r0[t]);
                                assert(p2[t] == (plan + items.take(k as int))[t]);
                                if p2[t].0 is None {
                                    assert(is_import_of(before, r0[t], p2[t].1));
                                    assert(r0[t] != new_id);
                                }
                            } else {
                                assert(p2[t] == items[k as int]);
                            }
                        }
                        assert forall|j: int| 0 <= j < roots@.len() implies !is_wildcard_root(ast.stmt_map(), #[trigger] roots@[j]) by {
                            if j < r0.len() {
                                assert(roots@[j] == r0[j]);
                                assert(!is_wildcard_root(before, r0[j]));
                            }
                        }
                        assert forall|x: MetaNodeId| #[trigger] orig.take(i + 1).contains(x)
                            implies !is_wildcard_root(ast.stmt_map(), x) by {
                            assert(!is_wildcard_root(before, x));
                        }
                    }
                    k = k + 1;
                }
                proof {
                    assert(items.take(items.len() as int) =~= items);
                }
            },
            None => {
                roots.push(id);
            },
        }
        i = i + 1;
    }
    ast.set_roots(roots);
    proof {
        assert(orig.take(orig.len() as int) =~= orig);
        lemma_no_wildcards(ast.stmt_map(), ast.roots());
    }
    Ok(())
}

proof fn lemma_no_wildcards(stmts: Map<usize, MetaStmt>, roots: Seq<MetaNodeId>)
    requires
        forall|j: int| 0 <= j < roots.len() ==> !is_wildcard_root(stmts, #[trigger] roots[j]),
    ensures
        root_wildcards(stmts, roots).len() == 0,
    decreases roots.len(),
{
    if roots.len() > 0 {
        assert(!is_wildcard_root(stmts, roots[roots.len() - 1]));
        lemma_no_wildcards(stmts, roots.drop_last());
    }
}

// ── The order files are loaded in ───────────────────────────────────────────

/// The standard-library modules every program gets without an import, in
/// the order they are loaded.
pub open spec fn prelude_names_spec() -> Seq<Seq<char>> {
    seq!["Error"@, "Fallible"@, "Math"@, "Option"@, "String"@, "StringBuilder"@]
}

/// The standard-library modules every program gets without an import.
pub fn prelude_names() -> (r: Vec<String>)
    ensures
        strings_view(r@) == prelude_names_spec(),
{
    let mut v: Vec<String> = Vec::new();
    v.push(String::from_str("Error"));
    v.push(String::from_str("Fallible"));
    v.push(String::from_str("Math"));
    v.push(String::from_str("Option"));
    v.push(String::from_str("String"));
    v.push(String::from_str("StringBuilder"));
    proof { assert(strings_view(v@) =~= prelude_names_spec()); }
    v
}

/// A file waiting to be loaded: the import naming it, its path, and whether
/// it comes from the standard library.
#[derive(Debug)]
pub struct PendingFile {
    pub decl: ImportDecl,
    pub path: String,
    pub is_stdlib: bool,
}

/// Breadth-first loading of the files reached from the entry file: each
/// file is loaded once, in the order its import was met.
pub struct LoadQueue {
    queue: Vec<PendingFile>,
    head: usize,
    visited: Vec<String>,
}

impl LoadQueue {
    /// The files still to be loaded, in order.
    pub closed spec fn pending(&self) -> Seq<PendingFile> {
        self.queue@.skip(self.head as int)
    }

    /// The files loaded so far.
    pub closed spec fn loaded(&self) -> Set<Seq<char>> {
        strings_view(self.visited@).to_set()
    }

    pub closed spec fn wf(&self) -> bool {
        self.head <= self.queue@.len()
    }

    /// A queue with nothing pending, the entry file already loaded.
    pub fn new(entry: &str) -> (q: Self)
        ensures
            q.wf(),
            q.pending().len() == 0,
            q.loaded() == Set::<Seq<char>>::empty().insert(entry@),
    {
        let mut visited: Vec<String> = Vec::new();
        visited.push(String::from_str(entry));
        let q = LoadQueue { queue: Vec::new(), head: 0, visited };
        proof {
            assert(strings_view(q.visited@) =~= seq![entry@]);
            assert(seq![entry@].to_set() =~= Set::<Seq<char>>::empty().insert(entry@)) by {
                assert(seq![entry@].contains(entry@)) by { assert(seq![entry@][0] == entry@); }
            }
            assert(q.queue@.skip(0).len() == 0);
        }
        q
    }

    /// Queues the prelude module `name`, found at `file`.
    pub fn push_prelude(&mut self, name: &str, file: String)
        requires
            old(self).wf(),
        ensures
            final(self).wf(),
            final(self).loaded() == old(self).loaded(),
            final(self).pending().len() == old(self).pending().len() + 1,
            forall|i: int| 0 <= i < old(self).pending().len() ==> final(self).pending()[i] == old(self).pending()[i],
            final(self).pending().last().decl matches ImportDecl::Qualified { path } && path@ == "lang/"@ + name@,
            final(self).pending().last().path@ == file@,
            final(self).pending().last().is_stdlib,
    {
        let mut p = String::from_str("lang/");
        p.append(name);
        let ghost before = self.pending();
        self.queue.push(PendingFile { decl: ImportDecl::Qualified { path: p }, path: file, is_stdlib: true });
        proof {
            assert(self.pending() =~= before.push(self.queue@.last()));
        }
    }

    /// Queues the files `decls` import, resolved from `base_dir`.
    pub fn push_imports(&mut self, base_dir: &str, decls: &Vec<ImportDecl>, is_stdlib: bool)
        requires
            old(self).wf(),
        ensures
            final(self).wf(),
            final(self).loaded() == old(self).loaded(),
            final(self).pending().len() == old(self).pending().len() + decls@.len(),
            forall|i: int| 0 <= i < old(self).pending().len() ==> final(self).pending()[i] == old(self).pending()[i],
            forall|j: int| 0 <= j < decls@.len() ==> {
                let p = #[trigger] final(self).pending()[old(self).pending().len() + j];
                &&& same_import(decls@[j], p.decl)
                &&& p.path@ == resolved_import(base_dir@, decls@[j].spec_path())
                &&& p.is_stdlib == is_stdlib
            },
    {
        let ghost before = self.pending();
        let mut i: usize = 0;
        while i < decls.len()
            invariant
                self.head <= self.queue@.len(),
                self.visited == old(self).visited,
                i <= decls@.len(),
                self.pending().len() == before.len() + i,
                forall|k: int| 0 <= k < before.len() ==> self.pending()[k] == before[k],
                forall|j: int| 0 <= j < i ==> {
                    let p = #[trigger] self.pending()[before.len() + j];
                    &&& same_import(decls@[j], p.decl)
                    &&& p.path@ == resolved_import(base_dir@, decls@[j].spec_path())
                    &&& p.is_stdlib == is_stdlib
                },
            decreases decls@.len() - i,
        {
            let d = copy_import(&decls[i]);
            let path = resolve_import(base_dir, decls[i].path());
            let ghost prev = self.pending();
            self.queue.push(PendingFile { decl: d, path, is_stdlib });
            proof {
                assert(self.pending() =~= prev.push(self.queue@.last()));
            }
            i = i + 1;
        }
    }

    /// The next file to load, if any.
    pub fn next(&mut self) -> (r: Option<&PendingFile>)
        requires
            old(self).wf(),
        ensures
            final(self).wf(),
            final(self).loaded() == old(self).loaded(),
            match r {
                Some(p) => old(self).pending().len() > 0 && *p == old(self).pending()[0]
                    && final(self).pending() == old(self).pending().drop_first(),
                None => old(self).pending().len() == 0 && final(self).pending().len() == 0,
            },
    {
        if self.head < self.queue.len() {
            let h = self.head;
            self.head = self.head + 1;
            proof { assert(self.pending() =~= old(self).pending().drop_first()); }
            Some(&self.queue[h])
        } else {
            None
        }
    }

    /// Marks the file at `canonical` loaded; `true` when it was not loaded
    /// before (so it is to be read now), `false` when it was.
    pub fn visit(&mut self, canonical: &str) -> (fresh: bool)
        requires
            old(self).wf(),
        ensures
            final(self).wf(),
            fresh == !old(self).loaded().contains(canonical@),
            final(self).loaded() == old(self).loaded().insert(canonical@),
            final(self).pending() == old(self).pending(),
    {
        if contains_string(&self.visited, canonical) {
            proof {
                assert(strings_view(self.visited@).to_set().contains(canonical@));
                assert(self.loaded().insert(canonical@) =~= self.loaded());
            }
            return false;
        }
        let ghost before = strings_view(self.visited@);
        self.visited.push(String::from_str(canonical));
        proof {
            assert(strings_view(self.visited@) =~= before.push(canonical@));
            before.lemma_push_to_set_commute(canonical@);
        }
        true
    }
}

/// The role of a file loaded for `p`: from the standard library, or named by
/// an import.
pub fn role_of(p: &PendingFile) -> (r: FileRole)
    ensures
        match r {
            FileRole::StdLib(d) => p.is_stdlib && same_import(p.decl, d),
            FileRole::Explicit(d) => !p.is_stdlib && same_import(p.decl, d),
            FileRole::Entry => false,
        },
{
    let d = copy_import(&p.decl);
    if p.is_stdlib { FileRole::StdLib(d) } else { FileRole::Explicit(d) }
}

} // verus!
