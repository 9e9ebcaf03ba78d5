use vstd::prelude::*;
use crate::id_provider::IdProvider;
use crate::meta_ast::{
    ConstructorPayload, ForVar, ImportDecl, MetaAst, MetaExpr, MetaStmt, Param, expr_expr_kids,
    expr_stmt_kids, handle_ops, stmt_expr_kids, stmt_stmt_kids, kids_below, ops_below, kids_in, ops_in, ops_present, present,
};
use crate::node_id::{MetaNodeId, StagedNodeId};
use crate::staged_ast::{
    MetaRef, StagedAst, StagedConstructorPayload, StagedExpr, StagedFieldDecl, StagedMatchArm, StagedStmt,
    staged_stmt_kids,
};
use crate::staged_forest::{MetaProcessError, ModuleBinding, ProcessDependency, StagedForest};
use crate::module_loader::{FileRole, LoadedFile};
use crate::text::{concat, strings_view};
use crate::type_env::{TypeEnv, scheme_text};
use crate::types::type_to_string;

verus! {

broadcast use {vstd::std_specs::hash::group_hash_axioms, vstd::map_lib::lemma_submap_of_trans};

// ── What staging keeps ───────────────────────────────────────────────────────

pub open spec fn str_views(v: Seq<String>) -> Seq<Seq<char>> {
    v.map_values(|s: String| s@)
}

pub open spec fn opt_same(a: Option<MetaNodeId>, b: Option<StagedNodeId>) -> bool {
    a is Some == b is Some
}

/// The text `typeof(ident)` stages to: the bound type, or `unknown(ident)`.
pub open spec fn typeof_text(env: TypeEnv, ident: Seq<char>) -> Seq<char> {
    match env.binding(ident) {
        Some(s) => scheme_text(s),
        None => seq!['u', 'n', 'k', 'n', 'o', 'w', 'n', '('] + ident + seq![')'],
    }
}

/// The contents recorded for the embedded file `path` (the first entry).
pub open spec fn embedded(files: Seq<(String, Result<String, String>)>, path: Seq<char>) -> Option<Result<String, String>>
    decreases files.len(),
{
    if files.len() == 0 {
        None
    } else if files[0].0@ == path {
        Some(files[0].1)
    } else {
        embedded(files.drop_first(), path)
    }
}

/// `s` is the staged form of the meta expression `m`: same kind, same
/// names and literals, as many sub-expressions. `typeof` becomes the text of
/// the type, `embed` the file's contents.
pub open spec fn expr_shape(m: MetaExpr, s: StagedExpr, env: TypeEnv, files: Seq<(String, Result<String, String>)>) -> bool {
    match (m, s) {
        (MetaExpr::Int(a), StagedExpr::Int(b)) => a == b,
        (MetaExpr::String(a), StagedExpr::String(b)) => a@ == b@,
        (MetaExpr::Bool(a), StagedExpr::Bool(b)) => a == b,
        (MetaExpr::StructLiteral { struct_name: a, fields: fa }, StagedExpr::StructLiteral { struct_name: b, fields: fb }) =>
            a@ == b@ && fa@.len() == fb@.len() && forall|i: int| 0 <= i < fa@.len() ==> #[trigger] fa@[i].0@ == fb@[i].0@,
        (MetaExpr::Variable(a), StagedExpr::Variable(b)) => a@ == b@,
        (MetaExpr::List(a), StagedExpr::List(b)) => a@.len() == b@.len(),
        (MetaExpr::Call { callee: a, args: xa }, StagedExpr::Call { callee: b, args: xb }) => a@ == b@ && xa@.len() == xb@.len(),
        (MetaExpr::DotAccess { field: a, .. }, StagedExpr::DotAccess { field: b, .. }) => a@ == b@,
        (MetaExpr::DotCall { method: a, args: xa, .. }, StagedExpr::DotCall { method: b, args: xb, .. }) =>
            a@ == b@ && xa@.len() == xb@.len(),
        (MetaExpr::Index { .. }, StagedExpr::Index { .. }) => true,
        (MetaExpr::Typeof(ident), StagedExpr::String(t)) => t@ == typeof_text(env, ident@),
        (MetaExpr::Embed(path), StagedExpr::String(c)) => embedded(files, path@) matches Some(Ok(c2)) && c2@ == c@,
        (MetaExpr::EnumConstructor { enum_name: a, variant: va, payload: pa },
            StagedExpr::EnumConstructor { enum_name: b, variant: vb, payload: pb }) =>
            a@ == b@ && va@ == vb@ && match (pa, pb) {
                (ConstructorPayload::Unit, StagedConstructorPayload::Unit) => true,
                (ConstructorPayload::Tuple(x), StagedConstructorPayload::Tuple(y)) => x@.len() == y@.len(),
                (ConstructorPayload::Struct(x), StagedConstructorPayload::Struct(y)) => x@.len() == y@.len()
                    && forall|i: int| 0 <= i < x@.len() ==> #[trigger] x@[i].0@ == y@[i].0@,
                _ => false,
            },
        (MetaExpr::Add(..), StagedExpr::Add(..)) => true,
        (MetaExpr::Sub(..), StagedExpr::Sub(..)) => true,
        (MetaExpr::Mult(..), StagedExpr::Mult(..)) => true,
        (MetaExpr::Div(..), StagedExpr::Div(..)) => true,
        (MetaExpr::Mod(..), StagedExpr::Mod(..)) => true,
        (MetaExpr::Equals(..), StagedExpr::Equals(..)) => true,
        (MetaExpr::NotEquals(..), StagedExpr::NotEquals(..)) => true,
        (MetaExpr::Lt(..), StagedExpr::Lt(..)) => true,
        (MetaExpr::Gt(..), StagedExpr::Gt(..)) => true,
        (MetaExpr::Lte(..), StagedExpr::Lte(..)) => true,
        (MetaExpr::Gte(..), StagedExpr::Gte(..)) => true,
        (MetaExpr::And(..), StagedExpr::And(..)) => true,
        (MetaExpr::Or(..), StagedExpr::Or(..)) => true,
        (MetaExpr::Not(..), StagedExpr::Not(..)) => true,
        (MetaExpr::Tuple(a), StagedExpr::Tuple(b)) => a@.len() == b@.len(),
        (MetaExpr::TupleIndex { index: a, .. }, StagedExpr::TupleIndex { index: b, .. }) => a == b,
        (MetaExpr::SliceRange { start: sa, end: ea, .. }, StagedExpr::SliceRange { start: sb, end: eb, .. }) =>
            opt_same(sa, sb) && opt_same(ea, eb),
        (MetaExpr::Lambda { params: a, .. }, StagedExpr::Lambda { params: b, .. }) => str_views(a@) == str_views(b@),
        (MetaExpr::ResumeExpr(a), StagedExpr::ResumeExpr(b)) => opt_same(a, b),
        (MetaExpr::RunHandle { effects: a, .. }, StagedExpr::RunHandle { effects: b, .. }) =>
            a@.len() == b@.len() && forall|i: int| 0 <= i < a@.len() ==> #[trigger] a@[i].0@ == b@[i].0@
                && a@[i].1@.len() == b@[i].1@.len(),
        (MetaExpr::RunWith { handler_name: a, .. }, StagedExpr::RunWith { handler_name: b, .. }) => a@ == b@,
        _ => false,
    }
}

/// `s` is the staged form of the meta statement `m`. A block keeps one
/// entry per statement (its `defer`s move to the exits); a trait
/// declaration leaves an empty block, an impl a block of its methods; a
/// meta block becomes a reference to the tree it was staged into.
pub open spec fn stmt_shape(m: MetaStmt, s: StagedStmt) -> bool {
    match (m, s) {
        (MetaStmt::ExprStmt(_), StagedStmt::ExprStmt(_)) => true,
        (MetaStmt::VarDecl { name: a, .. }, StagedStmt::VarDecl { name: b, .. }) => a@ == b@,
        (MetaStmt::Assign { name: a, .. }, StagedStmt::Assign { name: b, .. }) => a@ == b@,
        (MetaStmt::IndexAssign { name: a, indices: xa, .. }, StagedStmt::IndexAssign { name: b, indices: xb, .. }) =>
            a@ == b@ && xa@.len() == xb@.len(),
        (MetaStmt::DotAssign { object: oa, field: fa, .. }, StagedStmt::DotAssign { object: ob, field: fb, .. }) =>
            oa@ == ob@ && fa@ == fb@,
        (MetaStmt::Print(_), StagedStmt::Print(_)) => true,
        (MetaStmt::If { else_branch: a, .. }, StagedStmt::If { else_branch: b, .. }) => opt_same(a, b),
        (MetaStmt::WhileLoop { .. }, StagedStmt::WhileLoop { .. }) => true,
        (MetaStmt::ForEach { .. }, StagedStmt::ForEach { .. }) => true,
        (MetaStmt::Block(a), StagedStmt::Block(b)) => a@.len() == b@.len(),
        (MetaStmt::FnDecl { name: a, params: pa, type_params: ta, .. },
            StagedStmt::FnDecl { name: b, params: pb, type_params: tb, .. }) =>
            a@ == b@ && pb@.len() == pa@.len() && (forall|i: int| 0 <= i < pa@.len() ==> #[trigger] pb@[i]@ == pa@[i].name@)
                && str_views(ta@) == str_views(tb@),
        (MetaStmt::MetaFnDecl { name: a, params: pa, .. }, StagedStmt::FnDecl { name: b, params: pb, type_params: tb, .. }) =>
            a@ == b@ && pb@.len() == pa@.len() && (forall|i: int| 0 <= i < pa@.len() ==> #[trigger] pb@[i]@ == pa@[i].name@)
                && tb@.len() == 0,
        (MetaStmt::StructDecl { name: a, fields: fa }, StagedStmt::StructDecl { name: b, fields: fb }) =>
            a@ == b@ && fa@.len() == fb@.len() && forall|i: int| 0 <= i < fa@.len() ==>
                #[trigger] fb@[i].field_name@ == fa@[i].field_name@ && fb@[i].field_type@ == fa@[i].field_type@,
        (MetaStmt::TraitDecl { .. }, StagedStmt::Block(b)) => b@.len() == 0,
        (MetaStmt::ImplDecl { methods, .. }, StagedStmt::Block(b)) => b@.len() == methods@.len(),
        (MetaStmt::EnumDecl { name: a, type_params: ta, variants: va },
            StagedStmt::EnumDecl { name: b, type_params: tb, variants: vb }) =>
            a@ == b@ && str_views(ta@) == str_views(tb@) && va@.len() == vb@.len(),
        (MetaStmt::Match { arms: a, .. }, StagedStmt::Match { arms: b, .. }) => a@.len() == b@.len(),
        (MetaStmt::Return(a), StagedStmt::Return(b)) => opt_same(a, b),
        (MetaStmt::Gen(a), StagedStmt::Gen(b)) => a@.len() == b@.len(),
        (MetaStmt::MetaBlock(_), StagedStmt::MetaStmt(_)) => true,
        (MetaStmt::Import(a), StagedStmt::Import(b)) => a.spec_path() == b.spec_path(),
        (MetaStmt::EffectDecl { name: a, type_params: ta, ops: oa }, StagedStmt::EffectDecl { name: b, type_params: tb, ops: ob }) =>
            a@ == b@ && str_views(ta@) == str_views(tb@) && oa@.len() == ob@.len(),
        (MetaStmt::WithFn { op_name: a, ret_ty: ra, .. }, StagedStmt::WithFn { op_name: b, ret_ty: rb, .. }) =>
            a@ == b@ && ra is Some == rb is Some,
        (MetaStmt::WithCtl { op_name: a, ret_ty: ra, .. }, StagedStmt::WithCtl { op_name: b, ret_ty: rb, .. }) =>
            a@ == b@ && ra is Some == rb is Some,
        (MetaStmt::HandlerDef { name: a, effect_name: ea, ops: oa }, StagedStmt::HandlerDef { name: b, effect_name: eb, ops: ob }) =>
            a@ == b@ && ea is Some == eb is Some && oa@.len() == ob@.len(),
        (MetaStmt::Resume(a), StagedStmt::Resume(b)) => opt_same(a, b),
        (MetaStmt::Defer(_), StagedStmt::Block(b)) => b@.len() == 1,
        _ => false,
    }
}

/// No node of the staged tree has an ID at or above `n`.
pub open spec fn staged_ids_below(ast: StagedAst, n: nat) -> bool {
    &&& forall|k: usize| #[trigger] ast.exprs@.contains_key(k) ==> k < n
    &&& forall|k: usize| #[trigger] ast.stmts@.contains_key(k) ==> k < n
}

/// What staging may assume of the tree it adds to.
pub open spec fn stage_pre(ast: StagedAst, counter: nat) -> bool {
    staged_ids_below(ast, counter) && ast.well_founded()
}

/// A staging step kept every node, added only nodes with the IDs it drew
/// (from `c0` on), and left the tree well founded.
pub open spec fn stage_step(old: StagedAst, new: StagedAst, c0: nat, c1: nat) -> bool {
    &&& c0 <= c1
    &&& old.exprs@.submap_of(new.exprs@)
    &&& old.stmts@.submap_of(new.stmts@)
    &&& new.sem_root_stmts@ == old.sem_root_stmts@
    &&& stage_pre(new, c1)
    &&& forall|k: usize| #[trigger] new.exprs@.contains_key(k) && !old.exprs@.contains_key(k) ==> c0 <= k
    &&& forall|k: usize| #[trigger] new.stmts@.contains_key(k) && !old.stmts@.contains_key(k) ==> c0 <= k
}

proof fn lemma_stage_step_trans(a: StagedAst, b: StagedAst, c: StagedAst, c0: nat, c1: nat, c2: nat)
    requires
        stage_step(a, b, c0, c1),
        stage_step(b, c, c1, c2),
    ensures
        stage_step(a, c, c0, c2),
{
    assert forall|k: usize| #[trigger] c.exprs@.contains_key(k) && !a.exprs@.contains_key(k) implies c0 <= k by {
        if b.exprs@.contains_key(k) {} else {}
    }
    assert forall|k: usize| #[trigger] c.stmts@.contains_key(k) && !a.stmts@.contains_key(k) implies c0 <= k by {
        if b.stmts@.contains_key(k) {} else {}
    }
}

/// An error naming a node the tree does not hold.
pub open spec fn not_found(e: MetaProcessError) -> bool {
    e is ExprNotFound || e is StmtNotFound
}

/// The error drawing a node ID reports once the ID space is used up.
pub open spec fn id_exhausted(e: MetaProcessError) -> bool {
    e matches MetaProcessError::Unimplemented(m) && m@ == "node ID space exhausted"@
}

/// An error staging reports: a node the tree refers to but does not hold,
/// a file `embed` could not read, or the ID space running out.
pub open spec fn stage_error(meta: MetaAst, files: Seq<(String, Result<String, String>)>, e: MetaProcessError) -> bool {
    match e {
        MetaProcessError::ExprNotFound(id) => !meta.expr_map().contains_key(id.0),
        MetaProcessError::StmtNotFound(id) => !meta.stmt_map().contains_key(id.0),
        MetaProcessError::EmbedFailed { path, error } => meta.embeds(path@) && match embedded(files, path@) {
            Some(Err(reason)) => error@ == reason@,
            Some(Ok(_)) => false,
            None => error@ == "the file was not read"@,
        },
        MetaProcessError::Unimplemented(_) => id_exhausted(e),
        _ => false,
    }
}


// ── Small steps ──────────────────────────────────────────────────────────────

/// Draws a fresh staged ID, or reports that the ID space is used up.
fn fresh_staged(id_provider: &mut IdProvider) -> (r: Result<StagedNodeId, MetaProcessError>)
    ensures
        r is Err && id_exhausted(r->Err_0) ==> final(id_provider).counter() == usize::MAX,
        match r {
            Ok(id) => id.0 == old(id_provider).counter()
                && final(id_provider).counter() == old(id_provider).counter() + 1,
            Err(e) => id_exhausted(e) && final(id_provider).counter() == old(id_provider).counter(),
        },
{
    if id_provider.peek() == usize::MAX {
        return Err(MetaProcessError::Unimplemented(String::from_str("node ID space exhausted")));
    }
    Ok(id_provider.next_staged())
}

fn clone_strings(v: &Vec<String>) -> (r: Vec<String>)
    ensures
        str_views(r@) == str_views(v@),
{
    let mut out: Vec<String> = Vec::new();
    let mut i: usize = 0;
    while i < v.len()
        invariant
            i <= v@.len(),
            str_views(out@) == str_views(v@.subrange(0, i as int)),
        decreases v@.len() - i,
    {
        let ghost prev = out@;
        let c = v[i].clone();
        out.push(c);
        proof {
            assert(out@ == prev.push(c));
            assert(str_views(out@) =~= str_views(prev).push(c@));
            assert(str_views(v@.subrange(0, i + 1)) =~= str_views(v@.subrange(0, i as int)).push(v@[i as int]@));
        }
        i = i + 1;
    }
    proof { assert(v@.subrange(0, v@.len() as int) =~= v@); }
    out
}

fn param_names(params: &Vec<Param>) -> (r: Vec<String>)
    ensures
        r@.len() == params@.len(),
        forall|i: int| 0 <= i < params@.len() ==> #[trigger] r@[i]@ == params@[i].name@,
{
    let mut out: Vec<String> = Vec::new();
    let mut i: usize = 0;
    while i < params.len()
        invariant
            i <= params@.len(),
            out@.len() == i,
            forall|j: int| 0 <= j < i ==> #[trigger] out@[j]@ == params@[j].name@,
        decreases params@.len() - i,
    {
        out.push(params[i].name.clone());
        i = i + 1;
    }
    out
}

fn clone_import(d: &ImportDecl) -> (r: ImportDecl)
    ensures
        r.spec_path() == d.spec_path(),
{
    match d {
        ImportDecl::Qualified { path } => ImportDecl::Qualified { path: path.clone() },
        ImportDecl::Aliased { path, alias } => ImportDecl::Aliased { path: path.clone(), alias: alias.clone() },
        ImportDecl::Selective { names, path } => ImportDecl::Selective { names: clone_strings(names), path: path.clone() },
        ImportDecl::Wildcard { path } => ImportDecl::Wildcard { path: path.clone() },
    }
}

fn find_embedded<'a>(files: &'a Vec<(String, Result<String, String>)>, path: &String) -> (r: Option<&'a Result<String, String>>)
    ensures
        match r {
            Some(c) => embedded(files@, path@) == Some(*c),
            None => embedded(files@, path@) is None,
        },
{
    let mut i: usize = 0;
    proof { assert(files@.subrange(0, files@.len() as int) =~= files@); }
    while i < files.len()
        invariant
            i <= files@.len(),
            embedded(files@, path@) == embedded(files@.subrange(i as int, files@.len() as int), path@),
        decreases files@.len() - i,
    {
        proof {
            let rest = files@.subrange(i as int, files@.len() as int);
            assert(rest.drop_first() =~= files@.subrange(i + 1, files@.len() as int));
            assert(rest[0] == files@[i as int]);
        }
        if files[i].0 == *path {
            return Some(&files[i].1);
        }
        i = i + 1;
    }
    None
}

/// The text `typeof(ident)` stages to.
fn typeof_string(type_env: &TypeEnv, ident: &String) -> (r: String)
    ensures
        r@ == typeof_text(*type_env, ident@),
{
    match type_env.get_type(ident.as_str()) {
        Some(scheme) => match &scheme {
            crate::types::TypeScheme::MonoType(t) => type_to_string(t),
            crate::types::TypeScheme::PolyType { ty, .. } => type_to_string(ty),
        },
        None => {
            proof {
                reveal_strlit("unknown(");
                reveal_strlit(")");
            }
            let a = concat("unknown(", ident.as_str());
            let r = concat(a.as_str(), ")");
            proof {
                assert(r@ =~= seq!['u', 'n', 'k', 'n', 'o', 'w', 'n', '('] + ident@ + seq![')']);
            }
            r
        },
    }
}

/// Adds `d` to a dependency list unless it is there already.
fn insert_dependency(deps: &mut Vec<ProcessDependency>, d: ProcessDependency)
    ensures
        final(deps)@.to_set() == old(deps)@.to_set().insert(d),
{
    let mut i: usize = 0;
    while i < deps.len()
        invariant
            i <= deps@.len(),
            deps@ == old(deps)@,
            forall|j: int| 0 <= j < i ==> #[trigger] deps@[j] != d,
        decreases deps@.len() - i,
    {
        if deps[i] == d {
            proof {
                assert(deps@.contains(d));
                assert(deps@.to_set().contains(d));
                assert(deps@.to_set() =~= deps@.to_set().insert(d));
            }
            return;
        }
        i = i + 1;
    }
    deps.push(d);
    proof {
        old(deps)@.lemma_push_to_set_commute(d);
    }
}


/// Stores the node drawn at the start of a step, once its parts are staged.
fn put_expr(staged_ast: &mut StagedAst, sid: StagedNodeId, e: StagedExpr, Ghost(start): Ghost<StagedAst>, Ghost(counter): Ghost<nat>)
    requires
        stage_pre(start, sid.0 as nat),
        stage_step(start, *old(staged_ast), (sid.0 + 1) as nat, counter),
    ensures
        stage_step(start, *final(staged_ast), sid.0 as nat, counter),
        final(staged_ast).exprs@.contains_key(sid.0),
        final(staged_ast).exprs@[sid.0] == e,
        final(staged_ast).exprs@ == old(staged_ast).exprs@.insert(sid.0, e),
        !old(staged_ast).exprs@.contains_key(sid.0),
{
    let ghost mid = *staged_ast;
    staged_ast.insert_expr(sid, e);
    proof {
        assert(!start.exprs@.contains_key(sid.0));
        assert(staged_ast.stmts@ == mid.stmts@);
        assert(staged_ast.well_founded()) by {
            let r = choose|r: Map<usize, nat>| crate::staged_ast::ranked_by(mid.stmts@, r);
            assert(crate::staged_ast::ranked_by(staged_ast.stmts@, r));
        }
    }
}

fn put_stmt(staged_ast: &mut StagedAst, sid: StagedNodeId, s: StagedStmt, Ghost(start): Ghost<StagedAst>, Ghost(counter): Ghost<nat>)
    requires
        stage_pre(start, sid.0 as nat),
        stage_step(start, *old(staged_ast), (sid.0 + 1) as nat, counter),
        forall|i: int| 0 <= i < staged_stmt_kids(s).len() ==> old(staged_ast).stmts@.contains_key(#[trigger] staged_stmt_kids(s)[i].0),
    ensures
        stage_step(start, *final(staged_ast), sid.0 as nat, counter),
        final(staged_ast).stmts@.contains_key(sid.0),
        final(staged_ast).stmts@[sid.0] == s,
        final(staged_ast).stmts@ == old(staged_ast).stmts@.insert(sid.0, s),
        final(staged_ast).exprs@ == old(staged_ast).exprs@,
        !old(staged_ast).stmts@.contains_key(sid.0),
{
    let ghost mid = *staged_ast;
    assert(!start.stmts@.contains_key(sid.0));
    assert(!mid.stmts@.contains_key(sid.0));
    staged_ast.insert_stmt(sid, s);
}

/// The sub-expressions and sub-statements of `e` all have IDs below `b`.
pub open spec fn expr_children_below(e: MetaExpr, b: nat) -> bool {
    match e {
        MetaExpr::StructLiteral { fields, .. } => forall|i: int| 0 <= i < fields@.len() ==> (#[trigger] fields@[i]).1.0 < b,
        MetaExpr::List(items) => forall|i: int| 0 <= i < items@.len() ==> (#[trigger] items@[i]).0 < b,
        MetaExpr::Call { args, .. } => forall|i: int| 0 <= i < args@.len() ==> (#[trigger] args@[i]).0 < b,
        MetaExpr::DotAccess { object, .. } => object.0 < b,
        MetaExpr::DotCall { object, args, .. } => object.0 < b && forall|i: int| 0 <= i < args@.len() ==> (#[trigger] args@[i]).0 < b,
        MetaExpr::Index { object, index } => object.0 < b && index.0 < b,
        MetaExpr::EnumConstructor { payload, .. } => match payload {
            ConstructorPayload::Unit => true,
            ConstructorPayload::Tuple(ids) => forall|i: int| 0 <= i < ids@.len() ==> (#[trigger] ids@[i]).0 < b,
            ConstructorPayload::Struct(fields) => forall|i: int| 0 <= i < fields@.len() ==> (#[trigger] fields@[i]).1.0 < b,
        },
        MetaExpr::Add(x, y) => x.0 < b && y.0 < b,
        MetaExpr::Sub(x, y) => x.0 < b && y.0 < b,
        MetaExpr::Mult(x, y) => x.0 < b && y.0 < b,
        MetaExpr::Div(x, y) => x.0 < b && y.0 < b,
        MetaExpr::Mod(x, y) => x.0 < b && y.0 < b,
        MetaExpr::Equals(x, y) => x.0 < b && y.0 < b,
        MetaExpr::NotEquals(x, y) => x.0 < b && y.0 < b,
        MetaExpr::Lt(x, y) => x.0 < b && y.0 < b,
        MetaExpr::Gt(x, y) => x.0 < b && y.0 < b,
        MetaExpr::Lte(x, y) => x.0 < b && y.0 < b,
        MetaExpr::Gte(x, y) => x.0 < b && y.0 < b,
        MetaExpr::And(x, y) => x.0 < b && y.0 < b,
        MetaExpr::Or(x, y) => x.0 < b && y.0 < b,
        MetaExpr::Not(x) => x.0 < b,
        MetaExpr::Tuple(items) => forall|i: int| 0 <= i < items@.len() ==> (#[trigger] items@[i]).0 < b,
        MetaExpr::TupleIndex { object, .. } => object.0 < b,
        MetaExpr::SliceRange { object, start, end } => object.0 < b && (start matches Some(s) ==> s.0 < b)
            && (end matches Some(x) ==> x.0 < b),
        MetaExpr::Lambda { body, .. } => body.0 < b,
        MetaExpr::ResumeExpr(o) => o matches Some(x) ==> x.0 < b,
        MetaExpr::RunHandle { body, effects } => body.0 < b && ops_below(effects@, b),
        MetaExpr::RunWith { body, .. } => body.0 < b,
        _ => true,
    }
}

/// The sub-expressions and sub-statements of `s` all have IDs below `b`.
pub open spec fn stmt_children_below(s: MetaStmt, b: nat) -> bool {
    match s {
        MetaStmt::ExprStmt(e) => e.0 < b,
        MetaStmt::VarDecl { expr, .. } => expr.0 < b,
        MetaStmt::Assign { expr, .. } => expr.0 < b,
        MetaStmt::IndexAssign { indices, expr, .. } => expr.0 < b
            && forall|i: int| 0 <= i < indices@.len() ==> (#[trigger] indices@[i]).0 < b,
        MetaStmt::DotAssign { expr, .. } => expr.0 < b,
        MetaStmt::FnDecl { body, .. } => body.0 < b,
        MetaStmt::Match { scrutinee, arms } => scrutinee.0 < b
            && forall|i: int| 0 <= i < arms@.len() ==> (#[trigger] arms@[i]).body.0 < b,
        MetaStmt::If { cond, body, else_branch } => cond.0 < b && body.0 < b && (else_branch matches Some(x) ==> x.0 < b),
        MetaStmt::WhileLoop { cond, body } => cond.0 < b && body.0 < b,
        MetaStmt::ForEach { iterable, body, .. } => iterable.0 < b && body.0 < b,
        MetaStmt::Return(o) => o matches Some(x) ==> x.0 < b,
        MetaStmt::Block(stmts) => forall|i: int| 0 <= i < stmts@.len() ==> (#[trigger] stmts@[i]).0 < b,
        MetaStmt::MetaBlock(x) => x.0 < b,
        MetaStmt::MetaFnDecl { body, .. } => body.0 < b,
        MetaStmt::Gen(stmts) => forall|i: int| 0 <= i < stmts@.len() ==> (#[trigger] stmts@[i]).0 < b,
        MetaStmt::HandlerDef { ops, .. } => forall|i: int| 0 <= i < ops@.len() ==> (#[trigger] ops@[i]).0 < b,
        MetaStmt::WithFn { body, .. } => body.0 < b,
        MetaStmt::WithCtl { body, .. } => body.0 < b,
        MetaStmt::Resume(o) => o matches Some(x) ==> x.0 < b,
        MetaStmt::ImplDecl { methods, .. } => forall|i: int| 0 <= i < methods@.len() ==> (#[trigger] methods@[i]).body.0 < b,
        MetaStmt::Defer(x) => x.0 < b,
        MetaStmt::Print(e) => e.0 < b,
        _ => true,
    }
}

proof fn lemma_expr_children_below(meta: MetaAst, id: MetaNodeId)
    requires
        meta.acyclic(),
        meta.expr_map().contains_key(id.0),
    ensures
        expr_children_below(meta.expr_map()[id.0], id.0 as nat),
{
    let e = meta.expr_map()[id.0];
    let b = id.0 as nat;
    let k = expr_expr_kids(e);
    let sk = expr_stmt_kids(e);
    assert(kids_below(k, b));
    assert(kids_below(sk, b));
    match e {
        MetaExpr::StructLiteral { fields, .. } => {
            assert forall|i: int| 0 <= i < fields@.len() implies (#[trigger] fields@[i]).1.0 < b by { assert(k[i] == fields@[i].1); }
        },
        MetaExpr::List(items) => { assert forall|i: int| 0 <= i < items@.len() implies (#[trigger] items@[i]).0 < b by { assert(k[i] == items@[i]); } },
        MetaExpr::Call { args, .. } => { assert forall|i: int| 0 <= i < args@.len() implies (#[trigger] args@[i]).0 < b by { assert(k[i] == args@[i]); } },
        MetaExpr::DotAccess { object, .. } => { assert(k[0] == object); },
        MetaExpr::DotCall { object, args, .. } => {
            assert(k[0] == object);
            assert forall|i: int| 0 <= i < args@.len() implies (#[trigger] args@[i]).0 < b by { assert(k[i + 1] == args@[i]); }
        },
        MetaExpr::Index { object, index } => { assert(k[0] == object); assert(k[1] == index); },
        MetaExpr::EnumConstructor { payload, .. } => match payload {
            ConstructorPayload::Unit => {},
            ConstructorPayload::Tuple(ids) => { assert forall|i: int| 0 <= i < ids@.len() implies (#[trigger] ids@[i]).0 < b by { assert(k[i] == ids@[i]); } },
            ConstructorPayload::Struct(fields) => {
                assert forall|i: int| 0 <= i < fields@.len() implies (#[trigger] fields@[i]).1.0 < b by { assert(k[i] == fields@[i].1); }
            },
        },
        MetaExpr::Add(x, y) => { assert(k[0] == x); assert(k[1] == y); },
        MetaExpr::Sub(x, y) => { assert(k[0] == x); assert(k[1] == y); },
        MetaExpr::Mult(x, y) => { assert(k[0] == x); assert(k[1] == y); },
        MetaExpr::Div(x, y) => { assert(k[0] == x); assert(k[1] == y); },
        MetaExpr::Mod(x, y) => { assert(k[0] == x); assert(k[1] == y); },
        MetaExpr::Equals(x, y) => { assert(k[0] == x); assert(k[1] == y); },
        MetaExpr::NotEquals(x, y) => { assert(k[0] == x); assert(k[1] == y); },
        MetaExpr::Lt(x, y) => { assert(k[0] == x); assert(k[1] == y); },
        MetaExpr::Gt(x, y) => { assert(k[0] == x); assert(k[1] == y); },
        MetaExpr::Lte(x, y) => { assert(k[0] == x); assert(k[1] == y); },
        MetaExpr::Gte(x, y) => { assert(k[0] == x); assert(k[1] == y); },
        MetaExpr::And(x, y) => { assert(k[0] == x); assert(k[1] == y); },
        MetaExpr::Or(x, y) => { assert(k[0] == x); assert(k[1] == y); },
        MetaExpr::Not(x) => { assert(k[0] == x); },
        MetaExpr::Tuple(items) => { assert forall|i: int| 0 <= i < items@.len() implies (#[trigger] items@[i]).0 < b by { assert(k[i] == items@[i]); } },
        MetaExpr::TupleIndex { object, .. } => { assert(k[0] == object); },
        MetaExpr::SliceRange { object, start, end } => {
            assert(k[0] == object);
            if let Some(s) = start { assert(k[1] == s); }
            if let Some(x) = end {
                if start is Some { assert(k[2] == x); } else { assert(k[1] == x); }
            }
        },
        MetaExpr::Lambda { body, .. } => { assert(sk[0] == body); },
        MetaExpr::ResumeExpr(o) => { if let Some(x) = o { assert(k[0] == x); } },
        MetaExpr::RunHandle { body, .. } => { assert(sk[0] == body); },
        MetaExpr::RunWith { body, .. } => { assert(sk[0] == body); },
        _ => {},
    }
}

proof fn lemma_stmt_children_below(meta: MetaAst, id: MetaNodeId)
    requires
        meta.acyclic(),
        meta.stmt_map().contains_key(id.0),
    ensures
        stmt_children_below(meta.stmt_map()[id.0], id.0 as nat),
{
    let s = meta.stmt_map()[id.0];
    let b = id.0 as nat;
    let k = stmt_expr_kids(s);
    let sk = stmt_stmt_kids(s);
    assert(kids_below(k, b));
    assert(kids_below(sk, b));
    match s {
        MetaStmt::ExprStmt(e) => { assert(k[0] == e); },
        MetaStmt::VarDecl { expr, .. } => { assert(k[0] == expr); },
        MetaStmt::Assign { expr, .. } => { assert(k[0] == expr); },
        MetaStmt::IndexAssign { indices, expr, .. } => {
            assert(k[indices@.len() as int] == expr);
            assert forall|i: int| 0 <= i < indices@.len() implies (#[trigger] indices@[i]).0 < b by { assert(k[i] == indices@[i]); }
        },
        MetaStmt::DotAssign { expr, .. } => { assert(k[0] == expr); },
        MetaStmt::FnDecl { body, .. } => { assert(sk[0] == body); },
        MetaStmt::Match { scrutinee, arms } => {
            assert(k[0] == scrutinee);
            assert forall|i: int| 0 <= i < arms@.len() implies (#[trigger] arms@[i]).body.0 < b by { assert(sk[i] == arms@[i].body); }
        },
        MetaStmt::If { cond, body, else_branch } => {
            assert(k[0] == cond);
            assert(sk[0] == body);
            if let Some(x) = else_branch { assert(sk[1] == x); }
        },
        MetaStmt::WhileLoop { cond, body } => { assert(k[0] == cond); assert(sk[0] == body); },
        MetaStmt::ForEach { iterable, body, .. } => { assert(k[0] == iterable); assert(sk[0] == body); },
        MetaStmt::Return(o) => { if let Some(x) = o { assert(k[0] == x); } },
        MetaStmt::Block(stmts) => { assert forall|i: int| 0 <= i < stmts@.len() implies (#[trigger] stmts@[i]).0 < b by { assert(sk[i] == stmts@[i]); } },
        MetaStmt::MetaBlock(x) => { assert(sk[0] == x); },
        MetaStmt::MetaFnDecl { body, .. } => { assert(sk[0] == body); },
        MetaStmt::Gen(stmts) => { assert forall|i: int| 0 <= i < stmts@.len() implies (#[trigger] stmts@[i]).0 < b by { assert(sk[i] == stmts@[i]); } },
        MetaStmt::HandlerDef { ops, .. } => { assert forall|i: int| 0 <= i < ops@.len() implies (#[trigger] ops@[i]).0 < b by { assert(sk[i] == ops@[i]); } },
        MetaStmt::WithFn { body, .. } => { assert(sk[0] == body); },
        MetaStmt::WithCtl { body, .. } => { assert(sk[0] == body); },
        MetaStmt::Resume(o) => { if let Some(x) = o { assert(k[0] == x); } },
        MetaStmt::ImplDecl { methods, .. } => {
            assert forall|i: int| 0 <= i < methods@.len() implies (#[trigger] methods@[i]).body.0 < b by { assert(sk[i] == methods@[i].body); }
        },
        MetaStmt::Defer(x) => { assert(sk[0] == x); },
        MetaStmt::Print(e) => { assert(k[0] == e); },
        _ => {},
    }
}

/// Every sub-expression and sub-statement of `e` is a node of `meta`.
pub open spec fn expr_children_present(e: MetaExpr, meta: MetaAst) -> bool {
    let em = meta.expr_map();
    let sm = meta.stmt_map();
    match e {
        MetaExpr::StructLiteral { fields, .. } => forall|i: int| 0 <= i < fields@.len() ==> em.contains_key((#[trigger] fields@[i]).1.0),
        MetaExpr::List(items) => forall|i: int| 0 <= i < items@.len() ==> em.contains_key((#[trigger] items@[i]).0),
        MetaExpr::Call { args, .. } => forall|i: int| 0 <= i < args@.len() ==> em.contains_key((#[trigger] args@[i]).0),
        MetaExpr::DotAccess { object, .. } => em.contains_key(object.0),
        MetaExpr::DotCall { object, args, .. } => em.contains_key(object.0)
            && forall|i: int| 0 <= i < args@.len() ==> em.contains_key((#[trigger] args@[i]).0),
        MetaExpr::Index { object, index } => em.contains_key(object.0) && em.contains_key(index.0),
        MetaExpr::EnumConstructor { payload, .. } => match payload {
            ConstructorPayload::Unit => true,
            ConstructorPayload::Tuple(ids) => forall|i: int| 0 <= i < ids@.len() ==> em.contains_key((#[trigger] ids@[i]).0),
            ConstructorPayload::Struct(fields) => forall|i: int| 0 <= i < fields@.len() ==> em.contains_key((#[trigger] fields@[i]).1.0),
        },
        MetaExpr::Add(x, y) => em.contains_key(x.0) && em.contains_key(y.0),
        MetaExpr::Sub(x, y) => em.contains_key(x.0) && em.contains_key(y.0),
        MetaExpr::Mult(x, y) => em.contains_key(x.0) && em.contains_key(y.0),
        MetaExpr::Div(x, y) => em.contains_key(x.0) && em.contains_key(y.0),
        MetaExpr::Mod(x, y) => em.contains_key(x.0) && em.contains_key(y.0),
        MetaExpr::Equals(x, y) => em.contains_key(x.0) && em.contains_key(y.0),
        MetaExpr::NotEquals(x, y) => em.contains_key(x.0) && em.contains_key(y.0),
        MetaExpr::Lt(x, y) => em.contains_key(x.0) && em.contains_key(y.0),
        MetaExpr::Gt(x, y) => em.contains_key(x.0) && em.contains_key(y.0),
        MetaExpr::Lte(x, y) => em.contains_key(x.0) && em.contains_key(y.0),
        MetaExpr::Gte(x, y) => em.contains_key(x.0) && em.contains_key(y.0),
        MetaExpr::And(x, y) => em.contains_key(x.0) && em.contains_key(y.0),
        MetaExpr::Or(x, y) => em.contains_key(x.0) && em.contains_key(y.0),
        MetaExpr::Not(x) => em.contains_key(x.0),
        MetaExpr::Tuple(items) => forall|i: int| 0 <= i < items@.len() ==> em.contains_key((#[trigger] items@[i]).0),
        MetaExpr::TupleIndex { object, .. } => em.contains_key(object.0),
        MetaExpr::SliceRange { object, start, end } => em.contains_key(object.0)
            && (start matches Some(s) ==> em.contains_key(s.0)) && (end matches Some(x) ==> em.contains_key(x.0)),
        MetaExpr::Lambda { body, .. } => sm.contains_key(body.0),
        MetaExpr::ResumeExpr(o) => o matches Some(x) ==> em.contains_key(x.0),
        MetaExpr::RunHandle { body, effects } => sm.contains_key(body.0) && ops_present(effects@, sm),
        MetaExpr::RunWith { body, .. } => sm.contains_key(body.0),
        _ => true,
    }
}

/// Every sub-expression and sub-statement of `s` is a node of `meta`.
pub open spec fn stmt_children_present(s: MetaStmt, meta: MetaAst) -> bool {
    let em = meta.expr_map();
    let sm = meta.stmt_map();
    match s {
        MetaStmt::ExprStmt(e) => em.contains_key(e.0),
        MetaStmt::VarDecl { expr, .. } => em.contains_key(expr.0),
        MetaStmt::Assign { expr, .. } => em.contains_key(expr.0),
        MetaStmt::IndexAssign { indices, expr, .. } => em.contains_key(expr.0)
            && forall|i: int| 0 <= i < indices@.len() ==> em.contains_key((#[trigger] indices@[i]).0),
        MetaStmt::DotAssign { expr, .. } => em.contains_key(expr.0),
        MetaStmt::FnDecl { body, .. } => sm.contains_key(body.0),
        MetaStmt::Match { scrutinee, arms } => em.contains_key(scrutinee.0)
            && forall|i: int| 0 <= i < arms@.len() ==> sm.contains_key((#[trigger] arms@[i]).body.0),
        MetaStmt::If { cond, body, else_branch } => em.contains_key(cond.0) && sm.contains_key(body.0)
            && (else_branch matches Some(x) ==> sm.contains_key(x.0)),
        MetaStmt::WhileLoop { cond, body } => em.contains_key(cond.0) && sm.contains_key(body.0),
        MetaStmt::ForEach { iterable, body, .. } => em.contains_key(iterable.0) && sm.contains_key(body.0),
        MetaStmt::Return(o) => o matches Some(x) ==> em.contains_key(x.0),
        MetaStmt::Block(stmts) => forall|i: int| 0 <= i < stmts@.len() ==> sm.contains_key((#[trigger] stmts@[i]).0),
        MetaStmt::MetaBlock(x) => sm.contains_key(x.0),
        MetaStmt::MetaFnDecl { body, .. } => sm.contains_key(body.0),
        MetaStmt::Gen(stmts) => forall|i: int| 0 <= i < stmts@.len() ==> sm.contains_key((#[trigger] stmts@[i]).0),
        MetaStmt::HandlerDef { ops, .. } => forall|i: int| 0 <= i < ops@.len() ==> sm.contains_key((#[trigger] ops@[i]).0),
        MetaStmt::WithFn { body, .. } => sm.contains_key(body.0),
        MetaStmt::WithCtl { body, .. } => sm.contains_key(body.0),
        MetaStmt::Resume(o) => o matches Some(x) ==> em.contains_key(x.0),
        MetaStmt::ImplDecl { methods, .. } => forall|i: int| 0 <= i < methods@.len() ==> sm.contains_key((#[trigger] methods@[i]).body.0),
        MetaStmt::Defer(x) => sm.contains_key(x.0),
        MetaStmt::Print(e) => em.contains_key(e.0),
        _ => true,
    }
}

proof fn lemma_expr_children_present(meta: MetaAst, id: MetaNodeId)
    requires
        meta.closed(),
        meta.expr_map().contains_key(id.0),
    ensures
        expr_children_present(meta.expr_map()[id.0], meta),
{
    let e = meta.expr_map()[id.0];
    let b = id.0 as nat;
    let k = expr_expr_kids(e);
    let sk = expr_stmt_kids(e);
    assert(kids_in(k, meta.expr_map(), b));
    assert(kids_in(sk, meta.stmt_map(), b));
    match e {
        MetaExpr::StructLiteral { fields, .. } => {
            assert forall|i: int| 0 <= i < fields@.len() implies meta.expr_map().contains_key((#[trigger] fields@[i]).1.0) by { assert(k[i] == fields@[i].1); }
        },
        MetaExpr::List(items) => { assert forall|i: int| 0 <= i < items@.len() implies meta.expr_map().contains_key((#[trigger] items@[i]).0) by { assert(k[i] == items@[i]); } },
        MetaExpr::Call { args, .. } => { assert forall|i: int| 0 <= i < args@.len() implies meta.expr_map().contains_key((#[trigger] args@[i]).0) by { assert(k[i] == args@[i]); } },
        MetaExpr::DotAccess { object, .. } => { assert(k[0] == object); },
        MetaExpr::DotCall { object, args, .. } => {
            assert(k[0] == object);
            assert forall|i: int| 0 <= i < args@.len() implies meta.expr_map().contains_key((#[trigger] args@[i]).0) by { assert(k[i + 1] == args@[i]); }
        },
        MetaExpr::Index { object, index } => { assert(k[0] == object); assert(k[1] == index); },
        MetaExpr::EnumConstructor { payload, .. } => match payload {
            ConstructorPayload::Unit => {},
            ConstructorPayload::Tuple(ids) => { assert forall|i: int| 0 <= i < ids@.len() implies meta.expr_map().contains_key((#[trigger] ids@[i]).0) by { assert(k[i] == ids@[i]); } },
            ConstructorPayload::Struct(fields) => {
                assert forall|i: int| 0 <= i < fields@.len() implies meta.expr_map().contains_key((#[trigger] fields@[i]).1.0) by { assert(k[i] == fields@[i].1); }
            },
        },
        MetaExpr::Add(x, y) => { assert(k[0] == x); assert(k[1] == y); },
        MetaExpr::Sub(x, y) => { assert(k[0] == x); assert(k[1] == y); },
        MetaExpr::Mult(x, y) => { assert(k[0] == x); assert(k[1] == y); },
        MetaExpr::Div(x, y) => { assert(k[0] == x); assert(k[1] == y); },
        MetaExpr::Mod(x, y) => { assert(k[0] == x); assert(k[1] == y); },
        MetaExpr::Equals(x, y) => { assert(k[0] == x); assert(k[1] == y); },
        MetaExpr::NotEquals(x, y) => { assert(k[0] == x); assert(k[1] == y); },
        MetaExpr::Lt(x, y) => { assert(k[0] == x); assert(k[1] == y); },
        MetaExpr::Gt(x, y) => { assert(k[0] == x); assert(k[1] == y); },
        MetaExpr::Lte(x, y) => { assert(k[0] == x); assert(k[1] == y); },
        MetaExpr::Gte(x, y) => { assert(k[0] == x); assert(k[1] == y); },
        MetaExpr::And(x, y) => { assert(k[0] == x); assert(k[1] == y); },
        MetaExpr::Or(x, y) => { assert(k[0] == x); assert(k[1] == y); },
        MetaExpr::Not(x) => { assert(k[0] == x); },
        MetaExpr::Tuple(items) => { assert forall|i: int| 0 <= i < items@.len() implies meta.expr_map().contains_key((#[trigger] items@[i]).0) by { assert(k[i] == items@[i]); } },
        MetaExpr::TupleIndex { object, .. } => { assert(k[0] == object); },
        MetaExpr::SliceRange { object, start, end } => {
            assert(k[0] == object);
            if let Some(s) = start { assert(k[1] == s); }
            if let Some(x) = end {
                if start is Some { assert(k[2] == x); } else { assert(k[1] == x); }
            }
        },
        MetaExpr::Lambda { body, .. } => { assert(sk[0] == body); },
        MetaExpr::ResumeExpr(o) => { if let Some(x) = o { assert(k[0] == x); } },
        MetaExpr::RunHandle { body, .. } => { assert(sk[0] == body); },
        MetaExpr::RunWith { body, .. } => { assert(sk[0] == body); },
        _ => {},
    }
}

proof fn lemma_stmt_children_present(meta: MetaAst, id: MetaNodeId)
    requires
        meta.closed(),
        meta.stmt_map().contains_key(id.0),
    ensures
        stmt_children_present(meta.stmt_map()[id.0], meta),
{
    let s = meta.stmt_map()[id.0];
    let b = id.0 as nat;
    let k = stmt_expr_kids(s);
    let sk = stmt_stmt_kids(s);
    assert(kids_in(k, meta.expr_map(), b));
    assert(kids_in(sk, meta.stmt_map(), b));
    match s {
        MetaStmt::ExprStmt(e) => { assert(k[0] == e); },
        MetaStmt::VarDecl { expr, .. } => { assert(k[0] == expr); },
        MetaStmt::Assign { expr, .. } => { assert(k[0] == expr); },
        MetaStmt::IndexAssign { indices, expr, .. } => {
            assert(k[indices@.len() as int] == expr);
            assert forall|i: int| 0 <= i < indices@.len() implies meta.expr_map().contains_key((#[trigger] indices@[i]).0) by { assert(k[i] == indices@[i]); }
        },
        MetaStmt::DotAssign { expr, .. } => { assert(k[0] == expr); },
        MetaStmt::FnDecl { body, .. } => { assert(sk[0] == body); },
        MetaStmt::Match { scrutinee, arms } => {
            assert(k[0] == scrutinee);
            assert forall|i: int| 0 <= i < arms@.len() implies meta.stmt_map().contains_key((#[trigger] arms@[i]).body.0) by { assert(sk[i] == arms@[i].body); }
        },
        MetaStmt::If { cond, body, else_branch } => {
            assert(k[0] == cond);
            assert(sk[0] == body);
            if let Some(x) = else_branch { assert(sk[1] == x); }
        },
        MetaStmt::WhileLoop { cond, body } => { assert(k[0] == cond); assert(sk[0] == body); },
        MetaStmt::ForEach { iterable, body, .. } => { assert(k[0] == iterable); assert(sk[0] == body); },
        MetaStmt::Return(o) => { if let Some(x) = o { assert(k[0] == x); } },
        MetaStmt::Block(stmts) => { assert forall|i: int| 0 <= i < stmts@.len() implies meta.stmt_map().contains_key((#[trigger] stmts@[i]).0) by { assert(sk[i] == stmts@[i]); } },
        MetaStmt::MetaBlock(x) => { assert(sk[0] == x); },
        MetaStmt::MetaFnDecl { body, .. } => { assert(sk[0] == body); },
        MetaStmt::Gen(stmts) => { assert forall|i: int| 0 <= i < stmts@.len() implies meta.stmt_map().contains_key((#[trigger] stmts@[i]).0) by { assert(sk[i] == stmts@[i]); } },
        MetaStmt::HandlerDef { ops, .. } => { assert forall|i: int| 0 <= i < ops@.len() implies meta.stmt_map().contains_key((#[trigger] ops@[i]).0) by { assert(sk[i] == ops@[i]); } },
        MetaStmt::WithFn { body, .. } => { assert(sk[0] == body); },
        MetaStmt::WithCtl { body, .. } => { assert(sk[0] == body); },
        MetaStmt::Resume(o) => { if let Some(x) = o { assert(k[0] == x); } },
        MetaStmt::ImplDecl { methods, .. } => {
            assert forall|i: int| 0 <= i < methods@.len() implies meta.stmt_map().contains_key((#[trigger] methods@[i]).body.0) by { assert(sk[i] == methods@[i].body); }
        },
        MetaStmt::Defer(x) => { assert(sk[0] == x); },
        MetaStmt::Print(e) => { assert(k[0] == e); },
        _ => {},
    }
}

// ── Staging ──────────────────────────────────────────────────────────────────

/// Stages each expression of `ids` in order.
fn process_exprs(meta_ast: &MetaAst, ids: &Vec<MetaNodeId>, staged_ast: &mut StagedAst, id_provider: &mut IdProvider,
    dependency_set: &mut Vec<ProcessDependency>, staged_forest: &mut StagedForest, type_env: &TypeEnv, Ghost(bound): Ghost<nat>)
    -> (r: Result<Vec<StagedNodeId>, MetaProcessError>)
    requires
        meta_ast.acyclic(),
        stage_pre(*old(staged_ast), old(id_provider).counter()),
        forall|i: int| 0 <= i < ids@.len() ==> (#[trigger] ids@[i]).0 < bound,
    ensures
        r is Err && id_exhausted(r->Err_0) ==> final(id_provider).counter() == usize::MAX,
        (meta_ast.closed() && (forall|i: int| 0 <= i < ids@.len() ==> meta_ast.expr_map().contains_key(#[trigger] ids@[i].0))) ==> !(r matches Err(e) && not_found(e)),
        stage_step(*old(staged_ast), *final(staged_ast), old(id_provider).counter(), final(id_provider).counter()),
        final(staged_forest).embedded_files == old(staged_forest).embedded_files,
        final(staged_forest).module_bindings == old(staged_forest).module_bindings,
        registries_grow(*old(staged_forest), *final(staged_forest)),
        match r {
            Ok(v) => v@.len() == ids@.len()
                && forall|i: int| 0 <= i < v@.len() ==> final(staged_ast).exprs@.contains_key(#[trigger] v@[i].0),
            Err(e) => stage_error(*meta_ast, old(staged_forest).embedded_files@, e),
        },
    decreases bound, 2nat,
{
    let ghost a0 = *staged_ast;
    let ghost c0 = id_provider.counter();
    let mut out: Vec<StagedNodeId> = Vec::new();
    let mut i: usize = 0;
    while i < ids.len()
        invariant
            meta_ast.acyclic(),
            i <= ids@.len(),
            out@.len() == i,
            forall|j: int| 0 <= j < ids@.len() ==> (#[trigger] ids@[j]).0 < bound,
            stage_step(a0, *staged_ast, c0, id_provider.counter()),
            a0 == *old(staged_ast),
            c0 == old(id_provider).counter(),
            staged_forest.embedded_files == old(staged_forest).embedded_files,
            staged_forest.module_bindings == old(staged_forest).module_bindings,
            registries_grow(*old(staged_forest), *staged_forest),
            forall|j: int| 0 <= j < out@.len() ==> staged_ast.exprs@.contains_key(#[trigger] out@[j].0),
        decreases ids@.len() - i,
    {
        let ghost a1 = *staged_ast;
        let ghost c1 = id_provider.counter();
        let id = process_expr(meta_ast, ids[i], staged_ast, id_provider, dependency_set, staged_forest, type_env)?;
        proof { lemma_stage_step_trans(a0, a1, *staged_ast, c0, c1, id_provider.counter()); }
        out.push(id);
        i = i + 1;
    }
    Ok(out)
}

/// Stages the expression of each `name: expr` pair in order.
#[verifier::spinoff_prover]
fn process_fields(meta_ast: &MetaAst, fields: &Vec<(String, MetaNodeId)>, staged_ast: &mut StagedAst,
    id_provider: &mut IdProvider, dependency_set: &mut Vec<ProcessDependency>, staged_forest: &mut StagedForest,
    type_env: &TypeEnv, Ghost(bound): Ghost<nat>)
    -> (r: Result<Vec<(String, StagedNodeId)>, MetaProcessError>)
    requires
        meta_ast.acyclic(),
        stage_pre(*old(staged_ast), old(id_provider).counter()),
        forall|i: int| 0 <= i < fields@.len() ==> (#[trigger] fields@[i]).1.0 < bound,
    ensures
        r is Err && id_exhausted(r->Err_0) ==> final(id_provider).counter() == usize::MAX,
        (meta_ast.closed() && (forall|i: int| 0 <= i < fields@.len() ==> meta_ast.expr_map().contains_key((#[trigger] fields@[i]).1.0))) ==> !(r matches Err(e) && not_found(e)),
        stage_step(*old(staged_ast), *final(staged_ast), old(id_provider).counter(), final(id_provider).counter()),
        final(staged_forest).embedded_files == old(staged_forest).embedded_files,
        final(staged_forest).module_bindings == old(staged_forest).module_bindings,
        registries_grow(*old(staged_forest), *final(staged_forest)),
        match r {
            Ok(v) => v@.len() == fields@.len()
                && forall|i: int| 0 <= i < v@.len() ==> #[trigger] v@[i].0@ == fields@[i].0@
                    && final(staged_ast).exprs@.contains_key(v@[i].1.0),
            Err(e) => stage_error(*meta_ast, old(staged_forest).embedded_files@, e),
        },
    decreases bound, 2nat,
{
    let ghost a0 = *staged_ast;
    let ghost c0 = id_provider.counter();
    let mut out: Vec<(String, StagedNodeId)> = Vec::new();
    let mut i: usize = 0;
    while i < fields.len()
        invariant
            meta_ast.acyclic(),
            i <= fields@.len(),
            out@.len() == i,
            forall|j: int| 0 <= j < fields@.len() ==> (#[trigger] fields@[j]).1.0 < bound,
            stage_step(a0, *staged_ast, c0, id_provider.counter()),
            a0 == *old(staged_ast),
            c0 == old(id_provider).counter(),
            staged_forest.embedded_files == old(staged_forest).embedded_files,
            staged_forest.module_bindings == old(staged_forest).module_bindings,
            registries_grow(*old(staged_forest), *staged_forest),
            forall|j: int| 0 <= j < out@.len() ==> #[trigger] out@[j].0@ == fields@[j].0@
                && staged_ast.exprs@.contains_key(out@[j].1.0),
        decreases fields@.len() - i,
    {
        let ghost a1 = *staged_ast;
        let ghost c1 = id_provider.counter();
        let id = process_expr(meta_ast, fields[i].1, staged_ast, id_provider, dependency_set, staged_forest, type_env)?;
        proof { lemma_stage_step_trans(a0, a1, *staged_ast, c0, c1, id_provider.counter()); }
        out.push((fields[i].0.clone(), id));
        i = i + 1;
    }
    Ok(out)
}

/// Stages an optional expression.
fn process_opt_expr(meta_ast: &MetaAst, id: Option<MetaNodeId>, staged_ast: &mut StagedAst, id_provider: &mut IdProvider,
    dependency_set: &mut Vec<ProcessDependency>, staged_forest: &mut StagedForest, type_env: &TypeEnv, Ghost(bound): Ghost<nat>)
    -> (r: Result<Option<StagedNodeId>, MetaProcessError>)
    requires
        meta_ast.acyclic(),
        stage_pre(*old(staged_ast), old(id_provider).counter()),
        id matches Some(i) ==> i.0 < bound,
    ensures
        r is Err && id_exhausted(r->Err_0) ==> final(id_provider).counter() == usize::MAX,
        (meta_ast.closed() && (id matches Some(x) ==> meta_ast.expr_map().contains_key(x.0))) ==> !(r matches Err(e) && not_found(e)),
        stage_step(*old(staged_ast), *final(staged_ast), old(id_provider).counter(), final(id_provider).counter()),
        final(staged_forest).embedded_files == old(staged_forest).embedded_files,
        final(staged_forest).module_bindings == old(staged_forest).module_bindings,
        registries_grow(*old(staged_forest), *final(staged_forest)),
        match r {
            Ok(o) => opt_same(id, o) && (o matches Some(s) ==> final(staged_ast).exprs@.contains_key(s.0)),
            Err(e) => stage_error(*meta_ast, old(staged_forest).embedded_files@, e),
        },
    decreases bound, 2nat,
{
    match id {
        Some(i) => {
            let s = process_expr(meta_ast, i, staged_ast, id_provider, dependency_set, staged_forest, type_env)?;
            Ok(Some(s))
        },
        None => Ok(None),
    }
}

/// Stages each statement of `ids` in order.
fn process_stmts(meta_ast: &MetaAst, ids: &Vec<MetaNodeId>, staged_ast: &mut StagedAst, id_provider: &mut IdProvider,
    dependency_set: &mut Vec<ProcessDependency>, staged_forest: &mut StagedForest, type_env: &TypeEnv, Ghost(bound): Ghost<nat>)
    -> (r: Result<Vec<StagedNodeId>, MetaProcessError>)
    requires
        meta_ast.acyclic(),
        stage_pre(*old(staged_ast), old(id_provider).counter()),
        forall|i: int| 0 <= i < ids@.len() ==> (#[trigger] ids@[i]).0 < bound,
    ensures
        r is Err && id_exhausted(r->Err_0) ==> final(id_provider).counter() == usize::MAX,
        (meta_ast.closed() && (forall|i: int| 0 <= i < ids@.len() ==> meta_ast.stmt_map().contains_key(#[trigger] ids@[i].0))) ==> !(r matches Err(e) && not_found(e)),
        stage_step(*old(staged_ast), *final(staged_ast), old(id_provider).counter(), final(id_provider).counter()),
        final(staged_forest).embedded_files == old(staged_forest).embedded_files,
        final(staged_forest).module_bindings == old(staged_forest).module_bindings,
        registries_grow(*old(staged_forest), *final(staged_forest)),
        match r {
            Ok(v) => v@.len() == ids@.len()
                && forall|i: int| 0 <= i < v@.len() ==> final(staged_ast).stmts@.contains_key(#[trigger] v@[i].0),
            Err(e) => stage_error(*meta_ast, old(staged_forest).embedded_files@, e),
        },
    decreases bound, 2nat,
{
    let ghost a0 = *staged_ast;
    let ghost c0 = id_provider.counter();
    let mut out: Vec<StagedNodeId> = Vec::new();
    let mut i: usize = 0;
    while i < ids.len()
        invariant
            meta_ast.acyclic(),
            i <= ids@.len(),
            out@.len() == i,
            forall|j: int| 0 <= j < ids@.len() ==> (#[trigger] ids@[j]).0 < bound,
            stage_step(a0, *staged_ast, c0, id_provider.counter()),
            a0 == *old(staged_ast),
            c0 == old(id_provider).counter(),
            staged_forest.embedded_files == old(staged_forest).embedded_files,
            staged_forest.module_bindings == old(staged_forest).module_bindings,
            registries_grow(*old(staged_forest), *staged_forest),
            forall|j: int| 0 <= j < out@.len() ==> staged_ast.stmts@.contains_key(#[trigger] out@[j].0),
        decreases ids@.len() - i,
    {
        let ghost a1 = *staged_ast;
        let ghost c1 = id_provider.counter();
        let id = process_stmt(meta_ast, ids[i], staged_ast, id_provider, dependency_set, staged_forest, type_env)?;
        proof { lemma_stage_step_trans(a0, a1, *staged_ast, c0, c1, id_provider.counter()); }
        out.push(id);
        i = i + 1;
    }
    Ok(out)
}

/// The staged expression `s` has the shape of the meta expression `m`.
pub open spec fn operand_shaped(meta: MetaAst, st: StagedAst, m: MetaNodeId, s: StagedNodeId, env: TypeEnv,
    files: Seq<(String, Result<String, String>)>) -> bool {
    meta.expr_map().contains_key(m.0) && st.exprs@.contains_key(s.0)
        && expr_shape(meta.expr_map()[m.0], st.exprs@[s.0], env, files)
}

/// The two operands of a binary operator expression (an index counts: its
/// object and its index).
pub open spec fn meta_operands(e: MetaExpr) -> Option<(MetaNodeId, MetaNodeId)> {
    match e {
        MetaExpr::Add(a, b) => Some((a, b)),
        MetaExpr::Sub(a, b) => Some((a, b)),
        MetaExpr::Mult(a, b) => Some((a, b)),
        MetaExpr::Div(a, b) => Some((a, b)),
        MetaExpr::Mod(a, b) => Some((a, b)),
        MetaExpr::Equals(a, b) => Some((a, b)),
        MetaExpr::NotEquals(a, b) => Some((a, b)),
        MetaExpr::Lt(a, b) => Some((a, b)),
        MetaExpr::Gt(a, b) => Some((a, b)),
        MetaExpr::Lte(a, b) => Some((a, b)),
        MetaExpr::Gte(a, b) => Some((a, b)),
        MetaExpr::And(a, b) => Some((a, b)),
        MetaExpr::Or(a, b) => Some((a, b)),
        MetaExpr::Index { object, index } => Some((object, index)),
        _ => None,
    }
}

/// The two operands of a staged binary operator expression.
pub open spec fn staged_operands(e: StagedExpr) -> Option<(StagedNodeId, StagedNodeId)> {
    match e {
        StagedExpr::Add(a, b) => Some((a, b)),
        StagedExpr::Sub(a, b) => Some((a, b)),
        StagedExpr::Mult(a, b) => Some((a, b)),
        StagedExpr::Div(a, b) => Some((a, b)),
        StagedExpr::Mod(a, b) => Some((a, b)),
        StagedExpr::Equals(a, b) => Some((a, b)),
        StagedExpr::NotEquals(a, b) => Some((a, b)),
        StagedExpr::Lt(a, b) => Some((a, b)),
        StagedExpr::Gt(a, b) => Some((a, b)),
        StagedExpr::Lte(a, b) => Some((a, b)),
        StagedExpr::Gte(a, b) => Some((a, b)),
        StagedExpr::And(a, b) => Some((a, b)),
        StagedExpr::Or(a, b) => Some((a, b)),
        StagedExpr::Index { object, index } => Some((object, index)),
        _ => None,
    }
}

/// Where `m` is a binary operator expression, the staged `s` keeps its
/// operands in place: each staged operand has the shape of the meta one at
/// the same side.
pub open spec fn operands_kept(meta: MetaAst, st: StagedAst, m: MetaNodeId, s: StagedNodeId, env: TypeEnv,
    files: Seq<(String, Result<String, String>)>) -> bool {
    match meta_operands(meta.expr_map()[m.0]) {
        Some((a, b)) => match staged_operands(st.exprs@[s.0]) {
            Some((x, y)) => operand_shaped(meta, st, a, x, env, files) && operand_shaped(meta, st, b, y, env, files),
            None => false,
        },
        None => true,
    }
}

/// An expression with no sub-expressions: a literal, a variable, or
/// `typeof`. Staging one touches neither the dependencies nor the forest.
pub open spec fn leaf_expr(e: MetaExpr) -> bool {
    e is Int || e is String || e is Bool || e is Variable || e is Typeof
}

/// Stages the meta expression `meta_expr_id` into `staged_ast` and returns
/// the staged node's ID, the first ID this call draws.
#[verifier::spinoff_prover]
pub fn process_expr(meta_ast: &MetaAst, meta_expr_id: MetaNodeId, staged_ast: &mut StagedAst, id_provider: &mut IdProvider,
    dependency_set: &mut Vec<ProcessDependency>, staged_forest: &mut StagedForest, type_env: &TypeEnv)
    -> (r: Result<StagedNodeId, MetaProcessError>)
    requires
        meta_ast.acyclic(),
        stage_pre(*old(staged_ast), old(id_provider).counter()),
    ensures
        r is Err && id_exhausted(r->Err_0) ==> final(id_provider).counter() == usize::MAX,
        (meta_ast.closed() && meta_ast.expr_map().contains_key(meta_expr_id.0)) ==> !(r matches Err(e) && not_found(e)),
        meta_ast.expr_map().contains_key(meta_expr_id.0) && leaf_expr(meta_ast.expr_map()[meta_expr_id.0]) ==> {
            &&& *final(dependency_set) == *old(dependency_set)
            &&& *final(staged_forest) == *old(staged_forest)
            &&& (r matches Err(e) ==> id_exhausted(e))
        },
        r matches Ok(sid) ==> operands_kept(*meta_ast, *final(staged_ast), meta_expr_id, sid, *type_env,
            old(staged_forest).embedded_files@),
        stage_step(*old(staged_ast), *final(staged_ast), old(id_provider).counter(), final(id_provider).counter()),
        final(staged_forest).embedded_files == old(staged_forest).embedded_files,
        final(staged_forest).module_bindings == old(staged_forest).module_bindings,
        registries_grow(*old(staged_forest), *final(staged_forest)),
        match r {
            Ok(sid) => sid.0 == old(id_provider).counter()
                && meta_ast.expr_map().contains_key(meta_expr_id.0)
                && final(staged_ast).exprs@.contains_key(sid.0)
                && expr_shape(meta_ast.expr_map()[meta_expr_id.0], final(staged_ast).exprs@[sid.0], *type_env,
                    old(staged_forest).embedded_files@),
            Err(e) => stage_error(*meta_ast, old(staged_forest).embedded_files@, e),
        },
    decreases meta_expr_id.0 + 1, 1nat,
{
    let ghost a0 = *staged_ast;
    let ghost c0 = id_provider.counter();
    let sid = fresh_staged(id_provider)?;
    let meta_expr = match meta_ast.get_expr(meta_expr_id) {
        Some(e) => e,
        None => return Err(MetaProcessError::ExprNotFound(meta_expr_id)),
    };
    proof {
        lemma_expr_children_below(*meta_ast, meta_expr_id);
        if meta_ast.closed() { lemma_expr_children_present(*meta_ast, meta_expr_id); }
    }
    let ghost bound: nat = meta_expr_id.0 as nat;
    let ghost mut pair_g: (StagedNodeId, StagedNodeId) = (sid, sid);
    let staged = match meta_expr {
        MetaExpr::Int(i) => StagedExpr::Int(*i),
        MetaExpr::String(s) => StagedExpr::String(s.clone()),
        MetaExpr::Bool(b) => StagedExpr::Bool(*b),
        MetaExpr::StructLiteral { struct_name, fields } => {
            proof { assert forall|i: int| 0 <= i < fields@.len() implies (#[trigger] fields@[i]).1.0 < bound by {
                assert(crate::meta_ast::pair_ids(fields@)[i] == fields@[i].1);
            } }
            let out = process_fields(meta_ast, fields, staged_ast, id_provider, dependency_set, staged_forest, type_env, Ghost(bound))?;
            StagedExpr::StructLiteral { struct_name: struct_name.clone(), fields: out }
        },
        MetaExpr::Variable(name) => StagedExpr::Variable(name.clone()),
        MetaExpr::List(items) => {
            let ids = process_exprs(meta_ast, items, staged_ast, id_provider, dependency_set, staged_forest, type_env, Ghost(bound))?;
            StagedExpr::List(ids)
        },
        MetaExpr::Call { callee, args } => {
            let ids = process_exprs(meta_ast, args, staged_ast, id_provider, dependency_set, staged_forest, type_env, Ghost(bound))?;
            StagedExpr::Call { callee: callee.clone(), args: ids }
        },
        MetaExpr::Typeof(ident) => StagedExpr::String(typeof_string(type_env, ident)),
        MetaExpr::DotAccess { object, field } => {
            let o = process_expr(meta_ast, *object, staged_ast, id_provider, dependency_set, staged_forest, type_env)?;
            StagedExpr::DotAccess { object: o, field: field.clone() }
        },
        MetaExpr::DotCall { object, method, args } => {
            let ghost a1 = *staged_ast;
            let ghost c1 = id_provider.counter();
            let o = process_expr(meta_ast, *object, staged_ast, id_provider, dependency_set, staged_forest, type_env)?;
            let ghost a2 = *staged_ast;
            let ghost c2 = id_provider.counter();
            proof { assert forall|i: int| 0 <= i < args@.len() implies (#[trigger] args@[i]).0 < bound by {
                assert((seq![*object] + args@)[i + 1] == args@[i]);
            } }
            let ids = process_exprs(meta_ast, args, staged_ast, id_provider, dependency_set, staged_forest, type_env, Ghost(bound))?;
            proof { lemma_stage_step_trans(a1, a2, *staged_ast, c1, c2, id_provider.counter()); }
            StagedExpr::DotCall { object: o, method: method.clone(), args: ids }
        },
        MetaExpr::Index { object, index } => {
            let (o, x) = process_pair(meta_ast, *object, *index, staged_ast, id_provider, dependency_set, staged_forest, type_env, Ghost(bound))?;
            proof { pair_g = (o, x); }
            StagedExpr::Index { object: o, index: x }
        },
        MetaExpr::EnumConstructor { enum_name, variant, payload } => {
            let p = match payload {
                ConstructorPayload::Unit => StagedConstructorPayload::Unit,
                ConstructorPayload::Tuple(exprs) => {
                    let ids = process_exprs(meta_ast, exprs, staged_ast, id_provider, dependency_set, staged_forest, type_env, Ghost(bound))?;
                    StagedConstructorPayload::Tuple(ids)
                },
                ConstructorPayload::Struct(fields) => {
                    proof { assert forall|i: int| 0 <= i < fields@.len() implies (#[trigger] fields@[i]).1.0 < bound by {
                        assert(crate::meta_ast::pair_ids(fields@)[i] == fields@[i].1);
                    } }
                    let out = process_fields(meta_ast, fields, staged_ast, id_provider, dependency_set, staged_forest, type_env, Ghost(bound))?;
                    StagedConstructorPayload::Struct(out)
                },
            };
            StagedExpr::EnumConstructor { enum_name: enum_name.clone(), variant: variant.clone(), payload: p }
        },
        MetaExpr::Add(a, b) => {
            let (x, y) = process_pair(meta_ast, *a, *b, staged_ast, id_provider, dependency_set, staged_forest, type_env, Ghost(bound))?;
            proof { pair_g = (x, y); }
            StagedExpr::Add(x, y)
        },
        MetaExpr::Sub(a, b) => {
            let (x, y) = process_pair(meta_ast, *a, *b, staged_ast, id_provider, dependency_set, staged_forest, type_env, Ghost(bound))?;
            proof { pair_g = (x, y); }
            StagedExpr::Sub(x, y)
        },
        MetaExpr::Mult(a, b) => {
            let (x, y) = process_pair(meta_ast, *a, *b, staged_ast, id_provider, dependency_set, staged_forest, type_env, Ghost(bound))?;
            proof { pair_g = (x, y); }
            StagedExpr::Mult(x, y)
        },
        MetaExpr::Div(a, b) => {
            let (x, y) = process_pair(meta_ast, *a, *b, staged_ast, id_provider, dependency_set, staged_forest, type_env, Ghost(bound))?;
            proof { pair_g = (x, y); }
            StagedExpr::Div(x, y)
        },
        MetaExpr::Mod(a, b) => {
            let (x, y) = process_pair(meta_ast, *a, *b, staged_ast, id_provider, dependency_set, staged_forest, type_env, Ghost(bound))?;
            proof { pair_g = (x, y); }
            StagedExpr::Mod(x, y)
        },
        MetaExpr::Equals(a, b) => {
            let (x, y) = process_pair(meta_ast, *a, *b, staged_ast, id_provider, dependency_set, staged_forest, type_env, Ghost(bound))?;
            proof { pair_g = (x, y); }
            StagedExpr::Equals(x, y)
        },
        MetaExpr::NotEquals(a, b) => {
            let (x, y) = process_pair(meta_ast, *a, *b, staged_ast, id_provider, dependency_set, staged_forest, type_env, Ghost(bound))?;
            proof { pair_g = (x, y); }
            StagedExpr::NotEquals(x, y)
        },
        MetaExpr::Lt(a, b) => {
            let (x, y) = process_pair(meta_ast, *a, *b, staged_ast, id_provider, dependency_set, staged_forest, type_env, Ghost(bound))?;
            proof { pair_g = (x, y); }
            StagedExpr::Lt(x, y)
        },
        MetaExpr::Gt(a, b) => {
            let (x, y) = process_pair(meta_ast, *a, *b, staged_ast, id_provider, dependency_set, staged_forest, type_env, Ghost(bound))?;
            proof { pair_g = (x, y); }
            StagedExpr::Gt(x, y)
        },
        MetaExpr::Lte(a, b) => {
            let (x, y) = process_pair(meta_ast, *a, *b, staged_ast, id_provider, dependency_set, staged_forest, type_env, Ghost(bound))?;
            proof { pair_g = (x, y); }
            StagedExpr::Lte(x, y)
        },
        MetaExpr::Gte(a, b) => {
            let (x, y) = process_pair(meta_ast, *a, *b, staged_ast, id_provider, dependency_set, staged_forest, type_env, Ghost(bound))?;
            proof { pair_g = (x, y); }
            StagedExpr::Gte(x, y)
        },
        MetaExpr::And(a, b) => {
            let (x, y) = process_pair(meta_ast, *a, *b, staged_ast, id_provider, dependency_set, staged_forest, type_env, Ghost(bound))?;
            proof { pair_g = (x, y); }
            StagedExpr::And(x, y)
        },
        MetaExpr::Or(a, b) => {
            let (x, y) = process_pair(meta_ast, *a, *b, staged_ast, id_provider, dependency_set, staged_forest, type_env, Ghost(bound))?;
            proof { pair_g = (x, y); }
            StagedExpr::Or(x, y)
        },
        MetaExpr::Not(a) => {
            let x = process_expr(meta_ast, *a, staged_ast, id_provider, dependency_set, staged_forest, type_env)?;
            StagedExpr::Not(x)
        },
        MetaExpr::Tuple(items) => {
            let ids = process_exprs(meta_ast, items, staged_ast, id_provider, dependency_set, staged_forest, type_env, Ghost(bound))?;
            StagedExpr::Tuple(ids)
        },
        MetaExpr::TupleIndex { object, index } => {
            let o = process_expr(meta_ast, *object, staged_ast, id_provider, dependency_set, staged_forest, type_env)?;
            StagedExpr::TupleIndex { object: o, index: *index }
        },
        MetaExpr::SliceRange { object, start, end } => process_slice(meta_ast, *object, *start, *end, staged_ast,
            id_provider, dependency_set, staged_forest, type_env, Ghost(bound))?,
        MetaExpr::Embed(file_path) => {
            match find_embedded(&staged_forest.embedded_files, file_path) {
                Some(Ok(contents)) => StagedExpr::String(contents.clone()),
                Some(Err(error)) => {
                    proof { assert(meta_ast.expr_map().contains_key(meta_expr_id.0)); }
                    return Err(MetaProcessError::EmbedFailed { path: file_path.clone(), error: error.clone() });
                },
                None => return Err(MetaProcessError::EmbedFailed {
                    path: file_path.clone(),
                    error: String::from_str("the file was not read"),
                }),
            }
        },
        MetaExpr::Lambda { params, body } => {
            let b = process_stmt(meta_ast, *body, staged_ast, id_provider, dependency_set, staged_forest, type_env)?;
            StagedExpr::Lambda { params: clone_strings(params), body: b }
        },
        MetaExpr::ResumeExpr(opt) => {
            let o = process_opt_expr(meta_ast, *opt, staged_ast, id_provider, dependency_set, staged_forest, type_env, Ghost(bound))?;
            StagedExpr::ResumeExpr(o)
        },
        MetaExpr::RunHandle { body, effects } => {
            let ghost a1 = *staged_ast;
            let ghost c1 = id_provider.counter();
            let b = process_stmt(meta_ast, *body, staged_ast, id_provider, dependency_set, staged_forest, type_env)?;
            let ghost a2 = *staged_ast;
            let ghost c2 = id_provider.counter();
            let effs = process_effects(meta_ast, effects, staged_ast, id_provider, dependency_set, staged_forest, type_env, Ghost(bound))?;
            proof { lemma_stage_step_trans(a1, a2, *staged_ast, c1, c2, id_provider.counter()); }
            StagedExpr::RunHandle { body: b, effects: effs }
        },
        MetaExpr::RunWith { body, handler_name } => {
            let b = process_stmt(meta_ast, *body, staged_ast, id_provider, dependency_set, staged_forest, type_env)?;
            StagedExpr::RunWith { body: b, handler_name: handler_name.clone() }
        },
    };
    let ghost before_put = *staged_ast;
    put_expr(staged_ast, sid, staged, Ghost(a0), Ghost(id_provider.counter() as nat));
    proof {
        if meta_operands(meta_ast.expr_map()[meta_expr_id.0]) is Some {
            let (x, y) = pair_g;
            assert(staged_operands(staged) == Some(pair_g));
            assert(before_put.exprs@.contains_key(x.0) && before_put.exprs@.contains_key(y.0));
            assert(staged_ast.exprs@[x.0] == before_put.exprs@[x.0]);
            assert(staged_ast.exprs@[y.0] == before_put.exprs@[y.0]);
        }
    }
    Ok(sid)
}

/// Stages two sub-expressions in order.
fn process_pair(meta_ast: &MetaAst, a: MetaNodeId, b: MetaNodeId, staged_ast: &mut StagedAst, id_provider: &mut IdProvider,
    dependency_set: &mut Vec<ProcessDependency>, staged_forest: &mut StagedForest, type_env: &TypeEnv, Ghost(bound): Ghost<nat>)
    -> (r: Result<(StagedNodeId, StagedNodeId), MetaProcessError>)
    requires
        meta_ast.acyclic(),
        stage_pre(*old(staged_ast), old(id_provider).counter()),
        a.0 < bound,
        b.0 < bound,
    ensures
        r is Err && id_exhausted(r->Err_0) ==> final(id_provider).counter() == usize::MAX,
        (meta_ast.closed() && meta_ast.expr_map().contains_key(a.0) && meta_ast.expr_map().contains_key(b.0)) ==> !(r matches Err(e) && not_found(e)),
        stage_step(*old(staged_ast), *final(staged_ast), old(id_provider).counter(), final(id_provider).counter()),
        final(staged_forest).embedded_files == old(staged_forest).embedded_files,
        final(staged_forest).module_bindings == old(staged_forest).module_bindings,
        registries_grow(*old(staged_forest), *final(staged_forest)),
        match r {
            Ok((x, y)) => final(staged_ast).exprs@.contains_key(x.0) && final(staged_ast).exprs@.contains_key(y.0),
            Err(e) => stage_error(*meta_ast, old(staged_forest).embedded_files@, e),
        },
        r matches Ok((x, y)) ==> operand_shaped(*meta_ast, *final(staged_ast), a, x, *type_env, old(staged_forest).embedded_files@)
            && operand_shaped(*meta_ast, *final(staged_ast), b, y, *type_env, old(staged_forest).embedded_files@),
    decreases bound, 2nat,
{
    let ghost a0 = *staged_ast;
    let ghost c0 = id_provider.counter();
    let x = process_expr(meta_ast, a, staged_ast, id_provider, dependency_set, staged_forest, type_env)?;
    let ghost a1 = *staged_ast;
    let ghost c1 = id_provider.counter();
    let y = process_expr(meta_ast, b, staged_ast, id_provider, dependency_set, staged_forest, type_env)?;
    proof {
        lemma_stage_step_trans(a0, a1, *staged_ast, c0, c1, id_provider.counter());
        assert(a1.exprs@.contains_key(x.0));
        assert(staged_ast.exprs@.contains_key(x.0));
        assert(staged_ast.exprs@[x.0] == a1.exprs@[x.0]);
    }
    Ok((x, y))
}

/// Stages `object[start:end]`.
fn process_slice(meta_ast: &MetaAst, object: MetaNodeId, start: Option<MetaNodeId>, end: Option<MetaNodeId>,
    staged_ast: &mut StagedAst, id_provider: &mut IdProvider, dependency_set: &mut Vec<ProcessDependency>,
    staged_forest: &mut StagedForest, type_env: &TypeEnv, Ghost(bound): Ghost<nat>)
    -> (r: Result<StagedExpr, MetaProcessError>)
    requires
        meta_ast.acyclic(),
        stage_pre(*old(staged_ast), old(id_provider).counter()),
        object.0 < bound,
        start matches Some(s) ==> s.0 < bound,
        end matches Some(e) ==> e.0 < bound,
    ensures
        r is Err && id_exhausted(r->Err_0) ==> final(id_provider).counter() == usize::MAX,
        (meta_ast.closed() && meta_ast.expr_map().contains_key(object.0) && (start matches Some(x) ==> meta_ast.expr_map().contains_key(x.0)) && (end matches Some(x) ==> meta_ast.expr_map().contains_key(x.0))) ==> !(r matches Err(e) && not_found(e)),
        stage_step(*old(staged_ast), *final(staged_ast), old(id_provider).counter(), final(id_provider).counter()),
        final(staged_forest).embedded_files == old(staged_forest).embedded_files,
        final(staged_forest).module_bindings == old(staged_forest).module_bindings,
        registries_grow(*old(staged_forest), *final(staged_forest)),
        match r {
            Ok(e) => e matches StagedExpr::SliceRange { start: s2, end: e2, .. } && opt_same(start, s2) && opt_same(end, e2),
            Err(e) => stage_error(*meta_ast, old(staged_forest).embedded_files@, e),
        },
    decreases bound, 3nat,
{
    let ghost a0 = *staged_ast;
    let ghost c0 = id_provider.counter();
    let o = process_expr(meta_ast, object, staged_ast, id_provider, dependency_set, staged_forest, type_env)?;
    let ghost a1 = *staged_ast;
    let ghost c1 = id_provider.counter();
    let s = process_opt_expr(meta_ast, start, staged_ast, id_provider, dependency_set, staged_forest, type_env, Ghost(bound))?;
    proof { lemma_stage_step_trans(a0, a1, *staged_ast, c0, c1, id_provider.counter()); }
    let ghost a2 = *staged_ast;
    let ghost c2 = id_provider.counter();
    let e = process_opt_expr(meta_ast, end, staged_ast, id_provider, dependency_set, staged_forest, type_env, Ghost(bound))?;
    proof { lemma_stage_step_trans(a0, a2, *staged_ast, c0, c2, id_provider.counter()); }
    Ok(StagedExpr::SliceRange { object: o, start: s, end: e })
}

/// Stages the handler statements of each `handle` clause.
#[verifier::spinoff_prover]
fn process_effects(meta_ast: &MetaAst, effects: &Vec<(String, Vec<MetaNodeId>)>, staged_ast: &mut StagedAst,
    id_provider: &mut IdProvider, dependency_set: &mut Vec<ProcessDependency>, staged_forest: &mut StagedForest,
    type_env: &TypeEnv, Ghost(bound): Ghost<nat>)
    -> (r: Result<Vec<(String, Vec<StagedNodeId>)>, MetaProcessError>)
    requires
        meta_ast.acyclic(),
        stage_pre(*old(staged_ast), old(id_provider).counter()),
        ops_below(effects@, bound),
    ensures
        r is Err && id_exhausted(r->Err_0) ==> final(id_provider).counter() == usize::MAX,
        (meta_ast.closed() && ops_present(effects@, meta_ast.stmt_map())) ==> !(r matches Err(e) && not_found(e)),
        stage_step(*old(staged_ast), *final(staged_ast), old(id_provider).counter(), final(id_provider).counter()),
        final(staged_forest).embedded_files == old(staged_forest).embedded_files,
        final(staged_forest).module_bindings == old(staged_forest).module_bindings,
        registries_grow(*old(staged_forest), *final(staged_forest)),
        match r {
            Ok(v) => v@.len() == effects@.len() && forall|i: int| 0 <= i < effects@.len() ==>
                #[trigger] v@[i].0@ == effects@[i].0@ && v@[i].1@.len() == effects@[i].1@.len(),
            Err(e) => stage_error(*meta_ast, old(staged_forest).embedded_files@, e),
        },
    decreases bound, 3nat,
{
    let ghost a0 = *staged_ast;
    let ghost c0 = id_provider.counter();
    let mut out: Vec<(String, Vec<StagedNodeId>)> = Vec::new();
    let mut i: usize = 0;
    while i < effects.len()
        invariant
            meta_ast.acyclic(),
            i <= effects@.len(),
            out@.len() == i,
            ops_below(effects@, bound),
            stage_step(a0, *staged_ast, c0, id_provider.counter()),
            a0 == *old(staged_ast),
            c0 == old(id_provider).counter(),
            staged_forest.embedded_files == old(staged_forest).embedded_files,
            staged_forest.module_bindings == old(staged_forest).module_bindings,
            registries_grow(*old(staged_forest), *staged_forest),
            forall|j: int| 0 <= j < out@.len() ==> #[trigger] out@[j].0@ == effects@[j].0@
                && out@[j].1@.len() == effects@[j].1@.len(),
        decreases effects@.len() - i,
    {
        let ghost a1 = *staged_ast;
        let ghost c1 = id_provider.counter();
        proof {
            assert forall|j: int| 0 <= j < effects@[i as int].1@.len() implies (#[trigger] effects@[i as int].1@[j]).0 < bound by {
                assert(effects@[i as int].1@[j].0 < bound);
            }
        }
        let ops = process_stmts(meta_ast, &effects[i].1, staged_ast, id_provider, dependency_set, staged_forest, type_env, Ghost(bound))?;
        proof { lemma_stage_step_trans(a0, a1, *staged_ast, c0, c1, id_provider.counter()); }
        out.push((effects[i].0.clone(), ops));
        i = i + 1;
    }
    Ok(out)
}

proof fn lemma_step_refl(a: StagedAst, c: nat)
    requires
        stage_pre(a, c),
    ensures
        stage_step(a, a, c, c),
{
}

/// The expression of an expression statement, a `var`, an assignment or
/// a `print`.
pub open spec fn meta_stmt_expr(s: MetaStmt) -> Option<MetaNodeId> {
    match s {
        MetaStmt::ExprStmt(e) => Some(e),
        MetaStmt::VarDecl { expr, .. } => Some(expr),
        MetaStmt::Assign { expr, .. } => Some(expr),
        MetaStmt::Print(e) => Some(e),
        _ => None,
    }
}

/// The expression of a staged expression statement, `var`, assignment or
/// `print`.
pub open spec fn staged_stmt_expr(s: StagedStmt) -> Option<StagedNodeId> {
    match s {
        StagedStmt::ExprStmt(e) => Some(e),
        StagedStmt::VarDecl { expr, .. } => Some(expr),
        StagedStmt::Assign { expr, .. } => Some(expr),
        StagedStmt::Print(e) => Some(e),
        _ => None,
    }
}

/// Where `m` is such a statement, the staged `s` holds an expression of
/// the shape of its expression.
pub open spec fn stmt_expr_kept(meta: MetaAst, st: StagedAst, m: MetaNodeId, s: StagedNodeId, env: TypeEnv,
    files: Seq<(String, Result<String, String>)>) -> bool {
    match meta_stmt_expr(meta.stmt_map()[m.0]) {
        Some(e) => match staged_stmt_expr(st.stmts@[s.0]) {
            Some(x) => operand_shaped(meta, st, e, x, env, files),
            None => false,
        },
        None => true,
    }
}

/// The staged statement `s` has the shape of the meta statement `m`.
pub open spec fn stmt_shaped(meta: MetaAst, st: StagedAst, m: MetaNodeId, s: StagedNodeId) -> bool {
    meta.stmt_map().contains_key(m.0) && st.stmts@.contains_key(s.0) && stmt_shape(meta.stmt_map()[m.0], st.stmts@[s.0])
}

/// Where `m` is an `if` or a `while`, the staged `s` keeps its parts in
/// place: its condition, body and `else` each have the shape of the meta one.
pub open spec fn parts_kept(meta: MetaAst, st: StagedAst, m: MetaStmt, s: StagedStmt, env: TypeEnv,
    files: Seq<(String, Result<String, String>)>) -> bool {
    match (m, s) {
        (MetaStmt::If { cond, body, else_branch }, StagedStmt::If { cond: c, body: b, else_branch: e }) =>
            operand_shaped(meta, st, cond, c, env, files) && stmt_shaped(meta, st, body, b) && match (else_branch, e) {
                (Some(x), Some(y)) => stmt_shaped(meta, st, x, y),
                (None, None) => true,
                _ => false,
            },
        (MetaStmt::WhileLoop { cond, body }, StagedStmt::WhileLoop { cond: c, body: b }) =>
            operand_shaped(meta, st, cond, c, env, files) && stmt_shaped(meta, st, body, b),
        _ => true,
    }
}

proof fn lemma_parts_kept_grows(meta: MetaAst, s1: StagedAst, s2: StagedAst, m: MetaStmt, s: StagedStmt, env: TypeEnv,
    files: Seq<(String, Result<String, String>)>)
    requires
        parts_kept(meta, s1, m, s, env, files),
        s1.stmts@.submap_of(s2.stmts@),
        s1.exprs@.submap_of(s2.exprs@),
    ensures
        parts_kept(meta, s2, m, s, env, files),
{
    match (m, s) {
        (MetaStmt::If { cond, body, else_branch }, StagedStmt::If { cond: c, body: b, else_branch: e }) => {
            assert(s1.exprs@.contains_key(c.0));
            assert(s2.exprs@.contains_key(c.0) && s2.exprs@[c.0] == s1.exprs@[c.0]);
            assert(s1.stmts@.contains_key(b.0));
            assert(s2.stmts@.contains_key(b.0) && s2.stmts@[b.0] == s1.stmts@[b.0]);
            if let Some(y) = e {
                assert(s1.stmts@.contains_key(y.0));
                assert(s2.stmts@.contains_key(y.0) && s2.stmts@[y.0] == s1.stmts@[y.0]);
            }
        },
        (MetaStmt::WhileLoop { cond, body }, StagedStmt::WhileLoop { cond: c, body: b }) => {
            assert(s1.exprs@.contains_key(c.0));
            assert(s2.exprs@.contains_key(c.0) && s2.exprs@[c.0] == s1.exprs@[c.0]);
            assert(s1.stmts@.contains_key(b.0));
            assert(s2.stmts@.contains_key(b.0) && s2.stmts@[b.0] == s1.stmts@[b.0]);
        },
        _ => {},
    }
}

/// Where `id` is a meta block, its staged form `sid` refers to a tree of
/// the forest that has its own dependency entry, and the enclosing tree
/// depends on it.
pub open spec fn meta_block_dep(meta: MetaAst, id: MetaNodeId, staged: StagedAst, sid: StagedNodeId,
    deps: Seq<ProcessDependency>, forest: StagedForest) -> bool {
    meta.stmt_map()[id.0] is MetaBlock ==> match staged.stmts@[sid.0] {
        StagedStmt::MetaStmt(m) => deps.contains(ProcessDependency::MetaTree(m.ast_ref))
            && forest.ast_map@.contains_key(m.ast_ref) && forest.dependency_map@.contains_key(m.ast_ref),
        _ => false,
    }
}

/// Where `id` is a block, its staged form `sid` is a block that ends with
/// the block's deferred statements, last declared first.
pub open spec fn block_defers(meta: MetaAst, id: MetaNodeId, staged: StagedAst, sid: StagedNodeId, env: TypeEnv,
    files: Seq<(String, Result<String, String>)>) -> bool {
    match meta.stmt_map()[id.0] {
        MetaStmt::Block(stmts) => match staged.stmts@[sid.0] {
            StagedStmt::Block(v) => defers_tail(meta, stmts@, staged, v@) && defers_exprs_kept(meta, stmts@, staged, v@, env, files),
            _ => false,
        },
        _ => true,
    }
}

/// Each deferred statement at the end of the staged block `v` keeps the
/// expression of the statement it stages (see `stmt_expr_kept`).
pub open spec fn defers_exprs_kept(meta: MetaAst, stmts: Seq<MetaNodeId>, staged: StagedAst, v: Seq<StagedNodeId>,
    env: TypeEnv, files: Seq<(String, Result<String, String>)>) -> bool {
    let d = defers_inner(meta, stmts);
    let n = d.len();
    forall|j: int| 0 <= j < n ==> #[trigger] stmt_expr_kept(meta, staged, d[n - 1 - j], v[v.len() - n + j], env, files)
}

proof fn lemma_expr_kept_grows(meta: MetaAst, s1: StagedAst, s2: StagedAst, m: MetaNodeId, s: StagedNodeId, env: TypeEnv,
    files: Seq<(String, Result<String, String>)>)
    requires
        stmt_expr_kept(meta, s1, m, s, env, files),
        s1.stmts@.contains_key(s.0),
        s1.stmts@.submap_of(s2.stmts@),
        s1.exprs@.submap_of(s2.exprs@),
    ensures
        stmt_expr_kept(meta, s2, m, s, env, files),
{
    assert(s2.stmts@.contains_key(s.0));
    assert(s2.stmts@[s.0] == s1.stmts@[s.0]);
    if let Some(e) = meta_stmt_expr(meta.stmt_map()[m.0]) {
        let x = staged_stmt_expr(s1.stmts@[s.0])->Some_0;
        assert(s1.exprs@.contains_key(x.0));
        assert(s2.exprs@.contains_key(x.0));
        assert(s2.exprs@[x.0] == s1.exprs@[x.0]);
    }
}

proof fn lemma_defers_tail_grows(meta: MetaAst, stmts: Seq<MetaNodeId>, s1: StagedAst, s2: StagedAst, v: Seq<StagedNodeId>)
    requires
        defers_tail(meta, stmts, s1, v),
        s1.stmts@.submap_of(s2.stmts@),
    ensures
        defers_tail(meta, stmts, s2, v),
{
    let d = defers_inner(meta, stmts);
    let n = d.len();
    assert forall|j: int| 0 <= j < n implies s2.stmts@.contains_key((#[trigger] v[v.len() - n + j]).0)
        && stmt_shape(meta.stmt_map()[d[n - 1 - j].0], s2.stmts@[v[v.len() - n + j].0]) by {
        assert(s1.stmts@.contains_key(v[v.len() - n + j].0));
        assert(s2.stmts@.contains_key(v[v.len() - n + j].0));
        assert(s2.stmts@[v[v.len() - n + j].0] == s1.stmts@[v[v.len() - n + j].0]);
    }
}

/// Stages the meta statement `meta_stmt_id` into `staged_ast` and returns
/// the staged node's ID, the first ID this call draws. A meta block is
/// staged into a tree of its own, which `staged_ast` then refers to.
#[verifier::spinoff_prover]
#[verifier::rlimit(60)]
pub fn process_stmt(meta_ast: &MetaAst, meta_stmt_id: MetaNodeId, staged_ast: &mut StagedAst, id_provider: &mut IdProvider,
    dependency_set: &mut Vec<ProcessDependency>, staged_forest: &mut StagedForest, type_env: &TypeEnv)
    -> (r: Result<StagedNodeId, MetaProcessError>)
    requires
        meta_ast.acyclic(),
        stage_pre(*old(staged_ast), old(id_provider).counter()),
    ensures
        r is Err && id_exhausted(r->Err_0) ==> final(id_provider).counter() == usize::MAX,
        (meta_ast.closed() && meta_ast.stmt_map().contains_key(meta_stmt_id.0)) ==> !(r matches Err(e) && not_found(e)),
        stage_step(*old(staged_ast), *final(staged_ast), old(id_provider).counter(), final(id_provider).counter()),
        final(staged_forest).embedded_files == old(staged_forest).embedded_files,
        final(staged_forest).module_bindings == old(staged_forest).module_bindings,
        registries_grow(*old(staged_forest), *final(staged_forest)),
        match r {
            Ok(sid) => sid.0 == old(id_provider).counter()
                && meta_ast.stmt_map().contains_key(meta_stmt_id.0)
                && final(staged_ast).stmts@.contains_key(sid.0)
                && stmt_shape(meta_ast.stmt_map()[meta_stmt_id.0], final(staged_ast).stmts@[sid.0]),
            Err(e) => stage_error(*meta_ast, old(staged_forest).embedded_files@, e),
        },
        r is Ok ==> impl_stmt_registered(*meta_ast, meta_stmt_id, *old(staged_forest), *final(staged_forest)),
        r matches Ok(sid) ==> block_defers(*meta_ast, meta_stmt_id, *final(staged_ast), sid, *type_env,
            old(staged_forest).embedded_files@),
        r matches Ok(sid) ==> stmt_expr_kept(*meta_ast, *final(staged_ast), meta_stmt_id, sid, *type_env,
            old(staged_forest).embedded_files@),
        r matches Ok(sid) ==> parts_kept(*meta_ast, *final(staged_ast), meta_ast.stmt_map()[meta_stmt_id.0],
            final(staged_ast).stmts@[sid.0], *type_env, old(staged_forest).embedded_files@),
        r matches Ok(sid) ==> meta_block_dep(*meta_ast, meta_stmt_id, *final(staged_ast), sid, final(dependency_set)@,
            *final(staged_forest)),
    decreases meta_stmt_id.0 + 1, 1nat,
{
    let ghost a0 = *staged_ast;
    let ghost c0 = id_provider.counter();
    let sid = fresh_staged(id_provider)?;
    proof { lemma_step_refl(a0, id_provider.counter() as nat); }
    let meta_stmt = match meta_ast.get_stmt(meta_stmt_id) {
        Some(s) => s,
        None => return Err(MetaProcessError::StmtNotFound(meta_stmt_id)),
    };
    proof {
        lemma_stmt_children_below(*meta_ast, meta_stmt_id);
        if meta_ast.closed() { lemma_stmt_children_present(*meta_ast, meta_stmt_id); }
    }
    let ghost bound: nat = meta_stmt_id.0 as nat;
    let ghost a1 = *staged_ast;
    let ghost c1 = id_provider.counter();
    let ghost mut blk_kids: Seq<StagedNodeId> = Seq::empty();
    let ghost mut expr_g: StagedNodeId = sid;
    let staged = match meta_stmt {
        MetaStmt::ExprStmt(e) => {
            let x = process_expr(meta_ast, *e, staged_ast, id_provider, dependency_set, staged_forest, type_env)?;
            proof { expr_g = x; }
            StagedStmt::ExprStmt(x)
        },
        MetaStmt::VarDecl { name, expr, .. } => {
            let x = process_expr(meta_ast, *expr, staged_ast, id_provider, dependency_set, staged_forest, type_env)?;
            proof { expr_g = x; }
            StagedStmt::VarDecl { name: name.clone(), expr: x }
        },
        MetaStmt::Assign { name, expr } => {
            let x = process_expr(meta_ast, *expr, staged_ast, id_provider, dependency_set, staged_forest, type_env)?;
            proof { expr_g = x; }
            StagedStmt::Assign { name: name.clone(), expr: x }
        },
        MetaStmt::IndexAssign { name, indices, expr } => {
            proof { assert forall|i: int| 0 <= i < indices@.len() implies (#[trigger] indices@[i]).0 < bound by {
                assert(indices@.push(*expr)[i] == indices@[i]);
            } }
            let xs = process_exprs(meta_ast, indices, staged_ast, id_provider, dependency_set, staged_forest, type_env, Ghost(bound))?;
            let ghost a2 = *staged_ast;
            let ghost c2 = id_provider.counter();
            proof { assert(indices@.push(*expr)[indices@.len() as int] == *expr); }
            let x = process_expr(meta_ast, *expr, staged_ast, id_provider, dependency_set, staged_forest, type_env)?;
            proof { lemma_stage_step_trans(a1, a2, *staged_ast, c1, c2, id_provider.counter()); }
            StagedStmt::IndexAssign { name: name.clone(), indices: xs, expr: x }
        },
        MetaStmt::DotAssign { object, field, expr } => {
            let x = process_expr(meta_ast, *expr, staged_ast, id_provider, dependency_set, staged_forest, type_env)?;
            StagedStmt::DotAssign { object: object.clone(), field: field.clone(), expr: x }
        },
        MetaStmt::Print(e) => {
            let x = process_expr(meta_ast, *e, staged_ast, id_provider, dependency_set, staged_forest, type_env)?;
            proof { expr_g = x; }
            StagedStmt::Print(x)
        },
        MetaStmt::If { cond, body, else_branch } => {
            let c = process_expr(meta_ast, *cond, staged_ast, id_provider, dependency_set, staged_forest, type_env)?;
            let ghost a2 = *staged_ast;
            let ghost c2 = id_provider.counter();
            let b = process_stmt(meta_ast, *body, staged_ast, id_provider, dependency_set, staged_forest, type_env)?;
            proof { lemma_stage_step_trans(a1, a2, *staged_ast, c1, c2, id_provider.counter()); }
            let ghost a3 = *staged_ast;
            let ghost c3 = id_provider.counter();
            let e = match else_branch {
                Some(s) => {
                    proof { assert((seq![*body] + crate::meta_ast::opt_ids(*else_branch))[1] == *s); }
                    let x = process_stmt(meta_ast, *s, staged_ast, id_provider, dependency_set, staged_forest, type_env)?;
                    Some(x)
                },
                None => None,
            };
            proof {
                lemma_stage_step_trans(a1, a3, *staged_ast, c1, c3, id_provider.counter());
                assert(a2.exprs@.contains_key(c.0));
                assert(a2.exprs@.submap_of(a3.exprs@));
                assert(a3.exprs@.submap_of(staged_ast.exprs@));
                assert(a3.exprs@.contains_key(c.0));
                assert(a3.exprs@[c.0] == a2.exprs@[c.0]);
                assert(staged_ast.exprs@.contains_key(c.0));
                assert(staged_ast.exprs@[c.0] == a3.exprs@[c.0]);
                assert(a3.stmts@.contains_key(b.0));
                assert(a3.stmts@.submap_of(staged_ast.stmts@));
                assert(staged_ast.stmts@.contains_key(b.0));
                assert(staged_ast.stmts@[b.0] == a3.stmts@[b.0]);
                assert(parts_kept(*meta_ast, *staged_ast, *meta_stmt, StagedStmt::If { cond: c, body: b, else_branch: e },
                    *type_env, old(staged_forest).embedded_files@));
            }
            StagedStmt::If { cond: c, body: b, else_branch: e }
        },
        MetaStmt::WhileLoop { cond, body } => {
            let c = process_expr(meta_ast, *cond, staged_ast, id_provider, dependency_set, staged_forest, type_env)?;
            let ghost a2 = *staged_ast;
            let ghost c2 = id_provider.counter();
            let b = process_stmt(meta_ast, *body, staged_ast, id_provider, dependency_set, staged_forest, type_env)?;
            proof {
                lemma_stage_step_trans(a1, a2, *staged_ast, c1, c2, id_provider.counter());
                assert(a2.exprs@.contains_key(c.0));
                assert(a2.exprs@.submap_of(staged_ast.exprs@));
                assert(staged_ast.exprs@.contains_key(c.0));
                assert(staged_ast.exprs@[c.0] == a2.exprs@[c.0]);
                assert(parts_kept(*meta_ast, *staged_ast, *meta_stmt, StagedStmt::WhileLoop { cond: c, body: b },
                    *type_env, old(staged_forest).embedded_files@));
            }
            StagedStmt::WhileLoop { cond: c, body: b }
        },
        MetaStmt::ForEach { var, iterable, body } => {
            let c = process_expr(meta_ast, *iterable, staged_ast, id_provider, dependency_set, staged_forest, type_env)?;
            let ghost a2 = *staged_ast;
            let ghost c2 = id_provider.counter();
            let b = process_stmt(meta_ast, *body, staged_ast, id_provider, dependency_set, staged_forest, type_env)?;
            proof { lemma_stage_step_trans(a1, a2, *staged_ast, c1, c2, id_provider.counter()); }
            StagedStmt::ForEach { var: var.clone(), iterable: c, body: b }
        },
        MetaStmt::Block(stmts) => {
            let kids = process_block(meta_ast, stmts, staged_ast, id_provider, dependency_set, staged_forest, type_env, Ghost(bound))?;
            proof { blk_kids = kids@; }
            StagedStmt::Block(kids)
        },
        MetaStmt::FnDecl { name, params, type_params, body, .. } => {
            let b = process_stmt(meta_ast, *body, staged_ast, id_provider, dependency_set, staged_forest, type_env)?;
            StagedStmt::FnDecl { name: name.clone(), params: param_names(params), type_params: clone_strings(type_params), body: b }
        },
        MetaStmt::MetaFnDecl { name, params, body } => {
            let b = process_stmt(meta_ast, *body, staged_ast, id_provider, dependency_set, staged_forest, type_env)?;
            StagedStmt::FnDecl { name: name.clone(), params: param_names(params), type_params: Vec::new(), body: b }
        },
        MetaStmt::StructDecl { name, fields } => {
            let mut out: Vec<StagedFieldDecl> = Vec::new();
            let mut i: usize = 0;
            while i < fields.len()
                invariant
                    i <= fields@.len(),
                    out@.len() == i,
                    forall|j: int| 0 <= j < i ==> #[trigger] out@[j].field_name@ == fields@[j].field_name@
                        && out@[j].field_type@ == fields@[j].field_type@,
                decreases fields@.len() - i,
            {
                out.push(StagedFieldDecl { field_name: fields[i].field_name.clone(), field_type: fields[i].field_type.clone() });
                i = i + 1;
            }
            StagedStmt::StructDecl { name: name.clone(), fields: out }
        },
        // A trait is a compile-time contract only: nothing of it runs.
        MetaStmt::TraitDecl { .. } => StagedStmt::Block(Vec::new()),
        MetaStmt::ImplDecl { trait_name, target_type, methods } => {
            let fn_ids = process_impl(meta_ast, trait_name, target_type, methods, staged_ast, id_provider, dependency_set,
                staged_forest, type_env, Ghost(bound))?;
            StagedStmt::Block(fn_ids)
        },
        MetaStmt::EnumDecl { name, type_params, variants } => StagedStmt::EnumDecl {
            name: name.clone(),
            type_params: clone_strings(type_params),
            variants: variants.clone(),
        },
        MetaStmt::Match { scrutinee, arms } => {
            let c = process_expr(meta_ast, *scrutinee, staged_ast, id_provider, dependency_set, staged_forest, type_env)?;
            let ghost a2 = *staged_ast;
            let ghost c2 = id_provider.counter();
            let out = process_arms(meta_ast, arms, staged_ast, id_provider, dependency_set, staged_forest, type_env, Ghost(bound))?;
            proof { lemma_stage_step_trans(a1, a2, *staged_ast, c1, c2, id_provider.counter()); }
            StagedStmt::Match { scrutinee: c, arms: out }
        },
        MetaStmt::Return(opt) => {
            let o = process_opt_expr(meta_ast, *opt, staged_ast, id_provider, dependency_set, staged_forest, type_env, Ghost(bound))?;
            StagedStmt::Return(o)
        },
        MetaStmt::Gen(stmts) => {
            let kids = process_stmts(meta_ast, stmts, staged_ast, id_provider, dependency_set, staged_forest, type_env, Ghost(bound))?;
            StagedStmt::Gen(kids)
        },
        MetaStmt::MetaBlock(parsed) => {
            let roots = vec![*parsed];
            proof { assert(roots@[0] == *parsed); }
            let ast_id = process_root_inner(meta_ast, &roots, staged_forest, id_provider, type_env, Ghost((parsed.0 + 1) as nat))?;
            insert_dependency(dependency_set, ProcessDependency::MetaTree(ast_id));
            proof {
                assert(dependency_set@.to_set().contains(ProcessDependency::MetaTree(ast_id)));
                assert(dependency_set@.contains(ProcessDependency::MetaTree(ast_id)));
            }
            StagedStmt::MetaStmt(MetaRef { ast_ref: ast_id })
        },
        // Kept so the statement's ID stays valid; modules are bound before evaluation.
        MetaStmt::Import(decl) => StagedStmt::Import(clone_import(decl)),
        MetaStmt::EffectDecl { name, type_params, ops } => StagedStmt::EffectDecl {
            name: name.clone(),
            type_params: clone_strings(type_params),
            ops: ops.clone(),
        },
        MetaStmt::WithFn { op_name, params, ret_ty, body } => {
            let b = process_stmt(meta_ast, *body, staged_ast, id_provider, dependency_set, staged_forest, type_env)?;
            StagedStmt::WithFn { op_name: op_name.clone(), params: params.clone(), ret_ty: clone_opt_string(ret_ty), body: b }
        },
        MetaStmt::WithCtl { op_name, params, ret_ty, body } => {
            let b = process_stmt(meta_ast, *body, staged_ast, id_provider, dependency_set, staged_forest, type_env)?;
            StagedStmt::WithCtl { op_name: op_name.clone(), params: params.clone(), ret_ty: clone_opt_string(ret_ty), body: b }
        },
        MetaStmt::HandlerDef { name, effect_name, ops } => {
            let kids = process_stmts(meta_ast, ops, staged_ast, id_provider, dependency_set, staged_forest, type_env, Ghost(bound))?;
            StagedStmt::HandlerDef { name: name.clone(), effect_name: clone_opt_string(effect_name), ops: kids }
        },
        MetaStmt::Resume(opt) => {
            let o = process_opt_expr(meta_ast, *opt, staged_ast, id_provider, dependency_set, staged_forest, type_env, Ghost(bound))?;
            StagedStmt::Resume(o)
        },
        // A `defer` outside any block runs its statement at once.
        MetaStmt::Defer(inner) => {
            let x = process_stmt(meta_ast, *inner, staged_ast, id_provider, dependency_set, staged_forest, type_env)?;
            StagedStmt::Block(vec![x])
        },
    };
    let ghost before_put = *staged_ast;
    put_stmt(staged_ast, sid, staged, Ghost(a0), Ghost(id_provider.counter() as nat));
    proof {
        if meta_ast.stmt_map()[meta_stmt_id.0] is If || meta_ast.stmt_map()[meta_stmt_id.0] is WhileLoop {
            assert(parts_kept(*meta_ast, before_put, *meta_stmt, staged, *type_env, old(staged_forest).embedded_files@));
            assert(before_put.stmts@.submap_of(staged_ast.stmts@));
            lemma_parts_kept_grows(*meta_ast, before_put, *staged_ast, *meta_stmt, staged, *type_env,
                old(staged_forest).embedded_files@);
        }
        if meta_stmt_expr(meta_ast.stmt_map()[meta_stmt_id.0]) is Some {
            assert(staged_stmt_expr(staged) == Some(expr_g));
            assert(before_put.exprs@.contains_key(expr_g.0));
            assert(staged_ast.exprs@ == before_put.exprs@);
        }
        if meta_ast.stmt_map()[meta_stmt_id.0] is MetaBlock {
            assert(staged is MetaStmt);
            assert(staged_ast.stmts@[sid.0] == staged);
        }
        if meta_ast.stmt_map()[meta_stmt_id.0] is Block {
            let stmts = meta_ast.stmt_map()[meta_stmt_id.0]->Block_0;
            assert(staged == StagedStmt::Block(staged->Block_0));
            assert(staged->Block_0@ == blk_kids);
            assert(before_put.stmts@.submap_of(staged_ast.stmts@));
            lemma_defers_tail_grows(*meta_ast, stmts@, before_put, *staged_ast, blk_kids);
            let d = defers_inner(*meta_ast, stmts@);
            let n = d.len();
            assert forall|j: int| 0 <= j < n implies #[trigger] stmt_expr_kept(*meta_ast, *staged_ast, d[n - 1 - j],
                blk_kids[blk_kids.len() - n + j], *type_env, old(staged_forest).embedded_files@) by {
                assert(stmt_expr_kept(*meta_ast, before_put, d[n - 1 - j], blk_kids[blk_kids.len() - n + j], *type_env,
                    old(staged_forest).embedded_files@));
                lemma_expr_kept_grows(*meta_ast, before_put, *staged_ast, d[n - 1 - j], blk_kids[blk_kids.len() - n + j],
                    *type_env, old(staged_forest).embedded_files@);
            }
        }
    }
    Ok(sid)
}

fn clone_opt_string(o: &Option<String>) -> (r: Option<String>)
    ensures
        r is Some == o is Some,
        r matches Some(s) ==> o matches Some(t) && s@ == t@,
{
    match o {
        Some(s) => Some(s.clone()),
        None => None,
    }
}

/// The statements that the `defer`s among `stmts` put off, in the order
/// declared.
pub open spec fn defers_inner(meta: MetaAst, stmts: Seq<MetaNodeId>) -> Seq<MetaNodeId>
    decreases stmts.len(),
{
    if stmts.len() == 0 {
        Seq::empty()
    } else {
        let before = defers_inner(meta, stmts.drop_last());
        match meta.stmt_map()[stmts.last().0] {
            MetaStmt::Defer(x) => before.push(x),
            _ => before,
        }
    }
}

/// The staged block `v` of the meta statements `stmts` ends with their
/// deferred statements, last declared first: position `j` of that tail
/// holds the staged form of the `j`-th deferred statement counted from the
/// last, and each was staged (got its ID) before the one ahead of it.
pub open spec fn defers_tail(meta: MetaAst, stmts: Seq<MetaNodeId>, staged: StagedAst, v: Seq<StagedNodeId>) -> bool {
    let d = defers_inner(meta, stmts);
    let n = d.len();
    &&& n <= v.len()
    &&& forall|j: int| 0 <= j < n ==> staged.stmts@.contains_key((#[trigger] v[v.len() - n + j]).0)
        && stmt_shape(meta.stmt_map()[d[n - 1 - j].0], staged.stmts@[v[v.len() - n + j].0])
    &&& forall|j: int| v.len() - n <= j < v.len() - 1 ==> (#[trigger] v[j]).0 > v[j + 1].0
}

/// Stages the statements of a block. `defer`red statements are staged in
/// place of nothing and then run, last declared first, at every exit of the
/// block: before each `return` inside it and at its end.
fn process_block(meta_ast: &MetaAst, stmts: &Vec<MetaNodeId>, staged_ast: &mut StagedAst, id_provider: &mut IdProvider,
    dependency_set: &mut Vec<ProcessDependency>, staged_forest: &mut StagedForest, type_env: &TypeEnv, Ghost(bound): Ghost<nat>)
    -> (r: Result<Vec<StagedNodeId>, MetaProcessError>)
    requires
        meta_ast.acyclic(),
        stage_pre(*old(staged_ast), old(id_provider).counter()),
        forall|i: int| 0 <= i < stmts@.len() ==> (#[trigger] stmts@[i]).0 < bound,
    ensures
        r is Err && id_exhausted(r->Err_0) ==> final(id_provider).counter() == usize::MAX,
        (meta_ast.closed() && (forall|i: int| 0 <= i < stmts@.len() ==> meta_ast.stmt_map().contains_key(#[trigger] stmts@[i].0))) ==> !(r matches Err(e) && not_found(e)),
        stage_step(*old(staged_ast), *final(staged_ast), old(id_provider).counter(), final(id_provider).counter()),
        final(staged_forest).embedded_files == old(staged_forest).embedded_files,
        final(staged_forest).module_bindings == old(staged_forest).module_bindings,
        registries_grow(*old(staged_forest), *final(staged_forest)),
        match r {
            Ok(v) => v@.len() == stmts@.len()
                && forall|i: int| 0 <= i < v@.len() ==> final(staged_ast).stmts@.contains_key(#[trigger] v@[i].0),
            Err(e) => stage_error(*meta_ast, old(staged_forest).embedded_files@, e),
        },
        r matches Ok(v) ==> defers_tail(*meta_ast, stmts@, *final(staged_ast), v@)
            && defers_exprs_kept(*meta_ast, stmts@, *final(staged_ast), v@, *type_env, old(staged_forest).embedded_files@),
    decreases bound, 2nat,
{
    let ghost a0 = *staged_ast;
    let ghost c0 = id_provider.counter();
    let mut deferred: Vec<StagedNodeId> = Vec::new();
    let mut regular: Vec<StagedNodeId> = Vec::new();
    let mut i: usize = 0;
    while i < stmts.len()
        invariant
            meta_ast.acyclic(),
            i <= stmts@.len(),
            deferred@.len() + regular@.len() == i,
            forall|j: int| 0 <= j < stmts@.len() ==> (#[trigger] stmts@[j]).0 < bound,
            stage_step(a0, *staged_ast, c0, id_provider.counter()),
            a0 == *old(staged_ast),
            c0 == old(id_provider).counter(),
            staged_forest.embedded_files == old(staged_forest).embedded_files,
            staged_forest.module_bindings == old(staged_forest).module_bindings,
            registries_grow(*old(staged_forest), *staged_forest),
            forall|j: int| 0 <= j < deferred@.len() ==> staged_ast.stmts@.contains_key(#[trigger] deferred@[j].0),
            forall|j: int| 0 <= j < regular@.len() ==> staged_ast.stmts@.contains_key(#[trigger] regular@[j].0),
            deferred@.len() == defers_inner(*meta_ast, stmts@.take(i as int)).len(),
            forall|j: int| 0 <= j < deferred@.len() ==> stmt_shape(meta_ast.stmt_map()[defers_inner(*meta_ast, stmts@.take(i as int))[j].0],
                staged_ast.stmts@[(#[trigger] deferred@[j]).0]),
            forall|j: int| 0 <= j < deferred@.len() ==> (#[trigger] deferred@[j]).0 < id_provider.counter(),
            forall|j: int| 0 <= j < deferred@.len() ==> stmt_expr_kept(*meta_ast, *staged_ast,
                defers_inner(*meta_ast, stmts@.take(i as int))[j], #[trigger] deferred@[j], *type_env, old(staged_forest).embedded_files@),
            forall|j: int| 0 <= j < deferred@.len() - 1 ==> (#[trigger] deferred@[j]).0 < deferred@[j + 1].0,
        decreases stmts@.len() - i,
    {
        let ghost a1 = *staged_ast;
        let ghost c1 = id_provider.counter();
        let ghost d0 = deferred@;
        let ghost di = defers_inner(*meta_ast, stmts@.take(i as int));
        proof {
            assert(stmts@.take(i + 1).drop_last() =~= stmts@.take(i as int));
            assert(stmts@.take(i + 1).last() == stmts@[i as int]);
        }
        let id = stmts[i];
        let inner = match meta_ast.get_stmt(id) {
            Some(MetaStmt::Defer(inner)) => Some(*inner),
            _ => None,
        };
        match inner {
            Some(inner) => {
                proof {
                    lemma_stmt_children_below(*meta_ast, id);
                    if meta_ast.closed() && meta_ast.stmt_map().contains_key(id.0) {
                        lemma_stmt_children_present(*meta_ast, id);
                    }
                }
                let x = process_stmt(meta_ast, inner, staged_ast, id_provider, dependency_set, staged_forest, type_env)?;
                deferred.push(x);
                proof {
                    assert(meta_ast.stmt_map()[id.0] == MetaStmt::Defer(inner));
                    let dn = defers_inner(*meta_ast, stmts@.take(i + 1));
                    assert(dn == di.push(inner));
                    assert forall|j: int| 0 <= j < deferred@.len() implies stmt_shape(meta_ast.stmt_map()[dn[j].0],
                        staged_ast.stmts@[(#[trigger] deferred@[j]).0]) by {
                        if j < d0.len() {
                            assert(deferred@[j] == d0[j]);
                            assert(dn[j] == di[j]);
                            assert(a1.stmts@.contains_key(d0[j].0));
                            assert(a1.stmts@.submap_of(staged_ast.stmts@));
                            assert(staged_ast.stmts@.contains_key(d0[j].0));
                            assert(staged_ast.stmts@[d0[j].0] == a1.stmts@[d0[j].0]);
                        }
                    }
                    assert forall|j: int| 0 <= j < deferred@.len() implies stmt_expr_kept(*meta_ast, *staged_ast, dn[j],
                        #[trigger] deferred@[j], *type_env, old(staged_forest).embedded_files@) by {
                        if j < d0.len() {
                            assert(deferred@[j] == d0[j]);
                            assert(dn[j] == di[j]);
                            lemma_expr_kept_grows(*meta_ast, a1, *staged_ast, di[j], d0[j], *type_env, old(staged_forest).embedded_files@);
                        }
                    }
                    assert forall|j: int| 0 <= j < deferred@.len() - 1 implies (#[trigger] deferred@[j]).0 < deferred@[j + 1].0 by {
                        assert(deferred@[j] == d0[j]);
                        if j + 1 < d0.len() { assert(deferred@[j + 1] == d0[j + 1]); }
                    }
                }
            },
            None => {
                let x = process_stmt(meta_ast, id, staged_ast, id_provider, dependency_set, staged_forest, type_env)?;
                regular.push(x);
                proof {
                    assert(!(meta_ast.stmt_map()[id.0] is Defer));
                    assert(defers_inner(*meta_ast, stmts@.take(i + 1)) == di);
                    assert forall|j: int| 0 <= j < deferred@.len() implies stmt_shape(meta_ast.stmt_map()[di[j].0],
                        staged_ast.stmts@[(#[trigger] deferred@[j]).0]) by {
                        assert(a1.stmts@.contains_key(deferred@[j].0));
                        assert(a1.stmts@.submap_of(staged_ast.stmts@));
                        assert(staged_ast.stmts@.contains_key(deferred@[j].0));
                        assert(staged_ast.stmts@[deferred@[j].0] == a1.stmts@[deferred@[j].0]);
                    }
                    assert forall|j: int| 0 <= j < deferred@.len() implies stmt_expr_kept(*meta_ast, *staged_ast, di[j],
                        #[trigger] deferred@[j], *type_env, old(staged_forest).embedded_files@) by {
                        lemma_expr_kept_grows(*meta_ast, a1, *staged_ast, di[j], deferred@[j], *type_env, old(staged_forest).embedded_files@);
                    }
                }
            },
        }
        proof { lemma_stage_step_trans(a0, a1, *staged_ast, c0, c1, id_provider.counter()); }
        i = i + 1;
    }
    proof { assert(stmts@.take(stmts@.len() as int) =~= stmts@); }
    if deferred.len() == 0 {
        return Ok(regular);
    }
    // the last defer declared runs first
    let mut defers_lifo: Vec<StagedNodeId> = Vec::new();
    let mut k: usize = deferred.len();
    while k > 0
        invariant
            k <= deferred@.len(),
            defers_lifo@.len() + k == deferred@.len(),
            forall|j: int| 0 <= j < defers_lifo@.len() ==> #[trigger] defers_lifo@[j] == deferred@[deferred@.len() - 1 - j],
        decreases k,
    {
        k = k - 1;
        defers_lifo.push(deferred[k]);
    }
    let ghost a1 = *staged_ast;
    let ghost c1 = id_provider.counter();
    proof {
        assert forall|j: int| 0 <= j < defers_lifo@.len() implies staged_ast.stmts@.contains_key(#[trigger] defers_lifo@[j].0) by {
            assert(staged_ast.stmts@.contains_key(deferred@[deferred@.len() - 1 - j].0));
        }
    }
    let ghost nr = regular@.len();
    let out = transform_block_with_defers(regular, &defers_lifo, staged_ast, id_provider)?;
    proof {
        lemma_stage_step_trans(a0, a1, *staged_ast, c0, c1, id_provider.counter());
        let d = defers_inner(*meta_ast, stmts@);
        let n = d.len();
        assert(n == defers_lifo@.len());
        assert(out@.len() - n == nr);
        assert forall|j: int| 0 <= j < n implies staged_ast.stmts@.contains_key((#[trigger] out@[out@.len() - n + j]).0)
            && stmt_shape(meta_ast.stmt_map()[d[n - 1 - j].0], staged_ast.stmts@[out@[out@.len() - n + j].0]) by {
            assert(out@.subrange(nr as int, out@.len() as int)[j] == out@[out@.len() - n + j]);
            assert(out@[out@.len() - n + j] == defers_lifo@[j]);
            assert(defers_lifo@[j] == deferred@[n - 1 - j]);
            assert(a1.stmts@.contains_key(deferred@[n - 1 - j].0));
            assert(staged_ast.stmts@[deferred@[n - 1 - j].0] == a1.stmts@[deferred@[n - 1 - j].0]);
        }
        assert forall|j: int| 0 <= j < n implies #[trigger] stmt_expr_kept(*meta_ast, *staged_ast, d[n - 1 - j], out@[out@.len() - n + j],
            *type_env, old(staged_forest).embedded_files@) by {
            assert(out@.subrange(nr as int, out@.len() as int)[j] == out@[out@.len() - n + j]);
            assert(out@[out@.len() - n + j] == defers_lifo@[j]);
            assert(defers_lifo@[j] == deferred@[n - 1 - j]);
            lemma_expr_kept_grows(*meta_ast, a1, *staged_ast, d[n - 1 - j], deferred@[n - 1 - j], *type_env,
                old(staged_forest).embedded_files@);
        }
        assert forall|j: int| out@.len() - n <= j < out@.len() - 1 implies (#[trigger] out@[j]).0 > out@[j + 1].0 by {
            let t = j - nr;
            assert(out@.subrange(nr as int, out@.len() as int)[t] == out@[j]);
            assert(out@.subrange(nr as int, out@.len() as int)[t + 1] == out@[j + 1]);
            assert(out@[j] == defers_lifo@[t]);
            assert(out@[j + 1] == defers_lifo@[t + 1]);
            assert(defers_lifo@[t] == deferred@[n - 1 - t]);
            assert(defers_lifo@[t + 1] == deferred@[n - 2 - t]);
        }
    }
    Ok(out)
}

/// Stages the bodies of match arms; patterns are kept as they are.
fn process_arms(meta_ast: &MetaAst, arms: &Vec<crate::meta_ast::MatchArm>, staged_ast: &mut StagedAst,
    id_provider: &mut IdProvider, dependency_set: &mut Vec<ProcessDependency>, staged_forest: &mut StagedForest,
    type_env: &TypeEnv, Ghost(bound): Ghost<nat>)
    -> (r: Result<Vec<StagedMatchArm>, MetaProcessError>)
    requires
        meta_ast.acyclic(),
        stage_pre(*old(staged_ast), old(id_provider).counter()),
        forall|i: int| 0 <= i < arms@.len() ==> (#[trigger] arms@[i]).body.0 < bound,
    ensures
        r is Err && id_exhausted(r->Err_0) ==> final(id_provider).counter() == usize::MAX,
        (meta_ast.closed() && (forall|i: int| 0 <= i < arms@.len() ==> meta_ast.stmt_map().contains_key((#[trigger] arms@[i]).body.0))) ==> !(r matches Err(e) && not_found(e)),
        stage_step(*old(staged_ast), *final(staged_ast), old(id_provider).counter(), final(id_provider).counter()),
        final(staged_forest).embedded_files == old(staged_forest).embedded_files,
        final(staged_forest).module_bindings == old(staged_forest).module_bindings,
        registries_grow(*old(staged_forest), *final(staged_forest)),
        match r {
            Ok(v) => v@.len() == arms@.len()
                && forall|i: int| 0 <= i < v@.len() ==> final(staged_ast).stmts@.contains_key(#[trigger] v@[i].body.0),
            Err(e) => stage_error(*meta_ast, old(staged_forest).embedded_files@, e),
        },
    decreases bound, 2nat,
{
    let ghost a0 = *staged_ast;
    let ghost c0 = id_provider.counter();
    let mut out: Vec<StagedMatchArm> = Vec::new();
    let mut i: usize = 0;
    while i < arms.len()
        invariant
            meta_ast.acyclic(),
            i <= arms@.len(),
            out@.len() == i,
            forall|j: int| 0 <= j < arms@.len() ==> (#[trigger] arms@[j]).body.0 < bound,
            stage_step(a0, *staged_ast, c0, id_provider.counter()),
            a0 == *old(staged_ast),
            c0 == old(id_provider).counter(),
            staged_forest.embedded_files == old(staged_forest).embedded_files,
            staged_forest.module_bindings == old(staged_forest).module_bindings,
            registries_grow(*old(staged_forest), *staged_forest),
            forall|j: int| 0 <= j < out@.len() ==> staged_ast.stmts@.contains_key(#[trigger] out@[j].body.0),
        decreases arms@.len() - i,
    {
        let ghost a1 = *staged_ast;
        let ghost c1 = id_provider.counter();
        let b = process_stmt(meta_ast, arms[i].body, staged_ast, id_provider, dependency_set, staged_forest, type_env)?;
        proof { lemma_stage_step_trans(a0, a1, *staged_ast, c0, c1, id_provider.counter()); }
        out.push(StagedMatchArm { pattern: arms[i].pattern.clone(), body: b });
        i = i + 1;
    }
    Ok(out)
}

/// Whether `name` is one of the operator traits.
pub open spec fn is_op_trait_name(name: Seq<char>) -> bool {
    name == seq!['A', 'd', 'd'] || name == seq!['S', 'u', 'b'] || name == seq!['M', 'u', 'l']
        || name == seq!['D', 'i', 'v'] || name == seq!['E', 'q']
}

/// `new` keeps every registry entry of `old` in place, and every operator
/// entry it adds is for an operator trait.
pub open spec fn registries_grow(old: StagedForest, new: StagedForest) -> bool {
    &&& old.impl_registry@.len() <= new.impl_registry@.len()
    &&& forall|k: int| 0 <= k < old.impl_registry@.len() ==> #[trigger] new.impl_registry@[k] == old.impl_registry@[k]
    &&& old.op_registry@.len() <= new.op_registry@.len()
    &&& forall|k: int| 0 <= k < old.op_registry@.len() ==> #[trigger] new.op_registry@[k] == old.op_registry@[k]
    &&& forall|k: int| old.op_registry@.len() <= k < new.op_registry@.len() ==> is_op_trait_name(#[trigger] new.op_registry@[k].0@)
}

/// `e` records method `m` of type `ty`, staged as `ty__m`.
pub open spec fn impl_entry(e: (String, String, String), ty: Seq<char>, m: Seq<char>) -> bool {
    e.0@ == ty && e.1@ == m && e.2@ == ty + seq!['_', '_'] + m
}

/// `e` records the operator trait `tr` of type `ty` as implemented by `ty__m`.
pub open spec fn op_entry(e: (String, String, String), tr: Seq<char>, ty: Seq<char>, m: Seq<char>) -> bool {
    e.0@ == tr && e.1@ == ty && e.2@ == ty + seq!['_', '_'] + m
}

/// At the positions `ks` (rising, all past `old`'s entries) `new`'s impl
/// registry records the methods of `impl tr for ty`, one each, in order;
/// for an operator trait the positions `os` of its operator registry do the
/// same, and for another trait no operator entry added names `tr`.
pub open spec fn registered_at(old: StagedForest, new: StagedForest, tr: Seq<char>, ty: Seq<char>,
    methods: Seq<crate::meta_ast::ImplMethodDecl>, ks: Seq<int>, os: Seq<int>) -> bool {
    &&& ks.len() == methods.len()
    &&& forall|i: int| 0 <= i < ks.len() ==> old.impl_registry@.len() <= #[trigger] ks[i] < new.impl_registry@.len()
        && (i > 0 ==> ks[i - 1] < ks[i])
        && impl_entry(new.impl_registry@[ks[i]], ty, methods[i].name@)
    &&& if is_op_trait_name(tr) {
        &&& os.len() == methods.len()
        &&& forall|i: int| 0 <= i < os.len() ==> old.op_registry@.len() <= #[trigger] os[i] < new.op_registry@.len()
            && (i > 0 ==> os[i - 1] < os[i])
            && op_entry(new.op_registry@[os[i]], tr, ty, methods[i].name@)
    } else {
        forall|k: int| old.op_registry@.len() <= k < new.op_registry@.len() ==> (#[trigger] new.op_registry@[k]).0@ != tr
    }
}

/// The registries record the methods of `impl tr for ty` (see `registered_at`).
pub open spec fn impl_registered(old: StagedForest, new: StagedForest, tr: Seq<char>, ty: Seq<char>,
    methods: Seq<crate::meta_ast::ImplMethodDecl>) -> bool {
    exists|ks: Seq<int>, os: Seq<int>| #[trigger] registered_at(old, new, tr, ty, methods, ks, os)
}

/// Where `id` is `impl tr for ty { .. }`, the registries record its
/// methods (see `registered_at`).
pub open spec fn impl_stmt_registered(meta: MetaAst, id: MetaNodeId, old: StagedForest, new: StagedForest) -> bool {
    match meta.stmt_map()[id.0] {
        MetaStmt::ImplDecl { trait_name, target_type, methods } =>
            impl_registered(old, new, trait_name@, target_type@, methods@),
        _ => true,
    }
}

/// After an impl is staged, each of its methods is found under the impl's
/// type (not its trait) with its own name, staged as `Type__method`.
pub proof fn law_impl_methods_found_by_type(old: StagedForest, new: StagedForest, tr: Seq<char>, ty: Seq<char>,
    methods: Seq<crate::meta_ast::ImplMethodDecl>, i: int)
    requires
        impl_registered(old, new, tr, ty, methods),
        0 <= i < methods.len(),
    ensures
        exists|k: int| old.impl_registry@.len() <= k < new.impl_registry@.len()
            && (#[trigger] new.impl_registry@[k]).0@ == ty && new.impl_registry@[k].1@ == methods[i].name@
            && new.impl_registry@[k].2@ == ty + seq!['_', '_'] + methods[i].name@,
        is_op_trait_name(tr) ==> exists|k: int| old.op_registry@.len() <= k < new.op_registry@.len()
            && (#[trigger] new.op_registry@[k]).0@ == tr && new.op_registry@[k].1@ == ty
            && new.op_registry@[k].2@ == ty + seq!['_', '_'] + methods[i].name@,
{
    let (ks, os) = choose|ks: Seq<int>, os: Seq<int>| #[trigger] registered_at(old, new, tr, ty, methods, ks, os);
    assert(old.impl_registry@.len() <= ks[i] < new.impl_registry@.len());
    assert(impl_entry(new.impl_registry@[ks[i]], ty, methods[i].name@));
    if is_op_trait_name(tr) {
        assert(old.op_registry@.len() <= os[i] < new.op_registry@.len());
        assert(op_entry(new.op_registry@[os[i]], tr, ty, methods[i].name@));
    }
}

/// Whether `name` is one of the operator traits (`Add`, `Sub`, `Mul`,
/// `Div`, `Eq`) whose impls take part in operator dispatch.
pub fn is_operator_trait(name: &String) -> (b: bool)
    ensures
        b == (name@ == seq!['A', 'd', 'd'] || name@ == seq!['S', 'u', 'b'] || name@ == seq!['M', 'u', 'l']
            || name@ == seq!['D', 'i', 'v'] || name@ == seq!['E', 'q']),
{
    proof {
        reveal_strlit("Add");
        reveal_strlit("Sub");
        reveal_strlit("Mul");
        reveal_strlit("Div");
        reveal_strlit("Eq");
        assert("Add"@ =~= seq!['A', 'd', 'd']);
        assert("Sub"@ =~= seq!['S', 'u', 'b']);
        assert("Mul"@ =~= seq!['M', 'u', 'l']);
        assert("Div"@ =~= seq!['D', 'i', 'v']);
        assert("Eq"@ =~= seq!['E', 'q']);
    }
    *name == String::from_str("Add") || *name == String::from_str("Sub") || *name == String::from_str("Mul")
        || *name == String::from_str("Div") || *name == String::from_str("Eq")
}

/// The function name an impl method is staged under: `Type__method`.
pub fn mangled_name(target_type: &String, method: &String) -> (r: String)
    ensures
        r@ == target_type@ + seq!['_', '_'] + method@,
{
    proof { reveal_strlit("__"); }
    let a = concat(target_type.as_str(), "__");
    concat(a.as_str(), method.as_str())
}

/// Stages the methods of an impl as functions named `Type__method`, records
/// each in the impl registry, and the operator ones in the operator registry.
fn process_impl(meta_ast: &MetaAst, trait_name: &String, target_type: &String, methods: &Vec<crate::meta_ast::ImplMethodDecl>,
    staged_ast: &mut StagedAst, id_provider: &mut IdProvider, dependency_set: &mut Vec<ProcessDependency>,
    staged_forest: &mut StagedForest, type_env: &TypeEnv, Ghost(bound): Ghost<nat>)
    -> (r: Result<Vec<StagedNodeId>, MetaProcessError>)
    requires
        meta_ast.acyclic(),
        stage_pre(*old(staged_ast), old(id_provider).counter()),
        forall|i: int| 0 <= i < methods@.len() ==> (#[trigger] methods@[i]).body.0 < bound,
    ensures
        r is Err && id_exhausted(r->Err_0) ==> final(id_provider).counter() == usize::MAX,
        (meta_ast.closed() && (forall|i: int| 0 <= i < methods@.len() ==> meta_ast.stmt_map().contains_key((#[trigger] methods@[i]).body.0))) ==> !(r matches Err(e) && not_found(e)),
        stage_step(*old(staged_ast), *final(staged_ast), old(id_provider).counter(), final(id_provider).counter()),
        final(staged_forest).embedded_files == old(staged_forest).embedded_files,
        final(staged_forest).module_bindings == old(staged_forest).module_bindings,
        registries_grow(*old(staged_forest), *final(staged_forest)),
        match r {
            Ok(v) => v@.len() == methods@.len()
                && forall|i: int| 0 <= i < v@.len() ==> final(staged_ast).stmts@.contains_key(#[trigger] v@[i].0),
            Err(e) => stage_error(*meta_ast, old(staged_forest).embedded_files@, e),
        },
        r is Ok ==> impl_registered(*old(staged_forest), *final(staged_forest), trait_name@, target_type@, methods@),
    decreases bound, 2nat,
{
    let ghost a0 = *staged_ast;
    let ghost c0 = id_provider.counter();
    let is_op = is_operator_trait(trait_name);
    let mut fn_ids: Vec<StagedNodeId> = Vec::new();
    let mut i: usize = 0;
    let ghost mut ks: Seq<int> = Seq::empty();
    let ghost mut os: Seq<int> = Seq::empty();
    while i < methods.len()
        invariant
            is_op == is_op_trait_name(trait_name@),
            registered_at(*old(staged_forest), *staged_forest, trait_name@, target_type@, methods@.take(i as int), ks, os),
            meta_ast.acyclic(),
            i <= methods@.len(),
            fn_ids@.len() == i,
            forall|j: int| 0 <= j < methods@.len() ==> (#[trigger] methods@[j]).body.0 < bound,
            stage_step(a0, *staged_ast, c0, id_provider.counter()),
            a0 == *old(staged_ast),
            c0 == old(id_provider).counter(),
            staged_forest.embedded_files == old(staged_forest).embedded_files,
            staged_forest.module_bindings == old(staged_forest).module_bindings,
            registries_grow(*old(staged_forest), *staged_forest),
            forall|j: int| 0 <= j < fn_ids@.len() ==> staged_ast.stmts@.contains_key(#[trigger] fn_ids@[j].0),
        decreases methods@.len() - i,
    {
        let ghost a1 = *staged_ast;
        let ghost c1 = id_provider.counter();
        let ghost f1 = *staged_forest;
        let method = &methods[i];
        let fn_id = fresh_staged(id_provider)?;
        proof { lemma_step_refl(a1, id_provider.counter() as nat); }
        let body_id = process_stmt(meta_ast, method.body, staged_ast, id_provider, dependency_set, staged_forest, type_env)?;
        let mangled = mangled_name(target_type, &method.name);
        let decl = StagedStmt::FnDecl {
            name: mangled.clone(),
            params: param_names(&method.params),
            type_params: Vec::new(),
            body: body_id,
        };
        put_stmt(staged_ast, fn_id, decl, Ghost(a1), Ghost(id_provider.counter() as nat));
        proof { lemma_stage_step_trans(a0, a1, *staged_ast, c0, c1, id_provider.counter()); }
        fn_ids.push(fn_id);
        let ghost f2 = *staged_forest;
        let ghost ki = staged_forest.impl_registry@.len() as int;
        let ghost oi = staged_forest.op_registry@.len() as int;
        staged_forest.impl_registry.push((target_type.clone(), method.name.clone(), mangled.clone()));
        if is_op {
            staged_forest.op_registry.push((trait_name.clone(), target_type.clone(), mangled));
        }
        proof {
            let ms = methods@.take(i + 1);
            assert(ms.drop_last() =~= methods@.take(i as int));
            assert(ms[i as int] == methods@[i as int]);
            assert(impl_entry(staged_forest.impl_registry@[ki], target_type@, method.name@));
            let nks = ks.push(ki);
            assert forall|j: int| 0 <= j < nks.len() implies old(staged_forest).impl_registry@.len() <= #[trigger] nks[j]
                < staged_forest.impl_registry@.len() && (j > 0 ==> nks[j - 1] < nks[j])
                && impl_entry(staged_forest.impl_registry@[nks[j]], target_type@, ms[j].name@) by {
                if j < ks.len() {
                    assert(nks[j] == ks[j]);
                    assert(ms[j] == methods@.take(i as int)[j]);
                    assert(f2.impl_registry@[ks[j]] == f1.impl_registry@[ks[j]]);
                    assert(staged_forest.impl_registry@[ks[j]] == f2.impl_registry@[ks[j]]);
                    if j > 0 { assert(nks[j - 1] == ks[j - 1]); }
                } else {
                    assert(nks[j] == ki);
                    if j > 0 { assert(nks[j - 1] == ks[j - 1]); }
                }
            }
            if is_op {
                let nos = os.push(oi);
                assert(op_entry(staged_forest.op_registry@[oi], trait_name@, target_type@, method.name@));
                assert forall|j: int| 0 <= j < nos.len() implies old(staged_forest).op_registry@.len() <= #[trigger] nos[j]
                    < staged_forest.op_registry@.len() && (j > 0 ==> nos[j - 1] < nos[j])
                    && op_entry(staged_forest.op_registry@[nos[j]], trait_name@, target_type@, ms[j].name@) by {
                    if j < os.len() {
                        assert(nos[j] == os[j]);
                        assert(ms[j] == methods@.take(i as int)[j]);
                        assert(f2.op_registry@[os[j]] == f1.op_registry@[os[j]]);
                        assert(staged_forest.op_registry@[os[j]] == f2.op_registry@[os[j]]);
                        if j > 0 { assert(nos[j - 1] == os[j - 1]); }
                    } else {
                        assert(nos[j] == oi);
                        if j > 0 { assert(nos[j - 1] == os[j - 1]); }
                    }
                }
                assert(registered_at(*old(staged_forest), *staged_forest, trait_name@, target_type@, ms, nks, nos));
                os = nos;
            } else {
                assert forall|k: int| old(staged_forest).op_registry@.len() <= k < staged_forest.op_registry@.len()
                    implies (#[trigger] staged_forest.op_registry@[k]).0@ != trait_name@ by {
                    assert(staged_forest.op_registry@[k] == f2.op_registry@[k]);
                    if k < f1.op_registry@.len() {
                        assert(f2.op_registry@[k] == f1.op_registry@[k]);
                    } else {
                        assert(is_op_trait_name(f2.op_registry@[k].0@));
                    }
                }
                assert(registered_at(*old(staged_forest), *staged_forest, trait_name@, target_type@, ms, nks, os));
            }
            ks = nks;
        }
        i = i + 1;
    }
    proof { assert(methods@.take(methods@.len() as int) =~= methods@); }
    Ok(fn_ids)
}

/// Stages `roots` into a new tree of the forest, which becomes the forest's
/// root tree, and returns that tree's ID.
fn process_root_inner(meta_ast: &MetaAst, roots: &Vec<MetaNodeId>, staged_forest: &mut StagedForest,
    id_provider: &mut IdProvider, type_env: &TypeEnv, Ghost(bound): Ghost<nat>)
    -> (r: Result<usize, MetaProcessError>)
    requires
        meta_ast.acyclic(),
        forall|i: int| 0 <= i < roots@.len() ==> (#[trigger] roots@[i]).0 < bound,
    ensures
        r is Err && id_exhausted(r->Err_0) ==> final(id_provider).counter() == usize::MAX,
        (meta_ast.closed() && (forall|i: int| 0 <= i < roots@.len() ==> meta_ast.stmt_map().contains_key(#[trigger] roots@[i].0))) ==> !(r matches Err(e) && not_found(e)),
        old(id_provider).counter() <= final(id_provider).counter(),
        final(staged_forest).embedded_files == old(staged_forest).embedded_files,
        final(staged_forest).module_bindings == old(staged_forest).module_bindings,
        registries_grow(*old(staged_forest), *final(staged_forest)),
        match r {
            Ok(id) => final(staged_forest).ast_map@.contains_key(id) && final(staged_forest).root_id == id
                && final(staged_forest).ast_map@[id].sem_root_stmts@.len() == roots@.len()
                && final(staged_forest).dependency_map@.contains_key(id),
            Err(e) => stage_error(*meta_ast, old(staged_forest).embedded_files@, e),
        },
    decreases bound, 3nat,
{
    let mut staged_ast = StagedAst::new();
    let mut dependency_set: Vec<ProcessDependency> = Vec::new();
    let mut sem_root_stmts: Vec<StagedNodeId> = Vec::new();
    let ghost c0 = id_provider.counter();
    let mut i: usize = 0;
    while i < roots.len()
        invariant
            meta_ast.acyclic(),
            i <= roots@.len(),
            sem_root_stmts@.len() == i,
            forall|j: int| 0 <= j < roots@.len() ==> (#[trigger] roots@[j]).0 < bound,
            stage_pre(staged_ast, id_provider.counter() as nat),
            c0 == old(id_provider).counter(),
            c0 <= id_provider.counter(),
            staged_forest.embedded_files == old(staged_forest).embedded_files,
            staged_forest.module_bindings == old(staged_forest).module_bindings,
            registries_grow(*old(staged_forest), *staged_forest),
        decreases roots@.len() - i,
    {
        let id = process_stmt(meta_ast, roots[i], &mut staged_ast, id_provider, &mut dependency_set, staged_forest, type_env)?;
        sem_root_stmts.push(id);
        i = i + 1;
    }
    staged_ast.sem_root_stmts = sem_root_stmts;
    if id_provider.peek() == usize::MAX {
        return Err(MetaProcessError::Unimplemented(String::from_str("node ID space exhausted")));
    }
    let new_ast_id = staged_forest.insert_tree(staged_ast, id_provider);
    staged_forest.insert_deps(dependency_set, new_ast_id);
    staged_forest.root_id = new_ast_id;
    Ok(new_ast_id)
}

/// One more than the largest ID in `ids` (0 for none).
pub open spec fn ids_bound(ids: Seq<MetaNodeId>) -> nat
    decreases ids.len(),
{
    if ids.len() == 0 {
        0
    } else {
        let rest = ids_bound(ids.drop_last());
        let here = ids.last().0 + 1;
        if rest > here { rest } else { here as nat }
    }
}

proof fn lemma_ids_bound(ids: Seq<MetaNodeId>)
    ensures
        forall|i: int| 0 <= i < ids.len() ==> (#[trigger] ids[i]).0 < ids_bound(ids),
    decreases ids.len(),
{
    if ids.len() > 0 {
        lemma_ids_bound(ids.drop_last());
        assert forall|i: int| 0 <= i < ids.len() implies (#[trigger] ids[i]).0 < ids_bound(ids) by {
            if i < ids.len() - 1 {
                assert(ids.drop_last()[i] == ids[i]);
            }
        }
    }
}

/// Stages the statements `root_stmts` of `meta_ast` into a new tree of the
/// forest, records the trees it waits for, makes it the forest's root tree
/// and returns its ID.
pub fn process_root(meta_ast: &MetaAst, root_stmts: Vec<MetaNodeId>, staged_forest: &mut StagedForest,
    id_provider: &mut IdProvider, type_env: &TypeEnv) -> (r: Result<usize, MetaProcessError>)
    requires
        meta_ast.acyclic(),
    ensures
        r is Err && id_exhausted(r->Err_0) ==> final(id_provider).counter() == usize::MAX,
        (meta_ast.closed() && (forall|i: int| 0 <= i < root_stmts@.len() ==> meta_ast.stmt_map().contains_key(#[trigger] root_stmts@[i].0))) ==> !(r matches Err(e) && not_found(e)),
        old(id_provider).counter() <= final(id_provider).counter(),
        final(staged_forest).embedded_files == old(staged_forest).embedded_files,
        final(staged_forest).module_bindings == old(staged_forest).module_bindings,
        registries_grow(*old(staged_forest), *final(staged_forest)),
        match r {
            Ok(id) => final(staged_forest).ast_map@.contains_key(id) && final(staged_forest).root_id == id
                && final(staged_forest).ast_map@[id].sem_root_stmts@.len() == root_stmts@.len()
                && final(staged_forest).dependency_map@.contains_key(id),
            Err(e) => stage_error(*meta_ast, old(staged_forest).embedded_files@, e),
        },
{
    proof { lemma_ids_bound(root_stmts@); }
    process_root_inner(meta_ast, &root_stmts, staged_forest, id_provider, type_env, Ghost(ids_bound(root_stmts@)))
}

// ── Defers ───────────────────────────────────────────────────────────────────

fn copy_ids(v: &Vec<StagedNodeId>) -> (r: Vec<StagedNodeId>)
    ensures
        r@ == v@,
{
    let mut out: Vec<StagedNodeId> = Vec::new();
    let mut i: usize = 0;
    while i < v.len()
        invariant
            i <= v@.len(),
            out@ == v@.subrange(0, i as int),
        decreases v@.len() - i,
    {
        out.push(v[i]);
        proof { assert(out@ =~= v@.subrange(0, i + 1)); }
        i = i + 1;
    }
    proof { assert(out@ =~= v@); }
    out
}

/// Lowers a block's deferred statements (already last-first) into explicit
/// code at every exit: before each `return` found in the statements, and
/// appended at the end of the block.
fn transform_block_with_defers(stmts: Vec<StagedNodeId>, defers_lifo: &Vec<StagedNodeId>, staged_ast: &mut StagedAst,
    id_provider: &mut IdProvider) -> (r: Result<Vec<StagedNodeId>, MetaProcessError>)
    requires
        stage_pre(*old(staged_ast), old(id_provider).counter()),
        forall|i: int| 0 <= i < stmts@.len() ==> old(staged_ast).stmts@.contains_key(#[trigger] stmts@[i].0),
        forall|i: int| 0 <= i < defers_lifo@.len() ==> old(staged_ast).stmts@.contains_key(#[trigger] defers_lifo@[i].0),
    ensures
        r is Err && id_exhausted(r->Err_0) ==> final(id_provider).counter() == usize::MAX,
        stage_step(*old(staged_ast), *final(staged_ast), old(id_provider).counter(), final(id_provider).counter()),
        match r {
            Ok(v) => v@.len() == stmts@.len() + defers_lifo@.len()
                && v@.subrange(stmts@.len() as int, v@.len() as int) == defers_lifo@
                && forall|i: int| 0 <= i < v@.len() ==> final(staged_ast).stmts@.contains_key(#[trigger] v@[i].0),
            Err(e) => id_exhausted(e),
        },
{
    let ghost a0 = *staged_ast;
    let ghost c0 = id_provider.counter();
    let ghost orig = staged_ast.stmts@;
    let ghost rank = choose|r: Map<usize, nat>| crate::staged_ast::ranked_by(orig, r);
    proof { lemma_step_refl(a0, c0 as nat); }
    let mut result: Vec<StagedNodeId> = Vec::new();
    let mut i: usize = 0;
    while i < stmts.len()
        invariant
            i <= stmts@.len(),
            result@.len() == i,
            crate::staged_ast::ranked_by(orig, rank),
            orig == a0.stmts@,
            forall|j: int| 0 <= j < stmts@.len() ==> a0.stmts@.contains_key(#[trigger] stmts@[j].0),
            forall|j: int| 0 <= j < defers_lifo@.len() ==> a0.stmts@.contains_key(#[trigger] defers_lifo@[j].0),
            stage_step(a0, *staged_ast, c0, id_provider.counter()),
            a0 == *old(staged_ast),
            c0 == old(id_provider).counter(),
            forall|j: int| 0 <= j < result@.len() ==> staged_ast.stmts@.contains_key(#[trigger] result@[j].0),
        decreases stmts@.len() - i,
    {
        let ghost a1 = *staged_ast;
        let ghost c1 = id_provider.counter();
        let s = inject_before_returns(stmts[i], defers_lifo, staged_ast, id_provider, Ghost(orig), Ghost(rank))?;
        proof { lemma_stage_step_trans(a0, a1, *staged_ast, c0, c1, id_provider.counter()); }
        result.push(s);
        i = i + 1;
    }
    let ghost head = result@;
    let mut k: usize = 0;
    while k < defers_lifo.len()
        invariant
            k <= defers_lifo@.len(),
            result@ == head + defers_lifo@.subrange(0, k as int),
            head.len() == stmts@.len(),
            forall|j: int| 0 <= j < head.len() ==> staged_ast.stmts@.contains_key(#[trigger] head[j].0),
            forall|j: int| 0 <= j < defers_lifo@.len() ==> a0.stmts@.contains_key(#[trigger] defers_lifo@[j].0),
            stage_step(a0, *staged_ast, c0, id_provider.counter()),
        decreases defers_lifo@.len() - k,
    {
        result.push(defers_lifo[k]);
        proof { assert(result@ =~= head + defers_lifo@.subrange(0, k + 1)); }
        k = k + 1;
    }
    proof {
        assert(defers_lifo@.subrange(0, defers_lifo@.len() as int) =~= defers_lifo@);
        assert(result@.subrange(stmts@.len() as int, result@.len() as int) =~= defers_lifo@);
        assert forall|j: int| 0 <= j < result@.len() implies staged_ast.stmts@.contains_key(#[trigger] result@[j].0) by {
            if j < head.len() {
                assert(result@[j] == head[j]);
            } else {
                assert(result@[j] == defers_lifo@[j - head.len()]);
            }
        }
    }
    Ok(result)
}

/// Stores a statement under an ID drawn after its parts were made.
fn put_stmt_after(staged_ast: &mut StagedAst, sid: StagedNodeId, s: StagedStmt, Ghost(start): Ghost<StagedAst>, Ghost(c0): Ghost<nat>)
    requires
        stage_step(start, *old(staged_ast), c0, sid.0 as nat),
        forall|i: int| 0 <= i < staged_stmt_kids(s).len() ==> old(staged_ast).stmts@.contains_key(#[trigger] staged_stmt_kids(s)[i].0),
    ensures
        stage_step(start, *final(staged_ast), c0, (sid.0 + 1) as nat),
        final(staged_ast).stmts@.contains_key(sid.0),
        final(staged_ast).stmts@[sid.0] == s,
        final(staged_ast).stmts@ == old(staged_ast).stmts@.insert(sid.0, s),
{
    let ghost mid = *staged_ast;
    assert(!mid.stmts@.contains_key(sid.0));
    assert(!start.stmts@.contains_key(sid.0));
    staged_ast.insert_stmt(sid, s);
}

/// `new` is statement `old` of `orig` with the statements `defers` run
/// before every `return` inside it, as `m` holds it: a `return` becomes a
/// block of the deferred statements and then the `return`; a block, a
/// branch, a loop or a match is rebuilt around its rewritten statements;
/// any other statement (a nested function among them) is kept as it is.
pub open spec fn injected(orig: Map<usize, StagedStmt>, rank: Map<usize, nat>, defers: Seq<StagedNodeId>,
    m: Map<usize, StagedStmt>, old: StagedNodeId, new: StagedNodeId) -> bool
    decreases rank[old.0],
{
    &&& m.contains_key(new.0)
    &&& orig.contains_key(old.0)
    &&& match orig[old.0] {
        StagedStmt::Return(_) => m[new.0] matches StagedStmt::Block(b) && b@ == defers.push(old),
        StagedStmt::Block(children) => m[new.0] matches StagedStmt::Block(nc) && nc@.len() == children@.len()
            && forall|i: int| 0 <= i < children@.len() ==> rank[children@[i].0] < rank[old.0]
                && injected(orig, rank, defers, m, #[trigger] children@[i], nc@[i]),
        StagedStmt::If { cond, body, else_branch } =>
            m[new.0] matches StagedStmt::If { cond: c2, body: b2, else_branch: e2 }
            && c2 == cond && rank[body.0] < rank[old.0] && injected(orig, rank, defers, m, body, b2)
            && match else_branch {
                None => e2 is None,
                Some(e) => e2 matches Some(x) && rank[e.0] < rank[old.0] && injected(orig, rank, defers, m, e, x),
            },
        StagedStmt::WhileLoop { cond, body } => m[new.0] matches StagedStmt::WhileLoop { cond: c2, body: b2 }
            && c2 == cond && rank[body.0] < rank[old.0] && injected(orig, rank, defers, m, body, b2),
        StagedStmt::ForEach { iterable, body, .. } => m[new.0] matches StagedStmt::ForEach { iterable: i2, body: b2, .. }
            && i2 == iterable && rank[body.0] < rank[old.0] && injected(orig, rank, defers, m, body, b2),
        StagedStmt::Match { scrutinee, arms } => m[new.0] matches StagedStmt::Match { scrutinee: s2, arms: a2 }
            && s2 == scrutinee && a2@.len() == arms@.len()
            && forall|i: int| 0 <= i < arms@.len() ==> rank[arms@[i].body.0] < rank[old.0]
                && injected(orig, rank, defers, m, #[trigger] arms@[i].body, a2@[i].body),
        _ => new == old,
    }
}

/// A rewrite stays one in a tree that only gained statements.
proof fn lemma_injected_grows(orig: Map<usize, StagedStmt>, rank: Map<usize, nat>, defers: Seq<StagedNodeId>,
    m1: Map<usize, StagedStmt>, m2: Map<usize, StagedStmt>, old: StagedNodeId, new: StagedNodeId)
    requires
        injected(orig, rank, defers, m1, old, new),
        m1.submap_of(m2),
    ensures
        injected(orig, rank, defers, m2, old, new),
    decreases rank[old.0],
{
    assert(m2.contains_key(new.0));
    assert(m2[new.0] == m1[new.0]);
    match orig[old.0] {
        StagedStmt::Block(children) => {
            let nc = m1[new.0]->Block_0;
            assert forall|i: int| 0 <= i < children@.len() implies rank[children@[i].0] < rank[old.0]
                && injected(orig, rank, defers, m2, #[trigger] children@[i], nc@[i]) by {
                lemma_injected_grows(orig, rank, defers, m1, m2, children@[i], nc@[i]);
            }
        },
        StagedStmt::If { body, else_branch, .. } => {
            let b2 = m1[new.0]->If_body;
            lemma_injected_grows(orig, rank, defers, m1, m2, body, b2);
            if let Some(e) = else_branch {
                let x = m1[new.0]->If_else_branch->Some_0;
                lemma_injected_grows(orig, rank, defers, m1, m2, e, x);
            }
        },
        StagedStmt::WhileLoop { body, .. } => {
            lemma_injected_grows(orig, rank, defers, m1, m2, body, m1[new.0]->WhileLoop_body);
        },
        StagedStmt::ForEach { body, .. } => {
            lemma_injected_grows(orig, rank, defers, m1, m2, body, m1[new.0]->ForEach_body);
        },
        StagedStmt::Match { arms, .. } => {
            let a2 = m1[new.0]->Match_arms;
            assert forall|i: int| 0 <= i < arms@.len() implies rank[arms@[i].body.0] < rank[old.0]
                && injected(orig, rank, defers, m2, #[trigger] arms@[i].body, a2@[i].body) by {
                lemma_injected_grows(orig, rank, defers, m1, m2, arms@[i].body, a2@[i].body);
            }
        },
        _ => {},
    }
}

/// What `inject_before_returns` needs of a statement, read before the tree
/// is changed.
enum InjectShape {
    Return,
    Block(Vec<StagedNodeId>),
    If(StagedNodeId, StagedNodeId, Option<StagedNodeId>),
    While(StagedNodeId, StagedNodeId),
    ForEach(ForVar, StagedNodeId, StagedNodeId),
    Match(StagedNodeId, Vec<StagedMatchArm>),
    Other,
}

fn copy_arms(arms: &Vec<StagedMatchArm>) -> (r: Vec<StagedMatchArm>)
    ensures
        r@.len() == arms@.len(),
        forall|i: int| 0 <= i < arms@.len() ==> (#[trigger] r@[i]).body == arms@[i].body,
{
    let mut out: Vec<StagedMatchArm> = Vec::new();
    let mut i: usize = 0;
    while i < arms.len()
        invariant
            i <= arms@.len(),
            out@.len() == i,
            forall|j: int| 0 <= j < i ==> (#[trigger] out@[j]).body == arms@[j].body,
        decreases arms@.len() - i,
    {
        out.push(StagedMatchArm { pattern: arms[i].pattern.clone(), body: arms[i].body });
        i = i + 1;
    }
    out
}

/// A statement that is a `return` or may hold one that leaves the
/// enclosing function: everything but a nested function and the
/// statements without a statement inside.
pub open spec fn returns_may_hide(s: StagedStmt) -> bool {
    s is Return || s is Block || s is If || s is WhileLoop || s is ForEach || s is Match
}

/// Rewrites `stmt_id` so that the deferred statements run before every
/// `return` inside it, looking into blocks, branches, loops and match arms
/// but not into nested functions (a `return` there leaves that function).
fn inject_before_returns(stmt_id: StagedNodeId, defers: &Vec<StagedNodeId>, staged_ast: &mut StagedAst,
    id_provider: &mut IdProvider, Ghost(orig): Ghost<Map<usize, StagedStmt>>, Ghost(rank): Ghost<Map<usize, nat>>)
    -> (r: Result<StagedNodeId, MetaProcessError>)
    requires
        crate::staged_ast::ranked_by(orig, rank),
        orig.submap_of(old(staged_ast).stmts@),
        orig.contains_key(stmt_id.0),
        stage_pre(*old(staged_ast), old(id_provider).counter()),
        forall|i: int| 0 <= i < defers@.len() ==> old(staged_ast).stmts@.contains_key(#[trigger] defers@[i].0),
    ensures
        r is Err && id_exhausted(r->Err_0) ==> final(id_provider).counter() == usize::MAX,
        stage_step(*old(staged_ast), *final(staged_ast), old(id_provider).counter(), final(id_provider).counter()),
        match r {
            Ok(id) => final(staged_ast).stmts@.contains_key(id.0)
                && injected(orig, rank, defers@, final(staged_ast).stmts@, stmt_id, id),
            Err(e) => id_exhausted(e),
        },
        r matches Ok(id) ==> id == stmt_id
            || (old(id_provider).counter() <= id.0 && !old(staged_ast).stmts@.contains_key(id.0)),
        !returns_may_hide(orig[stmt_id.0]) ==> r == Ok::<StagedNodeId, MetaProcessError>(stmt_id)
            && *final(staged_ast) == *old(staged_ast) && final(id_provider).counter() == old(id_provider).counter(),
    decreases rank[stmt_id.0], 1nat,
{
    let ghost a0 = *staged_ast;
    let ghost c0 = id_provider.counter();
    proof { lemma_step_refl(a0, c0 as nat); }
    let ghost kids = staged_stmt_kids(orig[stmt_id.0]);
    assert(orig.dom().contains(stmt_id.0) ==> staged_ast.stmts@.dom().contains(stmt_id.0)
        && orig[stmt_id.0] == staged_ast.stmts@[stmt_id.0]);
    let shape: InjectShape = match staged_ast.get_stmt(stmt_id) {
        Some(StagedStmt::Return(_)) => InjectShape::Return,
        Some(StagedStmt::Block(children)) => InjectShape::Block(copy_ids(children)),
        Some(StagedStmt::If { cond, body, else_branch }) => InjectShape::If(*cond, *body, *else_branch),
        Some(StagedStmt::WhileLoop { cond, body }) => InjectShape::While(*cond, *body),
        Some(StagedStmt::ForEach { var, iterable, body }) => InjectShape::ForEach(var.clone(), *iterable, *body),
        Some(StagedStmt::Match { scrutinee, arms }) => InjectShape::Match(*scrutinee, copy_arms(arms)),
        // a nested function's returns leave that function; other statements hold no return
        _ => InjectShape::Other,
    };
    match shape {
        InjectShape::Return => {
            // { defer1; defer2; ...; return <expr>; }
            let mut block_stmts = copy_ids(defers);
            block_stmts.push(stmt_id);
            proof {
                assert forall|i: int| 0 <= i < block_stmts@.len() implies staged_ast.stmts@.contains_key(#[trigger] block_stmts@[i].0) by {
                    if i < defers@.len() { assert(block_stmts@[i] == defers@[i]); }
                }
            }
            let new_id = fresh_staged(id_provider)?;
            let ghost bs = block_stmts@;
            put_stmt_after(staged_ast, new_id, StagedStmt::Block(block_stmts), Ghost(a0), Ghost(c0 as nat));
            proof {
                assert(orig[stmt_id.0] is Return);
                assert(bs == defers@.push(stmt_id));
                assert(injected(orig, rank, defers@, staged_ast.stmts@, stmt_id, new_id));
            }
            Ok(new_id)
        },
        InjectShape::Block(children) => {
            let new_children = inject_all(&children, defers, staged_ast, id_provider, Ghost(orig), Ghost(rank), Ghost(stmt_id.0))?;
            let ghost m1 = staged_ast.stmts@;
            let ghost nc = new_children@;
            let new_id = fresh_staged(id_provider)?;
            put_stmt_after(staged_ast, new_id, StagedStmt::Block(new_children), Ghost(a0), Ghost(c0 as nat));
            proof {
                assert(m1.submap_of(staged_ast.stmts@));
                let oc = orig[stmt_id.0]->Block_0;
                assert(oc@ == children@);
                assert forall|k: int| 0 <= k < oc@.len() implies rank[oc@[k].0] < rank[stmt_id.0]
                    && injected(orig, rank, defers@, staged_ast.stmts@, #[trigger] oc@[k], nc[k]) by {
                    assert(kids[k] == oc@[k]);
                    lemma_injected_grows(orig, rank, defers@, m1, staged_ast.stmts@, children@[k], nc[k]);
                }
                assert(injected(orig, rank, defers@, staged_ast.stmts@, stmt_id, new_id));
            }
            Ok(new_id)
        },
        InjectShape::If(cond, body, else_branch) => {
            proof { assert(kids[0] == body); assert(orig.contains_key(body.0) && rank[body.0] < rank[stmt_id.0]); }
            let new_body = inject_before_returns(body, defers, staged_ast, id_provider, Ghost(orig), Ghost(rank))?;
            let ghost a1 = *staged_ast;
            let ghost c1 = id_provider.counter();
            let new_else = match else_branch {
                Some(e) => {
                    proof { assert(kids[1] == e); assert(orig.contains_key(e.0) && rank[e.0] < rank[stmt_id.0]); }
                    let x = inject_before_returns(e, defers, staged_ast, id_provider, Ghost(orig), Ghost(rank))?;
                    Some(x)
                },
                None => None,
            };
            proof { lemma_stage_step_trans(a0, a1, *staged_ast, c0 as nat, c1 as nat, id_provider.counter() as nat); }
            let ghost m2 = staged_ast.stmts@;
            let new_id = fresh_staged(id_provider)?;
            put_stmt_after(staged_ast, new_id, StagedStmt::If { cond, body: new_body, else_branch: new_else }, Ghost(a0), Ghost(c0 as nat));
            proof {
                assert(a1.stmts@.submap_of(m2));
                assert(m2.submap_of(staged_ast.stmts@));
                lemma_injected_grows(orig, rank, defers@, a1.stmts@, m2, body, new_body);
                lemma_injected_grows(orig, rank, defers@, m2, staged_ast.stmts@, body, new_body);
                if let Some(e) = else_branch {
                    lemma_injected_grows(orig, rank, defers@, m2, staged_ast.stmts@, e, new_else->Some_0);
                }
                assert(injected(orig, rank, defers@, staged_ast.stmts@, stmt_id, new_id));
            }
            Ok(new_id)
        },
        InjectShape::While(cond, body) => {
            proof { assert(kids[0] == body); assert(orig.contains_key(body.0) && rank[body.0] < rank[stmt_id.0]); }
            let new_body = inject_before_returns(body, defers, staged_ast, id_provider, Ghost(orig), Ghost(rank))?;
            let ghost m1 = staged_ast.stmts@;
            let new_id = fresh_staged(id_provider)?;
            put_stmt_after(staged_ast, new_id, StagedStmt::WhileLoop { cond, body: new_body }, Ghost(a0), Ghost(c0 as nat));
            proof {
                assert(m1.submap_of(staged_ast.stmts@));
                lemma_injected_grows(orig, rank, defers@, m1, staged_ast.stmts@, body, new_body);
                assert(injected(orig, rank, defers@, staged_ast.stmts@, stmt_id, new_id));
            }
            Ok(new_id)
        },
        InjectShape::ForEach(var, iterable, body) => {
            proof { assert(kids[0] == body); assert(orig.contains_key(body.0) && rank[body.0] < rank[stmt_id.0]); }
            let new_body = inject_before_returns(body, defers, staged_ast, id_provider, Ghost(orig), Ghost(rank))?;
            let ghost m1 = staged_ast.stmts@;
            let new_id = fresh_staged(id_provider)?;
            put_stmt_after(staged_ast, new_id, StagedStmt::ForEach { var, iterable, body: new_body }, Ghost(a0), Ghost(c0 as nat));
            proof {
                assert(m1.submap_of(staged_ast.stmts@));
                lemma_injected_grows(orig, rank, defers@, m1, staged_ast.stmts@, body, new_body);
                assert(injected(orig, rank, defers@, staged_ast.stmts@, stmt_id, new_id));
            }
            Ok(new_id)
        },
        InjectShape::Match(scrutinee, arms) => {
            let mut new_arms: Vec<StagedMatchArm> = Vec::new();
            let mut i: usize = 0;
            let ghost oa = orig[stmt_id.0]->Match_arms@;
            while i < arms.len()
                invariant
                    orig[stmt_id.0] is Match,
                    oa == orig[stmt_id.0]->Match_arms@,
                    oa.len() == arms@.len(),
                    forall|j: int| 0 <= j < arms@.len() ==> (#[trigger] arms@[j]).body == oa[j].body,
                    forall|j: int| 0 <= j < new_arms@.len() ==> injected(orig, rank, defers@, staged_ast.stmts@,
                        arms@[j].body, (#[trigger] new_arms@[j]).body),
                    i <= arms@.len(),
                    new_arms@.len() == i,
                    kids == staged_stmt_kids(orig[stmt_id.0]),
                    staged_stmt_kids(orig[stmt_id.0]) == crate::staged_ast::staged_arm_ids(arms@),
                    crate::staged_ast::ranked_by(orig, rank),
                    orig.contains_key(stmt_id.0),
                    orig.submap_of(staged_ast.stmts@),
                    forall|j: int| 0 <= j < defers@.len() ==> staged_ast.stmts@.contains_key(#[trigger] defers@[j].0),
                    stage_step(a0, *staged_ast, c0 as nat, id_provider.counter() as nat),
                    a0 == *old(staged_ast),
                    c0 == old(id_provider).counter(),
                    forall|j: int| 0 <= j < new_arms@.len() ==> staged_ast.stmts@.contains_key(#[trigger] new_arms@[j].body.0),
                decreases arms@.len() - i,
            {
                let ghost a1 = *staged_ast;
                let ghost c1 = id_provider.counter();
                proof {
                    assert(crate::staged_ast::staged_arm_ids(arms@)[i as int] == arms@[i as int].body);
                    assert(orig.contains_key(arms@[i as int].body.0) && rank[arms@[i as int].body.0] < rank[stmt_id.0]);
                }
                let b = inject_before_returns(arms[i].body, defers, staged_ast, id_provider, Ghost(orig), Ghost(rank))?;
                proof {
                    lemma_stage_step_trans(a0, a1, *staged_ast, c0 as nat, c1 as nat, id_provider.counter() as nat);
                    assert forall|j: int| 0 <= j < new_arms@.len() implies injected(orig, rank, defers@, staged_ast.stmts@,
                        arms@[j].body, (#[trigger] new_arms@[j]).body) by {
                        lemma_injected_grows(orig, rank, defers@, a1.stmts@, staged_ast.stmts@, arms@[j].body, new_arms@[j].body);
                    }
                }
                let ghost before = new_arms@;
                new_arms.push(StagedMatchArm { pattern: arms[i].pattern.clone(), body: b });
                proof {
                    assert forall|j: int| 0 <= j < new_arms@.len() implies injected(orig, rank, defers@, staged_ast.stmts@,
                        arms@[j].body, (#[trigger] new_arms@[j]).body) by {
                        if j < before.len() { assert(new_arms@[j] == before[j]); }
                    }
                }
                i = i + 1;
            }
            let new_id = fresh_staged(id_provider)?;
            let ghost st = StagedStmt::Match { scrutinee, arms: new_arms };
            proof {
                assert forall|i: int| 0 <= i < staged_stmt_kids(st).len() implies staged_ast.stmts@.contains_key(#[trigger] staged_stmt_kids(st)[i].0) by {
                    assert(staged_stmt_kids(st)[i] == new_arms@[i].body);
                }
            }
            let ghost m1 = staged_ast.stmts@;
            let ghost na = new_arms@;
            put_stmt_after(staged_ast, new_id, StagedStmt::Match { scrutinee, arms: new_arms }, Ghost(a0), Ghost(c0 as nat));
            proof {
                assert(m1.submap_of(staged_ast.stmts@));
                assert forall|k: int| 0 <= k < oa.len() implies rank[oa[k].body.0] < rank[stmt_id.0]
                    && injected(orig, rank, defers@, staged_ast.stmts@, #[trigger] oa[k].body, na[k].body) by {
                    assert(crate::staged_ast::staged_arm_ids(oa)[k] == oa[k].body);
                    assert(kids[k] == oa[k].body);
                    assert(injected(orig, rank, defers@, m1, arms@[k].body, na[k].body));
                    lemma_injected_grows(orig, rank, defers@, m1, staged_ast.stmts@, arms@[k].body, na[k].body);
                }
                assert(injected(orig, rank, defers@, staged_ast.stmts@, stmt_id, new_id));
            }
            Ok(new_id)
        },
        InjectShape::Other => {
            proof {
                assert(staged_ast.stmts@.contains_key(stmt_id.0));
                assert(injected(orig, rank, defers@, staged_ast.stmts@, stmt_id, stmt_id));
            }
            Ok(stmt_id)
        },
    }
}

/// `inject_before_returns` on each statement of a block.
fn inject_all(children: &Vec<StagedNodeId>, defers: &Vec<StagedNodeId>, staged_ast: &mut StagedAst, id_provider: &mut IdProvider,
    Ghost(orig): Ghost<Map<usize, StagedStmt>>, Ghost(rank): Ghost<Map<usize, nat>>, Ghost(parent): Ghost<usize>)
    -> (r: Result<Vec<StagedNodeId>, MetaProcessError>)
    requires
        crate::staged_ast::ranked_by(orig, rank),
        orig.submap_of(old(staged_ast).stmts@),
        orig.contains_key(parent),
        forall|i: int| 0 <= i < children@.len() ==> orig.contains_key((#[trigger] children@[i]).0)
            && rank[children@[i].0] < rank[parent],
        stage_pre(*old(staged_ast), old(id_provider).counter()),
        forall|i: int| 0 <= i < defers@.len() ==> old(staged_ast).stmts@.contains_key(#[trigger] defers@[i].0),
    ensures
        r is Err && id_exhausted(r->Err_0) ==> final(id_provider).counter() == usize::MAX,
        stage_step(*old(staged_ast), *final(staged_ast), old(id_provider).counter(), final(id_provider).counter()),
        match r {
            Ok(v) => v@.len() == children@.len()
                && forall|i: int| 0 <= i < v@.len() ==> final(staged_ast).stmts@.contains_key(#[trigger] v@[i].0)
                    && injected(orig, rank, defers@, final(staged_ast).stmts@, children@[i], v@[i]),
            Err(e) => id_exhausted(e),
        },
    decreases rank[parent], 0nat,
{
    let ghost a0 = *staged_ast;
    let ghost c0 = id_provider.counter();
    proof { lemma_step_refl(a0, c0 as nat); }
    let mut out: Vec<StagedNodeId> = Vec::new();
    let mut i: usize = 0;
    while i < children.len()
        invariant
            i <= children@.len(),
            out@.len() == i,
            crate::staged_ast::ranked_by(orig, rank),
            orig.contains_key(parent),
            forall|j: int| 0 <= j < children@.len() ==> orig.contains_key((#[trigger] children@[j]).0)
                && rank[children@[j].0] < rank[parent],
            orig.submap_of(staged_ast.stmts@),
            forall|j: int| 0 <= j < defers@.len() ==> staged_ast.stmts@.contains_key(#[trigger] defers@[j].0),
            stage_step(a0, *staged_ast, c0 as nat, id_provider.counter() as nat),
            a0 == *old(staged_ast),
            c0 == old(id_provider).counter(),
            forall|j: int| 0 <= j < out@.len() ==> staged_ast.stmts@.contains_key(#[trigger] out@[j].0)
                && injected(orig, rank, defers@, staged_ast.stmts@, children@[j], out@[j]),
        decreases children@.len() - i,
    {
        let ghost a1 = *staged_ast;
        let ghost c1 = id_provider.counter();
        let c = inject_before_returns(children[i], defers, staged_ast, id_provider, Ghost(orig), Ghost(rank))?;
        proof {
            lemma_stage_step_trans(a0, a1, *staged_ast, c0 as nat, c1 as nat, id_provider.counter() as nat);
            assert forall|j: int| 0 <= j < out@.len() implies staged_ast.stmts@.contains_key(#[trigger] out@[j].0)
                && injected(orig, rank, defers@, staged_ast.stmts@, children@[j], out@[j]) by {
                lemma_injected_grows(orig, rank, defers@, a1.stmts@, staged_ast.stmts@, children@[j], out@[j]);
            }
        }
        let ghost before = out@;
        out.push(c);
        proof {
            assert forall|j: int| 0 <= j < out@.len() implies staged_ast.stmts@.contains_key(#[trigger] out@[j].0)
                && injected(orig, rank, defers@, staged_ast.stmts@, children@[j], out@[j]) by {
                if j < before.len() { assert(out@[j] == before[j]); }
            }
        }
        i = i + 1;
    }
    Ok(out)
}


// ── Whole programs ───────────────────────────────────────────────────────────

/// The part of `s` after its last `/` (all of it when there is none).
pub open spec fn after_last_slash(s: Seq<char>) -> Seq<char>
    decreases s.len(),
{
    if s.len() == 0 {
        s
    } else if s.last() == '/' {
        Seq::empty()
    } else {
        after_last_slash(s.drop_last()).push(s.last())
    }
}

fn last_slash_end(s: &str) -> (r: usize)
    ensures
        r <= s@.len(),
        s@.subrange(r as int, s@.len() as int) == after_last_slash(s@),
{
    let n = s.unicode_len();
    let mut k: usize = n;
    proof { assert(s@.subrange(n as int, n as int) =~= Seq::<char>::empty()); }
    while k > 0 && s.get_char(k - 1) != '/'
        invariant
            k <= n,
            n == s@.len(),
            forall|j: int| k <= j < n ==> #[trigger] s@[j] != '/',
        decreases k,
    {
        k = k - 1;
    }
    proof { lemma_after_last_slash(s@, k as int); }
    k
}

proof fn lemma_after_last_slash(s: Seq<char>, k: int)
    requires
        0 <= k <= s.len(),
        k == 0 || s[k - 1] == '/',
        forall|j: int| k <= j < s.len() ==> #[trigger] s[j] != '/',
    ensures
        s.subrange(k, s.len() as int) == after_last_slash(s),
    decreases s.len(),
{
    if s.len() == 0 {
        assert(s.subrange(k, 0) =~= s);
    } else if k == s.len() {
        assert(s.last() == '/');
        assert(s.subrange(k, s.len() as int) =~= Seq::<char>::empty());
    } else {
        assert(s.last() != '/');
        lemma_after_last_slash(s.drop_last(), k);
        assert(s.subrange(k, s.len() as int) =~= s.drop_last().subrange(k, s.len() - 1).push(s.last()));
    }
}

/// The module name an import path binds: its last component without `.cx`.
/// `"util"`, `"util.cx"` and `"dir/util"` all give `util`.
pub open spec fn path_stem_text(path: Seq<char>) -> Seq<char> {
    let name = after_last_slash(path);
    if crate::module_loader::has_cx_suffix(name) { name.subrange(0, name.len() - 3) } else { name }
}

/// The module name an import path binds.
pub fn path_stem(path: &str) -> (r: String)
    ensures
        r@ == path_stem_text(path@),
{
    let start = last_slash_end(path);
    let n = path.unicode_len();
    let name = path.substring_char(start, n);
    let m = name.unicode_len();
    let cx = m >= 3 && name.get_char(m - 3) == '.' && name.get_char(m - 2) == 'c' && name.get_char(m - 1) == 'x';
    proof {
        let nm = name@;
        if cx {
            assert(nm.subrange(m - 3, m as int) =~= seq!['.', 'c', 'x']);
        } else if m >= 3 && nm.subrange(m - 3, m as int) == seq!['.', 'c', 'x'] {
            assert(nm.subrange(m - 3, m as int)[0] == nm[m - 3]);
            assert(nm.subrange(m - 3, m as int)[1] == nm[m - 2]);
            assert(nm.subrange(m - 3, m as int)[2] == nm[m - 1]);
        }
    }
    if cx {
        String::from_str(name.substring_char(0, m - 3))
    } else {
        String::from_str(name)
    }
}

/// The stem of a file path, as `Path::file_stem` gives it: the last
/// component without its last extension (a leading dot is no extension).
pub open spec fn file_stem_text(path: Seq<char>) -> Seq<char> {
    let name = after_last_slash(path);
    if exists|d: int| 0 < d < name.len() && name[d] == '.' {
        let d = choose|d: int| 0 < d < name.len() && name[d] == '.' && forall|e: int| d < e < name.len() ==> name[e] != '.';
        name.subrange(0, d)
    } else {
        name
    }
}

/// The stem of a file path.
pub fn file_stem(path: &str) -> (r: String)
    ensures
        r@ == file_stem_text(path@),
{
    let start = last_slash_end(path);
    let n = path.unicode_len();
    let name = path.substring_char(start, n);
    let m = name.unicode_len();
    let mut d: usize = m;
    while d > 0 && name.get_char(d - 1) != '.'
        invariant
            d <= m,
            m == name@.len(),
            forall|e: int| d <= e < m ==> #[trigger] name@[e] != '.',
        decreases d,
    {
        d = d - 1;
    }
    // `d - 1` is the last dot, if there is one
    if d >= 2 {
        proof {
            let nm = name@;
            let dd = (d - 1) as int;
            assert(nm[dd] == '.' && forall|e: int| dd < e < nm.len() ==> nm[e] != '.');
            let c = choose|c: int| 0 < c < nm.len() && nm[c] == '.' && forall|e: int| c < e < nm.len() ==> nm[e] != '.';
            if c < dd { assert(nm[dd] != '.'); }
            if c > dd { assert(nm[c] != '.'); }
        }
        String::from_str(name.substring_char(0, d - 1))
    } else {
        proof {
            let nm = name@;
            if exists|c: int| 0 < c < nm.len() && nm[c] == '.' {
                let c = choose|c: int| 0 < c < nm.len() && nm[c] == '.';
                assert(c >= d);
                assert(nm[c] != '.');
            }
        }
        String::from_str(name)
    }
}

/// The statements of an imported file that are staged: declarations of
/// functions and structs, and meta blocks.
pub open spec fn exportable(s: MetaStmt) -> bool {
    s is FnDecl || s is StructDecl || s is MetaBlock
}

/// Whether statement `stmt_id` of `ast` is one staged from an imported file.
pub fn is_exportable_stmt(ast: &MetaAst, stmt_id: MetaNodeId) -> (b: bool)
    ensures
        b == (ast.stmt_map().contains_key(stmt_id.0) && exportable(ast.stmt_map()[stmt_id.0])),
{
    match ast.get_stmt(stmt_id) {
        Some(MetaStmt::FnDecl { .. }) | Some(MetaStmt::StructDecl { .. }) | Some(MetaStmt::MetaBlock(_)) => true,
        _ => false,
    }
}

/// The name a function, meta function or struct declaration exports.
fn export_name(s: &MetaStmt) -> (r: Option<String>)
    ensures
        match export_of(*s) {
            Some(n) => r matches Some(x) && x@ == n,
            None => r is None,
        },
{
    match s {
        MetaStmt::FnDecl { name, .. } => Some(name.clone()),
        MetaStmt::MetaFnDecl { name, .. } => Some(name.clone()),
        MetaStmt::StructDecl { name, .. } => Some(name.clone()),
        _ => None,
    }
}

/// The names a file exports: its top-level functions, meta functions and structs.
fn file_exports(ast: &MetaAst) -> (r: Vec<String>)
    ensures
        str_views(r@) == exports_of(*ast, ast.roots()),
{
    let roots = ast.root_stmts();
    let mut out: Vec<String> = Vec::new();
    let mut i: usize = 0;
    proof { assert(str_views(out@) =~= exports_of(*ast, roots@.take(0))); }
    while i < roots.len()
        invariant
            i <= roots@.len(),
            roots@ == ast.roots(),
            str_views(out@) == exports_of(*ast, roots@.take(i as int)),
        decreases roots@.len() - i,
    {
        proof { assert(roots@.take(i + 1).drop_last() =~= roots@.take(i as int)); }
        let ghost before = out@;
        if let Some(s) = ast.get_stmt(roots[i]) {
            if let Some(n) = export_name(s) {
                out.push(n);
                proof { assert(str_views(out@) =~= str_views(before).push(n@)); }
            }
        }
        i = i + 1;
    }
    proof { assert(roots@.take(roots@.len() as int) =~= roots@); }
    out
}

fn lookup_exports<'a>(table: &'a Vec<(String, Vec<String>)>, stem: &String) -> (r: Option<&'a Vec<String>>)
    ensures
        match r {
            Some(v) => exists|i: int| 0 <= i < table@.len() && #[trigger] table@[i].0@ == stem@ && table@[i].1 == *v
                && forall|j: int| i < j < table@.len() ==> (#[trigger] table@[j]).0@ != stem@,
            None => forall|i: int| 0 <= i < table@.len() ==> (#[trigger] table@[i]).0@ != stem@,
        },
{
    // the entry added last wins
    let mut i: usize = table.len();
    while i > 0
        invariant
            i <= table@.len(),
            forall|j: int| i <= j < table@.len() ==> (#[trigger] table@[j]).0@ != stem@,
        decreases i,
    {
        if table[i - 1].0 == *stem {
            return Some(&table[i - 1].1);
        }
        i = i - 1;
    }
    None
}

fn contains_string(v: &Vec<String>, s: &String) -> (b: bool)
    ensures
        b == exists|i: int| 0 <= i < v@.len() && #[trigger] v@[i]@ == s@,
{
    let mut i: usize = 0;
    while i < v.len()
        invariant
            i <= v@.len(),
            forall|j: int| 0 <= j < i ==> #[trigger] v@[j]@ != s@,
        decreases v@.len() - i,
    {
        if v[i] == *s {
            return true;
        }
        i = i + 1;
    }
    false
}

/// Every file's tree may be staged: its references go to smaller IDs.
pub open spec fn files_stageable(files: Seq<LoadedFile>) -> bool {
    forall|i: int| 0 <= i < files.len() ==> (#[trigger] files[i]).ast.acyclic()
}

/// The name a top-level declaration exports: a function's, a meta
/// function's or a struct's.
pub open spec fn export_of(s: MetaStmt) -> Option<Seq<char>> {
    match s {
        MetaStmt::FnDecl { name, .. } => Some(name@),
        MetaStmt::MetaFnDecl { name, .. } => Some(name@),
        MetaStmt::StructDecl { name, .. } => Some(name@),
        _ => None,
    }
}

/// The names the statements `roots` of `ast` export, in order.
pub open spec fn exports_of(ast: MetaAst, roots: Seq<MetaNodeId>) -> Seq<Seq<char>>
    decreases roots.len(),
{
    if roots.len() == 0 {
        Seq::empty()
    } else {
        let rest = exports_of(ast, roots.drop_last());
        let id = roots.last();
        if ast.stmt_map().contains_key(id.0) && export_of(ast.stmt_map()[id.0]) is Some {
            rest.push(export_of(ast.stmt_map()[id.0])->0)
        } else {
            rest
        }
    }
}

/// The names the staged declarations among `roots` of `ast` export: its
/// functions and structs, in order.
pub open spec fn staged_exports_of(ast: MetaAst, roots: Seq<MetaNodeId>) -> Seq<Seq<char>>
    decreases roots.len(),
{
    if roots.len() == 0 {
        Seq::empty()
    } else {
        let rest = staged_exports_of(ast, roots.drop_last());
        let id = roots.last();
        if ast.stmt_map().contains_key(id.0) && exportable(ast.stmt_map()[id.0])
            && export_of(ast.stmt_map()[id.0]) is Some {
            rest.push(export_of(ast.stmt_map()[id.0])->0)
        } else {
            rest
        }
    }
}

/// The names of a namespace binding's exports.
pub open spec fn export_names(ex: Seq<(String, StagedNodeId)>) -> Seq<Seq<char>> {
    ex.map_values(|p: (String, StagedNodeId)| p.0@)
}

/// The files imported by name (not the entry, not the standard library),
/// in order, with the import that names each.
pub open spec fn explicit_files(files: Seq<LoadedFile>) -> Seq<(ImportDecl, MetaAst)>
    decreases files.len(),
{
    if files.len() == 0 {
        Seq::empty()
    } else {
        let rest = explicit_files(files.drop_last());
        match files.last().role {
            FileRole::Explicit(d) => rest.push((d, files.last().ast)),
            _ => rest,
        }
    }
}

/// `b` is the binding a file imported by `decl`, exporting `exports`, gets:
/// its namespace under the path's stem or the alias, or the selected names.
pub open spec fn binding_for(decl: ImportDecl, exports: Seq<Seq<char>>, b: ModuleBinding) -> bool {
    match decl {
        ImportDecl::Qualified { path } => b matches ModuleBinding::Namespace { bind_name, exports: ex }
            && bind_name@ == path_stem_text(path@) && export_names(ex@) == exports,
        ImportDecl::Aliased { alias, .. } => b matches ModuleBinding::Namespace { bind_name, exports: ex }
            && bind_name@ == alias@ && export_names(ex@) == exports,
        ImportDecl::Selective { names, .. } => b matches ModuleBinding::Selective { names: n }
            && strings_view(n@) == strings_view(names@),
        ImportDecl::Wildcard { .. } => true,
    }
}

/// Each file imported by name got its binding, in order, after `start`.
pub open spec fn explicit_bound(files: Seq<LoadedFile>, bindings: Seq<ModuleBinding>, start: int) -> bool {
    let ex = explicit_files(files);
    &&& start + ex.len() <= bindings.len()
    &&& forall|k: int| 0 <= k < ex.len() ==> binding_for(ex[k].0, staged_exports_of(ex[k].1, ex[k].1.roots()),
            #[trigger] bindings[start + k])
}

/// The name an `import "path"` or `import "path" as alias` statement binds.
pub open spec fn import_bind_name(ast: MetaAst, id: MetaNodeId) -> Option<Seq<char>> {
    if ast.stmt_map().contains_key(id.0) {
        match ast.stmt_map()[id.0] {
            MetaStmt::Import(ImportDecl::Qualified { path }) => Some(path_stem_text(path@)),
            MetaStmt::Import(ImportDecl::Aliased { alias, .. }) => Some(alias@),
            _ => None,
        }
    } else {
        None
    }
}

/// Some top-level import of a file other than the entry binds `name`.
pub open spec fn imported_by(files: Seq<LoadedFile>, name: Seq<char>) -> bool {
    exists|g: int, j: int| 0 <= g < files.len() && files[g].role !is Entry && 0 <= j < files[g].ast.roots().len()
        && #[trigger] import_bind_name(files[g].ast, files[g].ast.roots()[j]) == Some(name)
}

/// Some file's path has the stem `name`.
pub open spec fn has_stem(files: Seq<LoadedFile>, name: Seq<char>) -> bool {
    exists|t: int| 0 <= t < files.len() && #[trigger] file_stem_text(files[t].path@) == name
}

/// `names` are the exports of the last file whose path has the stem `name`.
pub open spec fn last_stem_exports(files: Seq<LoadedFile>, name: Seq<char>, names: Seq<Seq<char>>) -> bool {
    exists|t: int| 0 <= t < files.len() && #[trigger] file_stem_text(files[t].path@) == name
        && names == exports_of(files[t].ast, files[t].ast.roots())
        && forall|u: int| t < u < files.len() ==> file_stem_text(#[trigger] files[u].path@) != name
}

/// The name a namespace binding binds.
pub open spec fn namespace_name(b: ModuleBinding) -> Option<Seq<char>> {
    match b {
        ModuleBinding::Namespace { bind_name, .. } => Some(bind_name@),
        ModuleBinding::NamespaceByName { bind_name, .. } => Some(bind_name@),
        ModuleBinding::Selective { .. } => None,
    }
}

/// From `start` on, the bindings are by name: each for a name that an import
/// of a file other than the entry binds, that no `Namespace` binding before
/// `start` and no other of them binds, with the exports of the last file of
/// that stem. Every such imported name that is some file's stem is bound.
pub open spec fn extras_bound(files: Seq<LoadedFile>, mb: Seq<ModuleBinding>, start: int) -> bool {
    &&& 0 <= start <= mb.len()
    &&& forall|k: int| start <= k < mb.len() ==> (#[trigger] mb[k] matches ModuleBinding::NamespaceByName { bind_name, names }
        && imported_by(files, bind_name@) && last_stem_exports(files, bind_name@, str_views(names@))
        && (forall|m: int| #![trigger mb[m]] 0 <= m < start ==> !(mb[m] matches ModuleBinding::Namespace { bind_name: b2, .. } && b2@ == bind_name@))
        && (forall|m: int| #![trigger mb[m]] start <= m < k ==> namespace_name(mb[m]) != Some(bind_name@)))
    &&& forall|n: Seq<char>| #[trigger] imported_by(files, n) && has_stem(files, n)
        ==> exists|m: int| 0 <= m < mb.len() && namespace_name(#[trigger] mb[m]) == Some(n)
}

/// Each file's path stem and exports, in file order.
spec fn table_ok(files: Seq<LoadedFile>, table: Seq<(String, Vec<String>)>) -> bool {
    &&& table.len() == files.len()
    &&& forall|k: int| 0 <= k < files.len() ==> (#[trigger] table[k]).0@ == file_stem_text(files[k].path@)
        && str_views(table[k].1@) == exports_of(files[k].ast, files[k].ast.roots())
}

/// A `Namespace` binding among the first `upto` binds `n`.
spec fn ns_bound(mb: Seq<ModuleBinding>, upto: int, n: Seq<char>) -> bool {
    exists|m: int| 0 <= m < upto && (#[trigger] mb[m] matches ModuleBinding::Namespace { bind_name, .. } && bind_name@ == n)
}

spec fn extras_good(files: Seq<LoadedFile>, mb: Seq<ModuleBinding>, ex: Seq<ModuleBinding>) -> bool {
    forall|k: int| 0 <= k < ex.len() ==> (#[trigger] ex[k] matches ModuleBinding::NamespaceByName { bind_name, names }
        && imported_by(files, bind_name@) && last_stem_exports(files, bind_name@, str_views(names@))
        && !ns_bound(mb, mb.len() as int, bind_name@)
        && (forall|m: int| #![trigger ex[m]] 0 <= m < k ==> namespace_name(ex[m]) != Some(bind_name@)))
}

spec fn bound_set_ok(ab: Seq<Seq<char>>, mb: Seq<ModuleBinding>, ex: Seq<ModuleBinding>) -> bool {
    forall|n: Seq<char>| #[trigger] ab.contains(n) <==> (ns_bound(mb, mb.len() as int, n)
        || exists|k: int| 0 <= k < ex.len() && namespace_name(#[trigger] ex[k]) == Some(n))
}

/// Every import among the first statements scanned (all of the files before
/// `f`, the first `i` of file `f`) whose name is a file stem is bound.
spec fn scanned_bound(files: Seq<LoadedFile>, ab: Seq<Seq<char>>, f: int, i: int) -> bool {
    forall|g: int, j: int| 0 <= g < files.len() && files[g].role !is Entry && 0 <= j < files[g].ast.roots().len()
        && (g < f || (g == f && j < i))
        && (#[trigger] import_bind_name(files[g].ast, files[g].ast.roots()[j])) is Some
        && has_stem(files, import_bind_name(files[g].ast, files[g].ast.roots()[j])->0)
        ==> ab.contains(import_bind_name(files[g].ast, files[g].ast.roots()[j])->0)
}

/// The statements among `roots` of `ast` that an imported file contributes
/// to the program (declarations and meta blocks), in order.
pub open spec fn exportable_roots(ast: MetaAst, roots: Seq<MetaNodeId>) -> Seq<(MetaAst, MetaNodeId)>
    decreases roots.len(),
{
    if roots.len() == 0 {
        Seq::empty()
    } else {
        let rest = exportable_roots(ast, roots.drop_last());
        let id = roots.last();
        if ast.stmt_map().contains_key(id.0) && exportable(ast.stmt_map()[id.0]) {
            rest.push((ast, id))
        } else {
            rest
        }
    }
}

/// The statements the files other than the entry contribute, file by file.
pub open spec fn imported_sources(files: Seq<LoadedFile>) -> Seq<(MetaAst, MetaNodeId)>
    decreases files.len(),
{
    if files.len() == 0 {
        Seq::empty()
    } else {
        let rest = imported_sources(files.drop_last());
        if files.last().role is Entry {
            rest
        } else {
            rest + exportable_roots(files.last().ast, files.last().ast.roots())
        }
    }
}

/// The top-level statements `roots` of `ast`, each with its tree.
pub open spec fn with_tree(ast: MetaAst, roots: Seq<MetaNodeId>) -> Seq<(MetaAst, MetaNodeId)> {
    roots.map_values(|id: MetaNodeId| (ast, id))
}

/// The statements `sem` of `tree` are, in order, staged forms of the
/// statements `src`.
pub open spec fn staged_in_order(src: Seq<(MetaAst, MetaNodeId)>, sem: Seq<StagedNodeId>, tree: StagedAst) -> bool {
    &&& sem.len() == src.len()
    &&& forall|k: int| 0 <= k < sem.len() ==> #[trigger] tree.stmts@.contains_key(sem[k].0)
        && src[k].0.stmt_map().contains_key(src[k].1.0)
        && stmt_shape(src[k].0.stmt_map()[src[k].1.0], tree.stmts@[sem[k].0])
}

/// The correspondence depends on the tree's statements alone.
proof fn lemma_staged_in_order_same(src: Seq<(MetaAst, MetaNodeId)>, sem: Seq<StagedNodeId>, t1: StagedAst, t2: StagedAst)
    requires
        staged_in_order(src, sem, t1),
        t2.stmts == t1.stmts,
    ensures
        staged_in_order(src, sem, t2),
{
}

/// Staging one more statement in order keeps the correspondence.
proof fn lemma_staged_push(src: Seq<(MetaAst, MetaNodeId)>, sem: Seq<StagedNodeId>, tree0: StagedAst, tree: StagedAst,
    ast: MetaAst, id: MetaNodeId, sid: StagedNodeId)
    requires
        staged_in_order(src, sem, tree0),
        tree0.stmts@.submap_of(tree.stmts@),
        tree.stmts@.contains_key(sid.0),
        ast.stmt_map().contains_key(id.0),
        stmt_shape(ast.stmt_map()[id.0], tree.stmts@[sid.0]),
    ensures
        staged_in_order(src.push((ast, id)), sem.push(sid), tree),
{
    let s2 = src.push((ast, id));
    let m2 = sem.push(sid);
    assert forall|k: int| 0 <= k < m2.len() implies #[trigger] tree.stmts@.contains_key(m2[k].0)
        && s2[k].0.stmt_map().contains_key(s2[k].1.0)
        && stmt_shape(s2[k].0.stmt_map()[s2[k].1.0], tree.stmts@[m2[k].0]) by {
        if k < sem.len() {
            assert(m2[k] == sem[k]);
            assert(s2[k] == src[k]);
            assert(tree0.stmts@.contains_key(sem[k].0));
            assert(tree.stmts@.contains_key(sem[k].0));
        }
    }
}

/// Pushing an error keeps "every ID-exhausted error came with the counter
/// at its limit" when the new one does too.
proof fn lemma_exhausted_push(errs: Seq<MetaProcessError>, e: MetaProcessError, counter: nat)
    requires
        forall|k: int| 0 <= k < errs.len() && id_exhausted(#[trigger] errs[k]) ==> counter == usize::MAX,
        id_exhausted(e) ==> counter == usize::MAX,
    ensures
        forall|k: int| 0 <= k < errs.push(e).len() && id_exhausted(#[trigger] errs.push(e)[k]) ==> counter == usize::MAX,
{
    assert forall|k: int| 0 <= k < errs.push(e).len() && id_exhausted(#[trigger] errs.push(e)[k]) implies counter == usize::MAX by {
        if k < errs.len() {
            assert(errs.push(e)[k] == errs[k]);
        }
    }
}

/// `i` is the first entry file.
pub open spec fn first_entry(files: Seq<LoadedFile>, i: int) -> bool {
    0 <= i < files.len() && files[i].role is Entry && forall|j: int| 0 <= j < i ==> (#[trigger] files[j]).role !is Entry
}

/// Every file's tree is closed and holds its top-level statements.
pub open spec fn files_whole(files: Seq<LoadedFile>) -> bool {
    forall|i: int| 0 <= i < files.len() ==> (#[trigger] files[i]).ast.closed()
        && present(files[i].ast.roots(), files[i].ast.stmt_map())
}

/// Stages all files of a compilation unit into one tree, the forest's root.
///
/// Imported files come first: their function and struct declarations and
/// their meta blocks (nothing else) are staged into the root tree, so they
/// exist at run time. Each explicitly imported file gives a module
/// binding; imports among imported files that no binding covers yet (circular
/// or transitive ones) give bindings by name. The entry file's statements are
/// then staged, all of them. Errors are collected over all statements.
#[verifier::spinoff_prover]
pub fn stage_all_files(files: &[LoadedFile], staged_forest: &mut StagedForest, id_provider: &mut IdProvider,
    type_env: &TypeEnv) -> (r: Result<usize, Vec<MetaProcessError>>)
    requires
        files_stageable(files@),
        exists|i: int| 0 <= i < files@.len() && (#[trigger] files@[i]).role is Entry,
        forall|i: int| 0 <= i < files@.len() ==> !((#[trigger] files@[i]).role matches FileRole::Explicit(ImportDecl::Wildcard { .. })),
    ensures
        final(staged_forest).embedded_files == old(staged_forest).embedded_files,
        old(id_provider).counter() <= final(id_provider).counter(),
        match r {
            Ok(root) => final(staged_forest).root_id == root && final(staged_forest).ast_map@.contains_key(root),
            Err(errors) => errors@.len() > 0 && forall|i: int| 0 <= i < errors@.len() ==> exists|j: int|
                0 <= j < files@.len() && stage_error(files@[j].ast, old(staged_forest).embedded_files@, #[trigger] errors@[i]),
        },
        files_whole(files@) ==> (r matches Err(errors) ==> forall|i: int| 0 <= i < errors@.len() ==> !not_found(#[trigger] errors@[i])),
        r matches Err(errors) ==> forall|i: int| 0 <= i < errors@.len() && id_exhausted(#[trigger] errors@[i])
            ==> final(id_provider).counter() == usize::MAX,
        r is Ok ==> explicit_bound(files@, final(staged_forest).module_bindings@, old(staged_forest).module_bindings@.len() as int),
        forall|e: int| #[trigger] first_entry(files@, e) ==> (r matches Ok(root) ==> staged_in_order(
            imported_sources(files@) + with_tree(files@[e].ast, files@[e].ast.roots()),
            final(staged_forest).ast_map@[root].sem_root_stmts@, final(staged_forest).ast_map@[root])),
        extras_bound(files@, final(staged_forest).module_bindings@,
            old(staged_forest).module_bindings@.len() + explicit_files(files@).len() as int),
        forall|k: int| 0 <= k < old(staged_forest).module_bindings@.len()
            ==> #[trigger] final(staged_forest).module_bindings@[k] == old(staged_forest).module_bindings@[k],
{
    let mut entry_index: usize = 0;
    while entry_index < files.len() && !files[entry_index].role.is_entry()
        invariant
            entry_index <= files@.len(),
            forall|j: int| 0 <= j < entry_index ==> (#[trigger] files@[j]).role !is Entry,
        decreases files@.len() - entry_index,
    {
        entry_index = entry_index + 1;
    }
    let entry = &files[entry_index];

    let mut staged_ast = StagedAst::new();
    let mut dependency_set: Vec<ProcessDependency> = Vec::new();
    let mut sem_root_stmts: Vec<StagedNodeId> = Vec::new();
    let mut errors: Vec<MetaProcessError> = Vec::new();

    // path stem → exports, for every file (used for transitive bindings)
    let mut exports_by_stem: Vec<(String, Vec<String>)> = Vec::new();
    let mut f: usize = 0;
    while f < files.len()
        invariant
            f <= files@.len(),
            table_ok(files@.take(f as int), exports_by_stem@),
        decreases files@.len() - f,
    {
        exports_by_stem.push((file_stem(files[f].path.as_str()), file_exports(&files[f].ast)));
        f = f + 1;
    }
    proof { assert(files@.take(files@.len() as int) =~= files@); }

    // imported files first: their declarations join the root tree
    let mut f: usize = 0;
    while f < files.len()
        invariant
            f <= files@.len(),
            files_stageable(files@),
            forall|i: int| 0 <= i < files@.len() ==> !((#[trigger] files@[i]).role matches FileRole::Explicit(ImportDecl::Wildcard { .. })),
            stage_pre(staged_ast, id_provider.counter() as nat),
            old(id_provider).counter() <= id_provider.counter(),
            staged_forest.embedded_files == old(staged_forest).embedded_files,
            forall|i: int| 0 <= i < errors@.len() ==> exists|j: int|
                0 <= j < files@.len() && stage_error(files@[j].ast, old(staged_forest).embedded_files@, #[trigger] errors@[i]),
            files_whole(files@) ==> forall|k: int| 0 <= k < errors@.len() ==> !not_found(#[trigger] errors@[k]),
            forall|k: int| 0 <= k < errors@.len() && id_exhausted(#[trigger] errors@[k]) ==> id_provider.counter() == usize::MAX,
            forall|k: int| 0 <= k < old(staged_forest).module_bindings@.len()
                ==> #[trigger] staged_forest.module_bindings@[k] == old(staged_forest).module_bindings@[k],
            staged_forest.module_bindings@.len() == old(staged_forest).module_bindings@.len()
                + explicit_files(files@.take(f as int)).len(),
            errors@.len() == 0 ==> explicit_bound(files@.take(f as int), staged_forest.module_bindings@,
                old(staged_forest).module_bindings@.len() as int),
            errors@.len() == 0 ==> staged_in_order(imported_sources(files@.take(f as int)), sem_root_stmts@, staged_ast),
        decreases files@.len() - f,
    {
        let file = &files[f];
        assert(files@[f as int].ast.acyclic());
        if !file.role.is_entry() {
            let roots = file.ast.root_stmts();
            let mut exports: Vec<(String, StagedNodeId)> = Vec::new();
            let mut i: usize = 0;
            let ghost e0 = errors@.len();
            let ghost mb0 = staged_forest.module_bindings;
            let ghost src0 = if e0 == 0 { imported_sources(files@.take(f as int)) } else { Seq::empty() };
            proof {
                assert(exportable_roots(file.ast, roots@.take(0)) =~= Seq::<(MetaAst, MetaNodeId)>::empty());
                assert(src0 + Seq::<(MetaAst, MetaNodeId)>::empty() =~= src0);
            }
            proof { assert(export_names(exports@) =~= staged_exports_of(file.ast, roots@.take(0))); }
            while i < roots.len()
                invariant
                    i <= roots@.len(),
                    file.ast.acyclic(),
                    *file == files@[f as int],
                    f < files@.len(),
                    stage_pre(staged_ast, id_provider.counter() as nat),
                    old(id_provider).counter() <= id_provider.counter(),
                    staged_forest.embedded_files == old(staged_forest).embedded_files,
                    forall|k: int| 0 <= k < errors@.len() ==> exists|j: int|
                        0 <= j < files@.len() && stage_error(files@[j].ast, old(staged_forest).embedded_files@, #[trigger] errors@[k]),
                    files_whole(files@) ==> forall|k: int| 0 <= k < errors@.len() ==> !not_found(#[trigger] errors@[k]),
            forall|k: int| 0 <= k < errors@.len() && id_exhausted(#[trigger] errors@[k]) ==> id_provider.counter() == usize::MAX,
                    roots@ == file.ast.roots(),
                    errors@.len() >= e0,
                    errors@.len() == e0 ==> export_names(exports@) == staged_exports_of(file.ast, roots@.take(i as int)),
                    staged_forest.module_bindings == mb0,
                    e0 == 0 && errors@.len() == e0 ==> staged_in_order(src0 + exportable_roots(file.ast, roots@.take(i as int)),
                        sem_root_stmts@, staged_ast),
                    e0 == 0 ==> src0 == imported_sources(files@.take(f as int)),
                decreases roots@.len() - i,
            {
                let id = roots[i];
                let ghost before = exports@;
                let ghost sem_before = sem_root_stmts@;
                let ghost tree_before = staged_ast;
                proof {
                    assert(roots@.take(i + 1).drop_last() =~= roots@.take(i as int));
                    assert(roots@.take(i + 1).last() == roots@[i as int]);
                }
                if is_exportable_stmt(&file.ast, id) {
                    match process_stmt(&file.ast, id, &mut staged_ast, id_provider, &mut dependency_set, staged_forest, type_env) {
                        Ok(sid) => {
                            sem_root_stmts.push(sid);
                            proof {
                                id_provider.lemma_counter_bounded();
                                if e0 == 0 && errors@.len() == e0 {
                                    let src = src0 + exportable_roots(file.ast, roots@.take(i + 1));
                                    let srcb = src0 + exportable_roots(file.ast, roots@.take(i as int));
                                    assert(src =~= srcb.push((file.ast, id)));
                                    assert(sem_root_stmts@ =~= sem_before.push(sid));
                                    lemma_staged_push(srcb, sem_before, tree_before, staged_ast, file.ast, id, sid);
                                }
                            }
                            if let Some(s) = file.ast.get_stmt(id) {
                                if let Some(n) = export_name(s) {
                                    exports.push((n, sid));
                                    proof { assert(export_names(exports@) =~= export_names(before).push(n@)); }
                                }
                            }
                        },
                        Err(e) => {
                            let ghost eb = errors@;
                            errors.push(e);
                            proof {
                                id_provider.lemma_counter_bounded();
                                lemma_exhausted_push(eb, e, id_provider.counter() as nat);
                            }
                        },
                    }
                }
                i = i + 1;
            }
            proof { assert(roots@.take(roots@.len() as int) =~= roots@); }
            let ghost mb1 = staged_forest.module_bindings@;
            if let FileRole::Explicit(decl) = &file.role {
                let binding = match decl {
                    ImportDecl::Qualified { path } => ModuleBinding::Namespace { bind_name: path_stem(path.as_str()), exports },
                    ImportDecl::Aliased { alias, .. } => ModuleBinding::Namespace { bind_name: alias.clone(), exports },
                    ImportDecl::Selective { names, .. } => ModuleBinding::Selective { names: clone_strings(names) },
                    // wildcard imports are expanded before staging
                    ImportDecl::Wildcard { .. } => ModuleBinding::Selective { names: Vec::new() },
                };
                staged_forest.module_bindings.push(binding);
            }
            proof {
                assert(files@.take(f + 1).drop_last() =~= files@.take(f as int));
                assert(files@.take(f + 1).last() == files@[f as int]);
                if errors@.len() == 0 {
                    assert(imported_sources(files@.take(f + 1)) == imported_sources(files@.take(f as int))
                        + exportable_roots(file.ast, file.ast.roots()));
                }
            }
        } else {
            proof {
                assert(files@.take(f + 1).drop_last() =~= files@.take(f as int));
                assert(files@.take(f + 1).last() == files@[f as int]);
                assert(imported_sources(files@.take(f + 1)) == imported_sources(files@.take(f as int)));
            }
        }
        proof {
            assert(files@.take(f + 1).drop_last() =~= files@.take(f as int));
            let ex = explicit_files(files@.take(f + 1));
            let prev = explicit_files(files@.take(f as int));
            if errors@.len() == 0 {
                assert forall|k: int| 0 <= k < ex.len() implies binding_for(ex[k].0, staged_exports_of(ex[k].1, ex[k].1.roots()),
                    #[trigger] staged_forest.module_bindings@[old(staged_forest).module_bindings@.len() + k]) by {
                    if k < prev.len() {
                        assert(ex[k] == prev[k]);
                    }
                }
            }
        }
        f = f + 1;
    }

    proof { assert(files@.take(files@.len() as int) =~= files@); }

    // imports among imported files that no binding covers yet (circular or
    // transitive ones) are bound by name
    let ghost mbe = staged_forest.module_bindings@;
    let mut already_bound: Vec<String> = Vec::new();
    let mut b: usize = 0;
    while b < staged_forest.module_bindings.len()
        invariant
            b <= staged_forest.module_bindings@.len(),
            staged_forest.module_bindings@ == mbe,
            forall|n: Seq<char>| #[trigger] str_views(already_bound@).contains(n) <==> ns_bound(mbe, b as int, n),
        decreases staged_forest.module_bindings@.len() - b,
    {
        let ghost before = str_views(already_bound@);
        if let ModuleBinding::Namespace { bind_name, .. } = &staged_forest.module_bindings[b] {
            already_bound.push(bind_name.clone());
            proof {
                let bn = bind_name@;
                assert(str_views(already_bound@) =~= before.push(bn));
                assert(mbe[b as int] matches ModuleBinding::Namespace { bind_name: q, .. } && q@ == bn);
                assert forall|n: Seq<char>| #[trigger] str_views(already_bound@).contains(n) implies ns_bound(mbe, b + 1, n) by {
                    let t = choose|t: int| 0 <= t < str_views(already_bound@).len() && str_views(already_bound@)[t] == n;
                    if t < before.len() {
                        assert(before[t] == n);
                        assert(before.contains(n));
                        let m = choose|m: int| 0 <= m < b && (#[trigger] mbe[m] matches ModuleBinding::Namespace { bind_name, .. } && bind_name@ == n);
                        assert(0 <= m < b + 1);
                    } else {
                        assert(n == bn);
                        assert(0 <= b < b + 1);
                    }
                }
                assert forall|n: Seq<char>| ns_bound(mbe, b + 1, n) implies #[trigger] str_views(already_bound@).contains(n) by {
                    let m = choose|m: int| 0 <= m < b + 1 && (#[trigger] mbe[m] matches ModuleBinding::Namespace { bind_name, .. } && bind_name@ == n);
                    if m < b {
                        assert(ns_bound(mbe, b as int, n));
                        assert(before.contains(n));
                        let t = choose|t: int| 0 <= t < before.len() && before[t] == n;
                        assert(str_views(already_bound@)[t] == n);
                    } else {
                        assert(n == bn);
                        assert(str_views(already_bound@)[before.len() as int] == n);
                    }
                }
            }
        } else {
            proof {
                assert forall|n: Seq<char>| #[trigger] str_views(already_bound@).contains(n) <==> ns_bound(mbe, b + 1, n) by {
                    if ns_bound(mbe, b + 1, n) {
                        let m = choose|m: int| 0 <= m < b + 1 && (#[trigger] mbe[m] matches ModuleBinding::Namespace { bind_name, .. } && bind_name@ == n);
                        assert(ns_bound(mbe, b as int, n));
                    }
                }
            }
        }
        b = b + 1;
    }
    let mut extra_bindings: Vec<ModuleBinding> = Vec::new();
    let mut f: usize = 0;
    while f < files.len()
        invariant
            f <= files@.len(),
            table_ok(files@, exports_by_stem@),
            extras_good(files@, mbe, extra_bindings@),
            bound_set_ok(str_views(already_bound@), mbe, extra_bindings@),
            scanned_bound(files@, str_views(already_bound@), f as int, 0),
        decreases files@.len() - f,
    {
        let file = &files[f];
        if !file.role.is_entry() {
            let roots = file.ast.root_stmts();
            let mut i: usize = 0;
            while i < roots.len()
                invariant
                    i <= roots@.len(),
                    f < files@.len(),
                    *file == files@[f as int],
                    files@[f as int].role !is Entry,
                    roots@ == file.ast.roots(),
                    table_ok(files@, exports_by_stem@),
                    extras_good(files@, mbe, extra_bindings@),
                    bound_set_ok(str_views(already_bound@), mbe, extra_bindings@),
                    scanned_bound(files@, str_views(already_bound@), f as int, i as int),
                decreases roots@.len() - i,
            {
                let bind_name = match file.ast.get_stmt(roots[i]) {
                    Some(MetaStmt::Import(ImportDecl::Qualified { path })) => Some(path_stem(path.as_str())),
                    Some(MetaStmt::Import(ImportDecl::Aliased { alias, .. })) => Some(alias.clone()),
                    _ => None,
                };
                let ghost here = import_bind_name(files@[f as int].ast, files@[f as int].ast.roots()[i as int]);
                assert(match bind_name { Some(b) => here == Some(b@), None => here is None });
                let ghost ab0 = str_views(already_bound@);
                let ghost ex0 = extra_bindings@;
                if let Some(bind_name) = bind_name {
                    if contains_string(&already_bound, &bind_name) {
                        proof {
                            let k = choose|k: int| 0 <= k < already_bound@.len() && #[trigger] already_bound@[k]@ == bind_name@;
                            assert(str_views(already_bound@)[k] == bind_name@);
                        }
                    } else {
                        let ghost bn0 = bind_name@;
                        let found = lookup_exports(&exports_by_stem, &bind_name);
                        if found.is_none() {
                            proof {
                                assert(!has_stem(files@, bn0)) by {
                                    if has_stem(files@, bn0) {
                                        let t = choose|t: int| 0 <= t < files@.len() && #[trigger] file_stem_text(files@[t].path@) == bn0;
                                        assert(exports_by_stem@[t].0@ == bn0);
                                    }
                                }
                            }
                        }
                        if let Some(exports) = found {
                            let names = clone_strings(exports);
                            let entry_binding = ModuleBinding::NamespaceByName { bind_name: bind_name.clone(), names };
                            extra_bindings.push(entry_binding);
                            already_bound.push(bind_name);
                            proof {
                                let nb = extra_bindings@.last();
                                let bn = nb->NamespaceByName_bind_name@;
                                assert(imported_by(files@, bn)) by {
                                    assert(import_bind_name(files@[f as int].ast, files@[f as int].ast.roots()[i as int]) == Some(bn));
                                }
                                assert(last_stem_exports(files@, bn, str_views(nb->NamespaceByName_names@))) by {
                                    let t = choose|t: int| 0 <= t < exports_by_stem@.len() && #[trigger] exports_by_stem@[t].0@ == bn
                                        && exports_by_stem@[t].1 == *exports
                                        && forall|j: int| t < j < exports_by_stem@.len() ==> (#[trigger] exports_by_stem@[j]).0@ != bn;
                                    assert(file_stem_text(files@[t].path@) == bn);
                                    assert forall|u: int| t < u < files@.len() implies file_stem_text(#[trigger] files@[u].path@) != bn by {
                                        assert(exports_by_stem@[u].0@ != bn);
                                    }
                                }
                                assert(!ab0.contains(bn)) by {
                                    if ab0.contains(bn) {
                                        let t = choose|t: int| 0 <= t < ab0.len() && ab0[t] == bn;
                                        assert(already_bound@.len() > 0);
                                    }
                                }
                                assert(str_views(already_bound@) =~= ab0.push(bn));
                                assert forall|k: int| 0 <= k < extra_bindings@.len() implies (#[trigger] extra_bindings@[k] matches ModuleBinding::NamespaceByName { bind_name, names }
                                    && imported_by(files@, bind_name@) && last_stem_exports(files@, bind_name@, str_views(names@))
                                    && !ns_bound(mbe, mbe.len() as int, bind_name@)
                                    && (forall|m: int| #![trigger extra_bindings@[m]] 0 <= m < k ==> namespace_name(extra_bindings@[m]) != Some(bind_name@))) by {
                                    if k < ex0.len() {
                                        assert(extra_bindings@[k] == ex0[k]);
                                        assert forall|m: int| #![trigger extra_bindings@[m]] 0 <= m < k implies namespace_name(extra_bindings@[m]) != Some(extra_bindings@[k]->NamespaceByName_bind_name@) by {
                                            assert(extra_bindings@[m] == ex0[m]);
                                        }
                                    } else {
                                        assert forall|m: int| #![trigger extra_bindings@[m]] 0 <= m < k implies namespace_name(extra_bindings@[m]) != Some(bn) by {
                                            assert(extra_bindings@[m] == ex0[m]);
                                            assert(namespace_name(ex0[m]) != Some(bn));
                                        }
                                    }
                                }
                                assert forall|n: Seq<char>| #[trigger] str_views(already_bound@).contains(n) <==> (ns_bound(mbe, mbe.len() as int, n)
                                    || exists|k: int| 0 <= k < extra_bindings@.len() && namespace_name(#[trigger] extra_bindings@[k]) == Some(n)) by {
                                    if n == bn {
                                        assert(str_views(already_bound@)[ab0.len() as int] == n);
                                        assert(namespace_name(extra_bindings@[ex0.len() as int]) == Some(n));
                                    } else {
                                        if str_views(already_bound@).contains(n) {
                                            let t = choose|t: int| 0 <= t < str_views(already_bound@).len() && str_views(already_bound@)[t] == n;
                                            assert(ab0[t] == n);
                                        }
                                        if exists|k: int| 0 <= k < extra_bindings@.len() && namespace_name(#[trigger] extra_bindings@[k]) == Some(n) {
                                            let k = choose|k: int| 0 <= k < extra_bindings@.len() && namespace_name(#[trigger] extra_bindings@[k]) == Some(n);
                                            assert(extra_bindings@[k] == ex0[k]);
                                        }
                                        if ab0.contains(n) {
                                            let t = choose|t: int| 0 <= t < ab0.len() && ab0[t] == n;
                                            assert(str_views(already_bound@)[t] == n);
                                        }
                                        if exists|k: int| 0 <= k < ex0.len() && namespace_name(#[trigger] ex0[k]) == Some(n) {
                                            let k = choose|k: int| 0 <= k < ex0.len() && namespace_name(#[trigger] ex0[k]) == Some(n);
                                            assert(extra_bindings@[k] == ex0[k]);
                                        }
                                    }
                                }
                                assert(str_views(already_bound@)[ab0.len() as int] == bn);
                            }
                        }
                    }
                }
                proof {
                    assert forall|n: Seq<char>| ab0.contains(n) implies #[trigger] str_views(already_bound@).contains(n) by {
                        let t = choose|t: int| 0 <= t < ab0.len() && ab0[t] == n;
                        assert(str_views(already_bound@)[t] == n);
                    }
                    if here is Some && has_stem(files@, here->0) {
                        let n = here->0;
                        let t = choose|t: int| 0 <= t < files@.len() && #[trigger] file_stem_text(files@[t].path@) == n;
                        assert(exports_by_stem@[t].0@ == n);
                        assert(str_views(already_bound@).contains(n));
                    }
                    assert forall|g: int, j: int| 0 <= g < files@.len() && files@[g].role !is Entry && 0 <= j < files@[g].ast.roots().len()
                        && (g < f || (g == f && j < i + 1))
                        && (#[trigger] import_bind_name(files@[g].ast, files@[g].ast.roots()[j])) is Some
                        && has_stem(files@, import_bind_name(files@[g].ast, files@[g].ast.roots()[j])->0)
                        implies str_views(already_bound@).contains(import_bind_name(files@[g].ast, files@[g].ast.roots()[j])->0) by {
                        if g == f && j == i {
                        } else {
                            assert(ab0.contains(import_bind_name(files@[g].ast, files@[g].ast.roots()[j])->0));
                        }
                    }
                }
                i = i + 1;
            }
        }
        proof {
            assert forall|g: int, j: int| 0 <= g < files@.len() && files@[g].role !is Entry && 0 <= j < files@[g].ast.roots().len()
                && (g < f + 1 || (g == f + 1 && j < 0))
                && (#[trigger] import_bind_name(files@[g].ast, files@[g].ast.roots()[j])) is Some
                && has_stem(files@, import_bind_name(files@[g].ast, files@[g].ast.roots()[j])->0)
                implies str_views(already_bound@).contains(import_bind_name(files@[g].ast, files@[g].ast.roots()[j])->0) by {
            }
        }
        f = f + 1;
    }
    let ghost mb2 = staged_forest.module_bindings@;
    let ghost ex_final = extra_bindings@;
    let ghost ab_final = already_bound@;
    assert(mb2 == mbe);
    staged_forest.module_bindings.append(&mut extra_bindings);
    proof {
        let ex = explicit_files(files@);
        let l0 = old(staged_forest).module_bindings@.len() as int;
        let mb = staged_forest.module_bindings@;
        assert(mb == mb2 + ex_final);
        if errors@.len() == 0 {
            assert forall|k: int| 0 <= k < ex.len() implies binding_for(ex[k].0, staged_exports_of(ex[k].1, ex[k].1.roots()),
                #[trigger] staged_forest.module_bindings@[l0 + k]) by {
                assert(staged_forest.module_bindings@[l0 + k] == mb2[l0 + k]);
            }
        }
        assert forall|k: int| 0 <= k < l0 implies #[trigger] staged_forest.module_bindings@[k] == old(staged_forest).module_bindings@[k] by {
            assert(staged_forest.module_bindings@[k] == mb2[k]);
        }
        assert(errors@.len() == 0 ==> explicit_bound(files@, staged_forest.module_bindings@, l0));
        let start = mb2.len() as int;
        assert forall|k: int| start <= k < mb.len() implies (#[trigger] mb[k] matches ModuleBinding::NamespaceByName { bind_name, names }
            && imported_by(files@, bind_name@) && last_stem_exports(files@, bind_name@, str_views(names@))
            && (forall|m: int| #![trigger mb[m]] 0 <= m < start ==> !(mb[m] matches ModuleBinding::Namespace { bind_name: b2, .. } && b2@ == bind_name@))
            && (forall|m: int| #![trigger mb[m]] start <= m < k ==> namespace_name(mb[m]) != Some(bind_name@))) by {
            assert(mb[k] == ex_final[k - start]);
            let bn = ex_final[k - start]->NamespaceByName_bind_name@;
            assert forall|m: int| #![trigger mb[m]] 0 <= m < start implies !(mb[m] matches ModuleBinding::Namespace { bind_name: b2, .. } && b2@ == bn) by {
                assert(mb[m] == mbe[m]);
                if mb[m] matches ModuleBinding::Namespace { bind_name: b2, .. } && b2@ == bn {
                    assert(ns_bound(mbe, mbe.len() as int, bn));
                }
            }
            assert forall|m: int| #![trigger mb[m]] start <= m < k implies namespace_name(mb[m]) != Some(bn) by {
                assert(mb[m] == ex_final[m - start]);
            }
        }
        assert forall|n: Seq<char>| #[trigger] imported_by(files@, n) && has_stem(files@, n)
            implies exists|m: int| 0 <= m < mb.len() && namespace_name(#[trigger] mb[m]) == Some(n) by {
            let (g, j) = choose|g: int, j: int| 0 <= g < files@.len() && files@[g].role !is Entry && 0 <= j < files@[g].ast.roots().len()
                && #[trigger] import_bind_name(files@[g].ast, files@[g].ast.roots()[j]) == Some(n);
            assert(str_views(ab_final).contains(n));
            if ns_bound(mbe, mbe.len() as int, n) {
                let m = choose|m: int| 0 <= m < mbe.len() && (#[trigger] mbe[m] matches ModuleBinding::Namespace { bind_name, .. } && bind_name@ == n);
                assert(mb[m] == mbe[m]);
            } else {
                let k = choose|k: int| 0 <= k < ex_final.len() && namespace_name(#[trigger] ex_final[k]) == Some(n);
                assert(mb[start + k] == ex_final[k]);
            }
        }
        assert(extras_bound(files@, mb, start));
        assert(start == l0 + ex.len());
    }
    let ghost e3 = errors@.len();

    // the entry file's statements, all of them
    assert(files@[entry_index as int].ast.acyclic());
    let roots = entry.ast.root_stmts();
    let mut i: usize = 0;
    let ghost mb3 = staged_forest.module_bindings;
    let ghost isrc = imported_sources(files@);
    proof {
        assert(with_tree(entry.ast, roots@.take(0)) =~= Seq::<(MetaAst, MetaNodeId)>::empty());
        assert(isrc + Seq::<(MetaAst, MetaNodeId)>::empty() =~= isrc);
    }
    while i < roots.len()
        invariant
            staged_forest.module_bindings == mb3,
            errors@.len() >= e3,
            isrc == imported_sources(files@),
            e3 == 0 && errors@.len() == 0 ==> staged_in_order(isrc + with_tree(entry.ast, roots@.take(i as int)),
                sem_root_stmts@, staged_ast),
            i <= roots@.len(),
            entry.ast.acyclic(),
            *entry == files@[entry_index as int],
            entry_index < files@.len(),
            stage_pre(staged_ast, id_provider.counter() as nat),
            old(id_provider).counter() <= id_provider.counter(),
            staged_forest.embedded_files == old(staged_forest).embedded_files,
            forall|k: int| 0 <= k < errors@.len() ==> exists|j: int|
                0 <= j < files@.len() && stage_error(files@[j].ast, old(staged_forest).embedded_files@, #[trigger] errors@[k]),
            files_whole(files@) ==> forall|k: int| 0 <= k < errors@.len() ==> !not_found(#[trigger] errors@[k]),
            forall|k: int| 0 <= k < errors@.len() && id_exhausted(#[trigger] errors@[k]) ==> id_provider.counter() == usize::MAX,
            roots@ == entry.ast.roots(),
        decreases roots@.len() - i,
    {
        let ghost sem_before = sem_root_stmts@;
        let ghost tree_before = staged_ast;
        match process_stmt(&entry.ast, roots[i], &mut staged_ast, id_provider, &mut dependency_set, staged_forest, type_env) {
            Ok(sid) => {
                sem_root_stmts.push(sid);
                proof {
                    id_provider.lemma_counter_bounded();
                    if e3 == 0 && errors@.len() == 0 {
                        let src = isrc + with_tree(entry.ast, roots@.take(i + 1));
                        let srcb = isrc + with_tree(entry.ast, roots@.take(i as int));
                        assert(with_tree(entry.ast, roots@.take(i + 1)) =~= with_tree(entry.ast, roots@.take(i as int)).push((entry.ast, roots@[i as int])));
                        assert(src =~= srcb.push((entry.ast, roots@[i as int])));
                        assert(sem_root_stmts@ =~= sem_before.push(sid));
                        lemma_staged_push(srcb, sem_before, tree_before, staged_ast, entry.ast, roots@[i as int], sid);
                    }
                }
            },
            Err(e) => {
                let ghost eb = errors@;
                errors.push(e);
                proof {
                    id_provider.lemma_counter_bounded();
                    lemma_exhausted_push(eb, e, id_provider.counter() as nat);
                }
            },
        }
        i = i + 1;
    }
    proof { assert(roots@.take(roots@.len() as int) =~= roots@); }

    if errors.len() > 0 {
        return Err(errors);
    }
    let ghost sem_final = sem_root_stmts@;
    let ghost tree_final = staged_ast;
    staged_ast.sem_root_stmts = sem_root_stmts;
    if id_provider.peek() == usize::MAX {
        let mut errs: Vec<MetaProcessError> = Vec::new();
        errs.push(MetaProcessError::Unimplemented(String::from_str("node ID space exhausted")));
        proof { assert(stage_error(files@[0].ast, old(staged_forest).embedded_files@, errs@[0])); }
        return Err(errs);
    }
    let ghost root_tree = staged_ast;
    proof {
        assert(e3 == 0);
        assert(staged_in_order(isrc + with_tree(entry.ast, roots@), sem_final, tree_final));
        assert(root_tree.sem_root_stmts@ == sem_final);
        assert(root_tree.stmts == tree_final.stmts);
        lemma_staged_in_order_same(isrc + with_tree(entry.ast, roots@), sem_final, tree_final, root_tree);
    }
    let root_id = staged_forest.insert_tree(staged_ast, id_provider);
    staged_forest.insert_deps(dependency_set, root_id);
    staged_forest.root_id = root_id;
    proof {
        assert forall|e: int| #[trigger] first_entry(files@, e) implies staged_in_order(
            imported_sources(files@) + with_tree(files@[e].ast, files@[e].ast.roots()),
            staged_forest.ast_map@[root_id].sem_root_stmts@, staged_forest.ast_map@[root_id]) by {
            if e < entry_index {
                assert(files@[e].role !is Entry);
            }
            if e > entry_index {
                assert(files@[entry_index as int].role !is Entry);
            }
            assert(e == entry_index);
            assert(staged_forest.ast_map@[root_id] == root_tree);
        }
    }
    Ok(root_id)
}

} // verus!
