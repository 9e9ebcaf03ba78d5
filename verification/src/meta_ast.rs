use vstd::prelude::*;
use std::collections::HashMap;
use crate::id_provider::IdProvider;
use crate::node_id::MetaNodeId;
use crate::keys::{max_key, keys_of};
use crate::text::strings_view;

verus! {

broadcast use vstd::std_specs::hash::group_hash_axioms;

/// Loop variable binding in a `for` statement.
#[derive(Debug, Clone)]
pub enum ForVar {
    /// `for (x in ...)` binds a single name.
    Name(String),
    /// `for ((a, b) in ...)` destructures a tuple element.
    Tuple(Vec<String>),
}

/// A type expression in source position (payloads, annotations, return types).
#[derive(Debug)]
pub enum MetaTypeExpr {
    Named(String),
    App(String, Vec<MetaTypeExpr>),
    Tuple(Vec<MetaTypeExpr>),
    Slice(Box<MetaTypeExpr>),
}

fn clone_type_exprs(v: &Vec<MetaTypeExpr>) -> (r: Vec<MetaTypeExpr>)
    ensures
        same_type_exprs(v@, r@),
    decreases v, 0nat,
{
    let mut out: Vec<MetaTypeExpr> = Vec::new();
    let mut i: usize = 0;
    proof { assert(v@.subrange(0, 0) =~= Seq::<MetaTypeExpr>::empty()); }
    while i < v.len()
        invariant
            i <= v@.len(),
            same_type_exprs(v@.subrange(0, i as int), out@),
        decreases v@.len() - i,
    {
        let c = clone_type_expr(&v[i]);
        let ghost before = out@;
        out.push(c);
        proof {
            assert(v@.subrange(0, i + 1).drop_last() =~= v@.subrange(0, i as int));
            assert(out@.drop_last() =~= before);
        }
        i = i + 1;
    }
    proof { assert(v@.subrange(0, v@.len() as int) =~= v@); }
    out
}

/// `a` and `b` are the same type expression: equal names, and the same
/// elements in their argument lists.
pub open spec fn same_type_expr(a: MetaTypeExpr, b: MetaTypeExpr) -> bool
    decreases a, 1nat,
{
    match a {
        MetaTypeExpr::Named(x) => b matches MetaTypeExpr::Named(y) && x == y,
        MetaTypeExpr::App(x, xs) => b matches MetaTypeExpr::App(y, ys) && x == y && same_type_exprs(xs@, ys@),
        MetaTypeExpr::Tuple(xs) => b matches MetaTypeExpr::Tuple(ys) && same_type_exprs(xs@, ys@),
        MetaTypeExpr::Slice(x) => b matches MetaTypeExpr::Slice(y) && same_type_expr(*x, *y),
    }
}

/// `a` and `b` hold the same type expressions, in order.
pub open spec fn same_type_exprs(a: Seq<MetaTypeExpr>, b: Seq<MetaTypeExpr>) -> bool
    decreases a, 0nat,
{
    &&& a.len() == b.len()
    &&& a.len() > 0 ==> same_type_exprs(a.drop_last(), b.drop_last()) && same_type_expr(a.last(), b.last())
}

/// A copy of `t`.
fn clone_type_expr(t: &MetaTypeExpr) -> (r: MetaTypeExpr)
    ensures
        same_type_expr(*t, r),
    decreases t, 1nat,
{
    match t {
        MetaTypeExpr::Named(n) => MetaTypeExpr::Named(n.clone()),
        MetaTypeExpr::App(n, args) => MetaTypeExpr::App(n.clone(), clone_type_exprs(args)),
        MetaTypeExpr::Tuple(elems) => MetaTypeExpr::Tuple(clone_type_exprs(elems)),
        MetaTypeExpr::Slice(inner) => MetaTypeExpr::Slice(Box::new(clone_type_expr(inner))),
    }
}

impl Clone for MetaTypeExpr {
    fn clone(&self) -> (r: Self) {
        clone_type_expr(self)
    }
}

/// How a type expression is written: `T`, `Name<A, B>`, `(A, B)`, `[T]`.
pub open spec fn type_expr_text(t: MetaTypeExpr) -> Seq<char>
    decreases t, 1nat,
{
    match t {
        MetaTypeExpr::Named(n) => n@,
        MetaTypeExpr::App(n, args) => n@ + seq!['<'] + type_list_text(args@) + seq!['>'],
        MetaTypeExpr::Tuple(elems) => seq!['('] + type_list_text(elems@) + seq![')'],
        MetaTypeExpr::Slice(inner) => seq!['['] + type_expr_text(*inner) + seq![']'],
    }
}

/// The texts of `ts`, separated by `, `.
pub open spec fn type_list_text(ts: Seq<MetaTypeExpr>) -> Seq<char>
    decreases ts, 0nat,
{
    if ts.len() == 0 {
        Seq::empty()
    } else if ts.len() == 1 {
        type_expr_text(ts[0])
    } else {
        type_list_text(ts.drop_last()) + seq![',', ' '] + type_expr_text(ts.last())
    }
}

fn type_list_to_string(ts: &Vec<MetaTypeExpr>) -> (r: String)
    ensures
        r@ == type_list_text(ts@),
    decreases ts, 0nat,
{
    let mut out = String::new();
    let mut i: usize = 0;
    proof { reveal_strlit(", "); }
    while i < ts.len()
        invariant
            i <= ts@.len(),
            out@ == type_list_text(ts@.subrange(0, i as int)),
        decreases ts@.len() - i,
    {
        proof { reveal_strlit(", "); }
        let ghost prev = out@;
        if i > 0 {
            out.append(", ");
        }
        let t = type_expr_to_string(&ts[i]);
        out.append(t.as_str());
        proof {
            let sub = ts@.subrange(0, i + 1);
            assert(sub.drop_last() =~= ts@.subrange(0, i as int));
            assert(sub.last() == ts@[i as int]);
            if i == 0 {
                assert(sub[0] == ts@[0]);
                assert(type_list_text(sub) == type_expr_text(ts@[0]));
                assert(type_list_text(ts@.subrange(0, 0)) == Seq::<char>::empty());
                assert(out@ =~= type_expr_text(ts@[0]));
            } else {
                assert(out@ == prev + seq![',', ' '] + t@);
                assert(type_list_text(sub) == type_list_text(sub.drop_last()) + seq![',', ' ']
                    + type_expr_text(sub.last()));
                assert(out@ =~= type_list_text(sub));
            }
        }
        i = i + 1;
    }
    assert(ts@.subrange(0, ts@.len() as int) =~= ts@);
    out
}

/// Writes a type expression as source text.
pub fn type_expr_to_string(t: &MetaTypeExpr) -> (r: String)
    ensures
        r@ == type_expr_text(*t),
    decreases t, 1nat,
{
    proof {
        reveal_strlit("<");
        reveal_strlit(">");
        reveal_strlit("(");
        reveal_strlit(")");
        reveal_strlit("[");
        reveal_strlit("]");
    }
    match t {
        MetaTypeExpr::Named(n) => n.clone(),
        MetaTypeExpr::App(n, args) => {
            let mut out = n.clone();
            out.append("<");
            let inner = type_list_to_string(args);
            out.append(inner.as_str());
            out.append(">");
            out
        },
        MetaTypeExpr::Tuple(elems) => {
            let mut out = String::from_str("(");
            let inner = type_list_to_string(elems);
            out.append(inner.as_str());
            out.append(")");
            out
        },
        MetaTypeExpr::Slice(inner) => {
            let mut out = String::from_str("[");
            let s = type_expr_to_string(inner);
            out.append(s.as_str());
            out.append("]");
            out
        },
    }
}

#[derive(Debug)]
pub enum MetaAstNode {
    Stmt(MetaNodeId),
    Expr(MetaNodeId),
}

#[derive(Debug, Clone)]
pub enum MetaExpr {
    Int(i64),
    String(String),
    Bool(bool),
    StructLiteral { struct_name: String, fields: Vec<(String, MetaNodeId)> },
    Variable(String),
    List(Vec<MetaNodeId>),
    Call { callee: String, args: Vec<MetaNodeId> },
    DotAccess { object: MetaNodeId, field: String },
    DotCall { object: MetaNodeId, method: String, args: Vec<MetaNodeId> },
    Index { object: MetaNodeId, index: MetaNodeId },
    Typeof(String),
    Embed(String),
    EnumConstructor { enum_name: String, variant: String, payload: ConstructorPayload },
    Add(MetaNodeId, MetaNodeId),
    Sub(MetaNodeId, MetaNodeId),
    Mult(MetaNodeId, MetaNodeId),
    Div(MetaNodeId, MetaNodeId),
    Mod(MetaNodeId, MetaNodeId),
    Equals(MetaNodeId, MetaNodeId),
    NotEquals(MetaNodeId, MetaNodeId),
    Lt(MetaNodeId, MetaNodeId),
    Gt(MetaNodeId, MetaNodeId),
    Lte(MetaNodeId, MetaNodeId),
    Gte(MetaNodeId, MetaNodeId),
    And(MetaNodeId, MetaNodeId),
    Or(MetaNodeId, MetaNodeId),
    Not(MetaNodeId),
    Tuple(Vec<MetaNodeId>),
    TupleIndex { object: MetaNodeId, index: usize },
    SliceRange { object: MetaNodeId, start: Option<MetaNodeId>, end: Option<MetaNodeId> },
    Lambda { params: Vec<String>, body: MetaNodeId },
    /// `resume` or `resume(expr)` used as an expression.
    ResumeExpr(Option<MetaNodeId>),
    /// `run { body } handle eff1 { ops } handle eff2 { ops } ...`
    RunHandle { body: MetaNodeId, effects: Vec<(String, Vec<MetaNodeId>)> },
    /// `run { body } with handler_name`
    RunWith { body: MetaNodeId, handler_name: String },
}

#[derive(Debug, Clone)]
pub enum EffectOpKind {
    Fn,
    Ctl,
}

#[derive(Debug, Clone)]
pub struct EffectOp {
    pub kind: EffectOpKind,
    pub name: String,
    pub params: Vec<Param>,
    pub ret_ty: Option<String>,
}

#[derive(Debug, Clone)]
pub enum MetaStmt {
    ExprStmt(MetaNodeId),
    VarDecl { name: String, type_annotation: Option<MetaTypeExpr>, expr: MetaNodeId },
    Assign { name: String, expr: MetaNodeId },
    IndexAssign { name: String, indices: Vec<MetaNodeId>, expr: MetaNodeId },
    DotAssign { object: String, field: String, expr: MetaNodeId },
    FnDecl {
        name: String,
        params: Vec<Param>,
        type_params: Vec<String>,
        ret_ty: Option<MetaTypeExpr>,
        body: MetaNodeId,
    },
    StructDecl { name: String, fields: Vec<MetaFieldDecl> },
    EnumDecl { name: String, type_params: Vec<String>, variants: Vec<EnumVariant> },
    Match { scrutinee: MetaNodeId, arms: Vec<MatchArm> },
    If { cond: MetaNodeId, body: MetaNodeId, else_branch: Option<MetaNodeId> },
    WhileLoop { cond: MetaNodeId, body: MetaNodeId },
    ForEach { var: ForVar, iterable: MetaNodeId, body: MetaNodeId },
    Return(Option<MetaNodeId>),
    Block(Vec<MetaNodeId>),
    Import(ImportDecl),
    MetaBlock(MetaNodeId),
    MetaFnDecl { name: String, params: Vec<Param>, body: MetaNodeId },
    Gen(Vec<MetaNodeId>),
    EffectDecl { name: String, type_params: Vec<String>, ops: Vec<EffectOp> },
    /// `handler name : effect_name { ops }` or `handle name { ops }`
    HandlerDef { name: String, effect_name: Option<String>, ops: Vec<MetaNodeId> },
    WithFn { op_name: String, params: Vec<Param>, ret_ty: Option<String>, body: MetaNodeId },
    WithCtl { op_name: String, params: Vec<Param>, ret_ty: Option<String>, body: MetaNodeId },
    /// `resume` or `resume expr`
    Resume(Option<MetaNodeId>),
    Print(MetaNodeId),
    TraitDecl {
        name: String,
        /// Method names declared in the trait (signatures only).
        methods: Vec<String>,
    },
    ImplDecl { trait_name: String, target_type: String, methods: Vec<ImplMethodDecl> },
    /// `defer <stmt>`: runs the deferred stmt when the enclosing block exits.
    Defer(MetaNodeId),
}

#[derive(Debug, Clone)]
pub struct ImplMethodDecl {
    pub name: String,
    pub params: Vec<Param>,
    pub body: MetaNodeId,
}

#[derive(Debug, Clone)]
pub struct EnumVariant {
    pub name: String,
    /// Type variables scoped to this constructor, e.g. `["A"]` for `If<A>(...)`.
    pub local_type_params: Vec<String>,
    pub payload: VariantPayload,
    /// GADT return-type annotation, e.g. `Expr<A>`.
    pub return_type: Option<MetaTypeExpr>,
}

#[derive(Debug, Clone)]
pub enum VariantPayload {
    Unit,
    Tuple(Vec<MetaTypeExpr>),
    Struct(Vec<MetaFieldDecl>),
}

#[derive(Debug, Clone)]
pub struct MatchArm {
    pub pattern: Pattern,
    pub body: MetaNodeId,
}

#[derive(Debug, Clone)]
pub enum Pattern {
    Wildcard,
    Enum { enum_name: String, variant: String, bindings: VariantBindings },
}

#[derive(Debug, Clone)]
pub enum VariantBindings {
    Unit,
    Tuple(Vec<String>),
    Struct(Vec<String>),
}

#[derive(Debug, Clone)]
pub enum ConstructorPayload {
    Unit,
    Tuple(Vec<MetaNodeId>),
    Struct(Vec<(String, MetaNodeId)>),
}

#[derive(Debug, Clone)]
pub struct Param {
    pub name: String,
    pub ty: Option<MetaTypeExpr>,
}

#[derive(Debug, Clone)]
pub struct MetaFieldDecl {
    pub field_name: String,
    pub field_type: String,
}

#[derive(Debug, Clone)]
pub enum ImportDecl {
    /// `import "path";`
    Qualified { path: String },
    /// `import "path" as alias;`
    Aliased { path: String, alias: String },
    /// `import { name1, name2 } from "path";`
    Selective { names: Vec<String>, path: String },
    /// `import "dir/*";`, expanded into `Qualified` imports by the module loader.
    Wildcard { path: String },
}

impl ImportDecl {
    pub open spec fn spec_path(&self) -> Seq<char> {
        match self {
            ImportDecl::Qualified { path } => path@,
            ImportDecl::Aliased { path, .. } => path@,
            ImportDecl::Selective { path, .. } => path@,
            ImportDecl::Wildcard { path } => path@,
        }
    }

    /// The imported path, whatever the form of the import.
    pub fn path(&self) -> (p: &str)
        ensures
            p@ == self.spec_path(),
    {
        match self {
            ImportDecl::Qualified { path } => path.as_str(),
            ImportDecl::Aliased { path, .. } => path.as_str(),
            ImportDecl::Selective { path, .. } => path.as_str(),
            ImportDecl::Wildcard { path } => path.as_str(),
        }
    }
}

// ── Child IDs ────────────────────────────────────────────────────────────────

pub open spec fn pair_ids(fields: Seq<(String, MetaNodeId)>) -> Seq<MetaNodeId> {
    fields.map_values(|p: (String, MetaNodeId)| p.1)
}

pub open spec fn opt_ids(o: Option<MetaNodeId>) -> Seq<MetaNodeId> {
    match o {
        Some(i) => seq![i],
        None => Seq::empty(),
    }
}

/// The handler statements of a `run ... handle` expression, effect by effect.
pub open spec fn handle_ops(e: MetaExpr) -> Seq<(String, Vec<MetaNodeId>)> {
    match e {
        MetaExpr::RunHandle { effects, .. } => effects@,
        _ => Seq::empty(),
    }
}

/// Every handler statement ID is below `bound` and names a node of `m`.
pub open spec fn ops_in<V>(effects: Seq<(String, Vec<MetaNodeId>)>, m: Map<usize, V>, bound: nat) -> bool {
    forall|i: int, j: int| 0 <= i < effects.len() && 0 <= j < effects[i].1@.len()
        ==> #[trigger] effects[i].1@[j].0 < bound && m.contains_key(effects[i].1@[j].0)
}

/// Every handler statement ID names a node of `m`.
pub open spec fn ops_present<V>(effects: Seq<(String, Vec<MetaNodeId>)>, m: Map<usize, V>) -> bool {
    forall|i: int, j: int| 0 <= i < effects.len() && 0 <= j < effects[i].1@.len()
        ==> m.contains_key(#[trigger] effects[i].1@[j].0)
}

/// Every handler statement ID is below `bound`.
pub open spec fn ops_below(effects: Seq<(String, Vec<MetaNodeId>)>, bound: nat) -> bool {
    forall|i: int, j: int| 0 <= i < effects.len() && 0 <= j < effects[i].1@.len()
        ==> #[trigger] effects[i].1@[j].0 < bound
}

/// The expression IDs an expression refers to.
pub open spec fn expr_expr_kids(e: MetaExpr) -> Seq<MetaNodeId> {
    match e {
        MetaExpr::StructLiteral { fields, .. } => pair_ids(fields@),
        MetaExpr::List(items) => items@,
        MetaExpr::Call { args, .. } => args@,
        MetaExpr::DotAccess { object, .. } => seq![object],
        MetaExpr::DotCall { object, args, .. } => seq![object] + args@,
        MetaExpr::Index { object, index } => seq![object, index],
        MetaExpr::EnumConstructor { payload, .. } => match payload {
            ConstructorPayload::Unit => Seq::empty(),
            ConstructorPayload::Tuple(ids) => ids@,
            ConstructorPayload::Struct(fields) => pair_ids(fields@),
        },
        MetaExpr::Add(a, b) => seq![a, b],
        MetaExpr::Sub(a, b) => seq![a, b],
        MetaExpr::Mult(a, b) => seq![a, b],
        MetaExpr::Div(a, b) => seq![a, b],
        MetaExpr::Mod(a, b) => seq![a, b],
        MetaExpr::Equals(a, b) => seq![a, b],
        MetaExpr::NotEquals(a, b) => seq![a, b],
        MetaExpr::Lt(a, b) => seq![a, b],
        MetaExpr::Gt(a, b) => seq![a, b],
        MetaExpr::Lte(a, b) => seq![a, b],
        MetaExpr::Gte(a, b) => seq![a, b],
        MetaExpr::And(a, b) => seq![a, b],
        MetaExpr::Or(a, b) => seq![a, b],
        MetaExpr::Not(a) => seq![a],
        MetaExpr::Tuple(items) => items@,
        MetaExpr::TupleIndex { object, .. } => seq![object],
        MetaExpr::SliceRange { object, start, end } => seq![object] + opt_ids(start) + opt_ids(end),
        MetaExpr::ResumeExpr(o) => opt_ids(o),
        _ => Seq::empty(),
    }
}

/// The statement IDs an expression refers to (besides the handler
/// statements of `RunHandle`, see `handle_ops`).
pub open spec fn expr_stmt_kids(e: MetaExpr) -> Seq<MetaNodeId> {
    match e {
        MetaExpr::Lambda { body, .. } => seq![body],
        MetaExpr::RunHandle { body, .. } => seq![body],
        MetaExpr::RunWith { body, .. } => seq![body],
        _ => Seq::empty(),
    }
}

/// The expression IDs a statement refers to.
pub open spec fn stmt_expr_kids(s: MetaStmt) -> Seq<MetaNodeId> {
    match s {
        MetaStmt::ExprStmt(e) => seq![e],
        MetaStmt::VarDecl { expr, .. } => seq![expr],
        MetaStmt::Assign { expr, .. } => seq![expr],
        MetaStmt::IndexAssign { indices, expr, .. } => indices@.push(expr),
        MetaStmt::DotAssign { expr, .. } => seq![expr],
        MetaStmt::Match { scrutinee, .. } => seq![scrutinee],
        MetaStmt::If { cond, .. } => seq![cond],
        MetaStmt::WhileLoop { cond, .. } => seq![cond],
        MetaStmt::ForEach { iterable, .. } => seq![iterable],
        MetaStmt::Return(o) => opt_ids(o),
        MetaStmt::Resume(o) => opt_ids(o),
        MetaStmt::Print(e) => seq![e],
        _ => Seq::empty(),
    }
}

pub open spec fn arm_ids(arms: Seq<MatchArm>) -> Seq<MetaNodeId> {
    arms.map_values(|a: MatchArm| a.body)
}

pub open spec fn method_ids(methods: Seq<ImplMethodDecl>) -> Seq<MetaNodeId> {
    methods.map_values(|m: ImplMethodDecl| m.body)
}

/// The statement IDs a statement refers to.
pub open spec fn stmt_stmt_kids(s: MetaStmt) -> Seq<MetaNodeId> {
    match s {
        MetaStmt::FnDecl { body, .. } => seq![body],
        MetaStmt::Match { arms, .. } => arm_ids(arms@),
        MetaStmt::If { body, else_branch, .. } => seq![body] + opt_ids(else_branch),
        MetaStmt::WhileLoop { body, .. } => seq![body],
        MetaStmt::ForEach { body, .. } => seq![body],
        MetaStmt::Block(stmts) => stmts@,
        MetaStmt::MetaBlock(s) => seq![s],
        MetaStmt::MetaFnDecl { body, .. } => seq![body],
        MetaStmt::Gen(stmts) => stmts@,
        MetaStmt::HandlerDef { ops, .. } => ops@,
        MetaStmt::WithFn { body, .. } => seq![body],
        MetaStmt::WithCtl { body, .. } => seq![body],
        MetaStmt::ImplDecl { methods, .. } => method_ids(methods@),
        MetaStmt::Defer(s) => seq![s],
        _ => Seq::empty(),
    }
}

/// Every ID in `kids` is below `bound` and names a node of `m`.
pub open spec fn kids_in<V>(kids: Seq<MetaNodeId>, m: Map<usize, V>, bound: nat) -> bool {
    forall|i: int| 0 <= i < kids.len() ==> #[trigger] kids[i].0 < bound && m.contains_key(kids[i].0)
}

/// Every ID in `kids` names a node of `m`.
pub open spec fn present<V>(kids: Seq<MetaNodeId>, m: Map<usize, V>) -> bool {
    forall|i: int| 0 <= i < kids.len() ==> m.contains_key(#[trigger] kids[i].0)
}

/// Every ID in `kids` is below `bound`.
pub open spec fn kids_below(kids: Seq<MetaNodeId>, bound: nat) -> bool {
    forall|i: int| 0 <= i < kids.len() ==> #[trigger] kids[i].0 < bound
}

// ── The tree ─────────────────────────────────────────────────────────────────

/// `id` is one above the largest key of `exprs` and `stmts` (1 when there is
/// none above 0): above every key, with `id - 1` a key unless `id` is 1.
pub open spec fn injected_id(exprs: Set<usize>, stmts: Set<usize>, id: usize) -> bool {
    &&& forall|k: usize| #[trigger] exprs.contains(k) ==> k < id
    &&& forall|k: usize| #[trigger] stmts.contains(k) ==> k < id
    &&& (id == 1 || exprs.contains((id - 1) as usize) || stmts.contains((id - 1) as usize))
}

/// A statement added after parsing takes an ID no node had: not one of an
/// expression, not one of a statement.
pub proof fn law_injected_id_is_fresh(exprs: Set<usize>, stmts: Set<usize>, id: usize)
    requires
        injected_id(exprs, stmts, id),
    ensures
        !exprs.contains(id),
        !stmts.contains(id),
        id >= 1,
{
}

#[derive(Debug, Clone)]
pub struct MetaAst {
    pub sem_root_stmts: Vec<MetaNodeId>,
    exprs: HashMap<usize, MetaExpr>,
    stmts: HashMap<usize, MetaStmt>,
}

impl MetaAst {
    /// The top-level statements, in source order.
    pub closed spec fn roots(&self) -> Seq<MetaNodeId> {
        self.sem_root_stmts@
    }

    pub closed spec fn expr_map(&self) -> Map<usize, MetaExpr> {
        self.exprs@
    }

    pub closed spec fn stmt_map(&self) -> Map<usize, MetaStmt> {
        self.stmts@
    }

    /// No node, expression or statement, has an ID at or above `n`.
    pub open spec fn ids_below(&self, n: nat) -> bool {
        &&& forall|k: usize| #[trigger] self.expr_map().contains_key(k) ==> k < n
        &&& forall|k: usize| #[trigger] self.stmt_map().contains_key(k) ==> k < n
    }

    /// No ID names both an expression and a statement.
    pub open spec fn disjoint_ids(&self) -> bool {
        forall|k: usize| #[trigger] self.expr_map().contains_key(k) ==> !self.stmt_map().contains_key(k)
    }

    pub open spec fn expr_closed(&self, id: usize, e: MetaExpr) -> bool {
        &&& kids_in(expr_expr_kids(e), self.expr_map(), id as nat)
        &&& kids_in(expr_stmt_kids(e), self.stmt_map(), id as nat)
        &&& ops_in(handle_ops(e), self.stmt_map(), id as nat)
    }

    pub open spec fn stmt_closed(&self, id: usize, s: MetaStmt) -> bool {
        &&& kids_in(stmt_expr_kids(s), self.expr_map(), id as nat)
        &&& kids_in(stmt_stmt_kids(s), self.stmt_map(), id as nat)
    }

    /// Every reference from a node names an existing node of the right kind
    /// with a smaller ID, so the tree has no dangling references and no cycles.
    pub open spec fn closed(&self) -> bool {
        &&& self.disjoint_ids()
        &&& forall|k: usize| #[trigger] self.expr_map().contains_key(k)
                ==> self.expr_closed(k, self.expr_map()[k])
        &&& forall|k: usize| #[trigger] self.stmt_map().contains_key(k)
                ==> self.stmt_closed(k, self.stmt_map()[k])
    }

    /// Every reference from a node is to a smaller ID (the tree has no cycles);
    /// references may dangle.
    pub open spec fn acyclic(&self) -> bool {
        &&& forall|k: usize| #[trigger] self.expr_map().contains_key(k) ==> {
                &&& kids_below(expr_expr_kids(self.expr_map()[k]), k as nat)
                &&& kids_below(expr_stmt_kids(self.expr_map()[k]), k as nat)
                &&& ops_below(handle_ops(self.expr_map()[k]), k as nat)
            }
        &&& forall|k: usize| #[trigger] self.stmt_map().contains_key(k) ==> {
                &&& kids_below(stmt_expr_kids(self.stmt_map()[k]), k as nat)
                &&& kids_below(stmt_stmt_kids(self.stmt_map()[k]), k as nat)
            }
    }

    /// `self` keeps every node of `old` unchanged.
    pub open spec fn extends(&self, old: &MetaAst) -> bool {
        &&& old.expr_map().submap_of(self.expr_map())
        &&& old.stmt_map().submap_of(self.stmt_map())
    }

    pub fn new() -> (ast: Self)
        ensures
            ast.expr_map() == Map::<usize, MetaExpr>::empty(),
            ast.stmt_map() == Map::<usize, MetaStmt>::empty(),
            ast.roots() == Seq::<MetaNodeId>::empty(),
    {
        MetaAst { sem_root_stmts: Vec::new(), exprs: HashMap::new(), stmts: HashMap::new() }
    }

    /// Stores `expr` under a fresh ID from `id_provider` and returns that ID.
    pub fn insert_expr(&mut self, id_provider: &mut IdProvider, expr: MetaExpr) -> (id: MetaNodeId)
        requires
            old(id_provider).counter() < usize::MAX,
        ensures
            id.0 == old(id_provider).counter(),
            final(id_provider).counter() == old(id_provider).counter() + 1,
            final(self).expr_map() == old(self).expr_map().insert(id.0, expr),
            final(self).stmt_map() == old(self).stmt_map(),
            final(self).roots() == old(self).roots(),
    {
        let id = id_provider.next_meta();
        self.exprs.insert(id.0, expr);
        id
    }

    /// Stores `stmt` under a fresh ID from `id_provider` and returns that ID.
    pub fn insert_stmt(&mut self, id_provider: &mut IdProvider, stmt: MetaStmt) -> (id: MetaNodeId)
        requires
            old(id_provider).counter() < usize::MAX,
        ensures
            id.0 == old(id_provider).counter(),
            final(id_provider).counter() == old(id_provider).counter() + 1,
            final(self).stmt_map() == old(self).stmt_map().insert(id.0, stmt),
            final(self).expr_map() == old(self).expr_map(),
            final(self).roots() == old(self).roots(),
    {
        let id = id_provider.next_meta();
        self.stmts.insert(id.0, stmt);
        id
    }

    /// Appends a top-level statement.
    pub fn push_root(&mut self, id: MetaNodeId)
        ensures
            final(self).roots() == old(self).roots().push(id),
            final(self).expr_map() == old(self).expr_map(),
            final(self).stmt_map() == old(self).stmt_map(),
    {
        self.sem_root_stmts.push(id);
    }

    /// The top-level statements.
    pub fn root_stmts(&self) -> (r: &Vec<MetaNodeId>)
        ensures
            r@ == self.roots(),
    {
        &self.sem_root_stmts
    }

    /// Replaces the top-level statement list.
    pub fn set_roots(&mut self, roots: Vec<MetaNodeId>)
        ensures
            final(self).roots() == roots@,
            final(self).expr_map() == old(self).expr_map(),
            final(self).stmt_map() == old(self).stmt_map(),
    {
        self.sem_root_stmts = roots;
    }

    pub fn get_expr(&self, id: MetaNodeId) -> (r: Option<&MetaExpr>)
        ensures
            match r {
                Some(e) => self.expr_map().contains_key(id.0) && *e == self.expr_map()[id.0],
                None => !self.expr_map().contains_key(id.0),
            },
    {
        self.exprs.get(&id.0)
    }

    pub fn get_stmt(&self, id: MetaNodeId) -> (r: Option<&MetaStmt>)
        ensures
            match r {
                Some(s) => self.stmt_map().contains_key(id.0) && *s == self.stmt_map()[id.0],
                None => !self.stmt_map().contains_key(id.0),
            },
    {
        self.stmts.get(&id.0)
    }

    /// The largest ID in use, or 0 for an empty tree.
    pub fn max_id(&self) -> (r: usize)
        ensures
            forall|k: usize| #[trigger] self.expr_map().contains_key(k) ==> k <= r,
            forall|k: usize| #[trigger] self.stmt_map().contains_key(k) ==> k <= r,
    {
        let a = max_key(&self.stmts);
        let b = max_key(&self.exprs);
        if a > b { a } else { b }
    }

    /// Adds a statement under an ID one above the largest ID in use (1 for
    /// an empty tree), for nodes made after parsing.
    pub fn inject_stmt(&mut self, stmt: MetaStmt) -> (id: MetaNodeId)
        requires
            forall|k: usize| #[trigger] old(self).expr_map().contains_key(k) ==> k < usize::MAX,
            forall|k: usize| #[trigger] old(self).stmt_map().contains_key(k) ==> k < usize::MAX,
        ensures
            injected_id(old(self).expr_map().dom(), old(self).stmt_map().dom(), id.0),
            final(self).stmt_map() == old(self).stmt_map().insert(id.0, stmt),
            final(self).expr_map() == old(self).expr_map(),
            final(self).roots() == old(self).roots(),
    {
        let max_stmt = max_key(&self.stmts);
        let max_expr = max_key(&self.exprs);
        let top = if max_stmt > max_expr { max_stmt } else { max_expr };
        assert(top == 0 || self.stmt_map().contains_key(top) || self.expr_map().contains_key(top));
        let id = MetaNodeId(top + 1);
        self.stmts.insert(id.0, stmt);
        id
    }

    /// Removes a statement by ID (`sem_root_stmts` is left as it is).
    pub fn remove_stmt(&mut self, id: MetaNodeId)
        ensures
            final(self).stmt_map() == old(self).stmt_map().remove(id.0),
            final(self).expr_map() == old(self).expr_map(),
            final(self).roots() == old(self).roots(),
    {
        self.stmts.remove(&id.0);
    }
}

impl MetaAst {
    /// Whether some expression of the tree is `embed(path)`.
    pub open spec fn embeds(&self, path: Seq<char>) -> bool {
        exists|k: usize| #[trigger] self.expr_map().contains_key(k)
            && self.expr_map()[k] is Embed && self.expr_map()[k]->Embed_0@ == path
    }

    /// The paths named by `embed(..)` expressions of the tree, each once per
    /// expression, in no particular order.
    pub fn embed_paths(&self) -> (r: Vec<String>)
        ensures
            forall|k: usize| #[trigger] self.expr_map().contains_key(k) && self.expr_map()[k] is Embed
                ==> strings_view(r@).contains(self.expr_map()[k]->Embed_0@),
            forall|i: int| 0 <= i < r@.len() ==> self.embeds(#[trigger] r@[i]@),
    {
        let keys = keys_of(&self.exprs);
        let mut out: Vec<String> = Vec::new();
        let ghost mut found: Seq<usize> = Seq::empty();
        let mut i: usize = 0;
        while i < keys.len()
            invariant
                keys@.to_set() == self.exprs@.dom(),
                i <= keys@.len(),
                forall|j: int| 0 <= j < i && (#[trigger] self.exprs@[keys@[j]]) is Embed
                    ==> strings_view(out@).contains(self.exprs@[keys@[j]]->Embed_0@),
                found.len() == out@.len(),
                forall|j: int| #![trigger found[j]] 0 <= j < found.len() ==> self.exprs@.contains_key(found[j])
                    && self.exprs@[found[j]] is Embed && self.exprs@[found[j]]->Embed_0@ == out@[j]@,
            decreases keys@.len() - i,
        {
            let k = keys[i];
            proof { assert(keys@.to_set().contains(k)); }
            let ghost before = out@;
            match self.exprs.get(&k) {
                Some(MetaExpr::Embed(p)) => {
                    out.push(p.clone());
                    proof {
                        found = found.push(k);
                        assert(strings_view(out@)[out@.len() - 1] == p@);
                        assert forall|j: int| 0 <= j < i + 1 && (#[trigger] self.exprs@[keys@[j]]) is Embed
                            implies strings_view(out@).contains(self.exprs@[keys@[j]]->Embed_0@) by {
                            if j < i {
                                let t = choose|t: int| 0 <= t < before.len() && strings_view(before)[t] == self.exprs@[keys@[j]]->Embed_0@;
                                assert(strings_view(out@)[t] == strings_view(before)[t]);
                            }
                        }
                        assert forall|j: int| #![trigger found[j]] 0 <= j < found.len() implies self.exprs@.contains_key(found[j])
                            && self.exprs@[found[j]] is Embed && self.exprs@[found[j]]->Embed_0@ == out@[j]@ by {
                            if j < before.len() {
                                assert(out@[j] == before[j]);
                            }
                        }
                    }
                },
                _ => {},
            }
            i = i + 1;
        }
        proof {
            assert forall|k: usize| #[trigger] self.expr_map().contains_key(k) && self.expr_map()[k] is Embed
                implies strings_view(out@).contains(self.expr_map()[k]->Embed_0@) by {
                assert(keys@.to_set().contains(k));
                let j = choose|j: int| 0 <= j < keys@.len() && keys@[j] == k;
            }
            assert forall|t: int| 0 <= t < out@.len() implies self.embeds(#[trigger] out@[t]@) by {
                let k = found[t];
                assert(self.expr_map().contains_key(k));
            }
        }
        out
    }
}

} // verus!
