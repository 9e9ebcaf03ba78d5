use vstd::prelude::*;
use std::collections::HashMap;
use crate::meta_ast::{EffectOp, EnumVariant, ForVar, ImportDecl, Param, Pattern};
use crate::node_id::StagedNodeId;

verus! {

broadcast use vstd::std_specs::hash::group_hash_axioms;

/// The tree after staging: each meta block is replaced by a reference to the
/// tree it was staged into.
#[derive(Debug, Clone)]
pub struct StagedAst {
    pub sem_root_stmts: Vec<StagedNodeId>,
    pub exprs: HashMap<usize, StagedExpr>,
    pub stmts: HashMap<usize, StagedStmt>,
}

#[derive(Debug, Clone)]
pub enum StagedNode {
    Expr(StagedExpr),
    Stmt(StagedStmt),
}

/// A reference to another tree of the forest (a staged meta block).
#[derive(Debug, Clone, Copy, PartialEq, Eq, Hash, Structural)]
pub struct MetaRef {
    pub ast_ref: usize,
}

#[derive(Debug, Clone)]
pub struct StagedMatchArm {
    pub pattern: Pattern,
    pub body: StagedNodeId,
}

#[derive(Debug, Clone)]
pub enum StagedConstructorPayload {
    Unit,
    Tuple(Vec<StagedNodeId>),
    Struct(Vec<(String, StagedNodeId)>),
}

#[derive(Debug, Clone)]
pub enum StagedExpr {
    Int(i64),
    String(String),
    Bool(bool),
    StructLiteral { struct_name: String, fields: Vec<(String, StagedNodeId)> },
    Variable(String),
    List(Vec<StagedNodeId>),
    Call { callee: String, args: Vec<StagedNodeId> },
    DotAccess { object: StagedNodeId, field: String },
    DotCall { object: StagedNodeId, method: String, args: Vec<StagedNodeId> },
    Index { object: StagedNodeId, index: StagedNodeId },
    EnumConstructor { enum_name: String, variant: String, payload: StagedConstructorPayload },
    Add(StagedNodeId, StagedNodeId),
    Sub(StagedNodeId, StagedNodeId),
    Mult(StagedNodeId, StagedNodeId),
    Div(StagedNodeId, StagedNodeId),
    Mod(StagedNodeId, StagedNodeId),
    Equals(StagedNodeId, StagedNodeId),
    NotEquals(StagedNodeId, StagedNodeId),
    Lt(StagedNodeId, StagedNodeId),
    Gt(StagedNodeId, StagedNodeId),
    Lte(StagedNodeId, StagedNodeId),
    Gte(StagedNodeId, StagedNodeId),
    And(StagedNodeId, StagedNodeId),
    Or(StagedNodeId, StagedNodeId),
    Not(StagedNodeId),
    Tuple(Vec<StagedNodeId>),
    TupleIndex { object: StagedNodeId, index: usize },
    SliceRange { object: StagedNodeId, start: Option<StagedNodeId>, end: Option<StagedNodeId> },
    Lambda { params: Vec<String>, body: StagedNodeId },
    /// `resume` or `resume(expr)` as an expression.
    ResumeExpr(Option<StagedNodeId>),
    /// `run { body } handle eff1 { ops } handle eff2 { ops } ...`
    RunHandle { body: StagedNodeId, effects: Vec<(String, Vec<StagedNodeId>)> },
    /// `run { body } with handler_name`
    RunWith { body: StagedNodeId, handler_name: String },
    MetaExpr(MetaRef),
}

#[derive(Debug, Clone)]
pub enum StagedStmt {
    ExprStmt(StagedNodeId),
    VarDecl { name: String, expr: StagedNodeId },
    Assign { name: String, expr: StagedNodeId },
    IndexAssign { name: String, indices: Vec<StagedNodeId>, expr: StagedNodeId },
    DotAssign { object: String, field: String, expr: StagedNodeId },
    FnDecl { name: String, params: Vec<String>, type_params: Vec<String>, body: StagedNodeId },
    StructDecl { name: String, fields: Vec<StagedFieldDecl> },
    EnumDecl { name: String, type_params: Vec<String>, variants: Vec<EnumVariant> },
    Match { scrutinee: StagedNodeId, arms: Vec<StagedMatchArm> },
    If { cond: StagedNodeId, body: StagedNodeId, else_branch: Option<StagedNodeId> },
    WhileLoop { cond: StagedNodeId, body: StagedNodeId },
    ForEach { var: ForVar, iterable: StagedNodeId, body: StagedNodeId },
    Return(Option<StagedNodeId>),
    Block(Vec<StagedNodeId>),
    Import(ImportDecl),
    Gen(Vec<StagedNodeId>),
    MetaStmt(MetaRef),
    EffectDecl { name: String, type_params: Vec<String>, ops: Vec<EffectOp> },
    HandlerDef { name: String, effect_name: Option<String>, ops: Vec<StagedNodeId> },
    WithFn { op_name: String, params: Vec<Param>, ret_ty: Option<String>, body: StagedNodeId },
    WithCtl { op_name: String, params: Vec<Param>, ret_ty: Option<String>, body: StagedNodeId },
    Resume(Option<StagedNodeId>),
    Print(StagedNodeId),
}

#[derive(Debug, Clone)]
pub struct StagedFieldDecl {
    pub field_name: String,
    pub field_type: String,
}

pub open spec fn staged_opt(o: Option<StagedNodeId>) -> Seq<StagedNodeId> {
    match o {
        Some(i) => seq![i],
        None => Seq::empty(),
    }
}

pub open spec fn staged_arm_ids(arms: Seq<StagedMatchArm>) -> Seq<StagedNodeId> {
    arms.map_values(|a: StagedMatchArm| a.body)
}

/// The statements a statement contains directly (the ones a `return` inside
/// it can be found in).
pub open spec fn staged_stmt_kids(s: StagedStmt) -> Seq<StagedNodeId> {
    match s {
        StagedStmt::FnDecl { body, .. } => seq![body],
        StagedStmt::Match { arms, .. } => staged_arm_ids(arms@),
        StagedStmt::If { body, else_branch, .. } => seq![body] + staged_opt(else_branch),
        StagedStmt::WhileLoop { body, .. } => seq![body],
        StagedStmt::ForEach { body, .. } => seq![body],
        StagedStmt::Block(stmts) => stmts@,
        StagedStmt::Gen(stmts) => stmts@,
        StagedStmt::HandlerDef { ops, .. } => ops@,
        StagedStmt::WithFn { body, .. } => seq![body],
        StagedStmt::WithCtl { body, .. } => seq![body],
        _ => Seq::empty(),
    }
}

/// `rank` orders the statements: each one ranks above the statements it
/// contains, so walking into statements always ends.
pub open spec fn ranked_by(stmts: Map<usize, StagedStmt>, rank: Map<usize, nat>) -> bool {
    &&& rank.dom() == stmts.dom()
    &&& forall|k: usize| #[trigger] stmts.contains_key(k) ==> {
            let kids = staged_stmt_kids(stmts[k]);
            forall|i: int| 0 <= i < kids.len() ==> stmts.contains_key(#[trigger] kids[i].0)
                && rank[kids[i].0] < rank[k]
        }
}

impl StagedAst {
    /// No statement contains itself, directly or not.
    pub open spec fn well_founded(&self) -> bool {
        exists|rank: Map<usize, nat>| ranked_by(self.stmts@, rank)
    }

    pub fn new() -> (ast: Self)
        ensures
            ast.sem_root_stmts@.len() == 0,
            ast.exprs@ == Map::<usize, StagedExpr>::empty(),
            ast.stmts@ == Map::<usize, StagedStmt>::empty(),
            ast.well_founded(),
    {
        let ast = StagedAst { sem_root_stmts: Vec::new(), exprs: HashMap::new(), stmts: HashMap::new() };
        assert(ranked_by(ast.stmts@, Map::<usize, nat>::empty()));
        ast
    }

    pub fn insert_expr(&mut self, id: StagedNodeId, expr: StagedExpr)
        ensures
            final(self).exprs@ == old(self).exprs@.insert(id.0, expr),
            final(self).stmts@ == old(self).stmts@,
            final(self).sem_root_stmts@ == old(self).sem_root_stmts@,
    {
        self.exprs.insert(id.0, expr);
    }

    /// Stores `stmt` under `id`. A new statement whose sub-statements are all
    /// stored keeps the tree well founded.
    pub fn insert_stmt(&mut self, id: StagedNodeId, stmt: StagedStmt)
        ensures
            final(self).stmts@ == old(self).stmts@.insert(id.0, stmt),
            final(self).exprs@ == old(self).exprs@,
            final(self).sem_root_stmts@ == old(self).sem_root_stmts@,
            old(self).well_founded() && !old(self).stmts@.contains_key(id.0)
                && (forall|i: int| 0 <= i < staged_stmt_kids(stmt).len()
                    ==> old(self).stmts@.contains_key(#[trigger] staged_stmt_kids(stmt)[i].0))
                ==> final(self).well_founded(),
    {
        let ghost old_stmts = self.stmts@;
        self.stmts.insert(id.0, stmt);
        proof {
            if old(self).well_founded() && !old_stmts.contains_key(id.0)
                && (forall|i: int| 0 <= i < staged_stmt_kids(stmt).len()
                    ==> old_stmts.contains_key(#[trigger] staged_stmt_kids(stmt)[i].0)) {
                let r = choose|r: Map<usize, nat>| ranked_by(old_stmts, r);
                let kids = staged_stmt_kids(stmt);
                let top = rank_bound(r, kids);
                let r2 = r.insert(id.0, top);
                assert forall|k: usize| #[trigger] self.stmts@.contains_key(k) implies {
                    let ks = staged_stmt_kids(self.stmts@[k]);
                    forall|i: int| 0 <= i < ks.len() ==> self.stmts@.contains_key(#[trigger] ks[i].0)
                        && r2[ks[i].0] < r2[k]
                } by {
                    if k == id.0 {
                        assert forall|i: int| 0 <= i < kids.len() implies self.stmts@.contains_key(#[trigger] kids[i].0)
                            && r2[kids[i].0] < r2[k] by {
                            lemma_rank_bound(r, kids, i);
                        }
                    } else {
                        let ks = staged_stmt_kids(old_stmts[k]);
                        assert(old_stmts.contains_key(k));
                        assert forall|i: int| 0 <= i < ks.len() implies self.stmts@.contains_key(#[trigger] ks[i].0)
                            && r2[ks[i].0] < r2[k] by {
                            assert(old_stmts.contains_key(ks[i].0));
                        }
                    }
                }
                assert(r2.dom() =~= self.stmts@.dom());
                assert(ranked_by(self.stmts@, r2));
            }
        }
    }

    pub fn get_expr(&self, id: StagedNodeId) -> (r: Option<&StagedExpr>)
        ensures
            match r {
                Some(e) => self.exprs@.contains_key(id.0) && *e == self.exprs@[id.0],
                None => !self.exprs@.contains_key(id.0),
            },
    {
        self.exprs.get(&id.0)
    }

    pub fn get_stmt(&self, id: StagedNodeId) -> (r: Option<&StagedStmt>)
        ensures
            match r {
                Some(s) => self.stmts@.contains_key(id.0) && *s == self.stmts@[id.0],
                None => !self.stmts@.contains_key(id.0),
            },
    {
        self.stmts.get(&id.0)
    }
}

/// One more than the largest rank of `kids`.
pub open spec fn rank_bound(r: Map<usize, nat>, kids: Seq<StagedNodeId>) -> nat
    decreases kids.len(),
{
    if kids.len() == 0 {
        0
    } else {
        let rest = rank_bound(r, kids.drop_last());
        let here = r[kids.last().0] + 1;
        if rest > here { rest } else { here }
    }
}

proof fn lemma_rank_bound(r: Map<usize, nat>, kids: Seq<StagedNodeId>, i: int)
    requires
        0 <= i < kids.len(),
    ensures
        r[kids[i].0] < rank_bound(r, kids),
    decreases kids.len(),
{
    if i < kids.len() - 1 {
        lemma_rank_bound(r, kids.drop_last(), i);
    }
}

} // verus!
