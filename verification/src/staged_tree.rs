use vstd::prelude::*;
use crate::node_id::StagedNodeId;
use crate::meta_ast::{EffectOp, EnumVariant};
use crate::staged_ast::{StagedAst, StagedExpr, StagedStmt, StagedConstructorPayload, StagedMatchArm,
    StagedFieldDecl, staged_opt, staged_arm_ids};
use crate::meta_tree::{id_label, name_label, quoted, pattern_text, for_var_text, id_label_string,
    name_label_string, quoted_string, pattern_string, variant_strings, for_var_string, wrapped_string,
    leaves};
use crate::text::{nat_text, int_text, bool_text, join_text, strings_view, usize_to_string,
    i64_to_string, bool_to_string, join};
use crate::tree_formatter::{TreeNode, Shape, AsTree};
use crate::staged_forest::StagedForest;
use crate::keys::keys_of;

verus! {

broadcast use vstd::std_specs::hash::group_hash_axioms;

// ── What the tree of a staged node shows ─────────────────────────────────────

/// `t` shows `s`: its label and children are those `s` gives, statements and
/// expressions being expanded from `ast`, each with its `id: N` leaf first.
pub open spec fn staged_shows(ast: StagedAst, t: TreeNode, s: Shape) -> bool
    decreases t,
{
    match s {
        Shape::Leaf(l) => t.label@ == l && t.children@.len() == 0,
        Shape::Node(l, ks) => {
            &&& t.label@ == l
            &&& t.children@.len() == ks.len()
            &&& forall|i: int| 0 <= i < ks.len() ==> staged_shows(ast, #[trigger] t.children@[i], ks[i])
        },
        Shape::Stmt(id) => {
            &&& ast.stmts@.contains_key(id)
            &&& t.label@ == staged_stmt_label(ast.stmts@[id])
            &&& t.children@.len() == 1 + staged_stmt_kid_shapes(ast.stmts@[id]).len()
            &&& forall|i: int| 0 <= i < t.children@.len() ==> staged_shows(ast, #[trigger] t.children@[i],
                    (seq![Shape::Leaf(id_label(id))] + staged_stmt_kid_shapes(ast.stmts@[id]))[i])
        },
        Shape::Expr(id) => {
            &&& ast.exprs@.contains_key(id)
            &&& t.label@ == staged_expr_label(ast.exprs@[id])
            &&& t.children@.len() == 1 + staged_expr_kid_shapes(ast.exprs@[id]).len()
            &&& forall|i: int| 0 <= i < t.children@.len() ==> staged_shows(ast, #[trigger] t.children@[i],
                    (seq![Shape::Leaf(id_label(id))] + staged_expr_kid_shapes(ast.exprs@[id]))[i])
        },
    }
}

/// The trees `ts` show the shapes `ks`, one for one.
pub open spec fn staged_kids_show(ast: StagedAst, ts: Seq<TreeNode>, ks: Seq<Shape>) -> bool {
    &&& ts.len() == ks.len()
    &&& forall|i: int| 0 <= i < ks.len() ==> staged_shows(ast, #[trigger] ts[i], ks[i])
}

pub open spec fn sexpr_shapes(ids: Seq<StagedNodeId>) -> Seq<Shape> {
    ids.map_values(|i: StagedNodeId| Shape::Expr(i.0))
}

pub open spec fn sstmt_shapes(ids: Seq<StagedNodeId>) -> Seq<Shape> {
    ids.map_values(|i: StagedNodeId| Shape::Stmt(i.0))
}

pub open spec fn sfield_shapes(fields: Seq<(String, StagedNodeId)>) -> Seq<Shape> {
    fields.map_values(|f: (String, StagedNodeId)| Shape::Node(f.0@, seq![Shape::Expr(f.1.0)]))
}

pub open spec fn sarm_shapes(arms: Seq<StagedMatchArm>) -> Seq<Shape> {
    arms.map_values(|a: StagedMatchArm| Shape::Node("Arm"@, seq![Shape::Leaf(pattern_text(a.pattern)), Shape::Stmt(a.body.0)]))
}

pub open spec fn shandler_shapes(effects: Seq<(String, Vec<StagedNodeId>)>) -> Seq<Shape> {
    effects.map_values(|e: (String, Vec<StagedNodeId>)| sstmt_shapes(e.1@)).flatten()
}

pub open spec fn meta_ref_label(r: usize) -> Seq<char> {
    nat_text(r as nat)
}

pub open spec fn staged_stmt_label(s: StagedStmt) -> Seq<char> {
    match s {
        StagedStmt::ExprStmt(_) => "ExprStmt"@,
        StagedStmt::VarDecl { .. } => "VarDecl"@,
        StagedStmt::Assign { .. } => "Assign"@,
        StagedStmt::IndexAssign { .. } => "IndexAssign"@,
        StagedStmt::DotAssign { object, field, .. } => "DotAssign("@ + object@ + "."@ + field@ + ")"@,
        StagedStmt::FnDecl { .. } => "FnDecl"@,
        StagedStmt::StructDecl { .. } => "StructDecl"@,
        StagedStmt::EnumDecl { .. } => "EnumDecl"@,
        StagedStmt::Match { .. } => "Match"@,
        StagedStmt::If { .. } => "IfStmt"@,
        StagedStmt::WhileLoop { .. } => "WhileLoop"@,
        StagedStmt::ForEach { .. } => "ForEachStmt"@,
        StagedStmt::Return(_) => "ReturnStmt"@,
        StagedStmt::Block(_) => "Block"@,
        StagedStmt::Import(_) => "Import"@,
        StagedStmt::Gen(_) => "Gen"@,
        StagedStmt::MetaStmt(_) => "MetaRef"@,
        StagedStmt::EffectDecl { .. } => "EffectDecl"@,
        StagedStmt::HandlerDef { name, effect_name, .. } => match effect_name {
            Some(e) => "HandlerDef("@ + name@ + ":"@ + e@ + ")"@,
            None => "HandlerDef("@ + name@ + ")"@,
        },
        StagedStmt::WithFn { .. } => "WithFn"@,
        StagedStmt::WithCtl { .. } => "WithCtl"@,
        StagedStmt::Resume(_) => "Resume"@,
        StagedStmt::Print(_) => "PrintStmt"@,
    }
}

/// The children of a staged statement's node after its `id: N` leaf.
pub open spec fn staged_stmt_kid_shapes(s: StagedStmt) -> Seq<Shape> {
    match s {
        StagedStmt::ExprStmt(e) => seq![Shape::Expr(e.0)],
        StagedStmt::VarDecl { name, expr } => seq![Shape::Leaf(name_label(name@)), Shape::Expr(expr.0)],
        StagedStmt::Assign { name, expr } => seq![Shape::Leaf(name_label(name@)), Shape::Expr(expr.0)],
        StagedStmt::IndexAssign { name, indices, expr } =>
            seq![Shape::Leaf(name_label(name@))] + sexpr_shapes(indices@) + seq![Shape::Expr(expr.0)],
        StagedStmt::DotAssign { expr, .. } => seq![Shape::Expr(expr.0)],
        StagedStmt::FnDecl { name, params, body, .. } => seq![
            Shape::Leaf(name_label(name@)),
            Shape::Node("Params"@, leaves(strings_view(params@))),
            Shape::Stmt(body.0),
        ],
        StagedStmt::StructDecl { name, fields } => seq![
            Shape::Leaf(name_label(name@)),
            Shape::Node("Fields"@, fields@.map_values(|f: StagedFieldDecl|
                Shape::Leaf(f.field_name@ + ": "@ + f.field_type@))),
        ],
        StagedStmt::EnumDecl { name, variants, .. } =>
            seq![Shape::Leaf(name_label(name@))]
                + variants@.map_values(|v: EnumVariant| Shape::Leaf("Variant("@ + v.name@ + ")"@)),
        StagedStmt::Match { scrutinee, arms } =>
            seq![Shape::Node("Scrutinee"@, seq![Shape::Expr(scrutinee.0)])] + sarm_shapes(arms@),
        StagedStmt::If { cond, body, else_branch } =>
            seq![Shape::Node("Cond"@, seq![Shape::Expr(cond.0)]), Shape::Node("Then"@, seq![Shape::Stmt(body.0)])]
                + match else_branch {
                    Some(e) => seq![Shape::Node("Else"@, seq![Shape::Stmt(e.0)])],
                    None => Seq::empty(),
                },
        StagedStmt::WhileLoop { cond, body } =>
            seq![Shape::Node("Cond"@, seq![Shape::Expr(cond.0)]), Shape::Node("Body"@, seq![Shape::Stmt(body.0)])],
        StagedStmt::ForEach { var, iterable, body } => seq![
            Shape::Leaf("Var("@ + for_var_text(var) + ")"@),
            Shape::Node("Iterable"@, seq![Shape::Expr(iterable.0)]),
            Shape::Node("Body"@, seq![Shape::Stmt(body.0)]),
        ],
        StagedStmt::Return(o) => sexpr_shapes(staged_opt(o)),
        StagedStmt::Block(stmts) => sstmt_shapes(stmts@),
        StagedStmt::Import(decl) => seq![Shape::Leaf(decl.spec_path())],
        StagedStmt::Gen(stmts) => sstmt_shapes(stmts@),
        StagedStmt::MetaStmt(r) => seq![Shape::Leaf(meta_ref_label(r.ast_ref))],
        StagedStmt::EffectDecl { name, ops, .. } =>
            seq![Shape::Leaf(name_label(name@))] + ops@.map_values(|op: EffectOp| Shape::Leaf(op.name@)),
        StagedStmt::HandlerDef { ops, .. } => sstmt_shapes(ops@),
        StagedStmt::WithFn { op_name, body, .. } =>
            seq![Shape::Leaf("Op("@ + op_name@ + ")"@), Shape::Stmt(body.0)],
        StagedStmt::WithCtl { op_name, body, .. } =>
            seq![Shape::Leaf("Op("@ + op_name@ + ")"@), Shape::Stmt(body.0)],
        StagedStmt::Resume(o) => sexpr_shapes(staged_opt(o)),
        StagedStmt::Print(e) => seq![Shape::Expr(e.0)],
    }
}

pub open spec fn staged_expr_label(e: StagedExpr) -> Seq<char> {
    match e {
        StagedExpr::Int(_) => "Int"@,
        StagedExpr::String(_) => "String"@,
        StagedExpr::Bool(_) => "Bool"@,
        StagedExpr::Variable(_) => "Var"@,
        StagedExpr::StructLiteral { struct_name, .. } => "StructLiteral("@ + struct_name@ + ")"@,
        StagedExpr::List(_) => "List"@,
        StagedExpr::Call { callee, .. } => "Call("@ + callee@ + ")"@,
        StagedExpr::DotAccess { field, .. } => "DotAccess(."@ + field@ + ")"@,
        StagedExpr::DotCall { method, .. } => "DotCall(."@ + method@ + ")"@,
        StagedExpr::Index { .. } => "Index"@,
        StagedExpr::EnumConstructor { enum_name, variant, .. } =>
            "EnumConstructor("@ + enum_name@ + "::"@ + variant@ + ")"@,
        StagedExpr::Add(_, _) => "Add"@,
        StagedExpr::Sub(_, _) => "Sub"@,
        StagedExpr::Mult(_, _) => "Mult"@,
        StagedExpr::Div(_, _) => "Div"@,
        StagedExpr::Mod(_, _) => "Mod"@,
        StagedExpr::Equals(_, _) => "Equals"@,
        StagedExpr::NotEquals(_, _) => "NotEquals"@,
        StagedExpr::Lt(_, _) => "Lt"@,
        StagedExpr::Gt(_, _) => "Gt"@,
        StagedExpr::Lte(_, _) => "Lte"@,
        StagedExpr::Gte(_, _) => "Gte"@,
        StagedExpr::And(_, _) => "And"@,
        StagedExpr::Or(_, _) => "Or"@,
        StagedExpr::Not(_) => "Not"@,
        StagedExpr::Tuple(_) => "Tuple"@,
        StagedExpr::TupleIndex { index, .. } => "TupleIndex(."@ + nat_text(index as nat) + ")"@,
        StagedExpr::SliceRange { .. } => "SliceRange"@,
        StagedExpr::Lambda { params, .. } => "Lambda("@ + join_text(strings_view(params@), ", "@) + ")"@,
        StagedExpr::ResumeExpr(_) => "ResumeExpr"@,
        StagedExpr::RunHandle { .. } => "RunHandle"@,
        StagedExpr::RunWith { handler_name, .. } => "RunWith("@ + handler_name@ + ")"@,
        StagedExpr::MetaExpr(_) => "MetaRef"@,
    }
}

/// The children of a staged expression's node after its `id: N` leaf. A
/// constructor's payload and a lambda's body are not drawn.
pub open spec fn staged_expr_kid_shapes(e: StagedExpr) -> Seq<Shape> {
    match e {
        StagedExpr::Int(v) => seq![Shape::Leaf(int_text(v as int))],
        StagedExpr::String(s) => seq![Shape::Leaf(quoted(s@))],
        StagedExpr::Bool(b) => seq![Shape::Leaf(bool_text(b))],
        StagedExpr::Variable(n) => seq![Shape::Leaf(n@)],
        StagedExpr::StructLiteral { fields, .. } => sfield_shapes(fields@),
        StagedExpr::List(items) => sexpr_shapes(items@),
        StagedExpr::Call { args, .. } => sexpr_shapes(args@),
        StagedExpr::DotAccess { object, .. } => seq![Shape::Expr(object.0)],
        StagedExpr::DotCall { object, args, .. } => seq![Shape::Expr(object.0)] + sexpr_shapes(args@),
        StagedExpr::Index { object, index } => seq![Shape::Expr(object.0), Shape::Expr(index.0)],
        StagedExpr::EnumConstructor { .. } => Seq::empty(),
        StagedExpr::Add(a, b) => seq![Shape::Expr(a.0), Shape::Expr(b.0)],
        StagedExpr::Sub(a, b) => seq![Shape::Expr(a.0), Shape::Expr(b.0)],
        StagedExpr::Mult(a, b) => seq![Shape::Expr(a.0), Shape::Expr(b.0)],
        StagedExpr::Div(a, b) => seq![Shape::Expr(a.0), Shape::Expr(b.0)],
        StagedExpr::Mod(a, b) => seq![Shape::Expr(a.0), Shape::Expr(b.0)],
        StagedExpr::Equals(a, b) => seq![Shape::Expr(a.0), Shape::Expr(b.0)],
        StagedExpr::NotEquals(a, b) => seq![Shape::Expr(a.0), Shape::Expr(b.0)],
        StagedExpr::Lt(a, b) => seq![Shape::Expr(a.0), Shape::Expr(b.0)],
        StagedExpr::Gt(a, b) => seq![Shape::Expr(a.0), Shape::Expr(b.0)],
        StagedExpr::Lte(a, b) => seq![Shape::Expr(a.0), Shape::Expr(b.0)],
        StagedExpr::Gte(a, b) => seq![Shape::Expr(a.0), Shape::Expr(b.0)],
        StagedExpr::And(a, b) => seq![Shape::Expr(a.0), Shape::Expr(b.0)],
        StagedExpr::Or(a, b) => seq![Shape::Expr(a.0), Shape::Expr(b.0)],
        StagedExpr::Not(a) => seq![Shape::Expr(a.0)],
        StagedExpr::Tuple(items) => sexpr_shapes(items@),
        StagedExpr::TupleIndex { object, .. } => seq![Shape::Expr(object.0)],
        StagedExpr::SliceRange { object, start, end } =>
            seq![Shape::Expr(object.0)] + sexpr_shapes(staged_opt(start)) + sexpr_shapes(staged_opt(end)),
        StagedExpr::Lambda { .. } => Seq::empty(),
        StagedExpr::ResumeExpr(o) => sexpr_shapes(staged_opt(o)),
        StagedExpr::RunHandle { body, effects } => seq![Shape::Stmt(body.0)] + shandler_shapes(effects@),
        StagedExpr::RunWith { body, .. } => seq![Shape::Stmt(body.0)],
        StagedExpr::MetaExpr(r) => seq![Shape::Leaf(meta_ref_label(r.ast_ref))],
    }
}

// ── Which nodes a drawing follows ────────────────────────────────────────────

pub open spec fn spair_ids(fields: Seq<(String, StagedNodeId)>) -> Seq<StagedNodeId> {
    fields.map_values(|p: (String, StagedNodeId)| p.1)
}

/// The expressions a statement's drawing follows.
pub open spec fn drawn_stmt_exprs(s: StagedStmt) -> Seq<StagedNodeId> {
    match s {
        StagedStmt::ExprStmt(e) => seq![e],
        StagedStmt::VarDecl { expr, .. } => seq![expr],
        StagedStmt::Assign { expr, .. } => seq![expr],
        StagedStmt::IndexAssign { indices, expr, .. } => indices@.push(expr),
        StagedStmt::DotAssign { expr, .. } => seq![expr],
        StagedStmt::Match { scrutinee, .. } => seq![scrutinee],
        StagedStmt::If { cond, .. } => seq![cond],
        StagedStmt::WhileLoop { cond, .. } => seq![cond],
        StagedStmt::ForEach { iterable, .. } => seq![iterable],
        StagedStmt::Return(o) => staged_opt(o),
        StagedStmt::Resume(o) => staged_opt(o),
        StagedStmt::Print(e) => seq![e],
        _ => Seq::empty(),
    }
}

/// The statements a statement's drawing follows.
pub open spec fn drawn_stmt_stmts(s: StagedStmt) -> Seq<StagedNodeId> {
    match s {
        StagedStmt::FnDecl { body, .. } => seq![body],
        StagedStmt::Match { arms, .. } => staged_arm_ids(arms@),
        StagedStmt::If { body, else_branch, .. } => seq![body] + staged_opt(else_branch),
        StagedStmt::WhileLoop { body, .. } => seq![body],
        StagedStmt::ForEach { body, .. } => seq![body],
        StagedStmt::Block(stmts) => stmts@,
        StagedStmt::Gen(stmts) => stmts@,
        StagedStmt::HandlerDef { ops, .. } => ops@,
        StagedStmt::WithFn { body, .. } => seq![body],
        StagedStmt::WithCtl { body, .. } => seq![body],
        _ => Seq::empty(),
    }
}

/// The expressions an expression's drawing follows.
pub open spec fn drawn_expr_exprs(e: StagedExpr) -> Seq<StagedNodeId> {
    match e {
        StagedExpr::StructLiteral { fields, .. } => spair_ids(fields@),
        StagedExpr::List(items) => items@,
        StagedExpr::Call { args, .. } => args@,
        StagedExpr::DotAccess { object, .. } => seq![object],
        StagedExpr::DotCall { object, args, .. } => seq![object] + args@,
        StagedExpr::Index { object, index } => seq![object, index],
        StagedExpr::Add(a, b) => seq![a, b],
        StagedExpr::Sub(a, b) => seq![a, b],
        StagedExpr::Mult(a, b) => seq![a, b],
        StagedExpr::Div(a, b) => seq![a, b],
        StagedExpr::Mod(a, b) => seq![a, b],
        StagedExpr::Equals(a, b) => seq![a, b],
        StagedExpr::NotEquals(a, b) => seq![a, b],
        StagedExpr::Lt(a, b) => seq![a, b],
        StagedExpr::Gt(a, b) => seq![a, b],
        StagedExpr::Lte(a, b) => seq![a, b],
        StagedExpr::Gte(a, b) => seq![a, b],
        StagedExpr::And(a, b) => seq![a, b],
        StagedExpr::Or(a, b) => seq![a, b],
        StagedExpr::Not(a) => seq![a],
        StagedExpr::Tuple(items) => items@,
        StagedExpr::TupleIndex { object, .. } => seq![object],
        StagedExpr::SliceRange { object, start, end } => seq![object] + staged_opt(start) + staged_opt(end),
        StagedExpr::ResumeExpr(o) => staged_opt(o),
        _ => Seq::empty(),
    }
}

/// The statements an expression's drawing follows, besides the handler
/// statements of `run ... handle`.
pub open spec fn drawn_expr_stmts(e: StagedExpr) -> Seq<StagedNodeId> {
    match e {
        StagedExpr::RunHandle { body, .. } => seq![body],
        StagedExpr::RunWith { body, .. } => seq![body],
        _ => Seq::empty(),
    }
}

pub open spec fn run_handlers(e: StagedExpr) -> Seq<(String, Vec<StagedNodeId>)> {
    match e {
        StagedExpr::RunHandle { effects, .. } => effects@,
        _ => Seq::empty(),
    }
}

/// Every ID of `kids` names a node of `m` ranked below `bound`.
pub open spec fn under<V>(kids: Seq<StagedNodeId>, m: Map<usize, V>, rank: Map<usize, nat>, bound: nat) -> bool {
    forall|i: int| 0 <= i < kids.len() ==> m.contains_key(#[trigger] kids[i].0) && rank[kids[i].0] < bound
}

/// Every handler statement names a statement of `m` ranked below `bound`.
pub open spec fn handlers_under<V>(effects: Seq<(String, Vec<StagedNodeId>)>, m: Map<usize, V>, rank: Map<usize, nat>, bound: nat) -> bool {
    forall|i: int, j: int| 0 <= i < effects.len() && 0 <= j < effects[i].1@.len()
        ==> m.contains_key(#[trigger] effects[i].1@[j].0) && rank[effects[i].1@[j].0] < bound
}

/// The ranks `er` (expressions) and `sr` (statements) order the tree: every
/// node its drawing follows exists and ranks below it.
pub open spec fn drawing_ranked(ast: StagedAst, er: Map<usize, nat>, sr: Map<usize, nat>) -> bool {
    &&& forall|k: usize| #[trigger] ast.exprs@.contains_key(k) ==> {
            let e = ast.exprs@[k];
            &&& under(drawn_expr_exprs(e), ast.exprs@, er, er[k])
            &&& under(drawn_expr_stmts(e), ast.stmts@, sr, er[k])
            &&& handlers_under(run_handlers(e), ast.stmts@, sr, er[k])
        }
    &&& forall|k: usize| #[trigger] ast.stmts@.contains_key(k) ==> {
            let s = ast.stmts@[k];
            &&& under(drawn_stmt_exprs(s), ast.exprs@, er, sr[k])
            &&& under(drawn_stmt_stmts(s), ast.stmts@, sr, sr[k])
        }
}

// ── Building the trees ───────────────────────────────────────────────────────

proof fn lemma_skids_push(ast: StagedAst, ts: Seq<TreeNode>, ks: Seq<Shape>, t: TreeNode, s: Shape)
    requires
        staged_kids_show(ast, ts, ks),
        staged_shows(ast, t, s),
    ensures
        staged_kids_show(ast, ts.push(t), ks.push(s)),
{
    assert forall|i: int| 0 <= i < ks.push(s).len() implies staged_shows(ast, #[trigger] ts.push(t)[i], ks.push(s)[i]) by {
        if i < ks.len() {
            assert(ts.push(t)[i] == ts[i]);
        }
    }
}

fn spush_tree(out: &mut Vec<TreeNode>, t: TreeNode, Ghost(ast): Ghost<StagedAst>, Ghost(ks): Ghost<Seq<Shape>>, Ghost(s): Ghost<Shape>)
    requires
        staged_kids_show(ast, old(out)@, ks),
        staged_shows(ast, t, s),
    ensures
        staged_kids_show(ast, final(out)@, ks.push(s)),
{
    proof { lemma_skids_push(ast, out@, ks, t, s); }
    out.push(t);
}

fn spush_leaf(out: &mut Vec<TreeNode>, text: String, Ghost(ast): Ghost<StagedAst>, Ghost(ks): Ghost<Seq<Shape>>)
    requires
        staged_kids_show(ast, old(out)@, ks),
    ensures
        staged_kids_show(ast, final(out)@, ks.push(Shape::Leaf(text@))),
{
    let ghost l = text@;
    let t = TreeNode::leaf(text);
    spush_tree(out, t, Ghost(ast), Ghost(ks), Ghost(Shape::Leaf(l)));
}

fn spush_leaves(out: &mut Vec<TreeNode>, texts: Vec<String>, Ghost(ast): Ghost<StagedAst>, Ghost(ks): Ghost<Seq<Shape>>)
    requires
        staged_kids_show(ast, old(out)@, ks),
    ensures
        staged_kids_show(ast, final(out)@, ks + leaves(strings_view(texts@))),
{
    let mut i: usize = 0;
    proof { assert(ks + leaves(strings_view(texts@.take(0))) =~= ks); }
    while i < texts.len()
        invariant
            i <= texts@.len(),
            staged_kids_show(ast, out@, ks + leaves(strings_view(texts@.take(i as int)))),
        decreases texts@.len() - i,
    {
        let t = texts[i].clone();
        proof {
            assert(ks + leaves(strings_view(texts@.take(i + 1)))
                =~= (ks + leaves(strings_view(texts@.take(i as int)))).push(Shape::Leaf(t@)));
        }
        spush_leaf(out, t, Ghost(ast), Ghost(ks + leaves(strings_view(texts@.take(i as int)))));
        i = i + 1;
    }
    proof { assert(texts@.take(texts@.len() as int) =~= texts@); }
}

fn sgroup(label: String, kids: Vec<TreeNode>, Ghost(ast): Ghost<StagedAst>, Ghost(ks): Ghost<Seq<Shape>>) -> (t: TreeNode)
    requires
        staged_kids_show(ast, kids@, ks),
    ensures
        staged_shows(ast, t, Shape::Node(label@, ks)),
{
    TreeNode::node(label, kids)
}

fn swrap(label: &str, t: TreeNode, Ghost(ast): Ghost<StagedAst>, Ghost(s): Ghost<Shape>) -> (r: TreeNode)
    requires
        staged_shows(ast, t, s),
    ensures
        staged_shows(ast, r, Shape::Node(label@, seq![s])),
{
    let mut v: Vec<TreeNode> = Vec::new();
    spush_tree(&mut v, t, Ghost(ast), Ghost(Seq::empty()), Ghost(s));
    let ghost ks = seq![s];
    sgroup(String::from_str(label), v, Ghost(ast), Ghost(ks))
}

fn sleaf_group(label: &str, texts: Vec<String>, Ghost(ast): Ghost<StagedAst>) -> (t: TreeNode)
    ensures
        staged_shows(ast, t, Shape::Node(label@, leaves(strings_view(texts@)))),
{
    let mut v: Vec<TreeNode> = Vec::new();
    spush_leaves(&mut v, texts, Ghost(ast), Ghost(Seq::empty()));
    proof { assert(Seq::<Shape>::empty() + leaves(strings_view(texts@)) =~= leaves(strings_view(texts@))); }
    sgroup(String::from_str(label), v, Ghost(ast), Ghost(leaves(strings_view(texts@))))
}

fn copy_strings(v: &Vec<String>) -> (r: Vec<String>)
    ensures
        strings_view(r@) =~= strings_view(v@),
{
    let mut out: Vec<String> = Vec::new();
    let mut i: usize = 0;
    while i < v.len()
        invariant
            i <= v@.len(),
            out@.len() == i,
            forall|k: int| 0 <= k < i ==> #[trigger] out@[k]@ == v@[k]@,
        decreases v@.len() - i,
    {
        out.push(v[i].clone());
        i = i + 1;
    }
    out
}

fn sfield_decl_strings(fs: &Vec<StagedFieldDecl>) -> (r: Vec<String>)
    ensures
        strings_view(r@) =~= fs@.map_values(|f: StagedFieldDecl| f.field_name@ + ": "@ + f.field_type@),
{
    let mut out: Vec<String> = Vec::new();
    let mut i: usize = 0;
    while i < fs.len()
        invariant
            i <= fs@.len(),
            out@.len() == i,
            forall|k: int| 0 <= k < i ==> #[trigger] out@[k]@ == fs@[k].field_name@ + ": "@ + fs@[k].field_type@,
        decreases fs@.len() - i,
    {
        let mut s = fs[i].field_name.clone();
        s.append(": ");
        s.append(fs[i].field_type.as_str());
        out.push(s);
        i = i + 1;
    }
    out
}

fn op_name_strings(ops: &Vec<EffectOp>) -> (r: Vec<String>)
    ensures
        strings_view(r@) =~= ops@.map_values(|op: EffectOp| op.name@),
{
    let mut out: Vec<String> = Vec::new();
    let mut i: usize = 0;
    while i < ops.len()
        invariant
            i <= ops@.len(),
            out@.len() == i,
            forall|k: int| 0 <= k < i ==> #[trigger] out@[k]@ == ops@[k].name@,
        decreases ops@.len() - i,
    {
        out.push(ops[i].name.clone());
        i = i + 1;
    }
    out
}

fn staged_stmt_label_string(s: &StagedStmt) -> (r: String)
    ensures
        r@ == staged_stmt_label(*s),
{
    match s {
        StagedStmt::ExprStmt(_) => String::from_str("ExprStmt"),
        StagedStmt::VarDecl { .. } => String::from_str("VarDecl"),
        StagedStmt::Assign { .. } => String::from_str("Assign"),
        StagedStmt::IndexAssign { .. } => String::from_str("IndexAssign"),
        StagedStmt::DotAssign { object, field, .. } => {
            let mut r = String::from_str("DotAssign(");
            r.append(object.as_str());
            r.append(".");
            r.append(field.as_str());
            r.append(")");
            r
        },
        StagedStmt::FnDecl { .. } => String::from_str("FnDecl"),
        StagedStmt::StructDecl { .. } => String::from_str("StructDecl"),
        StagedStmt::EnumDecl { .. } => String::from_str("EnumDecl"),
        StagedStmt::Match { .. } => String::from_str("Match"),
        StagedStmt::If { .. } => String::from_str("IfStmt"),
        StagedStmt::WhileLoop { .. } => String::from_str("WhileLoop"),
        StagedStmt::ForEach { .. } => String::from_str("ForEachStmt"),
        StagedStmt::Return(_) => String::from_str("ReturnStmt"),
        StagedStmt::Block(_) => String::from_str("Block"),
        StagedStmt::Import(_) => String::from_str("Import"),
        StagedStmt::Gen(_) => String::from_str("Gen"),
        StagedStmt::MetaStmt(_) => String::from_str("MetaRef"),
        StagedStmt::EffectDecl { .. } => String::from_str("EffectDecl"),
        StagedStmt::HandlerDef { name, effect_name, .. } => {
            let mut r = String::from_str("HandlerDef(");
            r.append(name.as_str());
            match effect_name {
                Some(e) => {
                    r.append(":");
                    r.append(e.as_str());
                },
                None => {},
            }
            r.append(")");
            r
        },
        StagedStmt::WithFn { .. } => String::from_str("WithFn"),
        StagedStmt::WithCtl { .. } => String::from_str("WithCtl"),
        StagedStmt::Resume(_) => String::from_str("Resume"),
        StagedStmt::Print(_) => String::from_str("PrintStmt"),
    }
}

fn staged_expr_label_string(e: &StagedExpr) -> (r: String)
    ensures
        r@ == staged_expr_label(*e),
{
    match e {
        StagedExpr::Int(_) => String::from_str("Int"),
        StagedExpr::String(_) => String::from_str("String"),
        StagedExpr::Bool(_) => String::from_str("Bool"),
        StagedExpr::Variable(_) => String::from_str("Var"),
        StagedExpr::StructLiteral { struct_name, .. } => wrapped_string("StructLiteral(", struct_name.as_str(), ")"),
        StagedExpr::List(_) => String::from_str("List"),
        StagedExpr::Call { callee, .. } => wrapped_string("Call(", callee.as_str(), ")"),
        StagedExpr::DotAccess { field, .. } => wrapped_string("DotAccess(.", field.as_str(), ")"),
        StagedExpr::DotCall { method, .. } => wrapped_string("DotCall(.", method.as_str(), ")"),
        StagedExpr::Index { .. } => String::from_str("Index"),
        StagedExpr::EnumConstructor { enum_name, variant, .. } => {
            let mut r = String::from_str("EnumConstructor(");
            r.append(enum_name.as_str());
            r.append("::");
            r.append(variant.as_str());
            r.append(")");
            r
        },
        StagedExpr::Add(_, _) => String::from_str("Add"),
        StagedExpr::Sub(_, _) => String::from_str("Sub"),
        StagedExpr::Mult(_, _) => String::from_str("Mult"),
        StagedExpr::Div(_, _) => String::from_str("Div"),
        StagedExpr::Mod(_, _) => String::from_str("Mod"),
        StagedExpr::Equals(_, _) => String::from_str("Equals"),
        StagedExpr::NotEquals(_, _) => String::from_str("NotEquals"),
        StagedExpr::Lt(_, _) => String::from_str("Lt"),
        StagedExpr::Gt(_, _) => String::from_str("Gt"),
        StagedExpr::Lte(_, _) => String::from_str("Lte"),
        StagedExpr::Gte(_, _) => String::from_str("Gte"),
        StagedExpr::And(_, _) => String::from_str("And"),
        StagedExpr::Or(_, _) => String::from_str("Or"),
        StagedExpr::Not(_) => String::from_str("Not"),
        StagedExpr::Tuple(_) => String::from_str("Tuple"),
        StagedExpr::TupleIndex { index, .. } => {
            let n = usize_to_string(*index);
            wrapped_string("TupleIndex(.", n.as_str(), ")")
        },
        StagedExpr::SliceRange { .. } => String::from_str("SliceRange"),
        StagedExpr::Lambda { params, .. } => {
            let j = join(params, ", ");
            wrapped_string("Lambda(", j.as_str(), ")")
        },
        StagedExpr::ResumeExpr(_) => String::from_str("ResumeExpr"),
        StagedExpr::RunHandle { .. } => String::from_str("RunHandle"),
        StagedExpr::RunWith { handler_name, .. } => wrapped_string("RunWith(", handler_name.as_str(), ")"),
        StagedExpr::MetaExpr(_) => String::from_str("MetaRef"),
    }
}

impl StagedAst {
    fn convert_stmt(&self, id: StagedNodeId, Ghost(er): Ghost<Map<usize, nat>>, Ghost(sr): Ghost<Map<usize, nat>>) -> (t: TreeNode)
        requires
            drawing_ranked(*self, er, sr),
            self.stmts@.contains_key(id.0),
        ensures
            staged_shows(*self, t, Shape::Stmt(id.0)),
        decreases sr[id.0], 4nat,
    {
        let s = self.get_stmt(id).unwrap();
        let label = staged_stmt_label_string(s);
        let mut out: Vec<TreeNode> = Vec::new();
        spush_leaf(&mut out, id_label_string(id.0), Ghost(*self), Ghost(Seq::empty()));
        let ghost ks0 = seq![Shape::Leaf(id_label(id.0))];
        self.stmt_children(id, s, &mut out, Ghost(er), Ghost(sr), Ghost(ks0));
        TreeNode::node(label, out)
    }

    fn convert_expr(&self, id: StagedNodeId, Ghost(er): Ghost<Map<usize, nat>>, Ghost(sr): Ghost<Map<usize, nat>>) -> (t: TreeNode)
        requires
            drawing_ranked(*self, er, sr),
            self.exprs@.contains_key(id.0),
        ensures
            staged_shows(*self, t, Shape::Expr(id.0)),
        decreases er[id.0], 4nat,
    {
        let e = self.get_expr(id).unwrap();
        let label = staged_expr_label_string(e);
        let mut out: Vec<TreeNode> = Vec::new();
        spush_leaf(&mut out, id_label_string(id.0), Ghost(*self), Ghost(Seq::empty()));
        let ghost ks0 = seq![Shape::Leaf(id_label(id.0))];
        self.expr_children(id, e, &mut out, Ghost(er), Ghost(sr), Ghost(ks0));
        TreeNode::node(label, out)
    }

    fn push_expr(&self, e: StagedNodeId, out: &mut Vec<TreeNode>, Ghost(b): Ghost<nat>, Ghost(er): Ghost<Map<usize, nat>>, Ghost(sr): Ghost<Map<usize, nat>>, Ghost(ks): Ghost<Seq<Shape>>)
        requires
            drawing_ranked(*self, er, sr),
            self.exprs@.contains_key(e.0),
            er[e.0] < b,
            staged_kids_show(*self, old(out)@, ks),
        ensures
            staged_kids_show(*self, final(out)@, ks.push(Shape::Expr(e.0))),
        decreases b, 0nat,
    {
        let t = self.convert_expr(e, Ghost(er), Ghost(sr));
        spush_tree(out, t, Ghost(*self), Ghost(ks), Ghost(Shape::Expr(e.0)));
    }

    fn push_stmt(&self, st: StagedNodeId, out: &mut Vec<TreeNode>, Ghost(b): Ghost<nat>, Ghost(er): Ghost<Map<usize, nat>>, Ghost(sr): Ghost<Map<usize, nat>>, Ghost(ks): Ghost<Seq<Shape>>)
        requires
            drawing_ranked(*self, er, sr),
            self.stmts@.contains_key(st.0),
            sr[st.0] < b,
            staged_kids_show(*self, old(out)@, ks),
        ensures
            staged_kids_show(*self, final(out)@, ks.push(Shape::Stmt(st.0))),
        decreases b, 0nat,
    {
        let t = self.convert_stmt(st, Ghost(er), Ghost(sr));
        spush_tree(out, t, Ghost(*self), Ghost(ks), Ghost(Shape::Stmt(st.0)));
    }

    /// Pushes a node labelled `label` over the tree of expression `e`.
    fn push_wrapped_expr(&self, label: &str, e: StagedNodeId, out: &mut Vec<TreeNode>, Ghost(b): Ghost<nat>, Ghost(er): Ghost<Map<usize, nat>>, Ghost(sr): Ghost<Map<usize, nat>>, Ghost(ks): Ghost<Seq<Shape>>)
        requires
            drawing_ranked(*self, er, sr),
            self.exprs@.contains_key(e.0),
            er[e.0] < b,
            staged_kids_show(*self, old(out)@, ks),
        ensures
            staged_kids_show(*self, final(out)@, ks.push(Shape::Node(label@, seq![Shape::Expr(e.0)]))),
        decreases b, 0nat,
    {
        let t = self.convert_expr(e, Ghost(er), Ghost(sr));
        let w = swrap(label, t, Ghost(*self), Ghost(Shape::Expr(e.0)));
        spush_tree(out, w, Ghost(*self), Ghost(ks), Ghost(Shape::Node(label@, seq![Shape::Expr(e.0)])));
    }

    /// Pushes a node labelled `label` over the tree of statement `st`.
    fn push_wrapped_stmt(&self, label: &str, st: StagedNodeId, out: &mut Vec<TreeNode>, Ghost(b): Ghost<nat>, Ghost(er): Ghost<Map<usize, nat>>, Ghost(sr): Ghost<Map<usize, nat>>, Ghost(ks): Ghost<Seq<Shape>>)
        requires
            drawing_ranked(*self, er, sr),
            self.stmts@.contains_key(st.0),
            sr[st.0] < b,
            staged_kids_show(*self, old(out)@, ks),
        ensures
            staged_kids_show(*self, final(out)@, ks.push(Shape::Node(label@, seq![Shape::Stmt(st.0)]))),
        decreases b, 0nat,
    {
        let t = self.convert_stmt(st, Ghost(er), Ghost(sr));
        let w = swrap(label, t, Ghost(*self), Ghost(Shape::Stmt(st.0)));
        spush_tree(out, w, Ghost(*self), Ghost(ks), Ghost(Shape::Node(label@, seq![Shape::Stmt(st.0)])));
    }

    fn push_opt_expr(&self, o: &Option<StagedNodeId>, out: &mut Vec<TreeNode>, Ghost(b): Ghost<nat>, Ghost(er): Ghost<Map<usize, nat>>, Ghost(sr): Ghost<Map<usize, nat>>, Ghost(ks): Ghost<Seq<Shape>>)
        requires
            drawing_ranked(*self, er, sr),
            under(staged_opt(*o), self.exprs@, er, b),
            staged_kids_show(*self, old(out)@, ks),
        ensures
            staged_kids_show(*self, final(out)@, ks + sexpr_shapes(staged_opt(*o))),
        decreases b, 0nat,
    {
        match o {
            Some(e) => {
                proof { assert(staged_opt(*o)[0] == *e); }
                let t = self.convert_expr(*e, Ghost(er), Ghost(sr));
                spush_tree(out, t, Ghost(*self), Ghost(ks), Ghost(Shape::Expr(e.0)));
                proof { assert(ks.push(Shape::Expr(e.0)) =~= ks + sexpr_shapes(staged_opt(*o))); }
            },
            None => {
                proof { assert(ks =~= ks + sexpr_shapes(staged_opt(*o))); }
            },
        }
    }

    fn push_exprs(&self, ids: &Vec<StagedNodeId>, out: &mut Vec<TreeNode>, Ghost(b): Ghost<nat>, Ghost(er): Ghost<Map<usize, nat>>, Ghost(sr): Ghost<Map<usize, nat>>, Ghost(ks0): Ghost<Seq<Shape>>)
        requires
            drawing_ranked(*self, er, sr),
            under(ids@, self.exprs@, er, b),
            staged_kids_show(*self, old(out)@, ks0),
        ensures
            staged_kids_show(*self, final(out)@, ks0 + sexpr_shapes(ids@)),
        decreases b, 0nat,
    {
        let mut i: usize = 0;
        proof { assert(ks0 + sexpr_shapes(ids@.take(0)) =~= ks0); }
        while i < ids.len()
            invariant
                drawing_ranked(*self, er, sr),
                under(ids@, self.exprs@, er, b),
                i <= ids@.len(),
                staged_kids_show(*self, out@, ks0 + sexpr_shapes(ids@.take(i as int))),
            decreases ids@.len() - i,
        {
            let e = ids[i];
            proof { assert(self.exprs@.contains_key(ids@[i as int].0)); }
            let t = self.convert_expr(e, Ghost(er), Ghost(sr));
            proof {
                assert(ks0 + sexpr_shapes(ids@.take(i + 1))
                    =~= (ks0 + sexpr_shapes(ids@.take(i as int))).push(Shape::Expr(e.0)));
            }
            spush_tree(out, t, Ghost(*self), Ghost(ks0 + sexpr_shapes(ids@.take(i as int))), Ghost(Shape::Expr(e.0)));
            i = i + 1;
        }
        proof { assert(ids@.take(ids@.len() as int) =~= ids@); }
    }

    fn push_stmts(&self, ids: &Vec<StagedNodeId>, out: &mut Vec<TreeNode>, Ghost(b): Ghost<nat>, Ghost(er): Ghost<Map<usize, nat>>, Ghost(sr): Ghost<Map<usize, nat>>, Ghost(ks0): Ghost<Seq<Shape>>)
        requires
            drawing_ranked(*self, er, sr),
            under(ids@, self.stmts@, sr, b),
            staged_kids_show(*self, old(out)@, ks0),
        ensures
            staged_kids_show(*self, final(out)@, ks0 + sstmt_shapes(ids@)),
        decreases b, 0nat,
    {
        let mut i: usize = 0;
        proof { assert(ks0 + sstmt_shapes(ids@.take(0)) =~= ks0); }
        while i < ids.len()
            invariant
                drawing_ranked(*self, er, sr),
                under(ids@, self.stmts@, sr, b),
                i <= ids@.len(),
                staged_kids_show(*self, out@, ks0 + sstmt_shapes(ids@.take(i as int))),
            decreases ids@.len() - i,
        {
            let st = ids[i];
            proof { assert(self.stmts@.contains_key(ids@[i as int].0)); }
            let t = self.convert_stmt(st, Ghost(er), Ghost(sr));
            proof {
                assert(ks0 + sstmt_shapes(ids@.take(i + 1))
                    =~= (ks0 + sstmt_shapes(ids@.take(i as int))).push(Shape::Stmt(st.0)));
            }
            spush_tree(out, t, Ghost(*self), Ghost(ks0 + sstmt_shapes(ids@.take(i as int))), Ghost(Shape::Stmt(st.0)));
            i = i + 1;
        }
        proof { assert(ids@.take(ids@.len() as int) =~= ids@); }
    }

    fn push_fields(&self, fields: &Vec<(String, StagedNodeId)>, out: &mut Vec<TreeNode>, Ghost(b): Ghost<nat>, Ghost(er): Ghost<Map<usize, nat>>, Ghost(sr): Ghost<Map<usize, nat>>, Ghost(ks0): Ghost<Seq<Shape>>)
        requires
            drawing_ranked(*self, er, sr),
            under(spair_ids(fields@), self.exprs@, er, b),
            staged_kids_show(*self, old(out)@, ks0),
        ensures
            staged_kids_show(*self, final(out)@, ks0 + sfield_shapes(fields@)),
        decreases b, 0nat,
    {
        let mut i: usize = 0;
        proof { assert(ks0 + sfield_shapes(fields@.take(0)) =~= ks0); }
        while i < fields.len()
            invariant
                drawing_ranked(*self, er, sr),
                under(spair_ids(fields@), self.exprs@, er, b),
                i <= fields@.len(),
                staged_kids_show(*self, out@, ks0 + sfield_shapes(fields@.take(i as int))),
            decreases fields@.len() - i,
        {
            let e = fields[i].1;
            proof { assert(spair_ids(fields@)[i as int] == e); }
            let t = self.convert_expr(e, Ghost(er), Ghost(sr));
            let w = swrap(fields[i].0.as_str(), t, Ghost(*self), Ghost(Shape::Expr(e.0)));
            let ghost sh = Shape::Node(fields@[i as int].0@, seq![Shape::Expr(e.0)]);
            proof {
                assert(ks0 + sfield_shapes(fields@.take(i + 1))
                    =~= (ks0 + sfield_shapes(fields@.take(i as int))).push(sh));
            }
            spush_tree(out, w, Ghost(*self), Ghost(ks0 + sfield_shapes(fields@.take(i as int))), Ghost(sh));
            i = i + 1;
        }
        proof { assert(fields@.take(fields@.len() as int) =~= fields@); }
    }

    fn push_arms(&self, arms: &Vec<StagedMatchArm>, out: &mut Vec<TreeNode>, Ghost(b): Ghost<nat>, Ghost(er): Ghost<Map<usize, nat>>, Ghost(sr): Ghost<Map<usize, nat>>, Ghost(ks0): Ghost<Seq<Shape>>)
        requires
            drawing_ranked(*self, er, sr),
            under(staged_arm_ids(arms@), self.stmts@, sr, b),
            staged_kids_show(*self, old(out)@, ks0),
        ensures
            staged_kids_show(*self, final(out)@, ks0 + sarm_shapes(arms@)),
        decreases b, 0nat,
    {
        let mut i: usize = 0;
        proof { assert(ks0 + sarm_shapes(arms@.take(0)) =~= ks0); }
        while i < arms.len()
            invariant
                drawing_ranked(*self, er, sr),
                under(staged_arm_ids(arms@), self.stmts@, sr, b),
                i <= arms@.len(),
                staged_kids_show(*self, out@, ks0 + sarm_shapes(arms@.take(i as int))),
            decreases arms@.len() - i,
        {
            let arm = &arms[i];
            proof { assert(staged_arm_ids(arms@)[i as int] == arm.body); }
            let mut v: Vec<TreeNode> = Vec::new();
            let p = pattern_string(&arm.pattern);
            spush_leaf(&mut v, p, Ghost(*self), Ghost(Seq::empty()));
            let ghost k1 = seq![Shape::Leaf(pattern_text(arm.pattern))];
            let t = self.convert_stmt(arm.body, Ghost(er), Ghost(sr));
            spush_tree(&mut v, t, Ghost(*self), Ghost(k1), Ghost(Shape::Stmt(arm.body.0)));
            let ghost k2 = seq![Shape::Leaf(pattern_text(arm.pattern)), Shape::Stmt(arm.body.0)];
            proof { assert(k1.push(Shape::Stmt(arm.body.0)) =~= k2); }
            let w = sgroup(String::from_str("Arm"), v, Ghost(*self), Ghost(k2));
            proof {
                assert(ks0 + sarm_shapes(arms@.take(i + 1))
                    =~= (ks0 + sarm_shapes(arms@.take(i as int))).push(Shape::Node("Arm"@, k2)));
            }
            spush_tree(out, w, Ghost(*self), Ghost(ks0 + sarm_shapes(arms@.take(i as int))), Ghost(Shape::Node("Arm"@, k2)));
            i = i + 1;
        }
        proof { assert(arms@.take(arms@.len() as int) =~= arms@); }
    }

    fn push_handlers(&self, effects: &Vec<(String, Vec<StagedNodeId>)>, out: &mut Vec<TreeNode>, Ghost(b): Ghost<nat>, Ghost(er): Ghost<Map<usize, nat>>, Ghost(sr): Ghost<Map<usize, nat>>, Ghost(ks0): Ghost<Seq<Shape>>)
        requires
            drawing_ranked(*self, er, sr),
            handlers_under(effects@, self.stmts@, sr, b),
            staged_kids_show(*self, old(out)@, ks0),
        ensures
            staged_kids_show(*self, final(out)@, ks0 + shandler_shapes(effects@)),
        decreases b, 1nat,
    {
        let mut j: usize = 0;
        proof { assert(ks0 + shandler_shapes(effects@.take(0)) =~= ks0); }
        while j < effects.len()
            invariant
                drawing_ranked(*self, er, sr),
                handlers_under(effects@, self.stmts@, sr, b),
                j <= effects@.len(),
                staged_kids_show(*self, out@, ks0 + shandler_shapes(effects@.take(j as int))),
            decreases effects@.len() - j,
        {
            let ghost before = ks0 + shandler_shapes(effects@.take(j as int));
            proof {
                assert forall|k: int| 0 <= k < effects@[j as int].1@.len() implies
                    self.stmts@.contains_key(#[trigger] effects@[j as int].1@[k].0)
                        && sr[effects@[j as int].1@[k].0] < b by {
                    assert(self.stmts@.contains_key(effects@[j as int].1@[k].0));
                }
            }
            self.push_stmts(&effects[j].1, out, Ghost(b), Ghost(er), Ghost(sr), Ghost(before));
            proof {
                let f = |e: (String, Vec<StagedNodeId>)| sstmt_shapes(e.1@);
                assert(effects@.take(j + 1).map_values(f) =~= effects@.take(j as int).map_values(f).push(f(effects@[j as int])));
                effects@.take(j as int).map_values(f).lemma_flatten_push(f(effects@[j as int]));
                assert(ks0 + shandler_shapes(effects@.take(j + 1)) =~= before + sstmt_shapes(effects@[j as int].1@));
            }
            j = j + 1;
        }
        proof { assert(effects@.take(effects@.len() as int) =~= effects@); }
    }
    fn expr_children(&self, id: StagedNodeId, e: &StagedExpr, out: &mut Vec<TreeNode>, Ghost(er): Ghost<Map<usize, nat>>, Ghost(sr): Ghost<Map<usize, nat>>, Ghost(ks0): Ghost<Seq<Shape>>)
        requires
            drawing_ranked(*self, er, sr),
            self.exprs@.contains_key(id.0),
            *e == self.exprs@[id.0],
            staged_kids_show(*self, old(out)@, ks0),
        ensures
            staged_kids_show(*self, final(out)@, ks0 + staged_expr_kid_shapes(*e)),
        decreases er[id.0], 3nat,
    {
        
        let ghost ast = *self;
        let ghost p = er[id.0];
        let ghost ek = drawn_expr_exprs(*e);
        let ghost sk = drawn_expr_stmts(*e);
        match e {
            StagedExpr::Int(v) => {
                let text = i64_to_string(*v);
                spush_leaf(out, text, Ghost(ast), Ghost(ks0));
                proof { assert(ks0.push(Shape::Leaf(int_text(*v as int))) =~= ks0 + staged_expr_kid_shapes(*e)); }
            },
            StagedExpr::String(st) => {
                let text = quoted_string(st.as_str());
                spush_leaf(out, text, Ghost(ast), Ghost(ks0));
                proof { assert(ks0.push(Shape::Leaf(quoted(st@))) =~= ks0 + staged_expr_kid_shapes(*e)); }
            },
            StagedExpr::Bool(b) => {
                let text = bool_to_string(*b);
                spush_leaf(out, text, Ghost(ast), Ghost(ks0));
                proof { assert(ks0.push(Shape::Leaf(bool_text(*b))) =~= ks0 + staged_expr_kid_shapes(*e)); }
            },
            StagedExpr::Variable(n) => {
                spush_leaf(out, n.clone(), Ghost(ast), Ghost(ks0));
                proof { assert(ks0.push(Shape::Leaf(n@)) =~= ks0 + staged_expr_kid_shapes(*e)); }
            },
            StagedExpr::StructLiteral { fields, .. } => {
                self.push_fields(fields, out, Ghost(p), Ghost(er), Ghost(sr), Ghost(ks0));
            },
            StagedExpr::List(items) => {
                self.push_exprs(items, out, Ghost(p), Ghost(er), Ghost(sr), Ghost(ks0));
            },
            StagedExpr::Tuple(items) => {
                self.push_exprs(items, out, Ghost(p), Ghost(er), Ghost(sr), Ghost(ks0));
            },
            StagedExpr::Call { args, .. } => {
                self.push_exprs(args, out, Ghost(p), Ghost(er), Ghost(sr), Ghost(ks0));
            },
            StagedExpr::DotAccess { object, .. } => {
                proof { assert(self.exprs@.contains_key(ek[0].0)); }
                self.push_expr(*object, out, Ghost(p), Ghost(er), Ghost(sr), Ghost(ks0));
                proof { assert(ks0.push(Shape::Expr(object.0)) =~= ks0 + staged_expr_kid_shapes(*e)); }
            },
            StagedExpr::TupleIndex { object, .. } => {
                proof { assert(self.exprs@.contains_key(ek[0].0)); }
                self.push_expr(*object, out, Ghost(p), Ghost(er), Ghost(sr), Ghost(ks0));
                proof { assert(ks0.push(Shape::Expr(object.0)) =~= ks0 + staged_expr_kid_shapes(*e)); }
            },
            StagedExpr::Not(a) => {
                proof { assert(self.exprs@.contains_key(ek[0].0)); }
                self.push_expr(*a, out, Ghost(p), Ghost(er), Ghost(sr), Ghost(ks0));
                proof { assert(ks0.push(Shape::Expr(a.0)) =~= ks0 + staged_expr_kid_shapes(*e)); }
            },
            StagedExpr::DotCall { object, args, .. } => {
                proof {
                    assert(self.exprs@.contains_key(ek[0].0));
                    assert forall|i: int| 0 <= i < args@.len() implies
                        self.exprs@.contains_key(#[trigger] args@[i].0) && er[args@[i].0] < p by {
                        assert(ek[i + 1] == args@[i]);
                    }
                }
                self.push_expr(*object, out, Ghost(p), Ghost(er), Ghost(sr), Ghost(ks0));
                let ghost k1 = ks0.push(Shape::Expr(object.0));
                self.push_exprs(args, out, Ghost(p), Ghost(er), Ghost(sr), Ghost(k1));
                proof { assert(k1 + sexpr_shapes(args@) =~= ks0 + staged_expr_kid_shapes(*e)); }
            },
            StagedExpr::Index { object, index } => {
                proof { assert(self.exprs@.contains_key(ek[0].0)); assert(self.exprs@.contains_key(ek[1].0)); }
                self.push_expr(*object, out, Ghost(p), Ghost(er), Ghost(sr), Ghost(ks0));
                let ghost k1 = ks0.push(Shape::Expr(object.0));
                self.push_expr(*index, out, Ghost(p), Ghost(er), Ghost(sr), Ghost(k1));
                proof { assert(k1.push(Shape::Expr(index.0)) =~= ks0 + staged_expr_kid_shapes(*e)); }
            },
            StagedExpr::EnumConstructor { .. } => {
                proof { assert(ks0 =~= ks0 + staged_expr_kid_shapes(*e)); }
            },
            StagedExpr::MetaExpr(r) => {
                let text = usize_to_string(r.ast_ref);
                spush_leaf(out, text, Ghost(ast), Ghost(ks0));
                proof { assert(ks0.push(Shape::Leaf(meta_ref_label(r.ast_ref))) =~= ks0 + staged_expr_kid_shapes(*e)); }
            },
            StagedExpr::Add(a, b) | StagedExpr::Sub(a, b) | StagedExpr::Mult(a, b) | StagedExpr::Div(a, b) | StagedExpr::Mod(a, b) | StagedExpr::Equals(a, b) | StagedExpr::NotEquals(a, b) | StagedExpr::Lt(a, b) | StagedExpr::Gt(a, b) | StagedExpr::Lte(a, b) | StagedExpr::Gte(a, b) | StagedExpr::And(a, b) | StagedExpr::Or(a, b) => {
                proof { assert(self.exprs@.contains_key(ek[0].0)); assert(self.exprs@.contains_key(ek[1].0)); }
                self.push_expr(*a, out, Ghost(p), Ghost(er), Ghost(sr), Ghost(ks0));
                let ghost k1 = ks0.push(Shape::Expr(a.0));
                self.push_expr(*b, out, Ghost(p), Ghost(er), Ghost(sr), Ghost(k1));
                proof { assert(k1.push(Shape::Expr(b.0)) =~= ks0 + staged_expr_kid_shapes(*e)); }
            },
            StagedExpr::SliceRange { object, start, end } => {
                proof {
                    assert(self.exprs@.contains_key(ek[0].0));
                    assert forall|i: int| 0 <= i < staged_opt(*start).len() implies
                        self.exprs@.contains_key(#[trigger] staged_opt(*start)[i].0) && er[staged_opt(*start)[i].0] < p by {
                        assert(ek[i + 1] == staged_opt(*start)[i]);
                    }
                    assert forall|i: int| 0 <= i < staged_opt(*end).len() implies
                        self.exprs@.contains_key(#[trigger] staged_opt(*end)[i].0) && er[staged_opt(*end)[i].0] < p by {
                        assert(ek[i + 1 + staged_opt(*start).len()] == staged_opt(*end)[i]);
                    }
                }
                self.push_expr(*object, out, Ghost(p), Ghost(er), Ghost(sr), Ghost(ks0));
                let ghost k1 = ks0.push(Shape::Expr(object.0));
                self.push_opt_expr(start, out, Ghost(p), Ghost(er), Ghost(sr), Ghost(k1));
                let ghost k2 = k1 + sexpr_shapes(staged_opt(*start));
                self.push_opt_expr(end, out, Ghost(p), Ghost(er), Ghost(sr), Ghost(k2));
                proof { assert(k2 + sexpr_shapes(staged_opt(*end)) =~= ks0 + staged_expr_kid_shapes(*e)); }
            },
            StagedExpr::Lambda { .. } => {
                proof { assert(ks0 =~= ks0 + staged_expr_kid_shapes(*e)); }
            },
            StagedExpr::RunWith { body, .. } => {
                proof { assert(self.stmts@.contains_key(sk[0].0)); }
                self.push_stmt(*body, out, Ghost(p), Ghost(er), Ghost(sr), Ghost(ks0));
                proof { assert(ks0.push(Shape::Stmt(body.0)) =~= ks0 + staged_expr_kid_shapes(*e)); }
            },
            StagedExpr::ResumeExpr(o) => {
                self.push_opt_expr(o, out, Ghost(p), Ghost(er), Ghost(sr), Ghost(ks0));
            },
            StagedExpr::RunHandle { body, effects } => {
                proof { assert(self.stmts@.contains_key(sk[0].0)); }
                self.push_stmt(*body, out, Ghost(p), Ghost(er), Ghost(sr), Ghost(ks0));
                let ghost k1 = ks0.push(Shape::Stmt(body.0));
                self.push_handlers(effects, out, Ghost(p), Ghost(er), Ghost(sr), Ghost(k1));
                proof { assert(k1 + shandler_shapes(effects@) =~= ks0 + staged_expr_kid_shapes(*e)); }
            },
        }
    }

    fn stmt_children(&self, id: StagedNodeId, s: &StagedStmt, out: &mut Vec<TreeNode>, Ghost(er): Ghost<Map<usize, nat>>, Ghost(sr): Ghost<Map<usize, nat>>, Ghost(ks0): Ghost<Seq<Shape>>)
        requires
            drawing_ranked(*self, er, sr),
            self.stmts@.contains_key(id.0),
            *s == self.stmts@[id.0],
            staged_kids_show(*self, old(out)@, ks0),
        ensures
            staged_kids_show(*self, final(out)@, ks0 + staged_stmt_kid_shapes(*s)),
        decreases sr[id.0], 3nat,
    {
        let ghost ast = *self;
        let ghost p = sr[id.0];
        let ghost ek = drawn_stmt_exprs(*s);
        let ghost sk = drawn_stmt_stmts(*s);
        match s {
            StagedStmt::ExprStmt(e) => {
                proof { assert(self.exprs@.contains_key(ek[0].0)); }
                self.push_expr(*e, out, Ghost(p), Ghost(er), Ghost(sr), Ghost(ks0));
                proof { assert(ks0.push(Shape::Expr(e.0)) =~= ks0 + staged_stmt_kid_shapes(*s)); }
            },
            StagedStmt::Print(e) => {
                proof { assert(self.exprs@.contains_key(ek[0].0)); }
                self.push_expr(*e, out, Ghost(p), Ghost(er), Ghost(sr), Ghost(ks0));
                proof { assert(ks0.push(Shape::Expr(e.0)) =~= ks0 + staged_stmt_kid_shapes(*s)); }
            },
            StagedStmt::VarDecl { name, expr } => {
                let text = name_label_string(name.as_str());
                let ghost l = text@;
                spush_leaf(out, text, Ghost(ast), Ghost(ks0));
                proof { assert(self.exprs@.contains_key(ek[0].0)); }
                self.push_expr(*expr, out, Ghost(p), Ghost(er), Ghost(sr), Ghost(ks0.push(Shape::Leaf(l))));
                proof { assert(ks0.push(Shape::Leaf(l)).push(Shape::Expr(expr.0)) =~= ks0 + staged_stmt_kid_shapes(*s)); }
            },
            StagedStmt::Assign { name, expr } => {
                let text = name_label_string(name.as_str());
                let ghost l = text@;
                spush_leaf(out, text, Ghost(ast), Ghost(ks0));
                proof { assert(self.exprs@.contains_key(ek[0].0)); }
                self.push_expr(*expr, out, Ghost(p), Ghost(er), Ghost(sr), Ghost(ks0.push(Shape::Leaf(l))));
                proof { assert(ks0.push(Shape::Leaf(l)).push(Shape::Expr(expr.0)) =~= ks0 + staged_stmt_kid_shapes(*s)); }
            },
            StagedStmt::IndexAssign { name, indices, expr } => {
                let text = name_label_string(name.as_str());
                let ghost l = text@;
                spush_leaf(out, text, Ghost(ast), Ghost(ks0));
                let ghost k1 = ks0.push(Shape::Leaf(l));
                proof {
                    assert forall|i: int| 0 <= i < indices@.len() implies
                        self.exprs@.contains_key(#[trigger] indices@[i].0) && er[indices@[i].0] < p by {
                        assert(ek[i] == indices@[i]);
                        assert(self.exprs@.contains_key(ek[i].0));
                    }
                    assert(ek[indices@.len() as int] == *expr);
                    assert(self.exprs@.contains_key(ek[indices@.len() as int].0));
                }
                self.push_exprs(indices, out, Ghost(p), Ghost(er), Ghost(sr), Ghost(k1));
                self.push_expr(*expr, out, Ghost(p), Ghost(er), Ghost(sr), Ghost(k1 + sexpr_shapes(indices@)));
                proof { assert((k1 + sexpr_shapes(indices@)).push(Shape::Expr(expr.0)) =~= ks0 + staged_stmt_kid_shapes(*s)); }
            },
            StagedStmt::DotAssign { expr, .. } => {
                proof { assert(self.exprs@.contains_key(ek[0].0)); }
                self.push_expr(*expr, out, Ghost(p), Ghost(er), Ghost(sr), Ghost(ks0));
                proof { assert(ks0.push(Shape::Expr(expr.0)) =~= ks0 + staged_stmt_kid_shapes(*s)); }
            },
            StagedStmt::FnDecl { name, params, body, .. } => {
                let text = name_label_string(name.as_str());
                let ghost l = text@;
                spush_leaf(out, text, Ghost(ast), Ghost(ks0));
                let ghost k1 = ks0.push(Shape::Leaf(l));
                let texts = copy_strings(params);
                let g = sleaf_group("Params", texts, Ghost(ast));
                let ghost ps = Shape::Node("Params"@, leaves(strings_view(params@)));
                spush_tree(out, g, Ghost(ast), Ghost(k1), Ghost(ps));
                let ghost k2 = k1.push(ps);
                proof { assert(self.stmts@.contains_key(sk[0].0)); }
                self.push_stmt(*body, out, Ghost(p), Ghost(er), Ghost(sr), Ghost(k2));
                proof { assert(k2.push(Shape::Stmt(body.0)) =~= ks0 + staged_stmt_kid_shapes(*s)); }
            },
            StagedStmt::StructDecl { name, fields } => {
                let text = name_label_string(name.as_str());
                let ghost l = text@;
                spush_leaf(out, text, Ghost(ast), Ghost(ks0));
                let ghost k1 = ks0.push(Shape::Leaf(l));
                let texts = sfield_decl_strings(fields);
                let ghost fs = leaves(strings_view(texts@));
                let g = sleaf_group("Fields", texts, Ghost(ast));
                spush_tree(out, g, Ghost(ast), Ghost(k1), Ghost(Shape::Node("Fields"@, fs)));
                proof {
                    assert(fs =~= fields@.map_values(|f: StagedFieldDecl| Shape::Leaf(f.field_name@ + ": "@ + f.field_type@)));
                    assert(k1.push(Shape::Node("Fields"@, fs)) =~= ks0 + staged_stmt_kid_shapes(*s));
                }
            },
            StagedStmt::EnumDecl { name, variants, .. } => {
                let text = name_label_string(name.as_str());
                let ghost l = text@;
                spush_leaf(out, text, Ghost(ast), Ghost(ks0));
                let ghost k1 = ks0.push(Shape::Leaf(l));
                let texts = variant_strings(variants);
                let ghost vs = leaves(strings_view(texts@));
                spush_leaves(out, texts, Ghost(ast), Ghost(k1));
                proof {
                    assert(vs =~= variants@.map_values(|v: EnumVariant| Shape::Leaf("Variant("@ + v.name@ + ")"@)));
                    assert(k1 + vs =~= ks0 + staged_stmt_kid_shapes(*s));
                }
            },
            StagedStmt::Match { scrutinee, arms } => {
                proof { assert(self.exprs@.contains_key(ek[0].0)); }
                self.push_wrapped_expr("Scrutinee", *scrutinee, out, Ghost(p), Ghost(er), Ghost(sr), Ghost(ks0));
                let ghost k1 = ks0.push(Shape::Node("Scrutinee"@, seq![Shape::Expr(scrutinee.0)]));
                self.push_arms(arms, out, Ghost(p), Ghost(er), Ghost(sr), Ghost(k1));
                proof { assert(k1 + sarm_shapes(arms@) =~= ks0 + staged_stmt_kid_shapes(*s)); }
            },
            StagedStmt::If { cond, body, else_branch } => {
                proof { assert(self.exprs@.contains_key(ek[0].0)); assert(self.stmts@.contains_key(sk[0].0)); }
                self.push_wrapped_expr("Cond", *cond, out, Ghost(p), Ghost(er), Ghost(sr), Ghost(ks0));
                let ghost k1 = ks0.push(Shape::Node("Cond"@, seq![Shape::Expr(cond.0)]));
                self.push_wrapped_stmt("Then", *body, out, Ghost(p), Ghost(er), Ghost(sr), Ghost(k1));
                let ghost k2 = k1.push(Shape::Node("Then"@, seq![Shape::Stmt(body.0)]));
                match else_branch {
                    Some(e) => {
                        proof { assert(sk[1] == *e); assert(self.stmts@.contains_key(sk[1].0)); }
                        self.push_wrapped_stmt("Else", *e, out, Ghost(p), Ghost(er), Ghost(sr), Ghost(k2));
                        proof {
                            assert(k2.push(Shape::Node("Else"@, seq![Shape::Stmt(e.0)])) =~= ks0 + staged_stmt_kid_shapes(*s));
                        }
                    },
                    None => {
                        proof { assert(k2 =~= ks0 + staged_stmt_kid_shapes(*s)); }
                    },
                }
            },
            StagedStmt::WhileLoop { cond, body } => {
                proof { assert(self.exprs@.contains_key(ek[0].0)); assert(self.stmts@.contains_key(sk[0].0)); }
                self.push_wrapped_expr("Cond", *cond, out, Ghost(p), Ghost(er), Ghost(sr), Ghost(ks0));
                let ghost k1 = ks0.push(Shape::Node("Cond"@, seq![Shape::Expr(cond.0)]));
                self.push_wrapped_stmt("Body", *body, out, Ghost(p), Ghost(er), Ghost(sr), Ghost(k1));
                proof {
                    assert(k1.push(Shape::Node("Body"@, seq![Shape::Stmt(body.0)])) =~= ks0 + staged_stmt_kid_shapes(*s));
                }
            },
            StagedStmt::ForEach { var, iterable, body } => {
                let vt = for_var_string(var);
                let text = wrapped_string("Var(", vt.as_str(), ")");
                let ghost l = text@;
                spush_leaf(out, text, Ghost(ast), Ghost(ks0));
                let ghost k1 = ks0.push(Shape::Leaf(l));
                proof { assert(self.exprs@.contains_key(ek[0].0)); assert(self.stmts@.contains_key(sk[0].0)); }
                self.push_wrapped_expr("Iterable", *iterable, out, Ghost(p), Ghost(er), Ghost(sr), Ghost(k1));
                let ghost k2 = k1.push(Shape::Node("Iterable"@, seq![Shape::Expr(iterable.0)]));
                self.push_wrapped_stmt("Body", *body, out, Ghost(p), Ghost(er), Ghost(sr), Ghost(k2));
                proof {
                    assert(k2.push(Shape::Node("Body"@, seq![Shape::Stmt(body.0)])) =~= ks0 + staged_stmt_kid_shapes(*s));
                }
            },
            StagedStmt::Return(o) => {
                self.push_opt_expr(o, out, Ghost(p), Ghost(er), Ghost(sr), Ghost(ks0));
            },
            StagedStmt::Resume(o) => {
                self.push_opt_expr(o, out, Ghost(p), Ghost(er), Ghost(sr), Ghost(ks0));
            },
            StagedStmt::Block(stmts) => {
                self.push_stmts(stmts, out, Ghost(p), Ghost(er), Ghost(sr), Ghost(ks0));
            },
            StagedStmt::Gen(stmts) => {
                self.push_stmts(stmts, out, Ghost(p), Ghost(er), Ghost(sr), Ghost(ks0));
            },
            StagedStmt::HandlerDef { ops, .. } => {
                self.push_stmts(ops, out, Ghost(p), Ghost(er), Ghost(sr), Ghost(ks0));
            },
            StagedStmt::Import(decl) => {
                let text = String::from_str(decl.path());
                spush_leaf(out, text, Ghost(ast), Ghost(ks0));
                proof { assert(ks0.push(Shape::Leaf(decl.spec_path())) =~= ks0 + staged_stmt_kid_shapes(*s)); }
            },
            StagedStmt::MetaStmt(r) => {
                let text = usize_to_string(r.ast_ref);
                spush_leaf(out, text, Ghost(ast), Ghost(ks0));
                proof { assert(ks0.push(Shape::Leaf(meta_ref_label(r.ast_ref))) =~= ks0 + staged_stmt_kid_shapes(*s)); }
            },
            StagedStmt::EffectDecl { name, ops, .. } => {
                let text = name_label_string(name.as_str());
                let ghost l = text@;
                spush_leaf(out, text, Ghost(ast), Ghost(ks0));
                let ghost k1 = ks0.push(Shape::Leaf(l));
                let texts = op_name_strings(ops);
                let ghost os = leaves(strings_view(texts@));
                spush_leaves(out, texts, Ghost(ast), Ghost(k1));
                proof {
                    assert(os =~= ops@.map_values(|op: EffectOp| Shape::Leaf(op.name@)));
                    assert(k1 + os =~= ks0 + staged_stmt_kid_shapes(*s));
                }
            },
            StagedStmt::WithFn { op_name, body, .. } => {
                let text = wrapped_string("Op(", op_name.as_str(), ")");
                let ghost l = text@;
                spush_leaf(out, text, Ghost(ast), Ghost(ks0));
                let ghost k1 = ks0.push(Shape::Leaf(l));
                proof { assert(self.stmts@.contains_key(sk[0].0)); }
                self.push_stmt(*body, out, Ghost(p), Ghost(er), Ghost(sr), Ghost(k1));
                proof { assert(k1.push(Shape::Stmt(body.0)) =~= ks0 + staged_stmt_kid_shapes(*s)); }
            },
            StagedStmt::WithCtl { op_name, body, .. } => {
                let text = wrapped_string("Op(", op_name.as_str(), ")");
                let ghost l = text@;
                spush_leaf(out, text, Ghost(ast), Ghost(ks0));
                let ghost k1 = ks0.push(Shape::Leaf(l));
                proof { assert(self.stmts@.contains_key(sk[0].0)); }
                self.push_stmt(*body, out, Ghost(p), Ghost(er), Ghost(sr), Ghost(k1));
                proof { assert(k1.push(Shape::Stmt(body.0)) =~= ks0 + staged_stmt_kid_shapes(*s)); }
            },
        }
    }
}

impl AsTree for StagedAst {
    /// Some ranking orders every node the drawing follows, and every
    /// top-level statement is in the tree.
    open spec fn drawable(&self) -> bool {
        &&& exists|er: Map<usize, nat>, sr: Map<usize, nat>| drawing_ranked(*self, er, sr)
        &&& forall|i: int| 0 <= i < self.sem_root_stmts@.len()
                ==> self.stmts@.contains_key(#[trigger] self.sem_root_stmts@[i].0)
    }

    /// One tree per top-level statement, in order.
    open spec fn trees_are(&self, ts: Seq<TreeNode>) -> bool {
        staged_kids_show(*self, ts, sstmt_shapes(self.sem_root_stmts@))
    }

    fn as_tree(&self) -> (ts: Vec<TreeNode>) {
        let ghost (er, sr) = choose|er: Map<usize, nat>, sr: Map<usize, nat>| drawing_ranked(*self, er, sr);
        let roots = &self.sem_root_stmts;
        let mut nodes: Vec<TreeNode> = Vec::new();
        let mut i: usize = 0;
        proof { assert(sstmt_shapes(roots@.take(0)) =~= Seq::<Shape>::empty()); }
        while i < roots.len()
            invariant
                self.drawable(),
                drawing_ranked(*self, er, sr),
                roots@ == self.sem_root_stmts@,
                i <= roots@.len(),
                staged_kids_show(*self, nodes@, sstmt_shapes(roots@.take(i as int))),
            decreases roots@.len() - i,
        {
            let id = roots[i];
            proof { assert(self.stmts@.contains_key(self.sem_root_stmts@[i as int].0)); }
            let t = self.convert_stmt(id, Ghost(er), Ghost(sr));
            proof {
                assert(sstmt_shapes(roots@.take(i + 1)) =~= sstmt_shapes(roots@.take(i as int)).push(Shape::Stmt(id.0)));
            }
            spush_tree(&mut nodes, t, Ghost(*self), Ghost(sstmt_shapes(roots@.take(i as int))), Ghost(Shape::Stmt(id.0)));
            i = i + 1;
        }
        proof { assert(roots@.take(roots@.len() as int) =~= roots@); }
        nodes
    }
}

/// `t` is the node of tree `id` of a forest: labelled `Tree id`, over the
/// trees of `ast`.
pub open spec fn forest_node(ast: StagedAst, id: usize, t: TreeNode) -> bool {
    &&& t.label@ == "Tree "@ + nat_text(id as nat)
    &&& ast.trees_are(t.children@)
}

impl AsTree for StagedForest {
    /// Every tree of the forest can be drawn.
    open spec fn drawable(&self) -> bool {
        forall|k: usize| #[trigger] self.ast_map@.contains_key(k) ==> self.ast_map@[k].drawable()
    }

    /// A `root_id: N` leaf, then one node per tree of the forest, in the
    /// order the map yields them (each tree once).
    open spec fn trees_are(&self, ts: Seq<TreeNode>) -> bool {
        &&& ts.len() >= 1
        &&& ts[0].label@ == "root_id: "@ + nat_text(self.root_id as nat)
        &&& ts[0].children@.len() == 0
        &&& exists|order: Seq<usize>| {
                &&& order.no_duplicates()
                &&& order.to_set() == self.ast_map@.dom()
                &&& order.len() + 1 == ts.len()
                &&& forall|i: int| 0 <= i < order.len()
                        ==> forest_node(self.ast_map@[order[i]], order[i], #[trigger] ts[i + 1])
            }
    }

    fn as_tree(&self) -> (ts: Vec<TreeNode>) {
        let mut nodes: Vec<TreeNode> = Vec::new();
        let n = usize_to_string(self.root_id);
        let label = wrapped_string("root_id: ", n.as_str(), "");
        proof {
            reveal_strlit("");
            assert(label@ =~= "root_id: "@ + nat_text(self.root_id as nat));
        }
        nodes.push(TreeNode::leaf(label));
        let keys = keys_of(&self.ast_map);
        let mut i: usize = 0;
        while i < keys.len()
            invariant
                self.drawable(),
                keys@.to_set() == self.ast_map@.dom(),
                keys@.no_duplicates(),
                i <= keys@.len(),
                nodes@.len() == i + 1,
                nodes@[0].label@ == "root_id: "@ + nat_text(self.root_id as nat),
                nodes@[0].children@.len() == 0,
                forall|j: int| 0 <= j < i
                    ==> forest_node(self.ast_map@[keys@[j]], keys@[j], #[trigger] nodes@[j + 1]),
            decreases keys@.len() - i,
        {
            let k = keys[i];
            proof { assert(keys@.to_set().contains(keys@[i as int])); }
            let ast = self.ast_map.get(&k).unwrap();
            let trees = ast.as_tree();
            let n = usize_to_string(k);
            let label = wrapped_string("Tree ", n.as_str(), "");
            proof {
                reveal_strlit("");
                assert(label@ =~= "Tree "@ + nat_text(k as nat));
            }
            let ghost prev = nodes@;
            nodes.push(TreeNode::node(label, trees));
            proof {
                assert forall|j: int| 0 <= j < i + 1
                    implies forest_node(self.ast_map@[keys@[j]], keys@[j], #[trigger] nodes@[j + 1]) by {
                    if j < i {
                        assert(nodes@[j + 1] == prev[j + 1]);
                    }
                }
            }
            i = i + 1;
        }
        proof {
            assert(forall|j: int| 0 <= j < keys@.len()
                ==> forest_node(self.ast_map@[keys@[j]], keys@[j], #[trigger] nodes@[j + 1]));
        }
        nodes
    }
}

} // verus!
