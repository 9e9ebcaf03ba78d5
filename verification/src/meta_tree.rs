use vstd::prelude::*;
use crate::node_id::MetaNodeId;
use crate::meta_ast::{
    MetaAst, MetaExpr, MetaStmt, MetaTypeExpr, Param, ForVar, Pattern, VariantBindings,
    ConstructorPayload, EffectOp, EffectOpKind, MatchArm, MetaFieldDecl, EnumVariant,
    ImplMethodDecl, type_expr_text, type_expr_to_string, opt_ids, pair_ids, arm_ids,
    kids_in, ops_in, handle_ops, stmt_expr_kids, stmt_stmt_kids, expr_expr_kids, expr_stmt_kids,
};
use crate::text::{nat_text, int_text, bool_text, join_text, strings_view, usize_to_string,
    i64_to_string, bool_to_string, join};
use crate::tree_formatter::{TreeNode, Shape, AsTree};

verus! {

// ── What the tree of a node shows ────────────────────────────────────────────

/// `t` shows `s`: its label and children are those `s` gives, statements and
/// expressions being expanded from `ast`, each with its `id: N` leaf first.
pub open spec fn shows(ast: MetaAst, t: TreeNode, s: Shape) -> bool
    decreases t,
{
    match s {
        Shape::Leaf(l) => t.label@ == l && t.children@.len() == 0,
        Shape::Node(l, ks) => {
            &&& t.label@ == l
            &&& t.children@.len() == ks.len()
            &&& forall|i: int| 0 <= i < ks.len() ==> shows(ast, #[trigger] t.children@[i], ks[i])
        },
        Shape::Stmt(id) => {
            &&& ast.stmt_map().contains_key(id)
            &&& t.label@ == stmt_label(ast.stmt_map()[id])
            &&& t.children@.len() == 1 + stmt_kid_shapes(ast.stmt_map()[id]).len()
            &&& forall|i: int| 0 <= i < t.children@.len() ==> shows(ast, #[trigger] t.children@[i],
                    (seq![Shape::Leaf(id_label(id))] + stmt_kid_shapes(ast.stmt_map()[id]))[i])
        },
        Shape::Expr(id) => {
            &&& ast.expr_map().contains_key(id)
            &&& t.label@ == expr_label(ast.expr_map()[id])
            &&& t.children@.len() == 1 + expr_kid_shapes(ast.expr_map()[id]).len()
            &&& forall|i: int| 0 <= i < t.children@.len() ==> shows(ast, #[trigger] t.children@[i],
                    (seq![Shape::Leaf(id_label(id))] + expr_kid_shapes(ast.expr_map()[id]))[i])
        },
    }
}

/// The trees `ts` show the shapes `ks`, one for one.
pub open spec fn kids_show(ast: MetaAst, ts: Seq<TreeNode>, ks: Seq<Shape>) -> bool {
    &&& ts.len() == ks.len()
    &&& forall|i: int| 0 <= i < ks.len() ==> shows(ast, #[trigger] ts[i], ks[i])
}

pub open spec fn id_label(id: usize) -> Seq<char> {
    "id: "@ + nat_text(id as nat)
}

pub open spec fn name_label(name: Seq<char>) -> Seq<char> {
    "Name("@ + name + ")"@
}

/// `Name(f)`, or `Name(f<A, B>)` with type parameters.
pub open spec fn generic_name_label(name: Seq<char>, type_params: Seq<String>) -> Seq<char> {
    if type_params.len() == 0 {
        name_label(name)
    } else {
        "Name("@ + name + "<"@ + join_text(strings_view(type_params), ", "@) + ">)"@
    }
}

pub open spec fn param_text(p: Param) -> Seq<char> {
    match p.ty {
        Some(t) => p.name@ + ": "@ + type_expr_text(t),
        None => p.name@,
    }
}

pub open spec fn params_shape(ps: Seq<Param>) -> Shape {
    Shape::Node("Params"@, ps.map_values(|p: Param| Shape::Leaf(param_text(p))))
}

pub open spec fn ret_label(ret_ty: Option<MetaTypeExpr>) -> Seq<char> {
    match ret_ty {
        Some(t) => "Ret("@ + type_expr_text(t) + ")"@,
        None => "Ret(unit)"@,
    }
}

pub open spec fn opt_text(o: Option<String>) -> Seq<char> {
    match o {
        Some(s) => s@,
        None => "unit"@,
    }
}

pub open spec fn for_var_text(v: ForVar) -> Seq<char> {
    match v {
        ForVar::Name(n) => n@,
        ForVar::Tuple(ns) => "("@ + join_text(strings_view(ns@), ", "@) + ")"@,
    }
}

pub open spec fn quoted(s: Seq<char>) -> Seq<char> {
    "\""@ + s + "\""@
}

pub open spec fn quoted_list(names: Seq<String>) -> Seq<char> {
    "["@ + join_text(names.map_values(|n: String| quoted(n@)), ", "@) + "]"@
}

pub open spec fn bindings_text(b: VariantBindings) -> Seq<char> {
    match b {
        VariantBindings::Unit => "Unit"@,
        VariantBindings::Tuple(ns) => "Tuple("@ + quoted_list(ns@) + ")"@,
        VariantBindings::Struct(ns) => "Struct("@ + quoted_list(ns@) + ")"@,
    }
}

/// A pattern as `{:?}` shows it (names are identifiers, shown in quotes).
pub open spec fn pattern_text(p: Pattern) -> Seq<char> {
    match p {
        Pattern::Wildcard => "Wildcard"@,
        Pattern::Enum { enum_name, variant, bindings } =>
            "Enum { enum_name: "@ + quoted(enum_name@) + ", variant: "@ + quoted(variant@)
                + ", bindings: "@ + bindings_text(bindings) + " }"@,
    }
}

pub open spec fn op_kind_text(k: EffectOpKind) -> Seq<char> {
    match k {
        EffectOpKind::Fn => "Fn"@,
        EffectOpKind::Ctl => "Ctl"@,
    }
}

pub open spec fn param_names(ps: Seq<Param>) -> Seq<Seq<char>> {
    ps.map_values(|p: Param| p.name@)
}

/// An effect operation: `Fn name(a, b): ret`.
pub open spec fn op_text(op: EffectOp) -> Seq<char> {
    op_kind_text(op.kind) + " "@ + op.name@ + "("@ + join_text(param_names(op.params@), ", "@)
        + "): "@ + opt_text(op.ret_ty)
}

pub open spec fn expr_shapes(ids: Seq<MetaNodeId>) -> Seq<Shape> {
    ids.map_values(|i: MetaNodeId| Shape::Expr(i.0))
}

pub open spec fn stmt_shapes(ids: Seq<MetaNodeId>) -> Seq<Shape> {
    ids.map_values(|i: MetaNodeId| Shape::Stmt(i.0))
}

pub open spec fn field_shapes(fields: Seq<(String, MetaNodeId)>) -> Seq<Shape> {
    fields.map_values(|f: (String, MetaNodeId)| Shape::Node(f.0@, seq![Shape::Expr(f.1.0)]))
}

pub open spec fn arm_shapes(arms: Seq<MatchArm>) -> Seq<Shape> {
    arms.map_values(|a: MatchArm| Shape::Node("Arm"@, seq![Shape::Leaf(pattern_text(a.pattern)), Shape::Stmt(a.body.0)]))
}

/// The handler statements of `run ... handle`, effect after effect.
pub open spec fn handler_shapes(effects: Seq<(String, Vec<MetaNodeId>)>) -> Seq<Shape> {
    effects.map_values(|e: (String, Vec<MetaNodeId>)| stmt_shapes(e.1@)).flatten()
}

pub open spec fn leaves(texts: Seq<Seq<char>>) -> Seq<Shape> {
    texts.map_values(|t: Seq<char>| Shape::Leaf(t))
}

pub open spec fn stmt_label(s: MetaStmt) -> Seq<char> {
    match s {
        MetaStmt::ExprStmt(_) => "ExprStmt"@,
        MetaStmt::VarDecl { .. } => "VarDecl"@,
        MetaStmt::Assign { .. } => "Assign"@,
        MetaStmt::IndexAssign { .. } => "IndexAssign"@,
        MetaStmt::DotAssign { object, field, .. } => "DotAssign("@ + object@ + "."@ + field@ + ")"@,
        MetaStmt::FnDecl { .. } => "FnDecl"@,
        MetaStmt::StructDecl { .. } => "StructDecl"@,
        MetaStmt::EnumDecl { .. } => "EnumDecl"@,
        MetaStmt::Match { .. } => "Match"@,
        MetaStmt::If { .. } => "IfStmt"@,
        MetaStmt::WhileLoop { .. } => "WhileLoop"@,
        MetaStmt::ForEach { .. } => "ForEachStmt"@,
        MetaStmt::Return(_) => "ReturnStmt"@,
        MetaStmt::Block(_) => "Block"@,
        MetaStmt::Import(_) => "Import"@,
        MetaStmt::MetaBlock(_) => "MetaBlock"@,
        MetaStmt::MetaFnDecl { .. } => "MetaFnDecl"@,
        MetaStmt::Gen(_) => "Gen"@,
        MetaStmt::EffectDecl { .. } => "EffectDecl"@,
        MetaStmt::HandlerDef { name, effect_name, .. } => match effect_name {
            Some(e) => "HandlerDef("@ + name@ + ":"@ + e@ + ")"@,
            None => "HandlerDef("@ + name@ + ")"@,
        },
        MetaStmt::WithFn { .. } => "WithFn"@,
        MetaStmt::WithCtl { .. } => "WithCtl"@,
        MetaStmt::Resume(_) => "Resume"@,
        MetaStmt::Print(_) => "PrintStmt"@,
        MetaStmt::TraitDecl { .. } => "TraitDecl"@,
        MetaStmt::ImplDecl { .. } => "ImplDecl"@,
        MetaStmt::Defer(_) => "Defer"@,
    }
}

/// The children of a statement's node after its `id: N` leaf.
pub open spec fn stmt_kid_shapes(s: MetaStmt) -> Seq<Shape> {
    match s {
        MetaStmt::ExprStmt(e) => seq![Shape::Expr(e.0)],
        MetaStmt::VarDecl { name, type_annotation, expr } => seq![
            Shape::Leaf(match type_annotation {
                Some(t) => "Name("@ + name@ + ": "@ + type_expr_text(t) + ")"@,
                None => name_label(name@),
            }),
            Shape::Expr(expr.0),
        ],
        MetaStmt::Assign { name, expr } => seq![Shape::Leaf(name_label(name@)), Shape::Expr(expr.0)],
        MetaStmt::IndexAssign { name, indices, expr } =>
            seq![Shape::Leaf(name_label(name@))] + expr_shapes(indices@) + seq![Shape::Expr(expr.0)],
        MetaStmt::DotAssign { expr, .. } => seq![Shape::Expr(expr.0)],
        MetaStmt::FnDecl { name, params, type_params, ret_ty, body } => seq![
            Shape::Leaf(generic_name_label(name@, type_params@)),
            params_shape(params@),
            Shape::Leaf(ret_label(ret_ty)),
            Shape::Stmt(body.0),
        ],
        MetaStmt::StructDecl { name, fields } => seq![
            Shape::Leaf(name_label(name@)),
            Shape::Node("Fields"@, fields@.map_values(|f: MetaFieldDecl|
                Shape::Leaf(f.field_name@ + ": "@ + f.field_type@))),
        ],
        MetaStmt::EnumDecl { name, type_params, variants } =>
            seq![Shape::Leaf(generic_name_label(name@, type_params@))]
                + variants@.map_values(|v: EnumVariant| Shape::Leaf("Variant("@ + v.name@ + ")"@)),
        MetaStmt::Match { scrutinee, arms } =>
            seq![Shape::Node("Scrutinee"@, seq![Shape::Expr(scrutinee.0)])] + arm_shapes(arms@),
        MetaStmt::If { cond, body, else_branch } =>
            seq![Shape::Node("Cond"@, seq![Shape::Expr(cond.0)]), Shape::Node("Then"@, seq![Shape::Stmt(body.0)])]
                + match else_branch {
                    Some(e) => seq![Shape::Node("Else"@, seq![Shape::Stmt(e.0)])],
                    None => Seq::empty(),
                },
        MetaStmt::WhileLoop { cond, body } =>
            seq![Shape::Node("Cond"@, seq![Shape::Expr(cond.0)]), Shape::Node("Body"@, seq![Shape::Stmt(body.0)])],
        MetaStmt::ForEach { var, iterable, body } => seq![
            Shape::Leaf("Var("@ + for_var_text(var) + ")"@),
            Shape::Node("Iterable"@, seq![Shape::Expr(iterable.0)]),
            Shape::Node("Body"@, seq![Shape::Stmt(body.0)]),
        ],
        MetaStmt::Return(o) => expr_shapes(opt_ids(o)),
        MetaStmt::Block(stmts) => stmt_shapes(stmts@),
        MetaStmt::Import(decl) => seq![Shape::Leaf(decl.spec_path())],
        MetaStmt::MetaBlock(b) => seq![Shape::Stmt(b.0)],
        MetaStmt::MetaFnDecl { name, params, body } =>
            seq![Shape::Leaf(name_label(name@)), params_shape(params@), Shape::Stmt(body.0)],
        MetaStmt::Gen(stmts) => stmt_shapes(stmts@),
        MetaStmt::EffectDecl { name, ops, .. } =>
            seq![Shape::Leaf(name_label(name@))] + ops@.map_values(|op: EffectOp| Shape::Leaf(op_text(op))),
        MetaStmt::HandlerDef { ops, .. } => stmt_shapes(ops@),
        MetaStmt::WithFn { op_name, params, ret_ty, body } => seq![
            Shape::Leaf("Op("@ + op_name@ + "): "@ + opt_text(ret_ty)),
            params_shape(params@),
            Shape::Stmt(body.0),
        ],
        MetaStmt::WithCtl { op_name, params, ret_ty, body } => seq![
            Shape::Leaf("Op("@ + op_name@ + "): "@ + opt_text(ret_ty)),
            params_shape(params@),
            Shape::Stmt(body.0),
        ],
        MetaStmt::Resume(o) => expr_shapes(opt_ids(o)),
        MetaStmt::Print(e) => seq![Shape::Expr(e.0)],
        MetaStmt::TraitDecl { name, methods } =>
            seq![Shape::Leaf(name_label(name@))]
                + methods@.map_values(|m: String| Shape::Leaf("Method("@ + m@ + ")"@)),
        MetaStmt::ImplDecl { trait_name, target_type, methods } =>
            seq![Shape::Leaf(trait_name@ + " for "@ + target_type@)]
                + methods@.map_values(|m: ImplMethodDecl| Shape::Leaf("Method("@ + m.name@ + ")"@)),
        MetaStmt::Defer(d) => seq![Shape::Stmt(d.0)],
    }
}

pub open spec fn expr_label(e: MetaExpr) -> Seq<char> {
    match e {
        MetaExpr::Int(_) => "Int"@,
        MetaExpr::String(_) => "String"@,
        MetaExpr::Bool(_) => "Bool"@,
        MetaExpr::Variable(_) => "Var"@,
        MetaExpr::StructLiteral { struct_name, .. } => "StructLiteral("@ + struct_name@ + ")"@,
        MetaExpr::List(_) => "List"@,
        MetaExpr::Call { callee, .. } => "Call("@ + callee@ + ")"@,
        MetaExpr::DotAccess { field, .. } => "DotAccess(."@ + field@ + ")"@,
        MetaExpr::DotCall { method, .. } => "DotCall(."@ + method@ + ")"@,
        MetaExpr::Index { .. } => "Index"@,
        MetaExpr::Typeof(_) => "Typeof"@,
        MetaExpr::Embed(_) => "Embed"@,
        MetaExpr::EnumConstructor { enum_name, variant, .. } =>
            "EnumConstructor("@ + enum_name@ + "::"@ + variant@ + ")"@,
        MetaExpr::Add(_, _) => "Add"@,
        MetaExpr::Sub(_, _) => "Sub"@,
        MetaExpr::Mult(_, _) => "Mult"@,
        MetaExpr::Div(_, _) => "Div"@,
        MetaExpr::Mod(_, _) => "Mod"@,
        MetaExpr::Equals(_, _) => "Equals"@,
        MetaExpr::NotEquals(_, _) => "NotEquals"@,
        MetaExpr::Lt(_, _) => "Lt"@,
        MetaExpr::Gt(_, _) => "Gt"@,
        MetaExpr::Lte(_, _) => "Lte"@,
        MetaExpr::Gte(_, _) => "Gte"@,
        MetaExpr::And(_, _) => "And"@,
        MetaExpr::Or(_, _) => "Or"@,
        MetaExpr::Not(_) => "Not"@,
        MetaExpr::Tuple(_) => "Tuple"@,
        MetaExpr::TupleIndex { index, .. } => "TupleIndex(."@ + nat_text(index as nat) + ")"@,
        MetaExpr::SliceRange { .. } => "SliceRange"@,
        MetaExpr::Lambda { params, .. } => "Lambda("@ + join_text(strings_view(params@), ", "@) + ")"@,
        MetaExpr::ResumeExpr(_) => "ResumeExpr"@,
        MetaExpr::RunHandle { .. } => "RunHandle"@,
        MetaExpr::RunWith { handler_name, .. } => "RunWith("@ + handler_name@ + ")"@,
    }
}

/// The children of an expression's node after its `id: N` leaf.
pub open spec fn expr_kid_shapes(e: MetaExpr) -> Seq<Shape> {
    match e {
        MetaExpr::Int(v) => seq![Shape::Leaf(int_text(v as int))],
        MetaExpr::String(s) => seq![Shape::Leaf(quoted(s@))],
        MetaExpr::Bool(b) => seq![Shape::Leaf(bool_text(b))],
        MetaExpr::Variable(n) => seq![Shape::Leaf(n@)],
        MetaExpr::StructLiteral { fields, .. } => field_shapes(fields@),
        MetaExpr::List(items) => expr_shapes(items@),
        MetaExpr::Call { args, .. } => expr_shapes(args@),
        MetaExpr::DotAccess { object, .. } => seq![Shape::Expr(object.0)],
        MetaExpr::DotCall { object, args, .. } => seq![Shape::Expr(object.0)] + expr_shapes(args@),
        MetaExpr::Index { object, index } => seq![Shape::Expr(object.0), Shape::Expr(index.0)],
        MetaExpr::Typeof(n) => seq![Shape::Leaf(n@)],
        MetaExpr::Embed(p) => seq![Shape::Leaf(p@)],
        MetaExpr::EnumConstructor { payload, .. } => match payload {
            ConstructorPayload::Unit => Seq::empty(),
            ConstructorPayload::Tuple(ids) => expr_shapes(ids@),
            ConstructorPayload::Struct(fields) => field_shapes(fields@),
        },
        MetaExpr::Add(a, b) => seq![Shape::Expr(a.0), Shape::Expr(b.0)],
        MetaExpr::Sub(a, b) => seq![Shape::Expr(a.0), Shape::Expr(b.0)],
        MetaExpr::Mult(a, b) => seq![Shape::Expr(a.0), Shape::Expr(b.0)],
        MetaExpr::Div(a, b) => seq![Shape::Expr(a.0), Shape::Expr(b.0)],
        MetaExpr::Mod(a, b) => seq![Shape::Expr(a.0), Shape::Expr(b.0)],
        MetaExpr::Equals(a, b) => seq![Shape::Expr(a.0), Shape::Expr(b.0)],
        MetaExpr::NotEquals(a, b) => seq![Shape::Expr(a.0), Shape::Expr(b.0)],
        MetaExpr::Lt(a, b) => seq![Shape::Expr(a.0), Shape::Expr(b.0)],
        MetaExpr::Gt(a, b) => seq![Shape::Expr(a.0), Shape::Expr(b.0)],
        MetaExpr::Lte(a, b) => seq![Shape::Expr(a.0), Shape::Expr(b.0)],
        MetaExpr::Gte(a, b) => seq![Shape::Expr(a.0), Shape::Expr(b.0)],
        MetaExpr::And(a, b) => seq![Shape::Expr(a.0), Shape::Expr(b.0)],
        MetaExpr::Or(a, b) => seq![Shape::Expr(a.0), Shape::Expr(b.0)],
        MetaExpr::Not(a) => seq![Shape::Expr(a.0)],
        MetaExpr::Tuple(items) => expr_shapes(items@),
        MetaExpr::TupleIndex { object, .. } => seq![Shape::Expr(object.0)],
        MetaExpr::SliceRange { object, start, end } =>
            seq![Shape::Expr(object.0)] + expr_shapes(opt_ids(start)) + expr_shapes(opt_ids(end)),
        MetaExpr::Lambda { body, .. } => seq![Shape::Stmt(body.0)],
        MetaExpr::ResumeExpr(o) => expr_shapes(opt_ids(o)),
        MetaExpr::RunHandle { body, effects } => seq![Shape::Stmt(body.0)] + handler_shapes(effects@),
        MetaExpr::RunWith { body, .. } => seq![Shape::Stmt(body.0)],
    }
}

// ── Texts ────────────────────────────────────────────────────────────────────

proof fn lemma_kids_push(ast: MetaAst, ts: Seq<TreeNode>, ks: Seq<Shape>, t: TreeNode, s: Shape)
    requires
        kids_show(ast, ts, ks),
        shows(ast, t, s),
    ensures
        kids_show(ast, ts.push(t), ks.push(s)),
{
    assert forall|i: int| 0 <= i < ks.push(s).len() implies shows(ast, #[trigger] ts.push(t)[i], ks.push(s)[i]) by {
        if i < ks.len() {
            assert(ts.push(t)[i] == ts[i]);
        }
    }
}

fn push_tree(out: &mut Vec<TreeNode>, t: TreeNode, Ghost(ast): Ghost<MetaAst>, Ghost(ks): Ghost<Seq<Shape>>, Ghost(s): Ghost<Shape>)
    requires
        kids_show(ast, old(out)@, ks),
        shows(ast, t, s),
    ensures
        kids_show(ast, final(out)@, ks.push(s)),
{
    proof { lemma_kids_push(ast, out@, ks, t, s); }
    out.push(t);
}

fn push_leaf(out: &mut Vec<TreeNode>, text: String, Ghost(ast): Ghost<MetaAst>, Ghost(ks): Ghost<Seq<Shape>>)
    requires
        kids_show(ast, old(out)@, ks),
    ensures
        kids_show(ast, final(out)@, ks.push(Shape::Leaf(text@))),
{
    let ghost l = text@;
    let t = TreeNode::leaf(text);
    push_tree(out, t, Ghost(ast), Ghost(ks), Ghost(Shape::Leaf(l)));
}

/// Pushes a leaf for each text.
fn push_leaves(out: &mut Vec<TreeNode>, texts: Vec<String>, Ghost(ast): Ghost<MetaAst>, Ghost(ks): Ghost<Seq<Shape>>)
    requires
        kids_show(ast, old(out)@, ks),
    ensures
        kids_show(ast, final(out)@, ks + leaves(strings_view(texts@))),
{
    let mut i: usize = 0;
    proof { assert(ks + leaves(strings_view(texts@.take(0))) =~= ks); }
    while i < texts.len()
        invariant
            i <= texts@.len(),
            kids_show(ast, out@, ks + leaves(strings_view(texts@.take(i as int)))),
        decreases texts@.len() - i,
    {
        let t = texts[i].clone();
        proof {
            assert(ks + leaves(strings_view(texts@.take(i + 1)))
                =~= (ks + leaves(strings_view(texts@.take(i as int)))).push(Shape::Leaf(t@)));
        }
        push_leaf(out, t, Ghost(ast), Ghost(ks + leaves(strings_view(texts@.take(i as int)))));
        i = i + 1;
    }
    proof { assert(texts@.take(texts@.len() as int) =~= texts@); }
}

/// A node labelled `label` over trees that show `ks`.
fn group(label: String, kids: Vec<TreeNode>, Ghost(ast): Ghost<MetaAst>, Ghost(ks): Ghost<Seq<Shape>>) -> (t: TreeNode)
    requires
        kids_show(ast, kids@, ks),
    ensures
        shows(ast, t, Shape::Node(label@, ks)),
{
    TreeNode::node(label, kids)
}

/// A node labelled `label` with `t` as its one child.
fn wrap(label: &str, t: TreeNode, Ghost(ast): Ghost<MetaAst>, Ghost(s): Ghost<Shape>) -> (r: TreeNode)
    requires
        shows(ast, t, s),
    ensures
        shows(ast, r, Shape::Node(label@, seq![s])),
{
    let mut v: Vec<TreeNode> = Vec::new();
    push_tree(&mut v, t, Ghost(ast), Ghost(Seq::empty()), Ghost(s));
    let ghost ks = seq![s];
    group(String::from_str(label), v, Ghost(ast), Ghost(ks))
}

/// A node labelled `label` with a leaf for each text.
fn leaf_group(label: &str, texts: Vec<String>, Ghost(ast): Ghost<MetaAst>) -> (t: TreeNode)
    ensures
        shows(ast, t, Shape::Node(label@, leaves(strings_view(texts@)))),
{
    let mut v: Vec<TreeNode> = Vec::new();
    push_leaves(&mut v, texts, Ghost(ast), Ghost(Seq::empty()));
    proof { assert(Seq::<Shape>::empty() + leaves(strings_view(texts@)) =~= leaves(strings_view(texts@))); }
    group(String::from_str(label), v, Ghost(ast), Ghost(leaves(strings_view(texts@))))
}

pub(crate) fn id_label_string(id: usize) -> (r: String)
    ensures
        r@ == id_label(id),
{
    let mut s = String::from_str("id: ");
    let n = usize_to_string(id);
    s.append(n.as_str());
    s
}

pub(crate) fn name_label_string(name: &str) -> (r: String)
    ensures
        r@ == name_label(name@),
{
    let mut s = String::from_str("Name(");
    s.append(name);
    s.append(")");
    s
}

fn generic_name_label_string(name: &String, type_params: &Vec<String>) -> (r: String)
    ensures
        r@ == generic_name_label(name@, type_params@),
{
    if type_params.len() == 0 {
        name_label_string(name.as_str())
    } else {
        let mut s = String::from_str("Name(");
        s.append(name.as_str());
        s.append("<");
        let j = join(type_params, ", ");
        s.append(j.as_str());
        s.append(">)");
        s
    }
}

fn opt_string(o: &Option<String>) -> (r: String)
    ensures
        r@ == opt_text(*o),
{
    match o {
        Some(s) => s.clone(),
        None => String::from_str("unit"),
    }
}

pub(crate) fn quoted_string(s: &str) -> (r: String)
    ensures
        r@ == quoted(s@),
{
    let mut out = String::from_str("\"");
    out.append(s);
    out.append("\"");
    out
}

fn quoted_list_string(names: &Vec<String>) -> (r: String)
    ensures
        r@ == quoted_list(names@),
{
    let mut qs: Vec<String> = Vec::new();
    let mut i: usize = 0;
    while i < names.len()
        invariant
            i <= names@.len(),
            qs@.len() == i,
            forall|k: int| 0 <= k < i ==> #[trigger] qs@[k]@ == quoted(names@[k]@),
        decreases names@.len() - i,
    {
        let q = quoted_string(names[i].as_str());
        qs.push(q);
        i = i + 1;
    }
    proof { assert(strings_view(qs@) =~= names@.map_values(|n: String| quoted(n@))); }
    let j = join(&qs, ", ");
    let mut out = String::from_str("[");
    out.append(j.as_str());
    out.append("]");
    out
}

fn bindings_string(b: &VariantBindings) -> (r: String)
    ensures
        r@ == bindings_text(*b),
{
    match b {
        VariantBindings::Unit => String::from_str("Unit"),
        VariantBindings::Tuple(ns) => {
            let mut out = String::from_str("Tuple(");
            let l = quoted_list_string(ns);
            out.append(l.as_str());
            out.append(")");
            out
        },
        VariantBindings::Struct(ns) => {
            let mut out = String::from_str("Struct(");
            let l = quoted_list_string(ns);
            out.append(l.as_str());
            out.append(")");
            out
        },
    }
}

pub(crate) fn pattern_string(p: &Pattern) -> (r: String)
    ensures
        r@ == pattern_text(*p),
{
    match p {
        Pattern::Wildcard => String::from_str("Wildcard"),
        Pattern::Enum { enum_name, variant, bindings } => {
            let mut out = String::from_str("Enum { enum_name: ");
            let q = quoted_string(enum_name.as_str());
            out.append(q.as_str());
            out.append(", variant: ");
            let q = quoted_string(variant.as_str());
            out.append(q.as_str());
            out.append(", bindings: ");
            let b = bindings_string(bindings);
            out.append(b.as_str());
            out.append(" }");
            out
        },
    }
}

fn param_string(p: &Param) -> (r: String)
    ensures
        r@ == param_text(*p),
{
    match &p.ty {
        Some(t) => {
            let mut s = p.name.clone();
            s.append(": ");
            let ts = type_expr_to_string(t);
            s.append(ts.as_str());
            s
        },
        None => p.name.clone(),
    }
}

fn param_strings(ps: &Vec<Param>) -> (r: Vec<String>)
    ensures
        strings_view(r@) =~= ps@.map_values(|p: Param| param_text(p)),
{
    let mut out: Vec<String> = Vec::new();
    let mut i: usize = 0;
    while i < ps.len()
        invariant
            i <= ps@.len(),
            out@.len() == i,
            forall|k: int| 0 <= k < i ==> #[trigger] out@[k]@ == param_text(ps@[k]),
        decreases ps@.len() - i,
    {
        out.push(param_string(&ps[i]));
        i = i + 1;
    }
    proof { assert(ps@.take(ps@.len() as int) =~= ps@); }
    out
}

fn param_name_strings(ps: &Vec<Param>) -> (r: Vec<String>)
    ensures
        strings_view(r@) =~= param_names(ps@),
{
    let mut out: Vec<String> = Vec::new();
    let mut i: usize = 0;
    while i < ps.len()
        invariant
            i <= ps@.len(),
            out@.len() == i,
            forall|k: int| 0 <= k < i ==> #[trigger] out@[k]@ == ps@[k].name@,
        decreases ps@.len() - i,
    {
        out.push(ps[i].name.clone());
        i = i + 1;
    }
    proof { assert(ps@.take(ps@.len() as int) =~= ps@); }
    out
}

fn params_tree(ps: &Vec<Param>, Ghost(ast): Ghost<MetaAst>) -> (t: TreeNode)
    ensures
        shows(ast, t, params_shape(ps@)),
{
    let texts = param_strings(ps);
    proof {
        assert(leaves(strings_view(texts@)) =~= ps@.map_values(|p: Param| Shape::Leaf(param_text(p))));
    }
    leaf_group("Params", texts, Ghost(ast))
}

fn op_string(op: &EffectOp) -> (r: String)
    ensures
        r@ == op_text(*op),
{
    let mut s = match op.kind {
        EffectOpKind::Fn => String::from_str("Fn"),
        EffectOpKind::Ctl => String::from_str("Ctl"),
    };
    s.append(" ");
    s.append(op.name.as_str());
    s.append("(");
    let names = param_name_strings(&op.params);
    let j = join(&names, ", ");
    s.append(j.as_str());
    s.append("): ");
    let r = opt_string(&op.ret_ty);
    s.append(r.as_str());
    s
}

fn op_strings(ops: &Vec<EffectOp>) -> (r: Vec<String>)
    ensures
        strings_view(r@) =~= ops@.map_values(|op: EffectOp| op_text(op)),
{
    let mut out: Vec<String> = Vec::new();
    let mut i: usize = 0;
    while i < ops.len()
        invariant
            i <= ops@.len(),
            out@.len() == i,
            forall|k: int| 0 <= k < i ==> #[trigger] out@[k]@ == op_text(ops@[k]),
        decreases ops@.len() - i,
    {
        out.push(op_string(&ops[i]));
        i = i + 1;
    }
    proof { assert(ops@.take(ops@.len() as int) =~= ops@); }
    out
}

fn field_decl_strings(fs: &Vec<MetaFieldDecl>) -> (r: Vec<String>)
    ensures
        strings_view(r@) =~= fs@.map_values(|f: MetaFieldDecl| f.field_name@ + ": "@ + f.field_type@),
{
    let mut out: Vec<String> = Vec::new();
    let mut i: usize = 0;
    while i < fs.len()
        invariant
            i <= fs@.len(),
            out@.len() == i,
            forall|k: int| 0 <= k < i ==> #[trigger] out@[k]@ == fs@[k].field_name@ + ": "@ + fs@[k].field_type@,
        decreases fs@.len() - i,
    {
        let mut s = fs[i].field_name.clone();
        s.append(": ");
        s.append(fs[i].field_type.as_str());
        out.push(s);
        i = i + 1;
    }
    proof { assert(fs@.take(fs@.len() as int) =~= fs@); }
    out
}

pub(crate) fn variant_strings(vs: &Vec<EnumVariant>) -> (r: Vec<String>)
    ensures
        strings_view(r@) =~= vs@.map_values(|v: EnumVariant| "Variant("@ + v.name@ + ")"@),
{
    let mut out: Vec<String> = Vec::new();
    let mut i: usize = 0;
    while i < vs.len()
        invariant
            i <= vs@.len(),
            out@.len() == i,
            forall|k: int| 0 <= k < i ==> #[trigger] out@[k]@ == "Variant("@ + vs@[k].name@ + ")"@,
        decreases vs@.len() - i,
    {
        let mut s = String::from_str("Variant(");
        s.append(vs[i].name.as_str());
        s.append(")");
        out.push(s);
        i = i + 1;
    }
    proof { assert(vs@.take(vs@.len() as int) =~= vs@); }
    out
}

fn method_strings(ms: &Vec<String>) -> (r: Vec<String>)
    ensures
        strings_view(r@) =~= ms@.map_values(|m: String| "Method("@ + m@ + ")"@),
{
    let mut out: Vec<String> = Vec::new();
    let mut i: usize = 0;
    while i < ms.len()
        invariant
            i <= ms@.len(),
            out@.len() == i,
            forall|k: int| 0 <= k < i ==> #[trigger] out@[k]@ == "Method("@ + ms@[k]@ + ")"@,
        decreases ms@.len() - i,
    {
        let mut s = String::from_str("Method(");
        s.append(ms[i].as_str());
        s.append(")");
        out.push(s);
        i = i + 1;
    }
    proof { assert(ms@.take(ms@.len() as int) =~= ms@); }
    out
}

fn impl_method_strings(ms: &Vec<ImplMethodDecl>) -> (r: Vec<String>)
    ensures
        strings_view(r@) =~= ms@.map_values(|m: ImplMethodDecl| "Method("@ + m.name@ + ")"@),
{
    let mut out: Vec<String> = Vec::new();
    let mut i: usize = 0;
    while i < ms.len()
        invariant
            i <= ms@.len(),
            out@.len() == i,
            forall|k: int| 0 <= k < i ==> #[trigger] out@[k]@ == "Method("@ + ms@[k].name@ + ")"@,
        decreases ms@.len() - i,
    {
        let mut s = String::from_str("Method(");
        s.append(ms[i].name.as_str());
        s.append(")");
        out.push(s);
        i = i + 1;
    }
    proof { assert(ms@.take(ms@.len() as int) =~= ms@); }
    out
}

pub(crate) fn for_var_string(v: &ForVar) -> (r: String)
    ensures
        r@ == for_var_text(*v),
{
    match v {
        ForVar::Name(n) => n.clone(),
        ForVar::Tuple(ns) => {
            let mut s = String::from_str("(");
            let j = join(ns, ", ");
            s.append(j.as_str());
            s.append(")");
            s
        },
    }
}

pub(crate) fn wrapped_string(open: &str, inner: &str, close: &str) -> (r: String)
    ensures
        r@ == open@ + inner@ + close@,
{
    let mut s = String::from_str(open);
    s.append(inner);
    s.append(close);
    s
}

fn stmt_label_string(s: &MetaStmt) -> (r: String)
    ensures
        r@ == stmt_label(*s),
{
    match s {
        MetaStmt::ExprStmt(_) => String::from_str("ExprStmt"),
        MetaStmt::VarDecl { .. } => String::from_str("VarDecl"),
        MetaStmt::Assign { .. } => String::from_str("Assign"),
        MetaStmt::IndexAssign { .. } => String::from_str("IndexAssign"),
        MetaStmt::DotAssign { object, field, .. } => {
            let mut r = String::from_str("DotAssign(");
            r.append(object.as_str());
            r.append(".");
            r.append(field.as_str());
            r.append(")");
            r
        },
        MetaStmt::FnDecl { .. } => String::from_str("FnDecl"),
        MetaStmt::StructDecl { .. } => String::from_str("StructDecl"),
        MetaStmt::EnumDecl { .. } => String::from_str("EnumDecl"),
        MetaStmt::Match { .. } => String::from_str("Match"),
        MetaStmt::If { .. } => String::from_str("IfStmt"),
        MetaStmt::WhileLoop { .. } => String::from_str("WhileLoop"),
        MetaStmt::ForEach { .. } => String::from_str("ForEachStmt"),
        MetaStmt::Return(_) => String::from_str("ReturnStmt"),
        MetaStmt::Block(_) => String::from_str("Block"),
        MetaStmt::Import(_) => String::from_str("Import"),
        MetaStmt::MetaBlock(_) => String::from_str("MetaBlock"),
        MetaStmt::MetaFnDecl { .. } => String::from_str("MetaFnDecl"),
        MetaStmt::Gen(_) => String::from_str("Gen"),
        MetaStmt::EffectDecl { .. } => String::from_str("EffectDecl"),
        MetaStmt::HandlerDef { name, effect_name, .. } => {
            let mut r = String::from_str("HandlerDef(");
            r.append(name.as_str());
            match effect_name {
                Some(e) => {
                    r.append(":");
                    r.append(e.as_str());
                },
                None => {},
            }
            r.append(")");
            r
        },
        MetaStmt::WithFn { .. } => String::from_str("WithFn"),
        MetaStmt::WithCtl { .. } => String::from_str("WithCtl"),
        MetaStmt::Resume(_) => String::from_str("Resume"),
        MetaStmt::Print(_) => String::from_str("PrintStmt"),
        MetaStmt::TraitDecl { .. } => String::from_str("TraitDecl"),
        MetaStmt::ImplDecl { .. } => String::from_str("ImplDecl"),
        MetaStmt::Defer(_) => String::from_str("Defer"),
    }
}

fn expr_label_string(e: &MetaExpr) -> (r: String)
    ensures
        r@ == expr_label(*e),
{
    match e {
        MetaExpr::Int(_) => String::from_str("Int"),
        MetaExpr::String(_) => String::from_str("String"),
        MetaExpr::Bool(_) => String::from_str("Bool"),
        MetaExpr::Variable(_) => String::from_str("Var"),
        MetaExpr::StructLiteral { struct_name, .. } => wrapped_string("StructLiteral(", struct_name.as_str(), ")"),
        MetaExpr::List(_) => String::from_str("List"),
        MetaExpr::Call { callee, .. } => wrapped_string("Call(", callee.as_str(), ")"),
        MetaExpr::DotAccess { field, .. } => wrapped_string("DotAccess(.", field.as_str(), ")"),
        MetaExpr::DotCall { method, .. } => wrapped_string("DotCall(.", method.as_str(), ")"),
        MetaExpr::Index { .. } => String::from_str("Index"),
        MetaExpr::Typeof(_) => String::from_str("Typeof"),
        MetaExpr::Embed(_) => String::from_str("Embed"),
        MetaExpr::EnumConstructor { enum_name, variant, .. } => {
            let mut r = String::from_str("EnumConstructor(");
            r.append(enum_name.as_str());
            r.append("::");
            r.append(variant.as_str());
            r.append(")");
            r
        },
        MetaExpr::Add(_, _) => String::from_str("Add"),
        MetaExpr::Sub(_, _) => String::from_str("Sub"),
        MetaExpr::Mult(_, _) => String::from_str("Mult"),
        MetaExpr::Div(_, _) => String::from_str("Div"),
        MetaExpr::Mod(_, _) => String::from_str("Mod"),
        MetaExpr::Equals(_, _) => String::from_str("Equals"),
        MetaExpr::NotEquals(_, _) => String::from_str("NotEquals"),
        MetaExpr::Lt(_, _) => String::from_str("Lt"),
        MetaExpr::Gt(_, _) => String::from_str("Gt"),
        MetaExpr::Lte(_, _) => String::from_str("Lte"),
        MetaExpr::Gte(_, _) => String::from_str("Gte"),
        MetaExpr::And(_, _) => String::from_str("And"),
        MetaExpr::Or(_, _) => String::from_str("Or"),
        MetaExpr::Not(_) => String::from_str("Not"),
        MetaExpr::Tuple(_) => String::from_str("Tuple"),
        MetaExpr::TupleIndex { index, .. } => {
            let n = usize_to_string(*index);
            wrapped_string("TupleIndex(.", n.as_str(), ")")
        },
        MetaExpr::SliceRange { .. } => String::from_str("SliceRange"),
        MetaExpr::Lambda { params, .. } => {
            let j = join(params, ", ");
            wrapped_string("Lambda(", j.as_str(), ")")
        },
        MetaExpr::ResumeExpr(_) => String::from_str("ResumeExpr"),
        MetaExpr::RunHandle { .. } => String::from_str("RunHandle"),
        MetaExpr::RunWith { handler_name, .. } => wrapped_string("RunWith(", handler_name.as_str(), ")"),
    }
}

// ── The trees ────────────────────────────────────────────────────────────────

impl MetaAst {
    fn convert_stmt(&self, id: MetaNodeId) -> (t: TreeNode)
        requires
            self.closed(),
            self.stmt_map().contains_key(id.0),
        ensures
            shows(*self, t, Shape::Stmt(id.0)),
        decreases id.0, 4nat,
    {
        let s = self.get_stmt(id).unwrap();
        let label = stmt_label_string(s);
        let mut out: Vec<TreeNode> = Vec::new();
        push_leaf(&mut out, id_label_string(id.0), Ghost(*self), Ghost(Seq::empty()));
        let ghost ks0 = seq![Shape::Leaf(id_label(id.0))];
        self.stmt_children(id, s, &mut out, Ghost(ks0));
        TreeNode::node(label, out)
    }

    fn convert_expr(&self, id: MetaNodeId) -> (t: TreeNode)
        requires
            self.closed(),
            self.expr_map().contains_key(id.0),
        ensures
            shows(*self, t, Shape::Expr(id.0)),
        decreases id.0, 4nat,
    {
        let e = self.get_expr(id).unwrap();
        let label = expr_label_string(e);
        let mut out: Vec<TreeNode> = Vec::new();
        push_leaf(&mut out, id_label_string(id.0), Ghost(*self), Ghost(Seq::empty()));
        let ghost ks0 = seq![Shape::Leaf(id_label(id.0))];
        self.expr_children(id, e, &mut out, Ghost(ks0));
        TreeNode::node(label, out)
    }

    fn push_expr(&self, e: MetaNodeId, out: &mut Vec<TreeNode>, Ghost(parent): Ghost<usize>, Ghost(ks): Ghost<Seq<Shape>>)
        requires
            self.closed(),
            self.expr_map().contains_key(e.0),
            e.0 < parent,
            kids_show(*self, old(out)@, ks),
        ensures
            kids_show(*self, final(out)@, ks.push(Shape::Expr(e.0))),
        decreases parent, 0nat,
    {
        let t = self.convert_expr(e);
        push_tree(out, t, Ghost(*self), Ghost(ks), Ghost(Shape::Expr(e.0)));
    }

    fn push_stmt(&self, b: MetaNodeId, out: &mut Vec<TreeNode>, Ghost(parent): Ghost<usize>, Ghost(ks): Ghost<Seq<Shape>>)
        requires
            self.closed(),
            self.stmt_map().contains_key(b.0),
            b.0 < parent,
            kids_show(*self, old(out)@, ks),
        ensures
            kids_show(*self, final(out)@, ks.push(Shape::Stmt(b.0))),
        decreases parent, 0nat,
    {
        let t = self.convert_stmt(b);
        push_tree(out, t, Ghost(*self), Ghost(ks), Ghost(Shape::Stmt(b.0)));
    }

    /// Pushes a node labelled `label` over the tree of expression `e`.
    fn push_wrapped_expr(&self, label: &str, e: MetaNodeId, out: &mut Vec<TreeNode>, Ghost(parent): Ghost<usize>, Ghost(ks): Ghost<Seq<Shape>>)
        requires
            self.closed(),
            self.expr_map().contains_key(e.0),
            e.0 < parent,
            kids_show(*self, old(out)@, ks),
        ensures
            kids_show(*self, final(out)@, ks.push(Shape::Node(label@, seq![Shape::Expr(e.0)]))),
        decreases parent, 0nat,
    {
        let t = self.convert_expr(e);
        let w = wrap(label, t, Ghost(*self), Ghost(Shape::Expr(e.0)));
        push_tree(out, w, Ghost(*self), Ghost(ks), Ghost(Shape::Node(label@, seq![Shape::Expr(e.0)])));
    }

    /// Pushes a node labelled `label` over the tree of statement `b`.
    fn push_wrapped_stmt(&self, label: &str, b: MetaNodeId, out: &mut Vec<TreeNode>, Ghost(parent): Ghost<usize>, Ghost(ks): Ghost<Seq<Shape>>)
        requires
            self.closed(),
            self.stmt_map().contains_key(b.0),
            b.0 < parent,
            kids_show(*self, old(out)@, ks),
        ensures
            kids_show(*self, final(out)@, ks.push(Shape::Node(label@, seq![Shape::Stmt(b.0)]))),
        decreases parent, 0nat,
    {
        let t = self.convert_stmt(b);
        let w = wrap(label, t, Ghost(*self), Ghost(Shape::Stmt(b.0)));
        push_tree(out, w, Ghost(*self), Ghost(ks), Ghost(Shape::Node(label@, seq![Shape::Stmt(b.0)])));
    }

    fn push_opt_expr(&self, o: &Option<MetaNodeId>, out: &mut Vec<TreeNode>, Ghost(parent): Ghost<usize>, Ghost(ks): Ghost<Seq<Shape>>)
        requires
            self.closed(),
            kids_in(opt_ids(*o), self.expr_map(), parent as nat),
            kids_show(*self, old(out)@, ks),
        ensures
            kids_show(*self, final(out)@, ks + expr_shapes(opt_ids(*o))),
        decreases parent, 0nat,
    {
        match o {
            Some(e) => {
                proof { assert(opt_ids(*o)[0] == *e); }
                let t = self.convert_expr(*e);
                push_tree(out, t, Ghost(*self), Ghost(ks), Ghost(Shape::Expr(e.0)));
                proof { assert(ks.push(Shape::Expr(e.0)) =~= ks + expr_shapes(opt_ids(*o))); }
            },
            None => {
                proof { assert(ks =~= ks + expr_shapes(opt_ids(*o))); }
            },
        }
    }

    fn push_exprs(&self, ids: &Vec<MetaNodeId>, out: &mut Vec<TreeNode>, Ghost(parent): Ghost<usize>, Ghost(ks0): Ghost<Seq<Shape>>)
        requires
            self.closed(),
            kids_in(ids@, self.expr_map(), parent as nat),
            kids_show(*self, old(out)@, ks0),
        ensures
            kids_show(*self, final(out)@, ks0 + expr_shapes(ids@)),
        decreases parent, 0nat,
    {
        let mut i: usize = 0;
        proof { assert(ks0 + expr_shapes(ids@.take(0)) =~= ks0); }
        while i < ids.len()
            invariant
                self.closed(),
                kids_in(ids@, self.expr_map(), parent as nat),
                i <= ids@.len(),
                kids_show(*self, out@, ks0 + expr_shapes(ids@.take(i as int))),
            decreases ids@.len() - i,
        {
            let e = ids[i];
            proof { assert(ids@[i as int].0 < parent); }
            let t = self.convert_expr(e);
            proof {
                assert(ks0 + expr_shapes(ids@.take(i + 1))
                    =~= (ks0 + expr_shapes(ids@.take(i as int))).push(Shape::Expr(e.0)));
            }
            push_tree(out, t, Ghost(*self), Ghost(ks0 + expr_shapes(ids@.take(i as int))), Ghost(Shape::Expr(e.0)));
            i = i + 1;
        }
        proof { assert(ids@.take(ids@.len() as int) =~= ids@); }
    }

    fn push_stmts(&self, ids: &Vec<MetaNodeId>, out: &mut Vec<TreeNode>, Ghost(parent): Ghost<usize>, Ghost(ks0): Ghost<Seq<Shape>>)
        requires
            self.closed(),
            kids_in(ids@, self.stmt_map(), parent as nat),
            kids_show(*self, old(out)@, ks0),
        ensures
            kids_show(*self, final(out)@, ks0 + stmt_shapes(ids@)),
        decreases parent, 0nat,
    {
        let mut i: usize = 0;
        proof { assert(ks0 + stmt_shapes(ids@.take(0)) =~= ks0); }
        while i < ids.len()
            invariant
                self.closed(),
                kids_in(ids@, self.stmt_map(), parent as nat),
                i <= ids@.len(),
                kids_show(*self, out@, ks0 + stmt_shapes(ids@.take(i as int))),
            decreases ids@.len() - i,
        {
            let b = ids[i];
            proof { assert(ids@[i as int].0 < parent); }
            let t = self.convert_stmt(b);
            proof {
                assert(ks0 + stmt_shapes(ids@.take(i + 1))
                    =~= (ks0 + stmt_shapes(ids@.take(i as int))).push(Shape::Stmt(b.0)));
            }
            push_tree(out, t, Ghost(*self), Ghost(ks0 + stmt_shapes(ids@.take(i as int))), Ghost(Shape::Stmt(b.0)));
            i = i + 1;
        }
        proof { assert(ids@.take(ids@.len() as int) =~= ids@); }
    }

    fn push_fields(&self, fields: &Vec<(String, MetaNodeId)>, out: &mut Vec<TreeNode>, Ghost(parent): Ghost<usize>, Ghost(ks0): Ghost<Seq<Shape>>)
        requires
            self.closed(),
            kids_in(pair_ids(fields@), self.expr_map(), parent as nat),
            kids_show(*self, old(out)@, ks0),
        ensures
            kids_show(*self, final(out)@, ks0 + field_shapes(fields@)),
        decreases parent, 0nat,
    {
        let mut i: usize = 0;
        proof { assert(ks0 + field_shapes(fields@.take(0)) =~= ks0); }
        while i < fields.len()
            invariant
                self.closed(),
                kids_in(pair_ids(fields@), self.expr_map(), parent as nat),
                i <= fields@.len(),
                kids_show(*self, out@, ks0 + field_shapes(fields@.take(i as int))),
            decreases fields@.len() - i,
        {
            let e = fields[i].1;
            proof { assert(pair_ids(fields@)[i as int] == e); }
            let t = self.convert_expr(e);
            let w = wrap(fields[i].0.as_str(), t, Ghost(*self), Ghost(Shape::Expr(e.0)));
            let ghost sh = Shape::Node(fields@[i as int].0@, seq![Shape::Expr(e.0)]);
            proof {
                assert(ks0 + field_shapes(fields@.take(i + 1))
                    =~= (ks0 + field_shapes(fields@.take(i as int))).push(sh));
            }
            push_tree(out, w, Ghost(*self), Ghost(ks0 + field_shapes(fields@.take(i as int))), Ghost(sh));
            i = i + 1;
        }
        proof { assert(fields@.take(fields@.len() as int) =~= fields@); }
    }

    fn push_arms(&self, arms: &Vec<MatchArm>, out: &mut Vec<TreeNode>, Ghost(parent): Ghost<usize>, Ghost(ks0): Ghost<Seq<Shape>>)
        requires
            self.closed(),
            kids_in(arm_ids(arms@), self.stmt_map(), parent as nat),
            kids_show(*self, old(out)@, ks0),
        ensures
            kids_show(*self, final(out)@, ks0 + arm_shapes(arms@)),
        decreases parent, 0nat,
    {
        let mut i: usize = 0;
        proof { assert(ks0 + arm_shapes(arms@.take(0)) =~= ks0); }
        while i < arms.len()
            invariant
                self.closed(),
                kids_in(arm_ids(arms@), self.stmt_map(), parent as nat),
                i <= arms@.len(),
                kids_show(*self, out@, ks0 + arm_shapes(arms@.take(i as int))),
            decreases arms@.len() - i,
        {
            let arm = &arms[i];
            proof { assert(arm_ids(arms@)[i as int] == arm.body); }
            let mut v: Vec<TreeNode> = Vec::new();
            let p = pattern_string(&arm.pattern);
            push_leaf(&mut v, p, Ghost(*self), Ghost(Seq::empty()));
            let ghost k1 = seq![Shape::Leaf(pattern_text(arm.pattern))];
            let t = self.convert_stmt(arm.body);
            push_tree(&mut v, t, Ghost(*self), Ghost(k1), Ghost(Shape::Stmt(arm.body.0)));
            let ghost k2 = seq![Shape::Leaf(pattern_text(arm.pattern)), Shape::Stmt(arm.body.0)];
            proof { assert(k1.push(Shape::Stmt(arm.body.0)) =~= k2); }
            let w = group(String::from_str("Arm"), v, Ghost(*self), Ghost(k2));
            proof {
                assert(ks0 + arm_shapes(arms@.take(i + 1))
                    =~= (ks0 + arm_shapes(arms@.take(i as int))).push(Shape::Node("Arm"@, k2)));
            }
            push_tree(out, w, Ghost(*self), Ghost(ks0 + arm_shapes(arms@.take(i as int))), Ghost(Shape::Node("Arm"@, k2)));
            i = i + 1;
        }
        proof { assert(arms@.take(arms@.len() as int) =~= arms@); }
    }

    fn push_handlers(&self, effects: &Vec<(String, Vec<MetaNodeId>)>, out: &mut Vec<TreeNode>, Ghost(parent): Ghost<usize>, Ghost(ks0): Ghost<Seq<Shape>>)
        requires
            self.closed(),
            ops_in(effects@, self.stmt_map(), parent as nat),
            kids_show(*self, old(out)@, ks0),
        ensures
            kids_show(*self, final(out)@, ks0 + handler_shapes(effects@)),
        decreases parent, 1nat,
    {
        let mut j: usize = 0;
        proof { assert(ks0 + handler_shapes(effects@.take(0)) =~= ks0); }
        while j < effects.len()
            invariant
                self.closed(),
                ops_in(effects@, self.stmt_map(), parent as nat),
                j <= effects@.len(),
                kids_show(*self, out@, ks0 + handler_shapes(effects@.take(j as int))),
            decreases effects@.len() - j,
        {
            let ghost before = ks0 + handler_shapes(effects@.take(j as int));
            proof {
                assert forall|k: int| 0 <= k < effects@[j as int].1@.len() implies
                    #[trigger] effects@[j as int].1@[k].0 < parent
                        && self.stmt_map().contains_key(effects@[j as int].1@[k].0) by {
                    assert(effects@[j as int].1@[k].0 < parent);
                }
            }
            self.push_stmts(&effects[j].1, out, Ghost(parent), Ghost(before));
            proof {
                let f = |e: (String, Vec<MetaNodeId>)| stmt_shapes(e.1@);
                assert(effects@.take(j + 1).map_values(f) =~= effects@.take(j as int).map_values(f).push(f(effects@[j as int])));
                effects@.take(j as int).map_values(f).lemma_flatten_push(f(effects@[j as int]));
                assert(ks0 + handler_shapes(effects@.take(j + 1)) =~= before + stmt_shapes(effects@[j as int].1@));
            }
            j = j + 1;
        }
        proof { assert(effects@.take(effects@.len() as int) =~= effects@); }
    }
    fn stmt_children(&self, id: MetaNodeId, s: &MetaStmt, out: &mut Vec<TreeNode>, Ghost(ks0): Ghost<Seq<Shape>>)
        requires
            self.closed(),
            self.stmt_map().contains_key(id.0),
            *s == self.stmt_map()[id.0],
            kids_show(*self, old(out)@, ks0),
        ensures
            kids_show(*self, final(out)@, ks0 + stmt_kid_shapes(*s)),
        decreases id.0, 3nat,
    {
        proof { assert(self.stmt_closed(id.0, *s)); }
        let ghost ast = *self;
        let ghost p = id.0;
        let ghost ek = stmt_expr_kids(*s);
        let ghost sk = stmt_stmt_kids(*s);
        match s {
            MetaStmt::ExprStmt(e) => {
                proof { assert(ek[0].0 < p); }
                self.push_expr(*e, out, Ghost(p), Ghost(ks0));
                proof { assert(ks0.push(Shape::Expr(e.0)) =~= ks0 + stmt_kid_shapes(*s)); }
            },
            MetaStmt::VarDecl { name, type_annotation, expr } => {
                let text = match type_annotation {
                    Some(t) => {
                        let mut r = String::from_str("Name(");
                        r.append(name.as_str());
                        r.append(": ");
                        let ts = type_expr_to_string(t);
                        r.append(ts.as_str());
                        r.append(")");
                        r
                    },
                    None => name_label_string(name.as_str()),
                };
                let ghost l = text@;
                push_leaf(out, text, Ghost(ast), Ghost(ks0));
                proof { assert(ek[0].0 < p); }
                self.push_expr(*expr, out, Ghost(p), Ghost(ks0.push(Shape::Leaf(l))));
                proof { assert(ks0.push(Shape::Leaf(l)).push(Shape::Expr(expr.0)) =~= ks0 + stmt_kid_shapes(*s)); }
            },
            MetaStmt::Assign { name, expr } => {
                let text = name_label_string(name.as_str());
                let ghost l = text@;
                push_leaf(out, text, Ghost(ast), Ghost(ks0));
                proof { assert(ek[0].0 < p); }
                self.push_expr(*expr, out, Ghost(p), Ghost(ks0.push(Shape::Leaf(l))));
                proof { assert(ks0.push(Shape::Leaf(l)).push(Shape::Expr(expr.0)) =~= ks0 + stmt_kid_shapes(*s)); }
            },
            MetaStmt::IndexAssign { name, indices, expr } => {
                let text = name_label_string(name.as_str());
                let ghost l = text@;
                push_leaf(out, text, Ghost(ast), Ghost(ks0));
                let ghost k1 = ks0.push(Shape::Leaf(l));
                proof {
                    assert forall|i: int| 0 <= i < indices@.len() implies
                        #[trigger] indices@[i].0 < p && self.expr_map().contains_key(indices@[i].0) by {
                        assert(ek[i] == indices@[i]);
                    }
                    assert(ek[indices@.len() as int] == *expr);
                }
                self.push_exprs(indices, out, Ghost(p), Ghost(k1));
                self.push_expr(*expr, out, Ghost(p), Ghost(k1 + expr_shapes(indices@)));
                proof { assert((k1 + expr_shapes(indices@)).push(Shape::Expr(expr.0)) =~= ks0 + stmt_kid_shapes(*s)); }
            },
            MetaStmt::DotAssign { expr, .. } => {
                proof { assert(ek[0].0 < p); }
                self.push_expr(*expr, out, Ghost(p), Ghost(ks0));
                proof { assert(ks0.push(Shape::Expr(expr.0)) =~= ks0 + stmt_kid_shapes(*s)); }
            },
            MetaStmt::FnDecl { name, params, type_params, ret_ty, body } => {
                let text = generic_name_label_string(name, type_params);
                let ghost l = text@;
                push_leaf(out, text, Ghost(ast), Ghost(ks0));
                let ghost k1 = ks0.push(Shape::Leaf(l));
                let pt = params_tree(params, Ghost(ast));
                push_tree(out, pt, Ghost(ast), Ghost(k1), Ghost(params_shape(params@)));
                let ghost k2 = k1.push(params_shape(params@));
                let r = match ret_ty {
                    Some(t) => {
                        let ts = type_expr_to_string(t);
                        wrapped_string("Ret(", ts.as_str(), ")")
                    },
                    None => String::from_str("Ret(unit)"),
                };
                let ghost rl = r@;
                push_leaf(out, r, Ghost(ast), Ghost(k2));
                let ghost k3 = k2.push(Shape::Leaf(rl));
                proof { assert(sk[0].0 < p); }
                self.push_stmt(*body, out, Ghost(p), Ghost(k3));
                proof { assert(k3.push(Shape::Stmt(body.0)) =~= ks0 + stmt_kid_shapes(*s)); }
            },
            MetaStmt::StructDecl { name, fields } => {
                let text = name_label_string(name.as_str());
                let ghost l = text@;
                push_leaf(out, text, Ghost(ast), Ghost(ks0));
                let ghost k1 = ks0.push(Shape::Leaf(l));
                let texts = field_decl_strings(fields);
                let ghost fs = leaves(strings_view(texts@));
                let g = leaf_group("Fields", texts, Ghost(ast));
                push_tree(out, g, Ghost(ast), Ghost(k1), Ghost(Shape::Node("Fields"@, fs)));
                proof {
                    assert(fs =~= fields@.map_values(|f: MetaFieldDecl| Shape::Leaf(f.field_name@ + ": "@ + f.field_type@)));
                    assert(k1.push(Shape::Node("Fields"@, fs)) =~= ks0 + stmt_kid_shapes(*s));
                }
            },
            MetaStmt::EnumDecl { name, type_params, variants } => {
                let text = generic_name_label_string(name, type_params);
                let ghost l = text@;
                push_leaf(out, text, Ghost(ast), Ghost(ks0));
                let ghost k1 = ks0.push(Shape::Leaf(l));
                let texts = variant_strings(variants);
                let ghost vs = leaves(strings_view(texts@));
                push_leaves(out, texts, Ghost(ast), Ghost(k1));
                proof {
                    assert(vs =~= variants@.map_values(|v: EnumVariant| Shape::Leaf("Variant("@ + v.name@ + ")"@)));
                    assert(k1 + vs =~= ks0 + stmt_kid_shapes(*s));
                }
            },
            MetaStmt::Match { scrutinee, arms } => {
                proof { assert(ek[0].0 < p); }
                self.push_wrapped_expr("Scrutinee", *scrutinee, out, Ghost(p), Ghost(ks0));
                let ghost k1 = ks0.push(Shape::Node("Scrutinee"@, seq![Shape::Expr(scrutinee.0)]));
                self.push_arms(arms, out, Ghost(p), Ghost(k1));
                proof { assert(k1 + arm_shapes(arms@) =~= ks0 + stmt_kid_shapes(*s)); }
            },
            MetaStmt::If { cond, body, else_branch } => {
                proof { assert(ek[0].0 < p); assert(sk[0].0 < p); }
                self.push_wrapped_expr("Cond", *cond, out, Ghost(p), Ghost(ks0));
                let ghost k1 = ks0.push(Shape::Node("Cond"@, seq![Shape::Expr(cond.0)]));
                self.push_wrapped_stmt("Then", *body, out, Ghost(p), Ghost(k1));
                let ghost k2 = k1.push(Shape::Node("Then"@, seq![Shape::Stmt(body.0)]));
                match else_branch {
                    Some(e) => {
                        proof { assert(sk[1] == *e); }
                        self.push_wrapped_stmt("Else", *e, out, Ghost(p), Ghost(k2));
                        proof {
                            assert(k2.push(Shape::Node("Else"@, seq![Shape::Stmt(e.0)])) =~= ks0 + stmt_kid_shapes(*s));
                        }
                    },
                    None => {
                        proof { assert(k2 =~= ks0 + stmt_kid_shapes(*s)); }
                    },
                }
            },
            MetaStmt::WhileLoop { cond, body } => {
                proof { assert(ek[0].0 < p); assert(sk[0].0 < p); }
                self.push_wrapped_expr("Cond", *cond, out, Ghost(p), Ghost(ks0));
                let ghost k1 = ks0.push(Shape::Node("Cond"@, seq![Shape::Expr(cond.0)]));
                self.push_wrapped_stmt("Body", *body, out, Ghost(p), Ghost(k1));
                proof {
                    assert(k1.push(Shape::Node("Body"@, seq![Shape::Stmt(body.0)])) =~= ks0 + stmt_kid_shapes(*s));
                }
            },
            MetaStmt::ForEach { var, iterable, body } => {
                let vt = for_var_string(var);
                let text = wrapped_string("Var(", vt.as_str(), ")");
                let ghost l = text@;
                push_leaf(out, text, Ghost(ast), Ghost(ks0));
                let ghost k1 = ks0.push(Shape::Leaf(l));
                proof { assert(ek[0].0 < p); assert(sk[0].0 < p); }
                self.push_wrapped_expr("Iterable", *iterable, out, Ghost(p), Ghost(k1));
                let ghost k2 = k1.push(Shape::Node("Iterable"@, seq![Shape::Expr(iterable.0)]));
                self.push_wrapped_stmt("Body", *body, out, Ghost(p), Ghost(k2));
                proof {
                    assert(k2.push(Shape::Node("Body"@, seq![Shape::Stmt(body.0)])) =~= ks0 + stmt_kid_shapes(*s));
                }
            },
            MetaStmt::Return(o) => {
                self.push_opt_expr(o, out, Ghost(p), Ghost(ks0));
            },
            MetaStmt::Block(stmts) => {
                self.push_stmts(stmts, out, Ghost(p), Ghost(ks0));
            },
            MetaStmt::Import(decl) => {
                let text = String::from_str(decl.path());
                push_leaf(out, text, Ghost(ast), Ghost(ks0));
                proof { assert(ks0.push(Shape::Leaf(decl.spec_path())) =~= ks0 + stmt_kid_shapes(*s)); }
            },
            MetaStmt::MetaBlock(b) => {
                proof { assert(sk[0].0 < p); }
                self.push_stmt(*b, out, Ghost(p), Ghost(ks0));
                proof { assert(ks0.push(Shape::Stmt(b.0)) =~= ks0 + stmt_kid_shapes(*s)); }
            },
            MetaStmt::MetaFnDecl { name, params, body } => {
                let text = name_label_string(name.as_str());
                let ghost l = text@;
                push_leaf(out, text, Ghost(ast), Ghost(ks0));
                let ghost k1 = ks0.push(Shape::Leaf(l));
                let pt = params_tree(params, Ghost(ast));
                push_tree(out, pt, Ghost(ast), Ghost(k1), Ghost(params_shape(params@)));
                let ghost k2 = k1.push(params_shape(params@));
                proof { assert(sk[0].0 < p); }
                self.push_stmt(*body, out, Ghost(p), Ghost(k2));
                proof { assert(k2.push(Shape::Stmt(body.0)) =~= ks0 + stmt_kid_shapes(*s)); }
            },
            MetaStmt::Gen(stmts) => {
                self.push_stmts(stmts, out, Ghost(p), Ghost(ks0));
            },
            MetaStmt::EffectDecl { name, ops, .. } => {
                let text = name_label_string(name.as_str());
                let ghost l = text@;
                push_leaf(out, text, Ghost(ast), Ghost(ks0));
                let ghost k1 = ks0.push(Shape::Leaf(l));
                let texts = op_strings(ops);
                let ghost os = leaves(strings_view(texts@));
                push_leaves(out, texts, Ghost(ast), Ghost(k1));
                proof {
                    assert(os =~= ops@.map_values(|op: EffectOp| Shape::Leaf(op_text(op))));
                    assert(k1 + os =~= ks0 + stmt_kid_shapes(*s));
                }
            },
            MetaStmt::HandlerDef { ops, .. } => {
                self.push_stmts(ops, out, Ghost(p), Ghost(ks0));
            },
            MetaStmt::WithFn { op_name, params, ret_ty, body } => {
                let mut text = wrapped_string("Op(", op_name.as_str(), "): ");
                let r = opt_string(ret_ty);
                text.append(r.as_str());
                let ghost l = text@;
                push_leaf(out, text, Ghost(ast), Ghost(ks0));
                let ghost k1 = ks0.push(Shape::Leaf(l));
                let pt = params_tree(params, Ghost(ast));
                push_tree(out, pt, Ghost(ast), Ghost(k1), Ghost(params_shape(params@)));
                let ghost k2 = k1.push(params_shape(params@));
                proof { assert(sk[0].0 < p); }
                self.push_stmt(*body, out, Ghost(p), Ghost(k2));
                proof { assert(k2.push(Shape::Stmt(body.0)) =~= ks0 + stmt_kid_shapes(*s)); }
            },
            MetaStmt::WithCtl { op_name, params, ret_ty, body } => {
                let mut text = wrapped_string("Op(", op_name.as_str(), "): ");
                let r = opt_string(ret_ty);
                text.append(r.as_str());
                let ghost l = text@;
                push_leaf(out, text, Ghost(ast), Ghost(ks0));
                let ghost k1 = ks0.push(Shape::Leaf(l));
                let pt = params_tree(params, Ghost(ast));
                push_tree(out, pt, Ghost(ast), Ghost(k1), Ghost(params_shape(params@)));
                let ghost k2 = k1.push(params_shape(params@));
                proof { assert(sk[0].0 < p); }
                self.push_stmt(*body, out, Ghost(p), Ghost(k2));
                proof { assert(k2.push(Shape::Stmt(body.0)) =~= ks0 + stmt_kid_shapes(*s)); }
            },
            MetaStmt::Resume(o) => {
                self.push_opt_expr(o, out, Ghost(p), Ghost(ks0));
            },
            MetaStmt::Print(e) => {
                proof { assert(ek[0].0 < p); }
                self.push_expr(*e, out, Ghost(p), Ghost(ks0));
                proof { assert(ks0.push(Shape::Expr(e.0)) =~= ks0 + stmt_kid_shapes(*s)); }
            },
            MetaStmt::TraitDecl { name, methods } => {
                let text = name_label_string(name.as_str());
                let ghost l = text@;
                push_leaf(out, text, Ghost(ast), Ghost(ks0));
                let ghost k1 = ks0.push(Shape::Leaf(l));
                let texts = method_strings(methods);
                let ghost ms = leaves(strings_view(texts@));
                push_leaves(out, texts, Ghost(ast), Ghost(k1));
                proof {
                    assert(ms =~= methods@.map_values(|m: String| Shape::Leaf("Method("@ + m@ + ")"@)));
                    assert(k1 + ms =~= ks0 + stmt_kid_shapes(*s));
                }
            },
            MetaStmt::ImplDecl { trait_name, target_type, methods } => {
                let mut text = trait_name.clone();
                text.append(" for ");
                text.append(target_type.as_str());
                let ghost l = text@;
                push_leaf(out, text, Ghost(ast), Ghost(ks0));
                let ghost k1 = ks0.push(Shape::Leaf(l));
                let texts = impl_method_strings(methods);
                let ghost ms = leaves(strings_view(texts@));
                push_leaves(out, texts, Ghost(ast), Ghost(k1));
                proof {
                    assert(ms =~= methods@.map_values(|m: ImplMethodDecl| Shape::Leaf("Method("@ + m.name@ + ")"@)));
                    assert(k1 + ms =~= ks0 + stmt_kid_shapes(*s));
                }
            },
            MetaStmt::Defer(d) => {
                proof { assert(sk[0].0 < p); }
                self.push_stmt(*d, out, Ghost(p), Ghost(ks0));
                proof { assert(ks0.push(Shape::Stmt(d.0)) =~= ks0 + stmt_kid_shapes(*s)); }
            },
        }
    }
    fn expr_children(&self, id: MetaNodeId, e: &MetaExpr, out: &mut Vec<TreeNode>, Ghost(ks0): Ghost<Seq<Shape>>)
        requires
            self.closed(),
            self.expr_map().contains_key(id.0),
            *e == self.expr_map()[id.0],
            kids_show(*self, old(out)@, ks0),
        ensures
            kids_show(*self, final(out)@, ks0 + expr_kid_shapes(*e)),
        decreases id.0, 3nat,
    {
        proof { assert(self.expr_closed(id.0, *e)); }
        let ghost ast = *self;
        let ghost p = id.0;
        let ghost ek = expr_expr_kids(*e);
        let ghost sk = expr_stmt_kids(*e);
        match e {
            MetaExpr::Int(v) => {
                let text = i64_to_string(*v);
                push_leaf(out, text, Ghost(ast), Ghost(ks0));
                proof { assert(ks0.push(Shape::Leaf(int_text(*v as int))) =~= ks0 + expr_kid_shapes(*e)); }
            },
            MetaExpr::String(st) => {
                let text = quoted_string(st.as_str());
                push_leaf(out, text, Ghost(ast), Ghost(ks0));
                proof { assert(ks0.push(Shape::Leaf(quoted(st@))) =~= ks0 + expr_kid_shapes(*e)); }
            },
            MetaExpr::Bool(b) => {
                let text = bool_to_string(*b);
                push_leaf(out, text, Ghost(ast), Ghost(ks0));
                proof { assert(ks0.push(Shape::Leaf(bool_text(*b))) =~= ks0 + expr_kid_shapes(*e)); }
            },
            MetaExpr::Variable(n) => {
                push_leaf(out, n.clone(), Ghost(ast), Ghost(ks0));
                proof { assert(ks0.push(Shape::Leaf(n@)) =~= ks0 + expr_kid_shapes(*e)); }
            },
            MetaExpr::Typeof(n) => {
                push_leaf(out, n.clone(), Ghost(ast), Ghost(ks0));
                proof { assert(ks0.push(Shape::Leaf(n@)) =~= ks0 + expr_kid_shapes(*e)); }
            },
            MetaExpr::Embed(n) => {
                push_leaf(out, n.clone(), Ghost(ast), Ghost(ks0));
                proof { assert(ks0.push(Shape::Leaf(n@)) =~= ks0 + expr_kid_shapes(*e)); }
            },
            MetaExpr::StructLiteral { fields, .. } => {
                self.push_fields(fields, out, Ghost(p), Ghost(ks0));
            },
            MetaExpr::List(items) => {
                self.push_exprs(items, out, Ghost(p), Ghost(ks0));
            },
            MetaExpr::Tuple(items) => {
                self.push_exprs(items, out, Ghost(p), Ghost(ks0));
            },
            MetaExpr::Call { args, .. } => {
                self.push_exprs(args, out, Ghost(p), Ghost(ks0));
            },
            MetaExpr::DotAccess { object, .. } => {
                proof { assert(ek[0].0 < p); }
                self.push_expr(*object, out, Ghost(p), Ghost(ks0));
                proof { assert(ks0.push(Shape::Expr(object.0)) =~= ks0 + expr_kid_shapes(*e)); }
            },
            MetaExpr::TupleIndex { object, .. } => {
                proof { assert(ek[0].0 < p); }
                self.push_expr(*object, out, Ghost(p), Ghost(ks0));
                proof { assert(ks0.push(Shape::Expr(object.0)) =~= ks0 + expr_kid_shapes(*e)); }
            },
            MetaExpr::Not(a) => {
                proof { assert(ek[0].0 < p); }
                self.push_expr(*a, out, Ghost(p), Ghost(ks0));
                proof { assert(ks0.push(Shape::Expr(a.0)) =~= ks0 + expr_kid_shapes(*e)); }
            },
            MetaExpr::DotCall { object, args, .. } => {
                proof {
                    assert(ek[0].0 < p);
                    assert forall|i: int| 0 <= i < args@.len() implies
                        #[trigger] args@[i].0 < p && self.expr_map().contains_key(args@[i].0) by {
                        assert(ek[i + 1] == args@[i]);
                    }
                }
                self.push_expr(*object, out, Ghost(p), Ghost(ks0));
                let ghost k1 = ks0.push(Shape::Expr(object.0));
                self.push_exprs(args, out, Ghost(p), Ghost(k1));
                proof { assert(k1 + expr_shapes(args@) =~= ks0 + expr_kid_shapes(*e)); }
            },
            MetaExpr::Index { object, index } => {
                proof { assert(ek[0].0 < p); assert(ek[1].0 < p); }
                self.push_expr(*object, out, Ghost(p), Ghost(ks0));
                let ghost k1 = ks0.push(Shape::Expr(object.0));
                self.push_expr(*index, out, Ghost(p), Ghost(k1));
                proof { assert(k1.push(Shape::Expr(index.0)) =~= ks0 + expr_kid_shapes(*e)); }
            },
            MetaExpr::EnumConstructor { payload, .. } => {
                match payload {
                    ConstructorPayload::Unit => {
                        proof { assert(ks0 =~= ks0 + expr_kid_shapes(*e)); }
                    },
                    ConstructorPayload::Tuple(ids) => {
                        self.push_exprs(ids, out, Ghost(p), Ghost(ks0));
                    },
                    ConstructorPayload::Struct(fields) => {
                        self.push_fields(fields, out, Ghost(p), Ghost(ks0));
                    },
                }
            },
            MetaExpr::Add(a, b) | MetaExpr::Sub(a, b) | MetaExpr::Mult(a, b) | MetaExpr::Div(a, b) | MetaExpr::Mod(a, b) | MetaExpr::Equals(a, b) | MetaExpr::NotEquals(a, b) | MetaExpr::Lt(a, b) | MetaExpr::Gt(a, b) | MetaExpr::Lte(a, b) | MetaExpr::Gte(a, b) | MetaExpr::And(a, b) | MetaExpr::Or(a, b) => {
                proof { assert(ek[0].0 < p); assert(ek[1].0 < p); }
                self.push_expr(*a, out, Ghost(p), Ghost(ks0));
                let ghost k1 = ks0.push(Shape::Expr(a.0));
                self.push_expr(*b, out, Ghost(p), Ghost(k1));
                proof { assert(k1.push(Shape::Expr(b.0)) =~= ks0 + expr_kid_shapes(*e)); }
            },
            MetaExpr::SliceRange { object, start, end } => {
                proof {
                    assert(ek[0].0 < p);
                    assert forall|i: int| 0 <= i < opt_ids(*start).len() implies
                        #[trigger] opt_ids(*start)[i].0 < p && self.expr_map().contains_key(opt_ids(*start)[i].0) by {
                        assert(ek[i + 1] == opt_ids(*start)[i]);
                    }
                    assert forall|i: int| 0 <= i < opt_ids(*end).len() implies
                        #[trigger] opt_ids(*end)[i].0 < p && self.expr_map().contains_key(opt_ids(*end)[i].0) by {
                        assert(ek[i + 1 + opt_ids(*start).len()] == opt_ids(*end)[i]);
                    }
                }
                self.push_expr(*object, out, Ghost(p), Ghost(ks0));
                let ghost k1 = ks0.push(Shape::Expr(object.0));
                self.push_opt_expr(start, out, Ghost(p), Ghost(k1));
                let ghost k2 = k1 + expr_shapes(opt_ids(*start));
                self.push_opt_expr(end, out, Ghost(p), Ghost(k2));
                proof { assert(k2 + expr_shapes(opt_ids(*end)) =~= ks0 + expr_kid_shapes(*e)); }
            },
            MetaExpr::Lambda { body, .. } => {
                proof { assert(sk[0].0 < p); }
                self.push_stmt(*body, out, Ghost(p), Ghost(ks0));
                proof { assert(ks0.push(Shape::Stmt(body.0)) =~= ks0 + expr_kid_shapes(*e)); }
            },
            MetaExpr::RunWith { body, .. } => {
                proof { assert(sk[0].0 < p); }
                self.push_stmt(*body, out, Ghost(p), Ghost(ks0));
                proof { assert(ks0.push(Shape::Stmt(body.0)) =~= ks0 + expr_kid_shapes(*e)); }
            },
            MetaExpr::ResumeExpr(o) => {
                self.push_opt_expr(o, out, Ghost(p), Ghost(ks0));
            },
            MetaExpr::RunHandle { body, effects } => {
                proof { assert(sk[0].0 < p); }
                self.push_stmt(*body, out, Ghost(p), Ghost(ks0));
                let ghost k1 = ks0.push(Shape::Stmt(body.0));
                self.push_handlers(effects, out, Ghost(p), Ghost(k1));
                proof { assert(k1 + handler_shapes(effects@) =~= ks0 + expr_kid_shapes(*e)); }
            },
        }
    }
}

impl AsTree for MetaAst {
    /// The tree is closed and every top-level statement is in it.
    open spec fn drawable(&self) -> bool {
        &&& self.closed()
        &&& forall|i: int| 0 <= i < self.roots().len() ==> self.stmt_map().contains_key(#[trigger] self.roots()[i].0)
    }

    /// One tree per top-level statement, in order.
    open spec fn trees_are(&self, ts: Seq<TreeNode>) -> bool {
        kids_show(*self, ts, stmt_shapes(self.roots()))
    }

    fn as_tree(&self) -> (ts: Vec<TreeNode>) {
        let roots = self.root_stmts();
        let mut nodes: Vec<TreeNode> = Vec::new();
        let mut i: usize = 0;
        proof { assert(stmt_shapes(roots@.take(0)) =~= Seq::<Shape>::empty()); }
        while i < roots.len()
            invariant
                self.drawable(),
                roots@ == self.roots(),
                i <= roots@.len(),
                kids_show(*self, nodes@, stmt_shapes(roots@.take(i as int))),
            decreases roots@.len() - i,
        {
            let id = roots[i];
            proof { assert(self.stmt_map().contains_key(self.roots()[i as int].0)); }
            let t = self.convert_stmt(id);
            proof {
                assert(stmt_shapes(roots@.take(i + 1)) =~= stmt_shapes(roots@.take(i as int)).push(Shape::Stmt(id.0)));
            }
            push_tree(&mut nodes, t, Ghost(*self), Ghost(stmt_shapes(roots@.take(i as int))), Ghost(Shape::Stmt(id.0)));
            i = i + 1;
        }
        proof { assert(roots@.take(roots@.len() as int) =~= roots@); }
        nodes
    }
}

} // verus!
