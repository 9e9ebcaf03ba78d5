use cronyx::id_provider::IdProvider;
use cronyx::node_id::StagedNodeId;
use cronyx::staged_ast::{StagedAst, StagedExpr, StagedStmt};
use cronyx::staged_forest::{collect_external_uses, collect_provides, ProcessDependency, StagedForest};

/// A tree declaring the functions `fns` and calling the functions `calls`
/// at its top level.
fn tree(fns: &[&str], calls: &[&str]) -> StagedAst {
    let mut ast = StagedAst::new();
    let mut next = 0usize;
    for name in fns {
        let body = StagedNodeId(next);
        ast.insert_stmt(body, StagedStmt::Block(vec![]));
        let decl = StagedNodeId(next + 1);
        ast.insert_stmt(decl, StagedStmt::FnDecl {
            name: name.to_string(),
            params: vec![],
            type_params: vec![],
            body,
        });
        ast.sem_root_stmts.push(decl);
        next += 2;
    }
    for name in calls {
        let call = StagedNodeId(next);
        ast.insert_expr(call, StagedExpr::Call { callee: name.to_string(), args: vec![] });
        let stmt = StagedNodeId(next + 1);
        ast.insert_stmt(stmt, StagedStmt::ExprStmt(call));
        ast.sem_root_stmts.push(stmt);
        next += 2;
    }
    ast
}

#[test]
fn provides_and_external_uses() {
    let t = tree(&["f", "g"], &["f", "h", "h"]);
    assert_eq!(collect_provides(&t), vec!["f", "g"]);
    // `f` is declared here and `h` is named once
    assert_eq!(collect_external_uses(&t), vec!["h"]);
}

#[test]
fn uses_become_dependencies_on_the_declaring_tree() {
    let mut forest = StagedForest::new();
    let mut ids = IdProvider::new();
    let root = forest.insert_tree(tree(&[], &["main_helper"]), &mut ids);
    let lib = forest.insert_tree(tree(&["helper"], &["helper", "print_line"]), &mut ids);
    let user = forest.insert_tree(tree(&[], &["helper"]), &mut ids);
    forest.root_id = root;
    forest.resolve_symbol_deps().unwrap();
    let deps_of = |t: usize| forest.dependency_map.get(&t).cloned().unwrap_or_default();
    // the tree using `helper` waits for the tree declaring it
    assert_eq!(deps_of(user), vec![ProcessDependency::SymbolTree(lib)]);
    // a tree does not wait for itself, and an undeclared name (a builtin) adds nothing
    assert!(deps_of(lib).is_empty());
    // the runtime tree gets no symbol dependencies
    assert!(deps_of(root).is_empty());
}
