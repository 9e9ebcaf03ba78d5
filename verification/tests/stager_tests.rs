use cronyx::id_provider::IdProvider;
use cronyx::meta_ast::{MetaAst, MetaExpr, MetaStmt};
use cronyx::meta_stager::process_root;
use cronyx::node_id::MetaNodeId;
use cronyx::staged_ast::{StagedExpr, StagedStmt};
use cronyx::staged_forest::{MetaProcessError, StagedForest};
use cronyx::type_env::TypeEnv;

/// A tree holding one statement `print(<expr>)`.
fn print_of(expr: MetaExpr) -> (MetaAst, Vec<MetaNodeId>) {
    let mut ast = MetaAst::new();
    let mut ids = IdProvider::new();
    let e = ast.insert_expr(&mut ids, expr);
    let s = ast.insert_stmt(&mut ids, MetaStmt::Print(e));
    ast.push_root(s);
    let roots = ast.root_stmts().clone();
    (ast, roots)
}

/// The expression printed by the only statement of the forest's root tree.
fn printed(forest: &StagedForest, root: usize) -> StagedExpr {
    let tree = forest.ast_map.get(&root).unwrap();
    assert_eq!(tree.sem_root_stmts.len(), 1);
    match tree.get_stmt(tree.sem_root_stmts[0]).unwrap() {
        StagedStmt::Print(e) => tree.get_expr(*e).unwrap().clone(),
        other => panic!("unexpected {other:?}"),
    }
}

#[test]
fn literals_stage_to_the_same_literals() {
    let (ast, roots) = print_of(MetaExpr::Int(42));
    let mut forest = StagedForest::new();
    let mut ids = IdProvider::new();
    let root = process_root(&ast, roots, &mut forest, &mut ids, &TypeEnv::new()).unwrap();
    assert_eq!(forest.root_id, root);
    assert!(matches!(printed(&forest, root), StagedExpr::Int(42)));
}

#[test]
fn embed_stages_to_the_text_read() {
    let (ast, roots) = print_of(MetaExpr::Embed("notes.txt".to_string()));
    let mut forest = StagedForest::new();
    forest.embedded_files.push(("notes.txt".to_string(), Ok("hello".to_string())));
    let mut ids = IdProvider::new();
    let root = process_root(&ast, roots, &mut forest, &mut ids, &TypeEnv::new()).unwrap();
    match printed(&forest, root) {
        StagedExpr::String(s) => assert_eq!(s, "hello"),
        other => panic!("unexpected {other:?}"),
    }
}

#[test]
fn embed_of_an_unreadable_file_fails_with_its_reason() {
    let (ast, roots) = print_of(MetaExpr::Embed("gone.txt".to_string()));
    let mut forest = StagedForest::new();
    forest.embedded_files.push(("gone.txt".to_string(), Err("No such file".to_string())));
    let mut ids = IdProvider::new();
    match process_root(&ast, roots, &mut forest, &mut ids, &TypeEnv::new()) {
        Err(MetaProcessError::EmbedFailed { path, error }) => {
            assert_eq!(path, "gone.txt");
            assert_eq!(error, "No such file");
        }
        other => panic!("unexpected {other:?}"),
    }
}

#[test]
fn embed_of_a_file_never_read_fails() {
    let (ast, roots) = print_of(MetaExpr::Embed("other.txt".to_string()));
    let mut forest = StagedForest::new();
    let mut ids = IdProvider::new();
    match process_root(&ast, roots, &mut forest, &mut ids, &TypeEnv::new()) {
        Err(MetaProcessError::EmbedFailed { path, error }) => {
            assert_eq!(path, "other.txt");
            assert_eq!(error, "the file was not read");
        }
        other => panic!("unexpected {other:?}"),
    }
}

#[test]
fn a_dangling_reference_is_reported() {
    let mut ast = MetaAst::new();
    let mut ids = IdProvider::new();
    let missing = ids.next_meta();
    // The print refers to an expression the tree does not hold.
    let s = ast.insert_stmt(&mut ids, MetaStmt::Print(missing));
    let roots = vec![s];
    let mut forest = StagedForest::new();
    let mut staged_ids = IdProvider::new();
    match process_root(&ast, roots, &mut forest, &mut staged_ids, &TypeEnv::new()) {
        Err(MetaProcessError::ExprNotFound(id)) => assert_eq!(id, missing),
        other => panic!("unexpected {other:?}"),
    }
}

use cronyx::meta_ast::ImportDecl;
use cronyx::meta_stager::stage_all_files;
use cronyx::module_loader::{FileRole, LoadedFile};
use cronyx::staged_forest::ModuleBinding;
use std::collections::HashMap;

/// A file whose top level declares the functions `fns` and imports `imports`.
fn file(path: &str, role: FileRole, fns: &[&str], imports: &[&str]) -> LoadedFile {
    let mut ast = MetaAst::new();
    let mut ids = IdProvider::new();
    let mut roots = Vec::new();
    for name in fns {
        let body = ast.insert_stmt(&mut ids, MetaStmt::Block(vec![]));
        let decl = ast.insert_stmt(&mut ids, MetaStmt::FnDecl {
            name: name.to_string(),
            params: vec![],
            type_params: vec![],
            ret_ty: None,
            body,
        });
        roots.push(decl);
    }
    for path in imports {
        let imp = ast.insert_stmt(&mut ids, MetaStmt::Import(ImportDecl::Qualified { path: path.to_string() }));
        roots.push(imp);
    }
    for r in roots {
        ast.push_root(r);
    }
    LoadedFile { path: path.to_string(), source: String::new(), ast, role, span_table: HashMap::new() }
}

#[test]
fn imported_files_get_namespace_and_transitive_bindings() {
    let files = vec![
        file("/p/main.cx", FileRole::Entry, &[], &["util"]),
        file("/p/util.cx", FileRole::Explicit(ImportDecl::Qualified { path: "util".to_string() }), &["helper", "twice"], &["peer"]),
        file("/p/peer.cx", FileRole::StdLib(ImportDecl::Qualified { path: "peer".to_string() }), &["greet"], &["util"]),
    ];
    let mut forest = StagedForest::new();
    let mut ids = IdProvider::new();
    let root = stage_all_files(&files, &mut forest, &mut ids, &TypeEnv::new()).unwrap();
    assert_eq!(forest.root_id, root);
    // the two functions of util.cx, the one of peer.cx, then main.cx's import
    let tree = forest.ast_map.get(&root).unwrap();
    assert_eq!(tree.sem_root_stmts.len(), 4);
    let kinds: Vec<String> = tree
        .sem_root_stmts
        .iter()
        .map(|s| match tree.get_stmt(*s).unwrap() {
            StagedStmt::FnDecl { name, .. } => format!("fn {name}"),
            StagedStmt::Import(_) => "import".to_string(),
            other => format!("{other:?}"),
        })
        .collect();
    assert_eq!(kinds, vec!["fn helper", "fn twice", "fn greet", "import"]);
    assert_eq!(forest.module_bindings.len(), 2);
    match &forest.module_bindings[0] {
        ModuleBinding::Namespace { bind_name, exports } => {
            assert_eq!(bind_name, "util");
            let names: Vec<&str> = exports.iter().map(|e| e.0.as_str()).collect();
            assert_eq!(names, vec!["helper", "twice"]);
        }
        other => panic!("unexpected {other:?}"),
    }
    match &forest.module_bindings[1] {
        ModuleBinding::NamespaceByName { bind_name, names } => {
            assert_eq!(bind_name, "peer");
            assert_eq!(names, &vec!["greet".to_string()]);
        }
        other => panic!("unexpected {other:?}"),
    }
}

#[test]
fn an_imported_file_contributes_only_functions_structs_and_meta_blocks() {
    let mut ast = MetaAst::new();
    let mut ids = IdProvider::new();
    let mut roots = Vec::new();
    let one = ast.insert_expr(&mut ids, MetaExpr::Int(1));
    roots.push(ast.insert_stmt(&mut ids, MetaStmt::VarDecl { name: "v".to_string(), type_annotation: None, expr: one }));
    let two = ast.insert_expr(&mut ids, MetaExpr::Int(2));
    roots.push(ast.insert_stmt(&mut ids, MetaStmt::Print(two)));
    let three = ast.insert_expr(&mut ids, MetaExpr::Int(3));
    roots.push(ast.insert_stmt(&mut ids, MetaStmt::ExprStmt(three)));
    let body = ast.insert_stmt(&mut ids, MetaStmt::Block(vec![]));
    roots.push(ast.insert_stmt(&mut ids, MetaStmt::FnDecl {
        name: "f".to_string(),
        params: vec![],
        type_params: vec![],
        ret_ty: None,
        body,
    }));
    roots.push(ast.insert_stmt(&mut ids, MetaStmt::StructDecl { name: "S".to_string(), fields: vec![] }));
    let meta_body = ast.insert_stmt(&mut ids, MetaStmt::Block(vec![]));
    roots.push(ast.insert_stmt(&mut ids, MetaStmt::MetaBlock(meta_body)));
    let mbody = ast.insert_stmt(&mut ids, MetaStmt::Block(vec![]));
    roots.push(ast.insert_stmt(&mut ids, MetaStmt::MetaFnDecl { name: "m".to_string(), params: vec![], body: mbody }));
    roots.push(ast.insert_stmt(&mut ids, MetaStmt::TraitDecl { name: "T".to_string(), methods: vec![] }));
    roots.push(ast.insert_stmt(&mut ids, MetaStmt::ImplDecl { trait_name: "T".to_string(), target_type: "S".to_string(), methods: vec![] }));
    for r in roots {
        ast.push_root(r);
    }
    let lib = LoadedFile {
        path: "/p/lib.cx".to_string(),
        source: String::new(),
        ast,
        role: FileRole::Explicit(ImportDecl::Qualified { path: "lib".to_string() }),
        span_table: HashMap::new(),
    };
    let files = vec![file("/p/main.cx", FileRole::Entry, &["main"], &[]), lib];
    let mut forest = StagedForest::new();
    let mut ids = IdProvider::new();
    let root = stage_all_files(&files, &mut forest, &mut ids, &TypeEnv::new()).unwrap();
    let tree = forest.ast_map.get(&root).unwrap();
    let kinds: Vec<String> = tree
        .sem_root_stmts
        .iter()
        .map(|s| match tree.get_stmt(*s).unwrap() {
            StagedStmt::FnDecl { name, .. } => format!("fn {name}"),
            StagedStmt::StructDecl { name, .. } => format!("struct {name}"),
            StagedStmt::MetaStmt(_) => "meta".to_string(),
            other => format!("{other:?}"),
        })
        .collect();
    // lib.cx's function, struct and meta block, then main.cx's function
    assert_eq!(kinds, vec!["fn f", "struct S", "meta", "fn main"]);
}

/// The staged statements of the only root statement of the forest's root
/// tree, which must be a block.
fn staged_block(forest: &StagedForest, root: usize) -> Vec<StagedStmt> {
    let tree = forest.ast_map.get(&root).unwrap();
    match tree.get_stmt(tree.sem_root_stmts[0]).unwrap() {
        StagedStmt::Block(v) => v.iter().map(|s| tree.get_stmt(*s).unwrap().clone()).collect(),
        other => panic!("unexpected {other:?}"),
    }
}

/// The integer printed by a staged `print`.
fn printed_int(forest: &StagedForest, root: usize, s: &StagedStmt) -> i64 {
    let tree = forest.ast_map.get(&root).unwrap();
    match s {
        StagedStmt::Print(e) => match tree.get_expr(*e).unwrap() {
            StagedExpr::Int(n) => *n,
            other => panic!("unexpected {other:?}"),
        },
        other => panic!("unexpected {other:?}"),
    }
}

#[test]
fn deferred_statements_run_at_block_exit_last_declared_first() {
    let mut ast = MetaAst::new();
    let mut ids = IdProvider::new();
    let mut prints = Vec::new();
    for k in 1..=3 {
        let e = ast.insert_expr(&mut ids, MetaExpr::Int(k));
        prints.push(ast.insert_stmt(&mut ids, MetaStmt::Print(e)));
    }
    let d2 = ast.insert_stmt(&mut ids, MetaStmt::Defer(prints[1]));
    let d3 = ast.insert_stmt(&mut ids, MetaStmt::Defer(prints[2]));
    let b = ast.insert_stmt(&mut ids, MetaStmt::Block(vec![prints[0], d2, d3]));
    let mut forest = StagedForest::new();
    let mut staged_ids = IdProvider::new();
    let root = process_root(&ast, vec![b], &mut forest, &mut staged_ids, &TypeEnv::new()).unwrap();
    let stmts = staged_block(&forest, root);
    let order: Vec<i64> = stmts.iter().map(|s| printed_int(&forest, root, s)).collect();
    assert_eq!(order, vec![1, 3, 2]);
}

#[test]
fn a_return_in_a_block_with_defers_runs_them_first() {
    let mut ast = MetaAst::new();
    let mut ids = IdProvider::new();
    let e = ast.insert_expr(&mut ids, MetaExpr::Int(7));
    let p = ast.insert_stmt(&mut ids, MetaStmt::Print(e));
    let d = ast.insert_stmt(&mut ids, MetaStmt::Defer(p));
    let ret = ast.insert_stmt(&mut ids, MetaStmt::Return(None));
    let b = ast.insert_stmt(&mut ids, MetaStmt::Block(vec![d, ret]));
    let mut forest = StagedForest::new();
    let mut staged_ids = IdProvider::new();
    let root = process_root(&ast, vec![b], &mut forest, &mut staged_ids, &TypeEnv::new()).unwrap();
    let tree = forest.ast_map.get(&root).unwrap();
    let stmts = staged_block(&forest, root);
    assert_eq!(stmts.len(), 2);
    // the return became { print(7); return; }, and the block ends with print(7)
    match &stmts[0] {
        StagedStmt::Block(v) => {
            assert_eq!(v.len(), 2);
            assert_eq!(printed_int(&forest, root, tree.get_stmt(v[0]).unwrap()), 7);
            assert!(matches!(tree.get_stmt(v[1]).unwrap(), StagedStmt::Return(None)));
        }
        other => panic!("unexpected {other:?}"),
    }
    assert_eq!(printed_int(&forest, root, &stmts[1]), 7);
}

#[test]
fn a_return_in_a_nested_function_does_not_run_the_outer_defers() {
    let mut ast = MetaAst::new();
    let mut ids = IdProvider::new();
    let e = ast.insert_expr(&mut ids, MetaExpr::Int(7));
    let p = ast.insert_stmt(&mut ids, MetaStmt::Print(e));
    let d = ast.insert_stmt(&mut ids, MetaStmt::Defer(p));
    let ret = ast.insert_stmt(&mut ids, MetaStmt::Return(None));
    let body = ast.insert_stmt(&mut ids, MetaStmt::Block(vec![ret]));
    let f = ast.insert_stmt(&mut ids, MetaStmt::FnDecl {
        name: "g".to_string(),
        params: vec![],
        type_params: vec![],
        ret_ty: None,
        body,
    });
    let b = ast.insert_stmt(&mut ids, MetaStmt::Block(vec![d, f]));
    let mut forest = StagedForest::new();
    let mut staged_ids = IdProvider::new();
    let root = process_root(&ast, vec![b], &mut forest, &mut staged_ids, &TypeEnv::new()).unwrap();
    let tree = forest.ast_map.get(&root).unwrap();
    let stmts = staged_block(&forest, root);
    assert_eq!(stmts.len(), 2);
    match &stmts[0] {
        StagedStmt::FnDecl { name, body, .. } => {
            assert_eq!(name, "g");
            match tree.get_stmt(*body).unwrap() {
                StagedStmt::Block(v) => {
                    assert_eq!(v.len(), 1);
                    assert!(matches!(tree.get_stmt(v[0]).unwrap(), StagedStmt::Return(None)));
                }
                other => panic!("unexpected {other:?}"),
            }
        }
        other => panic!("unexpected {other:?}"),
    }
    assert_eq!(printed_int(&forest, root, &stmts[1]), 7);
}

#[test]
fn typeof_stages_the_type_text_or_unknown() {
    let mut env = TypeEnv::new();
    env.bind_mono("x", cronyx::types::int_type());
    let (ast, roots) = print_of(MetaExpr::Typeof("x".to_string()));
    let mut forest = StagedForest::new();
    let mut ids = IdProvider::new();
    let root = process_root(&ast, roots, &mut forest, &mut ids, &env).unwrap();
    assert!(matches!(printed(&forest, root), StagedExpr::String(s) if s == "int"));
    let (ast, roots) = print_of(MetaExpr::Typeof("y".to_string()));
    let mut forest = StagedForest::new();
    let mut ids = IdProvider::new();
    let root = process_root(&ast, roots, &mut forest, &mut ids, &env).unwrap();
    assert!(matches!(printed(&forest, root), StagedExpr::String(s) if s == "unknown(y)"));
    // nothing else was staged: the forest holds the one tree
    assert_eq!(forest.ast_map.len(), 1);
}

#[test]
fn a_meta_block_is_a_dependency_of_its_tree() {
    let mut ast = MetaAst::new();
    let mut ids = IdProvider::new();
    let e = ast.insert_expr(&mut ids, MetaExpr::Int(1));
    let p = ast.insert_stmt(&mut ids, MetaStmt::Print(e));
    let m = ast.insert_stmt(&mut ids, MetaStmt::MetaBlock(p));
    let mut forest = StagedForest::new();
    let mut staged_ids = IdProvider::new();
    let root = process_root(&ast, vec![m], &mut forest, &mut staged_ids, &TypeEnv::new()).unwrap();
    let tree = forest.ast_map.get(&root).unwrap();
    let inner = match tree.get_stmt(tree.sem_root_stmts[0]).unwrap() {
        StagedStmt::MetaStmt(r) => r.ast_ref,
        other => panic!("unexpected {other:?}"),
    };
    assert!(forest.ast_map.contains_key(&inner));
    assert!(forest.dependency_map.contains_key(&inner));
    let deps = forest.dependency_map.get(&root).unwrap();
    assert_eq!(deps.len(), 1);
    assert!(matches!(deps[0], cronyx::staged_forest::ProcessDependency::MetaTree(t) if t == inner));
}

#[test]
fn operands_keep_their_sides() {
    let mut ast = MetaAst::new();
    let mut ids = IdProvider::new();
    let z = ast.insert_expr(&mut ids, MetaExpr::Int(0));
    let x = ast.insert_expr(&mut ids, MetaExpr::Variable("x".to_string()));
    let d = ast.insert_expr(&mut ids, MetaExpr::Sub(z, x));
    let s = ast.insert_stmt(&mut ids, MetaStmt::Print(d));
    let mut forest = StagedForest::new();
    let mut staged_ids = IdProvider::new();
    let root = process_root(&ast, vec![s], &mut forest, &mut staged_ids, &TypeEnv::new()).unwrap();
    let tree = forest.ast_map.get(&root).unwrap();
    match printed(&forest, root) {
        StagedExpr::Sub(a, b) => {
            assert!(matches!(tree.get_expr(a).unwrap(), StagedExpr::Int(0)));
            assert!(matches!(tree.get_expr(b).unwrap(), StagedExpr::Variable(n) if n == "x"));
        }
        other => panic!("unexpected {other:?}"),
    }
}

#[test]
fn an_if_keeps_its_condition_body_and_else_in_place() {
    let mut ast = MetaAst::new();
    let mut ids = IdProvider::new();
    let c = ast.insert_expr(&mut ids, MetaExpr::Bool(true));
    let one = ast.insert_expr(&mut ids, MetaExpr::Int(1));
    let two = ast.insert_expr(&mut ids, MetaExpr::Int(2));
    let p1 = ast.insert_stmt(&mut ids, MetaStmt::Print(one));
    let p2 = ast.insert_stmt(&mut ids, MetaStmt::Print(two));
    let s = ast.insert_stmt(&mut ids, MetaStmt::If { cond: c, body: p1, else_branch: Some(p2) });
    let mut forest = StagedForest::new();
    let mut staged_ids = IdProvider::new();
    let root = process_root(&ast, vec![s], &mut forest, &mut staged_ids, &TypeEnv::new()).unwrap();
    let tree = forest.ast_map.get(&root).unwrap();
    match tree.get_stmt(tree.sem_root_stmts[0]).unwrap() {
        StagedStmt::If { cond, body, else_branch: Some(e) } => {
            assert!(matches!(tree.get_expr(*cond).unwrap(), StagedExpr::Bool(true)));
            assert_eq!(printed_int(&forest, root, tree.get_stmt(*body).unwrap()), 1);
            assert_eq!(printed_int(&forest, root, tree.get_stmt(*e).unwrap()), 2);
        }
        other => panic!("unexpected {other:?}"),
    }
}
