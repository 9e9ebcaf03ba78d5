use cronyx::source_discovery::{import_names, SourceDiscovery};
use cronyx::module_loader::{LoadQueue, prelude_names, resolve_import, role_of, FileRole};
use cronyx::meta_ast::{ImportDecl, MetaAst, MetaStmt};
use cronyx::id_provider::IdProvider;
use cronyx::module_loader::{collect_imports, expand_wildcard_imports, wildcard_dirs};

#[test]
fn import_lines_give_names() {
    let src = "import a;\n  import b ;;\nvar x = 1;\nimport  c\nimported d;\n";
    assert_eq!(import_names(src), vec!["a", "b", "c"]);
    assert!(import_names("").is_empty());
}

#[test]
fn each_file_is_visited_once() {
    let mut d = SourceDiscovery::new();
    assert!(d.start_visit("/p/cycle_a.cx"));
    d.add_module("/p/cycle_a.cx".to_string(), vec!["/p/cycle_b.cx".to_string()]);
    assert!(d.start_visit("/p/cycle_b.cx"));
    d.add_module("/p/cycle_b.cx".to_string(), vec!["/p/cycle_a.cx".to_string()]);
    assert!(!d.start_visit("/p/cycle_a.cx"));
    let modules = d.modules();
    assert_eq!(modules.len(), 2);
    assert_eq!(modules[1].imports, vec!["/p/cycle_a.cx"]);
}

#[test]
fn imports_resolve_against_their_directory() {
    assert_eq!(resolve_import("dir", "m"), "dir/m.cx");
    assert_eq!(resolve_import("dir/", "m.cx"), "dir/m.cx");
    assert_eq!(resolve_import("dir", "/abs/m"), "/abs/m.cx");
    assert_eq!(resolve_import("", "m"), "m.cx");
}

#[test]
fn prelude_comes_first_then_imports_in_order() {
    assert_eq!(prelude_names(), vec!["Error", "Fallible", "Math", "Option", "String", "StringBuilder"]);
    let mut q = LoadQueue::new("/p/main.cx");
    q.push_prelude("Math", "/std/lang/Math.cx".to_string());
    let decls = vec![
        ImportDecl::Qualified { path: "util".to_string() },
        ImportDecl::Aliased { path: "lib/x.cx".to_string(), alias: "x".to_string() },
    ];
    q.push_imports("/p", &decls, false);
    let first = q.next().unwrap();
    assert!(first.is_stdlib);
    assert_eq!(first.path, "/std/lang/Math.cx");
    assert!(matches!(&first.decl, ImportDecl::Qualified { path } if path == "lang/Math"));
    assert!(matches!(role_of(first), FileRole::StdLib(_)));
    let second = q.next().unwrap();
    assert_eq!(second.path, "/p/util.cx");
    assert!(matches!(role_of(second), FileRole::Explicit(_)));
    let third = q.next().unwrap();
    assert_eq!(third.path, "/p/lib/x.cx");
    assert!(q.next().is_none());
    assert!(!q.visit("/p/main.cx"));
    assert!(q.visit("/p/util.cx"));
    assert!(!q.visit("/p/util.cx"));
}

#[test]
fn wildcard_imports_expand_in_place_in_listing_order() {
    let mut ast = MetaAst::new();
    let mut ids = IdProvider::new();
    let w = ast.insert_stmt(&mut ids, MetaStmt::Import(ImportDecl::Wildcard { path: "lib".to_string() }));
    let a = ast.insert_stmt(&mut ids, MetaStmt::Import(ImportDecl::Qualified { path: "a".to_string() }));
    ast.push_root(w);
    ast.push_root(a);
    assert_eq!(wildcard_dirs(&ast), vec!["lib"]);
    let listings = vec![("lib".to_string(), Ok(vec!["x".to_string(), "y".to_string()]))];
    expand_wildcard_imports(&mut ast, &listings).unwrap();
    assert!(wildcard_dirs(&ast).is_empty());
    let paths: Vec<String> = collect_imports(&ast).iter().map(|d| d.path().to_string()).collect();
    assert_eq!(paths, vec!["lib/x", "lib/y", "a"]);
}

#[test]
fn wildcard_expansion_stops_on_an_unreadable_directory() {
    let mut ast = MetaAst::new();
    let mut ids = IdProvider::new();
    let w = ast.insert_stmt(&mut ids, MetaStmt::Import(ImportDecl::Wildcard { path: "gone".to_string() }));
    ast.push_root(w);
    let listings = vec![("gone".to_string(), Err("gone: No such file or directory".to_string()))];
    assert_eq!(expand_wildcard_imports(&mut ast, &listings), Err("gone: No such file or directory".to_string()));
    let mut ast2 = MetaAst::new();
    let w2 = ast2.insert_stmt(&mut ids, MetaStmt::Import(ImportDecl::Wildcard { path: "other".to_string() }));
    ast2.push_root(w2);
    assert_eq!(expand_wildcard_imports(&mut ast2, &vec![]), Err("other: the directory was not listed".to_string()));
}

#[test]
fn a_path_recorded_again_replaces_its_module() {
    let mut d = SourceDiscovery::new();
    d.add_module("/p/a.cx".to_string(), vec!["/p/b.cx".to_string()]);
    d.add_module("/p/b.cx".to_string(), vec![]);
    d.add_module("/p/a.cx".to_string(), vec!["/p/c.cx".to_string()]);
    let modules = d.modules();
    assert_eq!(modules.len(), 2);
    assert_eq!(modules[0].path, "/p/a.cx");
    assert_eq!(modules[0].imports, vec!["/p/c.cx"]);
    assert_eq!(modules[1].path, "/p/b.cx");
}
