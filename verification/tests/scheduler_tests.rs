use std::collections::HashMap;
use cronyx::meta_processor::{Scheduler, find_cycle_chain, circular_dependency, collector_start_id};
use cronyx::staged_forest::{ProcessDependency, MetaProcessError, StagedForest};
use cronyx::staged_ast::{StagedAst, StagedExpr, StagedStmt};
use cronyx::node_id::StagedNodeId;

fn deps(entries: &[(usize, Vec<ProcessDependency>)]) -> HashMap<usize, Vec<ProcessDependency>> {
    let mut m = HashMap::new();
    for (k, v) in entries {
        m.insert(*k, v.clone());
    }
    m
}

#[test]
fn trees_come_out_after_their_dependencies() {
    let m = deps(&[
        (1, vec![ProcessDependency::MetaTree(2)]),
        (2, vec![]),
        (3, vec![ProcessDependency::SymbolTree(1), ProcessDependency::SymbolTree(2)]),
    ]);
    let mut s = Scheduler::new(&m);
    assert_eq!(s.pop(), Some(2));
    assert_eq!(s.pop(), None);
    s.resolve(2);
    assert_eq!(s.pop(), Some(1));
    s.resolve(1);
    assert_eq!(s.pop(), Some(3));
    s.resolve(3);
    assert_eq!(s.pop(), None);
    assert!(s.stuck().is_empty());
}

#[test]
fn a_cycle_leaves_trees_stuck_and_is_found() {
    let m = deps(&[
        (1, vec![ProcessDependency::MetaTree(2)]),
        (2, vec![ProcessDependency::SymbolTree(1)]),
        (3, vec![]),
    ]);
    let mut s = Scheduler::new(&m);
    assert_eq!(s.pop(), Some(3));
    s.resolve(3);
    assert_eq!(s.pop(), None);
    let mut stuck = s.stuck();
    stuck.sort();
    assert_eq!(stuck, vec![1, 2]);
    let chain = find_cycle_chain(&stuck, &m).unwrap();
    assert_eq!(chain.len(), 3);
    assert_eq!(chain[0], chain[2]);
    assert_ne!(chain[0], chain[1]);

    let provides = vec![("f".to_string(), 1), ("g".to_string(), 2), ("h".to_string(), 1)];
    match circular_dependency(&stuck, &m, &provides) {
        MetaProcessError::CircularDependency(names) => {
            assert!(names == vec!["f", "g", "f"] || names == vec!["g", "f", "g"], "{names:?}");
        }
        other => panic!("unexpected {other:?}"),
    }
}

#[test]
fn without_a_cycle_the_stuck_trees_are_named_in_order() {
    let m = deps(&[
        (1, vec![ProcessDependency::MetaTree(9)]),
        (2, vec![ProcessDependency::SymbolTree(1)]),
        (4, vec![ProcessDependency::SymbolTree(1)]),
    ]);
    let mut s = Scheduler::new(&m);
    assert_eq!(s.pop(), None);
    let stuck = s.stuck();
    assert_eq!(stuck.len(), 3);
    assert_eq!(find_cycle_chain(&stuck, &m), None);
    let provides = vec![("zeta".to_string(), 1), ("alpha".to_string(), 2)];
    match circular_dependency(&stuck, &m, &provides) {
        MetaProcessError::CircularDependency(names) => assert_eq!(names, vec!["<tree 4>", "alpha", "zeta"]),
        other => panic!("unexpected {other:?}"),
    }
}

#[test]
fn generated_ids_start_past_every_id() {
    let mut forest = StagedForest::new();
    let mut ast = StagedAst::new();
    ast.insert_expr(StagedNodeId(30), StagedExpr::Int(1));
    ast.insert_stmt(StagedNodeId(12), StagedStmt::ExprStmt(StagedNodeId(30)));
    forest.ast_map.insert(5, ast);
    forest.ast_map.insert(40, StagedAst::new());
    assert_eq!(collector_start_id(&forest), 41);
    forest.ast_map.remove(&40);
    assert_eq!(collector_start_id(&forest), 31);
    assert_eq!(collector_start_id(&StagedForest::new()), 1);
}
