use cronyx::tree_formatter::{TreeNode, AsTree, print_tree};
use cronyx::parser::{parse, ParseCtx};
use cronyx::token::{Token, TokenType, TokenValue};
use cronyx::node_id::StagedNodeId;
use cronyx::staged_ast::{StagedAst, StagedExpr, StagedStmt, MetaRef};
use cronyx::staged_forest::StagedForest;
use cronyx::id_provider::IdProvider;

fn tok(t: TokenType, v: TokenValue, col: usize) -> Token {
    Token { token_type: t, value: v, line_number: 1, col }
}

#[test]
fn prints_nested_trees_with_branch_marks() {
    let nodes = vec![
        TreeNode::node("a".to_string(), vec![
            TreeNode::leaf("b".to_string()),
            TreeNode::node("c".to_string(), vec![TreeNode::leaf("d".to_string())]),
        ]),
        TreeNode::leaf("e".to_string()),
    ];
    assert_eq!(print_tree(&nodes), "├─ a\n│  ├─ b\n│  └─ c\n│     └─ d\n└─ e\n");
    assert_eq!(print_tree(&vec![]), "");
}

#[test]
fn meta_tree_shows_labels_ids_and_operands() {
    // var x = 1 + 2;
    let tokens = vec![
        tok(TokenType::Var, TokenValue::Empty, 1),
        tok(TokenType::Identifier, TokenValue::Str("x".to_string()), 5),
        tok(TokenType::Equal, TokenValue::Empty, 7),
        tok(TokenType::Number, TokenValue::Int(1), 9),
        tok(TokenType::Plus, TokenValue::Empty, 11),
        tok(TokenType::Number, TokenValue::Int(2), 13),
        tok(TokenType::Semicolon, TokenValue::Empty, 14),
        tok(TokenType::EOF, TokenValue::Empty, 15),
    ];
    let mut ctx = ParseCtx::new();
    parse(&tokens, &mut ctx).unwrap();
    let trees = ctx.ast.as_tree();
    assert_eq!(trees.len(), 1);
    let decl = &trees[0];
    assert_eq!(decl.label, "VarDecl");
    assert_eq!(decl.children.len(), 3);
    assert!(decl.children[0].label.starts_with("id: "));
    assert_eq!(decl.children[1].label, "Name(x)");
    let add = &decl.children[2];
    assert_eq!(add.label, "Add");
    assert_eq!(add.children.len(), 3);
    assert_eq!(add.children[1].label, "Int");
    assert_eq!(add.children[1].children[1].label, "1");
    assert_eq!(add.children[2].children[1].label, "2");
    let text = ctx.ast.format_tree();
    assert!(text.starts_with("└─ VarDecl\n   ├─ id: "));
}

#[test]
fn staged_tree_shows_meta_refs() {
    let mut ast = StagedAst::new();
    ast.insert_expr(StagedNodeId(1), StagedExpr::Int(5));
    ast.insert_stmt(StagedNodeId(2), StagedStmt::ExprStmt(StagedNodeId(1)));
    ast.insert_stmt(StagedNodeId(3), StagedStmt::MetaStmt(MetaRef { ast_ref: 7 }));
    ast.sem_root_stmts = vec![StagedNodeId(2), StagedNodeId(3)];
    assert_eq!(
        ast.format_tree(),
        "├─ ExprStmt\n│  ├─ id: 2\n│  └─ Int\n│     ├─ id: 1\n│     └─ 5\n└─ MetaRef\n   ├─ id: 3\n   └─ 7\n"
    );
}

#[test]
fn forest_tree_lists_root_and_trees() {
    let mut forest = StagedForest::new();
    let mut ids = IdProvider::new();
    let mut ast = StagedAst::new();
    ast.insert_expr(StagedNodeId(10), StagedExpr::Bool(true));
    ast.insert_stmt(StagedNodeId(11), StagedStmt::Print(StagedNodeId(10)));
    ast.sem_root_stmts = vec![StagedNodeId(11)];
    let id = forest.insert_tree(ast, &mut ids);
    forest.root_id = id;
    let trees = forest.as_tree();
    assert_eq!(trees.len(), 2);
    assert_eq!(trees[0].label, format!("root_id: {id}"));
    assert_eq!(trees[1].label, format!("Tree {id}"));
    assert_eq!(trees[1].children[0].label, "PrintStmt");
    assert_eq!(trees[1].children[0].children[1].children[1].label, "true");
}
