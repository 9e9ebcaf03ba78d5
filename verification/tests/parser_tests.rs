use cronyx::parser::{parse, ParseCtx, ParseError};
use cronyx::token::{Token, TokenType, TokenValue};
use cronyx::meta_ast::{MetaStmt, MetaExpr};

fn tok(t: TokenType, v: TokenValue, line: usize, col: usize) -> Token {
    Token { token_type: t, value: v, line_number: line, col }
}

fn ident(s: &str, col: usize) -> Token {
    tok(TokenType::Identifier, TokenValue::Str(s.to_string()), 1, col)
}

fn num(n: i64, col: usize) -> Token {
    tok(TokenType::Number, TokenValue::Int(n), 1, col)
}

fn punct(t: TokenType, col: usize) -> Token {
    tok(t, TokenValue::Empty, 1, col)
}

#[test]
fn parses_var_decl_with_precedence() {
    // var x = 1 + 2 * 3;
    let tokens = vec![
        punct(TokenType::Var, 1),
        ident("x", 5),
        punct(TokenType::Equal, 7),
        num(1, 9),
        punct(TokenType::Plus, 11),
        num(2, 13),
        punct(TokenType::Star, 15),
        num(3, 17),
        punct(TokenType::Semicolon, 18),
        punct(TokenType::EOF, 19),
    ];
    let mut ctx = ParseCtx::new();
    parse(&tokens, &mut ctx).unwrap();
    let roots = ctx.ast.root_stmts().clone();
    assert_eq!(roots.len(), 1);
    match ctx.ast.get_stmt(roots[0]).unwrap() {
        MetaStmt::VarDecl { name, expr, .. } => {
            assert_eq!(name, "x");
            match ctx.ast.get_expr(*expr).unwrap() {
                MetaExpr::Add(a, b) => {
                    assert!(matches!(ctx.ast.get_expr(*a).unwrap(), MetaExpr::Int(1)));
                    assert!(matches!(ctx.ast.get_expr(*b).unwrap(), MetaExpr::Mult(_, _)));
                }
                other => panic!("expected Add, got {:?}", other),
            }
        }
        other => panic!("expected VarDecl, got {:?}", other),
    }
}

#[test]
fn reports_unexpected_token_with_location() {
    // var = 1;
    let tokens = vec![
        punct(TokenType::Var, 1),
        tok(TokenType::Equal, TokenValue::Empty, 2, 5),
        num(1, 7),
        punct(TokenType::Semicolon, 8),
    ];
    let mut ctx = ParseCtx::new();
    let err = parse(&tokens, &mut ctx).unwrap_err();
    match err {
        ParseError::UnexpectedToken { found, expected, line, col } => {
            assert_eq!(found, TokenType::Equal);
            assert_eq!(expected, TokenType::Identifier);
            assert_eq!((line, col), (2, 5));
        }
        other => panic!("unexpected {:?}", other),
    }
}

#[test]
fn print_statements_of_literals_parse_in_order() {
    // print(42); print("hi"); print(true);
    let tokens = vec![
        punct(TokenType::Print, 1),
        punct(TokenType::LeftParen, 6),
        num(42, 7),
        punct(TokenType::RightParen, 9),
        punct(TokenType::Semicolon, 10),
        punct(TokenType::Print, 12),
        punct(TokenType::LeftParen, 17),
        tok(TokenType::String, TokenValue::Str("hi".to_string()), 1, 18),
        punct(TokenType::RightParen, 22),
        punct(TokenType::Semicolon, 23),
        punct(TokenType::Print, 25),
        punct(TokenType::LeftParen, 30),
        punct(TokenType::True, 31),
        punct(TokenType::RightParen, 35),
        punct(TokenType::Semicolon, 36),
        punct(TokenType::EOF, 37),
    ];
    let (ast, spans) = cronyx::module_loader::parse_tokens(&tokens, &"main.cx".to_string()).unwrap();
    let roots = ast.root_stmts().clone();
    assert_eq!(roots.len(), 3);
    let printed: Vec<String> = roots
        .iter()
        .map(|r| match ast.get_stmt(*r).unwrap() {
            MetaStmt::Print(e) => match ast.get_expr(*e).unwrap() {
                MetaExpr::Int(n) => n.to_string(),
                MetaExpr::String(s) => format!("{s:?}"),
                MetaExpr::Bool(b) => b.to_string(),
                other => panic!("unexpected {other:?}"),
            },
            other => panic!("unexpected {other:?}"),
        })
        .collect();
    assert_eq!(printed, vec!["42", "\"hi\"", "true"]);
    assert!(!spans.is_empty());
}

#[test]
fn empty_program_has_no_statements() {
    let tokens = vec![punct(TokenType::EOF, 1)];
    let mut ctx = ParseCtx::new();
    parse(&tokens, &mut ctx).unwrap();
    assert!(ctx.ast.root_stmts().is_empty());
}

#[test]
fn var_declarations_of_literals_parse() {
    // var answer = 42; print(false);
    let tokens = vec![
        punct(TokenType::Var, 1),
        ident("answer", 5),
        punct(TokenType::Equal, 12),
        num(42, 14),
        punct(TokenType::Semicolon, 16),
        punct(TokenType::Print, 18),
        punct(TokenType::LeftParen, 23),
        punct(TokenType::False, 24),
        punct(TokenType::RightParen, 29),
        punct(TokenType::Semicolon, 30),
        punct(TokenType::EOF, 31),
    ];
    let mut ctx = ParseCtx::new();
    parse(&tokens, &mut ctx).unwrap();
    let roots = ctx.ast.root_stmts().clone();
    assert_eq!(roots.len(), 2);
    match ctx.ast.get_stmt(roots[0]).unwrap() {
        MetaStmt::VarDecl { name, type_annotation, expr } => {
            assert_eq!(name, "answer");
            assert!(type_annotation.is_none());
            assert!(matches!(ctx.ast.get_expr(*expr).unwrap(), MetaExpr::Int(42)));
        }
        other => panic!("unexpected {other:?}"),
    }
    match ctx.ast.get_stmt(roots[1]).unwrap() {
        MetaStmt::Print(e) => assert!(matches!(ctx.ast.get_expr(*e).unwrap(), MetaExpr::Bool(false))),
        other => panic!("unexpected {other:?}"),
    }
}

#[test]
fn names_read_as_variables() {
    // var y = x; print(y);
    let tokens = vec![
        punct(TokenType::Var, 1),
        ident("y", 5),
        punct(TokenType::Equal, 7),
        ident("x", 9),
        punct(TokenType::Semicolon, 10),
        punct(TokenType::Print, 12),
        punct(TokenType::LeftParen, 17),
        ident("y", 18),
        punct(TokenType::RightParen, 19),
        punct(TokenType::Semicolon, 20),
        punct(TokenType::EOF, 21),
    ];
    let mut ctx = ParseCtx::new();
    parse(&tokens, &mut ctx).unwrap();
    let roots = ctx.ast.root_stmts().clone();
    match ctx.ast.get_stmt(roots[0]).unwrap() {
        MetaStmt::VarDecl { name, expr, .. } => {
            assert_eq!(name, "y");
            assert!(matches!(ctx.ast.get_expr(*expr).unwrap(), MetaExpr::Variable(v) if v == "x"));
        }
        other => panic!("unexpected {other:?}"),
    }
    match ctx.ast.get_stmt(roots[1]).unwrap() {
        MetaStmt::Print(e) => assert!(matches!(ctx.ast.get_expr(*e).unwrap(), MetaExpr::Variable(v) if v == "y")),
        other => panic!("unexpected {other:?}"),
    }
}

#[test]
fn a_binary_operator_joins_two_atoms() {
    // print(x < 3);
    let tokens = vec![
        punct(TokenType::Print, 1),
        punct(TokenType::LeftParen, 6),
        ident("x", 7),
        punct(TokenType::Less, 9),
        num(3, 11),
        punct(TokenType::RightParen, 12),
        punct(TokenType::Semicolon, 13),
        punct(TokenType::EOF, 14),
    ];
    let mut ctx = ParseCtx::new();
    parse(&tokens, &mut ctx).unwrap();
    let roots = ctx.ast.root_stmts().clone();
    match ctx.ast.get_stmt(roots[0]).unwrap() {
        MetaStmt::Print(e) => match ctx.ast.get_expr(*e).unwrap() {
            MetaExpr::Lt(a, b) => {
                assert!(matches!(ctx.ast.get_expr(*a).unwrap(), MetaExpr::Variable(v) if v == "x"));
                assert!(matches!(ctx.ast.get_expr(*b).unwrap(), MetaExpr::Int(3)));
            }
            other => panic!("unexpected {other:?}"),
        },
        other => panic!("unexpected {other:?}"),
    }
}

/// Parses `tokens` (an `EOF` is added) and returns the context.
fn parsed(mut tokens: Vec<Token>) -> ParseCtx {
    let col = tokens.len() + 1;
    tokens.push(punct(TokenType::EOF, col));
    let mut ctx = ParseCtx::new();
    parse(&tokens, &mut ctx).unwrap();
    ctx
}

/// The initialiser of the `var` statement `stmt`.
fn initialiser(ctx: &ParseCtx, stmt: cronyx::node_id::MetaNodeId) -> MetaExpr {
    match ctx.ast.get_stmt(stmt).unwrap() {
        MetaStmt::VarDecl { expr, .. } => ctx.ast.get_expr(*expr).unwrap().clone(),
        other => panic!("expected VarDecl, got {:?}", other),
    }
}

#[test]
fn a_c_style_for_becomes_init_then_while_with_the_step_last() {
    // for (var i = 0; i < 3; i++) { print(i); }
    let ctx = parsed(vec![
        punct(TokenType::For, 1),
        punct(TokenType::LeftParen, 5),
        punct(TokenType::Var, 6),
        ident("i", 10),
        punct(TokenType::Equal, 12),
        num(0, 14),
        punct(TokenType::Semicolon, 15),
        ident("i", 17),
        punct(TokenType::Less, 19),
        num(3, 21),
        punct(TokenType::Semicolon, 22),
        ident("i", 24),
        punct(TokenType::PlusPlus, 25),
        punct(TokenType::RightParen, 27),
        punct(TokenType::LeftBrace, 29),
        punct(TokenType::Print, 31),
        punct(TokenType::LeftParen, 36),
        ident("i", 37),
        punct(TokenType::RightParen, 38),
        punct(TokenType::Semicolon, 39),
        punct(TokenType::RightBrace, 41),
    ]);
    let roots = ctx.ast.root_stmts().clone();
    assert_eq!(roots.len(), 1);
    let outer = match ctx.ast.get_stmt(roots[0]).unwrap() {
        MetaStmt::Block(v) => v.clone(),
        other => panic!("expected Block, got {:?}", other),
    };
    assert_eq!(outer.len(), 2);
    assert!(matches!(initialiser(&ctx, outer[0]), MetaExpr::Int(0)));
    let (cond, body) = match ctx.ast.get_stmt(outer[1]).unwrap() {
        MetaStmt::WhileLoop { cond, body } => (*cond, *body),
        other => panic!("expected WhileLoop, got {:?}", other),
    };
    match ctx.ast.get_expr(cond).unwrap() {
        MetaExpr::Lt(a, b) => {
            assert!(matches!(ctx.ast.get_expr(*a).unwrap(), MetaExpr::Variable(n) if n == "i"));
            assert!(matches!(ctx.ast.get_expr(*b).unwrap(), MetaExpr::Int(3)));
        }
        other => panic!("expected Lt, got {:?}", other),
    }
    let inner = match ctx.ast.get_stmt(body).unwrap() {
        MetaStmt::Block(v) => v.clone(),
        other => panic!("expected Block, got {:?}", other),
    };
    assert_eq!(inner.len(), 2);
    match ctx.ast.get_stmt(inner[0]).unwrap() {
        MetaStmt::Block(v) => {
            assert_eq!(v.len(), 1);
            assert!(matches!(ctx.ast.get_stmt(v[0]).unwrap(), MetaStmt::Print(_)));
        }
        other => panic!("expected Block, got {:?}", other),
    }
    match ctx.ast.get_stmt(inner[1]).unwrap() {
        MetaStmt::Assign { name, expr } => {
            assert_eq!(name, "i");
            match ctx.ast.get_expr(*expr).unwrap() {
                MetaExpr::Add(a, b) => {
                    assert!(matches!(ctx.ast.get_expr(*a).unwrap(), MetaExpr::Variable(n) if n == "i"));
                    assert!(matches!(ctx.ast.get_expr(*b).unwrap(), MetaExpr::Int(1)));
                }
                other => panic!("expected Add, got {:?}", other),
            }
        }
        other => panic!("expected Assign, got {:?}", other),
    }
}

#[test]
fn unary_minus_is_zero_minus_the_operand() {
    // var a = -x;
    let ctx = parsed(vec![
        punct(TokenType::Var, 1),
        ident("a", 5),
        punct(TokenType::Equal, 7),
        punct(TokenType::Minus, 9),
        ident("x", 10),
        punct(TokenType::Semicolon, 11),
    ]);
    let roots = ctx.ast.root_stmts().clone();
    match initialiser(&ctx, roots[0]) {
        MetaExpr::Sub(z, o) => {
            assert!(matches!(ctx.ast.get_expr(z).unwrap(), MetaExpr::Int(0)));
            assert!(matches!(ctx.ast.get_expr(o).unwrap(), MetaExpr::Variable(n) if n == "x"));
        }
        other => panic!("expected Sub, got {:?}", other),
    }
}

#[test]
fn empty_parentheses_without_an_arrow_are_zero() {
    // var u = ();
    let ctx = parsed(vec![
        punct(TokenType::Var, 1),
        ident("u", 5),
        punct(TokenType::Equal, 7),
        punct(TokenType::LeftParen, 9),
        punct(TokenType::RightParen, 10),
        punct(TokenType::Semicolon, 11),
    ]);
    let roots = ctx.ast.root_stmts().clone();
    assert!(matches!(initialiser(&ctx, roots[0]), MetaExpr::Int(0)));
}

#[test]
fn subtraction_chains_group_from_the_left() {
    // var d = 10 - 4 - 3;
    let ctx = parsed(vec![
        punct(TokenType::Var, 1),
        ident("d", 5),
        punct(TokenType::Equal, 7),
        num(10, 9),
        punct(TokenType::Minus, 12),
        num(4, 14),
        punct(TokenType::Minus, 16),
        num(3, 18),
        punct(TokenType::Semicolon, 19),
    ]);
    let roots = ctx.ast.root_stmts().clone();
    match initialiser(&ctx, roots[0]) {
        MetaExpr::Sub(l, c) => {
            assert!(matches!(ctx.ast.get_expr(c).unwrap(), MetaExpr::Int(3)));
            match ctx.ast.get_expr(l).unwrap() {
                MetaExpr::Sub(a, b) => {
                    assert!(matches!(ctx.ast.get_expr(*a).unwrap(), MetaExpr::Int(10)));
                    assert!(matches!(ctx.ast.get_expr(*b).unwrap(), MetaExpr::Int(4)));
                }
                other => panic!("expected Sub, got {:?}", other),
            }
        }
        other => panic!("expected Sub, got {:?}", other),
    }
}

#[test]
fn postfix_slices_and_tuple_index_take_the_object_location() {
    // var s = xs[1:]; var t = xs[:2]; var q = p.0;
    let ctx = parsed(vec![
        punct(TokenType::Var, 1),
        ident("s", 5),
        punct(TokenType::Equal, 7),
        ident("xs", 9),
        punct(TokenType::LeftBracket, 11),
        num(1, 12),
        punct(TokenType::Colon, 13),
        punct(TokenType::RightBracket, 14),
        punct(TokenType::Semicolon, 15),
        punct(TokenType::Var, 17),
        ident("t", 21),
        punct(TokenType::Equal, 23),
        ident("xs", 25),
        punct(TokenType::LeftBracket, 27),
        punct(TokenType::Colon, 28),
        num(2, 29),
        punct(TokenType::RightBracket, 30),
        punct(TokenType::Semicolon, 31),
        punct(TokenType::Var, 33),
        ident("q", 37),
        punct(TokenType::Equal, 39),
        ident("p", 41),
        punct(TokenType::Dot, 42),
        num(0, 43),
        punct(TokenType::Semicolon, 44),
    ]);
    let roots = ctx.ast.root_stmts().clone();
    let expr_of = |k: usize| match ctx.ast.get_stmt(roots[k]).unwrap() {
        MetaStmt::VarDecl { expr, .. } => *expr,
        other => panic!("expected VarDecl, got {:?}", other),
    };
    let s = expr_of(0);
    match ctx.ast.get_expr(s).unwrap() {
        MetaExpr::SliceRange { object, start: Some(a), end: None } => {
            assert!(matches!(ctx.ast.get_expr(*object).unwrap(), MetaExpr::Variable(n) if n == "xs"));
            assert!(matches!(ctx.ast.get_expr(*a).unwrap(), MetaExpr::Int(1)));
            assert_eq!(ctx.span_table.get(&s.0), ctx.span_table.get(&object.0));
            assert_eq!(ctx.span_table.get(&s.0), Some(&(1, 9)));
        }
        other => panic!("expected SliceRange, got {:?}", other),
    }
    let t = expr_of(1);
    match ctx.ast.get_expr(t).unwrap() {
        MetaExpr::SliceRange { object, start: None, end: Some(b) } => {
            assert!(matches!(ctx.ast.get_expr(*object).unwrap(), MetaExpr::Variable(n) if n == "xs"));
            assert!(matches!(ctx.ast.get_expr(*b).unwrap(), MetaExpr::Int(2)));
            assert_eq!(ctx.span_table.get(&t.0), ctx.span_table.get(&object.0));
        }
        other => panic!("expected SliceRange, got {:?}", other),
    }
    let q = expr_of(2);
    match ctx.ast.get_expr(q).unwrap() {
        MetaExpr::TupleIndex { object, index } => {
            assert!(matches!(ctx.ast.get_expr(*object).unwrap(), MetaExpr::Variable(n) if n == "p"));
            assert_eq!(*index, 0);
            assert_eq!(ctx.span_table.get(&q.0), ctx.span_table.get(&object.0));
        }
        other => panic!("expected TupleIndex, got {:?}", other),
    }
}

#[test]
fn a_declaration_takes_the_location_of_its_first_token() {
    // var x = 1; print(x);   (on line 3)
    let tokens = vec![
        tok(TokenType::Var, TokenValue::Empty, 3, 4),
        tok(TokenType::Identifier, TokenValue::Str("x".to_string()), 3, 8),
        tok(TokenType::Equal, TokenValue::Empty, 3, 10),
        tok(TokenType::Number, TokenValue::Int(1), 3, 12),
        tok(TokenType::Semicolon, TokenValue::Empty, 3, 13),
        tok(TokenType::Print, TokenValue::Empty, 3, 15),
        tok(TokenType::LeftParen, TokenValue::Empty, 3, 20),
        tok(TokenType::Identifier, TokenValue::Str("x".to_string()), 3, 21),
        tok(TokenType::RightParen, TokenValue::Empty, 3, 22),
        tok(TokenType::Semicolon, TokenValue::Empty, 3, 23),
        tok(TokenType::EOF, TokenValue::Empty, 3, 24),
    ];
    let mut ctx = ParseCtx::new();
    parse(&tokens, &mut ctx).unwrap();
    let roots = ctx.ast.root_stmts().clone();
    assert_eq!(roots.len(), 2);
    assert_eq!(ctx.span_table.get(&roots[0].0), Some(&(3, 4)));
    assert!(matches!(ctx.ast.get_stmt(roots[1]).unwrap(), MetaStmt::Print(_)));
}

#[test]
fn type_parameters_with_nested_bounds_are_read_whole() {
    // func f<T: Into<X>>(a) { }
    let ctx = parsed(vec![
        punct(TokenType::Func, 1),
        ident("f", 6),
        punct(TokenType::Less, 7),
        ident("T", 8),
        punct(TokenType::Colon, 9),
        ident("Into", 11),
        punct(TokenType::Less, 15),
        ident("X", 16),
        punct(TokenType::Greater, 17),
        punct(TokenType::Greater, 18),
        punct(TokenType::LeftParen, 19),
        ident("a", 20),
        punct(TokenType::RightParen, 21),
        punct(TokenType::LeftBrace, 23),
        punct(TokenType::RightBrace, 24),
    ]);
    let roots = ctx.ast.root_stmts().clone();
    match ctx.ast.get_stmt(roots[0]).unwrap() {
        MetaStmt::FnDecl { name, type_params, params, .. } => {
            assert_eq!(name, "f");
            assert_eq!(type_params, &vec!["T".to_string()]);
            assert_eq!(params.len(), 1);
        }
        other => panic!("expected FnDecl, got {:?}", other),
    }
}
