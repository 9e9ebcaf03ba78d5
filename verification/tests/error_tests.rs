use std::collections::HashMap;
use cronyx::error::{Diagnostic, CompilerError, enrich_diagnostic, friendly_parse_error, ice, source_line,
    token_len_at, type_error_snippet, locate_name_in_source};
use cronyx::eval_error::EvalError;
use cronyx::module_loader::LoadError;
use cronyx::node_id::{MetaNodeId, RuntimeNodeId};
use cronyx::staged_forest::MetaProcessError;
use cronyx::type_error::{TypeError, TypeErrorKind};
use cronyx::types::{int_type, string_type};

fn render(d: &Diagnostic, color: bool) -> String {
    let mut s = String::new();
    d.write_to(&mut s, color);
    s
}

#[test]
fn string_error_becomes_internal_not_undefined_variable() {
    let err: EvalError = EvalError::from("some internal error".to_string());
    assert!(
        matches!(err, EvalError::Internal(_)),
        "From<String> should produce Internal(_), not UndefinedVariable — got: {err:?}"
    );
}

#[test]
fn renders_title_file_snippet_and_help() {
    let d = Diagnostic::new("boom")
        .with_file("a.cx".to_string())
        .with_location(3, 5)
        .with_source("let x = y;".to_string(), 5, 1, "here")
        .with_help("fix it");
    assert_eq!(
        render(&d, false),
        "× boom\n  ┌─ a.cx:3:5\n  │\n3 │ let x = y;\n  │     ~ here\n  │\n  └─ help: fix it\n"
    );
}

#[test]
fn renders_colors_when_asked() {
    let d = Diagnostic::new("boom").with_help("fix it");
    assert_eq!(
        render(&d, true),
        "\x1b[1;31m×\x1b[0m \x1b[1mboom\x1b[0m\n  \x1b[36m└─ help:\x1b[0m fix it\n"
    );
}

#[test]
fn file_without_location_shows_path_only() {
    let d = Diagnostic::new("t").with_file("dir/m.cx".to_string());
    assert_eq!(render(&d, false), "× t\n  ┌─ dir/m.cx\n");
}

#[test]
fn underline_is_at_least_one_wide() {
    let d = Diagnostic::new("t").with_location(12, 1).with_source("ab".to_string(), 1, 0, "x");
    assert_eq!(d.underline_len, 1);
    assert_eq!(render(&d, false), "× t\n  │\n12 │ ab\n   │ ~ x\n   │\n");
}

#[test]
fn summary_counts_errors() {
    assert_eq!(CompilerError::summary(3).title, "3 errors found. Compilation failed.");
}

#[test]
fn ice_points_to_the_issue_tracker() {
    let d = ice("oops");
    assert_eq!(d.title, "internal compiler error: oops");
    assert_eq!(d.help.as_deref(), Some("please report this at https://github.com/brendancron/compiler/issues"));
}

#[test]
fn friendly_parse_error_picks_out_tokens() {
    assert_eq!(
        friendly_parse_error("UnexpectedToken { found: RightParen, expected: Identifier, line: 3, col: 5 }"),
        "unexpected token 'RightParen', expected 'Identifier'"
    );
    assert_eq!(
        friendly_parse_error("UnexpectedEOF { expected: Semicolon }"),
        "unexpected end of file, expected 'Semicolon'"
    );
    assert_eq!(friendly_parse_error("UnexpectedToken"), "unexpected token 'unknown token', expected 'unknown'");
    assert_eq!(friendly_parse_error("UnterminatedString"), "UnterminatedString");
}

#[test]
fn load_errors_name_the_file() {
    let io = CompilerError::Load(LoadError::Io { path: "x.cx".to_string(), error: "no such file".to_string() });
    let d = io.to_diagnostic();
    assert_eq!(d.title, "could not read file: no such file");
    assert_eq!(d.file.as_deref(), Some("x.cx"));

    let parse = CompilerError::Load(LoadError::Parse {
        path: "y.cx".to_string(),
        error: "UnexpectedToken { found: Comma, expected: Semicolon, line: 2, col: 7 }".to_string(),
        line: Some(2),
        col: Some(7),
    });
    let d = parse.to_diagnostic();
    assert_eq!(d.title, "parse error: unexpected token 'Comma', expected 'Semicolon'");
    assert_eq!((d.line, d.col), (Some(2), Some(7)));
    assert_eq!(d.help.as_deref(), Some("check for mismatched brackets, missing semicolons, or typos"));
}

#[test]
fn type_errors_explain_themselves() {
    let d = CompilerError::TypeCheck(TypeError::unbound_var("foo".to_string())).to_diagnostic();
    assert_eq!(d.title, "unbound variable 'foo'");
    assert_eq!(d.help.as_deref(), Some("check for a typo, or declare 'foo' before this line"));

    let d = CompilerError::TypeCheck(TypeError::type_mismatch(int_type(), string_type())).to_diagnostic();
    assert_eq!(d.title, "type mismatch");
    assert_eq!(d.help.as_deref(), Some("expected int, found string"));

    let d = CompilerError::TypeCheck(TypeError::invalid_return()).to_diagnostic();
    assert_eq!(d.title, "return statement outside of a function");

    let d = CompilerError::TypeCheck(TypeError::unsupported()).to_diagnostic();
    assert_eq!(d.title, "internal compiler error: unsupported type operation");

    let d = CompilerError::TypeCheck(TypeError::polymorphic_call("id".to_string())).to_diagnostic();
    assert_eq!(d.title, "polymorphic call to `id` with multiple distinct concrete argument types");
}

#[test]
fn meta_errors_explain_themselves() {
    let chain = vec!["A".to_string(), "B".to_string(), "A".to_string()];
    let d = CompilerError::Meta(MetaProcessError::CircularDependency(chain)).to_diagnostic();
    assert_eq!(d.title, "circular dependency detected: A → B → A");
    assert_eq!(d.help.as_deref(), Some("break the cycle by extracting shared code into a separate module"));

    let d = CompilerError::Meta(MetaProcessError::CircularDependency(vec!["M".to_string()])).to_diagnostic();
    assert_eq!(d.title, "circular dependency detected: M");

    let d = CompilerError::Meta(MetaProcessError::CircularDependency(vec![])).to_diagnostic();
    assert_eq!(d.title, "circular dependency detected between modules");

    let d = CompilerError::Meta(MetaProcessError::EmbedFailed { path: "f.txt".to_string(), error: "gone".to_string() })
        .to_diagnostic();
    assert_eq!(d.title, "could not embed 'f.txt': gone");

    let d = CompilerError::Meta(MetaProcessError::StmtNotFound(MetaNodeId(42))).to_diagnostic();
    assert_eq!(d.title, "internal compiler error: statement node not found (id=42)");

    let d = CompilerError::Meta(MetaProcessError::UnresolvedSymbol("f".to_string())).to_diagnostic();
    assert_eq!(d.title, "unresolved symbol 'f'");

    let d = CompilerError::Meta(MetaProcessError::UnknownType("T".to_string())).to_diagnostic();
    assert_eq!(d.title, "unknown type 'T'");

    let d = CompilerError::Meta(MetaProcessError::Unimplemented("x".to_string())).to_diagnostic();
    assert_eq!(d.title, "internal compiler error: unimplemented feature: x");
}

#[test]
fn eval_errors_explain_themselves() {
    let located = EvalError::WithLocation {
        node_id: RuntimeNodeId(7),
        inner: Box::new(EvalError::DivisionByZero),
    };
    assert_eq!(CompilerError::Eval(located).to_diagnostic().title, "division by zero");
    assert_eq!(
        CompilerError::Eval(EvalError::Internal("bad".to_string())).to_diagnostic().title,
        "internal compiler error: internal error: bad"
    );
    assert_eq!(CompilerError::Eval(EvalError::IoError("eof".to_string())).to_diagnostic().title, "I/O error: eof");
    assert_eq!(
        CompilerError::Eval(EvalError::MultiResumed).to_diagnostic().title,
        "internal compiler error: effect control-flow signal escaped the interpreter"
    );
    let d = CompilerError::Eval(EvalError::RuntimeError("tuple mismatch".to_string())).to_diagnostic();
    assert_eq!(d.title, "tuple mismatch");
    assert_eq!(d.help.as_deref(), Some("each element must be a tuple matching the destructuring pattern"));
    assert_eq!(
        CompilerError::Eval(EvalError::ExprNotFound(RuntimeNodeId(3))).to_diagnostic().title,
        "internal compiler error: expression node not found (id=3)"
    );
}

#[test]
fn other_compiler_errors() {
    assert_eq!(CompilerError::Codegen("llvm".to_string()).to_diagnostic().title, "codegen error: llvm");
    let d = CompilerError::EffectNotHandled { op: "ask".to_string() }.to_diagnostic();
    assert_eq!(d.title, "unhandled effect: 'ask' is called but no handler is active");
    assert_eq!(
        d.help.as_deref(),
        Some("wrap the call in `run { ... } handle <effect> { ctl ask(...) { ... } }`")
    );
}

#[test]
fn from_impls_pick_the_variant() {
    let e: CompilerError = TypeError::invalid_return().into();
    assert!(matches!(e, CompilerError::TypeCheck(_)));
    let e: CompilerError = MetaProcessError::UnknownType("T".to_string()).into();
    assert!(matches!(e, CompilerError::Meta(_)));
    let e: CompilerError = EvalError::DivisionByZero.into();
    assert!(matches!(e, CompilerError::Eval(_)));
    let e: CompilerError = LoadError::Io { path: "p".to_string(), error: "e".to_string() }.into();
    assert!(matches!(e, CompilerError::Load(_)));
}

#[test]
fn source_lines_follow_str_lines() {
    let src = "first\r\nsecond\n\nfourth";
    assert_eq!(source_line(src, 1), "first");
    assert_eq!(source_line(src, 0), "first");
    assert_eq!(source_line(src, 2), "second");
    assert_eq!(source_line(src, 3), "");
    assert_eq!(source_line(src, 4), "fourth");
    assert_eq!(source_line(src, 5), "");
}

#[test]
fn token_length_at_a_column() {
    assert_eq!(token_len_at("var name_1 = 2;", 5), 6);
    assert_eq!(token_len_at("x = \"hi there\";", 5), 10);
    assert_eq!(token_len_at("x = \"open", 5), 6);
    assert_eq!(token_len_at("a + b", 3), 1);
    assert_eq!(token_len_at("ab", 9), 1);
    assert_eq!(token_len_at("ünï x", 1), 3);
}

#[test]
fn snippets_for_type_errors() {
    let (label, len) = type_error_snippet(&TypeErrorKind::UnboundVar("foo".to_string()), 3, "x foo");
    assert_eq!((label.as_str(), len), ("not found in this scope", 3));
    let (label, len) = type_error_snippet(&TypeErrorKind::InvalidReturn, 1, "return 1;");
    assert_eq!((label.as_str(), len), ("not inside a function body", 6));
    let (label, len) = type_error_snippet(
        &TypeErrorKind::TypeMismatch { expected: int_type(), found: string_type() }, 9, "var a = \"s\";");
    assert_eq!((label.as_str(), len), ("expected int, found string", 3));
}

#[test]
fn locates_whole_word_names() {
    let d = locate_name_in_source(Diagnostic::new("t"), "foo", "var food = 1;\nprint(foo_x, foo);\n");
    assert_eq!((d.line, d.col), (Some(2), Some(14)));
    assert_eq!(d.source_line.as_deref(), Some("print(foo_x, foo);"));
    assert_eq!(d.underline_len, 3);
    assert_eq!(d.label.as_deref(), Some("not found in this scope"));

    let d = locate_name_in_source(Diagnostic::new("t"), "bar", "foo\n");
    assert_eq!(d.line, None);
}

#[test]
fn enrich_uses_the_span_of_a_type_error() {
    let mut spans: HashMap<usize, (usize, usize)> = HashMap::new();
    spans.insert(4, (2, 9));
    let err = CompilerError::TypeCheck(TypeError::type_mismatch(int_type(), string_type()).at(MetaNodeId(4)));
    let src = "var a = 1;\nvar b = \"str\";\n";
    let d = enrich_diagnostic(err.to_diagnostic(), &err, src, &spans);
    assert_eq!((d.line, d.col), (Some(2), Some(9)));
    assert_eq!(d.source_line.as_deref(), Some("var b = \"str\";"));
    assert_eq!(d.underline_col, Some(9));
    assert_eq!(d.underline_len, 5);
    assert_eq!(d.label.as_deref(), Some("expected int, found string"));

    let no_span = CompilerError::TypeCheck(TypeError::invalid_return().at(MetaNodeId(99)));
    let d = enrich_diagnostic(no_span.to_diagnostic(), &no_span, src, &spans);
    assert_eq!(d.line, None);
}

#[test]
fn enrich_runtime_errors() {
    let mut spans: HashMap<usize, (usize, usize)> = HashMap::new();
    spans.insert(5, (1, 9));
    let src = "var x = 10 / 0;\nfor ((a, b) in xs) {}\n";
    let located = CompilerError::Eval(EvalError::WithLocation {
        node_id: RuntimeNodeId(5),
        inner: Box::new(EvalError::DivisionByZero),
    });
    let d = enrich_diagnostic(located.to_diagnostic(), &located, src, &spans);
    assert_eq!((d.line, d.col, d.underline_len), (Some(1), Some(9), 2));
    assert_eq!(d.label.as_deref(), Some("here"));

    let destructure = CompilerError::Eval(EvalError::WithLocation {
        node_id: RuntimeNodeId(77),
        inner: Box::new(EvalError::RuntimeError("bad tuple".to_string())),
    });
    let d = enrich_diagnostic(destructure.to_diagnostic(), &destructure, src, &spans);
    assert_eq!((d.line, d.col, d.underline_len), (Some(2), Some(1), 3));

    let unbound = CompilerError::Eval(EvalError::TypeCheckFailed(TypeError::unbound_var("xs".to_string())));
    let d = enrich_diagnostic(unbound.to_diagnostic(), &unbound, src, &spans);
    assert_eq!((d.line, d.col, d.underline_len), (Some(2), Some(16), 2));
}

#[test]
fn a_located_name_counts_columns_and_length_in_bytes() {
    // `é` takes two bytes, so `größe` starts at byte 9 (column 10) and is 7 bytes long
    let d = locate_name_in_source(Diagnostic::new("t"), "größe", "var é = größe;\n");
    assert_eq!(d.line, Some(1));
    assert_eq!(d.col, Some(10));
    assert_eq!(d.underline_col, Some(10));
    assert_eq!(d.underline_len, 7);
}
