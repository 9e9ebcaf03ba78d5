use vstd::prelude::*;
use std::collections::HashMap;
use crate::id_provider::IdProvider;
use crate::meta_ast::{
    ConstructorPayload, EffectOp, EffectOpKind, EnumVariant, ForVar, ImplMethodDecl, ImportDecl,
    MatchArm, MetaAst, MetaExpr, MetaFieldDecl, MetaStmt, MetaTypeExpr, Param, Pattern,
    VariantBindings, VariantPayload, present, expr_expr_kids, expr_stmt_kids, stmt_expr_kids,
    stmt_stmt_kids, handle_ops, ops_present, type_expr_to_string, arm_ids, method_ids,
};
use crate::node_id::MetaNodeId;
use crate::token::{Token, TokenType, TokenValue, tokens_well_formed, token_type_name, token_type_text};
use crate::text::{usize_to_string, nat_text};

verus! {

broadcast use {vstd::std_specs::hash::group_hash_axioms, vstd::map_lib::lemma_submap_of_trans};

pub struct ParseCtx {
    pub ast: MetaAst,
    pub id_provider: IdProvider,
    /// Maps AST node ID to the (line, col) of the first token of that node.
    pub span_table: HashMap<usize, (usize, usize)>,
    /// When false, `name { }` is not read as a call with a trailing lambda
    /// (set while parsing match scrutinees).
    pub allow_trailing_brace: bool,
}

#[derive(Debug)]
pub enum ParseError {
    UnterminatedString,
    UnexpectedToken { found: TokenType, expected: TokenType, line: usize, col: usize },
    UnexpectedEOF { expected: TokenType },
}

/// How `{:?}` writes a parse error, e.g.
/// `UnexpectedToken { found: RightParen, expected: Identifier, line: 3, col: 5 }`.
pub open spec fn parse_error_text(e: ParseError) -> Seq<char> {
    match e {
        ParseError::UnterminatedString => "UnterminatedString"@,
        ParseError::UnexpectedToken { found, expected, line, col } => "UnexpectedToken { found: "@
            + token_type_text(found) + ", expected: "@ + token_type_text(expected) + ", line: "@
            + nat_text(line as nat) + ", col: "@ + nat_text(col as nat) + " }"@,
        ParseError::UnexpectedEOF { expected } => "UnexpectedEOF { expected: "@ + token_type_text(expected) + " }"@,
    }
}

impl ParseError {
    /// The error as `{:?}` writes it.
    pub fn debug_text(&self) -> (s: String)
        ensures
            s@ == parse_error_text(*self),
    {
        match self {
            ParseError::UnterminatedString => String::from_str("UnterminatedString"),
            ParseError::UnexpectedToken { found, expected, line, col } => {
                let mut s = String::from_str("UnexpectedToken { found: ");
                s.append(token_type_name(*found));
                s.append(", expected: ");
                s.append(token_type_name(*expected));
                s.append(", line: ");
                s.append(usize_to_string(*line).as_str());
                s.append(", col: ");
                s.append(usize_to_string(*col).as_str());
                s.append(" }");
                s
            },
            ParseError::UnexpectedEOF { expected } => {
                let mut s = String::from_str("UnexpectedEOF { expected: ");
                s.append(token_type_name(*expected));
                s.append(" }");
                s
            },
        }
    }
}

/// Each token that is read may give rise to at most this many new nodes.
pub open spec fn node_cost() -> int {
    8
}

/// Room kept in the ID space beyond `node_cost()` per remaining token.
pub open spec fn id_slack() -> int {
    16
}

/// The tree has no dangling or cyclic references and every ID in it is below
/// the provider's counter.
pub open spec fn ctx_inv(ctx: ParseCtx) -> bool {
    &&& ctx.ast.ids_below(ctx.id_provider.counter())
    &&& ctx.ast.closed()
}

/// The IDs still needed, in the worst case, to parse the tokens from `pos` on.
pub open spec fn budget(ctx: ParseCtx, len: int, pos: int) -> int {
    ctx.id_provider.counter() + node_cost() * (len - pos)
}

/// What every parsing step may assume.
pub open spec fn parse_pre(tokens: Seq<Token>, pos: usize, ctx: ParseCtx) -> bool {
    &&& tokens_well_formed(tokens)
    &&& pos <= tokens.len() < usize::MAX
    &&& ctx_inv(ctx)
    &&& budget(ctx, tokens.len() as int, pos as int) + id_slack() <= usize::MAX
}

/// A step that read the tokens `pos..p`, kept every existing node and the
/// top-level list, and made fewer than `node_cost()` nodes per token read,
/// give or take `slack`.
pub open spec fn advanced(tokens: Seq<Token>, pos: usize, old: ParseCtx, new: ParseCtx, p: usize, slack: int) -> bool {
    &&& pos <= p <= tokens.len()
    &&& ctx_inv(new)
    &&& new.ast.extends(&old.ast)
    &&& new.ast.roots() == old.ast.roots()
    &&& budget(new, tokens.len() as int, p as int) + 1 <= budget(old, tokens.len() as int, pos as int) + slack
    &&& spans_kept(old, new)
}

/// The locations of the nodes that existed before are kept: only new nodes
/// get one.
pub open spec fn spans_kept(old: ParseCtx, new: ParseCtx) -> bool {
    &&& old.id_provider.counter() <= new.id_provider.counter()
    &&& forall|k: usize| k < old.id_provider.counter() ==> #[trigger] new.span_table@.get(k) == old.span_table@.get(k)
}

/// A successful parse of one expression: at least one token read, and at
/// least two IDs to spare.
pub open spec fn expr_result(tokens: Seq<Token>, pos: usize, old: ParseCtx, new: ParseCtx,
    r: Result<(MetaNodeId, usize), ParseError>) -> bool {
    match r {
        Ok((id, p)) => pos < p && advanced(tokens, pos, old, new, p, -1)
            && new.ast.expr_map().contains_key(id.0),
        Err(e) => failed(tokens, new, e),
    }
}

/// A successful parse of one statement: at least one token read.
pub open spec fn stmt_result(tokens: Seq<Token>, pos: usize, old: ParseCtx, new: ParseCtx,
    r: Result<(MetaNodeId, usize), ParseError>) -> bool {
    match r {
        Ok((id, p)) => pos < p && advanced(tokens, pos, old, new, p, 0)
            && new.ast.stmt_map().contains_key(id.0) && old.id_provider.counter() <= id.0,
        Err(e) => failed(tokens, new, e),
    }
}

/// A successful parse of a block body, which may be empty: one node more.
pub open spec fn block_result(tokens: Seq<Token>, pos: usize, old: ParseCtx, new: ParseCtx,
    r: Result<(MetaNodeId, usize), ParseError>) -> bool {
    match r {
        Ok((id, p)) => advanced(tokens, pos, old, new, p, 2) && new.ast.stmt_map().contains_key(id.0)
            && old.id_provider.counter() <= id.0 && id.0 + 1 == new.id_provider.counter(),
        Err(e) => failed(tokens, new, e),
    }
}

pub open spec fn is_literal_kind(t: TokenType) -> bool {
    t == TokenType::Number || t == TokenType::String || t == TokenType::True || t == TokenType::False
}

/// The expression `id` is the literal the token `t` writes.
pub open spec fn literal_node(t: Token, ast: MetaAst, id: MetaNodeId) -> bool {
    let e = ast.expr_map()[id.0];
    match t.token_type {
        TokenType::Number => e == MetaExpr::Int(t.spec_int()),
        TokenType::String => e matches MetaExpr::String(s) && s@ == t.spec_str(),
        TokenType::True => e == MetaExpr::Bool(true),
        TokenType::False => e == MetaExpr::Bool(false),
        _ => false,
    }
}

/// At `pos` stands an atom: a number, string, `true` or `false` token, or
/// a name that `::`, `(` or `{` does not follow.
pub open spec fn atom_at(tokens: Seq<Token>, pos: int) -> bool {
    &&& 0 <= pos < tokens.len()
    &&& is_literal_kind(tokens[pos].token_type) || (tokens[pos].token_type == TokenType::Identifier
        && !(pos + 1 < tokens.len() && (tokens[pos + 1].token_type == TokenType::DoubleColon
            || tokens[pos + 1].token_type == TokenType::LeftParen || tokens[pos + 1].token_type == TokenType::LeftBrace)))
}

/// The expression `id` is what the atom at `pos` writes: its literal, or a
/// variable of its name.
pub open spec fn atom_node(tokens: Seq<Token>, pos: int, ast: MetaAst, id: MetaNodeId) -> bool {
    if tokens[pos].token_type == TokenType::Identifier {
        ast.expr_map()[id.0] matches MetaExpr::Variable(n) && n@ == tokens[pos].spec_str()
    } else {
        literal_node(tokens[pos], ast, id)
    }
}

/// `r` read the atom at `pos`, and nothing more.
pub open spec fn atom_read(tokens: Seq<Token>, pos: int, new: ParseCtx, r: Result<(MetaNodeId, usize), ParseError>) -> bool {
    r matches Ok((id, p)) && p == pos + 1 && atom_node(tokens, pos, new.ast, id)
}

/// `t` cannot continue an operand: no postfix `.` or `[`, no binary operator.
pub open spec fn ends_operand(t: TokenType) -> bool {
    &&& t != TokenType::Dot && t != TokenType::LeftBracket
    &&& t != TokenType::PipePipe && t != TokenType::AmpAmp
    &&& t != TokenType::EqualEqual && t != TokenType::BangEqual
    &&& t != TokenType::Less && t != TokenType::Greater && t != TokenType::LessEqual && t != TokenType::GreaterEqual
    &&& t != TokenType::Plus && t != TokenType::Minus
    &&& t != TokenType::Star && t != TokenType::Slash && t != TokenType::Percent
}

/// At `pos` stands an atom that a token ending the operand follows.
pub open spec fn lone_atom(tokens: Seq<Token>, pos: int) -> bool {
    &&& 0 <= pos && pos + 1 < tokens.len()
    &&& atom_at(tokens, pos)
    &&& ends_operand(tokens[pos + 1].token_type)
}

/// At `pos` stands `print(<literal>);`.
pub open spec fn print_literal_at(tokens: Seq<Token>, pos: int) -> bool {
    &&& 0 <= pos && pos + 4 < tokens.len()
    &&& tokens[pos].token_type == TokenType::Print
    &&& tokens[pos + 1].token_type == TokenType::LeftParen
    &&& atom_at(tokens, pos + 2)
    &&& tokens[pos + 3].token_type == TokenType::RightParen
    &&& tokens[pos + 4].token_type == TokenType::Semicolon
}

/// The `i`-th group of five tokens is `print(<literal>);` or
/// `var <name> = <literal>;`.
pub open spec fn simple_block(tokens: Seq<Token>, i: int) -> bool {
    print_literal_at(tokens, 5 * i) || var_literal_at(tokens, 5 * i)
}

/// The tokens are `n` statements `print(<literal>);` or
/// `var <name> = <literal>;`, then `EOF`.
pub open spec fn simple_program(tokens: Seq<Token>, n: nat) -> bool {
    &&& tokens.len() == 5 * n + 1
    &&& tokens[5 * n as int].token_type == TokenType::EOF
    &&& forall|i: int| 0 <= i < n ==> #[trigger] simple_block(tokens, i)
}

/// The statements `roots` are those of the first `k` groups of five tokens,
/// in order.
pub open spec fn simple_parsed(tokens: Seq<Token>, ast: MetaAst, roots: Seq<MetaNodeId>, k: nat) -> bool {
    &&& roots.len() == k
    &&& forall|i: int| 0 <= i < k ==> ast.stmt_map().contains_key(roots[i].0)
        && #[trigger] simple_node(tokens, 5 * i, ast, roots[i])
}

/// At `pos` stands `var <name> = <literal>;`.
pub open spec fn var_literal_at(tokens: Seq<Token>, pos: int) -> bool {
    &&& 0 <= pos && pos + 4 < tokens.len()
    &&& tokens[pos].token_type == TokenType::Var
    &&& tokens[pos + 1].token_type == TokenType::Identifier
    &&& tokens[pos + 2].token_type == TokenType::Equal
    &&& atom_at(tokens, pos + 3)
    &&& tokens[pos + 4].token_type == TokenType::Semicolon
}

/// `r` read the five tokens of `var <name> = <literal>;` at `pos` into a
/// declaration of that name, without a type annotation, with that literal.
pub open spec fn declared_literal(tokens: Seq<Token>, pos: int, new: ParseCtx, r: Result<(MetaNodeId, usize), ParseError>) -> bool {
    r matches Ok((id, p)) && p == pos + 5
        && (new.ast.stmt_map()[id.0] matches MetaStmt::VarDecl { name, type_annotation, expr }
            && name@ == tokens[pos + 1].spec_str() && type_annotation is None
            && new.ast.expr_map().contains_key(expr.0) && atom_node(tokens, pos + 3, new.ast, expr))
}

/// `id` is the statement the five tokens at `pos` write: a `print` or a
/// `var` of a literal.
pub open spec fn simple_node(tokens: Seq<Token>, pos: int, ast: MetaAst, id: MetaNodeId) -> bool {
    if tokens[pos].token_type == TokenType::Print {
        ast.stmt_map()[id.0] matches MetaStmt::Print(e) && ast.expr_map().contains_key(e.0)
            && atom_node(tokens, pos + 2, ast, e)
    } else {
        ast.stmt_map()[id.0] matches MetaStmt::VarDecl { name, type_annotation, expr }
            && name@ == tokens[pos + 1].spec_str() && type_annotation is None
            && ast.expr_map().contains_key(expr.0) && atom_node(tokens, pos + 3, ast, expr)
    }
}

/// `r` read the five tokens of `print(<literal>);` at `pos` into a `Print`
/// of that literal.
pub open spec fn printed_literal(tokens: Seq<Token>, pos: int, new: ParseCtx, r: Result<(MetaNodeId, usize), ParseError>) -> bool {
    r matches Ok((id, p)) && p == pos + 5
        && (new.ast.stmt_map()[id.0] matches MetaStmt::Print(e) && new.ast.expr_map().contains_key(e.0)
            && atom_node(tokens, pos + 2, new.ast, e))
}

/// An error names a token of the input (kind, line and column) or the end of input.
pub open spec fn located(tokens: Seq<Token>, e: ParseError) -> bool {
    match e {
        ParseError::UnexpectedToken { found, line, col, .. } => exists|i: int|
            0 <= i < tokens.len() && #[trigger] tokens[i].token_type == found
                && tokens[i].line_number == line && tokens[i].col == col,
        ParseError::UnexpectedEOF { .. } => true,
        ParseError::UnterminatedString => false,
    }
}

pub open spec fn failed(tokens: Seq<Token>, new: ParseCtx, e: ParseError) -> bool {
    ctx_inv(new) && located(tokens, e)
}

impl ParseCtx {
    pub fn new() -> (ctx: Self)
        ensures
            ctx.ast.expr_map() == Map::<usize, MetaExpr>::empty(),
            ctx.ast.stmt_map() == Map::<usize, MetaStmt>::empty(),
            ctx.ast.roots() == Seq::<MetaNodeId>::empty(),
            ctx.id_provider.counter() == 0,
            ctx.span_table@ == Map::<usize, (usize, usize)>::empty(),
            ctx.allow_trailing_brace,
            ctx_inv(ctx),
    {
        ParseCtx {
            ast: MetaAst::new(),
            id_provider: IdProvider::new(),
            span_table: HashMap::new(),
            allow_trailing_brace: true,
        }
    }

    /// Records the source location of a node, when one is known.
    pub fn record_span(&mut self, node_id: MetaNodeId, loc: Option<(usize, usize)>)
        ensures
            final(self).span_table@ == match loc {
                Some(l) => old(self).span_table@.insert(node_id.0, l),
                None => old(self).span_table@,
            },
            final(self).ast == old(self).ast,
            final(self).id_provider == old(self).id_provider,
            final(self).allow_trailing_brace == old(self).allow_trailing_brace,
            forall|k: usize| k != node_id.0 ==> #[trigger] final(self).span_table@.get(k) == old(self).span_table@.get(k),
    {
        if let Some(l) = loc {
            self.span_table.insert(node_id.0, l);
        }
        proof {
            assert forall|k: usize| k != node_id.0 implies #[trigger] self.span_table@.get(k) == old(self).span_table@.get(k) by {
                if self.span_table@.contains_key(k) { assert(old(self).span_table@.contains_key(k)); }
                if old(self).span_table@.contains_key(k) { assert(self.span_table@.contains_key(k)); }
            }
        }
    }

    /// Gives `dst` the location of `src`, when `src` has one.
    pub fn copy_span(&mut self, src: MetaNodeId, dst: MetaNodeId)
        ensures
            final(self).span_table@ == if old(self).span_table@.contains_key(src.0) {
                old(self).span_table@.insert(dst.0, old(self).span_table@[src.0])
            } else {
                old(self).span_table@
            },
            final(self).ast == old(self).ast,
            final(self).id_provider == old(self).id_provider,
            final(self).allow_trailing_brace == old(self).allow_trailing_brace,
            forall|k: usize| k != dst.0 ==> #[trigger] final(self).span_table@.get(k) == old(self).span_table@.get(k),
    {
        let found = match self.span_table.get(&src.0) {
            Some(l) => Some(*l),
            None => None,
        };
        if let Some(loc) = found {
            self.span_table.insert(dst.0, loc);
        }
        proof {
            assert forall|k: usize| k != dst.0 implies #[trigger] self.span_table@.get(k) == old(self).span_table@.get(k) by {
                if self.span_table@.contains_key(k) { assert(old(self).span_table@.contains_key(k)); }
                if old(self).span_table@.contains_key(k) { assert(self.span_table@.contains_key(k)); }
            }
        }
    }
}

// ── Node creation ────────────────────────────────────────────────────────────

/// Adds an expression node whose references all name existing nodes.
fn new_expr(ctx: &mut ParseCtx, e: MetaExpr) -> (id: MetaNodeId)
    requires
        ctx_inv(*old(ctx)),
        old(ctx).id_provider.counter() < usize::MAX,
        present(expr_expr_kids(e), old(ctx).ast.expr_map()),
        present(expr_stmt_kids(e), old(ctx).ast.stmt_map()),
        ops_present(handle_ops(e), old(ctx).ast.stmt_map()),
    ensures
        ctx_inv(*final(ctx)),
        final(ctx).ast.extends(&old(ctx).ast),
        final(ctx).ast.roots() == old(ctx).ast.roots(),
        id.0 == old(ctx).id_provider.counter(),
        final(ctx).id_provider.counter() == old(ctx).id_provider.counter() + 1,
        final(ctx).ast.expr_map() == old(ctx).ast.expr_map().insert(id.0, e),
        final(ctx).ast.stmt_map() == old(ctx).ast.stmt_map(),
        final(ctx).span_table == old(ctx).span_table,
        final(ctx).allow_trailing_brace == old(ctx).allow_trailing_brace,
{
    let ghost old_ast = ctx.ast;
    let ghost n = ctx.id_provider.counter();
    let id = ctx.ast.insert_expr(&mut ctx.id_provider, e);
    proof {
        let new_ast = ctx.ast;
        assert forall|k: usize| #[trigger] new_ast.expr_map().contains_key(k)
            implies new_ast.expr_closed(k, new_ast.expr_map()[k]) by {
            if k != id.0 {
                assert(old_ast.expr_closed(k, old_ast.expr_map()[k]));
            }
        }
        assert forall|k: usize| #[trigger] new_ast.stmt_map().contains_key(k)
            implies new_ast.stmt_closed(k, new_ast.stmt_map()[k]) by {
            assert(old_ast.stmt_closed(k, old_ast.stmt_map()[k]));
        }
    }
    id
}

/// Adds a statement node whose references all name existing nodes.
fn new_stmt(ctx: &mut ParseCtx, s: MetaStmt) -> (id: MetaNodeId)
    requires
        ctx_inv(*old(ctx)),
        old(ctx).id_provider.counter() < usize::MAX,
        present(stmt_expr_kids(s), old(ctx).ast.expr_map()),
        present(stmt_stmt_kids(s), old(ctx).ast.stmt_map()),
    ensures
        ctx_inv(*final(ctx)),
        final(ctx).ast.extends(&old(ctx).ast),
        final(ctx).ast.roots() == old(ctx).ast.roots(),
        id.0 == old(ctx).id_provider.counter(),
        final(ctx).id_provider.counter() == old(ctx).id_provider.counter() + 1,
        final(ctx).ast.stmt_map() == old(ctx).ast.stmt_map().insert(id.0, s),
        final(ctx).ast.expr_map() == old(ctx).ast.expr_map(),
        final(ctx).span_table == old(ctx).span_table,
        final(ctx).allow_trailing_brace == old(ctx).allow_trailing_brace,
{
    let ghost old_ast = ctx.ast;
    let id = ctx.ast.insert_stmt(&mut ctx.id_provider, s);
    proof {
        let new_ast = ctx.ast;
        assert forall|k: usize| #[trigger] new_ast.expr_map().contains_key(k)
            implies new_ast.expr_closed(k, new_ast.expr_map()[k]) by {
            assert(old_ast.expr_closed(k, old_ast.expr_map()[k]));
        }
        assert forall|k: usize| #[trigger] new_ast.stmt_map().contains_key(k)
            implies new_ast.stmt_closed(k, new_ast.stmt_map()[k]) by {
            if k != id.0 {
                assert(old_ast.stmt_closed(k, old_ast.stmt_map()[k]));
            }
        }
    }
    id
}


// ── Token helpers ────────────────────────────────────────────────────────────

/// The kind of the token at `pos`, if there is one.
pub open spec fn kind_at(tokens: Seq<Token>, pos: int) -> Option<TokenType> {
    if 0 <= pos < tokens.len() {
        Some(tokens[pos].token_type)
    } else {
        None
    }
}

fn tok_loc(tokens: &[Token], pos: usize) -> (r: Option<(usize, usize)>)
    ensures
        r == if pos < tokens@.len() {
            Some((tokens@[pos as int].line_number, tokens@[pos as int].col))
        } else {
            None::<(usize, usize)>
        },
{
    if pos < tokens.len() {
        Some((tokens[pos].line_number, tokens[pos].col))
    } else {
        None
    }
}

fn peek(tokens: &[Token], pos: usize) -> (r: Option<TokenType>)
    ensures
        r == kind_at(tokens@, pos as int),
{
    if pos < tokens.len() {
        Some(tokens[pos].token_type)
    } else {
        None
    }
}

fn check(tokens: &[Token], pos: usize, expected: TokenType) -> (b: bool)
    ensures
        b == (kind_at(tokens@, pos as int) == Some(expected)),
{
    match peek(tokens, pos) {
        None => false,
        Some(token_type) => token_type == expected,
    }
}

/// `check` at `pos + k`, where that position may lie past the end.
fn check_ahead(tokens: &[Token], pos: usize, k: usize, expected: TokenType) -> (b: bool)
    ensures
        b == (kind_at(tokens@, pos + k) == Some(expected)),
{
    if pos < tokens.len() && k < tokens.len() - pos {
        tokens[pos + k].token_type == expected
    } else {
        false
    }
}

/// The error for finding the token at `pos` where `expected` should be.
fn unexpected(tokens: &[Token], pos: usize, expected: TokenType) -> (e: ParseError)
    requires
        pos < tokens@.len(),
    ensures
        e == (ParseError::UnexpectedToken {
            found: tokens@[pos as int].token_type,
            expected,
            line: tokens@[pos as int].line_number,
            col: tokens@[pos as int].col,
        }),
        located(tokens@, e),
{
    let t = &tokens[pos];
    assert(tokens@[pos as int].token_type == t.token_type);
    ParseError::UnexpectedToken { found: t.token_type, expected, line: t.line_number, col: t.col }
}

/// The error for finding `expected` missing at `pos`, at a token or at the end.
fn missing(tokens: &[Token], pos: usize, expected: TokenType) -> (e: ParseError)
    ensures
        located(tokens@, e),
        pos >= tokens@.len() ==> e == (ParseError::UnexpectedEOF { expected }),
        pos < tokens@.len() ==> e == (ParseError::UnexpectedToken {
            found: tokens@[pos as int].token_type,
            expected,
            line: tokens@[pos as int].line_number,
            col: tokens@[pos as int].col,
        }),
{
    if pos < tokens.len() {
        unexpected(tokens, pos, expected)
    } else {
        ParseError::UnexpectedEOF { expected }
    }
}

/// Reads the token at `pos`, which must be of kind `expected`.
fn consume<'a>(tokens: &'a [Token], pos: usize, expected: TokenType) -> (r: Result<(&'a Token, usize), ParseError>)
    ensures
        match r {
            Ok((t, p)) => pos < tokens@.len() && p == pos + 1 && *t == tokens@[pos as int]
                && t.token_type == expected,
            Err(e) => located(tokens@, e) && kind_at(tokens@, pos as int) != Some(expected),
        },
{
    if pos < tokens.len() && tokens[pos].token_type == expected {
        Ok((&tokens[pos], pos + 1))
    } else {
        Err(missing(tokens, pos, expected))
    }
}

/// Reads the token at `pos`, whatever its kind.
fn consume_next<'a>(tokens: &'a [Token], pos: usize) -> (r: Result<(&'a Token, usize), ParseError>)
    ensures
        match r {
            Ok((t, p)) => pos < tokens@.len() && p == pos + 1 && *t == tokens@[pos as int],
            Err(e) => pos >= tokens@.len() && e == (ParseError::UnexpectedEOF { expected: TokenType::EOF }),
        },
{
    if pos < tokens.len() {
        Ok((&tokens[pos], pos + 1))
    } else {
        Err(ParseError::UnexpectedEOF { expected: TokenType::EOF })
    }
}

/// Reads an identifier and returns its text.
fn consume_ident(tokens: &[Token], pos: usize) -> (r: Result<(String, usize), ParseError>)
    requires
        tokens_well_formed(tokens@),
    ensures
        match r {
            Ok((s, p)) => pos < tokens@.len() && p == pos + 1
                && tokens@[pos as int].token_type == TokenType::Identifier
                && s@ == tokens@[pos as int].spec_str(),
            Err(e) => located(tokens@, e) && kind_at(tokens@, pos as int) != Some(TokenType::Identifier),
        },
{
    let (t, p) = consume(tokens, pos, TokenType::Identifier)?;
    assert(tokens@[pos as int].well_formed());
    Ok((t.expect_str(), p))
}

/// Reads a string literal and returns its text.
fn consume_string(tokens: &[Token], pos: usize) -> (r: Result<(String, usize), ParseError>)
    requires
        tokens_well_formed(tokens@),
    ensures
        match r {
            Ok((s, p)) => pos < tokens@.len() && p == pos + 1
                && tokens@[pos as int].token_type == TokenType::String
                && s@ == tokens@[pos as int].spec_str(),
            Err(e) => located(tokens@, e),
        },
{
    let (t, p) = consume(tokens, pos, TokenType::String)?;
    assert(tokens@[pos as int].well_formed());
    Ok((t.expect_str(), p))
}

/// Reads a field or method name after a dot. Besides identifiers, the
/// keyword `run` is accepted, so `obj.run()` parses.
fn consume_field_name(tokens: &[Token], pos: usize) -> (r: Result<(String, usize), ParseError>)
    requires
        tokens_well_formed(tokens@),
    ensures
        match r {
            Ok((s, p)) => pos < tokens@.len() && p == pos + 1 && (
                (tokens@[pos as int].token_type == TokenType::Identifier && s@ == tokens@[pos as int].spec_str())
                || (tokens@[pos as int].token_type == TokenType::Run && s@ == seq!['r', 'u', 'n'])),
            Err(e) => located(tokens@, e)
                && kind_at(tokens@, pos as int) != Some(TokenType::Identifier)
                && kind_at(tokens@, pos as int) != Some(TokenType::Run),
        },
{
    if pos < tokens.len() {
        let t = &tokens[pos];
        if t.token_type == TokenType::Identifier {
            assert(tokens@[pos as int].well_formed());
            Ok((t.expect_str(), pos + 1))
        } else if t.token_type == TokenType::Run {
            let s = String::from_str("run");
            proof { reveal_strlit("run"); }
            Ok((s, pos + 1))
        } else {
            Err(unexpected(tokens, pos, TokenType::Identifier))
        }
    } else {
        Err(ParseError::UnexpectedEOF { expected: TokenType::Identifier })
    }
}


// ── Type expressions ─────────────────────────────────────────────────────────

/// Parses a type expression at `pos` (no leading `:`): a name, an application
/// `Name<T, ...>`, a tuple `(A, B)` or a slice `[T]`. Returns the position
/// reached, on failure too.
fn parse_type_expr(tokens: &[Token], pos: usize) -> (r: (Result<MetaTypeExpr, ParseError>, usize))
    requires
        tokens_well_formed(tokens@),
        pos <= tokens@.len() < usize::MAX,
    ensures
        pos <= r.1 <= tokens@.len(),
        r.0 is Ok ==> pos < r.1,
        r.0 matches Err(e) ==> located(tokens@, e),
    decreases tokens@.len() - pos,
{
    // Tuple: (A, B, ...)
    if check(tokens, pos, TokenType::LeftParen) {
        let mut p = pos + 1;
        let mut elems: Vec<MetaTypeExpr> = Vec::new();
        while p < tokens.len() && !check(tokens, p, TokenType::RightParen)
            invariant
                tokens_well_formed(tokens@),
                pos < p <= tokens@.len() < usize::MAX,
            decreases tokens@.len() - p,
        {
            let (r, q) = parse_type_expr(tokens, p);
            match r {
                Ok(t) => elems.push(t),
                Err(e) => return (Err(e), q),
            }
            p = q;
            if check(tokens, p, TokenType::Comma) {
                p = p + 1;
            }
        }
        if check(tokens, p, TokenType::RightParen) {
            p = p + 1;
        }
        return (Ok(MetaTypeExpr::Tuple(elems)), p);
    }
    // Slice: [T]
    if check(tokens, pos, TokenType::LeftBracket) {
        let (r, q) = parse_type_expr(tokens, pos + 1);
        let inner = match r {
            Ok(t) => t,
            Err(e) => return (Err(e), q),
        };
        let mut p = q;
        if check(tokens, p, TokenType::RightBracket) {
            p = p + 1;
        }
        return (Ok(MetaTypeExpr::Slice(Box::new(inner))), p);
    }
    // Named or App
    let (name, q) = match consume_ident(tokens, pos) {
        Ok(x) => x,
        Err(e) => return (Err(e), pos),
    };
    let mut p = q;
    if check(tokens, p, TokenType::Less) {
        p = p + 1;
        let mut args: Vec<MetaTypeExpr> = Vec::new();
        while p < tokens.len() && !check(tokens, p, TokenType::Greater)
            invariant
                tokens_well_formed(tokens@),
                pos < p <= tokens@.len() < usize::MAX,
            decreases tokens@.len() - p,
        {
            let (r, q2) = parse_type_expr(tokens, p);
            match r {
                Ok(t) => args.push(t),
                Err(e) => return (Err(e), q2),
            }
            p = q2;
            if check(tokens, p, TokenType::Comma) {
                p = p + 1;
            }
        }
        if check(tokens, p, TokenType::Greater) {
            p = p + 1;
        }
        return (Ok(MetaTypeExpr::App(name, args)), p);
    }
    (Ok(MetaTypeExpr::Named(name)), p)
}

/// The type written `fn(...)` in an annotation, which is not kept in detail.
fn fn_type_name() -> (t: MetaTypeExpr)
    ensures
        t matches MetaTypeExpr::Named(n) && n@ == seq!['f', 'n'],
{
    proof { reveal_strlit("fn"); }
    MetaTypeExpr::Named(String::from_str("fn"))
}

/// Parses an optional `: Type` annotation. A function type `fn(T, ...): R`
/// is skipped and recorded as the name `fn`; a type that fails to parse
/// gives `None`, with the tokens read up to the failure consumed.
fn parse_type_annot(tokens: &[Token], pos: usize) -> (r: (Option<MetaTypeExpr>, usize))
    requires
        tokens_well_formed(tokens@),
        pos <= tokens@.len() < usize::MAX,
    ensures
        pos <= r.1 <= tokens@.len(),
        kind_at(tokens@, pos as int) != Some(TokenType::Colon) ==> r.0 is None && r.1 == pos,
        kind_at(tokens@, pos as int) == Some(TokenType::Colon) ==> pos < r.1,
{
    if !check(tokens, pos, TokenType::Colon) {
        return (None, pos);
    }
    let mut p = pos + 1;
    if check(tokens, p, TokenType::Func) {
        p = p + 1;
        if check(tokens, p, TokenType::LeftParen) {
            let mut depth: usize = 1;
            p = p + 1;
            while p < tokens.len() && depth > 0
                invariant
                    pos < p <= tokens@.len() < usize::MAX,
                    depth <= p,
                decreases tokens@.len() - p,
            {
                if tokens[p].token_type == TokenType::LeftParen {
                    depth = depth + 1;
                } else if tokens[p].token_type == TokenType::RightParen {
                    depth = depth - 1;
                }
                p = p + 1;
            }
        }
        if check(tokens, p, TokenType::Colon) {
            p = p + 1;
            if p < tokens.len() {
                p = p + 1;
            }
        }
        return (Some(fn_type_name()), p);
    }
    let (r, q) = parse_type_expr(tokens, p);
    match r {
        Ok(t) => (Some(t), q),
        Err(_) => (None, q),
    }
}

/// Parses an optional return type, written `: Type` or `-> Type`. A type
/// that fails to parse gives `None`, with the tokens read consumed.
fn parse_return_type(tokens: &[Token], pos: usize) -> (r: (Option<MetaTypeExpr>, usize))
    requires
        tokens_well_formed(tokens@),
        pos <= tokens@.len() < usize::MAX,
    ensures
        pos <= r.1 <= tokens@.len(),
        kind_at(tokens@, pos as int) != Some(TokenType::Colon)
            && kind_at(tokens@, pos as int) != Some(TokenType::Arrow) ==> r.0 is None && r.1 == pos,
{
    if check(tokens, pos, TokenType::Colon) || check(tokens, pos, TokenType::Arrow) {
        let (r, q) = parse_type_expr(tokens, pos + 1);
        return match r {
            Ok(t) => (Some(t), q),
            Err(_) => (None, q),
        };
    }
    (None, pos)
}

/// Where a bound read from `p` on ends: at the first `,` or `>` that no
/// `<` it opened encloses, or at the end of input. `inner` counts the `<`
/// opened so far.
pub open spec fn bound_end(tokens: Seq<Token>, p: int, inner: nat) -> int
    decreases tokens.len() - p,
{
    if p < 0 || p >= tokens.len() {
        p
    } else if tokens[p].token_type == TokenType::Less {
        bound_end(tokens, p + 1, inner + 1)
    } else if tokens[p].token_type == TokenType::Greater {
        if inner == 0 { p } else { bound_end(tokens, p + 1, (inner - 1) as nat) }
    } else if tokens[p].token_type == TokenType::Comma && inner == 0 {
        p
    } else {
        bound_end(tokens, p + 1, inner)
    }
}

/// A bound ends at or after where it starts, and within the input.
pub proof fn lemma_bound_end(tokens: Seq<Token>, p: int, inner: nat)
    requires
        0 <= p,
    ensures
        p <= bound_end(tokens, p, inner) <= if p <= tokens.len() { tokens.len() as int } else { p },
    decreases tokens.len() - p,
{
    if p < tokens.len() {
        let t = tokens[p].token_type;
        if t == TokenType::Less {
            lemma_bound_end(tokens, p + 1, inner + 1);
        } else if t == TokenType::Greater {
            if inner > 0 { lemma_bound_end(tokens, p + 1, (inner - 1) as nat); }
        } else if !(t == TokenType::Comma && inner == 0) {
            lemma_bound_end(tokens, p + 1, inner);
        }
    }
}

/// The parameter names of a type-parameter list read from `p` on, `depth`
/// levels of `<` deep, and where the list ends (after its closing `>`).
/// At depth one a name is a parameter and `:` starts a bound, which is
/// dropped; everything nested deeper is skipped.
pub open spec fn type_param_scan(tokens: Seq<Token>, p: int, depth: nat) -> (Seq<Seq<char>>, int)
    decreases tokens.len() - p, depth,
{
    if p < 0 || p >= tokens.len() || depth == 0 {
        (Seq::empty(), p)
    } else {
        let t = tokens[p].token_type;
        if t == TokenType::Less {
            type_param_scan(tokens, p + 1, depth + 1)
        } else if t == TokenType::Greater {
            type_param_scan(tokens, p + 1, (depth - 1) as nat)
        } else if t == TokenType::Colon && depth == 1 {
            proof { lemma_bound_end(tokens, p + 1, 0); }
            type_param_scan(tokens, bound_end(tokens, p + 1, 0), depth)
        } else if t == TokenType::Identifier && depth == 1 {
            let rest = type_param_scan(tokens, p + 1, depth);
            (seq![tokens[p].spec_str()] + rest.0, rest.1)
        } else {
            type_param_scan(tokens, p + 1, depth)
        }
    }
}

/// The texts of `v`.
pub open spec fn name_views(v: Seq<String>) -> Seq<Seq<char>> {
    v.map_values(|s: String| s@)
}

/// Parses an optional `<T, U: Bound + Bound2, ...>` list and returns the
/// parameter names (bounds are read and dropped; nested `<...>`, in a bound
/// too, is skipped), having read the whole list up to its closing `>`.
/// Reads nothing when there is no `<`.
fn parse_type_params(tokens: &[Token], pos: usize) -> (r: (Vec<String>, usize))
    requires
        tokens_well_formed(tokens@),
        pos <= tokens@.len() < usize::MAX,
    ensures
        pos <= r.1 <= tokens@.len(),
        kind_at(tokens@, pos as int) != Some(TokenType::Less) ==> r.0@.len() == 0 && r.1 == pos,
        kind_at(tokens@, pos as int) == Some(TokenType::Less) ==> (name_views(r.0@), r.1 as int)
            == type_param_scan(tokens@, pos + 1, 1),
{
    let mut names: Vec<String> = Vec::new();
    if !check(tokens, pos, TokenType::Less) {
        return (names, pos);
    }
    let mut p = pos + 1;
    let mut depth: usize = 1;
    proof { assert(name_views(names@) =~= Seq::<Seq<char>>::empty()); }
    while p < tokens.len() && depth > 0
        invariant
            tokens_well_formed(tokens@),
            pos < p <= tokens@.len() < usize::MAX,
            depth <= p,
            (name_views(names@) + type_param_scan(tokens@, p as int, depth as nat).0, type_param_scan(tokens@, p as int, depth as nat).1)
                == type_param_scan(tokens@, pos + 1, 1),
        decreases tokens@.len() - p,
    {
        let ghost before = name_views(names@);
        let ghost p_in = p as int;
        let ghost d_in = depth as nat;
        let tt = tokens[p].token_type;
        if tt == TokenType::Less {
            depth = depth + 1;
            p = p + 1;
            assert(type_param_scan(tokens@, p_in, d_in) == type_param_scan(tokens@, p as int, depth as nat));
        } else if tt == TokenType::Greater {
            depth = depth - 1;
            p = p + 1;
            assert(type_param_scan(tokens@, p_in, d_in) == type_param_scan(tokens@, p as int, depth as nat));
        } else if tt == TokenType::Colon && depth == 1 {
            p = p + 1;
            let ghost p0 = p;
            let mut inner: usize = 0;
            while p < tokens.len()
                invariant
                    tokens_well_formed(tokens@),
                    pos < p0 <= p <= tokens@.len() < usize::MAX,
                    inner <= p - p0,
                    bound_end(tokens@, p0 as int, 0) == bound_end(tokens@, p as int, inner as nat),
                ensures
                    pos < p0 <= p <= tokens@.len(),
                    bound_end(tokens@, p0 as int, 0) == p,
                decreases tokens@.len() - p,
            {
                let t = tokens[p].token_type;
                if t == TokenType::Less {
                    inner = inner + 1;
                } else if t == TokenType::Greater {
                    if inner == 0 {
                        break;
                    }
                    inner = inner - 1;
                } else if t == TokenType::Comma && inner == 0 {
                    break;
                }
                p = p + 1;
            }
            proof {
                lemma_bound_end(tokens@, p0 as int, 0);
                assert(type_param_scan(tokens@, p_in, d_in) == type_param_scan(tokens@, p as int, depth as nat));
            }
        } else if tt == TokenType::Identifier && depth == 1 {
            assert(tokens@[p as int].well_formed());
            let n = tokens[p].expect_str();
            names.push(n);
            proof {
                assert(name_views(names@) =~= before.push(n@));
                let rest = type_param_scan(tokens@, p + 1, 1);
                assert(type_param_scan(tokens@, p as int, 1).0 == seq![tokens@[p as int].spec_str()] + rest.0);
                assert(before.push(n@) + rest.0 =~= before + (seq![tokens@[p as int].spec_str()] + rest.0));
            }
            p = p + 1;
        } else {
            p = p + 1;
            assert(type_param_scan(tokens@, p_in, d_in) == type_param_scan(tokens@, p as int, depth as nat));
        }
    }
    proof { assert(name_views(names@) + Seq::<Seq<char>>::empty() =~= name_views(names@)); }
    (names, p)
}

/// From `brace_pos` (at `{`), looks for explicit lambda parameters written
/// `{ a, b -> ...}` or `{ -> ...}` and returns their names; `None` when there
/// is no such list (the lambda then takes the implicit `it`).
fn peek_trailing_lambda_params(tokens: &[Token], brace_pos: usize) -> (r: Option<Vec<String>>)
    requires
        tokens_well_formed(tokens@),
        brace_pos < tokens@.len() < usize::MAX,
    ensures
        kind_at(tokens@, brace_pos + 1) == Some(TokenType::Arrow) ==> (r matches Some(ps) && ps@.len() == 0),
        kind_at(tokens@, brace_pos + 1) != Some(TokenType::Arrow)
            && kind_at(tokens@, brace_pos + 1) != Some(TokenType::Identifier) ==> r is None,
{
    let mut i = brace_pos + 1;
    let mut params: Vec<String> = Vec::new();
    match peek(tokens, i) {
        Some(TokenType::Arrow) => return Some(params),
        Some(TokenType::Identifier) => {
            assert(tokens@[i as int].well_formed());
            params.push(tokens[i].expect_str());
            i = i + 1;
        },
        _ => return None,
    }
    loop
        invariant
            tokens_well_formed(tokens@),
            brace_pos < i <= tokens@.len() < usize::MAX,
            kind_at(tokens@, brace_pos + 1) == Some(TokenType::Identifier),
        decreases tokens@.len() - i,
    {
        match peek(tokens, i) {
            Some(TokenType::Arrow) => return Some(params),
            Some(TokenType::Comma) => {
                i = i + 1;
                if check(tokens, i, TokenType::Identifier) {
                    assert(tokens@[i as int].well_formed());
                    params.push(tokens[i].expect_str());
                    i = i + 1;
                } else {
                    return None;
                }
            },
            _ => return None,
        }
    }
}


// ── Separated lists ─────────────────────────────────────────────────────────

/// Parses `name[: Type], ...` parameter lists up to `terminator`.
fn parse_params(tokens: &[Token], pos: usize, separator: TokenType, terminator: TokenType)
    -> (r: Result<(Vec<Param>, usize), ParseError>)
    requires
        tokens_well_formed(tokens@),
        pos <= tokens@.len() < usize::MAX,
    ensures
        match r {
            Ok((items, p)) => pos <= p <= tokens@.len(),
            Err(e) => located(tokens@, e),
        },
{
    let mut items: Vec<Param> = Vec::new();
    if check(tokens, pos, terminator) {
        return Ok((items, pos));
    }
    let mut p = pos;
    loop
        invariant
            tokens_well_formed(tokens@),
            pos <= p <= tokens@.len() < usize::MAX,
        decreases tokens@.len() - p,
    {
        let before = p;
        let (name, q) = consume_ident(tokens, p)?;
        let (ty, q2) = parse_type_annot(tokens, q);
        items.push(Param { name, ty });
        p = q2;
        if p == before {
            return Err(missing(tokens, p, separator));
        }
        if check(tokens, p, separator) {
            p = p + 1;
            if check(tokens, p, terminator) {
                break;
            }
        } else {
            break;
        }
    }
    Ok((items, p))
}

/// Parses `name[: Type], ...` and keeps only the names (lambda parameters).
fn parse_lambda_param_names(tokens: &[Token], pos: usize, separator: TokenType, terminator: TokenType)
    -> (r: Result<(Vec<String>, usize), ParseError>)
    requires
        tokens_well_formed(tokens@),
        pos <= tokens@.len() < usize::MAX,
    ensures
        match r {
            Ok((items, p)) => pos <= p <= tokens@.len(),
            Err(e) => located(tokens@, e),
        },
{
    let mut items: Vec<String> = Vec::new();
    if check(tokens, pos, terminator) {
        return Ok((items, pos));
    }
    let mut p = pos;
    loop
        invariant
            tokens_well_formed(tokens@),
            pos <= p <= tokens@.len() < usize::MAX,
        decreases tokens@.len() - p,
    {
        let before = p;
        let (name, q) = consume_ident(tokens, p)?;
        let (_annot, q2) = parse_type_annot(tokens, q);
        items.push(name);
        p = q2;
        if p == before {
            return Err(missing(tokens, p, separator));
        }
        if check(tokens, p, separator) {
            p = p + 1;
            if check(tokens, p, terminator) {
                break;
            }
        } else {
            break;
        }
    }
    Ok((items, p))
}

/// Parses `name, name, ...` up to `terminator`.
fn parse_name_list(tokens: &[Token], pos: usize, separator: TokenType, terminator: TokenType)
    -> (r: Result<(Vec<String>, usize), ParseError>)
    requires
        tokens_well_formed(tokens@),
        pos <= tokens@.len() < usize::MAX,
    ensures
        match r {
            Ok((items, p)) => pos <= p <= tokens@.len(),
            Err(e) => located(tokens@, e),
        },
{
    let mut items: Vec<String> = Vec::new();
    if check(tokens, pos, terminator) {
        return Ok((items, pos));
    }
    let mut p = pos;
    loop
        invariant
            tokens_well_formed(tokens@),
            pos <= p <= tokens@.len() < usize::MAX,
        decreases tokens@.len() - p,
    {
        let before = p;
        let (name, q) = consume_ident(tokens, p)?;
        items.push(name);
        p = q;
        if p == before {
            return Err(missing(tokens, p, separator));
        }
        if check(tokens, p, separator) {
            p = p + 1;
            if check(tokens, p, terminator) {
                break;
            }
        } else {
            break;
        }
    }
    Ok((items, p))
}

/// Parses `Type, Type, ...` up to `terminator`.
fn parse_type_expr_list(tokens: &[Token], pos: usize, separator: TokenType, terminator: TokenType)
    -> (r: Result<(Vec<MetaTypeExpr>, usize), ParseError>)
    requires
        tokens_well_formed(tokens@),
        pos <= tokens@.len() < usize::MAX,
    ensures
        match r {
            Ok((items, p)) => pos <= p <= tokens@.len(),
            Err(e) => located(tokens@, e),
        },
{
    let mut items: Vec<MetaTypeExpr> = Vec::new();
    if check(tokens, pos, terminator) {
        return Ok((items, pos));
    }
    let mut p = pos;
    loop
        invariant
            tokens_well_formed(tokens@),
            pos <= p <= tokens@.len() < usize::MAX,
        decreases tokens@.len() - p,
    {
        let before = p;
        let (t, q) = parse_type_expr(tokens, p);
        let t = t?;
        items.push(t);
        p = q;
        if p == before {
            return Err(missing(tokens, p, separator));
        }
        if check(tokens, p, separator) {
            p = p + 1;
            if check(tokens, p, terminator) {
                break;
            }
        } else {
            break;
        }
    }
    Ok((items, p))
}

/// Parses struct fields `name: Type; ...`; each type is kept as its source text.
fn parse_struct_field_decls(tokens: &[Token], pos: usize, separator: TokenType, terminator: TokenType)
    -> (r: Result<(Vec<MetaFieldDecl>, usize), ParseError>)
    requires
        tokens_well_formed(tokens@),
        pos <= tokens@.len() < usize::MAX,
    ensures
        match r {
            Ok((items, p)) => pos <= p <= tokens@.len(),
            Err(e) => located(tokens@, e),
        },
{
    let mut items: Vec<MetaFieldDecl> = Vec::new();
    if check(tokens, pos, terminator) {
        return Ok((items, pos));
    }
    let mut p = pos;
    loop
        invariant
            tokens_well_formed(tokens@),
            pos <= p <= tokens@.len() < usize::MAX,
        decreases tokens@.len() - p,
    {
        let before = p;
        let (field_name, q) = consume_ident(tokens, p)?;
        let (_c, q2) = consume(tokens, q, TokenType::Colon)?;
        let (t, q3) = parse_type_expr(tokens, q2);
        let t = t?;
        items.push(MetaFieldDecl { field_name, field_type: type_expr_to_string(&t) });
        p = q3;
        if p == before {
            return Err(missing(tokens, p, separator));
        }
        if check(tokens, p, separator) {
            p = p + 1;
            if check(tokens, p, terminator) {
                break;
            }
        } else {
            break;
        }
    }
    Ok((items, p))
}

/// Parses enum struct-variant fields `name: TypeName; ...`.
fn parse_variant_field_decls(tokens: &[Token], pos: usize, separator: TokenType, terminator: TokenType)
    -> (r: Result<(Vec<MetaFieldDecl>, usize), ParseError>)
    requires
        tokens_well_formed(tokens@),
        pos <= tokens@.len() < usize::MAX,
    ensures
        match r {
            Ok((items, p)) => pos <= p <= tokens@.len(),
            Err(e) => located(tokens@, e),
        },
{
    let mut items: Vec<MetaFieldDecl> = Vec::new();
    if check(tokens, pos, terminator) {
        return Ok((items, pos));
    }
    let mut p = pos;
    loop
        invariant
            tokens_well_formed(tokens@),
            pos <= p <= tokens@.len() < usize::MAX,
        decreases tokens@.len() - p,
    {
        let before = p;
        let (field_name, q) = consume_ident(tokens, p)?;
        let (_c, q2) = consume(tokens, q, TokenType::Colon)?;
        let (field_type, q3) = consume_ident(tokens, q2)?;
        items.push(MetaFieldDecl { field_name, field_type });
        p = q3;
        if p == before {
            return Err(missing(tokens, p, separator));
        }
        if check(tokens, p, separator) {
            p = p + 1;
            if check(tokens, p, terminator) {
                break;
            }
        } else {
            break;
        }
    }
    Ok((items, p))
}



// ── Import paths ─────────────────────────────────────────────────────────────

/// `s` ends with the two characters `/*`.
pub open spec fn spec_ends_with_slash_star(s: Seq<char>) -> bool {
    s.len() >= 2 && s[s.len() - 2] == '/' && s[s.len() - 1] == '*'
}

/// `s` with every trailing `/*` removed.
pub open spec fn spec_strip_slash_stars(s: Seq<char>) -> Seq<char>
    decreases s.len(),
{
    if spec_ends_with_slash_star(s) {
        spec_strip_slash_stars(s.subrange(0, s.len() - 2))
    } else {
        s
    }
}

fn ends_with_slash_star(s: &String) -> (b: bool)
    ensures
        b == spec_ends_with_slash_star(s@),
{
    let t = s.as_str();
    let n = t.unicode_len();
    n >= 2 && t.get_char(n - 2) == '/' && t.get_char(n - 1) == '*'
}

fn strip_slash_stars(s: &String) -> (r: String)
    ensures
        r@ == spec_strip_slash_stars(s@),
{
    let t = s.as_str();
    let mut n = t.unicode_len();
    assert(t@.subrange(0, n as int) =~= t@);
    while n >= 2 && t.get_char(n - 2) == '/' && t.get_char(n - 1) == '*'
        invariant
            n <= t@.len(),
            spec_strip_slash_stars(t@.subrange(0, n as int)) == spec_strip_slash_stars(t@),
        decreases n,
    {
        proof {
            let cur = t@.subrange(0, n as int);
            assert(spec_ends_with_slash_star(cur));
            assert(cur.subrange(0, cur.len() - 2) =~= t@.subrange(0, n - 2));
        }
        n = n - 2;
    }
    proof {
        let cur = t@.subrange(0, n as int);
        assert(!spec_ends_with_slash_star(cur));
    }
    String::from_str(t.substring_char(0, n))
}

// ── Expressions ──────────────────────────────────────────────────────────────

/// The operator node for `op`, one of the binary operator tokens.
fn binop_expr(op: TokenType, left: MetaNodeId, right: MetaNodeId) -> (e: MetaExpr)
    ensures
        expr_expr_kids(e) == seq![left, right],
        expr_stmt_kids(e) == Seq::<MetaNodeId>::empty(),
        handle_ops(e) == Seq::<(String, Vec<MetaNodeId>)>::empty(),
        op == TokenType::Star ==> e == MetaExpr::Mult(left, right),
        op == TokenType::Slash ==> e == MetaExpr::Div(left, right),
        op == TokenType::Percent ==> e == MetaExpr::Mod(left, right),
        op == TokenType::Plus ==> e == MetaExpr::Add(left, right),
        op == TokenType::Minus ==> e == MetaExpr::Sub(left, right),
        op == TokenType::Less ==> e == MetaExpr::Lt(left, right),
        op == TokenType::Greater ==> e == MetaExpr::Gt(left, right),
        op == TokenType::LessEqual ==> e == MetaExpr::Lte(left, right),
        op == TokenType::GreaterEqual ==> e == MetaExpr::Gte(left, right),
        op == TokenType::EqualEqual ==> e == MetaExpr::Equals(left, right),
        op == TokenType::BangEqual ==> e == MetaExpr::NotEquals(left, right),
        op == TokenType::AmpAmp ==> e == MetaExpr::And(left, right),
        op == TokenType::PipePipe ==> e == MetaExpr::Or(left, right),
        op_level(op) > 0 ==> e == binop_node(op, left, right),
{
    match op {
        TokenType::Star => MetaExpr::Mult(left, right),
        TokenType::Slash => MetaExpr::Div(left, right),
        TokenType::Percent => MetaExpr::Mod(left, right),
        TokenType::Plus => MetaExpr::Add(left, right),
        TokenType::Minus => MetaExpr::Sub(left, right),
        TokenType::Less => MetaExpr::Lt(left, right),
        TokenType::Greater => MetaExpr::Gt(left, right),
        TokenType::LessEqual => MetaExpr::Lte(left, right),
        TokenType::GreaterEqual => MetaExpr::Gte(left, right),
        TokenType::EqualEqual => MetaExpr::Equals(left, right),
        TokenType::BangEqual => MetaExpr::NotEquals(left, right),
        TokenType::AmpAmp => MetaExpr::And(left, right),
        _ => MetaExpr::Or(left, right),
    }
}

/// The operators of each binary precedence level, lowest first:
/// 1 `||`, 2 `&&`, 3 `== !=`, 4 `< > <= >=`, 5 `+ -`, 6 `* / %`.
pub open spec fn level_op(level: nat, t: TokenType) -> bool {
    if level == 1 {
        t == TokenType::PipePipe
    } else if level == 2 {
        t == TokenType::AmpAmp
    } else if level == 3 {
        t == TokenType::EqualEqual || t == TokenType::BangEqual
    } else if level == 4 {
        t == TokenType::Less || t == TokenType::Greater || t == TokenType::LessEqual
            || t == TokenType::GreaterEqual
    } else if level == 5 {
        t == TokenType::Plus || t == TokenType::Minus
    } else {
        t == TokenType::Star || t == TokenType::Slash || t == TokenType::Percent
    }
}

/// The precedence level of a binary operator token (see `level_op`), or 0.
pub open spec fn op_level(t: TokenType) -> nat {
    if t == TokenType::PipePipe {
        1
    } else if t == TokenType::AmpAmp {
        2
    } else if t == TokenType::EqualEqual || t == TokenType::BangEqual {
        3
    } else if t == TokenType::Less || t == TokenType::Greater || t == TokenType::LessEqual
        || t == TokenType::GreaterEqual {
        4
    } else if t == TokenType::Plus || t == TokenType::Minus {
        5
    } else if t == TokenType::Star || t == TokenType::Slash || t == TokenType::Percent {
        6
    } else {
        0
    }
}

/// The operator node a binary operator token makes of its operands.
pub open spec fn binop_node(op: TokenType, l: MetaNodeId, r: MetaNodeId) -> MetaExpr {
    match op {
        TokenType::Star => MetaExpr::Mult(l, r),
        TokenType::Slash => MetaExpr::Div(l, r),
        TokenType::Percent => MetaExpr::Mod(l, r),
        TokenType::Plus => MetaExpr::Add(l, r),
        TokenType::Minus => MetaExpr::Sub(l, r),
        TokenType::Less => MetaExpr::Lt(l, r),
        TokenType::Greater => MetaExpr::Gt(l, r),
        TokenType::LessEqual => MetaExpr::Lte(l, r),
        TokenType::GreaterEqual => MetaExpr::Gte(l, r),
        TokenType::EqualEqual => MetaExpr::Equals(l, r),
        TokenType::BangEqual => MetaExpr::NotEquals(l, r),
        TokenType::AmpAmp => MetaExpr::And(l, r),
        _ => MetaExpr::Or(l, r),
    }
}

/// At `pos` stands an atom that neither `.`, `[` nor an operator of `level`
/// or above follows.
pub open spec fn atom_before(tokens: Seq<Token>, pos: int, level: nat) -> bool {
    &&& atom_at(tokens, pos)
    &&& pos + 1 < tokens.len()
    &&& tokens[pos + 1].token_type != TokenType::Dot && tokens[pos + 1].token_type != TokenType::LeftBracket
    &&& op_level(tokens[pos + 1].token_type) < level
}

/// At `pos` stands `a op b`: two atoms around a binary operator, then a
/// token ending the operand.
pub open spec fn binary_at(tokens: Seq<Token>, pos: int) -> bool {
    &&& atom_at(tokens, pos)
    &&& pos + 3 < tokens.len()
    &&& op_level(tokens[pos + 1].token_type) > 0
    &&& lone_atom(tokens, pos + 2)
}

/// At `pos` stands `a op b`, an operator of `level` or above between two
/// atoms, and what follows `b` neither continues it nor is an operator of
/// `level` or above.
pub open spec fn binary_before(tokens: Seq<Token>, pos: int, level: nat) -> bool {
    &&& atom_at(tokens, pos)
    &&& pos + 3 < tokens.len()
    &&& 1 <= level <= op_level(tokens[pos + 1].token_type)
    &&& atom_at(tokens, pos + 2)
    &&& !continues_postfix(tokens[pos + 3].token_type)
    &&& op_level(tokens[pos + 3].token_type) < level
}

/// `id` is the operator node of the operator at `pos + 1` over the atoms at
/// `pos` and `pos + 2`.
pub open spec fn pair_node(tokens: Seq<Token>, pos: int, ast: MetaAst, id: MetaNodeId) -> bool {
    exists|a: MetaNodeId, b: MetaNodeId|
        ast.expr_map()[id.0] == #[trigger] binop_node(tokens[pos + 1].token_type, a, b)
        && ast.expr_map().contains_key(a.0) && atom_node(tokens, pos, ast, a)
        && ast.expr_map().contains_key(b.0) && atom_node(tokens, pos + 2, ast, b)
}

/// `r` read `a op b` at `pos` into the operator node over the two atoms.
pub open spec fn binary_read(tokens: Seq<Token>, pos: int, new: ParseCtx, r: Result<(MetaNodeId, usize), ParseError>) -> bool {
    r matches Ok((id, p)) && p == pos + 3 && new.ast.expr_map().contains_key(id.0) && pair_node(tokens, pos, new.ast, id)
}

/// At `pos` stands `a op1 b op2 c`: three atoms between two binary
/// operators, then a token that ends the operand.
pub open spec fn chain_at(tokens: Seq<Token>, pos: int) -> bool {
    &&& atom_at(tokens, pos)
    &&& pos + 5 < tokens.len()
    &&& op_level(tokens[pos + 1].token_type) > 0
    &&& atom_at(tokens, pos + 2)
    &&& op_level(tokens[pos + 3].token_type) > 0
    &&& lone_atom(tokens, pos + 4)
}

/// `id` is `a op1 b op2 c` grouped by precedence, and from the left among
/// operators of one level: `(a op1 b) op2 c`, unless `op2` binds tighter,
/// then `a op1 (b op2 c)`.
pub open spec fn chain_node(tokens: Seq<Token>, pos: int, ast: MetaAst, id: MetaNodeId) -> bool {
    let op1 = tokens[pos + 1].token_type;
    let op2 = tokens[pos + 3].token_type;
    let m = ast.expr_map();
    if op_level(op1) >= op_level(op2) {
        exists|l: MetaNodeId, c: MetaNodeId| m[id.0] == #[trigger] binop_node(op2, l, c)
            && m.contains_key(l.0) && pair_node(tokens, pos, ast, l)
            && m.contains_key(c.0) && atom_node(tokens, pos + 4, ast, c)
    } else {
        exists|a: MetaNodeId, r: MetaNodeId| m[id.0] == #[trigger] binop_node(op1, a, r)
            && m.contains_key(a.0) && atom_node(tokens, pos, ast, a)
            && m.contains_key(r.0) && pair_node(tokens, pos + 2, ast, r)
    }
}

/// `r` read `a op1 b op2 c` at `pos`, all five tokens, into its tree.
pub open spec fn chain_read(tokens: Seq<Token>, pos: int, new: ParseCtx, r: Result<(MetaNodeId, usize), ParseError>) -> bool {
    r matches Ok((id, p)) && p == pos + 5 && new.ast.expr_map().contains_key(id.0) && chain_node(tokens, pos, new.ast, id)
}

/// What an atom's node says survives more nodes being added.
proof fn lemma_atom_grows(tokens: Seq<Token>, pos: int, a1: MetaAst, a2: MetaAst, id: MetaNodeId)
    requires
        a2.extends(&a1),
        a1.expr_map().contains_key(id.0),
        atom_node(tokens, pos, a1, id),
    ensures
        a2.expr_map().contains_key(id.0),
        atom_node(tokens, pos, a2, id),
{
    assert(a2.expr_map().contains_key(id.0));
    assert(a2.expr_map()[id.0] == a1.expr_map()[id.0]);
}

/// What an operator node over two atoms says survives more nodes being added.
proof fn lemma_pair_grows(tokens: Seq<Token>, pos: int, a1: MetaAst, a2: MetaAst, id: MetaNodeId)
    requires
        a2.extends(&a1),
        a1.expr_map().contains_key(id.0),
        pair_node(tokens, pos, a1, id),
    ensures
        a2.expr_map().contains_key(id.0),
        pair_node(tokens, pos, a2, id),
{
    let (a, b) = choose|a: MetaNodeId, b: MetaNodeId|
        a1.expr_map()[id.0] == #[trigger] binop_node(tokens[pos + 1].token_type, a, b)
        && a1.expr_map().contains_key(a.0) && atom_node(tokens, pos, a1, a)
        && a1.expr_map().contains_key(b.0) && atom_node(tokens, pos + 2, a1, b);
    lemma_atom_grows(tokens, pos, a1, a2, a);
    lemma_atom_grows(tokens, pos + 2, a1, a2, b);
    assert(a2.expr_map().contains_key(id.0));
    assert(a2.expr_map()[id.0] == a1.expr_map()[id.0]);
    assert(a2.expr_map()[id.0] == binop_node(tokens[pos + 1].token_type, a, b));
}

fn is_level_op(level: u8, t: TokenType) -> (b: bool)
    requires
        1 <= level <= 6,
    ensures
        b == level_op(level as nat, t),
{
    if level == 1 {
        t == TokenType::PipePipe
    } else if level == 2 {
        t == TokenType::AmpAmp
    } else if level == 3 {
        t == TokenType::EqualEqual || t == TokenType::BangEqual
    } else if level == 4 {
        t == TokenType::Less || t == TokenType::Greater || t == TokenType::LessEqual
            || t == TokenType::GreaterEqual
    } else if level == 5 {
        t == TokenType::Plus || t == TokenType::Minus
    } else {
        t == TokenType::Star || t == TokenType::Slash || t == TokenType::Percent
    }
}

/// Parses a left-associative chain of the operators of `level` over
/// operands of the next level up (level 6 works over postfix expressions).
#[verifier::rlimit(60)]
fn parse_binary(tokens: &[Token], pos: usize, ctx: &mut ParseCtx, level: u8)
    -> (r: Result<(MetaNodeId, usize), ParseError>)
    requires
        parse_pre(tokens@, pos, *old(ctx)),
        1 <= level <= 6,
    ensures
        expr_result(tokens@, pos, *old(ctx), *final(ctx), r),
        atom_before(tokens@, pos as int, level as nat) ==> atom_read(tokens@, pos as int, *final(ctx), r),
        binary_before(tokens@, pos as int, level as nat) ==> binary_read(tokens@, pos as int, *final(ctx), r),
        chain_at(tokens@, pos as int) && level <= op_level(tokens@[pos + 1].token_type)
            && level <= op_level(tokens@[pos + 3].token_type) ==> chain_read(tokens@, pos as int, *final(ctx), r),
    decreases tokens@.len() - pos, 20 - 2 * level,
{
    let ghost c0 = *ctx;
    let ghost lv = level as nat;
    let ghost l1: nat = if pos + 1 < tokens@.len() { op_level(tokens@[pos + 1].token_type) } else { 0 };
    let ghost l2: nat = if pos + 3 < tokens@.len() { op_level(tokens@[pos + 3].token_type) } else { 0 };
    let ghost is_chain = chain_at(tokens@, pos as int);
    let ghost is_pair = binary_before(tokens@, pos as int, lv);
    proof {
        if is_pair && l1 > lv {
            assert(binary_before(tokens@, pos as int, lv + 1));
        }
        if is_chain && lv == l2 && l2 < l1 {
            assert(binary_before(tokens@, pos as int, lv + 1));
        }
        if (is_pair && l1 == lv) || (is_chain && lv == l1 && l1 <= l2) {
            assert(atom_before(tokens@, pos as int, lv + 1));
        }
    }
    let first = if level == 6 {
        parse_postfix(tokens, pos, ctx)
    } else {
        parse_binary(tokens, pos, ctx, level + 1)
    };
    let (mut left, mut p) = first?;
    loop
        invariant
            atom_before(tokens@, pos as int, lv) ==> atom_read(tokens@, pos as int, *ctx, Ok((left, p))),
            is_pair == binary_before(tokens@, pos as int, lv),
            is_chain == chain_at(tokens@, pos as int),
            lv == level as nat,
            pos + 1 < tokens@.len() ==> l1 == op_level(tokens@[pos + 1].token_type),
            pos + 3 < tokens@.len() ==> l2 == op_level(tokens@[pos + 3].token_type),
            is_pair && l1 > lv ==> binary_read(tokens@, pos as int, *ctx, Ok((left, p))),
            is_pair && l1 == lv ==> (p == pos + 1 && atom_node(tokens@, pos as int, ctx.ast, left))
                || binary_read(tokens@, pos as int, *ctx, Ok((left, p))),
            is_chain && lv < l1 && lv < l2 ==> chain_read(tokens@, pos as int, *ctx, Ok((left, p))),
            is_chain && lv == l2 && l2 < l1 ==> (p == pos + 3 && pair_node(tokens@, pos as int, ctx.ast, left))
                || chain_read(tokens@, pos as int, *ctx, Ok((left, p))),
            is_chain && lv == l1 && l1 == l2 ==> (p == pos + 1 && atom_node(tokens@, pos as int, ctx.ast, left))
                || (p == pos + 3 && pair_node(tokens@, pos as int, ctx.ast, left))
                || chain_read(tokens@, pos as int, *ctx, Ok((left, p))),
            is_chain && lv == l1 && l1 < l2 ==> (p == pos + 1 && atom_node(tokens@, pos as int, ctx.ast, left))
                || chain_read(tokens@, pos as int, *ctx, Ok((left, p))),
            parse_pre(tokens@, p, *ctx),
            1 <= level <= 6,
            pos < p,
            ctx_inv(*ctx),
            ctx.ast.extends(&c0.ast),
            spans_kept(c0, *ctx),
            ctx.ast.roots() == c0.ast.roots(),
            budget(*ctx, tokens@.len() as int, p as int) + 2 <= budget(c0, tokens@.len() as int, pos as int),
            ctx.ast.expr_map().contains_key(left.0),
            parse_pre(tokens@, pos, c0),
        ensures
            atom_before(tokens@, pos as int, lv) ==> atom_read(tokens@, pos as int, *ctx, Ok((left, p))),
            is_pair ==> binary_read(tokens@, pos as int, *ctx, Ok((left, p))),
            is_chain && lv <= l1 && lv <= l2 ==> chain_read(tokens@, pos as int, *ctx, Ok((left, p))),
            parse_pre(tokens@, p, *ctx),
            pos < p,
            ctx_inv(*ctx),
            ctx.ast.extends(&c0.ast),
            spans_kept(c0, *ctx),
            ctx.ast.roots() == c0.ast.roots(),
            budget(*ctx, tokens@.len() as int, p as int) + 2 <= budget(c0, tokens@.len() as int, pos as int),
            ctx.ast.expr_map().contains_key(left.0),
        decreases tokens@.len() - p,
    {
        let ghost p0 = p as int;
        let ghost ca = *ctx;
        proof {
            // after a full `a op b` or chain, what follows is no operator of this level
            if is_chain && p0 == pos + 5 {
                assert(lone_atom(tokens@, pos + 4));
                assert(ends_operand(tokens@[pos + 5].token_type));
            }
        }
        if p < tokens.len() && is_level_op(level, tokens[p].token_type) {
            let op = tokens[p].token_type;
            proof {
                assert(op_level(op) == lv);
                if is_chain && p0 == pos + 1 {
                    if l1 < l2 {
                        assert(binary_at(tokens@, pos + 2));
                    } else {
                        assert(atom_before(tokens@, pos + 2, lv + 1));
                    }
                }
                if is_chain && p0 == pos + 3 {
                    assert(lone_atom(tokens@, pos + 4));
                    assert(atom_before(tokens@, pos + 4, lv + 1));
                }
                if is_pair && p0 == pos + 1 {
                    assert(atom_before(tokens@, pos + 2, lv + 1));
                }
            }
            let next = if level == 6 {
                parse_postfix(tokens, p + 1, ctx)
            } else {
                parse_binary(tokens, p + 1, ctx, level + 1)
            };
            let (right, q) = next?;
            let prev = left;
            let ghost c1 = *ctx;
            left = new_expr(ctx, binop_expr(op, left, right));
            ctx.copy_span(prev, left);
            proof {
                assert(ctx.ast.extends(&ca.ast));
                assert(ctx.ast.expr_map()[left.0] == binop_node(op, prev, right));
                assert(ctx.ast.expr_map().contains_key(right.0));
                assert(ctx.ast.expr_map()[right.0] == c1.ast.expr_map()[right.0]);
                assert(ctx.ast.expr_map().contains_key(prev.0));
                assert(ctx.ast.expr_map()[prev.0] == ca.ast.expr_map()[prev.0]);
                if p0 == pos + 1 && (is_pair || is_chain) && atom_node(tokens@, pos as int, ca.ast, prev) {
                    assert(op == tokens@[pos + 1].token_type);
                    if is_chain && l1 < l2 {
                        lemma_pair_grows(tokens@, pos + 2, c1.ast, ctx.ast, right);
                        assert(chain_node(tokens@, pos as int, ctx.ast, left));
                    } else {
                        assert(atom_node(tokens@, pos as int, ctx.ast, prev));
                        assert(atom_node(tokens@, pos + 2, ctx.ast, right));
                        assert(pair_node(tokens@, pos as int, ctx.ast, left));
                    }
                }
                if p0 == pos + 3 && is_chain && pair_node(tokens@, pos as int, ca.ast, prev) {
                    assert(op == tokens@[pos + 3].token_type);
                    lemma_pair_grows(tokens@, pos as int, ca.ast, ctx.ast, prev);
                    assert(atom_node(tokens@, pos + 4, ctx.ast, right));
                    assert(chain_node(tokens@, pos as int, ctx.ast, left));
                }
            }
            p = q;
        } else {
            break;
        }
    }
    Ok((left, p))
}

/// Entry point for expressions (lowest precedence is `||`).
fn parse_expr(tokens: &[Token], pos: usize, ctx: &mut ParseCtx) -> (r: Result<(MetaNodeId, usize), ParseError>)
    requires
        parse_pre(tokens@, pos, *old(ctx)),
    ensures
        expr_result(tokens@, pos, *old(ctx), *final(ctx), r),
        lone_atom(tokens@, pos as int) ==> atom_read(tokens@, pos as int, *final(ctx), r),
        binary_at(tokens@, pos as int) ==> binary_read(tokens@, pos as int, *final(ctx), r),
        chain_at(tokens@, pos as int) ==> chain_read(tokens@, pos as int, *final(ctx), r),
    decreases tokens@.len() - pos, 20nat,
{
    parse_binary(tokens, pos, ctx, 1)
}

/// `id` names a plain variable expression of `ast`.
pub open spec fn is_variable(ast: MetaAst, id: MetaNodeId) -> bool {
    ast.expr_map().contains_key(id.0) && ast.expr_map()[id.0] is Variable
}

/// The name of a plain variable expression.
fn extract_ident(ast: &MetaAst, expr_id: MetaNodeId) -> (r: Option<String>)
    ensures
        r is Some == is_variable(*ast, expr_id),
        r matches Some(n) ==> (ast.expr_map().contains_key(expr_id.0)
            && (ast.expr_map()[expr_id.0] matches MetaExpr::Variable(v) && v@ == n@)),
{
    match ast.get_expr(expr_id) {
        Some(MetaExpr::Variable(name)) => Some(name.clone()),
        _ => None,
    }
}

/// The names of a list of plain variable expressions, when all of them are.
fn extract_idents(ast: &MetaAst, ids: &Vec<MetaNodeId>) -> (r: Option<Vec<String>>)
    ensures
        r is Some == forall|i: int| 0 <= i < ids@.len() ==> is_variable(*ast, #[trigger] ids@[i]),
        r matches Some(ns) ==> ns@.len() == ids@.len() && forall|i: int| 0 <= i < ids@.len()
            ==> (ast.expr_map()[#[trigger] ids@[i].0] matches MetaExpr::Variable(v) && v@ == ns@[i]@),
{
    let mut out: Vec<String> = Vec::new();
    let mut i: usize = 0;
    while i < ids.len()
        invariant
            i <= ids@.len(),
            out@.len() == i,
            forall|j: int| 0 <= j < i ==> is_variable(*ast, #[trigger] ids@[j]),
            forall|j: int| 0 <= j < i
                ==> (ast.expr_map()[#[trigger] ids@[j].0] matches MetaExpr::Variable(v) && v@ == out@[j]@),
        decreases ids@.len() - i,
    {
        match extract_ident(ast, ids[i]) {
            Some(n) => out.push(n),
            None => return None,
        }
        i = i + 1;
    }
    Some(out)
}

/// Parses `expr, expr, ...` up to `terminator` (which is not read).
fn parse_expr_list(tokens: &[Token], pos: usize, ctx: &mut ParseCtx, separator: TokenType, terminator: TokenType)
    -> (r: Result<(Vec<MetaNodeId>, usize), ParseError>)
    requires
        parse_pre(tokens@, pos, *old(ctx)),
    ensures
        match r {
            Ok((items, p)) => advanced(tokens@, pos, *old(ctx), *final(ctx), p, 1)
                && present(items@, final(ctx).ast.expr_map()),
            Err(e) => failed(tokens@, *final(ctx), e),
        },
    decreases tokens@.len() - pos, 22nat,
{
    let ghost c0 = *ctx;
    let mut items: Vec<MetaNodeId> = Vec::new();
    if check(tokens, pos, terminator) {
        return Ok((items, pos));
    }
    let mut p = pos;
    loop
        invariant
            parse_pre(tokens@, p, *ctx),
            parse_pre(tokens@, pos, c0),
            pos <= p,
            ctx.ast.extends(&c0.ast),
            spans_kept(c0, *ctx),
            ctx.ast.roots() == c0.ast.roots(),
            budget(*ctx, tokens@.len() as int, p as int) <= budget(c0, tokens@.len() as int, pos as int),
            present(items@, ctx.ast.expr_map()),
        decreases tokens@.len() - p,
    {
        let before = p;
        let (item, q) = parse_expr(tokens, p, ctx)?;
        items.push(item);
        p = q;
        if p == before {
            return Err(missing(tokens, p, separator));
        }
        if check(tokens, p, separator) {
            p = p + 1;
            if check(tokens, p, terminator) {
                break;
            }
        } else {
            break;
        }
    }
    Ok((items, p))
}

pub open spec fn field_ids(fields: Seq<(String, MetaNodeId)>) -> Seq<MetaNodeId> {
    fields.map_values(|f: (String, MetaNodeId)| f.1)
}

/// Parses `name: expr, ...` field initialisers up to `terminator`.
fn parse_field_inits(tokens: &[Token], pos: usize, ctx: &mut ParseCtx, separator: TokenType, terminator: TokenType)
    -> (r: Result<(Vec<(String, MetaNodeId)>, usize), ParseError>)
    requires
        parse_pre(tokens@, pos, *old(ctx)),
    ensures
        match r {
            Ok((items, p)) => advanced(tokens@, pos, *old(ctx), *final(ctx), p, 1)
                && present(field_ids(items@), final(ctx).ast.expr_map()),
            Err(e) => failed(tokens@, *final(ctx), e),
        },
    decreases tokens@.len() - pos, 22nat,
{
    let ghost c0 = *ctx;
    let mut items: Vec<(String, MetaNodeId)> = Vec::new();
    if check(tokens, pos, terminator) {
        assert(field_ids(items@) =~= Seq::<MetaNodeId>::empty());
        return Ok((items, pos));
    }
    let mut p = pos;
    loop
        invariant
            parse_pre(tokens@, p, *ctx),
            parse_pre(tokens@, pos, c0),
            pos <= p,
            ctx.ast.extends(&c0.ast),
            spans_kept(c0, *ctx),
            ctx.ast.roots() == c0.ast.roots(),
            budget(*ctx, tokens@.len() as int, p as int) <= budget(c0, tokens@.len() as int, pos as int),
            present(field_ids(items@), ctx.ast.expr_map()),
        decreases tokens@.len() - p,
    {
        let before = p;
        let (field_name, q) = consume_ident(tokens, p)?;
        let (_c, q2) = consume(tokens, q, TokenType::Colon)?;
        let (expr_id, q3) = parse_expr(tokens, q2, ctx)?;
        let ghost old_items = items@;
        items.push((field_name, expr_id));
        assert(field_ids(items@) =~= field_ids(old_items).push(expr_id));
        p = q3;
        if p == before {
            return Err(missing(tokens, p, separator));
        }
        if check(tokens, p, separator) {
            p = p + 1;
            if check(tokens, p, terminator) {
                break;
            }
        } else {
            break;
        }
    }
    Ok((items, p))
}

/// `t` continues a postfix chain: `.` or `[`.
pub open spec fn continues_postfix(t: TokenType) -> bool {
    t == TokenType::Dot || t == TokenType::LeftBracket
}

/// At `pos` stands `a.N`: an atom, `.`, a number, and nothing that
/// continues the chain.
pub open spec fn tuple_index_at(tokens: Seq<Token>, pos: int) -> bool {
    &&& atom_at(tokens, pos)
    &&& kind_at(tokens, pos + 1) == Some(TokenType::Dot)
    &&& kind_at(tokens, pos + 2) == Some(TokenType::Number)
    &&& pos + 3 < tokens.len() && !continues_postfix(tokens[pos + 3].token_type)
}

/// At `pos` stands `a[x:]`: atoms `a` and `x`, and nothing that continues
/// the chain.
pub open spec fn slice_from_at(tokens: Seq<Token>, pos: int) -> bool {
    &&& atom_at(tokens, pos)
    &&& kind_at(tokens, pos + 1) == Some(TokenType::LeftBracket)
    &&& lone_atom(tokens, pos + 2)
    &&& kind_at(tokens, pos + 3) == Some(TokenType::Colon)
    &&& kind_at(tokens, pos + 4) == Some(TokenType::RightBracket)
    &&& pos + 5 < tokens.len() && !continues_postfix(tokens[pos + 5].token_type)
}

/// At `pos` stands `a[:x]`: atoms `a` and `x`, and nothing that continues
/// the chain.
pub open spec fn slice_to_at(tokens: Seq<Token>, pos: int) -> bool {
    &&& atom_at(tokens, pos)
    &&& kind_at(tokens, pos + 1) == Some(TokenType::LeftBracket)
    &&& kind_at(tokens, pos + 2) == Some(TokenType::Colon)
    &&& lone_atom(tokens, pos + 3)
    &&& kind_at(tokens, pos + 4) == Some(TokenType::RightBracket)
    &&& pos + 5 < tokens.len() && !continues_postfix(tokens[pos + 5].token_type)
}

/// Where `object` has a location, `id` has the same.
pub open spec fn same_span(new: ParseCtx, id: MetaNodeId, object: MetaNodeId) -> bool {
    new.span_table@.contains_key(object.0) ==> new.span_table@.contains_key(id.0)
        && new.span_table@[id.0] == new.span_table@[object.0]
}

/// `id` is the postfix form written at `pos` over the atom there: `a.N`
/// (`kind` 0), `a[x:]` (1) or `a[:x]` (2), with the atom's location.
pub open spec fn postfix_node(tokens: Seq<Token>, pos: int, new: ParseCtx, id: MetaNodeId, kind: int) -> bool {
    let m = new.ast.expr_map();
    match m[id.0] {
        MetaExpr::TupleIndex { object, index } => kind == 0 && index == tokens[pos + 2].spec_int() as usize
            && m.contains_key(object.0) && atom_node(tokens, pos, new.ast, object) && same_span(new, id, object),
        MetaExpr::SliceRange { object, start, end } => m.contains_key(object.0) && atom_node(tokens, pos, new.ast, object)
            && same_span(new, id, object) && match (start, end) {
                (Some(x), None) => kind == 1 && m.contains_key(x.0) && atom_node(tokens, pos + 2, new.ast, x),
                (None, Some(x)) => kind == 2 && m.contains_key(x.0) && atom_node(tokens, pos + 3, new.ast, x),
                _ => false,
            },
        _ => false,
    }
}

/// Which postfix form stands at `pos`, if one of the three does.
pub open spec fn postfix_form(tokens: Seq<Token>, pos: int) -> Option<int> {
    if tuple_index_at(tokens, pos) { Some(0) }
    else if slice_from_at(tokens, pos) { Some(1) }
    else if slice_to_at(tokens, pos) { Some(2) }
    else { None }
}

/// `r` read the postfix form at `pos`, up to its end.
pub open spec fn postfix_read(tokens: Seq<Token>, pos: int, new: ParseCtx, r: Result<(MetaNodeId, usize), ParseError>) -> bool {
    match postfix_form(tokens, pos) {
        Some(kind) => r matches Ok((id, p)) && p == pos + if kind == 0 { 3int } else { 5int }
            && new.ast.expr_map().contains_key(id.0) && postfix_node(tokens, pos, new, id, kind),
        None => true,
    }
}

/// Parses dot access, dot calls, tuple indexing, indexing and slicing after a
/// primary expression: `a.b`, `a.b(args)`, `a.b { .. }`, `a.0`, `a[i]`, `a[i:j]`.
fn parse_postfix(tokens: &[Token], pos: usize, ctx: &mut ParseCtx) -> (r: Result<(MetaNodeId, usize), ParseError>)
    requires
        parse_pre(tokens@, pos, *old(ctx)),
    ensures
        expr_result(tokens@, pos, *old(ctx), *final(ctx), r),
        atom_before(tokens@, pos as int, 7) ==> atom_read(tokens@, pos as int, *final(ctx), r),
        postfix_read(tokens@, pos as int, *final(ctx), r),
    decreases tokens@.len() - pos, 6nat,
{
    let ghost c0 = *ctx;
    let (mut base, mut p) = parse_factor(tokens, pos, ctx)?;
    loop
        invariant
            atom_before(tokens@, pos as int, 7) ==> atom_read(tokens@, pos as int, *ctx, Ok((base, p))),
            postfix_form(tokens@, pos as int) is Some ==> (p == pos + 1 && ctx.ast.expr_map().contains_key(base.0)
                && atom_node(tokens@, pos as int, ctx.ast, base))
                || postfix_read(tokens@, pos as int, *ctx, Ok((base, p))),
            parse_pre(tokens@, p, *ctx),
            parse_pre(tokens@, pos, c0),
            pos < p,
            ctx.ast.extends(&c0.ast),
            spans_kept(c0, *ctx),
            ctx.ast.roots() == c0.ast.roots(),
            budget(*ctx, tokens@.len() as int, p as int) + 2 <= budget(c0, tokens@.len() as int, pos as int),
            ctx.ast.expr_map().contains_key(base.0),
        ensures
            atom_before(tokens@, pos as int, 7) ==> atom_read(tokens@, pos as int, *ctx, Ok((base, p))),
            postfix_read(tokens@, pos as int, *ctx, Ok((base, p))),
            parse_pre(tokens@, p, *ctx),
            pos < p,
            ctx.ast.extends(&c0.ast),
            spans_kept(c0, *ctx),
            ctx.ast.roots() == c0.ast.roots(),
            budget(*ctx, tokens@.len() as int, p as int) + 2 <= budget(c0, tokens@.len() as int, pos as int),
            ctx.ast.expr_map().contains_key(base.0),
        decreases tokens@.len() - p,
    {
        let ghost p0 = p;
        let ghost ca = *ctx;
        proof {
            if postfix_form(tokens@, pos as int) is Some && p0 != pos + 1 {
                assert(!continues_postfix(tokens@[p0 as int].token_type));
            }
        }
        if check(tokens, p, TokenType::Dot) {
            let p1 = p + 1;
            // Numeric dot access: tuple.0, tuple.1
            if check(tokens, p1, TokenType::Number) {
                assert(tokens@[p1 as int].well_formed());
                let idx = #[verifier::truncate] (tokens[p1].expect_int() as usize);
                let prev = base;
                base = new_expr(ctx, MetaExpr::TupleIndex { object: base, index: idx });
                ctx.copy_span(prev, base);
                p = p1 + 1;
                proof {
                    if postfix_form(tokens@, pos as int) is Some {
                        assert(p0 == pos + 1);
                        assert(tuple_index_at(tokens@, pos as int));
                        assert(postfix_form(tokens@, pos as int) == Some(0int));
                        assert(ctx.ast.expr_map().contains_key(prev.0));
                        assert(ctx.ast.expr_map()[prev.0] == ca.ast.expr_map()[prev.0]);
                        assert(postfix_node(tokens@, pos as int, *ctx, base, 0));
                    }
                }
                continue;
            }
            let (field, q) = consume_field_name(tokens, p1)?;
            if check(tokens, q, TokenType::LeftParen) {
                let (mut args, q2) = parse_expr_list(tokens, q + 1, ctx, TokenType::Comma, TokenType::RightParen)?;
                let (_r, q3) = consume(tokens, q2, TokenType::RightParen)?;
                let mut q4 = q3;
                // Trailing lambda: obj.method(args) { params -> body }
                if check(tokens, q3, TokenType::LeftBrace) {
                    let (lambda, q5) = parse_trailing_lambda_block(tokens, q3, ctx)?;
                    args.push(lambda);
                    q4 = q5;
                }
                let prev = base;
                base = new_expr(ctx, MetaExpr::DotCall { object: base, method: field, args });
                ctx.copy_span(prev, base);
                p = q4;
            } else if check(tokens, q, TokenType::LeftBrace) {
                // obj.method { block } calls the method with a zero-parameter lambda.
                let lam_start = tok_loc(tokens, q);
                let (lam_body, q2) = parse_lambda_body(tokens, q + 1, ctx)?;
                let (_r, q3) = consume(tokens, q2, TokenType::RightBrace)?;
                let lambda = new_expr(ctx, MetaExpr::Lambda { params: Vec::new(), body: lam_body });
                ctx.record_span(lambda, lam_start);
                let prev = base;
                base = new_expr(ctx, MetaExpr::DotCall { object: base, method: field, args: vec![lambda] });
                ctx.copy_span(prev, base);
                p = q3;
            } else {
                let prev = base;
                base = new_expr(ctx, MetaExpr::DotAccess { object: base, field });
                ctx.copy_span(prev, base);
                p = q;
            }
        } else if check(tokens, p, TokenType::LeftBracket) {
            let p1 = p + 1;
            if check(tokens, p1, TokenType::Colon) {
                // `[:]` or `[:end]`
                let p2 = p1 + 1;
                let (end, p3) = if check(tokens, p2, TokenType::RightBracket) {
                    (None, p2)
                } else {
                    let (e, q) = parse_expr(tokens, p2, ctx)?;
                    (Some(e), q)
                };
                let (_r, p4) = consume(tokens, p3, TokenType::RightBracket)?;
                let prev = base;
                let ghost cb = *ctx;
                base = new_expr(ctx, MetaExpr::SliceRange { object: base, start: None, end });
                ctx.copy_span(prev, base);
                p = p4;
                proof {
                    if postfix_form(tokens@, pos as int) is Some {
                        assert(p0 == pos + 1);
                        assert(slice_to_at(tokens@, pos as int));
                        assert(postfix_form(tokens@, pos as int) == Some(2int));
                        assert(ctx.ast.expr_map().contains_key(prev.0));
                        assert(ctx.ast.expr_map()[prev.0] == ca.ast.expr_map()[prev.0]);
                        let x = end->Some_0;
                        assert(ctx.ast.expr_map().contains_key(x.0));
                        assert(ctx.ast.expr_map()[x.0] == cb.ast.expr_map()[x.0]);
                        assert(postfix_node(tokens@, pos as int, *ctx, base, 2));
                    }
                }
            } else {
                let (first, q) = parse_expr(tokens, p1, ctx)?;
                if check(tokens, q, TokenType::Colon) {
                    // `[start:]` or `[start:end]`
                    let q1 = q + 1;
                    let (end, q2) = if check(tokens, q1, TokenType::RightBracket) {
                        (None, q1)
                    } else {
                        let (e, q3) = parse_expr(tokens, q1, ctx)?;
                        (Some(e), q3)
                    };
                    let (_r, q4) = consume(tokens, q2, TokenType::RightBracket)?;
                    let prev = base;
                    let ghost cb = *ctx;
                    base = new_expr(ctx, MetaExpr::SliceRange { object: base, start: Some(first), end });
                    ctx.copy_span(prev, base);
                    p = q4;
                    proof {
                        if postfix_form(tokens@, pos as int) is Some {
                            assert(p0 == pos + 1);
                            assert(slice_from_at(tokens@, pos as int));
                            assert(postfix_form(tokens@, pos as int) == Some(1int));
                            assert(ctx.ast.expr_map().contains_key(prev.0));
                            assert(ctx.ast.expr_map()[prev.0] == ca.ast.expr_map()[prev.0]);
                            assert(ctx.ast.expr_map().contains_key(first.0));
                            assert(ctx.ast.expr_map()[first.0] == cb.ast.expr_map()[first.0]);
                            assert(postfix_node(tokens@, pos as int, *ctx, base, 1));
                        }
                    }
                } else {
                    let (_r, q4) = consume(tokens, q, TokenType::RightBracket)?;
                    let prev = base;
                    base = new_expr(ctx, MetaExpr::Index { object: base, index: first });
                    ctx.copy_span(prev, base);
                    p = q4;
                }
            }
        } else {
            break;
        }
    }
    Ok((base, p))
}

/// Parses `{ (params ->)? body }` after a call as a `Lambda`; without
/// `params ->` the lambda takes the one parameter `it`.
fn parse_trailing_lambda_block(tokens: &[Token], pos: usize, ctx: &mut ParseCtx)
    -> (r: Result<(MetaNodeId, usize), ParseError>)
    requires
        parse_pre(tokens@, pos, *old(ctx)),
        kind_at(tokens@, pos as int) == Some(TokenType::LeftBrace),
    ensures
        expr_result(tokens@, pos, *old(ctx), *final(ctx), r),
    decreases tokens@.len() - pos, 2nat,
{
    let ghost c0 = *ctx;
    let start_loc = tok_loc(tokens, pos);
    let explicit_params = peek_trailing_lambda_params(tokens, pos);
    let (_l, mut p) = consume(tokens, pos, TokenType::LeftBrace)?;
    let params = match explicit_params {
        Some(explicit) => {
            let mut result: Vec<String> = Vec::new();
            let mut first = true;
            let mut k: usize = 0;
            while k < explicit.len()
                invariant
                    tokens_well_formed(tokens@),
                    pos < p <= tokens@.len() < usize::MAX,
                    *ctx == c0,
                    parse_pre(tokens@, pos, c0),
                decreases explicit@.len() - k,
            {
                if !first {
                    let (_c, q) = consume(tokens, p, TokenType::Comma)?;
                    p = q;
                }
                first = false;
                let (name, q) = consume_ident(tokens, p)?;
                result.push(name);
                p = q;
                k = k + 1;
            }
            let (_a, q) = consume(tokens, p, TokenType::Arrow)?;
            p = q;
            result
        },
        None => {
            proof { reveal_strlit("it"); }
            vec![String::from_str("it")]
        },
    };
    let (body, q) = parse_lambda_body(tokens, p, ctx)?;
    let (_r, q2) = consume(tokens, q, TokenType::RightBrace)?;
    let id = new_expr(ctx, MetaExpr::Lambda { params, body });
    ctx.record_span(id, start_loc);
    Ok((id, q2))
}

/// Statement keywords: a lambda body line starting with one is a statement.
pub open spec fn stmt_keyword(t: TokenType) -> bool {
    t == TokenType::Var || t == TokenType::If || t == TokenType::While || t == TokenType::Return
        || t == TokenType::Func || t == TokenType::For || t == TokenType::Defer || t == TokenType::Effect
        || t == TokenType::Impl || t == TokenType::Trait || t == TokenType::Enum || t == TokenType::Struct
        || t == TokenType::Print || t == TokenType::Match || t == TokenType::Handle || t == TokenType::Run
        || t == TokenType::Handler
}

/// Whether `t` is a statement keyword.
fn is_stmt_keyword(t: TokenType) -> (b: bool)
    ensures
        b == stmt_keyword(t),
{
    match t {
        TokenType::Var | TokenType::If | TokenType::While | TokenType::Return | TokenType::Func
        | TokenType::For | TokenType::Defer | TokenType::Effect | TokenType::Impl | TokenType::Trait
        | TokenType::Enum | TokenType::Struct | TokenType::Print | TokenType::Match | TokenType::Handle
        | TokenType::Run | TokenType::Handler => true,
        _ => false,
    }
}

/// Parses the body of a trailing lambda up to `}`: statements end with `;`,
/// and a final expression with no `;` becomes an implicit `return`.
fn parse_lambda_body(tokens: &[Token], pos: usize, ctx: &mut ParseCtx) -> (r: Result<(MetaNodeId, usize), ParseError>)
    requires
        parse_pre(tokens@, pos, *old(ctx)),
    ensures
        block_result(tokens@, pos, *old(ctx), *final(ctx), r),
    decreases tokens@.len() - pos, 40nat,
{
    let ghost c0 = *ctx;
    let mut stmts: Vec<MetaNodeId> = Vec::new();
    let mut p = pos;
    while p < tokens.len() && tokens[p].token_type != TokenType::RightBrace
        invariant
            parse_pre(tokens@, p, *ctx),
            parse_pre(tokens@, pos, c0),
            pos <= p,
            ctx.ast.extends(&c0.ast),
            spans_kept(c0, *ctx),
            ctx.ast.roots() == c0.ast.roots(),
            budget(*ctx, tokens@.len() as int, p as int) <= budget(c0, tokens@.len() as int, pos as int),
            present(stmts@, ctx.ast.stmt_map()),
        decreases tokens@.len() - p,
    {
        if is_stmt_keyword(tokens[p].token_type) {
            let (s, q) = parse_stmt(tokens, p, ctx)?;
            stmts.push(s);
            p = q;
        } else {
            let start_loc = tok_loc(tokens, p);
            let (expr, q) = parse_expr(tokens, p, ctx)?;
            if check(tokens, q, TokenType::RightBrace) {
                // A bare final expression is returned.
                let id = new_stmt(ctx, MetaStmt::Return(Some(expr)));
                ctx.record_span(id, start_loc);
                stmts.push(id);
                p = q;
            } else {
                let (_s, q2) = consume(tokens, q, TokenType::Semicolon)?;
                let id = new_stmt(ctx, MetaStmt::ExprStmt(expr));
                ctx.record_span(id, start_loc);
                stmts.push(id);
                p = q2;
            }
        }
    }
    let id = new_stmt(ctx, MetaStmt::Block(stmts));
    Ok((id, p))
}

/// Parses the body after `=>`: a `{ ... }` lambda body, or one expression,
/// which is returned.
fn parse_arrow_body(tokens: &[Token], pos: usize, ctx: &mut ParseCtx) -> (r: Result<(MetaNodeId, usize), ParseError>)
    requires
        parse_pre(tokens@, pos, *old(ctx)),
    ensures
        match r {
            Ok((id, p)) => pos < p && advanced(tokens@, pos, *old(ctx), *final(ctx), p, 2)
                && final(ctx).ast.stmt_map().contains_key(id.0),
            Err(e) => failed(tokens@, *final(ctx), e),
        },
    decreases tokens@.len() - pos, 24nat,
{
    if check(tokens, pos, TokenType::LeftBrace) {
        let (body, q) = parse_lambda_body(tokens, pos + 1, ctx)?;
        let (_r, q2) = consume(tokens, q, TokenType::RightBrace)?;
        Ok((body, q2))
    } else {
        let (expr, q) = parse_expr(tokens, pos, ctx)?;
        let ret = new_stmt(ctx, MetaStmt::Return(Some(expr)));
        let block = new_stmt(ctx, MetaStmt::Block(vec![ret]));
        Ok((block, q))
    }
}

/// Parses the handler operations of a `handle` or `handler` block up to `}`
/// (or the end of input).
fn parse_handler_ops(tokens: &[Token], pos: usize, ctx: &mut ParseCtx)
    -> (r: Result<(Vec<MetaNodeId>, usize), ParseError>)
    requires
        parse_pre(tokens@, pos, *old(ctx)),
    ensures
        match r {
            Ok((ops, p)) => advanced(tokens@, pos, *old(ctx), *final(ctx), p, 1)
                && present(ops@, final(ctx).ast.stmt_map()),
            Err(e) => failed(tokens@, *final(ctx), e),
        },
    decreases tokens@.len() - pos, 26nat,
{
    let ghost c0 = *ctx;
    let mut ops: Vec<MetaNodeId> = Vec::new();
    let mut p = pos;
    while !check(tokens, p, TokenType::RightBrace) && !check(tokens, p, TokenType::EOF)
        invariant
            parse_pre(tokens@, p, *ctx),
            parse_pre(tokens@, pos, c0),
            pos <= p,
            ctx.ast.extends(&c0.ast),
            spans_kept(c0, *ctx),
            ctx.ast.roots() == c0.ast.roots(),
            budget(*ctx, tokens@.len() as int, p as int) <= budget(c0, tokens@.len() as int, pos as int),
            present(ops@, ctx.ast.stmt_map()),
        decreases tokens@.len() - p,
    {
        let (op, q) = parse_single_handler(tokens, p, ctx)?;
        ops.push(op);
        p = q;
    }
    Ok((ops, p))
}

/// `r` read `-` and the operand after it into `0 - operand`; where an atom
/// stands alone after the `-`, that atom is the operand and nothing more is
/// read.
pub open spec fn negation_read(tokens: Seq<Token>, pos: int, new: ParseCtx, r: Result<(MetaNodeId, usize), ParseError>) -> bool {
    &&& atom_before(tokens, pos + 1, 7) ==> r is Ok
    &&& r matches Ok((id, p)) ==> new.ast.expr_map()[id.0] matches MetaExpr::Sub(z, o)
        && new.ast.expr_map().contains_key(z.0) && new.ast.expr_map()[z.0] == MetaExpr::Int(0)
        && new.ast.expr_map().contains_key(o.0)
        && (atom_before(tokens, pos + 1, 7) ==> p == pos + 2 && atom_node(tokens, pos + 1, new.ast, o))
}

/// At `pos` stands `()` that `=>` does not follow.
pub open spec fn unit_at(tokens: Seq<Token>, pos: int) -> bool {
    &&& kind_at(tokens, pos) == Some(TokenType::LeftParen)
    &&& kind_at(tokens, pos + 1) == Some(TokenType::RightParen)
    &&& kind_at(tokens, pos + 2) != Some(TokenType::FatArrow)
}

/// `r` read the two tokens of `()` into the integer 0.
pub open spec fn unit_read(tokens: Seq<Token>, pos: int, new: ParseCtx, r: Result<(MetaNodeId, usize), ParseError>) -> bool {
    r matches Ok((id, p)) && p == pos + 2 && new.ast.expr_map()[id.0] == MetaExpr::Int(0)
}

/// Parses a primary expression: a literal, a name, a call, a constructor, a
/// list, a tuple or parenthesised expression, a lambda, `typeof`, `embed`,
/// `resume`, `run ... handle`, or a unary `!` or `-` applied to a postfix
/// expression.
fn parse_factor(tokens: &[Token], pos: usize, ctx: &mut ParseCtx) -> (r: Result<(MetaNodeId, usize), ParseError>)
    requires
        parse_pre(tokens@, pos, *old(ctx)),
    ensures
        expr_result(tokens@, pos, *old(ctx), *final(ctx), r),
        atom_at(tokens@, pos as int) ==> atom_read(tokens@, pos as int, *final(ctx), r),
        kind_at(tokens@, pos as int) == Some(TokenType::Minus) ==> negation_read(tokens@, pos as int, *final(ctx), r),
        unit_at(tokens@, pos as int) ==> unit_read(tokens@, pos as int, *final(ctx), r),
    decreases tokens@.len() - pos, 4nat,
{
    if pos >= tokens.len() {
        return Err(ParseError::UnexpectedEOF { expected: TokenType::LeftParen });
    }
    let start_loc = tok_loc(tokens, pos);
    let tok = &tokens[pos];
    assert(tokens@[pos as int].well_formed());
    let e = match tok.token_type {
        TokenType::Number => MetaExpr::Int(tok.expect_int()),
        TokenType::String => MetaExpr::String(tok.expect_str()),
        TokenType::True => MetaExpr::Bool(true),
        TokenType::False => MetaExpr::Bool(false),
        TokenType::Identifier => {
            let p1 = pos + 1;
            if check(tokens, p1, TokenType::DoubleColon) || check(tokens, p1, TokenType::LeftParen)
                || check(tokens, p1, TokenType::LeftBrace) {
                return parse_compound_factor(tokens, pos, ctx);
            }
            MetaExpr::Variable(tok.expect_str())
        },
        _ => return parse_compound_factor(tokens, pos, ctx),
    };
    let (_t, p1) = consume_next(tokens, pos)?;
    let id = new_expr(ctx, e);
    ctx.record_span(id, start_loc);
    Ok((id, p1))
}

/// Parses a primary expression that is not an atom.
#[verifier::spinoff_prover]
#[verifier::rlimit(60)]
fn parse_compound_factor(tokens: &[Token], pos: usize, ctx: &mut ParseCtx) -> (r: Result<(MetaNodeId, usize), ParseError>)
    requires
        parse_pre(tokens@, pos, *old(ctx)),
    ensures
        expr_result(tokens@, pos, *old(ctx), *final(ctx), r),
        kind_at(tokens@, pos as int) == Some(TokenType::Minus) ==> negation_read(tokens@, pos as int, *final(ctx), r),
        unit_at(tokens@, pos as int) ==> unit_read(tokens@, pos as int, *final(ctx), r),
    decreases tokens@.len() - pos, 3nat,
{
    let ghost c0 = *ctx;
    let start_loc = tok_loc(tokens, pos);
    if pos >= tokens.len() {
        return Err(ParseError::UnexpectedEOF { expected: TokenType::LeftParen });
    }
    let tok = &tokens[pos];
    assert(tokens@[pos as int].well_formed());
    let p1 = pos + 1;
    match tok.token_type {
        TokenType::Bang => {
            let (operand, q) = parse_postfix(tokens, p1, ctx)?;
            let id = new_expr(ctx, MetaExpr::Not(operand));
            ctx.record_span(id, start_loc);
            Ok((id, q))
        },
        TokenType::Minus => {
            let (operand, q) = parse_postfix(tokens, p1, ctx)?;
            let zero = new_expr(ctx, MetaExpr::Int(0));
            let id = new_expr(ctx, MetaExpr::Sub(zero, operand));
            ctx.record_span(id, start_loc);
            Ok((id, q))
        },
        TokenType::LeftParen => {
            if check(tokens, p1, TokenType::RightParen) {
                let p2 = p1 + 1;
                // Empty-parameter arrow lambda: `() => body`
                if check(tokens, p2, TokenType::FatArrow) {
                    let (body, q) = parse_arrow_body(tokens, p2 + 1, ctx)?;
                    let id = new_expr(ctx, MetaExpr::Lambda { params: Vec::new(), body });
                    ctx.record_span(id, start_loc);
                    return Ok((id, q));
                }
                // `()` with no `=>` stands for the integer 0 (unit placeholder).
                let id = new_expr(ctx, MetaExpr::Int(0));
                ctx.record_span(id, start_loc);
                return Ok((id, p2));
            }
            let (first, q) = parse_expr(tokens, p1, ctx)?;
            if check(tokens, q, TokenType::Comma) {
                // Tuple literal, or a multi-parameter arrow lambda `(a, b) => body`.
                let mut elems: Vec<MetaNodeId> = vec![first];
                let mut p = q;
                loop
                    invariant
                        parse_pre(tokens@, p, *ctx),
                        parse_pre(tokens@, pos, c0),
                        pos < p,
                        ctx.ast.extends(&c0.ast),
                        spans_kept(c0, *ctx),
                        ctx.ast.roots() == c0.ast.roots(),
                        budget(*ctx, tokens@.len() as int, p as int) + 8 <= budget(c0, tokens@.len() as int, pos as int),
                        present(elems@, ctx.ast.expr_map()),
                        kind_at(tokens@, pos as int) != Some(TokenType::Minus),
                        !unit_at(tokens@, pos as int),
                    decreases tokens@.len() - p,
                {
                    if !check(tokens, p, TokenType::Comma) {
                        break;
                    }
                    p = p + 1;
                    if check(tokens, p, TokenType::RightParen) {
                        break;
                    }
                    let (e, q2) = parse_expr(tokens, p, ctx)?;
                    elems.push(e);
                    p = q2;
                }
                let (_r, p2) = consume(tokens, p, TokenType::RightParen)?;
                if check(tokens, p2, TokenType::FatArrow) {
                    if let Some(params) = extract_idents(&ctx.ast, &elems) {
                        let (body, q3) = parse_arrow_body(tokens, p2 + 1, ctx)?;
                        let id = new_expr(ctx, MetaExpr::Lambda { params, body });
                        ctx.record_span(id, start_loc);
                        return Ok((id, q3));
                    }
                }
                let id = new_expr(ctx, MetaExpr::Tuple(elems));
                ctx.record_span(id, start_loc);
                Ok((id, p2))
            } else {
                let (_r, p2) = consume(tokens, q, TokenType::RightParen)?;
                // Single-parameter arrow lambda: `(x) => body`
                if check(tokens, p2, TokenType::FatArrow) {
                    if let Some(param) = extract_ident(&ctx.ast, first) {
                        let (body, q3) = parse_arrow_body(tokens, p2 + 1, ctx)?;
                        let id = new_expr(ctx, MetaExpr::Lambda { params: vec![param], body });
                        ctx.record_span(id, start_loc);
                        return Ok((id, q3));
                    }
                }
                Ok((first, p2))
            }
        },
        TokenType::Typeof => {
            let (_l, q) = consume(tokens, p1, TokenType::LeftParen)?;
            let (ident, q2) = consume_ident(tokens, q)?;
            let (_r, q3) = consume(tokens, q2, TokenType::RightParen)?;
            let id = new_expr(ctx, MetaExpr::Typeof(ident));
            ctx.record_span(id, start_loc);
            Ok((id, q3))
        },
        TokenType::Embed => {
            let (_l, q) = consume(tokens, p1, TokenType::LeftParen)?;
            let (file_path, q2) = consume_string(tokens, q)?;
            let (_r, q3) = consume(tokens, q2, TokenType::RightParen)?;
            let id = new_expr(ctx, MetaExpr::Embed(file_path));
            ctx.record_span(id, start_loc);
            Ok((id, q3))
        },
        TokenType::Identifier => {
            let name = tok.expect_str();
            // EnumName::Variant, EnumName::Variant(...) or EnumName::Variant { ... }
            if check(tokens, p1, TokenType::DoubleColon) {
                let (variant, p2) = consume_ident(tokens, p1 + 1)?;
                let (payload, p3) = if check(tokens, p2, TokenType::LeftParen) {
                    let (exprs, q) = parse_expr_list(tokens, p2 + 1, ctx, TokenType::Comma, TokenType::RightParen)?;
                    let (_r, q2) = consume(tokens, q, TokenType::RightParen)?;
                    (ConstructorPayload::Tuple(exprs), q2)
                } else if check(tokens, p2, TokenType::LeftBrace) && check_ahead(tokens, p2, 1, TokenType::Identifier)
                    && check_ahead(tokens, p2, 2, TokenType::Colon) {
                    let (fields, q) = parse_field_inits(tokens, p2 + 1, ctx, TokenType::Comma, TokenType::RightBrace)?;
                    let (_r, q2) = consume(tokens, q, TokenType::RightBrace)?;
                    (ConstructorPayload::Struct(fields), q2)
                } else {
                    (ConstructorPayload::Unit, p2)
                };
                let id = new_expr(ctx, MetaExpr::EnumConstructor { enum_name: name, variant, payload });
                ctx.record_span(id, start_loc);
                return Ok((id, p3));
            }
            if check(tokens, p1, TokenType::LeftParen) {
                let (mut args, q) = parse_expr_list(tokens, p1 + 1, ctx, TokenType::Comma, TokenType::RightParen)?;
                let (_r, q2) = consume(tokens, q, TokenType::RightParen)?;
                let mut q3 = q2;
                // Trailing lambda: foo(args) { params -> body }
                if check(tokens, q2, TokenType::LeftBrace) {
                    let (lambda, q4) = parse_trailing_lambda_block(tokens, q2, ctx)?;
                    args.push(lambda);
                    q3 = q4;
                }
                let id = new_expr(ctx, MetaExpr::Call { callee: name, args });
                ctx.record_span(id, start_loc);
                Ok((id, q3))
            } else if check(tokens, p1, TokenType::LeftBrace) && check_ahead(tokens, p1, 1, TokenType::Identifier)
                && check_ahead(tokens, p1, 2, TokenType::Colon) {
                let (fields, q) = parse_field_inits(tokens, p1 + 1, ctx, TokenType::Comma, TokenType::RightBrace)?;
                let (_r, q2) = consume(tokens, q, TokenType::RightBrace)?;
                let id = new_expr(ctx, MetaExpr::StructLiteral { struct_name: name, fields });
                ctx.record_span(id, start_loc);
                Ok((id, q2))
            } else if ctx.allow_trailing_brace && check(tokens, p1, TokenType::LeftBrace) {
                // Trailing lambda without parentheses: foo { params -> body }
                let (lambda, q) = parse_trailing_lambda_block(tokens, p1, ctx)?;
                let id = new_expr(ctx, MetaExpr::Call { callee: name, args: vec![lambda] });
                ctx.record_span(id, start_loc);
                Ok((id, q))
            } else {
                let id = new_expr(ctx, MetaExpr::Variable(name));
                ctx.record_span(id, start_loc);
                Ok((id, p1))
            }
        },
        TokenType::LeftBracket => {
            let (elems, q) = parse_expr_list(tokens, p1, ctx, TokenType::Comma, TokenType::RightBracket)?;
            let (_r, q2) = consume(tokens, q, TokenType::RightBracket)?;
            let id = new_expr(ctx, MetaExpr::List(elems));
            ctx.record_span(id, start_loc);
            Ok((id, q2))
        },
        TokenType::LeftBrace => {
            let (fields, q) = parse_field_inits(tokens, p1, ctx, TokenType::Comma, TokenType::RightBrace)?;
            let (_r, q2) = consume(tokens, q, TokenType::RightBrace)?;
            let id = new_expr(ctx, MetaExpr::StructLiteral { struct_name: String::new(), fields });
            Ok((id, q2))
        },
        // `resume` or `resume(expr)` used as an expression
        TokenType::Resume => {
            let (opt_expr, q) = if check(tokens, p1, TokenType::LeftParen) {
                if check(tokens, p1 + 1, TokenType::RightParen) {
                    (None, p1 + 2)
                } else {
                    let (e, q2) = parse_expr(tokens, p1 + 1, ctx)?;
                    let (_r, q3) = consume(tokens, q2, TokenType::RightParen)?;
                    (Some(e), q3)
                }
            } else {
                (None, p1)
            };
            let id = new_expr(ctx, MetaExpr::ResumeExpr(opt_expr));
            ctx.record_span(id, start_loc);
            Ok((id, q))
        },
        // `run { body } handle eff_name { ops } ...` or `run { body } with handler_name`
        TokenType::Run => {
            let (_l, q) = consume(tokens, p1, TokenType::LeftBrace)?;
            let (body_block, q2) = parse_block(tokens, q, ctx)?;
            let (_r, q3) = consume(tokens, q2, TokenType::RightBrace)?;
            let mut effects: Vec<(String, Vec<MetaNodeId>)> = Vec::new();
            let mut p = q3;
            while check(tokens, p, TokenType::Handle)
                invariant
                    parse_pre(tokens@, p, *ctx),
                    parse_pre(tokens@, pos, c0),
                    pos < p,
                    ctx.ast.extends(&c0.ast),
                    spans_kept(c0, *ctx),
                    ctx.ast.roots() == c0.ast.roots(),
                    budget(*ctx, tokens@.len() as int, p as int) + 8 <= budget(c0, tokens@.len() as int, pos as int),
                    ctx.ast.stmt_map().contains_key(body_block.0),
                    ops_present(effects@, ctx.ast.stmt_map()),
                    kind_at(tokens@, pos as int) != Some(TokenType::Minus),
                    !unit_at(tokens@, pos as int),
                decreases tokens@.len() - p,
            {
                let (eff_name, q4) = consume_ident(tokens, p + 1)?;
                let (_l2, q5) = consume(tokens, q4, TokenType::LeftBrace)?;
                let (ops, q6) = parse_handler_ops(tokens, q5, ctx)?;
                let (_r2, q7) = consume(tokens, q6, TokenType::RightBrace)?;
                effects.push((eff_name, ops));
                p = q7;
            }
            if check(tokens, p, TokenType::With) && check_ahead(tokens, p, 1, TokenType::Identifier) {
                let (handler_name, q8) = consume_ident(tokens, p + 1)?;
                let id = new_expr(ctx, MetaExpr::RunWith { body: body_block, handler_name });
                ctx.record_span(id, start_loc);
                return Ok((id, q8));
            }
            let id = new_expr(ctx, MetaExpr::RunHandle { body: body_block, effects });
            ctx.record_span(id, start_loc);
            Ok((id, p))
        },
        // Lambda expression: `fn(params): ReturnType { body }`
        TokenType::Func => {
            let (_l, q) = consume(tokens, p1, TokenType::LeftParen)?;
            let (params, q2) = parse_lambda_param_names(tokens, q, TokenType::Comma, TokenType::RightParen)?;
            let (_r, q3) = consume(tokens, q2, TokenType::RightParen)?;
            let (_ret, q4) = parse_return_type(tokens, q3);
            let (_l2, q5) = consume(tokens, q4, TokenType::LeftBrace)?;
            let (body, q6) = parse_block(tokens, q5, ctx)?;
            let (_r2, q7) = consume(tokens, q6, TokenType::RightBrace)?;
            let id = new_expr(ctx, MetaExpr::Lambda { params, body });
            ctx.record_span(id, start_loc);
            Ok((id, q7))
        },
        _ => Err(unexpected(tokens, pos, TokenType::LeftParen)),
    }
}

// ── Statements ───────────────────────────────────────────────────────────────

/// Parses `ctl op(params): ret { body }` or `fn op(params): ret { body }`.
fn parse_single_handler(tokens: &[Token], pos: usize, ctx: &mut ParseCtx)
    -> (r: Result<(MetaNodeId, usize), ParseError>)
    requires
        parse_pre(tokens@, pos, *old(ctx)),
    ensures
        stmt_result(tokens@, pos, *old(ctx), *final(ctx), r),
    decreases tokens@.len() - pos, 24nat,
{
    let is_ctl = match peek(tokens, pos) {
        Some(TokenType::Ctl) => true,
        Some(TokenType::Func) => false,
        Some(_) => return Err(unexpected(tokens, pos, TokenType::Ctl)),
        None => return Err(ParseError::UnexpectedEOF { expected: TokenType::Ctl }),
    };
    let (op_name, p) = consume_ident(tokens, pos + 1)?;
    let (_l, p2) = consume(tokens, p, TokenType::LeftParen)?;
    let (params, p3) = parse_params(tokens, p2, TokenType::Comma, TokenType::RightParen)?;
    let (_r, p4) = consume(tokens, p3, TokenType::RightParen)?;
    let (ret_ty, p5) = if check(tokens, p4, TokenType::Colon) {
        let (t, q) = consume_ident(tokens, p4 + 1)?;
        (Some(t), q)
    } else {
        (None, p4)
    };
    let (_l2, p6) = consume(tokens, p5, TokenType::LeftBrace)?;
    let (body, p7) = parse_block(tokens, p6, ctx)?;
    let (_r2, p8) = consume(tokens, p7, TokenType::RightBrace)?;
    let stmt = if is_ctl {
        MetaStmt::WithCtl { op_name, params, ret_ty, body }
    } else {
        MetaStmt::WithFn { op_name, params, ret_ty, body }
    };
    let id = new_stmt(ctx, stmt);
    Ok((id, p8))
}

/// Parses `effect name { (fn|ctl) op(params): ret; ... }`.
fn parse_effect_decl(tokens: &[Token], pos: usize, ctx: &mut ParseCtx)
    -> (r: Result<(MetaNodeId, usize), ParseError>)
    requires
        parse_pre(tokens@, pos, *old(ctx)),
    ensures
        stmt_result(tokens@, pos, *old(ctx), *final(ctx), r),
    decreases tokens@.len() - pos, 36nat,
{
    let ghost c0 = *ctx;
    let (_e, p0) = consume(tokens, pos, TokenType::Effect)?;
    let (name, p1) = consume_ident(tokens, p0)?;
    let (_l, mut p) = consume(tokens, p1, TokenType::LeftBrace)?;
    let mut ops: Vec<EffectOp> = Vec::new();
    while !check(tokens, p, TokenType::RightBrace)
        invariant
            tokens_well_formed(tokens@),
            pos < p <= tokens@.len() < usize::MAX,
            *ctx == c0,
            parse_pre(tokens@, pos, c0),
        decreases tokens@.len() - p,
    {
        let kind = match peek(tokens, p) {
            Some(TokenType::Func) => EffectOpKind::Fn,
            Some(TokenType::Ctl) => EffectOpKind::Ctl,
            Some(_) => EffectOpKind::Fn,  // read past an unknown keyword, as for `fn`
            None => return Err(ParseError::UnexpectedEOF { expected: TokenType::Identifier }),
        };
        let (op_name, q) = consume_ident(tokens, p + 1)?;
        let (_l2, q2) = consume(tokens, q, TokenType::LeftParen)?;
        let (params, q3) = parse_params(tokens, q2, TokenType::Comma, TokenType::RightParen)?;
        let (_r, q4) = consume(tokens, q3, TokenType::RightParen)?;
        let (ret_ty, q5) = if check(tokens, q4, TokenType::Colon) {
            let (t, q6) = consume_ident(tokens, q4 + 1)?;
            (Some(t), q6)
        } else {
            (None, q4)
        };
        let mut q7 = q5;
        if check(tokens, q5, TokenType::Semicolon) {
            q7 = q5 + 1;
        }
        ops.push(EffectOp { kind, name: op_name, params, ret_ty });
        p = q7;
    }
    let (_r2, p2) = consume(tokens, p, TokenType::RightBrace)?;
    let id = new_stmt(ctx, MetaStmt::EffectDecl { name, type_params: Vec::new(), ops });
    Ok((id, p2))
}

/// Parses `resume` or `resume expr`, with an optional `;`.
fn parse_resume(tokens: &[Token], pos: usize, ctx: &mut ParseCtx) -> (r: Result<(MetaNodeId, usize), ParseError>)
    requires
        parse_pre(tokens@, pos, *old(ctx)),
    ensures
        stmt_result(tokens@, pos, *old(ctx), *final(ctx), r),
    decreases tokens@.len() - pos, 36nat,
{
    let (_k, p) = consume(tokens, pos, TokenType::Resume)?;
    // bare resume (no expression) when followed by ; or }
    let (opt_expr, q) = if check(tokens, p, TokenType::Semicolon) || check(tokens, p, TokenType::RightBrace) {
        (None, p)
    } else {
        let (e, q2) = parse_expr(tokens, p, ctx)?;
        (Some(e), q2)
    };
    let mut q3 = q;
    if check(tokens, q, TokenType::Semicolon) {
        q3 = q + 1;
    }
    let id = new_stmt(ctx, MetaStmt::Resume(opt_expr));
    Ok((id, q3))
}

/// Parses an expression used as a statement, with an optional `;`.
fn parse_expr_stmt(tokens: &[Token], pos: usize, ctx: &mut ParseCtx) -> (r: Result<(MetaNodeId, usize), ParseError>)
    requires
        parse_pre(tokens@, pos, *old(ctx)),
    ensures
        stmt_result(tokens@, pos, *old(ctx), *final(ctx), r),
    decreases tokens@.len() - pos, 34nat,
{
    let start_loc = tok_loc(tokens, pos);
    let (expr, q) = parse_expr(tokens, pos, ctx)?;
    let mut p = q;
    if check(tokens, q, TokenType::Semicolon) {
        p = q + 1;
    }
    let id = new_stmt(ctx, MetaStmt::ExprStmt(expr));
    ctx.record_span(id, start_loc);
    Ok((id, p))
}

/// The statement `name = name + rhs` (or `-`), as `x++`, `x += e` and the
/// like are written.
fn update_stmt(ctx: &mut ParseCtx, name: String, add: bool, rhs: MetaNodeId) -> (id: MetaNodeId)
    requires
        ctx_inv(*old(ctx)),
        old(ctx).id_provider.counter() + 2 < usize::MAX,
        old(ctx).ast.expr_map().contains_key(rhs.0),
    ensures
        ctx_inv(*final(ctx)),
        final(ctx).ast.extends(&old(ctx).ast),
        final(ctx).ast.roots() == old(ctx).ast.roots(),
        final(ctx).id_provider.counter() == old(ctx).id_provider.counter() + 3,
        final(ctx).ast.stmt_map().contains_key(id.0),
        final(ctx).allow_trailing_brace == old(ctx).allow_trailing_brace,
        final(ctx).span_table == old(ctx).span_table,
        step_node(final(ctx).ast, id, name@, add, rhs),
        id.0 == old(ctx).id_provider.counter() + 2,
{
    let var_id = new_expr(ctx, MetaExpr::Variable(name.clone()));
    let expr = if add {
        new_expr(ctx, MetaExpr::Add(var_id, rhs))
    } else {
        new_expr(ctx, MetaExpr::Sub(var_id, rhs))
    };
    new_stmt(ctx, MetaStmt::Assign { name, expr })
}

/// `v` is the variable `name`.
pub open spec fn var_named(ast: MetaAst, v: MetaNodeId, name: Seq<char>) -> bool {
    match ast.expr_map()[v.0] {
        MetaExpr::Variable(n) => n@ == name,
        _ => false,
    }
}

/// `e` is `name + rhs`, or `name - rhs` where `add` is false.
pub open spec fn step_expr(ast: MetaAst, e: MetaExpr, name: Seq<char>, add: bool, rhs: MetaNodeId) -> bool {
    match e {
        MetaExpr::Add(v, x) => add && x == rhs && var_named(ast, v, name),
        MetaExpr::Sub(v, x) => !add && x == rhs && var_named(ast, v, name),
        _ => false,
    }
}

/// `id` is `name = name + rhs` (or `- rhs`).
pub open spec fn step_node(ast: MetaAst, id: MetaNodeId, name: Seq<char>, add: bool, rhs: MetaNodeId) -> bool {
    match ast.stmt_map()[id.0] {
        MetaStmt::Assign { name: n, expr } => n@ == name && ast.expr_map().contains_key(expr.0)
            && step_expr(ast, ast.expr_map()[expr.0], name, add, rhs),
        _ => false,
    }
}

/// `id` is an assignment to `name`.
pub open spec fn assign_to(ast: MetaAst, id: MetaNodeId, name: Seq<char>) -> bool {
    match ast.stmt_map()[id.0] {
        MetaStmt::Assign { name: n, .. } => n@ == name,
        _ => false,
    }
}

/// `r` read the increment at `pos` into an assignment to the name there;
/// `i++` and `i--` become `i = i + 1` and `i = i - 1`.
pub open spec fn incr_read(tokens: Seq<Token>, pos: int, new: ParseCtx, r: Result<(MetaNodeId, usize), ParseError>) -> bool {
    match r {
        Ok((id, p)) => assign_to(new.ast, id, tokens[pos].spec_str())
            && ((kind_at(tokens, pos + 1) == Some(TokenType::PlusPlus) || kind_at(tokens, pos + 1) == Some(TokenType::MinusMinus)) ==> {
                &&& p == pos + 2
                &&& exists|one: MetaNodeId| #[trigger] new.ast.expr_map().contains_key(one.0)
                    && new.ast.expr_map()[one.0] == MetaExpr::Int(1)
                    && step_node(new.ast, id, tokens[pos].spec_str(), kind_at(tokens, pos + 1) == Some(TokenType::PlusPlus), one)
            }),
        Err(_) => true,
    }
}

/// Parses the increment clause of a C-style `for` (no trailing `;`):
/// `i++`, `i--`, `i += e`, `i -= e` or `i = e`.
fn parse_for_incr(tokens: &[Token], pos: usize, ctx: &mut ParseCtx) -> (r: Result<(MetaNodeId, usize), ParseError>)
    requires
        parse_pre(tokens@, pos, *old(ctx)),
    ensures
        stmt_result(tokens@, pos, *old(ctx), *final(ctx), r),
        incr_read(tokens@, pos as int, *final(ctx), r),
    decreases tokens@.len() - pos, 30nat,
{
    let (name, p) = consume_ident(tokens, pos)?;
    match peek(tokens, p) {
        Some(TokenType::PlusPlus) => {
            let one = new_expr(ctx, MetaExpr::Int(1));
            let ghost a1 = ctx.ast;
            let id = update_stmt(ctx, name, true, one);
            proof {
                assert(a1.expr_map().contains_key(one.0));
                assert(ctx.ast.expr_map()[one.0] == a1.expr_map()[one.0]);
                assert(ctx.ast.expr_map().contains_key(one.0) && ctx.ast.expr_map()[one.0] == MetaExpr::Int(1));
                assert(kind_at(tokens@, pos + 1) == Some(TokenType::PlusPlus));
                assert(step_node(ctx.ast, id, tokens@[pos as int].spec_str(), kind_at(tokens@, pos + 1) == Some(TokenType::PlusPlus), one));
            }
            Ok((id, p + 1))
        },
        Some(TokenType::MinusMinus) => {
            let one = new_expr(ctx, MetaExpr::Int(1));
            let ghost a1 = ctx.ast;
            let id = update_stmt(ctx, name, false, one);
            proof {
                assert(a1.expr_map().contains_key(one.0));
                assert(ctx.ast.expr_map()[one.0] == a1.expr_map()[one.0]);
                assert(ctx.ast.expr_map().contains_key(one.0) && ctx.ast.expr_map()[one.0] == MetaExpr::Int(1));
                assert(kind_at(tokens@, pos + 1) == Some(TokenType::MinusMinus));
                assert(step_node(ctx.ast, id, tokens@[pos as int].spec_str(), kind_at(tokens@, pos + 1) == Some(TokenType::PlusPlus), one));
            }
            Ok((id, p + 1))
        },
        Some(TokenType::PlusEqual) => {
            let (rhs, q) = parse_expr(tokens, p + 1, ctx)?;
            Ok((update_stmt(ctx, name, true, rhs), q))
        },
        Some(TokenType::MinusEqual) => {
            let (rhs, q) = parse_expr(tokens, p + 1, ctx)?;
            Ok((update_stmt(ctx, name, false, rhs), q))
        },
        Some(TokenType::Equal) => {
            let (expr, q) = parse_expr(tokens, p + 1, ctx)?;
            let id = new_stmt(ctx, MetaStmt::Assign { name, expr });
            Ok((id, q))
        },
        Some(_) => Err(unexpected(tokens, p, TokenType::PlusPlus)),
        None => Err(ParseError::UnexpectedEOF { expected: TokenType::PlusPlus }),
    }
}

/// Whether `s` is the one-character text `_`.
fn is_underscore(s: &String) -> (b: bool)
    ensures
        b == (s@ == seq!['_']),
{
    let u = String::from_str("_");
    proof {
        reveal_strlit("_");
        assert(u@ =~= seq!['_']);
    }
    *s == u
}

/// Parses a match pattern: `_`, `Enum::Variant`, `Enum::Variant(a, b)` or
/// `Enum::Variant { a, b }`.
fn parse_pattern(tokens: &[Token], pos: usize) -> (r: Result<(Pattern, usize), ParseError>)
    requires
        tokens_well_formed(tokens@),
        pos <= tokens@.len() < usize::MAX,
    ensures
        match r {
            Ok((_pat, p)) => pos < p <= tokens@.len(),
            Err(e) => located(tokens@, e),
        },
{
    if check(tokens, pos, TokenType::Identifier) {
        assert(tokens@[pos as int].well_formed());
        if is_underscore(&tokens[pos].expect_str()) {
            return Ok((Pattern::Wildcard, pos + 1));
        }
    }
    let (enum_name, p) = consume_ident(tokens, pos)?;
    let (_c, p2) = consume(tokens, p, TokenType::DoubleColon)?;
    let (variant, p3) = consume_ident(tokens, p2)?;
    let mut q = p3;
    let bindings = if check(tokens, p3, TokenType::LeftParen) || check(tokens, p3, TokenType::LeftBrace) {
        let tuple = check(tokens, p3, TokenType::LeftParen);
        let close = if tuple { TokenType::RightParen } else { TokenType::RightBrace };
        let mut names: Vec<String> = Vec::new();
        q = p3 + 1;
        while !check(tokens, q, close)
            invariant
                tokens_well_formed(tokens@),
                pos < q <= tokens@.len() < usize::MAX,
            decreases tokens@.len() - q,
        {
            let (n, q2) = consume_ident(tokens, q)?;
            names.push(n);
            q = q2;
            if check(tokens, q, TokenType::Comma) {
                q = q + 1;
            }
        }
        let (_r, q3) = consume(tokens, q, close)?;
        q = q3;
        if tuple { VariantBindings::Tuple(names) } else { VariantBindings::Struct(names) }
    } else {
        VariantBindings::Unit
    };
    Ok((Pattern::Enum { enum_name, variant, bindings }, q))
}

/// Parses `meta fn name(params) { body }` or `meta <stmt>`.
fn parse_meta_stmt(tokens: &[Token], pos: usize, ctx: &mut ParseCtx) -> (r: Result<(MetaNodeId, usize), ParseError>)
    requires
        parse_pre(tokens@, pos, *old(ctx)),
    ensures
        stmt_result(tokens@, pos, *old(ctx), *final(ctx), r),
    decreases tokens@.len() - pos, 36nat,
{
    let (_m, p) = consume(tokens, pos, TokenType::Meta)?;
    if check(tokens, p, TokenType::Func) {
        let (name, p2) = consume_ident(tokens, p + 1)?;
        let (_l, p3) = consume(tokens, p2, TokenType::LeftParen)?;
        let (params, p4) = parse_params(tokens, p3, TokenType::Comma, TokenType::RightParen)?;
        let (_r, p5) = consume(tokens, p4, TokenType::RightParen)?;
        let (_l2, p6) = consume(tokens, p5, TokenType::LeftBrace)?;
        let (body, p7) = parse_block(tokens, p6, ctx)?;
        let (_r2, p8) = consume(tokens, p7, TokenType::RightBrace)?;
        let id = new_stmt(ctx, MetaStmt::MetaFnDecl { name, params, body });
        return Ok((id, p8));
    }
    let (stmt, q) = parse_stmt(tokens, p, ctx)?;
    let id = new_stmt(ctx, MetaStmt::MetaBlock(stmt));
    Ok((id, q))
}

/// Parses statements up to `}` (or the end of input) into a `Block`.
fn parse_block(tokens: &[Token], pos: usize, ctx: &mut ParseCtx) -> (r: Result<(MetaNodeId, usize), ParseError>)
    requires
        parse_pre(tokens@, pos, *old(ctx)),
    ensures
        block_result(tokens@, pos, *old(ctx), *final(ctx), r),
        r matches Ok((id, _)) ==> final(ctx).ast.stmt_map()[id.0] is Block,
    decreases tokens@.len() - pos, 40nat,
{
    let ghost c0 = *ctx;
    let mut stmts: Vec<MetaNodeId> = Vec::new();
    let mut p = pos;
    while p < tokens.len() && tokens[p].token_type != TokenType::RightBrace
        invariant
            parse_pre(tokens@, p, *ctx),
            parse_pre(tokens@, pos, c0),
            pos <= p,
            ctx.ast.extends(&c0.ast),
            spans_kept(c0, *ctx),
            ctx.ast.roots() == c0.ast.roots(),
            budget(*ctx, tokens@.len() as int, p as int) <= budget(c0, tokens@.len() as int, pos as int),
            present(stmts@, ctx.ast.stmt_map()),
        decreases tokens@.len() - p,
    {
        let (s, q) = parse_stmt(tokens, p, ctx)?;
        stmts.push(s);
        p = q;
    }
    let id = new_stmt(ctx, MetaStmt::Block(stmts));
    Ok((id, p))
}

/// Parses `{ stmts }` at `pos` (which must hold `{`) and returns the block.
fn parse_braced_block(tokens: &[Token], pos: usize, ctx: &mut ParseCtx) -> (r: Result<(MetaNodeId, usize), ParseError>)
    requires
        parse_pre(tokens@, pos, *old(ctx)),
    ensures
        stmt_result(tokens@, pos, *old(ctx), *final(ctx), r),
        r matches Ok((id, _)) ==> final(ctx).ast.stmt_map()[id.0] is Block,
        r matches Ok((id, _)) ==> id.0 + 1 == final(ctx).id_provider.counter(),
    decreases tokens@.len() - pos, 34nat,
{
    let (_l, p) = consume(tokens, pos, TokenType::LeftBrace)?;
    let (body, q) = parse_block(tokens, p, ctx)?;
    let (_r, q2) = consume(tokens, q, TokenType::RightBrace)?;
    Ok((body, q2))
}

/// Parses one statement.
/// Parses `print(expr);`.
fn parse_print(tokens: &[Token], pos: usize, ctx: &mut ParseCtx) -> (r: Result<(MetaNodeId, usize), ParseError>)
    requires
        parse_pre(tokens@, pos, *old(ctx)),
        kind_at(tokens@, pos as int) == Some(TokenType::Print),
    ensures
        stmt_result(tokens@, pos, *old(ctx), *final(ctx), r),
        print_literal_at(tokens@, pos as int) ==> printed_literal(tokens@, pos as int, *final(ctx), r),
    decreases tokens@.len() - pos, 37nat,
{
    let (_l, q) = consume(tokens, pos + 1, TokenType::LeftParen)?;
    let (expr, q2) = parse_expr(tokens, q, ctx)?;
    let (_r, q3) = consume(tokens, q2, TokenType::RightParen)?;
    let (_s, q4) = consume(tokens, q3, TokenType::Semicolon)?;
    let ghost before = *ctx;
    let id = new_stmt(ctx, MetaStmt::Print(expr));
    proof {
        if print_literal_at(tokens@, pos as int) {
            assert(lone_atom(tokens@, pos + 2));
            assert(before.ast.expr_map()[expr.0] == ctx.ast.expr_map()[expr.0]);
        }
    }
    Ok((id, q4))
}

/// Parses `var name (: type)? = expr;`.
fn parse_var_decl(tokens: &[Token], pos: usize, ctx: &mut ParseCtx) -> (r: Result<(MetaNodeId, usize), ParseError>)
    requires
        parse_pre(tokens@, pos, *old(ctx)),
        kind_at(tokens@, pos as int) == Some(TokenType::Var),
    ensures
        stmt_result(tokens@, pos, *old(ctx), *final(ctx), r),
        var_literal_at(tokens@, pos as int) ==> declared_literal(tokens@, pos as int, *final(ctx), r),
        span_at_start(tokens@, pos as int, *final(ctx), r),
    decreases tokens@.len() - pos, 37nat,
{
    let start_loc = tok_loc(tokens, pos);
    let (name, q) = consume_ident(tokens, pos + 1)?;
    let (type_annotation, q2) = parse_type_annot(tokens, q);
    let (_e, q3) = consume(tokens, q2, TokenType::Equal)?;
    let (expr, q4) = parse_expr(tokens, q3, ctx)?;
    let (_s, q5) = consume(tokens, q4, TokenType::Semicolon)?;
    let ghost before = *ctx;
    let id = new_stmt(ctx, MetaStmt::VarDecl { name, type_annotation, expr });
    ctx.record_span(id, start_loc);
    proof {
        if var_literal_at(tokens@, pos as int) {
            assert(lone_atom(tokens@, pos + 3));
            assert(before.ast.expr_map()[expr.0] == ctx.ast.expr_map()[expr.0]);
        }
    }
    Ok((id, q5))
}

fn parse_stmt(tokens: &[Token], pos: usize, ctx: &mut ParseCtx) -> (r: Result<(MetaNodeId, usize), ParseError>)
    requires
        parse_pre(tokens@, pos, *old(ctx)),
    ensures
        stmt_result(tokens@, pos, *old(ctx), *final(ctx), r),
        print_literal_at(tokens@, pos as int) ==> printed_literal(tokens@, pos as int, *final(ctx), r),
        var_literal_at(tokens@, pos as int) ==> declared_literal(tokens@, pos as int, *final(ctx), r),
        c_style_for_at(tokens@, pos as int) ==> (r matches Ok((id, _)) ==> for_loop_node(final(ctx).ast, id)),
        pos < tokens@.len() && located_stmt_kind(tokens@[pos as int].token_type) ==> span_at_start(tokens@, pos as int, *final(ctx), r),
        kind_at(tokens@, pos as int) == Some(TokenType::If) ==> if_read(tokens@, *old(ctx), *final(ctx), r),
    decreases tokens@.len() - pos, 38nat,
{
    let start_loc = tok_loc(tokens, pos);
    if pos >= tokens.len() {
        return parse_expr_stmt(tokens, pos, ctx);
    }
    let p1 = pos + 1;
    match tokens[pos].token_type {
        TokenType::Print => parse_print(tokens, pos, ctx),
        TokenType::If => parse_if_stmt(tokens, pos, ctx),
        TokenType::While => {
            let (_l, q) = consume(tokens, p1, TokenType::LeftParen)?;
            let (cond, q2) = parse_expr(tokens, q, ctx)?;
            let (_r, q3) = consume(tokens, q2, TokenType::RightParen)?;
            let (body, q4) = parse_braced_block(tokens, q3, ctx)?;
            let id = new_stmt(ctx, MetaStmt::WhileLoop { cond, body });
            Ok((id, q4))
        },
        TokenType::For => parse_for_stmt(tokens, pos, ctx),
        TokenType::Var => parse_var_decl(tokens, pos, ctx),
        TokenType::Func => {
            let (name, q) = consume_field_name(tokens, p1)?;
            let (type_params, q2) = parse_type_params(tokens, q);
            let (_l, q3) = consume(tokens, q2, TokenType::LeftParen)?;
            let (params, q4) = parse_params(tokens, q3, TokenType::Comma, TokenType::RightParen)?;
            let (_r, q5) = consume(tokens, q4, TokenType::RightParen)?;
            let (ret_ty, q6) = parse_return_type(tokens, q5);
            let (body, q7) = parse_braced_block(tokens, q6, ctx)?;
            let id = new_stmt(ctx, MetaStmt::FnDecl { name, params, type_params, ret_ty, body });
            ctx.record_span(id, start_loc);
            Ok((id, q7))
        },
        TokenType::Struct => parse_struct_decl(tokens, pos, ctx),
        TokenType::Return => {
            let (opt_expr, q) = if check(tokens, p1, TokenType::Semicolon) {
                (None, p1)
            } else {
                let (e, q2) = parse_expr(tokens, p1, ctx)?;
                (Some(e), q2)
            };
            let (_s, q3) = consume(tokens, q, TokenType::Semicolon)?;
            let id = new_stmt(ctx, MetaStmt::Return(opt_expr));
            ctx.record_span(id, start_loc);
            Ok((id, q3))
        },
        TokenType::Defer => {
            let (deferred, q) = parse_stmt(tokens, p1, ctx)?;
            let id = new_stmt(ctx, MetaStmt::Defer(deferred));
            ctx.record_span(id, start_loc);
            Ok((id, q))
        },
        TokenType::Gen => {
            let (stmt, q) = parse_stmt(tokens, p1, ctx)?;
            let id = new_stmt(ctx, MetaStmt::Gen(vec![stmt]));
            Ok((id, q))
        },
        TokenType::LeftBrace => {
            // `{ ident :` starts an object literal expression, not a block.
            if check_ahead(tokens, pos, 1, TokenType::Identifier) && check_ahead(tokens, pos, 2, TokenType::Colon) {
                parse_expr_stmt(tokens, pos, ctx)
            } else {
                parse_braced_block(tokens, pos, ctx)
            }
        },
        TokenType::Enum => parse_enum_decl(tokens, pos, ctx),
        TokenType::Match => parse_match_stmt(tokens, pos, ctx),
        TokenType::Effect => parse_effect_decl(tokens, pos, ctx),
        // `run { body } handle ... {}` used as a statement; the `;` is optional.
        TokenType::Run => {
            let (expr, q) = parse_expr(tokens, pos, ctx)?;
            let mut q2 = q;
            if check(tokens, q, TokenType::Semicolon) {
                q2 = q + 1;
            }
            let id = new_stmt(ctx, MetaStmt::ExprStmt(expr));
            ctx.record_span(id, start_loc);
            Ok((id, q2))
        },
        TokenType::Handler | TokenType::Handle => parse_handler_def(tokens, pos, ctx),
        TokenType::Resume => parse_resume(tokens, pos, ctx),
        TokenType::Meta => parse_meta_stmt(tokens, pos, ctx),
        TokenType::Import => {
            let (decl, q) = parse_import_decl(tokens, p1)?;
            let (_s, q2) = consume(tokens, q, TokenType::Semicolon)?;
            let id = new_stmt(ctx, MetaStmt::Import(decl));
            Ok((id, q2))
        },
        TokenType::Identifier => parse_ident_stmt(tokens, pos, ctx),
        TokenType::Trait => parse_trait_decl(tokens, pos, ctx),
        TokenType::Impl => parse_impl_decl(tokens, pos, ctx),
        _ => parse_expr_stmt(tokens, pos, ctx),
    }
}

/// `id` is the `if` statement read at `pos` and ending at `p`: its body is
/// a block, and its `else` branch is there exactly when `else` follows the
/// body. With no `else` branch, the `if` is made right after its body block
/// (nothing read after the body is dropped) and the token at `p` is not
/// `else`; with one, the branch is a statement made after the body.
pub open spec fn if_node(tokens: Seq<Token>, old: ParseCtx, new: ParseCtx, id: MetaNodeId, p: usize) -> bool {
    match new.ast.stmt_map()[id.0] {
        MetaStmt::If { cond, body, else_branch } =>
            new.ast.expr_map().contains_key(cond.0)
            && new.ast.stmt_map().contains_key(body.0) && new.ast.stmt_map()[body.0] is Block
            && old.id_provider.counter() <= body.0
            && match else_branch {
                None => id.0 == body.0 + 1 && kind_at(tokens, p as int) != Some(TokenType::Else),
                Some(x) => new.ast.stmt_map().contains_key(x.0) && body.0 < x.0 && x.0 < id.0,
            },
        _ => false,
    }
}

/// `r` read an `if` statement (see `if_node`).
pub open spec fn if_read(tokens: Seq<Token>, old: ParseCtx, new: ParseCtx, r: Result<(MetaNodeId, usize), ParseError>) -> bool {
    r matches Ok((id, p)) ==> if_node(tokens, old, new, id, p)
}

/// An `if` read without an `else` branch stops where no `else` follows
/// and made nothing after its body: an `else` and its statement are never
/// read and dropped.
pub proof fn law_if_else_not_dropped(tokens: Seq<Token>, old: ParseCtx, new: ParseCtx, id: MetaNodeId, p: usize)
    requires
        if_read(tokens, old, new, Ok((id, p))),
        new.ast.stmt_map()[id.0] matches MetaStmt::If { else_branch: None, .. },
    ensures
        kind_at(tokens, p as int) != Some(TokenType::Else),
        new.ast.stmt_map()[id.0]->If_body.0 + 1 == id.0,
{
}

/// Parses `if (cond) { body }` with an optional `else { stmt }` or `else if ...`.
fn parse_if_stmt(tokens: &[Token], pos: usize, ctx: &mut ParseCtx) -> (r: Result<(MetaNodeId, usize), ParseError>)
    requires
        parse_pre(tokens@, pos, *old(ctx)),
    ensures
        stmt_result(tokens@, pos, *old(ctx), *final(ctx), r),
        if_read(tokens@, *old(ctx), *final(ctx), r),
    decreases tokens@.len() - pos, 36nat,
{
    let (_k, p1) = consume(tokens, pos, TokenType::If)?;
    let (_l, q) = consume(tokens, p1, TokenType::LeftParen)?;
    let (cond, q2) = parse_expr(tokens, q, ctx)?;
    let (_r, q3) = consume(tokens, q2, TokenType::RightParen)?;
    let (inner, q4) = parse_braced_block(tokens, q3, ctx)?;
    let ghost cb = *ctx;
    let (else_branch, q5) = if check(tokens, q4, TokenType::Else) {
        if check(tokens, q4 + 1, TokenType::If) {
            let (s, q6) = parse_stmt(tokens, q4 + 1, ctx)?;
            (Some(s), q6)
        } else {
            let (_l2, q6) = consume(tokens, q4 + 1, TokenType::LeftBrace)?;
            let (s, q7) = parse_stmt(tokens, q6, ctx)?;
            let (_r2, q8) = consume(tokens, q7, TokenType::RightBrace)?;
            (Some(s), q8)
        }
    } else {
        (None, q4)
    };
    let ghost ce = *ctx;
    let id = new_stmt(ctx, MetaStmt::If { cond, body: inner, else_branch });
    proof {
        assert(cb.ast.stmt_map().contains_key(inner.0));
        assert(ce.ast.stmt_map().contains_key(inner.0) && ce.ast.stmt_map()[inner.0] == cb.ast.stmt_map()[inner.0]);
        assert(ctx.ast.stmt_map()[inner.0] == ce.ast.stmt_map()[inner.0]);
        assert(ce.ast.expr_map().contains_key(cond.0));
        match else_branch {
            Some(x) => {
                assert(cb.id_provider.counter() <= x.0);
                assert(ce.ast.stmt_map().contains_key(x.0));
                assert(x.0 < ce.id_provider.counter());
            },
            None => {
                assert(ce.id_provider.counter() == cb.id_provider.counter());
            },
        }
        assert(if_node(tokens@, *old(ctx), *ctx, id, q5));
    }
    Ok((id, q5))
}

/// At `pos` stands a C-style `for (init; cond; incr)`: `for (` then `var`,
/// or a name that `in` does not follow.
pub open spec fn c_style_for_at(tokens: Seq<Token>, pos: int) -> bool {
    &&& kind_at(tokens, pos) == Some(TokenType::For)
    &&& kind_at(tokens, pos + 2) == Some(TokenType::Var)
        || (kind_at(tokens, pos + 2) == Some(TokenType::Identifier) && kind_at(tokens, pos + 3) != Some(TokenType::In))
}

/// `b` is `{ { body } incr }`: a block, then an assignment.
pub open spec fn body_then_incr(ast: MetaAst, b: MetaNodeId) -> bool {
    match ast.stmt_map()[b.0] {
        MetaStmt::Block(inner) => inner@.len() == 2 && ast.stmt_map()[inner@[0].0] is Block
            && ast.stmt_map()[inner@[1].0] is Assign,
        _ => false,
    }
}

/// `w` is `while (cond) { { body } incr }`.
pub open spec fn while_with_incr(ast: MetaAst, w: MetaNodeId) -> bool {
    match ast.stmt_map()[w.0] {
        MetaStmt::WhileLoop { cond, body } => ast.expr_map().contains_key(cond.0) && ast.stmt_map().contains_key(body.0)
            && body_then_incr(ast, body),
        _ => false,
    }
}

/// `id` is what a C-style `for (init; cond; incr) { body }` becomes:
/// `{ init; while (cond) { { body } incr } }`, the increment an assignment
/// that runs after the body.
pub open spec fn for_loop_node(ast: MetaAst, id: MetaNodeId) -> bool {
    match ast.stmt_map()[id.0] {
        MetaStmt::Block(outer) => outer@.len() == 2 && ast.stmt_map().contains_key(outer@[0].0)
            && ast.stmt_map().contains_key(outer@[1].0) && while_with_incr(ast, outer@[1]),
        _ => false,
    }
}

/// Parses `for (name in iterable) { body }` or the C-style
/// `for (init; cond; incr) { body }`, which becomes
/// `{ init; while (cond) { { body } incr } }`.
fn parse_for_stmt(tokens: &[Token], pos: usize, ctx: &mut ParseCtx) -> (r: Result<(MetaNodeId, usize), ParseError>)
    requires
        parse_pre(tokens@, pos, *old(ctx)),
    ensures
        stmt_result(tokens@, pos, *old(ctx), *final(ctx), r),
        c_style_for_at(tokens@, pos as int) ==> (r matches Ok((id, _)) ==> for_loop_node(final(ctx).ast, id)),
    decreases tokens@.len() - pos, 36nat,
{
    let (_k, p1) = consume(tokens, pos, TokenType::For)?;
    let (_l, q) = consume(tokens, p1, TokenType::LeftParen)?;
    // `for (var ...` or `for (x ...` without `in` is the C-style form.
    let is_c_style = check(tokens, q, TokenType::Var)
        || (check(tokens, q, TokenType::Identifier) && !check_ahead(tokens, q, 1, TokenType::In));
    if is_c_style {
        // init reads its own `;`
        let (init, q2) = parse_stmt(tokens, q, ctx)?;
        let (cond, q3) = parse_expr(tokens, q2, ctx)?;
        let (_s, q4) = consume(tokens, q3, TokenType::Semicolon)?;
        let (incr, q5) = parse_for_incr(tokens, q4, ctx)?;
        proof { assert(assign_to(ctx.ast, incr, tokens@[q4 as int].spec_str())); }
        let ghost a5 = ctx.ast;
        let (_r, q6) = consume(tokens, q5, TokenType::RightParen)?;
        let (body_inner, q7) = parse_braced_block(tokens, q6, ctx)?;
        proof {
            assert(a5.stmt_map().contains_key(incr.0));
            assert(ctx.ast.stmt_map().contains_key(incr.0));
            assert(ctx.ast.stmt_map()[incr.0] == a5.stmt_map()[incr.0]);
            assert(ctx.ast.stmt_map().contains_key(body_inner.0));
        }
        let inner = vec![body_inner, incr];
        assert(inner@[0] == body_inner && inner@[1] == incr && inner@.len() == 2);
        let ghost a6 = ctx.ast;
        let while_body = new_stmt(ctx, MetaStmt::Block(inner));
        proof {
            assert(incr.0 < while_body.0 && body_inner.0 < while_body.0);
            assert(ctx.ast.stmt_map()[incr.0] == a6.stmt_map()[incr.0]);
            assert(ctx.ast.stmt_map()[body_inner.0] == a6.stmt_map()[body_inner.0]);
            assert(body_then_incr(ctx.ast, while_body));
        }
        let ghost a7 = ctx.ast;
        let while_stmt = new_stmt(ctx, MetaStmt::WhileLoop { cond, body: while_body });
        let ghost a8 = ctx.ast;
        proof {
            assert(ctx.ast.stmt_map()[while_body.0] == a7.stmt_map()[while_body.0]);
            assert(ctx.ast.stmt_map()[incr.0] == a7.stmt_map()[incr.0]);
            assert(ctx.ast.stmt_map()[body_inner.0] == a7.stmt_map()[body_inner.0]);
        }
        let outer = vec![init, while_stmt];
        assert(outer@[0] == init && outer@[1] == while_stmt && outer@.len() == 2);
        let id = new_stmt(ctx, MetaStmt::Block(outer));
        proof {
            assert(body_then_incr(a8, while_body));
            assert(while_with_incr(a8, while_stmt));
            assert(ctx.ast.stmt_map()[while_stmt.0] == a8.stmt_map()[while_stmt.0]);
            assert(ctx.ast.stmt_map()[while_body.0] == a8.stmt_map()[while_body.0]);
            assert(ctx.ast.stmt_map()[incr.0] == a8.stmt_map()[incr.0]);
            assert(ctx.ast.stmt_map()[body_inner.0] == a8.stmt_map()[body_inner.0]);
            assert(body_then_incr(ctx.ast, while_body));
            assert(while_with_incr(ctx.ast, while_stmt));
        }
        Ok((id, q7))
    } else {
        let (name, q2) = consume_ident(tokens, q)?;
        let (_i, q3) = consume(tokens, q2, TokenType::In)?;
        let (iter, q4) = parse_expr(tokens, q3, ctx)?;
        let (_r, q5) = consume(tokens, q4, TokenType::RightParen)?;
        let (inner, q6) = parse_braced_block(tokens, q5, ctx)?;
        let id = new_stmt(ctx, MetaStmt::ForEach { var: ForVar::Name(name), iterable: iter, body: inner });
        Ok((id, q6))
    }
}

/// Parses `struct Name<T> { field: Type; ... }` (type parameters are dropped).
fn parse_struct_decl(tokens: &[Token], pos: usize, ctx: &mut ParseCtx) -> (r: Result<(MetaNodeId, usize), ParseError>)
    requires
        parse_pre(tokens@, pos, *old(ctx)),
    ensures
        stmt_result(tokens@, pos, *old(ctx), *final(ctx), r),
{
    let (_k, p1) = consume(tokens, pos, TokenType::Struct)?;
    let (name, q) = consume_ident(tokens, p1)?;
    let (_tps, q2) = parse_type_params(tokens, q);
    let (_l, q3) = consume(tokens, q2, TokenType::LeftBrace)?;
    let (fields, q4) = parse_struct_field_decls(tokens, q3, TokenType::Semicolon, TokenType::RightBrace)?;
    let (_r, q5) = consume(tokens, q4, TokenType::RightBrace)?;
    let id = new_stmt(ctx, MetaStmt::StructDecl { name, fields });
    Ok((id, q5))
}

/// Parses `match scrutinee { Pattern => { stmts } ... Pattern => expr, ... }`.
/// An expression arm returns its value. The scrutinee is read with trailing
/// lambdas off, so `match x {` does not read `x { .. }` as a call.
fn parse_match_stmt(tokens: &[Token], pos: usize, ctx: &mut ParseCtx) -> (r: Result<(MetaNodeId, usize), ParseError>)
    requires
        parse_pre(tokens@, pos, *old(ctx)),
    ensures
        stmt_result(tokens@, pos, *old(ctx), *final(ctx), r),
    decreases tokens@.len() - pos, 36nat,
{
    let ghost c0 = *ctx;
    let (_k, p1) = consume(tokens, pos, TokenType::Match)?;
    ctx.allow_trailing_brace = false;
    let (scrutinee, q) = parse_expr(tokens, p1, ctx)?;
    ctx.allow_trailing_brace = true;
    let (_l, q2) = consume(tokens, q, TokenType::LeftBrace)?;
    let mut arms: Vec<MatchArm> = Vec::new();
    let mut p = q2;
    while !check(tokens, p, TokenType::RightBrace)
        invariant
            parse_pre(tokens@, p, *ctx),
            parse_pre(tokens@, pos, c0),
            pos < p,
            ctx.ast.extends(&c0.ast),
            spans_kept(c0, *ctx),
            ctx.ast.roots() == c0.ast.roots(),
            budget(*ctx, tokens@.len() as int, p as int) + 8 <= budget(c0, tokens@.len() as int, pos as int),
            ctx.ast.expr_map().contains_key(scrutinee.0),
            present(arm_ids(arms@), ctx.ast.stmt_map()),
        decreases tokens@.len() - p,
    {
        let (pattern, q3) = parse_pattern(tokens, p)?;
        let (_a, q4) = consume(tokens, q3, TokenType::FatArrow)?;
        let (body, q5) = if check(tokens, q4, TokenType::LeftBrace) {
            parse_braced_block(tokens, q4, ctx)?
        } else {
            ctx.allow_trailing_brace = false;
            let (expr, q6) = parse_expr(tokens, q4, ctx)?;
            ctx.allow_trailing_brace = true;
            let ret_id = new_stmt(ctx, MetaStmt::Return(Some(expr)));
            let mut q7 = q6;
            if check(tokens, q6, TokenType::Comma) {
                q7 = q6 + 1;
            }
            (ret_id, q7)
        };
        let ghost old_arms = arms@;
        arms.push(MatchArm { pattern, body });
        assert(arm_ids(arms@) =~= arm_ids(old_arms).push(body));
        p = q5;
    }
    let (_r, q8) = consume(tokens, p, TokenType::RightBrace)?;
    let id = new_stmt(ctx, MetaStmt::Match { scrutinee, arms });
    Ok((id, q8))
}

/// Parses `handler name : effect_name { ops }` or `handle name { ops }`.
fn parse_handler_def(tokens: &[Token], pos: usize, ctx: &mut ParseCtx) -> (r: Result<(MetaNodeId, usize), ParseError>)
    requires
        parse_pre(tokens@, pos, *old(ctx)),
        kind_at(tokens@, pos as int) == Some(TokenType::Handler)
            || kind_at(tokens@, pos as int) == Some(TokenType::Handle),
    ensures
        stmt_result(tokens@, pos, *old(ctx), *final(ctx), r),
        span_at_start(tokens@, pos as int, *final(ctx), r),
    decreases tokens@.len() - pos, 36nat,
{
    let start_loc = tok_loc(tokens, pos);
    let named_effect = tokens[pos].token_type == TokenType::Handler;
    let (name, q) = consume_field_name(tokens, pos + 1)?;
    let (effect_name, q3) = if named_effect {
        let (_c, q1) = consume(tokens, q, TokenType::Colon)?;
        let (e, q2) = consume_ident(tokens, q1)?;
        (Some(e), q2)
    } else {
        (None, q)
    };
    let (_l, q4) = consume(tokens, q3, TokenType::LeftBrace)?;
    let (ops, q5) = parse_handler_ops(tokens, q4, ctx)?;
    let (_r, q6) = consume(tokens, q5, TokenType::RightBrace)?;
    let id = new_stmt(ctx, MetaStmt::HandlerDef { name, effect_name, ops });
    ctx.record_span(id, start_loc);
    Ok((id, q6))
}

/// Parses a statement that starts with a name: `x++;`, `x--;`, `x += e;`,
/// `x -= e;`, `x.f = e;`, `x[i][j] = e;`, `x = e;`, or an expression statement.
fn parse_ident_stmt(tokens: &[Token], pos: usize, ctx: &mut ParseCtx) -> (r: Result<(MetaNodeId, usize), ParseError>)
    requires
        parse_pre(tokens@, pos, *old(ctx)),
        kind_at(tokens@, pos as int) == Some(TokenType::Identifier),
    ensures
        stmt_result(tokens@, pos, *old(ctx), *final(ctx), r),
    decreases tokens@.len() - pos, 36nat,
{
    let ghost c0 = *ctx;
    assert(tokens@[pos as int].well_formed());
    let p1 = pos + 1;
    if check(tokens, p1, TokenType::PlusPlus) {
        let name = tokens[pos].expect_str();
        let (_s, q) = consume(tokens, p1 + 1, TokenType::Semicolon)?;
        let one = new_expr(ctx, MetaExpr::Int(1));
        Ok((update_stmt(ctx, name, true, one), q))
    } else if check(tokens, p1, TokenType::MinusMinus) {
        let name = tokens[pos].expect_str();
        let (_s, q) = consume(tokens, p1 + 1, TokenType::Semicolon)?;
        let one = new_expr(ctx, MetaExpr::Int(1));
        Ok((update_stmt(ctx, name, false, one), q))
    } else if check(tokens, p1, TokenType::PlusEqual) {
        let name = tokens[pos].expect_str();
        let (rhs, q) = parse_expr(tokens, p1 + 1, ctx)?;
        let (_s, q2) = consume(tokens, q, TokenType::Semicolon)?;
        Ok((update_stmt(ctx, name, true, rhs), q2))
    } else if check(tokens, p1, TokenType::MinusEqual) {
        let name = tokens[pos].expect_str();
        let (rhs, q) = parse_expr(tokens, p1 + 1, ctx)?;
        let (_s, q2) = consume(tokens, q, TokenType::Semicolon)?;
        Ok((update_stmt(ctx, name, false, rhs), q2))
    } else if check(tokens, p1, TokenType::Dot) && check_ahead(tokens, pos, 2, TokenType::Identifier)
        && check_ahead(tokens, pos, 3, TokenType::Equal) {
        let object = tokens[pos].expect_str();
        let (field, q) = consume_ident(tokens, p1 + 1)?;
        let (_e, q2) = consume(tokens, q, TokenType::Equal)?;
        let (expr, q3) = parse_expr(tokens, q2, ctx)?;
        let (_s, q4) = consume(tokens, q3, TokenType::Semicolon)?;
        let id = new_stmt(ctx, MetaStmt::DotAssign { object, field, expr });
        Ok((id, q4))
    } else if check(tokens, p1, TokenType::LeftBracket) {
        let name = tokens[pos].expect_str();
        let mut indices: Vec<MetaNodeId> = Vec::new();
        let mut p = p1;
        while check(tokens, p, TokenType::LeftBracket)
            invariant
                parse_pre(tokens@, p, *ctx),
                parse_pre(tokens@, pos, c0),
                pos < p,
                ctx.ast.extends(&c0.ast),
                spans_kept(c0, *ctx),
                ctx.ast.roots() == c0.ast.roots(),
                budget(*ctx, tokens@.len() as int, p as int) + 8 <= budget(c0, tokens@.len() as int, pos as int),
                present(indices@, ctx.ast.expr_map()),
            decreases tokens@.len() - p,
        {
            let (e, q) = parse_expr(tokens, p + 1, ctx)?;
            indices.push(e);
            let (_r, q2) = consume(tokens, q, TokenType::RightBracket)?;
            p = q2;
        }
        let (_e, q) = consume(tokens, p, TokenType::Equal)?;
        let (expr, q2) = parse_expr(tokens, q, ctx)?;
        let (_s, q3) = consume(tokens, q2, TokenType::Semicolon)?;
        let id = new_stmt(ctx, MetaStmt::IndexAssign { name, indices, expr });
        Ok((id, q3))
    } else if check(tokens, p1, TokenType::Equal) {
        let name = tokens[pos].expect_str();
        let (expr, q) = parse_expr(tokens, p1 + 1, ctx)?;
        let (_s, q2) = consume(tokens, q, TokenType::Semicolon)?;
        let id = new_stmt(ctx, MetaStmt::Assign { name, expr });
        Ok((id, q2))
    } else {
        parse_expr_stmt(tokens, pos, ctx)
    }
}

/// Parses `trait Name { fn method<T>(params) -> Ret; ... }`, keeping the
/// method names (parameters are skipped up to `)`).
fn parse_trait_decl(tokens: &[Token], pos: usize, ctx: &mut ParseCtx) -> (r: Result<(MetaNodeId, usize), ParseError>)
    requires
        parse_pre(tokens@, pos, *old(ctx)),
    ensures
        stmt_result(tokens@, pos, *old(ctx), *final(ctx), r),
{
    let ghost c0 = *ctx;
    let (_k, p1) = consume(tokens, pos, TokenType::Trait)?;
    let (name, q) = consume_ident(tokens, p1)?;
    let (_l, q2) = consume(tokens, q, TokenType::LeftBrace)?;
    let mut method_names: Vec<String> = Vec::new();
    let mut p = q2;
    while !check(tokens, p, TokenType::RightBrace)
        invariant
            tokens_well_formed(tokens@),
            pos < p <= tokens@.len() < usize::MAX,
            *ctx == c0,
            parse_pre(tokens@, pos, c0),
        decreases tokens@.len() - p,
    {
        let (_f, q3) = consume(tokens, p, TokenType::Func)?;
        let (method_name, q4) = consume_ident(tokens, q3)?;
        let (_tps, q5) = parse_type_params(tokens, q4);
        let (_l2, q6) = consume(tokens, q5, TokenType::LeftParen)?;
        let mut q7 = q6;
        while q7 < tokens.len() && !check(tokens, q7, TokenType::RightParen)
            invariant
                pos < p < q7 <= tokens@.len() < usize::MAX,
            decreases tokens@.len() - q7,
        {
            q7 = q7 + 1;
        }
        let (_r, q8) = consume(tokens, q7, TokenType::RightParen)?;
        let (_ret, q9) = parse_return_type(tokens, q8);
        let (_s, q10) = consume(tokens, q9, TokenType::Semicolon)?;
        method_names.push(method_name);
        p = q10;
    }
    let (_r2, q11) = consume(tokens, p, TokenType::RightBrace)?;
    let id = new_stmt(ctx, MetaStmt::TraitDecl { name, methods: method_names });
    Ok((id, q11))
}

/// Parses `import "path";`, `import "path" as alias;`, `import "dir/*";` or
/// `import { a, b } from "path";` after the keyword (the `;` is not read).
fn parse_import_decl(tokens: &[Token], pos: usize) -> (r: Result<(ImportDecl, usize), ParseError>)
    requires
        tokens_well_formed(tokens@),
        pos <= tokens@.len() < usize::MAX,
    ensures
        match r {
            Ok((_d, p)) => pos < p <= tokens@.len(),
            Err(e) => located(tokens@, e),
        },
{
    if check(tokens, pos, TokenType::LeftBrace) {
        let (names, q) = parse_name_list(tokens, pos + 1, TokenType::Comma, TokenType::RightBrace)?;
        let (_r, q2) = consume(tokens, q, TokenType::RightBrace)?;
        let (_f, q3) = consume(tokens, q2, TokenType::From)?;
        let (path, q4) = consume_string(tokens, q3)?;
        Ok((ImportDecl::Selective { names, path }, q4))
    } else {
        let (path, q) = consume_string(tokens, pos)?;
        if ends_with_slash_star(&path) {
            let dir = strip_slash_stars(&path);
            Ok((ImportDecl::Wildcard { path: dir }, q))
        } else if check(tokens, q, TokenType::As) {
            let (alias, q2) = consume_ident(tokens, q + 1)?;
            Ok((ImportDecl::Aliased { path, alias }, q2))
        } else {
            Ok((ImportDecl::Qualified { path }, q))
        }
    }
}

/// Parses `enum Name<T> { Variant<A>(T, ...) : Ret, Variant { f: T; ... }, ... }`.
fn parse_enum_decl(tokens: &[Token], pos: usize, ctx: &mut ParseCtx) -> (r: Result<(MetaNodeId, usize), ParseError>)
    requires
        parse_pre(tokens@, pos, *old(ctx)),
    ensures
        stmt_result(tokens@, pos, *old(ctx), *final(ctx), r),
{
    let ghost c0 = *ctx;
    let (_e, p0) = consume(tokens, pos, TokenType::Enum)?;
    let (name, p1) = consume_ident(tokens, p0)?;
    // GADT: optional type parameters, e.g. `enum Expr<T>`
    let (type_params, p2) = parse_type_params(tokens, p1);
    let (_l, mut p) = consume(tokens, p2, TokenType::LeftBrace)?;
    let mut variants: Vec<EnumVariant> = Vec::new();
    while !check(tokens, p, TokenType::RightBrace)
        invariant
            tokens_well_formed(tokens@),
            pos < p <= tokens@.len() < usize::MAX,
            *ctx == c0,
            parse_pre(tokens@, pos, c0),
        decreases tokens@.len() - p,
    {
        let (variant_name, q) = consume_ident(tokens, p)?;
        // GADT: constructor-local type variables, e.g. `If<A>(...)`
        let (local_type_params, q2) = parse_type_params(tokens, q);
        let (payload, q3) = if check(tokens, q2, TokenType::LeftParen) {
            let (types, q4) = parse_type_expr_list(tokens, q2 + 1, TokenType::Comma, TokenType::RightParen)?;
            let (_r, q5) = consume(tokens, q4, TokenType::RightParen)?;
            (VariantPayload::Tuple(types), q5)
        } else if check(tokens, q2, TokenType::LeftBrace) {
            let (fields, q4) = parse_variant_field_decls(tokens, q2 + 1, TokenType::Semicolon, TokenType::RightBrace)?;
            let (_r, q5) = consume(tokens, q4, TokenType::RightBrace)?;
            (VariantPayload::Struct(fields), q5)
        } else {
            (VariantPayload::Unit, q2)
        };
        // GADT: return-type annotation, e.g. `: Expr<int>`
        let (return_type, q6) = if check(tokens, q3, TokenType::Colon) {
            let (t, q7) = parse_type_expr(tokens, q3 + 1);
            let t = t?;
            (Some(t), q7)
        } else {
            (None, q3)
        };
        variants.push(EnumVariant { name: variant_name, local_type_params, payload, return_type });
        // variants are separated by commas; a trailing comma is allowed
        let mut q8 = q6;
        if check(tokens, q6, TokenType::Comma) {
            q8 = q6 + 1;
        }
        p = q8;
    }
    let (_r, q9) = consume(tokens, p, TokenType::RightBrace)?;
    let id = new_stmt(ctx, MetaStmt::EnumDecl { name, type_params, variants });
    Ok((id, q9))
}

/// Parses `impl Type { fn ... }` or `impl Trait for Type { fn ... }`.
fn parse_impl_decl(tokens: &[Token], pos: usize, ctx: &mut ParseCtx) -> (r: Result<(MetaNodeId, usize), ParseError>)
    requires
        parse_pre(tokens@, pos, *old(ctx)),
    ensures
        stmt_result(tokens@, pos, *old(ctx), *final(ctx), r),
    decreases tokens@.len() - pos, 36nat,
{
    let ghost c0 = *ctx;
    let (_i, p0) = consume(tokens, pos, TokenType::Impl)?;
    let (first_name, p1) = consume_ident(tokens, p0)?;
    let (_tps, p2) = parse_type_params(tokens, p1);
    // bare `impl TypeName { ... }` has no trait
    let (trait_name, target_type, p3) = if check(tokens, p2, TokenType::For) {
        let (target, q) = consume_ident(tokens, p2 + 1)?;
        let (_tps2, q2) = parse_type_params(tokens, q);
        (first_name, target, q2)
    } else {
        (String::new(), first_name, p2)
    };
    let (_l, mut p) = consume(tokens, p3, TokenType::LeftBrace)?;
    let mut methods: Vec<ImplMethodDecl> = Vec::new();
    while !check(tokens, p, TokenType::RightBrace)
        invariant
            parse_pre(tokens@, p, *ctx),
            parse_pre(tokens@, pos, c0),
            pos < p,
            ctx.ast.extends(&c0.ast),
            spans_kept(c0, *ctx),
            ctx.ast.roots() == c0.ast.roots(),
            budget(*ctx, tokens@.len() as int, p as int) + 8 <= budget(c0, tokens@.len() as int, pos as int),
            present(method_ids(methods@), ctx.ast.stmt_map()),
        decreases tokens@.len() - p,
    {
        let (_f, q) = consume(tokens, p, TokenType::Func)?;
        let (method_name, q2) = consume_ident(tokens, q)?;
        let (_tps3, q3) = parse_type_params(tokens, q2);
        let (_l2, q4) = consume(tokens, q3, TokenType::LeftParen)?;
        let (params, q5) = parse_params(tokens, q4, TokenType::Comma, TokenType::RightParen)?;
        let (_r, q6) = consume(tokens, q5, TokenType::RightParen)?;
        let (_ret, q7) = parse_return_type(tokens, q6);
        let (body, q8) = parse_braced_block(tokens, q7, ctx)?;
        let ghost old_methods = methods@;
        methods.push(ImplMethodDecl { name: method_name, params, body });
        assert(method_ids(methods@) =~= method_ids(old_methods).push(body));
        p = q8;
    }
    let (_r2, q9) = consume(tokens, p, TokenType::RightBrace)?;
    let id = new_stmt(ctx, MetaStmt::ImplDecl { trait_name, target_type, methods });
    Ok((id, q9))
}

/// The statements that take the location of their first token: `var` and
/// `func` declarations, `return`, `defer`, `run` and handler definitions.
pub open spec fn located_stmt_kind(t: TokenType) -> bool {
    t == TokenType::Var || t == TokenType::Func || t == TokenType::Return || t == TokenType::Defer
        || t == TokenType::Run || t == TokenType::Handler || t == TokenType::Handle
}

/// `r` gave its statement the line and column of the token at `pos`.
pub open spec fn span_at_start(tokens: Seq<Token>, pos: int, new: ParseCtx, r: Result<(MetaNodeId, usize), ParseError>) -> bool {
    r matches Ok((id, _)) ==> new.span_table@.contains_key(id.0)
        && new.span_table@[id.0] == (tokens[pos].line_number, tokens[pos].col)
}

/// `starts` are the first tokens of the statements `roots`, in order, the
/// first at the start of input; each statement of a located kind has the
/// line and column of its first token.
pub open spec fn starts_ok(tokens: Seq<Token>, ctx: ParseCtx, roots: Seq<MetaNodeId>, starts: Seq<int>) -> bool {
    &&& starts.len() == roots.len()
    &&& roots.len() > 0 ==> starts[0] == 0
    &&& forall|j: int| 0 <= j < starts.len() ==> 0 <= #[trigger] starts[j] < tokens.len()
        && (j > 0 ==> starts[j - 1] < starts[j])
        && (located_stmt_kind(tokens[starts[j]].token_type) ==> ctx.span_table@.contains_key(roots[j].0)
            && ctx.span_table@[roots[j].0] == (tokens[starts[j]].line_number, tokens[starts[j]].col))
}

/// Each top-level statement that was read has its first token's location,
/// where its kind takes one.
pub open spec fn root_spans(tokens: Seq<Token>, ctx: ParseCtx, roots: Seq<MetaNodeId>) -> bool {
    exists|starts: Seq<int>| #[trigger] starts_ok(tokens, ctx, roots, starts)
}

/// One more top-level statement, read from `pos`, keeps `starts_ok`.
proof fn lemma_starts_push(tokens: Seq<Token>, c1: ParseCtx, c2: ParseCtx, c3: ParseCtx, roots: Seq<MetaNodeId>,
    id: MetaNodeId, starts: Seq<int>, pos: int)
    requires
        starts_ok(tokens, c1, roots, starts),
        starts.len() > 0 ==> starts.last() < pos,
        starts.len() == 0 ==> pos == 0,
        0 <= pos < tokens.len(),
        forall|j: int| 0 <= j < roots.len() ==> c1.ast.stmt_map().contains_key(#[trigger] roots[j].0),
        ctx_inv(c1),
        spans_kept(c1, c2),
        c3.span_table == c2.span_table,
        located_stmt_kind(tokens[pos].token_type) ==> c2.span_table@.contains_key(id.0)
            && c2.span_table@[id.0] == (tokens[pos].line_number, tokens[pos].col),
    ensures
        starts_ok(tokens, c3, roots.push(id), starts.push(pos)),
{
    let st = starts.push(pos);
    let nr = roots.push(id);
    assert forall|j: int| 0 <= j < st.len() implies 0 <= #[trigger] st[j] < tokens.len()
        && (j > 0 ==> st[j - 1] < st[j])
        && (located_stmt_kind(tokens[st[j]].token_type) ==> c3.span_table@.contains_key(nr[j].0)
            && c3.span_table@[nr[j].0] == (tokens[st[j]].line_number, tokens[st[j]].col)) by {
        if j < starts.len() {
            assert(st[j] == starts[j]);
            assert(nr[j] == roots[j]);
            assert(c1.ast.stmt_map().contains_key(roots[j].0));
            assert(roots[j].0 < c1.id_provider.counter());
            assert(c2.span_table@.get(roots[j].0) == c1.span_table@.get(roots[j].0));
            if j > 0 { assert(st[j - 1] == starts[j - 1]); }
        } else {
            assert(st[j] == pos);
            assert(nr[j] == id);
            if j > 0 { assert(st[j - 1] == starts.last()); }
        }
    }
    if starts.len() == 0 { assert(st[0] == 0); }
}

/// Parses every top-level statement up to the end of input (or an `EOF`
/// token) and appends them to the tree's top-level list.
pub fn parse(tokens: &[Token], ctx: &mut ParseCtx) -> (r: Result<(), ParseError>)
    requires
        parse_pre(tokens@, 0, *old(ctx)),
        present(old(ctx).ast.roots(), old(ctx).ast.stmt_map()),
    ensures
        ctx_inv(*final(ctx)),
        match r {
            Ok(()) => {
                &&& final(ctx).ast.extends(&old(ctx).ast)
                &&& final(ctx).ast.roots().len() >= old(ctx).ast.roots().len()
                &&& final(ctx).ast.roots().subrange(0, old(ctx).ast.roots().len() as int) == old(ctx).ast.roots()
                &&& present(final(ctx).ast.roots(), final(ctx).ast.stmt_map())
                &&& final(ctx).ast.roots().len() - old(ctx).ast.roots().len() <= tokens@.len()
            },
            Err(e) => located(tokens@, e),
        },
        forall|n: nat| #[trigger] simple_program(tokens@, n) ==> r is Ok && simple_parsed(tokens@, final(ctx).ast,
            final(ctx).ast.roots().skip(old(ctx).ast.roots().len() as int), n),
        r is Ok ==> root_spans(tokens@, *final(ctx), final(ctx).ast.roots().skip(old(ctx).ast.roots().len() as int)),
{
    let ghost c0 = *ctx;
    let mut pos: usize = 0;
    let ghost mut k: nat = 0;
    let ghost mut starts: Seq<int> = Seq::empty();
    proof { assert(ctx.ast.roots().skip(c0.ast.roots().len() as int) =~= Seq::<MetaNodeId>::empty()); }
    while pos < tokens.len() && tokens[pos].token_type != TokenType::EOF
        invariant
            starts_ok(tokens@, *ctx, ctx.ast.roots().skip(c0.ast.roots().len() as int), starts),
            starts.len() > 0 ==> starts.last() < pos,
            starts.len() == 0 ==> pos == 0,
            forall|n: nat| #[trigger] simple_program(tokens@, n) ==> pos == 5 * k && k <= n
                && simple_parsed(tokens@, ctx.ast, ctx.ast.roots().skip(c0.ast.roots().len() as int), k),
            parse_pre(tokens@, pos, *ctx),
            parse_pre(tokens@, 0, c0),
            ctx.ast.extends(&c0.ast),
            spans_kept(c0, *ctx),
            budget(*ctx, tokens@.len() as int, pos as int) <= budget(c0, tokens@.len() as int, 0),
            ctx.ast.roots().len() >= c0.ast.roots().len(),
            ctx.ast.roots().subrange(0, c0.ast.roots().len() as int) == c0.ast.roots(),
            present(ctx.ast.roots(), ctx.ast.stmt_map()),
            ctx.ast.roots().len() - c0.ast.roots().len() <= pos,
        decreases tokens@.len() - pos,
    {
        let ghost before = ctx.ast.roots();
        let ghost c1 = *ctx;
        proof {
            assert forall|n: nat| #[trigger] simple_program(tokens@, n) implies k < n
                && (print_literal_at(tokens@, pos as int) || var_literal_at(tokens@, pos as int)) by {
                if k >= n {
                    assert(pos == 5 * n);
                }
                assert(simple_block(tokens@, k as int));
            }
        }
        let (id, q) = parse_stmt(tokens, pos, ctx)?;
        let ghost c2 = *ctx;
        ctx.ast.push_root(id);
        proof {
            let old_roots = before.skip(c0.ast.roots().len() as int);
            assert(ctx.ast.roots().skip(c0.ast.roots().len() as int) =~= old_roots.push(id));
            assert forall|j: int| 0 <= j < old_roots.len() implies c1.ast.stmt_map().contains_key(#[trigger] old_roots[j].0) by {
                assert(before[c0.ast.roots().len() + j] == old_roots[j]);
            }
            lemma_starts_push(tokens@, c1, c2, *ctx, old_roots, id, starts, pos as int);
            starts = starts.push(pos as int);
        }
        proof {
            assert(c2.ast.extends(&c1.ast));
            assert(ctx.ast.stmt_map() == c2.ast.stmt_map());
            assert(ctx.ast.expr_map() == c2.ast.expr_map());
            assert(ctx.ast.roots().subrange(0, c0.ast.roots().len() as int)
                =~= before.subrange(0, c0.ast.roots().len() as int));
            let old_new = before.skip(c0.ast.roots().len() as int);
            assert(ctx.ast.roots().skip(c0.ast.roots().len() as int) =~= old_new.push(id));
            assert forall|n: nat| #[trigger] simple_program(tokens@, n) implies q == 5 * (k + 1) && k + 1 <= n
                && simple_parsed(tokens@, ctx.ast, ctx.ast.roots().skip(c0.ast.roots().len() as int), k + 1) by {
                let rs = ctx.ast.roots().skip(c0.ast.roots().len() as int);
                assert forall|i: int| 0 <= i < k + 1 implies ctx.ast.stmt_map().contains_key(rs[i].0)
                    && #[trigger] simple_node(tokens@, 5 * i, ctx.ast, rs[i]) by {
                    if i < k {
                        assert(rs[i] == old_new[i]);
                        assert(c1.ast.stmt_map().contains_key(old_new[i].0));
                        assert(simple_node(tokens@, 5 * i, c1.ast, old_new[i]));
                        let s0 = c1.ast.stmt_map()[old_new[i].0];
                        assert(ctx.ast.stmt_map().contains_key(old_new[i].0));
                        assert(ctx.ast.stmt_map()[rs[i].0] == s0);
                        match s0 {
                            MetaStmt::Print(e) => {
                                assert(ctx.ast.expr_map().contains_key(e.0));
                                assert(ctx.ast.expr_map()[e.0] == c1.ast.expr_map()[e.0]);
                            },
                            MetaStmt::VarDecl { expr, .. } => {
                                assert(ctx.ast.expr_map().contains_key(expr.0));
                                assert(ctx.ast.expr_map()[expr.0] == c1.ast.expr_map()[expr.0]);
                            },
                            _ => {},
                        }
                    } else {
                        assert(rs[i] == id);
                    }
                }
            }
            k = k + 1;
        }
        pos = q;
    }
    proof {
        assert forall|n: nat| #[trigger] simple_program(tokens@, n) implies k == n by {
            if k < n {
                assert(simple_block(tokens@, k as int));
            }
        }
        assert(starts_ok(tokens@, *ctx, ctx.ast.roots().skip(c0.ast.roots().len() as int), starts));
    }
    Ok(())
}

} // verus!
