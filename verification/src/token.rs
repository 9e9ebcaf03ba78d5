use vstd::prelude::*;

verus! {

/// The kinds of token the scanner produces and the parser reads.
#[derive(Debug, Clone, Copy, PartialEq, Eq, Structural)]
pub enum TokenType {
    // punctuation
    LeftParen,
    RightParen,
    LeftBrace,
    RightBrace,
    LeftBracket,
    RightBracket,
    Comma,
    Dot,
    Colon,
    DoubleColon,
    Semicolon,
    Arrow,
    FatArrow,
    // operators
    Plus,
    PlusPlus,
    PlusEqual,
    Minus,
    MinusMinus,
    MinusEqual,
    Star,
    Slash,
    Percent,
    Bang,
    BangEqual,
    Equal,
    EqualEqual,
    Less,
    LessEqual,
    Greater,
    GreaterEqual,
    AmpAmp,
    PipePipe,
    // literals
    Identifier,
    String,
    Number,
    True,
    False,
    // keywords
    Var,
    Func,
    Return,
    If,
    Else,
    While,
    For,
    In,
    Print,
    Struct,
    Enum,
    Match,
    Import,
    From,
    As,
    Meta,
    Gen,
    Typeof,
    Embed,
    Defer,
    Effect,
    Ctl,
    Resume,
    Run,
    Handle,
    Handler,
    With,
    Trait,
    Impl,
    EOF,
}

/// The payload a token carries: the text of an identifier or string
/// literal, or the value of a number literal.
#[derive(Debug, Clone)]
pub enum TokenValue {
    Empty,
    Str(String),
    Int(i64),
}

#[derive(Debug, Clone)]
pub struct Token {
    pub token_type: TokenType,
    pub value: TokenValue,
    pub line_number: usize,
    pub col: usize,
}

impl Token {
    /// Identifiers and string literals carry text; number literals carry an integer.
    pub open spec fn well_formed(&self) -> bool {
        &&& (self.token_type == TokenType::Identifier || self.token_type == TokenType::String)
            ==> self.value is Str
        &&& self.token_type == TokenType::Number ==> self.value is Int
    }

    pub open spec fn spec_str(&self) -> Seq<char> {
        match self.value {
            TokenValue::Str(s) => s@,
            _ => Seq::empty(),
        }
    }

    pub open spec fn spec_int(&self) -> i64 {
        match self.value {
            TokenValue::Int(n) => n,
            _ => 0,
        }
    }

    /// The text of an identifier or string literal.
    pub fn expect_str(&self) -> (s: String)
        requires
            self.value is Str,
        ensures
            s@ == self.spec_str(),
    {
        match &self.value {
            TokenValue::Str(s) => s.clone(),
            _ => String::new(),
        }
    }

    /// The value of a number literal.
    pub fn expect_int(&self) -> (n: i64)
        requires
            self.value is Int,
        ensures
            n == self.spec_int(),
    {
        match &self.value {
            TokenValue::Int(n) => *n,
            _ => 0,
        }
    }
}

/// The name of a token kind, as `{:?}` writes it.
pub open spec fn token_type_text(t: TokenType) -> Seq<char> {
    match t {
        TokenType::LeftParen => "LeftParen"@,
        TokenType::RightParen => "RightParen"@,
        TokenType::LeftBrace => "LeftBrace"@,
        TokenType::RightBrace => "RightBrace"@,
        TokenType::LeftBracket => "LeftBracket"@,
        TokenType::RightBracket => "RightBracket"@,
        TokenType::Comma => "Comma"@,
        TokenType::Dot => "Dot"@,
        TokenType::Colon => "Colon"@,
        TokenType::DoubleColon => "DoubleColon"@,
        TokenType::Semicolon => "Semicolon"@,
        TokenType::Arrow => "Arrow"@,
        TokenType::FatArrow => "FatArrow"@,
        TokenType::Plus => "Plus"@,
        TokenType::PlusPlus => "PlusPlus"@,
        TokenType::PlusEqual => "PlusEqual"@,
        TokenType::Minus => "Minus"@,
        TokenType::MinusMinus => "MinusMinus"@,
        TokenType::MinusEqual => "MinusEqual"@,
        TokenType::Star => "Star"@,
        TokenType::Slash => "Slash"@,
        TokenType::Percent => "Percent"@,
        TokenType::Bang => "Bang"@,
        TokenType::BangEqual => "BangEqual"@,
        TokenType::Equal => "Equal"@,
        TokenType::EqualEqual => "EqualEqual"@,
        TokenType::Less => "Less"@,
        TokenType::LessEqual => "LessEqual"@,
        TokenType::Greater => "Greater"@,
        TokenType::GreaterEqual => "GreaterEqual"@,
        TokenType::AmpAmp => "AmpAmp"@,
        TokenType::PipePipe => "PipePipe"@,
        TokenType::Identifier => "Identifier"@,
        TokenType::String => "String"@,
        TokenType::Number => "Number"@,
        TokenType::True => "True"@,
        TokenType::False => "False"@,
        TokenType::Var => "Var"@,
        TokenType::Func => "Func"@,
        TokenType::Return => "Return"@,
        TokenType::If => "If"@,
        TokenType::Else => "Else"@,
        TokenType::While => "While"@,
        TokenType::For => "For"@,
        TokenType::In => "In"@,
        TokenType::Print => "Print"@,
        TokenType::Struct => "Struct"@,
        TokenType::Enum => "Enum"@,
        TokenType::Match => "Match"@,
        TokenType::Import => "Import"@,
        TokenType::From => "From"@,
        TokenType::As => "As"@,
        TokenType::Meta => "Meta"@,
        TokenType::Gen => "Gen"@,
        TokenType::Typeof => "Typeof"@,
        TokenType::Embed => "Embed"@,
        TokenType::Defer => "Defer"@,
        TokenType::Effect => "Effect"@,
        TokenType::Ctl => "Ctl"@,
        TokenType::Resume => "Resume"@,
        TokenType::Run => "Run"@,
        TokenType::Handle => "Handle"@,
        TokenType::Handler => "Handler"@,
        TokenType::With => "With"@,
        TokenType::Trait => "Trait"@,
        TokenType::Impl => "Impl"@,
        TokenType::EOF => "EOF"@,
    }
}

/// The name of a token kind, as `{:?}` writes it.
pub fn token_type_name(t: TokenType) -> (s: &'static str)
    ensures
        s@ == token_type_text(t),
{
    match t {
        TokenType::LeftParen => "LeftParen",
        TokenType::RightParen => "RightParen",
        TokenType::LeftBrace => "LeftBrace",
        TokenType::RightBrace => "RightBrace",
        TokenType::LeftBracket => "LeftBracket",
        TokenType::RightBracket => "RightBracket",
        TokenType::Comma => "Comma",
        TokenType::Dot => "Dot",
        TokenType::Colon => "Colon",
        TokenType::DoubleColon => "DoubleColon",
        TokenType::Semicolon => "Semicolon",
        TokenType::Arrow => "Arrow",
        TokenType::FatArrow => "FatArrow",
        TokenType::Plus => "Plus",
        TokenType::PlusPlus => "PlusPlus",
        TokenType::PlusEqual => "PlusEqual",
        TokenType::Minus => "Minus",
        TokenType::MinusMinus => "MinusMinus",
        TokenType::MinusEqual => "MinusEqual",
        TokenType::Star => "Star",
        TokenType::Slash => "Slash",
        TokenType::Percent => "Percent",
        TokenType::Bang => "Bang",
        TokenType::BangEqual => "BangEqual",
        TokenType::Equal => "Equal",
        TokenType::EqualEqual => "EqualEqual",
        TokenType::Less => "Less",
        TokenType::LessEqual => "LessEqual",
        TokenType::Greater => "Greater",
        TokenType::GreaterEqual => "GreaterEqual",
        TokenType::AmpAmp => "AmpAmp",
        TokenType::PipePipe => "PipePipe",
        TokenType::Identifier => "Identifier",
        TokenType::String => "String",
        TokenType::Number => "Number",
        TokenType::True => "True",
        TokenType::False => "False",
        TokenType::Var => "Var",
        TokenType::Func => "Func",
        TokenType::Return => "Return",
        TokenType::If => "If",
        TokenType::Else => "Else",
        TokenType::While => "While",
        TokenType::For => "For",
        TokenType::In => "In",
        TokenType::Print => "Print",
        TokenType::Struct => "Struct",
        TokenType::Enum => "Enum",
        TokenType::Match => "Match",
        TokenType::Import => "Import",
        TokenType::From => "From",
        TokenType::As => "As",
        TokenType::Meta => "Meta",
        TokenType::Gen => "Gen",
        TokenType::Typeof => "Typeof",
        TokenType::Embed => "Embed",
        TokenType::Defer => "Defer",
        TokenType::Effect => "Effect",
        TokenType::Ctl => "Ctl",
        TokenType::Resume => "Resume",
        TokenType::Run => "Run",
        TokenType::Handle => "Handle",
        TokenType::Handler => "Handler",
        TokenType::With => "With",
        TokenType::Trait => "Trait",
        TokenType::Impl => "Impl",
        TokenType::EOF => "EOF",
    }
}

/// Every token carries the payload its kind calls for.
pub open spec fn tokens_well_formed(tokens: Seq<Token>) -> bool {
    forall|i: int| 0 <= i < tokens.len() ==> #[trigger] tokens[i].well_formed()
}

} // verus!
