use vstd::prelude::*;

verus! {

/// The closed set of token tags: single-character punctuation, one-or-two
/// character operators, literals, keywords, and the end-of-input marker.
#[derive(Clone, Copy, PartialEq, Eq, Structural, Debug)]
pub enum TokenType {
    // One character tokens (always)
    LeftParen,
    RightParen,
    LeftBrace,
    RightBrace,
    Comma,
    Dot,
    Minus,
    Plus,
    Semicolon,
    Slash,
    Star,
    // One or two character tokens
    Bang,
    BangEqual,
    Equal,
    EqualEqual,
    Greater,
    GreaterEqual,
    Less,
    LessEqual,
    // literals
    Identifier,
    String,
    Number,
    // Keywords
    And,
    Class,
    Else,
    False,
    Fun,
    For,
    If,
    Nil,
    Or,
    Print,
    Return,
    Super,
    This,
    True,
    Var,
    While,
    // eof
    Eof,
}

/// The literal payload of a token. A number literal carries the exact source
/// numeral; its binary floating-point value is only found at run time, when
/// the evaluator asks the numeric oracle for it.
#[derive(Clone, PartialEq, Debug)]
pub enum Literal {
    String(String),
    Number(String),
    Boolean(bool),
    Nil,
}

#[derive(Clone, PartialEq, Debug)]
pub struct Token {
    pub token_type: TokenType,
    pub lexeme: String,
    pub literal: Literal,
    pub line: usize,
}

/// The mathematical reading of a literal; a number literal is its numeral.
pub enum LitV {
    Str(Seq<char>),
    Num(Seq<char>),
    Bool(bool),
    Nil,
}

/// The mathematical reading of a token.
pub struct TokenV {
    pub kind: TokenType,
    pub lexeme: Seq<char>,
    pub literal: LitV,
    pub line: nat,
}

impl View for Literal {
    type V = LitV;

    open spec fn view(&self) -> LitV {
        match self {
            Literal::String(s) => LitV::Str(s@),
            Literal::Number(s) => LitV::Num(s@),
            Literal::Boolean(b) => LitV::Bool(*b),
            Literal::Nil => LitV::Nil,
        }
    }
}

impl View for Token {
    type V = TokenV;

    open spec fn view(&self) -> TokenV {
        TokenV { kind: self.token_type, lexeme: self.lexeme@, literal: self.literal@, line: self.line as nat }
    }
}

/// The views of a token sequence.
pub open spec fn token_views(toks: Seq<Token>) -> Seq<TokenV> {
    toks.map(|i: int, t: Token| t@)
}

impl Literal {
    /// A copy that provably equals the source, where a derived clone would
    /// say nothing.
    pub fn duplicate(&self) -> (r: Literal)
        ensures
            r == *self,
    {
        match self {
            Literal::String(s) => Literal::String(s.clone()),
            Literal::Number(s) => Literal::Number(s.clone()),
            Literal::Boolean(b) => Literal::Boolean(*b),
            Literal::Nil => Literal::Nil,
        }
    }
}

impl Token {
    pub fn new(token_type: TokenType, lexeme: String, literal: Literal, line: usize) -> (t: Token)
        ensures
            t == (Token { token_type, lexeme, literal, line }),
    {
        Token { token_type, lexeme, literal, line }
    }

    /// A copy that provably equals the source.
    pub fn duplicate(&self) -> (r: Token)
        ensures
            r == *self,
    {
        Token {
            token_type: self.token_type,
            lexeme: self.lexeme.clone(),
            literal: self.literal.duplicate(),
            line: self.line,
        }
    }
}

} // verus!
