//! The token model: what the scanner produces and the parser consumes.

use vstd::prelude::*;

verus! {

/// The category of a token.
#[allow(clippy::upper_case_acronyms)]
#[derive(Debug, Clone, Copy, PartialEq, Eq, Hash, Structural)]
pub enum TokenType {
    // Single-character tokens.
    LeftParen,
    RightParen,
    LeftBrace,
    RightBrace,
    COMMA,
    DOT,
    MINUS,
    PLUS,
    SEMICOLON,
    SLASH,
    STAR,
    // One or two character tokens.
    BANG,
    BangEqual,
    EQUAL,
    EqualEqual,
    GREATER,
    GreaterEqual,
    LESS,
    LessEqual,
    // Literals.
    IDENTIFIER,
    STRING,
    NUMBER,
    // Keywords.
    AND,
    CLASS,
    ELSE,
    FALSE,
    FUN,
    FOR,
    IF,
    NIL,
    OR,
    PRINT,
    RETURN,
    SUPER,
    THIS,
    TRUE,
    VAR,
    WHILE,
    EOF,
}

/// A literal value, as it stands in the source and as it lives at run time.
///
/// A number is held by the bit pattern of its 32-bit binary floating-point
/// value, so that equality of literals is equality of their parts.
#[derive(Debug, PartialEq, Eq, Hash)]
pub enum Literal {
    Str(String),
    Num(u32),
    Bool(bool),
    Nil,
}

/// The mathematical value of a [`Literal`].
pub enum LiteralView {
    Str(Seq<char>),
    Num(u32),
    Bool(bool),
    Nil,
}

impl View for Literal {
    type V = LiteralView;

    open spec fn view(&self) -> LiteralView {
        match self {
            Literal::Str(s) => LiteralView::Str(s@),
            Literal::Num(bits) => LiteralView::Num(*bits),
            Literal::Bool(b) => LiteralView::Bool(*b),
            Literal::Nil => LiteralView::Nil,
        }
    }
}

impl Clone for Literal {
    fn clone(&self) -> (r: Self)
        ensures
            r == *self,
    {
        match self {
            Literal::Str(s) => Literal::Str(s.clone()),
            Literal::Num(bits) => Literal::Num(*bits),
            Literal::Bool(b) => Literal::Bool(*b),
            Literal::Nil => Literal::Nil,
        }
    }
}

impl Literal {
    /// Structural equality: the same variant with the same payload.
    pub fn equals(&self, other: &Literal) -> (r: bool)
        ensures
            r == (self@ == other@),
    {
        match (self, other) {
            (Literal::Bool(a), Literal::Bool(b)) => *a == *b,
            (Literal::Str(a), Literal::Str(b)) => *a == *b,
            (Literal::Num(a), Literal::Num(b)) => *a == *b,
            (Literal::Nil, Literal::Nil) => true,
            (_, _) => false,
        }
    }

    /// Whether this is the literal `nil`.
    pub fn is_nil(&self) -> (r: bool)
        ensures
            r == (self@ == LiteralView::Nil),
    {
        match self {
            Literal::Nil => true,
            _ => false,
        }
    }
}

/// A lexed token.
#[derive(Debug, PartialEq, Eq, Hash)]
pub struct Token {
    pub token_type: TokenType,
    pub lexeme: String,
    pub literal: Literal,
    pub line: usize,
}

/// The mathematical value of a [`Token`].
pub struct TokenView {
    pub token_type: TokenType,
    pub lexeme: Seq<char>,
    pub literal: LiteralView,
    pub line: usize,
}

impl View for Token {
    type V = TokenView;

    open spec fn view(&self) -> TokenView {
        TokenView {
            token_type: self.token_type,
            lexeme: self.lexeme@,
            literal: self.literal@,
            line: self.line,
        }
    }
}

impl Clone for Token {
    fn clone(&self) -> (r: Self)
        ensures
            r == *self,
    {
        Token {
            token_type: self.token_type,
            lexeme: self.lexeme.clone(),
            literal: self.literal.clone(),
            line: self.line,
        }
    }
}

impl Token {
    /// A token of a kind, with its text in the source, the value it
    /// stands for if it is a literal, and the line it was found on.
    pub fn new(token_type: TokenType, lexeme: String, literal: Literal, line: usize) -> (r: Token)
        ensures
            r.token_type == token_type,
            r.lexeme == lexeme,
            r.literal == literal,
            r.line == line,
    {
        Token { token_type, lexeme, literal, line }
    }
}

/// The views of a sequence of tokens, position by position.
pub open spec fn token_views(tokens: Seq<Token>) -> Seq<TokenView> {
    Seq::new(tokens.len(), |i: int| tokens[i]@)
}

/// Copies a list of tokens.
pub fn clone_tokens(tokens: &Vec<Token>) -> (r: Vec<Token>)
    ensures
        r@ == tokens@,
{
    let mut out: Vec<Token> = Vec::new();
    let mut i: usize = 0;
    while i < tokens.len()
        invariant
            i <= tokens.len(),
            out@ == tokens@.subrange(0, i as int),
        decreases tokens.len() - i,
    {
        out.push(tokens[i].clone());
        assert(out@ =~= tokens@.subrange(0, i + 1));
        i += 1;
    }
    assert(tokens@.subrange(0, tokens@.len() as int) =~= tokens@);
    out
}

} // verus!
