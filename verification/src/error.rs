//! Errors and the text of diagnostics.

use vstd::prelude::*;
use vstd::string::StringExecFns;
use crate::object::{Object, ObjectView};
use crate::token::{Token, TokenType, TokenView};

verus! {

/// What can end the work on a piece of program early.
///
/// `Return` is no failure: it carries the value of a `return` statement to
/// the call that it ends.
#[derive(Debug)]
pub enum Error {
    ParseError(String),
    RuntimeError(Token, String),
    Return(Object),
    ResolveError(Token, String),
}

/// The mathematical value of an [`Error`].
pub enum ErrorView {
    ParseError(Seq<char>),
    RuntimeError(TokenView, Seq<char>),
    Return(ObjectView),
    ResolveError(TokenView, Seq<char>),
}

impl View for Error {
    type V = ErrorView;

    open spec fn view(&self) -> ErrorView {
        match self {
            Error::ParseError(m) => ErrorView::ParseError(m@),
            Error::RuntimeError(t, m) => ErrorView::RuntimeError(t@, m@),
            Error::Return(o) => ErrorView::Return(o@),
            Error::ResolveError(t, m) => ErrorView::ResolveError(t@, m@),
        }
    }
}

impl Clone for Error {
    fn clone(&self) -> (r: Self)
        ensures
            r@ == self@,
    {
        match self {
            Error::ParseError(m) => Error::ParseError(m.clone()),
            Error::RuntimeError(t, m) => Error::RuntimeError(t.clone(), m.clone()),
            Error::Return(o) => Error::Return(o.clone()),
            Error::ResolveError(t, m) => Error::ResolveError(t.clone(), m.clone()),
        }
    }
}

/// The views of a list of texts.
pub open spec fn text_views(texts: Seq<String>) -> Seq<Seq<char>> {
    Seq::new(texts.len(), |i: int| texts[i]@)
}

/// The character of one decimal digit.
pub open spec fn digit_char(d: nat) -> char {
    if d == 0 {
        '0'
    } else if d == 1 {
        '1'
    } else if d == 2 {
        '2'
    } else if d == 3 {
        '3'
    } else if d == 4 {
        '4'
    } else if d == 5 {
        '5'
    } else if d == 6 {
        '6'
    } else if d == 7 {
        '7'
    } else if d == 8 {
        '8'
    } else {
        '9'
    }
}

/// The decimal numeral of a number, without leading zeros.
pub open spec fn decimal(n: nat) -> Seq<char>
    decreases n,
{
    if n < 10 {
        seq![digit_char(n)]
    } else {
        decimal(n / 10).push(digit_char(n % 10))
    }
}

fn digit_text(d: usize) -> (r: &'static str)
    requires
        d < 10,
    ensures
        r@ == seq![digit_char(d as nat)],
{
    proof {
        reveal_strlit("0");
        reveal_strlit("1");
        reveal_strlit("2");
        reveal_strlit("3");
        reveal_strlit("4");
        reveal_strlit("5");
        reveal_strlit("6");
        reveal_strlit("7");
        reveal_strlit("8");
        reveal_strlit("9");
    }
    let r = if d == 0 {
        "0"
    } else if d == 1 {
        "1"
    } else if d == 2 {
        "2"
    } else if d == 3 {
        "3"
    } else if d == 4 {
        "4"
    } else if d == 5 {
        "5"
    } else if d == 6 {
        "6"
    } else if d == 7 {
        "7"
    } else if d == 8 {
        "8"
    } else {
        "9"
    };
    assert(r@ =~= seq![digit_char(d as nat)]);
    r
}

/// Writes a number as a decimal numeral.
pub fn decimal_text(n: usize) -> (r: String)
    ensures
        r@ == decimal(n as nat),
    decreases n,
{
    if n < 10 {
        String::from_str(digit_text(n))
    } else {
        let mut s = decimal_text(n / 10);
        s.append(digit_text(n % 10));
        assert(s@ =~= decimal(n as nat));
        s
    }
}

/// The text of a diagnostic: `[line L] Error<place>: <message>`.
pub open spec fn report_text(line: usize, place: Seq<char>, message: Seq<char>) -> Seq<char> {
    "[line "@ + decimal(line as nat) + "] Error"@ + place + ": "@ + message
}

/// Builds the text of a diagnostic.
pub fn report(line: usize, place: &str, message: &str) -> (r: String)
    ensures
        r@ == report_text(line, place@, message@),
{
    let mut s = String::from_str("[line ");
    let number = decimal_text(line);
    s.append(number.as_str());
    s.append("] Error");
    s.append(place);
    s.append(": ");
    s.append(message);
    s
}

/// The text of the diagnostic for a parse error at a token.
pub open spec fn parser_error_text(token: TokenView, message: Seq<char>) -> Seq<char> {
    if token.token_type == TokenType::EOF {
        report_text(token.line, " at end"@, message)
    } else {
        report_text(token.line, Seq::empty(), message)
    }
}

/// The diagnostic for a parse error at a token: at the end of the input it
/// says so, elsewhere it names the line only.
pub fn parser_error(token: &Token, message: &str) -> (r: String)
    ensures
        r@ == parser_error_text(token@, message@),
{
    if token.token_type == TokenType::EOF {
        report(token.line, " at end", message)
    } else {
        proof {
            reveal_strlit("");
        }
        assert(""@ =~= Seq::<char>::empty());
        report(token.line, "", message)
    }
}

/// The diagnostic for a lexical error on a line.
pub fn lexer_error(line: usize, message: &str) -> (r: String)
    ensures
        r@ == report_text(line, Seq::empty(), message@),
{
    proof {
        reveal_strlit("");
    }
    assert(""@ =~= Seq::<char>::empty());
    report(line, "", message)
}

} // verus!
