//! The scanner: from source text to tokens.
//!
//! The value of a number literal is not computed here. When the scanner
//! meets one it stops and hands out the literal's text; the caller gives
//! the number's bit pattern to [`Scanner::number`] and scans on.

use vstd::prelude::*;
use vstd::std_specs::iter::IteratorSpec;
use vstd::string::{StrSliceExecFns, StringExecFns, StringExecFnsIsAscii};
use crate::error::{lexer_error, report_text, text_views};
use crate::token::{token_views, Literal, LiteralView, Token, TokenType, TokenView};

verus! {

broadcast use vstd::string::group_string_axioms;

/// A class of characters that a lexeme runs through.
#[derive(Debug, Clone, Copy, PartialEq, Eq, Structural)]
pub enum CharClass {
    /// `0` to `9`.
    Digit,
    /// An ASCII letter, a digit or `_`.
    Word,
    /// Anything but a line end.
    NotNewline,
    /// Anything but `"`.
    NotQuote,
}

/// Whether the character is a decimal digit.
pub open spec fn is_digit(c: char) -> bool {
    '0' as u32 <= c as u32 <= '9' as u32
}

/// Whether the character may continue an identifier.
pub open spec fn is_word(c: char) -> bool {
    is_digit(c) || 'a' as u32 <= c as u32 <= 'z' as u32 || 'A' as u32 <= c as u32 <= 'Z' as u32
        || c == '_'
}

/// Whether the character belongs to the class.
pub open spec fn in_class(class: CharClass, c: char) -> bool {
    match class {
        CharClass::Digit => is_digit(c),
        CharClass::Word => is_word(c),
        CharClass::NotNewline => c != '\n',
        CharClass::NotQuote => c != '"',
    }
}

/// Whether the character is alphabetic, as `char::is_alphabetic` tells.
pub uninterp spec fn alphabetic(c: char) -> bool;

/// Whether the character may start an identifier.
pub open spec fn starts_word(c: char) -> bool {
    alphabetic(c) || c == '_'
}

/// The number of characters from `pos` on that belong to the class, up to
/// the first that does not.
pub open spec fn run_length(src: Seq<char>, pos: int, class: CharClass) -> nat
    decreases src.len() - pos,
{
    if 0 <= pos < src.len() && in_class(class, src[pos]) {
        1 + run_length(src, pos + 1, class)
    } else {
        0
    }
}

/// The number of line ends in `src[from..to]`.
pub open spec fn newlines(src: Seq<char>, from: int, to: int) -> nat
    decreases to - from,
{
    if to <= from || to > src.len() || from < 0 {
        0
    } else {
        newlines(src, from, to - 1) + if src[to - 1] == '\n' {
            1nat
        } else {
            0nat
        }
    }
}

/// A line number moved on by some lines; it stops at the largest number.
pub open spec fn line_after(line: usize, lines: nat) -> usize {
    if line + lines <= usize::MAX {
        (line + lines) as usize
    } else {
        usize::MAX
    }
}

/// The keyword that a word is, if it is one.
pub open spec fn keyword(text: Seq<char>) -> Option<TokenType> {
    if text == "and"@ {
        Some(TokenType::AND)
    } else if text == "class"@ {
        Some(TokenType::CLASS)
    } else if text == "else"@ {
        Some(TokenType::ELSE)
    } else if text == "false"@ {
        Some(TokenType::FALSE)
    } else if text == "for"@ {
        Some(TokenType::FOR)
    } else if text == "fun"@ {
        Some(TokenType::FUN)
    } else if text == "if"@ {
        Some(TokenType::IF)
    } else if text == "nil"@ {
        Some(TokenType::NIL)
    } else if text == "or"@ {
        Some(TokenType::OR)
    } else if text == "print"@ {
        Some(TokenType::PRINT)
    } else if text == "return"@ {
        Some(TokenType::RETURN)
    } else if text == "super"@ {
        Some(TokenType::SUPER)
    } else if text == "this"@ {
        Some(TokenType::THIS)
    } else if text == "true"@ {
        Some(TokenType::TRUE)
    } else if text == "var"@ {
        Some(TokenType::VAR)
    } else if text == "while"@ {
        Some(TokenType::WHILE)
    } else {
        None
    }
}

/// What one lexeme is.
pub enum Lexeme {
    /// A token that is complete.
    Token(TokenType, LiteralView),
    /// A number literal, whose value is still to come.
    Number,
    /// Blank space, a line end or a comment.
    Skip,
    /// A lexical error, with its message.
    Error(Seq<char>),
}

/// One lexeme: what it is, how many characters it takes, and the line
/// number after it.
pub struct Scanned {
    pub kind: Lexeme,
    pub length: nat,
    pub line: usize,
}

/// A lexeme of one character, or of two if `second` follows.
pub open spec fn one_or_two(
    src: Seq<char>,
    start: int,
    line: usize,
    second: char,
    two: TokenType,
    one: TokenType,
) -> Scanned {
    if start + 1 < src.len() && src[start + 1] == second {
        Scanned { kind: Lexeme::Token(two, LiteralView::Nil), length: 2, line }
    } else {
        Scanned { kind: Lexeme::Token(one, LiteralView::Nil), length: 1, line }
    }
}

/// A token of one character.
pub open spec fn single(t: TokenType, line: usize) -> Scanned {
    Scanned { kind: Lexeme::Token(t, LiteralView::Nil), length: 1, line }
}

/// The length of the fraction of a number literal whose integer part ends
/// before `pos`: a dot and the digits after it, if at least one follows.
pub open spec fn fraction_length(src: Seq<char>, pos: int) -> nat {
    if pos + 1 < src.len() && src[pos] == '.' && is_digit(src[pos + 1]) {
        1 + run_length(src, pos + 1, CharClass::Digit)
    } else {
        0
    }
}

/// The lexeme that starts at `start`.
pub open spec fn scan_one(src: Seq<char>, start: int, line: usize) -> Scanned {
    let c = src[start];
    if c == '(' {
        single(TokenType::LeftParen, line)
    } else if c == ')' {
        single(TokenType::RightParen, line)
    } else if c == '{' {
        single(TokenType::LeftBrace, line)
    } else if c == '}' {
        single(TokenType::RightBrace, line)
    } else if c == ',' {
        single(TokenType::COMMA, line)
    } else if c == '.' {
        single(TokenType::DOT, line)
    } else if c == '-' {
        single(TokenType::MINUS, line)
    } else if c == '+' {
        single(TokenType::PLUS, line)
    } else if c == ';' {
        single(TokenType::SEMICOLON, line)
    } else if c == '*' {
        single(TokenType::STAR, line)
    } else if c == '!' {
        one_or_two(src, start, line, '=', TokenType::BangEqual, TokenType::BANG)
    } else if c == '=' {
        one_or_two(src, start, line, '=', TokenType::EqualEqual, TokenType::EQUAL)
    } else if c == '<' {
        one_or_two(src, start, line, '=', TokenType::LessEqual, TokenType::LESS)
    } else if c == '>' {
        one_or_two(src, start, line, '=', TokenType::GreaterEqual, TokenType::GREATER)
    } else if c == '/' {
        if start + 1 < src.len() && src[start + 1] == '/' {
            Scanned {
                kind: Lexeme::Skip,
                length: 2 + run_length(src, start + 2, CharClass::NotNewline),
                line,
            }
        } else {
            single(TokenType::SLASH, line)
        }
    } else if c == ' ' || c == '\r' || c == '\t' {
        Scanned { kind: Lexeme::Skip, length: 1, line }
    } else if c == '\n' {
        Scanned { kind: Lexeme::Skip, length: 1, line: line_after(line, 1) }
    } else if c == '"' {
        let n = run_length(src, start + 1, CharClass::NotQuote);
        let after = line_after(line, newlines(src, start + 1, start + 1 + n));
        if start + 1 + n >= src.len() {
            Scanned { kind: Lexeme::Error("Unterminated string."@), length: 1 + n, line: after }
        } else {
            Scanned {
                kind: Lexeme::Token(
                    TokenType::STRING,
                    LiteralView::Str(src.subrange(start + 1, start + 1 + n)),
                ),
                length: n + 2,
                line: after,
            }
        }
    } else if is_digit(c) {
        let n = run_length(src, start + 1, CharClass::Digit);
        Scanned { kind: Lexeme::Number, length: 1 + n + fraction_length(src, start + 1 + n), line }
    } else if starts_word(c) {
        let n = run_length(src, start + 1, CharClass::Word);
        Scanned {
            kind: Lexeme::Token(
                match keyword(src.subrange(start, start + 1 + n)) {
                    Some(t) => t,
                    None => TokenType::IDENTIFIER,
                },
                LiteralView::Nil,
            ),
            length: 1 + n,
            line,
        }
    } else {
        Scanned { kind: Lexeme::Error("Unexpected character."@), length: 1, line }
    }
}

/// The scanner's state.
#[derive(Debug)]
pub struct Scanner {
    /// The source text.
    pub source: String,
    /// Whether the source text is all ASCII, so that a piece of it is found
    /// by its position alone.
    pub ascii: bool,
    /// The characters of the source text.
    pub chars: Vec<char>,
    /// The tokens found so far.
    pub tokens: Vec<Token>,
    /// The diagnostics of the lexical errors met so far.
    pub diagnostics: Vec<String>,
    /// Where the lexeme at hand starts.
    pub start: usize,
    /// The next character to read.
    pub current: usize,
    /// The line of the next character.
    pub line: usize,
    /// Whether the lexeme at hand is a number literal that waits for its
    /// value.
    pub pending: bool,
    /// Whether the end of the text has been reached and marked.
    pub finished: bool,
}

/// The mathematical value of a [`Scanner`].
pub struct ScannerView {
    pub source: Seq<char>,
    pub tokens: Seq<TokenView>,
    pub diagnostics: Seq<Seq<char>>,
    pub start: nat,
    pub current: nat,
    pub line: usize,
    pub pending: bool,
    pub finished: bool,
}

impl View for Scanner {
    type V = ScannerView;

    open spec fn view(&self) -> ScannerView {
        ScannerView {
            source: self.source@,
            tokens: token_views(self.tokens@),
            diagnostics: text_views(self.diagnostics@),
            start: self.start as nat,
            current: self.current as nat,
            line: self.line,
            pending: self.pending,
            finished: self.finished,
        }
    }
}

/// Whether a text is a piece of a source text, character for character.
pub open spec fn is_slice(text: Seq<char>, source: Seq<char>) -> bool {
    exists|from: int, to: int|
        0 <= from <= to <= source.len() && text == #[trigger] source.subrange(from, to)
}

/// Whether the lexeme of every token is a piece of the source text.
pub open spec fn lexemes_in_source(s: ScannerView) -> bool {
    forall|i: int| 0 <= i < s.tokens.len() ==> is_slice((#[trigger] s.tokens[i]).lexeme, s.source)
}

/// The token that marks the end of the text.
pub open spec fn eof_token(line: usize) -> TokenView {
    TokenView {
        token_type: TokenType::EOF,
        lexeme: Seq::empty(),
        literal: LiteralView::Nil,
        line,
    }
}

/// The state after the lexeme at `current` has been scanned.
pub open spec fn after_one(s: ScannerView) -> ScannerView {
    let one = scan_one(s.source, s.current as int, s.line);
    let end = s.current + one.length;
    let moved = ScannerView { start: s.current, current: end, line: one.line, ..s };
    match one.kind {
        Lexeme::Token(t, literal) => ScannerView {
            tokens: s.tokens.push(
                TokenView {
                    token_type: t,
                    lexeme: s.source.subrange(s.current as int, end as int),
                    literal,
                    line: one.line,
                },
            ),
            ..moved
        },
        Lexeme::Number => ScannerView { pending: true, ..moved },
        Lexeme::Skip => moved,
        Lexeme::Error(message) => ScannerView {
            diagnostics: s.diagnostics.push(report_text(one.line, Seq::empty(), message)),
            ..moved
        },
    }
}

/// The state after scanning on to the next number literal, or to the end
/// of the text, which is marked by a last token.
pub open spec fn scan_run(s: ScannerView) -> ScannerView
    decreases
            if s.current <= s.source.len() {
                s.source.len() - s.current
            } else {
                0
            },
    via scan_run_decreases
{
    if s.current >= s.source.len() {
        ScannerView { tokens: s.tokens.push(eof_token(s.line)), finished: true, ..s }
    } else {
        let next = after_one(s);
        if next.pending {
            next
        } else {
            scan_run(next)
        }
    }
}

#[via_fn]
proof fn scan_run_decreases(s: ScannerView) {
    assert(scan_one(s.source, s.current as int, s.line).length >= 1);
}

/// The state after a call of [`Scanner::scan_tokens`].
pub open spec fn scan_spec(s: ScannerView) -> ScannerView {
    if s.pending || s.finished {
        s
    } else {
        scan_run(s)
    }
}

/// The state after the value of the number literal at hand has come.
pub open spec fn numbered(s: ScannerView, bits: u32) -> ScannerView {
    if s.pending {
        ScannerView {
            tokens: s.tokens.push(
                TokenView {
                    token_type: TokenType::NUMBER,
                    lexeme: s.source.subrange(s.start as int, s.current as int),
                    literal: LiteralView::Num(bits),
                    line: s.line,
                },
            ),
            pending: false,
            ..s
        }
    } else {
        s
    }
}

/// Tells whether a character is alphabetic, with `char::is_alphabetic`.
/// The result is named, not described: it is the Unicode property
/// `Alphabetic` of the character.
#[verifier::external_body]
fn is_alphabetic(c: char) -> (r: bool)
    ensures
        r == alphabetic(c),
{
    c.is_alphabetic()
}

fn digit(c: char) -> (r: bool)
    ensures
        r == is_digit(c),
{
    let u = c as u32;
    '0' as u32 <= u && u <= '9' as u32
}

fn belongs(class: CharClass, c: char) -> (r: bool)
    ensures
        r == in_class(class, c),
{
    let u = c as u32;
    match class {
        CharClass::Digit => digit(c),
        CharClass::Word => digit(c) || ('a' as u32 <= u && u <= 'z' as u32) || ('A' as u32 <= u && u
            <= 'Z' as u32) || c == '_',
        CharClass::NotNewline => c != '\n',
        CharClass::NotQuote => c != '"',
    }
}

fn same(text: &String, word: &str) -> (r: bool)
    ensures
        r == (text@ == word@),
{
    let w = String::from_str(word);
    *text == w
}

/// The keyword that a word is, if it is one.
pub fn keyword_of(text: &String) -> (r: Option<TokenType>)
    ensures
        r == keyword(text@),
{
    if same(text, "and") {
        Some(TokenType::AND)
    } else if same(text, "class") {
        Some(TokenType::CLASS)
    } else if same(text, "else") {
        Some(TokenType::ELSE)
    } else if same(text, "false") {
        Some(TokenType::FALSE)
    } else if same(text, "for") {
        Some(TokenType::FOR)
    } else if same(text, "fun") {
        Some(TokenType::FUN)
    } else if same(text, "if") {
        Some(TokenType::IF)
    } else if same(text, "nil") {
        Some(TokenType::NIL)
    } else if same(text, "or") {
        Some(TokenType::OR)
    } else if same(text, "print") {
        Some(TokenType::PRINT)
    } else if same(text, "return") {
        Some(TokenType::RETURN)
    } else if same(text, "super") {
        Some(TokenType::SUPER)
    } else if same(text, "this") {
        Some(TokenType::THIS)
    } else if same(text, "true") {
        Some(TokenType::TRUE)
    } else if same(text, "var") {
        Some(TokenType::VAR)
    } else if same(text, "while") {
        Some(TokenType::WHILE)
    } else {
        None
    }
}

impl Scanner {
    /// Whether the scanner's parts fit together: the characters are those
    /// of the source text, the lexeme at hand lies within it, and the
    /// lexeme of every token found is a piece of it.
    pub open spec fn wf(&self) -> bool {
        &&& self.chars@ == self.source@
        &&& self.ascii ==> self.source.is_ascii()
        &&& self.start <= self.current <= self.chars@.len() <= usize::MAX
        &&& lexemes_in_source(self@)
    }

    /// A scanner at the start of a source text.
    pub fn new(source: String) -> (r: Scanner)
        ensures
            r.wf(),
            r@ == (ScannerView {
                source: source@,
                tokens: Seq::empty(),
                diagnostics: Seq::empty(),
                start: 0,
                current: 0,
                line: 1,
                pending: false,
                finished: false,
            }),
    {
        let ascii = source.is_ascii();
        let mut chars: Vec<char> = Vec::new();
        let mut rest = source.as_str().chars();
        loop
            invariant
                rest.obeys_prophetic_iter_laws(),
                chars@ + rest.remaining() == source@,
            ensures
                chars@ == source@,
            decreases source@.len() - chars@.len(),
        {
            let ghost before = rest.remaining();
            match rest.next() {
                Some(c) => {
                    chars.push(c);
                    assert(chars@ + rest.remaining() =~= source@) by {
                        assert(before =~= seq![c] + rest.remaining());
                    }
                },
                None => {
                    assert(chars@ =~= chars@ + rest.remaining());
                    break ;
                },
            }
        }
        proof {
            vstd::std_specs::vec::axiom_spec_len(&chars);
        }
        let r = Scanner {
            source,
            ascii,
            chars,
            tokens: Vec::new(),
            diagnostics: Vec::new(),
            start: 0,
            current: 0,
            line: 1,
            pending: false,
            finished: false,
        };
        assert(r@.tokens =~= Seq::<TokenView>::empty());
        assert(r@.diagnostics =~= Seq::<Seq<char>>::empty());
        r
    }

    fn is_at_end(&self) -> (r: bool)
        ensures
            r == (self.current >= self.chars@.len()),
    {
        self.current >= self.chars.len()
    }

    /// Whether the next character is `expected`; if so it is consumed.
    fn match_char(&mut self, expected: char) -> (r: bool)
        requires
            old(self).wf(),
        ensures
            final(self).wf(),
            r == (old(self).current < old(self).chars@.len() && old(self).chars@[old(self).current as int] == expected),
            final(self).current == if r {
                old(self).current + 1
            } else {
                old(self).current as int
            },
            *final(self) == (Scanner { current: final(self).current, ..*old(self) }),
    {
        if self.is_at_end() {
            return false;
        }
        if self.chars[self.current] != expected {
            return false;
        }
        self.current += 1;
        true
    }

    /// Consumes the characters of a class up to the first that is not of it.
    fn skip_run(&mut self, class: CharClass)
        requires
            old(self).wf(),
        ensures
            final(self).wf(),
            final(self).current == old(self).current + run_length(
                old(self).chars@,
                old(self).current as int,
                class,
            ),
            *final(self) == (Scanner { current: final(self).current, ..*old(self) }),
    {
        while self.current < self.chars.len() && belongs(class, self.chars[self.current])
            invariant
                self.wf(),
                *self == (Scanner { current: self.current, ..*old(self) }),
                self.current + run_length(self.chars@, self.current as int, class) == old(self).current + run_length(old(self).chars@, old(self).current as int, class),
            decreases self.chars@.len() - self.current,
        {
            self.current += 1;
        }
    }

    /// Moves the line number on by the line ends in `chars[from..current]`.
    fn count_lines(&mut self, from: usize)
        requires
            old(self).wf(),
            from <= old(self).current,
        ensures
            final(self).line == line_after(
                old(self).line,
                newlines(old(self).chars@, from as int, old(self).current as int),
            ),
            *final(self) == (Scanner { line: final(self).line, ..*old(self) }),
    {
        let mut i = from;
        while i < self.current
            invariant
                self.wf(),
                from <= i <= self.current,
                *self == (Scanner { line: self.line, ..*old(self) }),
                self.line == line_after(old(self).line, newlines(self.chars@, from as int, i as int)),
            decreases self.current - i,
        {
            if self.chars[i] == '\n' {
                if self.line < usize::MAX {
                    self.line += 1;
                }
            }
            i += 1;
        }
    }

    /// A piece of the source text.
    fn piece(&self, from: usize, to: usize) -> (r: &str)
        requires
            self.wf(),
            from <= to <= self.source@.len(),
        ensures
            r@ == self.source@.subrange(from as int, to as int),
    {
        if self.ascii {
            self.source.as_str().substring_ascii(from, to)
        } else {
            self.source.as_str().substring_char(from, to)
        }
    }

    /// The text of the lexeme at hand.
    fn lexeme(&self) -> (r: String)
        requires
            self.wf(),
        ensures
            r@ == self.source@.subrange(self.start as int, self.current as int),
    {
        String::from_str(self.piece(self.start, self.current))
    }

    fn add_token(&mut self, token_type: TokenType)
        requires
            old(self).wf(),
        ensures
            final(self).wf(),
            final(self)@ == (ScannerView {
                tokens: old(self)@.tokens.push(
                    TokenView {
                        token_type,
                        lexeme: old(self)@.source.subrange(
                            old(self).start as int,
                            old(self).current as int,
                        ),
                        literal: LiteralView::Nil,
                        line: old(self).line,
                    },
                ),
                ..old(self)@
            }),
    {
        self.add_token_full(token_type, Literal::Nil);
    }

    fn add_token_full(&mut self, token_type: TokenType, literal: Literal)
        requires
            old(self).wf(),
        ensures
            final(self).wf(),
            final(self)@ == (ScannerView {
                tokens: old(self)@.tokens.push(
                    TokenView {
                        token_type,
                        lexeme: old(self)@.source.subrange(
                            old(self).start as int,
                            old(self).current as int,
                        ),
                        literal: literal@,
                        line: old(self).line,
                    },
                ),
                ..old(self)@
            }),
    {
        let text = self.lexeme();
        let token = Token::new(token_type, text, literal, self.line);
        self.tokens.push(token);
        assert(token_views(self.tokens@) =~= token_views(old(self).tokens@).push(token@));
        assert(token@.lexeme == self.source@.subrange(self.start as int, self.current as int));
    }

    fn add_error(&mut self, message: &str)
        requires
            old(self).wf(),
        ensures
            final(self).wf(),
            final(self)@ == (ScannerView {
                diagnostics: old(self)@.diagnostics.push(
                    report_text(old(self).line, Seq::empty(), message@),
                ),
                ..old(self)@
            }),
    {
        let text = lexer_error(self.line, message);
        self.diagnostics.push(text);
        assert(text_views(self.diagnostics@) =~= text_views(old(self).diagnostics@).push(text@));
    }

    fn one_or_two(&mut self, second: char, two: TokenType, one: TokenType)
        requires
            old(self).wf(),
            old(self).start + 1 == old(self).current,
        ensures
            final(self).wf(),
            final(self)@ == after_scanned(
                old(self)@,
                one_or_two(old(self)@.source, old(self).start as int, old(self).line, second, two, one),
            ),
    {
        if self.match_char(second) {
            self.add_token(two)
        } else {
            self.add_token(one)
        }
    }

    /// A string literal: up to the closing quote, over line ends.
    fn string(&mut self)
        requires
            old(self).wf(),
            old(self).start + 1 == old(self).current,
            old(self).chars@[old(self).start as int] == '"',
        ensures
            final(self).wf(),
            final(self)@ == after_scanned(
                old(self)@,
                scan_one(old(self)@.source, old(self).start as int, old(self).line),
            ),
    {
        let from = self.current;
        self.skip_run(CharClass::NotQuote);
        self.count_lines(from);
        if self.is_at_end() {
            self.add_error("Unterminated string.");
            return ;
        }
        self.current += 1;
        let slice = self.piece(self.start + 1, self.current - 1);
        let value = String::from_str(slice);
        self.add_token_full(TokenType::STRING, Literal::Str(value));
    }

    /// A number literal: digits, and a fraction if a dot and a digit follow.
    /// Its token is added when its value comes.
    fn number_lexeme(&mut self)
        requires
            old(self).wf(),
            old(self).start + 1 == old(self).current,
            is_digit(old(self).chars@[old(self).start as int]),
            !old(self).pending,
        ensures
            final(self).wf(),
            final(self)@ == after_scanned(
                old(self)@,
                scan_one(old(self)@.source, old(self).start as int, old(self).line),
            ),
    {
        self.skip_run(CharClass::Digit);
        if self.current < self.chars.len() && self.chars[self.current] == '.' {
            if self.current + 1 < self.chars.len() && digit(self.chars[self.current + 1]) {
                self.current += 1;
                self.skip_run(CharClass::Digit);
            }
        }
        self.pending = true;
    }

    /// A word: a keyword or an identifier.
    fn identifier(&mut self)
        requires
            old(self).wf(),
            old(self).start + 1 == old(self).current,
        ensures
            final(self).wf(),
            final(self)@ == after_scanned(
                old(self)@,
                word_scanned(old(self)@.source, old(self).start as int, old(self).line),
            ),
    {
        self.skip_run(CharClass::Word);
        let text = self.lexeme();
        match keyword_of(&text) {
            Some(token_type) => {
                self.add_token(token_type);
            },
            None => {
                self.add_token(TokenType::IDENTIFIER);
            },
        }
    }

    /// Scans the lexeme at `current`.
    fn scan_token(&mut self)
        requires
            old(self).wf(),
            old(self).current < old(self).chars@.len(),
            !old(self).pending,
        ensures
            final(self).wf(),
            final(self)@ == after_one(old(self)@),
    {
        self.start = self.current;
        let c = self.chars[self.current];
        self.current += 1;
        if c == '(' {
            self.add_token(TokenType::LeftParen)
        } else if c == ')' {
            self.add_token(TokenType::RightParen)
        } else if c == '{' {
            self.add_token(TokenType::LeftBrace)
        } else if c == '}' {
            self.add_token(TokenType::RightBrace)
        } else if c == ',' {
            self.add_token(TokenType::COMMA)
        } else if c == '.' {
            self.add_token(TokenType::DOT)
        } else if c == '-' {
            self.add_token(TokenType::MINUS)
        } else if c == '+' {
            self.add_token(TokenType::PLUS)
        } else if c == ';' {
            self.add_token(TokenType::SEMICOLON)
        } else if c == '*' {
            self.add_token(TokenType::STAR)
        } else if c == '!' {
            self.one_or_two('=', TokenType::BangEqual, TokenType::BANG)
        } else if c == '=' {
            self.one_or_two('=', TokenType::EqualEqual, TokenType::EQUAL)
        } else if c == '<' {
            self.one_or_two('=', TokenType::LessEqual, TokenType::LESS)
        } else if c == '>' {
            self.one_or_two('=', TokenType::GreaterEqual, TokenType::GREATER)
        } else if c == '/' {
            if self.match_char('/') {
                self.skip_run(CharClass::NotNewline);
            } else {
                self.add_token(TokenType::SLASH);
            }
        } else if c == ' ' || c == '\r' || c == '\t' {
        } else if c == '\n' {
            if self.line < usize::MAX {
                self.line += 1;
            }
        } else if c == '"' {
            self.string()
        } else if digit(c) {
            self.number_lexeme()
        } else if is_alphabetic(c) || c == '_' {
            self.identifier()
        } else {
            self.add_error("Unexpected character.")
        }
    }

    /// Scans on to the next number literal, whose text is returned, or to
    /// the end of the source text, where a last token marks the end and
    /// `None` is returned. While a number literal waits for its value, its
    /// text is returned again.
    pub fn scan_tokens(&mut self) -> (r: Option<String>)
        requires
            old(self).wf(),
        ensures
            final(self).wf(),
            final(self)@ == scan_spec(old(self)@),
            match r {
                Some(text) => final(self).pending && text@ == final(self)@.source.subrange(
                    final(self).start as int,
                    final(self).current as int,
                ),
                None => !final(self).pending,
            },
    {
        if self.pending {
            return Some(self.lexeme());
        }
        if self.finished {
            return None;
        }
        while !self.is_at_end()
            invariant
                self.wf(),
                !self.pending,
                !self.finished,
                scan_run(self@) == scan_spec(old(self)@),
            decreases self.chars@.len() - self.current,
        {
            self.scan_token();
            if self.pending {
                return Some(self.lexeme());
            }
        }
        let eof = Token::new(TokenType::EOF, String::from_str(""), Literal::Nil, self.line);
        proof {
            reveal_strlit("");
            assert(eof@.lexeme =~= Seq::<char>::empty());
            assert(eof@.lexeme =~= self.source@.subrange(0, 0));
        }
        let ghost before = self.tokens@;
        self.tokens.push(eof);
        assert(token_views(self.tokens@) =~= token_views(before).push(eof@));
        self.finished = true;
        None
    }

    /// Takes the value of the number literal at hand, as the bit pattern
    /// of a 32-bit binary floating-point number, and adds its token. Does
    /// nothing if no number literal waits for its value.
    pub fn number(&mut self, bits: u32)
        requires
            old(self).wf(),
        ensures
            final(self).wf(),
            final(self)@ == numbered(old(self)@, bits),
    {
        if self.pending {
            self.add_token_full(TokenType::NUMBER, Literal::Num(bits));
            self.pending = false;
        }
    }

    /// The tokens found so far.
    pub fn tokens(&self) -> (r: Vec<Token>)
        ensures
            r@ == self.tokens@,
    {
        crate::token::clone_tokens(&self.tokens)
    }
}

/// The state after a lexeme that starts at `start` and has been read up to
/// `current` is recorded.
pub open spec fn after_scanned(s: ScannerView, one: Scanned) -> ScannerView {
    let end = s.start + one.length;
    let moved = ScannerView { current: end, line: one.line, ..s };
    match one.kind {
        Lexeme::Token(t, literal) => ScannerView {
            tokens: s.tokens.push(
                TokenView {
                    token_type: t,
                    lexeme: s.source.subrange(s.start as int, end as int),
                    literal,
                    line: one.line,
                },
            ),
            ..moved
        },
        Lexeme::Number => ScannerView { pending: true, ..moved },
        Lexeme::Skip => moved,
        Lexeme::Error(message) => ScannerView {
            diagnostics: s.diagnostics.push(report_text(one.line, Seq::empty(), message)),
            ..moved
        },
    }
}

/// The lexeme of a word that starts at `start`.
pub open spec fn word_scanned(src: Seq<char>, start: int, line: usize) -> Scanned {
    let n = run_length(src, start + 1, CharClass::Word);
    Scanned {
        kind: Lexeme::Token(
            match keyword(src.subrange(start, start + 1 + n)) {
                Some(t) => t,
                None => TokenType::IDENTIFIER,
            },
            LiteralView::Nil,
        ),
        length: 1 + n,
        line,
    }
}

} // verus!
