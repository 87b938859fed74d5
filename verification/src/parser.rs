//! The parser: from tokens to the syntax tree, by recursive descent with
//! one token of lookahead.

use vstd::prelude::*;
use vstd::string::StringExecFns;
use crate::error::{parser_error, parser_error_text, text_views, Error, ErrorView};
use crate::expr::{expr_views, Expr, ExprView};
use crate::stmt::{stmt_views, Stmt, StmtView};
use crate::token::{token_views, Literal, LiteralView, Token, TokenType, TokenView};

verus! {

/// What a grammar rule makes of the tokens from a position on.
pub enum Parsed<T> {
    /// The rule matched: the tree, the number of tokens it took, and the
    /// diagnostics issued up to now.
    Done { value: T, used: nat, notes: Seq<Seq<char>> },
    /// The rule failed with a message after taking some tokens.
    Failed { message: Seq<char>, used: nat, notes: Seq<Seq<char>> },
}

/// The same result, for a rule that started `by` tokens earlier.
pub open spec fn shifted<T>(p: Parsed<T>, by: nat) -> Parsed<T> {
    match p {
        Parsed::Done { value, used, notes } => Parsed::Done { value, used: used + by, notes },
        Parsed::Failed { message, used, notes } => Parsed::Failed {
            message,
            used: used + by,
            notes,
        },
    }
}

/// The kind of the token at a position; past the last token, the end.
pub open spec fn kind(toks: Seq<TokenView>, pos: nat) -> TokenType {
    if pos < toks.len() {
        toks[pos as int].token_type
    } else {
        TokenType::EOF
    }
}

/// Whether the token at a position is of a kind, and not the end.
pub open spec fn check(toks: Seq<TokenView>, pos: nat, t: TokenType) -> bool {
    kind(toks, pos) != TokenType::EOF && kind(toks, pos) == t
}

/// The number of tokens from a position on.
pub open spec fn remaining(toks: Seq<TokenView>, pos: nat) -> nat {
    if pos <= toks.len() {
        (toks.len() - pos) as nat
    } else {
        0
    }
}

/// A failure at the token at `pos`, with its diagnostic.
pub open spec fn fail<T>(
    toks: Seq<TokenView>,
    pos: nat,
    used: nat,
    notes: Seq<Seq<char>>,
    message: Seq<char>,
) -> Parsed<T> {
    Parsed::Failed {
        message,
        used,
        notes: notes.push(parser_error_text(toks[pos as int], message)),
    }
}

/// The most arguments of a call, or parameters of a function, that pass
/// without a diagnostic.
pub open spec fn argument_limit() -> nat {
    255
}

/// Whether a token kind is an operator of a level of infix operators: from
/// `* /` at level 0 up to `or` at level 5.
pub open spec fn is_operator(level: nat, t: TokenType) -> bool {
    if level == 0 {
        t == TokenType::SLASH || t == TokenType::STAR
    } else if level == 1 {
        t == TokenType::MINUS || t == TokenType::PLUS
    } else if level == 2 {
        t == TokenType::GREATER || t == TokenType::GreaterEqual || t == TokenType::LESS || t
            == TokenType::LessEqual
    } else if level == 3 {
        t == TokenType::BangEqual || t == TokenType::EqualEqual
    } else if level == 4 {
        t == TokenType::AND
    } else {
        t == TokenType::OR
    }
}

/// The node of an infix operator: `and` and `or` short-circuit, the others
/// are binary operators.
pub open spec fn combine(level: nat, left: ExprView, operator: TokenView, right: ExprView) -> ExprView {
    if level >= 4 {
        ExprView::Logic { left: Box::new(left), operator, right: Box::new(right) }
    } else {
        ExprView::Binary { left: Box::new(left), operator, right: Box::new(right) }
    }
}

/// primary → NUMBER | STRING | "true" | "false" | "nil" | "(" expression ")" | IDENT
pub open spec fn primary_rule(toks: Seq<TokenView>, base: usize, pos: nat, notes: Seq<Seq<char>>) -> Parsed<
    ExprView,
>
    decreases remaining(toks, pos), 2nat,
{
    let k = kind(toks, pos);
    if k == TokenType::FALSE {
        Parsed::Done {
            value: ExprView::Literal { value: LiteralView::Bool(false) },
            used: 1,
            notes,
        }
    } else if k == TokenType::TRUE {
        Parsed::Done { value: ExprView::Literal { value: LiteralView::Bool(true) }, used: 1, notes }
    } else if k == TokenType::NIL {
        Parsed::Done { value: ExprView::Literal { value: LiteralView::Nil }, used: 1, notes }
    } else if k == TokenType::STRING || k == TokenType::NUMBER {
        Parsed::Done {
            value: ExprView::Literal { value: toks[pos as int].literal },
            used: 1,
            notes,
        }
    } else if k == TokenType::IDENTIFIER {
        Parsed::Done {
            value: ExprView::Variable { id: (base + pos) as usize, name: toks[pos as int] },
            used: 1,
            notes,
        }
    } else if k == TokenType::LeftParen {
        match expression_rule(toks, base, pos + 1, notes) {
            Parsed::Done { value, used, notes } => if check(
                toks,
                pos + 1 + used,
                TokenType::RightParen,
            ) {
                Parsed::Done {
                    value: ExprView::Grouping { expression: Box::new(value) },
                    used: used + 2,
                    notes,
                }
            } else {
                fail(toks, pos + 1 + used, used + 1, notes, "Expect ')' after expression."@)
            },
            Parsed::Failed { message, used, notes } => Parsed::Failed {
                message,
                used: used + 1,
                notes,
            },
        }
    } else {
        fail(toks, pos, 0, notes, "Expect expression."@)
    }
}

/// The arguments after the first: ("," expression)*. One argument too many
/// gets a diagnostic and is taken all the same.
pub open spec fn arguments_rest(
    toks: Seq<TokenView>,
    base: usize,
    pos: nat,
    args: Seq<ExprView>,
    notes: Seq<Seq<char>>,
) -> Parsed<Seq<ExprView>>
    decreases remaining(toks, pos), 0nat,
{
    if check(toks, pos, TokenType::COMMA) {
        let noted = if args.len() >= argument_limit() {
            notes.push(
                parser_error_text(toks[pos + 1 as int], "Can't have more than 255 arguments."@),
            )
        } else {
            notes
        };
        match expression_rule(toks, base, pos + 1, noted) {
            Parsed::Done { value, used, notes } => shifted(
                arguments_rest(toks, base, pos + 1 + used, args.push(value), notes),
                used + 1,
            ),
            Parsed::Failed { message, used, notes } => Parsed::Failed {
                message,
                used: used + 1,
                notes,
            },
        }
    } else {
        Parsed::Done { value: args, used: 0, notes }
    }
}

/// arguments? : the arguments of a call, up to but without its ")".
pub open spec fn arguments_rule(
    toks: Seq<TokenView>,
    base: usize,
    pos: nat,
    notes: Seq<Seq<char>>,
) -> Parsed<Seq<ExprView>>
    decreases remaining(toks, pos), 35nat,
{
    if check(toks, pos, TokenType::RightParen) {
        Parsed::Done { value: Seq::empty(), used: 0, notes }
    } else {
        match expression_rule(toks, base, pos, notes) {
            Parsed::Done { value, used, notes } => shifted(
                arguments_rest(toks, base, pos + used, seq![value], notes),
                used,
            ),
            Parsed::Failed { message, used, notes } => Parsed::Failed { message, used, notes },
        }
    }
}

/// The rest of a call after its "(": arguments? ")". The node keeps the
/// closing parenthesis.
pub open spec fn finish_call_rule(
    toks: Seq<TokenView>,
    base: usize,
    pos: nat,
    callee: ExprView,
    notes: Seq<Seq<char>>,
) -> Parsed<ExprView>
    decreases remaining(toks, pos), 36nat,
{
    match arguments_rule(toks, base, pos, notes) {
        Parsed::Done { value, used, notes } => if check(toks, pos + used, TokenType::RightParen) {
            Parsed::Done {
                value: ExprView::Call {
                    callee: Box::new(callee),
                    paren: toks[pos + used as int],
                    arguments: value,
                },
                used: used + 1,
                notes,
            }
        } else {
            fail(toks, pos + used, used, notes, "Expect ')' after arguments."@)
        },
        Parsed::Failed { message, used, notes } => Parsed::Failed { message, used, notes },
    }
}

/// The calls that follow a callee: ("(" arguments? ")")*, from the left.
pub open spec fn call_rest(
    toks: Seq<TokenView>,
    base: usize,
    pos: nat,
    callee: ExprView,
    notes: Seq<Seq<char>>,
) -> Parsed<ExprView>
    decreases remaining(toks, pos), 0nat,
{
    if check(toks, pos, TokenType::LeftParen) {
        match finish_call_rule(toks, base, pos + 1, callee, notes) {
            Parsed::Done { value, used, notes } => shifted(
                call_rest(toks, base, pos + 1 + used, value, notes),
                used + 1,
            ),
            Parsed::Failed { message, used, notes } => Parsed::Failed {
                message,
                used: used + 1,
                notes,
            },
        }
    } else {
        Parsed::Done { value: callee, used: 0, notes }
    }
}

/// call → primary ("(" arguments? ")")*
pub open spec fn call_rule(toks: Seq<TokenView>, base: usize, pos: nat, notes: Seq<Seq<char>>) -> Parsed<
    ExprView,
>
    decreases remaining(toks, pos), 3nat,
{
    match primary_rule(toks, base, pos, notes) {
        Parsed::Done { value, used, notes } => shifted(
            call_rest(toks, base, pos + used, value, notes),
            used,
        ),
        Parsed::Failed { message, used, notes } => Parsed::Failed { message, used, notes },
    }
}

/// unary → ("!" | "-") unary | call
pub open spec fn unary_rule(toks: Seq<TokenView>, base: usize, pos: nat, notes: Seq<Seq<char>>) -> Parsed<
    ExprView,
>
    decreases remaining(toks, pos), 4nat,
{
    if check(toks, pos, TokenType::BANG) || check(toks, pos, TokenType::MINUS) {
        match unary_rule(toks, base, pos + 1, notes) {
            Parsed::Done { value, used, notes } => Parsed::Done {
                value: ExprView::Unary { operator: toks[pos as int], right: Box::new(value) },
                used: used + 1,
                notes,
            },
            Parsed::Failed { message, used, notes } => Parsed::Failed {
                message,
                used: used + 1,
                notes,
            },
        }
    } else {
        call_rule(toks, base, pos, notes)
    }
}

/// The operand of a level of infix operators: the next lower level, and
/// under the lowest a unary expression.
pub open spec fn operand_rule(
    toks: Seq<TokenView>,
    base: usize,
    pos: nat,
    level: nat,
    notes: Seq<Seq<char>>,
) -> Parsed<ExprView>
    decreases remaining(toks, pos), 9 + 2 * level,
{
    if level == 0 {
        unary_rule(toks, base, pos, notes)
    } else {
        infix_rule(toks, base, pos, (level - 1) as nat, notes)
    }
}

/// The operators and operands that follow a left operand, from the left.
pub open spec fn infix_rest(
    toks: Seq<TokenView>,
    base: usize,
    pos: nat,
    level: nat,
    left: ExprView,
    notes: Seq<Seq<char>>,
) -> Parsed<ExprView>
    decreases remaining(toks, pos), 0nat,
{
    if kind(toks, pos) != TokenType::EOF && is_operator(level, kind(toks, pos)) {
        match operand_rule(toks, base, pos + 1, level, notes) {
            Parsed::Done { value, used, notes } => shifted(
                infix_rest(
                    toks,
                    base,
                    pos + 1 + used,
                    level,
                    combine(level, left, toks[pos as int], value),
                    notes,
                ),
                used + 1,
            ),
            Parsed::Failed { message, used, notes } => Parsed::Failed {
                message,
                used: used + 1,
                notes,
            },
        }
    } else {
        Parsed::Done { value: left, used: 0, notes }
    }
}

/// One level of infix operators, left-associative:
/// operand (operator operand)*.
///
/// factor, term, comparison, equality, logic_and and logic_or are the
/// levels 0 to 5.
pub open spec fn infix_rule(
    toks: Seq<TokenView>,
    base: usize,
    pos: nat,
    level: nat,
    notes: Seq<Seq<char>>,
) -> Parsed<ExprView>
    decreases remaining(toks, pos), 10 + 2 * level,
{
    match operand_rule(toks, base, pos, level, notes) {
        Parsed::Done { value, used, notes } => shifted(
            infix_rest(toks, base, pos + used, level, value, notes),
            used,
        ),
        Parsed::Failed { message, used, notes } => Parsed::Failed { message, used, notes },
    }
}

/// assignment → IDENT "=" assignment | logic_or
///
/// The left side is parsed as an expression; only a variable may stand
/// there.
pub open spec fn assignment_rule(
    toks: Seq<TokenView>,
    base: usize,
    pos: nat,
    notes: Seq<Seq<char>>,
) -> Parsed<ExprView>
    decreases remaining(toks, pos), 29nat,
{
    match infix_rule(toks, base, pos, 5, notes) {
        Parsed::Done { value: target, used, notes } => if check(
            toks,
            pos + used,
            TokenType::EQUAL,
        ) {
            match assignment_rule(toks, base, pos + used + 1, notes) {
                Parsed::Done { value, used: more, notes } => match target {
                    ExprView::Variable { id, name } => Parsed::Done {
                        value: ExprView::Assign { id, name, value: Box::new(value) },
                        used: used + 1 + more,
                        notes,
                    },
                    _ => fail(
                        toks,
                        pos + used,
                        used + 1 + more,
                        notes,
                        "Invalid assignment target."@,
                    ),
                },
                Parsed::Failed { message, used: more, notes } => Parsed::Failed {
                    message,
                    used: used + 1 + more,
                    notes,
                },
            }
        } else {
            Parsed::Done { value: target, used, notes }
        },
        Parsed::Failed { message, used, notes } => Parsed::Failed { message, used, notes },
    }
}

/// expression → assignment
pub open spec fn expression_rule(
    toks: Seq<TokenView>,
    base: usize,
    pos: nat,
    notes: Seq<Seq<char>>,
) -> Parsed<ExprView>
    decreases remaining(toks, pos), 30nat,
{
    assignment_rule(toks, base, pos, notes)
}

/// An expression and the token that must follow it.
pub open spec fn expression_then(
    toks: Seq<TokenView>,
    base: usize,
    pos: nat,
    notes: Seq<Seq<char>>,
    closing: TokenType,
    message: Seq<char>,
) -> Parsed<ExprView>
    decreases remaining(toks, pos), 31nat,
{
    match expression_rule(toks, base, pos, notes) {
        Parsed::Done { value, used, notes } => if check(toks, pos + used, closing) {
            Parsed::Done { value, used: used + 1, notes }
        } else {
            fail(toks, pos + used, used, notes, message)
        },
        Parsed::Failed { message, used, notes } => Parsed::Failed { message, used, notes },
    }
}

/// printStmt → "print" expression ";" , after the keyword.
pub open spec fn print_rule(toks: Seq<TokenView>, base: usize, pos: nat, notes: Seq<Seq<char>>) -> Parsed<
    StmtView,
>
    decreases remaining(toks, pos), 32nat,
{
    match expression_then(toks, base, pos, notes, TokenType::SEMICOLON, "Expect ';' after value."@) {
        Parsed::Done { value, used, notes } => Parsed::Done {
            value: StmtView::Print { expression: value },
            used,
            notes,
        },
        Parsed::Failed { message, used, notes } => Parsed::Failed { message, used, notes },
    }
}

/// exprStmt → expression ";"
pub open spec fn expression_statement_rule(
    toks: Seq<TokenView>,
    base: usize,
    pos: nat,
    notes: Seq<Seq<char>>,
) -> Parsed<StmtView>
    decreases remaining(toks, pos), 32nat,
{
    match expression_then(
        toks,
        base,
        pos,
        notes,
        TokenType::SEMICOLON,
        "Expect ';' after expression."@,
    ) {
        Parsed::Done { value, used, notes } => Parsed::Done {
            value: StmtView::Expression { expression: value },
            used,
            notes,
        },
        Parsed::Failed { message, used, notes } => Parsed::Failed { message, used, notes },
    }
}

/// returnStmt → "return" expression? ";" , after the keyword, which the
/// node keeps. Without a value the statement returns `nil`.
pub open spec fn return_rule(toks: Seq<TokenView>, base: usize, pos: nat, notes: Seq<Seq<char>>) -> Parsed<
    StmtView,
>
    decreases remaining(toks, pos), 32nat,
{
    let keyword = toks[pos - 1];
    if check(toks, pos, TokenType::SEMICOLON) {
        Parsed::Done {
            value: StmtView::Return {
                keyword,
                value: ExprView::Literal { value: LiteralView::Nil },
            },
            used: 1,
            notes,
        }
    } else {
        match expression_then(
            toks,
            base,
            pos,
            notes,
            TokenType::SEMICOLON,
            "Expect ';' after return value."@,
        ) {
            Parsed::Done { value, used, notes } => Parsed::Done {
                value: StmtView::Return { keyword, value },
                used,
                notes,
            },
            Parsed::Failed { message, used, notes } => Parsed::Failed { message, used, notes },
        }
    }
}

/// varDecl → "var" IDENT ("=" expression)? ";" , after the keyword.
/// Without an initializer the variable starts as `nil`.
pub open spec fn var_rule(toks: Seq<TokenView>, base: usize, pos: nat, notes: Seq<Seq<char>>) -> Parsed<
    StmtView,
>
    decreases remaining(toks, pos), 33nat,
{
    if !check(toks, pos, TokenType::IDENTIFIER) {
        fail(toks, pos, 0, notes, "Expect variable name."@)
    } else {
        let name = toks[pos as int];
        if check(toks, pos + 1, TokenType::EQUAL) {
            match expression_then(
                toks,
                base,
                pos + 2,
                notes,
                TokenType::SEMICOLON,
                "Expect ';' after variable declaration."@,
            ) {
                Parsed::Done { value, used, notes } => Parsed::Done {
                    value: StmtView::Var { name, expression: value },
                    used: used + 2,
                    notes,
                },
                Parsed::Failed { message, used, notes } => Parsed::Failed {
                    message,
                    used: used + 2,
                    notes,
                },
            }
        } else if check(toks, pos + 1, TokenType::SEMICOLON) {
            Parsed::Done {
                value: StmtView::Var {
                    name,
                    expression: ExprView::Literal { value: LiteralView::Nil },
                },
                used: 2,
                notes,
            }
        } else {
            fail(toks, pos + 1, 1, notes, "Expect ';' after variable declaration."@)
        }
    }
}

/// ifStmt → "if" "(" expression ")" statement ("else" statement)? , after
/// the keyword.
pub open spec fn if_rule(toks: Seq<TokenView>, base: usize, pos: nat, notes: Seq<Seq<char>>) -> Parsed<
    StmtView,
>
    decreases remaining(toks, pos), 33nat,
{
    if !check(toks, pos, TokenType::LeftParen) {
        fail(toks, pos, 0, notes, "Expect '(' after 'if'."@)
    } else {
        match expression_then(
            toks,
            base,
            pos + 1,
            notes,
            TokenType::RightParen,
            "Expect ')' after if condition."@,
        ) {
            Parsed::Done { value: condition, used, notes } => match statement_rule(
                toks,
                base,
                pos + 1 + used,
                notes,
            ) {
                Parsed::Done { value: then_branch, used: more, notes } => if check(
                    toks,
                    pos + 1 + used + more,
                    TokenType::ELSE,
                ) {
                    match statement_rule(toks, base, pos + 1 + used + more + 1, notes) {
                        Parsed::Done { value: else_branch, used: last, notes } => Parsed::Done {
                            value: StmtView::If {
                                condition,
                                then_branch: Box::new(then_branch),
                                else_branch: Some(Box::new(else_branch)),
                            },
                            used: 1 + used + more + 1 + last,
                            notes,
                        },
                        Parsed::Failed { message, used: last, notes } => Parsed::Failed {
                            message,
                            used: 1 + used + more + 1 + last,
                            notes,
                        },
                    }
                } else {
                    Parsed::Done {
                        value: StmtView::If {
                            condition,
                            then_branch: Box::new(then_branch),
                            else_branch: None,
                        },
                        used: 1 + used + more,
                        notes,
                    }
                },
                Parsed::Failed { message, used: more, notes } => Parsed::Failed {
                    message,
                    used: 1 + used + more,
                    notes,
                },
            },
            Parsed::Failed { message, used, notes } => Parsed::Failed {
                message,
                used: 1 + used,
                notes,
            },
        }
    }
}

/// whileStmt → "while" "(" expression ")" statement , after the keyword.
pub open spec fn while_rule(toks: Seq<TokenView>, base: usize, pos: nat, notes: Seq<Seq<char>>) -> Parsed<
    StmtView,
>
    decreases remaining(toks, pos), 33nat,
{
    if !check(toks, pos, TokenType::LeftParen) {
        fail(toks, pos, 0, notes, "Expect '(' after 'while'."@)
    } else {
        match expression_then(
            toks,
            base,
            pos + 1,
            notes,
            TokenType::RightParen,
            "Expect ')' after condition."@,
        ) {
            Parsed::Done { value: condition, used, notes } => match statement_rule(
                toks,
                base,
                pos + 1 + used,
                notes,
            ) {
                Parsed::Done { value: body, used: more, notes } => Parsed::Done {
                    value: StmtView::While { condition, body: Box::new(body) },
                    used: 1 + used + more,
                    notes,
                },
                Parsed::Failed { message, used: more, notes } => Parsed::Failed {
                    message,
                    used: 1 + used + more,
                    notes,
                },
            },
            Parsed::Failed { message, used, notes } => Parsed::Failed {
                message,
                used: 1 + used,
                notes,
            },
        }
    }
}

/// The first clause of a `for`: a variable declaration, an expression
/// statement, or nothing but ";".
pub open spec fn initializer_rule(
    toks: Seq<TokenView>,
    base: usize,
    pos: nat,
    notes: Seq<Seq<char>>,
) -> Parsed<Option<StmtView>>
    decreases remaining(toks, pos), 34nat,
{
    if check(toks, pos, TokenType::SEMICOLON) {
        Parsed::Done { value: None, used: 1, notes }
    } else if check(toks, pos, TokenType::VAR) {
        match var_rule(toks, base, pos + 1, notes) {
            Parsed::Done { value, used, notes } => Parsed::Done {
                value: Some(value),
                used: used + 1,
                notes,
            },
            Parsed::Failed { message, used, notes } => Parsed::Failed {
                message,
                used: used + 1,
                notes,
            },
        }
    } else {
        match expression_statement_rule(toks, base, pos, notes) {
            Parsed::Done { value, used, notes } => Parsed::Done { value: Some(value), used, notes },
            Parsed::Failed { message, used, notes } => Parsed::Failed { message, used, notes },
        }
    }
}

/// The second clause of a `for`: expression? ";". Without a condition the
/// loop runs for ever.
pub open spec fn loop_condition_rule(
    toks: Seq<TokenView>,
    base: usize,
    pos: nat,
    notes: Seq<Seq<char>>,
) -> Parsed<ExprView>
    decreases remaining(toks, pos), 34nat,
{
    if check(toks, pos, TokenType::SEMICOLON) {
        Parsed::Done { value: ExprView::Literal { value: LiteralView::Bool(true) }, used: 1, notes }
    } else {
        expression_then(
            toks,
            base,
            pos,
            notes,
            TokenType::SEMICOLON,
            "Expect ';' after loop condition."@,
        )
    }
}

/// The third clause of a `for`: expression? ")".
pub open spec fn increment_rule(
    toks: Seq<TokenView>,
    base: usize,
    pos: nat,
    notes: Seq<Seq<char>>,
) -> Parsed<Option<ExprView>>
    decreases remaining(toks, pos), 34nat,
{
    if check(toks, pos, TokenType::RightParen) {
        Parsed::Done { value: None, used: 1, notes }
    } else {
        match expression_then(
            toks,
            base,
            pos,
            notes,
            TokenType::RightParen,
            "Expect ')' after for clauses."@,
        ) {
            Parsed::Done { value, used, notes } => Parsed::Done { value: Some(value), used, notes },
            Parsed::Failed { message, used, notes } => Parsed::Failed { message, used, notes },
        }
    }
}

/// What a `for` statement stands for: a block of the initializer and a
/// `while` loop, whose body is a block of the body and the increment.
/// A clause that is absent leaves its block out.
pub open spec fn desugared(
    initializer: Option<StmtView>,
    condition: ExprView,
    increment: Option<ExprView>,
    body: StmtView,
) -> StmtView {
    let inner = match increment {
        Some(inc) => StmtView::Block { stmts: seq![body, StmtView::Expression { expression: inc }] },
        None => body,
    };
    let looping = StmtView::While { condition, body: Box::new(inner) };
    match initializer {
        Some(init) => StmtView::Block { stmts: seq![init, looping] },
        None => looping,
    }
}

/// The end of a `for` statement, after its first two clauses:
/// expression? ")" statement.
pub open spec fn for_tail_rule(
    toks: Seq<TokenView>,
    base: usize,
    pos: nat,
    notes: Seq<Seq<char>>,
    initializer: Option<StmtView>,
    condition: ExprView,
) -> Parsed<StmtView>
    decreases remaining(toks, pos), 65nat,
{
    match increment_rule(toks, base, pos, notes) {
        Parsed::Done { value: increment, used, notes } => match statement_rule(
            toks,
            base,
            pos + used,
            notes,
        ) {
            Parsed::Done { value: body, used: more, notes } => Parsed::Done {
                value: desugared(initializer, condition, increment, body),
                used: used + more,
                notes,
            },
            Parsed::Failed { message, used: more, notes } => Parsed::Failed {
                message,
                used: used + more,
                notes,
            },
        },
        Parsed::Failed { message, used, notes } => Parsed::Failed { message, used, notes },
    }
}

/// forStmt → "for" "(" (varDecl | exprStmt | ";") expression? ";"
/// expression? ")" statement , after the keyword.
pub open spec fn for_rule(toks: Seq<TokenView>, base: usize, pos: nat, notes: Seq<Seq<char>>) -> Parsed<
    StmtView,
>
    decreases remaining(toks, pos), 35nat,
{
    if !check(toks, pos, TokenType::LeftParen) {
        fail(toks, pos, 0, notes, "Expect '(' after 'for'."@)
    } else {
        match initializer_rule(toks, base, pos + 1, notes) {
            Parsed::Done { value: initializer, used, notes } => match loop_condition_rule(
                toks,
                base,
                pos + 1 + used,
                notes,
            ) {
                Parsed::Done { value: condition, used: more, notes } => shifted(
                    for_tail_rule(toks, base, pos + 1 + used + more, notes, initializer, condition),
                    1 + used + more,
                ),
                Parsed::Failed { message, used: more, notes } => Parsed::Failed {
                    message,
                    used: 1 + used + more,
                    notes,
                },
            },
            Parsed::Failed { message, used, notes } => Parsed::Failed {
                message,
                used: 1 + used,
                notes,
            },
        }
    }
}

/// The declarations of a block up to its "}".
pub open spec fn block_rest(
    toks: Seq<TokenView>,
    base: usize,
    pos: nat,
    stmts: Seq<StmtView>,
    notes: Seq<Seq<char>>,
) -> Parsed<Seq<StmtView>>
    decreases remaining(toks, pos), 70nat,
{
    if check(toks, pos, TokenType::RightBrace) {
        Parsed::Done { value: stmts, used: 1, notes }
    } else if kind(toks, pos) == TokenType::EOF {
        fail(toks, pos, 0, notes, "Expect '}' after block."@)
    } else {
        match declaration_rule(toks, base, pos, notes) {
            Parsed::Done { value, used, notes } => if used == 0 {
                Parsed::Failed { message: Seq::empty(), used, notes }
            } else {
                shifted(block_rest(toks, base, pos + used, stmts.push(value), notes), used)
            },
            Parsed::Failed { message, used, notes } => Parsed::Failed { message, used, notes },
        }
    }
}

/// block → "{" declaration* "}" , after the opening brace.
pub open spec fn block_rule(toks: Seq<TokenView>, base: usize, pos: nat, notes: Seq<Seq<char>>) -> Parsed<
    Seq<StmtView>,
>
    decreases remaining(toks, pos), 71nat,
{
    block_rest(toks, base, pos, Seq::empty(), notes)
}

/// The parameters after the first: ("," IDENT)*. One parameter too many
/// gets a diagnostic and is taken all the same.
pub open spec fn parameters_rest(
    toks: Seq<TokenView>,
    pos: nat,
    params: Seq<TokenView>,
    notes: Seq<Seq<char>>,
) -> Parsed<Seq<TokenView>>
    decreases remaining(toks, pos),
{
    if check(toks, pos, TokenType::COMMA) {
        let noted = if params.len() >= argument_limit() {
            notes.push(
                parser_error_text(toks[pos + 1 as int], "Can't have more than 255 arguments."@),
            )
        } else {
            notes
        };
        if check(toks, pos + 1, TokenType::IDENTIFIER) {
            shifted(parameters_rest(toks, pos + 2, params.push(toks[pos + 1 as int]), noted), 2)
        } else {
            fail(toks, pos + 1, 1, noted, "Expect parameter name."@)
        }
    } else {
        Parsed::Done { value: params, used: 0, notes }
    }
}

/// parameters? ")" , after the opening parenthesis.
pub open spec fn parameters_rule(toks: Seq<TokenView>, pos: nat, notes: Seq<Seq<char>>) -> Parsed<
    Seq<TokenView>,
> {
    let params = if check(toks, pos, TokenType::RightParen) {
        Parsed::Done { value: Seq::empty(), used: 0, notes }
    } else if check(toks, pos, TokenType::IDENTIFIER) {
        shifted(parameters_rest(toks, pos + 1, seq![toks[pos as int]], notes), 1)
    } else {
        fail(toks, pos, 0, notes, "Expect parameter name."@)
    };
    match params {
        Parsed::Done { value, used, notes } => if check(toks, pos + used, TokenType::RightParen) {
            Parsed::Done { value, used: used + 1, notes }
        } else {
            fail(toks, pos + used, used, notes, "Expect ')' after parameters."@)
        },
        Parsed::Failed { message, used, notes } => Parsed::Failed { message, used, notes },
    }
}

/// The body of a function declaration, after its parameters: block.
pub open spec fn function_body_rule(
    toks: Seq<TokenView>,
    base: usize,
    pos: nat,
    notes: Seq<Seq<char>>,
    name: TokenView,
    params: Seq<TokenView>,
) -> Parsed<StmtView>
    decreases remaining(toks, pos), 72nat,
{
    if !check(toks, pos, TokenType::LeftBrace) {
        fail(toks, pos, 0, notes, "Expect '{' before function body."@)
    } else {
        match block_rule(toks, base, pos + 1, notes) {
            Parsed::Done { value: body, used, notes } => Parsed::Done {
                value: StmtView::Function { name, params, body },
                used: 1 + used,
                notes,
            },
            Parsed::Failed { message, used, notes } => Parsed::Failed {
                message,
                used: 1 + used,
                notes,
            },
        }
    }
}

/// funDecl → "fun" IDENT "(" parameters? ")" block , after the keyword.
pub open spec fn function_rule(
    toks: Seq<TokenView>,
    base: usize,
    pos: nat,
    notes: Seq<Seq<char>>,
) -> Parsed<StmtView>
    decreases remaining(toks, pos), 73nat,
{
    if !check(toks, pos, TokenType::IDENTIFIER) {
        fail(toks, pos, 0, notes, "Expect function name."@)
    } else if !check(toks, pos + 1, TokenType::LeftParen) {
        fail(toks, pos + 1, 1, notes, "Expect '(' after function name."@)
    } else {
        match parameters_rule(toks, pos + 2, notes) {
            Parsed::Done { value: params, used, notes } => shifted(
                function_body_rule(toks, base, pos + 2 + used, notes, toks[pos as int], params),
                2 + used,
            ),
            Parsed::Failed { message, used, notes } => Parsed::Failed {
                message,
                used: 2 + used,
                notes,
            },
        }
    }
}

/// statement → exprStmt | forStmt | ifStmt | printStmt | returnStmt
/// | whileStmt | block
pub open spec fn statement_rule(
    toks: Seq<TokenView>,
    base: usize,
    pos: nat,
    notes: Seq<Seq<char>>,
) -> Parsed<StmtView>
    decreases remaining(toks, pos), 60nat,
{
    if check(toks, pos, TokenType::FOR) {
        shifted(for_rule(toks, base, pos + 1, notes), 1)
    } else if check(toks, pos, TokenType::IF) {
        shifted(if_rule(toks, base, pos + 1, notes), 1)
    } else if check(toks, pos, TokenType::PRINT) {
        shifted(print_rule(toks, base, pos + 1, notes), 1)
    } else if check(toks, pos, TokenType::RETURN) {
        shifted(return_rule(toks, base, pos + 1, notes), 1)
    } else if check(toks, pos, TokenType::WHILE) {
        shifted(while_rule(toks, base, pos + 1, notes), 1)
    } else if check(toks, pos, TokenType::LeftBrace) {
        match block_rule(toks, base, pos + 1, notes) {
            Parsed::Done { value, used, notes } => Parsed::Done {
                value: StmtView::Block { stmts: value },
                used: used + 1,
                notes,
            },
            Parsed::Failed { message, used, notes } => Parsed::Failed {
                message,
                used: used + 1,
                notes,
            },
        }
    } else {
        expression_statement_rule(toks, base, pos, notes)
    }
}

/// declaration → funDecl | varDecl | statement
pub open spec fn declaration_rule(
    toks: Seq<TokenView>,
    base: usize,
    pos: nat,
    notes: Seq<Seq<char>>,
) -> Parsed<StmtView>
    decreases remaining(toks, pos), 61nat,
{
    if check(toks, pos, TokenType::VAR) {
        shifted(var_rule(toks, base, pos + 1, notes), 1)
    } else if check(toks, pos, TokenType::FUN) {
        shifted(function_rule(toks, base, pos + 1, notes), 1)
    } else {
        statement_rule(toks, base, pos, notes)
    }
}

/// Whether a statement is likely to start with a token of this kind.
pub open spec fn starts_statement(t: TokenType) -> bool {
    t == TokenType::CLASS || t == TokenType::FUN || t == TokenType::VAR || t == TokenType::FOR || t
        == TokenType::IF || t == TokenType::WHILE || t == TokenType::PRINT || t
        == TokenType::RETURN
}

/// The number of tokens skipped from `pos` up to the next place where a
/// statement may start: behind a ";", or before a keyword that starts one.
pub open spec fn skipped(toks: Seq<TokenView>, pos: nat) -> nat
    decreases remaining(toks, pos),
{
    if kind(toks, pos) == TokenType::EOF {
        0
    } else if pos > 0 && toks[pos - 1].token_type == TokenType::SEMICOLON {
        0
    } else if starts_statement(kind(toks, pos)) {
        0
    } else {
        1 + skipped(toks, pos + 1)
    }
}

/// The number of tokens that recovery from an error at `pos` discards: the
/// token at hand, and those up to the next start of a statement.
pub open spec fn synchronized(toks: Seq<TokenView>, pos: nat) -> nat {
    if kind(toks, pos) == TokenType::EOF {
        0
    } else {
        1 + skipped(toks, pos + 1)
    }
}

/// What the parser makes of a whole program.
pub struct Program {
    /// The statements that parsed.
    pub stmts: Seq<StmtView>,
    /// The message of the first error, if there was one.
    pub failure: Option<Seq<char>>,
    /// The diagnostics issued.
    pub notes: Seq<Seq<char>>,
    /// The position at which the parser stops.
    pub end: nat,
}

/// program → declaration* EOF , from the position `pos` on, after the
/// statements `stmts`, the first error `failure` and the diagnostics
/// `notes`.
///
/// After a declaration that fails the parser recovers and goes on with the
/// next declaration, so that every error gets its diagnostic. A declaration
/// takes at least one token.
pub open spec fn program_rest(
    toks: Seq<TokenView>,
    base: usize,
    pos: nat,
    stmts: Seq<StmtView>,
    failure: Option<Seq<char>>,
    notes: Seq<Seq<char>>,
) -> Program
    decreases remaining(toks, pos),
{
    if kind(toks, pos) == TokenType::EOF {
        Program { stmts, failure, notes, end: pos }
    } else {
        match declaration_rule(toks, base, pos, notes) {
            Parsed::Done { value, used, notes } => if used == 0 {
                Program { stmts, failure, notes, end: pos }
            } else {
                program_rest(toks, base, pos + used, stmts.push(value), failure, notes)
            },
            Parsed::Failed { message, used, notes } => program_rest(
                toks,
                base,
                pos + used + synchronized(toks, pos + used),
                stmts,
                match failure {
                    Some(m) => Some(m),
                    None => Some(message),
                },
                notes,
            ),
        }
    }
}

/// The message of a parse error.
pub open spec fn message_of(failure: Option<Error>) -> Option<Seq<char>> {
    match failure {
        Some(Error::ParseError(m)) => Some(m@),
        _ => None,
    }
}

/// The message of a parse that failed without a failing rule.
pub open spec fn limit_message() -> Seq<char> {
    "Can't have more than 255 arguments."@
}

/// The result of parsing a program: its statements if no diagnostic was
/// issued, else the message of the first error.
pub open spec fn program_result(p: Program, before: Seq<Seq<char>>) -> Result<Seq<StmtView>, ErrorView> {
    match p.failure {
        Some(m) => Err(ErrorView::ParseError(m)),
        None => if p.notes.len() == before.len() {
            Ok(p.stmts)
        } else {
            Err(ErrorView::ParseError(limit_message()))
        },
    }
}


/// The parser's state.
#[derive(Debug)]
pub struct Parser {
    /// The tokens, the last of which marks the end.
    pub tokens: Vec<Token>,
    /// The next token to take.
    pub current: usize,
    /// The identity of a variable reference is `base` plus the position of
    /// its name among the tokens.
    pub base: usize,
    /// The diagnostics issued so far.
    pub diagnostics: Vec<String>,
}

/// The view of what a rule returns for an expression.
pub open spec fn expr_result(r: Result<Expr, Error>) -> Result<ExprView, ErrorView> {
    match r {
        Ok(e) => Ok(e@),
        Err(e) => Err(e@),
    }
}

/// The view of what a rule returns for a list of expressions.
pub open spec fn exprs_result(r: Result<Vec<Expr>, Error>) -> Result<Seq<ExprView>, ErrorView> {
    match r {
        Ok(e) => Ok(expr_views(e@)),
        Err(e) => Err(e@),
    }
}

/// The view of what a rule returns for a list of tokens.
pub open spec fn tokens_result(r: Result<Vec<Token>, Error>) -> Result<Seq<TokenView>, ErrorView> {
    match r {
        Ok(t) => Ok(token_views(t@)),
        Err(e) => Err(e@),
    }
}

/// The view of what a rule returns for an expression that may be absent.
pub open spec fn optional_expr_result(r: Result<Option<Expr>, Error>) -> Result<
    Option<ExprView>,
    ErrorView,
> {
    match r {
        Ok(e) => Ok(optional_expr_view(e)),
        Err(e) => Err(e@),
    }
}

/// The view of what a rule returns for a statement that may be absent.
pub open spec fn optional_stmt_result(r: Result<Option<Stmt>, Error>) -> Result<
    Option<StmtView>,
    ErrorView,
> {
    match r {
        Ok(s) => Ok(optional_stmt_view(s)),
        Err(e) => Err(e@),
    }
}

/// The view of what a rule returns for a statement.
pub open spec fn stmt_result(r: Result<Stmt, Error>) -> Result<StmtView, ErrorView> {
    match r {
        Ok(s) => Ok(s@),
        Err(e) => Err(e@),
    }
}

/// The view of what a rule returns for a list of statements.
pub open spec fn stmts_result(r: Result<Vec<Stmt>, Error>) -> Result<Seq<StmtView>, ErrorView> {
    match r {
        Ok(s) => Ok(stmt_views(s@)),
        Err(e) => Err(e@),
    }
}

/// The parser after a rule that took `used` tokens and left the
/// diagnostics `notes`.
pub open spec fn stepped(before: Parser, after: Parser, used: nat, notes: Seq<Seq<char>>) -> bool {
    &&& after.wf()
    &&& after.tokens == before.tokens
    &&& after.base == before.base
    &&& after.current == before.current + used
    &&& after.notes() == notes
}

/// Whether the parser has done what a rule says.
pub open spec fn agrees<T>(before: Parser, after: Parser, r: Result<T, ErrorView>, p: Parsed<T>) -> bool {
    match p {
        Parsed::Done { value, used, notes } => r == Ok::<T, ErrorView>(value) && stepped(
            before,
            after,
            used,
            notes,
        ),
        Parsed::Failed { message, used, notes } => r == Err::<T, ErrorView>(
            ErrorView::ParseError(message),
        ) && stepped(before, after, used, notes),
    }
}

/// A rule that matches takes at least one token; one that fails issues at
/// least one diagnostic; no rule takes a diagnostic back.
pub open spec fn advanced(before: Parser, after: Parser, ok: bool) -> bool {
    &&& after.diagnostics@.len() >= before.diagnostics@.len()
    &&& (!ok ==> after.diagnostics@.len() > before.diagnostics@.len())
    &&& (ok ==> after.current > before.current)
}

fn push_expr(v: &mut Vec<Expr>, e: Expr)
    ensures
        expr_views(final(v)@) == expr_views(old(v)@).push(e@),
        final(v)@.len() == old(v)@.len() + 1,
{
    v.push(e);
    assert(expr_views(v@) =~= expr_views(old(v)@).push(e@));
}

fn push_stmt(v: &mut Vec<Stmt>, s: Stmt)
    ensures
        stmt_views(final(v)@) == stmt_views(old(v)@).push(s@),
        final(v)@.len() == old(v)@.len() + 1,
{
    v.push(s);
    assert(stmt_views(v@) =~= stmt_views(old(v)@).push(s@));
}

fn push_token(v: &mut Vec<Token>, t: Token)
    ensures
        token_views(final(v)@) == token_views(old(v)@).push(t@),
        final(v)@.len() == old(v)@.len() + 1,
{
    v.push(t);
    assert(token_views(v@) =~= token_views(old(v)@).push(t@));
}

fn operator_of(level: usize, t: TokenType) -> (r: bool)
    ensures
        r == is_operator(level as nat, t),
{
    if level == 0 {
        t == TokenType::SLASH || t == TokenType::STAR
    } else if level == 1 {
        t == TokenType::MINUS || t == TokenType::PLUS
    } else if level == 2 {
        t == TokenType::GREATER || t == TokenType::GreaterEqual || t == TokenType::LESS || t
            == TokenType::LessEqual
    } else if level == 3 {
        t == TokenType::BangEqual || t == TokenType::EqualEqual
    } else if level == 4 {
        t == TokenType::AND
    } else {
        t == TokenType::OR
    }
}

fn statement_start(t: TokenType) -> (r: bool)
    ensures
        r == starts_statement(t),
{
    t == TokenType::CLASS || t == TokenType::FUN || t == TokenType::VAR || t == TokenType::FOR || t
        == TokenType::IF || t == TokenType::WHILE || t == TokenType::PRINT || t
        == TokenType::RETURN
}

impl Parser {
    /// Whether the parser's parts fit together: the tokens end with the
    /// mark of the end, the next token is one of them, and every token's
    /// identity fits a machine word.
    pub open spec fn wf(&self) -> bool {
        &&& self.tokens@.len() > 0
        &&& self.tokens@.last().token_type == TokenType::EOF
        &&& self.current < self.tokens@.len()
        &&& self.base + self.tokens@.len() <= usize::MAX
    }

    /// The views of the tokens.
    pub open spec fn toks(&self) -> Seq<TokenView> {
        token_views(self.tokens@)
    }

    /// The diagnostics issued so far.
    pub open spec fn notes(&self) -> Seq<Seq<char>> {
        text_views(self.diagnostics@)
    }

    /// A parser at the start of a list of tokens that ends with the mark of
    /// the end. Identities of variable references start at 0.
    pub fn new(tokens: Vec<Token>) -> (r: Parser)
        requires
            tokens@.len() > 0,
            tokens@.last().token_type == TokenType::EOF,
        ensures
            r.wf(),
            r.tokens == tokens,
            r.current == 0,
            r.base == 0,
            r.diagnostics@.len() == 0,
    {
        proof {
            vstd::std_specs::vec::axiom_spec_len(&tokens);
        }
        Parser { tokens, current: 0, base: 0, diagnostics: Vec::new() }
    }

    /// A parser whose identities of variable references start at `base`:
    /// for a program that runs in an interpreter that has taken other
    /// programs before.
    pub fn with_base(tokens: Vec<Token>, base: usize) -> (r: Parser)
        requires
            tokens@.len() > 0,
            tokens@.last().token_type == TokenType::EOF,
            base + tokens@.len() <= usize::MAX,
        ensures
            r.wf(),
            r.tokens == tokens,
            r.current == 0,
            r.base == base,
            r.diagnostics@.len() == 0,
    {
        Parser { tokens, current: 0, base, diagnostics: Vec::new() }
    }

    fn peek_type(&self) -> (r: TokenType)
        requires
            self.wf(),
        ensures
            r == kind(self.toks(), self.current as nat),
    {
        self.tokens[self.current].token_type
    }

    fn is_at_end(&self) -> (r: bool)
        requires
            self.wf(),
        ensures
            r == (kind(self.toks(), self.current as nat) == TokenType::EOF),
    {
        self.peek_type() == TokenType::EOF
    }

    fn check(&self, token_type: TokenType) -> (r: bool)
        requires
            self.wf(),
        ensures
            r == check(self.toks(), self.current as nat, token_type),
    {
        if self.is_at_end() {
            return false;
        }
        self.peek_type() == token_type
    }

    fn peek(&self) -> (r: Token)
        requires
            self.wf(),
        ensures
            r == self.tokens@[self.current as int],
    {
        self.tokens[self.current].clone()
    }

    fn previous(&self) -> (r: Token)
        requires
            self.wf(),
            self.current > 0,
        ensures
            r == self.tokens@[self.current - 1],
    {
        self.tokens[self.current - 1].clone()
    }

    fn advance(&mut self)
        requires
            old(self).wf(),
        ensures
            stepped(
                *old(self),
                *final(self),
                if kind(old(self).toks(), old(self).current as nat) == TokenType::EOF {
                    0
                } else {
                    1
                },
                old(self).notes(),
            ),
            final(self).diagnostics == old(self).diagnostics,
    {
        if !self.is_at_end() {
            self.current += 1;
        }
    }

    fn match_one_token(&mut self, token_type: TokenType) -> (r: bool)
        requires
            old(self).wf(),
        ensures
            r == check(old(self).toks(), old(self).current as nat, token_type),
            stepped(
                *old(self),
                *final(self),
                if r {
                    1
                } else {
                    0
                },
                old(self).notes(),
            ),
            final(self).diagnostics == old(self).diagnostics,
    {
        if self.check(token_type) {
            self.advance();
            true
        } else {
            false
        }
    }

    /// Issues the diagnostic of an error at a token.
    fn error(&mut self, token: &Token, message: &str) -> (r: Error)
        requires
            old(self).wf(),
        ensures
            r@ == ErrorView::ParseError(message@),
            stepped(
                *old(self),
                *final(self),
                0,
                old(self).notes().push(parser_error_text(token@, message@)),
            ),
            final(self).diagnostics@.len() == old(self).diagnostics@.len() + 1,
    {
        let text = parser_error(token, message);
        self.diagnostics.push(text);
        assert(self.notes() =~= old(self).notes().push(parser_error_text(token@, message@)));
        Error::ParseError(String::from_str(message))
    }

    fn consume(&mut self, token_type: TokenType, message: &str) -> (r: Result<Token, Error>)
        requires
            old(self).wf(),
        ensures
            advanced(*old(self), *final(self), r is Ok),
            match r {
                Ok(token) => check(old(self).toks(), old(self).current as nat, token_type) && token
                    == old(self).tokens@[old(self).current as int] && stepped(
                    *old(self),
                    *final(self),
                    1,
                    old(self).notes(),
                ),
                Err(e) => !check(old(self).toks(), old(self).current as nat, token_type) && e@
                    == ErrorView::ParseError(message@) && stepped(
                    *old(self),
                    *final(self),
                    0,
                    old(self).notes().push(
                        parser_error_text(old(self).toks()[old(self).current as int], message@),
                    ),
                ),
            },
    {
        if self.check(token_type) {
            let token = self.peek();
            self.advance();
            return Ok(token);
        }
        let token = self.peek();
        Err(self.error(&token, message))
    }

    /// primary → NUMBER | STRING | "true" | "false" | "nil" | "(" expression ")" | IDENT
    #[verifier::rlimit(50)]
    fn primary(&mut self) -> (r: Result<Expr, Error>)
        requires
            old(self).wf(),
        ensures
            advanced(*old(self), *final(self), r is Ok),
            agrees(
                *old(self),
                *final(self),
                expr_result(r),
                primary_rule(
                    old(self).toks(),
                    old(self).base,
                    old(self).current as nat,
                    old(self).notes(),
                ),
            ),
        decreases old(self).tokens@.len() - old(self).current, 2nat,
    {
        let k = self.peek_type();
        if k == TokenType::FALSE {
            self.advance();
            return Ok(Expr::Literal { value: Literal::Bool(false) });
        }
        if k == TokenType::TRUE {
            self.advance();
            return Ok(Expr::Literal { value: Literal::Bool(true) });
        }
        if k == TokenType::NIL {
            self.advance();
            return Ok(Expr::Literal { value: Literal::Nil });
        }
        if k == TokenType::STRING || k == TokenType::NUMBER {
            let value = self.tokens[self.current].literal.clone();
            self.advance();
            return Ok(Expr::Literal { value });
        }
        if k == TokenType::IDENTIFIER {
            let name = self.peek();
            let id = self.base + self.current;
            self.advance();
            return Ok(Expr::Variable { id, name });
        }
        if k == TokenType::LeftParen {
            self.advance();
            let expr = match self.expression() {
                Ok(e) => e,
                Err(e) => {
                    return Err(e);
                },
            };
            match self.consume(TokenType::RightParen, "Expect ')' after expression.") {
                Ok(_) => {
                    return Ok(Expr::Grouping { expression: Box::new(expr) });
                },
                Err(e) => {
                    return Err(e);
                },
            }
        }
        let token = self.peek();
        Err(self.error(&token, "Expect expression."))
    }

    /// Issues the diagnostic for one argument or parameter too many, at the
    /// token at hand, if `count` have been taken already.
    fn note_limit(&mut self, count: usize)
        requires
            old(self).wf(),
        ensures
            stepped(
                *old(self),
                *final(self),
                0,
                if count >= argument_limit() {
                    old(self).notes().push(
                        parser_error_text(
                            old(self).toks()[old(self).current as int],
                            "Can't have more than 255 arguments."@,
                        ),
                    )
                } else {
                    old(self).notes()
                },
            ),
            final(self).diagnostics@.len() >= old(self).diagnostics@.len(),
    {
        if count >= 255 {
            let token = self.peek();
            self.error(&token, "Can't have more than 255 arguments.");
        }
    }

    /// The arguments after the first: ("," expression)*.
    #[verifier::loop_isolation(false)]
    #[verifier::rlimit(50)]
    fn more_arguments(&mut self, first: Expr) -> (r: Result<Vec<Expr>, Error>)
        requires
            old(self).wf(),
        ensures
            final(self).diagnostics@.len() >= old(self).diagnostics@.len(),
            r is Err ==> final(self).diagnostics@.len() > old(self).diagnostics@.len(),
            agrees(
                *old(self),
                *final(self),
                exprs_result(r),
                arguments_rest(
                    old(self).toks(),
                    old(self).base,
                    old(self).current as nat,
                    seq![first@],
                    old(self).notes(),
                ),
            ),
        decreases old(self).tokens@.len() - old(self).current, 0nat,
    {
        let mut arguments: Vec<Expr> = Vec::new();
        push_expr(&mut arguments, first);
        let ghost mut args = seq![first@];
        assert(expr_views(arguments@) =~= args);
        let ghost origin = old(self).current as nat;
        let ghost target = arguments_rest(
            old(self).toks(),
            old(self).base,
            old(self).current as nat,
            seq![first@],
            old(self).notes(),
        );
        loop
            invariant
                self.wf(),
                self.tokens == old(self).tokens,
                self.base == old(self).base,
                self.current >= origin,
                self.diagnostics@.len() >= old(self).diagnostics@.len(),
                args == expr_views(arguments@),
                args.len() == arguments@.len(),
                target == shifted(
                    arguments_rest(self.toks(), self.base, self.current as nat, args, self.notes()),
                    (self.current - origin) as nat,
                ),
            decreases self.tokens@.len() - self.current,
        {
            if !self.match_one_token(TokenType::COMMA) {
                break ;
            }
            self.note_limit(arguments.len());
            let next = match self.expression() {
                Ok(e) => e,
                Err(e) => {
                    return Err(e);
                },
            };
            push_expr(&mut arguments, next);
            proof {
                args = args.push(next@);
            }
        }
        Ok(arguments)
    }

    /// arguments? : the arguments of a call, up to but without its ")".
    fn arguments(&mut self) -> (r: Result<Vec<Expr>, Error>)
        requires
            old(self).wf(),
        ensures
            final(self).diagnostics@.len() >= old(self).diagnostics@.len(),
            r is Err ==> final(self).diagnostics@.len() > old(self).diagnostics@.len(),
            agrees(
                *old(self),
                *final(self),
                exprs_result(r),
                arguments_rule(
                    old(self).toks(),
                    old(self).base,
                    old(self).current as nat,
                    old(self).notes(),
                ),
            ),
        decreases old(self).tokens@.len() - old(self).current, 35nat,
    {
        if self.check(TokenType::RightParen) {
            let none: Vec<Expr> = Vec::new();
            assert(expr_views(none@) =~= Seq::<ExprView>::empty());
            return Ok(none);
        }
        let first = match self.expression() {
            Ok(e) => e,
            Err(e) => {
                return Err(e);
            },
        };
        self.more_arguments(first)
    }

    /// The rest of a call after its "(": arguments? ")".
    #[verifier::rlimit(50)]
    fn finish_call(&mut self, callee: Expr) -> (r: Result<Expr, Error>)
        requires
            old(self).wf(),
        ensures
            advanced(*old(self), *final(self), r is Ok),
            agrees(
                *old(self),
                *final(self),
                expr_result(r),
                finish_call_rule(
                    old(self).toks(),
                    old(self).base,
                    old(self).current as nat,
                    callee@,
                    old(self).notes(),
                ),
            ),
        decreases old(self).tokens@.len() - old(self).current, 36nat,
    {
        let arguments = match self.arguments() {
            Ok(a) => a,
            Err(e) => {
                return Err(e);
            },
        };
        let paren = match self.consume(TokenType::RightParen, "Expect ')' after arguments.") {
            Ok(t) => t,
            Err(e) => {
                return Err(e);
            },
        };
        Ok(Expr::Call { callee: Box::new(callee), paren, arguments })
    }

    /// The calls that follow a callee: ("(" arguments? ")")*.
    #[verifier::rlimit(50)]
    fn call_tail(&mut self, callee: Expr) -> (r: Result<Expr, Error>)
        requires
            old(self).wf(),
        ensures
            final(self).diagnostics@.len() >= old(self).diagnostics@.len(),
            r is Err ==> final(self).diagnostics@.len() > old(self).diagnostics@.len(),
            agrees(
                *old(self),
                *final(self),
                expr_result(r),
                call_rest(
                    old(self).toks(),
                    old(self).base,
                    old(self).current as nat,
                    callee@,
                    old(self).notes(),
                ),
            ),
        decreases old(self).tokens@.len() - old(self).current, 0nat,
    {
        if self.match_one_token(TokenType::LeftParen) {
            match self.finish_call(callee) {
                Ok(e) => self.call_tail(e),
                Err(e) => Err(e),
            }
        } else {
            Ok(callee)
        }
    }

    /// call → primary ("(" arguments? ")")*
    fn call(&mut self) -> (r: Result<Expr, Error>)
        requires
            old(self).wf(),
        ensures
            advanced(*old(self), *final(self), r is Ok),
            agrees(
                *old(self),
                *final(self),
                expr_result(r),
                call_rule(
                    old(self).toks(),
                    old(self).base,
                    old(self).current as nat,
                    old(self).notes(),
                ),
            ),
        decreases old(self).tokens@.len() - old(self).current, 3nat,
    {
        match self.primary() {
            Ok(e) => self.call_tail(e),
            Err(e) => Err(e),
        }
    }

    /// unary → ("!" | "-") unary | call
    fn unary(&mut self) -> (r: Result<Expr, Error>)
        requires
            old(self).wf(),
        ensures
            advanced(*old(self), *final(self), r is Ok),
            agrees(
                *old(self),
                *final(self),
                expr_result(r),
                unary_rule(
                    old(self).toks(),
                    old(self).base,
                    old(self).current as nat,
                    old(self).notes(),
                ),
            ),
        decreases old(self).tokens@.len() - old(self).current, 4nat,
    {
        if self.check(TokenType::BANG) || self.check(TokenType::MINUS) {
            let operator = self.peek();
            self.advance();
            let right = match self.unary() {
                Ok(e) => e,
                Err(e) => {
                    return Err(e);
                },
            };
            return Ok(Expr::Unary { operator, right: Box::new(right) });
        }
        self.call()
    }

    /// factor → unary (("/" | "*") unary)*
    fn factor(&mut self) -> (r: Result<Expr, Error>)
        requires
            old(self).wf(),
        ensures
            advanced(*old(self), *final(self), r is Ok),
            agrees(
                *old(self),
                *final(self),
                expr_result(r),
                infix_rule(
                    old(self).toks(),
                    old(self).base,
                    old(self).current as nat,
                    0,
                    old(self).notes(),
                ),
            ),
        decreases old(self).tokens@.len() - old(self).current, 11nat,
    {
        self.infix(0)
    }

    /// term → factor (("-" | "+") factor)*
    fn term(&mut self) -> (r: Result<Expr, Error>)
        requires
            old(self).wf(),
        ensures
            advanced(*old(self), *final(self), r is Ok),
            agrees(
                *old(self),
                *final(self),
                expr_result(r),
                infix_rule(
                    old(self).toks(),
                    old(self).base,
                    old(self).current as nat,
                    1,
                    old(self).notes(),
                ),
            ),
        decreases old(self).tokens@.len() - old(self).current, 14nat,
    {
        self.infix(1)
    }

    /// comparison → term ((">" | ">=" | "<" | "<=") term)*
    fn comparison(&mut self) -> (r: Result<Expr, Error>)
        requires
            old(self).wf(),
        ensures
            advanced(*old(self), *final(self), r is Ok),
            agrees(
                *old(self),
                *final(self),
                expr_result(r),
                infix_rule(
                    old(self).toks(),
                    old(self).base,
                    old(self).current as nat,
                    2,
                    old(self).notes(),
                ),
            ),
        decreases old(self).tokens@.len() - old(self).current, 17nat,
    {
        self.infix(2)
    }

    /// equality → comparison (("!=" | "==") comparison)*
    fn equality(&mut self) -> (r: Result<Expr, Error>)
        requires
            old(self).wf(),
        ensures
            advanced(*old(self), *final(self), r is Ok),
            agrees(
                *old(self),
                *final(self),
                expr_result(r),
                infix_rule(
                    old(self).toks(),
                    old(self).base,
                    old(self).current as nat,
                    3,
                    old(self).notes(),
                ),
            ),
        decreases old(self).tokens@.len() - old(self).current, 20nat,
    {
        self.infix(3)
    }

    /// logic_and → equality ("and" equality)*
    fn and(&mut self) -> (r: Result<Expr, Error>)
        requires
            old(self).wf(),
        ensures
            advanced(*old(self), *final(self), r is Ok),
            agrees(
                *old(self),
                *final(self),
                expr_result(r),
                infix_rule(
                    old(self).toks(),
                    old(self).base,
                    old(self).current as nat,
                    4,
                    old(self).notes(),
                ),
            ),
        decreases old(self).tokens@.len() - old(self).current, 23nat,
    {
        self.infix(4)
    }

    /// logic_or → logic_and ("or" logic_and)*
    fn or(&mut self) -> (r: Result<Expr, Error>)
        requires
            old(self).wf(),
        ensures
            advanced(*old(self), *final(self), r is Ok),
            agrees(
                *old(self),
                *final(self),
                expr_result(r),
                infix_rule(
                    old(self).toks(),
                    old(self).base,
                    old(self).current as nat,
                    5,
                    old(self).notes(),
                ),
            ),
        decreases old(self).tokens@.len() - old(self).current, 26nat,
    {
        self.infix(5)
    }

    /// The operand of a level of infix operators.
    fn operand(&mut self, level: usize) -> (r: Result<Expr, Error>)
        requires
            old(self).wf(),
            level <= 5,
        ensures
            advanced(*old(self), *final(self), r is Ok),
            agrees(
                *old(self),
                *final(self),
                expr_result(r),
                operand_rule(
                    old(self).toks(),
                    old(self).base,
                    old(self).current as nat,
                    level as nat,
                    old(self).notes(),
                ),
            ),
        decreases old(self).tokens@.len() - old(self).current, 9 + 3 * level,
    {
        if level == 0 {
            self.unary()
        } else if level == 1 {
            self.factor()
        } else if level == 2 {
            self.term()
        } else if level == 3 {
            self.comparison()
        } else if level == 4 {
            self.equality()
        } else {
            self.and()
        }
    }

    /// One level of infix operators: operand (operator operand)*.
    #[verifier::loop_isolation(false)]
    #[verifier::rlimit(50)]
    fn infix(&mut self, level: usize) -> (r: Result<Expr, Error>)
        requires
            old(self).wf(),
            level <= 5,
        ensures
            advanced(*old(self), *final(self), r is Ok),
            agrees(
                *old(self),
                *final(self),
                expr_result(r),
                infix_rule(
                    old(self).toks(),
                    old(self).base,
                    old(self).current as nat,
                    level as nat,
                    old(self).notes(),
                ),
            ),
        decreases old(self).tokens@.len() - old(self).current, 10 + 3 * level,
    {
        let mut expr = match self.operand(level) {
            Ok(e) => e,
            Err(e) => {
                return Err(e);
            },
        };
        let ghost origin = old(self).current as nat;
        let ghost target = infix_rule(
            old(self).toks(),
            old(self).base,
            old(self).current as nat,
            level as nat,
            old(self).notes(),
        );
        loop
            invariant
                self.wf(),
                self.tokens == old(self).tokens,
                self.base == old(self).base,
                self.current > origin,
                self.diagnostics@.len() >= old(self).diagnostics@.len(),
                target == shifted(
                    infix_rest(
                        self.toks(),
                        self.base,
                        self.current as nat,
                        level as nat,
                        expr@,
                        self.notes(),
                    ),
                    (self.current - origin) as nat,
                ),
            decreases self.tokens@.len() - self.current,
        {
            let k = self.peek_type();
            if k == TokenType::EOF || !operator_of(level, k) {
                break ;
            }
            let operator = self.peek();
            self.advance();
            let right = match self.operand(level) {
                Ok(e) => e,
                Err(e) => {
                    return Err(e);
                },
            };
            expr = if level >= 4 {
                Expr::Logic { left: Box::new(expr), operator, right: Box::new(right) }
            } else {
                Expr::Binary { left: Box::new(expr), operator, right: Box::new(right) }
            };
        }
        Ok(expr)
    }

    /// assignment → IDENT "=" assignment | logic_or
    #[verifier::rlimit(50)]
    fn assignment(&mut self) -> (r: Result<Expr, Error>)
        requires
            old(self).wf(),
        ensures
            advanced(*old(self), *final(self), r is Ok),
            agrees(
                *old(self),
                *final(self),
                expr_result(r),
                assignment_rule(
                    old(self).toks(),
                    old(self).base,
                    old(self).current as nat,
                    old(self).notes(),
                ),
            ),
        decreases old(self).tokens@.len() - old(self).current, 29nat,
    {
        let expr = match self.or() {
            Ok(e) => e,
            Err(e) => {
                return Err(e);
            },
        };
        if self.match_one_token(TokenType::EQUAL) {
            let equals = self.previous();
            let value = match self.assignment() {
                Ok(e) => e,
                Err(e) => {
                    return Err(e);
                },
            };
            return match expr {
                Expr::Variable { id, name } => Ok(Expr::Assign { id, name, value: Box::new(value) }),
                _ => Err(self.error(&equals, "Invalid assignment target.")),
            };
        }
        Ok(expr)
    }

    /// expression → assignment
    fn expression(&mut self) -> (r: Result<Expr, Error>)
        requires
            old(self).wf(),
        ensures
            advanced(*old(self), *final(self), r is Ok),
            agrees(
                *old(self),
                *final(self),
                expr_result(r),
                expression_rule(
                    old(self).toks(),
                    old(self).base,
                    old(self).current as nat,
                    old(self).notes(),
                ),
            ),
        decreases old(self).tokens@.len() - old(self).current, 30nat,
    {
        self.assignment()
    }

    /// An expression and the token that must follow it.
    fn expression_then(&mut self, closing: TokenType, message: &str) -> (r: Result<Expr, Error>)
        requires
            old(self).wf(),
        ensures
            advanced(*old(self), *final(self), r is Ok),
            agrees(
                *old(self),
                *final(self),
                expr_result(r),
                expression_then(
                    old(self).toks(),
                    old(self).base,
                    old(self).current as nat,
                    old(self).notes(),
                    closing,
                    message@,
                ),
            ),
        decreases old(self).tokens@.len() - old(self).current, 31nat,
    {
        let expr = match self.expression() {
            Ok(e) => e,
            Err(e) => {
                return Err(e);
            },
        };
        match self.consume(closing, message) {
            Ok(_) => Ok(expr),
            Err(e) => Err(e),
        }
    }

    /// printStmt → "print" expression ";"
    fn print_statement(&mut self) -> (r: Result<Stmt, Error>)
        requires
            old(self).wf(),
        ensures
            advanced(*old(self), *final(self), r is Ok),
            agrees(
                *old(self),
                *final(self),
                stmt_result(r),
                print_rule(
                    old(self).toks(),
                    old(self).base,
                    old(self).current as nat,
                    old(self).notes(),
                ),
            ),
        decreases old(self).tokens@.len() - old(self).current, 32nat,
    {
        match self.expression_then(TokenType::SEMICOLON, "Expect ';' after value.") {
            Ok(value) => Ok(Stmt::Print { expression: value }),
            Err(e) => Err(e),
        }
    }

    /// exprStmt → expression ";"
    fn expression_statement(&mut self) -> (r: Result<Stmt, Error>)
        requires
            old(self).wf(),
        ensures
            advanced(*old(self), *final(self), r is Ok),
            agrees(
                *old(self),
                *final(self),
                stmt_result(r),
                expression_statement_rule(
                    old(self).toks(),
                    old(self).base,
                    old(self).current as nat,
                    old(self).notes(),
                ),
            ),
        decreases old(self).tokens@.len() - old(self).current, 32nat,
    {
        match self.expression_then(TokenType::SEMICOLON, "Expect ';' after expression.") {
            Ok(expr) => Ok(Stmt::Expression { expression: expr }),
            Err(e) => Err(e),
        }
    }

    /// returnStmt → "return" expression? ";"
    fn return_statement(&mut self) -> (r: Result<Stmt, Error>)
        requires
            old(self).wf(),
            old(self).current > 0,
        ensures
            advanced(*old(self), *final(self), r is Ok),
            agrees(
                *old(self),
                *final(self),
                stmt_result(r),
                return_rule(
                    old(self).toks(),
                    old(self).base,
                    old(self).current as nat,
                    old(self).notes(),
                ),
            ),
        decreases old(self).tokens@.len() - old(self).current, 32nat,
    {
        let keyword = self.previous();
        if self.match_one_token(TokenType::SEMICOLON) {
            return Ok(Stmt::Return { keyword, value: Expr::Literal { value: Literal::Nil } });
        }
        match self.expression_then(TokenType::SEMICOLON, "Expect ';' after return value.") {
            Ok(value) => Ok(Stmt::Return { keyword, value }),
            Err(e) => Err(e),
        }
    }

    /// varDecl → "var" IDENT ("=" expression)? ";"
    fn var_declaration(&mut self) -> (r: Result<Stmt, Error>)
        requires
            old(self).wf(),
        ensures
            advanced(*old(self), *final(self), r is Ok),
            agrees(
                *old(self),
                *final(self),
                stmt_result(r),
                var_rule(
                    old(self).toks(),
                    old(self).base,
                    old(self).current as nat,
                    old(self).notes(),
                ),
            ),
        decreases old(self).tokens@.len() - old(self).current, 33nat,
    {
        let name = match self.consume(TokenType::IDENTIFIER, "Expect variable name.") {
            Ok(t) => t,
            Err(e) => {
                return Err(e);
            },
        };
        if self.match_one_token(TokenType::EQUAL) {
            match self.expression_then(
                TokenType::SEMICOLON,
                "Expect ';' after variable declaration.",
            ) {
                Ok(initializer) => Ok(Stmt::Var { name, expression: initializer }),
                Err(e) => Err(e),
            }
        } else {
            match self.consume(TokenType::SEMICOLON, "Expect ';' after variable declaration.") {
                Ok(_) => Ok(Stmt::Var { name, expression: Expr::Literal { value: Literal::Nil } }),
                Err(e) => Err(e),
            }
        }
    }

    /// ifStmt → "if" "(" expression ")" statement ("else" statement)?
    #[verifier::rlimit(50)]
    fn if_statement(&mut self) -> (r: Result<Stmt, Error>)
        requires
            old(self).wf(),
        ensures
            advanced(*old(self), *final(self), r is Ok),
            agrees(
                *old(self),
                *final(self),
                stmt_result(r),
                if_rule(
                    old(self).toks(),
                    old(self).base,
                    old(self).current as nat,
                    old(self).notes(),
                ),
            ),
        decreases old(self).tokens@.len() - old(self).current, 33nat,
    {
        match self.consume(TokenType::LeftParen, "Expect '(' after 'if'.") {
            Ok(_) => {},
            Err(e) => {
                return Err(e);
            },
        }
        let condition = match self.expression_then(
            TokenType::RightParen,
            "Expect ')' after if condition.",
        ) {
            Ok(c) => c,
            Err(e) => {
                return Err(e);
            },
        };
        let then_branch = match self.statement() {
            Ok(s) => s,
            Err(e) => {
                return Err(e);
            },
        };
        if self.match_one_token(TokenType::ELSE) {
            match self.statement() {
                Ok(otherwise) => Ok(
                    Stmt::If {
                        condition,
                        then_branch: Box::new(then_branch),
                        else_branch: Some(Box::new(otherwise)),
                    },
                ),
                Err(e) => Err(e),
            }
        } else {
            Ok(Stmt::If { condition, then_branch: Box::new(then_branch), else_branch: None })
        }
    }

    /// whileStmt → "while" "(" expression ")" statement
    fn while_statement(&mut self) -> (r: Result<Stmt, Error>)
        requires
            old(self).wf(),
        ensures
            advanced(*old(self), *final(self), r is Ok),
            agrees(
                *old(self),
                *final(self),
                stmt_result(r),
                while_rule(
                    old(self).toks(),
                    old(self).base,
                    old(self).current as nat,
                    old(self).notes(),
                ),
            ),
        decreases old(self).tokens@.len() - old(self).current, 33nat,
    {
        match self.consume(TokenType::LeftParen, "Expect '(' after 'while'.") {
            Ok(_) => {},
            Err(e) => {
                return Err(e);
            },
        }
        let condition = match self.expression_then(
            TokenType::RightParen,
            "Expect ')' after condition.",
        ) {
            Ok(c) => c,
            Err(e) => {
                return Err(e);
            },
        };
        match self.statement() {
            Ok(body) => Ok(Stmt::While { condition, body: Box::new(body) }),
            Err(e) => Err(e),
        }
    }

    /// The first clause of a `for`.
    fn initializer(&mut self) -> (r: Result<Option<Stmt>, Error>)
        requires
            old(self).wf(),
        ensures
            advanced(*old(self), *final(self), r is Ok),
            agrees(
                *old(self),
                *final(self),
                optional_stmt_result(r),
                initializer_rule(
                    old(self).toks(),
                    old(self).base,
                    old(self).current as nat,
                    old(self).notes(),
                ),
            ),
        decreases old(self).tokens@.len() - old(self).current, 34nat,
    {
        if self.match_one_token(TokenType::SEMICOLON) {
            Ok(None)
        } else if self.match_one_token(TokenType::VAR) {
            match self.var_declaration() {
                Ok(s) => Ok(Some(s)),
                Err(e) => Err(e),
            }
        } else {
            match self.expression_statement() {
                Ok(s) => Ok(Some(s)),
                Err(e) => Err(e),
            }
        }
    }

    /// The second clause of a `for`.
    fn loop_condition(&mut self) -> (r: Result<Expr, Error>)
        requires
            old(self).wf(),
        ensures
            advanced(*old(self), *final(self), r is Ok),
            agrees(
                *old(self),
                *final(self),
                expr_result(r),
                loop_condition_rule(
                    old(self).toks(),
                    old(self).base,
                    old(self).current as nat,
                    old(self).notes(),
                ),
            ),
        decreases old(self).tokens@.len() - old(self).current, 34nat,
    {
        if self.match_one_token(TokenType::SEMICOLON) {
            Ok(Expr::Literal { value: Literal::Bool(true) })
        } else {
            self.expression_then(TokenType::SEMICOLON, "Expect ';' after loop condition.")
        }
    }

    /// The third clause of a `for`.
    fn increment(&mut self) -> (r: Result<Option<Expr>, Error>)
        requires
            old(self).wf(),
        ensures
            advanced(*old(self), *final(self), r is Ok),
            agrees(
                *old(self),
                *final(self),
                optional_expr_result(r),
                increment_rule(
                    old(self).toks(),
                    old(self).base,
                    old(self).current as nat,
                    old(self).notes(),
                ),
            ),
        decreases old(self).tokens@.len() - old(self).current, 34nat,
    {
        if self.match_one_token(TokenType::RightParen) {
            Ok(None)
        } else {
            match self.expression_then(TokenType::RightParen, "Expect ')' after for clauses.") {
                Ok(e) => Ok(Some(e)),
                Err(e) => Err(e),
            }
        }
    }

    /// The end of a `for` statement, after its first two clauses.
    fn for_tail(&mut self, initializer: Option<Stmt>, condition: Expr) -> (r: Result<Stmt, Error>)
        requires
            old(self).wf(),
        ensures
            advanced(*old(self), *final(self), r is Ok),
            agrees(
                *old(self),
                *final(self),
                stmt_result(r),
                for_tail_rule(
                    old(self).toks(),
                    old(self).base,
                    old(self).current as nat,
                    old(self).notes(),
                    optional_stmt_view(initializer),
                    condition@,
                ),
            ),
        decreases old(self).tokens@.len() - old(self).current, 65nat,
    {
        let increment = match self.increment() {
            Ok(i) => i,
            Err(e) => {
                return Err(e);
            },
        };
        match self.statement() {
            Ok(body) => Ok(desugar(initializer, condition, increment, body)),
            Err(e) => Err(e),
        }
    }

    /// forStmt → "for" "(" (varDecl | exprStmt | ";") expression? ";"
    /// expression? ")" statement
    ///
    /// The statement is rewritten into a block and a `while` loop.
    #[verifier::rlimit(50)]
    fn for_statement(&mut self) -> (r: Result<Stmt, Error>)
        requires
            old(self).wf(),
        ensures
            advanced(*old(self), *final(self), r is Ok),
            agrees(
                *old(self),
                *final(self),
                stmt_result(r),
                for_rule(
                    old(self).toks(),
                    old(self).base,
                    old(self).current as nat,
                    old(self).notes(),
                ),
            ),
        decreases old(self).tokens@.len() - old(self).current, 35nat,
    {
        match self.consume(TokenType::LeftParen, "Expect '(' after 'for'.") {
            Ok(_) => {},
            Err(e) => {
                return Err(e);
            },
        }
        let initializer = match self.initializer() {
            Ok(i) => i,
            Err(e) => {
                return Err(e);
            },
        };
        let condition = match self.loop_condition() {
            Ok(c) => c,
            Err(e) => {
                return Err(e);
            },
        };
        self.for_tail(initializer, condition)
    }

    /// block → "{" declaration* "}"
    #[verifier::loop_isolation(false)]
    #[verifier::rlimit(50)]
    fn block(&mut self) -> (r: Result<Vec<Stmt>, Error>)
        requires
            old(self).wf(),
        ensures
            advanced(*old(self), *final(self), r is Ok),
            agrees(
                *old(self),
                *final(self),
                stmts_result(r),
                block_rule(
                    old(self).toks(),
                    old(self).base,
                    old(self).current as nat,
                    old(self).notes(),
                ),
            ),
        decreases old(self).tokens@.len() - old(self).current, 71nat,
    {
        let mut statements: Vec<Stmt> = Vec::new();
        let ghost mut stmts = Seq::<StmtView>::empty();
        assert(stmt_views(statements@) =~= stmts);
        let ghost origin = old(self).current as nat;
        let ghost target = block_rule(
            old(self).toks(),
            old(self).base,
            old(self).current as nat,
            old(self).notes(),
        );
        while !self.check(TokenType::RightBrace) && !self.is_at_end()
            invariant
                self.wf(),
                self.tokens == old(self).tokens,
                self.base == old(self).base,
                self.current >= origin,
                self.diagnostics@.len() >= old(self).diagnostics@.len(),
                stmts == stmt_views(statements@),
                target == shifted(
                    block_rest(self.toks(), self.base, self.current as nat, stmts, self.notes()),
                    (self.current - origin) as nat,
                ),
            decreases self.tokens@.len() - self.current,
        {
            let next = match self.declaration_item() {
                Ok(s) => s,
                Err(e) => {
                    return Err(e);
                },
            };
            push_stmt(&mut statements, next);
            proof {
                stmts = stmts.push(next@);
            }
        }
        match self.consume(TokenType::RightBrace, "Expect '}' after block.") {
            Ok(_) => Ok(statements),
            Err(e) => Err(e),
        }
    }

    /// The parameters after the first: ("," IDENT)*.
    #[verifier::loop_isolation(false)]
    #[verifier::rlimit(50)]
    fn more_parameters(&mut self, first: Token) -> (r: Result<Vec<Token>, Error>)
        requires
            old(self).wf(),
        ensures
            final(self).diagnostics@.len() >= old(self).diagnostics@.len(),
            r is Err ==> final(self).diagnostics@.len() > old(self).diagnostics@.len(),
            agrees(
                *old(self),
                *final(self),
                tokens_result(r),
                parameters_rest(
                    old(self).toks(),
                    old(self).current as nat,
                    seq![first@],
                    old(self).notes(),
                ),
            ),
    {
        let mut params: Vec<Token> = Vec::new();
        push_token(&mut params, first);
        let ghost mut names = seq![first@];
        assert(token_views(params@) =~= names);
        let ghost origin = old(self).current as nat;
        let ghost target = parameters_rest(
            old(self).toks(),
            old(self).current as nat,
            seq![first@],
            old(self).notes(),
        );
        loop
            invariant
                self.wf(),
                self.tokens == old(self).tokens,
                self.base == old(self).base,
                self.current >= origin,
                self.diagnostics@.len() >= old(self).diagnostics@.len(),
                names == token_views(params@),
                names.len() == params@.len(),
                target == shifted(
                    parameters_rest(self.toks(), self.current as nat, names, self.notes()),
                    (self.current - origin) as nat,
                ),
            decreases self.tokens@.len() - self.current,
        {
            if !self.match_one_token(TokenType::COMMA) {
                break ;
            }
            self.note_limit(params.len());
            let next = match self.consume(TokenType::IDENTIFIER, "Expect parameter name.") {
                Ok(t) => t,
                Err(e) => {
                    return Err(e);
                },
            };
            push_token(&mut params, next);
            proof {
                names = names.push(next@);
            }
        }
        Ok(params)
    }

    /// parameters? ")"
    fn parameters(&mut self) -> (r: Result<Vec<Token>, Error>)
        requires
            old(self).wf(),
        ensures
            advanced(*old(self), *final(self), r is Ok),
            agrees(
                *old(self),
                *final(self),
                tokens_result(r),
                parameters_rule(old(self).toks(), old(self).current as nat, old(self).notes()),
            ),
    {
        let params = if self.check(TokenType::RightParen) {
            let none: Vec<Token> = Vec::new();
            assert(token_views(none@) =~= Seq::<TokenView>::empty());
            none
        } else {
            let first = match self.consume(TokenType::IDENTIFIER, "Expect parameter name.") {
                Ok(t) => t,
                Err(e) => {
                    return Err(e);
                },
            };
            match self.more_parameters(first) {
                Ok(p) => p,
                Err(e) => {
                    return Err(e);
                },
            }
        };
        match self.consume(TokenType::RightParen, "Expect ')' after parameters.") {
            Ok(_) => Ok(params),
            Err(e) => Err(e),
        }
    }

    /// The body of a function declaration, after its parameters.
    fn function_body(&mut self, name: Token, params: Vec<Token>) -> (r: Result<Stmt, Error>)
        requires
            old(self).wf(),
        ensures
            advanced(*old(self), *final(self), r is Ok),
            agrees(
                *old(self),
                *final(self),
                stmt_result(r),
                function_body_rule(
                    old(self).toks(),
                    old(self).base,
                    old(self).current as nat,
                    old(self).notes(),
                    name@,
                    token_views(params@),
                ),
            ),
        decreases old(self).tokens@.len() - old(self).current, 72nat,
    {
        match self.consume(TokenType::LeftBrace, "Expect '{' before function body.") {
            Ok(_) => {},
            Err(e) => {
                return Err(e);
            },
        }
        match self.block() {
            Ok(body) => Ok(Stmt::Function { name, params, body }),
            Err(e) => Err(e),
        }
    }

    /// The name of a function declaration and its "(".
    fn function_name(&mut self) -> (r: Result<Token, Error>)
        requires
            old(self).wf(),
        ensures
            advanced(*old(self), *final(self), r is Ok),
            match r {
                Ok(name) => check(old(self).toks(), old(self).current as nat, TokenType::IDENTIFIER)
                    && check(old(self).toks(), old(self).current as nat + 1, TokenType::LeftParen)
                    && name@ == old(self).toks()[old(self).current as int] && stepped(
                    *old(self),
                    *final(self),
                    2,
                    old(self).notes(),
                ),
                Err(e) => agrees(
                    *old(self),
                    *final(self),
                    Err::<StmtView, ErrorView>(e@),
                    function_rule(
                        old(self).toks(),
                        old(self).base,
                        old(self).current as nat,
                        old(self).notes(),
                    ),
                ),
            },
    {
        let name = match self.consume(TokenType::IDENTIFIER, "Expect function name.") {
            Ok(t) => t,
            Err(e) => {
                return Err(e);
            },
        };
        match self.consume(TokenType::LeftParen, "Expect '(' after function name.") {
            Ok(_) => Ok(name),
            Err(e) => Err(e),
        }
    }

    /// funDecl → "fun" IDENT "(" parameters? ")" block
    #[verifier::rlimit(50)]
    fn function(&mut self) -> (r: Result<Stmt, Error>)
        requires
            old(self).wf(),
        ensures
            advanced(*old(self), *final(self), r is Ok),
            agrees(
                *old(self),
                *final(self),
                stmt_result(r),
                function_rule(
                    old(self).toks(),
                    old(self).base,
                    old(self).current as nat,
                    old(self).notes(),
                ),
            ),
        decreases old(self).tokens@.len() - old(self).current, 73nat,
    {
        let name = match self.function_name() {
            Ok(t) => t,
            Err(e) => {
                return Err(e);
            },
        };
        let params = match self.parameters() {
            Ok(p) => p,
            Err(e) => {
                return Err(e);
            },
        };
        self.function_body(name, params)
    }

    /// statement → exprStmt | forStmt | ifStmt | printStmt | returnStmt
    /// | whileStmt | block
    #[verifier::rlimit(50)]
    fn statement(&mut self) -> (r: Result<Stmt, Error>)
        requires
            old(self).wf(),
        ensures
            advanced(*old(self), *final(self), r is Ok),
            agrees(
                *old(self),
                *final(self),
                stmt_result(r),
                statement_rule(
                    old(self).toks(),
                    old(self).base,
                    old(self).current as nat,
                    old(self).notes(),
                ),
            ),
        decreases old(self).tokens@.len() - old(self).current, 60nat,
    {
        if self.match_one_token(TokenType::FOR) {
            return self.for_statement();
        }
        if self.match_one_token(TokenType::IF) {
            return self.if_statement();
        }
        if self.match_one_token(TokenType::PRINT) {
            return self.print_statement();
        }
        if self.match_one_token(TokenType::RETURN) {
            return self.return_statement();
        }
        if self.match_one_token(TokenType::WHILE) {
            return self.while_statement();
        }
        if self.match_one_token(TokenType::LeftBrace) {
            return match self.block() {
                Ok(stmts) => Ok(Stmt::Block { stmts }),
                Err(e) => Err(e),
            };
        }
        self.expression_statement()
    }

    /// declaration → funDecl | varDecl | statement
    fn declaration_item(&mut self) -> (r: Result<Stmt, Error>)
        requires
            old(self).wf(),
        ensures
            advanced(*old(self), *final(self), r is Ok),
            agrees(
                *old(self),
                *final(self),
                stmt_result(r),
                declaration_rule(
                    old(self).toks(),
                    old(self).base,
                    old(self).current as nat,
                    old(self).notes(),
                ),
            ),
        decreases old(self).tokens@.len() - old(self).current, 61nat,
    {
        if self.match_one_token(TokenType::VAR) {
            self.var_declaration()
        } else if self.match_one_token(TokenType::FUN) {
            self.function()
        } else {
            self.statement()
        }
    }

    /// Recovers from an error: discards tokens up to the next place where
    /// a statement may start.
    fn synchronize(&mut self)
        requires
            old(self).wf(),
        ensures
            stepped(
                *old(self),
                *final(self),
                synchronized(old(self).toks(), old(self).current as nat),
                old(self).notes(),
            ),
            final(self).diagnostics == old(self).diagnostics,
    {
        if self.is_at_end() {
            return ;
        }
        self.advance();
        while !self.is_at_end()
            invariant
                self.wf(),
                self.tokens == old(self).tokens,
                self.base == old(self).base,
                self.diagnostics == old(self).diagnostics,
                self.current > old(self).current,
                self.current + skipped(self.toks(), self.current as nat) == old(self).current
                    + synchronized(old(self).toks(), old(self).current as nat),
            decreases self.tokens@.len() - self.current,
        {
            if self.tokens[self.current - 1].token_type == TokenType::SEMICOLON {
                return ;
            }
            if statement_start(self.peek_type()) {
                return ;
            }
            self.advance();
        }
    }

    /// One declaration of a program. After an error the parser has
    /// recovered: it stands where the next declaration may start.
    fn declaration(&mut self) -> (r: Result<Stmt, Error>)
        requires
            old(self).wf(),
        ensures
            advanced(*old(self), *final(self), r is Ok),
            match declaration_rule(
                old(self).toks(),
                old(self).base,
                old(self).current as nat,
                old(self).notes(),
            ) {
                Parsed::Done { value, used, notes } => r matches Ok(s) && s@ == value && stepped(
                    *old(self),
                    *final(self),
                    used,
                    notes,
                ),
                Parsed::Failed { message, used, notes } => r matches Err(e) && e@
                    == ErrorView::ParseError(message) && e is ParseError && stepped(
                    *old(self),
                    *final(self),
                    used + synchronized(old(self).toks(), old(self).current as nat + used),
                    notes,
                ),
            },
    {
        match self.declaration_item() {
            Ok(r) => Ok(r),
            Err(e) => {
                self.synchronize();
                Err(e)
            },
        }
    }

    /// Parses a program: program → declaration* EOF.
    ///
    /// Returns the statements if no diagnostic was issued. Otherwise every
    /// error has its diagnostic in `diagnostics`, and the result is the
    /// first error.
    #[verifier::rlimit(60)]
    pub fn parse(&mut self) -> (r: Result<Vec<Stmt>, Error>)
        requires
            old(self).wf(),
        ensures
            ({
                let p = program_rest(
                    old(self).toks(),
                    old(self).base,
                    old(self).current as nat,
                    Seq::empty(),
                    None,
                    old(self).notes(),
                );
                &&& final(self).wf()
                &&& final(self).tokens == old(self).tokens
                &&& final(self).base == old(self).base
                &&& final(self).current == p.end
                &&& final(self).notes() == p.notes
                &&& stmts_result(r) == program_result(p, old(self).notes())
            }),
            r is Ok <==> final(self).diagnostics@.len() == old(self).diagnostics@.len(),
            r is Err ==> final(self).diagnostics@.len() > old(self).diagnostics@.len(),
    {
        let mut statements: Vec<Stmt> = Vec::new();
        let mut failure: Option<Error> = None;
        let count = self.diagnostics.len();
        assert(stmt_views(statements@) =~= Seq::<StmtView>::empty());
        let ghost target = program_rest(
            old(self).toks(),
            old(self).base,
            old(self).current as nat,
            Seq::empty(),
            None,
            old(self).notes(),
        );
        while !self.is_at_end()
            invariant
                self.wf(),
                self.tokens == old(self).tokens,
                self.base == old(self).base,
                self.diagnostics@.len() >= count,
                count == old(self).diagnostics@.len(),
                failure matches Some(e) ==> e is ParseError && self.diagnostics@.len() > count,
                target == program_rest(
                    self.toks(),
                    self.base,
                    self.current as nat,
                    stmt_views(statements@),
                    message_of(failure),
                    self.notes(),
                ),
            decreases self.tokens@.len() - self.current,
        {
            match self.declaration() {
                Ok(s) => {
                    push_stmt(&mut statements, s);
                },
                Err(e) => {
                    if failure.is_none() {
                        failure = Some(e);
                    }
                },
            }
        }
        match failure {
            Some(e) => Err(e),
            None => {
                if self.diagnostics.len() == count {
                    Ok(statements)
                } else {
                    Err(Error::ParseError(String::from_str("Can't have more than 255 arguments.")))
                }
            },
        }
    }
}

/// The views of two statements in a list.
fn pair(first: Stmt, second: Stmt) -> (r: Vec<Stmt>)
    ensures
        stmt_views(r@) == seq![first@, second@],
{
    let mut stmts: Vec<Stmt> = Vec::new();
    stmts.push(first);
    stmts.push(second);
    assert(stmt_views(stmts@) =~= seq![first@, second@]);
    stmts
}

/// The view of a statement that may be absent.
pub open spec fn optional_stmt_view(s: Option<Stmt>) -> Option<StmtView> {
    match s {
        Some(s) => Some(s@),
        None => None,
    }
}

/// The view of an expression that may be absent.
pub open spec fn optional_expr_view(e: Option<Expr>) -> Option<ExprView> {
    match e {
        Some(e) => Some(e@),
        None => None,
    }
}

/// Puts the increment of a `for` statement behind its body.
fn with_increment(body: Stmt, increment: Option<Expr>) -> (r: Stmt)
    ensures
        r@ == match optional_expr_view(increment) {
            Some(inc) => StmtView::Block {
                stmts: seq![body@, StmtView::Expression { expression: inc }],
            },
            None => body@,
        },
{
    match increment {
        Some(inc) => Stmt::Block { stmts: pair(body, Stmt::Expression { expression: inc }) },
        None => body,
    }
}

/// Puts the initializer of a `for` statement before its loop.
fn with_initializer(initializer: Option<Stmt>, looping: Stmt) -> (r: Stmt)
    ensures
        r@ == match optional_stmt_view(initializer) {
            Some(init) => StmtView::Block { stmts: seq![init, looping@] },
            None => looping@,
        },
{
    match initializer {
        Some(init) => Stmt::Block { stmts: pair(init, looping) },
        None => looping,
    }
}

/// Rewrites a `for` statement into a block and a `while` loop.
pub fn desugar(initializer: Option<Stmt>, condition: Expr, increment: Option<Expr>, body: Stmt) -> (r:
    Stmt)
    ensures
        r@ == desugared(
            optional_stmt_view(initializer),
            condition@,
            optional_expr_view(increment),
            body@,
        ),
{
    let inner = with_increment(body, increment);
    let looping = Stmt::While { condition, body: Box::new(inner) };
    assert(looping@ == StmtView::While { condition: condition@, body: Box::new(inner@) });
    with_initializer(initializer, looping)
}

} // verus!
