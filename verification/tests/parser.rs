//! The parser: the shape of the tree, the diagnostics and the recovery.

use rjlox::error::Error;
use rjlox::expr::Expr;
use rjlox::parser::{desugar, Parser};
use rjlox::scanner::Scanner;
use rjlox::stmt::Stmt;
use rjlox::token::{Literal, Token, TokenType};

fn scan(source: &str) -> Vec<Token> {
    let mut scanner = Scanner::new(source.to_string());
    while let Some(text) = scanner.scan_tokens() {
        scanner.number(text.parse::<f32>().unwrap().to_bits());
    }
    scanner.tokens()
}

fn parse(source: &str) -> Vec<Stmt> {
    let mut parser = Parser::new(scan(source));
    let statements = parser.parse().unwrap();
    assert!(parser.diagnostics.is_empty());
    statements
}

/// The message of the parse error and the diagnostics issued.
fn failure(source: &str) -> (String, Vec<String>) {
    let mut parser = Parser::new(scan(source));
    match parser.parse() {
        Err(Error::ParseError(message)) => (message, parser.diagnostics),
        other => panic!("{:?}", other),
    }
}

fn token(token_type: TokenType, lexeme: &str) -> Token {
    Token::new(token_type, lexeme.to_string(), Literal::Nil, 1)
}

fn number(value: f32) -> Expr {
    Expr::Literal { value: Literal::Num(value.to_bits()) }
}

fn variable(id: usize, name: &str) -> Expr {
    Expr::Variable { id, name: token(TokenType::IDENTIFIER, name) }
}

fn binary(left: Expr, kind: TokenType, lexeme: &str, right: Expr) -> Expr {
    Expr::Binary { left: Box::new(left), operator: token(kind, lexeme), right: Box::new(right) }
}

#[test]
fn empty_program() {
    assert_eq!(parse(""), vec![]);
}

#[test]
fn multiplication_binds_tighter_than_addition() {
    assert_eq!(
        parse("1 + 2 * 3;"),
        vec![Stmt::Expression {
            expression: binary(
                number(1.0),
                TokenType::PLUS,
                "+",
                binary(number(2.0), TokenType::STAR, "*", number(3.0))
            )
        }]
    );
}

#[test]
fn operators_of_one_level_group_from_the_left() {
    assert_eq!(
        parse("1 - 2 - 3;"),
        vec![Stmt::Expression {
            expression: binary(
                binary(number(1.0), TokenType::MINUS, "-", number(2.0)),
                TokenType::MINUS,
                "-",
                number(3.0)
            )
        }]
    );
}

#[test]
fn comparison_binds_tighter_than_equality() {
    assert_eq!(
        parse("1 == 2 < 3;"),
        vec![Stmt::Expression {
            expression: binary(
                number(1.0),
                TokenType::EqualEqual,
                "==",
                binary(number(2.0), TokenType::LESS, "<", number(3.0))
            )
        }]
    );
}

#[test]
fn and_binds_tighter_than_or() {
    let logic = |left: Expr, kind: TokenType, lexeme: &str, right: Expr| Expr::Logic {
        left: Box::new(left),
        operator: token(kind, lexeme),
        right: Box::new(right),
    };
    assert_eq!(
        parse("a or b and c;"),
        vec![Stmt::Expression {
            expression: logic(
                variable(0, "a"),
                TokenType::OR,
                "or",
                logic(variable(2, "b"), TokenType::AND, "and", variable(4, "c"))
            )
        }]
    );
}

#[test]
fn unary_operators_nest() {
    assert_eq!(
        parse("!-1;"),
        vec![Stmt::Expression {
            expression: Expr::Unary {
                operator: token(TokenType::BANG, "!"),
                right: Box::new(Expr::Unary {
                    operator: token(TokenType::MINUS, "-"),
                    right: Box::new(number(1.0)),
                }),
            }
        }]
    );
}

#[test]
fn grouping_and_literals() {
    assert_eq!(
        parse("(nil); true; false; \"s\";"),
        vec![
            Stmt::Expression {
                expression: Expr::Grouping {
                    expression: Box::new(Expr::Literal { value: Literal::Nil })
                }
            },
            Stmt::Expression { expression: Expr::Literal { value: Literal::Bool(true) } },
            Stmt::Expression { expression: Expr::Literal { value: Literal::Bool(false) } },
            Stmt::Expression {
                expression: Expr::Literal { value: Literal::Str("s".to_string()) }
            },
        ]
    );
}

#[test]
fn assignment_groups_from_the_right() {
    assert_eq!(
        parse("a = b = 1;"),
        vec![Stmt::Expression {
            expression: Expr::Assign {
                id: 0,
                name: token(TokenType::IDENTIFIER, "a"),
                value: Box::new(Expr::Assign {
                    id: 2,
                    name: token(TokenType::IDENTIFIER, "b"),
                    value: Box::new(number(1.0)),
                }),
            }
        }]
    );
}

#[test]
fn calls_nest_from_the_left_and_keep_the_closing_parenthesis() {
    assert_eq!(
        parse("f(1)(a, 2);"),
        vec![Stmt::Expression {
            expression: Expr::Call {
                callee: Box::new(Expr::Call {
                    callee: Box::new(variable(0, "f")),
                    paren: token(TokenType::RightParen, ")"),
                    arguments: vec![number(1.0)],
                }),
                paren: token(TokenType::RightParen, ")"),
                arguments: vec![variable(5, "a"), number(2.0)],
            }
        }]
    );
}

#[test]
fn identity_of_a_reference_is_the_position_of_its_name() {
    let mut parser = Parser::with_base(scan("print a + a;"), 100);
    assert_eq!(
        parser.parse().unwrap(),
        vec![Stmt::Print {
            expression: binary(variable(101, "a"), TokenType::PLUS, "+", variable(103, "a"))
        }]
    );
}

#[test]
fn variable_declarations() {
    assert_eq!(
        parse("var a; var b = 1;"),
        vec![
            Stmt::Var {
                name: token(TokenType::IDENTIFIER, "a"),
                expression: Expr::Literal { value: Literal::Nil }
            },
            Stmt::Var { name: token(TokenType::IDENTIFIER, "b"), expression: number(1.0) },
        ]
    );
}

#[test]
fn function_declaration() {
    assert_eq!(
        parse("fun add(a, b) { return a + b; }"),
        vec![Stmt::Function {
            name: token(TokenType::IDENTIFIER, "add"),
            params: vec![token(TokenType::IDENTIFIER, "a"), token(TokenType::IDENTIFIER, "b")],
            body: vec![Stmt::Return {
                keyword: token(TokenType::RETURN, "return"),
                value: binary(variable(9, "a"), TokenType::PLUS, "+", variable(11, "b")),
            }],
        }]
    );
}

#[test]
fn return_without_a_value_returns_nil() {
    assert_eq!(
        parse("fun f() { return; }"),
        vec![Stmt::Function {
            name: token(TokenType::IDENTIFIER, "f"),
            params: vec![],
            body: vec![Stmt::Return {
                keyword: token(TokenType::RETURN, "return"),
                value: Expr::Literal { value: Literal::Nil },
            }],
        }]
    );
}

#[test]
fn if_with_and_without_else() {
    assert_eq!(
        parse("if (a) print 1; else print 2; if (b) {}"),
        vec![
            Stmt::If {
                condition: variable(2, "a"),
                then_branch: Box::new(Stmt::Print { expression: number(1.0) }),
                else_branch: Some(Box::new(Stmt::Print { expression: number(2.0) })),
            },
            Stmt::If {
                condition: variable(13, "b"),
                then_branch: Box::new(Stmt::Block { stmts: vec![] }),
                else_branch: None,
            },
        ]
    );
}

#[test]
fn else_belongs_to_the_nearest_if() {
    assert_eq!(
        parse("if (a) if (b) print 1; else print 2;"),
        vec![Stmt::If {
            condition: variable(2, "a"),
            then_branch: Box::new(Stmt::If {
                condition: variable(6, "b"),
                then_branch: Box::new(Stmt::Print { expression: number(1.0) }),
                else_branch: Some(Box::new(Stmt::Print { expression: number(2.0) })),
            }),
            else_branch: None,
        }]
    );
}

#[test]
fn while_statement() {
    assert_eq!(
        parse("while (a) a = 1;"),
        vec![Stmt::While {
            condition: variable(2, "a"),
            body: Box::new(Stmt::Expression {
                expression: Expr::Assign {
                    id: 4,
                    name: token(TokenType::IDENTIFIER, "a"),
                    value: Box::new(number(1.0))
                }
            }),
        }]
    );
}

#[test]
fn for_becomes_a_block_and_a_while() {
    let increment = Expr::Assign {
        id: 11,
        name: token(TokenType::IDENTIFIER, "i"),
        value: Box::new(binary(variable(13, "i"), TokenType::PLUS, "+", number(1.0))),
    };
    assert_eq!(
        parse("for (var i = 0; i < 3; i = i + 1) print i;"),
        vec![Stmt::Block {
            stmts: vec![
                Stmt::Var { name: token(TokenType::IDENTIFIER, "i"), expression: number(0.0) },
                Stmt::While {
                    condition: binary(variable(7, "i"), TokenType::LESS, "<", number(3.0)),
                    body: Box::new(Stmt::Block {
                        stmts: vec![
                            Stmt::Print { expression: variable(18, "i") },
                            Stmt::Expression { expression: increment },
                        ]
                    }),
                },
            ]
        }]
    );
}

#[test]
fn for_without_clauses_is_a_bare_endless_while() {
    assert_eq!(
        parse("for (;;) print 1;"),
        vec![Stmt::While {
            condition: Expr::Literal { value: Literal::Bool(true) },
            body: Box::new(Stmt::Print { expression: number(1.0) }),
        }]
    );
}

#[test]
fn for_with_an_expression_as_initializer() {
    assert_eq!(
        parse("for (i = 0; ; ) {}"),
        vec![Stmt::Block {
            stmts: vec![
                Stmt::Expression {
                    expression: Expr::Assign {
                        id: 2,
                        name: token(TokenType::IDENTIFIER, "i"),
                        value: Box::new(number(0.0))
                    }
                },
                Stmt::While {
                    condition: Expr::Literal { value: Literal::Bool(true) },
                    body: Box::new(Stmt::Block { stmts: vec![] }),
                },
            ]
        }]
    );
}

#[test]
fn desugar_keeps_what_is_there() {
    let body = Stmt::Print { expression: number(1.0) };
    assert_eq!(
        desugar(None, number(2.0), Some(number(3.0)), body),
        Stmt::While {
            condition: number(2.0),
            body: Box::new(Stmt::Block {
                stmts: vec![
                    Stmt::Print { expression: number(1.0) },
                    Stmt::Expression { expression: number(3.0) }
                ]
            }),
        }
    );
}

#[test]
fn invalid_assignment_target() {
    assert_eq!(
        failure("1 = 2;"),
        (
            "Invalid assignment target.".to_string(),
            vec!["[line 1] Error: Invalid assignment target.".to_string()]
        )
    );
    assert_eq!(failure("(a) = 2;").0, "Invalid assignment target.");
    assert_eq!(failure("a + b = 2;").0, "Invalid assignment target.");
}

#[test]
fn error_at_the_end_says_so() {
    assert_eq!(
        failure("print 1"),
        (
            "Expect ';' after value.".to_string(),
            vec!["[line 1] Error at end: Expect ';' after value.".to_string()]
        )
    );
}

#[test]
fn error_names_the_line() {
    assert_eq!(
        failure("var a = 1;\nvar b = ;\n").1,
        vec!["[line 2] Error: Expect expression."]
    );
}

#[test]
fn every_error_gets_its_diagnostic() {
    assert_eq!(
        failure("print ;\nvar = 1;\nprint 2;\n(3;"),
        (
            "Expect expression.".to_string(),
            vec![
                "[line 1] Error: Expect expression.".to_string(),
                "[line 2] Error: Expect variable name.".to_string(),
                "[line 4] Error: Expect ')' after expression.".to_string(),
            ]
        )
    );
}

#[test]
fn recovery_stops_before_a_keyword_that_starts_a_statement() {
    assert_eq!(
        failure("(1 2 3\nprint ;").1,
        vec![
            "[line 1] Error: Expect ')' after expression.",
            "[line 2] Error: Expect expression.",
        ]
    );
}

#[test]
fn recovery_stops_behind_a_semicolon() {
    assert_eq!(
        failure("(1 2 ; 3 4;").1,
        vec![
            "[line 1] Error: Expect ')' after expression.",
            "[line 1] Error: Expect ';' after expression.",
        ]
    );
}

#[test]
fn recovery_discards_the_token_of_the_error() {
    assert_eq!(
        failure("var a = 1 + var b = ; print").1,
        vec!["[line 1] Error: Expect expression.", "[line 1] Error at end: Expect expression."]
    );
}

#[test]
fn messages_of_the_statements() {
    assert_eq!(failure("1").0, "Expect ';' after expression.");
    assert_eq!(failure("var a = 1").0, "Expect ';' after variable declaration.");
    assert_eq!(failure("var a").0, "Expect ';' after variable declaration.");
    assert_eq!(failure("{ print 1;").0, "Expect '}' after block.");
    assert_eq!(failure("if a").0, "Expect '(' after 'if'.");
    assert_eq!(failure("if (a print 1;").0, "Expect ')' after if condition.");
    assert_eq!(failure("while a").0, "Expect '(' after 'while'.");
    assert_eq!(failure("while (a print 1;").0, "Expect ')' after condition.");
    assert_eq!(failure("for a").0, "Expect '(' after 'for'.");
    assert_eq!(failure("for (;a b").0, "Expect ';' after loop condition.");
    assert_eq!(failure("for (;;a b").0, "Expect ')' after for clauses.");
    assert_eq!(failure("fun (").0, "Expect function name.");
    assert_eq!(failure("fun f {").0, "Expect '(' after function name.");
    assert_eq!(failure("fun f(1").0, "Expect parameter name.");
    assert_eq!(failure("fun f(a,)").0, "Expect parameter name.");
    assert_eq!(failure("fun f(a b").0, "Expect ')' after parameters.");
    assert_eq!(failure("fun f() print").0, "Expect '{' before function body.");
    assert_eq!(failure("f(1").0, "Expect ')' after arguments.");
    assert_eq!(failure("fun f() { return 1 }").0, "Expect ';' after return value.");
    assert_eq!(failure("class").0, "Expect expression.");
}

fn call_with(count: usize) -> String {
    let arguments: Vec<String> = (0..count).map(|_| "1".to_string()).collect();
    format!("f({});", arguments.join(", "))
}

#[test]
fn call_with_as_many_arguments_as_allowed() {
    let statements = parse(&call_with(255));
    match &statements[0] {
        Stmt::Expression { expression: Expr::Call { arguments, .. } } => {
            assert_eq!(arguments.len(), 255)
        }
        other => panic!("{:?}", other),
    }
}

#[test]
fn call_with_one_argument_too_many() {
    assert_eq!(
        failure(&call_with(256)),
        (
            "Can't have more than 255 arguments.".to_string(),
            vec!["[line 1] Error: Can't have more than 255 arguments.".to_string()]
        )
    );
}

#[test]
fn function_with_one_parameter_too_many() {
    let names: Vec<String> = (0..256).map(|i| format!("p{}", i)).collect();
    let source = format!("fun f({}) {{}}", names.join(", "));
    assert_eq!(
        failure(&source).1,
        vec!["[line 1] Error: Can't have more than 255 arguments."]
    );
}

#[test]
fn parser_stands_at_the_end_after_a_program() {
    let mut parser = Parser::new(scan("print 1; print 2;"));
    assert!(parser.parse().is_ok());
    assert_eq!(parser.current, 6);
    assert_eq!(parser.parse().unwrap(), vec![]);
}
