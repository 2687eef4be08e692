use nea::error::ErrorType;
use nea::expr::{Expr, ExprType};
use nea::parser::Parser;
use nea::stmt::{Stmt, StmtType};
use nea::token;
use nea::tokenizer::Tokenizer;


fn parse(source: &str) -> Result<Vec<Stmt>, Vec<ErrorType>> {
    let mut tokenizer = Tokenizer::new(source);
    let tokens = tokenizer.tokenize().expect("Tokenizer returned error.");
    let mut parser = Parser::new(tokens);
    parser.parse()
}

fn errors_in_result(result: Result<Vec<Stmt>, Vec<ErrorType>>, errors: Vec<ErrorType>) -> bool {
    let Err(result_errors) = result else {
        return false;
    };
    for error in errors {
        if !result_errors.contains(&error) {
            return false;
        }
    }
    true
}

#[test]
fn for_() {
    let source = "for (var x = 5; x < 10; x = x + 1) {var y = x}";
    assert_eq!(Ok(vec![Stmt { line: 1, stmt_type: StmtType::Block {
        body: vec![
            Stmt { line: 1, stmt_type: StmtType::VarDecl {
                name: String::from("x"),
                value: Expr { line: 1, expr_type: ExprType::Literal { value: token::Literal::Number(String::from("5")) }},
            }},
            Stmt { line: 1, stmt_type: StmtType::While {
                condition: Expr { line: 1, expr_type: ExprType::Binary {
                    left: Box::new(Expr { line: 1, expr_type: ExprType::Variable { name: String::from("x") }}),
                    operator: token::Token { type_: token::TokenType::Less, lexeme: String::from("<"), literal: token::Literal::Null, line: 1 },
                    right: Box::new(Expr { line: 1, expr_type: ExprType::Literal { value: token::Literal::Number(String::from("10")) }}),
                }},
                body: Box::new(Stmt { line: 1, stmt_type: StmtType::Block {
                    body: vec![
                        Stmt { line: 1, stmt_type: StmtType::Block {
                            body: vec![
                                Stmt { line: 1, stmt_type: StmtType::VarDecl {
                                    name: String::from("y"),
                                    value: Expr { line: 1, expr_type: ExprType::Variable { name: String::from("x") }},
                                }},
                            ],
                        }},
                        Stmt { line: 1, stmt_type: StmtType::Expression { expression: Expr { line: 1, expr_type: ExprType::Assignment {
                            target: Box::new(Expr { line: 1, expr_type: ExprType::Variable { name: String::from("x") }}),
                            value: Box::new(Expr { line: 1, expr_type: ExprType::Binary {
                                left: Box::new(Expr { line: 1, expr_type: ExprType::Variable { name: String::from("x") }}),
                                operator: token::Token { type_: token::TokenType::Plus, lexeme: String::from("+"), literal: token::Literal::Null, line: 1 },
                                right: Box::new(Expr { line: 1, expr_type: ExprType::Literal { value: token::Literal::Number(String::from("1")) }}),
                            }}),
                        }}}},
                    ],
                }}),
            }},
        ]
    }}]), parse(source));
}

#[test]
fn for_no_init() {
    let source = "for (; x < 10; x = x + 1) {var y = x}";
    assert_eq!(Ok(vec![
        Stmt { line: 1, stmt_type: StmtType::While {
            condition: Expr { line: 1, expr_type: ExprType::Binary {
                left: Box::new(Expr { line: 1, expr_type: ExprType::Variable { name: String::from("x") }}),
                operator: token::Token { type_: token::TokenType::Less, lexeme: String::from("<"), literal: token::Literal::Null, line: 1 },
                right: Box::new(Expr { line: 1, expr_type: ExprType::Literal { value: token::Literal::Number(String::from("10")) }}),
            }},
            body: Box::new(Stmt { line: 1, stmt_type: StmtType::Block {
                body: vec![
                    Stmt { line: 1, stmt_type: StmtType::Block {
                        body: vec![
                            Stmt { line: 1, stmt_type: StmtType::VarDecl {
                                name: String::from("y"),
                                value: Expr { line: 1, expr_type: ExprType::Variable { name: String::from("x") }},
                            }},
                        ],
                    }},
                    Stmt { line: 1, stmt_type: StmtType::Expression { expression: Expr { line: 1, expr_type: ExprType::Assignment {
                        target: Box::new(Expr { line: 1, expr_type: ExprType::Variable { name: String::from("x") }}),
                        value: Box::new(Expr { line: 1, expr_type: ExprType::Binary {
                            left: Box::new(Expr { line: 1, expr_type: ExprType::Variable { name: String::from("x") }}),
                            operator: token::Token { type_: token::TokenType::Plus, lexeme: String::from("+"), literal: token::Literal::Null, line: 1 },
                            right: Box::new(Expr { line: 1, expr_type: ExprType::Literal { value: token::Literal::Number(String::from("1")) }}),
                        }}),
                    }}}},
                ],
            }}),
        }},
    ]), parse(source));
}

#[test]
fn for_no_cond() {
    let source = "for (var x = 5;; x = x + 1) {var y = x}";
    assert_eq!(Ok(vec![Stmt { line: 1, stmt_type: StmtType::Block {
        body: vec![
            Stmt { line: 1, stmt_type: StmtType::VarDecl {
                name: String::from("x"),
                value: Expr { line: 1, expr_type: ExprType::Literal { value: token::Literal::Number(String::from("5")) }},
            }},
            Stmt { line: 1, stmt_type: StmtType::While {
                condition: Expr { line: 1, expr_type: ExprType::Literal { value: token::Literal::Bool(true) }},
                body: Box::new(Stmt { line: 1, stmt_type: StmtType::Block {
                    body: vec![
                        Stmt { line: 1, stmt_type: StmtType::Block {
                            body: vec![
                                Stmt { line: 1, stmt_type: StmtType::VarDecl {
                                    name: String::from("y"),
                                    value: Expr { line: 1, expr_type: ExprType::Variable { name: String::from("x") }},
                                }},
                            ],
                        }},
                        Stmt { line: 1, stmt_type: StmtType::Expression { expression: Expr { line: 1, expr_type: ExprType::Assignment {
                            target: Box::new(Expr { line: 1, expr_type: ExprType::Variable { name: String::from("x") }}),
                            value: Box::new(Expr { line: 1, expr_type: ExprType::Binary {
                                left: Box::new(Expr { line: 1, expr_type: ExprType::Variable { name: String::from("x") }}),
                                operator: token::Token { type_: token::TokenType::Plus, lexeme: String::from("+"), literal: token::Literal::Null, line: 1 },
                                right: Box::new(Expr { line: 1, expr_type: ExprType::Literal { value: token::Literal::Number(String::from("1")) }}),
                            }}),
                        }}}},
                    ],
                }}),
            }},
        ]
    }}]), parse(source));
}

#[test]
fn for_no_inc() {
    let source = "for (var x = 5; x < 10;) {var y = x}";
    assert_eq!(Ok(vec![Stmt { line: 1, stmt_type: StmtType::Block {
        body: vec![
            Stmt { line: 1, stmt_type: StmtType::VarDecl {
                name: String::from("x"),
                value: Expr { line: 1, expr_type: ExprType::Literal { value: token::Literal::Number(String::from("5")) }},
            }},
            Stmt { line: 1, stmt_type: StmtType::While {
                condition: Expr { line: 1, expr_type: ExprType::Binary {
                    left: Box::new(Expr { line: 1, expr_type: ExprType::Variable { name: String::from("x") }}),
                    operator: token::Token { type_: token::TokenType::Less, lexeme: String::from("<"), literal: token::Literal::Null, line: 1 },
                    right: Box::new(Expr { line: 1, expr_type: ExprType::Literal { value: token::Literal::Number(String::from("10")) }}),
                }},
                body: Box::new(Stmt { line: 1, stmt_type: StmtType::Block {
                    body: vec![
                        Stmt { line: 1, stmt_type: StmtType::Block {
                            body: vec![
                                Stmt { line: 1, stmt_type: StmtType::VarDecl {
                                    name: String::from("y"),
                                    value: Expr { line: 1, expr_type: ExprType::Variable { name: String::from("x") }},
                                }},
                            ],
                        }},
                    ],
                }}),
            }},
        ]
    }}]), parse(source));
}

#[test]
fn for_no_init_semicolon() {
    let source = "for (var x = 5 x < 10; x = x + 1) {var y = x}";
    assert!(errors_in_result(parse(source), vec![ErrorType::ExpectedSemicolonAfterInit { line: 1 }]));
}

#[test]
fn for_no_cond_semicolon() {
    let source = "for (var x = 5; x < 10 x = x + 1) {var y = x}";
    assert!(errors_in_result(parse(source), vec![ErrorType::ExpectedSemicolonAfterCondition { line: 1 }]));
}

#[test]
fn unclosed_for() {
    let source = "for (var x = 5; x < 10; x = x + 1 {var y = x}";
    assert!(errors_in_result(parse(source), vec![ErrorType::ExpectedParenAfterIncrement { line: 1 }]));
}

#[test]
fn unopened_block() {
    let source = "for (var x = 5; x < 10; x = x + 1) var y = x}";
    assert!(errors_in_result(parse(source), vec![ErrorType::ExpectedCharacter { expected: '{', line: 1 }]));
}

#[test]
fn unclosed_block() {
    let source = "for (var x = 5; x < 10; x = x + 1) {var y = x";
    assert!(errors_in_result(parse(source), vec![ErrorType::ExpectedCharacter { expected: '}', line: 1 }]));
}

#[test]
fn func() {
    let source = "func hello(a, b) {print a print b}";
    assert_eq!(Ok(vec![Stmt { line: 1, stmt_type: StmtType::Function {
        name: String::from("hello"),
        parameters: vec![String::from("a"), String::from("b")],
        body: Box::new(Stmt { line: 1, stmt_type: StmtType::Block { body: vec![
            Stmt { line: 1, stmt_type: StmtType::Print { expression: Expr { line: 1, expr_type: ExprType::Variable { name: String::from("a") }}}},
            Stmt { line: 1, stmt_type: StmtType::Print { expression: Expr { line: 1, expr_type: ExprType::Variable { name: String::from("b") }}}},
        ]}}),
    }}]), parse(source));
}

#[test]
fn func_keyword_name() {
    let source = "func print(a, b) {print a print b}";
    assert!(errors_in_result(parse(source), vec![ErrorType::ExpectedFunctionName { line: 1 }]));
}

#[test]
fn if_() {
    let source = "if (a == 2) {print a}";
    assert_eq!(Ok(vec![Stmt { line: 1, stmt_type: StmtType::If {
        condition: Expr { line: 1, expr_type: ExprType::Binary {
            left: Box::new(Expr { line: 1, expr_type: ExprType::Variable { name: String::from("a") }}),
            operator: token::Token { type_: token::TokenType::EqualEqual, lexeme: String::from("=="), literal: token::Literal::Null, line: 1 },
            right: Box::new(Expr { line: 1, expr_type: ExprType::Literal { value: token::Literal::Number(String::from("2")) }}),
        }},
        then_body: Box::new(Stmt { line: 1, stmt_type: StmtType::Block { body: vec![Stmt { line: 1, stmt_type: StmtType::Print { expression: Expr { line: 1, expr_type: ExprType::Variable { name: String::from("a") } }}}] }}),
        else_body: None,
    }}]), parse(source));
}

#[test]
fn else_if() {
    let source = "if (a == 2) {print a} else if (a == 3) {print b} else if (a == 4) {print c}";
    assert_eq!(Ok(vec![Stmt { line: 1, stmt_type: StmtType::If {
        condition: Expr { line: 1, expr_type: ExprType::Binary {
            left: Box::new(Expr { line: 1, expr_type: ExprType::Variable { name: String::from("a") }}),
            operator: token::Token { type_: token::TokenType::EqualEqual, lexeme: String::from("=="), literal: token::Literal::Null, line: 1 },
            right: Box::new(Expr { line: 1, expr_type: ExprType::Literal { value: token::Literal::Number(String::from("2")) }}),
        }},
        then_body: Box::new(Stmt { line: 1, stmt_type: StmtType::Block { body: vec![Stmt { line: 1, stmt_type: StmtType::Print { expression: Expr { line: 1, expr_type: ExprType::Variable { name: String::from("a") } }}}] }}),
        else_body: Some(Box::new(
            Stmt { line: 1, stmt_type: StmtType::If {
                condition: Expr { line: 1, expr_type: ExprType::Binary {
                    left: Box::new(Expr { line: 1, expr_type: ExprType::Variable { name: String::from("a") }}),
                    operator: token::Token { type_: token::TokenType::EqualEqual, lexeme: String::from("=="), literal: token::Literal::Null, line: 1 },
                    right: Box::new(Expr { line: 1, expr_type: ExprType::Literal { value: token::Literal::Number(String::from("3")) }}),
                }},
                then_body: Box::new(Stmt { line: 1, stmt_type: StmtType::Block { body: vec![Stmt { line: 1, stmt_type: StmtType::Print { expression: Expr { line: 1, expr_type: ExprType::Variable { name: String::from("b") } }}}]} }),
                else_body: Some(Box::new(
                    Stmt { line: 1, stmt_type: StmtType::If {
                        condition: Expr { line: 1, expr_type: ExprType::Binary {
                            left: Box::new(Expr { line: 1, expr_type: ExprType::Variable { name: String::from("a") }}),
                            operator: token::Token { type_: token::TokenType::EqualEqual, lexeme: String::from("=="), literal: token::Literal::Null, line: 1 },
                            right: Box::new(Expr { line: 1, expr_type: ExprType::Literal { value: token::Literal::Number(String::from("4")) }}),
                        }},
                        then_body: Box::new(Stmt { line: 1, stmt_type: StmtType::Block { body: vec![Stmt { line: 1, stmt_type: StmtType::Print { expression: Expr { line: 1, expr_type: ExprType::Variable { name: String::from("c") } }}}]} }),
                        else_body: None,
                    }}
                )),
            }}
        )),
    }}]), parse(source));
}

#[test]
fn else_() {
    let source = "if (a == 2) {print a} else {print b}";
    assert_eq!(Ok(vec![Stmt { line: 1, stmt_type: StmtType::If {
        condition: Expr { line: 1, expr_type: ExprType::Binary {
            left: Box::new(Expr { line: 1, expr_type: ExprType::Variable { name: String::from("a") }}),
            operator: token::Token { type_: token::TokenType::EqualEqual, lexeme: String::from("=="), literal: token::Literal::Null, line: 1 },
            right: Box::new(Expr { line: 1, expr_type: ExprType::Literal { value: token::Literal::Number(String::from("2")) }}),
        }},
        then_body: Box::new(Stmt { line: 1, stmt_type: StmtType::Block { body: vec![Stmt { line: 1, stmt_type: StmtType::Print { expression: Expr { line: 1, expr_type: ExprType::Variable { name: String::from("a") } }}}]} }),
        else_body: Some(Box::new(Stmt { line: 1, stmt_type: StmtType::Block { body: vec![Stmt { line: 1, stmt_type: StmtType::Print { expression: Expr { line: 1, expr_type: ExprType::Variable { name: String::from("b") } }}}]} })),
    }}]), parse(source));
}

#[test]
fn print() {
    let source = "print 5*1+2*(3-4/a)";
    assert_eq!(Ok(vec![Stmt { line: 1, stmt_type: StmtType::Print { expression: Expr { line: 1, expr_type: ExprType::Binary {
        left: Box::new(Expr { line: 1, expr_type: ExprType::Binary {
            left: Box::new(Expr { line: 1, expr_type: ExprType::Literal { value: token::Literal::Number(String::from("5")) }}),
            operator: token::Token { type_: token::TokenType::Star, lexeme: String::from("*"), literal: token::Literal::Null, line: 1 },
            right: Box::new(Expr { line: 1, expr_type: ExprType::Literal { value: token::Literal::Number(String::from("1")) }}),
        }}),
        operator: token::Token { type_: token::TokenType::Plus, lexeme: String::from("+"), literal: token::Literal::Null, line: 1 },
        right: Box::new(Expr { line: 1, expr_type: ExprType::Binary {
            left: Box::new(Expr { line: 1, expr_type: ExprType::Literal { value: token::Literal::Number(String::from("2")) }}),
            operator: token::Token { type_: token::TokenType::Star, lexeme: String::from("*"), literal: token::Literal::Null, line: 1 },
            right: Box::new(Expr { line: 1, expr_type: ExprType::Grouping {
                expression: Box::new(Expr { line: 1, expr_type: ExprType::Binary {
                    left: Box::new(Expr { line: 1, expr_type: ExprType::Literal { value: token::Literal::Number(String::from("3")) }}),
                    operator: token::Token { type_: token::TokenType::Minus, lexeme: String::from("-"), literal: token::Literal::Null, line: 1 },
                    right: Box::new(Expr { line: 1, expr_type: ExprType::Binary {
                        left: Box::new(Expr { line: 1, expr_type: ExprType::Literal { value: token::Literal::Number(String::from("4")) }}),
                        operator: token::Token { type_: token::TokenType::Slash, lexeme: String::from("/"), literal: token::Literal::Null, line: 1 },
                        right: Box::new(Expr { line: 1, expr_type: ExprType::Variable { name: String::from("a") }}),
                    }}),
                }}),
            }}),
        }}),
    }}}}]), parse(source));
}

#[test]
fn var() {
    let source = "var a = 5";
    assert_eq!(Ok(vec![Stmt { line: 1, stmt_type: StmtType::VarDecl { name: String::from("a"), value: Expr { line: 1, expr_type: ExprType::Literal { value: token::Literal::Number(String::from("5")) } }}}]), parse(source));
}

#[test]
fn invalid_var_name() {
    let source = "var 123 = 5";
    assert!(errors_in_result(parse(source), vec![ErrorType::ExpectedVariableName { line: 1 }]));
}

#[test]
fn while_() {
    let source = "while (a == 2) {print b}";
    assert_eq!(Ok(vec![Stmt { line: 1, stmt_type: StmtType::While {
        condition: Expr { line: 1, expr_type: ExprType::Binary {
            left: Box::new(Expr { line: 1, expr_type: ExprType::Variable { name: String::from("a") }}),
            operator: token::Token { type_: token::TokenType::EqualEqual, lexeme: String::from("=="), literal: token::Literal::Null, line: 1 },
            right: Box::new(Expr { line: 1, expr_type: ExprType::Literal { value: token::Literal::Number(String::from("2")) }}),
        }},
        body: Box::new(Stmt { line: 1, stmt_type: StmtType::Block { body: vec![Stmt { line: 1, stmt_type: StmtType::Print { expression: Expr { line: 1, expr_type: ExprType::Variable { name: String::from("b") } }}}]} }),
    }}]), parse(source));
}

#[test]
fn multiple_statements() {
    let source = "print a if (a == 2) {print a} else {print b} var c = 3";
    assert_eq!(Ok(vec![
        Stmt { line: 1, stmt_type: StmtType::Print { expression: Expr { line: 1, expr_type: ExprType::Variable { name: String::from("a") } } } },
        Stmt { line: 1, stmt_type: StmtType::If {
            condition: Expr { line: 1, expr_type: ExprType::Binary {
                left: Box::new(Expr { line: 1, expr_type: ExprType::Variable { name: String::from("a") }}),
                operator: token::Token { type_: token::TokenType::EqualEqual, lexeme: String::from("=="), literal: token::Literal::Null, line: 1 },
                right: Box::new(Expr { line: 1, expr_type: ExprType::Literal { value: token::Literal::Number(String::from("2")) }}),
            }},
            then_body: Box::new(Stmt { line: 1, stmt_type: StmtType::Block { body: vec![Stmt { line: 1, stmt_type: StmtType::Print { expression: Expr { line: 1, expr_type: ExprType::Variable { name: String::from("a") } }}}]} }),
            else_body: Some(Box::new(Stmt { line: 1, stmt_type: StmtType::Block { body: vec![Stmt { line: 1, stmt_type: StmtType::Print { expression: Expr { line: 1, expr_type: ExprType::Variable { name: String::from("b") } }}}]} })),
        }},
        Stmt { line: 1, stmt_type: StmtType::VarDecl { name: String::from("c"), value: Expr { line: 1, expr_type: ExprType::Literal { value: token::Literal::Number(String::from("3")) } } } },
    ]), parse(source));
}

#[test]
fn bidmas() {
    let source = "5*1+2*(3-4/a)";
    assert_eq!(Ok(vec![Stmt { line: 1, stmt_type: StmtType::Expression { expression: Expr { line: 1, expr_type: ExprType::Binary {
        left: Box::new(Expr { line: 1, expr_type: ExprType::Binary {
            left: Box::new(Expr { line: 1, expr_type: ExprType::Literal { value: token::Literal::Number(String::from("5")) }}),
            operator: token::Token { type_: token::TokenType::Star, lexeme: String::from("*"), literal: token::Literal::Null, line: 1 },
            right: Box::new(Expr { line: 1, expr_type: ExprType::Literal { value: token::Literal::Number(String::from("1")) }}),
        }}),
        operator: token::Token { type_: token::TokenType::Plus, lexeme: String::from("+"), literal: token::Literal::Null, line: 1 },
        right: Box::new(Expr { line: 1, expr_type: ExprType::Binary {
            left: Box::new(Expr { line: 1, expr_type: ExprType::Literal { value: token::Literal::Number(String::from("2")) }}),
            operator: token::Token { type_: token::TokenType::Star, lexeme: String::from("*"), literal: token::Literal::Null, line: 1 },
            right: Box::new(Expr { line: 1, expr_type: ExprType::Grouping {
                expression: Box::new(Expr { line: 1, expr_type: ExprType::Binary {
                    left: Box::new(Expr { line: 1, expr_type: ExprType::Literal { value: token::Literal::Number(String::from("3")) }}),
                    operator: token::Token { type_: token::TokenType::Minus, lexeme: String::from("-"), literal: token::Literal::Null, line: 1 },
                    right: Box::new(Expr { line: 1, expr_type: ExprType::Binary {
                        left: Box::new(Expr { line: 1, expr_type: ExprType::Literal { value: token::Literal::Number(String::from("4")) }}),
                        operator: token::Token { type_: token::TokenType::Slash, lexeme: String::from("/"), literal: token::Literal::Null, line: 1 },
                        right: Box::new(Expr { line: 1, expr_type: ExprType::Variable { name: String::from("a") }}),
                }}),
                }}),
            }}),
        }}),
    }}}}]), parse(source));
}

#[test]
fn logic() {
    let source = "true and true or false and true or false";
    assert_eq!(Ok(vec![Stmt { line: 1, stmt_type: StmtType::Expression { expression: Expr { line: 1, expr_type: ExprType::Binary {
        left: Box::new(Expr { line: 1, expr_type: ExprType::Binary {
            left: Box::new(Expr { line: 1, expr_type: ExprType::Binary {
                left: Box::new(Expr { line: 1, expr_type: ExprType::Literal {value: token::Literal::Bool(true) }}),
                operator: token::Token { type_: token::TokenType::And, lexeme: String::from("and"), literal: token::Literal::Null, line: 1 },
                right: Box::new(Expr { line: 1, expr_type: ExprType::Literal {value: token::Literal::Bool(true) }}),
            }}),
            operator: token::Token { type_: token::TokenType::Or, lexeme: String::from("or"), literal: token::Literal::Null, line: 1 },
            right: Box::new(Expr { line: 1, expr_type: ExprType::Binary {
                left: Box::new(Expr { line: 1, expr_type: ExprType::Literal {value: token::Literal::Bool(false) }}),
                operator: token::Token { type_: token::TokenType::And, lexeme: String::from("and"), literal: token::Literal::Null, line: 1 },
                right: Box::new(Expr { line: 1, expr_type: ExprType::Literal {value: token::Literal::Bool(true) }}),
            }}),
        }}),
        operator: token::Token { type_: token::TokenType::Or, lexeme: String::from("or"), literal: token::Literal::Null, line: 1 },
        right: Box::new(Expr { line: 1, expr_type: ExprType::Literal {value: token::Literal::Bool(false) }}),
    }}}}]), parse(source));
}

#[test]
fn array() {
    let source = "[[5, a, b], 3+1, \"g\"]";
    assert_eq!(Ok(vec![Stmt { line: 1, stmt_type: StmtType::Expression { expression: Expr { line: 1, expr_type: ExprType::Array {
        elements: vec![
            Expr { line: 1, expr_type: ExprType::Array {
                elements: vec![
                    Expr { line: 1, expr_type: ExprType::Literal { value: token::Literal::Number(String::from("5")) }},
                    Expr { line: 1, expr_type: ExprType::Variable { name: String::from("a") }},
                    Expr { line: 1, expr_type: ExprType::Variable { name: String::from("b") }},
                ]
            }},
            Expr { line: 1, expr_type: ExprType::Binary {
                left: Box::new(Expr { line: 1, expr_type: ExprType::Literal { value: token::Literal::Number(String::from("3")) }}),
                operator: token::Token { type_: token::TokenType::Plus, lexeme: String::from("+"), literal: token::Literal::Null, line: 1 },
                right: Box::new(Expr { line: 1, expr_type: ExprType::Literal { value: token::Literal::Number(String::from("1")) }}),
            }},
            Expr { line: 1, expr_type: ExprType::Literal { value: token::Literal::String_(String::from("g")) }},
        ]
    }}}}]), parse(source));
}

#[test]
fn empty_array() {
    let source = "[]";
    assert_eq!(Ok(vec![Stmt { line: 1, stmt_type: StmtType::Expression { expression: Expr { line: 1, expr_type: ExprType::Array {elements: vec![] }}}}]), parse(source));
}

#[test]
fn unclosed_array() {
    let source = "[[5, a, b], 3+1, \"g\"";
    assert!(errors_in_result(parse(source), vec![ErrorType::ExpectedCharacter { expected: ']', line: 1 }]));
    let source = "[[5, a, b, 3+1, \"g\"]";
    assert!(errors_in_result(parse(source), vec![ErrorType::ExpectedCharacter { expected: ']', line: 1 }]));
}

#[test]
fn error_line_numbers() {
    let source = "\n[[5, a, b, 3+1, \"g\"]";
    assert!(errors_in_result(parse(source), vec![ErrorType::ExpectedCharacter { expected: ']', line: 2 }]));
    let source = "\n\n[[5, a, b, 3+1, \"g\"]";
    assert!(errors_in_result(parse(source), vec![ErrorType::ExpectedCharacter { expected: ']', line: 3 }]));
}

#[test]
fn unclosed_grouping() {
    let source = "(5 + 5";
    assert!(errors_in_result(parse(source), vec![ErrorType::ExpectedCharacter { expected: ')', line: 1 }]));
}

#[test]
fn element() {
    let source = "a[5]";
    assert_eq!(Ok(vec![Stmt { line: 1, stmt_type: StmtType::Expression { expression: Expr { line: 1, expr_type: ExprType::Element {
        array: Box::new(Expr { line: 1, expr_type: ExprType::Variable { name: String::from("a") }}),
        index: Box::new(Expr { line: 1, expr_type: ExprType::Literal { value: token::Literal::Number(String::from("5")) } }),
    }}}}]), parse(source));
}

#[test]
fn element_2d() {
    let source = "a[1][2]";
    assert_eq!(Ok(vec![Stmt { line: 1, stmt_type: StmtType::Expression { expression: Expr { line: 1, expr_type: ExprType::Element {
        array: Box::new(Expr { line: 1, expr_type: ExprType::Element {
            array: Box::new(Expr { line: 1, expr_type: ExprType::Variable { name: String::from("a") }}),
            index: Box::new(Expr { line: 1, expr_type: ExprType::Literal { value: token::Literal::Number(String::from("1")) } }),
        }}),
        index: Box::new(Expr { line: 1, expr_type: ExprType::Literal { value: token::Literal::Number(String::from("2")) } }),
    }}}}]), parse(source));
}

#[test]
fn comparison() {
    let source = "1 < 2 == 3 > 4 <= 5 >= 6 != 7";
    assert_eq!(Ok(vec![Stmt { line: 1, stmt_type: StmtType::Expression { expression: Expr { line: 1, expr_type: ExprType::Binary {
        left: Box::new(Expr { line: 1, expr_type: ExprType::Binary {
            left: Box::new(Expr { line: 1, expr_type: ExprType::Binary {
                left: Box::new(Expr { line: 1, expr_type: ExprType::Literal { value: token::Literal::Number(String::from("1")) }}),
                operator: token::Token { type_: token::TokenType::Less, lexeme: String::from("<"), literal: token::Literal::Null, line: 1 },
                right: Box::new(Expr { line: 1, expr_type: ExprType::Literal { value: token::Literal::Number(String::from("2")) }}),
            }}),
            operator: token::Token { type_: token::TokenType::EqualEqual, lexeme: String::from("=="), literal: token::Literal::Null, line: 1 },
            right: Box::new(Expr { line: 1, expr_type: ExprType::Binary {
                left: Box::new(Expr { line: 1, expr_type: ExprType::Binary {
                    left: Box::new(Expr { line: 1, expr_type: ExprType::Binary {
                        left: Box::new(Expr { line: 1, expr_type: ExprType::Literal { value: token::Literal::Number(String::from("3")) }}),
                        operator: token::Token { type_: token::TokenType::Greater, lexeme: String::from(">"), literal: token::Literal::Null, line: 1 },
                        right: Box::new(Expr { line: 1, expr_type: ExprType::Literal { value: token::Literal::Number(String::from("4")) }}),
                    }}),
                    operator: token::Token { type_: token::TokenType::LessEqual, lexeme: String::from("<="), literal: token::Literal::Null, line: 1 },
                    right: Box::new(Expr { line: 1, expr_type: ExprType::Literal { value: token::Literal::Number(String::from("5")) }}),
                }}),
                operator: token::Token { type_: token::TokenType::GreaterEqual, lexeme: String::from(">="), literal: token::Literal::Null, line: 1 },
                right: Box::new(Expr { line: 1, expr_type: ExprType::Literal { value: token::Literal::Number(String::from("6")) }}),
            }}),
        }}),
        operator: token::Token { type_: token::TokenType::BangEqual, lexeme: String::from("!="), literal: token::Literal::Null, line: 1 },
        right: Box::new(Expr { line: 1, expr_type: ExprType::Literal { value: token::Literal::Number(String::from("7")) }}),
    }}}}]), parse(source));
}

#[test]
fn call() {
    let source = "a(1, \"a\")(bc, 2+3)";
    assert_eq!(Ok(vec![Stmt { line: 1, stmt_type: StmtType::Expression { expression: Expr { line: 1, expr_type: ExprType::Call {
        callee: Box::new(Expr { line: 1, expr_type: ExprType::Call {
            callee: Box::new(Expr { line: 1, expr_type: ExprType::Variable { name: String::from("a") }}),
            arguments: vec![
                Expr { line: 1, expr_type: ExprType::Literal { value: token::Literal::Number(String::from("1")) }},
                Expr { line: 1, expr_type: ExprType::Literal { value: token::Literal::String_(String::from("a")) }}
            ],
        }}),
        arguments: vec![
            Expr { line: 1, expr_type: ExprType::Variable { name: String::from("bc") }},
            Expr { line: 1, expr_type: ExprType::Binary {
                left: Box::new(Expr { line: 1, expr_type: ExprType::Literal { value: token::Literal::Number(String::from("2")) }}),
                operator: token::Token { type_: token::TokenType::Plus, lexeme: String::from("+"), literal: token::Literal::Null, line: 1 },
                right: Box::new(Expr { line: 1, expr_type: ExprType::Literal { value: token::Literal::Number(String::from("3")) }}),
            }}
        ],
    }}}}]), parse(source));
}

#[test]
fn empty_call() {
    let source = "a()";
    assert_eq!(Ok(vec![Stmt { line: 1, stmt_type: StmtType::Expression { expression: Expr { line: 1, expr_type: ExprType::Call {
        callee: Box::new(Expr { line: 1, expr_type: ExprType::Variable { name: String::from("a") }}),
        arguments: vec![],
    }}}}]), parse(source));
}

#[test]
fn unclosed_call() {
    let source = "a(1, \"a\"(bc, 2+3)";
    assert!(errors_in_result(parse(source), vec![ErrorType::ExpectedCharacter { expected: ')', line: 1 }]));
    let source = "a(1, \"a\")(bc, 2+3";
    assert!(errors_in_result(parse(source), vec![ErrorType::ExpectedCharacter { expected: ')', line: 1 }]));
}

#[test]
fn unary() {
    let source = "!!--5";
    assert_eq!(Ok(vec![Stmt { line: 1, stmt_type: StmtType::Expression { expression: Expr { line: 1, expr_type: ExprType::Unary {
        operator: token::Token { type_: token::TokenType::Bang, lexeme: String::from("!"), literal: token::Literal::Null, line: 1 },
        right: Box::new(Expr { line: 1, expr_type: ExprType::Unary {
            operator: token::Token { type_: token::TokenType::Bang, lexeme: String::from("!"), literal: token::Literal::Null, line: 1 },
            right: Box::new(Expr { line: 1, expr_type: ExprType::Unary {
                operator: token::Token { type_: token::TokenType::Minus, lexeme: String::from("-"), literal: token::Literal::Null, line: 1 },
                right: Box::new(Expr { line: 1, expr_type: ExprType::Unary {
                    operator: token::Token { type_: token::TokenType::Minus, lexeme: String::from("-"), literal: token::Literal::Null, line: 1 },
                    right: Box::new(Expr { line: 1, expr_type: ExprType::Literal { value: token::Literal::Number(String::from("5")) }}),
                }}),
            }}),
        }}),
    }}}}]), parse(source));
}

#[test]
fn etc() {
    let source = "5--4";
    assert_eq!(Ok(vec![Stmt { line: 1, stmt_type: StmtType::Expression { expression: Expr { line: 1, expr_type: ExprType::Binary {
        left: Box::new(Expr { line: 1, expr_type: ExprType::Literal { value: token::Literal::Number(String::from("5")) }}),
        operator: token::Token { type_: token::TokenType::Minus, lexeme: String::from("-"), literal: token::Literal::Null, line: 1 },
        right: Box::new(Expr { line: 1, expr_type: ExprType::Unary {
            operator: token::Token { type_: token::TokenType::Minus, lexeme: String::from("-"), literal: token::Literal::Null, line: 1 },
            right: Box::new(Expr { line: 1, expr_type: ExprType::Literal { value: token::Literal::Number(String::from("4")) }}),
        }}),
    }}}}]), parse(source));
}

#[test]
fn sync() {
    let source = "print {\nfor (x = 5; x < 2; x = x + 1 {print x}";
    assert!(errors_in_result(parse(source), vec![
        ErrorType::ExpectedExpression { line: 1 },
        ErrorType::ExpectedParenAfterIncrement { line: 2 },
    ]));
}

#[test]
fn empty_source() {
    assert_eq!(Ok(vec![]), parse(""));
    assert_eq!(Ok(vec![]), parse("# nothing but a comment\n"));
}

#[test]
fn empty_dictionary() {
    let source = "{}";
    assert_eq!(Ok(vec![Stmt { line: 1, stmt_type: StmtType::Expression { expression: Expr { line: 1, expr_type: ExprType::Dictionary { elements: vec![] }}}}]), parse(source));
}

#[test]
fn dictionary() {
    let source = "{1: a}";
    assert_eq!(Ok(vec![Stmt { line: 1, stmt_type: StmtType::Expression { expression: Expr { line: 1, expr_type: ExprType::Dictionary {
        elements: vec![nea::hash_table::KeyValue {
            key: Expr { line: 1, expr_type: ExprType::Literal { value: token::Literal::Number(String::from("1")) }},
            value: Expr { line: 1, expr_type: ExprType::Variable { name: String::from("a") }},
        }]
    }}}}]), parse(source));
    assert!(errors_in_result(parse("{1 a}"), vec![ErrorType::ExpectedColonAfterKey { line: 1 }]));
}

#[test]
fn assignment_groups_to_the_right() {
    let source = "a = b = 1";
    assert_eq!(Ok(vec![Stmt { line: 1, stmt_type: StmtType::Expression { expression: Expr { line: 1, expr_type: ExprType::Assignment {
        target: Box::new(Expr { line: 1, expr_type: ExprType::Variable { name: String::from("a") }}),
        value: Box::new(Expr { line: 1, expr_type: ExprType::Assignment {
            target: Box::new(Expr { line: 1, expr_type: ExprType::Variable { name: String::from("b") }}),
            value: Box::new(Expr { line: 1, expr_type: ExprType::Literal { value: token::Literal::Number(String::from("1")) }}),
        }}),
    }}}}]), parse(source));
}

#[test]
fn break_and_return() {
    let source = "break return 1";
    assert_eq!(Ok(vec![
        Stmt { line: 1, stmt_type: StmtType::Break },
        Stmt { line: 1, stmt_type: StmtType::Return { expression: Expr { line: 1, expr_type: ExprType::Literal { value: token::Literal::Number(String::from("1")) }}}},
    ]), parse(source));
}

#[test]
fn missing_parameter_name() {
    assert!(errors_in_result(parse("func f(a, ) {}"), vec![ErrorType::ExpectedParameterName { line: 1 }]));
}

#[test]
fn diagnostics_are_never_empty() {
    for source in ["(", ")", "var", "func", "for", "if (a) {", "a[", "{1:", "print", "1 +", "}", "else"] {
        match parse(source) {
            Ok(_) => panic!("`{}` parses", source),
            Err(errors) => assert!(!errors.is_empty()),
        }
    }
}

#[test]
fn tokens_without_end_token() {
    let mut tokens = Tokenizer::new("print a").tokenize().unwrap();
    tokens.pop();
    assert_eq!(Ok(vec![Stmt { line: 1, stmt_type: StmtType::Print { expression: Expr { line: 1, expr_type: ExprType::Variable { name: String::from("a") }}}}]), Parser::new(tokens).parse());
    assert_eq!(Ok(vec![]), Parser::new(vec![]).parse());
}

#[test]
fn statement_lines() {
    let source = "var a = 1\nprint\na\nwhile (a) {\n}";
    let statements = parse(source).unwrap();
    let lines: Vec<usize> = statements.iter().map(|statement| statement.line).collect();
    assert_eq!(lines, vec![1, 2, 5]);
}
