use nea::error::ErrorType;
use nea::program::compile;
use nea::stmt::{Stmt, StmtType};
use nea::expr::{Expr, ExprType};
use nea::token::Literal;

fn lines_of_expr(e: &Expr, lines: &mut Vec<usize>) {
    lines.push(e.line);
    match &e.expr_type {
        ExprType::Array { elements } => elements.iter().for_each(|x| lines_of_expr(x, lines)),
        ExprType::Assignment { target, value } => {
            lines_of_expr(target, lines);
            lines_of_expr(value, lines);
        }
        ExprType::Binary { left, operator, right } => {
            lines.push(operator.line);
            lines_of_expr(left, lines);
            lines_of_expr(right, lines);
        }
        ExprType::Call { callee, arguments } => {
            lines_of_expr(callee, lines);
            arguments.iter().for_each(|x| lines_of_expr(x, lines));
        }
        ExprType::Dictionary { elements } => elements.iter().for_each(|pair| {
            lines_of_expr(&pair.key, lines);
            lines_of_expr(&pair.value, lines);
        }),
        ExprType::Element { array, index } => {
            lines_of_expr(array, lines);
            lines_of_expr(index, lines);
        }
        ExprType::Grouping { expression } => lines_of_expr(expression, lines),
        ExprType::Unary { operator, right } => {
            lines.push(operator.line);
            lines_of_expr(right, lines);
        }
        ExprType::Literal { .. } | ExprType::Variable { .. } => {}
    }
}

fn lines_of_stmt(s: &Stmt, lines: &mut Vec<usize>) {
    lines.push(s.line);
    match &s.stmt_type {
        StmtType::Block { body } => body.iter().for_each(|x| lines_of_stmt(x, lines)),
        StmtType::Break => {}
        StmtType::Expression { expression } | StmtType::Print { expression } | StmtType::Return { expression } => {
            lines_of_expr(expression, lines)
        }
        StmtType::Function { body, .. } => lines_of_stmt(body, lines),
        StmtType::If { condition, then_body, else_body } => {
            lines_of_expr(condition, lines);
            lines_of_stmt(then_body, lines);
            if let Some(else_body) = else_body {
                lines_of_stmt(else_body, lines);
            }
        }
        StmtType::VarDecl { value, .. } => lines_of_expr(value, lines),
        StmtType::While { condition, body } => {
            lines_of_expr(condition, lines);
            lines_of_stmt(body, lines);
        }
    }
}

#[test]
fn every_node_is_on_a_line_of_the_source() {
    let source = "var a = [1,\n 2]\nfunc f(x) {\n  if (x) { return {1:\n 2} } else { print -x }\n}\n\nfor (var i = 0; i < 2; i = i + 1) { a[i] = f(\n i) }\n# end\n";
    let line_count = 1 + source.matches('\n').count();
    let statements = compile(source).unwrap();
    let mut lines = Vec::new();
    statements.iter().for_each(|s| lines_of_stmt(s, &mut lines));
    assert!(lines.len() > 20);
    assert!(lines.iter().all(|line| 1 <= *line && *line <= line_count));
}

#[test]
fn lexer_error_is_the_one_diagnostic() {
    assert_eq!(compile("print 1\n $"), Err(vec![ErrorType::UnexpectedCharacter { character: '$', line: 2 }]));
    assert_eq!(compile("print \"open"), Err(vec![ErrorType::UnterminatedString]));
}

#[test]
fn parser_errors_are_collected() {
    assert_eq!(
        compile("print {\nfor (x = 5; x < 2; x = x + 1 {print x}"),
        Err(vec![
            ErrorType::ExpectedExpression { line: 1 },
            ErrorType::ExpectedParenAfterIncrement { line: 2 },
            ErrorType::ExpectedExpression { line: 2 },
        ])
    );
}

#[test]
fn empty_source_has_no_statements() {
    assert_eq!(compile(""), Ok(vec![]));
    assert_eq!(compile("   \n\t# nothing\n"), Ok(vec![]));
}

#[test]
fn boolean_literals_come_back_from_their_display() {
    for (text, value) in [("true", true), ("false", false)] {
        assert_eq!(
            compile(text),
            Ok(vec![Stmt {
                line: 1,
                stmt_type: StmtType::Expression {
                    expression: Expr { line: 1, expr_type: ExprType::Literal { value: Literal::Bool(value) } }
                }
            }])
        );
    }
}

#[test]
fn operators_keep_the_line_they_stand_on() {
    let statements = compile("print 1\n+\n2\nprint\n-\n3").unwrap();
    assert_eq!(statements.len(), 2);
    let StmtType::Print { expression } = &statements[0].stmt_type else { panic!("a print statement") };
    let ExprType::Binary { operator, .. } = &expression.expr_type else { panic!("a binary expression") };
    assert_eq!(operator.line, 2);
    let StmtType::Print { expression } = &statements[1].stmt_type else { panic!("a print statement") };
    let ExprType::Unary { operator, .. } = &expression.expr_type else { panic!("a unary expression") };
    assert_eq!(operator.line, 5);
    let mut lines = Vec::new();
    statements.iter().for_each(|s| lines_of_stmt(s, &mut lines));
    assert!(lines.iter().all(|line| 1 <= *line && *line <= 6));
}
