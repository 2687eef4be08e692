//! The parser: tokens to statements, by recursive descent.

use vstd::prelude::*;
use crate::error::{ErrorType, ErrorView};
use crate::expr::{exprs_view, pairs_view, Expr, ExprType, ExprTypeView, ExprView};
use crate::grammar::{
    after, array, assignment, binary, binary_rest, block, block_rest, call, call_rest, dictionary, element,
    element_rest, ends_at, entries_rest, expression, expressions, expressions_rest, for_, for_body,
    for_condition, for_increment, function, grouping, guarded, if_, is_at, is_literal, operand, operator_of,
    parameters_rest, primary, program, program_end, rank, read, refused, resumed, resumes_at, statement, unary, var,
    while_, with_expression, Level,
};
use crate::hash_table::KeyValue;
use crate::stmt::{names_view, stmts_view, Stmt, StmtType, StmtTypeView, StmtView};
use crate::token::{tokens_view, Literal, Token, TokenType, TokenView};

verus! {

/// Whether `line` is the first line or the line of one of the tokens.
pub open spec fn line_known(tokens: Seq<TokenView>, line: usize) -> bool {
    line == 1 || exists|i: int| 0 <= i < tokens.len() && #[trigger] tokens[i].line == line
}

/// Whether every node of the expression, and every operator token kept in it,
/// carries the first line or the line of a token.
pub open spec fn expr_lines(e: ExprView, tokens: Seq<TokenView>) -> bool
    decreases e,
{
    &&& line_known(tokens, e.line)
    &&& match e.expr_type {
        ExprTypeView::Array { elements } => forall|i: int|
            0 <= i < elements.len() ==> expr_lines(#[trigger] elements[i], tokens),
        ExprTypeView::Assignment { target, value } => expr_lines(*target, tokens) && expr_lines(*value, tokens),
        ExprTypeView::Binary { left, operator, right } => {
            &&& line_known(tokens, operator.line)
            &&& expr_lines(*left, tokens)
            &&& expr_lines(*right, tokens)
        },
        ExprTypeView::Call { callee, arguments } => expr_lines(*callee, tokens) && forall|i: int|
            0 <= i < arguments.len() ==> expr_lines(#[trigger] arguments[i], tokens),
        ExprTypeView::Dictionary { elements } => forall|i: int|
            0 <= i < elements.len() ==> expr_lines((#[trigger] elements[i]).0, tokens) && expr_lines(
                elements[i].1,
                tokens,
            ),
        ExprTypeView::Element { array, index } => expr_lines(*array, tokens) && expr_lines(*index, tokens),
        ExprTypeView::Grouping { expression } => expr_lines(*expression, tokens),
        ExprTypeView::Literal { value } => true,
        ExprTypeView::Unary { operator, right } => line_known(tokens, operator.line) && expr_lines(*right, tokens),
        ExprTypeView::Variable { name } => true,
    }
}

proof fn lemma_array_lines(elements: Seq<ExprView>, line: usize, tokens: Seq<TokenView>)
    requires
        line_known(tokens, line),
        forall|i: int| 0 <= i < elements.len() ==> expr_lines(#[trigger] elements[i], tokens),
    ensures
        expr_lines(ExprView { line, expr_type: ExprTypeView::Array { elements } }, tokens),
{
}

proof fn lemma_call_lines(callee: ExprView, arguments: Seq<ExprView>, line: usize, tokens: Seq<TokenView>)
    requires
        line_known(tokens, line),
        expr_lines(callee, tokens),
        forall|i: int| 0 <= i < arguments.len() ==> expr_lines(#[trigger] arguments[i], tokens),
    ensures
        expr_lines(ExprView { line, expr_type: ExprTypeView::Call { callee: Box::new(callee), arguments } }, tokens),
{
}

proof fn lemma_dictionary_lines(elements: Seq<(ExprView, ExprView)>, line: usize, tokens: Seq<TokenView>)
    requires
        line_known(tokens, line),
        forall|i: int|
            0 <= i < elements.len() ==> expr_lines((#[trigger] elements[i]).0, tokens) && expr_lines(
                elements[i].1,
                tokens,
            ),
    ensures
        expr_lines(ExprView { line, expr_type: ExprTypeView::Dictionary { elements } }, tokens),
{
}

/// Whether every node of the statement, and every operator token kept in it,
/// carries the first line or the line of a token.
pub open spec fn stmt_lines(s: StmtView, tokens: Seq<TokenView>) -> bool
    decreases s,
{
    &&& line_known(tokens, s.line)
    &&& match s.stmt_type {
        StmtTypeView::Block { body } => forall|i: int|
            0 <= i < body.len() ==> stmt_lines(#[trigger] body[i], tokens),
        StmtTypeView::Break => true,
        StmtTypeView::Expression { expression } => expr_lines(expression, tokens),
        StmtTypeView::Function { name, parameters, body } => stmt_lines(*body, tokens),
        StmtTypeView::If { condition, then_body, else_body } => expr_lines(condition, tokens) && stmt_lines(
            *then_body,
            tokens,
        ) && match else_body {
            Some(e) => stmt_lines(*e, tokens),
            None => true,
        },
        StmtTypeView::Print { expression } => expr_lines(expression, tokens),
        StmtTypeView::Return { expression } => expr_lines(expression, tokens),
        StmtTypeView::VarDecl { name, value } => expr_lines(value, tokens),
        StmtTypeView::While { condition, body } => expr_lines(condition, tokens) && stmt_lines(*body, tokens),
    }
}

proof fn lemma_block_lines(body: Seq<StmtView>, line: usize, tokens: Seq<TokenView>)
    requires
        line_known(tokens, line),
        forall|i: int| 0 <= i < body.len() ==> stmt_lines(#[trigger] body[i], tokens),
    ensures
        stmt_lines(StmtView { line, stmt_type: StmtTypeView::Block { body } }, tokens),
{
}

/// Whether every node of the expression, and every operator token kept in it,
/// carries a line from 1 up to `high`.
pub open spec fn expr_lines_within(e: ExprView, high: int) -> bool
    decreases e,
{
    &&& 1 <= e.line <= high
    &&& match e.expr_type {
        ExprTypeView::Array { elements } => forall|i: int|
            0 <= i < elements.len() ==> expr_lines_within(#[trigger] elements[i], high),
        ExprTypeView::Assignment { target, value } => expr_lines_within(*target, high) && expr_lines_within(
            *value,
            high,
        ),
        ExprTypeView::Binary { left, operator, right } => {
            &&& 1 <= operator.line <= high
            &&& expr_lines_within(*left, high)
            &&& expr_lines_within(*right, high)
        },
        ExprTypeView::Call { callee, arguments } => expr_lines_within(*callee, high) && forall|i: int|
            0 <= i < arguments.len() ==> expr_lines_within(#[trigger] arguments[i], high),
        ExprTypeView::Dictionary { elements } => forall|i: int|
            0 <= i < elements.len() ==> expr_lines_within((#[trigger] elements[i]).0, high) && expr_lines_within(
                elements[i].1,
                high,
            ),
        ExprTypeView::Element { array, index } => expr_lines_within(*array, high) && expr_lines_within(*index, high),
        ExprTypeView::Grouping { expression } => expr_lines_within(*expression, high),
        ExprTypeView::Literal { value } => true,
        ExprTypeView::Unary { operator, right } => 1 <= operator.line <= high && expr_lines_within(*right, high),
        ExprTypeView::Variable { name } => true,
    }
}

/// Whether every node of the statement, and every operator token kept in it,
/// carries a line from 1 up to `high`.
pub open spec fn stmt_lines_within(s: StmtView, high: int) -> bool
    decreases s,
{
    &&& 1 <= s.line <= high
    &&& match s.stmt_type {
        StmtTypeView::Block { body } => forall|i: int|
            0 <= i < body.len() ==> stmt_lines_within(#[trigger] body[i], high),
        StmtTypeView::Break => true,
        StmtTypeView::Expression { expression } => expr_lines_within(expression, high),
        StmtTypeView::Function { name, parameters, body } => stmt_lines_within(*body, high),
        StmtTypeView::If { condition, then_body, else_body } => expr_lines_within(condition, high)
            && stmt_lines_within(*then_body, high) && match else_body {
            Some(e) => stmt_lines_within(*e, high),
            None => true,
        },
        StmtTypeView::Print { expression } => expr_lines_within(expression, high),
        StmtTypeView::Return { expression } => expr_lines_within(expression, high),
        StmtTypeView::VarDecl { name, value } => expr_lines_within(value, high),
        StmtTypeView::While { condition, body } => expr_lines_within(condition, high) && stmt_lines_within(
            *body,
            high,
        ),
    }
}

/// The line of a diagnostic of the parser.
pub open spec fn syntax_error_line(e: ErrorView) -> usize {
    match e {
        ErrorView::ExpectedCharacter { expected, line } => line,
        ErrorView::ExpectedExpression { line } => line,
        ErrorView::ExpectedFunctionName { line } => line,
        ErrorView::ExpectedParameterName { line } => line,
        ErrorView::ExpectedVariableName { line } => line,
        ErrorView::ExpectedSemicolonAfterInit { line } => line,
        ErrorView::ExpectedSemicolonAfterCondition { line } => line,
        ErrorView::ExpectedParenAfterIncrement { line } => line,
        ErrorView::ExpectedColonAfterKey { line } => line,
        _ => 0,
    }
}

/// An expression whose lines are lines of tokens has its lines where the lines
/// of the tokens are.
proof fn lemma_expr_lines_within(e: ExprView, tokens: Seq<TokenView>, high: int)
    requires
        expr_lines(e, tokens),
        high >= 1,
        forall|i: int| 0 <= i < tokens.len() ==> 1 <= (#[trigger] tokens[i]).line <= high,
    ensures
        expr_lines_within(e, high),
    decreases e,
{
    match e.expr_type {
        ExprTypeView::Array { elements } => {
            assert forall|i: int| 0 <= i < elements.len() implies expr_lines_within(
                #[trigger] elements[i],
                high,
            ) by {
                lemma_expr_lines_within(elements[i], tokens, high);
            }
        },
        ExprTypeView::Assignment { target, value } => {
            lemma_expr_lines_within(*target, tokens, high);
            lemma_expr_lines_within(*value, tokens, high);
        },
        ExprTypeView::Binary { left, operator, right } => {
            lemma_expr_lines_within(*left, tokens, high);
            lemma_expr_lines_within(*right, tokens, high);
        },
        ExprTypeView::Call { callee, arguments } => {
            lemma_expr_lines_within(*callee, tokens, high);
            assert forall|i: int| 0 <= i < arguments.len() implies expr_lines_within(
                #[trigger] arguments[i],
                high,
            ) by {
                lemma_expr_lines_within(arguments[i], tokens, high);
            }
        },
        ExprTypeView::Dictionary { elements } => {
            assert forall|i: int| 0 <= i < elements.len() implies expr_lines_within(
                (#[trigger] elements[i]).0,
                high,
            ) && expr_lines_within(elements[i].1, high) by {
                lemma_expr_lines_within(elements[i].0, tokens, high);
                lemma_expr_lines_within(elements[i].1, tokens, high);
            }
        },
        ExprTypeView::Element { array, index } => {
            lemma_expr_lines_within(*array, tokens, high);
            lemma_expr_lines_within(*index, tokens, high);
        },
        ExprTypeView::Grouping { expression } => {
            lemma_expr_lines_within(*expression, tokens, high);
        },
        ExprTypeView::Unary { operator, right } => {
            lemma_expr_lines_within(*right, tokens, high);
        },
        _ => {},
    }
}

/// A statement whose lines are lines of tokens has its lines where the lines of
/// the tokens are.
pub proof fn lemma_stmt_lines_within(s: StmtView, tokens: Seq<TokenView>, high: int)
    requires
        stmt_lines(s, tokens),
        high >= 1,
        forall|i: int| 0 <= i < tokens.len() ==> 1 <= (#[trigger] tokens[i]).line <= high,
    ensures
        stmt_lines_within(s, high),
    decreases s,
{
    match s.stmt_type {
        StmtTypeView::Block { body } => {
            assert forall|i: int| 0 <= i < body.len() implies stmt_lines_within(#[trigger] body[i], high) by {
                lemma_stmt_lines_within(body[i], tokens, high);
            }
        },
        StmtTypeView::Break => {},
        StmtTypeView::Expression { expression } => {
            lemma_expr_lines_within(expression, tokens, high);
        },
        StmtTypeView::Function { name, parameters, body } => {
            lemma_stmt_lines_within(*body, tokens, high);
        },
        StmtTypeView::If { condition, then_body, else_body } => {
            lemma_expr_lines_within(condition, tokens, high);
            lemma_stmt_lines_within(*then_body, tokens, high);
            match else_body {
                Some(e) => {
                    lemma_stmt_lines_within(*e, tokens, high);
                },
                None => {},
            }
        },
        StmtTypeView::Print { expression } => {
            lemma_expr_lines_within(expression, tokens, high);
        },
        StmtTypeView::Return { expression } => {
            lemma_expr_lines_within(expression, tokens, high);
        },
        StmtTypeView::VarDecl { name, value } => {
            lemma_expr_lines_within(value, tokens, high);
        },
        StmtTypeView::While { condition, body } => {
            lemma_expr_lines_within(condition, tokens, high);
            lemma_stmt_lines_within(*body, tokens, high);
        },
    }
}

/// Whether the error is one of the parser's, on the first line or the line of a token.
pub open spec fn syntax_error(e: ErrorView, tokens: Seq<TokenView>) -> bool {
    match e {
        ErrorView::ExpectedCharacter { expected, line } => line_known(tokens, line),
        ErrorView::ExpectedExpression { line } => line_known(tokens, line),
        ErrorView::ExpectedFunctionName { line } => line_known(tokens, line),
        ErrorView::ExpectedParameterName { line } => line_known(tokens, line),
        ErrorView::ExpectedVariableName { line } => line_known(tokens, line),
        ErrorView::ExpectedSemicolonAfterInit { line } => line_known(tokens, line),
        ErrorView::ExpectedSemicolonAfterCondition { line } => line_known(tokens, line),
        ErrorView::ExpectedParenAfterIncrement { line } => line_known(tokens, line),
        ErrorView::ExpectedColonAfterKey { line } => line_known(tokens, line),
        _ => false,
    }
}

/// Whether a statement starts with a token of this kind and takes it at once.
pub open spec fn starts_statement(kind: TokenType) -> bool {
    kind == TokenType::Break || kind == TokenType::For || kind == TokenType::Func || kind == TokenType::If
        || kind == TokenType::Print || kind == TokenType::Return || kind == TokenType::Var || kind
        == TokenType::While
}

fn is_operator_of(level: Level, kind: TokenType) -> (r: bool)
    ensures
        r == operator_of(level, kind),
{
    match level {
        Level::Or => kind == TokenType::Or,
        Level::And => kind == TokenType::And,
        Level::Equality => kind == TokenType::EqualEqual || kind == TokenType::BangEqual,
        Level::Comparison => kind == TokenType::Greater || kind == TokenType::Less || kind
            == TokenType::GreaterEqual || kind == TokenType::LessEqual,
        Level::Sum => kind == TokenType::Plus || kind == TokenType::Minus,
        Level::Product => kind == TokenType::Star || kind == TokenType::Slash || kind == TokenType::Percent,
    }
}

fn is_literal_kind(kind: TokenType) -> (r: bool)
    ensures
        r == is_literal(kind),
{
    kind == TokenType::String_ || kind == TokenType::Number || kind == TokenType::True || kind == TokenType::False
        || kind == TokenType::Null
}

/// The parser over one sequence of tokens.
pub struct Parser {
    tokens: Vec<Token>,
    current_index: usize,
    current_line: usize,
}

/// The lines of what parsing an expression gives are known lines.
pub open spec fn expr_result(r: Result<Expr, ErrorType>, tokens: Seq<TokenView>) -> bool {
    match r {
        Ok(e) => expr_lines(e@, tokens),
        Err(e) => syntax_error(e@, tokens),
    }
}

/// The lines of what parsing a statement gives are known lines.
pub open spec fn stmt_result(r: Result<Stmt, ErrorType>, tokens: Seq<TokenView>) -> bool {
    match r {
        Ok(s) => stmt_lines(s@, tokens),
        Err(e) => syntax_error(e@, tokens),
    }
}

/// Whether the parser gives what the grammar reads: the expression or the diagnostic.
pub open spec fn expr_is(r: Result<Expr, ErrorType>, value: Result<ExprView, ErrorView>) -> bool {
    match r {
        Ok(e) => value == Ok::<ExprView, ErrorView>(e@),
        Err(e) => value == Err::<ExprView, ErrorView>(e@),
    }
}

/// Whether the parser gives what the grammar reads: the statement or the diagnostic.
pub open spec fn stmt_is(r: Result<Stmt, ErrorType>, value: Result<StmtView, ErrorView>) -> bool {
    match r {
        Ok(s) => value == Ok::<StmtView, ErrorView>(s@),
        Err(e) => value == Err::<StmtView, ErrorView>(e@),
    }
}

/// Whether the parser gives what the grammar reads: the expressions or the diagnostic.
pub open spec fn exprs_are(r: Result<Vec<Expr>, ErrorType>, value: Result<Seq<ExprView>, ErrorView>) -> bool {
    match r {
        Ok(list) => value == Ok::<Seq<ExprView>, ErrorView>(exprs_view(list@)),
        Err(e) => value == Err::<Seq<ExprView>, ErrorView>(e@),
    }
}

/// The views of a list of diagnostics.
pub open spec fn errors_view(errors: Seq<ErrorType>) -> Seq<ErrorView> {
    Seq::new(errors.len(), |i: int| errors[i]@)
}

impl Parser {
    /// The tokens that are parsed.
    pub closed spec fn tokens(&self) -> Seq<TokenView> {
        tokens_view(self.tokens@)
    }

    /// The index of the next token.
    pub closed spec fn position(&self) -> int {
        self.current_index as int
    }

    /// The line of the token taken last; 1 before the first.
    pub closed spec fn line(&self) -> usize {
        self.current_line
    }

    /// The cursor is within the tokens and the line is a known one.
    pub closed spec fn ok(&self) -> bool {
        self.current_index <= self.tokens@.len() && line_known(self.tokens(), self.current_line)
    }

    /// What holds of every parser.
    #[verifier::type_invariant]
    closed spec fn sound(self) -> bool {
        self.ok()
    }

    /// How a parsing function leaves the parser: same tokens, cursor not moved back.
    pub closed spec fn follows(&self, before: &Parser) -> bool {
        &&& self.tokens == before.tokens
        &&& before.current_index <= self.current_index
        &&& self.ok()
    }

    /// The parser has taken `consumed` tokens since `before`, and is on `line`.
    pub closed spec fn took(&self, before: &Parser, consumed: nat, line: usize) -> bool {
        self.current_index == before.current_index + consumed && self.current_line == line
    }

    /// How many tokens are left.
    pub closed spec fn left(&self) -> nat {
        (self.tokens@.len() - self.current_index) as nat
    }

    /// The kind of the next token, if there is one.
    pub closed spec fn next_kind(&self) -> Option<TokenType> {
        if self.current_index < self.tokens@.len() {
            Some(self.tokens@[self.current_index as int].type_)
        } else {
            None
        }
    }

    /// Whether the tokens are used up: the next token is the end token, or there is none.
    pub closed spec fn at_end(&self) -> bool {
        ends_at(self.tokens(), self.current_index as int)
    }

    /// A parser at the start of `tokens`.
    pub fn new(tokens: Vec<Token>) -> (r: Parser)
        ensures
            r.tokens() == tokens_view(tokens@),
            r.position() == 0,
            r.line() == 1,
            r.ok(),
            r.at_end() == (tokens@.len() == 0 || tokens@[0].type_ == TokenType::Eof),
    {
        Parser { tokens, current_index: 0, current_line: 1 }
    }

    /// Whether the next token is of kind `kind`.
    fn check(&self, kind: TokenType) -> (r: bool)
        ensures
            r == is_at(self.tokens(), self.current_index as int, kind),
            r == (self.next_kind() == Some(kind)),
    {
        proof {
            use_type_invariant(self);
        }
        self.current_index < self.tokens.len() && self.tokens[self.current_index].type_ == kind
    }

    /// Takes the next token.
    fn advance(&mut self) -> (r: Token)
        requires
            old(self).current_index < old(self).tokens@.len(),
        ensures
            final(self).follows(old(self)),
            r@ == old(self).tokens()[old(self).current_index as int],
            final(self).took(old(self), 1, r.line),
    {
        proof {
            use_type_invariant(&*self);
        }
        let length = self.tokens.len();
        let token = self.tokens[self.current_index].clone();
        assert(self.tokens()[self.current_index as int] == self.tokens@[self.current_index as int]@);
        assert(self.tokens()[self.current_index as int].line == token.line);
        self.current_line = token.line;
        self.current_index += 1;
        token
    }

    /// Takes the next token if it is of kind `kind`.
    fn consume(&mut self, kind: TokenType) -> (r: Option<Token>)
        ensures
            final(self).follows(old(self)),
            match r {
                Some(token) => {
                    &&& is_at(old(self).tokens(), old(self).current_index as int, kind)
                    &&& old(self).next_kind() == Some(kind)
                    &&& token@ == old(self).tokens()[old(self).current_index as int]
                    &&& final(self).took(old(self), 1, token.line)
                },
                None => {
                    &&& !is_at(old(self).tokens(), old(self).current_index as int, kind)
                    &&& old(self).next_kind() != Some(kind)
                    &&& final(self).took(old(self), 0, old(self).current_line)
                },
            },
    {
        proof {
            use_type_invariant(&*self);
        }
        if self.current_index < self.tokens.len() && self.tokens[self.current_index].type_ == kind {
            Some(self.advance())
        } else {
            None
        }
    }

    /// Takes the next token if it is of kind `kind`; else fails with the character
    /// that was expected.
    fn expect(&mut self, kind: TokenType, expected: char) -> (r: Result<(), ErrorType>)
        ensures
            final(self).follows(old(self)),
            match r {
                Ok(_) => {
                    &&& is_at(old(self).tokens(), old(self).current_index as int, kind)
                    &&& final(self).took(
                        old(self),
                        1,
                        old(self).tokens()[old(self).current_index as int].line,
                    )
                },
                Err(e) => {
                    &&& !is_at(old(self).tokens(), old(self).current_index as int, kind)
                    &&& e@ == (ErrorView::ExpectedCharacter { expected, line: old(self).current_line })
                    &&& syntax_error(e@, final(self).tokens())
                    &&& final(self).took(old(self), 0, old(self).current_line)
                },
            },
    {
        proof {
            use_type_invariant(&*self);
        }
        match self.consume(kind) {
            Some(_) => Ok(()),
            None => Err(ErrorType::ExpectedCharacter { expected, line: self.current_line }),
        }
    }

    /// Takes the next token if it is an operator of the level.
    fn consume_operator(&mut self, level: Level) -> (r: Option<Token>)
        ensures
            final(self).follows(old(self)),
            match r {
                Some(token) => {
                    &&& old(self).current_index < old(self).tokens().len()
                    &&& operator_of(level, old(self).tokens()[old(self).current_index as int].type_)
                    &&& token@ == old(self).tokens()[old(self).current_index as int]
                    &&& final(self).took(old(self), 1, token.line)
                },
                None => {
                    &&& !(old(self).current_index < old(self).tokens().len() && operator_of(
                        level,
                        old(self).tokens()[old(self).current_index as int].type_,
                    ))
                    &&& final(self).took(old(self), 0, old(self).current_line)
                },
            },
    {
        proof {
            use_type_invariant(&*self);
        }
        if self.current_index < self.tokens.len() && is_operator_of(level, self.tokens[self.current_index].type_) {
            Some(self.advance())
        } else {
            None
        }
    }

    /// Takes the next token if it is a literal.
    fn consume_literal(&mut self) -> (r: Option<Token>)
        ensures
            final(self).follows(old(self)),
            match r {
                Some(token) => {
                    &&& old(self).current_index < old(self).tokens().len()
                    &&& is_literal(old(self).tokens()[old(self).current_index as int].type_)
                    &&& token@ == old(self).tokens()[old(self).current_index as int]
                    &&& final(self).took(old(self), 1, token.line)
                },
                None => {
                    &&& !(old(self).current_index < old(self).tokens().len() && is_literal(
                        old(self).tokens()[old(self).current_index as int].type_,
                    ))
                    &&& final(self).took(old(self), 0, old(self).current_line)
                },
            },
    {
        proof {
            use_type_invariant(&*self);
        }
        if self.current_index < self.tokens.len() && is_literal_kind(self.tokens[self.current_index].type_) {
            Some(self.advance())
        } else {
            None
        }
    }

    /// expression := assignment
    #[verifier::spinoff_prover]
    fn expression(&mut self) -> (r: Result<Expr, ErrorType>)
        ensures
            final(self).follows(old(self)),
            expr_result(r, final(self).tokens()),
            r is Ok ==> final(self).current_index > old(self).current_index,
            ({
                let g = expression(old(self).tokens(), old(self).position(), old(self).line());
                final(self).took(old(self), g.consumed, g.line) && expr_is(r, g.value)
            }),
        decreases old(self).left(), 12nat,
    {
        proof {
            use_type_invariant(&*self);
        }
        reveal_with_fuel(expression, 1);
        reveal_with_fuel(assignment, 1);
        self.assignment()
    }

    /// assignment := or ( "=" assignment )?
    #[verifier::spinoff_prover]
    fn assignment(&mut self) -> (r: Result<Expr, ErrorType>)
        ensures
            final(self).follows(old(self)),
            expr_result(r, final(self).tokens()),
            r is Ok ==> final(self).current_index > old(self).current_index,
            ({
                let g = assignment(old(self).tokens(), old(self).position(), old(self).line());
                final(self).took(old(self), g.consumed, g.line) && expr_is(r, g.value)
            }),
        decreases old(self).left(), 11nat,
    {
        proof {
            use_type_invariant(&*self);
        }
        reveal_with_fuel(assignment, 1);
        reveal_with_fuel(binary, 1);
        let expr = self.binary(Level::Or)?;
        if self.consume(TokenType::Equal).is_some() {
            let value = self.assignment()?;
            Ok(
                Expr {
                    line: self.current_line,
                    expr_type: ExprType::Assignment { target: Box::new(expr), value: Box::new(value) },
                },
            )
        } else {
            Ok(expr)
        }
    }

    /// The operands of a level are the expressions of the next tighter level; those
    /// of products are unary expressions.
    #[verifier::spinoff_prover]
    fn operand(&mut self, level: Level) -> (r: Result<Expr, ErrorType>)
        ensures
            final(self).follows(old(self)),
            expr_result(r, final(self).tokens()),
            r is Ok ==> final(self).current_index > old(self).current_index,
            ({
                let g = operand(old(self).tokens(), old(self).position(), old(self).line(), level);
                final(self).took(old(self), g.consumed, g.line) && expr_is(r, g.value)
            }),
        decreases old(self).left(), rank(level), 0nat,
    {
        proof {
            use_type_invariant(&*self);
        }
        reveal_with_fuel(operand, 1);
        reveal_with_fuel(binary, 1);
        reveal_with_fuel(unary, 1);
        match level {
            Level::Or => self.binary(Level::And),
            Level::And => self.binary(Level::Equality),
            Level::Equality => self.binary(Level::Comparison),
            Level::Comparison => self.binary(Level::Sum),
            Level::Sum => self.binary(Level::Product),
            Level::Product => self.unary(),
        }
    }

    /// level := operand ( operator operand )*, grouping to the left
    #[verifier::spinoff_prover]
    fn binary(&mut self, level: Level) -> (r: Result<Expr, ErrorType>)
        ensures
            final(self).follows(old(self)),
            expr_result(r, final(self).tokens()),
            r is Ok ==> final(self).current_index > old(self).current_index,
            ({
                let g = binary(old(self).tokens(), old(self).position(), old(self).line(), level);
                final(self).took(old(self), g.consumed, g.line) && expr_is(r, g.value)
            }),
        decreases old(self).left(), rank(level), 1nat,
    {
        proof {
            use_type_invariant(&*self);
        }
        reveal_with_fuel(binary, 1);
        reveal_with_fuel(binary_rest, 1);
        reveal_with_fuel(operand, 1);
        let ghost t = self.tokens();
        let ghost goal = binary(t, self.current_index as int, self.current_line, level);
        let mut expr = self.operand(level)?;
        let mut going = true;
        while going
            invariant
                self.follows(old(self)),
                t == self.tokens(),
                goal == binary(t, old(self).current_index as int, old(self).current_line, level),
                expr_lines(expr@, self.tokens()),
                self.current_index > old(self).current_index,
                goal == after(
                    (self.current_index - old(self).current_index) as nat,
                    if going {
                        binary_rest(t, self.current_index as int, self.current_line, level, expr@)
                    } else {
                        read(expr@, 0, self.current_line)
                    },
                ),
            decreases self.left() + (if going { 1nat } else { 0nat }),
        {
            reveal_with_fuel(binary, 1);
            reveal_with_fuel(binary_rest, 1);
            reveal_with_fuel(operand, 1);
            match self.consume_operator(level) {
                Some(operator) => {
                    let right = self.operand(level)?;
                    expr = Expr {
                        line: self.current_line,
                        expr_type: ExprType::Binary { left: Box::new(expr), operator, right: Box::new(right) },
                    };
                },
                None => {
                    going = false;
                },
            }
        }
        Ok(expr)
    }

    /// unary := ( "!" | "-" ) unary | element
    #[verifier::spinoff_prover]
    fn unary(&mut self) -> (r: Result<Expr, ErrorType>)
        ensures
            final(self).follows(old(self)),
            expr_result(r, final(self).tokens()),
            r is Ok ==> final(self).current_index > old(self).current_index,
            ({
                let g = unary(old(self).tokens(), old(self).position(), old(self).line());
                final(self).took(old(self), g.consumed, g.line) && expr_is(r, g.value)
            }),
        decreases old(self).left(), 4nat,
    {
        proof {
            use_type_invariant(&*self);
        }
        reveal_with_fuel(unary, 1);
        reveal_with_fuel(element, 1);
        let operator = match self.consume(TokenType::Bang) {
            Some(token) => Some(token),
            None => self.consume(TokenType::Minus),
        };
        match operator {
            Some(operator) => {
                let right = self.unary()?;
                Ok(Expr { line: self.current_line, expr_type: ExprType::Unary { operator, right: Box::new(right) } })
            },
            None => self.element(),
        }
    }

    /// element := call ( "[" expression "]" )*
    #[verifier::spinoff_prover]
    fn element(&mut self) -> (r: Result<Expr, ErrorType>)
        ensures
            final(self).follows(old(self)),
            expr_result(r, final(self).tokens()),
            r is Ok ==> final(self).current_index > old(self).current_index,
            ({
                let g = element(old(self).tokens(), old(self).position(), old(self).line());
                final(self).took(old(self), g.consumed, g.line) && expr_is(r, g.value)
            }),
        decreases old(self).left(), 3nat,
    {
        proof {
            use_type_invariant(&*self);
        }
        reveal_with_fuel(element, 1);
        reveal_with_fuel(element_rest, 1);
        reveal_with_fuel(call, 1);
        reveal_with_fuel(expression, 1);
        let ghost t = self.tokens();
        let ghost goal = element(t, self.current_index as int, self.current_line);
        let mut expr = self.call()?;
        let mut going = true;
        while going
            invariant
                self.follows(old(self)),
                t == self.tokens(),
                goal == element(t, old(self).current_index as int, old(self).current_line),
                expr_lines(expr@, self.tokens()),
                self.current_index > old(self).current_index,
                goal == after(
                    (self.current_index - old(self).current_index) as nat,
                    if going {
                        element_rest(t, self.current_index as int, self.current_line, expr@)
                    } else {
                        read(expr@, 0, self.current_line)
                    },
                ),
            decreases self.left() + (if going { 1nat } else { 0nat }),
        {
            reveal_with_fuel(element, 1);
            reveal_with_fuel(element_rest, 1);
            reveal_with_fuel(call, 1);
            reveal_with_fuel(expression, 1);
            if self.consume(TokenType::LeftSquare).is_some() {
                let index = self.expression()?;
                expr = Expr {
                    line: self.current_line,
                    expr_type: ExprType::Element { array: Box::new(expr), index: Box::new(index) },
                };
                self.expect(TokenType::RightSquare, ']')?;
            } else {
                going = false;
            }
        }
        Ok(expr)
    }

    /// expression ( "," expression )*, up to a token of kind `close`, which is not taken
    #[verifier::spinoff_prover]
    fn expressions(&mut self, close: TokenType) -> (r: Result<Vec<Expr>, ErrorType>)
        ensures
            final(self).follows(old(self)),
            match r {
                Ok(list) => forall|i: int|
                    0 <= i < list@.len() ==> expr_lines(#[trigger] list@[i]@, final(self).tokens()),
                Err(e) => syntax_error(e@, final(self).tokens()),
            },
            ({
                let g = expressions(old(self).tokens(), old(self).position(), old(self).line(), close);
                final(self).took(old(self), g.consumed, g.line) && exprs_are(r, g.value)
            }),
        decreases old(self).left(), 13nat,
    {
        proof {
            use_type_invariant(&*self);
        }
        reveal_with_fuel(expressions, 1);
        reveal_with_fuel(expressions_rest, 1);
        reveal_with_fuel(expression, 1);
        let ghost t = self.tokens();
        let ghost goal = expressions(t, self.current_index as int, self.current_line, close);
        let mut list: Vec<Expr> = Vec::new();
        assert(exprs_view(list@) =~= Seq::<ExprView>::empty());
        if !self.check(close) {
            let mut going = true;
            while going
                invariant
                    self.follows(old(self)),
                    t == self.tokens(),
                    goal == expressions(t, old(self).current_index as int, old(self).current_line, close),
                    forall|i: int| 0 <= i < list@.len() ==> expr_lines(#[trigger] list@[i]@, self.tokens()),
                    going || self.current_index > old(self).current_index,
                    goal == after(
                        (self.current_index - old(self).current_index) as nat,
                        if going {
                            expressions_rest(t, self.current_index as int, self.current_line, exprs_view(list@))
                        } else {
                            read(exprs_view(list@), 0, self.current_line)
                        },
                    ),
                decreases self.left() + (if going { 1nat } else { 0nat }),
            {
                reveal_with_fuel(expressions, 1);
                reveal_with_fuel(expressions_rest, 1);
                reveal_with_fuel(expression, 1);
                let ghost before = exprs_view(list@);
                let next = self.expression()?;
                let ghost added = next@;
                list.push(next);
                assert(exprs_view(list@) =~= before.push(added));
                if self.consume(TokenType::Comma).is_none() {
                    going = false;
                }
            }
        }
        Ok(list)
    }

    /// call := primary ( "(" ( expression ( "," expression )* )? ")" )*
    #[verifier::spinoff_prover]
    fn call(&mut self) -> (r: Result<Expr, ErrorType>)
        ensures
            final(self).follows(old(self)),
            expr_result(r, final(self).tokens()),
            r is Ok ==> final(self).current_index > old(self).current_index,
            ({
                let g = call(old(self).tokens(), old(self).position(), old(self).line());
                final(self).took(old(self), g.consumed, g.line) && expr_is(r, g.value)
            }),
        decreases old(self).left(), 2nat,
    {
        proof {
            use_type_invariant(&*self);
        }
        reveal_with_fuel(call, 1);
        reveal_with_fuel(call_rest, 1);
        reveal_with_fuel(primary, 1);
        reveal_with_fuel(expressions, 1);
        let ghost t = self.tokens();
        let ghost goal = call(t, self.current_index as int, self.current_line);
        let mut expr = self.primary()?;
        let mut going = true;
        while going
            invariant
                self.follows(old(self)),
                t == self.tokens(),
                goal == call(t, old(self).current_index as int, old(self).current_line),
                expr_lines(expr@, self.tokens()),
                self.current_index > old(self).current_index,
                goal == after(
                    (self.current_index - old(self).current_index) as nat,
                    if going {
                        call_rest(t, self.current_index as int, self.current_line, expr@)
                    } else {
                        read(expr@, 0, self.current_line)
                    },
                ),
            decreases self.left() + (if going { 1nat } else { 0nat }),
        {
            reveal_with_fuel(call, 1);
            reveal_with_fuel(call_rest, 1);
            reveal_with_fuel(primary, 1);
            reveal_with_fuel(expressions, 1);
            if self.consume(TokenType::LeftParen).is_some() {
                let arguments = self.expressions(TokenType::RightParen)?;
                self.expect(TokenType::RightParen, ')')?;
                proof {
                    assert forall|i: int| 0 <= i < arguments@.len() implies expr_lines(
                        #[trigger] exprs_view(arguments@)[i],
                        self.tokens(),
                    ) by {
                        assert(expr_lines(arguments@[i]@, self.tokens()));
                    }
                    lemma_call_lines(expr@, exprs_view(arguments@), self.current_line, self.tokens());
                }
                expr = Expr {
                    line: self.current_line,
                    expr_type: ExprType::Call { callee: Box::new(expr), arguments },
                }
            } else {
                going = false;
            }
        }
        Ok(expr)
    }

    /// "(" has been taken: an expression, and ")"
    #[verifier::spinoff_prover]
    fn grouping(&mut self) -> (r: Result<Expr, ErrorType>)
        ensures
            final(self).follows(old(self)),
            expr_result(r, final(self).tokens()),
            ({
                let g = grouping(old(self).tokens(), old(self).position(), old(self).line());
                final(self).took(old(self), g.consumed, g.line) && expr_is(r, g.value)
            }),
        decreases old(self).left(), 14nat,
    {
        proof {
            use_type_invariant(&*self);
        }
        reveal_with_fuel(grouping, 1);
        reveal_with_fuel(expression, 1);
        let expr = self.expression()?;
        self.expect(TokenType::RightParen, ')')?;
        Ok(Expr { line: self.current_line, expr_type: ExprType::Grouping { expression: Box::new(expr) } })
    }

    /// "[" has been taken: the elements of an array, and "]"
    #[verifier::spinoff_prover]
    fn array(&mut self) -> (r: Result<Expr, ErrorType>)
        ensures
            final(self).follows(old(self)),
            expr_result(r, final(self).tokens()),
            ({
                let g = array(old(self).tokens(), old(self).position(), old(self).line());
                final(self).took(old(self), g.consumed, g.line) && expr_is(r, g.value)
            }),
        decreases old(self).left(), 14nat,
    {
        proof {
            use_type_invariant(&*self);
        }
        reveal_with_fuel(array, 1);
        reveal_with_fuel(expressions, 1);
        let elements = self.expressions(TokenType::RightSquare)?;
        self.expect(TokenType::RightSquare, ']')?;
        proof {
            assert forall|i: int| 0 <= i < elements@.len() implies expr_lines(
                #[trigger] exprs_view(elements@)[i],
                self.tokens(),
            ) by {
                assert(expr_lines(elements@[i]@, self.tokens()));
            }
            lemma_array_lines(exprs_view(elements@), self.current_line, self.tokens());
        }
        Ok(Expr { line: self.current_line, expr_type: ExprType::Array { elements } })
    }

    /// "{" has been taken: the pairs of a dictionary, and "}"
    #[verifier::spinoff_prover]
    fn dictionary(&mut self) -> (r: Result<Expr, ErrorType>)
        ensures
            final(self).follows(old(self)),
            expr_result(r, final(self).tokens()),
            r is Ok ==> final(self).current_index > old(self).current_index,
            ({
                let g = dictionary(old(self).tokens(), old(self).position(), old(self).line());
                final(self).took(old(self), g.consumed, g.line) && expr_is(r, g.value)
            }),
        decreases old(self).left(), 14nat,
    {
        proof {
            use_type_invariant(&*self);
        }
        reveal_with_fuel(dictionary, 1);
        reveal_with_fuel(entries_rest, 1);
        reveal_with_fuel(expression, 1);
        let ghost t = self.tokens();
        let ghost inner = if is_at(t, self.current_index as int, TokenType::RightCurly) {
            read(Seq::<(ExprView, ExprView)>::empty(), 0, self.current_line)
        } else {
            entries_rest(t, self.current_index as int, self.current_line, Seq::empty())
        };
        let mut elements: Vec<KeyValue<Expr>> = Vec::new();
        assert(pairs_view(elements@) =~= Seq::<(ExprView, ExprView)>::empty());
        if !self.check(TokenType::RightCurly) {
            let mut going = true;
            while going
                invariant
                    self.follows(old(self)),
                    t == self.tokens(),
                    inner == entries_rest(
                        t,
                        old(self).current_index as int,
                        old(self).current_line,
                        Seq::empty(),
                    ),
                    !is_at(t, old(self).current_index as int, TokenType::RightCurly),
                    forall|i: int|
                        0 <= i < elements@.len() ==> expr_lines((#[trigger] elements@[i]).key@, self.tokens())
                            && expr_lines(elements@[i].value@, self.tokens()),
                    inner == after(
                        (self.current_index - old(self).current_index) as nat,
                        if going {
                            entries_rest(t, self.current_index as int, self.current_line, pairs_view(elements@))
                        } else {
                            read(pairs_view(elements@), 0, self.current_line)
                        },
                    ),
                decreases self.left() + (if going { 1nat } else { 0nat }),
            {
                reveal_with_fuel(dictionary, 1);
                reveal_with_fuel(entries_rest, 1);
                reveal_with_fuel(expression, 1);
                let ghost before = pairs_view(elements@);
                let key = self.expression()?;
                if self.consume(TokenType::Colon).is_none() {
                    return Err(ErrorType::ExpectedColonAfterKey { line: self.current_line });
                }
                let value = self.expression()?;
                let ghost pair = (key@, value@);
                elements.push(KeyValue { key, value });
                assert(pairs_view(elements@) =~= before.push(pair));
                if self.consume(TokenType::Comma).is_none() {
                    going = false;
                }
            }
        }
        self.expect(TokenType::RightCurly, '}')?;
        proof {
            assert forall|i: int| 0 <= i < elements@.len() implies expr_lines(
                (#[trigger] pairs_view(elements@)[i]).0,
                self.tokens(),
            ) && expr_lines(pairs_view(elements@)[i].1, self.tokens()) by {
                assert(expr_lines(elements@[i].key@, self.tokens()));
            }
            lemma_dictionary_lines(pairs_view(elements@), self.current_line, self.tokens());
        }
        Ok(Expr { line: self.current_line, expr_type: ExprType::Dictionary { elements } })
    }

    /// primary := LITERAL | "(" expression ")" | "[" ( expression ( "," expression )* )? "]"
    ///          | "{" ( expression ":" expression ( "," expression ":" expression )* )? "}" | IDENT
    #[verifier::spinoff_prover]
    fn primary(&mut self) -> (r: Result<Expr, ErrorType>)
        ensures
            final(self).follows(old(self)),
            expr_result(r, final(self).tokens()),
            r is Ok ==> final(self).current_index > old(self).current_index,
            ({
                let g = primary(old(self).tokens(), old(self).position(), old(self).line());
                final(self).took(old(self), g.consumed, g.line) && expr_is(r, g.value)
            }),
        decreases old(self).left(), 1nat,
    {
        proof {
            use_type_invariant(&*self);
        }
        reveal_with_fuel(primary, 1);
        reveal_with_fuel(grouping, 1);
        reveal_with_fuel(array, 1);
        reveal_with_fuel(dictionary, 1);
        if let Some(token) = self.consume_literal() {
            Ok(Expr { line: self.current_line, expr_type: ExprType::Literal { value: token.literal } })
        } else if self.consume(TokenType::LeftParen).is_some() {
            self.grouping()
        } else if self.consume(TokenType::LeftSquare).is_some() {
            self.array()
        } else if self.consume(TokenType::LeftCurly).is_some() {
            self.dictionary()
        } else if let Some(identifier) = self.consume(TokenType::Identifier) {
            Ok(Expr { line: self.current_line, expr_type: ExprType::Variable { name: identifier.lexeme } })
        } else {
            Err(ErrorType::ExpectedExpression { line: self.current_line })
        }
    }
}

impl Parser {
    /// Makes the block of `body` on the current line.
    fn make_block(&self, body: Vec<Stmt>) -> (r: Stmt)
        requires
            forall|i: int| 0 <= i < body@.len() ==> stmt_lines(#[trigger] body@[i]@, self.tokens()),
        ensures
            stmt_lines(r@, self.tokens()),
            r@ == (StmtView { line: self.current_line, stmt_type: StmtTypeView::Block { body: stmts_view(body@) } }),
    {
        proof {
            use_type_invariant(self);
        }
        proof {
            assert forall|i: int| 0 <= i < body@.len() implies stmt_lines(
                #[trigger] stmts_view(body@)[i],
                self.tokens(),
            ) by {
                assert(stmt_lines(body@[i]@, self.tokens()));
            }
            lemma_block_lines(stmts_view(body@), self.current_line, self.tokens());
        }
        Stmt { line: self.current_line, stmt_type: StmtType::Block { body } }
    }

    /// statement := "break" | "for" for | "func" function | "if" if | "print" print
    ///            | "return" return | "var" var | "while" while | expression
    #[verifier::spinoff_prover]
    fn statement(&mut self) -> (r: Result<Stmt, ErrorType>)
        ensures
            final(self).follows(old(self)),
            stmt_result(r, final(self).tokens()),
            r is Ok ==> final(self).current_index > old(self).current_index,
            old(self).next_kind() is Some && starts_statement(old(self).next_kind().unwrap())
                ==> final(self).current_index > old(self).current_index,
            ({
                let g = statement(old(self).tokens(), old(self).position(), old(self).line());
                final(self).took(old(self), g.consumed, g.line) && stmt_is(r, g.value)
            }),
        decreases old(self).left(), 20nat,
    {
        proof {
            use_type_invariant(&*self);
        }
        reveal_with_fuel(statement, 1);
        reveal_with_fuel(for_, 1);
        reveal_with_fuel(function, 1);
        reveal_with_fuel(if_, 1);
        reveal_with_fuel(expression, 1);
        reveal_with_fuel(var, 1);
        reveal_with_fuel(while_, 1);
        if self.consume(TokenType::Break).is_some() {
            Ok(Stmt { line: self.current_line, stmt_type: StmtType::Break })
        } else if self.consume(TokenType::For).is_some() {
            self.for_()
        } else if self.consume(TokenType::Func).is_some() {
            self.function()
        } else if self.consume(TokenType::If).is_some() {
            self.if_()
        } else if self.consume(TokenType::Print).is_some() {
            self.print()
        } else if self.consume(TokenType::Return).is_some() {
            self.return_()
        } else if self.consume(TokenType::Var).is_some() {
            self.var()
        } else if self.consume(TokenType::While).is_some() {
            self.while_()
        } else {
            let line = self.current_line;
            let expression = self.expression()?;
            Ok(Stmt { line, stmt_type: StmtType::Expression { expression } })
        }
    }

    /// block := "{" statement* "}"
    #[verifier::spinoff_prover]
    fn block(&mut self) -> (r: Result<Stmt, ErrorType>)
        ensures
            final(self).follows(old(self)),
            stmt_result(r, final(self).tokens()),
            r is Ok ==> final(self).current_index > old(self).current_index,
            ({
                let g = block(old(self).tokens(), old(self).position(), old(self).line());
                final(self).took(old(self), g.consumed, g.line) && stmt_is(r, g.value)
            }),
        decreases old(self).left(), 21nat,
    {
        proof {
            use_type_invariant(&*self);
        }
        reveal_with_fuel(block, 1);
        reveal_with_fuel(block_rest, 1);
        reveal_with_fuel(statement, 1);
        let ghost t = self.tokens();
        self.expect(TokenType::LeftCurly, '{')?;
        let ghost start = self.current_index as int;
        let ghost goal = block_rest(t, start, self.current_line, Seq::empty());
        let mut statements: Vec<Stmt> = Vec::new();
        assert(stmts_view(statements@) =~= Seq::<StmtView>::empty());
        while !(self.check(TokenType::RightCurly) || self.check(TokenType::Eof))
            invariant
                self.follows(old(self)),
                t == self.tokens(),
                start == old(self).current_index + 1,
                is_at(t, old(self).current_index as int, TokenType::LeftCurly),
                goal == block_rest(t, start, t[old(self).current_index as int].line, Seq::empty()),
                self.current_index >= start,
                forall|i: int| 0 <= i < statements@.len() ==> stmt_lines(#[trigger] statements@[i]@, self.tokens()),
                goal == after(
                    (self.current_index - start) as nat,
                    block_rest(t, self.current_index as int, self.current_line, stmts_view(statements@)),
                ),
            decreases self.left(),
        {
            reveal_with_fuel(block, 1);
            reveal_with_fuel(block_rest, 1);
            reveal_with_fuel(statement, 1);
            let ghost before = stmts_view(statements@);
            let next = self.statement()?;
            let ghost added = next@;
            statements.push(next);
            assert(stmts_view(statements@) =~= before.push(added));
        }
        self.expect(TokenType::RightCurly, '}')?;
        Ok(self.make_block(statements))
    }

    /// for := "(" statement? ";" expression? ";" statement? ")" block
    ///
    /// The loop becomes a `while`: the body is a block of the `for` body and the
    /// step, and the initialising statement, where there is one, stands before the
    /// `while` in a block around both. A condition left out is `true`.
    #[verifier::spinoff_prover]
    fn for_(&mut self) -> (r: Result<Stmt, ErrorType>)
        ensures
            final(self).follows(old(self)),
            stmt_result(r, final(self).tokens()),
            ({
                let g = for_(old(self).tokens(), old(self).position(), old(self).line());
                final(self).took(old(self), g.consumed, g.line) && stmt_is(r, g.value)
            }),
        decreases old(self).left(), 34nat,
    {
        proof {
            use_type_invariant(&*self);
        }
        reveal_with_fuel(for_, 1);
        reveal_with_fuel(for_condition, 1);
        reveal_with_fuel(statement, 1);
        self.expect(TokenType::LeftParen, '(')?;
        let mut initialiser: Option<Stmt> = None;
        if !self.check(TokenType::Semicolon) {
            initialiser = Some(self.statement()?);
        }
        self.for_condition(initialiser)
    }

    /// The `for` loop from the semicolon after the initialising statement on.
    #[verifier::spinoff_prover]
    fn for_condition(&mut self, initialiser: Option<Stmt>) -> (r: Result<Stmt, ErrorType>)
        requires
            initialiser matches Some(s) ==> stmt_lines(s@, old(self).tokens()),
        ensures
            final(self).follows(old(self)),
            stmt_result(r, final(self).tokens()),
            ({
                let g = for_condition(
                    old(self).tokens(),
                    old(self).position(),
                    old(self).line(),
                    match initialiser {
                        Some(s) => Some(s@),
                        None => None,
                    },
                );
                final(self).took(old(self), g.consumed, g.line) && stmt_is(r, g.value)
            }),
        decreases old(self).left(), 33nat,
    {
        proof {
            use_type_invariant(&*self);
        }
        reveal_with_fuel(for_condition, 1);
        reveal_with_fuel(for_increment, 1);
        reveal_with_fuel(expression, 1);
        if self.consume(TokenType::Semicolon).is_none() {
            return Err(ErrorType::ExpectedSemicolonAfterInit { line: self.current_line });
        }
        let mut condition = Expr {
            line: self.current_line,
            expr_type: ExprType::Literal { value: Literal::Bool(true) },
        };
        if !self.check(TokenType::Semicolon) {
            condition = self.expression()?;
        }
        self.for_increment(initialiser, condition)
    }

    /// The `for` loop from the semicolon after the condition on.
    #[verifier::spinoff_prover]
    fn for_increment(&mut self, initialiser: Option<Stmt>, condition: Expr) -> (r: Result<Stmt, ErrorType>)
        requires
            initialiser matches Some(s) ==> stmt_lines(s@, old(self).tokens()),
            expr_lines(condition@, old(self).tokens()),
        ensures
            final(self).follows(old(self)),
            stmt_result(r, final(self).tokens()),
            ({
                let g = for_increment(
                    old(self).tokens(),
                    old(self).position(),
                    old(self).line(),
                    match initialiser {
                        Some(s) => Some(s@),
                        None => None,
                    },
                    condition@,
                );
                final(self).took(old(self), g.consumed, g.line) && stmt_is(r, g.value)
            }),
        decreases old(self).left(), 32nat,
    {
        proof {
            use_type_invariant(&*self);
        }
        reveal_with_fuel(for_increment, 1);
        reveal_with_fuel(for_body, 1);
        reveal_with_fuel(statement, 1);
        if self.consume(TokenType::Semicolon).is_none() {
            return Err(ErrorType::ExpectedSemicolonAfterCondition { line: self.current_line });
        }
        let mut increment: Option<Stmt> = None;
        if !self.check(TokenType::RightParen) {
            increment = Some(self.statement()?);
        }
        self.for_body(initialiser, condition, increment)
    }

    /// The `for` loop from the closing parenthesis on.
    #[verifier::spinoff_prover]
    fn for_body(&mut self, initialiser: Option<Stmt>, condition: Expr, increment: Option<Stmt>) -> (r: Result<
        Stmt,
        ErrorType,
    >)
        requires
            initialiser matches Some(s) ==> stmt_lines(s@, old(self).tokens()),
            increment matches Some(s) ==> stmt_lines(s@, old(self).tokens()),
            expr_lines(condition@, old(self).tokens()),
        ensures
            final(self).follows(old(self)),
            stmt_result(r, final(self).tokens()),
            ({
                let g = for_body(
                    old(self).tokens(),
                    old(self).position(),
                    old(self).line(),
                    match initialiser {
                        Some(s) => Some(s@),
                        None => None,
                    },
                    condition@,
                    match increment {
                        Some(s) => Some(s@),
                        None => None,
                    },
                );
                final(self).took(old(self), g.consumed, g.line) && stmt_is(r, g.value)
            }),
        decreases old(self).left(), 31nat,
    {
        proof {
            use_type_invariant(&*self);
        }
        reveal_with_fuel(for_body, 1);
        reveal_with_fuel(block, 1);
        if self.consume(TokenType::RightParen).is_none() {
            return Err(ErrorType::ExpectedParenAfterIncrement { line: self.current_line });
        }
        let for_body = self.block()?;
        let ghost body_view = for_body@;
        let ghost step_view = if increment is Some {
            Some(increment->Some_0@)
        } else {
            None
        };
        let ghost first_view = if initialiser is Some {
            Some(initialiser->Some_0@)
        } else {
            None
        };
        let mut while_body_vec: Vec<Stmt> = Vec::new();
        while_body_vec.push(for_body);
        if let Some(inc) = increment {
            while_body_vec.push(inc);
        }
        assert(stmts_view(while_body_vec@) =~= match step_view {
            Some(s) => seq![body_view, s],
            None => seq![body_view],
        });
        let while_body = self.make_block(while_body_vec);
        let while_loop = Stmt {
            line: self.current_line,
            stmt_type: StmtType::While { condition, body: Box::new(while_body) },
        };
        if let Some(init) = initialiser {
            let ghost loop_view = while_loop@;
            let mut both: Vec<Stmt> = Vec::new();
            both.push(init);
            both.push(while_loop);
            assert(stmts_view(both@) =~= seq![first_view.unwrap(), loop_view]);
            Ok(self.make_block(both))
        } else {
            Ok(while_loop)
        }
    }

    /// function := IDENT "(" ( IDENT ( "," IDENT )* )? ")" block
    #[verifier::spinoff_prover]
    fn function(&mut self) -> (r: Result<Stmt, ErrorType>)
        ensures
            final(self).follows(old(self)),
            stmt_result(r, final(self).tokens()),
            ({
                let g = function(old(self).tokens(), old(self).position(), old(self).line());
                final(self).took(old(self), g.consumed, g.line) && stmt_is(r, g.value)
            }),
        decreases old(self).left(), 30nat,
    {
        proof {
            use_type_invariant(&*self);
        }
        reveal_with_fuel(function, 1);
        reveal_with_fuel(parameters_rest, 1);
        reveal_with_fuel(block, 1);
        let ghost t = self.tokens();
        if let Some(function_name_token) = self.consume(TokenType::Identifier) {
            self.expect(TokenType::LeftParen, '(')?;
            let ghost start = self.current_index as int;
            let ghost goal = if is_at(t, start, TokenType::RightParen) {
                read(Seq::<Seq<char>>::empty(), 0, self.current_line)
            } else {
                parameters_rest(t, start, self.current_line, Seq::empty())
            };
            let mut parameters: Vec<String> = Vec::new();
            assert(names_view(parameters@) =~= Seq::<Seq<char>>::empty());
            if !self.check(TokenType::RightParen) {
                let mut going = true;
                while going
                    invariant
                        self.follows(old(self)),
                        t == self.tokens(),
                        start == old(self).current_index + 2,
                        self.current_index >= start,
                        is_at(t, old(self).current_index as int, TokenType::Identifier),
                        is_at(t, old(self).current_index + 1, TokenType::LeftParen),
                        !is_at(t, start, TokenType::RightParen),
                        goal == parameters_rest(t, start, t[old(self).current_index + 1].line, Seq::empty()),
                        goal == after(
                            (self.current_index - start) as nat,
                            if going {
                                parameters_rest(
                                    t,
                                    self.current_index as int,
                                    self.current_line,
                                    names_view(parameters@),
                                )
                            } else {
                                read(names_view(parameters@), 0, self.current_line)
                            },
                        ),
                    decreases self.left() + (if going { 1nat } else { 0nat }),
                {
                    reveal_with_fuel(function, 1);
                    reveal_with_fuel(parameters_rest, 1);
                    reveal_with_fuel(block, 1);
                    let ghost before = names_view(parameters@);
                    if let Some(parameter) = self.consume(TokenType::Identifier) {
                        let ghost name = parameter.lexeme@;
                        parameters.push(parameter.lexeme);
                        assert(names_view(parameters@) =~= before.push(name));
                    } else {
                        return Err(ErrorType::ExpectedParameterName { line: self.current_line });
                    }
                    if self.consume(TokenType::Comma).is_none() {
                        going = false;
                    }
                }
            }
            self.expect(TokenType::RightParen, ')')?;
            let body = self.block()?;
            Ok(
                Stmt {
                    line: self.current_line,
                    stmt_type: StmtType::Function { name: function_name_token.lexeme, parameters, body: Box::new(body) },
                },
            )
        } else {
            Err(ErrorType::ExpectedFunctionName { line: self.current_line })
        }
    }

    /// "(" expression ")" block, as `if` and `while` have them
    #[verifier::spinoff_prover]
    fn guarded(&mut self) -> (r: Result<(Expr, Stmt), ErrorType>)
        ensures
            final(self).follows(old(self)),
            match r {
                Ok(pair) => expr_lines(pair.0@, final(self).tokens()) && stmt_lines(pair.1@, final(self).tokens()),
                Err(e) => syntax_error(e@, final(self).tokens()),
            },
            r is Ok ==> final(self).current_index > old(self).current_index,
            ({
                let g = guarded(old(self).tokens(), old(self).position(), old(self).line());
                &&& final(self).took(old(self), g.consumed, g.line)
                &&& match r {
                    Ok(pair) => g.value == Ok::<(ExprView, StmtView), ErrorView>((pair.0@, pair.1@)),
                    Err(e) => g.value == Err::<(ExprView, StmtView), ErrorView>(e@),
                }
            }),
        decreases old(self).left(), 29nat,
    {
        proof {
            use_type_invariant(&*self);
        }
        reveal_with_fuel(guarded, 1);
        reveal_with_fuel(expression, 1);
        reveal_with_fuel(block, 1);
        self.expect(TokenType::LeftParen, '(')?;
        let condition = self.expression()?;
        self.expect(TokenType::RightParen, ')')?;
        let body = self.block()?;
        Ok((condition, body))
    }

    /// if := "(" expression ")" block ( "else" else )?
    #[verifier::spinoff_prover]
    fn if_(&mut self) -> (r: Result<Stmt, ErrorType>)
        ensures
            final(self).follows(old(self)),
            stmt_result(r, final(self).tokens()),
            r is Ok ==> final(self).current_index > old(self).current_index,
            ({
                let g = if_(old(self).tokens(), old(self).position(), old(self).line());
                final(self).took(old(self), g.consumed, g.line) && stmt_is(r, g.value)
            }),
        decreases old(self).left(), 30nat,
    {
        proof {
            use_type_invariant(&*self);
        }
        reveal_with_fuel(if_, 1);
        reveal_with_fuel(guarded, 1);
        reveal_with_fuel(block, 1);
        let head = self.guarded()?;
        let condition = head.0;
        let then_body = head.1;
        if self.consume(TokenType::Else).is_some() {
            let else_body = self.else_()?;
            Ok(
                Stmt {
                    line: self.current_line,
                    stmt_type: StmtType::If {
                        condition,
                        then_body: Box::new(then_body),
                        else_body: Some(Box::new(else_body)),
                    },
                },
            )
        } else {
            Ok(
                Stmt {
                    line: self.current_line,
                    stmt_type: StmtType::If { condition, then_body: Box::new(then_body), else_body: None },
                },
            )
        }
    }

    /// else := "if" if | block
    #[verifier::spinoff_prover]
    fn else_(&mut self) -> (r: Result<Stmt, ErrorType>)
        ensures
            final(self).follows(old(self)),
            stmt_result(r, final(self).tokens()),
            r is Ok ==> final(self).current_index > old(self).current_index,
            ({
                let t = old(self).tokens();
                let p = old(self).position();
                let g = if is_at(t, p, TokenType::If) {
                    after(1, if_(t, p + 1, t[p].line))
                } else {
                    block(t, p, old(self).line())
                };
                final(self).took(old(self), g.consumed, g.line) && stmt_is(r, g.value)
            }),
        decreases old(self).left(), 22nat,
    {
        proof {
            use_type_invariant(&*self);
        }
        reveal_with_fuel(if_, 1);
        reveal_with_fuel(block, 1);
        if self.consume(TokenType::If).is_some() {
            self.if_()
        } else {
            self.block()
        }
    }

    /// print := expression
    #[verifier::spinoff_prover]
    fn print(&mut self) -> (r: Result<Stmt, ErrorType>)
        ensures
            final(self).follows(old(self)),
            stmt_result(r, final(self).tokens()),
            ({
                let l = old(self).line();
                let g = with_expression(
                    expression(old(self).tokens(), old(self).position(), l),
                    |e: ExprView| StmtView { line: l, stmt_type: StmtTypeView::Print { expression: e } },
                );
                final(self).took(old(self), g.consumed, g.line) && stmt_is(r, g.value)
            }),
        decreases old(self).left(), 30nat,
    {
        proof {
            use_type_invariant(&*self);
        }
        reveal_with_fuel(expression, 1);
        let line = self.current_line;
        let expression = self.expression()?;
        Ok(Stmt { line, stmt_type: StmtType::Print { expression } })
    }

    /// return := expression
    #[verifier::spinoff_prover]
    fn return_(&mut self) -> (r: Result<Stmt, ErrorType>)
        ensures
            final(self).follows(old(self)),
            stmt_result(r, final(self).tokens()),
            ({
                let l = old(self).line();
                let g = with_expression(
                    expression(old(self).tokens(), old(self).position(), l),
                    |e: ExprView| StmtView { line: l, stmt_type: StmtTypeView::Return { expression: e } },
                );
                final(self).took(old(self), g.consumed, g.line) && stmt_is(r, g.value)
            }),
        decreases old(self).left(), 30nat,
    {
        proof {
            use_type_invariant(&*self);
        }
        reveal_with_fuel(expression, 1);
        let line = self.current_line;
        let expression = self.expression()?;
        Ok(Stmt { line, stmt_type: StmtType::Return { expression } })
    }

    /// var := IDENT "=" expression
    #[verifier::spinoff_prover]
    fn var(&mut self) -> (r: Result<Stmt, ErrorType>)
        ensures
            final(self).follows(old(self)),
            stmt_result(r, final(self).tokens()),
            ({
                let g = var(old(self).tokens(), old(self).position(), old(self).line());
                final(self).took(old(self), g.consumed, g.line) && stmt_is(r, g.value)
            }),
        decreases old(self).left(), 30nat,
    {
        proof {
            use_type_invariant(&*self);
        }
        reveal_with_fuel(var, 1);
        reveal_with_fuel(expression, 1);
        if let Some(target_variable_token) = self.consume(TokenType::Identifier) {
            self.expect(TokenType::Equal, '=')?;
            let value = self.expression()?;
            Ok(
                Stmt {
                    line: self.current_line,
                    stmt_type: StmtType::VarDecl { name: target_variable_token.lexeme, value },
                },
            )
        } else {
            Err(ErrorType::ExpectedVariableName { line: self.current_line })
        }
    }

    /// while := "(" expression ")" block
    #[verifier::spinoff_prover]
    fn while_(&mut self) -> (r: Result<Stmt, ErrorType>)
        ensures
            final(self).follows(old(self)),
            stmt_result(r, final(self).tokens()),
            ({
                let g = while_(old(self).tokens(), old(self).position(), old(self).line());
                final(self).took(old(self), g.consumed, g.line) && stmt_is(r, g.value)
            }),
        decreases old(self).left(), 30nat,
    {
        proof {
            use_type_invariant(&*self);
        }
        reveal_with_fuel(while_, 1);
        reveal_with_fuel(guarded, 1);
        let head = self.guarded()?;
        Ok(Stmt { line: self.current_line, stmt_type: StmtType::While { condition: head.0, body: Box::new(head.1) } })
    }

    fn is_at_end(&self) -> (r: bool)
        ensures
            r == self.at_end(),
    {
        proof {
            use_type_invariant(self);
        }
        self.current_index >= self.tokens.len() || self.tokens[self.current_index].type_ == TokenType::Eof
    }

    fn resumes(kind: TokenType) -> (r: bool)
        ensures
            r == resumes_at(kind),
    {
        kind == TokenType::Eof || kind == TokenType::For || kind == TokenType::Func || kind == TokenType::If
            || kind == TokenType::Print || kind == TokenType::Return || kind == TokenType::Var || kind
            == TokenType::While
    }

    /// Skips tokens up to the next one at which a statement may start, or the end.
    #[verifier::spinoff_prover]
    fn sync(&mut self)
        ensures
            final(self).follows(old(self)),
            old(self).next_kind() is Some && !resumes_at(old(self).next_kind().unwrap())
                ==> final(self).current_index > old(self).current_index,
            (final(self).current_index as int, final(self).current_line) == resumed(
                old(self).tokens(),
                old(self).position(),
                old(self).line(),
            ),
    {
        proof {
            use_type_invariant(&*self);
        }
        reveal_with_fuel(resumed, 1);
        let ghost t = self.tokens();
        while self.current_index < self.tokens.len() && !Self::resumes(self.tokens[self.current_index].type_)
            invariant
                self.follows(old(self)),
                t == self.tokens(),
                self.current_index == old(self).current_index ==> self.next_kind() == old(self).next_kind(),
                resumed(t, self.current_index as int, self.current_line) == resumed(
                    t,
                    old(self).current_index as int,
                    old(self).current_line,
                ),
            decreases self.left(),
        {
            reveal_with_fuel(resumed, 1);
            self.current_index += 1;
            if self.current_index < self.tokens.len() {
                assert(self.tokens()[self.current_index as int].line == self.tokens@[self.current_index as int].line);
                self.current_line = self.tokens[self.current_index].line;
            }
        }
    }

    /// Parses all tokens up to the end token. Gives the statements, or, if any
    /// statement was refused, the diagnostics of all that were: after each the
    /// parser resumes at the next token that may start a statement.
    ///
    /// Every statement and expression carries the line 1 or the line of a token,
    /// and so does every diagnostic. The diagnostics are never empty.
    #[verifier::spinoff_prover]
    pub fn parse(&mut self) -> (r: Result<Vec<Stmt>, Vec<ErrorType>>)
        ensures
            final(self).ok(),
            final(self).tokens() == old(self).tokens(),
            final(self).at_end(),
            (final(self).position(), final(self).line()) == program_end(
                old(self).tokens(),
                old(self).position(),
                old(self).line(),
            ),
            match program(old(self).tokens(), old(self).position(), old(self).line(), Seq::empty(), Seq::empty()) {
                Ok(statements) => r matches Ok(found) && stmts_view(found@) == statements,
                Err(errors) => r matches Err(found) && errors_view(found@) == errors,
            },
            match r {
                Ok(statements) => forall|i: int|
                    0 <= i < statements@.len() ==> stmt_lines(#[trigger] statements@[i]@, old(self).tokens()),
                Err(errors) => errors@.len() > 0 && forall|i: int|
                    0 <= i < errors@.len() ==> syntax_error(#[trigger] errors@[i]@, old(self).tokens()),
            },
            old(self).at_end() ==> (r matches Ok(statements) && statements@.len() == 0),
    {
        proof {
            use_type_invariant(&*self);
        }
        reveal_with_fuel(program, 1);
        reveal_with_fuel(program_end, 1);
        reveal_with_fuel(statement, 1);
        reveal_with_fuel(resumed, 1);
        let ghost t = self.tokens();
        let ghost goal = program(t, self.current_index as int, self.current_line, Seq::empty(), Seq::empty());
        let mut statements: Vec<Stmt> = Vec::new();
        let mut errors: Vec<ErrorType> = Vec::new();
        assert(stmts_view(statements@) =~= Seq::<StmtView>::empty());
        assert(errors_view(errors@) =~= Seq::<ErrorView>::empty());
        while !self.is_at_end()
            invariant
                self.follows(old(self)),
                t == self.tokens(),
                goal == program(
                    t,
                    old(self).current_index as int,
                    old(self).current_line,
                    Seq::empty(),
                    Seq::empty(),
                ),
                forall|i: int|
                    0 <= i < statements@.len() ==> stmt_lines(#[trigger] statements@[i]@, self.tokens()),
                forall|i: int| 0 <= i < errors@.len() ==> syntax_error(#[trigger] errors@[i]@, self.tokens()),
                old(self).at_end() ==> statements@.len() == 0 && errors@.len() == 0 && self.current_index
                    == old(self).current_index,
                goal == program(
                    t,
                    self.current_index as int,
                    self.current_line,
                    stmts_view(statements@),
                    errors_view(errors@),
                ),
                program_end(t, self.current_index as int, self.current_line) == program_end(
                    t,
                    old(self).current_index as int,
                    old(self).current_line,
                ),
            decreases self.left(),
        {
            reveal_with_fuel(program, 1);
            reveal_with_fuel(program_end, 1);
            reveal_with_fuel(statement, 1);
            reveal_with_fuel(resumed, 1);
            let ghost kind = self.next_kind();
            let ghost index = self.current_index;
            let ghost read_so_far = stmts_view(statements@);
            let ghost refused_so_far = errors_view(errors@);
            match self.statement() {
                Ok(statement) => {
                    let ghost added = statement@;
                    statements.push(statement);
                    assert(stmts_view(statements@) =~= read_so_far.push(added));
                },
                Err(error) => {
                    let ghost added = error@;
                    errors.push(error);
                    assert(errors_view(errors@) =~= refused_so_far.push(added));
                    assert(self.current_index == index ==> self.next_kind() == kind);
                    self.sync();
                },
            }
        }
        if errors.len() == 0 {
            Ok(statements)
        } else {
            Err(errors)
        }
    }
}

} // verus!
