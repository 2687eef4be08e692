//! The grammar of the language, as functions on token sequences.
//!
//! Each function says what the parser makes of the tokens from a position on:
//! the expression or statement that is read or the diagnostic that stops the
//! reading, how many tokens are taken, and the line of the token taken last.
//!
//! A statement that is read takes at least one token. The definitions of what
//! repeats statements ask whether one did: they need it to come to an end.
//!
//! ```text
//! statement  := "break" | "for" for | "func" function | "if" if | "print" expression
//!            |  "return" expression | "var" var | "while" while | expression
//! for        := "(" statement? ";" expression? ";" statement? ")" block
//! function   := IDENT "(" ( IDENT ( "," IDENT )* )? ")" block
//! if         := "(" expression ")" block ( "else" ( "if" if | block ) )?
//! var        := IDENT "=" expression
//! while      := "(" expression ")" block
//! block      := "{" statement* "}"
//! expression := assignment
//! assignment := or ( "=" assignment )?
//! or         := and ( "or" and )*
//! and        := equality ( "and" equality )*
//! equality   := comparison ( ( "==" | "!=" ) comparison )*
//! comparison := sum ( ( ">" | "<" | ">=" | "<=" ) sum )*
//! sum        := product ( ( "+" | "-" ) product )*
//! product    := unary ( ( "*" | "/" | "%" ) unary )*
//! unary      := ( "!" | "-" ) unary | element
//! element    := call ( "[" expression "]" )*
//! call       := primary ( "(" ( expression ( "," expression )* )? ")" )*
//! primary    := LITERAL | "(" expression ")" | "[" ( expression ( "," expression )* )? "]"
//!            |  "{" ( expression ":" expression ( "," expression ":" expression )* )? "}" | IDENT
//! ```

use vstd::prelude::*;
use crate::error::ErrorView;
use crate::expr::{ExprTypeView, ExprView};
use crate::stmt::{StmtTypeView, StmtView};
use crate::token::{LiteralView, TokenType, TokenView};

verus! {

/// What is read from a position on: the thing read or the diagnostic, the number
/// of tokens taken, and the line of the token taken last (the line before, if
/// none is taken).
pub ghost struct Parsed<T> {
    pub value: Result<T, ErrorView>,
    pub consumed: nat,
    pub line: usize,
}

/// The levels of binary operators, from the loosest to the tightest.
#[derive(Clone, Copy, Debug, PartialEq, Eq, Structural)]
pub enum Level {
    Or,
    And,
    Equality,
    Comparison,
    Sum,
    Product,
}

/// Whether a token of kind `kind` is an operator of the level.
pub open spec fn operator_of(level: Level, kind: TokenType) -> bool {
    match level {
        Level::Or => kind == TokenType::Or,
        Level::And => kind == TokenType::And,
        Level::Equality => kind == TokenType::EqualEqual || kind == TokenType::BangEqual,
        Level::Comparison => kind == TokenType::Greater || kind == TokenType::Less || kind
            == TokenType::GreaterEqual || kind == TokenType::LessEqual,
        Level::Sum => kind == TokenType::Plus || kind == TokenType::Minus,
        Level::Product => kind == TokenType::Star || kind == TokenType::Slash || kind == TokenType::Percent,
    }
}

/// How tightly the operators of a level bind.
pub open spec fn rank(level: Level) -> nat {
    match level {
        Level::Or => 10,
        Level::And => 9,
        Level::Equality => 8,
        Level::Comparison => 7,
        Level::Sum => 6,
        Level::Product => 5,
    }
}

/// How many tokens stand at and after the position.
pub open spec fn rest(t: Seq<TokenView>, p: int) -> nat {
    if 0 <= p < t.len() {
        (t.len() - p) as nat
    } else {
        0
    }
}

/// Whether the token at the position is of the kind.
pub open spec fn is_at(t: Seq<TokenView>, p: int, kind: TokenType) -> bool {
    0 <= p < t.len() && t[p].type_ == kind
}

/// Whether a token of the kind is a literal.
pub open spec fn is_literal(kind: TokenType) -> bool {
    kind == TokenType::String_ || kind == TokenType::Number || kind == TokenType::True || kind
        == TokenType::False || kind == TokenType::Null
}

/// Whether the parser resumes at a token of this kind after an error.
pub open spec fn resumes_at(kind: TokenType) -> bool {
    kind == TokenType::Eof || kind == TokenType::For || kind == TokenType::Func || kind == TokenType::If
        || kind == TokenType::Print || kind == TokenType::Return || kind == TokenType::Var || kind
        == TokenType::While
}

/// Whether the tokens are used up at the position: the end token stands there, or none.
pub open spec fn ends_at(t: Seq<TokenView>, p: int) -> bool {
    !(0 <= p < t.len()) || t[p].type_ == TokenType::Eof
}

/// Something was read.
pub open spec fn read<T>(value: T, consumed: nat, line: usize) -> Parsed<T> {
    Parsed { value: Ok(value), consumed, line }
}

/// A diagnostic stops the reading.
pub open spec fn refused<T>(e: ErrorView, consumed: nat, line: usize) -> Parsed<T> {
    Parsed { value: Err(e), consumed, line }
}

/// What was read after `by` tokens had been taken before.
pub open spec fn after<T>(by: nat, parsed: Parsed<T>) -> Parsed<T> {
    Parsed { value: parsed.value, consumed: parsed.consumed + by, line: parsed.line }
}

/// The diagnostic in place of what was to be read.
pub open spec fn instead<T, U>(parsed: Parsed<T>) -> Parsed<U> {
    Parsed { value: Err(parsed.value->Err_0), consumed: parsed.consumed, line: parsed.line }
}

/// expression := assignment
#[verifier::opaque]
pub open spec fn expression(t: Seq<TokenView>, p: int, l: usize) -> Parsed<ExprView>
    decreases rest(t, p), 12nat, 0nat,
{
    assignment(t, p, l)
}

/// assignment := or ( "=" assignment )?
#[verifier::opaque]
pub open spec fn assignment(t: Seq<TokenView>, p: int, l: usize) -> Parsed<ExprView>
    decreases rest(t, p), 11nat, 0nat,
{
    let target = binary(t, p, l, Level::Or);
    let q = p + target.consumed;
    if target.value is Ok && p >= 0 && is_at(t, q, TokenType::Equal) {
        let value = assignment(t, q + 1, t[q].line);
        after(
            target.consumed + 1,
            match value.value {
                Ok(v) => read(
                    ExprView {
                        line: value.line,
                        expr_type: ExprTypeView::Assignment {
                            target: Box::new(target.value->Ok_0),
                            value: Box::new(v),
                        },
                    },
                    value.consumed,
                    value.line,
                ),
                Err(e) => value,
            },
        )
    } else {
        target
    }
}

/// An operand of a level: an expression of the next tighter level; for products,
/// a unary expression.
#[verifier::opaque]
pub open spec fn operand(t: Seq<TokenView>, p: int, l: usize, level: Level) -> Parsed<ExprView>
    decreases rest(t, p), rank(level), 0nat,
{
    match level {
        Level::Or => binary(t, p, l, Level::And),
        Level::And => binary(t, p, l, Level::Equality),
        Level::Equality => binary(t, p, l, Level::Comparison),
        Level::Comparison => binary(t, p, l, Level::Sum),
        Level::Sum => binary(t, p, l, Level::Product),
        Level::Product => unary(t, p, l),
    }
}

/// An expression of a level: operands with operators of the level between them,
/// grouped to the left.
#[verifier::opaque]
pub open spec fn binary(t: Seq<TokenView>, p: int, l: usize, level: Level) -> Parsed<ExprView>
    decreases rest(t, p), rank(level), 2nat,
{
    let first = operand(t, p, l, level);
    if first.value is Ok && p >= 0 {
        after(first.consumed, binary_rest(t, p + first.consumed, first.line, level, first.value->Ok_0))
    } else {
        first
    }
}

/// What follows the operand `left` of a level: more operators and operands.
#[verifier::opaque]
pub open spec fn binary_rest(t: Seq<TokenView>, p: int, l: usize, level: Level, left: ExprView) -> Parsed<ExprView>
    decreases rest(t, p), rank(level), 1nat,
{
    if 0 <= p < t.len() && operator_of(level, t[p].type_) {
        let right = operand(t, p + 1, t[p].line, level);
        after(
            1,
            match right.value {
                Ok(r) => after(
                    right.consumed,
                    binary_rest(
                        t,
                        p + 1 + right.consumed,
                        right.line,
                        level,
                        ExprView {
                            line: right.line,
                            expr_type: ExprTypeView::Binary {
                                left: Box::new(left),
                                operator: t[p],
                                right: Box::new(r),
                            },
                        },
                    ),
                ),
                Err(e) => right,
            },
        )
    } else {
        read(left, 0, l)
    }
}

/// unary := ( "!" | "-" ) unary | element
#[verifier::opaque]
pub open spec fn unary(t: Seq<TokenView>, p: int, l: usize) -> Parsed<ExprView>
    decreases rest(t, p), 4nat, 0nat,
{
    if is_at(t, p, TokenType::Bang) || is_at(t, p, TokenType::Minus) {
        let right = unary(t, p + 1, t[p].line);
        after(
            1,
            match right.value {
                Ok(r) => read(
                    ExprView {
                        line: right.line,
                        expr_type: ExprTypeView::Unary { operator: t[p], right: Box::new(r) },
                    },
                    right.consumed,
                    right.line,
                ),
                Err(e) => right,
            },
        )
    } else {
        element(t, p, l)
    }
}

/// element := call ( "[" expression "]" )*
#[verifier::opaque]
pub open spec fn element(t: Seq<TokenView>, p: int, l: usize) -> Parsed<ExprView>
    decreases rest(t, p), 3nat, 0nat,
{
    let base = call(t, p, l);
    if base.value is Ok && p >= 0 {
        after(base.consumed, element_rest(t, p + base.consumed, base.line, base.value->Ok_0))
    } else {
        base
    }
}

/// What follows the expression `array`: indices in square brackets.
#[verifier::opaque]
pub open spec fn element_rest(t: Seq<TokenView>, p: int, l: usize, array: ExprView) -> Parsed<ExprView>
    decreases rest(t, p), 0nat, 0nat,
{
    if is_at(t, p, TokenType::LeftSquare) {
        let index = expression(t, p + 1, t[p].line);
        let q = p + 1 + index.consumed;
        after(
            1,
            match index.value {
                Ok(i) => after(
                    index.consumed,
                    if is_at(t, q, TokenType::RightSquare) {
                        after(
                            1,
                            element_rest(
                                t,
                                q + 1,
                                t[q].line,
                                ExprView {
                                    line: index.line,
                                    expr_type: ExprTypeView::Element { array: Box::new(array), index: Box::new(i) },
                                },
                            ),
                        )
                    } else {
                        refused(ErrorView::ExpectedCharacter { expected: ']', line: index.line }, 0, index.line)
                    },
                ),
                Err(e) => index,
            },
        )
    } else {
        read(array, 0, l)
    }
}

/// call := primary ( "(" ( expression ( "," expression )* )? ")" )*
#[verifier::opaque]
pub open spec fn call(t: Seq<TokenView>, p: int, l: usize) -> Parsed<ExprView>
    decreases rest(t, p), 2nat, 0nat,
{
    let callee = primary(t, p, l);
    if callee.value is Ok && p >= 0 {
        after(callee.consumed, call_rest(t, p + callee.consumed, callee.line, callee.value->Ok_0))
    } else {
        callee
    }
}

/// What follows the expression `callee`: argument lists in parentheses.
#[verifier::opaque]
pub open spec fn call_rest(t: Seq<TokenView>, p: int, l: usize, callee: ExprView) -> Parsed<ExprView>
    decreases rest(t, p), 0nat, 0nat,
{
    if is_at(t, p, TokenType::LeftParen) {
        let arguments = expressions(t, p + 1, t[p].line, TokenType::RightParen);
        let q = p + 1 + arguments.consumed;
        after(
            1,
            match arguments.value {
                Ok(list) => after(
                    arguments.consumed,
                    if is_at(t, q, TokenType::RightParen) {
                        after(
                            1,
                            call_rest(
                                t,
                                q + 1,
                                t[q].line,
                                ExprView {
                                    line: t[q].line,
                                    expr_type: ExprTypeView::Call { callee: Box::new(callee), arguments: list },
                                },
                            ),
                        )
                    } else {
                        refused(
                            ErrorView::ExpectedCharacter { expected: ')', line: arguments.line },
                            0,
                            arguments.line,
                        )
                    },
                ),
                Err(e) => instead(arguments),
            },
        )
    } else {
        read(callee, 0, l)
    }
}

/// Expressions with commas between them, up to a token of kind `close`, which is
/// not taken; none if that token comes first.
#[verifier::opaque]
pub open spec fn expressions(t: Seq<TokenView>, p: int, l: usize, close: TokenType) -> Parsed<Seq<ExprView>>
    decreases rest(t, p), 13nat, 1nat,
{
    if is_at(t, p, close) {
        read(Seq::empty(), 0, l)
    } else {
        expressions_rest(t, p, l, Seq::empty())
    }
}

/// One more expression after those of `list`, and the ones that commas announce.
#[verifier::opaque]
pub open spec fn expressions_rest(t: Seq<TokenView>, p: int, l: usize, list: Seq<ExprView>) -> Parsed<Seq<ExprView>>
    decreases rest(t, p), 13nat, 0nat,
{
    let next = expression(t, p, l);
    let q = p + next.consumed;
    match next.value {
        Ok(e) => after(
            next.consumed,
            if p >= 0 && is_at(t, q, TokenType::Comma) {
                after(1, expressions_rest(t, q + 1, t[q].line, list.push(e)))
            } else {
                read(list.push(e), 0, next.line)
            },
        ),
        Err(e) => instead(next),
    }
}

/// One more pair `key : value` after those of `list`, and the ones that commas announce.
#[verifier::opaque]
pub open spec fn entries_rest(t: Seq<TokenView>, p: int, l: usize, list: Seq<(ExprView, ExprView)>) -> Parsed<
    Seq<(ExprView, ExprView)>,
>
    decreases rest(t, p), 13nat, 0nat,
{
    let key = expression(t, p, l);
    let q = p + key.consumed;
    match key.value {
        Ok(k) => after(
            key.consumed,
            if p >= 0 && is_at(t, q, TokenType::Colon) {
                let value = expression(t, q + 1, t[q].line);
                let r = q + 1 + value.consumed;
                after(
                    1,
                    match value.value {
                        Ok(v) => after(
                            value.consumed,
                            if is_at(t, r, TokenType::Comma) {
                                after(1, entries_rest(t, r + 1, t[r].line, list.push((k, v))))
                            } else {
                                read(list.push((k, v)), 0, value.line)
                            },
                        ),
                        Err(e) => instead(value),
                    },
                )
            } else {
                refused(ErrorView::ExpectedColonAfterKey { line: key.line }, 0, key.line)
            },
        ),
        Err(e) => instead(key),
    }
}

/// An expression in parentheses, after the opening one.
#[verifier::opaque]
pub open spec fn grouping(t: Seq<TokenView>, p: int, l: usize) -> Parsed<ExprView>
    decreases rest(t, p), 14nat, 0nat,
{
    let inner = expression(t, p, l);
    let q = p + inner.consumed;
    match inner.value {
        Ok(e) => after(
            inner.consumed,
            if is_at(t, q, TokenType::RightParen) {
                read(
                    ExprView { line: t[q].line, expr_type: ExprTypeView::Grouping { expression: Box::new(e) } },
                    1,
                    t[q].line,
                )
            } else {
                refused(ErrorView::ExpectedCharacter { expected: ')', line: inner.line }, 0, inner.line)
            },
        ),
        Err(_) => inner,
    }
}

/// An array literal, after the opening bracket.
#[verifier::opaque]
pub open spec fn array(t: Seq<TokenView>, p: int, l: usize) -> Parsed<ExprView>
    decreases rest(t, p), 14nat, 0nat,
{
    let inner = expressions(t, p, l, TokenType::RightSquare);
    let q = p + inner.consumed;
    match inner.value {
        Ok(elements) => after(
            inner.consumed,
            if is_at(t, q, TokenType::RightSquare) {
                read(ExprView { line: t[q].line, expr_type: ExprTypeView::Array { elements } }, 1, t[q].line)
            } else {
                refused(ErrorView::ExpectedCharacter { expected: ']', line: inner.line }, 0, inner.line)
            },
        ),
        Err(_) => instead(inner),
    }
}

/// A dictionary literal, after the opening bracket.
#[verifier::opaque]
pub open spec fn dictionary(t: Seq<TokenView>, p: int, l: usize) -> Parsed<ExprView>
    decreases rest(t, p), 14nat, 0nat,
{
    let inner = if is_at(t, p, TokenType::RightCurly) {
        read(Seq::empty(), 0, l)
    } else {
        entries_rest(t, p, l, Seq::empty())
    };
    let q = p + inner.consumed;
    match inner.value {
        Ok(elements) => after(
            inner.consumed,
            if is_at(t, q, TokenType::RightCurly) {
                read(ExprView { line: t[q].line, expr_type: ExprTypeView::Dictionary { elements } }, 1, t[q].line)
            } else {
                refused(ErrorView::ExpectedCharacter { expected: '}', line: inner.line }, 0, inner.line)
            },
        ),
        Err(_) => instead(inner),
    }
}

/// primary := LITERAL | "(" expression ")" | array | dictionary | IDENT
#[verifier::opaque]
pub open spec fn primary(t: Seq<TokenView>, p: int, l: usize) -> Parsed<ExprView>
    decreases rest(t, p), 1nat, 0nat,
{
    if 0 <= p < t.len() && is_literal(t[p].type_) {
        read(
            ExprView { line: t[p].line, expr_type: ExprTypeView::Literal { value: t[p].literal } },
            1,
            t[p].line,
        )
    } else if is_at(t, p, TokenType::LeftParen) {
        after(1, grouping(t, p + 1, t[p].line))
    } else if is_at(t, p, TokenType::LeftSquare) {
        after(1, array(t, p + 1, t[p].line))
    } else if is_at(t, p, TokenType::LeftCurly) {
        after(1, dictionary(t, p + 1, t[p].line))
    } else if is_at(t, p, TokenType::Identifier) {
        read(
            ExprView { line: t[p].line, expr_type: ExprTypeView::Variable { name: t[p].lexeme } },
            1,
            t[p].line,
        )
    } else {
        refused(ErrorView::ExpectedExpression { line: l }, 0, l)
    }
}

/// A statement made of a keyword, which has been taken, and an expression.
pub open spec fn with_expression(e: Parsed<ExprView>, make: spec_fn(ExprView) -> StmtView) -> Parsed<StmtView> {
    match e.value {
        Ok(x) => read(make(x), e.consumed, e.line),
        Err(_) => instead(e),
    }
}

/// statement := "break" | "for" for | "func" function | "if" if | "print" expression
///            | "return" expression | "var" var | "while" while | expression
#[verifier::opaque]
pub open spec fn statement(t: Seq<TokenView>, p: int, l: usize) -> Parsed<StmtView>
    decreases rest(t, p), 20nat, 0nat,
{
    if is_at(t, p, TokenType::Break) {
        read(StmtView { line: t[p].line, stmt_type: StmtTypeView::Break }, 1, t[p].line)
    } else if is_at(t, p, TokenType::For) {
        after(1, for_(t, p + 1, t[p].line))
    } else if is_at(t, p, TokenType::Func) {
        after(1, function(t, p + 1, t[p].line))
    } else if is_at(t, p, TokenType::If) {
        after(1, if_(t, p + 1, t[p].line))
    } else if is_at(t, p, TokenType::Print) {
        after(
            1,
            with_expression(
                expression(t, p + 1, t[p].line),
                |e: ExprView| StmtView { line: t[p].line, stmt_type: StmtTypeView::Print { expression: e } },
            ),
        )
    } else if is_at(t, p, TokenType::Return) {
        after(
            1,
            with_expression(
                expression(t, p + 1, t[p].line),
                |e: ExprView| StmtView { line: t[p].line, stmt_type: StmtTypeView::Return { expression: e } },
            ),
        )
    } else if is_at(t, p, TokenType::Var) {
        after(1, var(t, p + 1, t[p].line))
    } else if is_at(t, p, TokenType::While) {
        after(1, while_(t, p + 1, t[p].line))
    } else {
        with_expression(
            expression(t, p, l),
            |e: ExprView| StmtView { line: l, stmt_type: StmtTypeView::Expression { expression: e } },
        )
    }
}

/// A block in curly brackets: its statements become one `Block` statement.
#[verifier::opaque]
pub open spec fn block(t: Seq<TokenView>, p: int, l: usize) -> Parsed<StmtView>
    decreases rest(t, p), 22nat, 0nat,
{
    if is_at(t, p, TokenType::LeftCurly) {
        let body = block_rest(t, p + 1, t[p].line, Seq::empty());
        let q = p + 1 + body.consumed;
        after(
            1,
            match body.value {
                Ok(statements) => after(
                    body.consumed,
                    if is_at(t, q, TokenType::RightCurly) {
                        read(
                            StmtView { line: t[q].line, stmt_type: StmtTypeView::Block { body: statements } },
                            1,
                            t[q].line,
                        )
                    } else {
                        refused(ErrorView::ExpectedCharacter { expected: '}', line: body.line }, 0, body.line)
                    },
                ),
                Err(e) => instead(body),
            },
        )
    } else {
        refused(ErrorView::ExpectedCharacter { expected: '{', line: l }, 0, l)
    }
}

/// The statements of a block after those of `list`, up to the closing bracket or
/// the end token, which is not taken.
#[verifier::opaque]
pub open spec fn block_rest(t: Seq<TokenView>, p: int, l: usize, list: Seq<StmtView>) -> Parsed<Seq<StmtView>>
    decreases rest(t, p), 21nat, 0nat,
{
    if is_at(t, p, TokenType::RightCurly) || is_at(t, p, TokenType::Eof) {
        read(list, 0, l)
    } else {
        let next = statement(t, p, l);
        match next.value {
            Ok(s) => if next.consumed > 0 && 0 <= p < t.len() {
                after(next.consumed, block_rest(t, p + next.consumed, next.line, list.push(s)))
            } else {
                read(list.push(s), next.consumed, next.line)
            },
            Err(e) => instead(next),
        }
    }
}

/// The statement that a `for` loop stands for: a `while` loop whose body is a
/// block of the body of the `for` and the step; the initialising statement, where
/// there is one, stands before the `while` in a block around both. All of them
/// carry the line on which the `for` loop ends.
pub open spec fn as_while(
    initialiser: Option<StmtView>,
    condition: ExprView,
    increment: Option<StmtView>,
    body: StmtView,
    line: usize,
) -> StmtView {
    let inner = StmtView {
        line,
        stmt_type: StmtTypeView::Block {
            body: match increment {
                Some(step) => seq![body, step],
                None => seq![body],
            },
        },
    };
    let repeated = StmtView { line, stmt_type: StmtTypeView::While { condition, body: Box::new(inner) } };
    match initialiser {
        Some(first) => StmtView { line, stmt_type: StmtTypeView::Block { body: seq![first, repeated] } },
        None => repeated,
    }
}

/// The loop after `for`: `( statement? ; expression? ; statement? ) block`.
#[verifier::opaque]
pub open spec fn for_(t: Seq<TokenView>, p: int, l: usize) -> Parsed<StmtView>
    decreases rest(t, p), 34nat, 0nat,
{
    if is_at(t, p, TokenType::LeftParen) {
        if is_at(t, p + 1, TokenType::Semicolon) {
            after(1, for_condition(t, p + 1, t[p].line, None))
        } else {
            let first = statement(t, p + 1, t[p].line);
            after(
                1,
                match first.value {
                    Ok(s) => after(first.consumed, for_condition(t, p + 1 + first.consumed, first.line, Some(s))),
                    Err(e) => first,
                },
            )
        }
    } else {
        refused(ErrorView::ExpectedCharacter { expected: '(', line: l }, 0, l)
    }
}

/// A `for` loop from the semicolon after the initialising statement on.
#[verifier::opaque]
pub open spec fn for_condition(t: Seq<TokenView>, p: int, l: usize, initialiser: Option<StmtView>) -> Parsed<
    StmtView,
>
    decreases rest(t, p), 33nat, 0nat,
{
    if is_at(t, p, TokenType::Semicolon) {
        if is_at(t, p + 1, TokenType::Semicolon) {
            after(
                1,
                for_increment(
                    t,
                    p + 1,
                    t[p].line,
                    initialiser,
                    ExprView {
                        line: t[p].line,
                        expr_type: ExprTypeView::Literal { value: LiteralView::Bool(true) },
                    },
                ),
            )
        } else {
            let condition = expression(t, p + 1, t[p].line);
            after(
                1,
                match condition.value {
                    Ok(c) => after(
                        condition.consumed,
                        for_increment(t, p + 1 + condition.consumed, condition.line, initialiser, c),
                    ),
                    Err(e) => instead(condition),
                },
            )
        }
    } else {
        refused(ErrorView::ExpectedSemicolonAfterInit { line: l }, 0, l)
    }
}

/// A `for` loop from the semicolon after the condition on.
#[verifier::opaque]
pub open spec fn for_increment(
    t: Seq<TokenView>,
    p: int,
    l: usize,
    initialiser: Option<StmtView>,
    condition: ExprView,
) -> Parsed<StmtView>
    decreases rest(t, p), 32nat, 0nat,
{
    if is_at(t, p, TokenType::Semicolon) {
        if is_at(t, p + 1, TokenType::RightParen) {
            after(1, for_body(t, p + 1, t[p].line, initialiser, condition, None))
        } else {
            let step = statement(t, p + 1, t[p].line);
            after(
                1,
                match step.value {
                    Ok(s) => after(
                        step.consumed,
                        for_body(t, p + 1 + step.consumed, step.line, initialiser, condition, Some(s)),
                    ),
                    Err(e) => step,
                },
            )
        }
    } else {
        refused(ErrorView::ExpectedSemicolonAfterCondition { line: l }, 0, l)
    }
}

/// A `for` loop from the closing parenthesis on.
#[verifier::opaque]
pub open spec fn for_body(
    t: Seq<TokenView>,
    p: int,
    l: usize,
    initialiser: Option<StmtView>,
    condition: ExprView,
    increment: Option<StmtView>,
) -> Parsed<StmtView>
    decreases rest(t, p), 31nat, 0nat,
{
    if is_at(t, p, TokenType::RightParen) {
        let body = block(t, p + 1, t[p].line);
        after(
            1,
            match body.value {
                Ok(b) => read(as_while(initialiser, condition, increment, b, body.line), body.consumed, body.line),
                Err(e) => body,
            },
        )
    } else {
        refused(ErrorView::ExpectedParenAfterIncrement { line: l }, 0, l)
    }
}

/// The names of parameters after those of `list`, with commas between them.
#[verifier::opaque]
pub open spec fn parameters_rest(t: Seq<TokenView>, p: int, l: usize, list: Seq<Seq<char>>) -> Parsed<
    Seq<Seq<char>>,
>
    decreases rest(t, p),
{
    if is_at(t, p, TokenType::Identifier) {
        after(
            1,
            if is_at(t, p + 1, TokenType::Comma) {
                after(1, parameters_rest(t, p + 2, t[p + 1].line, list.push(t[p].lexeme)))
            } else {
                read(list.push(t[p].lexeme), 0, t[p].line)
            },
        )
    } else {
        refused(ErrorView::ExpectedParameterName { line: l }, 0, l)
    }
}

/// The declaration after `func`: `IDENT ( parameters ) block`.
#[verifier::opaque]
pub open spec fn function(t: Seq<TokenView>, p: int, l: usize) -> Parsed<StmtView>
    decreases rest(t, p), 30nat, 0nat,
{
    if !is_at(t, p, TokenType::Identifier) {
        refused(ErrorView::ExpectedFunctionName { line: l }, 0, l)
    } else if !is_at(t, p + 1, TokenType::LeftParen) {
        refused(ErrorView::ExpectedCharacter { expected: '(', line: t[p].line }, 1, t[p].line)
    } else {
        let parameters = if is_at(t, p + 2, TokenType::RightParen) {
            read(Seq::empty(), 0, t[p + 1].line)
        } else {
            parameters_rest(t, p + 2, t[p + 1].line, Seq::empty())
        };
        let q = p + 2 + parameters.consumed;
        after(
            2,
            match parameters.value {
                Ok(names) => after(
                    parameters.consumed,
                    if is_at(t, q, TokenType::RightParen) {
                        let body = block(t, q + 1, t[q].line);
                        after(
                            1,
                            match body.value {
                                Ok(b) => read(
                                    StmtView {
                                        line: body.line,
                                        stmt_type: StmtTypeView::Function {
                                            name: t[p].lexeme,
                                            parameters: names,
                                            body: Box::new(b),
                                        },
                                    },
                                    body.consumed,
                                    body.line,
                                ),
                                Err(e) => body,
                            },
                        )
                    } else {
                        refused(
                            ErrorView::ExpectedCharacter { expected: ')', line: parameters.line },
                            0,
                            parameters.line,
                        )
                    },
                ),
                Err(e) => instead(parameters),
            },
        )
    }
}

/// A condition in parentheses and a block, as `if` and `while` have them.
#[verifier::opaque]
pub open spec fn guarded(t: Seq<TokenView>, p: int, l: usize) -> Parsed<(ExprView, StmtView)>
    decreases rest(t, p), 29nat, 0nat,
{
    if is_at(t, p, TokenType::LeftParen) {
        let condition = expression(t, p + 1, t[p].line);
        let q = p + 1 + condition.consumed;
        after(
            1,
            match condition.value {
                Ok(c) => after(
                    condition.consumed,
                    if is_at(t, q, TokenType::RightParen) {
                        let body = block(t, q + 1, t[q].line);
                        after(
                            1,
                            match body.value {
                                Ok(b) => read((c, b), body.consumed, body.line),
                                Err(e) => instead(body),
                            },
                        )
                    } else {
                        refused(
                            ErrorView::ExpectedCharacter { expected: ')', line: condition.line },
                            0,
                            condition.line,
                        )
                    },
                ),
                Err(e) => instead(condition),
            },
        )
    } else {
        refused(ErrorView::ExpectedCharacter { expected: '(', line: l }, 0, l)
    }
}

/// The statement after `if`: `( expression ) block`, and after `else` another
/// `if` or a block.
#[verifier::opaque]
pub open spec fn if_(t: Seq<TokenView>, p: int, l: usize) -> Parsed<StmtView>
    decreases rest(t, p), 30nat, 0nat,
{
    let head = guarded(t, p, l);
    let q = p + head.consumed;
    match head.value {
        Ok(pair) => after(
            head.consumed,
            if p >= 0 && is_at(t, q, TokenType::Else) {
                let other = if is_at(t, q + 1, TokenType::If) {
                    after(1, if_(t, q + 2, t[q + 1].line))
                } else {
                    block(t, q + 1, t[q].line)
                };
                after(
                    1,
                    match other.value {
                        Ok(e) => read(
                            StmtView {
                                line: other.line,
                                stmt_type: StmtTypeView::If {
                                    condition: pair.0,
                                    then_body: Box::new(pair.1),
                                    else_body: Some(Box::new(e)),
                                },
                            },
                            other.consumed,
                            other.line,
                        ),
                        Err(e) => other,
                    },
                )
            } else {
                read(
                    StmtView {
                        line: head.line,
                        stmt_type: StmtTypeView::If {
                            condition: pair.0,
                            then_body: Box::new(pair.1),
                            else_body: None,
                        },
                    },
                    0,
                    head.line,
                )
            },
        ),
        Err(e) => instead(head),
    }
}

/// The declaration after `var`: `IDENT = expression`.
#[verifier::opaque]
pub open spec fn var(t: Seq<TokenView>, p: int, l: usize) -> Parsed<StmtView>
    decreases rest(t, p), 30nat, 0nat,
{
    if !is_at(t, p, TokenType::Identifier) {
        refused(ErrorView::ExpectedVariableName { line: l }, 0, l)
    } else if !is_at(t, p + 1, TokenType::Equal) {
        refused(ErrorView::ExpectedCharacter { expected: '=', line: t[p].line }, 1, t[p].line)
    } else {
        let value = expression(t, p + 2, t[p + 1].line);
        after(
            2,
            match value.value {
                Ok(v) => read(
                    StmtView { line: value.line, stmt_type: StmtTypeView::VarDecl { name: t[p].lexeme, value: v } },
                    value.consumed,
                    value.line,
                ),
                Err(e) => instead(value),
            },
        )
    }
}

/// The loop after `while`: `( expression ) block`.
#[verifier::opaque]
pub open spec fn while_(t: Seq<TokenView>, p: int, l: usize) -> Parsed<StmtView>
    decreases rest(t, p), 30nat, 0nat,
{
    let head = guarded(t, p, l);
    match head.value {
        Ok(pair) => read(
            StmtView {
                line: head.line,
                stmt_type: StmtTypeView::While { condition: pair.0, body: Box::new(pair.1) },
            },
            head.consumed,
            head.line,
        ),
        Err(e) => instead(head),
    }
}

/// Where the parser resumes after an error at the position, and the line that it
/// is on then: the next token at which a statement may start, or the end.
#[verifier::opaque]
pub open spec fn resumed(t: Seq<TokenView>, p: int, l: usize) -> (int, usize)
    decreases rest(t, p),
{
    if 0 <= p < t.len() && !resumes_at(t[p].type_) {
        resumed(t, p + 1, if p + 1 < t.len() { t[p + 1].line } else { l })
    } else {
        (p, l)
    }
}

/// The statements of the tokens from the position on, after those of
/// `statements`; or, if a statement is refused, the diagnostics of all that are,
/// after those of `errors`. After each diagnostic the parser resumes at the next
/// token at which a statement may start.
#[verifier::opaque]
pub open spec fn program(
    t: Seq<TokenView>,
    p: int,
    l: usize,
    statements: Seq<StmtView>,
    errors: Seq<ErrorView>,
) -> Result<Seq<StmtView>, Seq<ErrorView>>
    decreases rest(t, p),
{
    if ends_at(t, p) {
        if errors.len() == 0 {
            Ok(statements)
        } else {
            Err(errors)
        }
    } else {
        let next = statement(t, p, l);
        match next.value {
            Ok(s) => if next.consumed > 0 {
                program(t, p + next.consumed, next.line, statements.push(s), errors)
            } else {
                Ok(statements.push(s))
            },
            Err(e) => {
                let to = resumed(t, p + next.consumed, next.line);
                if to.0 > p {
                    program(t, to.0, to.1, statements, errors.push(e))
                } else {
                    Err(errors.push(e))
                }
            },
        }
    }
}

/// Where the parser stands after the statements of the tokens from the position
/// on, and the line that it is on then.
#[verifier::opaque]
pub open spec fn program_end(t: Seq<TokenView>, p: int, l: usize) -> (int, usize)
    decreases rest(t, p),
{
    if ends_at(t, p) {
        (p, l)
    } else {
        let next = statement(t, p, l);
        match next.value {
            Ok(s) => if next.consumed > 0 {
                program_end(t, p + next.consumed, next.line)
            } else {
                (p, next.line)
            },
            Err(e) => {
                let to = resumed(t, p + next.consumed, next.line);
                if to.0 > p {
                    program_end(t, to.0, to.1)
                } else {
                    to
                }
            },
        }
    }
}

} // verus!
