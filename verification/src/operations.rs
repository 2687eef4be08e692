//! What the operators and built-in functions make of values.

use vstd::prelude::*;
use vstd::string::*;
use crate::environment::{index_of_value, index_value_to_usize};
use crate::error::{ErrorType, ErrorView};
use crate::hash_table::{get_result, remove_result, total};
use crate::host::{pieces_view, Operation, Piece, PieceView, Request, RequestView};
use crate::number::{number_equal, number_less, Number, ONE_BITS};
use crate::token::TokenType;
use crate::value::{copy_value, name_of_type, same_value, values_equal, values_view, PairView, Value, ValueView};

verus! {

/// The pieces that a value is displayed as.
pub open spec fn display_of(v: ValueView) -> Seq<PieceView>
    decreases v, 0nat, 0nat,
{
    match v {
        ValueView::Number(x) => seq![PieceView::Number(x)],
        ValueView::String_(text) => seq![PieceView::Text(text)],
        ValueView::Bool(b) => seq![PieceView::Text(if b { "true"@ } else { "false"@ })],
        ValueView::Array(items) => seq![PieceView::Text("["@)] + display_items(items, 0) + seq![
            PieceView::Text("]"@),
        ],
        ValueView::Dictionary(buckets) => seq![PieceView::Text("{"@)] + display_pairs(buckets, 0, 0, true)
            + seq![PieceView::Text("}"@)],
        ValueView::Function { .. } => seq![PieceView::Text("<function>"@)],
        ValueView::BuiltinFunction(_) => seq![PieceView::Text("<function>"@)],
        ValueView::Null => seq![PieceView::Text("null"@)],
    }
}

/// The elements of an array from index `i` on, with `, ` between them.
pub open spec fn display_items(items: Seq<ValueView>, i: int) -> Seq<PieceView>
    decreases items, items.len() - i, 0nat,
{
    if i < 0 || i >= items.len() {
        Seq::empty()
    } else {
        (if i > 0 {
            seq![PieceView::Text(", "@)]
        } else {
            Seq::empty()
        }) + display_of(items[i]) + display_items(items, i + 1)
    }
}

/// The pairs of a dictionary from pair `j` of bucket `b` on, each as `key: value`,
/// with `, ` between them; `first` says that no pair stands before them.
pub open spec fn display_pairs(buckets: Seq<Seq<PairView>>, b: int, j: int, first: bool) -> Seq<PieceView>
    decreases buckets, buckets.len() - b, (if 0 <= b < buckets.len() { buckets[b].len() - j } else { 0 }),
{
    if b < 0 || b >= buckets.len() || j < 0 {
        Seq::empty()
    } else if j >= buckets[b].len() {
        display_pairs(buckets, b + 1, 0, first)
    } else {
        (if first {
            Seq::empty()
        } else {
            seq![PieceView::Text(", "@)]
        }) + display_of(buckets[b][j].0) + seq![PieceView::Text(": "@)] + display_of(buckets[b][j].1)
            + display_pairs(buckets, b, j + 1, false)
    }
}

/// The piece of this text.
pub fn text(literal: &str) -> (r: Piece)
    ensures
        r@ == PieceView::Text(literal@),
{
    Piece::Text(String::from_str(literal))
}

/// Adds to `out` the pieces that `v` is displayed as.
pub fn display_into(v: &Value, out: &mut Vec<Piece>)
    ensures
        pieces_view(final(out)@) == pieces_view(old(out)@) + display_of(v@),
    decreases *v,
{
    let ghost start = pieces_view(out@);
    match v {
        Value::Number(x) => {
            out.push(Piece::Number(*x));
            assert(pieces_view(out@) =~= start + display_of(v@));
        },
        Value::String_(s) => {
            out.push(Piece::Text(s.clone()));
            assert(pieces_view(out@) =~= start + display_of(v@));
        },
        Value::Bool(b) => {
            if *b {
                out.push(text("true"));
            } else {
                out.push(text("false"));
            }
            assert(pieces_view(out@) =~= start + display_of(v@));
        },
        Value::Array(items) => {
            out.push(text("["));
            let ghost all = values_view(items@);
            let mut i: usize = 0;
            assert(pieces_view(out@) =~= start + seq![PieceView::Text("["@)]);
            while i < items.len()
                invariant
                    i <= items.len(),
                    all == values_view(items@),
                    *v == Value::Array(*items),
                    pieces_view(out@) + display_items(all, i as int) == start + seq![PieceView::Text("["@)]
                        + display_items(all, 0),
                decreases items.len() - i,
            {
                let ghost before = pieces_view(out@);
                if i > 0 {
                    out.push(text(", "));
                }
                let ghost middle = pieces_view(out@);
                assert(middle =~= before + (if i > 0 {
                    seq![PieceView::Text(", "@)]
                } else {
                    Seq::empty()
                }));
                assert(*v matches Value::Array(z) && z == *items);
                display_into(&items[i], out);
                proof {
                    assert(all[i as int] == items@[i as int]@);
                    assert(pieces_view(out@) + display_items(all, i + 1) =~= before + display_items(all, i as int));
                }
                i += 1;
            }
            let ghost before = pieces_view(out@);
            out.push(text("]"));
            assert(pieces_view(out@) =~= before + seq![PieceView::Text("]"@)]);
            assert(pieces_view(out@) =~= start + display_of(v@));
        },
        Value::Dictionary(table) => {
            out.push(text("{"));
            assert(pieces_view(out@) =~= start + seq![PieceView::Text("{"@)]);
            table.display_into(out);
            let ghost before = pieces_view(out@);
            out.push(text("}"));
            assert(pieces_view(out@) =~= before + seq![PieceView::Text("}"@)]);
            assert(pieces_view(out@) =~= start + display_of(v@));
        },
        Value::Function { .. } => {
            out.push(text("<function>"));
            assert(pieces_view(out@) =~= start + display_of(v@));
        },
        Value::BuiltinFunction(_) => {
            out.push(text("<function>"));
            assert(pieces_view(out@) =~= start + display_of(v@));
        },
        Value::Null => {
            out.push(text("null"));
            assert(pieces_view(out@) =~= start + display_of(v@));
        },
    }
}

/// The pieces that `v` is displayed as.
pub fn display(v: &Value) -> (r: Vec<Piece>)
    ensures
        pieces_view(r@) == display_of(v@),
{
    let mut out: Vec<Piece> = Vec::new();
    display_into(v, &mut out);
    assert(pieces_view(out@) =~= display_of(v@));
    out
}

/// What an operator or a built-in function comes to.
#[derive(Debug)]
pub enum Outcome {
    /// A value.
    Value(Value),
    /// A request to the host, whose answer becomes the value.
    Ask(Request),
    /// An error.
    Error(ErrorType),
}

/// What an `Outcome` is, as a mathematical value.
pub ghost enum OutcomeView {
    Value(ValueView),
    Ask(RequestView),
    Error(ErrorView),
}

impl View for Outcome {
    type V = OutcomeView;

    open spec fn view(&self) -> OutcomeView {
        match self {
            Outcome::Value(v) => OutcomeView::Value(v@),
            Outcome::Ask(request) => OutcomeView::Ask(request@),
            Outcome::Error(e) => OutcomeView::Error(e@),
        }
    }
}

/// Whether the text `a` from character `i` on comes before that of `b` in the
/// order of the dictionary, given that the two agree before `i`.
pub open spec fn text_less(a: Seq<char>, b: Seq<char>, i: int) -> bool
    decreases a.len() - i,
{
    if i < 0 || i >= b.len() {
        false
    } else if i >= a.len() {
        true
    } else if a[i] != b[i] {
        a[i] < b[i]
    } else {
        text_less(a, b, i + 1)
    }
}

/// Whether the text `a` comes before `b` in the order of the dictionary.
pub fn text_before(a: &str, b: &str) -> (r: bool)
    ensures
        r == text_less(a@, b@, 0),
{
    let n = a.unicode_len();
    let m = b.unicode_len();
    let mut i: usize = 0;
    while i < n && i < m
        invariant
            i <= n,
            i <= m,
            n == a@.len(),
            m == b@.len(),
            text_less(a@, b@, i as int) == text_less(a@, b@, 0),
        decreases n - i,
    {
        let x = a.get_char(i);
        let y = b.get_char(i);
        if x != y {
            return x < y;
        }
        i += 1;
    }
    i < m
}

/// What a unary operator makes of a value: `!` negates a Boolean, `-` a number. A
/// token that is neither is no operator.
pub open spec fn unary_result(operator: TokenType, right: ValueView, line: usize) -> Result<ValueView, ErrorView> {
    match operator {
        TokenType::Bang => match right {
            ValueView::Bool(b) => Ok(ValueView::Bool(!b)),
            _ => Err(ErrorView::ExpectedType { expected: "Boolean"@, got: name_of_type(right), line }),
        },
        TokenType::Minus => match right {
            ValueView::Number(x) => Ok(ValueView::Number(x.spec_negated())),
            _ => Err(ErrorView::ExpectedType { expected: "Number"@, got: name_of_type(right), line }),
        },
        _ => Err(ErrorView::ExpectedExpression { line }),
    }
}

/// Applies a unary operator; `line` is the line of the operand.
pub fn unary_operate(operator: TokenType, right: &Value, line: usize) -> (r: Result<Value, ErrorType>)
    ensures
        match unary_result(operator, right@, line) {
            Ok(v) => r matches Ok(found) && found@ == v,
            Err(e) => r matches Err(found) && found@ == e,
        },
{
    match operator {
        TokenType::Bang => match right {
            Value::Bool(b) => Ok(Value::Bool(!*b)),
            _ => Err(
                ErrorType::ExpectedType { expected: String::from_str("Boolean"), got: right.type_to_string(), line },
            ),
        },
        TokenType::Minus => match right {
            Value::Number(x) => Ok(Value::Number(x.negated())),
            _ => Err(
                ErrorType::ExpectedType { expected: String::from_str("Number"), got: right.type_to_string(), line },
            ),
        },
        _ => Err(ErrorType::ExpectedExpression { line }),
    }
}

/// The error of a binary operator that got operands of the wrong types.
pub open spec fn binary_type_error(expected: Seq<char>, left: ValueView, right: ValueView, line: usize) -> OutcomeView {
    OutcomeView::Error(
        ErrorView::BinaryTypeError { expected, got_left: name_of_type(left), got_right: name_of_type(right), line },
    )
}

/// What a comparison makes of two operands of one kind.
pub open spec fn compared(operator: TokenType, less: bool, greater: bool, equal: bool) -> bool {
    match operator {
        TokenType::Greater => greater,
        TokenType::Less => less,
        TokenType::GreaterEqual => greater || equal,
        _ => less || equal,
    }
}

/// What a binary operator makes of two values. The logical operators take
/// Booleans; `==` and `!=` any two values; the comparisons two numbers or two
/// strings; `+` adds numbers and joins strings; `-`, `*`, `/` and `%` take numbers,
/// and `/` refuses zero as divisor. Arithmetic on numbers is asked of the host. A
/// token that is none of these is no operator.
pub open spec fn binary_outcome(
    operator: TokenType,
    left: ValueView,
    right: ValueView,
    left_line: usize,
    right_line: usize,
) -> OutcomeView {
    match operator {
        TokenType::Or => match (left, right) {
            (ValueView::Bool(a), ValueView::Bool(b)) => OutcomeView::Value(ValueView::Bool(a || b)),
            _ => binary_type_error("Boolean"@, left, right, left_line),
        },
        TokenType::And => match (left, right) {
            (ValueView::Bool(a), ValueView::Bool(b)) => OutcomeView::Value(ValueView::Bool(a && b)),
            _ => binary_type_error("Boolean"@, left, right, left_line),
        },
        TokenType::EqualEqual => OutcomeView::Value(ValueView::Bool(values_equal(left, right))),
        TokenType::BangEqual => OutcomeView::Value(ValueView::Bool(!values_equal(left, right))),
        TokenType::Greater | TokenType::Less | TokenType::GreaterEqual | TokenType::LessEqual => match (
            left,
            right,
        ) {
            (ValueView::Number(a), ValueView::Number(b)) => OutcomeView::Value(
                ValueView::Bool(
                    compared(
                        operator,
                        number_less(a.bits, b.bits),
                        number_less(b.bits, a.bits),
                        number_equal(a.bits, b.bits),
                    ),
                ),
            ),
            (ValueView::String_(a), ValueView::String_(b)) => OutcomeView::Value(
                ValueView::Bool(compared(operator, text_less(a, b, 0), text_less(b, a, 0), a == b)),
            ),
            _ => binary_type_error("Number or String"@, left, right, left_line),
        },
        TokenType::Plus => match (left, right) {
            (ValueView::Number(a), ValueView::Number(b)) => OutcomeView::Ask(
                RequestView::Calculate(Operation::Add, a, b),
            ),
            (ValueView::String_(a), ValueView::String_(b)) => OutcomeView::Value(ValueView::String_(a + b)),
            _ => binary_type_error("Number or String"@, left, right, left_line),
        },
        TokenType::Minus | TokenType::Star | TokenType::Slash | TokenType::Percent => match (left, right) {
            (ValueView::Number(a), ValueView::Number(b)) => if operator == TokenType::Slash && number_equal(
                b.bits,
                0,
            ) {
                OutcomeView::Error(ErrorView::DivideByZero { line: right_line })
            } else {
                OutcomeView::Ask(
                    RequestView::Calculate(
                        match operator {
                            TokenType::Minus => Operation::Subtract,
                            TokenType::Star => Operation::Multiply,
                            TokenType::Slash => Operation::Divide,
                            _ => Operation::Remainder,
                        },
                        a,
                        b,
                    ),
                )
            },
            _ => binary_type_error("Number"@, left, right, left_line),
        },
        _ => OutcomeView::Error(ErrorView::ExpectedExpression { line: left_line }),
    }
}

fn type_error(expected: &str, left: &Value, right: &Value, line: usize) -> (r: Outcome)
    ensures
        r@ == binary_type_error(expected@, left@, right@, line),
{
    Outcome::Error(
        ErrorType::BinaryTypeError {
            expected: String::from_str(expected),
            got_left: left.type_to_string(),
            got_right: right.type_to_string(),
            line,
        },
    )
}

fn compare(operator: TokenType, less: bool, greater: bool, equal: bool) -> (r: bool)
    ensures
        r == compared(operator, less, greater, equal),
{
    match operator {
        TokenType::Greater => greater,
        TokenType::Less => less,
        TokenType::GreaterEqual => greater || equal,
        _ => less || equal,
    }
}

/// Applies a binary operator to the values of its operands; the lines are those
/// of the operands.
pub fn binary_operate(operator: TokenType, left: &Value, right: &Value, left_line: usize, right_line: usize) -> (r:
    Outcome)
    ensures
        r@ == binary_outcome(operator, left@, right@, left_line, right_line),
{
    match operator {
        TokenType::Or => match left {
            Value::Bool(a) => match right {
                Value::Bool(b) => Outcome::Value(Value::Bool(*a || *b)),
                _ => type_error("Boolean", left, right, left_line),
            },
            _ => type_error("Boolean", left, right, left_line),
        },
        TokenType::And => match left {
            Value::Bool(a) => match right {
                Value::Bool(b) => Outcome::Value(Value::Bool(*a && *b)),
                _ => type_error("Boolean", left, right, left_line),
            },
            _ => type_error("Boolean", left, right, left_line),
        },
        TokenType::EqualEqual => Outcome::Value(Value::Bool(same_value(left, right))),
        TokenType::BangEqual => Outcome::Value(Value::Bool(!same_value(left, right))),
        TokenType::Greater | TokenType::Less | TokenType::GreaterEqual | TokenType::LessEqual => match left {
            Value::Number(a) => match right {
                Value::Number(b) => Outcome::Value(
                    Value::Bool(compare(operator, a.less_than(b), b.less_than(a), a.equals(b))),
                ),
                _ => type_error("Number or String", left, right, left_line),
            },
            Value::String_(a) => match right {
                Value::String_(b) => Outcome::Value(
                    Value::Bool(
                        compare(
                            operator,
                            text_before(a.as_str(), b.as_str()),
                            text_before(b.as_str(), a.as_str()),
                            *a == *b,
                        ),
                    ),
                ),
                _ => type_error("Number or String", left, right, left_line),
            },
            _ => type_error("Number or String", left, right, left_line),
        },
        TokenType::Plus => match left {
            Value::Number(a) => match right {
                Value::Number(b) => Outcome::Ask(Request::Calculate(Operation::Add, *a, *b)),
                _ => type_error("Number or String", left, right, left_line),
            },
            Value::String_(a) => match right {
                Value::String_(b) => {
                    let mut joined = a.clone();
                    joined.append(b.as_str());
                    Outcome::Value(Value::String_(joined))
                },
                _ => type_error("Number or String", left, right, left_line),
            },
            _ => type_error("Number or String", left, right, left_line),
        },
        TokenType::Minus | TokenType::Star | TokenType::Slash | TokenType::Percent => match left {
            Value::Number(a) => match right {
                Value::Number(b) => {
                    if operator == TokenType::Slash && b.is_zero() {
                        Outcome::Error(ErrorType::DivideByZero { line: right_line })
                    } else {
                        let operation = match operator {
                            TokenType::Minus => Operation::Subtract,
                            TokenType::Star => Operation::Multiply,
                            TokenType::Slash => Operation::Divide,
                            _ => Operation::Remainder,
                        };
                        Outcome::Ask(Request::Calculate(operation, *a, *b))
                    }
                },
                _ => type_error("Number", left, right, left_line),
            },
            _ => type_error("Number", left, right, left_line),
        },
        _ => Outcome::Error(ErrorType::ExpectedExpression { line: left_line }),
    }
}

/// The element of a container at an index: of an array or a string at a natural
/// number within it, of a dictionary under a key.
pub open spec fn element_result(
    container: ValueView,
    index: ValueView,
    line: usize,
    container_line: usize,
    index_line: usize,
) -> Result<ValueView, ErrorView> {
    match container {
        ValueView::Array(items) => match index_of_value(index, index_line) {
            Err(e) => Err(e),
            Ok(at) => if at < items.len() {
                Ok(items[at as int])
            } else {
                Err(ErrorView::OutOfBoundsIndex { index: at, line })
            },
        },
        ValueView::Dictionary(buckets) => get_result(buckets, index, line),
        ValueView::String_(text) => match index_of_value(index, index_line) {
            Err(e) => Err(e),
            Ok(at) => if at < text.len() {
                Ok(ValueView::String_(seq![text[at as int]]))
            } else {
                Err(ErrorView::OutOfBoundsIndex { index: at, line })
            },
        },
        _ => Err(ErrorView::NotIndexable { line: container_line }),
    }
}

/// Takes the element of a container at an index.
pub fn element(container: &Value, index: &Value, line: usize, container_line: usize, index_line: usize) -> (r:
    Result<Value, ErrorType>)
    ensures
        match element_result(container@, index@, line, container_line, index_line) {
            Ok(v) => r matches Ok(found) && found@ == v,
            Err(e) => r matches Err(found) && found@ == e,
        },
{
    match container {
        Value::Array(items) => match index_value_to_usize(index, index_line) {
            Err(e) => Err(e),
            Ok(at) => {
                if at < items.len() {
                    assert(values_view(items@)[at as int] == items@[at as int]@);
                    Ok(copy_value(&items[at]))
                } else {
                    Err(ErrorType::OutOfBoundsIndex { index: at, line })
                }
            },
        },
        Value::Dictionary(table) => match table.get(index, line) {
            Ok(found) => Ok(copy_value(found)),
            Err(e) => Err(e),
        },
        Value::String_(text) => match index_value_to_usize(index, index_line) {
            Err(e) => Err(e),
            Ok(at) => {
                if at < text.as_str().unicode_len() {
                    let one = String::from_str(text.as_str().substring_char(at, at + 1));
                    assert(one@ =~= seq![text@[at as int]]);
                    Ok(Value::String_(one))
                } else {
                    Err(ErrorType::OutOfBoundsIndex { index: at, line })
                }
            },
        },
        _ => Err(ErrorType::NotIndexable { line: container_line }),
    }
}

/// The error of a built-in function that got an argument of the wrong type.
pub open spec fn expected_type(expected: Seq<char>, got: ValueView, line: usize) -> ErrorView {
    ErrorView::ExpectedType { expected, got: name_of_type(got), line }
}

fn wrong_type(expected: &str, got: &Value, line: usize) -> (r: ErrorType)
    ensures
        r@ == expected_type(expected@, got@, line),
{
    ErrorType::ExpectedType { expected: String::from_str(expected), got: got.type_to_string(), line }
}

/// What `size` comes to: the host is asked for the number of the elements of an
/// array, the pairs of a dictionary or the characters of a string.
pub open spec fn size_outcome(v: ValueView, line: usize) -> OutcomeView {
    match v {
        ValueView::Array(items) => OutcomeView::Ask(RequestView::Count(items.len() as usize)),
        ValueView::Dictionary(buckets) => OutcomeView::Ask(RequestView::Count(total(buckets) as usize)),
        ValueView::String_(text) => OutcomeView::Ask(RequestView::Count(text.len() as usize)),
        _ => OutcomeView::Error(expected_type("Array, Dictionary, or String"@, v, line)),
    }
}

/// The built-in function `size`.
pub fn size(v: &Value, line: usize) -> (r: Outcome)
    ensures
        r@ == size_outcome(v@, line),
{
    match v {
        Value::Array(items) => Outcome::Ask(Request::Count(items.len())),
        Value::Dictionary(table) => Outcome::Ask(Request::Count(table.size())),
        Value::String_(text) => Outcome::Ask(Request::Count(text.as_str().unicode_len())),
        _ => Outcome::Error(wrong_type("Array, Dictionary, or String", v, line)),
    }
}

/// What `to_number` comes to: 1 and 0 for the Booleans, a number itself; the host
/// is asked to read a string as a number.
pub open spec fn to_number_outcome(v: ValueView, line: usize) -> OutcomeView {
    match v {
        ValueView::Bool(b) => OutcomeView::Value(ValueView::Number(Number { bits: if b { ONE_BITS } else { 0 } })),
        ValueView::Number(_) => OutcomeView::Value(v),
        ValueView::String_(text) => OutcomeView::Ask(RequestView::ParseNumber(text)),
        _ => OutcomeView::Error(expected_type("Boolean, Number or String"@, v, line)),
    }
}

/// The built-in function `to_number`.
pub fn to_number(v: Value, line: usize) -> (r: Outcome)
    ensures
        r@ == to_number_outcome(v@, line),
{
    match v {
        Value::Bool(b) => Outcome::Value(Value::Number(if b { Number::one() } else { Number::zero() })),
        Value::Number(x) => Outcome::Value(Value::Number(x)),
        Value::String_(text) => Outcome::Ask(Request::ParseNumber(text)),
        _ => Outcome::Error(wrong_type("Boolean, Number or String", &v, line)),
    }
}

/// What `to_string` comes to: `true` and `false` for the Booleans, a string
/// itself; the host is asked to write a number as text.
pub open spec fn to_string_outcome(v: ValueView, line: usize) -> OutcomeView {
    match v {
        ValueView::Bool(b) => OutcomeView::Value(ValueView::String_(if b { "true"@ } else { "false"@ })),
        ValueView::Number(x) => OutcomeView::Ask(RequestView::FormatNumber(x)),
        ValueView::String_(_) => OutcomeView::Value(v),
        _ => OutcomeView::Error(expected_type("Boolean, Number or String"@, v, line)),
    }
}

/// The built-in function `to_string`.
pub fn to_string(v: Value, line: usize) -> (r: Outcome)
    ensures
        r@ == to_string_outcome(v@, line),
{
    match v {
        Value::Bool(b) => Outcome::Value(Value::String_(String::from_str(if b { "true" } else { "false" }))),
        Value::Number(x) => Outcome::Ask(Request::FormatNumber(x)),
        Value::String_(text) => Outcome::Value(Value::String_(text)),
        _ => Outcome::Error(wrong_type("Boolean, Number or String", &v, line)),
    }
}

/// What `append` makes of its target: the array with the value at its end.
pub open spec fn append_result(target: ValueView, value: ValueView, line: usize) -> Result<ValueView, ErrorView> {
    match target {
        ValueView::Array(items) => Ok(ValueView::Array(items.push(value))),
        _ => Err(expected_type("Array"@, target, line)),
    }
}

/// The built-in function `append`; `line` is the line of the target.
pub fn append(target: Value, value: Value, line: usize) -> (r: Result<Value, ErrorType>)
    ensures
        match append_result(target@, value@, line) {
            Ok(v) => r matches Ok(found) && found@ == v,
            Err(e) => r matches Err(found) && found@ == e,
        },
{
    match target {
        Value::Array(items) => {
            let mut items = items;
            let ghost before = values_view(items@);
            items.push(value);
            assert(values_view(items@) =~= before.push(value@));
            Ok(Value::Array(items))
        },
        _ => Err(wrong_type("Array", &target, line)),
    }
}

/// What `remove` makes of its target: the array without the element at the index,
/// or the dictionary without the pair of the key.
pub open spec fn remove_outcome(
    target: ValueView,
    key: ValueView,
    line: usize,
    target_line: usize,
    key_line: usize,
) -> Result<ValueView, ErrorView> {
    match target {
        ValueView::Array(items) => match index_of_value(key, key_line) {
            Err(e) => Err(e),
            Ok(at) => if at < items.len() {
                Ok(ValueView::Array(items.remove(at as int)))
            } else {
                Err(ErrorView::OutOfBoundsIndex { index: at, line: key_line })
            },
        },
        ValueView::Dictionary(buckets) => match remove_result(buckets, key, line) {
            Err(e) => Err(e),
            Ok(after) => Ok(ValueView::Dictionary(after)),
        },
        _ => Err(expected_type("Array or Dictionary"@, target, target_line)),
    }
}

/// The built-in function `remove`.
pub fn remove(target: Value, key: &Value, line: usize, target_line: usize, key_line: usize) -> (r: Result<
    Value,
    ErrorType,
>)
    ensures
        match remove_outcome(target@, key@, line, target_line, key_line) {
            Ok(v) => r matches Ok(found) && found@ == v,
            Err(e) => r matches Err(found) && found@ == e,
        },
{
    match target {
        Value::Array(items) => match index_value_to_usize(key, key_line) {
            Err(e) => Err(e),
            Ok(at) => {
                if at < items.len() {
                    let mut items = items;
                    let ghost before = values_view(items@);
                    let _ = items.remove(at);
                    assert(values_view(items@) =~= before.remove(at as int));
                    Ok(Value::Array(items))
                } else {
                    Err(ErrorType::OutOfBoundsIndex { index: at, line: key_line })
                }
            },
        },
        Value::Dictionary(table) => {
            let mut table = table;
            match table.remove(key, line) {
                Ok(_) => Ok(Value::Dictionary(table)),
                Err(e) => Err(e),
            }
        },
        _ => Err(wrong_type("Array or Dictionary", &target, target_line)),
    }
}

/// A line as it was read, without the line end that it may end in.
pub open spec fn without_line_end(line: Seq<char>) -> Seq<char> {
    if line.len() > 0 && line.last() == '\n' {
        if line.len() > 1 && line[line.len() - 2] == '\r' {
            line.subrange(0, line.len() - 2)
        } else {
            line.subrange(0, line.len() - 1)
        }
    } else {
        line
    }
}

/// Takes the line end off a line that was read.
pub fn strip_line_end(line: String) -> (r: String)
    ensures
        r@ == without_line_end(line@),
{
    let n = line.as_str().unicode_len();
    if n > 0 && line.as_str().get_char(n - 1) == '\n' {
        if n > 1 && line.as_str().get_char(n - 2) == '\r' {
            String::from_str(line.as_str().substring_char(0, n - 2))
        } else {
            String::from_str(line.as_str().substring_char(0, n - 1))
        }
    } else {
        line
    }
}

} // verus!
