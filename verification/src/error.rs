//! The diagnostics of lexer, parser and evaluator, and the signals by which
//! `break` and `return` unwind.

use vstd::prelude::*;
use crate::value::{copy_value, Value, ValueView};

verus! {

/// Everything that can stop the lexer, the parser or the evaluator.
#[derive(Debug, PartialEq)]
pub enum ErrorType {
    // Lexing.
    UnexpectedCharacter { character: char, line: usize },
    UnterminatedString,
    // Parsing.
    ExpectedCharacter { expected: char, line: usize },
    ExpectedExpression { line: usize },
    ExpectedFunctionName { line: usize },
    ExpectedParameterName { line: usize },
    ExpectedVariableName { line: usize },
    ExpectedSemicolonAfterInit { line: usize },
    ExpectedSemicolonAfterCondition { line: usize },
    ExpectedParenAfterIncrement { line: usize },
    ExpectedColonAfterKey { line: usize },
    // Names and indexing.
    NameError { name: String, line: usize },
    NotIndexable { line: usize },
    OutOfBoundsIndex { index: usize, line: usize },
    InsertNonStringIntoString { line: usize },
    InvalidAssignmentTarget { line: usize },
    // Types and arithmetic.
    ExpectedType { expected: String, got: String, line: usize },
    NonNaturalIndex { got: Value, line: usize },
    NonNumberIndex { got: String, line: usize },
    BinaryTypeError { expected: String, got_left: String, got_right: String, line: usize },
    DivideByZero { line: usize },
    IfConditionNotBoolean { line: usize },
    LoopConditionNotBoolean { line: usize },
    CannotCallName { line: usize },
    ArgParamNumberMismatch { arg_number: usize, param_number: usize, line: usize },
    // Dictionaries.
    CannotHashFunction { line: usize },
    CannotHashDictionary { line: usize },
    KeyError { key: Value, line: usize },
    // Conversion.
    CannotConvertToNumber { line: usize },
    // Signals that unwind to the enclosing call, loop or assignment.
    ThrownReturn { value: Value, line: usize },
    ThrownBreak { line: usize },
    ThrownLiteralAssignment { line: usize },
}

/// What an `ErrorType` is, as a mathematical value.
pub ghost enum ErrorView {
    UnexpectedCharacter { character: char, line: usize },
    UnterminatedString,
    ExpectedCharacter { expected: char, line: usize },
    ExpectedExpression { line: usize },
    ExpectedFunctionName { line: usize },
    ExpectedParameterName { line: usize },
    ExpectedVariableName { line: usize },
    ExpectedSemicolonAfterInit { line: usize },
    ExpectedSemicolonAfterCondition { line: usize },
    ExpectedParenAfterIncrement { line: usize },
    ExpectedColonAfterKey { line: usize },
    NameError { name: Seq<char>, line: usize },
    NotIndexable { line: usize },
    OutOfBoundsIndex { index: usize, line: usize },
    InsertNonStringIntoString { line: usize },
    InvalidAssignmentTarget { line: usize },
    ExpectedType { expected: Seq<char>, got: Seq<char>, line: usize },
    NonNaturalIndex { got: ValueView, line: usize },
    NonNumberIndex { got: Seq<char>, line: usize },
    BinaryTypeError { expected: Seq<char>, got_left: Seq<char>, got_right: Seq<char>, line: usize },
    DivideByZero { line: usize },
    IfConditionNotBoolean { line: usize },
    LoopConditionNotBoolean { line: usize },
    CannotCallName { line: usize },
    ArgParamNumberMismatch { arg_number: usize, param_number: usize, line: usize },
    CannotHashFunction { line: usize },
    CannotHashDictionary { line: usize },
    KeyError { key: ValueView, line: usize },
    CannotConvertToNumber { line: usize },
    ThrownReturn { value: ValueView, line: usize },
    ThrownBreak { line: usize },
    ThrownLiteralAssignment { line: usize },
}

impl View for ErrorType {
    type V = ErrorView;

    open spec fn view(&self) -> ErrorView {
        match self {
            ErrorType::UnexpectedCharacter { character, line } => ErrorView::UnexpectedCharacter {
                character: *character,
                line: *line,
            },
            ErrorType::UnterminatedString => ErrorView::UnterminatedString,
            ErrorType::ExpectedCharacter { expected, line } => ErrorView::ExpectedCharacter {
                expected: *expected,
                line: *line,
            },
            ErrorType::ExpectedExpression { line } => ErrorView::ExpectedExpression { line: *line },
            ErrorType::ExpectedFunctionName { line } => ErrorView::ExpectedFunctionName { line: *line },
            ErrorType::ExpectedParameterName { line } => ErrorView::ExpectedParameterName { line: *line },
            ErrorType::ExpectedVariableName { line } => ErrorView::ExpectedVariableName { line: *line },
            ErrorType::ExpectedSemicolonAfterInit { line } => ErrorView::ExpectedSemicolonAfterInit {
                line: *line,
            },
            ErrorType::ExpectedSemicolonAfterCondition { line } => ErrorView::ExpectedSemicolonAfterCondition {
                line: *line,
            },
            ErrorType::ExpectedParenAfterIncrement { line } => ErrorView::ExpectedParenAfterIncrement {
                line: *line,
            },
            ErrorType::ExpectedColonAfterKey { line } => ErrorView::ExpectedColonAfterKey { line: *line },
            ErrorType::NameError { name, line } => ErrorView::NameError { name: name@, line: *line },
            ErrorType::NotIndexable { line } => ErrorView::NotIndexable { line: *line },
            ErrorType::OutOfBoundsIndex { index, line } => ErrorView::OutOfBoundsIndex {
                index: *index,
                line: *line,
            },
            ErrorType::InsertNonStringIntoString { line } => ErrorView::InsertNonStringIntoString {
                line: *line,
            },
            ErrorType::InvalidAssignmentTarget { line } => ErrorView::InvalidAssignmentTarget { line: *line },
            ErrorType::ExpectedType { expected, got, line } => ErrorView::ExpectedType {
                expected: expected@,
                got: got@,
                line: *line,
            },
            ErrorType::NonNaturalIndex { got, line } => ErrorView::NonNaturalIndex { got: got@, line: *line },
            ErrorType::NonNumberIndex { got, line } => ErrorView::NonNumberIndex { got: got@, line: *line },
            ErrorType::BinaryTypeError { expected, got_left, got_right, line } => ErrorView::BinaryTypeError {
                expected: expected@,
                got_left: got_left@,
                got_right: got_right@,
                line: *line,
            },
            ErrorType::DivideByZero { line } => ErrorView::DivideByZero { line: *line },
            ErrorType::IfConditionNotBoolean { line } => ErrorView::IfConditionNotBoolean { line: *line },
            ErrorType::LoopConditionNotBoolean { line } => ErrorView::LoopConditionNotBoolean { line: *line },
            ErrorType::CannotCallName { line } => ErrorView::CannotCallName { line: *line },
            ErrorType::ArgParamNumberMismatch { arg_number, param_number, line } => {
                ErrorView::ArgParamNumberMismatch {
                    arg_number: *arg_number,
                    param_number: *param_number,
                    line: *line,
                }
            },
            ErrorType::CannotHashFunction { line } => ErrorView::CannotHashFunction { line: *line },
            ErrorType::CannotHashDictionary { line } => ErrorView::CannotHashDictionary { line: *line },
            ErrorType::KeyError { key, line } => ErrorView::KeyError { key: key@, line: *line },
            ErrorType::CannotConvertToNumber { line } => ErrorView::CannotConvertToNumber { line: *line },
            ErrorType::ThrownReturn { value, line } => ErrorView::ThrownReturn { value: value@, line: *line },
            ErrorType::ThrownBreak { line } => ErrorView::ThrownBreak { line: *line },
            ErrorType::ThrownLiteralAssignment { line } => ErrorView::ThrownLiteralAssignment { line: *line },
        }
    }
}

impl Clone for ErrorType {
    fn clone(&self) -> (r: ErrorType)
        ensures
            r@ == self@,
    {
        match self {
            ErrorType::UnexpectedCharacter { character, line } => ErrorType::UnexpectedCharacter {
                character: *character,
                line: *line,
            },
            ErrorType::UnterminatedString => ErrorType::UnterminatedString,
            ErrorType::ExpectedCharacter { expected, line } => ErrorType::ExpectedCharacter {
                expected: *expected,
                line: *line,
            },
            ErrorType::ExpectedExpression { line } => ErrorType::ExpectedExpression { line: *line },
            ErrorType::ExpectedFunctionName { line } => ErrorType::ExpectedFunctionName { line: *line },
            ErrorType::ExpectedParameterName { line } => ErrorType::ExpectedParameterName { line: *line },
            ErrorType::ExpectedVariableName { line } => ErrorType::ExpectedVariableName { line: *line },
            ErrorType::ExpectedSemicolonAfterInit { line } => ErrorType::ExpectedSemicolonAfterInit {
                line: *line,
            },
            ErrorType::ExpectedSemicolonAfterCondition { line } => ErrorType::ExpectedSemicolonAfterCondition {
                line: *line,
            },
            ErrorType::ExpectedParenAfterIncrement { line } => ErrorType::ExpectedParenAfterIncrement {
                line: *line,
            },
            ErrorType::ExpectedColonAfterKey { line } => ErrorType::ExpectedColonAfterKey { line: *line },
            ErrorType::NameError { name, line } => ErrorType::NameError { name: name.clone(), line: *line },
            ErrorType::NotIndexable { line } => ErrorType::NotIndexable { line: *line },
            ErrorType::OutOfBoundsIndex { index, line } => ErrorType::OutOfBoundsIndex {
                index: *index,
                line: *line,
            },
            ErrorType::InsertNonStringIntoString { line } => ErrorType::InsertNonStringIntoString {
                line: *line,
            },
            ErrorType::InvalidAssignmentTarget { line } => ErrorType::InvalidAssignmentTarget { line: *line },
            ErrorType::ExpectedType { expected, got, line } => ErrorType::ExpectedType {
                expected: expected.clone(),
                got: got.clone(),
                line: *line,
            },
            ErrorType::NonNaturalIndex { got, line } => ErrorType::NonNaturalIndex {
                got: copy_value(got),
                line: *line,
            },
            ErrorType::NonNumberIndex { got, line } => ErrorType::NonNumberIndex {
                got: got.clone(),
                line: *line,
            },
            ErrorType::BinaryTypeError { expected, got_left, got_right, line } => ErrorType::BinaryTypeError {
                expected: expected.clone(),
                got_left: got_left.clone(),
                got_right: got_right.clone(),
                line: *line,
            },
            ErrorType::DivideByZero { line } => ErrorType::DivideByZero { line: *line },
            ErrorType::IfConditionNotBoolean { line } => ErrorType::IfConditionNotBoolean { line: *line },
            ErrorType::LoopConditionNotBoolean { line } => ErrorType::LoopConditionNotBoolean { line: *line },
            ErrorType::CannotCallName { line } => ErrorType::CannotCallName { line: *line },
            ErrorType::ArgParamNumberMismatch { arg_number, param_number, line } => {
                ErrorType::ArgParamNumberMismatch {
                    arg_number: *arg_number,
                    param_number: *param_number,
                    line: *line,
                }
            },
            ErrorType::CannotHashFunction { line } => ErrorType::CannotHashFunction { line: *line },
            ErrorType::CannotHashDictionary { line } => ErrorType::CannotHashDictionary { line: *line },
            ErrorType::KeyError { key, line } => ErrorType::KeyError { key: copy_value(key), line: *line },
            ErrorType::CannotConvertToNumber { line } => ErrorType::CannotConvertToNumber { line: *line },
            ErrorType::ThrownReturn { value, line } => ErrorType::ThrownReturn {
                value: copy_value(value),
                line: *line,
            },
            ErrorType::ThrownBreak { line } => ErrorType::ThrownBreak { line: *line },
            ErrorType::ThrownLiteralAssignment { line } => ErrorType::ThrownLiteralAssignment { line: *line },
        }
    }
}

} // verus!
