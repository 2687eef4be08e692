//! What the evaluator asks of its host, and what the host answers.
//!
//! The evaluator does no input or output and no floating-point arithmetic. Where
//! a program needs one of these, a step of the evaluator ends in a request; the
//! host carries it out and hands the answer to the next step.

use vstd::prelude::*;
use crate::error::{ErrorType, ErrorView};
use crate::number::Number;

verus! {

/// A piece of displayed text: literal text, or a number that the host formats.
#[derive(Debug, PartialEq)]
pub enum Piece {
    Text(String),
    Number(Number),
}

/// What a `Piece` is, as a mathematical value.
pub ghost enum PieceView {
    Text(Seq<char>),
    Number(Number),
}

impl View for Piece {
    type V = PieceView;

    open spec fn view(&self) -> PieceView {
        match self {
            Piece::Text(text) => PieceView::Text(text@),
            Piece::Number(x) => PieceView::Number(*x),
        }
    }
}

/// The views of a list of pieces.
pub open spec fn pieces_view(pieces: Seq<Piece>) -> Seq<PieceView> {
    Seq::new(pieces.len(), |i: int| pieces[i]@)
}

impl Clone for Piece {
    fn clone(&self) -> (r: Piece)
        ensures
            r@ == self@,
    {
        match self {
            Piece::Text(text) => Piece::Text(text.clone()),
            Piece::Number(x) => Piece::Number(*x),
        }
    }
}

/// A copy of a list of pieces.
pub fn copy_pieces(pieces: &Vec<Piece>) -> (r: Vec<Piece>)
    ensures
        pieces_view(r@) == pieces_view(pieces@),
{
    let mut out: Vec<Piece> = Vec::new();
    let mut i: usize = 0;
    while i < pieces.len()
        invariant
            i <= pieces.len(),
            out@.len() == i,
            forall|j: int| 0 <= j < i ==> out@[j]@ == pieces@[j]@,
        decreases pieces.len() - i,
    {
        out.push(pieces[i].clone());
        i += 1;
    }
    assert(pieces_view(out@) =~= pieces_view(pieces@));
    out
}

/// The arithmetic that the host does on two numbers.
#[derive(Clone, Copy, Debug, PartialEq, Eq, Structural)]
pub enum Operation {
    Add,
    Subtract,
    Multiply,
    Divide,
    Remainder,
}

/// What the evaluator asks of the host.
#[derive(Debug, PartialEq)]
pub enum Request {
    /// Write the pieces and a line end to the output. Answer: `Event::Resume`.
    Print(Vec<Piece>),
    /// Write the pieces to the output and read a line. Answer: `Event::Text`, the
    /// line as read.
    Input(Vec<Piece>),
    /// Compute with the two numbers. Answer: `Event::Number`.
    Calculate(Operation, Number, Number),
    /// Read the text as a number. Answer: `Event::Number`, or `Event::NotANumber`.
    ParseNumber(String),
    /// Write the number as text. Answer: `Event::Text`.
    FormatNumber(Number),
    /// Make a number of the count. Answer: `Event::Number`.
    Count(usize),
}

/// What a `Request` is, as a mathematical value.
pub ghost enum RequestView {
    Print(Seq<PieceView>),
    Input(Seq<PieceView>),
    Calculate(Operation, Number, Number),
    ParseNumber(Seq<char>),
    FormatNumber(Number),
    Count(usize),
}

impl View for Request {
    type V = RequestView;

    open spec fn view(&self) -> RequestView {
        match self {
            Request::Print(pieces) => RequestView::Print(pieces_view(pieces@)),
            Request::Input(pieces) => RequestView::Input(pieces_view(pieces@)),
            Request::Calculate(operation, a, b) => RequestView::Calculate(*operation, *a, *b),
            Request::ParseNumber(text) => RequestView::ParseNumber(text@),
            Request::FormatNumber(x) => RequestView::FormatNumber(*x),
            Request::Count(n) => RequestView::Count(*n),
        }
    }
}

impl Clone for Request {
    fn clone(&self) -> (r: Request)
        ensures
            r@ == self@,
    {
        match self {
            Request::Print(pieces) => Request::Print(copy_pieces(pieces)),
            Request::Input(pieces) => Request::Input(copy_pieces(pieces)),
            Request::Calculate(operation, a, b) => Request::Calculate(*operation, *a, *b),
            Request::ParseNumber(text) => Request::ParseNumber(text.clone()),
            Request::FormatNumber(x) => Request::FormatNumber(*x),
            Request::Count(n) => Request::Count(*n),
        }
    }
}

/// What a step of the evaluator ends in.
#[derive(Debug, PartialEq)]
pub enum Action {
    /// There is more to do: take the next step, with `Event::Resume`.
    Continue,
    /// The host is asked for something; the next step takes the answer.
    Ask(Request),
    /// The program has ended, or has been stopped by the error.
    Finished(Result<(), ErrorType>),
}

/// What an `Action` is, as a mathematical value.
pub ghost enum ActionView {
    Continue,
    Ask(RequestView),
    Finished(Result<(), ErrorView>),
}

impl View for Action {
    type V = ActionView;

    open spec fn view(&self) -> ActionView {
        match self {
            Action::Continue => ActionView::Continue,
            Action::Ask(request) => ActionView::Ask(request@),
            Action::Finished(Ok(_)) => ActionView::Finished(Ok(())),
            Action::Finished(Err(e)) => ActionView::Finished(Err(e@)),
        }
    }
}

/// What the host hands to a step of the evaluator.
#[derive(Debug, PartialEq)]
pub enum Event {
    /// Nothing: the evaluator goes on, or the host has printed.
    Resume,
    /// The number that was asked for.
    Number(Number),
    /// The text that was to be read as a number is none.
    NotANumber,
    /// The text that was asked for.
    Text(String),
}

/// What an `Event` is, as a mathematical value.
pub ghost enum EventView {
    Resume,
    Number(Number),
    NotANumber,
    Text(Seq<char>),
}

impl View for Event {
    type V = EventView;

    open spec fn view(&self) -> EventView {
        match self {
            Event::Resume => EventView::Resume,
            Event::Number(x) => EventView::Number(*x),
            Event::NotANumber => EventView::NotANumber,
            Event::Text(text) => EventView::Text(text@),
        }
    }
}

} // verus!
