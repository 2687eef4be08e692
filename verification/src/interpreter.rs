//! The evaluator: a machine that walks the syntax tree one step at a time.
//!
//! A program may run for ever, may wait for input, and computes with numbers
//! that only the host can add or print. So the evaluator does not run a program
//! in one call. It keeps what is still to be done on a stack of frames, and
//! `step` does one bounded piece of work: it takes an expression or a statement
//! apart, or hands a value, a completion or an error to the frame that waits for
//! it. A step ends by saying that there is more to do, by asking the host for
//! something, or by reporting the end of the program.

use vstd::prelude::*;
use crate::environment::{base_scope, resolve, update_result, Environment, Pointer, ScopeView};
use crate::error::{ErrorType, ErrorView};
use crate::expr::{copy_expr, exprs_view, pairs_view, Expr, ExprType, ExprTypeView, ExprView};
use crate::hash_table::{empty_buckets, insert_result, HashTable, KeyValue, INITIAL_CAPACITY};
use crate::host::{Action, ActionView, Event, EventView, Request, RequestView};
use crate::number::Number;
use crate::operations::{
    append, append_result, binary_operate, binary_outcome, display, display_of, element, element_result, expected_type,
    remove, remove_outcome, size, size_outcome, strip_line_end, to_number, to_number_outcome, to_string,
    to_string_outcome, unary_operate, unary_result, without_line_end, Outcome, OutcomeView,
};
use crate::sorting::{merge_sort, sort_result};
use crate::stmt::{copy_stmt, names_view, stmts_view, Stmt, StmtType, StmtTypeView, StmtView};
use crate::token::{Literal, LiteralView, TokenType};
use crate::value::{values_view, BuiltinFunction, PairView, Value, ValueView};

verus! {

/// What a construct that waits for the values of its operands does with them.
#[derive(Debug)]
pub enum Construct {
    /// An array literal: the values are its elements.
    Array,
    /// A dictionary literal: the values are a key and its value, which go into the
    /// table as soon as both are there.
    Dictionary { table: HashTable, line: usize },
    /// A unary operator with its operand.
    Unary { operator: TokenType, right_line: usize },
    /// A binary operator with its two operands.
    Binary { operator: TokenType, left_line: usize, right_line: usize },
    /// An index expression: the container and the index.
    Element { line: usize, container_line: usize, index_line: usize },
    /// An assignment whose value is being evaluated; the target comes after it.
    AssignValue { target: Expr, line: usize },
    /// An assignment to a variable: the value, and the indices that lead into it.
    Assign { name: String, line: usize },
    /// A call whose callee is being evaluated.
    Callee { arguments: Vec<Expr>, line: usize, callee_line: usize },
    /// A call of a function of the program: the values are its arguments.
    Invoke { parameters: Vec<String>, body: Stmt },
    /// `append` or `remove`, whose target is being evaluated.
    Target { function: BuiltinFunction, target: Expr, argument: Expr, line: usize },
    /// `append` or `remove` on a variable: the target, the indices that lead into
    /// the variable, and the second argument.
    Mutate { function: BuiltinFunction, name: String, line: usize, target_line: usize, argument_line: usize },
    /// A built-in function of one argument.
    Builtin { function: BuiltinFunction, line: usize, argument_line: usize },
}

/// What a statement that waits for the value of its expression does with it.
#[derive(Debug)]
pub enum Ending {
    Print,
    Declare { name: String },
    Discard,
    Return { line: usize },
}

/// A piece of work that waits for what is done above it on the stack.
#[derive(Debug)]
pub enum Frame {
    /// Operands are being evaluated; `pending` holds those still to come, the
    /// next one last.
    Operands { construct: Construct, pending: Vec<Expr>, values: Vec<Value> },
    /// Statements are being executed in turn; `remaining` holds those still to
    /// come, the next one last. A block has a scope of its own.
    Sequence { remaining: Vec<Stmt>, scoped: bool },
    /// The body of a loop is being executed.
    Loop { condition: Expr, body: Stmt, line: usize },
    /// The condition of a loop is being evaluated.
    LoopTest { condition: Expr, body: Stmt, line: usize },
    /// The condition of an `if` is being evaluated.
    Branch { then_body: Stmt, else_body: Option<Stmt>, line: usize },
    /// The expression of a statement is being evaluated.
    Finish { ending: Ending },
    /// The body of a called function is being executed, in a scope of its own.
    Call,
}

/// What the machine does next.
#[derive(Debug)]
pub enum Control {
    /// Nothing: no program is running.
    Idle,
    /// Execute the statement.
    Execute(Stmt),
    /// Evaluate the expression.
    Evaluate(Expr),
    /// Hand the value to the frame that waits for it.
    Value(Value),
    /// Tell the frame that waits that a statement is done.
    Complete,
    /// Unwind the stack with the error or signal.
    Raise(ErrorType),
    /// Wait for the host's answer to the request, asked on the given line.
    Await(Request, usize),
}

/// What a `Construct` is, as a mathematical value.
pub ghost enum ConstructView {
    Array,
    Dictionary { table: Seq<Seq<PairView>>, line: usize },
    Unary { operator: TokenType, right_line: usize },
    Binary { operator: TokenType, left_line: usize, right_line: usize },
    Element { line: usize, container_line: usize, index_line: usize },
    AssignValue { target: ExprView, line: usize },
    Assign { name: Seq<char>, line: usize },
    Callee { arguments: Seq<ExprView>, line: usize, callee_line: usize },
    Invoke { parameters: Seq<Seq<char>>, body: StmtView },
    Target { function: BuiltinFunction, target: ExprView, argument: ExprView, line: usize },
    Mutate { function: BuiltinFunction, name: Seq<char>, line: usize, target_line: usize, argument_line: usize },
    Builtin { function: BuiltinFunction, line: usize, argument_line: usize },
}

/// What an `Ending` is, as a mathematical value.
pub ghost enum EndingView {
    Print,
    Declare { name: Seq<char> },
    Discard,
    Return { line: usize },
}

/// What a `Frame` is, as a mathematical value.
pub ghost enum FrameView {
    Operands { construct: ConstructView, pending: Seq<ExprView>, values: Seq<ValueView> },
    Sequence { remaining: Seq<StmtView>, scoped: bool },
    Loop { condition: ExprView, body: StmtView, line: usize },
    LoopTest { condition: ExprView, body: StmtView, line: usize },
    Branch { then_body: StmtView, else_body: Option<StmtView>, line: usize },
    Finish { ending: EndingView },
    Call,
}

/// What a `Control` is, as a mathematical value.
pub ghost enum ControlView {
    Idle,
    Execute(StmtView),
    Evaluate(ExprView),
    Value(ValueView),
    Complete,
    Raise(ErrorView),
    Await(RequestView, usize),
}

impl View for Construct {
    type V = ConstructView;

    open spec fn view(&self) -> ConstructView {
        match self {
            Construct::Array => ConstructView::Array,
            Construct::Dictionary { table, line } => ConstructView::Dictionary { table: table@, line: *line },
            Construct::Unary { operator, right_line } => ConstructView::Unary {
                operator: *operator,
                right_line: *right_line,
            },
            Construct::Binary { operator, left_line, right_line } => ConstructView::Binary {
                operator: *operator,
                left_line: *left_line,
                right_line: *right_line,
            },
            Construct::Element { line, container_line, index_line } => ConstructView::Element {
                line: *line,
                container_line: *container_line,
                index_line: *index_line,
            },
            Construct::AssignValue { target, line } => ConstructView::AssignValue { target: target@, line: *line },
            Construct::Assign { name, line } => ConstructView::Assign { name: name@, line: *line },
            Construct::Callee { arguments, line, callee_line } => ConstructView::Callee {
                arguments: exprs_view(arguments@),
                line: *line,
                callee_line: *callee_line,
            },
            Construct::Invoke { parameters, body } => ConstructView::Invoke {
                parameters: names_view(parameters@),
                body: body@,
            },
            Construct::Target { function, target, argument, line } => ConstructView::Target {
                function: *function,
                target: target@,
                argument: argument@,
                line: *line,
            },
            Construct::Mutate { function, name, line, target_line, argument_line } => ConstructView::Mutate {
                function: *function,
                name: name@,
                line: *line,
                target_line: *target_line,
                argument_line: *argument_line,
            },
            Construct::Builtin { function, line, argument_line } => ConstructView::Builtin {
                function: *function,
                line: *line,
                argument_line: *argument_line,
            },
        }
    }
}

impl View for Ending {
    type V = EndingView;

    open spec fn view(&self) -> EndingView {
        match self {
            Ending::Print => EndingView::Print,
            Ending::Declare { name } => EndingView::Declare { name: name@ },
            Ending::Discard => EndingView::Discard,
            Ending::Return { line } => EndingView::Return { line: *line },
        }
    }
}

impl View for Frame {
    type V = FrameView;

    open spec fn view(&self) -> FrameView {
        match self {
            Frame::Operands { construct, pending, values } => FrameView::Operands {
                construct: construct@,
                pending: exprs_view(pending@),
                values: values_view(values@),
            },
            Frame::Sequence { remaining, scoped } => FrameView::Sequence {
                remaining: stmts_view(remaining@),
                scoped: *scoped,
            },
            Frame::Loop { condition, body, line } => FrameView::Loop {
                condition: condition@,
                body: body@,
                line: *line,
            },
            Frame::LoopTest { condition, body, line } => FrameView::LoopTest {
                condition: condition@,
                body: body@,
                line: *line,
            },
            Frame::Branch { then_body, else_body, line } => FrameView::Branch {
                then_body: then_body@,
                else_body: match else_body {
                    Some(s) => Some(s@),
                    None => None,
                },
                line: *line,
            },
            Frame::Finish { ending } => FrameView::Finish { ending: ending@ },
            Frame::Call => FrameView::Call,
        }
    }
}

impl View for Control {
    type V = ControlView;

    open spec fn view(&self) -> ControlView {
        match self {
            Control::Idle => ControlView::Idle,
            Control::Execute(s) => ControlView::Execute(s@),
            Control::Evaluate(e) => ControlView::Evaluate(e@),
            Control::Value(v) => ControlView::Value(v@),
            Control::Complete => ControlView::Complete,
            Control::Raise(e) => ControlView::Raise(e@),
            Control::Await(request, line) => ControlView::Await(request@, *line),
        }
    }
}

/// The views of a stack of frames.
pub open spec fn frames_view(frames: Seq<Frame>) -> Seq<FrameView> {
    Seq::new(frames.len(), |i: int| frames[i]@)
}

/// The state of the machine, as a mathematical value.
pub ghost struct MachineView {
    pub scopes: Seq<ScopeView>,
    pub frames: Seq<FrameView>,
    pub control: ControlView,
}

/// Whether the frame has a scope of its own.
pub open spec fn scoped(frame: FrameView) -> bool {
    match frame {
        FrameView::Sequence { remaining, scoped } => scoped,
        FrameView::Call => true,
        _ => false,
    }
}

/// How many of the frames have a scope of their own.
pub open spec fn scoped_count(frames: Seq<FrameView>) -> nat
    decreases frames.len(),
{
    if frames.len() == 0 {
        0
    } else {
        scoped_count(frames.drop_last()) + if scoped(frames.last()) { 1nat } else { 0nat }
    }
}

/// Whether the operands of a construct, those with a value and those still
/// pending, are as many as the construct takes.
pub open spec fn operands_fit(construct: ConstructView, pending: nat, values: nat) -> bool {
    match construct {
        ConstructView::Array => true,
        ConstructView::Dictionary { .. } => values < 2 && (values + pending) % 2 == 0,
        ConstructView::Unary { .. } => values + pending == 1,
        ConstructView::Binary { .. } => values + pending == 2,
        ConstructView::Element { .. } => values + pending == 2,
        ConstructView::AssignValue { .. } => values + pending == 1,
        ConstructView::Assign { .. } => values + pending >= 1 && (pending == 0 ==> values >= 1),
        ConstructView::Callee { .. } => values + pending == 1,
        ConstructView::Invoke { parameters, body } => values + pending == parameters.len(),
        ConstructView::Target { .. } => values + pending == 1,
        ConstructView::Mutate { .. } => values + pending >= 2,
        ConstructView::Builtin { .. } => values + pending == 1,
    }
}

/// Whether a frame on the stack has as many operands as its construct takes,
/// counting the one that is being evaluated.
pub open spec fn frame_fits(frame: FrameView) -> bool {
    match frame {
        FrameView::Operands { construct, pending, values } => operands_fit(
            construct,
            pending.len() + 1,
            values.len(),
        ),
        _ => true,
    }
}

/// What holds of every state of the machine: there is one scope for the base and
/// one for each frame that has a scope of its own, every frame has as many
/// operands as its construct takes, and an idle machine has no frame.
pub open spec fn machine_fits(m: MachineView) -> bool {
    &&& m.scopes.len() == 1 + scoped_count(m.frames)
    &&& forall|i: int| 0 <= i < m.frames.len() ==> frame_fits(#[trigger] m.frames[i])
    &&& m.control is Idle ==> m.frames.len() == 0
}

/// The sequence in the opposite order.
pub open spec fn reversed<A>(s: Seq<A>) -> Seq<A> {
    Seq::new(s.len(), |i: int| s[s.len() - 1 - i])
}

/// Where an assignment goes.
pub ghost enum PathView {
    /// Into a variable, by the indices.
    Variable { name: Seq<char>, indices: Seq<ExprView> },
    /// Into an array or dictionary that is written out, or into what a call gives.
    Literal,
    /// Nowhere.
    Invalid,
}

/// Where an assignment to the expression goes: the expression is a variable, or
/// an element of what an assignment can go to.
pub open spec fn path_of(e: ExprView) -> PathView
    decreases e,
{
    match e.expr_type {
        ExprTypeView::Variable { name } => PathView::Variable { name, indices: Seq::empty() },
        ExprTypeView::Element { array, index } => match path_of(*array) {
            PathView::Variable { name, indices } => PathView::Variable { name, indices: indices.push(*index) },
            other => other,
        },
        ExprTypeView::Array { .. } => PathView::Literal,
        ExprTypeView::Dictionary { .. } => PathView::Literal,
        ExprTypeView::Call { .. } => PathView::Literal,
        _ => PathView::Invalid,
    }
}

/// The operands of a dictionary literal, as a frame holds them: for each pair the
/// value and then the key, the pairs from the last to the first.
pub open spec fn pair_operands(pairs: Seq<(ExprView, ExprView)>) -> Seq<ExprView>
    decreases pairs.len(),
{
    if pairs.len() == 0 {
        Seq::empty()
    } else {
        seq![pairs.last().1, pairs.last().0] + pair_operands(pairs.drop_last())
    }
}

/// The machine that goes on with `control`.
pub open spec fn going(scopes: Seq<ScopeView>, frames: Seq<FrameView>, control: ControlView) -> MachineView {
    MachineView { scopes, frames, control }
}

/// The control after an operation that gives a value or fails.
pub open spec fn of_result(r: Result<ValueView, ErrorView>) -> ControlView {
    match r {
        Ok(v) => ControlView::Value(v),
        Err(e) => ControlView::Raise(e),
    }
}

/// The control after an operation that gives a value, fails or asks the host.
pub open spec fn of_outcome(outcome: OutcomeView, line: usize) -> ControlView {
    match outcome {
        OutcomeView::Value(v) => ControlView::Value(v),
        OutcomeView::Ask(request) => ControlView::Await(request, line),
        OutcomeView::Error(e) => ControlView::Raise(e),
    }
}

/// The scopes after the names from index `i` on have been declared, each with the
/// value at its index, in the innermost scope.
pub open spec fn declared(scopes: Seq<ScopeView>, names: Seq<Seq<char>>, values: Seq<ValueView>, i: int) -> Seq<
    ScopeView,
>
    decreases names.len() - i,
{
    if i < 0 || i >= names.len() || i >= values.len() || scopes.len() == 0 {
        scopes
    } else {
        declared(scopes.update(scopes.len() - 1, scopes.last().insert(names[i], values[i])), names, values, i + 1)
    }
}

/// How many arguments a built-in function takes.
pub open spec fn arity(function: BuiltinFunction) -> usize {
    match function {
        BuiltinFunction::Append => 2,
        BuiltinFunction::Remove => 2,
        _ => 1,
    }
}

/// How many constructs may follow a construct before a value is there.
pub open spec fn stages(construct: ConstructView) -> nat {
    match construct {
        ConstructView::Callee { .. } => 3,
        ConstructView::AssignValue { .. } => 2,
        ConstructView::Target { .. } => 2,
        _ => 1,
    }
}

/// The machine goes on with a construct: it evaluates the next pending operand,
/// and if none is pending it does what the construct does with the values.
pub open spec fn proceed_spec(
    scopes: Seq<ScopeView>,
    frames: Seq<FrameView>,
    construct: ConstructView,
    pending: Seq<ExprView>,
    values: Seq<ValueView>,
) -> MachineView
    decreases stages(construct), 1nat,
{
    if pending.len() > 0 {
        going(
            scopes,
            frames.push(FrameView::Operands { construct, pending: pending.drop_last(), values }),
            ControlView::Evaluate(pending.last()),
        )
    } else {
        finish_spec(scopes, frames, construct, values)
    }
}

/// What a call of a built-in function does once the callee is known.
pub open spec fn builtin_spec(
    scopes: Seq<ScopeView>,
    frames: Seq<FrameView>,
    function: BuiltinFunction,
    arguments: Seq<ExprView>,
    line: usize,
) -> MachineView
    decreases 2nat, 2nat,
{
    if arguments.len() != arity(function) {
        going(
            scopes,
            frames,
            ControlView::Raise(
                ErrorView::ArgParamNumberMismatch {
                    arg_number: arguments.len() as usize,
                    param_number: arity(function),
                    line,
                },
            ),
        )
    } else if arity(function) == 2 {
        proceed_spec(
            scopes,
            frames,
            ConstructView::Target { function, target: arguments[0], argument: arguments[1], line },
            seq![arguments[0]],
            Seq::empty(),
        )
    } else {
        proceed_spec(
            scopes,
            frames,
            ConstructView::Builtin { function, line, argument_line: arguments[0].line },
            seq![arguments[0]],
            Seq::empty(),
        )
    }
}

/// What a construct does with the values of its operands.
pub open spec fn finish_spec(
    scopes: Seq<ScopeView>,
    frames: Seq<FrameView>,
    construct: ConstructView,
    values: Seq<ValueView>,
) -> MachineView
    decreases stages(construct), 0nat,
{
    match construct {
        ConstructView::Array => going(scopes, frames, ControlView::Value(ValueView::Array(values))),
        ConstructView::Dictionary { table, line } => going(
            scopes,
            frames,
            ControlView::Value(ValueView::Dictionary(table)),
        ),
        ConstructView::Unary { operator, right_line } => going(
            scopes,
            frames,
            of_result(unary_result(operator, values[0], right_line)),
        ),
        ConstructView::Binary { operator, left_line, right_line } => going(
            scopes,
            frames,
            of_outcome(binary_outcome(operator, values[0], values[1], left_line, right_line), left_line),
        ),
        ConstructView::Element { line, container_line, index_line } => going(
            scopes,
            frames,
            of_result(element_result(values[0], values[1], line, container_line, index_line)),
        ),
        ConstructView::AssignValue { target, line } => match path_of(target) {
            PathView::Variable { name, indices } => proceed_spec(
                scopes,
                frames,
                ConstructView::Assign { name, line },
                reversed(indices),
                values,
            ),
            PathView::Literal => going(scopes, frames, ControlView::Value(values[0])),
            PathView::Invalid => going(
                scopes,
                frames,
                ControlView::Raise(ErrorView::InvalidAssignmentTarget { line }),
            ),
        },
        ConstructView::Assign { name, line } => assign_spec(scopes, frames, name, line, values),
        ConstructView::Callee { arguments, line, callee_line } => match values[0] {
            ValueView::Function { parameters, body } => if arguments.len() != parameters.len() {
                going(
                    scopes,
                    frames,
                    ControlView::Raise(
                        ErrorView::ArgParamNumberMismatch {
                            arg_number: arguments.len() as usize,
                            param_number: parameters.len() as usize,
                            line,
                        },
                    ),
                )
            } else {
                proceed_spec(
                    scopes,
                    frames,
                    ConstructView::Invoke { parameters, body },
                    reversed(arguments),
                    Seq::empty(),
                )
            },
            ValueView::BuiltinFunction(function) => builtin_spec(scopes, frames, function, arguments, line),
            _ => going(scopes, frames, ControlView::Raise(ErrorView::CannotCallName { line: callee_line })),
        },
        ConstructView::Invoke { parameters, body } => invoke_spec(scopes, frames, parameters, body, values),
        ConstructView::Target { function, target, argument, line } => match path_of(target) {
            PathView::Variable { name, indices } => proceed_spec(
                scopes,
                frames,
                ConstructView::Mutate {
                    function,
                    name,
                    line,
                    target_line: target.line,
                    argument_line: argument.line,
                },
                seq![argument] + reversed(indices),
                values,
            ),
            PathView::Literal => going(
                scopes,
                frames,
                ControlView::Raise(ErrorView::ThrownLiteralAssignment { line: target.line }),
            ),
            PathView::Invalid => going(
                scopes,
                frames,
                ControlView::Raise(ErrorView::InvalidAssignmentTarget { line: target.line }),
            ),
        },
        ConstructView::Mutate { function, name, line, target_line, argument_line } => {
            let changed = if function == BuiltinFunction::Append {
                append_result(values[0], values.last(), target_line)
            } else {
                remove_outcome(values[0], values.last(), line, target_line, argument_line)
            };
            match changed {
                Err(e) => going(scopes, frames, ControlView::Raise(e)),
                Ok(v) => match update_result(scopes, name, values.subrange(1, values.len() - 1), v, line) {
                    Ok(after) => going(after, frames, ControlView::Value(v)),
                    Err(e) => going(scopes, frames, ControlView::Raise(e)),
                },
            }
        },
        ConstructView::Builtin { function, line, argument_line } => going(
            scopes,
            frames,
            match function {
                BuiltinFunction::Input => ControlView::Await(RequestView::Input(display_of(values[0])), line),
                BuiltinFunction::Size => of_outcome(size_outcome(values[0], line), line),
                BuiltinFunction::Sort => match values[0] {
                    ValueView::Array(items) => match sort_result(items, argument_line) {
                        Ok(sorted) => ControlView::Value(ValueView::Array(sorted)),
                        Err(e) => ControlView::Raise(e),
                    },
                    _ => ControlView::Raise(expected_type("Array"@, values[0], line)),
                },
                BuiltinFunction::ToNumber => of_outcome(to_number_outcome(values[0], line), line),
                BuiltinFunction::ToString => of_outcome(to_string_outcome(values[0], line), line),
                _ => ControlView::Raise(ErrorView::CannotCallName { line }),
            },
        ),
    }
}

/// An assignment to a variable, or to an element of its value: `values` holds the
/// value to assign and after it the indices. The value is what the assignment
/// comes to.
pub open spec fn assign_spec(
    scopes: Seq<ScopeView>,
    frames: Seq<FrameView>,
    name: Seq<char>,
    line: usize,
    values: Seq<ValueView>,
) -> MachineView {
    match update_result(scopes, name, values.subrange(1, values.len() as int), values[0], line) {
        Ok(after) => going(after, frames, ControlView::Value(values[0])),
        Err(e) => going(scopes, frames, ControlView::Raise(e)),
    }
}

/// A call of a function of the program: a new scope binds the parameters to the
/// arguments, and the body is executed in it.
pub open spec fn invoke_spec(
    scopes: Seq<ScopeView>,
    frames: Seq<FrameView>,
    parameters: Seq<Seq<char>>,
    body: StmtView,
    values: Seq<ValueView>,
) -> MachineView {
    going(
        declared(scopes.push(Map::empty()), parameters, values, 0),
        frames.push(FrameView::Call),
        ControlView::Execute(body),
    )
}

/// What the machine does to evaluate an expression.
pub open spec fn evaluate_spec(scopes: Seq<ScopeView>, frames: Seq<FrameView>, e: ExprView) -> MachineView {
    match e.expr_type {
        ExprTypeView::Literal { value } => going(
            scopes,
            frames,
            match value {
                LiteralView::Number(text) => ControlView::Await(RequestView::ParseNumber(text), e.line),
                LiteralView::String_(text) => ControlView::Value(ValueView::String_(text)),
                LiteralView::Bool(b) => ControlView::Value(ValueView::Bool(b)),
                LiteralView::Null => ControlView::Value(ValueView::Null),
            },
        ),
        ExprTypeView::Variable { name } => going(
            scopes,
            frames,
            match resolve(scopes, name) {
                Some(v) => ControlView::Value(v),
                None => ControlView::Raise(ErrorView::NameError { name, line: e.line }),
            },
        ),
        ExprTypeView::Grouping { expression } => going(scopes, frames, ControlView::Evaluate(*expression)),
        ExprTypeView::Array { elements } => proceed_spec(
            scopes,
            frames,
            ConstructView::Array,
            reversed(elements),
            Seq::empty(),
        ),
        ExprTypeView::Dictionary { elements } => proceed_spec(
            scopes,
            frames,
            ConstructView::Dictionary { table: empty_buckets(INITIAL_CAPACITY as nat), line: e.line },
            pair_operands(elements),
            Seq::empty(),
        ),
        ExprTypeView::Unary { operator, right } => proceed_spec(
            scopes,
            frames,
            ConstructView::Unary { operator: operator.type_, right_line: right.line },
            seq![*right],
            Seq::empty(),
        ),
        ExprTypeView::Binary { left, operator, right } => proceed_spec(
            scopes,
            frames,
            ConstructView::Binary { operator: operator.type_, left_line: left.line, right_line: right.line },
            seq![*right, *left],
            Seq::empty(),
        ),
        ExprTypeView::Element { array, index } => proceed_spec(
            scopes,
            frames,
            ConstructView::Element { line: e.line, container_line: array.line, index_line: index.line },
            seq![*index, *array],
            Seq::empty(),
        ),
        ExprTypeView::Assignment { target, value } => proceed_spec(
            scopes,
            frames,
            ConstructView::AssignValue { target: *target, line: e.line },
            seq![*value],
            Seq::empty(),
        ),
        ExprTypeView::Call { callee, arguments } => proceed_spec(
            scopes,
            frames,
            ConstructView::Callee { arguments, line: e.line, callee_line: callee.line },
            seq![*callee],
            Seq::empty(),
        ),
    }
}

/// What the machine does to execute a statement.
pub open spec fn execute_spec(scopes: Seq<ScopeView>, frames: Seq<FrameView>, s: StmtView) -> MachineView {
    match s.stmt_type {
        StmtTypeView::Block { body } => going(
            scopes.push(Map::empty()),
            frames.push(FrameView::Sequence { remaining: reversed(body), scoped: true }),
            ControlView::Complete,
        ),
        StmtTypeView::Break => going(scopes, frames, ControlView::Raise(ErrorView::ThrownBreak { line: s.line })),
        StmtTypeView::Expression { expression } => going(
            scopes,
            frames.push(FrameView::Finish { ending: EndingView::Discard }),
            ControlView::Evaluate(expression),
        ),
        StmtTypeView::Function { name, parameters, body } => going(
            scopes.update(
                scopes.len() - 1,
                scopes.last().insert(name, ValueView::Function { parameters, body: *body }),
            ),
            frames,
            ControlView::Complete,
        ),
        StmtTypeView::If { condition, then_body, else_body } => going(
            scopes,
            frames.push(
                FrameView::Branch {
                    then_body: *then_body,
                    else_body: match else_body {
                        Some(e) => Some(*e),
                        None => None,
                    },
                    line: condition.line,
                },
            ),
            ControlView::Evaluate(condition),
        ),
        StmtTypeView::Print { expression } => going(
            scopes,
            frames.push(FrameView::Finish { ending: EndingView::Print }),
            ControlView::Evaluate(expression),
        ),
        StmtTypeView::Return { expression } => going(
            scopes,
            frames.push(FrameView::Finish { ending: EndingView::Return { line: s.line } }),
            ControlView::Evaluate(expression),
        ),
        StmtTypeView::VarDecl { name, value } => going(
            scopes,
            frames.push(FrameView::Finish { ending: EndingView::Declare { name } }),
            ControlView::Evaluate(value),
        ),
        StmtTypeView::While { condition, body } => going(
            scopes,
            frames.push(FrameView::LoopTest { condition, body: *body, line: s.line }),
            ControlView::Evaluate(condition),
        ),
    }
}

/// Whether the frame waits for a value; the others wait for a statement to be done.
pub open spec fn takes_value(frame: FrameView) -> bool {
    frame is Operands || frame is Branch || frame is LoopTest || frame is Finish
}

/// What a frame that waits for a value does with it.
pub open spec fn taken_spec(scopes: Seq<ScopeView>, frames: Seq<FrameView>, frame: FrameView, v: ValueView) -> MachineView {
    match frame {
        FrameView::Operands { construct, pending, values } => match construct {
            ConstructView::Dictionary { table, line } => if values.len() == 1 {
                match insert_result(table, values[0], v, line) {
                    Ok(after) => proceed_spec(
                        scopes,
                        frames,
                        ConstructView::Dictionary { table: after, line },
                        pending,
                        Seq::empty(),
                    ),
                    Err(e) => going(scopes, frames, ControlView::Raise(e)),
                }
            } else {
                proceed_spec(scopes, frames, construct, pending, values.push(v))
            },
            _ => proceed_spec(scopes, frames, construct, pending, values.push(v)),
        },
        FrameView::Branch { then_body, else_body, line } => going(
            scopes,
            frames,
            match v {
                ValueView::Bool(b) => if b {
                    ControlView::Execute(then_body)
                } else {
                    match else_body {
                        Some(s) => ControlView::Execute(s),
                        None => ControlView::Complete,
                    }
                },
                _ => ControlView::Raise(ErrorView::IfConditionNotBoolean { line }),
            },
        ),
        FrameView::LoopTest { condition, body, line } => match v {
            ValueView::Bool(b) => if b {
                going(scopes, frames.push(FrameView::Loop { condition, body, line }), ControlView::Execute(body))
            } else {
                going(scopes, frames, ControlView::Complete)
            },
            _ => going(scopes, frames, ControlView::Raise(ErrorView::LoopConditionNotBoolean { line })),
        },
        FrameView::Finish { ending } => match ending {
            EndingView::Print => going(scopes, frames, ControlView::Await(RequestView::Print(display_of(v)), 0)),
            EndingView::Declare { name } => going(
                scopes.update(scopes.len() - 1, scopes.last().insert(name, v)),
                frames,
                ControlView::Complete,
            ),
            EndingView::Discard => going(scopes, frames, ControlView::Complete),
            EndingView::Return { line } => going(
                scopes,
                frames,
                ControlView::Raise(ErrorView::ThrownReturn { value: v, line }),
            ),
        },
        _ => going(scopes, frames, ControlView::Complete),
    }
}

/// What a frame that waits for a statement does when the statement is done.
pub open spec fn done_spec(scopes: Seq<ScopeView>, frames: Seq<FrameView>, frame: FrameView) -> MachineView {
    match frame {
        FrameView::Sequence { remaining, scoped } => if remaining.len() > 0 {
            going(
                scopes,
                frames.push(FrameView::Sequence { remaining: remaining.drop_last(), scoped }),
                ControlView::Execute(remaining.last()),
            )
        } else {
            going(if scoped { scopes.drop_last() } else { scopes }, frames, ControlView::Complete)
        },
        FrameView::Loop { condition, body, line } => going(
            scopes,
            frames.push(FrameView::LoopTest { condition, body, line }),
            ControlView::Evaluate(condition),
        ),
        FrameView::Call => going(scopes.drop_last(), frames, ControlView::Value(ValueView::Null)),
        _ => going(scopes, frames, ControlView::Complete),
    }
}

/// What a frame does with a value. A frame that waits for a statement takes the
/// value for the end of the statement.
pub open spec fn value_spec(scopes: Seq<ScopeView>, frames: Seq<FrameView>, frame: FrameView, v: ValueView) -> MachineView {
    if takes_value(frame) {
        taken_spec(scopes, frames, frame, v)
    } else {
        done_spec(scopes, frames, frame)
    }
}

/// What a frame does when a statement is done. A frame that waits for a value
/// takes `Null`.
pub open spec fn complete_spec(scopes: Seq<ScopeView>, frames: Seq<FrameView>, frame: FrameView) -> MachineView {
    if takes_value(frame) {
        taken_spec(scopes, frames, frame, ValueView::Null)
    } else {
        done_spec(scopes, frames, frame)
    }
}


/// What a frame does with an error or signal that unwinds the stack: a block and
/// a call leave their scope, a loop ends at `break`, a call gives what `return`
/// carries; all else lets it pass.
pub open spec fn unwind_spec(scopes: Seq<ScopeView>, frames: Seq<FrameView>, frame: FrameView, e: ErrorView) -> MachineView {
    match frame {
        FrameView::Sequence { remaining, scoped } => going(
            if scoped { scopes.drop_last() } else { scopes },
            frames,
            ControlView::Raise(e),
        ),
        FrameView::Loop { .. } => going(
            scopes,
            frames,
            if e is ThrownBreak { ControlView::Complete } else { ControlView::Raise(e) },
        ),
        FrameView::Call => going(
            scopes.drop_last(),
            frames,
            match e {
                ErrorView::ThrownReturn { value, line } => ControlView::Value(value),
                _ => ControlView::Raise(e),
            },
        ),
        _ => going(scopes, frames, ControlView::Raise(e)),
    }
}

/// What the host's answer to a request makes the machine do next; `None` if the
/// event is no answer to the request.
pub open spec fn answered(request: RequestView, event: EventView, line: usize) -> Option<ControlView> {
    match request {
        RequestView::Print(_) => match event {
            EventView::Resume => Some(ControlView::Complete),
            _ => None,
        },
        RequestView::Input(_) => match event {
            EventView::Text(text) => Some(ControlView::Value(ValueView::String_(without_line_end(text)))),
            _ => None,
        },
        RequestView::Calculate(_, _, _) => match event {
            EventView::Number(x) => Some(ControlView::Value(ValueView::Number(x))),
            _ => None,
        },
        RequestView::ParseNumber(_) => match event {
            EventView::Number(x) => Some(ControlView::Value(ValueView::Number(x))),
            EventView::NotANumber => Some(ControlView::Raise(ErrorView::CannotConvertToNumber { line })),
            _ => None,
        },
        RequestView::FormatNumber(_) => match event {
            EventView::Text(text) => Some(ControlView::Value(ValueView::String_(text))),
            _ => None,
        },
        RequestView::Count(_) => match event {
            EventView::Number(x) => Some(ControlView::Value(ValueView::Number(x))),
            _ => None,
        },
    }
}

/// One piece of work of a machine that does not wait for the host.
pub open spec fn advance_spec(m: MachineView) -> MachineView {
    match m.control {
        ControlView::Execute(s) => execute_spec(m.scopes, m.frames, s),
        ControlView::Evaluate(e) => evaluate_spec(m.scopes, m.frames, e),
        ControlView::Value(v) => if m.frames.len() > 0 {
            value_spec(m.scopes, m.frames.drop_last(), m.frames.last(), v)
        } else {
            m
        },
        ControlView::Complete => if m.frames.len() > 0 {
            complete_spec(m.scopes, m.frames.drop_last(), m.frames.last())
        } else {
            m
        },
        ControlView::Raise(e) => if m.frames.len() > 0 {
            unwind_spec(m.scopes, m.frames.drop_last(), m.frames.last(), e)
        } else {
            m
        },
        _ => m,
    }
}

/// What a step ends in, and how it leaves the machine, once the work is done: a
/// request to the host, the end of the program when no frame is left, or more to do.
pub open spec fn settle_spec(m: MachineView) -> (MachineView, ActionView) {
    match m.control {
        ControlView::Await(request, line) => (m, ActionView::Ask(request)),
        ControlView::Raise(e) => if m.frames.len() == 0 {
            (going(m.scopes, m.frames, ControlView::Idle), ActionView::Finished(Err(e)))
        } else {
            (m, ActionView::Continue)
        },
        ControlView::Complete => if m.frames.len() == 0 {
            (going(m.scopes, m.frames, ControlView::Idle), ActionView::Finished(Ok(())))
        } else {
            (m, ActionView::Continue)
        },
        ControlView::Value(_) => if m.frames.len() == 0 {
            (going(m.scopes, m.frames, ControlView::Idle), ActionView::Finished(Ok(())))
        } else {
            (m, ActionView::Continue)
        },
        ControlView::Idle => (m, ActionView::Finished(Ok(()))),
        _ => (m, ActionView::Continue),
    }
}

/// One step of the machine: how it leaves the machine, and what it ends in. A
/// machine that waits for the host takes the event for the answer, and asks again
/// if it is none; any other machine does one piece of work and does not look at
/// the event.
pub open spec fn step_spec(m: MachineView, event: EventView) -> (MachineView, ActionView) {
    match m.control {
        ControlView::Idle => (m, ActionView::Finished(Ok(()))),
        ControlView::Await(request, line) => match answered(request, event, line) {
            Some(control) => (going(m.scopes, m.frames, control), ActionView::Continue),
            None => (m, ActionView::Ask(request)),
        },
        _ => settle_spec(advance_spec(m)),
    }
}

/// A construct never leaves the machine idle.
proof fn lemma_proceed_runs(
    scopes: Seq<ScopeView>,
    frames: Seq<FrameView>,
    construct: ConstructView,
    pending: Seq<ExprView>,
    values: Seq<ValueView>,
)
    ensures
        !(proceed_spec(scopes, frames, construct, pending, values).control is Idle),
        !(finish_spec(scopes, frames, construct, values).control is Idle),
    decreases stages(construct),
{
    match construct {
        ConstructView::AssignValue { target, line } => match path_of(target) {
            PathView::Variable { name, indices } => {
                lemma_proceed_runs(scopes, frames, ConstructView::Assign { name, line }, reversed(indices), values);
            },
            _ => {},
        },
        ConstructView::Callee { arguments, line, callee_line } => match values[0] {
            ValueView::Function { parameters, body } => {
                lemma_proceed_runs(
                    scopes,
                    frames,
                    ConstructView::Invoke { parameters, body },
                    reversed(arguments),
                    Seq::empty(),
                );
            },
            ValueView::BuiltinFunction(function) => {
                if arguments.len() == arity(function) {
                    if arity(function) == 2 {
                        lemma_proceed_runs(
                            scopes,
                            frames,
                            ConstructView::Target { function, target: arguments[0], argument: arguments[1], line },
                            seq![arguments[0]],
                            Seq::empty(),
                        );
                    } else {
                        lemma_proceed_runs(
                            scopes,
                            frames,
                            ConstructView::Builtin { function, line, argument_line: arguments[0].line },
                            seq![arguments[0]],
                            Seq::empty(),
                        );
                    }
                }
            },
            _ => {},
        },
        ConstructView::Target { function, target, argument, line } => match path_of(target) {
            PathView::Variable { name, indices } => {
                lemma_proceed_runs(
                    scopes,
                    frames,
                    ConstructView::Mutate {
                        function,
                        name,
                        line,
                        target_line: target.line,
                        argument_line: argument.line,
                    },
                    seq![argument] + reversed(indices),
                    values,
                );
            },
            _ => {},
        },
        _ => {},
    }
}

/// A piece of work never leaves the machine idle.
proof fn lemma_advance_runs(m: MachineView)
    requires
        !(m.control is Idle),
    ensures
        !(advance_spec(m).control is Idle),
{
    match m.control {
        ControlView::Evaluate(e) => {
            match e.expr_type {
                ExprTypeView::Array { elements } => {
                    lemma_proceed_runs(m.scopes, m.frames, ConstructView::Array, reversed(elements), Seq::empty());
                },
                ExprTypeView::Dictionary { elements } => {
                    lemma_proceed_runs(
                        m.scopes,
                        m.frames,
                        ConstructView::Dictionary { table: empty_buckets(INITIAL_CAPACITY as nat), line: e.line },
                        pair_operands(elements),
                        Seq::empty(),
                    );
                },
                ExprTypeView::Unary { operator, right } => {
                    lemma_proceed_runs(
                        m.scopes,
                        m.frames,
                        ConstructView::Unary { operator: operator.type_, right_line: right.line },
                        seq![*right],
                        Seq::empty(),
                    );
                },
                ExprTypeView::Binary { left, operator, right } => {
                    lemma_proceed_runs(
                        m.scopes,
                        m.frames,
                        ConstructView::Binary {
                            operator: operator.type_,
                            left_line: left.line,
                            right_line: right.line,
                        },
                        seq![*right, *left],
                        Seq::empty(),
                    );
                },
                ExprTypeView::Element { array, index } => {
                    lemma_proceed_runs(
                        m.scopes,
                        m.frames,
                        ConstructView::Element { line: e.line, container_line: array.line, index_line: index.line },
                        seq![*index, *array],
                        Seq::empty(),
                    );
                },
                ExprTypeView::Assignment { target, value } => {
                    lemma_proceed_runs(
                        m.scopes,
                        m.frames,
                        ConstructView::AssignValue { target: *target, line: e.line },
                        seq![*value],
                        Seq::empty(),
                    );
                },
                ExprTypeView::Call { callee, arguments } => {
                    lemma_proceed_runs(
                        m.scopes,
                        m.frames,
                        ConstructView::Callee { arguments, line: e.line, callee_line: callee.line },
                        seq![*callee],
                        Seq::empty(),
                    );
                },
                _ => {},
            }
        },
        ControlView::Value(v) => {
            if m.frames.len() > 0 {
                lemma_taken_runs(m.scopes, m.frames.drop_last(), m.frames.last(), v);
            }
        },
        ControlView::Complete => {
            if m.frames.len() > 0 {
                lemma_taken_runs(m.scopes, m.frames.drop_last(), m.frames.last(), ValueView::Null);
            }
        },
        _ => {},
    }
}

/// A frame that takes a value or a completion never leaves the machine idle.
proof fn lemma_taken_runs(scopes: Seq<ScopeView>, frames: Seq<FrameView>, frame: FrameView, v: ValueView)
    ensures
        !(taken_spec(scopes, frames, frame, v).control is Idle),
        !(done_spec(scopes, frames, frame).control is Idle),
{
    match frame {
        FrameView::Operands { construct, pending, values } => match construct {
            ConstructView::Dictionary { table, line } => {
                if values.len() == 1 {
                    match insert_result(table, values[0], v, line) {
                        Ok(after) => {
                            lemma_proceed_runs(
                                scopes,
                                frames,
                                ConstructView::Dictionary { table: after, line },
                                pending,
                                Seq::empty(),
                            );
                        },
                        Err(e) => {},
                    }
                } else {
                    lemma_proceed_runs(scopes, frames, construct, pending, values.push(v));
                }
            },
            _ => {
                lemma_proceed_runs(scopes, frames, construct, pending, values.push(v));
            },
        },
        _ => {},
    }
}

/// The state of the evaluator: the scopes, the frames and what is done next.
#[derive(Debug)]
struct Machine {
    environment: Environment,
    frames: Vec<Frame>,
    control: Control,
}

/// The evaluator.
#[derive(Debug)]
pub struct Interpreter {
    machine: Machine,
}

/// Where an assignment goes.
pub enum Path {
    Variable { name: String, indices: Vec<Expr> },
    Literal,
    Invalid,
}

impl View for Path {
    type V = PathView;

    open spec fn view(&self) -> PathView {
        match self {
            Path::Variable { name, indices } => PathView::Variable { name: name@, indices: exprs_view(indices@) },
            Path::Literal => PathView::Literal,
            Path::Invalid => PathView::Invalid,
        }
    }
}

/// Finds where an assignment to the expression goes.
pub fn path(target: &Expr) -> (r: Path)
    ensures
        r@ == path_of(target@),
    decreases *target,
{
    match &target.expr_type {
        ExprType::Variable { name } => {
            let indices: Vec<Expr> = Vec::new();
            assert(exprs_view(indices@) =~= Seq::<ExprView>::empty());
            Path::Variable { name: name.clone(), indices }
        },
        ExprType::Element { array, index } => match path(array) {
            Path::Variable { name, indices } => {
                let mut indices = indices;
                let ghost before = exprs_view(indices@);
                indices.push(copy_expr(index));
                assert(exprs_view(indices@) =~= before.push(index@));
                Path::Variable { name, indices }
            },
            Path::Literal => Path::Literal,
            Path::Invalid => Path::Invalid,
        },
        ExprType::Array { .. } => Path::Literal,
        ExprType::Dictionary { .. } => Path::Literal,
        ExprType::Call { .. } => Path::Literal,
        _ => Path::Invalid,
    }
}

/// The expressions in the opposite order.
fn reverse_exprs(list: Vec<Expr>) -> (r: Vec<Expr>)
    ensures
        exprs_view(r@) == reversed(exprs_view(list@)),
{
    let mut list = list;
    let ghost all = exprs_view(list@);
    let mut out: Vec<Expr> = Vec::new();
    while list.len() > 0
        invariant
            out@.len() + list@.len() == all.len(),
            forall|i: int| 0 <= i < out@.len() ==> out@[i]@ == all[all.len() - 1 - i],
            forall|i: int| 0 <= i < list@.len() ==> list@[i]@ == all[i],
        decreases list@.len(),
    {
        let next = list.pop().unwrap();
        out.push(next);
    }
    assert(exprs_view(out@) =~= reversed(all));
    out
}

/// The statements in the opposite order.
fn reverse_stmts(list: Vec<Stmt>) -> (r: Vec<Stmt>)
    ensures
        stmts_view(r@) == reversed(stmts_view(list@)),
{
    let mut list = list;
    let ghost all = stmts_view(list@);
    let mut out: Vec<Stmt> = Vec::new();
    while list.len() > 0
        invariant
            out@.len() + list@.len() == all.len(),
            forall|i: int| 0 <= i < out@.len() ==> out@[i]@ == all[all.len() - 1 - i],
            forall|i: int| 0 <= i < list@.len() ==> list@[i]@ == all[i],
        decreases list@.len(),
    {
        let next = list.pop().unwrap();
        out.push(next);
    }
    assert(stmts_view(out@) =~= reversed(all));
    out
}

/// The operands of a dictionary literal, as a frame holds them.
fn operands_of_pairs(pairs: Vec<KeyValue<Expr>>) -> (r: Vec<Expr>)
    ensures
        exprs_view(r@) == pair_operands(pairs_view(pairs@)),
        r@.len() % 2 == 0,
{
    let mut pairs = pairs;
    let ghost all = pairs_view(pairs@);
    let mut out: Vec<Expr> = Vec::new();
    assert(exprs_view(out@) + pair_operands(all) =~= pair_operands(all));
    while pairs.len() > 0
        invariant
            exprs_view(out@) + pair_operands(pairs_view(pairs@)) == pair_operands(all),
            out@.len() % 2 == 0,
        decreases pairs@.len(),
    {
        let ghost before = exprs_view(out@);
        let ghost rest = pairs_view(pairs@);
        let pair = pairs.pop().unwrap();
        assert(rest.last() == (pair.key@, pair.value@));
        assert(pairs_view(pairs@) =~= rest.drop_last());
        out.push(pair.value);
        out.push(pair.key);
        assert(exprs_view(out@) =~= before + seq![rest.last().1, rest.last().0]);
        assert(exprs_view(out@) + pair_operands(rest.drop_last()) =~= before + pair_operands(rest));
    }
    assert(exprs_view(out@) + Seq::<ExprView>::empty() =~= exprs_view(out@));
    out
}

/// Adding a frame adds a scope to the count if the frame has one.
proof fn lemma_count_push(frames: Seq<FrameView>, frame: FrameView)
    ensures
        scoped_count(frames.push(frame)) == scoped_count(frames) + if scoped(frame) { 1nat } else { 0nat },
{
    assert(frames.push(frame).drop_last() =~= frames);
}

/// The scopes stay as many when names are declared.
proof fn lemma_declared_len(scopes: Seq<ScopeView>, names: Seq<Seq<char>>, values: Seq<ValueView>, i: int)
    ensures
        declared(scopes, names, values, i).len() == scopes.len(),
    decreases names.len() - i,
{
    if !(i < 0 || i >= names.len() || i >= values.len() || scopes.len() == 0) {
        lemma_declared_len(
            scopes.update(scopes.len() - 1, scopes.last().insert(names[i], values[i])),
            names,
            values,
            i + 1,
        );
    }
}

/// The machine with a program loaded: what it was doing is dropped with all scopes
/// but the base scope, and the statements of the program are to be executed in turn.
pub open spec fn loaded(m: MachineView, program: Seq<StmtView>) -> MachineView {
    MachineView {
        scopes: m.scopes.subrange(0, 1),
        frames: seq![FrameView::Sequence { remaining: reversed(program), scoped: false }],
        control: ControlView::Complete,
    }
}

/// The machine before any program: the base scope, no frame, nothing to do.
pub open spec fn initial() -> MachineView {
    MachineView { scopes: seq![base_scope()], frames: Seq::empty(), control: ControlView::Idle }
}

/// What holds of a machine from whose stack a frame has been taken: `extra` is 1
/// if the frame has a scope of its own.
pub open spec fn fits_under(m: MachineView, extra: nat) -> bool {
    &&& m.scopes.len() == 1 + scoped_count(m.frames) + extra
    &&& forall|i: int| 0 <= i < m.frames.len() ==> frame_fits(#[trigger] m.frames[i])
}

impl Machine {
    /// The state of the machine.
    closed spec fn view(&self) -> MachineView {
        MachineView { scopes: self.environment@, frames: frames_view(self.frames@), control: self.control@ }
    }

    /// Puts a frame on the stack.
    fn push(&mut self, frame: Frame)
        ensures
            final(self)@.frames == old(self)@.frames.push(frame@),
            final(self)@.scopes == old(self)@.scopes,
            final(self)@.control == old(self)@.control,
            fits_under(old(self)@, 0) && frame_fits(frame@) && !scoped(frame@) ==> fits_under(final(self)@, 0),
    {
        proof {
            lemma_count_push(frames_view(self.frames@), frame@);
        }
        self.frames.push(frame);
        assert(frames_view(self.frames@) =~= frames_view(old(self).frames@).push(frame@));
    }

    /// Goes on with a construct: evaluates the next pending operand, or does what
    /// the construct does with the values if none is pending.
    fn proceed(&mut self, construct: Construct, pending: Vec<Expr>, values: Vec<Value>)
        requires
            fits_under(old(self)@, 0),
            operands_fit(construct@, pending@.len(), values@.len()),
        ensures
            final(self)@ == proceed_spec(
                old(self)@.scopes,
                old(self)@.frames,
                construct@,
                exprs_view(pending@),
                values_view(values@),
            ),
            fits_under(final(self)@, 0),
        decreases stages(construct@), 1nat,
    {
        let mut pending = pending;
        if pending.len() > 0 {
            let ghost before = exprs_view(pending@);
            let next = pending.pop().unwrap();
            assert(exprs_view(pending@) =~= before.drop_last());
            assert(before.last() == next@);
            self.push(Frame::Operands { construct, pending, values });
            self.control = Control::Evaluate(next);
        } else {
            self.finish(construct, values);
        }
    }

    /// Binds the parameters to the arguments in a new scope and executes the body.
    fn invoke(&mut self, parameters: Vec<String>, body: Stmt, values: Vec<Value>)
        requires
            fits_under(old(self)@, 0),
            parameters@.len() == values@.len(),
        ensures
            final(self)@ == invoke_spec(
                old(self)@.scopes,
                old(self)@.frames,
                names_view(parameters@),
                body@,
                values_view(values@),
            ),
            fits_under(final(self)@, 0),
    {
        self.environment.new_scope();
        let ghost start = self.environment@;
        let ghost names = names_view(parameters@);
        let ghost all = values_view(values@);
        let mut i: usize = 0;
        while i < parameters.len()
            invariant
                i <= parameters.len(),
                parameters@.len() == values@.len(),
                names == names_view(parameters@),
                all == values_view(values@),
                self.environment@.len() == start.len(),
                start.len() > 0,
                declared(self.environment@, names, all, i as int) == declared(start, names, all, 0),
                self.frames == old(self).frames,
            decreases parameters.len() - i,
        {
            assert(names[i as int] == parameters@[i as int]@);
            assert(all[i as int] == values@[i as int]@);
            self.environment.declare(parameters[i].clone(), &values[i]);
            i += 1;
        }
        proof {
            lemma_count_push(frames_view(self.frames@), FrameView::Call);
        }
        self.frames.push(Frame::Call);
        assert(frames_view(self.frames@) =~= frames_view(old(self).frames@).push(FrameView::Call));
        self.control = Control::Execute(body);
    }

    /// Assigns the first of the values to the variable, or to the element of its
    /// value that the other values lead to.
    fn assign(&mut self, name: String, line: usize, values: Vec<Value>)
        requires
            fits_under(old(self)@, 0),
            values@.len() >= 1,
        ensures
            final(self)@ == assign_spec(old(self)@.scopes, old(self)@.frames, name@, line, values_view(values@)),
            fits_under(final(self)@, 0),
    {
        let mut values = values;
        let ghost all = values_view(values@);
        let value = values.remove(0);
        assert(values_view(values@) =~= all.subrange(1, all.len() as int));
        assert(all[0] == value@);
        let pointer = Pointer { name, indices: values };
        match self.environment.update(&pointer, &value, line) {
            Ok(_) => {
                self.control = Control::Value(value);
            },
            Err(e) => {
                self.control = Control::Raise(e);
            },
        }
    }

    /// Sets what the machine does next after an operation that gives a value,
    /// fails or asks the host.
    fn settle_outcome(&mut self, outcome: Outcome, line: usize)
        ensures
            final(self)@ == going(old(self)@.scopes, old(self)@.frames, of_outcome(outcome@, line)),
    {
        match outcome {
            Outcome::Value(v) => {
                self.control = Control::Value(v);
            },
            Outcome::Ask(request) => {
                self.control = Control::Await(request, line);
            },
            Outcome::Error(e) => {
                self.control = Control::Raise(e);
            },
        }
    }

    /// Sets what the machine does next after an operation that gives a value or fails.
    fn settle_result(&mut self, result: Result<Value, ErrorType>)
        ensures
            final(self)@ == going(
                old(self)@.scopes,
                old(self)@.frames,
                of_result(
                    match result {
                        Ok(v) => Ok(v@),
                        Err(e) => Err(e@),
                    },
                ),
            ),
    {
        match result {
            Ok(v) => {
                self.control = Control::Value(v);
            },
            Err(e) => {
                self.control = Control::Raise(e);
            },
        }
    }

    /// Does what a construct does with the values of its operands.
    fn finish(&mut self, construct: Construct, values: Vec<Value>)
        requires
            fits_under(old(self)@, 0),
            operands_fit(construct@, 0, values@.len()),
        ensures
            final(self)@ == finish_spec(old(self)@.scopes, old(self)@.frames, construct@, values_view(values@)),
            fits_under(final(self)@, 0),
        decreases stages(construct@), 0nat,
    {
        let mut values = values;
        let ghost all = values_view(values@);
        match construct {
            Construct::Array => {
                self.control = Control::Value(Value::Array(values));
            },
            Construct::Dictionary { table, line } => {
                self.control = Control::Value(Value::Dictionary(table));
            },
            Construct::Unary { operator, right_line } => {
                assert(all[0] == values@[0]@);
                let r = unary_operate(operator, &values[0], right_line);
                self.settle_result(r);
            },
            Construct::Binary { operator, left_line, right_line } => {
                assert(all[0] == values@[0]@);
                assert(all[1] == values@[1]@);
                let outcome = binary_operate(operator, &values[0], &values[1], left_line, right_line);
                self.settle_outcome(outcome, left_line);
            },
            Construct::Element { line, container_line, index_line } => {
                assert(all[0] == values@[0]@);
                assert(all[1] == values@[1]@);
                let r = element(&values[0], &values[1], line, container_line, index_line);
                self.settle_result(r);
            },
            Construct::AssignValue { target, line } => {
                match path(&target) {
                    Path::Variable { name, indices } => {
                        self.proceed(Construct::Assign { name, line }, reverse_exprs(indices), values);
                    },
                    Path::Literal => {
                        let value = values.remove(0);
                        assert(all[0] == value@);
                        self.control = Control::Value(value);
                    },
                    Path::Invalid => {
                        self.control = Control::Raise(ErrorType::InvalidAssignmentTarget { line });
                    },
                }
            },
            Construct::Assign { name, line } => {
                self.assign(name, line, values);
            },
            Construct::Callee { arguments, line, callee_line } => {
                let callee = values.remove(0);
                assert(all[0] == callee@);
                match callee {
                    Value::Function { parameters, body } => {
                        if arguments.len() != parameters.len() {
                            self.control = Control::Raise(
                                ErrorType::ArgParamNumberMismatch {
                                    arg_number: arguments.len(),
                                    param_number: parameters.len(),
                                    line,
                                },
                            );
                        } else {
                            let none: Vec<Value> = Vec::new();
                            assert(values_view(none@) =~= Seq::<ValueView>::empty());
                            self.proceed(Construct::Invoke { parameters, body }, reverse_exprs(arguments), none);
                        }
                    },
                    Value::BuiltinFunction(function) => {
                        self.builtin(function, arguments, line);
                    },
                    _ => {
                        self.control = Control::Raise(ErrorType::CannotCallName { line: callee_line });
                    },
                }
            },
            Construct::Invoke { parameters, body } => {
                self.invoke(parameters, body, values);
            },
            Construct::Target { function, target, argument, line } => {
                match path(&target) {
                    Path::Variable { name, indices } => {
                        let ghost order = exprs_view(indices@);
                        let mut pending: Vec<Expr> = Vec::new();
                        let target_line = target.line;
                        let argument_line = argument.line;
                        let ghost argument_view = argument@;
                        pending.push(argument);
                        let mut rest = reverse_exprs(indices);
                        let ghost rest_view = exprs_view(rest@);
                        pending.append(&mut rest);
                        assert(exprs_view(pending@) =~= seq![argument_view] + reversed(order));
                        self.proceed(
                            Construct::Mutate { function, name, line, target_line, argument_line },
                            pending,
                            values,
                        );
                    },
                    Path::Literal => {
                        self.control = Control::Raise(ErrorType::ThrownLiteralAssignment { line: target.line });
                    },
                    Path::Invalid => {
                        self.control = Control::Raise(ErrorType::InvalidAssignmentTarget { line: target.line });
                    },
                }
            },
            Construct::Mutate { function, name, line, target_line, argument_line } => {
                let argument = values.pop().unwrap();
                let target = values.remove(0);
                assert(all[0] == target@);
                assert(all.last() == argument@);
                assert(values_view(values@) =~= all.subrange(1, all.len() - 1));
                let changed = match function {
                    BuiltinFunction::Append => append(target, argument, target_line),
                    _ => remove(target, &argument, line, target_line, argument_line),
                };
                match changed {
                    Err(e) => {
                        self.control = Control::Raise(e);
                    },
                    Ok(v) => {
                        let pointer = Pointer { name, indices: values };
                        match self.environment.update(&pointer, &v, line) {
                            Ok(_) => {
                                self.control = Control::Value(v);
                            },
                            Err(e) => {
                                self.control = Control::Raise(e);
                            },
                        }
                    },
                }
            },
            Construct::Builtin { function, line, argument_line } => {
                let argument = values.remove(0);
                assert(all[0] == argument@);
                match function {
                    BuiltinFunction::Input => {
                        self.control = Control::Await(Request::Input(display(&argument)), line);
                    },
                    BuiltinFunction::Size => {
                        let outcome = size(&argument, line);
                        self.settle_outcome(outcome, line);
                    },
                    BuiltinFunction::Sort => {
                        match argument {
                            Value::Array(items) => match merge_sort(&items, argument_line) {
                                Ok(sorted) => {
                                    self.control = Control::Value(Value::Array(sorted));
                                },
                                Err(e) => {
                                    self.control = Control::Raise(e);
                                },
                            },
                            _ => {
                                self.control = Control::Raise(
                                    ErrorType::ExpectedType {
                                        expected: String::from_str("Array"),
                                        got: argument.type_to_string(),
                                        line,
                                    },
                                );
                            },
                        }
                    },
                    BuiltinFunction::ToNumber => {
                        let outcome = to_number(argument, line);
                        self.settle_outcome(outcome, line);
                    },
                    BuiltinFunction::ToString => {
                        let outcome = to_string(argument, line);
                        self.settle_outcome(outcome, line);
                    },
                    _ => {
                        self.control = Control::Raise(ErrorType::CannotCallName { line });
                    },
                }
            },
        }
    }

    /// Does what a call of a built-in function does once the callee is known.
    fn builtin(&mut self, function: BuiltinFunction, arguments: Vec<Expr>, line: usize)
        requires
            fits_under(old(self)@, 0),
        ensures
            final(self)@ == builtin_spec(old(self)@.scopes, old(self)@.frames, function, exprs_view(arguments@), line),
            fits_under(final(self)@, 0),
        decreases 2nat, 2nat,
    {
        let mut arguments = arguments;
        let ghost all = exprs_view(arguments@);
        let wanted: usize = match function {
            BuiltinFunction::Append => 2,
            BuiltinFunction::Remove => 2,
            _ => 1,
        };
        if arguments.len() != wanted {
            self.control = Control::Raise(
                ErrorType::ArgParamNumberMismatch { arg_number: arguments.len(), param_number: wanted, line },
            );
        } else if wanted == 2 {
            let argument = arguments.pop().unwrap();
            let target = arguments.pop().unwrap();
            assert(all[0] == target@ && all[1] == argument@);
            let mut pending: Vec<Expr> = Vec::new();
            pending.push(copy_expr(&target));
            assert(exprs_view(pending@) =~= seq![all[0]]);
            let none: Vec<Value> = Vec::new();
            assert(values_view(none@) =~= Seq::<ValueView>::empty());
            self.proceed(Construct::Target { function, target, argument, line }, pending, none);
        } else {
            let argument = arguments.pop().unwrap();
            assert(all[0] == argument@);
            let argument_line = argument.line;
            let mut pending: Vec<Expr> = Vec::new();
            pending.push(argument);
            assert(exprs_view(pending@) =~= seq![all[0]]);
            let none: Vec<Value> = Vec::new();
            assert(values_view(none@) =~= Seq::<ValueView>::empty());
            self.proceed(Construct::Builtin { function, line, argument_line }, pending, none);
        }
    }

    /// Does what the machine does to evaluate an expression.
    fn evaluate(&mut self, e: Expr)
        requires
            fits_under(old(self)@, 0),
        ensures
            final(self)@ == evaluate_spec(old(self)@.scopes, old(self)@.frames, e@),
            fits_under(final(self)@, 0),
    {
        let line = e.line;
        let none: Vec<Value> = Vec::new();
        assert(values_view(none@) =~= Seq::<ValueView>::empty());
        match e.expr_type {
            ExprType::Literal { value } => {
                match value {
                    Literal::Number(text) => {
                        self.control = Control::Await(Request::ParseNumber(text), line);
                    },
                    Literal::String_(text) => {
                        self.control = Control::Value(Value::String_(text));
                    },
                    Literal::Bool(b) => {
                        self.control = Control::Value(Value::Bool(b));
                    },
                    Literal::Null => {
                        self.control = Control::Value(Value::Null);
                    },
                }
            },
            ExprType::Variable { name } => {
                let r = self.environment.get(name, line);
                self.settle_result(r);
            },
            ExprType::Grouping { expression } => {
                self.control = Control::Evaluate(*expression);
            },
            ExprType::Array { elements } => {
                self.proceed(Construct::Array, reverse_exprs(elements), none);
            },
            ExprType::Dictionary { elements } => {
                self.proceed(Construct::Dictionary { table: HashTable::new(), line }, operands_of_pairs(elements), none);
            },
            ExprType::Unary { operator, right } => {
                let right_line = right.line;
                let mut pending: Vec<Expr> = Vec::new();
                let ghost right_view = right@;
                pending.push(*right);
                assert(exprs_view(pending@) =~= seq![right_view]);
                self.proceed(Construct::Unary { operator: operator.type_, right_line }, pending, none);
            },
            ExprType::Binary { left, operator, right } => {
                let left_line = left.line;
                let right_line = right.line;
                let ghost left_view = left@;
                let ghost right_view = right@;
                let mut pending: Vec<Expr> = Vec::new();
                pending.push(*right);
                pending.push(*left);
                assert(exprs_view(pending@) =~= seq![right_view, left_view]);
                self.proceed(Construct::Binary { operator: operator.type_, left_line, right_line }, pending, none);
            },
            ExprType::Element { array, index } => {
                let container_line = array.line;
                let index_line = index.line;
                let ghost array_view = array@;
                let ghost index_view = index@;
                let mut pending: Vec<Expr> = Vec::new();
                pending.push(*index);
                pending.push(*array);
                assert(exprs_view(pending@) =~= seq![index_view, array_view]);
                self.proceed(Construct::Element { line, container_line, index_line }, pending, none);
            },
            ExprType::Assignment { target, value } => {
                let ghost value_view = value@;
                let mut pending: Vec<Expr> = Vec::new();
                pending.push(*value);
                assert(exprs_view(pending@) =~= seq![value_view]);
                self.proceed(Construct::AssignValue { target: *target, line }, pending, none);
            },
            ExprType::Call { callee, arguments } => {
                let callee_line = callee.line;
                let ghost callee_view = callee@;
                let mut pending: Vec<Expr> = Vec::new();
                pending.push(*callee);
                assert(exprs_view(pending@) =~= seq![callee_view]);
                self.proceed(Construct::Callee { arguments, line, callee_line }, pending, none);
            },
        }
    }

    /// Does what the machine does to execute a statement.
    fn execute(&mut self, s: Stmt)
        requires
            fits_under(old(self)@, 0),
        ensures
            final(self)@ == execute_spec(old(self)@.scopes, old(self)@.frames, s@),
            fits_under(final(self)@, 0),
    {
        let line = s.line;
        match s.stmt_type {
            StmtType::Block { body } => {
                self.environment.new_scope();
                let frame = Frame::Sequence { remaining: reverse_stmts(body), scoped: true };
                proof {
                    lemma_count_push(frames_view(self.frames@), frame@);
                }
                self.frames.push(frame);
                assert(frames_view(self.frames@) =~= frames_view(old(self).frames@).push(frame@));
                self.control = Control::Complete;
            },
            StmtType::Break => {
                self.control = Control::Raise(ErrorType::ThrownBreak { line });
            },
            StmtType::Expression { expression } => {
                self.push(Frame::Finish { ending: Ending::Discard });
                self.control = Control::Evaluate(expression);
            },
            StmtType::Function { name, parameters, body } => {
                let function = Value::Function { parameters, body: *body };
                self.environment.declare(name, &function);
                self.control = Control::Complete;
            },
            StmtType::If { condition, then_body, else_body } => {
                let else_body = match else_body {
                    Some(boxed) => Some(*boxed),
                    None => None,
                };
                self.push(Frame::Branch { then_body: *then_body, else_body, line: condition.line });
                self.control = Control::Evaluate(condition);
            },
            StmtType::Print { expression } => {
                self.push(Frame::Finish { ending: Ending::Print });
                self.control = Control::Evaluate(expression);
            },
            StmtType::Return { expression } => {
                self.push(Frame::Finish { ending: Ending::Return { line } });
                self.control = Control::Evaluate(expression);
            },
            StmtType::VarDecl { name, value } => {
                self.push(Frame::Finish { ending: Ending::Declare { name } });
                self.control = Control::Evaluate(value);
            },
            StmtType::While { condition, body } => {
                self.push(Frame::LoopTest { condition: copy_expr(&condition), body: *body, line });
                self.control = Control::Evaluate(condition);
            },
        }
    }

    /// Hands a key or a value to a dictionary literal: a key waits for its value,
    /// and with the value the pair goes into the table.
    #[verifier::spinoff_prover]
    fn take_entry(&mut self, table: HashTable, line: usize, pending: Vec<Expr>, values: Vec<Value>, v: Value)
        requires
            fits_under(old(self)@, 0),
            operands_fit(ConstructView::Dictionary { table: table@, line }, pending@.len() + 1, values@.len()),
        ensures
            final(self)@ == taken_spec(
                old(self)@.scopes,
                old(self)@.frames,
                FrameView::Operands {
                    construct: ConstructView::Dictionary { table: table@, line },
                    pending: exprs_view(pending@),
                    values: values_view(values@),
                },
                v@,
            ),
            fits_under(final(self)@, 0),
    {
        let mut values = values;
        let ghost before = values_view(values@);
        if values.len() == 1 {
            let mut table = table;
            assert(before[0] == values@[0]@);
            match table.insert(&values[0], &v, line) {
                Ok(_) => {
                    let none: Vec<Value> = Vec::new();
                    assert(values_view(none@) =~= Seq::<ValueView>::empty());
                    self.proceed(Construct::Dictionary { table, line }, pending, none);
                },
                Err(e) => {
                    self.control = Control::Raise(e);
                },
            }
        } else {
            values.push(v);
            assert(values_view(values@) =~= before.push(v@));
            self.proceed(Construct::Dictionary { table, line }, pending, values);
        }
    }

    /// Hands the value of an operand to the construct that waits for it.
    #[verifier::spinoff_prover]
    fn take_operand(&mut self, construct: Construct, pending: Vec<Expr>, values: Vec<Value>, v: Value)
        requires
            fits_under(old(self)@, 0),
            operands_fit(construct@, pending@.len() + 1, values@.len()),
        ensures
            final(self)@ == taken_spec(
                old(self)@.scopes,
                old(self)@.frames,
                FrameView::Operands {
                    construct: construct@,
                    pending: exprs_view(pending@),
                    values: values_view(values@),
                },
                v@,
            ),
            fits_under(final(self)@, 0),
    {
        match construct {
            Construct::Dictionary { table, line } => {
                self.take_entry(table, line, pending, values, v);
            },
            other => {
                let mut values = values;
                let ghost before = values_view(values@);
                values.push(v);
                assert(values_view(values@) =~= before.push(v@));
                self.proceed(other, pending, values);
            },
        }
    }

    /// Hands a value to a frame that waits for one.
    fn take(&mut self, frame: Frame, v: Value)
        requires
            fits_under(old(self)@, 0),
            frame_fits(frame@),
            takes_value(frame@),
        ensures
            final(self)@ == taken_spec(old(self)@.scopes, old(self)@.frames, frame@, v@),
            fits_under(final(self)@, 0),
    {
        match frame {
            Frame::Operands { construct, pending, values } => {
                self.take_operand(construct, pending, values, v);
            },
            Frame::Branch { then_body, else_body, line } => {
                match v {
                    Value::Bool(b) => {
                        if b {
                            self.control = Control::Execute(then_body);
                        } else {
                            match else_body {
                                Some(s) => {
                                    self.control = Control::Execute(s);
                                },
                                None => {
                                    self.control = Control::Complete;
                                },
                            }
                        }
                    },
                    _ => {
                        self.control = Control::Raise(ErrorType::IfConditionNotBoolean { line });
                    },
                }
            },
            Frame::LoopTest { condition, body, line } => {
                match v {
                    Value::Bool(b) => {
                        if b {
                            let again = copy_stmt(&body);
                            self.push(Frame::Loop { condition, body, line });
                            self.control = Control::Execute(again);
                        } else {
                            self.control = Control::Complete;
                        }
                    },
                    _ => {
                        self.control = Control::Raise(ErrorType::LoopConditionNotBoolean { line });
                    },
                }
            },
            Frame::Finish { ending } => {
                match ending {
                    Ending::Print => {
                        self.control = Control::Await(Request::Print(display(&v)), 0);
                    },
                    Ending::Declare { name } => {
                        self.environment.declare(name, &v);
                        self.control = Control::Complete;
                    },
                    Ending::Discard => {
                        self.control = Control::Complete;
                    },
                    Ending::Return { line } => {
                        self.control = Control::Raise(ErrorType::ThrownReturn { value: v, line });
                    },
                }
            },
            _ => {
                self.control = Control::Complete;
            },
        }
    }

    /// Tells a frame that waits for a statement that the statement is done.
    fn done(&mut self, frame: Frame)
        requires
            fits_under(old(self)@, if scoped(frame@) { 1nat } else { 0nat }),
            !takes_value(frame@),
        ensures
            final(self)@ == done_spec(old(self)@.scopes, old(self)@.frames, frame@),
            fits_under(final(self)@, 0),
    {
        match frame {
            Frame::Sequence { remaining, scoped } => {
                let mut remaining = remaining;
                if remaining.len() > 0 {
                    let ghost before = stmts_view(remaining@);
                    let next = remaining.pop().unwrap();
                    assert(stmts_view(remaining@) =~= before.drop_last());
                    assert(before.last() == next@);
                    let frame = Frame::Sequence { remaining, scoped };
                    proof {
                        lemma_count_push(frames_view(self.frames@), frame@);
                    }
                    self.frames.push(frame);
                    assert(frames_view(self.frames@) =~= frames_view(old(self).frames@).push(frame@));
                    self.control = Control::Execute(next);
                } else {
                    if scoped {
                        self.environment.exit_scope();
                    }
                    self.control = Control::Complete;
                }
            },
            Frame::Loop { condition, body, line } => {
                let again = copy_expr(&condition);
                self.push(Frame::LoopTest { condition, body, line });
                self.control = Control::Evaluate(again);
            },
            Frame::Call => {
                self.environment.exit_scope();
                self.control = Control::Value(Value::Null);
            },
            _ => {
                self.control = Control::Complete;
            },
        }
    }

    /// Lets an error or signal pass a frame, or be caught by it.
    fn unwind(&mut self, frame: Frame, e: ErrorType)
        requires
            fits_under(old(self)@, if scoped(frame@) { 1nat } else { 0nat }),
        ensures
            final(self)@ == unwind_spec(old(self)@.scopes, old(self)@.frames, frame@, e@),
            fits_under(final(self)@, 0),
    {
        match frame {
            Frame::Sequence { remaining, scoped } => {
                if scoped {
                    self.environment.exit_scope();
                }
                self.control = Control::Raise(e);
            },
            Frame::Loop { condition, body, line } => {
                match e {
                    ErrorType::ThrownBreak { line } => {
                        self.control = Control::Complete;
                    },
                    other => {
                        self.control = Control::Raise(other);
                    },
                }
            },
            Frame::Call => {
                self.environment.exit_scope();
                match e {
                    ErrorType::ThrownReturn { value, line } => {
                        self.control = Control::Value(value);
                    },
                    other => {
                        self.control = Control::Raise(other);
                    },
                }
            },
            _ => {
                self.control = Control::Raise(e);
            },
        }
    }

    fn expects_value(frame: &Frame) -> (r: bool)
        ensures
            r == takes_value(frame@),
    {
        match frame {
            Frame::Operands { .. } => true,
            Frame::Branch { .. } => true,
            Frame::LoopTest { .. } => true,
            Frame::Finish { .. } => true,
            _ => false,
        }
    }

    /// What the host's answer to a request makes the machine do next.
    fn answer(request: &Request, event: Event, line: usize) -> (r: Option<Control>)
        ensures
            match answered(request@, event@, line) {
                Some(control) => r matches Some(found) && found@ == control && !(control is Idle),
                None => r is None,
            },
    {
        match request {
            Request::Print(_) => match event {
                Event::Resume => Some(Control::Complete),
                _ => None,
            },
            Request::Input(_) => match event {
                Event::Text(text) => Some(Control::Value(Value::String_(strip_line_end(text)))),
                _ => None,
            },
            Request::Calculate(_, _, _) => match event {
                Event::Number(x) => Some(Control::Value(Value::Number(x))),
                _ => None,
            },
            Request::ParseNumber(_) => match event {
                Event::Number(x) => Some(Control::Value(Value::Number(x))),
                Event::NotANumber => Some(Control::Raise(ErrorType::CannotConvertToNumber { line })),
                _ => None,
            },
            Request::FormatNumber(_) => match event {
                Event::Text(text) => Some(Control::Value(Value::String_(text))),
                _ => None,
            },
            Request::Count(_) => match event {
                Event::Number(x) => Some(Control::Value(Value::Number(x))),
                _ => None,
            },
        }
    }

    /// Says what a step ends in once its work is done.
    fn settle(&mut self) -> (action: Action)
        ensures
            (final(self)@, action@) == settle_spec(old(self)@),
    {
        let mut control = Control::Idle;
        core::mem::swap(&mut self.control, &mut control);
        let empty = self.frames.len() == 0;
        match control {
            Control::Await(request, line) => {
                let again = request.clone();
                self.control = Control::Await(request, line);
                Action::Ask(again)
            },
            Control::Raise(e) => {
                if empty {
                    Action::Finished(Err(e))
                } else {
                    self.control = Control::Raise(e);
                    Action::Continue
                }
            },
            Control::Complete => {
                if empty {
                    Action::Finished(Ok(()))
                } else {
                    self.control = Control::Complete;
                    Action::Continue
                }
            },
            Control::Value(v) => {
                if empty {
                    Action::Finished(Ok(()))
                } else {
                    self.control = Control::Value(v);
                    Action::Continue
                }
            },
            Control::Idle => Action::Finished(Ok(())),
            other => {
                self.control = other;
                Action::Continue
            },
        }
    }

    /// Takes the innermost frame off the stack.
    fn pop(&mut self) -> (r: Option<Frame>)
        requires
            fits_under(old(self)@, 0),
        ensures
            final(self)@.scopes == old(self)@.scopes,
            final(self)@.control == old(self)@.control,
            match r {
                Some(frame) => {
                    &&& old(self)@.frames.len() > 0
                    &&& frame@ == old(self)@.frames.last()
                    &&& final(self)@.frames == old(self)@.frames.drop_last()
                    &&& frame_fits(frame@)
                    &&& fits_under(final(self)@, if scoped(frame@) { 1nat } else { 0nat })
                },
                None => old(self)@.frames.len() == 0 && final(self)@.frames == old(self)@.frames,
            },
    {
        let ghost before = frames_view(self.frames@);
        let r = self.frames.pop();
        proof {
            if r is Some {
                assert(frames_view(self.frames@) =~= before.drop_last());
                assert(before.last() == r->Some_0@);
                assert(frame_fits(before[before.len() - 1]));
                assert forall|i: int| 0 <= i < frames_view(self.frames@).len() implies frame_fits(
                    #[trigger] frames_view(self.frames@)[i],
                ) by {
                    assert(frames_view(self.frames@)[i] == before[i]);
                }
            } else {
                assert(frames_view(self.frames@) =~= before);
            }
        }
        r
    }

    /// A machine with the built-in functions in its base scope and no program.
    fn new() -> (r: Machine)
        ensures
            r@ == initial(),
            machine_fits(r@),
    {
        let r = Machine { environment: Environment::new(), frames: Vec::new(), control: Control::Idle };
        assert(frames_view(r.frames@) =~= Seq::<FrameView>::empty());
        r
    }

    /// Loads a program.
    fn load(&mut self, ast: Vec<Stmt>)
        requires
            machine_fits(old(self)@),
        ensures
            final(self)@ == loaded(old(self)@, stmts_view(ast@)),
            machine_fits(final(self)@),
    {
        while self.environment.depth() > 1
            invariant
                self.environment@.len() >= 1,
                self.environment@.len() <= old(self).environment@.len(),
                self.environment@ == old(self).environment@.subrange(0, self.environment@.len() as int),
            decreases self.environment@.len(),
        {
            let ghost before = self.environment@;
            self.environment.exit_scope();
            assert(self.environment@ =~= old(self).environment@.subrange(0, self.environment@.len() as int));
        }
        self.frames.clear();
        let frame = Frame::Sequence { remaining: reverse_stmts(ast), scoped: false };
        proof {
            lemma_count_push(frames_view(self.frames@), frame@);
            assert(frames_view(self.frames@) =~= Seq::<FrameView>::empty());
        }
        self.frames.push(frame);
        assert(frames_view(self.frames@) =~= seq![frame@]);
        self.control = Control::Complete;
    }

    /// Whether no program is running.
    fn is_idle(&self) -> (r: bool)
        ensures
            r == (self@.control is Idle),
    {
        match &self.control {
            Control::Idle => true,
            _ => false,
        }
    }

    /// The value bound to `name` in the innermost scope that binds it.
    fn get(&self, name: String, line: usize) -> (r: Result<Value, ErrorType>)
        ensures
            match resolve(self@.scopes, name@) {
                Some(v) => r matches Ok(found) && found@ == v,
                None => r matches Err(e) && e@ == (ErrorView::NameError { name: name@, line }),
            },
    {
        self.environment.get(name, line)
    }

    /// Does one step.
    #[verifier::spinoff_prover]
    fn step(&mut self, event: Event) -> (action: Action)
        requires
            machine_fits(old(self)@),
        ensures
            (final(self)@, action@) == step_spec(old(self)@, event@),
            machine_fits(final(self)@),
            action@ is Finished ==> final(self)@.control is Idle && final(self)@.frames.len() == 0,
            action@ is Finished ==> final(self)@.scopes.len() == 1,
    {
        proof {
            if !(self@.control is Idle) {
                lemma_advance_runs(self@);
            }
        }
        let mut control = Control::Idle;
        core::mem::swap(&mut self.control, &mut control);
        match control {
            Control::Idle => Action::Finished(Ok(())),
            Control::Await(request, line) => {
                match Self::answer(&request, event, line) {
                    Some(next) => {
                        self.control = next;
                        Action::Continue
                    },
                    None => {
                        let again = request.clone();
                        self.control = Control::Await(request, line);
                        Action::Ask(again)
                    },
                }
            },
            Control::Execute(s) => {
                self.execute(s);
                self.settle()
            },
            Control::Evaluate(e) => {
                self.evaluate(e);
                self.settle()
            },
            Control::Value(v) => {
                match self.pop() {
                    Some(frame) => {
                        if Self::expects_value(&frame) {
                            self.take(frame, v);
                        } else {
                            self.done(frame);
                        }
                    },
                    None => {
                        self.control = Control::Value(v);
                    },
                }
                self.settle()
            },
            Control::Complete => {
                match self.pop() {
                    Some(frame) => {
                        if Self::expects_value(&frame) {
                            self.take(frame, Value::Null);
                        } else {
                            self.done(frame);
                        }
                    },
                    None => {
                        self.control = Control::Complete;
                    },
                }
                self.settle()
            },
            Control::Raise(e) => {
                match self.pop() {
                    Some(frame) => {
                        self.unwind(frame, e);
                    },
                    None => {
                        self.control = Control::Raise(e);
                    },
                }
                self.settle()
            },
        }
    }
}

impl Machine {
    /// A machine of one empty scope, to stand in for one that is being worked on.
    fn idle() -> (r: Machine)
        ensures
            machine_fits(r@),
    {
        let r = Machine { environment: Environment::bare(), frames: Vec::new(), control: Control::Idle };
        assert(frames_view(r.frames@) =~= Seq::<FrameView>::empty());
        r
    }
}

impl Interpreter {
    /// What holds of every evaluator.
    #[verifier::type_invariant]
    closed spec fn sound(self) -> bool {
        machine_fits(self.machine@)
    }

    /// The state of the machine.
    pub closed spec fn view(&self) -> MachineView {
        self.machine@
    }

    /// Takes the machine out for work on it.
    fn take(&mut self) -> (machine: Machine)
        ensures
            machine_fits(machine@),
            machine@ == old(self)@,
    {
        proof {
            use_type_invariant(&*self);
        }
        let mut machine = Machine::idle();
        core::mem::swap(&mut self.machine, &mut machine);
        machine
    }

    /// Puts a machine back.
    fn put(&mut self, machine: Machine)
        requires
            machine_fits(machine@),
        ensures
            final(self)@ == machine@,
    {
        self.machine = machine;
    }

    /// An evaluator with the built-in functions in its base scope and no program.
    pub fn new() -> (r: Interpreter)
        ensures
            r@ == initial(),
    {
        Interpreter { machine: Machine::new() }
    }

    /// Loads a program: its statements are executed in turn by the steps that
    /// follow. A program that was running is dropped, with its scopes; what is
    /// bound in the base scope stays.
    pub fn interpret(&mut self, ast: Vec<Stmt>)
        ensures
            final(self)@ == loaded(old(self)@, stmts_view(ast@)),
            machine_fits(old(self)@),
    {
        let mut machine = self.take();
        machine.load(ast);
        self.put(machine);
    }

    /// Whether no program is running.
    pub fn is_idle(&self) -> (r: bool)
        ensures
            r == (self@.control is Idle),
    {
        self.machine.is_idle()
    }

    /// The value bound to `name` in the innermost scope that binds it.
    pub fn get(&self, name: String, line: usize) -> (r: Result<Value, ErrorType>)
        ensures
            match resolve(self@.scopes, name@) {
                Some(v) => r matches Ok(found) && found@ == v,
                None => r matches Err(e) && e@ == (ErrorView::NameError { name: name@, line }),
            },
    {
        self.machine.get(name, line)
    }

    /// Does one step. A machine that waits for the host takes the event for the
    /// answer to its request; any other machine does one piece of work. The step
    /// ends in `Continue` where there is more to do, in a request to the host, or
    /// in `Finished` when no frame is left: then the machine is idle, and all
    /// scopes but the base scope have been left, whether the program came to its
    /// end or was stopped by an error.
    pub fn step(&mut self, event: Event) -> (action: Action)
        ensures
            (final(self)@, action@) == step_spec(old(self)@, event@),
            machine_fits(old(self)@),
            machine_fits(final(self)@),
            action@ is Finished ==> final(self)@.control is Idle && final(self)@.frames.len() == 0,
            action@ is Finished ==> final(self)@.scopes.len() == 1,
    {
        let mut machine = self.take();
        let action = machine.step(event);
        self.put(machine);
        action
    }
}

} // verus!
