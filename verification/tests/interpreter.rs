use nea::error::ErrorType;
use nea::host::{Action, Event, Operation, Piece, Request};
use nea::interpreter::Interpreter;
use nea::number::Number;
use nea::parser::Parser;
use nea::tokenizer::tokenize;
use nea::value::Value;

fn number_of(bits: Number) -> f64 {
    f64::from_bits(bits.to_bits())
}

fn bits_of(x: f64) -> Number {
    Number::from_bits(x.to_bits())
}

fn text_of(pieces: &[Piece]) -> String {
    let mut out = String::new();
    for piece in pieces {
        match piece {
            Piece::Text(text) => out.push_str(text),
            Piece::Number(x) => out.push_str(&format!("{}", number_of(*x))),
        }
    }
    out
}

fn answer(request: Request, output: &mut String, input: &mut Vec<String>) -> Event {
    match request {
        Request::Print(pieces) => {
            output.push_str(&text_of(&pieces));
            output.push('\n');
            Event::Resume
        }
        Request::Input(pieces) => {
            output.push_str(&text_of(&pieces));
            if input.is_empty() {
                Event::Text(String::new())
            } else {
                Event::Text(input.remove(0))
            }
        }
        Request::Calculate(operation, a, b) => {
            let (a, b) = (number_of(a), number_of(b));
            Event::Number(bits_of(match operation {
                Operation::Add => a + b,
                Operation::Subtract => a - b,
                Operation::Multiply => a * b,
                Operation::Divide => a / b,
                Operation::Remainder => a % b,
            }))
        }
        Request::ParseNumber(text) => match text.parse::<f64>() {
            Ok(x) => Event::Number(bits_of(x)),
            Err(_) => Event::NotANumber,
        },
        Request::FormatNumber(x) => Event::Text(format!("{}", number_of(x))),
        Request::Count(n) => Event::Number(bits_of(n as f64)),
    }
}

fn run_on(interpreter: &mut Interpreter, source: &str, lines: &[&str]) -> (String, Result<(), ErrorType>) {
    let tokens = tokenize(source).expect("the source has tokens");
    let ast = Parser::new(tokens).parse().expect("the source parses");
    let mut input: Vec<String> = lines.iter().map(|line| line.to_string()).collect();
    let mut output = String::new();
    interpreter.interpret(ast);
    let mut event = Event::Resume;
    let mut steps = 0;
    loop {
        steps += 1;
        assert!(steps < 1_000_000, "the program does not end");
        match interpreter.step(event) {
            Action::Continue => event = Event::Resume,
            Action::Ask(request) => event = answer(request, &mut output, &mut input),
            Action::Finished(result) => return (output, result),
        }
    }
}

fn run(source: &str) -> (String, Result<(), ErrorType>) {
    run_on(&mut Interpreter::new(), source, &[])
}

fn prints(source: &str) -> String {
    let (output, result) = run(source);
    assert_eq!(result, Ok(()));
    output
}

fn fails(source: &str) -> ErrorType {
    run(source).1.expect_err("the program fails")
}

#[test]
fn prints_a_sum() {
    assert_eq!(prints("var a = 5 print a+2"), "7\n");
}

#[test]
fn assigns_to_an_element() {
    assert_eq!(prints("var a = [1,2,3] a[1] = 9 print a"), "[1, 9, 3]\n");
}

#[test]
fn calls_itself() {
    assert_eq!(
        prints("func f(n) { if (n < 2) { return n } return f(n-1)+f(n-2) } print f(10)"),
        "55\n"
    );
}

#[test]
fn dictionary_grows_by_assignment() {
    assert_eq!(prints("var d = {\"x\": 1} d[\"y\"] = 2 print size(d)"), "2\n");
}

#[test]
fn break_leaves_the_loop() {
    assert_eq!(
        prints("var i = 0 while (i < 3) { if (i == 2) { break } i = i + 1 } print i"),
        "2\n"
    );
}

#[test]
fn sorts_numbers() {
    assert_eq!(prints("print sort([3,1,2])"), "[1, 2, 3]\n");
}

#[test]
fn sorts_strings() {
    assert_eq!(prints("print sort([\"pear\", \"apple\", \"fig\", \"apple\"])"), "[apple, apple, fig, pear]\n");
}

#[test]
fn sort_refuses_mixed_kinds() {
    assert_eq!(
        fails("print sort([1, \"a\"])"),
        ErrorType::BinaryTypeError {
            expected: String::from("Number or String"),
            got_left: String::from("Number"),
            got_right: String::from("String"),
            line: 1,
        }
    );
    assert_eq!(prints("print sort([true])"), "[true]\n");
}

#[test]
fn for_loop_counts() {
    assert_eq!(prints("for (var i = 0; i < 3; i = i + 1) { print i }"), "0\n1\n2\n");
}

#[test]
fn displays_values() {
    assert_eq!(prints("print [1, \"a\", true, null, [2.5]]"), "[1, a, true, null, [2.5]]\n");
    assert_eq!(prints("print {1: \"one\"}"), "{1: one}\n");
    assert_eq!(prints("print {}"), "{}\n");
    assert_eq!(prints("func f() {} print f print size"), "<function>\n<function>\n");
}

#[test]
fn operators_on_numbers_and_strings() {
    assert_eq!(prints("print 7 - 2 * 3"), "1\n");
    assert_eq!(prints("print 7 / 2"), "3.5\n");
    assert_eq!(prints("print 7 % 4"), "3\n");
    assert_eq!(prints("print \"ab\" + \"cd\""), "abcd\n");
    assert_eq!(prints("print 1 < 2 print 2 <= 2 print 3 > 4 print 4 >= 5"), "true\ntrue\nfalse\nfalse\n");
    assert_eq!(prints("print \"a\" < \"b\" print \"b\" < \"a\" print \"a\" < \"ab\" print \"a\" >= \"a\""), "true\nfalse\ntrue\ntrue\n");
    assert_eq!(prints("print -3 print !true"), "-3\nfalse\n");
    assert_eq!(prints("print true and false print true or false"), "false\ntrue\n");
    assert_eq!(prints("print 1 == 1.0 print 1 != 2 print [1, 2] == [1, 2] print \"1\" == 1"), "true\ntrue\ntrue\nfalse\n");
}

#[test]
fn zero_equals_minus_zero() {
    assert_eq!(prints("print 0 == -0"), "true\n");
    assert_eq!(prints("print -0 < 0"), "false\n");
}

#[test]
fn both_operands_are_evaluated() {
    assert_eq!(
        prints("func f() { print 1 return true } func g() { print 2 return false } print f() or g()"),
        "1\n2\ntrue\n"
    );
}

#[test]
fn division_by_zero_is_refused() {
    assert_eq!(fails("print 1 / 0"), ErrorType::DivideByZero { line: 1 });
    assert_eq!(fails("print 1 /\n -0"), ErrorType::DivideByZero { line: 2 });
}

#[test]
fn type_errors_of_operators() {
    assert_eq!(
        fails("print 1 + \"a\""),
        ErrorType::BinaryTypeError {
            expected: String::from("Number or String"),
            got_left: String::from("Number"),
            got_right: String::from("String"),
            line: 1,
        }
    );
    assert_eq!(
        fails("print 1 and true"),
        ErrorType::BinaryTypeError {
            expected: String::from("Boolean"),
            got_left: String::from("Number"),
            got_right: String::from("Boolean"),
            line: 1,
        }
    );
    assert_eq!(
        fails("print null * 2"),
        ErrorType::BinaryTypeError {
            expected: String::from("Number"),
            got_left: String::from("Null"),
            got_right: String::from("Number"),
            line: 1,
        }
    );
    assert_eq!(
        fails("print !1"),
        ErrorType::ExpectedType { expected: String::from("Boolean"), got: String::from("Number"), line: 1 }
    );
    assert_eq!(
        fails("print -\"a\""),
        ErrorType::ExpectedType { expected: String::from("Number"), got: String::from("String"), line: 1 }
    );
}

#[test]
fn conditions_have_to_be_boolean() {
    assert_eq!(fails("if (1) { print 1 }"), ErrorType::IfConditionNotBoolean { line: 1 });
    assert_eq!(fails("while (null) { print 1 }"), ErrorType::LoopConditionNotBoolean { line: 1 });
}

#[test]
fn if_takes_the_right_branch() {
    assert_eq!(prints("if (1 < 2) { print \"then\" } else { print \"else\" }"), "then\n");
    assert_eq!(prints("if (2 < 1) { print \"then\" } else { print \"else\" }"), "else\n");
    assert_eq!(prints("if (2 < 1) { print \"then\" } print \"after\""), "after\n");
    assert_eq!(prints("var a = 3 if (a == 1) { print 1 } else if (a == 3) { print 3 } else { print 0 }"), "3\n");
}

#[test]
fn names_have_to_be_declared() {
    assert_eq!(fails("print a"), ErrorType::NameError { name: String::from("a"), line: 1 });
    assert_eq!(fails("\na = 1"), ErrorType::NameError { name: String::from("a"), line: 2 });
}

#[test]
fn block_scope_ends_with_the_block() {
    assert_eq!(prints("var a = 1 if (true) { var a = 2 print a } print a"), "2\n1\n");
    assert_eq!(fails("if (true) { var b = 2 } print b"), ErrorType::NameError { name: String::from("b"), line: 1 });
    assert_eq!(prints("var a = 1 if (true) { a = 2 } print a"), "2\n");
}

#[test]
fn scope_is_left_when_an_error_passes() {
    let mut interpreter = Interpreter::new();
    let (_, result) = run_on(&mut interpreter, "var a = 1 if (true) { var a = 2 if (true) { var a = 3 print a + null } }", &[]);
    assert!(result.is_err());
    assert!(interpreter.is_idle());
    let (output, result) = run_on(&mut interpreter, "print a", &[]);
    assert_eq!(result, Ok(()));
    assert_eq!(output, "1\n");
}

#[test]
fn environment_outlives_a_program() {
    let mut interpreter = Interpreter::new();
    assert_eq!(run_on(&mut interpreter, "var a = 41 func next(n) { return n + 1 }", &[]).1, Ok(()));
    assert_eq!(run_on(&mut interpreter, "print next(a)", &[]), (String::from("42\n"), Ok(())));
    assert_eq!(interpreter.get(String::from("a"), 1), Ok(Value::Number(bits_of(41.0))));
}

#[test]
fn functions_return_null_without_return() {
    assert_eq!(prints("func f() { var a = 1 } print f()"), "null\n");
}

#[test]
fn functions_do_not_capture() {
    assert_eq!(
        fails("func outer() { var hidden = 1 func inner() { return hidden } return inner } var f = outer() print f()"),
        ErrorType::NameError { name: String::from("hidden"), line: 1 }
    );
}

#[test]
fn call_checks_the_number_of_arguments() {
    assert_eq!(
        fails("func f(a, b) { return a } print f(1)"),
        ErrorType::ArgParamNumberMismatch { arg_number: 1, param_number: 2, line: 1 }
    );
    assert_eq!(
        fails("print size()"),
        ErrorType::ArgParamNumberMismatch { arg_number: 0, param_number: 1, line: 1 }
    );
    assert_eq!(
        fails("var a = [] append(a)"),
        ErrorType::ArgParamNumberMismatch { arg_number: 1, param_number: 2, line: 1 }
    );
    assert_eq!(fails("var a = 1 a()"), ErrorType::CannotCallName { line: 1 });
}

#[test]
fn return_and_break_outside_their_place() {
    assert_eq!(fails("break"), ErrorType::ThrownBreak { line: 1 });
    assert_eq!(
        fails("return 1"),
        ErrorType::ThrownReturn { value: Value::Number(bits_of(1.0)), line: 1 }
    );
}

#[test]
fn return_leaves_loops_and_blocks() {
    assert_eq!(
        prints("func f() { var i = 0 while (true) { if (true) { if (i == 3) { return i } } i = i + 1 } } print f() print 1"),
        "3\n1\n"
    );
}

#[test]
fn indexing() {
    assert_eq!(prints("var a = [[1, 2], [3, 4]] print a[1][0]"), "3\n");
    assert_eq!(prints("var s = \"héllo\" print s[1] print size(s)"), "é\n5\n");
    assert_eq!(prints("var d = {\"k\": [1, 2]} print d[\"k\"][1]"), "2\n");
    assert_eq!(fails("var a = [1] print a[1]"), ErrorType::OutOfBoundsIndex { index: 1, line: 1 });
    assert_eq!(fails("var a = 1 print a[0]"), ErrorType::NotIndexable { line: 1 });
    assert_eq!(
        fails("var a = [1] print a[0.5]"),
        ErrorType::NonNaturalIndex { got: Value::Number(bits_of(0.5)), line: 1 }
    );
    assert_eq!(
        fails("var a = [1] print a[-1]"),
        ErrorType::NonNaturalIndex { got: Value::Number(bits_of(-1.0)), line: 1 }
    );
    assert_eq!(
        fails("var a = [1] print a[\"x\"]"),
        ErrorType::NonNumberIndex { got: String::from("String"), line: 1 }
    );
    assert_eq!(
        fails("var d = {} print d[1]"),
        ErrorType::KeyError { key: Value::Number(bits_of(1.0)), line: 1 }
    );
}

#[test]
fn nested_assignment() {
    assert_eq!(prints("var a = [[1, 2], {\"k\": [0]}] a[0][1] = 5 a[1][\"k\"][0] = 7 a[1][\"n\"] = 8 print a[0] print a[1][\"k\"] print a[1][\"n\"]"), "[1, 5]\n[7]\n8\n");
    assert_eq!(prints("var s = [\"abc\"] s[0][1] = \"x\" print s"), "[axc]\n");
    assert_eq!(fails("var s = \"abc\" s[1] = 1"), ErrorType::InsertNonStringIntoString { line: 1 });
    assert_eq!(fails("var s = \"abc\" s[1] = \"xy\""), ErrorType::InsertNonStringIntoString { line: 1 });
    assert_eq!(fails("var s = \"abc\" s[3] = \"x\""), ErrorType::OutOfBoundsIndex { index: 3, line: 1 });
    assert_eq!(fails("var a = [1] a[0][0] = 1"), ErrorType::NotIndexable { line: 1 });
    assert_eq!(prints("var a = 1 var b = 2 a = b = 3 print a + b"), "6\n");
}

#[test]
fn assignment_to_a_literal_is_skipped() {
    assert_eq!(prints("print [1, 2][0] = 5"), "5\n");
    assert_eq!(fails("1 = 2"), ErrorType::InvalidAssignmentTarget { line: 1 });
    assert_eq!(fails("append([1], 2)"), ErrorType::ThrownLiteralAssignment { line: 1 });
}

#[test]
fn append_and_remove() {
    assert_eq!(prints("var a = [1] print append(a, 2) print a"), "[1, 2]\n[1, 2]\n");
    assert_eq!(prints("var a = [[1]] append(a[0], 2) print a"), "[[1, 2]]\n");
    assert_eq!(prints("var a = [1, 2, 3] print remove(a, 1) print a"), "[1, 3]\n[1, 3]\n");
    assert_eq!(prints("var d = {1: 2, 3: 4} remove(d, 1) print d print size(d)"), "{3: 4}\n1\n");
    assert_eq!(
        fails("var a = 1 append(a, 2)"),
        ErrorType::ExpectedType { expected: String::from("Array"), got: String::from("Number"), line: 1 }
    );
    assert_eq!(
        fails("var a = \"s\" remove(a, 0)"),
        ErrorType::ExpectedType {
            expected: String::from("Array or Dictionary"),
            got: String::from("String"),
            line: 1
        }
    );
    assert_eq!(fails("var a = [1] remove(a, 1)"), ErrorType::OutOfBoundsIndex { index: 1, line: 1 });
    assert_eq!(
        fails("var d = {} remove(d, 1)"),
        ErrorType::KeyError { key: Value::Number(bits_of(1.0)), line: 1 }
    );
}

#[test]
fn conversions() {
    assert_eq!(prints("print to_number(true) + to_number(false) + to_number(\"2.5\") + to_number(4)"), "7.5\n");
    assert_eq!(prints("print to_string(1.5) + to_string(true) + to_string(\"s\")"), "1.5trues\n");
    assert_eq!(fails("print to_number(\"abc\")"), ErrorType::CannotConvertToNumber { line: 1 });
    assert_eq!(
        fails("print to_number(null)"),
        ErrorType::ExpectedType {
            expected: String::from("Boolean, Number or String"),
            got: String::from("Null"),
            line: 1
        }
    );
    assert_eq!(
        fails("print to_string([])"),
        ErrorType::ExpectedType {
            expected: String::from("Boolean, Number or String"),
            got: String::from("Array"),
            line: 1
        }
    );
    assert_eq!(
        fails("print size(1)"),
        ErrorType::ExpectedType {
            expected: String::from("Array, Dictionary, or String"),
            got: String::from("Number"),
            line: 1
        }
    );
    assert_eq!(
        fails("print sort(1)"),
        ErrorType::ExpectedType { expected: String::from("Array"), got: String::from("Number"), line: 1 }
    );
}

#[test]
fn input_reads_a_line() {
    let mut interpreter = Interpreter::new();
    let (output, result) = run_on(&mut interpreter, "var name = input(\"name? \") print \"hello \" + name", &["Ada\n"]);
    assert_eq!(result, Ok(()));
    assert_eq!(output, "name? hello Ada\n");
    let (output, _) = run_on(&mut interpreter, "print input(1) + \"|\"", &[" padded \r\n"]);
    assert_eq!(output, "1 padded |\n");
}

#[test]
fn dictionary_keys() {
    assert_eq!(prints("var d = {1: \"a\"} d[1.0] = \"b\" print size(d) print d[1]"), "1\nb\n");
    assert_eq!(prints("var d = {true: \"t\", 1: \"one\"} print size(d)"), "2\n");
    assert_eq!(prints("var d = {[1, 2]: \"pair\", null: 0} print d[[1, 2]]"), "pair\n");
    assert_eq!(fails("var d = {size: 1}"), ErrorType::CannotHashFunction { line: 1 });
    assert_eq!(fails("var d = {{}: 1}"), ErrorType::CannotHashDictionary { line: 1 });
    assert_eq!(fails("func f() {} var d = {} d[f] = 1"), ErrorType::CannotHashFunction { line: 1 });
}

#[test]
fn dictionary_error_comes_before_the_next_pair() {
    let (output, result) = run("func f() { print \"called\" return 1 } var d = {size: 1, f(): 2}");
    assert_eq!(result, Err(ErrorType::CannotHashFunction { line: 1 }));
    assert_eq!(output, "");
}

#[test]
fn dictionary_grows_past_its_first_buckets() {
    assert_eq!(
        prints("var d = {} for (var i = 0; i < 100; i = i + 1) { d[i] = i * 2 } print size(d) print d[0] + d[57] + d[99]"),
        "100\n312\n"
    );
}

#[test]
fn dictionaries_compare_by_their_pairs() {
    assert_eq!(prints("var a = {1: 2, 3: 4} var b = {3: 4, 1: 2} print a == b"), "true\n");
    assert_eq!(prints("var a = {1: 2, 3: 4} var b = {3: 4, 1: 5} print a == b print a != b"), "false\ntrue\n");
    assert_eq!(prints("var a = {1: 2} var b = {1: 2, 3: 4} print a == b"), "false\n");
}

#[test]
fn a_wrong_answer_is_asked_again() {
    let tokens = tokenize("print 1 + 2").unwrap();
    let ast = Parser::new(tokens).parse().unwrap();
    let mut interpreter = Interpreter::new();
    interpreter.interpret(ast);
    let mut action = interpreter.step(Event::Resume);
    while action == Action::Continue {
        action = interpreter.step(Event::Resume);
    }
    assert_eq!(action, Action::Ask(Request::ParseNumber(String::from("1"))));
    assert_eq!(interpreter.step(Event::Resume), Action::Ask(Request::ParseNumber(String::from("1"))));
    assert_eq!(interpreter.step(Event::Text(String::from("1"))), Action::Ask(Request::ParseNumber(String::from("1"))));
    assert_eq!(interpreter.step(Event::Number(bits_of(1.0))), Action::Continue);
}

#[test]
fn idle_machine_is_finished() {
    let mut interpreter = Interpreter::new();
    assert!(interpreter.is_idle());
    assert_eq!(interpreter.step(Event::Resume), Action::Finished(Ok(())));
    interpreter.interpret(Vec::new());
    assert!(!interpreter.is_idle());
    assert_eq!(interpreter.step(Event::Resume), Action::Finished(Ok(())));
    assert!(interpreter.is_idle());
}

#[test]
fn loading_drops_a_running_program() {
    let mut interpreter = Interpreter::new();
    let tokens = tokenize("var a = 1 if (true) { var a = 2 if (true) { var b = input(a) } }").unwrap();
    interpreter.interpret(Parser::new(tokens).parse().unwrap());
    let mut action = interpreter.step(Event::Resume);
    loop {
        match action {
            Action::Continue => action = interpreter.step(Event::Resume),
            Action::Ask(Request::ParseNumber(text)) => {
                action = interpreter.step(Event::Number(bits_of(text.parse::<f64>().unwrap())))
            }
            Action::Ask(Request::Input(_)) => break,
            other => panic!("unexpected {:?}", other),
        }
    }
    let (output, result) = run_on(&mut interpreter, "print a", &[]);
    assert_eq!(result, Ok(()));
    assert_eq!(output, "1\n");
}

#[test]
fn numbers_booleans_and_null_come_back_from_their_display() {
    for literal in ["0", "1.5", "12", "100.25", "0.1", "true", "false", "null"] {
        let shown = prints(&format!("print {}", literal));
        assert_eq!(prints(&format!("print {} == {}", shown.trim_end(), literal)), "true\n", "{}", literal);
    }
}

#[test]
fn null_is_displayed_as_its_keyword() {
    assert_eq!(prints("print null"), "null\n");
    assert_eq!(prints("print null == null"), "true\n");
    assert_eq!(prints("print {null: null}"), "{null: null}\n");
}

#[test]
fn strings_are_displayed_without_quotes() {
    assert_eq!(prints("print \"abc\""), "abc\n");
    assert_eq!(prints("var abc = \"abc\" print abc"), "abc\n");
    assert_eq!(prints("print [\"a b\", \"\"]"), "[a b, ]\n");
}

#[test]
fn errors_stop_the_program() {
    let (output, result) = run("print 1 print 1 + true print 2");
    assert_eq!(output, "1\n");
    assert!(result.is_err());
}

#[test]
fn while_condition_break_reaches_the_outer_loop() {
    assert_eq!(
        prints("func stop() { break } var n = 0 while (n < 3) { n = n + 1 while (stop()) { print \"never\" } print \"skipped\" } print n"),
        "1\n"
    );
}

#[test]
fn functions_of_one_text_are_equal() {
    assert_eq!(
        prints("func f() { return 1 } func g() { return 1.0 } func h() { return 2 } var k = f print f == k print f == h"),
        "true\nfalse\n"
    );
}
