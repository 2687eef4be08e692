use nea::environment::{Environment, Pointer};
use nea::error::ErrorType;
use nea::number::Number;
use nea::value::Value;

fn number(x: f64) -> Value {
    Value::Number(Number::from_bits(x.to_bits()))
}


#[test]
fn one_scope() {
    //  var a = 5
    //  var b = [true, "hello world!"]
    //  b = "abc"
    let mut env = Environment::new();
    env.declare(String::from("a"), &number(5.0));
    env.declare(String::from("b"), &Value::Array(vec![Value::Bool(true), Value::String_(String::from("hello world!"))]));
    assert_eq!(env.get(String::from("a"), 1), Ok(number(5.0)));
    assert_eq!(env.get(String::from("b"), 1), Ok(Value::Array(vec![Value::Bool(true), Value::String_(String::from("hello world!"))])));

    let _ = env.update(&Pointer { name: String::from("b"), indices: vec![] }, &Value::String_(String::from("abc")), 1);
    assert_eq!(env.get(String::from("a"), 1), Ok(number(5.0)));
    assert_eq!(env.get(String::from("b"), 1), Ok(Value::String_(String::from("abc"))));
}

#[test]
fn many_scopes() {
    //  var a = 1
    //  var b = 2
    //  {
    //      a = 10
    //      "a == 10?"
    //      var b = 20
    //      "b == 20?"
    //      {
    //          b = 30
    //          "b == 30?"
    //      }
    //      "b == 30?"
    //  }
    //  "a == 10?"
    //  "b = 2?"
    let mut env = Environment::new();
    env.declare(String::from("a"), &number(1.0));
    env.declare(String::from("b"), &number(2.0));

    env.new_scope();
    let _ = env.update(&Pointer { name: String::from("a"), indices: vec![] }, &number(10.0), 1);
    env.declare(String::from("b"), &number(20.0));
    assert_eq!(env.get(String::from("a"), 1), Ok(number(10.0)));
    assert_eq!(env.get(String::from("b"), 1), Ok(number(20.0)));

    env.new_scope();
    let _ = env.update(&Pointer { name: String::from("b"), indices: vec![] }, &number(30.0), 1);
    assert_eq!(env.get(String::from("b"), 1), Ok(number(30.0)));

    env.exit_scope();
    assert_eq!(env.get(String::from("b"), 1), Ok(number(30.0)));

    env.exit_scope();
    assert_eq!(env.get(String::from("a"), 1), Ok(number(10.0)));
    assert_eq!(env.get(String::from("b"), 1), Ok(number(2.0)));
}

#[test]
fn name_error_get() {
    let env = Environment::new();
    assert_eq!(env.get(String::from("b"), 1), Err(ErrorType::NameError { name: String::from("b"), line: 1 }));
}

#[test]
fn name_error_assign() {
    let mut env = Environment::new();
    assert_eq!(env.update(&Pointer { name: String::from("b"), indices: vec![] }, &Value::Null, 1), Err(ErrorType::NameError { name: String::from("b"), line: 1 }));
}

#[test]
fn declare_twice() {
    let mut env = Environment::new();
    env.declare(String::from("b"), &number(123.0));
    env.declare(String::from("b"), &number(55.0));
    assert_eq!(env.get(String::from("b"), 1), Ok(number(55.0)));
}

#[test]
fn scopes_are_restored() {
    let mut env = Environment::new();
    env.declare(String::from("a"), &number(1.0));
    env.new_scope();
    env.declare(String::from("a"), &number(2.0));
    env.new_scope();
    env.new_scope();
    env.declare(String::from("b"), &number(3.0));
    env.exit_scope();
    env.exit_scope();
    env.exit_scope();
    assert_eq!(env.depth(), 1);
    assert_eq!(env.get(String::from("a"), 1), Ok(number(1.0)));
    assert_eq!(env.get(String::from("b"), 2), Err(ErrorType::NameError { name: String::from("b"), line: 2 }));
}

#[test]
fn base_scope_holds_the_builtins() {
    let env = Environment::new();
    for (name, function) in [
        ("append", nea::value::BuiltinFunction::Append),
        ("input", nea::value::BuiltinFunction::Input),
        ("remove", nea::value::BuiltinFunction::Remove),
        ("size", nea::value::BuiltinFunction::Size),
        ("sort", nea::value::BuiltinFunction::Sort),
        ("to_number", nea::value::BuiltinFunction::ToNumber),
        ("to_string", nea::value::BuiltinFunction::ToString),
    ] {
        assert_eq!(env.get(String::from(name), 1), Ok(Value::BuiltinFunction(function)));
    }
}

#[test]
fn update_through_indices() {
    let mut env = Environment::new();
    env.declare(String::from("a"), &Value::Array(vec![number(1.0), Value::String_(String::from("xyz"))]));
    assert_eq!(env.update(&Pointer { name: String::from("a"), indices: vec![number(0.0)] }, &number(9.0), 1), Ok(()));
    assert_eq!(
        env.update(&Pointer { name: String::from("a"), indices: vec![number(1.0), number(2.0)] }, &Value::String_(String::from("!")), 1),
        Ok(())
    );
    assert_eq!(env.get(String::from("a"), 1), Ok(Value::Array(vec![number(9.0), Value::String_(String::from("xy!"))])));
    assert_eq!(
        env.update(&Pointer { name: String::from("a"), indices: vec![number(2.0)] }, &number(0.0), 3),
        Err(ErrorType::OutOfBoundsIndex { index: 2, line: 3 })
    );
    assert_eq!(
        env.update(&Pointer { name: String::from("a"), indices: vec![number(0.0), number(0.0)] }, &number(0.0), 3),
        Err(ErrorType::NotIndexable { line: 3 })
    );
    assert_eq!(env.get(String::from("a"), 1), Ok(Value::Array(vec![number(9.0), Value::String_(String::from("xy!"))])));
}

#[test]
fn what_inner_scopes_declare_and_update_is_gone_after_them() {
    let mut env = Environment::new();
    env.declare(String::from("a"), &number(1.0));
    env.declare(String::from("list"), &Value::Array(vec![number(1.0), number(2.0)]));
    env.new_scope();
    env.declare(String::from("a"), &number(2.0));
    env.declare(String::from("list"), &Value::Array(vec![number(7.0)]));
    env.declare(String::from("c"), &Value::Bool(true));
    assert_eq!(env.update(&Pointer { name: String::from("a"), indices: vec![] }, &number(3.0), 1), Ok(()));
    assert_eq!(env.update(&Pointer { name: String::from("list"), indices: vec![number(0.0)] }, &number(8.0), 1), Ok(()));
    assert_eq!(
        env.update(&Pointer { name: String::from("missing"), indices: vec![] }, &number(3.0), 4),
        Err(ErrorType::NameError { name: String::from("missing"), line: 4 })
    );
    env.new_scope();
    env.declare(String::from("d"), &Value::Null);
    assert_eq!(env.update(&Pointer { name: String::from("c"), indices: vec![] }, &Value::Bool(false), 1), Ok(()));
    assert_eq!(env.get(String::from("a"), 1), Ok(number(3.0)));
    assert_eq!(env.get(String::from("list"), 1), Ok(Value::Array(vec![number(8.0)])));
    env.exit_scope();
    assert_eq!(env.get(String::from("c"), 1), Ok(Value::Bool(false)));
    env.exit_scope();
    assert_eq!(env.depth(), 1);
    assert_eq!(env.get(String::from("a"), 1), Ok(number(1.0)));
    assert_eq!(env.get(String::from("list"), 1), Ok(Value::Array(vec![number(1.0), number(2.0)])));
    for name in ["c", "d", "missing"] {
        assert_eq!(env.get(String::from(name), 2), Err(ErrorType::NameError { name: String::from(name), line: 2 }));
    }
    for name in ["append", "input", "remove", "size", "sort", "to_number", "to_string"] {
        assert!(env.get(String::from(name), 1).is_ok());
    }
}
