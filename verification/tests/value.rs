use nea::environment::index_value_to_usize;
use nea::error::ErrorType;
use nea::host::Piece;
use nea::number::Number;
use nea::operations::{display, strip_line_end, text_before};
use nea::sorting::merge_sort;
use nea::value::{BuiltinFunction, Value};

fn bits(x: f64) -> Number {
    Number::from_bits(x.to_bits())
}

fn value(x: f64) -> Value {
    Value::Number(bits(x))
}

#[test]
fn type_names() {
    assert_eq!(value(1.0).type_to_string(), "Number");
    assert_eq!(Value::String_(String::new()).type_to_string(), "String");
    assert_eq!(Value::Bool(true).type_to_string(), "Boolean");
    assert_eq!(Value::Array(vec![]).type_to_string(), "Array");
    assert_eq!(Value::Dictionary(nea::hash_table::HashTable::new()).type_to_string(), "Dictionary");
    assert_eq!(Value::BuiltinFunction(BuiltinFunction::Sort).type_to_string(), "Function");
    assert_eq!(Value::Null.type_to_string(), "Null");
}

#[test]
fn number_comparisons_follow_the_floats() {
    let samples = [
        0.0, -0.0, 1.0, -1.0, 0.5, -0.5, 1e300, -1e300, 5e-324, -5e-324, f64::INFINITY, f64::NEG_INFINITY, f64::NAN,
        2.0, 3.5, 1e-10, 9007199254740993.0,
    ];
    for a in samples {
        for b in samples {
            assert_eq!(bits(a).equals(&bits(b)), a == b, "{} == {}", a, b);
            assert_eq!(bits(a) == bits(b), a == b, "{} == {}", a, b);
            assert_eq!(bits(a).less_than(&bits(b)), a < b, "{} < {}", a, b);
        }
        assert_eq!(bits(a).is_nan(), a.is_nan());
        assert_eq!(bits(a).is_zero(), a == 0.0);
        assert_eq!(bits(a).negated().to_bits(), (-a).to_bits());
    }
    assert_eq!(Number::one().to_bits(), 1.0f64.to_bits());
    assert_eq!(Number::zero().to_bits(), 0.0f64.to_bits());
}

#[test]
fn naturals_follow_the_floats() {
    let samples = [
        0.0, -0.0, 1.0, 2.0, 3.0, 255.0, 4294967296.0, 9007199254740992.0, 9007199254740994.0, 1e19, 1.8e19,
        1.8446744073709552e19, 1e300, 0.5, 1.5, 1e-300, 5e-324, -1.0, -2.5, f64::INFINITY, f64::NEG_INFINITY,
        f64::NAN, 123456789.0, 123456789.25,
    ];
    for x in samples {
        let expected = if x >= 0.0 && x.fract() == 0.0 { Some(x as u64) } else { None };
        assert_eq!(bits(x).to_natural(), expected, "{}", x);
    }
}

#[test]
fn index_of_a_value() {
    assert_eq!(index_value_to_usize(&value(3.0), 1), Ok(3));
    assert_eq!(index_value_to_usize(&value(-0.0), 1), Ok(0));
    assert_eq!(index_value_to_usize(&value(1e300), 1), Ok(usize::MAX));
    assert_eq!(index_value_to_usize(&value(2.5), 4), Err(ErrorType::NonNaturalIndex { got: value(2.5), line: 4 }));
    assert_eq!(
        index_value_to_usize(&Value::Bool(true), 5),
        Err(ErrorType::NonNumberIndex { got: String::from("Boolean"), line: 5 })
    );
}

#[test]
fn display_pieces() {
    assert_eq!(display(&value(1.5)), vec![Piece::Number(bits(1.5))]);
    assert_eq!(display(&Value::Null), vec![Piece::Text(String::from("null"))]);
    assert_eq!(
        display(&Value::Array(vec![value(1.0), Value::Bool(false)])),
        vec![
            Piece::Text(String::from("[")),
            Piece::Number(bits(1.0)),
            Piece::Text(String::from(", ")),
            Piece::Text(String::from("false")),
            Piece::Text(String::from("]")),
        ]
    );
}

#[test]
fn text_order() {
    assert!(text_before("a", "b"));
    assert!(text_before("", "a"));
    assert!(text_before("ab", "b"));
    assert!(text_before("Z", "a"));
    assert!(!text_before("a", "a"));
    assert!(!text_before("b", "a"));
    assert!(!text_before("a", ""));
    for (a, b) in [("é", "z"), ("z", "é"), ("日本", "日月"), ("a", "é")] {
        assert_eq!(text_before(a, b), a < b, "{} < {}", a, b);
    }
}

#[test]
fn line_ends_are_stripped() {
    assert_eq!(strip_line_end(String::from("abc\n")), "abc");
    assert_eq!(strip_line_end(String::from("abc\r\n")), "abc");
    assert_eq!(strip_line_end(String::from("abc")), "abc");
    assert_eq!(strip_line_end(String::from(" a \n")), " a ");
    assert_eq!(strip_line_end(String::from("\n")), "");
    assert_eq!(strip_line_end(String::from("")), "");
}

#[test]
fn sort_is_a_stable_ascending_permutation() {
    let input: Vec<Value> = [3.0, -1.0, 2.0, 0.0, -0.0, 2.0, 10.5, f64::NEG_INFINITY].iter().map(|x| value(*x)).collect();
    let sorted = merge_sort(&input, 1).unwrap();
    let got: Vec<u64> = sorted.iter().map(|v| match v { Value::Number(x) => x.to_bits(), _ => panic!() }).collect();
    let want: Vec<u64> = [f64::NEG_INFINITY, -1.0, 0.0, -0.0, 2.0, 2.0, 3.0, 10.5].iter().map(|x| x.to_bits()).collect();
    assert_eq!(got, want);
    assert_eq!(merge_sort(&vec![], 1), Ok(vec![]));
    assert_eq!(merge_sort(&vec![Value::Null], 1), Ok(vec![Value::Null]));
}

#[test]
fn sort_refuses_what_cannot_be_compared() {
    let error = merge_sort(&vec![value(1.0), value(2.0), Value::Null, value(3.0)], 9).unwrap_err();
    assert_eq!(
        error,
        ErrorType::BinaryTypeError {
            expected: String::from("Number or String"),
            got_left: String::from("Null"),
            got_right: String::from("Number"),
            line: 9
        }
    );
    assert!(merge_sort(&vec![Value::Bool(true), Value::Bool(false)], 1).is_err());
}

#[test]
fn values_compare_as_the_language_does() {
    assert_eq!(value(0.0), value(-0.0));
    assert_ne!(value(f64::NAN), value(f64::NAN));
    assert_ne!(value(1.0), Value::Bool(true));
    assert_eq!(Value::Array(vec![value(1.0), Value::Null]), Value::Array(vec![value(1.0), Value::Null]));
    assert_ne!(Value::Array(vec![value(1.0)]), Value::Array(vec![value(1.0), Value::Null]));
    assert_eq!(Value::BuiltinFunction(BuiltinFunction::Size), Value::BuiltinFunction(BuiltinFunction::Size));
    assert_ne!(Value::BuiltinFunction(BuiltinFunction::Size), Value::BuiltinFunction(BuiltinFunction::Sort));
    assert_eq!(value(2.0).clone(), value(2.0));
}
