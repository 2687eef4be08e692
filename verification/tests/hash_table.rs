use nea::error::ErrorType;
use nea::hash_table::{hash, HashTable, KeyValue};
use nea::number::Number;
use nea::value::{BuiltinFunction, Value};

fn num(x: f64) -> Value {
    Value::Number(Number::from_bits(x.to_bits()))
}

fn text(s: &str) -> Value {
    Value::String_(String::from(s))
}

#[test]
fn insert_then_get() {
    let mut table = HashTable::new();
    assert_eq!(table.insert(&text("k"), &num(1.0), 1), Ok(()));
    assert_eq!(table.get(&text("k"), 1), Ok(&num(1.0)));
    assert_eq!(table.size(), 1);
    assert_eq!(table.insert(&text("k"), &num(2.0), 1), Ok(()));
    assert_eq!(table.get(&text("k"), 1), Ok(&num(2.0)));
    assert_eq!(table.size(), 1);
}

#[test]
fn remove_then_get() {
    let mut table = HashTable::new();
    table.insert(&num(1.0), &text("one"), 1).unwrap();
    table.insert(&num(2.0), &text("two"), 1).unwrap();
    assert_eq!(table.remove(&num(1.0), 7), Ok(()));
    assert_eq!(table.get(&num(1.0), 8), Err(ErrorType::KeyError { key: num(1.0), line: 8 }));
    assert_eq!(table.get(&num(2.0), 8), Ok(&text("two")));
    assert_eq!(table.size(), 1);
    assert_eq!(table.remove(&num(1.0), 9), Err(ErrorType::KeyError { key: num(1.0), line: 9 }));
    assert_eq!(table.size(), 1);
}

#[test]
fn size_counts_distinct_keys() {
    let mut table = HashTable::new();
    for i in 0..200 {
        table.insert(&num(i as f64), &num(0.0), 1).unwrap();
        table.insert(&num((i / 2) as f64), &num(1.0), 1).unwrap();
    }
    assert_eq!(table.size(), 200);
    for i in 0..50 {
        table.remove(&num(i as f64), 1).unwrap();
    }
    assert_eq!(table.size(), 150);
    assert_eq!(table.flatten().len(), 150);
    for i in 50..200 {
        assert!(table.get(&num(i as f64), 1).is_ok());
    }
}

#[test]
fn unhashable_keys() {
    let mut table = HashTable::new();
    let function = Value::BuiltinFunction(BuiltinFunction::Size);
    let dictionary = Value::Dictionary(HashTable::new());
    assert_eq!(table.insert(&function, &num(1.0), 3), Err(ErrorType::CannotHashFunction { line: 3 }));
    assert_eq!(table.get(&dictionary, 4), Err(ErrorType::CannotHashDictionary { line: 4 }));
    assert_eq!(table.remove(&Value::Array(vec![num(1.0), dictionary]), 5), Err(ErrorType::CannotHashDictionary { line: 5 }));
    assert_eq!(table.size(), 0);
}

#[test]
fn one_and_one_point_zero_collide() {
    let mut table = HashTable::new();
    table.insert(&num(1.0), &text("a"), 1).unwrap();
    table.insert(&num("1.0".parse::<f64>().unwrap()), &text("b"), 1).unwrap();
    table.insert(&Value::Bool(true), &text("c"), 1).unwrap();
    assert_eq!(table.size(), 2);
    assert_eq!(table.get(&num(1.0), 1), Ok(&text("b")));
    assert_eq!(table.get(&Value::Bool(true), 1), Ok(&text("c")));
}

#[test]
fn hashes_of_scalars() {
    assert_eq!(hash(&Value::Null, 300, 1), Ok((3, 299)));
    assert_eq!(hash(&Value::Bool(true), 300, 1), Ok((1, 299)));
    assert_eq!(hash(&Value::Bool(false), 5, 1), Ok((2, 4)));
    // 1.0 is 0x3FF0000000000000; without its twelve lowest bits it is 0x3FF0000000000.
    let x: usize = (0x3FF_0000_0000_00u64 % 65381) as usize;
    assert_eq!(x as u64, (1.0f64.to_bits() >> 12) % 65381);
    assert_eq!(hash(&num(1.0), 300, 1), Ok(((x * (x + 3)) % 65381, 299)));
    assert_eq!(hash(&num(0.0), 300, 1), Ok((0, 299)));
}

#[test]
fn hashes_of_strings_and_arrays() {
    assert_eq!(hash(&text(""), 300, 1), Ok((5381, 300)));
    // djb2: 5381 * 33 + 'a'
    assert_eq!(hash(&text("a"), 300, 1), Ok(((5381 * 33 + 97) % 65381, 299)));
    let ab = (((5381 * 33 + 97) % 65381) * 33 + 98) % 65381;
    assert_eq!(hash(&text("ab"), 300, 1), Ok((ab, 298)));
    assert_eq!(hash(&text("ab"), 1, 1), Ok(((5381 * 33 + 97) % 65381, 0)));
    assert_eq!(hash(&Value::Array(vec![]), 300, 1), Ok((5381, 300)));
    assert_eq!(
        hash(&Value::Array(vec![Value::Null, Value::Bool(true)]), 300, 1),
        Ok((((5381 * 33 + 3) % 65381 * 33 + 1) % 65381, 298))
    );
    // The budget is shared: the second element is not reached.
    assert_eq!(hash(&Value::Array(vec![text("abc"), Value::Null]), 3, 1), hash(&Value::Array(vec![text("abc")]), 3, 1));
}

#[test]
fn hashing_stops_with_the_budget() {
    let long_a = text(&"x".repeat(400));
    let long_b = text(&("x".repeat(300) + "different"));
    assert_eq!(hash(&long_a, 300, 1), hash(&long_b, 300, 1));
    assert_eq!(hash(&long_a, 300, 1).unwrap().1, 0);
}

#[test]
fn equality_is_by_pairs() {
    let mut a = HashTable::new();
    let mut b = HashTable::new();
    for i in 0..40 {
        a.insert(&num(i as f64), &text("v"), 1).unwrap();
    }
    for i in (0..40).rev() {
        b.insert(&num(i as f64), &text("v"), 1).unwrap();
    }
    assert!(a == b);
    assert!(b == a);
    assert!(a == a.copy());
    b.insert(&num(0.0), &text("w"), 1).unwrap();
    assert!(a != b);
    assert!(b != a);
    b.remove(&num(0.0), 1).unwrap();
    assert!(a != b);
}

#[test]
fn table_with_a_nan_key_equals_nothing() {
    let mut a = HashTable::new();
    a.insert(&num(f64::NAN), &num(1.0), 1).unwrap();
    assert!(a != a.copy());
    assert_eq!(a.size(), 1);
    assert!(a.get(&num(f64::NAN), 1).is_err());
}

#[test]
fn flatten_gives_all_pairs() {
    let mut table = HashTable::new();
    table.insert(&text("a"), &num(1.0), 1).unwrap();
    assert_eq!(table.flatten(), vec![KeyValue { key: text("a"), value: num(1.0) }]);
    assert_eq!(HashTable::new().flatten(), vec![]);
}

#[test]
fn replace_hands_out_the_old_value() {
    let mut table = HashTable::new();
    table.insert(&text("a"), &num(1.0), 1).unwrap();
    assert_eq!(table.replace(&text("a"), num(2.0), 1), Ok(num(1.0)));
    assert_eq!(table.get(&text("a"), 1), Ok(&num(2.0)));
    assert_eq!(table.replace(&text("b"), num(2.0), 6), Err(ErrorType::KeyError { key: text("b"), line: 6 }));
    assert_eq!(table.size(), 1);
}

#[test]
fn a_clone_holds_the_same_pairs_and_lives_on_its_own() {
    let mut table = HashTable::new();
    table.insert(&text("a"), &num(1.0), 1).unwrap();
    table.insert(&num(2.0), &text("b"), 1).unwrap();
    let mut twin = table.clone();
    assert!(twin == table);
    assert_eq!(twin.size(), 2);
    assert_eq!(twin.get(&text("a"), 1), Ok(&num(1.0)));
    assert_eq!(twin.flatten(), table.flatten());
    twin.insert(&text("a"), &num(5.0), 1).unwrap();
    twin.remove(&num(2.0), 1).unwrap();
    assert_eq!(table.get(&text("a"), 1), Ok(&num(1.0)));
    assert_eq!(table.get(&num(2.0), 1), Ok(&text("b")));
    assert_eq!(table.size(), 2);
}
