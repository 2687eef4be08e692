//! Runtime values.

use vstd::prelude::*;
use vstd::std_specs::cmp::PartialEqSpecImpl;
use crate::hash_table::HashTable;
use crate::number::{number_equal, Number};
use crate::stmt::{copy_names, copy_stmt, names_view, same_names, same_stmt, Stmt, StmtView};

verus! {

/// The functions that every program finds in its base scope.
#[derive(Clone, Copy, Debug, PartialEq, Eq, Structural)]
pub enum BuiltinFunction {
    Append,
    Input,
    Remove,
    Size,
    Sort,
    ToNumber,
    ToString,
}

/// A value that a program computes with.
#[derive(Debug)]
pub enum Value {
    Number(Number),
    String_(String),
    Bool(bool),
    Array(Vec<Value>),
    Dictionary(HashTable),
    Function { parameters: Vec<String>, body: Stmt },
    BuiltinFunction(BuiltinFunction),
    Null,
}

/// A key of a dictionary with the value stored under it, as mathematical values.
pub type PairView = (ValueView, ValueView);

/// What a `Value` is, as a mathematical value. A dictionary is the sequence of
/// its buckets, each the sequence of the pairs chained in it.
pub ghost enum ValueView {
    Number(Number),
    String_(Seq<char>),
    Bool(bool),
    Array(Seq<ValueView>),
    Dictionary(Seq<Seq<PairView>>),
    Function { parameters: Seq<Seq<char>>, body: StmtView },
    BuiltinFunction(BuiltinFunction),
    Null,
}

/// What a value is, as a mathematical value.
pub open spec fn value_view(v: Value) -> ValueView
    decreases v,
{
    match v {
        Value::Number(x) => ValueView::Number(x),
        Value::String_(s) => ValueView::String_(s@),
        Value::Bool(b) => ValueView::Bool(b),
        Value::Array(items) => ValueView::Array(values_view(items@)),
        Value::Dictionary(table) => ValueView::Dictionary(table.view()),
        Value::Function { parameters, body } => ValueView::Function {
            parameters: names_view(parameters@),
            body: body@,
        },
        Value::BuiltinFunction(f) => ValueView::BuiltinFunction(f),
        Value::Null => ValueView::Null,
    }
}

/// The views of a list of values.
pub open spec fn values_view(s: Seq<Value>) -> Seq<ValueView>
    decreases s,
{
    Seq::new(s.len(), |i: int| if 0 <= i < s.len() { value_view(s[i]) } else { arbitrary() })
}

impl View for Value {
    type V = ValueView;

    open spec fn view(&self) -> ValueView {
        value_view(*self)
    }
}

/// Equality of values, as the `==` of the language sees it: numbers compare as
/// IEEE-754 values, arrays element by element, functions by their text, and two
/// dictionaries are equal when the pairs of the first can be matched one by one
/// with equal pairs of the second, leaving none over.
pub open spec fn values_equal(a: ValueView, b: ValueView) -> bool
    decreases a, 0nat, 0nat,
{
    match a {
        ValueView::Number(x) => b matches ValueView::Number(y) && number_equal(x.bits, y.bits),
        ValueView::String_(x) => b matches ValueView::String_(y) && x == y,
        ValueView::Bool(x) => b matches ValueView::Bool(y) && x == y,
        ValueView::Array(x) => b matches ValueView::Array(y) && x.len() == y.len() && forall|i: int|
            0 <= i < x.len() ==> values_equal(x[i], #[trigger] y[i]),
        ValueView::Dictionary(x) => b matches ValueView::Dictionary(y) && pairs_match(x, 0, 0, y.flatten()),
        ValueView::Function { parameters: p, body: s } => b matches ValueView::Function {
            parameters: q,
            body: t,
        } && p == q && s == t,
        ValueView::BuiltinFunction(f) => b matches ValueView::BuiltinFunction(g) && f == g,
        ValueView::Null => b is Null,
    }
}

/// Equality of two pairs: the keys are equal and the values are equal.
pub open spec fn pair_equal(p: PairView, q: PairView) -> bool
    decreases p, 0nat, 0nat,
{
    values_equal(p.0, q.0) && values_equal(p.1, q.1)
}

/// The first index at or after `from` at which `rest` holds a pair equal to `p`;
/// the length of `rest` if there is none.
pub open spec fn find_pair(p: PairView, rest: Seq<PairView>, from: int) -> int
    decreases p, 1nat, rest.len() - from,
{
    if from < 0 || from >= rest.len() {
        rest.len() as int
    } else if pair_equal(p, rest[from]) {
        from
    } else {
        find_pair(p, rest, from + 1)
    }
}

/// Whether the pairs of `buckets`, from pair `j` of bucket `i` on, can be matched
/// in order, each with the first equal pair still left in `rest`, so that none
/// of `rest` is left over.
pub open spec fn pairs_match(buckets: Seq<Seq<PairView>>, i: int, j: int, rest: Seq<PairView>) -> bool
    decreases buckets, buckets.len() - i, (if 0 <= i < buckets.len() { buckets[i].len() - j } else { 0 }),
{
    if i < 0 || i >= buckets.len() || j < 0 {
        rest.len() == 0
    } else if j >= buckets[i].len() {
        pairs_match(buckets, i + 1, 0, rest)
    } else {
        let at = find_pair(buckets[i][j], rest, 0);
        at < rest.len() && pairs_match(buckets, i, j + 1, rest.remove(at))
    }
}

impl Value {
    /// The name of the value's type, as error reports give it.
    pub fn type_to_string(&self) -> (r: String)
        ensures
            r@ == name_of_type(self@),
    {
        match self {
            Value::Number(..) => String::from_str("Number"),
            Value::String_(..) => String::from_str("String"),
            Value::Bool(..) => String::from_str("Boolean"),
            Value::Array(..) => String::from_str("Array"),
            Value::Dictionary(..) => String::from_str("Dictionary"),
            Value::Function { .. } => String::from_str("Function"),
            Value::BuiltinFunction(..) => String::from_str("Function"),
            Value::Null => String::from_str("Null"),
        }
    }
}

/// The name of a value's type.
pub open spec fn name_of_type(v: ValueView) -> Seq<char> {
    match v {
        ValueView::Number(_) => "Number"@,
        ValueView::String_(_) => "String"@,
        ValueView::Bool(_) => "Boolean"@,
        ValueView::Array(_) => "Array"@,
        ValueView::Dictionary(_) => "Dictionary"@,
        ValueView::Function { .. } => "Function"@,
        ValueView::BuiltinFunction(_) => "Function"@,
        ValueView::Null => "Null"@,
    }
}

/// A deep copy of a value.
pub fn copy_value(v: &Value) -> (r: Value)
    ensures
        r@ == v@,
    decreases *v,
{
    match v {
        Value::Number(x) => Value::Number(*x),
        Value::String_(s) => Value::String_(s.clone()),
        Value::Bool(b) => Value::Bool(*b),
        Value::Array(items) => Value::Array(copy_values(items)),
        Value::Dictionary(table) => Value::Dictionary(table.copy()),
        Value::Function { parameters, body } => Value::Function {
            parameters: copy_names(parameters),
            body: copy_stmt(body),
        },
        Value::BuiltinFunction(f) => Value::BuiltinFunction(*f),
        Value::Null => Value::Null,
    }
}

/// A deep copy of a list of values.
pub fn copy_values(v: &Vec<Value>) -> (r: Vec<Value>)
    ensures
        values_view(r@) == values_view(v@),
    decreases *v,
{
    let mut out: Vec<Value> = Vec::new();
    let mut i: usize = 0;
    while i < v.len()
        invariant
            i <= v.len(),
            out@.len() == i,
            forall|j: int| 0 <= j < i ==> out@[j]@ == v@[j]@,
        decreases v.len() - i,
    {
        out.push(copy_value(&v[i]));
        i += 1;
    }
    assert(values_view(out@) =~= values_view(v@));
    out
}

/// Whether two values are equal, as the `==` of the language sees it.
pub fn same_value(a: &Value, b: &Value) -> (r: bool)
    ensures
        r == values_equal(a@, b@),
    decreases *a,
{
    match a {
        Value::Number(x) => match b {
            Value::Number(y) => x.equals(y),
            _ => false,
        },
        Value::String_(x) => match b {
            Value::String_(y) => *x == *y,
            _ => false,
        },
        Value::Bool(x) => match b {
            Value::Bool(y) => *x == *y,
            _ => false,
        },
        Value::Array(x) => match b {
            Value::Array(y) => {
                if x.len() != y.len() {
                    return false;
                }
                let mut i: usize = 0;
                while i < x.len()
                    invariant
                        i <= x.len(),
                        x.len() == y.len(),
                        *a == Value::Array(*x),
                        *b == Value::Array(*y),
                        forall|j: int| 0 <= j < i ==> values_equal(x@[j]@, #[trigger] y@[j]@),
                    decreases x.len() - i,
                {
                    proof {
                        assert(decreases_to!(*x => x@[i as int]));
                        assert(*a matches Value::Array(z) && z == *x);
                    }
                    if !same_value(&x[i], &y[i]) {
                        assert(a@ == ValueView::Array(values_view(x@)));
                        assert(b@ == ValueView::Array(values_view(y@)));
                        assert(values_view(x@)[i as int] == x@[i as int]@);
                        assert(values_view(y@)[i as int] == y@[i as int]@);
                        assert(!values_equal(values_view(x@)[i as int], values_view(y@)[i as int]));
                        assert(!values_equal(a@, b@));
                        return false;
                    }
                    i += 1;
                }
                assert forall|j: int| 0 <= j < values_view(x@).len() implies values_equal(
                    values_view(x@)[j],
                    #[trigger] values_view(y@)[j],
                ) by {
                    assert(values_equal(x@[j]@, y@[j]@));
                }
                true
            },
            _ => false,
        },
        Value::Dictionary(x) => match b {
            Value::Dictionary(y) => x.same(y),
            _ => false,
        },
        Value::Function { parameters: p, body: s } => match b {
            Value::Function { parameters: q, body: t } => same_names(p, q) && same_stmt(s, t),
            _ => false,
        },
        Value::BuiltinFunction(f) => match b {
            Value::BuiltinFunction(g) => *f == *g,
            _ => false,
        },
        Value::Null => match b {
            Value::Null => true,
            _ => false,
        },
    }
}

impl PartialEq for Value {
    fn eq(&self, other: &Value) -> (r: bool) {
        same_value(self, other)
    }
}

impl PartialEqSpecImpl for Value {
    open spec fn obeys_eq_spec() -> bool {
        true
    }

    open spec fn eq_spec(&self, other: &Value) -> bool {
        values_equal(self@, other@)
    }
}

impl Clone for Value {
    fn clone(&self) -> (r: Value)
        ensures
            r@ == self@,
    {
        copy_value(self)
    }
}

} // verus!
