//! The built-in function `sort`: a stable merge sort of numbers or of strings.

use vstd::prelude::*;
use vstd::multiset::Multiset;
use vstd::seq_lib::*;
use crate::error::{ErrorType, ErrorView};
use crate::number::{is_nan, number_less};
use crate::operations::{text_before, text_less};
use crate::value::{copy_value, name_of_type, values_view, Value, ValueView};

verus! {

/// Whether `a` comes before `b`: as numbers or as strings. Values of other or of
/// different kinds are not ordered.
pub open spec fn value_less(a: ValueView, b: ValueView) -> bool {
    match (a, b) {
        (ValueView::Number(x), ValueView::Number(y)) => number_less(x.bits, y.bits),
        (ValueView::String_(x), ValueView::String_(y)) => text_less(x, y, 0),
        _ => false,
    }
}

/// Whether two values can be compared: both are numbers or both are strings.
pub open spec fn comparable(a: ValueView, b: ValueView) -> bool {
    (a is Number && b is Number) || (a is String_ && b is String_)
}

/// Whether all values are numbers.
pub open spec fn all_numbers(items: Seq<ValueView>) -> bool {
    forall|i: int| 0 <= i < items.len() ==> (#[trigger] items[i]) is Number
}

/// Whether all values are strings.
pub open spec fn all_strings(items: Seq<ValueView>) -> bool {
    forall|i: int| 0 <= i < items.len() ==> (#[trigger] items[i]) is String_
}

/// What can be sorted: at most one value of any kind, or numbers only, or strings only.
pub open spec fn sortable(items: Seq<ValueView>) -> bool {
    items.len() <= 1 || all_numbers(items) || all_strings(items)
}

/// Whether the values are in an order that is total: strings, or numbers none of
/// which is a NaN.
pub open spec fn totally_ordered(items: Seq<ValueView>) -> bool {
    all_strings(items) || forall|i: int|
        0 <= i < items.len() ==> ((#[trigger] items[i]) matches ValueView::Number(x) && !is_nan(x.bits))
}

/// No value comes before one that stands before it.
pub open spec fn ascending(items: Seq<ValueView>) -> bool {
    forall|i: int, j: int| 0 <= i < j < items.len() ==> !value_less(#[trigger] items[j], #[trigger] items[i])
}

proof fn lemma_text_irreflexive(a: Seq<char>, i: int)
    requires
        0 <= i,
    ensures
        !text_less(a, a, i),
    decreases a.len() - i,
{
    if i < a.len() {
        lemma_text_irreflexive(a, i + 1);
    }
}

proof fn lemma_text_transitive(a: Seq<char>, b: Seq<char>, c: Seq<char>, i: int)
    requires
        0 <= i,
        text_less(a, b, i),
        text_less(b, c, i),
    ensures
        text_less(a, c, i),
    decreases a.len() - i,
{
    if i < a.len() && i < b.len() && i < c.len() && a[i] == b[i] && b[i] == c[i] {
        lemma_text_transitive(a, b, c, i + 1);
    }
}

proof fn lemma_text_between(a: Seq<char>, b: Seq<char>, c: Seq<char>, i: int)
    requires
        0 <= i,
        text_less(a, c, i),
    ensures
        text_less(a, b, i) || text_less(b, c, i),
    decreases a.len() - i,
{
    if i < a.len() && i < b.len() && i < c.len() && a[i] == b[i] && b[i] == c[i] {
        lemma_text_between(a, b, c, i + 1);
    }
}

/// In a total order, `value_less` is a strict order in which any third value lies
/// after the smaller or before the larger of two.
proof fn lemma_order(a: ValueView, b: ValueView, c: ValueView)
    requires
        totally_ordered(seq![a, b, c]),
    ensures
        !value_less(a, a),
        value_less(a, b) && value_less(b, c) ==> value_less(a, c),
        value_less(a, c) ==> value_less(a, b) || value_less(b, c),
{
    let s = seq![a, b, c];
    assert(s[0] == a && s[1] == b && s[2] == c);
    if all_strings(s) {
        let x = a->String__0;
        let y = b->String__0;
        let z = c->String__0;
        lemma_text_irreflexive(x, 0);
        if text_less(x, y, 0) && text_less(y, z, 0) {
            lemma_text_transitive(x, y, z, 0);
        }
        if text_less(x, z, 0) {
            lemma_text_between(x, y, z, 0);
        }
    }
}

/// Values that are the same up to their order are of the same kinds.
proof fn lemma_same_kinds(a: Seq<ValueView>, b: Seq<ValueView>)
    requires
        a.to_multiset() == b.to_multiset(),
    ensures
        a.len() == b.len(),
        all_numbers(a) ==> all_numbers(b),
        all_strings(a) ==> all_strings(b),
        totally_ordered(a) ==> totally_ordered(b),
        forall|i: int| 0 <= i < b.len() ==> a.contains(#[trigger] b[i]),
{
    to_multiset_len(a);
    to_multiset_len(b);
    assert forall|i: int| 0 <= i < b.len() implies a.contains(#[trigger] b[i]) by {
        to_multiset_contains(b, b[i]);
        to_multiset_contains(a, b[i]);
        assert(b.contains(b[i]));
    }
}

proof fn lemma_three(all: Seq<ValueView>, a: int, b: int, c: int)
    requires
        totally_ordered(all),
        0 <= a < all.len(),
        0 <= b < all.len(),
        0 <= c < all.len(),
    ensures
        totally_ordered(seq![all[a], all[b], all[c]]),
{
    let s = seq![all[a], all[b], all[c]];
    if all_strings(all) {
        assert forall|i: int| 0 <= i < s.len() implies (#[trigger] s[i]) is String_ by {
            assert(all[a] is String_ && all[b] is String_ && all[c] is String_);
        }
    } else {
        assert forall|i: int| 0 <= i < s.len() implies ((#[trigger] s[i]) matches ValueView::Number(x) && !is_nan(
            x.bits,
        )) by {
            assert(all[a] is Number && all[b] is Number && all[c] is Number);
        }
    }
}

proof fn lemma_parts_ordered(a: Seq<ValueView>, b: Seq<ValueView>)
    requires
        totally_ordered(a + b),
    ensures
        totally_ordered(a),
        totally_ordered(b),
{
    let all = a + b;
    assert forall|i: int| 0 <= i < a.len() implies a[i] == all[i] by {}
    assert forall|i: int| 0 <= i < b.len() implies b[i] == all[i + a.len()] by {}
    if all_strings(all) {
        assert forall|i: int| 0 <= i < a.len() implies (#[trigger] a[i]) is String_ by {
            assert(all[i] is String_);
        }
        assert forall|i: int| 0 <= i < b.len() implies (#[trigger] b[i]) is String_ by {
            assert(all[i + a.len()] is String_);
        }
    } else {
        assert forall|i: int| 0 <= i < a.len() implies ((#[trigger] a[i]) matches ValueView::Number(x) && !is_nan(
            x.bits,
        )) by {
            assert(all[i] is Number);
        }
        assert forall|i: int| 0 <= i < b.len() implies ((#[trigger] b[i]) matches ValueView::Number(x) && !is_nan(
            x.bits,
        )) by {
            assert(all[i + a.len()] is Number);
        }
    }
}

/// What holds of the merged values while two ascending runs are merged: they are
/// ascending, and none of what is left of the runs comes before one of them.
pub open spec fn merging(merged: Seq<ValueView>, left: Seq<ValueView>, li: int, right: Seq<ValueView>, ri: int) -> bool {
    &&& ascending(merged)
    &&& forall|m: int, k: int|
        0 <= m < merged.len() && li <= k < left.len() ==> !value_less(#[trigger] left[k], #[trigger] merged[m])
    &&& forall|m: int, k: int|
        0 <= m < merged.len() && ri <= k < right.len() ==> !value_less(#[trigger] right[k], #[trigger] merged[m])
}

proof fn lemma_take_right(merged: Seq<ValueView>, left: Seq<ValueView>, li: int, right: Seq<ValueView>, ri: int)
    requires
        totally_ordered(left + right),
        ascending(left),
        ascending(right),
        0 <= li < left.len(),
        0 <= ri < right.len(),
        merging(merged, left, li, right, ri),
        value_less(right[ri], left[li]),
    ensures
        merging(merged.push(right[ri]), left, li, right, ri + 1),
{
    let x = right[ri];
    let after = merged.push(x);
    assert forall|k: int| li <= k < left.len() implies !value_less(#[trigger] left[k], x) by {
        lemma_three(left + right, k, left.len() + ri, li);
        assert((left + right)[k] == left[k]);
        assert((left + right)[left.len() + ri] == x);
        assert((left + right)[li] == left[li]);
        lemma_order(left[k], x, left[li]);
    }
    assert forall|i: int, j: int| 0 <= i < j < after.len() implies !value_less(
        #[trigger] after[j],
        #[trigger] after[i],
    ) by {
        if j < merged.len() {
            assert(after[j] == merged[j] && after[i] == merged[i]);
        } else {
            assert(after[i] == merged[i]);
            assert(!value_less(right[ri], merged[i]));
        }
    }
    assert forall|m: int, k: int| 0 <= m < after.len() && li <= k < left.len() implies !value_less(
        #[trigger] left[k],
        #[trigger] after[m],
    ) by {
        if m < merged.len() {
            assert(after[m] == merged[m]);
        }
    }
    assert forall|m: int, k: int| 0 <= m < after.len() && ri + 1 <= k < right.len() implies !value_less(
        #[trigger] right[k],
        #[trigger] after[m],
    ) by {
        if m < merged.len() {
            assert(after[m] == merged[m]);
        }
    }
}

proof fn lemma_take_left(merged: Seq<ValueView>, left: Seq<ValueView>, li: int, right: Seq<ValueView>, ri: int)
    requires
        totally_ordered(left + right),
        ascending(left),
        ascending(right),
        0 <= li < left.len(),
        0 <= ri <= right.len(),
        merging(merged, left, li, right, ri),
        ri < right.len() ==> !value_less(right[ri], left[li]),
    ensures
        merging(merged.push(left[li]), left, li + 1, right, ri),
{
    let x = left[li];
    let after = merged.push(x);
    assert forall|k: int| ri <= k < right.len() implies !value_less(#[trigger] right[k], x) by {
        lemma_three(left + right, left.len() + k, left.len() + ri, li);
        assert((left + right)[left.len() + k] == right[k]);
        assert((left + right)[left.len() + ri] == right[ri]);
        assert((left + right)[li] == x);
        lemma_order(right[k], right[ri], x);
    }
    assert forall|i: int, j: int| 0 <= i < j < after.len() implies !value_less(
        #[trigger] after[j],
        #[trigger] after[i],
    ) by {
        if j < merged.len() {
            assert(after[j] == merged[j] && after[i] == merged[i]);
        } else {
            assert(after[i] == merged[i]);
            assert(!value_less(left[li], merged[i]));
        }
    }
    assert forall|m: int, k: int| 0 <= m < after.len() && li + 1 <= k < left.len() implies !value_less(
        #[trigger] left[k],
        #[trigger] after[m],
    ) by {
        if m < merged.len() {
            assert(after[m] == merged[m]);
        }
    }
    assert forall|m: int, k: int| 0 <= m < after.len() && ri <= k < right.len() implies !value_less(
        #[trigger] right[k],
        #[trigger] after[m],
    ) by {
        if m < merged.len() {
            assert(after[m] == merged[m]);
        }
    }
}

proof fn lemma_take_rest(merged: Seq<ValueView>, left: Seq<ValueView>, li: int, right: Seq<ValueView>, ri: int)
    requires
        ascending(right),
        0 <= ri < right.len(),
        li == left.len(),
        merging(merged, left, li, right, ri),
    ensures
        merging(merged.push(right[ri]), left, li, right, ri + 1),
{
    let x = right[ri];
    let after = merged.push(x);
    assert forall|i: int, j: int| 0 <= i < j < after.len() implies !value_less(
        #[trigger] after[j],
        #[trigger] after[i],
    ) by {
        if j < merged.len() {
            assert(after[j] == merged[j] && after[i] == merged[i]);
        } else {
            assert(after[i] == merged[i]);
            assert(!value_less(right[ri], merged[i]));
        }
    }
    assert forall|m: int, k: int| 0 <= m < after.len() && ri + 1 <= k < right.len() implies !value_less(
        #[trigger] right[k],
        #[trigger] after[m],
    ) by {
        if m < merged.len() {
            assert(after[m] == merged[m]);
        }
    }
}

/// The merged values after one more value of a run has been taken.
proof fn lemma_taken(merged: Seq<ValueView>, run: Seq<ValueView>, at: int, other: Multiset<ValueView>)
    requires
        0 <= at < run.len(),
        merged.to_multiset() == run.subrange(0, at).to_multiset().add(other),
    ensures
        merged.push(run[at]).to_multiset() == run.subrange(0, at + 1).to_multiset().add(other),
{
    assert(run.subrange(0, at + 1) =~= run.subrange(0, at).push(run[at]));
    to_multiset_build(merged, run[at]);
    to_multiset_build(run.subrange(0, at), run[at]);
    assert(merged.push(run[at]).to_multiset() =~= run.subrange(0, at + 1).to_multiset().add(other));
}

/// All values of two runs that can each be sorted are of one kind, if the first
/// values of the two can be compared.
proof fn lemma_one_kind(left: Seq<ValueView>, right: Seq<ValueView>)
    requires
        left.len() > 0,
        right.len() > 0,
        sortable(left),
        sortable(right),
        comparable(left[0], right[0]),
    ensures
        all_numbers(left + right) || all_strings(left + right),
{
    let all = left + right;
    if left[0] is Number {
        assert forall|i: int| 0 <= i < all.len() implies (#[trigger] all[i]) is Number by {
            if i < left.len() {
                assert(all[i] == left[i]);
                if left.len() > 1 {
                    assert(left[i] is Number);
                }
            } else {
                assert(all[i] == right[i - left.len()]);
                if right.len() > 1 {
                    assert(right[i - left.len()] is Number);
                }
            }
        }
    } else {
        assert forall|i: int| 0 <= i < all.len() implies (#[trigger] all[i]) is String_ by {
            if i < left.len() {
                assert(all[i] == left[i]);
                if left.len() > 1 {
                    assert(left[i] is String_);
                }
            } else {
                assert(all[i] == right[i - left.len()]);
                if right.len() > 1 {
                    assert(right[i - left.len()] is String_);
                }
            }
        }
    }
}

/// Two sorted runs from `li` and `ri` on, merged: the smaller of the two next
/// values comes first, and that of the left run if neither is smaller. Two values
/// that cannot be compared stop the merge; they are handed out, left and right.
pub open spec fn merge_of(left: Seq<ValueView>, right: Seq<ValueView>, li: int, ri: int) -> Result<
    Seq<ValueView>,
    (ValueView, ValueView),
>
    decreases
            (if li < left.len() { left.len() - li } else { 0 }) + (if ri < right.len() { right.len() - ri } else { 0 }),
{
    if li < 0 || ri < 0 || (li >= left.len() && ri >= right.len()) {
        Ok(Seq::empty())
    } else if li >= left.len() {
        Ok(right.subrange(ri, right.len() as int))
    } else if ri >= right.len() {
        Ok(left.subrange(li, left.len() as int))
    } else if !comparable(right[ri], left[li]) {
        Err((left[li], right[ri]))
    } else if value_less(right[ri], left[li]) {
        match merge_of(left, right, li, ri + 1) {
            Ok(rest) => Ok(seq![right[ri]] + rest),
            Err(e) => Err(e),
        }
    } else {
        match merge_of(left, right, li + 1, ri) {
            Ok(rest) => Ok(seq![left[li]] + rest),
            Err(e) => Err(e),
        }
    }
}

/// The values sorted by merging: each half is sorted, and the two are merged.
pub open spec fn sorted_of(items: Seq<ValueView>) -> Result<Seq<ValueView>, (ValueView, ValueView)>
    decreases items.len(),
{
    if items.len() <= 1 {
        Ok(items)
    } else {
        let mid = items.len() as int / 2;
        match sorted_of(items.subrange(0, mid)) {
            Err(e) => Err(e),
            Ok(left) => match sorted_of(items.subrange(mid, items.len() as int)) {
                Err(e) => Err(e),
                Ok(right) => merge_of(left, right, 0, 0),
            },
        }
    }
}

/// The error of a sort that met two values that cannot be compared.
pub open spec fn unsortable(pair: (ValueView, ValueView), line: usize) -> ErrorView {
    ErrorView::BinaryTypeError {
        expected: "Number or String"@,
        got_left: name_of_type(pair.0),
        got_right: name_of_type(pair.1),
        line,
    }
}

/// What `sort` gives.
pub open spec fn sort_result(items: Seq<ValueView>, line: usize) -> Result<Seq<ValueView>, ErrorView> {
    match sorted_of(items) {
        Ok(sorted) => Ok(sorted),
        Err(pair) => Err(unsortable(pair, line)),
    }
}

/// Whether `a` comes before `b`, if the two can be compared.
fn before(a: &Value, b: &Value) -> (r: Option<bool>)
    ensures
        match r {
            Some(less) => comparable(a@, b@) && less == value_less(a@, b@),
            None => !comparable(a@, b@),
        },
{
    match a {
        Value::Number(x) => match b {
            Value::Number(y) => Some(x.less_than(y)),
            _ => None,
        },
        Value::String_(x) => match b {
            Value::String_(y) => Some(text_before(x.as_str(), y.as_str())),
            _ => None,
        },
        _ => None,
    }
}

/// What `sort` gives for values that cannot be sorted.
pub open spec fn sort_error(e: ErrorView, line: usize) -> bool {
    e matches ErrorView::BinaryTypeError { expected, got_left, got_right, line: at } && expected
        == "Number or String"@ && at == line
}

/// Merges two sorted runs; of two values that do not differ in order the one of
/// the left run comes first.
fn merge(left: &Vec<Value>, right: &Vec<Value>, line: usize) -> (r: Result<Vec<Value>, ErrorType>)
    requires
        left@.len() > 0,
        right@.len() > 0,
        totally_ordered(values_view(left@)) ==> ascending(values_view(left@)),
        totally_ordered(values_view(right@)) ==> ascending(values_view(right@)),
    ensures
        match merge_of(values_view(left@), values_view(right@), 0, 0) {
            Ok(all) => r matches Ok(found) && values_view(found@) == all,
            Err(pair) => r matches Err(e) && e@ == unsortable(pair, line),
        },
        match r {
            Ok(merged) => {
                &&& comparable(values_view(left@)[0], values_view(right@)[0])
                &&& values_view(merged@).to_multiset() == values_view(left@).to_multiset().add(
                    values_view(right@).to_multiset(),
                )
                &&& totally_ordered(values_view(left@) + values_view(right@)) ==> ascending(values_view(merged@))
            },
            Err(e) => sort_error(e@, line) && exists|i: int, j: int|
                0 <= i < left@.len() && 0 <= j < right@.len() && !comparable(
                    #[trigger] values_view(right@)[j],
                    #[trigger] values_view(left@)[i],
                ),
        },
{
    let ghost lv = values_view(left@);
    let ghost rv = values_view(right@);
    let ghost ordered = totally_ordered(lv + rv);
    let ghost goal = merge_of(lv, rv, 0, 0);
    proof {
        if ordered {
            lemma_parts_ordered(lv, rv);
        }
    }
    let mut merged: Vec<Value> = Vec::new();
    let mut li: usize = 0;
    let mut ri: usize = 0;
    assert(values_view(merged@).to_multiset() =~= lv.subrange(0, 0).to_multiset().add(rv.subrange(0, 0).to_multiset()))
        by {
        to_multiset_len(values_view(merged@));
        to_multiset_len(lv.subrange(0, 0));
        to_multiset_len(rv.subrange(0, 0));
    }
    while li < left.len() && ri < right.len()
        invariant
            li <= left.len(),
            ri <= right.len(),
            lv == values_view(left@),
            rv == values_view(right@),
            ordered == totally_ordered(lv + rv),
            goal == merge_of(lv, rv, 0, 0),
            match merge_of(lv, rv, li as int, ri as int) {
                Ok(rest) => goal == Ok::<Seq<ValueView>, (ValueView, ValueView)>(values_view(merged@) + rest),
                Err(pair) => goal == Err::<Seq<ValueView>, (ValueView, ValueView)>(pair),
            },
            ordered ==> ascending(lv) && ascending(rv),
            values_view(merged@).to_multiset() == lv.subrange(0, li as int).to_multiset().add(
                rv.subrange(0, ri as int).to_multiset(),
            ),
            li + ri > 0 ==> comparable(lv[0], rv[0]),
            ordered ==> merging(values_view(merged@), lv, li as int, rv, ri as int),
        decreases (left.len() - li) + (right.len() - ri),
    {
        let ghost before_view = values_view(merged@);
        assert(lv[li as int] == left@[li as int]@);
        assert(rv[ri as int] == right@[ri as int]@);
        match before(&right[ri], &left[li]) {
            None => {
                return Err(
                    ErrorType::BinaryTypeError {
                        expected: String::from_str("Number or String"),
                        got_left: left[li].type_to_string(),
                        got_right: right[ri].type_to_string(),
                        line,
                    },
                );
            },
            Some(right_first) => {
                if right_first {
                    merged.push(copy_value(&right[ri]));
                    proof {
                        assert(values_view(merged@) =~= before_view.push(rv[ri as int]));
                        match merge_of(lv, rv, li as int, ri + 1) {
                            Ok(rest) => {
                                assert(before_view + (seq![rv[ri as int]] + rest) =~= values_view(merged@) + rest);
                            },
                            Err(pair) => {},
                        }
                        assert(lv.subrange(0, li as int).to_multiset().add(rv.subrange(0, ri as int).to_multiset())
                            =~= rv.subrange(0, ri as int).to_multiset().add(lv.subrange(0, li as int).to_multiset()));
                        assert(lv.subrange(0, li as int).to_multiset().add(rv.subrange(0, ri as int).to_multiset())
                =~= rv.subrange(0, ri as int).to_multiset().add(lv.subrange(0, li as int).to_multiset()));
            lemma_taken(before_view, rv, ri as int, lv.subrange(0, li as int).to_multiset());
                        assert(values_view(merged@).to_multiset() =~= lv.subrange(0, li as int).to_multiset().add(
                            rv.subrange(0, ri + 1).to_multiset(),
                        ));
                        if ordered {
                            lemma_take_right(before_view, lv, li as int, rv, ri as int);
                        }
                    }
                    ri += 1;
                } else {
                    merged.push(copy_value(&left[li]));
                    proof {
                        assert(values_view(merged@) =~= before_view.push(lv[li as int]));
                        match merge_of(lv, rv, li + 1, ri as int) {
                            Ok(rest) => {
                                assert(before_view + (seq![lv[li as int]] + rest) =~= values_view(merged@) + rest);
                            },
                            Err(pair) => {},
                        }
                        lemma_taken(before_view, lv, li as int, rv.subrange(0, ri as int).to_multiset());
                        if ordered {
                            lemma_take_left(before_view, lv, li as int, rv, ri as int);
                        }
                    }
                    li += 1;
                }
            },
        }
    }
    while li < left.len()
        invariant
            li <= left.len(),
            ri <= right.len(),
            li < left.len() ==> ri == right.len(),
            lv == values_view(left@),
            rv == values_view(right@),
            ordered == totally_ordered(lv + rv),
            goal == merge_of(lv, rv, 0, 0),
            match merge_of(lv, rv, li as int, ri as int) {
                Ok(rest) => goal == Ok::<Seq<ValueView>, (ValueView, ValueView)>(values_view(merged@) + rest),
                Err(pair) => goal == Err::<Seq<ValueView>, (ValueView, ValueView)>(pair),
            },
            ordered ==> ascending(lv) && ascending(rv),
            values_view(merged@).to_multiset() == lv.subrange(0, li as int).to_multiset().add(
                rv.subrange(0, ri as int).to_multiset(),
            ),
            ordered ==> merging(values_view(merged@), lv, li as int, rv, ri as int),
        decreases left.len() - li,
    {
        let ghost before_view = values_view(merged@);
        assert(lv[li as int] == left@[li as int]@);
        merged.push(copy_value(&left[li]));
        proof {
            assert(values_view(merged@) =~= before_view.push(lv[li as int]));
            assert(before_view + lv.subrange(li as int, lv.len() as int) =~= values_view(merged@) + lv.subrange(
                li + 1,
                lv.len() as int,
            ));
            assert(li + 1 >= lv.len() ==> lv.subrange(li + 1, lv.len() as int) =~= Seq::<ValueView>::empty());
            lemma_taken(before_view, lv, li as int, rv.subrange(0, ri as int).to_multiset());
            if ordered {
                lemma_take_left(before_view, lv, li as int, rv, ri as int);
            }
        }
        li += 1;
    }
    while ri < right.len()
        invariant
            li == left.len(),
            ri <= right.len(),
            lv == values_view(left@),
            rv == values_view(right@),
            ordered == totally_ordered(lv + rv),
            goal == merge_of(lv, rv, 0, 0),
            match merge_of(lv, rv, li as int, ri as int) {
                Ok(rest) => goal == Ok::<Seq<ValueView>, (ValueView, ValueView)>(values_view(merged@) + rest),
                Err(pair) => goal == Err::<Seq<ValueView>, (ValueView, ValueView)>(pair),
            },
            ordered ==> ascending(lv) && ascending(rv),
            values_view(merged@).to_multiset() == lv.subrange(0, li as int).to_multiset().add(
                rv.subrange(0, ri as int).to_multiset(),
            ),
            ordered ==> merging(values_view(merged@), lv, li as int, rv, ri as int),
        decreases right.len() - ri,
    {
        let ghost before_view = values_view(merged@);
        assert(rv[ri as int] == right@[ri as int]@);
        merged.push(copy_value(&right[ri]));
        proof {
            assert(values_view(merged@) =~= before_view.push(rv[ri as int]));
            assert(before_view + rv.subrange(ri as int, rv.len() as int) =~= values_view(merged@) + rv.subrange(
                ri + 1,
                rv.len() as int,
            ));
            assert(ri + 1 >= rv.len() ==> rv.subrange(ri + 1, rv.len() as int) =~= Seq::<ValueView>::empty());
            assert(lv.subrange(0, li as int).to_multiset().add(rv.subrange(0, ri as int).to_multiset())
                =~= rv.subrange(0, ri as int).to_multiset().add(lv.subrange(0, li as int).to_multiset()));
            lemma_taken(before_view, rv, ri as int, lv.subrange(0, li as int).to_multiset());
            assert(values_view(merged@).to_multiset() =~= lv.subrange(0, li as int).to_multiset().add(
                rv.subrange(0, ri + 1).to_multiset(),
            ));
            if ordered {
                lemma_take_rest(before_view, lv, li as int, rv, ri as int);
            }
        }
        ri += 1;
    }
    proof {
        assert(lv.subrange(0, li as int) =~= lv);
        assert(rv.subrange(0, ri as int) =~= rv);
        assert(values_view(merged@) + Seq::<ValueView>::empty() =~= values_view(merged@));
    }
    Ok(merged)
}

/// Sorts the values from index `from` up to index `to`.
fn sort_range(array: &Vec<Value>, from: usize, to: usize, line: usize) -> (r: Result<Vec<Value>, ErrorType>)
    requires
        from <= to <= array@.len(),
    ensures
        match sorted_of(values_view(array@).subrange(from as int, to as int)) {
            Ok(all) => r matches Ok(found) && values_view(found@) == all,
            Err(pair) => r matches Err(e) && e@ == unsortable(pair, line),
        },
        match r {
            Ok(sorted) => {
                &&& sortable(values_view(sorted@))
                &&& values_view(sorted@).to_multiset() == values_view(array@).subrange(
                    from as int,
                    to as int,
                ).to_multiset()
                &&& totally_ordered(values_view(sorted@)) ==> ascending(values_view(sorted@))
            },
            Err(e) => !sortable(values_view(array@).subrange(from as int, to as int)) && sort_error(e@, line),
        },
    decreases to - from,
{
    let ghost input = values_view(array@).subrange(from as int, to as int);
    if to - from <= 1 {
        let mut out: Vec<Value> = Vec::new();
        if to - from == 1 {
            out.push(copy_value(&array[from]));
        }
        assert(values_view(out@) =~= input);
        return Ok(out);
    }
    let mid = from + (to - from) / 2;
    let ghost first = values_view(array@).subrange(from as int, mid as int);
    let ghost second = values_view(array@).subrange(mid as int, to as int);
    assert(input =~= first + second);
    proof {
        lemma_halves(first, second);
        assert(input.subrange(0, input.len() as int / 2) =~= first);
        assert(input.subrange(input.len() as int / 2, input.len() as int) =~= second);
    }
    let left = match sort_range(array, from, mid, line) {
        Ok(sorted) => sorted,
        Err(e) => {
            return Err(e);
        },
    };
    let right = match sort_range(array, mid, to, line) {
        Ok(sorted) => sorted,
        Err(e) => {
            return Err(e);
        },
    };
    let ghost lv = values_view(left@);
    let ghost rv = values_view(right@);
    proof {
        lemma_same_kinds(first, lv);
        lemma_same_kinds(second, rv);
        lemma_multiset_commutative(first, second);
        lemma_multiset_commutative(lv, rv);
    }
    match merge(&left, &right, line) {
        Ok(merged) => {
            proof {
                let mv = values_view(merged@);
                lemma_one_kind(lv, rv);
                lemma_same_kinds(lv + rv, mv);
                lemma_same_kinds(mv, lv + rv);
            }
            Ok(merged)
        },
        Err(e) => {
            proof {
                let (i, j) = choose|i: int, j: int|
                    0 <= i < lv.len() && 0 <= j < rv.len() && !comparable(#[trigger] rv[j], #[trigger] lv[i]);
                lemma_unsortable(first, second, lv[i], rv[j]);
            }
            Err(e)
        },
    }
}

/// The halves of what can be sorted can be sorted.
proof fn lemma_halves(first: Seq<ValueView>, second: Seq<ValueView>)
    requires
        first.len() > 0,
        second.len() > 0,
    ensures
        sortable(first + second) ==> sortable(first) && sortable(second),
{
    let all = first + second;
    assert forall|i: int| 0 <= i < first.len() implies first[i] == all[i] by {}
    assert forall|i: int| 0 <= i < second.len() implies second[i] == all[i + first.len()] by {}
    if all_numbers(all) {
        assert forall|i: int| 0 <= i < first.len() implies (#[trigger] first[i]) is Number by {
            assert(all[i] is Number);
        }
        assert forall|i: int| 0 <= i < second.len() implies (#[trigger] second[i]) is Number by {
            assert(all[i + first.len()] is Number);
        }
    }
    if all_strings(all) {
        assert forall|i: int| 0 <= i < first.len() implies (#[trigger] first[i]) is String_ by {
            assert(all[i] is String_);
        }
        assert forall|i: int| 0 <= i < second.len() implies (#[trigger] second[i]) is String_ by {
            assert(all[i + first.len()] is String_);
        }
    }
}

/// Values among which two cannot be compared cannot be sorted.
proof fn lemma_unsortable(first: Seq<ValueView>, second: Seq<ValueView>, a: ValueView, b: ValueView)
    requires
        first.contains(a),
        second.contains(b),
        !comparable(b, a),
    ensures
        !sortable(first + second),
{
    let all = first + second;
    let i = choose|i: int| 0 <= i < first.len() && first[i] == a;
    let j = choose|j: int| 0 <= j < second.len() && second[j] == b;
    assert(all[i] == a);
    assert(all[j + first.len()] == b);
}

/// Sorts an array of numbers or of strings in ascending order; values that are
/// equal keep their order. An array of one value, or of none, is sorted as it is.
///
/// The result holds the values of the array, each as often as the array does. It
/// is ascending if the order of the values is total: numbers of which one is a
/// NaN are in no total order.
pub fn merge_sort(array_to_sort: &Vec<Value>, line: usize) -> (r: Result<Vec<Value>, ErrorType>)
    ensures
        match sort_result(values_view(array_to_sort@), line) {
            Ok(all) => r matches Ok(found) && values_view(found@) == all,
            Err(e) => r matches Err(found) && found@ == e,
        },
        match r {
            Ok(sorted) => {
                &&& sortable(values_view(array_to_sort@))
                &&& values_view(sorted@).to_multiset() == values_view(array_to_sort@).to_multiset()
                &&& totally_ordered(values_view(array_to_sort@)) ==> ascending(values_view(sorted@))
            },
            Err(e) => !sortable(values_view(array_to_sort@)) && sort_error(e@, line),
        },
{
    let r = sort_range(array_to_sort, 0, array_to_sort.len(), line);
    proof {
        let input = values_view(array_to_sort@);
        assert(input.subrange(0, input.len() as int) =~= input);
        if r is Ok {
            let sorted = r->Ok_0;
            lemma_same_kinds(values_view(sorted@), input);
            lemma_same_kinds(input, values_view(sorted@));
        }
    }
    r
}

} // verus!
