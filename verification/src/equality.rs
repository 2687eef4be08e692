//! What holds of the equality of values: it is symmetric and transitive, and two
//! dictionaries are equal when they hold the same pairs, whatever their order.

use vstd::prelude::*;
use crate::hash_table::{holds, lemma_flatten_members};
use crate::number::is_nan;
use crate::value::{find_pair, pair_equal, pairs_match, values_equal, PairView, ValueView};

verus! {

/// How deeply values are nested in the value.
pub open spec fn depth(v: ValueView) -> nat
    decreases v, 1nat,
{
    match v {
        ValueView::Array(items) => 1 + deepest(items, 0),
        ValueView::Dictionary(buckets) => 1 + deepest_bucket(buckets, 0),
        _ => 0,
    }
}

/// The largest depth of the values from index `i` on.
pub open spec fn deepest(items: Seq<ValueView>, i: int) -> nat
    decreases items, 0nat, items.len() - i,
{
    if i < 0 || i >= items.len() {
        0
    } else {
        let first = depth(items[i]);
        let others = deepest(items, i + 1);
        if first > others {
            first
        } else {
            others
        }
    }
}

/// The largest depth of the keys and values of the buckets from index `b` on.
pub open spec fn deepest_bucket(buckets: Seq<Seq<PairView>>, b: int) -> nat
    decreases buckets, 1nat, buckets.len() - b,
{
    if b < 0 || b >= buckets.len() {
        0
    } else {
        let first = deepest_pair(buckets[b], 0);
        let others = deepest_bucket(buckets, b + 1);
        if first > others {
            first
        } else {
            others
        }
    }
}

/// The largest depth of the keys and values of the pairs from index `i` on.
pub open spec fn deepest_pair(pairs: Seq<PairView>, i: int) -> nat
    decreases pairs, 0nat, pairs.len() - i,
{
    if i < 0 || i >= pairs.len() {
        0
    } else {
        let key = depth(pairs[i].0);
        let value = depth(pairs[i].1);
        let others = deepest_pair(pairs, i + 1);
        let first = if key > value { key } else { value };
        if first > others {
            first
        } else {
            others
        }
    }
}

proof fn lemma_deepest(items: Seq<ValueView>, i: int, k: int)
    requires
        0 <= i <= k < items.len(),
    ensures
        depth(items[k]) <= deepest(items, i),
    decreases k - i,
{
    if i < k {
        lemma_deepest(items, i + 1, k);
    }
}

proof fn lemma_deepest_pair(pairs: Seq<PairView>, i: int, k: int)
    requires
        0 <= i <= k < pairs.len(),
    ensures
        depth(pairs[k].0) <= deepest_pair(pairs, i),
        depth(pairs[k].1) <= deepest_pair(pairs, i),
    decreases k - i,
{
    if i < k {
        lemma_deepest_pair(pairs, i + 1, k);
    }
}

proof fn lemma_deepest_bucket(buckets: Seq<Seq<PairView>>, b: int, c: int, k: int)
    requires
        0 <= b <= c < buckets.len(),
        0 <= k < buckets[c].len(),
    ensures
        depth(buckets[c][k].0) <= deepest_bucket(buckets, b),
        depth(buckets[c][k].1) <= deepest_bucket(buckets, b),
    decreases c - b,
{
    if b < c {
        lemma_deepest_bucket(buckets, b + 1, c, k);
    } else {
        lemma_deepest_pair(buckets[c], 0, k);
    }
}

/// Whether no NaN stands in the value, at any depth.
pub open spec fn without_nan(v: ValueView) -> bool
    decreases v,
{
    match v {
        ValueView::Number(x) => !is_nan(x.bits),
        ValueView::Array(items) => forall|i: int| 0 <= i < items.len() ==> without_nan(#[trigger] items[i]),
        ValueView::Dictionary(buckets) => forall|b: int, i: int|
            0 <= b < buckets.len() && 0 <= i < buckets[b].len() ==> without_nan((#[trigger] buckets[b][i]).0)
                && without_nan(buckets[b][i].1),
        _ => true,
    }
}

/// The pairs of the buckets from pair `j` of bucket `i` on.
pub open spec fn pairs_from(buckets: Seq<Seq<PairView>>, i: int, j: int) -> Seq<PairView> {
    if 0 <= i < buckets.len() {
        buckets[i].subrange(j, buckets[i].len() as int) + buckets.subrange(i + 1, buckets.len() as int).flatten()
    } else {
        Seq::empty()
    }
}

/// Whether the pairs of `a` can be matched in order, each with the first equal
/// pair still left in `rest`, so that none of `rest` is left over.
pub open spec fn matched(a: Seq<PairView>, rest: Seq<PairView>) -> bool
    decreases a.len(),
{
    if a.len() == 0 {
        rest.len() == 0
    } else {
        let at = find_pair(a[0], rest, 0);
        at < rest.len() && matched(a.drop_first(), rest.remove(at))
    }
}

proof fn lemma_pairs_from_step(buckets: Seq<Seq<PairView>>, i: int, j: int)
    requires
        0 <= i < buckets.len(),
        0 <= j <= buckets[i].len(),
    ensures
        j >= buckets[i].len() ==> pairs_from(buckets, i, j) == pairs_from(buckets, i + 1, 0),
        j < buckets[i].len() ==> pairs_from(buckets, i, j).len() > 0 && pairs_from(buckets, i, j)[0]
            == buckets[i][j] && pairs_from(buckets, i, j).drop_first() == pairs_from(buckets, i, j + 1),
{
    let later = buckets.subrange(i + 1, buckets.len() as int);
    if j >= buckets[i].len() {
        if i + 1 < buckets.len() {
            assert(later.first() == buckets[i + 1]);
            assert(later.drop_first() =~= buckets.subrange(i + 2, buckets.len() as int));
            assert(buckets[i + 1].subrange(0, buckets[i + 1].len() as int) =~= buckets[i + 1]);
            assert(pairs_from(buckets, i, j) =~= pairs_from(buckets, i + 1, 0));
        } else {
            assert(pairs_from(buckets, i, j) =~= pairs_from(buckets, i + 1, 0));
        }
    } else {
        assert(pairs_from(buckets, i, j).drop_first() =~= pairs_from(buckets, i, j + 1));
    }
}

/// Matching the pairs of buckets is matching the pairs in their order.
proof fn lemma_pairs_match(buckets: Seq<Seq<PairView>>, i: int, j: int, rest: Seq<PairView>)
    requires
        0 <= i <= buckets.len(),
        i < buckets.len() ==> 0 <= j <= buckets[i].len(),
    ensures
        pairs_match(buckets, i, j, rest) == matched(pairs_from(buckets, i, j), rest),
    decreases buckets.len() - i, (if i < buckets.len() { buckets[i].len() - j } else { 0 }),
{
    if i < buckets.len() {
        lemma_pairs_from_step(buckets, i, j);
        if j >= buckets[i].len() {
            lemma_pairs_match(buckets, i + 1, 0, rest);
        } else {
            let at = find_pair(buckets[i][j], rest, 0);
            lemma_pairs_match(buckets, i, j + 1, rest.remove(at));
        }
    }
}

/// All pairs of the buckets are the pairs from the first on.
proof fn lemma_pairs_from_start(buckets: Seq<Seq<PairView>>)
    ensures
        pairs_from(buckets, 0, 0) == buckets.flatten(),
{
    if buckets.len() > 0 {
        assert(buckets.first() == buckets[0]);
        assert(buckets.drop_first() =~= buckets.subrange(1, buckets.len() as int));
        assert(buckets[0].subrange(0, buckets[0].len() as int) =~= buckets[0]);
        assert(pairs_from(buckets, 0, 0) =~= buckets.flatten());
    } else {
        assert(pairs_from(buckets, 0, 0) =~= buckets.flatten());
    }
}

/// How many of the pairs equal `x`.
pub open spec fn count(s: Seq<PairView>, x: PairView) -> nat
    decreases s.len(),
{
    if s.len() == 0 {
        0
    } else {
        (if pair_equal(s[0], x) {
            1nat
        } else {
            0nat
        }) + count(s.drop_first(), x)
    }
}

proof fn lemma_count_remove(s: Seq<PairView>, m: int, x: PairView)
    requires
        0 <= m < s.len(),
    ensures
        count(s, x) == count(s.remove(m), x) + if pair_equal(s[m], x) { 1nat } else { 0nat },
    decreases s.len(),
{
    if m == 0 {
        assert(s.remove(0) =~= s.drop_first());
    } else {
        lemma_count_remove(s.drop_first(), m - 1, x);
        assert(s.remove(m).drop_first() =~= s.drop_first().remove(m - 1));
        assert(s.remove(m)[0] == s[0]);
    }
}

proof fn lemma_count_some(s: Seq<PairView>, x: PairView)
    ensures
        count(s, x) > 0 <==> exists|j: int| 0 <= j < s.len() && pair_equal(#[trigger] s[j], x),
    decreases s.len(),
{
    if s.len() > 0 {
        let tail = s.drop_first();
        lemma_count_some(tail, x);
        if count(s, x) > 0 {
            if pair_equal(s[0], x) {
            } else {
                let j = choose|j: int| 0 <= j < tail.len() && pair_equal(#[trigger] tail[j], x);
                assert(pair_equal(s[j + 1], x));
            }
        }
        if exists|j: int| 0 <= j < s.len() && pair_equal(#[trigger] s[j], x) {
            let j = choose|j: int| 0 <= j < s.len() && pair_equal(#[trigger] s[j], x);
            if j > 0 {
                assert(pair_equal(tail[j - 1], x));
            }
        }
    }
}

proof fn lemma_find_pair(p: PairView, rest: Seq<PairView>, from: int)
    requires
        0 <= from,
    ensures
        from <= find_pair(p, rest, from) || find_pair(p, rest, from) == rest.len(),
        find_pair(p, rest, from) <= rest.len(),
        find_pair(p, rest, from) < rest.len() ==> pair_equal(p, rest[find_pair(p, rest, from)]),
        forall|j: int| from <= j < rest.len() && pair_equal(p, #[trigger] rest[j]) ==> find_pair(p, rest, from) <= j,
    decreases rest.len() - from,
{
    if from < rest.len() {
        lemma_find_pair(p, rest, from + 1);
    }
}

/// Whether the equality of pairs is symmetric and transitive among the pairs of the set.
pub open spec fn orderly_on(pairs: Set<PairView>) -> bool {
    &&& forall|p: PairView, q: PairView|
        pairs.contains(p) && pairs.contains(q) && #[trigger] pair_equal(p, q) ==> pair_equal(q, p)
    &&& forall|p: PairView, q: PairView, r: PairView|
        pairs.contains(p) && pairs.contains(q) && pairs.contains(r) && #[trigger] pair_equal(p, q)
            && #[trigger] pair_equal(q, r) ==> pair_equal(p, r)
}

/// Whether all pairs of the sequence are in the set.
pub open spec fn within(s: Seq<PairView>, pairs: Set<PairView>) -> bool {
    forall|i: int| 0 <= i < s.len() ==> pairs.contains(#[trigger] s[i])
}

/// Whether every pair of the sequence equals itself.
pub open spec fn reflexive(s: Seq<PairView>) -> bool {
    forall|i: int| 0 <= i < s.len() ==> pair_equal(#[trigger] s[i], s[i])
}

/// Whether the two sequences hold the same pairs, up to equality and whatever
/// their order: they are of one length, each of their pairs equals itself, and
/// every pair of the set is equalled by as many pairs of the one as of the other.
pub open spec fn same_pairs(a: Seq<PairView>, b: Seq<PairView>, pairs: Set<PairView>) -> bool {
    &&& a.len() == b.len()
    &&& reflexive(a)
    &&& reflexive(b)
    &&& forall|x: PairView| pairs.contains(x) ==> #[trigger] count(a, x) == count(b, x)
}

proof fn lemma_within_parts(a: Seq<PairView>, b: Seq<PairView>, m: int, pairs: Set<PairView>)
    requires
        within(a, pairs),
        within(b, pairs),
        a.len() > 0,
        0 <= m < b.len(),
    ensures
        within(a.drop_first(), pairs),
        within(b.remove(m), pairs),
{
    assert forall|i: int| 0 <= i < a.drop_first().len() implies pairs.contains(#[trigger] a.drop_first()[i]) by {
        assert(a.drop_first()[i] == a[i + 1]);
    }
    assert forall|i: int| 0 <= i < b.remove(m).len() implies pairs.contains(#[trigger] b.remove(m)[i]) by {
        if i < m {
            assert(b.remove(m)[i] == b[i]);
        } else {
            assert(b.remove(m)[i] == b[i + 1]);
        }
    }
}

/// Pairs that are matched are the same pairs.
proof fn lemma_matched_same(a: Seq<PairView>, b: Seq<PairView>, pairs: Set<PairView>)
    requires
        orderly_on(pairs),
        within(a, pairs),
        within(b, pairs),
        matched(a, b),
    ensures
        same_pairs(a, b, pairs),
    decreases a.len(),
{
    if a.len() > 0 {
        let m = find_pair(a[0], b, 0);
        lemma_find_pair(a[0], b, 0);
        let tail = a.drop_first();
        let rest = b.remove(m);
        lemma_within_parts(a, b, m, pairs);
        lemma_matched_same(tail, rest, pairs);
        assert(pair_equal(a[0], b[m]));
        assert(pair_equal(b[m], a[0]));
        assert(pair_equal(a[0], a[0]));
        assert(pair_equal(b[m], b[m]));
        assert forall|i: int| 0 <= i < a.len() implies pair_equal(#[trigger] a[i], a[i]) by {
            if i > 0 {
                assert(tail[i - 1] == a[i]);
            }
        }
        assert forall|j: int| 0 <= j < b.len() implies pair_equal(#[trigger] b[j], b[j]) by {
            if j < m {
                assert(rest[j] == b[j]);
            } else if j > m {
                assert(rest[j - 1] == b[j]);
            }
        }
        assert forall|x: PairView| pairs.contains(x) implies #[trigger] count(a, x) == count(b, x) by {
            lemma_count_remove(b, m, x);
            assert(count(tail, x) == count(rest, x));
            if pair_equal(a[0], x) {
                assert(pair_equal(b[m], x));
            }
            if pair_equal(b[m], x) {
                assert(pair_equal(a[0], x));
            }
        }
    }
}

/// The same pairs can be matched.
proof fn lemma_same_matched(a: Seq<PairView>, b: Seq<PairView>, pairs: Set<PairView>)
    requires
        orderly_on(pairs),
        within(a, pairs),
        within(b, pairs),
        same_pairs(a, b, pairs),
    ensures
        matched(a, b),
    decreases a.len(),
{
    if a.len() > 0 {
        let tail = a.drop_first();
        assert(pair_equal(a[0], a[0]));
        assert(count(a, a[0]) > 0);
        assert(count(b, a[0]) > 0);
        lemma_count_some(b, a[0]);
        let j = choose|j: int| 0 <= j < b.len() && pair_equal(#[trigger] b[j], a[0]);
        assert(pair_equal(a[0], b[j]));
        lemma_find_pair(a[0], b, 0);
        let m = find_pair(a[0], b, 0);
        assert(m <= j);
        assert(pair_equal(a[0], b[m]));
        assert(pair_equal(b[m], a[0]));
        let rest = b.remove(m);
        lemma_within_parts(a, b, m, pairs);
        assert forall|i: int| 0 <= i < tail.len() implies pair_equal(#[trigger] tail[i], tail[i]) by {
            assert(tail[i] == a[i + 1]);
        }
        assert forall|i: int| 0 <= i < rest.len() implies pair_equal(#[trigger] rest[i], rest[i]) by {
            if i < m {
                assert(rest[i] == b[i]);
            } else {
                assert(rest[i] == b[i + 1]);
            }
        }
        assert forall|x: PairView| pairs.contains(x) implies #[trigger] count(tail, x) == count(rest, x) by {
            lemma_count_remove(b, m, x);
            assert(count(a, x) == count(b, x));
            if pair_equal(a[0], x) {
                assert(pair_equal(b[m], x));
            }
            if pair_equal(b[m], x) {
                assert(pair_equal(a[0], x));
            }
        }
        lemma_same_matched(tail, rest, pairs);
    }
}

/// The pairs whose keys and values are nested less deeply than `h`.
pub open spec fn shallower(h: nat) -> Set<PairView> {
    Set::new(|p: PairView| depth(p.0) < h && depth(p.1) < h)
}

proof fn lemma_flatten_shallower(buckets: Seq<Seq<PairView>>, h: nat)
    requires
        depth(ValueView::Dictionary(buckets)) <= h,
    ensures
        within(buckets.flatten(), shallower(h)),
{
    lemma_flatten_members(buckets);
    let flat = buckets.flatten();
    assert forall|i: int| 0 <= i < flat.len() implies shallower(h).contains(#[trigger] flat[i]) by {
        assert(holds(buckets, flat[i]));
        let (c, k) = choose|c: int, k: int|
            0 <= c < buckets.len() && 0 <= k < buckets[c].len() && #[trigger] buckets[c][k] == flat[i];
        lemma_deepest_bucket(buckets, 0, c, k);
    }
}

/// What matching the pairs of two dictionaries comes to.
proof fn lemma_dictionaries(x: Seq<Seq<PairView>>, y: Seq<Seq<PairView>>)
    ensures
        values_equal(ValueView::Dictionary(x), ValueView::Dictionary(y)) == matched(x.flatten(), y.flatten()),
{
    lemma_pairs_match(x, 0, 0, y.flatten());
    lemma_pairs_from_start(x);
}

/// Among values nested no deeper than `h`, equality is symmetric and transitive.
proof fn lemma_equivalence(a: ValueView, b: ValueView, c: ValueView, h: nat)
    requires
        depth(a) <= h,
        depth(b) <= h,
        depth(c) <= h,
    ensures
        values_equal(a, b) ==> values_equal(b, a),
        values_equal(a, b) && values_equal(b, c) ==> values_equal(a, c),
    decreases h, 2nat,
{
    match a {
        ValueView::Array(x) => {
            if values_equal(a, b) {
                let y = b->Array_0;
                assert forall|i: int| 0 <= i < y.len() implies values_equal(y[i], #[trigger] x[i]) by {
                    lemma_deepest(x, 0, i);
                    lemma_deepest(y, 0, i);
                    assert(values_equal(x[i], y[i]));
                    lemma_equivalence(x[i], y[i], y[i], (h - 1) as nat);
                }
                if values_equal(b, c) {
                    let z = c->Array_0;
                    assert forall|i: int| 0 <= i < x.len() implies values_equal(x[i], #[trigger] z[i]) by {
                        lemma_deepest(x, 0, i);
                        lemma_deepest(y, 0, i);
                        lemma_deepest(z, 0, i);
                        assert(values_equal(x[i], y[i]));
                        assert(values_equal(y[i], z[i]));
                        lemma_equivalence(x[i], y[i], z[i], (h - 1) as nat);
                    }
                }
            }
        },
        ValueView::Dictionary(x) => {
            if values_equal(a, b) {
                let y = b->Dictionary_0;
                let pairs = shallower(h);
                lemma_orderly(h);
                lemma_flatten_shallower(x, h);
                lemma_flatten_shallower(y, h);
                lemma_dictionaries(x, y);
                lemma_dictionaries(y, x);
                lemma_matched_same(x.flatten(), y.flatten(), pairs);
                lemma_same_matched(y.flatten(), x.flatten(), pairs);
                if values_equal(b, c) {
                    let z = c->Dictionary_0;
                    lemma_flatten_shallower(z, h);
                    lemma_dictionaries(y, z);
                    lemma_dictionaries(x, z);
                    lemma_matched_same(y.flatten(), z.flatten(), pairs);
                    lemma_same_matched(x.flatten(), z.flatten(), pairs);
                }
            }
        },
        _ => {},
    }
}

/// Among pairs whose keys and values are nested less deeply than `h`, equality is
/// symmetric and transitive.
proof fn lemma_orderly(h: nat)
    requires
        h > 0,
    ensures
        orderly_on(shallower(h)),
    decreases h, 1nat,
{
    let pairs = shallower(h);
    assert forall|p: PairView, q: PairView|
        pairs.contains(p) && pairs.contains(q) && #[trigger] pair_equal(p, q) implies pair_equal(q, p) by {
        lemma_equivalence(p.0, q.0, q.0, (h - 1) as nat);
        lemma_equivalence(p.1, q.1, q.1, (h - 1) as nat);
    }
    assert forall|p: PairView, q: PairView, r: PairView|
        pairs.contains(p) && pairs.contains(q) && pairs.contains(r) && #[trigger] pair_equal(p, q)
            && #[trigger] pair_equal(q, r) implies pair_equal(p, r) by {
        lemma_equivalence(p.0, q.0, r.0, (h - 1) as nat);
        lemma_equivalence(p.1, q.1, r.1, (h - 1) as nat);
    }
}

/// The larger of two numbers.
pub open spec fn larger(a: nat, b: nat) -> nat {
    if a > b {
        a
    } else {
        b
    }
}

/// Equality of values is symmetric.
pub proof fn law_symmetric(a: ValueView, b: ValueView)
    ensures
        values_equal(a, b) == values_equal(b, a),
{
    let h = larger(depth(a), depth(b));
    lemma_equivalence(a, b, b, h);
    lemma_equivalence(b, a, a, h);
}

/// Equality of values is transitive.
pub proof fn law_transitive(a: ValueView, b: ValueView, c: ValueView)
    requires
        values_equal(a, b),
        values_equal(b, c),
    ensures
        values_equal(a, c),
{
    lemma_equivalence(a, b, c, larger(depth(a), larger(depth(b), depth(c))));
}

/// Two dictionaries are equal if and only if they hold the same pairs, whatever
/// their order and their buckets: they hold equally many pairs, each pair equals
/// itself, and every pair is equalled by as many pairs of the one as of the other.
pub proof fn law_same_pairs(x: Seq<Seq<PairView>>, y: Seq<Seq<PairView>>)
    ensures
        values_equal(ValueView::Dictionary(x), ValueView::Dictionary(y)) <==> same_pairs(
            x.flatten(),
            y.flatten(),
            Set::full(),
        ),
{
    let pairs = Set::<PairView>::full();
    assert forall|p: PairView, q: PairView|
        pairs.contains(p) && pairs.contains(q) && #[trigger] pair_equal(p, q) implies pair_equal(q, p) by {
        law_symmetric(p.0, q.0);
        law_symmetric(p.1, q.1);
    }
    assert forall|p: PairView, q: PairView, r: PairView|
        pairs.contains(p) && pairs.contains(q) && pairs.contains(r) && #[trigger] pair_equal(p, q)
            && #[trigger] pair_equal(q, r) implies pair_equal(p, r) by {
        law_transitive(p.0, q.0, r.0);
        law_transitive(p.1, q.1, r.1);
    }
    lemma_dictionaries(x, y);
    if matched(x.flatten(), y.flatten()) {
        lemma_matched_same(x.flatten(), y.flatten(), pairs);
    }
    if same_pairs(x.flatten(), y.flatten(), pairs) {
        lemma_same_matched(x.flatten(), y.flatten(), pairs);
    }
}

proof fn lemma_pairs_match_themselves(buckets: Seq<Seq<PairView>>, i: int, j: int)
    requires
        0 <= i <= buckets.len(),
        i < buckets.len() ==> 0 <= j <= buckets[i].len(),
        forall|b: int, k: int|
            0 <= b < buckets.len() && 0 <= k < buckets[b].len() ==> pair_equal(
                #[trigger] buckets[b][k],
                buckets[b][k],
            ),
    ensures
        pairs_match(buckets, i, j, pairs_from(buckets, i, j)),
    decreases buckets.len() - i, (if i < buckets.len() { buckets[i].len() - j } else { 0 }),
{
    if i < buckets.len() {
        let later = buckets.subrange(i + 1, buckets.len() as int);
        if j >= buckets[i].len() {
            lemma_pairs_match_themselves(buckets, i + 1, 0);
            if i + 1 < buckets.len() {
                assert(later.first() == buckets[i + 1]);
                assert(later.drop_first() =~= buckets.subrange(i + 2, buckets.len() as int));
                assert(buckets[i + 1].subrange(0, buckets[i + 1].len() as int) =~= buckets[i + 1]);
                assert(pairs_from(buckets, i, j) =~= pairs_from(buckets, i + 1, 0));
            } else {
                assert(pairs_from(buckets, i, j) =~= pairs_from(buckets, i + 1, 0));
            }
        } else {
            let rest = pairs_from(buckets, i, j);
            assert(rest[0] == buckets[i][j]);
            assert(pair_equal(buckets[i][j], rest[0]));
            assert(find_pair(buckets[i][j], rest, 0) == 0);
            assert(rest.remove(0) =~= pairs_from(buckets, i, j + 1));
            lemma_pairs_match_themselves(buckets, i, j + 1);
        }
    }
}

/// A value in which no NaN stands equals itself; so a dictionary without a NaN
/// equals itself.
pub proof fn law_equals_itself(v: ValueView)
    requires
        without_nan(v),
    ensures
        values_equal(v, v),
    decreases v,
{
    match v {
        ValueView::Array(items) => {
            assert forall|i: int| 0 <= i < items.len() implies values_equal(items[i], #[trigger] items[i]) by {
                law_equals_itself(items[i]);
            }
        },
        ValueView::Dictionary(buckets) => {
            assert forall|b: int, k: int| 0 <= b < buckets.len() && 0 <= k < buckets[b].len() implies pair_equal(
                #[trigger] buckets[b][k],
                buckets[b][k],
            ) by {
                law_equals_itself(buckets[b][k].0);
                law_equals_itself(buckets[b][k].1);
            }
            lemma_pairs_match_themselves(buckets, 0, 0);
            if buckets.len() > 0 {
                assert(buckets.first() == buckets[0]);
                assert(buckets.drop_first() =~= buckets.subrange(1, buckets.len() as int));
                assert(buckets[0].subrange(0, buckets[0].len() as int) =~= buckets[0]);
                assert(pairs_from(buckets, 0, 0) =~= buckets.flatten());
            } else {
                assert(pairs_from(buckets, 0, 0) =~= buckets.flatten());
            }
        },
        _ => {},
    }
}

} // verus!
