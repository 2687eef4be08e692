//! The dictionary of the language: a chained hash table keyed by values.

use vstd::prelude::*;
use vstd::pervasive::unreached;
use vstd::std_specs::cmp::PartialEqSpecImpl;
use crate::equality::{law_symmetric, law_transitive};
use crate::error::{ErrorType, ErrorView};
use crate::host::{pieces_view, Piece, PieceView};
use crate::operations::{display_into, display_pairs, text};
use crate::value::{
    copy_value, find_pair, pair_equal, pairs_match, same_value, value_view, values_equal, values_view, PairView,
    Value, ValueView,
};

verus! {

/// A key and the value stored under it.
#[derive(Clone, Debug, PartialEq, Eq)]
pub struct KeyValue<T> {
    pub key: T,
    pub value: T,
}

/// The number of buckets of a new table.
pub const INITIAL_CAPACITY: usize = 16;

/// The largest number of buckets of a table.
pub const MAX_CAPACITY: usize = 65536;

/// The prime that keeps hashes small.
pub const MAX_CALC: usize = 65381;

/// How many scalars and characters of a key are hashed at most.
pub const HASH_FIRST_N: usize = 300;

/// The buckets of a table with their bookkeeping.
#[derive(Debug)]
pub struct Buckets {
    array: Vec<Vec<KeyValue<Value>>>,
    entries: usize,
    current_capacity: usize,
}

/// A hash table from values to values, with chained buckets.
#[derive(Debug)]
pub struct HashTable {
    inner: Buckets,
}

/// Why a value cannot be a key.
pub ghost enum HashStop {
    Function,
    Dictionary,
}

/// The hash of a number: its bit pattern without the twelve lowest bits, reduced
/// modulo the prime and mixed as `x * (x + 3)`.
pub open spec fn number_hash(bits: u64) -> nat {
    let x = ((bits / 4096) % (MAX_CALC as u64)) as nat;
    (x * (x + 3)) % (MAX_CALC as nat)
}

/// One step of the djb2 recurrence.
pub open spec fn djb2(h: nat, c: nat) -> nat {
    (h * 33 + c) % (MAX_CALC as nat)
}

/// The djb2 hash of the characters of `s` from `index` on, started at `h`, which
/// stops when the budget is used up. Gives the hash and the budget that is left.
pub open spec fn string_hash(s: Seq<char>, index: int, h: nat, budget: nat) -> (nat, nat)
    decreases s.len() - index,
{
    if budget == 0 || index < 0 || index >= s.len() {
        (h, budget)
    } else {
        string_hash(s, index + 1, djb2(h, s[index] as nat), (budget - 1) as nat)
    }
}

/// The hash of a key and the budget that is left of `budget` after it, or why the
/// key cannot be hashed. A scalar uses up one unit of the budget, a string one for
/// each character; an array hashes its elements in turn with what is left.
pub open spec fn hash_of(key: ValueView, budget: nat) -> Result<(nat, nat), HashStop>
    decreases key, 0nat,
{
    match key {
        ValueView::Null => Ok((3, (budget - 1) as nat)),
        ValueView::Bool(b) => Ok((if b { 1 } else { 2 }, (budget - 1) as nat)),
        ValueView::Number(x) => Ok((number_hash(x.bits), (budget - 1) as nat)),
        ValueView::String_(s) => Ok(string_hash(s, 0, 5381, budget)),
        ValueView::Array(items) => elements_hash(items, 0, 5381, budget),
        ValueView::Dictionary(_) => Err(HashStop::Dictionary),
        ValueView::Function { .. } => Err(HashStop::Function),
        ValueView::BuiltinFunction(_) => Err(HashStop::Function),
    }
}

/// The djb2 hash over the hashes of the elements of `items` from `index` on.
pub open spec fn elements_hash(items: Seq<ValueView>, index: int, h: nat, budget: nat) -> Result<
    (nat, nat),
    HashStop,
>
    decreases items, items.len() - index,
{
    if budget == 0 || index < 0 || index >= items.len() {
        Ok((h, budget))
    } else {
        match hash_of(items[index], budget) {
            Err(stop) => Err(stop),
            Ok((element, left)) => elements_hash(
                items,
                index + 1,
                djb2(h, element % (MAX_CALC as nat)),
                left,
            ),
        }
    }
}

/// The error that a key which cannot be hashed is refused with.
pub open spec fn stop_error(stop: HashStop, line: usize) -> ErrorView {
    match stop {
        HashStop::Function => ErrorView::CannotHashFunction { line },
        HashStop::Dictionary => ErrorView::CannotHashDictionary { line },
    }
}

/// Whether a value can be a key.
pub open spec fn hashable(key: ValueView) -> bool {
    hash_of(key, HASH_FIRST_N as nat) is Ok
}

/// The bucket of a key in a table of `capacity` buckets.
pub open spec fn bucket_of(key: ValueView, capacity: int) -> int {
    (hash_of(key, HASH_FIRST_N as nat)->Ok_0.0 as int) % capacity
}

/// The first index at or after `from` at which `bucket` holds a key equal to
/// `key`; the length of `bucket` if there is none.
pub open spec fn key_position(bucket: Seq<PairView>, key: ValueView, from: int) -> int
    decreases bucket.len() - from,
{
    if from < 0 || from >= bucket.len() {
        bucket.len() as int
    } else if values_equal(bucket[from].0, key) {
        from
    } else {
        key_position(bucket, key, from + 1)
    }
}

/// The number of pairs in all buckets.
pub open spec fn total(buckets: Seq<Seq<PairView>>) -> nat
    decreases buckets.len(),
{
    if buckets.len() == 0 {
        0
    } else {
        total(buckets.drop_last()) + buckets.last().len()
    }
}

/// The numbers of buckets that a table can have: 16, doubled up to 65536.
pub open spec fn valid_capacity(c: int) -> bool {
    c == 16 || c == 32 || c == 64 || c == 128 || c == 256 || c == 512 || c == 1024 || c == 2048 || c
        == 4096 || c == 8192 || c == 16384 || c == 32768 || c == 65536
}

/// No two keys of the bucket are equal.
pub open spec fn distinct_keys(bucket: Seq<PairView>) -> bool {
    forall|i: int, j: int|
        0 <= i < j < bucket.len() ==> !values_equal((#[trigger] bucket[i]).0, (#[trigger] bucket[j]).0)
}

/// What holds of the buckets of every table: the number of buckets is valid, every
/// key can be hashed and sits in the bucket that its hash names, no two keys of a
/// bucket are equal, and unless the table has reached its largest size it is at
/// most three quarters full.
pub open spec fn well_formed(buckets: Seq<Seq<PairView>>) -> bool {
    &&& valid_capacity(buckets.len() as int)
    &&& forall|b: int| 0 <= b < buckets.len() ==> distinct_keys(#[trigger] buckets[b])
    &&& forall|b: int, i: int|
        0 <= b < buckets.len() && 0 <= i < buckets[b].len() ==> hashable(#[trigger] buckets[b][i].0)
            && bucket_of(buckets[b][i].0, buckets.len() as int) == b
    &&& buckets.len() < MAX_CAPACITY ==> total(buckets) * 4 <= buckets.len() * 3
    &&& total(buckets) <= usize::MAX
}

/// What a lookup of `key` finds in the buckets: the value of the first pair with an
/// equal key in the bucket of `key`.
pub open spec fn lookup(buckets: Seq<Seq<PairView>>, key: ValueView) -> Option<ValueView> {
    let bucket = buckets[bucket_of(key, buckets.len() as int)];
    let at = key_position(bucket, key, 0);
    if at < bucket.len() {
        Some(bucket[at].1)
    } else {
        None
    }
}

/// The buckets after `value` has been stored under `key`, before any growth: the
/// first pair with an equal key in the bucket of `key` gets the value, and if there
/// is none the pair goes to the end of that bucket.
pub open spec fn placed(buckets: Seq<Seq<PairView>>, key: ValueView, value: ValueView) -> Seq<Seq<PairView>> {
    let b = bucket_of(key, buckets.len() as int);
    let bucket = buckets[b];
    let at = key_position(bucket, key, 0);
    if at < bucket.len() {
        buckets.update(b, bucket.update(at, (bucket[at].0, value)))
    } else {
        buckets.update(b, bucket.push((key, value)))
    }
}

/// The buckets after the first pair with a key equal to `key` has left its bucket.
pub open spec fn without(buckets: Seq<Seq<PairView>>, key: ValueView) -> Seq<Seq<PairView>> {
    let b = bucket_of(key, buckets.len() as int);
    buckets.update(b, buckets[b].remove(key_position(buckets[b], key, 0)))
}

/// `count` empty buckets.
pub open spec fn empty_buckets(count: nat) -> Seq<Seq<PairView>> {
    Seq::new(count, |i: int| Seq::<PairView>::empty())
}

/// Those of the pairs whose key belongs in bucket `t` of `capacity` buckets, in
/// their order.
pub open spec fn bucket_entries(entries: Seq<PairView>, capacity: int, t: int) -> Seq<PairView>
    decreases entries.len(),
{
    if entries.len() == 0 {
        Seq::empty()
    } else {
        let front = bucket_entries(entries.drop_last(), capacity, t);
        if bucket_of(entries.last().0, capacity) == t {
            front.push(entries.last())
        } else {
            front
        }
    }
}

/// The pairs spread over `capacity` buckets: each bucket holds the pairs whose
/// key belongs in it, in their order.
pub open spec fn spread(entries: Seq<PairView>, capacity: int) -> Seq<Seq<PairView>> {
    Seq::new(capacity as nat, |t: int| bucket_entries(entries, capacity, t))
}

/// Whether the buckets hold more than three quarters of what they have room for,
/// and can still grow.
pub open spec fn overloaded(buckets: Seq<Seq<PairView>>) -> bool {
    buckets.len() < MAX_CAPACITY && total(buckets) * 4 > buckets.len() * 3
}

/// The buckets after growth, if they are overloaded: twice as many buckets, with
/// every pair, taken bucket by bucket, put where its hash now belongs.
pub open spec fn grown(buckets: Seq<Seq<PairView>>) -> Seq<Seq<PairView>> {
    if overloaded(buckets) {
        spread(buckets.flatten(), 2 * buckets.len() as int)
    } else {
        buckets
    }
}

/// The buckets after an insertion.
pub open spec fn inserted(buckets: Seq<Seq<PairView>>, key: ValueView, value: ValueView) -> Seq<Seq<PairView>> {
    grown(placed(buckets, key, value))
}

/// What `get` gives.
pub open spec fn get_result(buckets: Seq<Seq<PairView>>, key: ValueView, line: usize) -> Result<
    ValueView,
    ErrorView,
> {
    match hash_of(key, HASH_FIRST_N as nat) {
        Err(stop) => Err(stop_error(stop, line)),
        Ok(_) => match lookup(buckets, key) {
            Some(v) => Ok(v),
            None => Err(ErrorView::KeyError { key, line }),
        },
    }
}

/// What `insert` makes of the buckets, or the error it refuses with.
pub open spec fn insert_result(buckets: Seq<Seq<PairView>>, key: ValueView, value: ValueView, line: usize) -> Result<
    Seq<Seq<PairView>>,
    ErrorView,
> {
    match hash_of(key, HASH_FIRST_N as nat) {
        Err(stop) => Err(stop_error(stop, line)),
        Ok(_) => if lookup(buckets, key) is None && total(buckets) == usize::MAX {
            Err(ErrorView::OutOfBoundsIndex { index: usize::MAX, line })
        } else {
            Ok(inserted(buckets, key, value))
        },
    }
}

/// What `remove` makes of the buckets, or the error it refuses with.
pub open spec fn remove_result(buckets: Seq<Seq<PairView>>, key: ValueView, line: usize) -> Result<
    Seq<Seq<PairView>>,
    ErrorView,
> {
    match hash_of(key, HASH_FIRST_N as nat) {
        Err(stop) => Err(stop_error(stop, line)),
        Ok(_) => match lookup(buckets, key) {
            Some(_) => Ok(without(buckets, key)),
            None => Err(ErrorView::KeyError { key, line }),
        },
    }
}

proof fn lemma_key_position_update(bucket: Seq<PairView>, key: ValueView, at: int, value: ValueView, from: int)
    requires
        0 <= at < bucket.len(),
    ensures
        key_position(bucket.update(at, (bucket[at].0, value)), key, from) == key_position(bucket, key, from),
    decreases bucket.len() - from,
{
    if 0 <= from < bucket.len() {
        lemma_key_position_update(bucket, key, at, value, from + 1);
    }
}

proof fn lemma_key_position_bound(bucket: Seq<PairView>, key: ValueView, from: int)
    requires
        0 <= from,
    ensures
        from <= key_position(bucket, key, from) || key_position(bucket, key, from) == bucket.len(),
        key_position(bucket, key, from) <= bucket.len(),
        key_position(bucket, key, from) < bucket.len() ==> values_equal(
            bucket[key_position(bucket, key, from)].0,
            key,
        ),
    decreases bucket.len() - from,
{
    if from < bucket.len() {
        lemma_key_position_bound(bucket, key, from + 1);
    }
}

/// Storing a value under a key that is present, and then another: only the second
/// counts, and a lookup in between finds the first.
pub proof fn lemma_placed_twice(buckets: Seq<Seq<PairView>>, key: ValueView, first: ValueView, second: ValueView)
    requires
        buckets.len() > 0,
        lookup(buckets, key) is Some,
    ensures
        lookup(placed(buckets, key, first), key) == Some(first),
        placed(placed(buckets, key, first), key, second) == placed(buckets, key, second),
        placed(buckets, key, first).len() == buckets.len(),
{
    let b = bucket_of(key, buckets.len() as int);
    let bucket = buckets[b];
    let at = key_position(bucket, key, 0);
    lemma_key_position_bound(bucket, key, 0);
    lemma_key_position_update(bucket, key, at, first, 0);
    assert(placed(placed(buckets, key, first), key, second) =~= placed(buckets, key, second)) by {
        assert(bucket.update(at, (bucket[at].0, first)).update(at, (bucket[at].0, second)) =~= bucket.update(
            at,
            (bucket[at].0, second),
        ));
    }
}

/// Storing under a key the value that is already stored under it changes nothing.
pub proof fn lemma_placed_same(buckets: Seq<Seq<PairView>>, key: ValueView)
    requires
        buckets.len() > 0,
        lookup(buckets, key) is Some,
    ensures
        placed(buckets, key, lookup(buckets, key).unwrap()) == buckets,
{
    let b = bucket_of(key, buckets.len() as int);
    let bucket = buckets[b];
    let at = key_position(bucket, key, 0);
    lemma_key_position_bound(bucket, key, 0);
    assert(bucket.update(at, (bucket[at].0, bucket[at].1)) =~= bucket);
    assert(placed(buckets, key, lookup(buckets, key).unwrap()) =~= buckets);
}

/// What holds of buckets but for their load.
pub open spec fn orderly(buckets: Seq<Seq<PairView>>) -> bool {
    &&& valid_capacity(buckets.len() as int)
    &&& forall|b: int| 0 <= b < buckets.len() ==> distinct_keys(#[trigger] buckets[b])
    &&& forall|b: int, i: int|
        0 <= b < buckets.len() && 0 <= i < buckets[b].len() ==> hashable(#[trigger] buckets[b][i].0)
            && bucket_of(buckets[b][i].0, buckets.len() as int) == b
}

/// Storing a value keeps the buckets orderly, and adds a pair if the key is new.
proof fn lemma_placed(buckets: Seq<Seq<PairView>>, key: ValueView, value: ValueView)
    requires
        orderly(buckets),
        hashable(key),
    ensures
        orderly(placed(buckets, key, value)),
        placed(buckets, key, value).len() == buckets.len(),
        total(placed(buckets, key, value)) == total(buckets) + if lookup(buckets, key) is None {
            1nat
        } else {
            0nat
        },
{
    let b = bucket_of(key, buckets.len() as int);
    let bucket = buckets[b];
    let at = key_position(bucket, key, 0);
    let after = placed(buckets, key, value);
    lemma_key_position_bound(bucket, key, 0);
    lemma_key_position_none(bucket, key, 0);
    lemma_total_update(buckets, b, after[b]);
    assert(distinct_keys(buckets[b]));
    assert forall|c: int| 0 <= c < after.len() implies distinct_keys(#[trigger] after[c]) by {
        assert(distinct_keys(buckets[c]));
        assert forall|i: int, j: int| 0 <= i < j < after[c].len() implies !values_equal(
            (#[trigger] after[c][i]).0,
            (#[trigger] after[c][j]).0,
        ) by {
            if c == b && at >= bucket.len() && j == bucket.len() {
                assert(after[c][i] == bucket[i]);
            } else {
                assert(after[c][i].0 == buckets[c][i].0);
                assert(after[c][j].0 == buckets[c][j].0);
            }
        }
    }
    assert forall|c: int, i: int| 0 <= c < after.len() && 0 <= i < after[c].len() implies hashable(
        #[trigger] after[c][i].0,
    ) && bucket_of(after[c][i].0, after.len() as int) == c by {
        if c == b && at >= bucket.len() && i == bucket.len() {
        } else {
            assert(after[c][i].0 == buckets[c][i].0);
        }
    }
}

/// Removing a pair keeps the buckets orderly, and leaves one pair less.
proof fn lemma_without(buckets: Seq<Seq<PairView>>, key: ValueView)
    requires
        orderly(buckets),
        hashable(key),
        lookup(buckets, key) is Some,
    ensures
        orderly(without(buckets, key)),
        without(buckets, key).len() == buckets.len(),
        total(without(buckets, key)) == total(buckets) - 1,
{
    let b = bucket_of(key, buckets.len() as int);
    let bucket = buckets[b];
    let at = key_position(bucket, key, 0);
    let after = without(buckets, key);
    lemma_key_position_bound(bucket, key, 0);
    lemma_total_update(buckets, b, after[b]);
    assert forall|c: int| 0 <= c < after.len() implies distinct_keys(#[trigger] after[c]) by {
        assert(distinct_keys(buckets[c]));
        assert forall|i: int, j: int| 0 <= i < j < after[c].len() implies !values_equal(
            (#[trigger] after[c][i]).0,
            (#[trigger] after[c][j]).0,
        ) by {
            let from = if c == b && i >= at { i + 1 } else { i };
            let to = if c == b && j >= at { j + 1 } else { j };
            assert(after[c][i] == buckets[c][from]);
            assert(after[c][j] == buckets[c][to]);
        }
    }
    assert forall|c: int, i: int| 0 <= c < after.len() && 0 <= i < after[c].len() implies hashable(
        #[trigger] after[c][i].0,
    ) && bucket_of(after[c][i].0, after.len() as int) == c by {
        let from = if c == b && i >= at { i + 1 } else { i };
        assert(after[c][i] == buckets[c][from]);
    }
}

proof fn lemma_key_position_none(bucket: Seq<PairView>, key: ValueView, from: int)
    requires
        0 <= from,
    ensures
        key_position(bucket, key, from) == bucket.len() <==> forall|i: int|
            from <= i < bucket.len() ==> !values_equal((#[trigger] bucket[i]).0, key),
    decreases bucket.len() - from,
{
    if from < bucket.len() {
        lemma_key_position_none(bucket, key, from + 1);
        lemma_key_position_bound(bucket, key, from + 1);
        if values_equal(bucket[from].0, key) {
        } else {
            assert forall|i: int| from <= i < bucket.len() && key_position(bucket, key, from)
                == bucket.len() implies !values_equal((#[trigger] bucket[i]).0, key) by {
                if i > from {
                }
            }
        }
    }
}

/// A key belongs in the same one of `capacity` buckets as every key with which it
/// shares a bucket when there are twice as many.
proof fn lemma_halved(a: ValueView, b: ValueView, capacity: int)
    requires
        capacity > 0,
        bucket_of(a, 2 * capacity) == bucket_of(b, 2 * capacity),
    ensures
        bucket_of(a, capacity) == bucket_of(b, capacity),
{
    let x = hash_of(a, HASH_FIRST_N as nat)->Ok_0.0 as int;
    let y = hash_of(b, HASH_FIRST_N as nat)->Ok_0.0 as int;
    vstd::arithmetic::div_mod::lemma_mod_mod(x, capacity, 2);
    vstd::arithmetic::div_mod::lemma_mod_mod(y, capacity, 2);
    assert(capacity * 2 == 2 * capacity);
}

/// Whether of two pairs that belong in the same one of `capacity` buckets the one
/// that stands first has a key that is not equal to that of the other.
pub open spec fn apart(entries: Seq<PairView>, capacity: int) -> bool {
    forall|i: int, j: int|
        0 <= i < j < entries.len() && bucket_of((#[trigger] entries[i]).0, capacity) == bucket_of(
            (#[trigger] entries[j]).0,
            capacity,
        ) ==> !values_equal(entries[i].0, entries[j].0)
}

proof fn lemma_flatten_apart(buckets: Seq<Seq<PairView>>, capacity: int)
    requires
        forall|b: int, i: int|
            0 <= b < buckets.len() && 0 <= i < buckets[b].len() ==> bucket_of(
                (#[trigger] buckets[b][i]).0,
                capacity,
            ) == b,
        forall|b: int| 0 <= b < buckets.len() ==> distinct_keys(#[trigger] buckets[b]),
    ensures
        apart(buckets.flatten(), capacity),
        forall|k: int|
            0 <= k < buckets.flatten().len() ==> 0 <= bucket_of((#[trigger] buckets.flatten()[k]).0, capacity)
                < buckets.len(),
    decreases buckets.len(),
{
    buckets.lemma_flatten_and_flatten_alt_are_equivalent();
    if buckets.len() > 0 {
        let front = buckets.drop_last();
        let last = buckets.last();
        front.lemma_flatten_and_flatten_alt_are_equivalent();
        assert forall|b: int, i: int| 0 <= b < front.len() && 0 <= i < front[b].len() implies bucket_of(
            (#[trigger] front[b][i]).0,
            capacity,
        ) == b by {
            assert(front[b][i] == buckets[b][i]);
        }
        assert forall|b: int| 0 <= b < front.len() implies distinct_keys(#[trigger] front[b]) by {
            assert(front[b] == buckets[b]);
        }
        lemma_flatten_apart(front, capacity);
        let flat = buckets.flatten();
        let head = front.flatten();
        assert(flat =~= head + last);
        assert forall|k: int| 0 <= k < flat.len() implies 0 <= bucket_of((#[trigger] flat[k]).0, capacity)
            < buckets.len() by {
            if k < head.len() {
                assert(flat[k] == head[k]);
            } else {
                assert(flat[k] == buckets[buckets.len() - 1][k - head.len()]);
            }
        }
        assert forall|i: int, j: int|
            0 <= i < j < flat.len() && bucket_of((#[trigger] flat[i]).0, capacity) == bucket_of(
                (#[trigger] flat[j]).0,
                capacity,
            ) implies !values_equal(flat[i].0, flat[j].0) by {
            if j < head.len() {
                assert(flat[i] == head[i] && flat[j] == head[j]);
            } else if i < head.len() {
                assert(flat[i] == head[i]);
                assert(flat[j] == buckets[buckets.len() - 1][j - head.len()]);
            } else {
                assert(flat[i] == last[i - head.len()]);
                assert(flat[j] == last[j - head.len()]);
                assert(distinct_keys(buckets[buckets.len() - 1]));
            }
        }
    }
}

/// The pairs of a bucket of spread pairs are pairs that belong in it, and no two
/// of them have equal keys if the pairs are apart.
proof fn lemma_bucket_entries(entries: Seq<PairView>, capacity: int, t: int)
    ensures
        forall|m: int|
            0 <= m < bucket_entries(entries, capacity, t).len() ==> bucket_of(
                (#[trigger] bucket_entries(entries, capacity, t)[m]).0,
                capacity,
            ) == t && entries.contains(bucket_entries(entries, capacity, t)[m]),
        apart(entries, capacity) ==> distinct_keys(bucket_entries(entries, capacity, t)),
        bucket_entries(entries, capacity, t).len() <= entries.len(),
    decreases entries.len(),
{
    if entries.len() > 0 {
        let front = entries.drop_last();
        let last = entries.last();
        lemma_bucket_entries(front, capacity, t);
        let kept = bucket_entries(front, capacity, t);
        let all = bucket_entries(entries, capacity, t);
        assert forall|m: int| 0 <= m < all.len() implies bucket_of((#[trigger] all[m]).0, capacity) == t
            && entries.contains(all[m]) by {
            if m < kept.len() {
                assert(all[m] == kept[m]);
                let k = choose|k: int| 0 <= k < front.len() && front[k] == kept[m];
                assert(entries[k] == kept[m]);
            } else {
                assert(all[m] == entries[entries.len() - 1]);
            }
        }
        if apart(entries, capacity) {
            assert forall|i: int, j: int|
                0 <= i < j < front.len() && bucket_of((#[trigger] front[i]).0, capacity) == bucket_of(
                    (#[trigger] front[j]).0,
                    capacity,
                ) implies !values_equal(front[i].0, front[j].0) by {
                assert(front[i] == entries[i] && front[j] == entries[j]);
            }
            assert forall|i: int, j: int| 0 <= i < j < all.len() implies !values_equal(
                (#[trigger] all[i]).0,
                (#[trigger] all[j]).0,
            ) by {
                if j < kept.len() {
                    assert(all[i] == kept[i] && all[j] == kept[j]);
                } else {
                    assert(all[i] == kept[i]);
                    assert(all[j] == last);
                    let k = choose|k: int| 0 <= k < front.len() && front[k] == kept[i];
                    assert(entries[k] == kept[i]);
                    assert(entries[entries.len() - 1] == last);
                }
            }
        }
    }
}

proof fn lemma_total_update(buckets: Seq<Seq<PairView>>, b: int, bucket: Seq<PairView>)
    requires
        0 <= b < buckets.len(),
    ensures
        total(buckets.update(b, bucket)) == total(buckets) - buckets[b].len() + bucket.len(),
    decreases buckets.len(),
{
    let after = buckets.update(b, bucket);
    if b == buckets.len() - 1 {
        assert(after.drop_last() =~= buckets.drop_last());
    } else {
        assert(after.drop_last() =~= buckets.drop_last().update(b, bucket));
        lemma_total_update(buckets.drop_last(), b, bucket);
    }
}

proof fn lemma_total_empty(count: nat)
    ensures
        total(empty_buckets(count)) == 0,
    decreases count,
{
    if count > 0 {
        assert(empty_buckets(count).drop_last() =~= empty_buckets((count - 1) as nat));
        lemma_total_empty((count - 1) as nat);
    }
}

proof fn lemma_total_flatten(buckets: Seq<Seq<PairView>>)
    ensures
        total(buckets) == buckets.flatten().len(),
    decreases buckets.len(),
{
    buckets.lemma_flatten_and_flatten_alt_are_equivalent();
    if buckets.len() > 0 {
        buckets.drop_last().lemma_flatten_and_flatten_alt_are_equivalent();
        lemma_total_flatten(buckets.drop_last());
    }
}

proof fn lemma_flatten_hashable(buckets: Seq<Seq<PairView>>)
    requires
        forall|b: int, i: int| 0 <= b < buckets.len() && 0 <= i < buckets[b].len() ==> hashable(#[trigger] buckets[b][i].0),
    ensures
        forall|k: int| 0 <= k < buckets.flatten().len() ==> hashable(#[trigger] buckets.flatten()[k].0),
    decreases buckets.len(),
{
    buckets.lemma_flatten_and_flatten_alt_are_equivalent();
    if buckets.len() > 0 {
        let front = buckets.drop_last();
        front.lemma_flatten_and_flatten_alt_are_equivalent();
        assert forall|b: int, i: int| 0 <= b < front.len() && 0 <= i < front[b].len() implies hashable(
            #[trigger] front[b][i].0,
        ) by {
            assert(front[b][i] == buckets[b][i]);
        }
        lemma_flatten_hashable(front);
        assert forall|k: int| 0 <= k < buckets.flatten().len() implies hashable(
            #[trigger] buckets.flatten()[k].0,
        ) by {
            if k < front.flatten().len() {
                assert(buckets.flatten()[k] == front.flatten()[k]);
            } else {
                let i = k - front.flatten().len();
                assert(buckets.flatten()[k] == buckets[buckets.len() - 1][i]);
            }
        }
    }
}

proof fn lemma_hash_bounds(key: ValueView, budget: nat)
    requires
        budget > 0,
        hash_of(key, budget) is Ok,
    ensures
        hash_of(key, budget)->Ok_0.0 < MAX_CALC,
        hash_of(key, budget)->Ok_0.1 <= budget,
    decreases key, 0nat,
{
    match key {
        ValueView::String_(s) => lemma_string_hash_bounds(s, 0, 5381, budget),
        ValueView::Array(items) => lemma_elements_hash_bounds(items, 0, 5381, budget),
        _ => {},
    }
}

proof fn lemma_string_hash_bounds(s: Seq<char>, index: int, h: nat, budget: nat)
    requires
        h < MAX_CALC,
    ensures
        string_hash(s, index, h, budget).0 < MAX_CALC,
        string_hash(s, index, h, budget).1 <= budget,
    decreases s.len() - index,
{
    if !(budget == 0 || index < 0 || index >= s.len()) {
        lemma_string_hash_bounds(s, index + 1, djb2(h, s[index] as nat), (budget - 1) as nat);
    }
}

proof fn lemma_elements_hash_bounds(items: Seq<ValueView>, index: int, h: nat, budget: nat)
    requires
        h < MAX_CALC,
        elements_hash(items, index, h, budget) is Ok,
    ensures
        elements_hash(items, index, h, budget)->Ok_0.0 < MAX_CALC,
        elements_hash(items, index, h, budget)->Ok_0.1 <= budget,
    decreases items, items.len() - index,
{
    if !(budget == 0 || index < 0 || index >= items.len()) {
        lemma_hash_bounds(items[index], budget);
        let (element, left) = hash_of(items[index], budget)->Ok_0;
        lemma_elements_hash_bounds(items, index + 1, djb2(h, element % (MAX_CALC as nat)), left);
    }
}

/// Computes the hash of a key and the budget that is left after it.
pub fn hash(key: &Value, elements_left: usize, line: usize) -> (r: Result<(usize, usize), ErrorType>)
    requires
        elements_left > 0,
    ensures
        match hash_of(key@, elements_left as nat) {
            Ok((h, left)) => r matches Ok(found) && found.0 == h && found.1 == left,
            Err(stop) => r matches Err(e) && e@ == stop_error(stop, line),
        },
    decreases *key,
{
    match key {
        Value::Array(array) => {
            let mut hash_value: usize = 5381;
            let mut left: usize = elements_left;
            let mut index: usize = 0;
            while left > 0 && index < array.len()
                invariant
                    index <= array.len(),
                    hash_value < MAX_CALC,
                    *key == Value::Array(*array),
                    elements_hash(values_view(array@), index as int, hash_value as nat, left as nat)
                        == elements_hash(values_view(array@), 0, 5381, elements_left as nat),
                decreases array.len() - index,
            {
                proof {
                    if hash_of(array@[index as int]@, left as nat) is Ok {
                        lemma_hash_bounds(array@[index as int]@, left as nat);
                    }
                }
                match hash(&array[index], left, line) {
                    Err(e) => {
                        return Err(e);
                    },
                    Ok(result) => {
                        let curr = result.0 % MAX_CALC;
                        hash_value = (hash_value * 33 + curr) % MAX_CALC;
                        left = result.1;
                        index += 1;
                    },
                }
            }
            Ok((hash_value, left))
        },
        Value::Bool(b) => {
            if *b {
                Ok((1, elements_left - 1))
            } else {
                Ok((2, elements_left - 1))
            }
        },
        Value::Dictionary(..) => Err(ErrorType::CannotHashDictionary { line }),
        Value::Function { .. } => Err(ErrorType::CannotHashFunction { line }),
        Value::BuiltinFunction(..) => Err(ErrorType::CannotHashFunction { line }),
        Value::Null => Ok((3, elements_left - 1)),
        Value::Number(x) => {
            let reduced: u64 = (x.to_bits() / 4096) % 65381;
            let binary: usize = reduced as usize;
            assert(binary * (binary + 3) <= 65380 * 65383) by (nonlinear_arith)
                requires
                    binary <= 65380,
            ;
            Ok(((binary * (binary + 3)) % MAX_CALC, elements_left - 1))
        },
        Value::String_(s) => {
            let text = s.as_str();
            let length = text.unicode_len();
            let mut hash_value: usize = 5381;
            let mut left: usize = elements_left;
            let mut index: usize = 0;
            while left > 0 && index < length
                invariant
                    index <= length,
                    length == text@.len(),
                    hash_value < MAX_CALC,
                    string_hash(text@, index as int, hash_value as nat, left as nat) == string_hash(
                        text@,
                        0,
                        5381,
                        elements_left as nat,
                    ),
                decreases length - index,
            {
                let c = text.get_char(index);
                hash_value = (hash_value * 33 + (c as u32) as usize) % MAX_CALC;
                left -= 1;
                index += 1;
            }
            Ok((hash_value, left))
        },
    }
}

/// The pairs of one bucket, as mathematical values.
pub open spec fn bucket_view(s: Seq<KeyValue<Value>>) -> Seq<PairView>
    decreases s,
{
    Seq::new(
        s.len(),
        |i: int| if 0 <= i < s.len() { (value_view(s[i].key), value_view(s[i].value)) } else { arbitrary() },
    )
}

/// The buckets of a table, as mathematical values.
pub open spec fn buckets_view(s: Seq<Vec<KeyValue<Value>>>) -> Seq<Seq<PairView>>
    decreases s,
{
    Seq::new(s.len(), |i: int| if 0 <= i < s.len() { bucket_view(s[i]@) } else { arbitrary() })
}

impl Buckets {
    /// The buckets, each the sequence of its pairs.
    pub closed spec fn view(&self) -> Seq<Seq<PairView>> {
        buckets_view(self.array@)
    }

    /// The buckets are well formed and the bookkeeping agrees with them.
    pub closed spec fn consistent(&self) -> bool {
        &&& well_formed(self@)
        &&& self.current_capacity == self.array@.len()
        &&& self.entries == total(self@)
    }
}

/// `count` empty buckets.
fn empty_array(count: usize) -> (r: Vec<Vec<KeyValue<Value>>>)
    ensures
        buckets_view(r@) == empty_buckets(count as nat),
        r@.len() == count,
{
    let mut array: Vec<Vec<KeyValue<Value>>> = Vec::new();
    let mut i: usize = 0;
    while i < count
        invariant
            i <= count,
            array@.len() == i,
            forall|j: int| 0 <= j < i ==> array@[j]@.len() == 0,
        decreases count - i,
    {
        array.push(Vec::new());
        i += 1;
    }
    assert(buckets_view(array@) =~= empty_buckets(count as nat)) by {
        assert forall|j: int| 0 <= j < count implies buckets_view(array@)[j] == Seq::<PairView>::empty() by {
            assert(bucket_view(array@[j]@) =~= Seq::<PairView>::empty());
        }
    }
    array
}

/// The number of the bucket of `key` among `capacity` buckets.
fn bucket_number(key: &Value, capacity: usize, line: usize) -> (r: Result<usize, ErrorType>)
    requires
        capacity > 0,
    ensures
        match hash_of(key@, HASH_FIRST_N as nat) {
            Ok(_) => r matches Ok(b) && b == bucket_of(key@, capacity as int),
            Err(stop) => r matches Err(e) && e@ == stop_error(stop, line),
        },
{
    match hash(key, HASH_FIRST_N, line) {
        Ok(found) => Ok(found.0 % capacity),
        Err(e) => Err(e),
    }
}

/// The first index at which `bucket` holds a key equal to `key`; its length if none does.
fn position_in(bucket: &Vec<KeyValue<Value>>, key: &Value) -> (at: usize)
    ensures
        at == key_position(bucket_view(bucket@), key@, 0),
        at <= bucket@.len(),
{
    let mut k: usize = 0;
    while k < bucket.len()
        invariant
            k <= bucket.len(),
            key_position(bucket_view(bucket@), key@, k as int) == key_position(bucket_view(bucket@), key@, 0),
        decreases bucket.len() - k,
    {
        let ghost pairs = bucket_view(bucket@);
        assert(pairs[k as int].0 == bucket@[k as int].key@);
        let equal = same_value(&bucket[k].key, key);
        assert(key_position(pairs, key@, k as int) == if equal {
            k as int
        } else {
            key_position(pairs, key@, k + 1)
        });
        if equal {
            return k;
        }
        k += 1;
    }
    k
}

/// Doubles the number of buckets if they are overloaded, and puts every pair where
/// its hash then belongs.
#[verifier::spinoff_prover]
fn grow(work: &mut Buckets, line: usize)
    requires
        valid_capacity(old(work)@.len() as int),
        forall|b: int, i: int|
            0 <= b < old(work)@.len() && 0 <= i < old(work)@[b].len() ==> hashable(#[trigger] old(work)@[b][i].0)
                && bucket_of(old(work)@[b][i].0, old(work)@.len() as int) == b,
        forall|b: int| 0 <= b < old(work)@.len() ==> distinct_keys(#[trigger] old(work)@[b]),
        old(work).current_capacity == old(work).array@.len(),
        old(work).entries == total(old(work)@),
        old(work)@.len() < MAX_CAPACITY ==> total(old(work)@) * 4 <= old(work)@.len() * 3 + 4,
    ensures
        final(work).consistent(),
        final(work)@ == grown(old(work)@),
{
    if work.current_capacity < MAX_CAPACITY && work.entries * 4 > work.current_capacity * 3 {
        let capacity = work.current_capacity * 2;
        let mut fresh = empty_array(capacity);
        let all = borrow_all(&work.array);
        let ghost flat = work@.flatten();
        proof {
            lemma_flatten_hashable(work@);
            lemma_total_flatten(work@);
            lemma_total_empty(capacity as nat);
            lemma_flatten_apart(work@, work@.len() as int);
            assert forall|i: int, j: int|
                0 <= i < j < flat.len() && bucket_of((#[trigger] flat[i]).0, capacity as int) == bucket_of(
                    (#[trigger] flat[j]).0,
                    capacity as int,
                ) implies !values_equal(flat[i].0, flat[j].0) by {
                lemma_halved(flat[i].0, flat[j].0, work@.len() as int);
            }
            assert(flat.subrange(0, 0) =~= Seq::<PairView>::empty());
        }
        let mut k: usize = 0;
        while k < all.len()
            invariant
                k <= all.len(),
                capacity == 2 * work.current_capacity,
                valid_capacity(capacity as int),
                fresh@.len() == capacity,
                flat == borrowed_view(all@),
                forall|j: int| 0 <= j < flat.len() ==> hashable(#[trigger] flat[j].0),
                forall|t: int|
                    0 <= t < capacity ==> #[trigger] buckets_view(fresh@)[t] == bucket_entries(
                        flat.subrange(0, k as int),
                        capacity as int,
                        t,
                    ),
                total(buckets_view(fresh@)) == k,
            decreases all.len() - k,
        {
            let entry = all[k];
            let ghost before = buckets_view(fresh@);
            assert(flat[k as int] == (entry.key@, entry.value@));
            assert(hashable(flat[k as int].0));
            match bucket_number(&entry.key, capacity, line) {
                Ok(b) => {
                    fresh[b].push(KeyValue { key: copy_value(&entry.key), value: copy_value(&entry.value) });
                    proof {
                        let after = buckets_view(fresh@);
                        let longer = flat.subrange(0, k + 1);
                        assert(longer.drop_last() =~= flat.subrange(0, k as int));
                        assert(longer.last() == flat[k as int]);
                        assert(after[b as int] =~= before[b as int].push(flat[k as int]));
                        assert(after =~= before.update(b as int, before[b as int].push(flat[k as int])));
                        lemma_total_update(before, b as int, before[b as int].push(flat[k as int]));
                        assert forall|t: int| 0 <= t < capacity implies #[trigger] after[t] == bucket_entries(
                            longer,
                            capacity as int,
                            t,
                        ) by {
                            assert(before[t] == bucket_entries(flat.subrange(0, k as int), capacity as int, t));
                        }
                    }
                },
                Err(_) => {
                    unreached::<()>()
                },
            }
            k += 1;
        }
        proof {
            let after = buckets_view(fresh@);
            assert(flat.subrange(0, k as int) =~= flat);
            assert(after =~= spread(flat, capacity as int));
            assert forall|t: int| 0 <= t < after.len() implies distinct_keys(#[trigger] after[t]) by {
                lemma_bucket_entries(flat, capacity as int, t);
            }
            assert forall|t: int, m: int| 0 <= t < after.len() && 0 <= m < after[t].len() implies hashable(
                #[trigger] after[t][m].0,
            ) && bucket_of(after[t][m].0, after.len() as int) == t by {
                lemma_bucket_entries(flat, capacity as int, t);
                let e = bucket_entries(flat, capacity as int, t)[m];
                assert(flat.contains(e));
            }
        }
        work.array = fresh;
        work.current_capacity = capacity;
    }
}

/// Borrows every pair of the buckets, bucket by bucket.
fn borrow_all(array: &Vec<Vec<KeyValue<Value>>>) -> (r: Vec<&KeyValue<Value>>)
    ensures
        borrowed_view(r@) == buckets_view(array@).flatten(),
{
    let ghost all = buckets_view(array@);
    let mut out: Vec<&KeyValue<Value>> = Vec::new();
    let mut i: usize = 0;
    assert(all.subrange(0, 0) =~= Seq::<Seq<PairView>>::empty());
    assert(borrowed_view(out@) =~= all.subrange(0, 0).flatten());
    while i < array.len()
        invariant
            i <= array.len(),
            all == buckets_view(array@),
            borrowed_view(out@) == all.subrange(0, i as int).flatten(),
        decreases array.len() - i,
    {
        let bucket = &array[i];
        let ghost before = borrowed_view(out@);
        let mut j: usize = 0;
        assert(borrowed_view(out@) =~= before + bucket_view(bucket@).subrange(0, 0));
        while j < bucket.len()
            invariant
                j <= bucket.len(),
                borrowed_view(out@) == before + bucket_view(bucket@).subrange(0, j as int),
            decreases bucket.len() - j,
        {
            let ghost so_far = borrowed_view(out@);
            out.push(&bucket[j]);
            assert(borrowed_view(out@) =~= so_far.push(bucket_view(bucket@)[j as int]));
            assert(bucket_view(bucket@).subrange(0, j + 1) =~= bucket_view(bucket@).subrange(0, j as int).push(
                bucket_view(bucket@)[j as int],
            ));
            j += 1;
        }
        proof {
            assert(bucket_view(bucket@).subrange(0, j as int) =~= bucket_view(bucket@));
            assert(all.subrange(0, i + 1) =~= all.subrange(0, i as int).push(all[i as int]));
            Seq::lemma_flatten_push(all.subrange(0, i as int), all[i as int]);
        }
        i += 1;
    }
    assert(all.subrange(0, i as int) =~= all);
    out
}

/// The views of a list of pairs.
pub open spec fn pairs_view(s: Seq<KeyValue<Value>>) -> Seq<PairView> {
    bucket_view(s)
}

proof fn lemma_key_position_first(bucket: Seq<PairView>, key: ValueView, from: int)
    requires
        0 <= from,
    ensures
        forall|i: int|
            from <= i < key_position(bucket, key, from) && i < bucket.len() ==> !values_equal(
                (#[trigger] bucket[i]).0,
                key,
            ),
    decreases bucket.len() - from,
{
    if from < bucket.len() {
        lemma_key_position_first(bucket, key, from + 1);
    }
}

/// Whether the pair stands in one of the buckets.
pub open spec fn holds(buckets: Seq<Seq<PairView>>, pair: PairView) -> bool {
    exists|b: int, i: int| 0 <= b < buckets.len() && 0 <= i < buckets[b].len() && #[trigger] buckets[b][i] == pair
}

/// The pairs of the buckets, one after the other, are the pairs that stand in them.
pub proof fn lemma_flatten_members(buckets: Seq<Seq<PairView>>)
    ensures
        forall|k: int| 0 <= k < buckets.flatten().len() ==> holds(buckets, #[trigger] buckets.flatten()[k]),
        forall|b: int, i: int|
            0 <= b < buckets.len() && 0 <= i < buckets[b].len() ==> buckets.flatten().contains(
                #[trigger] buckets[b][i],
            ),
    decreases buckets.len(),
{
    buckets.lemma_flatten_and_flatten_alt_are_equivalent();
    if buckets.len() > 0 {
        let front = buckets.drop_last();
        let last = buckets.last();
        front.lemma_flatten_and_flatten_alt_are_equivalent();
        lemma_flatten_members(front);
        let flat = buckets.flatten();
        let head = front.flatten();
        assert(flat =~= head + last);
        assert forall|k: int| 0 <= k < flat.len() implies holds(buckets, #[trigger] flat[k]) by {
            if k < head.len() {
                assert(flat[k] == head[k]);
                assert(holds(front, head[k]));
                let (b, i) = choose|b: int, i: int|
                    0 <= b < front.len() && 0 <= i < front[b].len() && #[trigger] front[b][i] == head[k];
                assert(buckets[b][i] == flat[k]);
            } else {
                assert(buckets[buckets.len() - 1][k - head.len()] == flat[k]);
            }
        }
        assert forall|b: int, i: int| 0 <= b < buckets.len() && 0 <= i < buckets[b].len() implies flat.contains(
            #[trigger] buckets[b][i],
        ) by {
            if b < front.len() {
                assert(front[b][i] == buckets[b][i]);
                assert(head.contains(front[b][i]));
                let k = choose|k: int| 0 <= k < head.len() && head[k] == front[b][i];
                assert(flat[k] == buckets[b][i]);
            } else {
                assert(flat[head.len() + i] == buckets[b][i]);
            }
        }
    }
}

proof fn lemma_bucket_entries_keeps(entries: Seq<PairView>, capacity: int, t: int)
    ensures
        forall|k: int|
            0 <= k < entries.len() && bucket_of((#[trigger] entries[k]).0, capacity) == t ==> bucket_entries(
                entries,
                capacity,
                t,
            ).contains(entries[k]),
    decreases entries.len(),
{
    if entries.len() > 0 {
        let front = entries.drop_last();
        lemma_bucket_entries_keeps(front, capacity, t);
        let kept = bucket_entries(front, capacity, t);
        let all = bucket_entries(entries, capacity, t);
        assert forall|k: int| 0 <= k < entries.len() && bucket_of((#[trigger] entries[k]).0, capacity)
            == t implies all.contains(entries[k]) by {
            if k < front.len() {
                assert(front[k] == entries[k]);
                assert(kept.contains(front[k]));
                let m = choose|m: int| 0 <= m < kept.len() && kept[m] == front[k];
                assert(all[m] == entries[k]);
            } else {
                assert(all[all.len() - 1] == entries[k]);
            }
        }
    }
}

proof fn lemma_total_spread(entries: Seq<PairView>, capacity: int)
    requires
        capacity > 0,
        forall|k: int| 0 <= k < entries.len() ==> 0 <= bucket_of((#[trigger] entries[k]).0, capacity) < capacity,
    ensures
        total(spread(entries, capacity)) == entries.len(),
    decreases entries.len(),
{
    if entries.len() == 0 {
        assert(spread(entries, capacity) =~= empty_buckets(capacity as nat));
        lemma_total_empty(capacity as nat);
    } else {
        let front = entries.drop_last();
        let last = entries.last();
        assert forall|k: int| 0 <= k < front.len() implies 0 <= bucket_of((#[trigger] front[k]).0, capacity)
            < capacity by {
            assert(front[k] == entries[k]);
        }
        lemma_total_spread(front, capacity);
        let t = bucket_of(last.0, capacity);
        assert(entries[entries.len() - 1] == last);
        let before = spread(front, capacity);
        assert(spread(entries, capacity) =~= before.update(t, before[t].push(last)));
        lemma_total_update(before, t, before[t].push(last));
    }
}

/// Growth keeps all pairs.
proof fn lemma_grown_total(buckets: Seq<Seq<PairView>>)
    requires
        orderly(buckets),
    ensures
        total(grown(buckets)) == total(buckets),
{
    if overloaded(buckets) {
        let flat = buckets.flatten();
        lemma_total_flatten(buckets);
        lemma_flatten_members(buckets);
        assert forall|k: int| 0 <= k < flat.len() implies 0 <= bucket_of(
            (#[trigger] flat[k]).0,
            2 * buckets.len() as int,
        ) < 2 * buckets.len() as int by {
            assert(holds(buckets, flat[k]));
        }
        lemma_total_spread(flat, 2 * buckets.len() as int);
    }
}

/// A lookup after `value` has been stored under `key` finds `value`, before any growth.
proof fn lemma_lookup_placed(buckets: Seq<Seq<PairView>>, key: ValueView, value: ValueView)
    requires
        buckets.len() > 0,
        values_equal(key, key),
    ensures
        lookup(placed(buckets, key, value), key) == Some(value),
{
    let b = bucket_of(key, buckets.len() as int);
    let bucket = buckets[b];
    let at = key_position(bucket, key, 0);
    lemma_key_position_bound(bucket, key, 0);
    if at < bucket.len() {
        lemma_key_position_update(bucket, key, at, value, 0);
    } else {
        let longer = bucket.push((key, value));
        lemma_key_position_none(bucket, key, 0);
        lemma_key_position_first(longer, key, 0);
        lemma_key_position_bound(longer, key, 0);
        lemma_key_position_none(longer, key, 0);
        assert(longer[bucket.len() as int].0 == key);
        assert forall|i: int| 0 <= i < bucket.len() implies !values_equal((#[trigger] longer[i]).0, key) by {
            assert(longer[i] == bucket[i]);
        }
        let found = key_position(longer, key, 0);
        if found < bucket.len() {
            assert(values_equal(longer[found].0, key));
        }
    }
}

/// After `insert(k, v)`, `get(k)` gives `v`: for every key that equals itself. (A
/// key with a NaN in it equals nothing, and is never found.)
pub proof fn law_get_after_insert(buckets: Seq<Seq<PairView>>, key: ValueView, value: ValueView, line: usize)
    requires
        well_formed(buckets),
        values_equal(key, key),
        insert_result(buckets, key, value, line) is Ok,
    ensures
        get_result(insert_result(buckets, key, value, line)->Ok_0, key, line) == Ok::<ValueView, ErrorView>(value),
{
    let stored = placed(buckets, key, value);
    lemma_placed(buckets, key, value);
    lemma_lookup_placed(buckets, key, value);
    if overloaded(stored) {
        let n = buckets.len() as int;
        let b = bucket_of(key, n);
        let bucket = buckets[b];
        let flat = stored.flatten();
        let target = bucket_of(key, 2 * n);
        let kept = bucket_entries(flat, 2 * n, target);
        // Growth follows a new pair only: the table was not overloaded before.
        assert(lookup(buckets, key) is None);
        lemma_key_position_bound(bucket, key, 0);
        lemma_key_position_none(bucket, key, 0);
        assert(stored[b] == bucket.push((key, value)));
        lemma_flatten_members(stored);
        assert(stored[b][bucket.len() as int] == (key, value));
        assert(flat.contains((key, value)));
        let at = choose|at: int| 0 <= at < flat.len() && flat[at] == (key, value);
        lemma_bucket_entries_keeps(flat, 2 * n, target);
        assert(kept.contains(flat[at]));
        let m = choose|m: int| 0 <= m < kept.len() && kept[m] == (key, value);
        lemma_key_position_none(kept, key, 0);
        lemma_key_position_bound(kept, key, 0);
        let found = key_position(kept, key, 0);
        assert(found < kept.len()) by {
            assert(values_equal(kept[m].0, key));
        }
        // The pair that is found is one of the stored pairs, in the bucket of the key.
        lemma_bucket_entries(flat, 2 * n, target);
        assert(flat.contains(kept[found]));
        let k = choose|k: int| 0 <= k < flat.len() && flat[k] == kept[found];
        assert(holds(stored, flat[k]));
        let (c, i) = choose|c: int, i: int|
            0 <= c < stored.len() && 0 <= i < stored[c].len() && #[trigger] stored[c][i] == flat[k];
        assert(bucket_of(stored[c][i].0, n) == c);
        lemma_halved(stored[c][i].0, key, n);
        assert(c == b);
        if i < bucket.len() {
            assert(stored[c][i] == bucket[i]);
            assert(!values_equal(bucket[i].0, key));
        }
        assert(spread(flat, 2 * n)[target] == kept);
    }
}

/// After `remove(k)`, `get(k)` fails with `KeyError`.
pub proof fn law_get_after_remove(buckets: Seq<Seq<PairView>>, key: ValueView, line: usize)
    requires
        well_formed(buckets),
        remove_result(buckets, key, line) is Ok,
    ensures
        get_result(remove_result(buckets, key, line)->Ok_0, key, line) == Err::<ValueView, ErrorView>(
            ErrorView::KeyError { key, line },
        ),
{
    let b = bucket_of(key, buckets.len() as int);
    let bucket = buckets[b];
    let at = key_position(bucket, key, 0);
    let rest = bucket.remove(at);
    lemma_key_position_bound(bucket, key, 0);
    lemma_key_position_first(bucket, key, 0);
    assert(distinct_keys(buckets[b]));
    assert forall|i: int| 0 <= i < rest.len() implies !values_equal((#[trigger] rest[i]).0, key) by {
        if i < at {
            assert(rest[i] == bucket[i]);
        } else {
            assert(rest[i] == bucket[i + 1]);
            if values_equal(bucket[i + 1].0, key) {
                law_symmetric(bucket[i + 1].0, key);
                law_transitive(bucket[at].0, key, bucket[i + 1].0);
                assert(!values_equal(bucket[at].0, bucket[i + 1].0));
            }
        }
    }
    lemma_key_position_none(rest, key, 0);
}

/// The size of a table is the number of keys that were inserted and not removed:
/// `insert` adds one to it if the key is new and leaves it otherwise, `remove`
/// takes one off, and a new table has size 0.
pub proof fn law_size(buckets: Seq<Seq<PairView>>, key: ValueView, value: ValueView, line: usize)
    requires
        well_formed(buckets),
    ensures
        total(empty_buckets(INITIAL_CAPACITY as nat)) == 0,
        insert_result(buckets, key, value, line) is Ok ==> total(insert_result(buckets, key, value, line)->Ok_0)
            == total(buckets) + if get_result(buckets, key, line) is Ok {
            0nat
        } else {
            1nat
        },
        remove_result(buckets, key, line) is Ok ==> total(remove_result(buckets, key, line)->Ok_0) == total(
            buckets,
        ) - 1,
{
    lemma_total_empty(INITIAL_CAPACITY as nat);
    if insert_result(buckets, key, value, line) is Ok {
        lemma_placed(buckets, key, value);
        lemma_grown_total(placed(buckets, key, value));
    }
    if remove_result(buckets, key, line) is Ok {
        lemma_without(buckets, key);
    }
}

/// The pairs that a list of borrowed pairs refers to, as mathematical values.
pub open spec fn borrowed_view(s: Seq<&KeyValue<Value>>) -> Seq<PairView> {
    Seq::new(s.len(), |i: int| (s[i].key@, s[i].value@))
}

/// The first index at which `rest` holds a pair equal to `p`; its length if none does.
fn find_equal(p: &KeyValue<Value>, rest: &Vec<&KeyValue<Value>>) -> (at: usize)
    ensures
        at == find_pair((p.key@, p.value@), borrowed_view(rest@), 0),
    decreases *p,
{
    let mut k: usize = 0;
    while k < rest.len()
        invariant
            k <= rest.len(),
            find_pair((p.key@, p.value@), borrowed_view(rest@), k as int) == find_pair(
                (p.key@, p.value@),
                borrowed_view(rest@),
                0,
            ),
        decreases rest.len() - k,
    {
        let ghost pair = (p.key@, p.value@);
        let ghost others = borrowed_view(rest@);
        assert(others[k as int] == (rest@[k as int].key@, rest@[k as int].value@));
        let equal = same_value(&p.key, &rest[k].key) && same_value(&p.value, &rest[k].value);
        assert(equal == pair_equal(pair, others[k as int]));
        assert(find_pair(pair, others, k as int) == if equal {
            k as int
        } else {
            find_pair(pair, others, k + 1)
        });
        if equal {
            return k;
        }
        k += 1;
    }
    k
}

impl HashTable {
    /// What holds of every table.
    #[verifier::type_invariant]
    closed spec fn sound(self) -> bool {
        self.inner.consistent()
    }

    /// A new, empty table of 16 buckets.
    pub fn new() -> (r: HashTable)
        ensures
            r@ == empty_buckets(INITIAL_CAPACITY as nat),
            well_formed(r@),
    {
        proof {
            lemma_total_empty(INITIAL_CAPACITY as nat);
        }
        HashTable { inner: Buckets { array: empty_array(INITIAL_CAPACITY), entries: 0, current_capacity: INITIAL_CAPACITY } }
    }

    /// The value stored under a key equal to `key`.
    pub fn get(&self, key: &Value, line: usize) -> (r: Result<&Value, ErrorType>)
        ensures
            well_formed(self@),
            match get_result(self@, key@, line) {
                Ok(v) => r matches Ok(found) && found@ == v,
                Err(e) => r matches Err(found) && found@ == e,
            },
    {
        proof {
            use_type_invariant(self);
        }
        match bucket_number(key, self.inner.current_capacity, line) {
            Err(e) => Err(e),
            Ok(b) => {
                let bucket = &self.inner.array[b];
                let at = position_in(bucket, key);
                if at < bucket.len() {
                    assert(bucket_view(bucket@)[at as int].1 == bucket@[at as int].value@);
                    Ok(&bucket[at].value)
                } else {
                    Err(ErrorType::KeyError { key: copy_value(key), line })
                }
            },
        }
    }

    /// The number of pairs in the table.
    pub fn size(&self) -> (r: usize)
        ensures
            r == total(self@),
            well_formed(self@),
    {
        proof {
            use_type_invariant(self);
        }
        self.inner.entries
    }

    /// Copies of all pairs of the table, bucket by bucket.
    pub fn flatten(&self) -> (r: Vec<KeyValue<Value>>)
        ensures
            pairs_view(r@) == self@.flatten(),
    {
        let all = borrow_all(&self.inner.array);
        let mut out: Vec<KeyValue<Value>> = Vec::new();
        let mut k: usize = 0;
        while k < all.len()
            invariant
                k <= all.len(),
                out@.len() == k,
                forall|j: int| 0 <= j < k ==> out@[j].key@ == all@[j].key@ && out@[j].value@ == all@[j].value@,
            decreases all.len() - k,
        {
            out.push(KeyValue { key: copy_value(&all[k].key), value: copy_value(&all[k].value) });
            k += 1;
        }
        assert(pairs_view(out@) =~= borrowed_view(all@));
        out
    }

    /// Takes the buckets out of the table for work on them, leaving it empty.
    fn take(&mut self) -> (work: Buckets)
        ensures
            work.consistent(),
            work@ == old(self)@,
    {
        proof {
            use_type_invariant(&*self);
            lemma_total_empty(INITIAL_CAPACITY as nat);
        }
        let mut work = Buckets { array: empty_array(INITIAL_CAPACITY), entries: 0, current_capacity: INITIAL_CAPACITY };
        core::mem::swap(&mut self.inner, &mut work);
        work
    }

    /// Puts buckets back into the table.
    fn put(&mut self, work: Buckets)
        requires
            work.consistent(),
        ensures
            final(self)@ == work@,
    {
        self.inner = work;
    }

    /// Stores `value` under `key`: in place of the value of an equal key, or as a new
    /// pair. A table that holds `usize::MAX` pairs takes no new key.
    #[verifier::spinoff_prover]
    pub fn insert(&mut self, key: &Value, value: &Value, line: usize) -> (r: Result<(), ErrorType>)
        ensures
            well_formed(old(self)@),
            well_formed(final(self)@),
            match insert_result(old(self)@, key@, value@, line) {
                Ok(buckets) => r is Ok && final(self)@ == buckets,
                Err(e) => r matches Err(found) && found@ == e && final(self)@ == old(self)@,
            },
    {
        let mut work = self.take();
        let ghost before = work@;
        let result = match bucket_number(key, work.current_capacity, line) {
            Err(e) => Err(e),
            Ok(b) => {
                let at = position_in(&work.array[b], key);
                if at < work.array[b].len() {
                    let entry = work.array[b].remove(at);
                    work.array[b].insert(at, KeyValue { key: entry.key, value: copy_value(value) });
                    proof {
                        let bucket = before[b as int];
                        assert(work@[b as int] =~= bucket.update(at as int, (bucket[at as int].0, value@)));
                        assert(work@ =~= placed(before, key@, value@));
                        lemma_placed(before, key@, value@);
                    }
                    Ok(())
                } else if work.entries == usize::MAX {
                    Err(ErrorType::OutOfBoundsIndex { index: usize::MAX, line })
                } else {
                    work.array[b].push(KeyValue { key: copy_value(key), value: copy_value(value) });
                    work.entries += 1;
                    proof {
                        let bucket = before[b as int];
                        assert(work@[b as int] =~= bucket.push((key@, value@)));
                        assert(work@ =~= placed(before, key@, value@));
                        lemma_placed(before, key@, value@);
                    }
                    grow(&mut work, line);
                    Ok(())
                }
            },
        };
        self.put(work);
        result
    }

    /// Removes the pair whose key equals `key`.
    #[verifier::spinoff_prover]
    pub fn remove(&mut self, key: &Value, line: usize) -> (r: Result<(), ErrorType>)
        ensures
            well_formed(old(self)@),
            well_formed(final(self)@),
            match remove_result(old(self)@, key@, line) {
                Ok(buckets) => r is Ok && final(self)@ == buckets,
                Err(e) => r matches Err(found) && found@ == e && final(self)@ == old(self)@,
            },
    {
        let mut work = self.take();
        let ghost before = work@;
        let result = match bucket_number(key, work.current_capacity, line) {
            Err(e) => Err(e),
            Ok(b) => {
                let at = position_in(&work.array[b], key);
                if at < work.array[b].len() {
                    let _ = work.array[b].remove(at);
                    proof {
                        let bucket = before[b as int];
                        assert(work@[b as int] =~= bucket.remove(at as int));
                        assert(work@ =~= without(before, key@));
                        lemma_without(before, key@);
                    }
                    work.entries -= 1;
                    Ok(())
                } else {
                    Err(ErrorType::KeyError { key: copy_value(key), line })
                }
            },
        };
        self.put(work);
        result
    }

    /// Puts `value` in place of the value stored under a key equal to `key`, and
    /// hands out the value that was there.
    #[verifier::spinoff_prover]
    pub fn replace(&mut self, key: &Value, value: Value, line: usize) -> (r: Result<Value, ErrorType>)
        ensures
            well_formed(old(self)@),
            well_formed(final(self)@),
            match get_result(old(self)@, key@, line) {
                Ok(v) => r matches Ok(previous) && previous@ == v && final(self)@ == placed(old(self)@, key@, value@),
                Err(e) => r matches Err(found) && found@ == e && final(self)@ == old(self)@,
            },
    {
        let mut work = self.take();
        let ghost before = work@;
        let ghost stored = value@;
        let result = match bucket_number(key, work.current_capacity, line) {
            Err(e) => Err(e),
            Ok(b) => {
                let at = position_in(&work.array[b], key);
                if at < work.array[b].len() {
                    let entry = work.array[b].remove(at);
                    work.array[b].insert(at, KeyValue { key: entry.key, value });
                    proof {
                        let bucket = before[b as int];
                        assert(work@[b as int] =~= bucket.update(at as int, (bucket[at as int].0, stored)));
                        assert(work@ =~= placed(before, key@, stored));
                        lemma_placed(before, key@, stored);
                    }
                    Ok(entry.value)
                } else {
                    Err(ErrorType::KeyError { key: copy_value(key), line })
                }
            },
        };
        self.put(work);
        result
    }

    /// Adds to `out` the pairs of the table as they are displayed: each as
    /// `key: value`, with `, ` between them.
    pub fn display_into(&self, out: &mut Vec<Piece>)
        ensures
            pieces_view(final(out)@) == pieces_view(old(out)@) + display_pairs(self@, 0, 0, true),
        decreases *self,
    {
        let ghost start = pieces_view(out@);
        let ghost all = self@;
        let mut first = true;
        let mut b: usize = 0;
        assert(pieces_view(out@) + display_pairs(all, 0, 0, true) =~= start + display_pairs(all, 0, 0, true));
        while b < self.inner.array.len()
            invariant
                b <= self.inner.array.len(),
                all == self@,
                all.len() == self.inner.array@.len(),
                pieces_view(out@) + display_pairs(all, b as int, 0, first) == start + display_pairs(all, 0, 0, true),
            decreases self.inner.array.len() - b,
        {
            let bucket = &self.inner.array[b];
            let mut j: usize = 0;
            while j < bucket.len()
                invariant
                    j <= bucket.len(),
                    b < self.inner.array.len(),
                    all == self@,
                    all.len() == self.inner.array@.len(),
                    *bucket == self.inner.array@[b as int],
                    all[b as int] == bucket_view(bucket@),
                    pieces_view(out@) + display_pairs(all, b as int, j as int, first) == start + display_pairs(
                        all,
                        0,
                        0,
                        true,
                    ),
                decreases bucket.len() - j,
            {
                let ghost before = pieces_view(out@);
                let ghost was_first = first;
                if !first {
                    out.push(text(", "));
                }
                let ghost one = pieces_view(out@);
                assert(one =~= before + (if was_first {
                    Seq::empty()
                } else {
                    seq![PieceView::Text(", "@)]
                }));
                display_into(&bucket[j].key, out);
                let ghost two = pieces_view(out@);
                out.push(text(": "));
                let ghost three = pieces_view(out@);
                assert(three =~= two + seq![PieceView::Text(": "@)]);
                display_into(&bucket[j].value, out);
                first = false;
                proof {
                    assert(all[b as int][j as int] == (bucket@[j as int].key@, bucket@[j as int].value@));
                    assert(pieces_view(out@) + display_pairs(all, b as int, j + 1, false) =~= before + display_pairs(
                        all,
                        b as int,
                        j as int,
                        was_first,
                    ));
                }
                j += 1;
            }
            b += 1;
        }
        assert(pieces_view(out@) + display_pairs(all, b as int, 0, first) =~= pieces_view(out@));
    }

    /// Whether two tables hold the same pairs: each pair of this table is matched
    /// with the first equal pair of the other that is still unmatched, and none of
    /// the other is left over.
    pub fn same(&self, other: &HashTable) -> (r: bool)
        ensures
            r == pairs_match(self@, 0, 0, other@.flatten()),
        decreases *self,
    {
        let mut rest = borrow_all(&other.inner.array);
        let mut i: usize = 0;
        while i < self.inner.array.len()
            invariant
                i <= self.inner.array.len(),
                self@.len() == self.inner.array@.len(),
                pairs_match(self@, i as int, 0, borrowed_view(rest@)) == pairs_match(
                    self@,
                    0,
                    0,
                    other@.flatten(),
                ),
            decreases self.inner.array.len() - i,
        {
            let bucket = &self.inner.array[i];
            let mut j: usize = 0;
            while j < bucket.len()
                invariant
                    j <= bucket.len(),
                    i < self.inner.array.len(),
                    self@.len() == self.inner.array@.len(),
                    *bucket == self.inner.array@[i as int],
                    self@[i as int] == bucket_view(bucket@),
                    pairs_match(self@, i as int, j as int, borrowed_view(rest@)) == pairs_match(
                        self@,
                        0,
                        0,
                        other@.flatten(),
                    ),
                decreases bucket.len() - j,
            {
                let at = find_equal(&bucket[j], &rest);
                assert(self@[i as int][j as int] == (bucket@[j as int].key@, bucket@[j as int].value@));
                if at >= rest.len() {
                    return false;
                }
                let ghost before = borrowed_view(rest@);
                rest.remove(at);
                assert(borrowed_view(rest@) =~= before.remove(at as int));
                j += 1;
            }
            i += 1;
        }
        rest.len() == 0
    }

    /// The buckets of the table, each the sequence of its pairs.
    pub closed spec fn view(&self) -> Seq<Seq<PairView>>
        decreases self,
    {
        buckets_view(self.inner.array@)
    }

    /// A deep copy of the table.
    pub fn copy(&self) -> (r: HashTable)
        ensures
            r@ == self@,
        decreases *self,
    {
        let mut array: Vec<Vec<KeyValue<Value>>> = Vec::new();
        let mut i: usize = 0;
        while i < self.inner.array.len()
            invariant
                i <= self.inner.array.len(),
                array@.len() == i,
                forall|j: int| 0 <= j < i ==> bucket_view(array@[j]@) == bucket_view(self.inner.array@[j]@),
            decreases self.inner.array.len() - i,
        {
            let bucket = &self.inner.array[i];
            let mut copy: Vec<KeyValue<Value>> = Vec::new();
            let mut j: usize = 0;
            while j < bucket.len()
                invariant
                    j <= bucket.len(),
                    i < self.inner.array.len(),
                    *bucket == self.inner.array@[i as int],
                    copy@.len() == j,
                    forall|k: int| 0 <= k < j ==> copy@[k].key@ == bucket@[k].key@ && copy@[k].value@ == bucket@[k].value@,
                decreases bucket.len() - j,
            {
                copy.push(KeyValue { key: copy_value(&bucket[j].key), value: copy_value(&bucket[j].value) });
                j += 1;
            }
            assert(bucket_view(copy@) =~= bucket_view(bucket@));
            array.push(copy);
            i += 1;
        }
        assert(buckets_view(array@) =~= buckets_view(self.inner.array@));
        proof {
            use_type_invariant(self);
        }
        HashTable {
            inner: Buckets {
                array,
                entries: self.inner.entries,
                current_capacity: self.inner.current_capacity,
            },
        }
    }
}

impl Clone for HashTable {
    fn clone(&self) -> (r: HashTable)
        ensures
            r@ == self@,
    {
        self.copy()
    }
}

impl PartialEq for HashTable {
    fn eq(&self, other: &HashTable) -> (r: bool) {
        self.same(other)
    }
}

impl PartialEqSpecImpl for HashTable {
    open spec fn obeys_eq_spec() -> bool {
        true
    }

    open spec fn eq_spec(&self, other: &HashTable) -> bool {
        pairs_match(self@, 0, 0, other@.flatten())
    }
}

} // verus!
