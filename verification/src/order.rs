//! Bringing rows into the order of their keys.
//!
//! A store hands its rows over in whatever order it keeps them. Before they
//! are read they are sorted by key, rows of one key staying in the order
//! in which they came.

use vstd::prelude::*;
use crate::table::lemma_filter_keeps_middle_run;

verus! {

/// The order of keys: by the first part, then by the second, then by the
/// third.
pub open spec fn key_before(a: (int, int, int), b: (int, int, int)) -> bool {
    a.0 < b.0 || (a.0 == b.0 && (a.1 < b.1 || (a.1 == b.1 && a.2 < b.2)))
}

/// A row with a key by which its table is ordered.
pub trait Keyed {
    /// The key of the row.
    spec fn key(&self) -> (int, int, int);

    /// Tells whether the key of this row comes before that of the other.
    fn precedes(&self, other: &Self) -> (before: bool)
        ensures
            before == key_before(self.key(), other.key()),
    ;
}

/// No row stands before a row of a lesser key.
pub open spec fn ordered_by_key<R: Keyed>(rows: Seq<R>) -> bool {
    forall|i: int, j: int| 0 <= i < j < rows.len() ==> !key_before(rows[j].key(), rows[i].key())
}

/// The keys rise from each row to every later one.
pub open spec fn strictly_ordered_by_key<R: Keyed>(rows: Seq<R>) -> bool {
    forall|i: int, j: int| 0 <= i < j < rows.len() ==> key_before(rows[i].key(), rows[j].key())
}

/// No two rows share a key.
pub open spec fn keys_unique<R: Keyed>(rows: Seq<R>) -> bool {
    forall|i: int, j: int| 0 <= i < j < rows.len() ==> rows[i].key() != rows[j].key()
}

/// `sorted` holds the rows of `handed`, each once: the row at place `m` of
/// `sorted` is the one that came at place `order[m]`, and the row that
/// came at place `j` stands at place `place[j]`. Rows of one key stand in
/// the order in which they came.
pub open spec fn arranged_by<R: Keyed>(
    sorted: Seq<R>,
    handed: Seq<R>,
    order: Seq<int>,
    place: Seq<int>,
) -> bool {
    &&& sorted.len() == handed.len()
    &&& order.len() == handed.len()
    &&& place.len() == handed.len()
    &&& forall|m: int|
        0 <= m < sorted.len() ==> 0 <= #[trigger] order[m] < handed.len() && place[order[m]] == m
            && sorted[m] == handed[order[m]]
    &&& forall|j: int|
        0 <= j < handed.len() ==> 0 <= #[trigger] place[j] < sorted.len() && order[place[j]] == j
    &&& forall|m1: int, m2: int|
        0 <= m1 < m2 < sorted.len() && sorted[m1].key() == sorted[m2].key() ==> order[m1]
            < order[m2]
}

/// Whether a row has the key.
pub open spec fn has_key<R: Keyed>(key: (int, int, int)) -> spec_fn(R) -> bool {
    |r: R| r.key() == key
}

/// The rows of one key, in the order in which they stand.
pub open spec fn rows_with_key<R: Keyed>(rows: Seq<R>, key: (int, int, int)) -> Seq<R> {
    rows.filter(has_key::<R>(key))
}

/// `sorted` is what sorting `handed` by key gives: the same rows, in the
/// order of their keys, rows of one key in the order in which they came.
pub open spec fn is_sorted_form<R: Keyed>(sorted: Seq<R>, handed: Seq<R>) -> bool {
    &&& ordered_by_key(sorted)
    &&& exists|order: Seq<int>, place: Seq<int>| arranged_by(sorted, handed, order, place)
    &&& forall|key: (int, int, int)| #[trigger]
        rows_with_key(sorted, key) == rows_with_key(handed, key)
}

/// A row that goes in behind rows of lesser keys only comes first among
/// the rows of its key, and leaves the rows of every other key as they
/// were.
proof fn lemma_insert_among_keys<R: Keyed>(before: Seq<R>, k: int, row: R, key: (int, int, int))
    requires
        0 <= k <= before.len(),
        forall|m: int| 0 <= m < k ==> key_before(before[m].key(), row.key()),
    ensures
        rows_with_key(before.insert(k, row), key) == rows_with_key(seq![row] + before, key),
{
    let pred = has_key::<R>(key);
    let a = before.subrange(0, k);
    let b = before.subrange(k, before.len() as int);
    let head = if pred(row) {
        seq![row]
    } else {
        Seq::<R>::empty()
    };
    let af = a.filter(pred);
    let bf = b.filter(pred);
    assert(before == a + b) by {
        assert(before =~= a + b);
    }
    assert(before.insert(k, row) == a + (seq![row] + b)) by {
        assert(before.insert(k, row) =~= a + (seq![row] + b));
    }
    Seq::filter_distributes_over_add(a, seq![row] + b, pred);
    Seq::filter_distributes_over_add(a, b, pred);
    b.lemma_filter_prepend(row, pred);
    before.lemma_filter_prepend(row, pred);
    assert(before.insert(k, row).filter(pred) == af + (head + bf));
    assert((seq![row] + before).filter(pred) == head + (af + bf));
    if pred(row) {
        lemma_filter_keeps_middle_run(a, pred, 0, 0);
        assert(af =~= Seq::<R>::empty());
    }
    assert(af + (head + bf) =~= head + (af + bf));
}

/// Sorting neither loses a row nor makes one up.
pub proof fn lemma_sorted_form_keeps_rows<R: Keyed>(sorted: Seq<R>, handed: Seq<R>)
    requires
        is_sorted_form(sorted, handed),
    ensures
        sorted.len() == handed.len(),
        forall|row: R| sorted.contains(row) <==> handed.contains(row),
{
    let (order, place) = choose|order: Seq<int>, place: Seq<int>|
        arranged_by(sorted, handed, order, place);
    assert forall|row: R| sorted.contains(row) <==> handed.contains(row) by {
        if sorted.contains(row) {
            let m = choose|m: int| 0 <= m < sorted.len() && sorted[m] == row;
            assert(handed[order[m]] == row);
        }
        if handed.contains(row) {
            let j = choose|j: int| 0 <= j < handed.len() && handed[j] == row;
            assert(sorted[place[j]] == handed[order[place[j]]]);
        }
    }
}

/// The sorted rows rise strictly in their keys exactly where no two of
/// the rows that came share a key.
pub proof fn lemma_sorted_form_strict_iff_unique<R: Keyed>(sorted: Seq<R>, handed: Seq<R>)
    requires
        is_sorted_form(sorted, handed),
    ensures
        strictly_ordered_by_key(sorted) <==> keys_unique(handed),
{
    let (order, place) = choose|order: Seq<int>, place: Seq<int>|
        arranged_by(sorted, handed, order, place);
    if keys_unique(handed) {
        assert forall|i: int, j: int| 0 <= i < j < sorted.len() implies key_before(
            sorted[i].key(),
            sorted[j].key(),
        ) by {
            assert(!key_before(sorted[j].key(), sorted[i].key()));
            let a = order[i];
            let b = order[j];
            assert(place[a] == i && place[b] == j);
            if a < b {
                assert(handed[a].key() != handed[b].key());
            } else {
                assert(handed[b].key() != handed[a].key());
            }
        }
    }
    if strictly_ordered_by_key(sorted) {
        assert forall|a: int, b: int| 0 <= a < b < handed.len() implies handed[a].key()
            != handed[b].key() by {
            let i = place[a];
            let j = place[b];
            assert(order[i] == a && order[j] == b);
            assert(sorted[i] == handed[a] && sorted[j] == handed[b]);
            if i < j {
                assert(key_before(sorted[i].key(), sorted[j].key()));
            } else {
                assert(key_before(sorted[j].key(), sorted[i].key()));
            }
        }
    }
}

/// Where a row goes among rows in order: behind all rows of a lesser key,
/// before all others.
fn place_among<R: Keyed>(rows: &Vec<R>, row: &R) -> (k: usize)
    requires
        ordered_by_key(rows@),
    ensures
        k <= rows@.len(),
        forall|m: int| 0 <= m < k ==> key_before(rows@[m].key(), row.key()),
        forall|m: int| k <= m < rows@.len() ==> !key_before(rows@[m].key(), row.key()),
{
    let mut k: usize = 0;
    while k < rows.len() && rows[k].precedes(row)
        invariant
            k <= rows@.len(),
            forall|m: int| 0 <= m < k ==> key_before(rows@[m].key(), row.key()),
        decreases rows@.len() - k,
    {
        k = k + 1;
    }
    assert forall|m: int| k <= m < rows@.len() implies !key_before(rows@[m].key(), row.key()) by {
        if k < m {
            assert(!key_before(rows@[m].key(), rows@[k as int].key()));
        }
    }
    k
}

/// Where the rows stand once one more row has gone in at place `k`.
pub open spec fn places_after_insert(place: Seq<int>, k: int) -> Seq<int> {
    Seq::new(
        place.len() + 1,
        |t: int|
            if t == 0 {
                k
            } else if place[t - 1] >= k {
                place[t - 1] + 1
            } else {
                place[t - 1]
            },
    )
}

/// Sorts rows by key. Rows of one key stay in the order in which they
/// came.
pub fn sort_by_key<R: Keyed>(rows: Vec<R>) -> (sorted: Vec<R>)
    ensures
        is_sorted_form(sorted@, rows@),
{
    let ghost handed = rows@;
    let ghost n = handed.len() as int;
    let mut rest = rows;
    let mut sorted: Vec<R> = Vec::new();
    let ghost mut order: Seq<int> = Seq::empty();
    let ghost mut place: Seq<int> = Seq::empty();
    while rest.len() > 0
        invariant
            n == handed.len(),
            rest@.len() <= n,
            rest@ == handed.subrange(0, rest@.len() as int),
            sorted@.len() == n - rest@.len(),
            order.len() == sorted@.len(),
            place.len() == sorted@.len(),
            ordered_by_key(sorted@),
            forall|m: int|
                0 <= m < sorted@.len() ==> rest@.len() <= #[trigger] order[m] < n && place[order[m]
                    - rest@.len()] == m && sorted@[m] == handed[order[m]],
            forall|t: int|
                0 <= t < place.len() ==> 0 <= #[trigger] place[t] < sorted@.len() && order[place[t]]
                    == t + rest@.len(),
            forall|m1: int, m2: int|
                0 <= m1 < m2 < sorted@.len() && sorted@[m1].key() == sorted@[m2].key() ==> order[m1]
                    < order[m2],
            forall|key: (int, int, int)| #[trigger]
                rows_with_key(sorted@, key) == rows_with_key(
                    handed.subrange(rest@.len() as int, n),
                    key,
                ),
        decreases rest@.len(),
    {
        let ghost i = rest@.len() as int;
        let ghost before = sorted@;
        let ghost order_before = order;
        let ghost place_before = place;
        let row = rest.pop().unwrap();
        assert(row == handed[i - 1]);
        let k: usize = place_among(&sorted, &row);
        sorted.insert(k, row);
        proof {
            order = order_before.insert(k as int, i - 1);
            place = places_after_insert(place_before, k as int);
            let after = sorted@;
            assert(after.len() == before.len() + 1);
            assert forall|m: int| 0 <= m < after.len() implies (if m < k {
                after[m] == before[m] && order[m] == order_before[m]
            } else if m == k {
                after[m] == row && order[m] == i - 1
            } else {
                after[m] == before[m - 1] && order[m] == order_before[m - 1]
            }) by {}
            assert forall|a: int, b: int| 0 <= a < b < after.len() implies !key_before(
                after[b].key(),
                after[a].key(),
            ) by {
                if a < k && b > k {
                    assert(!key_before(before[b - 1].key(), before[a].key()));
                }
            }
            assert forall|m: int| 0 <= m < after.len() implies i - 1 <= #[trigger] order[m] < n
                && place[order[m] - (i - 1)] == m && after[m] == handed[order[m]] by {
                if m < k {
                    assert(place_before[order_before[m] - i] == m);
                } else if m > k {
                    assert(place_before[order_before[m - 1] - i] == m - 1);
                }
            }
            assert forall|t: int| 0 <= t < place.len() implies 0 <= #[trigger] place[t]
                < after.len() && order[place[t]] == t + (i - 1) by {
                if t > 0 {
                    assert(order_before[place_before[t - 1]] == t - 1 + i);
                }
            }
            assert forall|key: (int, int, int)| #[trigger]
                rows_with_key(after, key) == rows_with_key(handed.subrange(i - 1, n), key) by {
                lemma_insert_among_keys(before, k as int, row, key);
                assert(rows_with_key(before, key) == rows_with_key(handed.subrange(i, n), key));
                before.lemma_filter_prepend(row, has_key::<R>(key));
                handed.subrange(i, n).lemma_filter_prepend(row, has_key::<R>(key));
                assert(handed.subrange(i - 1, n) =~= seq![row] + handed.subrange(i, n));
            }
            assert forall|m1: int, m2: int|
                0 <= m1 < m2 < after.len() && after[m1].key() == after[m2].key() implies order[m1]
                    < order[m2] by {
                if m1 < k && m2 > k {
                    assert(order_before[m1] < order_before[m2 - 1]);
                } else if m1 > k {
                    assert(order_before[m1 - 1] < order_before[m2 - 1]);
                } else if m1 < k && m2 < k {
                    assert(order_before[m1] < order_before[m2]);
                }
            }
        }
    }
    proof {
        assert(arranged_by(sorted@, handed, order, place));
        assert(handed.subrange(0, n) =~= handed);
    }
    sorted
}

/// Tells whether the keys rise from each row to the next.
pub fn is_strictly_ordered_by_key<R: Keyed>(rows: &[R]) -> (ordered: bool)
    ensures
        ordered == strictly_ordered_by_key(rows@),
{
    let n: usize = rows.len();
    let mut i: usize = 1;
    while i < n
        invariant
            1 <= i,
            n == rows@.len(),
            forall|a: int, b: int|
                0 <= a < b < i && b < n ==> key_before(rows@[a].key(), rows@[b].key()),
        decreases n - i,
    {
        if !rows[i - 1].precedes(&rows[i]) {
            return false;
        }
        proof {
            assert forall|a: int, b: int| 0 <= a < b < i + 1 && b < n implies key_before(
                rows@[a].key(),
                rows@[b].key(),
            ) by {
                if b == i && a < i - 1 {
                    assert(key_before(rows@[a].key(), rows@[i - 1].key()));
                }
            }
        }
        i = i + 1;
    }
    true
}

} // verus!
