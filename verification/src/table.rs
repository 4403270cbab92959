//! Rows kept in the order of their block height, and the runs of rows that
//! a height or a range of heights selects among them.

use vstd::prelude::*;
use vstd::slice::slice_subrange;

verus! {

/// A row that belongs to one block height.
pub trait HeightKeyed {
    /// The block height that the row belongs to.
    spec fn height(&self) -> int;

    /// Reads the block height of the row.
    fn block_height(&self) -> (h: i32)
        ensures
            h as int == self.height(),
    ;
}

impl HeightKeyed for i32 {
    open spec fn height(&self) -> int {
        *self as int
    }

    fn block_height(&self) -> (h: i32) {
        *self
    }
}

/// No row stands before a row of a lower height.
pub open spec fn ordered_by_height<R: HeightKeyed>(rows: Seq<R>) -> bool {
    forall|i: int, j: int| 0 <= i <= j < rows.len() ==> rows[i].height() <= rows[j].height()
}

/// The heights rise from each row to every later one: no two rows share a
/// height.
pub open spec fn strictly_ordered_by_height<R: HeightKeyed>(rows: Seq<R>) -> bool {
    forall|i: int, j: int| 0 <= i < j < rows.len() ==> rows[i].height() < rows[j].height()
}

/// The rows whose height lies in `[low, high]`, in table order.
pub open spec fn rows_between<R: HeightKeyed>(rows: Seq<R>, low: int, high: int) -> Seq<R> {
    rows.filter(|r: R| low <= r.height() <= high)
}

/// The rows of exactly the height `at`, in table order.
pub open spec fn rows_at<R: HeightKeyed>(rows: Seq<R>, at: int) -> Seq<R> {
    rows_between(rows, at, at)
}

/// The rows whose height is at most `high`, in table order.
pub open spec fn rows_up_to<R: HeightKeyed>(rows: Seq<R>, high: int) -> Seq<R> {
    rows.filter(|r: R| r.height() <= high)
}

/// Whether a height lies before a bound: at or below it where the bound is
/// inclusive, strictly below it where it is not.
pub open spec fn lies_before(height: int, bound: int, inclusive: bool) -> bool {
    if inclusive {
        height <= bound
    } else {
        height < bound
    }
}

/// A sequence that falls into three runs, of which only the middle one
/// satisfies a predicate, is filtered down to that middle run.
pub proof fn lemma_filter_keeps_middle_run<A>(
    s: Seq<A>,
    pred: spec_fn(A) -> bool,
    start: int,
    end: int,
)
    requires
        0 <= start <= end <= s.len(),
        forall|i: int| 0 <= i < start ==> !pred(s[i]),
        forall|i: int| start <= i < end ==> pred(s[i]),
        forall|i: int| end <= i < s.len() ==> !pred(s[i]),
    ensures
        s.filter(pred) == s.subrange(start, end),
    decreases s.len(),
{
    reveal(Seq::filter);
    if s.len() == 0 {
        assert(s.filter(pred) =~= s.subrange(start, end));
    } else {
        let front = s.drop_last();
        if end < s.len() {
            lemma_filter_keeps_middle_run(front, pred, start, end);
            assert(front.subrange(start, end) =~= s.subrange(start, end));
        } else if start < end {
            lemma_filter_keeps_middle_run(front, pred, start, end - 1);
            assert(front.subrange(start, end - 1).push(s.last()) =~= s.subrange(start, end));
        } else {
            lemma_filter_keeps_middle_run(front, pred, start - 1, start - 1);
            assert(front.subrange(start - 1, start - 1) =~= s.subrange(start, end));
        }
    }
}

/// Two predicates that agree on every element of a sequence pick the same
/// elements out of it.
pub proof fn lemma_filters_agree<A>(s: Seq<A>, p: spec_fn(A) -> bool, q: spec_fn(A) -> bool)
    requires
        forall|i: int| 0 <= i < s.len() ==> p(#[trigger] s[i]) == q(s[i]),
    ensures
        s.filter(p) == s.filter(q),
    decreases s.len(),
{
    reveal(Seq::filter);
    if s.len() > 0 {
        lemma_filters_agree(s.drop_last(), p, q);
        assert(p(s[s.len() - 1]) == q(s[s.len() - 1]));
    }
}

/// The rows that a range of heights selects are rows of the table, each of
/// a height in the range, and every such row of the table is among them.
pub proof fn lemma_rows_between_members<R: HeightKeyed>(rows: Seq<R>, low: int, high: int)
    ensures
        forall|i: int|
            0 <= i < rows_between(rows, low, high).len() ==> {
                let r = #[trigger] rows_between(rows, low, high)[i];
                low <= r.height() <= high && rows.contains(r)
            },
        forall|k: int|
            0 <= k < rows.len() && low <= (#[trigger] rows[k]).height() <= high ==> rows_between(
                rows,
                low,
                high,
            ).contains(rows[k]),
{
    let pred = |r: R| low <= r.height() <= high;
    let found = rows.filter(pred);
    assert forall|i: int| 0 <= i < found.len() implies {
        let r = #[trigger] found[i];
        low <= r.height() <= high && rows.contains(r)
    } by {
        rows.lemma_filter_pred(pred, i);
        assert(found.contains(found[i]));
        rows.lemma_filter_contains_rev(pred, found[i]);
    }
    assert forall|k: int| 0 <= k < rows.len() && low <= (#[trigger] rows[k]).height()
        <= high implies found.contains(rows[k]) by {
        rows.lemma_filter_contains(pred, k);
    }
}

/// The rows up to a height are rows of the table, each of a height not
/// above it, and every such row of the table is among them.
pub proof fn lemma_rows_up_to_members<R: HeightKeyed>(rows: Seq<R>, high: int)
    ensures
        forall|r: R|
            #[trigger] rows_up_to(rows, high).contains(r) <==> (rows.contains(r) && r.height()
                <= high),
{
    let pred = |r: R| r.height() <= high;
    let found = rows.filter(pred);
    assert forall|r: R| #[trigger] found.contains(r) <==> (rows.contains(r) && r.height()
        <= high) by {
        if found.contains(r) {
            let i = choose|i: int| 0 <= i < found.len() && found[i] == r;
            rows.lemma_filter_pred(pred, i);
            rows.lemma_filter_contains_rev(pred, r);
        }
        if rows.contains(r) && r.height() <= high {
            let k = choose|k: int| 0 <= k < rows.len() && rows[k] == r;
            rows.lemma_filter_contains(pred, k);
        }
    }
}

/// The number of rows that lie before a bound. In a table ordered by height
/// these are its first rows, so the number is also where the others begin.
pub fn split_point<R: HeightKeyed>(rows: &[R], bound: i32, inclusive: bool) -> (k: usize)
    requires
        ordered_by_height(rows@),
    ensures
        k <= rows@.len(),
        forall|i: int| 0 <= i < k ==> lies_before(rows@[i].height(), bound as int, inclusive),
        forall|i: int| k <= i < rows@.len() ==> !lies_before(rows@[i].height(), bound as int, inclusive),
{
    let mut low: usize = 0;
    let mut high: usize = rows.len();
    while low < high
        invariant
            low <= high <= rows@.len(),
            ordered_by_height(rows@),
            forall|i: int| 0 <= i < low ==> lies_before(rows@[i].height(), bound as int, inclusive),
            forall|i: int| high <= i < rows@.len() ==> !lies_before(rows@[i].height(), bound as int, inclusive),
        decreases high - low,
    {
        let middle: usize = low + (high - low) / 2;
        let h: i32 = rows[middle].block_height();
        let before: bool = if inclusive {
            h <= bound
        } else {
            h < bound
        };
        if before {
            low = middle + 1;
        } else {
            high = middle;
        }
    }
    low
}

/// Where the rows whose height lies in `[low, high]` begin and end. With
/// `low` above `high` the span is empty.
pub fn span_between<R: HeightKeyed>(rows: &[R], low: i32, high: i32) -> (span: (usize, usize))
    requires
        ordered_by_height(rows@),
    ensures
        span.0 <= span.1 <= rows@.len(),
        rows@.subrange(span.0 as int, span.1 as int) == rows_between(rows@, low as int, high as int),
{
    let first: usize = split_point(rows, low, false);
    let end: usize = split_point(rows, high, true);
    let start: usize = if first <= end {
        first
    } else {
        end
    };
    proof {
        let pred = |r: R| low as int <= r.height() <= high as int;
        lemma_filter_keeps_middle_run(rows@, pred, start as int, end as int);
    }
    (start, end)
}

/// Selects the rows whose height lies in `[low, high]`. With `low` above
/// `high` no row is selected.
pub fn select_between<'a, R: HeightKeyed>(rows: &'a [R], low: i32, high: i32) -> (found: &'a [R])
    requires
        ordered_by_height(rows@),
    ensures
        found@ == rows_between(rows@, low as int, high as int),
{
    let span = span_between(rows, low, high);
    slice_subrange(rows, span.0, span.1)
}

/// Selects the rows of exactly the height `at`.
pub fn select_at<'a, R: HeightKeyed>(rows: &'a [R], at: i32) -> (found: &'a [R])
    requires
        ordered_by_height(rows@),
    ensures
        found@ == rows_at(rows@, at as int),
{
    select_between(rows, at, at)
}

/// Selects the rows whose height is at most `high`.
pub fn select_up_to<'a, R: HeightKeyed>(rows: &'a [R], high: i32) -> (found: &'a [R])
    requires
        ordered_by_height(rows@),
    ensures
        found@ == rows_up_to(rows@, high as int),
        ordered_by_height(found@),
{
    let end: usize = split_point(rows, high, true);
    proof {
        let pred = |r: R| r.height() <= high as int;
        lemma_filter_keeps_middle_run(rows@, pred, 0, end as int);
        let found = rows@.subrange(0, end as int);
        assert forall|i: int, j: int| 0 <= i <= j < found.len() implies found[i].height()
            <= found[j].height() by {
            assert(found[i] == rows@[i] && found[j] == rows@[j]);
        }
    }
    slice_subrange(rows, 0, end)
}

/// Rows whose heights rise strictly stand in the order of their heights.
pub proof fn lemma_strict_order_is_order<R: HeightKeyed>(rows: Seq<R>)
    requires
        strictly_ordered_by_height(rows),
    ensures
        ordered_by_height(rows),
{
}

} // verus!
