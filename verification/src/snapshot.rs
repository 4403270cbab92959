//! Resolution of a requested height to the snapshot that holds at it.
//!
//! Snapshots exist only at the heights at which the shielded state
//! changed. A request for any height is answered with the snapshot of the
//! closest preceding height: the largest indexed height that is not above
//! the requested one.

use vstd::prelude::*;
use crate::order::{
    has_key, is_sorted_form, lemma_sorted_form_keeps_rows, rows_with_key, Keyed,
};
use crate::table::{
    lemma_filters_agree, lies_before, ordered_by_height, rows_at, select_at, split_point,
    HeightKeyed,
};

verus! {

/// `closest` is indexed, is not above `requested`, and no indexed height
/// that is not above `requested` is greater.
pub open spec fn is_closest_preceding(heights: Seq<i32>, requested: i32, closest: i32) -> bool {
    &&& heights.contains(closest)
    &&& closest <= requested
    &&& forall|i: int|
        0 <= i < heights.len() && (#[trigger] heights[i]) <= requested ==> heights[i] <= closest
}

/// The closest preceding height of `requested` among the indexed heights,
/// if any indexed height is at or below it.
pub open spec fn closest_preceding(heights: Seq<i32>, requested: i32) -> Option<i32> {
    if exists|m: i32| is_closest_preceding(heights, requested, m) {
        Some(choose|m: i32| is_closest_preceding(heights, requested, m))
    } else {
        None
    }
}

/// A closest preceding height is the only one.
pub proof fn lemma_closest_preceding_is(heights: Seq<i32>, requested: i32, closest: i32)
    requires
        is_closest_preceding(heights, requested, closest),
    ensures
        closest_preceding(heights, requested) == Some(closest),
{
    let chosen = choose|m: i32| is_closest_preceding(heights, requested, m);
    let i = choose|i: int| 0 <= i < heights.len() && heights[i] == closest;
    let j = choose|j: int| 0 <= j < heights.len() && heights[j] == chosen;
    assert(heights[i] <= chosen);
    assert(heights[j] <= closest);
}

/// Where no indexed height is at or below the requested one, there is no
/// closest preceding height.
pub proof fn lemma_no_closest_preceding(heights: Seq<i32>, requested: i32)
    requires
        forall|i: int| 0 <= i < heights.len() ==> requested < #[trigger] heights[i],
    ensures
        closest_preceding(heights, requested) is None,
{
    assert forall|m: i32| !is_closest_preceding(heights, requested, m) by {
        if is_closest_preceding(heights, requested, m) {
            let i = choose|i: int| 0 <= i < heights.len() && heights[i] == m;
            assert(requested < heights[i]);
        }
    }
}

/// The closest preceding height depends on which heights are indexed, not
/// on the order in which the index holds them.
pub proof fn lemma_closest_preceding_of_same_heights(a: Seq<i32>, b: Seq<i32>, requested: i32)
    requires
        forall|h: i32| a.contains(h) <==> b.contains(h),
    ensures
        closest_preceding(a, requested) == closest_preceding(b, requested),
{
    assert forall|m: i32| is_closest_preceding(a, requested, m) implies is_closest_preceding(
        b,
        requested,
        m,
    ) by {
        assert forall|i: int| 0 <= i < b.len() && (#[trigger] b[i]) <= requested implies b[i]
            <= m by {
            assert(b.contains(b[i]));
            let k = choose|k: int| 0 <= k < a.len() && a[k] == b[i];
            assert(a[k] <= m);
        }
    }
    assert forall|m: i32| is_closest_preceding(b, requested, m) implies is_closest_preceding(
        a,
        requested,
        m,
    ) by {
        assert forall|i: int| 0 <= i < a.len() && (#[trigger] a[i]) <= requested implies a[i]
            <= m by {
            assert(a.contains(a[i]));
            let k = choose|k: int| 0 <= k < b.len() && b[k] == a[i];
            assert(b[k] <= m);
        }
    }
    if exists|m: i32| is_closest_preceding(a, requested, m) {
        let m = choose|m: i32| is_closest_preceding(a, requested, m);
        lemma_closest_preceding_is(a, requested, m);
        lemma_closest_preceding_is(b, requested, m);
    }
}

/// A resolution does not depend on the order in which the heights and
/// the rows are kept: over an index and a table it is what it is over
/// their sorted forms.
pub proof fn lemma_resolution_of_sorted_form<R: HeightKeyed + Keyed>(
    sorted_heights: Seq<i32>,
    heights: Seq<i32>,
    sorted_rows: Seq<R>,
    rows: Seq<R>,
    requested: i32,
)
    requires
        is_sorted_form(sorted_heights, heights),
        is_sorted_form(sorted_rows, rows),
        forall|r: R| #[trigger] r.key() == (r.height(), 0int, 0int),
    ensures
        resolution(sorted_heights, sorted_rows, requested) == resolution(heights, rows, requested),
{
    lemma_sorted_form_keeps_rows(sorted_heights, heights);
    lemma_closest_preceding_of_same_heights(sorted_heights, heights, requested);
    match closest_preceding(heights, requested) {
        None => {},
        Some(height) => {
            let at = height as int;
            let by_height = |r: R| at <= r.height() <= at;
            let by_key = has_key::<R>((at, 0int, 0int));
            assert forall|i: int| 0 <= i < sorted_rows.len() implies by_height(
                #[trigger] sorted_rows[i],
            ) == by_key(sorted_rows[i]) by {
                assert(sorted_rows[i].key() == (sorted_rows[i].height(), 0int, 0int));
            }
            assert forall|i: int| 0 <= i < rows.len() implies by_height(#[trigger] rows[i])
                == by_key(rows[i]) by {
                assert(rows[i].key() == (rows[i].height(), 0int, 0int));
            }
            lemma_filters_agree(sorted_rows, by_height, by_key);
            lemma_filters_agree(rows, by_height, by_key);
            assert(rows_with_key(sorted_rows, (at, 0int, 0int)) == rows_with_key(
                rows,
                (at, 0int, 0int),
            ));
            assert(rows_at(sorted_rows, at) == rows_at(rows, at));
        },
    }
}

/// What a request for a height resolves to.
#[derive(Debug, Clone, Copy, PartialEq, Eq)]
pub enum Resolution<P> {
    /// No indexed height is at or below the requested one.
    NotFound,
    /// The closest preceding height, and what is recorded at it.
    Found { height: i32, payload: P },
}

impl<P: View> View for Resolution<P> {
    type V = Resolution<P::V>;

    open spec fn view(&self) -> Resolution<P::V> {
        match *self {
            Resolution::NotFound => Resolution::NotFound,
            Resolution::Found { height, payload } => Resolution::Found { height, payload: payload@ },
        }
    }
}

/// The resolution of `requested` over an index of heights and a table of
/// rows: the rows recorded at the closest preceding height.
pub open spec fn resolution<R: HeightKeyed>(heights: Seq<i32>, rows: Seq<R>, requested: i32) -> Resolution<
    Seq<R>,
> {
    match closest_preceding(heights, requested) {
        None => Resolution::NotFound,
        Some(height) => Resolution::Found { height, payload: rows_at(rows, height as int) },
    }
}

/// Finds the closest preceding height of `requested` in the index.
pub fn closest_height(heights: &[i32], requested: i32) -> (closest: Option<i32>)
    requires
        ordered_by_height(heights@),
    ensures
        closest == closest_preceding(heights@, requested),
        closest matches Some(m) ==> m <= requested && heights@.contains(m),
{
    let k: usize = split_point(heights, requested, true);
    if k == 0 {
        proof {
            assert forall|i: int| 0 <= i < heights@.len() implies requested < #[trigger] heights@[i] by {
                assert(!lies_before(heights@[i].height(), requested as int, true));
            }
            lemma_no_closest_preceding(heights@, requested);
        }
        None
    } else {
        let m: i32 = heights[k - 1];
        proof {
            assert(lies_before(heights@[k - 1].height(), requested as int, true));
            assert(heights@[k - 1] == m);
            assert forall|i: int| 0 <= i < heights@.len() && (#[trigger] heights@[i])
                <= requested implies heights@[i] <= m by {
                if i >= k {
                    assert(!lies_before(heights@[i].height(), requested as int, true));
                } else {
                    assert(heights@[i].height() <= heights@[k - 1].height());
                }
            }
            lemma_closest_preceding_is(heights@, requested, m);
        }
        Some(m)
    }
}

/// Resolves `requested` over an index of heights and a table of rows. The
/// index is asked first; the table is read only at the height that the
/// index gave.
pub fn resolve_at_height<'a, R: HeightKeyed>(
    heights: &[i32],
    rows: &'a [R],
    requested: i32,
) -> (resolved: Resolution<&'a [R]>)
    requires
        ordered_by_height(heights@),
        ordered_by_height(rows@),
    ensures
        resolved@ == resolution(heights@, rows@, requested),
        resolved matches Resolution::Found { height, .. } ==> height <= requested
            && heights@.contains(height),
{
    match closest_height(heights, requested) {
        None => Resolution::NotFound,
        Some(height) => Resolution::Found { height, payload: select_at(rows, height) },
    }
}

/// A height between two indexed heights, with no indexed height from the
/// lower one up to it, resolves as the lower one does: to the lower
/// height and what is recorded there.
pub proof fn lemma_resolves_to_earlier_height<R: HeightKeyed>(
    heights: Seq<i32>,
    rows: Seq<R>,
    h1: i32,
    h: i32,
    h2: i32,
)
    requires
        h1 < h < h2,
        heights.contains(h1),
        heights.contains(h2),
        !heights.contains(h),
        forall|i: int| 0 <= i < heights.len() ==> !(h1 < #[trigger] heights[i] < h),
    ensures
        closest_preceding(heights, h) == Some(h1),
        resolution(heights, rows, h) == (Resolution::Found {
            height: h1,
            payload: rows_at(rows, h1 as int),
        }),
        resolution(heights, rows, h) == resolution(heights, rows, h1),
{
    assert(is_closest_preceding(heights, h, h1)) by {
        assert forall|i: int| 0 <= i < heights.len() && (#[trigger] heights[i]) <= h implies heights[i]
            <= h1 by {
            assert(heights.contains(heights[i]));
        }
    }
    lemma_closest_preceding_is(heights, h, h1);
    assert(is_closest_preceding(heights, h1, h1));
    lemma_closest_preceding_is(heights, h1, h1);
}

/// A height below every indexed height resolves to nothing.
pub proof fn lemma_below_minimum_not_found<R: HeightKeyed>(
    heights: Seq<i32>,
    rows: Seq<R>,
    h: i32,
)
    requires
        forall|i: int| 0 <= i < heights.len() ==> h < #[trigger] heights[i],
    ensures
        closest_preceding(heights, h) is None,
        resolution(heights, rows, h) is NotFound,
{
    lemma_no_closest_preceding(heights, h);
}

/// The height that a request resolves to is never above the requested
/// one, and is an indexed height.
pub proof fn lemma_resolved_height_not_above(heights: Seq<i32>, requested: i32)
    ensures
        closest_preceding(heights, requested) matches Some(m) ==> m <= requested
            && heights.contains(m),
{
}

} // verus!
