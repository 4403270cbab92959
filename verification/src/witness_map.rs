//! The witnesses that are valid at a block height.

use std::sync::Arc;
use vstd::prelude::*;
use vstd::slice::slice_subrange;
use crate::appstate::{AppState, TableName, Tables};
use crate::records::WitnessRecord;
use crate::snapshot::{
    closest_preceding, lemma_below_minimum_not_found, lemma_resolution_of_sorted_form,
    lemma_resolves_to_earlier_height, resolution, resolve_at_height, Resolution,
};
use crate::table::{lemma_rows_between_members, lemma_strict_order_is_order, rows_at};

verus! {

/// What a resolution means for witnesses. No indexed height at or below
/// the requested one: the empty set, under the requested height itself,
/// for before the first note there are no witnesses. Else the witnesses
/// recorded at the closest preceding height, under that height.
pub open spec fn witnesses_found(requested: i32, resolved: Resolution<Seq<WitnessRecord>>) -> (
    Seq<WitnessRecord>,
    i32,
) {
    match resolved {
        Resolution::NotFound => (Seq::empty(), requested),
        Resolution::Found { height, payload } => (payload, height),
    }
}

/// The witnesses that are valid at the requested height, with the height
/// that they were recorded at.
pub open spec fn witnesses_at_height(tables: Tables, requested: i32) -> (Seq<WitnessRecord>, i32) {
    witnesses_found(requested, resolution(tables.height_index@, tables.witnesses@, requested))
}

/// Reads the witnesses out of a resolution. `none` is what stands for the
/// empty set.
pub fn witnesses_of<P: View<V = Seq<WitnessRecord>>>(
    requested: i32,
    resolved: Resolution<P>,
    none: P,
) -> (found: (P, i32))
    requires
        none@.len() == 0,
    ensures
        (found.0@, found.1) == witnesses_found(requested, resolved@),
{
    match resolved {
        Resolution::NotFound => {
            assert(none@ =~= Seq::<WitnessRecord>::empty());
            (none, requested)
        },
        Resolution::Found { height, payload } => (payload, height),
    }
}

/// Reads witness sets.
#[derive(Clone)]
pub struct WitnessMapRepository {
    pub(crate) app_state: Arc<AppState>,
}

pub trait WitnessMapRepositoryTrait: Sized {
    /// The state that the repository reads.
    spec fn state(&self) -> AppState;

    fn new(app_state: Arc<AppState>) -> (repo: Self)
        ensures
            repo.state() == *app_state,
    ;

    /// The witnesses that are valid at `block_height`, with the height
    /// that they were recorded at: the closest preceding height, which is
    /// never above `block_height`. Below the first indexed height the set
    /// is empty and the height is `block_height` itself. The witnesses
    /// come in the order in which the store handed them over.
    fn get_witnesses(&self, block_height: i32) -> (found: (&[WitnessRecord], i32))
        ensures
            (found.0@, found.1) == witnesses_at_height(self.state().tables(), block_height),
            (found.0@, found.1) == witnesses_at_height(
                self.state().handed_over(),
                block_height,
            ),
            found.1 <= block_height,
            forall|i: int|
                0 <= i < found.0@.len() ==> (#[trigger] found.0@[i]).block_height == found.1
                    && self.state().tables().witnesses@.contains(found.0@[i]),
            forall|k: int|
                0 <= k < self.state().tables().witnesses@.len() && (
                #[trigger] self.state().tables().witnesses@[k]).block_height == found.1
                    && closest_preceding(self.state().tables().height_index@, block_height)
                    is Some ==> found.0@.contains(self.state().tables().witnesses@[k]),
    ;
}

impl WitnessMapRepositoryTrait for WitnessMapRepository {
    closed spec fn state(&self) -> AppState {
        *self.app_state
    }

    fn new(app_state: Arc<AppState>) -> (repo: Self) {
        Self { app_state }
    }

    fn get_witnesses(&self, block_height: i32) -> (found: (&[WitnessRecord], i32)) {
        let db = self.app_state.get_db_connection();
        proof {
            assert(db.table_ordered(TableName::HeightIndex));
            assert(db.table_ordered(TableName::Witnesses));
            lemma_strict_order_is_order(db.height_index@);
        }
        let table = db.witnesses.as_slice();
        let resolved = resolve_at_height(db.height_index.as_slice(), table, block_height);
        proof {
            if let Resolution::Found { height, payload } = resolved {
                lemma_rows_between_members(db.witnesses@, height as int, height as int);
            }
            lemma_resolution_of_sorted_form(
                db.height_index@,
                self.state().handed_over().height_index@,
                db.witnesses@,
                self.state().handed_over().witnesses@,
                block_height,
            );
        }
        witnesses_of(block_height, resolved, slice_subrange(table, 0, 0))
    }
}

/// Which witnesses are served, and in which order, does not depend on
/// the order in which the store keeps its heights, nor on where among
/// the rows of other heights it keeps those of one height.
pub proof fn lemma_witnesses_of_any_store(sorted: Tables, handed: Tables, requested: i32)
    requires
        sorted.sorted_form_of(handed),
    ensures
        witnesses_at_height(sorted, requested) == witnesses_at_height(handed, requested),
{
    lemma_resolution_of_sorted_form(
        sorted.height_index@,
        handed.height_index@,
        sorted.witnesses@,
        handed.witnesses@,
        requested,
    );
}

/// A height between two indexed heights, with no indexed height from the
/// lower one up to it, is served the witnesses of the lower height.
pub proof fn lemma_witnesses_of_earlier_height(tables: Tables, h1: i32, h: i32, h2: i32)
    requires
        h1 < h < h2,
        tables.height_index@.contains(h1),
        tables.height_index@.contains(h2),
        !tables.height_index@.contains(h),
        forall|i: int|
            0 <= i < tables.height_index@.len() ==> !(h1 < #[trigger] tables.height_index@[i] < h),
    ensures
        witnesses_at_height(tables, h) == (rows_at(tables.witnesses@, h1 as int), h1),
        witnesses_at_height(tables, h) == witnesses_at_height(tables, h1),
{
    lemma_resolves_to_earlier_height(tables.height_index@, tables.witnesses@, h1, h, h2);
}

/// Below the first indexed height the witness set is empty, and stands
/// under the requested height.
pub proof fn lemma_no_witnesses_below_minimum(tables: Tables, h: i32)
    requires
        forall|i: int| 0 <= i < tables.height_index@.len() ==> h < #[trigger] tables.height_index@[i],
    ensures
        witnesses_at_height(tables, h) == (Seq::<WitnessRecord>::empty(), h),
{
    lemma_below_minimum_not_found(tables.height_index@, tables.witnesses@, h);
}

} // verus!
