//! The commitment tree as it stood at a block height.

use std::sync::Arc;
use vstd::prelude::*;
use crate::appstate::{AppState, TableName, Tables};
use crate::error::{QueryContext, ReadError};
use crate::records::TreeSnapshot;
use crate::snapshot::{
    closest_preceding, lemma_below_minimum_not_found, lemma_resolution_of_sorted_form,
    lemma_resolves_to_earlier_height, resolution, resolve_at_height, Resolution,
};
use crate::table::{lemma_rows_between_members, lemma_strict_order_is_order, rows_at};

verus! {

/// What a resolution means for a tree. No indexed height at or below the
/// requested one: no tree, which is no error. An indexed height without
/// its tree: the fetch has failed. Else the tree recorded at that height.
pub open spec fn tree_found(requested: i32, resolved: Resolution<Seq<TreeSnapshot>>) -> Result<
    Option<TreeSnapshot>,
    ReadError,
> {
    match resolved {
        Resolution::NotFound => Ok(None),
        Resolution::Found { height, payload } => if payload.len() == 0 {
            Err(ReadError::Query(QueryContext::CommitmentTree { resolved: height, requested }))
        } else {
            Ok(Some(payload[0]))
        },
    }
}

/// The commitment tree that holds at the requested height: the one
/// recorded at the closest preceding height.
pub open spec fn tree_at_height(tables: Tables, requested: i32) -> Result<
    Option<TreeSnapshot>,
    ReadError,
> {
    tree_found(requested, resolution(tables.height_index@, tables.commitment_trees@, requested))
}

/// Reads the tree out of a resolution.
pub fn tree_of<'a>(requested: i32, resolved: Resolution<&'a [TreeSnapshot]>) -> (found: Result<
    Option<&'a TreeSnapshot>,
    ReadError,
>)
    ensures
        match found {
            Ok(Some(tree)) => tree_found(requested, resolved@) == Ok::<
                Option<TreeSnapshot>,
                ReadError,
            >(Some(*tree)),
            Ok(None) => tree_found(requested, resolved@) == Ok::<Option<TreeSnapshot>, ReadError>(
                None,
            ),
            Err(e) => tree_found(requested, resolved@) == Err::<Option<TreeSnapshot>, ReadError>(e),
        },
{
    match resolved {
        Resolution::NotFound => Ok(None),
        Resolution::Found { height, payload } => {
            if payload.len() == 0 {
                Err(ReadError::Query(QueryContext::CommitmentTree { resolved: height, requested }))
            } else {
                Ok(Some(&payload[0]))
            }
        },
    }
}

/// Reads commitment trees.
#[derive(Clone)]
pub struct TreeRepository {
    pub(crate) app_state: Arc<AppState>,
}

pub trait TreeRepositoryTrait: Sized {
    /// The state that the repository reads.
    spec fn state(&self) -> AppState;

    fn new(app_state: Arc<AppState>) -> (repo: Self)
        ensures
            repo.state() == *app_state,
    ;

    /// The commitment tree that holds at `block_height`: the one recorded
    /// at the closest preceding height, which is never above
    /// `block_height`. Below the first indexed height there is none. The
    /// order in which the store handed its rows over plays no part.
    fn get_at_height(&self, block_height: i32) -> (found: Result<Option<&TreeSnapshot>, ReadError>)
        ensures
            match found {
                Ok(Some(tree)) => tree_at_height(self.state().tables(), block_height) == Ok::<
                    Option<TreeSnapshot>,
                    ReadError,
                >(Some(*tree)),
                Ok(None) => tree_at_height(self.state().tables(), block_height) == Ok::<
                    Option<TreeSnapshot>,
                    ReadError,
                >(None),
                Err(e) => tree_at_height(self.state().tables(), block_height) == Err::<
                    Option<TreeSnapshot>,
                    ReadError,
                >(e),
            },
            tree_at_height(self.state().tables(), block_height) == tree_at_height(
                self.state().handed_over(),
                block_height,
            ),
            found matches Ok(Some(tree)) ==> {
                &&& tree.block_height <= block_height
                &&& closest_preceding(self.state().tables().height_index@, block_height) == Some(
                    tree.block_height,
                )
                &&& self.state().tables().commitment_trees@.contains(*tree)
            },
    ;
}

impl TreeRepositoryTrait for TreeRepository {
    closed spec fn state(&self) -> AppState {
        *self.app_state
    }

    fn new(app_state: Arc<AppState>) -> (repo: Self) {
        Self { app_state }
    }

    fn get_at_height(&self, block_height: i32) -> (found: Result<Option<&TreeSnapshot>, ReadError>) {
        let db = self.app_state.get_db_connection();
        proof {
            assert(db.table_ordered(TableName::HeightIndex));
            assert(db.table_ordered(TableName::CommitmentTrees));
            lemma_strict_order_is_order(db.height_index@);
            lemma_strict_order_is_order(db.commitment_trees@);
        }
        let resolved = resolve_at_height(
            db.height_index.as_slice(),
            db.commitment_trees.as_slice(),
            block_height,
        );
        proof {
            if let Resolution::Found { height, payload } = resolved {
                lemma_rows_between_members(db.commitment_trees@, height as int, height as int);
            }
            lemma_resolution_of_sorted_form(
                db.height_index@,
                self.state().handed_over().height_index@,
                db.commitment_trees@,
                self.state().handed_over().commitment_trees@,
                block_height,
            );
        }
        tree_of(block_height, resolved)
    }
}

/// Which tree is served does not depend on the order in which the store
/// keeps its rows: of tables and of their sorted form the same is served.
pub proof fn lemma_tree_of_any_store(sorted: Tables, handed: Tables, requested: i32)
    requires
        sorted.sorted_form_of(handed),
    ensures
        tree_at_height(sorted, requested) == tree_at_height(handed, requested),
{
    lemma_resolution_of_sorted_form(
        sorted.height_index@,
        handed.height_index@,
        sorted.commitment_trees@,
        handed.commitment_trees@,
        requested,
    );
}

/// A height between two indexed heights, with no indexed height from the
/// lower one up to it, is served the tree of the lower height. (Where the
/// lower height has no tree, the fetch fails for both heights.)
pub proof fn lemma_tree_of_earlier_height(tables: Tables, h1: i32, h: i32, h2: i32)
    requires
        h1 < h < h2,
        tables.height_index@.contains(h1),
        tables.height_index@.contains(h2),
        !tables.height_index@.contains(h),
        forall|i: int|
            0 <= i < tables.height_index@.len() ==> !(h1 < #[trigger] tables.height_index@[i] < h),
    ensures
        tree_at_height(tables, h) == tree_found(
            h,
            Resolution::Found { height: h1, payload: rows_at(tables.commitment_trees@, h1 as int) },
        ),
        tree_at_height(tables, h1) is Ok ==> tree_at_height(tables, h) == tree_at_height(tables, h1),
        tables.has_tree_at(h1 as int) ==> (tree_at_height(tables, h) matches Ok(Some(tree))
            && tree.block_height == h1 && tables.commitment_trees@.contains(tree)),
{
    lemma_resolves_to_earlier_height(tables.height_index@, tables.commitment_trees@, h1, h, h2);
    lemma_rows_between_members(tables.commitment_trees@, h1 as int, h1 as int);
    if tables.has_tree_at(h1 as int) {
        let k = choose|k: int|
            0 <= k < tables.commitment_trees@.len() && (
            #[trigger] tables.commitment_trees@[k]).block_height == h1;
        assert(rows_at(tables.commitment_trees@, h1 as int).contains(tables.commitment_trees@[k]));
    }
}

/// Below the first indexed height no tree is found, and that is no error.
pub proof fn lemma_no_tree_below_minimum(tables: Tables, h: i32)
    requires
        forall|i: int| 0 <= i < tables.height_index@.len() ==> h < #[trigger] tables.height_index@[i],
    ensures
        tree_at_height(tables, h) == Ok::<Option<TreeSnapshot>, ReadError>(None),
{
    lemma_below_minimum_not_found(tables.height_index@, tables.commitment_trees@, h);
}

/// Where every indexed height has its tree, no request for a tree fails.
pub proof fn lemma_consistent_store_serves_trees(tables: Tables, requested: i32)
    requires
        tables.every_height_has_tree(),
    ensures
        tree_at_height(tables, requested) is Ok,
{
    match closest_preceding(tables.height_index@, requested) {
        None => {},
        Some(height) => {
            let i = choose|i: int|
                0 <= i < tables.height_index@.len() && tables.height_index@[i] == height;
            assert(tables.has_tree_at(tables.height_index@[i] as int));
            let k = choose|k: int|
                0 <= k < tables.commitment_trees@.len() && (
                #[trigger] tables.commitment_trees@[k]).block_height == height;
            lemma_rows_between_members(tables.commitment_trees@, height as int, height as int);
            assert(rows_at(tables.commitment_trees@, height as int).contains(
                tables.commitment_trees@[k],
            ));
        },
    }
}

} // verus!
