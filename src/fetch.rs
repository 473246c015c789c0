use vstd::prelude::*;
use crate::recipe::{NavError, Recipe};
use crate::store::{
    RecipeRow, StoreModel, StoreQuery, ids_increasing, lemma_next_index, lemma_prev_index,
};

verus! {

/// A read of at most one recipe row from a SQL-backed store.
#[derive(Debug, Clone, Copy, PartialEq, Eq, Structural)]
pub enum RowQuery {
    /// Any row, in random order.
    Random,
    /// The row with this id.
    ById(i64),
    /// The row with the smallest id above this one.
    FirstAbove(i64),
    /// The row with the smallest id.
    Lowest,
    /// The row with the largest id below this one.
    LastBelow(i64),
    /// The row with the largest id.
    Highest,
}

/// Where a fetch of one hydrated recipe stands.
#[derive(Debug, Clone)]
pub enum FetchState {
    /// The first row read for the query is outstanding.
    Reading(StoreQuery),
    /// The wraparound row read for the query is outstanding.
    Wrapping(StoreQuery),
    /// The ingredient read for the recipe row with this id and title is
    /// outstanding.
    Hydrating(i64, String),
    /// The fetch has finished.
    Done,
}

/// What the store answered to the last action.
#[derive(Debug, Clone)]
pub enum FetchEvent {
    /// The row that a row read found, if any.
    Row(Option<RecipeRow>),
    /// The ingredient names of the recipe, in row order.
    Ingredients(Vec<String>),
    /// The read failed in the store.
    Failed,
}

/// What to do next.
#[derive(Debug)]
pub enum FetchAction {
    /// Run this row read.
    ReadRow(RowQuery),
    /// Read the ingredient names of the recipe with this id.
    ReadIngredients(i64),
    /// The fetch is over, with this result.
    Finish(Result<Recipe, NavError>),
}

/// The row read that a query starts with.
pub open spec fn first_read(q: StoreQuery) -> RowQuery {
    match q {
        StoreQuery::Random => RowQuery::Random,
        StoreQuery::ById(id) => RowQuery::ById(id),
        StoreQuery::NextAfter(x) => RowQuery::FirstAbove(x),
        StoreQuery::PrevBefore(x) => RowQuery::LastBelow(x),
    }
}

/// The row read that a query wraps around to where its first read found
/// nothing: the lowest row after `next`, the highest after `prev`.
pub open spec fn wrap_read(q: StoreQuery) -> Option<RowQuery> {
    match q {
        StoreQuery::NextAfter(_) => Some(RowQuery::Lowest),
        StoreQuery::PrevBefore(_) => Some(RowQuery::Highest),
        _ => None,
    }
}

/// Row `k` holds the least id above `x`.
pub open spec fn least_above(m: StoreModel, x: i64, k: int) -> bool {
    &&& 0 <= k < m.recipes.len()
    &&& m.recipes[k].id > x
    &&& forall|i: int|
        0 <= i < m.recipes.len() && m.recipes[i].id > x ==> m.recipes[k].id <= m.recipes[i].id
}

/// Row `k` holds the greatest id below `x`.
pub open spec fn greatest_below(m: StoreModel, x: i64, k: int) -> bool {
    &&& 0 <= k < m.recipes.len()
    &&& m.recipes[k].id < x
    &&& forall|i: int|
        0 <= i < m.recipes.len() && m.recipes[i].id < x ==> m.recipes[i].id <= m.recipes[k].id
}

/// Row `k` holds the lowest id.
pub open spec fn lowest(m: StoreModel, k: int) -> bool {
    &&& 0 <= k < m.recipes.len()
    &&& forall|i: int| 0 <= i < m.recipes.len() ==> m.recipes[k].id <= #[trigger] m.recipes[i].id
}

/// Row `k` holds the highest id.
pub open spec fn highest(m: StoreModel, k: int) -> bool {
    &&& 0 <= k < m.recipes.len()
    &&& forall|i: int| 0 <= i < m.recipes.len() ==> #[trigger] m.recipes[i].id <= m.recipes[k].id
}

/// The row with the least id above `x`, if any.
pub open spec fn first_above_row(m: StoreModel, x: i64) -> Option<int> {
    if exists|k: int| least_above(m, x, k) {
        Some(choose|k: int| least_above(m, x, k))
    } else {
        None
    }
}

/// The row with the greatest id below `x`, if any.
pub open spec fn last_below_row(m: StoreModel, x: i64) -> Option<int> {
    if exists|k: int| greatest_below(m, x, k) {
        Some(choose|k: int| greatest_below(m, x, k))
    } else {
        None
    }
}

/// The position of the row that read `rq` finds in a store holding `m`,
/// where some row meets the read's rule; `pick` is the random draw.
pub open spec fn row_found(m: StoreModel, rq: RowQuery, pick: u64) -> Option<int> {
    match rq {
        RowQuery::Random => if m.recipes.len() > 0 {
            Some(m.random_index(pick))
        } else {
            None
        },
        RowQuery::ById(id) => if m.has_recipe(id) {
            Some(m.index_of(id))
        } else {
            None
        },
        RowQuery::FirstAbove(x) => first_above_row(m, x),
        RowQuery::Lowest => if exists|k: int| lowest(m, k) {
            Some(choose|k: int| lowest(m, k))
        } else {
            None
        },
        RowQuery::LastBelow(x) => last_below_row(m, x),
        RowQuery::Highest => if exists|k: int| highest(m, k) {
            Some(choose|k: int| highest(m, k))
        } else {
            None
        },
    }
}

/// The position of the row that a fetch of `q` hydrates: the row of its
/// first read, or, where that finds none, the row of its wraparound read.
pub open spec fn fetch_outcome(m: StoreModel, q: StoreQuery, pick: u64) -> Option<int> {
    match row_found(m, first_read(q), pick) {
        Some(k) => Some(k),
        None => match wrap_read(q) {
            Some(w) => row_found(m, w, pick),
            None => None,
        },
    }
}

/// Some row holds the least id above `x`, where row `j`'s id is above it.
proof fn lemma_least_above(m: StoreModel, x: i64, j: int)
    requires
        ids_increasing(m.recipes),
        0 <= j < m.recipes.len(),
        m.recipes[j].id > x,
    ensures
        exists|k: int| least_above(m, x, k),
    decreases j,
{
    if j > 0 && m.recipes[j - 1].id > x {
        lemma_least_above(m, x, j - 1);
    } else {
        assert forall|i: int| 0 <= i < m.recipes.len() && m.recipes[i].id > x implies m.recipes[j].id
            <= m.recipes[i].id by {
            if i < j - 1 {
                assert(m.recipes[i].id < m.recipes[j - 1].id);
            } else if i > j {
                assert(m.recipes[j].id < m.recipes[i].id);
            }
        }
        assert(least_above(m, x, j));
    }
}

/// Some row holds the greatest id below `x`, where row `j`'s id is below it.
proof fn lemma_greatest_below(m: StoreModel, x: i64, j: int)
    requires
        ids_increasing(m.recipes),
        0 <= j < m.recipes.len(),
        m.recipes[j].id < x,
    ensures
        exists|k: int| greatest_below(m, x, k),
    decreases m.recipes.len() - j,
{
    if j + 1 < m.recipes.len() && m.recipes[j + 1].id < x {
        lemma_greatest_below(m, x, j + 1);
    } else {
        assert forall|i: int| 0 <= i < m.recipes.len() && m.recipes[i].id < x implies m.recipes[i].id
            <= m.recipes[j].id by {
            if i > j + 1 {
                assert(m.recipes[j + 1].id < m.recipes[i].id);
            } else if i < j {
                assert(m.recipes[i].id < m.recipes[j].id);
            }
        }
        assert(greatest_below(m, x, j));
    }
}

/// `next` over id-ordered reads: the first row above `x`, or where none
/// is, the lowest row, is the row that the store's `next` rule names.
proof fn lemma_next_reads(m: StoreModel, x: i64, pick: u64)
    requires
        m.wf(),
        m.recipes.len() > 0,
    ensures
        fetch_outcome(m, StoreQuery::NextAfter(x), pick) == Some(m.next_index(x)),
{
    let n = m.recipes.len() as int;
    if exists|j: int| 0 <= j < n && m.recipes[j].id > x {
        let j = choose|j: int| 0 <= j < n && m.recipes[j].id > x;
        lemma_least_above(m, x, j);
        let k = first_above_row(m, x)->Some_0;
        assert(least_above(m, x, k));
        assert(m.is_next(x, k));
        lemma_next_index(m, x, k);
    } else {
        assert forall|j: int| 0 <= j < n implies m.recipes[0].id <= #[trigger] m.recipes[j].id by {
            if j > 0 {
                assert(m.recipes[0].id < m.recipes[j].id);
            }
        }
        assert(lowest(m, 0));
        assert(!exists|k: int| least_above(m, x, k));
        let k = choose|k: int| lowest(m, k);
        assert(m.is_next(x, k));
        lemma_next_index(m, x, k);
    }
}

/// `prev` over id-ordered reads: the last row below `x`, or where none is,
/// the highest row, is the row that the store's `prev` rule names.
proof fn lemma_prev_reads(m: StoreModel, x: i64, pick: u64)
    requires
        m.wf(),
        m.recipes.len() > 0,
    ensures
        fetch_outcome(m, StoreQuery::PrevBefore(x), pick) == Some(m.prev_index(x)),
{
    let n = m.recipes.len() as int;
    if exists|j: int| 0 <= j < n && m.recipes[j].id < x {
        let j = choose|j: int| 0 <= j < n && m.recipes[j].id < x;
        lemma_greatest_below(m, x, j);
        let k = last_below_row(m, x)->Some_0;
        assert(greatest_below(m, x, k));
        assert(m.is_prev(x, k));
        lemma_prev_index(m, x, k);
    } else {
        assert forall|j: int| 0 <= j < n implies #[trigger] m.recipes[j].id <= m.recipes[n - 1].id by {
            if j < n - 1 {
                assert(m.recipes[j].id < m.recipes[n - 1].id);
            }
        }
        assert(highest(m, n - 1));
        assert(!exists|k: int| greatest_below(m, x, k));
        let k = choose|k: int| highest(m, k);
        assert(m.is_prev(x, k));
        lemma_prev_index(m, x, k);
    }
}

/// Reading rows in id order and wrapping around to the lowest or highest
/// row selects exactly the recipe that the store's navigation rules name:
/// a fetch of `q` hydrates the row that the store's answer to `q` holds,
/// and finds none exactly where that answer is `NotFound`.
pub proof fn lemma_fetch_outcome_matches_store(m: StoreModel, q: StoreQuery, pick: u64)
    requires
        m.wf(),
    ensures
        match q {
            StoreQuery::ById(id) => fetch_outcome(m, q, pick) == if m.has_recipe(id) {
                Some(m.index_of(id))
            } else {
                None::<int>
            },
            StoreQuery::Random => fetch_outcome(m, q, pick) == if m.recipes.len() > 0 {
                Some(m.random_index(pick))
            } else {
                None::<int>
            },
            StoreQuery::NextAfter(x) => fetch_outcome(m, q, pick) == if m.recipes.len() > 0 {
                Some(m.next_index(x))
            } else {
                None::<int>
            },
            StoreQuery::PrevBefore(x) => fetch_outcome(m, q, pick) == if m.recipes.len() > 0 {
                Some(m.prev_index(x))
            } else {
                None::<int>
            },
        },
{
    if m.recipes.len() > 0 {
        match q {
            StoreQuery::NextAfter(x) => lemma_next_reads(m, x, pick),
            StoreQuery::PrevBefore(x) => lemma_prev_reads(m, x, pick),
            _ => {},
        }
    }
}

/// Starts the fetch of query `q`.
pub fn start_fetch(q: StoreQuery) -> (r: (FetchState, FetchAction))
    ensures
        r.0 == FetchState::Reading(q),
        r.1 == FetchAction::ReadRow(first_read(q)),
{
    let first = match q {
        StoreQuery::Random => RowQuery::Random,
        StoreQuery::ById(id) => RowQuery::ById(id),
        StoreQuery::NextAfter(x) => RowQuery::FirstAbove(x),
        StoreQuery::PrevBefore(x) => RowQuery::LastBelow(x),
    };
    (FetchState::Reading(q), FetchAction::ReadRow(first))
}

/// Advances a fetch by the store's answer to the last action. A found row
/// leads to the read of its ingredients, and those to the hydrated recipe.
/// A first read that finds nothing wraps around where the query does, else
/// the fetch ends in `NotFound`; so does a wraparound read that finds
/// nothing. A failed read, or an answer that does not fit the state, ends
/// the fetch in `StoreError`.
pub fn fetch_step(state: FetchState, event: FetchEvent) -> (r: (FetchState, FetchAction))
    ensures
        event is Failed ==> r == (FetchState::Done, FetchAction::Finish(
            Err::<Recipe, NavError>(NavError::StoreError),
        )),
        event matches FetchEvent::Row(Some(row)) ==> ((state is Reading || state is Wrapping) ==> r
            == (FetchState::Hydrating(row.id, row.name), FetchAction::ReadIngredients(row.id))),
        state matches FetchState::Reading(q) ==> (event matches FetchEvent::Row(None) ==> r == (
        match wrap_read(q) {
            Some(w) => (FetchState::Wrapping(q), FetchAction::ReadRow(w)),
            None => (FetchState::Done, FetchAction::Finish(
                Err::<Recipe, NavError>(NavError::NotFound),
            )),
        })),
        event matches FetchEvent::Row(None) ==> (state is Wrapping ==> r == (
        FetchState::Done,
        FetchAction::Finish(Err::<Recipe, NavError>(NavError::NotFound)),
        )),
        state matches FetchState::Hydrating(id, title) ==> (event matches FetchEvent::Ingredients(v)
            ==> r == (FetchState::Done, FetchAction::Finish(
            Ok::<Recipe, NavError>(Recipe { id, title, ingredients: v }),
        ))),
        !(event is Failed) && !((state is Reading || state is Wrapping) && event is Row)
            && !(state is Hydrating && event is Ingredients) ==> r == (
        FetchState::Done,
        FetchAction::Finish(Err::<Recipe, NavError>(NavError::StoreError)),
        ),
{
    match (state, event) {
        (FetchState::Reading(q), FetchEvent::Row(Some(row))) | (
            FetchState::Wrapping(q),
            FetchEvent::Row(Some(row)),
        ) => {
            let id = row.id;
            (FetchState::Hydrating(id, row.name), FetchAction::ReadIngredients(id))
        },
        (FetchState::Reading(q), FetchEvent::Row(None)) => match q {
            StoreQuery::NextAfter(_) => (
                FetchState::Wrapping(q),
                FetchAction::ReadRow(RowQuery::Lowest),
            ),
            StoreQuery::PrevBefore(_) => (
                FetchState::Wrapping(q),
                FetchAction::ReadRow(RowQuery::Highest),
            ),
            _ => (FetchState::Done, FetchAction::Finish(Err(NavError::NotFound))),
        },
        (FetchState::Wrapping(_), FetchEvent::Row(None)) => (
            FetchState::Done,
            FetchAction::Finish(Err(NavError::NotFound)),
        ),
        (FetchState::Hydrating(id, title), FetchEvent::Ingredients(v)) => (
            FetchState::Done,
            FetchAction::Finish(Ok(Recipe { id, title, ingredients: v })),
        ),
        _ => (FetchState::Done, FetchAction::Finish(Err(NavError::StoreError))),
    }
}

} // verus!
