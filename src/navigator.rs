use vstd::prelude::*;
use crate::recipe::{NavError, Recipe, RecipeNavigator};
use crate::store::{RecipeStore, StoreModel, StoreQuery, run_query};

verus! {

/// A navigation direction.
#[derive(Debug, Clone, Copy, PartialEq, Eq, Structural)]
pub enum Direction {
    Random,
    Next,
    Prev,
}

/// The direction that a request's text names: exactly `random`, `next` or
/// `prev`; any other text names none.
pub open spec fn direction_of(s: Seq<char>) -> Option<Direction> {
    if s == "random"@ {
        Some(Direction::Random)
    } else if s == "next"@ {
        Some(Direction::Next)
    } else if s == "prev"@ {
        Some(Direction::Prev)
    } else {
        None
    }
}

/// The read that a request resolves to. `next` and `prev` step from the
/// current position; without one (absent, or the sentinel 0) they fall back
/// to a random read, so that a first page load never fails. An unknown
/// direction is `InvalidDirection`.
pub open spec fn plan_of(direction: Seq<char>, current_id: Option<i64>) -> Result<
    StoreQuery,
    NavError,
> {
    match direction_of(direction) {
        None => Err(NavError::InvalidDirection),
        Some(Direction::Random) => Ok(StoreQuery::Random),
        Some(d) => match current_id {
            Some(id) => if id == 0 {
                Ok(StoreQuery::Random)
            } else if d == Direction::Next {
                Ok(StoreQuery::NextAfter(id))
            } else {
                Ok(StoreQuery::PrevBefore(id))
            },
            None => Ok(StoreQuery::Random),
        },
    }
}

/// Reads the direction named by `s`.
pub fn parse_direction(s: &String) -> (d: Option<Direction>)
    ensures
        d == direction_of(s@),
{
    if *s == "random".to_owned() {
        Some(Direction::Random)
    } else if *s == "next".to_owned() {
        Some(Direction::Next)
    } else if *s == "prev".to_owned() {
        Some(Direction::Prev)
    } else {
        None
    }
}

/// The store read that a navigation request resolves to.
pub fn plan_query(nav: &RecipeNavigator) -> (r: Result<StoreQuery, NavError>)
    ensures
        r == plan_of(nav.direction@, nav.current_id),
{
    match parse_direction(&nav.direction) {
        None => Err(NavError::InvalidDirection),
        Some(Direction::Random) => Ok(StoreQuery::Random),
        Some(d) => match nav.current_id {
            Some(id) => if id == 0 {
                Ok(StoreQuery::Random)
            } else if d == Direction::Next {
                Ok(StoreQuery::NextAfter(id))
            } else {
                Ok(StoreQuery::PrevBefore(id))
            },
            None => Ok(StoreQuery::Random),
        },
    }
}

/// Resolves a navigation request against the store to one hydrated recipe;
/// `pick` is the random draw used where the request resolves to a random
/// read.
pub fn query_recipe(store: &RecipeStore, nav: &RecipeNavigator, pick: u64) -> (r: Result<
    Recipe,
    NavError,
>)
    requires
        store@.wf(),
    ensures
        match plan_of(nav.direction@, nav.current_id) {
            Err(e) => r == Err::<Recipe, NavError>(e),
            Ok(q) => store@.answers(q, pick, r),
        },
{
    match plan_query(nav) {
        Err(e) => Err(e),
        Ok(q) => run_query(store, q, pick),
    }
}

/// A `next` or `prev` request with no current position (absent, or 0)
/// resolves as a `random` request does, so it admits the same results; on
/// a store that holds a recipe, none of them is an error.
pub proof fn lemma_no_position_is_random(
    m: StoreModel,
    current_id: Option<i64>,
    pick: u64,
    r: Result<Recipe, NavError>,
)
    requires
        current_id is None || current_id == Some(0i64),
    ensures
        plan_of("next"@, current_id) == plan_of("random"@, current_id),
        plan_of("prev"@, current_id) == plan_of("random"@, current_id),
        m.recipes.len() > 0 && m.answers(StoreQuery::Random, pick, r) ==> r is Ok,
{
    reveal_strlit("random");
    reveal_strlit("next");
    reveal_strlit("prev");
    assert("next"@ != "random"@) by {
        assert("next"@[0] != "random"@[0]);
    }
    assert("prev"@ != "random"@) by {
        assert("prev"@[0] != "random"@[0]);
    }
    assert("prev"@ != "next"@) by {
        assert("prev"@[0] != "next"@[0]);
    }
}

} // verus!
