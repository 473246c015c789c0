use vstd::prelude::*;

verus! {

/// A recipe with its identity, title and ingredient names in stored order.
#[derive(Debug, Clone)]
pub struct Recipe {
    pub id: i64,
    pub title: String,
    pub ingredients: Vec<String>,
}

/// A navigation request: a direction (`random`, `next` or `prev`) and the
/// id of the recipe currently shown, if any.
#[derive(Debug, Clone)]
pub struct RecipeNavigator {
    pub direction: String,
    pub current_id: Option<i64>,
}

/// The errors that the store and the navigator report.
#[derive(Debug, Clone, Copy, PartialEq, Eq, Structural)]
pub enum NavError {
    /// No recipe matches the request, or the store holds none.
    NotFound,
    /// The direction is none of `random`, `next`, `prev`.
    InvalidDirection,
    /// The store could not carry out a write or a read.
    StoreError,
}

/// Why a fixture could not be loaded.
#[derive(Debug, Clone, Copy, PartialEq, Eq, Structural)]
pub enum FixtureError {
    /// The fixture file could not be read.
    Read,
    /// The fixture's content is not a list of recipes.
    Parse,
}

} // verus!
