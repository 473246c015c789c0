//! Recipe navigation and seeding over a store of recipes and their ingredients.
//!
//! The library holds the logic of a small recipe server: the store contract
//! (insert, fetch by id, random, next and previous with wraparound), the
//! navigator that turns a request into one store query, the seeding loader,
//! and the step function that drives an external SQL-backed store.
pub mod recipe;
pub mod store;
pub mod navigator;
pub mod seed;
pub mod fetch;

pub use navigator::{query_recipe, Direction};
pub use recipe::{FixtureError, NavError, Recipe, RecipeNavigator};
pub use seed::{insert, seed_on_startup};
pub use store::{
    query_next_recipe, query_prev_recipe, query_random_recipe, query_recipe_by_id, RecipeStore,
    StoreQuery,
};
