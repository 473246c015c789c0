use recipe_server::fetch::{fetch_step, start_fetch, FetchAction, FetchEvent, FetchState, RowQuery};
use recipe_server::seed::fixture_or_empty;
use recipe_server::store::RecipeRow;
use recipe_server::{
    insert, query_next_recipe, query_recipe_by_id, seed_on_startup, FixtureError, NavError,
    Recipe, RecipeStore, StoreQuery,
};

fn strings(items: &[&str]) -> Vec<String> {
    items.iter().map(|s| s.to_string()).collect()
}

fn fixture(entries: &[(&str, &[&str])]) -> Vec<Recipe> {
    entries
        .iter()
        .map(|(title, ingredients)| Recipe {
            id: 0,
            title: title.to_string(),
            ingredients: strings(ingredients),
        })
        .collect()
}

#[test]
fn seeding_counts_rows_in_both_relations() {
    let recipes = fixture(&[
        ("Pancakes", &["Flour", "Milk"]),
        ("Water", &[]),
        ("Omelette", &["Eggs", "Butter", "Salt"]),
    ]);
    let mut store = RecipeStore::new();
    assert_eq!(insert(&mut store, &recipes), Ok(()));
    assert_eq!(store.recipe_count(), 3);
    assert_eq!(store.ingredient_count(), 5);
    for (i, entry) in recipes.iter().enumerate() {
        let got = query_recipe_by_id(&store, i as i64 + 1).unwrap();
        assert_eq!(got.title, entry.title);
        assert_eq!(got.ingredients, entry.ingredients);
    }
}

#[test]
fn seeding_toast_and_salad_assigns_ids_one_and_two() {
    let recipes = fixture(&[("Toast", &["Bread"]), ("Salad", &["Lettuce", "Tomato"])]);
    let mut store = RecipeStore::new();
    assert_eq!(seed_on_startup(&mut store, true, &recipes), Ok(()));
    assert_eq!(query_recipe_by_id(&store, 1).unwrap().ingredients, strings(&["Bread"]));
    assert_eq!(query_recipe_by_id(&store, 2).unwrap().title, "Salad");
    assert_eq!(query_next_recipe(&store, 1).unwrap().id, 2);
    assert_eq!(query_next_recipe(&store, 2).unwrap().id, 1);
}

#[test]
fn startup_on_existing_store_inserts_nothing() {
    let recipes = fixture(&[("Toast", &["Bread"]), ("Salad", &["Lettuce", "Tomato"])]);
    let mut store = RecipeStore::new();
    assert_eq!(seed_on_startup(&mut store, true, &recipes), Ok(()));
    assert_eq!(seed_on_startup(&mut store, false, &recipes), Ok(()));
    assert_eq!(store.recipe_count(), 2);
    assert_eq!(store.ingredient_count(), 3);
    assert_eq!(query_recipe_by_id(&store, 3).unwrap_err(), NavError::NotFound);
}

#[test]
fn seeding_an_empty_fixture_inserts_nothing() {
    let mut store = RecipeStore::new();
    assert_eq!(seed_on_startup(&mut store, true, &Vec::new()), Ok(()));
    assert_eq!(store.recipe_count(), 0);
    assert_eq!(store.ingredient_count(), 0);
}

#[test]
fn unreadable_or_malformed_fixture_counts_as_empty() {
    assert!(fixture_or_empty(Err(FixtureError::Read)).is_empty());
    assert!(fixture_or_empty(Err(FixtureError::Parse)).is_empty());
    let loaded = fixture_or_empty(Ok(fixture(&[("Toast", &["Bread"])])));
    assert_eq!(loaded.len(), 1);
    assert_eq!(loaded[0].title, "Toast");
}

#[test]
fn insert_returns_increasing_ids() {
    let mut store = RecipeStore::new();
    assert_eq!(store.insert_recipe(&"A".to_string(), &strings(&["x"])), Ok(1));
    assert_eq!(store.insert_recipe(&"B".to_string(), &Vec::new()), Ok(2));
    assert!(store.delete_recipe(2));
    assert_eq!(store.insert_recipe(&"C".to_string(), &strings(&["y", "z"])), Ok(3));
    assert_eq!(store.ingredient_count(), 3);
}

#[test]
fn delete_cascades_to_ingredients() {
    let recipes = fixture(&[("Toast", &["Bread"]), ("Salad", &["Lettuce", "Tomato"])]);
    let mut store = RecipeStore::new();
    insert(&mut store, &recipes).unwrap();
    assert!(store.delete_recipe(2));
    assert_eq!(store.recipe_count(), 1);
    assert_eq!(store.ingredient_count(), 1);
    assert_eq!(query_recipe_by_id(&store, 2).unwrap_err(), NavError::NotFound);
    assert_eq!(query_recipe_by_id(&store, 1).unwrap().ingredients, strings(&["Bread"]));
    assert!(!store.delete_recipe(2));
    assert_eq!(store.ingredient_count(), 1);
}

fn row(id: i64, name: &str) -> RecipeRow {
    RecipeRow { id, name: name.to_string() }
}

#[test]
fn fetch_next_hydrates_the_found_row() {
    let (state, action) = start_fetch(StoreQuery::NextAfter(4));
    assert!(matches!(action, FetchAction::ReadRow(RowQuery::FirstAbove(4))));
    let (state, action) = fetch_step(state, FetchEvent::Row(Some(row(5, "Stew"))));
    assert!(matches!(state, FetchState::Hydrating(5, _)));
    assert!(matches!(action, FetchAction::ReadIngredients(5)));
    let (state, action) = fetch_step(state, FetchEvent::Ingredients(strings(&["Beef", "Carrot"])));
    assert!(matches!(state, FetchState::Done));
    match action {
        FetchAction::Finish(Ok(r)) => {
            assert_eq!(r.id, 5);
            assert_eq!(r.title, "Stew");
            assert_eq!(r.ingredients, strings(&["Beef", "Carrot"]));
        }
        other => panic!("unexpected action {:?}", other),
    }
}

#[test]
fn fetch_next_wraps_to_lowest() {
    let (state, _) = start_fetch(StoreQuery::NextAfter(9));
    let (state, action) = fetch_step(state, FetchEvent::Row(None));
    assert!(matches!(state, FetchState::Wrapping(StoreQuery::NextAfter(9))));
    assert!(matches!(action, FetchAction::ReadRow(RowQuery::Lowest)));
    let (_, action) = fetch_step(state, FetchEvent::Row(Some(row(1, "First"))));
    assert!(matches!(action, FetchAction::ReadIngredients(1)));
}

#[test]
fn fetch_prev_wraps_to_highest() {
    let (state, action) = start_fetch(StoreQuery::PrevBefore(1));
    assert!(matches!(action, FetchAction::ReadRow(RowQuery::LastBelow(1))));
    let (state, action) = fetch_step(state, FetchEvent::Row(None));
    assert!(matches!(action, FetchAction::ReadRow(RowQuery::Highest)));
    let (_, action) = fetch_step(state, FetchEvent::Row(None));
    assert!(matches!(action, FetchAction::Finish(Err(NavError::NotFound))));
}

#[test]
fn fetch_random_or_by_id_without_row_is_not_found() {
    let (state, action) = start_fetch(StoreQuery::Random);
    assert!(matches!(action, FetchAction::ReadRow(RowQuery::Random)));
    let (_, action) = fetch_step(state, FetchEvent::Row(None));
    assert!(matches!(action, FetchAction::Finish(Err(NavError::NotFound))));
    let (state, action) = start_fetch(StoreQuery::ById(3));
    assert!(matches!(action, FetchAction::ReadRow(RowQuery::ById(3))));
    let (_, action) = fetch_step(state, FetchEvent::Row(None));
    assert!(matches!(action, FetchAction::Finish(Err(NavError::NotFound))));
}

#[test]
fn fetch_failure_is_store_error() {
    let (state, _) = start_fetch(StoreQuery::Random);
    let (state, action) = fetch_step(state, FetchEvent::Failed);
    assert!(matches!(state, FetchState::Done));
    assert!(matches!(action, FetchAction::Finish(Err(NavError::StoreError))));
    let (_, action) = fetch_step(FetchState::Hydrating(1, "A".to_string()), FetchEvent::Row(None));
    assert!(matches!(action, FetchAction::Finish(Err(NavError::StoreError))));
}
