use recipe_server::navigator::{parse_direction, plan_query};
use recipe_server::store::run_query;
use recipe_server::{
    query_next_recipe, query_prev_recipe, query_random_recipe, query_recipe, query_recipe_by_id,
    Direction, NavError, Recipe, RecipeNavigator, RecipeStore, StoreQuery,
};

fn strings(items: &[&str]) -> Vec<String> {
    items.iter().map(|s| s.to_string()).collect()
}

fn store_of(recipes: &[(&str, &[&str])]) -> RecipeStore {
    let mut store = RecipeStore::new();
    for (title, ingredients) in recipes {
        store
            .insert_recipe(&title.to_string(), &strings(ingredients))
            .expect("insert");
    }
    store
}

fn nav(direction: &str, current_id: Option<i64>) -> RecipeNavigator {
    RecipeNavigator { direction: direction.to_string(), current_id }
}

fn id_of(r: Result<Recipe, NavError>) -> i64 {
    r.expect("a recipe").id
}

#[test]
fn toast_and_salad_example() {
    let store = store_of(&[("Toast", &["Bread"]), ("Salad", &["Lettuce", "Tomato"])]);
    assert_eq!(store.recipe_count(), 2);
    let toast = query_recipe_by_id(&store, 1).unwrap();
    assert_eq!(toast.title, "Toast");
    assert_eq!(toast.ingredients, strings(&["Bread"]));
    let salad = query_recipe_by_id(&store, 2).unwrap();
    assert_eq!(salad.title, "Salad");
    assert_eq!(salad.ingredients, strings(&["Lettuce", "Tomato"]));
    assert_eq!(id_of(query_next_recipe(&store, 1)), 2);
    assert_eq!(id_of(query_next_recipe(&store, 2)), 1);
}

#[test]
fn next_and_prev_cycle_over_three_recipes() {
    let store = store_of(&[("A", &[]), ("B", &["b"]), ("C", &["c1", "c2"])]);
    assert_eq!(id_of(query_next_recipe(&store, 1)), 2);
    assert_eq!(id_of(query_next_recipe(&store, 2)), 3);
    assert_eq!(id_of(query_next_recipe(&store, 3)), 1);
    assert_eq!(id_of(query_prev_recipe(&store, 3)), 2);
    assert_eq!(id_of(query_prev_recipe(&store, 2)), 1);
    assert_eq!(id_of(query_prev_recipe(&store, 1)), 3);
}

#[test]
fn next_and_prev_from_ids_not_stored() {
    let mut store = store_of(&[("A", &[]), ("B", &[]), ("C", &[]), ("D", &[])]);
    assert!(store.delete_recipe(2));
    assert_eq!(id_of(query_next_recipe(&store, 1)), 3);
    assert_eq!(id_of(query_prev_recipe(&store, 3)), 1);
    assert_eq!(id_of(query_next_recipe(&store, 2)), 3);
    assert_eq!(id_of(query_prev_recipe(&store, 2)), 1);
    assert_eq!(id_of(query_next_recipe(&store, -7)), 1);
    assert_eq!(id_of(query_prev_recipe(&store, 100)), 4);
    assert_eq!(id_of(query_next_recipe(&store, i64::MAX)), 1);
    assert_eq!(id_of(query_prev_recipe(&store, i64::MIN)), 4);
}

#[test]
fn hydrated_recipe_carries_its_ingredients_only() {
    let store = store_of(&[("Soup", &["Water", "Salt"]), ("Tea", &["Water", "Leaves"])]);
    let tea = query_next_recipe(&store, 1).unwrap();
    assert_eq!(tea.title, "Tea");
    assert_eq!(tea.ingredients, strings(&["Water", "Leaves"]));
    let soup = query_prev_recipe(&store, 2).unwrap();
    assert_eq!(soup.ingredients, strings(&["Water", "Salt"]));
}

#[test]
fn random_on_single_recipe_store_returns_it() {
    let store = store_of(&[("Only", &["x"])]);
    for pick in [0u64, 1, 2, 17, u64::MAX] {
        let r = query_random_recipe(&store, pick).unwrap();
        assert_eq!(r.id, 1);
        assert_eq!(r.title, "Only");
        assert_eq!(r.ingredients, strings(&["x"]));
    }
}

#[test]
fn random_picks_by_position() {
    let store = store_of(&[("A", &[]), ("B", &[]), ("C", &[])]);
    assert_eq!(id_of(query_random_recipe(&store, 0)), 1);
    assert_eq!(id_of(query_random_recipe(&store, 4)), 2);
    assert_eq!(id_of(query_random_recipe(&store, 8)), 3);
}

#[test]
fn empty_store_reports_not_found() {
    let store = RecipeStore::new();
    assert_eq!(query_random_recipe(&store, 3).unwrap_err(), NavError::NotFound);
    assert_eq!(query_next_recipe(&store, 1).unwrap_err(), NavError::NotFound);
    assert_eq!(query_prev_recipe(&store, 1).unwrap_err(), NavError::NotFound);
    assert_eq!(query_recipe_by_id(&store, 1).unwrap_err(), NavError::NotFound);
    assert_eq!(query_recipe(&store, &nav("random", None), 0).unwrap_err(), NavError::NotFound);
}

#[test]
fn missing_id_reports_not_found() {
    let store = store_of(&[("A", &[])]);
    assert_eq!(query_recipe_by_id(&store, 2).unwrap_err(), NavError::NotFound);
    assert_eq!(query_recipe_by_id(&store, 0).unwrap_err(), NavError::NotFound);
}

#[test]
fn next_without_position_falls_back_to_random() {
    let store = store_of(&[("A", &[]), ("B", &[]), ("C", &[])]);
    for pick in [0u64, 1, 2, 5] {
        let random = id_of(query_recipe(&store, &nav("random", None), pick));
        assert_eq!(id_of(query_recipe(&store, &nav("next", None), pick)), random);
        assert_eq!(id_of(query_recipe(&store, &nav("next", Some(0)), pick)), random);
        assert_eq!(id_of(query_recipe(&store, &nav("prev", None), pick)), random);
        assert_eq!(id_of(query_recipe(&store, &nav("prev", Some(0)), pick)), random);
    }
}

#[test]
fn bogus_direction_is_invalid() {
    let store = store_of(&[("A", &[])]);
    assert_eq!(
        query_recipe(&store, &nav("bogus", Some(5)), 0).unwrap_err(),
        NavError::InvalidDirection
    );
    assert_eq!(plan_query(&nav("bogus", Some(5))), Err(NavError::InvalidDirection));
    assert_eq!(plan_query(&nav("Next", Some(5))), Err(NavError::InvalidDirection));
    assert_eq!(plan_query(&nav("", None)), Err(NavError::InvalidDirection));
}

#[test]
fn navigator_steps_from_current_id() {
    let store = store_of(&[("A", &[]), ("B", &[]), ("C", &[])]);
    assert_eq!(id_of(query_recipe(&store, &nav("next", Some(2)), 0)), 3);
    assert_eq!(id_of(query_recipe(&store, &nav("prev", Some(2)), 0)), 1);
    assert_eq!(id_of(query_recipe(&store, &nav("next", Some(3)), 0)), 1);
    assert_eq!(id_of(query_recipe(&store, &nav("prev", Some(1)), 0)), 3);
}

#[test]
fn plans_for_each_direction() {
    assert_eq!(plan_query(&nav("random", Some(4))), Ok(StoreQuery::Random));
    assert_eq!(plan_query(&nav("next", Some(4))), Ok(StoreQuery::NextAfter(4)));
    assert_eq!(plan_query(&nav("prev", Some(4))), Ok(StoreQuery::PrevBefore(4)));
    assert_eq!(plan_query(&nav("next", None)), Ok(StoreQuery::Random));
    assert_eq!(plan_query(&nav("prev", Some(0))), Ok(StoreQuery::Random));
    assert_eq!(plan_query(&nav("next", Some(-3))), Ok(StoreQuery::NextAfter(-3)));
}

#[test]
fn directions_parse_exactly() {
    assert_eq!(parse_direction(&"random".to_string()), Some(Direction::Random));
    assert_eq!(parse_direction(&"next".to_string()), Some(Direction::Next));
    assert_eq!(parse_direction(&"prev".to_string()), Some(Direction::Prev));
    assert_eq!(parse_direction(&"previous".to_string()), None);
    assert_eq!(parse_direction(&" next".to_string()), None);
}

#[test]
fn run_query_by_id() {
    let store = store_of(&[("A", &["a"]), ("B", &["b"])]);
    let b = run_query(&store, StoreQuery::ById(2), 0).unwrap();
    assert_eq!(b.title, "B");
    assert_eq!(b.ingredients, strings(&["b"]));
    assert_eq!(run_query(&store, StoreQuery::ById(9), 0).unwrap_err(), NavError::NotFound);
}
