use vstd::prelude::*;
use crate::recipe::{FixtureError, NavError, Recipe};
use crate::store::{
    IngredientRow, RecipeRow, RecipeStore, StoreModel, lemma_inserted_wf, names_for,
    new_ingredient_rows,
};

verus! {

/// The store after inserting `recipes` one by one, in order.
pub open spec fn seeded(m: StoreModel, recipes: Seq<Recipe>) -> StoreModel
    decreases recipes.len(),
{
    if recipes.len() == 0 {
        m
    } else {
        seeded(m, recipes.drop_last()).inserted(
            recipes.last().title,
            recipes.last().ingredients@,
        )
    }
}

/// Every insert of `recipes`, in order, finds fresh ids.
pub open spec fn seed_fits(m: StoreModel, recipes: Seq<Recipe>) -> bool
    decreases recipes.len(),
{
    if recipes.len() == 0 {
        true
    } else {
        seed_fits(m, recipes.drop_last()) && seeded(m, recipes.drop_last()).can_insert(
            recipes.last().ingredients@.len() as int,
        )
    }
}

/// The number of ingredients over all of `recipes`.
pub open spec fn total_ingredients(recipes: Seq<Recipe>) -> int
    decreases recipes.len(),
{
    if recipes.len() == 0 {
        0
    } else {
        total_ingredients(recipes.drop_last()) + recipes.last().ingredients@.len()
    }
}

/// Where all of `recipes` fit, so does each prefix of them.
proof fn lemma_prefix_fits(m: StoreModel, recipes: Seq<Recipe>, k: int)
    requires
        0 <= k <= recipes.len(),
        seed_fits(m, recipes),
    ensures
        seed_fits(m, recipes.take(k)),
    decreases recipes.len(),
{
    if k < recipes.len() {
        assert(recipes.take(k) =~= recipes.drop_last().take(k));
        lemma_prefix_fits(m, recipes.drop_last(), k);
    } else {
        assert(recipes.take(k) =~= recipes);
    }
}

/// Appending the rows of one insert adds its names to the list of the
/// inserted recipe and to no other.
proof fn lemma_names_after_append(
    a: Seq<IngredientRow>,
    id: i64,
    first: int,
    names: Seq<String>,
    x: i64,
)
    ensures
        names_for(a + new_ingredient_rows(id, first, names), x) == names_for(a, x) + (if x == id {
            names
        } else {
            Seq::<String>::empty()
        }),
    decreases names.len(),
{
    if names.len() == 0 {
        assert(a + new_ingredient_rows(id, first, names) =~= a);
        assert(names_for(a, x) + Seq::<String>::empty() =~= names_for(a, x));
        assert(names =~= Seq::<String>::empty());
    } else {
        let ns = names.drop_last();
        lemma_names_after_append(a, id, first, ns, x);
        let row = IngredientRow {
            id: (first + ns.len()) as i64,
            recipe_id: id,
            name: names.last(),
        };
        let whole = a + new_ingredient_rows(id, first, names);
        assert(whole.drop_last() =~= a + new_ingredient_rows(id, first, ns));
        assert(whole.last() == row);
        if x == id {
            assert((names_for(a, x) + ns).push(names.last()) =~= names_for(a, x) + names);
        }
    }
}

/// A recipe id that no ingredient row references has no ingredient names.
proof fn lemma_names_absent(s: Seq<IngredientRow>, x: i64)
    requires
        forall|i: int| 0 <= i < s.len() ==> #[trigger] s[i].recipe_id != x,
    ensures
        names_for(s, x) == Seq::<String>::empty(),
    decreases s.len(),
{
    if s.len() > 0 {
        assert(s.last() == s[s.len() - 1]);
        lemma_names_absent(s.drop_last(), x);
    }
}

/// Seeding `recipes` into a store adds exactly one recipe row per recipe,
/// with consecutive fresh ids in fixture order, and exactly as many
/// ingredient rows as the recipes have ingredients in total; the ingredient
/// names of the `j`th seeded recipe are exactly those of the `j`th fixture
/// entry, and every ingredient row references a stored recipe.
pub proof fn lemma_seed_counts(m: StoreModel, recipes: Seq<Recipe>)
    requires
        m.wf(),
        seed_fits(m, recipes),
    ensures
        seeded(m, recipes).wf(),
        seeded(m, recipes).recipes.len() == m.recipes.len() + recipes.len(),
        seeded(m, recipes).ingredients.len() == m.ingredients.len() + total_ingredients(recipes),
        seeded(m, recipes).next_recipe_id == m.next_recipe_id + recipes.len(),
        seeded(m, recipes).next_ingredient_id == m.next_ingredient_id + total_ingredients(recipes),
        forall|k: int| 0 <= k < m.recipes.len() ==> seeded(m, recipes).recipes[k] == m.recipes[k],
        forall|j: int|
            0 <= j < recipes.len() ==> seeded(m, recipes).recipes[m.recipes.len() + j] == (
            RecipeRow { id: (m.next_recipe_id + j) as i64, name: #[trigger] recipes[j].title }),
        forall|j: int|
            0 <= j < recipes.len() ==> names_for(
                seeded(m, recipes).ingredients,
                (m.next_recipe_id + j) as i64,
            ) == #[trigger] recipes[j].ingredients@,
    decreases recipes.len(),
{
    if recipes.len() > 0 {
        let rs = recipes.drop_last();
        let last = recipes.last();
        lemma_seed_counts(m, rs);
        let sp = seeded(m, rs);
        let sn = seeded(m, recipes);
        lemma_inserted_wf(sp, last.title, last.ingredients@);
        let id_last = sp.next_recipe_id as i64;
        assert forall|i: int| 0 <= i < sp.ingredients.len() implies #[trigger] sp.ingredients[i].recipe_id
            != id_last by {
            assert(sp.has_recipe(sp.ingredients[i].recipe_id));
        }
        lemma_names_absent(sp.ingredients, id_last);
        assert forall|j: int| 0 <= j < recipes.len() implies sn.recipes[m.recipes.len() + j] == (
        RecipeRow { id: (m.next_recipe_id + j) as i64, name: #[trigger] recipes[j].title }) by {
            if j < rs.len() {
                assert(rs[j] == recipes[j]);
            }
        }
        assert forall|j: int| 0 <= j < recipes.len() implies names_for(
            sn.ingredients,
            (m.next_recipe_id + j) as i64,
        ) == #[trigger] recipes[j].ingredients@ by {
            lemma_names_after_append(
                sp.ingredients,
                id_last,
                sp.next_ingredient_id,
                last.ingredients@,
                (m.next_recipe_id + j) as i64,
            );
            if j < rs.len() {
                assert(rs[j] == recipes[j]);
                assert(names_for(sp.ingredients, (m.next_recipe_id + j) as i64) + Seq::<
                    String,
                >::empty() =~= names_for(sp.ingredients, (m.next_recipe_id + j) as i64));
            } else {
                assert(Seq::<String>::empty() + last.ingredients@ =~= last.ingredients@);
            }
        }
    }
}

/// Inserts each recipe of the fixture, in order, each as one unit. Stops at
/// the first insert that fails and returns its error: the recipes before it
/// stay stored, that one and those after it are not stored.
pub fn insert(store: &mut RecipeStore, recipes: &Vec<Recipe>) -> (r: Result<(), NavError>)
    requires
        old(store)@.wf(),
    ensures
        final(store)@.wf(),
        seed_fits(old(store)@, recipes@) ==> r == Ok::<(), NavError>(()) && final(store)@ == seeded(
            old(store)@,
            recipes@,
        ),
        !seed_fits(old(store)@, recipes@) ==> r == Err::<(), NavError>(NavError::StoreError) && (
        exists|k: int|
            0 <= k < recipes@.len() && seed_fits(old(store)@, recipes@.take(k)) && !seed_fits(
                old(store)@,
                recipes@.take(k + 1),
            ) && final(store)@ == seeded(old(store)@, recipes@.take(k))),
{
    let ghost m0 = store@;
    let mut i: usize = 0;
    while i < recipes.len()
        invariant
            i <= recipes@.len(),
            m0 == old(store)@,
            store@.wf(),
            store@ == seeded(m0, recipes@.take(i as int)),
            seed_fits(m0, recipes@.take(i as int)),
        decreases recipes@.len() - i,
    {
        let ghost before = store@;
        proof {
            assert(recipes@.take(i as int + 1).drop_last() =~= recipes@.take(i as int));
            assert(recipes@.take(i as int + 1).last() == recipes@[i as int]);
        }
        match store.insert_recipe(&recipes[i].title, &recipes[i].ingredients) {
            Ok(_) => {},
            Err(e) => {
                proof {
                    assert(!seed_fits(m0, recipes@.take(i as int + 1)));
                    assert(store@ == seeded(m0, recipes@.take(i as int)));
                    if seed_fits(m0, recipes@) {
                        lemma_prefix_fits(m0, recipes@, i as int + 1);
                    }
                }
                return Err(e);
            },
        }
        i = i + 1;
    }
    proof {
        assert(recipes@.take(recipes@.len() as int) =~= recipes@);
    }
    Ok(())
}

/// Seeds the store at startup, only where it was freshly created; a store
/// that already existed is left exactly as it was.
pub fn seed_on_startup(store: &mut RecipeStore, freshly_created: bool, recipes: &Vec<Recipe>) -> (r:
    Result<(), NavError>)
    requires
        old(store)@.wf(),
    ensures
        final(store)@.wf(),
        !freshly_created ==> r == Ok::<(), NavError>(()) && final(store)@ == old(store)@,
        freshly_created && seed_fits(old(store)@, recipes@) ==> r == Ok::<(), NavError>(())
            && final(store)@ == seeded(old(store)@, recipes@),
        freshly_created && !seed_fits(old(store)@, recipes@) ==> r == Err::<(), NavError>(
            NavError::StoreError,
        ) && (exists|k: int|
            0 <= k < recipes@.len() && seed_fits(old(store)@, recipes@.take(k)) && !seed_fits(
                old(store)@,
                recipes@.take(k + 1),
            ) && final(store)@ == seeded(old(store)@, recipes@.take(k))),
{
    if freshly_created {
        insert(store, recipes)
    } else {
        Ok(())
    }
}

/// The recipes of a fixture as loaded; a fixture that could not be read or
/// parsed counts as one with no recipes.
pub fn fixture_or_empty(loaded: Result<Vec<Recipe>, FixtureError>) -> (v: Vec<Recipe>)
    ensures
        loaded is Ok ==> v@ == loaded->Ok_0@,
        loaded is Err ==> v@.len() == 0,
{
    match loaded {
        Ok(v) => v,
        Err(_) => Vec::new(),
    }
}

} // verus!
