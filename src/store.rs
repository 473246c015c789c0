use vstd::prelude::*;
use crate::recipe::{NavError, Recipe};

verus! {

/// One row of the recipe relation.
#[derive(Debug, Clone)]
pub struct RecipeRow {
    pub id: i64,
    pub name: String,
}

/// One row of the ingredient relation, tied to its recipe by `recipe_id`.
#[derive(Debug, Clone)]
pub struct IngredientRow {
    pub id: i64,
    pub recipe_id: i64,
    pub name: String,
}

/// The contents of a store: both relations in insertion order, and the ids
/// that the next inserted rows will receive.
pub struct StoreModel {
    pub recipes: Seq<RecipeRow>,
    pub ingredients: Seq<IngredientRow>,
    pub next_recipe_id: int,
    pub next_ingredient_id: int,
}

/// One single-recipe read that a store offers.
#[derive(Debug, Clone, Copy, PartialEq, Eq, Structural)]
pub enum StoreQuery {
    /// Any recipe, chosen at random.
    Random,
    /// The recipe with this id.
    ById(i64),
    /// The next recipe after this id, with wraparound.
    NextAfter(i64),
    /// The previous recipe before this id, with wraparound.
    PrevBefore(i64),
}

/// The names of the ingredient rows that belong to recipe `id`, in row order.
pub open spec fn names_for(rows: Seq<IngredientRow>, id: i64) -> Seq<String>
    decreases rows.len(),
{
    if rows.len() == 0 {
        Seq::empty()
    } else {
        let rest = names_for(rows.drop_last(), id);
        if rows.last().recipe_id == id {
            rest.push(rows.last().name)
        } else {
            rest
        }
    }
}

/// The ingredient rows that an insert of `names` under `recipe_id` adds,
/// numbered from `first_id`.
pub open spec fn new_ingredient_rows(recipe_id: i64, first_id: int, names: Seq<String>) -> Seq<
    IngredientRow,
> {
    Seq::new(
        names.len(),
        |i: int| (IngredientRow { id: (first_id + i) as i64, recipe_id, name: names[i] }),
    )
}

/// Recipe ids grow strictly in row order.
pub open spec fn ids_increasing(rows: Seq<RecipeRow>) -> bool {
    forall|i: int, j: int| 0 <= i < j < rows.len() ==> rows[i].id < rows[j].id
}

/// Keeps the recipe rows whose id is not `id`.
pub open spec fn keeps_recipe(id: i64) -> spec_fn(RecipeRow) -> bool {
    |r: RecipeRow| r.id != id
}

/// Keeps the ingredient rows that do not belong to recipe `id`.
pub open spec fn keeps_ingredient(id: i64) -> spec_fn(IngredientRow) -> bool {
    |g: IngredientRow| g.recipe_id != id
}

impl StoreModel {
    /// The store's invariant: recipe ids and ingredient ids grow strictly in
    /// row order and stay below the next ids, and every ingredient row
    /// references an existing recipe.
    pub open spec fn wf(self) -> bool {
        &&& 1 <= self.next_recipe_id <= i64::MAX
        &&& 1 <= self.next_ingredient_id <= i64::MAX
        &&& ids_increasing(self.recipes)
        &&& forall|i: int| 0 <= i < self.recipes.len() ==> 1 <= #[trigger] self.recipes[i].id < self.next_recipe_id
        &&& forall|i: int, j: int|
            0 <= i < j < self.ingredients.len() ==> self.ingredients[i].id < self.ingredients[j].id
        &&& forall|i: int|
            0 <= i < self.ingredients.len() ==> 1 <= #[trigger] self.ingredients[i].id < self.next_ingredient_id
        &&& forall|i: int|
            0 <= i < self.ingredients.len() ==> self.has_recipe(#[trigger] self.ingredients[i].recipe_id)
    }

    /// Some recipe row has this id.
    pub open spec fn has_recipe(self, id: i64) -> bool {
        exists|k: int| 0 <= k < self.recipes.len() && self.recipes[k].id == id
    }

    /// The position of the recipe with this id.
    pub open spec fn index_of(self, id: i64) -> int {
        choose|k: int| 0 <= k < self.recipes.len() && self.recipes[k].id == id
    }

    /// `rec` is the recipe at row `k`, hydrated with its ingredient names.
    pub open spec fn holds(self, rec: Recipe, k: int) -> bool {
        &&& 0 <= k < self.recipes.len()
        &&& rec.id == self.recipes[k].id
        &&& rec.title == self.recipes[k].name
        &&& rec.ingredients@ == names_for(self.ingredients, self.recipes[k].id)
    }

    /// `r` is what the store answers to `q`, where `pick` is the random
    /// draw that a `Random` read uses.
    pub open spec fn answers(self, q: StoreQuery, pick: u64, r: Result<Recipe, NavError>) -> bool {
        match q {
            StoreQuery::ById(id) => if self.has_recipe(id) {
                r matches Ok(rec) && self.holds(rec, self.index_of(id))
            } else {
                r == Err::<Recipe, NavError>(NavError::NotFound)
            },
            _ => if self.recipes.len() == 0 {
                r == Err::<Recipe, NavError>(NavError::NotFound)
            } else {
                r matches Ok(rec) && self.holds(
                    rec,
                    match q {
                        StoreQuery::NextAfter(x) => self.next_index(x),
                        StoreQuery::PrevBefore(x) => self.prev_index(x),
                        _ => self.random_index(pick),
                    },
                )
            },
        }
    }

    /// An insert of a recipe with `n` ingredients still finds fresh ids.
    pub open spec fn can_insert(self, n: int) -> bool {
        &&& self.next_recipe_id < i64::MAX
        &&& self.next_ingredient_id + n <= i64::MAX
    }

    /// The store after inserting recipe `title` with ingredients `names`:
    /// one recipe row with the next recipe id, then one ingredient row per
    /// name, in order, tagged with that id.
    pub open spec fn inserted(self, title: String, names: Seq<String>) -> StoreModel {
        StoreModel {
            recipes: self.recipes.push(RecipeRow { id: self.next_recipe_id as i64, name: title }),
            ingredients: self.ingredients + new_ingredient_rows(
                self.next_recipe_id as i64,
                self.next_ingredient_id,
                names,
            ),
            next_recipe_id: self.next_recipe_id + 1,
            next_ingredient_id: self.next_ingredient_id + names.len(),
        }
    }

    /// The store after deleting recipe `id`: its row goes, and with it every
    /// ingredient row that references it.
    pub open spec fn deleted(self, id: i64) -> StoreModel {
        StoreModel {
            recipes: self.recipes.filter(keeps_recipe(id)),
            ingredients: self.ingredients.filter(keeps_ingredient(id)),
            next_recipe_id: self.next_recipe_id,
            next_ingredient_id: self.next_ingredient_id,
        }
    }

    /// Row `k` holds the smallest id strictly greater than `x`, or, where no
    /// id exceeds `x`, the smallest id overall.
    pub open spec fn is_next(self, x: i64, k: int) -> bool {
        &&& 0 <= k < self.recipes.len()
        &&& if exists|j: int| 0 <= j < self.recipes.len() && self.recipes[j].id > x {
            &&& self.recipes[k].id > x
            &&& forall|j: int|
                0 <= j < self.recipes.len() && self.recipes[j].id > x ==> self.recipes[k].id
                    <= self.recipes[j].id
        } else {
            forall|j: int| 0 <= j < self.recipes.len() ==> self.recipes[k].id <= self.recipes[j].id
        }
    }

    /// Row `k` holds the largest id strictly less than `x`, or, where no id
    /// is below `x`, the largest id overall.
    pub open spec fn is_prev(self, x: i64, k: int) -> bool {
        &&& 0 <= k < self.recipes.len()
        &&& if exists|j: int| 0 <= j < self.recipes.len() && self.recipes[j].id < x {
            &&& self.recipes[k].id < x
            &&& forall|j: int|
                0 <= j < self.recipes.len() && self.recipes[j].id < x ==> self.recipes[j].id
                    <= self.recipes[k].id
        } else {
            forall|j: int| 0 <= j < self.recipes.len() ==> self.recipes[j].id <= self.recipes[k].id
        }
    }

    /// The row that `next` after `x` selects.
    pub open spec fn next_index(self, x: i64) -> int {
        choose|k: int| self.is_next(x, k)
    }

    /// The row that `prev` before `x` selects.
    pub open spec fn prev_index(self, x: i64) -> int {
        choose|k: int| self.is_prev(x, k)
    }

    /// The row that a random pick `pick` selects.
    pub open spec fn random_index(self, pick: u64) -> int {
        pick as int % self.recipes.len() as int
    }
}

/// Recipe ids are distinct, so a row is known by its id.
proof fn lemma_same_id_same_row(m: StoreModel, a: int, b: int)
    requires
        m.wf(),
        0 <= a < m.recipes.len(),
        0 <= b < m.recipes.len(),
        m.recipes[a].id == m.recipes[b].id,
    ensures
        a == b,
{
    if a < b {
        assert(m.recipes[a].id < m.recipes[b].id);
    } else if b < a {
        assert(m.recipes[b].id < m.recipes[a].id);
    }
}

/// Where row `k` meets `is_next`, `next_index` is `k`.
pub(crate) proof fn lemma_next_index(m: StoreModel, x: i64, k: int)
    requires
        m.wf(),
        m.is_next(x, k),
    ensures
        m.next_index(x) == k,
{
    let c = m.next_index(x);
    assert(m.is_next(x, c));
    assert(m.recipes[c].id == m.recipes[k].id);
    lemma_same_id_same_row(m, c, k);
}

/// Where row `k` meets `is_prev`, `prev_index` is `k`.
pub(crate) proof fn lemma_prev_index(m: StoreModel, x: i64, k: int)
    requires
        m.wf(),
        m.is_prev(x, k),
    ensures
        m.prev_index(x) == k,
{
    let c = m.prev_index(x);
    assert(m.is_prev(x, c));
    assert(m.recipes[c].id == m.recipes[k].id);
    lemma_same_id_same_row(m, c, k);
}

/// An insert that finds fresh ids keeps the store's invariant.
pub proof fn lemma_inserted_wf(m: StoreModel, title: String, names: Seq<String>)
    requires
        m.wf(),
        m.can_insert(names.len() as int),
    ensures
        m.inserted(title, names).wf(),
{
    let n = m.inserted(title, names);
    let rid = m.next_recipe_id as i64;
    assert(n.recipes[m.recipes.len() as int].id == rid);
    assert(n.has_recipe(rid));
    assert forall|i: int| 0 <= i < n.ingredients.len() implies n.has_recipe(
        #[trigger] n.ingredients[i].recipe_id,
    ) by {
        if i < m.ingredients.len() {
            assert(n.ingredients[i] == m.ingredients[i]);
            let k = choose|k: int|
                0 <= k < m.recipes.len() && m.recipes[k].id == m.ingredients[i].recipe_id;
            assert(n.recipes[k] == m.recipes[k]);
        }
    }
}

/// Filtering keeps a strictly increasing key strictly increasing.
proof fn lemma_filter_keeps_order<A>(s: Seq<A>, key: spec_fn(A) -> int, pred: spec_fn(A) -> bool)
    requires
        forall|i: int, j: int| 0 <= i < j < s.len() ==> key(s[i]) < key(s[j]),
    ensures
        forall|i: int, j: int|
            0 <= i < j < s.filter(pred).len() ==> key(s.filter(pred)[i]) < key(
                s.filter(pred)[j],
            ),
    decreases s.len(),
{
    reveal(Seq::filter);
    if s.len() > 0 {
        let rest = s.drop_last();
        lemma_filter_keeps_order(rest, key, pred);
        let fr = rest.filter(pred);
        if pred(s.last()) {
            assert forall|a: int| 0 <= a < fr.len() implies key(#[trigger] fr[a]) < key(s.last()) by {
                assert(fr.contains(fr[a]));
                rest.lemma_filter_contains_rev(pred, fr[a]);
                let j = choose|j: int| 0 <= j < rest.len() && rest[j] == fr[a];
                assert(s[j] == rest[j]);
            }
            let f = s.filter(pred);
            assert(f == fr.push(s.last()));
            assert forall|i: int, j: int| 0 <= i < j < f.len() implies key(f[i]) < key(f[j]) by {
                if j == f.len() - 1 {
                    assert(f[i] == fr[i]);
                } else {
                    assert(f[i] == fr[i]);
                    assert(f[j] == fr[j]);
                }
            }
        }
    }
}

/// Deleting a recipe keeps the store's invariant.
pub proof fn lemma_deleted_wf(m: StoreModel, id: i64)
    requires
        m.wf(),
    ensures
        m.deleted(id).wf(),
{
    broadcast use vstd::seq_lib::group_filter_ensures;

    let d = m.deleted(id);
    let rkey = |r: RecipeRow| r.id as int;
    let gkey = |g: IngredientRow| g.id as int;
    lemma_filter_keeps_order(m.recipes, rkey, keeps_recipe(id));
    lemma_filter_keeps_order(m.ingredients, gkey, keeps_ingredient(id));
    assert forall|i: int, j: int| 0 <= i < j < d.recipes.len() implies d.recipes[i].id
        < d.recipes[j].id by {
        assert(rkey(d.recipes[i]) < rkey(d.recipes[j]));
    }
    assert forall|i: int, j: int| 0 <= i < j < d.ingredients.len() implies d.ingredients[i].id
        < d.ingredients[j].id by {
        assert(gkey(d.ingredients[i]) < gkey(d.ingredients[j]));
    }
    assert forall|i: int| 0 <= i < d.recipes.len() implies 1 <= #[trigger] d.recipes[i].id
        < d.next_recipe_id by {
        assert(d.recipes.contains(d.recipes[i]));
        m.recipes.lemma_filter_contains_rev(keeps_recipe(id), d.recipes[i]);
    }
    assert forall|i: int| 0 <= i < d.ingredients.len() implies 1 <= #[trigger] d.ingredients[i].id
        < d.next_ingredient_id by {
        assert(d.ingredients.contains(d.ingredients[i]));
        m.ingredients.lemma_filter_contains_rev(keeps_ingredient(id), d.ingredients[i]);
    }
    assert forall|i: int| 0 <= i < d.ingredients.len() implies d.has_recipe(
        #[trigger] d.ingredients[i].recipe_id,
    ) by {
        let g = d.ingredients[i];
        assert(d.ingredients.contains(g));
        m.ingredients.lemma_filter_contains_rev(keeps_ingredient(id), g);
        let j = choose|j: int| 0 <= j < m.ingredients.len() && m.ingredients[j] == g;
        assert(m.has_recipe(m.ingredients[j].recipe_id));
        let k = choose|k: int| 0 <= k < m.recipes.len() && m.recipes[k].id == g.recipe_id;
        assert(keeps_ingredient(id)(g));
        assert(keeps_recipe(id)(m.recipes[k]));
        m.recipes.lemma_filter_contains(keeps_recipe(id), k);
        assert(d.recipes.contains(m.recipes[k]));
        let a = choose|a: int| 0 <= a < d.recipes.len() && d.recipes[a] == m.recipes[k];
        assert(d.recipes[a].id == g.recipe_id);
    }
}

/// Dropping the ingredient rows of recipe `id` empties its name list and
/// leaves the name list of every other recipe as it was.
proof fn lemma_names_after_cascade(s: Seq<IngredientRow>, id: i64, x: i64)
    ensures
        names_for(s.filter(keeps_ingredient(id)), x) == (if x == id {
            Seq::<String>::empty()
        } else {
            names_for(s, x)
        }),
    decreases s.len(),
{
    reveal(Seq::filter);
    if s.len() > 0 {
        let rest = s.drop_last();
        lemma_names_after_cascade(rest, id, x);
        let fr = rest.filter(keeps_ingredient(id));
        if keeps_ingredient(id)(s.last()) {
            assert(fr.push(s.last()).drop_last() =~= fr);
        }
    }
}

/// Deleting a recipe cascades: no ingredient row of the resulting store
/// references it, its ingredient list is empty, it is no longer stored, and
/// every other recipe keeps its ingredient list.
pub proof fn lemma_delete_cascades(m: StoreModel, id: i64, other: i64)
    requires
        m.wf(),
        other != id,
    ensures
        forall|i: int|
            0 <= i < m.deleted(id).ingredients.len() ==> #[trigger] m.deleted(id).ingredients[i].recipe_id
                != id,
        names_for(m.deleted(id).ingredients, id).len() == 0,
        names_for(m.deleted(id).ingredients, other) == names_for(m.ingredients, other),
        !m.deleted(id).has_recipe(id),
{
    broadcast use vstd::seq_lib::group_filter_ensures;

    let d = m.deleted(id);
    assert forall|i: int| 0 <= i < d.ingredients.len() implies #[trigger] d.ingredients[i].recipe_id
        != id by {
        assert(keeps_ingredient(id)(d.ingredients[i]));
    }
    assert forall|k: int| 0 <= k < d.recipes.len() implies #[trigger] d.recipes[k].id != id by {
        assert(keeps_recipe(id)(d.recipes[k]));
    }
    lemma_names_after_cascade(m.ingredients, id, id);
    lemma_names_after_cascade(m.ingredients, id, other);
}

/// Stepping between neighbouring ids: where `a < b` are stored and no
/// stored id lies strictly between them, `next` from `a` selects `b` and
/// `prev` from `b` selects `a`.
pub proof fn lemma_step_between_neighbours(m: StoreModel, a: i64, b: i64)
    requires
        m.wf(),
        m.has_recipe(a),
        m.has_recipe(b),
        a < b,
        forall|k: int| 0 <= k < m.recipes.len() ==> !(a < #[trigger] m.recipes[k].id < b),
    ensures
        m.recipes[m.next_index(a)].id == b,
        m.recipes[m.prev_index(b)].id == a,
{
    let ka = choose|k: int| 0 <= k < m.recipes.len() && m.recipes[k].id == a;
    let kb = choose|k: int| 0 <= k < m.recipes.len() && m.recipes[k].id == b;
    assert(m.is_next(a, kb));
    lemma_next_index(m, a, kb);
    assert(m.is_prev(b, ka));
    lemma_prev_index(m, b, ka);
}

/// Wraparound: where `lo` and `hi` are the smallest and the largest stored
/// ids, `next` from `hi` selects `lo` and `prev` from `lo` selects `hi`.
pub proof fn lemma_wraparound(m: StoreModel, lo: i64, hi: i64)
    requires
        m.wf(),
        m.has_recipe(lo),
        m.has_recipe(hi),
        forall|k: int| 0 <= k < m.recipes.len() ==> lo <= #[trigger] m.recipes[k].id <= hi,
    ensures
        m.recipes[m.next_index(hi)].id == lo,
        m.recipes[m.prev_index(lo)].id == hi,
{
    let klo = choose|k: int| 0 <= k < m.recipes.len() && m.recipes[k].id == lo;
    let khi = choose|k: int| 0 <= k < m.recipes.len() && m.recipes[k].id == hi;
    assert(m.is_next(hi, klo));
    lemma_next_index(m, hi, klo);
    assert(m.is_prev(lo, khi));
    lemma_prev_index(m, lo, khi);
}

/// Navigation over three stored ids `i1 < i2 < i3` with no other id among
/// or around them: `next` goes `i1` to `i2` and wraps `i3` to `i1`; `prev`
/// goes `i3` to `i2` and wraps `i1` to `i3`.
pub proof fn lemma_navigation_cycle(m: StoreModel, i1: i64, i2: i64, i3: i64)
    requires
        m.wf(),
        m.has_recipe(i1),
        m.has_recipe(i2),
        m.has_recipe(i3),
        i1 < i2 < i3,
        forall|k: int|
            0 <= k < m.recipes.len() ==> (#[trigger] m.recipes[k].id == i1 || m.recipes[k].id == i2
                || m.recipes[k].id == i3),
    ensures
        m.recipes[m.next_index(i1)].id == i2,
        m.recipes[m.next_index(i3)].id == i1,
        m.recipes[m.prev_index(i3)].id == i2,
        m.recipes[m.prev_index(i1)].id == i3,
{
    lemma_step_between_neighbours(m, i1, i2);
    lemma_step_between_neighbours(m, i2, i3);
    lemma_wraparound(m, i1, i3);
}

/// With exactly one stored recipe, every random pick selects it.
pub proof fn lemma_random_single(m: StoreModel, pick: u64)
    requires
        m.wf(),
        m.recipes.len() == 1,
    ensures
        m.random_index(pick) == 0,
{
}

/// An in-memory recipe store with the relations and id rules of the
/// persisted schema.
pub struct RecipeStore {
    recipes: Vec<RecipeRow>,
    ingredients: Vec<IngredientRow>,
    next_recipe_id: i64,
    next_ingredient_id: i64,
}

impl View for RecipeStore {
    type V = StoreModel;

    closed spec fn view(&self) -> StoreModel {
        StoreModel {
            recipes: self.recipes@,
            ingredients: self.ingredients@,
            next_recipe_id: self.next_recipe_id as int,
            next_ingredient_id: self.next_ingredient_id as int,
        }
    }
}

impl RecipeStore {
    /// An empty store whose first recipe will get id 1.
    pub fn new() -> (s: Self)
        ensures
            s@.wf(),
            s@.recipes.len() == 0,
            s@.ingredients.len() == 0,
            s@.next_recipe_id == 1,
            s@.next_ingredient_id == 1,
    {
        RecipeStore {
            recipes: Vec::new(),
            ingredients: Vec::new(),
            next_recipe_id: 1,
            next_ingredient_id: 1,
        }
    }

    /// The number of rows in the recipe relation.
    pub fn recipe_count(&self) -> (n: usize)
        ensures
            n == self@.recipes.len(),
    {
        self.recipes.len()
    }

    /// The number of rows in the ingredient relation.
    pub fn ingredient_count(&self) -> (n: usize)
        ensures
            n == self@.ingredients.len(),
    {
        self.ingredients.len()
    }

    /// Inserts a recipe and its ingredients as one unit: on success the
    /// recipe row gets the next recipe id and each ingredient a row tagged
    /// with it, in order; where the ids would run out, `StoreError` and the
    /// store is left as it was.
    pub fn insert_recipe(&mut self, title: &String, ingredients: &Vec<String>) -> (r: Result<
        i64,
        NavError,
    >)
        requires
            old(self)@.wf(),
        ensures
            final(self)@.wf(),
            old(self)@.can_insert(ingredients@.len() as int) ==> r == Ok::<i64, NavError>(
                old(self)@.next_recipe_id as i64,
            ) && final(self)@ == old(self)@.inserted(*title, ingredients@),
            !old(self)@.can_insert(ingredients@.len() as int) ==> r == Err::<i64, NavError>(
                NavError::StoreError,
            ) && final(self)@ == old(self)@,
    {
        if self.next_recipe_id == i64::MAX {
            return Err(NavError::StoreError);
        }
        let room: u64 = (i64::MAX - self.next_ingredient_id) as u64;
        if ingredients.len() as u64 > room {
            return Err(NavError::StoreError);
        }
        let ghost m0 = self@;
        let id = self.next_recipe_id;
        let first = self.next_ingredient_id;
        self.recipes.push(RecipeRow { id, name: title.clone() });
        let mut i: usize = 0;
        while i < ingredients.len()
            invariant
                i <= ingredients@.len(),
                m0.wf(),
                m0.can_insert(ingredients@.len() as int),
                id == m0.next_recipe_id,
                first == m0.next_ingredient_id,
                self.next_recipe_id == id,
                self.next_ingredient_id == first,
                self.recipes@ == m0.recipes.push(RecipeRow { id, name: *title }),
                self.ingredients@ == m0.ingredients + new_ingredient_rows(
                    id,
                    first as int,
                    ingredients@.take(i as int),
                ),
            decreases ingredients@.len() - i,
        {
            let row = IngredientRow { id: first + i as i64, recipe_id: id, name: ingredients[i].clone() };
            self.ingredients.push(row);
            i = i + 1;
            proof {
                assert(self.ingredients@ =~= m0.ingredients + new_ingredient_rows(
                    id,
                    first as int,
                    ingredients@.take(i as int),
                ));
            }
        }
        self.next_recipe_id = id + 1;
        self.next_ingredient_id = first + ingredients.len() as i64;
        proof {
            assert(ingredients@.take(ingredients@.len() as int) =~= ingredients@);
            assert(self@ == m0.inserted(*title, ingredients@));
            lemma_inserted_wf(m0, *title, ingredients@);
        }
        Ok(id)
    }

    /// Deletes recipe `id` together with all of its ingredient rows; tells
    /// whether a recipe with that id was stored.
    pub fn delete_recipe(&mut self, id: i64) -> (found: bool)
        requires
            old(self)@.wf(),
        ensures
            found == old(self)@.has_recipe(id),
            final(self)@ == old(self)@.deleted(id),
            final(self)@.wf(),
    {
        let ghost m0 = self@;
        let mut kept: Vec<RecipeRow> = Vec::new();
        let mut found = false;
        let mut i: usize = 0;
        while i < self.recipes.len()
            invariant
                self@ == m0,
                i <= m0.recipes.len(),
                kept@ == m0.recipes.take(i as int).filter(keeps_recipe(id)),
                found == exists|j: int| 0 <= j < i && m0.recipes[j].id == id,
            decreases m0.recipes.len() - i,
        {
            proof {
                assert(m0.recipes.take(i as int + 1) =~= m0.recipes.take(i as int).push(
                    m0.recipes[i as int],
                ));
            }
            proof {
                m0.recipes.take(i as int).lemma_filter_push(m0.recipes[i as int], keeps_recipe(id));
            }
            if self.recipes[i].id == id {
                found = true;
            } else {
                let row = RecipeRow { id: self.recipes[i].id, name: self.recipes[i].name.clone() };
                assert(row == m0.recipes[i as int]);
                kept.push(row);
            }
            i = i + 1;
        }
        let mut kept_ingredients: Vec<IngredientRow> = Vec::new();
        let mut i: usize = 0;
        while i < self.ingredients.len()
            invariant
                self@ == m0,
                i <= m0.ingredients.len(),
                kept_ingredients@ == m0.ingredients.take(i as int).filter(keeps_ingredient(id)),
            decreases m0.ingredients.len() - i,
        {
            proof {
                assert(m0.ingredients.take(i as int + 1) =~= m0.ingredients.take(i as int).push(
                    m0.ingredients[i as int],
                ));
            }
            proof {
                m0.ingredients.take(i as int).lemma_filter_push(
                    m0.ingredients[i as int],
                    keeps_ingredient(id),
                );
            }
            if self.ingredients[i].recipe_id != id {
                let g = &self.ingredients[i];
                let row = IngredientRow { id: g.id, recipe_id: g.recipe_id, name: g.name.clone() };
                assert(row == m0.ingredients[i as int]);
                kept_ingredients.push(row);
            }
            i = i + 1;
        }
        self.recipes = kept;
        self.ingredients = kept_ingredients;
        proof {
            assert(m0.recipes.take(m0.recipes.len() as int) =~= m0.recipes);
            assert(m0.ingredients.take(m0.ingredients.len() as int) =~= m0.ingredients);
            lemma_deleted_wf(m0, id);
        }
        found
    }

    /// The names of the ingredients of recipe `id`, in row order.
    fn ingredient_names(&self, id: i64) -> (r: Vec<String>)
        ensures
            r@ == names_for(self@.ingredients, id),
    {
        let mut r: Vec<String> = Vec::new();
        let mut i: usize = 0;
        while i < self.ingredients.len()
            invariant
                i <= self.ingredients@.len(),
                r@ == names_for(self.ingredients@.subrange(0, i as int), id),
            decreases self.ingredients@.len() - i,
        {
            proof {
                let s = self.ingredients@.subrange(0, i as int + 1);
                assert(s.drop_last() =~= self.ingredients@.subrange(0, i as int));
            }
            if self.ingredients[i].recipe_id == id {
                r.push(self.ingredients[i].name.clone());
            }
            i = i + 1;
        }
        proof {
            assert(self.ingredients@.subrange(0, i as int) =~= self.ingredients@);
        }
        r
    }

    /// The recipe at row `k` with its ingredient names.
    fn hydrate(&self, k: usize) -> (rec: Recipe)
        requires
            k < self@.recipes.len(),
        ensures
            self@.holds(rec, k as int),
    {
        let id = self.recipes[k].id;
        Recipe {
            id,
            title: self.recipes[k].name.clone(),
            ingredients: self.ingredient_names(id),
        }
    }
}

/// The recipe with id `id`; `NotFound` where no recipe has it.
pub fn query_recipe_by_id(store: &RecipeStore, id: i64) -> (r: Result<Recipe, NavError>)
    requires
        store@.wf(),
    ensures
        !store@.has_recipe(id) ==> r == Err::<Recipe, NavError>(NavError::NotFound),
        store@.has_recipe(id) ==> (r matches Ok(rec) && store@.holds(rec, store@.index_of(id))),
{
    let mut k: usize = 0;
    while k < store.recipes.len()
        invariant
            store@.wf(),
            k <= store@.recipes.len(),
            forall|j: int| 0 <= j < k ==> store@.recipes[j].id != id,
        decreases store@.recipes.len() - k,
    {
        if store.recipes[k].id == id {
            proof {
                let c = store@.index_of(id);
                lemma_same_id_same_row(store@, c, k as int);
            }
            return Ok(store.hydrate(k));
        }
        k = k + 1;
    }
    Err(NavError::NotFound)
}

/// A recipe chosen by `pick` among all stored recipes: row `pick` modulo
/// the number of recipes, so that a uniform `pick` gives a uniform choice.
/// `NotFound` on an empty store.
pub fn query_random_recipe(store: &RecipeStore, pick: u64) -> (r: Result<Recipe, NavError>)
    requires
        store@.wf(),
    ensures
        store@.recipes.len() == 0 ==> r == Err::<Recipe, NavError>(NavError::NotFound),
        store@.recipes.len() > 0 ==> (r matches Ok(rec) && store@.holds(rec, store@.random_index(pick))),
{
    let n = store.recipes.len();
    if n == 0 {
        return Err(NavError::NotFound);
    }
    let k = (pick % (n as u64)) as usize;
    Ok(store.hydrate(k))
}

/// The recipe with the smallest id above `recipe_index`, wrapping around to
/// the smallest id overall. `NotFound` on an empty store.
pub fn query_next_recipe(store: &RecipeStore, recipe_index: i64) -> (r: Result<Recipe, NavError>)
    requires
        store@.wf(),
    ensures
        store@.recipes.len() == 0 ==> r == Err::<Recipe, NavError>(NavError::NotFound),
        store@.recipes.len() > 0 ==> (r matches Ok(rec) && store@.holds(
            rec,
            store@.next_index(recipe_index),
        )),
{
    let n = store.recipes.len();
    if n == 0 {
        return Err(NavError::NotFound);
    }
    let mut i: usize = 0;
    while i < n && store.recipes[i].id <= recipe_index
        invariant
            store@.wf(),
            n == store@.recipes.len(),
            i <= n,
            forall|j: int| 0 <= j < i ==> store@.recipes[j].id <= recipe_index,
        decreases n - i,
    {
        i = i + 1;
    }
    let k: usize = if i < n { i } else { 0 };
    proof {
        let m = store@;
        if i < n {
            assert forall|j: int| 0 <= j < m.recipes.len() && m.recipes[j].id > recipe_index implies m.recipes[k as int].id <= m.recipes[j].id by {
                if j < i {
                } else if j > i {
                    assert(m.recipes[i as int].id < m.recipes[j].id);
                }
            }
        } else {
            assert forall|j: int| 0 <= j < m.recipes.len() implies m.recipes[0].id <= #[trigger] m.recipes[j].id by {
                if j > 0 {
                    assert(m.recipes[0].id < m.recipes[j].id);
                }
            }
        }
        assert(m.is_next(recipe_index, k as int));
        lemma_next_index(m, recipe_index, k as int);
    }
    Ok(store.hydrate(k))
}

/// The recipe with the largest id below `recipe_index`, wrapping around to
/// the largest id overall. `NotFound` on an empty store.
pub fn query_prev_recipe(store: &RecipeStore, recipe_index: i64) -> (r: Result<Recipe, NavError>)
    requires
        store@.wf(),
    ensures
        store@.recipes.len() == 0 ==> r == Err::<Recipe, NavError>(NavError::NotFound),
        store@.recipes.len() > 0 ==> (r matches Ok(rec) && store@.holds(
            rec,
            store@.prev_index(recipe_index),
        )),
{
    let n = store.recipes.len();
    if n == 0 {
        return Err(NavError::NotFound);
    }
    let mut i: usize = 0;
    while i < n && store.recipes[i].id < recipe_index
        invariant
            store@.wf(),
            n == store@.recipes.len(),
            i <= n,
            forall|j: int| 0 <= j < i ==> store@.recipes[j].id < recipe_index,
        decreases n - i,
    {
        i = i + 1;
    }
    let k: usize = if i > 0 { i - 1 } else { n - 1 };
    proof {
        let m = store@;
        if i > 0 {
            assert forall|j: int| 0 <= j < m.recipes.len() && m.recipes[j].id < recipe_index implies m.recipes[j].id <= m.recipes[k as int].id by {
                if j > k {
                    if j > i {
                        assert(m.recipes[i as int].id < m.recipes[j].id);
                    }
                } else if j < k {
                    assert(m.recipes[j].id < m.recipes[k as int].id);
                }
            }
        } else {
            assert forall|j: int| 0 <= j < m.recipes.len() implies m.recipes[j].id <= m.recipes[k as int].id by {
                if j < k {
                    assert(m.recipes[j].id < m.recipes[k as int].id);
                }
            }
        }
        assert(m.is_prev(recipe_index, k as int));
        lemma_prev_index(m, recipe_index, k as int);
    }
    Ok(store.hydrate(k))
}

/// Runs one read against the store; `pick` is the random draw for `Random`.
pub fn run_query(store: &RecipeStore, q: StoreQuery, pick: u64) -> (r: Result<Recipe, NavError>)
    requires
        store@.wf(),
    ensures
        store@.answers(q, pick, r),
{
    match q {
        StoreQuery::Random => query_random_recipe(store, pick),
        StoreQuery::ById(id) => query_recipe_by_id(store, id),
        StoreQuery::NextAfter(x) => query_next_recipe(store, x),
        StoreQuery::PrevBefore(x) => query_prev_recipe(store, x),
    }
}

} // verus!
