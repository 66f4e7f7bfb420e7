//! Stores recipes so that those which produce a given item are found quickly.
use vstd::prelude::*;

use crate::recipes::Recipe;
use crate::ui::Item;

verus! {

/// How many entries of `products` name `name`.
pub open spec fn occurrences(products: Seq<(Item, u8, u8)>, name: Seq<char>) -> nat
    decreases products.len(),
{
    if products.len() == 0 {
        0
    } else {
        occurrences(products.drop_last(), name) + if products.last().0@ == name {
            1nat
        } else {
            0nat
        }
    }
}

/// The indices of the recipes that produce `name`, in order, an index once for
/// each of its product entries that names the item.
pub open spec fn producer_ids(recipes: Seq<Recipe<Item>>, name: Seq<char>) -> Seq<usize>
    decreases recipes.len(),
{
    if recipes.len() == 0 {
        Seq::empty()
    } else {
        let id = (recipes.len() - 1) as usize;
        producer_ids(recipes.drop_last(), name) + Seq::new(
            occurrences(recipes.last()@.1, name),
            |_i: int| id,
        )
    }
}

/// Recipes, and for each item the indices of the recipes that produce it.
#[derive(Debug)]
pub struct RecipeBank {
    table: Vec<(Item, Vec<usize>)>,
    recipes: Vec<Recipe<Item>>,
}

impl RecipeBank {
    /// The recipes, by index.
    pub closed spec fn recipes_view(&self) -> Seq<Recipe<Item>> {
        self.recipes@
    }

    /// The table lists each producing item once, with exactly its producers.
    pub closed spec fn wf(&self) -> bool {
        let t = self.table@;
        &&& forall|a: int, b: int|
            0 <= a < t.len() && 0 <= b < t.len() && a != b ==> #[trigger] t[a].0@ != #[trigger] t[b].0@
        &&& forall|k: int|
            0 <= k < t.len() ==> #[trigger] t[k].1@ == producer_ids(self.recipes@, t[k].0@)
                && t[k].1@.len() > 0
        &&& forall|name: Seq<char>|
            #[trigger] producer_ids(self.recipes@, name).len() > 0 ==> exists|k: int|
                0 <= k < t.len() && #[trigger] t[k].0@ == name
    }

    /// An empty bank.
    pub fn new() -> (r: RecipeBank)
        ensures
            r.wf(),
            r.recipes_view().len() == 0,
    {
        RecipeBank { table: Vec::new(), recipes: Vec::new() }
    }

    /// The number of recipes.
    pub fn len(&self) -> (r: usize)
        ensures
            r == self.recipes_view().len(),
    {
        self.recipes.len()
    }

    /// The recipe at `id`.
    pub fn get(&self, id: usize) -> (r: &Recipe<Item>)
        requires
            id < self.recipes_view().len(),
        ensures
            *r == self.recipes_view()[id as int],
    {
        &self.recipes[id]
    }

    /// Adds a recipe, under the next index.
    pub fn add(&mut self, recipe: Recipe<Item>)
        requires
            old(self).wf(),
            old(self).recipes_view().len() < usize::MAX,
        ensures
            final(self).wf(),
            final(self).recipes_view() == old(self).recipes_view().push(recipe),
    {
        let id = self.recipes.len();
        let ghost old_recipes = self.recipes@;
        let ghost rv = recipe@.1;
        let products = recipe.get_products();
        let mut j: usize = 0;
        while j < products.len()
            invariant
                0 <= j <= products@.len(),
                products@ == recipe@.1,
                id == old_recipes.len(),
                self.recipes@ == old_recipes,
                forall|a: int, b: int|
                    0 <= a < self.table@.len() && 0 <= b < self.table@.len() && a != b
                        ==> #[trigger] self.table@[a].0@ != #[trigger] self.table@[b].0@,
                forall|k: int|
                    0 <= k < self.table@.len() ==> #[trigger] self.table@[k].1@ == producer_ids(
                        old_recipes,
                        self.table@[k].0@,
                    ) + Seq::new(
                        occurrences(products@.take(j as int), self.table@[k].0@),
                        |_i: int| id,
                    ) && self.table@[k].1@.len() > 0,
                forall|name: Seq<char>|
                    (#[trigger] producer_ids(old_recipes, name).len() > 0 || occurrences(
                        products@.take(j as int),
                        name,
                    ) > 0) ==> exists|k: int|
                        0 <= k < self.table@.len() && #[trigger] self.table@[k].0@ == name,
            decreases products.len() - j,
        {
            let ghost before = self.table@;
            let ghost taken = products@.take(j as int);
            let ghost taken1 = products@.take(j + 1);
            let name = &products[j].0;
            assert(taken1.drop_last() =~= taken);
            assert(forall|x: Seq<char>|
                #[trigger] occurrences(taken1, x) == occurrences(taken, x) + if x == name@ {
                    1nat
                } else {
                    0nat
                });
            let pos = self.find_entry(name);
            let found = pos.is_some();
            let k: usize = match pos {
                Some(k) => k,
                None => 0,
            };
            if found {
                let mut entry = self.table.remove(k);
                entry.1.push(id);
                self.table.insert(k, entry);
                proof {
                    assert(self.table@ =~= before.update(k as int, self.table@[k as int]));
                    assert(Seq::new(occurrences(taken, name@), |_i: int| id).push(id) =~= Seq::new(
                        occurrences(taken1, name@),
                        |_i: int| id,
                    ));
                    assert forall|k2: int| 0 <= k2 < self.table@.len() && k2 != k implies #[trigger] self.table@[k2].0@
                        != name@ by {
                        assert(before[k2].0@ != before[k as int].0@);
                    }
                }
            } else {
                proof {
                    assert(producer_ids(old_recipes, name@).len() == 0);
                    assert(occurrences(taken, name@) == 0);
                    assert(Seq::<usize>::empty().push(id) =~= producer_ids(old_recipes, name@) + Seq::new(
                        occurrences(taken1, name@),
                        |_i: int| id,
                    ));
                }
                let mut ids: Vec<usize> = Vec::new();
                ids.push(id);
                self.table.push((name.duplicate(), ids));
                proof {
                    assert(self.table@[before.len() as int].0@ == name@);
                }
            }
            proof {
                assert forall|k2: int| 0 <= k2 < self.table@.len() implies #[trigger] self.table@[k2].1@
                    == producer_ids(old_recipes, self.table@[k2].0@) + Seq::new(
                    occurrences(taken1, self.table@[k2].0@),
                    |_i: int| id,
                ) by {
                    let x = self.table@[k2].0@;
                    if x != name@ {
                        assert(self.table@[k2] == before[k2]);
                        assert(Seq::new(occurrences(taken, x), |_i: int| id) =~= Seq::new(
                            occurrences(taken1, x),
                            |_i: int| id,
                        ));
                    }
                }
                assert forall|x: Seq<char>|
                    (#[trigger] producer_ids(old_recipes, x).len() > 0 || occurrences(taken1, x) > 0)
                        implies exists|k2: int|
                    0 <= k2 < self.table@.len() && #[trigger] self.table@[k2].0@ == x by {
                    if x == name@ {
                        if found {
                            assert(self.table@[k as int].0@ == x);
                        } else {
                            assert(self.table@[before.len() as int].0@ == x);
                        }
                    } else {
                        let k3 = choose|k3: int| 0 <= k3 < before.len() && #[trigger] before[k3].0@ == x;
                        assert(self.table@[k3].0@ == x);
                    }
                }
            }
            j += 1;
        }
        assert(products@.take(j as int) =~= products@);
        assert forall|x: Seq<char>|
            #[trigger] producer_ids(old_recipes, x).len() + occurrences(rv, x) > 0 implies exists|k: int|
            0 <= k < self.table@.len() && #[trigger] self.table@[k].0@ == x by {
            assert(producer_ids(old_recipes, x).len() > 0 || occurrences(products@.take(j as int), x) > 0);
        }
        let ghost t0 = self.table@;
        self.recipes.push(recipe);
        assert(self.table@ == t0);
        proof {
            let rs = self.recipes@;
            assert(rs.drop_last() =~= old_recipes);
            assert(rs.last() == recipe);
            assert forall|x: Seq<char>| #[trigger] producer_ids(rs, x) == producer_ids(old_recipes, x)
                + Seq::new(occurrences(rv, x), |_i: int| id) by {}
            assert forall|x: Seq<char>| #[trigger] producer_ids(rs, x).len() > 0 implies exists|k: int|
                0 <= k < self.table@.len() && #[trigger] self.table@[k].0@ == x by {
                assert(producer_ids(rs, x).len() == producer_ids(old_recipes, x).len() + occurrences(rv, x));
                assert(producer_ids(old_recipes, x).len() + occurrences(rv, x) > 0);
                let k = choose|k: int| 0 <= k < t0.len() && #[trigger] t0[k].0@ == x;
                assert(self.table@[k].0@ == x);
            }
        }
    }

    /// The indices of the recipes that produce `item`, in order; an index appears
    /// once for each product entry of its recipe that names the item.
    pub fn producers(&self, item: &Item) -> (r: Vec<usize>)
        requires
            self.wf(),
        ensures
            r@ == producer_ids(self.recipes_view(), item@),
    {
        match self.find_entry(item) {
            Some(k) => {
                let ids = &self.table[k].1;
                assert(ids@ == producer_ids(self.recipes@, item@));
                let mut r: Vec<usize> = Vec::new();
                let mut i: usize = 0;
                while i < ids.len()
                    invariant
                        0 <= i <= ids@.len(),
                        r@ == ids@.take(i as int),
                    decreases ids.len() - i,
                {
                    r.push(ids[i]);
                    assert(ids@.take(i + 1) =~= ids@.take(i as int).push(ids@[i as int]));
                    i += 1;
                }
                assert(ids@.take(i as int) =~= ids@);
                r
            },
            None => {
                proof {
                    if producer_ids(self.recipes@, item@).len() > 0 {
                        let k3 = choose|k3: int|
                            0 <= k3 < self.table@.len() && #[trigger] self.table@[k3].0@ == item@;
                        assert(self.table@[k3].0@ != item@);
                    }
                }
                assert(producer_ids(self.recipes@, item@) =~= Seq::<usize>::empty());
                Vec::new()
            },
        }
    }

    /// The index of the table entry for `item`, if there is one.
    fn find_entry(&self, item: &Item) -> (r: Option<usize>)
        ensures
            r matches Some(k) ==> k < self.table@.len() && self.table@[k as int].0@ == item@,
            r is None ==> forall|k: int|
                0 <= k < self.table@.len() ==> #[trigger] self.table@[k].0@ != item@,
    {
        let mut k: usize = 0;
        while k < self.table.len()
            invariant
                0 <= k <= self.table@.len(),
                forall|k2: int| 0 <= k2 < k ==> #[trigger] self.table@[k2].0@ != item@,
            decreases self.table.len() - k,
        {
            if self.table[k].0.same_as(item) {
                return Some(k);
            }
            k += 1;
        }
        None
    }
}

impl Default for RecipeBank {
    /// An empty bank.
    fn default() -> (r: RecipeBank)
        ensures
            r.wf(),
            r.recipes_view().len() == 0,
    {
        RecipeBank::new()
    }
}

} // verus!
