//! The editable form of a recipe.
use vstd::prelude::*;

use vstd::string::StringSliceAdditionalSpecFns;

use crate::recipes::{probabilities_valid, quantities_valid, Recipe};
use crate::ui::amount::{parse_small_number, small_number};
use crate::ui::Item;

verus! {

/// An item quantity: a positive integer.
#[derive(Debug, Clone, Copy, PartialEq, Eq)]
pub struct Quantity {
    n: u8,
}

impl View for Quantity {
    type V = u8;

    closed spec fn view(&self) -> u8 {
        self.n
    }
}

impl Quantity {
    #[verifier::type_invariant]
    spec fn inv(&self) -> bool {
        self.n >= 1
    }

    /// The quantity `n`, unless `n` is zero.
    pub fn new(n: u8) -> (r: Option<Quantity>)
        ensures
            r is None <==> n == 0,
            r matches Some(q) ==> q@ == n,
    {
        if n == 0 {
            None
        } else {
            Some(Quantity { n })
        }
    }

    /// The number, at least one.
    pub fn get(&self) -> (r: u8)
        ensures
            r == self@,
            r >= 1,
    {
        proof {
            use_type_invariant(self);
        }
        self.n
    }

    /// Consumes the quantity and returns its number.
    pub fn take(self) -> (r: u8)
        ensures
            r == self@,
            r >= 1,
    {
        self.get()
    }
}

/// Why a text is not a [`Quantity`].
#[derive(Debug, Clone, Copy, PartialEq, Eq)]
pub enum ParseQuantityError {
    /// The text is not a whole number in `0..=255`.
    Parse,
    /// The number is zero.
    Zero,
}

impl Quantity {
    /// Reads a quantity: a whole number in `1..=255`, optionally after `+`.
    pub fn parse(s: &str) -> (r: Result<Quantity, ParseQuantityError>)
        ensures
            match small_number(s.spec_bytes()) {
                None => r == Err::<Quantity, _>(ParseQuantityError::Parse),
                Some(n) => if n == 0 {
                    r == Err::<Quantity, _>(ParseQuantityError::Zero)
                } else {
                    r matches Ok(q) && q@ == n
                },
            },
    {
        match parse_small_number(s) {
            None => Err(ParseQuantityError::Parse),
            Some(n) => match Quantity::new(n) {
                Some(q) => Ok(q),
                None => Err(ParseQuantityError::Zero),
            },
        }
    }
}

impl Default for Quantity {
    /// One.
    fn default() -> (r: Quantity)
        ensures
            r@ == 1,
    {
        Quantity { n: 1 }
    }
}

/// A probability of success, as a whole percentage in `1..=100`.
#[derive(Debug, Clone, Copy, PartialEq, Eq)]
pub struct Probability {
    p: u8,
}

impl View for Probability {
    type V = u8;

    closed spec fn view(&self) -> u8 {
        self.p
    }
}

impl Probability {
    #[verifier::type_invariant]
    spec fn inv(&self) -> bool {
        1 <= self.p <= 100
    }

    /// The probability `p` percent, if `p` is in `1..=100`.
    pub fn new(p: u8) -> (r: Option<Probability>)
        ensures
            r is None <==> (p == 0 || p > 100),
            r matches Some(q) ==> q@ == p,
    {
        if p == 0 || p > 100 {
            None
        } else {
            Some(Probability { p })
        }
    }

    /// The percentage, in `1..=100`.
    pub fn percent(&self) -> (r: u8)
        ensures
            r == self@,
            1 <= r <= 100,
    {
        proof {
            use_type_invariant(self);
        }
        self.p
    }
}

/// Why a text is not a [`Probability`].
#[derive(Debug, Clone, Copy, PartialEq, Eq)]
pub enum ParseProbaError {
    /// The text is not a whole number in `0..=255`.
    Parse,
    /// The number is not a percentage in `1..=100`.
    Range,
}

impl Probability {
    /// Reads a probability: a whole percentage in `1..=100`, optionally after `+`.
    pub fn parse(s: &str) -> (r: Result<Probability, ParseProbaError>)
        ensures
            match small_number(s.spec_bytes()) {
                None => r == Err::<Probability, _>(ParseProbaError::Parse),
                Some(n) => if n == 0 || n > 100 {
                    r == Err::<Probability, _>(ParseProbaError::Range)
                } else {
                    r matches Ok(p) && p@ == n
                },
            },
    {
        match parse_small_number(s) {
            None => Err(ParseProbaError::Parse),
            Some(n) => match Probability::new(n) {
                Some(p) => Ok(p),
                None => Err(ParseProbaError::Range),
            },
        }
    }
}

impl Default for Probability {
    /// Certain success: one hundred percent.
    fn default() -> (r: Probability)
        ensures
            r@ == 100,
    {
        Probability { p: 100 }
    }
}

/// A recipe's lines by item name: `(name, quantity)` ingredients and
/// `(name, quantity, percent)` products.
pub type RecipeForm = (Seq<(Seq<char>, u8)>, Seq<(Seq<char>, u8, u8)>);

/// The lines of a finished recipe.
pub open spec fn recipe_form(r: Recipe<Item>) -> RecipeForm {
    (
        r@.0.map_values(|e: (Item, u8)| (e.0@, e.1)),
        r@.1.map_values(|e: (Item, u8, u8)| (e.0@, e.1, e.2)),
    )
}

/// The state of a recipe being edited.
#[derive(Debug)]
pub struct BuilderState {
    products: Vec<(Item, Quantity, Probability)>,
    ingredients: Vec<(Item, Quantity)>,
}

impl View for BuilderState {
    type V = RecipeForm;

    closed spec fn view(&self) -> RecipeForm {
        (
            self.ingredients@.map_values(|e: (Item, Quantity)| (e.0@, e.1@)),
            self.products@.map_values(|e: (Item, Quantity, Probability)| (e.0@, e.1@, e.2@)),
        )
    }
}

/// Edits that a [`BuilderState`] can perform.
///
/// An edit or a deletion at an index past the end of its list does nothing.
#[derive(Debug)]
pub enum BuilderAction {
    /// Adds a product with given item, quantity and probability.
    AddProduct(Item, Quantity, Probability),
    /// Adds an ingredient with given item and quantity.
    AddIngredient(Item, Quantity),
    /// Changes the item of the given product line.
    EditProdItem(usize, Item),
    /// Changes the quantity of the given product line.
    EditProdQty(usize, Quantity),
    /// Changes the probability of success of the given product line.
    EditProdProba(usize, Probability),
    /// Changes the item of the given ingredient line.
    EditIngrItem(usize, Item),
    /// Changes the quantity of the given ingredient line.
    EditIngrQty(usize, Quantity),
    /// Deletes the given product line.
    DelProd(usize),
    /// Deletes the given ingredient line.
    DelIngr(usize),
}

/// The lines after `action`.
pub open spec fn builder_step(s: RecipeForm, action: BuilderAction) -> RecipeForm {
    let (ing, prod) = s;
    match action {
        BuilderAction::AddProduct(item, q, p) => (ing, prod.push((item@, q@, p@))),
        BuilderAction::AddIngredient(item, q) => (ing.push((item@, q@)), prod),
        BuilderAction::EditProdItem(i, item) => if i < prod.len() {
            (ing, prod.update(i as int, (item@, prod[i as int].1, prod[i as int].2)))
        } else {
            s
        },
        BuilderAction::EditProdQty(i, q) => if i < prod.len() {
            (ing, prod.update(i as int, (prod[i as int].0, q@, prod[i as int].2)))
        } else {
            s
        },
        BuilderAction::EditProdProba(i, p) => if i < prod.len() {
            (ing, prod.update(i as int, (prod[i as int].0, prod[i as int].1, p@)))
        } else {
            s
        },
        BuilderAction::EditIngrItem(i, item) => if i < ing.len() {
            (ing.update(i as int, (item@, ing[i as int].1)), prod)
        } else {
            s
        },
        BuilderAction::EditIngrQty(i, q) => if i < ing.len() {
            (ing.update(i as int, (ing[i as int].0, q@)), prod)
        } else {
            s
        },
        BuilderAction::DelProd(i) => if i < prod.len() {
            (ing, prod.remove(i as int))
        } else {
            s
        },
        BuilderAction::DelIngr(i) => if i < ing.len() {
            (ing.remove(i as int), prod)
        } else {
            s
        },
    }
}

impl BuilderState {
    /// An empty recipe.
    pub fn new() -> (r: BuilderState)
        ensures
            r@.0.len() == 0,
            r@.1.len() == 0,
    {
        BuilderState { products: Vec::new(), ingredients: Vec::new() }
    }

    /// The editable form of a finished recipe, with the same lines.
    pub fn from_recipe(recipe: Recipe<Item>) -> (r: BuilderState)
        ensures
            r@ == recipe_form(recipe),
    {
        let ingredients = recipe.get_ingredients();
        let products = recipe.get_products();
        let ghost form = recipe_form(recipe);
        let mut ing: Vec<(Item, Quantity)> = Vec::new();
        let mut i: usize = 0;
        while i < ingredients.len()
            invariant
                0 <= i <= ingredients@.len(),
                ingredients@ == recipe@.0,
                quantities_valid(recipe@.0, recipe@.1),
                form == recipe_form(recipe),
                ing@.len() == i,
                ing@.map_values(|e: (Item, Quantity)| (e.0@, e.1@)) == form.0.take(i as int),
            decreases ingredients.len() - i,
        {
            let e = &ingredients[i];
            assert(recipe@.0[i as int].1 >= 1);
            let q = match Quantity::new(e.1) {
                Some(q) => q,
                None => Quantity::default(),
            };
            ing.push((e.0.duplicate(), q));
            assert(ing@.map_values(|e: (Item, Quantity)| (e.0@, e.1@)) =~= form.0.take(i + 1));
            i += 1;
        }
        let mut prod: Vec<(Item, Quantity, Probability)> = Vec::new();
        let mut j: usize = 0;
        while j < products.len()
            invariant
                0 <= j <= products@.len(),
                products@ == recipe@.1,
                quantities_valid(recipe@.0, recipe@.1),
                probabilities_valid(recipe@.1),
                form == recipe_form(recipe),
                prod@.len() == j,
                prod@.map_values(|e: (Item, Quantity, Probability)| (e.0@, e.1@, e.2@))
                    == form.1.take(j as int),
            decreases products.len() - j,
        {
            let e = &products[j];
            assert(recipe@.1[j as int].1 >= 1);
            assert(1 <= recipe@.1[j as int].2 <= 100);
            let q = match Quantity::new(e.1) {
                Some(q) => q,
                None => Quantity::default(),
            };
            let p = match Probability::new(e.2) {
                Some(p) => p,
                None => Probability::default(),
            };
            prod.push((e.0.duplicate(), q, p));
            assert(prod@.map_values(|e: (Item, Quantity, Probability)| (e.0@, e.1@, e.2@))
                =~= form.1.take(j + 1));
            j += 1;
        }
        assert(form.0.take(i as int) =~= form.0);
        assert(form.1.take(j as int) =~= form.1);
        BuilderState { products: prod, ingredients: ing }
    }

    /// The ingredient lines.
    pub fn ingredients(&self) -> (r: &Vec<(Item, Quantity)>)
        ensures
            r@.map_values(|e: (Item, Quantity)| (e.0@, e.1@)) == self@.0,
    {
        &self.ingredients
    }

    /// The product lines.
    pub fn products(&self) -> (r: &Vec<(Item, Quantity, Probability)>)
        ensures
            r@.map_values(|e: (Item, Quantity, Probability)| (e.0@, e.1@, e.2@)) == self@.1,
    {
        &self.products
    }

    /// Performs an edit.
    pub fn perform(&mut self, action: BuilderAction)
        ensures
            final(self)@ == builder_step(old(self)@, action),
    {
        let ghost a = action;
        match action {
            BuilderAction::AddProduct(item, q, p) => {
                self.products.push((item, q, p));
            },
            BuilderAction::AddIngredient(item, q) => {
                self.ingredients.push((item, q));
            },
            BuilderAction::EditProdItem(i, item) => {
                if i < self.products.len() {
                    let q = self.products[i].1;
                    let p = self.products[i].2;
                    self.products.set(i, (item, q, p));
                }
            },
            BuilderAction::EditProdQty(i, q) => {
                if i < self.products.len() {
                    let item = self.products[i].0.duplicate();
                    let p = self.products[i].2;
                    self.products.set(i, (item, q, p));
                }
            },
            BuilderAction::EditProdProba(i, p) => {
                if i < self.products.len() {
                    let item = self.products[i].0.duplicate();
                    let q = self.products[i].1;
                    self.products.set(i, (item, q, p));
                }
            },
            BuilderAction::EditIngrItem(i, item) => {
                if i < self.ingredients.len() {
                    let q = self.ingredients[i].1;
                    self.ingredients.set(i, (item, q));
                }
            },
            BuilderAction::EditIngrQty(i, q) => {
                if i < self.ingredients.len() {
                    let item = self.ingredients[i].0.duplicate();
                    self.ingredients.set(i, (item, q));
                }
            },
            BuilderAction::DelProd(i) => {
                if i < self.products.len() {
                    self.products.remove(i);
                }
            },
            BuilderAction::DelIngr(i) => {
                if i < self.ingredients.len() {
                    self.ingredients.remove(i);
                }
            },
        }
        assert(self@.0 =~= builder_step(old(self)@, a).0);
        assert(self@.1 =~= builder_step(old(self)@, a).1);
    }

    /// The finished recipe, with the same lines.
    pub fn build(self) -> (r: Recipe<Item>)
        ensures
            recipe_form(r) == self@,
    {
        let ghost form = self@;
        let mut ing: Vec<(Item, u8)> = Vec::new();
        let mut i: usize = 0;
        while i < self.ingredients.len()
            invariant
                0 <= i <= self.ingredients@.len(),
                form == self@,
                ing@.len() == i,
                forall|k: int| 0 <= k < i ==> #[trigger] ing@[k].1 >= 1,
                ing@.map_values(|e: (Item, u8)| (e.0@, e.1)) == form.0.take(i as int),
            decreases self.ingredients.len() - i,
        {
            let e = &self.ingredients[i];
            ing.push((e.0.duplicate(), e.1.get()));
            assert(ing@.map_values(|e: (Item, u8)| (e.0@, e.1)) =~= form.0.take(i + 1));
            i += 1;
        }
        assert(form.0.take(i as int) =~= form.0);
        let mut prod: Vec<(Item, u8, u8)> = Vec::new();
        let mut j: usize = 0;
        while j < self.products.len()
            invariant
                0 <= j <= self.products@.len(),
                form == self@,
                prod@.len() == j,
                forall|k: int| 0 <= k < j ==> #[trigger] prod@[k].1 >= 1,
                probabilities_valid(prod@),
                prod@.map_values(|e: (Item, u8, u8)| (e.0@, e.1, e.2)) == form.1.take(j as int),
            decreases self.products.len() - j,
        {
            let e = &self.products[j];
            prod.push((e.0.duplicate(), e.1.get(), e.2.percent()));
            assert(prod@.map_values(|e: (Item, u8, u8)| (e.0@, e.1, e.2)) =~= form.1.take(j + 1));
            j += 1;
        }
        assert(form.1.take(j as int) =~= form.1);
        let ghost ing_v = ing@;
        let ghost prod_v = prod@;
        match Recipe::new(ing, prod) {
            Ok(r) => r,
            Err(_) => {
                assert(quantities_valid(ing_v, prod_v));
                assert(false);
                Recipe::new(Vec::new(), Vec::new()).unwrap()
            },
        }
    }
}

} // verus!
