//! Everything about [`Recipe`]s.
use vstd::prelude::*;

verus! {

/// Every quantity, of an ingredient or of a product, is at least one.
pub open spec fn quantities_valid<T>(ingredients: Seq<(T, u8)>, products: Seq<(T, u8, u8)>) -> bool {
    &&& forall|i: int| 0 <= i < ingredients.len() ==> #[trigger] ingredients[i].1 >= 1
    &&& forall|j: int| 0 <= j < products.len() ==> #[trigger] products[j].1 >= 1
}

/// Every success probability is a percentage in `1..=100`.
pub open spec fn probabilities_valid<T>(products: Seq<(T, u8, u8)>) -> bool {
    forall|j: int| 0 <= j < products.len() ==> 1 <= #[trigger] products[j].2 <= 100
}

/// A recipe: ingredients consumed, products made.
///
/// Ingredients are `(item, quantity)`; products are `(item, quantity, percent)`,
/// where `percent` is the probability of success in hundredths. Quantities are at
/// least one and percentages lie in `1..=100`; a recipe never holds anything else.
#[derive(Debug)]
pub struct Recipe<T> {
    ingredients: Vec<(T, u8)>,
    products: Vec<(T, u8, u8)>,
}

/// Why a list of ingredients and products is not a recipe.
#[derive(Debug, Clone, Copy, PartialEq, Eq)]
pub enum RecipeError {
    /// An ingredient or a product has quantity zero.
    ZeroQuantity,
    /// A product's success probability is not in `1..=100` percent.
    ProbabilityOutOfRange,
}

impl<T> View for Recipe<T> {
    type V = (Seq<(T, u8)>, Seq<(T, u8, u8)>);

    closed spec fn view(&self) -> (Seq<(T, u8)>, Seq<(T, u8, u8)>) {
        (self.ingredients@, self.products@)
    }
}

impl<T> Recipe<T> {
    #[verifier::type_invariant]
    spec fn inv(&self) -> bool {
        quantities_valid(self.ingredients@, self.products@) && probabilities_valid(self.products@)
    }

    /// Creates a recipe from `(ingredient, quantity)` and `(product, quantity, percent)`
    /// lists.
    ///
    /// A zero quantity anywhere is rejected first; then a percentage outside `1..=100`.
    pub fn new(ingredients: Vec<(T, u8)>, products: Vec<(T, u8, u8)>) -> (r: Result<
        Recipe<T>,
        RecipeError,
    >)
        ensures
            r is Ok <==> quantities_valid(ingredients@, products@) && probabilities_valid(
                products@,
            ),
            r matches Ok(rec) ==> rec@ == (ingredients@, products@),
            r matches Err(e) ==> (e == RecipeError::ZeroQuantity <==> !quantities_valid(
                ingredients@,
                products@,
            )),
    {
        let mut i: usize = 0;
        while i < ingredients.len()
            invariant
                0 <= i <= ingredients.len(),
                forall|k: int| 0 <= k < i ==> #[trigger] ingredients@[k].1 >= 1,
            decreases ingredients.len() - i,
        {
            if ingredients[i].1 == 0 {
                return Err(RecipeError::ZeroQuantity);
            }
            i += 1;
        }
        let mut j: usize = 0;
        while j < products.len()
            invariant
                0 <= j <= products.len(),
                forall|k: int| 0 <= k < j ==> #[trigger] products@[k].1 >= 1,
            decreases products.len() - j,
        {
            if products[j].1 == 0 {
                return Err(RecipeError::ZeroQuantity);
            }
            j += 1;
        }
        let mut j: usize = 0;
        while j < products.len()
            invariant
                0 <= j <= products.len(),
                quantities_valid(ingredients@, products@),
                forall|k: int| 0 <= k < j ==> 1 <= #[trigger] products@[k].2 <= 100,
            decreases products.len() - j,
        {
            let p = products[j].2;
            if p == 0 || p > 100 {
                return Err(RecipeError::ProbabilityOutOfRange);
            }
            j += 1;
        }
        Ok(Recipe { ingredients, products })
    }

    /// Retrieves the ingredients of the recipe.
    pub fn get_ingredients(&self) -> (r: &Vec<(T, u8)>)
        ensures
            r@ == self@.0,
            quantities_valid(self@.0, self@.1),
    {
        proof {
            use_type_invariant(self);
        }
        &self.ingredients
    }

    /// Retrieves the products of the recipe.
    pub fn get_products(&self) -> (r: &Vec<(T, u8, u8)>)
        ensures
            r@ == self@.1,
            quantities_valid(self@.0, self@.1),
            probabilities_valid(self@.1),
    {
        proof {
            use_type_invariant(self);
        }
        &self.products
    }

    /// Deconstructs the recipe into its ingredients and its products.
    pub fn take(self) -> (r: (Vec<(T, u8)>, Vec<(T, u8, u8)>))
        ensures
            r.0@ == self@.0,
            r.1@ == self@.1,
            quantities_valid(r.0@, r.1@),
            probabilities_valid(r.1@),
    {
        proof {
            use_type_invariant(&self);
        }
        (self.ingredients, self.products)
    }
}

} // verus!
