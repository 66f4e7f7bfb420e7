//! Compiles the recipe collection and the item ledger into a linear program.
//!
//! Every recipe `i` has a usage variable `x_i >= 0`. For every known item the
//! model holds two linear expressions over those variables, what is produced and
//! what is consumed, with coefficients in hundredths of a unit: a product entry
//! `(item, q, p%)` adds `q * p` to the item's produced coefficient (its expected
//! yield), an ingredient entry `(item, q)` adds `q * 100` to its consumed one.
//! Each item then gives, target first:
//! - with a target `t`: the constraint `produced - consumed >= t`;
//! - else with a raw cost `c`: the term `-c * (produced - consumed)` of the cost
//!   to minimise;
//! - else: the constraint `produced - consumed >= 0`.
use vstd::prelude::*;

use crate::ledger::{
    contains_name, reference_names, EntryView, ItemLedger,
};
use crate::recipes::Recipe;
use crate::ui::recipe::EditableContent;
use crate::ui::{Item, TargetAmount};

verus! {

/// Expected yield of `products` for `name`, in hundredths: the sum of
/// `quantity * percent` over the entries that name it.
pub open spec fn produced_coef(products: Seq<(Item, u8, u8)>, name: Seq<char>) -> int
    decreases products.len(),
{
    if products.len() == 0 {
        0
    } else {
        let e = products.last();
        produced_coef(products.drop_last(), name) + if e.0@ == name {
            e.1 as int * e.2 as int
        } else {
            0
        }
    }
}

/// Consumption of `ingredients` for `name`, in hundredths: the sum of
/// `quantity * 100` over the entries that name it.
pub open spec fn consumed_coef(ingredients: Seq<(Item, u8)>, name: Seq<char>) -> int
    decreases ingredients.len(),
{
    if ingredients.len() == 0 {
        0
    } else {
        let e = ingredients.last();
        consumed_coef(ingredients.drop_last(), name) + if e.0@ == name {
            e.1 as int * 100
        } else {
            0
        }
    }
}

/// Every slot holds a finished recipe.
pub open spec fn all_built(slots: Seq<EditableContent>) -> bool {
    forall|i: int| 0 <= i < slots.len() ==> #[trigger] slots[i] is Built
}

/// The recipes of finished slots, by index.
pub open spec fn built_recipes(slots: Seq<EditableContent>) -> Seq<Recipe<Item>> {
    slots.map_values(|s: EditableContent| s->Built_0)
}

/// Reference `j` of recipe `i` names an item that the ledger lacks.
pub open spec fn missing_at(
    recipes: Seq<Recipe<Item>>,
    ledger: Seq<EntryView>,
    i: int,
    j: int,
) -> bool {
    &&& 0 <= i < recipes.len()
    &&& 0 <= j < reference_names(recipes[i]).len()
    &&& !contains_name(ledger, reference_names(recipes[i])[j])
}

/// Every item that a recipe references is in the ledger.
pub open spec fn all_present(recipes: Seq<Recipe<Item>>, ledger: Seq<EntryView>) -> bool {
    forall|i: int, j: int| !#[trigger] missing_at(recipes, ledger, i, j)
}

/// `(i, j)` is the first missing reference, recipes in order and, within a
/// recipe, ingredients before products.
pub open spec fn first_missing_at(
    recipes: Seq<Recipe<Item>>,
    ledger: Seq<EntryView>,
    i: int,
    j: int,
) -> bool {
    &&& missing_at(recipes, ledger, i, j)
    &&& forall|i2: int, j2: int|
        (i2 < i || (i2 == i && j2 < j)) ==> !#[trigger] missing_at(recipes, ledger, i2, j2)
}

/// The produced and consumed expressions of one item.
#[derive(Debug)]
pub struct ItemExpressions {
    /// The item.
    pub item: Item,
    /// Coefficient of each recipe's usage in the item's production, in hundredths.
    pub produced: Vec<u128>,
    /// Coefficient of each recipe's usage in the item's consumption, in hundredths.
    pub consumed: Vec<u128>,
}

/// A constraint `produced - consumed >= lower_bound` on one item.
#[derive(Debug)]
pub struct Constraint {
    /// The item's name, to tell which constraint fails.
    pub name: String,
    /// Index of the item in the ledger and in [`LinearProgram::items`].
    pub item_index: usize,
    /// The least net production.
    pub lower_bound: TargetAmount,
}

/// A term `-unit_cost * (produced - consumed)` of the cost to minimise.
#[derive(Debug, Clone, Copy, PartialEq, Eq)]
pub struct CostTerm {
    /// Index of the item in the ledger and in [`LinearProgram::items`].
    pub item_index: usize,
    /// What one unit of the item costs.
    pub unit_cost: TargetAmount,
}

/// A linear program over one non-negative usage variable per recipe: minimise the
/// sum of `cost_terms` subject to `constraints`.
#[derive(Debug)]
pub struct LinearProgram {
    /// Number of variables, one per recipe of the collection, by index.
    pub n_vars: usize,
    /// One entry per ledger entry, in ledger order.
    pub items: Vec<ItemExpressions>,
    /// The constraints, in ledger order.
    pub constraints: Vec<Constraint>,
    /// The terms of the cost, in ledger order.
    pub cost_terms: Vec<CostTerm>,
}

/// Why no plan could be made.
#[derive(Debug, Clone, PartialEq, Eq)]
pub enum OptimizationError {
    /// A recipe of the collection is still being edited.
    NotReady,
    /// A recipe references an item that the ledger lacks; this names it.
    MissingItem(String),
    /// The solver stopped without a confirmed optimum; this gives its status.
    NotOptimal(String),
    /// The solver could not run; this is its message.
    SolverFailure(String),
}

/// The mathematical content of a [`Constraint`].
pub struct ConstraintView {
    pub name: Seq<char>,
    pub item_index: int,
    pub lower_bound: TargetAmount,
}

impl View for Constraint {
    type V = ConstraintView;

    open spec fn view(&self) -> ConstraintView {
        ConstraintView {
            name: self.name@,
            item_index: self.item_index as int,
            lower_bound: self.lower_bound,
        }
    }
}

/// The constraints that the ledger's entries ask for, in ledger order.
pub open spec fn spec_constraints(ledger: Seq<EntryView>) -> Seq<ConstraintView>
    decreases ledger.len(),
{
    if ledger.len() == 0 {
        Seq::empty()
    } else {
        let k = ledger.len() - 1;
        let e = ledger[k];
        let before = spec_constraints(ledger.drop_last());
        match e.target {
            Some(t) => before.push(ConstraintView { name: e.name, item_index: k, lower_bound: t }),
            None => if e.raw_cost is None {
                before.push(
                    ConstraintView {
                        name: e.name,
                        item_index: k,
                        lower_bound: TargetAmount { numer: 0, denom: 1 },
                    },
                )
            } else {
                before
            },
        }
    }
}

/// The cost terms that the ledger's entries ask for, in ledger order.
pub open spec fn spec_cost_terms(ledger: Seq<EntryView>) -> Seq<CostTerm>
    decreases ledger.len(),
{
    if ledger.len() == 0 {
        Seq::empty()
    } else {
        let k = ledger.len() - 1;
        let e = ledger[k];
        let before = spec_cost_terms(ledger.drop_last());
        match (e.target, e.raw_cost) {
            (None, Some(c)) => before.push(CostTerm { item_index: k as usize, unit_cost: c }),
            _ => before,
        }
    }
}

/// `e` holds the expressions of the item `name` over `recipes`.
pub open spec fn expressions_for(
    e: ItemExpressions,
    recipes: Seq<Recipe<Item>>,
    name: Seq<char>,
) -> bool {
    &&& e.item@ == name
    &&& e.produced@.len() == recipes.len()
    &&& e.consumed@.len() == recipes.len()
    &&& forall|i: int|
        0 <= i < recipes.len() ==> #[trigger] e.produced@[i] == produced_coef(recipes[i]@.1, name)
    &&& forall|i: int|
        0 <= i < recipes.len() ==> #[trigger] e.consumed@[i] == consumed_coef(recipes[i]@.0, name)
}

/// `lp` is the model of `recipes` and `ledger`.
pub open spec fn model_matches(
    lp: LinearProgram,
    recipes: Seq<Recipe<Item>>,
    ledger: Seq<EntryView>,
) -> bool {
    &&& lp.n_vars == recipes.len()
    &&& lp.items@.len() == ledger.len()
    &&& forall|k: int|
        0 <= k < ledger.len() ==> expressions_for(#[trigger] lp.items@[k], recipes, ledger[k].name)
    &&& lp.constraints@.map_values(|c: Constraint| c@) == spec_constraints(ledger)
    &&& lp.cost_terms@ == spec_cost_terms(ledger)
}

/// The mathematical content of a [`LinearProgram`]: the number of variables, each
/// item's name with its produced and consumed coefficients, the constraints and
/// the cost terms.
pub struct ModelView {
    pub n_vars: nat,
    pub items: Seq<(Seq<char>, Seq<u128>, Seq<u128>)>,
    pub constraints: Seq<ConstraintView>,
    pub cost_terms: Seq<CostTerm>,
}

impl View for LinearProgram {
    type V = ModelView;

    open spec fn view(&self) -> ModelView {
        ModelView {
            n_vars: self.n_vars as nat,
            items: self.items@.map_values(
                |e: ItemExpressions| (e.item@, e.produced@, e.consumed@),
            ),
            constraints: self.constraints@.map_values(|c: Constraint| c@),
            cost_terms: self.cost_terms@,
        }
    }
}

/// `sum(coefs[i] * n[i])` over the first `m` indices: an expression evaluated at
/// the usage numerators `n`.
pub open spec fn eval_upto(coefs: Seq<u128>, n: Seq<int>, m: nat) -> int
    decreases m,
{
    if m == 0 {
        0
    } else {
        eval_upto(coefs, n, (m - 1) as nat) + coefs[m - 1] as int * n[m - 1]
    }
}

/// The produced total of item `k` at the usage numerators `n`, in hundredths.
pub open spec fn projected_produced(lp: LinearProgram, k: int, n: Seq<int>) -> int {
    eval_upto(lp.items@[k].produced@, n, lp.n_vars as nat)
}

/// The consumed total of item `k` at the usage numerators `n`, in hundredths.
pub open spec fn projected_consumed(lp: LinearProgram, k: int, n: Seq<int>) -> int {
    eval_upto(lp.items@[k].consumed@, n, lp.n_vars as nat)
}

/// A net production of `net` hundredths of a unit per `d` runs is at least
/// `bound`: `net / (100 * d) >= bound.numer / bound.denom`.
pub open spec fn meets(net: int, d: int, bound: TargetAmount) -> bool {
    net * bound.denom >= 100 * d * bound.numer
}

/// The usage `x[i] = n[i] / d` is a feasible point of `lp`: non-negative, and
/// meeting every constraint.
pub open spec fn satisfies(lp: LinearProgram, n: Seq<int>, d: int) -> bool {
    &&& d > 0
    &&& n.len() == lp.n_vars
    &&& forall|i: int| 0 <= i < n.len() ==> #[trigger] n[i] >= 0
    &&& forall|c: int|
        0 <= c < lp.constraints@.len() ==> meets(
            projected_produced(lp, #[trigger] lp.constraints@[c].item_index as int, n)
                - projected_consumed(lp, lp.constraints@[c].item_index as int, n),
            d,
            lp.constraints@[c].lower_bound,
        )
}

/// What the first `m` recipes produce of `name` at the usage numerators `n`, in
/// hundredths.
pub open spec fn produced_upto(recipes: Seq<Recipe<Item>>, name: Seq<char>, n: Seq<int>, m: nat) -> int
    decreases m,
{
    if m == 0 {
        0
    } else {
        produced_upto(recipes, name, n, (m - 1) as nat) + produced_coef(recipes[m - 1]@.1, name)
            * n[m - 1]
    }
}

/// What the first `m` recipes consume of `name` at the usage numerators `n`, in
/// hundredths.
pub open spec fn consumed_upto(recipes: Seq<Recipe<Item>>, name: Seq<char>, n: Seq<int>, m: nat) -> int
    decreases m,
{
    if m == 0 {
        0
    } else {
        consumed_upto(recipes, name, n, (m - 1) as nat) + consumed_coef(recipes[m - 1]@.0, name)
            * n[m - 1]
    }
}

proof fn lemma_eval_matches(e: ItemExpressions, recipes: Seq<Recipe<Item>>, name: Seq<char>, n: Seq<int>, m: nat)
    requires
        expressions_for(e, recipes, name),
        m <= recipes.len(),
    ensures
        eval_upto(e.produced@, n, m) == produced_upto(recipes, name, n, m),
        eval_upto(e.consumed@, n, m) == consumed_upto(recipes, name, n, m),
    decreases m,
{
    if m > 0 {
        lemma_eval_matches(e, recipes, name, n, (m - 1) as nat);
        assert(e.produced@[m - 1] == produced_coef(recipes[m - 1]@.1, name));
    }
}

/// Each entry of the ledger with a target, or with no annotation at all, has its
/// constraint among the ledger's constraints.
proof fn lemma_constraint_present(ledger: Seq<EntryView>, k: int)
    requires
        0 <= k < ledger.len(),
        ledger[k].target is Some || ledger[k].raw_cost is None,
    ensures
        exists|c: int|
            0 <= c < spec_constraints(ledger).len() && #[trigger] spec_constraints(ledger)[c]
                == (ConstraintView {
                name: ledger[k].name,
                item_index: k,
                lower_bound: match ledger[k].target {
                    Some(t) => t,
                    None => TargetAmount { numer: 0, denom: 1 },
                },
            }),
    decreases ledger.len(),
{
    let m = ledger.len() - 1;
    let all = spec_constraints(ledger);
    let before = spec_constraints(ledger.drop_last());
    if k == m {
        assert(all[all.len() - 1] == all.last());
    } else {
        lemma_constraint_present(ledger.drop_last(), k);
        let c = choose|c: int|
            0 <= c < before.len() && #[trigger] before[c] == (ConstraintView {
                name: ledger.drop_last()[k].name,
                item_index: k,
                lower_bound: match ledger.drop_last()[k].target {
                    Some(t) => t,
                    None => TargetAmount { numer: 0, denom: 1 },
                },
            });
        assert(all[c] == before[c]);
    }
}

/// Every target is met: at any feasible point of the compiled model, each item
/// with a target `t` has a net production, produced minus consumed, of at least
/// `t`. The totals that the model's expressions give there are the ones that the
/// recipes give.
pub proof fn lemma_targets_met(
    lp: LinearProgram,
    recipes: Seq<Recipe<Item>>,
    ledger: Seq<EntryView>,
    n: Seq<int>,
    d: int,
    k: int,
)
    requires
        model_matches(lp, recipes, ledger),
        satisfies(lp, n, d),
        0 <= k < ledger.len(),
        ledger[k].target is Some,
    ensures
        projected_produced(lp, k, n) == produced_upto(recipes, ledger[k].name, n, recipes.len()),
        projected_consumed(lp, k, n) == consumed_upto(recipes, ledger[k].name, n, recipes.len()),
        meets(
            projected_produced(lp, k, n) - projected_consumed(lp, k, n),
            d,
            ledger[k].target->Some_0,
        ),
{
    lemma_feasible_net(lp, recipes, ledger, n, d, k);
}

/// Items with neither a target nor a raw cost are never depleted: at any feasible
/// point of the compiled model their net production, produced minus consumed, is
/// at least zero.
pub proof fn lemma_free_items_balanced(
    lp: LinearProgram,
    recipes: Seq<Recipe<Item>>,
    ledger: Seq<EntryView>,
    n: Seq<int>,
    d: int,
    k: int,
)
    requires
        model_matches(lp, recipes, ledger),
        satisfies(lp, n, d),
        0 <= k < ledger.len(),
        ledger[k].target is None,
        ledger[k].raw_cost is None,
    ensures
        projected_produced(lp, k, n) == produced_upto(recipes, ledger[k].name, n, recipes.len()),
        projected_consumed(lp, k, n) == consumed_upto(recipes, ledger[k].name, n, recipes.len()),
        projected_produced(lp, k, n) - projected_consumed(lp, k, n) >= 0,
{
    lemma_feasible_net(lp, recipes, ledger, n, d, k);
    let net = projected_produced(lp, k, n) - projected_consumed(lp, k, n);
    assert(net * 1 >= 100 * d * 0);
}

proof fn lemma_feasible_net(
    lp: LinearProgram,
    recipes: Seq<Recipe<Item>>,
    ledger: Seq<EntryView>,
    n: Seq<int>,
    d: int,
    k: int,
)
    requires
        model_matches(lp, recipes, ledger),
        satisfies(lp, n, d),
        0 <= k < ledger.len(),
        ledger[k].target is Some || ledger[k].raw_cost is None,
    ensures
        projected_produced(lp, k, n) == produced_upto(recipes, ledger[k].name, n, recipes.len()),
        projected_consumed(lp, k, n) == consumed_upto(recipes, ledger[k].name, n, recipes.len()),
        meets(
            projected_produced(lp, k, n) - projected_consumed(lp, k, n),
            d,
            match ledger[k].target {
                Some(t) => t,
                None => TargetAmount { numer: 0, denom: 1 },
            },
        ),
{
    assert(expressions_for(lp.items@[k], recipes, ledger[k].name));
    lemma_eval_matches(lp.items@[k], recipes, ledger[k].name, n, recipes.len());
    lemma_constraint_present(ledger, k);
    let views = lp.constraints@.map_values(|c: Constraint| c@);
    let c = choose|c: int|
        0 <= c < spec_constraints(ledger).len() && #[trigger] spec_constraints(ledger)[c]
            == (ConstraintView {
            name: ledger[k].name,
            item_index: k,
            lower_bound: match ledger[k].target {
                Some(t) => t,
                None => TargetAmount { numer: 0, denom: 1 },
            },
        });
    assert(views[c] == lp.constraints@[c]@);
    assert(lp.constraints@[c].item_index as int == k);
}

/// The compiled model is a function of its inputs: two models of the same recipes
/// and ledger are equal, so compiling twice without a change in between gives the
/// same program.
pub proof fn lemma_model_unique(
    a: LinearProgram,
    b: LinearProgram,
    recipes: Seq<Recipe<Item>>,
    ledger: Seq<EntryView>,
)
    requires
        model_matches(a, recipes, ledger),
        model_matches(b, recipes, ledger),
    ensures
        a@ == b@,
{
    assert forall|k: int| 0 <= k < ledger.len() implies #[trigger] a@.items[k] == b@.items[k] by {
        let ea = a.items@[k];
        let eb = b.items@[k];
        assert(expressions_for(ea, recipes, ledger[k].name));
        assert(expressions_for(eb, recipes, ledger[k].name));
        assert(ea.produced@ =~= eb.produced@);
        assert(ea.consumed@ =~= eb.consumed@);
    }
    assert(a@.items =~= b@.items);
}

/// A produced coefficient grows by at most `255 * 255` per entry.
proof fn lemma_produced_coef_bound(products: Seq<(Item, u8, u8)>, name: Seq<char>)
    ensures
        0 <= produced_coef(products, name) <= 65025 * products.len(),
    decreases products.len(),
{
    if products.len() > 0 {
        lemma_produced_coef_bound(products.drop_last(), name);
        let e = products.last();
        assert(e.1 as int * e.2 as int <= 65025) by (nonlinear_arith)
            requires
                e.1 <= 255,
                e.2 <= 255,
        ;
        assert(e.1 as int * e.2 as int >= 0) by (nonlinear_arith)
            requires
                e.1 >= 0,
                e.2 >= 0,
        ;
    }
}

/// The produced coefficient of `products` for `name`.
fn produced_coefficient(products: &Vec<(Item, u8, u8)>, name: &Item) -> (r: u128)
    ensures
        r == produced_coef(products@, name@),
{
    let mut acc: u128 = 0;
    let mut j: usize = 0;
    while j < products.len()
        invariant
            0 <= j <= products@.len(),
            acc == produced_coef(products@.take(j as int), name@),
        decreases products.len() - j,
    {
        proof {
            assert(products@.take(j + 1).drop_last() =~= products@.take(j as int));
            lemma_produced_coef_bound(products@.take(j + 1), name@);
            assert(65025 * (j + 1) <= 65025 * 0x1_0000_0000_0000_0000) by (nonlinear_arith)
                requires
                    j + 1 <= 0x1_0000_0000_0000_0000,
            ;
        }
        let e = &products[j];
        if e.0.same_as(name) {
            acc = acc + (e.1 as u128) * (e.2 as u128);
        }
        j += 1;
    }
    assert(products@.take(j as int) =~= products@);
    acc
}

/// A consumed coefficient grows by at most `255 * 100` per entry.
proof fn lemma_consumed_coef_bound(ingredients: Seq<(Item, u8)>, name: Seq<char>)
    ensures
        0 <= consumed_coef(ingredients, name) <= 25500 * ingredients.len(),
    decreases ingredients.len(),
{
    if ingredients.len() > 0 {
        lemma_consumed_coef_bound(ingredients.drop_last(), name);
    }
}

/// The consumed coefficient of `ingredients` for `name`.
fn consumed_coefficient(ingredients: &Vec<(Item, u8)>, name: &Item) -> (r: u128)
    ensures
        r == consumed_coef(ingredients@, name@),
{
    let mut acc: u128 = 0;
    let mut j: usize = 0;
    while j < ingredients.len()
        invariant
            0 <= j <= ingredients@.len(),
            acc == consumed_coef(ingredients@.take(j as int), name@),
        decreases ingredients.len() - j,
    {
        proof {
            assert(ingredients@.take(j + 1).drop_last() =~= ingredients@.take(j as int));
            lemma_consumed_coef_bound(ingredients@.take(j + 1), name@);
        }
        let e = &ingredients[j];
        if e.0.same_as(name) {
            acc = acc + (e.1 as u128) * 100;
        }
        j += 1;
    }
    assert(ingredients@.take(j as int) =~= ingredients@);
    acc
}

/// What compiling `recipes` with `ledger` gives: [`OptimizationError::NotReady`]
/// exactly when some slot is still being edited; otherwise
/// [`OptimizationError::MissingItem`] exactly when some recipe references an item
/// that the ledger lacks, naming the first such reference (recipes in order,
/// ingredients before products); otherwise the model of the recipes and the
/// ledger.
pub open spec fn compile_outcome(
    recipes: Seq<EditableContent>,
    ledger: Seq<EntryView>,
    r: Result<LinearProgram, OptimizationError>,
) -> bool {
    let built = built_recipes(recipes);
    &&& (!all_built(recipes) <==> (r matches Err(OptimizationError::NotReady)))
    &&& (all_built(recipes) && !all_present(built, ledger) <==> (r matches Err(
        OptimizationError::MissingItem(_),
    )))
    &&& (r matches Err(OptimizationError::MissingItem(name)) ==> exists|i: int, j: int|
        first_missing_at(built, ledger, i, j) && name@ == reference_names(built[i])[j])
    &&& (r is Ok <==> all_built(recipes) && all_present(built, ledger))
    &&& (r matches Ok(lp) ==> model_matches(lp, built, ledger))
}

/// The first item that `recipe` references and `ledger` lacks, ingredients
/// before products.
fn first_missing_reference<'a>(recipe: &'a Recipe<Item>, ledger: &ItemLedger) -> (r: Option<
    &'a Item,
>)
    ensures
        r matches Some(item) ==> exists|j: int|
            0 <= j < reference_names(*recipe).len() && item@ == reference_names(*recipe)[j]
                && !contains_name(ledger@, reference_names(*recipe)[j]) && forall|j2: int|
                0 <= j2 < j ==> contains_name(ledger@, #[trigger] reference_names(*recipe)[j2]),
        r is None ==> forall|j: int|
            0 <= j < reference_names(*recipe).len() ==> contains_name(
                ledger@,
                #[trigger] reference_names(*recipe)[j],
            ),
{
    let ingredients = recipe.get_ingredients();
    let products = recipe.get_products();
    let ghost refs = reference_names(*recipe);
    let ghost n_ing = ingredients@.len();
    assert(refs.len() == ingredients@.len() + products@.len());
    assert(forall|j: int| 0 <= j < n_ing ==> #[trigger] refs[j] == ingredients@[j].0@);
    assert(forall|j: int|
        0 <= j < products@.len() ==> #[trigger] refs[n_ing + j] == products@[j].0@);
    let mut j: usize = 0;
    while j < ingredients.len()
        invariant
            0 <= j <= ingredients@.len(),
            refs == reference_names(*recipe),
            n_ing == ingredients@.len(),
            refs.len() == n_ing + products@.len(),
            forall|j: int| 0 <= j < n_ing ==> #[trigger] refs[j] == ingredients@[j].0@,
            forall|j2: int| 0 <= j2 < j ==> contains_name(ledger@, #[trigger] refs[j2]),
        decreases ingredients.len() - j,
    {
        let item = &ingredients[j].0;
        if ledger.find(item).is_none() {
            assert(refs[j as int] == item@);
            return Some(item);
        }
        j += 1;
    }
    let mut j: usize = 0;
    while j < products.len()
        invariant
            0 <= j <= products@.len(),
            refs == reference_names(*recipe),
            n_ing == ingredients@.len(),
            refs.len() == n_ing + products@.len(),
            forall|j: int| 0 <= j < products@.len() ==> #[trigger] refs[n_ing + j] == products@[j].0@,
            forall|j2: int| 0 <= j2 < n_ing + j ==> contains_name(ledger@, #[trigger] refs[j2]),
        decreases products.len() - j,
    {
        let item = &products[j].0;
        if ledger.find(item).is_none() {
            assert(refs[n_ing + j] == item@);
            return Some(item);
        }
        proof {
            assert(refs[n_ing + j] == item@);
        }
        j += 1;
    }
    None
}

/// Builds the linear program of a recipe collection and an item ledger.
///
/// Fails with [`OptimizationError::NotReady`] if any slot is still being edited,
/// before anything else is looked at; then with
/// [`OptimizationError::MissingItem`], naming the first item (recipes in order,
/// ingredients before products) that a recipe references and the ledger lacks.
pub fn compile(recipes: &Vec<EditableContent>, ledger: &ItemLedger) -> (r: Result<
    LinearProgram,
    OptimizationError,
>)
    ensures
        compile_outcome(recipes@, ledger@, r),
{
    let ghost built = built_recipes(recipes@);
    let n = recipes.len();
    let mut i: usize = 0;
    while i < n
        invariant
            0 <= i <= n,
            n == recipes@.len(),
            forall|i2: int| 0 <= i2 < i ==> #[trigger] recipes@[i2] is Built,
        decreases n - i,
    {
        if let EditableContent::Builder(_) = &recipes[i] {
            return Err(OptimizationError::NotReady);
        }
        i += 1;
    }
    let mut i: usize = 0;
    while i < n
        invariant
            0 <= i <= n,
            n == recipes@.len(),
            all_built(recipes@),
            built == built_recipes(recipes@),
            forall|i2: int, j2: int| 0 <= i2 < i ==> !#[trigger] missing_at(built, ledger@, i2, j2),
        decreases n - i,
    {
        match &recipes[i] {
            EditableContent::Built(recipe) => {
                assert(built[i as int] == *recipe);
                if let Some(item) = first_missing_reference(recipe, ledger) {
                    let name = item.get_name().clone();
                    proof {
                        let j = choose|j: int|
                            0 <= j < reference_names(*recipe).len() && item@ == reference_names(
                                *recipe,
                            )[j] && !contains_name(ledger@, reference_names(*recipe)[j])
                                && forall|j2: int|
                                0 <= j2 < j ==> contains_name(
                                    ledger@,
                                    #[trigger] reference_names(*recipe)[j2],
                                );
                        assert(missing_at(built, ledger@, i as int, j));
                        assert forall|i2: int, j2: int|
                            (i2 < i || (i2 == i && j2 < j)) implies !#[trigger] missing_at(
                            built,
                            ledger@,
                            i2,
                            j2,
                        ) by {
                            if i2 == i && 0 <= j2 {
                                assert(contains_name(ledger@, reference_names(*recipe)[j2]));
                            }
                        }
                        assert(first_missing_at(built, ledger@, i as int, j));
                    }
                    return Err(OptimizationError::MissingItem(name));
                }
                assert forall|j2: int| !#[trigger] missing_at(built, ledger@, i as int, j2) by {
                    if 0 <= j2 < reference_names(*recipe).len() {
                        assert(contains_name(ledger@, reference_names(*recipe)[j2]));
                    }
                }
            },
            EditableContent::Builder(_) => {
                assert(recipes@[i as int] is Built);
            },
        }
        i += 1;
    }
    assert(all_present(built, ledger@));
    let entries = ledger.entries();
    let ghost l = ledger@;
    assert(forall|k: int| 0 <= k < entries@.len() ==> #[trigger] entries@[k]@ == l[k]);
    let mut items: Vec<ItemExpressions> = Vec::new();
    let mut k: usize = 0;
    while k < entries.len()
        invariant
            0 <= k <= entries@.len(),
            entries@.len() == l.len(),
            l == ledger@,
            n == recipes@.len(),
            all_built(recipes@),
            built == built_recipes(recipes@),
            forall|k: int| 0 <= k < entries@.len() ==> #[trigger] entries@[k]@ == l[k],
            items@.len() == k,
            forall|k2: int| 0 <= k2 < k ==> expressions_for(#[trigger] items@[k2], built, l[k2].name),
        decreases entries.len() - k,
    {
        let name = &entries[k].item;
        let mut produced: Vec<u128> = Vec::new();
        let mut consumed: Vec<u128> = Vec::new();
        let mut i: usize = 0;
        while i < n
            invariant
                0 <= i <= n,
                n == recipes@.len(),
                all_built(recipes@),
                built == built_recipes(recipes@),
                produced@.len() == i,
                consumed@.len() == i,
                forall|i2: int|
                    0 <= i2 < i ==> #[trigger] produced@[i2] == produced_coef(built[i2]@.1, name@),
                forall|i2: int|
                    0 <= i2 < i ==> #[trigger] consumed@[i2] == consumed_coef(built[i2]@.0, name@),
            decreases n - i,
        {
            match &recipes[i] {
                EditableContent::Built(recipe) => {
                    assert(built[i as int] == *recipe);
                    produced.push(produced_coefficient(recipe.get_products(), name));
                    consumed.push(consumed_coefficient(recipe.get_ingredients(), name));
                },
                EditableContent::Builder(_) => {
                    assert(recipes@[i as int] is Built);
                },
            }
            i += 1;
        }
        let ie = ItemExpressions { item: name.duplicate(), produced, consumed };
        assert(entries@[k as int]@ == l[k as int]);
        assert(expressions_for(ie, built, l[k as int].name));
        items.push(ie);
        assert(items@[k as int] == ie);
        k += 1;
    }
    let mut constraints: Vec<Constraint> = Vec::new();
    let mut cost_terms: Vec<CostTerm> = Vec::new();
    let mut k: usize = 0;
    while k < entries.len()
        invariant
            0 <= k <= entries@.len(),
            entries@.len() == l.len(),
            forall|k: int| 0 <= k < entries@.len() ==> #[trigger] entries@[k]@ == l[k],
            constraints@.map_values(|c: Constraint| c@) == spec_constraints(l.take(k as int)),
            cost_terms@ == spec_cost_terms(l.take(k as int)),
        decreases entries.len() - k,
    {
        let e = &entries[k];
        assert(e@ == l[k as int]);
        proof {
            assert(l.take(k + 1).drop_last() =~= l.take(k as int));
            assert(l.take(k + 1)[k as int] == l[k as int]);
        }
        match e.target {
            Some(t) => {
                constraints.push(
                    Constraint { name: e.item.get_name().clone(), item_index: k, lower_bound: t },
                );
            },
            None => match e.raw_cost {
                Some(c) => {
                    cost_terms.push(CostTerm { item_index: k, unit_cost: c });
                },
                None => {
                    constraints.push(
                        Constraint {
                            name: e.item.get_name().clone(),
                            item_index: k,
                            lower_bound: TargetAmount::zero(),
                        },
                    );
                },
            },
        }
        assert(constraints@.map_values(|c: Constraint| c@) =~= spec_constraints(l.take(k + 1)));
        assert(cost_terms@ =~= spec_cost_terms(l.take(k + 1)));
        k += 1;
    }
    assert(l.take(k as int) =~= l);
    Ok(LinearProgram { n_vars: n, items, constraints, cost_terms })
}

} // verus!
