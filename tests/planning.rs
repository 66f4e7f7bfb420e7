use craft_tree_optimizer::ledger::ItemLedger;
use craft_tree_optimizer::model::{compile, LinearProgram, OptimizationError};
use craft_tree_optimizer::recipes::Recipe;
use craft_tree_optimizer::ui::recipe::{BuilderState, EditableContent};
use craft_tree_optimizer::ui::{Item, TargetAmount};
use good_lp::solvers::microlp::microlp;
use good_lp::{
    variable, Expression, ProblemVariables, ResolutionError, Solution, SolutionStatus, SolverModel,
};

fn item(name: &str) -> Item {
    Item::new(name)
}

fn amount(a: TargetAmount) -> f64 {
    a.numer as f64 / a.denom as f64
}

struct Plan {
    usage: Vec<f64>,
    stats: Vec<(String, f64, f64)>,
}

/// Solves a compiled program and evaluates each item's expressions at the optimum.
fn solve(lp: &LinearProgram) -> Result<Plan, OptimizationError> {
    let mut vars = ProblemVariables::new();
    let x = vars.add_vector(variable().min(0), lp.n_vars);
    let exprs: Vec<(Expression, Expression)> = lp
        .items
        .iter()
        .map(|e| {
            let mut produced = Expression::default();
            let mut consumed = Expression::default();
            for (i, v) in x.iter().enumerate() {
                produced.add_mul(e.produced[i] as f64 / 100.0, *v);
                consumed.add_mul(e.consumed[i] as f64 / 100.0, *v);
            }
            (produced, consumed)
        })
        .collect();
    let mut cost = Expression::default();
    for t in &lp.cost_terms {
        let (p, c) = &exprs[t.item_index];
        cost.add_mul(-amount(t.unit_cost), p.clone() - c.clone());
    }
    let constraints: Vec<_> = lp
        .constraints
        .iter()
        .map(|c| {
            let (p, u) = &exprs[c.item_index];
            (p.clone() - u.clone()).geq(amount(c.lower_bound)).set_name(c.name.clone())
        })
        .collect();
    let solution = match vars.minimise(cost).using(microlp).with_all(constraints).solve() {
        Ok(s) => s,
        Err(ResolutionError::Infeasible) => {
            return Err(OptimizationError::NotOptimal("Infeasible".to_string()))
        }
        Err(ResolutionError::Unbounded) => {
            return Err(OptimizationError::NotOptimal("Unbounded".to_string()))
        }
        Err(e) => return Err(OptimizationError::SolverFailure(e.to_string())),
    };
    match solution.status() {
        SolutionStatus::Optimal => {}
        status => return Err(OptimizationError::NotOptimal(format!("{status:?}"))),
    }
    Ok(Plan {
        usage: x.iter().map(|v| solution.value(*v)).collect(),
        stats: lp
            .items
            .iter()
            .zip(exprs)
            .map(|(e, (p, c))| (e.item.get_name().clone(), solution.eval(p), solution.eval(c)))
            .collect(),
    })
}

fn close(a: f64, b: f64) -> bool {
    (a - b).abs() <= 1e-4 * (1.0 + b.abs())
}

fn stat(plan: &Plan, name: &str) -> (f64, f64) {
    let s = plan.stats.iter().find(|s| s.0 == name).unwrap();
    (s.1, s.2)
}

fn collection(recipes: Vec<Recipe<Item>>) -> (Vec<EditableContent>, ItemLedger) {
    let mut ledger = ItemLedger::new();
    for r in &recipes {
        ledger.on_recipe_added(r);
    }
    (recipes.into_iter().map(EditableContent::Built).collect(), ledger)
}

#[test]
fn unfinished_recipe_is_not_ready() {
    let wood = Recipe::new(vec![], vec![(item("wood"), 10, 100)]).unwrap();
    let (mut slots, ledger) = collection(vec![wood]);
    slots.push(EditableContent::Builder(BuilderState::new()));
    assert_eq!(compile(&slots, &ledger).unwrap_err(), OptimizationError::NotReady);
}

#[test]
fn not_ready_comes_before_missing_items() {
    let wood = Recipe::new(vec![], vec![(item("wood"), 10, 100)]).unwrap();
    let slots = vec![
        EditableContent::Built(wood),
        EditableContent::Builder(BuilderState::new()),
    ];
    let ledger = ItemLedger::new();
    assert_eq!(compile(&slots, &ledger).unwrap_err(), OptimizationError::NotReady);
}

#[test]
fn first_missing_item_is_named() {
    let a = Recipe::new(vec![(item("ore"), 1)], vec![(item("ingot"), 1, 100)]).unwrap();
    let b = Recipe::new(vec![(item("coal"), 1)], vec![(item("heat"), 1, 100)]).unwrap();
    let (_, ledger) = collection(vec![Recipe::new(vec![(item("ore"), 1)], vec![]).unwrap()]);
    let slots = vec![EditableContent::Built(a), EditableContent::Built(b)];
    assert_eq!(
        compile(&slots, &ledger).unwrap_err(),
        OptimizationError::MissingItem("ingot".to_string())
    );
}

#[test]
fn empty_collection_compiles_to_empty_program() {
    let lp = compile(&vec![], &ItemLedger::new()).unwrap();
    assert_eq!(lp.n_vars, 0);
    assert!(lp.items.is_empty() && lp.constraints.is_empty() && lp.cost_terms.is_empty());
}

#[test]
fn coefficients_scale_quantity_by_probability() {
    let r = Recipe::new(
        vec![(item("seed"), 3)],
        vec![(item("gem"), 4, 50), (item("seed"), 2, 25), (item("gem"), 1, 100)],
    )
    .unwrap();
    let (slots, ledger) = collection(vec![r]);
    let lp = compile(&slots, &ledger).unwrap();
    let seed = &lp.items[ledger.find(&item("seed")).unwrap()];
    let gem = &lp.items[ledger.find(&item("gem")).unwrap()];
    assert_eq!(gem.produced, vec![4 * 50 + 100]);
    assert_eq!(gem.consumed, vec![0]);
    assert_eq!(seed.produced, vec![2 * 25]);
    assert_eq!(seed.consumed, vec![300]);
}

#[test]
fn constraints_follow_target_then_cost_policy() {
    let r = Recipe::new(
        vec![(item("ore"), 2), (item("coal"), 1)],
        vec![(item("ingot"), 1, 100)],
    )
    .unwrap();
    let (slots, mut ledger) = collection(vec![r]);
    ledger.set_target(&item("ingot"), Some(TargetAmount::from_integer(10)));
    ledger.set_raw_cost(&item("ore"), Some(TargetAmount::from_integer(3)));
    ledger.set_target(&item("coal"), Some(TargetAmount::new(1, 2).unwrap()));
    ledger.set_raw_cost(&item("coal"), Some(TargetAmount::from_integer(7)));
    let lp = compile(&slots, &ledger).unwrap();
    let cons: Vec<(String, usize, u64, u64)> = lp
        .constraints
        .iter()
        .map(|c| (c.name.clone(), c.item_index, c.lower_bound.numer, c.lower_bound.denom))
        .collect();
    assert_eq!(cons, vec![("coal".to_string(), 1, 1, 2), ("ingot".to_string(), 2, 10, 1)]);
    assert_eq!(lp.cost_terms.len(), 1);
    assert_eq!(lp.cost_terms[0].item_index, 0);
    assert_eq!(lp.cost_terms[0].unit_cost, TargetAmount::from_integer(3));
}

#[test]
fn free_item_gets_zero_constraint() {
    let a = Recipe::new(vec![], vec![(item("plank"), 4, 100)]).unwrap();
    let b = Recipe::new(vec![(item("plank"), 2)], vec![(item("stick"), 4, 100)]).unwrap();
    let (slots, mut ledger) = collection(vec![a, b]);
    ledger.set_target(&item("stick"), Some(TargetAmount::from_integer(8)));
    let lp = compile(&slots, &ledger).unwrap();
    let plank = &lp.constraints[0];
    assert_eq!((plank.name.as_str(), plank.lower_bound.numer), ("plank", 0));
    let plan = solve(&lp).unwrap();
    let (p, c) = stat(&plan, "plank");
    assert!(p - c >= -1e-6);
    assert!(close(plan.usage[1], 2.0));
    let (sp, sc) = stat(&plan, "stick");
    assert!(sp - sc >= 8.0 - 1e-4);
}

#[test]
fn single_recipe_meets_target() {
    let wood = Recipe::new(vec![], vec![(item("wood"), 10, 100)]).unwrap();
    let (slots, mut ledger) = collection(vec![wood]);
    ledger.set_target(&item("wood"), Some(TargetAmount::from_integer(50)));
    let plan = solve(&compile(&slots, &ledger).unwrap()).unwrap();
    assert_eq!(plan.usage.len(), 1);
    assert!(close(plan.usage[0], 5.0), "usage {:?}", plan.usage);
    let (p, c) = stat(&plan, "wood");
    assert!(close(p, 50.0));
    assert!(close(c, 0.0));
}

#[test]
fn raw_material_cost_is_minimised() {
    let smelt = Recipe::new(vec![(item("ore"), 2)], vec![(item("ingot"), 1, 100)]).unwrap();
    let (slots, mut ledger) = collection(vec![smelt]);
    ledger.set_target(&item("ingot"), Some(TargetAmount::from_integer(10)));
    ledger.set_raw_cost(&item("ore"), Some(TargetAmount::new(30, 10).unwrap()));
    let plan = solve(&compile(&slots, &ledger).unwrap()).unwrap();
    assert!(close(plan.usage[0], 10.0), "usage {:?}", plan.usage);
    let (p, c) = stat(&plan, "ore");
    assert!(close(c, 20.0));
    assert!(close(3.0 * (c - p), 60.0));
}

#[test]
fn probabilistic_yield_meets_target() {
    let r = Recipe::new(vec![], vec![(item("gem"), 4, 50)]).unwrap();
    let (slots, mut ledger) = collection(vec![r]);
    ledger.set_target(&item("gem"), Some(TargetAmount::from_integer(2)));
    let plan = solve(&compile(&slots, &ledger).unwrap()).unwrap();
    assert!(close(plan.usage[0], 1.0), "usage {:?}", plan.usage);
}

#[test]
fn unproducible_target_is_infeasible() {
    let r = Recipe::new(vec![(item("ore"), 1)], vec![(item("ingot"), 1, 100)]).unwrap();
    let (slots, mut ledger) = collection(vec![r]);
    ledger.set_target(&item("ore"), Some(TargetAmount::from_integer(5)));
    let lp = compile(&slots, &ledger).unwrap();
    match solve(&lp) {
        Err(OptimizationError::NotOptimal(_)) => {}
        Err(e) => panic!("unexpected error {e:?}"),
        Ok(plan) => panic!("unexpected plan {:?}", plan.usage),
    }
}

#[test]
fn compiling_twice_gives_the_same_program_and_plan() {
    let smelt = Recipe::new(vec![(item("ore"), 2)], vec![(item("ingot"), 1, 100)]).unwrap();
    let (slots, mut ledger) = collection(vec![smelt]);
    ledger.set_target(&item("ingot"), Some(TargetAmount::from_integer(10)));
    ledger.set_raw_cost(&item("ore"), Some(TargetAmount::from_integer(3)));
    let a = compile(&slots, &ledger).unwrap();
    let b = compile(&slots, &ledger).unwrap();
    assert_eq!(a.n_vars, b.n_vars);
    assert_eq!(a.items.len(), b.items.len());
    for (x, y) in a.items.iter().zip(b.items.iter()) {
        assert_eq!((&x.item, &x.produced, &x.consumed), (&y.item, &y.produced, &y.consumed));
    }
    assert_eq!(a.cost_terms, b.cost_terms);
    let pa = solve(&a).unwrap();
    let pb = solve(&b).unwrap();
    for (u, v) in pa.usage.iter().zip(pb.usage.iter()) {
        assert!(close(*u, *v));
    }
}
