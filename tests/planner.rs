use craft_tree_optimizer::model::OptimizationError;
use craft_tree_optimizer::planner::Planner;
use craft_tree_optimizer::recipes::Recipe;
use craft_tree_optimizer::ui::recipe::{
    BuilderAction, EditableContent, Probability, Quantity,
};
use craft_tree_optimizer::ui::{Item, TargetAmount};

fn item(name: &str) -> Item {
    Item::new(name)
}

fn counts(p: &Planner) -> Vec<(String, usize)> {
    p.items().entries().iter().map(|e| (e.item.get_name().clone(), e.count)).collect()
}

fn fill(p: &mut Planner, index: usize) {
    p.edit_lines(index, BuilderAction::AddIngredient(item("ore"), Quantity::new(2).unwrap()));
    p.edit_lines(
        index,
        BuilderAction::AddProduct(item("ingot"), Quantity::new(1).unwrap(), Probability::new(100).unwrap()),
    );
}

#[test]
fn building_records_references_once() {
    let mut p = Planner::new();
    p.add_recipe();
    fill(&mut p, 0);
    assert!(p.items().entries().is_empty());
    p.build(0);
    assert!(matches!(p.recipes()[0], EditableContent::Built(_)));
    assert_eq!(counts(&p), vec![("ore".to_string(), 1), ("ingot".to_string(), 1)]);
    p.build(0);
    assert_eq!(counts(&p), vec![("ore".to_string(), 1), ("ingot".to_string(), 1)]);
}

#[test]
fn editing_a_finished_recipe_drops_its_references() {
    let mut p = Planner::new();
    p.add_recipe();
    fill(&mut p, 0);
    p.build(0);
    p.set_target(&item("ingot"), Some(TargetAmount::from_integer(3)));
    p.edit(0);
    assert!(matches!(p.recipes()[0], EditableContent::Builder(_)));
    assert_eq!(counts(&p), vec![("ingot".to_string(), 0)]);
    assert_eq!(p.compile().unwrap_err(), OptimizationError::NotReady);
    p.build(0);
    assert_eq!(counts(&p), vec![("ingot".to_string(), 1), ("ore".to_string(), 1)]);
}

#[test]
fn edits_only_reach_recipes_being_edited() {
    let mut p = Planner::new();
    p.add_recipe();
    fill(&mut p, 0);
    p.build(0);
    p.edit_lines(0, BuilderAction::DelIngr(0));
    match &p.recipes()[0] {
        EditableContent::Built(r) => assert_eq!(r.get_ingredients().len(), 1),
        EditableContent::Builder(_) => panic!("expected a finished recipe"),
    }
    p.edit_lines(7, BuilderAction::DelIngr(0));
    assert_eq!(p.recipes().len(), 1);
}

#[test]
fn deleting_shifts_slots_and_releases_items() {
    let mut p = Planner::new();
    p.push(EditableContent::Built(
        Recipe::new(vec![], vec![(item("wood"), 10, 100)]).unwrap(),
    ));
    p.add_recipe();
    fill(&mut p, 1);
    p.build(1);
    p.delete(0);
    assert_eq!(p.recipes().len(), 1);
    assert_eq!(counts(&p), vec![("ore".to_string(), 1), ("ingot".to_string(), 1)]);
    p.delete(5);
    assert_eq!(p.recipes().len(), 1);
    p.delete(0);
    assert!(p.recipes().is_empty());
    assert!(counts(&p).is_empty());
}

#[test]
fn planner_compiles_its_recipes() {
    let mut p = Planner::new();
    p.push(EditableContent::Built(
        Recipe::new(vec![], vec![(item("wood"), 10, 100)]).unwrap(),
    ));
    assert!(p.set_target(&item("wood"), Some(TargetAmount::from_integer(50))));
    assert!(!p.set_raw_cost(&item("stone"), Some(TargetAmount::from_integer(1))));
    let lp = p.compile().unwrap();
    assert_eq!(lp.n_vars, 1);
    assert_eq!(lp.items[0].produced, vec![1000]);
    assert_eq!(lp.constraints[0].lower_bound, TargetAmount::from_integer(50));
}
