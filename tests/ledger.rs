use craft_tree_optimizer::ledger::ItemLedger;
use craft_tree_optimizer::recipes::Recipe;
use craft_tree_optimizer::ui::{Item, TargetAmount};

fn item(name: &str) -> Item {
    Item::new(name)
}

fn smelting() -> Recipe<Item> {
    Recipe::new(vec![(item("ore"), 2), (item("coal"), 1)], vec![(item("ingot"), 1, 100)]).unwrap()
}

fn counts(l: &ItemLedger) -> Vec<(String, usize)> {
    l.entries().iter().map(|e| (e.item.get_name().clone(), e.count)).collect()
}

#[test]
fn adding_a_recipe_registers_its_items_in_order() {
    let mut l = ItemLedger::new();
    l.on_recipe_added(&smelting());
    assert_eq!(
        counts(&l),
        vec![("ore".to_string(), 1), ("coal".to_string(), 1), ("ingot".to_string(), 1)]
    );
    assert!(l.entries().iter().all(|e| e.target.is_none() && e.raw_cost.is_none()));
}

#[test]
fn shared_items_are_counted_per_reference() {
    let mut l = ItemLedger::new();
    l.on_recipe_added(&smelting());
    let plate = Recipe::new(vec![(item("ingot"), 3)], vec![(item("plate"), 1, 100)]).unwrap();
    l.on_recipe_added(&plate);
    assert_eq!(l.len(), 4);
    assert_eq!(l.entries()[l.find(&item("ingot")).unwrap()].count, 2);
}

#[test]
fn repeated_item_in_one_recipe_counts_twice() {
    let mut l = ItemLedger::new();
    let r = Recipe::new(vec![(item("seed"), 1)], vec![(item("seed"), 2, 90)]).unwrap();
    l.on_recipe_added(&r);
    assert_eq!(counts(&l), vec![("seed".to_string(), 2)]);
}

#[test]
fn removing_a_recipe_evicts_unannotated_items() {
    let mut l = ItemLedger::new();
    let s = smelting();
    l.on_recipe_added(&s);
    l.on_recipe_removed(&s);
    assert_eq!(l.len(), 0);
}

#[test]
fn removing_keeps_annotated_items_at_zero() {
    let mut l = ItemLedger::new();
    let s = smelting();
    l.on_recipe_added(&s);
    assert!(l.set_target(&item("ingot"), Some(TargetAmount::from_integer(10))));
    assert!(l.set_raw_cost(&item("ore"), Some(TargetAmount::from_integer(3))));
    l.on_recipe_removed(&s);
    assert_eq!(counts(&l), vec![("ore".to_string(), 0), ("ingot".to_string(), 0)]);
}

#[test]
fn removing_one_of_two_recipes_keeps_shared_item() {
    let mut l = ItemLedger::new();
    let s = smelting();
    let plate = Recipe::new(vec![(item("ingot"), 3)], vec![(item("plate"), 1, 100)]).unwrap();
    l.on_recipe_added(&s);
    l.on_recipe_added(&plate);
    l.on_recipe_removed(&plate);
    assert_eq!(
        counts(&l),
        vec![("ore".to_string(), 1), ("coal".to_string(), 1), ("ingot".to_string(), 1)]
    );
}

#[test]
fn annotations_are_set_and_cleared() {
    let mut l = ItemLedger::new();
    l.on_recipe_added(&smelting());
    let k = l.find(&item("ingot")).unwrap();
    assert!(l.set_target(&item("ingot"), Some(TargetAmount::new(5, 2).unwrap())));
    assert_eq!(l.entries()[k].target, TargetAmount::new(5, 2));
    assert!(l.set_target(&item("ingot"), None));
    assert_eq!(l.entries()[k].target, None);
    assert!(l.set_raw_cost(&item("ingot"), Some(TargetAmount::from_integer(1))));
    assert_eq!(l.entries()[k].raw_cost, Some(TargetAmount::from_integer(1)));
    assert_eq!(l.entries()[k].count, 1);
}

#[test]
fn unknown_item_annotation_changes_nothing() {
    let mut l = ItemLedger::new();
    l.on_recipe_added(&smelting());
    assert!(!l.set_target(&item("gold"), Some(TargetAmount::from_integer(1))));
    assert!(!l.set_raw_cost(&item("gold"), None));
    assert!(l.find(&item("gold")).is_none());
    assert_eq!(l.len(), 3);
}
