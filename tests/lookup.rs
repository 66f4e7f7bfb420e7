use craft_tree_optimizer::recipe_lookup::RecipeBank;
use craft_tree_optimizer::recipes::Recipe;
use craft_tree_optimizer::ui::Item;

fn item(name: &str) -> Item {
    Item::new(name)
}

#[test]
fn bank_finds_producers_in_order() {
    let mut bank = RecipeBank::new();
    bank.add(Recipe::new(vec![(item("ore"), 2)], vec![(item("ingot"), 1, 100)]).unwrap());
    bank.add(Recipe::new(vec![], vec![(item("ore"), 3, 100)]).unwrap());
    bank.add(
        Recipe::new(vec![(item("scrap"), 1)], vec![(item("ingot"), 1, 50), (item("ingot"), 1, 10)])
            .unwrap(),
    );
    assert_eq!(bank.len(), 3);
    assert_eq!(bank.producers(&item("ingot")), vec![0, 2, 2]);
    assert_eq!(bank.producers(&item("ore")), vec![1]);
    assert!(bank.producers(&item("scrap")).is_empty());
    assert_eq!(bank.get(1).get_products(), &vec![(item("ore"), 3, 100)]);
}

#[test]
fn empty_bank_has_no_producers() {
    let bank = RecipeBank::default();
    assert_eq!(bank.len(), 0);
    assert!(bank.producers(&item("anything")).is_empty());
}
