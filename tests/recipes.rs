use craft_tree_optimizer::recipes::{Recipe, RecipeError};
use craft_tree_optimizer::ui::recipe::{Probability, Quantity};
use craft_tree_optimizer::ui::{Item, TargetAmount, TitleLevel};

fn item(name: &str) -> Item {
    Item::new(name)
}

#[test]
fn item_keeps_its_name() {
    let i = Item::new("Iron Ingot");
    assert_eq!(i.get_name(), "Iron Ingot");
    assert!(i.same_as(&Item::new("Iron Ingot")));
    assert!(!i.same_as(&Item::new("iron ingot")));
    assert_eq!(i.duplicate(), i);
}

#[test]
fn title_levels_are_distinct() {
    assert_ne!(TitleLevel::SectionTitle, TitleLevel::Bald);
    assert_ne!(TitleLevel::SubSectionTitle, TitleLevel::SectionTitle);
}

#[test]
fn recipe_with_valid_lines_is_built() {
    let r = Recipe::new(vec![(item("ore"), 2)], vec![(item("ingot"), 1, 100)]).unwrap();
    assert_eq!(r.get_ingredients(), &vec![(item("ore"), 2)]);
    assert_eq!(r.get_products(), &vec![(item("ingot"), 1, 100)]);
    let (ing, prod) = r.take();
    assert_eq!(ing.len(), 1);
    assert_eq!(prod[0].2, 100);
}

#[test]
fn empty_recipe_is_valid() {
    let r: Recipe<Item> = Recipe::new(vec![], vec![]).unwrap();
    assert!(r.get_ingredients().is_empty());
    assert!(r.get_products().is_empty());
}

#[test]
fn zero_quantity_ingredient_is_rejected() {
    let r = Recipe::new(vec![(item("ore"), 0)], vec![(item("ingot"), 1, 100)]);
    assert_eq!(r.unwrap_err(), RecipeError::ZeroQuantity);
}

#[test]
fn zero_quantity_product_is_rejected() {
    let r = Recipe::new(vec![(item("ore"), 1)], vec![(item("ingot"), 0, 100)]);
    assert_eq!(r.unwrap_err(), RecipeError::ZeroQuantity);
}

#[test]
fn zero_probability_is_rejected() {
    let r = Recipe::new(vec![(item("ore"), 1)], vec![(item("ingot"), 1, 0)]);
    assert_eq!(r.unwrap_err(), RecipeError::ProbabilityOutOfRange);
}

#[test]
fn probability_above_one_is_rejected() {
    let r = Recipe::new(vec![], vec![(item("gem"), 4, 101)]);
    assert_eq!(r.unwrap_err(), RecipeError::ProbabilityOutOfRange);
}

#[test]
fn zero_quantity_is_reported_before_probability() {
    let r = Recipe::new(vec![], vec![(item("gem"), 4, 101), (item("dust"), 0, 50)]);
    assert_eq!(r.unwrap_err(), RecipeError::ZeroQuantity);
}

#[test]
fn extreme_valid_values_are_accepted() {
    let r = Recipe::new(vec![(item("a"), 255)], vec![(item("b"), 255, 1), (item("c"), 1, 100)]);
    assert!(r.is_ok());
}

#[test]
fn quantity_rejects_zero() {
    assert!(Quantity::new(0).is_none());
    assert_eq!(Quantity::new(7).unwrap().get(), 7);
    assert_eq!(Quantity::new(255).unwrap().take(), 255);
    assert_eq!(Quantity::default().get(), 1);
}

#[test]
fn probability_accepts_one_to_hundred() {
    assert!(Probability::new(0).is_none());
    assert!(Probability::new(101).is_none());
    assert_eq!(Probability::new(1).unwrap().percent(), 1);
    assert_eq!(Probability::new(100).unwrap().percent(), 100);
    assert_eq!(Probability::default().percent(), 100);
}

#[test]
fn target_amount_constructors() {
    assert!(TargetAmount::new(1, 0).is_none());
    let a = TargetAmount::new(3, 4).unwrap();
    assert_eq!((a.numer, a.denom), (3, 4));
    let w = TargetAmount::from_integer(50);
    assert_eq!((w.numer, w.denom), (50, 1));
    let z = TargetAmount::zero();
    assert_eq!((z.numer, z.denom), (0, 1));
    let d = TargetAmount::default();
    assert_eq!((d.numer, d.denom), (1, 1));
}
