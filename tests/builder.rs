use craft_tree_optimizer::recipes::Recipe;
use craft_tree_optimizer::ui::recipe::{
    BuilderAction, BuilderState, EditableAction, EditableContent, Probability, Quantity,
};
use craft_tree_optimizer::ui::Item;

fn item(name: &str) -> Item {
    Item::new(name)
}

fn q(n: u8) -> Quantity {
    Quantity::new(n).unwrap()
}

fn p(n: u8) -> Probability {
    Probability::new(n).unwrap()
}

fn lines(b: &BuilderState) -> (Vec<(String, u8)>, Vec<(String, u8, u8)>) {
    (
        b.ingredients().iter().map(|(i, q)| (i.get_name().clone(), q.get())).collect(),
        b.products()
            .iter()
            .map(|(i, q, p)| (i.get_name().clone(), q.get(), p.percent()))
            .collect(),
    )
}

#[test]
fn builder_adds_edits_and_deletes_lines() {
    let mut b = BuilderState::new();
    b.perform(BuilderAction::AddIngredient(item("ore"), q(2)));
    b.perform(BuilderAction::AddIngredient(item("coal"), q(1)));
    b.perform(BuilderAction::AddProduct(item("ingot"), q(1), p(100)));
    b.perform(BuilderAction::EditIngrQty(0, q(3)));
    b.perform(BuilderAction::EditProdProba(0, p(75)));
    b.perform(BuilderAction::EditProdQty(0, q(2)));
    b.perform(BuilderAction::EditProdItem(0, item("nugget")));
    b.perform(BuilderAction::EditIngrItem(1, item("charcoal")));
    assert_eq!(
        lines(&b),
        (
            vec![("ore".to_string(), 3), ("charcoal".to_string(), 1)],
            vec![("nugget".to_string(), 2, 75)]
        )
    );
    b.perform(BuilderAction::DelIngr(0));
    b.perform(BuilderAction::DelProd(0));
    assert_eq!(lines(&b), (vec![("charcoal".to_string(), 1)], vec![]));
}

#[test]
fn builder_ignores_out_of_range_indices() {
    let mut b = BuilderState::new();
    b.perform(BuilderAction::AddIngredient(item("ore"), q(2)));
    b.perform(BuilderAction::EditIngrQty(5, q(3)));
    b.perform(BuilderAction::EditProdItem(0, item("x")));
    b.perform(BuilderAction::DelProd(0));
    b.perform(BuilderAction::DelIngr(1));
    assert_eq!(lines(&b), (vec![("ore".to_string(), 2)], vec![]));
}

#[test]
fn build_and_reopen_keep_the_lines() {
    let r = Recipe::new(vec![(item("ore"), 2)], vec![(item("ingot"), 1, 40)]).unwrap();
    let b = BuilderState::from_recipe(r);
    assert_eq!(lines(&b), (vec![("ore".to_string(), 2)], vec![("ingot".to_string(), 1, 40)]));
    let r2 = b.build();
    assert_eq!(r2.get_ingredients(), &vec![(item("ore"), 2)]);
    assert_eq!(r2.get_products(), &vec![(item("ingot"), 1, 40)]);
}

#[test]
fn editable_content_switches_between_states() {
    let mut c = EditableContent::Builder(BuilderState::new());
    c.perform(EditableAction::BuilderAction(BuilderAction::AddProduct(item("wood"), q(10), p(100))));
    c.perform(EditableAction::Edit);
    assert!(matches!(c, EditableContent::Builder(_)));
    c.perform(EditableAction::Build);
    match &c {
        EditableContent::Built(r) => assert_eq!(r.get_products(), &vec![(item("wood"), 10, 100)]),
        EditableContent::Builder(_) => panic!("expected a finished recipe"),
    }
    c.perform(EditableAction::Build);
    c.perform(EditableAction::BuilderAction(BuilderAction::DelProd(0)));
    assert!(matches!(c, EditableContent::Built(_)));
    c.perform(EditableAction::Edit);
    match &c {
        EditableContent::Builder(b) => {
            assert_eq!(lines(b), (vec![], vec![("wood".to_string(), 10, 100)]))
        }
        EditableContent::Built(_) => panic!("expected a recipe being edited"),
    }
}
