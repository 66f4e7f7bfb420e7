//! Production planning for crafting recipes.
//!
//! Recipes consume and produce items; an item ledger records which items are
//! known, how many recipe lines reference each, and how each one is constrained
//! (a production target, a unit cost as a raw material, or neither). A
//! [`planner::Planner`] keeps the recipe slots and the ledger in step, and
//! [`model::compile`] turns them into an exact linear program whose variables are
//! the recipes' usage counts, ready to be handed to a linear-programming solver.
pub mod ui;
pub mod recipes;
pub mod recipe_lookup;
pub mod ledger;
pub mod model;
pub mod planner;
