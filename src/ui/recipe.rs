//! A recipe slot of the collection: either being edited or finished.
use vstd::prelude::*;

pub mod builder;

pub use builder::{
    builder_step, recipe_form, BuilderAction, BuilderState, ParseProbaError, ParseQuantityError,
    Probability, Quantity, RecipeForm,
};

use crate::recipes::Recipe;
use crate::ui::Item;

verus! {

/// Relies on `replace_with::replace_with_or_abort`: it moves the value out of
/// `dest`, calls `f` on it once and writes the result back (aborting the process
/// only if `f` panics).
pub assume_specification<T, F: FnOnce(T) -> T>[ replace_with::replace_with_or_abort::<T, F> ](
    dest: &mut T,
    f: F,
)
    requires
        call_requires(f, (*old(dest),)),
    ensures
        call_ensures(f, (*old(dest),), *final(dest)),
;

/// Content of an editable recipe slot.
#[derive(Debug)]
pub enum EditableContent {
    /// The recipe is being edited, with this state.
    Builder(BuilderState),
    /// The recipe is finished.
    Built(Recipe<Item>),
}

/// The mathematical content of an [`EditableContent`]: which state, and the lines.
pub enum EditableView {
    Builder(RecipeForm),
    Built(RecipeForm),
}

impl View for EditableContent {
    type V = EditableView;

    open spec fn view(&self) -> EditableView {
        match self {
            EditableContent::Builder(b) => EditableView::Builder(b@),
            EditableContent::Built(r) => EditableView::Built(recipe_form(*r)),
        }
    }
}

/// Actions that an [`EditableContent`] can perform.
#[derive(Debug)]
pub enum EditableAction {
    /// Finishes the recipe; a finished recipe stays as it is.
    Build,
    /// Reopens a finished recipe for editing; one being edited stays as it is.
    Edit,
    /// Edits a recipe being edited; a finished recipe stays as it is.
    BuilderAction(BuilderAction),
}

/// The content after `action`.
pub open spec fn editable_step(c: EditableView, action: EditableAction) -> EditableView {
    match (c, action) {
        (EditableView::Builder(f), EditableAction::Build) => EditableView::Built(f),
        (EditableView::Built(f), EditableAction::Edit) => EditableView::Builder(f),
        (EditableView::Builder(f), EditableAction::BuilderAction(a)) => EditableView::Builder(
            builder_step(f, a),
        ),
        (c, _) => c,
    }
}

impl EditableContent {
    /// The content after `action`, taking this one.
    pub fn performed(self, action: EditableAction) -> (r: EditableContent)
        ensures
            r@ == editable_step(self@, action),
    {
        match action {
            EditableAction::Build => match self {
                EditableContent::Builder(state) => EditableContent::Built(state.build()),
                EditableContent::Built(_) => self,
            },
            EditableAction::Edit => match self {
                EditableContent::Builder(_) => self,
                EditableContent::Built(recipe) => EditableContent::Builder(
                    BuilderState::from_recipe(recipe),
                ),
            },
            EditableAction::BuilderAction(a) => match self {
                EditableContent::Builder(mut state) => {
                    state.perform(a);
                    EditableContent::Builder(state)
                },
                EditableContent::Built(_) => self,
            },
        }
    }

    /// Performs an [`EditableAction`] in place.
    pub fn perform(&mut self, action: EditableAction)
        ensures
            final(self)@ == editable_step(old(self)@, action),
    {
        let ghost a = action;
        let step = move |c: EditableContent| -> (r: EditableContent)
            ensures
                r@ == editable_step(c@, a),
            { c.performed(action) };
        replace_with::replace_with_or_abort(self, step);
    }
}

} // verus!
