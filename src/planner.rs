//! The recipe collection together with its item ledger, kept in step.
use vstd::prelude::*;

use crate::model::{compile, compile_outcome, LinearProgram, OptimizationError};
use crate::ledger::{
    contains_name, entry_count, ledger_wf, lemma_count_annotation, lemma_count_with_references,
    lemma_count_without_references, name_count, references_fit, reference_names, with_raw_cost,
    with_references, with_target, without_references, EntryView, ItemLedger,
};
use crate::model::{all_built, all_present, built_recipes, missing_at};
use crate::ui::recipe::{
    builder_step, recipe_form, BuilderAction, BuilderState, EditableAction, EditableContent,
    EditableView, RecipeForm,
};
use crate::ui::{Item, TargetAmount};

verus! {

/// The names that the lines of a recipe reference: ingredients, then products.
pub open spec fn form_names(f: RecipeForm) -> Seq<Seq<char>> {
    f.0.map_values(|e: (Seq<char>, u8)| e.0) + f.1.map_values(|e: (Seq<char>, u8, u8)| e.0)
}

proof fn lemma_form_names(r: crate::recipes::Recipe<Item>)
    ensures
        form_names(recipe_form(r)) == reference_names(r),
{
    assert(form_names(recipe_form(r)) =~= reference_names(r));
}

/// How many references a slot makes to `name`: none while it is being edited.
pub open spec fn slot_count(c: EditableView, name: Seq<char>) -> nat {
    match c {
        EditableView::Built(f) => name_count(form_names(f), name),
        EditableView::Builder(_) => 0,
    }
}

/// How many references the finished recipes among `slots` make to `name`.
pub open spec fn built_count(slots: Seq<EditableView>, name: Seq<char>) -> nat
    decreases slots.len(),
{
    if slots.len() == 0 {
        0
    } else {
        built_count(slots.drop_last(), name) + slot_count(slots.last(), name)
    }
}

proof fn lemma_built_count_push(s: Seq<EditableView>, c: EditableView, x: Seq<char>)
    ensures
        built_count(s.push(c), x) == built_count(s, x) + slot_count(c, x),
{
    assert(s.push(c).drop_last() =~= s);
}

proof fn lemma_built_count_update(s: Seq<EditableView>, i: int, c: EditableView, x: Seq<char>)
    requires
        0 <= i < s.len(),
    ensures
        built_count(s.update(i, c), x) == built_count(s, x) - slot_count(s[i], x) + slot_count(
            c,
            x,
        ),
        built_count(s, x) >= slot_count(s[i], x),
    decreases s.len(),
{
    let u = s.update(i, c);
    if i == s.len() - 1 {
        assert(u.drop_last() =~= s.drop_last());
    } else {
        assert(u.drop_last() =~= s.drop_last().update(i, c));
        lemma_built_count_update(s.drop_last(), i, c, x);
    }
}

proof fn lemma_built_count_remove(s: Seq<EditableView>, i: int, x: Seq<char>)
    requires
        0 <= i < s.len(),
    ensures
        built_count(s.remove(i), x) == built_count(s, x) - slot_count(s[i], x),
    decreases s.len(),
{
    let u = s.remove(i);
    if i == s.len() - 1 {
        assert(u =~= s.drop_last());
    } else {
        assert(u.drop_last() =~= s.drop_last().remove(i));
        lemma_built_count_remove(s.drop_last(), i, x);
    }
}

proof fn lemma_name_count_positive(ns: Seq<Seq<char>>, j: int)
    requires
        0 <= j < ns.len(),
    ensures
        name_count(ns, ns[j]) >= 1,
    decreases ns.len(),
{
    if j < ns.len() - 1 {
        lemma_name_count_positive(ns.drop_last(), j);
    }
}

/// A planner whose ledger is in step with its recipes never misses an item: once
/// every recipe is finished, every item that they reference has a ledger entry,
/// so compiling them gives a program, never an error.
pub proof fn lemma_consistent_planner_compiles(p: Planner, r: Result<LinearProgram, OptimizationError>)
    requires
        p.consistent(),
        all_built(p.recipe_slots()),
        compile_outcome(p.recipe_slots(), p.ledger(), r),
    ensures
        all_present(built_recipes(p.recipe_slots()), p.ledger()),
        r is Ok,
{
    let recipes = built_recipes(p.recipe_slots());
    assert forall|i: int, j: int| !#[trigger] missing_at(recipes, p.ledger(), i, j) by {
        if 0 <= i < recipes.len() && 0 <= j < reference_names(recipes[i]).len() {
            let rc = recipes[i];
            let nm = reference_names(rc)[j];
            lemma_name_count_positive(reference_names(rc), j);
            lemma_form_names(rc);
            assert(p.recipe_slots()[i] is Built);
            assert(p.slots()[i] == p.recipe_slots()[i]@);
            assert(p.slots()[i] == EditableView::Built(recipe_form(rc)));
            lemma_built_count_update(p.slots(), i, p.slots()[i], nm);
            assert(entry_count(p.ledger(), nm) >= 1);
        }
    }
}

/// The recipe slots, in order, and the item ledger.
#[derive(Debug)]
pub struct Planner {
    recipes: Vec<EditableContent>,
    items: ItemLedger,
}

impl Planner {
    /// The slots, in order.
    pub closed spec fn recipe_slots(&self) -> Seq<EditableContent> {
        self.recipes@
    }

    /// The slots' contents, in order.
    pub open spec fn slots(&self) -> Seq<EditableView> {
        self.recipe_slots().map_values(|c: EditableContent| c@)
    }

    /// The ledger's entries.
    pub closed spec fn ledger(&self) -> Seq<EntryView> {
        self.items@
    }

    /// The ledger counts, for every name, exactly the references that the
    /// finished recipes make to it.
    pub open spec fn consistent(&self) -> bool {
        &&& ledger_wf(self.ledger())
        &&& forall|name: Seq<char>|
            #[trigger] entry_count(self.ledger(), name) == built_count(self.slots(), name)
    }

    /// No recipe and no known item.
    pub fn new() -> (r: Planner)
        ensures
            r.slots().len() == 0,
            r.ledger().len() == 0,
            r.consistent(),
    {
        let r = Planner { recipes: Vec::new(), items: ItemLedger::new() };
        assert(r.slots() =~= Seq::<EditableView>::empty());
        r
    }

    /// The recipe slots.
    pub fn recipes(&self) -> (r: &Vec<EditableContent>)
        ensures
            r@ == self.recipe_slots(),
    {
        &self.recipes
    }

    /// The item ledger.
    pub fn items(&self) -> (r: &ItemLedger)
        ensures
            r@ == self.ledger(),
    {
        &self.items
    }

    /// Appends an empty recipe being edited.
    pub fn add_recipe(&mut self)
        ensures
            final(self).slots() == old(self).slots().push(
                EditableView::Builder((Seq::empty(), Seq::empty())),
            ),
            final(self).ledger() == old(self).ledger(),
            old(self).consistent() ==> final(self).consistent(),
    {
        let b = BuilderState::new();
        assert(b@ =~= (Seq::<(Seq<char>, u8)>::empty(), Seq::<(Seq<char>, u8, u8)>::empty()));
        self.recipes.push(EditableContent::Builder(b));
        assert(self.slots() =~= old(self).slots().push(
            EditableView::Builder((Seq::empty(), Seq::empty())),
        ));
        assert forall|x: Seq<char>| #[trigger] built_count(self.slots(), x) == built_count(
            old(self).slots(),
            x,
        ) by {
            lemma_built_count_push(old(self).slots(), EditableView::Builder((Seq::empty(), Seq::empty())), x);
        }
    }

    /// Appends a slot; a finished recipe's references are recorded in the ledger.
    pub fn push(&mut self, content: EditableContent)
        requires
            content matches EditableContent::Built(r) ==> references_fit(
                old(self).ledger(),
                reference_names(r).len(),
            ),
        ensures
            final(self).slots() == old(self).slots().push(content@),
            final(self).ledger() == match content {
                EditableContent::Built(r) => with_references(old(self).ledger(), reference_names(r)),
                EditableContent::Builder(_) => old(self).ledger(),
            },
            old(self).consistent() ==> final(self).consistent(),
    {
        if let EditableContent::Built(r) = &content {
            self.items.on_recipe_added(r);
        }
        let ghost c = content;
        self.recipes.push(content);
        assert(self.slots() =~= old(self).slots().push(c@));
        proof {
            if old(self).consistent() {
                assert forall|x: Seq<char>| #[trigger] entry_count(self.ledger(), x) == built_count(
                    self.slots(),
                    x,
                ) by {
                    lemma_built_count_push(old(self).slots(), c@, x);
                    if let EditableContent::Built(r) = c {
                        lemma_form_names(r);
                        lemma_count_with_references(old(self).ledger(), reference_names(r), x);
                    }
                }
            }
        }
    }

    /// Edits the recipe at `index`, if it is being edited; otherwise nothing
    /// changes.
    pub fn edit_lines(&mut self, index: usize, action: BuilderAction)
        ensures
            final(self).ledger() == old(self).ledger(),
            final(self).slots() == if index < old(self).slots().len() {
                match old(self).slots()[index as int] {
                    EditableView::Builder(f) => old(self).slots().update(
                        index as int,
                        EditableView::Builder(builder_step(f, action)),
                    ),
                    EditableView::Built(_) => old(self).slots(),
                }
            } else {
                old(self).slots()
            },
            old(self).consistent() ==> final(self).consistent(),
    {
        if index < self.recipes.len() {
            let mut slot = self.recipes.remove(index);
            slot.perform(EditableAction::BuilderAction(action));
            self.recipes.insert(index, slot);
            assert(self.slots() =~= old(self).slots().update(index as int, slot@));
            assert forall|x: Seq<char>| #[trigger] built_count(self.slots(), x) == built_count(
                old(self).slots(),
                x,
            ) by {
                lemma_built_count_update(old(self).slots(), index as int, slot@, x);
            }
        }
    }

    /// Finishes the recipe at `index`, if it is being edited, and records its
    /// references in the ledger; otherwise nothing changes.
    pub fn build(&mut self, index: usize)
        requires
            index < old(self).slots().len() ==> match old(self).slots()[index as int] {
                EditableView::Builder(f) => references_fit(old(self).ledger(), form_names(f).len()),
                EditableView::Built(_) => true,
            },
        ensures
            index < old(self).slots().len() ==> match old(self).slots()[index as int] {
                EditableView::Builder(f) => final(self).slots() == old(self).slots().update(
                    index as int,
                    EditableView::Built(f),
                ) && final(self).ledger() == with_references(old(self).ledger(), form_names(f)),
                EditableView::Built(_) => *final(self) == *old(self),
            },
            index >= old(self).slots().len() ==> *final(self) == *old(self),
            old(self).consistent() ==> final(self).consistent(),
    {
        if index < self.recipes.len() {
            if let EditableContent::Builder(_) = &self.recipes[index] {
                let mut slot = self.recipes.remove(index);
                slot.perform(EditableAction::Build);
                if let EditableContent::Built(r) = &slot {
                    proof {
                        lemma_form_names(*r);
                    }
                    self.items.on_recipe_added(r);
                }
                self.recipes.insert(index, slot);
                assert(self.slots() =~= old(self).slots().update(index as int, slot@));
                proof {
                    if old(self).consistent() {
                        let f = match old(self).slots()[index as int] {
                            EditableView::Builder(f) => f,
                            EditableView::Built(f) => f,
                        };
                        assert forall|x: Seq<char>| #[trigger] entry_count(self.ledger(), x)
                            == built_count(self.slots(), x) by {
                            lemma_built_count_update(old(self).slots(), index as int, slot@, x);
                            lemma_count_with_references(old(self).ledger(), form_names(f), x);
                        }
                    }
                }
            }
        }
    }

    /// Reopens the finished recipe at `index` for editing and drops its
    /// references from the ledger; otherwise nothing changes.
    pub fn edit(&mut self, index: usize)
        ensures
            index < old(self).slots().len() ==> match old(self).slots()[index as int] {
                EditableView::Built(f) => final(self).slots() == old(self).slots().update(
                    index as int,
                    EditableView::Builder(f),
                ) && final(self).ledger() == without_references(old(self).ledger(), form_names(f)),
                EditableView::Builder(_) => *final(self) == *old(self),
            },
            index >= old(self).slots().len() ==> *final(self) == *old(self),
            old(self).consistent() ==> final(self).consistent(),
    {
        if index < self.recipes.len() {
            if let EditableContent::Built(r) = &self.recipes[index] {
                proof {
                    lemma_form_names(*r);
                    if old(self).consistent() {
                        assert forall|y: Seq<char>| entry_count(old(self).ledger(), y)
                            >= #[trigger] name_count(reference_names(*r), y) by {
                            lemma_built_count_update(old(self).slots(), index as int, old(self).slots()[index as int], y);
                        }
                        lemma_count_without_references(old(self).ledger(), reference_names(*r));
                    }
                }
                self.items.on_recipe_removed(r);
                let mut slot = self.recipes.remove(index);
                slot.perform(EditableAction::Edit);
                self.recipes.insert(index, slot);
                assert(self.slots() =~= old(self).slots().update(index as int, slot@));
                assert forall|x: Seq<char>|
                    old(self).consistent() implies #[trigger] entry_count(self.ledger(), x)
                    == built_count(self.slots(), x) by {
                    lemma_built_count_update(old(self).slots(), index as int, slot@, x);
                }
            }
        }
    }

    /// Deletes the slot at `index`, first dropping the references of a finished
    /// recipe from the ledger; later slots move down by one. Nothing changes if
    /// there is no such slot.
    pub fn delete(&mut self, index: usize)
        ensures
            index < old(self).slots().len() ==> final(self).slots() == old(self).slots().remove(
                index as int,
            ) && final(self).ledger() == match old(self).slots()[index as int] {
                EditableView::Built(f) => without_references(old(self).ledger(), form_names(f)),
                EditableView::Builder(_) => old(self).ledger(),
            },
            index >= old(self).slots().len() ==> *final(self) == *old(self),
            old(self).consistent() ==> final(self).consistent(),
    {
        if index < self.recipes.len() {
            if let EditableContent::Built(r) = &self.recipes[index] {
                proof {
                    lemma_form_names(*r);
                    if old(self).consistent() {
                        assert forall|y: Seq<char>| entry_count(old(self).ledger(), y)
                            >= #[trigger] name_count(reference_names(*r), y) by {
                            lemma_built_count_update(old(self).slots(), index as int, old(self).slots()[index as int], y);
                        }
                        lemma_count_without_references(old(self).ledger(), reference_names(*r));
                    }
                }
                self.items.on_recipe_removed(r);
            }
            self.recipes.remove(index);
            assert(self.slots() =~= old(self).slots().remove(index as int));
            assert forall|x: Seq<char>|
                old(self).consistent() implies #[trigger] entry_count(self.ledger(), x)
                == built_count(self.slots(), x) by {
                lemma_built_count_remove(old(self).slots(), index as int, x);
            }
        }
    }

    /// Sets or clears the target of `item`; see [`ItemLedger::set_target`].
    pub fn set_target(&mut self, item: &Item, target: Option<TargetAmount>) -> (found: bool)
        requires
            target matches Some(t) ==> t.wf(),
        ensures
            final(self).slots() == old(self).slots(),
            found == contains_name(old(self).ledger(), item@),
            found ==> final(self).ledger() == with_target(
                old(self).ledger(),
                crate::ledger::index_of(old(self).ledger(), item@),
                target,
            ),
            !found ==> final(self).ledger() == old(self).ledger(),
            old(self).consistent() ==> final(self).consistent(),
    {
        let found = self.items.set_target(item, target);
        proof {
            if found && old(self).consistent() {
                let l = old(self).ledger();
                let k = crate::ledger::index_of(l, item@);
                let e = with_target(l, k, target)[k];
                assert(with_target(l, k, target) =~= l.update(k, e));
                assert forall|x: Seq<char>| #[trigger] entry_count(self.ledger(), x) == entry_count(
                    l,
                    x,
                ) by {
                    lemma_count_annotation(l, k, e, x);
                }
            }
        }
        found
    }

    /// Sets or clears the raw cost of `item`; see [`ItemLedger::set_raw_cost`].
    pub fn set_raw_cost(&mut self, item: &Item, raw_cost: Option<TargetAmount>) -> (found: bool)
        requires
            raw_cost matches Some(c) ==> c.wf(),
        ensures
            final(self).slots() == old(self).slots(),
            found == contains_name(old(self).ledger(), item@),
            found ==> final(self).ledger() == with_raw_cost(
                old(self).ledger(),
                crate::ledger::index_of(old(self).ledger(), item@),
                raw_cost,
            ),
            !found ==> final(self).ledger() == old(self).ledger(),
            old(self).consistent() ==> final(self).consistent(),
    {
        let found = self.items.set_raw_cost(item, raw_cost);
        proof {
            if found && old(self).consistent() {
                let l = old(self).ledger();
                let k = crate::ledger::index_of(l, item@);
                let e = with_raw_cost(l, k, raw_cost)[k];
                assert(with_raw_cost(l, k, raw_cost) =~= l.update(k, e));
                assert forall|x: Seq<char>| #[trigger] entry_count(self.ledger(), x) == entry_count(
                    l,
                    x,
                ) by {
                    lemma_count_annotation(l, k, e, x);
                }
            }
        }
        found
    }

    /// The linear program of the slots and the ledger; see [`compile`].
    pub fn compile(&self) -> (r: Result<LinearProgram, OptimizationError>)
        ensures
            compile_outcome(self.recipe_slots(), self.ledger(), r),
    {
        compile(&self.recipes, &self.items)
    }
}

} // verus!
