//! The item ledger: which items the recipes mention, how often, and how each
//! one is constrained.
use vstd::prelude::*;

use crate::recipes::Recipe;
use crate::ui::{Item, TargetAmount};

verus! {

/// What the ledger knows of one item.
#[derive(Debug)]
pub struct LedgerEntry {
    /// The item.
    pub item: Item,
    /// How many ingredient and product entries of the known recipes name the item.
    pub count: usize,
    /// If set, the least net production (produced minus consumed) required.
    pub target: Option<TargetAmount>,
    /// If set, the item can be bought at this cost per unit.
    pub raw_cost: Option<TargetAmount>,
}

/// The mathematical content of a [`LedgerEntry`].
pub struct EntryView {
    pub name: Seq<char>,
    pub count: nat,
    pub target: Option<TargetAmount>,
    pub raw_cost: Option<TargetAmount>,
}

impl View for LedgerEntry {
    type V = EntryView;

    open spec fn view(&self) -> EntryView {
        EntryView {
            name: self.item@,
            count: self.count as nat,
            target: self.target,
            raw_cost: self.raw_cost,
        }
    }
}

/// No two entries have the same name.
pub open spec fn names_unique(l: Seq<EntryView>) -> bool {
    forall|a: int, b: int|
        0 <= a < l.len() && 0 <= b < l.len() && a != b ==> #[trigger] l[a].name != #[trigger] l[b].name
}

/// Every target and cost in the ledger is a well-formed amount.
pub open spec fn amounts_wf(l: Seq<EntryView>) -> bool {
    forall|k: int|
        0 <= k < l.len() ==> (#[trigger] l[k].target matches Some(t) ==> t.wf()) && (
        l[k].raw_cost matches Some(c) ==> c.wf())
}

pub open spec fn ledger_wf(l: Seq<EntryView>) -> bool {
    names_unique(l) && amounts_wf(l)
}

/// Whether some entry has this name.
pub open spec fn contains_name(l: Seq<EntryView>, name: Seq<char>) -> bool {
    exists|k: int| 0 <= k < l.len() && #[trigger] l[k].name == name
}

/// The index of the entry with this name, where there is one.
pub open spec fn index_of(l: Seq<EntryView>, name: Seq<char>) -> int {
    choose|k: int| 0 <= k < l.len() && #[trigger] l[k].name == name
}

/// The entry `e` with its count replaced.
pub open spec fn with_count(e: EntryView, count: nat) -> EntryView {
    EntryView { name: e.name, count, target: e.target, raw_cost: e.raw_cost }
}

/// The ledger after one more reference to `name`: its count grows by one, or a
/// new entry with count one and no annotation is appended.
pub open spec fn with_reference(l: Seq<EntryView>, name: Seq<char>) -> Seq<EntryView> {
    if contains_name(l, name) {
        let k = index_of(l, name);
        l.update(k, with_count(l[k], l[k].count + 1))
    } else {
        l.push(EntryView { name, count: 1, target: None, raw_cost: None })
    }
}

/// The ledger after one reference to `name` is dropped: its count falls by one
/// (not below zero), and the entry leaves the ledger when no reference is left and
/// it has neither a target nor a cost.
pub open spec fn without_reference(l: Seq<EntryView>, name: Seq<char>) -> Seq<EntryView> {
    if contains_name(l, name) {
        let k = index_of(l, name);
        let e = l[k];
        if e.count <= 1 && e.target is None && e.raw_cost is None {
            l.remove(k)
        } else {
            l.update(k, with_count(e, if e.count == 0 { 0 } else { (e.count - 1) as nat }))
        }
    } else {
        l
    }
}

/// [`with_reference`] for each name in turn.
pub open spec fn with_references(l: Seq<EntryView>, names: Seq<Seq<char>>) -> Seq<EntryView>
    decreases names.len(),
{
    if names.len() == 0 {
        l
    } else {
        with_reference(with_references(l, names.drop_last()), names.last())
    }
}

/// [`without_reference`] for each name in turn.
pub open spec fn without_references(l: Seq<EntryView>, names: Seq<Seq<char>>) -> Seq<
    EntryView,
>
    decreases names.len(),
{
    if names.len() == 0 {
        l
    } else {
        without_reference(without_references(l, names.drop_last()), names.last())
    }
}

/// The names of a recipe's ingredients.
pub open spec fn ingredient_names(ingredients: Seq<(Item, u8)>) -> Seq<Seq<char>> {
    ingredients.map_values(|e: (Item, u8)| e.0@)
}

/// The names of a recipe's products.
pub open spec fn product_names(products: Seq<(Item, u8, u8)>) -> Seq<Seq<char>> {
    products.map_values(|e: (Item, u8, u8)| e.0@)
}

/// Every reference a recipe makes: its ingredients' names, then its products'.
pub open spec fn reference_names(r: Recipe<Item>) -> Seq<Seq<char>> {
    ingredient_names(r@.0) + product_names(r@.1)
}

/// `n` more references fit in every count of the ledger.
pub open spec fn references_fit(l: Seq<EntryView>, n: nat) -> bool {
    &&& n <= usize::MAX
    &&& forall|k: int| 0 <= k < l.len() ==> #[trigger] l[k].count + n <= usize::MAX
}

/// The ledger with the target of entry `k` replaced.
pub open spec fn with_target(l: Seq<EntryView>, k: int, target: Option<TargetAmount>) -> Seq<
    EntryView,
> {
    l.update(k, EntryView { name: l[k].name, count: l[k].count, target, raw_cost: l[k].raw_cost })
}

/// The ledger with the raw cost of entry `k` replaced.
pub open spec fn with_raw_cost(l: Seq<EntryView>, k: int, raw_cost: Option<TargetAmount>) -> Seq<
    EntryView,
> {
    l.update(k, EntryView { name: l[k].name, count: l[k].count, target: l[k].target, raw_cost })
}

/// Adding a reference keeps the ledger well formed.
proof fn lemma_with_reference_wf(l: Seq<EntryView>, name: Seq<char>)
    requires
        ledger_wf(l),
    ensures
        ledger_wf(with_reference(l, name)),
{
    let r = with_reference(l, name);
    if contains_name(l, name) {
        let k = index_of(l, name);
        assert forall|a: int, b: int|
            0 <= a < r.len() && 0 <= b < r.len() && a != b implies #[trigger] r[a].name
            != #[trigger] r[b].name by {
            assert(r[a].name == l[a].name && r[b].name == l[b].name);
        }
    } else {
        assert forall|a: int, b: int|
            0 <= a < r.len() && 0 <= b < r.len() && a != b implies #[trigger] r[a].name
            != #[trigger] r[b].name by {
            if a == l.len() {
                assert(l[b].name != name);
            } else if b == l.len() {
                assert(l[a].name != name);
            }
        }
    }
}

/// Dropping a reference keeps the ledger well formed.
proof fn lemma_without_reference_wf(l: Seq<EntryView>, name: Seq<char>)
    requires
        ledger_wf(l),
    ensures
        ledger_wf(without_reference(l, name)),
{
    let r = without_reference(l, name);
    if contains_name(l, name) {
        let k = index_of(l, name);
        let e = l[k];
        if e.count <= 1 && e.target is None && e.raw_cost is None {
            assert forall|a: int, b: int|
                0 <= a < r.len() && 0 <= b < r.len() && a != b implies #[trigger] r[a].name
                != #[trigger] r[b].name by {
                let a2 = if a < k { a } else { a + 1 };
                let b2 = if b < k { b } else { b + 1 };
                assert(r[a] == l[a2] && r[b] == l[b2]);
            }
            assert forall|j: int| 0 <= j < r.len() implies (#[trigger] r[j].target matches Some(
                t,
            ) ==> t.wf()) && (r[j].raw_cost matches Some(c) ==> c.wf()) by {
                let j2 = if j < k { j } else { j + 1 };
                assert(r[j] == l[j2]);
            }
        } else {
            assert forall|a: int, b: int|
                0 <= a < r.len() && 0 <= b < r.len() && a != b implies #[trigger] r[a].name
                != #[trigger] r[b].name by {
                assert(r[a].name == l[a].name && r[b].name == l[b].name);
            }
        }
    }
}

/// One more reference still leaves room for `n` others.
proof fn lemma_with_reference_fit(l: Seq<EntryView>, name: Seq<char>, n: nat)
    requires
        references_fit(l, n + 1),
    ensures
        references_fit(with_reference(l, name), n),
{
    let r = with_reference(l, name);
    assert forall|k: int| 0 <= k < r.len() implies #[trigger] r[k].count + n <= usize::MAX by {
        if k < l.len() {
            assert(l[k].count + n + 1 <= usize::MAX);
        }
    }
}

/// How many references the ledger records for `name`; zero without an entry.
pub open spec fn entry_count(l: Seq<EntryView>, name: Seq<char>) -> nat {
    if contains_name(l, name) {
        l[index_of(l, name)].count
    } else {
        0
    }
}

/// How many times `name` occurs in `names`.
pub open spec fn name_count(names: Seq<Seq<char>>, name: Seq<char>) -> nat
    decreases names.len(),
{
    if names.len() == 0 {
        0
    } else {
        name_count(names.drop_last(), name) + if names.last() == name {
            1nat
        } else {
            0nat
        }
    }
}

/// In a ledger without repeated names, the entry named `name` is at `k`.
proof fn lemma_index_of(l: Seq<EntryView>, k: int, name: Seq<char>)
    requires
        names_unique(l),
        0 <= k < l.len(),
        l[k].name == name,
    ensures
        contains_name(l, name),
        index_of(l, name) == k,
{
    assert(l[k].name == name);
    let c = index_of(l, name);
    if c != k {
        assert(l[c].name != l[k].name);
    }
}

/// Replacing an entry by one of the same name changes only that name's count.
proof fn lemma_count_update(l: Seq<EntryView>, k: int, e: EntryView, x: Seq<char>)
    requires
        names_unique(l),
        0 <= k < l.len(),
        l[k].name == e.name,
    ensures
        names_unique(l.update(k, e)),
        entry_count(l.update(k, e), x) == if x == e.name {
            e.count
        } else {
            entry_count(l, x)
        },
{
    let r = l.update(k, e);
    assert forall|a: int, b: int|
        0 <= a < r.len() && 0 <= b < r.len() && a != b implies #[trigger] r[a].name
        != #[trigger] r[b].name by {
        assert(r[a].name == l[a].name && r[b].name == l[b].name);
    }
    if x == e.name {
        lemma_index_of(r, k, x);
    } else if contains_name(l, x) {
        let j = index_of(l, x);
        lemma_index_of(r, j, x);
    } else {
        if contains_name(r, x) {
            let j = index_of(r, x);
            assert(l[j].name == x);
        }
    }
}

/// One more reference to `n` adds one to its count and changes no other.
proof fn lemma_count_with_reference(l: Seq<EntryView>, n: Seq<char>, x: Seq<char>)
    requires
        ledger_wf(l),
    ensures
        entry_count(with_reference(l, n), x) == entry_count(l, x) + if x == n {
            1nat
        } else {
            0nat
        },
{
    if contains_name(l, n) {
        let k = index_of(l, n);
        lemma_count_update(l, k, with_count(l[k], l[k].count + 1), x);
        lemma_index_of(l, k, n);
    } else {
        let r = with_reference(l, n);
        lemma_with_reference_wf(l, n);
        if x == n {
            lemma_index_of(r, l.len() as int, n);
        } else if contains_name(l, x) {
            let j = index_of(l, x);
            lemma_index_of(r, j, x);
        } else if contains_name(r, x) {
            let j = index_of(r, x);
            assert(l[j].name == x);
        }
    }
}

/// References added one by one add their number of occurrences to each count.
pub proof fn lemma_count_with_references(l: Seq<EntryView>, ns: Seq<Seq<char>>, x: Seq<char>)
    requires
        ledger_wf(l),
    ensures
        ledger_wf(with_references(l, ns)),
        entry_count(with_references(l, ns), x) == entry_count(l, x) + name_count(ns, x),
    decreases ns.len(),
{
    if ns.len() > 0 {
        lemma_count_with_references(l, ns.drop_last(), x);
        let m = with_references(l, ns.drop_last());
        lemma_count_with_reference(m, ns.last(), x);
        lemma_with_reference_wf(m, ns.last());
    }
}

/// Dropping a reference to `n`, which has one, takes one from its count and
/// changes no other.
proof fn lemma_count_without_reference(l: Seq<EntryView>, n: Seq<char>, x: Seq<char>)
    requires
        ledger_wf(l),
        entry_count(l, n) >= 1,
    ensures
        entry_count(without_reference(l, n), x) == entry_count(l, x) - if x == n {
            1int
        } else {
            0int
        },
{
    let k = index_of(l, n);
    let e = l[k];
    let r = without_reference(l, n);
    lemma_without_reference_wf(l, n);
    if e.count <= 1 && e.target is None && e.raw_cost is None {
        if x == n {
            if contains_name(r, x) {
                let j = index_of(r, x);
                let j2 = if j < k { j } else { j + 1 };
                assert(r[j] == l[j2]);
                assert(l[j2].name != l[k].name);
            }
        } else if contains_name(l, x) {
            let j = index_of(l, x);
            assert(j != k);
            let j1 = if j < k { j } else { j - 1 };
            assert(r[j1] == l[j]);
            lemma_index_of(r, j1, x);
        } else if contains_name(r, x) {
            let j = index_of(r, x);
            let j2 = if j < k { j } else { j + 1 };
            assert(r[j] == l[j2]);
        }
    } else {
        lemma_count_update(l, k, with_count(e, (e.count - 1) as nat), x);
    }
}

/// References dropped one by one take their number of occurrences from each
/// count, provided every count covers them.
pub proof fn lemma_count_without_references(l: Seq<EntryView>, ns: Seq<Seq<char>>)
    requires
        ledger_wf(l),
        forall|y: Seq<char>| entry_count(l, y) >= #[trigger] name_count(ns, y),
    ensures
        ledger_wf(without_references(l, ns)),
        forall|y: Seq<char>|
            #[trigger] entry_count(without_references(l, ns), y) == entry_count(l, y) - name_count(
                ns,
                y,
            ),
    decreases ns.len(),
{
    if ns.len() > 0 {
        let d = ns.drop_last();
        assert forall|y: Seq<char>| entry_count(l, y) >= #[trigger] name_count(d, y) by {
            assert(name_count(ns, y) >= name_count(d, y));
        }
        lemma_count_without_references(l, d);
        let m = without_references(l, d);
        assert(name_count(ns, ns.last()) == name_count(d, ns.last()) + 1);
        assert(entry_count(m, ns.last()) >= 1);
        lemma_without_reference_wf(m, ns.last());
        assert forall|y: Seq<char>|
            #[trigger] entry_count(without_references(l, ns), y) == entry_count(l, y) - name_count(
                ns,
                y,
            ) by {
            lemma_count_without_reference(m, ns.last(), y);
        }
    }
}

/// Changing an entry's target or raw cost leaves every count as it was.
pub proof fn lemma_count_annotation(l: Seq<EntryView>, k: int, e: EntryView, x: Seq<char>)
    requires
        ledger_wf(l),
        0 <= k < l.len(),
        e.name == l[k].name,
        e.count == l[k].count,
    ensures
        entry_count(l.update(k, e), x) == entry_count(l, x),
{
    lemma_count_update(l, k, e, x);
    if x == e.name {
        lemma_index_of(l, k, x);
    }
}

/// Items known to the planner, each with its reference count and annotations.
///
/// Entries keep the order in which their items were first referenced; no two
/// have the same name.
#[derive(Debug)]
pub struct ItemLedger {
    entries: Vec<LedgerEntry>,
}

impl View for ItemLedger {
    type V = Seq<EntryView>;

    closed spec fn view(&self) -> Seq<EntryView> {
        self.entries@.map_values(|e: LedgerEntry| e@)
    }
}

impl ItemLedger {
    #[verifier::type_invariant]
    spec fn inv(&self) -> bool {
        ledger_wf(self@)
    }

    /// An empty ledger.
    pub fn new() -> (r: ItemLedger)
        ensures
            r@ == Seq::<EntryView>::empty(),
    {
        let r = ItemLedger { entries: Vec::new() };
        assert(r@ =~= Seq::<EntryView>::empty());
        r
    }

    /// The number of known items.
    pub fn len(&self) -> (r: usize)
        ensures
            r == self@.len(),
    {
        self.entries.len()
    }

    /// The entries, in ledger order.
    pub fn entries(&self) -> (r: &Vec<LedgerEntry>)
        ensures
            r@.map_values(|e: LedgerEntry| e@) == self@,
            ledger_wf(self@),
    {
        proof {
            use_type_invariant(self);
        }
        &self.entries
    }

    /// The index of the entry for `item`, if the ledger knows it.
    pub fn find(&self, item: &Item) -> (r: Option<usize>)
        ensures
            r matches Some(k) ==> k < self@.len() && self@[k as int].name == item@ && k
                == index_of(self@, item@),
            r is None <==> !contains_name(self@, item@),
    {
        proof {
            use_type_invariant(self);
        }
        let mut k: usize = 0;
        while k < self.entries.len()
            invariant
                0 <= k <= self.entries@.len(),
                self@.len() == self.entries@.len(),
                ledger_wf(self@),
                forall|j: int| 0 <= j < k ==> #[trigger] self@[j].name != item@,
            decreases self.entries.len() - k,
        {
            if self.entries[k].item.same_as(item) {
                assert(self@[k as int].name == item@);
                proof {
                    let c = index_of(self@, item@);
                    assert(self@[c].name == item@);
                    assert(names_unique(self@));
                    if c != k as int {
                        assert(self@[c].name != self@[k as int].name);
                    }
                }
                return Some(k);
            }
            k += 1;
        }
        assert(!contains_name(self@, item@)) by {
            if contains_name(self@, item@) {
                let c = choose|c: int| 0 <= c < self@.len() && #[trigger] self@[c].name == item@;
                assert(self@[c].name != item@);
            }
        }
        None
    }

    /// Moves the entries out, leaving the ledger empty.
    fn take_entries(&mut self) -> (r: Vec<LedgerEntry>)
        ensures
            r@.map_values(|e: LedgerEntry| e@) == old(self)@,
            ledger_wf(old(self)@),
            final(self)@.len() == 0,
    {
        proof {
            use_type_invariant(&*self);
        }
        let mut entries: Vec<LedgerEntry> = Vec::new();
        std::mem::swap(&mut entries, &mut self.entries);
        assert(self@ =~= Seq::<EntryView>::empty());
        entries
    }

    /// Records the references that a recipe, newly added to the collection, makes
    /// to its ingredients and then its products.
    ///
    /// An item referenced for the first time gets an entry with count one and no
    /// annotation.
    pub fn on_recipe_added(&mut self, recipe: &Recipe<Item>)
        requires
            references_fit(old(self)@, reference_names(*recipe).len()),
        ensures
            ledger_wf(final(self)@),
            final(self)@ == with_references(old(self)@, reference_names(*recipe)),
    {
        let ghost start = self@;
        let ingredients = recipe.get_ingredients();
        let products = recipe.get_products();
        let ghost ing = ingredient_names(ingredients@);
        let ghost prod = product_names(products@);
        let ghost total = reference_names(*recipe).len();
        let mut i: usize = 0;
        while i < ingredients.len()
            invariant
                0 <= i <= ingredients@.len(),
                ing == ingredient_names(ingredients@),
                total == ingredients@.len() + products@.len(),
                self@ == with_references(start, ing.take(i as int)),
                references_fit(self@, (total - i) as nat),
            decreases ingredients.len() - i,
        {
            proof {
                assert(ing.take(i + 1).drop_last() =~= ing.take(i as int));
                lemma_with_reference_fit(self@, ing[i as int], (total - i - 1) as nat);
            }
            self.add_reference(&ingredients[i].0);
            i += 1;
        }
        assert(ing.take(i as int) =~= ing + prod.take(0));
        let mut j: usize = 0;
        while j < products.len()
            invariant
                0 <= j <= products@.len(),
                ing == ingredient_names(ingredients@),
                prod == product_names(products@),
                total == ingredients@.len() + products@.len(),
                self@ == with_references(start, ing + prod.take(j as int)),
                references_fit(self@, (total - ing.len() - j) as nat),
            decreases products.len() - j,
        {
            proof {
                assert((ing + prod.take(j + 1)).drop_last() =~= ing + prod.take(j as int));
                lemma_with_reference_fit(self@, prod[j as int], (total - ing.len() - j - 1) as nat);
            }
            self.add_reference(&products[j].0);
            j += 1;
        }
        assert(ing + prod.take(j as int) =~= reference_names(*recipe));
        proof {
            use_type_invariant(&*self);
        }
    }

    /// Drops the references that a recipe, about to leave the collection, makes to
    /// its ingredients and then its products.
    ///
    /// An entry whose count falls to zero leaves the ledger unless it has a target
    /// or a raw cost.
    pub fn on_recipe_removed(&mut self, recipe: &Recipe<Item>)
        ensures
            ledger_wf(final(self)@),
            final(self)@ == without_references(old(self)@, reference_names(*recipe)),
    {
        let ghost start = self@;
        let ingredients = recipe.get_ingredients();
        let products = recipe.get_products();
        let ghost ing = ingredient_names(ingredients@);
        let ghost prod = product_names(products@);
        let mut i: usize = 0;
        while i < ingredients.len()
            invariant
                0 <= i <= ingredients@.len(),
                ing == ingredient_names(ingredients@),
                self@ == without_references(start, ing.take(i as int)),
            decreases ingredients.len() - i,
        {
            proof {
                assert(ing.take(i + 1).drop_last() =~= ing.take(i as int));
            }
            self.remove_reference(&ingredients[i].0);
            i += 1;
        }
        assert(ing.take(i as int) =~= ing + prod.take(0));
        let mut j: usize = 0;
        while j < products.len()
            invariant
                0 <= j <= products@.len(),
                ing == ingredient_names(ingredients@),
                prod == product_names(products@),
                self@ == without_references(start, ing + prod.take(j as int)),
            decreases products.len() - j,
        {
            proof {
                assert((ing + prod.take(j + 1)).drop_last() =~= ing + prod.take(j as int));
            }
            self.remove_reference(&products[j].0);
            j += 1;
        }
        assert(ing + prod.take(j as int) =~= reference_names(*recipe));
        proof {
            use_type_invariant(&*self);
        }
    }

    /// Sets (`Some`) or clears (`None`) the target of `item`. Returns whether the
    /// ledger knows the item; if it does not, nothing changes.
    pub fn set_target(&mut self, item: &Item, target: Option<TargetAmount>) -> (found: bool)
        requires
            target matches Some(t) ==> t.wf(),
        ensures
            ledger_wf(final(self)@),
            found == contains_name(old(self)@, item@),
            found ==> final(self)@ == with_target(old(self)@, index_of(old(self)@, item@), target),
            !found ==> final(self)@ == old(self)@,
    {
        proof {
            use_type_invariant(&*self);
        }
        match self.find(item) {
            Some(k) => {
                let e = LedgerEntry {
                    item: self.entries[k].item.duplicate(),
                    count: self.entries[k].count,
                    target,
                    raw_cost: self.entries[k].raw_cost,
                };
                let mut entries = self.take_entries();
                entries.set(k, e);
                proof {
                    let l = old(self)@;
                    let r = with_target(l, k as int, target);
                    assert(entries@.map_values(|e: LedgerEntry| e@) =~= r);
                    assert forall|a: int, b: int|
                        0 <= a < r.len() && 0 <= b < r.len() && a != b implies #[trigger] r[a].name
                        != #[trigger] r[b].name by {
                        assert(r[a].name == l[a].name && r[b].name == l[b].name);
                    }
                }
                *self = ItemLedger { entries };
                true
            },
            None => false,
        }
    }

    /// Sets (`Some`) or clears (`None`) the raw cost of `item`. Returns whether the
    /// ledger knows the item; if it does not, nothing changes.
    pub fn set_raw_cost(&mut self, item: &Item, raw_cost: Option<TargetAmount>) -> (found: bool)
        requires
            raw_cost matches Some(c) ==> c.wf(),
        ensures
            ledger_wf(final(self)@),
            found == contains_name(old(self)@, item@),
            found ==> final(self)@ == with_raw_cost(
                old(self)@,
                index_of(old(self)@, item@),
                raw_cost,
            ),
            !found ==> final(self)@ == old(self)@,
    {
        proof {
            use_type_invariant(&*self);
        }
        match self.find(item) {
            Some(k) => {
                let e = LedgerEntry {
                    item: self.entries[k].item.duplicate(),
                    count: self.entries[k].count,
                    target: self.entries[k].target,
                    raw_cost,
                };
                let mut entries = self.take_entries();
                entries.set(k, e);
                proof {
                    let l = old(self)@;
                    let r = with_raw_cost(l, k as int, raw_cost);
                    assert(entries@.map_values(|e: LedgerEntry| e@) =~= r);
                    assert forall|a: int, b: int|
                        0 <= a < r.len() && 0 <= b < r.len() && a != b implies #[trigger] r[a].name
                        != #[trigger] r[b].name by {
                        assert(r[a].name == l[a].name && r[b].name == l[b].name);
                    }
                }
                *self = ItemLedger { entries };
                true
            },
            None => false,
        }
    }

    /// Records one more reference to `item`.
    fn add_reference(&mut self, item: &Item)
        requires
            references_fit(old(self)@, 1),
        ensures
            final(self)@ == with_reference(old(self)@, item@),
    {
        proof {
            use_type_invariant(&*self);
        }
        match self.find(item) {
            Some(k) => {
                let e = LedgerEntry {
                    item: self.entries[k].item.duplicate(),
                    count: self.entries[k].count + 1,
                    target: self.entries[k].target,
                    raw_cost: self.entries[k].raw_cost,
                };
                let mut entries = self.take_entries();
                entries.set(k, e);
                proof {
                    assert(entries@.map_values(|e: LedgerEntry| e@) =~= with_reference(
                        old(self)@,
                        item@,
                    ));
                    lemma_with_reference_wf(old(self)@, item@);
                }
                *self = ItemLedger { entries };
            },
            None => {
                let mut entries = self.take_entries();
                entries.push(
                    LedgerEntry { item: item.duplicate(), count: 1, target: None, raw_cost: None },
                );
                proof {
                    assert(entries@.map_values(|e: LedgerEntry| e@) =~= with_reference(
                        old(self)@,
                        item@,
                    ));
                    lemma_with_reference_wf(old(self)@, item@);
                }
                *self = ItemLedger { entries };
            },
        }
    }

    /// Drops one reference to `item`, evicting its entry when nothing is left of it.
    fn remove_reference(&mut self, item: &Item)
        ensures
            final(self)@ == without_reference(old(self)@, item@),
    {
        proof {
            use_type_invariant(&*self);
        }
        match self.find(item) {
            Some(k) => {
                let count = self.entries[k].count;
                if count <= 1 && self.entries[k].target.is_none()
                    && self.entries[k].raw_cost.is_none() {
                    let mut entries = self.take_entries();
                    entries.remove(k);
                    proof {
                        assert(entries@.map_values(|e: LedgerEntry| e@) =~= without_reference(
                            old(self)@,
                            item@,
                        ));
                        lemma_without_reference_wf(old(self)@, item@);
                    }
                    *self = ItemLedger { entries };
                } else {
                    let e = LedgerEntry {
                        item: self.entries[k].item.duplicate(),
                        count: if count == 0 {
                            0
                        } else {
                            count - 1
                        },
                        target: self.entries[k].target,
                        raw_cost: self.entries[k].raw_cost,
                    };
                    let mut entries = self.take_entries();
                    entries.set(k, e);
                    proof {
                        assert(entries@.map_values(|e: LedgerEntry| e@) =~= without_reference(
                            old(self)@,
                            item@,
                        ));
                        lemma_without_reference_wf(old(self)@, item@);
                    }
                    *self = ItemLedger { entries };
                }
            },
            None => {},
        }
    }
}

} // verus!
