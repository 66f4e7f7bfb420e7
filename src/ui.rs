//! Plain values shared by the planner: items, amounts and title levels.
use vstd::prelude::*;

pub mod amount;
pub mod recipe;

verus! {

/// An item, identified by its name (case-sensitive).
#[derive(Default, Debug, Clone, PartialEq, Eq, PartialOrd, Ord, Hash)]
pub struct Item {
    name: String,
}

impl View for Item {
    type V = Seq<char>;

    closed spec fn view(&self) -> Seq<char> {
        self.name@
    }
}

impl Item {
    /// Creates a new item with the given name.
    pub fn new(name: &str) -> (r: Item)
        ensures
            r@ == name@,
    {
        Item { name: name.to_string() }
    }

    /// Returns the name of the item.
    pub fn get_name(&self) -> (r: &String)
        ensures
            r@ == self@,
    {
        &self.name
    }

    /// A copy of this item, with the same name.
    pub fn duplicate(&self) -> (r: Item)
        ensures
            r@ == self@,
    {
        Item { name: self.name.clone() }
    }

    /// Whether two items have the same name.
    pub fn same_as(&self, other: &Item) -> (r: bool)
        ensures
            r == (self@ == other@),
    {
        self.name == other.name
    }
}

/// A title level.
#[derive(Debug, Clone, Copy, PartialEq, Eq)]
pub enum TitleLevel {
    /// The title of a section.
    SectionTitle,
    /// The title of a subsection.
    SubSectionTitle,
    /// Bold text.
    Bald,
}

/// A non-negative exact amount, `numer / denom` with `denom > 0`.
///
/// Used for production targets and for unit costs of raw materials.
#[derive(Debug, Clone, Copy, PartialEq, Eq, Hash)]
pub struct TargetAmount {
    /// Numerator of the amount.
    pub numer: u64,
    /// Denominator of the amount, never zero in a well-formed amount.
    pub denom: u64,
}

impl TargetAmount {
    /// A well-formed amount has a positive denominator.
    pub open spec fn wf(self) -> bool {
        self.denom > 0
    }

    /// The amount `numer / denom`, or `None` when `denom` is zero.
    pub fn new(numer: u64, denom: u64) -> (r: Option<TargetAmount>)
        ensures
            denom == 0 <==> r is None,
            r matches Some(a) ==> a.numer == numer && a.denom == denom && a.wf(),
    {
        if denom == 0 {
            None
        } else {
            Some(TargetAmount { numer, denom })
        }
    }

    /// The whole amount `n`.
    pub fn from_integer(n: u64) -> (r: TargetAmount)
        ensures
            r.numer == n,
            r.denom == 1,
            r.wf(),
    {
        TargetAmount { numer: n, denom: 1 }
    }

    /// The amount zero.
    pub fn zero() -> (r: TargetAmount)
        ensures
            r.numer == 0,
            r.denom == 1,
            r.wf(),
    {
        TargetAmount { numer: 0, denom: 1 }
    }
}

impl Default for TargetAmount {
    /// One unit.
    fn default() -> (r: TargetAmount)
        ensures
            r.numer == 1,
            r.denom == 1,
    {
        TargetAmount { numer: 1, denom: 1 }
    }
}

/// Why a text could not be read as a [`TargetAmount`].
#[derive(Debug, Clone, Copy, PartialEq, Eq)]
pub enum ParseTargetAmountError {
    /// The text is not a decimal number.
    Parse,
    /// The number is negative.
    Negative,
    /// The number needs a numerator or a denominator beyond `u64`.
    OutOfRange,
}

} // verus!
