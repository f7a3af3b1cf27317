//! The preset buttons on the menu's top row: one-click answers to "what do I
//! want auto-loot to pick up", each a choice of the four gather families.

use vstd::prelude::*;

verus! {

#[derive(Debug, Clone, Copy, PartialEq, Eq, Structural)]
pub enum Preset {
    /// All four families.
    Everything,
    /// Foraging: plants, fruit, berries, mushrooms, crops.
    PlantsOnly,
    /// Logging: firewood from felled trees.
    WoodOnly,
    /// Mining and Ore Nodes together.
    RockAndOre,
}

/// The four buttons, in the order they are drawn.
pub const ALL: [Preset; 4] = [Preset::Everything, Preset::PlantsOnly, Preset::WoodOnly, Preset::RockAndOre];

pub open spec fn label_of(p: Preset) -> Seq<char> {
    match p {
        Preset::Everything => "Everything"@,
        Preset::PlantsOnly => "Plants only"@,
        Preset::WoodOnly => "Wood only"@,
        Preset::RockAndOre => "Rock and ore only"@,
    }
}

pub open spec fn hint_of(p: Preset) -> Seq<char> {
    match p {
        Preset::Everything => "All four gather families, plus ground items."@,
        Preset::PlantsOnly => "Foraging only: plants, fruit, berries, mushrooms, crops."@,
        Preset::WoodOnly => "Logging only: firewood from felled trees."@,
        Preset::RockAndOre => "Mining and Ore Nodes: rocks, veins, ore deposits."@,
    }
}

/// `(foraging, logging, mining, ore)` each preset switches on.
pub open spec fn families_of(p: Preset) -> (bool, bool, bool, bool) {
    match p {
        Preset::Everything => (true, true, true, true),
        Preset::PlantsOnly => (true, false, false, false),
        Preset::WoodOnly => (false, true, false, false),
        Preset::RockAndOre => (false, false, true, true),
    }
}

impl Preset {
    /// The button's label.
    pub fn label(self) -> (r: &'static str)
        ensures
            r@ == label_of(self),
    {
        match self {
            Preset::Everything => "Everything",
            Preset::PlantsOnly => "Plants only",
            Preset::WoodOnly => "Wood only",
            Preset::RockAndOre => "Rock and ore only",
        }
    }

    /// One line of explanation, shown as the button's tooltip.
    pub fn hint(self) -> (r: &'static str)
        ensures
            r@ == hint_of(self),
    {
        match self {
            Preset::Everything => "All four gather families, plus ground items.",
            Preset::PlantsOnly => "Foraging only: plants, fruit, berries, mushrooms, crops.",
            Preset::WoodOnly => "Logging only: firewood from felled trees.",
            Preset::RockAndOre => "Mining and Ore Nodes: rocks, veins, ore deposits.",
        }
    }

    /// `(foraging, logging, mining, ore)`.
    pub fn families(self) -> (r: (bool, bool, bool, bool))
        ensures
            r == families_of(self),
    {
        match self {
            Preset::Everything => (true, true, true, true),
            Preset::PlantsOnly => (true, false, false, false),
            Preset::WoodOnly => (false, true, false, false),
            Preset::RockAndOre => (false, false, true, true),
        }
    }
}

/// Every preset chooses a different set of families, so no two buttons do
/// the same thing.
pub proof fn lemma_presets_distinct(a: Preset, b: Preset)
    requires
        a != b,
    ensures
        families_of(a) != families_of(b),
{
}

} // verus!
