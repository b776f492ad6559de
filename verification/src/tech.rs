//! Technologies: the four categories, the levels a side has reached, and the
//! catalogue of what can be researched and when.

use vstd::prelude::*;
use crate::side::Side;

verus! {

/// The four categories of military technology.
#[derive(Clone, Copy, Debug, PartialEq, Eq, Hash, PartialOrd, Ord, Structural)]
pub enum TechnologyType {
    Attack,
    Defense,
    Artillery,
    Air,
}

/// The highest level any category can reach.
pub const MAX_TECHNOLOGY_LEVEL: u8 = 4;

/// The highest level that defense can reach.
pub const MAX_DEFENSE_LEVEL: u8 = 3;

/// The highest level that a category can reach: 3 for defense, 4 for the
/// others.
pub open spec fn highest_level(category: TechnologyType) -> u8 {
    if category == TechnologyType::Defense {
        MAX_DEFENSE_LEVEL
    } else {
        MAX_TECHNOLOGY_LEVEL
    }
}

/// The level a side has reached in each category.
#[derive(Clone, Copy, Debug, PartialEq, Eq, Structural)]
pub struct Technologies {
    pub attack: u8,
    pub defense: u8,
    pub artillery: u8,
    pub air: u8,
}

pub open spec fn spec_zero_technologies() -> Technologies {
    Technologies { attack: 0, defense: 0, artillery: 0, air: 0 }
}

/// No technology at all.
#[verifier::when_used_as_spec(spec_zero_technologies)]
pub fn zero_technologies() -> (t: Technologies)
    ensures
        t == spec_zero_technologies(),
{
    Technologies { attack: 0, defense: 0, artillery: 0, air: 0 }
}

/// The technologies a side begins the war with: none.
pub fn initial_technologies() -> (t: Technologies)
    ensures
        t == spec_zero_technologies(),
{
    zero_technologies()
}

/// All categories, in the order in which they are offered to a player.
pub fn all_technology_types() -> (all: Vec<TechnologyType>)
    ensures
        all@ == seq![
            TechnologyType::Attack,
            TechnologyType::Defense,
            TechnologyType::Artillery,
            TechnologyType::Air,
        ],
{
    let mut all: Vec<TechnologyType> = Vec::new();
    all.push(TechnologyType::Attack);
    all.push(TechnologyType::Defense);
    all.push(TechnologyType::Artillery);
    all.push(TechnologyType::Air);
    proof {
        assert(all@ =~= seq![
            TechnologyType::Attack,
            TechnologyType::Defense,
            TechnologyType::Artillery,
            TechnologyType::Air,
        ]);
    }
    all
}

impl Technologies {
    /// Every level is within the bounds of the game: no higher than 3 for
    /// defense, than 4 for the other categories.
    pub open spec fn wf(&self) -> bool {
        &&& self.attack <= MAX_TECHNOLOGY_LEVEL
        &&& self.defense <= MAX_DEFENSE_LEVEL
        &&& self.artillery <= MAX_TECHNOLOGY_LEVEL
        &&& self.air <= MAX_TECHNOLOGY_LEVEL
    }

    pub open spec fn spec_level(&self, category: TechnologyType) -> u8 {
        match category {
            TechnologyType::Attack => self.attack,
            TechnologyType::Defense => self.defense,
            TechnologyType::Artillery => self.artillery,
            TechnologyType::Air => self.air,
        }
    }

    /// The level reached in a category.
    #[verifier::when_used_as_spec(spec_level)]
    pub fn level(&self, category: TechnologyType) -> (l: u8)
        ensures
            l == self.spec_level(category),
    {
        match category {
            TechnologyType::Attack => self.attack,
            TechnologyType::Defense => self.defense,
            TechnologyType::Artillery => self.artillery,
            TechnologyType::Air => self.air,
        }
    }

    /// These levels with one category set to a given level.
    pub open spec fn spec_with_level(&self, category: TechnologyType, level: u8) -> Technologies {
        match category {
            TechnologyType::Attack => Technologies { attack: level, ..*self },
            TechnologyType::Defense => Technologies { defense: level, ..*self },
            TechnologyType::Artillery => Technologies { artillery: level, ..*self },
            TechnologyType::Air => Technologies { air: level, ..*self },
        }
    }

    #[verifier::when_used_as_spec(spec_with_level)]
    pub fn with_level(&self, category: TechnologyType, level: u8) -> (t: Technologies)
        ensures
            t == self.spec_with_level(category, level),
    {
        match category {
            TechnologyType::Attack => Technologies { attack: level, ..*self },
            TechnologyType::Defense => Technologies { defense: level, ..*self },
            TechnologyType::Artillery => Technologies { artillery: level, ..*self },
            TechnologyType::Air => Technologies { air: level, ..*self },
        }
    }

    /// The sum of the four levels.
    pub open spec fn total(&self) -> int {
        self.attack + self.defense + self.artillery + self.air
    }

    /// The four levels: attack, defense, artillery, air.
    pub fn values(&self) -> (levels: Vec<u8>)
        ensures
            levels@ == seq![self.attack, self.defense, self.artillery, self.air],
    {
        let mut levels: Vec<u8> = Vec::new();
        levels.push(self.attack);
        levels.push(self.defense);
        levels.push(self.artillery);
        levels.push(self.air);
        proof {
            assert(levels@ =~= seq![self.attack, self.defense, self.artillery, self.air]);
        }
        levels
    }

    /// No level of `self` is more than one above the same level of
    /// `earlier`.
    pub open spec fn at_most_one_above(&self, earlier: &Technologies) -> bool {
        &&& self.attack <= earlier.attack + 1
        &&& self.defense <= earlier.defense + 1
        &&& self.artillery <= earlier.artillery + 1
        &&& self.air <= earlier.air + 1
    }

    /// No level of `self` is above the same level of `later`.
    pub open spec fn no_higher_than(&self, later: &Technologies) -> bool {
        &&& self.attack <= later.attack
        &&& self.defense <= later.defense
        &&& self.artillery <= later.artillery
        &&& self.air <= later.air
    }
}

/// One entry of the catalogue: what a level of a category is called, from
/// which year it can be researched, and what the research roll must reach.
#[derive(Clone, Copy, Debug, PartialEq, Eq)]
pub struct Technology {
    pub name: &'static str,
    pub date: u16,
    pub category: TechnologyType,
    pub level: u8,
    pub threshold: u8,
}

/// The catalogue. Both sides research the same technologies; defense stops
/// at level 3, the other categories at level 4.
pub open spec fn spec_technology(side: Side, category: TechnologyType, level: u8) -> Option<
    Technology,
> {
    match (category, level) {
        (TechnologyType::Attack, 1) => Some(
            Technology { name: "Combat Gas", date: 1915, category, level, threshold: 4 },
        ),
        (TechnologyType::Attack, 2) => Some(
            Technology { name: "Assault tactics", date: 1916, category, level, threshold: 5 },
        ),
        (TechnologyType::Attack, 3) => Some(
            Technology { name: "Tanks", date: 1917, category, level, threshold: 6 },
        ),
        (TechnologyType::Attack, 4) => Some(
            Technology { name: "Combined arms", date: 1918, category, level, threshold: 7 },
        ),
        (TechnologyType::Defense, 1) => Some(
            Technology { name: "Machine guns", date: 1914, category, level, threshold: 4 },
        ),
        (TechnologyType::Defense, 2) => Some(
            Technology { name: "Trench warfare", date: 1915, category, level, threshold: 5 },
        ),
        (TechnologyType::Defense, 3) => Some(
            Technology { name: "Bunkers", date: 1916, category, level, threshold: 6 },
        ),
        (TechnologyType::Artillery, 1) => Some(
            Technology { name: "Heavy artillery", date: 1915, category, level, threshold: 4 },
        ),
        (TechnologyType::Artillery, 2) => Some(
            Technology { name: "Barrage", date: 1916, category, level, threshold: 5 },
        ),
        (TechnologyType::Artillery, 3) => Some(
            Technology { name: "Rolling barrage", date: 1917, category, level, threshold: 6 },
        ),
        (TechnologyType::Artillery, 4) => Some(
            Technology { name: "Predicted fire", date: 1918, category, level, threshold: 7 },
        ),
        (TechnologyType::Air, 1) => Some(
            Technology { name: "Reco", date: 1915, category, level, threshold: 4 },
        ),
        (TechnologyType::Air, 2) => Some(
            Technology { name: "Fighters", date: 1916, category, level, threshold: 5 },
        ),
        (TechnologyType::Air, 3) => Some(
            Technology { name: "Bombers", date: 1917, category, level, threshold: 6 },
        ),
        (TechnologyType::Air, 4) => Some(
            Technology { name: "Air division", date: 1918, category, level, threshold: 7 },
        ),
        _ => None,
    }
}

/// The technology that a side reaches at a level of a category, if the
/// catalogue has one.
#[verifier::when_used_as_spec(spec_technology)]
pub fn technology(side: Side, category: TechnologyType, level: u8) -> (t: Option<Technology>)
    ensures
        t == spec_technology(side, category, level),
{
    match (category, level) {
        (TechnologyType::Attack, 1) => Some(
            Technology { name: "Combat Gas", date: 1915, category, level, threshold: 4 },
        ),
        (TechnologyType::Attack, 2) => Some(
            Technology { name: "Assault tactics", date: 1916, category, level, threshold: 5 },
        ),
        (TechnologyType::Attack, 3) => Some(
            Technology { name: "Tanks", date: 1917, category, level, threshold: 6 },
        ),
        (TechnologyType::Attack, 4) => Some(
            Technology { name: "Combined arms", date: 1918, category, level, threshold: 7 },
        ),
        (TechnologyType::Defense, 1) => Some(
            Technology { name: "Machine guns", date: 1914, category, level, threshold: 4 },
        ),
        (TechnologyType::Defense, 2) => Some(
            Technology { name: "Trench warfare", date: 1915, category, level, threshold: 5 },
        ),
        (TechnologyType::Defense, 3) => Some(
            Technology { name: "Bunkers", date: 1916, category, level, threshold: 6 },
        ),
        (TechnologyType::Artillery, 1) => Some(
            Technology { name: "Heavy artillery", date: 1915, category, level, threshold: 4 },
        ),
        (TechnologyType::Artillery, 2) => Some(
            Technology { name: "Barrage", date: 1916, category, level, threshold: 5 },
        ),
        (TechnologyType::Artillery, 3) => Some(
            Technology { name: "Rolling barrage", date: 1917, category, level, threshold: 6 },
        ),
        (TechnologyType::Artillery, 4) => Some(
            Technology { name: "Predicted fire", date: 1918, category, level, threshold: 7 },
        ),
        (TechnologyType::Air, 1) => Some(
            Technology { name: "Reco", date: 1915, category, level, threshold: 4 },
        ),
        (TechnologyType::Air, 2) => Some(
            Technology { name: "Fighters", date: 1916, category, level, threshold: 5 },
        ),
        (TechnologyType::Air, 3) => Some(
            Technology { name: "Bombers", date: 1917, category, level, threshold: 6 },
        ),
        (TechnologyType::Air, 4) => Some(
            Technology { name: "Air division", date: 1918, category, level, threshold: 7 },
        ),
        _ => None,
    }
}

/// Every entry of the catalogue carries the category and level it was
/// asked for, a level within bounds, and a threshold of three above its
/// level.
pub proof fn lemma_catalogue_entries(side: Side, category: TechnologyType, level: u8)
    ensures
        match spec_technology(side, category, level) {
            Some(t) => {
                &&& t.category == category
                &&& t.level == level
                &&& 1 <= level <= highest_level(category)
                &&& t.threshold == level + 3
                &&& 1914 <= t.date <= 1918
            },
            None => level == 0 || level > MAX_TECHNOLOGY_LEVEL || (category
                == TechnologyType::Defense && level == 4),
        },
{
}

/// Whether a research roll succeeds: the die, raised by one for each
/// resource spent beyond the first, must reach the threshold.
pub open spec fn spec_research_succeeds(die: u8, pr: u8, threshold: u8) -> bool {
    die + pr - 1 >= threshold
}

#[verifier::when_used_as_spec(spec_research_succeeds)]
pub fn research_succeeds(die: u8, pr: u8, threshold: u8) -> (b: bool)
    ensures
        b == spec_research_succeeds(die, pr, threshold),
{
    let score: u16 = die as u16 + pr as u16;
    score >= threshold as u16 + 1
}

} // verus!
