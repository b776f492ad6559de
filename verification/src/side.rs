//! Sides, nations and their static attributes.

use vstd::prelude::*;

verus! {

/// One of the two alliances that face each other.
#[derive(Clone, Copy, Debug, PartialEq, Eq, Hash, PartialOrd, Ord, Structural)]
pub enum Side {
    Allies,
    Empires,
}

impl Side {
    pub open spec fn spec_other(&self) -> Side {
        match self {
            Side::Allies => Side::Empires,
            Side::Empires => Side::Allies,
        }
    }

    /// The opposing side.
    #[verifier::when_used_as_spec(spec_other)]
    pub fn other(&self) -> (r: Side)
        ensures
            r == self.spec_other(),
    {
        match self {
            Side::Allies => Side::Empires,
            Side::Empires => Side::Allies,
        }
    }
}

/// The nations of the game, the Allies first. The order of the variants is
/// the order in which nations are listed everywhere.
#[derive(Clone, Copy, Debug, PartialEq, Eq, Hash, PartialOrd, Ord, Structural)]
pub enum Nation {
    France,
    Italy,
    Russia,
    Egypt,
    Serbia,
    Romania,
    Greece,
    FrenchAfrica,
    Germany,
    AustriaHungary,
    OttomanEmpire,
    Bulgaria,
    GermanAfrica,
}

/// How many nations there are.
pub const NATION_COUNT: usize = 13;

/// The static attributes of a nation.
#[derive(Clone, Copy, Debug, PartialEq, Eq, Structural)]
pub struct Country {
    pub nation: Nation,
    pub side: Side,
    /// Highest technology level this nation's troops can make use of.
    pub max_tech_level: u8,
    /// Resources brought to its side at each collection.
    pub resources: u8,
    /// What a die, with its modifiers, must reach for an attack to hit.
    pub attack_factor: u8,
    /// Victory points given to the enemy when the nation surrenders.
    pub vp: u8,
    /// Breakdown at which the nation joins a war; reinforcements may bring
    /// it one step above.
    pub initial_breakdown: u8,
}

impl Nation {
    pub open spec fn spec_index(self) -> int {
        match self {
            Nation::France => 0,
            Nation::Italy => 1,
            Nation::Russia => 2,
            Nation::Egypt => 3,
            Nation::Serbia => 4,
            Nation::Romania => 5,
            Nation::Greece => 6,
            Nation::FrenchAfrica => 7,
            Nation::Germany => 8,
            Nation::AustriaHungary => 9,
            Nation::OttomanEmpire => 10,
            Nation::Bulgaria => 11,
            Nation::GermanAfrica => 12,
        }
    }

    /// Position of the nation in the list of all nations.
    pub fn index(&self) -> (i: usize)
        ensures
            i == self.spec_index(),
            i < NATION_COUNT,
    {
        match self {
            Nation::France => 0,
            Nation::Italy => 1,
            Nation::Russia => 2,
            Nation::Egypt => 3,
            Nation::Serbia => 4,
            Nation::Romania => 5,
            Nation::Greece => 6,
            Nation::FrenchAfrica => 7,
            Nation::Germany => 8,
            Nation::AustriaHungary => 9,
            Nation::OttomanEmpire => 10,
            Nation::Bulgaria => 11,
            Nation::GermanAfrica => 12,
        }
    }

    pub open spec fn spec_from_index(i: int) -> Nation {
        if i == 0 {
            Nation::France
        } else if i == 1 {
            Nation::Italy
        } else if i == 2 {
            Nation::Russia
        } else if i == 3 {
            Nation::Egypt
        } else if i == 4 {
            Nation::Serbia
        } else if i == 5 {
            Nation::Romania
        } else if i == 6 {
            Nation::Greece
        } else if i == 7 {
            Nation::FrenchAfrica
        } else if i == 8 {
            Nation::Germany
        } else if i == 9 {
            Nation::AustriaHungary
        } else if i == 10 {
            Nation::OttomanEmpire
        } else if i == 11 {
            Nation::Bulgaria
        } else {
            Nation::GermanAfrica
        }
    }

    /// The nation at a position of the list of all nations.
    pub fn from_index(i: usize) -> (n: Nation)
        requires
            i < NATION_COUNT,
        ensures
            n == Nation::spec_from_index(i as int),
            n.spec_index() == i,
    {
        if i == 0 {
            Nation::France
        } else if i == 1 {
            Nation::Italy
        } else if i == 2 {
            Nation::Russia
        } else if i == 3 {
            Nation::Egypt
        } else if i == 4 {
            Nation::Serbia
        } else if i == 5 {
            Nation::Romania
        } else if i == 6 {
            Nation::Greece
        } else if i == 7 {
            Nation::FrenchAfrica
        } else if i == 8 {
            Nation::Germany
        } else if i == 9 {
            Nation::AustriaHungary
        } else if i == 10 {
            Nation::OttomanEmpire
        } else if i == 11 {
            Nation::Bulgaria
        } else {
            Nation::GermanAfrica
        }
    }

    /// All nations, in order.
    pub fn values() -> (all: Vec<Nation>)
        ensures
            all@.len() == NATION_COUNT,
            forall|i: int| 0 <= i < NATION_COUNT ==> all@[i] == Nation::spec_from_index(i),
    {
        let mut all: Vec<Nation> = Vec::new();
        let mut i: usize = 0;
        while i < NATION_COUNT
            invariant
                i <= NATION_COUNT,
                all@.len() == i,
                forall|j: int| 0 <= j < i ==> all@[j] == Nation::spec_from_index(j),
            decreases NATION_COUNT - i,
        {
            all.push(Nation::from_index(i));
            i += 1;
        }
        all
    }

    pub open spec fn spec_country(&self) -> Country {
        match self {
            Nation::France => Country {
                nation: Nation::France,
                side: Side::Allies,
                max_tech_level: 3,
                resources: 6,
                attack_factor: 4,
                vp: 6,
                initial_breakdown: 6,
            },
            Nation::Italy => Country {
                nation: Nation::Italy,
                side: Side::Allies,
                max_tech_level: 2,
                resources: 2,
                attack_factor: 5,
                vp: 2,
                initial_breakdown: 5,
            },
            Nation::Russia => Country {
                nation: Nation::Russia,
                side: Side::Allies,
                max_tech_level: 2,
                resources: 0,
                attack_factor: 5,
                vp: 5,
                initial_breakdown: 6,
            },
            Nation::Egypt => Country {
                nation: Nation::Egypt,
                side: Side::Allies,
                max_tech_level: 2,
                resources: 1,
                attack_factor: 5,
                vp: 1,
                initial_breakdown: 3,
            },
            Nation::Serbia => Country {
                nation: Nation::Serbia,
                side: Side::Allies,
                max_tech_level: 2,
                resources: 0,
                attack_factor: 5,
                vp: 1,
                initial_breakdown: 2,
            },
            Nation::Romania => Country {
                nation: Nation::Romania,
                side: Side::Allies,
                max_tech_level: 2,
                resources: 1,
                attack_factor: 5,
                vp: 1,
                initial_breakdown: 3,
            },
            Nation::Greece => Country {
                nation: Nation::Greece,
                side: Side::Allies,
                max_tech_level: 2,
                resources: 1,
                attack_factor: 5,
                vp: 1,
                initial_breakdown: 3,
            },
            Nation::FrenchAfrica => Country {
                nation: Nation::FrenchAfrica,
                side: Side::Allies,
                max_tech_level: 1,
                resources: 1,
                attack_factor: 5,
                vp: 1,
                initial_breakdown: 3,
            },
            Nation::Germany => Country {
                nation: Nation::Germany,
                side: Side::Empires,
                max_tech_level: 3,
                resources: 6,
                attack_factor: 3,
                vp: 8,
                initial_breakdown: 7,
            },
            Nation::AustriaHungary => Country {
                nation: Nation::AustriaHungary,
                side: Side::Empires,
                max_tech_level: 2,
                resources: 2,
                attack_factor: 5,
                vp: 4,
                initial_breakdown: 4,
            },
            Nation::OttomanEmpire => Country {
                nation: Nation::OttomanEmpire,
                side: Side::Empires,
                max_tech_level: 2,
                resources: 1,
                attack_factor: 5,
                vp: 2,
                initial_breakdown: 4,
            },
            Nation::Bulgaria => Country {
                nation: Nation::Bulgaria,
                side: Side::Empires,
                max_tech_level: 2,
                resources: 1,
                attack_factor: 5,
                vp: 1,
                initial_breakdown: 3,
            },
            Nation::GermanAfrica => Country {
                nation: Nation::GermanAfrica,
                side: Side::Empires,
                max_tech_level: 1,
                resources: 0,
                attack_factor: 5,
                vp: 1,
                initial_breakdown: 3,
            },
        }
    }

    /// The static attributes of the nation.
    #[verifier::when_used_as_spec(spec_country)]
    pub fn country(&self) -> (c: Country)
        ensures
            c == self.spec_country(),
    {
        match self {
            Nation::France => Country {
                nation: Nation::France,
                side: Side::Allies,
                max_tech_level: 3,
                resources: 6,
                attack_factor: 4,
                vp: 6,
                initial_breakdown: 6,
            },
            Nation::Italy => Country {
                nation: Nation::Italy,
                side: Side::Allies,
                max_tech_level: 2,
                resources: 2,
                attack_factor: 5,
                vp: 2,
                initial_breakdown: 5,
            },
            Nation::Russia => Country {
                nation: Nation::Russia,
                side: Side::Allies,
                max_tech_level: 2,
                resources: 0,
                attack_factor: 5,
                vp: 5,
                initial_breakdown: 6,
            },
            Nation::Egypt => Country {
                nation: Nation::Egypt,
                side: Side::Allies,
                max_tech_level: 2,
                resources: 1,
                attack_factor: 5,
                vp: 1,
                initial_breakdown: 3,
            },
            Nation::Serbia => Country {
                nation: Nation::Serbia,
                side: Side::Allies,
                max_tech_level: 2,
                resources: 0,
                attack_factor: 5,
                vp: 1,
                initial_breakdown: 2,
            },
            Nation::Romania => Country {
                nation: Nation::Romania,
                side: Side::Allies,
                max_tech_level: 2,
                resources: 1,
                attack_factor: 5,
                vp: 1,
                initial_breakdown: 3,
            },
            Nation::Greece => Country {
                nation: Nation::Greece,
                side: Side::Allies,
                max_tech_level: 2,
                resources: 1,
                attack_factor: 5,
                vp: 1,
                initial_breakdown: 3,
            },
            Nation::FrenchAfrica => Country {
                nation: Nation::FrenchAfrica,
                side: Side::Allies,
                max_tech_level: 1,
                resources: 1,
                attack_factor: 5,
                vp: 1,
                initial_breakdown: 3,
            },
            Nation::Germany => Country {
                nation: Nation::Germany,
                side: Side::Empires,
                max_tech_level: 3,
                resources: 6,
                attack_factor: 3,
                vp: 8,
                initial_breakdown: 7,
            },
            Nation::AustriaHungary => Country {
                nation: Nation::AustriaHungary,
                side: Side::Empires,
                max_tech_level: 2,
                resources: 2,
                attack_factor: 5,
                vp: 4,
                initial_breakdown: 4,
            },
            Nation::OttomanEmpire => Country {
                nation: Nation::OttomanEmpire,
                side: Side::Empires,
                max_tech_level: 2,
                resources: 1,
                attack_factor: 5,
                vp: 2,
                initial_breakdown: 4,
            },
            Nation::Bulgaria => Country {
                nation: Nation::Bulgaria,
                side: Side::Empires,
                max_tech_level: 2,
                resources: 1,
                attack_factor: 5,
                vp: 1,
                initial_breakdown: 3,
            },
            Nation::GermanAfrica => Country {
                nation: Nation::GermanAfrica,
                side: Side::Empires,
                max_tech_level: 1,
                resources: 0,
                attack_factor: 5,
                vp: 1,
                initial_breakdown: 3,
            },
        }
    }

    pub open spec fn spec_side(&self) -> Side {
        self.spec_country().side
    }

    /// The side the nation fights for.
    #[verifier::when_used_as_spec(spec_side)]
    pub fn side(&self) -> (s: Side)
        ensures
            s == self.spec_side(),
    {
        self.country().side
    }

    pub open spec fn spec_is_allies(&self) -> bool {
        self.spec_side() == Side::Allies
    }

    /// Whether the nation fights for the Allies.
    #[verifier::when_used_as_spec(spec_is_allies)]
    pub fn is_allies(&self) -> (b: bool)
        ensures
            b == self.spec_is_allies(),
    {
        self.side() == Side::Allies
    }

    pub open spec fn spec_maximum_breakdown(&self) -> u8 {
        (self.spec_country().initial_breakdown + 1) as u8
    }

    /// The highest breakdown the nation can ever stand at: one above the
    /// breakdown at which it joins a war.
    #[verifier::when_used_as_spec(spec_maximum_breakdown)]
    pub fn maximum_breakdown(&self) -> (b: u8)
        ensures
            b == self.spec_maximum_breakdown(),
            b == self.spec_country().initial_breakdown + 1,
    {
        self.country().initial_breakdown + 1
    }

    /// Whether a front runs between an allied nation and one of the empires.
    pub open spec fn front(allied: Nation, empire: Nation) -> bool {
        match (allied, empire) {
            (Nation::France, Nation::Germany) => true,
            (Nation::Italy, Nation::AustriaHungary) => true,
            (Nation::Russia, Nation::Germany) => true,
            (Nation::Russia, Nation::AustriaHungary) => true,
            (Nation::Russia, Nation::OttomanEmpire) => true,
            (Nation::Egypt, Nation::OttomanEmpire) => true,
            (Nation::Serbia, Nation::AustriaHungary) => true,
            (Nation::Serbia, Nation::Bulgaria) => true,
            (Nation::Romania, Nation::AustriaHungary) => true,
            (Nation::Romania, Nation::Bulgaria) => true,
            (Nation::Greece, Nation::Bulgaria) => true,
            (Nation::Greece, Nation::OttomanEmpire) => true,
            (Nation::FrenchAfrica, Nation::GermanAfrica) => true,
            _ => false,
        }
    }

    pub open spec fn spec_adjacent_to(&self, to: &Nation) -> bool {
        Nation::front(*self, *to) || Nation::front(*to, *self)
    }

    /// Whether an offensive can go from this nation to the other: the two
    /// share a front.
    #[verifier::when_used_as_spec(spec_adjacent_to)]
    pub fn adjacent_to(&self, to: &Nation) -> (b: bool)
        ensures
            b == self.spec_adjacent_to(to),
    {
        Nation::has_front(*self, *to) || Nation::has_front(*to, *self)
    }

    fn has_front(allied: Nation, empire: Nation) -> (b: bool)
        ensures
            b == Nation::front(allied, empire),
    {
        match (allied, empire) {
            (Nation::France, Nation::Germany) => true,
            (Nation::Italy, Nation::AustriaHungary) => true,
            (Nation::Russia, Nation::Germany) => true,
            (Nation::Russia, Nation::AustriaHungary) => true,
            (Nation::Russia, Nation::OttomanEmpire) => true,
            (Nation::Egypt, Nation::OttomanEmpire) => true,
            (Nation::Serbia, Nation::AustriaHungary) => true,
            (Nation::Serbia, Nation::Bulgaria) => true,
            (Nation::Romania, Nation::AustriaHungary) => true,
            (Nation::Romania, Nation::Bulgaria) => true,
            (Nation::Greece, Nation::Bulgaria) => true,
            (Nation::Greece, Nation::OttomanEmpire) => true,
            (Nation::FrenchAfrica, Nation::GermanAfrica) => true,
            _ => false,
        }
    }

    /// The state in which the nation stands when a game begins: the powers
    /// engaged from the first day stand at their highest breakdown, the
    /// others are at peace.
    pub open spec fn spec_initial_state(&self) -> NationState {
        match self {
            Nation::Italy | Nation::Romania | Nation::Greece | Nation::Bulgaria => {
                NationState::AtPeace
            },
            _ => NationState::AtWar(self.spec_maximum_breakdown()),
        }
    }

    #[verifier::when_used_as_spec(spec_initial_state)]
    pub fn initial_state(&self) -> (s: NationState)
        ensures
            s == self.spec_initial_state(),
    {
        match self {
            Nation::Italy | Nation::Romania | Nation::Greece | Nation::Bulgaria => {
                NationState::AtPeace
            },
            _ => NationState::AtWar(self.maximum_breakdown()),
        }
    }
}

/// Adjacency is symmetric.
pub proof fn lemma_adjacency_symmetric(a: Nation, b: Nation)
    ensures
        a.spec_adjacent_to(&b) == b.spec_adjacent_to(&a),
{
}

/// No nation is adjacent to itself, nor to a nation of its own side.
pub proof fn lemma_adjacent_nations_are_enemies(a: Nation, b: Nation)
    requires
        a.spec_adjacent_to(&b),
    ensures
        a != b,
        a.spec_side() != b.spec_side(),
{
}

/// `index` and `from_index` are inverse to each other.
pub proof fn lemma_nation_index_round_trip(n: Nation, i: int)
    ensures
        0 <= n.spec_index() < NATION_COUNT,
        Nation::spec_from_index(n.spec_index()) == n,
        0 <= i < NATION_COUNT ==> Nation::spec_from_index(i).spec_index() == i,
{
}

pub open spec fn spec_operational_level(breakdown: u8) -> u8 {
    if breakdown == 0 {
        0
    } else if breakdown <= 3 {
        1
    } else if breakdown <= 6 {
        2
    } else {
        3
    }
}

/// The operational level that goes with a breakdown: the most resources a
/// nation can commit to one offensive.
#[verifier::when_used_as_spec(spec_operational_level)]
pub fn operational_level(breakdown: u8) -> (level: u8)
    ensures
        level == spec_operational_level(breakdown),
        level <= 3,
{
    if breakdown == 0 {
        0
    } else if breakdown <= 3 {
        1
    } else if breakdown <= 6 {
        2
    } else {
        3
    }
}

/// The operational level never falls when the breakdown rises.
pub proof fn lemma_operational_level_monotone(a: u8, b: u8)
    requires
        a <= b,
    ensures
        spec_operational_level(a) <= spec_operational_level(b),
{
}

/// Whether a nation takes part in the war, and how much endurance it has left.
#[derive(Clone, Copy, Debug, PartialEq, Eq, Structural)]
pub enum NationState {
    AtPeace,
    AtWar(u8),
}

impl NationState {
    pub open spec fn spec_is_at_war(&self) -> bool {
        self is AtWar
    }

    #[verifier::when_used_as_spec(spec_is_at_war)]
    pub fn is_at_war(&self) -> (b: bool)
        ensures
            b == self.spec_is_at_war(),
    {
        match self {
            NationState::AtWar(_) => true,
            NationState::AtPeace => false,
        }
    }

    pub open spec fn spec_breakdown_level(&self) -> u8 {
        match *self {
            NationState::AtWar(breakdown) => breakdown,
            NationState::AtPeace => 0,
        }
    }

    /// The breakdown of a nation at war; 0 for a nation at peace.
    #[verifier::when_used_as_spec(spec_breakdown_level)]
    pub fn breakdown_level(&self) -> (b: u8)
        ensures
            b == self.spec_breakdown_level(),
    {
        match self {
            NationState::AtWar(breakdown) => *breakdown,
            NationState::AtPeace => 0,
        }
    }

    pub open spec fn spec_operational_level(&self) -> u8 {
        match *self {
            NationState::AtWar(breakdown) => spec_operational_level(breakdown),
            NationState::AtPeace => 0,
        }
    }

    /// The operational level of a nation at war; 0 for a nation at peace.
    #[verifier::when_used_as_spec(spec_operational_level)]
    pub fn operational_level(&self) -> (level: u8)
        ensures
            level == self.spec_operational_level(),
    {
        match self {
            NationState::AtWar(breakdown) => operational_level(*breakdown),
            NationState::AtPeace => 0,
        }
    }
}

} // verus!
