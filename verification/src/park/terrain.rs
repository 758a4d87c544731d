//! What the ground is made of.

use vstd::prelude::*;

use crate::park::{Colour, Money};

verus! {

/// A single kind of ground.
///
/// Rides, scenery and buildings sit *on* tiles rather than being tiles, so
/// this enum only ever describes the surface.
#[derive(Debug, Clone, Copy, PartialEq, Eq, Hash, Structural)]
pub enum Terrain {
    /// Open ground. Buildable, walkable off-path.
    Grass,
    /// A laid footpath. Where guests actually want to walk.
    Path,
    /// Queue path: a footpath that only leads to a ride, and that guests stand
    /// in line on rather than walk along.
    Queue,
    /// Bare earth, usually where something was demolished or worn away.
    Dirt,
    /// Water. Not walkable, not buildable without work.
    Water,
    /// Solid rock. Not walkable, not buildable.
    Rock,
}

/// What laying one tile of `t` costs, or `None` where no money will buy it.
pub open spec fn lay_cost_of(t: Terrain) -> Option<Money> {
    match t {
        Terrain::Path => Some(25),
        Terrain::Queue => Some(30),
        Terrain::Grass => Some(10),
        Terrain::Dirt => Some(5),
        Terrain::Water => Some(50),
        Terrain::Rock => None,
    }
}

/// Whether a guest can stand on `t`.
pub open spec fn walkable(t: Terrain) -> bool {
    t is Grass || t is Path || t is Dirt || t is Queue
}

/// Whether something can be built on `t` without terraforming first.
pub open spec fn buildable(t: Terrain) -> bool {
    t is Grass || t is Dirt
}

/// The effort of crossing `t`, or `None` where it cannot be crossed.
pub open spec fn walk_cost_of(t: Terrain) -> Option<u32> {
    match t {
        Terrain::Path | Terrain::Queue => Some(1),
        Terrain::Dirt => Some(4),
        Terrain::Grass => Some(6),
        Terrain::Water | Terrain::Rock => None,
    }
}

/// What the HUD calls `t`.
pub open spec fn terrain_name(t: Terrain) -> Seq<char> {
    match t {
        Terrain::Grass => "Grass"@,
        Terrain::Path => "Path"@,
        Terrain::Queue => "Queue path"@,
        Terrain::Dirt => "Dirt"@,
        Terrain::Water => "Water"@,
        Terrain::Rock => "Rock"@,
    }
}

/// The colour `t` draws as.
pub open spec fn terrain_colour(t: Terrain) -> Colour {
    match t {
        Terrain::Grass => Colour { r: 0x5E, g: 0x8C, b: 0x3E },
        Terrain::Path => Colour { r: 0xC9, g: 0xB6, b: 0x92 },
        Terrain::Queue => Colour { r: 0xB0, g: 0x9A, b: 0xC2 },
        Terrain::Dirt => Colour { r: 0x8B, g: 0x6F, b: 0x4E },
        Terrain::Water => Colour { r: 0x3E, g: 0x6E, b: 0x8C },
        Terrain::Rock => Colour { r: 0x6B, g: 0x6B, b: 0x6B },
    }
}

impl Terrain {
    /// Everything a player can lay down, in the order a toolbar would list it.
    ///
    /// Rock is not on it: a park can quarry its way around one, never make one.
    pub const LAYABLE: [Terrain; 5] = [
        Terrain::Path,
        Terrain::Queue,
        Terrain::Grass,
        Terrain::Dirt,
        Terrain::Water,
    ];

    /// What it costs the park to lay one tile of this, or `None` for something
    /// no amount of money will buy.
    pub fn lay_cost(self) -> (cost: Option<Money>)
        ensures
            cost == lay_cost_of(self),
    {
        match self {
            Terrain::Path => Some(25),
            Terrain::Queue => Some(30),
            Terrain::Grass => Some(10),
            Terrain::Dirt => Some(5),
            Terrain::Water => Some(50),
            Terrain::Rock => None,
        }
    }

    /// What to call it in the HUD.
    pub fn name(self) -> (name: &'static str)
        ensures
            name@ == terrain_name(self),
    {
        match self {
            Terrain::Grass => "Grass",
            Terrain::Path => "Path",
            Terrain::Queue => "Queue path",
            Terrain::Dirt => "Dirt",
            Terrain::Water => "Water",
            Terrain::Rock => "Rock",
        }
    }

    /// Whether a guest can stand here.
    pub fn is_walkable(self) -> (b: bool)
        ensures
            b == walkable(self),
    {
        matches!(self, Terrain::Grass | Terrain::Path | Terrain::Dirt | Terrain::Queue)
    }

    /// Whether something can be built here without terraforming first.
    pub fn is_buildable(self) -> (b: bool)
        ensures
            b == buildable(self),
    {
        matches!(self, Terrain::Grass | Terrain::Dirt)
    }

    /// How much effort a guest spends crossing this tile.
    ///
    /// Paths are the cheapest, which is what makes a crowd follow them instead
    /// of cutting across the flower beds. `None` means impassable.
    pub fn walk_cost(self) -> (cost: Option<u32>)
        ensures
            cost == walk_cost_of(self),
    {
        match self {
            Terrain::Path | Terrain::Queue => Some(1),
            Terrain::Dirt => Some(4),
            Terrain::Grass => Some(6),
            Terrain::Water | Terrain::Rock => None,
        }
    }

    /// The colour this terrain draws as.
    pub fn colour(self) -> (c: Colour)
        ensures
            c == terrain_colour(self),
    {
        match self {
            Terrain::Grass => Colour::rgb(0x5E, 0x8C, 0x3E),
            Terrain::Path => Colour::rgb(0xC9, 0xB6, 0x92),
            Terrain::Queue => Colour::rgb(0xB0, 0x9A, 0xC2),
            Terrain::Dirt => Colour::rgb(0x8B, 0x6F, 0x4E),
            Terrain::Water => Colour::rgb(0x3E, 0x6E, 0x8C),
            Terrain::Rock => Colour::rgb(0x6B, 0x6B, 0x6B),
        }
    }
}

/// Walkable ground always has a cost, and nothing else has one: the
/// pathfinder and the guests agree about where a foot can go.
pub proof fn walkable_exactly_when_it_has_a_cost(t: Terrain)
    ensures
        walkable(t) <==> walk_cost_of(t) is Some,
{
}

/// No step is free, so no guest can walk in circles for nothing; and a path
/// is the cheapest ground there is, which is what keeps a crowd on it.
pub proof fn paths_are_the_cheapest_way_across(t: Terrain)
    ensures
        walk_cost_of(t) != Some(0u32),
        t != Terrain::Path && walk_cost_of(t) is Some ==> walk_cost_of(Terrain::Path)->0
            <= walk_cost_of(t)->0,
        t != Terrain::Path && t != Terrain::Queue && walk_cost_of(t) is Some
            ==> walk_cost_of(Terrain::Path)->0 < walk_cost_of(t)->0,
{
}

/// Whatever can be built on can also be stood on.
pub proof fn buildable_ground_is_walkable(t: Terrain)
    ensures
        buildable(t) ==> walkable(t),
{
}

/// Everything that can be laid has a price above nothing, and rock, the one
/// thing without a price, is not on the list.
pub proof fn everything_layable_has_a_price(t: Terrain)
    ensures
        t != Terrain::Rock <==> lay_cost_of(t) is Some,
        lay_cost_of(t) is Some ==> lay_cost_of(t)->0 > 0,
{
}

} // verus!
