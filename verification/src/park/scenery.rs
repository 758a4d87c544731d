//! Things put up to be looked at rather than used.

use vstd::prelude::*;

use crate::park::{Colour, Money};

verus! {

/// Something put up to be looked at.
#[derive(Debug, Clone, Copy, PartialEq, Eq, Hash, Structural)]
pub enum Scenery {
    /// A tree. The cheapest thing that makes a park look like one.
    Tree,
    /// A flowerbed: prettier than a tree, and wants more looking after.
    Flowerbed,
    /// A fountain. What a park puts at the end of a path to be looked at.
    Fountain,
    /// A lamp post. Barely decorative on its own.
    Lamp,
}

/// What putting up one `s` costs.
pub open spec fn scenery_cost(s: Scenery) -> Money {
    match s {
        Scenery::Tree => 80,
        Scenery::Flowerbed => 120,
        Scenery::Fountain => 450,
        Scenery::Lamp => 60,
    }
}

/// What keeping one `s` costs for a wage bill.
pub open spec fn scenery_upkeep(s: Scenery) -> Money {
    match s {
        Scenery::Tree | Scenery::Lamp => 1,
        Scenery::Flowerbed => 3,
        Scenery::Fountain => 8,
    }
}

/// How much better one `s` makes the park look, per tile it reaches.
pub open spec fn scenery_beauty(s: Scenery) -> u32 {
    match s {
        Scenery::Tree => 3,
        Scenery::Flowerbed => 5,
        Scenery::Fountain => 14,
        Scenery::Lamp => 1,
    }
}

/// How far the looks of one `s` carry, in tiles.
pub open spec fn scenery_reach(s: Scenery) -> u32 {
    match s {
        Scenery::Tree | Scenery::Flowerbed => 3,
        Scenery::Fountain => 6,
        Scenery::Lamp => 2,
    }
}

/// What the HUD calls an `s`.
pub open spec fn scenery_name(s: Scenery) -> Seq<char> {
    match s {
        Scenery::Tree => "Tree"@,
        Scenery::Flowerbed => "Flowerbed"@,
        Scenery::Fountain => "Fountain"@,
        Scenery::Lamp => "Lamp"@,
    }
}

/// The colour an `s` draws as.
pub open spec fn scenery_colour(s: Scenery) -> Colour {
    match s {
        Scenery::Tree => Colour { r: 0x3F, g: 0x7A, b: 0x3A },
        Scenery::Flowerbed => Colour { r: 0xD9, g: 0x5A, b: 0x8C },
        Scenery::Fountain => Colour { r: 0x7A, g: 0xC6, b: 0xE8 },
        Scenery::Lamp => Colour { r: 0xE8, g: 0xD6, b: 0x8C },
    }
}

/// The colour of the trunk, stem or post under an `s`.
pub open spec fn scenery_stem(s: Scenery) -> Colour {
    match s {
        Scenery::Tree => Colour { r: 0x5B, g: 0x43, b: 0x2E },
        Scenery::Flowerbed => Colour { r: 0x4A, g: 0x6B, b: 0x3A },
        Scenery::Fountain => Colour { r: 0xB2, g: 0xB7, b: 0xBA },
        Scenery::Lamp => Colour { r: 0x4A, g: 0x4A, b: 0x4A },
    }
}

impl Scenery {
    /// Everything that can be put up, in the order a toolbar would list it.
    pub const ALL: [Scenery; 4] = [
        Scenery::Tree,
        Scenery::Flowerbed,
        Scenery::Fountain,
        Scenery::Lamp,
    ];

    /// What it costs to put one up.
    pub fn cost(self) -> (c: Money)
        ensures
            c == scenery_cost(self),
    {
        match self {
            Scenery::Tree => 80,
            Scenery::Flowerbed => 120,
            Scenery::Fountain => 450,
            Scenery::Lamp => 60,
        }
    }

    /// What it costs to keep one for a wage bill.
    pub fn upkeep(self) -> (c: Money)
        ensures
            c == scenery_upkeep(self),
    {
        match self {
            Scenery::Tree | Scenery::Lamp => 1,
            Scenery::Flowerbed => 3,
            Scenery::Fountain => 8,
        }
    }

    /// How much better one of these makes the park look, per tile it reaches.
    pub fn beauty(self) -> (b: u32)
        ensures
            b == scenery_beauty(self),
    {
        match self {
            Scenery::Tree => 3,
            Scenery::Flowerbed => 5,
            Scenery::Fountain => 14,
            Scenery::Lamp => 1,
        }
    }

    /// How far its looks carry, in tiles.
    pub fn reach(self) -> (r: u32)
        ensures
            r == scenery_reach(self),
    {
        match self {
            Scenery::Tree | Scenery::Flowerbed => 3,
            Scenery::Fountain => 6,
            Scenery::Lamp => 2,
        }
    }

    /// What it draws as.
    pub fn colour(self) -> (c: Colour)
        ensures
            c == scenery_colour(self),
    {
        match self {
            Scenery::Tree => Colour::rgb(0x3F, 0x7A, 0x3A),
            Scenery::Flowerbed => Colour::rgb(0xD9, 0x5A, 0x8C),
            Scenery::Fountain => Colour::rgb(0x7A, 0xC6, 0xE8),
            Scenery::Lamp => Colour::rgb(0xE8, 0xD6, 0x8C),
        }
    }

    /// The colour of the trunk, stem or post under it.
    pub fn stem_colour(self) -> (c: Colour)
        ensures
            c == scenery_stem(self),
    {
        match self {
            Scenery::Tree => Colour::rgb(0x5B, 0x43, 0x2E),
            Scenery::Flowerbed => Colour::rgb(0x4A, 0x6B, 0x3A),
            Scenery::Fountain => Colour::rgb(0xB2, 0xB7, 0xBA),
            Scenery::Lamp => Colour::rgb(0x4A, 0x4A, 0x4A),
        }
    }

    /// What to call it in the HUD.
    pub fn name(self) -> (n: &'static str)
        ensures
            n@ == scenery_name(self),
    {
        match self {
            Scenery::Tree => "Tree",
            Scenery::Flowerbed => "Flowerbed",
            Scenery::Fountain => "Fountain",
            Scenery::Lamp => "Lamp",
        }
    }
}

/// Nothing is free to put up or to keep, everything is worth looking at, and
/// the dearer a thing is the better it looks.
pub proof fn the_dearer_it_is_the_better_it_looks(a: Scenery, b: Scenery)
    ensures
        scenery_cost(a) > 0,
        scenery_upkeep(a) > 0,
        scenery_beauty(a) > 0,
        scenery_reach(a) > 0,
        scenery_cost(a) < scenery_cost(b) ==> scenery_beauty(a) <= scenery_beauty(b),
{
}

} // verus!
