//! The things a park puts on its land for guests to use.
//!
//! A facility sits *on* a tile rather than being one: the ground underneath is
//! still grass or path, and it is still what a bulldozer would leave behind.
//! Guests use a facility from the tile next to it, which is why a facility
//! blocks the tile it stands on.

use vstd::prelude::*;

use crate::park::{Colour, Money};

verus! {

/// Something built on a tile.
#[derive(Debug, Clone, Copy, PartialEq, Eq, Hash, Structural)]
pub enum Facility {
    /// Sells food. The only cure for hunger there is.
    FoodStall,
    /// Sells drinks. Quicker to use than a meal, and the reason a park needs
    /// toilets.
    DrinkStall,
    /// Somewhere to sit. Free, and the only cure for sore feet.
    Bench,
    /// A toilet. The one thing a guest will not wait for and will not forgive.
    Toilet,
    /// A litter bin. Nobody queues for one.
    Bin,
}

/// What putting up one `f` costs.
pub open spec fn build_cost_of(f: Facility) -> Money {
    match f {
        Facility::FoodStall => 600,
        Facility::DrinkStall => 450,
        Facility::Bench => 50,
        Facility::Toilet => 700,
        Facility::Bin => 40,
    }
}

/// What an `f` opens charging, and what guests think is fair for one.
pub open spec fn fair_price(f: Facility) -> Money {
    match f {
        Facility::FoodStall => 12,
        Facility::DrinkStall => 8,
        _ => 0,
    }
}

/// What keeping an `f` open costs for a wage bill.
pub open spec fn upkeep_of(f: Facility) -> Money {
    match f {
        Facility::FoodStall => 25,
        Facility::DrinkStall => 18,
        Facility::Bench => 2,
        Facility::Toilet => 30,
        Facility::Bin => 1,
    }
}

/// How many ticks a guest spends using an `f`.
pub open spec fn use_time(f: Facility) -> u64 {
    match f {
        Facility::FoodStall => 320,
        Facility::DrinkStall => 160,
        Facility::Bench => 800,
        Facility::Toilet => 240,
        Facility::Bin => 1,
    }
}

/// What the HUD calls an `f`.
pub open spec fn facility_name(f: Facility) -> Seq<char> {
    match f {
        Facility::FoodStall => "Food stall"@,
        Facility::DrinkStall => "Drink stall"@,
        Facility::Bench => "Bench"@,
        Facility::Toilet => "Toilet"@,
        Facility::Bin => "Litter bin"@,
    }
}

/// The colour an `f` draws as.
pub open spec fn facility_colour(f: Facility) -> Colour {
    match f {
        Facility::FoodStall => Colour { r: 0xC4, g: 0x5A, b: 0x3B },
        Facility::DrinkStall => Colour { r: 0x3B, g: 0x8C, b: 0xC4 },
        Facility::Bench => Colour { r: 0x8A, g: 0x6A, b: 0x46 },
        Facility::Toilet => Colour { r: 0xD8, g: 0xD8, b: 0xD0 },
        Facility::Bin => Colour { r: 0x5A, g: 0x5A, b: 0x52 },
    }
}

/// The colour of an `f`'s roof or back.
pub open spec fn facility_trim(f: Facility) -> Colour {
    match f {
        Facility::FoodStall => Colour { r: 0xF2, g: 0xE4, b: 0xC9 },
        Facility::DrinkStall => Colour { r: 0xC9, g: 0xE8, b: 0xF2 },
        Facility::Bench => Colour { r: 0xB8, g: 0x92, b: 0x63 },
        Facility::Toilet => Colour { r: 0x8C, g: 0xA8, b: 0xB2 },
        Facility::Bin => Colour { r: 0x3A, g: 0x3A, b: 0x34 },
    }
}

impl Facility {
    /// Everything that can be built.
    pub const ALL: [Facility; 5] = [
        Facility::FoodStall,
        Facility::DrinkStall,
        Facility::Bench,
        Facility::Toilet,
        Facility::Bin,
    ];

    /// The things a guest will go out of its way for: everything but the bin.
    pub const WANTED: [Facility; 4] = [
        Facility::FoodStall,
        Facility::DrinkStall,
        Facility::Bench,
        Facility::Toilet,
    ];

    /// What it costs the park to put one up.
    pub fn build_cost(self) -> (c: Money)
        ensures
            c == build_cost_of(self),
    {
        match self {
            Facility::FoodStall => 600,
            Facility::DrinkStall => 450,
            Facility::Bench => 50,
            Facility::Toilet => 700,
            Facility::Bin => 40,
        }
    }

    /// The price one opens at, and the price guests think is fair.
    pub fn price(self) -> (p: Money)
        ensures
            p == fair_price(self),
    {
        match self {
            Facility::FoodStall => 12,
            Facility::DrinkStall => 8,
            Facility::Bench | Facility::Toilet | Facility::Bin => 0,
        }
    }

    /// What it costs the park to keep one open for one wage bill.
    pub fn upkeep(self) -> (c: Money)
        ensures
            c == upkeep_of(self),
    {
        match self {
            Facility::FoodStall => 25,
            Facility::DrinkStall => 18,
            Facility::Bench => 2,
            Facility::Toilet => 30,
            Facility::Bin => 1,
        }
    }

    /// How many ticks a guest spends using it.
    pub fn ticks_to_use(self) -> (t: u64)
        ensures
            t == use_time(self),
    {
        match self {
            Facility::FoodStall => 320,
            Facility::DrinkStall => 160,
            Facility::Bench => 800,
            Facility::Toilet => 240,
            Facility::Bin => 1,
        }
    }

    /// What it draws as, on the tile it stands on.
    pub fn colour(self) -> (c: Colour)
        ensures
            c == facility_colour(self),
    {
        match self {
            Facility::FoodStall => Colour::rgb(0xC4, 0x5A, 0x3B),
            Facility::DrinkStall => Colour::rgb(0x3B, 0x8C, 0xC4),
            Facility::Bench => Colour::rgb(0x8A, 0x6A, 0x46),
            Facility::Toilet => Colour::rgb(0xD8, 0xD8, 0xD0),
            Facility::Bin => Colour::rgb(0x5A, 0x5A, 0x52),
        }
    }

    /// The colour of the roof or back drawn above the tile.
    pub fn trim_colour(self) -> (c: Colour)
        ensures
            c == facility_trim(self),
    {
        match self {
            Facility::FoodStall => Colour::rgb(0xF2, 0xE4, 0xC9),
            Facility::DrinkStall => Colour::rgb(0xC9, 0xE8, 0xF2),
            Facility::Bench => Colour::rgb(0xB8, 0x92, 0x63),
            Facility::Toilet => Colour::rgb(0x8C, 0xA8, 0xB2),
            Facility::Bin => Colour::rgb(0x3A, 0x3A, 0x34),
        }
    }

    /// What to call it in the HUD.
    pub fn name(self) -> (n: &'static str)
        ensures
            n@ == facility_name(self),
    {
        match self {
            Facility::FoodStall => "Food stall",
            Facility::DrinkStall => "Drink stall",
            Facility::Bench => "Bench",
            Facility::Toilet => "Toilet",
            Facility::Bin => "Litter bin",
        }
    }
}

/// Nothing is free to put up or to keep open, using anything takes time, and
/// a stall at its fair price covers its upkeep with three customers and its
/// building with fewer than a hundred.
pub proof fn every_facility_pays_its_way(f: Facility)
    ensures
        build_cost_of(f) > 0,
        upkeep_of(f) > 0,
        use_time(f) > 0,
        (f is FoodStall || f is DrinkStall) ==> fair_price(f) > 0 && fair_price(f) * 3
            > upkeep_of(f) && build_cost_of(f) / fair_price(f) < 100,
        !(f is FoodStall || f is DrinkStall) ==> fair_price(f) == 0,
{
}

} // verus!
