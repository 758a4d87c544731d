//! Rides with no track to lay.
//!
//! A coaster is a shape you build; a carousel is a thing you buy. It stands on
//! its own tiles, turns for a while with whoever is aboard, and stops.

use vstd::prelude::*;

use crate::park::{Colour, Money};

verus! {

/// A ride that comes as it is.
#[derive(Debug, Clone, Copy, PartialEq, Eq, Hash, Structural)]
pub enum FlatRide {
    /// A carousel. Gentle enough for anybody.
    Carousel,
    /// A ferris wheel: slow, tall, and worth the view.
    FerrisWheel,
    /// A haunted house. Not rough at all, and frightening all the same.
    HauntedHouse,
    /// Spinning teacups. Rougher than they look.
    TeaCups,
}

/// What buying one `r` costs.
pub open spec fn flat_cost(r: FlatRide) -> Money {
    match r {
        FlatRide::Carousel => 900,
        FlatRide::FerrisWheel => 1_600,
        FlatRide::HauntedHouse => 1_400,
        FlatRide::TeaCups => 700,
    }
}

/// What keeping one `r` running costs for a wage bill.
pub open spec fn flat_upkeep(r: FlatRide) -> Money {
    match r {
        FlatRide::Carousel | FlatRide::TeaCups => 12,
        FlatRide::FerrisWheel => 18,
        FlatRide::HauntedHouse => 15,
    }
}

/// How many tiles on a side an `r` stands on.
pub open spec fn flat_footprint(r: FlatRide) -> u32 {
    match r {
        FlatRide::Carousel | FlatRide::TeaCups => 2,
        FlatRide::FerrisWheel | FlatRide::HauntedHouse => 3,
    }
}

/// How many guests an `r` carries at once.
pub open spec fn flat_seats(r: FlatRide) -> u32 {
    match r {
        FlatRide::Carousel => 12,
        FlatRide::FerrisWheel => 16,
        FlatRide::HauntedHouse => 10,
        FlatRide::TeaCups => 8,
    }
}

/// How many ticks one go on an `r` lasts.
pub open spec fn flat_ride_time(r: FlatRide) -> u32 {
    match r {
        FlatRide::Carousel => 800,
        FlatRide::FerrisWheel => 1_600,
        FlatRide::HauntedHouse => 1_000,
        FlatRide::TeaCups => 600,
    }
}

/// What the HUD calls an `r`.
pub open spec fn flat_name(r: FlatRide) -> Seq<char> {
    match r {
        FlatRide::Carousel => "Carousel"@,
        FlatRide::FerrisWheel => "Ferris wheel"@,
        FlatRide::HauntedHouse => "Haunted house"@,
        FlatRide::TeaCups => "Teacups"@,
    }
}

/// The colour an `r` draws as.
pub open spec fn flat_colour(r: FlatRide) -> Colour {
    match r {
        FlatRide::Carousel => Colour { r: 0xE8, g: 0xC3, b: 0x4A },
        FlatRide::FerrisWheel => Colour { r: 0x4A, g: 0x9D, b: 0xE8 },
        FlatRide::HauntedHouse => Colour { r: 0x6B, g: 0x4A, b: 0x8C },
        FlatRide::TeaCups => Colour { r: 0xE8, g: 0x7A, b: 0xA8 },
    }
}

/// The colour of the frame under an `r`.
pub open spec fn flat_frame(r: FlatRide) -> Colour {
    match r {
        FlatRide::Carousel => Colour { r: 0xB2, g: 0x8A, b: 0x3A },
        FlatRide::FerrisWheel => Colour { r: 0xB2, g: 0xB7, b: 0xBA },
        FlatRide::HauntedHouse => Colour { r: 0x3A, g: 0x2A, b: 0x4A },
        FlatRide::TeaCups => Colour { r: 0xB2, g: 0x5A, b: 0x7A },
    }
}

impl FlatRide {
    /// Everything that can be bought, in the order a toolbar would list it.
    pub const ALL: [FlatRide; 4] = [
        FlatRide::Carousel,
        FlatRide::FerrisWheel,
        FlatRide::HauntedHouse,
        FlatRide::TeaCups,
    ];

    /// What it costs to put one up.
    pub fn cost(self) -> (c: Money)
        ensures
            c == flat_cost(self),
    {
        match self {
            FlatRide::Carousel => 900,
            FlatRide::FerrisWheel => 1_600,
            FlatRide::HauntedHouse => 1_400,
            FlatRide::TeaCups => 700,
        }
    }

    /// What it costs to keep running for one wage bill.
    pub fn upkeep(self) -> (c: Money)
        ensures
            c == flat_upkeep(self),
    {
        match self {
            FlatRide::Carousel | FlatRide::TeaCups => 12,
            FlatRide::FerrisWheel => 18,
            FlatRide::HauntedHouse => 15,
        }
    }

    /// How many tiles on a side it stands on.
    pub fn footprint(self) -> (n: u32)
        ensures
            n == flat_footprint(self),
    {
        match self {
            FlatRide::Carousel | FlatRide::TeaCups => 2,
            FlatRide::FerrisWheel | FlatRide::HauntedHouse => 3,
        }
    }

    /// How many guests it carries at once.
    pub fn seats(self) -> (n: u32)
        ensures
            n == flat_seats(self),
    {
        match self {
            FlatRide::Carousel => 12,
            FlatRide::FerrisWheel => 16,
            FlatRide::HauntedHouse => 10,
            FlatRide::TeaCups => 8,
        }
    }

    /// How many ticks one go lasts.
    pub fn ride_time(self) -> (n: u32)
        ensures
            n == flat_ride_time(self),
    {
        match self {
            FlatRide::Carousel => 800,
            FlatRide::FerrisWheel => 1_600,
            FlatRide::HauntedHouse => 1_000,
            FlatRide::TeaCups => 600,
        }
    }

    /// What it draws as.
    pub fn colour(self) -> (c: Colour)
        ensures
            c == flat_colour(self),
    {
        match self {
            FlatRide::Carousel => Colour::rgb(0xE8, 0xC3, 0x4A),
            FlatRide::FerrisWheel => Colour::rgb(0x4A, 0x9D, 0xE8),
            FlatRide::HauntedHouse => Colour::rgb(0x6B, 0x4A, 0x8C),
            FlatRide::TeaCups => Colour::rgb(0xE8, 0x7A, 0xA8),
        }
    }

    /// The colour of the frame under it.
    pub fn frame_colour(self) -> (c: Colour)
        ensures
            c == flat_frame(self),
    {
        match self {
            FlatRide::Carousel => Colour::rgb(0xB2, 0x8A, 0x3A),
            FlatRide::FerrisWheel => Colour::rgb(0xB2, 0xB7, 0xBA),
            FlatRide::HauntedHouse => Colour::rgb(0x3A, 0x2A, 0x4A),
            FlatRide::TeaCups => Colour::rgb(0xB2, 0x5A, 0x7A),
        }
    }

    /// What to call it in the HUD.
    pub fn name(self) -> (n: &'static str)
        ensures
            n@ == flat_name(self),
    {
        match self {
            FlatRide::Carousel => "Carousel",
            FlatRide::FerrisWheel => "Ferris wheel",
            FlatRide::HauntedHouse => "Haunted house",
            FlatRide::TeaCups => "Teacups",
        }
    }
}

/// Every flat ride costs money to buy and to run, carries somebody, takes time
/// to go round, and takes up more than one tile.
pub proof fn every_flat_ride_earns_its_ground(r: FlatRide)
    ensures
        flat_cost(r) > 0,
        flat_upkeep(r) > 0,
        flat_seats(r) > 0,
        flat_ride_time(r) > 0,
        flat_footprint(r) > 1,
{
}

} // verus!
