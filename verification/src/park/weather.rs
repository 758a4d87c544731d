//! What the sky is doing.
//!
//! Weather is the one thing in the park nobody chose. How much it puts people
//! off, how thirsty it makes them and how it moves on are measured in
//! fractions, and are worked out where the simulation runs; what it is called
//! and what colour the sky is are here.

use vstd::prelude::*;

use crate::park::Colour;

verus! {

/// What the sky is doing.
#[derive(Debug, Clone, Copy, PartialEq, Eq, Hash, Structural)]
pub enum Weather {
    /// Hot and bright. Thirsty work, and everybody comes out.
    Sunny,
    /// Grey and dry. The ordinary sort of day.
    Cloudy,
    /// Rain. Fewer people, and the ones already here wish they were not.
    Rain,
    /// A downpour. Rain, but nobody is pretending it is fine.
    Storm,
}

/// What the HUD calls a `w` day.
pub open spec fn weather_name(w: Weather) -> Seq<char> {
    match w {
        Weather::Sunny => "Sunny"@,
        Weather::Cloudy => "Cloudy"@,
        Weather::Rain => "Raining"@,
        Weather::Storm => "Stormy"@,
    }
}

/// Which way the weather goes when a spell ends.
#[derive(Debug, Clone, Copy, PartialEq, Eq, Structural)]
pub enum Turn {
    /// It gets worse.
    Worse,
    /// It clears up.
    Better,
    /// It stays as it is.
    Holds,
}

/// What a `w` day turns into when the weather goes `turn`: a step along from
/// sunny through cloud and rain to storm, and no further than either end.
pub open spec fn turned(w: Weather, turn: Turn) -> Weather {
    match turn {
        Turn::Holds => w,
        Turn::Worse => match w {
            Weather::Sunny => Weather::Cloudy,
            Weather::Cloudy => Weather::Rain,
            Weather::Rain => Weather::Storm,
            Weather::Storm => Weather::Storm,
        },
        Turn::Better => match w {
            Weather::Sunny => Weather::Sunny,
            Weather::Cloudy => Weather::Sunny,
            Weather::Rain => Weather::Cloudy,
            Weather::Storm => Weather::Rain,
        },
    }
}

/// The colour of the sky on a `w` day.
pub open spec fn sky_of(w: Weather) -> Colour {
    match w {
        Weather::Sunny => Colour { r: 0x1B, g: 0x26, b: 0x33 },
        Weather::Cloudy => Colour { r: 0x25, g: 0x2A, b: 0x31 },
        Weather::Rain => Colour { r: 0x1E, g: 0x22, b: 0x28 },
        Weather::Storm => Colour { r: 0x12, g: 0x14, b: 0x18 },
    }
}

impl Weather {
    /// Every kind of day, from the best to the worst.
    pub const ALL: [Weather; 4] = [Weather::Sunny, Weather::Cloudy, Weather::Rain, Weather::Storm];

    /// How long one spell of weather lasts, in ticks.
    pub const SPELL: u64 = 2_400;

    /// A park opens on a fine day.
    pub fn default() -> (w: Self)
        ensures
            w == Weather::Sunny,
    {
        Weather::Sunny
    }

    /// Whether anybody is getting wet.
    pub fn is_wet(self) -> (b: bool)
        ensures
            b == (self is Rain || self is Storm),
    {
        matches!(self, Weather::Rain | Weather::Storm)
    }

    /// What to call it in the HUD.
    pub fn name(self) -> (n: &'static str)
        ensures
            n@ == weather_name(self),
    {
        match self {
            Weather::Sunny => "Sunny",
            Weather::Cloudy => "Cloudy",
            Weather::Rain => "Raining",
            Weather::Storm => "Stormy",
        }
    }

    /// What comes after this spell, given which way the weather goes.
    pub fn next(self, turn: Turn) -> (w: Self)
        ensures
            w == turned(self, turn),
    {
        match turn {
            Turn::Holds => self,
            Turn::Worse => match self {
                Weather::Sunny => Weather::Cloudy,
                Weather::Cloudy => Weather::Rain,
                Weather::Rain => Weather::Storm,
                Weather::Storm => Weather::Storm,
            },
            Turn::Better => match self {
                Weather::Sunny => Weather::Sunny,
                Weather::Cloudy => Weather::Sunny,
                Weather::Rain => Weather::Cloudy,
                Weather::Storm => Weather::Rain,
            },
        }
    }

    /// What the sky is drawn as behind the park.
    pub fn sky(self) -> (c: Colour)
        ensures
            c == sky_of(self),
    {
        match self {
            Weather::Sunny => Colour::rgb(0x1B, 0x26, 0x33),
            Weather::Cloudy => Colour::rgb(0x25, 0x2A, 0x31),
            Weather::Rain => Colour::rgb(0x1E, 0x22, 0x28),
            Weather::Storm => Colour::rgb(0x12, 0x14, 0x18),
        }
    }
}

/// The weather moves a step at a time: a sunny day never turns straight to
/// rain, nor a storm straight to sunshine, and a turn for the worse is undone
/// by a turn for the better everywhere short of a storm, and the other way
/// round everywhere short of sunshine.
pub proof fn the_weather_changes_a_step_at_a_time(w: Weather, turn: Turn)
    ensures
        w is Sunny ==> !(turned(w, turn) is Rain || turned(w, turn) is Storm),
        w is Storm ==> !(turned(w, turn) is Sunny || turned(w, turn) is Cloudy),
        !(w is Storm) ==> turned(turned(w, Turn::Worse), Turn::Better) == w,
        !(w is Sunny) ==> turned(turned(w, Turn::Better), Turn::Worse) == w,
{
}

} // verus!
