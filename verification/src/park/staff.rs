//! The people the park pays.
//!
//! Staff walk the paths like guests do, but they are paid rather than paying,
//! and they change the park around them instead of wanting things from it.

use vstd::prelude::*;

use crate::park::{Colour, Money, TilePos};

verus! {

/// A job somebody can be hired to do.
#[derive(Debug, Clone, Copy, PartialEq, Eq, Hash, Structural)]
pub enum StaffKind {
    /// Tidies the park: turns ground worn down to dirt back into grass.
    Handyman,
    /// Works the crowd: cheers up every guest walking near them.
    Entertainer,
    /// Fixes rides: puts a broken one back together, if they can get to it.
    Mechanic,
}

/// What taking on a `k` costs, once.
pub open spec fn hire_cost_of(k: StaffKind) -> Money {
    match k {
        StaffKind::Handyman => 150,
        StaffKind::Entertainer => 250,
        StaffKind::Mechanic => 300,
    }
}

/// What a `k` is paid every wage bill.
pub open spec fn wage_of(k: StaffKind) -> Money {
    match k {
        StaffKind::Handyman => 40,
        StaffKind::Entertainer => 60,
        StaffKind::Mechanic => 80,
    }
}

/// How far the work of a `k` reaches, in tiles.
pub open spec fn reach_of(k: StaffKind) -> u32 {
    match k {
        StaffKind::Handyman => 3,
        StaffKind::Entertainer => 4,
        StaffKind::Mechanic => 6,
    }
}

/// What the HUD calls a `k`.
pub open spec fn staff_name(k: StaffKind) -> Seq<char> {
    match k {
        StaffKind::Handyman => "Handyman"@,
        StaffKind::Entertainer => "Entertainer"@,
        StaffKind::Mechanic => "Mechanic"@,
    }
}

/// The uniform a `k` draws in.
pub open spec fn uniform(k: StaffKind) -> Colour {
    match k {
        StaffKind::Handyman => Colour { r: 0x2F, g: 0x6F, b: 0x4F },
        StaffKind::Entertainer => Colour { r: 0xC0, g: 0x3B, b: 0x8F },
        StaffKind::Mechanic => Colour { r: 0x3B, g: 0x5B, b: 0xC0 },
    }
}

impl StaffKind {
    /// Everybody who can be hired, in the order a menu would list them.
    pub const ALL: [StaffKind; 3] = [
        StaffKind::Handyman,
        StaffKind::Entertainer,
        StaffKind::Mechanic,
    ];

    /// What it costs to take somebody on: a one-off, on top of the wages.
    pub fn hire_cost(self) -> (c: Money)
        ensures
            c == hire_cost_of(self),
    {
        match self {
            StaffKind::Handyman => 150,
            StaffKind::Entertainer => 250,
            StaffKind::Mechanic => 300,
        }
    }

    /// What they are paid every wage bill.
    pub fn wage(self) -> (c: Money)
        ensures
            c == wage_of(self),
    {
        match self {
            StaffKind::Handyman => 40,
            StaffKind::Entertainer => 60,
            StaffKind::Mechanic => 80,
        }
    }

    /// How far their work reaches, in tiles.
    pub fn reach(self) -> (r: u32)
        ensures
            r == reach_of(self),
    {
        match self {
            StaffKind::Handyman => 3,
            StaffKind::Entertainer => 4,
            StaffKind::Mechanic => 6,
        }
    }

    /// What to call them in the HUD.
    pub fn name(self) -> (n: &'static str)
        ensures
            n@ == staff_name(self),
    {
        match self {
            StaffKind::Handyman => "Handyman",
            StaffKind::Entertainer => "Entertainer",
            StaffKind::Mechanic => "Mechanic",
        }
    }

    /// The uniform they draw in, so a crowd can be read at a glance.
    pub fn colour(self) -> (c: Colour)
        ensures
            c == uniform(self),
    {
        match self {
            StaffKind::Handyman => Colour::rgb(0x2F, 0x6F, 0x4F),
            StaffKind::Entertainer => Colour::rgb(0xC0, 0x3B, 0x8F),
            StaffKind::Mechanic => Colour::rgb(0x3B, 0x5B, 0xC0),
        }
    }

    /// Whether somebody of this kind standing on `at` can reach `tile` with
    /// their work.
    pub fn reaches(self, at: TilePos, tile: TilePos) -> (b: bool)
        requires
            at.distance(tile) <= u32::MAX,
        ensures
            b == (at.distance(tile) <= reach_of(self)),
    {
        at.manhattan_distance(tile) <= self.reach()
    }
}

/// Somebody on the payroll: who they are, and what they were taken on to do.
///
/// Where they are standing is the crowd's business rather than the books'.
#[derive(Debug, Clone, Copy, PartialEq, Eq, Structural)]
pub struct Staff {
    id: u32,
    kind: StaffKind,
}

impl Staff {
    /// Which member of staff this is.
    pub closed spec fn id_of(self) -> u32 {
        self.id
    }

    /// What they do.
    pub closed spec fn kind_of(self) -> StaffKind {
        self.kind
    }

    /// Somebody just taken on.
    pub fn hired(id: u32, kind: StaffKind) -> (s: Self)
        ensures
            s.id_of() == id,
            s.kind_of() == kind,
    {
        Staff { id, kind }
    }

    /// Which member of staff this is.
    pub fn id(&self) -> (id: u32)
        ensures
            id == self.id_of(),
    {
        self.id
    }

    /// What they do.
    pub fn kind(&self) -> (k: StaffKind)
        ensures
            k == self.kind_of(),
    {
        self.kind
    }

    /// What they are paid each wage bill.
    pub fn wage(&self) -> (w: Money)
        ensures
            w == wage_of(self.kind_of()),
    {
        self.kind.wage()
    }
}

/// Nobody works for nothing, costs nothing to take on, or reaches nothing.
pub proof fn nobody_works_for_nothing(k: StaffKind)
    ensures
        wage_of(k) > 0,
        hire_cost_of(k) > 0,
        reach_of(k) > 0,
{
}

} // verus!
