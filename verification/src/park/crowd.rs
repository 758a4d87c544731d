//! How the crowd finds its way about: what it wants, where it can walk, and
//! where its feet wear the grass away.

use vstd::prelude::*;

use crate::park::terrain::walkable;
use crate::park::facility::use_time;
use crate::park::visit::decided;
use crate::park::{Facility, Land, Park, Plan, Terrain, TilePos, Visit};

verus! {

/// What a guest would go out of its way for.
#[derive(Debug, Clone, Copy, PartialEq, Eq, Structural)]
pub enum Wanted {
    /// A go on something.
    Ride,
    /// A stall or a bench.
    Something(Facility),
}

/// Whether `ground` is somewhere people already walk: path, or grass worn
/// through to dirt.
pub open spec fn trodden(ground: Option<Terrain>) -> bool {
    ground == Some(Terrain::Path) || ground == Some(Terrain::Dirt)
}

/// Whether a tile of grass is somewhere wear would actually start.
///
/// Only grass next to a path or to ground already worn down: wear spreads
/// from the edges of where people are already walking, which is what turns it
/// into trails across the lawn rather than a rash of bare patches all over it.
pub fn wears_from_here(land: &Land, tile: TilePos) -> (b: bool)
    requires
        land.wf(),
        tile.has_neighbours(),
    ensures
        b == exists|i: int| 0 <= i < 4 && trodden(land.ground_of(#[trigger] tile.around()[i])),
{
    let beside = tile.neighbours();
    let mut i: usize = 0;
    while i < 4
        invariant
            land.wf(),
            beside@ == tile.around(),
            i <= 4,
            forall|j: int| 0 <= j < i ==> !trodden(land.ground_of(#[trigger] tile.around()[j])),
        decreases 4 - i,
    {
        let ground = land.ground(beside[i]);
        if ground == Some(Terrain::Path) || ground == Some(Terrain::Dirt) {
            assert(trodden(land.ground_of(tile.around()[i as int])));
            return true;
        }
        i += 1;
    }
    false
}

/// How many of a wanderer's tries at somewhere to go insist on a path.
///
/// Wanting to end up on a path is what keeps the crowd on the paths: the way
/// between two path tiles is itself nearly all path, because a step along one
/// costs a fraction of a step across the grass.
pub const PATH_ATTEMPTS: u32 = 6;

/// Whether somebody at `from`, on its `attempt`th try at somewhere to wander
/// to, is glad to set off for `goal`: somewhere else, on the land, and a path
/// for the first [`PATH_ATTEMPTS`] tries, then anywhere that can be walked.
pub open spec fn goal_wanted(land: &Land, from: TilePos, goal: TilePos, attempt: u32) -> bool {
    goal != from && match land.ground_of(goal) {
        Some(ground) => if attempt < PATH_ATTEMPTS {
            ground == Terrain::Path
        } else {
            walkable(ground)
        },
        None => false,
    }
}

/// Whether somebody at `from` is glad to wander to `goal` on its `attempt`th
/// try.
pub fn wanted_goal(land: &Land, from: TilePos, goal: TilePos, attempt: u32) -> (b: bool)
    requires
        land.wf(),
    ensures
        b == goal_wanted(land, from, goal, attempt),
{
    if goal == from {
        return false;
    }
    match land.ground(goal) {
        Some(ground) => if attempt < PATH_ATTEMPTS {
            ground == Terrain::Path
        } else {
            ground.is_walkable()
        },
        None => false,
    }
}

impl Park {
    /// What stepping from `from` onto `to` costs the crowd, or `None` where
    /// nobody can.
    ///
    /// Whatever stands on a tile blocks it — a stall is queued beside rather
    /// than walked through — and the shape of the land decides the rest:
    /// water and cliffs are refused, and a climb costs more than the same
    /// distance on the flat.
    pub open spec fn walk_cost_of(&self, from: TilePos, to: TilePos) -> Option<u32> {
        if self.shop_on(to) is Some || self.plant_on(to) is Some {
            None
        } else {
            self.land_of().step_cost_of(from, to)
        }
    }

    /// What stepping from `from` onto `to` costs the crowd, or `None` where
    /// nobody can.
    pub fn step_cost(&self, from: TilePos, to: TilePos) -> (cost: Option<u32>)
        requires
            self.wf(),
        ensures
            cost == self.walk_cost_of(from, to),
    {
        if self.shop_at(to).is_some() || self.scenery_at(to).is_some() {
            return None;
        }
        self.land.step_cost(from, to)
    }
}


/// How many of the nearest candidates a guest tries before deciding that what
/// it wanted is out of reach: past that the walk is long enough that it may as
/// well wander and look again.
pub const FACILITY_ATTEMPTS: usize = 4;

/// Somewhere a guest might head for: what it is (a ride's id, or anything at
/// all for a stall) and the tile it is on.
pub type Candidate = (u32, TilePos);

/// Whether `a` comes before `b` for somebody standing on `from`: the nearer
/// first, then by what it is, then by column, then by row.
pub open spec fn comes_before(from: TilePos, a: Candidate, b: Candidate) -> bool {
    let (da, db) = (from.distance(a.1), from.distance(b.1));
    ||| da < db
    ||| da == db && a.0 < b.0
    ||| da == db && a.0 == b.0 && a.1.x < b.1.x
    ||| da == db && a.0 == b.0 && a.1.x == b.1.x && a.1.y < b.1.y
}

/// Nothing comes before itself, the order chains, and of two different
/// candidates one always comes first.
pub proof fn comes_before_is_a_strict_order(from: TilePos, a: Candidate, b: Candidate, c: Candidate)
    ensures
        !comes_before(from, a, a),
        comes_before(from, a, b) && comes_before(from, b, c) ==> comes_before(from, a, c),
        a != b ==> comes_before(from, a, b) || comes_before(from, b, a),
        comes_before(from, a, b) ==> !comes_before(from, b, a),
{
}

/// How many steps apart two tiles are, walking only along rows and columns,
/// in a type wide enough for any two tiles.
fn steps_between(a: TilePos, b: TilePos) -> (d: u64)
    ensures
        d == a.distance(b),
{
    let dx: u64 = if a.x >= b.x {
        (a.x as i64 - b.x as i64) as u64
    } else {
        (b.x as i64 - a.x as i64) as u64
    };
    let dy: u64 = if a.y >= b.y {
        (a.y as i64 - b.y as i64) as u64
    } else {
        (b.y as i64 - a.y as i64) as u64
    };
    dx + dy
}

/// Whether `a` comes before `b` for somebody standing on `from`.
fn first_of(from: TilePos, a: Candidate, b: Candidate) -> (r: bool)
    ensures
        r == comes_before(from, a, b),
{
    let da = steps_between(from, a.1);
    let db = steps_between(from, b.1);
    if da != db {
        da < db
    } else if a.0 != b.0 {
        a.0 < b.0
    } else if a.1.x != b.1.x {
        a.1.x < b.1.x
    } else {
        a.1.y < b.1.y
    }
}

/// Where the smallest of `left` stands, for somebody on `from`.
fn nearest_in(from: TilePos, left: &Vec<Candidate>) -> (best: usize)
    requires
        left.len() > 0,
    ensures
        best < left.len(),
        forall|j: int| 0 <= j < left.len() ==> !comes_before(from, #[trigger] left@[j], left@[best as int]),
{
    let mut best: usize = 0;
    let mut k: usize = 1;
    while k < left.len()
        invariant
            best < k <= left.len(),
            forall|j: int| 0 <= j < k ==> !comes_before(from, #[trigger] left@[j], left@[best as int]),
        decreases left.len() - k,
    {
        if first_of(from, left[k], left[best]) {
            proof {
                assert forall|j: int| 0 <= j <= k implies !comes_before(from, #[trigger] left@[j], left@[k as int]) by {
                    comes_before_is_a_strict_order(from, left@[j], left@[k as int], left@[best as int]);
                    comes_before_is_a_strict_order(from, left@[k as int], left@[k as int], left@[k as int]);
                }
            }
            best = k;
        }
        k += 1;
    }
    best
}

/// The `limit` candidates nearest to somebody standing on `from`, nearest
/// first, ties going by what they are and then by column and row.
///
/// Exactly what putting `places` in that order and keeping the first `limit`
/// would give: as many as there are, up to `limit`; nothing that was not
/// among `places`; in order; and nothing left out that comes before anything
/// kept.
pub fn nearest_first(from: TilePos, places: &Vec<Candidate>, limit: usize) -> (picked: Vec<Candidate>)
    ensures
        picked.len() == if places.len() < limit { places.len() } else { limit },
        picked@.to_multiset().subset_of(places@.to_multiset()),
        forall|i: int, j: int|
            0 <= i < j < picked.len() ==> !comes_before(from, #[trigger] picked@[j], #[trigger] picked@[i]),
        forall|e: Candidate, i: int|
            #![trigger places@.to_multiset().count(e), picked@[i]]
            places@.to_multiset().count(e) > picked@.to_multiset().count(e) && 0 <= i < picked.len()
                ==> !comes_before(from, e, picked@[i]),
{
    broadcast use vstd::seq_lib::group_to_multiset_ensures;

    let mut left: Vec<Candidate> = Vec::new();
    let mut n: usize = 0;
    while n < places.len()
        invariant
            n <= places.len(),
            left@ == places@.subrange(0, n as int),
        decreases places.len() - n,
    {
        left.push(places[n]);
        n += 1;
        assert(left@ =~= places@.subrange(0, n as int));
    }
    assert(left@ =~= places@);

    let mut picked: Vec<Candidate> = Vec::new();
    while picked.len() < limit && left.len() > 0
        invariant
            picked.len() <= limit,
            picked.len() + left.len() == places.len(),
            left@.to_multiset().add(picked@.to_multiset()) =~= places@.to_multiset(),
            forall|i: int, j: int|
                0 <= i < j < picked.len() ==> !comes_before(from, #[trigger] picked@[j], #[trigger] picked@[i]),
            forall|i: int, j: int|
                0 <= i < picked.len() && 0 <= j < left.len() ==> !comes_before(
                    from,
                    #[trigger] left@[j],
                    #[trigger] picked@[i],
                ),
        decreases left.len(),
    {
        let best = nearest_in(from, &left);
        let ghost before_left = left@;
        let ghost before_picked = picked@;
        let chosen = left.remove(best);
        picked.push(chosen);
        proof {
            assert(before_left.remove(best as int) =~= left@);
            assert(picked@ =~= before_picked.push(chosen));
            vstd::seq_lib::to_multiset_remove(before_left, best as int);
            vstd::seq_lib::to_multiset_build(before_picked, chosen);
            assert(left@.to_multiset() == before_left.to_multiset().remove(chosen));
            assert(picked@.to_multiset() == before_picked.to_multiset().insert(chosen));
            assert(before_left.to_multiset().count(chosen) > 0) by {
                assert(before_left[best as int] == chosen);
                assert(before_left.contains(chosen));
                vstd::seq_lib::to_multiset_contains(before_left, chosen);
            }
            assert forall|i: int, j: int|
                0 <= i < j < picked.len() implies !comes_before(from, #[trigger] picked@[j], #[trigger] picked@[i]) by {
                if j == picked.len() - 1 {
                    assert(picked@[j] == before_left[best as int]);
                    assert(picked@[i] == before_picked[i]);
                } else {
                    assert(picked@[j] == before_picked[j]);
                    assert(picked@[i] == before_picked[i]);
                }
            }
            assert forall|i: int, j: int|
                0 <= i < picked.len() && 0 <= j < left.len() implies !comes_before(
                    from,
                    #[trigger] left@[j],
                    #[trigger] picked@[i],
                ) by {
                let jj = if j < best { j } else { j + 1 };
                assert(left@[j] == before_left[jj]);
                if i == picked.len() - 1 {
                    assert(picked@[i] == before_left[best as int]);
                } else {
                    assert(picked@[i] == before_picked[i]);
                }
            }
        }
    }
    proof {
        assert forall|e: Candidate, i: int|
            #![trigger places@.to_multiset().count(e), picked@[i]]
            places@.to_multiset().count(e) > picked@.to_multiset().count(e) && 0 <= i < picked.len()
            implies !comes_before(from, e, picked@[i]) by {
            assert(left@.to_multiset().count(e) > 0);
            vstd::seq_lib::to_multiset_contains(left@, e);
            assert(left@.contains(e));
            let j = choose|j: int| 0 <= j < left.len() && left@[j] == e;
            assert(!comes_before(from, left@[j], picked@[i]));
        }
    }
    picked
}


/// What a guest feels the want of, each read off how it is feeling.
#[derive(Debug, Clone, Copy, PartialEq, Eq, Structural)]
pub struct Urges {
    /// It needs a toilet.
    pub toilet: bool,
    /// It is hungry enough to go looking for food.
    pub food: bool,
    /// It is thirsty enough to go looking for a drink.
    pub drink: bool,
    /// Its feet want a rest.
    pub sit_down: bool,
    /// It is bored enough to queue for something.
    pub ride: bool,
}

/// The most pressing of `urges`: a toilet, then food, then a drink, then a
/// sit down, and only then a ride — something to do is what the guest came
/// for, but one that is desperate or footsore sorts that out first.
pub open spec fn most_pressing(urges: Urges) -> Option<Wanted> {
    if urges.toilet {
        Some(Wanted::Something(Facility::Toilet))
    } else if urges.food {
        Some(Wanted::Something(Facility::FoodStall))
    } else if urges.drink {
        Some(Wanted::Something(Facility::DrinkStall))
    } else if urges.sit_down {
        Some(Wanted::Something(Facility::Bench))
    } else if urges.ride {
        Some(Wanted::Ride)
    } else {
        None
    }
}

/// What a guest feeling `urges` would go out of its way for, if anything.
pub fn what_it_wants(urges: Urges) -> (w: Option<Wanted>)
    ensures
        w == most_pressing(urges),
{
    if urges.toilet {
        Some(Wanted::Something(Facility::Toilet))
    } else if urges.food {
        Some(Wanted::Something(Facility::FoodStall))
    } else if urges.drink {
        Some(Wanted::Something(Facility::DrinkStall))
    } else if urges.sit_down {
        Some(Wanted::Something(Facility::Bench))
    } else if urges.ride {
        Some(Wanted::Ride)
    } else {
        None
    }
}

/// Tick `now` plus `ticks`, or the last tick there is.
pub open spec fn later(now: u64, ticks: u64) -> u64 {
    if now + ticks <= u64::MAX {
        (now + ticks) as u64
    } else {
        u64::MAX
    }
}

impl Park {
    /// What `visit` goes on to do at tick `now` if it has arrived beside
    /// what it set out for: use it until its time there is up. `None` where
    /// it was not on its way to anything, is not beside it yet, or what it
    /// came for is no longer there.
    pub open spec fn use_on_arrival(&self, visit: &Visit, now: u64) -> Option<Plan> {
        match visit.plan_of() {
            Plan::Visiting { facility } => match self.shop_on(facility) {
                Some(shop) => if visit.here().touches(facility) {
                    Some(Plan::Using { facility, until: later(now, use_time(shop.kind_of())) })
                } else {
                    None
                },
                None => None,
            },
            _ => None,
        }
    }

    /// Stops a guest that has arrived beside what it came for, and sets it
    /// using it until its time there is up. Says whether it did.
    pub fn start_using(&self, visit: &mut Visit, now: u64) -> (started: bool)
        requires
            self.wf(),
            old(visit).wf(),
        ensures
            started == (self.use_on_arrival(old(visit), now) is Some),
            started ==> old(visit).with_plan(final(visit), self.use_on_arrival(old(visit), now).unwrap()),
            !started ==> *final(visit) == *old(visit),
    {
        let Plan::Visiting { facility } = visit.plan() else {
            return false;
        };
        let Some(shop) = self.shop_at(facility) else {
            return false;
        };
        if !visit.tile().is_beside(facility) {
            return false;
        }
        let until = now.saturating_add(shop.kind().ticks_to_use());
        let ghost wanted = Plan::Using { facility, until };
        assert(decided(visit.plan_of(), wanted) == wanted);
        visit.decide(Plan::Using { facility, until });
        true
    }
}

/// Whether going for `wanted` answers one of `urges`: a toilet the need for
/// one, a food stall hunger, a drink stall thirst, a bench sore feet, and a
/// ride boredom.
pub open spec fn answers(wanted: Wanted, urges: Urges) -> bool {
    match wanted {
        Wanted::Something(Facility::Toilet) => urges.toilet,
        Wanted::Something(Facility::FoodStall) => urges.food,
        Wanted::Something(Facility::DrinkStall) => urges.drink,
        Wanted::Something(Facility::Bench) => urges.sit_down,
        Wanted::Ride => urges.ride,
        Wanted::Something(_) => false,
    }
}

/// How soon the urge that `wanted` answers has to be seen to: a toilet
/// first, then food, a drink, a sit down, and a ride last.
pub open spec fn urgency(wanted: Wanted) -> int {
    match wanted {
        Wanted::Something(Facility::Toilet) => 0,
        Wanted::Something(Facility::FoodStall) => 1,
        Wanted::Something(Facility::DrinkStall) => 2,
        Wanted::Something(Facility::Bench) => 3,
        Wanted::Ride => 4,
        Wanted::Something(_) => 5,
    }
}

/// A guest goes for something that answers one of its urges, and for
/// nothing only when it has none; of everything that would answer one, it
/// goes for what sees to the most pressing.
pub proof fn a_guest_goes_for_what_it_needs_most(urges: Urges, other: Wanted)
    ensures
        most_pressing(urges) is None <==> !(urges.toilet || urges.food || urges.drink || urges.sit_down
            || urges.ride),
        most_pressing(urges) matches Some(w) ==> answers(w, urges),
        most_pressing(urges) matches Some(w) ==> (answers(other, urges) ==> urgency(w) <= urgency(other)),
{
}

} // verus!
