//! The park itself: the land, the money, and what stands on it.
//!
//! A [`Park`] is everything a player changes: the ground, the shops and
//! scenery on it, the rides, the payroll and the books. The people walking
//! about in it are the crowd's business; where a rule here needs to know
//! where they are standing, it is told.

pub mod books;
pub mod building;
pub mod colour;
pub mod crowd;
pub mod describe;
pub mod day;
pub mod facility;
pub mod finance;
pub mod flat;
pub mod goal;
pub mod grid;
pub mod land;
pub mod lines;
pub mod money;
pub mod queue;
pub mod rating;
pub mod restore;
pub mod ride;
pub mod scenery;
pub mod shop;
pub mod staff;
pub mod terrain;
pub mod thought;
pub mod tile;
pub mod track;
pub mod visit;
pub mod weather;

pub use building::BuildError;
pub use colour::Colour;
pub use crowd::Wanted;
pub use facility::Facility;
pub use finance::{Books, Campaign, MoneyError};
pub use flat::FlatRide;
pub use goal::{Objective, Outcome};
pub use grid::Grid;
pub use land::{Land, LandError};
pub use queue::{line_from, Queue};
pub use restore::{Parts, RestoreError};
pub use ride::{Layout, OpenError, Ride, RideState, TestFailure};
pub use scenery::Scenery;
pub use shop::Shop;
pub use staff::{Staff, StaffKind};
pub use terrain::Terrain;
pub use thought::Thought;
pub use tile::TilePos;
pub use track::{Heading, Segment, Track, TrackError, TrackPiece};
pub use visit::{Footing, Plan, Route, RouteError, Visit};
pub use weather::{Turn, Weather};

use vstd::prelude::*;

use crate::park::facility::build_cost_of;
use crate::park::terrain::buildable;

verus! {

/// Money, in whole units of the park's currency.
///
/// A signed integer, because a park can absolutely go into debt, and because
/// floating point money is how rounding errors become gameplay.
pub type Money = i64;

/// One part of a park, for saying which parts something changes.
#[derive(Debug, Clone, Copy, PartialEq, Eq, Structural)]
pub enum Part {
    /// What it is called.
    Name,
    /// The ground and its heights.
    Land,
    /// The shops and benches.
    Shops,
    /// The trees, flowers and fountains.
    Scenery,
    /// The rides.
    Rides,
    /// The payroll.
    Staff,
    /// The money.
    Books,
    /// The clock.
    Clock,
    /// The ids the next ride and the next hire will get.
    Ids,
    /// The objective and how it is going.
    Goal,
    /// The sky.
    Weather,
}

/// Why a park could not be opened.
#[derive(Debug, Clone, Copy, PartialEq, Eq, Structural)]
pub enum ParkError {
    /// The land is narrower or shallower than [`Park::MIN_SIZE`].
    TooSmall {
        /// How wide the land is.
        width: u32,
        /// How deep it is.
        height: u32,
    },
}

/// The gifts a new park comes with, in the order they are put up: a stall or
/// a bench a few tiles either side of the path down from the entrance.
pub open spec fn basics(land: Land) -> Seq<(TilePos, Facility)> {
    let mid_x = land.ground_grid().cols() / 2;
    let mid_y = land.ground_grid().rows() / 2;
    seq![
        (TilePos { x: (mid_x - 1) as i32, y: (mid_y / 2) as i32 }, Facility::FoodStall),
        (TilePos { x: (mid_x + 1) as i32, y: (mid_y / 2 + 3) as i32 }, Facility::Bench),
        (TilePos { x: (mid_x + 1) as i32, y: (mid_y - 2) as i32 }, Facility::FoodStall),
        (TilePos { x: (mid_x - 1) as i32, y: (mid_y + 2) as i32 }, Facility::Bench),
        (TilePos { x: (mid_x - 1) as i32, y: (mid_y + 6) as i32 }, Facility::Bench),
    ]
}

/// The first of the first `n` entries of `plan` that stands on `tile`.
pub open spec fn planned(plan: Seq<(TilePos, Facility)>, n: int, tile: TilePos) -> Option<Facility>
    decreases n,
{
    if n <= 0 {
        None
    } else {
        match planned(plan, n - 1, tile) {
            Some(f) => Some(f),
            None => if plan[n - 1].0 == tile {
                Some(plan[n - 1].1)
            } else {
                None
            },
        }
    }
}

/// What a new park on `land` has standing on `tile`: the first gift planned
/// there, if the ground will take a building.
pub open spec fn gift_at(land: Land, n: int, tile: TilePos) -> Option<Facility> {
    match land.ground_of(tile) {
        Some(ground) => if buildable(ground) {
            planned(basics(land), n, tile)
        } else {
            None
        },
        None => None,
    }
}

/// The shop on `tile` of `shops`, if there is one.
pub open spec fn shop_in(shops: Grid<Option<Shop>>, tile: TilePos) -> Option<Shop> {
    if shops.holds(tile) {
        shops.at(tile)
    } else {
        None
    }
}

/// The scenery on `tile` of `plants`, if there is any.
pub open spec fn plant_in(plants: Grid<Option<Scenery>>, tile: TilePos) -> Option<Scenery> {
    if plants.holds(tile) {
        plants.at(tile)
    } else {
        None
    }
}

/// Whether ride `i` of `rides` stands on `tile`.
pub open spec fn covered(rides: Seq<Ride>, i: int, tile: TilePos) -> bool {
    rides[i].layout_of().covers(tile)
}

/// Whether any of `rides` stands on `tile`.
pub open spec fn on_track(rides: Seq<Ride>, tile: TilePos) -> bool {
    exists|i: int| 0 <= i < rides.len() && #[trigger] covered(rides, i, tile)
}

/// Every shop's price is on the board.
pub open spec fn shops_whole(shops: Grid<Option<Shop>>) -> bool {
    forall|t: TilePos| #[trigger] shop_in(shops, t) is Some ==> shop_in(shops, t)->0.wf()
}

/// Every ride makes sense.
pub open spec fn rides_whole(rides: Seq<Ride>) -> bool {
    forall|i: int| 0 <= i < rides.len() ==> (#[trigger] rides[i]).wf()
}

/// No tile holds more than one thing — a shop, a piece of scenery or a ride's
/// track, and never two rides told apart by their ids — and no ride runs
/// outside the `cols` by `rows` of the park.
pub open spec fn tidy(
    cols: int,
    rows: int,
    shops: Grid<Option<Shop>>,
    plants: Grid<Option<Scenery>>,
    rides: Seq<Ride>,
) -> bool {
    &&& forall|t: TilePos| #[trigger]
        shop_in(shops, t) is Some ==> plant_in(plants, t) is None && !on_track(rides, t)
    &&& forall|t: TilePos| #[trigger] plant_in(plants, t) is Some ==> !on_track(rides, t)
    &&& forall|i: int, j: int, t: TilePos|
        0 <= i < rides.len() && 0 <= j < rides.len() && rides[i].id_of() != rides[j].id_of()
            && #[trigger] covered(rides, i, t) ==> !#[trigger] covered(rides, j, t)
    &&& forall|i: int, t: TilePos|
        0 <= i < rides.len() && #[trigger] covered(rides, i, t) ==> 0 <= t.x < cols && 0 <= t.y
            < rows
}

/// Whether `tile` is free for ride `at` of `rides`, with `id`, to stand on:
/// inside the `cols` by `rows` of the park, with nothing built or planted on
/// it and no ride with another id across it.
pub open spec fn free_for(
    cols: int,
    rows: int,
    shops: Grid<Option<Shop>>,
    plants: Grid<Option<Scenery>>,
    rides: Seq<Ride>,
    at: int,
    id: u32,
    tile: TilePos,
) -> bool {
    &&& 0 <= tile.x < cols && 0 <= tile.y < rows
    &&& shop_in(shops, tile) is None
    &&& plant_in(plants, tile) is None
    &&& forall|j: int|
        0 <= j < rides.len() && j != at && rides[j].id_of() != id ==> !#[trigger] covered(
            rides,
            j,
            tile,
        )
}

/// `rides` with ride `at` replaced by `ride`, or `ride` added at the end when
/// `at` is past the last.
pub open spec fn with_ride(rides: Seq<Ride>, at: int, ride: Ride) -> Seq<Ride> {
    if at < rides.len() {
        rides.update(at, ride)
    } else {
        rides.push(ride)
    }
}

/// A ride that stands only where it stood already, or on tiles free for it,
/// leaves a tidy park tidy.
pub proof fn lemma_tidy_with_ride(
    cols: int,
    rows: int,
    shops: Grid<Option<Shop>>,
    plants: Grid<Option<Scenery>>,
    rides: Seq<Ride>,
    at: int,
    ride: Ride,
)
    requires
        tidy(cols, rows, shops, plants, rides),
        0 <= at <= rides.len(),
        at < rides.len() ==> ride.id_of() == rides[at].id_of(),
        forall|t: TilePos| #[trigger]
            ride.layout_of().covers(t) ==> (at < rides.len() && covered(rides, at, t)) || free_for(
                cols,
                rows,
                shops,
                plants,
                rides,
                at,
                ride.id_of(),
                t,
            ),
    ensures
        tidy(cols, rows, shops, plants, with_ride(rides, at, ride)),
{
    let new = with_ride(rides, at, ride);
    assert forall|i: int, t: TilePos| 0 <= i < new.len() && #[trigger] covered(new, i, t) implies (
    i != at && covered(rides, i, t)) || (i == at && ((at < rides.len() && covered(rides, at, t))
        || free_for(cols, rows, shops, plants, rides, at, ride.id_of(), t))) by {
        if i == at {
            assert(new[i] == ride);
            assert(ride.layout_of().covers(t));
        } else {
            assert(new[i] == rides[i]);
        }
    }
    assert forall|t: TilePos| #[trigger] shop_in(shops, t) is Some implies plant_in(plants, t) is None
        && !on_track(new, t) by {
        if on_track(new, t) {
            let i = choose|i: int| 0 <= i < new.len() && #[trigger] covered(new, i, t);
            if i != at {
                assert(covered(rides, i, t));
            } else if at < rides.len() && covered(rides, at, t) {
                assert(on_track(rides, t));
            }
        }
    }
    assert forall|t: TilePos| #[trigger] plant_in(plants, t) is Some implies !on_track(new, t) by {
        if on_track(new, t) {
            let i = choose|i: int| 0 <= i < new.len() && #[trigger] covered(new, i, t);
            if i != at {
                assert(covered(rides, i, t));
            } else if at < rides.len() && covered(rides, at, t) {
                assert(on_track(rides, t));
            }
        }
    }
    assert forall|i: int| 0 <= i < new.len() implies (#[trigger] new[i]).id_of() == if i == at {
        ride.id_of()
    } else {
        rides[i].id_of()
    } by {}
    assert forall|i: int, j: int, t: TilePos|
        0 <= i < new.len() && 0 <= j < new.len() && new[i].id_of() != new[j].id_of()
            && #[trigger] covered(new, i, t) implies !#[trigger] covered(new, j, t) by {
        if covered(new, j, t) {
            if i != at && j != at {
                assert(covered(rides, i, t) && covered(rides, j, t));
            } else if i == at {
                assert(covered(rides, j, t));
            } else {
                assert(covered(rides, i, t));
            }
        }
    }
    assert forall|i: int, t: TilePos| 0 <= i < new.len() && #[trigger] covered(new, i, t) implies 0
        <= t.x < cols && 0 <= t.y < rows by {
        if i != at {
            assert(covered(rides, i, t));
        } else if at < rides.len() && covered(rides, at, t) {
        }
    }
}

/// Taking a ride away leaves a tidy park tidy.
pub proof fn lemma_tidy_without_ride(
    cols: int,
    rows: int,
    shops: Grid<Option<Shop>>,
    plants: Grid<Option<Scenery>>,
    rides: Seq<Ride>,
    at: int,
)
    requires
        tidy(cols, rows, shops, plants, rides),
        0 <= at < rides.len(),
    ensures
        tidy(cols, rows, shops, plants, rides.remove(at)),
{
    let new = rides.remove(at);
    assert forall|i: int, t: TilePos| 0 <= i < new.len() && #[trigger] covered(new, i, t) implies (i
        < at && covered(rides, i, t)) || (i >= at && covered(rides, i + 1, t)) by {
        if i < at {
            assert(new[i] == rides[i]);
        } else {
            assert(new[i] == rides[i + 1]);
        }
    }
    assert forall|t: TilePos| #[trigger] shop_in(shops, t) is Some implies plant_in(plants, t) is None
        && !on_track(new, t) by {
        if on_track(new, t) {
            let i = choose|i: int| 0 <= i < new.len() && #[trigger] covered(new, i, t);
            if i < at {
                assert(covered(rides, i, t));
            } else {
                assert(covered(rides, i + 1, t));
            }
        }
    }
    assert forall|t: TilePos| #[trigger] plant_in(plants, t) is Some implies !on_track(new, t) by {
        if on_track(new, t) {
            let i = choose|i: int| 0 <= i < new.len() && #[trigger] covered(new, i, t);
            if i < at {
                assert(covered(rides, i, t));
            } else {
                assert(covered(rides, i + 1, t));
            }
        }
    }
    assert forall|i: int, j: int, t: TilePos|
        0 <= i < new.len() && 0 <= j < new.len() && new[i].id_of() != new[j].id_of()
            && #[trigger] covered(new, i, t) implies !#[trigger] covered(new, j, t) by {
        if covered(new, j, t) {
            let a = if i < at {
                i
            } else {
                i + 1
            };
            let b = if j < at {
                j
            } else {
                j + 1
            };
            assert(new[i] == rides[a] && new[j] == rides[b]);
            assert(covered(rides, a, t) && covered(rides, b, t));
        }
    }
    assert forall|i: int, t: TilePos| 0 <= i < new.len() && #[trigger] covered(new, i, t) implies 0
        <= t.x < cols && 0 <= t.y < rows by {
        if i < at {
            assert(covered(rides, i, t));
        } else {
            assert(covered(rides, i + 1, t));
        }
    }
}

/// Among rides that keep their ids, a ride found by its id is found in the
/// same place, and one that is there is found.
pub proof fn lemma_ride_index_kept(before: &Park, after: &Park, id: u32)
    requires
        before.has_ride(id),
        after.rides_of().len() == before.rides_of().len(),
        forall|j: int|
            0 <= j < before.rides_of().len() ==> (#[trigger] after.rides_of()[j]).id_of()
                == before.rides_of()[j].id_of(),
    ensures
        before.is_first_ride(before.ride_index(id), id),
        after.has_ride(id),
        after.ride_index(id) == before.ride_index(id),
        after.is_first_ride(after.ride_index(id), id),
{
    let k = choose|k: int| 0 <= k < before.rides_of().len() && (#[trigger] before.rides_of()[k]).id_of() == id;
    lemma_first_ride_below(before, id, k);
    let i = before.ride_index(id);
    assert(after.rides_of()[i].id_of() == id);
    assert(after.is_first_ride(i, id));
    let m = after.ride_index(id);
    assert(after.is_first_ride(m, id));
    if m < i {
        assert(before.rides_of()[m].id_of() == id);
    } else if i < m {
        assert(after.rides_of()[i].id_of() == id);
    }
}

/// A ride with `id` at `k` means there is a first one, no later than `k`.
pub proof fn lemma_first_ride_below(park: &Park, id: u32, k: int)
    requires
        0 <= k < park.rides_of().len(),
        park.rides_of()[k].id_of() == id,
    ensures
        exists|i: int| #[trigger] park.is_first_ride(i, id),
        park.is_first_ride(park.ride_index(id), id),
    decreases k,
{
    if forall|j: int| 0 <= j < k ==> (#[trigger] park.rides_of()[j]).id_of() != id {
        assert(park.is_first_ride(k, id));
    } else {
        let j = choose|j: int| 0 <= j < k && (#[trigger] park.rides_of()[j]).id_of() == id;
        lemma_first_ride_below(park, id, j);
    }
}

/// A park as one value: what it is called, its land, what is built and
/// planted on each tile, its rides and its staff, its books, its clock and
/// the ids it will hand out next, what it has been asked to do and how that
/// is going, and the sky over it.
pub ghost struct ParkModel {
    pub name: Seq<char>,
    pub land: Land,
    pub shops: spec_fn(TilePos) -> Option<Shop>,
    pub plants: spec_fn(TilePos) -> Option<Scenery>,
    pub rides: Seq<Ride>,
    pub staff: Seq<Staff>,
    pub books: Books,
    pub clock: u64,
    pub next_ride: u32,
    pub next_hire: u32,
    pub objective: Objective,
    pub outcome: Outcome,
    pub weather: Weather,
}

/// Everything about one park that a player changes.
#[derive(Debug, Clone, PartialEq, Eq)]
pub struct Park {
    name: String,
    land: Land,
    facilities: Grid<Option<Shop>>,
    scenery: Grid<Option<Scenery>>,
    rides: Vec<Ride>,
    staff: Vec<Staff>,
    books: Books,
    tick: u64,
    /// The id the next ride built will get.
    next_ride_id: u32,
    /// The id the next member of staff hired will get.
    next_staff_id: u32,
    objective: Objective,
    outcome: Outcome,
    weather: Weather,
}

impl Park {
    /// The smallest park worth having, in tiles per side.
    pub const MIN_SIZE: u32 = 8;

    /// What a guest pays at the turnstile.
    pub const ADMISSION: Money = 20;

    /// How many guests the park holds before the queue outside stops moving.
    pub const CAPACITY: usize = 120;

    /// How many ticks pass between one wage bill and the next.
    pub const TICKS_PER_WAGE_BILL: u64 = 1_200;

    /// What it costs to move one tile of land by one step.
    pub const LANDSCAPING: Money = 20;

    /// How many rides one park can hold.
    pub const MAX_RIDES: usize = 32;

    /// How many ticks pass between arrivals at a park nobody has heard of.
    pub const SLOWEST_ARRIVALS: u64 = 90;

    /// How many ticks pass between arrivals at a park everybody is talking
    /// about.
    pub const FASTEST_ARRIVALS: u64 = 22;

    /// How many ticks a handyman takes to put one tile of dirt back to grass,
    /// and a mechanic to put one broken ride back together.
    pub const TICKS_PER_TIDY: u64 = 200;

    /// What it is called.
    pub closed spec fn name_of(&self) -> Seq<char> {
        self.name@
    }

    /// The ground.
    pub closed spec fn land_of(&self) -> Land {
        self.land
    }

    /// What is built on each tile.
    pub closed spec fn shops_of(&self) -> Grid<Option<Shop>> {
        self.facilities
    }

    /// What is planted on each tile.
    pub closed spec fn plants_of(&self) -> Grid<Option<Scenery>> {
        self.scenery
    }

    /// Every ride, in the order they were started.
    pub closed spec fn rides_of(&self) -> Seq<Ride> {
        self.rides@
    }

    /// Everybody on the payroll, in the order they were taken on.
    pub closed spec fn staff_of(&self) -> Seq<Staff> {
        self.staff@
    }

    /// The money.
    pub closed spec fn books_of(&self) -> Books {
        self.books
    }

    /// How many ticks the park has been open.
    pub closed spec fn clock(&self) -> u64 {
        self.tick
    }

    /// The id the next ride will get.
    pub closed spec fn next_ride(&self) -> u32 {
        self.next_ride_id
    }

    /// The id the next hire will get.
    pub closed spec fn next_hire(&self) -> u32 {
        self.next_staff_id
    }

    /// What the park has been asked to do.
    pub closed spec fn objective_of(&self) -> Objective {
        self.objective
    }

    /// How that is going.
    pub closed spec fn outcome_of(&self) -> Outcome {
        self.outcome
    }

    /// The sky over it.
    pub closed spec fn weather_of(&self) -> Weather {
        self.weather
    }

    /// This park as one value.
    pub open spec fn model(&self) -> ParkModel {
        ParkModel {
            name: self.name_of(),
            land: self.land_of(),
            shops: |t: TilePos| self.shop_on(t),
            plants: |t: TilePos| self.plant_on(t),
            rides: self.rides_of(),
            staff: self.staff_of(),
            books: self.books_of(),
            clock: self.clock(),
            next_ride: self.next_ride(),
            next_hire: self.next_hire(),
            objective: self.objective_of(),
            outcome: self.outcome_of(),
            weather: self.weather_of(),
        }
    }

    /// How wide the park is, in tiles.
    pub open spec fn cols(&self) -> int {
        self.land_of().ground_grid().cols()
    }

    /// How deep the park is, in tiles.
    pub open spec fn rows(&self) -> int {
        self.land_of().ground_grid().rows()
    }

    /// The shop on `tile`, if there is one.
    #[verifier::inline]
    pub open spec fn shop_on(&self, tile: TilePos) -> Option<Shop> {
        shop_in(self.shops_of(), tile)
    }

    /// The scenery on `tile`, if there is any.
    #[verifier::inline]
    pub open spec fn plant_on(&self, tile: TilePos) -> Option<Scenery> {
        plant_in(self.plants_of(), tile)
    }

    /// Whether ride `i` stands on `tile`.
    #[verifier::inline]
    pub open spec fn ride_covers(&self, i: int, tile: TilePos) -> bool {
        covered(self.rides_of(), i, tile)
    }

    /// Whether any ride stands on `tile`.
    #[verifier::inline]
    pub open spec fn track_on(&self, tile: TilePos) -> bool {
        on_track(self.rides_of(), tile)
    }

    /// Whether ride `i` is the first with `id`.
    pub open spec fn is_first_ride(&self, i: int, id: u32) -> bool {
        &&& 0 <= i < self.rides_of().len()
        &&& self.rides_of()[i].id_of() == id
        &&& forall|j: int| 0 <= j < i ==> (#[trigger] self.rides_of()[j]).id_of() != id
    }

    /// Whether the park has a ride with `id`.
    pub open spec fn has_ride(&self, id: u32) -> bool {
        exists|i: int| 0 <= i < self.rides_of().len() && (#[trigger] self.rides_of()[i]).id_of() == id
    }

    /// Where the first ride with `id` is in the list.
    pub open spec fn ride_index(&self, id: u32) -> int {
        choose|i: int| self.is_first_ride(i, id)
    }

    /// Where guests come in: where the path down the middle meets the top
    /// edge.
    pub open spec fn entrance_of(&self) -> TilePos {
        TilePos { x: (self.cols() / 2) as i32, y: 0 }
    }

    /// A park that makes sense.
    ///
    /// The ground, the shops and the scenery are the same shape; every shop,
    /// ride and the books are whole; and no tile holds more than one thing: a
    /// shop, a piece of scenery or a ride's track, and never two rides. Every
    /// ride stands inside the park.
    pub open spec fn wf(&self) -> bool {
        &&& self.land_of().wf()
        &&& self.shops_of().wf()
        &&& self.plants_of().wf()
        &&& self.shops_of().cols() == self.cols()
        &&& self.shops_of().rows() == self.rows()
        &&& self.plants_of().cols() == self.cols()
        &&& self.plants_of().rows() == self.rows()
        &&& shops_whole(self.shops_of())
        &&& self.rides_of().len() <= Self::MAX_RIDES
        &&& rides_whole(self.rides_of())
        &&& self.books_of().wf()
        &&& tidy(self.cols(), self.rows(), self.shops_of(), self.plants_of(), self.rides_of())
    }

    /// Whether `other` is this park with nothing changed but `parts`.
    pub open spec fn differs_only_in(&self, other: &Park, parts: Set<Part>) -> bool {
        &&& !parts.contains(Part::Name) ==> other.name_of() == self.name_of()
        &&& !parts.contains(Part::Land) ==> other.land_of() == self.land_of()
        &&& !parts.contains(Part::Shops) ==> other.shops_of() == self.shops_of()
        &&& !parts.contains(Part::Scenery) ==> other.plants_of() == self.plants_of()
        &&& !parts.contains(Part::Rides) ==> other.rides_of() == self.rides_of()
        &&& !parts.contains(Part::Staff) ==> other.staff_of() == self.staff_of()
        &&& !parts.contains(Part::Books) ==> other.books_of() == self.books_of()
        &&& !parts.contains(Part::Clock) ==> other.clock() == self.clock()
        &&& !parts.contains(Part::Ids) ==> other.next_ride() == self.next_ride()
            && other.next_hire() == self.next_hire()
        &&& !parts.contains(Part::Goal) ==> other.objective_of() == self.objective_of()
            && other.outcome_of() == self.outcome_of()
        &&& !parts.contains(Part::Weather) ==> other.weather_of() == self.weather_of()
    }

    /// Whether `self` is a park just opened under `name` on `land`: the
    /// land as it was given, the handful of stalls and benches a new park
    /// is given and nothing else built or planted, no rides, nobody on the
    /// payroll, the starting money, the clock at nothing, the standard
    /// objective still to play for, and a fine day.
    pub open spec fn opened_on(&self, name: Seq<char>, land: Land) -> bool {
        &&& self.wf()
        &&& self.name_of() == name
        &&& self.land_of() == land
        &&& forall|t: TilePos| #[trigger]
            gift_at(land, 5, t) is None ==> self.shop_on(t) is None
        &&& forall|t: TilePos| #[trigger]
            gift_at(land, 5, t) matches Some(f) ==> (self.shop_on(t) matches Some(s) && s.is_new(f))
        &&& forall|t: TilePos| #[trigger] self.plant_on(t) is None
        &&& self.rides_of().len() == 0
        &&& self.staff_of().len() == 0
        &&& self.books_of().cash_of() == Books::STARTING_CASH
        &&& self.books_of().loan_of() == 0
        &&& self.books_of().campaign_of() is None
        &&& self.books_of().reputation_of() == 0
        &&& self.books_of().closed_at() is None
        &&& self.clock() == 0
        &&& self.next_ride() == 0
        &&& self.next_hire() == 0
        &&& self.objective_of().guests == Objective::GUESTS
        &&& self.objective_of().by == Objective::DEADLINE
        &&& self.outcome_of() == Outcome::Pending
        &&& self.weather_of() == Weather::Sunny
    }

    /// A park on `land`, open with the handful of stalls and benches a new
    /// park is given.
    ///
    /// Fails if either side of the land is shorter than [`Park::MIN_SIZE`].
    pub fn new(name: &str, land: Land) -> (r: Result<Park, ParkError>)
        requires
            land.wf(),
        ensures
            r is Err <==> land.ground_grid().cols() < Self::MIN_SIZE
                || land.ground_grid().rows() < Self::MIN_SIZE,
            r matches Err(e) ==> e == (ParkError::TooSmall {
                width: land.ground_grid().cols() as u32,
                height: land.ground_grid().rows() as u32,
            }),
            r matches Ok(park) ==> park.opened_on(name@, land),
    {
        let width = land.width();
        let height = land.height();
        if width < Self::MIN_SIZE || height < Self::MIN_SIZE {
            return Err(ParkError::TooSmall { width, height });
        }
        let facilities = match Grid::filled(width, height, None) {
            Some(g) => g,
            None => {
                return Err(ParkError::TooSmall { width, height });
            },
        };
        let scenery = match Grid::filled(width, height, None) {
            Some(g) => g,
            None => {
                return Err(ParkError::TooSmall { width, height });
            },
        };
        let mut park = Park {
            name: String::from_str(name),
            land,
            facilities,
            scenery,
            rides: Vec::new(),
            staff: Vec::new(),
            books: Books::new(),
            tick: 0,
            next_ride_id: 0,
            next_staff_id: 0,
            objective: Objective::standard(),
            outcome: Outcome::Pending,
            weather: Weather::default(),
        };
        proof {
            assert forall|t: TilePos| #[trigger] park.shop_on(t) is None by {
                if park.shops_of().holds(t) {
                    crate::park::grid::lemma_slot_in_range(
                        park.shops_of().cols(),
                        park.shops_of().rows(),
                        t.x as int,
                        t.y as int,
                    );
                }
            }
            assert forall|t: TilePos| #[trigger] park.plant_on(t) is None by {
                if park.plants_of().holds(t) {
                    crate::park::grid::lemma_slot_in_range(
                        park.plants_of().cols(),
                        park.plants_of().rows(),
                        t.x as int,
                        t.y as int,
                    );
                }
            }
        }
        park.open_with_the_basics();
        Ok(park)
    }

    /// Puts up the handful of stalls and benches a new park comes with.
    ///
    /// They are a gift rather than a purchase, and ground that will not take
    /// one is simply left alone.
    fn open_with_the_basics(&mut self)
        requires
            old(self).wf(),
            old(self).cols() >= Self::MIN_SIZE,
            old(self).rows() >= Self::MIN_SIZE,
            old(self).rides_of().len() == 0,
            forall|t: TilePos| #[trigger] old(self).shop_on(t) is None,
            forall|t: TilePos| #[trigger] old(self).plant_on(t) is None,
        ensures
            final(self).wf(),
            old(self).differs_only_in(&*final(self), set![Part::Shops]),
            forall|t: TilePos| #[trigger] final(self).plant_on(t) is None,
            forall|t: TilePos| #[trigger]
                gift_at(final(self).land_of(), 5, t) is None ==> final(self).shop_on(t) is None,
            forall|t: TilePos| #[trigger]
                gift_at(final(self).land_of(), 5, t) matches Some(f) ==> (final(self).shop_on(t) matches Some(s) && s.is_new(f)),
    {
        let mid_x: i32 = (self.land.width() / 2) as i32;
        let mid_y: i32 = (self.land.height() / 2) as i32;
        let plan: [(TilePos, Facility); 5] = [
            (TilePos::new(mid_x - 1, mid_y / 2), Facility::FoodStall),
            (TilePos::new(mid_x + 1, mid_y / 2 + 3), Facility::Bench),
            (TilePos::new(mid_x + 1, mid_y - 2), Facility::FoodStall),
            (TilePos::new(mid_x - 1, mid_y + 2), Facility::Bench),
            (TilePos::new(mid_x - 1, mid_y + 6), Facility::Bench),
        ];
        let ghost land = self.land_of();
        let ghost start = *self;
        assert(plan@ =~= basics(land));
        let mut k: usize = 0;
        while k < 5
            invariant
                k <= 5,
                plan@ == basics(land),
                self.wf(),
                self.land_of() == land,
                self.rides_of().len() == 0,
                start.differs_only_in(&*self, set![Part::Shops]),
                forall|t: TilePos| #[trigger] self.plant_on(t) is None,
                forall|t: TilePos| #[trigger]
                    gift_at(land, k as int, t) is None ==> self.shop_on(t) is None,
                forall|t: TilePos| #[trigger]
                    gift_at(land, k as int, t) matches Some(f) ==> (self.shop_on(t) matches Some(s) && s.is_new(f)),
            decreases 5 - k,
        {
            let (tile, facility) = plan[k];
            let ghost before = *self;
            let _ = self.put_up(tile, facility);
            proof {
                assert forall|t: TilePos| (gift_at(land, k + 1, t) is None ==> #[trigger] self.shop_on(t) is None)
                    && (gift_at(land, k + 1, t) matches Some(f) ==> (self.shop_on(t) matches Some(s) && s.is_new(f))) by {
                    assert(gift_at(land, k as int, t) is None ==> before.shop_on(t) is None);
                    assert(gift_at(land, k as int, t) matches Some(f) ==> (before.shop_on(t) matches Some(s) && s.is_new(f)));
                    assert(!before.track_on(t));
                }
            }
            k += 1;
        }
    }

    /// The park's name.
    pub fn name(&self) -> (n: &str)
        ensures
            n@ == self.name_of(),
    {
        self.name.as_str()
    }

    /// The land: what the ground is made of and how high it stands.
    pub fn land(&self) -> (l: &Land)
        ensures
            *l == self.land_of(),
    {
        &self.land
    }

    /// What the ground is made of, tile by tile.
    pub fn terrain(&self) -> (g: &Grid<Terrain>)
        ensures
            *g == self.land_of().ground_grid(),
    {
        self.land.terrain()
    }

    /// What has been built on it.
    pub fn facilities(&self) -> (g: &Grid<Option<Shop>>)
        ensures
            *g == self.shops_of(),
    {
        &self.facilities
    }

    /// What has been planted on it.
    pub fn scenery(&self) -> (g: &Grid<Option<Scenery>>)
        ensures
            *g == self.plants_of(),
    {
        &self.scenery
    }

    /// The shop standing on one tile, with its price and its till.
    pub fn shop_at(&self, tile: TilePos) -> (s: Option<Shop>)
        requires
            self.wf(),
        ensures
            s == self.shop_on(tile),
    {
        match self.facilities.get(tile) {
            Some(built) => built,
            None => None,
        }
    }

    /// What stands on one tile, if anything does.
    pub fn facility_at(&self, tile: TilePos) -> (f: Option<Facility>)
        requires
            self.wf(),
        ensures
            f == (match self.shop_on(tile) {
                Some(s) => Some(s.kind_of()),
                None => None,
            }),
    {
        match self.shop_at(tile) {
            Some(shop) => Some(shop.kind()),
            None => None,
        }
    }

    /// The scenery standing on one tile, if any.
    pub fn scenery_at(&self, tile: TilePos) -> (s: Option<Scenery>)
        requires
            self.wf(),
        ensures
            s == self.plant_on(tile),
    {
        match self.scenery.get(tile) {
            Some(planted) => planted,
            None => None,
        }
    }

    /// The tile guests arrive on: where the path down the middle meets the
    /// top edge.
    pub fn entrance(&self) -> (t: TilePos)
        requires
            self.wf(),
        ensures
            t == self.entrance_of(),
    {
        TilePos::new((self.land.width() / 2) as i32, 0)
    }

    /// How much money is in the bank.
    pub fn cash(&self) -> (c: Money)
        ensures
            c == self.books_of().cash_of(),
    {
        self.books.cash()
    }

    /// How many ticks the park has been open.
    pub fn tick(&self) -> (t: u64)
        ensures
            t == self.clock(),
    {
        self.tick
    }

    /// The id the next ride built will get.
    pub fn next_ride_id(&self) -> (id: u32)
        ensures
            id == self.next_ride(),
    {
        self.next_ride_id
    }

    /// The id the next member of staff hired will get.
    pub fn next_staff_id(&self) -> (id: u32)
        ensures
            id == self.next_hire(),
    {
        self.next_staff_id
    }

    /// The width of the park in tiles.
    pub fn width(&self) -> (w: u32)
        ensures
            w == self.cols(),
    {
        self.land.width()
    }

    /// The depth of the park in tiles.
    pub fn height(&self) -> (h: u32)
        requires
            self.wf(),
        ensures
            h == self.rows(),
    {
        self.land.height()
    }

    /// Every ride in the park.
    pub fn rides(&self) -> (r: &[Ride])
        ensures
            r@ == self.rides_of(),
    {
        self.rides.as_slice()
    }

    /// Everybody the park is paying.
    pub fn staff(&self) -> (s: &[Staff])
        ensures
            s@ == self.staff_of(),
    {
        self.staff.as_slice()
    }

    /// Where the first ride with `id` is in the list, if there is one.
    pub fn find_ride(&self, id: u32) -> (at: Option<usize>)
        ensures
            at is None <==> !self.has_ride(id),
            at matches Some(i) ==> i == self.ride_index(id) && self.is_first_ride(i as int, id),
    {
        let mut i: usize = 0;
        while i < self.rides.len()
            invariant
                i <= self.rides_of().len(),
                forall|j: int| 0 <= j < i ==> (#[trigger] self.rides_of()[j]).id_of() != id,
            decreases self.rides_of().len() - i,
        {
            if self.rides[i].id() == id {
                assert(self.is_first_ride(i as int, id));
                return Some(i);
            }
            i += 1;
        }
        None
    }

    /// One ride by its id.
    pub fn ride(&self, id: u32) -> (r: Option<&Ride>)
        ensures
            r is None <==> !self.has_ride(id),
            r matches Some(ride) ==> *ride == self.rides_of()[self.ride_index(id)],
    {
        match self.find_ride(id) {
            Some(i) => Some(&self.rides[i]),
            None => None,
        }
    }

    /// Whichever ride stands on `tile`, if any does.
    pub fn ride_at(&self, tile: TilePos) -> (r: Option<&Ride>)
        requires
            self.wf(),
        ensures
            r is None <==> !self.track_on(tile),
            r matches Some(ride) ==> exists|i: int|
                0 <= i < self.rides_of().len() && #[trigger] self.ride_covers(i, tile) && *ride
                    == self.rides_of()[i] && forall|j: int|
                    0 <= j < i ==> !#[trigger] self.ride_covers(j, tile),
    {
        let mut i: usize = 0;
        while i < self.rides.len()
            invariant
                self.wf(),
                i <= self.rides_of().len(),
                forall|j: int| 0 <= j < i ==> !#[trigger] self.ride_covers(j, tile),
            decreases self.rides_of().len() - i,
        {
            if self.rides[i].occupies(tile) {
                assert(self.ride_covers(i as int, tile));
                return Some(&self.rides[i]);
            }
            i += 1;
        }
        None
    }

    /// Replaces the terrain of one tile, free of charge, returning what was
    /// there.
    ///
    /// Returns `None` and changes nothing if the tile is outside the park.
    /// This is the map maker's door in; [`Park::lay`] is the player's, and it
    /// charges.
    pub fn set_terrain(&mut self, tile: TilePos, terrain: Terrain) -> (was: Option<Terrain>)
        requires
            old(self).wf(),
        ensures
            final(self).wf(),
            old(self).differs_only_in(&*final(self), set![Part::Land]),
            was == old(self).land_of().ground_of(tile),
            forall|t: TilePos| #[trigger]
                final(self).land_of().ground_of(t) == if t == tile && old(self).land_of().holds(
                    tile,
                ) {
                    Some(terrain)
                } else {
                    old(self).land_of().ground_of(t)
                },
            forall|t: TilePos| #[trigger]
                final(self).land_of().height_of(t) == old(self).land_of().height_of(t),
    {
        self.land.set_ground(tile, terrain)
    }

    /// What the sky is doing.
    pub fn weather(&self) -> (w: Weather)
        ensures
            w == self.weather_of(),
    {
        self.weather
    }

    /// Changes the sky.
    pub fn set_weather(&mut self, weather: Weather)
        requires
            old(self).wf(),
        ensures
            final(self).wf(),
            final(self).weather_of() == weather,
            old(self).differs_only_in(&*final(self), set![Part::Weather]),
    {
        self.weather = weather;
    }
}

/// A new park is the same park every time: two parks opened under the same
/// name on the same land are one and the same park — the same land, the same
/// stalls and benches on the same tiles, nothing planted, no rides, nobody
/// on the payroll, the same books, clock, ids, objective and weather.
pub proof fn a_new_park_is_the_same_every_time(a: &Park, b: &Park, name: Seq<char>, land: Land)
    requires
        a.opened_on(name, land),
        b.opened_on(name, land),
    ensures
        a.model() == b.model(),
        a.name_of() == b.name_of(),
        a.land_of() == b.land_of(),
        forall|t: TilePos| #[trigger] a.shop_on(t) == b.shop_on(t),
        forall|t: TilePos| #[trigger] a.plant_on(t) == b.plant_on(t),
        a.rides_of() == b.rides_of(),
        a.staff_of() == b.staff_of(),
        a.books_of() == b.books_of(),
        a.clock() == b.clock(),
        a.next_ride() == b.next_ride(),
        a.next_hire() == b.next_hire(),
        a.objective_of() == b.objective_of(),
        a.outcome_of() == b.outcome_of(),
        a.weather_of() == b.weather_of(),
{
    assert forall|t: TilePos| #[trigger] a.shop_on(t) == b.shop_on(t) by {
        if let Some(f) = gift_at(land, 5, t) {
            crate::park::shop::new_shops_are_alike(a.shop_on(t)->0, b.shop_on(t)->0, f);
        }
    }
    assert forall|t: TilePos| #[trigger] a.plant_on(t) == b.plant_on(t) by {
        assert(a.plant_on(t) is None && b.plant_on(t) is None);
    }
    crate::park::finance::books_alike(a.books_of(), b.books_of());
    assert(a.rides_of() =~= b.rides_of());
    assert(a.staff_of() =~= b.staff_of());
    assert(a.model().shops =~= b.model().shops);
    assert(a.model().plants =~= b.model().plants);
}

} // verus!
