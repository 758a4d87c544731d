//! A ride: what it is laid out as, whether it may run, what it charges, and
//! what it has taken.
//!
//! How a train moves, and what a test run measures, are fractions of a tile
//! per tick and are worked out where the simulation runs; everything here is
//! whole numbers and decisions.

use vstd::prelude::*;
use vstd::string::*;

use crate::park::flat::{flat_footprint, flat_upkeep};
use crate::park::money::{add_saturating, clamp, clamped, sat_sum, sub_saturating};
use crate::park::shop::count_on;
use crate::park::track::upkeep_of;
use crate::park::{FlatRide, Money, Segment, TilePos, Track, TrackError, TrackPiece};

verus! {

/// Why a layout could not be sent round.
#[derive(Debug, Clone, Copy, PartialEq, Eq, Structural)]
pub enum TestFailure {
    /// The track does not come back to the station.
    NotACircuit,
    /// There is nowhere for guests to get on.
    NoStation,
    /// The train ran out of speed partway round.
    Stalled,
}

/// What to tell whoever pressed the button about a failed test.
pub open spec fn failure_text(f: TestFailure) -> Seq<char> {
    match f {
        TestFailure::NotACircuit => "the track does not come back to the station"@,
        TestFailure::NoStation => "there is nowhere for guests to get on"@,
        TestFailure::Stalled => "the test train stalled: it needs more height to start with"@,
    }
}

impl TestFailure {
    /// What to tell whoever pressed the button.
    pub fn why(self) -> (s: &'static str)
        ensures
            s@ == failure_text(self),
    {
        match self {
            TestFailure::NotACircuit => "the track does not come back to the station",
            TestFailure::NoStation => "there is nowhere for guests to get on",
            TestFailure::Stalled => "the test train stalled: it needs more height to start with",
        }
    }
}

/// Whether a ride is running, and why not.
#[derive(Debug, Clone, Copy, PartialEq, Eq, Hash, Structural)]
pub enum RideState {
    /// Still being laid: not tested, cannot open.
    Building,
    /// Tested and shut: everything works, nobody is being let on.
    Closed,
    /// Running.
    Open,
    /// Stopped until a mechanic gets to it.
    Broken,
}

/// Why a ride would not open.
#[derive(Debug, Clone, Copy, PartialEq, Eq, Structural)]
pub enum OpenError {
    /// It has not been tested since its track last changed.
    Untested,
    /// It is broken down and needs a mechanic.
    Broken,
}

/// What opening a ride in `state`, tested or not, leads to.
pub open spec fn opening(state: RideState, tested: bool) -> Result<RideState, OpenError> {
    if !tested {
        Err(OpenError::Untested)
    } else if state is Broken {
        Err(OpenError::Broken)
    } else {
        Ok(RideState::Open)
    }
}

/// What repairing a ride in `state` leads to.
pub open spec fn repaired(state: RideState) -> RideState {
    if state is Broken {
        RideState::Closed
    } else {
        state
    }
}

impl RideState {
    /// A ride starts out being built.
    pub fn default() -> (s: Self)
        ensures
            s == RideState::Building,
    {
        RideState::Building
    }

    /// What opening a ride in this state does.
    ///
    /// A ride has to have been tested since its track last changed, and a
    /// broken one needs a mechanic before anything else.
    pub fn open(self, tested: bool) -> (r: Result<RideState, OpenError>)
        ensures
            r == opening(self, tested),
    {
        if !tested {
            return Err(OpenError::Untested);
        }
        if self == RideState::Broken {
            return Err(OpenError::Broken);
        }
        Ok(RideState::Open)
    }

    /// What a repair does: a broken ride comes back shut, anything else is
    /// left as it was.
    pub fn repair(self) -> (s: RideState)
        ensures
            s == repaired(self),
    {
        if self == RideState::Broken {
            RideState::Closed
        } else {
            self
        }
    }
}

/// A broken ride never opens until it is repaired, and once repaired a tested
/// ride opens again.
pub proof fn a_broken_ride_waits_for_a_mechanic(tested: bool)
    ensures
        opening(RideState::Broken, tested) is Err,
        tested ==> opening(repaired(RideState::Broken), tested) == Ok::<RideState, OpenError>(
            RideState::Open,
        ),
{
}

/// What a ride is laid out as.
#[derive(Debug, Clone, PartialEq, Eq)]
pub enum Layout {
    /// Track laid a piece at a time.
    Track(Track),
    /// A ride that comes as it is, standing with its corner on a tile.
    Flat {
        /// What was bought.
        kind: FlatRide,
        /// The corner with the lowest row and column.
        corner: TilePos,
    },
}

/// Whether `tile` is inside the square of `side` tiles from `corner`.
pub open spec fn in_square(corner: TilePos, side: int, tile: TilePos) -> bool {
    corner.x <= tile.x < corner.x + side && corner.y <= tile.y < corner.y + side
}

/// The tiles of the square of `side` from `corner`, row by row.
pub open spec fn square(corner: TilePos, side: int) -> Seq<TilePos> {
    Seq::new(
        (side * side) as nat,
        |i: int| TilePos { x: (corner.x + i % side) as i32, y: (corner.y + i / side) as i32 },
    )
}

impl Layout {
    /// A layout that makes sense: track that is whole, or a square that fits
    /// in the numbers a tile can hold.
    pub open spec fn wf(&self) -> bool {
        match self {
            Layout::Track(t) => t.wf(),
            Layout::Flat { kind, corner } => Track::within_reach(*corner),
        }
    }

    /// Whether the layout stands on `tile`.
    pub open spec fn covers(&self, tile: TilePos) -> bool {
        match self {
            Layout::Track(t) => t.covers(tile),
            Layout::Flat { kind, corner } => in_square(*corner, flat_footprint(*kind) as int, tile),
        }
    }

    /// Every tile the layout stands on.
    pub open spec fn tile_seq(&self) -> Seq<TilePos> {
        match self {
            Layout::Track(t) => t.tile_seq(),
            Layout::Flat { kind, corner } => square(*corner, flat_footprint(*kind) as int),
        }
    }

    /// The tiles guests board from the side of.
    pub open spec fn station_seq(&self) -> Seq<TilePos> {
        match self {
            Layout::Track(t) => t.stations_in(t.laid().len()),
            Layout::Flat { kind, corner } => seq![*corner],
        }
    }

    /// What the layout costs to keep in service for a wage bill.
    pub open spec fn upkeep_spec(&self) -> Money {
        match self {
            Layout::Track(t) => upkeep_of(t.laid(), t.laid().len()) as Money,
            Layout::Flat { kind, corner } => flat_upkeep(*kind),
        }
    }

    /// Whether the layout stands on `tile`.
    pub fn occupies(&self, tile: TilePos) -> (b: bool)
        requires
            self.wf(),
        ensures
            b == self.covers(tile),
    {
        match self {
            Layout::Track(t) => t.occupies(tile),
            Layout::Flat { kind, corner } => {
                let side = kind.footprint() as i64;
                let (x, y) = (tile.x as i64, tile.y as i64);
                let (cx, cy) = (corner.x as i64, corner.y as i64);
                cx <= x && x < cx + side && cy <= y && y < cy + side
            },
        }
    }

    /// Every tile the layout stands on.
    pub fn tiles(&self) -> (tiles: Vec<TilePos>)
        requires
            self.wf(),
        ensures
            tiles@ == self.tile_seq(),
    {
        match self {
            Layout::Track(t) => t.tiles(),
            Layout::Flat { kind, corner } => {
                let side = kind.footprint();
                let mut tiles: Vec<TilePos> = Vec::new();
                let mut i: u32 = 0;
                while i < side * side
                    invariant
                        side == flat_footprint(*kind),
                        2 <= side <= 3,
                        Track::within_reach(*corner),
                        i <= side * side,
                        tiles@ =~= square(*corner, side as int).take(i as int),
                    decreases side * side - i,
                {
                    let t = TilePos::new(corner.x + (i % side) as i32, corner.y + (i / side) as i32);
                    tiles.push(t);
                    i += 1;
                }
                tiles
            },
        }
    }

    /// The tiles guests board from the side of.
    pub fn stations(&self) -> (tiles: Vec<TilePos>)
        requires
            self.wf(),
        ensures
            tiles@ == self.station_seq(),
    {
        match self {
            Layout::Track(t) => t.stations(),
            Layout::Flat { kind, corner } => {
                let v = vec![*corner];
                assert(v@ =~= seq![*corner]);
                v
            },
        }
    }

    /// What it costs to keep in service for one wage bill.
    pub fn upkeep(&self) -> (c: Money)
        requires
            self.wf(),
        ensures
            c == self.upkeep_spec(),
    {
        match self {
            Layout::Track(t) => t.upkeep(),
            Layout::Flat { kind, corner } => kind.upkeep(),
        }
    }
}

/// One ride: a layout, a price, whether it is running, and its till.
#[derive(Debug, Clone, PartialEq, Eq)]
pub struct Ride {
    id: u32,
    name: String,
    layout: Layout,
    price: Money,
    state: RideState,
    /// Whether it has passed a test run since its layout last changed.
    tested: bool,
    /// How many guests have ridden it.
    riders: u32,
    /// What its till has taken.
    takings: Money,
}

impl Ride {
    /// What a new ride charges until its owner says otherwise.
    pub const DEFAULT_PRICE: Money = 15;

    /// The most anything can charge for a ride.
    pub const MAX_PRICE: Money = 100;

    /// How much one nudge of the price tool moves it.
    pub const PRICE_STEP: Money = 2;

    /// How many guests one train carries.
    pub const SEATS: u32 = 8;

    /// How long a train stands in the station, loading.
    pub const DWELL: u32 = 120;

    /// Which ride this is.
    pub closed spec fn id_of(&self) -> u32 {
        self.id
    }

    /// What it is called.
    pub closed spec fn name_of(&self) -> Seq<char> {
        self.name@
    }

    /// What it is laid out as.
    pub closed spec fn layout_of(&self) -> Layout {
        self.layout
    }

    /// What it charges.
    pub closed spec fn price_of(&self) -> Money {
        self.price
    }

    /// Whether it is running, and why not.
    pub closed spec fn state_of(&self) -> RideState {
        self.state
    }

    /// Whether it has passed a test since its layout last changed.
    pub closed spec fn is_tested(&self) -> bool {
        self.tested
    }

    /// How many guests have ridden it.
    pub closed spec fn riders_of(&self) -> u32 {
        self.riders
    }

    /// What its till has taken.
    pub closed spec fn takings_of(&self) -> Money {
        self.takings
    }

    /// A ride that makes sense: a whole layout, a price on the board, and a
    /// ride that is running only once it has been tested.
    pub open spec fn wf(&self) -> bool {
        &&& self.layout_of().wf()
        &&& 0 <= self.price_of() <= Self::MAX_PRICE
        &&& self.state_of() is Open ==> self.is_tested()
        &&& self.state_of() is Building ==> !self.is_tested()
    }

    /// The same ride in everything but what `changed` names.
    pub open spec fn same_but(&self, other: &Ride, state: bool, till: bool) -> bool {
        &&& other.id_of() == self.id_of()
        &&& other.name_of() == self.name_of()
        &&& other.layout_of() == self.layout_of()
        &&& other.price_of() == self.price_of()
        &&& (!state ==> other.state_of() == self.state_of() && other.is_tested()
            == self.is_tested())
        &&& (!till ==> other.riders_of() == self.riders_of() && other.takings_of()
            == self.takings_of())
    }

    /// A ride with a name and somewhere to start laying track.
    pub fn new(id: u32, name: &str, track: Track) -> (r: Self)
        requires
            track.wf(),
        ensures
            r.wf(),
            r.id_of() == id,
            r.name_of() == name@,
            r.layout_of() == Layout::Track(track),
            r.price_of() == Self::DEFAULT_PRICE,
            r.state_of() == RideState::Building,
            !r.is_tested(),
            r.riders_of() == 0,
            r.takings_of() == 0,
    {
        Ride {
            id,
            name: String::from_str(name),
            layout: Layout::Track(track),
            price: Self::DEFAULT_PRICE,
            state: RideState::Building,
            tested: false,
            riders: 0,
            takings: 0,
        }
    }

    /// Whether this ride is one that makes sense.
    pub fn is_sound(&self) -> (b: bool)
        ensures
            b == self.wf(),
    {
        let laid_out = match &self.layout {
            Layout::Track(t) => {
                let again = Track::restore(t.start(), t.heading(), t.start_height(), t.pieces());
                proof {
                    t.lemma_wf_fits();
                }
                again.is_some()
            },
            Layout::Flat { corner, .. } => -Track::REACH <= corner.x && corner.x <= Track::REACH
                && -Track::REACH <= corner.y && corner.y <= Track::REACH,
        };
        let open = match self.state {
            RideState::Open => true,
            _ => false,
        };
        let building = match self.state {
            RideState::Building => true,
            _ => false,
        };
        laid_out && 0 <= self.price && self.price <= Self::MAX_PRICE && (!open || self.tested)
            && (!building || !self.tested)
    }

    /// A ride as it was written down.
    ///
    /// `None` unless it makes sense: a flat ride standing within reach, a
    /// price a ride can charge, and a state its testing allows — open only
    /// once tested, and untested while still being built.
    pub fn restore(
        id: u32,
        name: &str,
        layout: Layout,
        price: Money,
        state: RideState,
        tested: bool,
        riders: u32,
        takings: Money,
    ) -> (r: Option<Self>)
        requires
            layout matches Layout::Track(t) ==> t.wf(),
        ensures
            r is Some <==> (layout.wf() && 0 <= price <= Self::MAX_PRICE && (state is Open ==> tested)
                && (state is Building ==> !tested)),
            r matches Some(r) ==> {
                &&& r.wf()
                &&& r.id_of() == id
                &&& r.name_of() == name@
                &&& r.layout_of() == layout
                &&& r.price_of() == price
                &&& r.state_of() == state
                &&& r.is_tested() == tested
                &&& r.riders_of() == riders
                &&& r.takings_of() == takings
            },
    {
        if let Layout::Flat { corner, .. } = &layout {
            if corner.x < -Track::REACH || corner.x > Track::REACH || corner.y < -Track::REACH
                || corner.y > Track::REACH {
                return None;
            }
        }
        if price < 0 || price > Self::MAX_PRICE {
            return None;
        }
        let open = match state {
            RideState::Open => true,
            _ => false,
        };
        let building = match state {
            RideState::Building => true,
            _ => false,
        };
        if (open && !tested) || (building && tested) {
            return None;
        }
        Some(Ride { id, name: String::from_str(name), layout, price, state, tested, riders, takings })
    }

    /// A flat ride just bought, standing with its corner on `corner`.
    ///
    /// There is no layout to get wrong, but it still has to be tested and
    /// opened like anything else.
    pub fn bought(id: u32, name: &str, kind: FlatRide, corner: TilePos) -> (r: Self)
        requires
            Track::within_reach(corner),
        ensures
            r.wf(),
            r.id_of() == id,
            r.name_of() == name@,
            r.layout_of() == (Layout::Flat { kind, corner }),
            r.price_of() == Self::DEFAULT_PRICE,
            r.state_of() == RideState::Building,
            !r.is_tested(),
            r.riders_of() == 0,
            r.takings_of() == 0,
    {
        Ride {
            id,
            name: String::from_str(name),
            layout: Layout::Flat { kind, corner },
            price: Self::DEFAULT_PRICE,
            state: RideState::Building,
            tested: false,
            riders: 0,
            takings: 0,
        }
    }

    /// Which ride this is.
    pub fn id(&self) -> (id: u32)
        ensures
            id == self.id_of(),
    {
        self.id
    }

    /// What it is called.
    pub fn name(&self) -> (n: &str)
        ensures
            n@ == self.name_of(),
    {
        self.name.as_str()
    }

    /// What it is laid out as.
    pub fn layout(&self) -> (l: &Layout)
        ensures
            *l == self.layout_of(),
    {
        &self.layout
    }

    /// Its track, if it is a ride you lay track for.
    pub fn track(&self) -> (t: Option<&Track>)
        ensures
            t == (match self.layout_of() {
                Layout::Track(track) => Some(&track),
                _ => None,
            }),
    {
        match &self.layout {
            Layout::Track(track) => Some(track),
            _ => None,
        }
    }

    /// What it is, if it was bought whole.
    pub fn flat(&self) -> (k: Option<FlatRide>)
        ensures
            k == (match self.layout_of() {
                Layout::Flat { kind, .. } => Some(kind),
                _ => None,
            }),
    {
        match &self.layout {
            Layout::Flat { kind, .. } => Some(*kind),
            _ => None,
        }
    }

    /// What it charges.
    pub fn price(&self) -> (p: Money)
        ensures
            p == self.price_of(),
    {
        self.price
    }

    /// Sets what it charges, clamped to something a park can actually ask,
    /// and returns the price on the board.
    pub fn set_price(&mut self, price: Money) -> (on_the_board: Money)
        requires
            old(self).wf(),
        ensures
            final(self).wf(),
            on_the_board == clamped(price as int, 0, Self::MAX_PRICE as int),
            final(self).price_of() == on_the_board,
            old(self).same_but_price(&*final(self)),
    {
        self.price = clamp(price, 0, Self::MAX_PRICE);
        self.price
    }

    /// The same ride with only its price changed.
    pub open spec fn same_but_price(&self, other: &Ride) -> bool {
        &&& other.id_of() == self.id_of()
        &&& other.name_of() == self.name_of()
        &&& other.layout_of() == self.layout_of()
        &&& other.state_of() == self.state_of()
        &&& other.is_tested() == self.is_tested()
        &&& other.riders_of() == self.riders_of()
        &&& other.takings_of() == self.takings_of()
    }

    /// Puts the price up by one step.
    pub fn raise_price(&mut self) -> (on_the_board: Money)
        requires
            old(self).wf(),
        ensures
            final(self).wf(),
            on_the_board == clamped(
                sat_sum(old(self).price_of() as int, Self::PRICE_STEP as int),
                0,
                Self::MAX_PRICE as int,
            ),
            final(self).price_of() == on_the_board,
            old(self).same_but_price(&*final(self)),
    {
        let asked = add_saturating(self.price, Self::PRICE_STEP);
        self.set_price(asked)
    }

    /// Brings it down by one step.
    pub fn lower_price(&mut self) -> (on_the_board: Money)
        requires
            old(self).wf(),
        ensures
            final(self).wf(),
            on_the_board == clamped(
                sat_sum(old(self).price_of() as int, -Self::PRICE_STEP as int),
                0,
                Self::MAX_PRICE as int,
            ),
            final(self).price_of() == on_the_board,
            old(self).same_but_price(&*final(self)),
    {
        let asked = sub_saturating(self.price, Self::PRICE_STEP);
        self.set_price(asked)
    }

    /// Whether it is running.
    pub fn state(&self) -> (s: RideState)
        ensures
            s == self.state_of(),
    {
        self.state
    }

    /// Whether guests can get on right now.
    pub fn is_open(&self) -> (b: bool)
        ensures
            b == (self.state_of() is Open),
    {
        self.state == RideState::Open
    }

    /// Whether it has passed a test run since its layout last changed.
    pub fn tested(&self) -> (b: bool)
        ensures
            b == self.is_tested(),
    {
        self.tested
    }

    /// How many guests have ridden it.
    pub fn riders(&self) -> (n: u32)
        ensures
            n == self.riders_of(),
    {
        self.riders
    }

    /// What its till has taken.
    pub fn takings(&self) -> (t: Money)
        ensures
            t == self.takings_of(),
    {
        self.takings
    }

    /// What it costs to keep in service for one wage bill.
    pub fn upkeep(&self) -> (c: Money)
        requires
            self.wf(),
        ensures
            c == self.layout_of().upkeep_spec(),
    {
        self.layout.upkeep()
    }

    /// Whether it stands on `tile`.
    pub fn occupies(&self, tile: TilePos) -> (b: bool)
        requires
            self.wf(),
        ensures
            b == self.layout_of().covers(tile),
    {
        self.layout.occupies(tile)
    }

    /// Every tile it stands on.
    pub fn tiles(&self) -> (tiles: Vec<TilePos>)
        requires
            self.wf(),
        ensures
            tiles@ == self.layout_of().tile_seq(),
    {
        self.layout.tiles()
    }

    /// The tiles guests board from the side of.
    pub fn stations(&self) -> (tiles: Vec<TilePos>)
        requires
            self.wf(),
        ensures
            tiles@ == self.layout_of().station_seq(),
    {
        self.layout.stations()
    }

    /// Lays one more piece of track, and un-tests the ride: whatever it was
    /// measured at no longer describes what is on the ground.
    pub fn lay(&mut self, piece: TrackPiece) -> (r: Result<Segment, TrackError>)
        requires
            old(self).wf(),
            old(self).layout_of() is Track,
        ensures
            final(self).wf(),
            final(self).id_of() == old(self).id_of(),
            final(self).name_of() == old(self).name_of(),
            final(self).price_of() == old(self).price_of(),
            final(self).riders_of() == old(self).riders_of(),
            final(self).takings_of() == old(self).takings_of(),
            final(self).state_of() == RideState::Building,
            !final(self).is_tested(),
            final(self).layout_of() matches Layout::Track(after) && old(self).layout_of() matches Layout::Track(before) && {
                &&& after.first_tile() == before.first_tile()
                &&& after.first_heading() == before.first_heading()
                &&& after.first_height() == before.first_height()
                &&& r is Ok <==> before.push_refusal(piece) is None
                &&& before.push_refusal(piece) matches Some(e) ==> r == Err::<Segment, TrackError>(e)
                &&& r is Ok ==> after.laid() == before.laid().push(piece) && r->Ok_0
                    == after.segment(before.laid().len() as int)
                &&& r is Err ==> after.laid() == before.laid()
            },
    {
        self.tested = false;
        self.state = RideState::Building;
        match &mut self.layout {
            Layout::Track(track) => track.push(piece),
            Layout::Flat { .. } => Err(TrackError::TooLong),
        }
    }

    /// Takes the last piece of track back off, returning it, and un-tests
    /// the ride.
    pub fn unlay(&mut self) -> (p: Option<TrackPiece>)
        requires
            old(self).wf(),
            old(self).layout_of() is Track,
        ensures
            final(self).wf(),
            final(self).id_of() == old(self).id_of(),
            final(self).name_of() == old(self).name_of(),
            final(self).price_of() == old(self).price_of(),
            final(self).riders_of() == old(self).riders_of(),
            final(self).takings_of() == old(self).takings_of(),
            final(self).state_of() == RideState::Building,
            !final(self).is_tested(),
            final(self).layout_of() matches Layout::Track(after) && old(self).layout_of() matches Layout::Track(before) && {
                &&& after.first_tile() == before.first_tile()
                &&& after.first_heading() == before.first_heading()
                &&& after.first_height() == before.first_height()
                &&& before.laid().len() == 0 ==> p is None && after.laid() == before.laid()
                &&& before.laid().len() > 0 ==> p == Some(before.laid().last())
                    && after.laid() == before.laid().drop_last()
            },
    {
        self.tested = false;
        self.state = RideState::Building;
        match &mut self.layout {
            Layout::Track(track) => track.pop(),
            Layout::Flat { .. } => None,
        }
    }

    /// What the layout says about whether a test run is worth sending: a ride
    /// needs a station, and track has to come back round to it.
    pub fn check_layout(&self) -> (r: Result<(), TestFailure>)
        requires
            self.wf(),
        ensures
            self.layout_of().station_seq().len() == 0 ==> r == Err::<(), TestFailure>(
                TestFailure::NoStation,
            ),
            self.layout_of().station_seq().len() > 0 ==> (match self.layout_of() {
                Layout::Track(t) => if t.closes() {
                    r is Ok
                } else {
                    r == Err::<(), TestFailure>(TestFailure::NotACircuit)
                },
                Layout::Flat { .. } => r is Ok,
            }),
    {
        let stations = self.layout.stations();
        if stations.len() == 0 {
            return Err(TestFailure::NoStation);
        }
        match &self.layout {
            Layout::Track(track) => {
                if !track.is_a_circuit() {
                    return Err(TestFailure::NotACircuit);
                }
                Ok(())
            },
            Layout::Flat { .. } => Ok(()),
        }
    }

    /// Records that a test run went round, which shuts the ride ready to open.
    pub fn pass_the_test(&mut self)
        requires
            old(self).wf(),
        ensures
            final(self).wf(),
            final(self).is_tested(),
            final(self).state_of() == RideState::Closed,
            old(self).same_but(&*final(self), true, false),
    {
        self.tested = true;
        self.state = RideState::Closed;
    }

    /// Opens the ride to the queue.
    ///
    /// Fails if it has not been tested since its track last changed, or if it
    /// is broken down.
    pub fn open(&mut self) -> (r: Result<(), OpenError>)
        requires
            old(self).wf(),
        ensures
            final(self).wf(),
            r == (match opening(old(self).state_of(), old(self).is_tested()) {
                Ok(_) => Ok(()),
                Err(e) => Err(e),
            }),
            r is Ok ==> final(self).state_of() == RideState::Open,
            r is Err ==> *final(self) == *old(self),
            old(self).same_but(&*final(self), true, false),
            final(self).is_tested() == old(self).is_tested(),
    {
        match self.state.open(self.tested) {
            Ok(state) => {
                self.state = state;
                Ok(())
            },
            Err(e) => Err(e),
        }
    }

    /// Shuts the ride without taking anything down.
    pub fn close(&mut self)
        requires
            old(self).wf(),
        ensures
            final(self).wf(),
            final(self).state_of() == RideState::Closed,
            old(self).same_but(&*final(self), true, false),
            final(self).is_tested() == old(self).is_tested(),
    {
        self.state = RideState::Closed;
    }

    /// Breaks the ride down.
    pub fn break_down(&mut self)
        requires
            old(self).wf(),
        ensures
            final(self).wf(),
            final(self).state_of() == RideState::Broken,
            old(self).same_but(&*final(self), true, false),
            final(self).is_tested() == old(self).is_tested(),
    {
        self.state = RideState::Broken;
    }

    /// Puts a broken ride back together: it comes back shut, and anything
    /// else is left as it was.
    pub fn repair(&mut self)
        requires
            old(self).wf(),
        ensures
            final(self).wf(),
            final(self).state_of() == repaired(old(self).state_of()),
            old(self).same_but(&*final(self), true, false),
            final(self).is_tested() == old(self).is_tested(),
    {
        self.state = self.state.repair();
    }

    /// Puts one more guest aboard, and returns what they were charged.
    pub fn take_a_rider(&mut self) -> (charged: Money)
        requires
            old(self).wf(),
        ensures
            final(self).wf(),
            charged == old(self).price_of(),
            final(self).riders_of() == count_on(old(self).riders_of()),
            final(self).takings_of() == sat_sum(old(self).takings_of() as int, old(self).price_of() as int),
            old(self).same_but(&*final(self), false, true),
    {
        self.riders = self.riders.saturating_add(1);
        self.takings = add_saturating(self.takings, self.price);
        self.price
    }
}

} // verus!
