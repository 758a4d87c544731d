//! A ride worth looking at, laid without the mouse.
//!
//! The pictures of the game are taken by the game itself, and a coaster laid
//! by hand through a dozen clicks is not something a screenshot can
//! reproduce. So the layout the pictures use lives here, where it can be
//! asked for and checked.

use vstd::prelude::*;

use crate::park::track::{climb_of, cost_of, fits, lemma_walk_prefix, walk};
use crate::park::scenery::scenery_cost;
use crate::park::terrain::{buildable, lay_cost_of};
use crate::park::{covered, BuildError, Heading, Land, Layout, Park, Part, Scenery, Terrain, TilePos, Track, TrackPiece};

verus! {

/// How far out from the crossroads the coaster is laid.
pub const OFFSET: i32 = 2;

/// How many tiles of ground either way are cleared for it.
pub const CLEARING: i32 = 6;

/// How long a queue is laid for it.
pub const QUEUE_LENGTH: u32 = 5;

/// The demo layout, piece by piece: a corner, then a side, four times over. A
/// chain lift three steps up, three drops back down, and brakes before the
/// station: the smallest layout that is recognisably a roller coaster rather
/// than a circle of track.
pub open spec fn demo_layout() -> Seq<TrackPiece> {
    seq![
        TrackPiece::CurveRight,
        TrackPiece::Station,
        TrackPiece::LiftHill,
        TrackPiece::CurveRight,
        TrackPiece::LiftHill,
        TrackPiece::LiftHill,
        TrackPiece::CurveRight,
        TrackPiece::SlopeDown,
        TrackPiece::SlopeDown,
        TrackPiece::CurveRight,
        TrackPiece::SlopeDown,
        TrackPiece::Brakes,
    ]
}

/// The demo layout comes back round to where it started: it is a circuit,
/// wherever it is laid and whichever way it starts out.
pub proof fn the_demo_layout_is_a_circuit(track: &Track)
    requires
        Track::within_reach(track.first_tile()),
        track.laid() == demo_layout(),
    ensures
        track.closes(),
{
    reveal_with_fuel(walk, 13);
}

/// Where the demo coaster's corner goes on `park`: a little way in from the
/// crossroads.
pub open spec fn corner_of(park: &Park) -> TilePos {
    TilePos { x: (park.cols() / 2 + OFFSET) as i32, y: (park.rows() / 2 + OFFSET) as i32 }
}

/// The tile `way` along from `tile`, if there is one.
fn beside(tile: TilePos, way: (i32, i32)) -> (next: Option<TilePos>)
    ensures
        next is Some <==> tile.can_offset(way.0 as int, way.1 as int),
        next matches Some(t) ==> t == tile.shifted(way.0 as int, way.1 as int),
{
    match (tile.x.checked_add(way.0), tile.y.checked_add(way.1)) {
        (Some(x), Some(y)) => Some(TilePos::new(x, y)),
        _ => None,
    }
}

/// Where the tile `k` steps `way` along from `station` would be, counted
/// in whole numbers so that it can lie off the map.
pub open spec fn stepped(station: TilePos, way: (i32, i32), k: nat) -> (int, int)
    decreases k,
{
    if k == 0 {
        (station.x as int, station.y as int)
    } else {
        let before = stepped(station, way, (k - 1) as nat);
        (before.0 + way.0, before.1 + way.1)
    }
}

/// Whether the tile `k` steps `way` along from `station` could carry a
/// queue: it is part of the park, and no ride runs across it.
pub open spec fn open_ground(park: &Park, station: TilePos, way: (i32, i32), k: nat) -> bool {
    let at = stepped(station, way, k);
    let tile = TilePos { x: at.0 as i32, y: at.1 as i32 };
    &&& i32::MIN <= at.0 <= i32::MAX
    &&& i32::MIN <= at.1 <= i32::MAX
    &&& park.land_of().holds(tile)
    &&& !park.track_on(tile)
}

/// The tile `k` steps `way` along from `station`.
pub open spec fn queue_tile(station: TilePos, way: (i32, i32), k: nat) -> TilePos {
    let at = stepped(station, way, k);
    TilePos { x: at.0 as i32, y: at.1 as i32 }
}

/// How many tiles after the `k`th a queue could still run `way` from
/// `station`, up to [`QUEUE_LENGTH`] in all.
pub open spec fn room_after(park: &Park, station: TilePos, way: (i32, i32), k: nat) -> nat
    decreases QUEUE_LENGTH - k,
{
    if k >= QUEUE_LENGTH || !open_ground(park, station, way, k + 1) {
        0
    } else {
        1 + room_after(park, station, way, k + 1)
    }
}

/// How many tiles a queue could run `way` from `station`, up to
/// [`QUEUE_LENGTH`]: it stops at the edge of the park or at a ride.
pub open spec fn queue_room(park: &Park, station: TilePos, way: (i32, i32)) -> nat {
    room_after(park, station, way, 0)
}

/// Which of the first `i + 1` ways a queue could lead off `station` has the
/// most room, the later of two that tie.
pub open spec fn widest_upto(park: &Park, station: TilePos, i: int) -> int
    decreases i,
{
    if i <= 0 {
        0
    } else {
        let best = widest_upto(park, station, i - 1);
        if queue_room(park, station, queue_way(i)) >= queue_room(park, station, queue_way(best)) {
            i
        } else {
            best
        }
    }
}

/// The way with the most room for a queue off `station`, the later of two
/// that tie.
pub open spec fn widest_way(park: &Park, station: TilePos) -> (i32, i32) {
    queue_way(widest_upto(park, station, 3))
}

/// Whether `tile` is one of the first `n` tiles `way` along from `station`.
pub open spec fn on_queue(station: TilePos, way: (i32, i32), n: nat, tile: TilePos) -> bool {
    exists|k: nat| 1 <= k <= n && tile == #[trigger] queue_tile(station, way, k)
}

/// `after` is `before` with a queue laid off `station` the widest way, as
/// far as there is room: those tiles are queue path, every other tile and
/// every height is as it was, and the bank paid for each tile.
pub open spec fn queue_laid(before: &Park, after: &Park, station: TilePos) -> bool {
    let way = widest_way(before, station);
    let n = queue_room(before, station, way);
    &&& forall|k: nat|
        1 <= k <= n ==> after.land_of().ground_of(#[trigger] queue_tile(station, way, k)) == Some(
            Terrain::Queue,
        )
    &&& forall|t: TilePos| !on_queue(station, way, n, t) ==> #[trigger] after.land_of().ground_of(t)
        == before.land_of().ground_of(t)
    &&& forall|t: TilePos| #[trigger] after.land_of().height_of(t) == before.land_of().height_of(t)
    &&& after.books_of().cash_of() == before.books_of().cash_of() - n * lay_cost_of(Terrain::Queue)->0
    &&& before.differs_only_in(after, set![Part::Land, Part::Books])
    &&& only_spent(before, after)
}

/// A count of open tiles with a blocked tile or the end of the line after
/// it is all the room there is.
proof fn lemma_room_exact(park: &Park, station: TilePos, way: (i32, i32), n: nat, j: nat)
    requires
        n <= QUEUE_LENGTH,
        j <= n,
        forall|k: nat| 1 <= k <= n ==> #[trigger] open_ground(park, station, way, k),
        n < QUEUE_LENGTH ==> !open_ground(park, station, way, (n + 1) as nat),
    ensures
        room_after(park, station, way, j) == n - j,
    decreases n - j,
{
    if j < n {
        lemma_room_exact(park, station, way, n, j + 1);
        assert(open_ground(park, station, way, j + 1));
    }
}

/// How many tiles a queue could run `way` from `station`, up to
/// [`QUEUE_LENGTH`]: it stops at the edge of the park or at a ride.
fn room(park: &Park, station: TilePos, way: (i32, i32)) -> (n: u32)
    requires
        park.wf(),
    ensures
        n <= QUEUE_LENGTH,
        forall|k: nat| 1 <= k <= n ==> #[trigger] open_ground(park, station, way, k),
        n < QUEUE_LENGTH ==> !open_ground(park, station, way, (n + 1) as nat),
        n == queue_room(park, station, way),
{
    let mut tile = station;
    let mut count: u32 = 0;
    let mut blocked = false;
    while count < QUEUE_LENGTH && !blocked
        invariant
            park.wf(),
            count <= QUEUE_LENGTH,
            tile.x == stepped(station, way, count as nat).0,
            tile.y == stepped(station, way, count as nat).1,
            forall|k: nat| 1 <= k <= count ==> #[trigger] open_ground(park, station, way, k),
            blocked ==> count < QUEUE_LENGTH && !open_ground(park, station, way, (count + 1) as nat),
        decreases QUEUE_LENGTH - count, if blocked { 0int } else { 1int },
    {
        match beside(tile, way) {
            Some(next) => {
                if park.ride_at(next).is_some() || !park.land().contains(next) {
                    blocked = true;
                } else {
                    count += 1;
                    tile = next;
                }
            },
            None => {
                blocked = true;
            },
        }
    }
    proof {
        lemma_room_exact(park, station, way, count as nat, 0);
    }
    count
}

/// The four ways a queue can lead off a station, in the order they are
/// weighed: north, east, south, west.
pub open spec fn queue_way(i: int) -> (i32, i32) {
    if i == 0 {
        (0i32, -1i32)
    } else if i == 1 {
        (1i32, 0i32)
    } else if i == 2 {
        (0i32, 1i32)
    } else {
        (-1i32, 0i32)
    }
}

/// Whether nothing stands in the way of a queue leading off `station`: on
/// every tile of the park within [`QUEUE_LENGTH`] of it in a straight line,
/// short of a ride, nothing is built and nobody is standing.
pub open spec fn queue_clear(park: &Park, station: TilePos, people: Seq<TilePos>) -> bool {
    forall|i: int, k: nat|
        0 <= i < 4 && 1 <= k <= QUEUE_LENGTH && #[trigger] open_ground(park, station, queue_way(i), k) ==> {
            let at = stepped(station, queue_way(i), k);
            let tile = TilePos { x: at.0 as i32, y: at.1 as i32 };
            park.shop_on(tile) is None && !people.contains(tile)
        }
}

/// The first station of ride `ride` on `park`.
pub open spec fn first_station(park: &Park, ride: u32) -> TilePos {
    park.rides_of()[park.ride_index(ride)].layout_of().station_seq()[0]
}

/// Whether a queue can be laid for ride `ride` in full: the ride is there
/// with a station, the park is open for business with the money for a whole
/// queue, and nothing stands in the way of one.
pub open spec fn queue_ready(park: &Park, ride: u32, people: Seq<TilePos>) -> bool {
    &&& park.has_ride(ride)
    &&& park.rides_of()[park.ride_index(ride)].layout_of().station_seq().len() > 0
    &&& park.books_of().closed_at() is None
    &&& park.books_of().cash_of() >= QUEUE_LENGTH * lay_cost_of(Terrain::Queue)->0
    &&& queue_clear(park, first_station(park, ride), people)
}

/// Whether a queue can be laid for ride `ride` at all: the ride is there
/// with a station, and where there is room for a queue the widest way, the
/// park is open for business, the bank holds what that whole queue costs,
/// and nothing is built and nobody is standing on any tile of it.
pub open spec fn queue_possible(park: &Park, ride: u32, people: Seq<TilePos>) -> bool {
    let station = first_station(park, ride);
    let way = widest_way(park, station);
    let n = queue_room(park, station, way);
    &&& park.has_ride(ride)
    &&& park.rides_of()[park.ride_index(ride)].layout_of().station_seq().len() > 0
    &&& n > 0 ==> {
        &&& park.books_of().closed_at() is None
        &&& park.books_of().cash_of() >= n * lay_cost_of(Terrain::Queue)->0
        &&& forall|k: nat|
            1 <= k <= n ==> #[trigger] park.shop_on(queue_tile(station, way, k)) is None
                && !people.contains(queue_tile(station, way, k))
    }
}

/// Lays a queue path leading away from ride `ride`'s station.
///
/// Away from the ride rather than into the middle of it: the obvious
/// neighbour of a station on a ring layout is the inside of the ring, which
/// runs out of room after a tile or two. The way with the most room wins,
/// the later of two that tie, and the queue runs as far as that room goes.
/// Fails if there is no such ride, it has no station, or the ground beside
/// it will not take a queue: it succeeds exactly where [`queue_possible`]
/// holds, and so wherever [`queue_ready`] does.
pub fn queue_for(park: &mut Park, ride: u32, people: &[TilePos]) -> (r: Result<(), BuildError>)
    requires
        old(park).wf(),
    ensures
        final(park).wf(),
        old(park).differs_only_in(&*final(park), set![Part::Land, Part::Books]),
        only_spent(old(park), final(park)),
        !old(park).has_ride(ride) ==> r == Err::<(), BuildError>(BuildError::NoSuchRide(ride)),
        queue_ready(old(park), ride, people@) ==> r is Ok,
        r is Ok <==> queue_possible(old(park), ride, people@),
        r is Ok ==> old(park).has_ride(ride) && old(park).rides_of()[old(park).ride_index(
            ride,
        )].layout_of().station_seq().len() > 0 && queue_laid(
            old(park),
            final(park),
            first_station(old(park), ride),
        ),
{
    let ghost start = *park;
    let ghost ready = queue_ready(&start, ride, people@);
    let ghost possible = queue_possible(&start, ride, people@);
    let station = match park.ride(ride) {
        None => return Err(BuildError::NoSuchRide(ride)),
        Some(found) => {
            proof {
                let k = choose|k: int| 0 <= k < park.rides_of().len() && (#[trigger] park.rides_of()[k]).id_of() == ride;
                crate::park::lemma_first_ride_below(park, ride, k);
            }
            assert(found.wf());
            let stations = found.stations();
            if stations.len() == 0 {
                return Err(BuildError::Test(crate::park::TestFailure::NoStation));
            }
            stations[0]
        },
    };
    assert(station == first_station(&start, ride));
    let ways: [(i32, i32); 4] = [(0, -1), (1, 0), (0, 1), (-1, 0)];
    assert(forall|i: int| 0 <= i < 4 ==> ways@[i] == queue_way(i));
    let mut best = ways[0];
    let mut most = room(park, station, best);
    let ghost mut chosen: int = 0;
    let mut i: usize = 1;
    while i < 4
        invariant
            park.wf(),
            *park == start,
            ways@.len() == 4,
            forall|i: int| 0 <= i < 4 ==> ways@[i] == queue_way(i),
            1 <= i <= 4,
            chosen == widest_upto(&start, station, i - 1),
            0 <= chosen < 4,
            best == queue_way(chosen),
            most <= QUEUE_LENGTH,
            most == queue_room(&start, station, best),
            forall|k: nat| 1 <= k <= most ==> #[trigger] open_ground(&start, station, best, k),
        decreases 4 - i,
    {
        let here = room(park, station, ways[i]);
        if here >= most {
            most = here;
            best = ways[i];
            proof {
                chosen = i as int;
            }
        }
        i += 1;
    }
    assert(best == widest_way(&start, station));
    let mut tile = station;
    let mut laid: u32 = 0;
    while laid < most
        invariant
            park.wf(),
            start == *old(park),
            start.wf(),
            old(park).has_ride(ride),
            station == first_station(&start, ride),
            old(park).rides_of()[old(park).ride_index(ride)].layout_of().station_seq().len() > 0,
            old(park).differs_only_in(&*park, set![Part::Land, Part::Books]),
            only_spent(&start, &*park),
            ready == queue_ready(&start, ride, people@),
            possible == queue_possible(&start, ride, people@),
            best == widest_way(&start, station),
            laid > 0 ==> start.books_of().closed_at() is None,
            laid > 0 ==> start.books_of().cash_of() >= laid * lay_cost_of(Terrain::Queue)->0,
            forall|k: nat|
                1 <= k <= laid ==> #[trigger] start.shop_on(queue_tile(station, best, k)) is None
                    && !people@.contains(queue_tile(station, best, k)),
            0 <= chosen < 4,
            best == queue_way(chosen),
            most <= QUEUE_LENGTH,
            most == queue_room(&start, station, best),
            laid <= most,
            forall|k: nat| 1 <= k <= most ==> #[trigger] open_ground(&start, station, best, k),
            tile.x == stepped(station, best, laid as nat).0,
            tile.y == stepped(station, best, laid as nat).1,
            forall|k: nat|
                1 <= k <= laid ==> park.land_of().ground_of(#[trigger] queue_tile(station, best, k)) == Some(
                    Terrain::Queue,
                ),
            forall|t: TilePos| !on_queue(station, best, laid as nat, t) ==> #[trigger] park.land_of().ground_of(t)
                == start.land_of().ground_of(t),
            forall|t: TilePos| #[trigger] park.land_of().height_of(t) == start.land_of().height_of(t),
            park.books_of().cash_of() == start.books_of().cash_of() - laid * lay_cost_of(Terrain::Queue)->0,
        decreases most - laid,
    {
        proof {
            assert(open_ground(&start, station, best, (laid + 1) as nat));
        }
        tile = tile.offset(best.0, best.1);
        assert(tile == queue_tile(station, best, (laid + 1) as nat));
        proof {
            if ready {
                assert(start.shop_on(tile) is None && !people@.contains(tile));
            }
            assert(park.shop_on(tile) == start.shop_on(tile));
            assert(park.track_on(tile) == start.track_on(tile));
            assert(park.land_of().holds(tile) == start.land_of().holds(tile));
        }
        let ghost before = *park;
        match park.lay(tile, Terrain::Queue, people) {
            Ok(()) => {},
            Err(e) => {
                proof {
                    if possible {
                        assert(start.shop_on(queue_tile(station, best, (laid + 1) as nat)) is None);
                    }
                }
                return Err(e);
            },
        }
        proof {
            assert forall|k: nat|
                1 <= k <= laid + 1 implies park.land_of().ground_of(#[trigger] queue_tile(station, best, k))
                == Some(Terrain::Queue) by {
                if queue_tile(station, best, k) != tile {
                    assert(before.land_of().ground_of(queue_tile(station, best, k)) == Some(Terrain::Queue));
                }
            }
            assert forall|t: TilePos| !on_queue(station, best, (laid + 1) as nat, t) implies #[trigger] park.land_of().ground_of(t)
                == start.land_of().ground_of(t) by {
                if t == tile {
                    assert(on_queue(station, best, (laid + 1) as nat, t));
                }
                if on_queue(station, best, laid as nat, t) {
                    let k = choose|k: nat| 1 <= k <= laid && t == #[trigger] queue_tile(station, best, k);
                    assert(on_queue(station, best, (laid + 1) as nat, t));
                }
                assert(before.land_of().ground_of(t) == start.land_of().ground_of(t));
            }
            assert forall|t: TilePos| #[trigger] park.land_of().height_of(t) == start.land_of().height_of(t) by {
                assert(before.land_of().height_of(t) == start.land_of().height_of(t));
                assert(park.land_of().ground_of(t) is Some == before.land_of().ground_of(t) is Some);
            }
        }
        laid += 1;
    }
    assert(possible);
    Ok(())
}

/// Tile `k` of the square cleared from `corner`, row by row.
pub open spec fn cleared_tile(corner: TilePos, k: int) -> TilePos {
    corner.shifted(k % (CLEARING as int), k / (CLEARING as int))
}

/// Whether `tile` lies in the square cleared from `corner`, among its first
/// `k` tiles row by row.
pub open spec fn among_cleared(corner: TilePos, tile: TilePos, k: int) -> bool {
    &&& corner.x <= tile.x < corner.x + CLEARING
    &&& corner.y <= tile.y < corner.y + CLEARING
    &&& (tile.y - corner.y) * (CLEARING as int) + (tile.x - corner.x) < k
}

/// Whether the land on `tile` can be worked at all: it is part of the park,
/// with nothing built on it, no track across it and nobody standing on it.
pub open spec fn workable(park: &Park, tile: TilePos, people: Seq<TilePos>) -> bool {
    &&& park.land_of().holds(tile)
    &&& park.shop_on(tile) is None
    &&& !people.contains(tile)
    &&& !park.track_on(tile)
}

/// What clearing `tile` costs: grass laid on it, and every step it is dug
/// down to the base.
pub open spec fn clearing_step(park: &Park, tile: TilePos) -> int {
    let height = match park.land_of().height_of(tile) {
        Some(h) => h as int,
        None => 0,
    };
    lay_cost_of(Terrain::Grass)->0 + height * Park::LANDSCAPING
}

/// What clearing the first `n` tiles of the square from `corner` costs.
pub open spec fn clearing_cost(park: &Park, corner: TilePos, n: int) -> int
    decreases n,
{
    if n <= 0 {
        0
    } else {
        clearing_cost(park, corner, n - 1) + clearing_step(park, cleared_tile(corner, n - 1))
    }
}

/// Whether the square from `corner` can be cleared: the park is open for
/// business, every tile of it can be worked, and the bank holds what the
/// whole job costs.
pub open spec fn clearable(park: &Park, corner: TilePos, people: Seq<TilePos>) -> bool {
    &&& park.books_of().closed_at() is None
    &&& forall|k: int| 0 <= k < CLEARING * CLEARING ==> #[trigger] workable(
        park,
        cleared_tile(corner, k),
        people,
    )
    &&& park.books_of().cash_of() >= clearing_cost(park, corner, CLEARING * CLEARING)
}

/// The books moved by nothing but spending: the loan, the advertising, the
/// reputation and the bank's patience as they were.
pub open spec fn only_spent(before: &Park, after: &Park) -> bool {
    &&& after.books_of().loan_of() == before.books_of().loan_of()
    &&& after.books_of().campaign_of() == before.books_of().campaign_of()
    &&& after.books_of().reputation_of() == before.books_of().reputation_of()
    &&& after.books_of().closed_at() == before.books_of().closed_at()
}

/// Clearing never costs less as it goes on.
proof fn lemma_clearing_cost_grows(park: &Park, corner: TilePos, a: int, b: int)
    requires
        park.wf(),
        0 <= a <= b,
    ensures
        clearing_cost(park, corner, a) <= clearing_cost(park, corner, b),
    decreases b - a,
{
    if a < b {
        lemma_clearing_cost_grows(park, corner, a, b - 1);
        park.land_of().lemma_height_in_range(cleared_tile(corner, b - 1));
    }
}

/// Lays grass on `tile` and digs it down to the base height.
fn clear_one(park: &mut Park, tile: TilePos, people: &[TilePos]) -> (r: Result<(), BuildError>)
    requires
        old(park).wf(),
    ensures
        final(park).wf(),
        old(park).differs_only_in(&*final(park), set![Part::Land, Part::Books]),
        only_spent(old(park), final(park)),
        r is Ok <==> (old(park).books_of().closed_at() is None && workable(old(park), tile, people@)
            && old(park).books_of().cash_of() >= clearing_step(old(park), tile)),
        r is Ok ==> {
            &&& final(park).land_of().ground_of(tile) == Some(Terrain::Grass)
            &&& final(park).land_of().height_of(tile) == Some(Land::MIN_HEIGHT)
            &&& forall|t: TilePos| t != tile ==> #[trigger] final(park).land_of().ground_of(t)
                == old(park).land_of().ground_of(t) && final(park).land_of().height_of(t)
                == old(park).land_of().height_of(t)
            &&& final(park).books_of().cash_of() == old(park).books_of().cash_of() - clearing_step(
                old(park),
                tile,
            )
        },
{
    let ghost start = *park;
    proof {
        start.land_of().lemma_height_in_range(tile);
    }
    park.lay(tile, Terrain::Grass, people)?;
    let ghost h0: int = start.land_of().height_of(tile)->0 as int;
    assert(park.land_of().height_of(tile) == start.land_of().height_of(tile));
    let mut height: i16 = match park.land().height_at(tile) {
        Some(h) => h,
        None => 0,
    };
    while height > 0
        invariant
            park.wf(),
            start.wf(),
            start == *old(park),
            start.differs_only_in(&*park, set![Part::Land, Part::Books]),
            only_spent(&start, &*park),
            park.books_of().cash_of() >= 0,
            start.books_of().closed_at() is None,
            workable(&start, tile, people@),
            start.land_of().height_of(tile) == Some(h0 as i16),
            0 <= height <= h0 <= Land::MAX_HEIGHT,
            park.land_of().ground_of(tile) == Some(Terrain::Grass),
            park.land_of().height_of(tile) == Some(height),
            forall|t: TilePos| t != tile ==> #[trigger] park.land_of().ground_of(t)
                == start.land_of().ground_of(t) && park.land_of().height_of(t)
                == start.land_of().height_of(t),
            park.books_of().cash_of() == start.books_of().cash_of() - lay_cost_of(Terrain::Grass)->0
                - (h0 - height) * Park::LANDSCAPING,
        decreases height,
    {
        let ghost before = *park;
        height = park.lower(tile, people)?;
        proof {
            before.land_of().lemma_reshaped_heights(&park.land_of(), tile, height);
        }
    }
    Ok(())
}

/// `after` is `before` with the square from `corner` cleared: every tile of
/// it grass at the base height, every other tile as it was, and the bank
/// down by what the job cost.
pub open spec fn ground_cleared(before: &Park, after: &Park, corner: TilePos) -> bool {
    &&& before.differs_only_in(after, set![Part::Land, Part::Books])
    &&& only_spent(before, after)
    &&& forall|t: TilePos| #[trigger] among_cleared(corner, t, CLEARING * CLEARING) ==> after.land_of().ground_of(t)
        == Some(Terrain::Grass) && after.land_of().height_of(t) == Some(Land::MIN_HEIGHT)
    &&& forall|t: TilePos| !#[trigger] among_cleared(corner, t, CLEARING * CLEARING) ==> after.land_of().ground_of(t)
        == before.land_of().ground_of(t) && after.land_of().height_of(t) == before.land_of().height_of(t)
    &&& after.books_of().cash_of() == before.books_of().cash_of() - clearing_cost(before, corner, CLEARING * CLEARING)
}

/// Clears a square of [`CLEARING`] tiles from `corner` to flat grass at the
/// base height, a tile at a time, row by row.
///
/// Succeeds exactly when the park is open for business, every tile of the
/// square can be worked, and the bank holds what the whole job costs; a
/// failure part way leaves the tiles before it cleared and paid for.
fn clear_the_ground(park: &mut Park, corner: TilePos, people: &[TilePos]) -> (r: Result<(), BuildError>)
    requires
        old(park).wf(),
        0 <= corner.x <= 5000,
        0 <= corner.y <= 5000,
    ensures
        final(park).wf(),
        old(park).differs_only_in(&*final(park), set![Part::Land, Part::Books]),
        only_spent(old(park), final(park)),
        r is Ok <==> clearable(old(park), corner, people@),
        r is Ok ==> ground_cleared(old(park), final(park), corner),
{
    let ghost start = *park;
    let mut k: i32 = 0;
    while k < CLEARING * CLEARING
        invariant
            park.wf(),
            start.wf(),
            start == *old(park),
            start.differs_only_in(&*park, set![Part::Land, Part::Books]),
            only_spent(&start, &*park),
            0 <= corner.x <= 5000,
            0 <= corner.y <= 5000,
            0 <= k <= CLEARING * CLEARING,
            forall|t: TilePos| #[trigger] among_cleared(corner, t, k as int) ==> park.land_of().ground_of(t)
                == Some(Terrain::Grass) && park.land_of().height_of(t) == Some(Land::MIN_HEIGHT),
            forall|t: TilePos| !#[trigger] among_cleared(corner, t, k as int) ==> park.land_of().ground_of(t)
                == start.land_of().ground_of(t) && park.land_of().height_of(t)
                == start.land_of().height_of(t),
            park.books_of().cash_of() == start.books_of().cash_of() - clearing_cost(&start, corner, k as int),
            forall|j: int| 0 <= j < k ==> #[trigger] workable(&start, cleared_tile(corner, j), people@),
            k > 0 ==> start.books_of().closed_at() is None && park.books_of().cash_of() >= 0,
        decreases CLEARING * CLEARING - k,
    {
        let tile = corner.offset(k % CLEARING, k / CLEARING);
        assert(tile == cleared_tile(corner, k as int));
        assert(!among_cleared(corner, tile, k as int) && among_cleared(corner, tile, k + 1));
        assert(park.land_of().height_of(tile) == start.land_of().height_of(tile));
        assert(clearing_step(&*park, tile) == clearing_step(&start, tile));
        assert(workable(&*park, tile, people@) == workable(&start, tile, people@)) by {
            assert(park.land_of().ground_of(tile) == start.land_of().ground_of(tile));
        }
        let ghost before = *park;
        match clear_one(park, tile, people) {
            Ok(()) => {},
            Err(e) => {
                proof {
                    if clearable(&start, corner, people@) {
                        assert(workable(&start, cleared_tile(corner, k as int), people@));
                        lemma_clearing_cost_grows(&start, corner, k + 1, CLEARING * CLEARING);
                    }
                }
                return Err(e);
            },
        }
        proof {
            start.land_of().lemma_height_in_range(tile);
            assert forall|t: TilePos| #[trigger] among_cleared(corner, t, k + 1) implies park.land_of().ground_of(t)
                == Some(Terrain::Grass) && park.land_of().height_of(t) == Some(Land::MIN_HEIGHT) by {
                if t != tile {
                    assert(among_cleared(corner, t, k as int));
                }
            }
            assert forall|t: TilePos| !#[trigger] among_cleared(corner, t, k + 1) implies park.land_of().ground_of(t)
                == start.land_of().ground_of(t) && park.land_of().height_of(t)
                == start.land_of().height_of(t) by {
                assert(t != tile);
                assert(!among_cleared(corner, t, k as int));
            }
        }
        k += 1;
    }
    proof {
        assert forall|t: TilePos| among_cleared(corner, t, CLEARING * CLEARING) <==> #[trigger] among_cleared(
            corner,
            t,
            k as int,
        ) by {}
    }
    Ok(())
}

/// The tile of the `k`th thing the demo plants along the crossroads running
/// across row `middle`: every third column, above the path and then below
/// it.
pub open spec fn border_tile(middle: int, k: int) -> TilePos {
    TilePos {
        x: (3 * (k / 2)) as i32,
        y: (if k % 2 == 0 {
            middle - 1
        } else {
            middle + 1
        }) as i32,
    }
}

/// What the `k`th thing planted along the crossroads is: trees and
/// flowerbeds column about.
pub open spec fn border_plant(k: int) -> Scenery {
    if (k / 2) % 2 == 0 {
        Scenery::Tree
    } else {
        Scenery::Flowerbed
    }
}

/// Whether `tile` is one the demo plants along row `middle` of a park
/// `width` wide, counting only the columns before `until`.
pub open spec fn on_the_border(middle: int, until: int, tile: TilePos) -> bool {
    &&& tile.y == middle - 1 || tile.y == middle + 1
    &&& 0 <= tile.x < until
    &&& tile.x % 3 == 0
}

/// Whether `tile` would take scenery, money aside: on buildable ground in
/// the park, with nothing planted, built or laid across it, and nobody on it.
pub open spec fn plantable(park: &Park, tile: TilePos, people: Seq<TilePos>) -> bool {
    &&& park.plant_on(tile) is None
    &&& !people.contains(tile)
    &&& park.land_of().ground_of(tile) matches Some(g) && buildable(g)
    &&& park.shop_on(tile) is None
    &&& !park.track_on(tile)
}

/// What is in the bank before the `k`th planting along row `middle`, each
/// one before it paid for where it took.
pub open spec fn border_cash(park: &Park, middle: int, people: Seq<TilePos>, k: int) -> int
    decreases k,
{
    if k <= 0 {
        park.books_of().cash_of() as int
    } else {
        let before = border_cash(park, middle, people, k - 1);
        if park.books_of().closed_at() is None && plantable(park, border_tile(middle, k - 1), people)
            && before >= scenery_cost(border_plant(k - 1)) {
            before - scenery_cost(border_plant(k - 1))
        } else {
            before
        }
    }
}

/// Whether the `k`th planting along row `middle` takes: the park is open for
/// business, the tile would take it, and what is left in the bank pays for it.
pub open spec fn border_takes(park: &Park, middle: int, people: Seq<TilePos>, k: int) -> bool {
    &&& park.books_of().closed_at() is None
    &&& plantable(park, border_tile(middle, k), people)
    &&& border_cash(park, middle, people, k) >= scenery_cost(border_plant(k))
}

/// How many plantings a park `width` wide gets: two for every third column.
pub open spec fn border_plantings(width: int) -> int {
    2 * ((width + 2) / 3)
}

/// `after` is `before` with the border along the crossroads planted: every
/// planting that takes is there, every other tile keeps its scenery, and the
/// bank paid for exactly what took.
pub open spec fn border_planted(before: &Park, after: &Park, people: Seq<TilePos>) -> bool {
    let middle = before.rows() / 2;
    &&& before.differs_only_in(after, set![Part::Scenery, Part::Books])
    &&& only_spent(before, after)
    &&& forall|k: int|
        0 <= k < border_plantings(before.cols()) ==> #[trigger] after.plant_on(border_tile(middle, k))
            == if border_takes(before, middle, people, k) {
            Some(border_plant(k))
        } else {
            before.plant_on(border_tile(middle, k))
        }
    &&& forall|t: TilePos| !on_the_border(middle, before.cols(), t) ==> #[trigger] after.plant_on(t)
        == before.plant_on(t)
    &&& after.books_of().cash_of() == border_cash(before, middle, people, border_plantings(before.cols()))
}

/// Plants a row of scenery along the crossroads, where the crowd walks.
///
/// Where it is looked at, in other words: beauty is counted around the paths,
/// so scenery in the corner of the map would be a picture of the feature not
/// working. Every third column gets a tree or a flowerbed above the path and
/// below it, in turn; whatever lands in the lake, under the coaster or past
/// what the bank will pay for is simply skipped: this is decoration.
pub fn plant_around(park: &mut Park, people: &[TilePos])
    requires
        old(park).wf(),
    ensures
        final(park).wf(),
        border_planted(old(park), final(park), people@),
{
    let ghost start = *park;
    let middle: i32 = (park.height() / 2) as i32;
    let width = park.width();
    let ghost m: int = middle as int;
    let mut x: u32 = 0;
    let ghost mut j: int = 0;
    while x < width
        invariant
            park.wf(),
            start.wf(),
            start == *old(park),
            start.differs_only_in(&*park, set![Part::Scenery, Part::Books]),
            only_spent(&start, &*park),
            width == start.cols(),
            middle == start.rows() / 2,
            m == middle,
            0 < start.rows() <= 4096,
            0 < width <= 4096,
            x == 3 * j,
            0 <= j,
            x <= width + 2,
            forall|k: int|
                0 <= k < 2 * j ==> #[trigger] park.plant_on(border_tile(m, k)) == if border_takes(
                    &start,
                    m,
                    people@,
                    k,
                ) {
                    Some(border_plant(k))
                } else {
                    start.plant_on(border_tile(m, k))
                },
            forall|t: TilePos| !on_the_border(m, x as int, t) ==> #[trigger] park.plant_on(t) == start.plant_on(t),
            park.books_of().cash_of() == border_cash(&start, m, people@, 2 * j),
        decreases width + 3 - x,
    {
        let planted = if x % 6 == 0 {
            Scenery::Tree
        } else {
            Scenery::Flowerbed
        };
        proof {
            assert((x % 6 == 0) == (j % 2 == 0)) by (nonlinear_arith)
                requires
                    x == 3 * j,
                    0 <= j,
            ;
            assert(border_tile(m, 2 * j) == TilePos { x: x as i32, y: (middle - 1) as i32 });
            assert(border_tile(m, 2 * j + 1) == TilePos { x: x as i32, y: (middle + 1) as i32 });
            assert(border_plant(2 * j) == planted);
            assert(border_plant(2 * j + 1) == planted);
        }
        let above = TilePos::new(x as i32, middle - 1);
        let below = TilePos::new(x as i32, middle + 1);
        let ghost first = *park;
        assert(!on_the_border(m, x as int, above));
        assert(first.plant_on(above) == start.plant_on(above));
        assert(plantable(&first, above, people@) == plantable(&start, above, people@));
        let _ = park.plant(above, planted, people);
        let ghost second = *park;
        assert(!on_the_border(m, x as int, below));
        assert(second.plant_on(below) == start.plant_on(below));
        assert(plantable(&second, below, people@) == plantable(&start, below, people@));
        let _ = park.plant(below, planted, people);
        proof {
            assert(border_cash(&start, m, people@, 2 * j + 1) == second.books_of().cash_of());
            assert forall|k: int|
                0 <= k < 2 * (j + 1) implies #[trigger] park.plant_on(border_tile(m, k)) == if border_takes(
                    &start,
                    m,
                    people@,
                    k,
                ) {
                    Some(border_plant(k))
                } else {
                    start.plant_on(border_tile(m, k))
                } by {
                if k < 2 * j {
                    assert(border_tile(m, k) != above && border_tile(m, k) != below);
                }
            }
            assert forall|t: TilePos| !on_the_border(m, x + 3, t) implies #[trigger] park.plant_on(t)
                == start.plant_on(t) by {
                assert(!on_the_border(m, x as int, t));
                assert(t != above && t != below);
            }
        }
        x += 3;
        proof {
            j = j + 1;
        }
    }
    proof {
        assert(j == (width + 2) / 3);
        assert forall|t: TilePos| !on_the_border(m, width as int, t) implies #[trigger] park.plant_on(t)
            == start.plant_on(t) by {
            if on_the_border(m, x as int, t) {
                assert(t.x <= x - 3) by (nonlinear_arith)
                    requires
                        t.x % 3 == 0,
                        x % 3 == 0,
                        t.x < x,
                        0 <= t.x,
                ;
            }
        }
    }
}

/// Where piece `n` of the demo layout goes, counted from its first tile:
/// how far along the columns and the rows, which way it is entered, and
/// the height it is entered at. Piece 12 is where the layout comes back to.
pub open spec fn demo_place(n: int) -> (int, int, Heading, int) {
    if n == 0 {
        (0, 0, Heading::North, 0)
    } else if n == 1 {
        (1, 0, Heading::East, 0)
    } else if n == 2 {
        (2, 0, Heading::East, 0)
    } else if n == 3 {
        (3, 0, Heading::East, 1)
    } else if n == 4 {
        (3, 1, Heading::South, 1)
    } else if n == 5 {
        (3, 2, Heading::South, 2)
    } else if n == 6 {
        (3, 3, Heading::South, 3)
    } else if n == 7 {
        (2, 3, Heading::West, 3)
    } else if n == 8 {
        (1, 3, Heading::West, 2)
    } else if n == 9 {
        (0, 3, Heading::West, 1)
    } else if n == 10 {
        (0, 2, Heading::North, 1)
    } else if n == 11 {
        (0, 1, Heading::North, 0)
    } else {
        (0, 0, Heading::North, 0)
    }
}

/// The demo layout laid from `corner` facing north at the base height goes
/// where [`demo_place`] says, piece by piece.
proof fn lemma_demo_walk(corner: TilePos)
    requires
        0 <= corner.x <= 5000,
        0 <= corner.y <= 5000,
    ensures
        forall|n: nat|
            n <= 12 ==> #[trigger] walk(corner, Heading::North, 0, demo_layout(), n) == (
                corner.shifted(demo_place(n as int).0, demo_place(n as int).1),
                demo_place(n as int).2,
                demo_place(n as int).3,
            ),
{
    let d = demo_layout();
    assert(walk(corner, Heading::North, 0, d, 0) == (corner.shifted(0, 0), Heading::North, 0int));
    assert(walk(corner, Heading::North, 0, d, 1) == (corner.shifted(1, 0), Heading::East, 0int));
    assert(walk(corner, Heading::North, 0, d, 2) == (corner.shifted(2, 0), Heading::East, 0int));
    assert(walk(corner, Heading::North, 0, d, 3) == (corner.shifted(3, 0), Heading::East, 1int));
    assert(walk(corner, Heading::North, 0, d, 4) == (corner.shifted(3, 1), Heading::South, 1int));
    assert(walk(corner, Heading::North, 0, d, 5) == (corner.shifted(3, 2), Heading::South, 2int));
    assert(walk(corner, Heading::North, 0, d, 6) == (corner.shifted(3, 3), Heading::South, 3int));
    assert(walk(corner, Heading::North, 0, d, 7) == (corner.shifted(2, 3), Heading::West, 3int));
    assert(walk(corner, Heading::North, 0, d, 8) == (corner.shifted(1, 3), Heading::West, 2int));
    assert(walk(corner, Heading::North, 0, d, 9) == (corner.shifted(0, 3), Heading::West, 1int));
    assert(walk(corner, Heading::North, 0, d, 10) == (corner.shifted(0, 2), Heading::North, 1int));
    assert(walk(corner, Heading::North, 0, d, 11) == (corner.shifted(0, 1), Heading::North, 0int));
    assert(walk(corner, Heading::North, 0, d, 12) == (corner.shifted(0, 0), Heading::North, 0int));
}

/// The demo layout makes sense laid from `corner` facing north at the base
/// height: no piece leaves the heights land stands at, and none crosses
/// another.
proof fn lemma_demo_fits(corner: TilePos)
    requires
        0 <= corner.x <= 5000,
        0 <= corner.y <= 5000,
    ensures
        fits(corner, Heading::North, 0, demo_layout()),
{
    lemma_demo_walk(corner);
    let d = demo_layout();
    assert forall|i: nat| i < d.len() implies Land::MIN_HEIGHT <= #[trigger] walk(corner, Heading::North, 0, d, i).2
        + climb_of(d[i as int]) <= Land::MAX_HEIGHT by {
        assert(walk(corner, Heading::North, 0, d, i) == walk(corner, Heading::North, 0, d, i));
    }
    assert forall|i: nat, j: nat| i < j < d.len() implies #[trigger] walk(corner, Heading::North, 0, d, i).0
        != #[trigger] walk(corner, Heading::North, 0, d, j).0 by {
        let (a, b) = (demo_place(i as int), demo_place(j as int));
        assert(a.0 != b.0 || a.1 != b.1);
    }
}

/// Every tile of the square cleared from `corner` is the one of its place in
/// the square, row by row.
proof fn lemma_cleared_place(corner: TilePos, t: TilePos)
    requires
        0 <= corner.x <= 5000,
        0 <= corner.y <= 5000,
        among_cleared(corner, t, CLEARING * CLEARING),
    ensures
        0 <= (t.y - corner.y) * CLEARING + (t.x - corner.x) < CLEARING * CLEARING,
        cleared_tile(corner, (t.y - corner.y) * CLEARING + (t.x - corner.x)) == t,
{
}

/// Everything the demo coaster's layout stands on is as the clearing left it
/// and as [`coaster_fits`] found it, so piece `n` of it goes down.
proof fn demo_piece_goes_down(
    p: &Park,
    first: &Park,
    cleared: &Park,
    id: u32,
    at: int,
    n: nat,
    corner: TilePos,
    people: Seq<TilePos>,
)
    requires
        p.wf(),
        first.wf(),
        n < 12,
        coaster_fits(first, people),
        corner == corner_of(first),
        0 <= corner.x <= 5000,
        0 <= corner.y <= 5000,
        fits(corner, Heading::North, 0, demo_layout()),
        forall|m: nat| m <= 12 ==> #[trigger] walk(corner, Heading::North, 0, demo_layout(), m) == (
            corner.shifted(demo_place(m as int).0, demo_place(m as int).1),
            demo_place(m as int).2,
            demo_place(m as int).3,
        ),
        p.has_ride(id),
        p.ride_index(id) == at,
        p.is_first_ride(at, id),
        p.rides_of()[at].layout_of() matches Layout::Track(t) && {
            &&& t.laid() == demo_layout().take(n as int)
            &&& t.first_tile() == corner
            &&& t.first_heading() == Heading::North
            &&& t.first_height() == 0
        },
        p.land_of() == cleared.land_of(),
        p.shops_of() == first.shops_of(),
        p.plants_of() == first.plants_of(),
        p.books_of().closed_at() is None,
        p.rides_of().len() == at + 1,
        at == first.rides_of().len(),
        forall|j: int| 0 <= j < at ==> #[trigger] p.rides_of()[j] == first.rides_of()[j],
        p.books_of().cash_of() == cleared.books_of().cash_of() - cost_of(demo_layout(), n),
        cleared.books_of().cash_of() >= demo_cost() + QUEUE_LENGTH * lay_cost_of(Terrain::Queue)->0,
        forall|t: TilePos| #[trigger] among_cleared(corner, t, CLEARING * CLEARING) ==> cleared.land_of().ground_of(t)
            == Some(Terrain::Grass) && cleared.land_of().height_of(t) == Some(Land::MIN_HEIGHT),
        clearable(first, corner, people),
    ensures
        p.lay_refusal(id, demo_layout()[n as int]) is None,
        p.rides_of()[at].layout_of() matches Layout::Track(t) && t.push_refusal(demo_layout()[n as int]) is None,
{
    let d = demo_layout();
    let piece = d[n as int];
    let t = match p.rides_of()[at].layout_of() {
        Layout::Track(t) => t,
        Layout::Flat { .. } => { return; },
    };
    lemma_walk_prefix(corner, Heading::North, 0, d.take(n as int), d, n);
    assert(t.next() == walk(corner, Heading::North, 0, d, n));
    let place = demo_place(n as int);
    let tile = corner.shifted(place.0, place.1);
    assert(t.next().0 == tile);
    assert(among_cleared(corner, tile, CLEARING * CLEARING));
    lemma_cleared_place(corner, tile);
    let k = (tile.y - corner.y) * CLEARING + (tile.x - corner.x);
    assert(workable(first, cleared_tile(corner, k), people));
    assert(first.plant_on(tile) is None);
    lemma_cost_grows(d, n + 1, 12);
    assert(!first.track_on(tile));
    assert forall|i: int|
        0 <= i < p.rides_of().len() && Some(p.rides_of()[i].id_of()) != Some(id) implies !#[trigger] covered(
        p.rides_of(),
        i,
        tile,
    ) by {
        if i < at {
            assert(p.rides_of()[i] == first.rides_of()[i]);
            assert(!covered(first.rides_of(), i, tile));
        }
    }
    assert(!p.crossed_by_another(tile, Some(id)));
    assert(p.track_refusal(tile, Some(id)) is None);
    assert(walk(corner, Heading::North, 0, d, n).2 + climb_of(d[n as int]) >= Land::MIN_HEIGHT);
    assert(p.lay_refusal(id, piece) is None);
    assert(p.rides_of()[at].wf());
    if t.push_refusal(piece) is Some {
        assert(d.take(n as int) == t.laid());
        t.lemma_refused_never_fits(piece, d);
    }
}

/// Once the demo layout is down, its queue can be laid in full.
proof fn demo_queue_ready(
    p: &Park,
    first: &Park,
    cleared: &Park,
    id: u32,
    at: int,
    corner: TilePos,
    people: Seq<TilePos>,
)
    requires
        p.wf(),
        first.wf(),
        coaster_fits(first, people),
        corner == corner_of(first),
        0 <= corner.x <= 5000,
        0 <= corner.y <= 5000,
        forall|m: nat| m <= 12 ==> #[trigger] walk(corner, Heading::North, 0, demo_layout(), m) == (
            corner.shifted(demo_place(m as int).0, demo_place(m as int).1),
            demo_place(m as int).2,
            demo_place(m as int).3,
        ),
        p.has_ride(id),
        p.ride_index(id) == at,
        p.rides_of()[at].layout_of() matches Layout::Track(t) && {
            &&& t.laid() == demo_layout().take(12)
            &&& t.first_tile() == corner
            &&& t.first_heading() == Heading::North
            &&& t.first_height() == 0
        },
        p.land_of() == cleared.land_of(),
        p.shops_of() == first.shops_of(),
        p.books_of().closed_at() is None,
        p.rides_of().len() == at + 1,
        at == first.rides_of().len(),
        forall|j: int| 0 <= j < at ==> #[trigger] p.rides_of()[j] == first.rides_of()[j],
        p.books_of().cash_of() == cleared.books_of().cash_of() - cost_of(demo_layout(), 12),
        cleared.books_of().cash_of() >= demo_cost() + QUEUE_LENGTH * lay_cost_of(Terrain::Queue)->0,
        forall|t: TilePos| #[trigger] among_cleared(corner, t, CLEARING * CLEARING) ==> cleared.land_of().ground_of(t)
            == Some(Terrain::Grass) && cleared.land_of().height_of(t) == Some(Land::MIN_HEIGHT),
        forall|t: TilePos| !#[trigger] among_cleared(corner, t, CLEARING * CLEARING) ==> cleared.land_of().ground_of(t)
            == first.land_of().ground_of(t),
        clearable(first, corner, people),
    ensures
        queue_ready(p, id, people),
{
    let d = demo_layout();
    let t = match p.rides_of()[at].layout_of() {
        Layout::Track(t) => t,
        Layout::Flat { .. } => { return; },
    };
    assert(d.take(12) =~= d);
    lemma_demo_station(&t);
    assert(t.after(1) == walk(corner, Heading::North, 0, d, 1));
    let station = corner.shifted(1, 0);
    assert(first_station(p, id) == station);
    assert forall|i: int, k: nat|
        0 <= i < 4 && 1 <= k <= QUEUE_LENGTH && #[trigger] open_ground(p, station, queue_way(i), k) implies {
            let at = stepped(station, queue_way(i), k);
            let tile = TilePos { x: at.0 as i32, y: at.1 as i32 };
            p.shop_on(tile) is None && !people.contains(tile)
        } by {
        let spot = stepped(station, queue_way(i), k);
        let tile = TilePos { x: spot.0 as i32, y: spot.1 as i32 };
        if among_cleared(corner, tile, CLEARING * CLEARING) {
            lemma_cleared_place(corner, tile);
            let c = (tile.y - corner.y) * CLEARING + (tile.x - corner.x);
            assert(workable(first, cleared_tile(corner, c), people));
        } else {
            assert(cleared.land_of().ground_of(tile) == first.land_of().ground_of(tile));
        }
        assert(first.land_of().holds(tile));
        if first.track_on(tile) {
            let j = choose|j: int| 0 <= j < first.rides_of().len() && #[trigger] covered(first.rides_of(), j, tile);
            assert(p.rides_of()[j] == first.rides_of()[j]);
            assert(covered(p.rides_of(), j, tile));
        }
        assert(open_ground(first, station, queue_way(i), k));
    }
}

/// The demo layout's station is its second piece, and the only one.
proof fn lemma_demo_station(t: &Track)
    requires
        t.laid() == demo_layout(),
    ensures
        t.stations_in(12) == seq![t.after(1).0],
{
    assert(t.stations_in(0) =~= Seq::<TilePos>::empty());
    assert(t.stations_in(1) =~= Seq::<TilePos>::empty());
    assert(t.stations_in(2) =~= seq![t.after(1).0]);
    assert(t.stations_in(3) == t.stations_in(2));
    assert(t.stations_in(4) == t.stations_in(3));
    assert(t.stations_in(5) == t.stations_in(4));
    assert(t.stations_in(6) == t.stations_in(5));
    assert(t.stations_in(7) == t.stations_in(6));
    assert(t.stations_in(8) == t.stations_in(7));
    assert(t.stations_in(9) == t.stations_in(8));
    assert(t.stations_in(10) == t.stations_in(9));
    assert(t.stations_in(11) == t.stations_in(10));
    assert(t.stations_in(12) == t.stations_in(11));
}

/// Laying more of a layout never costs less.
proof fn lemma_cost_grows(pieces: Seq<TrackPiece>, a: nat, b: nat)
    requires
        a <= b,
    ensures
        cost_of(pieces, a) <= cost_of(pieces, b),
    decreases b - a,
{
    if a < b {
        lemma_cost_grows(pieces, a, (b - 1) as nat);
    }
}

/// What the demo layout's pieces cost, all twelve of them.
pub open spec fn demo_cost() -> int {
    cost_of(demo_layout(), 12)
}

/// Whether the demo coaster goes in on `park` from start to finish: the
/// square it stands on can be cleared, nothing is planted on it, the park
/// has room for one more ride and no ride already has the id it will get,
/// nothing stands in the way of its queue, and the bank holds the clearing,
/// the track and the queue.
pub open spec fn coaster_fits(park: &Park, people: Seq<TilePos>) -> bool {
    let corner = corner_of(park);
    &&& clearable(park, corner, people)
    &&& !park.has_ride(park.next_ride())
    &&& park.rides_of().len() < Park::MAX_RIDES
    &&& forall|t: TilePos| #[trigger] among_cleared(corner, t, CLEARING * CLEARING) ==> park.plant_on(t) is None
    &&& queue_clear(park, corner.shifted(1, 0), people)
    &&& park.books_of().cash_of() >= clearing_cost(park, corner, CLEARING * CLEARING) + demo_cost()
        + QUEUE_LENGTH * lay_cost_of(Terrain::Queue)->0
}

/// `after` is `cleared` with the demo track laid for ride `id`: only the
/// rides, the ids and the books moved, and the bank paid for every piece.
pub open spec fn track_laid(cleared: &Park, after: &Park, id: u32) -> bool {
    &&& cleared.differs_only_in(after, set![Part::Rides, Part::Books, Part::Ids])
    &&& only_spent(cleared, after)
    &&& after.has_ride(id)
    &&& after.books_of().cash_of() == cleared.books_of().cash_of() - demo_cost()
}

/// How the demo coaster went in, stage by stage: `before` cleared into
/// `cleared`, the track for ride `id` laid into `laid`, its queue laid into
/// `queued`, and the border planted into `after`.
pub open spec fn coaster_stages(
    before: &Park,
    cleared: &Park,
    laid: &Park,
    queued: &Park,
    after: &Park,
    people: Seq<TilePos>,
    id: u32,
) -> bool {
    &&& ground_cleared(before, cleared, corner_of(before))
    &&& track_laid(cleared, laid, id)
    &&& queue_laid(laid, queued, first_station(laid, id))
    &&& border_planted(queued, after, people)
}

/// Lays the demo coaster beside the crossroads and returns its id: the
/// ground cleared flat, the track laid, a queue leading to it, and scenery
/// along the path. Whether it runs is for a test train to find out.
///
/// Fails if the ground cannot be cleared, the park has no room for another
/// ride, or it is too poor to pay for it; succeeds wherever
/// [`coaster_fits`] holds. Where no ride had the id the next ride gets, the
/// ride it returns the id of is the demo layout, starting on [`corner_of`]
/// facing north.
pub fn coaster(park: &mut Park, people: &[TilePos]) -> (r: Result<u32, BuildError>)
    requires
        old(park).wf(),
    ensures
        final(park).wf(),
        r matches Ok(id) ==> final(park).has_ride(id),
        r matches Ok(id) ==> id == old(park).next_ride(),
        !old(park).has_ride(old(park).next_ride()) ==> (r matches Ok(id) ==> (final(park).rides_of()[final(park).ride_index(id)].layout_of() matches Layout::Track(t) && {
            &&& t.laid() == demo_layout()
            &&& t.first_tile() == corner_of(old(park))
            &&& t.first_heading() == Heading::North
            &&& t.closes()
        })),
        r is Ok ==> clearable(old(park), corner_of(old(park)), people@),
        r is Ok ==> old(park).rides_of().len() < Park::MAX_RIDES,
        coaster_fits(old(park), people@) ==> r is Ok,
        r matches Ok(id) ==> exists|cleared: Park, laid: Park, queued: Park|
            #[trigger] coaster_stages(old(park), &cleared, &laid, &queued, final(park), people@, id),
{
    let corner = TilePos::new(
        (park.width() / 2) as i32 + OFFSET,
        (park.height() / 2) as i32 + OFFSET,
    );
    let ghost first = *park;
    let ghost ok = coaster_fits(&first, people@);
    assert(corner == corner_of(&first));
    clear_the_ground(park, corner, people)?;
    let ghost cleared = *park;
    proof {
        if ok {
            lemma_demo_fits(corner);
            lemma_demo_walk(corner);
            assert(among_cleared(corner, corner, CLEARING * CLEARING));
            lemma_cleared_place(corner, corner);
            assert(workable(&first, cleared_tile(corner, 0), people@));
            assert(!cleared.crossed_by_another(corner, None));
            assert(cleared.start_refusal(corner) is None);
        }
    }
    let id = park.start_a_ride("The Wooden Hill", corner, Heading::North)?;
    let ghost at = park.rides_of().len() - 1;
    let ghost started_at = *park;
    let pieces: [TrackPiece; 12] = [
        TrackPiece::CurveRight,
        TrackPiece::Station,
        TrackPiece::LiftHill,
        TrackPiece::CurveRight,
        TrackPiece::LiftHill,
        TrackPiece::LiftHill,
        TrackPiece::CurveRight,
        TrackPiece::SlopeDown,
        TrackPiece::SlopeDown,
        TrackPiece::CurveRight,
        TrackPiece::SlopeDown,
        TrackPiece::Brakes,
    ];
    assert(pieces@ =~= demo_layout());
    proof {
        crate::park::lemma_first_ride_below(park, id, at);
        if !first.has_ride(first.next_ride()) {
            assert forall|j: int| 0 <= j < at implies park.rides_of()[j] == first.rides_of()[j] by {
                assert(park.rides_of().drop_last()[j] == park.rides_of()[j]);
            }
            assert(park.rides_of()[at].id_of() == id);
            assert(id == first.next_ride());
            assert(at == first.rides_of().len());
            assert forall|j: int| 0 <= j < at implies (#[trigger] park.rides_of()[j]).id_of() != id by {
                assert(park.rides_of()[j] == first.rides_of()[j]);
                assert(!(0 <= j < first.rides_of().len() && first.rides_of()[j].id_of() == first.next_ride()));
            }
            assert(park.is_first_ride(at, id));
            let m = park.ride_index(id);
            if m < at {
                assert(first.rides_of()[m].id_of() == id);
            }
            assert(m == at);
        }
        if ok {
            assert(cleared.land_of().height_of(corner) == Some(Land::MIN_HEIGHT));
            assert forall|j: int| 0 <= j < at implies park.rides_of()[j] == first.rides_of()[j] by {
                assert(park.rides_of().drop_last()[j] == park.rides_of()[j]);
            }
        }
    }
    let mut n: usize = 0;
    while n < 12
        invariant
            park.wf(),
            pieces@ == demo_layout(),
            n <= 12,
            park.has_ride(id),
            id == first.next_ride(),
            !first.has_ride(first.next_ride()) ==> park.ride_index(id) == at && (park.rides_of()[at].layout_of() matches Layout::Track(t) && {
                &&& t.laid() == demo_layout().take(n as int)
                &&& t.first_tile() == corner
                &&& t.first_heading() == Heading::North
            }),
            ok == coaster_fits(&first, people@),
            first == *old(park),
            cleared.differs_only_in(&*park, set![Part::Rides, Part::Books, Part::Ids]),
            only_spent(&cleared, &*park),
            park.books_of().cash_of() == cleared.books_of().cash_of() - cost_of(demo_layout(), n as nat),
            corner == corner_of(&first),
            ok ==> {
                &&& first.wf()
                &&& 0 <= corner.x <= 5000
                &&& 0 <= corner.y <= 5000
                &&& fits(corner, Heading::North, 0, demo_layout())
                &&& forall|m: nat| m <= 12 ==> #[trigger] walk(corner, Heading::North, 0, demo_layout(), m) == (
                    corner.shifted(demo_place(m as int).0, demo_place(m as int).1),
                    demo_place(m as int).2,
                    demo_place(m as int).3,
                )
                &&& park.land_of() == cleared.land_of()
                &&& park.shops_of() == first.shops_of()
                &&& park.plants_of() == first.plants_of()
                &&& park.books_of().closed_at() is None
                &&& park.rides_of().len() == at + 1
                &&& at == first.rides_of().len()
                &&& forall|j: int| 0 <= j < at ==> #[trigger] park.rides_of()[j] == first.rides_of()[j]
                &&& park.rides_of()[at].layout_of() matches Layout::Track(t) && t.first_height() == 0
                &&& park.books_of().cash_of() == cleared.books_of().cash_of() - cost_of(demo_layout(), n as nat)
                &&& cleared.books_of().cash_of() >= demo_cost() + QUEUE_LENGTH * lay_cost_of(Terrain::Queue)->0
                &&& forall|t: TilePos| #[trigger] among_cleared(corner, t, CLEARING * CLEARING) ==> cleared.land_of().ground_of(t)
                    == Some(Terrain::Grass) && cleared.land_of().height_of(t) == Some(Land::MIN_HEIGHT)
                &&& forall|t: TilePos| !#[trigger] among_cleared(corner, t, CLEARING * CLEARING) ==> cleared.land_of().ground_of(t)
                    == first.land_of().ground_of(t)
                &&& clearable(&first, corner, people@)
            },
        decreases 12 - n,
    {
        let ghost before = *park;
        proof {
            let k = choose|k: int| 0 <= k < park.rides_of().len() && (#[trigger] park.rides_of()[k]).id_of() == id;
            crate::park::lemma_first_ride_below(park, id, k);
            if ok {
                demo_piece_goes_down(&before, &first, &cleared, id, at, n as nat, corner, people@);
            }
        }
        park.lay_track(id, pieces[n])?;
        proof {
            crate::park::lemma_ride_index_kept(&before, park, id);
            if !first.has_ride(first.next_ride()) {
                assert(demo_layout().take(n + 1) =~= demo_layout().take(n as int).push(pieces@[n as int]));
            }
            if ok {
                assert forall|j: int| 0 <= j < at implies #[trigger] park.rides_of()[j] == first.rides_of()[j] by {
                    assert(park.rides_of()[j] == before.rides_of()[j]);
                }
            }
        }
        n += 1;
    }
    let ghost laid = *park;
    proof {
        if ok {
            demo_queue_ready(&laid, &first, &cleared, id, at, corner, people@);
        }
    }
    queue_for(park, id, people)?;
    let ghost queued = *park;
    plant_around(park, people);
    proof {
        crate::park::lemma_ride_index_kept(&laid, park, id);
        if !first.has_ride(first.next_ride()) {
            assert(demo_layout().take(12) =~= demo_layout());
            if let Layout::Track(t) = park.rides_of()[at].layout_of() {
                the_demo_layout_is_a_circuit(&t);
            }
        }
        assert(coaster_stages(&first, &cleared, &laid, &queued, park, people@, id));
    }
    Ok(id)
}

} // verus!
