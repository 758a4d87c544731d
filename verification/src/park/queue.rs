//! The line for a ride.
//!
//! A queue is an order, not a place: a list of guests, front first. Where the
//! line actually stands is worked out from the land — the run of queue path
//! leading away from the station — so laying a longer queue makes a longer line
//! without anything here needing to know about tiles.

use vstd::prelude::*;

use crate::park::{Land, Terrain, TilePos};

verus! {

/// The line of guests waiting for one ride.
#[derive(Debug, Clone, PartialEq, Eq)]
pub struct Queue {
    /// Who is waiting, front of the line first.
    waiting: Vec<u32>,
}

impl Default for Queue {
    /// Nobody waiting.
    fn default() -> (q: Self)
        ensures
            q.wf(),
            q.line() == Seq::<u32>::empty(),
    {
        Queue::new()
    }
}

impl Queue {
    /// How long a queue is allowed to get, however much path was laid.
    pub const MAX_LENGTH: usize = 40;

    /// The longest a guest will stand in line before it stops being worth it.
    pub const PATIENCE: u32 = 7_200;

    /// Who is waiting, front first.
    pub closed spec fn line(&self) -> Seq<u32> {
        self.waiting@
    }

    /// Nobody is in the line twice, and it is no longer than it may be.
    pub open spec fn wf(&self) -> bool {
        &&& self.line().len() <= Self::MAX_LENGTH
        &&& self.line().no_duplicates()
    }

    /// Nobody waiting.
    pub fn new() -> (q: Self)
        ensures
            q.wf(),
            q.line() == Seq::<u32>::empty(),
    {
        Queue { waiting: Vec::new() }
    }

    /// How many guests are in line.
    pub fn len(&self) -> (n: usize)
        ensures
            n == self.line().len(),
    {
        self.waiting.len()
    }

    /// Whether nobody is waiting.
    pub fn is_empty(&self) -> (b: bool)
        ensures
            b == (self.line().len() == 0),
    {
        self.waiting.len() == 0
    }

    /// Everybody in line, front first.
    pub fn waiting(&self) -> (w: &[u32])
        ensures
            w@ == self.line(),
    {
        self.waiting.as_slice()
    }

    /// Whether `guest` is already in this line.
    pub fn holds(&self, guest: u32) -> (b: bool)
        ensures
            b == self.line().contains(guest),
    {
        match self.place_of(guest) {
            Some(_) => true,
            None => false,
        }
    }

    /// Where in the line `guest` is standing, counting from the front.
    pub fn place_of(&self, guest: u32) -> (place: Option<usize>)
        ensures
            place is None <==> !self.line().contains(guest),
            place matches Some(i) ==> i < self.line().len() && self.line()[i as int] == guest
                && forall|j: int| 0 <= j < i ==> self.line()[j] != guest,
    {
        let mut i: usize = 0;
        while i < self.waiting.len()
            invariant
                i <= self.line().len(),
                self.waiting@ == self.line(),
                forall|j: int| 0 <= j < i ==> self.line()[j] != guest,
            decreases self.line().len() - i,
        {
            if self.waiting[i] == guest {
                return Some(i);
            }
            i += 1;
        }
        None
    }

    /// Puts `guest` on the end of the line.
    ///
    /// Returns whether they joined: a full line turns people away, and nobody
    /// joins a line they are already in.
    pub fn join(&mut self, guest: u32) -> (joined: bool)
        requires
            old(self).wf(),
        ensures
            final(self).wf(),
            joined == (old(self).line().len() < Self::MAX_LENGTH
                && !old(self).line().contains(guest)),
            joined ==> final(self).line() == old(self).line().push(guest),
            !joined ==> final(self).line() == old(self).line(),
    {
        if self.waiting.len() >= Self::MAX_LENGTH || self.holds(guest) {
            return false;
        }
        self.waiting.push(guest);
        proof {
            assert(self.line() == old(self).line().push(guest));
            assert forall|i: int, j: int|
                0 <= i < self.line().len() && 0 <= j < self.line().len() && i != j implies self.line()[i]
                != self.line()[j] by {
                if i < old(self).line().len() && j < old(self).line().len() {
                } else if i < old(self).line().len() {
                    assert(old(self).line().contains(old(self).line()[i]));
                } else {
                    assert(old(self).line().contains(old(self).line()[j]));
                }
            }
        }
        true
    }

    /// Takes `guest` out of the line, wherever they were standing.
    ///
    /// Everybody behind them moves up, which is the whole point of keeping the
    /// line as an order rather than a set of positions.
    pub fn leave(&mut self, guest: u32) -> (left: bool)
        requires
            old(self).wf(),
        ensures
            final(self).wf(),
            left == old(self).line().contains(guest),
            !left ==> final(self).line() == old(self).line(),
            left ==> exists|i: int|
                0 <= i < old(self).line().len() && old(self).line()[i] == guest
                    && final(self).line() == old(self).line().remove(i),
            !final(self).line().contains(guest),
    {
        let place = match self.place_of(guest) {
            Some(p) => p,
            None => return false,
        };
        let ghost before = self.line();
        self.waiting.remove(place);
        proof {
            assert(self.line() == before.remove(place as int));
            assert forall|i: int, j: int|
                0 <= i < self.line().len() && 0 <= j < self.line().len() && i != j implies self.line()[i]
                != self.line()[j] by {
                let oi = if i < place { i } else { i + 1 };
                let oj = if j < place { j } else { j + 1 };
                assert(self.line()[i] == before[oi]);
                assert(self.line()[j] == before[oj]);
            }
            if self.line().contains(guest) {
                let k = choose|k: int| 0 <= k < self.line().len() && self.line()[k] == guest;
                let ok = if k < place { k } else { k + 1 };
                assert(before[ok] == guest);
                assert(before[place as int] == guest);
            }
        }
        true
    }

    /// Who is at the front, if anybody is.
    pub fn front(&self) -> (f: Option<u32>)
        ensures
            self.line().len() == 0 ==> f is None,
            self.line().len() > 0 ==> f == Some(self.line()[0]),
    {
        if self.waiting.len() == 0 {
            None
        } else {
            Some(self.waiting[0])
        }
    }

    /// Empties the line out, returning everybody who was in it.
    ///
    /// What happens when a ride is shut, breaks down or is demolished: the line
    /// does not stand there waiting for something that is not coming back.
    pub fn send_everybody_away(&mut self) -> (sent: Vec<u32>)
        requires
            old(self).wf(),
        ensures
            final(self).wf(),
            sent@ == old(self).line(),
            final(self).line() == Seq::<u32>::empty(),
    {
        let mut gone: Vec<u32> = Vec::new();
        std::mem::swap(&mut gone, &mut self.waiting);
        gone
    }
}

/// Whether `t` may be the next tile of a line standing away from `station`.
pub open spec fn carries_on(land: &Land, station: TilePos, line: Seq<TilePos>, t: TilePos) -> bool {
    t != station && land.ground_of(t) == Some(Terrain::Queue) && !line.contains(t)
}

/// The first of `tiles` that is queue path.
pub open spec fn first_queue(land: &Land, tiles: Seq<TilePos>) -> Option<int>
    decreases tiles.len(),
{
    if tiles.len() == 0 {
        None
    } else if land.ground_of(tiles[0]) == Some(Terrain::Queue) {
        Some(0)
    } else {
        match first_queue(land, tiles.drop_first()) {
            Some(i) => Some(i + 1),
            None => None,
        }
    }
}

/// The first of `tiles` that a guest can stand on.
pub open spec fn first_walkable(land: &Land, tiles: Seq<TilePos>) -> Option<int>
    decreases tiles.len(),
{
    if tiles.len() == 0 {
        None
    } else if land.ground_of(tiles[0]) matches Some(g) && crate::park::terrain::walkable(g) {
        Some(0)
    } else {
        match first_walkable(land, tiles.drop_first()) {
            Some(i) => Some(i + 1),
            None => None,
        }
    }
}

/// The first of `tiles` that a line standing as `line` could carry on onto.
pub open spec fn first_onward(
    land: &Land,
    station: TilePos,
    line: Seq<TilePos>,
    tiles: Seq<TilePos>,
) -> Option<int>
    decreases tiles.len(),
{
    if tiles.len() == 0 {
        None
    } else if carries_on(land, station, line, tiles[0]) {
        Some(0)
    } else {
        match first_onward(land, station, line, tiles.drop_first()) {
            Some(i) => Some(i + 1),
            None => None,
        }
    }
}

/// The line `line` walked on along the queue path, one tile at a time, until
/// the path runs out or the line is as long as a line may be.
pub open spec fn walked_on(land: &Land, station: TilePos, line: Seq<TilePos>) -> Seq<TilePos>
    decreases Queue::MAX_LENGTH - line.len(),
{
    if line.len() == 0 || line.len() >= Queue::MAX_LENGTH {
        line
    } else {
        let here = line.last();
        match first_onward(land, station, line, here.around()) {
            Some(i) => walked_on(land, station, line.push(here.around()[i])),
            None => line,
        }
    }
}

/// Where the line for `station` stands, front tile first.
pub open spec fn line_spec(land: &Land, station: TilePos) -> Seq<TilePos> {
    match first_queue(land, station.around()) {
        Some(i) => walked_on(land, station, seq![station.around()[i]]),
        None => match first_walkable(land, station.around()) {
            Some(i) => seq![station.around()[i]],
            None => Seq::empty(),
        },
    }
}

/// The index a pick returns is one of the tiles it was picking among, and
/// the tile it names passes the test it was picked for.
proof fn lemma_first_onward_in(land: &Land, station: TilePos, line: Seq<TilePos>, tiles: Seq<TilePos>)
    ensures
        first_onward(land, station, line, tiles) matches Some(i) ==> 0 <= i < tiles.len()
            && carries_on(land, station, line, tiles[i]),
    decreases tiles.len(),
{
    if tiles.len() > 0 {
        lemma_first_onward_in(land, station, line, tiles.drop_first());
    }
}

/// The index a pick for queue path returns names a tile of queue path.
proof fn lemma_first_queue_in(land: &Land, tiles: Seq<TilePos>)
    ensures
        first_queue(land, tiles) matches Some(i) ==> 0 <= i < tiles.len() && land.ground_of(
            tiles[i],
        ) == Some(Terrain::Queue),
    decreases tiles.len(),
{
    if tiles.len() > 0 {
        lemma_first_queue_in(land, tiles.drop_first());
    }
}

/// Where the line for a station actually stands, front tile first.
///
/// The run of queue path leading away from `station`, walked one tile at a
/// time. The first tile is the one beside the station — where a guest has to
/// be standing to get on — and the last is the back of the line.
///
/// A station with no queue path beside it gets the first walkable tile next to
/// it instead, so a ride built without a queue still works and simply cannot
/// hold a line.
pub fn line_from(land: &Land, station: TilePos) -> (line: Vec<TilePos>)
    requires
        land.wf(),
        station.has_neighbours(),
    ensures
        line@ == line_spec(land, station),
{
    let around = station.neighbours();
    let start = pick_queue(land, &around);
    let start = match start {
        Some(i) => around[i],
        None => {
            let mut line: Vec<TilePos> = Vec::new();
            match pick_walkable(land, &around) {
                Some(i) => {
                    line.push(around[i]);
                },
                None => {},
            }
            assert(line@ =~= line_spec(land, station));
            return line;
        },
    };
    let mut line: Vec<TilePos> = Vec::new();
    line.push(start);
    assert(line@ =~= seq![start]);
    proof {
        lemma_first_queue_in(land, station.around());
    }
    let mut here = start;
    while line.len() < Queue::MAX_LENGTH
        invariant
            land.wf(),
            station.has_neighbours(),
            line@.len() >= 1,
            here == line@.last(),
            land.holds(here),
            walked_on(land, station, line@) == line_spec(land, station),
        ensures
            walked_on(land, station, line@) == line_spec(land, station),
            walked_on(land, station, line@) == line@,
        decreases Queue::MAX_LENGTH - line@.len(),
    {
        proof {
            crate::park::grid::lemma_slot_in_range(
                land.ground_grid().cols(),
                land.ground_grid().rows(),
                here.x as int,
                here.y as int,
            );
        }
        let beside = here.neighbours();
        let next = pick_onward(land, station, &line, &beside);
        match next {
            Some(i) => {
                let t = beside[i];
                proof {
                    lemma_first_onward_in(land, station, line@, here.around());
                }
                line.push(t);
                here = t;
            },
            None => {
                break;
            },
        }
    }
    line
}

/// Which of four tiles comes first in being queue path.
fn pick_queue(land: &Land, tiles: &[TilePos; 4]) -> (i: Option<usize>)
    requires
        land.wf(),
    ensures
        i matches Some(i) ==> i < 4 && first_queue(land, tiles@) == Some(i as int),
        i is None ==> first_queue(land, tiles@) is None,
{
    assert(tiles@.subrange(0, 4) =~= tiles@);
    let mut k: usize = 0;
    while k < 4
        invariant
            land.wf(),
            k <= 4,
            tiles@.len() == 4,
            first_queue(land, tiles@) == (match first_queue(land, tiles@.subrange(k as int, 4)) {
                Some(j) => Some(j + k),
                None => None,
            }),
        decreases 4 - k,
    {
        proof {
            let rest = tiles@.subrange(k as int, 4);
            assert(rest.drop_first() =~= tiles@.subrange(k + 1, 4));
        }
        if land.ground(tiles[k]) == Some(Terrain::Queue) {
            return Some(k);
        }
        k += 1;
    }
    assert(tiles@.subrange(4, 4).len() == 0);
    None
}

/// Which of four tiles comes first in being somewhere to stand.
fn pick_walkable(land: &Land, tiles: &[TilePos; 4]) -> (i: Option<usize>)
    requires
        land.wf(),
    ensures
        i matches Some(i) ==> i < 4 && first_walkable(land, tiles@) == Some(i as int),
        i is None ==> first_walkable(land, tiles@) is None,
{
    assert(tiles@.subrange(0, 4) =~= tiles@);
    let mut k: usize = 0;
    while k < 4
        invariant
            land.wf(),
            k <= 4,
            tiles@.len() == 4,
            first_walkable(land, tiles@) == (match first_walkable(
                land,
                tiles@.subrange(k as int, 4),
            ) {
                Some(j) => Some(j + k),
                None => None,
            }),
        decreases 4 - k,
    {
        proof {
            let rest = tiles@.subrange(k as int, 4);
            assert(rest.drop_first() =~= tiles@.subrange(k + 1, 4));
        }
        match land.ground(tiles[k]) {
            Some(g) => {
                if g.is_walkable() {
                    return Some(k);
                }
            },
            None => {},
        }
        k += 1;
    }
    assert(tiles@.subrange(4, 4).len() == 0);
    None
}

/// Whether `line` already stands on `tile`.
fn stands_on(line: &Vec<TilePos>, tile: TilePos) -> (b: bool)
    ensures
        b == line@.contains(tile),
{
    let mut i: usize = 0;
    while i < line.len()
        invariant
            i <= line@.len(),
            forall|j: int| 0 <= j < i ==> line@[j] != tile,
        decreases line@.len() - i,
    {
        if line[i] == tile {
            return true;
        }
        i += 1;
    }
    false
}

/// Which of four tiles comes first in being somewhere the line can go on to.
fn pick_onward(
    land: &Land,
    station: TilePos,
    line: &Vec<TilePos>,
    tiles: &[TilePos; 4],
) -> (i: Option<usize>)
    requires
        land.wf(),
    ensures
        i matches Some(i) ==> i < 4 && first_onward(land, station, line@, tiles@) == Some(
            i as int,
        ),
        i is None ==> first_onward(land, station, line@, tiles@) is None,
{
    assert(tiles@.subrange(0, 4) =~= tiles@);
    let mut k: usize = 0;
    while k < 4
        invariant
            land.wf(),
            k <= 4,
            tiles@.len() == 4,
            first_onward(land, station, line@, tiles@) == (match first_onward(
                land,
                station,
                line@,
                tiles@.subrange(k as int, 4),
            ) {
                Some(j) => Some(j + k),
                None => None,
            }),
        decreases 4 - k,
    {
        proof {
            let rest = tiles@.subrange(k as int, 4);
            assert(rest.drop_first() =~= tiles@.subrange(k + 1, 4));
        }
        let t = tiles[k];
        if t != station && land.ground(t) == Some(Terrain::Queue) && !stands_on(line, t) {
            return Some(k);
        }
        k += 1;
    }
    assert(tiles@.subrange(4, 4).len() == 0);
    None
}

/// A line never holds more than [`Queue::MAX_LENGTH`] tiles, never stands on
/// the same tile twice, and never runs back through its station.
pub proof fn a_line_keeps_to_its_path(land: &Land, station: TilePos, line: Seq<TilePos>)
    requires
        1 <= line.len() <= Queue::MAX_LENGTH,
        line.no_duplicates(),
        !line.contains(station),
    ensures
        walked_on(land, station, line).len() <= Queue::MAX_LENGTH,
        walked_on(land, station, line).no_duplicates(),
        !walked_on(land, station, line).contains(station),
    decreases Queue::MAX_LENGTH - line.len(),
{
    if line.len() < Queue::MAX_LENGTH {
        let here = line.last();
        lemma_first_onward_in(land, station, line, here.around());
        match first_onward(land, station, line, here.around()) {
            Some(i) => {
                let t = here.around()[i];
                let longer = line.push(t);
                assert forall|a: int, b: int|
                    0 <= a < longer.len() && 0 <= b < longer.len() && a != b implies longer[a]
                    != longer[b] by {
                    if a == line.len() as int && b < line.len() {
                        assert(longer[b] == line[b]);
                        if line[b] == t {
                            assert(line.contains(t));
                        }
                    }
                    if b == line.len() as int && a < line.len() {
                        assert(longer[a] == line[a]);
                        if line[a] == t {
                            assert(line.contains(t));
                        }
                    }
                    if a < line.len() && b < line.len() {
                        assert(longer[a] == line[a] && longer[b] == line[b]);
                    }
                }
                assert(!longer.contains(station)) by {
                    if longer.contains(station) {
                        let k = choose|k: int| 0 <= k < longer.len() && longer[k] == station;
                        if k < line.len() {
                            assert(line.contains(station));
                        }
                    }
                }
                a_line_keeps_to_its_path(land, station, longer);
            },
            None => {},
        }
    }
}

} // verus!
