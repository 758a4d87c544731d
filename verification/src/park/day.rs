//! The park's side of one tick: the clock, the turnstile, what falls due, and
//! the work the staff do to the land and the rides.
//!
//! The crowd walks and the trains run elsewhere; what they change here, they
//! change through these.

use vstd::prelude::*;

use crate::park::tile::gap;
use crate::park::{Books, Money, Park, Part, RideState, Terrain, TilePos, Track};
use crate::park::money::sat_sum;
use crate::park::shop::count_on;
use crate::park::ride::{opening, repaired};

verus! {

/// How many steps apart `a` and `b` are, counted wide enough for any two
/// tiles.
fn apart(a: TilePos, b: TilePos) -> (d: i64)
    ensures
        d == a.distance(b),
{
    let dx: i64 = if a.x >= b.x {
        a.x as i64 - b.x as i64
    } else {
        b.x as i64 - a.x as i64
    };
    let dy: i64 = if a.y >= b.y {
        a.y as i64 - b.y as i64
    } else {
        b.y as i64 - a.y as i64
    };
    dx + dy
}

/// How many ticks pass between arrivals at a park held in `regard`: word of
/// mouth takes its share of the difference between the slowest and the
/// fastest a park fills off the slowest.
pub open spec fn arrival_interval(regard: int) -> int {
    Park::SLOWEST_ARRIVALS - regard * (Park::SLOWEST_ARRIVALS - Park::FASTEST_ARRIVALS) / (Books::BEST as int)
}

/// A park everybody is talking about fills four times as fast as one nobody
/// has heard of, and the better it is thought of, the sooner the next guest
/// turns up.
pub proof fn word_of_mouth_fills_a_park(worse: int, better: int)
    requires
        0 <= worse <= better <= Books::BEST,
    ensures
        arrival_interval(0) == Park::SLOWEST_ARRIVALS,
        arrival_interval(Books::BEST as int) == Park::FASTEST_ARRIVALS,
        Park::FASTEST_ARRIVALS <= arrival_interval(better) <= arrival_interval(worse) <= Park::SLOWEST_ARRIVALS,
{
    assert(worse * 68 / 1000 <= better * 68 / 1000) by (nonlinear_arith)
        requires
            0 <= worse <= better,
    ;
    assert(0 <= worse * 68 / 1000) by (nonlinear_arith)
        requires
            0 <= worse,
    ;
    assert(better * 68 / 1000 <= 68) by (nonlinear_arith)
        requires
            0 <= better <= 1000,
    ;
}

/// Advertising never slows the turnstile: a campaign only ever adds to what
/// the park is thought of.
pub proof fn advertising_never_slows_the_turnstile(books: Books)
    requires
        books.reputation_of() <= Books::BEST,
    ensures
        arrival_interval(books.regard_of()) <= arrival_interval(books.reputation_of() as int),
{
    crate::park::finance::regard_is_capped(books);
    word_of_mouth_fills_a_park(books.reputation_of() as int, books.regard_of());
}

impl Park {
    /// How many ticks pass between arrivals, given what people think of the
    /// park, advertising included.
    ///
    /// A park nobody has heard anything good about fills slowly; one with
    /// rides worth queueing for and something to look at between them fills
    /// four times faster. It is the only advertising there is, besides the
    /// paid kind.
    pub fn how_often_people_turn_up(&self) -> (t: u64)
        ensures
            t == arrival_interval(self.books_of().regard_of()),
            Park::FASTEST_ARRIVALS <= t <= Park::SLOWEST_ARRIVALS,
    {
        let regard = self.books.regard();
        proof {
            word_of_mouth_fills_a_park(regard as int, regard as int);
            assert(regard * 68 <= 68_000) by (nonlinear_arith)
                requires
                    regard <= 1000,
            ;
        }
        let spread: u64 = Park::SLOWEST_ARRIVALS - Park::FASTEST_ARRIVALS;
        let word_of_mouth: u64 = (regard as u64) * spread / (Books::BEST as u64);
        Park::SLOWEST_ARRIVALS - word_of_mouth
    }

    /// Moves the clock on by one tick, and returns the tick it is now.
    ///
    /// The clock stops at the last tick there is rather than coming back
    /// round to the first.
    pub fn advance_the_clock(&mut self) -> (now: u64)
        requires
            old(self).wf(),
        ensures
            final(self).wf(),
            old(self).differs_only_in(&*final(self), set![Part::Clock]),
            final(self).clock() == if old(self).clock() == u64::MAX {
                u64::MAX
            } else {
                (old(self).clock() + 1) as u64
            },
            now == final(self).clock(),
    {
        self.tick = self.tick.saturating_add(1);
        self.tick
    }

    /// Whether somebody comes through the turnstile this tick, with `inside`
    /// in the park already: one every [`Park::how_often_people_turn_up`]
    /// ticks.
    ///
    /// Nobody does once the bank has closed the park, or while it is full.
    pub fn turnstile_turns(&self, inside: usize) -> (b: bool)
        ensures
            b == (self.books_of().closed_at() is None && self.clock() % (arrival_interval(
                self.books_of().regard_of(),
            ) as u64) == 0 && inside < Park::CAPACITY),
    {
        let every = self.how_often_people_turn_up();
        !self.books.is_bankrupt() && self.tick % every == 0 && inside < Park::CAPACITY
    }

    /// Takes one guest's money at the turnstile.
    pub fn take_admission(&mut self)
        requires
            old(self).wf(),
        ensures
            final(self).wf(),
            old(self).differs_only_in(&*final(self), set![Part::Books]),
            final(self).books_of().cash_of() == sat_sum(
                old(self).books_of().cash_of() as int,
                Park::ADMISSION as int,
            ),
            final(self).books_of().loan_of() == old(self).books_of().loan_of(),
            final(self).books_of().campaign_of() == old(self).books_of().campaign_of(),
            final(self).books_of().reputation_of() == old(self).books_of().reputation_of(),
            final(self).books_of().closed_at() == old(self).books_of().closed_at(),
    {
        self.books.adjust_cash(Park::ADMISSION);
    }

    /// Whether a wage bill falls due this tick.
    pub fn bill_is_due(&self) -> (b: bool)
        ensures
            b == (self.clock() % Park::TICKS_PER_WAGE_BILL == 0),
    {
        self.tick % Park::TICKS_PER_WAGE_BILL == 0
    }

    /// Whether the handymen and mechanics get a job done this tick.
    pub fn rounds_are_due(&self) -> (b: bool)
        ensures
            b == (self.clock() % Park::TICKS_PER_TIDY == 0),
    {
        self.tick % Park::TICKS_PER_TIDY == 0
    }

    /// The tile at place `k` of the square of tiles within `reach` steps
    /// either way of `at`, row by row.
    pub open spec fn round_tile(at: TilePos, reach: int, k: int) -> TilePos {
        let w = 2 * reach + 1;
        at.shifted(k % w - reach, k / w - reach)
    }

    /// The first tile worn to dirt within `reach` of `at`, looking row by row
    /// from place `k` of the square around it.
    pub open spec fn worn_near(&self, at: TilePos, reach: int, k: int) -> Option<TilePos>
        decreases (2 * reach + 1) * (2 * reach + 1) - k,
    {
        if k < 0 || k >= (2 * reach + 1) * (2 * reach + 1) {
            None
        } else {
            let t = Park::round_tile(at, reach, k);
            if at.distance(t) <= reach && self.land_of().ground_of(t) == Some(Terrain::Dirt) {
                Some(t)
            } else {
                self.worn_near(at, reach, k + 1)
            }
        }
    }

    /// Puts one tile of worn ground within `reach` of `at` back to grass,
    /// and returns which.
    ///
    /// One tile per visit rather than all of them: a single handyman cannot
    /// keep up with a crowd, which is what makes hiring a second one a
    /// decision. Every tile `reach` either way of `at` must have coordinates.
    pub fn tidy_up_around(&mut self, at: TilePos, reach: u32) -> (tidied: Option<TilePos>)
        requires
            old(self).wf(),
            at.can_offset(-(reach as int), -(reach as int)),
            at.can_offset(reach as int, reach as int),
        ensures
            final(self).wf(),
            tidied == old(self).worn_near(at, reach as int, 0),
            tidied is None ==> *final(self) == *old(self),
            tidied matches Some(t) ==> {
                &&& old(self).differs_only_in(&*final(self), set![Part::Land])
                &&& final(self).land_of().ground_of(t) == Some(Terrain::Grass)
                &&& forall|u: TilePos| u != t ==> #[trigger] final(self).land_of().ground_of(u)
                    == old(self).land_of().ground_of(u)
                &&& final(self).land_of().height_grid() == old(self).land_of().height_grid()
            },
    {
        let span: i64 = reach as i64;
        let w: u64 = 2 * (reach as u64) + 1;
        assert(w * w <= 0x1_0000_0000u64 * 0x1_0000_0000u64 - 1) by (nonlinear_arith)
            requires
                w < 0x1_0000_0000u64,
        ;
        let cells: u64 = w * w;
        let mut k: u64 = 0;
        while k < cells
            invariant
                cells == w * w,
                self.wf(),
                *self == *old(self),
                at.can_offset(-(reach as int), -(reach as int)),
                at.can_offset(reach as int, reach as int),
                span == reach,
                w == 2 * reach + 1,
                k <= w * w,
                old(self).worn_near(at, reach as int, 0) == old(self).worn_near(at, reach as int, k as int),
            decreases cells - k,
        {
            proof {
                assert((k / w) as int <= 2 * reach) by (nonlinear_arith)
                    requires
                        k < w * w,
                        w == 2 * reach + 1,
                        w > 0,
                ;
            }
            let dx: i64 = (k % w) as i64 - span;
            let dy: i64 = (k / w) as i64 - span;
            let tile = at.offset(dx as i32, dy as i32);
            assert(tile == Park::round_tile(at, reach as int, k as int));
            if apart(at, tile) <= span && self.land.ground(tile) == Some(Terrain::Dirt) {
                let _ = self.land.set_ground(tile, Terrain::Grass);
                return Some(tile);
            }
            k += 1;
        }
        None
    }

    /// Breaks ride `id` down where it stands, and returns whether there was
    /// such a ride.
    pub fn break_down_ride(&mut self, id: u32) -> (found: bool)
        requires
            old(self).wf(),
        ensures
            final(self).wf(),
            found == old(self).has_ride(id),
            !found ==> *final(self) == *old(self),
            found ==> {
                let i = old(self).ride_index(id);
                let was = old(self).rides_of()[i];
                let now = final(self).rides_of()[i];
                &&& final(self).rides_of() == old(self).rides_of().update(i, now)
                &&& now.state_of() == RideState::Broken
                &&& was.same_but(&now, true, false)
                &&& now.is_tested() == was.is_tested()
                &&& old(self).differs_only_in(&*final(self), set![Part::Rides])
            },
    {
        let at = match self.find_ride(id) {
            Some(at) => at,
            None => return false,
        };
        let ghost before = *self;
        self.rides[at].break_down();
        proof {
            self.lemma_ride_changed(&before, at as int);
        }
        true
    }

    /// Puts one more rider aboard ride `id`, and returns what they were
    /// charged, or `None` if there is no such ride.
    pub fn take_a_rider(&mut self, id: u32) -> (charged: Option<Money>)
        requires
            old(self).wf(),
        ensures
            final(self).wf(),
            charged is None <==> !old(self).has_ride(id),
            charged is None ==> *final(self) == *old(self),
            charged is Some ==> {
                let i = old(self).ride_index(id);
                let was = old(self).rides_of()[i];
                let now = final(self).rides_of()[i];
                &&& charged == Some(was.price_of())
                &&& final(self).rides_of() == old(self).rides_of().update(i, now)
                &&& now.riders_of() == count_on(was.riders_of())
                &&& now.takings_of() == sat_sum(was.takings_of() as int, was.price_of() as int)
                &&& was.same_but(&now, false, true)
                &&& old(self).differs_only_in(&*final(self), set![Part::Rides])
            },
    {
        let at = match self.find_ride(id) {
            Some(at) => at,
            None => return None,
        };
        let ghost before = *self;
        let charged = self.rides[at].take_a_rider();
        proof {
            self.lemma_ride_changed(&before, at as int);
        }
        Some(charged)
    }

    /// Rings up a sale of `amount` at the shop on `tile`, and returns whether
    /// there was a shop there to sell it.
    pub fn sell_at(&mut self, tile: TilePos, amount: Money) -> (sold: bool)
        requires
            old(self).wf(),
        ensures
            final(self).wf(),
            sold == old(self).shop_on(tile) is Some,
            !sold ==> *final(self) == *old(self),
            sold ==> {
                let was = old(self).shop_on(tile)->0;
                &&& old(self).differs_only_in(&*final(self), set![Part::Shops])
                &&& final(self).shop_on(tile) matches Some(now) && {
                    &&& now.takings_of() == sat_sum(was.takings_of() as int, amount as int)
                    &&& now.customers_of() == count_on(was.customers_of())
                    &&& now.kind_of() == was.kind_of()
                    &&& now.price_of() == was.price_of()
                }
                &&& forall|t: TilePos| t != tile ==> #[trigger] final(self).shop_on(t) == old(self).shop_on(t)
            },
    {
        let mut shop = match self.shop_at(tile) {
            Some(shop) => shop,
            None => return false,
        };
        shop.take(amount);
        self.restock(tile, shop);
        true
    }

    /// Puts one more rider aboard ride `id` and banks their fare, returning
    /// what they were charged, or `None` if there is no such ride.
    ///
    /// The ride's till and the park's bank move together: whatever the till
    /// takes, the bank takes too, short of either running off the end of the
    /// range money is counted in.
    pub fn board_a_rider(&mut self, id: u32) -> (charged: Option<Money>)
        requires
            old(self).wf(),
        ensures
            final(self).wf(),
            charged is None <==> !old(self).has_ride(id),
            charged is None ==> *final(self) == *old(self),
            charged is Some ==> {
                let i = old(self).ride_index(id);
                let was = old(self).rides_of()[i];
                let now = final(self).rides_of()[i];
                &&& charged == Some(was.price_of())
                &&& final(self).rides_of() == old(self).rides_of().update(i, now)
                &&& now.riders_of() == count_on(was.riders_of())
                &&& now.takings_of() == sat_sum(was.takings_of() as int, was.price_of() as int)
                &&& was.same_but(&now, false, true)
                &&& old(self).differs_only_in(&*final(self), set![Part::Rides, Part::Books])
                &&& final(self).books_of().cash_of() == sat_sum(
                    old(self).books_of().cash_of() as int,
                    was.price_of() as int,
                )
                &&& final(self).books_of().loan_of() == old(self).books_of().loan_of()
                &&& final(self).books_of().campaign_of() == old(self).books_of().campaign_of()
                &&& final(self).books_of().reputation_of() == old(self).books_of().reputation_of()
                &&& final(self).books_of().closed_at() == old(self).books_of().closed_at()
                &&& old(self).books_of().cash_of() + was.price_of() <= i64::MAX && was.takings_of()
                    + was.price_of() <= i64::MAX ==> final(self).books_of().cash_of() - old(
                    self,
                ).books_of().cash_of() == now.takings_of() - was.takings_of()
            },
    {
        let ghost before = *self;
        let charged = self.take_a_rider(id)?;
        proof {
            let k = choose|k: int| 0 <= k < before.rides_of().len() && (#[trigger] before.rides_of()[k]).id_of() == id;
            crate::park::lemma_first_ride_below(&before, id, k);
            assert(before.rides_of()[before.ride_index(id)].wf());
        }
        self.adjust_cash(charged);
        Some(charged)
    }

    /// Rings up a sale of `amount` at the shop on `tile` and banks it,
    /// returning whether there was a shop there to sell it.
    ///
    /// The shop's till and the park's bank move together: whatever the till
    /// takes, the bank takes too, short of either running off the end of the
    /// range money is counted in.
    pub fn ring_up(&mut self, tile: TilePos, amount: Money) -> (sold: bool)
        requires
            old(self).wf(),
        ensures
            final(self).wf(),
            sold == old(self).shop_on(tile) is Some,
            !sold ==> *final(self) == *old(self),
            sold ==> {
                let was = old(self).shop_on(tile)->0;
                &&& old(self).differs_only_in(&*final(self), set![Part::Shops, Part::Books])
                &&& final(self).shop_on(tile) matches Some(now) && {
                    &&& now.takings_of() == sat_sum(was.takings_of() as int, amount as int)
                    &&& now.customers_of() == count_on(was.customers_of())
                    &&& now.kind_of() == was.kind_of()
                    &&& now.price_of() == was.price_of()
                    &&& i64::MIN <= old(self).books_of().cash_of() + amount <= i64::MAX && i64::MIN
                        <= was.takings_of() + amount <= i64::MAX ==> final(self).books_of().cash_of()
                        - old(self).books_of().cash_of() == now.takings_of() - was.takings_of()
                }
                &&& forall|t: TilePos| t != tile ==> #[trigger] final(self).shop_on(t) == old(self).shop_on(t)
                &&& final(self).books_of().cash_of() == sat_sum(old(self).books_of().cash_of() as int, amount as int)
                &&& final(self).books_of().loan_of() == old(self).books_of().loan_of()
                &&& final(self).books_of().campaign_of() == old(self).books_of().campaign_of()
                &&& final(self).books_of().reputation_of() == old(self).books_of().reputation_of()
                &&& final(self).books_of().closed_at() == old(self).books_of().closed_at()
            },
    {
        if !self.sell_at(tile, amount) {
            return false;
        }
        self.adjust_cash(amount);
        true
    }

    /// Whether ride `i` is broken down within `reach` of `at`.
    ///
    /// By its track rather than by its station: a mechanic walking past the
    /// back of a ride can still get at the mechanism.
    pub open spec fn broken_near(&self, i: int, at: TilePos, reach: int) -> bool {
        let tiles = self.rides_of()[i].layout_of().tile_seq();
        &&& self.rides_of()[i].state_of() is Broken
        &&& exists|j: int| 0 <= j < tiles.len() && at.distance(#[trigger] tiles[j]) <= reach
    }

    /// Whether ride `i` is the first broken down within `reach` of `at`.
    pub open spec fn first_broken_near(&self, i: int, at: TilePos, reach: int) -> bool {
        &&& 0 <= i < self.rides_of().len()
        &&& self.broken_near(i, at, reach)
        &&& forall|j: int| 0 <= j < i ==> !#[trigger] self.broken_near(j, at, reach)
    }

    /// Whether ride `i` reaches within `reach` of `at` among its first `n`
    /// tiles.
    fn near_enough(&self, i: usize, at: TilePos, reach: u32) -> (b: bool)
        requires
            self.wf(),
            i < self.rides_of().len(),
        ensures
            b == exists|j: int|
                0 <= j < self.rides_of()[i as int].layout_of().tile_seq().len() && at.distance(
                    #[trigger] self.rides_of()[i as int].layout_of().tile_seq()[j],
                ) <= reach,
    {
        assert(self.rides_of()[i as int].wf());
        let tiles = self.rides[i].tiles();
        let mut j: usize = 0;
        while j < tiles.len()
            invariant
                tiles@ == self.rides_of()[i as int].layout_of().tile_seq(),
                j <= tiles@.len(),
                forall|k: int| 0 <= k < j ==> at.distance(#[trigger] tiles@[k]) > reach,
            decreases tiles@.len() - j,
        {
            if apart(at, tiles[j]) <= reach as i64 {
                assert(at.distance(tiles@[j as int]) <= reach);
                return true;
            }
            j += 1;
        }
        false
    }

    /// Puts one broken ride within `reach` of `at` back into service, and
    /// returns which.
    ///
    /// It comes back shut, and opens again at once if it was tested.
    pub fn fix_something_around(&mut self, at: TilePos, reach: u32) -> (fixed: Option<u32>)
        requires
            old(self).wf(),
        ensures
            final(self).wf(),
            fixed is None <==> forall|i: int|
                0 <= i < old(self).rides_of().len() ==> !#[trigger] old(self).broken_near(i, at, reach as int),
            fixed is None ==> *final(self) == *old(self),
            fixed is Some ==> exists|i: int| #[trigger] old(self).first_broken_near(i, at, reach as int) && {
                let was = old(self).rides_of()[i];
                let now = final(self).rides_of()[i];
                &&& fixed == Some(was.id_of())
                &&& final(self).rides_of() == old(self).rides_of().update(i, now)
                &&& now.state_of() == if was.is_tested() {
                    RideState::Open
                } else {
                    RideState::Closed
                }
                &&& was.same_but(&now, true, false)
                &&& now.is_tested() == was.is_tested()
                &&& old(self).differs_only_in(&*final(self), set![Part::Rides])
            },
    {
        let mut i: usize = 0;
        while i < self.rides.len()
            invariant
                self.wf(),
                *self == *old(self),
                i <= self.rides_of().len(),
                forall|j: int| 0 <= j < i ==> !#[trigger] self.broken_near(j, at, reach as int),
            decreases self.rides_of().len() - i,
        {
            if self.rides[i].state() == RideState::Broken && self.near_enough(i, at, reach) {
                assert(self.broken_near(i as int, at, reach as int));
                assert(self.first_broken_near(i as int, at, reach as int));
                let ghost before = *self;
                let id = self.rides[i].id();
                self.rides[i].repair();
                let _ = self.rides[i].open();
                assert(self.rides_of() =~= before.rides_of().update(i as int, self.rides_of()[i as int]));
                proof {
                    self.lemma_ride_changed(&before, i as int);
                }
                return Some(id);
            }
            i += 1;
        }
        None
    }
}

} // verus!
