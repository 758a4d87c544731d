//! What a guest is doing, and the route it is walking to do it.
//!
//! A guest is two things: a body that gets hungry and tired, and a visit —
//! where it is standing, where it is going, what it means to do there and what
//! is left in its pocket. The visit is all whole numbers and all rules, and it
//! lives here.

use vstd::prelude::*;

use crate::park::{Money, TilePos};

verus! {

/// What a guest is trying to do with the rest of its route.
#[derive(Debug, Clone, Copy, PartialEq, Eq, Structural)]
pub enum Plan {
    /// Having a look around, with nothing particular in mind.
    Wandering,
    /// On the way to the facility standing on `facility`, to use it from the
    /// tile beside it.
    Visiting { facility: TilePos },
    /// Standing at `facility`, busy until the tick `until`.
    Using { facility: TilePos, until: u64 },
    /// Waiting for `ride`, in the line that leads to `station`, since the tick
    /// `since`.
    Queueing { ride: u32, station: TilePos, since: u64 },
    /// Aboard `ride`, and off the map until it comes back round.
    Riding { ride: u32 },
    /// On the way to the entrance, and out of the park once it gets there.
    GoingHome,
}

/// The facility a plan is about.
pub open spec fn facility_of(plan: Plan) -> Option<TilePos> {
    match plan {
        Plan::Visiting { facility } => Some(facility),
        Plan::Using { facility, .. } => Some(facility),
        _ => None,
    }
}

/// The ride a plan is about.
pub open spec fn ride_of(plan: Plan) -> Option<u32> {
    match plan {
        Plan::Queueing { ride, .. } => Some(ride),
        Plan::Riding { ride } => Some(ride),
        _ => None,
    }
}

/// The plan a guest ends up with when it is asked to take up `wanted`: anything
/// at all, unless it has already decided to go home.
pub open spec fn decided(current: Plan, wanted: Plan) -> Plan {
    if current == Plan::GoingHome {
        Plan::GoingHome
    } else {
        wanted
    }
}

impl Plan {
    /// The facility this plan is about, if it is about one.
    pub fn facility(self) -> (f: Option<TilePos>)
        ensures
            f == facility_of(self),
    {
        match self {
            Plan::Visiting { facility } => Some(facility),
            Plan::Using { facility, .. } => Some(facility),
            _ => None,
        }
    }

    /// The ride this plan is about, if it is about one.
    pub fn ride(self) -> (r: Option<u32>)
        ensures
            r == ride_of(self),
    {
        match self {
            Plan::Queueing { ride, .. } => Some(ride),
            Plan::Riding { ride } => Some(ride),
            _ => None,
        }
    }
}

/// Why a route was refused.
#[derive(Debug, Clone, Copy, PartialEq, Eq, Structural)]
pub enum RouteError {
    /// It has no tiles in it.
    Empty,
    /// It starts somewhere other than where the walker is standing.
    Elsewhere,
}

/// The message for a refused route.
pub open spec fn route_error_text(e: RouteError) -> Seq<char> {
    match e {
        RouteError::Empty => "nobody can follow an empty route"@,
        RouteError::Elsewhere => "a route has to start where the walker is standing"@,
    }
}

impl RouteError {
    /// What went wrong, in words.
    pub fn why(self) -> (s: &'static str)
        ensures
            s@ == route_error_text(self),
    {
        match self {
            RouteError::Empty => "nobody can follow an empty route",
            RouteError::Elsewhere => "a route has to start where the walker is standing",
        }
    }
}

/// Whether a route of `tiles` may be followed by somebody standing on `here`,
/// and if not, why not.
pub open spec fn route_refusal(here: TilePos, tiles: Seq<TilePos>) -> Option<RouteError> {
    if tiles.len() == 0 {
        Some(RouteError::Empty)
    } else if tiles[0] != here {
        Some(RouteError::Elsewhere)
    } else {
        None
    }
}

/// A run of tiles being walked, and how far along it the walker has got.
///
/// Everybody in the park walks the same way: tile to tile along a route.
/// Guests and staff differ in why they walk, never in how.
#[derive(Debug, Clone, PartialEq, Eq)]
pub struct Route {
    /// The tiles of the route, starting with the one it set off from.
    tiles: Vec<TilePos>,
    /// Which of them is being stood on.
    step: usize,
}

impl Route {
    /// The tiles of the route.
    pub closed spec fn tiles_of(&self) -> Seq<TilePos> {
        self.tiles@
    }

    /// Which of them is being stood on.
    pub closed spec fn step_of(&self) -> int {
        self.step as int
    }

    /// Everybody is always somewhere: the step is one of the route's tiles.
    pub open spec fn wf(&self) -> bool {
        0 <= self.step_of() < self.tiles_of().len()
    }

    /// The tile being stood on.
    pub open spec fn here(&self) -> TilePos {
        self.tiles_of()[self.step_of()]
    }

    /// The tile being walked towards, if there is one.
    pub open spec fn ahead(&self) -> Option<TilePos> {
        if self.step_of() + 1 < self.tiles_of().len() {
            Some(self.tiles_of()[self.step_of() + 1])
        } else {
            None
        }
    }

    /// Somebody standing on `tile` with nowhere to be.
    pub fn standing_at(tile: TilePos) -> (r: Self)
        ensures
            r.wf(),
            r.tiles_of() == seq![tile],
            r.step_of() == 0,
            r.here() == tile,
            r.ahead() is None,
    {
        Route { tiles: vec![tile], step: 0 }
    }

    /// The tile being stood on, or walked away from.
    pub fn tile(&self) -> (t: TilePos)
        requires
            self.wf(),
        ensures
            t == self.here(),
    {
        self.tiles[self.step]
    }

    /// The tile being walked towards, if there is one.
    pub fn next_tile(&self) -> (t: Option<TilePos>)
        requires
            self.wf(),
        ensures
            t == self.ahead(),
    {
        if self.step < self.tiles.len() - 1 {
            Some(self.tiles[self.step + 1])
        } else {
            None
        }
    }

    /// Whether the route has run out and a new one is wanted.
    pub fn is_idle(&self) -> (b: bool)
        requires
            self.wf(),
        ensures
            b == (self.ahead() is None),
    {
        self.step >= self.tiles.len() - 1
    }

    /// The tiles still to be walked, starting with the one being stood on.
    pub fn tiles_left(&self) -> (left: &[TilePos])
        requires
            self.wf(),
        ensures
            left@ == self.tiles_of().subrange(self.step_of(), self.tiles_of().len() as int),
    {
        vstd::slice::slice_subrange(self.tiles.as_slice(), self.step, self.tiles.len())
    }

    /// Sets off along `tiles`.
    ///
    /// The route must start where the walker is standing: nobody can teleport
    /// to the beginning of a path somebody else walked.
    pub fn follow(&mut self, tiles: Vec<TilePos>) -> (r: Result<(), RouteError>)
        requires
            old(self).wf(),
        ensures
            final(self).wf(),
            r matches Err(e) ==> route_refusal(old(self).here(), tiles@) == Some(e)
                && *final(self) == *old(self),
            r is Ok ==> route_refusal(old(self).here(), tiles@) is None
                && final(self).tiles_of() == tiles@ && final(self).step_of() == 0,
    {
        if tiles.len() == 0 {
            return Err(RouteError::Empty);
        }
        if tiles[0] != self.tiles[self.step] {
            return Err(RouteError::Elsewhere);
        }
        self.tiles = tiles;
        self.step = 0;
        Ok(())
    }

    /// Steps onto the next tile of the route.
    ///
    /// Returns whether there was one to step onto; at the end of the route the
    /// walker stays where it is.
    pub fn step_on(&mut self) -> (moved: bool)
        requires
            old(self).wf(),
        ensures
            final(self).wf(),
            moved == (old(self).ahead() is Some),
            final(self).tiles_of() == old(self).tiles_of(),
            moved ==> final(self).step_of() == old(self).step_of() + 1
                && Some(final(self).here()) == old(self).ahead(),
            !moved ==> *final(self) == *old(self),
    {
        if self.step < self.tiles.len() - 1 {
            self.step = self.step + 1;
            true
        } else {
            false
        }
    }

    /// Gives up the rest of the route and stands still where it is.
    pub fn stop(&mut self)
        requires
            old(self).wf(),
        ensures
            final(self).wf(),
            final(self).tiles_of() == seq![old(self).here()],
            final(self).step_of() == 0,
    {
        let here = self.tiles[self.step];
        self.tiles = vec![here];
        self.step = 0;
    }
}

/// What a guest with `money` in its pocket hands over when asked for `price`:
/// all of it if it can, and nothing at all if it cannot.
pub open spec fn payment(money: Money, price: Money) -> Money {
    if money >= price {
        price
    } else {
        0
    }
}

/// One guest's visit: who it is, what it means to do, what it has left to
/// spend and where it is walking.
#[derive(Debug, Clone, PartialEq, Eq)]
pub struct Visit {
    id: u32,
    plan: Plan,
    money: Money,
    route: Route,
}

impl Visit {
    /// Which guest this is.
    pub closed spec fn id_of(&self) -> u32 {
        self.id
    }

    /// What it means to do.
    pub closed spec fn plan_of(&self) -> Plan {
        self.plan
    }

    /// What it has left to spend.
    pub closed spec fn money_of(&self) -> Money {
        self.money
    }

    /// Where it is walking.
    pub closed spec fn route_of(&self) -> Route {
        self.route
    }

    /// The route is one somebody can be standing on.
    pub open spec fn wf(&self) -> bool {
        self.route_of().wf()
    }

    /// The tile the guest is standing on.
    pub open spec fn here(&self) -> TilePos {
        self.route_of().here()
    }

    /// Whether the guest has run out of route.
    pub open spec fn idle(&self) -> bool {
        self.route_of().ahead() is None
    }

    /// The ride it is queueing for, and since when.
    pub open spec fn queue_of(&self) -> Option<(u32, u64)> {
        match self.plan_of() {
            Plan::Queueing { ride, since, .. } => Some((ride, since)),
            _ => None,
        }
    }

    /// The same guest with another plan and nothing else changed.
    pub open spec fn with_plan(&self, other: &Visit, plan: Plan) -> bool {
        &&& other.id_of() == self.id_of()
        &&& other.plan_of() == plan
        &&& other.money_of() == self.money_of()
        &&& other.route_of() == self.route_of()
    }

    /// The same guest standing still where it was, with no route left.
    pub open spec fn stopped(&self, other: &Visit) -> bool {
        &&& other.id_of() == self.id_of()
        &&& other.plan_of() == self.plan_of()
        &&& other.money_of() == self.money_of()
        &&& other.route_of().tiles_of() == seq![self.here()]
        &&& other.route_of().step_of() == 0
    }

    /// A guest who has just walked through the entrance at `at`, carrying
    /// `money` to spend inside, with nothing in particular in mind.
    pub fn arriving(id: u32, at: TilePos, money: Money) -> (v: Self)
        ensures
            v.wf(),
            v.id_of() == id,
            v.plan_of() == Plan::Wandering,
            v.money_of() == money,
            v.route_of().tiles_of() == seq![at],
            v.here() == at,
            v.idle(),
    {
        Visit { id, plan: Plan::Wandering, money, route: Route::standing_at(at) }
    }

    /// Which guest this is. Unique within one park.
    pub fn id(&self) -> (id: u32)
        ensures
            id == self.id_of(),
    {
        self.id
    }

    /// What the guest is trying to do.
    pub fn plan(&self) -> (p: Plan)
        ensures
            p == self.plan_of(),
    {
        self.plan
    }

    /// What the guest has left to spend.
    pub fn money(&self) -> (m: Money)
        ensures
            m == self.money_of(),
    {
        self.money
    }

    /// The route the guest is walking.
    pub fn route(&self) -> (r: &Route)
        ensures
            *r == self.route_of(),
    {
        &self.route
    }

    /// The tile the guest is standing on, or walking away from.
    pub fn tile(&self) -> (t: TilePos)
        requires
            self.wf(),
        ensures
            t == self.here(),
    {
        self.route.tile()
    }

    /// The tile the guest is walking towards, if it is walking anywhere.
    pub fn next_tile(&self) -> (t: Option<TilePos>)
        requires
            self.wf(),
        ensures
            t == self.route_of().ahead(),
    {
        self.route.next_tile()
    }

    /// Whether the guest has run out of route and wants a new one.
    pub fn is_idle(&self) -> (b: bool)
        requires
            self.wf(),
        ensures
            b == self.idle(),
    {
        self.route.is_idle()
    }

    /// Changes the guest's mind.
    ///
    /// A guest that has decided to go home stays decided: a park cannot talk
    /// anyone into staying, and letting it would leave guests dithering at the
    /// entrance for ever.
    pub fn decide(&mut self, plan: Plan)
        ensures
            old(self).with_plan(final(self), decided(old(self).plan_of(), plan)),
    {
        if self.plan != Plan::GoingHome {
            self.plan = plan;
        }
    }

    /// Changes the guest's mind even if it had decided to go home: for
    /// putting somebody on a ride or taking them off one, which happens to
    /// whoever is standing there.
    pub fn decide_anyway(&mut self, plan: Plan)
        ensures
            old(self).with_plan(final(self), plan),
    {
        self.plan = plan;
    }

    /// Whether the guest is still in the middle of using something at tick
    /// `now`.
    pub open spec fn busy_at(&self, now: u64) -> bool {
        match self.plan_of() {
            Plan::Using { until, .. } => now < until,
            _ => false,
        }
    }

    /// What the guest has finished using by tick `now`, if it was using
    /// anything and its time there is up.
    pub open spec fn done_with(&self, now: u64) -> Option<TilePos> {
        match self.plan_of() {
            Plan::Using { facility, until } => if until <= now {
                Some(facility)
            } else {
                None
            },
            _ => None,
        }
    }

    /// Whether the guest is still in the middle of a meal or a sit down at
    /// tick `now`, and so busy.
    pub fn is_busy(&self, now: u64) -> (b: bool)
        ensures
            b == self.busy_at(now),
    {
        match self.plan {
            Plan::Using { until, .. } => now < until,
            _ => false,
        }
    }

    /// The facility the guest has finished using by tick `now`, if it was
    /// using one and its time there is up.
    pub fn finished_with(&self, now: u64) -> (f: Option<TilePos>)
        ensures
            f == self.done_with(now),
    {
        match self.plan {
            Plan::Using { facility, until } => if until <= now {
                Some(facility)
            } else {
                None
            },
            _ => None,
        }
    }

    /// The ride the guest is queueing for, and the tick it joined.
    pub fn queueing_for(&self) -> (q: Option<(u32, u64)>)
        ensures
            q == self.queue_of(),
    {
        match self.plan {
            Plan::Queueing { ride, since, .. } => Some((ride, since)),
            _ => None,
        }
    }

    /// The ride the guest is aboard, if it is aboard one.
    pub fn riding(&self) -> (r: Option<u32>)
        ensures
            r == (match self.plan_of() {
                Plan::Riding { ride } => Some(ride),
                _ => None,
            }),
    {
        match self.plan {
            Plan::Riding { ride } => Some(ride),
            _ => None,
        }
    }

    /// Whether the guest is on its way out.
    pub fn is_going_home(&self) -> (b: bool)
        ensures
            b == (self.plan_of() == Plan::GoingHome),
    {
        self.plan == Plan::GoingHome
    }

    /// Puts the guest back on its feet: a ride brought it back, or was taken
    /// down underneath it.
    pub fn get_off(&mut self)
        ensures
            old(self).with_plan(
                final(self),
                if old(self).plan_of() is Riding {
                    Plan::Wandering
                } else {
                    old(self).plan_of()
                },
            ),
    {
        if let Plan::Riding { .. } = self.plan {
            self.plan = Plan::Wandering;
        }
    }

    /// Whether the guest has `price` to spend.
    pub fn can_afford(&self, price: Money) -> (b: bool)
        ensures
            b == (self.money_of() >= price),
    {
        self.money >= price
    }

    /// Takes `price` off the guest, if it can pay.
    ///
    /// Returns what was handed over, which is nothing at all when the guest
    /// cannot afford it. What is left must be a sum money can count: a price
    /// below nothing adds to the purse.
    pub fn pay(&mut self, price: Money) -> (paid: Money)
        requires
            old(self).money_of() - price <= i64::MAX,
        ensures
            paid == payment(old(self).money_of(), price),
            final(self).money_of() == old(self).money_of() - paid,
            final(self).id_of() == old(self).id_of(),
            final(self).plan_of() == old(self).plan_of(),
            final(self).route_of() == old(self).route_of(),
    {
        if self.money < price {
            return 0;
        }
        self.money = self.money - price;
        price
    }

    /// Sends the guest off along `tiles`, which must start where it stands.
    pub fn follow(&mut self, tiles: Vec<TilePos>) -> (r: Result<(), RouteError>)
        requires
            old(self).wf(),
        ensures
            final(self).wf(),
            final(self).id_of() == old(self).id_of(),
            final(self).plan_of() == old(self).plan_of(),
            final(self).money_of() == old(self).money_of(),
            r matches Err(e) ==> route_refusal(old(self).here(), tiles@) == Some(e)
                && final(self).route_of() == old(self).route_of(),
            r is Ok ==> route_refusal(old(self).here(), tiles@) is None
                && final(self).route_of().tiles_of() == tiles@
                && final(self).route_of().step_of() == 0,
    {
        self.route.follow(tiles)
    }

    /// Steps onto the next tile of the route, if there is one.
    pub fn step_on(&mut self) -> (moved: bool)
        requires
            old(self).wf(),
        ensures
            final(self).wf(),
            final(self).id_of() == old(self).id_of(),
            final(self).plan_of() == old(self).plan_of(),
            final(self).money_of() == old(self).money_of(),
            moved == !old(self).idle(),
            final(self).route_of().tiles_of() == old(self).route_of().tiles_of(),
            moved ==> Some(final(self).here()) == old(self).route_of().ahead()
                && final(self).route_of().step_of() == old(self).route_of().step_of() + 1,
            !moved ==> final(self).route_of() == old(self).route_of(),
    {
        self.route.step_on()
    }

    /// Stops where it is, giving up the rest of its route.
    pub fn stop(&mut self)
        requires
            old(self).wf(),
        ensures
            final(self).wf(),
            final(self).id_of() == old(self).id_of(),
            final(self).plan_of() == old(self).plan_of(),
            final(self).money_of() == old(self).money_of(),
            old(self).stopped(final(self)),
    {
        self.route.stop();
    }
}

/// A guest that has decided to go home cannot be talked out of it, whatever
/// it is asked to do next.
pub proof fn going_home_is_for_good(wanted: Plan)
    ensures
        decided(Plan::GoingHome, wanted) == Plan::GoingHome,
{
}

/// Paying never leaves a guest owing money, and whatever leaves its pocket is
/// exactly what it was asked for or nothing.
pub proof fn nobody_pays_more_than_they_have(money: Money, price: Money)
    requires
        money >= 0,
        price >= 0,
    ensures
        money - payment(money, price) >= 0,
        payment(money, price) == price || payment(money, price) == 0,
{
}

/// Where a guest's turn stands once the state of the park has been taken
/// into account.
#[derive(Debug, Clone, Copy, PartialEq, Eq, Structural)]
pub enum Footing {
    /// Aboard a ride: the ride moves it, not its own feet.
    Aboard,
    /// Still in the middle of using something.
    Busy,
    /// Free to act, with the facility it has just finished using, if any,
    /// still to be paid for.
    Free(Option<TilePos>),
}

/// What the turn of guest `v` comes to at tick `now`, once any decision to
/// go home has been made.
pub open spec fn footing_of(v: Visit, now: u64) -> Footing {
    if v.busy_at(now) {
        Footing::Busy
    } else {
        Footing::Free(v.done_with(now))
    }
}

impl Visit {
    /// Starts the guest's turn at tick `now`.
    ///
    /// A guest aboard a ride is left to the ride. Anybody else in a park that
    /// has shut for good decides to go home, which ends whatever it was in the
    /// middle of; then it is either still busy, or free to act, with the bill
    /// for what it has just finished with still to settle.
    pub fn begin_turn(&mut self, now: u64, closed: bool) -> (t: Footing)
        ensures
            old(self).plan_of() is Riding ==> t == Footing::Aboard && *final(self) == *old(self),
            !(old(self).plan_of() is Riding) ==> {
                &&& old(self).with_plan(
                    final(self),
                    if closed {
                        decided(old(self).plan_of(), Plan::GoingHome)
                    } else {
                        old(self).plan_of()
                    },
                )
                &&& t == footing_of(*final(self), now)
            },
    {
        if self.riding().is_some() {
            return Footing::Aboard;
        }
        if closed {
            self.decide(Plan::GoingHome);
        }
        if self.is_busy(now) {
            Footing::Busy
        } else {
            Footing::Free(self.finished_with(now))
        }
    }

    /// Settles up for what the guest has just finished using, and sets it
    /// wandering again.
    ///
    /// `price` is what the facility asks, or `None` where it has gone;
    /// `will_pay` is whether the guest thinks it worth that. It pays only
    /// where both hold, and then as [`Visit::pay`] does. Returns what was
    /// handed over.
    pub fn settle_up(&mut self, price: Option<Money>, will_pay: bool) -> (paid: Money)
        requires
            will_pay && price is Some ==> old(self).money_of() - price->0 <= i64::MAX,
        ensures
            paid == if will_pay && price is Some {
                payment(old(self).money_of(), price->0)
            } else {
                0
            },
            final(self).money_of() == old(self).money_of() - paid,
            final(self).id_of() == old(self).id_of(),
            final(self).route_of() == old(self).route_of(),
            final(self).plan_of() == decided(old(self).plan_of(), Plan::Wandering),
    {
        let mut paid: Money = 0;
        if will_pay {
            if let Some(p) = price {
                paid = self.pay(p);
            }
        }
        self.decide(Plan::Wandering);
        paid
    }
}

} // verus!
