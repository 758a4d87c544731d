//! Changing the park: what it costs, and why it is refused.
//!
//! Everything a player does to a park with the mouse goes through here —
//! putting a stall up, pricing it, taking it down, moving the land, and laying
//! track — because it all has the same shape: check the money, check the
//! ground, and only then change anything. The checks are the interesting part,
//! and keeping them together is what stops them drifting apart.

use vstd::prelude::*;

use crate::park::facility::build_cost_of;
use crate::park::flat::{flat_cost, flat_footprint};
use crate::park::scenery::scenery_cost;
use crate::park::terrain::lay_cost_of;
use crate::park::track::{climb_of, piece_cost};
use crate::park::terrain::buildable;
use crate::park::ride::opening;
use crate::park::{covered, free_for, lemma_tidy_with_ride, lemma_tidy_without_ride, on_track, plant_in, shop_in, with_ride};
use crate::park::money::{clamped, sat_sum};
use crate::park::{
    FlatRide, Heading, Land, Layout, Ride, RideState, Segment, Track, TrackPiece,
    Books, Facility, LandError, Scenery, Money, MoneyError, OpenError, Park, Part, Shop, Terrain,
    TestFailure, TilePos, TrackError,
};

verus! {

/// Why a change to the park was refused.
#[derive(Debug, Clone, Copy, PartialEq, Eq, Structural)]
pub enum BuildError {
    /// The bank has closed the park, and it buys nothing more.
    Bankrupt,
    /// It costs more than the park has in the bank.
    CannotPay,
    /// The tile is outside the park.
    Outside(TilePos),
    /// Nothing of the kind goes on this ground.
    Ground(Terrain),
    /// Something is built on the tile already.
    Built(TilePos),
    /// A ride's track runs across the tile.
    Track(TilePos),
    /// Scenery stands on the tile.
    Planted(TilePos),
    /// Somebody is standing on the tile.
    Occupied(TilePos),
    /// The park already has [`Park::MAX_RIDES`].
    TooManyRides,
    /// There is no ride with that id.
    NoSuchRide(u32),
    /// That ride is not one you lay track for.
    NotTrack(u32),
    /// The track would run below the ground on this tile.
    Underground(TilePos),
    /// A station off the ground, where nobody could reach it.
    StationInTheAir(TilePos),
    /// The square a ride needs is not level with its corner here.
    NotLevel(TilePos),
    /// That surface is not for sale at any price.
    NotForSale(Terrain),
    /// There is nothing on the tile to put a price on.
    NothingToPrice(TilePos),
    /// The layout itself refused the piece.
    Layout(TrackError),
    /// The land would not move.
    Land(LandError),
    /// The ride would not pass its test.
    Test(TestFailure),
    /// The ride would not open.
    Open(OpenError),
}

/// What to tell the player about a refusal.
pub open spec fn build_error_text(e: BuildError) -> Seq<char> {
    match e {
        BuildError::Bankrupt => "the park is bankrupt and cannot buy anything"@,
        BuildError::CannotPay => "that costs more than the park has"@,
        BuildError::Outside(_) => "that is outside the park"@,
        BuildError::Ground(_) => "that cannot go on this ground"@,
        BuildError::Built(_) => "there is already something built there"@,
        BuildError::Track(_) => "there is track across that tile"@,
        BuildError::Planted(_) => "there is scenery on that tile"@,
        BuildError::Occupied(_) => "somebody is standing there"@,
        BuildError::TooManyRides => "the park cannot hold any more rides"@,
        BuildError::NoSuchRide(_) => "there is no such ride"@,
        BuildError::NotTrack(_) => "that is not a ride you lay track on"@,
        BuildError::Underground(_) => "track cannot run underground"@,
        BuildError::StationInTheAir(_) => "a station has to be at ground level for anybody to reach it"@,
        BuildError::NotLevel(_) => "the ride needs a square of level ground"@,
        BuildError::NotForSale(_) => "that surface cannot be laid down"@,
        BuildError::NothingToPrice(_) => "there is nothing there to put a price on"@,
        BuildError::Layout(_) => "the track will not take that piece there"@,
        BuildError::Land(_) => "the land will not move any further"@,
        BuildError::Test(_) => "the ride did not pass its test"@,
        BuildError::Open(_) => "the ride will not open"@,
    }
}

impl BuildError {
    /// What to tell the player.
    pub fn why(self) -> (s: &'static str)
        ensures
            s@ == build_error_text(self),
    {
        match self {
            BuildError::Bankrupt => "the park is bankrupt and cannot buy anything",
            BuildError::CannotPay => "that costs more than the park has",
            BuildError::Outside(_) => "that is outside the park",
            BuildError::Ground(_) => "that cannot go on this ground",
            BuildError::Built(_) => "there is already something built there",
            BuildError::Track(_) => "there is track across that tile",
            BuildError::Planted(_) => "there is scenery on that tile",
            BuildError::Occupied(_) => "somebody is standing there",
            BuildError::TooManyRides => "the park cannot hold any more rides",
            BuildError::NoSuchRide(_) => "there is no such ride",
            BuildError::NotTrack(_) => "that is not a ride you lay track on",
            BuildError::Underground(_) => "track cannot run underground",
            BuildError::StationInTheAir(_) => "a station has to be at ground level for anybody to reach it",
            BuildError::NotLevel(_) => "the ride needs a square of level ground",
            BuildError::NotForSale(_) => "that surface cannot be laid down",
            BuildError::NothingToPrice(_) => "there is nothing there to put a price on",
            BuildError::Layout(_) => "the track will not take that piece there",
            BuildError::Land(_) => "the land will not move any further",
            BuildError::Test(_) => "the ride did not pass its test",
            BuildError::Open(_) => "the ride will not open",
        }
    }
}

impl Park {
    /// Why `tile` will not take a facility, money aside.
    pub open spec fn ground_refusal(&self, tile: TilePos) -> Option<BuildError> {
        match self.land_of().ground_of(tile) {
            None => Some(BuildError::Outside(tile)),
            Some(ground) => if !buildable(ground) {
                Some(BuildError::Ground(ground))
            } else if self.shop_on(tile) is Some {
                Some(BuildError::Built(tile))
            } else if self.track_on(tile) {
                Some(BuildError::Track(tile))
            } else if self.plant_on(tile) is Some {
                Some(BuildError::Planted(tile))
            } else {
                None
            },
        }
    }

    /// Why `tile` will not take a facility.
    fn check_ground(&self, tile: TilePos) -> (r: Result<(), BuildError>)
        requires
            self.wf(),
        ensures
            r == (match self.ground_refusal(tile) {
                Some(e) => Err(e),
                None => Ok(()),
            }),
    {
        let ground = match self.land.ground(tile) {
            Some(g) => g,
            None => return Err(BuildError::Outside(tile)),
        };
        if !ground.is_buildable() {
            return Err(BuildError::Ground(ground));
        }
        if self.facility_at(tile).is_some() {
            return Err(BuildError::Built(tile));
        }
        if self.ride_at(tile).is_some() {
            return Err(BuildError::Track(tile));
        }
        if self.scenery_at(tile).is_some() {
            return Err(BuildError::Planted(tile));
        }
        Ok(())
    }

    /// Puts a facility up without charging for it.
    pub(crate) fn put_up(&mut self, tile: TilePos, facility: Facility) -> (r: Result<(), BuildError>)
        requires
            old(self).wf(),
        ensures
            final(self).wf(),
            r == (match old(self).ground_refusal(tile) {
                Some(e) => Err(e),
                None => Ok(()),
            }),
            r is Err ==> *final(self) == *old(self),
            r is Ok ==> old(self).differs_only_in(&*final(self), set![Part::Shops]),
            r is Ok ==> forall|t: TilePos| t != tile ==> #[trigger] final(self).shop_on(t)
                == old(self).shop_on(t),
            r is Ok ==> (final(self).shop_on(tile) matches Some(s) && s.is_new(facility)),
    {
        self.check_ground(tile)?;
        self.place(tile, Shop::new(facility));
        Ok(())
    }

    /// Puts `value` on `tile` of the shops, returning what was there, or
    /// `None` and no change if the tile is outside the park.
    fn put_shop(&mut self, tile: TilePos, value: Option<Shop>) -> (was: Option<Option<Shop>>)
        requires
            old(self).wf(),
            value matches Some(s) ==> s.wf() && old(self).plant_on(tile) is None && !old(
                self,
            ).track_on(tile),
        ensures
            final(self).wf(),
            old(self).differs_only_in(&*final(self), set![Part::Shops]),
            was == (if old(self).shops_of().holds(tile) {
                Some(old(self).shop_on(tile))
            } else {
                None
            }),
            final(self).shop_on(tile) == if old(self).shops_of().holds(tile) {
                value
            } else {
                None
            },
            forall|t: TilePos| t != tile ==> #[trigger] final(self).shop_on(t) == old(self).shop_on(t),
    {
        let ghost before = *self;
        let was = self.facilities.replace(tile, value);
        proof {
            assert forall|t: TilePos| #[trigger] shop_in(self.shops_of(), t) == if t == tile
                && before.shops_of().holds(tile) {
                value
            } else {
                shop_in(before.shops_of(), t)
            } by {}
            assert forall|t: TilePos| #[trigger] shop_in(self.shops_of(), t) is Some implies plant_in(
                self.plants_of(),
                t,
            ) is None && !on_track(self.rides_of(), t) by {
                if t != tile {
                    assert(shop_in(before.shops_of(), t) is Some);
                }
            }
            assert forall|t: TilePos| #[trigger] shop_in(self.shops_of(), t) is Some implies shop_in(
                self.shops_of(),
                t,
            )->0.wf() by {
                if t != tile {
                    assert(shop_in(before.shops_of(), t) is Some);
                }
            }
        }
        was
    }

    /// Stands `shop` on an empty tile.
    fn place(&mut self, tile: TilePos, shop: Shop)
        requires
            old(self).wf(),
            old(self).ground_refusal(tile) is None,
            shop.wf(),
        ensures
            final(self).wf(),
            old(self).differs_only_in(&*final(self), set![Part::Shops]),
            final(self).shop_on(tile) == Some(shop),
            forall|t: TilePos| t != tile ==> #[trigger] final(self).shop_on(t) == old(self).shop_on(t),
    {
        let _ = self.put_shop(tile, Some(shop));
    }

    /// Why the park would not pay `cost` right now.
    pub open spec fn money_refusal(&self, cost: Money) -> Option<BuildError> {
        if self.books_of().closed_at() is Some {
            Some(BuildError::Bankrupt)
        } else if self.books_of().cash_of() < cost {
            Some(BuildError::CannotPay)
        } else {
            None
        }
    }

    /// Why the park would not pay `cost` right now.
    fn check_money(&self, cost: Money) -> (r: Result<(), BuildError>)
        ensures
            r == (match self.money_refusal(cost) {
                Some(e) => Err(e),
                None => Ok(()),
            }),
    {
        if self.books.is_bankrupt() {
            return Err(BuildError::Bankrupt);
        }
        if self.books.cash() < cost {
            return Err(BuildError::CannotPay);
        }
        Ok(())
    }

    /// Takes `cost` out of a bank that holds at least that much.
    fn charge(&mut self, cost: Money)
        requires
            old(self).wf(),
            0 <= cost <= old(self).books_of().cash_of(),
        ensures
            final(self).wf(),
            old(self).differs_only_in(&*final(self), set![Part::Books]),
            paid(old(self).books_of(), final(self).books_of(), cost),
    {
        self.books.adjust_cash(-cost);
    }

    /// Why a facility cannot be bought for a tile.
    pub open spec fn build_refusal(&self, tile: TilePos, facility: Facility) -> Option<BuildError> {
        match self.money_refusal(build_cost_of(facility)) {
            Some(e) => Some(e),
            None => self.ground_refusal(tile),
        }
    }

    /// Builds a facility, taking its cost out of the bank.
    ///
    /// Fails if the park is bankrupt or cannot afford it, the tile is outside
    /// the park, the ground will not take it, or something is already there.
    /// Nothing is changed when it fails.
    pub fn build(&mut self, tile: TilePos, facility: Facility) -> (r: Result<(), BuildError>)
        requires
            old(self).wf(),
        ensures
            final(self).wf(),
            r == (match old(self).build_refusal(tile, facility) {
                Some(e) => Err(e),
                None => Ok(()),
            }),
            r is Err ==> *final(self) == *old(self),
            r is Ok ==> {
                &&& old(self).differs_only_in(&*final(self), set![Part::Shops, Part::Books])
                &&& final(self).shop_on(tile) matches Some(s) && s.is_new(facility)
                &&& forall|t: TilePos| t != tile ==> #[trigger] final(self).shop_on(t) == old(
                    self,
                ).shop_on(t)
                &&& paid(old(self).books_of(), final(self).books_of(), build_cost_of(facility))
            },
    {
        self.check_money(facility.build_cost())?;
        self.check_ground(tile)?;
        self.place(tile, Shop::new(facility));
        self.charge(facility.build_cost());
        Ok(())
    }

    /// Whether [`Park::build`] would succeed, for a cursor that wants to say
    /// so before the click rather than after it.
    pub fn can_build(&self, tile: TilePos, facility: Facility) -> (b: bool)
        requires
            self.wf(),
        ensures
            b == (self.build_refusal(tile, facility) is None),
    {
        self.check_money(facility.build_cost()).is_ok() && self.check_ground(tile).is_ok()
    }

    /// Takes a facility down again, returning what was there.
    ///
    /// Nothing comes back for it: a demolished stall is a loss, which is what
    /// makes building one a decision.
    pub fn demolish(&mut self, tile: TilePos) -> (gone: Option<Shop>)
        requires
            old(self).wf(),
        ensures
            final(self).wf(),
            old(self).differs_only_in(&*final(self), set![Part::Shops]),
            gone == old(self).shop_on(tile),
            final(self).shop_on(tile) is None,
            forall|t: TilePos| t != tile ==> #[trigger] final(self).shop_on(t) == old(self).shop_on(t),
    {
        match self.put_shop(tile, None) {
            Some(was) => was,
            None => None,
        }
    }

    /// Why there is nothing on `tile` to put a price on.
    pub open spec fn price_refusal(&self, tile: TilePos) -> Option<BuildError> {
        if !self.shops_of().holds(tile) {
            Some(BuildError::Outside(tile))
        } else if self.shop_on(tile) is None {
            Some(BuildError::NothingToPrice(tile))
        } else {
            None
        }
    }

    /// Puts `shop` in place of the shop on `tile`.
    pub(crate) fn restock(&mut self, tile: TilePos, shop: Shop)
        requires
            old(self).wf(),
            old(self).shop_on(tile) is Some,
            shop.wf(),
        ensures
            final(self).wf(),
            old(self).differs_only_in(&*final(self), set![Part::Shops]),
            final(self).shop_on(tile) == Some(shop),
            forall|t: TilePos| t != tile ==> #[trigger] final(self).shop_on(t) == old(self).shop_on(t),
    {
        let _ = self.put_shop(tile, Some(shop));
    }

    /// What the shop on `tile` is, repriced at `price`.
    fn reprice(&mut self, tile: TilePos, shop: Shop)
        requires
            old(self).wf(),
            old(self).shop_on(tile) is Some,
            shop.wf(),
        ensures
            final(self).wf(),
            old(self).differs_only_in(&*final(self), set![Part::Shops]),
            final(self).shop_on(tile) == Some(shop),
            forall|t: TilePos| t != tile ==> #[trigger] final(self).shop_on(t) == old(self).shop_on(t),
    {
        let _ = self.put_shop(tile, Some(shop));
    }

    /// The shop on `tile`, for pricing.
    fn shop_to_price(&self, tile: TilePos) -> (r: Result<Shop, BuildError>)
        requires
            self.wf(),
        ensures
            r == (match self.price_refusal(tile) {
                Some(e) => Err(e),
                None => Ok(self.shop_on(tile)->0),
            }),
    {
        match self.facilities.get(tile) {
            None => Err(BuildError::Outside(tile)),
            Some(None) => Err(BuildError::NothingToPrice(tile)),
            Some(Some(shop)) => Ok(shop),
        }
    }

    /// Sets what the shop on `tile` charges, returning the price on the
    /// board.
    ///
    /// Fails if there is nothing on that tile to price.
    pub fn set_price(&mut self, tile: TilePos, price: Money) -> (r: Result<Money, BuildError>)
        requires
            old(self).wf(),
        ensures
            final(self).wf(),
            old(self).price_refusal(tile) matches Some(e) ==> r == Err::<Money, BuildError>(e)
                && *final(self) == *old(self),
            old(self).price_refusal(tile) is None ==> r == Ok::<Money, BuildError>(
                clamped(price as int, 0, Shop::MAX_PRICE as int) as Money,
            ) && repriced(old(self), &*final(self), tile, r->Ok_0),
    {
        let mut shop = self.shop_to_price(tile)?;
        let on_the_board = shop.set_price(price);
        self.reprice(tile, shop);
        Ok(on_the_board)
    }

    /// Puts the price on `tile` up by one step.
    ///
    /// Fails if there is nothing on that tile to price.
    pub fn raise_price(&mut self, tile: TilePos) -> (r: Result<Money, BuildError>)
        requires
            old(self).wf(),
        ensures
            final(self).wf(),
            old(self).price_refusal(tile) matches Some(e) ==> r == Err::<Money, BuildError>(e)
                && *final(self) == *old(self),
            old(self).price_refusal(tile) is None ==> r == Ok::<Money, BuildError>(
                clamped(
                    sat_sum(old(self).shop_on(tile)->0.price_of() as int, Shop::PRICE_STEP as int),
                    0,
                    Shop::MAX_PRICE as int,
                ) as Money,
            ) && repriced(old(self), &*final(self), tile, r->Ok_0),
    {
        let mut shop = self.shop_to_price(tile)?;
        let on_the_board = shop.raise_price();
        self.reprice(tile, shop);
        Ok(on_the_board)
    }

    /// Brings the price on `tile` down by one step.
    ///
    /// Fails if there is nothing on that tile to price.
    pub fn lower_price(&mut self, tile: TilePos) -> (r: Result<Money, BuildError>)
        requires
            old(self).wf(),
        ensures
            final(self).wf(),
            old(self).price_refusal(tile) matches Some(e) ==> r == Err::<Money, BuildError>(e)
                && *final(self) == *old(self),
            old(self).price_refusal(tile) is None ==> r == Ok::<Money, BuildError>(
                clamped(
                    sat_sum(old(self).shop_on(tile)->0.price_of() as int, -Shop::PRICE_STEP as int),
                    0,
                    Shop::MAX_PRICE as int,
                ) as Money,
            ) && repriced(old(self), &*final(self), tile, r->Ok_0),
    {
        let mut shop = self.shop_to_price(tile)?;
        let on_the_board = shop.lower_price();
        self.reprice(tile, shop);
        Ok(on_the_board)
    }

    /// Whether anybody in `people` is standing on `tile`.
    pub fn is_anybody_on(people: &[TilePos], tile: TilePos) -> (b: bool)
        ensures
            b == people@.contains(tile),
    {
        let mut i: usize = 0;
        while i < people.len()
            invariant
                i <= people@.len(),
                forall|j: int| 0 <= j < i ==> people@[j] != tile,
            decreases people@.len() - i,
        {
            if people[i] == tile {
                assert(people@[i as int] == tile);
                return true;
            }
            i += 1;
        }
        false
    }

    /// Puts `value` on `tile` of the scenery, returning what was there, or
    /// `None` and no change if the tile is outside the park.
    fn put_plant(&mut self, tile: TilePos, value: Option<Scenery>) -> (was: Option<Option<Scenery>>)
        requires
            old(self).wf(),
            value is Some ==> old(self).shop_on(tile) is None && !old(self).track_on(tile),
        ensures
            final(self).wf(),
            old(self).differs_only_in(&*final(self), set![Part::Scenery]),
            was == (if old(self).plants_of().holds(tile) {
                Some(old(self).plant_on(tile))
            } else {
                None
            }),
            final(self).plant_on(tile) == if old(self).plants_of().holds(tile) {
                value
            } else {
                None
            },
            forall|t: TilePos| t != tile ==> #[trigger] final(self).plant_on(t) == old(self).plant_on(t),
    {
        let ghost before = *self;
        let was = self.scenery.replace(tile, value);
        proof {
            assert forall|t: TilePos| #[trigger] plant_in(self.plants_of(), t) == if t == tile
                && before.plants_of().holds(tile) {
                value
            } else {
                plant_in(before.plants_of(), t)
            } by {}
            assert forall|t: TilePos| #[trigger] shop_in(self.shops_of(), t) is Some implies plant_in(
                self.plants_of(),
                t,
            ) is None && !on_track(self.rides_of(), t) by {
                assert(shop_in(before.shops_of(), t) is Some);
            }
            assert forall|t: TilePos| #[trigger] plant_in(self.plants_of(), t) is Some implies !on_track(
                self.rides_of(),
                t,
            ) by {
                if t != tile {
                    assert(plant_in(before.plants_of(), t) is Some);
                }
            }
        }
        was
    }

    /// Why a piece of scenery cannot be planted on `tile`, with `people`
    /// standing where they are.
    pub open spec fn planting_refusal(
        &self,
        tile: TilePos,
        scenery: Scenery,
        people: Seq<TilePos>,
    ) -> Option<BuildError> {
        match self.money_refusal(scenery_cost(scenery)) {
            Some(e) => Some(e),
            None => if self.plant_on(tile) is Some {
                Some(BuildError::Planted(tile))
            } else if people.contains(tile) {
                Some(BuildError::Occupied(tile))
            } else {
                match self.land_of().ground_of(tile) {
                    None => Some(BuildError::Outside(tile)),
                    Some(ground) => if !buildable(ground) {
                        Some(BuildError::Ground(ground))
                    } else if self.shop_on(tile) is Some {
                        Some(BuildError::Built(tile))
                    } else if self.track_on(tile) {
                        Some(BuildError::Track(tile))
                    } else {
                        None
                    },
                }
            },
        }
    }

    /// Why a piece of scenery cannot be planted on `tile`.
    fn check_planting(&self, tile: TilePos, scenery: Scenery, people: &[TilePos]) -> (r: Result<(), BuildError>)
        requires
            self.wf(),
        ensures
            r == (match self.planting_refusal(tile, scenery, people@) {
                Some(e) => Err(e),
                None => Ok(()),
            }),
    {
        self.check_money(scenery.cost())?;
        if self.scenery_at(tile).is_some() {
            return Err(BuildError::Planted(tile));
        }
        if Self::is_anybody_on(people, tile) {
            return Err(BuildError::Occupied(tile));
        }
        let ground = match self.land.ground(tile) {
            Some(g) => g,
            None => return Err(BuildError::Outside(tile)),
        };
        if !ground.is_buildable() {
            return Err(BuildError::Ground(ground));
        }
        if self.facility_at(tile).is_some() {
            return Err(BuildError::Built(tile));
        }
        if self.ride_at(tile).is_some() {
            return Err(BuildError::Track(tile));
        }
        Ok(())
    }

    /// Puts up a piece of scenery, taking its cost out of the bank.
    ///
    /// Fails if the park is bankrupt or cannot pay, something is already
    /// standing there — including one of `people`, since scenery blocks the
    /// tile it stands on and somebody planted under a tree has nowhere to go —
    /// or the tile is outside the park or the ground will not take it.
    pub fn plant(&mut self, tile: TilePos, scenery: Scenery, people: &[TilePos]) -> (r: Result<
        (),
        BuildError,
    >)
        requires
            old(self).wf(),
        ensures
            final(self).wf(),
            r == (match old(self).planting_refusal(tile, scenery, people@) {
                Some(e) => Err(e),
                None => Ok(()),
            }),
            r is Err ==> *final(self) == *old(self),
            r is Ok ==> {
                &&& old(self).differs_only_in(&*final(self), set![Part::Scenery, Part::Books])
                &&& final(self).plant_on(tile) == Some(scenery)
                &&& forall|t: TilePos| t != tile ==> #[trigger] final(self).plant_on(t) == old(
                    self,
                ).plant_on(t)
                &&& paid(old(self).books_of(), final(self).books_of(), scenery_cost(scenery))
            },
    {
        self.check_planting(tile, scenery, people)?;
        let _ = self.put_plant(tile, Some(scenery));
        self.charge(scenery.cost());
        Ok(())
    }

    /// Whether [`Park::plant`] would be allowed here, for a cursor that wants
    /// to say so before the click.
    pub fn can_plant(&self, tile: TilePos, scenery: Scenery, people: &[TilePos]) -> (b: bool)
        requires
            self.wf(),
        ensures
            b == (self.planting_refusal(tile, scenery, people@) is None),
    {
        self.check_planting(tile, scenery, people).is_ok()
    }

    /// Takes a piece of scenery down again, returning what was there.
    pub fn uproot(&mut self, tile: TilePos) -> (gone: Option<Scenery>)
        requires
            old(self).wf(),
        ensures
            final(self).wf(),
            old(self).differs_only_in(&*final(self), set![Part::Scenery]),
            gone == old(self).plant_on(tile),
            final(self).plant_on(tile) is None,
            forall|t: TilePos| t != tile ==> #[trigger] final(self).plant_on(t) == old(self).plant_on(t),
    {
        match self.put_plant(tile, None) {
            Some(was) => was,
            None => None,
        }
    }

    /// Whether a ride other than those with id `mine` stands on `tile`.
    pub open spec fn crossed_by_another(&self, tile: TilePos, mine: Option<u32>) -> bool {
        exists|i: int|
            0 <= i < self.rides_of().len() && Some(self.rides_of()[i].id_of()) != mine
                && #[trigger] covered(self.rides_of(), i, tile)
    }

    /// Why `tile` will not take a piece of track.
    ///
    /// `mine` is the id of the ride doing the asking, whose own track is
    /// allowed to be there: the layout has its own opinion about crossing
    /// itself.
    pub open spec fn track_refusal(&self, tile: TilePos, mine: Option<u32>) -> Option<BuildError> {
        match self.land_of().ground_of(tile) {
            None => Some(BuildError::Outside(tile)),
            Some(ground) => if self.shop_on(tile) is Some {
                Some(BuildError::Built(tile))
            } else if !(buildable(ground) || ground == Terrain::Path) {
                Some(BuildError::Ground(ground))
            } else if self.plant_on(tile) is Some {
                Some(BuildError::Planted(tile))
            } else if self.crossed_by_another(tile, mine) {
                Some(BuildError::Track(tile))
            } else {
                None
            },
        }
    }

    /// Why `tile` will not take a piece of track.
    fn check_track_tile(&self, tile: TilePos, mine: Option<u32>) -> (r: Result<(), BuildError>)
        requires
            self.wf(),
        ensures
            r == (match self.track_refusal(tile, mine) {
                Some(e) => Err(e),
                None => Ok(()),
            }),
    {
        let ground = match self.land.ground(tile) {
            Some(g) => g,
            None => return Err(BuildError::Outside(tile)),
        };
        if self.facility_at(tile).is_some() {
            return Err(BuildError::Built(tile));
        }
        if !(ground.is_buildable() || ground == Terrain::Path) {
            return Err(BuildError::Ground(ground));
        }
        if self.scenery_at(tile).is_some() {
            return Err(BuildError::Planted(tile));
        }
        let mut i: usize = 0;
        while i < self.rides.len()
            invariant
                self.wf(),
                i <= self.rides_of().len(),
                self.land_of().ground_of(tile) == Some(ground),
                buildable(ground) || ground == Terrain::Path,
                self.shop_on(tile) is None,
                self.plant_on(tile) is None,
                forall|j: int|
                    0 <= j < i ==> !(Some(self.rides_of()[j].id_of()) != mine && #[trigger] covered(
                        self.rides_of(),
                        j,
                        tile,
                    )),
            decreases self.rides_of().len() - i,
        {
            let other = self.rides[i].id();
            let differs = match mine {
                Some(m) => other != m,
                None => true,
            };
            if differs && self.rides[i].occupies(tile) {
                assert(covered(self.rides_of(), i as int, tile));
                assert(Some(self.rides_of()[i as int].id_of()) != mine);
                assert(self.crossed_by_another(tile, mine));
                return Err(BuildError::Track(tile));
            }
            i += 1;
        }
        Ok(())
    }

    /// A tile that would take `mine`'s track is free for ride `at`, whose id
    /// that is.
    proof fn lemma_free_for_track(&self, tile: TilePos, mine: Option<u32>, at: int, id: u32)
        requires
            self.wf(),
            self.track_refusal(tile, mine) is None,
            mine is None || mine == Some(id),
        ensures
            free_for(self.cols(), self.rows(), self.shops_of(), self.plants_of(), self.rides_of(), at, id, tile),
    {
        assert forall|j: int|
            0 <= j < self.rides_of().len() && j != at && self.rides_of()[j].id_of() != id implies !#[trigger] covered(
            self.rides_of(),
            j,
            tile,
        ) by {
            if covered(self.rides_of(), j, tile) {
                assert(self.crossed_by_another(tile, mine));
            }
        }
    }

    /// Puts `ride` in place of ride `at`, or at the end when `at` is past the
    /// last, standing only where ride `at` stood or on tiles free for it.
    fn put_ride(&mut self, at: usize, ride: Ride)
        requires
            old(self).wf(),
            at <= old(self).rides_of().len(),
            at == old(self).rides_of().len() ==> old(self).rides_of().len() < Park::MAX_RIDES,
            ride.wf(),
            at < old(self).rides_of().len() ==> ride.id_of() == old(self).rides_of()[at as int].id_of(),
            forall|t: TilePos| #[trigger]
                ride.layout_of().covers(t) ==> (at < old(self).rides_of().len() && covered(
                    old(self).rides_of(),
                    at as int,
                    t,
                )) || free_for(
                    old(self).cols(),
                    old(self).rows(),
                    old(self).shops_of(),
                    old(self).plants_of(),
                    old(self).rides_of(),
                    at as int,
                    ride.id_of(),
                    t,
                ),
        ensures
            final(self).wf(),
            old(self).differs_only_in(&*final(self), set![Part::Rides]),
            final(self).rides_of() == with_ride(old(self).rides_of(), at as int, ride),
    {
        proof {
            lemma_tidy_with_ride(
                self.cols(),
                self.rows(),
                self.shops_of(),
                self.plants_of(),
                self.rides_of(),
                at as int,
                ride,
            );
        }
        let ghost new = with_ride(self.rides_of(), at as int, ride);
        if at < self.rides.len() {
            self.rides.set(at, ride);
        } else {
            self.rides.push(ride);
        }
        assert(self.rides_of() =~= new);
        assert forall|i: int| 0 <= i < new.len() implies (#[trigger] new[i]).wf() by {
            if i != at {
                assert(new[i] == old(self).rides_of()[i]);
            }
        }
    }

    /// What the next id after `n` is: one on, coming back round to nothing
    /// past the last there is.
    pub open spec fn id_after(n: u32) -> u32 {
        if n == u32::MAX {
            0
        } else {
            (n + 1) as u32
        }
    }

    /// Why a ride cannot be started on `tile`.
    pub open spec fn start_refusal(&self, tile: TilePos) -> Option<BuildError> {
        if self.books_of().closed_at() is Some {
            Some(BuildError::Bankrupt)
        } else if self.rides_of().len() >= Park::MAX_RIDES {
            Some(BuildError::TooManyRides)
        } else {
            self.track_refusal(tile, None)
        }
    }

    /// Starts a new ride, with its first piece to be laid on `tile` facing
    /// `heading`, and returns its id.
    ///
    /// Nothing is charged yet: a ride with no track on it costs nothing, which
    /// is what makes putting one down and thinking about it free. Fails if
    /// the park is bankrupt, already has [`Park::MAX_RIDES`], or the tile will
    /// not take track.
    pub fn start_a_ride(&mut self, name: &str, tile: TilePos, heading: Heading) -> (r: Result<
        u32,
        BuildError,
    >)
        requires
            old(self).wf(),
        ensures
            final(self).wf(),
            old(self).start_refusal(tile) matches Some(e) ==> r == Err::<u32, BuildError>(e)
                && *final(self) == *old(self),
            old(self).start_refusal(tile) is None ==> {
                &&& r == Ok::<u32, BuildError>(old(self).next_ride())
                &&& old(self).differs_only_in(&*final(self), set![Part::Rides, Part::Ids])
                &&& final(self).next_ride() == Park::id_after(old(self).next_ride())
                &&& final(self).next_hire() == old(self).next_hire()
                &&& final(self).rides_of().len() == old(self).rides_of().len() + 1
                &&& final(self).rides_of().drop_last() == old(self).rides_of()
                &&& started(
                    final(self).rides_of().last(),
                    old(self).next_ride(),
                    name@,
                    tile,
                    heading,
                    old(self).land_of().height_of(tile)->0,
                )
            },
    {
        if self.books.is_bankrupt() {
            return Err(BuildError::Bankrupt);
        }
        if self.rides.len() >= Park::MAX_RIDES {
            return Err(BuildError::TooManyRides);
        }
        self.check_track_tile(tile, None)?;
        let ground = match self.land.height_at(tile) {
            Some(h) => h,
            None => return Err(BuildError::Outside(tile)),
        };
        let id = self.next_ride_id;
        proof {
            self.lemma_free_for_track(tile, None, self.rides_of().len() as int, id);
        }
        let ride = Ride::new(id, name, Track::starting_at(tile, heading, ground));
        let ghost before = self.rides_of();
        self.put_ride(self.rides.len(), ride);
        self.next_ride_id = if id == u32::MAX {
            0
        } else {
            id + 1
        };
        assert(self.rides_of().drop_last() =~= before);
        Ok(id)
    }

    /// Whether [`Park::start_a_ride`] would be allowed here, for a cursor that
    /// wants to say so before the click.
    pub fn can_start_a_ride(&self, tile: TilePos) -> (b: bool)
        requires
            self.wf(),
        ensures
            b == (self.start_refusal(tile) is None),
    {
        !self.books.is_bankrupt() && self.rides.len() < Park::MAX_RIDES && self.check_track_tile(
            tile,
            None,
        ).is_ok()
    }

    /// Where the ride with `id` is in the list.
    fn index_of_ride(&self, id: u32) -> (r: Result<usize, BuildError>)
        ensures
            !self.has_ride(id) ==> r == Err::<usize, BuildError>(BuildError::NoSuchRide(id)),
            self.has_ride(id) ==> r == Ok::<usize, BuildError>(self.ride_index(id) as usize)
                && self.is_first_ride(self.ride_index(id), id),
    {
        match self.find_ride(id) {
            Some(at) => Ok(at),
            None => Err(BuildError::NoSuchRide(id)),
        }
    }

    /// Whether ride `id` is ready for a test run: it has a station, and its
    /// track comes back round to it.
    ///
    /// Fails if there is no such ride, or the layout will not do. The run
    /// itself is the trains' business; [`Park::pass_test`] records one that
    /// came back round.
    pub fn check_ride(&self, id: u32) -> (r: Result<(), BuildError>)
        requires
            self.wf(),
        ensures
            !self.has_ride(id) ==> r == Err::<(), BuildError>(BuildError::NoSuchRide(id)),
            self.has_ride(id) ==> r == (match layout_failure(
                self.rides_of()[self.ride_index(id)].layout_of(),
            ) {
                Some(f) => Err(BuildError::Test(f)),
                None => Ok(()),
            }),
    {
        let at = self.index_of_ride(id)?;
        match self.rides[at].check_layout() {
            Ok(()) => Ok(()),
            Err(f) => Err(BuildError::Test(f)),
        }
    }

    /// Records that ride `id` went round its test: it is shut, ready to open.
    ///
    /// Fails, changing nothing, if there is no such ride or its layout would
    /// not be sent round at all.
    pub fn pass_test(&mut self, id: u32) -> (r: Result<(), BuildError>)
        requires
            old(self).wf(),
        ensures
            final(self).wf(),
            r == old(self).check_ride_spec(id),
            r is Err ==> *final(self) == *old(self),
            r is Ok ==> {
                let i = old(self).ride_index(id);
                &&& old(self).differs_only_in(&*final(self), set![Part::Rides])
                &&& final(self).rides_of().len() == old(self).rides_of().len()
                &&& forall|j: int| 0 <= j < final(self).rides_of().len() && j != i ==> #[trigger] final(self).rides_of()[j] == old(self).rides_of()[j]
                &&& final(self).rides_of()[i].is_tested()
                &&& final(self).rides_of()[i].state_of() == RideState::Closed
                &&& old(self).rides_of()[i].same_but(&final(self).rides_of()[i], true, false)
            },
    {
        self.check_ride(id)?;
        let at = self.index_of_ride(id)?;
        let ghost before = *self;
        self.rides[at].pass_the_test();
        proof {
            self.lemma_ride_changed(&before, at as int);
        }
        Ok(())
    }

    /// What [`Park::check_ride`] says of ride `id`.
    pub open spec fn check_ride_spec(&self, id: u32) -> Result<(), BuildError> {
        if !self.has_ride(id) {
            Err(BuildError::NoSuchRide(id))
        } else {
            match layout_failure(self.rides_of()[self.ride_index(id)].layout_of()) {
                Some(f) => Err(BuildError::Test(f)),
                None => Ok(()),
            }
        }
    }

    /// A park whose ride `at` changed in anything but its id and where it
    /// stands still makes sense.
    pub(crate) proof fn lemma_ride_changed(&self, before: &Park, at: int)
        requires
            before.wf(),
            0 <= at < before.rides_of().len(),
            self.rides_of() == before.rides_of().update(at, self.rides_of()[at]),
            self.rides_of()[at].wf(),
            self.rides_of()[at].id_of() == before.rides_of()[at].id_of(),
            self.rides_of()[at].layout_of() == before.rides_of()[at].layout_of(),
            before.differs_only_in(self, set![Part::Rides]),
        ensures
            self.wf(),
    {
        self.lemma_ride_replaced(before, at);
    }

    /// A park whose ride `at` changed, keeping its id and standing only where
    /// it stood or on tiles free for it, still makes sense.
    pub(crate) proof fn lemma_ride_replaced(&self, before: &Park, at: int)
        requires
            before.wf(),
            0 <= at < before.rides_of().len(),
            self.rides_of() == before.rides_of().update(at, self.rides_of()[at]),
            self.rides_of()[at].wf(),
            self.rides_of()[at].id_of() == before.rides_of()[at].id_of(),
            forall|t: TilePos| #[trigger]
                self.rides_of()[at].layout_of().covers(t) ==> covered(before.rides_of(), at, t)
                    || free_for(
                    before.cols(),
                    before.rows(),
                    before.shops_of(),
                    before.plants_of(),
                    before.rides_of(),
                    at,
                    before.rides_of()[at].id_of(),
                    t,
                ),
            before.differs_only_in(self, set![Part::Rides]),
        ensures
            self.wf(),
    {
        lemma_tidy_with_ride(
            before.cols(),
            before.rows(),
            before.shops_of(),
            before.plants_of(),
            before.rides_of(),
            at,
            self.rides_of()[at],
        );
        assert(with_ride(before.rides_of(), at, self.rides_of()[at]) == self.rides_of());
        assert forall|i: int| 0 <= i < self.rides_of().len() implies (#[trigger] self.rides_of()[i]).wf() by {
            if i != at {
                assert(self.rides_of()[i] == before.rides_of()[i]);
            }
        }
    }

    /// Opens ride `id` to the queue.
    ///
    /// Fails if there is no such ride, or it cannot open: it has not been
    /// tested since its track last changed, or it is broken down.
    pub fn open_ride(&mut self, id: u32) -> (r: Result<(), BuildError>)
        requires
            old(self).wf(),
        ensures
            final(self).wf(),
            !old(self).has_ride(id) ==> r == Err::<(), BuildError>(BuildError::NoSuchRide(id)),
            old(self).has_ride(id) ==> {
                let i = old(self).ride_index(id);
                let was = old(self).rides_of()[i];
                &&& r == (match opening(was.state_of(), was.is_tested()) {
                    Ok(_) => Ok(()),
                    Err(e) => Err(BuildError::Open(e)),
                })
                &&& r is Ok ==> final(self).rides_of()[i].state_of() == RideState::Open
                    && final(self).rides_of() == old(self).rides_of().update(i, final(self).rides_of()[i])
                    && was.same_but(&final(self).rides_of()[i], true, false)
                    && final(self).rides_of()[i].is_tested() == was.is_tested()
            },
            r is Err ==> *final(self) == *old(self),
            old(self).differs_only_in(&*final(self), set![Part::Rides]),
    {
        let at = self.index_of_ride(id)?;
        let ghost before = *self;
        if self.rides[at].state().open(self.rides[at].tested()).is_err() {
            return match self.rides[at].state().open(self.rides[at].tested()) {
                Err(e) => Err(BuildError::Open(e)),
                Ok(_) => Ok(()),
            };
        }
        let _ = self.rides[at].open();
        proof {
            self.lemma_ride_changed(&before, at as int);
        }
        Ok(())
    }

    /// Shuts ride `id` without taking it down.
    ///
    /// Fails if there is no such ride.
    pub fn close_ride(&mut self, id: u32) -> (r: Result<(), BuildError>)
        requires
            old(self).wf(),
        ensures
            final(self).wf(),
            !old(self).has_ride(id) ==> r == Err::<(), BuildError>(BuildError::NoSuchRide(id))
                && *final(self) == *old(self),
            old(self).has_ride(id) ==> {
                let i = old(self).ride_index(id);
                let was = old(self).rides_of()[i];
                &&& r is Ok
                &&& final(self).rides_of() == old(self).rides_of().update(i, final(self).rides_of()[i])
                &&& final(self).rides_of()[i].state_of() == RideState::Closed
                &&& was.same_but(&final(self).rides_of()[i], true, false)
                &&& final(self).rides_of()[i].is_tested() == was.is_tested()
            },
            old(self).differs_only_in(&*final(self), set![Part::Rides]),
    {
        let at = self.index_of_ride(id)?;
        let ghost before = *self;
        self.rides[at].close();
        proof {
            self.lemma_ride_changed(&before, at as int);
        }
        Ok(())
    }

    /// Changes what ride `id` charges, returning the price on the board.
    ///
    /// Fails if there is no such ride.
    pub fn set_ride_price(&mut self, id: u32, price: Money) -> (r: Result<Money, BuildError>)
        requires
            old(self).wf(),
        ensures
            final(self).wf(),
            !old(self).has_ride(id) ==> r == Err::<Money, BuildError>(BuildError::NoSuchRide(id))
                && *final(self) == *old(self),
            old(self).has_ride(id) ==> {
                let i = old(self).ride_index(id);
                let was = old(self).rides_of()[i];
                &&& r == Ok::<Money, BuildError>(clamped(price as int, 0, Ride::MAX_PRICE as int) as Money)
                &&& final(self).rides_of() == old(self).rides_of().update(i, final(self).rides_of()[i])
                &&& final(self).rides_of()[i].price_of() == r->Ok_0
                &&& was.same_but_price(&final(self).rides_of()[i])
            },
            old(self).differs_only_in(&*final(self), set![Part::Rides]),
    {
        let at = self.index_of_ride(id)?;
        let ghost before = *self;
        let on_the_board = self.rides[at].set_price(price);
        proof {
            self.lemma_ride_changed(&before, at as int);
        }
        Ok(on_the_board)
    }

    /// The first ride standing on `tile`, by its place in the list.
    fn ride_index_at(&self, tile: TilePos) -> (at: Option<usize>)
        requires
            self.wf(),
        ensures
            at is None <==> !self.track_on(tile),
            at matches Some(i) ==> self.first_ride_on(i as int, tile),
    {
        let mut i: usize = 0;
        while i < self.rides.len()
            invariant
                self.wf(),
                i <= self.rides_of().len(),
                forall|j: int| 0 <= j < i ==> !#[trigger] covered(self.rides_of(), j, tile),
            decreases self.rides_of().len() - i,
        {
            if self.rides[i].occupies(tile) {
                assert(covered(self.rides_of(), i as int, tile));
                return Some(i);
            }
            i += 1;
        }
        None
    }

    /// Whether ride `i` is the first standing on `tile`.
    pub open spec fn first_ride_on(&self, i: int, tile: TilePos) -> bool {
        &&& 0 <= i < self.rides_of().len()
        &&& covered(self.rides_of(), i, tile)
        &&& forall|j: int| 0 <= j < i ==> !#[trigger] covered(self.rides_of(), j, tile)
    }

    /// Puts the price up by one step on whatever is on `tile`: the ride whose
    /// track runs across it, or else the shop.
    ///
    /// Fails if there is nothing on that tile to put a price on.
    pub fn raise_the_price_at(&mut self, tile: TilePos) -> (r: Result<Money, BuildError>)
        requires
            old(self).wf(),
        ensures
            final(self).wf(),
            old(self).track_on(tile) ==> exists|i: int| #[trigger] old(self).first_ride_on(i, tile) && {
                let was = old(self).rides_of()[i];
                &&& r == Ok::<Money, BuildError>(clamped(
                    sat_sum(was.price_of() as int, Ride::PRICE_STEP as int),
                    0,
                    Ride::MAX_PRICE as int,
                ) as Money)
                &&& final(self).rides_of() == old(self).rides_of().update(i, final(self).rides_of()[i])
                &&& final(self).rides_of()[i].price_of() == r->Ok_0
                &&& was.same_but_price(&final(self).rides_of()[i])
                &&& old(self).differs_only_in(&*final(self), set![Part::Rides])
            },
            !old(self).track_on(tile) ==> {
                &&& old(self).price_refusal(tile) matches Some(e) ==> r == Err::<Money, BuildError>(e)
                    && *final(self) == *old(self)
                &&& old(self).price_refusal(tile) is None ==> r == Ok::<Money, BuildError>(
                    clamped(
                        sat_sum(old(self).shop_on(tile)->0.price_of() as int, Shop::PRICE_STEP as int),
                        0,
                        Shop::MAX_PRICE as int,
                    ) as Money,
                ) && repriced(old(self), &*final(self), tile, r->Ok_0)
            },
    {
        match self.ride_index_at(tile) {
            Some(at) => {
                let ghost before = *self;
                let on_the_board = self.rides[at].raise_price();
                proof {
                    self.lemma_ride_changed(&before, at as int);
                    assert(before.first_ride_on(at as int, tile));
                }
                Ok(on_the_board)
            },
            None => self.raise_price(tile),
        }
    }

    /// Brings the price down by one step on whatever is on `tile`: the ride
    /// whose track runs across it, or else the shop.
    ///
    /// Fails if there is nothing on that tile to put a price on.
    pub fn lower_the_price_at(&mut self, tile: TilePos) -> (r: Result<Money, BuildError>)
        requires
            old(self).wf(),
        ensures
            final(self).wf(),
            old(self).track_on(tile) ==> exists|i: int| #[trigger] old(self).first_ride_on(i, tile) && {
                let was = old(self).rides_of()[i];
                &&& r == Ok::<Money, BuildError>(clamped(
                    sat_sum(was.price_of() as int, -Ride::PRICE_STEP as int),
                    0,
                    Ride::MAX_PRICE as int,
                ) as Money)
                &&& final(self).rides_of() == old(self).rides_of().update(i, final(self).rides_of()[i])
                &&& final(self).rides_of()[i].price_of() == r->Ok_0
                &&& was.same_but_price(&final(self).rides_of()[i])
                &&& old(self).differs_only_in(&*final(self), set![Part::Rides])
            },
            !old(self).track_on(tile) ==> {
                &&& old(self).price_refusal(tile) matches Some(e) ==> r == Err::<Money, BuildError>(e)
                    && *final(self) == *old(self)
                &&& old(self).price_refusal(tile) is None ==> r == Ok::<Money, BuildError>(
                    clamped(
                        sat_sum(old(self).shop_on(tile)->0.price_of() as int, -Shop::PRICE_STEP as int),
                        0,
                        Shop::MAX_PRICE as int,
                    ) as Money,
                ) && repriced(old(self), &*final(self), tile, r->Ok_0)
            },
    {
        match self.ride_index_at(tile) {
            Some(at) => {
                let ghost before = *self;
                let on_the_board = self.rides[at].lower_price();
                proof {
                    self.lemma_ride_changed(&before, at as int);
                    assert(before.first_ride_on(at as int, tile));
                }
                Ok(on_the_board)
            },
            None => self.lower_price(tile),
        }
    }

    /// Takes a whole ride down, returning what was there.
    ///
    /// Nothing comes back for it. Whoever was aboard is the crowd's to put
    /// back on their feet.
    pub fn demolish_ride(&mut self, id: u32) -> (gone: Option<Ride>)
        requires
            old(self).wf(),
        ensures
            final(self).wf(),
            !old(self).has_ride(id) ==> gone is None && *final(self) == *old(self),
            old(self).has_ride(id) ==> gone == Some(old(self).rides_of()[old(self).ride_index(id)])
                && final(self).rides_of() == old(self).rides_of().remove(old(self).ride_index(id)),
            old(self).differs_only_in(&*final(self), set![Part::Rides]),
    {
        let at = match self.find_ride(id) {
            Some(at) => at,
            None => return None,
        };
        proof {
            lemma_tidy_without_ride(
                self.cols(),
                self.rows(),
                self.shops_of(),
                self.plants_of(),
                self.rides_of(),
                at as int,
            );
        }
        let ghost before = self.rides_of();
        let gone = self.rides.remove(at);
        assert forall|i: int| 0 <= i < self.rides_of().len() implies (#[trigger] self.rides_of()[i]).wf() by {
            if i < at {
                assert(self.rides_of()[i] == before[i]);
            } else {
                assert(self.rides_of()[i] == before[i + 1]);
            }
        }
        Some(gone)
    }

    /// Why a piece of track cannot be laid on ride `id` now.
    pub open spec fn lay_refusal(&self, id: u32, piece: TrackPiece) -> Option<BuildError> {
        match self.money_refusal(piece_cost(piece)) {
            Some(e) => Some(e),
            None => if !self.has_ride(id) {
                Some(BuildError::NoSuchRide(id))
            } else {
                match self.rides_of()[self.ride_index(id)].layout_of() {
                    Layout::Flat { .. } => Some(BuildError::NotTrack(id)),
                    Layout::Track(t) => {
                        let tile = t.next().0;
                        let entry = t.next().2;
                        let exit = entry + climb_of(piece);
                        match self.track_refusal(tile, Some(id)) {
                            Some(e) => Some(e),
                            None => {
                                let ground = self.land_of().height_of(tile)->0;
                                if entry < ground || exit < ground {
                                    Some(BuildError::Underground(tile))
                                } else if piece == TrackPiece::Station && entry != ground {
                                    Some(BuildError::StationInTheAir(tile))
                                } else {
                                    None
                                }
                            },
                        }
                    },
                }
            },
        }
    }

    /// Lays one more piece on ride `id`, and charges for it.
    ///
    /// Fails, changing nothing, if the park is bankrupt or cannot pay, there
    /// is no such ride or it is not one you lay track on, or the piece will
    /// not go where the layout wants to put it: outside the park, on something
    /// built or planted, across another ride, underground, or a station off
    /// the ground. Past those checks the ride is un-tested whatever happens,
    /// and the layout may still refuse the piece; nothing is charged then.
    pub fn lay_track(&mut self, id: u32, piece: TrackPiece) -> (r: Result<Segment, BuildError>)
        requires
            old(self).wf(),
        ensures
            final(self).wf(),
            old(self).lay_refusal(id, piece) matches Some(e) ==> r == Err::<Segment, BuildError>(e)
                && *final(self) == *old(self),
            old(self).lay_refusal(id, piece) is None ==> {
                let i = old(self).ride_index(id);
                let was = old(self).rides_of()[i];
                let now = final(self).rides_of()[i];
                &&& final(self).rides_of() == old(self).rides_of().update(i, now)
                &&& now.id_of() == was.id_of()
                &&& now.name_of() == was.name_of()
                &&& now.price_of() == was.price_of()
                &&& now.riders_of() == was.riders_of()
                &&& now.takings_of() == was.takings_of()
                &&& now.state_of() == RideState::Building
                &&& !now.is_tested()
                &&& now.layout_of() matches Layout::Track(after) && was.layout_of() matches Layout::Track(before) && {
                    &&& after.first_tile() == before.first_tile()
                    &&& after.first_heading() == before.first_heading()
                    &&& after.first_height() == before.first_height()
                    &&& before.push_refusal(piece) matches Some(e) ==> r == Err::<Segment, BuildError>(BuildError::Layout(e))
                        && after.laid() == before.laid()
                        && old(self).differs_only_in(&*final(self), set![Part::Rides])
                    &&& before.push_refusal(piece) is None ==> r is Ok
                        && after.laid() == before.laid().push(piece)
                        && r->Ok_0 == after.segment(before.laid().len() as int)
                        && old(self).differs_only_in(&*final(self), set![Part::Rides, Part::Books])
                        && paid(old(self).books_of(), final(self).books_of(), piece_cost(piece))
                }
            },
    {
        self.check_money(piece.cost())?;
        let at = self.index_of_ride(id)?;
        let (tile, entry) = match self.rides[at].track() {
            Some(track) => {
                let (tile, _, entry) = track.next_place();
                (tile, entry)
            },
            None => return Err(BuildError::NotTrack(id)),
        };
        let exit: i32 = entry as i32 + piece.climb() as i32;
        self.check_track_tile(tile, Some(id))?;
        let ground = match self.land.height_at(tile) {
            Some(h) => h,
            None => return Err(BuildError::Outside(tile)),
        };
        if (entry as i32) < (ground as i32) || exit < (ground as i32) {
            return Err(BuildError::Underground(tile));
        }
        if piece == TrackPiece::Station && entry != ground {
            return Err(BuildError::StationInTheAir(tile));
        }
        let ghost before = *self;
        proof {
            self.lemma_free_for_track(tile, Some(id), at as int, id);
        }
        let laid = self.rides[at].lay(piece);
        proof {
            let was = before.rides_of()[at as int];
            let now = self.rides_of()[at as int];
            if let (Layout::Track(bt), Layout::Track(nt)) = (was.layout_of(), now.layout_of()) {
                if laid is Ok {
                    crate::park::track::lemma_covers_after_push(&bt, &nt, piece);
                } else {
                    assert forall|t: TilePos| #[trigger] nt.covers(t) implies bt.covers(t) by {
                        let i = choose|i: nat| i < nt.laid().len() && #[trigger] nt.after(i).0 == t;
                        nt.lemma_prefix_agrees(&bt, i);
                        assert(bt.after(i).0 == t);
                    }
                }
            }
            self.lemma_ride_replaced(&before, at as int);
        }
        match laid {
            Ok(segment) => {
                self.charge(piece.cost());
                Ok(segment)
            },
            Err(e) => Err(BuildError::Layout(e)),
        }
    }

    /// Takes the last piece of ride `id`'s track back off, returning it.
    /// Nothing comes back for it.
    ///
    /// Returns `None`, changing nothing, if there is no such ride or it is not
    /// one you lay track on. Otherwise the ride is un-tested, even if it had no
    /// track to take off.
    pub fn unlay_track(&mut self, id: u32) -> (p: Option<TrackPiece>)
        requires
            old(self).wf(),
        ensures
            final(self).wf(),
            old(self).differs_only_in(&*final(self), set![Part::Rides]),
            !old(self).has_ride(id) ==> p is None && *final(self) == *old(self),
            old(self).has_ride(id) && old(self).rides_of()[old(self).ride_index(id)].layout_of() is Flat
                ==> p is None && *final(self) == *old(self),
            old(self).has_ride(id) && old(self).rides_of()[old(self).ride_index(id)].layout_of() is Track ==> {
                let i = old(self).ride_index(id);
                let was = old(self).rides_of()[i];
                let now = final(self).rides_of()[i];
                &&& final(self).rides_of() == old(self).rides_of().update(i, now)
                &&& now.id_of() == was.id_of()
                &&& now.name_of() == was.name_of()
                &&& now.price_of() == was.price_of()
                &&& now.riders_of() == was.riders_of()
                &&& now.takings_of() == was.takings_of()
                &&& now.state_of() == RideState::Building
                &&& !now.is_tested()
                &&& now.layout_of() matches Layout::Track(after) && was.layout_of() matches Layout::Track(before) && {
                    &&& after.first_tile() == before.first_tile()
                    &&& after.first_heading() == before.first_heading()
                    &&& after.first_height() == before.first_height()
                    &&& before.laid().len() == 0 ==> p is None && after.laid() == before.laid()
                    &&& before.laid().len() > 0 ==> p == Some(before.laid().last())
                        && after.laid() == before.laid().drop_last()
                }
            },
    {
        let at = match self.find_ride(id) {
            Some(at) => at,
            None => return None,
        };
        if self.rides[at].track().is_none() {
            return None;
        }
        let ghost before = *self;
        let piece = self.rides[at].unlay();
        proof {
            let was = before.rides_of()[at as int];
            let now = self.rides_of()[at as int];
            if let (Layout::Track(bt), Layout::Track(nt)) = (was.layout_of(), now.layout_of()) {
                if bt.laid().len() > 0 {
                    crate::park::track::lemma_covers_after_pop(&bt, &nt);
                } else {
                    assert forall|t: TilePos| !#[trigger] nt.covers(t) by {}
                }
                assert forall|t: TilePos| #[trigger] now.layout_of().covers(t) implies covered(
                    before.rides_of(),
                    at as int,
                    t,
                ) by {
                    assert(nt.covers(t));
                    assert(bt.covers(t));
                }
            }
            self.lemma_ride_replaced(&before, at as int);
        }
        piece
    }

    /// The tile at place `k`, row by row, of the square of `side` tiles from
    /// `corner`.
    pub open spec fn square_tile(corner: TilePos, side: int, k: int) -> TilePos {
        TilePos { x: (corner.x + k % side) as i32, y: (corner.y + k / side) as i32 }
    }

    /// Why the first `k` tiles of the square of `side` from `corner`, row by
    /// row, will not all take a ride standing level at `ground` steps up.
    pub open spec fn level_refusal(&self, corner: TilePos, side: int, ground: i16, k: int) -> Option<
        BuildError,
    >
        decreases k,
    {
        if k <= 0 {
            None
        } else {
            match self.level_refusal(corner, side, ground, k - 1) {
                Some(e) => Some(e),
                None => {
                    let under = Park::square_tile(corner, side, k - 1);
                    match self.track_refusal(under, None) {
                        Some(e) => Some(e),
                        None => if self.land_of().height_of(under) != Some(ground) {
                            Some(BuildError::NotLevel(under))
                        } else {
                            None
                        },
                    }
                },
            }
        }
    }

    /// Once a tile of the square has refused, the refusal stands however many
    /// more are looked at.
    proof fn lemma_level_sticks(&self, corner: TilePos, side: int, ground: i16, m: int, n: int)
        requires
            0 <= m <= n,
            self.level_refusal(corner, side, ground, m) is Some,
        ensures
            self.level_refusal(corner, side, ground, n) == self.level_refusal(corner, side, ground, m),
        decreases n - m,
    {
        if m < n {
            self.lemma_level_sticks(corner, side, ground, m, n - 1);
        }
    }

    /// A square none of whose tiles refused takes track on every one of them.
    proof fn lemma_level_all(&self, corner: TilePos, side: int, ground: i16, n: int)
        requires
            self.level_refusal(corner, side, ground, n) is None,
        ensures
            forall|k: int| 0 <= k < n ==> #[trigger] self.track_refusal(Park::square_tile(corner, side, k), None) is None,
        decreases n,
    {
        if n > 0 {
            self.lemma_level_all(corner, side, ground, n - 1);
        }
    }

    /// Why a flat ride of `kind` cannot be bought and stood with its corner on
    /// `tile`.
    pub open spec fn flat_refusal(&self, tile: TilePos, kind: FlatRide) -> Option<BuildError> {
        if self.books_of().closed_at() is Some {
            Some(BuildError::Bankrupt)
        } else if self.rides_of().len() >= Park::MAX_RIDES {
            Some(BuildError::TooManyRides)
        } else if self.books_of().cash_of() < flat_cost(kind) {
            Some(BuildError::CannotPay)
        } else {
            match self.land_of().height_of(tile) {
                None => Some(BuildError::Outside(tile)),
                Some(ground) => {
                    let side = flat_footprint(kind) as int;
                    self.level_refusal(tile, side, ground, side * side)
                },
            }
        }
    }

    /// Why a flat ride will not go here. Its whole footprint is checked, not
    /// just the corner: half a carousel on buildable ground is no more use
    /// than none of one.
    fn check_flat_ride(&self, tile: TilePos, kind: FlatRide) -> (r: Result<(), BuildError>)
        requires
            self.wf(),
        ensures
            r == (match self.flat_refusal(tile, kind) {
                Some(e) => Err(e),
                None => Ok(()),
            }),
    {
        if self.books.is_bankrupt() {
            return Err(BuildError::Bankrupt);
        }
        if self.rides.len() >= Park::MAX_RIDES {
            return Err(BuildError::TooManyRides);
        }
        if self.books.cash() < kind.cost() {
            return Err(BuildError::CannotPay);
        }
        let ground = match self.land.height_at(tile) {
            Some(h) => h,
            None => return Err(BuildError::Outside(tile)),
        };
        let side = kind.footprint();
        let ghost sq = (side * side) as int;
        let mut k: u32 = 0;
        while k < side * side
            invariant
                self.wf(),
                self.land_of().holds(tile),
                self.flat_refusal(tile, kind) == self.level_refusal(tile, side as int, ground, sq),
                side == flat_footprint(kind),
                2 <= side <= 3,
                sq == side * side,
                k <= sq,
                self.level_refusal(tile, side as int, ground, k as int) is None,
            decreases sq - k,
        {
            let (dx, dy) = ((k % side) as i32, (k / side) as i32);
            let under = tile.offset(dx, dy);
            assert(under == Park::square_tile(tile, side as int, k as int));
            match self.check_track_tile(under, None) {
                Err(e) => {
                    proof {
                        self.lemma_level_sticks(tile, side as int, ground, k + 1, sq);
                    }
                    return Err(e);
                },
                Ok(()) => {},
            }
            if self.land.height_at(under) != Some(ground) {
                proof {
                    self.lemma_level_sticks(tile, side as int, ground, k + 1, sq);
                }
                return Err(BuildError::NotLevel(under));
            }
            k += 1;
        }
        Ok(())
    }

    /// Whether [`Park::buy_a_ride`] would be allowed here.
    pub fn can_buy_a_ride(&self, tile: TilePos, kind: FlatRide) -> (b: bool)
        requires
            self.wf(),
        ensures
            b == (self.flat_refusal(tile, kind) is None),
    {
        self.check_flat_ride(tile, kind).is_ok()
    }

    /// Buys a flat ride of `kind` and stands it with its corner on `tile`,
    /// returning its id.
    ///
    /// Charged and open in one go: there is no layout to get wrong, so there
    /// is nothing to test either. Fails, changing nothing, if the park is
    /// bankrupt, already has [`Park::MAX_RIDES`], cannot pay, or the square of
    /// land it needs will not take it.
    pub fn buy_a_ride(&mut self, name: &str, kind: FlatRide, tile: TilePos) -> (r: Result<
        u32,
        BuildError,
    >)
        requires
            old(self).wf(),
        ensures
            final(self).wf(),
            old(self).flat_refusal(tile, kind) matches Some(e) ==> r == Err::<u32, BuildError>(e)
                && *final(self) == *old(self),
            old(self).flat_refusal(tile, kind) is None ==> {
                &&& r == Ok::<u32, BuildError>(old(self).next_ride())
                &&& old(self).differs_only_in(&*final(self), set![Part::Rides, Part::Ids, Part::Books])
                &&& final(self).next_ride() == Park::id_after(old(self).next_ride())
                &&& final(self).next_hire() == old(self).next_hire()
                &&& final(self).rides_of().len() == old(self).rides_of().len() + 1
                &&& final(self).rides_of().drop_last() == old(self).rides_of()
                &&& bought(final(self).rides_of().last(), old(self).next_ride(), name@, kind, tile)
                &&& paid(old(self).books_of(), final(self).books_of(), flat_cost(kind))
            },
    {
        self.check_flat_ride(tile, kind)?;
        let id = self.next_ride_id;
        let mut ride = Ride::bought(id, name, kind, tile);
        ride.pass_the_test();
        let _ = ride.open();
        proof {
            let ground = self.land_of().height_of(tile)->0;
            let side = flat_footprint(kind) as int;
            self.lemma_level_all(tile, side, ground, side * side);
            assert forall|t: TilePos| #[trigger] ride.layout_of().covers(t) implies free_for(
                self.cols(),
                self.rows(),
                self.shops_of(),
                self.plants_of(),
                self.rides_of(),
                self.rides_of().len() as int,
                ride.id_of(),
                t,
            ) by {
                let dx = t.x - tile.x;
                let dy = t.y - tile.y;
                let k = dy * side + dx;
                vstd::arithmetic::div_mod::lemma_fundamental_div_mod_converse(k, side, dy, dx);
                assert(0 <= k < side * side) by (nonlinear_arith)
                    requires
                        0 <= dx < side,
                        0 <= dy < side,
                        k == dy * side + dx,
                ;
                assert(Park::square_tile(tile, side, k) == t);
                assert(self.track_refusal(Park::square_tile(tile, side, k), None) is None);
                self.lemma_free_for_track(t, None, self.rides_of().len() as int, ride.id_of());
            }
        }
        let ghost before = self.rides_of();
        self.put_ride(self.rides.len(), ride);
        self.next_ride_id = if id == u32::MAX {
            0
        } else {
            id + 1
        };
        self.charge(kind.cost());
        assert(self.rides_of().drop_last() =~= before);
        Ok(id)
    }

    /// Why the land cannot be worked on `tile` for `cost`, with `people`
    /// standing where they are.
    pub open spec fn landscaping_refusal(&self, tile: TilePos, cost: Money, people: Seq<TilePos>) -> Option<
        BuildError,
    > {
        if self.books_of().closed_at() is Some {
            Some(BuildError::Bankrupt)
        } else if !self.land_of().holds(tile) {
            Some(BuildError::Outside(tile))
        } else if self.books_of().cash_of() < cost {
            Some(BuildError::CannotPay)
        } else if self.shop_on(tile) is Some {
            Some(BuildError::Built(tile))
        } else if people.contains(tile) {
            Some(BuildError::Occupied(tile))
        } else if self.track_on(tile) {
            Some(BuildError::Track(tile))
        } else {
            None
        }
    }

    /// Why the land cannot be worked here, money and all.
    ///
    /// Not under a building, a ride, or anybody's feet: without that a tile
    /// could be raised into a pillar with somebody marooned on top of it.
    fn check_landscaping(&self, tile: TilePos, cost: Money, people: &[TilePos]) -> (r: Result<
        (),
        BuildError,
    >)
        requires
            self.wf(),
        ensures
            r == (match self.landscaping_refusal(tile, cost, people@) {
                Some(e) => Err(e),
                None => Ok(()),
            }),
    {
        if self.books.is_bankrupt() {
            return Err(BuildError::Bankrupt);
        }
        if !self.land.contains(tile) {
            return Err(BuildError::Outside(tile));
        }
        if self.books.cash() < cost {
            return Err(BuildError::CannotPay);
        }
        if self.facility_at(tile).is_some() {
            return Err(BuildError::Built(tile));
        }
        if Self::is_anybody_on(people, tile) {
            return Err(BuildError::Occupied(tile));
        }
        if self.ride_at(tile).is_some() {
            return Err(BuildError::Track(tile));
        }
        Ok(())
    }

    /// Raises `tile` by a step, and charges for it, returning its new height.
    ///
    /// Fails, changing nothing, if the park is bankrupt, the tile is outside
    /// it, the park cannot pay, something is built on it or runs across it,
    /// one of `people` is standing on it, or the land will not go any higher.
    pub fn raise(&mut self, tile: TilePos, people: &[TilePos]) -> (r: Result<i16, BuildError>)
        requires
            old(self).wf(),
        ensures
            final(self).wf(),
            old(self).landscaping_refusal(tile, Park::LANDSCAPING, people@) matches Some(e) ==> r
                == Err::<i16, BuildError>(e) && *final(self) == *old(self),
            old(self).landscaping_refusal(tile, Park::LANDSCAPING, people@) is None ==> {
                let h = old(self).land_of().height_of(tile)->0;
                &&& h >= Land::MAX_HEIGHT ==> r == Err::<i16, BuildError>(
                    BuildError::Land(LandError::OutOfRange(tile)),
                ) && *final(self) == *old(self)
                &&& h < Land::MAX_HEIGHT ==> r == Ok::<i16, BuildError>((h + 1) as i16)
                    && old(self).land_of().reshaped(&final(self).land_of(), tile, (h + 1) as i16)
                    && old(self).differs_only_in(&*final(self), set![Part::Land, Part::Books])
                    && paid(old(self).books_of(), final(self).books_of(), Park::LANDSCAPING)
            },
    {
        self.check_landscaping(tile, Park::LANDSCAPING, people)?;
        proof {
            self.land_of().lemma_height_in_range(tile);
        }
        let height = match self.land.raise(tile) {
            Ok(h) => h,
            Err(e) => return Err(BuildError::Land(e)),
        };
        self.charge(Park::LANDSCAPING);
        Ok(height)
    }

    /// Digs `tile` down by a step, and charges for it, returning its new
    /// height.
    ///
    /// As [`Park::raise`], but for land that will not go any lower.
    pub fn lower(&mut self, tile: TilePos, people: &[TilePos]) -> (r: Result<i16, BuildError>)
        requires
            old(self).wf(),
        ensures
            final(self).wf(),
            old(self).landscaping_refusal(tile, Park::LANDSCAPING, people@) matches Some(e) ==> r
                == Err::<i16, BuildError>(e) && *final(self) == *old(self),
            old(self).landscaping_refusal(tile, Park::LANDSCAPING, people@) is None ==> {
                let h = old(self).land_of().height_of(tile)->0;
                &&& h <= Land::MIN_HEIGHT ==> r == Err::<i16, BuildError>(
                    BuildError::Land(LandError::OutOfRange(tile)),
                ) && *final(self) == *old(self)
                &&& h > Land::MIN_HEIGHT ==> r == Ok::<i16, BuildError>((h - 1) as i16)
                    && old(self).land_of().reshaped(&final(self).land_of(), tile, (h - 1) as i16)
                    && old(self).differs_only_in(&*final(self), set![Part::Land, Part::Books])
                    && paid(old(self).books_of(), final(self).books_of(), Park::LANDSCAPING)
            },
    {
        self.check_landscaping(tile, Park::LANDSCAPING, people)?;
        proof {
            self.land_of().lemma_height_in_range(tile);
        }
        let height = match self.land.lower(tile) {
            Ok(h) => h,
            Err(e) => return Err(BuildError::Land(e)),
        };
        self.charge(Park::LANDSCAPING);
        Ok(height)
    }

    /// Why `terrain` cannot be laid on `tile`.
    pub open spec fn laying_refusal(&self, tile: TilePos, terrain: Terrain, people: Seq<TilePos>) -> Option<
        BuildError,
    > {
        match lay_cost_of(terrain) {
            None => Some(BuildError::NotForSale(terrain)),
            Some(cost) => self.landscaping_refusal(tile, cost, people),
        }
    }

    /// Lays a new surface on `tile`, and charges for it.
    ///
    /// Fails, changing nothing, for anything no money will buy, and otherwise
    /// as [`Park::raise`] does.
    pub fn lay(&mut self, tile: TilePos, terrain: Terrain, people: &[TilePos]) -> (r: Result<
        (),
        BuildError,
    >)
        requires
            old(self).wf(),
        ensures
            final(self).wf(),
            r == (match old(self).laying_refusal(tile, terrain, people@) {
                Some(e) => Err(e),
                None => Ok(()),
            }),
            r is Err ==> *final(self) == *old(self),
            r is Ok ==> {
                &&& old(self).differs_only_in(&*final(self), set![Part::Land, Part::Books])
                &&& final(self).land_of().ground_of(tile) == Some(terrain)
                &&& forall|t: TilePos| t != tile ==> #[trigger] final(self).land_of().ground_of(t)
                    == old(self).land_of().ground_of(t)
                &&& final(self).land_of().height_grid() == old(self).land_of().height_grid()
                &&& paid(old(self).books_of(), final(self).books_of(), lay_cost_of(terrain)->0)
            },
    {
        let cost = match terrain.lay_cost() {
            Some(c) => c,
            None => return Err(BuildError::NotForSale(terrain)),
        };
        self.check_landscaping(tile, cost, people)?;
        let _ = self.land.set_ground(tile, terrain);
        self.charge(cost);
        Ok(())
    }

    /// Whether [`Park::raise`] or [`Park::lower`] would be allowed here, for
    /// a cursor that wants to say so before the click.
    pub fn can_reshape(&self, tile: TilePos, people: &[TilePos]) -> (b: bool)
        requires
            self.wf(),
        ensures
            b == (self.landscaping_refusal(tile, Park::LANDSCAPING, people@) is None
                && (self.land_of().height_of(tile) matches Some(h) && (h < Land::MAX_HEIGHT || h
                > Land::MIN_HEIGHT))),
    {
        self.check_landscaping(tile, Park::LANDSCAPING, people).is_ok() && match self.land.height_at(
            tile,
        ) {
            Some(h) => h < Land::MAX_HEIGHT || h > Land::MIN_HEIGHT,
            None => false,
        }
    }

    /// Whether [`Park::lay`] would be allowed here.
    pub fn can_lay(&self, tile: TilePos, terrain: Terrain, people: &[TilePos]) -> (b: bool)
        requires
            self.wf(),
        ensures
            b == (self.laying_refusal(tile, terrain, people@) is None),
    {
        match terrain.lay_cost() {
            Some(cost) => self.check_landscaping(tile, cost, people).is_ok(),
            None => false,
        }
    }
}

/// No tile of a park holds more than one thing: a shop stands on its own,
/// scenery stands where no track runs, two rides told apart by their ids
/// never share a tile, and no ride runs outside the park.
pub proof fn nothing_stands_on_anything_else(park: &Park, tile: TilePos)
    requires
        park.wf(),
    ensures
        park.shop_on(tile) is Some ==> park.plant_on(tile) is None && !park.track_on(tile),
        park.plant_on(tile) is Some ==> !park.track_on(tile),
        forall|i: int, j: int|
            0 <= i < park.rides_of().len() && 0 <= j < park.rides_of().len()
                && park.rides_of()[i].id_of() != park.rides_of()[j].id_of() && #[trigger] park.ride_covers(i, tile)
                ==> !#[trigger] park.ride_covers(j, tile),
        park.track_on(tile) ==> park.land_of().holds(tile),
{
}

/// A park the bank has closed buys nothing more: not a shop, not a tree,
/// not a ride or a piece of track, not a shovelful of land.
pub proof fn a_bankrupt_park_buys_nothing(
    park: &Park,
    tile: TilePos,
    facility: Facility,
    scenery: Scenery,
    kind: FlatRide,
    id: u32,
    piece: TrackPiece,
    terrain: Terrain,
    cost: Money,
    people: Seq<TilePos>,
)
    requires
        park.books_of().closed_at() is Some,
    ensures
        park.build_refusal(tile, facility) == Some(BuildError::Bankrupt),
        park.planting_refusal(tile, scenery, people) == Some(BuildError::Bankrupt),
        park.start_refusal(tile) == Some(BuildError::Bankrupt),
        park.flat_refusal(tile, kind) == Some(BuildError::Bankrupt),
        park.lay_refusal(id, piece) == Some(BuildError::Bankrupt),
        park.landscaping_refusal(tile, cost, people) == Some(BuildError::Bankrupt),
        lay_cost_of(terrain) is Some ==> park.laying_refusal(tile, terrain, people) == Some(
            BuildError::Bankrupt,
        ),
        park.books_of().affords(cost) == Err::<(), MoneyError>(MoneyError::Bankrupt),
{
}

/// Taking down what was just built gives the ground back: every tile holds
/// the shop it held before, and the tile will take a building again.
pub proof fn demolishing_gives_the_ground_back(
    before: &Park,
    built: &Park,
    cleared: &Park,
    tile: TilePos,
    facility: Facility,
)
    requires
        before.wf(),
        built.wf(),
        cleared.wf(),
        before.build_refusal(tile, facility) is None,
        before.differs_only_in(built, set![Part::Shops, Part::Books]),
        built.shop_on(tile) matches Some(s) && s.is_new(facility),
        forall|t: TilePos| t != tile ==> #[trigger] built.shop_on(t) == before.shop_on(t),
        built.differs_only_in(cleared, set![Part::Shops]),
        cleared.shop_on(tile) is None,
        forall|t: TilePos| t != tile ==> #[trigger] cleared.shop_on(t) == built.shop_on(t),
    ensures
        forall|t: TilePos| #[trigger] cleared.shop_on(t) == before.shop_on(t),
        cleared.ground_refusal(tile) is None,
{
    assert forall|t: TilePos| #[trigger] cleared.shop_on(t) == before.shop_on(t) by {
        if t != tile {
            assert(built.shop_on(t) == before.shop_on(t));
        }
    }
}

/// Taking down scenery that was just planted gives the tile back as it was.
pub proof fn uprooting_gives_the_ground_back(
    before: &Park,
    planted: &Park,
    cleared: &Park,
    tile: TilePos,
    scenery: Scenery,
    people: Seq<TilePos>,
)
    requires
        before.wf(),
        planted.wf(),
        cleared.wf(),
        before.planting_refusal(tile, scenery, people) is None,
        before.differs_only_in(planted, set![Part::Scenery, Part::Books]),
        planted.plant_on(tile) == Some(scenery),
        forall|t: TilePos| t != tile ==> #[trigger] planted.plant_on(t) == before.plant_on(t),
        planted.differs_only_in(cleared, set![Part::Scenery]),
        cleared.plant_on(tile) is None,
        forall|t: TilePos| t != tile ==> #[trigger] cleared.plant_on(t) == planted.plant_on(t),
    ensures
        forall|t: TilePos| #[trigger] cleared.plant_on(t) == before.plant_on(t),
{
    assert forall|t: TilePos| #[trigger] cleared.plant_on(t) == before.plant_on(t) by {
        if t != tile {
            assert(planted.plant_on(t) == before.plant_on(t));
        }
    }
}

/// Taking the last piece back off a ride's track undoes laying it: the ride
/// stands on the pieces it stood on before, though it has to be tested
/// again.
pub proof fn taking_track_up_undoes_laying_it(
    before: &Park,
    laid: &Park,
    lifted: &Park,
    id: u32,
    piece: TrackPiece,
    got_back: Option<TrackPiece>,
)
    requires
        before.wf(),
        before.lay_refusal(id, piece) is None,
        before.rides_of()[before.ride_index(id)].layout_of() matches Layout::Track(t) && t.push_refusal(
            piece,
        ) is None,
        laid.rides_of() == before.rides_of().update(
            before.ride_index(id),
            laid.rides_of()[before.ride_index(id)],
        ),
        laid.rides_of()[before.ride_index(id)].id_of() == id,
        laid.rides_of()[before.ride_index(id)].layout_of() matches Layout::Track(after) && before.rides_of()[before.ride_index(
            id,
        )].layout_of() matches Layout::Track(was) && after.laid() == was.laid().push(piece),
        lifted.rides_of() == laid.rides_of().update(
            laid.ride_index(id),
            lifted.rides_of()[laid.ride_index(id)],
        ),
        lifted.rides_of()[laid.ride_index(id)].layout_of() matches Layout::Track(now) && laid.rides_of()[laid.ride_index(
            id,
        )].layout_of() matches Layout::Track(then) && now.laid() == then.laid().drop_last()
            && got_back == Some(then.laid().last()),
    ensures
        laid.ride_index(id) == before.ride_index(id),
        lifted.rides_of()[before.ride_index(id)].layout_of() matches Layout::Track(now)
            && before.rides_of()[before.ride_index(id)].layout_of() matches Layout::Track(was)
            && now.laid() == was.laid() && got_back == Some(piece),
{
    let k = choose|k: int|
        0 <= k < before.rides_of().len() && (#[trigger] before.rides_of()[k]).id_of() == id;
    crate::park::lemma_first_ride_below(before, id, k);
    crate::park::lemma_ride_index_kept(before, laid, id);
    let i = before.ride_index(id);
    if let (Layout::Track(now), Layout::Track(was)) = (
        lifted.rides_of()[i].layout_of(),
        before.rides_of()[i].layout_of(),
    ) {
        if let Layout::Track(then) = laid.rides_of()[i].layout_of() {
            assert(then.laid() == was.laid().push(piece));
            assert(now.laid() =~= was.laid());
        }
    }
}

/// Whether `ride` is one just started: `id`, called `name`, with no track
/// laid yet and its first piece to go on `tile` facing `heading`, `height`
/// steps up.
pub open spec fn started(
    ride: Ride,
    id: u32,
    name: Seq<char>,
    tile: TilePos,
    heading: Heading,
    height: i16,
) -> bool {
    &&& ride.wf()
    &&& ride.id_of() == id
    &&& ride.name_of() == name
    &&& ride.layout_of() matches Layout::Track(t) && {
        &&& t.first_tile() == tile
        &&& t.first_heading() == heading
        &&& t.first_height() == height
        &&& t.laid().len() == 0
    }
    &&& ride.price_of() == Ride::DEFAULT_PRICE
    &&& ride.state_of() == RideState::Building
    &&& !ride.is_tested()
    &&& ride.riders_of() == 0
    &&& ride.takings_of() == 0
}

/// Whether `ride` is a flat ride of `kind` just bought: `id`, called `name`,
/// standing with its corner on `corner`, tested and open.
pub open spec fn bought(ride: Ride, id: u32, name: Seq<char>, kind: FlatRide, corner: TilePos) -> bool {
    &&& ride.wf()
    &&& ride.id_of() == id
    &&& ride.name_of() == name
    &&& ride.layout_of() == (Layout::Flat { kind, corner })
    &&& ride.price_of() == Ride::DEFAULT_PRICE
    &&& ride.state_of() == RideState::Open
    &&& ride.is_tested()
    &&& ride.riders_of() == 0
    &&& ride.takings_of() == 0
}

/// Why a layout would not be sent round for a test: it needs a station, and
/// track has to come back round to it.
pub open spec fn layout_failure(layout: Layout) -> Option<TestFailure> {
    if layout.station_seq().len() == 0 {
        Some(TestFailure::NoStation)
    } else {
        match layout {
            Layout::Track(t) => if t.closes() {
                None
            } else {
                Some(TestFailure::NotACircuit)
            },
            Layout::Flat { .. } => None,
        }
    }
}

/// `after` is `before` with `cost` taken out of the bank and nothing else
/// changed.
pub open spec fn paid(before: Books, after: Books, cost: Money) -> bool {
    &&& after.wf()
    &&& after.cash_of() == before.cash_of() - cost
    &&& after.loan_of() == before.loan_of()
    &&& after.campaign_of() == before.campaign_of()
    &&& after.reputation_of() == before.reputation_of()
    &&& after.closed_at() == before.closed_at()
}

/// `after` is `before` with only the price on `tile` changed, to `price`.
pub open spec fn repriced(before: &Park, after: &Park, tile: TilePos, price: Money) -> bool {
    &&& before.differs_only_in(after, set![Part::Shops])
    &&& after.shop_on(tile) matches Some(now) && {
        let was = before.shop_on(tile)->0;
        &&& now.price_of() == price
        &&& now.kind_of() == was.kind_of()
        &&& now.takings_of() == was.takings_of()
        &&& now.customers_of() == was.customers_of()
    }
    &&& forall|t: TilePos| t != tile ==> #[trigger] after.shop_on(t) == before.shop_on(t)
}

} // verus!
