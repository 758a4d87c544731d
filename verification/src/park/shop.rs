//! A facility once it has been built, and the till it keeps.
//!
//! [`Facility`] says what a kind of thing is like; a [`Shop`] is one actual
//! stall or bench standing on a tile, with a price its owner set and a record
//! of what it has taken.

use vstd::prelude::*;

use crate::park::facility::{fair_price, upkeep_of};
use crate::park::money::{add_saturating, clamp, clamped, sat_sum, sub_saturating};
use crate::park::{Facility, Money};

verus! {

/// One built facility.
#[derive(Debug, Clone, Copy, PartialEq, Eq, Structural)]
pub struct Shop {
    kind: Facility,
    price: Money,
    takings: Money,
    customers: u32,
}

/// `n + 1`, stopping at the largest count there is.
pub open spec fn count_on(n: u32) -> u32 {
    if n == u32::MAX {
        n
    } else {
        (n + 1) as u32
    }
}

impl Shop {
    /// The most that can be charged for anything.
    pub const MAX_PRICE: Money = 100;

    /// How much one nudge of the price tool moves it.
    pub const PRICE_STEP: Money = 2;

    /// What kind of thing this is.
    pub closed spec fn kind_of(self) -> Facility {
        self.kind
    }

    /// What it charges.
    pub closed spec fn price_of(self) -> Money {
        self.price
    }

    /// What it has taken.
    pub closed spec fn takings_of(self) -> Money {
        self.takings
    }

    /// How many have paid it.
    pub closed spec fn customers_of(self) -> u32 {
        self.customers
    }

    /// A price on the board is never below nothing nor above the most.
    pub open spec fn wf(self) -> bool {
        0 <= self.price_of() <= Self::MAX_PRICE
    }

    /// Whether this is a `kind` that has just opened: its usual price, and
    /// nothing in the till.
    pub open spec fn is_new(self, kind: Facility) -> bool {
        &&& self.kind_of() == kind
        &&& self.price_of() == fair_price(kind)
        &&& self.takings_of() == 0
        &&& self.customers_of() == 0
    }

    /// Opens one, at the price its kind usually charges.
    pub fn new(kind: Facility) -> (s: Self)
        ensures
            s.wf(),
            s.kind_of() == kind,
            s.price_of() == fair_price(kind),
            s.takings_of() == 0,
            s.customers_of() == 0,
    {
        Shop { kind, price: kind.price(), takings: 0, customers: 0 }
    }

    /// A shop as it was written down: its kind, what it charges, what its till
    /// holds and how many it has served.
    ///
    /// `None` if the price is not one a shop can charge.
    pub fn restore(kind: Facility, price: Money, takings: Money, customers: u32) -> (s: Option<Self>)
        ensures
            s is Some <==> 0 <= price <= Self::MAX_PRICE,
            s matches Some(s) ==> s.wf() && s.kind_of() == kind && s.price_of() == price
                && s.takings_of() == takings && s.customers_of() == customers,
    {
        if price < 0 || price > Self::MAX_PRICE {
            return None;
        }
        Some(Shop { kind, price, takings, customers })
    }

    /// What kind of thing this is.
    pub fn kind(self) -> (k: Facility)
        ensures
            k == self.kind_of(),
    {
        self.kind
    }

    /// What it charges a guest.
    pub fn price(self) -> (p: Money)
        ensures
            p == self.price_of(),
    {
        self.price
    }

    /// Everything it has taken since it opened.
    pub fn takings(self) -> (t: Money)
        ensures
            t == self.takings_of(),
    {
        self.takings
    }

    /// How many guests have paid it.
    pub fn customers(self) -> (n: u32)
        ensures
            n == self.customers_of(),
    {
        self.customers
    }

    /// Sets the price, clamped to something a park can actually charge, and
    /// returns the price that ended up on the board.
    pub fn set_price(&mut self, price: Money) -> (on_the_board: Money)
        ensures
            on_the_board == clamped(price as int, 0, Self::MAX_PRICE as int),
            final(self).price_of() == on_the_board,
            final(self).kind_of() == old(self).kind_of(),
            final(self).takings_of() == old(self).takings_of(),
            final(self).customers_of() == old(self).customers_of(),
            final(self).wf(),
    {
        self.price = clamp(price, 0, Self::MAX_PRICE);
        self.price
    }

    /// Puts the price up by one step.
    pub fn raise_price(&mut self) -> (on_the_board: Money)
        ensures
            on_the_board == clamped(
                sat_sum(old(self).price_of() as int, Self::PRICE_STEP as int),
                0,
                Self::MAX_PRICE as int,
            ),
            final(self).price_of() == on_the_board,
            final(self).kind_of() == old(self).kind_of(),
            final(self).takings_of() == old(self).takings_of(),
            final(self).customers_of() == old(self).customers_of(),
            final(self).wf(),
    {
        let asked = add_saturating(self.price, Self::PRICE_STEP);
        self.set_price(asked)
    }

    /// Brings the price down by one step.
    pub fn lower_price(&mut self) -> (on_the_board: Money)
        ensures
            on_the_board == clamped(
                sat_sum(old(self).price_of() as int, -Self::PRICE_STEP as int),
                0,
                Self::MAX_PRICE as int,
            ),
            final(self).price_of() == on_the_board,
            final(self).kind_of() == old(self).kind_of(),
            final(self).takings_of() == old(self).takings_of(),
            final(self).customers_of() == old(self).customers_of(),
            final(self).wf(),
    {
        let asked = sub_saturating(self.price, Self::PRICE_STEP);
        self.set_price(asked)
    }

    /// Records a sale of `amount`.
    ///
    /// The amount is passed in rather than read off the price so that the till
    /// records what the guest actually handed over.
    pub fn take(&mut self, amount: Money)
        ensures
            final(self).takings_of() == sat_sum(old(self).takings_of() as int, amount as int),
            final(self).customers_of() == count_on(old(self).customers_of()),
            final(self).kind_of() == old(self).kind_of(),
            final(self).price_of() == old(self).price_of(),
    {
        self.takings = add_saturating(self.takings, amount);
        self.customers = self.customers.saturating_add(1);
    }

    /// What it costs the park to keep this open for one wage bill.
    pub fn upkeep(self) -> (c: Money)
        ensures
            c == upkeep_of(self.kind_of()),
    {
        self.kind.upkeep()
    }

    /// Whether the price is more than guests think this kind of thing is
    /// worth.
    pub fn is_over_the_odds(self) -> (b: bool)
        ensures
            b == (self.price_of() > fair_price(self.kind_of())),
    {
        self.price > self.kind.price()
    }
}

/// Nudging a price up and back down again, from anywhere short of the top,
/// returns it to where it was.
pub proof fn a_nudge_up_and_down_comes_back(price: Money)
    requires
        0 <= price <= Shop::MAX_PRICE - Shop::PRICE_STEP,
    ensures
        clamped(
            sat_sum(
                clamped(sat_sum(price as int, Shop::PRICE_STEP as int), 0, Shop::MAX_PRICE as int),
                -Shop::PRICE_STEP as int,
            ),
            0,
            Shop::MAX_PRICE as int,
        ) == price,
{
}

/// However many times the price is nudged, it never leaves the board: a
/// price at either end stays there when pushed further.
pub proof fn a_price_never_leaves_its_range(price: Money)
    requires
        0 <= price <= Shop::MAX_PRICE,
    ensures
        0 <= clamped(sat_sum(price as int, Shop::PRICE_STEP as int), 0, Shop::MAX_PRICE as int)
            <= Shop::MAX_PRICE,
        0 <= clamped(sat_sum(price as int, -Shop::PRICE_STEP as int), 0, Shop::MAX_PRICE as int)
            <= Shop::MAX_PRICE,
        price == Shop::MAX_PRICE ==> clamped(
            sat_sum(price as int, Shop::PRICE_STEP as int),
            0,
            Shop::MAX_PRICE as int,
        ) == Shop::MAX_PRICE,
        price == 0 ==> clamped(
            sat_sum(price as int, -Shop::PRICE_STEP as int),
            0,
            Shop::MAX_PRICE as int,
        ) == 0,
{
}

/// Two shops just opened of the same kind are the same shop.
pub proof fn new_shops_are_alike(a: Shop, b: Shop, kind: Facility)
    requires
        a.is_new(kind),
        b.is_new(kind),
    ensures
        a == b,
{
}

} // verus!
