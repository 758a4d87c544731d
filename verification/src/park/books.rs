//! What the park pays and is paid: the payroll, the bills, the tills, and the
//! bank.

use vstd::prelude::*;

use crate::park::facility::upkeep_of as facility_upkeep;
use crate::park::finance::{in_steps, interest_on};
use crate::park::money::{add_saturating, sat_sum};
use crate::park::staff::{hire_cost_of, wage_of};
use crate::park::flat::flat_upkeep;
use crate::park::{
    Books, Campaign, FlatRide, Layout, Money, MoneyError, Park, Part, Ride, Shop, Staff, StaffKind, TilePos,
};

verus! {

/// The wages of the first `n` of `staff`, added up without passing the most
/// a [`Money`] can count.
pub open spec fn wages_of(staff: Seq<Staff>, n: int) -> int
    decreases n,
{
    if n <= 0 {
        0
    } else {
        sat_sum(wages_of(staff, n - 1), wage_of(staff[n - 1].kind_of()) as int)
    }
}

/// What one cell costs to keep open for a bill: the upkeep of the shop on
/// it, if there is one.
pub open spec fn cell_upkeep(cell: Option<Shop>) -> int {
    match cell {
        Some(shop) => facility_upkeep(shop.kind_of()) as int,
        None => 0,
    }
}

/// What the shops among the first `n` cells cost to keep open for a bill.
pub open spec fn shop_upkeep_of(cells: Seq<Option<Shop>>, n: int) -> int
    decreases n,
{
    if n <= 0 {
        0
    } else {
        shop_upkeep_of(cells, n - 1) + cell_upkeep(cells[n - 1])
    }
}

/// What the first `n` of `rides` cost to keep in service for a bill.
pub open spec fn ride_upkeep_of(rides: Seq<Ride>, n: int) -> int
    decreases n,
{
    if n <= 0 {
        0
    } else {
        ride_upkeep_of(rides, n - 1) + rides[n - 1].layout_of().upkeep_spec() as int
    }
}

/// What the tills of the shops among the first `n` cells have taken, added up
/// the same way.
pub open spec fn shop_takings_of(cells: Seq<Option<Shop>>, n: int) -> int
    decreases n,
{
    if n <= 0 {
        0
    } else {
        match cells[n - 1] {
            Some(shop) => sat_sum(shop_takings_of(cells, n - 1), shop.takings_of() as int),
            None => shop_takings_of(cells, n - 1),
        }
    }
}

/// What the tills of the first `n` of `rides` have taken, added up the same
/// way.
pub open spec fn ride_takings_of(rides: Seq<Ride>, n: int) -> int
    decreases n,
{
    if n <= 0 {
        0
    } else {
        sat_sum(ride_takings_of(rides, n - 1), rides[n - 1].takings_of() as int)
    }
}

/// Whether member `i` of `staff` is the first with `id`.
pub open spec fn is_first_hand(staff: Seq<Staff>, i: int, id: u32) -> bool {
    &&& 0 <= i < staff.len()
    &&& staff[i].id_of() == id
    &&& forall|j: int| 0 <= j < i ==> (#[trigger] staff[j]).id_of() != id
}

impl Park {
    /// What the park owes every [`Park::TICKS_PER_WAGE_BILL`]: every wage,
    /// plus the upkeep of everything standing on the land.
    pub open spec fn bill_of(&self) -> int {
        sat_sum(
            sat_sum(
                wages_of(self.staff_of(), self.staff_of().len() as int),
                shop_upkeep_of(self.shops_of().values(), self.shops_of().values().len() as int),
            ),
            ride_upkeep_of(self.rides_of(), self.rides_of().len() as int),
        )
    }

    /// Everything every till has taken since the park opened, rides included.
    pub open spec fn takings_spec(&self) -> int {
        sat_sum(
            shop_takings_of(self.shops_of().values(), self.shops_of().values().len() as int),
            ride_takings_of(self.rides_of(), self.rides_of().len() as int),
        )
    }

    /// Adds to or subtracts from the bank balance.
    ///
    /// Stops at the ends of the range rather than wrapping: a park deep
    /// enough in debt to wrap a 64-bit integer has other problems.
    pub fn adjust_cash(&mut self, amount: Money)
        requires
            old(self).wf(),
        ensures
            final(self).wf(),
            old(self).differs_only_in(&*final(self), set![Part::Books]),
            final(self).books_of().cash_of() == sat_sum(old(self).books_of().cash_of() as int, amount as int),
            final(self).books_of().loan_of() == old(self).books_of().loan_of(),
            final(self).books_of().campaign_of() == old(self).books_of().campaign_of(),
            final(self).books_of().reputation_of() == old(self).books_of().reputation_of(),
            final(self).books_of().closed_at() == old(self).books_of().closed_at(),
    {
        self.books.adjust_cash(amount);
    }

    /// The park's books, whole.
    pub fn books(&self) -> (b: &Books)
        ensures
            *b == self.books_of(),
    {
        &self.books
    }

    /// Takes somebody on, charging the one-off cost of hiring them, and
    /// returns the id they were given, so they can be let go again later.
    ///
    /// Fails, changing nothing, if the park is bankrupt or cannot afford it.
    pub fn hire(&mut self, kind: StaffKind) -> (r: Result<u32, MoneyError>)
        requires
            old(self).wf(),
        ensures
            final(self).wf(),
            r is Err ==> *final(self) == *old(self) && r == Err::<u32, MoneyError>(
                old(self).books_of().affords(hire_cost_of(kind))->Err_0,
            ),
            r is Ok <==> old(self).books_of().affords(hire_cost_of(kind)) is Ok,
            r is Ok ==> {
                &&& r == Ok::<u32, MoneyError>(old(self).next_hire())
                &&& old(self).differs_only_in(&*final(self), set![Part::Staff, Part::Books, Part::Ids])
                &&& final(self).next_hire() == Park::id_after(old(self).next_hire())
                &&& final(self).next_ride() == old(self).next_ride()
                &&& final(self).staff_of().len() == old(self).staff_of().len() + 1
                &&& final(self).staff_of().drop_last() == old(self).staff_of()
                &&& final(self).staff_of().last().id_of() == old(self).next_hire()
                &&& final(self).staff_of().last().kind_of() == kind
                &&& final(self).books_of().cash_of() == old(self).books_of().cash_of() - hire_cost_of(kind)
                &&& final(self).books_of().loan_of() == old(self).books_of().loan_of()
                &&& final(self).books_of().campaign_of() == old(self).books_of().campaign_of()
                &&& final(self).books_of().reputation_of() == old(self).books_of().reputation_of()
                &&& final(self).books_of().closed_at() == old(self).books_of().closed_at()
            },
    {
        match self.books.spend(kind.hire_cost()) {
            Ok(()) => {},
            Err(e) => return Err(e),
        }
        let id = self.next_staff_id;
        self.next_staff_id = if id == u32::MAX {
            0
        } else {
            id + 1
        };
        let ghost before = self.staff_of();
        self.staff.push(Staff::hired(id, kind));
        assert(self.staff_of().drop_last() =~= before);
        Ok(id)
    }

    /// Where the first member of staff with `id` is on the payroll.
    fn find_hand(&self, id: u32) -> (at: Option<usize>)
        ensures
            at is None <==> forall|i: int| 0 <= i < self.staff_of().len() ==> (#[trigger] self.staff_of()[i]).id_of() != id,
            at matches Some(i) ==> is_first_hand(self.staff_of(), i as int, id),
    {
        let mut i: usize = 0;
        while i < self.staff.len()
            invariant
                i <= self.staff_of().len(),
                forall|j: int| 0 <= j < i ==> (#[trigger] self.staff_of()[j]).id_of() != id,
            decreases self.staff_of().len() - i,
        {
            if self.staff[i].id() == id {
                return Some(i);
            }
            i += 1;
        }
        None
    }

    /// Lets somebody go, returning who left. No severance: the wage bill is
    /// lighter from the next one on.
    pub fn fire(&mut self, id: u32) -> (gone: Option<Staff>)
        requires
            old(self).wf(),
        ensures
            final(self).wf(),
            old(self).differs_only_in(&*final(self), set![Part::Staff]),
            gone is None <==> forall|i: int| 0 <= i < old(self).staff_of().len() ==> (#[trigger] old(self).staff_of()[i]).id_of() != id,
            gone is None ==> final(self).staff_of() == old(self).staff_of(),
            gone is Some ==> exists|i: int| #[trigger] is_first_hand(old(self).staff_of(), i, id)
                && gone == Some(old(self).staff_of()[i]) && final(self).staff_of() == old(self).staff_of().remove(i),
    {
        match self.find_hand(id) {
            Some(at) => {
                let gone = self.staff.remove(at);
                assert(is_first_hand(old(self).staff_of(), at as int, id));
                Some(gone)
            },
            None => None,
        }
    }

    /// What the wages add up to, a member of staff at a time.
    fn wages(&self) -> (total: Money)
        ensures
            total == wages_of(self.staff_of(), self.staff_of().len() as int),
    {
        let mut total: Money = 0;
        let mut i: usize = 0;
        while i < self.staff.len()
            invariant
                i <= self.staff_of().len(),
                total == wages_of(self.staff_of(), i as int),
            decreases self.staff_of().len() - i,
        {
            total = add_saturating(total, self.staff[i].wage());
            i += 1;
        }
        total
    }

    /// What the shops cost to keep open, a cell at a time.
    fn shop_upkeep(&self) -> (total: Money)
        requires
            self.wf(),
        ensures
            total == shop_upkeep_of(self.shops_of().values(), self.shops_of().values().len() as int),
    {
        let cells = self.facilities.as_slice();
        proof {
            assert(cells@.len() <= 4096 * 4096) by (nonlinear_arith)
                requires
                    cells@.len() == self.shops_of().cols() * self.shops_of().rows(),
                    0 < self.shops_of().cols() <= 4096,
                    0 < self.shops_of().rows() <= 4096,
            ;
        }
        let mut total: Money = 0;
        let mut i: usize = 0;
        while i < cells.len()
            invariant
                cells@ == self.shops_of().values(),
                cells@.len() <= 4096 * 4096,
                i <= cells@.len(),
                total == shop_upkeep_of(cells@, i as int),
            decreases cells@.len() - i,
        {
            proof {
                lemma_shop_upkeep_owed(cells@, i as int);
            }
            match cells[i] {
                Some(shop) => {
                    total = total + shop.upkeep();
                },
                None => {},
            }
            i += 1;
        }
        total
    }

    /// What the rides cost to keep in service, a ride at a time.
    fn ride_upkeep(&self) -> (total: Money)
        requires
            self.wf(),
        ensures
            total == ride_upkeep_of(self.rides_of(), self.rides_of().len() as int),
    {
        let mut total: Money = 0;
        let mut i: usize = 0;
        while i < self.rides.len()
            invariant
                self.wf(),
                i <= self.rides_of().len(),
                total == ride_upkeep_of(self.rides_of(), i as int),
            decreases self.rides_of().len() - i,
        {
            proof {
                lemma_ride_upkeep_owed(self.rides_of(), i as int);
                lemma_ride_upkeep_owed(self.rides_of(), (i + 1) as int);
            }
            assert(self.rides_of()[i as int].wf());
            total = total + self.rides[i].upkeep();
            i += 1;
        }
        total
    }

    /// What the park owes every [`Park::TICKS_PER_WAGE_BILL`]: every wage,
    /// plus the upkeep of everything standing on the land.
    pub fn wage_bill(&self) -> (bill: Money)
        requires
            self.wf(),
        ensures
            bill == self.bill_of(),
    {
        add_saturating(add_saturating(self.wages(), self.shop_upkeep()), self.ride_upkeep())
    }

    /// Everything every till has taken since the park opened, rides included.
    pub fn takings(&self) -> (total: Money)
        ensures
            total == self.takings_spec(),
    {
        let cells = self.facilities.as_slice();
        let mut shops: Money = 0;
        let mut i: usize = 0;
        while i < cells.len()
            invariant
                cells@ == self.shops_of().values(),
                i <= cells@.len(),
                shops == shop_takings_of(cells@, i as int),
            decreases cells@.len() - i,
        {
            match cells[i] {
                Some(shop) => {
                    shops = add_saturating(shops, shop.takings());
                },
                None => {},
            }
            i += 1;
        }
        let mut rides: Money = 0;
        let mut j: usize = 0;
        while j < self.rides.len()
            invariant
                j <= self.rides_of().len(),
                rides == ride_takings_of(self.rides_of(), j as int),
            decreases self.rides_of().len() - j,
        {
            rides = add_saturating(rides, self.rides[j].takings());
            j += 1;
        }
        add_saturating(shops, rides)
    }

    /// Whether the bank has closed the park.
    ///
    /// A bankrupt park keeps its land and its buildings, but nobody new comes
    /// through the entrance and nothing more can be bought.
    pub fn is_bankrupt(&self) -> (b: bool)
        ensures
            b == self.books_of().closed_at() is Some,
    {
        self.books.is_bankrupt()
    }

    /// When the park went bankrupt, if it has.
    pub fn bankrupt_since(&self) -> (t: Option<u64>)
        ensures
            t == self.books_of().closed_at(),
    {
        self.books.bankrupt_since()
    }

    /// Pays every wage and every bit of upkeep, once a wage bill is due.
    pub fn pay_the_bills(&mut self)
        requires
            old(self).wf(),
        ensures
            final(self).wf(),
            old(self).differs_only_in(&*final(self), set![Part::Books]),
            final(self).books_of().cash_of() == sat_sum(old(self).books_of().cash_of() as int, -old(self).bill_of()),
            final(self).books_of().loan_of() == old(self).books_of().loan_of(),
            final(self).books_of().campaign_of() == old(self).books_of().campaign_of(),
            final(self).books_of().reputation_of() == old(self).books_of().reputation_of(),
            final(self).books_of().closed_at() == old(self).books_of().closed_at(),
    {
        let bill = self.wage_bill();
        proof {
            self.lemma_bill_is_owed();
        }
        self.books.pay_the_bills(bill);
    }

    /// What a park owes is never less than nothing.
    proof fn lemma_bill_is_owed(&self)
        requires
            self.wf(),
        ensures
            0 <= self.bill_of() <= i64::MAX,
    {
        lemma_wages_owed(self.staff_of(), self.staff_of().len() as int);
        lemma_shop_upkeep_owed(self.shops_of().values(), self.shops_of().values().len() as int);
        lemma_ride_upkeep_owed(self.rides_of(), self.rides_of().len() as int);
    }

    /// Closes the park if it has run past [`Books::DEBT_LIMIT`], and returns
    /// whether it has just been closed — the crowd's cue to head for the
    /// exit. Bankruptcy is one-way.
    pub fn check_solvency(&mut self) -> (closed_now: bool)
        requires
            old(self).wf(),
        ensures
            final(self).wf(),
            old(self).differs_only_in(&*final(self), set![Part::Books]),
            closed_now == (old(self).books_of().closed_at() is None && old(self).books_of().cash_of()
                < Books::DEBT_LIMIT),
            closed_now ==> final(self).books_of().closed_at() == Some(old(self).clock()),
            !closed_now ==> final(self).books_of().closed_at() == old(self).books_of().closed_at(),
            final(self).books_of().cash_of() == old(self).books_of().cash_of(),
            final(self).books_of().loan_of() == old(self).books_of().loan_of(),
            final(self).books_of().campaign_of() == old(self).books_of().campaign_of(),
            final(self).books_of().reputation_of() == old(self).books_of().reputation_of(),
    {
        let tick = self.tick;
        self.books.check_solvency(tick)
    }

    /// What the park owes the bank.
    pub fn loan(&self) -> (l: Money)
        ensures
            l == self.books_of().loan_of(),
    {
        self.books.loan()
    }

    /// What the park pays the bank each wage bill on what it owes.
    pub fn interest(&self) -> (i: Money)
        requires
            self.wf(),
        ensures
            i == interest_on(self.books_of().loan_of()),
    {
        self.books.interest()
    }

    /// Borrows `amount`, rounded down to whole [`Books::LOAN_STEP`]s, and
    /// returns what the park owes afterwards.
    ///
    /// Fails, changing nothing, if the park is bankrupt, the amount comes to
    /// no whole step, or the loan would pass [`Books::LOAN_LIMIT`].
    pub fn borrow(&mut self, amount: Money) -> (r: Result<Money, MoneyError>)
        requires
            old(self).wf(),
        ensures
            final(self).wf(),
            old(self).differs_only_in(&*final(self), set![Part::Books]),
            old(self).books_of().closed_at() is Some ==> r == Err::<Money, MoneyError>(MoneyError::Bankrupt),
            old(self).books_of().closed_at() is None && in_steps(amount) <= 0 ==> r == Err::<Money, MoneyError>(MoneyError::Nothing),
            old(self).books_of().closed_at() is None && in_steps(amount) > 0 && old(self).books_of().loan_of()
                + in_steps(amount) > Books::LOAN_LIMIT ==> r == Err::<Money, MoneyError>(MoneyError::PastTheLimit),
            r is Err ==> *final(self) == *old(self),
            r is Ok ==> {
                &&& final(self).books_of().loan_of() == old(self).books_of().loan_of() + in_steps(amount)
                &&& r == Ok::<Money, MoneyError>(final(self).books_of().loan_of())
                &&& final(self).books_of().cash_of() == sat_sum(old(self).books_of().cash_of() as int, in_steps(amount))
            },
    {
        self.books.borrow(amount)
    }

    /// Pays `amount` off the loan, and returns what the park still owes.
    ///
    /// Fails, changing nothing, if the amount is nothing, the park does not
    /// owe that much, or it cannot pay it.
    pub fn repay(&mut self, amount: Money) -> (r: Result<Money, MoneyError>)
        requires
            old(self).wf(),
        ensures
            final(self).wf(),
            old(self).differs_only_in(&*final(self), set![Part::Books]),
            amount <= 0 ==> r == Err::<Money, MoneyError>(MoneyError::Nothing),
            amount > 0 && amount > old(self).books_of().loan_of() ==> r == Err::<Money, MoneyError>(MoneyError::OwesLess),
            amount > 0 && amount <= old(self).books_of().loan_of() && old(self).books_of().cash_of() < amount ==> r
                == Err::<Money, MoneyError>(MoneyError::CannotPay),
            r is Err ==> *final(self) == *old(self),
            r is Ok ==> {
                &&& final(self).books_of().loan_of() == old(self).books_of().loan_of() - amount
                &&& r == Ok::<Money, MoneyError>(final(self).books_of().loan_of())
                &&& final(self).books_of().cash_of() == old(self).books_of().cash_of() - amount
            },
    {
        self.books.repay(amount)
    }

    /// The campaign that is running, if one is.
    pub fn campaign(&self) -> (c: Option<Campaign>)
        ensures
            c == self.books_of().campaign_of(),
    {
        self.books.campaign()
    }

    /// Starts a marketing campaign, and pays for it up front.
    ///
    /// Fails, changing nothing, if the park is bankrupt, is already
    /// advertising, or cannot pay.
    pub fn advertise(&mut self) -> (r: Result<(), MoneyError>)
        requires
            old(self).wf(),
        ensures
            final(self).wf(),
            old(self).differs_only_in(&*final(self), set![Part::Books]),
            old(self).books_of().closed_at() is Some ==> r == Err::<(), MoneyError>(MoneyError::Bankrupt),
            old(self).books_of().closed_at() is None && old(self).books_of().campaign_of() is Some ==> r == Err::<(), MoneyError>(MoneyError::AlreadyAdvertising),
            old(self).books_of().closed_at() is None && old(self).books_of().campaign_of() is None
                && old(self).books_of().cash_of() < Campaign::COST ==> r == Err::<(), MoneyError>(MoneyError::CannotPay),
            r is Err ==> *final(self) == *old(self),
            r is Ok ==> {
                &&& final(self).books_of().campaign_of() matches Some(c) && c.left() == Campaign::LENGTH
                &&& final(self).books_of().cash_of() == old(self).books_of().cash_of() - Campaign::COST
                &&& final(self).books_of().loan_of() == old(self).books_of().loan_of()
            },
    {
        self.books.advertise()
    }

    /// What the turnstile is going by: what people think, plus whatever the
    /// advertising is lending the place.
    pub fn regard(&self) -> (r: u32)
        ensures
            r == self.books_of().regard_of(),
    {
        self.books.regard()
    }

    /// Records what people think of the park now, from its latest rating.
    pub fn set_reputation(&mut self, rating: u32)
        requires
            old(self).wf(),
        ensures
            final(self).wf(),
            old(self).differs_only_in(&*final(self), set![Part::Books]),
            final(self).books_of().reputation_of() == rating,
            final(self).books_of().cash_of() == old(self).books_of().cash_of(),
            final(self).books_of().loan_of() == old(self).books_of().loan_of(),
            final(self).books_of().campaign_of() == old(self).books_of().campaign_of(),
            final(self).books_of().closed_at() == old(self).books_of().closed_at(),
    {
        self.books.set_reputation(rating);
    }

    /// Runs the advertising and the interest for one tick; `billing` says
    /// whether a bill falls due on it.
    pub fn keep_the_books(&mut self, billing: bool)
        requires
            old(self).wf(),
        ensures
            final(self).wf(),
            old(self).differs_only_in(&*final(self), set![Part::Books]),
            final(self).books_of().loan_of() == old(self).books_of().loan_of(),
            final(self).books_of().reputation_of() == old(self).books_of().reputation_of(),
            final(self).books_of().closed_at() == old(self).books_of().closed_at(),
            old(self).books_of().campaign_of() is None ==> final(self).books_of().campaign_of() is None,
            old(self).books_of().campaign_of() matches Some(c) ==> (if c.left() <= 1 {
                final(self).books_of().campaign_of() is None
            } else {
                final(self).books_of().campaign_of() matches Some(d) && d.left() == c.left() - 1
            }),
            billing && old(self).books_of().loan_of() > 0 ==> final(self).books_of().cash_of() == sat_sum(
                old(self).books_of().cash_of() as int,
                -interest_on(old(self).books_of().loan_of()),
            ),
            !(billing && old(self).books_of().loan_of() > 0) ==> final(self).books_of().cash_of()
                == old(self).books_of().cash_of(),
    {
        self.books.keep_the_books(billing);
    }
}

/// The wages of the first `n` of `staff`, added up exactly.
pub open spec fn wage_total(staff: Seq<Staff>, n: int) -> int
    decreases n,
{
    if n <= 0 {
        0
    } else {
        wage_total(staff, n - 1) + wage_of(staff[n - 1].kind_of())
    }
}

/// The payroll stops at the most a [`Money`] can count, and is otherwise
/// exactly the wages added up.
proof fn lemma_wages_are_the_total(staff: Seq<Staff>, n: int)
    ensures
        0 <= wage_total(staff, n),
        wages_of(staff, n) == if wage_total(staff, n) > i64::MAX {
            i64::MAX as int
        } else {
            wage_total(staff, n)
        },
    decreases n,
{
    if n > 0 {
        lemma_wages_are_the_total(staff, n - 1);
    }
}

/// Adding somebody to the end of the payroll leaves everybody before them
/// adding up as they did.
proof fn lemma_wage_total_prefix(staff: Seq<Staff>, hand: Staff, n: int)
    requires
        n <= staff.len(),
    ensures
        wage_total(staff.push(hand), n) == wage_total(staff, n),
    decreases n,
{
    if n > 0 {
        lemma_wage_total_prefix(staff, hand, n - 1);
    }
}

/// Taking member `i` off the payroll takes their wage off the total.
proof fn lemma_wage_total_remove(staff: Seq<Staff>, i: int, n: int)
    requires
        0 <= i < staff.len(),
        i < n <= staff.len(),
    ensures
        wage_total(staff.remove(i), n - 1) == wage_total(staff, n) - wage_of(staff[i].kind_of()),
    decreases n,
{
    if n - 1 > i {
        lemma_wage_total_remove(staff, i, n - 1);
        assert(staff.remove(i)[n - 2] == staff[n - 1]);
    } else {
        assert forall|k: int| 0 <= k < i implies staff.remove(i)[k] == staff[k] by {}
        lemma_wage_total_agree(staff.remove(i), staff, i);
    }
}

/// Two payrolls that agree on their first `n` members add up the same over
/// them.
proof fn lemma_wage_total_agree(a: Seq<Staff>, b: Seq<Staff>, n: int)
    requires
        n <= a.len(),
        n <= b.len(),
        forall|k: int| 0 <= k < n ==> a[k] == b[k],
    ensures
        wage_total(a, n) == wage_total(b, n),
    decreases n,
{
    if n > 0 {
        lemma_wage_total_agree(a, b, n - 1);
    }
}

/// Changing one cell changes what the cells cost to keep open by the
/// difference it makes.
proof fn lemma_shop_upkeep_update(cells: Seq<Option<Shop>>, k: int, cell: Option<Shop>, n: int)
    requires
        0 <= k < cells.len(),
        n <= cells.len(),
    ensures
        shop_upkeep_of(cells.update(k, cell), n) == shop_upkeep_of(cells, n) + if k < n {
            cell_upkeep(cell) - cell_upkeep(cells[k])
        } else {
            0
        },
    decreases n,
{
    if n > 0 {
        lemma_shop_upkeep_update(cells, k, cell, n - 1);
    }
}

/// A bill that has not run into the most a [`Money`] can count is exactly
/// the wages, the shops and the rides added up.
proof fn lemma_bill_is_the_total(park: &Park)
    requires
        park.wf(),
        park.bill_of() < i64::MAX,
    ensures
        park.bill_of() == wage_total(park.staff_of(), park.staff_of().len() as int)
            + shop_upkeep_of(park.shops_of().values(), park.shops_of().values().len() as int)
            + ride_upkeep_of(park.rides_of(), park.rides_of().len() as int),
{
    lemma_wages_are_the_total(park.staff_of(), park.staff_of().len() as int);
    lemma_shop_upkeep_owed(park.shops_of().values(), park.shops_of().values().len() as int);
    lemma_ride_upkeep_owed(park.rides_of(), park.rides_of().len() as int);
}

/// Taking somebody on adds their wage to the bill, as long as the bill can
/// still be counted.
pub proof fn hiring_adds_a_wage_to_the_bill(before: &Park, after: &Park, kind: StaffKind)
    requires
        before.wf(),
        after.wf(),
        before.differs_only_in(after, set![Part::Staff, Part::Books, Part::Ids]),
        after.staff_of().len() == before.staff_of().len() + 1,
        after.staff_of().drop_last() == before.staff_of(),
        after.staff_of().last().kind_of() == kind,
        before.bill_of() + wage_of(kind) < i64::MAX,
    ensures
        after.bill_of() == before.bill_of() + wage_of(kind),
{
    let n = before.staff_of().len() as int;
    lemma_bill_is_the_total(before);
    assert(after.staff_of() == before.staff_of().push(after.staff_of().last()));
    lemma_wage_total_prefix(before.staff_of(), after.staff_of().last(), n);
    lemma_wages_are_the_total(after.staff_of(), n + 1);
    lemma_shop_upkeep_owed(after.shops_of().values(), after.shops_of().values().len() as int);
    lemma_ride_upkeep_owed(after.rides_of(), after.rides_of().len() as int);
}

/// Letting somebody go takes their wage off the bill.
pub proof fn firing_takes_a_wage_off_the_bill(before: &Park, after: &Park, i: int)
    requires
        before.wf(),
        after.wf(),
        before.differs_only_in(after, set![Part::Staff]),
        0 <= i < before.staff_of().len(),
        after.staff_of() == before.staff_of().remove(i),
        before.bill_of() < i64::MAX,
    ensures
        after.bill_of() == before.bill_of() - wage_of(before.staff_of()[i].kind_of()),
{
    let n = before.staff_of().len() as int;
    lemma_bill_is_the_total(before);
    lemma_wage_total_remove(before.staff_of(), i, n);
    assert(after.staff_of().len() == n - 1);
    lemma_wages_are_the_total(after.staff_of(), n - 1);
    lemma_wages_are_the_total(before.staff_of(), n);
    lemma_shop_upkeep_owed(after.shops_of().values(), after.shops_of().values().len() as int);
    lemma_ride_upkeep_owed(after.rides_of(), after.rides_of().len() as int);
    let w = wage_of(before.staff_of()[i].kind_of());
    assert(wage_total(after.staff_of(), n - 1) == wage_total(before.staff_of(), n) - w);
    assert(0 <= w);
}

/// A demolished shop takes its upkeep off the bill: the park stops paying to
/// run something it tore down.
pub proof fn demolishing_takes_its_upkeep_off_the_bill(before: &Park, after: &Park, tile: TilePos)
    requires
        before.wf(),
        after.wf(),
        before.differs_only_in(after, set![Part::Shops]),
        before.shop_on(tile) is Some,
        after.shop_on(tile) is None,
        forall|t: TilePos| t != tile ==> #[trigger] after.shop_on(t) == before.shop_on(t),
        before.bill_of() < i64::MAX,
    ensures
        after.bill_of() == before.bill_of() - facility_upkeep(before.shop_on(tile)->0.kind_of()),
{
    lemma_bill_is_the_total(before);
    let g = before.shops_of();
    let h = after.shops_of();
    assert forall|t: TilePos| g.holds(t) && t != tile implies #[trigger] h.at(t) == g.at(t) by {
        assert(after.shop_on(t) == before.shop_on(t));
    }
    crate::park::grid::lemma_same_but_one(g, h, tile);
    let k = crate::park::grid::slot(g.cols(), tile.x as int, tile.y as int);
    crate::park::grid::lemma_slot_in_range(g.cols(), g.rows(), tile.x as int, tile.y as int);
    lemma_shop_upkeep_update(g.values(), k, h.at(tile), g.values().len() as int);
    lemma_wages_are_the_total(after.staff_of(), after.staff_of().len() as int);
    lemma_shop_upkeep_owed(h.values(), h.values().len() as int);
    lemma_ride_upkeep_owed(after.rides_of(), after.rides_of().len() as int);
}

/// No wage is less than nothing, so neither is the payroll.
proof fn lemma_wages_owed(staff: Seq<Staff>, n: int)
    ensures
        0 <= wages_of(staff, n) <= i64::MAX,
    decreases n,
{
    if n > 0 {
        lemma_wages_owed(staff, n - 1);
    }
}

/// No shop costs less than nothing to keep open, nor more than the dearest
/// there is on every cell.
proof fn lemma_shop_upkeep_owed(cells: Seq<Option<Shop>>, n: int)
    ensures
        0 <= shop_upkeep_of(cells, n) <= 30 * (if n < 0 { 0 } else { n }),
    decreases n,
{
    if n > 0 {
        lemma_shop_upkeep_owed(cells, n - 1);
    }
}

/// No ride costs less than nothing to keep in service, nor more than a
/// layout of the dearest pieces there are.
proof fn lemma_ride_upkeep_owed(rides: Seq<Ride>, n: int)
    requires
        n <= rides.len(),
        forall|i: int| 0 <= i < rides.len() ==> (#[trigger] rides[i]).wf(),
    ensures
        0 <= ride_upkeep_of(rides, n) <= 1024 * (if n < 0 { 0 } else { n }),
    decreases n,
{
    if n > 0 {
        lemma_ride_upkeep_owed(rides, n - 1);
        assert(rides[n - 1].wf());
        match rides[n - 1].layout_of() {
            crate::park::Layout::Track(t) => {
                crate::park::track::lemma_sums_bounded(t.laid(), t.laid().len());
            },
            crate::park::Layout::Flat { .. } => {},
        }
    }
}

/// Adding ride `ride` to the end of `rides` leaves the upkeep of the rides
/// before it as it was.
proof fn lemma_ride_upkeep_prefix(rides: Seq<Ride>, ride: Ride, n: int)
    requires
        n <= rides.len(),
    ensures
        ride_upkeep_of(rides.push(ride), n) == ride_upkeep_of(rides, n),
    decreases n,
{
    if n > 0 {
        lemma_ride_upkeep_prefix(rides, ride, n - 1);
    }
}

/// Buying a flat ride adds what that kind of ride costs to run to the bill,
/// as long as the bill can still be counted: a ride that needs no track
/// still has to be kept in service.
pub proof fn a_bought_ride_adds_its_upkeep_to_the_bill(
    before: &Park,
    after: &Park,
    kind: FlatRide,
    corner: TilePos,
)
    requires
        before.wf(),
        after.wf(),
        before.differs_only_in(after, set![Part::Rides, Part::Books, Part::Ids]),
        after.rides_of().len() == before.rides_of().len() + 1,
        after.rides_of().drop_last() == before.rides_of(),
        after.rides_of().last().layout_of() == (Layout::Flat { kind, corner }),
        before.bill_of() + flat_upkeep(kind) < i64::MAX,
    ensures
        after.bill_of() == before.bill_of() + flat_upkeep(kind),
{
    let n = before.rides_of().len() as int;
    lemma_bill_is_the_total(before);
    assert(after.rides_of() == before.rides_of().push(after.rides_of().last()));
    lemma_ride_upkeep_prefix(before.rides_of(), after.rides_of().last(), n);
    lemma_wages_are_the_total(after.staff_of(), after.staff_of().len() as int);
    lemma_shop_upkeep_owed(after.shops_of().values(), after.shops_of().values().len() as int);
    lemma_ride_upkeep_owed(after.rides_of(), after.rides_of().len() as int);
    lemma_ride_upkeep_owed(before.rides_of(), n);
}

/// Every new ride, of track or not, adds what its layout costs to keep in
/// service to the bill, as long as the bill can still be counted.
pub proof fn a_new_ride_adds_its_upkeep_to_the_bill(before: &Park, after: &Park)
    requires
        before.wf(),
        after.wf(),
        before.differs_only_in(after, set![Part::Rides, Part::Books, Part::Ids]),
        after.rides_of().len() == before.rides_of().len() + 1,
        after.rides_of().drop_last() == before.rides_of(),
        before.bill_of() + after.rides_of().last().layout_of().upkeep_spec() < i64::MAX,
    ensures
        after.bill_of() == before.bill_of() + after.rides_of().last().layout_of().upkeep_spec(),
{
    let n = before.rides_of().len() as int;
    lemma_ride_upkeep_owed(after.rides_of(), after.rides_of().len() as int);
    assert(after.rides_of()[n].wf());
    match after.rides_of().last().layout_of() {
        Layout::Track(t) => {
            crate::park::track::lemma_sums_bounded(t.laid(), t.laid().len());
        },
        Layout::Flat { .. } => {},
    }
    lemma_bill_is_the_total(before);
    assert(after.rides_of() == before.rides_of().push(after.rides_of().last()));
    lemma_ride_upkeep_prefix(before.rides_of(), after.rides_of().last(), n);
    lemma_ride_upkeep_owed(after.rides_of(), after.rides_of().len() as int);
    lemma_ride_upkeep_owed(before.rides_of(), n);
}

} // verus!
