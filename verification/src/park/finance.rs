//! The books: what the park is paid, what it pays, what it owes, and when it
//! runs out.
//!
//! Money is the part of a park that is not about tiles at all, so it sits apart
//! from the land and the crowd. Everything here either moves the bank balance
//! or decides what that balance means — including the one decision a park
//! cannot come back from.

use vstd::prelude::*;

use crate::park::money::{add_saturating, sat_sum, sub_saturating};
use crate::park::Money;

verus! {

/// A marketing campaign: how long it has left to run.
#[derive(Debug, Clone, Copy, PartialEq, Eq, Structural)]
pub struct Campaign {
    /// How many ticks of it are left.
    ticks_left: u64,
}

impl Default for Campaign {
    /// A campaign that has just started.
    fn default() -> (c: Self)
        ensures
            c.left() == Self::LENGTH,
    {
        Campaign::new()
    }
}

impl Campaign {
    /// What one campaign costs to start.
    pub const COST: Money = 800;

    /// How long one runs for.
    pub const LENGTH: u64 = 6_000;

    /// How much of a reputation a campaign lends a park while it runs.
    pub const BORROWED_REGARD: u32 = 350;

    /// How many ticks it has left.
    pub closed spec fn left(self) -> u64 {
        self.ticks_left
    }

    /// A campaign that has just started.
    pub fn new() -> (c: Self)
        ensures
            c.left() == Self::LENGTH,
    {
        Campaign { ticks_left: Self::LENGTH }
    }

    /// A campaign with `ticks_left` to run, as it was written down.
    pub fn restore(ticks_left: u64) -> (c: Self)
        ensures
            c.left() == ticks_left,
    {
        Campaign { ticks_left }
    }

    /// How many ticks it has left.
    pub fn ticks_left(&self) -> (n: u64)
        ensures
            n == self.left(),
    {
        self.ticks_left
    }

    /// Whether it is still running.
    pub fn is_running(&self) -> (b: bool)
        ensures
            b == (self.left() > 0),
    {
        self.ticks_left > 0
    }

    /// Runs it for one tick.
    pub fn tick(&mut self)
        ensures
            final(self).left() == if old(self).left() == 0 {
                0
            } else {
                (old(self).left() - 1) as u64
            },
    {
        self.ticks_left = self.ticks_left.saturating_sub(1);
    }
}

/// Why the bank, or the till, said no.
#[derive(Debug, Clone, Copy, PartialEq, Eq, Structural)]
pub enum MoneyError {
    /// The park is bankrupt: the bank lends it nothing and it buys nothing.
    Bankrupt,
    /// An amount of nothing, or less than nothing.
    Nothing,
    /// The loan would go past [`Books::LOAN_LIMIT`].
    PastTheLimit,
    /// The park does not owe that much.
    OwesLess,
    /// The park does not have that much in the bank.
    CannotPay,
    /// A campaign is already running.
    AlreadyAdvertising,
}

/// The park's money: the bank balance, the loan, the advertising, what people
/// think of the place, and whether the bank has closed it.
#[derive(Debug, Clone, Copy, PartialEq, Eq, Structural)]
pub struct Books {
    cash: Money,
    loan: Money,
    campaign: Option<Campaign>,
    reputation: u32,
    bankrupt_since: Option<u64>,
}

/// What the bank charges on `loan` for one wage bill.
pub open spec fn interest_on(loan: Money) -> int {
    loan * Books::INTEREST / 100
}

/// `amount` rounded down to whole loan steps.
pub open spec fn in_steps(amount: Money) -> int {
    (amount / Books::LOAN_STEP) * Books::LOAN_STEP
}

impl Books {
    /// What a new park starts with in the bank.
    pub const STARTING_CASH: Money = 10_000;

    /// How far into debt a park is allowed to go before the bank closes it.
    pub const DEBT_LIMIT: Money = -5_000;

    /// The most a park can owe the bank.
    pub const LOAN_LIMIT: Money = 20_000;

    /// How much a loan can be moved by at a time.
    pub const LOAN_STEP: Money = 1_000;

    /// What the bank charges on the outstanding loan, per wage bill, in
    /// hundredths.
    pub const INTEREST: Money = 2;

    /// The best a park can be rated.
    pub const BEST: u32 = 1_000;

    /// How much money is in the bank.
    pub closed spec fn cash_of(self) -> Money {
        self.cash
    }

    /// What the park owes the bank.
    pub closed spec fn loan_of(self) -> Money {
        self.loan
    }

    /// The campaign that is running, if one is.
    pub closed spec fn campaign_of(self) -> Option<Campaign> {
        self.campaign
    }

    /// What people think of the park, from its last rating.
    pub closed spec fn reputation_of(self) -> u32 {
        self.reputation
    }

    /// When the bank closed the park, if it has.
    pub closed spec fn closed_at(self) -> Option<u64> {
        self.bankrupt_since
    }

    /// The loan is somewhere between nothing and the limit.
    pub open spec fn wf(self) -> bool {
        0 <= self.loan_of() <= Self::LOAN_LIMIT
    }

    /// The books as they were written down.
    ///
    /// `None` if the loan is more than the bank lends, or less than nothing.
    pub fn restore(
        cash: Money,
        loan: Money,
        campaign: Option<Campaign>,
        reputation: u32,
        bankrupt_since: Option<u64>,
    ) -> (b: Option<Self>)
        ensures
            b is Some <==> 0 <= loan <= Self::LOAN_LIMIT,
            b matches Some(b) ==> {
                &&& b.wf()
                &&& b.cash_of() == cash
                &&& b.loan_of() == loan
                &&& b.campaign_of() == campaign
                &&& b.reputation_of() == reputation
                &&& b.closed_at() == bankrupt_since
            },
    {
        if loan < 0 || loan > Self::LOAN_LIMIT {
            return None;
        }
        Some(Books { cash, loan, campaign, reputation, bankrupt_since })
    }

    /// The books of a park that has just opened: the starting money, no debt,
    /// no advertising, no reputation, and the bank happy.
    pub fn new() -> (b: Self)
        ensures
            b.wf(),
            b.cash_of() == Self::STARTING_CASH,
            b.loan_of() == 0,
            b.campaign_of() is None,
            b.reputation_of() == 0,
            b.closed_at() is None,
    {
        Books {
            cash: Self::STARTING_CASH,
            loan: 0,
            campaign: None,
            reputation: 0,
            bankrupt_since: None,
        }
    }

    /// How much money is in the bank.
    pub fn cash(&self) -> (c: Money)
        ensures
            c == self.cash_of(),
    {
        self.cash
    }

    /// What the park owes the bank.
    pub fn loan(&self) -> (l: Money)
        ensures
            l == self.loan_of(),
    {
        self.loan
    }

    /// The campaign that is running, if one is.
    pub fn campaign(&self) -> (c: Option<Campaign>)
        ensures
            c == self.campaign_of(),
    {
        self.campaign
    }

    /// What people think of the park, from its last rating.
    pub fn reputation(&self) -> (r: u32)
        ensures
            r == self.reputation_of(),
    {
        self.reputation
    }

    /// Records what people think of the park now.
    pub fn set_reputation(&mut self, rating: u32)
        ensures
            final(self).reputation_of() == rating,
            final(self).cash_of() == old(self).cash_of(),
            final(self).loan_of() == old(self).loan_of(),
            final(self).campaign_of() == old(self).campaign_of(),
            final(self).closed_at() == old(self).closed_at(),
    {
        self.reputation = rating;
    }

    /// Whether the bank has closed the park.
    pub fn is_bankrupt(&self) -> (b: bool)
        ensures
            b == self.closed_at() is Some,
    {
        self.bankrupt_since.is_some()
    }

    /// When the park went bankrupt, if it has.
    pub fn bankrupt_since(&self) -> (t: Option<u64>)
        ensures
            t == self.closed_at(),
    {
        self.bankrupt_since
    }

    /// Adds to or subtracts from the bank balance, stopping at the ends of the
    /// range rather than wrapping.
    pub fn adjust_cash(&mut self, amount: Money)
        ensures
            final(self).cash_of() == sat_sum(old(self).cash_of() as int, amount as int),
            final(self).loan_of() == old(self).loan_of(),
            final(self).campaign_of() == old(self).campaign_of(),
            final(self).reputation_of() == old(self).reputation_of(),
            final(self).closed_at() == old(self).closed_at(),
    {
        self.cash = add_saturating(self.cash, amount);
    }

    /// What the park pays the bank each wage bill on what it owes.
    pub fn interest(&self) -> (i: Money)
        requires
            self.wf(),
        ensures
            i == interest_on(self.loan_of()),
    {
        self.loan * Self::INTEREST / 100
    }

    /// Borrows `amount`, rounded down to whole [`Books::LOAN_STEP`]s, and
    /// returns what the park owes afterwards.
    ///
    /// Fails if the park is bankrupt, if the amount comes to no whole step, or
    /// if the loan would pass [`Books::LOAN_LIMIT`].
    pub fn borrow(&mut self, amount: Money) -> (r: Result<Money, MoneyError>)
        requires
            old(self).wf(),
        ensures
            final(self).wf(),
            old(self).closed_at() is Some ==> r == Err::<Money, MoneyError>(MoneyError::Bankrupt),
            old(self).closed_at() is None && in_steps(amount) <= 0 ==> r == Err::<
                Money,
                MoneyError,
            >(MoneyError::Nothing),
            old(self).closed_at() is None && in_steps(amount) > 0 && old(self).loan_of()
                + in_steps(amount) > Self::LOAN_LIMIT ==> r == Err::<Money, MoneyError>(
                MoneyError::PastTheLimit,
            ),
            r is Err ==> *final(self) == *old(self),
            r is Ok ==> {
                &&& old(self).closed_at() is None
                &&& in_steps(amount) > 0
                &&& final(self).loan_of() == old(self).loan_of() + in_steps(amount)
                &&& r == Ok::<Money, MoneyError>(final(self).loan_of())
                &&& final(self).cash_of() == sat_sum(
                    old(self).cash_of() as int,
                    in_steps(amount),
                )
                &&& final(self).campaign_of() == old(self).campaign_of()
                &&& final(self).reputation_of() == old(self).reputation_of()
                &&& final(self).closed_at() == old(self).closed_at()
            },
    {
        if self.bankrupt_since.is_some() {
            return Err(MoneyError::Bankrupt);
        }
        let amount = (amount / Self::LOAN_STEP) * Self::LOAN_STEP;
        if amount <= 0 {
            return Err(MoneyError::Nothing);
        }
        if amount > Self::LOAN_LIMIT - self.loan {
            return Err(MoneyError::PastTheLimit);
        }
        self.loan = self.loan + amount;
        self.adjust_cash(amount);
        Ok(self.loan)
    }

    /// Pays `amount` off the loan, and returns what the park still owes.
    ///
    /// Fails if the amount is nothing, if the park does not owe that much, or
    /// if it cannot pay it.
    pub fn repay(&mut self, amount: Money) -> (r: Result<Money, MoneyError>)
        requires
            old(self).wf(),
        ensures
            final(self).wf(),
            amount <= 0 ==> r == Err::<Money, MoneyError>(MoneyError::Nothing),
            amount > 0 && amount > old(self).loan_of() ==> r == Err::<Money, MoneyError>(
                MoneyError::OwesLess,
            ),
            amount > 0 && amount <= old(self).loan_of() && old(self).cash_of() < amount ==> r
                == Err::<Money, MoneyError>(MoneyError::CannotPay),
            r is Err ==> *final(self) == *old(self),
            r is Ok ==> {
                &&& 0 < amount <= old(self).loan_of()
                &&& old(self).cash_of() >= amount
                &&& final(self).loan_of() == old(self).loan_of() - amount
                &&& r == Ok::<Money, MoneyError>(final(self).loan_of())
                &&& final(self).cash_of() == old(self).cash_of() - amount
                &&& final(self).campaign_of() == old(self).campaign_of()
                &&& final(self).reputation_of() == old(self).reputation_of()
                &&& final(self).closed_at() == old(self).closed_at()
            },
    {
        if amount <= 0 {
            return Err(MoneyError::Nothing);
        }
        if amount > self.loan {
            return Err(MoneyError::OwesLess);
        }
        if self.cash < amount {
            return Err(MoneyError::CannotPay);
        }
        self.loan = self.loan - amount;
        self.cash = self.cash - amount;
        Ok(self.loan)
    }

    /// Whether the park could pay `cost` for something right now.
    pub open spec fn affords(self, cost: Money) -> Result<(), MoneyError> {
        if self.closed_at() is Some {
            Err(MoneyError::Bankrupt)
        } else if self.cash_of() < cost {
            Err(MoneyError::CannotPay)
        } else {
            Ok(())
        }
    }

    /// Whether the park could pay `cost` for something: a bankrupt park buys
    /// nothing, and no park buys what it cannot pay for.
    pub fn can_afford(&self, cost: Money) -> (r: Result<(), MoneyError>)
        ensures
            r == self.affords(cost),
    {
        if self.bankrupt_since.is_some() {
            return Err(MoneyError::Bankrupt);
        }
        if self.cash < cost {
            return Err(MoneyError::CannotPay);
        }
        Ok(())
    }

    /// Pays `cost` for something, if the park can.
    pub fn spend(&mut self, cost: Money) -> (r: Result<(), MoneyError>)
        ensures
            r == old(self).affords(cost),
            r is Err ==> *final(self) == *old(self),
            r is Ok ==> final(self).cash_of() == sat_sum(old(self).cash_of() as int, -(cost as int))
                && final(self).loan_of() == old(self).loan_of() && final(self).campaign_of()
                == old(self).campaign_of() && final(self).reputation_of() == old(
                self,
            ).reputation_of() && final(self).closed_at() == old(self).closed_at(),
    {
        self.can_afford(cost)?;
        self.cash = sub_saturating(self.cash, cost);
        Ok(())
    }

    /// Starts a marketing campaign, and pays for it up front.
    ///
    /// Fails if the park is bankrupt, is already advertising, or cannot pay.
    pub fn advertise(&mut self) -> (r: Result<(), MoneyError>)
        ensures
            old(self).closed_at() is Some ==> r == Err::<(), MoneyError>(MoneyError::Bankrupt),
            old(self).closed_at() is None && old(self).campaign_of() is Some ==> r == Err::<
                (),
                MoneyError,
            >(MoneyError::AlreadyAdvertising),
            old(self).closed_at() is None && old(self).campaign_of() is None && old(self).cash_of()
                < Campaign::COST ==> r == Err::<(), MoneyError>(MoneyError::CannotPay),
            r is Err ==> *final(self) == *old(self),
            r is Ok ==> {
                &&& old(self).closed_at() is None
                &&& old(self).campaign_of() is None
                &&& old(self).cash_of() >= Campaign::COST
                &&& final(self).campaign_of() matches Some(c) && c.left() == Campaign::LENGTH
                &&& final(self).cash_of() == old(self).cash_of() - Campaign::COST
                &&& final(self).loan_of() == old(self).loan_of()
                &&& final(self).reputation_of() == old(self).reputation_of()
                &&& final(self).closed_at() == old(self).closed_at()
            },
    {
        if self.bankrupt_since.is_some() {
            return Err(MoneyError::Bankrupt);
        }
        if self.campaign.is_some() {
            return Err(MoneyError::AlreadyAdvertising);
        }
        if self.cash < Campaign::COST {
            return Err(MoneyError::CannotPay);
        }
        self.campaign = Some(Campaign::new());
        self.cash = self.cash - Campaign::COST;
        Ok(())
    }

    /// What the turnstile is going by: what people think, plus whatever the
    /// advertising is lending the place, never past [`Books::BEST`].
    pub open spec fn regard_of(self) -> int {
        let borrowed = if self.campaign_of() is Some {
            Campaign::BORROWED_REGARD as int
        } else {
            0
        };
        if self.reputation_of() + borrowed > Self::BEST {
            Self::BEST as int
        } else {
            self.reputation_of() + borrowed
        }
    }

    /// What the turnstile is going by: what people think, plus whatever the
    /// advertising is lending the place.
    pub fn regard(&self) -> (r: u32)
        ensures
            r == self.regard_of(),
    {
        let borrowed: u64 = if self.campaign.is_some() {
            Campaign::BORROWED_REGARD as u64
        } else {
            0
        };
        let total = self.reputation as u64 + borrowed;
        if total > Self::BEST as u64 {
            Self::BEST
        } else {
            total as u32
        }
    }

    /// Runs the advertising and the interest for one tick.
    ///
    /// The interest is only charged when a bill falls due; `billing` says
    /// whether this is that tick.
    pub fn keep_the_books(&mut self, billing: bool)
        requires
            old(self).wf(),
        ensures
            final(self).wf(),
            final(self).loan_of() == old(self).loan_of(),
            final(self).reputation_of() == old(self).reputation_of(),
            final(self).closed_at() == old(self).closed_at(),
            old(self).campaign_of() is None ==> final(self).campaign_of() is None,
            old(self).campaign_of() matches Some(c) ==> (if c.left() <= 1 {
                final(self).campaign_of() is None
            } else {
                final(self).campaign_of() matches Some(d) && d.left() == c.left() - 1
            }),
            billing && old(self).loan_of() > 0 ==> final(self).cash_of() == sat_sum(
                old(self).cash_of() as int,
                -interest_on(old(self).loan_of()),
            ),
            !(billing && old(self).loan_of() > 0) ==> final(self).cash_of() == old(self).cash_of(),
    {
        match self.campaign {
            Some(mut campaign) => {
                campaign.tick();
                if campaign.is_running() {
                    self.campaign = Some(campaign);
                } else {
                    self.campaign = None;
                }
            },
            None => {},
        }
        if billing && self.loan > 0 {
            let interest = self.interest();
            self.adjust_cash(-interest);
        }
    }

    /// Pays a wage bill of `bill`.
    pub fn pay_the_bills(&mut self, bill: Money)
        requires
            bill >= 0,
        ensures
            final(self).cash_of() == sat_sum(old(self).cash_of() as int, -(bill as int)),
            final(self).loan_of() == old(self).loan_of(),
            final(self).campaign_of() == old(self).campaign_of(),
            final(self).reputation_of() == old(self).reputation_of(),
            final(self).closed_at() == old(self).closed_at(),
    {
        if bill == 0 {
            return;
        }
        self.adjust_cash(-bill);
    }

    /// Closes the park if it has run past [`Books::DEBT_LIMIT`], as of `tick`.
    ///
    /// Returns whether it has just been closed, which is the caller's cue to
    /// send everybody home. Bankruptcy is one-way: there is no coming back from
    /// it inside a game, only starting another park.
    pub fn check_solvency(&mut self, tick: u64) -> (closed_now: bool)
        ensures
            closed_now == (old(self).closed_at() is None && old(self).cash_of() < Self::DEBT_LIMIT),
            closed_now ==> final(self).closed_at() == Some(tick),
            !closed_now ==> final(self).closed_at() == old(self).closed_at(),
            final(self).cash_of() == old(self).cash_of(),
            final(self).loan_of() == old(self).loan_of(),
            final(self).campaign_of() == old(self).campaign_of(),
            final(self).reputation_of() == old(self).reputation_of(),
    {
        if self.bankrupt_since.is_some() || self.cash >= Self::DEBT_LIMIT {
            return false;
        }
        self.bankrupt_since = Some(tick);
        true
    }
}

/// Borrowing and paying the same back again leaves the park owing what it
/// owed, with the money it had, as long as the bank balance was nowhere near
/// the end of the range.
pub proof fn paying_back_a_loan_undoes_it(start: Books, borrowed: Books, repaid: Books, amount: Money)
    requires
        start.wf(),
        in_steps(amount) > 0,
        borrowed.loan_of() == start.loan_of() + in_steps(amount),
        borrowed.cash_of() == sat_sum(start.cash_of() as int, in_steps(amount)),
        start.cash_of() + in_steps(amount) <= i64::MAX,
        repaid.loan_of() == borrowed.loan_of() - in_steps(amount),
        repaid.cash_of() == borrowed.cash_of() - in_steps(amount),
    ensures
        repaid.loan_of() == start.loan_of(),
        repaid.cash_of() == start.cash_of(),
{
}

/// Bankruptcy is one-way: a park the bank has closed stays closed through
/// every check, and from the moment it closed it can neither borrow, nor
/// advertise, nor buy anything.
pub proof fn bankruptcy_is_for_good(books: Books, cost: Money)
    requires
        books.closed_at() is Some,
    ensures
        books.affords(cost) == Err::<(), MoneyError>(MoneyError::Bankrupt),
{
}

/// The turnstile never goes by a better reputation than the best there is, and a
/// campaign never makes it think worse of a park.
pub proof fn regard_is_capped(books: Books)
    requires
        books.reputation_of() <= Books::BEST,
    ensures
        books.reputation_of() <= books.regard_of() <= Books::BEST,
{
}

/// Two sets of books that agree on the money, the loan, the advertising,
/// the reputation and the bank's patience are the same books.
pub proof fn books_alike(a: Books, b: Books)
    requires
        a.cash_of() == b.cash_of(),
        a.loan_of() == b.loan_of(),
        a.campaign_of() == b.campaign_of(),
        a.reputation_of() == b.reputation_of(),
        a.closed_at() == b.closed_at(),
    ensures
        a == b,
{
}

/// The bank charges [`Books::INTEREST`] hundredths of the whole loan each
/// bill, rounded down: a hundred times the charge comes to at most the rate
/// times the loan, and falls short of it by less than a hundred. So the
/// charge grows with the loan: a loan of `k` whole steps costs `k` times
/// what one step does.
pub proof fn interest_is_charged_on_the_whole_loan(loan: Money, k: int)
    requires
        0 <= k,
        k * Books::LOAN_STEP <= i64::MAX,
    ensures
        interest_on(loan) * 100 <= loan * Books::INTEREST < interest_on(loan) * 100 + 100,
        interest_on((k * Books::LOAN_STEP) as Money) == k * interest_on(Books::LOAN_STEP),
{
    let x = loan * Books::INTEREST;
    vstd::arithmetic::div_mod::lemma_fundamental_div_mod(x, 100);
    vstd::arithmetic::div_mod::lemma_mod_bound(x, 100);
    assert(interest_on(Books::LOAN_STEP) == 20);
    assert((k * Books::LOAN_STEP) * Books::INTEREST == 100 * (k * 20));
    vstd::arithmetic::div_mod::lemma_div_multiples_vanish(k * 20, 100);
}

} // verus!
