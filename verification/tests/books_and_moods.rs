//! Money, goals, the weather and what the crowd is thinking.

use openpark::park::{
    Books, Campaign, MoneyError, Objective, OpenError, Outcome, RideState, TestFailure, Thought,
    Turn, Weather,
};
use openpark::save::{check_version, SaveError, DEFAULT_PATH, FORMAT};
use openpark::text::before;

const EVERY: [Thought; 12] = [
    Thought::LookingAround,
    Thought::Thirsty,
    Thought::Hungry,
    Thought::Bursting,
    Thought::Footsore,
    Thought::Bored,
    Thought::GaveUpQueueing(0),
    Thought::LovedIt(0),
    Thought::Shaken(0),
    Thought::TooDear,
    Thought::Litter,
    Thought::GoingHome,
];

#[test]
fn a_guest_on_the_way_in_is_thinking_of_nothing_much() {
    assert_eq!(Thought::default(), Thought::LookingAround);
    assert!(!Thought::default().is_a_complaint());
}

#[test]
fn everything_has_something_to_say() {
    for thought in EVERY {
        let said = thought.said_about("The Wooden Hill");
        assert!(!said.is_empty(), "{thought:?} says nothing");

        if thought.ride().is_some() {
            assert!(
                said.contains("The Wooden Hill"),
                "{thought:?} is about a ride and does not name it: {said}"
            );
        }
    }
    assert_eq!(Thought::Thirsty.said_about("—"), "I'm thirsty");
    assert_eq!(Thought::LovedIt(0).said_about("The Wooden Hill"), "The Wooden Hill was great");
    assert_eq!(
        Thought::GaveUpQueueing(3).said_about("The Wheel"),
        "The queue for The Wheel is too long"
    );
}

#[test]
fn enjoying_yourself_is_not_a_complaint() {
    assert!(!Thought::LovedIt(0).is_a_complaint());
    assert!(!Thought::LookingAround.is_a_complaint());

    for grumble in [
        Thought::Thirsty,
        Thought::Hungry,
        Thought::Bursting,
        Thought::Footsore,
        Thought::Bored,
        Thought::GaveUpQueueing(0),
        Thought::Shaken(0),
        Thought::TooDear,
        Thought::Litter,
        Thought::GoingHome,
    ] {
        assert!(grumble.is_a_complaint(), "{grumble:?}");
    }
}

#[test]
fn only_the_thoughts_about_a_ride_carry_one() {
    assert_eq!(Thought::GaveUpQueueing(7).ride(), Some(7));
    assert_eq!(Thought::LovedIt(3).ride(), Some(3));
    assert_eq!(Thought::Shaken(1).ride(), Some(1));
    assert_eq!(Thought::Thirsty.ride(), None);
}

#[test]
fn a_park_opens_on_a_fine_day() {
    assert_eq!(Weather::default(), Weather::Sunny);
    assert!(!Weather::default().is_wet());
}

#[test]
fn the_dry_days_are_the_ones_nobody_gets_wet_on() {
    assert!(!Weather::Sunny.is_wet());
    assert!(!Weather::Cloudy.is_wet());
    assert!(Weather::Rain.is_wet());
    assert!(Weather::Storm.is_wet());
    assert_eq!(Weather::Rain.name(), "Raining");
    let sky = Weather::Storm.sky();
    assert_eq!((sky.r, sky.g, sky.b), (0x12, 0x14, 0x18));
}

#[test]
fn a_new_park_has_something_to_do_and_has_not_done_it() {
    let objective = Objective::standard();
    assert_eq!(objective.guests, Objective::GUESTS);
    assert_eq!(objective.by, Objective::DEADLINE);
    assert_eq!(Outcome::default(), Outcome::Pending);
    assert!(!Outcome::default().is_decided());
    assert!(objective.describe().contains("100"));
    assert_eq!(objective.describe(), "100 guests by tick 40000");
}

#[test]
fn filling_the_park_wins_it() {
    let goal = Objective { guests: 3, by: 1_000 };
    assert_eq!(goal.judge(Outcome::Pending, 3, false, 10), Outcome::Won);
    assert_eq!(goal.judge(Outcome::Pending, 2, false, 10), Outcome::Pending);
}

#[test]
fn running_out_of_time_loses_it() {
    let goal = Objective { guests: 120, by: 100 };
    assert_eq!(goal.judge(Outcome::Pending, 5, false, 100), Outcome::Lost);
}

#[test]
fn running_out_of_money_loses_it_without_waiting_for_the_deadline() {
    let goal = Objective::standard();
    assert_eq!(goal.judge(Outcome::Pending, 5, true, 10), Outcome::Lost);
}

#[test]
fn winning_sticks_even_if_the_park_empties_afterwards() {
    let goal = Objective { guests: 2, by: 100 };
    assert_eq!(goal.judge(Outcome::Won, 0, true, 10_000), Outcome::Won);
    assert_eq!(Outcome::Won.name(), "won");
    assert!(Outcome::Lost.is_decided());
}

#[test]
fn a_new_park_owes_nothing_and_advertises_nothing() {
    let books = Books::new();
    assert_eq!(books.cash(), Books::STARTING_CASH);
    assert_eq!(books.loan(), 0);
    assert_eq!(books.interest(), 0);
    assert_eq!(books.campaign(), None);
    assert_eq!(books.regard(), books.reputation(), "nothing lent, nothing added");
}

#[test]
fn borrowing_puts_money_in_the_bank_and_a_debt_on_the_books() {
    let mut books = Books::new();
    let before = books.cash();

    assert_eq!(books.borrow(Books::LOAN_STEP), Ok(Books::LOAN_STEP));
    assert_eq!(books.cash(), before + Books::LOAN_STEP);
    assert_eq!(books.loan(), Books::LOAN_STEP);
    assert!(books.interest() > 0, "the bank lends for nothing");
    assert_eq!(books.interest(), 20);
}

#[test]
fn a_loan_is_borrowed_in_whole_steps() {
    let mut books = Books::new();
    assert_eq!(books.borrow(2_500), Ok(2_000));
    assert_eq!(books.borrow(999), Err(MoneyError::Nothing));
}

#[test]
fn the_bank_has_a_limit_and_will_not_lend_nothing() {
    let mut books = Books::new();

    books.borrow(Books::LOAN_LIMIT).unwrap();
    assert_eq!(books.loan(), Books::LOAN_LIMIT);
    assert_eq!(books.borrow(Books::LOAN_STEP), Err(MoneyError::PastTheLimit));
    assert_eq!(books.borrow(0), Err(MoneyError::Nothing));
    assert_eq!(books.borrow(-500), Err(MoneyError::Nothing));
}

#[test]
fn paying_a_loan_off_takes_it_out_of_the_bank() {
    let mut books = Books::new();
    books.borrow(Books::LOAN_STEP * 2).unwrap();
    let flush = books.cash();

    assert_eq!(books.repay(Books::LOAN_STEP), Ok(Books::LOAN_STEP));
    assert_eq!(books.cash(), flush - Books::LOAN_STEP);
    assert_eq!(books.repay(Books::LOAN_STEP * 5), Err(MoneyError::OwesLess));
}

#[test]
fn a_park_cannot_pay_off_a_loan_it_cannot_afford() {
    let mut books = Books::new();
    books.borrow(Books::LOAN_STEP).unwrap();
    books.adjust_cash(-books.cash());

    assert_eq!(books.repay(Books::LOAN_STEP), Err(MoneyError::CannotPay));
    assert_eq!(books.loan(), Books::LOAN_STEP, "it owes what it owed");
}

#[test]
fn interest_comes_out_at_every_bill() {
    let mut books = Books::new();
    books.borrow(Books::LOAN_LIMIT).unwrap();
    let owed = books.interest();
    assert!(owed > 0);

    let before = books.cash();
    books.keep_the_books(false);
    assert_eq!(books.cash(), before, "charged between bills");
    books.keep_the_books(true);
    assert_eq!(books.cash(), before - owed);
    assert_eq!(books.loan(), Books::LOAN_LIMIT, "the debt paid itself off");
}

#[test]
fn the_bank_will_not_lend_to_a_park_it_has_closed() {
    let mut books = Books::new();
    books.adjust_cash(Books::DEBT_LIMIT * 2 - books.cash());
    assert!(books.check_solvency(1_200));
    assert_eq!(books.bankrupt_since(), Some(1_200));
    assert!(!books.check_solvency(2_400), "closed twice");
    assert_eq!(books.bankrupt_since(), Some(1_200));

    books.adjust_cash(100_000);
    assert_eq!(books.borrow(Books::LOAN_STEP), Err(MoneyError::Bankrupt));
    assert_eq!(books.advertise(), Err(MoneyError::Bankrupt));
    assert_eq!(books.spend(50), Err(MoneyError::Bankrupt));
    assert!(books.check_solvency(3_600) == false && books.is_bankrupt());
}

#[test]
fn advertising_costs_money_and_runs_out() {
    let mut books = Books::new();
    let before = books.cash();

    books.advertise().expect("it should start");
    assert_eq!(books.cash(), before - Campaign::COST);
    assert!(books.campaign().is_some_and(|campaign| campaign.is_running()));
    assert_eq!(books.advertise(), Err(MoneyError::AlreadyAdvertising));

    for _ in 0..=Campaign::LENGTH {
        books.keep_the_books(false);
    }
    assert_eq!(books.campaign(), None, "the campaign never ended");
}

#[test]
fn advertising_lends_the_park_a_reputation_it_has_not_earned() {
    let mut books = Books::new();
    books.set_reputation(400);
    let honest = books.regard();

    books.advertise().unwrap();
    assert!(books.regard() > honest, "the advertising bought nothing");
    assert_eq!(books.regard(), 750);
    books.set_reputation(900);
    assert_eq!(books.regard(), Books::BEST, "past the best there is");
}

#[test]
fn cash_saturates_instead_of_wrapping() {
    let mut books = Books::new();
    books.adjust_cash(i64::MAX);
    books.adjust_cash(i64::MAX);
    assert_eq!(books.cash(), i64::MAX);

    books.adjust_cash(i64::MIN);
    books.adjust_cash(i64::MIN);
    assert_eq!(books.cash(), i64::MIN);
}

#[test]
fn the_bills_come_out_of_the_bank() {
    let mut books = Books::new();
    books.pay_the_bills(40);
    assert_eq!(books.cash(), Books::STARTING_CASH - 40);
    assert_eq!(books.spend(Books::STARTING_CASH), Err(MoneyError::CannotPay));
    assert_eq!(books.spend(60), Ok(()));
    assert_eq!(books.cash(), Books::STARTING_CASH - 100);
}

#[test]
fn a_campaign_counts_down() {
    let mut campaign = Campaign::new();
    assert_eq!(campaign.ticks_left(), Campaign::LENGTH);
    campaign.tick();
    assert_eq!(campaign.ticks_left(), Campaign::LENGTH - 1);
}

#[test]
fn a_failed_test_says_why() {
    assert_eq!(TestFailure::NoStation.why(), "there is nowhere for guests to get on");
    assert!(TestFailure::Stalled.why().contains("stalled"));
}

#[test]
fn a_broken_ride_stops_and_cannot_open_until_it_is_fixed() {
    assert_eq!(RideState::default(), RideState::Building);
    assert_eq!(RideState::Building.open(false), Err(OpenError::Untested));
    assert_eq!(RideState::Broken.open(true), Err(OpenError::Broken));
    assert_eq!(RideState::Broken.repair(), RideState::Closed);
    assert_eq!(RideState::Broken.repair().open(true), Ok(RideState::Open));
    assert_eq!(RideState::Open.repair(), RideState::Open);
}

#[test]
fn a_save_from_another_version_is_refused_rather_than_half_read() {
    assert_eq!(check_version(FORMAT), Ok(()));
    assert_eq!(check_version(FORMAT + 1), Err(SaveError::WrongVersion(FORMAT + 1)));
    assert_eq!(DEFAULT_PATH, "openpark.save.json");
}

#[test]
fn the_crowd_is_heard_most_often_first() {
    let thoughts = [
        Thought::Hungry,
        Thought::LovedIt(2),
        Thought::Thirsty,
        Thought::Hungry,
        Thought::LookingAround,
        Thought::Thirsty,
        Thought::Hungry,
        Thought::Litter,
    ];
    let said = openpark::park::thought::complaints(&thoughts);
    // Thirsty and Hungry are complaints the crowd repeats; enjoying a ride and
    // looking around are not complaints at all. Ties go by name.
    assert_eq!(
        said,
        vec![(Thought::Hungry, 3), (Thought::Thirsty, 2), (Thought::Litter, 1)]
    );
}

#[test]
fn a_tie_is_broken_the_same_way_every_time() {
    let one = openpark::park::thought::complaints(&[Thought::Shaken(10), Thought::Shaken(9), Thought::Bored]);
    let two = openpark::park::thought::complaints(&[Thought::Bored, Thought::Shaken(9), Thought::Shaken(10)]);
    assert_eq!(one, two);
    // By name, so a ride numbered ten comes before one numbered nine.
    assert_eq!(
        one,
        vec![(Thought::Bored, 1), (Thought::Shaken(10), 1), (Thought::Shaken(9), 1)]
    );
}

#[test]
fn a_thought_goes_by_its_kind_and_its_ride() {
    assert_eq!(Thought::Thirsty.label(), "Thirsty");
    assert_eq!(Thought::GaveUpQueueing(12).label(), "GaveUpQueueing(12)");
}

#[test]
fn text_sorts_character_by_character() {
    assert!(before("Bored", "Bursting"));
    assert!(!before("Bursting", "Bored"));
    assert!(before("Shaken", "Shaken(1)"), "a prefix sorts first");
    assert!(!before("Same", "Same"));
}

#[test]
fn the_weather_moves_a_step_at_a_time() {
    assert_eq!(Weather::Sunny.next(Turn::Worse), Weather::Cloudy);
    assert_eq!(Weather::Storm.next(Turn::Worse), Weather::Storm);
    assert_eq!(Weather::Storm.next(Turn::Better), Weather::Rain);
    assert_eq!(Weather::Sunny.next(Turn::Better), Weather::Sunny);
    assert_eq!(Weather::Rain.next(Turn::Holds), Weather::Rain);
}

#[test]
fn a_default_campaign_has_just_started() {
    let campaign = Campaign::default();
    assert_eq!(campaign.ticks_left(), Campaign::LENGTH);
    assert!(campaign.is_running());
}
