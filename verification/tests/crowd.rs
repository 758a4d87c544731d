//! Where guests are going, and the lines they stand in on the way.

use openpark::park::crowd::{
    nearest_first, wanted_goal, what_it_wants, Urges, Wanted, FACILITY_ATTEMPTS, PATH_ATTEMPTS,
};
use openpark::park::land::crossroads;
use openpark::park::lines::{
    board_the_front, clear_out_the_line, find_guest, forget_lost_rides, give_up_waiting,
    join_the_line, let_off_the_riders, send_the_line_away, show_out_the_guests, standing_place,
};
use openpark::park::{
    Facility, Footing, Land, Park, Plan, Queue, Route, RouteError, Shop, TilePos, Visit,
};

/// A guest standing on `at`, in no hurry, with `money` to spend.
fn guest(id: u32, at: TilePos, money: i64) -> Visit {
    Visit::arriving(id, at, money)
}

/// A guest standing on `at` in the line for `ride` since `since`.
fn queueing(id: u32, at: TilePos, ride: u32, since: u64) -> Visit {
    let mut v = guest(id, at, 100);
    v.decide(Plan::Queueing { ride, station: TilePos::new(0, 0), since });
    v
}

/// A queue holding `ids`, front first.
fn line_of(ids: &[u32]) -> Queue {
    let mut q = Queue::new();
    for id in ids {
        assert!(q.join(*id));
    }
    q
}

#[test]
fn a_route_must_start_where_the_guest_is() {
    let mut guest = Visit::arriving(1, TilePos::new(0, 0), 100);
    assert!(guest.follow(vec![]).is_err());
    assert!(guest.follow(vec![TilePos::new(5, 5)]).is_err());
    assert!(guest.follow(vec![TilePos::new(0, 0)]).is_ok());
}

#[test]
fn a_route_has_to_start_where_the_walker_is() {
    let mut walk = Route::standing_at(TilePos::origin());
    assert!(walk.follow(Vec::new()).is_err(), "an empty route");
    assert!(
        walk.follow(vec![TilePos::new(5, 5), TilePos::new(5, 6)])
            .is_err(),
        "a route that starts somewhere else"
    );
    assert!(walk
        .follow(vec![TilePos::origin(), TilePos::new(0, 1)])
        .is_ok());
}

#[test]
fn a_refused_route_says_why() {
    let mut walk = Route::standing_at(TilePos::new(2, 2));
    assert_eq!(walk.follow(Vec::new()), Err(RouteError::Empty));
    assert_eq!(
        walk.follow(vec![TilePos::new(3, 2)]),
        Err(RouteError::Elsewhere)
    );
    assert_eq!(RouteError::Empty.why(), "nobody can follow an empty route");
    assert_eq!(walk.tile(), TilePos::new(2, 2), "a refusal leaves it standing");
    assert!(walk.is_idle());
}

#[test]
fn a_guest_arrives_meaning_to_look_around() {
    let guest = Visit::arriving(1, TilePos::origin(), 100);
    assert_eq!(guest.plan(), Plan::Wandering);
    assert!(!guest.is_going_home());
}

#[test]
fn a_guest_who_has_decided_to_leave_cannot_be_talked_out_of_it() {
    let mut guest = Visit::arriving(1, TilePos::origin(), 100);
    guest.decide(Plan::GoingHome);
    assert!(guest.is_going_home());

    guest.decide(Plan::Wandering);
    assert!(guest.is_going_home());
}

#[test]
fn a_plan_knows_which_facility_it_is_about() {
    let tile = TilePos::new(3, 4);
    assert_eq!(Plan::Wandering.facility(), None);
    assert_eq!(Plan::GoingHome.facility(), None);
    assert_eq!(Plan::Visiting { facility: tile }.facility(), Some(tile));
    assert_eq!(
        Plan::Using {
            facility: tile,
            until: 10
        }
        .facility(),
        Some(tile)
    );
}

#[test]
fn a_plan_knows_which_ride_it_is_about() {
    assert_eq!(Plan::Riding { ride: 4 }.ride(), Some(4));
    assert_eq!(
        Plan::Queueing {
            ride: 7,
            station: TilePos::new(1, 1),
            since: 3
        }
        .ride(),
        Some(7)
    );
    assert_eq!(Plan::Wandering.ride(), None);
}

#[test]
fn walking_a_route_steps_from_tile_to_tile_and_stops_at_the_end() {
    let start = TilePos::origin();
    let mut walk = Route::standing_at(start);
    walk.follow(vec![start, start.offset(0, 1), start.offset(0, 2)])
        .unwrap();
    assert_eq!(walk.next_tile(), Some(start.offset(0, 1)));

    assert!(walk.step_on());
    assert!(walk.step_on());
    assert!(!walk.step_on(), "there is nowhere left to step");
    assert_eq!(walk.tile(), start.offset(0, 2));
    assert!(walk.is_idle());
}

#[test]
fn stopping_gives_up_the_rest_of_the_route() {
    let mut guest = guest(3, TilePos::new(4, 4), 50);
    guest
        .follow(vec![TilePos::new(4, 4), TilePos::new(4, 5), TilePos::new(4, 6)])
        .unwrap();
    assert!(guest.step_on());
    guest.stop();
    assert_eq!(guest.tile(), TilePos::new(4, 5));
    assert!(guest.is_idle());
}

#[test]
fn a_guest_pays_what_it_can_and_nothing_when_it_cannot() {
    let mut rich = guest(1, TilePos::origin(), 30);
    assert_eq!(rich.pay(20), 20);
    assert_eq!(rich.money(), 10);
    assert_eq!(rich.pay(20), 0, "ten left will not buy a twenty");
    assert_eq!(rich.money(), 10);
}

#[test]
fn a_price_below_nothing_is_money_handed_back() {
    let mut guest = guest(2, TilePos::origin(), 10);
    assert_eq!(guest.pay(-5), -5);
    assert_eq!(guest.money(), 15);
}

#[test]
fn getting_off_only_applies_to_somebody_aboard() {
    let mut rider = guest(1, TilePos::origin(), 30);
    rider.decide(Plan::Riding { ride: 2 });
    assert_eq!(rider.riding(), Some(2));
    rider.get_off();
    assert_eq!(rider.plan(), Plan::Wandering);

    let mut walker = guest(2, TilePos::origin(), 30);
    walker.decide(Plan::GoingHome);
    walker.get_off();
    assert_eq!(walker.plan(), Plan::GoingHome);
}

#[test]
fn only_those_home_and_at_the_entrance_are_shown_out() {
    let entrance = TilePos::new(4, 0);
    let mut leaving = guest(1, entrance, 0);
    leaving.decide(Plan::GoingHome);
    let staying_at_the_entrance = guest(2, entrance, 0);
    let mut still_walking_out = guest(3, TilePos::new(4, 3), 0);
    still_walking_out.decide(Plan::GoingHome);

    let mut visits = vec![leaving, staying_at_the_entrance, still_walking_out];
    assert_eq!(show_out_the_guests(&mut visits, entrance), 1);
    let left: Vec<u32> = visits.iter().map(|v| v.id()).collect();
    assert_eq!(left, vec![2, 3], "everybody else stays, in order");
}

#[test]
fn the_line_lets_go_of_anybody_no_longer_waiting_in_it() {
    let here = TilePos::new(1, 1);
    let mut gone_home = queueing(2, here, 5, 0);
    gone_home.decide_anyway(Plan::GoingHome);
    let visits = vec![queueing(1, here, 5, 0), gone_home, queueing(3, here, 6, 0)];

    // 4 has left the park altogether, and 3 is waiting for another ride.
    let mut q = line_of(&[1, 2, 3, 4]);
    clear_out_the_line(&mut q, 5, &visits);
    assert_eq!(q.waiting(), &[1]);
}

#[test]
fn a_stopped_ride_turns_its_line_loose() {
    let here = TilePos::new(1, 1);
    let mut visits = vec![queueing(1, here, 5, 0), queueing(2, here, 5, 0), queueing(3, here, 6, 0)];
    let mut q = line_of(&[1, 2]);
    let sent = q.send_everybody_away();
    send_the_line_away(&mut visits, &sent);
    assert_eq!(visits[0].plan(), Plan::Wandering);
    assert_eq!(visits[1].plan(), Plan::Wandering);
    assert_eq!(visits[2].queueing_for(), Some((6, 0)), "a different line");
}

#[test]
fn nobody_waits_past_their_patience() {
    let here = TilePos::new(1, 1);
    let patience = u64::from(Queue::PATIENCE);
    let mut visits = vec![
        queueing(1, here, 5, 0),
        queueing(2, here, 6, 100),
        guest(3, here, 10),
    ];
    let gave_up = give_up_waiting(&mut visits, patience + 1);
    assert_eq!(gave_up, vec![(1, 5)]);
    assert_eq!(visits[0].plan(), Plan::Wandering);
    assert_eq!(visits[1].queueing_for(), Some((6, 100)));

    // Exactly as long as patience lasts is still bearable.
    let gave_up = give_up_waiting(&mut visits, patience + 100);
    assert!(gave_up.is_empty());
}

#[test]
fn a_line_for_a_ride_that_was_taken_down_is_forgotten() {
    let park = Park::new("Empty", Land::flat(crossroads(16, 16).unwrap())).unwrap();
    let mut visits = vec![queueing(1, TilePos::new(2, 2), 9, 0), guest(2, TilePos::new(3, 3), 0)];
    forget_lost_rides(&mut visits, &park);
    assert_eq!(visits[0].plan(), Plan::Wandering);
    assert_eq!(visits[1].plan(), Plan::Wandering);
}

#[test]
fn a_line_is_joined_at_the_back_and_holds_what_its_path_holds() {
    let path = [TilePos::new(5, 1), TilePos::new(5, 2)];
    let mut visits = vec![
        queueing(1, TilePos::new(5, 1), 3, 0),
        queueing(2, TilePos::new(9, 9), 3, 0),
        queueing(3, TilePos::new(5, 2), 3, 0),
        queueing(4, TilePos::new(5, 2), 3, 0),
    ];
    let mut q = Queue::new();
    join_the_line(&mut q, 3, true, &path, &mut visits);

    assert_eq!(q.waiting(), &[1, 3], "two tiles of path, two places");
    assert!(visits[0].is_idle(), "joined and standing still");
    assert_eq!(visits[1].queueing_for(), Some((3, 0)), "still walking to it");
    assert_eq!(visits[3].plan(), Plan::Wandering, "the line was full");
}

#[test]
fn nobody_joins_the_line_for_a_shut_ride() {
    let path = [TilePos::new(5, 1)];
    let mut visits = vec![queueing(1, TilePos::new(5, 1), 3, 0)];
    let mut q = Queue::new();
    join_the_line(&mut q, 3, false, &path, &mut visits);
    assert!(q.is_empty());
    assert_eq!(visits[0].plan(), Plan::Wandering);
}

#[test]
fn the_front_of_the_line_pays_and_boards() {
    let front = TilePos::new(5, 1);
    let mut broke = queueing(1, front, 3, 0);
    broke.pay(100);
    let mut visits = vec![broke, queueing(2, front, 3, 0), queueing(3, front, 3, 0)];
    // 9 left the park while waiting.
    let mut q = line_of(&[9, 1, 2, 3]);

    assert_eq!(board_the_front(&mut q, 3, front, 20, &mut visits), Some((2, 20)));
    assert_eq!(q.waiting(), &[3], "the gone and the broke were dropped");
    assert_eq!(visits[0].plan(), Plan::Wandering);
    assert_eq!(visits[1].riding(), Some(3));
    assert_eq!(visits[1].money(), 80);
    assert_eq!(visits[2].queueing_for(), Some((3, 0)));
}

#[test]
fn somebody_still_walking_up_the_line_holds_it_up() {
    let front = TilePos::new(5, 1);
    let mut visits = vec![queueing(1, TilePos::new(5, 3), 3, 0), queueing(2, front, 3, 0)];
    let mut q = line_of(&[1, 2]);
    assert_eq!(board_the_front(&mut q, 3, front, 20, &mut visits), None);
    assert_eq!(q.waiting(), &[1, 2]);
}

#[test]
fn a_train_lets_off_as_many_as_came_back() {
    let here = TilePos::new(1, 1);
    let mut visits = Vec::new();
    for id in 1..=4 {
        let mut v = guest(id, here, 0);
        v.decide(Plan::Riding { ride: if id == 2 { 8 } else { 7 } });
        visits.push(v);
    }
    let off = let_off_the_riders(&mut visits, 7, 2);
    assert_eq!(off, vec![1, 3]);
    assert_eq!(visits[0].plan(), Plan::Wandering);
    assert_eq!(visits[1].riding(), Some(8));
    assert_eq!(visits[3].riding(), Some(7), "the train only held two of them");
}

#[test]
fn past_the_end_of_the_path_everybody_stands_at_its_end() {
    let path = [TilePos::new(5, 1), TilePos::new(5, 2)];
    assert_eq!(standing_place(&path, 0), TilePos::new(5, 1));
    assert_eq!(standing_place(&path, 1), TilePos::new(5, 2));
    assert_eq!(standing_place(&path, 7), TilePos::new(5, 2));
}

#[test]
fn a_guest_is_found_by_its_id() {
    let here = TilePos::new(1, 1);
    let visits = vec![guest(4, here, 0), guest(6, here, 0)];
    assert_eq!(find_guest(&visits, 6), Some(1));
    assert_eq!(find_guest(&visits, 5), None);
}

#[test]
fn a_wanderer_wants_a_path_first_and_then_anywhere_it_can_walk() {
    let land = Land::flat(crossroads(16, 16).unwrap());
    let here = TilePos::new(8, 2);
    let path = TilePos::new(8, 12);
    let grass = TilePos::new(1, 14);
    let lake = TilePos::new(4, 4);

    assert!(wanted_goal(&land, here, path, 0));
    assert!(!wanted_goal(&land, here, grass, 0), "the early tries want a path");
    assert!(wanted_goal(&land, here, grass, PATH_ATTEMPTS));
    assert!(!wanted_goal(&land, here, lake, PATH_ATTEMPTS), "nobody walks on water");
    assert!(!wanted_goal(&land, here, here, PATH_ATTEMPTS), "somewhere else");
    assert!(!wanted_goal(&land, here, TilePos::new(40, 40), PATH_ATTEMPTS), "off the land");
}

#[test]
fn the_rest_of_a_route_is_what_is_left_to_walk() {
    let start = TilePos::origin();
    let mut walk = Route::standing_at(start);
    walk.follow(vec![start, start.offset(1, 0), start.offset(2, 0)]).unwrap();
    walk.step_on();
    assert_eq!(walk.tiles_left(), &[start.offset(1, 0), start.offset(2, 0)]);
}

#[test]
fn somebody_standing_still_is_idle_and_on_their_tile() {
    let walk = Route::standing_at(TilePos::new(3, 4));
    assert!(walk.is_idle());
    assert_eq!(walk.tile(), TilePos::new(3, 4));
    assert_eq!(walk.next_tile(), None);
}

#[test]
fn a_new_guest_stands_where_it_arrived_with_nowhere_to_go() {
    let guest = Visit::arriving(7, TilePos::new(4, 0), 100);
    assert_eq!(guest.id(), 7);
    assert_eq!(guest.tile(), TilePos::new(4, 0));
    assert!(guest.is_idle());
}

#[test]
fn sitting_down_costs_nothing() {
    let mut guest = Visit::arriving(1, TilePos::new(0, 0), 100);
    assert_eq!(guest.pay(Shop::new(Facility::Bench).price()), 0);
    assert_eq!(guest.money(), 100);
}

#[test]
fn the_nearest_few_come_first_and_ties_go_by_id_then_place() {
    let from = TilePos::new(5, 5);
    let places = vec![
        (0, TilePos::new(9, 5)),
        (2, TilePos::new(5, 6)),
        (1, TilePos::new(6, 5)),
        (1, TilePos::new(4, 5)),
        (0, TilePos::new(5, 0)),
        (0, TilePos::new(5, 7)),
    ];
    let picked = nearest_first(from, &places, FACILITY_ATTEMPTS);
    assert_eq!(
        picked,
        vec![
            (1, TilePos::new(4, 5)),
            (1, TilePos::new(6, 5)),
            (2, TilePos::new(5, 6)),
            (0, TilePos::new(5, 7)),
        ]
    );
    assert_eq!(nearest_first(from, &places, 0), vec![]);
    assert_eq!(nearest_first(from, &places[..2].to_vec(), 9).len(), 2);
    assert_eq!(nearest_first(from, &vec![], 3), vec![]);
}

#[test]
fn a_guest_sees_to_the_most_pressing_want_first() {
    let calm = Urges { toilet: false, food: false, drink: false, sit_down: false, ride: false };
    assert_eq!(what_it_wants(calm), None);
    assert_eq!(what_it_wants(Urges { ride: true, ..calm }), Some(Wanted::Ride));
    assert_eq!(
        what_it_wants(Urges { sit_down: true, ride: true, ..calm }),
        Some(Wanted::Something(Facility::Bench))
    );
    assert_eq!(
        what_it_wants(Urges { drink: true, sit_down: true, ride: true, ..calm }),
        Some(Wanted::Something(Facility::DrinkStall))
    );
    assert_eq!(
        what_it_wants(Urges { food: true, drink: true, ..calm }),
        Some(Wanted::Something(Facility::FoodStall))
    );
    assert_eq!(
        what_it_wants(Urges { toilet: true, food: true, drink: true, sit_down: true, ride: true }),
        Some(Wanted::Something(Facility::Toilet))
    );
}

#[test]
fn a_guest_beside_what_it_came_for_stops_to_use_it() {
    let park = Park::new("Errands", Land::flat(crossroads(32, 32).unwrap())).unwrap();
    let (stall, shop) = (0..32)
        .flat_map(|y| (0..32).map(move |x| TilePos::new(x, y)))
        .find_map(|tile| park.shop_at(tile).map(|shop| (tile, shop)))
        .expect("a new park comes with something on it");
    let ticks = shop.kind().ticks_to_use();
    let beside = stall.offset(1, 0);

    let mut far = guest(1, stall.offset(3, 0), 100);
    far.decide(Plan::Visiting { facility: stall });
    assert!(!park.start_using(&mut far, 50), "three tiles off is not beside it");
    assert_eq!(far.plan(), Plan::Visiting { facility: stall });

    let mut near = guest(2, beside, 100);
    near.decide(Plan::Visiting { facility: stall });
    assert!(park.start_using(&mut near, 50));
    assert_eq!(near.plan(), Plan::Using { facility: stall, until: 50 + ticks });
    assert_eq!(near.tile(), beside);
    assert!(near.is_busy(50 + ticks - 1));
    assert_eq!(near.finished_with(50 + ticks - 1), None);
    assert!(!near.is_busy(50 + ticks));
    assert_eq!(near.finished_with(50 + ticks), Some(stall));

    let mut passer = guest(3, beside, 100);
    assert!(!park.start_using(&mut passer, 50), "it was not looking for anything");
    assert_eq!(passer.plan(), Plan::Wandering);
    assert_eq!(passer.finished_with(50), None);

    let mut late = guest(4, beside, 100);
    late.decide(Plan::Visiting { facility: stall });
    assert!(park.start_using(&mut late, u64::MAX - 1));
    assert_eq!(late.plan(), Plan::Using { facility: stall, until: u64::MAX });
}

#[test]
fn a_turn_starts_aboard_busy_or_free() {
    let stall = TilePos::new(3, 3);
    let mut rider = guest(1, TilePos::origin(), 50);
    rider.decide(Plan::Riding { ride: 4 });
    assert_eq!(rider.begin_turn(10, true), Footing::Aboard);
    assert_eq!(rider.plan(), Plan::Riding { ride: 4 }, "the ride brings it back");

    let mut eater = guest(2, TilePos::origin(), 50);
    eater.decide(Plan::Using { facility: stall, until: 20 });
    assert_eq!(eater.begin_turn(10, false), Footing::Busy);
    assert_eq!(eater.begin_turn(20, false), Footing::Free(Some(stall)));

    assert_eq!(eater.begin_turn(10, true), Footing::Free(None), "a shut park ends the meal");
    assert_eq!(eater.plan(), Plan::GoingHome);
}

#[test]
fn settling_up_pays_only_what_the_guest_agreed_to() {
    let stall = TilePos::new(3, 3);
    let mut eater = guest(1, TilePos::origin(), 50);
    eater.decide(Plan::Using { facility: stall, until: 20 });
    assert_eq!(eater.settle_up(Some(12), true), 12);
    assert_eq!(eater.money(), 38);
    assert_eq!(eater.plan(), Plan::Wandering);

    assert_eq!(eater.settle_up(Some(12), false), 0, "it thought the price too steep");
    assert_eq!(eater.settle_up(None, true), 0, "the stall has gone");
    assert_eq!(eater.settle_up(Some(100), true), 0, "it cannot afford it");
    assert_eq!(eater.money(), 38);
}
