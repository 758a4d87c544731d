//! Shops and their tills, and the lines guests stand in.

use openpark::park::{line_from, Facility, Grid, Land, Queue, Shop, Terrain, TilePos};

#[test]
fn a_new_shop_charges_what_its_kind_charges() {
    for kind in Facility::ALL {
        let shop = Shop::new(kind);
        assert_eq!(shop.price(), kind.price(), "{kind:?}");
        assert_eq!(shop.takings(), 0);
        assert_eq!(shop.customers(), 0);
        assert!(!shop.is_over_the_odds());
    }
}

#[test]
fn shop_a_price_never_leaves_its_range() {
    let mut shop = Shop::new(Facility::FoodStall);
    for _ in 0..1_000 {
        shop.raise_price();
    }
    assert_eq!(shop.price(), Shop::MAX_PRICE);

    for _ in 0..1_000 {
        shop.lower_price();
    }
    assert_eq!(shop.price(), 0, "free, but never a refund");
}

#[test]
fn nudging_the_price_moves_it_by_one_step() {
    let mut shop = Shop::new(Facility::FoodStall);
    let opened_at = shop.price();

    assert_eq!(shop.raise_price(), opened_at + Shop::PRICE_STEP);
    assert_eq!(shop.lower_price(), opened_at);
}

#[test]
fn the_till_adds_up() {
    let mut shop = Shop::new(Facility::FoodStall);
    shop.take(12);
    shop.take(8);
    assert_eq!(shop.takings(), 20);
    assert_eq!(shop.customers(), 2);
}

#[test]
fn charging_over_the_odds_is_noticed() {
    let mut shop = Shop::new(Facility::FoodStall);
    assert!(!shop.is_over_the_odds());
    shop.raise_price();
    assert!(shop.is_over_the_odds());
}

#[test]
fn setting_a_price_is_clamped_to_the_board() {
    let mut shop = Shop::new(Facility::Bench);
    assert_eq!(shop.set_price(-5), 0, "nobody is paid to sit down");
    assert_eq!(shop.set_price(10_000), Shop::MAX_PRICE);
    assert_eq!(shop.set_price(30), 30);
    assert_eq!(shop.upkeep(), Facility::Bench.upkeep());
    assert_eq!(shop.kind(), Facility::Bench);
}

#[test]
fn a_till_saturates_rather_than_wrapping() {
    let mut shop = Shop::new(Facility::FoodStall);
    shop.take(i64::MAX);
    shop.take(i64::MAX);
    assert_eq!(shop.takings(), i64::MAX);
    assert_eq!(shop.customers(), 2);
}

fn land_with(queue: &[TilePos]) -> Land {
    let mut land = Land::flat(Grid::filled(16, 16, Terrain::Grass).unwrap());
    for tile in queue {
        land.set_ground(*tile, Terrain::Queue);
    }
    land
}

#[test]
fn a_new_queue_is_empty() {
    let queue = Queue::new();
    assert!(queue.is_empty());
    assert_eq!(queue.len(), 0);
    assert_eq!(queue.front(), None);
    assert_eq!(queue.place_of(1), None);
}

#[test]
fn the_line_keeps_the_order_people_joined_in() {
    let mut queue = Queue::new();
    for guest in 1..=4 {
        assert!(queue.join(guest));
    }

    assert_eq!(queue.waiting(), &[1, 2, 3, 4]);
    assert_eq!(queue.front(), Some(1));
    assert_eq!(queue.place_of(3), Some(2));
}

#[test]
fn nobody_queues_twice() {
    let mut queue = Queue::new();
    assert!(queue.join(1));
    assert!(!queue.join(1), "nobody queues twice");
    assert_eq!(queue.place_of(1), Some(0), "first in line");
    assert!(queue.holds(1));
    assert!(!queue.holds(2));
}

#[test]
fn everybody_behind_somebody_who_leaves_moves_up() {
    let mut queue = Queue::new();
    for guest in 1..=4 {
        queue.join(guest);
    }

    assert!(queue.leave(2));
    assert_eq!(queue.waiting(), &[1, 3, 4]);
    assert_eq!(queue.place_of(3), Some(1), "it moved up one");
    assert!(!queue.leave(2), "it left twice");
}

#[test]
fn a_full_line_turns_people_away() {
    let mut queue = Queue::new();
    for guest in 0..Queue::MAX_LENGTH {
        let guest = guest as u32;
        assert!(queue.join(guest), "the line filled up early");
    }

    assert!(!queue.join(9_999), "the line took one too many");
    assert_eq!(queue.len(), Queue::MAX_LENGTH);
}

#[test]
fn shutting_a_ride_sends_the_whole_line_away() {
    let mut queue = Queue::new();
    for guest in 1..=3 {
        queue.join(guest);
    }

    assert_eq!(queue.send_everybody_away(), vec![1, 2, 3]);
    assert!(queue.is_empty());
}

#[test]
fn the_line_stands_along_the_queue_path() {
    let station = TilePos::new(5, 5);
    let laid = [
        TilePos::new(5, 6),
        TilePos::new(5, 7),
        TilePos::new(5, 8),
        TilePos::new(6, 8),
    ];
    let land = land_with(&laid);

    let line = line_from(&land, station);
    assert_eq!(line.len(), laid.len());
    assert_eq!(line[0], laid[0], "the front is beside the station");
    assert_eq!(line[3], laid[3], "the back is the far end of the path");
}

#[test]
fn a_station_with_no_queue_path_has_one_place_to_stand() {
    let land = land_with(&[]);
    let line = line_from(&land, TilePos::new(5, 5));

    assert_eq!(line.len(), 1, "an unqueued ride should hold one guest");
    assert!(line[0].neighbours().contains(&TilePos::new(5, 5)));
}

#[test]
fn the_line_never_runs_back_through_the_station() {
    let station = TilePos::new(5, 5);
    let land = land_with(&[TilePos::new(5, 6), TilePos::new(5, 4)]);

    let line = line_from(&land, station);
    assert_eq!(line.len(), 1, "the line walked through the station");
}

#[test]
fn a_line_is_capped_however_much_path_is_laid() {
    let station = TilePos::new(0, 0);
    let laid: Vec<TilePos> = (1..60).map(|y| TilePos::new(0, y as i32)).collect();
    let mut land = Land::flat(Grid::filled(4, 64, Terrain::Grass).unwrap());
    for tile in &laid {
        land.set_ground(*tile, Terrain::Queue);
    }

    assert_eq!(line_from(&land, station).len(), Queue::MAX_LENGTH);
}

#[test]
fn a_station_surrounded_by_water_has_nowhere_to_stand() {
    let mut land = Land::flat(Grid::filled(8, 8, Terrain::Water).unwrap());
    land.set_ground(TilePos::new(3, 3), Terrain::Path);
    assert!(line_from(&land, TilePos::new(3, 3)).is_empty());
}

#[test]
fn a_default_queue_has_nobody_in_it() {
    let queue = Queue::default();
    assert!(queue.is_empty());
    assert_eq!(queue, Queue::new());
}
