//! A whole park: opening it, building on it, moving its land, laying rides,
//! and paying for all of it.

use openpark::demo::{coaster, plant_around, queue_for, QUEUE_LENGTH};
use openpark::park::land::crossroads;
use openpark::park::{
    Books, BuildError, Facility, FlatRide, Grid, Heading, Land, LandError, Layout, MoneyError,
    Objective, Outcome, Park, ParkError, Parts, RestoreError, Ride, RideState, Scenery, Shop,
    StaffKind, Terrain, TestFailure, Thought, TilePos, Track, TrackError, TrackPiece,
};

/// Nobody is standing anywhere.
const NOBODY: [TilePos; 0] = [];

/// A new park of `width` by `height`: the crossroads, the lake, and the
/// stalls and benches every park opens with.
fn new_park(name: &str, width: u32, height: u32) -> Park {
    let ground = crossroads(width, height).expect("a size the grid can hold");
    Park::new(name, Land::flat(ground)).expect("big enough")
}

/// Every tile of a park, row by row.
fn every_tile(park: &Park) -> Vec<TilePos> {
    let mut tiles = Vec::new();
    for y in 0..park.height() {
        for x in 0..park.width() {
            tiles.push(TilePos::new(x as i32, y as i32));
        }
    }
    tiles
}

/// Runs the park's clock and books for `ticks` ticks, with nobody inside.
fn run_the_books(park: &mut Park, ticks: u64) {
    for _ in 0..ticks {
        park.advance_the_clock();
        let billing = park.bill_is_due();
        park.keep_the_books(billing);
        if billing {
            park.pay_the_bills();
            park.check_solvency();
        }
        park.check_the_objective(0);
    }
}

/// A park already past its debt limit, closed by the bank.
fn bankrupt_park() -> Park {
    let mut park = new_park("Broke", 32, 32);
    park.adjust_cash(Books::DEBT_LIMIT * 2 - park.cash());
    run_the_books(&mut park, Park::TICKS_PER_WAGE_BILL);
    assert!(park.is_bankrupt());
    park
}

/// How much of the park is worn down to bare earth.
fn dirt(park: &Park) -> usize {
    every_tile(park)
        .into_iter()
        .filter(|tile| park.land().ground(*tile) == Some(Terrain::Dirt))
        .count()
}

/// The first bare, buildable tile with nothing on it.
fn bare_ground(park: &Park) -> TilePos {
    every_tile(park)
        .into_iter()
        .find(|tile| {
            park.land().ground(*tile).is_some_and(Terrain::is_buildable)
                && park.facility_at(*tile).is_none()
        })
        .expect("there is bare ground somewhere")
}

/// Clears a square of `side` tiles from `corner` to flat grass.
fn flatten(park: &mut Park, corner: TilePos, side: i32) {
    for dy in 0..side {
        for dx in 0..side {
            let tile = corner.offset(dx, dy);
            park.lay(tile, Terrain::Grass, &NOBODY).expect("grass should lay");
            while park.land().height_at(tile).unwrap_or(0) > 0 {
                park.lower(tile, &NOBODY).expect("the land should come down");
            }
        }
    }
}

/// A park with one tested, open coaster on flat dry ground beside the
/// crossroads, and the money to have built it.
fn park_with_a_coaster() -> (Park, u32) {
    let mut park = new_park("Rides", 32, 32);
    park.adjust_cash(50_000);

    let corner = TilePos::new(18, 16);
    flatten(&mut park, corner, 6);

    let id = park
        .start_a_ride("The Coaster", corner, Heading::North)
        .expect("a ride should start");
    for side in [
        [TrackPiece::Station, TrackPiece::LiftHill],
        [TrackPiece::LiftHill, TrackPiece::LiftHill],
        [TrackPiece::SlopeDown, TrackPiece::SlopeDown],
        [TrackPiece::SlopeDown, TrackPiece::Brakes],
    ] {
        park.lay_track(id, TrackPiece::CurveRight).expect("a corner should lay");
        for piece in side {
            park.lay_track(id, piece).expect("a side should lay");
        }
    }

    park.pass_test(id).expect("the coaster should run");
    park.open_ride(id).expect("and open");
    (park, id)
}

#[test]
fn a_park_must_be_big_enough_to_be_worth_playing() {
    let narrow = Land::flat(crossroads(4, 32).unwrap());
    assert_eq!(
        Park::new("Too small", narrow).err(),
        Some(ParkError::TooSmall { width: 4, height: 32 })
    );
    let shallow = Land::flat(crossroads(32, 4).unwrap());
    assert!(Park::new("Too small", shallow).is_err());
    let just_right = Land::flat(crossroads(8, 8).unwrap());
    assert!(Park::new("Just right", just_right).is_ok());
}

#[test]
fn a_new_park_has_a_crossroads_of_path() {
    let park = new_park("Crossroads", 20, 20);
    assert_eq!(park.land().ground(TilePos::new(10, 10)), Some(Terrain::Path));
    assert_eq!(park.land().ground(TilePos::new(10, 3)), Some(Terrain::Path));
    assert_eq!(park.land().ground(TilePos::new(3, 10)), Some(Terrain::Path));
}

#[test]
fn the_path_is_never_flooded_or_blocked() {
    for side in 8..40 {
        let park = new_park("Flooded?", side, side);
        for tile in every_tile(&park) {
            if tile.x == (side / 2) as i32 || tile.y == (side / 2) as i32 {
                assert_eq!(
                    park.land().ground(tile),
                    Some(Terrain::Path),
                    "a park {side} across built over the path at {tile:?}"
                );
            }
        }
    }
}

#[test]
fn a_new_park_has_a_lake_off_the_path() {
    let park = new_park("Lakeside", 32, 32);
    assert_eq!(park.land().ground(TilePos::new(8, 8)), Some(Terrain::Water));
    assert_eq!(park.land().ground(TilePos::new(24, 24)), Some(Terrain::Grass));
}

#[test]
fn a_new_park_opens_with_money_and_something_to_eat() {
    let park = new_park("Forest Frontiers", 32, 32);
    assert_eq!(park.cash(), Books::STARTING_CASH);
    assert_eq!(park.name(), "Forest Frontiers");
    assert_eq!(park.entrance(), TilePos::new(16, 0));
    assert_eq!(park.facility_at(TilePos::new(15, 8)), Some(Facility::FoodStall));
    assert_eq!(park.facility_at(TilePos::new(17, 11)), Some(Facility::Bench));
    assert_eq!(park.facility_at(TilePos::new(17, 14)), Some(Facility::FoodStall));
    assert_eq!(park.facility_at(TilePos::new(15, 18)), Some(Facility::Bench));
    assert_eq!(park.facility_at(TilePos::new(15, 22)), Some(Facility::Bench));
    assert!(park.rides().is_empty());
    assert!(park.staff().is_empty());
    assert_eq!(park.tick(), 0);
}

#[test]
fn terrain_outside_the_park_cannot_be_changed() {
    let mut park = new_park("Edges", 8, 8);
    assert_eq!(park.set_terrain(TilePos::new(99, 99), Terrain::Path), None);
    assert!(park.set_terrain(TilePos::origin(), Terrain::Path).is_some());
    assert_eq!(park.land().ground(TilePos::origin()), Some(Terrain::Path));
}

#[test]
fn ticking_advances_the_clock_and_leaves_the_land_alone() {
    let mut park = new_park("Ticking", 8, 8);
    let before = park.clone();
    assert_eq!(park.advance_the_clock(), 1);
    assert_eq!(park.tick(), before.tick() + 1);
    assert_eq!(park.terrain(), before.terrain());
    assert_eq!(park.cash(), before.cash());
}

#[test]
fn the_turnstile_turns_as_often_as_word_of_mouth_says_and_not_when_full() {
    let mut park = new_park("Turnstile", 16, 16);
    assert_eq!(park.how_often_people_turn_up(), Park::SLOWEST_ARRIVALS, "nobody has heard of it");
    for _ in 0..Park::SLOWEST_ARRIVALS - 1 {
        park.advance_the_clock();
        assert!(!park.turnstile_turns(0));
    }
    park.advance_the_clock();
    assert!(park.turnstile_turns(0));
    assert!(!park.turnstile_turns(Park::CAPACITY));

    let before = park.cash();
    park.take_admission();
    assert_eq!(park.cash(), before + Park::ADMISSION);
}

#[test]
fn a_park_everybody_talks_about_fills_four_times_as_fast() {
    let mut park = new_park("Talked About", 16, 16);
    park.set_reputation(Books::BEST);
    assert_eq!(park.how_often_people_turn_up(), Park::FASTEST_ARRIVALS);
    assert_eq!(Park::SLOWEST_ARRIVALS, 90);
    assert_eq!(Park::FASTEST_ARRIVALS, 22);

    park.set_reputation(500);
    assert_eq!(park.how_often_people_turn_up(), 90 - 34);
}

#[test]
fn advertising_brings_people_in_sooner() {
    let mut park = new_park("Advertised", 16, 16);
    park.adjust_cash(10_000);
    let quiet = park.how_often_people_turn_up();
    park.advertise().unwrap();
    // 350 borrowed of a thousand takes 23 ticks off the wait.
    assert_eq!(park.how_often_people_turn_up(), quiet - 23);
}

#[test]
fn a_cursor_can_ask_before_it_clicks() {
    let mut park = new_park("Building", 32, 32);
    let grass = bare_ground(&park);

    assert!(park.can_build(grass, Facility::Bench));
    park.build(grass, Facility::Bench).unwrap();
    assert!(!park.can_build(grass, Facility::Bench), "it is taken now");

    let water = every_tile(&park)
        .into_iter()
        .find(|tile| park.land().ground(*tile) == Some(Terrain::Water))
        .expect("this park has a lake");
    assert!(!park.can_build(water, Facility::Bench));
    assert!(!park.can_build(TilePos::new(999, 999), Facility::Bench));
}

#[test]
fn a_park_that_cannot_pay_cannot_build() {
    let mut park = new_park("Broke", 32, 32);
    park.adjust_cash(-park.cash());
    let grass = bare_ground(&park);

    assert!(!park.can_build(grass, Facility::FoodStall));
    let refused = park.build(grass, Facility::FoodStall).unwrap_err();
    assert_eq!(refused, BuildError::CannotPay);
    assert!(refused.why().contains("costs"), "{}", refused.why());
    assert_eq!(park.facility_at(grass), None);
}

#[test]
fn building_takes_the_cost_out_of_the_bank() {
    let mut park = new_park("Forest Frontiers", 32, 32);
    let before = park.cash();
    let tile = TilePos::new(2, 2);

    park.build(tile, Facility::Bench).unwrap();
    assert_eq!(park.facility_at(tile), Some(Facility::Bench));
    assert_eq!(park.cash(), before - Facility::Bench.build_cost());
    assert_eq!(park.build(tile, Facility::Bench), Err(BuildError::Built(tile)), "it is taken");
    assert_eq!(
        park.build(TilePos::new(16, 3), Facility::Bench),
        Err(BuildError::Ground(Terrain::Path))
    );
    assert_eq!(
        park.build(TilePos::new(-1, 3), Facility::Bench),
        Err(BuildError::Outside(TilePos::new(-1, 3)))
    );
}

#[test]
fn demolishing_gives_the_ground_back() {
    let mut park = new_park("Clearing", 32, 32);
    let built = every_tile(&park)
        .into_iter()
        .find_map(|tile| park.shop_at(tile).map(|shop| (tile, shop)))
        .expect("a new park comes with something on it");

    assert_eq!(park.demolish(built.0), Some(built.1));
    assert_eq!(park.demolish(built.0), None, "it was already gone");
    assert!(park.can_build(built.0, Facility::Bench));
}

#[test]
fn only_something_that_is_standing_there_can_be_priced() {
    let mut park = new_park("Prices", 32, 32);
    let tile = TilePos::new(2, 2);
    park.build(tile, Facility::FoodStall).unwrap();

    assert_eq!(
        park.raise_price(tile).unwrap(),
        Facility::FoodStall.price() + Shop::PRICE_STEP
    );
    assert_eq!(park.lower_price(tile).unwrap(), Facility::FoodStall.price());
    assert!(park.raise_price(TilePos::new(3, 3)).is_err(), "nothing there");
    assert!(park.set_price(TilePos::new(-1, -1), 5).is_err(), "outside the park");
}

#[test]
fn a_price_on_the_board_is_clamped() {
    let mut park = new_park("Forest Frontiers", 32, 32);
    let tile = TilePos::new(2, 2);
    park.build(tile, Facility::FoodStall).unwrap();

    assert_eq!(park.set_price(tile, 18), Ok(18));
    assert_eq!(park.set_price(tile, 10_000), Ok(Shop::MAX_PRICE), "clamped");
    assert_eq!(
        park.set_price(TilePos::new(3, 3), 5),
        Err(BuildError::NothingToPrice(TilePos::new(3, 3)))
    );
}

#[test]
fn a_demolished_shop_takes_its_till_with_it() {
    let mut park = new_park("Closing Down", 32, 32);
    let tile = TilePos::new(2, 2);
    park.build(tile, Facility::FoodStall).unwrap();
    park.set_price(tile, 30).unwrap();

    let bill = park.wage_bill();
    let gone = park.demolish(tile).expect("something was there");

    assert_eq!(gone.price(), 30, "the till went with it");
    assert_eq!(park.shop_at(tile), None);
    assert_eq!(
        park.wage_bill(),
        bill - gone.upkeep(),
        "the park is still paying to run something it tore down"
    );
}

#[test]
fn moving_the_land_costs_money() {
    let mut park = new_park("Landscaping", 32, 32);
    let tile = TilePos::new(5, 5);
    let before = park.cash();

    assert_eq!(park.raise(tile, &NOBODY).unwrap(), 1);
    assert_eq!(park.cash(), before - Park::LANDSCAPING);
    assert_eq!(park.land().height_at(tile), Some(1));

    assert_eq!(park.lower(tile, &NOBODY).unwrap(), 0);
    assert_eq!(park.cash(), before - Park::LANDSCAPING * 2);
}

#[test]
fn the_land_will_not_go_past_its_range() {
    let mut park = new_park("Landscaping", 32, 32);
    let tile = TilePos::new(5, 5);
    assert_eq!(
        park.lower(tile, &NOBODY),
        Err(BuildError::Land(LandError::OutOfRange(tile)))
    );
    for _ in 0..Land::MAX_HEIGHT {
        park.raise(tile, &NOBODY).unwrap();
    }
    let cash = park.cash();
    assert_eq!(
        park.raise(tile, &NOBODY),
        Err(BuildError::Land(LandError::OutOfRange(tile)))
    );
    assert_eq!(park.cash(), cash, "a refused shovel costs nothing");
}

#[test]
fn a_park_that_cannot_pay_cannot_dig() {
    let mut park = new_park("Skint", 32, 32);
    park.adjust_cash(-park.cash());

    assert!(park.raise(TilePos::new(5, 5), &NOBODY).is_err());
    assert!(park.lay(TilePos::new(5, 5), Terrain::Path, &NOBODY).is_err());
    assert!(!park.can_reshape(TilePos::new(5, 5), &NOBODY));
}

#[test]
fn the_land_cannot_be_moved_under_somebody_standing_on_it() {
    let mut park = new_park("Busy", 32, 32);
    let standing_on = park.entrance();
    let people = [standing_on];

    assert_eq!(
        park.raise(standing_on, &people),
        Err(BuildError::Occupied(standing_on)),
        "a guest was marooned on a pillar"
    );
    assert!(park.lower(standing_on, &people).is_err());
    assert!(park.lay(standing_on, Terrain::Water, &people).is_err());
    assert!(!park.can_reshape(standing_on, &people));
    assert!(park.can_reshape(standing_on, &NOBODY), "nobody, and it is fine");
}

#[test]
fn the_land_cannot_be_moved_under_a_building() {
    let mut park = new_park("Landscaping", 32, 32);
    let tile = TilePos::new(5, 5);
    park.build(tile, Facility::Bench).unwrap();

    assert!(park.raise(tile, &NOBODY).is_err(), "a bench was put on stilts");
    assert!(!park.can_lay(tile, Terrain::Path, &NOBODY));
}

#[test]
fn a_bankrupt_park_cannot_afford_a_shovel() {
    let mut park = bankrupt_park();
    park.adjust_cash(100_000);

    assert_eq!(park.raise(TilePos::new(5, 5), &NOBODY), Err(BuildError::Bankrupt));
    assert!(park.lay(TilePos::new(5, 5), Terrain::Path, &NOBODY).is_err());
}

#[test]
fn laying_a_surface_costs_what_it_says_and_rock_is_not_for_sale() {
    let mut park = new_park("Paving", 32, 32);
    let tile = TilePos::new(6, 6);
    let before = park.cash();

    park.lay(tile, Terrain::Path, &NOBODY).unwrap();
    assert_eq!(park.land().ground(tile), Some(Terrain::Path));
    assert_eq!(park.cash(), before - Terrain::Path.lay_cost().unwrap());

    assert_eq!(
        park.lay(tile, Terrain::Rock, &NOBODY),
        Err(BuildError::NotForSale(Terrain::Rock))
    );
    assert!(!park.can_lay(tile, Terrain::Rock, &NOBODY));
    assert!(park.lay(TilePos::new(-1, -1), Terrain::Path, &NOBODY).is_err());
}

#[test]
fn planting_takes_the_cost_out_of_the_bank() {
    let mut park = new_park("Forest Frontiers", 32, 32);
    let before = park.cash();
    let tile = TilePos::new(3, 3);

    park.plant(tile, Scenery::Tree, &NOBODY).unwrap();
    assert_eq!(park.scenery_at(tile), Some(Scenery::Tree));
    assert_eq!(park.cash(), before - Scenery::Tree.cost());
    assert_eq!(
        park.plant(tile, Scenery::Tree, &NOBODY),
        Err(BuildError::Planted(tile)),
        "it is taken"
    );
    assert_eq!(park.uproot(tile), Some(Scenery::Tree));
    assert_eq!(park.uproot(tile), None);
    assert!(park.can_plant(tile, Scenery::Tree, &NOBODY));
    assert!(!park.can_plant(tile, Scenery::Tree, &[tile]), "somebody is standing there");
}

#[test]
fn scenery_blocks_the_tile_it_stands_on() {
    let mut park = new_park("Garden", 32, 32);
    let tile = TilePos::new(3, 3);
    park.plant(tile, Scenery::Fountain, &NOBODY).unwrap();

    assert_eq!(park.step_cost(TilePos::new(3, 4), tile), None);
    assert!(park.step_cost(TilePos::new(3, 4), TilePos::new(4, 4)).is_some());
    assert_eq!(park.build(tile, Facility::Bench), Err(BuildError::Planted(tile)));
}

#[test]
fn a_ride_costs_what_its_track_costs() {
    let (park, id) = park_with_a_coaster();
    let ride = park.ride(id).expect("the ride is there");

    assert_eq!(
        ride.track().expect("a coaster").pieces().len(),
        12,
        "four corners and eight sides"
    );
    assert!(ride.track().unwrap().cost() > 0);
    assert!(park.wage_bill() >= ride.upkeep(), "a ride costs nothing to run");
    assert!(park.cash() < 50_000 + Books::STARTING_CASH, "it was free");
    assert!(ride.is_open());
}

#[test]
fn a_station_has_to_be_somewhere_guests_can_reach() {
    let mut park = new_park("Rides", 32, 32);
    park.adjust_cash(50_000);

    let start = TilePos::new(18, 16);
    park.lay(start, Terrain::Grass, &NOBODY).unwrap();
    let id = park.start_a_ride("Up There", start, Heading::East).unwrap();

    park.lay_track(id, TrackPiece::LiftHill).unwrap();
    assert_eq!(
        park.lay_track(id, TrackPiece::Station),
        Err(BuildError::StationInTheAir(TilePos::new(19, 16))),
        "a station was built up in the air"
    );
}

#[test]
fn track_cannot_be_laid_on_anything_that_is_already_there() {
    let (mut park, _) = park_with_a_coaster();
    let taken = park.rides()[0].tiles()[0];

    assert!(park.build(taken, Facility::Bench).is_err(), "on the track");
    assert!(park.raise(taken, &NOBODY).is_err(), "the land under the track moved");

    let another = park.start_a_ride("The Other One", taken, Heading::North).err();
    assert_eq!(another, Some(BuildError::Track(taken)), "two rides on one tile");
}

#[test]
fn a_ride_cannot_be_laid_underground() {
    let mut park = new_park("Rides", 32, 32);
    park.adjust_cash(50_000);

    let start = TilePos::new(18, 16);
    park.lay(start, Terrain::Grass, &NOBODY).unwrap();
    while park.land().height_at(start).unwrap_or(0) > 0 {
        park.lower(start, &NOBODY).unwrap();
    }

    let id = park.start_a_ride("Down There", start, Heading::East).unwrap();
    park.lay_track(id, TrackPiece::Station).unwrap();
    assert!(
        park.lay_track(id, TrackPiece::SlopeDown).is_err(),
        "the track dug itself into the ground"
    );
}

#[test]
fn laying_track_un_tests_the_ride_and_a_crossing_is_refused() {
    let (mut park, id) = park_with_a_coaster();
    let cash = park.cash();
    assert_eq!(
        park.lay_track(id, TrackPiece::Straight),
        Err(BuildError::Layout(TrackError::Crosses(TilePos::new(18, 16))))
    );
    assert_eq!(park.cash(), cash, "a refused piece is not charged");
    let ride = park.ride(id).unwrap();
    assert_eq!(ride.state(), RideState::Building, "the layout was touched");
    assert!(!ride.tested());

    assert_eq!(park.unlay_track(id), Some(TrackPiece::Brakes));
    assert_eq!(park.ride(id).unwrap().track().unwrap().len(), 11);
    assert_eq!(park.unlay_track(999), None, "there is no such ride");
}

#[test]
fn a_ride_opens_only_once_tested() {
    let mut park = new_park("Rides", 32, 32);
    park.adjust_cash(50_000);
    let start = TilePos::new(18, 16);
    flatten(&mut park, start, 6);
    let id = park.start_a_ride("Half Built", start, Heading::North).unwrap();
    park.lay_track(id, TrackPiece::Station).unwrap();

    assert_eq!(park.open_ride(id), Err(BuildError::Open(openpark::park::OpenError::Untested)));
    assert_eq!(
        park.check_ride(id),
        Err(BuildError::Test(openpark::park::TestFailure::NotACircuit))
    );
    assert!(park.pass_test(id).is_err());
    assert_eq!(park.open_ride(77), Err(BuildError::NoSuchRide(77)));
    assert_eq!(park.close_ride(77), Err(BuildError::NoSuchRide(77)));
}

#[test]
fn a_ride_is_priced_on_its_own_board() {
    let (mut park, id) = park_with_a_coaster();
    let taken = park.rides()[0].tiles()[0];
    assert_eq!(park.set_ride_price(id, 1_000), Ok(openpark::park::Ride::MAX_PRICE));
    assert_eq!(park.lower_the_price_at(taken), Ok(openpark::park::Ride::MAX_PRICE - 2));
    assert_eq!(park.raise_the_price_at(taken), Ok(openpark::park::Ride::MAX_PRICE));
    assert_eq!(park.raise_the_price_at(TilePos::new(1, 1)), Err(BuildError::NothingToPrice(TilePos::new(1, 1))));
}

#[test]
fn a_demolished_ride_is_gone_and_frees_its_ground() {
    let (mut park, id) = park_with_a_coaster();
    let taken = park.rides()[0].tiles()[0];
    let gone = park.demolish_ride(id).expect("the ride was there");
    assert_eq!(gone.id(), id);
    assert!(park.rides().is_empty());
    assert!(park.ride_at(taken).is_none());
    assert!(park.demolish_ride(id).is_none());
    assert!(park.can_build(taken, Facility::Bench));
}

#[test]
fn a_bankrupt_park_cannot_build_a_ride() {
    let mut park = bankrupt_park();
    park.adjust_cash(100_000);

    assert_eq!(
        park.start_a_ride("No Chance", TilePos::new(5, 5), Heading::North),
        Err(BuildError::Bankrupt)
    );
}

#[test]
fn a_flat_ride_is_bought_open_and_running() {
    let mut park = new_park("Bought", 32, 32);
    park.adjust_cash(10_000);
    let before = park.cash();

    let id = park
        .buy_a_ride("The Carousel", FlatRide::Carousel, TilePos::new(18, 16))
        .expect("there should be room");
    let ride = park.ride(id).expect("it is there");

    assert_eq!(park.cash(), before - FlatRide::Carousel.cost());
    assert!(ride.is_open(), "a bought ride arrives working");
    assert_eq!(ride.flat(), Some(FlatRide::Carousel));
    assert_eq!(ride.track(), None, "there is no track to lay");
    assert_eq!(
        ride.tiles().len(),
        (FlatRide::Carousel.footprint() * FlatRide::Carousel.footprint()) as usize,
        "it should stand on its whole footprint"
    );
    assert_eq!(ride.layout(), &Layout::Flat { kind: FlatRide::Carousel, corner: TilePos::new(18, 16) });
}

#[test]
fn a_flat_ride_needs_its_whole_square_of_level_ground() {
    let mut park = new_park("Bought", 32, 32);
    park.adjust_cash(10_000);

    let corner = TilePos::new(18, 16);
    flatten(&mut park, corner, 3);
    assert!(park.can_buy_a_ride(corner, FlatRide::HauntedHouse));

    park.raise(corner.offset(1, 1), &NOBODY).unwrap();
    assert!(
        !park.can_buy_a_ride(corner, FlatRide::HauntedHouse),
        "half a haunted house went up on a slope"
    );
    assert_eq!(
        park.buy_a_ride("Haunted", FlatRide::HauntedHouse, corner),
        Err(BuildError::NotLevel(corner.offset(1, 1)))
    );
}

#[test]
fn a_flat_ride_will_not_go_where_something_already_is() {
    let (mut park, _) = park_with_a_coaster();
    park.adjust_cash(10_000);
    let taken = park.rides()[0].tiles()[0];

    assert!(!park.can_buy_a_ride(taken, FlatRide::TeaCups));
    assert!(park.buy_a_ride("Nope", FlatRide::TeaCups, taken).is_err());
}

#[test]
fn a_flat_ride_blocks_everything_else_from_its_land() {
    let mut park = new_park("Bought", 32, 32);
    park.adjust_cash(10_000);
    let corner = TilePos::new(18, 16);
    park.buy_a_ride("The Teacups", FlatRide::TeaCups, corner)
        .expect("there should be room");

    for tile in [corner, corner.offset(1, 1)] {
        assert!(park.build(tile, Facility::Bench).is_err(), "{tile:?}");
        assert!(park.plant(tile, Scenery::Tree, &NOBODY).is_err(), "{tile:?}");
        assert!(park.raise(tile, &NOBODY).is_err(), "{tile:?}");
    }
}

#[test]
fn upkeep_is_owed_on_everything_standing() {
    let park = new_park("Overheads", 32, 32);
    let standing: i64 = every_tile(&park)
        .into_iter()
        .filter_map(|tile| park.shop_at(tile))
        .map(Shop::upkeep)
        .sum();

    assert!(standing > 0, "a new park opens with something on it");
    assert_eq!(park.wage_bill(), standing, "and nobody on the payroll");
}

#[test]
fn the_park_pays_its_bills_when_they_fall_due() {
    let mut park = new_park("Overheads", 32, 32);
    for tile in every_tile(&park) {
        park.demolish(tile);
    }
    park.hire(StaffKind::Handyman).unwrap();
    let bill = park.wage_bill();
    assert_eq!(bill, StaffKind::Handyman.wage(), "nothing else is standing");

    let before = park.cash();
    run_the_books(&mut park, Park::TICKS_PER_WAGE_BILL);
    assert_eq!(park.cash(), before - bill, "one wage bill paid");
}

#[test]
fn a_park_that_runs_out_of_credit_goes_bankrupt() {
    let mut park = new_park("Broke", 32, 32);
    assert!(!park.is_bankrupt(), "a park opens solvent");

    park.adjust_cash(Books::DEBT_LIMIT * 2 - park.cash());
    run_the_books(&mut park, Park::TICKS_PER_WAGE_BILL);

    assert!(park.is_bankrupt(), "the bank let {} through", park.cash());
    assert_eq!(park.bankrupt_since(), Some(Park::TICKS_PER_WAGE_BILL));
}

#[test]
fn a_bankrupt_park_sells_no_more_tickets() {
    let mut park = bankrupt_park();
    for _ in 0..Park::SLOWEST_ARRIVALS * 4 {
        park.advance_the_clock();
        assert!(!park.turnstile_turns(0), "somebody got in anyway");
    }
}

#[test]
fn a_bankrupt_park_cannot_buy_anything() {
    let mut park = bankrupt_park();
    park.adjust_cash(100_000);

    assert!(
        park.build(TilePos::new(3, 3), Facility::Bench).is_err(),
        "a bankrupt park went shopping"
    );
    assert_eq!(park.hire(StaffKind::Handyman), Err(MoneyError::Bankrupt));
}

#[test]
fn firing_somebody_takes_them_off_the_payroll() {
    let mut park = new_park("Payroll", 32, 32);
    let id = park.hire(StaffKind::Handyman).unwrap();
    let bill = park.wage_bill();

    let gone = park.fire(id).expect("somebody was hired");
    assert_eq!(gone.id(), id);
    assert_eq!(park.wage_bill(), bill - StaffKind::Handyman.wage());
    assert!(park.fire(id).is_none(), "fired twice");
    assert!(park.staff().is_empty());
}

#[test]
fn hiring_adds_a_wage_to_the_bill() {
    let mut park = new_park("Forest Frontiers", 32, 32);
    let before = park.wage_bill();
    let cash = park.cash();

    let id = park.hire(StaffKind::Entertainer).unwrap();
    assert_eq!(park.staff().len(), 1);
    assert_eq!(park.staff()[0].id(), id);
    assert_eq!(park.cash(), cash - StaffKind::Entertainer.hire_cost());
    assert_eq!(park.wage_bill(), before + StaffKind::Entertainer.wage());
    assert_ne!(park.hire(StaffKind::Mechanic).unwrap(), id, "every hire gets an id of their own");
}

#[test]
fn a_handyman_puts_the_worn_ground_back() {
    let mut park = new_park("Tidy", 32, 32);
    let at = park.entrance();
    let worn: Vec<TilePos> = at
        .neighbours()
        .into_iter()
        .filter(|tile| park.land().contains(*tile))
        .collect();
    for tile in &worn {
        park.set_terrain(*tile, Terrain::Dirt);
    }
    let before = dirt(&park);
    assert!(before >= worn.len(), "the dirt was not laid down");

    let tidied = park.tidy_up_around(at, StaffKind::Handyman.reach());
    assert!(tidied.is_some());
    assert_eq!(dirt(&park), before - 1, "one tile a visit");
    assert_eq!(park.land().ground(tidied.unwrap()), Some(Terrain::Grass));
}

#[test]
fn a_mechanic_puts_a_broken_ride_back() {
    let (mut park, id) = park_with_a_coaster();
    let near = park.rides()[0].tiles()[0];
    assert_eq!(park.fix_something_around(near, 3), None, "nothing is broken");

    assert!(park.break_down_ride(id));
    assert_eq!(park.ride(id).unwrap().state(), RideState::Broken);
    assert_eq!(park.open_ride(id), Err(BuildError::Open(openpark::park::OpenError::Broken)));
    assert_eq!(park.fix_something_around(TilePos::new(0, 0), 3), None, "too far away");

    assert_eq!(park.fix_something_around(near, 3), Some(id));
    assert_eq!(park.ride(id).unwrap().state(), RideState::Open, "a tested ride opens again");
    assert!(!park.break_down_ride(999));
}

#[test]
fn riders_and_customers_pay_into_the_tills() {
    let (mut park, id) = park_with_a_coaster();
    let price = park.ride(id).unwrap().price();
    let before = park.takings();

    assert_eq!(park.take_a_rider(id), Some(price));
    assert_eq!(park.ride(id).unwrap().riders(), 1);
    assert_eq!(park.take_a_rider(999), None);

    let stall = TilePos::new(15, 8);
    assert!(park.sell_at(stall, 12));
    assert_eq!(park.shop_at(stall).unwrap().takings(), 12);
    assert_eq!(park.shop_at(stall).unwrap().customers(), 1);
    assert!(!park.sell_at(TilePos::new(1, 1), 12), "nothing is sold off an empty tile");
    assert_eq!(park.takings(), before + price + 12);
}

#[test]
fn a_fare_goes_into_the_till_and_the_bank_together() {
    let (mut park, id) = park_with_a_coaster();
    let price = park.ride(id).unwrap().price();
    let cash = park.cash();
    let takings = park.ride(id).unwrap().takings();

    assert_eq!(park.board_a_rider(id), Some(price));
    assert_eq!(park.ride(id).unwrap().riders(), 1);
    assert_eq!(park.ride(id).unwrap().takings() - takings, price);
    assert_eq!(park.cash() - cash, price);
    assert_eq!(park.board_a_rider(999), None);
    assert_eq!(park.cash() - cash, price, "nobody boards a ride that is not there");

    let stall = TilePos::new(15, 8);
    let till = park.shop_at(stall).unwrap().takings();
    let cash = park.cash();
    assert!(park.ring_up(stall, 12));
    assert_eq!(park.shop_at(stall).unwrap().takings() - till, 12);
    assert_eq!(park.cash() - cash, 12);
    assert!(!park.ring_up(TilePos::new(1, 1), 12), "nothing is sold off an empty tile");
    assert_eq!(park.cash() - cash, 12);
}

#[test]
fn a_new_objective_is_a_new_game() {
    let mut park = new_park("Popular", 32, 32);
    assert_eq!(park.objective(), Objective::standard());
    assert_eq!(park.outcome(), Outcome::Pending);

    park.ask_for(Objective { guests: 1, by: 240 });
    park.check_the_objective(1);
    assert_eq!(park.outcome(), Outcome::Won);

    park.ask_for(Objective { guests: Park::CAPACITY, by: park.tick() + 6_000 });
    assert_eq!(park.outcome(), Outcome::Pending, "the old result stuck");
}

#[test]
fn a_bankrupt_park_loses_before_its_deadline() {
    let park = bankrupt_park();
    assert_eq!(park.outcome(), Outcome::Lost);
    assert!(park.tick() < park.objective().by);
}

#[test]
fn value_is_what_was_built_rather_than_what_it_earns() {
    let mut park = new_park("Forest Frontiers", 32, 32);
    let before = park.value();

    park.build(TilePos::new(2, 2), Facility::FoodStall).unwrap();
    assert_eq!(park.value(), before + Facility::FoodStall.build_cost());

    run_the_books(&mut park, 500);
    assert_eq!(park.value(), before + Facility::FoodStall.build_cost());

    park.demolish(TilePos::new(2, 2));
    assert_eq!(park.value(), before);
}

#[test]
fn scenery_nobody_walks_past_does_nothing_for_the_looks() {
    let mut park = new_park("Forest Frontiers", 32, 32);
    park.adjust_cash(10_000);
    let bare = park.looks();
    let value = park.value();

    for x in 0..3 {
        let _ = park.plant(TilePos::new(x, 0), Scenery::Fountain, &NOBODY);
    }

    assert_eq!(park.looks(), bare, "a fountain in a corner nobody visits counted");
    assert!(park.value() > value, "it still cost money");
}

#[test]
fn planting_where_people_walk_is_seen() {
    let mut park = new_park("Forest Frontiers", 32, 32);
    park.adjust_cash(10_000);
    let bare = park.looks();

    park.plant(TilePos::new(4, 17), Scenery::Tree, &NOBODY).unwrap();
    let planted = park.looks();
    assert!(planted.beauty > bare.beauty, "a tree beside the path changed nothing");
    assert_eq!(park.beauty_around(TilePos::new(4, 16)), Scenery::Tree.beauty());
    assert_eq!(park.beauty_around(TilePos::new(30, 30)), 0);
}

#[test]
fn a_fountain_is_seen_further_than_a_lamp() {
    let mut with_a_fountain = new_park("Forest Frontiers", 32, 32);
    let mut with_a_lamp = new_park("Forest Frontiers", 32, 32);
    with_a_fountain.plant(TilePos::new(4, 17), Scenery::Fountain, &NOBODY).unwrap();
    with_a_lamp.plant(TilePos::new(4, 17), Scenery::Lamp, &NOBODY).unwrap();

    assert!(with_a_fountain.looks().beauty > with_a_lamp.looks().beauty);
}

#[test]
fn worn_out_ground_counts_against_the_looks() {
    let mut park = new_park("Forest Frontiers", 32, 32);
    let tidy = park.looks();
    assert_eq!(tidy.worn, 0);

    for x in 0..park.width() {
        park.set_terrain(TilePos::new(x as i32, 15), Terrain::Dirt);
    }
    assert_eq!(park.looks().worn, 32);
}

#[test]
fn the_demo_coaster_is_a_working_coaster() {
    let mut park = new_park("Demo", 32, 32);
    park.adjust_cash(50_000);

    let id = coaster(&mut park, &NOBODY).expect("the demo coaster should build");
    let ride = park.ride(id).expect("it should be there");

    assert_eq!(ride.state(), RideState::Building);
    let track = ride.track().expect("it is a coaster");
    assert!(track.is_a_circuit());
    assert_eq!(track.stations().len(), 1);
    assert_eq!(track.longest_drop(), 2, "two drops in a row");
    assert_eq!(track.start(), TilePos::new(18, 18));

    let queue = every_tile(&park)
        .into_iter()
        .filter(|tile| park.land().ground(*tile) == Some(Terrain::Queue))
        .count();
    assert!(queue >= 3, "the demo ride has nowhere to queue: {queue} tiles");

    park.pass_test(id).expect("the layout goes round");
    park.open_ride(id).expect("and opens");
    assert_eq!(park.ride(id).unwrap().state(), RideState::Open);
}

#[test]
fn a_queue_runs_straight_off_the_station_and_is_paid_for_by_the_tile() {
    let (mut park, id) = park_with_a_coaster();
    let station = park.ride(id).unwrap().stations()[0];
    let queues = |park: &Park| {
        every_tile(park)
            .into_iter()
            .filter(|tile| park.land().ground(*tile) == Some(Terrain::Queue))
            .collect::<Vec<_>>()
    };
    assert!(queues(&park).is_empty());
    let cash = park.cash();

    assert_eq!(queue_for(&mut park, id, &NOBODY), Ok(()));
    let laid = queues(&park);
    assert!(!laid.is_empty() && laid.len() <= QUEUE_LENGTH as usize);
    let cost = Terrain::Queue.lay_cost().unwrap();
    assert_eq!(cash - park.cash(), cost * laid.len() as i64);
    for tile in &laid {
        assert!(tile.x == station.x || tile.y == station.y, "{tile:?} is off the line");
    }
}

#[test]
fn a_queue_needs_a_ride_with_a_station() {
    let mut park = new_park("Demo", 32, 32);
    assert_eq!(queue_for(&mut park, 9, &NOBODY), Err(BuildError::NoSuchRide(9)));
    park.adjust_cash(10_000);
    let cash = park.cash();
    plant_around(&mut park, &NOBODY);
    assert!(park.cash() < cash, "nothing was planted along the path");
    assert_eq!(park.scenery_at(TilePos::new(0, 15)), Some(Scenery::Tree));
    assert_eq!(park.scenery_at(TilePos::new(3, 17)), Some(Scenery::Flowerbed));
}

#[test]
fn the_crowd_names_the_ride_it_is_complaining_about() {
    let (park, id) = park_with_a_coaster();
    let lines = park.what_they_say(&[
        Thought::GaveUpQueueing(id),
        Thought::Thirsty,
        Thought::GaveUpQueueing(id),
        Thought::Shaken(999),
        Thought::LovedIt(id),
    ]);
    assert_eq!(
        lines,
        vec![
            "2 × The queue for The Coaster is too long".to_string(),
            "1 × that ride shook me about".to_string(),
            "1 × I'm thirsty".to_string(),
        ]
    );
}

/// Everything about `park`, read back out through what it shows.
fn parts_of(park: &Park) -> Parts {
    Parts {
        name: park.name().to_string(),
        land: park.land().clone(),
        shops: park.facilities().clone(),
        plants: park.scenery().clone(),
        rides: park.rides().to_vec(),
        staff: park.staff().to_vec(),
        books: *park.books(),
        tick: park.tick(),
        next_ride_id: park.next_ride_id(),
        next_staff_id: park.next_staff_id(),
        objective: park.objective(),
        outcome: park.outcome(),
        weather: park.weather(),
    }
}

#[test]
fn a_park_comes_back_from_its_parts_exactly_as_it_was() {
    let (mut park, _) = park_with_a_coaster();
    park.hire(StaffKind::Mechanic).expect("the coaster park can afford a mechanic");
    let restored = Park::restore(parts_of(&park)).expect("a park's own parts fit together");
    assert_eq!(restored, park);
}

#[test]
fn a_save_with_two_things_on_one_tile_is_refused() {
    let park = new_park("Crowded", 32, 32);
    let stall = every_tile(&park)
        .into_iter()
        .find(|tile| park.shop_at(*tile).is_some())
        .expect("a new park has a stall");
    let mut parts = parts_of(&park);
    parts.plants.replace(stall, Some(Scenery::Tree));
    assert_eq!(Park::restore(parts).err(), Some(RestoreError::Crowded));
}

#[test]
fn a_save_of_land_too_small_for_a_park_is_refused() {
    let park = new_park("Big enough", 16, 16);
    let mut parts = parts_of(&park);
    parts.land = Land::flat(crossroads(4, 4).unwrap());
    assert_eq!(
        Park::restore(parts).err(),
        Some(RestoreError::TooSmall { width: 4, height: 4 })
    );
}

#[test]
fn a_save_whose_shops_do_not_cover_the_land_is_refused() {
    let park = new_park("Mismatched", 16, 16);
    let mut parts = parts_of(&park);
    parts.shops = Grid::filled(12, 16, None).unwrap();
    assert_eq!(Park::restore(parts).err(), Some(RestoreError::Shops));
}

#[test]
fn parts_are_refused_on_their_own_when_they_make_no_sense() {
    assert!(Shop::restore(Facility::FoodStall, -1, 0, 0).is_none());
    assert!(Shop::restore(Facility::FoodStall, 12, 340, 17).is_some());
    assert!(Books::restore(100, Books::LOAN_LIMIT + 1, None, 0, None).is_none());
    assert!(Books::restore(100, 0, None, 0, None).is_some());
    assert!(Land::restore(
        crossroads(8, 8).unwrap(),
        Grid::filled(8, 8, Land::MAX_HEIGHT + 1).unwrap()
    )
    .is_none());

    let flat = Layout::Flat { kind: FlatRide::Carousel, corner: TilePos::new(2, 2) };
    assert!(
        Ride::restore(1, "Rushed", flat.clone(), 10, RideState::Open, false, 0, 0).is_none(),
        "open without a test run"
    );
    assert!(Ride::restore(1, "Fine", flat, 10, RideState::Closed, true, 4, 40).is_some());
}

#[test]
fn a_layout_is_laid_again_piece_by_piece() {
    let start = TilePos::new(4, 4);
    let ring = [
        TrackPiece::CurveRight,
        TrackPiece::Station,
        TrackPiece::CurveRight,
        TrackPiece::CurveRight,
        TrackPiece::Straight,
        TrackPiece::CurveRight,
    ];
    let track = Track::restore(start, Heading::North, 0, &ring).expect("a ring lays");
    assert_eq!(track.pieces(), &ring);
    assert_eq!(track.start(), start);
    assert_eq!(track.start_height(), 0);

    // Round and round again: the fifth corner lands on the first piece.
    let crossing = [TrackPiece::CurveRight; 5];
    assert!(Track::restore(start, Heading::North, 0, &crossing).is_none());
}

#[test]
fn what_is_built_is_what_the_hud_names() {
    let park = new_park("Built Up", 32, 32);
    let built = every_tile(&park)
        .into_iter()
        .find_map(|tile| park.shop_at(tile).map(|shop| (tile, shop)))
        .expect("something is built");

    assert!(park.describe(built.0).starts_with(built.1.kind().name()));

    let empty = every_tile(&park)
        .into_iter()
        .find(|tile| park.facility_at(*tile).is_none())
        .expect("some ground is still bare");
    assert!(park.describe(empty).contains(&format!("{}, {}", empty.x, empty.y)));
}

#[test]
fn the_hud_names_a_stall_by_the_price_on_its_board() {
    let mut park = new_park("Repriced", 32, 32);
    let tile = bare_ground(&park);
    park.build(tile, Facility::FoodStall).expect("a stall goes up");
    let price = park.set_price(tile, 7).expect("a stall takes a price");
    assert_eq!(price, 7);
    assert_eq!(
        park.describe(tile),
        format!("Food stall at {}, {} — 7 each, 0 taken from 0", tile.x, tile.y)
    );
}

#[test]
fn the_hud_names_what_is_under_the_pointer() {
    let mut park = new_park("Described", 32, 32);
    let stall = every_tile(&park)
        .into_iter()
        .find(|tile| park.shop_at(*tile).is_some())
        .expect("a new park has a stall");
    let shop = park.shop_at(stall).unwrap();
    assert_eq!(
        park.describe(stall),
        format!(
            "{} at {}, {} — {} each, 0 taken from 0",
            shop.kind().name(),
            stall.x,
            stall.y,
            shop.price()
        )
    );

    let corner = TilePos::new(0, 0);
    assert_eq!(park.describe(corner), "Grass at 0, 0");
    park.adjust_cash(1_000);
    park.raise(corner, &NOBODY).expect("the corner can be raised");
    assert_eq!(park.describe(corner), "Grass at 0, 0 — 1 steps up");
}

#[test]
fn a_ride_starts_unbuilt_and_unmeasured() {
    let ride = Ride::new(0, "The Nothing", Track::starting_at(TilePos::new(0, 0), Heading::North, 0));

    assert_eq!(ride.state(), RideState::Building);
    assert!(!ride.tested());
    assert!(!ride.is_open());
    assert_eq!(ride.price(), Ride::DEFAULT_PRICE);
    assert_eq!(ride.riders(), 0);
}

#[test]
fn a_layout_with_no_station_cannot_be_tested() {
    let mut track = Track::starting_at(TilePos::new(4, 4), Heading::East, 0);
    for _ in 0..4 {
        track.push(TrackPiece::CurveRight).unwrap();
    }
    assert!(track.is_a_circuit(), "four curves should close");

    let ride = Ride::new(0, "No Way On", track);
    assert_eq!(ride.check_layout(), Err(TestFailure::NoStation));
}

#[test]
fn a_layout_that_does_not_meet_up_cannot_be_tested() {
    let mut track = Track::starting_at(TilePos::new(4, 4), Heading::East, 0);
    track.push(TrackPiece::Station).unwrap();
    track.push(TrackPiece::Straight).unwrap();

    let mut ride = Ride::new(0, "The Dead End", track);
    assert_eq!(ride.check_layout(), Err(TestFailure::NotACircuit));
    assert!(ride.open().is_err(), "an untested ride opened");
}

/// A four-by-four ring, chained up three steps, dropped down three, and
/// braked before the station.
fn chained_ring() -> Track {
    let mut track = Track::starting_at(TilePos::new(4, 4), Heading::North, 0);
    for side in [
        [TrackPiece::Station, TrackPiece::LiftHill],
        [TrackPiece::LiftHill, TrackPiece::LiftHill],
        [TrackPiece::SlopeDown, TrackPiece::SlopeDown],
        [TrackPiece::SlopeDown, TrackPiece::Brakes],
    ] {
        track.push(TrackPiece::CurveRight).expect("a corner should lay");
        for piece in side {
            track.push(piece).expect("a side should lay");
        }
    }
    assert!(track.is_a_circuit(), "the ring does not close");
    track
}

#[test]
fn ride_a_price_never_leaves_its_range() {
    let mut ride = Ride::new(0, "The Coaster", chained_ring());
    assert_eq!(ride.set_price(-10), 0);
    assert_eq!(ride.set_price(10_000), Ride::MAX_PRICE);

    ride.set_price(10);
    assert_eq!(ride.raise_price(), 10 + Ride::PRICE_STEP);
    assert_eq!(ride.lower_price(), 10);
}

#[test]
fn scenery_nobody_walks_past_does_nothing_for_the_rating() {
    let mut park = new_park("Forest Frontiers", 32, 32);
    park.adjust_cash(10_000);
    let bare = park.looks();
    let bare_value = park.value();

    // The far corner, well away from the crossroads.
    for x in 0..3 {
        assert_eq!(park.plant(TilePos::new(x, 0), Scenery::Fountain, &NOBODY), Ok(()));
    }

    let hidden = park.looks();
    assert_eq!(hidden, bare, "a fountain in a corner nobody visits changed the looks");
    assert!(park.value() > bare_value, "it still cost money");

    // The same fountain beside the path is seen.
    assert_eq!(park.plant(TilePos::new(15, 3), Scenery::Fountain, &NOBODY), Ok(()));
    assert!(park.looks().beauty > bare.beauty);
}

#[test]
fn a_new_park_is_the_same_park_every_time() {
    let a = new_park("Forest Frontiers", 32, 32);
    let b = new_park("Forest Frontiers", 32, 32);
    assert_eq!(a, b, "two parks opened the same way came out different");
}


#[test]
fn the_hud_names_whoever_of_the_staff_is_standing_there() {
    let member = openpark::park::Staff::hired(4, StaffKind::Entertainer);
    assert_eq!(
        openpark::park::describe::describe_staff(&member, TilePos::new(3, -2)),
        "Entertainer at 3, -2 — 60 a bill"
    );
}
