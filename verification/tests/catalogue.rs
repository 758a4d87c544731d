//! What each kind of thing costs, is called and looks like.

use openpark::park::{Facility, FlatRide, Scenery, StaffKind, Terrain, TilePos};

const ALL_TERRAIN: [Terrain; 5] = [
    Terrain::Grass,
    Terrain::Path,
    Terrain::Dirt,
    Terrain::Water,
    Terrain::Rock,
];

#[test]
fn walkable_terrain_always_has_a_cost() {
    for terrain in ALL_TERRAIN {
        assert_eq!(
            terrain.is_walkable(),
            terrain.walk_cost().is_some(),
            "{terrain:?} disagrees with itself about being walkable"
        );
    }
}

#[test]
fn no_step_is_free() {
    for terrain in ALL_TERRAIN {
        assert_ne!(terrain.walk_cost(), Some(0), "{terrain:?} would let a guest loop for free");
    }
}

#[test]
fn guests_prefer_paths_to_everything_else() {
    let path = Terrain::Path.walk_cost().unwrap();
    for terrain in ALL_TERRAIN.into_iter().filter(|t| *t != Terrain::Path) {
        if let Some(cost) = terrain.walk_cost() {
            assert!(path < cost, "guests would not prefer a path over {terrain:?}");
        }
    }
}

#[test]
fn buildable_ground_is_also_walkable() {
    for terrain in ALL_TERRAIN.into_iter().filter(|t| t.is_buildable()) {
        assert!(terrain.is_walkable(), "{terrain:?} can be built on but not stood on");
    }
}

#[test]
fn every_terrain_looks_different() {
    let mut colours: Vec<_> = ALL_TERRAIN.into_iter().map(Terrain::colour).collect();
    colours.sort_by_key(|c| (c.r, c.g, c.b));
    colours.dedup();
    assert_eq!(colours.len(), ALL_TERRAIN.len(), "two terrains draw the same colour");
}

#[test]
fn everything_layable_has_a_price_and_rock_does_not() {
    for terrain in Terrain::LAYABLE {
        assert!(
            terrain.lay_cost().is_some_and(|cost| cost > 0),
            "{terrain:?} is free to lay"
        );
    }
    assert_eq!(Terrain::Rock.lay_cost(), None);
    assert!(!Terrain::LAYABLE.contains(&Terrain::Rock), "rock is on the toolbar and cannot be bought");
}

#[test]
fn a_path_costs_more_than_the_grass_it_replaces() {
    assert!(Terrain::Path.lay_cost() > Terrain::Grass.lay_cost());
}

#[test]
fn everything_is_told_apart_by_name() {
    let all = [Terrain::Grass, Terrain::Path, Terrain::Dirt, Terrain::Water, Terrain::Rock];
    let mut names: Vec<_> = all.iter().map(|terrain| terrain.name()).collect();
    names.sort_unstable();
    names.dedup();
    assert_eq!(names.len(), all.len());
}

#[test]
fn terrain_costs_and_names_are_exactly_these() {
    assert_eq!(Terrain::Path.lay_cost(), Some(25));
    assert_eq!(Terrain::Queue.lay_cost(), Some(30));
    assert_eq!(Terrain::Water.lay_cost(), Some(50));
    assert_eq!(Terrain::Grass.walk_cost(), Some(6));
    assert_eq!(Terrain::Dirt.walk_cost(), Some(4));
    assert_eq!(Terrain::Queue.name(), "Queue path");
    let grass = Terrain::Grass.colour();
    assert_eq!((grass.r, grass.g, grass.b), (0x5E, 0x8C, 0x3E));
}

#[test]
fn nothing_is_free_to_build() {
    for facility in Facility::ALL {
        assert!(facility.build_cost() > 0, "{facility:?} costs the park nothing to put up");
    }
}

#[test]
fn the_stalls_charge_and_the_rest_do_not() {
    assert!(Facility::FoodStall.price() > 0);
    assert!(Facility::DrinkStall.price() > 0);

    for free in [Facility::Bench, Facility::Toilet, Facility::Bin] {
        assert_eq!(free.price(), 0, "{free:?} opens free");
    }
}

#[test]
fn a_bin_is_not_something_anybody_queues_for() {
    assert!(!Facility::WANTED.contains(&Facility::Bin), "guests queue for the bins");
    for wanted in Facility::WANTED {
        assert!(Facility::ALL.contains(&wanted), "{wanted:?}");
    }
}

#[test]
fn everything_costs_something_to_keep_open() {
    for facility in Facility::ALL {
        assert!(facility.upkeep() > 0, "{facility:?} costs the park nothing to run");
    }
}

#[test]
fn a_stall_at_the_fair_price_covers_its_own_upkeep() {
    for stall in [Facility::FoodStall, Facility::DrinkStall] {
        assert!(
            stall.price() * 3 > stall.upkeep(),
            "three customers a wage bill should keep a {stall:?} in business"
        );
    }
}

#[test]
fn using_anything_takes_time() {
    for facility in Facility::ALL {
        assert!(facility.ticks_to_use() > 0, "{facility:?} is used instantly, which nothing is");
    }
}

#[test]
fn a_stall_pays_for_itself_eventually() {
    for stall in [Facility::FoodStall, Facility::DrinkStall] {
        assert!(
            stall.build_cost() / stall.price() < 100,
            "a {stall:?} would need a hundred customers to break even"
        );
    }
}

#[test]
fn everything_is_told_apart_by_colour_and_by_name() {
    let mut colours: Vec<_> = Facility::ALL.iter().map(|f| f.colour()).collect();
    colours.sort_by_key(|c| (c.r, c.g, c.b));
    colours.dedup();
    assert_eq!(colours.len(), Facility::ALL.len());

    let mut names: Vec<_> = Facility::ALL.iter().map(|f| f.name()).collect();
    names.sort_unstable();
    names.dedup();
    assert_eq!(names.len(), Facility::ALL.len());
}

#[test]
fn facility_numbers_are_exactly_these() {
    assert_eq!(Facility::FoodStall.build_cost(), 600);
    assert_eq!(Facility::Toilet.upkeep(), 30);
    assert_eq!(Facility::Bench.ticks_to_use(), 800);
    assert_eq!(Facility::Bin.name(), "Litter bin");
    let roof = Facility::FoodStall.trim_colour();
    assert_eq!((roof.r, roof.g, roof.b), (0xF2, 0xE4, 0xC9));
}

#[test]
fn everything_costs_money_and_carries_people() {
    for ride in FlatRide::ALL {
        assert!(ride.cost() > 0, "{ride:?} is free");
        assert!(ride.upkeep() > 0, "{ride:?} costs nothing to run");
        assert!(ride.seats() > 0, "{ride:?} carries nobody");
        assert!(ride.ride_time() > 0, "{ride:?} is over instantly");
        assert!(ride.footprint() > 1, "{ride:?} takes up no room");
    }
}

#[test]
fn flat_everything_is_told_apart_by_name_and_colour() {
    let mut names: Vec<_> = FlatRide::ALL.iter().map(|ride| ride.name()).collect();
    names.sort_unstable();
    names.dedup();
    assert_eq!(names.len(), FlatRide::ALL.len());

    let mut colours: Vec<_> = FlatRide::ALL.iter().map(|ride| ride.colour()).collect();
    colours.sort_by_key(|c| (c.r, c.g, c.b));
    colours.dedup();
    assert_eq!(colours.len(), FlatRide::ALL.len());
}

#[test]
fn flat_ride_numbers_are_exactly_these() {
    assert_eq!(FlatRide::FerrisWheel.cost(), 1_600);
    assert_eq!(FlatRide::HauntedHouse.footprint(), 3);
    assert_eq!(FlatRide::TeaCups.seats(), 8);
    assert_eq!(FlatRide::Carousel.ride_time(), 800);
    assert_eq!(FlatRide::FerrisWheel.name(), "Ferris wheel");
    let frame = FlatRide::TeaCups.frame_colour();
    assert_eq!((frame.r, frame.g, frame.b), (0xB2, 0x5A, 0x7A));
}

#[test]
fn nothing_is_free_to_put_up_or_to_keep() {
    for scenery in Scenery::ALL {
        assert!(scenery.cost() > 0, "{scenery:?} is free");
        assert!(scenery.upkeep() > 0, "{scenery:?} costs nothing to keep");
    }
}

#[test]
fn everything_is_worth_looking_at() {
    for scenery in Scenery::ALL {
        assert!(scenery.beauty() > 0, "{scenery:?} is not worth looking at");
        assert!(scenery.reach() > 0, "{scenery:?} cannot be seen at all");
    }
}

#[test]
fn the_dearer_it_is_the_better_it_looks() {
    let mut by_cost = Scenery::ALL;
    by_cost.sort_by_key(|scenery| scenery.cost());

    let looks: Vec<u32> = by_cost.iter().map(|scenery| scenery.beauty()).collect();
    let mut sorted = looks.clone();
    sorted.sort_unstable();

    assert_eq!(looks, sorted, "something cheap is prettier than something dear");
}

#[test]
fn scenery_everything_is_told_apart_by_name_and_colour() {
    let mut names: Vec<_> = Scenery::ALL.iter().map(|s| s.name()).collect();
    names.sort_unstable();
    names.dedup();
    assert_eq!(names.len(), Scenery::ALL.len());

    let mut colours: Vec<_> = Scenery::ALL.iter().map(|s| s.colour()).collect();
    colours.sort_by_key(|c| (c.r, c.g, c.b));
    colours.dedup();
    assert_eq!(colours.len(), Scenery::ALL.len());
}

#[test]
fn scenery_numbers_are_exactly_these() {
    assert_eq!(Scenery::Fountain.cost(), 450);
    assert_eq!(Scenery::Fountain.reach(), 6);
    assert_eq!(Scenery::Flowerbed.upkeep(), 3);
    assert_eq!(Scenery::Lamp.beauty(), 1);
    let stem = Scenery::Tree.stem_colour();
    assert_eq!((stem.r, stem.g, stem.b), (0x5B, 0x43, 0x2E));
}

#[test]
fn nobody_works_for_nothing() {
    for kind in StaffKind::ALL {
        assert!(kind.wage() > 0, "{kind:?} works for free");
        assert!(kind.hire_cost() > 0, "{kind:?} costs nothing to take on");
        assert!(kind.reach() > 0, "{kind:?} cannot reach anything");
    }
}

#[test]
fn everybody_is_told_apart_by_name_and_by_uniform() {
    let mut names: Vec<_> = StaffKind::ALL.iter().map(|kind| kind.name()).collect();
    names.sort_unstable();
    names.dedup();
    assert_eq!(names.len(), StaffKind::ALL.len());

    let mut colours: Vec<_> = StaffKind::ALL.iter().map(|kind| kind.colour()).collect();
    colours.sort_by_key(|c| (c.r, c.g, c.b));
    colours.dedup();
    assert_eq!(colours.len(), StaffKind::ALL.len());
}

#[test]
fn work_reaches_exactly_as_far_as_it_says() {

    let at = TilePos::new(10, 10);
    for kind in StaffKind::ALL {
        let edge = at.offset(kind.reach() as i32, 0);
        let past = at.offset(kind.reach() as i32 + 1, 0);

        assert!(kind.reaches(at, edge), "{kind:?} cannot reach its own edge");
        assert!(!kind.reaches(at, past), "{kind:?} reaches too far");
    }
}

#[test]
fn staff_numbers_are_exactly_these() {
    assert_eq!(StaffKind::Mechanic.hire_cost(), 300);
    assert_eq!(StaffKind::Entertainer.wage(), 60);
    assert_eq!(StaffKind::Mechanic.reach(), 6);
    assert_eq!(StaffKind::Handyman.name(), "Handyman");
}
