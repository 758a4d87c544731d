//! Land, track and the shapes rides are laid in.

use openpark::park::{Grid, Heading, Land, Money, Terrain, TilePos, Track, TrackPiece};

/// A three-by-two ring: four corners to turn on, the station along one side,
/// and one straight on the other.
fn oval() -> Track {
    let mut track = Track::starting_at(TilePos::new(8, 8), Heading::North, 0);
    for piece in [
        TrackPiece::CurveRight,
        TrackPiece::Station,
        TrackPiece::CurveRight,
        TrackPiece::CurveRight,
        TrackPiece::Straight,
        TrackPiece::CurveRight,
    ] {
        track.push(piece).expect("the oval should lay");
    }
    track
}

#[test]
fn every_heading_comes_back_round() {
    for heading in Heading::ALL {
        assert_eq!(heading.right().right().right().right(), heading);
        assert_eq!(heading.left(), heading.right().right().right());
        assert_eq!(heading.about(), heading.right().right());
        assert_ne!(heading.about(), heading);
    }
}

#[test]
fn a_heading_walks_the_way_it_points() {
    let tile = TilePos::new(5, 5);
    assert_eq!(Heading::North.beyond(tile), TilePos::new(5, 4));
    assert_eq!(Heading::South.beyond(tile), TilePos::new(5, 6));
    assert_eq!(Heading::East.beyond(tile), TilePos::new(6, 5));
    assert_eq!(Heading::West.beyond(tile), TilePos::new(4, 5));
}

#[test]
fn an_empty_layout_has_nothing_in_it() {
    let track = Track::starting_at(TilePos::origin(), Heading::North, 0);
    assert!(track.is_empty());
    assert_eq!(track.len(), 0);
    assert_eq!(track.cost(), 0);
    assert!(track.segments().is_empty());
    assert!(!track.is_a_circuit(), "nothing is not a circuit");
    assert_eq!(track.next_place(), (TilePos::origin(), Heading::North, 0));
}

#[test]
fn pieces_follow_one_another_along_the_grid() {
    let track = oval();
    let laid = track.segments();

    assert_eq!(laid.len(), 6);
    assert_eq!(laid[0].tile, TilePos::new(8, 8), "the first corner");
    assert_eq!(laid[1].tile, TilePos::new(9, 8), "the station, facing east");
    assert_eq!(laid[1].heading, Heading::East);
    assert_eq!(laid[2].tile, TilePos::new(10, 8));
    assert_eq!(laid[3].tile, TilePos::new(10, 9), "turned south");
    assert_eq!(laid[3].heading, Heading::South);
}

#[test]
fn laying_a_lift_hill_climbs_a_step() {
    let mut track = Track::starting_at(TilePos::new(4, 4), Heading::East, 0);
    track.push(TrackPiece::Station).unwrap();
    let lift = track.push(TrackPiece::LiftHill).unwrap();

    let laid = track.segments();
    assert_eq!(laid[0].tile, TilePos::new(4, 4));
    assert_eq!(laid[1].tile, TilePos::new(5, 4), "east of the station");
    assert_eq!(laid[1].exit, 1, "and a step higher than it started");
    assert_eq!(lift, laid[1]);
}

#[test]
fn four_right_turns_make_a_circuit() {
    let track = oval();
    assert!(track.is_a_circuit(), "the oval does not close");

    let mut open = oval();
    open.pop();
    assert!(!open.is_a_circuit(), "it closed with a piece missing");

    let mut square = Track::starting_at(TilePos::new(4, 4), Heading::East, 0);
    for _ in 0..3 {
        square.push(TrackPiece::CurveRight).unwrap();
    }
    assert!(!square.is_a_circuit(), "three sides of a square are not a lap");
    square.push(TrackPiece::CurveRight).unwrap();
    assert!(square.is_a_circuit(), "four right turns come back round");
}

#[test]
fn a_layout_cannot_cross_itself() {
    let mut track = Track::starting_at(TilePos::new(8, 8), Heading::East, 0);
    for piece in [
        TrackPiece::Station,
        TrackPiece::CurveRight,
        TrackPiece::CurveRight,
        TrackPiece::CurveRight,
    ] {
        track.push(piece).unwrap();
    }

    assert!(track.push(TrackPiece::CurveRight).is_err());
    assert_eq!(track.len(), 4, "the refused piece was laid anyway");
}

#[test]
fn track_cannot_climb_out_of_the_park() {
    let mut track = Track::starting_at(TilePos::new(0, 8), Heading::East, 0);
    track.push(TrackPiece::Station).unwrap();
    for _ in 0..Land::MAX_HEIGHT {
        track.push(TrackPiece::LiftHill).unwrap();
    }

    assert!(track.push(TrackPiece::LiftHill).is_err(), "into orbit");
    assert!(track.push(TrackPiece::SlopeDown).is_ok(), "but coming back down is fine");
}

#[test]
fn track_cannot_dig_below_the_base() {
    let mut track = Track::starting_at(TilePos::new(0, 8), Heading::East, 0);
    track.push(TrackPiece::Station).unwrap();
    assert!(track.push(TrackPiece::SlopeDown).is_err());
}

#[test]
fn a_layout_is_capped_in_length() {
    let mut track = Track::starting_at(TilePos::origin(), Heading::East, 0);
    for _ in 0..Track::MAX_PIECES {
        track.push(TrackPiece::Straight).unwrap();
    }

    assert!(track.push(TrackPiece::Straight).is_err());
    assert_eq!(track.len(), Track::MAX_PIECES);
}

#[test]
fn the_station_is_the_only_way_in() {
    let track = oval();
    assert_eq!(track.stations(), vec![TilePos::new(9, 8)]);
    assert_eq!(track.tiles().len(), track.len());
    assert!(track.occupies(TilePos::new(9, 8)));
    assert!(!track.occupies(TilePos::new(12, 12)));
}

#[test]
fn what_a_layout_costs_is_what_its_pieces_cost() {
    let track = oval();
    let by_hand: Money = track.pieces().iter().map(|piece| piece.cost()).sum();

    assert_eq!(track.cost(), by_hand);
    assert!(track.cost() > 0);
    assert!(track.upkeep() > 0);
    assert_eq!(track.curves(), 4);
}

#[test]
fn the_range_and_the_drop_are_measured_off_the_layout() {
    let mut track = Track::starting_at(TilePos::new(8, 8), Heading::East, 0);
    for piece in [
        TrackPiece::Station,
        TrackPiece::LiftHill,
        TrackPiece::LiftHill,
        TrackPiece::SlopeDown,
        TrackPiece::SlopeDown,
        TrackPiece::Straight,
        TrackPiece::SlopeUp,
    ] {
        track.push(piece).unwrap();
    }

    assert_eq!(track.range(), (0, 2));
    assert_eq!(track.longest_drop(), 2, "two falling pieces in a row");
    assert_eq!(track.curves(), 0);
}

#[test]
fn the_drop_is_the_longest_run_not_the_total() {
    let mut track = Track::starting_at(TilePos::new(8, 8), Heading::East, 0);
    for piece in [
        TrackPiece::Station,
        TrackPiece::LiftHill,
        TrackPiece::LiftHill,
        TrackPiece::LiftHill,
        TrackPiece::SlopeDown,
        TrackPiece::Straight,
        TrackPiece::SlopeDown,
        TrackPiece::SlopeDown,
    ] {
        track.push(piece).unwrap();
    }

    assert_eq!(track.longest_drop(), 2);
}

#[test]
fn every_piece_knows_what_it_does() {
    for piece in TrackPiece::ALL {
        assert!(piece.cost() > 0, "{piece:?} is free");
        assert!(piece.upkeep() > 0, "{piece:?} costs nothing to run");
        assert!(!piece.name().is_empty());
        assert!((-1..=1).contains(&piece.climb()), "{piece:?} climbs oddly");
    }

    assert_eq!(TrackPiece::CurveLeft.steer(Heading::North), Heading::West);
    assert_eq!(TrackPiece::CurveRight.steer(Heading::North), Heading::East);
    assert_eq!(TrackPiece::Straight.steer(Heading::North), Heading::North);
    assert!(TrackPiece::LiftHill.is_powered());
    assert!(!TrackPiece::SlopeDown.is_powered());
}

#[test]
fn taking_a_piece_off_gives_back_the_layout_before_it() {
    let before = oval();
    let mut track = oval();
    track.pop();
    track.push(TrackPiece::CurveRight).unwrap();
    assert_eq!(track, before);
    assert_eq!(track.pop(), Some(TrackPiece::CurveRight));
    let mut empty = Track::starting_at(TilePos::origin(), Heading::North, 0);
    assert_eq!(empty.pop(), None);
}

fn flat_grass(size: u32) -> Land {
    Land::flat(Grid::filled(size, size, Terrain::Grass).unwrap())
}

#[test]
fn new_land_is_flat_and_all_one_thing() {
    let land = flat_grass(8);
    assert_eq!(land.width(), 8);
    assert_eq!(land.height(), 8);
    assert_eq!(land.highest(), Land::MIN_HEIGHT);
    assert!(land.heights().as_slice().iter().all(|height| *height == Land::MIN_HEIGHT));
}

#[test]
fn a_tile_outside_the_park_has_no_shape_to_change() {
    let mut land = flat_grass(8);
    let outside = TilePos::new(-1, -1);

    assert_eq!(land.height_at(outside), None);
    assert_eq!(land.ground(outside), None);
    assert!(land.raise(outside).is_err());
    assert!(land.lower(outside).is_err());
    assert_eq!(land.set_ground(outside, Terrain::Path), None);
}

#[test]
fn land_never_leaves_its_range() {
    let mut land = flat_grass(8);
    let tile = TilePos::new(2, 2);

    for _ in 0..Land::MAX_HEIGHT {
        land.raise(tile).unwrap();
    }
    assert_eq!(land.height_at(tile), Some(Land::MAX_HEIGHT));
    assert!(land.raise(tile).is_err(), "it went past the ceiling");

    for _ in 0..Land::MAX_HEIGHT {
        land.lower(tile).unwrap();
    }
    assert_eq!(land.height_at(tile), Some(Land::MIN_HEIGHT));
    assert!(land.lower(tile).is_err(), "it dug past the base");
}

#[test]
fn the_highest_tile_is_the_one_that_was_raised() {
    let mut land = flat_grass(8);
    land.raise(TilePos::new(3, 3)).unwrap();
    land.raise(TilePos::new(3, 3)).unwrap();
    assert_eq!(land.highest(), 2);
}

#[test]
fn a_gentle_step_costs_more_than_flat_ground() {
    let mut land = flat_grass(8);
    let (here, there) = (TilePos::new(1, 1), TilePos::new(1, 2));
    let flat = land.step_cost(here, there).unwrap();

    land.raise(there).unwrap();
    let uphill = land.step_cost(here, there).unwrap();
    assert!(uphill > flat, "climbing is free");
    assert_eq!(land.step_cost(there, here).unwrap(), uphill);
    assert_eq!((flat, uphill), (6, 10));
}

#[test]
fn nobody_walks_off_a_cliff() {
    let mut land = flat_grass(8);
    let (here, there) = (TilePos::new(1, 1), TilePos::new(1, 2));

    for _ in 0..=Land::MAX_STEP {
        land.raise(there).unwrap();
    }

    assert!(!land.is_a_step(here, there), "a cliff was climbed");
    assert!(!land.is_a_step(there, here), "a cliff was jumped off");
}

#[test]
fn nobody_walks_into_the_water_however_flat_it_is() {
    let mut land = flat_grass(8);
    let there = TilePos::new(1, 2);
    land.set_ground(there, Terrain::Water);

    assert!(!land.is_a_step(TilePos::new(1, 1), there));
}

#[test]
fn raising_and_lowering_gives_the_land_back() {
    let mut land = flat_grass(8);
    let before = land.clone();
    assert_eq!(land.raise(TilePos::origin()), Ok(1));
    assert_eq!(land.lower(TilePos::origin()), Ok(0));
    assert!(land.lower(TilePos::origin()).is_err(), "the base is the bottom");
    assert_eq!(land, before);
}

#[test]
fn a_grid_says_which_tiles_are_its_own() {
    let mut grid = Grid::filled(3, 2, 7u8).unwrap();
    assert!(grid.contains(TilePos::new(2, 1)));
    assert!(!grid.contains(TilePos::new(3, 1)));
    assert_eq!(grid.get(TilePos::new(1, 1)), Some(7));
    assert_eq!(grid.replace(TilePos::new(1, 1), 9), Some(7));
    assert_eq!(grid.get(TilePos::new(1, 1)), Some(9));
    assert_eq!(grid.replace(TilePos::new(-1, 0), 9), None);
    assert!(Grid::filled(0, 4, 0u8).is_none());
}
