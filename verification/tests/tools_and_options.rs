//! The tools a player holds, and the flags the game starts with.

use openpark::cli::{parse_i32, parse_u64, tile, tool, value_of, Flag};
use openpark::park::{Facility, FlatRide, Scenery, StaffKind, Terrain, TilePos, TrackPiece};
use openpark::tool::{Tool, ToolKey};

fn all_tools() -> Vec<Tool> {
    Tool::kits().into_iter().flatten().collect()
}

#[test]
fn a_new_game_is_only_looking() {
    assert_eq!(Tool::default(), Tool::Inspect);
    assert!(!Tool::default().is_active());
}

#[test]
fn every_toolbar_cycles_through_itself_and_comes_back() {
    for (number, kit) in Tool::kits().iter().enumerate() {
        let first = Tool::from_kit(number).expect("every toolbar has a tool on it");
        let mut seen = Vec::new();
        let mut tool = first;

        for _ in 0..kit.len() {
            seen.push(tool);
            tool = tool.next();
        }

        assert_eq!(tool, first, "toolbar {number} does not come back round");
        for expected in kit {
            assert!(seen.contains(expected), "{expected:?} is unreachable");
        }
    }
    assert_eq!(Tool::from_kit(99), None, "there is no hundredth toolbar");
}

#[test]
fn a_tool_only_ever_cycles_within_its_own_toolbar() {
    for tool in all_tools() {
        assert_eq!(tool.next().kit(), tool.kit(), "{tool:?} cycles off its own toolbar");
    }
}

#[test]
fn no_tool_is_on_two_toolbars() {
    let mut every = all_tools();
    let laid_out = every.len();
    every.sort_by_key(|tool| format!("{tool:?}"));
    every.dedup();

    assert_eq!(every.len(), laid_out, "a tool appears on two toolbars");
}

#[test]
fn everything_that_is_not_inspecting_changes_the_park() {
    for tool in all_tools() {
        assert_eq!(tool.is_active(), tool != Tool::Inspect, "{tool:?}");
    }
}

#[test]
fn only_a_building_tool_is_building_something() {
    assert_eq!(Tool::Inspect.facility(), None);
    assert_eq!(Tool::Demolish.facility(), None);
    assert_eq!(Tool::RaisePrice.facility(), None);
    assert_eq!(Tool::Build(Facility::Bench).facility(), Some(Facility::Bench));
}

#[test]
fn only_a_hiring_tool_is_hiring_somebody() {
    assert_eq!(Tool::Inspect.staff(), None);
    assert_eq!(Tool::Fire.staff(), None);
    assert_eq!(Tool::Hire(StaffKind::Handyman).staff(), Some(StaffKind::Handyman));
}

#[test]
fn only_a_laying_tool_is_laying_something() {
    assert_eq!(Tool::Inspect.terrain(), None);
    assert_eq!(Tool::Raise.terrain(), None);
    assert_eq!(Tool::Lay(Terrain::Path).terrain(), Some(Terrain::Path));
}

#[test]
fn every_flat_ride_is_in_the_cycle() {
    for kind in FlatRide::ALL {
        assert!(all_tools().contains(&Tool::Buy(kind)), "{kind:?} cannot be bought with the mouse");
    }
}

#[test]
fn everything_that_can_be_planted_is_in_the_cycle() {
    for scenery in Scenery::ALL {
        assert!(all_tools().contains(&Tool::Plant(scenery)), "{scenery:?} cannot be planted with the mouse");
    }
}

#[test]
fn everything_that_can_be_laid_is_in_the_cycle() {
    for terrain in Terrain::LAYABLE {
        assert!(all_tools().contains(&Tool::Lay(terrain)), "{terrain:?} cannot be laid with the mouse");
    }
}

#[test]
fn everything_that_can_be_built_or_hired_is_in_the_cycle() {
    for facility in [Facility::FoodStall, Facility::Bench] {
        assert!(all_tools().contains(&Tool::Build(facility)), "{facility:?} cannot be built with the mouse");
    }
    for kind in StaffKind::ALL {
        assert!(all_tools().contains(&Tool::Hire(kind)), "{kind:?} cannot be hired with the mouse");
    }
}

#[test]
fn every_tool_says_what_it_is_and_what_it_costs() {
    for tool in all_tools() {
        let label = tool.label();
        assert!(!label.is_empty(), "{tool:?} has no label");

        if let Some(facility) = tool.facility() {
            assert!(label.contains(facility.name()));
            assert!(label.contains(&facility.build_cost().to_string()));
        }

        if let Some(kind) = tool.staff() {
            assert!(label.contains(kind.name()));
            assert!(label.contains(&kind.hire_cost().to_string()));
        }

        if let Some(terrain) = tool.terrain() {
            assert!(label.to_lowercase().contains(&terrain.name().to_lowercase()));
        }
    }
}

#[test]
fn labels_read_exactly_as_they_should() {
    assert_eq!(Tool::Build(Facility::FoodStall).label(), "Build Food stall (600)");
    assert_eq!(Tool::RaisePrice.label(), "Put the price up (+2)");
    assert_eq!(Tool::LowerPrice.label(), "Bring the price down (-2)");
    assert_eq!(Tool::Raise.label(), "Raise the land (20)");
    assert_eq!(Tool::Lay(Terrain::Queue).label(), "Lay queue path (30)");
    assert_eq!(Tool::Lay(Terrain::Rock).label(), "Lay rock");
    assert_eq!(Tool::Track(TrackPiece::LiftHill).label(), "Lay lift hill (140)");
    assert_eq!(Tool::Save.label(), "Save the park to openpark.save.json");
    assert_eq!(Tool::Buy(FlatRide::FerrisWheel).label(), "Buy a ferris wheel (1600, 3 by 3)");
    assert_eq!(Tool::Plant(Scenery::Fountain).label(), "Plant fountain (450)");
}

#[test]
fn a_tool_off_every_toolbar_falls_back_to_looking() {
    let drinks = Tool::Build(Facility::DrinkStall);
    assert_eq!(drinks.kit(), 0);
    assert_eq!(drinks.next(), Tool::Inspect);
    assert_eq!(Tool::Unlay.next(), Tool::StartRide, "the track toolbar wraps round");
}

#[test]
fn only_the_tool_that_says_so_carries_a_piece_a_ride_or_a_tree() {
    assert_eq!(Tool::Track(TrackPiece::Brakes).track(), Some(TrackPiece::Brakes));
    assert_eq!(Tool::Unlay.track(), None);
    assert_eq!(Tool::Plant(Scenery::Lamp).scenery(), Some(Scenery::Lamp));
    assert_eq!(Tool::Buy(FlatRide::TeaCups).flat_ride(), Some(FlatRide::TeaCups));
    assert!(Tool::StartRide.wants_a_heading());
    assert!(!Tool::Unlay.wants_a_heading());
}

#[test]
fn every_tool_can_be_named() {
    for (name, expected) in [
        ("inspect", Tool::Inspect),
        ("stall", Tool::Build(Facility::FoodStall)),
        ("bench", Tool::Build(Facility::Bench)),
        ("demolish", Tool::Demolish),
        ("dig", Tool::Lower),
        ("water", Tool::Lay(Terrain::Water)),
        ("entertainer", Tool::Hire(StaffKind::Entertainer)),
    ] {
        assert_eq!(tool(name), Ok(expected), "--tool {name}");
    }
}

#[test]
fn nonsense_is_refused_rather_than_guessed_at() {
    assert_eq!(value_of("--nope"), Flag::Unknown);
    assert_eq!(parse_u64("banana"), None);
    assert_eq!(parse_u64("-4"), None);
    assert!(tile("16").is_err());
    assert!(tile("16,x").is_err());
    assert!(tool("bulldozer").is_err());
}

#[test]
fn every_flag_is_known_by_its_name() {
    assert_eq!(value_of("--seed"), Flag::Seed);
    assert_eq!(value_of("--screenshot"), Flag::Screenshot);
    assert_eq!(value_of("--ticks"), Flag::Ticks);
    assert_eq!(value_of("--zoom"), Flag::Zoom);
    assert_eq!(value_of("--focus"), Flag::Focus);
    assert_eq!(value_of("--hover"), Flag::Hover);
    assert_eq!(value_of("--tool"), Flag::Tool);
    assert_eq!(value_of("--coaster"), Flag::Coaster);
    assert_eq!(value_of("--save"), Flag::Save);
    assert_eq!(value_of("--load"), Flag::Load);
    assert_eq!(value_of("-h"), Flag::Help);
    assert_eq!(value_of("--help"), Flag::Help);
}

#[test]
fn numbers_are_read_the_way_the_standard_library_reads_them() {
    assert_eq!(parse_u64("7"), Some(7));
    assert_eq!(parse_u64("+600"), Some(600));
    assert_eq!(parse_u64("18446744073709551615"), Some(u64::MAX));
    assert_eq!(parse_u64("18446744073709551616"), None);
    assert_eq!(parse_u64(""), None);
    assert_eq!(parse_u64("+"), None);
    assert_eq!(parse_i32("-2147483648"), Some(i32::MIN));
    assert_eq!(parse_i32("2147483648"), None);
    assert_eq!(parse_i32("-17"), Some(-17));
    assert_eq!(parse_i32("1 2"), None);
    for text in ["0", "42", "+9", "-9", "99999999999", "x", "-", "3-"] {
        assert_eq!(parse_i32(text), text.parse::<i32>().ok(), "{text}");
        assert_eq!(parse_u64(text), text.parse::<u64>().ok(), "{text}");
    }
}

#[test]
fn a_tile_is_two_numbers_either_side_of_a_comma() {
    assert_eq!(tile("16,20"), Ok(TilePos::new(16, 20)));
    assert_eq!(tile("-1,+2"), Ok(TilePos::new(-1, 2)));
    assert!(tile("16,20,3").is_err());
}

#[test]
fn escape_puts_the_tool_down_before_it_closes_the_game() {
    let demolish = Tool::Demolish;
    assert_eq!(demolish.press(ToolKey::Escape), (Tool::Inspect, false));
    assert_eq!(Tool::Inspect.press(ToolKey::Escape), (Tool::Inspect, true));
}

#[test]
fn the_number_row_picks_a_toolbar_and_space_walks_it() {
    assert_eq!(Tool::Inspect.press(ToolKey::Number(1)), (Tool::Inspect, false));
    assert_eq!(Tool::Inspect.press(ToolKey::Number(2)), (Tool::Build(Facility::FoodStall), false));
    assert_eq!(Tool::from_kit(9).map(|t| (t, false)), Some(Tool::Inspect.press(ToolKey::Number(0))));
    assert_eq!(Tool::Demolish.press(ToolKey::Number(10)), (Tool::Demolish, false), "no such key");
    let stall = Tool::Build(Facility::FoodStall);
    assert_eq!(stall.press(ToolKey::Space), (stall.next(), false));
    assert_eq!(stall.press(ToolKey::Space).0, Tool::Build(Facility::Bench));
}
