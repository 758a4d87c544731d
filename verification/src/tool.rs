//! What the mouse does when you click.

use vstd::prelude::*;
use vstd::string::*;

use crate::park::facility::{build_cost_of, facility_name};
use crate::park::flat::{flat_cost, flat_footprint, flat_name};
use crate::park::scenery::{scenery_cost, scenery_name};
use crate::park::staff::{hire_cost_of, staff_name};
use crate::park::terrain::{lay_cost_of, terrain_name};
use crate::park::track::{piece_cost, piece_name};
use crate::park::{
    Facility, FlatRide, Money, Scenery, Shop, StaffKind, Terrain, TrackPiece, Park,
};
use crate::save::DEFAULT_PATH;
use crate::text::{join, lowered, signed_decimal, signed_decimal_of, to_lowercase};

verus! {

/// The thing the pointer is currently holding.
#[derive(Debug, Clone, Copy, PartialEq, Eq, Hash, Structural)]
pub enum Tool {
    /// Clicking does nothing. The default: a park is for looking at first.
    Inspect,
    /// Clicking puts one of these on the tile under the pointer.
    Build(Facility),
    /// Clicking takes down whatever is on the tile under the pointer.
    Demolish,
    /// Clicking puts the price of the shop under the pointer up a step.
    RaisePrice,
    /// Clicking brings it down a step.
    LowerPrice,
    /// Clicking takes somebody on. They start at the entrance, not under the
    /// pointer: the park hires them, it does not place them.
    Hire(StaffKind),
    /// Clicking lets go of whoever is standing under the pointer.
    Fire,
    /// Clicking raises the land under the pointer by a step.
    Raise,
    /// Clicking digs it down by a step.
    Lower,
    /// Clicking lays a new surface on the tile under the pointer.
    Lay(Terrain),
    /// Clicking starts a new ride, with its first piece of track to go on the
    /// tile under the pointer.
    StartRide,
    /// Clicking lays one more piece on the ride being built.
    Track(TrackPiece),
    /// Clicking takes the last piece of track back off it.
    Unlay,
    /// Clicking sends a test train round the ride under the pointer.
    TestRide,
    /// Clicking opens it to the queue.
    OpenRide,
    /// Clicking shuts it.
    CloseRide,
    /// Clicking takes the whole thing down.
    DemolishRide,
    /// Clicking writes the park to its save file.
    Save,
    /// Clicking reads it back, throwing away everything since.
    Load,
    /// Clicking puts up something to look at.
    Plant(Scenery),
    /// Clicking takes it down again.
    Uproot,
    /// Clicking buys one of these and stands it on the tile under the pointer.
    Buy(FlatRide),
}

/// The toolbars, one per number key, each the tools it walks through.
#[verifier::opaque]
pub open spec fn toolbars() -> Seq<Seq<Tool>> {
    seq![
        seq![Tool::Inspect],
        seq![Tool::Build(Facility::FoodStall), Tool::Build(Facility::Bench), Tool::Demolish],
        seq![Tool::RaisePrice, Tool::LowerPrice],
        seq![
            Tool::Hire(StaffKind::Handyman),
            Tool::Hire(StaffKind::Entertainer),
            Tool::Hire(StaffKind::Mechanic),
            Tool::Fire,
        ],
        seq![
            Tool::Raise,
            Tool::Lower,
            Tool::Lay(Terrain::Path),
            Tool::Lay(Terrain::Queue),
            Tool::Lay(Terrain::Grass),
            Tool::Lay(Terrain::Dirt),
            Tool::Lay(Terrain::Water),
        ],
        seq![
            Tool::StartRide,
            Tool::Track(TrackPiece::Station),
            Tool::Track(TrackPiece::Straight),
            Tool::Track(TrackPiece::CurveLeft),
            Tool::Track(TrackPiece::CurveRight),
            Tool::Track(TrackPiece::SlopeUp),
            Tool::Track(TrackPiece::SlopeDown),
            Tool::Track(TrackPiece::LiftHill),
            Tool::Track(TrackPiece::Brakes),
            Tool::Track(TrackPiece::Powered),
            Tool::Unlay,
        ],
        seq![Tool::TestRide, Tool::OpenRide, Tool::CloseRide, Tool::DemolishRide],
        seq![Tool::Save, Tool::Load],
        seq![
            Tool::Plant(Scenery::Tree),
            Tool::Plant(Scenery::Flowerbed),
            Tool::Plant(Scenery::Fountain),
            Tool::Plant(Scenery::Lamp),
            Tool::Uproot,
        ],
        seq![
            Tool::Buy(FlatRide::Carousel),
            Tool::Buy(FlatRide::FerrisWheel),
            Tool::Buy(FlatRide::HauntedHouse),
            Tool::Buy(FlatRide::TeaCups),
        ],
    ]
}

/// The first toolbar from `k` on that holds `t`, or the first one if none does.
pub open spec fn kit_from(t: Tool, k: nat) -> nat
    decreases 10 - k,
{
    if k >= 10 {
        0
    } else if toolbars()[k as int].contains(t) {
        k
    } else {
        kit_from(t, k + 1)
    }
}

/// Which toolbar `t` is on, counting from zero; the first for a tool on none.
pub open spec fn kit_of(t: Tool) -> nat {
    kit_from(t, 0)
}

/// Where `t` stands on `kit`, or the first place if it is not on it.
pub open spec fn place_on(kit: Seq<Tool>, t: Tool) -> int {
    if kit.contains(t) {
        choose|i: int| 0 <= i < kit.len() && kit[i] == t && forall|j: int| 0 <= j < i ==> kit[j] != t
    } else {
        0
    }
}

/// The tool after `t` along its own toolbar, wrapping round it.
pub open spec fn next_of(t: Tool) -> Tool {
    let kit = toolbars()[kit_of(t) as int];
    kit[(place_on(kit, t) + 1) % kit.len() as int]
}

/// Which toolbar `t` is on and where along it, or `(-1, -1)` for a tool on
/// none.
#[verifier::opaque]
pub open spec fn slot_of(t: Tool) -> (int, int) {
    match t {
        Tool::Inspect => (0, 0),
        Tool::Build(Facility::FoodStall) => (1, 0),
        Tool::Build(Facility::Bench) => (1, 1),
        Tool::Demolish => (1, 2),
        Tool::RaisePrice => (2, 0),
        Tool::LowerPrice => (2, 1),
        Tool::Hire(StaffKind::Handyman) => (3, 0),
        Tool::Hire(StaffKind::Entertainer) => (3, 1),
        Tool::Hire(StaffKind::Mechanic) => (3, 2),
        Tool::Fire => (3, 3),
        Tool::Raise => (4, 0),
        Tool::Lower => (4, 1),
        Tool::Lay(Terrain::Path) => (4, 2),
        Tool::Lay(Terrain::Queue) => (4, 3),
        Tool::Lay(Terrain::Grass) => (4, 4),
        Tool::Lay(Terrain::Dirt) => (4, 5),
        Tool::Lay(Terrain::Water) => (4, 6),
        Tool::StartRide => (5, 0),
        Tool::Track(TrackPiece::Station) => (5, 1),
        Tool::Track(TrackPiece::Straight) => (5, 2),
        Tool::Track(TrackPiece::CurveLeft) => (5, 3),
        Tool::Track(TrackPiece::CurveRight) => (5, 4),
        Tool::Track(TrackPiece::SlopeUp) => (5, 5),
        Tool::Track(TrackPiece::SlopeDown) => (5, 6),
        Tool::Track(TrackPiece::LiftHill) => (5, 7),
        Tool::Track(TrackPiece::Brakes) => (5, 8),
        Tool::Track(TrackPiece::Powered) => (5, 9),
        Tool::Unlay => (5, 10),
        Tool::TestRide => (6, 0),
        Tool::OpenRide => (6, 1),
        Tool::CloseRide => (6, 2),
        Tool::DemolishRide => (6, 3),
        Tool::Save => (7, 0),
        Tool::Load => (7, 1),
        Tool::Plant(Scenery::Tree) => (8, 0),
        Tool::Plant(Scenery::Flowerbed) => (8, 1),
        Tool::Plant(Scenery::Fountain) => (8, 2),
        Tool::Plant(Scenery::Lamp) => (8, 3),
        Tool::Uproot => (8, 4),
        Tool::Buy(FlatRide::Carousel) => (9, 0),
        Tool::Buy(FlatRide::FerrisWheel) => (9, 1),
        Tool::Buy(FlatRide::HauntedHouse) => (9, 2),
        Tool::Buy(FlatRide::TeaCups) => (9, 3),
        _ => (-1, -1),
    }
}

/// Every tool on a toolbar is found where it stands.
proof fn lemma_slots()
    ensures
        forall|k: int, i: int|
            0 <= k < 10 && 0 <= i < toolbars()[k].len() ==> #[trigger] slot_of(toolbars()[k][i]) == (k, i),
{
    reveal(toolbars);
    reveal(slot_of);
    assert forall|k: int, i: int|
        0 <= k < 10 && 0 <= i < toolbars()[k].len() implies #[trigger] slot_of(toolbars()[k][i]) == (k, i) by {
        if k == 0 {
            if i == 0 {
                assert(slot_of(toolbars()[0][0]) == (0int, 0int));
            }
        } else if k == 1 {
            if i == 0 {
                assert(slot_of(toolbars()[1][0]) == (1int, 0int));
            } else if i == 1 {
                assert(slot_of(toolbars()[1][1]) == (1int, 1int));
            } else if i == 2 {
                assert(slot_of(toolbars()[1][2]) == (1int, 2int));
            }
        } else if k == 2 {
            if i == 0 {
                assert(slot_of(toolbars()[2][0]) == (2int, 0int));
            } else if i == 1 {
                assert(slot_of(toolbars()[2][1]) == (2int, 1int));
            }
        } else if k == 3 {
            if i == 0 {
                assert(slot_of(toolbars()[3][0]) == (3int, 0int));
            } else if i == 1 {
                assert(slot_of(toolbars()[3][1]) == (3int, 1int));
            } else if i == 2 {
                assert(slot_of(toolbars()[3][2]) == (3int, 2int));
            } else if i == 3 {
                assert(slot_of(toolbars()[3][3]) == (3int, 3int));
            }
        } else if k == 4 {
            if i == 0 {
                assert(slot_of(toolbars()[4][0]) == (4int, 0int));
            } else if i == 1 {
                assert(slot_of(toolbars()[4][1]) == (4int, 1int));
            } else if i == 2 {
                assert(slot_of(toolbars()[4][2]) == (4int, 2int));
            } else if i == 3 {
                assert(slot_of(toolbars()[4][3]) == (4int, 3int));
            } else if i == 4 {
                assert(slot_of(toolbars()[4][4]) == (4int, 4int));
            } else if i == 5 {
                assert(slot_of(toolbars()[4][5]) == (4int, 5int));
            } else if i == 6 {
                assert(slot_of(toolbars()[4][6]) == (4int, 6int));
            }
        } else if k == 5 {
            if i == 0 {
                assert(slot_of(toolbars()[5][0]) == (5int, 0int));
            } else if i == 1 {
                assert(slot_of(toolbars()[5][1]) == (5int, 1int));
            } else if i == 2 {
                assert(slot_of(toolbars()[5][2]) == (5int, 2int));
            } else if i == 3 {
                assert(slot_of(toolbars()[5][3]) == (5int, 3int));
            } else if i == 4 {
                assert(slot_of(toolbars()[5][4]) == (5int, 4int));
            } else if i == 5 {
                assert(slot_of(toolbars()[5][5]) == (5int, 5int));
            } else if i == 6 {
                assert(slot_of(toolbars()[5][6]) == (5int, 6int));
            } else if i == 7 {
                assert(slot_of(toolbars()[5][7]) == (5int, 7int));
            } else if i == 8 {
                assert(slot_of(toolbars()[5][8]) == (5int, 8int));
            } else if i == 9 {
                assert(slot_of(toolbars()[5][9]) == (5int, 9int));
            } else if i == 10 {
                assert(slot_of(toolbars()[5][10]) == (5int, 10int));
            }
        } else if k == 6 {
            if i == 0 {
                assert(slot_of(toolbars()[6][0]) == (6int, 0int));
            } else if i == 1 {
                assert(slot_of(toolbars()[6][1]) == (6int, 1int));
            } else if i == 2 {
                assert(slot_of(toolbars()[6][2]) == (6int, 2int));
            } else if i == 3 {
                assert(slot_of(toolbars()[6][3]) == (6int, 3int));
            }
        } else if k == 7 {
            if i == 0 {
                assert(slot_of(toolbars()[7][0]) == (7int, 0int));
            } else if i == 1 {
                assert(slot_of(toolbars()[7][1]) == (7int, 1int));
            }
        } else if k == 8 {
            if i == 0 {
                assert(slot_of(toolbars()[8][0]) == (8int, 0int));
            } else if i == 1 {
                assert(slot_of(toolbars()[8][1]) == (8int, 1int));
            } else if i == 2 {
                assert(slot_of(toolbars()[8][2]) == (8int, 2int));
            } else if i == 3 {
                assert(slot_of(toolbars()[8][3]) == (8int, 3int));
            } else if i == 4 {
                assert(slot_of(toolbars()[8][4]) == (8int, 4int));
            }
        } else if k == 9 {
            if i == 0 {
                assert(slot_of(toolbars()[9][0]) == (9int, 0int));
            } else if i == 1 {
                assert(slot_of(toolbars()[9][1]) == (9int, 1int));
            } else if i == 2 {
                assert(slot_of(toolbars()[9][2]) == (9int, 2int));
            } else if i == 3 {
                assert(slot_of(toolbars()[9][3]) == (9int, 3int));
            }
        }
    }
}

/// No tool is on two toolbars, and no toolbar holds a tool twice: every
/// place on every toolbar holds a tool of its own.
pub proof fn no_tool_is_on_two_toolbars(k1: int, i: int, k2: int, j: int)
    requires
        0 <= k1 < 10,
        0 <= k2 < 10,
        0 <= i < toolbars()[k1].len(),
        0 <= j < toolbars()[k2].len(),
        k1 != k2 || i != j,
    ensures
        toolbars()[k1][i] != toolbars()[k2][j],
{
    lemma_slots();
    assert(slot_of(toolbars()[k1][i]) == (k1, i));
    assert(slot_of(toolbars()[k2][j]) == (k2, j));
}

/// A tool on toolbar `k` belongs to no toolbar before it.
proof fn lemma_kit_from(k: int, i: int, j: nat)
    requires
        0 <= k < 10,
        0 <= i < toolbars()[k].len(),
        j <= k,
    ensures
        kit_from(toolbars()[k][i], j) == k,
    decreases k - j,
{
    lemma_slots();
    let t = toolbars()[k][i];
    assert(slot_of(t) == (k, i));
    if j < k {
        if toolbars()[j as int].contains(t) {
            let c = choose|c: int| 0 <= c < toolbars()[j as int].len() && toolbars()[j as int][c] == t;
            assert(slot_of(toolbars()[j as int][c]) == (j as int, c));
        }
        lemma_kit_from(k, i, j + 1);
    } else {
        assert(toolbars()[k][i] == t);
    }
}

/// The tool at place `i` of toolbar `k` is on that toolbar, at that place,
/// and the space bar moves it to the next place along, wrapping round.
proof fn lemma_next_on_toolbar(k: int, i: int)
    requires
        0 <= k < 10,
        0 <= i < toolbars()[k].len(),
    ensures
        kit_of(toolbars()[k][i]) == k,
        next_of(toolbars()[k][i]) == toolbars()[k][(i + 1) % (toolbars()[k].len() as int)],
{
    lemma_kit_from(k, i, 0);
    let kit = toolbars()[k];
    let t = kit[i];
    assert(kit_of(t) == k);
    assert(kit.contains(t)) by {
        assert(0 <= i < kit.len() && kit[i] == t);
    }
    assert(forall|j: int| 0 <= j < i ==> kit[j] != t) by {
        lemma_slots();
        assert forall|j: int| 0 <= j < i implies kit[j] != t by {
            assert(slot_of(toolbars()[k][j]) == (k, j));
            assert(slot_of(toolbars()[k][i]) == (k, i));
        }
    }
    let first = |c: int| 0 <= c < kit.len() && kit[c] == t && forall|j: int| 0 <= j < c ==> kit[j] != t;
    assert(first(i));
    let c = place_on(kit, t);
    assert(c == choose|c: int| 0 <= c < kit.len() && kit[c] == t && forall|j: int| 0 <= j < c ==> kit[j] != t);
    assert(0 <= c < kit.len() && kit[c] == t);
    assert(c == i) by {
        lemma_slots();
        assert(slot_of(toolbars()[k][c]) == (k, c));
        assert(slot_of(toolbars()[k][i]) == (k, i));
    }
    assert(next_of(t) == kit[(c + 1) % (kit.len() as int)]);
}

/// The tool in hand after pressing the space bar `m` times from `t`.
pub open spec fn pressed(t: Tool, m: nat) -> Tool
    decreases m,
{
    if m == 0 {
        t
    } else {
        next_of(pressed(t, (m - 1) as nat))
    }
}

/// After `m` presses from place `i` of toolbar `k`, the tool in hand is
/// the one `m` places further along it, wrapping round.
proof fn lemma_pressed(k: int, i: int, m: nat)
    requires
        0 <= k < 10,
        0 <= i < toolbars()[k].len(),
    ensures
        pressed(toolbars()[k][i], m) == toolbars()[k][(i + m) % (toolbars()[k].len() as int)],
    decreases m,
{
    let n = toolbars()[k].len() as int;
    if m == 0 {
        vstd::arithmetic::div_mod::lemma_small_mod(i as nat, n as nat);
    } else {
        lemma_pressed(k, i, (m - 1) as nat);
        let a = (i + m - 1) % n;
        assert(0 <= a < n) by {
            vstd::arithmetic::div_mod::lemma_mod_bound(i + m - 1, n);
        }
        lemma_next_on_toolbar(k, a);
        vstd::arithmetic::div_mod::lemma_add_mod_noop(i + m - 1, 1, n);
        vstd::arithmetic::div_mod::lemma_add_mod_noop(a, 1, n);
        vstd::arithmetic::div_mod::lemma_mod_twice(i + m - 1, n);
        if n > 1 {
            vstd::arithmetic::div_mod::lemma_small_mod(1, n as nat);
        }
    }
}

/// Walking a toolbar with the space bar never leaves it: the tool in hand
/// stays on its toolbar, comes back to where it started after as many
/// presses as the toolbar has tools, and every tool on the toolbar is
/// reached on the way.
pub proof fn every_toolbar_cycles_through_itself_and_comes_back(k: int, i: int)
    requires
        0 <= k < 10,
        0 <= i < toolbars()[k].len(),
    ensures
        forall|m: nat| kit_of(#[trigger] pressed(toolbars()[k][i], m)) == k,
        pressed(toolbars()[k][i], toolbars()[k].len()) == toolbars()[k][i],
        forall|j: int|
            0 <= j < toolbars()[k].len() ==> {
                let m = (j - i) % (toolbars()[k].len() as int);
                &&& 0 <= m < toolbars()[k].len()
                &&& pressed(toolbars()[k][i], m as nat) == #[trigger] toolbars()[k][j]
            },
{
    let n = toolbars()[k].len() as int;
    assert forall|m: nat| kit_of(#[trigger] pressed(toolbars()[k][i], m)) == k by {
        lemma_pressed(k, i, m);
        vstd::arithmetic::div_mod::lemma_mod_bound(i + m, n);
        lemma_next_on_toolbar(k, (i + m) % n);
    }
    lemma_pressed(k, i, n as nat);
    vstd::arithmetic::div_mod::lemma_mod_add_multiples_vanish(i, n);
    vstd::arithmetic::div_mod::lemma_small_mod(i as nat, n as nat);
    assert forall|j: int| 0 <= j < n implies {
        let m = (j - i) % n;
        &&& 0 <= m < n
        &&& pressed(toolbars()[k][i], m as nat) == #[trigger] toolbars()[k][j]
    } by {
        let m = (j - i) % n;
        vstd::arithmetic::div_mod::lemma_mod_bound(j - i, n);
        lemma_pressed(k, i, m as nat);
        vstd::arithmetic::div_mod::lemma_add_mod_noop(i, j - i, n);
        vstd::arithmetic::div_mod::lemma_small_mod(i as nat, n as nat);
        vstd::arithmetic::div_mod::lemma_small_mod(j as nat, n as nat);
    }
}

/// `"Lay "` and the rest of what a tool laying `name` at `cost` says.
pub open spec fn priced(verb: Seq<char>, name: Seq<char>, cost: Money) -> Seq<char> {
    verb + name + " ("@ + signed_decimal_of(cost as int) + ")"@
}

/// What the HUD calls `t`.
pub open spec fn label_of(t: Tool) -> Seq<char> {
    match t {
        Tool::Inspect => "Look around"@,
        Tool::Build(f) => priced("Build "@, facility_name(f), build_cost_of(f)),
        Tool::Demolish => "Demolish"@,
        Tool::RaisePrice => "Put the price up (+"@ + signed_decimal_of(Shop::PRICE_STEP as int)
            + ")"@,
        Tool::LowerPrice => "Bring the price down (-"@ + signed_decimal_of(
            Shop::PRICE_STEP as int,
        ) + ")"@,
        Tool::Hire(k) => priced("Hire "@, staff_name(k), hire_cost_of(k)),
        Tool::Fire => "Let somebody go"@,
        Tool::Raise => priced("Raise the land"@, Seq::empty(), Park::LANDSCAPING),
        Tool::Lower => priced("Dig the land down"@, Seq::empty(), Park::LANDSCAPING),
        Tool::Lay(g) => match lay_cost_of(g) {
            Some(cost) => priced("Lay "@, lowered(terrain_name(g)), cost),
            None => "Lay "@ + lowered(terrain_name(g)),
        },
        Tool::StartRide => "Start a new ride"@,
        Tool::Track(p) => priced("Lay "@, lowered(piece_name(p)), piece_cost(p)),
        Tool::Unlay => "Take the last piece of track off"@,
        Tool::TestRide => "Test the ride"@,
        Tool::OpenRide => "Open the ride"@,
        Tool::CloseRide => "Shut the ride"@,
        Tool::DemolishRide => "Demolish the ride"@,
        Tool::Save => "Save the park to "@ + DEFAULT_PATH@,
        Tool::Load => "Load "@ + DEFAULT_PATH@,
        Tool::Plant(s) => priced("Plant "@, lowered(scenery_name(s)), scenery_cost(s)),
        Tool::Uproot => "Take the scenery down"@,
        Tool::Buy(r) => "Buy a "@ + lowered(flat_name(r)) + " ("@ + signed_decimal_of(
            flat_cost(r) as int,
        ) + ", "@ + signed_decimal_of(flat_footprint(r) as int) + " by "@ + signed_decimal_of(
            flat_footprint(r) as int,
        ) + ")"@,
    }
}

/// `verb`, then `name`, then `cost` in brackets.
fn priced_text(verb: &str, name: &str, cost: Money) -> (s: String)
    ensures
        s@ == priced(verb@, name@, cost),
{
    let price = signed_decimal(cost);
    let s = String::from_str(verb).concat(name).concat(" (").concat(price.as_str()).concat(")");
    s
}

impl Tool {
    /// Nothing in hand.
    pub fn default() -> (t: Self)
        ensures
            t == Tool::Inspect,
    {
        Tool::Inspect
    }

    /// The toolbars, one per number key, in the order the number row runs.
    pub fn kits() -> (kits: Vec<Vec<Tool>>)
        ensures
            kits@.len() == 10,
            forall|k: int| 0 <= k < 10 ==> #[trigger] kits@[k]@ == toolbars()[k],
    {
        proof {
            reveal(toolbars);
        }
        let kits = vec![
            vec![Tool::Inspect],
            vec![Tool::Build(Facility::FoodStall), Tool::Build(Facility::Bench), Tool::Demolish],
            vec![Tool::RaisePrice, Tool::LowerPrice],
            vec![
                Tool::Hire(StaffKind::Handyman),
                Tool::Hire(StaffKind::Entertainer),
                Tool::Hire(StaffKind::Mechanic),
                Tool::Fire,
            ],
            vec![
                Tool::Raise,
                Tool::Lower,
                Tool::Lay(Terrain::Path),
                Tool::Lay(Terrain::Queue),
                Tool::Lay(Terrain::Grass),
                Tool::Lay(Terrain::Dirt),
                Tool::Lay(Terrain::Water),
            ],
            vec![
                Tool::StartRide,
                Tool::Track(TrackPiece::Station),
                Tool::Track(TrackPiece::Straight),
                Tool::Track(TrackPiece::CurveLeft),
                Tool::Track(TrackPiece::CurveRight),
                Tool::Track(TrackPiece::SlopeUp),
                Tool::Track(TrackPiece::SlopeDown),
                Tool::Track(TrackPiece::LiftHill),
                Tool::Track(TrackPiece::Brakes),
                Tool::Track(TrackPiece::Powered),
                Tool::Unlay,
            ],
            vec![Tool::TestRide, Tool::OpenRide, Tool::CloseRide, Tool::DemolishRide],
            vec![Tool::Save, Tool::Load],
            vec![
                Tool::Plant(Scenery::Tree),
                Tool::Plant(Scenery::Flowerbed),
                Tool::Plant(Scenery::Fountain),
                Tool::Plant(Scenery::Lamp),
                Tool::Uproot,
            ],
            vec![
                Tool::Buy(FlatRide::Carousel),
                Tool::Buy(FlatRide::FerrisWheel),
                Tool::Buy(FlatRide::HauntedHouse),
                Tool::Buy(FlatRide::TeaCups),
            ],
        ];
        assert(kits@[0]@ =~= toolbars()[0]);
        assert(kits@[1]@ =~= toolbars()[1]);
        assert(kits@[2]@ =~= toolbars()[2]);
        assert(kits@[3]@ =~= toolbars()[3]);
        assert(kits@[4]@ =~= toolbars()[4]);
        assert(kits@[5]@ =~= toolbars()[5]);
        assert(kits@[6]@ =~= toolbars()[6]);
        assert(kits@[7]@ =~= toolbars()[7]);
        assert(kits@[8]@ =~= toolbars()[8]);
        assert(kits@[9]@ =~= toolbars()[9]);
        kits
    }

    /// Where this tool stands on `kit`, if it is on it.
    fn place_in(self, kit: &Vec<Tool>) -> (at: Option<usize>)
        ensures
            at is None <==> !kit@.contains(self),
            at matches Some(i) ==> i < kit@.len() && kit@[i as int] == self && forall|j: int|
                0 <= j < i ==> kit@[j] != self,
    {
        let mut i: usize = 0;
        while i < kit.len()
            invariant
                i <= kit@.len(),
                forall|j: int| 0 <= j < i ==> kit@[j] != self,
            decreases kit@.len() - i,
        {
            if kit[i] == self {
                return Some(i);
            }
            i += 1;
        }
        None
    }

    /// Which toolbar this tool is on, counting from zero.
    pub fn kit(self) -> (k: usize)
        ensures
            k == kit_of(self),
            k < 10,
    {
        let kits = Self::kits();
        let mut k: usize = 0;
        while k < 10
            invariant
                k <= 10,
                kits@.len() == 10,
                forall|i: int| 0 <= i < 10 ==> #[trigger] kits@[i]@ == toolbars()[i],
                kit_from(self, k as nat) == kit_of(self),
            decreases 10 - k,
        {
            if self.place_in(&kits[k]).is_some() {
                return k;
            }
            k += 1;
        }
        0
    }

    /// The first tool on toolbar `kit`, or `None` if there is no such toolbar.
    pub fn from_kit(kit: usize) -> (t: Option<Self>)
        ensures
            kit < 10 ==> t == Some(toolbars()[kit as int][0]),
            kit >= 10 ==> t is None,
    {
        if kit >= 10 {
            return None;
        }
        let kits = Self::kits();
        proof {
            reveal(toolbars);
        }
        assert(kits@[kit as int]@ == toolbars()[kit as int]);
        assert(toolbars()[kit as int].len() > 0);
        Some(kits[kit][0])
    }

    /// The next tool along the toolbar in hand, wrapping round it.
    pub fn next(self) -> (t: Self)
        ensures
            t == next_of(self),
    {
        let kits = Self::kits();
        let k = self.kit();
        let kit = &kits[k];
        proof {
            reveal(toolbars);
        }
        assert(kit@ == toolbars()[k as int]);
        assert(kit@.len() > 0);
        let at = match self.place_in(kit) {
            Some(i) => i,
            None => 0,
        };
        proof {
            if kit@.contains(self) {
                let c = place_on(kit@, self);
                assert(0 <= c < kit@.len() && kit@[c] == self && forall|j: int|
                    0 <= j < c ==> kit@[j] != self);
                if c < at {
                    assert(kit@[c] != self);
                }
                if at < c {
                    assert(kit@[at as int] != self);
                }
            }
        }
        kit[(at + 1) % kit.len()]
    }

    /// What flat ride it is buying, if it is buying one.
    pub fn flat_ride(self) -> (r: Option<FlatRide>)
        ensures
            r == (match self {
                Tool::Buy(kind) => Some(kind),
                _ => None,
            }),
    {
        match self {
            Tool::Buy(kind) => Some(kind),
            _ => None,
        }
    }

    /// What it is planting, if it is planting anything.
    pub fn scenery(self) -> (s: Option<Scenery>)
        ensures
            s == (match self {
                Tool::Plant(scenery) => Some(scenery),
                _ => None,
            }),
    {
        match self {
            Tool::Plant(scenery) => Some(scenery),
            _ => None,
        }
    }

    /// What piece of track it is laying, if it is laying one.
    pub fn track(self) -> (p: Option<TrackPiece>)
        ensures
            p == (match self {
                Tool::Track(piece) => Some(piece),
                _ => None,
            }),
    {
        match self {
            Tool::Track(piece) => Some(piece),
            _ => None,
        }
    }

    /// Whether this tool wants a heading, which the arrow keys set while it is
    /// in hand.
    pub fn wants_a_heading(self) -> (b: bool)
        ensures
            b == (self is StartRide),
    {
        matches!(self, Tool::StartRide)
    }

    /// What it is building, if it is building anything.
    pub fn facility(self) -> (f: Option<Facility>)
        ensures
            f == (match self {
                Tool::Build(facility) => Some(facility),
                _ => None,
            }),
    {
        match self {
            Tool::Build(facility) => Some(facility),
            _ => None,
        }
    }

    /// What surface it is laying, if it is laying one.
    pub fn terrain(self) -> (g: Option<Terrain>)
        ensures
            g == (match self {
                Tool::Lay(terrain) => Some(terrain),
                _ => None,
            }),
    {
        match self {
            Tool::Lay(terrain) => Some(terrain),
            _ => None,
        }
    }

    /// Who it is hiring, if it is hiring anybody.
    pub fn staff(self) -> (k: Option<StaffKind>)
        ensures
            k == (match self {
                Tool::Hire(kind) => Some(kind),
                _ => None,
            }),
    {
        match self {
            Tool::Hire(kind) => Some(kind),
            _ => None,
        }
    }

    /// Whether clicking with this tool changes the park.
    pub fn is_active(self) -> (b: bool)
        ensures
            b == !(self is Inspect),
    {
        !matches!(self, Tool::Inspect)
    }

    /// What the HUD calls it.
    pub fn label(self) -> (s: String)
        ensures
            s@ == label_of(self),
    {
        match self {
            Tool::Inspect => String::from_str("Look around"),
            Tool::Build(facility) => priced_text("Build ", facility.name(), facility.build_cost()),
            Tool::Demolish => String::from_str("Demolish"),
            Tool::RaisePrice => {
                let step = signed_decimal(Shop::PRICE_STEP);
                String::from_str("Put the price up (+").concat(step.as_str()).concat(")")
            },
            Tool::LowerPrice => {
                let step = signed_decimal(Shop::PRICE_STEP);
                String::from_str("Bring the price down (-").concat(step.as_str()).concat(")")
            },
            Tool::Hire(kind) => priced_text("Hire ", kind.name(), kind.hire_cost()),
            Tool::Fire => String::from_str("Let somebody go"),
            Tool::Raise => {
                let s = priced_text("Raise the land", "", Park::LANDSCAPING);
                proof {
                    reveal_strlit("");
                    assert(""@ =~= Seq::<char>::empty());
                }
                s
            },
            Tool::Lower => {
                let s = priced_text("Dig the land down", "", Park::LANDSCAPING);
                proof {
                    reveal_strlit("");
                    assert(""@ =~= Seq::<char>::empty());
                }
                s
            },
            Tool::Lay(terrain) => {
                let name = to_lowercase(terrain.name());
                match terrain.lay_cost() {
                    Some(cost) => priced_text("Lay ", name.as_str(), cost),
                    None => join("Lay ", name.as_str()),
                }
            },
            Tool::StartRide => String::from_str("Start a new ride"),
            Tool::Track(piece) => {
                let name = to_lowercase(piece.name());
                priced_text("Lay ", name.as_str(), piece.cost())
            },
            Tool::Unlay => String::from_str("Take the last piece of track off"),
            Tool::TestRide => String::from_str("Test the ride"),
            Tool::OpenRide => String::from_str("Open the ride"),
            Tool::CloseRide => String::from_str("Shut the ride"),
            Tool::DemolishRide => String::from_str("Demolish the ride"),
            Tool::Save => join("Save the park to ", DEFAULT_PATH),
            Tool::Load => join("Load ", DEFAULT_PATH),
            Tool::Plant(scenery) => {
                let name = to_lowercase(scenery.name());
                priced_text("Plant ", name.as_str(), scenery.cost())
            },
            Tool::Uproot => String::from_str("Take the scenery down"),
            Tool::Buy(kind) => {
                let name = to_lowercase(kind.name());
                let cost = signed_decimal(kind.cost());
                let side = signed_decimal(kind.footprint() as i64);
                String::from_str("Buy a ").concat(name.as_str()).concat(" (").concat(
                    cost.as_str(),
                ).concat(", ").concat(side.as_str()).concat(" by ").concat(side.as_str()).concat(
                    ")",
                )
            },
        }
    }
}

/// A key that changes what the pointer is holding.
#[derive(Debug, Clone, Copy, PartialEq, Eq, Structural)]
pub enum ToolKey {
    /// Puts the tool down, or closes the game when nothing is in hand.
    Escape,
    /// Walks along the toolbar in hand.
    Space,
    /// A key on the number row: `1` to `9` pick the first nine toolbars, in
    /// order, and `0` the tenth.
    Number(u8),
}

/// The toolbar that number key `n` picks, if any.
pub open spec fn kit_for_key(n: u8) -> Option<int> {
    if n == 0 {
        Some(9)
    } else if n <= 9 {
        Some(n - 1)
    } else {
        None
    }
}

/// What pressing `key` with `tool` in hand leaves in hand, and whether it
/// closes the game.
pub open spec fn after_key(tool: Tool, key: ToolKey) -> (Tool, bool) {
    match key {
        ToolKey::Escape => if tool is Inspect {
            (tool, true)
        } else {
            (Tool::Inspect, false)
        },
        ToolKey::Space => (next_of(tool), false),
        ToolKey::Number(n) => match kit_for_key(n) {
            Some(k) => (toolbars()[k][0], false),
            None => (tool, false),
        },
    }
}

impl Tool {
    /// What pressing `key` with this tool in hand leaves in hand, and
    /// whether the game should close.
    ///
    /// Escape puts the tool down first, and only closes the game once the
    /// pointer is empty.
    pub fn press(self, key: ToolKey) -> (r: (Tool, bool))
        ensures
            r == after_key(self, key),
    {
        match key {
            ToolKey::Escape => if self.is_active() {
                (Tool::Inspect, false)
            } else {
                (self, true)
            },
            ToolKey::Space => (self.next(), false),
            ToolKey::Number(n) => {
                let kit: usize = if n == 0 {
                    9
                } else {
                    (n - 1) as usize
                };
                if n > 9 {
                    return (self, false);
                }
                match Tool::from_kit(kit) {
                    Some(tool) => (tool, false),
                    None => (self, false),
                }
            },
        }
    }
}

/// Escape never closes the game with a tool in hand: the first press puts
/// the tool down, and only a press with nothing in hand closes it, so two
/// presses always do.
pub proof fn escape_puts_the_tool_down_before_it_quits(tool: Tool)
    ensures
        after_key(tool, ToolKey::Escape).1 == (tool is Inspect),
        after_key(tool, ToolKey::Escape).0 is Inspect,
        after_key(after_key(tool, ToolKey::Escape).0, ToolKey::Escape).1,
{
}

/// Each key of the number row picks the first tool of a toolbar of its own,
/// and every toolbar has its key.
pub proof fn the_number_row_reaches_every_toolbar(k: int)
    requires
        0 <= k < 10,
    ensures
        ({
            let n: u8 = if k == 9 {
                0
            } else {
                (k + 1) as u8
            };
            &&& kit_for_key(n) == Some(k)
            &&& after_key(Tool::Inspect, ToolKey::Number(n)).0 == toolbars()[k][0]
            &&& kit_of(after_key(Tool::Inspect, ToolKey::Number(n)).0) == k
        }),
{
    reveal(toolbars);
    lemma_kit_from(k, 0, 0);
}

} // verus!
