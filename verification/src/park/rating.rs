//! What the park is worth, and what there is to look at in it.
//!
//! **Value** is what is standing on the land: build more and it goes up, and
//! it does not care whether anybody is enjoying any of it. How the place looks
//! is counted where it is looked at — around the paths people walk — and
//! ground worn down to dirt counts against it.

use vstd::prelude::*;

use crate::park::facility::build_cost_of;
use crate::park::flat::flat_cost;
use crate::park::scenery::{scenery_beauty, scenery_cost, scenery_reach};
use crate::park::tile::gap;
use crate::park::track::{cost_of, lemma_sums_bounded};
use crate::park::{Facility, Grid, Layout, Money, Park, Part, Ride, Scenery, Shop, Terrain, TilePos};

verus! {

/// What the shop on one cell cost to build, if there is one.
pub open spec fn cell_value(cell: Option<Shop>) -> int {
    match cell {
        Some(shop) => build_cost_of(shop.kind_of()) as int,
        None => 0,
    }
}

/// What the shops among the first `n` cells cost to build.
pub open spec fn built_value(cells: Seq<Option<Shop>>, n: int) -> int
    decreases n,
{
    if n <= 0 {
        0
    } else {
        built_value(cells, n - 1) + cell_value(cells[n - 1])
    }
}

/// Changing one cell changes what the cells cost by the difference it
/// makes.
pub proof fn lemma_built_value_update(cells: Seq<Option<Shop>>, k: int, cell: Option<Shop>, n: int)
    requires
        0 <= k < cells.len(),
        n <= cells.len(),
    ensures
        built_value(cells.update(k, cell), n) == built_value(cells, n) + if k < n {
            cell_value(cell) - cell_value(cells[k])
        } else {
            0
        },
    decreases n,
{
    if n > 0 {
        lemma_built_value_update(cells, k, cell, n - 1);
    }
}

/// What the scenery among the first `n` cells cost to put up.
pub open spec fn planted_value(cells: Seq<Option<Scenery>>, n: int) -> int
    decreases n,
{
    if n <= 0 {
        0
    } else {
        planted_value(cells, n - 1) + match cells[n - 1] {
            Some(s) => scenery_cost(s) as int,
            None => 0,
        }
    }
}

/// What a layout cost to put up: its track, or the ride bought whole.
pub open spec fn layout_value(layout: Layout) -> int {
    match layout {
        Layout::Track(t) => cost_of(t.laid(), t.laid().len()),
        Layout::Flat { kind, .. } => flat_cost(kind) as int,
    }
}

/// What the first `n` of `rides` cost to put up.
pub open spec fn rides_value(rides: Seq<Ride>, n: int) -> int
    decreases n,
{
    if n <= 0 {
        0
    } else {
        rides_value(rides, n - 1) + layout_value(rides[n - 1].layout_of())
    }
}

/// How much of the scenery among the first `n` cells of `plants` can be
/// seen from `tile`.
pub open spec fn beauty_from(plants: Grid<Option<Scenery>>, tile: TilePos, n: int) -> int
    decreases n,
{
    if n <= 0 {
        0
    } else {
        beauty_from(plants, tile, n - 1) + match plants.values()[n - 1] {
            Some(s) => if tile.distance(plants.tile_of(n - 1)) <= scenery_reach(s) {
                scenery_beauty(s) as int
            } else {
                0
            },
            None => 0,
        }
    }
}

/// What there is to look at: how many tiles are walked past, how much
/// scenery can be seen from them, and how many tiles are worn to dirt.
#[derive(Debug, Clone, Copy, PartialEq, Eq, Structural)]
pub struct Looks {
    /// How many tiles of path or queue there are.
    pub looked_at: u64,
    /// How much scenery can be seen from them, all told.
    pub beauty: u64,
    /// How many tiles are worn down to dirt.
    pub worn: u64,
}

/// What the first `n` cells of `ground` add up to in looks, with scenery
/// seen from each of them by `seen`.
pub open spec fn looks_of(ground: Grid<Terrain>, plants: Grid<Option<Scenery>>, n: int) -> (int, int, int)
    decreases n,
{
    if n <= 0 {
        (0, 0, 0)
    } else {
        let (looked, beauty, worn) = looks_of(ground, plants, n - 1);
        match ground.values()[n - 1] {
            Terrain::Path | Terrain::Queue => (
                looked + 1,
                beauty + beauty_from(plants, ground.tile_of(n - 1), plants.values().len() as int),
                worn,
            ),
            Terrain::Dirt => (looked, beauty, worn + 1),
            _ => (looked, beauty, worn),
        }
    }
}

proof fn lemma_built_value_bounded(cells: Seq<Option<Shop>>, n: int)
    requires
        n <= cells.len(),
    ensures
        0 <= built_value(cells, n) <= 1000 * (if n < 0 { 0 } else { n }),
    decreases n,
{
    if n > 0 {
        lemma_built_value_bounded(cells, n - 1);
    }
}

proof fn lemma_planted_value_bounded(cells: Seq<Option<Scenery>>, n: int)
    requires
        n <= cells.len(),
    ensures
        0 <= planted_value(cells, n) <= 1000 * (if n < 0 { 0 } else { n }),
    decreases n,
{
    if n > 0 {
        lemma_planted_value_bounded(cells, n - 1);
    }
}

proof fn lemma_rides_value_bounded(rides: Seq<Ride>, n: int)
    requires
        n <= rides.len(),
        forall|i: int| 0 <= i < rides.len() ==> (#[trigger] rides[i]).wf(),
    ensures
        0 <= rides_value(rides, n) <= 100_000 * (if n < 0 { 0 } else { n }),
    decreases n,
{
    if n > 0 {
        lemma_rides_value_bounded(rides, n - 1);
        assert(rides[n - 1].wf());
        match rides[n - 1].layout_of() {
            Layout::Track(t) => {
                lemma_sums_bounded(t.laid(), t.laid().len());
            },
            Layout::Flat { .. } => {},
        }
    }
}

proof fn lemma_beauty_bounded(plants: Grid<Option<Scenery>>, tile: TilePos, n: int)
    ensures
        0 <= beauty_from(plants, tile, n) <= 14 * (if n < 0 { 0 } else { n }),
    decreases n,
{
    if n > 0 {
        lemma_beauty_bounded(plants, tile, n - 1);
    }
}

proof fn lemma_looks_bounded(ground: Grid<Terrain>, plants: Grid<Option<Scenery>>, n: int)
    requires
        plants.values().len() <= 4096 * 4096,
    ensures
        0 <= looks_of(ground, plants, n).0 <= (if n < 0 { 0 } else { n }),
        0 <= looks_of(ground, plants, n).1 <= 14 * 4096 * 4096 * (if n < 0 { 0 } else { n }),
        0 <= looks_of(ground, plants, n).2 <= (if n < 0 { 0 } else { n }),
    decreases n,
{
    if n > 0 {
        lemma_looks_bounded(ground, plants, n - 1);
        let seen = beauty_from(plants, ground.tile_of(n - 1), plants.values().len() as int);
        lemma_beauty_bounded(plants, ground.tile_of(n - 1), plants.values().len() as int);
        assert(seen <= 14 * 4096 * 4096);
        assert(14 * 4096 * 4096 * (n - 1) + 14 * 4096 * 4096 == 14 * 4096 * 4096 * n) by (nonlinear_arith);
    }
}

/// Building a facility adds what it cost to the park's value, and nothing
/// else: the value is what was built rather than what it earns.
pub proof fn building_adds_its_cost_to_the_value(before: &Park, after: &Park, tile: TilePos, facility: Facility)
    requires
        before.wf(),
        after.wf(),
        before.build_refusal(tile, facility) is None,
        before.differs_only_in(after, set![Part::Shops, Part::Books]),
        after.shop_on(tile) matches Some(s) && s.is_new(facility),
        forall|t: TilePos| t != tile ==> #[trigger] after.shop_on(t) == before.shop_on(t),
    ensures
        after.value_of() == before.value_of() + build_cost_of(facility),
{
    lemma_one_shop_changed(before, after, tile);
}

/// Demolishing a shop takes what it cost off the park's value.
pub proof fn demolishing_takes_its_cost_off_the_value(before: &Park, after: &Park, tile: TilePos)
    requires
        before.wf(),
        after.wf(),
        before.differs_only_in(after, set![Part::Shops]),
        before.shop_on(tile) is Some,
        after.shop_on(tile) is None,
        forall|t: TilePos| t != tile ==> #[trigger] after.shop_on(t) == before.shop_on(t),
    ensures
        after.value_of() == before.value_of() - build_cost_of(before.shop_on(tile)->0.kind_of()),
{
    lemma_one_shop_changed(before, after, tile);
}

/// Two parks whose shops differ only on `tile` differ in value only by what
/// stands there.
proof fn lemma_one_shop_changed(before: &Park, after: &Park, tile: TilePos)
    requires
        before.wf(),
        after.wf(),
        before.shops_of().holds(tile) || (before.shop_on(tile) is None && after.shop_on(tile) is None),
        after.shops_of().cols() == before.shops_of().cols(),
        after.shops_of().rows() == before.shops_of().rows(),
        after.plants_of() == before.plants_of(),
        after.rides_of() == before.rides_of(),
        forall|t: TilePos| t != tile ==> #[trigger] after.shop_on(t) == before.shop_on(t),
    ensures
        after.value_of() == before.value_of() + cell_value(after.shop_on(tile)) - cell_value(before.shop_on(tile)),
{
    let g = before.shops_of();
    let h = after.shops_of();
    if g.holds(tile) {
        assert forall|t: TilePos| g.holds(t) && t != tile implies #[trigger] h.at(t) == g.at(t) by {
            assert(after.shop_on(t) == before.shop_on(t));
        }
        crate::park::grid::lemma_same_but_one(g, h, tile);
        let k = crate::park::grid::slot(g.cols(), tile.x as int, tile.y as int);
        crate::park::grid::lemma_slot_in_range(g.cols(), g.rows(), tile.x as int, tile.y as int);
        lemma_built_value_update(g.values(), k, h.at(tile), g.values().len() as int);
    } else {
        assert forall|t: TilePos| g.holds(t) implies #[trigger] h.at(t) == g.at(t) by {
            assert(after.shop_on(t) == before.shop_on(t));
        }
        assert(h.values() =~= g.values()) by {
            assert forall|i: int| 0 <= i < g.values().len() implies #[trigger] h.values()[i] == g.values()[i] by {
                crate::park::grid::lemma_slot_inverse(g.cols(), g.rows(), i);
                let t = TilePos { x: (i % g.cols()) as i32, y: (i / g.cols()) as i32 };
                assert(g.holds(t));
                assert(t != tile);
                assert(g.at(t) == g.values()[i]);
                assert(h.at(t) == h.values()[i]);
                assert(h.at(t) == g.at(t));
            }
        }
    }
}

/// One more piece of scenery, out of reach of `from`, leaves what can be seen
/// from `from` as it was.
proof fn lemma_unseen_plant(
    g: Grid<Option<Scenery>>,
    h: Grid<Option<Scenery>>,
    k: int,
    s: Scenery,
    from: TilePos,
    n: int,
)
    requires
        h.cols() == g.cols(),
        0 <= k < g.values().len(),
        g.values()[k] is None,
        h.values() == g.values().update(k, Some(s)),
        n <= g.values().len(),
        from.distance(g.tile_of(k)) > scenery_reach(s),
    ensures
        beauty_from(h, from, n) == beauty_from(g, from, n),
    decreases n,
{
    if n > 0 {
        lemma_unseen_plant(g, h, k, s, from, n - 1);
    }
}

/// One more piece of scenery out of sight of every path and queue tile of
/// `ground` leaves the looks of its first `n` cells as they were.
proof fn lemma_unseen_looks(
    ground: Grid<Terrain>,
    g: Grid<Option<Scenery>>,
    h: Grid<Option<Scenery>>,
    k: int,
    s: Scenery,
    n: int,
)
    requires
        h.cols() == g.cols(),
        0 <= k < g.values().len(),
        g.values()[k] is None,
        h.values() == g.values().update(k, Some(s)),
        n <= ground.values().len(),
        forall|i: int|
            0 <= i < ground.values().len() && (ground.values()[i] == Terrain::Path || ground.values()[i]
                == Terrain::Queue) ==> (#[trigger] ground.tile_of(i)).distance(g.tile_of(k)) > scenery_reach(s),
    ensures
        looks_of(ground, h, n) == looks_of(ground, g, n),
    decreases n,
{
    if n > 0 {
        lemma_unseen_looks(ground, g, h, k, s, n - 1);
        let v = ground.values()[n - 1];
        if v == Terrain::Path || v == Terrain::Queue {
            let from = ground.tile_of(n - 1);
            assert(from.distance(g.tile_of(k)) > scenery_reach(s));
            lemma_unseen_plant(g, h, k, s, from, g.values().len() as int);
        }
    }
}

/// Scenery put up out of sight of every path and queue does nothing for how
/// the park looks: the park is judged where people walk, so a fountain in a
/// corner nobody visits adds nothing to what there is to look at.
pub proof fn scenery_nobody_walks_past_does_nothing_for_the_looks(
    before: &Park,
    after: &Park,
    tile: TilePos,
    scenery: Scenery,
)
    requires
        before.wf(),
        after.wf(),
        before.differs_only_in(after, set![Part::Scenery, Part::Books]),
        before.plants_of().holds(tile),
        before.plant_on(tile) is None,
        after.plant_on(tile) == Some(scenery),
        forall|t: TilePos| t != tile ==> #[trigger] after.plant_on(t) == before.plant_on(t),
        forall|t: TilePos|
            #[trigger] before.land_of().ground_of(t) == Some(Terrain::Path) || before.land_of().ground_of(t)
                == Some(Terrain::Queue) ==> t.distance(tile) > scenery_reach(scenery),
    ensures
        looks_of(after.land_of().ground_grid(), after.plants_of(), after.land_of().ground_grid().values().len() as int)
            == looks_of(before.land_of().ground_grid(), before.plants_of(), before.land_of().ground_grid().values().len() as int),
{
    let g = before.plants_of();
    let h = after.plants_of();
    let ground = before.land_of().ground_grid();
    assert forall|t: TilePos| g.holds(t) && t != tile implies #[trigger] h.at(t) == g.at(t) by {
        assert(after.plant_on(t) == before.plant_on(t));
    }
    crate::park::grid::lemma_same_but_one(g, h, tile);
    let k = crate::park::grid::slot(g.cols(), tile.x as int, tile.y as int);
    crate::park::grid::lemma_slot_in_range(g.cols(), g.rows(), tile.x as int, tile.y as int);
    assert(g.tile_of(k) == tile) by {
        assert(k == tile.y * g.cols() + tile.x);
        assert(k % g.cols() == tile.x as int && k / g.cols() == tile.y as int) by (nonlinear_arith)
            requires
                k == tile.y * g.cols() + tile.x,
                0 <= tile.x < g.cols(),
                0 <= tile.y,
        ;
    }
    assert forall|i: int|
        0 <= i < ground.values().len() && (ground.values()[i] == Terrain::Path || ground.values()[i]
            == Terrain::Queue) implies (#[trigger] ground.tile_of(i)).distance(g.tile_of(k)) > scenery_reach(scenery) by {
        crate::park::grid::lemma_slot_inverse(ground.cols(), ground.rows(), i);
        let t = ground.tile_of(i);
        assert(ground.holds(t)) by {
            assert((i / ground.cols()) <= 4096 * 4096) by (nonlinear_arith)
                requires
                    0 <= i < ground.cols() * ground.rows(),
                    0 < ground.cols() <= 4096,
                    0 < ground.rows() <= 4096,
            ;
        }
        assert(ground.at(t) == ground.values()[i]);
        assert(before.land_of().ground_of(t) == Some(ground.values()[i]));
    }
    lemma_unseen_looks(ground, g, h, k, scenery, ground.values().len() as int);
}

/// Two grounds of one shape that differ only in cell `k`, grass in `g`, add
/// up to the same looks but for what `h` has in that cell: one more tile
/// walked past and what can be seen from it for path or queue, one more
/// worn tile for dirt, and nothing for anything else.
proof fn lemma_one_more_on_view(
    g: Grid<Terrain>,
    h: Grid<Terrain>,
    plants: Grid<Option<Scenery>>,
    k: int,
    n: int,
)
    requires
        h.cols() == g.cols(),
        0 <= k < g.values().len(),
        g.values()[k] == Terrain::Grass,
        h.values() == g.values().update(k, h.values()[k]),
        n <= g.values().len(),
    ensures
        looks_of(h, plants, n) == if n > k && (h.values()[k] == Terrain::Path || h.values()[k] == Terrain::Queue) {
            (
                looks_of(g, plants, n).0 + 1,
                looks_of(g, plants, n).1 + beauty_from(plants, g.tile_of(k), plants.values().len() as int),
                looks_of(g, plants, n).2,
            )
        } else if n > k && h.values()[k] == Terrain::Dirt {
            (looks_of(g, plants, n).0, looks_of(g, plants, n).1, looks_of(g, plants, n).2 + 1)
        } else {
            looks_of(g, plants, n)
        },
    decreases n,
{
    if n > 0 {
        lemma_one_more_on_view(g, h, plants, k, n - 1);
        if n - 1 != k {
            assert(h.values()[n - 1] == g.values()[n - 1]);
        }
    }
}

/// Laying path or queue across a tile of grass puts one more tile on view:
/// the park is judged where people walk, queues included, so the tile is
/// counted as walked past and the scenery seen from it adds to the looks,
/// while what is worn stays as it was.
pub proof fn a_new_path_or_queue_is_one_more_tile_on_view(before: &Park, after: &Park, tile: TilePos)
    requires
        before.wf(),
        after.wf(),
        after.plants_of() == before.plants_of(),
        after.land_of().ground_grid().cols() == before.land_of().ground_grid().cols(),
        after.land_of().ground_grid().rows() == before.land_of().ground_grid().rows(),
        before.land_of().ground_of(tile) == Some(Terrain::Grass),
        after.land_of().ground_of(tile) == Some(Terrain::Path) || after.land_of().ground_of(tile) == Some(
            Terrain::Queue,
        ),
        forall|t: TilePos| t != tile ==> #[trigger] after.land_of().ground_of(t) == before.land_of().ground_of(t),
    ensures
        ({
            let was = looks_of(
                before.land_of().ground_grid(),
                before.plants_of(),
                before.land_of().ground_grid().values().len() as int,
            );
            let now = looks_of(
                after.land_of().ground_grid(),
                after.plants_of(),
                after.land_of().ground_grid().values().len() as int,
            );
            &&& now.0 == was.0 + 1
            &&& now.1 == was.1 + beauty_from(before.plants_of(), tile, before.plants_of().values().len() as int)
            &&& now.2 == was.2
        }),
{
    let g = before.land_of().ground_grid();
    let h = after.land_of().ground_grid();
    assert forall|t: TilePos| g.holds(t) && t != tile implies #[trigger] h.at(t) == g.at(t) by {
        assert(after.land_of().ground_of(t) == before.land_of().ground_of(t));
    }
    crate::park::grid::lemma_same_but_one(g, h, tile);
    let k = crate::park::grid::slot(g.cols(), tile.x as int, tile.y as int);
    crate::park::grid::lemma_slot_in_range(g.cols(), g.rows(), tile.x as int, tile.y as int);
    assert(g.tile_of(k) == tile) by {
        assert(k % g.cols() == tile.x as int && k / g.cols() == tile.y as int) by (nonlinear_arith)
            requires
                k == tile.y * g.cols() + tile.x,
                0 <= tile.x < g.cols(),
                0 <= tile.y,
        ;
    }
    assert(g.values()[k] == Terrain::Grass);
    assert(h.values()[k] == h.at(tile));
    lemma_one_more_on_view(g, h, before.plants_of(), k, g.values().len() as int);
}

/// Wear on the lawn is counted against the park and nothing else: grass worn
/// to dirt adds one worn tile and leaves what is on view as it was, and grass
/// turned to water or rock changes nothing at all.
pub proof fn worn_grass_counts_against_the_looks(before: &Park, after: &Park, tile: TilePos)
    requires
        before.wf(),
        after.wf(),
        after.plants_of() == before.plants_of(),
        after.land_of().ground_grid().cols() == before.land_of().ground_grid().cols(),
        after.land_of().ground_grid().rows() == before.land_of().ground_grid().rows(),
        before.land_of().ground_of(tile) == Some(Terrain::Grass),
        forall|t: TilePos| t != tile ==> #[trigger] after.land_of().ground_of(t) == before.land_of().ground_of(t),
    ensures
        ({
            let was = looks_of(
                before.land_of().ground_grid(),
                before.plants_of(),
                before.land_of().ground_grid().values().len() as int,
            );
            let now = looks_of(
                after.land_of().ground_grid(),
                after.plants_of(),
                after.land_of().ground_grid().values().len() as int,
            );
            &&& after.land_of().ground_of(tile) == Some(Terrain::Dirt) ==> now == (was.0, was.1, was.2 + 1)
            &&& after.land_of().ground_of(tile) == Some(Terrain::Water) || after.land_of().ground_of(tile)
                == Some(Terrain::Rock) ==> now == was
        }),
{
    let g = before.land_of().ground_grid();
    let h = after.land_of().ground_grid();
    assert forall|t: TilePos| g.holds(t) && t != tile implies #[trigger] h.at(t) == g.at(t) by {
        assert(after.land_of().ground_of(t) == before.land_of().ground_of(t));
    }
    crate::park::grid::lemma_same_but_one(g, h, tile);
    let k = crate::park::grid::slot(g.cols(), tile.x as int, tile.y as int);
    crate::park::grid::lemma_slot_in_range(g.cols(), g.rows(), tile.x as int, tile.y as int);
    assert(g.values()[k] == Terrain::Grass);
    assert(h.values()[k] == h.at(tile));
    lemma_one_more_on_view(g, h, before.plants_of(), k, g.values().len() as int);
}

impl Park {
    /// What everything standing on the land cost to put up.
    pub open spec fn value_of(&self) -> int {
        built_value(self.shops_of().values(), self.shops_of().values().len() as int)
            + planted_value(self.plants_of().values(), self.plants_of().values().len() as int)
            + rides_value(self.rides_of(), self.rides_of().len() as int)
    }

    /// What everything standing on the land cost to put up, from nothing
    /// upwards.
    ///
    /// What it cost rather than what it is worth now: a park's value is the
    /// sum of the decisions made on it, and a ride does not become a better
    /// ride for having been open a while.
    pub fn value(&self) -> (v: Money)
        requires
            self.wf(),
        ensures
            v == self.value_of(),
    {
        let shops = self.facilities.as_slice();
        let plants = self.scenery.as_slice();
        proof {
            assert(shops@.len() <= 4096 * 4096) by (nonlinear_arith)
                requires
                    shops@.len() == self.shops_of().cols() * self.shops_of().rows(),
                    0 < self.shops_of().cols() <= 4096,
                    0 < self.shops_of().rows() <= 4096,
            ;
            assert(plants@.len() <= 4096 * 4096) by (nonlinear_arith)
                requires
                    plants@.len() == self.plants_of().cols() * self.plants_of().rows(),
                    0 < self.plants_of().cols() <= 4096,
                    0 < self.plants_of().rows() <= 4096,
            ;
        }
        let mut built: Money = 0;
        let mut i: usize = 0;
        while i < shops.len()
            invariant
                shops@ == self.shops_of().values(),
                shops@.len() <= 4096 * 4096,
                i <= shops@.len(),
                built == built_value(shops@, i as int),
            decreases shops@.len() - i,
        {
            proof {
                lemma_built_value_bounded(shops@, i as int);
            }
            match shops[i] {
                Some(shop) => {
                    built = built + shop.kind().build_cost();
                },
                None => {},
            }
            i += 1;
        }
        let mut planted: Money = 0;
        let mut j: usize = 0;
        while j < plants.len()
            invariant
                plants@ == self.plants_of().values(),
                plants@.len() <= 4096 * 4096,
                j <= plants@.len(),
                planted == planted_value(plants@, j as int),
            decreases plants@.len() - j,
        {
            proof {
                lemma_planted_value_bounded(plants@, j as int);
            }
            match plants[j] {
                Some(s) => {
                    planted = planted + s.cost();
                },
                None => {},
            }
            j += 1;
        }
        let mut rides: Money = 0;
        let mut k: usize = 0;
        while k < self.rides.len()
            invariant
                self.wf(),
                k <= self.rides_of().len(),
                rides == rides_value(self.rides_of(), k as int),
            decreases self.rides_of().len() - k,
        {
            proof {
                lemma_rides_value_bounded(self.rides_of(), k as int);
                lemma_rides_value_bounded(self.rides_of(), (k + 1) as int);
            }
            let cost = match self.rides[k].layout() {
                Layout::Track(t) => t.cost(),
                Layout::Flat { kind, .. } => kind.cost(),
            };
            rides = rides + cost;
            k += 1;
        }
        proof {
            lemma_built_value_bounded(shops@, shops@.len() as int);
            lemma_planted_value_bounded(plants@, plants@.len() as int);
            lemma_rides_value_bounded(self.rides_of(), self.rides_of().len() as int);
        }
        built + planted + rides
    }

    /// How much scenery can be seen from `tile`.
    pub fn beauty_around(&self, tile: TilePos) -> (b: u32)
        requires
            self.wf(),
        ensures
            b == beauty_from(self.plants_of(), tile, self.plants_of().values().len() as int),
    {
        let plants = self.scenery.as_slice();
        let cols = self.scenery.width();
        proof {
            assert(plants@.len() <= 4096 * 4096) by (nonlinear_arith)
                requires
                    plants@.len() == self.plants_of().cols() * self.plants_of().rows(),
                    0 < self.plants_of().cols() <= 4096,
                    0 < self.plants_of().rows() <= 4096,
            ;
        }
        let mut total: u32 = 0;
        let mut i: usize = 0;
        while i < plants.len()
            invariant
                plants@ == self.plants_of().values(),
                plants@.len() <= 4096 * 4096,
                cols == self.plants_of().cols(),
                0 < cols <= 4096,
                i <= plants@.len(),
                total == beauty_from(self.plants_of(), tile, i as int),
            decreases plants@.len() - i,
        {
            proof {
                lemma_beauty_bounded(self.plants_of(), tile, i as int);
            }
            match plants[i] {
                Some(s) => {
                    let at_x: i64 = (i % (cols as usize)) as i64;
                    let at_y: i64 = (i / (cols as usize)) as i64;
                    let dx: i64 = if tile.x as i64 >= at_x {
                        tile.x as i64 - at_x
                    } else {
                        at_x - tile.x as i64
                    };
                    let dy: i64 = if tile.y as i64 >= at_y {
                        tile.y as i64 - at_y
                    } else {
                        at_y - tile.y as i64
                    };
                    proof {
                        assert((i as int) / (cols as int) <= 4096 * 4096) by (nonlinear_arith)
                            requires
                                i <= 4096 * 4096,
                                cols >= 1,
                        ;
                        let at = self.plants_of().tile_of(i as int);
                        assert(at.x == at_x && at.y == at_y);
                        assert(dx == gap(tile.x as int, at.x as int));
                        assert(dy == gap(tile.y as int, at.y as int));
                    }
                    if dx + dy <= s.reach() as i64 {
                        total = total + s.beauty();
                    }
                },
                None => {},
            }
            i += 1;
        }
        total
    }

    /// What there is to look at in the park.
    pub fn looks(&self) -> (l: Looks)
        requires
            self.wf(),
        ensures
            l.looked_at == looks_of(self.land_of().ground_grid(), self.plants_of(), self.land_of().ground_grid().values().len() as int).0,
            l.beauty == looks_of(self.land_of().ground_grid(), self.plants_of(), self.land_of().ground_grid().values().len() as int).1,
            l.worn == looks_of(self.land_of().ground_grid(), self.plants_of(), self.land_of().ground_grid().values().len() as int).2,
    {
        let ground = self.land.terrain();
        let cells = ground.as_slice();
        let cols = ground.width();
        proof {
            assert(cells@.len() <= 4096 * 4096) by (nonlinear_arith)
                requires
                    cells@.len() == ground.cols() * ground.rows(),
                    0 < ground.cols() <= 4096,
                    0 < ground.rows() <= 4096,
            ;
            assert(self.plants_of().values().len() <= 4096 * 4096) by (nonlinear_arith)
                requires
                    self.plants_of().values().len() == self.plants_of().cols() * self.plants_of().rows(),
                    0 < self.plants_of().cols() <= 4096,
                    0 < self.plants_of().rows() <= 4096,
            ;
        }
        let mut looked: u64 = 0;
        let mut beauty: u64 = 0;
        let mut worn: u64 = 0;
        let mut i: usize = 0;
        while i < cells.len()
            invariant
                self.wf(),
                *ground == self.land_of().ground_grid(),
                cells@ == ground.values(),
                cells@.len() <= 4096 * 4096,
                self.plants_of().values().len() <= 4096 * 4096,
                cols == ground.cols(),
                0 < cols <= 4096,
                i <= cells@.len(),
                (looked as int, beauty as int, worn as int) == looks_of(*ground, self.plants_of(), i as int),
            decreases cells@.len() - i,
        {
            proof {
                lemma_looks_bounded(*ground, self.plants_of(), i as int);
                assert(14 * 4096 * 4096 * (i as int) <= 14 * 4096 * 4096 * 4096 * 4096) by (nonlinear_arith)
                    requires
                        i <= 4096 * 4096,
                ;
            }
            match cells[i] {
                Terrain::Path | Terrain::Queue => {
                    let tile = TilePos::new((i % (cols as usize)) as i32, (i / (cols as usize)) as i32);
                    proof {
                        assert((i as int) / (cols as int) <= 4096 * 4096) by (nonlinear_arith)
                            requires
                                i <= 4096 * 4096,
                                cols >= 1,
                        ;
                        assert(tile == ground.tile_of(i as int));
                    }
                    let seen = self.beauty_around(tile);
                    looked = looked + 1;
                    beauty = beauty + seen as u64;
                },
                Terrain::Dirt => {
                    worn = worn + 1;
                },
                _ => {},
            }
            i += 1;
        }
        Looks { looked_at: looked, beauty, worn }
    }
}

} // verus!
