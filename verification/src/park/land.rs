//! The ground: what it is made of, and how high it stands.
//!
//! Two grids of the same size, kept together because nothing sensible can be
//! said about one without the other: a tile of grass eight steps up is a hill,
//! and a tile of water eight steps up is a mistake. Everything that changes the
//! shape of a park goes through here, so the rules about what land is allowed
//! to look like live in one place.

use vstd::prelude::*;

use crate::park::grid::slot;
use crate::park::terrain::walk_cost_of;
use crate::park::{Grid, Terrain, TilePos};

verus! {

/// Why the land would not move.
#[derive(Debug, Clone, Copy, PartialEq, Eq, Structural)]
pub enum LandError {
    /// The tile is not part of the land.
    Outside(TilePos),
    /// The tile is already as high, or as low, as land may go.
    OutOfRange(TilePos),
}

/// The land a park is built on.
#[derive(Debug, Clone, PartialEq, Eq)]
pub struct Land {
    terrain: Grid<Terrain>,
    /// How many steps above the base each tile stands. Always the same size as
    /// `terrain`.
    heights: Grid<i16>,
}

/// `|n|` for a whole number.
pub open spec fn size_of(n: int) -> nat {
    if n < 0 {
        (-n) as nat
    } else {
        n as nat
    }
}

/// What the map maker lays on `tile` of a new park `width` by `height`
/// tiles, before any rock is scattered: a crossroads of path through the
/// middle, somewhere for the first guests to arrive on and something to build
/// against; a lake in one quarter, so the map is not a featureless field and
/// the crowd has something to walk round; and grass everywhere else.
pub open spec fn crossroads_at(width: int, height: int, tile: TilePos) -> Terrain {
    let (x, y) = (tile.x as int, tile.y as int);
    let dx = size_of(x - width / 4);
    let dy = size_of(y - height / 4);
    let across = if width < height { width } else { height } / 8;
    if x == width / 2 || y == height / 2 {
        Terrain::Path
    } else if dx * dx + dy * dy < across * across {
        Terrain::Water
    } else {
        Terrain::Grass
    }
}

/// The ground of a new park `width` by `height` tiles, before any rock is
/// scattered on it: see [`crossroads_at`].
///
/// `None` if either side is empty or longer than [`Grid::MAX_SIDE`].
pub fn crossroads(width: u32, height: u32) -> (g: Option<Grid<Terrain>>)
    ensures
        g is Some <==> (0 < width <= Grid::<Terrain>::MAX_SIDE && 0 < height <= Grid::<Terrain>::MAX_SIDE),
        g matches Some(g) ==> {
            &&& g.wf()
            &&& g.cols() == width
            &&& g.rows() == height
            &&& forall|t: TilePos| g.holds(t) ==> #[trigger] g.at(t) == crossroads_at(width as int, height as int, t)
        },
{
    let mut grid = match Grid::filled(width, height, Terrain::Grass) {
        Some(g) => g,
        None => return None,
    };
    proof {
        assert forall|t: TilePos| #[trigger] grid.holds(t) implies grid.at(t) == Terrain::Grass by {
            crate::park::grid::lemma_slot_in_range(grid.cols(), grid.rows(), t.x as int, t.y as int);
        }
    }
    let across: i64 = (if width < height { width } else { height } / 8) as i64;
    let (mid_x, mid_y) = (width / 2, height / 2);
    let (lake_x, lake_y) = ((width / 4) as i64, (height / 4) as i64);
    let mut y: u32 = 0;
    while y < height
        invariant
            grid.wf(),
            grid.cols() == width,
            grid.rows() == height,
            0 < width <= 4096,
            0 < height <= 4096,
            y <= height,
            across == (if width < height { width } else { height }) / 8,
            mid_x == width / 2,
            mid_y == height / 2,
            lake_x == width / 4,
            lake_y == height / 4,
            forall|t: TilePos| #[trigger] grid.holds(t) ==> grid.at(t) == if t.y < y {
                crossroads_at(width as int, height as int, t)
            } else {
                Terrain::Grass
            },
        decreases height - y,
    {
        let mut x: u32 = 0;
        while x < width
            invariant
                grid.wf(),
                grid.cols() == width,
                grid.rows() == height,
                0 < width <= 4096,
                0 < height <= 4096,
                y < height,
                x <= width,
                across == (if width < height { width } else { height }) / 8,
                mid_x == width / 2,
                mid_y == height / 2,
                lake_x == width / 4,
                lake_y == height / 4,
                forall|t: TilePos| #[trigger] grid.holds(t) ==> grid.at(t) == if t.y < y || (t.y == y
                    && t.x < x) {
                    crossroads_at(width as int, height as int, t)
                } else {
                    Terrain::Grass
                },
            decreases width - x,
        {
            let tile = TilePos::new(x as i32, y as i32);
            let dx: i64 = if x as i64 >= lake_x {
                x as i64 - lake_x
            } else {
                lake_x - x as i64
            };
            let dy: i64 = if y as i64 >= lake_y {
                y as i64 - lake_y
            } else {
                lake_y - y as i64
            };
            proof {
                assert(dx * dx <= 4096 * 4096) by (nonlinear_arith)
                    requires
                        0 <= dx <= 4096,
                ;
                assert(dy * dy <= 4096 * 4096) by (nonlinear_arith)
                    requires
                        0 <= dy <= 4096,
                ;
                assert(across * across <= 4096 * 4096) by (nonlinear_arith)
                    requires
                        0 <= across <= 4096,
                ;
            }
            let ground = if x == mid_x || y == mid_y {
                Terrain::Path
            } else if dx * dx + dy * dy < across * across {
                Terrain::Water
            } else {
                Terrain::Grass
            };
            assert(ground == crossroads_at(width as int, height as int, tile));
            let ghost before = grid;
            let _ = grid.replace(tile, ground);
            proof {
                assert forall|t: TilePos| #[trigger] grid.holds(t) implies grid.at(t) == if t.y < y || (t.y
                    == y && t.x < x + 1) {
                    crossroads_at(width as int, height as int, t)
                } else {
                    Terrain::Grass
                } by {
                    assert(before.holds(t));
                    if t != tile {
                        assert(grid.at(t) == before.at(t));
                    }
                }
            }
            x += 1;
        }
        y += 1;
    }
    Some(grid)
}

impl Land {
    /// The highest a tile can be raised, in steps.
    pub const MAX_HEIGHT: i16 = 16;

    /// The lowest a tile can be dug down to.
    pub const MIN_HEIGHT: i16 = 0;

    /// The biggest height difference a guest will step up or down.
    ///
    /// Anything steeper is a cliff: still land, still buildable on top, but not
    /// something anybody walks off.
    pub const MAX_STEP: i16 = 1;

    /// How much each step of climbing adds to the cost of crossing a tile.
    pub const CLIMBING: u32 = 4;

    /// Whether this land is land that makes sense.
    pub fn is_sound(&self) -> (b: bool)
        ensures
            b == self.wf(),
    {
        if !self.terrain.is_sound() || !self.heights.is_sound() {
            return false;
        }
        if self.terrain.width() != self.heights.width() || self.terrain.height() != self.heights.height() {
            return false;
        }
        let cells = self.heights.as_slice();
        let mut i: usize = 0;
        while i < cells.len()
            invariant
                i <= cells@.len(),
                cells@ == self.height_grid().values(),
                forall|k: int| 0 <= k < i ==> Self::MIN_HEIGHT <= #[trigger] cells@[k] <= Self::MAX_HEIGHT,
            decreases cells@.len() - i,
        {
            if cells[i] < Self::MIN_HEIGHT || cells[i] > Self::MAX_HEIGHT {
                return false;
            }
            i += 1;
        }
        true
    }

    /// Land made of `terrain`, standing at `heights`, as it was written down.
    ///
    /// `None` unless the two cover the same tiles and every height is one land
    /// can stand at.
    pub fn restore(terrain: Grid<Terrain>, heights: Grid<i16>) -> (land: Option<Self>)
        requires
            terrain.wf(),
            heights.wf(),
        ensures
            land is Some <==> (terrain.cols() == heights.cols() && terrain.rows() == heights.rows()
                && forall|i: int|
                0 <= i < heights.values().len() ==> Self::MIN_HEIGHT <= #[trigger] heights.values()[i]
                    <= Self::MAX_HEIGHT),
            land matches Some(l) ==> l.wf() && l.ground_grid() == terrain && l.height_grid() == heights,
    {
        if terrain.width() != heights.width() || terrain.height() != heights.height() {
            return None;
        }
        let cells = heights.as_slice();
        let mut i: usize = 0;
        while i < cells.len()
            invariant
                i <= cells@.len(),
                cells@ == heights.values(),
                forall|k: int| 0 <= k < i ==> Self::MIN_HEIGHT <= #[trigger] cells@[k] <= Self::MAX_HEIGHT,
            decreases cells@.len() - i,
        {
            if cells[i] < Self::MIN_HEIGHT || cells[i] > Self::MAX_HEIGHT {
                return None;
            }
            i += 1;
        }
        Some(Land { terrain, heights })
    }

    /// What the ground is made of, tile by tile.
    pub closed spec fn ground_grid(&self) -> Grid<Terrain> {
        self.terrain
    }

    /// How high it stands, tile by tile.
    pub closed spec fn height_grid(&self) -> Grid<i16> {
        self.heights
    }

    /// Both grids are whole, the same shape, and every height is in range.
    pub open spec fn wf(&self) -> bool {
        &&& self.ground_grid().wf()
        &&& self.height_grid().wf()
        &&& self.ground_grid().cols() == self.height_grid().cols()
        &&& self.ground_grid().rows() == self.height_grid().rows()
        &&& forall|i: int|
            0 <= i < self.height_grid().values().len() ==> Self::MIN_HEIGHT
                <= #[trigger] self.height_grid().values()[i] <= Self::MAX_HEIGHT
    }

    /// Whether `tile` is part of this land.
    pub open spec fn holds(&self, tile: TilePos) -> bool {
        self.ground_grid().holds(tile)
    }

    /// What `tile` is made of, if it is part of the land.
    pub open spec fn ground_of(&self, tile: TilePos) -> Option<Terrain> {
        if self.holds(tile) {
            Some(self.ground_grid().at(tile))
        } else {
            None
        }
    }

    /// How high `tile` stands, if it is part of the land.
    pub open spec fn height_of(&self, tile: TilePos) -> Option<i16> {
        if self.holds(tile) {
            Some(self.height_grid().at(tile))
        } else {
            None
        }
    }

    /// What stepping from `from` onto `to` costs, or `None` where nobody can.
    pub open spec fn step_cost_of(&self, from: TilePos, to: TilePos) -> Option<u32> {
        match (self.height_of(from), self.height_of(to)) {
            (Some(f), Some(t)) => {
                let climb = t - f;
                if size_of(climb) > Self::MAX_STEP {
                    None
                } else {
                    match walk_cost_of(self.ground_of(to)->0) {
                        Some(crossing) => Some((crossing + size_of(climb) * Self::CLIMBING) as u32),
                        None => None,
                    }
                }
            },
            _ => None,
        }
    }

    /// The same land with one tile's height changed.
    pub open spec fn reshaped(&self, other: &Land, tile: TilePos, now: i16) -> bool {
        &&& other.wf()
        &&& other.ground_grid() == self.ground_grid()
        &&& other.height_grid().cols() == self.height_grid().cols()
        &&& other.height_grid().rows() == self.height_grid().rows()
        &&& other.height_grid().values() == self.height_grid().values().update(
            slot(self.height_grid().cols(), tile.x as int, tile.y as int),
            now,
        )
    }

    /// Reshaping one tile moves that tile to its new height and leaves every
    /// other tile, and what they are all made of, as it was.
    pub proof fn lemma_reshaped_heights(&self, other: &Land, tile: TilePos, now: i16)
        requires
            self.wf(),
            self.holds(tile),
            self.reshaped(other, tile, now),
        ensures
            forall|t: TilePos| #[trigger]
                other.height_of(t) == if t == tile {
                    Some(now)
                } else {
                    self.height_of(t)
                },
            forall|t: TilePos| #[trigger] other.ground_of(t) == self.ground_of(t),
    {
        let w = self.height_grid().cols();
        crate::park::grid::lemma_slot_in_range(w, self.height_grid().rows(), tile.x as int, tile.y as int);
        assert forall|t: TilePos| #[trigger]
            other.height_of(t) == if t == tile {
                Some(now)
            } else {
                self.height_of(t)
            } by {
            if self.holds(t) {
                crate::park::grid::lemma_slot_in_range(w, self.height_grid().rows(), t.x as int, t.y as int);
                if t != tile {
                    crate::park::grid::lemma_slot_unique(w, t.x as int, t.y as int, tile.x as int, tile.y as int);
                }
            }
        }
    }

    /// Every tile stands within the allowed range.
    pub proof fn lemma_height_in_range(&self, tile: TilePos)
        requires
            self.wf(),
        ensures
            self.height_of(tile) matches Some(h) ==> Self::MIN_HEIGHT <= h <= Self::MAX_HEIGHT,
    {
        if self.holds(tile) {
            crate::park::grid::lemma_slot_in_range(
                self.height_grid().cols(),
                self.height_grid().rows(),
                tile.x as int,
                tile.y as int,
            );
            let i = slot(self.height_grid().cols(), tile.x as int, tile.y as int);
            assert(Self::MIN_HEIGHT <= self.height_grid().values()[i] <= Self::MAX_HEIGHT);
        }
    }

    /// Flat land made of `terrain`, every tile at the base height.
    pub fn flat(terrain: Grid<Terrain>) -> (land: Self)
        requires
            terrain.wf(),
        ensures
            land.wf(),
            land.ground_grid() == terrain,
            forall|t: TilePos| land.holds(t) ==> land.height_of(t) == Some(Self::MIN_HEIGHT),
    {
        let heights = Grid::filled(terrain.width(), terrain.height(), Self::MIN_HEIGHT);
        let heights = match heights {
            Some(h) => h,
            None => {
                assert(false);
                return Land { terrain: terrain, heights: Grid::filled(1, 1, 0i16).unwrap() };
            },
        };
        let land = Land { terrain, heights };
        assert forall|t: TilePos| land.holds(t) implies land.height_of(t) == Some(
            Self::MIN_HEIGHT,
        ) by {
            crate::park::grid::lemma_slot_in_range(
                land.heights.cols(),
                land.heights.rows(),
                t.x as int,
                t.y as int,
            );
        }
        land
    }

    /// What the ground is made of, tile by tile.
    pub fn terrain(&self) -> (g: &Grid<Terrain>)
        ensures
            *g == self.ground_grid(),
    {
        &self.terrain
    }

    /// How high it all stands, tile by tile.
    pub fn heights(&self) -> (g: &Grid<i16>)
        ensures
            *g == self.height_grid(),
    {
        &self.heights
    }

    /// The width of the land in tiles.
    pub fn width(&self) -> (w: u32)
        ensures
            w == self.ground_grid().cols(),
    {
        self.terrain.width()
    }

    /// The depth of the land in tiles — its extent on the map, not its
    /// elevation.
    pub fn height(&self) -> (h: u32)
        ensures
            h == self.ground_grid().rows(),
    {
        self.terrain.height()
    }

    /// Whether `tile` is part of this land at all.
    pub fn contains(&self, tile: TilePos) -> (b: bool)
        ensures
            b == self.holds(tile),
    {
        self.terrain.contains(tile)
    }

    /// What `tile` is made of.
    pub fn ground(&self, tile: TilePos) -> (g: Option<Terrain>)
        requires
            self.wf(),
        ensures
            g == self.ground_of(tile),
    {
        self.terrain.get(tile)
    }

    /// How many steps up `tile` stands.
    pub fn height_at(&self, tile: TilePos) -> (h: Option<i16>)
        requires
            self.wf(),
        ensures
            h == self.height_of(tile),
            h matches Some(h) ==> Self::MIN_HEIGHT <= h <= Self::MAX_HEIGHT,
    {
        proof {
            if self.holds(tile) {
                crate::park::grid::lemma_slot_in_range(
                    self.heights.cols(),
                    self.heights.rows(),
                    tile.x as int,
                    tile.y as int,
                );
            }
        }
        self.heights.get(tile)
    }

    /// The highest tile in the park.
    pub fn highest(&self) -> (top: i16)
        requires
            self.wf(),
        ensures
            exists|i: int|
                0 <= i < self.height_grid().values().len() && top
                    == self.height_grid().values()[i],
            forall|i: int|
                0 <= i < self.height_grid().values().len() ==> self.height_grid().values()[i]
                    <= top,
    {
        let all = self.heights.as_slice();
        proof {
            assert(self.heights.values().len() > 0) by (nonlinear_arith)
                requires
                    self.heights.values().len() == self.heights.cols() * self.heights.rows(),
                    self.heights.cols() > 0,
                    self.heights.rows() > 0,
            ;
        }
        let mut top = all[0];
        let mut i: usize = 1;
        while i < all.len()
            invariant
                all@ == self.height_grid().values(),
                1 <= i <= all@.len(),
                exists|j: int| 0 <= j < i && top == all@[j],
                forall|j: int| 0 <= j < i ==> all@[j] <= top,
            decreases all@.len() - i,
        {
            if all[i] > top {
                top = all[i];
            }
            i += 1;
        }
        top
    }

    /// Replaces what one tile is made of, returning what it was.
    ///
    /// Returns `None` and changes nothing if the tile is outside the land.
    pub fn set_ground(&mut self, tile: TilePos, terrain: Terrain) -> (was: Option<Terrain>)
        requires
            old(self).wf(),
        ensures
            final(self).wf(),
            was == old(self).ground_of(tile),
            final(self).height_grid() == old(self).height_grid(),
            final(self).ground_grid().cols() == old(self).ground_grid().cols(),
            final(self).ground_grid().rows() == old(self).ground_grid().rows(),
            forall|t: TilePos|
                #![trigger final(self).ground_of(t)]
                final(self).ground_of(t) == if t == tile && old(self).holds(tile) {
                    Some(terrain)
                } else {
                    old(self).ground_of(t)
                },
    {
        let ghost before = *self;
        let was = self.terrain.replace(tile, terrain);
        proof {
            if !before.holds(tile) {
                assert(self.terrain == before.terrain);
            } else {
                crate::park::grid::lemma_slot_in_range(
                    before.terrain.cols(),
                    before.terrain.rows(),
                    tile.x as int,
                    tile.y as int,
                );
            }
            assert forall|t: TilePos| #[trigger] self.ground_of(t) == if t == tile
                && before.holds(tile) {
                Some(terrain)
            } else {
                before.ground_of(t)
            } by {
                if self.holds(t) && before.holds(tile) {
                    let w = before.terrain.cols();
                    crate::park::grid::lemma_slot_in_range(
                        w,
                        before.terrain.rows(),
                        t.x as int,
                        t.y as int,
                    );
                    if t != tile {
                        crate::park::grid::lemma_slot_unique(
                            w,
                            t.x as int,
                            t.y as int,
                            tile.x as int,
                            tile.y as int,
                        );
                    }
                }
            }
        }
        was
    }

    /// Raises one tile by a step, returning its new height.
    ///
    /// Fails if the tile is outside the land or already at
    /// [`Land::MAX_HEIGHT`].
    pub fn raise(&mut self, tile: TilePos) -> (r: Result<i16, LandError>)
        requires
            old(self).wf(),
        ensures
            final(self).wf(),
            old(self).height_of(tile) is None ==> r == Err::<i16, LandError>(
                LandError::Outside(tile),
            ) && *final(self) == *old(self),
            old(self).height_of(tile) == Some(Self::MAX_HEIGHT) ==> r == Err::<i16, LandError>(
                LandError::OutOfRange(tile),
            ) && *final(self) == *old(self),
            old(self).height_of(tile) matches Some(h) ==> (h < Self::MAX_HEIGHT ==> r == Ok::<
                i16,
                LandError,
            >((h + 1) as i16) && old(self).reshaped(&*final(self), tile, (h + 1) as i16)),
    {
        proof {
            old(self).lemma_height_in_range(tile);
        }
        self.reshape(tile, 1)
    }

    /// Digs one tile down by a step, returning its new height.
    ///
    /// Fails if the tile is outside the land or already at
    /// [`Land::MIN_HEIGHT`].
    pub fn lower(&mut self, tile: TilePos) -> (r: Result<i16, LandError>)
        requires
            old(self).wf(),
        ensures
            final(self).wf(),
            old(self).height_of(tile) is None ==> r == Err::<i16, LandError>(
                LandError::Outside(tile),
            ) && *final(self) == *old(self),
            old(self).height_of(tile) == Some(Self::MIN_HEIGHT) ==> r == Err::<i16, LandError>(
                LandError::OutOfRange(tile),
            ) && *final(self) == *old(self),
            old(self).height_of(tile) matches Some(h) ==> (h > Self::MIN_HEIGHT ==> r == Ok::<
                i16,
                LandError,
            >((h - 1) as i16) && old(self).reshaped(&*final(self), tile, (h - 1) as i16)),
    {
        proof {
            old(self).lemma_height_in_range(tile);
        }
        self.reshape(tile, -1)
    }

    /// Moves one tile by `steps`, refusing to leave the allowed range.
    fn reshape(&mut self, tile: TilePos, steps: i16) -> (r: Result<i16, LandError>)
        requires
            old(self).wf(),
            steps == 1 || steps == -1,
        ensures
            final(self).wf(),
            old(self).height_of(tile) is None ==> r == Err::<i16, LandError>(
                LandError::Outside(tile),
            ) && *final(self) == *old(self),
            old(self).height_of(tile) matches Some(h) ==> (!(Self::MIN_HEIGHT <= h + steps
                <= Self::MAX_HEIGHT) ==> r == Err::<i16, LandError>(LandError::OutOfRange(tile))
                && *final(self) == *old(self)),
            old(self).height_of(tile) matches Some(h) ==> (Self::MIN_HEIGHT <= h + steps
                <= Self::MAX_HEIGHT ==> r == Ok::<i16, LandError>((h + steps) as i16)
                && old(self).reshaped(&*final(self), tile, (h + steps) as i16)),
    {
        let was = match self.height_at(tile) {
            Some(h) => h,
            None => return Err(LandError::Outside(tile)),
        };
        let now = was + steps;
        if now < Self::MIN_HEIGHT || now > Self::MAX_HEIGHT {
            return Err(LandError::OutOfRange(tile));
        }
        let ghost before = self.heights;
        let _ = self.heights.replace(tile, now);
        proof {
            crate::park::grid::lemma_slot_in_range(
                before.cols(),
                before.rows(),
                tile.x as int,
                tile.y as int,
            );
            assert forall|i: int| 0 <= i < self.heights.values().len() implies Self::MIN_HEIGHT
                <= #[trigger] self.heights.values()[i] <= Self::MAX_HEIGHT by {
                assert(Self::MIN_HEIGHT <= old(self).height_grid().values()[i]
                    <= Self::MAX_HEIGHT);
            }
        }
        Ok(now)
    }

    /// Whether somebody standing on `from` could step onto `to`.
    ///
    /// Both tiles have to be walkable ground, and the climb between them no
    /// steeper than [`Land::MAX_STEP`].
    pub fn is_a_step(&self, from: TilePos, to: TilePos) -> (b: bool)
        requires
            self.wf(),
        ensures
            b == self.step_cost_of(from, to) is Some,
    {
        self.step_cost(from, to).is_some()
    }

    /// What it costs to step from `from` onto `to`, for the pathfinder.
    ///
    /// `None` where nobody can go: off the map, into the water, or up a cliff.
    /// Climbing is dearer than walking, so a crowd goes round a hill it could
    /// have gone over.
    pub fn step_cost(&self, from: TilePos, to: TilePos) -> (cost: Option<u32>)
        requires
            self.wf(),
        ensures
            cost == self.step_cost_of(from, to),
            cost matches Some(c) ==> c > 0,
    {
        let (f, t) = match (self.height_at(from), self.height_at(to)) {
            (Some(f), Some(t)) => (f, t),
            _ => return None,
        };
        let climb = t - f;
        let steps: u32 = if climb < 0 {
            (-climb) as u32
        } else {
            climb as u32
        };
        if steps > Self::MAX_STEP as u32 {
            return None;
        }
        let ground = match self.ground(to) {
            Some(g) => g,
            None => return None,
        };
        let crossing = match ground.walk_cost() {
            Some(c) => c,
            None => return None,
        };
        Some(crossing + steps * Self::CLIMBING)
    }
}

/// Stepping costs the same both ways: a route over a hill is dearer than one
/// around it whichever way it is walked, and a cliff is a cliff from either
/// side.
pub proof fn a_step_costs_the_same_both_ways(land: &Land, a: TilePos, b: TilePos)
    requires
        land.wf(),
        land.ground_of(a) == land.ground_of(b),
    ensures
        land.step_cost_of(a, b) == land.step_cost_of(b, a),
{
}

/// Nobody walks off a cliff: two tiles more than a step apart in height are
/// never one step apart on foot.
pub proof fn nobody_walks_off_a_cliff(land: &Land, a: TilePos, b: TilePos)
    requires
        land.wf(),
        land.height_of(a) is Some,
        land.height_of(b) is Some,
        size_of(land.height_of(b)->0 - land.height_of(a)->0) > Land::MAX_STEP,
    ensures
        land.step_cost_of(a, b) is None,
        land.step_cost_of(b, a) is None,
{
}

/// A climb always costs more than the same ground on the flat: each step up
/// costs what [`Land::CLIMBING`] steps along a path would, on top.
pub proof fn climbing_costs_more(land: &Land, from: TilePos, level: TilePos, up: TilePos)
    requires
        land.wf(),
        land.ground_of(level) == land.ground_of(up),
        land.height_of(from) is Some,
        land.height_of(level) == land.height_of(from),
        land.height_of(up) is Some,
        land.height_of(up)->0 == land.height_of(from)->0 + 1,
        land.step_cost_of(from, level) is Some,
    ensures
        land.step_cost_of(from, up) is Some,
        land.step_cost_of(from, up)->0 > land.step_cost_of(from, level)->0,
        land.step_cost_of(from, up)->0 == land.step_cost_of(from, level)->0 + Land::CLIMBING,
{
}

/// Raising a tile and lowering it again gives back the land it started as.
pub proof fn raising_then_lowering_gives_the_land_back(
    start: &Land,
    raised: &Land,
    back: &Land,
    tile: TilePos,
    h: i16,
)
    requires
        start.wf(),
        start.height_of(tile) == Some(h),
        h < Land::MAX_HEIGHT,
        start.reshaped(raised, tile, (h + 1) as i16),
        raised.reshaped(back, tile, h),
    ensures
        back.ground_grid() == start.ground_grid(),
        back.height_grid().values() == start.height_grid().values(),
{
    let i = slot(start.height_grid().cols(), tile.x as int, tile.y as int);
    crate::park::grid::lemma_slot_in_range(
        start.height_grid().cols(),
        start.height_grid().rows(),
        tile.x as int,
        tile.y as int,
    );
    assert(back.height_grid().values() =~= start.height_grid().values());
}

} // verus!
