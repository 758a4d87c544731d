//! A rectangle of tiles with one value on each.

use vstd::prelude::*;

use crate::park::TilePos;

verus! {

/// A row of `width` cells for each of `height` rows, one value per tile.
#[derive(Debug, Clone, PartialEq, Eq)]
pub struct Grid<T> {
    width: u32,
    height: u32,
    cells: Vec<T>,
}

/// Where `(x, y)` sits in a row-major list of a grid `width` wide.
pub open spec fn slot(width: int, x: int, y: int) -> int {
    y * width + x
}

/// A cell of row `y` and column `x` lies inside the rows before the next one.
pub proof fn lemma_slot_in_range(width: int, height: int, x: int, y: int)
    requires
        0 <= x < width,
        0 <= y < height,
    ensures
        0 <= slot(width, x, y) < width * height,
        slot(width, x, y) + 1 <= (y + 1) * width,
        y * width <= slot(width, x, y),
{
    assert(0 <= y * width) by (nonlinear_arith)
        requires
            0 <= y,
            0 <= width,
    ;
    assert((y + 1) * width <= width * height) by (nonlinear_arith)
        requires
            y + 1 <= height,
            0 <= width,
    ;
    assert((y + 1) * width == y * width + width) by (nonlinear_arith);
}

/// Two different tiles of the same grid never share a cell.
pub proof fn lemma_slot_unique(width: int, x1: int, y1: int, x2: int, y2: int)
    requires
        0 <= x1 < width,
        0 <= x2 < width,
        0 <= y1,
        0 <= y2,
        (x1, y1) != (x2, y2),
    ensures
        slot(width, x1, y1) != slot(width, x2, y2),
{
    if y1 == y2 {
    } else if y1 < y2 {
        assert(y1 * width + width <= y2 * width) by (nonlinear_arith)
            requires
                y1 + 1 <= y2,
                0 <= width,
        ;
    } else {
        assert(y2 * width + width <= y1 * width) by (nonlinear_arith)
            requires
                y2 + 1 <= y1,
                0 <= width,
        ;
    }
}

/// Every cell of a row-major list belongs to exactly one tile.
pub proof fn lemma_slot_inverse(width: int, height: int, i: int)
    requires
        0 < width,
        0 <= i < width * height,
    ensures
        0 <= i % width < width,
        0 <= i / width < height,
        slot(width, i % width, i / width) == i,
{
    assert(i == width * (i / width) + i % width) by (nonlinear_arith)
        requires
            0 < width,
    ;
    assert(0 <= i % width < width) by (nonlinear_arith)
        requires
            0 < width,
    ;
    assert(0 <= i / width) by (nonlinear_arith)
        requires
            0 < width,
            0 <= i,
    ;
    assert(i / width < height) by (nonlinear_arith)
        requires
            0 < width,
            i < width * height,
            0 <= i,
    ;
    assert(width * (i / width) == (i / width) * width) by (nonlinear_arith);
}

/// Two grids of one shape that hold the same on every tile but `tile` hold
/// the same in every cell but `tile`'s.
pub proof fn lemma_same_but_one<T>(before: Grid<T>, after: Grid<T>, tile: TilePos)
    requires
        before.wf(),
        after.wf(),
        after.cols() == before.cols(),
        after.rows() == before.rows(),
        before.holds(tile),
        forall|t: TilePos| before.holds(t) && t != tile ==> #[trigger] after.at(t) == before.at(t),
    ensures
        after.values() == before.values().update(
            slot(before.cols(), tile.x as int, tile.y as int),
            after.at(tile),
        ),
{
    let k = slot(before.cols(), tile.x as int, tile.y as int);
    lemma_slot_in_range(before.cols(), before.rows(), tile.x as int, tile.y as int);
    assert forall|i: int| 0 <= i < before.values().len() implies #[trigger] after.values()[i]
        == before.values().update(k, after.at(tile))[i] by {
        lemma_slot_inverse(before.cols(), before.rows(), i);
        let t = TilePos { x: (i % before.cols()) as i32, y: (i / before.cols()) as i32 };
        assert(before.holds(t));
        if i != k {
            assert(t != tile);
            assert(after.at(t) == before.at(t));
        }
    }
    assert(after.values() =~= before.values().update(k, after.at(tile)));
}

impl<T> Grid<T> {
    /// The most tiles a grid may have on a side.
    pub const MAX_SIDE: u32 = 4096;

    /// How many columns.
    pub closed spec fn cols(&self) -> int {
        self.width as int
    }

    /// How many rows.
    pub closed spec fn rows(&self) -> int {
        self.height as int
    }

    /// Every value, row by row.
    pub closed spec fn values(&self) -> Seq<T> {
        self.cells@
    }

    /// The cells hold one value for each tile, and the sides are in range.
    pub open spec fn wf(&self) -> bool {
        &&& 0 < self.cols() <= Self::MAX_SIDE
        &&& 0 < self.rows() <= Self::MAX_SIDE
        &&& self.values().len() == self.cols() * self.rows()
    }

    /// Whether `tile` is one of this grid's.
    pub open spec fn holds(&self, tile: TilePos) -> bool {
        0 <= tile.x < self.cols() && 0 <= tile.y < self.rows()
    }

    /// The value on `tile`.
    pub open spec fn at(&self, tile: TilePos) -> T {
        self.values()[slot(self.cols(), tile.x as int, tile.y as int)]
    }

    /// The tile of the cell at `i`, row by row.
    pub open spec fn tile_of(&self, i: int) -> TilePos {
        TilePos { x: (i % self.cols()) as i32, y: (i / self.cols()) as i32 }
    }

    /// How many columns.
    pub fn width(&self) -> (w: u32)
        ensures
            w == self.cols(),
    {
        self.width
    }

    /// How many rows.
    pub fn height(&self) -> (h: u32)
        ensures
            h == self.rows(),
    {
        self.height
    }

    /// Whether `tile` is one of this grid's.
    pub fn contains(&self, tile: TilePos) -> (b: bool)
        ensures
            b == self.holds(tile),
    {
        0 <= tile.x && (tile.x as u32) < self.width && 0 <= tile.y && (tile.y as u32)
            < self.height
    }

    /// Every value, row by row.
    pub fn as_slice(&self) -> (s: &[T])
        ensures
            s@ == self.values(),
    {
        self.cells.as_slice()
    }

    /// Where `tile` is in the list of cells.
    fn index_of(&self, tile: TilePos) -> (i: usize)
        requires
            self.wf(),
            self.holds(tile),
        ensures
            i == slot(self.cols(), tile.x as int, tile.y as int),
            i < self.values().len(),
    {
        proof {
            lemma_slot_in_range(
                self.width as int,
                self.height as int,
                tile.x as int,
                tile.y as int,
            );
            assert(tile.y as int * self.width as int <= 4096 * 4096) by (nonlinear_arith)
                requires
                    0 <= tile.y <= 4096,
                    0 <= self.width <= 4096,
            ;
        }
        (tile.y as usize) * (self.width as usize) + (tile.x as usize)
    }

    /// Puts `value` on `tile`, returning what was there, or `None` and no
    /// change if the tile is not this grid's.
    pub fn replace(&mut self, tile: TilePos, value: T) -> (was: Option<T>)
        requires
            old(self).wf(),
        ensures
            final(self).wf(),
            final(self).cols() == old(self).cols(),
            final(self).rows() == old(self).rows(),
            old(self).holds(tile) ==> was == Some(old(self).at(tile)) && final(self).values()
                == old(self).values().update(
                slot(old(self).cols(), tile.x as int, tile.y as int),
                value,
            ),
            !old(self).holds(tile) ==> was is None && *final(self) == *old(self),
            old(self).holds(tile) ==> forall|u: TilePos|
                old(self).holds(u) ==> #[trigger] final(self).at(u) == if u == tile {
                    value
                } else {
                    old(self).at(u)
                },
    {
        if !self.contains(tile) {
            return None;
        }
        let i = self.index_of(tile);
        let ghost before = *self;
        let mut value = value;
        std::mem::swap(&mut self.cells[i], &mut value);
        proof {
            assert forall|u: TilePos| before.holds(u) && u != tile implies #[trigger] self.at(u)
                == before.at(u) by {
                lemma_slot_unique(before.cols(), u.x as int, u.y as int, tile.x as int, tile.y as int);
                lemma_slot_in_range(before.cols(), before.rows(), u.x as int, u.y as int);
            }
        }
        Some(value)
    }
}

impl<T: Copy> Grid<T> {
    /// A grid of `width` by `height` tiles, every one holding `value`.
    ///
    /// `None` if either side is empty or longer than [`Grid::MAX_SIDE`].
    pub fn filled(width: u32, height: u32, value: T) -> (g: Option<Self>)
        ensures
            g is Some <==> (0 < width <= Self::MAX_SIDE && 0 < height <= Self::MAX_SIDE),
            g matches Some(g) ==> {
                &&& g.wf()
                &&& g.cols() == width
                &&& g.rows() == height
                &&& forall|i: int| 0 <= i < g.values().len() ==> g.values()[i] == value
            },
    {
        if width == 0 || height == 0 || width > Self::MAX_SIDE || height > Self::MAX_SIDE {
            return None;
        }
        assert(width as int * height as int <= 4096 * 4096) by (nonlinear_arith)
            requires
                width <= 4096,
                height <= 4096,
        ;
        let total = (width as usize) * (height as usize);
        let mut cells: Vec<T> = Vec::with_capacity(total);
        while cells.len() < total
            invariant
                cells@.len() <= total,
                total == width * height,
                forall|i: int| 0 <= i < cells@.len() ==> cells@[i] == value,
            decreases total - cells@.len(),
        {
            cells.push(value);
        }
        Some(Grid { width, height, cells })
    }

    /// Whether this grid is one that makes sense: sides of a size a grid can
    /// have, and one cell for every tile.
    pub fn is_sound(&self) -> (b: bool)
        ensures
            b == self.wf(),
    {
        if self.width == 0 || self.height == 0 || self.width > Self::MAX_SIDE || self.height
            > Self::MAX_SIDE {
            return false;
        }
        assert(self.width as int * self.height as int <= 4096 * 4096) by (nonlinear_arith)
            requires
                self.width <= 4096,
                self.height <= 4096,
        ;
        self.cells.len() == (self.width as usize) * (self.height as usize)
    }

    /// A grid of `width` by `height` tiles holding `cells`, row by row.
    ///
    /// `None` unless both sides are at least one tile and at most
    /// [`Grid::MAX_SIDE`], and there is exactly one cell for every tile.
    pub fn from_values(width: u32, height: u32, cells: Vec<T>) -> (g: Option<Self>)
        ensures
            g is Some <==> (0 < width <= Self::MAX_SIDE && 0 < height <= Self::MAX_SIDE
                && cells@.len() == width * height),
            g matches Some(g) ==> {
                &&& g.wf()
                &&& g.cols() == width
                &&& g.rows() == height
                &&& g.values() == cells@
            },
    {
        if width == 0 || height == 0 || width > Self::MAX_SIDE || height > Self::MAX_SIDE {
            return None;
        }
        assert(width as int * height as int <= 4096 * 4096) by (nonlinear_arith)
            requires
                width <= 4096,
                height <= 4096,
        ;
        let total = (width as usize) * (height as usize);
        if cells.len() != total {
            return None;
        }
        Some(Grid { width, height, cells })
    }

    /// The value on `tile`, or `None` if the tile is not this grid's.
    pub fn get(&self, tile: TilePos) -> (v: Option<T>)
        requires
            self.wf(),
        ensures
            v == (if self.holds(tile) {
                Some(self.at(tile))
            } else {
                None
            }),
    {
        if !self.contains(tile) {
            return None;
        }
        let i = self.index_of(tile);
        Some(self.cells[i])
    }
}

} // verus!
