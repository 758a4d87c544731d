//! Where something is on the grid.

use vstd::prelude::*;

verus! {

/// One tile of the map, by column and row.
///
/// `x` grows towards the east and `y` towards the south, so the entrance at the
/// top of the map sits on row zero.
#[derive(Debug, Clone, Copy, PartialEq, Eq, Hash, Structural)]
pub struct TilePos {
    /// The column.
    pub x: i32,
    /// The row.
    pub y: i32,
}

/// `|a - b|`, as a mathematical integer.
pub open spec fn gap(a: int, b: int) -> nat {
    if a >= b {
        (a - b) as nat
    } else {
        (b - a) as nat
    }
}

impl TilePos {
    /// The tile at column zero, row zero.
    pub fn origin() -> (t: Self)
        ensures
            t.x == 0 && t.y == 0,
    {
        TilePos { x: 0, y: 0 }
    }

    /// The tile at `x`, `y`.
    pub fn new(x: i32, y: i32) -> (t: Self)
        ensures
            t.x == x,
            t.y == y,
    {
        TilePos { x, y }
    }

    /// Whether `dx` and `dy` can be added to this tile without leaving the
    /// range a coordinate can hold.
    pub open spec fn can_offset(self, dx: int, dy: int) -> bool {
        i32::MIN <= self.x + dx <= i32::MAX && i32::MIN <= self.y + dy <= i32::MAX
    }

    /// The tile `dx` columns and `dy` rows away.
    pub open spec fn shifted(self, dx: int, dy: int) -> TilePos {
        TilePos { x: (self.x + dx) as i32, y: (self.y + dy) as i32 }
    }

    /// The tile `dx` columns and `dy` rows away.
    pub fn offset(self, dx: i32, dy: i32) -> (t: Self)
        requires
            self.can_offset(dx as int, dy as int),
        ensures
            t == self.shifted(dx as int, dy as int),
    {
        TilePos { x: self.x + dx, y: self.y + dy }
    }

    /// Whether all four tiles beside this one have coordinates.
    pub open spec fn has_neighbours(self) -> bool {
        i32::MIN < self.x < i32::MAX && i32::MIN < self.y < i32::MAX
    }

    /// The four tiles sharing an edge with `self`: north, east, south, west.
    pub open spec fn around(self) -> Seq<TilePos> {
        seq![
            self.shifted(0, -1),
            self.shifted(1, 0),
            self.shifted(0, 1),
            self.shifted(-1, 0),
        ]
    }

    /// Whether `other` shares an edge with `self`.
    pub open spec fn touches(self, other: TilePos) -> bool {
        gap(self.x as int, other.x as int) + gap(self.y as int, other.y as int) == 1
    }

    /// The four tiles sharing an edge with this one: north, east, south, west.
    pub fn neighbours(self) -> (n: [TilePos; 4])
        requires
            self.has_neighbours(),
        ensures
            n@ == self.around(),
    {
        [
            TilePos { x: self.x, y: self.y - 1 },
            TilePos { x: self.x + 1, y: self.y },
            TilePos { x: self.x, y: self.y + 1 },
            TilePos { x: self.x - 1, y: self.y },
        ]
    }

    /// How many steps apart two tiles are, walking only along rows and
    /// columns.
    pub open spec fn distance(self, other: TilePos) -> nat {
        gap(self.x as int, other.x as int) + gap(self.y as int, other.y as int)
    }

    /// Whether `other` shares an edge with `self`.
    pub fn is_beside(self, other: TilePos) -> (b: bool)
        ensures
            b == self.touches(other),
    {
        let dx: i64 = if self.x >= other.x {
            self.x as i64 - other.x as i64
        } else {
            other.x as i64 - self.x as i64
        };
        let dy: i64 = if self.y >= other.y {
            self.y as i64 - other.y as i64
        } else {
            other.y as i64 - self.y as i64
        };
        dx + dy == 1
    }

    /// How many steps apart two tiles are, walking only along rows and
    /// columns.
    pub fn manhattan_distance(self, other: TilePos) -> (d: u32)
        requires
            self.distance(other) <= u32::MAX,
        ensures
            d == self.distance(other),
    {
        let dx: u32 = if self.x >= other.x {
            (self.x as i64 - other.x as i64) as u32
        } else {
            (other.x as i64 - self.x as i64) as u32
        };
        let dy: u32 = if self.y >= other.y {
            (self.y as i64 - other.y as i64) as u32
        } else {
            (other.y as i64 - self.y as i64) as u32
        };
        dx + dy
    }
}

/// Every tile beside a tile touches it, and none of them is the tile itself.
pub proof fn neighbours_touch(t: TilePos)
    requires
        t.has_neighbours(),
    ensures
        forall|i: int| 0 <= i < 4 ==> #[trigger] t.around()[i].touches(t) && t.around()[i] != t,
{
}

} // verus!
