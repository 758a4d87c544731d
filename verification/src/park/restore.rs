//! Putting a park back together from what was written down about it.
//!
//! A save file is plain parts: the land, what stands on it, the rides, the
//! payroll, the books and the clock. Each kind of part has its own way back in
//! that checks the part on its own; what this module checks is that the parts
//! fit together into one park — the same sizes, and never two things on one
//! tile.

use vstd::prelude::*;

use crate::park::{
    covered, on_track, plant_in, rides_whole, shop_in, shops_whole, tidy, Books, Grid, Land, Layout,
    Objective, Outcome, Park, Ride, Scenery, Shop, Staff, TilePos, Track, Weather,
};

verus! {

/// Everything about a park, as plain parts.
pub struct Parts {
    /// What it is called.
    pub name: String,
    /// The ground and its heights.
    pub land: Land,
    /// What is built on each tile.
    pub shops: Grid<Option<Shop>>,
    /// What is planted on each tile.
    pub plants: Grid<Option<Scenery>>,
    /// Every ride, in the order they were started.
    pub rides: Vec<Ride>,
    /// The payroll.
    pub staff: Vec<Staff>,
    /// The money.
    pub books: Books,
    /// How many ticks the park has been open.
    pub tick: u64,
    /// The id the next ride built will get.
    pub next_ride_id: u32,
    /// The id the next member of staff hired will get.
    pub next_staff_id: u32,
    /// What the park was asked to achieve.
    pub objective: Objective,
    /// How that is going.
    pub outcome: Outcome,
    /// What the sky is doing.
    pub weather: Weather,
}

/// Why a park could not be put back together.
#[derive(Debug, Clone, Copy, PartialEq, Eq, Structural)]
pub enum RestoreError {
    /// The land is not land that makes sense.
    Land,
    /// The land is smaller than a park may be.
    TooSmall {
        /// How wide it is.
        width: u32,
        /// How deep it is.
        height: u32,
    },
    /// The shops do not cover the land, or one charges what no shop may.
    Shops,
    /// The scenery does not cover the land.
    Scenery,
    /// There are more rides than a park holds, or one makes no sense.
    Rides,
    /// The loan is one the bank does not make.
    Books,
    /// Two things stand on one tile, or a ride runs off the edge of the land.
    Crowded,
}

/// The message for a park that could not be put back together.
pub open spec fn restore_error_text(e: RestoreError) -> Seq<char> {
    match e {
        RestoreError::Land => "the land in the save makes no sense"@,
        RestoreError::TooSmall { .. } => "the land in the save is too small for a park"@,
        RestoreError::Shops => "the shops in the save do not fit the land"@,
        RestoreError::Scenery => "the scenery in the save does not fit the land"@,
        RestoreError::Rides => "the rides in the save make no sense"@,
        RestoreError::Books => "the books in the save make no sense"@,
        RestoreError::Crowded => "two things in the save stand on one tile"@,
    }
}

impl RestoreError {
    /// What went wrong, in words.
    pub fn why(self) -> (s: &'static str)
        ensures
            s@ == restore_error_text(self),
    {
        match self {
            RestoreError::Land => "the land in the save makes no sense",
            RestoreError::TooSmall { .. } => "the land in the save is too small for a park",
            RestoreError::Shops => "the shops in the save do not fit the land",
            RestoreError::Scenery => "the scenery in the save does not fit the land",
            RestoreError::Rides => "the rides in the save make no sense",
            RestoreError::Books => "the books in the save make no sense",
            RestoreError::Crowded => "two things in the save stand on one tile",
        }
    }
}

/// Why `parts` would not make a park, in the order the parts are looked at,
/// or `None` if they would.
pub open spec fn restore_refusal(parts: Parts) -> Option<RestoreError> {
    let cols = parts.land.ground_grid().cols();
    let rows = parts.land.ground_grid().rows();
    if !parts.land.wf() {
        Some(RestoreError::Land)
    } else if cols < Park::MIN_SIZE || rows < Park::MIN_SIZE {
        Some(RestoreError::TooSmall { width: cols as u32, height: rows as u32 })
    } else if !(parts.shops.wf() && parts.shops.cols() == cols && parts.shops.rows() == rows
        && shops_whole(parts.shops)) {
        Some(RestoreError::Shops)
    } else if !(parts.plants.wf() && parts.plants.cols() == cols && parts.plants.rows() == rows) {
        Some(RestoreError::Scenery)
    } else if !(parts.rides@.len() <= Park::MAX_RIDES && rides_whole(parts.rides@)) {
        Some(RestoreError::Rides)
    } else if !parts.books.wf() {
        Some(RestoreError::Books)
    } else if !tidy(cols, rows, parts.shops, parts.plants, parts.rides@) {
        Some(RestoreError::Crowded)
    } else {
        None
    }
}

/// Whether some ride of `rides` stands on `t`, and whether two rides told
/// apart by their ids both do.
fn occupants(rides: &Vec<Ride>, t: TilePos) -> (r: (bool, bool))
    requires
        rides_whole(rides@),
    ensures
        r.0 == on_track(rides@, t),
        r.1 == exists|i: int, j: int|
            0 <= i < rides@.len() && 0 <= j < rides@.len() && rides@[i].id_of() != rides@[j].id_of()
                && #[trigger] covered(rides@, i, t) && #[trigger] covered(rides@, j, t),
{
    let mut first: Option<u32> = None;
    let mut k: usize = 0;
    while k < rides.len()
        invariant
            k <= rides@.len(),
            rides_whole(rides@),
            first is None ==> forall|i: int| 0 <= i < k ==> !#[trigger] covered(rides@, i, t),
            first matches Some(id) ==> (exists|i: int| 0 <= i < k && #[trigger] covered(rides@, i, t)
                && rides@[i].id_of() == id) && forall|i: int|
                0 <= i < k && #[trigger] covered(rides@, i, t) ==> rides@[i].id_of() == id,
        decreases rides@.len() - k,
    {
        assert(rides@[k as int].wf());
        let ghost was = first;
        if rides[k].occupies(t) {
            let id = rides[k].id();
            match first {
                None => {
                    first = Some(id);
                    proof {
                        assert(covered(rides@, k as int, t) && rides@[k as int].id_of() == id);
                    }
                },
                Some(f) => {
                    if f != id {
                        proof {
                            let i = choose|i: int| 0 <= i < k && #[trigger] covered(rides@, i, t)
                                && rides@[i].id_of() == f;
                            assert(covered(rides@, i, t) && covered(rides@, k as int, t));
                        }
                        return (true, true);
                    }
                },
            }
        }
        proof {
            if was is Some && first is Some {
                assert(was == first);
            }
        }
        k += 1;
    }
    proof {
        if first is Some {
            let i = choose|i: int| 0 <= i < rides@.len() && #[trigger] covered(rides@, i, t);
            assert(on_track(rides@, t));
        }
    }
    (first.is_some(), false)
}

/// Whether every tile each ride stands on is inside `cols` by `rows`.
fn rides_inside(rides: &Vec<Ride>, cols: u32, rows: u32) -> (b: bool)
    requires
        rides_whole(rides@),
    ensures
        b == forall|i: int, t: TilePos|
            0 <= i < rides@.len() && #[trigger] covered(rides@, i, t) ==> 0 <= t.x < cols && 0 <= t.y
                < rows,
{
    let mut k: usize = 0;
    while k < rides.len()
        invariant
            k <= rides@.len(),
            rides_whole(rides@),
            forall|i: int, t: TilePos|
                0 <= i < k && #[trigger] covered(rides@, i, t) ==> 0 <= t.x < cols && 0 <= t.y < rows,
        decreases rides@.len() - k,
    {
        assert(rides@[k as int].wf());
        let inside = match rides[k].layout() {
            Layout::Track(track) => {
                let tiles = track.tiles();
                let ok = all_inside(&tiles, cols, rows);
                proof {
                    if ok {
                        assert forall|t: TilePos| #[trigger] track.covers(t) implies 0 <= t.x < cols && 0
                            <= t.y < rows by {
                            let m = choose|m: nat| m < track.laid().len() && #[trigger] track.after(m).0
                                == t;
                            assert(tiles@[m as int] == track.after(m).0);
                        }
                    } else {
                        let m = choose|m: int| 0 <= m < tiles@.len() && !(0 <= (#[trigger] tiles@[m]).x
                            < cols && 0 <= tiles@[m].y < rows);
                        assert(tiles@[m] == track.after(m as nat).0);
                        assert(track.covers(tiles@[m]));
                        assert(covered(rides@, k as int, tiles@[m]));
                    }
                }
                ok
            },
            Layout::Flat { kind, corner } => {
                let side = kind.footprint() as i64;
                let ok = corner.x >= 0 && corner.y >= 0 && corner.x as i64 + side <= cols as i64
                    && corner.y as i64 + side <= rows as i64;
                proof {
                    if !ok {
                        let far = TilePos {
                            x: if corner.x < 0 { corner.x } else { (corner.x + side - 1) as i32 },
                            y: if corner.y < 0 { corner.y } else { (corner.y + side - 1) as i32 },
                        };
                        assert(covered(rides@, k as int, far));
                    }
                }
                ok
            },
        };
        if !inside {
            return false;
        }
        k += 1;
    }
    true
}

/// Whether every one of `tiles` is inside `cols` by `rows`.
fn all_inside(tiles: &Vec<TilePos>, cols: u32, rows: u32) -> (b: bool)
    ensures
        b == forall|m: int| 0 <= m < tiles@.len() ==> 0 <= (#[trigger] tiles@[m]).x < cols && 0 <= tiles@[m].y < rows,
{
    let mut j: usize = 0;
    while j < tiles.len()
        invariant
            j <= tiles@.len(),
            forall|m: int| 0 <= m < j ==> 0 <= (#[trigger] tiles@[m]).x < cols && 0 <= tiles@[m].y < rows,
        decreases tiles@.len() - j,
    {
        let t = tiles[j];
        if t.x < 0 || t.x as i64 >= cols as i64 || t.y < 0 || t.y as i64 >= rows as i64 {
            return false;
        }
        j += 1;
    }
    true
}

/// Whether every shop on the `cols` by `rows` of `shops` charges what a shop
/// may.
fn shops_are_whole(shops: &Grid<Option<Shop>>, cols: u32, rows: u32) -> (b: bool)
    requires
        shops.wf(),
        shops.cols() == cols,
        shops.rows() == rows,
    ensures
        b == shops_whole(*shops),
{
    let mut y: u32 = 0;
    while y < rows
        invariant
            y <= rows,
            shops.wf(),
            shops.cols() == cols,
            shops.rows() == rows,
            forall|t: TilePos|
                0 <= t.y < y && #[trigger] shop_in(*shops, t) is Some ==> shop_in(*shops, t)->0.wf(),
        decreases rows - y,
    {
        let mut x: u32 = 0;
        while x < cols
            invariant
                x <= cols,
                y < rows,
                shops.wf(),
                shops.cols() == cols,
                shops.rows() == rows,
                forall|t: TilePos|
                    (0 <= t.y < y || (t.y == y && 0 <= t.x < x)) && #[trigger] shop_in(*shops, t) is Some
                        ==> shop_in(*shops, t)->0.wf(),
            decreases cols - x,
        {
            let t = TilePos { x: x as i32, y: y as i32 };
            if let Some(Some(s)) = shops.get(t) {
                if s.price() < 0 || s.price() > Shop::MAX_PRICE {
                    proof {
                        assert(shops.holds(t));
                        assert(shop_in(*shops, t) == Some(s));
                        assert(!s.wf());
                    }
                    return false;
                }
            }
            x += 1;
        }
        y += 1;
    }
    proof {
        assert forall|t: TilePos| #[trigger] shop_in(*shops, t) is Some implies shop_in(*shops, t)->0.wf() by {
            assert(shops.holds(t));
        }
    }
    true
}

/// Whether nothing on the `cols` by `rows` of the park shares a tile with
/// anything else: a shop with scenery or track, scenery with track, or two
/// rides told apart by their ids with each other.
fn nothing_shares(
    shops: &Grid<Option<Shop>>,
    plants: &Grid<Option<Scenery>>,
    rides: &Vec<Ride>,
    cols: u32,
    rows: u32,
) -> (b: bool)
    requires
        shops.wf(),
        plants.wf(),
        shops.cols() == cols,
        shops.rows() == rows,
        plants.cols() == cols,
        plants.rows() == rows,
        rides_whole(rides@),
    ensures
        b == forall|t: TilePos| 0 <= t.x < cols && 0 <= t.y < rows ==> #[trigger] alone(*shops, *plants, rides@, t),
{
    let mut y: u32 = 0;
    while y < rows
        invariant
            y <= rows,
            shops.wf(),
            plants.wf(),
            shops.cols() == cols,
            shops.rows() == rows,
            plants.cols() == cols,
            plants.rows() == rows,
            rides_whole(rides@),
            forall|t: TilePos| 0 <= t.x < cols && 0 <= t.y < y ==> #[trigger] alone(*shops, *plants, rides@, t),
        decreases rows - y,
    {
        let mut x: u32 = 0;
        while x < cols
            invariant
                x <= cols,
                y < rows,
                shops.wf(),
                plants.wf(),
                shops.cols() == cols,
                shops.rows() == rows,
                plants.cols() == cols,
                plants.rows() == rows,
                rides_whole(rides@),
                forall|t: TilePos|
                    0 <= t.x < cols && (0 <= t.y < y || (t.y == y && t.x < x)) ==> #[trigger] alone(
                        *shops,
                        *plants,
                        rides@,
                        t,
                    ),
            decreases cols - x,
        {
            let t = TilePos { x: x as i32, y: y as i32 };
            let shop = shops.get(t);
            let plant = plants.get(t);
            let (on, clash) = occupants(rides, t);
            let has_shop = match shop {
                Some(Some(_)) => true,
                _ => false,
            };
            let has_plant = match plant {
                Some(Some(_)) => true,
                _ => false,
            };
            if clash || (has_shop && (has_plant || on)) || (has_plant && on) {
                proof {
                    assert(!alone(*shops, *plants, rides@, t));
                }
                return false;
            }
            x += 1;
        }
        y += 1;
    }
    true
}

/// Whether whatever stands on `t` stands there alone.
pub open spec fn alone(
    shops: Grid<Option<Shop>>,
    plants: Grid<Option<Scenery>>,
    rides: Seq<Ride>,
    t: TilePos,
) -> bool {
    &&& shop_in(shops, t) is Some ==> plant_in(plants, t) is None && !on_track(rides, t)
    &&& plant_in(plants, t) is Some ==> !on_track(rides, t)
    &&& forall|i: int, j: int|
        0 <= i < rides.len() && 0 <= j < rides.len() && rides[i].id_of() != rides[j].id_of()
            && #[trigger] covered(rides, i, t) ==> !#[trigger] covered(rides, j, t)
}

/// With every ride inside the park, nothing shares a tile anywhere exactly
/// when nothing shares one inside it.
proof fn lemma_tidy_inside(
    cols: int,
    rows: int,
    shops: Grid<Option<Shop>>,
    plants: Grid<Option<Scenery>>,
    rides: Seq<Ride>,
)
    requires
        shops.wf(),
        plants.wf(),
        shops.cols() == cols,
        shops.rows() == rows,
        plants.cols() == cols,
        plants.rows() == rows,
        forall|i: int, t: TilePos|
            0 <= i < rides.len() && #[trigger] covered(rides, i, t) ==> 0 <= t.x < cols && 0 <= t.y < rows,
    ensures
        tidy(cols, rows, shops, plants, rides) == forall|t: TilePos|
            0 <= t.x < cols && 0 <= t.y < rows ==> #[trigger] alone(shops, plants, rides, t),
{
    if forall|t: TilePos| 0 <= t.x < cols && 0 <= t.y < rows ==> #[trigger] alone(shops, plants, rides, t) {
        assert forall|t: TilePos| #[trigger] alone(shops, plants, rides, t) by {
            if !(0 <= t.x < cols && 0 <= t.y < rows) {
                assert(!shops.holds(t));
                assert(!plants.holds(t));
                assert(!on_track(rides, t));
                assert forall|i: int, j: int|
                    0 <= i < rides.len() && 0 <= j < rides.len() && rides[i].id_of() != rides[j].id_of()
                        && #[trigger] covered(rides, i, t) implies !#[trigger] covered(rides, j, t) by {
                }
            }
        }
        assert forall|t: TilePos| #[trigger] shop_in(shops, t) is Some implies plant_in(plants, t) is None
            && !on_track(rides, t) by {
            assert(alone(shops, plants, rides, t));
        }
        assert forall|t: TilePos| #[trigger] plant_in(plants, t) is Some implies !on_track(rides, t) by {
            assert(alone(shops, plants, rides, t));
        }
        assert forall|i: int, j: int, t: TilePos|
            0 <= i < rides.len() && 0 <= j < rides.len() && rides[i].id_of() != rides[j].id_of()
                && #[trigger] covered(rides, i, t) implies !#[trigger] covered(rides, j, t) by {
            assert(alone(shops, plants, rides, t));
        }
    }
    if tidy(cols, rows, shops, plants, rides) {
        assert forall|t: TilePos| 0 <= t.x < cols && 0 <= t.y < rows implies #[trigger] alone(
            shops,
            plants,
            rides,
            t,
        ) by {
            assert(shop_in(shops, t) is Some ==> plant_in(plants, t) is None && !on_track(rides, t));
            assert(plant_in(plants, t) is Some ==> !on_track(rides, t));
        }
    }
}

impl Park {
    /// Puts a park back together from its parts.
    ///
    /// Fails, saying which part is at fault, unless the land makes sense and is
    /// big enough, the shops and scenery cover it exactly, every shop and ride
    /// makes sense and there are no more rides than a park holds, the loan is
    /// one the bank makes, and nothing shares a tile with anything else.
    pub fn restore(parts: Parts) -> (r: Result<Park, RestoreError>)
        ensures
            r is Ok <==> restore_refusal(parts) is None,
            r matches Err(e) ==> restore_refusal(parts) == Some(e),
            r matches Ok(p) ==> {
                &&& p.wf()
                &&& p.name_of() == parts.name@
                &&& p.land_of() == parts.land
                &&& p.shops_of() == parts.shops
                &&& p.plants_of() == parts.plants
                &&& p.rides_of() == parts.rides@
                &&& p.staff_of() == parts.staff@
                &&& p.books_of() == parts.books
                &&& p.clock() == parts.tick
                &&& p.next_ride() == parts.next_ride_id
                &&& p.next_hire() == parts.next_staff_id
                &&& p.objective_of() == parts.objective
                &&& p.outcome_of() == parts.outcome
                &&& p.weather_of() == parts.weather
            },
    {
        if !parts.land.is_sound() {
            return Err(RestoreError::Land);
        }
        let cols = parts.land.width();
        let rows = parts.land.height();
        if cols < Self::MIN_SIZE || rows < Self::MIN_SIZE {
            return Err(RestoreError::TooSmall { width: cols, height: rows });
        }
        if !parts.shops.is_sound() || parts.shops.width() != cols || parts.shops.height() != rows
            || !shops_are_whole(&parts.shops, cols, rows) {
            return Err(RestoreError::Shops);
        }
        if !parts.plants.is_sound() || parts.plants.width() != cols || parts.plants.height() != rows {
            return Err(RestoreError::Scenery);
        }
        if parts.rides.len() > Self::MAX_RIDES {
            return Err(RestoreError::Rides);
        }
        let mut k: usize = 0;
        while k < parts.rides.len()
            invariant
                k <= parts.rides@.len(),
                parts.rides@.len() <= Self::MAX_RIDES,
                restore_refusal(parts) is None || restore_refusal(parts) == Some(RestoreError::Rides)
                    || restore_refusal(parts) == Some(RestoreError::Books) || restore_refusal(parts)
                    == Some(RestoreError::Crowded),
                forall|i: int| 0 <= i < k ==> (#[trigger] parts.rides@[i]).wf(),
            decreases parts.rides@.len() - k,
        {
            if !parts.rides[k].is_sound() {
                proof {
                    assert(!parts.rides@[k as int].wf());
                }
                return Err(RestoreError::Rides);
            }
            k += 1;
        }
        let loan = parts.books.loan();
        if loan < 0 || loan > Books::LOAN_LIMIT {
            return Err(RestoreError::Books);
        }
        if !rides_inside(&parts.rides, cols, rows) {
            return Err(RestoreError::Crowded);
        }
        proof {
            lemma_tidy_inside(cols as int, rows as int, parts.shops, parts.plants, parts.rides@);
        }
        if !nothing_shares(&parts.shops, &parts.plants, &parts.rides, cols, rows) {
            return Err(RestoreError::Crowded);
        }
        Ok(
            Park {
                name: parts.name,
                land: parts.land,
                facilities: parts.shops,
                scenery: parts.plants,
                rides: parts.rides,
                staff: parts.staff,
                books: parts.books,
                tick: parts.tick,
                next_ride_id: parts.next_ride_id,
                next_staff_id: parts.next_staff_id,
                objective: parts.objective,
                outcome: parts.outcome,
                weather: parts.weather,
            },
        )
    }
}

impl Park {
    /// Everything about this park, as plain parts.
    pub closed spec fn parts_of(&self) -> Parts {
        Parts {
            name: self.name,
            land: self.land,
            shops: self.facilities,
            plants: self.scenery,
            rides: self.rides,
            staff: self.staff,
            books: self.books,
            tick: self.tick,
            next_ride_id: self.next_ride_id,
            next_staff_id: self.next_staff_id,
            objective: self.objective,
            outcome: self.outcome,
            weather: self.weather,
        }
    }
}

/// A park survives a save: the parts of any park big enough to be one are
/// taken back without complaint, and are the park's own, so what comes back
/// is the park that was written down.
pub proof fn a_park_survives_a_save(p: &Park)
    requires
        p.wf(),
        p.land_of().ground_grid().cols() >= Park::MIN_SIZE,
        p.land_of().ground_grid().rows() >= Park::MIN_SIZE,
    ensures
        restore_refusal(p.parts_of()) is None,
        p.parts_of().name@ == p.name_of(),
        p.parts_of().land == p.land_of(),
        p.parts_of().shops == p.shops_of(),
        p.parts_of().plants == p.plants_of(),
        p.parts_of().rides@ == p.rides_of(),
        p.parts_of().staff@ == p.staff_of(),
        p.parts_of().books == p.books_of(),
        p.parts_of().tick == p.clock(),
        p.parts_of().next_ride_id == p.next_ride(),
        p.parts_of().next_staff_id == p.next_hire(),
        p.parts_of().objective == p.objective_of(),
        p.parts_of().outcome == p.outcome_of(),
        p.parts_of().weather == p.weather_of(),
{
}

} // verus!
