//! Track: the shape a ride is built out of.
//!
//! A piece of track sits on one tile, faces one of four ways, and leaves the
//! train facing some way at some height. A layout is therefore a starting tile,
//! a starting heading, and a list of pieces — nothing else needs storing,
//! because where every piece ends up follows from the ones before it. Resolving
//! that chain into tiles is [`Track::segments`].

use vstd::prelude::*;

use crate::park::{Land, Money, TilePos};

verus! {

/// One of the four ways a piece of track can face.
#[derive(Debug, Clone, Copy, PartialEq, Eq, Hash, Structural)]
pub enum Heading {
    /// Towards the top of the map, where the entrance is.
    North,
    /// Towards the right.
    East,
    /// Towards the bottom.
    South,
    /// Towards the left.
    West,
}

/// A quarter turn clockwise from `h`.
pub open spec fn turn_right(h: Heading) -> Heading {
    match h {
        Heading::North => Heading::East,
        Heading::East => Heading::South,
        Heading::South => Heading::West,
        Heading::West => Heading::North,
    }
}

/// A quarter turn anticlockwise from `h`.
pub open spec fn turn_left(h: Heading) -> Heading {
    turn_right(turn_right(turn_right(h)))
}

/// How far one step `h`-wards moves along the columns.
pub open spec fn step_x(h: Heading) -> int {
    match h {
        Heading::East => 1,
        Heading::West => -1,
        _ => 0,
    }
}

/// How far one step `h`-wards moves along the rows.
pub open spec fn step_y(h: Heading) -> int {
    match h {
        Heading::North => -1,
        Heading::South => 1,
        _ => 0,
    }
}

/// The tile one step `h`-wards of `t`.
pub open spec fn step_from(h: Heading, t: TilePos) -> TilePos {
    t.shifted(step_x(h), step_y(h))
}

impl Heading {
    /// Every heading, clockwise from north.
    pub const ALL: [Heading; 4] = [Heading::North, Heading::East, Heading::South, Heading::West];

    /// A quarter turn clockwise.
    pub fn right(self) -> (h: Self)
        ensures
            h == turn_right(self),
    {
        match self {
            Heading::North => Heading::East,
            Heading::East => Heading::South,
            Heading::South => Heading::West,
            Heading::West => Heading::North,
        }
    }

    /// A quarter turn anticlockwise.
    pub fn left(self) -> (h: Self)
        ensures
            h == turn_left(self),
    {
        self.right().right().right()
    }

    /// The way back.
    pub fn about(self) -> (h: Self)
        ensures
            h == turn_right(turn_right(self)),
    {
        self.right().right()
    }

    /// The tile one step this way.
    pub fn beyond(self, tile: TilePos) -> (t: TilePos)
        requires
            tile.has_neighbours(),
        ensures
            t == step_from(self, tile),
    {
        match self {
            Heading::North => tile.offset(0, -1),
            Heading::East => tile.offset(1, 0),
            Heading::South => tile.offset(0, 1),
            Heading::West => tile.offset(-1, 0),
        }
    }
}

/// Four quarter turns the same way come back round, a left undoes a right,
/// and turning about never leaves a heading where it was.
pub proof fn every_heading_comes_back_round(h: Heading)
    ensures
        turn_right(turn_right(turn_right(turn_right(h)))) == h,
        turn_left(turn_right(h)) == h,
        turn_right(turn_left(h)) == h,
        turn_right(turn_right(h)) != h,
{
}

/// One piece of track.
#[derive(Debug, Clone, Copy, PartialEq, Eq, Hash, Structural)]
pub enum TrackPiece {
    /// Where trains stop, load and unload. Flat, and the only piece guests can
    /// reach from the ground.
    Station,
    /// Flat and straight.
    Straight,
    /// A quarter turn to the left, taking a tile to do it.
    CurveLeft,
    /// A quarter turn to the right.
    CurveRight,
    /// Up a step, coasting — which a train only manages if it arrives fast
    /// enough.
    SlopeUp,
    /// Down a step. Where the speed comes from.
    SlopeDown,
    /// Up a step under power: the chain lift.
    LiftHill,
    /// Flat, and slows a train to a crawl.
    Brakes,
    /// Flat and driven: the train is pushed along at a steady pace whatever it
    /// arrived at.
    Powered,
}

/// How many steps `p` climbs: negative for a drop.
pub open spec fn climb_of(p: TrackPiece) -> int {
    match p {
        TrackPiece::SlopeUp | TrackPiece::LiftHill => 1,
        TrackPiece::SlopeDown => -1,
        _ => 0,
    }
}

/// What a train entering `p` facing `h` faces as it leaves.
pub open spec fn steer_of(p: TrackPiece, h: Heading) -> Heading {
    match p {
        TrackPiece::CurveLeft => turn_left(h),
        TrackPiece::CurveRight => turn_right(h),
        _ => h,
    }
}

/// What one `p` costs to build.
pub open spec fn piece_cost(p: TrackPiece) -> Money {
    match p {
        TrackPiece::Station => 350,
        TrackPiece::Straight => 60,
        TrackPiece::CurveLeft | TrackPiece::CurveRight => 80,
        TrackPiece::SlopeUp | TrackPiece::SlopeDown => 90,
        TrackPiece::LiftHill => 140,
        TrackPiece::Brakes => 110,
        TrackPiece::Powered => 120,
    }
}

/// What one `p` costs to keep in service for a wage bill.
pub open spec fn piece_upkeep(p: TrackPiece) -> Money {
    match p {
        TrackPiece::Station | TrackPiece::LiftHill | TrackPiece::Brakes => 3,
        TrackPiece::Powered => 4,
        _ => 1,
    }
}

/// What the HUD calls `p`.
pub open spec fn piece_name(p: TrackPiece) -> Seq<char> {
    match p {
        TrackPiece::Station => "Station"@,
        TrackPiece::Straight => "Straight track"@,
        TrackPiece::CurveLeft => "Curve left"@,
        TrackPiece::CurveRight => "Curve right"@,
        TrackPiece::SlopeUp => "Slope up"@,
        TrackPiece::SlopeDown => "Slope down"@,
        TrackPiece::LiftHill => "Lift hill"@,
        TrackPiece::Brakes => "Brakes"@,
        TrackPiece::Powered => "Powered track"@,
    }
}

impl TrackPiece {
    /// Every piece that can be built, in the order a toolbar would list them.
    pub const ALL: [TrackPiece; 9] = [
        TrackPiece::Station,
        TrackPiece::Straight,
        TrackPiece::CurveLeft,
        TrackPiece::CurveRight,
        TrackPiece::SlopeUp,
        TrackPiece::SlopeDown,
        TrackPiece::LiftHill,
        TrackPiece::Brakes,
        TrackPiece::Powered,
    ];

    /// How many steps this piece climbs: negative for a drop.
    pub fn climb(self) -> (c: i16)
        ensures
            c == climb_of(self),
    {
        match self {
            TrackPiece::SlopeUp | TrackPiece::LiftHill => 1,
            TrackPiece::SlopeDown => -1,
            TrackPiece::Station
            | TrackPiece::Straight
            | TrackPiece::CurveLeft
            | TrackPiece::CurveRight
            | TrackPiece::Brakes
            | TrackPiece::Powered => 0,
        }
    }

    /// What the train is facing after this piece.
    pub fn steer(self, heading: Heading) -> (h: Heading)
        ensures
            h == steer_of(self, heading),
    {
        match self {
            TrackPiece::CurveLeft => heading.left(),
            TrackPiece::CurveRight => heading.right(),
            TrackPiece::Station
            | TrackPiece::Straight
            | TrackPiece::SlopeUp
            | TrackPiece::SlopeDown
            | TrackPiece::LiftHill
            | TrackPiece::Brakes
            | TrackPiece::Powered => heading,
        }
    }

    /// What it costs the park to build one.
    pub fn cost(self) -> (c: Money)
        ensures
            c == piece_cost(self),
    {
        match self {
            TrackPiece::Station => 350,
            TrackPiece::Straight => 60,
            TrackPiece::CurveLeft | TrackPiece::CurveRight => 80,
            TrackPiece::SlopeUp | TrackPiece::SlopeDown => 90,
            TrackPiece::LiftHill => 140,
            TrackPiece::Brakes => 110,
            TrackPiece::Powered => 120,
        }
    }

    /// What it costs to keep one piece of track in service for a wage bill.
    pub fn upkeep(self) -> (c: Money)
        ensures
            c == piece_upkeep(self),
    {
        match self {
            TrackPiece::Station | TrackPiece::LiftHill | TrackPiece::Brakes => 3,
            TrackPiece::Powered => 4,
            _ => 1,
        }
    }

    /// Whether a train under power on this piece is being pulled rather than
    /// coasting.
    pub fn is_powered(self) -> (b: bool)
        ensures
            b == (self is LiftHill || self is Station || self is Powered),
    {
        matches!(self, TrackPiece::LiftHill | TrackPiece::Station | TrackPiece::Powered)
    }

    /// What to call it in the HUD.
    pub fn name(self) -> (n: &'static str)
        ensures
            n@ == piece_name(self),
    {
        match self {
            TrackPiece::Station => "Station",
            TrackPiece::Straight => "Straight track",
            TrackPiece::CurveLeft => "Curve left",
            TrackPiece::CurveRight => "Curve right",
            TrackPiece::SlopeUp => "Slope up",
            TrackPiece::SlopeDown => "Slope down",
            TrackPiece::LiftHill => "Lift hill",
            TrackPiece::Brakes => "Brakes",
            TrackPiece::Powered => "Powered track",
        }
    }
}

/// Every piece costs something to build and to keep, and none climbs more
/// than a step either way.
pub proof fn every_piece_knows_what_it_does(p: TrackPiece)
    ensures
        piece_cost(p) > 0,
        piece_upkeep(p) > 0,
        -1 <= climb_of(p) <= 1,
{
}

/// One piece of track, resolved to where it actually is.
#[derive(Debug, Clone, Copy, PartialEq, Eq, Structural)]
pub struct Segment {
    /// Which piece it is.
    pub piece: TrackPiece,
    /// The tile it sits on.
    pub tile: TilePos,
    /// The way a train is facing as it enters.
    pub heading: Heading,
    /// The height a train enters at, in steps.
    pub entry: i16,
    /// The height it leaves at.
    pub exit: i16,
}

/// Why a piece would not go on a layout.
#[derive(Debug, Clone, Copy, PartialEq, Eq, Structural)]
pub enum TrackError {
    /// The layout is already [`Track::MAX_PIECES`] long.
    TooLong,
    /// The piece would leave the heights land can stand at.
    OutOfRange,
    /// The piece would land on a tile the layout already runs across.
    Crosses(TilePos),
}

/// Where the train is, which way it faces and how high it is, after the first
/// `n` of `pieces` laid from `start`.
pub open spec fn walk(
    start: TilePos,
    heading: Heading,
    height: int,
    pieces: Seq<TrackPiece>,
    n: nat,
) -> (TilePos, Heading, int)
    decreases n,
{
    if n == 0 {
        (start, heading, height)
    } else {
        let (t, h, z) = walk(start, heading, height, pieces, (n - 1) as nat);
        let p = pieces[n - 1];
        (step_from(steer_of(p, h), t), steer_of(p, h), z + climb_of(p))
    }
}

/// Whether a layout laid from `start`, facing `heading` at `height`, out of
/// `pieces` is one that makes sense: not too long, starting within reach,
/// never leaving the heights land can stand at, and never crossing itself.
pub open spec fn fits(start: TilePos, heading: Heading, height: int, pieces: Seq<TrackPiece>) -> bool {
    &&& pieces.len() <= Track::MAX_PIECES
    &&& Track::within_reach(start)
    &&& forall|i: nat|
        #![trigger walk(start, heading, height, pieces, i)]
        i < pieces.len() ==> Land::MIN_HEIGHT <= walk(start, heading, height, pieces, i).2 + climb_of(
            pieces[i as int],
        ) <= Land::MAX_HEIGHT
    &&& forall|i: nat, j: nat|
        i < j < pieces.len() ==> #[trigger] walk(start, heading, height, pieces, i).0 != #[trigger] walk(
            start,
            heading,
            height,
            pieces,
            j,
        ).0
}

/// Where a layout is after `n` pieces depends on those pieces alone.
pub proof fn lemma_walk_prefix(
    start: TilePos,
    heading: Heading,
    height: int,
    ps: Seq<TrackPiece>,
    qs: Seq<TrackPiece>,
    n: nat,
)
    requires
        n <= ps.len(),
        n <= qs.len(),
        forall|i: int| 0 <= i < n ==> ps[i] == qs[i],
    ensures
        walk(start, heading, height, ps, n) == walk(start, heading, height, qs, n),
    decreases n,
{
    if n > 0 {
        lemma_walk_prefix(start, heading, height, ps, qs, (n - 1) as nat);
    }
}

/// A layout that makes sense is one whose every beginning makes sense too.
pub proof fn lemma_fits_prefix(start: TilePos, heading: Heading, height: int, ps: Seq<TrackPiece>, k: nat)
    requires
        fits(start, heading, height, ps),
        k <= ps.len(),
    ensures
        fits(start, heading, height, ps.take(k as int)),
{
    let qs = ps.take(k as int);
    assert forall|i: nat| i <= k implies #[trigger] walk(start, heading, height, qs, i) == walk(
        start,
        heading,
        height,
        ps,
        i,
    ) by {
        lemma_walk_prefix(start, heading, height, qs, ps, i);
    }
    assert forall|i: nat| i < qs.len() implies Land::MIN_HEIGHT <= #[trigger] walk(
        start,
        heading,
        height,
        qs,
        i,
    ).2 + climb_of(qs[i as int]) <= Land::MAX_HEIGHT by {
        assert(walk(start, heading, height, ps, i) == walk(start, heading, height, qs, i));
    }
    assert forall|i: nat, j: nat| i < j < qs.len() implies #[trigger] walk(
        start,
        heading,
        height,
        qs,
        i,
    ).0 != #[trigger] walk(start, heading, height, qs, j).0 by {
        assert(walk(start, heading, height, ps, i) == walk(start, heading, height, qs, i));
        assert(walk(start, heading, height, ps, j) == walk(start, heading, height, qs, j));
    }
}

/// What the first `n` of `pieces` cost to build.
pub open spec fn cost_of(pieces: Seq<TrackPiece>, n: nat) -> int
    decreases n,
{
    if n == 0 {
        0
    } else {
        cost_of(pieces, (n - 1) as nat) + piece_cost(pieces[n - 1])
    }
}

/// What the first `n` of `pieces` cost to keep for a wage bill.
pub open spec fn upkeep_of(pieces: Seq<TrackPiece>, n: nat) -> int
    decreases n,
{
    if n == 0 {
        0
    } else {
        upkeep_of(pieces, (n - 1) as nat) + piece_upkeep(pieces[n - 1])
    }
}

/// How many of the first `n` of `pieces` are quarter turns.
pub open spec fn curves_in(pieces: Seq<TrackPiece>, n: nat) -> nat
    decreases n,
{
    if n == 0 {
        0
    } else {
        curves_in(pieces, (n - 1) as nat) + if pieces[n - 1] is CurveLeft || pieces[n
            - 1] is CurveRight {
            1nat
        } else {
            0nat
        }
    }
}

/// How many drops in a row end the first `n` of `pieces`.
pub open spec fn falling_at(pieces: Seq<TrackPiece>, n: nat) -> nat
    decreases n,
{
    if n == 0 {
        0
    } else if pieces[n - 1] is SlopeDown {
        falling_at(pieces, (n - 1) as nat) + 1
    } else {
        0
    }
}

/// The longest run of drops among the first `n` of `pieces`.
pub open spec fn longest_fall(pieces: Seq<TrackPiece>, n: nat) -> nat
    decreases n,
{
    if n == 0 {
        0
    } else {
        let before = longest_fall(pieces, (n - 1) as nat);
        let now = falling_at(pieces, n);
        if now > before {
            now
        } else {
            before
        }
    }
}

/// A run of drops is never longer than the pieces it is counted over.
pub proof fn lemma_fall_bounded(pieces: Seq<TrackPiece>, n: nat)
    ensures
        falling_at(pieces, n) <= n,
        longest_fall(pieces, n) <= n,
    decreases n,
{
    if n > 0 {
        lemma_fall_bounded(pieces, (n - 1) as nat);
    }
}

/// A run of quarter turns is never longer than the pieces it is counted over,
/// and the bill is never more than the dearest piece each time.
pub proof fn lemma_sums_bounded(pieces: Seq<TrackPiece>, n: nat)
    ensures
        curves_in(pieces, n) <= n,
        0 <= cost_of(pieces, n) <= 350 * n,
        0 <= upkeep_of(pieces, n) <= 4 * n,
    decreases n,
{
    if n > 0 {
        lemma_sums_bounded(pieces, (n - 1) as nat);
    }
}

/// The whole shape of one ride.
#[derive(Debug, Clone, PartialEq, Eq)]
pub struct Track {
    start: TilePos,
    heading: Heading,
    height: i16,
    pieces: Vec<TrackPiece>,
}

impl Track {
    /// The longest layout worth allowing.
    pub const MAX_PIECES: usize = 256;

    /// How far from the middle of the map a layout may start, in tiles.
    ///
    /// Far past any park there could be; what it guarantees is that a layout
    /// of [`Track::MAX_PIECES`] pieces never runs off the end of the numbers a
    /// tile can hold.
    pub const REACH: i32 = 1_000_000_000;

    /// Where the first piece goes.
    pub closed spec fn first_tile(&self) -> TilePos {
        self.start
    }

    /// The way the first piece faces.
    pub closed spec fn first_heading(&self) -> Heading {
        self.heading
    }

    /// The height the first piece is laid at.
    pub closed spec fn first_height(&self) -> int {
        self.height as int
    }

    /// The pieces, in the order they were laid.
    pub closed spec fn laid(&self) -> Seq<TrackPiece> {
        self.pieces@
    }

    /// Where the train is after the first `n` pieces.
    pub open spec fn after(&self, n: nat) -> (TilePos, Heading, int) {
        walk(self.first_tile(), self.first_heading(), self.first_height(), self.laid(), n)
    }

    /// Piece `i`, resolved.
    pub open spec fn segment(&self, i: int) -> Segment {
        let (t, h, z) = self.after(i as nat);
        Segment {
            piece: self.laid()[i],
            tile: t,
            heading: h,
            entry: z as i16,
            exit: (z + climb_of(self.laid()[i])) as i16,
        }
    }

    /// Every piece, resolved.
    pub open spec fn resolved(&self) -> Seq<Segment> {
        Seq::new(self.laid().len(), |i: int| self.segment(i))
    }

    /// Whether any piece sits on `tile`.
    pub open spec fn covers(&self, tile: TilePos) -> bool {
        exists|i: nat| i < self.laid().len() && #[trigger] self.after(i).0 == tile
    }

    /// Where the next piece would go.
    pub open spec fn next(&self) -> (TilePos, Heading, int) {
        self.after(self.laid().len())
    }

    /// Whether a tile is near enough the middle for a layout to start on.
    pub open spec fn within_reach(tile: TilePos) -> bool {
        -Self::REACH <= tile.x <= Self::REACH && -Self::REACH <= tile.y <= Self::REACH
    }

    /// A layout that makes sense: not too long, starting within reach, never
    /// leaving the heights land can stand at, and never crossing itself.
    pub open spec fn wf(&self) -> bool {
        &&& self.laid().len() <= Self::MAX_PIECES
        &&& Self::within_reach(self.first_tile())
        &&& forall|i: nat|
            #![trigger self.after(i)]
            i < self.laid().len() ==> Land::MIN_HEIGHT <= self.after(i).2 + climb_of(
                self.laid()[i as int],
            ) <= Land::MAX_HEIGHT
        &&& forall|i: nat, j: nat|
            i < j < self.laid().len() ==> #[trigger] self.after(i).0 != #[trigger] self.after(
                j,
            ).0
    }

    /// Whether the track comes back to where it started, facing the same way
    /// at the same height, having laid at least four pieces.
    pub open spec fn closes(&self) -> bool {
        &&& self.laid().len() >= 4
        &&& self.next() == (self.first_tile(), self.first_heading(), self.first_height())
    }

    /// Every tile the layout stands on, in order.
    pub open spec fn tile_seq(&self) -> Seq<TilePos> {
        Seq::new(self.laid().len(), |i: int| self.after(i as nat).0)
    }

    /// Walking `n` pieces from a tile within reach moves it at most `n` tiles
    /// along either axis, and the heading keeps to one of its four values.
    pub proof fn lemma_walk_bounded(&self, n: nat)
        requires
            Self::within_reach(self.first_tile()),
            n <= Self::MAX_PIECES,
        ensures
            self.after(n).0.x - self.first_tile().x <= n,
            self.first_tile().x - self.after(n).0.x <= n,
            self.after(n).0.y - self.first_tile().y <= n,
            self.first_tile().y - self.after(n).0.y <= n,
        decreases n,
    {
        if n > 0 {
            self.lemma_walk_bounded((n - 1) as nat);
        }
    }

    /// An empty layout, with its first piece to be laid on `tile` facing
    /// `heading` at `height` steps up.
    pub fn starting_at(tile: TilePos, heading: Heading, height: i16) -> (t: Self)
        requires
            Self::within_reach(tile),
        ensures
            t.wf(),
            t.first_tile() == tile,
            t.first_heading() == heading,
            t.first_height() == height,
            t.laid() == Seq::<TrackPiece>::empty(),
    {
        Track { start: tile, heading, height, pieces: Vec::new() }
    }

    /// A layout is one that makes sense exactly when the pieces it was laid
    /// from, where it was laid from, make sense.
    pub proof fn lemma_wf_fits(&self)
        ensures
            self.wf() == fits(self.first_tile(), self.first_heading(), self.first_height(), self.laid()),
    {
        let (s, h, z, ps) = (self.first_tile(), self.first_heading(), self.first_height(), self.laid());
        if self.wf() {
            assert forall|i: nat| i < ps.len() implies Land::MIN_HEIGHT <= #[trigger] walk(
                s,
                h,
                z,
                ps,
                i,
            ).2 + climb_of(ps[i as int]) <= Land::MAX_HEIGHT by {
                assert(self.after(i) == walk(s, h, z, ps, i));
            }
            assert forall|i: nat, j: nat| i < j < ps.len() implies #[trigger] walk(s, h, z, ps, i).0
                != #[trigger] walk(s, h, z, ps, j).0 by {
                assert(self.after(i) == walk(s, h, z, ps, i));
                assert(self.after(j) == walk(s, h, z, ps, j));
            }
        }
        if fits(s, h, z, ps) {
            assert forall|i: nat| i < ps.len() implies Land::MIN_HEIGHT <= #[trigger] self.after(i).2
                + climb_of(ps[i as int]) <= Land::MAX_HEIGHT by {
                assert(self.after(i) == walk(s, h, z, ps, i));
            }
            assert forall|i: nat, j: nat| i < j < ps.len() implies #[trigger] self.after(i).0
                != #[trigger] self.after(j).0 by {
                assert(self.after(i) == walk(s, h, z, ps, i));
                assert(self.after(j) == walk(s, h, z, ps, j));
            }
        }
    }

    /// A piece the layout refuses cannot be part of any layout that makes
    /// sense and begins with this one.
    pub proof fn lemma_refused_never_fits(&self, piece: TrackPiece, ps: Seq<TrackPiece>)
        requires
            self.wf(),
            self.push_refusal(piece) is Some,
            ps.len() > self.laid().len(),
            ps.take(self.laid().len() as int) == self.laid(),
            ps[self.laid().len() as int] == piece,
        ensures
            !fits(self.first_tile(), self.first_heading(), self.first_height(), ps),
    {
        let (s, h, z) = (self.first_tile(), self.first_heading(), self.first_height());
        let n = self.laid().len();
        let ext = self.laid().push(piece);
        assert(ps.take(n as int + 1) =~= ext);
        if fits(s, h, z, ps) {
            lemma_fits_prefix(s, h, z, ps, (n + 1) as nat);
            assert forall|i: nat| i <= n implies #[trigger] walk(s, h, z, ext, i) == self.after(i) by {
                lemma_walk_prefix(s, h, z, ext, self.laid(), i);
            }
            if self.laid().len() >= Self::MAX_PIECES {
            } else if !(Land::MIN_HEIGHT <= self.next().2 + climb_of(piece) <= Land::MAX_HEIGHT) {
                assert(walk(s, h, z, ext, n) == self.next());
                assert(ext[n as int] == piece);
            } else {
                let i = choose|i: nat| i < n && #[trigger] self.after(i).0 == self.next().0;
                assert(walk(s, h, z, ext, i) == self.after(i));
                assert(walk(s, h, z, ext, n) == self.next());
            }
        }
    }

    /// A layout as it was written down: where it starts, the way it faces,
    /// how high it begins, and its pieces in the order they were laid.
    ///
    /// `None` unless those make a layout that makes sense.
    pub fn restore(start: TilePos, heading: Heading, height: i16, pieces: &[TrackPiece]) -> (t: Option<Self>)
        ensures
            t is Some <==> fits(start, heading, height as int, pieces@),
            t matches Some(t) ==> t.wf() && t.first_tile() == start && t.first_heading() == heading
                && t.first_height() == height && t.laid() == pieces@,
    {
        if start.x < -Self::REACH || start.x > Self::REACH || start.y < -Self::REACH || start.y
            > Self::REACH {
            return None;
        }
        let mut t = Track::starting_at(start, heading, height);
        let mut i: usize = 0;
        while i < pieces.len()
            invariant
                i <= pieces@.len(),
                t.wf(),
                t.first_tile() == start,
                t.first_heading() == heading,
                t.first_height() == height,
                t.laid() == pieces@.take(i as int),
            decreases pieces@.len() - i,
        {
            let ghost before = t;
            match t.push(pieces[i]) {
                Ok(_) => {
                    proof {
                        assert(t.laid() =~= pieces@.take(i as int + 1));
                    }
                },
                Err(_) => {
                    proof {
                        before.lemma_refused_never_fits(pieces@[i as int], pieces@);
                    }
                    return None;
                },
            }
            i += 1;
        }
        proof {
            assert(pieces@.take(pieces@.len() as int) =~= pieces@);
            t.lemma_wf_fits();
        }
        Some(t)
    }

    /// How high the first piece starts.
    pub fn start_height(&self) -> (z: i16)
        ensures
            z == self.first_height(),
    {
        self.height
    }

    /// Where the first piece goes.
    pub fn start(&self) -> (t: TilePos)
        ensures
            t == self.first_tile(),
    {
        self.start
    }

    /// The way the first piece faces.
    pub fn heading(&self) -> (h: Heading)
        ensures
            h == self.first_heading(),
    {
        self.heading
    }

    /// How many pieces have been laid.
    pub fn len(&self) -> (n: usize)
        ensures
            n == self.laid().len(),
    {
        self.pieces.len()
    }

    /// Whether nothing has been laid yet.
    pub fn is_empty(&self) -> (b: bool)
        ensures
            b == (self.laid().len() == 0),
    {
        self.pieces.len() == 0
    }

    /// The pieces, in the order they were laid.
    pub fn pieces(&self) -> (p: &[TrackPiece])
        ensures
            p@ == self.laid(),
    {
        self.pieces.as_slice()
    }

    /// Every piece, resolved to the tile and height it sits at.
    pub fn segments(&self) -> (laid: Vec<Segment>)
        requires
            self.wf(),
        ensures
            laid@ == self.resolved(),
    {
        let mut laid: Vec<Segment> = Vec::new();
        let mut tile = self.start;
        let mut heading = self.heading;
        let mut height = self.height;
        let mut i: usize = 0;
        while i < self.pieces.len()
            invariant
                self.wf(),
                i <= self.laid().len(),
                (tile, heading, height as int) == self.after(i as nat),
                laid@.len() == i,
                forall|j: int| 0 <= j < i ==> laid@[j] == self.segment(j),
            decreases self.laid().len() - i,
        {
            let piece = self.pieces[i];
            proof {
                assert(Land::MIN_HEIGHT <= self.after(i as nat).2 + climb_of(self.laid()[i as int])
                    <= Land::MAX_HEIGHT);
                self.lemma_walk_bounded(i as nat);
            }
            let exit = height + piece.climb();
            laid.push(Segment { piece, tile, heading, entry: height, exit });
            let turned = piece.steer(heading);
            tile = turned.beyond(tile);
            heading = turned;
            height = exit;
            i += 1;
        }
        assert(laid@ =~= self.resolved());
        laid
    }

    /// Where the next piece would go, and facing which way, at what height.
    pub fn next_place(&self) -> (r: (TilePos, Heading, i16))
        requires
            self.wf(),
        ensures
            r.0 == self.next().0,
            r.1 == self.next().1,
            r.2 as int == self.next().2,
    {
        let mut tile = self.start;
        let mut heading = self.heading;
        let mut height = self.height;
        let mut i: usize = 0;
        while i < self.pieces.len()
            invariant
                self.wf(),
                i <= self.laid().len(),
                (tile, heading, height as int) == self.after(i as nat),
            decreases self.laid().len() - i,
        {
            let piece = self.pieces[i];
            proof {
                assert(Land::MIN_HEIGHT <= self.after(i as nat).2 + climb_of(self.laid()[i as int])
                    <= Land::MAX_HEIGHT);
                self.lemma_walk_bounded(i as nat);
            }
            let turned = piece.steer(heading);
            tile = turned.beyond(tile);
            heading = turned;
            height = height + piece.climb();
            i += 1;
        }
        (tile, heading, height)
    }

    /// Whether any piece of this layout sits on `tile`.
    pub fn occupies(&self, tile: TilePos) -> (b: bool)
        requires
            self.wf(),
        ensures
            b == self.covers(tile),
    {
        let laid = self.segments();
        let mut i: usize = 0;
        while i < laid.len()
            invariant
                laid@ == self.resolved(),
                i <= laid@.len(),
                forall|j: nat| j < i ==> #[trigger] self.after(j).0 != tile,
            decreases laid@.len() - i,
        {
            if laid[i].tile == tile {
                assert(self.after(i as nat).0 == tile);
                return true;
            }
            i += 1;
        }
        false
    }

    /// Why `piece` would not go on the end of this layout: it is already
    /// [`Track::MAX_PIECES`] long, the piece would leave the heights land can
    /// stand at, or it would land on a tile the layout already runs across.
    pub open spec fn push_refusal(&self, piece: TrackPiece) -> Option<TrackError> {
        if self.laid().len() >= Self::MAX_PIECES {
            Some(TrackError::TooLong)
        } else if !(Land::MIN_HEIGHT <= self.next().2 + climb_of(piece) <= Land::MAX_HEIGHT) {
            Some(TrackError::OutOfRange)
        } else if self.covers(self.next().0) {
            Some(TrackError::Crosses(self.next().0))
        } else {
            None
        }
    }

    /// Lays one more piece, returning where it went.
    ///
    /// Fails if the layout is already [`Track::MAX_PIECES`] long, if the piece
    /// would leave the height range the land allows, or if it would land on a
    /// tile this layout already occupies.
    pub fn push(&mut self, piece: TrackPiece) -> (r: Result<Segment, TrackError>)
        requires
            old(self).wf(),
        ensures
            final(self).wf(),
            final(self).first_tile() == old(self).first_tile(),
            final(self).first_heading() == old(self).first_heading(),
            final(self).first_height() == old(self).first_height(),
            old(self).push_refusal(piece) matches Some(e) ==> r == Err::<Segment, TrackError>(e),
            r is Err ==> final(self).laid() == old(self).laid(),
            r is Ok <==> old(self).push_refusal(piece) is None,
            r is Ok ==> final(self).laid() == old(self).laid().push(piece) && r->Ok_0
                == final(self).segment(old(self).laid().len() as int),
    {
        if self.pieces.len() >= Self::MAX_PIECES {
            return Err(TrackError::TooLong);
        }
        let (tile, _, entry) = self.next_place();
        let exit = entry as i32 + piece.climb() as i32;
        if exit < Land::MIN_HEIGHT as i32 || exit > Land::MAX_HEIGHT as i32 {
            return Err(TrackError::OutOfRange);
        }
        if self.occupies(tile) {
            return Err(TrackError::Crosses(tile));
        }
        let ghost before = *self;
        let n = self.pieces.len();
        self.pieces.push(piece);
        proof {
            assert forall|k: nat| k <= n implies #[trigger] self.after(k) == before.after(k) by {
                self.lemma_prefix_agrees(&before, k);
            }
            assert forall|i: nat|
                #![trigger self.after(i)]
                i < self.laid().len() implies Land::MIN_HEIGHT <= self.after(i).2 + climb_of(
                self.laid()[i as int],
            ) <= Land::MAX_HEIGHT by {
                if i < n {
                    assert(self.after(i) == before.after(i));
                }
            }
            assert forall|i: nat, j: nat|
                i < j < self.laid().len() implies #[trigger] self.after(i).0
                != #[trigger] self.after(j).0 by {
                assert(self.after(i) == before.after(i));
                if j < n {
                    assert(self.after(j) == before.after(j));
                } else {
                    assert(self.after(j) == before.after(n as nat));
                    if self.after(i).0 == self.after(j).0 {
                        assert(before.covers(tile));
                    }
                }
            }
        }
        Ok(Segment { piece, tile, heading: self.heading_after(n), entry, exit: exit as i16 })
    }

    /// The heading a train faces entering piece `n`.
    fn heading_after(&self, n: usize) -> (h: Heading)
        requires
            n <= self.laid().len(),
        ensures
            h == self.after(n as nat).1,
    {
        let mut heading = self.heading;
        let mut i: usize = 0;
        while i < n
            invariant
                n <= self.laid().len(),
                i <= n,
                heading == self.after(i as nat).1,
            decreases n - i,
        {
            heading = self.pieces[i].steer(heading);
            i += 1;
        }
        heading
    }

    /// Two layouts that start the same and agree on their first `k` pieces are
    /// in the same place after them.
    pub proof fn lemma_prefix_agrees(&self, other: &Track, k: nat)
        requires
            self.first_tile() == other.first_tile(),
            self.first_heading() == other.first_heading(),
            self.first_height() == other.first_height(),
            k <= self.laid().len(),
            k <= other.laid().len(),
            forall|i: int| 0 <= i < k ==> self.laid()[i] == other.laid()[i],
        ensures
            self.after(k) == other.after(k),
        decreases k,
    {
        if k > 0 {
            self.lemma_prefix_agrees(other, (k - 1) as nat);
        }
    }

    /// Takes the last piece back off, returning it.
    pub fn pop(&mut self) -> (p: Option<TrackPiece>)
        requires
            old(self).wf(),
        ensures
            final(self).wf(),
            final(self).first_tile() == old(self).first_tile(),
            final(self).first_heading() == old(self).first_heading(),
            final(self).first_height() == old(self).first_height(),
            old(self).laid().len() == 0 ==> p is None && final(self).laid() == old(self).laid(),
            old(self).laid().len() > 0 ==> p == Some(old(self).laid().last())
                && final(self).laid() == old(self).laid().drop_last(),
    {
        let ghost before = *self;
        let p = self.pieces.pop();
        proof {
            assert forall|k: nat| k <= self.laid().len() implies #[trigger] self.after(k)
                == before.after(k) by {
                self.lemma_prefix_agrees(&before, k);
            }
        }
        p
    }

    /// The tiles of the station pieces among the first `n`, in order.
    pub open spec fn stations_in(&self, n: nat) -> Seq<TilePos>
        decreases n,
    {
        if n == 0 {
            Seq::empty()
        } else if self.laid()[n - 1] is Station {
            self.stations_in((n - 1) as nat).push(self.after((n - 1) as nat).0)
        } else {
            self.stations_in((n - 1) as nat)
        }
    }

    /// Every tile this layout stands on.
    pub fn tiles(&self) -> (tiles: Vec<TilePos>)
        requires
            self.wf(),
        ensures
            tiles@ == self.tile_seq(),
    {
        let laid = self.segments();
        let mut tiles: Vec<TilePos> = Vec::new();
        let mut i: usize = 0;
        while i < laid.len()
            invariant
                laid@ == self.resolved(),
                i <= laid@.len(),
                tiles@ == self.tile_seq().take(i as int),
            decreases laid@.len() - i,
        {
            tiles.push(laid[i].tile);
            i += 1;
            assert(tiles@ =~= self.tile_seq().take(i as int));
        }
        assert(self.tile_seq().take(laid@.len() as int) =~= self.tile_seq());
        tiles
    }

    /// The station tiles, which are the only ones guests can reach.
    pub fn stations(&self) -> (tiles: Vec<TilePos>)
        requires
            self.wf(),
        ensures
            tiles@ == self.stations_in(self.laid().len()),
    {
        let laid = self.segments();
        let mut tiles: Vec<TilePos> = Vec::new();
        let mut i: usize = 0;
        while i < laid.len()
            invariant
                laid@ == self.resolved(),
                laid@.len() == self.laid().len(),
                i <= laid@.len(),
                tiles@ == self.stations_in(i as nat),
            decreases laid@.len() - i,
        {
            if laid[i].piece == TrackPiece::Station {
                tiles.push(laid[i].tile);
            }
            i += 1;
        }
        tiles
    }

    /// Whether the track comes back to where it started, facing the same way at
    /// the same height.
    ///
    /// A ride has to be a circuit to run: a train that reaches the end of an
    /// unfinished layout has nowhere to be.
    pub fn is_a_circuit(&self) -> (b: bool)
        requires
            self.wf(),
        ensures
            b == self.closes(),
    {
        if self.pieces.len() < 4 {
            return false;
        }
        let (tile, heading, height) = self.next_place();
        tile == self.start && heading == self.heading && height == self.height
    }

    /// What the whole layout cost to build.
    pub fn cost(&self) -> (c: Money)
        requires
            self.wf(),
        ensures
            c == cost_of(self.laid(), self.laid().len()),
    {
        let mut total: Money = 0;
        let mut i: usize = 0;
        while i < self.pieces.len()
            invariant
                self.wf(),
                i <= self.laid().len(),
                total == cost_of(self.laid(), i as nat),
            decreases self.laid().len() - i,
        {
            proof {
                lemma_sums_bounded(self.laid(), (i + 1) as nat);
            }
            total = total + self.pieces[i].cost();
            i += 1;
        }
        total
    }

    /// What the whole layout costs to keep in service for one wage bill.
    pub fn upkeep(&self) -> (c: Money)
        requires
            self.wf(),
        ensures
            c == upkeep_of(self.laid(), self.laid().len()),
    {
        let mut total: Money = 0;
        let mut i: usize = 0;
        while i < self.pieces.len()
            invariant
                self.wf(),
                i <= self.laid().len(),
                total == upkeep_of(self.laid(), i as nat),
            decreases self.laid().len() - i,
        {
            proof {
                lemma_sums_bounded(self.laid(), (i + 1) as nat);
            }
            total = total + self.pieces[i].upkeep();
            i += 1;
        }
        total
    }

    /// Whether piece `i` starts or ends at `height`.
    pub open spec fn passes(&self, i: int, height: int) -> bool {
        self.segment(i).entry == height || self.segment(i).exit == height
    }

    /// Whether some piece starts or ends at `height`.
    pub open spec fn reaches(&self, height: int) -> bool {
        exists|i: int| 0 <= i < self.laid().len() && #[trigger] self.passes(i, height)
    }

    /// What the walk along the resolved layout in [`Track::range`] found is
    /// the range of the whole layout.
    proof fn lemma_range_is_met(
        &self,
        laid: Seq<Segment>,
        lowest: i16,
        highest: i16,
        low_at: int,
        high_at: int,
    )
        requires
            laid == self.resolved(),
            0 <= low_at < laid.len(),
            0 <= high_at < laid.len(),
            lowest == laid[low_at].entry || lowest == laid[low_at].exit,
            highest == laid[high_at].entry || highest == laid[high_at].exit,
            forall|j: int|
                0 <= j < laid.len() ==> lowest <= #[trigger] laid[j].entry && lowest <= laid[j].exit
                    && laid[j].entry <= highest && laid[j].exit <= highest,
        ensures
            forall|i: int|
                0 <= i < self.laid().len() ==> lowest <= #[trigger] self.segment(i).entry && lowest
                    <= self.segment(i).exit && self.segment(i).entry <= highest
                    && self.segment(i).exit <= highest,
            self.reaches(lowest as int),
            self.reaches(highest as int),
    {
        assert forall|i: int| 0 <= i < self.laid().len() implies lowest
            <= #[trigger] self.segment(i).entry && lowest <= self.segment(i).exit
            && self.segment(i).entry <= highest && self.segment(i).exit <= highest by {
            assert(laid[i] == self.segment(i));
        }
        assert(laid[low_at] == self.segment(low_at));
        assert(laid[high_at] == self.segment(high_at));
        assert(self.passes(low_at, lowest as int));
        assert(self.passes(high_at, highest as int));
    }

    /// The lowest and highest a train gets, in steps.
    #[verifier::spinoff_prover]
    pub fn range(&self) -> (r: (i16, i16))
        requires
            self.wf(),
        ensures
            self.laid().len() == 0 ==> r == (self.height_at_start(), self.height_at_start()),
            forall|i: int|
                0 <= i < self.laid().len() ==> r.0 <= #[trigger] self.segment(i).entry && r.0
                    <= self.segment(i).exit && self.segment(i).entry <= r.1 && self.segment(i).exit
                    <= r.1,
            self.laid().len() > 0 ==> self.reaches(r.0 as int),
            self.laid().len() > 0 ==> self.reaches(r.1 as int),
    {
        let laid = self.segments();
        assert(laid@.len() == self.laid().len());
        if laid.len() == 0 {
            return (self.height, self.height);
        }
        let first = laid[0];
        let mut lowest = if first.entry < first.exit {
            first.entry
        } else {
            first.exit
        };
        let mut highest = if first.entry > first.exit {
            first.entry
        } else {
            first.exit
        };
        let ghost mut low_at: int = 0;
        let ghost mut high_at: int = 0;
        let mut i: usize = 1;
        while i < laid.len()
            invariant
                laid@ == self.resolved(),
                laid@.len() == self.laid().len(),
                1 <= i <= laid@.len(),
                0 <= low_at < i,
                0 <= high_at < i,
                lowest == laid@[low_at].entry || lowest == laid@[low_at].exit,
                highest == laid@[high_at].entry || highest == laid@[high_at].exit,
                forall|j: int|
                    0 <= j < i ==> lowest <= #[trigger] laid@[j].entry && lowest <= laid@[j].exit
                        && laid@[j].entry <= highest && laid@[j].exit <= highest,
            decreases laid@.len() - i,
        {
            let here = laid[i];
            if here.entry < lowest {
                lowest = here.entry;
                proof {
                    low_at = i as int;
                }
            }
            if here.exit < lowest {
                lowest = here.exit;
                proof {
                    low_at = i as int;
                }
            }
            if here.entry > highest {
                highest = here.entry;
                proof {
                    high_at = i as int;
                }
            }
            if here.exit > highest {
                highest = here.exit;
                proof {
                    high_at = i as int;
                }
            }
            proof {
                let ghost k = i as int;
                assert(lowest <= laid@[k].entry && lowest <= laid@[k].exit && laid@[k].entry
                    <= highest && laid@[k].exit <= highest);
                assert forall|j: int| 0 <= j < k + 1 implies lowest <= #[trigger] laid@[j].entry
                    && lowest <= laid@[j].exit && laid@[j].entry <= highest && laid@[j].exit
                    <= highest by {
                    if j < k {
                    }
                }
            }
            i += 1;
        }
        proof {
            self.lemma_range_is_met(laid@, lowest, highest, low_at, high_at);
        }
        (lowest, highest)
    }

    /// The height the first piece is laid at, as a height.
    pub open spec fn height_at_start(&self) -> i16 {
        self.first_height() as i16
    }

    /// The biggest single run of falling track, in steps.
    ///
    /// The drop is what a coaster is judged on, so it is measured as the longest
    /// unbroken descent rather than the total.
    pub fn longest_drop(&self) -> (d: i16)
        requires
            self.wf(),
        ensures
            d == longest_fall(self.laid(), self.laid().len()),
    {
        let mut longest: i16 = 0;
        let mut falling: i16 = 0;
        let mut i: usize = 0;
        while i < self.pieces.len()
            invariant
                self.wf(),
                i <= self.laid().len(),
                falling == falling_at(self.laid(), i as nat),
                longest == longest_fall(self.laid(), i as nat),
            decreases self.laid().len() - i,
        {
            proof {
                lemma_fall_bounded(self.laid(), (i + 1) as nat);
            }
            if self.pieces[i] == TrackPiece::SlopeDown {
                falling = falling + 1;
                if falling > longest {
                    longest = falling;
                }
            } else {
                falling = 0;
            }
            i += 1;
        }
        longest
    }

    /// How many quarter turns the layout takes.
    pub fn curves(&self) -> (n: usize)
        requires
            self.wf(),
        ensures
            n == curves_in(self.laid(), self.laid().len()),
    {
        let mut count: usize = 0;
        let mut i: usize = 0;
        while i < self.pieces.len()
            invariant
                self.wf(),
                i <= self.laid().len(),
                count == curves_in(self.laid(), i as nat),
            decreases self.laid().len() - i,
        {
            proof {
                lemma_sums_bounded(self.laid(), (i + 1) as nat);
            }
            if matches!(self.pieces[i], TrackPiece::CurveLeft | TrackPiece::CurveRight) {
                count = count + 1;
            }
            i += 1;
        }
        count
    }
}

/// Laying one more piece adds the tile it went on to where a layout stands,
/// and nothing else.
pub proof fn lemma_covers_after_push(before: &Track, after: &Track, piece: TrackPiece)
    requires
        after.first_tile() == before.first_tile(),
        after.first_heading() == before.first_heading(),
        after.first_height() == before.first_height(),
        after.laid() == before.laid().push(piece),
    ensures
        forall|t: TilePos| #[trigger]
            after.covers(t) <==> before.covers(t) || t == before.next().0,
{
    assert forall|t: TilePos| #[trigger] after.covers(t) <==> before.covers(t) || t
        == before.next().0 by {
        if after.covers(t) {
            let i = choose|i: nat| i < after.laid().len() && #[trigger] after.after(i).0 == t;
            after.lemma_prefix_agrees(before, i);
            if i < before.laid().len() {
                assert(before.after(i).0 == t);
            }
        }
        if before.covers(t) {
            let i = choose|i: nat| i < before.laid().len() && #[trigger] before.after(i).0 == t;
            after.lemma_prefix_agrees(before, i);
            assert(after.after(i).0 == t);
        }
        if t == before.next().0 {
            after.lemma_prefix_agrees(before, before.laid().len());
            assert(after.after(before.laid().len()).0 == t);
        }
    }
}

/// Taking the last piece off leaves a layout standing on less than it did.
pub proof fn lemma_covers_after_pop(before: &Track, after: &Track)
    requires
        after.first_tile() == before.first_tile(),
        after.first_heading() == before.first_heading(),
        after.first_height() == before.first_height(),
        after.laid() == before.laid().drop_last(),
        before.laid().len() > 0,
    ensures
        forall|t: TilePos| #[trigger] after.covers(t) ==> before.covers(t),
{
    assert forall|t: TilePos| #[trigger] after.covers(t) implies before.covers(t) by {
        let i = choose|i: nat| i < after.laid().len() && #[trigger] after.after(i).0 == t;
        after.lemma_prefix_agrees(before, i);
        assert(before.after(i).0 == t);
    }
}

/// Taking the last piece back off a layout undoes laying it: the pieces are
/// the ones there were before.
pub proof fn taking_a_piece_off_undoes_laying_it(
    before: &Track,
    laid: &Track,
    after: &Track,
    piece: TrackPiece,
)
    requires
        laid.laid() == before.laid().push(piece),
        after.laid() == laid.laid().drop_last(),
    ensures
        after.laid() == before.laid(),
{
    assert(after.laid() =~= before.laid());
}

/// Laying more track never moves what was laid already: every earlier piece
/// stands where it stood.
pub proof fn laying_leaves_the_earlier_pieces_alone(
    before: &Track,
    after: &Track,
    piece: TrackPiece,
    i: int,
)
    requires
        after.first_tile() == before.first_tile(),
        after.first_heading() == before.first_heading(),
        after.first_height() == before.first_height(),
        after.laid() == before.laid().push(piece),
        0 <= i < before.laid().len(),
    ensures
        after.segment(i) == before.segment(i),
{
    after.lemma_prefix_agrees(before, i as nat);
}

/// A layout never crosses itself: no two of its pieces share a tile.
pub proof fn a_layout_never_crosses_itself(track: &Track, i: int, j: int)
    requires
        track.wf(),
        0 <= i < j < track.laid().len(),
    ensures
        track.segment(i).tile != track.segment(j).tile,
{
    assert(track.after(i as nat).0 != track.after(j as nat).0);
}

/// Every piece of a layout runs at a height the land can stand at.
pub proof fn track_stays_within_the_heights_of_the_land(track: &Track, i: int)
    requires
        track.wf(),
        0 <= i < track.laid().len(),
    ensures
        Land::MIN_HEIGHT <= track.segment(i).exit <= Land::MAX_HEIGHT,
        i > 0 ==> Land::MIN_HEIGHT <= track.segment(i).entry <= Land::MAX_HEIGHT,
{
    assert(Land::MIN_HEIGHT <= track.after(i as nat).2 + climb_of(track.laid()[i])
        <= Land::MAX_HEIGHT);
    if i > 0 {
        assert(Land::MIN_HEIGHT <= track.after((i - 1) as nat).2 + climb_of(
            track.laid()[i - 1],
        ) <= Land::MAX_HEIGHT);
    }
}

/// Four right turns come back round to where they started, whichever way the
/// first one faced.
pub proof fn four_right_turns_make_a_circuit(track: &Track)
    requires
        Track::within_reach(track.first_tile()),
        track.laid() == seq![
            TrackPiece::CurveRight,
            TrackPiece::CurveRight,
            TrackPiece::CurveRight,
            TrackPiece::CurveRight,
        ],
    ensures
        track.closes(),
{
    reveal_with_fuel(walk, 5);
}

/// `p` seen in a mirror: a left turn for a right turn and the other way
/// about, and every other piece as it was.
pub open spec fn mirrored(p: TrackPiece) -> TrackPiece {
    match p {
        TrackPiece::CurveLeft => TrackPiece::CurveRight,
        TrackPiece::CurveRight => TrackPiece::CurveLeft,
        _ => p,
    }
}

/// A curve is a piece that turns the train: laying one more piece adds one
/// to the curves exactly when the train leaves it facing another way than
/// it came in, whichever way that is.
pub proof fn a_curve_is_a_piece_that_turns(pieces: Seq<TrackPiece>, n: nat, h: Heading)
    requires
        n < pieces.len(),
    ensures
        curves_in(pieces, n + 1) == curves_in(pieces, n) + if steer_of(pieces[n as int], h) != h {
            1nat
        } else {
            0nat
        },
{
}

/// A layout and its mirror image take as many quarter turns: left turns
/// count as much as right ones.
pub proof fn a_mirror_image_has_as_many_curves(pieces: Seq<TrackPiece>, n: nat)
    requires
        n <= pieces.len(),
    ensures
        curves_in(pieces.map_values(|p: TrackPiece| mirrored(p)), n) == curves_in(pieces, n),
    decreases n,
{
    if n > 0 {
        a_mirror_image_has_as_many_curves(pieces, (n - 1) as nat);
    }
}

} // verus!
