//! Tile-grid geometry: pixel and tile coordinates, hex directions,
//! hex distance and rays, and the tile-to-screen projection.
//!
//! Tiles live on a rectangular grid of hexes. A tile `(x, y)` is column
//! `x` of row `y`; rows are offset, and the axial pair `(q, r)` with
//! `q = x - y / 2`, `r = y` turns the offset layout into hex coordinates
//! on which distance and stepping are uniform.

use vstd::prelude::*;

verus! {

/// Largest tile coordinate the geometry functions accept.
pub const TILE_COORD_MAX: i32 = 0x8000;

/// Largest magnitude accepted for pixel coordinates, screen shifts and
/// frame dimensions.
pub const PIXEL_MAX: i32 = 0x1000000;

/// A pixel or tile coordinate pair.
#[derive(Clone, Copy, Debug, PartialEq, Eq, Hash, Structural)]
pub struct Point {
    pub x: i32,
    pub y: i32,
}

impl Point {
    pub fn new(x: i32, y: i32) -> (r: Point)
        ensures
            r == (Point { x, y }),
    {
        Point { x, y }
    }

    /// Componentwise sum.
    pub fn plus(self, o: Point) -> (r: Point)
        requires
            i32::MIN <= self.x + o.x <= i32::MAX,
            i32::MIN <= self.y + o.y <= i32::MAX,
        ensures
            r.x == self.x + o.x,
            r.y == self.y + o.y,
    {
        Point { x: self.x + o.x, y: self.y + o.y }
    }

    /// Componentwise difference.
    pub fn minus(self, o: Point) -> (r: Point)
        requires
            i32::MIN <= self.x - o.x <= i32::MAX,
            i32::MIN <= self.y - o.y <= i32::MAX,
        ensures
            r.x == self.x - o.x,
            r.y == self.y - o.y,
    {
        Point { x: self.x - o.x, y: self.y - o.y }
    }

    /// Attaches an elevation to a tile coordinate.
    pub fn elevated(self, elevation: u32) -> (r: EPoint)
        ensures
            r == (EPoint { elevation, point: self }),
    {
        EPoint { elevation, point: self }
    }
}

/// A tile coordinate together with its map elevation.
#[derive(Clone, Copy, Debug, PartialEq, Eq, Hash, Structural)]
pub struct EPoint {
    pub elevation: u32,
    pub point: Point,
}

impl EPoint {
    pub fn new(elevation: u32, point: Point) -> (r: EPoint)
        ensures
            r == (EPoint { elevation, point }),
    {
        EPoint { elevation, point }
    }
}

/// An axis-aligned rectangle, half-open on the right and bottom.
#[derive(Clone, Copy, Debug, PartialEq, Eq, Structural)]
pub struct Rect {
    pub left: i32,
    pub top: i32,
    pub right: i32,
    pub bottom: i32,
}

impl Rect {
    pub fn with_points(tl: Point, br: Point) -> (r: Rect)
        ensures
            r == (Rect { left: tl.x, top: tl.y, right: br.x, bottom: br.y }),
    {
        Rect { left: tl.x, top: tl.y, right: br.x, bottom: br.y }
    }

    pub open spec fn spec_contains(self, p: Point) -> bool {
        self.left <= p.x < self.right && self.top <= p.y < self.bottom
    }

    pub fn contains(self, p: Point) -> (r: bool)
        ensures
            r == self.spec_contains(p),
    {
        self.left <= p.x && p.x < self.right && self.top <= p.y && p.y < self.bottom
    }

    pub fn top_left(self) -> (r: Point)
        ensures
            r == (Point { x: self.left, y: self.top }),
    {
        Point { x: self.left, y: self.top }
    }

    pub fn width(self) -> (r: i32)
        requires
            i32::MIN <= self.right - self.left <= i32::MAX,
        ensures
            r == self.right - self.left,
    {
        self.right - self.left
    }

    pub fn height(self) -> (r: i32)
        requires
            i32::MIN <= self.bottom - self.top <= i32::MAX,
        ensures
            r == self.bottom - self.top,
    {
        self.bottom - self.top
    }

    /// The rectangle moved by `d`.
    pub fn translate(self, d: Point) -> (r: Rect)
        requires
            i32::MIN <= self.left + d.x <= i32::MAX,
            i32::MIN <= self.right + d.x <= i32::MAX,
            i32::MIN <= self.top + d.y <= i32::MAX,
            i32::MIN <= self.bottom + d.y <= i32::MAX,
        ensures
            r.left == self.left + d.x,
            r.top == self.top + d.y,
            r.right == self.right + d.x,
            r.bottom == self.bottom + d.y,
    {
        Rect {
            left: self.left + d.x,
            top: self.top + d.y,
            right: self.right + d.x,
            bottom: self.bottom + d.y,
        }
    }
}

/// The six hex directions, named for their direction on screen.
#[derive(Clone, Copy, Debug, PartialEq, Eq, Hash, Structural)]
pub enum Direction {
    NE,
    E,
    SE,
    SW,
    W,
    NW,
}

impl Direction {
    /// All six directions, in the order neighbours are scanned.
    pub fn all() -> (r: Vec<Direction>)
        ensures
            r@ =~= seq![
                Direction::NE,
                Direction::E,
                Direction::SE,
                Direction::SW,
                Direction::W,
                Direction::NW,
            ],
    {
        let mut v: Vec<Direction> = Vec::new();
        v.push(Direction::NE);
        v.push(Direction::E);
        v.push(Direction::SE);
        v.push(Direction::SW);
        v.push(Direction::W);
        v.push(Direction::NW);
        v
    }
}

/// Position of a direction in the `NE, E, SE, SW, W, NW` cycle.
pub open spec fn dir_index(d: Direction) -> int {
    match d {
        Direction::NE => 0,
        Direction::E => 1,
        Direction::SE => 2,
        Direction::SW => 3,
        Direction::W => 4,
        Direction::NW => 5,
    }
}

/// The direction at a position of the cycle; out-of-range positions
/// give the first.
pub open spec fn dir_of_index(i: int) -> Direction {
    if i == 0 {
        Direction::NE
    } else if i == 1 {
        Direction::E
    } else if i == 2 {
        Direction::SE
    } else if i == 3 {
        Direction::SW
    } else if i == 4 {
        Direction::W
    } else if i == 5 {
        Direction::NW
    } else {
        Direction::NE
    }
}

/// `dir_index` as executable code.
pub fn dir_index_usize(d: Direction) -> (r: usize)
    ensures
        r == dir_index(d),
{
    match d {
        Direction::NE => 0,
        Direction::E => 1,
        Direction::SE => 2,
        Direction::SW => 3,
        Direction::W => 4,
        Direction::NW => 5,
    }
}

/// Axial column of a tile.
pub open spec fn pt_q(p: Point) -> int {
    p.x - p.y / 2
}

/// Axial row of a tile.
pub open spec fn pt_r(p: Point) -> int {
    p.y as int
}

/// Change of the axial column when stepping once in `d`.
pub open spec fn dir_dq(d: Direction) -> int {
    match d {
        Direction::NE => 1,
        Direction::E => 1,
        Direction::SE => 0,
        Direction::SW => -1,
        Direction::W => -1,
        Direction::NW => 0,
    }
}

/// Change of the axial row when stepping once in `d`.
pub open spec fn dir_dr(d: Direction) -> int {
    match d {
        Direction::NE => -1,
        Direction::E => 0,
        Direction::SE => 1,
        Direction::SW => 1,
        Direction::W => 0,
        Direction::NW => -1,
    }
}

/// `b` is the tile one step from `a` in direction `d`.
pub open spec fn is_step(a: Point, d: Direction, b: Point) -> bool {
    pt_q(b) == pt_q(a) + dir_dq(d) && pt_r(b) == pt_r(a) + dir_dr(d)
}

pub open spec fn spec_abs(a: int) -> int {
    if a < 0 {
        -a
    } else {
        a
    }
}

/// Hex distance between two tiles: the least number of single steps
/// leading from one to the other.
pub open spec fn hex_dist(a: Point, b: Point) -> int {
    let dq = pt_q(b) - pt_q(a);
    let dr = pt_r(b) - pt_r(a);
    (spec_abs(dq) + spec_abs(dr) + spec_abs(dq + dr)) / 2
}

pub proof fn lemma_hex_dist_symmetric(a: Point, b: Point)
    ensures
        hex_dist(a, b) == hex_dist(b, a),
{
}

pub proof fn lemma_hex_dist_nonneg(a: Point, b: Point)
    ensures
        hex_dist(a, b) >= 0,
{
}

pub proof fn lemma_hex_dist_zero(a: Point, b: Point)
    ensures
        hex_dist(a, b) == 0 <==> a == b,
{
    if hex_dist(a, b) == 0 {
        assert(pt_q(a) == pt_q(b) && pt_r(a) == pt_r(b));
        assert(a.y == b.y);
        assert(a.x == b.x);
    }
}

/// Hex distance, on tile coordinates within the accepted range.
pub fn distance(a: Point, b: Point) -> (r: u32)
    requires
        0 <= a.x <= TILE_COORD_MAX,
        0 <= a.y <= TILE_COORD_MAX,
        0 <= b.x <= TILE_COORD_MAX,
        0 <= b.y <= TILE_COORD_MAX,
    ensures
        r == hex_dist(a, b),
{
    let qa: i64 = a.x as i64 - (a.y as i64) / 2;
    let qb: i64 = b.x as i64 - (b.y as i64) / 2;
    let dq: i64 = qb - qa;
    let dr: i64 = b.y as i64 - a.y as i64;
    let ds: i64 = dq + dr;
    let adq: i64 = if dq < 0 { -dq } else { dq };
    let adr: i64 = if dr < 0 { -dr } else { dr };
    let ads: i64 = if ds < 0 { -ds } else { ds };
    let sum: i64 = adq + adr + ads;
    (sum / 2) as u32
}

/// The map's hex grid: a `width` by `height` field of tiles.
#[derive(Clone, Copy, Debug, PartialEq, Eq, Structural)]
pub struct TileGrid {
    width: i32,
    height: i32,
}

impl TileGrid {
    pub closed spec fn spec_width(self) -> int {
        self.width as int
    }

    pub closed spec fn spec_height(self) -> int {
        self.height as int
    }

    pub open spec fn wf(self) -> bool {
        0 < self.spec_width() <= TILE_COORD_MAX && 0 < self.spec_height() <= TILE_COORD_MAX
    }

    /// A tile coordinate lying on the grid.
    pub open spec fn spec_in_grid(self, p: Point) -> bool {
        0 <= p.x < self.spec_width() && 0 <= p.y < self.spec_height()
    }

    pub fn new(width: i32, height: i32) -> (r: TileGrid)
        requires
            0 < width <= TILE_COORD_MAX,
            0 < height <= TILE_COORD_MAX,
        ensures
            r.spec_width() == width,
            r.spec_height() == height,
    {
        TileGrid { width, height }
    }

    pub fn width(&self) -> (r: i32)
        ensures
            r == self.spec_width(),
    {
        self.width
    }

    pub fn height(&self) -> (r: i32)
        ensures
            r == self.spec_height(),
    {
        self.height
    }

    pub fn in_grid(&self, p: Point) -> (r: bool)
        ensures
            r == self.spec_in_grid(p),
    {
        0 <= p.x && p.x < self.width && 0 <= p.y && p.y < self.height
    }

    /// The tile one step from `p` in direction `d`, or `None` where the
    /// step leaves the grid.
    pub closed spec fn spec_step(self, p: Point, d: Direction) -> Option<Point> {
        let q = pt_q(p) + dir_dq(d);
        let r = pt_r(p) + dir_dr(d);
        let x = q + r / 2;
        if 0 <= x < self.spec_width() && 0 <= r < self.spec_height() {
            Some(Point { x: x as i32, y: r as i32 })
        } else {
            None
        }
    }

    /// `n` single steps from `p` in direction `d`; `None` as soon as one
    /// of them leaves the grid.
    pub closed spec fn spec_go(self, p: Point, d: Direction, n: nat) -> Option<Point>
        decreases n,
    {
        if n == 0 {
            Some(p)
        } else {
            match self.spec_go(p, d, (n - 1) as nat) {
                Some(c) => self.spec_step(c, d),
                None => None,
            }
        }
    }

    pub proof fn lemma_step_in_grid(self, p: Point, d: Direction)
        ensures
            self.spec_step(p, d) matches Some(c) ==> self.spec_in_grid(c),
            self.spec_step(p, d) matches Some(c) ==> is_step(p, d, c),
    {
        if let Some(c) = self.spec_step(p, d) {
            let r = pt_r(p) + dir_dr(d);
            assert(c.y == r);
            assert(c.x == pt_q(p) + dir_dq(d) + r / 2);
        }
    }

    /// Steps `n` tiles from `p` in direction `d`.
    pub fn go(&self, p: Point, d: Direction, n: u32) -> (r: Option<Point>)
        requires
            self.wf(),
            self.spec_in_grid(p),
        ensures
            r == self.spec_go(p, d, n as nat),
            r matches Some(c) ==> self.spec_in_grid(c),
    {
        let mut cur = p;
        let mut i: u32 = 0;
        while i < n
            invariant
                self.wf(),
                i <= n,
                self.spec_in_grid(cur),
                self.spec_go(p, d, i as nat) == Some(cur),
            decreases n - i,
        {
            let q: i64 = cur.x as i64 - (cur.y as i64) / 2 + dir_dq_i64(d);
            let r: i64 = cur.y as i64 + dir_dr_i64(d);
            if r < 0 || r >= self.height as i64 {
                proof {
                    lemma_go_unroll(*self, p, d, (i + 1) as nat);
                    lemma_go_none_persists(*self, p, d, (i + 1) as nat, n as nat);
                }
                return None;
            }
            let x: i64 = q + r / 2;
            if x < 0 || x >= self.width as i64 {
                proof {
                    lemma_go_unroll(*self, p, d, (i + 1) as nat);
                    lemma_go_none_persists(*self, p, d, (i + 1) as nat, n as nat);
                }
                return None;
            }
            let next = Point { x: x as i32, y: r as i32 };
            proof {
                lemma_go_unroll(*self, p, d, (i + 1) as nat);
            }
            cur = next;
            i = i + 1;
        }
        Some(cur)
    }
}

/// `dir_dq` as executable code.
fn dir_dq_i64(d: Direction) -> (r: i64)
    ensures
        r == dir_dq(d),
{
    match d {
        Direction::NE => 1,
        Direction::E => 1,
        Direction::SE => 0,
        Direction::SW => -1,
        Direction::W => -1,
        Direction::NW => 0,
    }
}

/// `dir_dr` as executable code.
fn dir_dr_i64(d: Direction) -> (r: i64)
    ensures
        r == dir_dr(d),
{
    match d {
        Direction::NE => -1,
        Direction::E => 0,
        Direction::SE => 1,
        Direction::SW => 1,
        Direction::W => 0,
        Direction::NW => -1,
    }
}

/// Where a walk of single steps from `from` ends, or `None` where a
/// step leaves the grid.
pub open spec fn walk_end(g: TileGrid, from: Point, dirs: Seq<Direction>) -> Option<Point>
    decreases dirs.len(),
{
    if dirs.len() == 0 {
        Some(from)
    } else {
        match g.spec_step(from, dirs[0]) {
            Some(p) => walk_end(g, p, dirs.drop_first()),
            None => None,
        }
    }
}

/// A single-step `go` is exactly one `spec_step`.
pub proof fn lemma_go_one(g: TileGrid, p: Point, d: Direction)
    ensures
        g.spec_go(p, d, 1) == g.spec_step(p, d),
{
    assert(g.spec_go(p, d, 0) == Some(p));
}

/// Extending a walk by one in-grid step moves its end by that step.
pub proof fn lemma_walk_end_push(g: TileGrid, from: Point, dirs: Seq<Direction>, d: Direction, np: Point)
    requires
        walk_end(g, from, dirs) is Some,
        g.spec_step(walk_end(g, from, dirs).unwrap(), d) == Some(np),
    ensures
        walk_end(g, from, dirs.push(d)) == Some(np),
    decreases dirs.len(),
{
    if dirs.len() == 0 {
        assert(dirs.push(d)[0] == d);
        assert(dirs.push(d).drop_first() =~= Seq::<Direction>::empty());
    } else {
        assert(dirs.push(d)[0] == dirs[0]);
        assert(dirs.push(d).drop_first() =~= dirs.drop_first().push(d));
        let p1 = g.spec_step(from, dirs[0]).unwrap();
        lemma_walk_end_push(g, p1, dirs.drop_first(), d, np);
    }
}

/// A walk that ends somewhere also visits the tile before its last
/// step, and reaches its end from there in one step.
pub proof fn lemma_walk_end_last(g: TileGrid, from: Point, dirs: Seq<Direction>)
    requires
        dirs.len() > 0,
        walk_end(g, from, dirs) is Some,
    ensures
        walk_end(g, from, dirs.drop_last()) matches Some(p) && g.spec_step(p, dirs.last())
            == walk_end(g, from, dirs),
    decreases dirs.len(),
{
    if dirs.len() == 1 {
        assert(dirs.drop_last() =~= Seq::<Direction>::empty());
        assert(dirs.drop_first() =~= Seq::<Direction>::empty());
    } else {
        let p1 = g.spec_step(from, dirs[0]).unwrap();
        lemma_walk_end_last(g, p1, dirs.drop_first());
        assert(dirs.drop_first().drop_last() =~= dirs.drop_last().drop_first());
        assert(dirs.drop_last()[0] == dirs[0]);
        assert(dirs.drop_first().last() == dirs.last());
    }
}

proof fn lemma_go_unroll(g: TileGrid, p: Point, d: Direction, n: nat)
    requires
        n > 0,
    ensures
        g.spec_go(p, d, n) == match g.spec_go(p, d, (n - 1) as nat) {
            Some(c) => g.spec_step(c, d),
            None => None::<Point>,
        },
{
}

/// The single step that brings `a` nearer to `b`, chosen by the signs
/// of the axial deltas.
pub open spec fn spec_step_toward(a: Point, b: Point) -> Point {
    let dq = pt_q(b) - pt_q(a);
    let dr = pt_r(b) - pt_r(a);
    let q1 = if dq > 0 {
        pt_q(a) + 1
    } else if dq < 0 {
        pt_q(a) - 1
    } else {
        pt_q(a)
    };
    let r1 = if dq > 0 && dr < 0 {
        pt_r(a) - 1
    } else if dq > 0 {
        pt_r(a) as int
    } else if dq < 0 && dr > 0 {
        pt_r(a) + 1
    } else if dq < 0 {
        pt_r(a) as int
    } else if dr > 0 {
        pt_r(a) + 1
    } else {
        pt_r(a) - 1
    };
    Point { x: (q1 + r1 / 2) as i32, y: r1 as i32 }
}

/// The tiles of the straight hex ray from `a` to `b`, both included.
pub open spec fn spec_ray(a: Point, b: Point) -> Seq<Point>
    decreases spec_abs(pt_q(b) - pt_q(a)) + spec_abs(pt_r(b) - pt_r(a)),
    when -0x100000 <= a.x <= 0x100000 && 0 <= a.y <= 0x100000 && -0x100000 <= b.x <= 0x100000
        && 0 <= b.y <= 0x100000
{
    if a == b {
        seq![a]
    } else {
        seq![a] + spec_ray(spec_step_toward(a, b), b)
    }
}

/// The straight hex ray from `a` to `b`: a walk of single steps, each
/// one nearer to `b`, beginning at `a` and ending at `b`.
#[verifier::rlimit(100)]
pub fn ray(a: Point, b: Point) -> (out: Vec<Point>)
    requires
        0 <= a.x <= TILE_COORD_MAX,
        0 <= a.y <= TILE_COORD_MAX,
        0 <= b.x <= TILE_COORD_MAX,
        0 <= b.y <= TILE_COORD_MAX,
    ensures
        out@ == spec_ray(a, b),
        out@.len() == hex_dist(a, b) + 1,
        out@[0] == a,
        out@[out@.len() - 1] == b,
{
    let qb: i64 = b.x as i64 - (b.y as i64) / 2;
    let rb: i64 = b.y as i64;
    let mut out: Vec<Point> = Vec::new();
    let mut cur = a;
    out.push(cur);
    while cur.x != b.x || cur.y != b.y
        invariant
            0 <= a.x <= TILE_COORD_MAX,
            0 <= a.y <= TILE_COORD_MAX,
            0 <= b.x <= TILE_COORD_MAX,
            0 <= b.y <= TILE_COORD_MAX,
            qb == pt_q(b),
            rb == pt_r(b),
            out@.len() >= 1,
            out@[0] == a,
            out@[out@.len() - 1] == cur,
            out@.len() == hex_dist(a, b) - hex_dist(cur, b) + 1,
            pt_q(a) <= pt_q(cur) <= pt_q(b) || pt_q(b) <= pt_q(cur) <= pt_q(a),
            pt_r(a) <= pt_r(cur) <= pt_r(b) || pt_r(b) <= pt_r(cur) <= pt_r(a),
            spec_ray(a, b) == out@.take(out@.len() - 1) + spec_ray(cur, b),
        decreases hex_dist(cur, b),
    {
        proof {
            lemma_hex_dist_zero(cur, b);
            lemma_hex_dist_nonneg(cur, b);
        }
        let qc: i64 = cur.x as i64 - (cur.y as i64) / 2;
        let rc: i64 = cur.y as i64;
        let dq: i64 = qb - qc;
        let dr: i64 = rb - rc;
        let d: Direction = if dq > 0 && dr < 0 {
            Direction::NE
        } else if dq > 0 {
            Direction::E
        } else if dq < 0 && dr > 0 {
            Direction::SW
        } else if dq < 0 {
            Direction::W
        } else if dr > 0 {
            Direction::SE
        } else {
            Direction::NW
        };
        let q1: i64 = qc + dir_dq_i64(d);
        let r1: i64 = rc + dir_dr_i64(d);
        proof {
            assert(0 <= r1 <= TILE_COORD_MAX);
            assert(-2 * TILE_COORD_MAX <= q1 <= 2 * TILE_COORD_MAX);
        }
        let x1: i64 = q1 + r1 / 2;
        let prev = cur;
        cur = Point { x: x1 as i32, y: r1 as i32 };
        proof {
            assert(pt_q(cur) == q1 && pt_r(cur) == r1);
            assert(hex_dist(cur, b) == hex_dist(prev, b) - 1);
            assert(cur == spec_step_toward(prev, b));
            assert(spec_ray(prev, b) == seq![prev] + spec_ray(cur, b));
        }
        out.push(cur);
        proof {
            assert(out@.take(out@.len() - 1) =~= out@.take(out@.len() - 2).push(prev));
            assert(out@.take(out@.len() - 1) + spec_ray(cur, b) =~= out@.take(out@.len() - 2) + (
            seq![prev] + spec_ray(cur, b)));
        }
    }
    proof {
        lemma_hex_dist_zero(cur, b);
        assert(spec_ray(cur, b) == seq![b]);
        assert(out@ =~= out@.take(out@.len() - 1) + seq![b]);
    }
    out
}

/// Horizontal screen position of a tile, before the view origin is added.
pub open spec fn tile_screen_x(p: Point) -> int {
    48 * (p.x / 2) + 32 * (p.x % 2) + 16 * p.y
}

/// Vertical screen position of a tile, before the view origin is added.
pub open spec fn tile_screen_y(p: Point) -> int {
    12 * p.y - 12 * (p.x / 2)
}

/// `a` is drawn in front of `b`: its screen row is no higher.
pub open spec fn spec_in_front_of(a: Point, b: Point) -> bool {
    tile_screen_y(a) >= tile_screen_y(b)
}

/// `a` lies to the right of `b` on screen.
pub open spec fn spec_to_right_of(a: Point, b: Point) -> bool {
    tile_screen_x(a) >= tile_screen_x(b)
}

/// Whether tile `a` is drawn in front of tile `b`.
pub fn is_in_front_of(a: Point, b: Point) -> (r: bool)
    requires
        0 <= a.x <= TILE_COORD_MAX,
        0 <= a.y <= TILE_COORD_MAX,
        0 <= b.x <= TILE_COORD_MAX,
        0 <= b.y <= TILE_COORD_MAX,
    ensures
        r == spec_in_front_of(a, b),
{
    let ya: i64 = 12 * (a.y as i64) - 12 * ((a.x as i64) / 2);
    let yb: i64 = 12 * (b.y as i64) - 12 * ((b.x as i64) / 2);
    ya >= yb
}

/// Whether tile `a` lies to the right of tile `b` on screen.
pub fn is_to_right_of(a: Point, b: Point) -> (r: bool)
    requires
        0 <= a.x <= TILE_COORD_MAX,
        0 <= a.y <= TILE_COORD_MAX,
        0 <= b.x <= TILE_COORD_MAX,
        0 <= b.y <= TILE_COORD_MAX,
    ensures
        r == spec_to_right_of(a, b),
{
    let xa: i64 = 48 * ((a.x as i64) / 2) + 32 * ((a.x as i64) % 2) + 16 * (a.y as i64);
    let xb: i64 = 48 * ((b.x as i64) / 2) + 32 * ((b.x as i64) % 2) + 16 * (b.y as i64);
    xa >= xb
}

/// A camera: the pixel position of tile `(0, 0)`.
#[derive(Clone, Copy, Debug, PartialEq, Eq, Structural)]
pub struct Camera {
    pub origin: Point,
}

impl Default for Camera {
    /// The view with tile `(0, 0)` projected to pixel `(0, 0)`.
    fn default() -> (r: Camera)
        ensures
            r.origin == (Point { x: 0, y: 0 }),
    {
        Camera { origin: Point { x: 0, y: 0 } }
    }
}

impl Camera {
    pub open spec fn bounded(self) -> bool {
        -PIXEL_MAX <= self.origin.x <= PIXEL_MAX && -PIXEL_MAX <= self.origin.y <= PIXEL_MAX
    }

    /// Projects a tile coordinate to the screen position of its cell.
    pub fn to_screen(&self, p: Point) -> (r: Point)
        requires
            self.bounded(),
            0 <= p.x <= TILE_COORD_MAX,
            0 <= p.y <= TILE_COORD_MAX,
        ensures
            r.x == self.origin.x + tile_screen_x(p),
            r.y == self.origin.y + tile_screen_y(p),
            -PIXEL_MAX - 0x400000 <= r.x <= PIXEL_MAX + 0x400000,
            -PIXEL_MAX - 0x400000 <= r.y <= PIXEL_MAX + 0x400000,
    {
        let sx: i64 = self.origin.x as i64 + 48 * ((p.x as i64) / 2) + 32 * ((p.x as i64) % 2)
            + 16 * (p.y as i64);
        let sy: i64 = self.origin.y as i64 + 12 * (p.y as i64) - 12 * ((p.x as i64) / 2);
        Point { x: sx as i32, y: sy as i32 }
    }

    /// The rectangle of tile coordinates the renderer scans for a screen
    /// rectangle: wide enough to cover every tile whose cell can reach
    /// into it, given the fixed margins the callers add.
    pub fn from_screen_rect(&self, r: Rect) -> (out: Rect)
        requires
            self.bounded(),
            -0x2000000 <= r.left <= 0x2000000,
            -0x2000000 <= r.top <= 0x2000000,
            -0x2000000 <= r.right <= 0x2000000,
            -0x2000000 <= r.bottom <= 0x2000000,
        ensures
            out.left == 2 * hex_rect_h_lo(*self, r),
            out.right == 2 * hex_rect_h_hi(*self, r) + 2,
            out.top == (r.top - self.origin.y + 12 * hex_rect_h_lo(*self, r)) / 12 - 1,
            out.bottom == (r.bottom - self.origin.y + 12 * hex_rect_h_hi(*self, r)) / 12 + 2,
    {
        let sl: i64 = r.left as i64 - self.origin.x as i64;
        let st: i64 = r.top as i64 - self.origin.y as i64;
        let sr: i64 = r.right as i64 - self.origin.x as i64;
        let sb: i64 = r.bottom as i64 - self.origin.y as i64;
        let h_lo: i64 = floor_div(3 * sl - 4 * sb, 192) - 1;
        let h_hi: i64 = floor_div(3 * sr - 4 * st, 192) + 1;
        let top: i64 = floor_div(st + 12 * h_lo, 12) - 1;
        let bottom: i64 = floor_div(sb + 12 * h_hi, 12) + 2;
        Rect {
            left: (2 * h_lo) as i32,
            top: top as i32,
            right: (2 * h_hi + 2) as i32,
            bottom: bottom as i32,
        }
    }
}

/// Leftmost half-column scanned for a screen rectangle.
pub open spec fn hex_rect_h_lo(v: Camera, r: Rect) -> int {
    (3 * (r.left - v.origin.x) - 4 * (r.bottom - v.origin.y)) / 192 - 1
}

/// Rightmost half-column scanned for a screen rectangle.
pub open spec fn hex_rect_h_hi(v: Camera, r: Rect) -> int {
    (3 * (r.right - v.origin.x) - 4 * (r.top - v.origin.y)) / 192 + 1
}

/// Division rounding toward minus infinity, as the specification-level
/// `/` does on `int`.
fn floor_div(a: i64, b: i64) -> (r: i64)
    requires
        1 <= b <= 0x10000,
        -0x1000_0000_0000 <= a <= 0x1000_0000_0000,
    ensures
        r == a as int / b as int,
{
    let k: i64 = 0x2000_0000_0000;
    let shifted: i64 = a + b * k;
    assert(shifted >= 0) by (nonlinear_arith)
        requires
            1 <= b <= 0x10000,
            -0x1000_0000_0000 <= a,
            k == 0x2000_0000_0000,
            shifted == a + b * k,
    ;
    assert(shifted / b == a as int / b as int + k) by (nonlinear_arith)
        requires
            1 <= b,
            shifted == a + b * k,
    ;
    shifted / b - k
}

proof fn lemma_go_none_persists(g: TileGrid, p: Point, d: Direction, m: nat, n: nat)
    requires
        g.spec_go(p, d, m) is None,
        m <= n,
    ensures
        g.spec_go(p, d, n) is None,
    decreases n,
{
    if n > m {
        lemma_go_none_persists(g, p, d, m, (n - 1) as nat);
    }
}

} // verus!
