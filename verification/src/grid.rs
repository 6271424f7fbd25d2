//! Tile grid model: positions, distance metrics, bounds checks and the
//! static tile classification used to build occupancy sets.

use vstd::prelude::*;

verus! {

use vstd::arithmetic::mul::lemma_mul_upper_bound;

/// Pushing onto a sequence adds exactly one member.
pub(crate) proof fn lemma_push_contains<A>(s: Seq<A>, x: A, p: A)
    ensures
        s.push(x).contains(p) <==> (s.contains(p) || p == x),
{
    if s.push(x).contains(p) {
        let i = choose|i: int| 0 <= i < s.push(x).len() && s.push(x)[i] == p;
        if i < s.len() {
            assert(s[i] == p);
        }
    }
    if s.contains(p) {
        let i = choose|i: int| 0 <= i < s.len() && s[i] == p;
        assert(s.push(x)[i] == p);
    }
    assert(s.push(x)[s.len() as int] == x);
}

/// A position on the tile grid: column, then row. Both are zero-based.
#[derive(PartialEq, Eq, Structural, Clone, Copy, Debug)]
pub struct TilePos(pub u32, pub u32);

/// Absolute difference of two integers.
pub open spec fn abs_diff(a: int, b: int) -> int {
    if a >= b {
        a - b
    } else {
        b - a
    }
}

/// Manhattan distance between two grid positions. All gameplay range
/// checks (attack adjacency, movement budgets) use this metric.
pub open spec fn tile_dist(a: TilePos, b: TilePos) -> int {
    abs_diff(a.0 as int, b.0 as int) + abs_diff(a.1 as int, b.1 as int)
}

/// Manhattan distance, |dx| + |dy|.
pub fn tile_distance(a: &TilePos, b: &TilePos) -> (r: u64)
    ensures
        r as int == tile_dist(*a, *b),
{
    let dx: u64 = if a.0 >= b.0 {
        (a.0 - b.0) as u64
    } else {
        (b.0 - a.0) as u64
    };
    let dy: u64 = if a.1 >= b.1 {
        (a.1 - b.1) as u64
    } else {
        (b.1 - a.1) as u64
    };
    dx + dy
}

/// The Manhattan metric is symmetric and zero exactly on the diagonal.
pub proof fn lemma_tile_distance_metric(a: TilePos, b: TilePos)
    ensures
        tile_dist(a, b) == tile_dist(b, a),
        tile_dist(a, a) == 0,
        tile_dist(a, b) >= 0,
        tile_dist(a, b) == 0 ==> a == b,
{
}

/// Squared straight-line distance between two grid positions.
pub open spec fn euclid_sq(a: TilePos, b: TilePos) -> int {
    abs_diff(a.0 as int, b.0 as int) * abs_diff(a.0 as int, b.0 as int) + abs_diff(
        a.1 as int,
        b.1 as int,
    ) * abs_diff(a.1 as int, b.1 as int)
}

/// Squared Euclidean distance between two grid positions. It is used
/// only to break ties among equally valid adjacent tiles (choosing
/// which side of a target to stand on), never for grid traversal, so
/// the square root is never needed and the comparison stays exact.
pub fn euclidean_distance_sq(a: &TilePos, b: &TilePos) -> (r: u128)
    ensures
        r as int == euclid_sq(*a, *b),
{
    let dx: u64 = if a.0 >= b.0 {
        (a.0 - b.0) as u64
    } else {
        (b.0 - a.0) as u64
    };
    let dy: u64 = if a.1 >= b.1 {
        (a.1 - b.1) as u64
    } else {
        (b.1 - a.1) as u64
    };
    proof {
        lemma_mul_upper_bound(dx as int, u32::MAX as int, dx as int, u32::MAX as int);
        lemma_mul_upper_bound(dy as int, u32::MAX as int, dy as int, u32::MAX as int);
    }
    (dx as u128) * (dx as u128) + (dy as u128) * (dy as u128)
}

/// The tile an attacker should step to before striking: of the four
/// tiles adjacent to the target, a valid one nearest to the attacker's
/// origin by straight-line distance. Ties go to the later tile in the
/// fixed east, west, north, south order; tiles that would leave the
/// coordinate range are skipped.
pub fn closest_adjacent_tile(target: &TilePos, origin: &TilePos) -> (r: TilePos)
    ensures
        tile_dist(r, *target) == 1,
        target.0 < u32::MAX ==> euclid_sq(r, *origin) <= euclid_sq(
            TilePos((target.0 + 1) as u32, target.1),
            *origin,
        ),
        target.0 > 0 ==> euclid_sq(r, *origin) <= euclid_sq(
            TilePos((target.0 - 1) as u32, target.1),
            *origin,
        ),
        target.1 < u32::MAX ==> euclid_sq(r, *origin) <= euclid_sq(
            TilePos(target.0, (target.1 + 1) as u32),
            *origin,
        ),
        target.1 > 0 ==> euclid_sq(r, *origin) <= euclid_sq(
            TilePos(target.0, (target.1 - 1) as u32),
            *origin,
        ),
{
    let mut best: Option<(TilePos, u128)> = None;
    if target.0 < u32::MAX {
        let c = TilePos(target.0 + 1, target.1);
        let d = euclidean_distance_sq(&c, origin);
        best = Some((c, d));
    }
    if target.0 > 0 {
        let c = TilePos(target.0 - 1, target.1);
        let d = euclidean_distance_sq(&c, origin);
        best = match best {
            Some(b) if d > b.1 => Some(b),
            _ => Some((c, d)),
        };
    }
    if target.1 < u32::MAX {
        let c = TilePos(target.0, target.1 + 1);
        let d = euclidean_distance_sq(&c, origin);
        best = match best {
            Some(b) if d > b.1 => Some(b),
            _ => Some((c, d)),
        };
    }
    if target.1 > 0 {
        let c = TilePos(target.0, target.1 - 1);
        let d = euclidean_distance_sq(&c, origin);
        best = match best {
            Some(b) if d > b.1 => Some(b),
            _ => Some((c, d)),
        };
    }
    match best {
        Some(b) => b.0,
        None => vstd::pervasive::unreached(),
    }
}

/// Interior bound check used by the pathfinder. The boundary column
/// x == 0 and the two boundary rows y <= 1 are deliberately excluded,
/// as is everything at or past the map dimensions: the maps this engine
/// was built for keep their outermost tiles non-walkable.
pub open spec fn on_map_spec(p: TilePos, dim: (u32, u32)) -> bool {
    0 < p.0 < dim.0 && 1 < p.1 < dim.1
}

impl TilePos {
    /// Whether the position lies in the walkable interior of a map with
    /// the given (width, height) in tiles.
    pub fn is_on_map(&self, dim: (u32, u32)) -> (r: bool)
        ensures
            r == on_map_spec(*self, dim),
    {
        0 < self.0 && self.0 < dim.0 && 1 < self.1 && self.1 < dim.1
    }
}

/// Static classification of a tile, fixed for the whole round.
/// `Floor` is walkable and may hold a combatant; `Open` is walkable
/// terrain with no special property; `Wall` is impassable.
#[derive(PartialEq, Eq, Structural, Clone, Copy, Debug)]
pub enum TileKind {
    Floor,
    Open,
    Wall,
}

impl Default for TileKind {
    fn default() -> (r: Self)
        ensures
            r == TileKind::Floor,
    {
        TileKind::Floor
    }
}

impl TileKind {
    /// The classification a level file's integer cell stands for;
    /// unknown values fall back to plain floor.
    pub fn from_cell_value(value: i32) -> (r: TileKind)
        ensures
            value == 1 ==> r == TileKind::Open,
            value == 2 ==> r == TileKind::Wall,
            value != 1 && value != 2 ==> r == TileKind::Floor,
    {
        if value == 1 {
            TileKind::Open
        } else if value == 2 {
            TileKind::Wall
        } else {
            TileKind::Floor
        }
    }
}

/// A rectangular grid of classified tiles, stored row by row.
pub struct TileGrid {
    pub width: u32,
    pub height: u32,
    pub tiles: Vec<TileKind>,
}

impl TileGrid {
    /// The grid holds exactly one classification per tile.
    pub open spec fn wf(self) -> bool {
        self.tiles@.len() == self.width as int * self.height as int
    }

    /// The classification of the tile in column x, row y.
    pub open spec fn kind_at_spec(self, x: int, y: int) -> TileKind {
        self.tiles@[y * self.width as int + x]
    }

    pub open spec fn dims_spec(self) -> (u32, u32) {
        (self.width, self.height)
    }

    /// Builds a grid from row-major tile data; rejects data whose
    /// length does not match the dimensions.
    pub fn new(width: u32, height: u32, tiles: Vec<TileKind>) -> (r: Option<TileGrid>)
        ensures
            match r {
                Some(g) => g.wf() && g.width == width && g.height == height && g.tiles@
                    == tiles@,
                None => tiles@.len() != width as int * height as int,
            },
    {
        proof {
            lemma_mul_upper_bound(width as int, u32::MAX as int, height as int, u32::MAX as int);
        }
        let expect: u64 = (width as u64) * (height as u64);
        if tiles.len() as u64 == expect {
            Some(TileGrid { width, height, tiles })
        } else {
            None
        }
    }

    /// Map dimensions as (width, height).
    pub fn dims(&self) -> (r: (u32, u32))
        ensures
            r == self.dims_spec(),
    {
        (self.width, self.height)
    }

    /// Reads one tile's classification.
    pub fn kind_at(&self, x: u32, y: u32) -> (r: TileKind)
        requires
            self.wf(),
            x < self.width,
            y < self.height,
        ensures
            r == self.kind_at_spec(x as int, y as int),
    {
        let n: usize = self.tiles.len();
        proof {
            lemma_row_major_index(self.width as int, self.height as int, x as int, y as int);
            assert(y as int * self.width as int + x <= n);
        }
        let idx: usize = (y as usize) * (self.width as usize) + (x as usize);
        self.tiles[idx]
    }

    /// Collects every position whose tile is not `Floor`: the static
    /// blockers that seed an occupancy set.
    pub fn non_floor_positions(&self) -> (r: Vec<TilePos>)
        requires
            self.wf(),
        ensures
            forall|p: TilePos|
                r@.contains(p) <==> (p.0 < self.width && p.1 < self.height && self.kind_at_spec(
                    p.0 as int,
                    p.1 as int,
                ) != TileKind::Floor),
    {
        let mut out: Vec<TilePos> = Vec::new();
        let mut y: u32 = 0;
        while y < self.height
            invariant
                self.wf(),
                y <= self.height,
                forall|p: TilePos|
                    out@.contains(p) <==> (p.0 < self.width && p.1 < y && self.kind_at_spec(
                        p.0 as int,
                        p.1 as int,
                    ) != TileKind::Floor),
            decreases self.height - y,
        {
            let mut x: u32 = 0;
            while x < self.width
                invariant
                    self.wf(),
                    y < self.height,
                    x <= self.width,
                    forall|p: TilePos|
                        out@.contains(p) <==> ((p.0 < self.width && p.1 < y
                            && self.kind_at_spec(p.0 as int, p.1 as int) != TileKind::Floor) || (
                        p.1 == y && p.0 < x && self.kind_at_spec(p.0 as int, p.1 as int)
                            != TileKind::Floor)),
                decreases self.width - x,
            {
                let ghost pre = out@;
                let nonfloor: bool = !matches!(self.kind_at(x, y), TileKind::Floor);
                if nonfloor {
                    out.push(TilePos(x, y));
                }
                proof {
                    assert forall|p: TilePos|
                        out@.contains(p) <==> ((p.0 < self.width && p.1 < y
                            && self.kind_at_spec(p.0 as int, p.1 as int) != TileKind::Floor) || (
                        p.1 == y && p.0 < x + 1 && self.kind_at_spec(p.0 as int, p.1 as int)
                            != TileKind::Floor)) by {
                        if nonfloor {
                            lemma_push_contains(pre, TilePos(x, y), p);
                        }
                        if p.1 == y && p.0 == x {
                            assert(p == TilePos(x, y));
                        }
                    }
                }
                x = x + 1;
            }
            y = y + 1;
        }
        out
    }
}

/// The tiles a combatant may choose as a destination this turn: every
/// floor tile of the grid strictly within its movement range that no
/// other combatant holds or has already claimed. The walk itself is
/// not planned here; the range is the Manhattan ball of radius one
/// less than the movement speed, origin included only when it is not
/// among the excluded tiles.
pub fn move_range_tiles(
    origin: &TilePos,
    max_move_distance: u32,
    grid: &TileGrid,
    excluded: &Vec<TilePos>,
) -> (r: Vec<TilePos>)
    requires
        grid.wf(),
    ensures
        forall|p: TilePos|
            r@.contains(p) <==> (tile_dist(p, *origin) <= max_move_distance - 1 && p.0
                < grid.width && p.1 < grid.height && grid.kind_at_spec(p.0 as int, p.1 as int)
                == TileKind::Floor && !excluded@.contains(p)),
{
    let mut out: Vec<TilePos> = Vec::new();
    let mut y: u32 = 0;
    while y < grid.height
        invariant
            grid.wf(),
            y <= grid.height,
            forall|p: TilePos|
                out@.contains(p) <==> (tile_dist(p, *origin) <= max_move_distance - 1 && p.0
                    < grid.width && p.1 < y && grid.kind_at_spec(p.0 as int, p.1 as int)
                    == TileKind::Floor && !excluded@.contains(p)),
        decreases grid.height - y,
    {
        let mut x: u32 = 0;
        while x < grid.width
            invariant
                grid.wf(),
                y < grid.height,
                x <= grid.width,
                forall|p: TilePos|
                    out@.contains(p) <==> ((tile_dist(p, *origin) <= max_move_distance - 1 && p.0
                        < grid.width && p.1 < y && grid.kind_at_spec(p.0 as int, p.1 as int)
                        == TileKind::Floor && !excluded@.contains(p)) || (tile_dist(p, *origin)
                        <= max_move_distance - 1 && p.1 == y && p.0 < x && grid.kind_at_spec(
                        p.0 as int,
                        p.1 as int,
                    ) == TileKind::Floor && !excluded@.contains(p))),
            decreases grid.width - x,
        {
            let here = TilePos(x, y);
            let ghost pre = out@;
            let in_range = max_move_distance > 0 && tile_distance(&here, origin)
                <= (max_move_distance - 1) as u64;
            let take: bool = in_range && matches!(grid.kind_at(x, y), TileKind::Floor)
                && !crate::pathfind::contains_pos(excluded, &here);
            if take {
                out.push(here);
            }
            proof {
                assert forall|p: TilePos|
                    out@.contains(p) <==> ((tile_dist(p, *origin) <= max_move_distance - 1 && p.0
                        < grid.width && p.1 < y && grid.kind_at_spec(p.0 as int, p.1 as int)
                        == TileKind::Floor && !excluded@.contains(p)) || (tile_dist(p, *origin)
                        <= max_move_distance - 1 && p.1 == y && p.0 < x + 1 && grid.kind_at_spec(
                        p.0 as int,
                        p.1 as int,
                    ) == TileKind::Floor && !excluded@.contains(p))) by {
                    if take {
                        lemma_push_contains(pre, here, p);
                    }
                    if p.1 == y && p.0 == x {
                        assert(p == here);
                    }
                }
            }
            x = x + 1;
        }
        y = y + 1;
    }
    out
}

/// Row-major indexing stays inside the tile buffer.
#[verifier::nonlinear]
proof fn lemma_row_major_index(w: int, h: int, x: int, y: int)
    requires
        0 <= x < w,
        0 <= y < h,
    ensures
        0 <= y * w + x < w * h,
{
}

} // verus!
