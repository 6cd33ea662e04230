//! Grid coordinates, adjacency and Euclidean distance in fixed point.
use vstd::prelude::*;
use rand::Rng;

verus! {

/// The width of the world grid, in cells.
pub const GRID_WIDTH: i32 = 64;

/// The height of the world grid, in cells.
pub const GRID_HEIGHT: i32 = 64;

/// Distances and path costs are counted in thousandths of a cell.
pub const COST_SCALE: u64 = 1000;

/// `r` is the square root of `n`, rounded down.
pub open spec fn is_floor_sqrt(n: int, r: int) -> bool {
    0 <= r && r * r <= n && n < (r + 1) * (r + 1)
}

/// The squared Euclidean distance between two cells, in whole cells.
pub open spec fn dist_sq(x1: int, y1: int, x2: int, y2: int) -> int {
    (x2 - x1) * (x2 - x1) + (y2 - y1) * (y2 - y1)
}

/// The Euclidean distance between two cells, in thousandths of a cell,
/// rounded down, is `d`.
pub open spec fn is_scaled_distance(x1: int, y1: int, x2: int, y2: int, d: int) -> bool {
    is_floor_sqrt(COST_SCALE * COST_SCALE * dist_sq(x1, y1, x2, y2), d)
}

proof fn lemma_square_below(a: int, b: int)
    requires
        0 <= a < b,
    ensures
        a * a < b * b,
{
    assert(a * a < b * b) by (nonlinear_arith)
        requires
            0 <= a < b,
    ;
}

proof fn lemma_square_at_most(a: int, b: int)
    requires
        0 <= a <= b,
    ensures
        a * a <= b * b,
{
    assert(a * a <= b * b) by (nonlinear_arith)
        requires
            0 <= a <= b,
    ;
}

/// Two cells at most one apart on each axis are at most 1414 thousandths of
/// a cell apart.
pub proof fn lemma_step_distance(x1: int, y1: int, x2: int, y2: int, r: int)
    requires
        -1 <= x2 - x1 <= 1,
        -1 <= y2 - y1 <= 1,
        is_scaled_distance(x1, y1, x2, y2, r),
    ensures
        r <= 1414,
{
    let dx = x2 - x1;
    let dy = y2 - y1;
    assert(dist_sq(x1, y1, x2, y2) <= 2) by (nonlinear_arith)
        requires
            -1 <= dx <= 1,
            -1 <= dy <= 1,
            dx == x2 - x1,
            dy == y2 - y1,
    ;
    let n = COST_SCALE * COST_SCALE * dist_sq(x1, y1, x2, y2);
    assert(COST_SCALE * COST_SCALE == 1_000_000);
    let ds = dist_sq(x1, y1, x2, y2);
    assert(n <= 2_000_000) by (nonlinear_arith)
        requires
            n == 1_000_000 * ds,
            ds <= 2,
    ;
    if r > 1414 {
        lemma_square_at_most(1415, r);
        assert(1415 * 1415 == 2_002_225);
        assert(r * r <= n);
    }
}

/// The Euclidean distance between two cells in thousandths of a cell,
/// rounded down.
pub open spec fn scaled_dist(a: GridPosition, b: GridPosition) -> int {
    choose|r: int| is_scaled_distance(a.x as int, a.y as int, b.x as int, b.y as int, r)
}

proof fn lemma_floor_sqrt_unique(n: int, r1: int, r2: int)
    requires
        is_floor_sqrt(n, r1),
        is_floor_sqrt(n, r2),
    ensures
        r1 == r2,
{
    if r1 < r2 {
        lemma_square_at_most(r1 + 1, r2);
    } else if r2 < r1 {
        lemma_square_at_most(r2 + 1, r1);
    }
}

/// Integer square root, rounded down, by bisection.
pub fn isqrt(n: u128) -> (r: u64)
    requires
        n < 0x1_0000_0000_0000_0000_0000_0000u128,
    ensures
        is_floor_sqrt(n as int, r as int),
        r < 0x1_0000_0000_0000u64,
{
    let mut lo: u128 = 0;
    let mut hi: u128 = 0x1_0000_0000_0000u128;
    proof {
        assert(hi * hi == 0x1_0000_0000_0000_0000_0000_0000u128);
    }
    while hi - lo > 1
        invariant
            lo < hi <= 0x1_0000_0000_0000u128,
            lo * lo <= n,
            n < hi * hi,
        decreases hi - lo,
    {
        let mid: u128 = lo + (hi - lo) / 2;
        proof {
            lemma_square_below(mid as int, 0x1_0000_0000_0000int);
            assert(0x1_0000_0000_0000int * 0x1_0000_0000_0000int
                == 0x1_0000_0000_0000_0000_0000_0000int);
        }
        if mid * mid <= n {
            lo = mid;
        } else {
            hi = mid;
        }
    }
    assert(hi == lo + 1);
    lo as u64
}

/// A cell of the world grid.
#[derive(Clone, Copy, Debug, PartialEq, Eq, Structural, Hash)]
pub struct GridPosition {
    pub x: i32,
    pub y: i32,
}

/// `p` lies on the world grid.
pub open spec fn in_grid(p: GridPosition) -> bool {
    0 <= p.x < GRID_WIDTH && 0 <= p.y < GRID_HEIGHT
}

/// Relies on rand's `thread_rng` and `Rng::gen_range`: a number drawn from
/// `0..bound`, which must not be empty.
#[verifier::external_body]
fn random_below(bound: i32) -> (r: i32)
    requires
        bound > 0,
    ensures
        0 <= r < bound,
{
    rand::thread_rng().gen_range(0..bound)
}

/// A cell of the world grid, drawn at random.
pub fn get_random_position() -> (r: GridPosition)
    ensures
        in_grid(r),
{
    GridPosition { x: random_below(GRID_WIDTH), y: random_below(GRID_HEIGHT) }
}

/// Two different cells that touch by a side or a corner.
pub open spec fn adjacent(a: GridPosition, b: GridPosition) -> bool {
    let dx = a.x - b.x;
    let dy = a.y - b.y;
    -1 <= dx <= 1 && -1 <= dy <= 1 && !(dx == 0 && dy == 0)
}

/// The eight neighbours of `p`, sides first, then corners, each group in
/// order of increasing `x` and then `y`.
pub open spec fn ordered_neighbors(p: GridPosition) -> Seq<GridPosition> {
    seq![
        GridPosition { x: (p.x - 1) as i32, y: p.y },
        GridPosition { x: p.x, y: (p.y - 1) as i32 },
        GridPosition { x: p.x, y: (p.y + 1) as i32 },
        GridPosition { x: (p.x + 1) as i32, y: p.y },
        GridPosition { x: (p.x - 1) as i32, y: (p.y - 1) as i32 },
        GridPosition { x: (p.x - 1) as i32, y: (p.y + 1) as i32 },
        GridPosition { x: (p.x + 1) as i32, y: (p.y - 1) as i32 },
        GridPosition { x: (p.x + 1) as i32, y: (p.y + 1) as i32 },
    ]
}

/// A cell whose eight neighbours all have coordinates that fit in `i32`.
pub open spec fn is_interior(p: GridPosition) -> bool {
    i32::MIN < p.x < i32::MAX && i32::MIN < p.y < i32::MAX
}

fn abs_diff(a: i32, b: i32) -> (r: u128)
    ensures
        r == if a >= b { a - b } else { b - a },
        r <= 0x1_0000_0000u128,
{
    let d: i64 = a as i64 - b as i64;
    if d >= 0 {
        d as u128
    } else {
        (-d) as u128
    }
}

impl GridPosition {
    /// Euclidean distance to `reference`, in thousandths of a cell, rounded
    /// down.
    pub fn calc_distance(&self, reference: &GridPosition) -> (r: u64)
        ensures
            is_scaled_distance(self.x as int, self.y as int, reference.x as int, reference.y as int, r as int),
            r == scaled_dist(*self, *reference),
            r < 0x1_0000_0000_0000u64,
    {
        let dx = abs_diff(reference.x, self.x);
        let dy = abs_diff(reference.y, self.y);
        proof {
            lemma_square_at_most(dx as int, 0x1_0000_0000int);
            lemma_square_at_most(dy as int, 0x1_0000_0000int);
            assert(dx * dx == (reference.x - self.x) * (reference.x - self.x)) by (nonlinear_arith)
                requires
                    dx == if reference.x >= self.x { reference.x - self.x } else { self.x - reference.x },
            ;
            assert(dy * dy == (reference.y - self.y) * (reference.y - self.y)) by (nonlinear_arith)
                requires
                    dy == if reference.y >= self.y { reference.y - self.y } else { self.y - reference.y },
            ;
        }
        let sq: u128 = dx * dx + dy * dy;
        proof {
            assert(1_000_000 * sq <= 1_000_000 * 0x2_0000_0000_0000_0000int) by (nonlinear_arith)
                requires
                    sq <= 0x2_0000_0000_0000_0000int,
            ;
        }
        let scaled: u128 = 1_000_000u128 * sq;
        assert(COST_SCALE * COST_SCALE == 1_000_000);
        let r = isqrt(scaled);
        proof {
            let x1 = self.x as int;
            let y1 = self.y as int;
            let x2 = reference.x as int;
            let y2 = reference.y as int;
            let c = scaled_dist(*self, *reference);
            assert(is_scaled_distance(x1, y1, x2, y2, r as int));
            assert(is_scaled_distance(x1, y1, x2, y2, c));
            lemma_floor_sqrt_unique(COST_SCALE * COST_SCALE * dist_sq(x1, y1, x2, y2), r as int, c);
        }
        r
    }

    /// Whether `reference` is one of the eight cells around `self`.
    pub fn is_adjacent(&self, reference: &GridPosition) -> (r: bool)
        ensures
            r == adjacent(*self, *reference),
    {
        let dx = abs_diff(self.x, reference.x);
        let dy = abs_diff(self.y, reference.y);
        dx <= 1 && dy <= 1 && !(dx == 0 && dy == 0)
    }

    /// The eight cells around `reference`, nearest first: the four that share
    /// a side, then the four that share a corner.
    pub fn get_ordered_neighbors(&self, reference: &GridPosition) -> (r: Vec<GridPosition>)
        requires
            is_interior(*reference),
        ensures
            r@ == ordered_neighbors(*reference),
    {
        let x = reference.x;
        let y = reference.y;
        let mut neighbors: Vec<GridPosition> = Vec::new();
        neighbors.push(GridPosition { x: x - 1, y });
        neighbors.push(GridPosition { x, y: y - 1 });
        neighbors.push(GridPosition { x, y: y + 1 });
        neighbors.push(GridPosition { x: x + 1, y });
        neighbors.push(GridPosition { x: x - 1, y: y - 1 });
        neighbors.push(GridPosition { x: x - 1, y: y + 1 });
        neighbors.push(GridPosition { x: x + 1, y: y - 1 });
        neighbors.push(GridPosition { x: x + 1, y: y + 1 });
        assert(neighbors@ =~= ordered_neighbors(*reference));
        neighbors
    }
}

} // verus!
