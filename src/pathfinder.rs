//! Incremental A* search over the 8-connected grid: each call of `step`
//! expands at most one node, so many searches can share a tick.
use vstd::prelude::*;
use crate::grid::{GRID_HEIGHT, GRID_WIDTH, GridPosition, adjacent, in_grid, is_scaled_distance, lemma_step_distance, scaled_dist};
use crate::spatial_index::{SpatialIndex, CellSet, nearby_cells};
use crate::tile::traversable;

verus! {

/// The number of expansions after which a search stops with the path to the
/// node it reached.
pub const PATHFINDER_MAX_DEPTH: usize = 100;

/// No step between neighbouring cells costs more than this.
pub const MAX_STEP_COST: u64 = 1415;

/// A search node: its cell, its cost so far `g`, its estimate `h` of the cost
/// left, their sum `f`, and the closed-list index of the node it was reached
/// from.
#[derive(Clone, Copy, Debug, PartialEq, Eq, Structural)]
pub struct PathNode {
    pub position: GridPosition,
    pub g: u64,
    pub h: u64,
    pub f: u64,
    pub parent: Option<usize>,
}

pub enum PathfinderStatus {
    /// Searching; the number of nodes expanded so far.
    Calculating(usize),
    /// Done; the path found, empty when there is none.
    Finished(Vec<GridPosition>),
}

pub struct Pathfinder {
    pub goal: GridPosition,
    /// Expanded nodes, append-only; parents are indices into it.
    pub closed_list: Vec<PathNode>,
    /// Frontier nodes, in order of discovery.
    pub open_list: Vec<PathNode>,
    pub status: PathfinderStatus,
}

/// The cells from the start (excluded) to closed node `i` (included), found
/// by following parent indices.
pub open spec fn chain(closed: Seq<PathNode>, i: int) -> Seq<GridPosition>
    decreases i,
{
    if 0 <= i < closed.len() {
        match closed[i].parent {
            Some(p) => if p < i {
                chain(closed, p as int).push(closed[i].position)
            } else {
                Seq::empty()
            },
            None => Seq::empty(),
        }
    } else {
        Seq::empty()
    }
}

/// The path from the start (excluded) to node `n` (included).
pub open spec fn node_path(closed: Seq<PathNode>, n: PathNode) -> Seq<GridPosition> {
    match n.parent {
        Some(p) => if p < closed.len() {
            chain(closed, p as int).push(n.position)
        } else {
            Seq::empty()
        },
        None => Seq::empty(),
    }
}

/// `i` is the first node of `s` with the smallest total estimate.
pub open spec fn is_first_min(s: Seq<PathNode>, i: int) -> bool {
    &&& 0 <= i < s.len()
    &&& forall|j: int| 0 <= j < s.len() ==> s[i].f <= #[trigger] s[j].f
    &&& forall|j: int| 0 <= j < i ==> #[trigger] s[j].f > s[i].f
}

/// The node that the next expansion takes from the open list `s`.
pub open spec fn selected(s: Seq<PathNode>) -> int {
    choose|i: int| is_first_min(s, i)
}

proof fn lemma_first_min_unique(s: Seq<PathNode>, i: int)
    requires
        is_first_min(s, i),
    ensures
        selected(s) == i,
{
    let k = selected(s);
    assert(is_first_min(s, k));
    if k < i {
        assert(s[k].f > s[i].f);
    } else if i < k {
        assert(s[i].f > s[k].f);
    }
}

/// A step from `a` to `b` that an agent may take: the cells touch, both are
/// registered, `b` lies on the grid, and the tile of `b` may be entered from
/// that of `a`.
pub open spec fn step_allowed(index: &SpatialIndex, a: GridPosition, b: GridPosition) -> bool {
    &&& adjacent(a, b)
    &&& in_grid(b)
    &&& index.lookup(a) is Some
    &&& index.lookup(b) is Some
    &&& traversable(index.lookup(a).unwrap(), index.lookup(b).unwrap())
}

/// `path` can be walked from `start`, each cell one allowed step after the
/// one before.
#[verifier::opaque]
pub open spec fn is_walk(index: &SpatialIndex, start: GridPosition, path: Seq<GridPosition>) -> bool {
    forall|i: int|
        #![trigger path[i]]
        0 <= i < path.len() ==> step_allowed(
            index,
            if i == 0 {
                start
            } else {
                path[i - 1]
            },
            path[i],
        )
}

/// No cell is expanded twice, no cell is both expanded and open, and no cell
/// is open twice.
pub open spec fn positions_distinct(closed: Seq<PathNode>, open: Seq<PathNode>) -> bool {
    &&& forall|i: int, j: int|
        0 <= i < j < closed.len() ==> (#[trigger] closed[i]).position != (#[trigger] closed[j]).position
    &&& forall|k: int, i: int|
        0 <= k < open.len() && 0 <= i < closed.len() ==> (#[trigger] open[k]).position != (
        #[trigger] closed[i]).position
    &&& forall|k1: int, k2: int|
        0 <= k1 < k2 < open.len() ==> (#[trigger] open[k1]).position != (#[trigger] open[k2]).position
}

/// Parent links of the closed list point backwards, only the first node has
/// none, and costs stay within one maximal step per expansion.
pub open spec fn closed_wf(closed: Seq<PathNode>) -> bool {
    forall|i: int|
        0 <= i < closed.len() ==> {
            &&& (#[trigger] closed[i]).parent.is_some() ==> closed[i].parent.unwrap() < i
            &&& closed[i].parent.is_none() ==> i == 0
            &&& closed[i].g <= i * MAX_STEP_COST
            &&& closed[i].h < 0x1_0000_0000_0000
        }
}

pub open spec fn open_wf(open: Seq<PathNode>, n_closed: int) -> bool {
    forall|k: int|
        0 <= k < open.len() ==> {
            &&& (#[trigger] open[k]).parent.is_some() ==> open[k].parent.unwrap() < n_closed
            &&& open[k].parent.is_none() ==> n_closed == 0
            &&& open[k].g <= n_closed * MAX_STEP_COST
            &&& open[k].h < 0x1_0000_0000_0000
        }
}

/// Each node reached from a closed node costs that node's `g` plus the
/// distance of the step between them.
pub open spec fn costs_ok(closed: Seq<PathNode>, nodes: Seq<PathNode>) -> bool {
    forall|k: int|
        0 <= k < nodes.len() && (#[trigger] nodes[k]).parent is Some && nodes[k].parent.unwrap()
            < closed.len() ==> nodes[k].g == closed[nodes[k].parent.unwrap() as int].g
            + scaled_dist(closed[nodes[k].parent.unwrap() as int].position, nodes[k].position)
}

/// Each node's estimate `h` is its distance to `goal` and its total `f` is
/// `g + h`.
pub open spec fn estimates_ok(nodes: Seq<PathNode>, goal: GridPosition) -> bool {
    forall|k: int|
        0 <= k < nodes.len() ==> {
            &&& (#[trigger] nodes[k]).h == scaled_dist(nodes[k].position, goal)
            &&& nodes[k].f == nodes[k].g + nodes[k].h
        }
}

impl Pathfinder {
    pub open spec fn wf(&self) -> bool {
        match self.status {
            PathfinderStatus::Calculating(d) => {
                &&& d == self.closed_list@.len()
                &&& d <= PATHFINDER_MAX_DEPTH + 1
                &&& d == 0 ==> self.open_list@.len() <= 1
                &&& closed_wf(self.closed_list@)
                &&& open_wf(self.open_list@, d as int)
                &&& positions_distinct(self.closed_list@, self.open_list@)
                &&& estimates_ok(self.closed_list@, self.goal)
                &&& estimates_ok(self.open_list@, self.goal)
                &&& costs_ok(self.closed_list@, self.closed_list@)
                &&& costs_ok(self.closed_list@, self.open_list@)
            },
            PathfinderStatus::Finished(_) => true,
        }
    }

    /// Every node but the start was reached from its parent by an allowed
    /// step over the cells of `index`.
    pub open spec fn within(&self, index: &SpatialIndex) -> bool {
        &&& forall|i: int|
            0 <= i < self.closed_list@.len() && (#[trigger] self.closed_list@[i]).parent is Some
                ==> linked(index, self.closed_list@, self.closed_list@[i])
        &&& forall|k: int|
            0 <= k < self.open_list@.len() && (#[trigger] self.open_list@[k]).parent is Some
                ==> linked(index, self.closed_list@, self.open_list@[k])
    }

    /// No node but the start stands on a cell of `occupied`.
    pub open spec fn avoids(&self, occupied: &CellSet) -> bool {
        &&& forall|i: int|
            0 <= i < self.closed_list@.len() && (#[trigger] self.closed_list@[i]).parent is Some
                ==> !occupied.contains_spec(self.closed_list@[i].position)
        &&& forall|k: int|
            0 <= k < self.open_list@.len() && (#[trigger] self.open_list@[k]).parent is Some
                ==> !occupied.contains_spec(self.open_list@[k].position)
    }

    /// Where the search started.
    pub open spec fn root(&self) -> GridPosition {
        if self.closed_list@.len() > 0 {
            self.closed_list@[0].position
        } else {
            self.open_list@[0].position
        }
    }

    /// The most calls of `step` that may still be needed before the search
    /// is finished, counting both the depth ceiling and the cells of
    /// `index`, each of which is expanded at most once.
    pub open spec fn calls_left(&self, index: &SpatialIndex) -> nat {
        match self.status {
            PathfinderStatus::Calculating(d) => {
                let by_depth = PATHFINDER_MAX_DEPTH + 2 - d;
                let by_cells = index.cell_count() + 2 - d;
                if by_depth <= by_cells {
                    by_depth as nat
                } else {
                    by_cells as nat
                }
            },
            PathfinderStatus::Finished(_) => 0,
        }
    }

    pub open spec fn is_finished(&self) -> bool {
        self.status is Finished
    }

    /// A search from `start` to `goal`, whose open list holds the start node
    /// alone.
    pub fn new(start: &GridPosition, goal: &GridPosition) -> (r: Pathfinder)
        ensures
            r.wf(),
            r.goal == *goal,
            r.status == PathfinderStatus::Calculating(0),
            r.closed_list@.len() == 0,
            r.open_list@.len() == 1,
            r.open_list@[0].position == *start,
            r.open_list@[0].g == 0,
            r.open_list@[0].parent.is_none(),
            is_scaled_distance(start.x as int, start.y as int, goal.x as int, goal.y as int, r.open_list@[0].h as int),
            r.open_list@[0].f == r.open_list@[0].h,
            r.open_list@[0].h == scaled_dist(*start, *goal),
    {
        let h = Pathfinder::calculate_heuristic(start, goal);
        let start_node = PathNode { g: 0, h, f: h, position: *start, parent: None };
        let mut open_list: Vec<PathNode> = Vec::new();
        open_list.push(start_node);
        Pathfinder {
            goal: *goal,
            closed_list: Vec::new(),
            open_list,
            status: PathfinderStatus::Calculating(0),
        }
    }

    /// Euclidean distance between two cells, in thousandths of a cell.
    fn calculate_heuristic(pos1: &GridPosition, pos2: &GridPosition) -> (r: u64)
        ensures
            is_scaled_distance(pos1.x as int, pos1.y as int, pos2.x as int, pos2.y as int, r as int),
            r == scaled_dist(*pos1, *pos2),
            r < 0x1_0000_0000_0000u64,
    {
        pos1.calc_distance(pos2)
    }

    /// Hands out the found path once: `Some` the first time it is asked for
    /// after the search finished, `None` while it is still searching.
    pub fn get_path_if_finished(&mut self) -> (r: Option<Vec<GridPosition>>)
        ensures
            final(self).goal == old(self).goal,
            final(self).closed_list == old(self).closed_list,
            final(self).open_list == old(self).open_list,
            match old(self).status {
                PathfinderStatus::Finished(path) => {
                    &&& r.is_some()
                    &&& r.unwrap()@ == path@
                    &&& final(self).status is Finished
                    &&& final(self).status->Finished_0@.len() == 0
                },
                PathfinderStatus::Calculating(d) => {
                    &&& r.is_none()
                    &&& final(self).status == old(self).status
                },
            },
    {
        if let PathfinderStatus::Finished(_) = self.status {
            let mut taken = PathfinderStatus::Finished(Vec::new());
            std::mem::swap(&mut self.status, &mut taken);
            if let PathfinderStatus::Finished(path) = taken {
                return Some(path);
            }
        }
        None
    }

    /// The cell of the open node that the next expansion takes.
    pub fn get_current_node_position(&self) -> (r: Option<GridPosition>)
        ensures
            r == if self.open_list@.len() > 0 {
                Some(self.open_list@[selected(self.open_list@)].position)
            } else {
                None::<GridPosition>
            },
    {
        if self.open_list.len() > 0 {
            let i = min_f_index(&self.open_list);
            proof {
                lemma_first_min_unique(self.open_list@, i as int);
            }
            Some(self.open_list[i].position)
        } else {
            None
        }
    }
}

/// Expanding `n` may open its neighbour `q`, whose tile is `t`: `q` lies on
/// the grid, no agent stands on `q`, the step from `n`'s tile to `t` is allowed, and `q` was
/// not expanded yet (`closed` holds `n` itself).
pub open spec fn opens(
    index: &SpatialIndex,
    occupied: &CellSet,
    closed: Seq<PathNode>,
    n: PathNode,
    t: crate::tile::TileData,
    q: GridPosition,
) -> bool {
    &&& in_grid(q)
    &&& !occupied.contains_spec(q)
    &&& index.lookup(n.position) is Some
    &&& traversable(index.lookup(n.position).unwrap(), t)
    &&& forall|i: int| 0 <= i < closed.len() ==> (#[trigger] closed[i]).position != q
}

/// After expanding `n` (now last in `closed`) from the open list `rest`
/// (which no longer holds it) the open list is `open`: each neighbour that
/// may be opened is there at a cost no higher than through `n`; no node of
/// `rest` is lost or made dearer; and each node is one of `rest` or was
/// reached through `n`, at exactly the cost of `n` plus the step.
pub open spec fn expanded(
    index: &SpatialIndex,
    occupied: &CellSet,
    closed: Seq<PathNode>,
    n: PathNode,
    rest: Seq<PathNode>,
    open: Seq<PathNode>,
) -> bool {
    let nb = index.nearby(n.position.x as int, n.position.y as int);
    let d = closed.len() - 1;
    &&& forall|i: int|
        #![trigger nb[i]]
        0 <= i < nb.len() && opens(index, occupied, closed, n, nb[i].0, nb[i].1) ==> exists|k: int|
            #![trigger open[k]]
            0 <= k < open.len() && open[k].position == nb[i].1 && open[k].g <= n.g + scaled_dist(
                n.position,
                nb[i].1,
            )
    &&& forall|i: int|
        #![trigger rest[i]]
        0 <= i < rest.len() ==> exists|k: int|
            #![trigger open[k]]
            0 <= k < open.len() && open[k].position == rest[i].position && open[k].g <= rest[i].g
    &&& forall|k: int|
        #![trigger open[k]]
        0 <= k < open.len() ==> rest.contains(open[k]) || {
            &&& open[k].parent == Some(d as usize)
            &&& open[k].g == n.g + scaled_dist(n.position, open[k].position)
            &&& exists|i: int|
                #![trigger nb[i]]
                0 <= i < nb.len() && nb[i].1 == open[k].position && opens(
                    index,
                    occupied,
                    closed,
                    n,
                    nb[i].0,
                    nb[i].1,
                )
        }
}

/// Node `n` was reached from its parent in `closed` by an allowed step.
pub open spec fn linked(index: &SpatialIndex, closed: Seq<PathNode>, n: PathNode) -> bool {
    let p = n.parent.unwrap() as int;
    0 <= p < closed.len() && step_allowed(index, closed[p].position, n.position)
}

/// The cells leading to a closed node end at that node and can be walked
/// from the first closed node.
proof fn lemma_chain_walk(pf: &Pathfinder, index: &SpatialIndex, i: int)
    requires
        closed_wf(pf.closed_list@),
        pf.within(index),
        0 <= i < pf.closed_list@.len(),
    ensures
        is_walk(index, pf.closed_list@[0].position, chain(pf.closed_list@, i)),
        chain(pf.closed_list@, i).len() > 0 ==> chain(pf.closed_list@, i).last()
            == pf.closed_list@[i].position,
        chain(pf.closed_list@, i).len() == 0 ==> i == 0,
    decreases i,
{
    reveal(is_walk);
    let closed = pf.closed_list@;
    match closed[i].parent {
        Some(p) => {
            lemma_chain_walk(pf, index, p as int);
            let prev = chain(closed, p as int);
            let c = chain(closed, i);
            assert(c == prev.push(closed[i].position));
            assert(linked(index, closed, closed[i]));
            assert forall|k: int| 0 <= k < c.len() implies step_allowed(
                index,
                if k == 0 {
                    closed[0].position
                } else {
                    c[k - 1]
                },
                #[trigger] c[k],
            ) by {
                if k < prev.len() {
                    assert(c[k] == prev[k]);
                    if k > 0 {
                        assert(c[k - 1] == prev[k - 1]);
                    }
                }
            }
        },
        None => {},
    }
}

/// The cells leading to closed node `i` are those of distinct closed nodes
/// after the first, none past `i`.
proof fn lemma_chain_distinct(closed: Seq<PathNode>, open: Seq<PathNode>, i: int)
    requires
        closed_wf(closed),
        positions_distinct(closed, open),
        0 <= i < closed.len(),
    ensures
        chain(closed, i).no_duplicates(),
        forall|k: int|
            0 <= k < chain(closed, i).len() ==> exists|j: int|
                1 <= j <= i && closed[j].position == #[trigger] chain(closed, i)[k],
    decreases i,
{
    if let Some(p) = closed[i].parent {
        lemma_chain_distinct(closed, open, p as int);
        let prev = chain(closed, p as int);
        let c = chain(closed, i);
        assert(c == prev.push(closed[i].position));
        assert forall|k: int| 0 <= k < c.len() implies exists|j: int|
            1 <= j <= i && closed[j].position == #[trigger] c[k] by {
            if k < prev.len() {
                assert(c[k] == prev[k]);
            } else {
                assert(c[k] == closed[i].position);
            }
        }
        assert forall|a: int, b: int| 0 <= a < c.len() && 0 <= b < c.len() && a != b implies c[a]
            != c[b] by {
            if a < prev.len() && b < prev.len() {
                assert(c[a] == prev[a] && c[b] == prev[b]);
            } else {
                let k = if a < prev.len() {
                    a
                } else {
                    b
                };
                if k < prev.len() {
                    assert(c[k] == prev[k]);
                    let j = choose|j: int| 1 <= j <= p && closed[j].position == #[trigger] prev[k];
                    assert(closed[j].position != closed[i].position);
                }
            }
        }
    }
}

/// The path to a node taken from the open list repeats no cell and never
/// holds the first closed node's cell.
proof fn lemma_node_path_distinct(closed: Seq<PathNode>, open: Seq<PathNode>, n: PathNode, x: int)
    requires
        closed_wf(closed),
        positions_distinct(closed, open),
        0 <= x < open.len(),
        n == open[x],
        n.parent is Some ==> n.parent.unwrap() < closed.len(),
    ensures
        node_path(closed, n).no_duplicates(),
        closed.len() > 0 ==> !node_path(closed, n).contains(closed[0].position),
{
    if let Some(p) = n.parent {
        lemma_chain_distinct(closed, open, p as int);
        let prev = chain(closed, p as int);
        let c = node_path(closed, n);
        assert(c == prev.push(n.position));
        assert forall|a: int, b: int| 0 <= a < c.len() && 0 <= b < c.len() && a != b implies c[a]
            != c[b] by {
            if a < prev.len() && b < prev.len() {
                assert(c[a] == prev[a] && c[b] == prev[b]);
            } else {
                let k = if a < prev.len() {
                    a
                } else {
                    b
                };
                if k < prev.len() {
                    assert(c[k] == prev[k]);
                    let j = choose|j: int| 1 <= j <= p && closed[j].position == #[trigger] prev[k];
                    assert(open[x].position != closed[j].position);
                }
            }
        }
        if c.contains(closed[0].position) {
            let k = choose|k: int| 0 <= k < c.len() && c[k] == closed[0].position;
            if k < prev.len() {
                assert(c[k] == prev[k]);
                let j = choose|j: int| 1 <= j <= p && closed[j].position == #[trigger] prev[k];
                assert(closed[0].position != closed[j].position);
            } else {
                assert(open[x].position != closed[0].position);
            }
        }
    }
}

/// No cell leading to a closed node lies in `occupied` when the search kept
/// clear of it.
proof fn lemma_chain_avoids(pf: &Pathfinder, occupied: &CellSet, i: int)
    requires
        closed_wf(pf.closed_list@),
        pf.avoids(occupied),
        0 <= i < pf.closed_list@.len(),
    ensures
        forall|k: int|
            0 <= k < chain(pf.closed_list@, i).len() ==> !occupied.contains_spec(
                #[trigger] chain(pf.closed_list@, i)[k],
            ),
    decreases i,
{
    let closed = pf.closed_list@;
    if let Some(p) = closed[i].parent {
        lemma_chain_avoids(pf, occupied, p as int);
        let prev = chain(closed, p as int);
        assert(chain(closed, i) == prev.push(closed[i].position));
        assert forall|k: int| 0 <= k < chain(closed, i).len() implies !occupied.contains_spec(
            #[trigger] chain(closed, i)[k],
        ) by {
            if k < prev.len() {
                assert(chain(closed, i)[k] == prev[k]);
            }
        }
    }
}

/// The path to a node of a search that kept clear of `occupied` avoids it.
proof fn lemma_node_path_avoids(pf: &Pathfinder, occupied: &CellSet, n: PathNode)
    requires
        closed_wf(pf.closed_list@),
        pf.avoids(occupied),
        n.parent is Some ==> !occupied.contains_spec(n.position),
    ensures
        forall|k: int|
            0 <= k < node_path(pf.closed_list@, n).len() ==> !occupied.contains_spec(
                #[trigger] node_path(pf.closed_list@, n)[k],
            ),
{
    let closed = pf.closed_list@;
    if let Some(p) = n.parent {
        if p < closed.len() {
            lemma_chain_avoids(pf, occupied, p as int);
            let prev = chain(closed, p as int);
            assert(node_path(closed, n) == prev.push(n.position));
            assert forall|k: int| 0 <= k < node_path(closed, n).len() implies !occupied.contains_spec(
                #[trigger] node_path(closed, n)[k],
            ) by {
                if k < prev.len() {
                    assert(node_path(closed, n)[k] == prev[k]);
                }
            }
        }
    }
}

/// The path to a node reached from the closed list can be walked from the
/// first closed node.
proof fn lemma_node_path_walk(pf: &Pathfinder, index: &SpatialIndex, n: PathNode)
    requires
        closed_wf(pf.closed_list@),
        pf.within(index),
        n.parent is Some ==> linked(index, pf.closed_list@, n),
    ensures
        is_walk(index, pf.root(), node_path(pf.closed_list@, n)),
{
    reveal(is_walk);
    let closed = pf.closed_list@;
    if let Some(p) = n.parent {
        lemma_chain_walk(pf, index, p as int);
        let prev = chain(closed, p as int);
        let c = node_path(closed, n);
        assert(c == prev.push(n.position));
        assert forall|k: int| 0 <= k < c.len() implies step_allowed(
            index,
            if k == 0 {
                pf.root()
            } else {
                c[k - 1]
            },
            #[trigger] c[k],
        ) by {
            if k < prev.len() {
                assert(c[k] == prev[k]);
                if k > 0 {
                    assert(c[k - 1] == prev[k - 1]);
                }
            }
        }
    }
}

/// A search expands each registered cell at most once, so its depth never
/// passes the number of cells in the index by more than the start.
pub proof fn lemma_depth_bounded_by_cells(pf: &Pathfinder, index: &SpatialIndex)
    requires
        index.wf(),
        pf.wf(),
        pf.within(index),
        !pf.is_finished(),
    ensures
        pf.closed_list@.len() <= index.cell_count() + 1,
{
    let closed = pf.closed_list@;
    if closed.len() > 0 {
        let cells = closed.subrange(1, closed.len() as int).map_values(|n: PathNode| n.position);
        assert forall|i: int| 0 <= i < cells.len() implies (#[trigger] index.lookup(cells[i])) is Some by {
            assert(closed[i + 1].parent is Some);
            assert(linked(index, closed, closed[i + 1]));
        }
        assert forall|i: int, j: int| 0 <= i < j < cells.len() implies (#[trigger] cells[i]) != (
        #[trigger] cells[j]) by {
            assert(closed[i + 1].position != closed[j + 1].position);
        }
        index.lemma_distinct_cells_bounded(cells);
    }
}

/// A search ends: a search under way has at least one call of `step` left,
/// a finished one none, and a fresh or running search never more than the
/// depth ceiling, or the number of cells of the index, plus two. Each call
/// of `step` on a search under way lowers the count.
pub proof fn lemma_search_terminates(pf: &Pathfinder, index: &SpatialIndex)
    requires
        index.wf(),
        pf.wf(),
        pf.within(index),
    ensures
        (pf.calls_left(index) == 0) == pf.is_finished(),
        pf.calls_left(index) <= PATHFINDER_MAX_DEPTH + 2,
        pf.calls_left(index) <= index.cell_count() + 2,
{
    if !pf.is_finished() {
        lemma_depth_bounded_by_cells(pf, index);
    }
}

/// Cell `c` can be reached from `start` by a walk of allowed steps that
/// enters no cell of `occupied`.
pub open spec fn reaches(
    index: &SpatialIndex,
    occupied: &CellSet,
    start: GridPosition,
    c: GridPosition,
) -> bool {
    exists|path: Seq<GridPosition>|
        #![trigger is_walk(index, start, path)]
        path.len() > 0 && is_walk(index, start, path) && path.last() == c && forall|k: int|
            0 <= k < path.len() ==> !occupied.contains_spec(#[trigger] path[k])
}

/// A search that kept clear of `occupied` only expands cells reachable from
/// where it started while avoiding `occupied`, each once: for any finite
/// set `cells` holding every such cell, it has expanded at most
/// `cells.len()` of them besides the start. As each call of `step` on a
/// search under way expands one more node or finishes it (and keeps it
/// clear of the same `occupied`), a search finishes within
/// `cells.len() + 2` calls.
pub proof fn lemma_depth_bounded_by_reachable(
    pf: &Pathfinder,
    index: &SpatialIndex,
    occupied: &CellSet,
    cells: Set<GridPosition>,
)
    requires
        pf.wf(),
        pf.within(index),
        pf.avoids(occupied),
        !pf.is_finished(),
        cells.finite(),
        forall|c: GridPosition| reaches(index, occupied, pf.root(), c) ==> #[trigger] cells.contains(c),
    ensures
        pf.closed_list@.len() <= cells.len() + 1,
{
    let closed = pf.closed_list@;
    if closed.len() > 0 {
        let visited = closed.subrange(1, closed.len() as int).map_values(|n: PathNode| n.position);
        assert forall|i: int, j: int|
            0 <= i < visited.len() && 0 <= j < visited.len() && i != j implies visited[i]
            != visited[j] by {
            assert(closed[i + 1].position != closed[j + 1].position);
        }
        assert(visited.no_duplicates());
        visited.unique_seq_to_set();
        assert forall|c: GridPosition| visited.to_set().contains(c) implies cells.contains(c) by {
            let i = choose|i: int| 0 <= i < visited.len() && visited[i] == c;
            lemma_chain_walk(pf, index, i + 1);
            lemma_chain_avoids(pf, occupied, i + 1);
            let path = chain(closed, i + 1);
            assert(closed[i + 1].parent is Some);
            assert(path.len() > 0);
            assert(is_walk(index, pf.root(), path));
            assert(reaches(index, occupied, pf.root(), c));
        }
        vstd::set_lib::lemma_len_subset(visited.to_set(), cells);
    }
}

/// What one call of `step` does to the search `old`, giving `new`, with
/// `occupied` the cells agents hold. A finished search is left alone.
/// Otherwise the open node with the smallest `f` (the first of equals) is
/// taken: an empty open list finishes with no path; the goal, or any node
/// once the depth ceiling is passed, finishes with the path to it, the node
/// leaving the open list; else the node is closed and its neighbours that
/// may be opened are opened or relaxed, every open node keeping `f = g + h`
/// with `h` its distance to the goal. A found path repeats no cell, leaves
/// out the start, stays on the grid and can be walked from the start; a
/// search that kept clear of `occupied` still does, and so does its path.
pub open spec fn step_result(old: Pathfinder, new: Pathfinder, index: &SpatialIndex, occupied: &CellSet) -> bool {
    &&& new.wf()
    &&& new.within(index)
    &&& new.goal == old.goal
    &&& old.avoids(occupied) ==> new.avoids(occupied)
    &&& new.calls_left(index) < old.calls_left(index) || old.is_finished()
    &&& !old.is_finished() && new.is_finished() ==> is_walk(index, old.root(), new.status->Finished_0@)
    &&& !old.is_finished() && new.is_finished() && old.avoids(occupied) ==> forall|i: int|
        0 <= i < new.status->Finished_0@.len() ==> !occupied.contains_spec(
            #[trigger] new.status->Finished_0@[i],
        )
    &&& !new.is_finished() ==> new.root() == old.root()
    &&& old.is_finished() ==> new == old
    &&& !old.is_finished() && old.open_list@.len() == 0 ==> {
        &&& new.status is Finished
        &&& new.status->Finished_0@.len() == 0
        &&& new.closed_list@ == old.closed_list@
        &&& new.open_list@ == old.open_list@
    }
    &&& !old.is_finished() && old.open_list@.len() > 0 ==> {
        let d = old.status->Calculating_0;
        let n = old.open_list@[selected(old.open_list@)];
        if n.position == old.goal || d > PATHFINDER_MAX_DEPTH {
            &&& new.status is Finished
            &&& new.status->Finished_0@ == node_path(old.closed_list@, n)
            &&& d > 0 ==> new.status->Finished_0@.len() > 0
            &&& d > 0 ==> new.status->Finished_0@.last() == n.position
            &&& new.status->Finished_0@.no_duplicates()
            &&& d > 0 ==> !new.status->Finished_0@.contains(old.root())
            &&& new.closed_list@ == old.closed_list@
            &&& new.open_list@ == old.open_list@.remove(selected(old.open_list@))
        } else {
            &&& new.status == PathfinderStatus::Calculating((d + 1) as usize)
            &&& new.closed_list@ == old.closed_list@.push(n)
            &&& estimates_ok(new.open_list@, old.goal)
            &&& expanded(
                index,
                occupied,
                new.closed_list@,
                n,
                old.open_list@.remove(selected(old.open_list@)),
                new.open_list@,
            )
        }
    }
}

impl Pathfinder {
    /// One unit of search work, as `step_result` states.
    #[verifier::rlimit(100)]
    pub fn step(&mut self, spatial_index: &SpatialIndex, dynamic_occupied_tiles: &CellSet)
        requires
            old(self).wf(),
            old(self).within(spatial_index),
            spatial_index.wf(),
        ensures
            step_result(*old(self), *final(self), spatial_index, dynamic_occupied_tiles),
    {
        let d = match self.status {
            PathfinderStatus::Finished(_) => {
                return ;
            },
            PathfinderStatus::Calculating(d) => d,
        };
        proof {
            lemma_depth_bounded_by_cells(self, spatial_index);
        }
        if self.open_list.len() == 0 {
            proof {
                reveal(is_walk);
            }
            self.status = PathfinderStatus::Finished(Vec::new());
            return ;
        }
        let idx = min_f_index(&self.open_list);
        proof {
            lemma_first_min_unique(self.open_list@, idx as int);
        }
        let ghost rest = self.open_list@.remove(idx as int);
        let ghost pre = *self;
        let current = self.open_list.remove(idx);
        if current.position == self.goal || d > PATHFINDER_MAX_DEPTH {
            proof {
                assert(current == pre.open_list@[idx as int]);
                lemma_node_path_walk(&pre, spatial_index, current);
                lemma_node_path_distinct(pre.closed_list@, pre.open_list@, current, idx as int);
                if pre.avoids(dynamic_occupied_tiles) {
                    lemma_node_path_avoids(&pre, dynamic_occupied_tiles, current);
                }
                assert(self.open_list@ == rest);
                assert forall|k: int| 0 <= k < rest.len() implies #[trigger] rest[k] == pre.open_list@[if k
                    < idx {
                    k
                } else {
                    k + 1
                }] by {}
            }
            let path = current.get_parent_rec(&self.closed_list);
            self.status = PathfinderStatus::Finished(path);
            return ;
        }
        let ghost old_open = old(self).open_list@;
        let ghost old_closed = self.closed_list@;
        self.closed_list.push(current);
        proof {
            assert(current == old_open[idx as int]);
            assert forall|k: int| 0 <= k < rest.len() implies #[trigger] rest[k] == old_open[if k
                < idx {
                k
            } else {
                k + 1
            }] by {}
            assert forall|i: int, j: int|
                0 <= i < j < self.closed_list@.len() implies (
                #[trigger] self.closed_list@[i]).position != (
                #[trigger] self.closed_list@[j]).position by {
                if j == old_closed.len() {
                    assert(old_open[idx as int].position != old_closed[i].position);
                } else {
                    assert(old_closed[i].position != old_closed[j].position);
                }
            }
            assert forall|k: int, i: int|
                0 <= k < rest.len() && 0 <= i < self.closed_list@.len() implies (
                #[trigger] rest[k]).position != (#[trigger] self.closed_list@[i]).position by {
                let ko = if k < idx {
                    k
                } else {
                    k + 1
                };
                if i == old_closed.len() {
                    assert(old_open[ko].position != old_open[idx as int].position);
                } else {
                    assert(old_open[ko].position != old_closed[i].position);
                }
            }
            assert forall|k1: int, k2: int| 0 <= k1 < k2 < rest.len() implies (
            #[trigger] rest[k1]).position != (#[trigger] rest[k2]).position by {
                let a = if k1 < idx {
                    k1
                } else {
                    k1 + 1
                };
                let b = if k2 < idx {
                    k2
                } else {
                    k2 + 1
                };
                assert(old_open[a].position != old_open[b].position);
            }
        }
        self.status = PathfinderStatus::Calculating(d + 1);
        proof {
            assert(self.closed_list@.last() == current);
        }
        self.open_neighbours(current, spatial_index, dynamic_occupied_tiles);
        proof {
            lemma_depth_bounded_by_cells(self, spatial_index);
        }
    }

    /// Opens or relaxes the neighbours of `current`, the node just closed
    /// (last in the closed list), as `expanded` states.
    #[verifier::rlimit(100)]
    fn open_neighbours(
        &mut self,
        current: PathNode,
        spatial_index: &SpatialIndex,
        dynamic_occupied_tiles: &CellSet,
    )
        requires
            1 <= old(self).closed_list@.len() <= PATHFINDER_MAX_DEPTH + 1,
            old(self).closed_list@.last() == current,
            old(self).status == PathfinderStatus::Calculating(old(self).closed_list@.len() as usize),
            current.g <= (old(self).closed_list@.len() - 1) * MAX_STEP_COST,
            closed_wf(old(self).closed_list@),
            open_wf(old(self).open_list@, old(self).closed_list@.len() as int),
            positions_distinct(old(self).closed_list@, old(self).open_list@),
            estimates_ok(old(self).closed_list@, old(self).goal),
            estimates_ok(old(self).open_list@, old(self).goal),
            costs_ok(old(self).closed_list@, old(self).open_list@),
            old(self).within(spatial_index),
        ensures
            final(self).status == old(self).status,
            final(self).closed_list@ == old(self).closed_list@,
            final(self).goal == old(self).goal,
            open_wf(final(self).open_list@, old(self).closed_list@.len() as int),
            positions_distinct(final(self).closed_list@, final(self).open_list@),
            estimates_ok(final(self).open_list@, final(self).goal),
            costs_ok(final(self).closed_list@, final(self).open_list@),
            final(self).within(spatial_index),
            old(self).avoids(dynamic_occupied_tiles) ==> final(self).avoids(dynamic_occupied_tiles),
            expanded(
                spatial_index,
                dynamic_occupied_tiles,
                final(self).closed_list@,
                current,
                old(self).open_list@,
                final(self).open_list@,
            ),
    {
        let current_idx = self.closed_list.len() - 1;
        let d = current_idx;
        let ghost rest = self.open_list@;
        let current_tile = spatial_index.get_tile_data(current.position.x, current.position.y);
        let nearby = spatial_index.get_nearby(current.position.x, current.position.y);
        proof {
            spatial_index.lemma_registered_among(
                nearby_cells(current.position.x as int, current.position.y as int),
            );
        }
        let mut j: usize = 0;
        while j < nearby.len()
            invariant
                j <= nearby@.len(),
                nearby@ == spatial_index.nearby(current.position.x as int, current.position.y as int),
                forall|i: int|
                    #![trigger nearby@[i]]
                    0 <= i < nearby@.len() ==> {
                        let (t, p) = nearby@[i];
                        &&& nearby_cells(current.position.x as int, current.position.y as int).contains(
                            (p.x as int, p.y as int),
                        )
                        &&& spatial_index.tile_at(p.x as int, p.y as int) == Some(t)
                    },
                current_idx == d,
                old(self).closed_list@.len() == d + 1,
                self.closed_list@[d as int] == current,
                current_tile == spatial_index.lookup(current.position),
                d < PATHFINDER_MAX_DEPTH + 1,
                current.g <= d * MAX_STEP_COST,
                self.status == PathfinderStatus::Calculating((d + 1) as usize),
                self.closed_list@ == old(self).closed_list@,
                self.goal == old(self).goal,
                closed_wf(self.closed_list@),
                open_wf(self.open_list@, d + 1),
                positions_distinct(self.closed_list@, self.open_list@),
                estimates_ok(self.closed_list@, self.goal),
                estimates_ok(self.open_list@, self.goal),
                costs_ok(self.closed_list@, self.open_list@),
                self.within(spatial_index),
                old(self).avoids(dynamic_occupied_tiles) ==> self.avoids(dynamic_occupied_tiles),
                forall|i: int|
                    #![trigger nearby@[i]]
                    0 <= i < j && opens(
                        spatial_index,
                        dynamic_occupied_tiles,
                        self.closed_list@,
                        current,
                        nearby@[i].0,
                        nearby@[i].1,
                    ) ==> exists|k: int|
                        #![trigger self.open_list@[k]]
                        0 <= k < self.open_list@.len() && self.open_list@[k].position == nearby@[i].1
                            && self.open_list@[k].g <= current.g + scaled_dist(
                            current.position,
                            nearby@[i].1,
                        ),
                forall|i: int|
                    #![trigger rest[i]]
                    0 <= i < rest.len() ==> exists|k: int|
                        #![trigger self.open_list@[k]]
                        0 <= k < self.open_list@.len() && self.open_list@[k].position == rest[i].position
                            && self.open_list@[k].g <= rest[i].g,
                forall|k: int|
                    #![trigger self.open_list@[k]]
                    0 <= k < self.open_list@.len() ==> rest.contains(self.open_list@[k]) || {
                        &&& self.open_list@[k].parent == Some(d)
                        &&& self.open_list@[k].g == current.g + scaled_dist(
                            current.position,
                            self.open_list@[k].position,
                        )
                        &&& exists|i: int|
                            #![trigger nearby@[i]]
                            0 <= i < nearby@.len() && nearby@[i].1 == self.open_list@[k].position
                                && opens(
                                spatial_index,
                                dynamic_occupied_tiles,
                                self.closed_list@,
                                current,
                                nearby@[i].0,
                                nearby@[i].1,
                            )
                    },
            decreases nearby@.len() - j,
        {
            let (tile, pos) = nearby[j];
            let ghost before = self.open_list@;
            let ghost cl = self.closed_list@;
            let on_grid = 0 <= pos.x && pos.x < GRID_WIDTH && 0 <= pos.y && pos.y < GRID_HEIGHT;
            let free = on_grid && !dynamic_occupied_tiles.contains(&pos);
            let reachable = match current_tile {
                Some(ct) => ct.is_traversable_to(&tile),
                None => false,
            };
            let closed_here = is_closed(&self.closed_list, &pos);
            assert(nearby@[j as int] == (tile, pos));
            if free && reachable && !closed_here {
                assert(opens(spatial_index, dynamic_occupied_tiles, cl, current, tile, pos));
                let step_cost = Pathfinder::calculate_heuristic(&current.position, &pos);
                proof {
                    let cells = nearby_cells(current.position.x as int, current.position.y as int);
                    let c = choose|c: int| 0 <= c < cells.len() && cells[c] == (pos.x as int, pos.y as int);
                    lemma_step_distance(
                        current.position.x as int,
                        current.position.y as int,
                        pos.x as int,
                        pos.y as int,
                        step_cost as int,
                    );
                }
                assert(step_allowed(spatial_index, current.position, pos));
                assert(self.closed_list@[current_idx as int] == current);
                let tentative_g = current.g + step_cost;
                let h = Pathfinder::calculate_heuristic(&pos, &self.goal);
                match find_open(&self.open_list, &pos) {
                    Some(k) => {
                        let nei = self.open_list[k];
                        if tentative_g < nei.g {
                            self.open_list.set(
                                k,
                                PathNode {
                                    position: nei.position,
                                    g: tentative_g,
                                    h: nei.h,
                                    f: tentative_g + nei.h,
                                    parent: Some(current_idx),
                                },
                            );
                        }
                        proof {
                            let after = self.open_list@;
                            assert(after.len() == before.len());
                            assert forall|k2: int| 0 <= k2 < before.len() implies after[k2].position
                                == before[k2].position && after[k2].g <= before[k2].g by {}
                            assert forall|i2: int|
                                0 <= i2 <= j && opens(
                                    spatial_index,
                                    dynamic_occupied_tiles,
                                    cl,
                                    current,
                                    #[trigger] nearby@[i2].0,
                                    nearby@[i2].1,
                                ) implies exists|k3: int|
                                #![trigger after[k3]]
                                0 <= k3 < after.len() && after[k3].position == nearby@[i2].1
                                    && after[k3].g <= current.g + scaled_dist(
                                    current.position,
                                    nearby@[i2].1,
                                ) by {
                                if i2 == j {
                                    assert(after[k as int].position == pos);
                                } else {
                                    let k3 = choose|k3: int|
                                        0 <= k3 < before.len() && #[trigger] before[k3].position
                                            == nearby@[i2].1 && before[k3].g <= current.g
                                            + scaled_dist(current.position, nearby@[i2].1);
                                    assert(after[k3].position == before[k3].position);
                                }
                            }
                            assert forall|i2: int| 0 <= i2 < rest.len() implies exists|k3: int|
                                #![trigger after[k3]]
                                0 <= k3 < after.len() && after[k3].position == (
                                #[trigger] rest[i2]).position && after[k3].g <= rest[i2].g by {
                                let k3 = choose|k3: int|
                                    0 <= k3 < before.len() && #[trigger] before[k3].position
                                        == rest[i2].position && before[k3].g <= rest[i2].g;
                                assert(after[k3].position == before[k3].position);
                            }
                        }
                    },
                    None => {
                        self.open_list.push(
                            PathNode {
                                position: pos,
                                g: tentative_g,
                                h,
                                f: tentative_g + h,
                                parent: Some(current_idx),
                            },
                        );
                        proof {
                            let after = self.open_list@;
                            assert(after.len() == before.len() + 1);
                            assert forall|k2: int| 0 <= k2 < before.len() implies after[k2]
                                == before[k2] by {}
                            assert forall|i2: int|
                                0 <= i2 <= j && opens(
                                    spatial_index,
                                    dynamic_occupied_tiles,
                                    cl,
                                    current,
                                    #[trigger] nearby@[i2].0,
                                    nearby@[i2].1,
                                ) implies exists|k3: int|
                                #![trigger after[k3]]
                                0 <= k3 < after.len() && after[k3].position == nearby@[i2].1
                                    && after[k3].g <= current.g + scaled_dist(
                                    current.position,
                                    nearby@[i2].1,
                                ) by {
                                if i2 == j {
                                    assert(after[before.len() as int].position == pos);
                                } else {
                                    let k3 = choose|k3: int|
                                        0 <= k3 < before.len() && #[trigger] before[k3].position
                                            == nearby@[i2].1 && before[k3].g <= current.g
                                            + scaled_dist(current.position, nearby@[i2].1);
                                    assert(after[k3] == before[k3]);
                                }
                            }
                            assert forall|i2: int| 0 <= i2 < rest.len() implies exists|k3: int|
                                #![trigger after[k3]]
                                0 <= k3 < after.len() && after[k3].position == (
                                #[trigger] rest[i2]).position && after[k3].g <= rest[i2].g by {
                                let k3 = choose|k3: int|
                                    0 <= k3 < before.len() && #[trigger] before[k3].position
                                        == rest[i2].position && before[k3].g <= rest[i2].g;
                                assert(after[k3] == before[k3]);
                            }
                        }
                    },
                }
            } else {
                assert(!opens(spatial_index, dynamic_occupied_tiles, cl, current, tile, pos));
            }
            j = j + 1;
        }
    }

}

/// Whether some node of `closed` stands on `pos`.
fn is_closed(closed: &Vec<PathNode>, pos: &GridPosition) -> (r: bool)
    ensures
        r == exists|i: int| 0 <= i < closed@.len() && (#[trigger] closed@[i]).position == *pos,
{
    let mut i: usize = 0;
    while i < closed.len()
        invariant
            i <= closed@.len(),
            forall|k: int| 0 <= k < i ==> (#[trigger] closed@[k]).position != *pos,
        decreases closed@.len() - i,
    {
        if closed[i].position == *pos {
            return true;
        }
        i = i + 1;
    }
    false
}

/// The index of the first node of `open` that stands on `pos`.
fn find_open(open: &Vec<PathNode>, pos: &GridPosition) -> (r: Option<usize>)
    ensures
        match r {
            Some(k) => k < open@.len() && open@[k as int].position == *pos,
            None => forall|k: int| 0 <= k < open@.len() ==> (#[trigger] open@[k]).position != *pos,
        },
{
    let mut i: usize = 0;
    while i < open.len()
        invariant
            i <= open@.len(),
            forall|k: int| 0 <= k < i ==> (#[trigger] open@[k]).position != *pos,
        decreases open@.len() - i,
    {
        if open[i].position == *pos {
            return Some(i);
        }
        i = i + 1;
    }
    None
}

fn min_f_index(open: &Vec<PathNode>) -> (i: usize)
    requires
        open@.len() > 0,
    ensures
        is_first_min(open@, i as int),
{
    let mut best: usize = 0;
    let mut k: usize = 1;
    while k < open.len()
        invariant
            1 <= k <= open@.len(),
            best < k,
            forall|j: int| 0 <= j < k ==> open@[best as int].f <= #[trigger] open@[j].f,
            forall|j: int| 0 <= j < best ==> #[trigger] open@[j].f > open@[best as int].f,
        decreases open@.len() - k,
    {
        if open[k].f < open[best].f {
            best = k;
        }
        k = k + 1;
    }
    best
}

/// `s` read backwards.
pub open spec fn reversed(s: Seq<GridPosition>) -> Seq<GridPosition> {
    Seq::new(s.len(), |i: int| s[s.len() - 1 - i])
}

impl PathNode {
    /// Follows parent indices back from this node to the start and returns
    /// the cells in walking order, the start left out.
    pub fn get_parent_rec(&self, closed_list: &Vec<PathNode>) -> (r: Vec<GridPosition>)
        requires
            closed_wf(closed_list@),
            self.parent.is_some() ==> self.parent.unwrap() < closed_list@.len(),
        ensures
            r@ == node_path(closed_list@, *self),
    {
        let closed = closed_list;
        let node = self;
        let mut cur: usize = match node.parent {
            Some(p) => p,
            None => {
                return Vec::new();
            },
        };
        let mut rev: Vec<GridPosition> = Vec::new();
        rev.push(node.position);
        assert(reversed(rev@) =~= seq![node.position]);
        assert(node_path(closed@, *node) =~= chain(closed@, cur as int) + reversed(rev@));
        let mut done = false;
        while !done
            invariant
                closed_wf(closed@),
                cur < closed@.len(),
                rev@.len() + cur <= closed@.len(),
                !done ==> node_path(closed@, *node) == chain(closed@, cur as int) + reversed(rev@),
                done ==> node_path(closed@, *node) == reversed(rev@),
            decreases cur + (if done { 0int } else { 1 }),
        {
            match closed[cur].parent {
                Some(p) => {
                    let ghost old_rev = rev@;
                    rev.push(closed[cur].position);
                    assert(chain(closed@, cur as int) == chain(closed@, p as int).push(
                        closed@[cur as int].position,
                    ));
                    assert(chain(closed@, cur as int) + reversed(old_rev) =~= chain(closed@, p as int)
                        + reversed(rev@));
                    cur = p;
                },
                None => {
                    assert(chain(closed@, cur as int) =~= Seq::<GridPosition>::empty());
                    assert(chain(closed@, cur as int) + reversed(rev@) =~= reversed(rev@));
                    done = true;
                },
            }
        }
        let mut path: Vec<GridPosition> = Vec::new();
        let n = rev.len();
        let mut i: usize = 0;
        while i < n
            invariant
                n == rev@.len(),
                i <= n,
                path@ =~= reversed(rev@).take(i as int),
            decreases n - i,
        {
            path.push(rev[n - 1 - i]);
            i = i + 1;
        }
        assert(reversed(rev@).take(n as int) =~= reversed(rev@));
        path
    }
}

} // verus!
