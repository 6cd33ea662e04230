use gridwalk::grid::GridPosition;
use gridwalk::pathfinder::{Pathfinder, PathfinderStatus, PATHFINDER_MAX_DEPTH};
use gridwalk::spatial_index::{CellSet, SpatialIndex};
use gridwalk::tile::{TileFlags, OUTSIDE, TRAVERSABLE_TERRAIN, WALL};

fn pos(x: i32, y: i32) -> GridPosition {
    GridPosition { x, y }
}

/// An outdoor field of `w` by `h` cells with walls on `walls`.
fn field(w: i32, h: i32, walls: &[(i32, i32)]) -> SpatialIndex {
    let mut index = SpatialIndex::new();
    for x in 0..w {
        for y in 0..h {
            index.register(x, y, (x * 1000 + y) as u64);
            index.add_flags(x, y, TileFlags::from_bits(TRAVERSABLE_TERRAIN | OUTSIDE), 0);
        }
    }
    for &(x, y) in walls {
        index.add_flags(x, y, TileFlags::from_bits(WALL), 0);
    }
    index
}

/// Runs a search to the end; returns the path and the number of steps.
fn run(index: &SpatialIndex, occupied: &CellSet, start: GridPosition, goal: GridPosition) -> (Vec<GridPosition>, usize) {
    let mut pf = Pathfinder::new(&start, &goal);
    let mut steps = 0;
    loop {
        if let Some(path) = pf.get_path_if_finished() {
            return (path, steps);
        }
        pf.step(index, occupied);
        steps += 1;
        assert!(steps < 10_000);
    }
}

fn cost(start: GridPosition, path: &[GridPosition]) -> u64 {
    let mut total = 0;
    let mut prev = start;
    for p in path {
        assert!(prev.is_adjacent(p));
        total += prev.calc_distance(p);
        prev = *p;
    }
    total
}

/// Shortest 8-connected path cost by exhaustive relaxation, on the same
/// step costs and traversability rule.
fn reference_cost(index: &SpatialIndex, start: GridPosition, goal: GridPosition, w: i32, h: i32) -> Option<u64> {
    let n = (w * h) as usize;
    let id = |p: GridPosition| (p.x * h + p.y) as usize;
    let mut best = vec![u64::MAX; n];
    best[id(start)] = 0;
    let mut changed = true;
    while changed {
        changed = false;
        for x in 0..w {
            for y in 0..h {
                let p = pos(x, y);
                if best[id(p)] == u64::MAX {
                    continue;
                }
                let from = index.get_tile_data(x, y).unwrap();
                for (t, q) in index.get_nearby(x, y) {
                    if !from.is_traversable_to(&t) {
                        continue;
                    }
                    let c = best[id(p)] + p.calc_distance(&q);
                    if c < best[id(q)] {
                        best[id(q)] = c;
                        changed = true;
                    }
                }
            }
        }
    }
    if best[id(goal)] == u64::MAX { None } else { Some(best[id(goal)]) }
}

#[test]
fn straight_corridor_path() {
    let index = field(6, 1, &[]);
    let (path, _) = run(&index, &CellSet::new(), pos(0, 0), pos(5, 0));
    assert_eq!(path, vec![pos(1, 0), pos(2, 0), pos(3, 0), pos(4, 0), pos(5, 0)]);
}

#[test]
fn diagonal_path_is_taken() {
    let index = field(4, 4, &[]);
    let (path, _) = run(&index, &CellSet::new(), pos(0, 0), pos(3, 3));
    assert_eq!(path, vec![pos(1, 1), pos(2, 2), pos(3, 3)]);
}

#[test]
fn start_equals_goal_gives_empty_path() {
    let index = field(3, 3, &[]);
    let (path, steps) = run(&index, &CellSet::new(), pos(1, 1), pos(1, 1));
    assert!(path.is_empty());
    assert_eq!(steps, 1);
}

#[test]
fn path_cost_matches_exhaustive_search() {
    let cases: Vec<(i32, i32, Vec<(i32, i32)>, (i32, i32), (i32, i32))> = vec![
        (6, 6, vec![(2, 0), (2, 1), (2, 2), (2, 3), (2, 4)], (0, 0), (5, 0)),
        (7, 5, vec![(3, 1), (3, 2), (3, 3), (3, 4), (1, 3), (5, 0), (5, 1)], (0, 4), (6, 0)),
        (5, 5, vec![(1, 1), (2, 2), (3, 3)], (0, 4), (4, 0)),
        (8, 3, vec![(4, 0), (4, 1)], (0, 0), (7, 0)),
    ];
    for (w, h, walls, s, g) in cases {
        let index = field(w, h, &walls);
        let (start, goal) = (pos(s.0, s.1), pos(g.0, g.1));
        let best = reference_cost(&index, start, goal, w, h).unwrap();
        let (path, _) = run(&index, &CellSet::new(), start, goal);
        assert_eq!(path.last(), Some(&goal));
        let found = cost(start, &path);
        assert!(found >= best);
        assert!(found <= best + best / 1000 + 1, "found {} best {}", found, best);
    }
}

#[test]
fn search_ends_within_ceiling() {
    let walls: Vec<(i32, i32)> = (0..30).flat_map(|y| [(24, y), (26, y)]).chain([(25, 0), (25, 29)]).collect();
    let index = field(30, 30, &walls);
    let mut pf = Pathfinder::new(&pos(0, 0), &pos(25, 15));
    let mut calls = 0;
    while !matches!(pf.status, PathfinderStatus::Finished(_)) {
        pf.step(&index, &CellSet::new());
        calls += 1;
    }
    assert!(calls <= PATHFINDER_MAX_DEPTH + 2);
    assert_eq!(pf.closed_list.len(), PATHFINDER_MAX_DEPTH + 1);
}

#[test]
fn small_enclosed_region_fails_with_empty_path() {
    // The start sits in a 2x2 pocket walled off from the goal.
    let walls = [(2, 0), (2, 1), (2, 2), (0, 2), (1, 2)];
    let index = field(6, 6, &walls);
    let (path, steps) = run(&index, &CellSet::new(), pos(0, 0), pos(5, 5));
    assert!(path.is_empty());
    assert!(steps <= 4 + 1 + 1);
}

#[test]
fn unreachable_goal_past_ceiling_gives_partial_path() {
    // The goal is boxed in by walls; the open field around it is larger
    // than the depth ceiling.
    let walls = [(14, 14), (15, 14), (16, 14), (14, 15), (16, 15), (14, 16), (15, 16), (16, 16)];
    let index = field(30, 30, &walls);
    let start = pos(0, 0);
    let (path, steps) = run(&index, &CellSet::new(), start, pos(15, 15));
    assert!(!path.is_empty());
    assert!(steps <= PATHFINDER_MAX_DEPTH + 2);
    assert_ne!(path.last(), Some(&pos(15, 15)));
    cost(start, &path);
}

#[test]
fn occupied_cells_are_avoided() {
    let index = field(6, 3, &[]);
    let mut occupied = CellSet::new();
    occupied.insert(pos(2, 0));
    occupied.insert(pos(2, 1));
    let (path, _) = run(&index, &occupied, pos(0, 0), pos(4, 0));
    assert_eq!(path.last(), Some(&pos(4, 0)));
    assert!(path.contains(&pos(2, 2)));
    assert!(!path.contains(&pos(2, 0)) && !path.contains(&pos(2, 1)));
}

#[test]
fn occupied_goal_cannot_be_reached() {
    let index = field(3, 1, &[]);
    let mut occupied = CellSet::new();
    occupied.insert(pos(2, 0));
    let (path, _) = run(&index, &occupied, pos(0, 0), pos(2, 0));
    assert!(path.is_empty());
}

#[test]
fn path_is_handed_out_once() {
    let index = field(2, 1, &[]);
    let mut pf = Pathfinder::new(&pos(0, 0), &pos(1, 0));
    assert_eq!(pf.get_current_node_position(), Some(pos(0, 0)));
    assert!(pf.get_path_if_finished().is_none());
    pf.step(&index, &CellSet::new());
    pf.step(&index, &CellSet::new());
    assert_eq!(pf.get_path_if_finished(), Some(vec![pos(1, 0)]));
    assert_eq!(pf.get_path_if_finished(), Some(vec![]));
}

#[test]
fn walls_and_closed_cells_are_not_opened() {
    let index = field(3, 3, &[(1, 0), (1, 1)]);
    let mut pf = Pathfinder::new(&pos(0, 0), &pos(2, 2));
    pf.step(&index, &CellSet::new());
    assert_eq!(pf.closed_list.len(), 1);
    let mut opened: Vec<(i32, i32)> = pf.open_list.iter().map(|n| (n.position.x, n.position.y)).collect();
    opened.sort();
    assert_eq!(opened, vec![(0, 1)]);
    assert_eq!(pf.open_list[0].g, 1000);
    assert_eq!(pf.open_list[0].parent, Some(0));
}

#[test]
fn cells_off_the_grid_are_never_opened() {
    let mut index = field(2, 1, &[]);
    index.register(-1, 0, 5);
    index.add_flags(-1, 0, TileFlags::from_bits(TRAVERSABLE_TERRAIN | OUTSIDE), 0);
    let (path, _) = run(&index, &CellSet::new(), pos(0, 0), pos(-1, 0));
    assert!(path.is_empty());
    let mut pf = Pathfinder::new(&pos(0, 0), &pos(1, 0));
    pf.step(&index, &CellSet::new());
    let opened: Vec<GridPosition> = pf.open_list.iter().map(|n| n.position).collect();
    assert_eq!(opened, vec![pos(1, 0)]);
    let n = &pf.open_list[0];
    assert_eq!(n.h, 0);
    assert_eq!(n.f, n.g + n.h);
}
