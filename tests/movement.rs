use gridwalk::grid::{get_random_position, GridPosition, GRID_HEIGHT, GRID_WIDTH};
use gridwalk::occupancy::OccupancyTable;
use gridwalk::simulation::Simulation;
use gridwalk::spatial_index::CellSet;
use gridwalk::spatial_index::SpatialIndex;
use gridwalk::tile::{TileFlags, OUTSIDE, TRAVERSABLE_TERRAIN};
use gridwalk::walk::{check_agent_pathfinding, AgentCurrentPathStatus, AgentPathfinding, WalkSignal, Walker, MAX_STEP_RETRIES};

fn pos(x: i32, y: i32) -> GridPosition {
    GridPosition { x, y }
}

fn field(w: i32, h: i32) -> SpatialIndex {
    let mut index = SpatialIndex::new();
    for x in 0..w {
        for y in 0..h {
            index.register(x, y, (x * 1000 + y) as u64);
            index.add_flags(x, y, TileFlags::from_bits(TRAVERSABLE_TERRAIN | OUTSIDE), 0);
        }
    }
    index
}

/// Ticks the world and completes every step that started, as the movement
/// animation would; returns the signals.
fn tick_and_finish(sim: &mut Simulation) -> Vec<WalkSignal> {
    let signals = sim.tick();
    for (i, s) in signals.iter().enumerate() {
        if let WalkSignal::StepStarted(_) = s {
            sim.finish_step(i);
        }
    }
    signals
}

fn markers_consistent(sim: &Simulation, w: i32, h: i32) {
    let n = sim.agent_count();
    let positions: Vec<GridPosition> = (0..n).map(|i| sim.current_position(i)).collect();
    for x in 0..w {
        for y in 0..h {
            assert_eq!(sim.is_occupied(&pos(x, y)), positions.contains(&pos(x, y)));
        }
    }
    for i in 0..n {
        for j in 0..n {
            if i != j {
                assert_ne!(positions[i], positions[j]);
            }
        }
    }
}

#[test]
fn agent_walks_to_destination_and_stops() {
    let mut sim = Simulation::new(field(6, 1));
    let a = sim.spawn_agent(pos(0, 0)).unwrap();
    sim.set_destination(a, pos(3, 0));
    assert_eq!(sim.tick(), vec![WalkSignal::Searching]);
    let mut seen = Vec::new();
    for _ in 0..50 {
        let s = tick_and_finish(&mut sim);
        seen.push(s[0]);
        markers_consistent(&sim, 6, 1);
        if sim.has_arrived(a) {
            break;
        }
    }
    assert!(sim.has_arrived(a));
    assert_eq!(sim.current_position(a), pos(3, 0));
    assert!(seen.contains(&WalkSignal::Following));
    assert_eq!(seen.last(), Some(&WalkSignal::Arrived));
    let steps: Vec<WalkSignal> = seen.iter().copied().filter(|s| matches!(s, WalkSignal::StepStarted(_))).collect();
    assert_eq!(steps, vec![WalkSignal::StepStarted(pos(1, 0)), WalkSignal::StepStarted(pos(2, 0)), WalkSignal::StepStarted(pos(3, 0))]);
}

#[test]
fn idle_agent_without_destination_stays_put() {
    let mut sim = Simulation::new(field(3, 3));
    let a = sim.spawn_agent(pos(1, 1)).unwrap();
    for _ in 0..5 {
        assert_eq!(sim.tick(), vec![WalkSignal::Quiet]);
        assert!(sim.has_arrived(a));
        assert_eq!(sim.current_position(a), pos(1, 1));
        assert!(matches!(sim.path_state(a), AgentPathfinding::Nothing));
    }
}

#[test]
fn one_winner_per_contested_cell() {
    let mut sim = Simulation::new(field(3, 3));
    let target = pos(1, 1);
    let starts = [pos(0, 0), pos(2, 0), pos(0, 2), pos(2, 2)];
    let agents: Vec<usize> = starts.iter().map(|p| sim.spawn_agent(*p).unwrap()).collect();
    for &a in &agents {
        sim.set_destination(a, target);
    }
    let mut winners = 0;
    for _ in 0..40 {
        let signals = sim.tick();
        let started = signals.iter().filter(|s| matches!(s, WalkSignal::StepStarted(p) if *p == target)).count();
        assert!(started <= 1);
        if started == 1 {
            winners += 1;
            let waiting = agents
                .iter()
                .filter(|&&a| matches!(sim.path_state(a), AgentPathfinding::Ready(c) if c.status == AgentCurrentPathStatus::WaitingNextStep(0, 1)))
                .count();
            assert_eq!(waiting, 3);
        }
        markers_consistent(&sim, 3, 3);
    }
    assert_eq!(winners, 1);
    let holders: Vec<usize> = agents.iter().copied().filter(|&a| sim.current_position(a) == target).collect();
    assert_eq!(holders.len(), 1);
}

#[test]
fn retries_are_counted_while_blocked() {
    let mut sim = Simulation::new(field(3, 1));
    let a = sim.spawn_agent(pos(0, 0)).unwrap();
    sim.set_destination(a, pos(2, 0));
    while !matches!(sim.path_state(a), AgentPathfinding::Ready(_)) {
        sim.tick();
    }
    sim.spawn_agent(pos(1, 0)).unwrap();
    assert_eq!(sim.tick()[0], WalkSignal::Quiet);
    assert_eq!(sim.tick()[0], WalkSignal::Quiet);
    match sim.path_state(a) {
        AgentPathfinding::Ready(c) => assert_eq!(c.status, AgentCurrentPathStatus::WaitingNextStep(0, 2)),
        _ => panic!("expected a path"),
    }
}

#[test]
fn blocked_path_is_replanned_around_the_obstacle() {
    let mut sim = Simulation::new(field(6, 3));
    let a = sim.spawn_agent(pos(0, 0)).unwrap();
    sim.set_destination(a, pos(5, 0));
    let mut ticks = 0;
    while !matches!(sim.path_state(a), AgentPathfinding::Ready(_)) {
        sim.tick();
        ticks += 1;
        assert!(ticks < 100);
    }
    // Another agent now stands on (2, 0) and does not move.
    let blocker = sim.spawn_agent(pos(2, 0)).unwrap();
    let mut searches_after_block = 0;
    let mut blocked = 0;
    for _ in 0..200 {
        let s = tick_and_finish(&mut sim);
        if s[a] == WalkSignal::Searching {
            searches_after_block += 1;
        }
        if let AgentPathfinding::Ready(c) = sim.path_state(a) {
            if let AgentCurrentPathStatus::WaitingNextStep(_, r) = c.status {
                blocked = blocked.max(r);
            }
        }
        assert_ne!(sim.current_position(a), pos(2, 0));
        markers_consistent(&sim, 6, 3);
        if sim.has_arrived(a) {
            break;
        }
    }
    assert!(blocked > MAX_STEP_RETRIES);
    assert!(searches_after_block >= 1);
    assert!(sim.has_arrived(a));
    assert_eq!(sim.current_position(a), pos(5, 0));
    assert_eq!(sim.current_position(blocker), pos(2, 0));
}

#[test]
fn waiting_agent_proceeds_once_cell_clears() {
    let mut sim = Simulation::new(field(4, 1));
    let a = sim.spawn_agent(pos(0, 0)).unwrap();
    let b = sim.spawn_agent(pos(1, 0)).unwrap();
    sim.set_destination(a, pos(2, 0));
    sim.set_destination(b, pos(3, 0));
    for _ in 0..100 {
        tick_and_finish(&mut sim);
        markers_consistent(&sim, 4, 1);
        if sim.has_arrived(a) && sim.has_arrived(b) {
            break;
        }
    }
    assert!(sim.has_arrived(b));
    assert!(sim.has_arrived(a));
    assert_eq!(sim.current_position(b), pos(3, 0));
    assert_eq!(sim.current_position(a), pos(2, 0));
}

#[test]
fn spawn_on_held_cell_is_refused() {
    let mut sim = Simulation::new(field(2, 2));
    assert_eq!(sim.spawn_agent(pos(0, 0)), Some(0));
    assert_eq!(sim.spawn_agent(pos(0, 0)), None);
    assert_eq!(sim.spawn_agent(pos(1, 1)), Some(1));
    assert_eq!(sim.agent_count(), 2);
    assert!(sim.is_occupied(&pos(0, 0)));
    assert!(!sim.is_occupied(&pos(1, 0)));
}

#[test]
fn cancelling_keeps_the_held_cell() {
    let mut sim = Simulation::new(field(6, 1));
    let a = sim.spawn_agent(pos(0, 0)).unwrap();
    sim.set_destination(a, pos(5, 0));
    for _ in 0..8 {
        sim.tick();
    }
    let here = sim.current_position(a);
    sim.clear_destination(a);
    assert!(sim.has_arrived(a));
    assert!(sim.is_occupied(&here));
    assert_eq!(sim.tick(), vec![WalkSignal::Quiet]);
    assert_eq!(sim.current_position(a), here);
}

#[test]
fn same_destination_keeps_the_search() {
    let mut sim = Simulation::new(field(6, 1));
    let a = sim.spawn_agent(pos(0, 0)).unwrap();
    sim.set_destination(a, pos(5, 0));
    sim.tick();
    sim.tick();
    sim.set_destination(a, pos(5, 0));
    assert!(matches!(sim.path_state(a), AgentPathfinding::Calculating(_)));
    sim.set_destination(a, pos(4, 0));
    assert!(matches!(sim.path_state(a), AgentPathfinding::Nothing));
}

#[test]
fn unreachable_destination_keeps_replanning() {
    let mut index = field(5, 1);
    index.add_flags(2, 0, TileFlags::from_bits(gridwalk::tile::WALL), 0);
    let mut sim = Simulation::new(index);
    let a = sim.spawn_agent(pos(0, 0)).unwrap();
    sim.set_destination(a, pos(4, 0));
    let mut searching = 0;
    let mut following = 0;
    for _ in 0..60 {
        for s in tick_and_finish(&mut sim) {
            if s == WalkSignal::Searching {
                searching += 1;
            }
            if s == WalkSignal::Following {
                following += 1;
            }
        }
    }
    assert!(searching >= 3);
    assert!(following >= 3);
    assert!(!sim.has_arrived(a));
    assert!(sim.current_position(a).x < 2);
}

#[test]
fn spawning_needs_a_free_outside_tile() {
    let mut index = field(3, 1);
    index.register(5, 5, 99);
    let mut sim = Simulation::new(index);
    assert_eq!(sim.spawn_agent_outside(pos(5, 5)), None);
    assert_eq!(sim.spawn_agent_outside(pos(9, 9)), None);
    assert_eq!(sim.spawn_agent_outside(pos(1, 0)), Some(0));
    assert_eq!(sim.spawn_agent_outside(pos(1, 0)), None);
    assert_eq!(sim.agent_count(), 1);
}

#[test]
fn free_destinations_only() {
    let mut index = field(3, 1);
    index.add_flags(2, 0, TileFlags::from_bits(gridwalk::tile::DOOR), 0);
    let mut sim = Simulation::new(index);
    sim.spawn_agent(pos(0, 0)).unwrap();
    assert_eq!(sim.destination_if_free(pos(0, 0)), None);
    assert_eq!(sim.destination_if_free(pos(1, 0)), Some(pos(1, 0)));
    assert_eq!(sim.destination_if_free(pos(2, 0)), None);
    assert_eq!(sim.destination_if_free(pos(7, 7)), None);
}

#[test]
fn random_draws_stay_on_the_grid() {
    for _ in 0..200 {
        let p = get_random_position();
        assert!(0 <= p.x && p.x < GRID_WIDTH && 0 <= p.y && p.y < GRID_HEIGHT);
    }
    let mut sim = Simulation::new(field(GRID_WIDTH, GRID_HEIGHT));
    let mut spawned = 0;
    for _ in 0..200 {
        if let Some(a) = sim.try_spawn_at_random() {
            spawned += 1;
            let p = sim.current_position(a);
            assert!(sim.is_occupied(&p));
        }
        if let Some(d) = sim.try_random_destination() {
            assert!(!sim.is_occupied(&d));
        }
    }
    assert!(spawned > 100);
    markers_consistent(&sim, GRID_WIDTH, GRID_HEIGHT);
    let empty = Simulation::new(SpatialIndex::new());
    for _ in 0..50 {
        assert_eq!(empty.try_random_destination(), None);
    }
}

#[test]
fn destination_at_own_cell_is_an_arrival() {
    let mut sim = Simulation::new(field(3, 3));
    let a = sim.spawn_agent(pos(1, 1)).unwrap();
    sim.set_destination(a, pos(1, 1));
    let mut signals = Vec::new();
    for _ in 0..6 {
        signals.push(sim.tick()[0]);
        if sim.has_arrived(a) {
            break;
        }
    }
    assert_eq!(signals, vec![WalkSignal::Searching, WalkSignal::Following, WalkSignal::Arrived]);
    assert_eq!(sim.current_position(a), pos(1, 1));
}

#[test]
fn finished_search_is_followed_in_the_same_tick() {
    let mut sim = Simulation::new(field(2, 1));
    let a = sim.spawn_agent(pos(0, 0)).unwrap();
    sim.set_destination(a, pos(1, 0));
    assert_eq!(sim.tick(), vec![WalkSignal::Searching]);
    assert_eq!(sim.tick(), vec![WalkSignal::Quiet]);
    assert_eq!(sim.tick(), vec![WalkSignal::Following]);
    assert!(matches!(sim.path_state(a), AgentPathfinding::Ready(_)));
    assert_eq!(sim.tick(), vec![WalkSignal::StepStarted(pos(1, 0))]);
}

#[test]
fn changed_destination_drops_the_old_search_and_path() {
    let index = field(6, 3);
    let mut occupancy = OccupancyTable::new();
    let start = pos(0, 0);
    occupancy.mark(&start, 0);
    let occupied = CellSet::new();
    let mut w = Walker { position: start, destination: Some(pos(5, 0)), pathfinding: AgentPathfinding::Nothing };
    assert_eq!(check_agent_pathfinding(&mut w, 0, &index, &mut occupancy, &occupied), WalkSignal::Searching);
    assert_eq!(check_agent_pathfinding(&mut w, 0, &index, &mut occupancy, &occupied), WalkSignal::Quiet);
    w.destination = Some(pos(0, 2));
    assert_eq!(check_agent_pathfinding(&mut w, 0, &index, &mut occupancy, &occupied), WalkSignal::Searching);
    match &w.pathfinding {
        AgentPathfinding::Calculating(pf) => {
            assert_eq!(pf.goal, pos(0, 2));
            assert_eq!(pf.closed_list.len(), 0);
        }
        _ => panic!("expected a fresh search"),
    }
    let mut ticks = 0;
    while !matches!(w.pathfinding, AgentPathfinding::Ready(_)) {
        check_agent_pathfinding(&mut w, 0, &index, &mut occupancy, &occupied);
        ticks += 1;
        assert!(ticks < 50);
    }
    match &w.pathfinding {
        AgentPathfinding::Ready(c) => assert_eq!(c.goal, pos(0, 2)),
        _ => unreachable!(),
    }
    w.destination = Some(pos(5, 2));
    assert_eq!(check_agent_pathfinding(&mut w, 0, &index, &mut occupancy, &occupied), WalkSignal::Searching);
    match &w.pathfinding {
        AgentPathfinding::Calculating(pf) => assert_eq!(pf.goal, pos(5, 2)),
        _ => panic!("expected a fresh search"),
    }
    assert_eq!(w.position, start);
    assert_eq!(occupancy.owner_of(&start), Some(0));
}
