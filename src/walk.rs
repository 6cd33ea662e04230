//! The path-execution state machine of one agent: idle, searching, or
//! following a found path one reserved cell at a time.
use vstd::prelude::*;
use crate::grid::{GridPosition, scaled_dist};
use crate::occupancy::OccupancyTable;
use crate::pathfinder::{Pathfinder, PathfinderStatus, is_walk, step_allowed, step_result};
use crate::spatial_index::{CellSet, SpatialIndex};

verus! {

/// Failed attempts at the next cell after which the path is searched anew.
pub const MAX_STEP_RETRIES: usize = 10;

#[derive(Clone, Copy, Debug, PartialEq, Eq, Structural)]
pub enum AgentCurrentPathStatus {
    /// Waiting to start the step to path cell `.0`, after `.1` failed tries.
    WaitingNextStep(usize, usize),
    /// Moving to path cell `.0`.
    RunningStep(usize),
}

pub struct AgentCurrentPath {
    pub path: Vec<GridPosition>,
    /// The destination the path was found for.
    pub goal: GridPosition,
    pub status: AgentCurrentPathStatus,
}

pub enum AgentPathfinding {
    Nothing,
    Calculating(Pathfinder),
    Ready(AgentCurrentPath),
}

/// What one tick did for one agent, for the layers that show it.
#[derive(Clone, Copy, Debug, PartialEq, Eq, Structural)]
pub enum WalkSignal {
    /// Nothing to report (a blocked agent counting a failed try included).
    Quiet,
    /// A search started.
    Searching,
    /// A path was found and is being followed.
    Following,
    /// The destination was reached.
    Arrived,
    /// The agent reserved this cell and starts moving to it.
    StepStarted(GridPosition),
}

impl AgentPathfinding {
    pub open spec fn wf(&self) -> bool {
        match self {
            AgentPathfinding::Nothing => true,
            AgentPathfinding::Calculating(p) => p.wf(),
            AgentPathfinding::Ready(c) => match c.status {
                AgentCurrentPathStatus::WaitingNextStep(step, retry) => step <= c.path@.len()
                    && retry <= MAX_STEP_RETRIES + 1,
                AgentCurrentPathStatus::RunningStep(step) => step < c.path@.len(),
            },
        }
    }

    /// The path state fits an agent on `position`: a search started there
    /// and any path it found can be walked from there; the part of a path
    /// still to walk can be walked from the cell the agent holds.
    pub open spec fn on_track(&self, index: &SpatialIndex, position: GridPosition) -> bool {
        match self {
            AgentPathfinding::Nothing => true,
            AgentPathfinding::Calculating(p) => {
                &&& p.within(index)
                &&& !p.is_finished() ==> p.root() == position
                &&& p.is_finished() ==> is_walk(index, position, p.status->Finished_0@)
            },
            AgentPathfinding::Ready(c) => match c.status {
                AgentCurrentPathStatus::WaitingNextStep(step, _) => is_walk(
                    index,
                    position,
                    c.path@.skip(step as int),
                ),
                AgentCurrentPathStatus::RunningStep(step) => {
                    &&& position == c.path@[step as int]
                    &&& is_walk(index, position, c.path@.skip(step + 1))
                },
            },
        }
    }

    /// Drops whatever was going on and starts a search, as
    /// `Pathfinder::new` makes it.
    pub fn start_path_calculation(
        &mut self,
        agent_curr_position: &GridPosition,
        destination: &GridPosition,
    )
        ensures
            *final(self) is Calculating,
            fresh_search((*final(self))->Calculating_0, *agent_curr_position, *destination),
    {
        *self = AgentPathfinding::Calculating(Pathfinder::new(agent_curr_position, destination));
    }

    /// Starts following `path` from its first cell.
    pub fn start_walking_path(&mut self, path: Vec<GridPosition>, goal: GridPosition)
        ensures
            *final(self) is Ready,
            final(self).wf(),
            (*final(self))->Ready_0.path@ == path@,
            (*final(self))->Ready_0.goal == goal,
            (*final(self))->Ready_0.status == AgentCurrentPathStatus::WaitingNextStep(0, 0),
    {
        *self = AgentPathfinding::Ready(
            AgentCurrentPath { path, goal, status: AgentCurrentPathStatus::WaitingNextStep(0, 0) },
        );
    }

    pub fn reset(&mut self)
        ensures
            *final(self) is Nothing,
    {
        *self = AgentPathfinding::Nothing;
    }

    /// The step in flight is over: the agent stands on the cell it moved to
    /// and waits to start the next one, with no failed tries yet. In any
    /// other state nothing changes.
    pub fn finish_path_step(&mut self)
        requires
            old(self).wf(),
        ensures
            final(self).wf(),
            match *old(self) {
                AgentPathfinding::Ready(c) => match c.status {
                    AgentCurrentPathStatus::RunningStep(step) => {
                        &&& *final(self) is Ready
                        &&& (*final(self))->Ready_0.path@ == c.path@
                        &&& (*final(self))->Ready_0.goal == c.goal
                        &&& (*final(self))->Ready_0.status is WaitingNextStep
                        &&& (*final(self))->Ready_0.status->WaitingNextStep_0 == step + 1
                        &&& (*final(self))->Ready_0.status->WaitingNextStep_1 == 0
                    },
                    _ => *final(self) == *old(self),
                },
                _ => *final(self) == *old(self),
            },
    {
        match self {
            AgentPathfinding::Ready(curr_path) => {
                if let AgentCurrentPathStatus::RunningStep(step) = curr_path.status {
                    if step < curr_path.path.len() {
                        curr_path.status = AgentCurrentPathStatus::WaitingNextStep(step + 1, 0);
                    }
                }
            },
            _ => {},
        }
    }
}

/// One agent's movement state: the cell it holds, where it is asked to go,
/// and its path state.
pub struct Walker {
    pub position: GridPosition,
    pub destination: Option<GridPosition>,
    pub pathfinding: AgentPathfinding,
}

/// The first cell of a walk is one allowed step away, and the rest is a
/// walk from that cell.
proof fn lemma_walk_advance(index: &SpatialIndex, start: GridPosition, path: Seq<GridPosition>)
    requires
        is_walk(index, start, path),
        path.len() > 0,
    ensures
        step_allowed(index, start, path[0]),
        is_walk(index, path[0], path.skip(1)),
{
    reveal(is_walk);
    let rest = path.skip(1);
    assert forall|i: int| 0 <= i < rest.len() implies step_allowed(
        index,
        if i == 0 {
            path[0]
        } else {
            rest[i - 1]
        },
        #[trigger] rest[i],
    ) by {
        assert(rest[i] == path[i + 1]);
        if i > 0 {
            assert(rest[i - 1] == path[i]);
        }
    }
}

/// `pf` is a fresh search from `start` to `goal`, as `Pathfinder::new`
/// makes it.
pub open spec fn fresh_search(pf: Pathfinder, start: GridPosition, goal: GridPosition) -> bool {
    &&& pf.wf()
    &&& pf.goal == goal
    &&& pf.status == PathfinderStatus::Calculating(0)
    &&& pf.closed_list@.len() == 0
    &&& pf.open_list@.len() == 1
    &&& pf.open_list@[0].position == start
    &&& pf.open_list@[0].parent.is_none()
    &&& pf.open_list@[0].g == 0
    &&& pf.open_list@[0].h == scaled_dist(start, goal)
    &&& pf.open_list@[0].f == pf.open_list@[0].h
}

/// The path state is a fresh search from the agent's cell to `goal`.
pub open spec fn searching_from(w: Walker, goal: GridPosition) -> bool {
    &&& w.pathfinding is Calculating
    &&& fresh_search(w.pathfinding->Calculating_0, w.position, goal)
}

/// The path state follows `path`, found for `goal`, from its first cell,
/// with no failed try.
pub open spec fn takes_path(p: AgentPathfinding, path: Seq<GridPosition>, goal: GridPosition) -> bool {
    &&& p is Ready
    &&& p->Ready_0.path@ == path
    &&& p->Ready_0.goal == goal
    &&& p->Ready_0.status == AgentCurrentPathStatus::WaitingNextStep(0, 0)
}

/// What the tick does to agent `me` (`w0` to `w1`, the occupancy table
/// `o0` to `o1`) while it waits to start step `step` of the path in `c`
/// after `retry` failed tries: it replans after too many of them, or once
/// the path is used up short of `dest`; it arrives once the path is used up
/// at `dest` (or is empty and the agent stands on `dest`); otherwise it
/// reserves the next cell of the path if no agent claimed or holds it, or
/// counts one more failed try.
pub open spec fn waiting_step(
    index: &SpatialIndex,
    me: usize,
    dest: GridPosition,
    c: AgentCurrentPath,
    step: usize,
    retry: usize,
    w0: Walker,
    w1: Walker,
    o0: OccupancyTable,
    o1: OccupancyTable,
    signal: WalkSignal,
) -> bool {
    if retry > MAX_STEP_RETRIES {
        signal == WalkSignal::Searching && searching_from(w1, dest)
    } else if step == c.path@.len() {
        if (c.path@.len() > 0 && c.path@.last() == dest) || (c.path@.len() == 0 && w0.position
            == dest) {
            signal == WalkSignal::Arrived && w1.pathfinding is Nothing
        } else {
            signal == WalkSignal::Searching && searching_from(w1, dest)
        }
    } else {
        let next = c.path@[step as int];
        if !o0.claimed_now(next) && o0.owner(next).is_none() {
            &&& signal == WalkSignal::StepStarted(next)
            &&& step_allowed(index, w0.position, next)
            &&& w1.position == next
            &&& w1.pathfinding is Ready
            &&& w1.pathfinding->Ready_0.path@ == c.path@
            &&& w1.pathfinding->Ready_0.goal == c.goal
            &&& w1.pathfinding->Ready_0.status == AgentCurrentPathStatus::RunningStep(step)
            &&& forall|q: GridPosition|
                #[trigger] o1.owner(q) == if q == next {
                    Some(me)
                } else if q == w0.position {
                    None
                } else {
                    o0.owner(q)
                }
            &&& forall|q: GridPosition|
                #[trigger] o1.claimed_now(q) == (q == next || o0.claimed_now(q))
        } else {
            &&& signal == WalkSignal::Quiet
            &&& w1.pathfinding is Ready
            &&& w1.pathfinding->Ready_0.path@ == c.path@
            &&& w1.pathfinding->Ready_0.goal == c.goal
            &&& w1.pathfinding->Ready_0.status == AgentCurrentPathStatus::WaitingNextStep(
                step,
                (retry + 1) as usize,
            )
        }
    }
}

/// What one tick does to agent `me`, from `w0` to `w1`, the occupancy table
/// going from `o0` to `o1`; `occupied` holds the cells agents held when the
/// tick began. Without a destination, the path state is dropped. With one:
/// an idle agent, or one whose search or path is for another destination,
/// starts a fresh search from its cell; a searching agent runs one step of
/// its search (unless it is finished already) and, once it is finished,
/// follows the path found; an agent waiting to move acts as `waiting_step`
/// says; an agent moving is left alone.
pub open spec fn agent_tick(
    index: &SpatialIndex,
    occupied: &CellSet,
    me: usize,
    w0: Walker,
    w1: Walker,
    o0: OccupancyTable,
    o1: OccupancyTable,
    signal: WalkSignal,
) -> bool {
    &&& w1.pathfinding.wf()
    &&& w1.pathfinding.on_track(index, w1.position)
    &&& w1.destination == if signal == WalkSignal::Arrived {
        None
    } else {
        w0.destination
    }
    &&& signal is StepStarted || (w1.position == w0.position && o1 == o0)
    &&& match w0.destination {
        None => {
            &&& signal == WalkSignal::Quiet
            &&& w1.pathfinding is Nothing
            &&& w0.pathfinding is Nothing ==> w1 == w0
        },
        Some(dest) => match w0.pathfinding {
            AgentPathfinding::Nothing => signal == WalkSignal::Searching && searching_from(w1, dest),
            AgentPathfinding::Calculating(pf) => if pf.goal != dest {
                signal == WalkSignal::Searching && searching_from(w1, dest)
            } else if pf.is_finished() {
                signal == WalkSignal::Following && takes_path(
                    w1.pathfinding,
                    pf.status->Finished_0@,
                    dest,
                )
            } else {
                exists|next: Pathfinder|
                    #![trigger step_result(pf, next, index, occupied)]
                    step_result(pf, next, index, occupied) && if next.is_finished() {
                        signal == WalkSignal::Following && takes_path(
                            w1.pathfinding,
                            next.status->Finished_0@,
                            dest,
                        )
                    } else {
                        signal == WalkSignal::Quiet && w1.pathfinding == AgentPathfinding::Calculating(
                            next,
                        )
                    }
            },
            AgentPathfinding::Ready(c) => if c.goal != dest {
                signal == WalkSignal::Searching && searching_from(w1, dest)
            } else {
                match c.status {
                    AgentCurrentPathStatus::RunningStep(_) => signal == WalkSignal::Quiet && w1 == w0,
                    AgentCurrentPathStatus::WaitingNextStep(step, retry) => waiting_step(
                        index,
                        me,
                        dest,
                        c,
                        step,
                        retry,
                        w0,
                        w1,
                        o0,
                        o1,
                        signal,
                    ),
                }
            },
        },
    }
}

/// One tick of the state machine for the agent `me`, as `agent_tick` states.
pub fn check_agent_pathfinding(
    walker: &mut Walker,
    me: usize,
    spatial_index: &SpatialIndex,
    occupancy: &mut OccupancyTable,
    dynamic_occupied_tiles: &CellSet,
) -> (signal: WalkSignal)
    requires
        spatial_index.wf(),
        old(walker).pathfinding.wf(),
        old(walker).pathfinding.on_track(spatial_index, old(walker).position),
    ensures
        agent_tick(
            spatial_index,
            dynamic_occupied_tiles,
            me,
            *old(walker),
            *final(walker),
            *old(occupancy),
            *final(occupancy),
            signal,
        ),
{
    let dest = match walker.destination {
        None => {
            walker.pathfinding.reset();
            return WalkSignal::Quiet;
        },
        Some(d) => d,
    };
    let position = walker.position;
    match &mut walker.pathfinding {
        AgentPathfinding::Nothing => {
            walker.pathfinding.start_path_calculation(&position, &dest);
            WalkSignal::Searching
        },
        AgentPathfinding::Calculating(pathfinder) => {
            if pathfinder.goal != dest {
                walker.pathfinding.start_path_calculation(&position, &dest);
                return WalkSignal::Searching;
            }
            let ghost before = *pathfinder;
            if let PathfinderStatus::Calculating(_) = pathfinder.status {
                pathfinder.step(spatial_index, dynamic_occupied_tiles);
            }
            let ghost after = *pathfinder;
            match pathfinder.get_path_if_finished() {
                Some(path) => {
                    assert(path@.skip(0) =~= path@);
                    assert(is_walk(spatial_index, position, path@.skip(0)));
                    walker.pathfinding.start_walking_path(path, dest);
                    WalkSignal::Following
                },
                None => {
                    assert(*pathfinder == after);
                    WalkSignal::Quiet
                },
            }
        },
        AgentPathfinding::Ready(current_path) => {
            if current_path.goal != dest {
                walker.pathfinding.start_path_calculation(&position, &dest);
                return WalkSignal::Searching;
            }
            match current_path.status {
                AgentCurrentPathStatus::RunningStep(_) => WalkSignal::Quiet,
                AgentCurrentPathStatus::WaitingNextStep(_, _) => {
                    follow_path(walker, me, dest, spatial_index, occupancy)
                },
            }
        },
    }
}

/// The tick of an agent waiting to walk to the next cell of its path, as
/// `waiting_step` states.
#[verifier::rlimit(100)]
fn follow_path(
    walker: &mut Walker,
    me: usize,
    dest: GridPosition,
    spatial_index: &SpatialIndex,
    occupancy: &mut OccupancyTable,
) -> (signal: WalkSignal)
    requires
        old(walker).pathfinding.wf(),
        old(walker).pathfinding.on_track(spatial_index, old(walker).position),
        old(walker).pathfinding is Ready,
        old(walker).pathfinding->Ready_0.status is WaitingNextStep,
        old(walker).destination == Some(dest),
    ensures
        final(walker).pathfinding.wf(),
        final(walker).pathfinding.on_track(spatial_index, final(walker).position),
        final(walker).destination == if signal == WalkSignal::Arrived {
            None
        } else {
            old(walker).destination
        },
        signal is StepStarted || (final(walker).position == old(walker).position && *final(occupancy)
            == *old(occupancy)),
        waiting_step(
            spatial_index,
            me,
            dest,
            old(walker).pathfinding->Ready_0,
            old(walker).pathfinding->Ready_0.status->WaitingNextStep_0,
            old(walker).pathfinding->Ready_0.status->WaitingNextStep_1,
            *old(walker),
            *final(walker),
            *old(occupancy),
            *final(occupancy),
            signal,
        ),
{
    let position = walker.position;
    match &mut walker.pathfinding {
        AgentPathfinding::Ready(current_path) => {
            match current_path.status {
                AgentCurrentPathStatus::WaitingNextStep(step, retry) => {
                    if retry > MAX_STEP_RETRIES {
                        walker.pathfinding.start_path_calculation(&position, &dest);
                        return WalkSignal::Searching;
                    }
                    let len = current_path.path.len();
                    if step == len {
                        if (len > 0 && current_path.path[len - 1] == dest) || (len == 0 && position
                            == dest) {
                            walker.pathfinding.reset();
                            walker.destination = None;
                            return WalkSignal::Arrived;
                        }
                        walker.pathfinding.start_path_calculation(&position, &dest);
                        return WalkSignal::Searching;
                    }
                    claim_next(walker, me, spatial_index, occupancy)
                },
                AgentCurrentPathStatus::RunningStep(_) => WalkSignal::Quiet,
            }
        },
        _ => WalkSignal::Quiet,
    }
}

/// The part of `waiting_step` where the path is not used up: the agent
/// reserves the next cell or counts one more failed try.
#[verifier::rlimit(100)]
fn claim_next(
    walker: &mut Walker,
    me: usize,
    spatial_index: &SpatialIndex,
    occupancy: &mut OccupancyTable,
) -> (signal: WalkSignal)
    requires
        old(walker).pathfinding.wf(),
        old(walker).pathfinding.on_track(spatial_index, old(walker).position),
        old(walker).pathfinding is Ready,
        old(walker).pathfinding->Ready_0.status is WaitingNextStep,
        old(walker).pathfinding->Ready_0.status->WaitingNextStep_0
            < old(walker).pathfinding->Ready_0.path@.len(),
        old(walker).pathfinding->Ready_0.status->WaitingNextStep_1 <= MAX_STEP_RETRIES,
    ensures
        final(walker).pathfinding.wf(),
        final(walker).pathfinding.on_track(spatial_index, final(walker).position),
        final(walker).destination == old(walker).destination,
        signal is StepStarted || (final(walker).position == old(walker).position && *final(occupancy)
            == *old(occupancy)),
        ({
            let c = old(walker).pathfinding->Ready_0;
            let step = c.status->WaitingNextStep_0;
            let retry = c.status->WaitingNextStep_1;
            let next = c.path@[step as int];
            let (w0, w1, o0, o1) = (*old(walker), *final(walker), *old(occupancy), *final(occupancy));
            if !o0.claimed_now(next) && o0.owner(next).is_none() {
                &&& signal == WalkSignal::StepStarted(next)
                &&& step_allowed(spatial_index, w0.position, next)
                &&& w1.position == next
                &&& w1.pathfinding is Ready
                &&& w1.pathfinding->Ready_0.path@ == c.path@
                &&& w1.pathfinding->Ready_0.goal == c.goal
                &&& w1.pathfinding->Ready_0.status == AgentCurrentPathStatus::RunningStep(step)
                &&& forall|q: GridPosition|
                    #[trigger] o1.owner(q) == if q == next {
                        Some(me)
                    } else if q == w0.position {
                        None
                    } else {
                        o0.owner(q)
                    }
                &&& forall|q: GridPosition|
                    #[trigger] o1.claimed_now(q) == (q == next || o0.claimed_now(q))
            } else {
                &&& signal == WalkSignal::Quiet
                &&& w1.pathfinding is Ready
                &&& w1.pathfinding->Ready_0.path@ == c.path@
                &&& w1.pathfinding->Ready_0.goal == c.goal
                &&& w1.pathfinding->Ready_0.status == AgentCurrentPathStatus::WaitingNextStep(
                    step,
                    (retry + 1) as usize,
                )
            }
        }),
{
    let position = walker.position;
    match &mut walker.pathfinding {
        AgentPathfinding::Ready(current_path) => {
            match current_path.status {
                AgentCurrentPathStatus::WaitingNextStep(step, retry) => {
                    let next = current_path.path[step];
                    proof {
                        let rest = current_path.path@.skip(step as int);
                        lemma_walk_advance(spatial_index, position, rest);
                        assert(rest[0] == next);
                        assert(rest.skip(1) =~= current_path.path@.skip(step + 1));
                    }
                    if occupancy.try_claim(&position, &next, me) {
                        current_path.status = AgentCurrentPathStatus::RunningStep(step);
                        walker.position = next;
                        WalkSignal::StepStarted(next)
                    } else {
                        current_path.status = AgentCurrentPathStatus::WaitingNextStep(
                            step,
                            retry + 1,
                        );
                        WalkSignal::Quiet
                    }
                },
                AgentCurrentPathStatus::RunningStep(_) => WalkSignal::Quiet,
            }
        },
        _ => WalkSignal::Quiet,
    }
}

} // verus!
