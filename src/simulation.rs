//! The world the agents move in: the spatial index, the occupancy table and
//! every agent's movement state, advanced one tick at a time.
use vstd::prelude::*;
use crate::approach::valid_destination;
use crate::grid::{GridPosition, get_random_position, in_grid};
use crate::tile::{OUTSIDE, has_all};
use crate::occupancy::OccupancyTable;
use crate::spatial_index::{CellSet, SpatialIndex};
use crate::pathfinder::{is_walk, step_allowed};
use crate::walk::{agent_tick, AgentCurrentPathStatus, AgentPathfinding, WalkSignal, Walker, check_agent_pathfinding};

verus! {

pub struct Simulation {
    index: SpatialIndex,
    occupancy: OccupancyTable,
    agents: Vec<Walker>,
}

/// A tick from `before` to `after` went agent by agent: `occupied` holds
/// the cells agents held when it began, and `tables[i]` is the occupancy
/// table agent `i` found (the first one without the claims of the previous
/// tick, the last one the table the tick left); each agent moved as
/// `agent_tick` states, with the signal it gave.
pub open spec fn tick_trace(
    before: Simulation,
    after: Simulation,
    signals: Seq<WalkSignal>,
    occupied: CellSet,
    tables: Seq<OccupancyTable>,
) -> bool {
    let n = before.agents_spec().len();
    &&& held_cells(occupied, before.agents_spec())
    &&& forall|i: int| 0 <= i < n ==> occupied.contains_spec(#[trigger] before.agents_spec()[i].position)
    &&& tables.len() == n + 1
    &&& forall|p: GridPosition|
        #[trigger] tables[0].owner(p) == before.occupancy_spec().owner(p) && !tables[0].claimed_now(p)
    &&& tables[n as int] == after.occupancy_spec()
    &&& forall|i: int|
        0 <= i < n ==> agent_tick(
            &before.index_spec(),
            &occupied,
            i as usize,
            before.agents_spec()[i],
            #[trigger] after.agents_spec()[i],
            tables[i],
            tables[i + 1],
            signals[i],
        )
}

/// `cells` holds exactly the cells of the agents in `agents`.
pub open spec fn held_cells(cells: CellSet, agents: Seq<Walker>) -> bool {
    forall|p: GridPosition|
        #[trigger] cells.contains_spec(p) ==> exists|k: int|
            0 <= k < agents.len() && agents[k].position == p
}

impl Simulation {
    pub closed spec fn index_spec(&self) -> SpatialIndex {
        self.index
    }

    pub closed spec fn occupancy_spec(&self) -> OccupancyTable {
        self.occupancy
    }

    pub closed spec fn agents_spec(&self) -> Seq<Walker> {
        self.agents@
    }

    /// Each agent's marker is on the cell it holds, and every marker belongs
    /// to the agent holding that cell.
    pub open spec fn wf(&self) -> bool {
        &&& self.index_spec().wf()
        &&& self.agents_spec().len() <= usize::MAX
        &&& forall|i: int|
            0 <= i < self.agents_spec().len() ==> {
                &&& self.occupancy_spec().owner((#[trigger] self.agents_spec()[i]).position) == Some(
                    i as usize,
                )
                &&& self.agents_spec()[i].pathfinding.wf()
                &&& self.agents_spec()[i].pathfinding.on_track(
                    &self.index_spec(),
                    self.agents_spec()[i].position,
                )
            }
        &&& forall|p: GridPosition|
            #![trigger self.occupancy_spec().owner(p)]
            self.occupancy_spec().owner(p) is Some ==> {
                let o = self.occupancy_spec().owner(p).unwrap() as int;
                &&& 0 <= o < self.agents_spec().len()
                &&& self.agents_spec()[o].position == p
            }
    }

    /// A world with the tiles of `index` and no agent.
    pub fn new(index: SpatialIndex) -> (r: Simulation)
        requires
            index.wf(),
        ensures
            r.wf(),
            r.index_spec() == index,
            r.agents_spec().len() == 0,
    {
        Simulation { index, occupancy: OccupancyTable::new(), agents: Vec::new() }
    }

    pub fn spatial_index(&self) -> (r: &SpatialIndex)
        ensures
            *r == self.index_spec(),
    {
        &self.index
    }

    pub fn agent_count(&self) -> (r: usize)
        ensures
            r == self.agents_spec().len(),
    {
        self.agents.len()
    }

    /// Places a new idle agent on `position` and returns its number, or
    /// `None` when another agent holds that cell (or no number is left).
    pub fn spawn_agent(&mut self, position: GridPosition) -> (r: Option<usize>)
        requires
            old(self).wf(),
        ensures
            final(self).wf(),
            final(self).index_spec() == old(self).index_spec(),
            r.is_some() == (old(self).occupancy_spec().owner(position).is_none()
                && old(self).agents_spec().len() < usize::MAX),
            match r {
                Some(i) => {
                    &&& i == old(self).agents_spec().len()
                    &&& final(self).agents_spec() == old(self).agents_spec().push(
                        Walker {
                            position,
                            destination: None,
                            pathfinding: AgentPathfinding::Nothing,
                        },
                    )
                },
                None => *final(self) == *old(self),
            },
    {
        let id = self.agents.len();
        if self.occupancy.is_occupied(&position) || id == usize::MAX {
            return None;
        }
        self.occupancy.mark(&position, id);
        self.agents.push(
            Walker { position, destination: None, pathfinding: AgentPathfinding::Nothing },
        );
        Some(id)
    }

    /// Places a new idle agent on `position` when that cell has an outside
    /// tile and no agent holds it; otherwise changes nothing.
    pub fn spawn_agent_outside(&mut self, position: GridPosition) -> (r: Option<usize>)
        requires
            old(self).wf(),
        ensures
            final(self).wf(),
            final(self).index_spec() == old(self).index_spec(),
            r.is_some() == (old(self).index_spec().lookup(position) is Some && has_all(
                old(self).index_spec().lookup(position).unwrap().flags.bits,
                OUTSIDE,
            ) && old(self).occupancy_spec().owner(position).is_none()
                && old(self).agents_spec().len() < usize::MAX),
            match r {
                Some(i) => {
                    &&& i == old(self).agents_spec().len()
                    &&& final(self).agents_spec() == old(self).agents_spec().push(
                        Walker {
                            position,
                            destination: None,
                            pathfinding: AgentPathfinding::Nothing,
                        },
                    )
                },
                None => *final(self) == *old(self),
            },
    {
        match self.index.get_tile_data(position.x, position.y) {
            Some(tile) => {
                if tile.is_outside() {
                    self.spawn_agent(position)
                } else {
                    None
                }
            },
            None => None,
        }
    }

    /// Draws a random cell of the grid and spawns an agent there as
    /// `spawn_agent_outside` does.
    pub fn try_spawn_at_random(&mut self) -> (r: Option<usize>)
        requires
            old(self).wf(),
        ensures
            final(self).wf(),
            final(self).index_spec() == old(self).index_spec(),
            match r {
                Some(i) => {
                    let p = final(self).agents_spec()[i as int].position;
                    &&& i == old(self).agents_spec().len()
                    &&& final(self).agents_spec() == old(self).agents_spec().push(
                        Walker { position: p, destination: None, pathfinding: AgentPathfinding::Nothing },
                    )
                    &&& in_grid(p)
                    &&& old(self).index_spec().lookup(p) is Some
                    &&& has_all(old(self).index_spec().lookup(p).unwrap().flags.bits, OUTSIDE)
                    &&& old(self).occupancy_spec().owner(p).is_none()
                },
                None => *final(self) == *old(self),
            },
    {
        let p = get_random_position();
        let r = self.spawn_agent_outside(p);
        proof {
            if let Some(i) = r {
                assert(self.agents_spec()[i as int].position == p);
            }
        }
        r
    }

    /// `Some(p)` when an agent may be sent to `p` and no agent holds it.
    pub fn destination_if_free(&self, p: GridPosition) -> (r: Option<GridPosition>)
        ensures
            r == if valid_destination(&self.index_spec(), p) && self.occupancy_spec().owner(p).is_none() {
                Some(p)
            } else {
                None::<GridPosition>
            },
    {
        match self.index.get_tile_data(p.x, p.y) {
            Some(tile) => {
                if tile.is_valid_destination() && !self.occupancy.is_occupied(&p) {
                    Some(p)
                } else {
                    None
                }
            },
            None => None,
        }
    }

    /// Draws a random cell of the grid and keeps it as `destination_if_free`
    /// does.
    pub fn try_random_destination(&self) -> (r: Option<GridPosition>)
        ensures
            match r {
                Some(p) => in_grid(p) && valid_destination(&self.index_spec(), p)
                    && self.occupancy_spec().owner(p).is_none(),
                None => true,
            },
    {
        let p = get_random_position();
        self.destination_if_free(p)
    }

    /// The cell agent `agent` holds.
    pub fn current_position(&self, agent: usize) -> (r: GridPosition)
        requires
            agent < self.agents_spec().len(),
        ensures
            r == self.agents_spec()[agent as int].position,
    {
        self.agents[agent].position
    }

    /// Whether agent `agent` is idle with no destination.
    pub fn has_arrived(&self, agent: usize) -> (r: bool)
        requires
            agent < self.agents_spec().len(),
        ensures
            r == (self.agents_spec()[agent as int].pathfinding is Nothing
                && self.agents_spec()[agent as int].destination is None),
    {
        let w = &self.agents[agent];
        match (&w.pathfinding, &w.destination) {
            (AgentPathfinding::Nothing, None) => true,
            _ => false,
        }
    }

    /// Whether some agent holds `p`.
    pub fn is_occupied(&self, p: &GridPosition) -> (r: bool)
        ensures
            r == self.occupancy_spec().owner(*p).is_some(),
    {
        self.occupancy.is_occupied(p)
    }

    /// The path state of agent `agent`.
    pub fn path_state(&self, agent: usize) -> (r: &AgentPathfinding)
        requires
            agent < self.agents_spec().len(),
        ensures
            *r == self.agents_spec()[agent as int].pathfinding,
    {
        &self.agents[agent].pathfinding
    }

    /// Sends agent `agent` to `destination`. A new destination drops the
    /// search or path under way; the same one changes nothing.
    pub fn set_destination(&mut self, agent: usize, destination: GridPosition)
        requires
            old(self).wf(),
            agent < old(self).agents_spec().len(),
        ensures
            final(self).wf(),
            final(self).index_spec() == old(self).index_spec(),
            final(self).agents_spec().len() == old(self).agents_spec().len(),
            forall|i: int|
                #![trigger final(self).agents_spec()[i]]
                0 <= i < old(self).agents_spec().len() && i != agent ==> final(self).agents_spec()[i]
                    == old(self).agents_spec()[i],
            final(self).agents_spec()[agent as int].position == old(self).agents_spec()[agent as int].position,
            final(self).agents_spec()[agent as int].destination == Some(destination),
            if old(self).agents_spec()[agent as int].destination == Some(destination) {
                final(self).agents_spec()[agent as int] == old(self).agents_spec()[agent as int]
            } else {
                final(self).agents_spec()[agent as int].pathfinding is Nothing
            },
    {
        let w = &mut self.agents[agent];
        if w.destination != Some(destination) {
            w.destination = Some(destination);
            w.pathfinding.reset();
        }
    }

    /// Cancels agent `agent`'s walk: no destination, idle. The cell it
    /// holds stays its own.
    pub fn clear_destination(&mut self, agent: usize)
        requires
            old(self).wf(),
            agent < old(self).agents_spec().len(),
        ensures
            final(self).wf(),
            final(self).index_spec() == old(self).index_spec(),
            final(self).agents_spec() == old(self).agents_spec().update(
                agent as int,
                Walker {
                    position: old(self).agents_spec()[agent as int].position,
                    destination: None,
                    pathfinding: AgentPathfinding::Nothing,
                },
            ),
    {
        let w = &mut self.agents[agent];
        w.destination = None;
        w.pathfinding.reset();
    }

    /// The movement of agent `agent` to the cell it reserved is over.
    pub fn finish_step(&mut self, agent: usize)
        requires
            old(self).wf(),
            agent < old(self).agents_spec().len(),
        ensures
            final(self).wf(),
            final(self).index_spec() == old(self).index_spec(),
            final(self).agents_spec().len() == old(self).agents_spec().len(),
            forall|i: int|
                #![trigger final(self).agents_spec()[i]]
                0 <= i < old(self).agents_spec().len() && i != agent ==> final(self).agents_spec()[i]
                    == old(self).agents_spec()[i],
            final(self).agents_spec()[agent as int].position == old(self).agents_spec()[agent as int].position,
            final(self).agents_spec()[agent as int].destination == old(self).agents_spec()[agent as int].destination,
            ({
                let w0 = old(self).agents_spec()[agent as int];
                let w1 = final(self).agents_spec()[agent as int];
                if w0.pathfinding is Ready && w0.pathfinding->Ready_0.status is RunningStep {
                    let c = w0.pathfinding->Ready_0;
                    &&& w1.pathfinding is Ready
                    &&& w1.pathfinding->Ready_0.path@ == c.path@
                    &&& w1.pathfinding->Ready_0.goal == c.goal
                    &&& w1.pathfinding->Ready_0.status is WaitingNextStep
                    &&& w1.pathfinding->Ready_0.status->WaitingNextStep_0 == c.status->RunningStep_0 + 1
                    &&& w1.pathfinding->Ready_0.status->WaitingNextStep_1 == 0
                } else {
                    w1 == w0
                }
            }),
    {
        let ghost before = self.agents@[agent as int];
        self.agents[agent].pathfinding.finish_path_step();
        proof {
            let after = self.agents@[agent as int];
            if let AgentPathfinding::Ready(c) = before.pathfinding {
                if let AgentCurrentPathStatus::RunningStep(step) = c.status {
                    let path = after.pathfinding->Ready_0.path@;
                    assert(path == c.path@);
                    assert(is_walk(&self.index, before.position, path.skip(step + 1)));
                    assert(after.pathfinding.on_track(&self.index, after.position));
                }
            }
        }
    }

    /// The cells agents hold now, which searches treat as blocked.
    fn occupied_cells(&self) -> (r: CellSet)
        ensures
            forall|i: int|
                0 <= i < self.agents_spec().len() ==> r.contains_spec(
                    #[trigger] self.agents_spec()[i].position,
                ),
            held_cells(r, self.agents_spec()),
    {
        let mut cells = CellSet::new();
        let mut i: usize = 0;
        while i < self.agents.len()
            invariant
                i <= self.agents@.len(),
                forall|k: int| 0 <= k < i ==> cells.contains_spec(#[trigger] self.agents@[k].position),
                held_cells(cells, self.agents@.take(i as int)),
            decreases self.agents@.len() - i,
        {
            let ghost before = cells;
            cells.insert(self.agents[i].position);
            proof {
                let done = self.agents@.take(i + 1);
                assert forall|p: GridPosition| #[trigger] cells.contains_spec(p) implies exists|k: int|
                    0 <= k < done.len() && done[k].position == p by {
                    if p == self.agents@[i as int].position {
                        assert(done[i as int].position == p);
                    } else {
                        let k = choose|k: int|
                            0 <= k < i && #[trigger] self.agents@.take(i as int)[k].position == p;
                        assert(done[k] == self.agents@.take(i as int)[k]);
                    }
                }
            }
            i = i + 1;
        }
        assert(self.agents@.take(i as int) =~= self.agents@);
        cells
    }

    /// One tick: the claims of the last tick are forgotten, then every agent
    /// in turn runs one transition of its state machine; the first agent to
    /// ask for a free cell gets it. Returns each agent's signal, in order.
    /// An agent moves only when it starts a step, and then by one allowed
    /// step; an idle agent with no destination is left as it is.
    pub fn tick(&mut self) -> (signals: Vec<WalkSignal>)
        requires
            old(self).wf(),
        ensures
            final(self).wf(),
            final(self).index_spec() == old(self).index_spec(),
            final(self).agents_spec().len() == old(self).agents_spec().len(),
            signals@.len() == old(self).agents_spec().len(),
            forall|i: int, j: int|
                0 <= i < signals@.len() && 0 <= j < signals@.len() && i != j && (
                #[trigger] signals@[i]) is StepStarted ==> signals@[i] != #[trigger] signals@[j],
            forall|i: int|
                #![trigger final(self).agents_spec()[i]]
                0 <= i < old(self).agents_spec().len() ==> {
                    &&& !(signals@[i] is StepStarted) ==> final(self).agents_spec()[i].position
                        == old(self).agents_spec()[i].position
                    &&& signals@[i] is StepStarted ==> signals@[i] == WalkSignal::StepStarted(
                        final(self).agents_spec()[i].position,
                    )
                    &&& signals@[i] is StepStarted ==> step_allowed(
                        &old(self).index_spec(),
                        old(self).agents_spec()[i].position,
                        final(self).agents_spec()[i].position,
                    )
                    &&& old(self).agents_spec()[i].pathfinding is Nothing
                        && old(self).agents_spec()[i].destination is None
                        ==> final(self).agents_spec()[i] == old(self).agents_spec()[i]
                },
            exists|occupied: CellSet, tables: Seq<OccupancyTable>|
                #![trigger tick_trace(*old(self), *final(self), signals@, occupied, tables)]
                tick_trace(*old(self), *final(self), signals@, occupied, tables),
    {
        self.occupancy.begin_tick();
        let dynamic_occupied_tiles = self.occupied_cells();
        let ghost mut tables: Seq<OccupancyTable> = seq![self.occupancy];
        let mut signals: Vec<WalkSignal> = Vec::new();
        let n = self.agents.len();
        let mut i: usize = 0;
        while i < n
            invariant
                n == self.agents@.len(),
                n == old(self).agents@.len(),
                i <= n,
                self.index == old(self).index,
                self.wf(),
                signals@.len() == i,
                held_cells(dynamic_occupied_tiles, old(self).agents@),
                forall|k: int|
                    0 <= k < n ==> dynamic_occupied_tiles.contains_spec(
                        #[trigger] old(self).agents@[k].position,
                    ),
                tables.len() == i + 1,
                tables[i as int] == self.occupancy,
                forall|p: GridPosition|
                    #[trigger] tables[0].owner(p) == old(self).occupancy.owner(p)
                        && !tables[0].claimed_now(p),
                forall|k: int|
                    0 <= k < i ==> agent_tick(
                        &old(self).index,
                        &dynamic_occupied_tiles,
                        k as usize,
                        old(self).agents@[k],
                        #[trigger] self.agents@[k],
                        tables[k],
                        tables[k + 1],
                        signals@[k],
                    ),
                forall|k: int|
                    #![trigger self.agents@[k]]
                    i <= k < n ==> self.agents@[k] == old(self).agents@[k],
                forall|k: int|
                    #![trigger self.agents@[k]]
                    0 <= k < i ==> {
                        &&& !(signals@[k] is StepStarted) ==> self.agents@[k].position
                            == old(self).agents@[k].position
                        &&& signals@[k] is StepStarted ==> signals@[k] == WalkSignal::StepStarted(
                            self.agents@[k].position,
                        )
                        &&& signals@[k] is StepStarted ==> step_allowed(
                            &old(self).index,
                            old(self).agents@[k].position,
                            self.agents@[k].position,
                        )
                        &&& old(self).agents@[k].pathfinding is Nothing
                            && old(self).agents@[k].destination is None
                            ==> self.agents@[k] == old(self).agents@[k]
                    },
            decreases n - i,
        {
            let ghost before = *self;
            let signal = check_agent_pathfinding(
                &mut self.agents[i],
                i,
                &self.index,
                &mut self.occupancy,
                &dynamic_occupied_tiles,
            );
            proof {
                assert forall|k: int| 0 <= k < n && k != i implies self.agents@[k]
                    == before.agents@[k] by {}
                if signal is StepStarted {
                    let next = self.agents@[i as int].position;
                    assert forall|k: int| 0 <= k < n implies self.occupancy.owner(
                        #[trigger] self.agents@[k].position,
                    ) == Some(k as usize) by {
                        if k != i {
                            assert(before.occupancy.owner(before.agents@[k].position) == Some(
                                k as usize,
                            ));
                        }
                    }
                }
            }
            proof {
                tables = tables.push(self.occupancy);
            }
            signals.push(signal);
            i = i + 1;
        }
        proof {
            assert(tick_trace(*old(self), *self, signals@, dynamic_occupied_tiles, tables));
        }
        proof {
            assert forall|a: int, b: int|
                0 <= a < signals@.len() && 0 <= b < signals@.len() && a != b && (
                #[trigger] signals@[a]) is StepStarted implies signals@[a] != #[trigger] signals@[b] by {
                lemma_no_double_booking(self, a, b);
            }
        }
        signals
    }
}

/// No two agents hold the same cell: whatever the ticks so far, a cell is
/// held, and was last reserved, by one agent at most.
pub proof fn lemma_no_double_booking(sim: &Simulation, i: int, j: int)
    requires
        sim.wf(),
        0 <= i < sim.agents_spec().len(),
        0 <= j < sim.agents_spec().len(),
        i != j,
    ensures
        sim.agents_spec()[i].position != sim.agents_spec()[j].position,
{
    assert(sim.occupancy_spec().owner(sim.agents_spec()[i].position) == Some(i as usize));
    assert(sim.occupancy_spec().owner(sim.agents_spec()[j].position) == Some(j as usize));
}

/// The occupancy marker of each agent lies on exactly the cell it reports
/// as its position: that cell carries the agent's marker and no other cell
/// does.
pub proof fn lemma_marker_on_position(sim: &Simulation, i: int, p: GridPosition)
    requires
        sim.wf(),
        0 <= i < sim.agents_spec().len(),
    ensures
        (sim.occupancy_spec().owner(p) == Some(i as usize)) == (p == sim.agents_spec()[i].position),
{
    assert(sim.occupancy_spec().owner(sim.agents_spec()[i].position) == Some(i as usize));
    if sim.occupancy_spec().owner(p) is Some {
        assert(sim.agents_spec()[sim.occupancy_spec().owner(p).unwrap() as int].position == p);
    }
}

} // verus!
