//! Walking up to another agent: deciding, each tick, whether the approach is
//! over, must be planned again, or can start toward a cell next to the
//! target.
use vstd::prelude::*;
use crate::grid::{GridPosition, adjacent, is_interior, ordered_neighbors};
use crate::spatial_index::SpatialIndex;
use crate::tile::{DOOR, has_all, walkable};

verus! {

/// What to do next about an agent walking up to a target.
#[derive(Clone, Copy, Debug, PartialEq, Eq, Structural)]
pub enum ApproachDecision {
    /// The approach is over: the target is next to the agent, or gone.
    Done,
    /// Drop the current destination; a new one is chosen next time.
    Replan,
    /// Walk to this cell next to the target.
    WalkTo(GridPosition),
    /// Nothing to change now.
    Keep,
}

/// Cell `p` has a tile that an agent may be sent to.
pub open spec fn valid_destination(index: &SpatialIndex, p: GridPosition) -> bool {
    index.lookup(p) is Some && !has_all(index.lookup(p).unwrap().flags.bits, DOOR) && walkable(
        index.lookup(p).unwrap(),
    )
}

/// The first of `cells` that is a valid destination, if any.
pub open spec fn first_valid(index: &SpatialIndex, cells: Seq<GridPosition>) -> Option<GridPosition>
    decreases cells.len(),
{
    if cells.len() == 0 {
        None
    } else if valid_destination(index, cells[0]) {
        Some(cells[0])
    } else {
        first_valid(index, cells.skip(1))
    }
}

/// The decision for an agent on `source` approaching a target on `target`
/// (`None`: the target is gone), walking to `destination` if it has one.
pub open spec fn approach(
    index: &SpatialIndex,
    source: GridPosition,
    destination: Option<GridPosition>,
    target: Option<GridPosition>,
    recalculate_due: bool,
) -> ApproachDecision {
    match destination {
        Some(d) => if source == d {
            match target {
                Some(t) => if adjacent(source, t) {
                    ApproachDecision::Done
                } else {
                    ApproachDecision::Replan
                },
                None => ApproachDecision::Done,
            }
        } else if recalculate_due {
            ApproachDecision::Replan
        } else {
            ApproachDecision::Keep
        },
        None => match target {
            Some(t) => if adjacent(t, source) {
                ApproachDecision::Done
            } else {
                match first_valid(index, ordered_neighbors(t)) {
                    Some(p) => ApproachDecision::WalkTo(p),
                    None => ApproachDecision::Keep,
                }
            },
            None => ApproachDecision::Done,
        },
    }
}

fn first_valid_destination(index: &SpatialIndex, cells: &Vec<GridPosition>) -> (r: Option<GridPosition>)
    ensures
        r == first_valid(index, cells@),
{
    let mut i: usize = 0;
    assert(cells@.skip(0) =~= cells@);
    while i < cells.len()
        invariant
            i <= cells@.len(),
            first_valid(index, cells@) == first_valid(index, cells@.skip(i as int)),
        decreases cells@.len() - i,
    {
        assert(cells@.skip(i as int).skip(1) =~= cells@.skip(i + 1));
        assert(cells@.skip(i as int)[0] == cells@[i as int]);
        match index.get_tile_data(cells[i].x, cells[i].y) {
            Some(tile) => {
                if tile.is_valid_destination() {
                    return Some(cells[i]);
                }
            },
            None => {},
        }
        i = i + 1;
    }
    None
}

/// One tick of an agent approaching a target: at its destination, it is
/// done if the target is next to it (or gone) and plans again otherwise;
/// on the way, it plans again when the periodic recalculation is due; with
/// no destination, it is done if the target is next to it, and otherwise
/// heads for the first valid cell around the target, sides before corners.
pub fn get_close_to_entity(
    index: &SpatialIndex,
    source: &GridPosition,
    destination: Option<GridPosition>,
    target: Option<GridPosition>,
    recalculate_due: bool,
) -> (r: ApproachDecision)
    requires
        target is Some ==> is_interior(target.unwrap()),
    ensures
        r == approach(index, *source, destination, target, recalculate_due),
{
    match destination {
        Some(d) => {
            if *source == d {
                match target {
                    Some(t) => if source.is_adjacent(&t) {
                        ApproachDecision::Done
                    } else {
                        ApproachDecision::Replan
                    },
                    None => ApproachDecision::Done,
                }
            } else if recalculate_due {
                ApproachDecision::Replan
            } else {
                ApproachDecision::Keep
            }
        },
        None => match target {
            Some(t) => {
                if t.is_adjacent(source) {
                    ApproachDecision::Done
                } else {
                    let around = source.get_ordered_neighbors(&t);
                    match first_valid_destination(index, &around) {
                        Some(p) => ApproachDecision::WalkTo(p),
                        None => ApproachDecision::Keep,
                    }
                }
            },
            None => ApproachDecision::Done,
        },
    }
}

} // verus!
