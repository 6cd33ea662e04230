use gridwalk::approach::{get_close_to_entity, ApproachDecision};
use gridwalk::grid::GridPosition;
use gridwalk::spatial_index::SpatialIndex;
use gridwalk::tile::{TileFlags, DOOR, OUTSIDE, TRAVERSABLE_TERRAIN, WALL};

fn pos(x: i32, y: i32) -> GridPosition {
    GridPosition { x, y }
}

fn field(w: i32, h: i32) -> SpatialIndex {
    let mut index = SpatialIndex::new();
    for x in 0..w {
        for y in 0..h {
            index.register(x, y, (x * 1000 + y) as u64);
            index.add_flags(x, y, TileFlags::from_bits(TRAVERSABLE_TERRAIN | OUTSIDE), 0);
        }
    }
    index
}

#[test]
fn heads_for_first_free_side_of_target() {
    let mut index = field(8, 8);
    let target = pos(4, 4);
    assert_eq!(get_close_to_entity(&index, &pos(0, 0), None, Some(target), false), ApproachDecision::WalkTo(pos(3, 4)));
    index.add_flags(3, 4, TileFlags::from_bits(WALL), 0);
    index.add_flags(4, 3, TileFlags::from_bits(DOOR), 0);
    assert_eq!(get_close_to_entity(&index, &pos(0, 0), None, Some(target), false), ApproachDecision::WalkTo(pos(4, 5)));
}

#[test]
fn falls_back_to_corners_then_waits() {
    let mut index = field(3, 3);
    for (x, y) in [(0, 1), (1, 0), (1, 2), (2, 1)] {
        index.add_flags(x, y, TileFlags::from_bits(WALL), 0);
    }
    let far = pos(10, 10);
    assert_eq!(get_close_to_entity(&index, &far, None, Some(pos(1, 1)), false), ApproachDecision::WalkTo(pos(0, 0)));
    for (x, y) in [(0, 0), (0, 2), (2, 0), (2, 2)] {
        index.add_flags(x, y, TileFlags::from_bits(WALL), 0);
    }
    assert_eq!(get_close_to_entity(&index, &far, None, Some(pos(1, 1)), false), ApproachDecision::Keep);
}

#[test]
fn approach_ends_next_to_target_or_when_it_is_gone() {
    let index = field(4, 4);
    assert_eq!(get_close_to_entity(&index, &pos(1, 1), None, Some(pos(2, 2)), false), ApproachDecision::Done);
    assert_eq!(get_close_to_entity(&index, &pos(1, 1), None, None, false), ApproachDecision::Done);
    assert_eq!(get_close_to_entity(&index, &pos(1, 1), Some(pos(1, 1)), Some(pos(1, 2)), false), ApproachDecision::Done);
    assert_eq!(get_close_to_entity(&index, &pos(1, 1), Some(pos(1, 1)), None, false), ApproachDecision::Done);
}

#[test]
fn approach_replans_when_target_moved_or_timer_due() {
    let index = field(6, 6);
    assert_eq!(get_close_to_entity(&index, &pos(1, 1), Some(pos(1, 1)), Some(pos(4, 4)), false), ApproachDecision::Replan);
    assert_eq!(get_close_to_entity(&index, &pos(0, 0), Some(pos(1, 1)), Some(pos(4, 4)), true), ApproachDecision::Replan);
    assert_eq!(get_close_to_entity(&index, &pos(0, 0), Some(pos(1, 1)), Some(pos(4, 4)), false), ApproachDecision::Keep);
}
