use gridwalk::grid::{isqrt, GridPosition};
use gridwalk::spatial_index::{SpatialIndex, TileTag};
use gridwalk::tile::{TileData, TileFlags, DOOR, FURNITURE, INSIDE, OUTSIDE, ROOF, TRAVERSABLE_TERRAIN, WALL};

fn tile(bits: u32) -> TileData {
    TileData { entity: 1, flags: TileFlags::from_bits(bits), tilemap_entity: None }
}

#[test]
fn outside_door_inside_wall_in_a_line() {
    let a = tile(TRAVERSABLE_TERRAIN | OUTSIDE);
    let b = tile(TRAVERSABLE_TERRAIN | DOOR);
    let c = tile(TRAVERSABLE_TERRAIN | INSIDE);
    let d = tile(TRAVERSABLE_TERRAIN | WALL);
    assert!(a.is_traversable_to(&b));
    assert!(b.is_traversable_to(&c));
    assert!(!a.is_traversable_to(&c));
    for from in [a, b, c, d] {
        assert!(!from.is_traversable_to(&d));
    }
    assert!(b.is_traversable_to(&a));
    assert!(c.is_traversable_to(&b));
    assert!(!c.is_traversable_to(&a));
}

#[test]
fn walkability_needs_terrain_and_no_obstacle() {
    assert!(tile(TRAVERSABLE_TERRAIN).is_walkable());
    assert!(!tile(0).is_walkable());
    assert!(!tile(OUTSIDE).is_walkable());
    assert!(!tile(TRAVERSABLE_TERRAIN | FURNITURE).is_walkable());
    assert!(!tile(TRAVERSABLE_TERRAIN | WALL).is_walkable());
    assert!(tile(TRAVERSABLE_TERRAIN | OUTSIDE).is_valid_destination());
    assert!(!tile(TRAVERSABLE_TERRAIN | DOOR).is_valid_destination());
    assert!(!tile(TRAVERSABLE_TERRAIN | WALL).is_valid_destination());
}

#[test]
fn flag_queries() {
    assert!(tile(ROOF).is_building());
    assert!(tile(INSIDE).is_building());
    assert!(!tile(OUTSIDE | TRAVERSABLE_TERRAIN).is_building());
    assert!(tile(DOOR).is_indoor());
    assert!(!tile(OUTSIDE).is_indoor());
    assert!(tile(WALL | ROOF).is_wall());
    assert!(tile(WALL | ROOF).is_roof());
    assert!(tile(OUTSIDE).is_outside());
    let f = TileFlags::traversable_terrain().union(TileFlags::from_bits(DOOR));
    assert_eq!(f.bits, TRAVERSABLE_TERRAIN | DOOR);
    assert!(f.contains(TileFlags::from_bits(DOOR)));
    assert!(!f.contains(TileFlags::from_bits(DOOR | WALL)));
    assert!(f.intersects(TileFlags::from_bits(DOOR | WALL)));
    assert!(!TileFlags::empty().intersects(f));
}

#[test]
fn integer_square_root() {
    assert_eq!(isqrt(0), 0);
    assert_eq!(isqrt(1), 1);
    assert_eq!(isqrt(15), 3);
    assert_eq!(isqrt(16), 4);
    assert_eq!(isqrt(2_000_000), 1414);
    assert_eq!(isqrt(25_000_000), 5000);
}

#[test]
fn distances_in_thousandths() {
    let o = GridPosition { x: 0, y: 0 };
    assert_eq!(o.calc_distance(&GridPosition { x: 3, y: 4 }), 5000);
    assert_eq!(o.calc_distance(&GridPosition { x: 1, y: 1 }), 1414);
    assert_eq!(o.calc_distance(&GridPosition { x: -1, y: 0 }), 1000);
    assert_eq!(o.calc_distance(&o), 0);
    let far = GridPosition { x: i32::MAX, y: i32::MIN };
    assert_eq!(far.calc_distance(&far), 0);
    assert!(far.calc_distance(&GridPosition { x: i32::MIN, y: i32::MAX }) > 6_000_000_000_000);
}

#[test]
fn adjacency() {
    let p = GridPosition { x: 4, y: 4 };
    assert!(p.is_adjacent(&GridPosition { x: 5, y: 5 }));
    assert!(p.is_adjacent(&GridPosition { x: 4, y: 3 }));
    assert!(!p.is_adjacent(&p));
    assert!(!p.is_adjacent(&GridPosition { x: 6, y: 4 }));
}

#[test]
fn ordered_neighbors_sides_first() {
    let r = GridPosition { x: 0, y: 0 };
    let n = r.get_ordered_neighbors(&r);
    let got: Vec<(i32, i32)> = n.iter().map(|p| (p.x, p.y)).collect();
    assert_eq!(got, vec![(-1, 0), (0, -1), (0, 1), (1, 0), (-1, -1), (-1, 1), (1, -1), (1, 1)]);
}

#[test]
fn first_registration_wins() {
    let mut index = SpatialIndex::new();
    assert_eq!(index.get_tile_data(2, 3), None);
    index.register(2, 3, 7);
    index.register(2, 3, 9);
    let t = index.get_tile_data(2, 3).unwrap();
    assert_eq!(t.entity, 7);
    assert_eq!(t.flags.bits, 0);
    assert!(!t.is_walkable());
    assert_eq!(index.get_entity(2, 3), Some(7));
    assert_eq!(index.get_entity_data(2, 3), Some(t));
    assert_eq!(index.get_entity(3, 2), None);
}

#[test]
fn flags_are_added_never_cleared() {
    let mut index = SpatialIndex::new();
    index.register(0, 0, 1);
    index.add_flags(0, 0, TileFlags::from_bits(OUTSIDE), 40);
    index.add_flags(0, 0, TileFlags::from_bits(ROOF), 41);
    let t = index.get_tile_data(0, 0).unwrap();
    assert_eq!(t.flags.bits, OUTSIDE | ROOF);
    assert_eq!(t.tilemap_entity, Some(41));
    index.add_flags(5, 5, TileFlags::from_bits(WALL), 1);
    assert_eq!(index.get_tile_data(5, 5), None);
}

#[test]
fn tags_apply_by_priority() {
    let mut index = SpatialIndex::new();
    index.register(0, 0, 1);
    index.register(1, 0, 2);
    index.register(2, 0, 3);
    index.apply_tags(0, 0, &vec![TileTag::Outside, TileTag::Door], 8);
    index.apply_tags(1, 0, &vec![TileTag::Roof, TileTag::Wall, TileTag::Inside], 8);
    index.apply_tags(2, 0, &vec![TileTag::Other], 8);
    index.register(3, 0, 4);
    index.apply_tags(3, 0, &vec![TileTag::Outside], 8);
    assert!(index.get_tile_data(3, 0).unwrap().is_walkable());
    assert_eq!(index.get_tile_data(0, 0).unwrap().flags.bits, TRAVERSABLE_TERRAIN | DOOR);
    assert_eq!(index.get_tile_data(1, 0).unwrap().flags.bits, TRAVERSABLE_TERRAIN | WALL);
    let untouched = index.get_tile_data(2, 0).unwrap();
    assert_eq!(untouched.flags.bits, 0);
    assert!(!untouched.is_walkable());
    assert_eq!(untouched.tilemap_entity, None);
}

#[test]
fn nearby_lists_registered_neighbours_only() {
    let mut index = SpatialIndex::new();
    for x in 0..3 {
        for y in 0..3 {
            index.register(x, y, (x * 10 + y) as u64);
        }
    }
    let corner: Vec<(i32, i32)> = index.get_nearby(0, 0).iter().map(|(_, p)| (p.x, p.y)).collect();
    assert_eq!(corner, vec![(0, 1), (1, 0), (1, 1)]);
    let centre = index.get_nearby(1, 1);
    assert_eq!(centre.len(), 8);
    assert!(centre.iter().all(|(t, p)| t.entity == (p.x * 10 + p.y) as u64));
    assert!(!centre.iter().any(|(_, p)| p.x == 1 && p.y == 1));
    assert_eq!(index.get_nearby(i32::MAX, i32::MAX).len(), 0);
}
