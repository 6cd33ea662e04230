//! The spatial index: at most one tile record per grid cell, registered while
//! a level loads and read-only afterwards.
use vstd::prelude::*;
use std::collections::HashSet;
use bevy_platform::collections::HashMap;
use vstd::std_specs::hash::group_hash_axioms;
use crate::grid::GridPosition;
use crate::tile::{walkable, TileData, TileFlags, TRAVERSABLE_TERRAIN, WALL, DOOR, INSIDE, OUTSIDE, FURNITURE, ROOF};

verus! {

broadcast use group_hash_axioms;

/// The map key of cell `(x, y)`.
pub open spec fn cell_key(x: int, y: int) -> int {
    x * 0x1_0000_0000 + y
}

pub open spec fn in_i32(v: int) -> bool {
    i32::MIN <= v <= i32::MAX
}

pub proof fn lemma_cell_key_injective(x1: int, y1: int, x2: int, y2: int)
    requires
        in_i32(x1),
        in_i32(y1),
        in_i32(x2),
        in_i32(y2),
        cell_key(x1, y1) == cell_key(x2, y2),
    ensures
        x1 == x2 && y1 == y2,
{
    if x1 > x2 {
        assert((x1 - x2) * 0x1_0000_0000 >= 0x1_0000_0000) by (nonlinear_arith)
            requires
                x1 - x2 >= 1,
        ;
    } else if x2 > x1 {
        assert((x2 - x1) * 0x1_0000_0000 >= 0x1_0000_0000) by (nonlinear_arith)
            requires
                x2 - x1 >= 1,
        ;
    }
}

pub fn key_of(x: i32, y: i32) -> (k: i128)
    ensures
        k == cell_key(x as int, y as int),
{
    x as i128 * 0x1_0000_0000i128 + y as i128
}

/// A level tag that sets one flag on a tile.
#[derive(Clone, Copy, Debug, PartialEq, Eq, Structural)]
pub enum TileTag {
    Wall,
    Door,
    Inside,
    Outside,
    Furniture,
    Roof,
    /// A tag with no meaning for movement.
    Other,
}

/// The one flag a tile's tags set, the first that holds of: wall, door,
/// inside, outside, furniture, roof.
pub open spec fn flag_of_tags(tags: Seq<TileTag>) -> Option<u32> {
    if tags.contains(TileTag::Wall) {
        Some(WALL)
    } else if tags.contains(TileTag::Door) {
        Some(DOOR)
    } else if tags.contains(TileTag::Inside) {
        Some(INSIDE)
    } else if tags.contains(TileTag::Outside) {
        Some(OUTSIDE)
    } else if tags.contains(TileTag::Furniture) {
        Some(FURNITURE)
    } else if tags.contains(TileTag::Roof) {
        Some(ROOF)
    } else {
        None
    }
}

fn has_tag(tags: &Vec<TileTag>, tag: TileTag) -> (r: bool)
    ensures
        r == tags@.contains(tag),
{
    let mut i: usize = 0;
    while i < tags.len()
        invariant
            i <= tags@.len(),
            forall|j: int| 0 <= j < i ==> tags@[j] != tag,
        decreases tags@.len() - i,
    {
        if tags[i] == tag {
            return true;
        }
        i = i + 1;
    }
    false
}

/// The eight cells around `(x, y)`, by increasing `x` and then `y`.
pub open spec fn nearby_cells(x: int, y: int) -> Seq<(int, int)> {
    seq![
        (x - 1, y - 1),
        (x - 1, y),
        (x - 1, y + 1),
        (x, y - 1),
        (x, y + 1),
        (x + 1, y - 1),
        (x + 1, y),
        (x + 1, y + 1),
    ]
}

/// A set of cells, such as those that agents stand on.
pub struct CellSet {
    keys: HashSet<i128>,
}

impl CellSet {
    pub closed spec fn has(&self, x: int, y: int) -> bool {
        in_i32(x) && in_i32(y) && self.keys@.contains(cell_key(x, y) as i128)
    }

    pub open spec fn contains_spec(&self, p: GridPosition) -> bool {
        self.has(p.x as int, p.y as int)
    }

    pub fn new() -> (r: CellSet)
        ensures
            forall|p: GridPosition| !r.contains_spec(p),
    {
        CellSet { keys: HashSet::new() }
    }

    pub fn insert(&mut self, p: GridPosition)
        ensures
            forall|q: GridPosition|
                #![trigger final(self).contains_spec(q)]
                final(self).contains_spec(q) == (q == p || old(self).contains_spec(q)),
    {
        self.keys.insert(key_of(p.x, p.y));
        proof {
            assert forall|q: GridPosition| #![trigger final(self).contains_spec(q)]
                cell_key(q.x as int, q.y as int) == cell_key(p.x as int, p.y as int) implies q == p by {
                lemma_cell_key_injective(q.x as int, q.y as int, p.x as int, p.y as int);
            }
        }
    }

    pub fn contains(&self, p: &GridPosition) -> (r: bool)
        ensures
            r == self.contains_spec(*p),
    {
        self.keys.contains(&key_of(p.x, p.y))
    }
}

/// bevy_platform's hash map, which the index keeps its records in.
#[verifier::external_type_specification]
#[verifier::external_body]
#[verifier::reject_recursive_types(K)]
#[verifier::reject_recursive_types(V)]
#[verifier::reject_recursive_types(S)]
pub struct ExPlatformHashMap<K, V, S>(HashMap<K, V, S>);

/// The hasher that bevy_platform's maps use by default.
#[verifier::external_type_specification]
#[verifier::external_body]
pub struct ExFixedHasher(bevy_platform::hash::FixedHasher);

/// The entries of a tile map.
pub uninterp spec fn tiles_of(m: HashMap<i128, TileData>) -> Map<i128, TileData>;

/// Relies on bevy_platform's `HashMap::new`: a map with no entry.
#[verifier::external_body]
fn tile_map_new() -> (m: HashMap<i128, TileData>)
    ensures
        tiles_of(m).dom() == Set::<i128>::empty(),
{
    HashMap::new()
}

/// Relies on bevy_platform's `HashMap::get`: the value stored under `k`, if
/// there is one.
#[verifier::external_body]
fn tile_map_get(m: &HashMap<i128, TileData>, k: i128) -> (r: Option<TileData>)
    ensures
        r == if tiles_of(*m).contains_key(k) {
            Some(tiles_of(*m)[k])
        } else {
            None::<TileData>
        },
{
    m.get(&k).copied()
}

/// Relies on bevy_platform's `HashMap::contains_key`: whether `k` has an
/// entry.
#[verifier::external_body]
fn tile_map_contains_key(m: &HashMap<i128, TileData>, k: i128) -> (r: bool)
    ensures
        r == tiles_of(*m).contains_key(k),
{
    m.contains_key(&k)
}

/// Relies on bevy_platform's `HashMap::insert`: `k` now maps to `v`, and
/// every other entry stays.
#[verifier::external_body]
fn tile_map_insert(m: &mut HashMap<i128, TileData>, k: i128, v: TileData)
    ensures
        tiles_of(*final(m)) == tiles_of(*old(m)).insert(k, v),
{
    m.insert(k, v);
}

pub struct SpatialIndex {
    map: HashMap<i128, TileData>,
}

impl SpatialIndex {
    /// The record of cell `(x, y)`, if one was registered.
    pub closed spec fn tile_at(&self, x: int, y: int) -> Option<TileData> {
        if in_i32(x) && in_i32(y) && tiles_of(self.map).contains_key(cell_key(x, y) as i128) {
            Some(tiles_of(self.map)[cell_key(x, y) as i128])
        } else {
            None
        }
    }

    /// The number of registered cells.
    pub closed spec fn cell_count(&self) -> nat {
        tiles_of(self.map).dom().len()
    }

    /// The index holds finitely many records.
    pub closed spec fn wf(&self) -> bool {
        tiles_of(self.map).dom().finite()
    }

    /// Distinct registered cells number at most `cell_count()`.
    pub proof fn lemma_distinct_cells_bounded(&self, cells: Seq<GridPosition>)
        requires
            self.wf(),
            forall|i: int| 0 <= i < cells.len() ==> (#[trigger] self.lookup(cells[i])) is Some,
            forall|i: int, j: int|
                0 <= i < j < cells.len() ==> (#[trigger] cells[i]) != (#[trigger] cells[j]),
        ensures
            cells.len() <= self.cell_count(),
    {
        let keys = cells.map_values(|p: GridPosition| cell_key(p.x as int, p.y as int) as i128);
        assert forall|i: int, j: int| 0 <= i < keys.len() && 0 <= j < keys.len() && i != j implies keys[i]
            != keys[j] by {
            let (a, b) = if i < j {
                (i, j)
            } else {
                (j, i)
            };
            assert(cells[a] != cells[b]);
            let ka = cell_key(cells[i].x as int, cells[i].y as int);
            let kb = cell_key(cells[j].x as int, cells[j].y as int);
            assert(i32::MIN * 0x1_0000_0000 + i32::MIN <= ka <= i32::MAX * 0x1_0000_0000 + i32::MAX)
                by (nonlinear_arith)
                requires
                    ka == cells[i].x * 0x1_0000_0000 + cells[i].y,
                    i32::MIN <= cells[i].x <= i32::MAX,
                    i32::MIN <= cells[i].y <= i32::MAX,
            ;
            assert(i32::MIN * 0x1_0000_0000 + i32::MIN <= kb <= i32::MAX * 0x1_0000_0000 + i32::MAX)
                by (nonlinear_arith)
                requires
                    kb == cells[j].x * 0x1_0000_0000 + cells[j].y,
                    i32::MIN <= cells[j].x <= i32::MAX,
                    i32::MIN <= cells[j].y <= i32::MAX,
            ;
            if ka == kb {
                lemma_cell_key_injective(
                    cells[i].x as int,
                    cells[i].y as int,
                    cells[j].x as int,
                    cells[j].y as int,
                );
            }
        }
        assert(keys.no_duplicates());
        keys.unique_seq_to_set();
        assert forall|k: i128| keys.to_set().contains(k) implies tiles_of(self.map).dom().contains(k) by {
            let i = choose|i: int| 0 <= i < keys.len() && keys[i] == k;
            assert(self.lookup(cells[i]) is Some);
        }
        vstd::set_lib::lemma_len_subset(keys.to_set(), tiles_of(self.map).dom());
    }

    pub open spec fn lookup(&self, p: GridPosition) -> Option<TileData> {
        self.tile_at(p.x as int, p.y as int)
    }

    /// The registered cells among `cells`, in their order, each with its record.
    pub open spec fn registered_among(&self, cells: Seq<(int, int)>) -> Seq<(TileData, GridPosition)>
        decreases cells.len(),
    {
        if cells.len() == 0 {
            Seq::empty()
        } else {
            let prev = self.registered_among(cells.drop_last());
            let (x, y) = cells.last();
            match self.tile_at(x, y) {
                Some(t) => prev.push((t, GridPosition { x: x as i32, y: y as i32 })),
                None => prev,
            }
        }
    }

    /// Each cell listed by `registered_among(cells)` is among `cells` and
    /// carries its own record.
    pub proof fn lemma_registered_among(&self, cells: Seq<(int, int)>)
        ensures
            forall|i: int|
                #![trigger self.registered_among(cells)[i]]
                0 <= i < self.registered_among(cells).len() ==> {
                    let (t, p) = self.registered_among(cells)[i];
                    &&& cells.contains((p.x as int, p.y as int))
                    &&& self.tile_at(p.x as int, p.y as int) == Some(t)
                },
        decreases cells.len(),
    {
        if cells.len() > 0 {
            self.lemma_registered_among(cells.drop_last());
            let prev = self.registered_among(cells.drop_last());
            assert forall|i: int| 0 <= i < prev.len() implies cells.contains(
                (prev[i].1.x as int, prev[i].1.y as int),
            ) by {
                let j = choose|j: int|
                    0 <= j < cells.drop_last().len() && cells.drop_last()[j] == (
                        prev[i].1.x as int,
                        prev[i].1.y as int,
                    );
                assert(cells[j] == cells.drop_last()[j]);
            }
            assert(cells[cells.len() - 1] == cells.last());
        }
    }

    /// The registered neighbours of `(x, y)`.
    pub open spec fn nearby(&self, x: int, y: int) -> Seq<(TileData, GridPosition)> {
        self.registered_among(nearby_cells(x, y))
    }

    pub fn new() -> (r: SpatialIndex)
        ensures
            r.wf(),
            forall|x: int, y: int| r.tile_at(x, y).is_none(),
    {
        SpatialIndex { map: tile_map_new() }
    }

    pub fn get_tile_data(&self, x: i32, y: i32) -> (r: Option<TileData>)
        ensures
            r == self.tile_at(x as int, y as int),
    {
        tile_map_get(&self.map, key_of(x, y))
    }

    pub fn get_entity_data(&self, x: i32, y: i32) -> (r: Option<TileData>)
        ensures
            r == self.tile_at(x as int, y as int),
    {
        self.get_tile_data(x, y)
    }

    /// The tile handle registered at `(x, y)`.
    pub fn get_entity(&self, x: i32, y: i32) -> (r: Option<u64>)
        ensures
            r == match self.tile_at(x as int, y as int) {
                Some(t) => Some(t.entity),
                None => None::<u64>,
            },
    {
        match self.get_tile_data(x, y) {
            Some(data) => Some(data.entity),
            None => None,
        }
    }

    /// Registers a tile at `(x, y)` with no flag set: until a recognised
    /// level tag arrives it counts as a wall, which no agent may enter. The
    /// first registration of a cell wins; later ones change nothing.
    pub fn register(&mut self, x: i32, y: i32, entity: u64)
        requires
            old(self).wf(),
        ensures
            final(self).wf(),
            old(self).tile_at(x as int, y as int).is_none() ==> !walkable(
                final(self).tile_at(x as int, y as int).unwrap(),
            ),
            forall|a: int, b: int|
                #![trigger final(self).tile_at(a, b)]
                final(self).tile_at(a, b) == if a == x && b == y && old(self).tile_at(a, b).is_none() {
                    Some(
                        TileData {
                            entity,
                            flags: TileFlags { bits: 0 },
                            tilemap_entity: None,
                        },
                    )
                } else {
                    old(self).tile_at(a, b)
                },
    {
        let k = key_of(x, y);
        assert(0u32 & TRAVERSABLE_TERRAIN != TRAVERSABLE_TERRAIN) by (bit_vector);
        if !tile_map_contains_key(&self.map, k) {
            tile_map_insert(
                &mut self.map,
                k,
                TileData { entity, flags: TileFlags::empty(), tilemap_entity: None },
            );
        }
        proof {
            assert forall|a: int, b: int| #![trigger final(self).tile_at(a, b)] in_i32(a) && in_i32(b)
                && cell_key(a, b) == cell_key(x as int, y as int) implies a == x && b == y by {
                lemma_cell_key_injective(a, b, x as int, y as int);
            }
        }
    }

    /// Adds `flags` to the registered tile at `(x, y)` and records its layer;
    /// an unregistered cell is left alone.
    pub fn add_flags(&mut self, x: i32, y: i32, flags: TileFlags, tilemap_entity: u64)
        requires
            old(self).wf(),
        ensures
            final(self).wf(),
            forall|a: int, b: int|
                #![trigger final(self).tile_at(a, b)]
                final(self).tile_at(a, b) == if a == x && b == y && old(self).tile_at(a, b).is_some() {
                    Some(
                        TileData {
                            entity: old(self).tile_at(a, b).unwrap().entity,
                            flags: TileFlags { bits: old(self).tile_at(a, b).unwrap().flags.bits | flags.bits },
                            tilemap_entity: Some(tilemap_entity),
                        },
                    )
                } else {
                    old(self).tile_at(a, b)
                },
    {
        let k = key_of(x, y);
        match tile_map_get(&self.map, k) {
            Some(data) => {
                let updated = TileData {
                    entity: data.entity,
                    flags: data.flags.union(flags),
                    tilemap_entity: Some(tilemap_entity),
                };
                tile_map_insert(&mut self.map, k, updated);
            },
            None => {},
        }
        proof {
            assert forall|a: int, b: int| #![trigger final(self).tile_at(a, b)] in_i32(a) && in_i32(b)
                && cell_key(a, b) == cell_key(x as int, y as int) implies a == x && b == y by {
                lemma_cell_key_injective(a, b, x as int, y as int);
            }
        }
    }

    /// Applies a tile's level tags: the first of wall, door, inside, outside,
    /// furniture and roof among them is added to its flags, together with
    /// walkable terrain. Tags with none of these leave the tile as it is.
    pub fn apply_tags(&mut self, x: i32, y: i32, tags: &Vec<TileTag>, tilemap_entity: u64)
        requires
            old(self).wf(),
        ensures
            final(self).wf(),
            match flag_of_tags(tags@) {
                Some(f) => forall|a: int, b: int|
                    #![trigger final(self).tile_at(a, b)]
                    final(self).tile_at(a, b) == if a == x && b == y && old(self).tile_at(a, b).is_some() {
                        Some(
                            TileData {
                                entity: old(self).tile_at(a, b).unwrap().entity,
                                flags: TileFlags {
                                    bits: old(self).tile_at(a, b).unwrap().flags.bits | (f
                                        | TRAVERSABLE_TERRAIN),
                                },
                                tilemap_entity: Some(tilemap_entity),
                            },
                        )
                    } else {
                        old(self).tile_at(a, b)
                    },
                None => *final(self) == *old(self),
            },
    {
        let flag = if has_tag(tags, TileTag::Wall) {
            WALL
        } else if has_tag(tags, TileTag::Door) {
            DOOR
        } else if has_tag(tags, TileTag::Inside) {
            INSIDE
        } else if has_tag(tags, TileTag::Outside) {
            OUTSIDE
        } else if has_tag(tags, TileTag::Furniture) {
            FURNITURE
        } else if has_tag(tags, TileTag::Roof) {
            ROOF
        } else {
            return ;
        };
        self.add_flags(x, y, TileFlags::from_bits(flag | TRAVERSABLE_TERRAIN), tilemap_entity);
    }

    /// The registered cells among the eight around `(origin_x, origin_y)`,
    /// each with its record.
    pub fn get_nearby(&self, origin_x: i32, origin_y: i32) -> (r: Vec<(TileData, GridPosition)>)
        ensures
            r@ == self.nearby(origin_x as int, origin_y as int),
    {
        let ghost cells = nearby_cells(origin_x as int, origin_y as int);
        let mut nearby: Vec<(TileData, GridPosition)> = Vec::new();
        let mut dx: i64 = -1;
        let mut i: usize = 0;
        while dx < 2
            invariant
                -1 <= dx <= 2,
                i == 3 * (dx + 1) - (if dx >= 1 { 1int } else { 0 }),
                cells == nearby_cells(origin_x as int, origin_y as int),
                nearby@ == self.registered_among(cells.take(i as int)),
            decreases 2 - dx,
        {
            let mut dy: i64 = -1;
            while dy < 2
                invariant
                    -1 <= dx < 2,
                    -1 <= dy <= 2,
                    i == 3 * (dx + 1) + (dy + 1) - (if dx >= 1 { 1int } else { 0 }) - (if dx == 0
                        && dy >= 1 { 1int } else { 0 }),
                    cells == nearby_cells(origin_x as int, origin_y as int),
                    nearby@ == self.registered_among(cells.take(i as int)),
                decreases 2 - dy,
            {
                if !(dx == 0 && dy == 0) {
                    let nx: i64 = origin_x as i64 + dx;
                    let ny: i64 = origin_y as i64 + dy;
                    assert(cells[i as int] == (nx as int, ny as int));
                    assert(cells.take(i + 1).drop_last() =~= cells.take(i as int));
                    if i32::MIN as i64 <= nx && nx <= i32::MAX as i64 && i32::MIN as i64 <= ny && ny
                        <= i32::MAX as i64 {
                        match self.get_tile_data(nx as i32, ny as i32) {
                            Some(t) => nearby.push((t, GridPosition { x: nx as i32, y: ny as i32 })),
                            None => {},
                        }
                    }
                    i = i + 1;
                }
                dy = dy + 1;
            }
            dx = dx + 1;
        }
        assert(cells.take(8) =~= cells);
        nearby
    }
}

} // verus!
