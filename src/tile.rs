//! Static tile metadata: traversability flags and the rule that decides
//! whether an agent may step from one tile to another.
use vstd::prelude::*;

verus! {

/// A set of static traversability flags, one bit each.
#[derive(Clone, Copy, Debug, PartialEq, Eq, Structural, Hash)]
pub struct TileFlags {
    pub bits: u32,
}

pub const TRAVERSABLE_TERRAIN: u32 = 1;
pub const OUTSIDE: u32 = 2;
pub const INSIDE: u32 = 4;
pub const WALL: u32 = 8;
pub const DOOR: u32 = 16;
pub const FURNITURE: u32 = 32;
pub const ROOF: u32 = 64;

/// Every bit of `flag` is set in `bits`.
pub open spec fn has_all(bits: u32, flag: u32) -> bool {
    bits & flag == flag
}

/// Some bit of `flag` is set in `bits`.
pub open spec fn has_any(bits: u32, flag: u32) -> bool {
    bits & flag != 0
}

impl TileFlags {
    pub fn empty() -> (r: TileFlags)
        ensures
            r.bits == 0,
    {
        TileFlags { bits: 0 }
    }

    pub fn from_bits(bits: u32) -> (r: TileFlags)
        ensures
            r.bits == bits,
    {
        TileFlags { bits }
    }

    pub fn traversable_terrain() -> (r: TileFlags)
        ensures
            r.bits == TRAVERSABLE_TERRAIN,
    {
        TileFlags { bits: TRAVERSABLE_TERRAIN }
    }

    /// Whether every flag of `other` is set here.
    pub fn contains(&self, other: TileFlags) -> (r: bool)
        ensures
            r == has_all(self.bits, other.bits),
    {
        self.bits & other.bits == other.bits
    }

    /// Whether some flag of `other` is set here.
    pub fn intersects(&self, other: TileFlags) -> (r: bool)
        ensures
            r == has_any(self.bits, other.bits),
    {
        self.bits & other.bits != 0
    }

    /// The flags set in either operand.
    pub fn union(&self, other: TileFlags) -> (r: TileFlags)
        ensures
            r.bits == self.bits | other.bits,
    {
        TileFlags { bits: self.bits | other.bits }
    }
}

/// What the index holds for one registered cell.
#[derive(Clone, Copy, Debug, PartialEq, Eq, Structural)]
pub struct TileData {
    /// Handle of the tile object this record stands for.
    pub entity: u64,
    pub flags: TileFlags,
    /// Handle of the visual layer the tile belongs to, once known.
    pub tilemap_entity: Option<u64>,
}

/// An agent may stand on the tile: no wall, no furniture, and walkable terrain.
pub open spec fn walkable(t: TileData) -> bool {
    !has_all(t.flags.bits, WALL) && !has_all(t.flags.bits, FURNITURE) && has_all(
        t.flags.bits,
        TRAVERSABLE_TERRAIN,
    )
}

/// A step from `from` to `to` is allowed: `to` is walkable, and the two are
/// both outside, both inside, or one of them is a door.
pub open spec fn traversable(from: TileData, to: TileData) -> bool {
    walkable(to) && ((has_all(from.flags.bits, OUTSIDE) && has_all(to.flags.bits, OUTSIDE)) || (
    has_all(from.flags.bits, INSIDE) && has_all(to.flags.bits, INSIDE)) || has_all(
        from.flags.bits,
        DOOR,
    ) || has_all(to.flags.bits, DOOR))
}

impl TileData {
    /// Part of a building: inside, a door, a wall or a roof.
    pub fn is_building(&self) -> (r: bool)
        ensures
            r == has_any(self.flags.bits, INSIDE | DOOR | WALL | ROOF),
    {
        self.flags.intersects(TileFlags { bits: INSIDE | DOOR | WALL | ROOF })
    }

    pub fn is_wall(&self) -> (r: bool)
        ensures
            r == has_all(self.flags.bits, WALL),
    {
        self.flags.contains(TileFlags { bits: WALL })
    }

    pub fn is_roof(&self) -> (r: bool)
        ensures
            r == has_all(self.flags.bits, ROOF),
    {
        self.flags.contains(TileFlags { bits: ROOF })
    }

    pub fn is_outside(&self) -> (r: bool)
        ensures
            r == has_all(self.flags.bits, OUTSIDE),
    {
        self.flags.contains(TileFlags { bits: OUTSIDE })
    }

    /// A door or an inside tile.
    pub fn is_indoor(&self) -> (r: bool)
        ensures
            r == has_any(self.flags.bits, DOOR | INSIDE),
    {
        self.flags.intersects(TileFlags { bits: DOOR | INSIDE })
    }

    /// A tile an agent may be sent to: walkable and not a door.
    pub fn is_valid_destination(&self) -> (r: bool)
        ensures
            r == (!has_all(self.flags.bits, DOOR) && walkable(*self)),
    {
        if self.flags.contains(TileFlags { bits: DOOR }) {
            return false;
        }
        self.is_walkable()
    }

    pub fn is_walkable(&self) -> (r: bool)
        ensures
            r == walkable(*self),
    {
        if self.flags.contains(TileFlags { bits: WALL }) {
            return false;
        }
        if self.flags.contains(TileFlags { bits: FURNITURE }) {
            return false;
        }
        if !self.flags.contains(TileFlags { bits: TRAVERSABLE_TERRAIN }) {
            return false;
        }
        true
    }

    /// Whether an agent standing here may step onto `destination_tile`.
    pub fn is_traversable_to(&self, destination_tile: &TileData) -> (r: bool)
        ensures
            r == traversable(*self, *destination_tile),
    {
        if !destination_tile.is_walkable() {
            return false;
        }
        let current_is_inside = self.flags.contains(TileFlags { bits: INSIDE });
        let current_is_outside = self.flags.contains(TileFlags { bits: OUTSIDE });
        let current_is_door = self.flags.contains(TileFlags { bits: DOOR });

        let dest_is_inside = destination_tile.flags.contains(TileFlags { bits: INSIDE });
        let dest_is_outside = destination_tile.flags.contains(TileFlags { bits: OUTSIDE });
        let dest_is_door = destination_tile.flags.contains(TileFlags { bits: DOOR });

        if current_is_outside && dest_is_outside {
            return true;
        }
        if current_is_inside && dest_is_inside {
            return true;
        }
        if current_is_door || dest_is_door {
            return true;
        }
        false
    }
}

} // verus!
