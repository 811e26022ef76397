//! Positions, voxel kinds and the six-neighbour adjacency of the grid.

use vstd::prelude::*;

verus! {

/// An integer position on the voxel grid.
#[derive(Clone, Copy, Debug, PartialEq, Eq, Hash, Structural)]
pub struct Coord {
    pub x: i32,
    pub y: i32,
    pub z: i32,
}

impl Coord {
    pub fn new(x: i32, y: i32, z: i32) -> (r: Coord)
        ensures
            r.x == x && r.y == y && r.z == z,
    {
        Coord { x, y, z }
    }
}

/// The kind of a voxel, fixed when it is placed.
#[derive(Clone, Copy, Debug, PartialEq, Eq, Hash, Structural)]
pub enum TypeVoxel {
    Tile,
    Wire,
    Out,
    Not,
    And,
    Or,
    Xor,
    Switch,
    DFlipFlop,
}

/// The boolean signal that a voxel carries.
#[derive(Clone, Copy, Debug, PartialEq, Eq, Structural)]
pub struct StateVoxel(pub bool);

/// The position of a voxel, as it is stored in a saved world.
#[derive(Clone, Copy, Debug, PartialEq, Eq, Structural)]
pub struct PositionVoxel(pub Coord);

/// Kinds whose next signal is computed from their wire neighbours.
pub open spec fn is_gate(k: TypeVoxel) -> bool {
    match k {
        TypeVoxel::And | TypeVoxel::Or | TypeVoxel::Xor | TypeVoxel::Not | TypeVoxel::DFlipFlop => true,
        _ => false,
    }
}

/// Kinds that can drive a neighbouring `Out`.
pub open spec fn is_driving(k: TypeVoxel) -> bool {
    is_gate(k) || k == TypeVoxel::Switch
}

pub fn is_gate_kind(k: TypeVoxel) -> (r: bool)
    ensures
        r == is_gate(k),
{
    match k {
        TypeVoxel::And | TypeVoxel::Or | TypeVoxel::Xor | TypeVoxel::Not | TypeVoxel::DFlipFlop => true,
        _ => false,
    }
}

pub fn is_driving_kind(k: TypeVoxel) -> (r: bool)
    ensures
        r == is_driving(k),
{
    is_gate_kind(k) || matches!(k, TypeVoxel::Switch)
}

/// The unit offset of direction `i`: +X, -X, +Y, -Y, +Z, -Z.
pub open spec fn offset(i: int) -> (int, int, int) {
    if i == 0 {
        (1, 0, 0)
    } else if i == 1 {
        (-1, 0, 0)
    } else if i == 2 {
        (0, 1, 0)
    } else if i == 3 {
        (0, -1, 0)
    } else if i == 4 {
        (0, 0, 1)
    } else {
        (0, 0, -1)
    }
}

pub open spec fn in_i32(v: int) -> bool {
    i32::MIN <= v <= i32::MAX
}

/// The neighbour of `c` in direction `i`, if it is a representable position.
pub open spec fn adj(c: Coord, i: int) -> Option<Coord> {
    let (dx, dy, dz) = offset(i);
    let (x, y, z) = (c.x + dx, c.y + dy, c.z + dz);
    if in_i32(x) && in_i32(y) && in_i32(z) {
        Some(Coord { x: x as i32, y: y as i32, z: z as i32 })
    } else {
        None
    }
}

/// `b` is one of the six axis-aligned neighbours of `a`.
pub open spec fn adjacent(a: Coord, b: Coord) -> bool {
    exists|i: int| 0 <= i < 6 && #[trigger] adj(a, i) == Some(b)
}

fn shifted(p: Coord, dx: i32, dy: i32, dz: i32) -> (r: Option<Coord>)
    requires
        -1 <= dx <= 1,
        -1 <= dy <= 1,
        -1 <= dz <= 1,
    ensures
        r == (if in_i32(p.x + dx) && in_i32(p.y + dy) && in_i32(p.z + dz) {
            Some(Coord { x: (p.x + dx) as i32, y: (p.y + dy) as i32, z: (p.z + dz) as i32 })
        } else {
            None
        }),
{
    let x = p.x as i64 + dx as i64;
    let y = p.y as i64 + dy as i64;
    let z = p.z as i64 + dz as i64;
    if x < i32::MIN as i64 || x > i32::MAX as i64 || y < i32::MIN as i64 || y > i32::MAX as i64
        || z < i32::MIN as i64 || z > i32::MAX as i64 {
        None
    } else {
        Some(Coord { x: x as i32, y: y as i32, z: z as i32 })
    }
}

/// The six neighbours of `position` in the order +X, -X, +Y, -Y, +Z, -Z; a
/// neighbour outside the range of `i32` is absent.
pub fn get_adjacent_positions(position: Coord) -> (r: [Option<Coord>; 6])
    ensures
        forall|i: int| 0 <= i < 6 ==> r@[i] == #[trigger] adj(position, i),
{
    let r = [
        shifted(position, 1, 0, 0),
        shifted(position, -1, 0, 0),
        shifted(position, 0, 1, 0),
        shifted(position, 0, -1, 0),
        shifted(position, 0, 0, 1),
        shifted(position, 0, 0, -1),
    ];
    assert forall|i: int| 0 <= i < 6 implies r@[i] == #[trigger] adj(position, i) by {
        if i == 0 {
        } else if i == 1 {
        } else if i == 2 {
        } else if i == 3 {
        } else if i == 4 {
        } else {
        }
    }
    r
}

} // verus!
