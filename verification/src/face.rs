//! The six faces of a voxel: +x, -x, +y, -y, +z, -z.
use crate::ivec::{IVec3, Point};
use vstd::prelude::*;

verus! {

pub const FACE_COUNT: usize = 6;

/// Outward unit vector of a face.
pub open spec fn face_dir(f: int) -> Point {
    if f == 0 {
        Point { x: 1, y: 0, z: 0 }
    } else if f == 1 {
        Point { x: -1, y: 0, z: 0 }
    } else if f == 2 {
        Point { x: 0, y: 1, z: 0 }
    } else if f == 3 {
        Point { x: 0, y: -1, z: 0 }
    } else if f == 4 {
        Point { x: 0, y: 0, z: 1 }
    } else {
        Point { x: 0, y: 0, z: -1 }
    }
}

/// The point across face `f` from voxel `v`.
pub open spec fn across(v: IVec3, f: int) -> Point {
    v@.plus(face_dir(f))
}

/// The six faces look along the six directions of the grid, one each: a step of
/// one along a single axis is the way across exactly one face.
pub proof fn law_faces_are_the_six_directions(f: int, g: int)
    requires
        0 <= f < FACE_COUNT,
        0 <= g < FACE_COUNT,
    ensures
        face_dir(f).x * face_dir(f).x + face_dir(f).y * face_dir(f).y + face_dir(f).z * face_dir(
            f,
        ).z == 1,
        f != g ==> face_dir(f) != face_dir(g),
        face_dir(0).x == 1 && face_dir(1).x == -1,
        face_dir(2).y == 1 && face_dir(3).y == -1,
        face_dir(4).z == 1 && face_dir(5).z == -1,
{
}

/// The voxel across a face differs by one along the face's axis.
pub proof fn law_neighbours_are_one_apart(v: IVec3, f: int)
    requires
        0 <= f < FACE_COUNT,
    ensures
        across(v, f).x == v.x + face_dir(f).x,
        across(v, f).y == v.y + face_dir(f).y,
        across(v, f).z == v.z + face_dir(f).z,
{
}

/// Outward unit vector of a face.
pub fn dir_of(f: usize) -> (d: IVec3)
    requires
        f < FACE_COUNT,
    ensures
        d@ == face_dir(f as int),
{
    if f == 0 {
        IVec3::new(1, 0, 0)
    } else if f == 1 {
        IVec3::new(-1, 0, 0)
    } else if f == 2 {
        IVec3::new(0, 1, 0)
    } else if f == 3 {
        IVec3::new(0, -1, 0)
    } else if f == 4 {
        IVec3::new(0, 0, 1)
    } else {
        IVec3::new(0, 0, -1)
    }
}

} // verus!
