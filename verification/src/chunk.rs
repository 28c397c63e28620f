//! Chunks: 16³ bricks of voxels, one byte each.
use crate::ivec::{lemma_view_injective, IVec3, Point};
use vstd::prelude::*;

verus! {

/// Voxels along one edge of a chunk.
pub const CHUNK: i32 = 16;

/// Voxels in a chunk.
pub const CHUNK_VOL: usize = 4096;

/// The chunk that holds a voxel: each coordinate divided by the edge, rounded
/// down.
pub open spec fn chunk_at(v: IVec3) -> IVec3 {
    IVec3 { x: (v.x as int / 16) as i32, y: (v.y as int / 16) as i32, z: (v.z as int / 16) as i32 }
}

/// A voxel's slot in its chunk: x runs fastest, then z, then y.
pub open spec fn slot(v: IVec3) -> int {
    v.x as int % 16 + (v.z as int % 16) * 16 + (v.y as int % 16) * 256
}

/// The voxel in slot `i` of chunk `cp`.
pub open spec fn voxel_in(cp: IVec3, i: int) -> Point {
    Point { x: cp.x * 16 + i % 16, y: cp.y * 16 + i / 256, z: cp.z * 16 + i / 16 % 16 }
}

/// A chunk all of whose voxels have representable coordinates.
pub open spec fn chunk_ok(cp: IVec3) -> bool {
    &&& -0x800_0000 <= cp.x < 0x800_0000
    &&& -0x800_0000 <= cp.y < 0x800_0000
    &&& -0x800_0000 <= cp.z < 0x800_0000
}

fn floor_div(n: i32) -> (q: i32)
    ensures
        q == n as int / 16,
{
    if n >= 0 {
        n / CHUNK
    } else {
        -1 - (-1 - n) / CHUNK
    }
}

/// The chunk that holds a voxel.
pub fn chunk_of(v: IVec3) -> (cp: IVec3)
    ensures
        cp == chunk_at(v),
        chunk_ok(cp),
        16 * cp.x <= v.x < 16 * cp.x + 16,
        16 * cp.y <= v.y < 16 * cp.y + 16,
        16 * cp.z <= v.z < 16 * cp.z + 16,
{
    IVec3::new(floor_div(v.x), floor_div(v.y), floor_div(v.z))
}

/// A voxel's slot in its chunk.
pub fn local_index(v: IVec3) -> (i: usize)
    ensures
        i == slot(v),
        i < CHUNK_VOL,
{
    let x: i32 = v.x - CHUNK * floor_div(v.x);
    let y: i32 = v.y - CHUNK * floor_div(v.y);
    let z: i32 = v.z - CHUNK * floor_div(v.z);
    (x + z * CHUNK + y * CHUNK * CHUNK) as usize
}

/// The voxel in slot `i` of chunk `cp`.
pub fn slot_voxel(cp: IVec3, i: usize) -> (v: IVec3)
    requires
        chunk_ok(cp),
        i < CHUNK_VOL,
    ensures
        v@ == voxel_in(cp, i as int),
        v == voxel_in(cp, i as int).lattice(),
        chunk_at(v) == cp,
        slot(v) == i,
{
    let x: i32 = (i % 16) as i32;
    let y: i32 = (i / 256) as i32;
    let z: i32 = (i / 16 % 16) as i32;
    IVec3::new(cp.x * CHUNK + x, cp.y * CHUNK + y, cp.z * CHUNK + z)
}

/// A chunk is a cube of sixteen voxels' edge: it holds exactly the voxels whose
/// coordinates lie between sixteen times its own and the next multiple.
pub proof fn law_chunks_are_cubes(v: IVec3, cp: IVec3)
    ensures
        chunk_at(v) == cp <==> 16 * cp.x <= v.x < 16 * cp.x + 16 && 16 * cp.y <= v.y < 16 * cp.y
            + 16 && 16 * cp.z <= v.z < 16 * cp.z + 16,
        chunk_at(v) == cp ==> slot(v) == (v.x - 16 * cp.x) + 16 * (v.z - 16 * cp.z) + 256 * (v.y
            - 16 * cp.y),
{
}

/// Slots of a chunk and its voxels correspond one to one: filing the voxel of
/// a slot gives the chunk and the slot back.
pub proof fn law_slot_to_voxel(cp: IVec3, i: int)
    requires
        chunk_ok(cp),
        0 <= i < CHUNK_VOL,
    ensures
        voxel_in(cp, i).representable(),
        chunk_at(voxel_in(cp, i).lattice()) == cp,
        slot(voxel_in(cp, i).lattice()) == i,
{
}

/// The other way round: a voxel is the one in its own slot of its own chunk.
pub proof fn law_voxel_to_slot(v: IVec3)
    ensures
        voxel_in(chunk_at(v), slot(v)) == v@,
        0 <= slot(v) < CHUNK_VOL,
        chunk_ok(chunk_at(v)),
{
}

/// Two voxels of one chunk share a slot only if they are the same voxel.
pub proof fn law_slots_are_distinct(a: IVec3, b: IVec3)
    requires
        chunk_at(a) == chunk_at(b),
        slot(a) == slot(b),
    ensures
        a == b,
{
    law_voxel_to_slot(a);
    law_voxel_to_slot(b);
    lemma_view_injective(a, b);
}

} // verus!
