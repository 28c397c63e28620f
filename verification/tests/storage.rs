//! The voxel store, on small cubes of rock.
use limits::blast::{blast_cells, boom_line, explode, Torn, BLAST_VOXELS};
use limits::blocks::{AIR, BARRIER, ORE, REGOLITH, ROCK};
use limits::body::{planet_key, Asteroid, BodyMotion, NearBody};
use limits::cells::cell_box;
use limits::chunk::{chunk_of, local_index, slot_voxel};
use limits::entities::{unload_far_chunks, ChunkEntities};
use limits::face::{dir_of, FACE_COUNT};
use limits::horizon::feed;
use limits::ivec::IVec3;
use limits::mesh::{mesh_chunk, shade_of, MeshScratch, Quad};
use limits::mining::{mining, Mined, MiningFrame, Struck};
use limits::motion::Drift;
use limits::nearby::Placed;
use limits::player::{collides, strike, throw_step, LaserState};
use limits::ray::{raycast, raycast_one, Axis, RayPath};
use limits::stream::{
    sweep_tick, unload_tick, ChunkPlan, GenOrder, PlanStep, StreamBody, GEN_BUDGET,
};
use limits::voxel_map::{PairMap, VoxelMap};
use limits::world::VoxelWorld;

type Rock = Asteroid<i32>;
type World = VoxelWorld<u32, i32, i32>;

fn at(x: i32, y: i32, z: i32) -> IVec3 {
    IVec3::new(x, y, z)
}

/// A cube of rock around the origin of its frame, with an ore heart and a
/// regolith skin. `shape` is half its edge.
fn cube(shape: i32) -> Rock {
    Asteroid { seed: 1, tier: 2, species: 5, is_planet: false, shape }
}

fn terrain(a: Rock, v: IVec3) -> u8 {
    let far = v.x.abs().max(v.y.abs()).max(v.z.abs());
    if far > a.shape {
        AIR
    } else if far == 0 {
        ORE
    } else if far == a.shape {
        REGOLITH
    } else {
        ROCK
    }
}

fn placed(shape: i32) -> Placed<i32> {
    let n = shape + 1;
    Placed { a: cube(shape), vmin: at(-n, -n, -n), vmax: at(n, n, n) }
}

/// The cube of half edge `shape` sits in the origin cell.
fn look(w: &mut World, shape: i32) {
    w.refresh_nearby(IVec3::zero(), IVec3::zero(), 0, &|key: IVec3, _o: Option<i32>| {
        if key == IVec3::zero() {
            Some(placed(shape))
        } else {
            None
        }
    });
}

fn generate(w: &mut World, shape: i32, cp: IVec3) -> bool {
    w.generate_chunk(IVec3::zero(), cp, true, &|v: IVec3| terrain(cube(shape), v))
}

fn settled(shape: i32) -> World {
    let mut w = World::new();
    look(&mut w, shape);
    for cp in cell_box(at(-1, -1, -1), at(0, 0, 0)) {
        generate(&mut w, shape, cp);
    }
    w
}

fn drifting(off_vox: IVec3) -> BodyMotion<i32> {
    BodyMotion { offset: 0, off_vox, delta: IVec3::zero(), eaten: false, backfilled: true }
}

#[test]
fn chunk_addresses_are_euclidean() {
    assert_eq!(chunk_of(at(-1, 0, 16)), at(-1, 0, 1));
    assert_eq!(chunk_of(at(-16, -17, 15)), at(-1, -2, 0));
    assert_eq!(local_index(at(0, 0, 0)), 0);
    assert_eq!(local_index(at(1, 0, 0)), 1);
    assert_eq!(local_index(at(0, 0, 1)), 16);
    assert_eq!(local_index(at(0, 1, 0)), 256);
    assert_eq!(local_index(at(-1, -1, -1)), 4095);
}

#[test]
fn slots_and_voxels_name_each_other() {
    for cp in [at(0, 0, 0), at(-3, 2, -1)] {
        for i in [0usize, 1, 16, 256, 1234, 4095] {
            let v = slot_voxel(cp, i);
            assert_eq!(chunk_of(v), cp);
            assert_eq!(local_index(v), i);
        }
    }
    assert_eq!(slot_voxel(at(-1, 0, 0), 0), at(-16, 0, 0));
}

#[test]
fn boxes_list_every_cell_once() {
    let cells = cell_box(at(-1, 0, 2), at(0, 1, 3));
    assert_eq!(
        cells,
        vec![
            at(-1, 0, 2),
            at(0, 0, 2),
            at(-1, 1, 2),
            at(0, 1, 2),
            at(-1, 0, 3),
            at(0, 0, 3),
            at(-1, 1, 3),
            at(0, 1, 3),
        ]
    );
    assert!(cell_box(at(1, 0, 0), at(0, 0, 0)).is_empty());
}

#[test]
fn maps_keep_what_was_put_in_last() {
    let mut m: VoxelMap<u8> = VoxelMap::new();
    m.insert(at(1, -2, 3), 7);
    m.insert(at(1, -2, 3), 8);
    m.insert(at(-1, -2, 3), 9);
    assert_eq!(m.get(at(1, -2, 3)), Some(&8));
    assert!(m.contains(at(-1, -2, 3)));
    assert!(!m.contains(at(3, -2, 1)));
    assert_eq!(m.keys().len(), 2);
    assert_eq!(m.remove(at(1, -2, 3)), Some(8));
    assert_eq!(m.remove(at(1, -2, 3)), None);
    m.clear();
    assert!(m.keys().is_empty());

    let mut p: PairMap<u8> = PairMap::new();
    p.insert(at(0, 0, 0), at(1, 1, 1), 1);
    p.insert(at(0, 0, 0), at(2, 2, 2), 2);
    p.insert(at(9, 0, 0), at(1, 1, 1), 3);
    assert_eq!(p.keys().len(), 3);
    assert_eq!(p.get(at(9, 0, 0), at(1, 1, 1)), Some(&3));
    p.remove_body(at(0, 0, 0));
    assert!(!p.contains(at(0, 0, 0), at(2, 2, 2)));
    assert!(p.contains(at(9, 0, 0), at(1, 1, 1)));
    assert_eq!(p.remove(at(9, 0, 0), at(1, 1, 1)), Some(3));
    p.clear();
    assert!(p.keys().is_empty());
}

#[test]
fn vectors_pack_and_unpack() {
    for v in [at(0, 0, 0), at(-1, 2, -3), at(i32::MIN, i32::MAX, 0), at(i32::MAX, i32::MIN, -1)] {
        assert_eq!(IVec3::unpack(v.pack()), v);
    }
    assert_eq!(at(i32::MAX, 0, 0).checked_add(at(1, 0, 0)), None);
    assert_eq!(at(1, 2, 3).checked_add(at(-1, 0, 1)), Some(at(0, 2, 4)));
    assert_eq!(at(0, i32::MIN, 0).checked_sub(at(0, 1, 0)), None);
    assert_eq!(at(1, 2, 3).checked_sub(at(2, 2, 2)), Some(at(-1, 0, 1)));
    assert!(at(0, 1, 2).within(at(0, 0, 0), at(0, 1, 2)));
    assert!(!at(0, 1, 3).within(at(0, 0, 0), at(0, 1, 2)));
}

#[test]
fn bodies_locate_voxels_in_their_box() {
    let nb = NearBody::new(IVec3::zero(), cube(1), at(10, 0, 0), at(-2, -2, -2), at(2, 2, 2));
    assert_eq!(nb.locate(at(10, 0, 0)), Some(at(0, 0, 0)));
    assert_eq!(nb.locate(at(12, 2, -2)), Some(at(2, 2, -2)));
    assert_eq!(nb.locate(at(13, 0, 0)), None);
    assert_eq!(nb.locate(at(0, 0, 0)), None);
}

#[test]
fn storage_answers_as_the_terrain_does() {
    let mut w = World::new();
    look(&mut w, 2);
    let probes = [at(0, 0, 0), at(1, 0, 0), at(2, 0, 0), at(3, 0, 0), at(-2, 2, -1), at(4, 0, 0)];
    let want = [ORE, ROCK, REGOLITH, AIR, REGOLITH, AIR];
    for (v, b) in probes.iter().zip(want) {
        assert_eq!(w.block(*v, &terrain), b);
    }
    for cp in cell_box(at(-1, -1, -1), at(0, 0, 0)) {
        assert!(generate(&mut w, 2, cp));
        assert!(w.is_loaded(IVec3::zero(), cp));
    }
    for (v, b) in probes.iter().zip(want) {
        assert_eq!(w.block(*v, &terrain), b);
        assert_eq!(w.solid(*v, &terrain), b != AIR);
    }
    w.unload_chunk(IVec3::zero(), at(0, 0, 0));
    assert!(!w.is_loaded(IVec3::zero(), at(0, 0, 0)));
    for (v, b) in probes.iter().zip(want) {
        assert_eq!(w.block(*v, &terrain), b);
    }
}

#[test]
fn vacuum_chunks_cost_no_storage() {
    let mut w = World::new();
    look(&mut w, 2);
    assert!(!generate(&mut w, 2, at(5, 5, 5)));
    assert!(w.is_loaded(IVec3::zero(), at(5, 5, 5)));
    assert!(!w.generate_chunk(IVec3::zero(), at(6, 0, 0), false, &|_v: IVec3| ROCK));
    assert!(w.is_loaded(IVec3::zero(), at(6, 0, 0)));
    assert!(w.take_dirty(100).is_empty());
    // Forgotten beyond three times the radius.
    w.forget_empty(IVec3::zero(), 2);
    assert!(w.is_loaded(IVec3::zero(), at(5, 5, 5)));
    assert!(w.is_loaded(IVec3::zero(), at(6, 0, 0)));
    w.forget_empty(at(-1, 0, 0), 2);
    assert!(w.is_loaded(IVec3::zero(), at(5, 5, 5)));
    assert!(!w.is_loaded(IVec3::zero(), at(6, 0, 0)));
}

#[test]
fn mined_voxels_stay_mined_until_the_day_ends() {
    let mut w = settled(2);
    let v = at(1, 1, 0);
    let other = at(1, 0, 0);
    assert_eq!(w.block(v, &terrain), ROCK);
    w.set_air(v, &terrain);
    assert_eq!(w.block(v, &terrain), AIR);
    assert_eq!(w.block(other, &terrain), ROCK);
    w.set_air(at(0, 1, 1), &terrain);
    assert_eq!(w.block(v, &terrain), AIR, "digging elsewhere");
    w.unload_chunk(IVec3::zero(), at(0, 0, 0));
    assert_eq!(w.block(v, &terrain), AIR, "unloading");
    w.forget_empty(at(100, 100, 100), 0);
    assert_eq!(w.block(v, &terrain), AIR, "cleanup");
    generate(&mut w, 2, at(0, 0, 0));
    assert_eq!(w.block(v, &terrain), AIR, "regeneration");
    w.consume_body(at(7, 0, 0));
    assert_eq!(w.block(v, &terrain), AIR, "another body's end");
    w.reset_for_new_day(3);
    assert_eq!(w.world_salt(), 3);
    assert!(w.nearby().is_empty());
    look(&mut w, 2);
    assert_eq!(w.block(v, &terrain), ROCK, "a new day");
}

#[test]
fn digging_out_a_whole_chunk_leaves_vacuum() {
    let mut w = World::new();
    look(&mut w, 0);
    w.set_air(at(0, 0, 0), &terrain);
    assert!(!generate(&mut w, 0, at(0, 0, 0)), "nothing solid is left");
    assert_eq!(w.block(at(0, 0, 0), &terrain), AIR);
}

#[test]
fn edits_mark_the_chunk_and_its_neighbors() {
    let mut w = settled(2);
    assert_eq!(w.take_dirty(100).len(), 8);
    // Inside one chunk: that chunk alone.
    w.set_air(at(1, 1, 1), &terrain);
    assert_eq!(w.take_dirty(100), vec![(IVec3::zero(), at(0, 0, 0))]);
    // On a border: the neighbor across it too.
    w.set_air(at(0, 1, 1), &terrain);
    let mut dirty = w.take_dirty(100);
    dirty.sort_by_key(|(_, cp)| cp.x);
    assert_eq!(dirty, vec![(IVec3::zero(), at(-1, 0, 0)), (IVec3::zero(), at(0, 0, 0))]);
    // On a corner: three neighbors.
    w.set_air(at(0, 0, 0), &terrain);
    assert_eq!(w.take_dirty(100).len(), 4);
    // Outside every body: nothing.
    w.set_air(at(50, 50, 50), &terrain);
    assert!(w.take_dirty(100).is_empty());
}

#[test]
fn air_inside_a_box_is_edited_all_the_same() {
    let mut w = settled(2);
    w.take_dirty(100);
    // Above the rock but inside its box, on a chunk border.
    let v = at(3, 0, 1);
    assert_eq!(w.block(v, &terrain), AIR);
    w.set_air(v, &terrain);
    let mut dirty = w.take_dirty(100);
    dirty.sort_by_key(|(_, cp)| cp.y);
    assert_eq!(dirty, vec![(IVec3::zero(), at(0, -1, 0)), (IVec3::zero(), at(0, 0, 0))]);
    assert_eq!(w.block(v, &terrain), AIR);
    assert_eq!(w.block(at(2, 0, 1), &terrain), REGOLITH);
    // A block that is gone already counts no less.
    w.set_air(at(1, 1, 1), &terrain);
    assert_eq!(w.take_dirty(100).len(), 1);
    w.set_air(at(1, 1, 1), &terrain);
    assert_eq!(w.take_dirty(100), vec![(IVec3::zero(), at(0, 0, 0))]);
    // The edit holds against any terrain that comes later.
    for cp in cell_box(at(-1, -1, -1), at(0, 0, 0)) {
        w.unload_chunk(IVec3::zero(), cp);
    }
    look(&mut w, 5);
    assert_eq!(w.block(v, &terrain), AIR);
    assert_eq!(w.block(at(3, 1, 1), &terrain), ROCK);
    // One voxel past the box nothing happens at all.
    look(&mut w, 2);
    w.set_air(at(4, 0, 0), &terrain);
    assert!(w.take_dirty(100).is_empty());
    look(&mut w, 5);
    assert_eq!(w.block(at(4, 0, 0), &terrain), ROCK);
}

#[test]
fn air_in_two_boxes_belongs_to_the_first() {
    // Both boxes cover x = 3, and neither rock fills it.
    let mut w = crossed(6);
    let v = at(3, 0, 0);
    assert_eq!(w.block(v, &terrain), AIR);
    w.set_damage(v, 5, &terrain);
    assert_eq!(w.damage_of(v, &terrain), Some(5));
    for key in [at(9, 0, 0), IVec3::zero()] {
        for cp in cell_box(at(-1, -1, -1), at(0, 0, 0)) {
            w.generate_chunk(key, cp, true, &|g: IVec3| terrain(cube(2), g));
        }
    }
    w.take_dirty(100);
    w.set_air(v, &terrain);
    let dirty = w.take_dirty(100);
    assert!(dirty.iter().all(|(key, _)| *key == at(9, 0, 0)));
    // Gen voxel (-3, 0, 0) lies on two chunk borders.
    assert_eq!(dirty.len(), 3);
    assert_eq!(w.damage_of(v, &terrain), None);
}

#[test]
fn dirty_chunks_are_taken_in_batches() {
    let mut w = settled(2);
    assert_eq!(w.take_dirty(3).len(), 3);
    assert_eq!(w.take_dirty(3).len(), 3);
    assert_eq!(w.take_dirty(3).len(), 2);
    assert!(w.take_dirty(3).is_empty());
    w.set_air(at(1, 1, 1), &terrain);
    w.unload_chunk(IVec3::zero(), at(0, 0, 0));
    assert!(w.take_dirty(3).is_empty(), "an unloaded chunk needs no mesh");
}

#[test]
fn environment_is_the_bodys_or_open_space() {
    let mut w = World::new();
    look(&mut w, 2);
    assert_eq!(w.env_of(at(0, 0, 0), 9, &terrain), (2, 5));
    assert_eq!(w.env_of(at(3, 0, 0), 9, &terrain), (2, 5), "the whole box counts");
    assert_eq!(w.env_of(at(4, 0, 0), 9, &terrain), (9, 0));
    assert!(w.resolve(at(3, 0, 0), &terrain).is_none(), "the box is not the rock");
    assert!(w.resolve(at(2, 0, 0), &terrain).is_some());
}

#[test]
fn damage_is_noted_per_voxel_and_dies_with_it() {
    let mut w = settled(2);
    let v = at(1, 0, 0);
    assert_eq!(w.damage_of(v, &terrain), None);
    strike(&mut w, v, 4, false, &terrain);
    assert_eq!(w.damage_of(v, &terrain), Some(4));
    assert_eq!(w.damage_of(at(0, 1, 0), &terrain), None);
    assert_eq!(w.block(v, &terrain), ROCK);
    strike(&mut w, v, 0, true, &terrain);
    assert_eq!(w.damage_of(v, &terrain), None);
    assert_eq!(w.block(v, &terrain), AIR);
    // Outside every body nothing is noted.
    w.set_damage(at(50, 0, 0), 1, &terrain);
    assert_eq!(w.damage_of(at(50, 0, 0), &terrain), None);
}

#[test]
fn damage_in_the_air_is_noted_with_the_box() {
    let mut w = settled(2);
    for v in [at(3, 0, 0), at(1, 0, 0)] {
        w.set_air(v, &terrain);
        assert_eq!(w.damage_of(v, &terrain), None);
        w.set_damage(v, 6, &terrain);
        assert_eq!(w.damage_of(v, &terrain), Some(6));
        assert_eq!(w.damage_of(at(v.x - 1, 0, 0), &terrain), None);
        w.set_air(v, &terrain);
        assert_eq!(w.damage_of(v, &terrain), None);
    }
    // It is the body's: it comes along when the body moves.
    w.set_damage(at(3, 0, 0), 7, &terrain);
    w.motion_mut().insert(IVec3::zero(), drifting(at(10, 0, 0)));
    look(&mut w, 2);
    assert_eq!(w.damage_of(at(3, 0, 0), &terrain), None);
    assert_eq!(w.damage_of(at(13, 0, 0), &terrain), Some(7));
}

/// Home at rest and a tougher rock displaced along x, listed first.
fn crossed(off: i32) -> World {
    let mut w = World::new();
    approach(&mut w, off);
    w
}

fn approach(w: &mut World, off: i32) {
    w.motion_mut().insert(at(9, 0, 0), drifting(at(off, 0, 0)));
    w.refresh_nearby(IVec3::zero(), IVec3::zero(), 0, &|key: IVec3, _o: Option<i32>| {
        let mut p = placed(2);
        if key != IVec3::zero() {
            p.a.tier = 7;
            p.a.species = 1;
        }
        Some(p)
    });
    assert_eq!(w.nearby()[0].key, at(9, 0, 0));
    assert_eq!(w.nearby().len(), 2);
}

#[test]
fn a_box_is_not_a_block() {
    // The first body's box covers the voxel, the second one's rock fills it.
    let mut w = crossed(5);
    let v = at(2, 0, 0);
    assert_eq!(w.block(v, &terrain), REGOLITH);
    assert_eq!(w.env_of(v, 9, &terrain), (2, 5), "the rock's own tier");
    assert_eq!(w.resolve(v, &terrain).unwrap().0.key, IVec3::zero());
    w.set_damage(v, 8, &terrain);
    assert_eq!(w.damage_of(v, &terrain), Some(8));
    for key in [at(9, 0, 0), IVec3::zero()] {
        for cp in cell_box(at(-1, -1, -1), at(0, 0, 0)) {
            w.generate_chunk(key, cp, true, &|g: IVec3| terrain(cube(2), g));
        }
    }
    w.set_air(v, &terrain);
    assert_eq!(w.block(v, &terrain), AIR);
    assert_eq!(w.damage_of(v, &terrain), None);
    assert_eq!(w.block(at(1, 0, 0), &terrain), ROCK);
    assert_eq!(w.block(at(3, 0, 0), &terrain), REGOLITH);
    for key in [at(9, 0, 0), IVec3::zero()] {
        w.unload_chunk(key, at(0, 0, 0));
        w.unload_chunk(key, at(-1, 0, 0));
        assert_eq!(w.block(v, &terrain), AIR, "unloading is invisible");
        assert_eq!(w.block(at(1, 0, 0), &terrain), ROCK);
        assert_eq!(w.block(at(3, 0, 0), &terrain), REGOLITH);
        w.generate_chunk(key, at(0, 0, 0), true, &|g: IVec3| terrain(cube(2), g));
        assert_eq!(w.block(v, &terrain), AIR, "and so is regeneration");
    }
}

#[test]
fn bodies_that_have_run_together_are_dug_through() {
    // Both bodies are solid at x = 2.
    let mut w = crossed(3);
    let v = at(2, 0, 0);
    assert_eq!(w.block(v, &terrain), ROCK);
    assert_eq!(w.env_of(v, 9, &terrain), (7, 1), "the first one's block is seen");
    w.set_air(v, &terrain);
    assert_eq!(w.block(v, &terrain), AIR);
    assert_eq!(w.block(at(1, 0, 0), &terrain), REGOLITH);
    // Apart again, each has its own hole and no other.
    approach(&mut w, 20);
    assert_eq!(w.block(at(2, 0, 0), &terrain), AIR);
    assert_eq!(w.block(at(-1, 0, 0), &terrain), ROCK);
    assert_eq!(w.block(at(19, 0, 0), &terrain), AIR);
    assert_eq!(w.block(at(22, 0, 0), &terrain), REGOLITH);
}

#[test]
fn an_edit_belongs_to_its_body() {
    let mut w = crossed(20);
    w.set_air(at(21, 0, 0), &terrain);
    w.set_damage(at(20, 1, 0), 3, &terrain);
    assert_eq!(w.block(at(21, 0, 0), &terrain), AIR);
    assert_eq!(w.block(at(1, 0, 0), &terrain), ROCK, "the same gen voxel of another body");
    assert_eq!(w.damage_of(at(20, 1, 0), &terrain), Some(3));
    assert_eq!(w.damage_of(at(0, 1, 0), &terrain), None);
}

#[test]
fn mining_breaks_what_the_beam_hits() {
    let mut w = crossed(5);
    let hot = LaserState { firing: true, locked: false };
    let v = at(2, 0, 0);
    for _ in 0..2 {
        assert!(matches!(mine(&mut w, hot, true, Some(v)).mined, Mined::Worn { .. }));
    }
    let f = mine(&mut w, hot, true, Some(v));
    assert!(matches!(f.mined, Mined::Broken { at } if at.id == REGOLITH && at.tier == 2));
    assert_eq!(w.block(v, &terrain), AIR);
}

#[test]
fn terrain_rides_its_body() {
    let mut w = World::new();
    w.motion_mut().insert(IVec3::zero(), drifting(at(100, 0, 0)));
    look(&mut w, 2);
    assert_eq!(w.block(at(100, 0, 0), &terrain), ORE);
    assert_eq!(w.block(at(0, 0, 0), &terrain), AIR);
    w.set_air(at(101, 0, 0), &terrain);
    assert_eq!(w.block(at(101, 0, 0), &terrain), AIR);
    // The edit moves along.
    w.motion_mut().insert(IVec3::zero(), drifting(at(0, 50, 0)));
    look(&mut w, 2);
    assert_eq!(w.block(at(1, 50, 0), &terrain), AIR);
    assert_eq!(w.block(at(0, 51, 0), &terrain), ROCK);
    assert_eq!(w.motion_of(IVec3::zero()).unwrap().off_vox, at(0, 50, 0));
    assert_eq!(w.offset_of(at(3, 3, 3), 77), 77, "untracked bodies lie still");
}

#[test]
fn eaten_bodies_are_gone() {
    let mut w = settled(2);
    w.motion_mut().insert(IVec3::zero(), drifting(IVec3::zero()));
    assert!(!w.is_eaten(IVec3::zero()));
    w.consume_body(IVec3::zero());
    assert!(w.is_eaten(IVec3::zero()));
    assert!(!w.is_loaded(IVec3::zero(), at(0, 0, 0)));
    look(&mut w, 2);
    assert!(w.nearby().is_empty());
    assert_eq!(w.block(at(0, 0, 0), &terrain), AIR);
    assert!(!w.is_eaten(at(1, 0, 0)), "a body that was never tracked");
}

#[test]
fn nearby_lists_tracked_bodies_then_cells_then_planets() {
    let mut w = World::new();
    w.motion_mut().insert(at(9, 9, 9), drifting(at(4, 0, 0)));
    let mut eaten = drifting(IVec3::zero());
    eaten.eaten = true;
    w.motion_mut().insert(at(0, 0, 0), eaten);
    w.motion_mut().insert(planet_key(1), drifting(at(5, 0, 0)));
    w.refresh_nearby(at(0, 0, 0), at(1, 0, 0), 3, &|key: IVec3, offset: Option<i32>| {
        // Tracked bodies are judged at their offset.
        assert_eq!(offset.is_some(), key == at(9, 9, 9) || key == planet_key(1));
        if key == planet_key(2) {
            None
        } else {
            Some(placed(1))
        }
    });
    let keys: Vec<IVec3> = w.nearby().iter().map(|nb| nb.key).collect();
    assert_eq!(keys.len(), 4);
    let moving = &keys[..2];
    assert!(moving.contains(&at(9, 9, 9)) && moving.contains(&planet_key(1)));
    assert_eq!(&keys[2..], &[at(1, 0, 0), planet_key(0)]);
    for nb in w.nearby() {
        let want = if nb.key == at(9, 9, 9) {
            at(4, 0, 0)
        } else if nb.key == planet_key(1) {
            at(5, 0, 0)
        } else {
            IVec3::zero()
        };
        assert_eq!(nb.off_vox, want);
    }
}

#[test]
fn overlapping_boxes_show_the_first_solid_block() {
    let mut w = World::new();
    // Two cubes whose boxes overlap: the second one is larger.
    w.refresh_nearby(at(0, 0, 0), at(1, 0, 0), 0, &|key: IVec3, _o: Option<i32>| {
        if key.x == 0 {
            Some(Placed { a: cube(1), vmin: at(-9, -9, -9), vmax: at(9, 9, 9) })
        } else {
            Some(placed(4))
        }
    });
    assert_eq!(w.block(at(1, 0, 0), &terrain), REGOLITH);
    assert_eq!(w.block(at(2, 0, 0), &terrain), ROCK, "the first body has only air there");
    assert_eq!(w.block(at(4, 0, 0), &terrain), REGOLITH);
    assert_eq!(w.block(at(5, 0, 0), &terrain), AIR);
}

#[test]
fn bodies_drift_and_the_horizon_takes_them() {
    let mut w = World::new();
    w.register_bodies(
        at(0, 0, 0),
        at(2, 0, 0),
        1,
        0,
        &|c: IVec3| if c.x == 1 { Some((5, at(5, 0, 0))) } else { None },
        &|_key: IVec3| (7, at(7, 0, 0)),
    );
    let rest = w.motion_of(IVec3::zero()).unwrap();
    assert_eq!((rest.offset, rest.off_vox, rest.backfilled), (0, IVec3::zero(), true));
    assert_eq!(w.motion_of(at(1, 0, 0)).unwrap().off_vox, at(5, 0, 0));
    assert!(w.motion_of(at(2, 0, 0)).is_none());
    assert_eq!(w.motion_of(planet_key(0)).unwrap().offset, 7);

    let consumed = w.advance_bodies(&|key: IVec3, o: i32| {
        Some(Drift { offset: o + 2, off_vox: at(o + 2, 0, 0), swallowed: key == planet_key(0) })
    });
    assert_eq!(consumed, vec![planet_key(0)]);
    let m = w.motion_of(at(1, 0, 0)).unwrap();
    assert_eq!((m.offset, m.off_vox, m.delta), (7, at(7, 0, 0), at(2, 0, 0)));
    let home = w.motion_of(IVec3::zero()).unwrap();
    assert_eq!((home.offset, home.delta), (0, IVec3::zero()), "home never moves");
    assert!(!w.is_eaten(planet_key(0)), "only once its storage is dropped");
    w.consume_body(planet_key(0));
    let again = w.advance_bodies(&|_k: IVec3, o: i32| {
        Some(Drift { offset: o, off_vox: at(o, 0, 0), swallowed: true })
    });
    assert_eq!(again, vec![at(1, 0, 0)], "an eaten body is not eaten twice");
    assert_eq!(w.motion_of(planet_key(0)).unwrap().delta, IVec3::zero());
    // Known bodies keep their motion when seen again.
    w.register_bodies(at(1, 0, 0), at(1, 0, 0), 0, 0, &|_c: IVec3| Some((0, at(0, 0, 0))), &|_k: IVec3| {
        (0, at(0, 0, 0))
    });
    assert_eq!(w.motion_of(at(1, 0, 0)).unwrap().off_vox, at(7, 0, 0));
}

#[test]
fn passengers_are_carried() {
    let mut w = World::new();
    let mut m = drifting(at(10, 0, 0));
    m.delta = at(0, -1, 0);
    w.motion_mut().insert(at(1, 0, 0), m);
    w.refresh_nearby(at(0, 0, 0), at(0, 0, 0), 0, &|key: IVec3, _o: Option<i32>| {
        if key == at(1, 0, 0) {
            Some(placed(2))
        } else {
            None
        }
    });
    // The second probe is in rock, the first one only in the box.
    assert_eq!(w.carrier_delta(&vec![at(13, 0, 0), at(12, 0, 0)], &terrain), at(0, -1, 0));
    assert_eq!(w.carrier_delta(&vec![at(13, 0, 0)], &terrain), IVec3::zero());
    assert_eq!(w.carrier_delta(&vec![at(99, 0, 0)], &terrain), IVec3::zero());
}

fn along_x(start: i32, cells: usize) -> RayPath {
    RayPath {
        start: at(start, 0, 0),
        step: at(-1, 1, 1),
        axes: vec![Axis::X; cells],
        ranks: (0..=cells as u64).map(|k| k * 10).collect(),
    }
}

#[test]
fn rays_stop_at_the_first_block() {
    let mut w = World::new();
    look(&mut w, 2);
    let nb = w.nearby()[0];
    let s = raycast_one(&w, &nb, &along_x(10, 20), &terrain).unwrap();
    assert_eq!((s.steps, s.voxel, s.normal), (8, at(2, 0, 0), at(1, 0, 0)));
    let hit = raycast(&w, &vec![Some(along_x(10, 20))], &terrain).unwrap();
    assert_eq!((hit.body, hit.steps, hit.voxel, hit.rank), (0, 8, at(2, 0, 0), 80));
    assert_eq!(hit.normal, at(1, 0, 0));
    // Too short, passed by, or nothing at all.
    assert!(raycast(&w, &vec![Some(along_x(10, 7))], &terrain).is_none());
    assert!(raycast(&w, &vec![None], &terrain).is_none());
    // From inside: no step, no face.
    let inside = raycast(&w, &vec![Some(along_x(0, 0))], &terrain).unwrap();
    assert_eq!((inside.voxel, inside.normal, inside.rank), (at(0, 0, 0), IVec3::zero(), 0));
    // A mined block lets the ray on.
    w.set_air(at(2, 0, 0), &terrain);
    let deeper = raycast(&w, &vec![Some(along_x(10, 20))], &terrain).unwrap();
    assert_eq!(deeper.voxel, at(1, 0, 0));
    assert_eq!(w.block(deeper.voxel, &terrain), ROCK, "what is hit is a block");
}

#[test]
fn the_nearest_hit_wins() {
    let mut w = World::new();
    w.motion_mut().insert(at(5, 0, 0), drifting(at(20, 0, 0)));
    w.refresh_nearby(at(0, 0, 0), at(0, 0, 0), 0, &|key: IVec3, _o: Option<i32>| {
        if key == at(5, 0, 0) || key == IVec3::zero() {
            Some(placed(2))
        } else {
            None
        }
    });
    // From x = 40 down: the displaced body is met at 22, the other at 2.
    let paths = w
        .nearby()
        .iter()
        .map(|nb| Some(along_x(40 - nb.off_vox.x, 60)))
        .collect();
    let hit = raycast(&w, &paths, &terrain).unwrap();
    assert_eq!(w.nearby()[hit.body].key, at(5, 0, 0));
    assert_eq!((hit.voxel, hit.rank), (at(22, 0, 0), 180));
}

#[test]
fn a_lone_voxel_shows_six_faces() {
    let mut w = World::new();
    look(&mut w, 0);
    let (solid, glow) = mesh_chunk(&w, IVec3::zero(), cube(0), at(0, 0, 0), &terrain);
    assert!(solid.quads.is_empty());
    assert_eq!(glow.quads.len(), 6);
    assert_eq!(glow.positions.len(), 24);
    assert_eq!(glow.indices.len(), 36);
    assert_eq!(&glow.indices[6..12], &[4, 5, 6, 4, 6, 7]);
    for (k, q) in glow.quads.iter().enumerate() {
        assert_eq!((q.voxel, q.id, q.face), (at(0, 0, 0), ORE, k));
        assert_eq!(glow.normals[4 * k], dir_of(k));
    }
    // The top face, counter-clockwise from above.
    assert_eq!(
        &glow.positions[8..12],
        &[at(0, 1, 0), at(0, 1, 1), at(1, 1, 1), at(1, 1, 0)]
    );
    let normals: Vec<IVec3> = (0..FACE_COUNT).map(dir_of).collect();
    assert_eq!(
        normals,
        vec![at(1, 0, 0), at(-1, 0, 0), at(0, 1, 0), at(0, -1, 0), at(0, 0, 1), at(0, 0, -1)]
    );
    let shades: Vec<u32> = (0..FACE_COUNT).map(shade_of).collect();
    assert_eq!(shades, vec![80, 80, 100, 50, 65, 65]);
}

#[test]
fn faces_point_outward() {
    for f in 0..FACE_COUNT {
        let mut m = MeshScratch::new();
        m.push_face(Quad { voxel: at(3, -4, 5), id: ROCK, face: f });
        let p = &m.positions;
        let sub = |a: IVec3, b: IVec3| a.checked_sub(b).unwrap();
        let (u, v) = (sub(p[1], p[0]), sub(p[2], p[0]));
        let cross = at(u.y * v.z - u.z * v.y, u.z * v.x - u.x * v.z, u.x * v.y - u.y * v.x);
        assert_eq!(cross, dir_of(f));
    }
}

#[test]
fn only_exposed_faces_are_drawn() {
    let mut w = World::new();
    look(&mut w, 20);
    let (solid, glow) = mesh_chunk(&w, IVec3::zero(), cube(20), at(0, 0, 0), &terrain);
    assert!(solid.quads.is_empty() && glow.quads.is_empty(), "buried");
    // Dig one voxel: its six neighbors each show the face toward it.
    w.set_air(at(5, 5, 5), &terrain);
    let (solid, _) = mesh_chunk(&w, IVec3::zero(), cube(20), at(0, 0, 0), &terrain);
    assert_eq!(solid.quads.len(), 6);
    for q in &solid.quads {
        assert_eq!(q.voxel.checked_add(dir_of(q.face)), Some(at(5, 5, 5)));
    }
}

#[test]
fn blasts_spare_barriers_and_air() {
    fn vault(a: Rock, v: IVec3) -> u8 {
        if v == IVec3::zero() {
            BARRIER
        } else {
            terrain(a, v)
        }
    }
    let mut w = World::new();
    look(&mut w, 1);
    let cells = blast_cells(at(0, 0, 0), 2, &|v: IVec3| v.x.abs() + v.y.abs() + v.z.abs() <= 1);
    assert_eq!(cells.len(), 7);
    let torn = explode(&mut w, &cells, &vault);
    assert_eq!(torn.len(), 6, "all but the barrier");
    assert!(torn.contains(&Torn { voxel: at(0, 1, 0), id: REGOLITH, tier: 2, species: 5 }));
    assert_eq!(w.block(at(0, 1, 0), &vault), AIR);
    assert_eq!(w.block(at(0, 0, 0), &vault), BARRIER);
    assert_eq!(w.block(at(1, 1, 0), &vault), REGOLITH, "outside the sphere");
    assert!(explode(&mut w, &cells, &vault).is_empty(), "nothing is torn twice");
    assert_eq!(boom_line(6), "BOOM — 6 blocks");
    assert_eq!(BLAST_VOXELS, 16);
}

#[test]
fn boxes_collide_with_blocks() {
    let mut w = World::new();
    look(&mut w, 2);
    assert!(collides(&w, at(2, 2, 2), at(3, 3, 3), &terrain));
    assert!(!collides(&w, at(3, 3, 3), at(4, 4, 4), &terrain));
    assert!(!collides(&w, at(2, 2, 2), at(1, 3, 3), &terrain), "an empty box");
    w.set_air(at(2, 2, 2), &terrain);
    assert!(!collides(&w, at(2, 2, 2), at(3, 3, 3), &terrain));
}

#[test]
fn thrown_things_stop_axis_by_axis() {
    let mut w = World::new();
    look(&mut w, 2);
    // A point just above the cube, moving by (1, -1, 0).
    let step = [1, -1, 0];
    let after = throw_step(
        &w,
        &terrain,
        ([0, 3, 0], [0, 0, 0]),
        &|s: ([i32; 3], [i32; 3]), axis: usize| {
            let mut n = s;
            n.0[axis] += step[axis];
            (n, at(n.0[0], n.0[1], n.0[2]))
        },
        &|mut s: ([i32; 3], [i32; 3]), axis: usize| {
            s.1[axis] += 1;
            s
        },
    );
    assert_eq!(after, ([1, 3, 0], [0, 1, 0]), "x is free, y is stopped");
}

#[test]
fn chunk_offsets_come_nearest_first() {
    let order = GenOrder::new();
    let o = order.offsets();
    assert_eq!(o[0], IVec3::zero());
    let sq = |v: &IVec3| v.x * v.x + v.y * v.y + v.z * v.z;
    assert!(o.windows(2).all(|p| sq(&p[0]) <= sq(&p[1])));
    assert_eq!(sq(o.last().unwrap()), 196);
    let mut n = 0;
    for z in -14i32..=14 {
        for y in -14i32..=14 {
            for x in -14i32..=14 {
                if x * x + y * y + z * z <= 196 {
                    n += 1;
                }
            }
        }
    }
    assert_eq!(o.len(), n);
    // Equal lengths keep the order in which a box is walked.
    assert_eq!(
        &o[1..7],
        &[at(0, 0, -1), at(0, -1, 0), at(-1, 0, 0), at(1, 0, 0), at(0, 1, 0), at(0, 0, 1)]
    );
}

#[test]
fn streaming_loads_the_nearest_missing_chunk_within_budget() {
    let order = GenOrder::new();
    let mut w = World::new();
    look(&mut w, 2);
    let body = StreamBody { key: IVec3::zero(), center: at(0, 0, 0), cmin: at(-1, -1, -1), cmax: at(0, 0, 0) };
    let mut plan = ChunkPlan::new(vec![body], 3);
    assert_eq!(plan.step(&w, &order), PlanStep::Enter(0));
    assert_eq!(plan.step(&w, &order), PlanStep::Load(0, at(0, 0, 0)));
    generate(&mut w, 2, at(0, 0, 0));
    assert_eq!(plan.step(&w, &order), PlanStep::Load(0, at(0, 0, -1)));
    generate(&mut w, 2, at(0, 0, -1));
    assert_eq!(plan.step(&w, &order), PlanStep::Load(0, at(0, -1, 0)));
    generate(&mut w, 2, at(0, -1, 0));
    assert_eq!(plan.step(&w, &order), PlanStep::Done, "the budget is spent");
    // The next pass goes on where this one ended.
    let mut next = ChunkPlan::new(vec![body], GEN_BUDGET);
    assert_eq!(next.step(&w, &order), PlanStep::Enter(0));
    assert_eq!(next.step(&w, &order), PlanStep::Load(0, at(-1, 0, 0)));
    // A far body is entered, but has nothing in range.
    let far = StreamBody { center: at(100, 0, 0), ..body };
    let mut idle = ChunkPlan::new(vec![far], GEN_BUDGET);
    assert_eq!(idle.step(&w, &order), PlanStep::Enter(0));
    assert_eq!(idle.step(&w, &order), PlanStep::Done);
    let mut broke = ChunkPlan::new(vec![body], 0);
    assert_eq!(broke.step(&w, &order), PlanStep::Done);
}

#[test]
fn sweeps_come_around() {
    assert_eq!(sweep_tick(0), (1, true));
    assert_eq!(sweep_tick(1), (2, false));
    assert_eq!(sweep_tick(31), (32, true));
    assert_eq!(unload_tick(95), (96, false));
    assert_eq!(unload_tick(96), (97, true));
    assert_eq!(unload_tick(u32::MAX), (0, true));
}

#[test]
fn entities_follow_their_chunks() {
    let mut e: ChunkEntities<u32> = ChunkEntities::new();
    assert_eq!(e.root(at(1, 0, 0), || 10), 10);
    assert_eq!(e.root(at(1, 0, 0), || 11), 10, "one root per body");
    assert_eq!(e.root(at(2, 0, 0), || 20), 20);
    e.insert(at(1, 0, 0), at(5, 5, 5), 1, 2);
    e.insert(at(2, 0, 0), at(5, 5, 5), 3, 4);
    assert_eq!(e.get(at(1, 0, 0), at(5, 5, 5)), Some((1, 2)));
    assert_eq!(e.despawn_body(at(1, 0, 0)), Some(10));
    assert_eq!(e.despawn_body(at(1, 0, 0)), None);
    assert_eq!(e.get(at(1, 0, 0), at(5, 5, 5)), None);
    assert_eq!(e.get(at(2, 0, 0), at(5, 5, 5)), Some((3, 4)));
    assert_eq!(e.despawn_all(), vec![(at(2, 0, 0), 20)]);
    assert_eq!(e.get(at(2, 0, 0), at(5, 5, 5)), None);
    assert!(e.despawn_all().is_empty());
}

#[test]
fn far_chunks_are_unloaded_near_ones_stay() {
    let mut w = settled(2);
    let mut e: ChunkEntities<u32> = ChunkEntities::new();
    e.insert(IVec3::zero(), at(0, 0, 0), 1, 2);
    e.insert(IVec3::zero(), at(-1, 0, 0), 3, 4);
    w.set_air(at(-1, 1, 1), &terrain);
    let gone = unload_far_chunks(&mut e, &mut w, &|_k: IVec3, cp: IVec3| cp.x < 0, at(0, 0, 0), 28);
    assert_eq!(gone.len(), 1);
    assert_eq!((gone[0].cp, gone[0].solid, gone[0].glow), (at(-1, 0, 0), 3, 4));
    assert_eq!(e.get(IVec3::zero(), at(-1, 0, 0)), None);
    assert_eq!(e.get(IVec3::zero(), at(0, 0, 0)), Some((1, 2)));
    assert!(!w.is_loaded(IVec3::zero(), at(-1, 0, 0)));
    assert!(w.is_loaded(IVec3::zero(), at(0, 0, 0)));
    assert_eq!(w.block(at(-1, 1, 1), &terrain), AIR, "the edit outlives the chunk");
}

/// Full blocks have 3 points; a barrier is never asked about.
fn burn(id: u8, tier: i32, noted: Option<u32>) -> (u32, bool) {
    assert!(id != BARRIER && id != AIR);
    assert_eq!(tier, 2);
    let left = noted.unwrap_or(3) - 1;
    (left, left == 0)
}

fn mine(w: &mut World, laser: LaserState, trigger: bool, hit: Option<IVec3>) -> MiningFrame<u32> {
    mining(w, &terrain, laser, trigger, false, false, hit, &burn)
}

#[test]
fn the_laser_wears_blocks_down() {
    let mut w = settled(3);
    let cold = LaserState { firing: false, locked: false };
    let hot = LaserState { firing: true, locked: false };
    let v = at(0, 3, 0);
    let skin = Struck { voxel: v, id: REGOLITH, tier: 2, species: 5 };
    let f = mine(&mut w, cold, false, Some(v));
    assert_eq!(f.laser, cold);
    assert!(matches!(f.mined, Mined::Looked { at, noted: None } if at == skin));
    for left in [2, 1] {
        let f = mine(&mut w, hot, true, Some(v));
        assert_eq!((f.laser, f.overheated), (hot, false));
        assert!(matches!(f.mined, Mined::Worn { at, left: n } if at == skin && n == left));
        assert_eq!(w.damage_of(v, &terrain), Some(left));
    }
    // Looking at it does not mend it.
    let f = mine(&mut w, hot, false, Some(v));
    assert!(matches!(f.mined, Mined::Looked { at, noted: Some(1) } if at == skin));
    let f = mine(&mut w, cold, true, Some(v));
    assert!(matches!(f.mined, Mined::Broken { at } if at == skin));
    assert_eq!(w.block(v, &terrain), AIR);
    assert_eq!(w.damage_of(v, &terrain), None);
    // Nothing is left to hit.
    assert!(matches!(mine(&mut w, hot, true, Some(v)).mined, Mined::Nothing));
    assert!(matches!(mine(&mut w, hot, true, None).mined, Mined::Nothing));
}

#[test]
fn a_dark_beam_and_a_barrier_leave_the_world_alone() {
    let mut w = settled(3);
    let locked = LaserState { firing: false, locked: true };
    let v = at(0, 3, 0);
    // A lockout overrides the trigger.
    let f = mine(&mut w, locked, true, Some(v));
    assert_eq!(f.laser, locked);
    assert!(matches!(f.mined, Mined::Looked { noted: None, .. }));
    // Neither does the frame that overheats fire.
    let hot = LaserState { firing: true, locked: false };
    let f = mining(&mut w, &terrain, hot, true, false, true, Some(v), &burn);
    assert_eq!((f.laser, f.overheated), (locked, true));
    assert!(matches!(f.mined, Mined::Looked { noted: None, .. }));
    assert_eq!(w.damage_of(v, &terrain), None);
    // Barriers are looked at, whatever the beam does.
    let wall = |_a: Rock, _v: IVec3| BARRIER;
    let mut bare = World::new();
    look(&mut bare, 3);
    let f = mining(&mut bare, &wall, hot, true, false, false, Some(v), &burn);
    assert_eq!(f.laser, hot);
    assert!(matches!(f.mined, Mined::Looked { at, noted: None } if at.id == BARRIER));
    assert_eq!(bare.block(v, &wall), BARRIER);
}

#[test]
fn the_horizon_takes_world_and_scene_together() {
    let mut w = settled(3);
    let mut e: ChunkEntities<u32> = ChunkEntities::new();
    let (rock, far) = (at(4, 0, 0), at(5, 0, 0));
    for key in [rock, far, planet_key(0)] {
        w.motion_mut().insert(key, drifting(IVec3::zero()));
        w.generate_chunk(key, IVec3::zero(), true, &|v: IVec3| terrain(cube(3), v));
    }
    e.root(rock, || 40);
    e.root(far, || 50);
    e.insert(rock, IVec3::zero(), 1, 2);
    e.insert(far, IVec3::zero(), 3, 4);
    let drift = |key: IVec3, o: i32| {
        Some(Drift { offset: o + 1, off_vox: at(o + 1, 0, 0), swallowed: key != far })
    };
    let mut meals: Vec<(IVec3, Option<u32>, bool)> = Vec::new();
    for m in feed(&mut w, &mut e, &drift) {
        meals.push((m.key, m.root, m.loud));
    }
    assert_eq!(meals.len(), 2);
    assert!(meals.contains(&(rock, Some(40), false)));
    assert!(meals.contains(&(planet_key(0), None, true)), "a world dies loud, on display or not");
    for key in [rock, planet_key(0)] {
        assert!(w.is_eaten(key));
        assert!(!w.is_loaded(key, IVec3::zero()));
    }
    assert!(!w.is_eaten(far));
    assert!(w.is_loaded(far, IVec3::zero()));
    assert_eq!(w.motion_of(far).unwrap().delta, at(1, 0, 0));
    assert_eq!(e.get(rock, IVec3::zero()), None);
    assert_eq!(e.get(far, IVec3::zero()), Some((3, 4)));
    assert!(w.is_loaded(IVec3::zero(), IVec3::zero()), "home stays");
    // What is gone is not eaten again.
    let all = |_k: IVec3, o: i32| Some(Drift { offset: o, off_vox: at(o, 0, 0), swallowed: true });
    let again = feed(&mut w, &mut e, &all);
    assert_eq!(again.len(), 1);
    assert_eq!((again[0].key, again[0].root), (far, Some(50)));
    assert!(feed(&mut w, &mut e, &all).is_empty());
}

#[test]
fn a_pass_with_budget_to_spare_leaves_nothing_behind() {
    let order = GenOrder::new();
    let body = StreamBody {
        key: IVec3::zero(),
        center: at(0, 0, 0),
        cmin: at(-1, -1, -1),
        cmax: at(0, 0, 0),
    };
    let other = StreamBody { key: at(9, 0, 0), ..body };
    let mut w = World::new();
    let run = |w: &mut World, budget: usize| {
        let mut plan = ChunkPlan::new(vec![body, other], budget);
        let mut loads: Vec<(usize, IVec3)> = Vec::new();
        loop {
            match plan.step(w, &order) {
                PlanStep::Enter(_) => {}
                PlanStep::Load(i, cp) => {
                    let key = [body.key, other.key][i];
                    w.generate_chunk(key, cp, true, &|v: IVec3| terrain(cube(3), v));
                    loads.push((i, cp));
                }
                PlanStep::Done => return loads,
            }
        }
    };
    let first = run(&mut w, 10);
    assert_eq!(first.len(), 10, "the budget is shared");
    assert_eq!(first[0], (0, at(0, 0, 0)), "nearest first");
    assert_eq!(first[8], (1, at(0, 0, 0)));
    assert_eq!(run(&mut w, 10).len(), 6);
    for cp in cell_box(body.cmin, body.cmax) {
        assert!(w.is_loaded(body.key, cp));
        assert!(w.is_loaded(other.key, cp));
    }
    assert!(run(&mut w, 10).is_empty());
}

#[test]
fn whatever_happens_terrain_and_edits_are_shown() {
    let mut w = World::new();
    look(&mut w, 3);
    let mut dug: Vec<IVec3> = Vec::new();
    let cells = cell_box(at(-4, -4, -4), at(4, 4, 4));
    for step in 0..40 {
        let cp = at(-(step & 1), -((step >> 1) & 1), -((step >> 2) & 1));
        match step % 5 {
            0 => {
                generate(&mut w, 3, cp);
            }
            1 => {
                let v = cells[(step as usize * 97) % cells.len()];
                w.set_air(v, &terrain);
                dug.push(v);
            }
            2 => w.unload_chunk(IVec3::zero(), cp),
            3 => w.forget_empty(at(9, 9, 9), 1),
            _ if step == 24 => w.consume_body(IVec3::zero()),
            _ => {
                w.take_dirty(2);
            }
        }
        for v in &cells {
            let due = if dug.contains(v) { AIR } else { terrain(cube(3), *v) };
            assert_eq!(w.block(*v, &terrain), due, "step {step} at {v:?}");
        }
    }
    assert!(dug.iter().any(|v| terrain(cube(3), *v) != AIR));
    assert!(dug.iter().any(|v| terrain(cube(3), *v) == AIR));
}
