//! Hashes, the day, the tour, the suit, the far field, sound and the screen.
use limits::audio::{
    loop_action, loopify, playback, wav, Clip, LoopAction, SfxEvent, SfxQueue, RATE,
};
use limits::blocks::{AIR, BARRIER, ORE, REGOLITH, ROCK};
use limits::body::{body_kind, planet_key, Asteroid, BodyKind, BodyMotion};
use limits::day::{
    caught_line, dawn_line, pull_on_player, stage_due, warning_line, DayPhase, DaySigns, DayState,
};
use limits::demo::{gaze, DemoSigns, DemoState, Gaze, SHOT_COUNT};
use limits::economy::{Inventory, Upgrades, Wallet};
use limits::entities::ChunkEntities;
use limits::field::{
    asteroid_in_cell, asteroids_overlapping, block_at, bodies_overlapping, build_planets,
    cell_roll, classify, nearest_asteroid, nearest_asteroid_keyed, shaped, species, starter_cell, surface_y_at, voxel_env, CellRoll,
    FieldGrid, Sighting, HOME_SEED,
};
use limits::hash::{
    hash01, hash1, hash3, hash_unit, pop_jitter, salted, scatter, seed_unit, sky_hash, vertex_jitter,
};
use limits::hud::{
    bake_icon, controls_line, dot_state, hold_line, offer_row, overflow_line, pip_state, recall_row,
    sell_row, target_line, Offer,
};
use limits::ivec::IVec3;
use limits::lod::{impostor_shown, impostor_tick, shard_offset, Impostors, PlanetFate};
use limits::nearby::Placed;
use limits::player::{
    axis_move, beam_on, break_sound, collides, drive, grab_cursor, heat_course, laser_part_shown,
    laser_step, move_axis, player_move, swept_move, target_block, touchdown, wish, AxisMove, Beam,
    BreakSound, Drive, Gait, Heat, LaserFx, LaserState, MoveKeys, Stride, Wish,
};
use limits::reset::day_reset;
use limits::scene::{grid_indices, has_rings, paint_rgba, streak_is_hot, Rgb, N_STREAKS};
use limits::sim::{
    clamp_count, draws, handle_input, next_frame, SimKeys, SimState, ENTITY_COUNT_MAX,
};
use limits::world::VoxelWorld;

fn at(x: i32, y: i32, z: i32) -> IVec3 {
    IVec3::new(x, y, z)
}

#[test]
fn hashes_are_fixed() {
    assert_eq!(hash3(at(1, 2, 3), 0), 9_378_102_716_218_682_000);
    assert_eq!(hash3(at(-1, -2, -3), 7), 11_027_483_256_155_464_539);
    assert_eq!(hash_unit(at(1, 2, 3), 0), 8_529_334);
    assert_eq!(hash_unit(at(0, 0, 0), 0xA17E), 2_550_759);
    assert_eq!(seed_unit(0xCAFE_D00D, 4), 1_570_186);
    assert_eq!((hash1(0), hash1(1)), (0, 5_673_494));
    assert_eq!(hash01(3, 0x11), 16_629_936);
    assert_eq!(sky_hash(-1, 2, -3, 0xA001), 11_181_361);
    assert_eq!(salted(0xF1E1D, 1), 11_400_714_819_322_864_136);
    assert_eq!(salted(0xA5, 0), 0xA5, "the first day is unsalted");
    assert_eq!(scatter(at(1, 2, 3), 4), 5_609_819);
    assert_eq!((pop_jitter(at(1, 2, 3)), pop_jitter(at(-1, 0, 5))), (6, 4));
    assert_eq!(vertex_jitter(5, 100), 145);
}

#[test]
fn starter_cells_are_near_but_not_home() {
    assert_eq!(starter_cell(0), at(-1, -2, -2));
    assert_eq!(starter_cell(1), at(1, 2, 2));
    assert_eq!(starter_cell(2), at(-1, 1, 2));
    for salt in 0..50 {
        let c = starter_cell(salt);
        for n in [c.x, c.y, c.z] {
            assert!(n != 0 && n.abs() <= 2);
        }
        assert_eq!(cell_roll(c, salt), CellRoll::Starter);
    }
    assert_eq!(cell_roll(IVec3::zero(), 9), CellRoll::Home);
}

#[test]
fn cells_are_mostly_empty() {
    let mut rocks = 0;
    for x in 10..60 {
        for z in 10..60 {
            match cell_roll(at(x, 3, z), 0) {
                CellRoll::Rock => {
                    assert!(hash_unit(at(x, 3, z), 0xF1E1D) < 301_990);
                    rocks += 1;
                }
                CellRoll::Empty => assert!(hash_unit(at(x, 3, z), 0xF1E1D) >= 301_990),
                _ => panic!("far from home"),
            }
        }
    }
    assert!((20..80).contains(&rocks), "got {rocks} of 2500");
}

#[test]
fn cells_hold_what_fits() {
    let first = |_c: IVec3| 1;
    let fit = |_c: IVec3| Some((5, 2));
    let none = |_c: IVec3| None::<(i32, i32)>;
    let home = asteroid_in_cell(IVec3::zero(), 4, 7, &first, &none).unwrap();
    assert_eq!((home.seed, home.tier, home.species, home.is_planet, home.shape), (HOME_SEED, 0, 0, false, 7));
    // The starter is guaranteed every day, and always easy.
    for salt in 0..40 {
        let c = starter_cell(salt);
        let starter = asteroid_in_cell(c, salt, 7, &first, &none).unwrap();
        assert_eq!((starter.tier, starter.shape), (0, 1));
        assert_eq!(starter.seed, hash3(c, salted(0xA5, salt)));
        assert_eq!(starter.species, ((starter.seed >> 17) % 8) as u8);
    }
    let mut c = at(10, 3, 10);
    while cell_roll(c, 0) != CellRoll::Rock {
        c.x += 1;
    }
    let rock = asteroid_in_cell(c, 0, 7, &first, &fit).unwrap();
    assert!(asteroid_in_cell(c, 0, 7, &first, &none).is_none(), "no room");
    assert_eq!((rock.tier, rock.shape), (5, 2));
    while cell_roll(c, 0) != CellRoll::Empty {
        c.x += 1;
    }
    assert!(asteroid_in_cell(c, 0, 7, &first, &fit).is_none());
}

#[test]
fn planets_are_seeded_by_the_day() {
    let ps = build_planets(0, &|i: usize, seed: u64| (i, seed));
    assert_eq!(ps.len(), 6);
    assert_eq!(ps[0].seed, 15_537_651_484_509_764_505);
    assert_eq!(ps[1].seed, 17_903_507_505_328_889_811);
    for (i, p) in ps.iter().enumerate() {
        assert_eq!(p.shape, (i, p.seed));
        assert_eq!(p.species, species(p.seed));
        assert!(p.is_planet);
    }
    assert_ne!(build_planets(1, &|_i: usize, _s: u64| ())[0].seed, ps[0].seed);
    let a = shaped(3 << 17, 4, false, ());
    assert_eq!((a.seed, a.tier, a.species), (3 << 17, 4, 3));
}

#[test]
fn planet_keys_name_planets() {
    assert_eq!(planet_key(0), at(1_000_000, 0, 0));
    assert_eq!(body_kind(planet_key(5)), BodyKind::Planet(5));
    assert_eq!(body_kind(at(999_999, 0, 0)), BodyKind::Cell);
}

#[test]
fn bodies_are_listed_exactly_if_they_touch() {
    // Every other cell holds a rock; odd seeds touch.
    let look = |c: IVec3| {
        if (c.x + c.y + c.z) % 2 == 0 {
            Some(shaped((c.x * 7 + c.y * 3 + c.z + 100) as u64, 0, false, c.x))
        } else {
            None
        }
    };
    let touches = |a: Asteroid<i32>| a.seed % 2 == 1;
    let planets = vec![shaped(11, 5, true, 90), shaped(12, 4, true, 91), shaped(13, 3, true, 92)];
    let (lo, hi) = (at(-1, 0, -1), at(1, 1, 1));
    let out = bodies_overlapping(lo, hi, &planets, &look, &touches);
    let mut keys: Vec<IVec3> = Vec::new();
    for k in &out {
        assert!(!keys.contains(&k.key), "once each");
        keys.push(k.key);
        assert!(touches(k.a));
    }
    for x in -1..=1 {
        for y in 0..=1 {
            for z in -1..=1 {
                let hit = look(at(x, y, z)).is_some_and(|a| touches(a));
                assert_eq!(keys.contains(&at(x, y, z)), hit);
            }
        }
    }
    assert!(keys.contains(&planet_key(0)) && !keys.contains(&planet_key(1)));
    assert_eq!(keys.last(), Some(&planet_key(2)));
    let bare = asteroids_overlapping(lo, hi, &planets, &look, &touches);
    assert_eq!(bare.len(), out.len());
    for (a, k) in bare.iter().zip(&out) {
        assert_eq!((a.seed, a.shape), (k.a.seed, k.a.shape), "in the same order");
    }
}

#[test]
fn the_nearest_rock_is_found_home_aside() {
    let look = |c: IVec3| {
        let rank = match (c.x, c.y, c.z) {
            (0, 0, 0) => 1,
            (1, 0, 0) => 9,
            (-2, 2, 1) => 4,
            (0, 0, 2) => 4,
            (3, 0, 0) => 0,
            _ => return None,
        };
        let a = shaped(rank, 0, false, ());
        Some(Sighting { a, rank, at_origin: c == IVec3::zero() })
    };
    let best = nearest_asteroid_keyed(IVec3::zero(), false, &look).unwrap();
    assert_eq!(best.key, IVec3::zero());
    // Of equals the first met wins; cells out of range do not count.
    let best = nearest_asteroid_keyed(IVec3::zero(), true, &look).unwrap();
    assert_eq!((best.key, best.a.seed), (at(-2, 2, 1), 4));
    assert_eq!(nearest_asteroid(IVec3::zero(), true, &look).unwrap().seed, 4);
    assert!(nearest_asteroid(at(50, 0, 0), true, &look).is_none());
    assert!(nearest_asteroid(at(i32::MAX, i32::MIN, 0), true, &look).is_none(), "the last cells");
}

#[test]
fn materials_go_from_the_outside_in() {
    assert_eq!(classify(false, true, true, true), None);
    assert_eq!(classify(true, true, true, true), Some(REGOLITH));
    assert_eq!(classify(true, false, true, false), Some(ORE));
    assert_eq!(classify(true, false, false, true), Some(ORE));
    assert_eq!(classify(true, false, false, false), Some(ROCK));
}

#[test]
fn the_first_body_with_a_block_counts() {
    let bodies: Vec<Asteroid<u8>> =
        [0u8, ROCK, ORE].iter().map(|b| shaped((*b as u64) << 17, *b as i32, false, *b)).collect();
    let made_of = |a: Asteroid<u8>, _v: IVec3| if a.shape == 0 { None } else { Some(a.shape) };
    assert_eq!(block_at(&bodies, IVec3::zero(), &made_of), ROCK);
    assert_eq!(block_at(&vec![], IVec3::zero(), &made_of), AIR);
    assert_eq!(voxel_env(&bodies, &|a: Asteroid<u8>| a.shape == ORE, 9), (4, 4));
    assert_eq!(voxel_env(&bodies, &|_a: Asteroid<u8>| false, 9), (9, 0));
}

#[test]
fn the_surface_is_the_first_open_row() {
    assert_eq!(surface_y_at(3, 4, &|v: IVec3| v.y <= 60 && v.x == 3 && v.z == 4), 61);
    assert_eq!(surface_y_at(0, 0, &|v: IVec3| v.y == 69 || v.y < 5), 70, "from the top");
    assert_eq!(surface_y_at(0, 0, &|_v: IVec3| false), 0);
    assert_eq!(surface_y_at(0, 0, &|v: IVec3| v.y == -69), -68);
}

#[test]
fn lattices_hand_back_what_was_put_in() {
    let g = FieldGrid::for_box(at(-1, 0, 2), 2, 3, 4, &|q: IVec3| (q.x, q.y, q.z));
    for x in -1..1 {
        for y in 0..3 {
            for z in 2..6 {
                assert_eq!(g.at(at(x, y, z)), (x, y, z));
            }
        }
    }
}

// --- The day ---------------------------------------------------------------

const QUIET: DaySigns =
    DaySigns { due_stage: 0, deadline: false, caught: false, impact: false, faded: false };

#[test]
fn a_day_runs_its_course() {
    let mut d = DayState::new();
    assert_eq!((d.day, d.phase, d.pending_reset), (1, DayPhase::Dawn, false));
    assert_eq!(d.take_reset(), None);
    let ev = d.day_cycle(QUIET);
    assert!(!ev.dawn && d.phase == DayPhase::Dawn);
    assert!(d.day_cycle(DaySigns { faded: true, ..QUIET }).dawn);
    assert_eq!(d.phase, DayPhase::Active);
    // Each warning is given once.
    for stage in 1..=3u8 {
        let s = DaySigns { due_stage: stage, ..QUIET };
        assert_eq!(d.day_cycle(s).warning, Some(stage));
        assert_eq!(d.day_cycle(s).warning, None);
    }
    let ev = d.day_cycle(DaySigns { deadline: true, ..QUIET });
    assert!(ev.fall && !ev.consumed);
    assert_eq!(d.phase, DayPhase::Falling);
    d.day_cycle(DaySigns { faded: true, deadline: true, caught: true, due_stage: 3, ..QUIET });
    assert_eq!(d.phase, DayPhase::Falling, "only the impact ends the dive");
    let ev = d.day_cycle(DaySigns { impact: true, ..QUIET });
    assert!(ev.consumed);
    assert_eq!((d.day, d.phase, d.pending_reset, d.warn_stage), (2, DayPhase::Dawn, true, 0));
    assert_eq!(d.take_reset(), Some(1));
    assert_eq!(d.take_reset(), None);
}

#[test]
fn straying_too_close_ends_the_day() {
    let mut d = DayState::new();
    d.day_cycle(DaySigns { faded: true, ..QUIET });
    assert!(d.day_cycle(DaySigns { caught: true, ..QUIET }).fall);
}

#[test]
fn warnings_come_in_stages() {
    assert_eq!(stage_due(false, false, false), 0);
    assert_eq!(stage_due(true, false, false), 1);
    assert_eq!(stage_due(true, true, false), 2);
    assert_eq!(stage_due(true, true, true), 3);
    assert_eq!(warning_line(1, 4, 7), "Half the day gone — 4:07 until collapse");
    assert_eq!(warning_line(2, 2, 30), "The singularity accelerates — 2:30 left");
    assert_eq!(warning_line(3, 0, 48), "EVENT HORIZON IMMINENT — GET CLEAR OR GET CONSUMED");
    assert_eq!(dawn_line(12), "DAY 12 — the field is reborn. Upgrades retained.");
    assert_eq!(caught_line(), "CAUGHT — the horizon takes you");
}

#[test]
fn a_strong_pull_rips_the_player_off() {
    assert_eq!(pull_on_player(DayPhase::Active, true, true), (true, true));
    assert_eq!(pull_on_player(DayPhase::Active, true, false), (false, false));
    assert_eq!(pull_on_player(DayPhase::Active, false, true), (false, true));
    assert_eq!(pull_on_player(DayPhase::Falling, false, true), (false, false));
    assert_eq!(pull_on_player(DayPhase::Dawn, true, true), (false, false));
}

#[test]
fn a_new_day_starts_from_nothing_but_upgrades() {
    let mut day = DayState::new();
    let mut world: VoxelWorld<u32, i32, i32> = VoxelWorld::new();
    let mut entities: ChunkEntities<u32> = ChunkEntities::new();
    let mut impostors: Impostors<u32> = Impostors::new();
    let mut wallet = Wallet { money: 99 };
    let mut inventory = Inventory::new();
    let mut laser = LaserState { firing: true, locked: true };
    inventory.add(ORE, 3);
    entities.root(at(1, 0, 0), || 5);
    impostors.built(at(2, 0, 0), 6);
    impostors.add_planet(7);
    world.generate_chunk(at(1, 0, 0), at(0, 0, 0), true, &|_v: IVec3| ROCK);
    let none = day_reset(
        &mut day, &mut world, &mut entities, &mut impostors, &mut wallet, &mut inventory, &mut laser,
    );
    assert!(none.is_none());
    assert_eq!((wallet.money, inventory.units(), laser.locked), (99, 1, true));
    assert!(world.is_loaded(at(1, 0, 0), at(0, 0, 0)));
    let mut dayless = DayState { day: 0, ..DayState::new() };
    let none = day_reset(
        &mut dayless, &mut world, &mut entities, &mut impostors, &mut wallet, &mut inventory,
        &mut laser,
    );
    assert!(none.is_none(), "nothing is counted while no reset is due");

    day.day_cycle(DaySigns { faded: true, ..QUIET });
    day.day_cycle(DaySigns { deadline: true, ..QUIET });
    day.day_cycle(DaySigns { impact: true, ..QUIET });
    let t = day_reset(
        &mut day, &mut world, &mut entities, &mut impostors, &mut wallet, &mut inventory, &mut laser,
    )
    .unwrap();
    assert_eq!((t.day, t.roots, t.planets), (2, vec![(at(1, 0, 0), 5)], vec![7]));
    assert_eq!((t.rocks.len(), t.rocks[0].cell, t.rocks[0].entity), (1, at(2, 0, 0), 6));
    assert_eq!((wallet.money, inventory.units()), (0, 0));
    assert_eq!(laser, LaserState { firing: false, locked: false });
    assert_eq!(world.world_salt(), 1);
    assert!(!world.is_loaded(at(1, 0, 0), at(0, 0, 0)));
    assert!(impostors.lacks_planets());
    assert!(!day.pending_reset);
}

// --- The tour --------------------------------------------------------------

const IDLE: DemoSigns = DemoSigns {
    mining_beat: false,
    flight_beat: false,
    lifting: false,
    target_far: false,
    target_rush: false,
    stopped: false,
    hovering: false,
    retreating: false,
    waiting: false,
    depot_far: false,
    depot_rush: false,
    q_stale: false,
    e_stale: false,
};

#[test]
fn the_tour_visits_every_beat() {
    let mut s: DemoState<u32> = DemoState::new();
    assert!(s.run_demo(6, DemoSigns { mining_beat: true, ..IDLE }).laser);
    let k = s.run_demo(
        11,
        DemoSigns { flight_beat: true, lifting: true, target_far: true, target_rush: true, ..IDLE },
    );
    assert!(k.up && k.forward && k.brake && !k.laser && s.arrived_at.is_none());
    let k = s.run_demo(20, DemoSigns { flight_beat: true, ..IDLE });
    assert!(k.brake && !k.forward && s.arrived_at.is_none(), "still rolling");
    s.run_demo(21, DemoSigns { flight_beat: true, stopped: true, ..IDLE });
    assert_eq!(s.arrived_at, Some(21));
    let k = s.run_demo(22, DemoSigns { hovering: true, ..IDLE });
    assert!(k.laser && k.brake && k.release_q);
    let k = s.run_demo(24, IDLE);
    assert!(k.tap_q && !k.release_q);
    assert_eq!(s.bombed_at, Some(24));
    let k = s.run_demo(25, DemoSigns { retreating: true, q_stale: true, ..IDLE });
    assert!(k.back && !k.tap_q && k.release_q);
    assert!(s.run_demo(26, DemoSigns { waiting: true, ..IDLE }).brake);
    s.run_demo(28, IDLE);
    assert_eq!(s.heading_home_at, Some(28));
    let k = s.run_demo(29, DemoSigns { depot_far: true, depot_rush: true, ..IDLE });
    assert!(k.forward && k.brake && !k.tap_e);
    let k = s.run_demo(40, IDLE);
    assert!(k.tap_e && !k.release_e);
    assert_eq!(s.sold_at, Some(40));
    let k = s.run_demo(41, DemoSigns { e_stale: true, ..IDLE });
    assert!(!k.tap_e && k.release_e, "sold once");
}

#[test]
fn the_tour_looks_where_it_goes() {
    let mut s: DemoState<u32> = DemoState::new();
    assert_eq!(gaze(&s, true, true, true), Gaze::Sky);
    assert_eq!(gaze(&s, false, true, true), Gaze::Hole);
    assert_eq!(gaze(&s, false, false, true), Gaze::Ground);
    assert_eq!(gaze(&s, false, false, false), Gaze::Target);
    s.bombed_at = Some(1);
    assert_eq!(gaze(&s, false, false, false), Gaze::Target);
    s.heading_home_at = Some(2);
    assert_eq!(gaze(&s, false, false, false), Gaze::Depot);
}

#[test]
fn pictures_are_taken_in_order() {
    let mut s: DemoState<u32> = DemoState::new();
    let mut due = vec![false; SHOT_COUNT];
    due[1] = true;
    assert_eq!(s.next_shot(&due), None);
    due[0] = true;
    assert_eq!(s.next_shot(&due), Some(0));
    assert_eq!(s.next_shot(&due), Some(1));
    assert_eq!(s.next_shot(&due), None);
    s.shots_done = SHOT_COUNT as u32;
    assert_eq!(s.next_shot(&vec![true; SHOT_COUNT]), None);
}

// --- The suit --------------------------------------------------------------

#[test]
fn clicks_take_and_escape_gives_back() {
    let c = grab_cursor(false, true, false);
    assert!(c.grab && !c.release && c.focused);
    let c = grab_cursor(true, false, true);
    assert!(!c.grab && c.release && !c.focused);
    let c = grab_cursor(false, true, true);
    assert!(c.grab && c.release && !c.focused, "both in one frame");
    let c = grab_cursor(false, false, true);
    assert!(!c.grab && !c.release && !c.focused);
    assert!(grab_cursor(true, true, false).focused);
}

const HANDS_OFF: MoveKeys = MoveKeys {
    forward: false,
    back: false,
    right: false,
    left: false,
    up: false,
    down: false,
    brake: false,
};

#[test]
fn keys_make_a_wish() {
    let w = wish(true, MoveKeys { forward: true, left: true, down: true, brake: true, ..HANDS_OFF });
    assert_eq!(w, Wish { forward: 1, right: -1, up: -1, brake: true });
    let w = wish(true, MoveKeys { forward: true, back: true, right: true, ..HANDS_OFF });
    assert_eq!(w, Wish { forward: 0, right: 1, up: 0, brake: false });
    let w = wish(false, MoveKeys { forward: true, brake: true, ..HANDS_OFF });
    assert_eq!(w, Wish { forward: 0, right: 0, up: 0, brake: false });
}

#[test]
fn boots_walk_and_thrusters_fly() {
    let still = Wish { forward: 0, right: 0, up: 0, brake: false };
    assert_eq!(drive(true, Wish { up: 1, ..still }), (Drive::Walk { jump: true }, false));
    assert_eq!(drive(true, Wish { up: -1, ..still }), (Drive::Walk { jump: false }, false));
    assert_eq!(drive(false, still), (Drive::Fly { damp: true, hard: false }, false));
    assert_eq!(
        drive(false, Wish { forward: 1, ..still }),
        (Drive::Fly { damp: false, hard: false }, true)
    );
    assert_eq!(
        drive(false, Wish { up: -1, brake: true, ..still }),
        (Drive::Fly { damp: true, hard: true }, true)
    );
    assert!(touchdown(true, false, true));
    assert!(!touchdown(true, true, true));
    assert!(!touchdown(false, false, true));
    assert!(!touchdown(true, false, false));
}

#[test]
fn axes_stop_at_walls() {
    assert_eq!(axis_move(0, 0, true), AxisMove::Still);
    assert_eq!(axis_move(1, 0, true), AxisMove::Probe);
    assert_eq!(axis_move(2, 1, false), AxisMove::Free);
    assert_eq!(axis_move(0, -1, true), AxisMove::Stopped { floor: false });
    assert_eq!(axis_move(1, 1, true), AxisMove::Stopped { floor: false });
    assert_eq!(axis_move(1, -1, true), AxisMove::Stopped { floor: true });
}

/// Everything below y = 0 is rock.
fn plain(_a: Asteroid<i32>, v: IVec3) -> u8 {
    if v.y < 0 {
        ROCK
    } else {
        AIR
    }
}

fn flatland() -> World {
    let mut w = World::new();
    w.refresh_nearby(IVec3::zero(), IVec3::zero(), 0, &|_key: IVec3, _o: Option<i32>| {
        let a = Asteroid { seed: 1, tier: 0, species: 0, is_planet: false, shape: 0 };
        Some(Placed { a, vmin: at(-50, -50, -50), vmax: at(50, 50, 50) })
    });
    w
}

#[test]
fn moving_slides_along_the_floor() {
    // One unit per axis step, falling and going right.
    let w = flatland();
    let gait = Gait {
        lean: |_s: [i32; 3], axis: usize| [1, -1, 0][axis],
        shift: |mut s: [i32; 3], axis: usize| {
            s[axis] += [1, -1, 0][axis];
            s
        },
        extent: |s: [i32; 3]| (at(s[0], s[1], s[2]), at(s[0], s[1] + 1, s[2])),
        snap: |mut s: [i32; 3], axis: usize| {
            s[axis] -= [1, -1, 0][axis];
            s
        },
        feet: |s: [i32; 3]| (at(s[0], s[1] - 1, s[2]), at(s[0], s[1] - 1, s[2])),
    };
    assert_eq!(move_axis(&w, &plain, &gait, [0, 0, 0], 0), ([1, 0, 0], false));
    assert_eq!(move_axis(&w, &plain, &gait, [0, 0, 0], 1), ([0, 0, 0], true));
    assert_eq!(move_axis(&w, &plain, &gait, [0, 5, 0], 2), ([0, 5, 0], false));
    let sweep = |s: [i32; 3], n: u32| swept_move(&w, &plain, &gait, s, n);
    assert_eq!(sweep([0, 2, 0], 2), ([2, 0, 0], false), "still falling");
    assert_eq!(sweep([0, 2, 0], 4), ([4, 0, 0], true));
    assert_eq!(sweep([0, 2, 0], 0), ([0, 2, 0], false));
    // Never left inside the rock.
    for n in 0..8 {
        let (end, _) = sweep([0, 3, 0], n);
        let (lo, hi) = (gait.extent)(end);
        assert!(!collides(&w, lo, hi, &plain));
    }
    // With no speed left the ground is felt below the feet.
    let still = Gait {
        lean: |_s: [i32; 3], _axis: usize| 0,
        shift: gait.shift,
        extent: gait.extent,
        snap: gait.snap,
        feet: gait.feet,
    };
    assert_eq!(move_axis(&w, &plain, &still, [0, 0, 0], 1), ([0, 0, 0], true));
    assert_eq!(move_axis(&w, &plain, &still, [0, 1, 0], 1), ([0, 1, 0], false));
}

#[test]
fn a_frame_of_movement() {
    // State: height and speed.
    let w = flatland();
    let gait = Gait {
        lean: |s: (i32, i32), axis: usize| if axis == 1 { s.1.signum() } else { 0 },
        shift: |s: (i32, i32), _axis: usize| (s.0 + s.1, s.1),
        extent: |s: (i32, i32)| (at(0, s.0, 0), at(0, s.0, 0)),
        snap: |_s: (i32, i32), _axis: usize| (0, 0),
        feet: |s: (i32, i32)| (at(0, s.0 - 1, 0), at(0, s.0 - 1, 0)),
    };
    let steer = |s: (i32, i32), w: Wish, how: Drive| match how {
        Drive::Walk { jump } => ((s.0, if jump { 5 } else { 0 }), 1u32),
        Drive::Fly { damp, .. } => ((s.0, if damp { 0 } else { s.1 + w.up }), 2u32),
    };
    let fast = |s: (i32, i32)| s.1 < -3;
    let go = |s: (i32, i32), grounded: bool, focused: bool, keys: MoveKeys| {
        player_move(&w, &plain, &gait, s, grounded, focused, keys, &steer, &fast)
    };
    let none = MoveKeys {
        forward: false,
        back: false,
        right: false,
        left: false,
        up: false,
        down: false,
        brake: false,
    };
    let up = MoveKeys { up: true, ..none };
    let down = MoveKeys { down: true, ..none };
    let stand = Stride { grounded: true, jet: false, landed: false };
    let air = Stride { grounded: false, jet: false, landed: false };
    assert_eq!(go((0, 0), true, true, none), ((0, 0), stand));
    assert_eq!(go((0, 0), true, true, up), ((5, 5), air));
    assert_eq!(go((0, 0), true, false, up), ((0, 0), stand), "no controls, no jump");
    let jet = Stride { jet: true, ..air };
    assert_eq!(go((9, 0), false, true, up), ((11, 1), jet));
    assert_eq!(go((9, 7), false, true, none), ((9, 0), air));
    // A slow landing is not felt, a fast one is.
    let soft = Stride { grounded: true, jet: true, landed: false };
    assert_eq!(go((1, 0), false, true, down), ((0, 0), soft));
    let hard = Stride { landed: true, ..soft };
    assert_eq!(go((8, -5), false, true, down), ((0, 0), hard));
}

#[test]
fn the_laser_overheats_and_vents() {
    let cold = LaserState { firing: false, locked: false };
    let hot = LaserState { firing: true, locked: false };
    let locked = LaserState { firing: false, locked: true };
    assert_eq!(heat_course(false, true), Heat::Rises);
    assert_eq!(heat_course(false, false), Heat::Falls);
    assert_eq!(heat_course(true, true), Heat::Vents);
    assert_eq!(laser_step(cold, true, true, false), (hot, false));
    assert_eq!(laser_step(hot, true, false, true), (locked, true));
    assert_eq!(laser_step(locked, true, false, false), (locked, false));
    assert_eq!(laser_step(locked, true, true, false), (cold, false), "fires from the next frame on");
    assert_eq!(laser_step(hot, false, false, false), (cold, false));
    assert!(laser_part_shown(LaserFx::Core, true, false));
    assert!(laser_part_shown(LaserFx::Halo, true, false));
    assert!(!laser_part_shown(LaserFx::Glow, true, false));
    assert!(laser_part_shown(LaserFx::Light, true, true));
    assert!(!laser_part_shown(LaserFx::Core, false, true));
}

#[test]
fn the_beam_burns_all_but_barriers() {
    assert_eq!(beam_on(AIR, true), Beam::Passes);
    assert_eq!(beam_on(ROCK, true), Beam::Burns);
    assert_eq!(beam_on(ROCK, false), Beam::Inspects);
    assert_eq!(beam_on(BARRIER, true), Beam::Inspects);
    assert_eq!(break_sound(ORE), BreakSound::Ring);
    assert_eq!(break_sound(REGOLITH), BreakSound::Dust);
    assert_eq!(break_sound(ROCK), BreakSound::Crunch);
}

#[test]
fn targets_are_described() {
    let t = target_block(ORE, 1, 0);
    assert_eq!((t.name.as_str(), t.indestructible, t.value), ("Ferrite Crystal", false, 24));
    assert_eq!(target_line(&t), "Ferrite Crystal  (24 cr)");
    let t = target_block(ROCK, 1, 2);
    assert_eq!((t.value, target_line(&t).as_str()), (0, "Magnetite"));
    let t = target_block(BARRIER, 1, 2);
    assert!(t.indestructible);
    assert_eq!(target_line(&t), "Dense Core — impervious");
    assert_eq!(target_line(&target_block(ORE, 10, 0)), "Cobalt II Crystal  (63,403 cr)");
}

// --- The far field ---------------------------------------------------------

type World = VoxelWorld<u32, i32, i32>;

fn eaten(w: &mut World, key: IVec3) {
    let z = IVec3::zero();
    let m = BodyMotion { offset: 0, off_vox: z, delta: z, eaten: true, backfilled: true };
    w.motion_mut().insert(key, m);
}

#[test]
fn impostors_are_built_nearest_first_and_retired() {
    let mut w = World::new();
    let mut t: Impostors<u32> = Impostors::new();
    let notice = |c: IVec3| c.y == 0 && c.z == 0;
    let rank = |c: IVec3| (100 + c.x) as u64;
    let gone = t.sweep(&w, at(0, 0, 0), at(9, 1, 1), &notice, &rank, &|_c: IVec3| false);
    assert!(gone.is_empty());
    let cells = t.build_batch(&w, &|_c: IVec3| true);
    assert_eq!(cells, (0..8).map(|x| at(x, 0, 0)).collect::<Vec<_>>());
    for c in &cells {
        t.built(*c, c.x as u32);
    }
    // The hole takes a built rock and a waiting one.
    eaten(&mut w, at(3, 0, 0));
    eaten(&mut w, at(9, 0, 0));
    assert_eq!(t.build_batch(&w, &|_c: IVec3| true), vec![at(8, 0, 0)]);
    t.built(at(8, 0, 0), 8);
    let gone = t.sweep(&w, at(0, 0, 0), at(9, 1, 1), &notice, &rank, &|c: IVec3| c.x == 0);
    let mut gone: Vec<(IVec3, u32)> = gone.iter().map(|r| (r.cell, r.entity)).collect();
    gone.sort_by_key(|g| g.1);
    assert_eq!(gone, vec![(at(0, 0, 0), 0), (at(3, 0, 0), 3)]);
    // What was far may come back, what was taken may not.
    t.sweep(&w, at(0, 0, 0), at(9, 1, 1), &notice, &rank, &|_c: IVec3| false);
    assert_eq!(t.build_batch(&w, &|_c: IVec3| true), vec![at(0, 0, 0)]);
    assert!(t.build_batch(&w, &|_c: IVec3| true).is_empty());
}

#[test]
fn planets_are_torn_before_they_are_taken() {
    let mut w = World::new();
    let mut t: Impostors<u32> = Impostors::new();
    let key = planet_key(2);
    assert_eq!(t.planet_consume(&w, key, false, true, false), PlanetFate::Whole);
    assert_eq!(t.planet_consume(&w, key, true, false, true), PlanetFate::Torn { shed: false });
    assert_eq!(t.planet_consume(&w, key, true, true, true), PlanetFate::Torn { shed: true });
    assert_eq!(t.planet_consume(&w, key, false, true, true), PlanetFate::Mended);
    assert!(!t.planet_taken(key));
    eaten(&mut w, key);
    assert_eq!(t.planet_consume(&w, key, true, true, true), PlanetFate::Taken);
    assert_eq!(t.planet_consume(&w, key, true, true, true), PlanetFate::Gone);
    assert!(!t.planet_taken(planet_key(1)));
}

#[test]
fn planets_are_taken_once() {
    let mut w = World::new();
    let mut t: Impostors<u32> = Impostors::new();
    assert!(t.lacks_planets());
    t.add_planet(40);
    assert!(!t.lacks_planets());
    let key = planet_key(0);
    assert!(!t.take_planet(&w, key));
    eaten(&mut w, key);
    assert!(!t.planet_taken(key));
    assert!(t.take_planet(&w, key));
    assert!(t.planet_taken(key));
    assert!(!t.take_planet(&w, key));
    assert_eq!(t.planet_consume(&w, key, true, true, true), PlanetFate::Gone);
    t.built(at(1, 1, 1), 9);
    let (rocks, planets) = t.despawn_all();
    assert_eq!((rocks.len(), rocks[0].entity, planets), (1, 9, vec![40]));
    assert!(t.lacks_planets() && !t.planet_taken(key));
}

#[test]
fn impostors_hide_up_close() {
    assert!(impostor_shown(false, false));
    assert!(!impostor_shown(false, true));
    assert!(!impostor_shown(true, false));
    assert_eq!(impostor_tick(0), (1, true));
    assert_eq!(impostor_tick(28), (29, false));
    assert_eq!(impostor_tick(29), (30, true));
    assert_eq!(shard_offset(0, 0), at(-2, -3, -1));
    assert_eq!(shard_offset(2, 3), at(0, -1, 0));
}

// --- Sound -----------------------------------------------------------------

#[test]
fn wav_files_have_a_header_and_samples() {
    let b = wav(&vec![1i16, -2, 0x1234]);
    assert_eq!(b.len(), 44 + 6);
    assert_eq!(&b[0..4], b"RIFF");
    assert_eq!(&b[4..8], &42u32.to_le_bytes());
    assert_eq!(&b[8..16], b"WAVEfmt ");
    assert_eq!(&b[16..20], &16u32.to_le_bytes());
    assert_eq!(&b[20..24], &[1, 0, 1, 0]);
    assert_eq!(&b[24..28], &RATE.to_le_bytes());
    assert_eq!(&b[28..32], &88_200u32.to_le_bytes());
    assert_eq!(&b[32..36], &[2, 0, 16, 0]);
    assert_eq!(&b[36..40], b"data");
    assert_eq!(&b[40..44], &6u32.to_le_bytes());
    let read: Vec<i16> =
        b[44..].chunks(2).map(|p| i16::from_le_bytes([p[0], p[1]])).collect();
    assert_eq!(read, vec![1, -2, 0x1234]);
    assert_eq!(wav(&vec![]).len(), 44);
}

#[test]
fn loops_fade_their_end_into_their_start() {
    let faded = loopify(vec![0, 1, 2, 3, 4, 5, 6, 7], 3, &|tail: i32, head: i32, k: usize| {
        tail * 100 + head * 10 + k as i32
    });
    assert_eq!(faded, vec![0, 1, 2, 3, 4, 500, 611, 722]);
    // At most half of the clip is faded.
    let faded = loopify(vec![1, 2, 3, 4], 4, &|_t: i32, _h: i32, k: usize| 90 + k as i32);
    assert_eq!(faded, vec![90, 91, 3, 4]);
    assert_eq!(loopify(vec![5], 9, &|_t: i32, _h: i32, _k: usize| 0), vec![5]);
}

#[test]
fn queued_sounds_are_played_once_in_order() {
    let mut q: SfxQueue<u32> = SfxQueue::new();
    q.push(SfxEvent::Break { crystal: true, pitch: 7 });
    q.push(SfxEvent::Break { crystal: false, pitch: 8 });
    q.push(SfxEvent::Explosion);
    let played: Vec<(Clip, u32, u32)> =
        q.play_queued(100).iter().map(|p| (p.clip, p.volume, p.speed)).collect();
    assert_eq!(
        played,
        vec![(Clip::CrystalBreak, 50, 7), (Clip::RockBreak, 42, 8), (Clip::Explosion, 90, 100)]
    );
    assert!(q.play_queued(100).is_empty());
    let p = |e: SfxEvent<u32>| {
        let p = playback(e, 1);
        (p.clip, p.volume, p.speed)
    };
    assert_eq!(p(SfxEvent::Pickup { pitch: 3 }), (Clip::Pickup, 32, 3));
    assert_eq!(p(SfxEvent::Sell), (Clip::Sell, 60, 1));
    assert_eq!(p(SfxEvent::Buy), (Clip::Buy, 50, 1));
    assert_eq!(p(SfxEvent::Deny), (Clip::Deny, 45, 1));
    assert_eq!(p(SfxEvent::Plant), (Clip::Plant, 50, 1));
    assert_eq!(p(SfxEvent::Land), (Clip::Land, 35, 1));
    assert_eq!(p(SfxEvent::WarpUp), (Clip::WarpUp, 50, 1));
    assert_eq!(p(SfxEvent::WarpDown), (Clip::WarpDown, 50, 1));
    assert_eq!(p(SfxEvent::Overheat), (Clip::Overheat, 50, 1));
    assert_eq!(p(SfxEvent::Vent), (Clip::Vent, 50, 1));
}

#[test]
fn loops_start_and_stop_with_their_cause() {
    assert_eq!(loop_action(false, true), LoopAction::Start);
    assert_eq!(loop_action(true, true), LoopAction::Keep);
    assert_eq!(loop_action(true, false), LoopAction::Stop);
    assert_eq!(loop_action(false, false), LoopAction::Idle);
}

// --- The crowd -------------------------------------------------------------

#[test]
fn the_generator_is_fixed() {
    let mut s = SimState::new(3);
    assert_eq!((s.entity_count, s.paused, s.rng_state), (3, false, 0xCAFE_BABE_DEAD_BEEF));
    assert_eq!(s.next_u64(), 0x7ac1_4cec_c306_be52);
    assert_eq!(s.next_u64(), 0x89b0_74ef_c3b9_67ae);
    assert_eq!(s.rand_unit(), 2_695_274);
    let mut t = SimState::new(3);
    assert_eq!(draws(&mut t, 3), vec![8_044_876, 9_023_604, 2_695_274]);
    assert_eq!(t.rng_state, s.rng_state);
    let mut zero = SimState::new(1);
    for _ in 0..1000 {
        assert_ne!(zero.next_u64(), 0);
    }
}

#[test]
fn the_crowd_doubles_and_halves() {
    let keys = SimKeys { pause: false, more: false, fewer: false, reset: false };
    let mut s = SimState::new(10);
    assert!(handle_input(&mut s, SimKeys { more: true, ..keys }, true));
    assert_eq!(s.entity_count, 20);
    assert!(!handle_input(&mut s, SimKeys { fewer: true, ..keys }, false));
    assert_eq!(s.entity_count, 10);
    handle_input(&mut s, SimKeys { more: true, fewer: true, ..keys }, true);
    assert_eq!(s.entity_count, 20, "more comes first");
    assert!(!handle_input(&mut s, SimKeys { pause: true, ..keys }, true));
    assert!(s.paused);
    assert!(handle_input(&mut s, SimKeys { reset: true, pause: true, ..keys }, true));
    assert!(!s.paused && s.entity_count == 20);
    s.entity_count = 1;
    handle_input(&mut s, SimKeys { fewer: true, ..keys }, true);
    assert_eq!(s.entity_count, 1);
    s.entity_count = 3_000_000;
    handle_input(&mut s, SimKeys { more: true, ..keys }, true);
    assert_eq!(s.entity_count, ENTITY_COUNT_MAX);
    assert_eq!((clamp_count(0), clamp_count(7), clamp_count(9_000_000)), (1, 7, 4_000_000));
    assert_eq!(next_frame(4, 0), None);
    assert_eq!(next_frame(4, 3), Some(1));
}

// --- The screen ------------------------------------------------------------

#[test]
fn icons_are_white_where_inked() {
    let data = bake_icon(&b"#+.x".to_vec());
    assert_eq!(
        data,
        vec![255, 255, 255, 255, 255, 255, 255, 120, 255, 255, 255, 0, 255, 255, 255, 0]
    );
}

#[test]
fn pips_show_sockets_and_charges() {
    assert_eq!(pip_state(0, 0), (true, false));
    assert_eq!(pip_state(4, 2), (true, false));
    assert_eq!(pip_state(5, 2), (false, false));
    assert_eq!(pip_state(6, 7), (true, true));
    assert_eq!(pip_state(9, 10), (true, true));
    assert_eq!(pip_state(9, 12), (true, true));
    assert_eq!(pip_state(10, 12), (false, true));
    assert_eq!((overflow_line(10), overflow_line(13)), (String::new(), "+3".to_string()));
}

#[test]
fn depot_rows_show_price_and_means() {
    let mut inv = Inventory::new();
    let r = sell_row(&inv);
    assert_eq!((r.name.as_str(), r.level, r.cost.as_str(), r.affordable), ("Sell hold", None, "+0", false));
    for _ in 0..120 {
        inv.add(ORE, 0);
    }
    let r = sell_row(&inv);
    assert_eq!((r.cost.as_str(), r.affordable), ("+1,200", true));
    assert_eq!(hold_line(&inv), "120 · 1,200");
    let u = Upgrades { damage_lvl: 10, swings_lvl: 0, capacity_lvl: 0, recall: false };
    let offer = |credits: u64| {
        let o = Offer { name: "Pickaxe".to_string(), level: Some(10), cost: u.damage_cost() };
        offer_row(o, credits)
    };
    let r = offer(1794);
    assert_eq!((r.name.as_str(), r.level, r.cost.as_str(), r.affordable), ("Pickaxe", Some(10), "1,795", false));
    assert!(offer(1795).affordable);
    let r = recall_row(false, 200);
    assert_eq!((r.name.as_str(), r.level, r.cost.as_str(), r.affordable), ("Recall rig", None, "200", true));
    let r = recall_row(true, 500);
    assert_eq!((r.cost.as_str(), r.affordable), ("OWNED", false));
    assert_eq!(dot_state(Some(3), 2), (true, true));
    assert_eq!(dot_state(Some(3), 3), (true, false));
    assert_eq!(dot_state(Some(9), 4), (true, true));
    assert_eq!(dot_state(Some(9), 5), (true, false));
    assert_eq!(dot_state(None, 0), (false, false));
}

#[test]
fn controls_are_listed_while_unfocused() {
    assert_eq!(controls_line(true), "");
    assert!(controls_line(false).starts_with("Click to take the controls\nWASD thrust · Space up"));
    assert!(controls_line(false).ends_with("T/G recall · Esc release"));
}

#[test]
fn rings_are_stitched_from_triangles() {
    assert_eq!(grid_indices(1, 2), vec![0, 1, 3, 1, 4, 3, 1, 2, 4, 2, 5, 4]);
    let idx = grid_indices(8, 96);
    assert_eq!(idx.len(), 8 * 96 * 6);
    assert!(idx.iter().all(|i| (*i as usize) < 9 * 97));
    assert_eq!(&idx[96 * 6..96 * 6 + 3], &[97, 98, 194]);
}

#[test]
fn pictures_are_painted_row_by_row() {
    let data = paint_rgba(2, 2, &|x: usize, y: usize| Rgb { r: x as u8, g: y as u8, b: 9 });
    assert_eq!(data, vec![0, 0, 9, 255, 1, 0, 9, 255, 0, 1, 9, 255, 1, 1, 9, 255]);
    assert!(paint_rgba(3, 0, &|_x: usize, _y: usize| Rgb { r: 0, g: 0, b: 0 }).is_empty());
}

#[test]
fn two_thirds_of_the_streaks_are_hot() {
    let hot: Vec<u64> = (0..N_STREAKS).filter(|i| streak_is_hot(*i)).collect();
    assert_eq!(hot.len(), 28);
    assert_eq!(&hot[..6], &[0, 2, 4, 5, 11, 12]);
    assert!(has_rings(9) && !has_rings(10));
}
