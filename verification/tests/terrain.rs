//! The field and the store, driven with the game's smooth terrain.
use limits::blocks::{block_hp, ore_value, Hp, AIR, ORE, REGOLITH, ROCK};
use limits::body::{body_kind, planet_key, Asteroid, BodyKind, BodyMotion, NearBody, PLANET_COUNT};
use limits::chunk::{chunk_of, CHUNK};
use limits::field::{
    asteroid_in_cell, asteroids_overlapping, block_at, bodies_overlapping, body_by_key,
    build_planets, classify, nearest_asteroid_keyed, starter_cell, surface_y_at, tier_of_voxel,
    FieldGrid, Keyed, Sighting,
};
use limits::hash::{hash3, hash_unit, salted, seed_unit};
use limits::ivec::IVec3;
use limits::mesh::mesh_chunk;
use limits::nearby::Placed;
use limits::ray::{raycast, Axis, RayHit, RayPath};
use limits::world::VoxelWorld;
use std::ops::{Add, Div, Mul, Sub};

const VOXEL: f32 = 0.25;
const CHUNK_M: f32 = CHUNK as f32 * VOXEL;
const CELL_M: f32 = 56.0;
const R_MIN: f32 = 6.0;
const R_MAX: f32 = 30.0;
const STRETCH_MIN: f32 = 0.78;
const STRETCH_MAX: f32 = 1.40;
const AMP_MIN: f32 = 0.10;
const AMP_MAX: f32 = 0.30;
const FREQ_MIN: f32 = 1.6;
const FREQ_MAX: f32 = 3.2;
const HOME_R: f32 = 15.0;
const TIER_M: f32 = 120.0;
const STAR_DIST: f32 = 5_200.0;
const PLANET_R_MIN: f32 = 160.0;
const PLANET_R_MAX: f32 = 380.0;
const SHELL_M: f32 = 0.6;
const CORE_FRAC: f32 = 0.15;
const ORE_CHANCE_BASE: f32 = 0.035;
const ORE_CHANCE_CORE: f32 = 0.10;
const SALT: u64 = 0;

#[derive(Clone, Copy, PartialEq, Debug)]
struct V3 {
    x: f32,
    y: f32,
    z: f32,
}

fn v3(x: f32, y: f32, z: f32) -> V3 {
    V3 { x, y, z }
}

impl Add for V3 {
    type Output = V3;
    fn add(self, o: V3) -> V3 {
        v3(self.x + o.x, self.y + o.y, self.z + o.z)
    }
}

impl Sub for V3 {
    type Output = V3;
    fn sub(self, o: V3) -> V3 {
        v3(self.x - o.x, self.y - o.y, self.z - o.z)
    }
}

impl Mul<f32> for V3 {
    type Output = V3;
    fn mul(self, k: f32) -> V3 {
        v3(self.x * k, self.y * k, self.z * k)
    }
}

impl Div<f32> for V3 {
    type Output = V3;
    fn div(self, k: f32) -> V3 {
        v3(self.x / k, self.y / k, self.z / k)
    }
}

impl V3 {
    fn dot(self, o: V3) -> f32 {
        self.x * o.x + self.y * o.y + self.z * o.z
    }
    fn length_squared(self) -> f32 {
        self.dot(self)
    }
    fn length(self) -> f32 {
        self.length_squared().sqrt()
    }
    fn distance(self, o: V3) -> f32 {
        (self - o).length()
    }
    fn normalize_or_zero(self) -> V3 {
        let r = 1.0 / self.length();
        if r.is_finite() && r > 0.0 {
            self * r
        } else {
            v3(0.0, 0.0, 0.0)
        }
    }
    fn cross(self, o: V3) -> V3 {
        v3(
            self.y * o.z - self.z * o.y,
            self.z * o.x - self.x * o.z,
            self.x * o.y - self.y * o.x,
        )
    }
    fn floor(self) -> V3 {
        v3(self.x.floor(), self.y.floor(), self.z.floor())
    }
    fn clamp(self, lo: V3, hi: V3) -> V3 {
        v3(
            self.x.max(lo.x).min(hi.x),
            self.y.max(lo.y).min(hi.y),
            self.z.max(lo.z).min(hi.z),
        )
    }
    fn cell(self) -> IVec3 {
        IVec3::new(self.x as i32, self.y as i32, self.z as i32)
    }
}

const ZERO: V3 = V3 { x: 0.0, y: 0.0, z: 0.0 };

fn splat(k: f32) -> V3 {
    v3(k, k, k)
}

fn as_v3(v: IVec3) -> V3 {
    v3(v.x as f32, v.y as f32, v.z as f32)
}

fn plus(a: IVec3, b: IVec3) -> IVec3 {
    a.checked_add(b).unwrap()
}

fn voxel_of(p: V3) -> IVec3 {
    (p / VOXEL).floor().cell()
}

/// Where a body is and how it bulges.
#[derive(Clone, Copy, PartialEq, Debug)]
struct Shape {
    center: V3,
    radius: f32,
    stretch: V3,
    amp: f32,
    freq: f32,
    craters: [(V3, f32); 4],
}

type Rock = Asteroid<Shape>;
type World = VoxelWorld<f32, V3, Shape>;

fn unit(h: u64) -> f32 {
    h as f32 / (1u64 << 24) as f32
}

fn smooth(t: f32) -> f32 {
    t * t * (3.0 - 2.0 * t)
}

fn vnoise(p: V3, salt: u64) -> f32 {
    let f = p.floor();
    let base = f.cell();
    let u = v3(smooth(p.x - f.x), smooth(p.y - f.y), smooth(p.z - f.z));
    let c = |dx: i32, dy: i32, dz: i32| {
        unit(hash_unit(IVec3::new(base.x + dx, base.y + dy, base.z + dz), salt))
    };
    let x00 = c(0, 0, 0) * (1.0 - u.x) + c(1, 0, 0) * u.x;
    let x10 = c(0, 1, 0) * (1.0 - u.x) + c(1, 1, 0) * u.x;
    let x01 = c(0, 0, 1) * (1.0 - u.x) + c(1, 0, 1) * u.x;
    let x11 = c(0, 1, 1) * (1.0 - u.x) + c(1, 1, 1) * u.x;
    let y0 = x00 * (1.0 - u.y) + x10 * u.y;
    let y1 = x01 * (1.0 - u.y) + x11 * u.y;
    y0 * (1.0 - u.z) + y1 * u.z
}

fn fbm(p: V3, octaves: u32, salt: u64) -> f32 {
    let mut amp = 0.5;
    let mut freq = 1.0;
    let mut sum = 0.0;
    let mut norm = 0.0;
    for o in 0..octaves {
        sum += amp * vnoise(p * freq, salt.wrapping_add(o as u64 * 1469));
        norm += amp;
        amp *= 0.5;
        freq *= 2.13;
    }
    sum / norm
}

fn max_element(v: V3) -> f32 {
    v.x.max(v.y).max(v.z)
}

fn min_element(v: V3) -> f32 {
    v.x.min(v.y).min(v.z)
}

fn reach(a: &Rock) -> f32 {
    a.shape.radius * max_element(a.shape.stretch) * (0.95 + a.shape.amp)
}

fn surface_toward(a: &Rock, p: V3) -> f32 {
    let s = &a.shape;
    let dir = (p - s.center).normalize_or_zero();
    let e = v3(dir.x / s.stretch.x, dir.y / s.stretch.y, dir.z / s.stretch.z);
    let base = s.radius / e.length().max(1e-4);
    let shift = v3(
        (a.seed & 0xFFFF) as f32,
        ((a.seed >> 16) & 0xFFFF) as f32,
        ((a.seed >> 32) & 0xFFFF) as f32,
    ) * 0.001;
    let mut r =
        base * ((0.95 - s.amp) + 2.0 * s.amp * fbm(dir * s.freq + shift, 3, a.seed));
    if a.is_planet {
        for (c, w) in s.craters {
            if w <= 0.0 {
                continue;
            }
            let d = (dir - c).length();
            if d < w {
                let x = d / w;
                let bowl = 1.0 - x * x * (3.0 - 2.0 * x);
                r -= base * w * 0.55 * bowl;
            }
        }
    }
    r
}

fn field_lattice(a: &Rock, q: IVec3) -> f32 {
    let p = as_v3(q);
    surface_toward(a, p) - p.distance(a.shape.center)
}

fn trilerp(p: V3, corner: &dyn Fn(IVec3) -> f32) -> f32 {
    let f = p.floor();
    let q0 = f.cell();
    let u = p - f;
    let c = |dx: i32, dy: i32, dz: i32| corner(IVec3::new(q0.x + dx, q0.y + dy, q0.z + dz));
    let x00 = c(0, 0, 0) * (1.0 - u.x) + c(1, 0, 0) * u.x;
    let x10 = c(0, 1, 0) * (1.0 - u.x) + c(1, 1, 0) * u.x;
    let x01 = c(0, 0, 1) * (1.0 - u.x) + c(1, 0, 1) * u.x;
    let x11 = c(0, 1, 1) * (1.0 - u.x) + c(1, 1, 1) * u.x;
    let y0 = x00 * (1.0 - u.y) + x10 * u.y;
    let y1 = x01 * (1.0 - u.y) + x11 * u.y;
    y0 * (1.0 - u.z) + y1 * u.z
}

fn field_single(a: &Rock, p: V3) -> f32 {
    trilerp(p, &|q| field_lattice(a, q))
}

fn center_m(v: IVec3) -> V3 {
    (as_v3(v) + splat(0.5)) * VOXEL
}

fn within_reach(a: &Rock, p: V3) -> bool {
    (p - a.shape.center).length_squared() <= reach(a) * reach(a)
}

/// Material at a voxel, given its depth under the surface.
fn material(a: &Rock, v: IVec3, p: V3, f: f32) -> Option<u8> {
    let d = p.distance(a.shape.center);
    let surf = d + f;
    let frac = d / surf;
    let chance = ORE_CHANCE_BASE + ORE_CHANCE_CORE * (1.0 - frac) * (1.0 - frac);
    classify(f > 0.0, f < SHELL_M, d < surf * CORE_FRAC, unit(hash_unit(v, 0xA17E)) < chance)
}

/// One body's own terrain at a voxel.
fn own_block(a: &Rock, v: IVec3) -> Option<u8> {
    let p = center_m(v);
    if !within_reach(a, p) {
        return None;
    }
    material(a, v, p, field_single(a, p))
}

fn terrain(a: Rock, v: IVec3) -> u8 {
    own_block(&a, v).unwrap_or(AIR)
}

fn shape_from(center: V3, radius: f32, seed: u64) -> Shape {
    let u = |k: u64| unit(seed_unit(seed, k));
    Shape {
        center,
        radius,
        stretch: v3(
            STRETCH_MIN + (STRETCH_MAX - STRETCH_MIN) * u(1),
            STRETCH_MIN + (STRETCH_MAX - STRETCH_MIN) * u(2),
            STRETCH_MIN + (STRETCH_MAX - STRETCH_MIN) * u(3),
        ),
        amp: AMP_MIN + (AMP_MAX - AMP_MIN) * u(4),
        freq: FREQ_MIN + (FREQ_MAX - FREQ_MIN) * u(5),
        craters: [(ZERO, 0.0); 4],
    }
}

fn axis() -> V3 {
    v3(-0.65, -0.08, 0.62).normalize_or_zero()
}

fn planet_shape(i: usize, seed: u64) -> Shape {
    let axis = axis();
    let seat = axis * STAR_DIST;
    let side = axis.cross(v3(0.0, 1.0, 0.0)).normalize_or_zero();
    let up = axis.cross(side).normalize_or_zero();
    let u = |k: u64| unit(seed_unit(seed, k));
    let t = i as f32 / (PLANET_COUNT - 1) as f32;
    let orbit_r = 1_050.0 + t * 3_550.0;
    let lon = i as f32 * 2.399_963 + (u(2) - 0.5) * 0.8 + SALT as f32 * 0.7;
    let incl = (u(6) - 0.5) * 0.24;
    let center = seat
        + (axis * lon.cos() + side * lon.sin()) * orbit_r * incl.cos()
        + up * orbit_r * incl.sin();
    let radius = PLANET_R_MIN + (PLANET_R_MAX - PLANET_R_MIN) * u(3);
    let mut s = shape_from(center, radius, seed);
    let ease = |x: f32| 1.0 + (x - 1.0) * 0.12;
    s.stretch = v3(ease(s.stretch.x), ease(s.stretch.y), ease(s.stretch.z));
    s.amp = 0.04 + 0.06 * u(4);
    s.freq = 1.2 + 0.8 * u(5);
    for (k, slot) in s.craters.iter_mut().enumerate() {
        let kk = 0x40 + k as u64;
        let z = u(kk) * 2.0 - 1.0;
        let a = u(kk ^ 0x9) * std::f32::consts::TAU;
        let r = (1.0 - z * z).max(0.0).sqrt();
        *slot = (v3(r * a.cos(), z, r * a.sin()), 0.18 + 0.30 * u(kk ^ 0x33));
    }
    s
}

fn planet_list() -> Vec<Rock> {
    build_planets(SALT, &planet_shape)
}

fn home_shape() -> Shape {
    Shape {
        center: ZERO,
        radius: HOME_R,
        stretch: splat(1.0),
        amp: 0.16,
        freq: 2.0,
        craters: [(ZERO, 0.0); 4],
    }
}

/// Where a cell's rock lies.
fn center_in(c: IVec3) -> V3 {
    let j = |salt: u64| 0.25 + 0.5 * unit(hash_unit(c, salted(salt, SALT)));
    (as_v3(c) + v3(j(0xA1), j(0xA2), j(0xA3))) * CELL_M
}

/// The smooth side of the starter rock: a respectable first target.
fn first(c: IVec3) -> Shape {
    let radius = R_MIN + 4.0 + unit(hash_unit(c, salted(0xA4, SALT))) * 6.0;
    shape_from(center_in(c), radius, hash3(c, salted(0xA5, SALT)))
}

/// The smooth side of a cell's rock: no room near home or a planet.
fn fit(c: IVec3, planets: &Vec<Rock>) -> Option<(i32, Shape)> {
    let center = center_in(c);
    let roll = unit(hash_unit(c, salted(0xA4, SALT)));
    let radius = R_MIN + roll.powi(3) * (R_MAX - R_MIN);
    if center.length() < HOME_R + radius + 10.0 {
        return None;
    }
    for p in planets {
        if center.distance(p.shape.center) < reach(p) + radius + 8.0 {
            return None;
        }
    }
    let seed = hash3(c, salted(0xA5, SALT));
    Some(((center.length() / TIER_M) as i32, shape_from(center, radius, seed)))
}

fn rock_in(c: IVec3, planets: &Vec<Rock>) -> Option<Rock> {
    asteroid_in_cell(c, SALT, home_shape(), &first, &|c: IVec3| fit(c, planets))
}

fn cell_of(p: V3) -> IVec3 {
    (p / CELL_M).floor().cell()
}

fn pad() -> f32 {
    R_MAX * STRETCH_MAX * (0.95 + AMP_MAX) + 0.5
}

fn overlap_test(a: &Rock, lo: V3, hi: V3) -> bool {
    a.shape.center.clamp(lo, hi).distance(a.shape.center) <= reach(a)
}

fn bodies_in(lo: V3, hi: V3, planets: &Vec<Rock>) -> Vec<Keyed<Shape>> {
    bodies_overlapping(
        cell_of(lo - splat(pad())),
        cell_of(hi + splat(pad())),
        planets,
        &|c: IVec3| rock_in(c, planets),
        &|a: Rock| overlap_test(&a, lo, hi),
    )
}

fn rocks_at(p: V3, planets: &Vec<Rock>) -> Vec<Rock> {
    asteroids_overlapping(
        cell_of(p - splat(pad())),
        cell_of(p + splat(pad())),
        planets,
        &|c: IVec3| rock_in(c, planets),
        &|a: Rock| overlap_test(&a, p, p),
    )
}

fn pure_block(v: IVec3, planets: &Vec<Rock>) -> u8 {
    let rocks = rocks_at(center_m(v), planets);
    block_at(&rocks, v, &|a: Rock, v: IVec3| own_block(&a, v))
}

fn pure_tier(v: IVec3, planets: &Vec<Rock>) -> i32 {
    let p = center_m(v);
    let rocks = rocks_at(p, planets);
    tier_of_voxel(
        &rocks,
        &|a: Rock| within_reach(&a, p) && field_single(&a, p) > 0.0,
        (p.length() / TIER_M) as i32,
    )
}

fn nearest_keyed(p: V3, exclude_home: bool, planets: &Vec<Rock>) -> Option<Keyed<Shape>> {
    nearest_asteroid_keyed(cell_of(p), exclude_home, &|c: IVec3| {
        rock_in(c, planets).map(|a| Sighting {
            a,
            rank: (1_000_000.0 + (p.distance(a.shape.center) - reach(&a)) as f64 * 1000.0) as u64,
            at_origin: a.shape.center == ZERO,
        })
    })
}

fn home_spawn(planets: &Vec<Rock>) -> V3 {
    let row = surface_y_at(0, 0, &|v: IVec3| pure_block(v, planets) != AIR);
    v3(0.0, row as f32 * VOXEL, 0.0)
}

fn chunk_bounds(cp: IVec3) -> (V3, V3) {
    let lo = as_v3(cp) * CHUNK_M;
    (lo, lo + splat(CHUNK_M))
}

/// Generate one body's chunk from a precomputed lattice.
fn generate(w: &mut World, key: IVec3, a: &Rock, cp: IVec3) -> bool {
    let (lo, hi) = chunk_bounds(cp);
    if !overlap_test(a, lo, hi) {
        return w.generate_chunk(key, cp, false, &|_v: IVec3| AIR);
    }
    let origin = lo.floor().cell();
    let top = IVec3::new(hi.x.ceil() as i32 + 1, hi.y.ceil() as i32 + 1, hi.z.ceil() as i32 + 1);
    let n = |lo: i32, hi: i32| (hi - lo + 1) as usize;
    let grid = FieldGrid::for_box(
        origin,
        n(origin.x, top.x),
        n(origin.y, top.y),
        n(origin.z, top.z),
        &|q: IVec3| field_lattice(a, q),
    );
    w.generate_chunk(key, cp, true, &|v: IVec3| {
        let p = center_m(v);
        if !within_reach(a, p) {
            return AIR;
        }
        material(a, v, p, trilerp(p, &|q| grid.at(q))).unwrap_or(AIR)
    })
}

fn refresh(w: &mut World, center: V3, radius: f32, planets: &Vec<Rock>) {
    let span = splat(radius + CELL_M);
    w.refresh_nearby(
        cell_of(center - span),
        cell_of(center + span),
        planets.len(),
        &|key: IVec3, offset: Option<V3>| {
            let a = body_by_key(key, planets, &|c: IVec3| rock_in(c, planets))?;
            let d = a.shape.center + offset.unwrap_or(ZERO) - center;
            if d.length() >= radius + reach(&a) {
                return None;
            }
            let r = splat(reach(&a) + VOXEL);
            let hi = (a.shape.center + r) / VOXEL;
            Some(Placed {
                a,
                vmin: voxel_of(a.shape.center - r),
                vmax: IVec3::new(hi.x.ceil() as i32, hi.y.ceil() as i32, hi.z.ceil() as i32),
            })
        },
    );
}

/// Materialize every body's chunks within `r_m` meters of a point, and
/// refresh the nearby list so that world-space queries resolve.
fn gen_sphere(w: &mut World, center: V3, r_m: f32, planets: &Vec<Rock>) {
    let r_c = (r_m / CHUNK_M).ceil() as i32;
    let cc = chunk_of(voxel_of(center));
    for z in -r_c..=r_c {
        for y in -r_c..=r_c {
            for x in -r_c..=r_c {
                let cp = plus(cc, IVec3::new(x, y, z));
                let (lo, hi) = chunk_bounds(cp);
                for k in bodies_in(lo, hi, planets) {
                    generate(w, k.key, &k.a, cp);
                }
            }
        }
    }
    refresh(w, center, r_m + 80.0, planets);
}

fn axis_t(p: f32, cell: i32, step: i32, inv: f32) -> f32 {
    if inv.is_infinite() {
        return f32::INFINITY;
    }
    let bound = if step > 0 { cell as f32 + 1.0 } else { cell as f32 };
    (bound - p) * inv
}

/// The cells that a ray crosses in one body's gen space.
fn path_through(nb: &NearBody<Shape>, origin: V3, dir: V3, max_dist: f32) -> RayPath {
    let p = (origin - as_v3(nb.off_vox) * VOXEL) / VOXEL;
    let start = p.floor().cell();
    let max_t = max_dist / VOXEL;
    let sign = |d: f32| if d > 0.0 { 1 } else { -1 };
    let inv = |d: f32| if d != 0.0 { 1.0 / d } else { f32::INFINITY };
    let step = IVec3::new(sign(dir.x), sign(dir.y), sign(dir.z));
    let mut t_max = v3(
        axis_t(p.x, start.x, step.x, inv(dir.x)),
        axis_t(p.y, start.y, step.y, inv(dir.y)),
        axis_t(p.z, start.z, step.z, inv(dir.z)),
    );
    let mut axes = Vec::new();
    let mut ranks = vec![0u64];
    loop {
        let (axis, t) = if t_max.x <= t_max.y && t_max.x <= t_max.z {
            (Axis::X, t_max.x)
        } else if t_max.y <= t_max.z {
            (Axis::Y, t_max.y)
        } else {
            (Axis::Z, t_max.z)
        };
        if t > max_t {
            return RayPath { start, step, axes, ranks };
        }
        match axis {
            Axis::X => t_max.x += inv(dir.x).abs(),
            Axis::Y => t_max.y += inv(dir.y).abs(),
            Axis::Z => t_max.z += inv(dir.z).abs(),
        }
        axes.push(axis);
        ranks.push((t + 0.0).to_bits() as u64);
    }
}

fn cast(w: &World, origin: V3, dir: V3, max_dist: f32) -> Option<RayHit> {
    let dir = dir.normalize_or_zero();
    let paths = w
        .nearby()
        .iter()
        .map(|nb| {
            let to = nb.a.shape.center + as_v3(nb.off_vox) * VOXEL - origin;
            let along = to.dot(dir);
            let r = reach(&nb.a) + 1.0;
            let passes_by = to.length_squared() - along * along > r * r
                || along < -r
                || along - r > max_dist;
            if passes_by {
                None
            } else {
                Some(path_through(nb, origin, dir, max_dist))
            }
        })
        .collect();
    raycast(w, &paths, &terrain)
}

#[test]
fn home_rock_exists_and_has_a_crystal_core() {
    let ps = planet_list();
    // The voxel at the very center of the home rock is core crystal.
    assert_eq!(pure_block(IVec3::zero(), &ps), ORE);
    // Well outside the reach: vacuum.
    assert_eq!(pure_block(IVec3::new(0, (40.0 / VOXEL) as i32, 0), &ps), AIR);
    // Somewhere mid-shell: solid.
    assert_ne!(pure_block(IVec3::new((HOME_R * 0.5 / VOXEL) as i32, 0, 0), &ps), AIR);
}

#[test]
fn worldgen_is_deterministic() {
    let ps = planet_list();
    let v = IVec3::new(17, -40, 31);
    assert_eq!(pure_block(v, &ps), pure_block(v, &ps));
    let a = rock_in(IVec3::new(3, 1, -2), &ps);
    let b = rock_in(IVec3::new(3, 1, -2), &ps);
    assert_eq!(a.is_some(), b.is_some());
    if let (Some(a), Some(b)) = (a, b) {
        assert_eq!(a.shape.center, b.shape.center);
        assert_eq!(a.shape.radius, b.shape.radius);
    }
}

#[test]
fn field_has_neighbors_with_distance_tiers() {
    let ps = planet_list();
    // The starter guarantee: an asteroid within 2 cells of home, easy tier.
    let near = nearest_keyed(ZERO, true, &ps).expect("field should not be empty").a;
    assert!(near.shape.center.length() > HOME_R);
    assert!(near.shape.center.length() < 3.0 * CELL_M * 1.8);
    assert!(near.tier <= 1);
    // Ordinary (non-starter) asteroids take their tier from distance.
    let mut checked = false;
    'outer: for cz in -6..=6 {
        for cy in -6..=6 {
            for cx in -6..=6 {
                let c = IVec3::new(cx, cy, cz);
                if c == IVec3::zero() || c == starter_cell(SALT) {
                    continue;
                }
                if let Some(a) = rock_in(c, &ps) {
                    assert_eq!(a.tier, (a.shape.center.length() / TIER_M) as i32);
                    checked = true;
                    break 'outer;
                }
            }
        }
    }
    assert!(checked, "expected at least one ordinary asteroid within 6 cells");
}

#[test]
fn planets_form_a_landable_solar_system() {
    let ps = planet_list();
    assert_eq!(ps.len(), PLANET_COUNT);
    // Deterministic.
    let ps2 = planet_list();
    assert_eq!(ps[0].shape.center, ps2[0].shape.center);
    let axis = axis();
    let seat = axis * STAR_DIST;
    let side = axis.cross(v3(0.0, 1.0, 0.0)).normalize_or_zero();
    let mut last_orbit = 0.0;
    let mut longitudes = Vec::new();
    for (i, p) in ps.iter().enumerate() {
        // Concentric orbits around the star's seat, tiers falling with
        // orbital distance.
        let orbit = p.shape.center.distance(seat);
        assert!(orbit > last_orbit, "planet {i} orbit out of order");
        assert!(orbit > 900.0 && orbit < 4_800.0);
        last_orbit = orbit;
        if i > 0 {
            assert!(p.tier <= ps[i - 1].tier);
        }
        let rel = p.shape.center - seat;
        longitudes.push(f32::atan2(rel.dot(side), rel.dot(axis)));
        assert!(p.shape.radius >= PLANET_R_MIN && p.shape.radius <= PLANET_R_MAX);
        assert!(p.is_planet);
        // Landable: solid voxels just under the surface, vacuum above.
        let dir = (ZERO - p.shape.center).normalize_or_zero();
        let surf = surface_toward(p, p.shape.center + dir);
        let v_solid = voxel_of(p.shape.center + dir * (surf - 1.5));
        let v_air = voxel_of(p.shape.center + dir * (surf + 3.0));
        assert_ne!(pure_block(v_solid, &ps), AIR, "planet {i} has no ground");
        assert_eq!(pure_block(v_air, &ps), AIR, "planet {i} surface buried");
        // Mining it pays its own tier.
        assert_eq!(pure_tier(v_solid, &ps), p.tier);
    }
    assert!(ps.first().unwrap().tier >= 10, "innermost planet must be endgame");
    // Spread around the star, not clumped on one bearing: the largest
    // empty arc between neighboring longitudes stays under half a turn.
    longitudes.sort_by(f32::total_cmp);
    let mut max_gap: f32 = 0.0;
    for w in longitudes.windows(2) {
        max_gap = max_gap.max(w[1] - w[0]);
    }
    max_gap =
        max_gap.max(longitudes[0] + std::f32::consts::TAU - longitudes[longitudes.len() - 1]);
    assert!(max_gap < std::f32::consts::PI, "planets clumped: gap {max_gap}");
}

#[test]
fn asteroids_have_shape_and_species_variety() {
    let ps = planet_list();
    // Scan a swath of cells; the field should not be all one species or
    // one shape.
    let mut species = std::collections::HashSet::new();
    let mut min_amp = f32::MAX;
    let mut max_amp = f32::MIN;
    for cz in -14..=14 {
        for cy in -3..=3 {
            for cx in -14..=14 {
                if let Some(a) = rock_in(IVec3::new(cx, cy, cz), &ps) {
                    species.insert(a.species);
                    min_amp = min_amp.min(a.shape.amp);
                    max_amp = max_amp.max(a.shape.amp);
                    // Shape params stay inside their declared bounds
                    // (reach and the overlap pad depend on it).
                    assert!(max_element(a.shape.stretch) <= STRETCH_MAX + 1e-4);
                    assert!(min_element(a.shape.stretch) >= STRETCH_MIN - 1e-4);
                    assert!(a.shape.amp <= AMP_MAX + 1e-4 && a.shape.amp >= AMP_MIN - 1e-4);
                }
            }
        }
    }
    assert!(species.len() >= 4, "want species variety, got {species:?}");
    assert!(max_amp - min_amp > 0.05, "want shape variety");
}

fn hp_number(hp: Hp) -> f32 {
    match hp {
        Hp::Finite { coeff, exp } => coeff as f32 * 2.0f32.powi(exp),
        Hp::Infinite => f32::INFINITY,
    }
}

#[test]
fn stats_scale_with_tier() {
    let hp = |id: u8, tier: i32| hp_number(block_hp(id, tier));
    assert!(hp(ROCK, 3) > hp(ROCK, 0));
    assert!(ore_value(3) > ore_value(0));
    // Value must outgrow HP for progression to accelerate.
    let hp_ratio = hp(ROCK, 1) / hp(ROCK, 0);
    let val_ratio = ore_value(1) as f32 / ore_value(0) as f32;
    assert!(val_ratio > hp_ratio);
}

#[test]
fn raycast_hits_home_surface_from_above() {
    let ps = planet_list();
    let mut w = World::new();
    gen_sphere(&mut w, ZERO, HOME_R * 1.4, &ps);
    let spawn = home_spawn(&ps);
    let eye = spawn + v3(0.0, 1.25, 0.0);
    let hit = cast(&w, eye, v3(0.0, -1.0, 0.0), 10.0).expect("should hit home rock");
    assert_eq!(hit.normal, IVec3::new(0, 1, 0));
    // Looking up: sky, no hit.
    assert!(cast(&w, eye, v3(0.0, 1.0, 0.0), 30.0).is_none());
}

#[test]
fn edits_survive_unload_and_regeneration() {
    let ps = planet_list();
    let mut w = World::new();
    // A voxel just under the home surface at the spawn column.
    let spawn = home_spawn(&ps);
    let v = IVec3::new(0, ((spawn.y - 0.3) / VOXEL).floor() as i32, 0);
    gen_sphere(&mut w, ZERO, 6.0, &ps);
    assert!(w.solid(v, &terrain), "test voxel should start solid");
    w.set_air(v, &terrain);
    assert!(!w.solid(v, &terrain));
    // Unload the chunk entirely: fallback path must still honor the edit.
    let home = rock_in(IVec3::zero(), &ps).unwrap();
    let cp = chunk_of(v);
    w.unload_chunk(IVec3::zero(), cp);
    assert!(!w.solid(v, &terrain), "edit must survive via fallback");
    // Regenerate: the edit must be baked back into chunk storage.
    generate(&mut w, IVec3::zero(), &home, cp);
    assert!(!w.solid(v, &terrain), "edit must survive regeneration");
}

#[test]
fn empty_space_is_air_and_bodies_move_with_offsets() {
    let ps = planet_list();
    let mut w = World::new();
    // Far empty space: nothing nearby, everything is vacuum.
    refresh(&mut w, v3(20_000.0, 9_000.0, -14_000.0), 100.0, &ps);
    assert_eq!(w.block(IVec3::new(80_000, 36_000, -56_000), &terrain), AIR);

    // A displaced body answers at its NEW location with its own terrain.
    let found = nearest_keyed(ZERO, true, &ps).expect("starter exists");
    let (cell, a) = (found.key, found.a);
    let shift = IVec3::new(400, 0, 0); // 100m, well clear of where it was
    let m = BodyMotion {
        offset: as_v3(shift) * VOXEL,
        off_vox: shift,
        delta: IVec3::zero(),
        eaten: false,
        backfilled: false,
    };
    w.motion_mut().insert(cell, m);
    refresh(&mut w, a.shape.center + m.offset, 90.0, &ps);
    let gen_v = voxel_of(a.shape.center);
    let world_v = plus(gen_v, shift);
    assert_eq!(w.block(world_v, &terrain), pure_block(gen_v, &ps), "terrain rides the offset");
    assert_ne!(w.block(world_v, &terrain), AIR, "asteroid core should be solid");
    let open_tier = ((as_v3(world_v) * VOXEL).length() / TIER_M) as i32;
    assert_eq!(w.env_of(world_v, open_tier, &terrain), (a.tier, a.species));

    // Consumption drops the body for real.
    w.consume_body(cell);
    refresh(&mut w, a.shape.center + as_v3(shift) * VOXEL, 90.0, &ps);
    assert_eq!(w.block(world_v, &terrain), AIR, "eaten bodies leave vacuum");
    assert!(w.is_eaten(cell));
}

/// Chunk contents must equal pure worldgen everywhere: the fallback path
/// depends on it.
#[test]
fn chunk_storage_matches_pure_gen() {
    let ps = planet_list();
    let mut w = World::new();
    for (c, r) in [(ZERO, 22.0), (v3(33.0, 31.0, -31.0), 18.0)] {
        gen_sphere(&mut w, c, r, &ps);
    }
    // One nearby list covering both probe regions (offsets are all zero).
    refresh(&mut w, v3(16.0, 15.0, -15.0), 120.0, &ps);
    let mut mismatches = 0;
    for (cx, cy, cz) in [(0i32, 40i32, 0i32), (132, 124, -124)] {
        for dy in -20..20 {
            for dx in -20..20 {
                let v = IVec3::new(cx + dx, cy + dy, cz);
                let a = w.block(v, &terrain);
                let b = pure_block(v, &ps);
                if a != b {
                    mismatches += 1;
                    if mismatches < 10 {
                        println!("MISMATCH at {v:?}: chunk={a} gen={b}");
                    }
                }
            }
        }
    }
    println!("total mismatches: {mismatches}");
    let glyph = |b: u8| match b {
        AIR => '.',
        REGOLITH => 'r',
        ROCK => '#',
        ORE => '*',
        _ => '?',
    };
    println!("--- home, vertical slice z=0 (top of rock) ---");
    for vy in (40..58).rev() {
        let row: String =
            (-24..24).map(|vx| glyph(w.block(IVec3::new(vx, vy, 0), &terrain))).collect();
        println!("{row}");
    }
    assert_eq!(mismatches, 0);
}

#[test]
fn surface_chunk_meshes_nonempty() {
    let ps = planet_list();
    let mut w = World::new();
    gen_sphere(&mut w, ZERO, HOME_R * 1.4, &ps);
    // A chunk straddling the home surface at the spawn column. A chunk fully
    // inside the rock would correctly mesh to nothing (all faces culled), so
    // the deep-interior chunk is the wrong thing to assert on.
    let spawn = home_spawn(&ps);
    let home = rock_in(IVec3::zero(), &ps).unwrap();
    let cp = chunk_of(voxel_of(spawn));
    let (solid, _glow) = mesh_chunk(&w, IVec3::zero(), home, cp, &terrain);
    assert!(!solid.positions.is_empty());
}

#[test]
fn keys_name_planets_and_cells() {
    let ps = planet_list();
    for i in 0..PLANET_COUNT {
        let a = body_by_key(planet_key(i), &ps, &|_c: IVec3| None).unwrap();
        assert_eq!(a.seed, ps[i].seed);
    }
    assert!(body_by_key(planet_key(PLANET_COUNT), &ps, &|_c: IVec3| None).is_none());
    assert_eq!(body_kind(planet_key(3)), BodyKind::Planet(3));
    assert_eq!(body_kind(IVec3::new(7, 0, 0)), BodyKind::Cell);
    let home = body_by_key(IVec3::zero(), &ps, &|c: IVec3| rock_in(c, &ps)).unwrap();
    assert_eq!((home.seed, home.tier, home.species), (0xCAFE_D00D, 0, 0));
}

#[test]
fn planet_tiers_fall_from_twelve_to_four() {
    let tiers: Vec<i32> = planet_list().iter().map(|p| p.tier).collect();
    assert_eq!(tiers, vec![12, 10, 9, 7, 6, 4]);
}
