//! Index lists and pixel buffers of the procedural scenery.
use crate::hash::hash01;
use vstd::prelude::*;

verus! {

/// Offset of the `j`-th index of a grid cell from the cell's first vertex.
pub open spec fn cell_corner(j: int, stride: int) -> int {
    if j == 0 {
        0
    } else if j == 1 || j == 3 {
        1
    } else if j == 4 {
        stride + 1
    } else {
        stride
    }
}

/// The `k`-th index of a grid of `segments` cells per row: two triangles per
/// cell, row by row.
pub open spec fn grid_index(k: int, segments: int) -> int {
    let cell = k / 6;
    let stride = segments + 1;
    cell / segments * stride + cell % segments + cell_corner(k % 6, stride)
}

/// Triangle indices of a ring or disc of `rows` by `segments` cells, whose
/// vertices are numbered row by row, `segments + 1` to a row.
pub fn grid_indices(rows: usize, segments: usize) -> (idx: Vec<u32>)
    requires
        (rows + 1) * (segments + 1) <= u32::MAX,
    ensures
        idx.len() == rows * segments * 6,
        forall|k: int| 0 <= k < idx.len() ==> #[trigger] idx@[k] == grid_index(k, segments as int),
{
    let mut idx: Vec<u32> = Vec::new();
    assert(segments + 1 <= (rows + 1) * (segments + 1)) by (nonlinear_arith);
    let stride: u32 = segments as u32 + 1;
    let mut r: usize = 0;
    while r < rows
        invariant
            r <= rows,
            (rows + 1) * (segments + 1) <= u32::MAX,
            stride == segments + 1,
            idx.len() == r * segments * 6,
            forall|k: int|
                0 <= k < idx.len() ==> #[trigger] idx@[k] == grid_index(k, segments as int),
        decreases rows - r,
    {
        let mut s: usize = 0;
        while s < segments
            invariant
                r < rows,
                s <= segments,
                (rows + 1) * (segments + 1) <= u32::MAX,
                stride == segments + 1,
                idx.len() == (r * segments + s) * 6,
                forall|k: int|
                    0 <= k < idx.len() ==> #[trigger] idx@[k] == grid_index(k, segments as int),
            decreases segments - s,
        {
            assert(0 <= r * stride && r * stride + s + stride + 1 < (rows + 1) * (segments + 1)
                && r < (rows + 1) * (segments + 1)) by (nonlinear_arith)
                requires
                    r < rows,
                    stride == segments + 1,
                    s < segments,
            ;
            let i: u32 = r as u32 * stride + s as u32;
            let ghost cell = r * segments + s;
            proof {
                vstd::arithmetic::div_mod::lemma_fundamental_div_mod_converse(
                    cell as int,
                    segments as int,
                    r as int,
                    s as int,
                );
                assert forall|j: int| 0 <= j < 6 implies #[trigger] grid_index(
                    cell * 6 + j,
                    segments as int,
                ) == i + cell_corner(j, stride as int) by {
                    assert((cell * 6 + j) / 6 == cell && (cell * 6 + j) % 6 == j);
                }
            }
            let ghost was = idx@;
            idx.push(i);
            idx.push(i + 1);
            idx.push(i + stride);
            idx.push(i + 1);
            idx.push(i + stride + 1);
            idx.push(i + stride);
            proof {
                assert forall|k: int| 0 <= k < idx@.len() implies #[trigger] idx@[k] == grid_index(
                    k,
                    segments as int,
                ) by {
                    if k < was.len() {
                        assert(idx@[k] == was[k]);
                    } else {
                        let j = k - cell * 6;
                        assert(grid_index(cell * 6 + j, segments as int) == i + cell_corner(
                            j,
                            stride as int,
                        ));
                    }
                }
            }
            s += 1;
        }
        assert((r + 1) * segments * 6 == (r * segments + segments) * 6) by (nonlinear_arith);
        r += 1;
    }
    idx
}

/// Every index names a vertex of the grid.
pub proof fn law_grid_indices_name_vertices(k: int, rows: int, segments: int)
    requires
        0 < rows,
        0 < segments,
        0 <= k < rows * segments * 6,
    ensures
        0 <= grid_index(k, segments) < (rows + 1) * (segments + 1),
{
    let cell = k / 6;
    let r = cell / segments;
    let s = cell % segments;
    vstd::arithmetic::div_mod::lemma_fundamental_div_mod(cell, segments);
    vstd::arithmetic::div_mod::lemma_mod_bound(cell, segments);
    assert(0 <= cell < rows * segments) by (nonlinear_arith)
        requires
            cell == k / 6,
            0 <= k < rows * segments * 6,
    ;
    assert(0 <= r < rows) by (nonlinear_arith)
        requires
            cell == segments * r + s,
            0 <= s < segments,
            0 <= cell < rows * segments,
    ;
    assert(0 <= r * (segments + 1) && r * (segments + 1) + s + (segments + 1) + 1 < (rows + 1) * (
    segments + 1)) by (nonlinear_arith)
        requires
            0 <= r,
            r + 1 <= rows,
            0 <= s,
            s + 1 <= segments,
    ;
}

/// A colour, one byte per channel.
#[derive(Clone, Copy, PartialEq, Eq, Structural, Debug)]
pub struct Rgb {
    pub r: u8,
    pub g: u8,
    pub b: u8,
}

/// Channel `c` of an opaque pixel.
pub open spec fn channel(p: Rgb, c: int) -> u8 {
    if c == 0 {
        p.r
    } else if c == 1 {
        p.g
    } else if c == 2 {
        p.b
    } else {
        255
    }
}

/// `data` is an opaque picture: pixel `i` is what `paint` said of column `i % w`
/// and row `i / w`.
pub open spec fn painted<F: Fn(usize, usize) -> Rgb>(
    data: Seq<u8>,
    w: int,
    paint: F,
    pixels: Seq<Rgb>,
) -> bool {
    &&& data.len() == 4 * pixels.len()
    &&& forall|i: int|
        0 <= i < pixels.len() ==> paint.ensures(
            ((i % w) as usize, (i / w) as usize),
            #[trigger] pixels[i],
        )
    &&& forall|j: int| 0 <= j < data.len() ==> #[trigger] data[j] == channel(pixels[j / 4], j % 4)
}

/// Paint an opaque picture of `w` by `h` pixels, row by row.
pub fn paint_rgba<F: Fn(usize, usize) -> Rgb>(w: usize, h: usize, paint: &F) -> (data: Vec<u8>)
    requires
        4 * (w * h) <= usize::MAX,
        forall|x: usize, y: usize| #[trigger] paint.requires((x, y)),
    ensures
        exists|pixels: Seq<Rgb>|
            pixels.len() == w * h && #[trigger] painted(data@, w as int, *paint, pixels),
{
    let total: usize = w * h;
    let mut data: Vec<u8> = Vec::new();
    let ghost mut pixels: Seq<Rgb> = Seq::empty();
    let mut i: usize = 0;
    while i < total
        invariant
            i <= total,
            total == w * h,
            pixels.len() == i,
            forall|x: usize, y: usize| #[trigger] paint.requires((x, y)),
            painted(data@, w as int, *paint, pixels),
        decreases total - i,
    {
        assert(w > 0) by (nonlinear_arith)
            requires
                i < w * h,
        ;
        let p = paint(i % w, i / w);
        let ghost was = pixels;
        let ghost bytes = data@;
        data.push(p.r);
        data.push(p.g);
        data.push(p.b);
        data.push(255);
        proof {
            pixels = pixels.push(p);
            assert forall|j: int| 0 <= j < data@.len() implies #[trigger] data@[j] == channel(
                pixels[j / 4],
                j % 4,
            ) by {
                if j < bytes.len() {
                    assert(data@[j] == bytes[j]);
                    assert(pixels[j / 4] == was[j / 4]);
                }
            }
            assert forall|k: int| 0 <= k < pixels.len() implies paint.ensures(
                ((k % w as int) as usize, (k / w as int) as usize),
                #[trigger] pixels[k],
            ) by {
                if k < was.len() {
                    assert(pixels[k] == was[k]);
                }
            }
        }
        i += 1;
    }
    data
}

/// Streaks that fall into the hole.
pub const N_STREAKS: u64 = 44;

/// Whether a streak is white-hot plasma rather than rock: a share of 0.65 is.
pub fn streak_is_hot(i: u64) -> (hot: bool)
    ensures
        hot == ((crate::hash::mixed(i.wrapping_mul(0x9E37_79B9_7F4A_7C15) ^ 0x11) >> 40)
            < 10_905_190),
{
    hash01(i, 0x11) < 10_905_190
}

/// Whether a planet wears rings: a third of them do.
pub fn has_rings(seed: u64) -> (r: bool)
    ensures
        r == (seed % 3 == 0),
{
    seed % 3 == 0
}

/// A grid cell is two triangles over its four vertices: the two of its own row
/// and the two of the next, wound the same way.
pub proof fn law_grid_cell_is_two_triangles(r: int, s: int, segments: int)
    requires
        0 <= r,
        0 <= s < segments,
    ensures
        ({
            let k = 6 * (r * segments + s);
            let here = r * (segments + 1) + s;
            let below = (r + 1) * (segments + 1) + s;
            &&& grid_index(k, segments) == here
            &&& grid_index(k + 1, segments) == here + 1
            &&& grid_index(k + 2, segments) == below
            &&& grid_index(k + 3, segments) == here + 1
            &&& grid_index(k + 4, segments) == below + 1
            &&& grid_index(k + 5, segments) == below
        }),
{
    let cell = r * segments + s;
    vstd::arithmetic::div_mod::lemma_fundamental_div_mod_converse(cell, segments, r, s);
    assert(cell >= 0) by (nonlinear_arith)
        requires
            cell == r * segments + s,
            r >= 0,
            s >= 0,
            segments > 0,
    ;
    assert((r + 1) * (segments + 1) == r * (segments + 1) + segments + 1) by (nonlinear_arith);
    assert forall|j: int| 0 <= j < 6 implies #[trigger] grid_index(6 * cell + j, segments) == r * (
    segments + 1) + s + cell_corner(j, segments + 1) by {
        assert((6 * cell + j) / 6 == cell && (6 * cell + j) % 6 == j);
    }
    assert(grid_index(6 * cell + 0, segments) == r * (segments + 1) + s);
}

/// A picture is painted pixel by pixel: the four bytes at column `x` of row `y`
/// are the red, green and blue that were painted there, and full opacity.
pub proof fn law_picture_holds_every_pixel<F: Fn(usize, usize) -> Rgb>(
    data: Seq<u8>,
    w: int,
    paint: F,
    pixels: Seq<Rgb>,
    x: int,
    y: int,
)
    requires
        painted(data, w, paint, pixels),
        0 <= x < w <= usize::MAX,
        0 <= y <= usize::MAX,
        y * w + x < pixels.len(),
    ensures
        ({
            let i = 4 * (y * w + x);
            &&& data.len() == 4 * pixels.len()
            &&& 0 <= i
            &&& data[i + 3] == 255
            &&& paint.ensures(
                (x as usize, y as usize),
                Rgb { r: data[i], g: data[i + 1], b: data[i + 2] },
            )
        }),
{
    let n = y * w + x;
    vstd::arithmetic::div_mod::lemma_fundamental_div_mod_converse(n, w, y, x);
    assert(n >= 0) by (nonlinear_arith)
        requires
            n == y * w + x,
            y >= 0,
            x >= 0,
            w > 0,
    ;
    assert((4 * n) / 4 == n && (4 * n) % 4 == 0);
    assert((4 * n + 1) / 4 == n && (4 * n + 1) % 4 == 1);
    assert((4 * n + 2) / 4 == n && (4 * n + 2) % 4 == 2);
    assert((4 * n + 3) / 4 == n && (4 * n + 3) % 4 == 3);
    assert(data[4 * n] == channel(pixels[(4 * n) / 4], (4 * n) % 4));
    assert(data[4 * n + 1] == channel(pixels[(4 * n + 1) / 4], (4 * n + 1) % 4));
    assert(data[4 * n + 2] == channel(pixels[(4 * n + 2) / 4], (4 * n + 2) % 4));
    assert(data[4 * n + 3] == channel(pixels[(4 * n + 3) / 4], (4 * n + 3) % 4));
    assert(pixels[n] == (Rgb { r: data[4 * n], g: data[4 * n + 1], b: data[4 * n + 2] }));
}

} // verus!
