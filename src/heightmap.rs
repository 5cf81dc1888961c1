use vstd::prelude::*;

use crate::contours::{exp2, lemma_exp2_mono, pow2_u32};
use crate::raster::Heightmap;

verus! {

/// Side of the padded heightmap of one tile: the tile plus a one-cell border.
pub const HEIGHTMAP_SIZE: usize = 258;

/// Whether `v` is an `i32`.
pub open spec fn i32_fits(v: int) -> bool {
    i32::MIN <= v <= i32::MAX
}

/// `a / b` rounded toward zero, as Rust's integer division does.
pub open spec fn div_trunc(a: int, b: int) -> int {
    if a >= 0 {
        a / b
    } else {
        -((-a) / b)
    }
}

/// Sampling step of the heightmap at relative zoom `rel_zoom`.
pub open spec fn hm_step(rel_zoom: int) -> nat {
    if rel_zoom < 0 {
        exp2((-rel_zoom) as nat)
    } else {
        exp2(rel_zoom as nat)
    }
}

/// World coordinate sampled for heightmap cell `cell` along an axis whose
/// tile origin is `base`, at relative zoom `rel_zoom`: coarser than the tile
/// it spreads the cells `2^-rel_zoom` apart, finer it divides by `2^rel_zoom`.
pub open spec fn hm_coord(base: int, cell: int, rel_zoom: int) -> int {
    let s = hm_step(rel_zoom) as int;
    if rel_zoom < 0 {
        base * s + cell * s
    } else {
        div_trunc(base, s) + cell / s
    }
}

/// Whether every coordinate sampled along an axis with origin `base` fits
/// in an `i32`.
pub open spec fn hm_fits(base: int, zoom: int) -> bool {
    i32_fits(hm_coord(base, 0, zoom + 2)) && i32_fits(hm_coord(base, 257, zoom + 2))
}

/// Whether `hm` is the heightmap whose cell `(i, j)` holds the elevation that
/// `elevation` gave for the world point of that cell.
pub open spec fn heightmap_sampled<G: Fn(i32, i32) -> Option<u8>>(
    elevation: G,
    x: int,
    y: int,
    zoom: int,
    hm: Heightmap,
) -> bool {
    &&& hm.width == HEIGHTMAP_SIZE
    &&& hm.height == HEIGHTMAP_SIZE
    &&& hm.wf()
    &&& forall|i: int|
        0 <= i < hm.cells@.len() ==> elevation.ensures(
            (
                hm_coord(x, i % 258, zoom + 2) as i32,
                hm_coord(y, i / 258, zoom + 2) as i32,
            ),
            Some(#[trigger] hm.cells@[i]),
        )
}

/// Whether `elevation` can fail for the world point of one of the cells of
/// the heightmap of the tile at `(x, y)`, at `zoom`.
pub open spec fn elevation_can_fail<G: Fn(i32, i32) -> Option<u8>>(
    elevation: G,
    x: int,
    y: int,
    zoom: int,
) -> bool {
    exists|i: int|
        0 <= i < 258 * 258 && #[trigger] elevation.ensures(
            (hm_coord(x, i % 258, zoom + 2) as i32, hm_coord(y, i / 258, zoom + 2) as i32),
            None::<u8>,
        )
}

/// Cells between the first and the last lie between their coordinates.
proof fn lemma_hm_coord_between(base: int, cell: int, rel_zoom: int)
    requires
        0 <= cell <= 257,
        -6 <= rel_zoom <= 10,
    ensures
        hm_coord(base, 0, rel_zoom) <= hm_coord(base, cell, rel_zoom) <= hm_coord(
            base,
            257,
            rel_zoom,
        ),
        0 <= hm_coord(base, cell, rel_zoom) - hm_coord(base, 0, rel_zoom) <= 257 * 64,
{
    let s = hm_step(rel_zoom) as int;
    if rel_zoom < 0 {
        lemma_exp2_mono((-rel_zoom) as nat, 6);
        reveal_with_fuel(exp2, 7);
        assert(cell * s <= 257 * s && 257 * s <= 257 * 64 && 0 <= cell * s) by (nonlinear_arith)
            requires
                0 <= cell <= 257,
                1 <= s <= 64,
        ;
    } else {
        lemma_exp2_mono(0, rel_zoom as nat);
        vstd::arithmetic::div_mod::lemma_div_is_ordered(cell, 257, s);
        vstd::arithmetic::div_mod::lemma_div_is_ordered(0, cell, s);
        vstd::arithmetic::div_mod::lemma_div_is_ordered_by_denominator(257, 1, s);
    }
}

/// World coordinate of heightmap cell `cell` along an axis.
fn heightmap_coord(base: i32, cell: u32, rel_zoom: i32, scale: u32) -> (r: i32)
    requires
        cell <= 257,
        -6 <= rel_zoom <= 10,
        scale == hm_step(rel_zoom as int),
        i32_fits(hm_coord(base as int, 0, rel_zoom as int)),
        i32_fits(hm_coord(base as int, 257, rel_zoom as int)),
    ensures
        r == hm_coord(base as int, cell as int, rel_zoom as int),
{
    proof {
        lemma_hm_coord_between(base as int, cell as int, rel_zoom as int);
    }
    hm_coord_wide(base as i64, cell as i64, rel_zoom, scale as i64) as i32
}

/// `hm_coord` over 64-bit values.
pub(crate) fn hm_coord_wide(base: i64, cell: i64, rel_zoom: i32, scale: i64) -> (r: i64)
    requires
        -0x100_0000_0000 <= base <= 0x100_0000_0000,
        0 <= cell <= 257,
        -6 <= rel_zoom <= 10,
        scale == hm_step(rel_zoom as int),
    ensures
        r == hm_coord(base as int, cell as int, rel_zoom as int),
{
    if rel_zoom < 0 {
        proof {
            lemma_exp2_mono((-rel_zoom) as nat, 6);
            reveal_with_fuel(exp2, 7);
            assert(-0x100_0000_0000 * 64 <= base * scale <= 0x100_0000_0000 * 64
                && 0 <= cell * scale <= 257 * 64) by (nonlinear_arith)
                requires
                    1 <= scale <= 64,
                    -0x100_0000_0000 <= base <= 0x100_0000_0000,
                    0 <= cell <= 257,
            ;
        }
        base * scale + cell * scale
    } else {
        proof {
            lemma_exp2_mono(0, rel_zoom as nat);
        }
        let scaled: i64 = if base >= 0 {
            (base as u64 / scale as u64) as i64
        } else {
            -(((-base) as u64 / scale as u64) as i64)
        };
        scaled + (cell as u64 / scale as u64) as i64
    }
}

/// Samples the padded heightmap of the tile whose top-left world point is
/// `(x, y)`, at a resolution that follows `zoom + 2`. Gives `None` as soon as
/// the elevation source fails.
pub fn generate_heightmap<G: Fn(i32, i32) -> Option<u8>>(
    x: i32,
    y: i32,
    zoom: i32,
    elevation: &G,
) -> (r: Option<Heightmap>)
    requires
        -8 <= zoom <= 8,
        hm_fits(x as int, zoom as int),
        hm_fits(y as int, zoom as int),
        forall|a: i32, b: i32| elevation.requires((a, b)),
    ensures
        r matches Some(hm) ==> heightmap_sampled(*elevation, x as int, y as int, zoom as int, hm),
        r is None ==> elevation_can_fail(*elevation, x as int, y as int, zoom as int),
{
    let rel_zoom: i32 = zoom + 2;
    let magnitude: u32 = if rel_zoom < 0 {
        (-rel_zoom) as u32
    } else {
        rel_zoom as u32
    };
    let scale = pow2_u32(magnitude);
    let mut cells: Vec<u8> = Vec::new();
    let mut j: usize = 0;
    while j < HEIGHTMAP_SIZE
        invariant
            -6 <= rel_zoom <= 10,
            rel_zoom == zoom + 2,
            scale == hm_step(rel_zoom as int),
            hm_fits(x as int, zoom as int),
            hm_fits(y as int, zoom as int),
            forall|a: i32, b: i32| elevation.requires((a, b)),
            j <= HEIGHTMAP_SIZE,
            cells@.len() == j * 258,
            forall|i: int|
                0 <= i < cells@.len() ==> elevation.ensures(
                    (
                        hm_coord(x as int, i % 258, zoom + 2) as i32,
                        hm_coord(y as int, i / 258, zoom + 2) as i32,
                    ),
                    Some(#[trigger] cells@[i]),
                ),
        decreases HEIGHTMAP_SIZE - j,
    {
        let wz = heightmap_coord(y, j as u32, rel_zoom, scale);
        let mut i: usize = 0;
        while i < HEIGHTMAP_SIZE
            invariant
                -6 <= rel_zoom <= 10,
                rel_zoom == zoom + 2,
                scale == hm_step(rel_zoom as int),
                hm_fits(x as int, zoom as int),
                hm_fits(y as int, zoom as int),
                forall|a: i32, b: i32| elevation.requires((a, b)),
                j < HEIGHTMAP_SIZE,
                i <= HEIGHTMAP_SIZE,
                wz == hm_coord(y as int, j as int, zoom + 2),
                cells@.len() == j * 258 + i,
                forall|k: int|
                    0 <= k < cells@.len() ==> elevation.ensures(
                        (
                            hm_coord(x as int, k % 258, zoom + 2) as i32,
                            hm_coord(y as int, k / 258, zoom + 2) as i32,
                        ),
                        Some(#[trigger] cells@[k]),
                    ),
            decreases HEIGHTMAP_SIZE - i,
        {
            let wx = heightmap_coord(x, i as u32, rel_zoom, scale);
            let sample = elevation(wx, wz);
            match sample {
                Some(h) => {
                    proof {
                        crate::raster::lemma_mixed_radix_open(j as int, i as int, 258);
                    }
                    cells.push(h);
                },
                None => {
                    proof {
                        crate::raster::lemma_mixed_radix_open(j as int, i as int, 258);
                        let k = j * 258 + i;
                        assert(0 <= k < 258 * 258) by (nonlinear_arith)
                            requires
                                k == j * 258 + i,
                                0 <= j < 258,
                                0 <= i < 258,
                        ;
                        assert(elevation.ensures(
                            (
                                hm_coord(x as int, k % 258, zoom + 2) as i32,
                                hm_coord(y as int, k / 258, zoom + 2) as i32,
                            ),
                            None::<u8>,
                        ));
                    }
                    return None;
                },
            }
            i = i + 1;
        }
        j = j + 1;
    }
    Some(Heightmap { width: HEIGHTMAP_SIZE, height: HEIGHTMAP_SIZE, cells })
}

} // verus!
