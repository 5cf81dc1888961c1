use vstd::prelude::*;

use crate::raster::{
    calc_2d_index, col_of, lemma_mixed_radix, lemma_pixel_coords, lemma_position_in_image,
    map_pixel, row_of, Heightmap, PixelOp, Raster,
};

verus! {

/// How a neighbouring cell compares to a cell: the signed steps are
/// magnitudes, capped at what an `i8` holds.
#[derive(Clone, Copy, Debug, PartialEq, Eq, Structural)]
pub enum Direction {
    Higher(i8),
    Flat,
    Lower(i8),
}

/// `d` capped at the largest `i8`.
pub open spec fn cap_i8(d: int) -> i8 {
    if d > 127 {
        127
    } else {
        d as i8
    }
}

/// `v` saturated into the range of `i8`.
pub open spec fn sat_i8(v: int) -> i8 {
    if v > 127 {
        127
    } else if v < -128 {
        -128i8
    } else {
        v as i8
    }
}

/// `v` saturated into the range of `u8`.
pub open spec fn sat_u8(v: int) -> u8 {
    if v > 255 {
        255
    } else if v < 0 {
        0
    } else {
        v as u8
    }
}

/// Comparison of `x1` (the cell) with `x2` (its neighbour).
pub open spec fn dir_spec(x1: u8, x2: u8) -> Direction {
    if x1 == x2 {
        Direction::Flat
    } else if x1 < x2 {
        Direction::Lower(cap_i8(x2 - x1))
    } else {
        Direction::Higher(cap_i8(x1 - x2))
    }
}

/// Brightness step for an elevation change of `h_diff` at stroke `stroke`.
pub open spec fn shade_step(stroke: i8, h_diff: i8) -> i8 {
    sat_i8(stroke + h_diff / stroke)
}

/// Signed brightness shift for one comparison: lighter toward a higher
/// neighbour ("the cell is lower"), darker toward a lower one.
pub open spec fn shade_amount(d: Direction, stroke: i8) -> i8 {
    match d {
        Direction::Higher(n) => (-(shade_step(stroke, n) as int)) as i8,
        Direction::Lower(n) => shade_step(stroke, n),
        Direction::Flat => 0,
    }
}

/// `p` shifted by `s`, saturating at 0 and 255.
pub open spec fn shift_spec(p: u8, s: i8) -> u8 {
    sat_u8(p + s)
}

/// Shift from comparing cell `(x, y)` with its right-hand neighbour.
pub open spec fn shade_x(hm: Heightmap, x: int, y: int, stroke: i8) -> i8 {
    shade_amount(dir_spec(hm.at(x, y), hm.at(x + 1, y)), stroke)
}

/// Shift from comparing cell `(x, y)` with the neighbour below it.
pub open spec fn shade_y(hm: Heightmap, x: int, y: int, stroke: i8) -> i8 {
    shade_amount(dir_spec(hm.at(x, y), hm.at(x, y + 1)), stroke)
}

/// A channel byte `p` of tile pixel `(x, y)` after relief shading.
pub open spec fn shade_value(p: u8, hm: Heightmap, x: int, y: int, stroke: i8) -> u8 {
    shift_spec(shift_spec(p, shade_x(hm, x, y, stroke)), shade_y(hm, x, y, stroke))
}

pub fn dir(x1: u8, x2: u8) -> (r: Direction)
    ensures
        r == dir_spec(x1, x2),
{
    if x1 == x2 {
        Direction::Flat
    } else if x1 < x2 {
        let d: u8 = x2 - x1;
        Direction::Lower(if d > 127 { 127 } else { d as i8 })
    } else {
        let d: u8 = x1 - x2;
        Direction::Higher(if d > 127 { 127 } else { d as i8 })
    }
}

pub fn height_diff_shade_calculator(stroke: i8, h_diff: i8) -> (r: i8)
    requires
        stroke > 0,
        h_diff >= 0,
    ensures
        r == shade_step(stroke, h_diff),
        r > 0,
{
    let q: u8 = (h_diff as u8) / (stroke as u8);
    assert(q as int == h_diff / stroke);
    let v: i16 = stroke as i16 + q as i16;
    if v > 127 {
        127
    } else {
        v as i8
    }
}

/// The brightness shift that one comparison asks for.
fn shade_amount_of(d: Direction, stroke: i8) -> (r: i8)
    requires
        stroke > 0,
        match d {
            Direction::Higher(n) => n >= 0,
            Direction::Lower(n) => n >= 0,
            Direction::Flat => true,
        },
    ensures
        r == shade_amount(d, stroke),
{
    match d {
        Direction::Higher(n) => -height_diff_shade_calculator(stroke, n),
        Direction::Lower(n) => height_diff_shade_calculator(stroke, n),
        Direction::Flat => 0,
    }
}

pub(crate) fn shift_byte(p: u8, s: i8) -> (r: u8)
    ensures
        r == shift_spec(p, s),
{
    let v: i16 = p as i16 + s as i16;
    if v > 255 {
        255
    } else if v < 0 {
        0
    } else {
        v as u8
    }
}

/// Shifts the brightness of every pixel in the block of `width` by `height`
/// pixels whose top-left corner is `(start_x, start_y)`, clipped to the image.
pub fn shift_lightness(
    img: &mut Raster,
    start_x: usize,
    start_y: usize,
    width: usize,
    height: usize,
    shift_amount: i8,
)
    requires
        old(img).wf(),
    ensures
        final(img).wf(),
        final(img).width == old(img).width,
        final(img).height == old(img).height,
        final(img).channels == old(img).channels,
        forall|k: int|
            0 <= k < final(img).data@.len() ==> #[trigger] final(img).data@[k] == if start_x
                <= col_of(k, old(img).width as int, old(img).channels as int) < start_x + width
                && start_y <= row_of(k, old(img).width as int, old(img).channels as int)
                < start_y + height {
                shift_spec(old(img).data@[k], shift_amount)
            } else {
                old(img).data@[k]
            },
{
    let ghost w = img.width as int;
    let ghost ch = img.channels as int;
    let end_x: usize = if start_x >= img.width {
        start_x
    } else if width <= img.width - start_x {
        start_x + width
    } else {
        img.width
    };
    let end_y: usize = if start_y >= img.height {
        start_y
    } else if height <= img.height - start_y {
        start_y + height
    } else {
        img.height
    };
    assert(forall|k: int|
        0 <= k < img.data@.len() ==> 0 <= #[trigger] col_of(k, w, ch) < w && 0 <= row_of(k, w, ch)
            < img.height) by {
        assert forall|k: int| 0 <= k < img.data@.len() implies 0 <= #[trigger] col_of(k, w, ch) < w && 0
            <= row_of(k, w, ch) < img.height by {
            lemma_position_in_image(k, w, img.height as int, ch);
        }
    }
    let mut y: usize = start_y;
    while y < end_y
        invariant
            img.wf(),
            img.width == old(img).width,
            img.height == old(img).height,
            img.channels == old(img).channels,
            w == img.width,
            ch == img.channels,
            img.data@.len() == old(img).data@.len(),
            start_y <= y,
            start_y <= end_y,
            y <= end_y,
            start_x <= end_x,
            end_y <= img.height || end_y == start_y,
            end_x <= img.width || end_x == start_x,
            forall|k: int|
                0 <= k < img.data@.len() ==> 0 <= #[trigger] col_of(k, w, ch) < w && 0 <= row_of(k, w, ch)
                    < img.height,
            end_x == (if start_x >= w {
                start_x as int
            } else if start_x + width <= w {
                start_x + width
            } else {
                w
            }),
            end_y == (if start_y >= img.height {
                start_y as int
            } else if start_y + height <= img.height {
                start_y + height
            } else {
                img.height as int
            }),
            forall|k: int|
                0 <= k < img.data@.len() ==> #[trigger] img.data@[k] == if start_x <= col_of(
                    k,
                    w,
                    ch,
                ) < end_x && start_y <= row_of(k, w, ch) < y {
                    shift_spec(old(img).data@[k], shift_amount)
                } else {
                    old(img).data@[k]
                },
        decreases end_y - y,
    {
        let mut x: usize = start_x;
        while x < end_x
            invariant
                img.wf(),
                img.width == old(img).width,
                img.height == old(img).height,
                img.channels == old(img).channels,
                w == img.width,
                ch == img.channels,
                img.data@.len() == old(img).data@.len(),
                start_x <= x,
                x <= end_x,
                start_x <= end_x,
                start_y <= y < end_y,
                end_y <= img.height,
                end_x <= img.width || end_x == start_x,
                forall|k: int|
                    0 <= k < img.data@.len() ==> #[trigger] img.data@[k] == if (start_x <= col_of(
                        k,
                        w,
                        ch,
                    ) < end_x && start_y <= row_of(k, w, ch) < y) || (start_x <= col_of(k, w, ch)
                        < x && row_of(k, w, ch) == y) {
                        shift_spec(old(img).data@[k], shift_amount)
                    } else {
                        old(img).data@[k]
                    },
            decreases end_x - x,
        {
            let ghost before = img.data@;
            map_pixel(img, x, y, PixelOp::Shift(shift_amount));
            proof {
                assert forall|k: int| 0 <= k < img.data@.len() implies #[trigger] img.data@[k]
                    == if (start_x <= col_of(k, w, ch) < end_x && start_y <= row_of(k, w, ch) < y)
                    || (start_x <= col_of(k, w, ch) < x + 1 && row_of(k, w, ch) == y) {
                    shift_spec(old(img).data@[k], shift_amount)
                } else {
                    old(img).data@[k]
                } by {
                    lemma_pixel_coords(k, w, ch, x as int, y as int);
                    assert(before[k] == img.data@[k] || k / ch == y * w + x);
                }
            }
            x = x + 1;
        }
        y = y + 1;
    }
}

/// Elevation of cell `(x, y)`.
pub fn height_at(hm: &Heightmap, x: usize, y: usize) -> (r: u8)
    requires
        hm.wf(),
        x < hm.width,
        y < hm.height,
    ensures
        r == hm.at(x as int, y as int),
{
    let n = hm.cells.len();
    proof {
        lemma_mixed_radix(y as int, x as int, hm.width as int, hm.height as int);
        assert(hm.height * hm.width == hm.width * hm.height) by (nonlinear_arith);
        assert(y * hm.width + x < n);
    }
    hm.cells[calc_2d_index(x, hm.width, y)]
}

/// How the right-hand neighbour of cell `(hmx, hmy)` compares to it.
fn height_change_x(hmx: usize, hmy: usize, heightmap: &Heightmap) -> (r: Direction)
    requires
        heightmap.wf(),
        hmx + 1 < heightmap.width,
        hmy < heightmap.height,
    ensures
        r == dir_spec(heightmap.at(hmx as int, hmy as int), heightmap.at(hmx + 1, hmy as int)),
{
    let cmp_point = height_at(heightmap, hmx + 1, hmy);
    let left_point = height_at(heightmap, hmx, hmy);
    dir(left_point, cmp_point)
}

/// How the neighbour below cell `(hmx, hmy)` compares to it.
fn height_change_y(hmx: usize, hmy: usize, heightmap: &Heightmap) -> (r: Direction)
    requires
        heightmap.wf(),
        hmx < heightmap.width,
        hmy + 1 < heightmap.height,
    ensures
        r == dir_spec(heightmap.at(hmx as int, hmy as int), heightmap.at(hmx as int, hmy + 1)),
{
    let cmp_point = height_at(heightmap, hmx, hmy + 1);
    let up_point = height_at(heightmap, hmx, hmy);
    dir(up_point, cmp_point)
}

/// Relief shading: each tile pixel `(x, y)` is lightened or darkened by
/// comparing heightmap cell `(x, y)` with its right-hand neighbour and then
/// with the neighbour below it.
pub fn draw_shading(heightmap: &Heightmap, tile: &mut Raster, strength: i8)
    requires
        heightmap.wf(),
        old(tile).wf(),
        heightmap.width > old(tile).width,
        heightmap.height > old(tile).height,
        strength > 0,
    ensures
        final(tile).wf(),
        final(tile).width == old(tile).width,
        final(tile).height == old(tile).height,
        final(tile).channels == old(tile).channels,
        forall|k: int|
            0 <= k < final(tile).data@.len() ==> #[trigger] final(tile).data@[k] == shade_value(
                old(tile).data@[k],
                *heightmap,
                col_of(k, old(tile).width as int, old(tile).channels as int),
                row_of(k, old(tile).width as int, old(tile).channels as int),
                strength,
            ),
{
    let tile_scale: usize = 1;
    let w = tile.width;
    let h = tile.height;
    let ghost ch = tile.channels as int;
    assert forall|k: int| 0 <= k < tile.data@.len() implies 0 <= #[trigger] col_of(k, w as int, ch)
        < w && 0 <= row_of(k, w as int, ch) < h by {
        lemma_position_in_image(k, w as int, h as int, ch);
    }
    let mut y: usize = 0;
    while y < h
        invariant
            tile.wf(),
            tile.width == w,
            tile.height == h,
            w == old(tile).width,
            h == old(tile).height,
            ch == tile.channels,
            ch == old(tile).channels,
            tile.data@.len() == old(tile).data@.len(),
            heightmap.wf(),
            heightmap.width > w,
            heightmap.height > h,
            strength > 0,
            tile_scale == 1,
            y <= h,
            forall|k: int|
                0 <= k < tile.data@.len() ==> 0 <= #[trigger] col_of(k, w as int, ch) < w && 0
                    <= row_of(k, w as int, ch) < h,
            forall|k: int|
                0 <= k < tile.data@.len() ==> #[trigger] tile.data@[k] == if row_of(k, w as int, ch)
                    < y {
                    shade_value(
                        old(tile).data@[k],
                        *heightmap,
                        col_of(k, w as int, ch),
                        row_of(k, w as int, ch),
                        strength,
                    )
                } else {
                    old(tile).data@[k]
                },
        decreases h - y,
    {
        let mut x: usize = 0;
        while x < w
            invariant
                tile.wf(),
                tile.width == w,
                tile.height == h,
                w == old(tile).width,
                h == old(tile).height,
                ch == tile.channels,
                ch == old(tile).channels,
                tile.data@.len() == old(tile).data@.len(),
                heightmap.wf(),
                heightmap.width > w,
                heightmap.height > h,
                strength > 0,
                tile_scale == 1,
                y < h,
                x <= w,
                forall|k: int|
                    0 <= k < tile.data@.len() ==> 0 <= #[trigger] col_of(k, w as int, ch) < w && 0
                        <= row_of(k, w as int, ch) < h,
                forall|k: int|
                    0 <= k < tile.data@.len() ==> #[trigger] tile.data@[k] == if row_of(
                        k,
                        w as int,
                        ch,
                    ) < y || (row_of(k, w as int, ch) == y && col_of(k, w as int, ch) < x) {
                        shade_value(
                            old(tile).data@[k],
                            *heightmap,
                            col_of(k, w as int, ch),
                            row_of(k, w as int, ch),
                            strength,
                        )
                    } else {
                        old(tile).data@[k]
                    },
            decreases w - x,
        {
            let ghost before = tile.data@;
            let ax = shade_amount_of(height_change_x(x, y, heightmap), strength);
            shift_lightness(tile, x, y, tile_scale, tile_scale, ax);
            let ghost middle = tile.data@;
            let ay = shade_amount_of(height_change_y(x, y, heightmap), strength);
            shift_lightness(tile, x, y, tile_scale, tile_scale, ay);
            assert(ax == shade_x(*heightmap, x as int, y as int, strength));
            assert(ay == shade_y(*heightmap, x as int, y as int, strength));
            assert forall|k: int| 0 <= k < tile.data@.len() implies #[trigger] tile.data@[k] == if
            row_of(k, w as int, ch) < y || (row_of(k, w as int, ch) == y && col_of(k, w as int, ch)
                < x + 1) {
                shade_value(
                    old(tile).data@[k],
                    *heightmap,
                    col_of(k, w as int, ch),
                    row_of(k, w as int, ch),
                    strength,
                )
            } else {
                old(tile).data@[k]
            } by {
                assert(middle[k] == if col_of(k, w as int, ch) == x && row_of(k, w as int, ch) == y {
                    shift_spec(before[k], ax)
                } else {
                    before[k]
                });
            }
            x = x + 1;
        }
        y = y + 1;
    }
}

/// Where the cell to the left of a pixel's right-hand comparison is strictly
/// lower than its neighbour, that comparison lightens the pixel by the
/// stroke-scaled step; with no vertical change the pixel ends exactly that
/// much brighter, saturating at 255.
pub proof fn lemma_lower_left_lightens(p: u8, hm: Heightmap, x: int, y: int, stroke: i8)
    requires
        stroke > 0,
        hm.at(x, y) < hm.at(x + 1, y),
    ensures
        shade_x(hm, x, y, stroke) == shade_step(stroke, cap_i8(hm.at(x + 1, y) - hm.at(x, y))),
        shade_x(hm, x, y, stroke) > 0,
        shift_spec(p, shade_x(hm, x, y, stroke)) >= p,
        hm.at(x, y) == hm.at(x, y + 1) ==> shade_value(p, hm, x, y, stroke) == sat_u8(
            p + shade_step(stroke, cap_i8(hm.at(x + 1, y) - hm.at(x, y))),
        ),
{
    let n = cap_i8(hm.at(x + 1, y) - hm.at(x, y));
    assert(n >= 1);
    assert(n / stroke >= 0) by {
        vstd::arithmetic::div_mod::lemma_div_pos_is_pos(n as int, stroke as int);
    }
}

} // verus!
