use vstd::prelude::*;

use crate::raster::{
    calc_2d_index, chan_of, col_of, lemma_mixed_radix, lemma_pixel_coords, lemma_position_in_image,
    map_pixel, row_of, Heightmap, PixelOp, Raster,
};

verus! {

/// Whether cell `(x, y)` lies below `level`.
pub open spec fn below(hm: Heightmap, level: u8, x: int, y: int) -> bool {
    hm.at(x, y) < level
}

/// Whether `level` is crossed at tile pixel `(x, y)`: heightmap cell
/// `(x + 1, y + 1)` lies on another side of it than the cell above or the
/// cell to its left.
pub open spec fn crossing(hm: Heightmap, level: u8, x: int, y: int) -> bool {
    below(hm, level, x + 1, y + 1) != below(hm, level, x + 1, y) || below(hm, level, x + 1, y + 1)
        != below(hm, level, x, y + 1)
}

/// Whether any of `levels` is crossed at tile pixel `(x, y)`.
pub open spec fn crosses_any(hm: Heightmap, levels: Seq<u8>, x: int, y: int) -> bool
    decreases levels.len(),
{
    if levels.len() == 0 {
        false
    } else {
        crosses_any(hm, levels.drop_last(), x, y) || crossing(hm, levels.last(), x, y)
    }
}

/// Value that marking a pixel gives channel `c`: the alpha channel, if the
/// layout has one, gets `alpha`; the others get `brightness`.
pub open spec fn paint(c: int, channels: int, brightness: u8, alpha: u8) -> u8 {
    if (channels == 2 || channels == 4) && c == channels - 1 {
        alpha
    } else {
        brightness
    }
}

/// Levels `v + offset` for `v = from, from + frequency, ...` while the level
/// is at most 255.
pub open spec fn levels_from(from: int, frequency: int, offset: int) -> Seq<u8>
    decreases (if from <= 255 {
        256 - from
    } else {
        0
    }),
{
    if frequency <= 0 || from > 255 || from + offset > 255 {
        Seq::empty()
    } else {
        seq![(from + offset) as u8] + levels_from(from + frequency, frequency, offset)
    }
}

/// Contour levels every `frequency` steps, aligned so that `start` is one of them.
pub open spec fn contour_levels_spec(start: u8, frequency: u8) -> Seq<u8> {
    levels_from(0, frequency as int, (start % frequency) as int)
}

/// `2` to the power `e`.
pub open spec fn exp2(e: nat) -> nat
    decreases e,
{
    if e == 0 {
        1
    } else {
        2 * exp2((e - 1) as nat)
    }
}

/// Magnitude of a zoom level.
pub open spec fn zoom_abs(zoom: i32) -> nat {
    if zoom < 0 {
        (-zoom) as nat
    } else {
        zoom as nat
    }
}

/// Spacing of the coarser contour tier for a zoom factor `scale`
/// (`2^|zoom|`): 15 levels per factor, at least 30, at most 255.
pub open spec fn spacing_spec(scale: int) -> u8 {
    if 15 * scale > 255 {
        255
    } else if 15 * scale < 30 {
        30
    } else {
        (15 * scale) as u8
    }
}

/// Spacing of the coarser contour tier at `zoom`: 30 near zoom 0, doubling
/// with each further step in either direction, capped at 255.
pub open spec fn contour_frequency_spec(zoom: i32) -> u8 {
    spacing_spec(exp2(zoom_abs(zoom)) as int)
}

/// Pixel bytes of a contour tile drawn over `hm` at spacing `frequency`:
/// dense lines where a level of the finer tier is crossed, bright lines where
/// one of the coarser tier is, transparent elsewhere.
pub open spec fn contour_byte(hm: Heightmap, frequency: u8, k: int) -> u8 {
    let x = col_of(k, 256, 2);
    let y = row_of(k, 256, 2);
    if crosses_any(hm, contour_levels_spec(62, frequency), x, y) {
        paint(chan_of(k, 2), 2, 80, 255)
    } else if crosses_any(hm, contour_levels_spec(62, frequency / 3), x, y) {
        paint(chan_of(k, 2), 2, 30, 255)
    } else {
        0
    }
}

/// Writes into `buf` whether each height of `map` lies below `target_height`.
pub fn higher_lower(map: &[u8], target_height: u8, buf: &mut Vec<bool>)
    ensures
        final(buf)@.len() == map@.len(),
        forall|i: int| 0 <= i < map@.len() ==> #[trigger] final(buf)@[i] == (map@[i] < target_height),
{
    buf.clear();
    let mut i: usize = 0;
    while i < map.len()
        invariant
            i <= map@.len(),
            buf@.len() == i,
            forall|j: int| 0 <= j < i ==> #[trigger] buf@[j] == (map@[j] < target_height),
        decreases map@.len() - i,
    {
        buf.push(map[i] < target_height);
        i = i + 1;
    }
}

/// Generates the levels `start % frequency, start % frequency + frequency, ...`
/// up to 255.
pub fn contour_levels(start_levels: u8, frequency: u8) -> (r: Vec<u8>)
    requires
        frequency > 0,
    ensures
        r@ == contour_levels_spec(start_levels, frequency),
{
    let offset: u8 = start_levels % frequency;
    let mut r: Vec<u8> = Vec::new();
    let mut v: u16 = 0;
    while v + offset as u16 <= 255
        invariant
            frequency > 0,
            v <= 255 + 255,
            r@ + levels_from(v as int, frequency as int, offset as int) == levels_from(
                0,
                frequency as int,
                offset as int,
            ),
        decreases 511 - v,
    {
        proof {
            assert(r@.push((v + offset) as u8) + levels_from(
                v + frequency,
                frequency as int,
                offset as int,
            ) == r@ + levels_from(v as int, frequency as int, offset as int));
        }
        r.push((v + offset as u16) as u8);
        v = v + frequency as u16;
    }
    proof {
        assert(levels_from(v as int, frequency as int, offset as int) == Seq::<u8>::empty());
        assert(r@ + Seq::<u8>::empty() == r@);
    }
    r
}

/// `2` to the power `e`.
pub fn pow2_u32(e: u32) -> (r: u32)
    requires
        e < 32,
    ensures
        r == exp2(e as nat),
{
    let mut r: u32 = 1;
    let mut i: u32 = 0;
    while i < e
        invariant
            i <= e < 32,
            r == exp2(i as nat),
        decreases e - i,
    {
        proof {
            lemma_exp2_mono((i + 1) as nat, 31);
            lemma_exp2_31();
        }
        r = r * 2;
        i = i + 1;
    }
    r
}

pub proof fn lemma_exp2_mono(a: nat, b: nat)
    requires
        a <= b,
    ensures
        1 <= exp2(a) <= exp2(b),
    decreases b,
{
    if b > a {
        lemma_exp2_mono(a, (b - 1) as nat);
    } else if a > 0 {
        lemma_exp2_mono((a - 1) as nat, (a - 1) as nat);
    }
}

proof fn lemma_exp2_31()
    ensures
        exp2(31) == 0x8000_0000,
{
    reveal_with_fuel(exp2, 32);
}

/// Applies `zoomed_out` to `2^|zoom|` when `zoom` is negative and
/// `zoomed_in` to it otherwise.
pub fn zoom_calc<F1, F2, T>(zoom: i32, zoomed_in: F1, zoomed_out: F2) -> (r: T) where
    F1: Fn(u32) -> T,
    F2: Fn(u32) -> T,

    requires
        -32 < zoom < 32,
        zoom < 0 ==> zoomed_out.requires((exp2(zoom_abs(zoom)) as u32,)),
        zoom >= 0 ==> zoomed_in.requires((exp2(zoom_abs(zoom)) as u32,)),
    ensures
        zoom < 0 ==> zoomed_out.ensures((exp2(zoom_abs(zoom)) as u32,), r),
        zoom >= 0 ==> zoomed_in.ensures((exp2(zoom_abs(zoom)) as u32,), r),
{
    let magnitude: u32 = if zoom < 0 {
        (-zoom) as u32
    } else {
        zoom as u32
    };
    let scale = pow2_u32(magnitude);
    proof {
        lemma_exp2_mono(zoom_abs(zoom), 31);
        lemma_exp2_31();
    }
    if zoom < 0 {
        zoomed_out(scale)
    } else {
        zoomed_in(scale)
    }
}

fn spacing(scale: u32) -> (f: u8)
    ensures
        f == spacing_spec(scale as int),
{
    if scale > 17 {
        255
    } else if scale < 2 {
        30
    } else {
        (15 * scale) as u8
    }
}

/// Spacing of the coarser contour tier at `zoom`.
pub fn contour_frequency(zoom: i32) -> (r: u8)
    requires
        -32 < zoom < 32,
    ensures
        r == contour_frequency_spec(zoom),
        r >= 30,
{
    let r = zoom_calc(zoom, spacing, spacing);
    proof {
        lemma_exp2_mono(zoom_abs(zoom), 31);
        lemma_exp2_31();
    }
    r
}

/// The contour spacing never shrinks as the zoom level moves away from 0,
/// in either direction.
pub proof fn lemma_spacing_grows_with_zoom(a: i32, b: i32)
    requires
        zoom_abs(a) <= zoom_abs(b),
    ensures
        contour_frequency_spec(a) <= contour_frequency_spec(b),
{
    lemma_exp2_mono(zoom_abs(a), zoom_abs(b));
}

/// Draws contour lines: every tile pixel at which one of `levels` is crossed
/// gets `brightness` in its colour channels and `alpha` in its alpha channel.
///
/// The heightmap must begin one cell left of and above the tile.
pub fn draw_contours(
    heightmap: &Heightmap,
    levels: &Vec<u8>,
    tile: &mut Raster,
    brightness: u8,
    alpha: u8,
)
    requires
        heightmap.wf(),
        old(tile).wf(),
        heightmap.width > old(tile).width,
        heightmap.height > old(tile).height,
    ensures
        final(tile).wf(),
        final(tile).width == old(tile).width,
        final(tile).height == old(tile).height,
        final(tile).channels == old(tile).channels,
        forall|k: int|
            0 <= k < final(tile).data@.len() ==> #[trigger] final(tile).data@[k] == if crosses_any(
                *heightmap,
                levels@,
                col_of(k, old(tile).width as int, old(tile).channels as int),
                row_of(k, old(tile).width as int, old(tile).channels as int),
            ) {
                paint(chan_of(k, old(tile).channels as int), old(tile).channels as int, brightness, alpha)
            } else {
                old(tile).data@[k]
            },
{
    let mut map: Vec<bool> = Vec::new();
    let hw = heightmap.width;
    let ghost hh = heightmap.height as int;
    let w = tile.width;
    let h = tile.height;
    let ghost ch = tile.channels as int;
    assert forall|k: int| 0 <= k < tile.data@.len() implies 0 <= #[trigger] col_of(k, w as int, ch)
        < w && 0 <= row_of(k, w as int, ch) < h by {
        lemma_position_in_image(k, w as int, h as int, ch);
    }
    let mut li: usize = 0;
    while li < levels.len()
        invariant
            tile.wf(),
            tile.width == w,
            tile.height == h,
            w == old(tile).width,
            h == old(tile).height,
            ch == tile.channels,
            ch == old(tile).channels,
            tile.data@.len() == old(tile).data@.len(),
            heightmap.wf(),
            hw == heightmap.width,
            hh == heightmap.height,
            hw > w,
            hh > h,
            li <= levels@.len(),
            forall|k: int|
                0 <= k < tile.data@.len() ==> 0 <= #[trigger] col_of(k, w as int, ch) < w && 0
                    <= row_of(k, w as int, ch) < h,
            forall|k: int|
                0 <= k < tile.data@.len() ==> #[trigger] tile.data@[k] == if crosses_any(
                    *heightmap,
                    levels@.subrange(0, li as int),
                    col_of(k, w as int, ch),
                    row_of(k, w as int, ch),
                ) {
                    paint(chan_of(k, ch), ch, brightness, alpha)
                } else {
                    old(tile).data@[k]
                },
        decreases levels@.len() - li,
    {
        let level = levels[li];
        higher_lower(heightmap.cells.as_slice(), level, &mut map);
        let ghost prefix = levels@.subrange(0, li as int);
        let mut y: usize = 0;
        while y < h
            invariant
                tile.wf(),
                tile.width == w,
                tile.height == h,
                w == old(tile).width,
                h == old(tile).height,
                ch == tile.channels,
                ch == old(tile).channels,
                tile.data@.len() == old(tile).data@.len(),
                heightmap.wf(),
                hw == heightmap.width,
                hh == heightmap.height,
                hw > w,
                hh > h,
                y <= h,
                map@.len() == heightmap.cells@.len(),
                forall|i: int|
                    0 <= i < map@.len() ==> #[trigger] map@[i] == (heightmap.cells@[i] < level),
                forall|k: int|
                    0 <= k < tile.data@.len() ==> 0 <= #[trigger] col_of(k, w as int, ch) < w && 0
                        <= row_of(k, w as int, ch) < h,
                forall|k: int|
                    0 <= k < tile.data@.len() ==> #[trigger] tile.data@[k] == if crosses_any(
                        *heightmap,
                        prefix,
                        col_of(k, w as int, ch),
                        row_of(k, w as int, ch),
                    ) || (row_of(k, w as int, ch) < y && crossing(
                        *heightmap,
                        level,
                        col_of(k, w as int, ch),
                        row_of(k, w as int, ch),
                    )) {
                        paint(chan_of(k, ch), ch, brightness, alpha)
                    } else {
                        old(tile).data@[k]
                    },
            decreases h - y,
        {
            let mut x: usize = 0;
            while x < w
                invariant
                    tile.wf(),
                    tile.width == w,
                    tile.height == h,
                    w == old(tile).width,
                    h == old(tile).height,
                    ch == tile.channels,
                    ch == old(tile).channels,
                    tile.data@.len() == old(tile).data@.len(),
                    heightmap.wf(),
                    hw == heightmap.width,
                    hh == heightmap.height,
                    hw > w,
                    hh > h,
                    y < h,
                    x <= w,
                    map@.len() == heightmap.cells@.len(),
                    forall|i: int|
                        0 <= i < map@.len() ==> #[trigger] map@[i] == (heightmap.cells@[i] < level),
                    forall|k: int|
                        0 <= k < tile.data@.len() ==> 0 <= #[trigger] col_of(k, w as int, ch) < w
                            && 0 <= row_of(k, w as int, ch) < h,
                    forall|k: int|
                        0 <= k < tile.data@.len() ==> #[trigger] tile.data@[k] == if crosses_any(
                            *heightmap,
                            prefix,
                            col_of(k, w as int, ch),
                            row_of(k, w as int, ch),
                        ) || ((row_of(k, w as int, ch) < y || (row_of(k, w as int, ch) == y
                            && col_of(k, w as int, ch) < x)) && crossing(
                            *heightmap,
                            level,
                            col_of(k, w as int, ch),
                            row_of(k, w as int, ch),
                        )) {
                            paint(chan_of(k, ch), ch, brightness, alpha)
                        } else {
                            old(tile).data@[k]
                        },
                decreases w - x,
            {
                let map_len = map.len();
                proof {
                    lemma_mixed_radix(y + 1, x + 1, hw as int, hh);
                    lemma_mixed_radix(y as int, x + 1, hw as int, hh);
                    lemma_mixed_radix(y + 1, x as int, hw as int, hh);
                    assert(hh * hw == hw * hh) by (nonlinear_arith);
                }
                let this_pixel = map[calc_2d_index(x + 1, hw, y + 1)];
                let above_pixel = map[calc_2d_index(x + 1, hw, y)];
                let left_pixel = map[calc_2d_index(x, hw, y + 1)];
                let ghost before = tile.data@;
                let marked = this_pixel != above_pixel || this_pixel != left_pixel;
                assert(marked == crossing(*heightmap, level, x as int, y as int));
                if marked {
                    map_pixel(tile, x, y, PixelOp::Paint(brightness, alpha));
                    assert forall|k: int| 0 <= k < tile.data@.len() implies #[trigger] tile.data@[k]
                        == if crosses_any(
                        *heightmap,
                        prefix,
                        col_of(k, w as int, ch),
                        row_of(k, w as int, ch),
                    ) || ((row_of(k, w as int, ch) < y || (row_of(k, w as int, ch) == y && col_of(
                        k,
                        w as int,
                        ch,
                    ) < x + 1)) && crossing(
                        *heightmap,
                        level,
                        col_of(k, w as int, ch),
                        row_of(k, w as int, ch),
                    )) {
                        paint(chan_of(k, ch), ch, brightness, alpha)
                    } else {
                        old(tile).data@[k]
                    } by {
                        lemma_pixel_coords(k, w as int, ch, x as int, y as int);
                    }
                } else {
                    assert forall|k: int| 0 <= k < tile.data@.len() implies #[trigger] tile.data@[k]
                        == if crosses_any(
                        *heightmap,
                        prefix,
                        col_of(k, w as int, ch),
                        row_of(k, w as int, ch),
                    ) || ((row_of(k, w as int, ch) < y || (row_of(k, w as int, ch) == y && col_of(
                        k,
                        w as int,
                        ch,
                    ) < x + 1)) && crossing(
                        *heightmap,
                        level,
                        col_of(k, w as int, ch),
                        row_of(k, w as int, ch),
                    )) {
                        paint(chan_of(k, ch), ch, brightness, alpha)
                    } else {
                        old(tile).data@[k]
                    } by {
                        lemma_pixel_coords(k, w as int, ch, x as int, y as int);
                    }
                }
                x = x + 1;
            }
            y = y + 1;
        }
        proof {
            assert(levels@.subrange(0, li + 1).drop_last() == prefix);
            assert(levels@.subrange(0, li + 1).last() == level);
        }
        li = li + 1;
    }
    proof {
        assert(levels@.subrange(0, levels@.len() as int) == levels@);
    }
}

/// The contour overlay of one tile: a transparent gray-and-alpha tile with
/// the finer tier of levels drawn dim and the coarser tier drawn bright over it.
pub fn contour_tile(heightmap: &Heightmap, zoom: i32) -> (r: Raster)
    requires
        heightmap.wf(),
        heightmap.width > 256,
        heightmap.height > 256,
        -32 < zoom < 32,
    ensures
        r.wf(),
        r.width == 256,
        r.height == 256,
        r.channels == 2,
        forall|k: int|
            0 <= k < r.data@.len() ==> #[trigger] r.data@[k] == contour_byte(
                *heightmap,
                contour_frequency_spec(zoom),
                k,
            ),
{
    let start_level: u8 = 62;
    let frequency = contour_frequency(zoom);
    let mut tile = Raster::filled(256, 256, 2, 0);
    let fine = contour_levels(start_level, frequency / 3);
    draw_contours(heightmap, &fine, &mut tile, 30, 255);
    let coarse = contour_levels(start_level, frequency);
    draw_contours(heightmap, &coarse, &mut tile, 80, 255);
    tile
}

/// `k` steps of `frequency`.
pub open spec fn multiple(k: int, frequency: int) -> int {
    k * frequency
}

proof fn lemma_levels_from(from: int, frequency: int, offset: int)
    requires
        frequency > 0,
        0 <= from,
        0 <= offset,
    ensures
        forall|k: int|
            0 <= k < levels_from(from, frequency, offset).len() ==> #[trigger] levels_from(
                from,
                frequency,
                offset,
            )[k] == from + k * frequency + offset,
        from + levels_from(from, frequency, offset).len() * frequency + offset > 255,
        forall|k: int|
            0 <= k && from + #[trigger] multiple(k, frequency) + offset <= 255 ==> k < levels_from(
                from,
                frequency,
                offset,
            ).len(),
    decreases (if from <= 255 {
        256 - from
    } else {
        0
    }),
{
    let s = levels_from(from, frequency, offset);
    if from > 255 || from + offset > 255 {
        assert forall|k: int| 0 <= k && from + #[trigger] multiple(k, frequency) + offset <= 255 implies k
            < s.len() by {
            assert(k * frequency >= 0) by (nonlinear_arith)
                requires
                    k >= 0,
                    frequency > 0,
            ;
        }
    } else {
        let rest = levels_from(from + frequency, frequency, offset);
        lemma_levels_from(from + frequency, frequency, offset);
        assert(s == seq![(from + offset) as u8] + rest);
        assert forall|k: int| 0 <= k < s.len() implies #[trigger] s[k] == from + k * frequency
            + offset by {
            if k == 0 {
                assert(s[0] == (from + offset) as u8);
                assert(0 * frequency == 0);
            } else {
                assert(s[k] == rest[k - 1]);
                assert(rest[k - 1] == (from + frequency) + (k - 1) * frequency + offset);
                assert((from + frequency) + (k - 1) * frequency == from + k * frequency)
                    by (nonlinear_arith);
            }
        }
        assert((from + frequency) + rest.len() * frequency == from + s.len() * frequency)
            by (nonlinear_arith)
            requires
                s.len() == rest.len() + 1,
        ;
        assert forall|k: int| 0 <= k && from + #[trigger] multiple(k, frequency) + offset <= 255 implies k
            < s.len() by {
            if k > 0 {
                assert(multiple(k - 1, frequency) + frequency == multiple(k, frequency))
                    by (nonlinear_arith);
                assert((from + frequency) + multiple(k - 1, frequency) + offset <= 255);
                assert(k - 1 < rest.len());
            }
        }
    }
}

/// The contour levels start at `start % frequency` and rise by `frequency`,
/// one for every level up to 255, so that the whole byte range is covered
/// and `start` itself is one of them.
pub proof fn lemma_contour_levels(start: u8, frequency: u8)
    requires
        frequency > 0,
    ensures
        forall|k: int|
            0 <= k < contour_levels_spec(start, frequency).len() ==> #[trigger] contour_levels_spec(
                start,
                frequency,
            )[k] == start % frequency + k * frequency,
        forall|k: int|
            0 <= k && start % frequency + #[trigger] multiple(k, frequency as int) <= 255 ==> k
                < contour_levels_spec(start, frequency).len(),
        start % frequency + contour_levels_spec(start, frequency).len() * frequency > 255,
        contour_levels_spec(start, frequency).contains(start),
{
    let r = (start % frequency) as int;
    let f = frequency as int;
    lemma_levels_from(0, f, r);
    let k = start / frequency;
    vstd::arithmetic::div_mod::lemma_fundamental_div_mod(start as int, f);
    assert(k * f + r == start) by (nonlinear_arith)
        requires
            start == f * (start / frequency) + start % frequency,
            k == start / frequency,
            f == frequency,
            r == start % frequency,
    ;
    assert(0 + multiple(k as int, f) + r <= 255);
    assert(contour_levels_spec(start, frequency)[k as int] == start);
}

} // verus!
