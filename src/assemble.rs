use vstd::prelude::*;

use crate::contours::{contour_byte, contour_frequency_spec, contour_tile, exp2, lemma_exp2_mono, pow2_u32};
use crate::heightmap::{
    elevation_can_fail, generate_heightmap, heightmap_sampled, hm_coord_wide, hm_fits, i32_fits,
};
use crate::raster::{chan_of, col_of, lemma_pix, pix, row_of, Heightmap, Raster};
use crate::shading::{draw_shading, shade_value};
use crate::tileprovider::TilePos;

verus! {

/// Sampling granularities of the world sampler, finest first.
#[derive(Clone, Copy, Debug, PartialEq, Eq, Hash, PartialOrd, Ord, Structural)]
pub enum Scale {
    Block,
    Quad,
    Chunk,
    QuadChunk,
    HalfRegion,
}

/// Number of sampling scales.
pub const SCALE_COUNT: usize = 5;

/// Position of a scale in the order finest to coarsest.
pub open spec fn scale_rank(s: Scale) -> nat {
    match s {
        Scale::Block => 0,
        Scale::Quad => 1,
        Scale::Chunk => 2,
        Scale::QuadChunk => 3,
        Scale::HalfRegion => 4,
    }
}

impl Scale {
    pub fn rank(&self) -> (r: usize)
        ensures
            r == scale_rank(*self),
            r < SCALE_COUNT,
    {
        match self {
            Scale::Block => 0,
            Scale::Quad => 1,
            Scale::Chunk => 2,
            Scale::QuadChunk => 3,
            Scale::HalfRegion => 4,
        }
    }
}

/// A horizontal slice of the world to sample: origin `(x, y, z)`, extent
/// `size_x` by `size_z` samples at `scale`.
#[derive(Clone, Copy, Debug, PartialEq, Eq, Structural)]
pub struct Region {
    pub scale: Scale,
    pub x: i32,
    pub y: i32,
    pub z: i32,
    pub size_x: u32,
    pub size_z: u32,
}

/// How a tile is made at a zoom level.
#[derive(Clone, Copy, Debug, PartialEq, Eq, Structural)]
pub enum TileStrategy {
    /// One sample per pixel at this scale.
    Direct(Scale),
    /// Four quadrants at this scale, each sampled at twice the pixel density
    /// and reduced 2:1.
    Stitch(Scale),
    /// A square of this many block samples, magnified to the tile.
    Magnify(u32),
}

/// Altitude of the slice that tiles show.
pub const SAMPLE_ALTITUDE: i32 = 320;

pub open spec fn strategy_spec(zoom: i32) -> Option<TileStrategy> {
    if zoom == -8 {
        Some(TileStrategy::Direct(Scale::HalfRegion))
    } else if zoom == -7 {
        Some(TileStrategy::Stitch(Scale::QuadChunk))
    } else if zoom == -6 {
        Some(TileStrategy::Direct(Scale::QuadChunk))
    } else if zoom == -5 {
        Some(TileStrategy::Stitch(Scale::Chunk))
    } else if zoom == -4 {
        Some(TileStrategy::Direct(Scale::Chunk))
    } else if zoom == -3 {
        Some(TileStrategy::Stitch(Scale::Quad))
    } else if zoom == -2 {
        Some(TileStrategy::Direct(Scale::Quad))
    } else if zoom == -1 {
        Some(TileStrategy::Stitch(Scale::Block))
    } else if zoom == 0 {
        Some(TileStrategy::Direct(Scale::Block))
    } else if 1 <= zoom <= 8 {
        Some(TileStrategy::Magnify((256nat / exp2(zoom as nat)) as u32))
    } else {
        None
    }
}

/// The strategy for `zoom`; none outside `[-8, 8]`.
pub fn tile_strategy(zoom: i32) -> (r: Option<TileStrategy>)
    ensures
        r == strategy_spec(zoom),
        r.is_none() <==> (zoom < -8 || zoom > 8),
{
    match zoom {
        -8 => Some(TileStrategy::Direct(Scale::HalfRegion)),
        -7 => Some(TileStrategy::Stitch(Scale::QuadChunk)),
        -6 => Some(TileStrategy::Direct(Scale::QuadChunk)),
        -5 => Some(TileStrategy::Stitch(Scale::Chunk)),
        -4 => Some(TileStrategy::Direct(Scale::Chunk)),
        -3 => Some(TileStrategy::Stitch(Scale::Quad)),
        -2 => Some(TileStrategy::Direct(Scale::Quad)),
        -1 => Some(TileStrategy::Stitch(Scale::Block)),
        0 => Some(TileStrategy::Direct(Scale::Block)),
        1..=8 => {
            let tilecount = pow2_u32(zoom as u32);
            proof {
                lemma_exp2_mono(0, zoom as nat);
            }
            Some(TileStrategy::Magnify(256 / tilecount))
        },
        _ => None,
    }
}

/// Biome colours, indexed by biome id.
#[derive(Clone, Debug)]
pub struct ColorTable {
    pub colors: Vec<[u8; 3]>,
}

impl ColorTable {
    pub open spec fn wf(&self) -> bool {
        self.colors@.len() == 256
    }

    /// Channel `c` of the colour of biome `id`.
    pub open spec fn channel(&self, id: u8, c: int) -> u8 {
        self.colors@[id as int][c]
    }

    pub fn color_of(&self, id: u8) -> (r: [u8; 3])
        requires
            self.wf(),
        ensures
            forall|c: int| 0 <= c < 3 ==> #[trigger] r[c] == self.channel(id, c),
    {
        self.colors[id as usize]
    }
}

/// Byte `k` of a square RGB raster with one pixel per sample of a
/// `size`-wide grid.
pub open spec fn grid_byte(grid: Seq<u8>, size: int, colors: ColorTable, k: int) -> u8 {
    colors.channel(grid[row_of(k, size, 3) * size + col_of(k, size, 3)], chan_of(k, 3))
}

/// The RGB bytes of a `size` by `size` grid of biome samples.
pub open spec fn grid_pixels(grid: Seq<u8>, size: int, colors: ColorTable) -> Seq<u8> {
    Seq::new((size * size * 3) as nat, |k: int| grid_byte(grid, size, colors, k))
}

/// Byte `k` of a tile stitched from four quadrant grids, quadrant
/// `(qx, qy)` being grid `2 * qx + qy`.
pub open spec fn stitch_byte(grids: Seq<Seq<u8>>, colors: ColorTable, k: int) -> u8 {
    let x = col_of(k, 256, 3);
    let y = row_of(k, 256, 3);
    let grid = grids[(x / 128) * 2 + y / 128];
    colors.channel(grid[(2 * (y % 128)) * 256 + 2 * (x % 128)], chan_of(k, 3))
}

/// The RGB bytes of a tile stitched from four quadrant grids.
pub open spec fn stitch_pixels(grids: Seq<Seq<u8>>, colors: ColorTable) -> Seq<u8> {
    Seq::new((256 * 256 * 3) as nat, |k: int| stitch_byte(grids, colors, k))
}

fn push_rgb(data: &mut Vec<u8>, rgb: [u8; 3])
    ensures
        final(data)@ == old(data)@.push(rgb[0]).push(rgb[1]).push(rgb[2]),
{
    data.push(rgb[0]);
    data.push(rgb[1]);
    data.push(rgb[2]);
}

/// Colours a `size` by `size` grid of biome ids, one pixel per sample.
pub fn get_image(grid: &Vec<u8>, size: usize, colors: &ColorTable) -> (r: Raster)
    requires
        colors.wf(),
        grid@.len() == size * size,
        size * size * 3 <= usize::MAX,
    ensures
        r.wf(),
        r.width == size,
        r.height == size,
        r.channels == 3,
        r.data@ == grid_pixels(grid@, size as int, *colors),
{
    let mut data: Vec<u8> = Vec::new();
    let mut y: usize = 0;
    while y < size
        invariant
            colors.wf(),
            grid@.len() == size * size,
            size * size * 3 <= usize::MAX,
            y <= size,
            data@.len() == y * size * 3,
            forall|j: int|
                0 <= j < data@.len() ==> #[trigger] data@[j] == grid_byte(
                    grid@,
                    size as int,
                    *colors,
                    j,
                ),
        decreases size - y,
    {
        let mut x: usize = 0;
        while x < size
            invariant
                colors.wf(),
                grid@.len() == size * size,
                size * size * 3 <= usize::MAX,
                y < size,
                x <= size,
                data@.len() == (y * size + x) * 3,
                forall|j: int|
                    0 <= j < data@.len() ==> #[trigger] data@[j] == grid_byte(
                        grid@,
                        size as int,
                        *colors,
                        j,
                    ),
            decreases size - x,
        {
            proof {
                lemma_pix(size as int, size as int, 3, x as int, y as int, 0);
                lemma_pix(size as int, size as int, 3, x as int, y as int, 1);
                lemma_pix(size as int, size as int, 3, x as int, y as int, 2);
                assert(y * size + x < size * size && size * size <= size * size * 3)
                    by (nonlinear_arith)
                    requires
                        x < size,
                        y < size,
                ;
            }
            let rgb = colors.color_of(grid[y * size + x]);
            push_rgb(&mut data, rgb);
            x = x + 1;
        }
        assert((y * size + size) * 3 == (y + 1) * size * 3) by (nonlinear_arith);
        y = y + 1;
    }
    assert(data@ =~= grid_pixels(grid@, size as int, *colors));
    Raster { width: size, height: size, channels: 3, data }
}

/// Builds a tile from four quadrant grids of 256 by 256 samples, grid
/// `2 * qx + qy` covering quadrant `(qx, qy)`: each quadrant pixel shows
/// every other sample of its grid in both directions.
pub fn concat_lower_zoom(grids: &Vec<Vec<u8>>, colors: &ColorTable) -> (r: Raster)
    requires
        colors.wf(),
        grids@.len() == 4,
        forall|i: int| 0 <= i < 4 ==> (#[trigger] grids@[i])@.len() == 256 * 256,
    ensures
        r.wf(),
        r.width == 256,
        r.height == 256,
        r.channels == 3,
        r.data@ == stitch_pixels(grid_views(grids@), *colors),
{
    let ghost views = grid_views(grids@);
    let mut data: Vec<u8> = Vec::new();
    let mut y: usize = 0;
    while y < 256
        invariant
            colors.wf(),
            grids@.len() == 4,
            forall|i: int| 0 <= i < 4 ==> (#[trigger] grids@[i])@.len() == 256 * 256,
            views == grid_views(grids@),
            y <= 256,
            data@.len() == y * 256 * 3,
            forall|j: int|
                0 <= j < data@.len() ==> #[trigger] data@[j] == stitch_byte(views, *colors, j),
        decreases 256 - y,
    {
        let mut x: usize = 0;
        while x < 256
            invariant
                colors.wf(),
                grids@.len() == 4,
                forall|i: int| 0 <= i < 4 ==> (#[trigger] grids@[i])@.len() == 256 * 256,
                views == grid_views(grids@),
                y < 256,
                x <= 256,
                data@.len() == (y * 256 + x) * 3,
                forall|j: int|
                    0 <= j < data@.len() ==> #[trigger] data@[j] == stitch_byte(views, *colors, j),
            decreases 256 - x,
        {
            proof {
                lemma_pix(256, 256, 3, x as int, y as int, 0);
                lemma_pix(256, 256, 3, x as int, y as int, 1);
                lemma_pix(256, 256, 3, x as int, y as int, 2);
            }
            let quadrant: usize = (x / 128) * 2 + y / 128;
            let sub_x: usize = x % 128;
            let sub_y: usize = y % 128;
            let id = grids[quadrant][(sub_y * 2) * 256 + sub_x * 2];
            let rgb = colors.color_of(id);
            push_rgb(&mut data, rgb);
            x = x + 1;
        }
        y = y + 1;
    }
    assert(data@ =~= stitch_pixels(views, *colors));
    Raster { width: 256, height: 256, channels: 3, data }
}

/// The sample grids as sequences.
pub open spec fn grid_views(grids: Seq<Vec<u8>>) -> Seq<Seq<u8>> {
    grids.map_values(|g: Vec<u8>| g@)
}

/// What `image::imageops::resize` with nearest-neighbour filtering makes of an
/// RGB buffer of `width` by `height` pixels at `new_width` by `new_height`.
pub uninterp spec fn nearest_resized(
    width: nat,
    height: nat,
    pixels: Seq<u8>,
    new_width: nat,
    new_height: nat,
) -> Seq<u8>;

/// Relies on `image::imageops::resize` with `FilterType::Nearest`: the result
/// is an RGB buffer of `new_width` by `new_height` pixels that depends on the
/// source pixels and the sizes alone. Magnified by a power of two, the box
/// filter of support 0 picks for output pixel `(x, y)` the single source pixel
/// at `floor((x + 0.5) / f)`, that is `(x / f, y / f)`, and keeps its bytes.
#[verifier::external_body]
fn resize_nearest(src: &Raster, new_width: u32, new_height: u32) -> (r: Vec<u8>)
    requires
        src.wf(),
        src.channels == 3,
        src.width <= u32::MAX,
        src.height <= u32::MAX,
    ensures
        r@ == nearest_resized(
            src.width as nat,
            src.height as nat,
            src.data@,
            new_width as nat,
            new_height as nat,
        ),
        r@.len() == new_width * new_height * 3,
        magnifies_by_power_of_two(src.width as nat, src.height as nat, new_width as nat, new_height as nat)
            ==> forall|k: int|
            0 <= k < r@.len() ==> #[trigger] r@[k] == src.data@[pix(
                src.width as int,
                3,
                col_of(k, new_width as int, 3) / (new_width as int / src.width as int),
                row_of(k, new_width as int, 3) / (new_height as int / src.height as int),
                chan_of(k, 3),
            )],
{
    let img = image::RgbImage::from_raw(src.width as u32, src.height as u32, src.data.clone())
        .unwrap();
    image::imageops::resize(&img, new_width, new_height, image::imageops::FilterType::Nearest)
        .into_raw()
}

/// Whether `n` is a power of two.
pub open spec fn is_pow2(n: nat) -> bool
    decreases n,
{
    if n <= 1 {
        n == 1
    } else {
        n % 2 == 0 && is_pow2(n / 2)
    }
}

/// Whether an image of `width` by `height` pixels grows to `new_width` by
/// `new_height` by a power-of-two factor in each direction, within sizes
/// whose pixel coordinates `f32` holds exactly.
pub open spec fn magnifies_by_power_of_two(
    width: nat,
    height: nat,
    new_width: nat,
    new_height: nat,
) -> bool {
    &&& 0 < width
    &&& 0 < height
    &&& new_width <= 65536
    &&& new_height <= 65536
    &&& new_width % width == 0
    &&& new_height % height == 0
    &&& is_pow2(new_width / width)
    &&& is_pow2(new_height / height)
}

/// The RGB bytes of a tile magnified from a `size` by `size` grid of block samples.
pub open spec fn magnified_pixels(grid: Seq<u8>, size: int, colors: ColorTable) -> Seq<u8> {
    nearest_resized(size as nat, size as nat, grid_pixels(grid, size, colors), 256, 256)
}

/// Colours a `size` by `size` grid of block samples and magnifies it to a
/// whole tile with nearest-neighbour resampling.
pub fn upsacale_blockscale(grid: &Vec<u8>, size: u32, colors: &ColorTable) -> (r: Raster)
    requires
        colors.wf(),
        grid@.len() == size * size,
        size * size * 3 <= usize::MAX,
    ensures
        r.wf(),
        r.width == 256,
        r.height == 256,
        r.channels == 3,
        r.data@ == magnified_pixels(grid@, size as int, *colors),
        size > 0 && 256int % (size as int) == 0 && is_pow2((256int / size as int) as nat) ==> forall|k: int|
            0 <= k < r.data@.len() ==> #[trigger] r.data@[k] == grid_byte(
                grid@,
                size as int,
                *colors,
                pix(
                    size as int,
                    3,
                    col_of(k, 256, 3) / (256int / size as int),
                    row_of(k, 256, 3) / (256int / size as int),
                    chan_of(k, 3),
                ),
            ),
{
    let small = get_image(grid, size as usize, colors);
    let data = resize_nearest(&small, 256, 256);
    proof {
        if size > 0 && 256int % (size as int) == 0 && is_pow2((256int / size as int) as nat) {
            let f = 256int / size as int;
            vstd::arithmetic::div_mod::lemma_fundamental_div_mod(256, size as int);
            assert(f * size == 256);
            assert forall|k: int| 0 <= k < data@.len() implies #[trigger] data@[k] == grid_byte(
                grid@,
                size as int,
                *colors,
                pix(
                    size as int,
                    3,
                    col_of(k, 256, 3) / f,
                    row_of(k, 256, 3) / f,
                    chan_of(k, 3),
                ),
            ) by {
                crate::raster::lemma_position_in_image(k, 256, 256, 3);
                let x = col_of(k, 256, 3);
                let y = row_of(k, 256, 3);
                let c = chan_of(k, 3);
                lemma_quotient_below(x, f, size as int);
                lemma_quotient_below(y, f, size as int);
                vstd::arithmetic::div_mod::lemma_mod_pos_bound(k, 3);
                lemma_pix(size as int, size as int, 3, x / f, y / f, c);
            }
        }
    }
    Raster { width: 256, height: 256, channels: 3, data }
}

/// A coordinate below `f * n` divided by `f` lies below `n`.
proof fn lemma_quotient_below(x: int, f: int, n: int)
    requires
        0 <= x < f * n,
        f > 0,
    ensures
        0 <= x / f < n,
{
    vstd::arithmetic::div_mod::lemma_fundamental_div_mod(x, f);
    vstd::arithmetic::div_mod::lemma_div_pos_is_pos(x, f);
    assert(x / f < n) by (nonlinear_arith)
        requires
            x == f * (x / f) + x % f,
            0 <= x % f < f,
            x < f * n,
            f > 0,
    ;
}

/// Why a tile could not be rendered.
#[derive(Clone, Copy, Debug, PartialEq, Eq, Structural)]
pub enum RenderError {
    /// The zoom level is outside `[-8, 8]`.
    NoTileForPosition,
    /// The world sampler failed or gave a grid of the wrong size.
    SamplerUnavailable,
}

/// Stroke strength of relief shading.
pub const SHADE_STROKE: i8 = 24;

/// Whether every world coordinate that rendering `pos` touches fits in an `i32`.
pub open spec fn tile_fits(pos: TilePos) -> bool {
    pos.zoom < -8 || pos.zoom > 8 || {
        &&& i32_fits(pos.x * 512)
        &&& i32_fits(pos.x * 512 + 256)
        &&& i32_fits(pos.y * 512)
        &&& i32_fits(pos.y * 512 + 256)
        &&& hm_fits(pos.x * 256, pos.zoom as int)
        &&& hm_fits(pos.y * 256, pos.zoom as int)
    }
}

/// Quadrant `(qx, qy)` of a stitched tile.
pub open spec fn quadrant_region(pos: TilePos, scale: Scale, qx: int, qy: int) -> Region {
    Region {
        scale,
        x: (pos.x * 512 + qx * 256) as i32,
        y: SAMPLE_ALTITUDE,
        z: (pos.y * 512 + qy * 256) as i32,
        size_x: 256,
        size_z: 256,
    }
}

/// The regions that `strategy` samples for `pos`, in order.
pub open spec fn regions_spec(pos: TilePos, strategy: TileStrategy) -> Seq<Region> {
    match strategy {
        TileStrategy::Direct(scale) => seq![
            Region {
                scale,
                x: (pos.x * 256) as i32,
                y: SAMPLE_ALTITUDE,
                z: (pos.y * 256) as i32,
                size_x: 256,
                size_z: 256,
            },
        ],
        TileStrategy::Stitch(scale) => seq![
            quadrant_region(pos, scale, 0, 0),
            quadrant_region(pos, scale, 0, 1),
            quadrant_region(pos, scale, 1, 0),
            quadrant_region(pos, scale, 1, 1),
        ],
        TileStrategy::Magnify(size) => seq![
            Region {
                scale: Scale::Block,
                x: (pos.x * size) as i32,
                y: SAMPLE_ALTITUDE,
                z: (pos.y * size) as i32,
                size_x: size,
                size_z: size,
            },
        ],
    }
}

/// Whether `grids` are grids that `sample` gave for `regions`, one each, of
/// the regions' sizes.
pub open spec fn sampled_as<F: Fn(Region) -> Option<Vec<u8>>>(
    sample: F,
    regions: Seq<Region>,
    grids: Seq<Vec<u8>>,
) -> bool {
    &&& grids.len() == regions.len()
    &&& forall|i: int|
        0 <= i < regions.len() ==> sample.ensures((regions[i],), Some(#[trigger] grids[i]))
            && grids[i]@.len() == regions[i].size_x * regions[i].size_z
}

/// The unshaded RGB bytes of a tile made by `strategy` from `grids`.
pub open spec fn unshaded_pixels(
    strategy: TileStrategy,
    grids: Seq<Vec<u8>>,
    colors: ColorTable,
) -> Seq<u8> {
    match strategy {
        TileStrategy::Direct(_) => grid_pixels(grids[0]@, 256, colors),
        TileStrategy::Stitch(_) => stitch_pixels(grid_views(grids), colors),
        TileStrategy::Magnify(size) => magnified_pixels(grids[0]@, size as int, colors),
    }
}

/// The RGB bytes of a 256-wide tile `base` after relief shading over `hm`.
pub open spec fn shaded_pixels(base: Seq<u8>, hm: Heightmap, stroke: i8) -> Seq<u8> {
    Seq::new(
        base.len(),
        |k: int| shade_value(base[k], hm, col_of(k, 256, 3), row_of(k, 256, 3), stroke),
    )
}

/// Whether `t` is a rendering of `pos`: a 256 by 256 RGB tile made by the
/// zoom level's strategy from grids that `sample` gave, shaded, when asked,
/// over a heightmap that `elevation` gave.
pub open spec fn rendered<F: Fn(Region) -> Option<Vec<u8>>, G: Fn(i32, i32) -> Option<u8>>(
    pos: TilePos,
    shaded: bool,
    colors: ColorTable,
    sample: F,
    elevation: G,
    t: Raster,
) -> bool {
    &&& t.wf()
    &&& t.width == 256
    &&& t.height == 256
    &&& t.channels == 3
    &&& strategy_spec(pos.zoom) is Some
    &&& exists|grids: Seq<Vec<u8>>|
        #[trigger] sampled_as(sample, regions_spec(pos, strategy_spec(pos.zoom)->0), grids) && if shaded {
            exists|hm: Heightmap|
                #[trigger] heightmap_sampled(
                    elevation,
                    pos.x * 256,
                    pos.y * 256,
                    pos.zoom as int,
                    hm,
                ) && t.data@ == shaded_pixels(
                    unshaded_pixels(strategy_spec(pos.zoom)->0, grids, colors),
                    hm,
                    SHADE_STROKE,
                )
        } else {
            t.data@ == unshaded_pixels(strategy_spec(pos.zoom)->0, grids, colors)
        }
}

/// Whether a sampler call for one of `pos`'s regions can fail or give a grid
/// of the wrong size, or, for a shaded tile, an elevation call for a cell of
/// its heightmap can fail.
pub open spec fn sampler_can_fail<F: Fn(Region) -> Option<Vec<u8>>, G: Fn(
    i32,
    i32,
) -> Option<u8>>(sample: F, elevation: G, pos: TilePos, shaded: bool) -> bool {
    let regions = regions_spec(pos, strategy_spec(pos.zoom)->0);
    (exists|i: int, out: Option<Vec<u8>>|
        0 <= i < regions.len() && #[trigger] sample.ensures((regions[i],), out) && !(out matches Some(
            v,
        ) && v@.len() == regions[i].size_x * regions[i].size_z)) || (shaded && elevation_can_fail(
        elevation,
        pos.x * 256,
        pos.y * 256,
        pos.zoom as int,
    ))
}

/// The regions that `strategy` samples for `pos`, in order.
pub fn tile_regions(pos: TilePos, strategy: TileStrategy) -> (r: Vec<Region>)
    requires
        strategy_spec(pos.zoom) == Some(strategy),
        tile_fits(pos),
    ensures
        r@ == regions_spec(pos, strategy),
{
    match strategy {
        TileStrategy::Direct(scale) => {
            let mut r: Vec<Region> = Vec::new();
            r.push(
                Region {
                    scale,
                    x: pos.x * 256,
                    y: SAMPLE_ALTITUDE,
                    z: pos.y * 256,
                    size_x: 256,
                    size_z: 256,
                },
            );
            assert(r@ =~= regions_spec(pos, strategy));
            r
        },
        TileStrategy::Stitch(scale) => {
            let mut r: Vec<Region> = Vec::new();
            let mut img_x: i32 = 0;
            while img_x <= 1
                invariant
                    tile_fits(pos),
                    -8 <= pos.zoom <= 8,
                    0 <= img_x <= 2,
                    r@.len() == 2 * img_x,
                    forall|i: int|
                        0 <= i < r@.len() ==> #[trigger] r@[i] == quadrant_region(
                            pos,
                            scale,
                            i / 2,
                            i % 2,
                        ),
                decreases 2 - img_x,
            {
                let mut img_y: i32 = 0;
                while img_y <= 1
                    invariant
                        tile_fits(pos),
                        -8 <= pos.zoom <= 8,
                        0 <= img_x <= 1,
                        0 <= img_y <= 2,
                        r@.len() == 2 * img_x + img_y,
                        forall|i: int|
                            0 <= i < r@.len() ==> #[trigger] r@[i] == quadrant_region(
                                pos,
                                scale,
                                i / 2,
                                i % 2,
                            ),
                    decreases 2 - img_y,
                {
                    r.push(
                        Region {
                            scale,
                            x: pos.x * 512 + img_x * 256,
                            y: SAMPLE_ALTITUDE,
                            z: pos.y * 512 + img_y * 256,
                            size_x: 256,
                            size_z: 256,
                        },
                    );
                    img_y = img_y + 1;
                }
                img_x = img_x + 1;
            }
            assert(r@ =~= regions_spec(pos, strategy));
            r
        },
        TileStrategy::Magnify(size) => {
            proof {
                lemma_exp2_mono(0, pos.zoom as nat);
                vstd::arithmetic::div_mod::lemma_div_is_ordered_by_denominator(256, 1, exp2(pos.zoom as nat) as int);
                assert(-(pos.x * 256) <= pos.x * size <= pos.x * 256 || -(pos.x * 256) >= pos.x * size >= pos.x * 256) by (nonlinear_arith)
                    requires 0 <= size <= 256;
                assert(-(pos.y * 256) <= pos.y * size <= pos.y * 256 || -(pos.y * 256) >= pos.y * size >= pos.y * 256) by (nonlinear_arith)
                    requires 0 <= size <= 256;
            }
            let mut r: Vec<Region> = Vec::new();
            r.push(
                Region {
                    scale: Scale::Block,
                    x: pos.x * size as i32,
                    y: SAMPLE_ALTITUDE,
                    z: pos.y * size as i32,
                    size_x: size,
                    size_z: size,
                },
            );
            assert(r@ =~= regions_spec(pos, strategy));
            r
        },
    }
}

/// Renders the tile at `pos`: samples the regions that the zoom level's
/// strategy asks for, colours them into a 256 by 256 RGB tile and, when
/// `shaded`, applies relief shading from a heightmap of the tile.
pub fn render<F: Fn(Region) -> Option<Vec<u8>>, G: Fn(i32, i32) -> Option<u8>>(
    pos: TilePos,
    shaded: bool,
    colors: &ColorTable,
    sample: &F,
    elevation: &G,
) -> (r: Result<Raster, RenderError>)
    requires
        colors.wf(),
        tile_fits(pos),
        forall|region: Region| sample.requires((region,)),
        forall|a: i32, b: i32| elevation.requires((a, b)),
    ensures
        (pos.zoom < -8 || pos.zoom > 8) <==> r matches Err(RenderError::NoTileForPosition),
        r matches Ok(t) ==> rendered(pos, shaded, *colors, *sample, *elevation, t),
        r matches Err(RenderError::SamplerUnavailable) ==> sampler_can_fail(
            *sample,
            *elevation,
            pos,
            shaded,
        ),
{
    let strategy = match tile_strategy(pos.zoom) {
        Some(s) => s,
        None => {
            return Err(RenderError::NoTileForPosition);
        },
    };
    let regions = tile_regions(pos, strategy);
    let mut grids: Vec<Vec<u8>> = Vec::new();
    let mut i: usize = 0;
    while i < regions.len()
        invariant
            forall|region: Region| sample.requires((region,)),
            regions@ == regions_spec(pos, strategy),
            strategy_spec(pos.zoom) == Some(strategy),
            -8 <= pos.zoom <= 8,
            i <= regions@.len(),
            grids@.len() == i,
            forall|j: int|
                0 <= j < i ==> sample.ensures((regions@[j],), Some(#[trigger] grids@[j]))
                    && grids@[j]@.len() == regions@[j].size_x * regions@[j].size_z,
        decreases regions@.len() - i,
    {
        let region = regions[i];
        let out = sample(region);
        match out {
            Some(g) => {
                assert(region.size_x * region.size_z <= u64::MAX) by (nonlinear_arith)
                    requires
                        region.size_x <= u32::MAX,
                        region.size_z <= u32::MAX,
                ;
                if g.len() as u64 == (region.size_x as u64) * (region.size_z as u64) {
                    grids.push(g);
                } else {
                    assert(sample.ensures((regions@[i as int],), out));
                    assert(sampler_can_fail(*sample, *elevation, pos, shaded));
                    return Err(RenderError::SamplerUnavailable);
                }
            },
            None => {
                assert(sample.ensures((regions@[i as int],), out));
                assert(sampler_can_fail(*sample, *elevation, pos, shaded));
                return Err(RenderError::SamplerUnavailable);
            },
        }
        i = i + 1;
    }
    assert(sampled_as(*sample, regions_spec(pos, strategy), grids@));
    let mut tile = match strategy {
        TileStrategy::Direct(_) => get_image(&grids[0], 256, colors),
        TileStrategy::Stitch(_) => concat_lower_zoom(&grids, colors),
        TileStrategy::Magnify(size) => {
            proof {
                lemma_exp2_mono(0, pos.zoom as nat);
                vstd::arithmetic::div_mod::lemma_div_is_ordered_by_denominator(
                    256,
                    1,
                    exp2(pos.zoom as nat) as int,
                );
            }
            assert(size * size * 3 <= 256 * 256 * 3) by (nonlinear_arith)
                requires
                    size <= 256,
            ;
            upsacale_blockscale(&grids[0], size, colors)
        },
    };
    assert(tile.data@ == unshaded_pixels(strategy, grids@, *colors));
    if shaded {
        match generate_heightmap(pos.x * 256, pos.y * 256, pos.zoom, elevation) {
            Some(hm) => {
                let ghost base = tile.data@;
                draw_shading(&hm, &mut tile, SHADE_STROKE);
                assert(tile.data@ =~= shaded_pixels(base, hm, SHADE_STROKE));
                assert(heightmap_sampled(
                    *elevation,
                    pos.x * 256,
                    pos.y * 256,
                    pos.zoom as int,
                    hm,
                ));
            },
            None => {
                assert(sampler_can_fail(*sample, *elevation, pos, shaded));
                return Err(RenderError::SamplerUnavailable);
            },
        }
    }
    Ok(tile)
}

/// Whether `sample` gives equal grids whenever it is asked for one region twice.
pub open spec fn deterministic_sampler<F: Fn(Region) -> Option<Vec<u8>>>(sample: F) -> bool {
    forall|region: Region, a: Vec<u8>, b: Vec<u8>|
        #[trigger] sample.ensures((region,), Some(a)) && #[trigger] sample.ensures(
            (region,),
            Some(b),
        ) ==> a@ == b@
}

/// Whether `elevation` gives equal heights whenever it is asked for one point twice.
pub open spec fn deterministic_elevation<G: Fn(i32, i32) -> Option<u8>>(elevation: G) -> bool {
    forall|x: i32, z: i32, a: u8, b: u8|
        #[trigger] elevation.ensures((x, z), Some(a)) && #[trigger] elevation.ensures(
            (x, z),
            Some(b),
        ) ==> a == b
}

/// Rendering is a function of what the samplers give: with samplers that
/// answer each question the same way every time, two renderings of one
/// position are equal byte for byte.
pub proof fn lemma_render_idempotent<F: Fn(Region) -> Option<Vec<u8>>, G: Fn(i32, i32) -> Option<
    u8,
>>(
    pos: TilePos,
    shaded: bool,
    colors: ColorTable,
    sample: F,
    elevation: G,
    t1: Raster,
    t2: Raster,
)
    requires
        deterministic_sampler(sample),
        deterministic_elevation(elevation),
        rendered(pos, shaded, colors, sample, elevation, t1),
        rendered(pos, shaded, colors, sample, elevation, t2),
    ensures
        t1.width == t2.width,
        t1.height == t2.height,
        t1.channels == t2.channels,
        t1.data@ == t2.data@,
{
    let st = strategy_spec(pos.zoom)->0;
    let regions = regions_spec(pos, st);
    let g1 = choose|g: Seq<Vec<u8>>|
        #[trigger] sampled_as(sample, regions, g) && if shaded {
            exists|hm: Heightmap|
                #[trigger] heightmap_sampled(
                    elevation,
                    pos.x * 256,
                    pos.y * 256,
                    pos.zoom as int,
                    hm,
                ) && t1.data@ == shaded_pixels(unshaded_pixels(st, g, colors), hm, SHADE_STROKE)
        } else {
            t1.data@ == unshaded_pixels(st, g, colors)
        };
    let g2 = choose|g: Seq<Vec<u8>>|
        #[trigger] sampled_as(sample, regions, g) && if shaded {
            exists|hm: Heightmap|
                #[trigger] heightmap_sampled(
                    elevation,
                    pos.x * 256,
                    pos.y * 256,
                    pos.zoom as int,
                    hm,
                ) && t2.data@ == shaded_pixels(unshaded_pixels(st, g, colors), hm, SHADE_STROKE)
        } else {
            t2.data@ == unshaded_pixels(st, g, colors)
        };
    assert forall|i: int| 0 <= i < regions.len() implies (#[trigger] g1[i])@ == g2[i]@ by {
        assert(sample.ensures((regions[i],), Some(g1[i])));
        assert(sample.ensures((regions[i],), Some(g2[i])));
    }
    assert(grid_views(g1) =~= grid_views(g2));
    let base = unshaded_pixels(st, g1, colors);
    assert(base == unshaded_pixels(st, g2, colors));
    if shaded {
        let hm1 = choose|hm: Heightmap|
            #[trigger] heightmap_sampled(elevation, pos.x * 256, pos.y * 256, pos.zoom as int, hm)
                && t1.data@ == shaded_pixels(base, hm, SHADE_STROKE);
        let hm2 = choose|hm: Heightmap|
            #[trigger] heightmap_sampled(elevation, pos.x * 256, pos.y * 256, pos.zoom as int, hm)
                && t2.data@ == shaded_pixels(base, hm, SHADE_STROKE);
        assert forall|i: int| 0 <= i < hm1.cells@.len() implies #[trigger] hm1.cells@[i]
            == hm2.cells@[i] by {
            let a = (
                crate::heightmap::hm_coord(pos.x * 256, i % 258, pos.zoom + 2) as i32,
                crate::heightmap::hm_coord(pos.y * 256, i / 258, pos.zoom + 2) as i32,
            );
            assert(elevation.ensures(a, Some(hm1.cells@[i])));
            assert(elevation.ensures(a, Some(hm2.cells@[i])));
        }
        assert(hm1.cells@ =~= hm2.cells@);
        assert(shaded_pixels(base, hm1, SHADE_STROKE) =~= shaded_pixels(base, hm2, SHADE_STROKE));
    }
}

/// Whether `t` is the contour overlay of `pos` over a heightmap that
/// `elevation` gave.
pub open spec fn contour_rendered<G: Fn(i32, i32) -> Option<u8>>(
    pos: TilePos,
    elevation: G,
    t: Raster,
) -> bool {
    &&& t.wf()
    &&& t.width == 256
    &&& t.height == 256
    &&& t.channels == 2
    &&& exists|hm: Heightmap|
        #[trigger] heightmap_sampled(elevation, pos.x * 256, pos.y * 256, pos.zoom as int, hm)
            && forall|k: int|
            0 <= k < t.data@.len() ==> #[trigger] t.data@[k] == contour_byte(
                hm,
                contour_frequency_spec(pos.zoom),
                k,
            )
}

/// Renders the contour overlay of the tile at `pos` from a heightmap of it.
pub fn render_contours<G: Fn(i32, i32) -> Option<u8>>(pos: TilePos, elevation: &G) -> (r: Result<
    Raster,
    RenderError,
>)
    requires
        tile_fits(pos),
        forall|a: i32, b: i32| elevation.requires((a, b)),
    ensures
        (pos.zoom < -8 || pos.zoom > 8) <==> r matches Err(RenderError::NoTileForPosition),
        r matches Ok(t) ==> contour_rendered(pos, *elevation, t),
        r matches Err(RenderError::SamplerUnavailable) ==> elevation_can_fail(
            *elevation,
            pos.x * 256,
            pos.y * 256,
            pos.zoom as int,
        ),
{
    if pos.zoom < -8 || pos.zoom > 8 {
        return Err(RenderError::NoTileForPosition);
    }
    match generate_heightmap(pos.x * 256, pos.y * 256, pos.zoom, elevation) {
        Some(hm) => {
            let t = contour_tile(&hm, pos.zoom);
            assert(heightmap_sampled(*elevation, pos.x * 256, pos.y * 256, pos.zoom as int, hm));
            Ok(t)
        },
        None => Err(RenderError::SamplerUnavailable),
    }
}

/// Whether every world coordinate that rendering `pos` touches fits in an
/// `i32`; callers check this before `render`.
pub fn fits_world(pos: TilePos) -> (r: bool)
    ensures
        r == tile_fits(pos),
{
    if pos.zoom < -8 || pos.zoom > 8 {
        return true;
    }
    let x: i64 = pos.x as i64;
    let y: i64 = pos.y as i64;
    let lo: i64 = i32::MIN as i64;
    let hi: i64 = i32::MAX as i64;
    let rel_zoom: i32 = pos.zoom + 2;
    let magnitude: u32 = if rel_zoom < 0 {
        (-rel_zoom) as u32
    } else {
        rel_zoom as u32
    };
    let scale: i64 = pow2_u32(magnitude) as i64;
    let x0 = hm_coord_wide(x * 256, 0, rel_zoom, scale);
    let x1 = hm_coord_wide(x * 256, 257, rel_zoom, scale);
    let y0 = hm_coord_wide(y * 256, 0, rel_zoom, scale);
    let y1 = hm_coord_wide(y * 256, 257, rel_zoom, scale);
    lo <= x * 512 && x * 512 + 256 <= hi && lo <= y * 512 && y * 512 + 256 <= hi && lo <= x0 && x0
        <= hi && lo <= x1 && x1 <= hi && lo <= y0 && y0 <= hi && lo <= y1 && y1 <= hi
}

} // verus!
