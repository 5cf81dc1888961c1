use std::cell::Cell;

use biomemap_tileserver::assemble::{
    concat_lower_zoom, get_image, fits_world, render, render_contours, tile_strategy, upsacale_blockscale,
    ColorTable, Region, RenderError, Scale, TileStrategy,
};
use biomemap_tileserver::contours::{
    contour_frequency, contour_levels, contour_tile, draw_contours, higher_lower, zoom_calc,
};
use biomemap_tileserver::heightmap::generate_heightmap;
use biomemap_tileserver::shading::{dir, draw_shading, height_diff_shade_calculator, Direction};
use biomemap_tileserver::{Heightmap, Raster, TilePos};

fn colors() -> ColorTable {
    ColorTable {
        colors: (0..256u32).map(|i| [i as u8, 255 - i as u8, 7]).collect(),
    }
}

fn biome_grid(region: Region) -> Option<Vec<u8>> {
    let n = (region.size_x * region.size_z) as usize;
    Some(
        (0..n)
            .map(|i| ((i as i64 + region.x as i64 + region.z as i64).rem_euclid(256)) as u8)
            .collect(),
    )
}

fn elevation(x: i32, z: i32) -> Option<u8> {
    Some(((x as i64 * 3 + z as i64 * 5).rem_euclid(200)) as u8)
}

#[test]
fn contour_levels_from_62_every_30() {
    assert_eq!(
        contour_levels(62, 30),
        vec![2, 32, 62, 92, 122, 152, 182, 212, 242]
    );
}

#[test]
fn contour_levels_stop_at_a_byte() {
    assert_eq!(contour_levels(62, 100), vec![62, 162]);
    assert_eq!(contour_levels(0, 255), vec![0, 255]);
    assert_eq!(contour_levels(0, 85), vec![0, 85, 170, 255]);
    assert_eq!(contour_levels(5, 1).len(), 256);
    assert_eq!(*contour_levels(5, 1).last().unwrap(), 255);
}

#[test]
fn contour_spacing_doubles_outward() {
    assert_eq!(contour_frequency(0), 30);
    assert_eq!(contour_frequency(1), 30);
    assert_eq!(contour_frequency(3), 120);
    assert_eq!(contour_frequency(4), 240);
    assert_eq!(contour_frequency(5), 255);
    assert_eq!(contour_frequency(-1), 30);
    assert_eq!(contour_frequency(-2), 60);
    assert_eq!(contour_frequency(-3), 120);
    assert_eq!(contour_frequency(-4), 240);
    assert_eq!(contour_frequency(-5), 255);
    assert_eq!(contour_frequency(-8), 255);
}

#[test]
fn zoom_calc_picks_side_and_power() {
    assert_eq!(zoom_calc(-3, |s| s + 1000, |s| s), 8);
    assert_eq!(zoom_calc(4, |s| s + 1000, |s| s), 1016);
    assert_eq!(zoom_calc(0, |s| s + 1000, |s| s), 1001);
}

#[test]
fn strategy_by_zoom() {
    assert_eq!(tile_strategy(-9), None);
    assert_eq!(tile_strategy(9), None);
    assert_eq!(tile_strategy(-8), Some(TileStrategy::Direct(Scale::HalfRegion)));
    assert_eq!(tile_strategy(-7), Some(TileStrategy::Stitch(Scale::QuadChunk)));
    assert_eq!(tile_strategy(-2), Some(TileStrategy::Direct(Scale::Quad)));
    assert_eq!(tile_strategy(-1), Some(TileStrategy::Stitch(Scale::Block)));
    assert_eq!(tile_strategy(0), Some(TileStrategy::Direct(Scale::Block)));
    assert_eq!(tile_strategy(1), Some(TileStrategy::Magnify(128)));
    assert_eq!(tile_strategy(3), Some(TileStrategy::Magnify(32)));
    assert_eq!(tile_strategy(8), Some(TileStrategy::Magnify(1)));
}

#[test]
fn direction_of_neighbours() {
    assert_eq!(dir(3, 3), Direction::Flat);
    assert_eq!(dir(1, 5), Direction::Lower(4));
    assert_eq!(dir(5, 1), Direction::Higher(4));
    assert_eq!(dir(0, 255), Direction::Lower(127));
    assert_eq!(dir(255, 0), Direction::Higher(127));
}

#[test]
fn shade_step_grows_with_the_change() {
    assert_eq!(height_diff_shade_calculator(24, 1), 24);
    assert_eq!(height_diff_shade_calculator(24, 48), 26);
    assert_eq!(height_diff_shade_calculator(24, 127), 29);
    assert_eq!(height_diff_shade_calculator(120, 127), 121);
    assert_eq!(height_diff_shade_calculator(127, 127), 127);
}

#[test]
fn lower_left_cell_lightens_the_pixel() {
    // cell (0, 0) is lower than its right neighbour and level with the one below
    let hm = Heightmap { width: 2, height: 2, cells: vec![10, 58, 10, 10] };
    let mut tile = Raster { width: 1, height: 1, channels: 3, data: vec![100, 0, 250] };
    draw_shading(&hm, &mut tile, 24);
    assert_eq!(tile.data, vec![126, 26, 255]);
}

#[test]
fn higher_cell_below_darkens_the_pixel() {
    let hm = Heightmap { width: 2, height: 2, cells: vec![50, 50, 30, 0] };
    let mut tile = Raster { width: 1, height: 1, channels: 3, data: vec![100, 10, 255] };
    draw_shading(&hm, &mut tile, 24);
    // below is lower by 20: darker by 24
    assert_eq!(tile.data, vec![76, 0, 231]);
}

#[test]
fn flat_heightmap_leaves_the_tile() {
    let hm = Heightmap { width: 3, height: 3, cells: vec![9; 9] };
    let mut tile = Raster { width: 2, height: 2, channels: 3, data: (0..12).collect() };
    draw_shading(&hm, &mut tile, 24);
    assert_eq!(tile.data, (0..12).collect::<Vec<u8>>());
}

#[test]
fn mask_marks_cells_below_level() {
    let mut buf = vec![true; 7];
    higher_lower(&[1, 5, 9, 10], 9, &mut buf);
    assert_eq!(buf, vec![true, true, false, false]);
}

#[test]
fn contours_mark_crossings() {
    // level 50 runs between column 0 and column 1 of the heightmap
    let hm = Heightmap {
        width: 3,
        height: 3,
        cells: vec![10, 90, 90, 10, 90, 90, 10, 90, 90],
    };
    let mut tile = Raster { width: 2, height: 2, channels: 2, data: vec![0; 8] };
    draw_contours(&hm, &vec![50], &mut tile, 80, 255);
    // pixel (0, y) compares cell (1, y + 1) with its left cell (0, y + 1)
    assert_eq!(tile.data, vec![80, 255, 0, 0, 80, 255, 0, 0]);
    let mut none = Raster { width: 2, height: 2, channels: 2, data: vec![0; 8] };
    draw_contours(&hm, &vec![200], &mut none, 80, 255);
    assert_eq!(none.data, vec![0; 8]);
}

#[test]
fn contour_tile_of_flat_ground_is_transparent() {
    let hm = Heightmap { width: 258, height: 258, cells: vec![100; 258 * 258] };
    let t = contour_tile(&hm, 0);
    assert_eq!((t.width, t.height, t.channels), (256, 256, 2));
    assert!(t.data.iter().all(|b| *b == 0));
}

#[test]
fn heightmap_cells_follow_relative_zoom() {
    let hm = generate_heightmap(512, -256, 0, &|x, z| Some(((x + z).rem_euclid(256)) as u8))
        .unwrap();
    assert_eq!((hm.width, hm.height, hm.cells.len()), (258, 258, 258 * 258));
    // relative zoom 2: four cells per world point, origin divided by 4
    assert_eq!(hm.cells[0], ((128 - 64) as u8));
    assert_eq!(hm.cells[5], ((128 + 1 - 64) as u8));
    let coarse = generate_heightmap(0, 0, -8, &|x, z| Some((x / 64 + z / 64) as u8)).unwrap();
    assert_eq!(coarse.cells[3], 3);
    assert_eq!(coarse.cells[258 * 2 + 1], 3);
    assert!(generate_heightmap(0, 0, 0, &|_, _| None).is_none());
}

#[test]
fn stitched_tile_takes_every_other_sample() {
    let grids: Vec<Vec<u8>> = (0..4u8).map(|q| vec![q * 10; 256 * 256]).collect();
    let mut grids = grids;
    grids[1][2] = 200; // quadrant (0, 1), sample (2, 0): pixel (1, 128)
    let t = concat_lower_zoom(&grids, &colors());
    assert_eq!((t.width, t.height, t.channels), (256, 256, 3));
    assert_eq!(&t.data[0..3], &[0, 255, 7]);
    let p = (128 * 256 + 1) * 3;
    assert_eq!(&t.data[p..p + 3], &[200, 55, 7]);
    let q = (0 * 256 + 200) * 3;
    assert_eq!(&t.data[q..q + 3], &[20, 235, 7]);
    let r = (200 * 256 + 200) * 3;
    assert_eq!(&t.data[r..r + 3], &[30, 225, 7]);
}

#[test]
fn magnified_tile_repeats_each_sample() {
    let grid = vec![1, 2, 3, 4];
    let t = upsacale_blockscale(&grid, 2, &colors());
    assert_eq!((t.width, t.height, t.channels), (256, 256, 3));
    assert_eq!(t.data.len(), 256 * 256 * 3);
    assert_eq!(&t.data[0..3], &[1, 254, 7]);
    let right = (10 * 256 + 200) * 3;
    assert_eq!(&t.data[right..right + 3], &[2, 253, 7]);
    let low = (200 * 256 + 10) * 3;
    assert_eq!(&t.data[low..low + 3], &[3, 252, 7]);
    let last = (255 * 256 + 255) * 3;
    assert_eq!(&t.data[last..last + 3], &[4, 251, 7]);
}

#[test]
fn render_covers_every_supported_zoom() {
    for zoom in -8..=8 {
        let pos = TilePos::new(zoom, 3, -2);
        assert!(fits_world(pos));
        for shaded in [false, true] {
            let t = render(pos, shaded, &colors(), &biome_grid, &elevation).unwrap();
            assert_eq!((t.width, t.height, t.channels), (256, 256, 3));
            assert_eq!(t.data.len(), 256 * 256 * 3);
        }
    }
}

#[test]
fn render_refuses_unsupported_zoom() {
    for zoom in [-100, -9, 9, 40] {
        let calls = Cell::new(0);
        let counting = |r: Region| {
            calls.set(calls.get() + 1);
            biome_grid(r)
        };
        let r = render(TilePos::new(zoom, 0, 0), true, &colors(), &counting, &elevation);
        assert_eq!(r, Err(RenderError::NoTileForPosition));
        assert_eq!(calls.get(), 0);
        assert_eq!(
            render_contours(TilePos::new(zoom, 0, 0), &elevation),
            Err(RenderError::NoTileForPosition)
        );
    }
}

#[test]
fn render_is_repeatable() {
    for zoom in [-8, -7, 0, 2] {
        let pos = TilePos::new(zoom, -1, 4);
        let a = render(pos, true, &colors(), &biome_grid, &elevation).unwrap();
        let b = render(pos, true, &colors(), &biome_grid, &elevation).unwrap();
        assert_eq!(a, b);
    }
}

#[test]
fn render_direct_tile_colours_samples() {
    let t = render(TilePos::new(0, 0, 0), false, &colors(), &biome_grid, &elevation).unwrap();
    // sample at (x, z) is (z * 256 + x) mod 256 = x
    let p = (7 * 256 + 5) * 3;
    assert_eq!(&t.data[p..p + 3], &[5, 250, 7]);
}

#[test]
fn sampler_failure_fails_the_render() {
    let failing = |_r: Region| -> Option<Vec<u8>> { None };
    assert_eq!(
        render(TilePos::new(0, 0, 0), false, &colors(), &failing, &elevation),
        Err(RenderError::SamplerUnavailable)
    );
    let short = |_r: Region| -> Option<Vec<u8>> { Some(vec![0; 5]) };
    assert_eq!(
        render(TilePos::new(-7, 0, 0), false, &colors(), &short, &elevation),
        Err(RenderError::SamplerUnavailable)
    );
    let no_height = |_x: i32, _z: i32| -> Option<u8> { None };
    assert_eq!(
        render(TilePos::new(0, 0, 0), true, &colors(), &biome_grid, &no_height),
        Err(RenderError::SamplerUnavailable)
    );
    assert_eq!(
        render_contours(TilePos::new(0, 0, 0), &no_height),
        Err(RenderError::SamplerUnavailable)
    );
}

#[test]
fn stitched_render_asks_for_four_quadrants() {
    let asked = std::cell::RefCell::new(Vec::new());
    let recording = |r: Region| {
        asked.borrow_mut().push((r.scale, r.x, r.z, r.size_x));
        biome_grid(r)
    };
    render(TilePos::new(-5, 1, 2), false, &colors(), &recording, &elevation).unwrap();
    assert_eq!(
        asked.into_inner(),
        vec![
            (Scale::Chunk, 512, 1024, 256),
            (Scale::Chunk, 512, 1280, 256),
            (Scale::Chunk, 768, 1024, 256),
            (Scale::Chunk, 768, 1280, 256),
        ]
    );
}

#[test]
fn far_tiles_do_not_fit() {
    assert!(!fits_world(TilePos::new(-8, 1 << 20, 0)));
    assert!(fits_world(TilePos::new(8, 1 << 20, 0)));
    assert!(fits_world(TilePos::new(100, i32::MAX, i32::MIN)));
}

#[test]
fn contour_render_is_a_gray_alpha_tile() {
    let t = render_contours(TilePos::new(-3, 1, 1), &elevation).unwrap();
    assert_eq!((t.width, t.height, t.channels), (256, 256, 2));
    assert!(t.data.chunks(2).all(|p| p[1] == 0 || p[1] == 255));
}

#[test]
fn grid_colouring_is_row_major() {
    let t = get_image(&vec![0, 1, 2, 3, 4, 5, 6, 7, 8], 3, &colors());
    assert_eq!((t.width, t.height, t.channels), (3, 3, 3));
    assert_eq!(&t.data[(1 * 3 + 2) * 3..(1 * 3 + 2) * 3 + 3], &[5, 250, 7]);
}

#[test]
fn magnification_by_eight_makes_eight_pixel_blocks() {
    let grid: Vec<u8> = (0..32 * 32).map(|i| (i % 251) as u8).collect();
    let t = upsacale_blockscale(&grid, 32, &colors());
    for (x, y) in [(0usize, 0usize), (7, 7), (8, 0), (100, 37), (255, 255), (129, 250)] {
        let id = grid[(y / 8) * 32 + x / 8];
        let p = (y * 256 + x) * 3;
        assert_eq!(&t.data[p..p + 3], &[id, 255 - id, 7], "({x}, {y})");
    }
}

#[test]
fn large_grids_colour_too() {
    let grid = vec![3u8; 300 * 300];
    let t = get_image(&grid, 300, &colors());
    assert_eq!((t.width, t.height, t.data.len()), (300, 300, 300 * 300 * 3));
}
