use biomemap_tileserver::assemble::{render, ColorTable, Region};
use biomemap_tileserver::memcache::MemCache;
use biomemap_tileserver::pool::{HandlePool, Lease};
use biomemap_tileserver::tilestore::{generate_tile, memoize_tile, tile_dir, tile_path, TileError};
use biomemap_tileserver::assemble::Scale;
use biomemap_tileserver::{Blacktile, Raster, TilePos};
use std::cell::Cell;

fn colors() -> ColorTable {
    ColorTable { colors: (0..256u32).map(|i| [i as u8, 0, 255 - i as u8]).collect() }
}

fn pos(i: i32) -> TilePos {
    TilePos::new(0, i, -i)
}

#[test]
fn tile_paths_follow_zoom_column_row() {
    assert_eq!(tile_dir("tiles", TilePos::new(-3, 12, -7)), "tiles/-3/12");
    assert_eq!(tile_path("tiles", TilePos::new(-3, 12, -7), "png"), "tiles/-3/12/-7.png");
    assert_eq!(
        tile_path("/var/cache", TilePos::new(0, i32::MIN, i32::MAX), "png"),
        "/var/cache/0/-2147483648/2147483647.png"
    );
}

#[test]
fn encoded_tile_is_png() {
    let bytes = generate_tile(Blacktile::new().get_tile(pos(0))).unwrap();
    assert_eq!(&bytes[0..8], &[137, 80, 78, 71, 13, 10, 26, 10]);
    assert_eq!(generate_tile(None), Err(TileError::NoTileInProvider));
}

#[test]
fn black_tile_is_black() {
    let t = Blacktile::new().get_tile(pos(3)).unwrap();
    assert_eq!((t.width, t.height, t.channels), (256, 256, 1));
    assert!(t.data.iter().all(|b| *b == 0));
}

#[test]
fn cache_round_trip_skips_the_sampler() {
    let calls = Cell::new(0);
    let sampler = |r: Region| {
        calls.set(calls.get() + 1);
        Some(vec![9u8; (r.size_x * r.size_z) as usize])
    };
    let height = |_x: i32, _z: i32| Some(1u8);
    let p = TilePos::new(-7, 2, 2);
    let mut mem = MemCache::new(10);
    assert_eq!(mem.get(p, 1), None);
    let rendered = render(p, false, &colors(), &sampler, &height).unwrap();
    let bytes = generate_tile(Some(rendered)).unwrap();
    let direct =
        generate_tile(Some(render(p, false, &colors(), &sampler, &height).unwrap())).unwrap();
    assert_eq!(bytes, direct);
    let before = calls.get();
    mem.insert(p, bytes.clone(), 1);
    assert_eq!(mem.get(p, 2), Some(bytes.clone()));
    assert_eq!(mem.get(p, 3), Some(bytes));
    assert_eq!(calls.get(), before);
    assert_eq!(mem.len(), 1);
}

#[test]
fn insert_replaces_a_key() {
    let mut mem = MemCache::new(4);
    mem.insert(pos(1), vec![1], 1);
    mem.insert(pos(1), vec![2], 2);
    assert_eq!(mem.len(), 1);
    assert_eq!(mem.lookup(pos(1)), Some(vec![2]));
    assert_eq!(mem.lookup(pos(2)), None);
}

#[test]
fn eviction_keeps_the_newest_two_thirds() {
    let capacity = 9;
    let mut mem = MemCache::new(capacity);
    for i in 0..9 {
        mem.insert(pos(i), vec![i as u8], 100 + i as u64);
    }
    // reading the oldest keeps it
    mem.touch(pos(0), 500);
    assert!(mem.needs_cleanup());
    mem.cleanup();
    assert_eq!(mem.len(), 6);
    assert!(mem.len() < capacity);
    for gone in [1, 2, 3] {
        assert_eq!(mem.lookup(pos(gone)), None);
    }
    for kept in [0, 4, 5, 6, 7, 8] {
        assert_eq!(mem.lookup(pos(kept)), Some(vec![kept as u8]));
    }
    mem.insert(pos(9), vec![9], 600);
    assert_eq!(mem.len(), 7);
    assert!(!mem.needs_cleanup());
}

#[test]
fn cleanup_of_a_tiny_store_empties_it() {
    let mut mem = MemCache::new(2);
    mem.insert(pos(1), vec![1], 5);
    mem.insert(pos(2), vec![2], 6);
    mem.cleanup();
    assert_eq!(mem.len(), 0);
}

#[test]
fn pool_takes_back_every_lease() {
    let n = 5;
    let mut pool: HandlePool<u32> = HandlePool::new();
    let mut leases = Vec::new();
    let mut created = 0;
    for _ in 0..n {
        let handle = match pool.take(Scale::Chunk) {
            Some(h) => h,
            None => {
                created += 1;
                created
            }
        };
        leases.push(Lease { scale: Scale::Chunk, handle });
    }
    assert_eq!(created, n);
    assert_eq!(pool.free_count(Scale::Chunk), 0);
    for lease in leases {
        pool.release(lease);
    }
    assert_eq!(pool.free_count(Scale::Chunk), n as usize);
    assert_eq!(pool.free_count(Scale::Block), 0);
    // the handles come back out, newest first, with no new ones made
    let mut seen = Vec::new();
    for _ in 0..n {
        seen.push(pool.take(Scale::Chunk).unwrap());
    }
    seen.sort();
    assert_eq!(seen, vec![1, 2, 3, 4, 5]);
    assert_eq!(pool.take(Scale::Chunk), None);
}

#[test]
fn pool_lists_are_per_scale() {
    let mut pool: HandlePool<&str> = HandlePool::new();
    pool.give_back("quad", Scale::Quad);
    assert_eq!(pool.take(Scale::Block), None);
    assert_eq!(pool.take(Scale::Quad), Some("quad"));
}

#[test]
fn raster_filled_sizes() {
    let r = Raster::filled(3, 2, 4, 9);
    assert_eq!(r.data, vec![9; 24]);
}

#[test]
fn store_cleans_up_a_full_store_first() {
    let mut mem = MemCache::new(6);
    for i in 0..6 {
        mem.store(pos(i), vec![i as u8], 10 + i as u64);
    }
    assert_eq!(mem.len(), 6);
    mem.store(pos(6), vec![6], 50);
    // two oldest evicted, then the new tile added
    assert_eq!(mem.len(), 5);
    assert_eq!(mem.lookup(pos(0)), None);
    assert_eq!(mem.lookup(pos(1)), None);
    assert_eq!(mem.lookup(pos(6)), Some(vec![6]));
    assert_eq!(mem.lookup(pos(2)), Some(vec![2]));
}

#[test]
fn insert_keeps_other_access_times() {
    let mut mem = MemCache::new(10);
    mem.insert(pos(1), vec![1], 1);
    mem.insert(pos(2), vec![2], 2);
    mem.insert(pos(3), vec![3], 3);
    mem.insert(pos(4), vec![4], 100);
    mem.cleanup();
    // the oldest entry (pos 1) goes, so its time was kept
    assert_eq!(mem.lookup(pos(1)), None);
    assert_eq!(mem.len(), 3);
}

#[test]
fn full_miss_stores_the_encoded_tile() {
    let mut mem = MemCache::new(4);
    let tile = Blacktile::new().get_tile(pos(5));
    let direct = generate_tile(tile.clone()).unwrap();
    let bytes = memoize_tile(&mut mem, pos(5), tile, 9).unwrap();
    assert_eq!(bytes, direct);
    assert_eq!(mem.get(pos(5), 10), Some(bytes.clone()));
    assert_eq!(mem.get(pos(5), 11), Some(bytes));
    assert_eq!(memoize_tile(&mut mem, pos(6), None, 12), Err(TileError::NoTileInProvider));
    assert_eq!(mem.len(), 1);
}
