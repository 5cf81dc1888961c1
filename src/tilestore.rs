use vstd::prelude::*;

use crate::memcache::{touched, MemCache};
use crate::raster::Raster;
use crate::tileprovider::TilePos;

verus! {

/// The character of decimal digit `d`.
pub open spec fn digit_char(d: int) -> char {
    if d == 0 {
        '0'
    } else if d == 1 {
        '1'
    } else if d == 2 {
        '2'
    } else if d == 3 {
        '3'
    } else if d == 4 {
        '4'
    } else if d == 5 {
        '5'
    } else if d == 6 {
        '6'
    } else if d == 7 {
        '7'
    } else if d == 8 {
        '8'
    } else {
        '9'
    }
}

/// Decimal digits of `n`, most significant first, without leading zeros.
pub open spec fn decimal_digits(n: nat) -> Seq<char>
    decreases n,
{
    if n < 10 {
        seq![digit_char(n as int)]
    } else {
        decimal_digits(n / 10) + seq![digit_char((n % 10) as int)]
    }
}

/// Decimal text of `v`, with a leading `-` when negative.
pub open spec fn decimal(v: int) -> Seq<char> {
    if v < 0 {
        seq!['-'] + decimal_digits((-v) as nat)
    } else {
        decimal_digits(v as nat)
    }
}

/// Directory of the tiles of column `x` at `zoom`: `<base>/<zoom>/<x>`.
pub open spec fn tile_dir_spec(base: Seq<char>, pos: TilePos) -> Seq<char> {
    base + seq!['/'] + decimal(pos.zoom as int) + seq!['/'] + decimal(pos.x as int)
}

/// File of a tile: `<base>/<zoom>/<x>/<y>.<extension>`.
pub open spec fn tile_path_spec(base: Seq<char>, pos: TilePos, extension: Seq<char>) -> Seq<char> {
    tile_dir_spec(base, pos) + seq!['/'] + decimal(pos.y as int) + seq!['.'] + extension
}

fn digit_str(d: u32) -> (r: &'static str)
    requires
        d < 10,
    ensures
        r@ == seq![digit_char(d as int)],
{
    proof {
        reveal_strlit("0");
        reveal_strlit("1");
        reveal_strlit("2");
        reveal_strlit("3");
        reveal_strlit("4");
        reveal_strlit("5");
        reveal_strlit("6");
        reveal_strlit("7");
        reveal_strlit("8");
        reveal_strlit("9");
    }
    if d == 0 {
        "0"
    } else if d == 1 {
        "1"
    } else if d == 2 {
        "2"
    } else if d == 3 {
        "3"
    } else if d == 4 {
        "4"
    } else if d == 5 {
        "5"
    } else if d == 6 {
        "6"
    } else if d == 7 {
        "7"
    } else if d == 8 {
        "8"
    } else {
        "9"
    }
}

fn push_digits(s: &mut String, n: u32)
    ensures
        final(s)@ == old(s)@ + decimal_digits(n as nat),
    decreases n,
{
    if n >= 10 {
        push_digits(s, n / 10);
    }
    s.append(digit_str(n % 10));
    assert(final(s)@ =~= old(s)@ + decimal_digits(n as nat));
}

/// Appends the decimal text of `v` to `s`.
pub fn push_decimal(s: &mut String, v: i32)
    ensures
        final(s)@ == old(s)@ + decimal(v as int),
{
    if v < 0 {
        proof {
            reveal_strlit("-");
        }
        s.append("-");
        let magnitude: u32 = (-(v as i64)) as u32;
        push_digits(s, magnitude);
        assert(final(s)@ =~= old(s)@ + decimal(v as int));
    } else {
        push_digits(s, v as u32);
    }
}

/// The directory that holds the tile at `pos` under `base`.
pub fn tile_dir(base: &str, pos: TilePos) -> (r: String)
    ensures
        r@ == tile_dir_spec(base@, pos),
{
    proof {
        reveal_strlit("/");
    }
    let mut s = String::from_str(base);
    s.append("/");
    push_decimal(&mut s, pos.zoom);
    s.append("/");
    push_decimal(&mut s, pos.x);
    assert(s@ =~= tile_dir_spec(base@, pos));
    s
}

/// The file that holds the tile at `pos` under `base`, with the image
/// format's `extension`.
pub fn tile_path(base: &str, pos: TilePos, extension: &str) -> (r: String)
    ensures
        r@ == tile_path_spec(base@, pos, extension@),
{
    proof {
        reveal_strlit("/");
        reveal_strlit(".");
    }
    let mut s = tile_dir(base, pos);
    s.append("/");
    push_decimal(&mut s, pos.y);
    s.append(".");
    s.append(extension);
    assert(s@ =~= tile_path_spec(base@, pos, extension@));
    s
}

/// What the PNG encoder of the `image` crate writes for a raster of
/// `width` by `height` pixels with `channels` bytes each.
pub uninterp spec fn png_encoding(width: nat, height: nat, channels: nat, pixels: Seq<u8>) -> Seq<
    u8,
>;

/// Relies on `image::write_buffer_with_format` with `ImageFormat::Png`: the
/// encoder refuses only an empty image, and the bytes written depend on the
/// raster alone.
#[verifier::external_body]
fn write_png(tile: &Raster) -> (r: Option<Vec<u8>>)
    requires
        tile.wf(),
        tile.width <= u32::MAX,
        tile.height <= u32::MAX,
    ensures
        r matches Some(b) ==> b@ == png_encoding(
            tile.width as nat,
            tile.height as nat,
            tile.channels as nat,
            tile.data@,
        ),
        tile.width > 0 && tile.height > 0 ==> r is Some,
{
    let color = match tile.channels {
        1 => image::ExtendedColorType::L8,
        2 => image::ExtendedColorType::La8,
        3 => image::ExtendedColorType::Rgb8,
        _ => image::ExtendedColorType::Rgba8,
    };
    let mut buf = std::io::Cursor::new(Vec::new());
    let (w, h) = (tile.width as u32, tile.height as u32);
    match image::write_buffer_with_format(&mut buf, &tile.data, w, h, color, image::ImageFormat::Png) {
        Ok(()) => Some(buf.into_inner()),
        Err(_) => None,
    }
}

/// Why no encoded tile could be made.
#[derive(Clone, Copy, Debug, PartialEq, Eq, Structural)]
pub enum TileError {
    /// The tile source had no tile for the position.
    NoTileInProvider,
    /// The encoder refused the raster, which happens only to an empty one.
    EncodeFailed,
}

/// Encodes what a tile source gave for a position: its PNG bytes, or
/// `NoTileInProvider` when it gave nothing.
pub fn generate_tile(tile: Option<Raster>) -> (r: Result<Vec<u8>, TileError>)
    requires
        tile matches Some(t) ==> t.wf() && t.width <= u32::MAX && t.height <= u32::MAX,
    ensures
        tile is None <==> r == Err::<Vec<u8>, TileError>(TileError::NoTileInProvider),
        tile matches Some(t) && t.width > 0 && t.height > 0 ==> r is Ok,
        r matches Ok(b) ==> tile matches Some(t) && b@ == png_encoding(
            t.width as nat,
            t.height as nat,
            t.channels as nat,
            t.data@,
        ),
{
    match tile {
        None => Err(TileError::NoTileInProvider),
        Some(t) => match write_png(&t) {
            Some(bytes) => Ok(bytes),
            None => Err(TileError::EncodeFailed),
        },
    }
}

/// The full-miss path of the tile cache: encodes what the tile source gave
/// for `pos` and stores the bytes in memory, read at `now`, so that later
/// reads are served from memory. Returns the bytes for the caller to write
/// to the disk tier.
pub fn memoize_tile(mem: &mut MemCache, pos: TilePos, tile: Option<Raster>, now: u64) -> (r: Result<
    Vec<u8>,
    TileError,
>)
    requires
        old(mem).wf(),
        tile matches Some(t) ==> t.wf() && t.width <= u32::MAX && t.height <= u32::MAX,
    ensures
        final(mem).wf(),
        final(mem).capacity() == old(mem).capacity(),
        tile is None <==> r == Err::<Vec<u8>, TileError>(TileError::NoTileInProvider),
        tile matches Some(t) && t.width > 0 && t.height > 0 ==> r is Ok,
        r matches Ok(b) ==> tile matches Some(t) && b@ == png_encoding(
            t.width as nat,
            t.height as nat,
            t.channels as nat,
            t.data@,
        ) && final(mem).lookup_spec(pos) == Some(b@),
        r is Err ==> final(mem)@ == old(mem)@,
{
    match generate_tile(tile) {
        Ok(bytes) => {
            let copy = crate::memcache::copy_bytes(&bytes);
            mem.store(pos, copy, now);
            Ok(bytes)
        },
        Err(e) => Err(e),
    }
}

/// Cache round trip: once a tile's bytes are stored, reading it returns
/// those bytes, and so does every later read, since a read only refreshes
/// access times; no read goes back to the tile source.
pub proof fn lemma_round_trip(
    stored: MemCache,
    after_read: MemCache,
    pos: TilePos,
    bytes: Seq<u8>,
    now: u64,
)
    requires
        stored.wf(),
        stored.lookup_spec(pos) == Some(bytes),
        touched(stored@, after_read@, pos, now),
    ensures
        after_read.wf(),
        after_read.lookup_spec(pos) == Some(bytes),
{
    crate::memcache::lemma_lookup_after_touch(stored, after_read, pos, now);
}

} // verus!
