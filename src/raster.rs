use vstd::prelude::*;

use crate::contours::paint;
use crate::shading::{shift_byte, shift_spec};

verus! {

/// Flat position of channel `c` of pixel `(x, y)` in a row-major buffer.
pub open spec fn pix(width: int, channels: int, x: int, y: int, c: int) -> int {
    (y * width + x) * channels + c
}

/// Column of the pixel that holds flat position `k`.
pub open spec fn col_of(k: int, width: int, channels: int) -> int {
    (k / channels) % width
}

/// Row of the pixel that holds flat position `k`.
pub open spec fn row_of(k: int, width: int, channels: int) -> int {
    (k / channels) / width
}

/// Channel number of flat position `k`.
pub open spec fn chan_of(k: int, channels: int) -> int {
    k % channels
}

/// A row-major pixel buffer with `channels` bytes per pixel
/// (1: gray, 2: gray and alpha, 3: RGB, 4: RGBA).
#[derive(Clone, Debug, PartialEq, Eq)]
pub struct Raster {
    pub width: usize,
    pub height: usize,
    pub channels: usize,
    pub data: Vec<u8>,
}

/// A padded grid of elevation bytes, one per cell, row-major.
#[derive(Clone, Debug, PartialEq, Eq)]
pub struct Heightmap {
    pub width: usize,
    pub height: usize,
    pub cells: Vec<u8>,
}

impl Raster {
    pub open spec fn wf(&self) -> bool {
        &&& 1 <= self.channels <= 4
        &&& self.data@.len() == self.width * self.height * self.channels
    }

    /// A raster of the given size whose bytes all hold `value`.
    pub fn filled(width: usize, height: usize, channels: usize, value: u8) -> (r: Raster)
        requires
            1 <= channels <= 4,
            width * height * channels <= usize::MAX,
        ensures
            r.wf(),
            r.width == width,
            r.height == height,
            r.channels == channels,
            forall|k: int| 0 <= k < r.data@.len() ==> r.data@[k] == value,
    {
        assert(width * height <= width * height * channels) by (nonlinear_arith)
            requires
                1 <= channels,
        ;
        let n: usize = width * height * channels;
        let mut data: Vec<u8> = Vec::with_capacity(n);
        let mut i: usize = 0;
        while i < n
            invariant
                i <= n,
                data@.len() == i,
                forall|k: int| 0 <= k < i ==> data@[k] == value,
            decreases n - i,
        {
            data.push(value);
            i = i + 1;
        }
        Raster { width, height, channels, data }
    }
}

impl Heightmap {
    pub open spec fn wf(&self) -> bool {
        self.cells@.len() == self.width * self.height
    }

    /// Elevation of cell `(x, y)`.
    pub open spec fn at(&self, x: int, y: int) -> u8 {
        self.cells@[y * self.width + x]
    }
}

/// Row-major index of `(x, y)` in a grid `width` wide.
pub fn calc_2d_index(x: usize, width: usize, y: usize) -> (r: usize)
    requires
        y * width + x <= usize::MAX,
    ensures
        r == y * width + x,
{
    y * width + x
}

/// `a * n + b` with `b < n` determines `a` and `b`, and stays below `m * n` when `a < m`.
pub proof fn lemma_mixed_radix(a: int, b: int, n: int, m: int)
    requires
        0 <= a < m,
        0 <= b < n,
    ensures
        0 <= a * n + b < m * n,
        (a * n + b) / n == a,
        (a * n + b) % n == b,
{
    assert(0 <= a * n) by (nonlinear_arith)
        requires
            0 <= a,
            0 <= n,
    ;
    assert(a * n + b < m * n) by (nonlinear_arith)
        requires
            0 <= a < m,
            0 <= b < n,
    ;
    vstd::arithmetic::div_mod::lemma_fundamental_div_mod_converse(a * n + b, n, a, b);
}

/// The flat position of a pixel channel lies in the buffer, and the
/// column, row and channel read back from it are the ones it was made of.
pub proof fn lemma_pix(width: int, height: int, channels: int, x: int, y: int, c: int)
    requires
        0 <= x < width,
        0 <= y < height,
        0 <= c < channels,
    ensures
        0 <= pix(width, channels, x, y, c) < width * height * channels,
        col_of(pix(width, channels, x, y, c), width, channels) == x,
        row_of(pix(width, channels, x, y, c), width, channels) == y,
        chan_of(pix(width, channels, x, y, c), channels) == c,
{
    lemma_mixed_radix(y, x, width, height);
    lemma_mixed_radix(y * width + x, c, channels, width * height);
    assert(height * width == width * height) by (nonlinear_arith);
}

/// Every position of a well-formed image lies in a pixel of the image.
pub proof fn lemma_position_in_image(k: int, w: int, h: int, ch: int)
    requires
        0 <= k < w * h * ch,
        ch > 0,
        w >= 0,
        h >= 0,
    ensures
        0 <= col_of(k, w, ch) < w,
        0 <= row_of(k, w, ch) < h,
{
    let q = k / ch;
    vstd::arithmetic::div_mod::lemma_fundamental_div_mod(k, ch);
    assert(q >= 0) by {
        vstd::arithmetic::div_mod::lemma_div_pos_is_pos(k, ch);
    }
    assert(q < w * h) by (nonlinear_arith)
        requires
            k == ch * q + k % ch,
            0 <= k % ch < ch,
            k < w * h * ch,
            q >= 0,
            ch > 0,
    ;
    assert(w > 0) by (nonlinear_arith)
        requires
            0 <= q < w * h,
            w >= 0,
            h >= 0,
    ;
    vstd::arithmetic::div_mod::lemma_fundamental_div_mod(q, w);
    assert(q / w < h) by (nonlinear_arith)
        requires
            q == w * (q / w) + q % w,
            0 <= q % w,
            q < w * h,
            w > 0,
    ;
    assert(q / w >= 0) by {
        vstd::arithmetic::div_mod::lemma_div_pos_is_pos(q, w);
    }
}

/// Positions `k` with `p * n <= k < p * n + n` are those with `k / n == p`.
pub proof fn lemma_in_pixel(k: int, n: int, p: int)
    requires
        n > 0,
        p >= 0,
        k >= 0,
    ensures
        (p * n <= k < p * n + n) <==> k / n == p,
{
    vstd::arithmetic::div_mod::lemma_fundamental_div_mod(k, n);
    if p * n <= k < p * n + n {
        vstd::arithmetic::div_mod::lemma_fundamental_div_mod_converse(k, n, p, k - p * n);
    }
    if k / n == p {
        assert(k == n * p + k % n);
        assert(n * p == p * n) by (nonlinear_arith);
    }
}

/// The pixel of position `k` is `(x, y)` exactly when `k / channels` is `y * width + x`.
pub proof fn lemma_pixel_coords(k: int, width: int, channels: int, x: int, y: int)
    requires
        width > 0,
        channels > 0,
        k >= 0,
        0 <= x < width,
        0 <= y,
    ensures
        (col_of(k, width, channels) == x && row_of(k, width, channels) == y) <==> k / channels
            == y * width + x,
{
    let q = k / channels;
    vstd::arithmetic::div_mod::lemma_fundamental_div_mod(q, width);
    assert(q >= 0) by {
        vstd::arithmetic::div_mod::lemma_div_pos_is_pos(k, channels);
    }
    if q == y * width + x {
        lemma_mixed_radix_open(y, x, width);
    }
    if col_of(k, width, channels) == x && row_of(k, width, channels) == y {
        assert(q == width * y + x);
        assert(width * y == y * width) by (nonlinear_arith);
    }
}

pub proof fn lemma_mixed_radix_open(a: int, b: int, n: int)
    requires
        0 <= a,
        0 <= b < n,
    ensures
        (a * n + b) / n == a,
        (a * n + b) % n == b,
{
    lemma_mixed_radix(a, b, n, a + 1);
}

/// What is done to each channel of one pixel.
#[derive(Clone, Copy, Debug, PartialEq, Eq, Structural)]
pub enum PixelOp {
    /// Shift the brightness by this much, saturating.
    Shift(i8),
    /// Mark the pixel: colour channels get the first value, alpha the second.
    Paint(u8, u8),
}

/// Channel `c` of a pixel with `channels` channels, holding `old`, after `op`.
pub open spec fn apply_op(op: PixelOp, old: u8, c: int, channels: int) -> u8 {
    match op {
        PixelOp::Shift(s) => shift_spec(old, s),
        PixelOp::Paint(brightness, alpha) => paint(c, channels, brightness, alpha),
    }
}

fn apply_byte(op: PixelOp, old: u8, c: usize, channels: usize) -> (r: u8)
    ensures
        r == apply_op(op, old, c as int, channels as int),
{
    match op {
        PixelOp::Shift(s) => shift_byte(old, s),
        PixelOp::Paint(brightness, alpha) => {
            if (channels == 2 && c == 1) || (channels == 4 && c == 3) {
                alpha
            } else {
                brightness
            }
        },
    }
}

/// Applies `op` to every channel of pixel `(x, y)`.
pub fn map_pixel(img: &mut Raster, x: usize, y: usize, op: PixelOp)
    requires
        old(img).wf(),
        x < old(img).width,
        y < old(img).height,
    ensures
        final(img).wf(),
        final(img).width == old(img).width,
        final(img).height == old(img).height,
        final(img).channels == old(img).channels,
        forall|k: int|
            0 <= k < final(img).data@.len() ==> #[trigger] final(img).data@[k] == if k
                / (old(img).channels as int) == y * old(img).width + x {
                apply_op(op, old(img).data@[k], chan_of(k, old(img).channels as int), old(img).channels as int)
            } else {
                old(img).data@[k]
            },
{
    let ghost w = img.width as int;
    let ghost h = img.height as int;
    let ch = img.channels;
    let len = img.data.len();
    proof {
        lemma_mixed_radix(y as int, x as int, w, h);
        lemma_mixed_radix(y * w + x, ch as int - 1, ch as int, w * h);
        assert(h * w == w * h) by (nonlinear_arith);
        assert(y * w <= y * w + x);
        assert(y * w + x <= (y * w + x) * ch) by (nonlinear_arith)
            requires
                ch >= 1,
                y * w + x >= 0,
        ;
    }
    let base: usize = (y * img.width + x) * ch;
    let mut c: usize = 0;
    while c < ch
        invariant
            img.wf(),
            img.width == old(img).width,
            img.height == old(img).height,
            img.channels == ch,
            ch == old(img).channels,
            base == (y * w + x) * ch,
            base + ch <= img.data@.len(),
            img.data@.len() == old(img).data@.len(),
            len == img.data@.len(),
            c <= ch,
            forall|k: int|
                0 <= k < img.data@.len() ==> #[trigger] img.data@[k] == if base <= k < base + c {
                    apply_op(op, old(img).data@[k], k - base, ch as int)
                } else {
                    old(img).data@[k]
                },
        decreases ch - c,
    {
        let v = apply_byte(op, img.data[base + c], c, ch);
        img.data.set(base + c, v);
        c = c + 1;
    }
    assert forall|k: int| 0 <= k < img.data@.len() implies #[trigger] img.data@[k] == if k / (
    ch as int) == y * w + x {
        apply_op(op, old(img).data@[k], chan_of(k, ch as int), ch as int)
    } else {
        old(img).data@[k]
    } by {
        lemma_in_pixel(k, ch as int, y * w + x);
        if k / (ch as int) == y * w + x {
            vstd::arithmetic::div_mod::lemma_fundamental_div_mod_converse(
                k,
                ch as int,
                y * w + x,
                k - base,
            );
        }
    }
}

} // verus!
