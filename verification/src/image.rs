//! Image processing for captured screens: resizing, JPEG compression,
//! dHash perceptual hashing, Hamming distance, base64 encoding, channel
//! swapping and horizontal stitching of several displays.
//!
//! Pixels are held in [`RgbaImage`], a plain RGBA8 buffer.  The resampling
//! filters and the JPEG and base64 encoders are those of the `image` and
//! `base64` crates, reached through the trusted items at the end of the file.

use vstd::prelude::*;
use crate::text::push_char;
use base64::Engine;

verus! {

/// An RGBA8 image: `width * height` pixels of four bytes each, row-major.
/// As with `image::ImageBuffer`, the buffer may hold more bytes than the
/// pixels need; the extra bytes are ignored.
pub struct RgbaImage {
    pub width: u32,
    pub height: u32,
    pub pixels: Vec<u8>,
}

impl RgbaImage {
    /// The buffer holds at least `width * height * 4` bytes.
    pub open spec fn wf(&self) -> bool {
        self.width * self.height * 4 <= self.pixels@.len()
    }

    /// `ImageBuffer::from_raw`: an image when the buffer is large enough.
    pub fn from_raw(width: u32, height: u32, pixels: Vec<u8>) -> (res: Option<RgbaImage>)
        ensures
            res is Some <==> width * height * 4 <= pixels@.len(),
            res matches Some(img) ==> img.width == width && img.height == height && img.pixels@ == pixels@,
    {
        proof {
            lemma_mul_u32(width, height);
        }
        let need: u128 = width as u128 * height as u128 * 4;
        if need <= pixels.len() as u128 {
            Some(RgbaImage { width, height, pixels })
        } else {
            None
        }
    }

    /// An image of the given size filled with one pixel value.
    pub fn from_pixel(width: u32, height: u32, px: [u8; 4]) -> (res: RgbaImage)
        requires
            width * height * 4 <= usize::MAX,
        ensures
            res.width == width,
            res.height == height,
            res.pixels@.len() == width * height * 4,
            forall|i: int| 0 <= i < res.pixels@.len() ==> #[trigger] res.pixels@[i] == px@[i % 4],
    {
        let n: usize = (width as usize) * (height as usize) * 4;
        let mut pixels: Vec<u8> = Vec::new();
        let mut i: usize = 0;
        while i < n
            invariant
                i <= n,
                pixels@.len() == i,
                forall|k: int| 0 <= k < i ==> #[trigger] pixels@[k] == px@[k % 4],
            decreases n - i,
        {
            pixels.push(px[i % 4]);
            i = i + 1;
        }
        RgbaImage { width, height, pixels }
    }

    /// Width and height of the image.
    pub fn dimensions(&self) -> (res: (u32, u32))
        ensures
            res == (self.width, self.height),
    {
        (self.width, self.height)
    }
}

/// The size `resize_image` gives an image of `w` by `h` pixels: unchanged
/// when `w <= max_width`; otherwise `max_width` wide and, preserving the
/// aspect ratio, `h * max_width / w` high rounded half up, at least 1.
pub open spec fn resized_dims(w: u32, h: u32, max_width: u32) -> (u32, u32) {
    if w <= max_width {
        (w, h)
    } else {
        let nh = (2 * h * max_width + w) / (2 * w);
        (max_width, if nh < 1 { 1u32 } else { nh as u32 })
    }
}

/// Resizing never widens: an image no wider than `max_width` keeps its
/// size; a wider one becomes `max_width` wide and its height is the
/// proportional height rounded to the nearest whole pixel (halves up),
/// never below one pixel and never above the original height.
pub proof fn lemma_resized_dims(w: u32, h: u32, max_width: u32)
    ensures
        w <= max_width ==> resized_dims(w, h, max_width) == (w, h),
        w > max_width ==> {
            let (nw, nh) = resized_dims(w, h, max_width);
            &&& nw == max_width
            &&& 1 <= nh
            &&& (nh <= h || h == 0)
            &&& (nh > 1 ==> 2 * w * nh <= 2 * h * max_width + w)
            &&& 2 * h * max_width + w < 2 * w * (nh + 1)
        },
{
    if w > max_width {
        let a: int = 2 * h * max_width + w;
        let d: int = 2 * w;
        let q: int = a / d;
        assert(d * q <= a < d * (q + 1)) by (nonlinear_arith)
            requires
                d > 0,
                q == a / d,
        ;
        assert(a < d * (h + 1)) by (nonlinear_arith)
            requires
                a == 2 * h * max_width + w,
                d == 2 * w,
                max_width < w,
                0 <= h,
        ;
        assert(q <= h) by (nonlinear_arith)
            requires
                d * q <= a,
                a < d * (h + 1),
                d > 0,
        ;
        assert((2 * h * max_width + w) / (2 * w) == q);
        let nh = resized_dims(w, h, max_width).1;
        if q >= 1 {
            assert(nh as int == q);
            assert(2 * w * nh == d * q) by (nonlinear_arith)
                requires
                    d == 2 * w,
                    nh == q,
            ;
            assert(2 * w * (nh + 1) == d * (q + 1)) by (nonlinear_arith)
                requires
                    d == 2 * w,
                    nh == q,
            ;
        } else {
            assert(nh == 1);
            assert(q == 0);
            assert(2 * w * (nh + 1) == 2 * d) by (nonlinear_arith)
                requires
                    d == 2 * w,
                    nh == 1,
            ;
        }
    }
}

/// The product of two `u32` values fits in 64 bits.
pub proof fn lemma_mul_u32(a: u32, b: u32)
    ensures
        0 <= a * b <= 0xffff_fffe_0000_0001,
{
    assert(0 <= a * b <= 0xffff_fffe_0000_0001) by (nonlinear_arith)
        requires
            a <= 0xffff_ffff,
            b <= 0xffff_ffff,
    ;
}

/// Target height when an image of `w` by `h` is scaled to `max_width < w`.
pub(crate) fn scaled_height(w: u32, h: u32, max_width: u32) -> (nh: u32)
    requires
        max_width < w,
    ensures
        nh == resized_dims(w, h, max_width).1,
        1 <= nh <= if h < 1 { 1 } else { h },
{
    proof {
        lemma_mul_u32(h, max_width);
    }
    let num: u128 = (h as u128) * (max_width as u128) * 2 + (w as u128);
    let den: u128 = 2 * (w as u128);
    let q: u128 = num / den;
    proof {
        assert(num < den * (h as u128 + 1)) by (nonlinear_arith)
            requires
                num == (h as u128) * (max_width as u128) * 2 + (w as u128),
                den == 2 * (w as u128),
                max_width < w,
        ;
        assert(num == 2 * h * max_width + w) by (nonlinear_arith)
            requires
                num == (h as u128) * (max_width as u128) * 2 + (w as u128),
        ;
        assert(q <= h) by (nonlinear_arith)
            requires
                q == num / den,
                num < den * (h as u128 + 1),
                den > 0,
        ;
    }
    if q < 1 { 1 } else { q as u32 }
}

/// The resized pixels `p` of `img` at `max_width`: the image's own pixels
/// when it is already narrow enough, else a buffer of the resized size.  The
/// resampled pixels of a wider image are not stated: Lanczos3 weights come
/// from `f32::sin`, whose precision varies by platform and call.
pub open spec fn is_resize_of(img: &RgbaImage, max_width: u32, p: Seq<u8>) -> bool {
    let (w, h) = resized_dims(img.width, img.height, max_width);
    if img.width <= max_width { p == img.pixels@ } else { p.len() == w * h * 4 }
}

/// Resizes the image so that its width does not exceed `max_width`,
/// preserving the aspect ratio (Lanczos3 resampling).  An image that is
/// already narrow enough is returned unchanged.
pub fn resize_image(img: &RgbaImage, max_width: u32) -> (res: RgbaImage)
    requires
        img.wf(),
        resized_dims(img.width, img.height, max_width).0 * resized_dims(img.width, img.height, max_width).1 * 4
            <= usize::MAX,
    ensures
        res.wf(),
        (res.width, res.height) == resized_dims(img.width, img.height, max_width),
        is_resize_of(img, max_width, res.pixels@),
{
    if img.width <= max_width {
        let pixels = copy_bytes(&img.pixels);
        return RgbaImage { width: img.width, height: img.height, pixels };
    }
    let nh = scaled_height(img.width, img.height, max_width);
    let pixels = lanczos_resize(&img.pixels, img.width, img.height, max_width, nh);
    RgbaImage { width: max_width, height: nh, pixels }
}

/// A copy of a byte vector.
pub fn copy_bytes(v: &Vec<u8>) -> (res: Vec<u8>)
    ensures
        res@ == v@,
{
    let mut out: Vec<u8> = Vec::new();
    let mut i: usize = 0;
    while i < v.len()
        invariant
            i <= v.len(),
            out@ == v@.take(i as int),
        decreases v.len() - i,
    {
        out.push(v[i]);
        proof {
            assert(v@.take(i + 1) =~= v@.take(i as int).push(v@[i as int]));
        }
        i = i + 1;
    }
    proof {
        assert(v@.take(v@.len() as int) =~= v@);
    }
    out
}

// ---------------------------------------------------------------------------
// dHash
// ---------------------------------------------------------------------------

/// Bit `k` of `x`.
pub open spec fn bit_of(x: u64, k: u64) -> bool {
    (x >> k) & 1u64 == 1u64
}

/// Bit `k` (0..64) of the dHash of a 9x8 greyscale thumbnail `luma`
/// (row-major, 9 wide): set when the pixel at column `k % 8` of row `k / 8`
/// is brighter than its right-hand neighbour.
pub open spec fn dhash_bit(luma: Seq<u8>, k: int) -> bool {
    luma[(k / 8) * 9 + k % 8] > luma[(k / 8) * 9 + k % 8 + 1]
}

/// The lowercase hexadecimal digit for `d < 16`.
pub open spec fn hex_digit_char(d: u64) -> char {
    if d < 10 {
        crate::fmt::digit_char(d as nat)
    } else if d == 10 { 'a' }
    else if d == 11 { 'b' }
    else if d == 12 { 'c' }
    else if d == 13 { 'd' }
    else if d == 14 { 'e' }
    else { 'f' }
}

/// `format!("{:016x}", x)`: sixteen lowercase hex digits, most significant first.
pub open spec fn hex16(x: u64) -> Seq<char> {
    Seq::new(16, |i: int| hex_digit_char((x >> ((60 - 4 * i) as u64)) & 15u64))
}

proof fn lemma_set_bit(b: u64, i: u64, j: u64)
    requires
        i < 64,
        j < 64,
    ensures
        bit_of(b | (1u64 << i), j) == (if j == i { true } else { bit_of(b, j) }),
{
    assert((((b | (1u64 << i)) >> j) & 1u64 == 1u64) == (if j == i { true } else { (b >> j) & 1u64 == 1u64 }))
        by (bit_vector)
        requires
            i < 64,
            j < 64,
    ;
}

/// The dHash bits of a 9x8 greyscale thumbnail.
pub fn dhash_from_luma(luma: &Vec<u8>) -> (bits: u64)
    requires
        luma@.len() == 72,
    ensures
        forall|k: u64| k < 64 ==> (bit_of(bits, k) <==> dhash_bit(luma@, k as int)),
{
    let mut bits: u64 = 0;
    let mut idx: u64 = 0;
    proof {
        assert forall|k: u64| k < 64 implies !bit_of(0u64, k) by {
            assert((0u64 >> k) & 1u64 == 0u64) by (bit_vector);
        }
    }
    while idx < 64
        invariant
            idx <= 64,
            luma@.len() == 72,
            forall|k: u64| k < idx ==> (bit_of(bits, k) <==> dhash_bit(luma@, k as int)),
            forall|k: u64| idx <= k < 64 ==> !bit_of(bits, k),
        decreases 64 - idx,
    {
        let y: usize = (idx / 8) as usize;
        let x: usize = (idx % 8) as usize;
        let left = luma[y * 9 + x];
        let right = luma[y * 9 + x + 1];
        let ghost old_bits = bits;
        if left > right {
            bits = bits | (1u64 << idx);
            proof {
                assert forall|k: u64| k < 64 implies bit_of(bits, k) == (if k == idx { true } else { bit_of(old_bits, k) }) by {
                    lemma_set_bit(old_bits, idx, k);
                }
            }
        }
        idx = idx + 1;
    }
    bits
}

/// The lowercase hex digit of `d < 16`.
fn hex_digit(d: u64) -> (c: char)
    requires
        d < 16,
    ensures
        c == hex_digit_char(d),
{
    if d < 10 {
        crate::fmt::digit(d)
    } else if d == 10 { 'a' }
    else if d == 11 { 'b' }
    else if d == 12 { 'c' }
    else if d == 13 { 'd' }
    else if d == 14 { 'e' }
    else { 'f' }
}

/// `format!("{:016x}", x)`.
pub fn format_hex16(x: u64) -> (s: String)
    ensures
        s@ == hex16(x),
        s@.len() == 16,
{
    let mut s = String::new();
    let mut i: u64 = 0;
    while i < 16
        invariant
            i <= 16,
            s@ == hex16(x).take(i as int),
        decreases 16 - i,
    {
        let shift: u64 = 60 - 4 * i;
        let d = (x >> shift) & 15u64;
        assert(d < 16) by (bit_vector)
            requires
                d == (x >> shift) & 15u64,
        ;
        push_char(&mut s, hex_digit(d));
        proof {
            assert(hex16(x).take(i + 1) =~= hex16(x).take(i as int).push(hex_digit_char(d)));
        }
        i = i + 1;
    }
    proof {
        assert(hex16(x).take(16) =~= hex16(x));
    }
    s
}

/// Bit `c` of row `r` of the dHash compares the pixel at column `c` of row
/// `r` with the pixel to its right, and nothing else.
pub proof fn lemma_dhash_bit_compares_neighbours(luma: Seq<u8>, r: int, c: int)
    requires
        luma.len() == 72,
        0 <= r < 8,
        0 <= c < 8,
    ensures
        dhash_bit(luma, 8 * r + c) <==> luma[9 * r + c] > luma[9 * r + c + 1],
{
    assert((8 * r + c) / 8 == r && (8 * r + c) % 8 == c) by (nonlinear_arith)
        requires
            0 <= r,
            0 <= c < 8,
    ;
}

/// The dHash bits of a thumbnail, row by row: bit `8 * r + c` is set exactly
/// when the pixel at column `c` of row `r` is brighter than its right-hand
/// neighbour, for every row, the top one and all below it.
pub proof fn lemma_dhash_bits_by_pixel(luma: Seq<u8>, bits: u64)
    requires
        luma.len() == 72,
        forall|k: u64| k < 64 ==> (bit_of(bits, k) <==> dhash_bit(luma, k as int)),
    ensures
        forall|r: int, c: int| 0 <= r < 8 && 0 <= c < 8 ==>
            (bit_of(bits, (8 * r + c) as u64) <==> #[trigger] luma[9 * r + c] > luma[9 * r + c + 1]),
{
    assert forall|r: int, c: int| 0 <= r < 8 && 0 <= c < 8 implies
        (bit_of(bits, (8 * r + c) as u64) <==> #[trigger] luma[9 * r + c] > luma[9 * r + c + 1]) by {
        lemma_dhash_bit_compares_neighbours(luma, r, c);
        assert(bit_of(bits, (8 * r + c) as u64) <==> dhash_bit(luma, ((8 * r + c) as u64) as int));
    }
}

proof fn lemma_hex_digit_injective(a: u64, b: u64)
    requires
        a < 16,
        b < 16,
        hex_digit_char(a) == hex_digit_char(b),
    ensures
        a == b,
{
}

proof fn lemma_hex16_nibble(x: u64, y: u64, i: int)
    requires
        hex16(x) == hex16(y),
        0 <= i < 16,
    ensures
        (x >> ((60 - 4 * i) as u64)) & 15u64 == (y >> ((60 - 4 * i) as u64)) & 15u64,
{
    let s = (60 - 4 * i) as u64;
    let dx = (x >> s) & 15u64;
    let dy = (y >> s) & 15u64;
    assert(dx < 16 && dy < 16) by (bit_vector)
        requires
            dx == (x >> s) & 15u64,
            dy == (y >> s) & 15u64,
    ;
    assert(hex16(x)[i] == hex_digit_char(dx));
    assert(hex16(y)[i] == hex_digit_char(dy));
    lemma_hex_digit_injective(dx, dy);
}

/// Different bits give different hash texts.
pub proof fn lemma_hex16_injective(x: u64, y: u64)
    requires
        hex16(x) == hex16(y),
    ensures
        x == y,
{
    lemma_hex16_nibble(x, y, 0);
    lemma_hex16_nibble(x, y, 1);
    lemma_hex16_nibble(x, y, 2);
    lemma_hex16_nibble(x, y, 3);
    lemma_hex16_nibble(x, y, 4);
    lemma_hex16_nibble(x, y, 5);
    lemma_hex16_nibble(x, y, 6);
    lemma_hex16_nibble(x, y, 7);
    lemma_hex16_nibble(x, y, 8);
    lemma_hex16_nibble(x, y, 9);
    lemma_hex16_nibble(x, y, 10);
    lemma_hex16_nibble(x, y, 11);
    lemma_hex16_nibble(x, y, 12);
    lemma_hex16_nibble(x, y, 13);
    lemma_hex16_nibble(x, y, 14);
    lemma_hex16_nibble(x, y, 15);
    assert(x == y) by (bit_vector)
        requires
            (x >> 60u64) & 15u64 == (y >> 60u64) & 15u64,
            (x >> 56u64) & 15u64 == (y >> 56u64) & 15u64,
            (x >> 52u64) & 15u64 == (y >> 52u64) & 15u64,
            (x >> 48u64) & 15u64 == (y >> 48u64) & 15u64,
            (x >> 44u64) & 15u64 == (y >> 44u64) & 15u64,
            (x >> 40u64) & 15u64 == (y >> 40u64) & 15u64,
            (x >> 36u64) & 15u64 == (y >> 36u64) & 15u64,
            (x >> 32u64) & 15u64 == (y >> 32u64) & 15u64,
            (x >> 28u64) & 15u64 == (y >> 28u64) & 15u64,
            (x >> 24u64) & 15u64 == (y >> 24u64) & 15u64,
            (x >> 20u64) & 15u64 == (y >> 20u64) & 15u64,
            (x >> 16u64) & 15u64 == (y >> 16u64) & 15u64,
            (x >> 12u64) & 15u64 == (y >> 12u64) & 15u64,
            (x >> 8u64) & 15u64 == (y >> 8u64) & 15u64,
            (x >> 4u64) & 15u64 == (y >> 4u64) & 15u64,
            (x >> 0u64) & 15u64 == (y >> 0u64) & 15u64,
    ;
}

proof fn lemma_hex_digit_value(d: u64)
    requires
        d < 16,
    ensures
        hex_value(hex_digit_char(d)) == Some(d as nat),
        hex_digit_char(d) != '+',
{
}

proof fn lemma_hex16_prefix_value(x: u64, i: int)
    requires
        0 <= i <= 16,
    ensures
        hex_digits_value(hex16(x).take(i)) == Some(if i == 0 { 0nat } else { (x >> ((64 - 4 * i) as u64)) as nat }),
    decreases i,
{
    if i == 0 {
        assert(hex16(x).take(0) =~= Seq::<char>::empty());
    } else {
        let j = i - 1;
        lemma_hex16_prefix_value(x, j);
        let t = hex16(x).take(i);
        assert(t.drop_last() =~= hex16(x).take(j));
        let sh = (60 - 4 * j) as u64;
        let d = (x >> sh) & 15u64;
        assert(d < 16) by (bit_vector)
            requires
                d == (x >> sh) & 15u64,
        ;
        assert(t.last() == hex_digit_char(d));
        lemma_hex_digit_value(d);
        if j == 0 {
            assert(sh == 60);
            assert((x >> 60u64) & 15u64 == x >> 60u64) by (bit_vector);
        } else {
            let sp = (64 - 4 * j) as u64;
            assert(sp == sh + 4);
            assert(((x >> sp) as int) * 16 + (d as int) == (x >> sh) as int) by (bit_vector)
                requires
                    sh <= 56,
                    sp == sh + 4,
                    d == (x >> sh) & 15u64,
            ;
        }
    }
}

/// A hash text reads back as the bits it was written from.
pub proof fn lemma_hex16_value(x: u64)
    ensures
        hash_value(hex16(x)) == x,
        parse_hex_u64(hex16(x)) == Some(x),
{
    lemma_hex16_prefix_value(x, 16);
    assert(hex16(x).take(16) =~= hex16(x));
    let d0 = (x >> 60u64) & 15u64;
    assert(d0 < 16) by (bit_vector)
        requires
            d0 == (x >> 60u64) & 15u64,
    ;
    lemma_hex_digit_value(d0);
    assert(hex16(x)[0] == hex_digit_char(d0));
    assert((x >> 0u64) == x) by (bit_vector);
}

/// No pixel of the thumbnail is overlooked: when two thumbnails differ in
/// whether the pixel at column `c` of row `r` is brighter than its right-hand
/// neighbour, their dHash texts differ, whichever row it is.
pub proof fn lemma_dhash_text_sees_every_pixel(l1: Seq<u8>, l2: Seq<u8>, h1: Seq<char>, h2: Seq<char>, r: int, c: int)
    requires
        l1.len() == 72,
        l2.len() == 72,
        is_dhash_text(h1, l1),
        is_dhash_text(h2, l2),
        0 <= r < 8,
        0 <= c < 8,
        (l1[9 * r + c] > l1[9 * r + c + 1]) != (l2[9 * r + c] > l2[9 * r + c + 1]),
    ensures
        h1 != h2,
{
    let b1 = choose|bits: u64| {
        &&& h1 == #[trigger] hex16(bits)
        &&& forall|k: u64| k < 64 ==> (bit_of(bits, k) <==> dhash_bit(l1, k as int))
    };
    let b2 = choose|bits: u64| {
        &&& h2 == #[trigger] hex16(bits)
        &&& forall|k: u64| k < 64 ==> (bit_of(bits, k) <==> dhash_bit(l2, k as int))
    };
    lemma_dhash_bits_by_pixel(l1, b1);
    lemma_dhash_bits_by_pixel(l2, b2);
    assert((l1[9 * r + c] > l1[9 * r + c + 1]) <==> bit_of(b1, (8 * r + c) as u64));
    assert((l2[9 * r + c] > l2[9 * r + c + 1]) <==> bit_of(b2, (8 * r + c) as u64));
    if h1 == h2 {
        lemma_hex16_injective(b1, b2);
    }
}

/// `hash` is the dHash text of the 9x8 greyscale thumbnail `luma`: sixteen
/// lowercase hex digits whose bit `k` says whether pixel `k` is brighter
/// than its right-hand neighbour.
pub open spec fn is_dhash_text(hash: Seq<char>, luma: Seq<u8>) -> bool {
    exists|bits: u64| {
        &&& hash == #[trigger] hex16(bits)
        &&& forall|k: u64| k < 64 ==> (bit_of(bits, k) <==> dhash_bit(luma, k as int))
    }
}

/// The dHash text of a 9x8 greyscale thumbnail (72 bytes, row by row).
pub fn dhash_of_thumbnail(luma: &Vec<u8>) -> (hash: String)
    requires
        luma@.len() == 72,
    ensures
        hash@.len() == 16,
        is_dhash_text(hash@, luma@),
{
    let bits = dhash_from_luma(luma);
    let hash = format_hex16(bits);
    proof {
        assert(hash@ == hex16(bits));
    }
    hash
}

/// Computes the dHash (difference hash) of the image as sixteen lowercase
/// hex digits: the image is reduced to a 9x8 greyscale thumbnail and each
/// pixel is compared with its right-hand neighbour.  The thumbnail's pixels
/// come from Lanczos3 resampling and are not stated; the hash is that of
/// some 72-byte thumbnail.
pub fn compute_dhash(img: &RgbaImage) -> (hash: String)
    requires
        img.wf(),
    ensures
        hash@.len() == 16,
        exists|luma: Seq<u8>| luma.len() == 72 && #[trigger] is_dhash_text(hash@, luma),
{
    let luma = grey_thumbnail(&img.pixels, img.width, img.height);
    dhash_of_thumbnail(&luma)
}

// ---------------------------------------------------------------------------
// Hamming distance of hex hashes
// ---------------------------------------------------------------------------

/// Value of a hexadecimal digit, either case.
pub open spec fn hex_value(c: char) -> Option<nat> {
    if '0' <= c && c <= '9' {
        Some((c as nat - '0' as nat) as nat)
    } else if 'a' <= c && c <= 'f' {
        Some((c as nat - 'a' as nat + 10) as nat)
    } else if 'A' <= c && c <= 'F' {
        Some((c as nat - 'A' as nat + 10) as nat)
    } else {
        None
    }
}

/// Value of a sequence of hex digits, or `None` when one is not a hex digit.
pub open spec fn hex_digits_value(s: Seq<char>) -> Option<nat>
    decreases s.len(),
{
    if s.len() == 0 {
        Some(0nat)
    } else {
        match (hex_digits_value(s.drop_last()), hex_value(s.last())) {
            (Some(v), Some(d)) => Some(v * 16 + d),
            _ => None,
        }
    }
}

/// `u64::from_str_radix(s, 16).ok()`: an optional leading `+`, then at least
/// one hex digit, with a value that fits in 64 bits.
pub open spec fn parse_hex_u64(s: Seq<char>) -> Option<u64> {
    if s.len() == 0 || (s.len() == 1 && (s[0] == '+' || s[0] == '-')) {
        None
    } else {
        let digits = if s[0] == '+' { s.drop_first() } else { s };
        match hex_digits_value(digits) {
            Some(v) => if v <= u64::MAX { Some(v as u64) } else { None },
            None => None,
        }
    }
}

proof fn lemma_hex_prefix_le(s: Seq<char>, i: int)
    requires
        0 <= i <= s.len(),
        hex_digits_value(s) is Some,
    ensures
        hex_digits_value(s.take(i)) is Some,
        hex_digits_value(s.take(i))->0 <= hex_digits_value(s)->0,
    decreases s.len(),
{
    if i < s.len() {
        assert(s.drop_last().take(i) =~= s.take(i));
        lemma_hex_prefix_le(s.drop_last(), i);
    } else {
        assert(s.take(i) =~= s);
    }
}

/// Parses a hexadecimal `u64` as `u64::from_str_radix(s, 16)` does.
pub fn parse_hex(s: &str) -> (res: Option<u64>)
    ensures
        res == parse_hex_u64(s@),
{
    let v = crate::text::chars_of(s);
    if v.len() == 0 {
        return None;
    }
    if v.len() == 1 && (v[0] == '+' || v[0] == '-') {
        return None;
    }
    let start: usize = if v[0] == '+' { 1 } else { 0 };
    let ghost digits = if v@[0] == '+' { v@.drop_first() } else { v@ };
    proof {
        assert(digits =~= v@.subrange(start as int, v@.len() as int));
    }
    let mut acc: u64 = 0;
    let mut i: usize = start;
    proof {
        assert(digits.take(0) =~= Seq::<char>::empty());
    }
    while i < v.len()
        invariant
            start <= i <= v.len(),
            v@ == s@,
            v@.len() >= 1,
            !(v@.len() == 1 && (v@[0] == '+' || v@[0] == '-')),
            digits == (if v@[0] == '+' { v@.drop_first() } else { v@ }),
            digits == v@.subrange(start as int, v@.len() as int),
            hex_digits_value(digits.take(i - start)) == Some(acc as nat),
        decreases v.len() - i,
    {
        let c = v[i];
        let d: u64 = if '0' <= c && c <= '9' {
            (c as u32 - '0' as u32) as u64
        } else if 'a' <= c && c <= 'f' {
            (c as u32 - 'a' as u32 + 10) as u64
        } else if 'A' <= c && c <= 'F' {
            (c as u32 - 'A' as u32 + 10) as u64
        } else {
            proof {
                let k = i - start;
                assert(digits.take(k + 1).last() == c);
                assert(digits.take(k + 1).drop_last() =~= digits.take(k));
                assert(hex_digits_value(digits.take(k + 1)) is None);
                if hex_digits_value(digits) is Some {
                    lemma_hex_prefix_le(digits, k + 1);
                }
                assert(hex_digits_value(digits) is None);
                assert(v@ == s@);
                assert(parse_hex_u64(s@) is None);
            }
            return None;
        };
        proof {
            let k = i - start;
            assert(digits.take(k + 1).last() == c);
            assert(digits.take(k + 1).drop_last() =~= digits.take(k));
            assert(hex_digits_value(digits.take(k + 1)) == Some(acc as nat * 16 + d as nat));
        }
        match acc.checked_mul(16) {
            Some(m) => match m.checked_add(d) {
                Some(n) => {
                    acc = n;
                }
                None => {
                    proof {
                        let k = i - start;
                        if hex_digits_value(digits) is Some {
                            lemma_hex_prefix_le(digits, k + 1);
                            assert(hex_digits_value(digits)->0 > u64::MAX);
                        }
                    }
                    return None;
                }
            },
            None => {
                proof {
                    let k = i - start;
                    assert(acc * 16 > u64::MAX);
                    if hex_digits_value(digits) is Some {
                        lemma_hex_prefix_le(digits, k + 1);
                        assert(hex_digits_value(digits)->0 > u64::MAX);
                    }
                }
                return None;
            }
        }
        i = i + 1;
    }
    proof {
        assert(digits.take(i - start) =~= digits);
    }
    Some(acc)
}

/// Number of set bits of `x`.
pub open spec fn popcount(x: nat) -> nat
    decreases x,
{
    if x == 0 { 0 } else { x % 2 + popcount(x / 2) }
}

/// `u64::count_ones`.
pub fn count_ones(x: u64) -> (n: u32)
    ensures
        n as nat == popcount(x as nat),
        n <= 64,
{
    let mut y = x;
    let mut n: u32 = 0;
    let mut steps: u32 = 0;
    proof {
        assert(x <= (0xffff_ffff_ffff_ffffu64 >> 0u32)) by (bit_vector);
    }
    while y != 0
        invariant
            n as nat + popcount(y as nat) == popcount(x as nat),
            n <= steps,
            steps <= 64,
            steps < 64 ==> y <= (0xffff_ffff_ffff_ffffu64 >> steps),
            steps == 64 ==> y == 0,
        decreases y,
    {
        proof {
            let s = steps;
            assert(y <= (0xffff_ffff_ffff_ffffu64 >> s) && s < 64 ==> (s < 63 ==> y / 2 <= (0xffff_ffff_ffff_ffffu64 >> (s + 1)))
                && (s == 63 ==> y / 2 == 0)) by (bit_vector);
        }
        n = n + (y % 2) as u32;
        y = y / 2;
        steps = steps + 1;
    }
    n
}

/// Hamming distance between two hash strings: the number of differing bits
/// of their values as hexadecimal `u64`s, where a string that does not
/// parse counts as 0.
pub open spec fn hash_value(s: Seq<char>) -> u64 {
    match parse_hex_u64(s) {
        Some(v) => v,
        None => 0,
    }
}

/// Number of bits in which the hex values of two dHash strings differ.
pub fn hamming_distance(hash1: &str, hash2: &str) -> (d: u32)
    ensures
        d as nat == popcount((hash_value(hash1@) ^ hash_value(hash2@)) as nat),
        d <= 64,
{
    let a = match parse_hex(hash1) {
        Some(v) => v,
        None => 0,
    };
    let b = match parse_hex(hash2) {
        Some(v) => v,
        None => 0,
    };
    count_ones(a ^ b)
}

// ---------------------------------------------------------------------------
// JPEG compression and base64
// ---------------------------------------------------------------------------

/// Compresses an image to JPEG bytes: first resizes it to `max_width`
/// (preserving the aspect ratio), then encodes it as RGB JPEG with the given
/// `quality` (1-100).
pub fn compress_jpeg(img: &RgbaImage, quality: u8, max_width: u32) -> (bytes: Vec<u8>)
    requires
        img.wf(),
        1 <= resized_dims(img.width, img.height, max_width).0 <= 65535,
        1 <= resized_dims(img.width, img.height, max_width).1 <= 65535,
        resized_dims(img.width, img.height, max_width).0 * resized_dims(img.width, img.height, max_width).1 * 4
            <= usize::MAX,
    ensures
        exists|p: Seq<u8>|
            is_resize_of(img, max_width, p) && bytes@ == #[trigger] jpeg_rgb8(
                p,
                resized_dims(img.width, img.height, max_width).0,
                resized_dims(img.width, img.height, max_width).1,
                quality,
            ),
        bytes@.len() >= 2 && bytes@[0] == 0xFF && bytes@[1] == 0xD8,
{
    let resized = resize_image(img, max_width);
    jpeg_encode(&resized.pixels, resized.width, resized.height, quality)
}

/// Encodes bytes as standard base64 with `=` padding (some LLM providers
/// reject the unpadded form).
pub fn encode_base64(bytes: &[u8]) -> (s: String)
    requires
        bytes@.len() <= usize::MAX / 2,
    ensures
        s@ == base64_standard(bytes@),
        s@.len() == 4 * ((bytes@.len() + 2) / 3),
{
    standard_base64(bytes)
}

// ---------------------------------------------------------------------------
// Raw capture buffers
// ---------------------------------------------------------------------------

/// Channels 0 and 2 of every complete four-byte pixel swapped.
pub open spec fn swapped_bgra(p: Seq<u8>) -> Seq<u8> {
    Seq::new(p.len(), |i: int|
        if i >= p.len() - p.len() % 4 { p[i] }
        else if i % 4 == 0 { p[i + 2] }
        else if i % 4 == 2 { p[i - 2] }
        else { p[i] })
}

/// Swaps the B and R channels of every pixel in place (BGRA <-> RGBA); a
/// trailing partial pixel is left alone.
pub fn bgra_to_rgba(pixels: &mut Vec<u8>)
    ensures
        final(pixels)@ == swapped_bgra(old(pixels)@),
{
    let n = pixels.len();
    let full = n - n % 4;
    let mut i: usize = 0;
    while i < full
        invariant
            n == pixels.len(),
            full == n - n % 4,
            old(pixels)@.len() == n,
            i <= full,
            i % 4 == 0,
            forall|k: int| 0 <= k < i ==> #[trigger] pixels@[k] == swapped_bgra(old(pixels)@)[k],
            forall|k: int| i <= k < n ==> #[trigger] pixels@[k] == old(pixels)@[k],
        decreases full - i,
    {
        let ghost pre = pixels@;
        let b = pixels[i];
        let r = pixels[i + 2];
        pixels.set(i, r);
        pixels.set(i + 2, b);
        proof {
            let o = old(pixels)@;
            assert(pre[i as int] == o[i as int]);
            assert(pre[i + 2] == o[i + 2]);
            assert forall|k: int| 0 <= k < i + 4 implies #[trigger] pixels@[k] == swapped_bgra(o)[k] by {
                if k >= i {
                    assert(k < n - n % 4);
                    assert(k % 4 == k - i);
                    assert(pre[k] == o[k]);
                } else {
                    assert(pre[k] == swapped_bgra(o)[k]);
                }
            }
            assert forall|k: int| i + 4 <= k < n implies #[trigger] pixels@[k] == o[k] by {
                assert(pre[k] == o[k]);
            }
        }
        i = i + 4;
    }
    proof {
        assert(pixels@ =~= swapped_bgra(old(pixels)@));
    }
}

/// Swapping the channels twice gives the buffer back.
pub proof fn lemma_bgra_involution(p: Seq<u8>)
    ensures
        swapped_bgra(swapped_bgra(p)) == p,
{
    assert(swapped_bgra(swapped_bgra(p)) =~= p);
}

/// The part of a `w` by `h` rectangle at (`x`, `y`) that a blur touches in
/// an `img_w` by `img_h` image: the corner is moved inside the image (to
/// its last column or row at most) and the size cut at the image's edge.
/// `None` when nothing is left to blur.
pub open spec fn blur_region_spec(img_w: u32, img_h: u32, x: u32, y: u32, w: u32, h: u32)
    -> Option<(u32, u32, u32, u32)>
{
    let last_x: int = if img_w == 0 { 0 } else { img_w - 1 };
    let last_y: int = if img_h == 0 { 0 } else { img_h - 1 };
    let cx: int = if x <= last_x { x as int } else { last_x };
    let cy: int = if y <= last_y { y as int } else { last_y };
    let cw: int = if w <= img_w - cx { w as int } else { img_w - cx };
    let ch: int = if h <= img_h - cy { h as int } else { img_h - cy };
    if cw == 0 || ch == 0 {
        None
    } else {
        Some((cx as u32, cy as u32, cw as u32, ch as u32))
    }
}

/// Clipping a blur rectangle: a rectangle that lies inside the image is
/// kept as it is; any clipped rectangle lies inside the image and inside
/// the requested one, starting where it was asked whenever that start is
/// inside the image.
pub proof fn lemma_blur_region_clips(img_w: u32, img_h: u32, x: u32, y: u32, w: u32, h: u32)
    ensures
        (w > 0 && h > 0 && x + w <= img_w && y + h <= img_h) ==> blur_region_spec(img_w, img_h, x, y, w, h) == Some((x, y, w, h)),
        blur_region_spec(img_w, img_h, x, y, w, h) matches Some((cx, cy, cw, ch)) ==> {
            &&& 0 < cw <= w && 0 < ch <= h
            &&& cx + cw <= img_w && cy + ch <= img_h
            &&& (x < img_w ==> cx == x) && (y < img_h ==> cy == y)
            &&& (x < img_w && x + w <= img_w ==> cw == w) && (y < img_h && y + h <= img_h ==> ch == h)
        },
        (img_w == 0 || img_h == 0 || w == 0 || h == 0) ==> blur_region_spec(img_w, img_h, x, y, w, h) is None,
{
}

/// Clips a blur rectangle to an image, as `blur_region_spec` says; the
/// pixels it returns all lie inside the image.
pub fn blur_region(img_w: u32, img_h: u32, x: u32, y: u32, w: u32, h: u32)
    -> (r: Option<(u32, u32, u32, u32)>)
    ensures
        r == blur_region_spec(img_w, img_h, x, y, w, h),
        r matches Some((cx, cy, cw, ch)) ==> cw > 0 && ch > 0 && cx + cw <= img_w && cy + ch <= img_h,
{
    let last_x: u32 = if img_w == 0 { 0 } else { img_w - 1 };
    let last_y: u32 = if img_h == 0 { 0 } else { img_h - 1 };
    let cx: u32 = if x <= last_x { x } else { last_x };
    let cy: u32 = if y <= last_y { y } else { last_y };
    let cw: u32 = if w <= img_w - cx { w } else { img_w - cx };
    let ch: u32 = if h <= img_h - cy { h } else { img_h - cy };
    if cw == 0 || ch == 0 {
        None
    } else {
        Some((cx, cy, cw, ch))
    }
}

/// The byte at position `p` of a `w`-pixel-wide block cut from an RGBA image
/// `width` pixels wide at column `x`, row `y`.
pub open spec fn block_byte(pixels: Seq<u8>, width: int, x: int, y: int, w: int, p: int) -> u8 {
    let q = p / 4;
    pixels[((y + q / w) * width + x + q % w) * 4 + p % 4]
}

/// Whether byte `p` of an RGBA image `width` pixels wide lies in the `w` by
/// `h` rectangle at (`x`, `y`).
pub open spec fn in_rect(width: int, x: int, y: int, w: int, h: int, p: int) -> bool {
    let q = p / 4;
    x <= q % width < x + w && y <= q / width < y + h
}

/// The byte at position `p` of an RGBA image `width` pixels wide once the
/// `w`-pixel-wide `block` is pasted at (`x`, `y`): the block's pixel inside
/// the rectangle, the image's own byte outside it.
pub open spec fn pasted_byte(pixels: Seq<u8>, width: int, x: int, y: int, w: int, h: int, block: Seq<u8>, p: int) -> u8 {
    let q = p / 4;
    if in_rect(width, x, y, w, h, p) {
        block[((q / width - y) * w + (q % width - x)) * 4 + p % 4]
    } else {
        pixels[p]
    }
}

proof fn lemma_block_index(width: int, x: int, y: int, w: int, h: int, p: int)
    requires
        0 <= x,
        0 <= y,
        w > 0,
        x + w <= width,
        0 <= p < w * h * 4,
    ensures
        0 <= ((y + (p / 4) / w) * width + x + (p / 4) % w) * 4 + p % 4 < (y + h) * width * 4,
{
    let q = p / 4;
    assert(0 <= q < w * h) by (nonlinear_arith)
        requires q == p / 4, 0 <= p < w * h * 4;
    assert(0 <= q / w < h && 0 <= q % w < w) by (nonlinear_arith)
        requires 0 <= q < w * h, w > 0;
    let r = q / w;
    let c = q % w;
    assert(0 <= ((y + r) * width + x + c) * 4 + p % 4 < (y + h) * width * 4) by (nonlinear_arith)
        requires 0 <= r < h, 0 <= c < w, x + w <= width, 0 <= x, 0 <= y, 0 <= p % 4 < 4;
}

proof fn lemma_paste_index(width: int, height: int, x: int, y: int, w: int, h: int, p: int)
    requires
        width > 0,
        0 <= p < width * height * 4,
        in_rect(width, x, y, w, h, p),
    ensures
        0 <= (((p / 4) / width - y) * w + ((p / 4) % width - x)) * 4 + p % 4 < w * h * 4,
{
    let q = p / 4;
    let r = q / width - y;
    let c = q % width - x;
    assert(0 <= r < h && 0 <= c < w);
    assert(0 <= (r * w + c) * 4 + p % 4 < w * h * 4) by (nonlinear_arith)
        requires 0 <= r < h, 0 <= c < w, 0 <= p % 4 < 4;
}

/// Cuts the `w` by `h` block at (`x`, `y`) out of an RGBA image `width`
/// by `height` pixels, row by row (the block a blur works on).
pub fn crop_region(pixels: &Vec<u8>, width: u32, height: u32, x: u32, y: u32, w: u32, h: u32) -> (block: Vec<u8>)
    requires
        pixels@.len() == width * height * 4,
        width * height * 4 <= usize::MAX,
        x + w <= width,
        y + h <= height,
        w > 0,
    ensures
        block@.len() == w * h * 4,
        forall|p: int| 0 <= p < block@.len() ==> #[trigger] block@[p] == block_byte(
            pixels@, width as int, x as int, y as int, w as int, p,
        ),
{
    proof {
        assert(w * h * 4 <= width * height * 4) by (nonlinear_arith)
            requires w <= width, h <= height;
        assert((y + h) * width * 4 <= width * height * 4) by (nonlinear_arith)
            requires y + h <= height;
    }
    let n: usize = w as usize * h as usize * 4;
    let mut block: Vec<u8> = Vec::new();
    let mut p: usize = 0;
    while p < n
        invariant
            n == w * h * 4,
            pixels@.len() == width * height * 4,
            (y + h) * width * 4 <= width * height * 4,
            width * height * 4 <= usize::MAX,
            x + w <= width,
            w > 0,
            p <= n,
            block@.len() == p,
            forall|k: int| 0 <= k < p ==> #[trigger] block@[k] == block_byte(
                pixels@, width as int, x as int, y as int, w as int, k,
            ),
        decreases n - p,
    {
        proof {
            lemma_block_index(width as int, x as int, y as int, w as int, h as int, p as int);
        }
        let q: u128 = p as u128 / 4;
        let wide: u128 = ((y as u128 + q / w as u128) * width as u128 + x as u128 + q % w as u128) * 4 + p as u128 % 4;
        let idx: usize = wide as usize;
        block.push(pixels[idx]);
        p = p + 1;
    }
    block
}

/// Pastes the `w` by `h` RGBA `block` into an image `width` by `height`
/// pixels at (`x`, `y`): the rectangle takes the block's pixels, every other
/// byte is kept, and the size does not change.
pub fn paste_region(pixels: &Vec<u8>, width: u32, height: u32, x: u32, y: u32, w: u32, h: u32, block: &Vec<u8>) -> (out: Vec<u8>)
    requires
        pixels@.len() == width * height * 4,
        width * height * 4 <= usize::MAX,
        x + w <= width,
        y + h <= height,
        block@.len() == w * h * 4,
    ensures
        out@.len() == pixels@.len(),
        forall|p: int| 0 <= p < out@.len() ==> #[trigger] out@[p] == pasted_byte(
            pixels@, width as int, x as int, y as int, w as int, h as int, block@, p,
        ),
{
    let n = pixels.len();
    let mut out: Vec<u8> = Vec::new();
    let mut p: usize = 0;
    while p < n
        invariant
            n == pixels@.len(),
            pixels@.len() == width * height * 4,
            width * height * 4 <= usize::MAX,
            x + w <= width,
            y + h <= height,
            block@.len() == w * h * 4,
            p <= n,
            out@.len() == p,
            forall|k: int| 0 <= k < p ==> #[trigger] out@[k] == pasted_byte(
                pixels@, width as int, x as int, y as int, w as int, h as int, block@, k,
            ),
        decreases n - p,
    {
        proof {
            assert(width > 0) by (nonlinear_arith)
                requires 0 <= p < width * height * 4;
        }
        let q: u64 = p as u64 / 4;
        let col: u64 = q % width as u64;
        let row: u64 = q / width as u64;
        let inside = x as u64 <= col && col < x as u64 + w as u64 && y as u64 <= row && row < y as u64 + h as u64;
        if inside {
            proof {
                lemma_paste_index(width as int, height as int, x as int, y as int, w as int, h as int, p as int);
                assert(q as int == p as int / 4 && col as int == (q as int) % (width as int) && row as int == (q as int) / (width as int));
                let r = (row - y) as int;
                let c = (col - x) as int;
                assert(0 <= r < h && 0 <= c < w);
                assert(0 <= r * w + c < w * h) by (nonlinear_arith)
                    requires 0 <= r < h, 0 <= c < w;
                assert(w * h <= 0xffff_ffff_ffff_ffff) by (nonlinear_arith)
                    requires w <= 0xffff_ffff, h <= 0xffff_ffff;
            }
            let wide: u128 = ((row - y as u64) as u128 * w as u128 + (col - x as u64) as u128) * 4 + p as u128 % 4;
            let idx: usize = wide as usize;
            proof {
                assert(in_rect(width as int, x as int, y as int, w as int, h as int, p as int));
                assert(wide as int == (((row - y) as int) * w + ((col - x) as int)) * 4 + (p as int) % 4);
                assert(wide < w * h * 4);
                assert(w * h * 4 <= width * height * 4) by (nonlinear_arith)
                    requires w <= width, h <= height;
                assert(idx as int == wide as int);
                assert(idx as int == (((p as int / 4) / (width as int) - y) * w + ((p as int / 4) % (width as int) - x)) * 4 + (p as int) % 4);
            }
            out.push(block[idx]);
        } else {
            proof {
                assert(!in_rect(width as int, x as int, y as int, w as int, h as int, p as int));
            }
            out.push(pixels[p]);
        }
        p = p + 1;
    }
    out
}

// ---------------------------------------------------------------------------
// Trusted items: the `image` and `base64` crates
// ---------------------------------------------------------------------------

/// Bytes written by `image::codecs::jpeg::JpegEncoder::new_with_quality(.., quality)`
/// for the RGB8 conversion of the RGBA image `pixels` (`w` by `h`).
pub uninterp spec fn jpeg_rgb8(pixels: Seq<u8>, w: u32, h: u32, quality: u8) -> Seq<u8>;

/// The character of a 6-bit value in the standard base64 alphabet
/// (`A`-`Z`, `a`-`z`, `0`-`9`, `+`, `/`).
pub open spec fn base64_digit(v: int) -> char {
    if v < 26 {
        (65 + v) as char
    } else if v < 52 {
        (97 + v - 26) as char
    } else if v < 62 {
        (48 + v - 52) as char
    } else if v == 62 {
        '+'
    } else {
        '/'
    }
}

/// Standard base64 with `=` padding (RFC 4648, section 4): every group of
/// three bytes becomes four characters of six bits each; a final group of
/// one or two bytes is padded with `==` or `=`.
pub open spec fn base64_standard(b: Seq<u8>) -> Seq<char>
    decreases b.len(),
{
    if b.len() == 0 {
        Seq::empty()
    } else if b.len() == 1 {
        let x = b[0] as int;
        seq![base64_digit(x / 4), base64_digit((x % 4) * 16), '=', '=']
    } else if b.len() == 2 {
        let x = b[0] as int;
        let y = b[1] as int;
        seq![base64_digit(x / 4), base64_digit((x % 4) * 16 + y / 16), base64_digit((y % 16) * 4), '=']
    } else {
        let x = b[0] as int;
        let y = b[1] as int;
        let z = b[2] as int;
        seq![
            base64_digit(x / 4),
            base64_digit((x % 4) * 16 + y / 16),
            base64_digit((y % 16) * 4 + z / 64),
            base64_digit(z % 64),
        ] + base64_standard(b.skip(3))
    }
}

/// Base64 works on groups of three bytes: encoding bytes whose first part
/// is a whole number of groups gives the encoding of that part followed by
/// the encoding of the rest, and every group or final part becomes four
/// characters.
pub proof fn lemma_base64_concat(a: Seq<u8>, b: Seq<u8>)
    requires
        a.len() % 3 == 0,
    ensures
        base64_standard(a + b) == base64_standard(a) + base64_standard(b),
        base64_standard(a).len() == 4 * (a.len() / 3),
    decreases a.len(),
{
    if a.len() == 0 {
        assert(a + b =~= b);
        assert(base64_standard(a) =~= Seq::<char>::empty());
        assert(base64_standard(a) + base64_standard(b) =~= base64_standard(b));
    } else {
        let ab = a + b;
        assert(ab.skip(3) =~= a.skip(3) + b);
        assert(ab[0] == a[0] && ab[1] == a[1] && ab[2] == a[2]);
        lemma_base64_concat(a.skip(3), b);
        assert(base64_standard(ab) =~= base64_standard(a) + base64_standard(b));
    }
}

/// Three bytes encode as four characters of six bits each, high bits first.
pub proof fn lemma_base64_group(x: u8, y: u8, z: u8)
    ensures
        base64_standard(seq![x, y, z]) == seq![
            base64_digit(x as int / 4),
            base64_digit((x as int % 4) * 16 + y as int / 16),
            base64_digit((y as int % 16) * 4 + z as int / 64),
            base64_digit(z as int % 64),
        ],
        base64_digit((x as int % 4) * 16 + y as int / 16) == base64_digit(((x as int * 256 + y as int) / 16) % 64),
{
    let q = seq![x, y, z];
    assert(q.skip(3) =~= Seq::<u8>::empty());
    assert(base64_standard(q.skip(3)) =~= Seq::<char>::empty());
    assert(base64_standard(q) =~= seq![
        base64_digit(x as int / 4),
        base64_digit((x as int % 4) * 16 + y as int / 16),
        base64_digit((y as int % 16) * 4 + z as int / 64),
        base64_digit(z as int % 64),
    ]);
    assert((x as int % 4) * 16 + y as int / 16 == ((x as int * 256 + y as int) / 16) % 64) by (nonlinear_arith)
        requires
            0 <= x < 256,
            0 <= y < 256,
    ;
}

/// The six-bit values map to the alphabet `A-Z a-z 0-9 + /`, each value to
/// a different character.
pub proof fn lemma_base64_digit_injective(u: int, v: int)
    requires
        0 <= u < 64,
        0 <= v < 64,
        base64_digit(u) == base64_digit(v),
    ensures
        u == v,
{
}

/// `DynamicImage::resize_exact(nw, nh, FilterType::Lanczos3)` of an RGBA8
/// image.  The `image` crate allocates a fresh `nw * nh` buffer (also when the
/// source is empty or already that size), so the result holds exactly
/// `nw * nh * 4` bytes; `ImageBuffer::new` panics when that length overflows.
/// The pixel values are not stated: the Lanczos3 kernel uses `f32::sin`,
/// whose precision the standard library leaves to the platform.
#[verifier::external_body]
fn lanczos_resize(pixels: &Vec<u8>, w: u32, h: u32, nw: u32, nh: u32) -> (res: Vec<u8>)
    requires
        w * h * 4 <= pixels@.len(),
        nw * nh * 4 <= usize::MAX,
    ensures
        res@.len() == nw * nh * 4,
{
    let buf = image::RgbaImage::from_raw(w, h, pixels.clone()).unwrap();
    image::DynamicImage::ImageRgba8(buf)
        .resize_exact(nw, nh, image::imageops::FilterType::Lanczos3)
        .to_rgba8()
        .into_raw()
}

/// `grayscale().resize_exact(9, 8, FilterType::Lanczos3).to_luma8()` of an
/// RGBA8 image: always a 9x8 buffer of 72 bytes.  The values are not stated
/// (the resampling depends on `f32::sin`).
#[verifier::external_body]
fn grey_thumbnail(pixels: &Vec<u8>, w: u32, h: u32) -> (res: Vec<u8>)
    requires
        w * h * 4 <= pixels@.len(),
    ensures
        res@.len() == 72,
{
    let buf = image::RgbaImage::from_raw(w, h, pixels.clone()).unwrap();
    image::DynamicImage::ImageRgba8(buf)
        .grayscale()
        .resize_exact(9, 8, image::imageops::FilterType::Lanczos3)
        .to_luma8()
        .into_raw()
}

/// JPEG encoding with `image::codecs::jpeg::JpegEncoder` of the RGB8
/// conversion (`to_rgb8`) of an RGBA8 image.  The encoder refuses sizes
/// outside 1..=65535 in either direction; writing to an in-memory cursor
/// cannot fail otherwise.  The output starts with the start-of-image marker
/// `FF D8`; nothing more is stated of the bytes beyond the name.
#[verifier::external_body]
fn jpeg_encode(pixels: &Vec<u8>, w: u32, h: u32, quality: u8) -> (res: Vec<u8>)
    requires
        w * h * 4 <= pixels@.len(),
        1 <= w <= 65535,
        1 <= h <= 65535,
    ensures
        res@ == jpeg_rgb8(pixels@, w, h, quality),
        res@.len() >= 2 && res@[0] == 0xFF && res@[1] == 0xD8,
{
    let buf = image::RgbaImage::from_raw(w, h, pixels.clone()).unwrap();
    let rgb = image::DynamicImage::ImageRgba8(buf).to_rgb8();
    let mut out = std::io::Cursor::new(Vec::new());
    image::codecs::jpeg::JpegEncoder::new_with_quality(&mut out, quality)
        .encode(&rgb, w, h, image::ExtendedColorType::Rgb8)
        .unwrap();
    out.into_inner()
}

/// `base64::engine::general_purpose::STANDARD.encode(bytes)`: the padded
/// standard alphabet (see `base64_standard`), four characters for every
/// started group of three bytes.
#[verifier::external_body]
fn standard_base64(bytes: &[u8]) -> (res: String)
    requires
        bytes@.len() <= usize::MAX / 2,
    ensures
        res@ == base64_standard(bytes@),
        res@.len() == 4 * ((bytes@.len() + 2) / 3),
{
    base64::engine::general_purpose::STANDARD.encode(bytes)
}

} // verus!
