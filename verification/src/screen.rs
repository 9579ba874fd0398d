//! Screen capture processing: capture parameters, the captured frame and its
//! metadata, perceptual-hash deduplication, the shared pause/last-hash
//! state, the on-disk layout of saved frames and the retention rule.
//!
//! Grabbing pixels from the displays and writing files are left to the
//! caller; this module takes the raw RGBA buffer and returns plain values.

use vstd::prelude::*;
use crate::datetime::{DateTime, local_now};
use crate::image::{
    RgbaImage, resized_dims, is_resize_of, is_dhash_text, jpeg_rgb8, hash_value, popcount, compress_jpeg,
    resize_image, compute_dhash, hamming_distance, hex16, bit_of, dhash_bit,
    scaled_height, lemma_mul_u32, lemma_hex16_value, lemma_dhash_bits_by_pixel,
};
use crate::fmt::{int_padded, push_padded};
use crate::text::{opt_str, opt_str_ref};

verus! {

// ---------------------------------------------------------------------------
// Configuration
// ---------------------------------------------------------------------------

/// Parameters of one capture.
#[derive(Clone, Debug)]
pub struct ScreenshotConfig {
    /// Seconds between captures.
    pub interval_secs: u32,
    /// JPEG quality, 1-100.
    pub jpeg_quality: u8,
    /// Largest width of the stored image; the height keeps the aspect ratio.
    pub max_width: u32,
    /// Whether the mouse cursor is drawn into the capture.
    pub include_cursor: bool,
    /// Frames whose hashes differ in at most this many bits are duplicates.
    pub dedup_threshold: u32,
    /// Capture every display, side by side, instead of the main one only.
    pub capture_all_displays: bool,
}

impl ScreenshotConfig {
    pub open spec fn is_default(&self) -> bool {
        &&& self.interval_secs == 30
        &&& self.jpeg_quality == 85
        &&& self.max_width == 1200
        &&& self.include_cursor
        &&& self.dedup_threshold == 5
        &&& !self.capture_all_displays
    }
}

impl Default for ScreenshotConfig {
    fn default() -> (c: Self)
        ensures
            c.is_default(),
    {
        ScreenshotConfig {
            interval_secs: 30,
            jpeg_quality: 85,
            max_width: 1200,
            include_cursor: true,
            dedup_threshold: 5,
            capture_all_displays: false,
        }
    }
}

// ---------------------------------------------------------------------------
// Errors
// ---------------------------------------------------------------------------

/// What can go wrong while capturing and processing a screen.
#[derive(Debug)]
pub enum ScreenError {
    /// The screen-recording permission has not been granted.
    PermissionDenied,
    /// The capture API reported a failure.
    CaptureFailed(String),
    /// An image could not be processed.
    ImageError(String),
    /// A file operation failed; the text of the I/O error.
    IoError(String),
    /// There is no display to capture.
    NoDisplayFound,
}

/// The message of a screen error.
pub open spec fn screen_error_text(e: ScreenError) -> Seq<char> {
    match e {
        ScreenError::PermissionDenied => "Screen Recording permission denied"@,
        ScreenError::CaptureFailed(m) => "Failed to capture screen: "@ + m@,
        ScreenError::ImageError(m) => "Image processing error: "@ + m@,
        ScreenError::IoError(m) => "IO error: "@ + m@,
        ScreenError::NoDisplayFound => "No display found"@,
    }
}

impl ScreenError {
    /// The error's message.
    pub fn message(&self) -> (s: String)
        ensures
            s@ == screen_error_text(*self),
    {
        match self {
            ScreenError::PermissionDenied => String::from_str("Screen Recording permission denied"),
            ScreenError::CaptureFailed(m) => String::from_str("Failed to capture screen: ").concat(m.as_str()),
            ScreenError::ImageError(m) => String::from_str("Image processing error: ").concat(m.as_str()),
            ScreenError::IoError(m) => String::from_str("IO error: ").concat(m.as_str()),
            ScreenError::NoDisplayFound => String::from_str("No display found"),
        }
    }
}

// ---------------------------------------------------------------------------
// Frames
// ---------------------------------------------------------------------------

/// One captured, resized and compressed frame.
#[derive(Clone, Debug)]
pub struct ScreenshotFrame {
    /// Identifier of the frame (a UUID).
    pub id: String,
    /// Local time of the capture.
    pub captured_at: DateTime,
    /// Where the frame was stored; empty until it is saved.
    pub file_path: String,
    /// Width of the stored image.
    pub width: u32,
    /// Height of the stored image.
    pub height: u32,
    /// dHash of the stored image, sixteen hex digits.
    pub hash: String,
    /// The JPEG bytes.
    pub jpeg_bytes: Vec<u8>,
}

/// What a frame built from a capture of `img` at `config` holds: the JPEG
/// of a resizing of the capture, and the dHash of some 9x8 thumbnail (the
/// resampled pixels are not stated).
pub open spec fn frame_of_capture(f: ScreenshotFrame, img: RgbaImage, config: ScreenshotConfig) -> bool {
    let (w, h) = resized_dims(img.width, img.height, config.max_width);
    &&& (f.width, f.height) == (w, h)
    &&& f.file_path@ == Seq::<char>::empty()
    &&& exists|p: Seq<u8>| is_resize_of(&img, config.max_width, p) && f.jpeg_bytes@ == #[trigger] jpeg_rgb8(p, w, h, config.jpeg_quality)
    &&& exists|luma: Seq<u8>| luma.len() == 72 && #[trigger] is_dhash_text(f.hash@, luma)
    &&& f.hash@.len() == 16
    &&& f.jpeg_bytes@.len() >= 2 && f.jpeg_bytes@[0] == 0xFF && f.jpeg_bytes@[1] == 0xD8
}

/// The capture can be turned into a frame: the resized image fits the JPEG
/// encoder's limits and in memory.
pub open spec fn capture_fits(width: u32, height: u32, max_width: u32) -> bool {
    let (w, h) = resized_dims(width, height, max_width);
    &&& 1 <= w <= 65535
    &&& 1 <= h <= 65535
    &&& w * h * 4 <= usize::MAX
}

/// Whether a capture of `width` by `height` pixels can be turned into a
/// frame at `max_width` (see `capture_fits`).
pub fn capture_fits_check(width: u32, height: u32, max_width: u32) -> (r: bool)
    ensures
        r == capture_fits(width, height, max_width),
{
    let (w, h): (u32, u32) = if width <= max_width {
        (width, height)
    } else {
        (max_width, scaled_height(width, height, max_width))
    };
    if w < 1 || w > 65535 || h < 1 || h > 65535 {
        return false;
    }
    proof {
        lemma_mul_u32(w, h);
    }
    let bytes: u128 = w as u128 * h as u128 * 4;
    bytes <= usize::MAX as u128
}

/// Builds the frame of a raw RGBA capture of `width` by `height` pixels:
/// the image is resized to `config.max_width` and JPEG-encoded with
/// `config.jpeg_quality`, and the dHash is taken of the resized image.
/// Fails with `ImageError` when the buffer is too small for the size.
pub fn frame_from_capture(
    config: &ScreenshotConfig,
    raw: Vec<u8>,
    width: u32,
    height: u32,
    id: String,
    captured_at: DateTime,
) -> (res: Result<ScreenshotFrame, ScreenError>)
    requires
        width * height * 4 <= raw@.len() ==> capture_fits(width, height, config.max_width),
    ensures
        res is Err <==> width * height * 4 > raw@.len(),
        res matches Err(e) ==> e matches ScreenError::ImageError(m)
            && m@ == "Failed to create image buffer from raw capture"@,
        res matches Ok(f) ==> {
            &&& f.id@ == id@
            &&& f.captured_at == captured_at
            &&& frame_of_capture(f, RgbaImage { width, height, pixels: raw }, *config)
        },
{
    let img = match RgbaImage::from_raw(width, height, raw) {
        Some(i) => i,
        None => {
            return Err(ScreenError::ImageError(String::from_str("Failed to create image buffer from raw capture")));
        }
    };
    let jpeg_bytes = compress_jpeg(&img, config.jpeg_quality, config.max_width);
    let resized = resize_image(&img, config.max_width);
    let hash = compute_dhash(&resized);
    let (w, h) = resized.dimensions();
    Ok(ScreenshotFrame {
        id,
        captured_at,
        file_path: String::new(),
        width: w,
        height: h,
        hash,
        jpeg_bytes,
    })
}

/// Captures the frame of a raw RGBA capture, as `frame_from_capture` does,
/// with a fresh UUID and the current local time.
pub fn take_screenshot(config: &ScreenshotConfig, raw: Vec<u8>, width: u32, height: u32) -> (res: Result<
    ScreenshotFrame,
    ScreenError,
>)
    requires
        width * height * 4 <= raw@.len() ==> capture_fits(width, height, config.max_width),
    ensures
        res is Err <==> width * height * 4 > raw@.len(),
        res matches Err(e) ==> e matches ScreenError::ImageError(m)
            && m@ == "Failed to create image buffer from raw capture"@,
        res matches Ok(f) ==> {
            &&& f.id@.len() == 36
            &&& f.captured_at.wf()
            &&& frame_of_capture(f, RgbaImage { width, height, pixels: raw }, *config)
        },
{
    let id = new_frame_id();
    let now = local_now();
    frame_from_capture(config, raw, width, height, id, now)
}

/// A fresh identifier for a frame or a segment: `Uuid::new_v4().to_string()`,
/// 36 characters.  Random; nothing more is stated.
#[verifier::external_body]
pub(crate) fn new_frame_id() -> (id: String)
    ensures
        id@.len() == 36,
{
    uuid::Uuid::new_v4().to_string()
}

// ---------------------------------------------------------------------------
// Deduplication
// ---------------------------------------------------------------------------

/// Number of bits in which two hash strings differ (see `hamming_distance`).
pub open spec fn hash_distance(a: Seq<char>, b: Seq<char>) -> nat {
    popcount((hash_value(a) ^ hash_value(b)) as nat)
}

/// A frame is a duplicate of the previous one when there is one and their
/// hashes differ in at most `threshold` bits.
pub open spec fn duplicate(new_hash: Seq<char>, last_hash: Option<Seq<char>>, threshold: u32) -> bool {
    match last_hash {
        Some(old) => hash_distance(new_hash, old) <= threshold,
        None => false,
    }
}

/// Whether a frame with hash `new_hash` repeats the previous frame.
pub fn is_duplicate(new_hash: &str, last_hash: Option<&str>, threshold: u32) -> (res: bool)
    ensures
        res == duplicate(new_hash@, opt_str_ref(last_hash), threshold),
{
    match last_hash {
        Some(old) => hamming_distance(new_hash, old) <= threshold,
        None => false,
    }
}

/// A hash is at distance 0 from itself.
pub proof fn lemma_distance_to_self(h: Seq<char>)
    ensures
        hash_distance(h, h) == 0,
{
    let v = hash_value(h);
    assert(v ^ v == 0u64) by (bit_vector);
}

/// The distance between two hashes does not depend on their order.
pub proof fn lemma_distance_symmetric(a: Seq<char>, b: Seq<char>)
    ensures
        hash_distance(a, b) == hash_distance(b, a),
{
    let x = hash_value(a);
    let y = hash_value(b);
    assert(x ^ y == y ^ x) by (bit_vector);
}

/// A frame always repeats a previous frame with the same hash, whatever the
/// threshold; with no previous frame nothing is a duplicate.
pub proof fn lemma_duplicate_of_same_hash(h: Seq<char>, threshold: u32)
    ensures
        duplicate(h, Some(h), threshold),
        !duplicate(h, None, threshold),
{
    lemma_distance_to_self(h);
}

/// Raising the threshold keeps a duplicate a duplicate.
pub proof fn lemma_duplicate_monotone(new_hash: Seq<char>, last_hash: Option<Seq<char>>, t1: u32, t2: u32)
    requires
        t1 <= t2,
        duplicate(new_hash, last_hash, t1),
    ensures
        duplicate(new_hash, last_hash, t2),
{
}

proof fn lemma_popcount_zero(x: nat)
    ensures
        popcount(x) == 0 <==> x == 0,
    decreases x,
{
    if x > 0 {
        lemma_popcount_zero(x / 2);
    }
}

/// Two hashes are at distance 0 exactly when they stand for the same bits.
pub proof fn lemma_distance_zero_iff_same_bits(a: Seq<char>, b: Seq<char>)
    ensures
        hash_distance(a, b) == 0 <==> hash_value(a) == hash_value(b),
{
    let x = hash_value(a);
    let y = hash_value(b);
    lemma_popcount_zero((x ^ y) as nat);
    assert((x ^ y == 0u64) <==> (x == y)) by (bit_vector);
}

/// The distance between two dHash texts is the number of bits in which
/// the hashes differ.
pub proof fn lemma_dhash_text_distance(x: u64, y: u64)
    ensures
        hash_distance(hex16(x), hex16(y)) == popcount((x ^ y) as nat),
{
    lemma_hex16_value(x);
    lemma_hex16_value(y);
}

/// A frame whose thumbnail differs from the last kept one in whether some
/// pixel, in any row, is brighter than its right-hand neighbour is not a
/// duplicate at threshold 0: no change of the screen is overlooked.
pub proof fn lemma_changed_pixel_is_not_duplicate(
    l1: Seq<u8>,
    l2: Seq<u8>,
    h1: Seq<char>,
    h2: Seq<char>,
    r: int,
    c: int,
)
    requires
        l1.len() == 72,
        l2.len() == 72,
        is_dhash_text(h1, l1),
        is_dhash_text(h2, l2),
        0 <= r < 8,
        0 <= c < 8,
        (l1[9 * r + c] > l1[9 * r + c + 1]) != (l2[9 * r + c] > l2[9 * r + c + 1]),
    ensures
        !duplicate(h1, Some(h2), 0),
{
    let b1 = choose|bits: u64| {
        &&& h1 == #[trigger] hex16(bits)
        &&& forall|k: u64| k < 64 ==> (bit_of(bits, k) <==> dhash_bit(l1, k as int))
    };
    let b2 = choose|bits: u64| {
        &&& h2 == #[trigger] hex16(bits)
        &&& forall|k: u64| k < 64 ==> (bit_of(bits, k) <==> dhash_bit(l2, k as int))
    };
    lemma_dhash_bits_by_pixel(l1, b1);
    lemma_dhash_bits_by_pixel(l2, b2);
    assert((l1[9 * r + c] > l1[9 * r + c + 1]) <==> bit_of(b1, (8 * r + c) as u64));
    assert((l2[9 * r + c] > l2[9 * r + c + 1]) <==> bit_of(b2, (8 * r + c) as u64));
    assert(b1 != b2);
    lemma_hex16_value(b1);
    lemma_hex16_value(b2);
    lemma_distance_zero_iff_same_bits(h1, h2);
}

/// Whether two frames are duplicates does not depend on which came first.
pub proof fn lemma_duplicate_symmetric(a: Seq<char>, b: Seq<char>, threshold: u32)
    ensures
        duplicate(a, Some(b), threshold) == duplicate(b, Some(a), threshold),
{
    lemma_distance_symmetric(a, b);
}

// ---------------------------------------------------------------------------
// Shared state
// ---------------------------------------------------------------------------

/// The capture state used by the capture loop and the commands: whether
/// capture is paused and the hash of the last kept frame.  A value has a
/// single owner and is not copied; to share one state between threads, the
/// owner holds it behind a lock (`Arc<Mutex<ScreenshotState>>`) and every
/// user reaches that one value.
#[derive(Debug)]
pub struct ScreenshotState {
    pub is_paused: bool,
    pub last_hash: Option<String>,
}

impl ScreenshotState {
    /// Capture running, no previous hash.
    pub fn new() -> (s: Self)
        ensures
            !s.is_paused,
            s.last_hash is None,
    {
        ScreenshotState { is_paused: false, last_hash: None }
    }

    /// Whether capture is paused.
    pub fn paused(&self) -> (res: bool)
        ensures
            res == self.is_paused,
    {
        self.is_paused
    }

    /// Pauses capture.
    pub fn pause(&mut self)
        ensures
            final(self).is_paused,
            final(self).last_hash == old(self).last_hash,
    {
        self.is_paused = true;
    }

    /// Resumes capture.
    pub fn resume(&mut self)
        ensures
            !final(self).is_paused,
            final(self).last_hash == old(self).last_hash,
    {
        self.is_paused = false;
    }

    /// Whether a capture loop of its own is running: never, the scheduler
    /// runs the loop.
    pub fn is_running(&self) -> (res: bool)
        ensures
            !res,
    {
        false
    }

    /// Records the hash of the last kept frame.
    pub fn set_last_hash(&mut self, hash: String)
        ensures
            final(self).last_hash == Some(hash),
            final(self).is_paused == old(self).is_paused,
    {
        self.last_hash = Some(hash);
    }

    /// The hash of the last kept frame, if any.
    pub fn get_last_hash(&self) -> (res: Option<String>)
        ensures
            opt_str(res) == opt_str(self.last_hash),
    {
        match &self.last_hash {
            Some(h) => Some(h.clone()),
            None => None,
        }
    }

    /// Nothing to clear; kept for callers that reset errors.
    pub fn clear_error(&mut self)
        ensures
            *final(self) == *old(self),
    {
    }
}

impl Default for ScreenshotState {
    fn default() -> (s: Self)
        ensures
            !s.is_paused,
            s.last_hash is None,
    {
        Self::new()
    }
}

// ---------------------------------------------------------------------------
// Storage layout and retention
// ---------------------------------------------------------------------------

/// The path of a saved frame below the data directory:
/// `screenshots/YYYY/MM/DD/{id}.jpg`, the date being the capture date
/// written with `{:04}` and `{:02}`.
pub open spec fn frame_path_parts(f: ScreenshotFrame) -> Seq<Seq<char>> {
    seq![
        "screenshots"@,
        int_padded(f.captured_at.date.year as int, 4),
        int_padded(f.captured_at.date.month as int, 2),
        int_padded(f.captured_at.date.day as int, 2),
        f.id@ + ".jpg"@,
    ]
}

/// The components of the path where `save_to_disk` writes a frame, below
/// the data directory.
pub fn frame_path(f: &ScreenshotFrame) -> (parts: Vec<String>)
    ensures
        parts@.len() == 5,
        forall|i: int| 0 <= i < 5 ==> #[trigger] parts@[i]@ == frame_path_parts(*f)[i],
{
    let mut y = String::new();
    push_padded(&mut y, f.captured_at.date.year as i64, 4);
    let mut m = String::new();
    push_padded(&mut m, f.captured_at.date.month as i64, 2);
    let mut d = String::new();
    push_padded(&mut d, f.captured_at.date.day as i64, 2);
    let name = f.id.clone().concat(".jpg");
    let mut parts: Vec<String> = Vec::new();
    parts.push(String::from_str("screenshots"));
    parts.push(y);
    parts.push(m);
    parts.push(d);
    parts.push(name);
    proof {
        assert(y@ =~= int_padded(f.captured_at.date.year as int, 4));
        assert(m@ =~= int_padded(f.captured_at.date.month as int, 2));
        assert(d@ =~= int_padded(f.captured_at.date.day as int, 2));
    }
    parts
}

/// Seconds since the epoch before which saved frames are removed:
/// `retention_days` days before `now`, clamped at the epoch (no file
/// modified at or after the epoch is older than an earlier cutoff).
pub fn retention_cutoff(now_secs: u64, retention_days: u32) -> (cutoff: u64)
    ensures
        cutoff == if now_secs >= retention_days * 86400 { now_secs - retention_days * 86400 } else { 0 },
{
    let span: u64 = retention_days as u64 * 86400;
    if now_secs >= span { now_secs - span } else { 0 }
}

/// A file found below `screenshots/` is removed when its extension is
/// exactly `jpg` and it was last modified before the cutoff.
pub fn is_expired_frame_file(extension: Option<&str>, modified_secs: u64, cutoff_secs: u64) -> (res: bool)
    ensures
        res == (match extension { Some(e) => e@ == "jpg"@, None => false } && modified_secs < cutoff_secs),
{
    let is_jpg = match extension {
        Some(e) => crate::text::str_eq(e, "jpg"),
        None => false,
    };
    is_jpg && modified_secs < cutoff_secs
}

// ---------------------------------------------------------------------------
// Several displays side by side
// ---------------------------------------------------------------------------

/// Total width of the first `k` captures.
pub open spec fn offset_of(imgs: Seq<(Seq<u8>, u32, u32)>, k: int) -> int
    decreases k,
{
    if k <= 0 { 0 } else { offset_of(imgs, k - 1) + imgs[k - 1].1 }
}

/// Largest height of the first `k` captures.
pub open spec fn max_height_of(imgs: Seq<(Seq<u8>, u32, u32)>, k: int) -> int
    decreases k,
{
    if k <= 0 {
        0
    } else {
        let m = max_height_of(imgs, k - 1);
        if imgs[k - 1].2 > m { imgs[k - 1].2 as int } else { m }
    }
}

/// The byte at position `p` of a stitched row-major buffer `rb` bytes wide
/// taken from capture `img` placed at column `base`: the capture's byte
/// when the row exists in it and the capture holds the whole row, else 0.
pub open spec fn capture_byte(img: (Seq<u8>, u32, u32), base: int, rb: int, p: int) -> u8 {
    let (pix, w, h) = img;
    let r = p / rb;
    let x = p % rb;
    if r < h && (r + 1) * w * 4 <= pix.len() { pix[r * w * 4 + x - base * 4] } else { 0 }
}

/// The byte at position `p` of the stitched buffer: from the capture, among
/// those from `k` on (the first at column `base`), whose columns hold it.
pub open spec fn stitched_byte(imgs: Seq<(Seq<u8>, u32, u32)>, k: int, base: int, rb: int, p: int) -> u8
    decreases imgs.len() - k,
{
    if k >= imgs.len() || k < 0 {
        0
    } else {
        let x = p % rb;
        if base * 4 <= x < (base + imgs[k].1) * 4 {
            capture_byte(imgs[k], base, rb, p)
        } else {
            stitched_byte(imgs, k + 1, base + imgs[k].1, rb, p)
        }
    }
}

/// The captures fit the stitching arithmetic: widths add up within `u32`,
/// the buffer fits in memory, and every row position of every capture is a
/// `u32` byte offset.
pub open spec fn stitch_fits(imgs: Seq<(Seq<u8>, u32, u32)>) -> bool {
    let tw = offset_of(imgs, imgs.len() as int);
    &&& tw <= u32::MAX
    &&& tw * max_height_of(imgs, imgs.len() as int) * 4 <= usize::MAX
    &&& forall|i: int| 0 <= i < imgs.len() && (#[trigger] imgs[i]).2 > 0 ==> {
        &&& imgs[i].1 * 4 <= u32::MAX
        &&& ((imgs[i].2 - 1) * tw + offset_of(imgs, i)) * 4 <= u32::MAX
    }
}

proof fn lemma_offsets_grow(imgs: Seq<(Seq<u8>, u32, u32)>, i: int, j: int)
    requires
        0 <= i <= j <= imgs.len(),
    ensures
        offset_of(imgs, i) <= offset_of(imgs, j),
        0 <= offset_of(imgs, i),
    decreases j,
{
    if i < j {
        lemma_offsets_grow(imgs, i, j - 1);
    } else if i > 0 {
        lemma_offsets_grow(imgs, i - 1, i - 1);
    }
}

proof fn lemma_max_height(imgs: Seq<(Seq<u8>, u32, u32)>, i: int, k: int)
    requires
        0 <= i < k <= imgs.len(),
    ensures
        imgs[i].2 <= max_height_of(imgs, k),
        0 <= max_height_of(imgs, k),
    decreases k,
{
    if i < k - 1 {
        lemma_max_height(imgs, i, k - 1);
    }
}

proof fn lemma_div_mod_pos(p: int, rb: int)
    requires
        0 <= p,
        0 < rb,
    ensures
        p == (p / rb) * rb + p % rb,
        0 <= p % rb < rb,
        0 <= p / rb,
{
    vstd::arithmetic::div_mod::lemma_fundamental_div_mod(p, rb);
    vstd::arithmetic::div_mod::lemma_mod_pos_bound(p, rb);
    vstd::arithmetic::div_mod::lemma_div_pos_is_pos(p, rb);
    assert(rb * (p / rb) == (p / rb) * rb) by (nonlinear_arith);
}

/// Earlier captures do not hold the columns from `offset_of(imgs, k)` on.
proof fn lemma_stitched_skip(imgs: Seq<(Seq<u8>, u32, u32)>, k: int, rb: int, p: int)
    requires
        0 <= k <= imgs.len(),
        rb > 0,
        0 <= p,
        p % rb >= offset_of(imgs, k) * 4,
    ensures
        stitched_byte(imgs, 0, 0, rb, p) == stitched_byte(imgs, k, offset_of(imgs, k), rb, p),
    decreases k,
{
    if k > 0 {
        lemma_offsets_grow(imgs, k - 1, k);
        lemma_stitched_skip(imgs, k - 1, rb, p);
    }
}

/// The condition of one capture in `stitch_fits`.
pub open spec fn stitch_row_fits(img: (Seq<u8>, u32, u32), tw: int, offset: int) -> bool {
    img.2 > 0 ==> {
        &&& img.1 * 4 <= u32::MAX
        &&& ((img.2 - 1) * tw + offset) * 4 <= u32::MAX
    }
}

/// Whether captures can be stitched side by side (see `stitch_fits`).
pub fn stitch_fits_check(images: &Vec<(Vec<u8>, u32, u32)>) -> (r: bool)
    ensures
        r == stitch_fits(images@.map_values(|t: (Vec<u8>, u32, u32)| (t.0@, t.1, t.2))),
{
    let ghost imgs = images@.map_values(|t: (Vec<u8>, u32, u32)| (t.0@, t.1, t.2));
    let n = images.len();
    let mut tw: u64 = 0;
    let mut mh: u32 = 0;
    let mut i: usize = 0;
    while i < n
        invariant
            n == images@.len(),
            imgs == images@.map_values(|t: (Vec<u8>, u32, u32)| (t.0@, t.1, t.2)),
            i <= n,
            tw == offset_of(imgs, i as int),
            tw <= u32::MAX,
            mh == max_height_of(imgs, i as int),
        decreases n - i,
    {
        proof {
            lemma_offsets_grow(imgs, i as int, n as int);
        }
        if tw + (images[i].1 as u64) > u32::MAX as u64 {
            proof {
                lemma_offsets_grow(imgs, i + 1, n as int);
            }
            return false;
        }
        tw = tw + images[i].1 as u64;
        if images[i].2 > mh {
            mh = images[i].2;
        }
        i = i + 1;
    }
    proof {
        lemma_mul_u32(tw as u32, mh);
    }
    if (tw as u128) * (mh as u128) * 4 > usize::MAX as u128 {
        return false;
    }
    let mut off: u64 = 0;
    let mut k: usize = 0;
    while k < n
        invariant
            n == images@.len(),
            imgs == images@.map_values(|t: (Vec<u8>, u32, u32)| (t.0@, t.1, t.2)),
            k <= n,
            tw == offset_of(imgs, n as int),
            tw <= u32::MAX,
            off == offset_of(imgs, k as int),
            forall|j: int| 0 <= j < k ==> stitch_row_fits(#[trigger] imgs[j], tw as int, offset_of(imgs, j)),
        decreases n - k,
    {
        proof {
            lemma_offsets_grow(imgs, k + 1, n as int);
        }
        let w = images[k].1;
        let h = images[k].2;
        if h > 0 {
            proof {
                lemma_mul_u32((h - 1) as u32, tw as u32);
            }
            let row: u128 = (w as u128) * 4;
            let last: u128 = (((h - 1) as u128) * (tw as u128) + (off as u128)) * 4;
            if row > u32::MAX as u128 || last > u32::MAX as u128 {
                proof {
                    assert(!stitch_row_fits(imgs[k as int], tw as int, offset_of(imgs, k as int)));
                }
                return false;
            }
        }
        off = off + w as u64;
        k = k + 1;
    }
    proof {
        assert forall|j: int| 0 <= j < imgs.len() && (#[trigger] imgs[j]).2 > 0 implies {
            &&& imgs[j].1 * 4 <= u32::MAX
            &&& ((imgs[j].2 - 1) * tw + offset_of(imgs, j)) * 4 <= u32::MAX
        } by {
            assert(stitch_row_fits(imgs[j], tw as int, offset_of(imgs, j)));
        }
    }
    true
}

/// Places the captures side by side, left to right, in one RGBA buffer as
/// wide as all of them and as high as the highest; uncovered pixels are 0.
/// A capture whose buffer is too short for a row leaves that row 0.
pub fn stitch_horizontal(images: &Vec<(Vec<u8>, u32, u32)>) -> (res: (Vec<u8>, u32, u32))
    requires
        stitch_fits(images@.map_values(|t: (Vec<u8>, u32, u32)| (t.0@, t.1, t.2))),
    ensures
        ({
            let imgs = images@.map_values(|t: (Vec<u8>, u32, u32)| (t.0@, t.1, t.2));
            let tw = offset_of(imgs, imgs.len() as int);
            let mh = max_height_of(imgs, imgs.len() as int);
            &&& res.1 == tw
            &&& res.2 == mh
            &&& res.0@.len() == tw * mh * 4
            &&& forall|p: int| 0 <= p < res.0@.len() ==> #[trigger] res.0@[p] == stitched_byte(imgs, 0, 0, tw * 4, p)
        }),
{
    let ghost imgs = images@.map_values(|t: (Vec<u8>, u32, u32)| (t.0@, t.1, t.2));
    let n = images.len();
    let mut tw: u32 = 0;
    let mut i: usize = 0;
    proof {
        lemma_offsets_grow(imgs, 0, n as int);
    }
    while i < n
        invariant
            n == images@.len(),
            imgs == images@.map_values(|t: (Vec<u8>, u32, u32)| (t.0@, t.1, t.2)),
            i <= n,
            tw == offset_of(imgs, i as int),
            offset_of(imgs, n as int) <= u32::MAX,
        decreases n - i,
    {
        proof {
            lemma_offsets_grow(imgs, i + 1, n as int);
        }
        tw = tw + images[i].1;
        i = i + 1;
    }
    let mut mh: u32 = 0;
    let mut j: usize = 0;
    while j < n
        invariant
            n == images@.len(),
            imgs == images@.map_values(|t: (Vec<u8>, u32, u32)| (t.0@, t.1, t.2)),
            j <= n,
            mh == max_height_of(imgs, j as int),
        decreases n - j,
    {
        if images[j].2 > mh {
            mh = images[j].2;
        }
        j = j + 1;
    }
    let ghost rb: int = tw * 4;
    proof {
        assert(tw * mh * 4 <= usize::MAX);
        assert((tw as int) * (mh as int) * 4 == (tw as usize) as int * (mh as usize) as int * 4);
    }
    let size: usize = (tw as usize) * (mh as usize) * 4;
    let mut combined: Vec<u8> = Vec::new();
    let mut z: usize = 0;
    while z < size
        invariant
            z <= size,
            combined@.len() == z,
            forall|q: int| 0 <= q < z ==> #[trigger] combined@[q] == 0u8,
        decreases size - z,
    {
        combined.push(0u8);
        z = z + 1;
    }
    let mut x_offset: u32 = 0;
    let mut k: usize = 0;
    proof {
        if tw > 0 {
            assert forall|p: int| 0 <= p < size implies #[trigger] combined@[p] == 0u8 && p % rb >= x_offset * 4 by {
                lemma_div_mod_pos(p, rb);
            }
        } else {
            assert(size == 0) by (nonlinear_arith)
                requires
                    size == tw * mh * 4,
                    tw == 0,
            ;
        }
    }
    while k < n
        invariant
            n == images@.len(),
            imgs == images@.map_values(|t: (Vec<u8>, u32, u32)| (t.0@, t.1, t.2)),
            stitch_fits(imgs),
            k <= n,
            tw == offset_of(imgs, n as int),
            mh == max_height_of(imgs, n as int),
            rb == tw * 4,
            size == tw * mh * 4,
            combined@.len() == size,
            x_offset == offset_of(imgs, k as int),
            forall|p: int| 0 <= p < size ==> {
                &&& p % rb < x_offset * 4 ==> #[trigger] combined@[p] == stitched_byte(imgs, 0, 0, rb, p)
                &&& p % rb >= x_offset * 4 ==> combined@[p] == 0u8
            },
        decreases n - k,
    {
        proof {
            lemma_offsets_grow(imgs, k as int, k + 1);
            lemma_offsets_grow(imgs, k + 1, n as int);
            lemma_max_height(imgs, k as int, n as int);
        }
        copy_capture(images, k, &mut combined, tw, mh, x_offset);
        x_offset = x_offset + images[k].1;
        k = k + 1;
    }
    proof {
        if tw > 0 {
            assert forall|p: int| 0 <= p < size implies #[trigger] combined@[p] == stitched_byte(imgs, 0, 0, rb, p) by {
                lemma_div_mod_pos(p, rb);
            }
        } else {
            assert(size == 0) by (nonlinear_arith)
                requires
                    size == tw * mh * 4,
                    tw == 0,
            ;
        }
    }
    (combined, tw, mh)
}

/// Copies capture `k` into its column band of the stitched buffer.
fn copy_capture(images: &Vec<(Vec<u8>, u32, u32)>, k: usize, combined: &mut Vec<u8>, tw: u32, mh: u32, x_offset: u32)
    requires
        k < images@.len(),
        stitch_fits(images@.map_values(|t: (Vec<u8>, u32, u32)| (t.0@, t.1, t.2))),
        tw == offset_of(images@.map_values(|t: (Vec<u8>, u32, u32)| (t.0@, t.1, t.2)), images@.len() as int),
        mh == max_height_of(images@.map_values(|t: (Vec<u8>, u32, u32)| (t.0@, t.1, t.2)), images@.len() as int),
        x_offset == offset_of(images@.map_values(|t: (Vec<u8>, u32, u32)| (t.0@, t.1, t.2)), k as int),
        x_offset + images@[k as int].1 <= tw,
        images@[k as int].2 <= mh,
        old(combined)@.len() == tw * mh * 4,
        old(combined)@.len() <= usize::MAX,
        forall|p: int| 0 <= p < old(combined)@.len() ==> {
            &&& p % (tw * 4) < x_offset * 4 ==> #[trigger] old(combined)@[p] == stitched_byte(
                images@.map_values(|t: (Vec<u8>, u32, u32)| (t.0@, t.1, t.2)), 0, 0, tw * 4, p)
            &&& p % (tw * 4) >= x_offset * 4 ==> old(combined)@[p] == 0u8
        },
    ensures
        final(combined)@.len() == old(combined)@.len(),
        forall|p: int| 0 <= p < final(combined)@.len() ==> {
            &&& p % (tw * 4) < (x_offset + images@[k as int].1) * 4 ==> #[trigger] final(combined)@[p] == stitched_byte(
                images@.map_values(|t: (Vec<u8>, u32, u32)| (t.0@, t.1, t.2)), 0, 0, tw * 4, p)
            &&& p % (tw * 4) >= (x_offset + images@[k as int].1) * 4 ==> final(combined)@[p] == 0u8
        },
{
    let ghost imgs = images@.map_values(|t: (Vec<u8>, u32, u32)| (t.0@, t.1, t.2));
    let ghost rb: int = tw * 4;
    let ghost len = combined@.len();
    let pixels = &images[k].0;
    let w = images[k].1;
    let h = images[k].2;
    let ghost img = imgs[k as int];
    proof {
        assert(img == (pixels@, w, h));
    }
    if tw == 0 {
        proof {
            assert(len == 0) by (nonlinear_arith)
                requires
                    len == tw * mh * 4,
                    tw == 0,
            ;
        }
        return;
    }
    let mut y: u32 = 0;
    while y < h
        invariant
            imgs == images@.map_values(|t: (Vec<u8>, u32, u32)| (t.0@, t.1, t.2)),
            k < imgs.len(),
            img == imgs[k as int],
            img == (pixels@, w, h),
            stitch_fits(imgs),
            tw == offset_of(imgs, imgs.len() as int),
            x_offset == offset_of(imgs, k as int),
            x_offset + w <= tw,
            h <= mh,
            tw > 0,
            rb == tw * 4,
            len == tw * mh * 4,
            len <= usize::MAX,
            combined@.len() == len,
            y <= h,
            forall|p: int| 0 <= p < len ==> {
                let r = p / rb;
                let x = p % rb;
                &&& x < x_offset * 4 ==> #[trigger] combined@[p] == stitched_byte(imgs, 0, 0, rb, p)
                &&& x_offset * 4 <= x < (x_offset + w) * 4 && r < y ==> combined@[p] == capture_byte(img, x_offset as int, rb, p)
                &&& x_offset * 4 <= x < (x_offset + w) * 4 && r >= y ==> combined@[p] == 0u8
                &&& (x_offset + w) * 4 <= x ==> combined@[p] == 0u8
            },
        decreases h - y,
    {
        proof {
            assert(h > 0);
            assert(((h - 1) * tw + x_offset) * 4 <= u32::MAX);
            assert(w * 4 <= u32::MAX);
            assert(y * w <= (h - 1) * tw) by (nonlinear_arith)
                requires
                    y <= h - 1,
                    w <= tw,
            ;
            assert(y * tw <= (h - 1) * tw) by (nonlinear_arith)
                requires
                    y <= h - 1,
            ;
            assert(y * w * 4 + w * 4 <= len) by (nonlinear_arith)
                requires
                    y + 1 <= mh,
                    w <= tw,
                    len == tw * mh * 4,
            ;
            assert((y * tw + x_offset) * 4 + w * 4 <= len) by (nonlinear_arith)
                requires
                    x_offset + w <= tw,
                    y + 1 <= mh,
                    len == tw * mh * 4,
            ;
            assert(len <= usize::MAX);
        }
        let src_start: usize = (y * w * 4) as usize;
        let src_end: usize = src_start + (w * 4) as usize;
        let dst_start: usize = ((y * tw + x_offset) * 4) as usize;
        let dst_end: usize = dst_start + (w * 4) as usize;
        proof {
            assert(dst_start == y * rb + x_offset * 4) by (nonlinear_arith)
                requires
                    dst_start == (y * tw + x_offset) * 4,
                    rb == tw * 4,
            ;
            assert(dst_end <= len) by (nonlinear_arith)
                requires
                    dst_end == (y * tw + x_offset) * 4 + w * 4,
                    x_offset + w <= tw,
                    y + 1 <= mh,
                    len == tw * mh * 4,
            ;
            assert(src_end == (y + 1) * w * 4) by (nonlinear_arith)
                requires
                    src_start == y * w * 4,
                    src_end == src_start + w * 4,
            ;
        }
        if dst_end <= combined.len() && src_end <= pixels.len() {
            copy_row(combined, pixels, dst_start, src_start, (w * 4) as usize);
        }
        proof {
            assert forall|p: int| 0 <= p < len implies {
                let r = p / rb;
                let x = p % rb;
                &&& x < x_offset * 4 ==> #[trigger] combined@[p] == stitched_byte(imgs, 0, 0, rb, p)
                &&& x_offset * 4 <= x < (x_offset + w) * 4 && r < y + 1 ==> combined@[p] == capture_byte(img, x_offset as int, rb, p)
                &&& x_offset * 4 <= x < (x_offset + w) * 4 && r >= y + 1 ==> combined@[p] == 0u8
                &&& (x_offset + w) * 4 <= x ==> combined@[p] == 0u8
            } by {
                lemma_div_mod_pos(p, rb);
                let r = p / rb;
                let x = p % rb;
                if x_offset * 4 <= x < (x_offset + w) * 4 && r == y {
                    assert(dst_start <= p < dst_end) by (nonlinear_arith)
                        requires
                            p == r * rb + x,
                            r == y,
                            dst_start == y * rb + x_offset * 4,
                            dst_end == dst_start + w * 4,
                            x_offset * 4 <= x < (x_offset + w) * 4,
                    ;
                    assert(r * w * 4 + x - x_offset * 4 == src_start + (p - dst_start)) by (nonlinear_arith)
                        requires
                            p == r * rb + x,
                            r == y,
                            dst_start == y * rb + x_offset * 4,
                            src_start == y * w * 4,
                    ;
                } else {
                    if dst_start <= p < dst_end {
                        let j = p - dst_start;
                        vstd::arithmetic::div_mod::lemma_fundamental_div_mod_converse(p, rb, y as int, x_offset * 4 + j);
                    }
                }
            }
        }
        y = y + 1;
    }
    proof {
        assert forall|p: int| 0 <= p < len implies {
            &&& p % rb < (x_offset + w) * 4 ==> #[trigger] combined@[p] == stitched_byte(imgs, 0, 0, rb, p)
            &&& p % rb >= (x_offset + w) * 4 ==> combined@[p] == 0u8
        } by {
            lemma_div_mod_pos(p, rb);
            let x = p % rb;
            if x_offset * 4 <= x < (x_offset + w) * 4 {
                lemma_stitched_skip(imgs, k as int, rb, p);
                assert(imgs[k as int].1 == w);
            }
        }
    }
}

/// Copies `n` bytes of `src` from `src_start` into `dst` at `dst_start`.
fn copy_row(dst: &mut Vec<u8>, src: &Vec<u8>, dst_start: usize, src_start: usize, n: usize)
    requires
        dst_start + n <= old(dst)@.len(),
        src_start + n <= src@.len(),
        dst_start + n <= usize::MAX,
        src_start + n <= usize::MAX,
    ensures
        final(dst)@.len() == old(dst)@.len(),
        forall|p: int| 0 <= p < old(dst)@.len() ==> #[trigger] final(dst)@[p] == if dst_start <= p < dst_start + n {
            src@[src_start + p - dst_start]
        } else {
            old(dst)@[p]
        },
{
    let mut j: usize = 0;
    while j < n
        invariant
            j <= n,
            dst_start + n <= dst@.len(),
            src_start + n <= src@.len(),
            dst_start + n <= usize::MAX,
            src_start + n <= usize::MAX,
            dst@.len() == old(dst)@.len(),
            forall|p: int| 0 <= p < old(dst)@.len() ==> #[trigger] dst@[p] == if dst_start <= p < dst_start + j {
                src@[src_start + p - dst_start]
            } else {
                old(dst)@[p]
            },
        decreases n - j,
    {
        dst.set(dst_start + j, src[src_start + j]);
        j = j + 1;
    }
}

} // verus!
