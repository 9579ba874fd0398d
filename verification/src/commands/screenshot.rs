//! The screenshot command's answer to the front end.

use vstd::prelude::*;
use crate::screen::ScreenshotFrame;
use crate::datetime::{datetime_text, format_datetime};
use crate::image::{base64_standard, encode_base64};

verus! {

/// What the front end receives for a screenshot.
#[derive(Clone, Debug)]
pub struct ScreenshotResult {
    pub id: String,
    pub captured_at: String,
    pub file_path: String,
    pub width: u32,
    pub height: u32,
    pub hash: String,
    /// The JPEG bytes in base64, ready to send to a model.
    pub jpeg_base64: String,
}

impl ScreenshotResult {
    /// The answer for a frame: its fields, the capture time as
    /// `%Y-%m-%d %H:%M:%S`, and the JPEG in base64.
    pub fn from_frame(frame: ScreenshotFrame) -> (r: ScreenshotResult)
        requires
            frame.jpeg_bytes@.len() <= usize::MAX / 2,
        ensures
            r.id@ == frame.id@,
            r.captured_at@ == datetime_text(frame.captured_at),
            r.file_path@ == frame.file_path@,
            r.width == frame.width,
            r.height == frame.height,
            r.hash@ == frame.hash@,
            r.jpeg_base64@ == base64_standard(frame.jpeg_bytes@),
    {
        let jpeg_base64 = encode_base64(frame.jpeg_bytes.as_slice());
        let captured_at = format_datetime(&frame.captured_at);
        ScreenshotResult {
            id: frame.id,
            captured_at,
            file_path: frame.file_path,
            width: frame.width,
            height: frame.height,
            hash: frame.hash,
            jpeg_base64,
        }
    }
}

} // verus!
