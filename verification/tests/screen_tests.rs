use wornitor::datetime::{Date, DateTime};
use wornitor::screen::{
    capture_fits_check, stitch_fits_check, stitch_horizontal,
    frame_from_capture, frame_path, is_duplicate, is_expired_frame_file, retention_cutoff, take_screenshot,
    ScreenError, ScreenshotConfig, ScreenshotFrame, ScreenshotState,
};

#[test]
fn test_is_duplicate_no_previous() {
    assert!(!is_duplicate("abc", None, 5));
}

#[test]
fn test_is_duplicate_exact_match() {
    let h = "abcd1234abcd1234";
    assert!(is_duplicate(h, Some(h), 5));
}

#[test]
fn test_is_duplicate_below_threshold() {
    let a = "abcd1234abcd1230";
    let b = "abcd1234abcd123f";
    let dist = wornitor::image::hamming_distance(a, b);
    assert_eq!(is_duplicate(a, Some(b), dist), true);
    assert_eq!(is_duplicate(a, Some(b), dist - 1), false);
}

#[test]
fn test_config_defaults() {
    let cfg = ScreenshotConfig::default();
    assert_eq!(cfg.interval_secs, 30);
    assert_eq!(cfg.jpeg_quality, 85);
    assert_eq!(cfg.max_width, 1200);
    assert!(cfg.include_cursor);
    assert_eq!(cfg.dedup_threshold, 5);
    assert!(!cfg.capture_all_displays);
}

fn sample_frame() -> ScreenshotFrame {
    ScreenshotFrame {
        id: "test-uuid".to_string(),
        captured_at: DateTime {
            date: Date { year: 2025, month: 1, day: 15 },
            hour: 10,
            minute: 30,
            second: 0,
        },
        file_path: String::new(),
        width: 800,
        height: 600,
        hash: "abcd1234abcd1234".to_string(),
        jpeg_bytes: vec![0xff, 0xd8, 0xff, 0xe0],
    }
}

#[test]
fn saved_frames_go_under_a_dated_directory() {
    let parts = frame_path(&sample_frame());
    assert_eq!(parts.join("/"), "screenshots/2025/01/15/test-uuid.jpg");
}

#[test]
fn duplicate_with_zero_threshold_only_for_equal_hashes() {
    assert!(is_duplicate("00000000000000ff", Some("00000000000000ff"), 0));
    assert!(!is_duplicate("00000000000000ff", Some("00000000000000fe"), 0));
}

#[test]
fn state_remembers_pause_and_last_hash() {
    let mut s = ScreenshotState::new();
    assert!(!s.paused());
    assert_eq!(s.get_last_hash(), None);
    s.pause();
    assert!(s.paused());
    s.set_last_hash("abc".to_string());
    assert_eq!(s.get_last_hash(), Some("abc".to_string()));
    s.resume();
    assert!(!s.paused());
    assert_eq!(s.get_last_hash(), Some("abc".to_string()));
    assert!(!s.is_running());
    assert_eq!(s.get_last_hash(), Some("abc".to_string()));
    s.clear_error();
    assert_eq!(s.get_last_hash(), Some("abc".to_string()));
}

#[test]
fn capture_with_short_buffer_is_an_image_error() {
    let cfg = ScreenshotConfig::default();
    let r = frame_from_capture(&cfg, vec![0u8; 10], 4, 4, "x".to_string(), sample_frame().captured_at);
    match r {
        Err(ScreenError::ImageError(m)) => assert_eq!(m, "Failed to create image buffer from raw capture"),
        _ => panic!("expected an image error"),
    }
}

#[test]
fn capture_builds_a_resized_frame() {
    let cfg = ScreenshotConfig { max_width: 8, ..ScreenshotConfig::default() };
    let raw = vec![100u8; 16 * 4 * 4];
    let f = take_screenshot(&cfg, raw, 16, 4).unwrap();
    assert_eq!((f.width, f.height), (8, 2));
    assert_eq!(f.hash.len(), 16);
    assert_eq!(f.id.len(), 36);
    assert!(f.file_path.is_empty());
    assert_eq!(&f.jpeg_bytes[0..2], &[0xFF, 0xD8]);
}

#[test]
fn screen_error_messages() {
    assert_eq!(ScreenError::PermissionDenied.message(), "Screen Recording permission denied");
    assert_eq!(ScreenError::CaptureFailed("x".to_string()).message(), "Failed to capture screen: x");
    assert_eq!(ScreenError::ImageError("y".to_string()).message(), "Image processing error: y");
    assert_eq!(ScreenError::IoError("z".to_string()).message(), "IO error: z");
    assert_eq!(ScreenError::NoDisplayFound.message(), "No display found");
}

#[test]
fn retention_rule() {
    assert_eq!(retention_cutoff(1_000_000, 1), 1_000_000 - 86_400);
    assert_eq!(retention_cutoff(100, 1), 0);
    assert!(is_expired_frame_file(Some("jpg"), 10, 20));
    assert!(!is_expired_frame_file(Some("jpg"), 20, 20));
    assert!(!is_expired_frame_file(Some("png"), 10, 20));
    assert!(!is_expired_frame_file(None, 10, 20));
}

#[test]
fn displays_are_stitched_side_by_side() {
    let a = (vec![1u8, 1, 1, 1, 2, 2, 2, 2], 2u32, 1u32);
    let b = (vec![3u8, 3, 3, 3, 4, 4, 4, 4], 1u32, 2u32);
    let (buf, w, h) = stitch_horizontal(&vec![a, b]);
    assert_eq!((w, h), (3, 2));
    assert_eq!(
        buf,
        vec![1, 1, 1, 1, 2, 2, 2, 2, 3, 3, 3, 3, 0, 0, 0, 0, 0, 0, 0, 0, 4, 4, 4, 4]
    );
    // a capture too short for a row leaves the row blank
    let c = (vec![9u8; 4], 1u32, 2u32);
    let (buf, w, h) = stitch_horizontal(&vec![c]);
    assert_eq!((w, h), (1, 2));
    assert_eq!(buf, vec![9, 9, 9, 9, 0, 0, 0, 0]);
    let (buf, w, h) = stitch_horizontal(&Vec::new());
    assert_eq!((buf.len(), w, h), (0, 0, 0));
}

#[test]
fn capture_limits_follow_the_jpeg_encoder() {
    assert!(capture_fits_check(2560, 1440, 1200));
    assert!(capture_fits_check(800, 600, 1200));
    assert!(!capture_fits_check(0, 600, 1200));
    assert!(!capture_fits_check(70000, 10, 100000));
    assert!(!capture_fits_check(100, 0, 1200));
}

#[test]
fn stitching_limits() {
    let small = vec![(vec![0u8; 16], 2u32, 2u32), (vec![0u8; 12], 3u32, 1u32)];
    assert!(stitch_fits_check(&small));
    let wide = vec![(Vec::new(), u32::MAX, 0u32), (Vec::new(), 1u32, 0u32)];
    assert!(!stitch_fits_check(&wide));
    let tall = vec![(Vec::new(), 40_000u32, 40_000u32)];
    assert!(!stitch_fits_check(&tall));
    assert!(stitch_fits_check(&Vec::new()));
}
