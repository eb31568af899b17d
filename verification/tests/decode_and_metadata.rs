//! Exact values for the decode-task arithmetic (display-cap dimensions) and
//! the metadata string format.

use photo_selector::decode::fit_dimensions;
use photo_selector::entry::{CacheEntry, DecodeOutcome, PixelBuffer};
use photo_selector::metadata::{format_exif_data, ExifFields};

#[test]
fn dimensions_within_cap_are_unchanged() {
    assert_eq!(fit_dimensions(800, 600), (800, 600));
    assert_eq!(fit_dimensions(1600, 900), (1600, 900));
    assert_eq!(fit_dimensions(1, 1), (1, 1));
}

#[test]
fn wide_image_fits_width() {
    assert_eq!(fit_dimensions(3200, 1800), (1600, 900));
    assert_eq!(fit_dimensions(3200, 1000), (1600, 500));
    assert_eq!(fit_dimensions(1601, 900), (1600, 899));
}

#[test]
fn extreme_aspect_ratio_keeps_one_pixel() {
    // The scaled axis floors to zero for aspect ratios beyond the cap's; the
    // result is clamped so both dimensions stay at least one pixel.
    assert_eq!(fit_dimensions(1, 901), (1, 900));
    assert_eq!(fit_dimensions(10000, 1), (1600, 1));
    assert_eq!(fit_dimensions(1, 1000000), (1, 900));
    assert_eq!(fit_dimensions(1000000, 1), (1600, 1));
}

#[test]
fn tall_image_fits_height() {
    assert_eq!(fit_dimensions(900, 1800), (450, 900));
    assert_eq!(fit_dimensions(1000, 1000), (900, 900));
    assert_eq!(fit_dimensions(1600, 901), (1598, 900));
}

#[test]
fn metadata_with_all_fields() {
    let f = ExifFields {
        date_taken: Some("2021:05:01 10:00:00".to_string()),
        camera: Some("K-3".to_string()),
        focal_length: Some("35 mm".to_string()),
        iso: Some("200".to_string()),
        aperture: Some("2.8".to_string()),
        shutter_speed: Some("1/500".to_string()),
    };
    assert_eq!(
        format_exif_data(&f),
        "Date Taken: 2021:05:01 10:00:00\nCamera: K-3\nFocal Length: 35 mm\nISO: 200\nAperture: f/2.8\nShutter Speed: 1/500\n"
    );
}

#[test]
fn metadata_omits_absent_fields() {
    let f = ExifFields {
        date_taken: None,
        camera: Some("K-3".to_string()),
        focal_length: None,
        iso: None,
        aperture: Some("4".to_string()),
        shutter_speed: None,
    };
    assert_eq!(format_exif_data(&f), "Camera: K-3\nAperture: f/4\n");
}

#[test]
fn metadata_of_nothing_is_empty() {
    let f = ExifFields {
        date_taken: None,
        camera: None,
        focal_length: None,
        iso: None,
        aperture: None,
        shutter_speed: None,
    };
    assert_eq!(format_exif_data(&f), "");
}

#[test]
fn ready_entry_carries_pixels() {
    let pixels = PixelBuffer::new(2, 2, vec![0; 16]);
    let e = CacheEntry::ready("a.jpg".to_string(), pixels, "ISO: 100\n".to_string());
    assert!(e.is_ready());
    assert_eq!(e.identifier, "a.jpg");
    let p = e.pixels.expect("ready entry has pixels");
    assert_eq!((p.width, p.height), (2, 2));
    assert_eq!(p.rgba.len(), 16);
    assert_eq!(e.metadata, "ISO: 100\n");
}

#[test]
fn tombstone_records_reason() {
    let e = CacheEntry::tombstone("bad.jpg".to_string(), "file unreadable".to_string());
    assert!(!e.is_ready());
    assert!(e.pixels.is_none());
    assert_eq!(e.metadata, "");
    match e.outcome {
        DecodeOutcome::Failed { reason } => assert_eq!(reason, "file unreadable"),
        DecodeOutcome::Ready => panic!("tombstone cannot be ready"),
    }
}
