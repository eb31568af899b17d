//! The catalog build step: the JPEG extension filter and the one-time
//! ascending sort that fixes each item's index.

use photo_selector::catalog::{build_catalog, is_jpeg_identifier};

#[test]
fn recognizes_jpeg_extensions_case_insensitively() {
    assert!(is_jpeg_identifier("a.jpg"));
    assert!(is_jpeg_identifier("a.JPG"));
    assert!(is_jpeg_identifier("a.jpeg"));
    assert!(is_jpeg_identifier("a.JPEG"));
    assert!(is_jpeg_identifier("a.JpEg"));
    assert!(is_jpeg_identifier("photos/2021/trip.jpg"));
    assert!(is_jpeg_identifier("archive.tar.jpg"));
}

#[test]
fn rejects_other_paths() {
    assert!(!is_jpeg_identifier("a.png"));
    assert!(!is_jpeg_identifier("a.jpgx"));
    assert!(!is_jpeg_identifier("ajpg"));
    assert!(!is_jpeg_identifier("jpg"));
    assert!(!is_jpeg_identifier(""));
    // A hidden file's leading dot does not start an extension.
    assert!(!is_jpeg_identifier(".jpg"));
    assert!(!is_jpeg_identifier("photos/.jpg"));
    // The extension must sit in the final component.
    assert!(!is_jpeg_identifier("photos.jpg/readme"));
    assert!(!is_jpeg_identifier("a.jpg."));
}

#[test]
fn build_catalog_sorts_identifiers() {
    let unsorted = vec![
        "b/2.jpg".to_string(),
        "a/9.jpg".to_string(),
        "b/1.jpg".to_string(),
        "a/10.jpg".to_string(),
    ];
    let sorted = build_catalog(unsorted);
    assert_eq!(
        sorted,
        vec![
            "a/10.jpg".to_string(),
            "a/9.jpg".to_string(),
            "b/1.jpg".to_string(),
            "b/2.jpg".to_string(),
        ]
    );
}

#[test]
fn build_catalog_keeps_duplicates_and_empty_input() {
    assert!(build_catalog(Vec::new()).is_empty());
    let twice = build_catalog(vec!["x.jpg".to_string(), "x.jpg".to_string()]);
    assert_eq!(twice.len(), 2);
    assert_eq!(twice[0], "x.jpg");
    assert_eq!(twice[1], "x.jpg");
}
