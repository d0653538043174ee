use nextsyncengine::media::{timestamp_from_exif_listing, CustomMetadata, Extractor};

#[test]
fn test_custom_metadata() {
    let m = CustomMetadata::new(1709632800, 4096);
    assert_eq!(m.get_mtime(), 1709632800);
    assert_eq!(m.get_size(), 4096);
}

#[test]
fn test_supported_formats_from_listing() {
    let mut e = Extractor::new("exiftool".to_string());
    assert_eq!(e.get_exiftool(), "exiftool");
    e.get_supported_formats("JPG PNG\r\nTIFF\n  heic\n");
    assert!(e.is_supported_by_exif("jpg"));
    assert!(e.is_supported_by_exif("JPG"));
    assert!(e.is_supported_by_exif("png"));
    assert!(e.is_supported_by_exif("tiff"));
    assert!(e.is_supported_by_exif("HEIC"));
    assert!(!e.is_supported_by_exif("txt"));
}

#[test]
fn test_formats_accumulate() {
    let mut e = Extractor::new("exiftool".to_string());
    e.get_supported_formats("jpg");
    e.get_supported_formats("png");
    assert!(e.is_supported_by_exif("jpg"));
    assert!(e.is_supported_by_exif("png"));
}

#[test]
fn test_timestamp_from_exif_listing() {
    // 2024-03-05 10:00:00, read as UTC
    assert_eq!(
        timestamp_from_exif_listing("2024:03:05 10:00:00"),
        Some(1709632800)
    );
}

#[test]
fn test_timestamp_skips_placeholder_lines() {
    let listing = "0000:00:00 00:00:00\r\n2024:03:05 10:00:00\n1999:01:01 00:00:00";
    assert_eq!(timestamp_from_exif_listing(listing), Some(1709632800));
}

#[test]
fn test_timestamp_rejects_garbage() {
    assert_eq!(timestamp_from_exif_listing("not a date"), None);
    assert_eq!(timestamp_from_exif_listing(""), None);
    assert_eq!(timestamp_from_exif_listing("0000:00:00 00:00:00"), None);
}
