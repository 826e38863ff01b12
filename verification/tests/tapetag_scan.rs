use nugs::tapetag::artwork::{detect_image_mime, ImageMime, MAX_COVER_SIZE};
use nugs::tapetag::scanner::{is_audio_name, is_bad_title, is_cover_name, parse_disc_subfolder};

#[test]
fn test_is_bad_title() {
    assert!(is_bad_title(""));
    assert!(is_bad_title("Track 01"));
    assert!(is_bad_title("track 05"));
    assert!(is_bad_title("gd77-04-23d1t01"));
    assert!(!is_bad_title("Scarlet Begonias"));
    assert!(!is_bad_title("Fire on the Mountain"));
}

#[test]
fn test_parse_disc_subfolder() {
    assert_eq!(parse_disc_subfolder("disc 1"), Some(1));
    assert_eq!(parse_disc_subfolder("Disc2"), Some(2));
    assert_eq!(parse_disc_subfolder("CD 3"), Some(3));
    assert_eq!(parse_disc_subfolder("d1"), Some(1));
    assert_eq!(parse_disc_subfolder("set 2"), Some(2));
    assert_eq!(parse_disc_subfolder("random"), None);
}

#[test]
fn test_parse_disc_subfolder_edges() {
    assert_eq!(parse_disc_subfolder("disk 12"), Some(12));
    assert_eq!(parse_disc_subfolder("disc 1 bonus"), None);
    // Too large for a u32.
    assert_eq!(parse_disc_subfolder("disc 99999999999"), None);
}

#[test]
fn test_cover_and_audio_names() {
    assert!(is_cover_name("Cover.JPG"));
    assert!(is_cover_name("folder.png"));
    assert!(is_cover_name("cover-front.jpeg"));
    assert!(!is_cover_name("back.jpg"));
    assert!(!is_cover_name("cover.gif"));
    assert!(is_audio_name("01 Track.FLAC"));
    assert!(is_audio_name("a.m4a"));
    assert!(!is_audio_name("notes.txt"));
}

#[test]
fn test_detect_jpeg() {
    let data = [0xFF, 0xD8, 0xFF, 0xE0, 0x00];
    assert!(matches!(detect_image_mime(&data).unwrap(), ImageMime::Jpeg));
}

#[test]
fn test_detect_png() {
    let data = [0x89, 0x50, 0x4E, 0x47, 0x0D, 0x0A];
    assert!(matches!(detect_image_mime(&data).unwrap(), ImageMime::Png));
}

#[test]
fn test_detect_unknown() {
    let data = [0x00, 0x00, 0x00, 0x00];
    assert!(detect_image_mime(&data).is_err());
}

#[test]
fn test_detect_too_small() {
    let data = [0xFF, 0xD8];
    // Only 2 bytes, rejected by the length check
    assert!(detect_image_mime(&data).is_err());
}

#[test]
fn test_detect_messages() {
    assert_eq!(detect_image_mime(&[0xFF]).unwrap_err(), "Image file too small to detect format");
    assert_eq!(detect_image_mime(&[1, 2, 3, 4]).unwrap_err(), "Unsupported image format (not JPEG or PNG)");
    assert_eq!(MAX_COVER_SIZE, 10 * 1024 * 1024);
}
