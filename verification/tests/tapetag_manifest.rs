use nugs::tapetag::manifest::{ArchiveMatch, Manifest, ShowRecord, TrackRecord, TrackStatus};

fn track(file: &str, applied: &str, confidence: f64, status: TrackStatus) -> TrackRecord {
    TrackRecord {
        file: file.to_string(),
        original_title: String::new(),
        applied_title: applied.to_string(),
        archive_title: applied.to_string(),
        confidence_bits: confidence.to_bits(),
        duration_local_bits: 100.0f64.to_bits(),
        duration_archive_bits: Some(100.0f64.to_bits()),
        status,
    }
}

#[test]
fn test_is_fully_fixed() {
    let mut manifest = Manifest::default();
    assert!(!manifest.is_fully_fixed("1977-05-08"));

    manifest.record_show(
        "1977-05-08".to_string(),
        "test".to_string(),
        None,
        vec![
            TrackRecord {
                file: "01.flac".to_string(),
                original_title: "Track 01".to_string(),
                applied_title: "Song".to_string(),
                archive_title: "Song".to_string(),
                confidence_bits: 0.99f64.to_bits(),
                duration_local_bits: 100.0f64.to_bits(),
                duration_archive_bits: Some(100.0f64.to_bits()),
                status: TrackStatus::Applied,
            },
            TrackRecord {
                file: "02.flac".to_string(),
                original_title: "Track 02".to_string(),
                applied_title: "".to_string(),
                archive_title: "Song 2".to_string(),
                confidence_bits: 0.5f64.to_bits(),
                duration_local_bits: 200.0f64.to_bits(),
                duration_archive_bits: None,
                status: TrackStatus::Skipped,
            },
        ],
    );
    assert!(!manifest.is_fully_fixed("1977-05-08"));
}

#[test]
fn test_unfixed_count() {
    let mut manifest = Manifest::default();
    manifest.record_show(
        "1977-05-08".to_string(),
        "test".to_string(),
        None,
        vec![track("01.flac", "Song", 0.99, TrackStatus::Applied)],
    );

    let dates = vec!["1977-05-08", "1978-01-01"];
    assert_eq!(manifest.unfixed_count(&dates), 1);
}

#[test]
fn test_record_artwork() {
    let mut manifest = Manifest::default();
    manifest.record_show("1977-05-08".to_string(), "test".to_string(), None, vec![]);
    manifest.record_artwork("1977-05-08", "cover.jpg".to_string(), 15);
    let record: &ShowRecord = manifest.get("1977-05-08").unwrap();
    assert_eq!(record.artwork.as_ref().unwrap().file_count, 15);
}

#[test]
fn test_mark_albumsort() {
    let mut manifest = Manifest::default();
    manifest.record_show("1977-05-08".to_string(), "test".to_string(), None, vec![]);
    manifest.mark_albumsort("1977-05-08");
    assert!(manifest.get("1977-05-08").unwrap().albumsort_applied);
}

#[test]
fn test_fully_fixed_when_all_applied_and_empty_is_not() {
    let mut manifest = Manifest::new();
    manifest.record_show("1977-05-08".to_string(), "a".to_string(), None, vec![]);
    assert!(!manifest.is_fully_fixed("1977-05-08"));
    manifest.record_show(
        "1977-05-08".to_string(),
        "b".to_string(),
        Some(ArchiveMatch {
            identifier: "gd77-05-08.sbd".to_string(),
            overall_confidence_bits: 0.95f64.to_bits(),
            match_method: "auto".to_string(),
        }),
        vec![track("01.flac", "Minglewood Blues", 0.99, TrackStatus::Applied)],
    );
    assert!(manifest.is_fully_fixed("1977-05-08"));
    let rec = manifest.get("1977-05-08").unwrap();
    assert_eq!(rec.folder, "b");
    assert_eq!(f64::from_bits(rec.archive_match.as_ref().unwrap().overall_confidence_bits), 0.95);
    assert_eq!(manifest.records().len(), 1);
}

#[test]
fn test_records_stay_in_date_order() {
    let mut manifest = Manifest::new();
    for d in ["1980-01-01", "1977-05-08", "1978-12-31", "1977-05-08"] {
        manifest.record_show(d.to_string(), d.to_string(), None, vec![]);
    }
    let dates: Vec<&str> = manifest.records().iter().map(|(d, _)| d.as_str()).collect();
    assert_eq!(dates, vec!["1977-05-08", "1978-12-31", "1980-01-01"]);
}

#[test]
fn test_artwork_and_albumsort_on_missing_date_do_nothing() {
    let mut manifest = Manifest::new();
    manifest.record_show("1977-05-08".to_string(), "a".to_string(), None, vec![]);
    manifest.record_artwork("1999-01-01", "cover.jpg".to_string(), 3);
    manifest.mark_albumsort("1999-01-01");
    assert_eq!(manifest.records().len(), 1);
    assert!(manifest.get("1999-01-01").is_none());
    let rec = manifest.get("1977-05-08").unwrap();
    assert!(rec.artwork.is_none());
    assert!(!rec.albumsort_applied);
}

#[test]
fn test_from_records_keeps_last_of_a_date() {
    let rec = |folder: &str| ShowRecord {
        folder: folder.to_string(),
        archive_match: None,
        tracks: vec![],
        artwork: None,
        albumsort_applied: false,
        updated_at: String::new(),
    };
    let m = Manifest::from_records(vec![
        ("1978-01-01".to_string(), rec("x")),
        ("1977-05-08".to_string(), rec("first")),
        ("1977-05-08".to_string(), rec("second")),
    ]);
    assert_eq!(m.records().len(), 2);
    assert_eq!(m.records()[0].0, "1977-05-08");
    assert_eq!(m.get("1977-05-08").unwrap().folder, "second");
    assert_eq!(m.get("1978-01-01").unwrap().folder, "x");
}
