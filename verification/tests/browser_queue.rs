use nugs::bman::artwork::{artwork_listing, is_cover_folder, rank_artwork, MAX_IMAGES_PER_SHOW};
use nugs::browser::playlist::{effective_codec, playlist_track_step, PlaylistCounts, TrackAction, TrackEvent};
use nugs::browser::queue::{
    queue_add_all, queue_after_downloads, queue_remove_all, show_detail_action, show_detail_choices, DetailAction,
    ShowOutcome, ShowQueue,
};
use nugs::browser::style::show_summary_line;
use nugs::models::CatalogShow;

fn make_catalog_show_with_id(id: i64, date: &str, venue: &str) -> CatalogShow {
    CatalogShow {
        container_id: id,
        artist_id: 1,
        artist_name: "Test".to_string(),
        container_info: String::new(),
        venue_name: venue.to_string(),
        venue_city: String::new(),
        venue_state: String::new(),
        performance_date: date.to_string(),
        performance_date_formatted: String::new(),
        performance_date_year: String::new(),
        song_list: String::new(),
        image_url: String::new(),
        service: Default::default(),
    }
}

fn ids(q: &ShowQueue) -> Vec<i64> {
    q.entries().iter().map(|(id, _)| *id).collect()
}

#[test]
fn test_bulk_add_empty_queue() {
    let shows = vec![
        make_catalog_show_with_id(100, "2024-01-01", "Red Rocks"),
        make_catalog_show_with_id(200, "2024-02-01", "MSG"),
        make_catalog_show_with_id(300, "2024-03-01", "Alpine"),
    ];
    let mut queue = ShowQueue::new();
    assert_eq!(queue_add_all(&mut queue, &shows), 3);
    assert_eq!(queue.len(), 3);
    assert!(queue.contains(100));
    assert!(queue.contains(200));
    assert!(queue.contains(300));
}

#[test]
fn test_bulk_add_partial_queue() {
    let shows = vec![
        make_catalog_show_with_id(100, "2024-01-01", "Red Rocks"),
        make_catalog_show_with_id(200, "2024-02-01", "MSG"),
        make_catalog_show_with_id(300, "2024-03-01", "Alpine"),
    ];
    let mut queue = ShowQueue::new();
    // Pre-queue show 200
    queue.add(&shows[1]);
    let added = queue_add_all(&mut queue, &shows);
    let skipped = shows.len() - added;
    assert_eq!(added, 2);
    assert_eq!(skipped, 1);
    assert_eq!(queue.len(), 3);
    assert_eq!(ids(&queue), vec![200, 100, 300]);
}

#[test]
fn test_bulk_remove_all_queued() {
    let shows = vec![
        make_catalog_show_with_id(100, "2024-01-01", "Red Rocks"),
        make_catalog_show_with_id(200, "2024-02-01", "MSG"),
    ];
    let mut queue = ShowQueue::new();
    queue_add_all(&mut queue, &shows);
    queue.add(&make_catalog_show_with_id(999, "2024-12-31", "Other Venue"));
    assert_eq!(queue.len(), 3);
    assert_eq!(queue_remove_all(&mut queue, &shows), 2);
    assert_eq!(queue.len(), 1);
    assert!(!queue.contains(100));
    assert!(!queue.contains(200));
    assert!(queue.contains(999)); // Other context preserved
}

#[test]
fn test_queue_remove_and_detail_screen() {
    let mut queue = ShowQueue::new();
    assert_eq!(show_detail_choices(&queue, 7), vec!["Add to queue", "Download now"]);
    queue.add(&make_catalog_show_with_id(5, "2024-01-01", "A"));
    assert_eq!(show_detail_choices(&queue, 7), vec!["Add to queue", "Download now", "Add + download queue (2 shows)"]);
    assert_eq!(show_detail_choices(&queue, 5), vec!["Remove from queue", "Download now", "Download queue (1 show)"]);
    assert_eq!(show_detail_action("Add to queue"), DetailAction::AddToQueue);
    assert_eq!(show_detail_action("Remove from queue"), DetailAction::RemoveFromQueue);
    assert_eq!(show_detail_action("Download now"), DetailAction::DownloadNow);
    assert_eq!(show_detail_action("Download queue (1 show)"), DetailAction::DownloadQueue);
    assert_eq!(show_detail_action("Add + download queue (2 shows)"), DetailAction::AddAndDownloadQueue);
    assert_eq!(show_detail_action("other"), DetailAction::Nothing);
    assert!(queue.remove(5));
    assert!(!queue.remove(5));
    assert_eq!(queue.len(), 0);
}

#[test]
fn test_queue_cleared_only_after_clean_run() {
    let shows = vec![make_catalog_show_with_id(1, "a", "v"), make_catalog_show_with_id(2, "b", "v")];
    let mut queue = ShowQueue::new();
    queue_add_all(&mut queue, &shows);
    let done = ShowOutcome::Completed { failed_count: 0 };
    assert!(!queue_after_downloads(&mut queue, &vec![done, ShowOutcome::Completed { failed_count: 1 }], true));
    assert_eq!(queue.len(), 2);
    assert!(!queue_after_downloads(&mut queue, &vec![ShowOutcome::Completed { failed_count: 0 }, ShowOutcome::Skipped], true));
    assert!(!queue_after_downloads(&mut queue, &vec![ShowOutcome::Cancelled], true));
    let clean = || vec![ShowOutcome::Completed { failed_count: 0 }, ShowOutcome::Completed { failed_count: 0 }];
    assert!(!queue_after_downloads(&mut queue, &clean(), false));
    assert_eq!(queue.len(), 2);
    assert!(queue_after_downloads(&mut queue, &clean(), true));
    assert_eq!(queue.len(), 0);
}

#[test]
fn test_playlist_track_steps() {
    let c = PlaylistCounts { downloaded: 0, skipped: 0, failed: 0 };
    assert_eq!(effective_codec("flac", false), "none");
    assert_eq!(effective_codec("flac", true), "flac");
    let (c, a) = playlist_track_step(c, &TrackEvent::NoStreamUrl, "none");
    assert_eq!((c.failed, a), (1, TrackAction::Next));
    let hls = TrackEvent::Resolved { url: "http://x/y.m3u8".to_string(), quality_code: "alac".to_string(), already_done: false, download_exists: false };
    let (c, a) = playlist_track_step(c, &hls, "none");
    assert_eq!((c.skipped, a), (1, TrackAction::Next));
    let aac = TrackEvent::Resolved { url: "http://x/y.m4a".to_string(), quality_code: "aac".to_string(), already_done: false, download_exists: false };
    let (c2, a) = playlist_track_step(c, &aac, "flac");
    assert_eq!((c2, a), (c, TrackAction::Download { convert: true }));
    let (c2, a) = playlist_track_step(c, &aac, "none");
    assert_eq!(a, TrackAction::Download { convert: false });
    let waiting = TrackEvent::Resolved { url: "u".to_string(), quality_code: "aac".to_string(), already_done: false, download_exists: true };
    let (c3, a) = playlist_track_step(c2, &waiting, "flac");
    assert_eq!((c3.downloaded, a), (1, TrackAction::ResumeConversion));
    let (c4, _) = playlist_track_step(c3, &TrackEvent::Downloaded { ok: false }, "flac");
    assert_eq!((c4.downloaded, c4.skipped, c4.failed), (1, 1, 2));
}

#[test]
fn test_artwork_plan() {
    let items = vec![
        ("f1".to_string(), "back.jpg".to_string(), 100u64, false),
        ("f2".to_string(), "Front.JPG".to_string(), 10u64, false),
        ("d1".to_string(), "Covers".to_string(), 0u64, true),
        ("f3".to_string(), "cover_big.png".to_string(), 60_000_000u64, false),
        ("f4".to_string(), "notes.txt".to_string(), 5u64, false),
        ("f5".to_string(), "other.webp".to_string(), 200u64, false),
    ];
    let (images, folders) = artwork_listing(&items);
    assert_eq!(folders, vec!["d1".to_string()]);
    assert_eq!(images.len(), 4);
    assert!(is_cover_folder("ART"));
    assert!(!is_cover_folder("artworks"));
    let ranked = rank_artwork(&images);
    // front, then cover (oversized: dropped), then larger first.
    let names: Vec<&str> = ranked.iter().map(|t| t.1.as_str()).collect();
    assert_eq!(names, vec!["Front.JPG", "other.webp", "back.jpg"]);
    let many: Vec<(String, String, u64)> = (0..30).map(|i| (format!("id{i}"), format!("x{i}.jpg"), i as u64)).collect();
    let ranked = rank_artwork(&many);
    assert_eq!(ranked.len(), MAX_IMAGES_PER_SHOW);
    assert_eq!(ranked[0].2, 29);
}

#[test]
fn test_show_summary_line() {
    assert_eq!(
        show_summary_line("New York, NY", 2, 18, 3725),
        format!("\x1b[2mNew York, NY \u{b7} 2 sets \u{b7} 18 tracks \u{b7} {}\x1b[0m", nugs::browser::style::format_duration(3725))
    );
    assert_eq!(show_summary_line("", 0, 1, 0), "\x1b[2m1 track\x1b[0m");
    assert_eq!(show_summary_line("", 1, 2, 0), "\x1b[2m1 set \u{b7} 2 tracks\x1b[0m");
}
