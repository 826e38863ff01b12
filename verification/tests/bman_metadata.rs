use std::collections::HashMap;

use nugs::bman::metadata::{
    apply_fallback, apply_titles_by_position, count_track_lines, initial_sources, lines_of, parse_info_file,
    pick_info_file, TitleSource,
};
use nugs::models::{Show, Track};

#[test]
fn metadata_test_title_source_ordering() {
    assert!(TitleSource::Fallback < TitleSource::Filename);
    assert!(TitleSource::Filename < TitleSource::InfoFile);
    assert!(TitleSource::InfoFile < TitleSource::VorbisComment);
    assert!(TitleSource::VorbisComment < TitleSource::SetlistFm);
}

#[test]
fn integration_tests_test_title_source_ordering() {
    assert!(TitleSource::SetlistFm > TitleSource::VorbisComment);
    assert!(TitleSource::VorbisComment > TitleSource::InfoFile);
    assert!(TitleSource::InfoFile > TitleSource::Filename);
    assert!(TitleSource::Filename > TitleSource::Fallback);
}

#[test]
fn test_title_source_rank_agrees_with_order() {
    let all = [
        TitleSource::Fallback,
        TitleSource::Filename,
        TitleSource::InfoFile,
        TitleSource::VorbisComment,
        TitleSource::SetlistFm,
    ];
    for a in all {
        for b in all {
            assert_eq!(a < b, a.rank() < b.rank());
        }
    }
}

#[test]
fn test_parse_info_file_dot_format() {
    let contents = "1. Scarlet Begonias\n2. Fire on the Mountain\n3. Eyes of the World";
    let titles = parse_info_file(contents);
    assert_eq!(titles, vec!["Scarlet Begonias", "Fire on the Mountain", "Eyes of the World"]);
}

#[test]
fn test_parse_info_file_paren_format() {
    let contents = "1) Dark Star\n2) St. Stephen\n3) The Eleven";
    let titles = parse_info_file(contents);
    assert_eq!(titles, vec!["Dark Star", "St. Stephen", "The Eleven"]);
}

#[test]
fn test_parse_info_file_leading_zeros() {
    let contents = "01. Song A\n02. Song B\n10. Song J";
    let titles = parse_info_file(contents);
    assert_eq!(titles.len(), 3);
    assert_eq!(titles[0], "Song A");
    assert_eq!(titles[1], "Song B");
    assert_eq!(titles[2], "Song J");
}

#[test]
fn test_parse_info_file_skips_section_headers() {
    let contents = "Set 1:\n1. Song A\n2. Song B\nEncore:\n3. Song C";
    let titles = parse_info_file(contents);
    assert_eq!(titles, vec!["Song A", "Song B", "Song C"]);
}

#[test]
fn test_parse_info_file_skips_disc_headers() {
    let contents = "Disk 1:\n1. Song A\nDisc 2:\n2. Song B";
    let titles = parse_info_file(contents);
    assert_eq!(titles, vec!["Song A", "Song B"]);
}

#[test]
fn test_parse_info_file_ignores_blank_lines() {
    let contents = "\n1. Song A\n\n2. Song B\n";
    let titles = parse_info_file(contents);
    assert_eq!(titles, vec!["Song A", "Song B"]);
}

#[test]
fn test_parse_info_file_ignores_non_track_lines() {
    let contents = "Grateful Dead Live\nDate: 1977-05-08\n1. Scarlet Begonias\nRecorded by: Bob";
    let titles = parse_info_file(contents);
    assert_eq!(titles, vec!["Scarlet Begonias"]);
}

#[test]
fn test_parse_info_file_deduplicates_track_numbers() {
    let contents = "1. First Title\n1. Duplicate\n2. Second";
    let titles = parse_info_file(contents);
    assert_eq!(titles, vec!["First Title", "Second"]);
}

#[test]
fn test_parse_info_file_empty() {
    let titles = parse_info_file("");
    assert!(titles.is_empty());
}

#[test]
fn test_parse_info_file_only_headers() {
    let titles = parse_info_file("Set 1:\nEncore:\nDisc 2:");
    assert!(titles.is_empty());
}

#[test]
fn test_parse_info_file_dash_separator() {
    let contents = "01-Song Title\n02-Another Song";
    let titles = parse_info_file(contents);
    assert_eq!(titles, vec!["Song Title", "Another Song"]);
}

#[test]
fn test_parse_info_file_space_only_separator() {
    let contents = "01 Song Title\n02 Another Song";
    let titles = parse_info_file(contents);
    assert_eq!(titles, vec!["Song Title", "Another Song"]);
}

#[test]
fn test_parse_info_file_dash_no_space() {
    let contents = "1-Dark Star\n2-St. Stephen";
    let titles = parse_info_file(contents);
    assert_eq!(titles, vec!["Dark Star", "St. Stephen"]);
}

#[test]
fn test_parse_info_file_orders_by_number_and_handles_crlf() {
    let contents = "3. Third\r\n1. First\r\n0. Zero\r\n2. Second\r\n99999999999999999999. Huge";
    let titles = parse_info_file(contents);
    assert_eq!(titles, vec!["First", "Second", "Third"]);
}

#[test]
fn test_count_track_lines() {
    let contents = "Set 1:\n1. Song A\n2. Song B\nRecorded by: Bob";
    assert_eq!(count_track_lines(contents), 2);
}

#[test]
fn test_lines_of_matches_str_lines() {
    for text in ["", "a", "a\n", "a\r\nb", "a\n\nb\r", "\r\n", "x\ny\n\n"] {
        let expected: Vec<String> = text.lines().map(|l| l.to_string()).collect();
        assert_eq!(lines_of(text), expected, "for {:?}", text);
    }
}

#[test]
fn test_pick_info_file() {
    assert_eq!(pick_info_file(&vec![]), None);
    assert_eq!(pick_info_file(&vec![0]), Some(0));
    assert_eq!(pick_info_file(&vec![3, 7, 2]), Some(1));
    assert_eq!(pick_info_file(&vec![5, 1, 5]), Some(2));
}

fn make_track(track_id: i64, track_num: i64, disc_num: i64, title: &str) -> Track {
    Track {
        track_id,
        song_id: 0,
        song_title: title.to_string(),
        track_num,
        disc_num,
        set_num: 1,
        duration_seconds: 0,
        duration_display: String::new(),
    }
}

fn make_show_with_tracks(tracks: Vec<Track>) -> Show {
    Show {
        container_id: 1,
        artist_name: "Grateful Dead".to_string(),
        container_info: "1977-05-08 Cornell".to_string(),
        venue_name: "Barton Hall".to_string(),
        venue_city: "Ithaca".to_string(),
        venue_state: "NY".to_string(),
        performance_date: "1977-05-08".to_string(),
        performance_date_formatted: "05/08/1977".to_string(),
        performance_date_year: "1977".to_string(),
        artist_id: 461,
        total_duration_seconds: 0,
        total_duration_display: String::new(),
        tracks,
        image_url: String::new(),
    }
}

#[test]
fn test_apply_titles_by_position_basic() {
    let tracks = vec![make_track(1, 1, 1, "Filename Title"), make_track(2, 2, 1, "Another Title")];
    let mut show = make_show_with_tracks(tracks);
    let mut sources: HashMap<i64, TitleSource> = HashMap::from([(1, TitleSource::Filename), (2, TitleSource::Filename)]);

    let titles = vec!["Info Title 1".to_string(), "Info Title 2".to_string()];
    apply_titles_by_position(&mut show, &mut sources, &titles, TitleSource::InfoFile);

    assert_eq!(show.tracks[0].song_title, "Info Title 1");
    assert_eq!(show.tracks[1].song_title, "Info Title 2");
    assert_eq!(sources[&1], TitleSource::InfoFile);
    assert_eq!(sources[&2], TitleSource::InfoFile);
}

#[test]
fn test_apply_titles_higher_source_not_overwritten() {
    let tracks = vec![make_track(1, 1, 1, "Vorbis Title"), make_track(2, 2, 1, "Filename Title")];
    let mut show = make_show_with_tracks(tracks);
    let mut sources: HashMap<i64, TitleSource> =
        HashMap::from([(1, TitleSource::VorbisComment), (2, TitleSource::Filename)]);

    let titles = vec!["Info Title 1".to_string(), "Info Title 2".to_string()];
    apply_titles_by_position(&mut show, &mut sources, &titles, TitleSource::InfoFile);

    assert_eq!(show.tracks[0].song_title, "Vorbis Title");
    assert_eq!(show.tracks[1].song_title, "Info Title 2");
}

#[test]
fn test_apply_titles_fewer_sources_than_tracks() {
    let tracks = vec![make_track(1, 1, 1, ""), make_track(2, 2, 1, ""), make_track(3, 3, 1, "")];
    let mut show = make_show_with_tracks(tracks);
    let mut sources: HashMap<i64, TitleSource> =
        HashMap::from([(1, TitleSource::Filename), (2, TitleSource::Filename), (3, TitleSource::Filename)]);

    let titles = vec!["Title 1".to_string(), "Title 2".to_string()];
    apply_titles_by_position(&mut show, &mut sources, &titles, TitleSource::InfoFile);

    assert_eq!(show.tracks[0].song_title, "Title 1");
    assert_eq!(show.tracks[1].song_title, "Title 2");
    assert_eq!(show.tracks[2].song_title, "");
}

#[test]
fn test_apply_titles_follows_disc_then_track_order() {
    let tracks = vec![make_track(10, 1, 2, ""), make_track(11, 2, 1, ""), make_track(12, 1, 1, "")];
    let mut show = make_show_with_tracks(tracks);
    let mut sources = initial_sources(&show);
    let titles = vec!["A".to_string(), "B".to_string(), "".to_string()];
    apply_titles_by_position(&mut show, &mut sources, &titles, TitleSource::SetlistFm);
    assert_eq!(show.tracks[2].song_title, "A");
    assert_eq!(show.tracks[1].song_title, "B");
    assert_eq!(show.tracks[0].song_title, "");
    assert_eq!(sources[&12], TitleSource::SetlistFm);
    assert_eq!(sources[&10], TitleSource::Filename);
}

#[test]
fn test_apply_fallback_fills_empty_titles() {
    let tracks = vec![make_track(1, 1, 1, ""), make_track(2, 2, 1, "Real Title"), make_track(3, 3, 1, "")];
    let mut show = make_show_with_tracks(tracks);
    let mut sources: HashMap<i64, TitleSource> =
        HashMap::from([(1, TitleSource::Filename), (2, TitleSource::InfoFile), (3, TitleSource::Filename)]);

    apply_fallback(&mut show, &mut sources);

    assert_eq!(show.tracks[0].song_title, "Track 01");
    assert_eq!(show.tracks[1].song_title, "Real Title");
    assert_eq!(show.tracks[2].song_title, "Track 03");
}

#[test]
fn test_apply_fallback_no_op_when_all_titled() {
    let tracks = vec![make_track(1, 1, 1, "Song A"), make_track(2, 2, 1, "Song B")];
    let mut show = make_show_with_tracks(tracks);
    let mut sources: HashMap<i64, TitleSource> = HashMap::from([(1, TitleSource::InfoFile), (2, TitleSource::InfoFile)]);

    apply_fallback(&mut show, &mut sources);

    assert_eq!(show.tracks[0].song_title, "Song A");
    assert_eq!(show.tracks[1].song_title, "Song B");
}

#[test]
fn test_apply_fallback_number_formats() {
    let tracks = vec![make_track(1, 123, 1, ""), make_track(2, -5, 1, ""), make_track(3, i64::MIN, 1, "")];
    let mut show = make_show_with_tracks(tracks);
    let mut sources = HashMap::new();
    apply_fallback(&mut show, &mut sources);
    assert_eq!(show.tracks[0].song_title, format!("Track {:02}", 123));
    assert_eq!(show.tracks[1].song_title, format!("Track {:02}", -5));
    assert_eq!(show.tracks[2].song_title, format!("Track {:02}", i64::MIN));
    assert_eq!(sources[&2], TitleSource::Fallback);
}
