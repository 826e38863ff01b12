use nugs::bman::parser::{
    clean_location, dedup_shows, detect_source_type, expand_year, is_jgb_folder, is_nll_folder,
    is_year_folder, parse_disc_subfolder, parse_show_folder, parse_track_filename,
    should_skip_folder, BmanArtist, ParsedShow, SourceType,
};


// --- parse_show_folder: Nice format ---

#[test]
fn test_nice_full_betty_board() {
    let show = parse_show_folder(
        "1977-05-08 Cornell University, Ithaca, NY (Betty Board)",
        "folder123",
        BmanArtist::GratefulDead,
        false,
    )
    .unwrap();
    assert_eq!(show.date, "1977-05-08");
    assert_eq!(show.venue, "Cornell University");
    assert_eq!(show.city, "Ithaca");
    assert_eq!(show.state, "NY");
    assert_eq!(show.source_tag, "Betty Board");
    assert_eq!(show.source_type, SourceType::Sbd);
    assert!(!show.is_nll);
    assert_eq!(show.folder_id, "folder123");
    assert_eq!(show.artist, BmanArtist::GratefulDead);
}

#[test]
fn test_nice_sbd_tag() {
    let show = parse_show_folder(
        "1977-05-08 Cornell University, Ithaca, NY (SBD)",
        "fid",
        BmanArtist::GratefulDead,
        false,
    )
    .unwrap();
    assert_eq!(show.source_type, SourceType::Sbd);
    assert_eq!(show.source_tag, "SBD");
}

#[test]
fn test_nice_aud_tag() {
    let show = parse_show_folder(
        "1977-05-08 Cornell University, Ithaca, NY (Aud)",
        "fid",
        BmanArtist::GratefulDead,
        false,
    )
    .unwrap();
    assert_eq!(show.source_type, SourceType::Aud);
}

#[test]
fn test_nice_mtx_tag() {
    let show = parse_show_folder(
        "1977-05-08 Madison Square Garden, New York, NY (Matrix)",
        "fid",
        BmanArtist::GratefulDead,
        false,
    )
    .unwrap();
    assert_eq!(show.source_type, SourceType::Mtx);
}

#[test]
fn test_nice_no_source_tag() {
    let show = parse_show_folder(
        "1977-05-08 Cornell University, Ithaca, NY",
        "fid",
        BmanArtist::GratefulDead,
        false,
    )
    .unwrap();
    assert_eq!(show.venue, "Cornell University");
    assert_eq!(show.city, "Ithaca");
    assert_eq!(show.state, "NY");
    assert!(show.source_tag.is_empty());
    assert_eq!(show.source_type, SourceType::Unknown);
}

#[test]
fn test_nice_multi_part_venue() {
    // venue contains a comma -> last two comma-parts are city, state
    let show = parse_show_folder(
        "1977-05-08 Barton Hall, Cornell University, Ithaca, NY (SBD)",
        "fid",
        BmanArtist::GratefulDead,
        false,
    )
    .unwrap();
    assert_eq!(show.venue, "Barton Hall, Cornell University");
    assert_eq!(show.city, "Ithaca");
    assert_eq!(show.state, "NY");
}

#[test]
fn test_nice_source_tag_only() {
    // No venue/city/state, just a source tag
    let show = parse_show_folder(
        "1977-05-08 (SBD)",
        "fid",
        BmanArtist::GratefulDead,
        false,
    )
    .unwrap();
    assert_eq!(show.date, "1977-05-08");
    assert_eq!(show.source_tag, "SBD");
    assert!(show.venue.is_empty());
}

#[test]
fn test_nice_is_nll_from_param() {
    let show = parse_show_folder(
        "1977-05-08 Cornell University, Ithaca, NY (SBD)",
        "fid",
        BmanArtist::GratefulDead,
        true,
    )
    .unwrap();
    assert!(show.is_nll);
}

#[test]
fn test_nice_is_nll_from_source_tag() {
    let show = parse_show_folder(
        "1977-05-08 Cornell University, Ithaca, NY (NLL SBD)",
        "fid",
        BmanArtist::GratefulDead,
        false,
    )
    .unwrap();
    assert!(show.is_nll);
}

// --- parse_show_folder: MM-DD-YYYY format ---

#[test]
fn test_mm_dd_yyyy_basic() {
    let show = parse_show_folder(
        "05-08-1977 - Cornell University - Ithaca, NY",
        "folder456",
        BmanArtist::GratefulDead,
        false,
    )
    .unwrap();
    assert_eq!(show.date, "1977-05-08");
    assert_eq!(show.venue, "Cornell University");
    assert_eq!(show.city, "Ithaca");
    assert_eq!(show.state, "NY");
    assert_eq!(show.folder_id, "folder456");
}

#[test]
fn test_mm_dd_yyyy_no_city_state() {
    let show = parse_show_folder(
        "07-18-1973 - Keystone Berkeley",
        "fid",
        BmanArtist::JerryGarciaBand,
        false,
    )
    .unwrap();
    assert_eq!(show.date, "1973-07-18");
    assert_eq!(show.venue, "Keystone Berkeley");
    assert!(show.city.is_empty());
}

// --- parse_show_folder: Bare date ---

#[test]
fn test_bare_date() {
    let show =
        parse_show_folder("1977-05-08", "fid", BmanArtist::GratefulDead, false).unwrap();
    assert_eq!(show.date, "1977-05-08");
    assert!(show.venue.is_empty());
    assert!(show.city.is_empty());
    assert!(show.state.is_empty());
    assert_eq!(show.source_type, SourceType::Unknown);
}

#[test]
fn test_bare_date_with_trailing_space() {
    let show =
        parse_show_folder("1977-05-08 ", "fid", BmanArtist::GratefulDead, false).unwrap();
    assert_eq!(show.date, "1977-05-08");
}

// --- parse_show_folder: Etree format ---

#[test]
fn test_etree_gd_dash_separator() {
    let show = parse_show_folder(
        "gd77-05-08.sbd.miller.flac16",
        "fid",
        BmanArtist::GratefulDead,
        false,
    )
    .unwrap();
    assert_eq!(show.date, "1977-05-08");
    assert_eq!(show.artist, BmanArtist::GratefulDead);
    assert_eq!(show.source_type, SourceType::Sbd);
}

#[test]
fn test_etree_jgb_two_digit_year() {
    let show = parse_show_folder(
        "jgb73-07-18.aud.flac16",
        "fid",
        BmanArtist::GratefulDead, // caller says GD, but etree prefix overrides
        false,
    )
    .unwrap();
    assert_eq!(show.date, "1973-07-18");
    assert_eq!(show.artist, BmanArtist::JerryGarciaBand);
    assert_eq!(show.source_type, SourceType::Aud);
}

#[test]
fn test_etree_dot_separator() {
    let show = parse_show_folder(
        "gd77.05.08.sbd.miller.flac16",
        "fid",
        BmanArtist::GratefulDead,
        false,
    )
    .unwrap();
    assert_eq!(show.date, "1977-05-08");
}

#[test]
fn test_etree_four_digit_year() {
    let show = parse_show_folder(
        "gd1977-05-08.sbd.flac16",
        "fid",
        BmanArtist::GratefulDead,
        false,
    )
    .unwrap();
    assert_eq!(show.date, "1977-05-08");
}

#[test]
fn test_etree_low_two_digit_year_maps_to_2000s() {
    let show =
        parse_show_folder("gd03-05-08.sbd.flac", "fid", BmanArtist::GratefulDead, false)
            .unwrap();
    assert_eq!(show.date, "2003-05-08");
}

#[test]
fn test_etree_mtx_source() {
    let show = parse_show_folder(
        "gd77-05-08.mtx.something.flac16",
        "fid",
        BmanArtist::GratefulDead,
        false,
    )
    .unwrap();
    assert_eq!(show.source_type, SourceType::Mtx);
}

#[test]
fn test_unrecognized_folder_returns_none() {
    assert!(parse_show_folder(
        "Some Random Folder Name",
        "fid",
        BmanArtist::GratefulDead,
        false
    )
    .is_none());
    assert!(parse_show_folder("README", "fid", BmanArtist::GratefulDead, false).is_none());
}

// --- parse_track_filename ---

#[test]
fn test_nice_track_space_separator() {
    let track = parse_track_filename("02 Scarlet Begonias.flac", "fid").unwrap();
    assert_eq!(track.track_num, 2);
    assert_eq!(track.disc_num, 1);
    assert_eq!(track.title, "Scarlet Begonias");
    assert_eq!(track.file_id, "fid");
}

#[test]
fn test_nice_track_dot_separator() {
    let track = parse_track_filename("02. Scarlet Begonias.flac", "fid").unwrap();
    assert_eq!(track.track_num, 2);
    assert_eq!(track.title, "Scarlet Begonias");
}

#[test]
fn test_nice_track_dash_separator() {
    let track = parse_track_filename("02 - Scarlet Begonias.flac", "fid").unwrap();
    assert_eq!(track.track_num, 2);
    assert_eq!(track.title, "Scarlet Begonias");
}

#[test]
fn test_nice_track_case_insensitive_extension() {
    let track = parse_track_filename("01 Fire On The Mountain.FLAC", "fid").unwrap();
    assert_eq!(track.track_num, 1);
    assert_eq!(track.title, "Fire On The Mountain");
}

#[test]
fn test_etree_track_disc1() {
    let track = parse_track_filename("d1t01.flac", "fid").unwrap();
    assert_eq!(track.disc_num, 1);
    assert_eq!(track.track_num, 1);
    assert!(track.title.is_empty());
}

#[test]
fn test_etree_track_disc2() {
    let track = parse_track_filename("d2t05.flac", "fid").unwrap();
    assert_eq!(track.disc_num, 2);
    assert_eq!(track.track_num, 5);
}

#[test]
fn test_etree_track_multi_digit() {
    let track = parse_track_filename("d1t12.flac", "fid").unwrap();
    assert_eq!(track.disc_num, 1);
    assert_eq!(track.track_num, 12);
}

#[test]
fn test_unrecognized_track_returns_none() {
    assert!(parse_track_filename("readme.txt", "fid").is_none());
    assert!(parse_track_filename("noext", "fid").is_none());
    assert!(parse_track_filename("cover.jpg", "fid").is_none());
}

// --- prefixed etree track filenames ---

#[test]
fn test_prefixed_etree_gd_disc_track() {
    let track = parse_track_filename("gd77-04-23d1t01.flac", "fid").unwrap();
    assert_eq!(track.disc_num, 1);
    assert_eq!(track.track_num, 1);
    assert!(track.title.is_empty());
}

#[test]
fn test_prefixed_etree_set_track() {
    let track = parse_track_filename("gd77-05-08s1t02.flac", "fid").unwrap();
    assert_eq!(track.disc_num, 1);
    assert_eq!(track.track_num, 2);
    assert!(track.title.is_empty());
}

#[test]
fn test_prefixed_etree_with_title() {
    let track = parse_track_filename("gd85-03-10 s1t02 Stranger.flac", "fid").unwrap();
    assert_eq!(track.disc_num, 1);
    assert_eq!(track.track_num, 2);
    assert_eq!(track.title, "Stranger");
}

#[test]
fn test_prefixed_jgb_with_title() {
    let track = parse_track_filename("JGB 1980-03-08d1t01 Sugaree.flac", "fid").unwrap();
    assert_eq!(track.disc_num, 1);
    assert_eq!(track.track_num, 1);
    assert_eq!(track.title, "Sugaree");
}

#[test]
fn test_prefixed_jgb_no_space() {
    let track = parse_track_filename("jgb1976-01-10s1t01.flac", "fid").unwrap();
    assert_eq!(track.disc_num, 1);
    assert_eq!(track.track_num, 1);
}

#[test]
fn test_etree_track_still_works_bare() {
    // Bare d1t01.flac must still work with the new regex
    let track = parse_track_filename("d1t01.flac", "fid").unwrap();
    assert_eq!(track.disc_num, 1);
    assert_eq!(track.track_num, 1);
}

// --- 3-digit track number decode ---

#[test]
fn test_three_digit_decode_101() {
    let track = parse_track_filename("101. Tuning.flac", "fid").unwrap();
    assert_eq!(track.disc_num, 1);
    assert_eq!(track.track_num, 1);
    assert_eq!(track.title, "Tuning");
}

#[test]
fn test_three_digit_decode_209() {
    let track = parse_track_filename("209. Saturday.flac", "fid").unwrap();
    assert_eq!(track.disc_num, 2);
    assert_eq!(track.track_num, 9);
    assert_eq!(track.title, "Saturday");
}

#[test]
fn test_three_digit_no_decode_99() {
    let track = parse_track_filename("99 Encore.flac", "fid").unwrap();
    assert_eq!(track.disc_num, 1);
    assert_eq!(track.track_num, 99);
}

#[test]
fn test_three_digit_no_decode_100() {
    // 100 % 100 == 0, so track 0 is invalid — don't decode
    let track = parse_track_filename("100. Intermission.flac", "fid").unwrap();
    assert_eq!(track.disc_num, 1);
    assert_eq!(track.track_num, 100);
}

#[test]
fn test_three_digit_no_decode_501() {
    // Disc 5 is unrealistic — don't decode
    let track = parse_track_filename("501. Weird.flac", "fid").unwrap();
    assert_eq!(track.disc_num, 1);
    assert_eq!(track.track_num, 501);
}

// --- parse_disc_subfolder ---

#[test]
fn test_disc_subfolders_all_patterns() {
    assert_eq!(parse_disc_subfolder("disc1"), Some(1));
    assert_eq!(parse_disc_subfolder("Disc 1"), Some(1));
    assert_eq!(parse_disc_subfolder("d1"), Some(1));
    assert_eq!(parse_disc_subfolder("CD1"), Some(1));
    assert_eq!(parse_disc_subfolder("Set 1"), Some(1));
    assert_eq!(parse_disc_subfolder("disk2"), Some(2));
    assert_eq!(parse_disc_subfolder("DISC3"), Some(3));
    assert_eq!(parse_disc_subfolder("cd 2"), Some(2));
    assert_eq!(parse_disc_subfolder("set2"), Some(2));
}

#[test]
fn test_non_disc_folders() {
    assert!(parse_disc_subfolder("1977").is_none());
    assert!(parse_disc_subfolder("Cornell University").is_none());
    assert!(parse_disc_subfolder("gd77-05-08").is_none());
    assert!(parse_disc_subfolder("d1t01.flac").is_none()); // has extra chars
}

// --- is_year_folder ---

#[test]
fn test_is_year_folder_bare() {
    assert_eq!(is_year_folder("1977"), Some("1977".to_string()));
    assert_eq!(is_year_folder("1965"), Some("1965".to_string()));
    assert_eq!(is_year_folder("2025"), Some("2025".to_string()));
}

#[test]
fn test_is_year_folder_with_suffix() {
    assert_eq!(is_year_folder("1977 (NLL)"), Some("1977".to_string()));
    assert_eq!(is_year_folder("NLL 1977"), Some("1977".to_string()));
    assert_eq!(is_year_folder("Fall 1972"), Some("1972".to_string()));
}

#[test]
fn test_is_year_folder_excludes_show_folders() {
    assert!(is_year_folder("1977-05-08 Cornell University, Ithaca, NY").is_none());
    assert!(is_year_folder("1977-05-08").is_none());
    assert!(is_year_folder("1977.05.08").is_none());
    assert!(is_year_folder("1977.05.08 Cornell University, Ithaca, NY").is_none());
    assert!(is_year_folder("gd77-05-08.sbd.flac16").is_none());
    assert!(is_year_folder("05-08-1977 - Cornell University - Ithaca, NY").is_none());
    assert!(is_year_folder("2-26-73 Pershing Municipal Auditorium").is_none());
}

#[test]
fn test_is_year_folder_out_of_range() {
    assert!(is_year_folder("1900").is_none());
    assert!(is_year_folder("2030").is_none());
    assert!(is_year_folder("1964").is_none());
}

// --- is_nll_folder ---

#[test]
fn parser_test_is_nll_folder() {
    assert!(is_nll_folder("New Lossless Library"));
    assert!(is_nll_folder("1977 New Lossless"));
    assert!(is_nll_folder("⚡ Lossless Archive"));
    assert!(is_nll_folder("Shows ⚡"));
    assert!(!is_nll_folder("Regular Folder"));
    assert!(!is_nll_folder("1977"));
    assert!(!is_nll_folder("Soundboard Recording"));
}

// --- is_jgb_folder ---

#[test]
fn parser_test_is_jgb_folder() {
    assert!(is_jgb_folder("Jerry Garcia Band"));
    assert!(is_jgb_folder("JGB"));
    assert!(is_jgb_folder("Jerry Garcia Solo"));
    assert!(is_jgb_folder("jerry garcia band 1976"));
    assert!(!is_jgb_folder("Grateful Dead"));
    assert!(!is_jgb_folder("1977"));
}

// --- detect_source_type ---

#[test]
fn test_detect_source_type_variants() {
    assert_eq!(detect_source_type("sbd.miller"), SourceType::Sbd);
    assert_eq!(detect_source_type("SBEOK"), SourceType::Sbd);
    assert_eq!(detect_source_type("Betty Board"), SourceType::Sbd);
    assert_eq!(detect_source_type("aud.jones"), SourceType::Aud);
    assert_eq!(detect_source_type("audience recording"), SourceType::Aud);
    assert_eq!(detect_source_type("mtx.smith"), SourceType::Mtx);
    assert_eq!(detect_source_type("matrix mix"), SourceType::Mtx);
    assert_eq!(detect_source_type("flac16"), SourceType::Unknown);
    assert_eq!(detect_source_type("fob.ecm.99a.hopkins"), SourceType::Aud);
    assert_eq!(detect_source_type("fob.akg.d330bt.senn421.hecht"), SourceType::Aud);
}

#[test]
fn test_detect_source_type_real_etree_names() {
    // Real folder names from Google Drive archive
    assert_eq!(
        detect_source_type("gd90-07-04.081523.sbd.miller.tetzeli.fix-26351.sbeok.t-flac16"),
        SourceType::Sbd
    );
    assert_eq!(
        detect_source_type("gd77-05-08.aud.berger.flac"),
        SourceType::Aud
    );
    assert_eq!(
        detect_source_type("gd73-06-10.sbd.shnf.flac16"),
        SourceType::Sbd
    );
    assert_eq!(
        detect_source_type("gd69-02-28.mtx.shnf.flac"),
        SourceType::Mtx
    );
    // No source keyword → Unknown
    assert_eq!(
        detect_source_type("gd77-05-08.berger.flac16"),
        SourceType::Unknown
    );
}

#[test]
fn test_parse_etree_aud_then_dedup_drops_it() {
    // Parse a real AUD etree folder, then dedup with an SBD version → AUD dropped
    let aud = parse_show_folder(
        "gd77-05-08.aud.berger.flac",
        "fid1",
        BmanArtist::GratefulDead,
        false,
    ).unwrap();
    assert_eq!(aud.source_type, SourceType::Aud);

    let sbd = parse_show_folder(
        "gd77-05-08.sbd.miller.flac16",
        "fid2",
        BmanArtist::GratefulDead,
        false,
    ).unwrap();
    assert_eq!(sbd.source_type, SourceType::Sbd);

    let result = dedup_shows(vec![aud, sbd]);
    assert_eq!(result.len(), 1);
    assert_eq!(result[0].source_type, SourceType::Sbd);
}

#[test]
fn test_parse_etree_aud_only_dedup_drops_it() {
    // Only AUD etree folder → dedup drops it entirely
    let aud = parse_show_folder(
        "gd77-05-08.aud.berger.flac",
        "fid1",
        BmanArtist::GratefulDead,
        false,
    ).unwrap();
    assert_eq!(aud.source_type, SourceType::Aud);

    let result = dedup_shows(vec![aud]);
    assert!(result.is_empty(), "AUD-only show must be filtered out");
}

// --- dedup_shows ---

fn make_show(
    date: &str,
    venue: &str,
    source_type: SourceType,
    is_nll: bool,
    artist: BmanArtist,
) -> ParsedShow {
    ParsedShow {
        date: date.to_string(),
        venue: venue.to_string(),
        city: String::new(),
        state: String::new(),
        source_type,
        source_tag: String::new(),
        is_nll,
        artist,
        folder_id: "fid".to_string(),
    }
}

fn gd_show(date: &str, venue: &str, source_type: SourceType, is_nll: bool) -> ParsedShow {
    make_show(date, venue, source_type, is_nll, BmanArtist::GratefulDead)
}

#[test]
fn test_dedup_nll_overrides_sbd() {
    let shows = vec![
        gd_show("1977-05-08", "Cornell", SourceType::Sbd, false),
        gd_show("1977-05-08", "Cornell", SourceType::Unknown, true),
    ];
    let result = dedup_shows(shows);
    assert_eq!(result.len(), 1);
    assert!(result[0].is_nll);
}

#[test]
fn test_dedup_nll_beats_everything() {
    let shows = vec![
        gd_show("1977-05-08", "Cornell", SourceType::Sbd, false),
        gd_show("1977-05-08", "Cornell", SourceType::Aud, false),
        gd_show("1977-05-08", "Cornell", SourceType::Unknown, true),
    ];
    let result = dedup_shows(shows);
    assert_eq!(result.len(), 1);
    assert!(result[0].is_nll);
}

#[test]
fn test_dedup_keeps_highest_source_type() {
    let shows = vec![
        gd_show("1977-05-08", "Cornell", SourceType::Aud, false),
        gd_show("1977-05-08", "Cornell", SourceType::Sbd, false),
        gd_show("1977-05-08", "Cornell", SourceType::Mtx, false),
    ];
    let result = dedup_shows(shows);
    assert_eq!(result.len(), 1);
    assert_eq!(result[0].source_type, SourceType::Sbd);
}

#[test]
fn test_dedup_merges_same_date_same_source() {
    // Two SBD copies of the same date → single winner
    let shows = vec![
        gd_show("1977-05-08", "Cornell", SourceType::Sbd, false),
        gd_show("1977-05-08", "Cornell", SourceType::Sbd, false),
    ];
    let result = dedup_shows(shows);
    assert_eq!(result.len(), 1);
}

#[test]
fn test_dedup_different_dates_kept() {
    let shows = vec![
        gd_show("1977-05-08", "Cornell", SourceType::Sbd, false),
        gd_show("1977-09-03", "Englishtown", SourceType::Sbd, false),
    ];
    let result = dedup_shows(shows);
    assert_eq!(result.len(), 2);
}

#[test]
fn test_dedup_venue_normalization() {
    // Different punctuation -> same normalized venue -> deduplicated
    let shows = vec![
        gd_show("1977-05-08", "Cornell University", SourceType::Sbd, false),
        gd_show("1977-05-08", "cornell university!", SourceType::Aud, false),
    ];
    let result = dedup_shows(shows);
    assert_eq!(result.len(), 1);
    assert_eq!(result[0].source_type, SourceType::Sbd);
}

#[test]
fn test_dedup_different_artists_kept() {
    let shows = vec![
        make_show(
            "1977-05-08",
            "Venue",
            SourceType::Sbd,
            false,
            BmanArtist::GratefulDead,
        ),
        make_show(
            "1977-05-08",
            "Venue",
            SourceType::Sbd,
            false,
            BmanArtist::JerryGarciaBand,
        ),
    ];
    let result = dedup_shows(shows);
    assert_eq!(result.len(), 2);
}

#[test]
fn test_dedup_sorted_by_date() {
    let shows = vec![
        gd_show("1984-06-24", "Greek", SourceType::Sbd, false),
        gd_show("1977-05-08", "Cornell", SourceType::Sbd, false),
        gd_show("1972-04-14", "Tivoli", SourceType::Sbd, false),
    ];
    let result = dedup_shows(shows);
    assert_eq!(result[0].date, "1972-04-14");
    assert_eq!(result[1].date, "1977-05-08");
    assert_eq!(result[2].date, "1984-06-24");
}

#[test]
fn test_dedup_single_show_unchanged() {
    let shows = vec![gd_show("1977-05-08", "Cornell", SourceType::Sbd, false)];
    let result = dedup_shows(shows);
    assert_eq!(result.len(), 1);
}

#[test]
fn test_dedup_empty() {
    let result = dedup_shows(vec![]);
    assert!(result.is_empty());
}

// --- expand_year ---

#[test]
fn test_expand_year_two_digit_ge_50() {
    assert_eq!(expand_year("65"), "1965");
    assert_eq!(expand_year("77"), "1977");
    assert_eq!(expand_year("99"), "1999");
}

#[test]
fn test_expand_year_two_digit_lt_50() {
    assert_eq!(expand_year("00"), "2000");
    assert_eq!(expand_year("03"), "2003");
    assert_eq!(expand_year("24"), "2024");
}

#[test]
fn test_expand_year_four_digit() {
    assert_eq!(expand_year("1977"), "1977");
    assert_eq!(expand_year("2003"), "2003");
}

// --- 1e: JGB in GD folder ---

#[test]
fn test_jgb_in_gd_folder_nice() {
    let show = parse_show_folder(
        "1983-06-03 Capitol Theater, Passaic, NJ (Jerry Garcia Band)",
        "fid",
        BmanArtist::GratefulDead,
        false,
    )
    .unwrap();
    assert_eq!(show.artist, BmanArtist::JerryGarciaBand);
    assert_eq!(show.date, "1983-06-03");
}

#[test]
fn test_jgb_in_mm_dd_yyyy_format() {
    let show = parse_show_folder(
        "06-10-1973 - JGB Keystone Berkeley",
        "fid",
        BmanArtist::GratefulDead,
        false,
    )
    .unwrap();
    assert_eq!(show.artist, BmanArtist::JerryGarciaBand);
    assert_eq!(show.date, "1973-06-10");
}

// --- 1f: AUD filtered from dedup ---

#[test]
fn test_aud_filtered_from_dedup() {
    let shows = vec![
        gd_show("1977-05-08", "Cornell", SourceType::Aud, false),
        gd_show("1977-05-08", "Cornell", SourceType::Sbd, false),
    ];
    let result = dedup_shows(shows);
    assert_eq!(result.len(), 1);
    assert_eq!(result[0].source_type, SourceType::Sbd);
}

#[test]
fn test_aud_only_shows_removed() {
    let shows = vec![
        gd_show("1977-05-08", "Cornell", SourceType::Aud, false),
        gd_show("1973-07-18", "Keystone", SourceType::Aud, false),
    ];
    let result = dedup_shows(shows);
    assert!(result.is_empty());
}

// --- 1g: Venue cleanup ---

#[test]
fn test_venue_cleanup_strip_source_indicators() {
    let show = parse_show_folder(
        "1983-06-03 Capitol Theater Passaic NJ - AUD FLAC",
        "fid",
        BmanArtist::GratefulDead,
        false,
    )
    .unwrap();
    assert!(!show.venue.contains("AUD"));
    assert!(!show.venue.contains("FLAC"));
    assert_eq!(show.source_type, SourceType::Aud);
}

// --- 2a: Dot date ---

#[test]
fn test_dot_date_format() {
    let show = parse_show_folder(
        "1977.05.08 Cornell University, Ithaca, NY",
        "fid",
        BmanArtist::GratefulDead,
        false,
    )
    .unwrap();
    assert_eq!(show.date, "1977-05-08");
    assert_eq!(show.venue, "Cornell University");
    assert_eq!(show.city, "Ithaca");
    assert_eq!(show.state, "NY");
}

// --- 2b: Short year US date ---

#[test]
fn test_short_year_us_date() {
    let show = parse_show_folder(
        "2-26-73 Pershing Municipal Auditorium",
        "fid",
        BmanArtist::GratefulDead,
        false,
    )
    .unwrap();
    assert_eq!(show.date, "1973-02-26");
    assert_eq!(show.venue, "Pershing Municipal Auditorium");
}

#[test]
fn test_single_digit_us_date() {
    let show = parse_show_folder(
        "6-10-73 RFK Stadium",
        "fid",
        BmanArtist::GratefulDead,
        false,
    )
    .unwrap();
    assert_eq!(show.date, "1973-06-10");
    assert_eq!(show.venue, "RFK Stadium");
}

// --- 2c: Etree jg prefix ---

#[test]
fn test_etree_jg_prefix() {
    let show = parse_show_folder(
        "jg1975-03-07.sbd.flac",
        "fid",
        BmanArtist::GratefulDead,
        false,
    )
    .unwrap();
    assert_eq!(show.artist, BmanArtist::JerryGarciaBand);
    assert_eq!(show.date, "1975-03-07");
}

#[test]
fn test_etree_uppercase_gd() {
    let show = parse_show_folder(
        "GD70-01-02.sbd.flac",
        "fid",
        BmanArtist::GratefulDead,
        false,
    )
    .unwrap();
    assert_eq!(show.artist, BmanArtist::GratefulDead);
    assert_eq!(show.date, "1970-01-02");
}

// --- 2d: Nice with dash separator ---

#[test]
fn test_nice_with_dash_separator() {
    let show = parse_show_folder(
        "1971-02-18 - Capitol Theater, Port Chester, NY",
        "fid",
        BmanArtist::GratefulDead,
        false,
    )
    .unwrap();
    assert_eq!(show.date, "1971-02-18");
    assert_eq!(show.venue, "Capitol Theater");
    assert_eq!(show.city, "Port Chester");
    assert_eq!(show.state, "NY");
}

// --- 2e: Bare dot date ---

#[test]
fn test_bare_dot_date() {
    let show = parse_show_folder(
        "1967.01.14",
        "fid",
        BmanArtist::GratefulDead,
        false,
    )
    .unwrap();
    assert_eq!(show.date, "1967-01-14");
    assert!(show.venue.is_empty());
}

// --- 2f: Artist-prefixed folders ---

#[test]
fn test_artist_prefixed_gd() {
    let show = parse_show_folder(
        "Grateful Dead 1977-05-08 Cornell University, Ithaca, NY",
        "fid",
        BmanArtist::GratefulDead,
        false,
    )
    .unwrap();
    assert_eq!(show.artist, BmanArtist::GratefulDead);
    assert_eq!(show.date, "1977-05-08");
    assert_eq!(show.venue, "Cornell University");
}

#[test]
fn test_artist_prefixed_jgb() {
    let show = parse_show_folder(
        "Jerry Garcia Band 1975-03-07 Great American Music Hall",
        "fid",
        BmanArtist::GratefulDead,
        false,
    )
    .unwrap();
    assert_eq!(show.artist, BmanArtist::JerryGarciaBand);
    assert_eq!(show.date, "1975-03-07");
    assert_eq!(show.venue, "Great American Music Hall");
}

// --- 2g: Skip folders ---

#[test]
fn test_should_skip_folder() {
    assert!(should_skip_folder("VIDEO_TS"));
    assert!(should_skip_folder("Artwork"));
    assert!(should_skip_folder("extras"));
    assert!(should_skip_folder("bonus"));
    assert!(should_skip_folder("info"));
    assert!(should_skip_folder("text"));
    assert!(should_skip_folder("liner notes"));
    assert!(should_skip_folder("covers"));
    assert!(should_skip_folder("cover"));
    assert!(should_skip_folder("Set1"));
    assert!(should_skip_folder("Set 2"));
    assert!(should_skip_folder("disc1"));
    assert!(should_skip_folder("Disc 2"));
    assert!(should_skip_folder("CD1"));
    assert!(should_skip_folder("d1"));
    assert!(!should_skip_folder("1977-05-08"));
    assert!(!should_skip_folder("gd77-05-08.sbd.flac16"));
    assert!(!should_skip_folder("Some Random Folder"));
    // Bman's Picks parent folders
    assert!(should_skip_folder("Bman's Picks Vol 36a: 9/28/75 Lindley Meadows"));
    assert!(should_skip_folder("Bmans Picks Vol 12"));
}

// --- clean_location ---

#[test]
fn test_clean_location_strips_source_words() {
    assert_eq!(clean_location("Fillmore West SBD FLAC"), "Fillmore West");
}

#[test]
fn test_clean_location_strips_etree_paren() {
    assert_eq!(
        clean_location("(sbd.droncit.127478) San Antonio Civic Auditorium"),
        "San Antonio Civic Auditorium"
    );
}

#[test]
fn test_clean_location_strips_incredible() {
    assert_eq!(clean_location("Yale Bowl INCREDIBLE SBD"), "Yale Bowl");
}

#[test]
fn test_clean_location_strips_c_miller() {
    assert_eq!(
        clean_location("Capitol Theater, Passaic, NJ - C. Miller SBD"),
        "Capitol Theater, Passaic, NJ"
    );
}

#[test]
fn test_clean_location_passthrough_clean_venue() {
    assert_eq!(
        clean_location("Cornell University, Ithaca, NY"),
        "Cornell University, Ithaca, NY"
    );
}

#[test]
fn test_clean_location_dusborn_matrix_stripped() {
    assert_eq!(
        clean_location("Moody Coliseum, Dusborn Matrix, Dan Wainwright Remaster Set 1"),
        "Moody Coliseum"
    );
}

#[test]
fn test_clean_location_the_matrix_venue_preserved() {
    // "The Matrix" is a real venue — bare "Matrix" should NOT be stripped
    assert_eq!(
        clean_location("The Matrix, San Francisco, CA"),
        "The Matrix, San Francisco, CA"
    );
}

#[test]
fn test_clean_location_remaster_stripped() {
    assert_eq!(
        clean_location("Winterland Remastered SBD"),
        "Winterland"
    );
}

#[test]
fn test_clean_location_all_junk_returns_empty() {
    assert_eq!(clean_location("SBD FLAC"), "");
}

// --- Square bracket source tags ---

#[test]
fn test_bracket_source_tag() {
    let show = parse_show_folder(
        "1989-07-17 Alpine Valley, East Troy, WI [SBD FLAC]",
        "fid",
        BmanArtist::GratefulDead,
        false,
    )
    .unwrap();
    assert_eq!(show.date, "1989-07-17");
    assert_eq!(show.source_tag, "SBD FLAC");
    assert_eq!(show.state, "WI");
}

// --- Drive zip suffix stripping ---

#[test]
fn test_drive_zip_suffix_nice_folder() {
    let show = parse_show_folder(
        "1977-06-09 Winterland SBD-20250509T025938Z-001",
        "fid",
        BmanArtist::GratefulDead,
        false,
    )
    .unwrap();
    assert_eq!(show.date, "1977-06-09");
    assert!(show.venue.contains("Winterland"));
}

#[test]
fn test_drive_zip_suffix_etree_folder() {
    let show = parse_show_folder(
        "gd77-05-21.00271.sbd.boyles.sbeok.flac16-20250509T025957Z-001",
        "fid",
        BmanArtist::GratefulDead,
        false,
    )
    .unwrap();
    assert_eq!(show.date, "1977-05-21");
}

#[test]
fn test_drive_zip_suffix_no_suffix_unchanged() {
    // Folders without the suffix should parse normally
    let show = parse_show_folder(
        "1977-05-08 Barton Hall, Ithaca, NY (SBD)",
        "fid",
        BmanArtist::GratefulDead,
        false,
    )
    .unwrap();
    assert_eq!(show.date, "1977-05-08");
    assert_eq!(show.state, "NY");
}

// --- nice-etree hybrid parser ---

#[test]
fn test_parse_nice_etree_hybrid() {
    let show = parse_show_folder(
        "1972-10-18.miller",
        "fid",
        BmanArtist::GratefulDead,
        false,
    ).unwrap();
    assert_eq!(show.date, "1972-10-18");
    assert_eq!(show.venue, "");
}

#[test]
fn test_parse_nice_etree_hybrid_long() {
    let show = parse_show_folder(
        "1977-05-08.sbd.hicks.jeffm.flac16",
        "fid",
        BmanArtist::GratefulDead,
        false,
    ).unwrap();
    assert_eq!(show.date, "1977-05-08");
    assert_eq!(show.venue, "");
}

// --- bare US date parser ---

#[test]
fn test_parse_bare_us_date() {
    let show = parse_show_folder(
        "2-26-73",
        "fid",
        BmanArtist::GratefulDead,
        false,
    ).unwrap();
    assert_eq!(show.date, "1973-02-26");
    assert_eq!(show.venue, "");
}

#[test]
fn test_parse_bare_us_date_four_digit_year() {
    let show = parse_show_folder(
        "6-10-1973",
        "fid",
        BmanArtist::GratefulDead,
        false,
    ).unwrap();
    assert_eq!(show.date, "1973-06-10");
}

// --- artist-dash-prefixed parser ---

#[test]
fn test_parse_artist_dash_prefix() {
    let show = parse_show_folder(
        "Grateful Dead - 1978-07-05 Red Rocks Amphitheatre",
        "fid",
        BmanArtist::GratefulDead,
        false,
    ).unwrap();
    assert_eq!(show.date, "1978-07-05");
    assert_eq!(show.venue, "Red Rocks Amphitheatre");
}

// --- volume-prefixed parser ---

#[test]
fn test_parse_volume_prefix() {
    let show = parse_show_folder(
        "Vol. 03 - 1977-05-08 Cornell University",
        "fid",
        BmanArtist::GratefulDead,
        false,
    ).unwrap();
    assert_eq!(show.date, "1977-05-08");
    assert_eq!(show.venue, "Cornell University");
}

// --- dedup: venue merging ---

#[test]
fn test_dedup_merges_venue_from_non_empty() {
    // Etree folder (no venue) + nice folder (with venue) → winner has venue
    let shows = vec![
        gd_show("1977-05-08", "", SourceType::Sbd, false),
        gd_show("1977-05-08", "Cornell University", SourceType::Aud, false),
    ];
    let result = dedup_shows(shows);
    assert_eq!(result.len(), 1);
    // SBD wins priority but gets venue from the AUD entry
    assert_eq!(result[0].source_type, SourceType::Sbd);
    assert_eq!(result[0].venue, "Cornell University");
}

// --- real-world folder names from log ---

#[test]
fn test_real_folder_dot_date_with_venue() {
    let show = parse_show_folder(
        "1977.05.08 Cornell University, Ithaca, NY",
        "fid",
        BmanArtist::GratefulDead,
        false,
    ).unwrap();
    assert_eq!(show.date, "1977-05-08");
    assert!(show.venue.contains("Cornell University"));
}

#[test]
fn test_real_folder_nice_with_dash_separator() {
    let show = parse_show_folder(
        "1971-02-18 - Capitol Theater, Port Chester, NY",
        "fid",
        BmanArtist::GratefulDead,
        false,
    ).unwrap();
    assert_eq!(show.date, "1971-02-18");
    assert!(show.venue.contains("Capitol Theater"));
}

#[test]
fn test_real_folder_us_date_with_venue() {
    let show = parse_show_folder(
        "6-10-73 RFK Stadium, Washington D.C.",
        "fid",
        BmanArtist::GratefulDead,
        false,
    ).unwrap();
    assert_eq!(show.date, "1973-06-10");
    assert!(show.venue.contains("RFK Stadium"));
}

// --- NLL priority with real folder names ---

#[test]
fn test_nll_folder_with_gdrive_timestamp_suffix_parses() {
    // Real NLL folder name from Google Drive (has download timestamp appended)
    let show = parse_show_folder(
        "1977-05-08 Cornell University Ithica NY - FLAC Dusborne Matrix-20250509T025840Z-001",
        "fid",
        BmanArtist::GratefulDead,
        true, // is_nll
    ).unwrap();
    assert_eq!(show.date, "1977-05-08");
    assert!(show.is_nll);
}

#[test]
fn test_nll_etree_with_gdrive_timestamp_suffix_parses() {
    let show = parse_show_folder(
        "gd77-05-21.00271.sbd.boyles.sbeok.flac16-20250509T025957Z-001",
        "fid",
        BmanArtist::GratefulDead,
        true,
    ).unwrap();
    assert_eq!(show.date, "1977-05-21");
    assert!(show.is_nll);
    assert_eq!(show.source_type, SourceType::Sbd);
}

#[test]
fn test_nll_beats_non_nll_sbd_real_folders() {
    // Real scenario: NLL folder + non-NLL SBD for same date
    // NLL must win
    let nll = parse_show_folder(
        "1977-05-08 Cornell University Ithica NY - FLAC Dusborne Matrix-20250509T025840Z-001",
        "nll_fid",
        BmanArtist::GratefulDead,
        true,
    ).unwrap();
    let non_nll_etree = parse_show_folder(
        "gd77-05-08.137570.mtx.dusborne.flac16",
        "etree_fid",
        BmanArtist::GratefulDead,
        false,
    ).unwrap();
    let non_nll_nice = parse_show_folder(
        "1977-05-08 Cornell University Ithica NY - FLAC Dusborne Matrix",
        "nice_fid",
        BmanArtist::GratefulDead,
        false,
    ).unwrap();

    let result = dedup_shows(vec![nll, non_nll_etree, non_nll_nice]);
    assert_eq!(result.len(), 1, "Should dedup to single show");
    assert!(result[0].is_nll, "NLL version must win");
}

#[test]
fn test_nll_aud_still_filtered_out() {
    // NLL AUD should still be dropped by the final AUD filter
    let nll_aud = parse_show_folder(
        "gd1977-10-09.170283.Denver, CO.set2.aud.tiffany.andrewF.flac1648",
        "nll_aud_fid",
        BmanArtist::GratefulDead,
        true,
    ).unwrap();
    assert!(nll_aud.is_nll);
    assert_eq!(nll_aud.source_type, SourceType::Aud);

    // If only NLL AUD exists → dropped entirely
    let result = dedup_shows(vec![nll_aud]);
    assert!(result.is_empty(), "NLL AUD should still be filtered out");
}

#[test]
fn test_nll_aud_does_not_shadow_non_nll_sbd() {
    // NLL AUD + non-NLL SBD: AUD is dropped first, non-NLL SBD survives
    let nll_aud = parse_show_folder(
        "gd77-05-08.aud.berger.flac",
        "nll_aud_fid",
        BmanArtist::GratefulDead,
        true,
    ).unwrap();
    let non_nll_sbd = parse_show_folder(
        "gd77-05-08.sbd.miller.flac16",
        "sbd_fid",
        BmanArtist::GratefulDead,
        false,
    ).unwrap();

    let result = dedup_shows(vec![nll_aud, non_nll_sbd]);
    assert_eq!(result.len(), 1, "Non-NLL SBD should survive when NLL is AUD");
    assert_eq!(result[0].source_type, SourceType::Sbd);
    assert!(!result[0].is_nll);
}

#[test]
fn test_nll_fob_loses_to_aaa_sbd() {
    // Real scenario: NLL has FOB recording, AAA year folder has SBD
    // FOB is classified as AUD → dropped first → SBD survives
    let nll_fob = parse_show_folder(
        "gd1983-05-13.fob.akg.d330bt.senn421.hecht.miller.clugston.147896.flac1648",
        "nll_fid",
        BmanArtist::GratefulDead,
        true, // NLL
    ).unwrap();
    assert_eq!(nll_fob.source_type, SourceType::Aud, "FOB should be classified as AUD");
    assert!(nll_fob.is_nll);

    let aaa_sbd = parse_show_folder(
        "gd83-05-13.sbd.miller.sbeok.flac16",
        "aaa_fid",
        BmanArtist::GratefulDead,
        false, // regular AAA folder
    ).unwrap();
    assert_eq!(aaa_sbd.source_type, SourceType::Sbd);

    let result = dedup_shows(vec![nll_fob, aaa_sbd]);
    assert_eq!(result.len(), 1);
    assert_eq!(result[0].source_type, SourceType::Sbd, "AAA SBD must beat NLL FOB");
    assert!(!result[0].is_nll);
}

// --- AUD filtering edge cases ---

#[test]
fn test_dedup_aud_only_date_is_dropped() {
    // Only AUD entries exist for this date → entire date removed
    let shows = vec![
        gd_show("1977-05-08", "Cornell", SourceType::Aud, false),
        gd_show("1977-05-08", "Cornell", SourceType::Aud, false),
    ];
    let result = dedup_shows(shows);
    assert!(result.is_empty(), "AUD-only dates must be filtered out");
}

#[test]
fn test_dedup_single_aud_show_is_dropped() {
    // Single AUD show (group.len() == 1 fast path) → still filtered
    let shows = vec![
        gd_show("1977-05-08", "Cornell", SourceType::Aud, false),
    ];
    let result = dedup_shows(shows);
    assert!(result.is_empty(), "Single AUD show must be filtered out");
}

#[test]
fn test_dedup_unknown_source_kept() {
    // Unknown source type is NOT dropped (only AUD is)
    let shows = vec![
        gd_show("1977-05-08", "Cornell", SourceType::Unknown, false),
    ];
    let result = dedup_shows(shows);
    assert_eq!(result.len(), 1, "Unknown source should be kept");
}

#[test]
fn test_dedup_sbd_plus_aud_keeps_sbd_only() {
    // SBD + AUD for same date → only SBD survives
    let shows = vec![
        gd_show("1977-05-08", "Cornell", SourceType::Sbd, false),
        gd_show("1977-05-08", "Cornell", SourceType::Aud, false),
    ];
    let result = dedup_shows(shows);
    assert_eq!(result.len(), 1);
    assert_eq!(result[0].source_type, SourceType::Sbd);
}

#[test]
fn test_dedup_mtx_plus_aud_keeps_mtx() {
    // Matrix + AUD → Matrix wins (higher source type), AUD dropped
    let shows = vec![
        gd_show("1977-05-08", "Cornell", SourceType::Mtx, false),
        gd_show("1977-05-08", "Cornell", SourceType::Aud, false),
    ];
    let result = dedup_shows(shows);
    assert_eq!(result.len(), 1);
    assert_eq!(result[0].source_type, SourceType::Mtx);
}

#[test]
fn test_dedup_aud_with_different_dates_all_dropped() {
    // Multiple dates, all AUD → all dropped
    let shows = vec![
        gd_show("1977-05-08", "Cornell", SourceType::Aud, false),
        gd_show("1977-09-03", "Englishtown", SourceType::Aud, false),
    ];
    let result = dedup_shows(shows);
    assert!(result.is_empty());
}

#[test]
fn test_dedup_mixed_some_aud_only_dates_dropped() {
    // Date A: SBD + AUD → keeps SBD
    // Date B: AUD only → dropped entirely
    let shows = vec![
        gd_show("1977-05-08", "Cornell", SourceType::Sbd, false),
        gd_show("1977-05-08", "Cornell", SourceType::Aud, false),
        gd_show("1977-09-03", "Englishtown", SourceType::Aud, false),
    ];
    let result = dedup_shows(shows);
    assert_eq!(result.len(), 1);
    assert_eq!(result[0].date, "1977-05-08");
    assert_eq!(result[0].source_type, SourceType::Sbd);
}

