use nugs::tapetag::parser::{expand_year, parse_folder_name};

#[test]
fn test_nice_date() {
    let info = parse_folder_name("1977-05-08 Barton Hall").unwrap();
    assert_eq!(info.date, "1977-05-08");
    assert_eq!(info.artist, "Grateful Dead");
}

#[test]
fn test_etree() {
    let info = parse_folder_name("gd77-04-23.aud.shnf.flac16").unwrap();
    assert_eq!(info.date, "1977-04-23");
    assert_eq!(info.artist, "Grateful Dead");
}

#[test]
fn test_jgb_etree() {
    let info = parse_folder_name("jgb80-03-01.sbd.flac").unwrap();
    assert_eq!(info.date, "1980-03-01");
    assert_eq!(info.artist, "Jerry Garcia Band");
}

#[test]
fn test_dot_date() {
    let info = parse_folder_name("1973.06.10 RFK Stadium").unwrap();
    assert_eq!(info.date, "1973-06-10");
}

#[test]
fn test_us_date() {
    let info = parse_folder_name("6-10-73 RFK Stadium").unwrap();
    assert_eq!(info.date, "1973-06-10");
}

#[test]
fn parser_test_bare_date() {
    let info = parse_folder_name("1973-06-10").unwrap();
    assert_eq!(info.date, "1973-06-10");
}

#[test]
fn test_bare_us_date() {
    let info = parse_folder_name("2-26-73").unwrap();
    assert_eq!(info.date, "1973-02-26");
}

#[test]
fn test_nice_etree_hybrid() {
    let info = parse_folder_name("1972-10-18.miller.sbd.flac16").unwrap();
    assert_eq!(info.date, "1972-10-18");
}

#[test]
fn test_artist_dash_prefix() {
    let info = parse_folder_name("Grateful Dead - 1978-07-05 Red Rocks").unwrap();
    assert_eq!(info.date, "1978-07-05");
    assert_eq!(info.artist, "Grateful Dead");
}

#[test]
fn test_jgb_artist_prefix() {
    let info = parse_folder_name("Jerry Garcia Band - 1980-03-01 Capitol Theatre").unwrap();
    assert_eq!(info.date, "1980-03-01");
    assert_eq!(info.artist, "Jerry Garcia Band");
}

#[test]
fn test_volume_prefix() {
    let info = parse_folder_name("Vol. 03 - 1977-05-08 Barton Hall").unwrap();
    assert_eq!(info.date, "1977-05-08");
}

#[test]
fn test_drive_zip_suffix_stripped() {
    let info = parse_folder_name("1977-05-08 Barton Hall-20250509T025938Z-001").unwrap();
    assert_eq!(info.date, "1977-05-08");
}

#[test]
fn test_unparseable_returns_none() {
    assert!(parse_folder_name("random-folder").is_none());
    assert!(parse_folder_name("artwork").is_none());
}

#[test]
fn tapetag_expand_year_cutoff() {
    assert_eq!(expand_year("59"), "2059");
    assert_eq!(expand_year("60"), "1960");
    assert_eq!(expand_year("1985"), "1985");
}

#[test]
fn tapetag_us_date_pads_month_and_day() {
    let info = parse_folder_name("1-2-85 Somewhere").unwrap();
    assert_eq!(info.date, "1985-01-02");
}
