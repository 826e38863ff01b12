use nugs::browser::style::{
    dim, dim_label, dot_leader_col_width, format_show_label, dot_leader_line, format_duration, is_queue_action,
    is_section_header, is_sort_toggle, queue_action_label, section_header, sort_toggle_label, DIM,
    DOT_LEADER_MIN_WIDTH, RESET,
};
use nugs::models::CatalogShow;

#[test]
fn test_dim_label_empty_secondary() {
    assert_eq!(dim_label("hello", ""), "hello");
}

#[test]
fn test_dim_label_with_secondary() {
    let label = dim_label("2024-06-15", "Morrison, CO");
    assert!(label.contains("2024-06-15"));
    assert!(label.contains("Morrison, CO"));
    assert!(label.contains(DIM));
}

#[test]
fn test_format_duration_minutes() {
    assert_eq!(format_duration(185), "3:05");
}

#[test]
fn test_format_duration_hours() {
    assert_eq!(format_duration(3661), "1:01:01");
}

#[test]
fn test_format_duration_zero() {
    assert_eq!(format_duration(0), "");
}

#[test]
fn test_dot_leader_col_width_default() {
    assert_eq!(dot_leader_col_width(&[10, 20, 30]), DOT_LEADER_MIN_WIDTH);
}

#[test]
fn test_dot_leader_col_width_long_titles() {
    assert_eq!(dot_leader_col_width(&[50, 60]), 64);
}

#[test]
fn test_section_header_roundtrip() {
    let header = section_header("Browse");
    assert!(is_section_header(&header));
    // Should contain uppercase label
    assert!(header.contains("BROWSE"));
}

#[test]
fn test_not_section_header() {
    assert!(!is_section_header("Recents"));
}

#[test]
fn test_sort_toggle_roundtrip() {
    let toggle = sort_toggle_label("Newest first");
    assert!(is_sort_toggle(&toggle));
    assert!(toggle.contains("Newest first"));
}

#[test]
fn test_not_sort_toggle() {
    assert!(!is_sort_toggle("Some regular choice"));
    assert!(!is_sort_toggle(""));
}

#[test]
fn test_queue_action_roundtrip() {
    let action = queue_action_label("Add all to queue (5)");
    assert!(is_queue_action(&action));
    assert!(action.contains("Add all to queue (5)"));
}

#[test]
fn test_not_queue_action() {
    assert!(!is_queue_action("Some regular choice"));
    assert!(!is_queue_action(""));
}

#[test]
fn dim_wraps_in_escape_codes() {
    assert_eq!(dim("x"), format!("{}x{}", DIM, RESET));
}

#[test]
fn dim_label_exact_layout() {
    assert_eq!(dim_label("a", "b"), format!("a  {}b{}", DIM, RESET));
}

#[test]
fn format_duration_exact_values() {
    assert_eq!(format_duration(59), "0:59");
    assert_eq!(format_duration(3600), "1:00:00");
    assert_eq!(format_duration(-5), "");
}

#[test]
fn dot_leader_col_width_empty_and_edge() {
    assert_eq!(dot_leader_col_width(&[]), DOT_LEADER_MIN_WIDTH);
    assert_eq!(dot_leader_col_width(&[44]), DOT_LEADER_MIN_WIDTH);
    assert_eq!(dot_leader_col_width(&[45]), 49);
}

#[test]
fn section_header_of_long_label_is_not_recognised() {
    let long = "x".repeat(40);
    let header = section_header(&long);
    assert!(!is_section_header(&header));
}

fn label_show(artist: &str, venue: &str) -> CatalogShow {
    CatalogShow {
        container_id: 1,
        artist_id: 1,
        artist_name: artist.to_string(),
        container_info: String::new(),
        venue_name: venue.to_string(),
        venue_city: String::new(),
        venue_state: String::new(),
        performance_date: String::new(),
        performance_date_formatted: String::new(),
        performance_date_year: String::new(),
        song_list: String::new(),
        image_url: String::new(),
        service: Default::default(),
    }
}

#[test]
fn test_format_show_label_parts() {
    let show = label_show("Phish", "MSG");
    assert_eq!(
        format_show_label(&show, "12/31/2024", "New York, NY", "", true),
        "12/31/2024 \u{b7} Phish \u{b7} MSG  \x1b[2m\u{b7} New York, NY\x1b[0m"
    );
    assert_eq!(format_show_label(&show, "12/31/2024", "", "> ", false), "> 12/31/2024 \u{b7} MSG");
    let bare = label_show("", "");
    assert_eq!(format_show_label(&bare, "", "", "", false), "Unknown date \u{b7} Unknown venue");
    assert_eq!(format_show_label(&bare, "", "", "* ", true), "* Unknown date");
}
