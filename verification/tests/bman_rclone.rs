use nugs::bman::rclone::parse_rclone_config;

#[test]
fn test_parse_rclone_config_gdrive() {
    let config = r#"
[gdrive]
type = drive
client_id = 123456.apps.googleusercontent.com
client_secret = GOCSPX-secret123
scope = drive
token = {"access_token":"ya29.old","token_type":"Bearer","refresh_token":"1//0fresh","expiry":"2025-01-01T00:00:00Z"}
team_drive =
"#;
    let creds = parse_rclone_config(config).unwrap();
    assert_eq!(creds.client_id, "123456.apps.googleusercontent.com");
    assert_eq!(creds.client_secret, "GOCSPX-secret123");
    assert_eq!(creds.refresh_token, "1//0fresh");
}

#[test]
fn test_parse_rclone_config_no_drive_section() {
    let config = r#"
[s3]
type = s3
provider = AWS
"#;
    assert!(parse_rclone_config(config).is_none());
}

#[test]
fn test_parse_rclone_config_missing_token() {
    let config = r#"
[gdrive]
type = drive
client_id = cid
client_secret = csec
"#;
    assert!(parse_rclone_config(config).is_none());
}

#[test]
fn test_parse_rclone_config_empty_refresh_token() {
    let config = r#"
[gdrive]
type = drive
client_id = cid
client_secret = csec
token = {"access_token":"ya29","refresh_token":"","expiry":"2025-01-01T00:00:00Z"}
"#;
    assert!(parse_rclone_config(config).is_none());
}

#[test]
fn test_parse_rclone_config_multiple_remotes() {
    let config = r#"
[s3]
type = s3
provider = AWS

[mygdrive]
type = drive
client_id = my_id
client_secret = my_secret
token = {"access_token":"ya29","refresh_token":"1//refresh","expiry":"2025-01-01T00:00:00Z"}
"#;
    let creds = parse_rclone_config(config).unwrap();
    assert_eq!(creds.client_id, "my_id");
    assert_eq!(creds.refresh_token, "1//refresh");
}

#[test]
fn test_parse_rclone_config_crlf_and_later_keys_win() {
    let config = "[gdrive]\r\ntype = drive\r\nclient_id = old\r\nclient_id = new\r\nclient_secret=s\r\ntoken = {\"refresh_token\":\"r\"}\r\n";
    let creds = parse_rclone_config(config).unwrap();
    assert_eq!(creds.client_id, "new");
    assert_eq!(creds.client_secret, "s");
    assert_eq!(creds.refresh_token, "r");
}

#[test]
fn test_parse_rclone_config_entries_before_any_section_ignored() {
    let config = "type = drive\nclient_id = a\nclient_secret = b\ntoken = {\"refresh_token\":\"r\"}\n";
    assert!(parse_rclone_config(config).is_none());
}

#[test]
fn test_parse_rclone_config_token_not_json() {
    let config = "[g]\ntype = drive\nclient_id = a\nclient_secret = b\ntoken = not json\n";
    assert!(parse_rclone_config(config).is_none());
}
