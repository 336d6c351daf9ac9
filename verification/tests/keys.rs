use rmw_zenoh_mcap_writer::keyexprs::{format_graphcache, format_topic_data, parse_command_keyexpr, parse_graphcache, KeyFormatError};
use rmw_zenoh_mcap_writer::task::publishers_keyexpr;

const TOKEN: &str = "@ros2_lv/0/aabbccdd/0/10/MP/%/%/talker/%chatter/std_msgs::msg::dds_::String_/RIHS01_df66/::,7:,:,:,,";

fn fields_of(token: &str) -> Vec<String> {
    parse_graphcache(token).unwrap().into_iter().map(|f| f.into_iter().collect()).collect()
}

#[test]
fn graphcache_token_fields() {
    let f = fields_of(TOKEN);
    assert_eq!(f.len(), 12);
    assert_eq!(f[0], "0");
    assert_eq!(f[4], "MP");
    assert_eq!(f[8], "%chatter");
    assert_eq!(f[9], "std_msgs::msg::dds_::String_");
    assert_eq!(f[11], "::,7:,:,:,,");
}

#[test]
fn graphcache_token_rejections() {
    assert!(parse_graphcache("@ros2_lv/0/a/b").is_none());
    assert!(parse_graphcache(&TOKEN.replace("@ros2_lv", "@ros2_lx")).is_none());
    assert!(parse_graphcache(&TOKEN.replace("/MP/", "//")).is_none());
    assert!(parse_graphcache(&format!("{TOKEN}/extra")).is_none());
    // A verbatim chunk (`@...`) does not fill a `*` field.
    assert!(parse_graphcache(&TOKEN.replace("/MP/", "/@MP/")).is_none());
}

#[test]
fn graphcache_format_round_trip() {
    let f = fields_of(TOKEN);
    assert_eq!(format_graphcache(&f).unwrap(), TOKEN);
}

#[test]
fn graphcache_format_rejects_multi_chunk_fields() {
    let mut f = fields_of(TOKEN);
    f[8] = "camera/image".to_string();
    assert_eq!(format_graphcache(&f), Err(KeyFormatError::PatternNotMatched));
    let mut f = fields_of(TOKEN);
    f[3] = "**".to_string();
    assert_eq!(format_graphcache(&f), Err(KeyFormatError::PatternNotMatched));
    let mut f = fields_of(TOKEN);
    f[3] = "".to_string();
    assert_eq!(format_graphcache(&f), Err(KeyFormatError::PatternNotMatched));
}

#[test]
fn publishers_pattern() {
    assert_eq!(publishers_keyexpr().unwrap(), "@ros2_lv/*/*/*/*/MP/*/*/*/*/*/*/*");
}

#[test]
fn topic_data_keyexprs() {
    assert_eq!(format_topic_data(0, "camera/image_raw").unwrap(), "0/camera/image_raw/*/*");
    assert_eq!(format_topic_data(12, "chatter").unwrap(), "12/chatter/*/*");
    assert_eq!(format_topic_data(3, "").unwrap(), "3/*/*");
    assert_eq!(format_topic_data(0, "a//b"), Err(KeyFormatError::PatternNotMatched));
}

#[test]
fn topic_data_keyexpr_is_canonized() {
    // zenoh writes `**/*` as `*/**`.
    assert_eq!(format_topic_data(0, "a/**").unwrap(), "0/a/*/*/**");
}

#[test]
fn command_keyexprs() {
    assert_eq!(parse_command_keyexpr("@mcap/writer/start"), Some("start".to_string()));
    assert_eq!(parse_command_keyexpr("@mcap/writer/status"), Some("status".to_string()));
    assert_eq!(parse_command_keyexpr("@mcap/writer"), None);
    assert_eq!(parse_command_keyexpr("@mcap/reader/start"), None);
    assert_eq!(parse_command_keyexpr("@mcap/writer/start/now"), None);
}
