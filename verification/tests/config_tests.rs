use pi_dashboard::config::{
    hostname, percent_literal, temp_band_color, temp_literal, usage_text_color, ALARM, CAUTION,
    COOL, OK, ORANGE,
};

/// Reading of a percentage as the dashboard does it: the number literal
/// before the last `%`, read as `f32` and truncated.
fn parse_percent(text: &str) -> Option<i32> {
    percent_literal(text).and_then(|s| s.parse::<f32>().ok()).map(|v| v as i32)
}

/// Reading of a temperature: the leading number literal, read as `f32` and
/// truncated.
fn parse_temp(text: &str) -> Option<i32> {
    temp_literal(text).and_then(|s| s.parse::<f32>().ok()).map(|v| v as i32)
}

#[test]
fn parse_percent_last() {
    assert_eq!(parse_percent("45%"), Some(45));
    assert_eq!(parse_percent("1234/4096MB (50%)"), Some(50));
}

#[test]
fn parse_temp_int() {
    assert_eq!(parse_temp("42C"), Some(42));
    assert_eq!(parse_temp("42.5C"), Some(42));
}

#[test]
fn temp_band_color_boundaries() {
    assert_eq!(temp_band_color(49), COOL);
    assert_eq!(temp_band_color(50), OK);
    assert_eq!(temp_band_color(64), OK);
    assert_eq!(temp_band_color(65), CAUTION);
    assert_eq!(temp_band_color(74), CAUTION);
    assert_eq!(temp_band_color(75), ORANGE);
    assert_eq!(temp_band_color(79), ORANGE);
    assert_eq!(temp_band_color(80), ALARM);
    assert_eq!(temp_band_color(85), ALARM);
}

#[test]
fn usage_text_color_boundaries() {
    assert_eq!(usage_text_color(0), OK);
    assert_eq!(usage_text_color(79), OK);
    assert_eq!(usage_text_color(80), CAUTION);
    assert_eq!(usage_text_color(89), CAUTION);
    assert_eq!(usage_text_color(90), ALARM);
    assert_eq!(usage_text_color(100), ALARM);
}

#[test]
fn hostname_fallback_chain() {
    assert_eq!(hostname(Some("  kiosk \n"), Some("pi4\n")), "kiosk");
    assert_eq!(hostname(Some(""), Some("raspberrypi\n")), "raspberrypi");
    assert_eq!(hostname(None, Some("raspberrypi\n")), "raspberrypi");
    assert_eq!(hostname(None, Some("  \n")), "pi");
    assert_eq!(hostname(None, None), "pi");
    assert_eq!(hostname(Some(" \t"), Some("raspberrypi\n")), "raspberrypi");
    assert_eq!(hostname(Some(" "), None), "pi");
    assert!(!hostname(Some(" "), Some(" ")).is_empty());
}

#[test]
fn percent_literal_takes_last_token() {
    assert_eq!(percent_literal("10% of 20%").as_deref(), Some("20"));
    assert_eq!(percent_literal("3.5%").as_deref(), Some("3.5"));
    assert_eq!(percent_literal("no percent"), None);
    assert_eq!(percent_literal("%"), None);
    assert_eq!(parse_percent("41%)"), Some(41));
}

#[test]
fn temp_literal_reads_leading_number() {
    assert_eq!(temp_literal("63C").as_deref(), Some("63"));
    assert_eq!(temp_literal("N/A"), None);
    assert_eq!(parse_temp("N/A"), None);
}
