use gpuicn::adoption::{
    accepts_record_name, blank, parse_count, record_matches, region_label, save_settings,
    saved_settings,
    settings_errors, SettingsErrors,
};

#[test]
fn blank_text_is_only_white_space() {
    assert!(blank(""));
    assert!(blank(" \t\n\u{a0}\u{3000}"));
    assert!(!blank("  a "));
}

#[test]
fn counts_parse_like_unsigned_integers() {
    assert_eq!(parse_count("12"), Some(12));
    assert_eq!(parse_count("+7"), Some(7));
    assert_eq!(parse_count("007"), Some(7));
    assert_eq!(parse_count("4294967295"), Some(4294967295));
    assert_eq!(parse_count("4294967296"), None);
    assert_eq!(parse_count(""), None);
    assert_eq!(parse_count("+"), None);
    assert_eq!(parse_count("-1"), None);
    assert_eq!(parse_count(" 12"), None);
    assert_eq!(parse_count("1x"), None);
}

#[test]
fn settings_need_name_region_and_seat_count_in_range() {
    assert_eq!(
        settings_errors("Northwind workspace", Some("eu"), "12"),
        SettingsErrors { name: false, region: false, seats: false }
    );
    let errors = settings_errors("   ", None, "0");
    assert_eq!(errors, SettingsErrors { name: true, region: true, seats: true });
    assert!(errors.any());
    assert!(!settings_errors("a", Some("us"), "200").any());
    assert!(settings_errors("a", Some("us"), "201").seats);
    assert!(settings_errors("a", Some("us"), "twelve").seats);
}

#[test]
fn region_values_have_display_names() {
    assert_eq!(region_label(Some("us")), "United States");
    assert_eq!(region_label(Some("apac")), "Asia Pacific");
    assert_eq!(region_label(Some("eu")), "Europe");
    assert_eq!(region_label(Some("anything")), "Europe");
    assert_eq!(region_label(None), "No region");
}

#[test]
fn saved_settings_summarize_the_form() {
    assert_eq!(
        saved_settings("Northwind workspace", "Europe", "12"),
        "Saved: Northwind workspace · Europe · 12 seats"
    );
}

#[test]
fn blank_record_names_are_refused() {
    assert!(accepts_record_name("Quarterly plan"));
    assert!(!accepts_record_name("  "));
}

#[test]
fn records_match_name_or_owner_ignoring_case() {
    assert!(record_matches("Quarterly Plan", "Ada", "plan"));
    assert!(record_matches("Quarterly Plan", "Ada Lovelace", "LOVE"));
    assert!(record_matches("Quarterly Plan", "Ada", ""));
    assert!(!record_matches("Quarterly Plan", "Ada", "budget"));
}

#[test]
fn saving_confirms_only_valid_settings() {
    let (errors, saved) = save_settings("Northwind workspace", Some("eu"), "12");
    assert!(!errors.any());
    assert_eq!(saved.as_deref(), Some("Saved: Northwind workspace · Europe · 12 seats"));
    let (errors, saved) = save_settings("Northwind", None, "12");
    assert!(errors.region);
    assert!(saved.is_none());
    let (_, saved) = save_settings("Northwind", Some("apac"), "+3");
    assert_eq!(saved.as_deref(), Some("Saved: Northwind · Asia Pacific · +3 seats"));
}
