use tv_resolver::episode::{extract_episode_info, scan_generic, RuleGroup, RuleSet};

#[test]
fn test_extract_episode_info_with_season_and_episode() {
    // Test S01E02 format
    assert_eq!(
        extract_episode_info("show_S01E02.mp4"),
        Some(("01".to_string(), "02".to_string()))
    );

    // Test s3e12 format
    assert_eq!(
        extract_episode_info("show_s3e12.avi"),
        Some(("03".to_string(), "12".to_string()))
    );

    // Test with extra text
    assert_eq!(
        extract_episode_info("[MyGroup] Awesome Show S02E05 [1080p].mkv"),
        Some(("02".to_string(), "05".to_string()))
    );
}

#[test]
fn test_extract_episode_info_with_only_episode() {
    // Test with just episode number
    assert_eq!(
        extract_episode_info("show_05.mp4"),
        Some(("01".to_string(), "05".to_string()))
    );

    // Test with multiple numbers - should match the first one as episode
    assert_eq!(
        extract_episode_info("show_12_extra.mp4"),
        Some(("01".to_string(), "12".to_string()))
    );
}

#[test]
fn test_extract_episode_info_no_digits() {
    assert_eq!(extract_episode_info("random.mkv"), None);
}

#[test]
fn test_extract_episode_info_group_label_case() {
    assert_eq!(
        extract_episode_info("[Group] Show S02E05 [1080p].mkv"),
        Some(("02".to_string(), "05".to_string()))
    );
}

#[test]
fn test_group_rule_overrides_generic_scan() {
    // The generic scan alone would take the leading "12" as the episode;
    // the built-in group rule must win because the label occurs in the name.
    assert_eq!(
        extract_episode_info("12 [LoliSub] - S03E07.mkv"),
        Some(("03".to_string(), "07".to_string()))
    );
}

#[test]
fn test_group_rule_single_capture_defaults_season() {
    assert_eq!(
        extract_episode_info("99 [LoliSub] - 07.mkv"),
        Some(("01".to_string(), "07".to_string()))
    );
}

#[test]
fn test_rule_group_refuses_invalid_pattern() {
    assert!(RuleGroup::new("X".to_string(), vec!["(".to_string()]).is_none());
    assert!(RuleGroup::new("X".to_string(), vec!["a(b)".to_string()]).is_some());
}

#[test]
fn test_custom_rule_set() {
    let group = RuleGroup::new(
        "MyFans".to_string(),
        vec!["MyFans.*?E(\\d+)x(\\d+)".to_string()],
    )
    .unwrap();
    let mut rules = RuleSet::new();
    rules.push_group(group);
    assert_eq!(
        rules.parse("MyFans show E3x9.mkv"),
        Some(("03".to_string(), "09".to_string()))
    );
    // The label is absent, so the generic scan decides.
    assert_eq!(
        rules.parse("other show 07.mkv"),
        Some(("01".to_string(), "07".to_string()))
    );
}

#[test]
fn test_scan_generic_backtracks_season_length() {
    // "s12e3": two season digits then the episode marker.
    assert_eq!(
        scan_generic("s12e3"),
        Some(("12".to_string(), "03".to_string()))
    );
    // "s1e2": one season digit.
    assert_eq!(
        scan_generic("s1e2"),
        Some(("01".to_string(), "02".to_string()))
    );
    // "s123e4": neither season length is followed by the marker, so the
    // first bare number wins as the episode.
    assert_eq!(
        scan_generic("s123e4"),
        Some(("01".to_string(), "12".to_string()))
    );
}

#[test]
fn test_scan_generic_empty_name() {
    assert_eq!(scan_generic(""), None);
}

#[test]
fn test_rule_capture_must_be_one_or_two_digits() {
    // The rule matches, but its capture has three digits, so the rule is
    // passed over and the generic scan decides.
    let group = RuleGroup::new("CapX".to_string(), vec!["CapX-(\\d{3})".to_string()]).unwrap();
    let mut rules = RuleSet::new();
    rules.push_group(group);
    assert_eq!(
        rules.parse("CapX-123.mkv"),
        Some(("01".to_string(), "12".to_string()))
    );
}
