use sdkcore::version::fuzzy::{checked_version_distance, match_ready, suggestion_fits};
use sdkcore::version::fuzzy::{
    compare_versions_desc, fuzzy_match_version_core, parse_version_components, strip_v_prefix,
    suggest_similar_version, version_distance,
};

fn vs(items: &[&str]) -> Vec<String> {
    items.iter().map(|s| s.to_string()).collect()
}

#[test]
fn strip_v_prefix_only_strips_when_followed_by_digit() {
    assert_eq!(strip_v_prefix("v14.16.0"), "14.16.0");
    assert_eq!(strip_v_prefix("V14.16.0"), "14.16.0");
    assert_eq!(strip_v_prefix("14.16.0"), "14.16.0");
    assert_eq!(strip_v_prefix("version"), "version");
}

#[test]
fn exact_match_no_fuzzy_flag() {
    let versions = vs(&["3.11.6", "3.12.10", "3.12.0"]);
    let m = fuzzy_match_version_core(&versions, "3.12.10").ok().unwrap();
    assert_eq!(m.full_version, "3.12.10");
    assert!(!m.fuzzy_matched);
}

#[test]
fn v_prefixed_exact_match_normalizes() {
    let versions = vs(&["v14.16.0", "v16.20.0"]);
    let m = fuzzy_match_version_core(&versions, "14.16.0").ok().unwrap();
    assert_eq!(m.full_version, "v14.16.0");
    assert!(!m.fuzzy_matched);
}

#[test]
fn v_prefixed_input_matches_v_prefixed_candidate() {
    let versions = vs(&["v14.16.0"]);
    let m = fuzzy_match_version_core(&versions, "v14.16.0").ok().unwrap();
    assert_eq!(m.full_version, "v14.16.0");
    assert!(!m.fuzzy_matched);
}

#[test]
fn prefix_fuzzy_picks_latest() {
    let versions = vs(&["3.12.0", "3.12.10", "3.11.6"]);
    let m = fuzzy_match_version_core(&versions, "3.12").ok().unwrap();
    assert_eq!(m.full_version, "3.12.10");
    assert!(m.fuzzy_matched);
}

#[test]
fn prefix_fuzzy_major_only() {
    let versions = vs(&["3.11.6", "3.12.10", "4.0.0"]);
    let m = fuzzy_match_version_core(&versions, "3").ok().unwrap();
    assert_eq!(m.full_version, "3.12.10");
    assert!(m.fuzzy_matched);
}

#[test]
fn v_prefixed_prefix_fuzzy_matches() {
    let versions = vs(&["v14.16.0", "v16.20.0", "v18.12.0"]);
    let m = fuzzy_match_version_core(&versions, "14").ok().unwrap();
    assert_eq!(m.full_version, "v14.16.0");
    assert!(m.fuzzy_matched);
}

#[test]
fn prefix_does_not_cross_version_boundary() {
    let versions = vs(&["3.10.0", "3.11.6"]);
    assert!(fuzzy_match_version_core(&versions, "3.1").is_err());
}

#[test]
fn no_match_returns_did_you_mean_error() {
    let versions = vs(&["v14.16.0", "v16.20.0"]);
    let err = fuzzy_match_version_core(&versions, "13")
        .err()
        .expect("expected an error for unmatched version");
    let msg = err.message();
    assert!(msg.contains("not found"));
    assert!(msg.contains("did you mean"));
    assert!(msg.contains("v14.16.0"));
}

#[test]
fn empty_versions_errors_without_suggestion() {
    let versions: Vec<String> = Vec::new();
    let err = fuzzy_match_version_core(&versions, "14")
        .err()
        .expect("expected an error when no versions available");
    let msg = err.message();
    assert!(msg.contains("not found"));
    assert!(!msg.contains("did you mean"));
}

#[test]
fn parse_components_strips_v_prefix() {
    assert_eq!(parse_version_components("v14.16.0"), vec![14, 16, 0]);
    assert_eq!(parse_version_components("14.16.0"), vec![14, 16, 0]);
    assert_eq!(parse_version_components("3.12"), vec![3, 12]);
}

#[test]
fn compare_desc_orders_newest_first_with_v_prefix() {
    let mut items = vec!["v14.16.0".to_string(), "v16.20.0".to_string()];
    items.sort_by(|a, b| compare_versions_desc(a, b));
    assert_eq!(items, vec!["v16.20.0".to_string(), "v14.16.0".to_string()]);
}

#[test]
fn suggest_picks_closest_by_numeric_prefix() {
    let versions = vs(&["v14.16.0", "v16.20.0"]);
    assert_eq!(suggest_similar_version(&versions, "14"), Some("v14.16.0".into()));
}

#[test]
fn no_match_message_exact_text() {
    let versions = vs(&["1.0.0"]);
    let err = fuzzy_match_version_core(&versions, "2").err().unwrap();
    assert_eq!(err.message(), "version '2' not found in available versions, did you mean '1.0.0'?");
    let none: Vec<String> = Vec::new();
    let err = fuzzy_match_version_core(&none, "2").err().unwrap();
    assert_eq!(err.message(), "version '2' not found in available versions");
}

#[test]
fn components_skip_non_numeric_pieces_and_trim() {
    assert_eq!(parse_version_components("  1.x.+3.0-rc "), vec![1, 3]);
    assert_eq!(parse_version_components("version"), Vec::<u32>::new());
    assert_eq!(parse_version_components("4294967296.1"), vec![1]);
}

#[test]
fn ties_pick_earliest_listed() {
    let versions = vs(&["v2.0.0", "2.0.0", "1.9.9"]);
    let m = fuzzy_match_version_core(&versions, "2").ok().unwrap();
    assert_eq!(m.full_version, "v2.0.0");
    let m = fuzzy_match_version_core(&versions, "2.0.0").ok().unwrap();
    assert_eq!(m.full_version, "v2.0.0");
    assert!(!m.fuzzy_matched);
}

#[test]
fn distance_weights_higher_components() {
    assert_eq!(version_distance(&[1, 2, 3], &[1, 2, 4]), 1);
    assert_eq!(version_distance(&[2], &[1, 5]), 100 + 5);
    assert_eq!(version_distance(&[], &[]), 0);
}

#[test]
fn match_readiness_and_checked_distance() {
    let versions = vs(&["3.11.6", "3.12.10"]);
    assert!(match_ready(&versions, "3.12"));
    assert!(suggestion_fits(&versions, "4.0"));
    assert_eq!(checked_version_distance(&[3, 12], &[3, 11, 6]), Some(106));
    let huge = vs(&["1.2.3.4.5.6.7.8.9.10.11"]);
    assert!(!suggestion_fits(&huge, "4000000000"));
    assert!(!match_ready(&huge, "4000000000"));
    assert!(match_ready(&huge, "1"));
}
