use route53_ddns::{
    apply_update, change_request, contains_str, fully_qualified_name, needs_update, nth_segment, plan_update,
    resolve_zone, take_zone_page, ChangeAction, ListingStep, ReconcileError, RecordSet, Zone, RECORD_TTL,
};

fn zone(id: &str, name: &str) -> Zone {
    Zone::new(id.to_string(), name.to_string())
}

fn record(name: &str, values: &[&str]) -> RecordSet {
    RecordSet::new(name.to_string(), values.iter().map(|v| v.to_string()).collect())
}

fn example_zones() -> Vec<Zone> {
    vec![zone("/hostedzone/Z123", "example.com.")]
}

#[test]
fn fully_qualified_name_has_trailing_dot() {
    assert_eq!(fully_qualified_name("example.com", "home"), "home.example.com.");
    assert_eq!(fully_qualified_name("", ""), "..");
}

#[test]
fn contains_str_finds_substrings() {
    assert!(contains_str("example.com.", "example.com"));
    assert!(contains_str("sub.example.com.", "example.com"));
    assert!(contains_str("abc", ""));
    assert!(contains_str("", ""));
    assert!(!contains_str("example.org.", "example.com"));
    assert!(!contains_str("com", "example.com"));
    assert!(contains_str("aab", "ab"));
}

#[test]
fn nth_segment_splits_on_slash() {
    assert_eq!(nth_segment("/hostedzone/Z123", 2), Some("Z123".to_string()));
    assert_eq!(nth_segment("/hostedzone/Z123/extra", 2), Some("Z123".to_string()));
    assert_eq!(nth_segment("/hostedzone/", 2), Some(String::new()));
    assert_eq!(nth_segment("/hostedzone/Z123", 1), Some("hostedzone".to_string()));
    assert_eq!(nth_segment("a/b", 0), Some("a".to_string()));
    assert_eq!(nth_segment("Z123", 2), None);
    assert_eq!(nth_segment("/Z123", 2), None);
}

#[test]
fn resolve_zone_extracts_bare_id() {
    assert_eq!(resolve_zone(&example_zones(), "example.com"), Ok("Z123".to_string()));
}

#[test]
fn resolve_zone_takes_first_match_in_order() {
    let zones = vec![zone("/hostedzone/ZSUB", "sub.example.com."), zone("/hostedzone/ZTOP", "example.com.")];
    assert_eq!(resolve_zone(&zones, "example.com"), Ok("ZSUB".to_string()));
    let reordered = vec![zone("/hostedzone/ZTOP", "example.com."), zone("/hostedzone/ZSUB", "sub.example.com.")];
    assert_eq!(resolve_zone(&reordered, "example.com"), Ok("ZTOP".to_string()));
    let skipped = vec![zone("/hostedzone/ZORG", "example.org."), zone("/hostedzone/ZCOM", "example.com.")];
    assert_eq!(resolve_zone(&skipped, "example.com"), Ok("ZCOM".to_string()));
}

#[test]
fn resolve_zone_not_found() {
    let zones = vec![zone("/hostedzone/ZORG", "example.org.")];
    assert_eq!(resolve_zone(&zones, "example.com"), Err(ReconcileError::ZoneNotFound));
    assert_eq!(resolve_zone(&Vec::new(), "example.com"), Err(ReconcileError::ZoneNotFound));
}

#[test]
fn resolve_zone_malformed_identifier() {
    let zones = vec![zone("Z123", "example.com.")];
    assert_eq!(resolve_zone(&zones, "example.com"), Err(ReconcileError::MalformedIdentifier));
}

#[test]
fn scenario_current_record_is_left_alone() {
    let zone_id = resolve_zone(&example_zones(), "example.com").unwrap();
    let sets = vec![record("home.example.com.", &["1.2.3.4"])];
    assert_eq!(needs_update(&sets, "1.2.3.4", "example.com", "home"), Ok(false));
    assert!(matches!(plan_update(&zone_id, &sets, "1.2.3.4", "example.com", "home"), Ok(None)));
}

#[test]
fn scenario_stale_record_gets_one_upsert() {
    let zone_id = resolve_zone(&example_zones(), "example.com").unwrap();
    let sets = vec![record("home.example.com.", &["1.2.3.4"])];
    assert_eq!(needs_update(&sets, "5.6.7.8", "example.com", "home"), Ok(true));
    let change = plan_update(&zone_id, &sets, "5.6.7.8", "example.com", "home").unwrap().unwrap();
    assert_eq!(change.zone_id, "Z123");
    assert!(matches!(change.action, ChangeAction::Upsert));
    assert_eq!(change.name, "home.example.com.");
    assert_eq!(change.value, "5.6.7.8");
    assert_eq!(change.ttl, 300);
    assert_eq!(RECORD_TTL, 300);
}

#[test]
fn scenario_missing_record_is_not_created() {
    let sets = vec![record("www.example.com.", &["1.2.3.4"]), record("home.example.com", &["1.2.3.4"])];
    assert_eq!(needs_update(&sets, "1.2.3.4", "example.com", "home"), Err(ReconcileError::RecordNotFound));
    assert!(matches!(
        plan_update("Z123", &sets, "5.6.7.8", "example.com", "home"),
        Err(ReconcileError::RecordNotFound)
    ));
    assert_eq!(needs_update(&Vec::new(), "1.2.3.4", "example.com", "home"), Err(ReconcileError::RecordNotFound));
}

#[test]
fn empty_record_is_an_error() {
    let sets = vec![record("home.example.com.", &[])];
    assert_eq!(needs_update(&sets, "1.2.3.4", "example.com", "home"), Err(ReconcileError::EmptyRecord));
}

#[test]
fn first_matching_record_set_is_judged() {
    let sets = vec![
        record("aaa.example.com.", &["9.9.9.9"]),
        record("home.example.com.", &["1.2.3.4"]),
        record("home.example.com.", &["9.9.9.9"]),
    ];
    assert_eq!(needs_update(&sets, "1.2.3.4", "example.com", "home"), Ok(false));
}

#[test]
fn every_value_must_match() {
    let first_differs = vec![record("home.example.com.", &["9.9.9.9", "1.2.3.4"])];
    assert_eq!(needs_update(&first_differs, "1.2.3.4", "example.com", "home"), Ok(true));
    let later_differs = vec![record("home.example.com.", &["1.2.3.4", "9.9.9.9"])];
    assert_eq!(needs_update(&later_differs, "1.2.3.4", "example.com", "home"), Ok(true));
    let all_same = vec![record("home.example.com.", &["1.2.3.4", "1.2.3.4"])];
    assert_eq!(needs_update(&all_same, "1.2.3.4", "example.com", "home"), Ok(false));
}

#[test]
fn apply_update_replaces_wholesale() {
    let mut sets = vec![record("www.example.com.", &["7.7.7.7"]), record("home.example.com.", &["1.2.3.4", "9.9.9.9"])];
    let change = change_request("Z123", "5.6.7.8", "example.com", "home");
    apply_update(&mut sets, &change);
    assert_eq!(sets.len(), 2);
    assert_eq!(sets[0].name, "www.example.com.");
    assert_eq!(sets[0].values, vec!["7.7.7.7".to_string()]);
    assert_eq!(sets[1].name, "home.example.com.");
    assert_eq!(sets[1].values, vec!["5.6.7.8".to_string()]);
}

#[test]
fn apply_update_adds_missing_record() {
    let mut sets = vec![record("www.example.com.", &["7.7.7.7"])];
    let change = change_request("Z123", "5.6.7.8", "example.com", "home");
    apply_update(&mut sets, &change);
    assert_eq!(sets.len(), 2);
    assert_eq!(sets[1].name, "home.example.com.");
    assert_eq!(sets[1].values, vec!["5.6.7.8".to_string()]);
}

#[test]
fn apply_update_twice_equals_once() {
    let change = change_request("Z123", "5.6.7.8", "example.com", "home");
    let mut once = vec![record("home.example.com.", &["1.2.3.4"]), record("x.example.com.", &["2.2.2.2"])];
    apply_update(&mut once, &change);
    let mut twice = vec![record("home.example.com.", &["1.2.3.4"]), record("x.example.com.", &["2.2.2.2"])];
    apply_update(&mut twice, &change);
    apply_update(&mut twice, &change);
    assert_eq!(once.len(), twice.len());
    for (a, b) in once.iter().zip(twice.iter()) {
        assert_eq!(a.name, b.name);
        assert_eq!(a.values, b.values);
    }
}

#[test]
fn update_then_audit_is_current() {
    let mut sets = vec![record("home.example.com.", &["1.2.3.4", "4.4.4.4"])];
    assert_eq!(needs_update(&sets, "5.6.7.8", "example.com", "home"), Ok(true));
    let change = change_request("Z123", "5.6.7.8", "example.com", "home");
    apply_update(&mut sets, &change);
    assert_eq!(needs_update(&sets, "5.6.7.8", "example.com", "home"), Ok(false));
    let mut empty = Vec::new();
    apply_update(&mut empty, &change);
    assert_eq!(needs_update(&empty, "5.6.7.8", "example.com", "home"), Ok(false));
}

#[test]
fn zone_pages_are_drained() {
    let mut all = Vec::new();
    let step = take_zone_page(&mut all, vec![zone("/hostedzone/Z1", "a.com.")], true, Some("m1".to_string()));
    assert!(matches!(step, Ok(ListingStep::Fetch(ref m)) if m == "m1"));
    let step = take_zone_page(&mut all, vec![zone("/hostedzone/Z2", "b.com.")], false, None);
    assert!(matches!(step, Ok(ListingStep::Done)));
    assert_eq!(all.len(), 2);
    assert_eq!(all[0].name, "a.com.");
    assert_eq!(all[1].name, "b.com.");
    assert_eq!(resolve_zone(&all, "b.com"), Ok("Z2".to_string()));
}

#[test]
fn truncated_page_without_marker_fails() {
    let mut all = Vec::new();
    let step = take_zone_page(&mut all, vec![zone("/hostedzone/Z1", "a.com.")], true, None);
    assert!(matches!(step, Err(ReconcileError::Parse(_))));
    assert_eq!(all.len(), 1);
}
