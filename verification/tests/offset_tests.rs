use fracta::names::sanitize_name;
use fracta::offset::{calculate_port_offset, choose_port_offset};
use std::collections::HashSet;

#[test]
fn test_calculate_port_offset() {
    assert_eq!(calculate_port_offset("main"), 0);
    assert_eq!(calculate_port_offset(""), 0);

    let offset_a = calculate_port_offset("feature-A");
    assert!(offset_a >= 1000 && offset_a <= 9000);
    assert_eq!(offset_a % 1000, 0);

    assert_eq!(
        calculate_port_offset("feature-A"),
        calculate_port_offset("feature-A")
    );
}

#[test]
fn test_choose_port_offset() {
    let mut used = HashSet::new();
    used.insert(1000);
    used.insert(2000);
    let offset = choose_port_offset("feature-A", &used);
    assert!(offset >= 1000 && offset <= 9000);
    assert!(!used.contains(&offset));
}

#[test]
fn test_sanitize_name() {
    assert_eq!(sanitize_name("develop3"), "develop3");
    assert_eq!(sanitize_name("feature/new-feature"), "feature-new-feature");
    assert_eq!(sanitize_name("bugfix/issue-123"), "bugfix-issue-123");
    assert_eq!(sanitize_name("feature//double-slash"), "feature-double-slash");
    assert_eq!(sanitize_name("/leading-slash"), "leading-slash");
    assert_eq!(sanitize_name("trailing-slash/"), "trailing-slash");
    assert_eq!(sanitize_name("normal-name"), "normal-name");
}
