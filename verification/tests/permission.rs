use core::cmp::Ordering;

use harmony_core::permission::{compare_permission_depth, has_permission, matches_query};

fn rules(items: &[(&str, bool)]) -> Vec<(String, bool)> {
    items.iter().map(|&(p, ok)| (p.to_string(), ok)).collect()
}

#[test]
fn test_perm_compare_equal_allow() {
    let ok = has_permission(&rules(&[("messages.send", true)]), "messages.send");
    assert_eq!(ok, Some(true));
}

#[test]
fn test_perm_compare_equal_deny() {
    let ok = has_permission(&rules(&[("messages.send", false)]), "messages.send");
    assert_eq!(ok, Some(false));
}

#[test]
fn test_perm_compare_nonequal_allow() {
    let ok = has_permission(&rules(&[("messages.sendd", true)]), "messages.send");
    assert_eq!(ok, None);
}

#[test]
fn test_perm_compare_nonequal_deny() {
    let ok = has_permission(&rules(&[("messages.sendd", false)]), "messages.send");
    assert_eq!(ok, None);
}

#[test]
fn test_perm_compare_glob_allow() {
    let perms = rules(&[("messages.*", true)]);
    let ok = has_permission(&perms, "messages.send");
    assert_eq!(ok, Some(true));
    let ok = has_permission(&perms, "messages.view");
    assert_eq!(ok, Some(true));
}

#[test]
fn test_perm_compare_glob_deny() {
    let perms = rules(&[("messages.*", false)]);
    let ok = has_permission(&perms, "messages.send");
    assert_eq!(ok, Some(false));
    let ok = has_permission(&perms, "messages.view");
    assert_eq!(ok, Some(false));
}

#[test]
fn test_perm_compare_specific_deny() {
    let perms = rules(&[("messages.*", true), ("messages.send", false)]);
    let ok = has_permission(&perms, "messages.send");
    assert_eq!(ok, Some(false));
}

#[test]
fn test_perm_compare_specific_allow() {
    let perms = rules(&[("messages.*", false), ("messages.send", true)]);
    let ok = has_permission(&perms, "messages.send");
    assert_eq!(ok, Some(true));
}

#[test]
fn test_perm_compare_depth_allow() {
    let perms = rules(&[
        ("messages.*", false),
        ("messages.send", false),
        ("messages.send.send", true),
    ]);
    let ok = has_permission(&perms, "messages.send.send");
    assert_eq!(ok, Some(true));
}

#[test]
fn test_perm_compare_depth_deny() {
    let perms = rules(&[
        ("messages.*", true),
        ("messages.send.send", false),
        ("messages.send", true),
    ]);
    let ok = has_permission(&perms, "messages.send.send");
    assert_eq!(ok, Some(false));
}

#[test]
fn compare_is_antisymmetric_on_samples() {
    let pairs = [
        ("messages.send", "messages.send"),
        ("messages.send", "messages.*"),
        ("messages.*", "messages.send"),
        ("messages.send.send", "messages.*"),
        ("a", "a.b.c"),
        ("", "*"),
    ];
    for &(a, b) in &pairs {
        let forward = compare_permission_depth(a, b);
        let backward = compare_permission_depth(b, a);
        assert_eq!(forward.reverse(), backward);
        assert_eq!(compare_permission_depth(a, a), Ordering::Equal);
    }
}

#[test]
fn compare_depth_dominates() {
    assert_eq!(
        compare_permission_depth("messages.send.send", "messages.*"),
        Ordering::Greater
    );
    assert_eq!(
        compare_permission_depth("messages.*.extra", "messages.send"),
        Ordering::Greater
    );
    assert_eq!(compare_permission_depth("a", "a.b"), Ordering::Less);
}

#[test]
fn compare_equal_depth_wildcard() {
    assert_eq!(
        compare_permission_depth("messages.*", "messages.send"),
        Ordering::Less
    );
    assert_eq!(
        compare_permission_depth("messages.send", "messages.*"),
        Ordering::Greater
    );
    assert_eq!(
        compare_permission_depth("messages.*", "other.*"),
        Ordering::Equal
    );
    assert_eq!(
        compare_permission_depth("messages.send", "messages.view"),
        Ordering::Equal
    );
}

#[test]
fn match_requires_equal_segment_count() {
    assert!(!matches_query("*", "messages.send"));
    assert!(!matches_query("messages", "messages.send"));
    assert!(!matches_query("messages.send.send", "messages.send"));
    assert!(matches_query("messages.send", "messages.send"));
    assert!(matches_query("messages.*", "messages.send"));
    let ok = has_permission(&rules(&[("*", true)]), "messages.send");
    assert_eq!(ok, None);
}

#[test]
fn empty_rule_set_is_undetermined() {
    let ok = has_permission(&rules(&[]), "messages.send");
    assert_eq!(ok, None);
}

#[test]
fn empty_query_matches_only_empty_pattern() {
    assert_eq!(has_permission(&rules(&[("messages", true)]), ""), None);
    assert_eq!(has_permission(&rules(&[("", true)]), ""), Some(true));
}

#[test]
fn trailing_dot_makes_an_empty_segment() {
    assert!(matches_query("messages.", "messages."));
    assert!(!matches_query("messages.", "messages"));
    assert_eq!(
        compare_permission_depth("messages.", "messages.send"),
        Ordering::Equal
    );
}

#[test]
fn first_seen_wins_among_equal_ties() {
    let perms = rules(&[("messages.send", false), ("messages.send", true)]);
    assert_eq!(has_permission(&perms, "messages.send"), Some(false));
    let perms = rules(&[("messages.*", true), ("messages.*", false)]);
    assert_eq!(has_permission(&perms, "messages.send"), Some(true));
}

#[test]
fn resolution_is_idempotent() {
    let perms = rules(&[("messages.*", true), ("messages.send", false)]);
    let first = has_permission(&perms, "messages.send");
    let second = has_permission(&perms, "messages.send");
    assert_eq!(first, second);
    assert_eq!(first, Some(false));
}
