use driver_indexer::utils::util::compareVersiopn;
use driver_indexer::utils::version::{comparable_versions, compare_versions, parse_i32};
use std::cmp::Ordering;

fn chars(s: &str) -> Vec<char> {
    s.chars().collect()
}

#[test]
fn version_higher_component_wins() {
    assert_eq!(compareVersiopn("10.0.19041.1", "9.8"), Ordering::Greater);
    assert_eq!(compareVersiopn("1.2.3", "1.10"), Ordering::Less);
    assert_eq!(compareVersiopn("6.1.7600.16385", "6.1.7600.16385"), Ordering::Equal);
}

#[test]
fn version_missing_components_count_as_zero() {
    assert_eq!(compareVersiopn("1.0", "1"), Ordering::Equal);
    assert_eq!(compareVersiopn("1.0.0.1", "1"), Ordering::Greater);
    assert_eq!(compareVersiopn("2", "2.0.1"), Ordering::Less);
}

#[test]
fn version_order_is_antisymmetric_and_reflexive() {
    let vs = ["1", "1.0", "2.5", "10.0.1", "0.9.9", "-1.3", "+4"];
    for a in vs.iter() {
        assert_eq!(compare_versions(a, a), 0);
        for b in vs.iter() {
            assert_eq!(compare_versions(a, b), -compare_versions(b, a));
        }
    }
}

#[test]
fn version_order_is_transitive_on_samples() {
    let vs = ["1", "1.0", "2.5", "10.0.1", "0.9.9", "2.5.0.0", "3"];
    for a in vs.iter() {
        for b in vs.iter() {
            for c in vs.iter() {
                if compare_versions(a, b) >= 0 && compare_versions(b, c) >= 0 {
                    assert!(compare_versions(a, c) >= 0);
                }
            }
        }
    }
}

#[test]
fn version_comparison_reads_until_first_difference() {
    // the second components are never read: the first ones differ
    assert!(comparable_versions("2.x", "1.y"));
    assert_eq!(compare_versions("2.x", "1.y"), 1);
    // an empty version has a component that does not parse
    assert!(!comparable_versions("", "1.0"));
    assert!(!comparable_versions("1.a", "1.b"));
}

#[test]
fn parse_like_std() {
    for s in ["0", "12", "+7", "-7", "2147483647", "-2147483648", "007", "", "+", "-", "2147483648", "-2147483649", "1a", " 1", "1.0", "99999999999"] {
        assert_eq!(parse_i32(&chars(s)), s.parse::<i32>().ok(), "input {:?}", s);
    }
}
