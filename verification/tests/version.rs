use portsage::version::{compare_versions, current_version, parse_version, strip_v, VersionCmp};

#[test]
fn parse_version_strips_v_and_handles_three_parts() {
    assert_eq!(parse_version("v0.11.0"), Some(vec![0, 11, 0]));
    assert_eq!(parse_version("0.11.0"), Some(vec![0, 11, 0]));
    assert_eq!(parse_version("1.0"), Some(vec![1, 0]));
}

#[test]
fn parse_version_rejects_garbage() {
    assert_eq!(parse_version(""), None);
    assert_eq!(parse_version("abc"), None);
    assert_eq!(parse_version("0.x.0"), None);
}

#[test]
fn compare_versions_basic_orderings() {
    assert_eq!(compare_versions("0.11.0", "0.11.0"), VersionCmp::UpToDate);
    assert_eq!(compare_versions("0.10.0", "0.11.0"), VersionCmp::Outdated);
    assert_eq!(compare_versions("0.12.0", "0.11.0"), VersionCmp::Ahead);
    assert_eq!(compare_versions("0.9.0", "0.10.0"), VersionCmp::Outdated);
}

#[test]
fn compare_versions_unknown_when_not_numeric() {
    assert_eq!(compare_versions("dev", "0.11.0"), VersionCmp::Unknown);
    assert_eq!(compare_versions("0.11.0", "v?"), VersionCmp::Unknown);
}

#[test]
fn current_version_matches_workspace() {
    assert!(!current_version().is_empty());
    assert!(current_version().chars().next().unwrap().is_ascii_digit());
}

#[test]
fn current_version_is_the_package_version() {
    assert_eq!(current_version(), "0.11.0");
    assert_eq!(parse_version(current_version()), Some(vec![0, 11, 0]));
}

#[test]
fn parse_version_reads_components_as_u64() {
    assert_eq!(parse_version("+1.2"), Some(vec![1, 2]));
    assert_eq!(parse_version("-1.2"), None);
    assert_eq!(parse_version("1..2"), None);
    assert_eq!(parse_version("1.2."), None);
    assert_eq!(parse_version("+"), None);
    assert_eq!(parse_version("vv1"), None);
    assert_eq!(parse_version("18446744073709551615"), Some(vec![u64::MAX]));
    assert_eq!(parse_version("18446744073709551616"), None);
    assert_eq!(parse_version("007.1"), Some(vec![7, 1]));
}

#[test]
fn strip_v_drops_one_leading_v() {
    assert_eq!(strip_v("v1.2"), "1.2");
    assert_eq!(strip_v("vv1"), "v1");
    assert_eq!(strip_v("1.2"), "1.2");
    assert_eq!(strip_v(""), "");
}

#[test]
fn compare_versions_prefix_is_older() {
    assert_eq!(compare_versions("1.0", "1.0.0"), VersionCmp::Outdated);
    assert_eq!(compare_versions("1.0.0", "1.0"), VersionCmp::Ahead);
    assert_eq!(compare_versions("v2", "2"), VersionCmp::UpToDate);
}

#[test]
fn compare_versions_swapping_swaps_the_answer() {
    let pairs = [("0.10.0", "0.11.0"), ("1.2.3", "1.2.3"), ("dev", "1.0"), ("2.0", "1.9.9")];
    for (a, b) in pairs {
        let there = compare_versions(a, b);
        let back = compare_versions(b, a);
        let expected = match there {
            VersionCmp::Outdated => VersionCmp::Ahead,
            VersionCmp::Ahead => VersionCmp::Outdated,
            other => other,
        };
        assert_eq!(back, expected);
    }
}

#[test]
fn compare_versions_outdated_is_transitive() {
    assert_eq!(compare_versions("0.9.0", "0.10.0"), VersionCmp::Outdated);
    assert_eq!(compare_versions("0.10.0", "0.10.1"), VersionCmp::Outdated);
    assert_eq!(compare_versions("0.9.0", "0.10.1"), VersionCmp::Outdated);
}

#[test]
fn parse_version_round_trips_dotted_numbers() {
    let cases: Vec<Vec<u64>> = vec![vec![0], vec![0, 11, 0], vec![1, 2, 3, 4], vec![u64::MAX, 10, 0]];
    for v in cases {
        let s = v.iter().map(|x| x.to_string()).collect::<Vec<_>>().join(".");
        assert_eq!(parse_version(&s), Some(v.clone()));
        assert_eq!(parse_version(&format!("v{s}")), Some(v));
    }
}
