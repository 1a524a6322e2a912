use npm_offline::artifact::{download_tasks, stored_digest_matches, tarball_filename};
use npm_offline::commands::{publish, targets_from_manifest};
use npm_offline::errors::CustomErrors;
use npm_offline::registry::ResolvedSet;
use npm_offline::serde::{Dist, PackageJson, Version};
use npm_offline::version::from::{from_operator, from_version};
use npm_offline::version::{Op, Part};

#[test]
fn matching_digest_keeps_the_stored_file() {
    // The SHA-1 of "hello world", in lowercase hex.
    let data: Vec<u8> = b"hello world".to_vec();
    assert!(stored_digest_matches(&data, "2aae6c35c94fcfb415dbe95f408b9ce91ee846ed"));
}

#[test]
fn digest_comparison_ignores_ascii_case() {
    let data: Vec<u8> = b"hello world".to_vec();
    assert!(stored_digest_matches(&data, "2AAE6C35C94FCFB415DBE95F408B9CE91EE846ED"));
}

#[test]
fn mismatching_digest_forces_a_refetch() {
    let data: Vec<u8> = b"hello world".to_vec();
    assert!(!stored_digest_matches(&data, "da39a3ee5e6b4b0d3255bfef95601890afd80709"));
    let empty: Vec<u8> = Vec::new();
    assert!(stored_digest_matches(&empty, "da39a3ee5e6b4b0d3255bfef95601890afd80709"));
}

#[test]
fn filename_is_the_last_path_segment() {
    let got = tarball_filename("https://registry.npmjs.org/express/-/express-4.18.2.tgz").unwrap();
    assert_eq!(got, "express-4.18.2.tgz");
}

#[test]
fn unparseable_location_is_a_general_error() {
    assert!(matches!(tarball_filename("not a url"), Err(CustomErrors::Global(_))));
    assert!(matches!(tarball_filename("mailto:a@example.com"), Err(CustomErrors::Global(_))));
}

#[test]
fn one_task_per_resolved_item() {
    let mut set = ResolvedSet::new();
    let entry = Version {
        name: "x".to_string(),
        version: "1.0.0".to_string(),
        dist: Dist {
            tarball: "https://registry.example/x/-/x-1.0.0.tgz".to_string(),
            shasum: "0000000000000000000000000000000000000000".to_string(),
        },
        dependencies: Vec::new(),
        dev_dependencies: Vec::new(),
        peer_dependencies: Vec::new(),
        optional_dependencies: Vec::new(),
    };
    set.insert("x".to_string(), "1.0.0".to_string(), entry.clone());
    let mut second = entry.clone();
    second.version = "2.0.0".to_string();
    set.insert("x".to_string(), "2.0.0".to_string(), second);
    let tasks = download_tasks(&set);
    assert_eq!(tasks.len(), 2);
    assert_eq!(tasks[0].name, "x");
    assert_eq!(tasks[0].version, "1.0.0");
    assert_eq!(tasks[0].shasum, "0000000000000000000000000000000000000000");
    assert_eq!(tasks[0].tarball, "https://registry.example/x/-/x-1.0.0.tgz");
    assert_eq!(tasks[1].version, "2.0.0");
}

fn manifest() -> PackageJson {
    PackageJson {
        name: "app".to_string(),
        dependencies: vec![("a".to_string(), "1.0.0".to_string())],
        dev_dependencies: vec![("b".to_string(), "latest".to_string())],
        peer_dependencies: vec![("c".to_string(), ">=1.0.0".to_string())],
        optional_dependencies: vec![("d".to_string(), "2.x".to_string())],
    }
}

#[test]
fn manifest_targets_follow_the_flags() {
    let ts = targets_from_manifest(&manifest(), false, false, false, true).unwrap();
    assert_eq!(ts.len(), 1);
    assert_eq!(ts[0].name, "a");
    assert!(ts[0].req.is_some());
    assert!(ts[0].dispatch);

    let all = targets_from_manifest(&manifest(), true, true, true, false).unwrap();
    assert_eq!(all.len(), 4);
    assert_eq!(all[1].name, "b");
    assert!(all[1].req.is_none(), "a raw requirement of latest means no constraint");
    assert_eq!(all[2].name, "c");
    assert_eq!(all[3].name, "d");
}

#[test]
fn manifest_with_bad_range_fails() {
    let mut pkg = manifest();
    pkg.dependencies.push(("broken".to_string(), "??".to_string()));
    assert!(matches!(
        targets_from_manifest(&pkg, false, false, false, false),
        Err(CustomErrors::VersionParse { .. })
    ));
}

#[test]
fn publish_is_not_offered() {
    assert!(matches!(
        publish(vec!["pkg.tgz".to_string()], None),
        Err(CustomErrors::Global(_))
    ));
}

#[test]
fn operator_tokens_map_to_operators() {
    assert_eq!(from_operator(""), Some(Op::Exact));
    assert_eq!(from_operator("<"), Some(Op::Less));
    assert_eq!(from_operator("<="), Some(Op::LessEq));
    assert_eq!(from_operator(">"), Some(Op::Greater));
    assert_eq!(from_operator(">="), Some(Op::GreaterEq));
    assert_eq!(from_operator("="), Some(Op::Exact));
    assert_eq!(from_operator("~"), Some(Op::Tilde));
    assert_eq!(from_operator("^"), Some(Op::Caret));
    assert_eq!(from_operator("=="), None);
    assert_eq!(from_operator("<>"), None);
}

#[test]
fn version_tokens_become_parts() {
    assert_eq!(
        from_version(("1", "2", "3")),
        Some((1, Some(Part::Numeric(2)), Some(Part::Numeric(3))))
    );
    assert_eq!(from_version(("1", "", "")), Some((1, None, None)));
    assert_eq!(from_version(("1", "x", "")), Some((1, Some(Part::Wildcard), None)));
    assert_eq!(from_version(("1", "*", "")), Some((1, Some(Part::Wildcard), None)));
    assert_eq!(
        from_version(("1", "2", "XY")),
        Some((1, Some(Part::Numeric(2)), Some(Part::Wildcard)))
    );
    assert_eq!(from_version(("x", "2", "3")), None);
    assert_eq!(from_version(("", "2", "3")), None);
    assert_eq!(from_version(("1", "2a", "")), None);
    // Minor and patch values must fit in the non-negative half of an i64.
    assert_eq!(from_version(("1", "9223372036854775808", "")), None);
    assert_eq!(
        from_version(("1", "9223372036854775807", "")),
        Some((1, Some(Part::Numeric(9223372036854775807)), None))
    );
    // The major value may use the full range.
    assert_eq!(from_version(("18446744073709551615", "", "")), Some((18446744073709551615, None, None)));
    assert_eq!(from_version(("18446744073709551616", "", "")), None);
}
