use npm_offline::errors::CustomErrors;
use npm_offline::serde::{Dist, Version};
use npm_offline::utils::{find_version, split_package_string};
use npm_offline::version::{parse, Requirement};

fn entry(name: &str, version: &str) -> Version {
    Version {
        name: name.to_string(),
        version: version.to_string(),
        dist: Dist {
            tarball: format!("https://registry.example/{}/-/{}-{}.tgz", name, name, version),
            shasum: "da39a3ee5e6b4b0d3255bfef95601890afd80709".to_string(),
        },
        dependencies: Vec::new(),
        dev_dependencies: Vec::new(),
        peer_dependencies: Vec::new(),
        optional_dependencies: Vec::new(),
    }
}

fn catalogue(tags: &[&str]) -> Vec<(String, Version)> {
    tags.iter().map(|t| (t.to_string(), entry("pkg", t))).collect()
}

#[test]
fn contiguous_run_rule_picks_run_not_oldest_match() {
    let cat = catalogue(&["1.0.0", "1.1.0", "1.2.0", "2.0.0"]);
    // Matches 1.0.0 and 1.2.0 but neither 1.1.0 nor 2.0.0.
    let req = parse("1.0.0 || 1.2.0").unwrap();
    let got = find_version(&cat, Some(&req), None).unwrap();
    assert_eq!(got, Some(2), "the scan must stop at 1.1.0 and never reach 1.0.0");
}

#[test]
fn scan_records_oldest_of_topmost_run() {
    let cat = catalogue(&["1.0.0", "1.1.0", "1.2.0", "2.0.0"]);
    let req = parse("1.1.0 || 1.2.0").unwrap();
    let got = find_version(&cat, Some(&req), None).unwrap();
    assert_eq!(got, Some(1), "within an unbroken run the older match overwrites");
}

#[test]
fn no_match_selects_nothing() {
    let cat = catalogue(&["1.0.0", "1.1.0"]);
    let req = parse("3.0.0").unwrap();
    assert_eq!(find_version(&cat, Some(&req), None).unwrap(), None);
}

#[test]
fn unparseable_tag_above_the_run_aborts() {
    let cat = catalogue(&["1.0.0", "garbage", "2.0.0"]);
    let req = parse("2.0.0").unwrap();
    match find_version(&cat, Some(&req), None) {
        Err(CustomErrors::CatalogueParse(_)) => {},
        other => panic!("expected a catalogue-parse error, got {:?}", other),
    }
}

#[test]
fn unparseable_tag_below_a_started_run_is_never_reached() {
    let cat = catalogue(&["garbage", "1.5.0", "2.0.0"]);
    let req = parse("2.0.0 || 1.5.0").unwrap();
    // 2.0.0 and 1.5.0 match; the scan stops before the bad oldest tag only
    // if a non-match intervenes, so here it does reach it.
    assert!(find_version(&cat, Some(&req), None).is_err());
    let cat2 = catalogue(&["garbage", "1.4.0", "1.5.0", "2.0.0"]);
    let req2 = parse("2.0.0 || 1.5.0").unwrap();
    // The non-matching 1.4.0 stops the scan before the bad tag.
    assert_eq!(find_version(&cat2, Some(&req2), None).unwrap(), Some(2));
}

#[test]
fn latest_mode_follows_the_tag() {
    let cat = catalogue(&["1.0.0", "1.1.0", "2.0.0"]);
    let tag = "1.1.0".to_string();
    assert_eq!(find_version(&cat, None, Some(&tag)).unwrap(), Some(1));
}

#[test]
fn latest_mode_with_dangling_target_selects_nothing() {
    let cat = catalogue(&["1.0.0"]);
    let tag = "9.9.9".to_string();
    assert_eq!(find_version(&cat, None, Some(&tag)).unwrap(), None);
}

#[test]
fn latest_mode_without_tag_selects_nothing() {
    let cat = catalogue(&["1.0.0"]);
    assert_eq!(find_version(&cat, None, None).unwrap(), None);
}

#[test]
fn requirement_mode_ignores_the_latest_tag() {
    // A requirement is given: the latest tag must not short-circuit it.
    let cat = catalogue(&["1.0.0", "2.0.0"]);
    let req = parse("1.0.0").unwrap();
    let tag = "2.0.0".to_string();
    assert_eq!(find_version(&cat, Some(&req), Some(&tag)).unwrap(), Some(0));
}

#[test]
fn universal_requirement_runs_to_the_oldest() {
    // Every version matches, so the unbroken run reaches the bottom and the
    // oldest version is the last one recorded.
    let cat = catalogue(&["1.0.0", "1.5.0", "2.0.0"]);
    let req = parse("*").unwrap();
    assert_eq!(find_version(&cat, Some(&req), None).unwrap(), Some(0));
}

#[test]
fn split_name_and_range() {
    let (name, req) = split_package_string("express@4.18.2".to_string()).unwrap();
    assert_eq!(name, "express");
    assert!(matches!(req, Some(Requirement::Groups(_))));
}

#[test]
fn split_bare_name_means_latest() {
    let (name, req) = split_package_string("express".to_string()).unwrap();
    assert_eq!(name, "express");
    assert!(req.is_none());
}

#[test]
fn split_latest_range_means_latest() {
    let (name, req) = split_package_string("express@latest".to_string()).unwrap();
    assert_eq!(name, "express");
    assert!(req.is_none());
}

#[test]
fn split_scoped_specifier_drops_the_marker() {
    let (name, req) = split_package_string("@scope/pkg@1.0.0".to_string()).unwrap();
    assert_eq!(name, "scope/pkg");
    assert!(req.is_some());
}

#[test]
fn split_with_too_many_separators_fails() {
    match split_package_string("a@b@c@d".to_string()) {
        Err(CustomErrors::PackageSplit(s)) => assert_eq!(s, "a@b@c@d"),
        other => panic!("expected a package-split error, got {:?}", other),
    }
}

#[test]
fn split_with_bad_range_fails() {
    assert!(matches!(
        split_package_string("express@not a range".to_string()),
        Err(CustomErrors::VersionParse { .. })
    ));
}
