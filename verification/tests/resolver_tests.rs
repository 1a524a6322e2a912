use npm_offline::errors::CustomErrors;
use npm_offline::registry::{manuel_extend, Resolver, ResolvedSet, Task};
use npm_offline::serde::{Dist, PackageRsp, Version};

fn entry_with(
    name: &str,
    version: &str,
    deps: &[(&str, &str)],
    dev: &[(&str, &str)],
    peer: &[(&str, &str)],
    optional: &[(&str, &str)],
) -> Version {
    let pairs = |m: &[(&str, &str)]| -> Vec<(String, String)> {
        m.iter().map(|(a, b)| (a.to_string(), b.to_string())).collect()
    };
    Version {
        name: name.to_string(),
        version: version.to_string(),
        dist: Dist {
            tarball: format!("https://registry.example/{}/-/{}-{}.tgz", name, name, version),
            shasum: "da39a3ee5e6b4b0d3255bfef95601890afd80709".to_string(),
        },
        dependencies: pairs(deps),
        dev_dependencies: pairs(dev),
        peer_dependencies: pairs(peer),
        optional_dependencies: pairs(optional),
    }
}

fn metadata(name: &str, versions: &[Version]) -> PackageRsp {
    PackageRsp {
        dist_tags: vec![("latest".to_string(), versions.last().unwrap().version.clone())],
        versions: versions.iter().map(|v| (v.version.clone(), v.clone())).collect(),
    }
}

fn root_task(name: &str, raw: &str, dev: bool, peer: bool, optional: bool, dispatch: bool) -> Task {
    Task {
        name: name.to_string(),
        req: Some(npm_offline::version::parse(raw).unwrap()),
        dev,
        peer,
        optional,
        dispatch,
    }
}

fn has(set: &ResolvedSet, name: &str, version: &str) -> bool {
    set.items.iter().any(|t| t.0 == name && t.1 == version)
}

#[test]
fn peer_edges_of_the_root_appear_but_do_not_propagate() {
    // The root asks for peer inclusion without propagation: its own peer
    // edge is followed, the peer edge of a dependency-of-a-dependency is
    // not, even though that package declares one.
    let mut r = Resolver::new(root_task("root", "1.0.0", false, true, false, false));

    assert_eq!(r.next_package().unwrap(), "root");
    let root_meta = metadata(
        "root",
        &[entry_with("root", "1.0.0", &[("regdep", "1.0.0")], &[], &[("peerdep", "1.0.0")], &[])],
    );
    let issues = r.step(root_meta).unwrap();
    assert!(issues.is_empty());

    let mut saw_transitive_request = false;
    while let Some(next) = r.next_package() {
        assert_ne!(next, "transitive");
        if next == "peerdep" {
            let meta = metadata(
                "peerdep",
                &[entry_with("peerdep", "1.0.0", &[], &[], &[("transitive", "1.0.0")], &[])],
            );
            r.step(meta).unwrap();
        } else if next == "regdep" {
            let meta = metadata("regdep", &[entry_with("regdep", "1.0.0", &[], &[], &[], &[])]);
            r.step(meta).unwrap();
        } else {
            saw_transitive_request = true;
            break;
        }
    }
    assert!(!saw_transitive_request);
    let set = r.into_resolved();
    assert!(has(&set, "root", "1.0.0"));
    assert!(has(&set, "regdep", "1.0.0"));
    assert!(has(&set, "peerdep", "1.0.0"));
    assert!(!has(&set, "transitive", "1.0.0"));
}

#[test]
fn regular_edges_always_propagate() {
    let mut r = Resolver::new(root_task("root", "1.0.0", false, false, false, false));
    let root_meta = metadata(
        "root",
        &[entry_with("root", "1.0.0", &[("child", "1.0.0")], &[], &[], &[])],
    );
    r.step(root_meta).unwrap();
    assert_eq!(r.next_package().unwrap(), "child");
    let child_meta = metadata(
        "child",
        &[entry_with("child", "1.0.0", &[("grandchild", "1.0.0")], &[], &[], &[])],
    );
    r.step(child_meta).unwrap();
    assert_eq!(r.next_package().unwrap(), "grandchild");
    let gc_meta = metadata("grandchild", &[entry_with("grandchild", "1.0.0", &[], &[], &[], &[])]);
    r.step(gc_meta).unwrap();
    assert!(r.done());
    let set = r.into_resolved();
    assert!(has(&set, "grandchild", "1.0.0"));
}

#[test]
fn unparseable_edge_is_reported_and_skipped() {
    let mut r = Resolver::new(root_task("root", "1.0.0", false, false, false, true));
    let root_meta = metadata(
        "root",
        &[entry_with("root", "1.0.0", &[("bad", "=="), ("good", "1.0.0")], &[], &[], &[])],
    );
    let issues = r.step(root_meta).unwrap();
    assert_eq!(issues.len(), 1);
    assert_eq!(issues[0].name, "bad");
    assert_eq!(issues[0].raw, "==");
    assert!(matches!(issues[0].error, CustomErrors::VersionParse { .. }));
    // The good sibling edge is still pending.
    assert_eq!(r.next_package().unwrap(), "good");
}

#[test]
fn selection_failure_is_fatal_and_leaves_the_walker_unchanged() {
    let mut r = Resolver::new(root_task("root", "3.0.0", false, false, false, false));
    let before = r.clone();
    let root_meta = metadata("root", &[entry_with("root", "1.0.0", &[], &[], &[], &[])]);
    match r.step(root_meta) {
        Err(CustomErrors::Version(p)) => assert_eq!(p, "root"),
        other => panic!("expected a version-resolution error, got {:?}", other),
    }
    assert_eq!(r, before);
}

#[test]
fn latest_task_follows_the_dist_tag() {
    let mut r = Resolver::new(Task {
        name: "root".to_string(),
        req: None,
        dev: false,
        peer: false,
        optional: false,
        dispatch: false,
    });
    let root_meta = metadata(
        "root",
        &[
            entry_with("root", "1.0.0", &[], &[], &[], &[]),
            entry_with("root", "2.0.0", &[], &[], &[], &[]),
        ],
    );
    r.step(root_meta).unwrap();
    let set = r.into_resolved();
    assert!(has(&set, "root", "2.0.0"));
    assert!(!has(&set, "root", "1.0.0"));
}

#[test]
fn dev_edges_follow_only_with_the_flag() {
    let entry = entry_with("root", "1.0.0", &[], &[("devdep", "1.0.0")], &[], &[]);
    let mut without = Resolver::new(root_task("root", "1.0.0", false, false, false, false));
    without.step(metadata("root", &[entry.clone()])).unwrap();
    assert!(without.done());

    let mut with = Resolver::new(root_task("root", "1.0.0", true, false, false, false));
    with.step(metadata("root", &[entry])).unwrap();
    assert_eq!(with.next_package().unwrap(), "devdep");
}

#[test]
fn merging_keeps_both_versions_of_one_package() {
    let mut a = ResolvedSet::new();
    a.insert(
        "x".to_string(),
        "1.0.0".to_string(),
        entry_with("x", "1.0.0", &[], &[], &[], &[]),
    );
    let mut b = ResolvedSet::new();
    b.insert(
        "x".to_string(),
        "2.0.0".to_string(),
        entry_with("x", "2.0.0", &[], &[], &[], &[]),
    );
    manuel_extend(b, &mut a);
    assert!(has(&a, "x", "1.0.0"));
    assert!(has(&a, "x", "2.0.0"));
    assert_eq!(a.items.len(), 2);
}

#[test]
fn merging_never_overwrites_an_existing_entry() {
    let mut dst = ResolvedSet::new();
    dst.insert(
        "x".to_string(),
        "1.0.0".to_string(),
        entry_with("x", "1.0.0", &[("keep", "1.0.0")], &[], &[], &[]),
    );
    let mut src = ResolvedSet::new();
    src.insert(
        "x".to_string(),
        "1.0.0".to_string(),
        entry_with("x", "1.0.0", &[("discard", "1.0.0")], &[], &[], &[]),
    );
    manuel_extend(src, &mut dst);
    assert_eq!(dst.items.len(), 1);
    assert_eq!(dst.items[0].2.dependencies[0].0, "keep");
}

#[test]
fn optional_edge_value_wins_over_regular() {
    // The same name declared under several kinds: the most specific kind
    // consulted decides the raw requirement.
    let mut r = Resolver::new(root_task("root", "1.0.0", false, false, true, false));
    let root_meta = metadata(
        "root",
        &[entry_with(
            "root",
            "1.0.0",
            &[("dup", "1.0.0")],
            &[],
            &[],
            &[("dup", "2.0.0")],
        )],
    );
    r.step(root_meta).unwrap();
    assert_eq!(r.next_package().unwrap(), "dup");
    let dup_meta = metadata(
        "dup",
        &[
            entry_with("dup", "1.0.0", &[], &[], &[], &[]),
            entry_with("dup", "2.0.0", &[], &[], &[], &[]),
        ],
    );
    r.step(dup_meta).unwrap();
    let set = r.into_resolved();
    assert!(has(&set, "dup", "2.0.0"));
    assert!(!has(&set, "dup", "1.0.0"));
}
