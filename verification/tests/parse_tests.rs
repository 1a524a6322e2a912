use npm_offline::errors::{CustomErrors, ParseContext};
use npm_offline::matching::{requirement_matches, SemVer};
use npm_offline::version::{parse, Comparator, Op, Requirement};

fn ver(major: u64, minor: u64, patch: u64) -> SemVer {
    SemVer { major, minor, patch, pre: String::new() }
}

fn groups_of(r: Requirement) -> Vec<Vec<Comparator>> {
    match r {
        Requirement::Universal => panic!("expected groups"),
        Requirement::Groups(gs) => gs.into_iter().map(|g| g.comparators).collect(),
    }
}

#[test]
fn exact_single_comparator() {
    let req = parse("1.2.3").unwrap();
    let gs = groups_of(req.clone());
    assert_eq!(gs.len(), 1);
    assert_eq!(gs[0].len(), 1);
    let c = &gs[0][0];
    assert_eq!(c.op, Op::Exact);
    assert_eq!(c.major, 1);
    assert_eq!(c.minor, Some(2));
    assert_eq!(c.patch, Some(3));
    assert_eq!(c.pre, "");
    assert!(requirement_matches(&req, &ver(1, 2, 3)));
    assert!(!requirement_matches(&req, &ver(1, 2, 4)));
    assert!(!requirement_matches(&req, &ver(0, 2, 3)));
    assert!(!requirement_matches(&req, &ver(2, 0, 0)));
}

#[test]
fn star_is_universal() {
    let req = parse("*").unwrap();
    assert!(matches!(req, Requirement::Universal));
    assert!(requirement_matches(&req, &ver(0, 0, 1)));
    assert!(requirement_matches(&req, &ver(1, 2, 3)));
    assert!(requirement_matches(&req, &ver(99, 0, 7)));
    let pre = SemVer { major: 1, minor: 0, patch: 0, pre: "alpha".to_string() };
    assert!(requirement_matches(&req, &pre));
}

#[test]
fn bounded_range_is_one_group() {
    let req = parse(">=1.0.0 <2.0.0").unwrap();
    let gs = groups_of(req.clone());
    assert_eq!(gs.len(), 1);
    assert_eq!(gs[0].len(), 2);
    assert_eq!(gs[0][0].op, Op::GreaterEq);
    assert_eq!(gs[0][1].op, Op::Less);
    assert!(requirement_matches(&req, &ver(1, 5, 0)));
    assert!(!requirement_matches(&req, &ver(2, 0, 0)));
    assert!(!requirement_matches(&req, &ver(0, 9, 9)));
}

#[test]
fn minor_wildcard() {
    let req = parse("1.x").unwrap();
    let gs = groups_of(req.clone());
    assert_eq!(gs.len(), 1);
    assert_eq!(gs[0].len(), 1);
    let c = &gs[0][0];
    assert_eq!(c.op, Op::Wildcard);
    assert_eq!(c.minor, None);
    assert_eq!(c.patch, None);
    assert!(requirement_matches(&req, &ver(1, 0, 0)));
    assert!(requirement_matches(&req, &ver(1, 9, 9)));
    assert!(!requirement_matches(&req, &ver(2, 0, 0)));
}

#[test]
fn star_wildcard_in_patch_slot() {
    let req = parse("1.2.*").unwrap();
    let gs = groups_of(req.clone());
    let c = &gs[0][0];
    assert_eq!(c.op, Op::Wildcard);
    assert_eq!(c.major, 1);
    assert_eq!(c.minor, Some(2));
    assert_eq!(c.patch, None);
    assert!(requirement_matches(&req, &ver(1, 2, 9)));
    assert!(!requirement_matches(&req, &ver(1, 3, 0)));
}

#[test]
fn or_of_two_groups() {
    let req = parse("1.2.3 || 2.0.0").unwrap();
    let gs = groups_of(req.clone());
    assert_eq!(gs.len(), 2);
    assert_eq!(gs[0].len(), 1);
    assert_eq!(gs[1].len(), 1);
    assert!(requirement_matches(&req, &ver(1, 2, 3)));
    assert!(requirement_matches(&req, &ver(2, 0, 0)));
    assert!(!requirement_matches(&req, &ver(1, 5, 0)));
}

#[test]
fn leading_or_separator_is_an_error() {
    match parse("|| 1.0.0") {
        Err(CustomErrors::VersionParse { context, .. }) => {
            assert_eq!(context, ParseContext::EmptyGroup);
        },
        other => panic!("expected an empty-group error, got {:?}", other),
    }
}

#[test]
fn trailing_or_separator_is_an_error() {
    match parse("1.0.0 ||") {
        Err(CustomErrors::VersionParse { context, .. }) => {
            assert_eq!(context, ParseContext::EmptyGroup);
        },
        other => panic!("expected an empty-group error, got {:?}", other),
    }
}

#[test]
fn chained_or_separator_is_an_error() {
    // Adjacent separators leave an empty group; with whitespace between
    // them the second separator is unconsumable trailing text. Both are
    // range-syntax errors.
    assert!(matches!(
        parse("1.0.0 ||||2.0.0"),
        Err(CustomErrors::VersionParse { context: ParseContext::EmptyGroup, .. })
    ));
    assert!(matches!(
        parse("1.0.0 || || 2.0.0"),
        Err(CustomErrors::VersionParse { .. })
    ));
}

#[test]
fn trailing_characters_are_reported_with_remainder() {
    match parse("1.2.3 junk") {
        Err(CustomErrors::VersionParse { remainder, context }) => {
            assert_eq!(remainder, "junk");
            assert_eq!(context, ParseContext::VersionNumber);
        },
        other => panic!("expected a trailing-characters error, got {:?}", other),
    }
}

#[test]
fn invalid_operator_is_reported() {
    match parse("==1.0.0") {
        Err(CustomErrors::VersionParse { remainder, context }) => {
            assert_eq!(remainder, "==1.0.0");
            assert_eq!(context, ParseContext::RangeOperator);
        },
        other => panic!("expected an operator error, got {:?}", other),
    }
}

#[test]
fn prerelease_is_stored_verbatim() {
    let req = parse(">=1.0.0-beta.2").unwrap();
    let gs = groups_of(req);
    assert_eq!(gs[0][0].op, Op::GreaterEq);
    assert_eq!(gs[0][0].pre, "beta.2");
}

#[test]
fn invalid_prerelease_is_an_error() {
    assert!(matches!(
        parse("1.2.3-.."),
        Err(CustomErrors::VersionParse { context: ParseContext::Prerelease, .. })
    ));
    assert!(matches!(
        parse("1.2.3-01"),
        Err(CustomErrors::VersionParse { context: ParseContext::Prerelease, .. })
    ));
}

#[test]
fn empty_input_is_no_groups() {
    let req = parse("").unwrap();
    match req {
        Requirement::Groups(gs) => assert_eq!(gs.len(), 0),
        Requirement::Universal => panic!("the empty input is not the universal requirement"),
    }
}

#[test]
fn whitespace_separated_versions_are_anded() {
    let req = parse("1.0.0 - 2.0.0").unwrap();
    let gs = groups_of(req);
    assert_eq!(gs.len(), 1);
    assert_eq!(gs[0].len(), 2);
}

#[test]
fn operator_variants_parse() {
    for (text, op) in [
        ("<1.0.0", Op::Less),
        ("<=1.0.0", Op::LessEq),
        (">1.0.0", Op::Greater),
        (">=1.0.0", Op::GreaterEq),
        ("=1.0.0", Op::Exact),
        ("~1.0.0", Op::Tilde),
        ("^1.0.0", Op::Caret),
    ] {
        let gs = groups_of(parse(text).unwrap());
        assert_eq!(gs[0][0].op, op, "operator of {:?}", text);
    }
}

#[test]
fn tilde_and_caret_match_like_npm() {
    let tilde = parse("~1.2.3").unwrap();
    assert!(requirement_matches(&tilde, &ver(1, 2, 9)));
    assert!(!requirement_matches(&tilde, &ver(1, 3, 0)));
    let caret = parse("^1.2.3").unwrap();
    assert!(requirement_matches(&caret, &ver(1, 9, 0)));
    assert!(!requirement_matches(&caret, &ver(2, 0, 0)));
}

#[test]
fn prerelease_versions_need_an_optin() {
    let req = parse(">=1.0.0").unwrap();
    let pre = SemVer { major: 1, minor: 5, patch: 0, pre: "rc.1".to_string() };
    assert!(!requirement_matches(&req, &pre));
    let opted = parse(">=1.5.0-alpha").unwrap();
    assert!(requirement_matches(&opted, &pre));
}

#[test]
fn empty_requirement_matches_nothing() {
    let req = parse("").unwrap();
    assert!(!requirement_matches(&req, &ver(1, 0, 0)));
    assert!(!requirement_matches(&req, &ver(0, 0, 0)));
}

#[test]
fn whitespace_before_the_prerelease_dash_is_accepted() {
    let req = parse("1.2.3 -alpha").unwrap();
    let gs = groups_of(req);
    assert_eq!(gs.len(), 1);
    assert_eq!(gs[0].len(), 1);
    assert_eq!(gs[0][0].pre, "alpha");
}

#[test]
fn doubled_dash_is_stripped_from_the_prerelease() {
    let req = parse("1.2.3--alpha").unwrap();
    let gs = groups_of(req);
    assert_eq!(gs[0][0].pre, "alpha");
}

#[test]
fn huge_major_is_rejected() {
    assert!(parse("18446744073709551616.0.0").is_err());
    assert!(parse("18446744073709551615.0.0").is_ok());
}
