use depcheck::constraint::{Constraint, Prefix};
use depcheck::status::{compare, status_or_unknown, Side, Status};
use depcheck::version::{parse_number, Identifier, Precedence, Version};

#[test]
fn older_declared_version_is_outdated() {
    assert_eq!(compare("17.0.0", "18.2.0").unwrap(), Status::Outdated);
    assert_eq!(compare("1.2.3", "1.2.4").unwrap(), Status::Outdated);
    assert_eq!(compare("1.2.3", "1.3.0").unwrap(), Status::Outdated);
}

#[test]
fn equal_versions_are_up_to_date() {
    assert_eq!(compare("1.0.0", "1.0.0").unwrap(), Status::UpToDate);
}

#[test]
fn later_declared_version_is_newer() {
    assert_eq!(compare("2.0.0", "1.9.9").unwrap(), Status::Newer);
}

#[test]
fn numbers_compare_by_value_not_by_digits() {
    assert_eq!(compare("1.10.0", "1.9.0").unwrap(), Status::Newer);
    assert_eq!(compare("1.9.0", "1.10.0").unwrap(), Status::Outdated);
}

#[test]
fn pre_release_precedes_its_release() {
    assert_eq!(compare("1.0.0-alpha", "1.0.0").unwrap(), Status::Outdated);
    assert_eq!(compare("1.0.0", "1.0.0-alpha").unwrap(), Status::Newer);
    assert_eq!(compare("1.0.0-alpha", "1.0.0-beta").unwrap(), Status::Outdated);
}

#[test]
fn operator_is_stripped_before_reading() {
    assert_eq!(compare("^17.0.0", "18.2.0").unwrap(), Status::Outdated);
    assert_eq!(compare("~1.0.0", "1.0.0").unwrap(), Status::UpToDate);
    assert_eq!(compare("^2.0.0", "1.0.0").unwrap(), Status::Newer);
}

#[test]
fn unreadable_current_is_reported() {
    let e = compare("^latest", "1.0.0").unwrap_err();
    assert_eq!(e.side, Side::Current);
    assert_eq!(e.text, "^latest");
}

#[test]
fn unreadable_latest_is_reported() {
    let e = compare("1.0.0", "unknown").unwrap_err();
    assert_eq!(e.side, Side::Latest);
    assert_eq!(e.text, "unknown");
}

#[test]
fn empty_text_is_no_version() {
    let e = compare("", "1.0.0").unwrap_err();
    assert_eq!(e.side, Side::Current);
    assert_eq!(e.text, "");
    let e = compare("1.0.0", "").unwrap_err();
    assert_eq!(e.side, Side::Latest);
    assert!(Version::parse("").is_none());
    assert!(Version::parse("*").is_none());
}

#[test]
fn text_that_lacks_a_number_is_no_version() {
    for text in ["1", "2.1", "1.2.", "1..3", ".1.2", "1.2.3.4", "v1.2.3", "1.2.x", " 1.0.0", "1.0.0 ", "1,0,0"] {
        assert!(Version::parse(text).is_none(), "{}", text);
        let e = compare(text, "1.0.0").unwrap_err();
        assert_eq!(e.side, Side::Current);
        assert_eq!(e.text, text);
    }
}

#[test]
fn ill_formed_pre_release_or_build_is_no_version() {
    for text in ["1.0.0-", "1.0.0+", "1.0.0-a..b", "1.0.0-.a", "1.0.0-a.", "1.0.0-\u{e4}", "1.0.0-a_b", "1.0.0+a_b", "1.0.0+a..b", "1.0.0-01", "1.0.0+a+b", "1.0.0-+b"] {
        assert!(Version::parse(text).is_none(), "{}", text);
    }
}

#[test]
fn numbers_must_be_in_range_and_bear_no_leading_zero() {
    assert_eq!(parse_number("0"), Some(0));
    assert_eq!(parse_number("18446744073709551615"), Some(u64::MAX));
    assert_eq!(parse_number("18446744073709551616"), None);
    assert_eq!(parse_number("99999999999999999999999"), None);
    assert_eq!(parse_number("007"), None);
    assert_eq!(parse_number(""), None);
    assert_eq!(parse_number("12a"), None);
    assert_eq!(parse_number("+1"), None);
    assert!(Version::parse("18446744073709551615.0.0").is_some());
    assert!(Version::parse("18446744073709551616.0.0").is_none());
    assert!(Version::parse("01.0.0").is_none());
    assert!(Version::parse("1.0.00").is_none());
}

#[test]
fn both_unreadable_reports_current() {
    let e = compare("abc", "def").unwrap_err();
    assert_eq!(e.side, Side::Current);
}

#[test]
fn unreadable_versions_classify_as_unknown() {
    assert_eq!(status_or_unknown("abc", "1.0.0"), Status::Unknown);
    assert_eq!(status_or_unknown("1.0.0", "abc"), Status::Unknown);
    assert_eq!(status_or_unknown("1.0.0", "1.0.1"), Status::Outdated);
}

#[test]
fn swapping_versions_inverts_the_status() {
    let pairs = [
        ("1.0.0", "2.0.0"),
        ("3.1.4", "3.1.4"),
        ("0.9.0", "0.1.0"),
        ("1.0.0-rc1", "1.0.0"),
        ("1.0.0-1", "1.0.0-a"),
        ("1.0.0-a.b", "1.0.0-a"),
        ("1.0.0+x", "1.0.0+y"),
    ];
    for (a, b) in pairs {
        let forth = compare(a, b).unwrap();
        let back = compare(b, a).unwrap();
        let expected = match forth {
            Status::Outdated => Status::Newer,
            Status::Newer => Status::Outdated,
            other => other,
        };
        assert_eq!(back, expected);
    }
}

#[test]
fn a_version_is_up_to_date_against_itself() {
    for v in ["0.0.1", "1.2.3", "10.20.30", "1.0.0-beta.2", "2.1.0+build.7", "1.0.0-x-y.0"] {
        assert_eq!(compare(v, v).unwrap(), Status::UpToDate);
    }
}

#[test]
fn parse_reads_every_part() {
    let v = Version::parse("1.20.3-beta.4+exp.sha-5114f85").unwrap();
    assert_eq!(v.major, 1);
    assert_eq!(v.minor, 20);
    assert_eq!(v.patch, 3);
    assert_eq!(v.pre, vec![Identifier::Text("beta".to_string()), Identifier::Numeric(4)]);
    assert_eq!(v.build, "exp.sha-5114f85");
    let plain = Version::parse("0.0.0").unwrap();
    assert_eq!((plain.major, plain.minor, plain.patch), (0, 0, 0));
    assert!(plain.pre.is_empty());
    assert_eq!(plain.build, "");
    let hyphens = Version::parse("1.0.0-a-b.--.0-1+c-d").unwrap();
    assert_eq!(
        hyphens.pre,
        vec![
            Identifier::Text("a-b".to_string()),
            Identifier::Text("--".to_string()),
            Identifier::Text("0-1".to_string()),
        ]
    );
    assert_eq!(hyphens.build, "c-d");
}

#[test]
fn pre_releases_stand_in_the_standard_order() {
    let ascending = [
        "1.0.0-alpha",
        "1.0.0-alpha.1",
        "1.0.0-alpha.beta",
        "1.0.0-beta",
        "1.0.0-beta.2",
        "1.0.0-beta.11",
        "1.0.0-rc.1",
        "1.0.0",
        "1.0.1-0",
        "1.0.1",
    ];
    for i in 0..ascending.len() {
        for j in 0..ascending.len() {
            let a = Version::parse(ascending[i]).unwrap();
            let b = Version::parse(ascending[j]).unwrap();
            let expected = if i < j {
                Precedence::Lower
            } else if i > j {
                Precedence::Higher
            } else {
                Precedence::Same
            };
            assert_eq!(a.precedence(&b), expected, "{} against {}", ascending[i], ascending[j]);
        }
    }
}

#[test]
fn numeric_pre_release_precedes_its_release() {
    assert_eq!(compare("1.0.0-1", "1.0.0").unwrap(), Status::Outdated);
    assert_eq!(compare("1.0.0-0", "1.0.0").unwrap(), Status::Outdated);
    assert_eq!(compare("1.0.0", "1.0.0-1").unwrap(), Status::Newer);
    assert_eq!(compare("1.0.0-2", "1.0.0-10").unwrap(), Status::Outdated);
    assert_eq!(compare("1.0.0-9", "1.0.0-a").unwrap(), Status::Outdated);
}

#[test]
fn build_metadata_has_no_part_in_the_order() {
    assert_eq!(compare("1.0.0+build", "1.0.0").unwrap(), Status::UpToDate);
    assert_eq!(compare("1.0.0", "1.0.0+build.5").unwrap(), Status::UpToDate);
    assert_eq!(compare("1.0.0+a", "1.0.0+b").unwrap(), Status::UpToDate);
    assert_eq!(compare("1.0.0-rc.1+a", "1.0.0+b").unwrap(), Status::Outdated);
    assert_eq!(compare("1.0.0+zzz", "1.0.1").unwrap(), Status::Outdated);
}

#[test]
fn flip_reverses_precedence() {
    assert_eq!(Precedence::Lower.flip(), Precedence::Higher);
    assert_eq!(Precedence::Higher.flip(), Precedence::Lower);
    assert_eq!(Precedence::Same.flip(), Precedence::Same);
}

#[test]
fn constraint_remembers_operator() {
    let c = Constraint::parse("^17.0.0");
    assert_eq!(c.prefix, Prefix::Caret);
    assert_eq!(c.version, "17.0.0");
    let t = Constraint::parse("~1.2.3");
    assert_eq!(t.prefix, Prefix::Tilde);
    assert_eq!(t.version, "1.2.3");
    let e = Constraint::parse("1.2.3");
    assert_eq!(e.prefix, Prefix::Exact);
    assert_eq!(e.version, "1.2.3");
    let empty = Constraint::parse("");
    assert_eq!(empty.prefix, Prefix::Exact);
    assert_eq!(empty.version, "");
}

#[test]
fn only_one_operator_is_split_off() {
    let c = Constraint::parse("^~1.0.0");
    assert_eq!(c.prefix, Prefix::Caret);
    assert_eq!(c.version, "~1.0.0");
}

#[test]
fn stripping_keeps_the_version() {
    for v in ["1.0.0", "17.0.0", "0.3.1-rc.1"] {
        let caret = Constraint::parse(&format!("^{}", v));
        let tilde = Constraint::parse(&format!("~{}", v));
        let plain = Constraint::parse(v);
        assert_eq!(caret.version, v);
        assert_eq!(tilde.version, v);
        assert_eq!(plain.version, v);
    }
}

#[test]
fn rewritten_keeps_the_operator() {
    assert_eq!(Constraint::parse("^17.0.0").rewritten("18.2.0"), "^18.2.0");
    assert_eq!(Constraint::parse("~17.0.0").rewritten("18.2.0"), "~18.2.0");
    assert_eq!(Constraint::parse("17.0.0").rewritten("18.2.0"), "18.2.0");
}

#[test]
fn status_labels() {
    assert_eq!(Status::Outdated.label(), "Outdated");
    assert_eq!(Status::UpToDate.label(), "Up to date");
    assert_eq!(Status::Newer.label(), "Newer than latest");
    assert_eq!(Status::Unknown.label(), "Unknown");
}

#[test]
fn status_colours() {
    assert_eq!(Status::Outdated.colorized(), "\x1b[31mOutdated\x1b[39m");
    assert_eq!(Status::UpToDate.colorized(), "\x1b[32mUp to date\x1b[39m");
    assert_eq!(Status::Newer.colorized(), "\x1b[33mNewer than latest\x1b[39m");
    assert_eq!(Status::Unknown.colorized(), "Unknown");
}

fn as_precedence(c: version_compare::Cmp) -> Precedence {
    match c {
        version_compare::Cmp::Lt => Precedence::Lower,
        version_compare::Cmp::Eq => Precedence::Same,
        version_compare::Cmp::Gt => Precedence::Higher,
        other => panic!("no order: {:?}", other),
    }
}

#[test]
fn releases_are_ordered_as_version_compare_orders_them() {
    let versions = [
        "0.0.0", "0.0.1", "0.1.0", "0.9.0", "0.10.0", "1.0.0", "1.0.1", "1.2.3", "1.10.0", "2.0.0",
        "10.0.0", "17.0.0", "18.2.0", "4.17.21",
    ];
    for a in versions {
        for b in versions {
            let ours = Version::parse(a).unwrap().precedence(&Version::parse(b).unwrap());
            let theirs = version_compare::Version::from(a)
                .unwrap()
                .compare(version_compare::Version::from(b).unwrap());
            assert_eq!(ours, as_precedence(theirs));
        }
    }
}

#[test]
fn text_parts_go_by_their_characters() {
    assert_eq!(compare("1.0.0-alpha", "1.0.0-Alpha").unwrap(), Status::Newer);
    assert_eq!(compare("1.0.0-Alpha", "1.0.0-alpha").unwrap(), Status::Outdated);
    assert_eq!(compare("1.0.0-rc", "1.0.0-rc1").unwrap(), Status::Outdated);
}
