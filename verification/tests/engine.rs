use depcheck::engine::{check_all, check_version, dependencies_version_check};
use depcheck::pool::{DependencyRequest, PoolError, Section};
use depcheck::registry::Reply;
use depcheck::status::Status;

fn request(name: &str, constraint: &str) -> DependencyRequest {
    DependencyRequest {
        name: name.to_string(),
        declared_constraint: constraint.to_string(),
        section: Section::Dependencies,
    }
}

fn latest(version: &str) -> Reply {
    Reply::Answered { status: 200, body: format!("{{\"distTags\":{{\"latest\":\"{}\"}}}}", version) }
}

fn requests() -> Vec<DependencyRequest> {
    vec![
        request("left-pad", "1.0.0"),
        request("react", "^17.0.0"),
        request("ghost-pkg", "0.0.1"),
        request("lodash", "~4.17.21"),
        request("next", "99.0.0"),
    ]
}

fn replies() -> Vec<Reply> {
    vec![
        latest("1.0.0"),
        latest("18.2.0"),
        Reply::Answered { status: 404, body: String::new() },
        latest("4.17.21"),
        latest("14.0.0"),
    ]
}

#[test]
fn check_all_classifies_each_request_in_order() {
    let report = check_all(requests(), 3, &replies()).unwrap();
    let seen: Vec<(&str, Status)> = report.rows.iter().map(|e| (e.name.as_str(), e.status)).collect();
    assert_eq!(
        seen,
        vec![
            ("left-pad", Status::UpToDate),
            ("react", Status::Outdated),
            ("ghost-pkg", Status::Unknown),
            ("lodash", Status::UpToDate),
            ("next", Status::Newer),
        ]
    );
    assert_eq!(report.outdated_labels(), vec!["react(17.0.0 -> 18.2.0)".to_string()]);
}

#[test]
fn check_all_gives_the_same_report_for_every_limit() {
    let first = check_all(requests(), 1, &replies()).unwrap();
    for limit in 2..=8 {
        assert_eq!(check_all(requests(), limit, &replies()).unwrap(), first);
    }
}

#[test]
fn check_all_refuses_a_zero_limit() {
    assert_eq!(check_all(requests(), 0, &replies()), Err(PoolError::NoCapacity));
}

#[test]
fn both_checks_draw_the_same_table() {
    let deps = vec![
        ("left-pad".to_string(), "1.0.0".to_string()),
        ("react".to_string(), "^17.0.0".to_string()),
    ];
    let answers = vec![latest("1.0.0"), latest("18.2.0")];
    let buffered = check_version(deps.clone(), &answers);
    let in_turn = dependencies_version_check(deps, &answers);
    assert_eq!(buffered, in_turn);
    assert!(buffered.contains("react"));
    assert!(buffered.contains("17.0.0"));
    assert!(buffered.contains("\x1b[31mOutdated\x1b[39m"));
    assert!(buffered.contains("\x1b[32mUp to date\x1b[39m"));
    let mut builder = tabled::builder::Builder::default();
    builder.set_header(["Name", "Current", "Latest", "Status"]);
    builder.push_record(["left-pad", "1.0.0", "1.0.0", "\x1b[32mUp to date\x1b[39m"]);
    builder.push_record(["react", "17.0.0", "18.2.0", "\x1b[31mOutdated\x1b[39m"]);
    assert_eq!(buffered, builder.build().to_string());
    assert!(buffered.starts_with('+'));
}

#[test]
fn check_of_nothing_draws_only_the_header() {
    let table = check_version(Vec::new(), &Vec::new());
    assert_eq!(table.lines().count(), 3);
    assert!(table.contains("Name"));
}
