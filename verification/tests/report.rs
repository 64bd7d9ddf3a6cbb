use depcheck::constraint::Prefix;
use depcheck::pool::{lookup_result, run_all, DependencyRequest, LookupResult, Section};
use depcheck::registry::{FetchError, Reply};
use depcheck::report::{build, get_report_table, ClassifiedEntry, TableStyle};
use depcheck::status::Status;
use depcheck::utils::strip_ansi;

fn request(name: &str, constraint: &str) -> DependencyRequest {
    DependencyRequest {
        name: name.to_string(),
        declared_constraint: constraint.to_string(),
        section: Section::Dependencies,
    }
}

fn latest(version: &str) -> Reply {
    Reply::Answered { status: 200, body: format!("{{\"distTags\":{{\"latest\":\"{}\"}}}}", version) }
}

fn not_found() -> Reply {
    Reply::Answered { status: 404, body: "{\"error\":\"Not found\"}".to_string() }
}

fn found(index: usize, name: &str, constraint: &str, version: &str) -> LookupResult {
    lookup_result(&request(name, constraint), index, &latest(version))
}

fn row(e: &ClassifiedEntry) -> (String, String, String, Status) {
    (e.name.clone(), e.declared_constraint.version.clone(), e.latest_version.clone(), e.status)
}

fn shown(name: &str, declared: &str, latest: &str, status: Status) -> (String, String, String, Status) {
    (name.to_string(), declared.to_string(), latest.to_string(), status)
}

#[test]
fn left_pad_and_react() {
    let requests = vec![request("left-pad", "1.0.0"), request("react", "^17.0.0")];
    let replies = vec![latest("1.0.0"), latest("18.2.0")];
    let report = build(&run_all(requests, 2, &replies).unwrap());
    let rows: Vec<_> = report.rows.iter().map(row).collect();
    assert_eq!(
        rows,
        vec![
            shown("left-pad", "1.0.0", "1.0.0", Status::UpToDate),
            shown("react", "17.0.0", "18.2.0", Status::Outdated),
        ]
    );
    assert_eq!(report.outdated_labels(), vec!["react(17.0.0 -> 18.2.0)".to_string()]);
    assert_eq!(report.rows[1].declared_constraint.prefix, Prefix::Caret);
    assert_eq!(report.rows[0].declared_constraint.prefix, Prefix::Exact);
}

#[test]
fn package_that_is_not_found_keeps_its_row() {
    let requests = vec![request("left-pad", "1.0.0"), request("ghost-pkg", "1.2.3"), request("react", "^17.0.0")];
    let replies = vec![latest("1.0.0"), not_found(), latest("18.2.0")];
    let report = build(&run_all(requests, 3, &replies).unwrap());
    assert_eq!(report.rows.len(), 3);
    assert_eq!(row(&report.rows[0]), shown("left-pad", "1.0.0", "1.0.0", Status::UpToDate));
    assert_eq!(row(&report.rows[1]), shown("ghost-pkg", "1.2.3", "", Status::Unknown));
    assert_eq!(report.rows[1].failure, Some(FetchError::NotFound));
    assert_eq!(row(&report.rows[2]), shown("react", "17.0.0", "18.2.0", Status::Outdated));
    assert_eq!(report.rows[2].failure, None);
    assert_eq!(report.outdated.len(), 1);
    assert_eq!(report.outdated[0].name, "react");
}

#[test]
fn transport_failure_and_malformed_body_keep_their_rows() {
    let requests = vec![request("a", "1.0.0"), request("b", "1.0.0"), request("c", "1.0.0")];
    let replies = vec![
        Reply::Failed,
        Reply::Answered { status: 200, body: "not json".to_string() },
        latest("1.0.1"),
    ];
    let report = build(&run_all(requests, 1, &replies).unwrap());
    assert_eq!(report.rows[0].status, Status::Unknown);
    assert_eq!(report.rows[0].failure, Some(FetchError::Transport));
    assert_eq!(report.rows[1].status, Status::Unknown);
    assert_eq!(report.rows[1].failure, Some(FetchError::Malformed));
    assert_eq!(report.rows[2].status, Status::Outdated);
}

#[test]
fn unreadable_version_is_unknown() {
    let results = vec![found(0, "a", "latest", "1.0.0"), found(1, "b", "1.0.0", "stable"), found(2, "c", "*", "1.0.0")];
    let report = build(&results);
    assert_eq!(report.rows[0].status, Status::Unknown);
    assert_eq!(report.rows[0].failure, None);
    assert_eq!(report.rows[0].latest_version, "1.0.0");
    assert_eq!(report.rows[1].status, Status::Unknown);
    assert_eq!(report.rows[2].status, Status::Unknown);
    assert!(report.outdated.is_empty());
}

#[test]
fn rows_keep_request_order_when_results_come_reversed() {
    let forward = vec![
        found(0, "a", "1.0.0", "2.0.0"),
        found(1, "b", "1.0.0", "1.0.0"),
        found(2, "c", "3.0.0", "2.0.0"),
        found(3, "d", "^0.1.0", "0.2.0"),
    ];
    let mut backward = vec![
        found(0, "a", "1.0.0", "2.0.0"),
        found(1, "b", "1.0.0", "1.0.0"),
        found(2, "c", "3.0.0", "2.0.0"),
        found(3, "d", "^0.1.0", "0.2.0"),
    ];
    backward.reverse();
    let a = build(&forward);
    let b = build(&backward);
    assert_eq!(a, b);
    let names: Vec<&str> = b.rows.iter().map(|e| e.name.as_str()).collect();
    assert_eq!(names, vec!["a", "b", "c", "d"]);
    let statuses: Vec<Status> = b.rows.iter().map(|e| e.status).collect();
    assert_eq!(statuses, vec![Status::Outdated, Status::UpToDate, Status::Newer, Status::Outdated]);
}

#[test]
fn rows_keep_request_order_when_results_come_shuffled() {
    let shuffled = vec![
        found(2, "c", "3.0.0", "2.0.0"),
        found(0, "a", "1.0.0", "2.0.0"),
        found(3, "d", "^0.1.0", "0.2.0"),
        found(1, "b", "1.0.0", "1.0.0"),
    ];
    let report = build(&shuffled);
    let names: Vec<&str> = report.rows.iter().map(|e| e.name.as_str()).collect();
    assert_eq!(names, vec!["a", "b", "c", "d"]);
}

#[test]
fn partial_results_are_ordered_by_their_place() {
    let partial = vec![found(7, "h", "1.0.0", "1.0.0"), found(2, "c", "1.0.0", "1.0.0"), found(4, "e", "1.0.0", "1.0.0")];
    let report = build(&partial);
    let names: Vec<&str> = report.rows.iter().map(|e| e.name.as_str()).collect();
    assert_eq!(names, vec!["c", "e", "h"]);
}

#[test]
fn results_with_the_same_place_keep_their_arrival_order() {
    let twice = vec![found(1, "late", "1.0.0", "1.0.0"), found(0, "x", "1.0.0", "1.0.0"), found(0, "y", "1.0.0", "1.0.0")];
    let report = build(&twice);
    let names: Vec<&str> = report.rows.iter().map(|e| e.name.as_str()).collect();
    assert_eq!(names, vec!["x", "y", "late"]);
}

#[test]
fn outdated_is_the_outdated_rows_in_their_order() {
    let results = vec![
        found(4, "e", "1.0.0", "1.1.0"),
        found(1, "b", "1.0.0", "1.0.0"),
        found(3, "d", "2.0.0", "1.0.0"),
        found(0, "a", "~1.0.0", "2.0.0"),
        found(2, "c", "0.9.0", "0.10.0"),
    ];
    let report = build(&results);
    let expected: Vec<ClassifiedEntry> =
        report.rows.iter().filter(|e| e.status == Status::Outdated).cloned().collect();
    assert_eq!(report.outdated, expected);
    let names: Vec<&str> = report.outdated.iter().map(|e| e.name.as_str()).collect();
    assert_eq!(names, vec!["a", "c", "e"]);
    assert_eq!(
        report.outdated_labels(),
        vec!["a(1.0.0 -> 2.0.0)".to_string(), "c(0.9.0 -> 0.10.0)".to_string(), "e(1.0.0 -> 1.1.0)".to_string()]
    );
}

#[test]
fn empty_results_make_an_empty_report() {
    let report = build(&Vec::new());
    assert!(report.rows.is_empty());
    assert!(report.outdated.is_empty());
    assert!(report.outdated_labels().is_empty());
}

#[test]
fn entry_duplicate_is_equal() {
    let entry = ClassifiedEntry::from_lookup(&found(0, "react", "^17.0.0", "18.2.0"));
    assert_eq!(entry.duplicate(), entry);
    assert_eq!(entry.section, Section::Dependencies);
}

#[test]
fn colorized_label_paints_name_and_versions() {
    let entry = ClassifiedEntry::from_lookup(&found(0, "react", "^17.0.0", "18.2.0"));
    assert_eq!(entry.label(), "react(17.0.0 -> 18.2.0)");
    assert_eq!(
        entry.colorized_label(),
        "\x1b[33mreact\x1b[39m\x1b[2m(\x1b[0m\x1b[2m17.0.0\x1b[0m \x1b[2m->\x1b[0m \x1b[2m18.2.0\x1b[0m\x1b[2m)\x1b[0m"
    );
    assert_eq!(strip_ansi(&entry.colorized_label()), entry.label());
}

#[test]
fn records_hold_header_and_rows() {
    let report = build(&vec![found(1, "react", "^17.0.0", "18.2.0"), found(0, "left-pad", "1.0.0", "1.0.0")]);
    let records = report.records();
    assert_eq!(
        records,
        vec![
            vec!["Name".to_string(), "Current".to_string(), "Latest".to_string(), "Status".to_string()],
            vec!["left-pad".to_string(), "1.0.0".to_string(), "1.0.0".to_string(), "\x1b[32mUp to date\x1b[39m".to_string()],
            vec!["react".to_string(), "17.0.0".to_string(), "18.2.0".to_string(), "\x1b[31mOutdated\x1b[39m".to_string()],
        ]
    );
}

#[test]
fn table_is_drawn_from_the_records() {
    let report = build(&vec![found(1, "react", "^17.0.0", "18.2.0"), found(0, "left-pad", "1.0.0", "1.0.0")]);
    let mut builder = tabled::builder::Builder::default();
    for record in report.records() {
        builder.push_record(record);
    }
    let expected = builder.build().with(tabled::settings::Style::modern()).to_string();
    let table = report.table(TableStyle::Modern);
    assert_eq!(table, expected);
    assert_ne!(report.table(TableStyle::Plain), table);
    assert!(table.starts_with('\u{250c}'));
    assert_eq!(table.lines().count(), 7);
    assert!(table.contains("left-pad"));
    assert!(table.contains("Latest"));
}

#[test]
fn report_table_lists_outdated_for_choosing() {
    let results = vec![found(1, "react", "^17.0.0", "18.2.0"), found(0, "left-pad", "1.0.0", "1.0.0")];
    let shown = get_report_table(&results);
    let report = build(&results);
    assert_eq!(shown.table, report.table(TableStyle::Modern));
    assert_eq!(shown.outdated_deps, report.colorized_labels());
    assert_eq!(shown.outdated_deps.len(), 1);
    assert_eq!(strip_ansi(&shown.outdated_deps[0]), "react(17.0.0 -> 18.2.0)");
}
