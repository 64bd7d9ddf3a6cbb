use depcheck::registry::{
    fetch_outcome, fetch_outcome_at, interpret, package_url, read_latest_tag, FetchError, Reply,
    DEFAULT_REGISTRY, LATEST_POINTER,
};

fn answered(status: u16, body: &str) -> Reply {
    Reply::Answered { status, body: body.to_string() }
}

#[test]
fn url_of_a_plain_name() {
    assert_eq!(package_url(DEFAULT_REGISTRY, "left-pad"), "https://registry.npmjs.org/left-pad");
    assert_eq!(package_url("http://localhost:4873/", "lodash.merge"), "http://localhost:4873/lodash.merge");
}

#[test]
fn url_escapes_the_slash_of_a_scoped_name() {
    assert_eq!(package_url(DEFAULT_REGISTRY, "@babel/core"), "https://registry.npmjs.org/@babel%2Fcore");
}

#[test]
fn url_escapes_what_is_not_plain() {
    assert_eq!(package_url("r/", "a b"), "r/a%20b");
    assert_eq!(package_url("r/", "a?b#c"), "r/a%3Fb%23c");
    assert_eq!(package_url("r/", "100%"), "r/100%25");
    assert_eq!(package_url("r/", "~x_y.z-0"), "r/~x_y.z-0");
}

#[test]
fn url_escapes_each_byte_of_a_character() {
    assert_eq!(package_url("r/", "caf\u{e9}"), "r/caf%C3%A9");
    assert_eq!(package_url("r/", "\u{20ac}"), "r/%E2%82%AC");
    assert_eq!(package_url("r/", "\u{1f600}"), "r/%F0%9F%98%80");
}

#[test]
fn url_of_an_empty_name_is_the_base() {
    assert_eq!(package_url("base/", ""), "base/");
}

#[test]
fn no_answer_is_a_transport_failure() {
    assert_eq!(fetch_outcome(&Reply::Failed), Err(FetchError::Transport));
}

#[test]
fn not_found_status_is_not_found() {
    assert_eq!(fetch_outcome(&answered(404, "{\"error\":\"Not found\"}")), Err(FetchError::NotFound));
    assert_eq!(fetch_outcome(&answered(404, "")), Err(FetchError::NotFound));
}

#[test]
fn ok_status_gives_the_latest_tag() {
    let body = "{\"name\":\"react\",\"distTags\":{\"latest\":\"18.2.0\",\"next\":\"19.0.0-rc.1\"}}";
    assert_eq!(fetch_outcome(&answered(200, body)), Ok("18.2.0".to_string()));
    let spaced = "{\"distTags\": {\"latest\": \"18.2.0\"}}";
    assert_eq!(fetch_outcome(&answered(200, spaced)), Ok("18.2.0".to_string()));
}

#[test]
fn body_that_is_no_json_is_malformed() {
    assert_eq!(fetch_outcome(&answered(200, "<html>oops</html>")), Err(FetchError::Malformed));
    assert_eq!(fetch_outcome(&answered(200, "")), Err(FetchError::Malformed));
}

#[test]
fn body_without_the_tag_is_malformed() {
    assert_eq!(fetch_outcome(&answered(200, "{\"name\":\"react\"}")), Err(FetchError::Malformed));
    assert_eq!(fetch_outcome(&answered(200, "{\"distTags\":{}}")), Err(FetchError::Malformed));
    assert_eq!(fetch_outcome(&answered(200, "{\"distTags\":{\"latest\":3}}")), Err(FetchError::Malformed));
    assert_eq!(fetch_outcome(&answered(200, "{\"distTags\":{\"latest\":null}}")), Err(FetchError::Malformed));
    assert_eq!(fetch_outcome(&answered(200, "{\"latest\":\"1.0.0\"}")), Err(FetchError::Malformed));
    assert_eq!(fetch_outcome(&answered(200, "[1,2,3]")), Err(FetchError::Malformed));
}

#[test]
fn tag_under_another_key_is_not_read() {
    let body = "{\"dist-tags\":{\"latest\":\"1.0.0\"}}";
    assert_eq!(fetch_outcome(&answered(200, body)), Err(FetchError::Malformed));
    assert_eq!(read_latest_tag(body), None);
}

#[test]
fn other_status_is_malformed() {
    let body = "{\"distTags\":{\"latest\":\"1.0.0\"}}";
    assert_eq!(fetch_outcome(&answered(500, body)), Err(FetchError::Malformed));
    assert_eq!(fetch_outcome(&answered(301, body)), Err(FetchError::Malformed));
}

#[test]
fn interpret_decides_by_status_and_tag() {
    assert_eq!(interpret(&Reply::Failed, Some("1.0.0".to_string())), Err(FetchError::Transport));
    assert_eq!(interpret(&answered(404, ""), Some("1.0.0".to_string())), Err(FetchError::NotFound));
    assert_eq!(interpret(&answered(200, ""), Some("1.0.0".to_string())), Ok("1.0.0".to_string()));
    assert_eq!(interpret(&answered(200, ""), None), Err(FetchError::Malformed));
    assert_eq!(interpret(&answered(503, ""), Some("1.0.0".to_string())), Err(FetchError::Malformed));
}

#[test]
fn read_latest_tag_gives_the_text_without_quotes() {
    assert_eq!(read_latest_tag("{\"distTags\":{\"latest\":\"18.2.0\"}}"), Some("18.2.0".to_string()));
    assert_eq!(LATEST_POINTER, "/distTags/latest");
}

#[test]
fn outcome_at_a_pointer_reads_that_place() {
    let npm = "{\"dist-tags\":{\"latest\":\"1.0.0\"},\"distTags\":{\"latest\":\"2.0.0\"}}";
    assert_eq!(fetch_outcome_at(&answered(200, npm), "/dist-tags/latest"), Ok("1.0.0".to_string()));
    assert_eq!(fetch_outcome_at(&answered(200, npm), LATEST_POINTER), Ok("2.0.0".to_string()));
    assert_eq!(fetch_outcome_at(&answered(200, npm), "/versions/latest"), Err(FetchError::Malformed));
    assert_eq!(fetch_outcome_at(&answered(200, npm), "no pointer"), Err(FetchError::Malformed));
    assert_eq!(fetch_outcome_at(&answered(404, npm), "/dist-tags/latest"), Err(FetchError::NotFound));
    assert_eq!(fetch_outcome_at(&Reply::Failed, "/dist-tags/latest"), Err(FetchError::Transport));
}
