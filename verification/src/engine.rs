//! A whole run: from the declared dependencies and the registry's replies
//! to the report.

use vstd::prelude::*;
use crate::pool::{
    lookup_models, lookup_of, reply_at, reply_models, request_models, run_all, DependencyRequest,
    PoolError, RequestModel, Section,
};
use crate::registry::{Reply, ReplyModel};
use crate::report::{
    build, entry_models, entry_of, lemma_rows_follow_requests, outdated_of, table_records,
    table_text, EntryModel, Report, TableStyle,
};

verus! {

/// The rows of a run: for each request, in the order of the requests, the
/// row that the reply to it makes.
pub open spec fn rows_for(requests: Seq<RequestModel>, replies: Seq<ReplyModel>) -> Seq<EntryModel> {
    Seq::new(requests.len(), |i: int| entry_of(lookup_of(requests[i], i, reply_at(replies, i))))
}

/// Runs the lookups of `requests` through a pool with the given limit, with
/// `replies[i]` as the reply to the lookup of `requests[i]`, and builds the
/// report. The limit decides in which order the results come, and nothing
/// else: the report is the same for every limit of at least one.
pub fn check_all(requests: Vec<DependencyRequest>, limit: usize, replies: &Vec<Reply>) -> (r: Result<
    Report,
    PoolError,
>)
    ensures
        limit == 0 <==> r.is_err(),
        r matches Ok(report) ==> entry_models(report.rows@) == rows_for(
            request_models(requests@),
            reply_models(replies@),
        ) && entry_models(report.outdated@) == outdated_of(entry_models(report.rows@)),
{
    let ghost asked = request_models(requests@);
    match run_all(requests, limit, replies) {
        Ok(results) => {
            proof {
                lemma_rows_follow_requests(lookup_models(results@), asked, reply_models(replies@));
            }
            Ok(build(&results))
        },
        Err(e) => Err(e),
    }
}

/// The requests that a list of names and declared versions asks for.
pub open spec fn listed_requests(deps_list: Seq<(String, String)>) -> Seq<RequestModel> {
    deps_list.map_values(
        |d: (String, String)|
            RequestModel { name: d.0@, declared_constraint: d.1@, section: Section::Dependencies },
    )
}

fn requests_from(deps_list: Vec<(String, String)>) -> (requests: Vec<DependencyRequest>)
    ensures
        request_models(requests@) == listed_requests(deps_list@),
{
    let mut requests: Vec<DependencyRequest> = Vec::new();
    let mut i: usize = 0;
    while i < deps_list.len()
        invariant
            i <= deps_list.len(),
            requests.len() == i,
            forall|j: int|
                0 <= j < i ==> (#[trigger] requests[j])@ == listed_requests(deps_list@)[j],
        decreases deps_list.len() - i,
    {
        requests.push(
            DependencyRequest {
                name: deps_list[i].0.clone(),
                declared_constraint: deps_list[i].1.clone(),
                section: Section::Dependencies,
            },
        );
        i += 1;
    }
    assert(request_models(requests@) =~= listed_requests(deps_list@));
    requests
}

/// The most lookups that [`check_version`] keeps under way.
pub const CHECK_LIMIT: usize = 10;

/// Checks a list of names and declared versions ten at a time and lays the
/// rows out as a table in the plain style, under the header.
pub fn check_version(deps_list: Vec<(String, String)>, replies: &Vec<Reply>) -> (table: String)
    ensures
        table@ == table_text(
            TableStyle::Plain,
            table_records(rows_for(listed_requests(deps_list@), reply_models(replies@))),
        ),
{
    let requests = requests_from(deps_list);
    match check_all(requests, CHECK_LIMIT, replies) {
        Ok(report) => report.table(TableStyle::Plain),
        Err(_) => {
            assert(false);
            String::new()
        },
    }
}

/// Checks a list of names and declared versions one after the other and
/// lays the rows out as a table in the plain style, under the header.
pub fn dependencies_version_check(deps_list: Vec<(String, String)>, replies: &Vec<Reply>) -> (table:
    String)
    ensures
        table@ == table_text(
            TableStyle::Plain,
            table_records(rows_for(listed_requests(deps_list@), reply_models(replies@))),
        ),
{
    let requests = requests_from(deps_list);
    match check_all(requests, 1, replies) {
        Ok(report) => report.table(TableStyle::Plain),
        Err(_) => {
            assert(false);
            String::new()
        },
    }
}

} // verus!
