//! The report: one row for each lookup, in the order of the requests.

use vstd::prelude::*;
use vstd::string::StringExecFns;
use crate::constraint::{bare_version, prefix_of, Constraint, Prefix};
use crate::paint::{dimmed, paint_dimmed, paint_yellow, yellow};
use crate::pool::{
    answers, covers, distinct, indices_of, lookup_models, lookup_of, reply_at, LookupModel,
    LookupResult, RequestModel, Section,
};
use crate::registry::{FetchError, ReplyModel};
use crate::status::{status_between, status_or_unknown, Status};

verus! {

/// `x` put into `sorted` behind every result whose index is not greater
/// than its own.
pub open spec fn inserted(sorted: Seq<LookupModel>, x: LookupModel) -> Seq<LookupModel>
    decreases sorted.len(),
{
    if sorted.len() == 0 {
        seq![x]
    } else if x.index < sorted.last().index {
        inserted(sorted.drop_last(), x).push(sorted.last())
    } else {
        sorted.push(x)
    }
}

/// The results by ascending index. Results with the same index keep the
/// order in which they came.
pub open spec fn ordered(results: Seq<LookupModel>) -> Seq<LookupModel>
    decreases results.len(),
{
    if results.len() == 0 {
        Seq::empty()
    } else {
        inserted(ordered(results.drop_last()), results.last())
    }
}

/// Where [`inserted`] puts `x`.
pub open spec fn insertion_point(sorted: Seq<LookupModel>, x: LookupModel) -> int
    decreases sorted.len(),
{
    if sorted.len() == 0 {
        0
    } else if x.index < sorted.last().index {
        insertion_point(sorted.drop_last(), x)
    } else {
        sorted.len() as int
    }
}

/// The indices never descend.
pub open spec fn ascending(results: Seq<LookupModel>) -> bool {
    forall|a: int, b: int| 0 <= a < b < results.len() ==> results[a].index <= results[b].index
}

/// [`inserted`] puts `x` at `p` where all from `p` on have a greater index
/// and the one before `p`, if there is one, has not.
pub proof fn lemma_inserted_at(sorted: Seq<LookupModel>, x: LookupModel, p: int)
    requires
        0 <= p <= sorted.len(),
        forall|k: int| p <= k < sorted.len() ==> x.index < sorted[k].index,
        p > 0 ==> sorted[p - 1].index <= x.index,
    ensures
        inserted(sorted, x) == sorted.insert(p, x),
    decreases sorted.len(),
{
    if sorted.len() == 0 {
        assert(seq![x] =~= sorted.insert(p, x));
    } else if p == sorted.len() {
        assert(sorted.push(x) =~= sorted.insert(p, x));
    } else {
        lemma_inserted_at(sorted.drop_last(), x, p);
        assert(sorted.drop_last().insert(p, x).push(sorted.last()) =~= sorted.insert(p, x));
    }
}

/// [`insertion_point`] is the place that [`lemma_inserted_at`] asks for.
pub proof fn lemma_insertion_point(sorted: Seq<LookupModel>, x: LookupModel)
    ensures
        0 <= insertion_point(sorted, x) <= sorted.len(),
        forall|k: int| insertion_point(sorted, x) <= k < sorted.len() ==> x.index < sorted[k].index,
        insertion_point(sorted, x) > 0 ==> sorted[insertion_point(sorted, x) - 1].index <= x.index,
        inserted(sorted, x) == sorted.insert(insertion_point(sorted, x), x),
    decreases sorted.len(),
{
    let p = insertion_point(sorted, x);
    if sorted.len() > 0 && x.index < sorted.last().index {
        let front = sorted.drop_last();
        lemma_insertion_point(front, x);
        assert forall|k: int| p <= k < sorted.len() implies x.index < sorted[k].index by {
            if k < front.len() {
                assert(front[k] == sorted[k]);
            }
        }
        if p > 0 {
            assert(front[p - 1] == sorted[p - 1]);
        }
    }
    lemma_inserted_at(sorted, x, p);
}

/// Ordering keeps the length and the results themselves.
pub proof fn lemma_ordered_members(results: Seq<LookupModel>)
    ensures
        ordered(results).len() == results.len(),
        forall|k: int| 0 <= k < results.len() ==> results.contains(#[trigger] ordered(results)[k]),
        forall|j: int| 0 <= j < results.len() ==> ordered(results).contains(#[trigger] results[j]),
    decreases results.len(),
{
    if results.len() > 0 {
        let front = results.drop_last();
        let x = results.last();
        let t = ordered(front);
        let p = insertion_point(t, x);
        let u = ordered(results);
        lemma_ordered_members(front);
        lemma_insertion_point(t, x);
        assert(u == t.insert(p, x));
        assert forall|k: int| 0 <= k < results.len() implies results.contains(#[trigger] u[k]) by {
            if k == p {
                assert(results[results.len() - 1] == x);
            } else {
                let o = if k < p {
                    k
                } else {
                    k - 1
                };
                assert(u[k] == t[o]);
                assert(front.contains(t[o]));
                let w = choose|w: int| 0 <= w < front.len() && front[w] == t[o];
                assert(results[w] == t[o]);
            }
        }
        assert forall|j: int| 0 <= j < results.len() implies u.contains(#[trigger] results[j]) by {
            if j == results.len() - 1 {
                assert(u[p] == x);
            } else {
                assert(front[j] == results[j]);
                assert(t.contains(front[j]));
                let w = choose|w: int| 0 <= w < t.len() && t[w] == front[j];
                let n = if w < p {
                    w
                } else {
                    w + 1
                };
                assert(u[n] == t[w]);
            }
        }
    }
}

/// Ordered results have ascending indices.
pub proof fn lemma_ordered_ascending(results: Seq<LookupModel>)
    ensures
        ascending(ordered(results)),
    decreases results.len(),
{
    if results.len() > 0 {
        let front = results.drop_last();
        let x = results.last();
        let t = ordered(front);
        let p = insertion_point(t, x);
        let u = ordered(results);
        lemma_ordered_ascending(front);
        lemma_insertion_point(t, x);
        assert(u == t.insert(p, x));
        assert forall|a: int, b: int| 0 <= a < b < u.len() implies u[a].index <= u[b].index by {
            if a == p {
                assert(u[b] == t[b - 1]);
            } else if b == p {
                assert(u[a] == t[a]);
                if a < p - 1 {
                    assert(t[a].index <= t[p - 1].index);
                }
            } else if b < p {
                assert(u[a] == t[a] && u[b] == t[b]);
            } else if a < p {
                assert(u[a] == t[a] && u[b] == t[b - 1]);
            } else {
                assert(u[a] == t[a - 1] && u[b] == t[b - 1]);
            }
        }
    }
}

/// Where no index occurs twice among the results, none does once they are
/// ordered.
pub proof fn lemma_ordered_distinct(results: Seq<LookupModel>)
    requires
        distinct(indices_of(results)),
    ensures
        distinct(indices_of(ordered(results))),
    decreases results.len(),
{
    if results.len() > 0 {
        let front = results.drop_last();
        let x = results.last();
        let t = ordered(front);
        let p = insertion_point(t, x);
        let u = ordered(results);
        assert forall|i: int, j: int| 0 <= i < j < front.len() implies indices_of(front)[i]
            != indices_of(front)[j] by {
            assert(indices_of(front)[i] == indices_of(results)[i]);
            assert(indices_of(front)[j] == indices_of(results)[j]);
        }
        lemma_ordered_distinct(front);
        lemma_ordered_members(front);
        lemma_insertion_point(t, x);
        assert(u == t.insert(p, x));
        assert forall|k: int| 0 <= k < t.len() implies (#[trigger] t[k]).index != x.index by {
            assert(front.contains(t[k]));
            let w = choose|w: int| 0 <= w < front.len() && front[w] == t[k];
            assert(indices_of(results)[w] == t[k].index);
            assert(indices_of(results)[results.len() - 1] == x.index);
        }
        assert forall|a: int, b: int| 0 <= a < b < u.len() implies indices_of(u)[a] != indices_of(
            u,
        )[b] by {
            if a == p {
                assert(u[b] == t[b - 1]);
            } else if b == p {
                assert(u[a] == t[a]);
            } else if b < p {
                assert(u[a] == t[a] && u[b] == t[b]);
                assert(indices_of(t)[a] != indices_of(t)[b]);
            } else if a < p {
                assert(u[a] == t[a] && u[b] == t[b - 1]);
                assert(indices_of(t)[a] != indices_of(t)[b - 1]);
            } else {
                assert(u[a] == t[a - 1] && u[b] == t[b - 1]);
                assert(indices_of(t)[a - 1] != indices_of(t)[b - 1]);
            }
        }
    }
}

/// Ascending indices of which none occurs twice, all below the length:
/// each index is its own place.
pub proof fn lemma_index_is_place(results: Seq<LookupModel>)
    requires
        ascending(results),
        distinct(indices_of(results)),
        forall|k: int| 0 <= k < results.len() ==> 0 <= (#[trigger] results[k]).index < results.len(),
    ensures
        forall|k: int| 0 <= k < results.len() ==> (#[trigger] results[k]).index == k,
    decreases results.len(),
{
    if results.len() > 0 {
        let n = results.len() as int;
        let front = results.drop_last();
        assert forall|k: int| 0 <= k < n implies k <= (#[trigger] results[k]).index by {
            lemma_at_least_place(results, k);
        }
        assert forall|k: int| 0 <= k < n implies (#[trigger] results[k]).index <= k by {
            lemma_at_most_place(results, k);
        }
    }
}

proof fn lemma_at_least_place(results: Seq<LookupModel>, k: int)
    requires
        ascending(results),
        distinct(indices_of(results)),
        forall|k: int| 0 <= k < results.len() ==> 0 <= (#[trigger] results[k]).index,
        0 <= k < results.len(),
    ensures
        k <= results[k].index,
    decreases k,
{
    if k > 0 {
        lemma_at_least_place(results, k - 1);
        assert(indices_of(results)[k - 1] != indices_of(results)[k]);
    }
}

proof fn lemma_at_most_place(results: Seq<LookupModel>, k: int)
    requires
        ascending(results),
        distinct(indices_of(results)),
        forall|k: int| 0 <= k < results.len() ==> (#[trigger] results[k]).index < results.len(),
        0 <= k < results.len(),
    ensures
        results[k].index <= k,
    decreases results.len() - k,
{
    if k < results.len() - 1 {
        lemma_at_most_place(results, k + 1);
        assert(indices_of(results)[k] != indices_of(results)[k + 1]);
    }
}

/// Results that hold one result for each request come out in the order of
/// the requests, in whatever order they came in: the result of the request
/// at a place stands at that place.
pub proof fn lemma_order_is_restored(results: Seq<LookupModel>)
    requires
        covers(results, results.len() as int),
    ensures
        ordered(results).len() == results.len(),
        forall|j: int|
            0 <= j < results.len() ==> ordered(results)[(#[trigger] results[j]).index] == results[j],
        forall|k: int| 0 <= k < results.len() ==> (#[trigger] ordered(results)[k]).index == k,
{
    let t = ordered(results);
    lemma_ordered_members(results);
    lemma_ordered_ascending(results);
    lemma_ordered_distinct(results);
    assert forall|k: int| 0 <= k < t.len() implies 0 <= (#[trigger] t[k]).index < t.len() by {
        assert(results.contains(t[k]));
    }
    lemma_index_is_place(t);
    assert forall|j: int| 0 <= j < results.len() implies t[(#[trigger] results[j]).index]
        == results[j] by {
        assert(t.contains(results[j]));
    }
}

/// One row of the report.
#[derive(Clone, Debug, PartialEq, Eq)]
pub struct ClassifiedEntry {
    pub name: String,
    /// The declared constraint: its operator, and its version without it.
    pub declared_constraint: Constraint,
    /// The latest version; empty where the lookup did not find it.
    pub latest_version: String,
    pub status: Status,
    pub section: Section,
    /// Why the lookup found no version, where it found none.
    pub failure: Option<FetchError>,
}

/// The mathematical value of a [`ClassifiedEntry`].
pub struct EntryModel {
    pub name: Seq<char>,
    pub prefix: Prefix,
    pub version: Seq<char>,
    pub latest_version: Seq<char>,
    pub status: Status,
    pub section: Section,
    pub failure: Option<FetchError>,
}

impl View for ClassifiedEntry {
    type V = EntryModel;

    open spec fn view(&self) -> EntryModel {
        EntryModel {
            name: self.name@,
            prefix: self.declared_constraint.prefix,
            version: self.declared_constraint.version@,
            latest_version: self.latest_version@,
            status: self.status,
            section: self.section,
            failure: self.failure,
        }
    }
}

/// The models of a run of entries.
pub open spec fn entry_models(entries: Seq<ClassifiedEntry>) -> Seq<EntryModel> {
    entries.map_values(|e: ClassifiedEntry| e@)
}

/// The row that a lookup's result makes. A lookup that found the latest
/// version is classified against it; one that failed keeps its row, with
/// status `Unknown`.
pub open spec fn entry_of(lookup: LookupModel) -> EntryModel {
    EntryModel {
        name: lookup.name,
        prefix: prefix_of(lookup.declared_constraint),
        version: bare_version(lookup.declared_constraint),
        latest_version: match lookup.outcome {
            Ok(latest) => latest,
            Err(_) => Seq::empty(),
        },
        status: match lookup.outcome {
            Ok(latest) => status_between(lookup.declared_constraint, latest),
            Err(_) => Status::Unknown,
        },
        section: lookup.section,
        failure: match lookup.outcome {
            Ok(_) => None,
            Err(e) => Some(e),
        },
    }
}

/// The text that names an outdated entry: `name(declared -> latest)`.
pub open spec fn label_text(entry: EntryModel) -> Seq<char> {
    entry.name + seq!['('] + entry.version + seq![' ', '-', '>', ' '] + entry.latest_version
        + seq![')']
}

/// [`label_text`] as it is shown for choosing: the name in yellow, the rest
/// dimmed.
pub open spec fn colorized_label_text(entry: EntryModel) -> Seq<char> {
    yellow(entry.name) + dimmed(seq!['(']) + dimmed(entry.version) + seq![' '] + dimmed(
        seq!['-', '>'],
    ) + seq![' '] + dimmed(entry.latest_version) + dimmed(seq![')'])
}

/// Whether an entry is outdated.
pub open spec fn is_outdated(entry: EntryModel) -> bool {
    entry.status == Status::Outdated
}

/// The outdated among `rows`, in their order.
pub open spec fn outdated_of(rows: Seq<EntryModel>) -> Seq<EntryModel> {
    rows.filter(|e: EntryModel| is_outdated(e))
}

impl ClassifiedEntry {
    /// The row that a lookup's result makes.
    pub fn from_lookup(lookup: &LookupResult) -> (entry: ClassifiedEntry)
        ensures
            entry@ == entry_of(lookup@),
    {
        let declared_constraint = Constraint::parse(lookup.declared_constraint.as_str());
        match &lookup.outcome {
            Ok(latest) => ClassifiedEntry {
                name: lookup.name.clone(),
                declared_constraint,
                latest_version: latest.clone(),
                status: status_or_unknown(lookup.declared_constraint.as_str(), latest.as_str()),
                section: lookup.section,
                failure: None,
            },
            Err(e) => ClassifiedEntry {
                name: lookup.name.clone(),
                declared_constraint,
                latest_version: String::new(),
                status: Status::Unknown,
                section: lookup.section,
                failure: Some(*e),
            },
        }
    }

    /// An entry with the same value.
    pub fn duplicate(&self) -> (copy: ClassifiedEntry)
        ensures
            copy@ == self@,
    {
        ClassifiedEntry {
            name: self.name.clone(),
            declared_constraint: Constraint {
                prefix: self.declared_constraint.prefix,
                version: self.declared_constraint.version.clone(),
            },
            latest_version: self.latest_version.clone(),
            status: self.status,
            section: self.section,
            failure: self.failure,
        }
    }

    /// The text that names the entry: `name(declared -> latest)`.
    pub fn label(&self) -> (text: String)
        ensures
            text@ == label_text(self@),
    {
        proof {
            reveal_strlit("(");
            reveal_strlit(" -> ");
            reveal_strlit(")");
        }
        let mut text = self.name.clone();
        text.append("(");
        text.append(self.declared_constraint.version.as_str());
        text.append(" -> ");
        text.append(self.latest_version.as_str());
        text.append(")");
        assert(text@ =~= label_text(self@));
        text
    }

    /// The label as it is shown for choosing.
    pub fn colorized_label(&self) -> (text: String)
        ensures
            text@ == colorized_label_text(self@),
    {
        proof {
            reveal_strlit("(");
            reveal_strlit("->");
            reveal_strlit(")");
            reveal_strlit(" ");
        }
        let mut text = paint_yellow(self.name.as_str());
        text.append(paint_dimmed("(").as_str());
        text.append(paint_dimmed(self.declared_constraint.version.as_str()).as_str());
        text.append(" ");
        text.append(paint_dimmed("->").as_str());
        text.append(" ");
        text.append(paint_dimmed(self.latest_version.as_str()).as_str());
        text.append(paint_dimmed(")").as_str());
        assert(text@ =~= colorized_label_text(self@));
        text
    }
}

/// The finished report.
#[derive(Clone, Debug, PartialEq, Eq)]
pub struct Report {
    /// One row for each result, by the place of its request.
    pub rows: Vec<ClassifiedEntry>,
    /// The outdated rows, in the order of `rows`.
    pub outdated: Vec<ClassifiedEntry>,
}

/// The rows that `results` make: one for each, by ascending index.
pub open spec fn rows_of(results: Seq<LookupModel>) -> Seq<EntryModel> {
    ordered(results).map_values(|l: LookupModel| entry_of(l))
}

/// The places of `results` by ascending index: the result at `order[k]` is
/// the `k`-th of the ordered results.
fn sorted_places(results: &Vec<LookupResult>) -> (order: Vec<usize>)
    ensures
        order.len() == results.len(),
        forall|k: int| 0 <= k < order.len() ==> (#[trigger] order[k]) < results.len(),
        forall|k: int|
            0 <= k < order.len() ==> lookup_models(results@)[(#[trigger] order[k]) as int]
                == ordered(lookup_models(results@))[k],
{
    let ghost models = lookup_models(results@);
    let mut order: Vec<usize> = Vec::new();
    let mut i: usize = 0;
    assert(models.take(0) =~= Seq::<LookupModel>::empty());
    while i < results.len()
        invariant
            models == lookup_models(results@),
            i <= results.len(),
            order.len() == i,
            ordered(models.take(i as int)).len() == i,
            forall|k: int| 0 <= k < order.len() ==> (#[trigger] order[k]) < i,
            forall|k: int|
                0 <= k < order.len() ==> models[(#[trigger] order[k]) as int] == ordered(
                    models.take(i as int),
                )[k],
        decreases results.len() - i,
    {
        let ghost t = ordered(models.take(i as int));
        let ghost x = models[i as int];
        let mut p: usize = order.len();
        while p > 0 && results[i].index < results[order[p - 1]].index
            invariant
                models == lookup_models(results@),
                i < results.len(),
                x == models[i as int],
                p <= order.len(),
                order.len() == t.len(),
                forall|k: int| 0 <= k < order.len() ==> (#[trigger] order[k]) < i,
                forall|k: int|
                    0 <= k < order.len() ==> models[(#[trigger] order[k]) as int] == t[k],
                forall|k: int| p <= k < t.len() ==> x.index < (#[trigger] t[k]).index,
            decreases p,
        {
            p -= 1;
        }
        proof {
            if p > 0 {
                assert(models[order[p - 1] as int] == t[p - 1]);
            }
            lemma_inserted_at(t, x, p as int);
            assert(models.take(i + 1).drop_last() =~= models.take(i as int));
            assert(ordered(models.take(i + 1)) == t.insert(p as int, x));
        }
        let ghost before = order@;
        order.insert(p, i);
        proof {
            let u = ordered(models.take(i + 1));
            assert forall|k: int| 0 <= k < order.len() implies models[(#[trigger] order[k]) as int]
                == u[k] by {
                if k < p {
                    assert(order[k] == before[k]);
                } else if k > p {
                    assert(order[k] == before[k - 1]);
                }
            }
            assert forall|k: int| 0 <= k < order.len() implies (#[trigger] order[k]) < i + 1 by {
                if k < p {
                    assert(order[k] == before[k]);
                } else if k > p {
                    assert(order[k] == before[k - 1]);
                }
            }
        }
        i += 1;
    }
    assert(models.take(results.len() as int) =~= models);
    order
}

/// The outdated among `rows`, in their order.
fn outdated_among(rows: &Vec<ClassifiedEntry>) -> (outdated: Vec<ClassifiedEntry>)
    ensures
        entry_models(outdated@) == outdated_of(entry_models(rows@)),
{
    let ghost models = entry_models(rows@);
    let ghost pred = |e: EntryModel| is_outdated(e);
    let mut outdated: Vec<ClassifiedEntry> = Vec::new();
    let mut k: usize = 0;
    assert(models.take(0) =~= Seq::<EntryModel>::empty());
    assert(entry_models(outdated@) =~= models.take(0).filter(pred)) by {
        reveal(Seq::filter);
    }
    while k < rows.len()
        invariant
            models == entry_models(rows@),
            pred == (|e: EntryModel| is_outdated(e)),
            k <= rows.len(),
            entry_models(outdated@) == models.take(k as int).filter(pred),
        decreases rows.len() - k,
    {
        proof {
            assert(models.take(k + 1) =~= models.take(k as int).push(models[k as int]));
            models.take(k as int).lemma_filter_push(models[k as int], pred);
        }
        if rows[k].status == Status::Outdated {
            let ghost before = outdated@;
            outdated.push(rows[k].duplicate());
            assert(entry_models(outdated@) =~= entry_models(before).push(models[k as int]));
        }
        k += 1;
    }
    assert(models.take(rows.len() as int) =~= models);
    outdated
}

/// Builds the report from the results of a run, in whatever order they
/// came: the rows stand by the place of their request, and the outdated
/// rows follow in the same order.
pub fn build(results: &Vec<LookupResult>) -> (report: Report)
    ensures
        entry_models(report.rows@) == rows_of(lookup_models(results@)),
        entry_models(report.outdated@) == outdated_of(entry_models(report.rows@)),
{
    let ghost models = lookup_models(results@);
    proof {
        lemma_ordered_members(models);
    }
    let order = sorted_places(results);
    let mut rows: Vec<ClassifiedEntry> = Vec::new();
    let mut k: usize = 0;
    while k < order.len()
        invariant
            models == lookup_models(results@),
            order.len() == results.len(),
            ordered(models).len() == results.len(),
            k <= order.len(),
            rows.len() == k,
            forall|j: int| 0 <= j < order.len() ==> (#[trigger] order[j]) < results.len(),
            forall|j: int|
                0 <= j < order.len() ==> models[(#[trigger] order[j]) as int] == ordered(models)[j],
            forall|j: int| 0 <= j < k ==> (#[trigger] rows[j])@ == entry_of(ordered(models)[j]),
        decreases order.len() - k,
    {
        let entry = ClassifiedEntry::from_lookup(&results[order[k]]);
        rows.push(entry);
        k += 1;
    }
    assert(entry_models(rows@) =~= rows_of(models));
    let outdated = outdated_among(&rows);
    Report { rows, outdated }
}

/// The rows of a run that has one result for each request: the row at a
/// place is that of the request at that place and of the reply to it. The
/// order in which the results came, and with it the limit of the pool,
/// leaves no trace.
pub proof fn lemma_rows_follow_requests(
    results: Seq<LookupModel>,
    requests: Seq<RequestModel>,
    replies: Seq<ReplyModel>,
)
    requires
        covers(results, requests.len() as int),
        answers(results, requests, replies),
    ensures
        rows_of(results) == Seq::new(
            requests.len(),
            |i: int| entry_of(lookup_of(requests[i], i, reply_at(replies, i))),
        ),
{
    let t = ordered(results);
    lemma_order_is_restored(results);
    assert forall|k: int| 0 <= k < t.len() implies t[k] == lookup_of(
        requests[k],
        k,
        reply_at(replies, k),
    ) by {
        assert(indices_of(results).contains(k));
        let j = choose|j: int| 0 <= j < indices_of(results).len() && indices_of(results)[j] == k;
        assert(results[j].index == k);
        assert(t[results[j].index] == results[j]);
    }
    assert(rows_of(results) =~= Seq::new(
        requests.len(),
        |i: int| entry_of(lookup_of(requests[i], i, reply_at(replies, i))),
    ));
}

/// Results that come in the reverse order make the same rows.
pub proof fn lemma_reversed_arrival(results: Seq<LookupModel>)
    requires
        covers(results, results.len() as int),
    ensures
        rows_of(results.reverse()) == rows_of(results),
{
    let n = results.len() as int;
    let back = results.reverse();
    assert forall|i: int, j: int| 0 <= i < j < n implies indices_of(back)[i] != indices_of(
        back,
    )[j] by {
        assert(indices_of(back)[i] == indices_of(results)[n - 1 - i]);
        assert(indices_of(back)[j] == indices_of(results)[n - 1 - j]);
    }
    assert forall|i: int| 0 <= i < n implies #[trigger] indices_of(back).contains(i) by {
        assert(indices_of(results).contains(i));
        let j = choose|j: int| 0 <= j < indices_of(results).len() && indices_of(results)[j] == i;
        assert(indices_of(back)[n - 1 - j] == i);
    }
    assert forall|k: int| 0 <= k < n implies 0 <= (#[trigger] back[k]).index < n by {
        assert(back[k] == results[n - 1 - k]);
    }
    lemma_order_is_restored(results);
    lemma_order_is_restored(back);
    assert forall|k: int| 0 <= k < n implies ordered(back)[k] == ordered(results)[k] by {
        assert(indices_of(results).contains(k));
        let j = choose|j: int| 0 <= j < indices_of(results).len() && indices_of(results)[j] == k;
        assert(results[j].index == k);
        assert(back[n - 1 - j] == results[j]);
        assert(ordered(results)[results[j].index] == results[j]);
        assert(ordered(back)[back[n - 1 - j].index] == back[n - 1 - j]);
    }
    assert(ordered(back) =~= ordered(results));
}

/// How a table is drawn.
#[derive(Clone, Copy, Debug, PartialEq, Eq, Structural)]
pub enum TableStyle {
    /// The style that `tabled` draws in where none is chosen.
    Plain,
    /// The style that `tabled` calls `modern`.
    Modern,
}

/// The text of the table that `tabled` draws in the given style for the
/// given records: one record for each line, one text for each cell.
pub uninterp spec fn table_text(style: TableStyle, records: Seq<Seq<Seq<char>>>) -> Seq<char>;

/// The texts of a run of records.
pub open spec fn record_texts(records: Seq<Vec<String>>) -> Seq<Seq<Seq<char>>> {
    records.map_values(|r: Vec<String>| r@.map_values(|c: String| c@))
}

/// Hands the records to `tabled::builder::Builder::push_record`, one by
/// one, has the table built, gives it the style
/// `tabled::settings::Style::modern` where that is asked for, and formats
/// it. Nothing is claimed of how the table looks: the result is the value
/// that [`table_text`] names.
#[verifier::external_body]
fn draw_table(style: TableStyle, records: &Vec<Vec<String>>) -> (text: String)
    ensures
        text@ == table_text(style, record_texts(records@)),
{
    let mut builder = tabled::builder::Builder::default();
    for record in records {
        builder.push_record(record.clone());
    }
    let mut table = builder.build();
    match style {
        TableStyle::Plain => table.to_string(),
        TableStyle::Modern => table.with(tabled::settings::Style::modern()).to_string(),
    }
}

/// The first record of the table: the names of its columns.
pub open spec fn header_record() -> Seq<Seq<char>> {
    seq!["Name"@, "Current"@, "Latest"@, "Status"@]
}

/// The record of one row: name, declared version, latest version, and the
/// status in its colour.
pub open spec fn record_of(entry: EntryModel) -> Seq<Seq<char>> {
    seq![entry.name, entry.version, entry.latest_version, entry.status.colorized_text()]
}

/// The records of the table: the header, then one for each row.
pub open spec fn table_records(rows: Seq<EntryModel>) -> Seq<Seq<Seq<char>>> {
    seq![header_record()] + rows.map_values(|e: EntryModel| record_of(e))
}

impl Report {
    /// The records of the report's table.
    pub fn records(&self) -> (records: Vec<Vec<String>>)
        ensures
            record_texts(records@) == table_records(entry_models(self.rows@)),
    {
        let mut header: Vec<String> = Vec::new();
        header.push(String::from_str("Name"));
        header.push(String::from_str("Current"));
        header.push(String::from_str("Latest"));
        header.push(String::from_str("Status"));
        assert(header@.map_values(|c: String| c@) =~= header_record());
        let mut records: Vec<Vec<String>> = Vec::new();
        records.push(header);
        let ghost models = entry_models(self.rows@);
        let mut k: usize = 0;
        while k < self.rows.len()
            invariant
                models == entry_models(self.rows@),
                k <= self.rows.len(),
                records.len() == k + 1,
                record_texts(records@)[0] == header_record(),
                forall|j: int| 0 <= j < k ==> record_texts(records@)[j + 1] == record_of(models[j]),
            decreases self.rows.len() - k,
        {
            let row = &self.rows[k];
            let mut record: Vec<String> = Vec::new();
            record.push(row.name.clone());
            record.push(row.declared_constraint.version.clone());
            record.push(row.latest_version.clone());
            record.push(row.status.colorized());
            assert(record@.map_values(|c: String| c@) =~= record_of(models[k as int]));
            let ghost before = records@;
            records.push(record);
            assert forall|j: int| 0 <= j < k + 1 implies record_texts(records@)[j + 1] == record_of(
                models[j],
            ) by {
                if j < k {
                    assert(record_texts(records@)[j + 1] == record_texts(before)[j + 1]);
                }
            }
            assert(record_texts(records@)[0] == record_texts(before)[0]);
            k += 1;
        }
        assert(record_texts(records@) =~= table_records(models));
        records
    }

    /// The report as a table in the given style: the header, then one
    /// line for each row.
    pub fn table(&self, style: TableStyle) -> (text: String)
        ensures
            text@ == table_text(style, table_records(entry_models(self.rows@))),
    {
        let records = self.records();
        draw_table(style, &records)
    }

    /// The labels of the outdated entries: `name(declared -> latest)`.
    pub fn outdated_labels(&self) -> (labels: Vec<String>)
        ensures
            labels@.map_values(|l: String| l@) == entry_models(self.outdated@).map_values(
                |e: EntryModel| label_text(e),
            ),
    {
        let mut labels: Vec<String> = Vec::new();
        let mut k: usize = 0;
        while k < self.outdated.len()
            invariant
                k <= self.outdated.len(),
                labels.len() == k,
                forall|j: int| 0 <= j < k ==> (#[trigger] labels[j])@ == label_text(self.outdated[j]@),
            decreases self.outdated.len() - k,
        {
            labels.push(self.outdated[k].label());
            k += 1;
        }
        assert(labels@.map_values(|l: String| l@) =~= entry_models(self.outdated@).map_values(
            |e: EntryModel| label_text(e),
        ));
        labels
    }

    /// The labels of the outdated entries as they are shown for choosing.
    pub fn colorized_labels(&self) -> (labels: Vec<String>)
        ensures
            labels@.map_values(|l: String| l@) == entry_models(self.outdated@).map_values(
                |e: EntryModel| colorized_label_text(e),
            ),
    {
        let mut labels: Vec<String> = Vec::new();
        let mut k: usize = 0;
        while k < self.outdated.len()
            invariant
                k <= self.outdated.len(),
                labels.len() == k,
                forall|j: int|
                    0 <= j < k ==> (#[trigger] labels[j])@ == colorized_label_text(
                        self.outdated[j]@,
                    ),
            decreases self.outdated.len() - k,
        {
            labels.push(self.outdated[k].colorized_label());
            k += 1;
        }
        assert(labels@.map_values(|l: String| l@) =~= entry_models(self.outdated@).map_values(
            |e: EntryModel| colorized_label_text(e),
        ));
        labels
    }
}

/// What is shown at the end of a run: the table, and the outdated entries
/// to choose from.
#[derive(Clone, Debug, PartialEq, Eq)]
pub struct ResultTable {
    pub table: String,
    pub outdated_deps: Vec<String>,
}

/// Builds the report from the results of a run and lays it out: the table
/// of all rows in the `modern` style, and the coloured label of each
/// outdated row.
pub fn get_report_table(results: &Vec<LookupResult>) -> (shown: ResultTable)
    ensures
        shown.table@ == table_text(
            TableStyle::Modern,
            table_records(rows_of(lookup_models(results@))),
        ),
        shown.outdated_deps@.map_values(|l: String| l@) == outdated_of(
            rows_of(lookup_models(results@)),
        ).map_values(|e: EntryModel| colorized_label_text(e)),
{
    let report = build(results);
    ResultTable {
        table: report.table(TableStyle::Modern),
        outdated_deps: report.colorized_labels(),
    }
}

} // verus!
