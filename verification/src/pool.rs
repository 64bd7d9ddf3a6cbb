//! The bounded pool of lookups.
//!
//! The pool decides which lookup starts next and records each one that
//! ends. It performs no lookup itself: whoever drives it sends the request
//! for each index that [`Pool::next_dispatch`] hands out and reports the
//! reply with [`Pool::complete`].

use vstd::prelude::*;
use crate::registry::{fetch_outcome, outcome_model, reading, FetchError, Reply, ReplyModel};

verus! {

/// The part of the manifest that declares a dependency.
#[derive(Clone, Copy, Debug, PartialEq, Eq, Structural)]
pub enum Section {
    Dependencies,
    DevDependencies,
}

/// One declared dependency: what is to be looked up.
#[derive(Clone, Debug, PartialEq, Eq)]
pub struct DependencyRequest {
    pub name: String,
    pub declared_constraint: String,
    pub section: Section,
}

/// The mathematical value of a [`DependencyRequest`].
pub struct RequestModel {
    pub name: Seq<char>,
    pub declared_constraint: Seq<char>,
    pub section: Section,
}

impl View for DependencyRequest {
    type V = RequestModel;

    open spec fn view(&self) -> RequestModel {
        RequestModel {
            name: self.name@,
            declared_constraint: self.declared_constraint@,
            section: self.section,
        }
    }
}

/// How one lookup ended. `index` is the place of its request among the
/// requests that the pool was made with.
#[derive(Debug, PartialEq, Eq)]
pub struct LookupResult {
    pub index: usize,
    pub name: String,
    pub declared_constraint: String,
    pub section: Section,
    pub outcome: Result<String, FetchError>,
}

/// The mathematical value of a [`LookupResult`].
pub struct LookupModel {
    pub index: int,
    pub name: Seq<char>,
    pub declared_constraint: Seq<char>,
    pub section: Section,
    pub outcome: Result<Seq<char>, FetchError>,
}

impl View for LookupResult {
    type V = LookupModel;

    open spec fn view(&self) -> LookupModel {
        LookupModel {
            index: self.index as int,
            name: self.name@,
            declared_constraint: self.declared_constraint@,
            section: self.section,
            outcome: outcome_model(self.outcome),
        }
    }
}

impl LookupResult {
    /// The latest version, where the lookup found it.
    pub fn latest_version(&self) -> (v: Option<&String>)
        ensures
            match self.outcome {
                Ok(s) => v == Some(&s),
                Err(_) => v.is_none(),
            },
    {
        match &self.outcome {
            Ok(s) => Some(s),
            Err(_) => None,
        }
    }

    /// Why the lookup found no version, where it found none.
    pub fn error(&self) -> (e: Option<FetchError>)
        ensures
            match self.outcome {
                Ok(_) => e.is_none(),
                Err(k) => e == Some(k),
            },
    {
        match &self.outcome {
            Ok(_) => None,
            Err(k) => Some(*k),
        }
    }
}

/// The models of a run of requests.
pub open spec fn request_models(requests: Seq<DependencyRequest>) -> Seq<RequestModel> {
    requests.map_values(|r: DependencyRequest| r@)
}

/// The models of a run of results.
pub open spec fn lookup_models(results: Seq<LookupResult>) -> Seq<LookupModel> {
    results.map_values(|r: LookupResult| r@)
}

/// The result of the lookup for the request at `index`, given how it
/// ended.
pub open spec fn lookup_with(
    request: RequestModel,
    index: int,
    outcome: Result<Seq<char>, FetchError>,
) -> LookupModel {
    LookupModel {
        index,
        name: request.name,
        declared_constraint: request.declared_constraint,
        section: request.section,
        outcome,
    }
}

/// The result of the lookup for the request at `index`, given the reply.
pub open spec fn lookup_of(request: RequestModel, index: int, reply: ReplyModel) -> LookupModel {
    lookup_with(request, index, reading(reply))
}

/// The result of the lookup for `request`, which stands at `index`, given
/// how it ended.
pub fn lookup_result_with(
    request: &DependencyRequest,
    index: usize,
    outcome: Result<String, FetchError>,
) -> (r: LookupResult)
    ensures
        r@ == lookup_with(request@, index as int, outcome_model(outcome)),
{
    LookupResult {
        index,
        name: request.name.clone(),
        declared_constraint: request.declared_constraint.clone(),
        section: request.section,
        outcome,
    }
}

/// The result of the lookup for `request`, which stands at `index`, given
/// the reply.
pub fn lookup_result(request: &DependencyRequest, index: usize, reply: &Reply) -> (r: LookupResult)
    ensures
        r@ == lookup_of(request@, index as int, reply@),
{
    lookup_result_with(request, index, fetch_outcome(reply))
}

/// Why a pool could not be made.
#[derive(Clone, Copy, Debug, PartialEq, Eq, Structural)]
pub enum PoolError {
    /// The limit admits no lookup at all.
    NoCapacity,
}

/// The state of a run over a list of requests.
pub struct Pool {
    requests: Vec<DependencyRequest>,
    limit: usize,
    next: usize,
    in_flight: Vec<usize>,
    results: Vec<LookupResult>,
    cancelled: bool,
}

/// `s` holds no value twice.
pub open spec fn distinct(s: Seq<int>) -> bool {
    forall|i: int, j: int| 0 <= i < j < s.len() ==> s[i] != s[j]
}

/// The indices of a run of results.
pub open spec fn indices_of(results: Seq<LookupModel>) -> Seq<int> {
    results.map_values(|r: LookupModel| r.index)
}

/// `results` holds one result for each place below `count`, and no other.
pub open spec fn covers(results: Seq<LookupModel>, count: int) -> bool {
    &&& results.len() == count
    &&& distinct(indices_of(results))
    &&& forall|k: int| 0 <= k < results.len() ==> 0 <= (#[trigger] results[k]).index < count
    &&& forall|i: int| 0 <= i < count ==> #[trigger] indices_of(results).contains(i)
}

impl Pool {
    /// The requests that the pool was made with.
    pub closed spec fn requests(&self) -> Seq<RequestModel> {
        request_models(self.requests@)
    }

    /// The most lookups that may be under way at once.
    pub closed spec fn limit(&self) -> int {
        self.limit as int
    }

    /// How many lookups were started. They are those of the first requests.
    pub closed spec fn dispatched(&self) -> int {
        self.next as int
    }

    /// The places of the lookups under way, oldest first.
    pub closed spec fn in_flight(&self) -> Seq<int> {
        self.in_flight@.map_values(|i: usize| i as int)
    }

    /// The results so far, in the order in which they came.
    pub closed spec fn results(&self) -> Seq<LookupModel> {
        lookup_models(self.results@)
    }

    /// Whether the run was cancelled.
    pub closed spec fn cancelled(&self) -> bool {
        self.cancelled
    }

    /// What holds of every pool: the limit is kept, and each lookup that
    /// was started is under way or has its result, never both and never
    /// twice.
    pub open spec fn wf(&self) -> bool {
        &&& self.limit() >= 1
        &&& 0 <= self.dispatched() <= self.requests().len()
        &&& self.in_flight().len() <= self.limit()
        &&& self.in_flight().len() + self.results().len() == self.dispatched()
        &&& distinct(self.in_flight())
        &&& distinct(indices_of(self.results()))
        &&& forall|p: int, k: int|
            0 <= p < self.in_flight().len() && 0 <= k < self.results().len()
                ==> #[trigger] self.in_flight()[p] != (#[trigger] self.results()[k]).index
        &&& forall|p: int|
            0 <= p < self.in_flight().len() ==> 0 <= (#[trigger] self.in_flight()[p])
                < self.dispatched()
        &&& forall|k: int|
            0 <= k < self.results().len() ==> 0 <= (#[trigger] self.results()[k]).index
                < self.dispatched()
        &&& forall|i: int|
            0 <= i < self.dispatched() ==> (#[trigger] self.in_flight().contains(i))
                || indices_of(self.results()).contains(i)
        &&& forall|k: int|
            0 <= k < self.results().len() ==> {
                let r = #[trigger] self.results()[k];
                let q = self.requests()[r.index];
                r.name == q.name && r.declared_constraint == q.declared_constraint && r.section
                    == q.section
            }
    }

    /// Nothing is under way and nothing more will start.
    pub open spec fn finished(&self) -> bool {
        self.in_flight().len() == 0 && (self.cancelled() || self.dispatched()
            == self.requests().len())
    }

    /// A lookup may start now.
    pub open spec fn admits(&self) -> bool {
        !self.cancelled() && self.in_flight().len() < self.limit() && self.dispatched()
            < self.requests().len()
    }

    /// A pool over `requests` that keeps at most `limit` lookups under way.
    /// A limit of zero admits nothing and is refused.
    pub fn new(requests: Vec<DependencyRequest>, limit: usize) -> (r: Result<Pool, PoolError>)
        ensures
            limit == 0 <==> r.is_err(),
            r matches Ok(pool) ==> {
                &&& pool.wf()
                &&& pool.requests() == request_models(requests@)
                &&& pool.limit() == limit
                &&& pool.dispatched() == 0
                &&& pool.in_flight() == Seq::<int>::empty()
                &&& pool.results() == Seq::<LookupModel>::empty()
                &&& !pool.cancelled()
            },
    {
        if limit == 0 {
            return Err(PoolError::NoCapacity);
        }
        let pool = Pool {
            requests,
            limit,
            next: 0,
            in_flight: Vec::new(),
            results: Vec::new(),
            cancelled: false,
        };
        assert(pool.in_flight() =~= Seq::<int>::empty());
        assert(pool.results() =~= Seq::<LookupModel>::empty());
        Ok(pool)
    }

    /// How many requests the pool was made with.
    pub fn len(&self) -> (n: usize)
        ensures
            n == self.requests().len(),
    {
        self.requests.len()
    }

    /// The request at `index`, if there is one.
    pub fn request(&self, index: usize) -> (r: Option<&DependencyRequest>)
        ensures
            index < self.requests().len() <==> r.is_some(),
            r matches Some(q) ==> q@ == self.requests()[index as int],
    {
        if index < self.requests.len() {
            Some(&self.requests[index])
        } else {
            None
        }
    }

    /// The admission gate. Where a lookup may start, the next request's
    /// lookup is now under way and its place is returned; else nothing
    /// changes.
    pub fn next_dispatch(&mut self) -> (r: Option<usize>)
        requires
            old(self).wf(),
        ensures
            final(self).wf(),
            final(self).requests() == old(self).requests(),
            final(self).limit() == old(self).limit(),
            final(self).results() == old(self).results(),
            final(self).cancelled() == old(self).cancelled(),
            old(self).admits() ==> r.is_some() && final(self).dispatched() == old(self).dispatched()
                + 1
                && final(self).in_flight() == old(self).in_flight().push(old(self).dispatched()),
            !old(self).admits() ==> r.is_none() && final(self).dispatched() == old(self).dispatched()
                && final(self).in_flight() == old(self).in_flight(),
            r matches Some(i) ==> i as int == old(self).dispatched(),
    {
        if self.cancelled || self.in_flight.len() >= self.limit || self.next >= self.requests.len()
        {
            return None;
        }
        let index: usize = self.next;
        let ghost before = *self;
        self.in_flight.push(index);
        self.next = index + 1;
        proof {
            assert(self.in_flight() =~= before.in_flight().push(index as int));
            let m = before.in_flight().len() as int;
            assert forall|i: int, j: int| 0 <= i < j < self.in_flight().len() implies self.in_flight()[i]
                != self.in_flight()[j] by {
                assert(self.in_flight()[i] == before.in_flight()[i]);
                if j < m {
                    assert(self.in_flight()[j] == before.in_flight()[j]);
                }
            }
            assert forall|p: int, k: int|
                0 <= p < self.in_flight().len() && 0 <= k < self.results().len() implies
                #[trigger] self.in_flight()[p] != (#[trigger] self.results()[k]).index by {
                if p < m {
                    assert(self.in_flight()[p] == before.in_flight()[p]);
                }
            }
            assert forall|i: int| 0 <= i < self.dispatched() implies (
            #[trigger] self.in_flight().contains(i)) || indices_of(self.results()).contains(i) by {
                if i == index as int {
                    assert(self.in_flight()[m] == i);
                } else {
                    if before.in_flight().contains(i) {
                        let p = choose|p: int|
                            0 <= p < before.in_flight().len() && before.in_flight()[p] == i;
                        assert(self.in_flight()[p] == i);
                    }
                }
            }
        }
        Some(index)
    }

    /// Records that the lookup at `index` ended with `reply`, read as
    /// [`reading`] says. Where that lookup is under way, its result joins
    /// the results and `true` is returned; else nothing changes.
    pub fn complete(&mut self, index: usize, reply: &Reply) -> (r: bool)
        requires
            old(self).wf(),
        ensures
            final(self).wf(),
            final(self).requests() == old(self).requests(),
            final(self).limit() == old(self).limit(),
            final(self).dispatched() == old(self).dispatched(),
            final(self).cancelled() == old(self).cancelled(),
            r == old(self).in_flight().contains(index as int),
            r ==> final(self).in_flight() == old(self).in_flight().remove(
                old(self).in_flight().index_of(index as int),
            ) && final(self).results() == old(self).results().push(
                lookup_of(old(self).requests()[index as int], index as int, reply@),
            ),
            !r ==> final(self).in_flight() == old(self).in_flight() && final(self).results()
                == old(self).results(),
    {
        self.complete_with(index, fetch_outcome(reply))
    }

    /// Records that the lookup at `index` ended with `outcome`. Where that
    /// lookup is under way, its result joins the results and `true` is
    /// returned; else nothing changes.
    pub fn complete_with(&mut self, index: usize, outcome: Result<String, FetchError>) -> (r: bool)
        requires
            old(self).wf(),
        ensures
            final(self).wf(),
            final(self).requests() == old(self).requests(),
            final(self).limit() == old(self).limit(),
            final(self).dispatched() == old(self).dispatched(),
            final(self).cancelled() == old(self).cancelled(),
            r == old(self).in_flight().contains(index as int),
            r ==> final(self).in_flight() == old(self).in_flight().remove(
                old(self).in_flight().index_of(index as int),
            ) && final(self).results() == old(self).results().push(
                lookup_with(
                    old(self).requests()[index as int],
                    index as int,
                    outcome_model(outcome),
                ),
            ),
            !r ==> final(self).in_flight() == old(self).in_flight() && final(self).results()
                == old(self).results(),
    {
        let mut p: usize = 0;
        while p < self.in_flight.len() && self.in_flight[p] != index
            invariant
                p <= self.in_flight.len(),
                forall|q: int| 0 <= q < p ==> self.in_flight()[q] != index as int,
                *self == *old(self),
            decreases self.in_flight.len() - p,
        {
            p += 1;
        }
        if p >= self.in_flight.len() {
            assert(!self.in_flight().contains(index as int));
            return false;
        }
        let ghost before = *self;
        proof {
            assert(before.in_flight()[p as int] == index as int);
            assert(before.in_flight().contains(index as int));
            let w = before.in_flight().index_of(index as int);
            assert(0 <= w < before.in_flight().len() && before.in_flight()[w] == index as int);
            assert(w == p);
        }
        self.in_flight.remove(p);
        let ghost ended = outcome_model(outcome);
        let result = lookup_result_with(&self.requests[index], index, outcome);
        self.results.push(result);
        proof {
            let c = before.results().len() as int;
            assert(self.in_flight() =~= before.in_flight().remove(p as int));
            assert(self.results() =~= before.results().push(
                lookup_with(before.requests()[index as int], index as int, ended),
            ));
            assert forall|i: int, j: int| 0 <= i < j < self.in_flight().len() implies self.in_flight()[i]
                != self.in_flight()[j] by {
                let oi = if i < p { i } else { i + 1 };
                let oj = if j < p { j } else { j + 1 };
                assert(self.in_flight()[i] == before.in_flight()[oi]);
                assert(self.in_flight()[j] == before.in_flight()[oj]);
            }
            assert forall|i: int, j: int|
                0 <= i < j < indices_of(self.results()).len() implies indices_of(self.results())[i]
                != indices_of(self.results())[j] by {
                assert(indices_of(self.results())[i] == indices_of(before.results())[i]);
                if j < c {
                    assert(indices_of(self.results())[j] == indices_of(before.results())[j]);
                } else {
                    assert(before.in_flight()[p as int] != before.results()[i].index);
                }
            }
            assert forall|q: int, k: int|
                0 <= q < self.in_flight().len() && 0 <= k < self.results().len() implies
                #[trigger] self.in_flight()[q] != (#[trigger] self.results()[k]).index by {
                let oq = if q < p { q } else { q + 1 };
                assert(self.in_flight()[q] == before.in_flight()[oq]);
                if k < c {
                    assert(self.results()[k] == before.results()[k]);
                } else {
                    assert(before.in_flight()[oq] != before.in_flight()[p as int]);
                }
            }
            assert forall|q: int| 0 <= q < self.in_flight().len() implies 0 <= (
            #[trigger] self.in_flight()[q]) < self.dispatched() by {
                let oq = if q < p { q } else { q + 1 };
                assert(self.in_flight()[q] == before.in_flight()[oq]);
            }
            assert forall|i: int| 0 <= i < self.dispatched() implies (
            #[trigger] self.in_flight().contains(i)) || indices_of(self.results()).contains(i) by {
                if i == index as int {
                    assert(indices_of(self.results())[c] == i);
                } else if before.in_flight().contains(i) {
                    let q = choose|q: int|
                        0 <= q < before.in_flight().len() && before.in_flight()[q] == i;
                    if q < p {
                        assert(self.in_flight()[q] == i);
                    } else {
                        assert(self.in_flight()[q - 1] == i);
                    }
                } else {
                    assert(indices_of(before.results()).contains(i));
                    let k = choose|k: int|
                        0 <= k < indices_of(before.results()).len() && indices_of(
                            before.results(),
                        )[k] == i;
                    assert(indices_of(self.results())[k] == i);
                }
            }
            assert forall|k: int| 0 <= k < self.results().len() implies {
                let r = #[trigger] self.results()[k];
                let q = self.requests()[r.index];
                r.name == q.name && r.declared_constraint == q.declared_constraint && r.section
                    == q.section
            } by {
                if k < c {
                    assert(self.results()[k] == before.results()[k]);
                }
            }
            assert forall|k: int| 0 <= k < self.results().len() implies 0 <= (
            #[trigger] self.results()[k]).index < self.dispatched() by {
                if k < c {
                    assert(self.results()[k] == before.results()[k]);
                }
            }
        }
        true
    }

    /// Cancels the run: no further lookup starts.
    pub fn cancel(&mut self)
        requires
            old(self).wf(),
        ensures
            final(self).wf(),
            final(self).cancelled(),
            !final(self).admits(),
            final(self).requests() == old(self).requests(),
            final(self).limit() == old(self).limit(),
            final(self).dispatched() == old(self).dispatched(),
            final(self).in_flight() == old(self).in_flight(),
            final(self).results() == old(self).results(),
    {
        self.cancelled = true;
    }

    /// Whether the run is over.
    pub fn is_finished(&self) -> (r: bool)
        ensures
            r == self.finished(),
    {
        self.in_flight.len() == 0 && (self.cancelled || self.next == self.requests.len())
    }

    /// How many lookups are under way.
    pub fn in_flight_count(&self) -> (n: usize)
        ensures
            n == self.in_flight().len(),
    {
        self.in_flight.len()
    }

    /// How many lookups have ended.
    pub fn completed_count(&self) -> (n: usize)
        ensures
            n == self.results().len(),
    {
        self.results.len()
    }

    /// The results, in the order in which they came.
    pub fn into_results(self) -> (results: Vec<LookupResult>)
        ensures
            lookup_models(results@) == self.results(),
    {
        self.results
    }
}

/// A run that ends without being cancelled has exactly one result for each
/// request, whatever the limit was.
pub proof fn lemma_finished_run_is_complete(pool: Pool)
    requires
        pool.wf(),
        pool.finished(),
        !pool.cancelled(),
    ensures
        covers(pool.results(), pool.requests().len() as int),
{
    let results = pool.results();
    assert forall|i: int| 0 <= i < pool.requests().len() implies #[trigger] indices_of(
        results,
    ).contains(i) by {
        assert(pool.in_flight().contains(i) || indices_of(results).contains(i));
    }
}

/// `num_cpus::get` returns the number of processors that this process may
/// use, which is at least one.
pub assume_specification[ num_cpus::get ]() -> (count: usize)
    ensures
        count >= 1,
;

/// The limit to run with: the configured one where it admits a lookup,
/// else the number of processors at hand, and never less than one.
pub open spec fn limit_for(configured: Option<usize>, available: usize) -> usize {
    match configured {
        Some(n) => if n >= 1 {
            n
        } else if available >= 1 {
            available
        } else {
            1
        },
        None => if available >= 1 {
            available
        } else {
            1
        },
    }
}

/// The limit to run with, given the configured one and the number of
/// processors at hand.
pub fn choose_limit(configured: Option<usize>, available: usize) -> (limit: usize)
    ensures
        limit == limit_for(configured, available),
        limit >= 1,
{
    match configured {
        Some(n) if n >= 1 => n,
        _ => if available >= 1 {
            available
        } else {
            1
        },
    }
}

/// The limit to run with where the number of processors is that of this
/// machine.
pub fn default_limit(configured: Option<usize>) -> (limit: usize)
    ensures
        limit >= 1,
        match configured {
            Some(n) => n >= 1 ==> limit == n,
            None => true,
        },
{
    choose_limit(configured, num_cpus::get())
}

/// The models of a run of replies.
pub open spec fn reply_models(replies: Seq<Reply>) -> Seq<ReplyModel> {
    replies.map_values(|r: Reply| r@)
}

/// The reply to the lookup at `index`: the one that stands there, and no
/// answer where none does.
pub open spec fn reply_at(replies: Seq<ReplyModel>, index: int) -> ReplyModel {
    if 0 <= index < replies.len() {
        replies[index]
    } else {
        ReplyModel::Failed
    }
}

/// Each result is the one that belongs to its request and that request's
/// reply.
pub open spec fn answers(
    results: Seq<LookupModel>,
    requests: Seq<RequestModel>,
    replies: Seq<ReplyModel>,
) -> bool {
    forall|k: int|
        0 <= k < results.len() ==> 0 <= (#[trigger] results[k]).index < requests.len()
            && results[k] == lookup_of(
            requests[results[k].index],
            results[k].index,
            reply_at(replies, results[k].index),
        )
}

/// Runs a pool over `requests` to its end, with `replies[i]` as the reply
/// to the lookup of `requests[i]`. Among the lookups under way the one
/// that started last ends first, so the results come in the order of the
/// requests only where the limit is one.
pub fn run_all(requests: Vec<DependencyRequest>, limit: usize, replies: &Vec<Reply>) -> (r: Result<
    Vec<LookupResult>,
    PoolError,
>)
    ensures
        limit == 0 <==> r.is_err(),
        r matches Ok(results) ==> covers(lookup_models(results@), requests.len() as int) && answers(
            lookup_models(results@),
            request_models(requests@),
            reply_models(replies@),
        ),
{
    let ghost asked = request_models(requests@);
    let ghost given = reply_models(replies@);
    let mut pool = match Pool::new(requests, limit) {
        Ok(pool) => pool,
        Err(e) => {
            return Err(e);
        },
    };
    let unanswered = Reply::Failed;
    loop
        invariant
            pool.wf(),
            pool.requests() == asked,
            pool.limit() == limit,
            !pool.cancelled(),
            given == reply_models(replies@),
            unanswered@ == ReplyModel::Failed,
            answers(pool.results(), asked, given),
        ensures
            pool.finished(),
        decreases asked.len() - pool.results().len(),
    {
        let ghost so_far = pool.results();
        loop
            invariant
                pool.wf(),
                pool.results() == so_far,
                pool.requests() == asked,
                pool.limit() == limit,
                !pool.cancelled(),
                answers(pool.results(), asked, given),
            ensures
                !pool.admits(),
            decreases asked.len() - pool.dispatched(),
        {
            if pool.next_dispatch().is_none() {
                break;
            }
        }
        if pool.is_finished() {
            break;
        }
        let index: usize = pool.in_flight[pool.in_flight.len() - 1];
        assert(pool.in_flight()[pool.in_flight().len() - 1] == index as int);
        assert(pool.in_flight().contains(index as int));
        let reply = if index < replies.len() {
            &replies[index]
        } else {
            &unanswered
        };
        assert(reply@ == reply_at(given, index as int));
        let ghost before = pool.results();
        pool.complete(index, reply);
        assert forall|k: int| 0 <= k < pool.results().len() implies 0 <= (
        #[trigger] pool.results()[k]).index < asked.len() && pool.results()[k] == lookup_of(
            asked[pool.results()[k].index],
            pool.results()[k].index,
            reply_at(given, pool.results()[k].index),
        ) by {
            if k < before.len() {
                assert(pool.results()[k] == before[k]);
            }
        }
    }
    proof {
        lemma_finished_run_is_complete(pool);
    }
    Ok(pool.into_results())
}

} // verus!
