//! The tables of the queries that clients run over HTTP, and of their sessions.

use std::sync::Arc;

use vstd::hash_map::StringHashMap;
use vstd::prelude::*;

use crate::exception::ErrorCode;
use crate::http::expire::{ExpireWatch, Timeout};

verus! {

/// A query, with what runs it.
#[derive(Debug)]
pub struct HttpQuery<Q> {
    pub id: String,
    /// How long nobody may ask for the results before the query times out.
    pub result_timeout_secs: u64,
    pub runner: Q,
}

/// A session of a client, with what it holds.
#[derive(Debug)]
pub struct Session<S> {
    pub id: String,
    pub state: S,
}

/// A session that ends after some time.
#[derive(Debug)]
pub struct SessionTimeout {
    pub session_id: String,
    pub timeout: Timeout,
}

/// What comes next in the removal of a query.
#[derive(Debug)]
pub enum RemoveStep<Q> {
    /// Mark the query as removed.
    MarkRemoved(Arc<HttpQuery<Q>>),
    /// The removal is done: the query that was removed, if there was one.
    Done(Option<Arc<HttpQuery<Q>>>),
}

impl<Q> RemoveStep<Q> {
    /// What the removal of a query begins with, where there is one or not.
    pub open spec fn first(query: Option<Arc<HttpQuery<Q>>>) -> RemoveStep<Q> {
        match query {
            Some(q) => RemoveStep::MarkRemoved(q),
            None => RemoveStep::Done(None),
        }
    }

    /// What comes after the step was taken.
    pub open spec fn after(self) -> RemoveStep<Q> {
        match self {
            RemoveStep::MarkRemoved(query) => RemoveStep::Done(Some(query)),
            RemoveStep::Done(query) => RemoveStep::Done(query),
        }
    }

    /// Goes on after the query was marked as removed.
    pub fn resume(self) -> (r: RemoveStep<Q>)
        requires
            self is MarkRemoved,
        ensures
            r == self.after(),
    {
        match self {
            RemoveStep::MarkRemoved(query) => RemoveStep::Done(Some(query)),
            RemoveStep::Done(query) => RemoveStep::Done(query),
        }
    }
}

/// The tables of queries and sessions, by their ids.
#[verifier::reject_recursive_types(Q)]
#[verifier::reject_recursive_types(S)]
pub struct HttpQueryManager<Q, S> {
    pub queries: StringHashMap<Arc<HttpQuery<Q>>>,
    pub sessions: StringHashMap<Arc<Session<S>>>,
}

impl<Q, S> HttpQueryManager<Q, S> {
    /// Every query and every session is kept under its own id.
    pub open spec fn wf(self) -> bool {
        &&& forall|id: Seq<char>| #[trigger]
            self.queries@.contains_key(id) ==> self.queries@[id].id@ == id
        &&& forall|id: Seq<char>| #[trigger]
            self.sessions@.contains_key(id) ==> self.sessions@[id].id@ == id
    }

    /// The query of that id, if there is one.
    pub open spec fn query(self, id: Seq<char>) -> Option<Arc<HttpQuery<Q>>> {
        if self.queries@.contains_key(id) {
            Some(self.queries@[id])
        } else {
            None
        }
    }

    /// The session of that id, if there is one.
    pub open spec fn session(self, id: Seq<char>) -> Option<Arc<Session<S>>> {
        if self.sessions@.contains_key(id) {
            Some(self.sessions@[id])
        } else {
            None
        }
    }

    /// The tables without anything in them.
    pub fn init() -> (r: HttpQueryManager<Q, S>)
        ensures
            r.wf(),
            r.queries@ == Map::<Seq<char>, Arc<HttpQuery<Q>>>::empty(),
            r.sessions@ == Map::<Seq<char>, Arc<Session<S>>>::empty(),
    {
        HttpQueryManager { queries: StringHashMap::new(), sessions: StringHashMap::new() }
    }

    /// Keeps a query that was created, and gives the watch that has to begin over it.
    pub fn try_create_query(&mut self, created: Result<HttpQuery<Q>, ErrorCode>) -> (r: Result<
        (Arc<HttpQuery<Q>>, ExpireWatch),
        ErrorCode,
    >)
        ensures
            old(self).wf() ==> final(self).wf(),
            final(self).sessions@ == old(self).sessions@,
            match created {
                Ok(query) => {
                    &&& r matches Ok((kept, watch))
                    &&& *kept == query
                    &&& watch.query_id@ == query.id@
                    &&& watch.result_timeout_secs == query.result_timeout_secs
                    &&& final(self).queries@ == old(self).queries@.insert(query.id@, kept)
                },
                Err(e) => {
                    &&& r == Err::<(Arc<HttpQuery<Q>>, ExpireWatch), ErrorCode>(e)
                    &&& final(self).queries@ == old(self).queries@
                },
            },
    {
        match created {
            Ok(query) => {
                let query = Arc::new(query);
                let query_id = query.id.clone();
                let watch = self.add_query(query_id.as_str(), query.clone());
                Ok((query, watch))
            },
            Err(e) => Err(e),
        }
    }

    /// The query of that id.
    pub fn get_query(&self, query_id: &str) -> (r: Option<Arc<HttpQuery<Q>>>)
        ensures
            r == self.query(query_id@),
    {
        match self.queries.get(query_id) {
            Some(query) => Some(query.clone()),
            None => None,
        }
    }

    /// Keeps a query under an id, in place of what was kept under it, and gives the watch that has
    /// to begin over it.
    pub fn add_query(&mut self, query_id: &str, query: Arc<HttpQuery<Q>>) -> (r: ExpireWatch)
        ensures
            old(self).wf() && query_id@ == query.id@ ==> final(self).wf(),
            final(self).queries@ == old(self).queries@.insert(query_id@, query),
            final(self).sessions@ == old(self).sessions@,
            r.query_id@ == query_id@,
            r.result_timeout_secs == query.result_timeout_secs,
    {
        let result_timeout_secs = query.result_timeout_secs;
        self.queries.insert(query_id.to_owned(), query);
        ExpireWatch { query_id: query_id.to_owned(), result_timeout_secs }
    }

    /// Removes the query of that id from the table, and says what comes next. A query stays until
    /// it has timed out or the client cancels it, even if it was aborted.
    pub fn remove_query(&mut self, query_id: &str) -> (r: RemoveStep<Q>)
        ensures
            old(self).wf() ==> final(self).wf(),
            r == RemoveStep::first(old(self).query(query_id@)),
            final(self).queries@ == old(self).queries@.remove(query_id@),
            final(self).sessions@ == old(self).sessions@,
    {
        let query = self.get_query(query_id);
        self.queries.remove(query_id);
        match query {
            Some(query) => RemoveStep::MarkRemoved(query),
            None => RemoveStep::Done(None),
        }
    }

    /// The session of that id.
    pub fn get_session(&self, session_id: &str) -> (r: Option<Arc<Session<S>>>)
        ensures
            r == self.session(session_id@),
    {
        match self.sessions.get(session_id) {
            Some(session) => Some(session.clone()),
            None => None,
        }
    }

    /// Keeps a session, in place of what was kept under its id, and gives when it has to end.
    pub fn add_session(&mut self, session: Arc<Session<S>>, timeout: Timeout) -> (r: SessionTimeout)
        ensures
            old(self).wf() ==> final(self).wf(),
            final(self).queries@ == old(self).queries@,
            final(self).sessions@ == old(self).sessions@.insert(session.id@, session),
            r.session_id@ == session.id@,
            r.timeout == timeout,
    {
        let session_id = session.id.clone();
        self.sessions.insert(session.id.clone(), session);
        SessionTimeout { session_id, timeout }
    }

    /// Removes the session of that id.
    pub fn kill_session(&mut self, session_id: &str)
        ensures
            old(self).wf() ==> final(self).wf(),
            final(self).queries@ == old(self).queries@,
            final(self).sessions@ == old(self).sessions@.remove(session_id@),
    {
        self.sessions.remove(session_id);
    }
}

/// What was added under an id is found there, and what is under other ids is as it was.
pub proof fn law_query_is_found_after_it_was_added<Q, S>(
    before: HttpQueryManager<Q, S>,
    after: HttpQueryManager<Q, S>,
    id: Seq<char>,
    query: Arc<HttpQuery<Q>>,
)
    requires
        after.queries@ == before.queries@.insert(id, query),
    ensures
        after.query(id) == Some(query),
        forall|other: Seq<char>|
            other != id ==> #[trigger] after.query(other) == before.query(other),
{
}

/// What was removed is not found any more, and what is under other ids is as it was.
pub proof fn law_query_is_gone_after_it_was_removed<Q, S>(
    before: HttpQueryManager<Q, S>,
    after: HttpQueryManager<Q, S>,
    id: Seq<char>,
)
    requires
        after.queries@ == before.queries@.remove(id),
    ensures
        after.query(id) is None,
        forall|other: Seq<char>|
            other != id ==> #[trigger] after.query(other) == before.query(other),
{
}

/// The steps are those of a removal that has come to its end, where `query` was kept under the id.
pub open spec fn is_removal<Q>(
    query: Option<Arc<HttpQuery<Q>>>,
    steps: Seq<RemoveStep<Q>>,
) -> bool {
    &&& steps.len() > 0
    &&& steps[0] == RemoveStep::first(query)
    &&& steps.last() is Done
    &&& forall|k: int|
        0 <= k < steps.len() - 1 ==> (#[trigger] steps[k]) is MarkRemoved && steps[k + 1]
            == steps[k].after()
}

/// How many of the steps mark a query as removed.
pub open spec fn count_marks<Q>(steps: Seq<RemoveStep<Q>>) -> nat
    decreases steps.len(),
{
    if steps.len() == 0 {
        0
    } else {
        count_marks(steps.drop_last()) + if steps.last() is MarkRemoved {
            1nat
        } else {
            0nat
        }
    }
}

/// A removal gives the query that was kept under the id. It is marked as removed, once and no other
/// is, and where there was none nothing is marked. Nothing is marked when the id is removed again.
pub proof fn law_removed_query_is_marked_once<Q, S>(
    before: HttpQueryManager<Q, S>,
    after: HttpQueryManager<Q, S>,
    id: Seq<char>,
    steps: Seq<RemoveStep<Q>>,
)
    requires
        after.queries@ == before.queries@.remove(id),
        is_removal(before.query(id), steps),
    ensures
        steps.last() == RemoveStep::Done(before.query(id)),
        match before.query(id) {
            Some(query) => steps == seq![
                RemoveStep::MarkRemoved(query),
                RemoveStep::Done(Some(query)),
            ] && count_marks(steps) == 1,
            None => count_marks(steps) == 0,
        },
        RemoveStep::first(after.query(id)) == RemoveStep::<Q>::Done(None),
{
    reveal_with_fuel(count_marks, 3);
    match before.query(id) {
        Some(query) => {
            assert(steps[0] is MarkRemoved);
            assert(steps.len() > 1);
            assert(steps[1] == steps[0].after());
            if steps.len() > 2 {
                assert(steps[1] is MarkRemoved);
            }
            assert(steps =~= seq![RemoveStep::MarkRemoved(query), RemoveStep::Done(Some(query))]);
            assert(steps.drop_last() =~= seq![RemoveStep::MarkRemoved(query)]);
            assert(steps.drop_last().drop_last() =~= Seq::empty());
        },
        None => {
            if steps.len() > 1 {
                assert(steps[0] is MarkRemoved);
            }
            assert(steps.drop_last() =~= Seq::empty());
        },
    }
}

/// To remove what was added gives back the table from before, where nothing was kept under the id.
pub proof fn law_removal_undoes_addition<Q, S>(
    before: HttpQueryManager<Q, S>,
    id: Seq<char>,
    query: Arc<HttpQuery<Q>>,
)
    requires
        before.query(id) is None,
    ensures
        before.queries@.insert(id, query).remove(id) == before.queries@,
{
    assert(before.queries@.insert(id, query).remove(id) =~= before.queries@);
}

/// A session is found after it was added and is not after it was killed, and other sessions are as
/// they were.
pub proof fn law_sessions<Q, S>(
    before: HttpQueryManager<Q, S>,
    added: HttpQueryManager<Q, S>,
    killed: HttpQueryManager<Q, S>,
    session: Arc<Session<S>>,
)
    requires
        added.sessions@ == before.sessions@.insert(session.id@, session),
        killed.sessions@ == added.sessions@.remove(session.id@),
    ensures
        added.session(session.id@) == Some(session),
        killed.session(session.id@) is None,
        forall|other: Seq<char>|
            other != session.id@ ==> #[trigger] killed.session(other) == before.session(other),
{
}

} // verus!
