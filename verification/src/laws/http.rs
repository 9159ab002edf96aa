//! Laws on the queries and sessions of HTTP clients.

use std::sync::Arc;

use vstd::prelude::*;

use crate::exception::ErrorCode;
use crate::http::expire::{ExpireAction, ExpireEvent, ExpireResult, ExpireWatch, Timeout};
use crate::http::manager::{HttpQuery, HttpQueryManager, RemoveStep, Session, SessionTimeout};
use crate::laws::expression::{law_decimal_stands_for_the_number, number_of};
use crate::text::decimal;

verus! {

/// Under that id the tables hold the same, or both nothing.
pub open spec fn same_at<V>(
    before: Map<Seq<char>, V>,
    after: Map<Seq<char>, V>,
    id: Seq<char>,
) -> bool {
    &&& after.contains_key(id) <==> before.contains_key(id)
    &&& before.contains_key(id) ==> after[id] == before[id]
}

/// At first there are no queries and no sessions.
pub proof fn law_tables_begin_empty<Q, S>(r: HttpQueryManager<Q, S>, id: Seq<char>)
    requires
        call_ensures(HttpQueryManager::<Q, S>::init, (), r),
    ensures
        !r.queries@.contains_key(id),
        !r.sessions@.contains_key(id),
{
}

/// A query is found under an id exactly where one is kept under it.
pub proof fn law_kept_query_is_found<Q, S>(
    m: HttpQueryManager<Q, S>,
    id: &str,
    r: Option<Arc<HttpQuery<Q>>>,
)
    requires
        call_ensures(HttpQueryManager::<Q, S>::get_query, (&m, id), r),
    ensures
        match r {
            Some(query) => m.queries@.contains_key(id@) && m.queries@[id@] == query,
            None => !m.queries@.contains_key(id@),
        },
{
}

/// After a query was added it is found under its id, all other queries and all sessions are as they
/// were, and it is watched over under that id for as long as it may go unasked.
pub proof fn law_added_query_is_kept<Q, S>(
    m: &mut HttpQueryManager<Q, S>,
    id: &str,
    query: Arc<HttpQuery<Q>>,
    watch: ExpireWatch,
    other: Seq<char>,
)
    requires
        call_ensures(HttpQueryManager::<Q, S>::add_query, (m, id, query), watch),
    ensures
        final(m).queries@.contains_key(id@),
        final(m).queries@[id@] == query,
        other != id@ ==> same_at(old(m).queries@, final(m).queries@, other),
        final(m).sessions@ == old(m).sessions@,
        watch.query_id@ == id@,
        watch.result_timeout_secs == query.result_timeout_secs,
{
}

/// A query that was created is kept under its own id and handed back with its watch. One that could
/// not be created is not kept, and the error is handed on.
pub proof fn law_created_query_is_kept_under_its_id<Q, S>(
    m: &mut HttpQueryManager<Q, S>,
    created: Result<HttpQuery<Q>, ErrorCode>,
    r: Result<(Arc<HttpQuery<Q>>, ExpireWatch), ErrorCode>,
    other: Seq<char>,
)
    requires
        call_ensures(HttpQueryManager::<Q, S>::try_create_query, (m, created), r),
    ensures
        final(m).sessions@ == old(m).sessions@,
        created matches Ok(query) ==> {
            &&& r matches Ok((kept, watch)) && *kept == query && final(m).queries@.contains_key(
                query.id@,
            ) && final(m).queries@[query.id@] == kept && watch.query_id@ == query.id@
                && watch.result_timeout_secs == query.result_timeout_secs
            &&& other != query.id@ ==> same_at(old(m).queries@, final(m).queries@, other)
        },
        created matches Err(e) ==> final(m).queries@ == old(m).queries@ && (r matches Err(f) && f
            == e),
{
}

/// After an id was removed nothing is found under it, and all other queries and all sessions are as
/// they were. What was found is marked, and then handed back; where nothing was found nothing is
/// marked.
pub proof fn law_removed_query_is_gone<Q, S>(
    m: &mut HttpQueryManager<Q, S>,
    id: &str,
    step: RemoveStep<Q>,
    other: Seq<char>,
)
    requires
        call_ensures(HttpQueryManager::<Q, S>::remove_query, (m, id), step),
    ensures
        !final(m).queries@.contains_key(id@),
        other != id@ ==> same_at(old(m).queries@, final(m).queries@, other),
        final(m).sessions@ == old(m).sessions@,
        old(m).queries@.contains_key(id@) ==> (step matches RemoveStep::MarkRemoved(query) && query
            == old(m).queries@[id@]),
        !old(m).queries@.contains_key(id@) ==> (step matches RemoveStep::Done(query)
            && query is None),
{
}

/// What was marked is handed back, and the removal is done.
pub proof fn law_marked_query_is_handed_back<Q>(
    query: Arc<HttpQuery<Q>>,
    r: RemoveStep<Q>,
)
    requires
        call_ensures(RemoveStep::<Q>::resume, (RemoveStep::MarkRemoved(query),), r),
    ensures
        r matches RemoveStep::Done(removed) && removed == Some(query),
{
}

/// A session is found under an id exactly where one is kept under it.
pub proof fn law_kept_session_is_found<Q, S>(
    m: HttpQueryManager<Q, S>,
    id: &str,
    r: Option<Arc<Session<S>>>,
)
    requires
        call_ensures(HttpQueryManager::<Q, S>::get_session, (&m, id), r),
    ensures
        match r {
            Some(session) => m.sessions@.contains_key(id@) && m.sessions@[id@] == session,
            None => !m.sessions@.contains_key(id@),
        },
{
}

/// After a session was added it is found under its id, all other sessions and all queries are as
/// they were, and it has to end after the time that was given.
pub proof fn law_added_session_is_kept<Q, S>(
    m: &mut HttpQueryManager<Q, S>,
    session: Arc<Session<S>>,
    timeout: Timeout,
    r: SessionTimeout,
    other: Seq<char>,
)
    requires
        call_ensures(HttpQueryManager::<Q, S>::add_session, (m, session, timeout), r),
    ensures
        final(m).sessions@.contains_key(session.id@),
        final(m).sessions@[session.id@] == session,
        other != session.id@ ==> same_at(old(m).sessions@, final(m).sessions@, other),
        final(m).queries@ == old(m).queries@,
        r.session_id@ == session.id@,
        r.timeout == timeout,
{
}

/// After a session was killed nothing is found under its id, and all other sessions and all queries
/// are as they were.
pub proof fn law_killed_session_is_gone<Q, S>(
    m: &mut HttpQueryManager<Q, S>,
    id: &str,
    other: Seq<char>,
)
    requires
        call_ensures(HttpQueryManager::<Q, S>::kill_session, (m, id), ()),
    ensures
        !final(m).sessions@.contains_key(id@),
        other != id@ ==> same_at(old(m).sessions@, final(m).sessions@, other),
        final(m).queries@ == old(m).queries@,
{
}

/// A query is asked if it has timed out when the watch begins and after each sleep, and the watch
/// sleeps as long as the query says.
pub proof fn law_watch_asks_and_sleeps_in_turn(
    watch: ExpireWatch,
    timeout: Timeout,
    started: ExpireAction,
    slept: ExpireAction,
    asked: ExpireAction,
)
    requires
        call_ensures(ExpireWatch::next, (&watch, ExpireEvent::Started), started),
        call_ensures(ExpireWatch::next, (&watch, ExpireEvent::Slept), slept),
        call_ensures(
            ExpireWatch::next,
            (&watch, ExpireEvent::Checked(ExpireResult::Sleep(timeout))),
            asked,
        ),
    ensures
        started is Check,
        slept is Check,
        asked matches ExpireAction::Sleep(t) && t == timeout,
{
    assert(started@ is Check);
    assert(slept@ is Check);
}

/// The watch ends where the query is gone or was removed, and removes one that has timed out, by
/// the id that it is kept under.
pub proof fn law_watch_removes_what_has_timed_out(
    watch: ExpireWatch,
    gone: ExpireAction,
    removed: ExpireAction,
    expired: ExpireAction,
)
    requires
        call_ensures(ExpireWatch::next, (&watch, ExpireEvent::Gone), gone),
        call_ensures(
            ExpireWatch::next,
            (&watch, ExpireEvent::Checked(ExpireResult::Removed)),
            removed,
        ),
        call_ensures(
            ExpireWatch::next,
            (&watch, ExpireEvent::Checked(ExpireResult::Expired)),
            expired,
        ),
    ensures
        gone is Stop,
        removed is Stop,
        expired matches ExpireAction::Remove(id) && id@ == watch.query_id@,
{
    assert(gone@ is Stop);
    assert(removed@ is Stop);
}

/// The text says which query has timed out, and after how many seconds.
pub open spec fn says_timeout(text: Seq<char>, watch: ExpireWatch, seconds: Seq<char>) -> bool {
    &&& text == "http query "@ + watch.query_id@ + " timeout after "@ + seconds + " s"@
    &&& number_of(seconds) == watch.result_timeout_secs
    &&& forall|k: int| 0 <= k < seconds.len() ==> '0' <= #[trigger] seconds[k] <= '9'
}

/// A query that has timed out and was removed is reported, and killed for the reason that is
/// reported. One that was not there to be removed is reported as such, and is not killed.
pub proof fn law_removed_query_is_killed(
    watch: ExpireWatch,
    was_removed: bool,
    r: ExpireAction,
)
    requires
        call_ensures(ExpireWatch::next, (&watch, ExpireEvent::Removal(was_removed)), r),
    ensures
        was_removed ==> (r matches ExpireAction::Report { warning, kill: Some(reason) }
            && exists|seconds: Seq<char>| #[trigger]
            says_timeout(warning@, watch, seconds) && reason@ == warning@),
        !was_removed ==> (r matches ExpireAction::Report { warning, kill: None }
            && exists|text: Seq<char>, seconds: Seq<char>| #[trigger]
            says_timeout(text, watch, seconds) && warning@ == text + ", but fail to remove"@),
{
    let secs = watch.result_timeout_secs as nat;
    let seconds = decimal(secs);
    law_decimal_stands_for_the_number(secs);
    let text = "http query "@ + watch.query_id@ + " timeout after "@ + seconds + " s"@;
    assert(says_timeout(text, watch, seconds));
    assert(r@ is Report);
}

} // verus!
