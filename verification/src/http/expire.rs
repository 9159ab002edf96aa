//! Watching over a query whose results nobody asks for any more.

use vstd::prelude::*;

use crate::text::{append_decimal, decimal};

verus! {

/// How long something lasts.
#[derive(Clone, Copy, PartialEq, Eq, Debug, Structural)]
pub struct Timeout {
    pub secs: u64,
    /// The part of a second, in nanoseconds.
    pub nanos: u32,
}

/// What a query says when it is asked if it has timed out.
#[derive(Clone, Copy, PartialEq, Eq, Debug, Structural)]
pub enum ExpireResult {
    /// Nobody has asked for its results for too long.
    Expired,
    /// It cannot time out before then.
    Sleep(Timeout),
    /// It was removed.
    Removed,
}

/// What has happened while a query is watched over.
#[derive(Clone, Copy, PartialEq, Eq, Debug, Structural)]
pub enum ExpireEvent {
    /// The watch begins.
    Started,
    /// The query does not exist any more.
    Gone,
    /// The query was asked if it has timed out.
    Checked(ExpireResult),
    /// The sleep is over.
    Slept,
    /// The query was to be removed. It says if there was one to remove.
    Removal(bool),
}

/// What to do next for a query that is watched over.
#[derive(Debug)]
pub enum ExpireAction {
    /// Ask the query if it has timed out, if it still exists.
    Check,
    /// Sleep that long.
    Sleep(Timeout),
    /// Remove the query of that id.
    Remove(String),
    /// Log the warning, kill the query for the given reason, if there is one and the query still
    /// exists, and stop.
    Report { warning: String, kill: Option<String> },
    /// Stop.
    Stop,
}

/// The watch over a query.
#[derive(Debug)]
pub struct ExpireWatch {
    pub query_id: String,
    pub result_timeout_secs: u64,
}

/// The text that a query has timed out.
pub open spec fn timeout_message(query_id: Seq<char>, secs: nat) -> Seq<char> {
    "http query "@ + query_id + " timeout after "@ + decimal(secs) + " s"@
}

/// The text that a query has timed out and was not there to be removed.
pub open spec fn not_removed_message(query_id: Seq<char>, secs: nat) -> Seq<char> {
    timeout_message(query_id, secs) + ", but fail to remove"@
}

/// An `ExpireAction` with its texts as characters.
pub enum ExpireActionView {
    Check,
    Sleep(Timeout),
    Remove(Seq<char>),
    Report { warning: Seq<char>, kill: Option<Seq<char>> },
    Stop,
}

impl View for ExpireAction {
    type V = ExpireActionView;

    open spec fn view(&self) -> ExpireActionView {
        match self {
            ExpireAction::Check => ExpireActionView::Check,
            ExpireAction::Sleep(timeout) => ExpireActionView::Sleep(*timeout),
            ExpireAction::Remove(query_id) => ExpireActionView::Remove(query_id@),
            ExpireAction::Report { warning, kill } => ExpireActionView::Report {
                warning: warning@,
                kill: match kill {
                    Some(reason) => Some(reason@),
                    None => None,
                },
            },
            ExpireAction::Stop => ExpireActionView::Stop,
        }
    }
}

impl ExpireWatch {
    /// What to do after that has happened.
    pub open spec fn next_action(self, event: ExpireEvent) -> ExpireActionView {
        let message = timeout_message(self.query_id@, self.result_timeout_secs as nat);
        match event {
            ExpireEvent::Started => ExpireActionView::Check,
            ExpireEvent::Slept => ExpireActionView::Check,
            ExpireEvent::Gone => ExpireActionView::Stop,
            ExpireEvent::Checked(ExpireResult::Expired) => ExpireActionView::Remove(self.query_id@),
            ExpireEvent::Checked(ExpireResult::Sleep(timeout)) => ExpireActionView::Sleep(timeout),
            ExpireEvent::Checked(ExpireResult::Removed) => ExpireActionView::Stop,
            ExpireEvent::Removal(true) => ExpireActionView::Report {
                warning: message,
                kill: Some(message),
            },
            ExpireEvent::Removal(false) => ExpireActionView::Report {
                warning: not_removed_message(self.query_id@, self.result_timeout_secs as nat),
                kill: None,
            },
        }
    }

    fn message(&self) -> (r: String)
        ensures
            r@ == timeout_message(self.query_id@, self.result_timeout_secs as nat),
    {
        let mut message: String = "http query ".to_owned();
        message.append(self.query_id.as_str());
        message.append(" timeout after ");
        append_decimal(&mut message, self.result_timeout_secs);
        message.append(" s");
        message
    }

    /// What to do after that has happened.
    pub fn next(&self, event: ExpireEvent) -> (r: ExpireAction)
        ensures
            r@ == self.next_action(event),
    {
        match event {
            ExpireEvent::Started => ExpireAction::Check,
            ExpireEvent::Slept => ExpireAction::Check,
            ExpireEvent::Gone => ExpireAction::Stop,
            ExpireEvent::Checked(ExpireResult::Expired) => ExpireAction::Remove(
                self.query_id.clone(),
            ),
            ExpireEvent::Checked(ExpireResult::Sleep(timeout)) => ExpireAction::Sleep(timeout),
            ExpireEvent::Checked(ExpireResult::Removed) => ExpireAction::Stop,
            ExpireEvent::Removal(removed) => {
                let mut warning = self.message();
                if removed {
                    ExpireAction::Report { warning, kill: Some(self.message()) }
                } else {
                    warning.append(", but fail to remove");
                    ExpireAction::Report { warning, kill: None }
                }
            },
        }
    }
}

/// The event can come after the action, and the watch goes on after it.
pub open spec fn follows(action: ExpireActionView, event: ExpireEvent) -> bool {
    match action {
        ExpireActionView::Check => event is Gone || event is Checked,
        ExpireActionView::Sleep(_) => event is Slept,
        ExpireActionView::Remove(_) => event is Removal,
        ExpireActionView::Report { .. } => false,
        ExpireActionView::Stop => false,
    }
}

/// The events are those of a watch, in order.
pub open spec fn is_watch(watch: ExpireWatch, events: Seq<ExpireEvent>) -> bool {
    &&& events.len() > 0
    &&& events[0] is Started
    &&& forall|k: int|
        0 <= k < events.len() - 1 ==> follows(
            watch.next_action(#[trigger] events[k]),
            events[k + 1],
        )
}

/// A query is killed only after it said that it has timed out and was removed.
pub proof fn law_only_expired_queries_are_killed(
    watch: ExpireWatch,
    events: Seq<ExpireEvent>,
    k: int,
)
    requires
        is_watch(watch, events),
        0 <= k < events.len(),
        watch.next_action(events[k]) matches ExpireActionView::Report { kill, .. } && kill is Some,
    ensures
        k >= 2,
        events[k] == ExpireEvent::Removal(true),
        events[k - 1] == ExpireEvent::Checked(ExpireResult::Expired),
{
    assert(k > 0);
    assert(follows(watch.next_action(events[k - 1]), events[k]));
    if k == 1 {
        assert(events[0] is Started);
    }
}

/// A watch removes a query at most once, and goes on no further than to report it.
pub proof fn law_a_query_is_removed_at_most_once(
    watch: ExpireWatch,
    events: Seq<ExpireEvent>,
    k: int,
)
    requires
        is_watch(watch, events),
        0 <= k < events.len(),
        watch.next_action(events[k]) is Remove,
    ensures
        events.len() <= k + 2,
{
    if events.len() > k + 2 {
        assert(follows(watch.next_action(events[k]), events[k + 1]));
        assert(follows(watch.next_action(events[k + 1]), events[k + 2]));
    }
}

} // verus!
