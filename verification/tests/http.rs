use std::sync::Arc;

use databend_query::exception::{ErrorCode, ErrorKind};
use databend_query::http::expire::{
    ExpireAction, ExpireEvent, ExpireResult, ExpireWatch, Timeout,
};
use databend_query::http::manager::{HttpQuery, HttpQueryManager, RemoveStep, Session};

fn query(id: &str, runner: u32) -> HttpQuery<u32> {
    HttpQuery { id: id.to_string(), result_timeout_secs: 60, runner }
}

fn removed(m: &mut HttpQueryManager<u32, bool>, id: &str) -> (Option<u32>, Vec<u32>) {
    let mut marked = vec![];
    let mut step = m.remove_query(id);
    loop {
        match &step {
            RemoveStep::MarkRemoved(query) => marked.push(query.runner),
            RemoveStep::Done(query) => return (query.as_ref().map(|q| q.runner), marked),
        }
        step = step.resume();
    }
}

fn manager() -> HttpQueryManager<u32, bool> {
    HttpQueryManager::init()
}

#[test]
fn created_query_is_found() {
    let mut m = manager();
    assert!(m.get_query("q1").is_none());
    let (kept, watch) = m.try_create_query(Ok(query("q1", 7))).unwrap();
    assert_eq!(kept.runner, 7);
    assert_eq!(watch.query_id, "q1");
    assert_eq!(watch.result_timeout_secs, 60);
    m.try_create_query(Ok(query("q2", 8))).unwrap();
    assert_eq!(m.get_query("q1").unwrap().runner, 7);
    assert_eq!(m.get_query("q2").unwrap().runner, 8);
}

#[test]
fn query_that_could_not_be_created_is_not_kept() {
    let mut m = manager();
    let failed = ErrorCode::create(ErrorKind::Other(1005), "syntax error");
    let e = m.try_create_query(Err(failed)).unwrap_err();
    assert_eq!(e.message, "syntax error");
    assert!(m.queries.is_empty());
}

#[test]
fn query_added_later_takes_the_place() {
    let mut m = manager();
    m.add_query("q", Arc::new(query("q", 1)));
    m.add_query("q", Arc::new(query("q", 2)));
    assert_eq!(m.get_query("q").unwrap().runner, 2);
}

#[test]
fn removed_query_is_gone() {
    let mut m = manager();
    m.add_query("q1", Arc::new(query("q1", 1)));
    m.add_query("q2", Arc::new(query("q2", 2)));
    assert_eq!(removed(&mut m, "q1"), (Some(1), vec![1]));
    assert!(m.get_query("q1").is_none());
    assert_eq!(removed(&mut m, "q1"), (None, vec![]));
    assert_eq!(m.get_query("q2").unwrap().runner, 2);
}

#[test]
fn sessions_are_kept_until_they_are_killed() {
    let mut m = manager();
    let timeout = Timeout { secs: 3600, nanos: 5 };
    let ends = m.add_session(Arc::new(Session { id: "s".to_string(), state: true }), timeout);
    assert_eq!(ends.session_id, "s");
    assert_eq!(ends.timeout, timeout);
    m.add_session(Arc::new(Session { id: "t".to_string(), state: false }), timeout);
    assert!(m.get_session("s").unwrap().state);
    m.kill_session("s");
    assert!(m.get_session("s").is_none());
    assert!(!m.get_session("t").unwrap().state);
    m.kill_session("s");
}

fn watch() -> ExpireWatch {
    ExpireWatch { query_id: "abc".to_string(), result_timeout_secs: 120 }
}

#[test]
fn watch_checks_and_sleeps_in_turn() {
    let w = watch();
    let t = Timeout { secs: 3, nanos: 0 };
    assert!(matches!(w.next(ExpireEvent::Started), ExpireAction::Check));
    match w.next(ExpireEvent::Checked(ExpireResult::Sleep(t))) {
        ExpireAction::Sleep(d) => assert_eq!(d, t),
        _ => panic!("does not sleep"),
    }
    assert!(matches!(w.next(ExpireEvent::Slept), ExpireAction::Check));
    assert!(matches!(w.next(ExpireEvent::Gone), ExpireAction::Stop));
    assert!(matches!(w.next(ExpireEvent::Checked(ExpireResult::Removed)), ExpireAction::Stop));
}

#[test]
fn expired_query_is_removed_and_killed() {
    let w = watch();
    match w.next(ExpireEvent::Checked(ExpireResult::Expired)) {
        ExpireAction::Remove(id) => assert_eq!(id, "abc"),
        _ => panic!("is not removed"),
    }
    match w.next(ExpireEvent::Removal(true)) {
        ExpireAction::Report { warning, kill } => {
            assert_eq!(warning, "http query abc timeout after 120 s");
            assert_eq!(kill.unwrap(), "http query abc timeout after 120 s");
        }
        _ => panic!("is not reported"),
    }
}

#[test]
fn query_that_was_not_there_is_not_killed() {
    match watch().next(ExpireEvent::Removal(false)) {
        ExpireAction::Report { warning, kill } => {
            assert_eq!(warning, "http query abc timeout after 120 s, but fail to remove");
            assert!(kill.is_none());
        }
        _ => panic!("is not reported"),
    }
}
