use anyrun_provider::engine::{Action, Event, Phase, Session};
use anyrun_provider::protocol::{HandleResult, Match, PluginInfo, Request, Response};
use anyrun_provider::registry::Registry;

fn info(name: &str) -> PluginInfo {
    PluginInfo { name: name.to_string(), icon: format!("{name}-icon") }
}

fn candidate(title: &str) -> Match {
    Match { title: title.to_string(), description: None, use_pango: false, icon: None, id: None }
}

fn serving_session(names: &[&str]) -> Session {
    let results: Vec<Option<PluginInfo>> = names.iter().map(|n| Some(info(n))).collect();
    let mut session = Session::new(Registry::from_load_results(results));
    session.handshake();
    session
}

#[test]
fn handshake_reports_loaded_plugins_in_order() {
    let results = vec![Some(info("applications")), None, Some(info("symbols"))];
    let mut session = Session::new(Registry::from_load_results(results));
    let ready = session.handshake();
    match ready {
        Response::Ready { info } => {
            assert_eq!(info.len(), 2);
            assert_eq!(info[0].name, "applications");
            assert_eq!(info[1].name, "symbols");
        }
        _ => panic!("handshake must answer with Ready"),
    }
    assert_eq!(session.phase, Phase::Serving);
}

#[test]
fn requests_before_handshake_are_ignored() {
    let mut session = Session::new(Registry::from_load_results(vec![Some(info("a"))]));
    let out = session.step(Event::Line(Request::Query { text: "early".to_string() }));
    assert!(out.is_empty());
    assert_eq!(session.phase, Phase::AwaitingHandshake);
}

#[test]
fn query_fans_out_one_worker_per_plugin() {
    let mut session = serving_session(&["a", "b"]);
    let out = session.step(Event::Line(Request::Query { text: "foo".to_string() }));
    assert_eq!(out.len(), 2);
    for (i, action) in out.iter().enumerate() {
        match action {
            Action::Spawn { index, round, text } => {
                assert_eq!(*index, i);
                assert_eq!(*round, 0);
                assert_eq!(text, "foo");
            }
            _ => panic!("a query must only spawn workers"),
        }
    }
}

#[test]
fn results_are_delivered_in_completion_order() {
    let mut session = serving_session(&["a", "b"]);
    session.step(Event::Line(Request::Query { text: "foo".to_string() }));

    // Plugin `a` finishes first with one match, although both were
    // spawned together; its response goes out immediately.
    let out = session.step(Event::WorkerDone { index: 0, round: 0, matches: vec![candidate("x")] });
    assert_eq!(out.len(), 1);
    match &out[0] {
        Action::Send(Response::Matches { plugin, matches }) => {
            assert_eq!(plugin.name, "a");
            assert_eq!(matches.len(), 1);
            assert_eq!(matches[0].title, "x");
        }
        _ => panic!("a finished worker must yield exactly one Matches"),
    }

    // Plugin `b` finishes later with no matches: still one response.
    let out = session.step(Event::WorkerDone { index: 1, round: 0, matches: vec![] });
    assert_eq!(out.len(), 1);
    match &out[0] {
        Action::Send(Response::Matches { plugin, matches }) => {
            assert_eq!(plugin.name, "b");
            assert!(matches.is_empty());
        }
        _ => panic!("a finished worker must yield exactly one Matches"),
    }
}

#[test]
fn duplicate_result_for_one_round_is_discarded() {
    let mut session = serving_session(&["a"]);
    session.step(Event::Line(Request::Query { text: "foo".to_string() }));
    let first = session.step(Event::WorkerDone { index: 0, round: 0, matches: vec![] });
    assert_eq!(first.len(), 1);
    let second = session.step(Event::WorkerDone { index: 0, round: 0, matches: vec![] });
    assert!(second.is_empty());
}

#[test]
fn later_query_supersedes_earlier_round() {
    let mut session = serving_session(&["a", "b"]);
    session.step(Event::Line(Request::Query { text: "first".to_string() }));
    session.step(Event::Line(Request::Query { text: "second".to_string() }));

    // A late worker from the first round is silently dropped.
    let stale = session.step(Event::WorkerDone {
        index: 0,
        round: 0,
        matches: vec![candidate("stale")],
    });
    assert!(stale.is_empty());

    // The second round's result is the one delivered.
    let fresh = session.step(Event::WorkerDone {
        index: 0,
        round: 1,
        matches: vec![candidate("fresh")],
    });
    assert_eq!(fresh.len(), 1);
    match &fresh[0] {
        Action::Send(Response::Matches { plugin, matches }) => {
            assert_eq!(plugin.name, "a");
            assert_eq!(matches[0].title, "fresh");
        }
        _ => panic!("the superseding round must be delivered"),
    }
}

#[test]
fn result_for_unknown_index_is_discarded() {
    let mut session = serving_session(&["a"]);
    session.step(Event::Line(Request::Query { text: "foo".to_string() }));
    let out = session.step(Event::WorkerDone { index: 7, round: 0, matches: vec![] });
    assert!(out.is_empty());
    assert_eq!(session.phase, Phase::Serving);
}

#[test]
fn handle_yields_exactly_one_handled_before_anything_else() {
    let mut session = serving_session(&["a", "b"]);
    let out = session.step(Event::Line(Request::Handle {
        plugin: info("b"),
        selection: candidate("picked"),
    }));
    assert_eq!(out.len(), 1);
    match &out[0] {
        Action::Invoke { index, selection } => {
            assert_eq!(*index, 1);
            assert_eq!(selection.title, "picked");
        }
        _ => panic!("Handle must invoke the named plugin synchronously"),
    }
    assert_eq!(session.phase, Phase::AwaitingHandle { index: 1 });

    // No request is processed while the synchronous call is outstanding.
    let interim = session.step(Event::Line(Request::Query { text: "late".to_string() }));
    assert!(interim.is_empty());
    assert_eq!(session.phase, Phase::AwaitingHandle { index: 1 });

    // The call's outcome yields exactly one Handled, tagged with the
    // called plugin, and nothing else — in particular no re-query.
    let done = session.step(Event::HandleReturned(HandleResult::Refresh(false)));
    assert_eq!(done.len(), 1);
    match &done[0] {
        Action::Send(Response::Handled { plugin, result }) => {
            assert_eq!(plugin.name, "b");
            assert!(matches!(result, HandleResult::Refresh(false)));
        }
        _ => panic!("the outcome must yield exactly one Handled"),
    }
    assert_eq!(session.phase, Phase::Serving);
}

#[test]
fn handle_for_unknown_plugin_fails_only_that_request() {
    let mut session = serving_session(&["a"]);
    let out = session.step(Event::Line(Request::Handle {
        plugin: info("nowhere"),
        selection: candidate("picked"),
    }));
    assert!(out.is_empty());
    assert_eq!(session.phase, Phase::Serving);

    // The session still serves: the next request works as usual.
    let next = session.step(Event::Line(Request::Query { text: "foo".to_string() }));
    assert_eq!(next.len(), 1);
}

#[test]
fn reset_reinitializes_every_plugin_in_order_without_response() {
    let mut session = serving_session(&["a", "b", "c"]);
    let out = session.step(Event::Line(Request::Reset));
    assert_eq!(out.len(), 3);
    for (i, action) in out.iter().enumerate() {
        match action {
            Action::Reinit { index } => assert_eq!(*index, i),
            _ => panic!("Reset must only re-initialize plugins"),
        }
    }
}

#[test]
fn reset_twice_leaves_the_same_observable_state() {
    let mut session = serving_session(&["a", "b"]);
    session.step(Event::Line(Request::Query { text: "foo".to_string() }));

    let first = session.step(Event::Line(Request::Reset));
    let list_after_first: Vec<String> =
        session.registry.list().into_iter().map(|p| p.name).collect();

    let second = session.step(Event::Line(Request::Reset));
    let list_after_second: Vec<String> =
        session.registry.list().into_iter().map(|p| p.name).collect();

    assert_eq!(first.len(), second.len());
    assert_eq!(list_after_first, vec!["a".to_string(), "b".to_string()]);
    assert_eq!(list_after_first, list_after_second);
    assert_eq!(session.phase, Phase::Serving);

    // A worker of the pre-reset round finds its pending state discarded.
    let stale = session.step(Event::WorkerDone { index: 0, round: 0, matches: vec![] });
    assert!(stale.is_empty());
}

#[test]
fn disconnect_mid_round_ends_quietly_and_discards_results() {
    let mut session = serving_session(&["a", "b"]);
    session.step(Event::Line(Request::Query { text: "foo".to_string() }));

    let out = session.step(Event::Disconnected);
    assert!(out.is_empty());
    assert!(session.is_closed());
    assert!(!session.quit_requested());

    // Workers still in flight are ignored once the session closed.
    let late = session.step(Event::WorkerDone { index: 0, round: 0, matches: vec![candidate("x")] });
    assert!(late.is_empty());
    let later = session.step(Event::WorkerDone { index: 1, round: 0, matches: vec![] });
    assert!(later.is_empty());
}

#[test]
fn quit_closes_with_the_stop_signal() {
    let mut session = serving_session(&["a"]);
    let out = session.step(Event::Line(Request::Quit));
    assert!(out.is_empty());
    assert!(session.is_closed());
    assert!(session.quit_requested());
}

#[test]
fn malformed_line_ends_the_session() {
    let mut session = serving_session(&["a"]);
    let out = session.step(Event::Malformed);
    assert!(out.is_empty());
    assert!(session.is_closed());
    assert!(!session.quit_requested());
}

#[test]
fn would_block_is_not_an_error() {
    let mut session = serving_session(&["a"]);
    let out = session.step(Event::WouldBlock);
    assert!(out.is_empty());
    assert_eq!(session.phase, Phase::Serving);
}

#[test]
fn find_locates_the_first_matching_entry() {
    let registry = Registry::from_load_results(vec![
        Some(info("a")),
        Some(info("b")),
        Some(info("b")),
    ]);
    assert_eq!(registry.find(&info("b")), Some(1));
    assert_eq!(registry.find(&info("nowhere")), None);
}
