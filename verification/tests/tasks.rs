use vidsort::fetcher;
use vidsort::fetcher::{FetcherAction, FetcherEvent, FetcherState};
use vidsort::launcher::{wait, Phase, TaskAction, TaskEvent};
use vidsort::listener::{dispatch_line, run, ListenerAction, ListenerEvent};
use vidsort::report::render_chain;
use vidsort::retry::{Retry, RetryStep};
use vidsort::types::{TorrentId, TorrentInfo};

fn torrent(id: i64) -> TorrentInfo {
    TorrentInfo {
        id: TorrentId(id),
        name: "t".to_string(),
        download_dir: "/dl".to_string(),
        files: Vec::new(),
    }
}

#[test]
fn lines_with_an_id() {
    for (line, id) in [("42", 42), ("  42\r\n", 42), ("-7", -7), ("+5", 5), ("\t0 ", 0)] {
        assert!(matches!(dispatch_line(line), ListenerAction::Send(TorrentId(n)) if n == id));
    }
}

#[test]
fn lines_without_an_id() {
    assert!(matches!(dispatch_line(""), ListenerAction::Skip));
    assert!(matches!(dispatch_line(" \t "), ListenerAction::Skip));
    assert!(matches!(dispatch_line(" abc "), ListenerAction::Warn(line) if line == "abc"));
    assert!(matches!(dispatch_line("1 2"), ListenerAction::Warn(line) if line == "1 2"));
    assert!(matches!(dispatch_line("9223372036854775808"), ListenerAction::Warn(_)));
}

#[test]
fn listener_events() {
    assert!(matches!(run(ListenerEvent::Cancelled), ListenerAction::Stop));
    assert!(matches!(run(ListenerEvent::EndOfInput), ListenerAction::StopAtEnd));
    assert!(matches!(run(ListenerEvent::ReadFailed), ListenerAction::Fail));
    assert!(matches!(run(ListenerEvent::ReceiverGone), ListenerAction::Fail));
    let line = ListenerEvent::Line("3".to_string());
    assert!(matches!(run(line), ListenerAction::Send(TorrentId(3))));
}

#[test]
fn fetcher_goes_from_id_to_id() {
    let mut state = FetcherState::Waiting;
    let a = fetcher::run(&mut state, FetcherEvent::Received(TorrentId(1)));
    assert!(matches!(a, FetcherAction::Fetch(TorrentId(1))));
    let a = fetcher::run(&mut state, FetcherEvent::FetchFailed);
    assert!(matches!(a, FetcherAction::ReportAndWait(TorrentId(1))));
    let a = fetcher::run(&mut state, FetcherEvent::Received(TorrentId(2)));
    assert!(matches!(a, FetcherAction::Fetch(TorrentId(2))));
    let a = fetcher::run(&mut state, FetcherEvent::Fetched(torrent(2)));
    assert!(matches!(a, FetcherAction::Deliver(t) if t.id == TorrentId(2)));
    let a = fetcher::run(&mut state, FetcherEvent::Delivered);
    assert!(matches!(a, FetcherAction::Wait));
    assert_eq!(state, FetcherState::Waiting);
    let a = fetcher::run(&mut state, FetcherEvent::Closed);
    assert!(matches!(a, FetcherAction::Stop));
    assert_eq!(state, FetcherState::Stopped);
}

#[test]
fn fetcher_expects_what_it_waits_for() {
    let fetching = FetcherState::Fetching(TorrentId(1));
    assert!(fetcher::is_expected(FetcherState::Waiting, &FetcherEvent::Cancelled));
    assert!(fetcher::is_expected(FetcherState::Waiting, &FetcherEvent::Received(TorrentId(1))));
    assert!(fetcher::is_expected(fetching, &FetcherEvent::FetchFailed));
    assert!(fetcher::is_expected(FetcherState::Delivering, &FetcherEvent::Delivered));
    assert!(!fetcher::is_expected(FetcherState::Waiting, &FetcherEvent::FetchFailed));
    assert!(!fetcher::is_expected(fetching, &FetcherEvent::Cancelled));
    assert!(!fetcher::is_expected(FetcherState::Stopped, &FetcherEvent::Closed));
}

#[test]
fn fetcher_stops() {
    let mut state = FetcherState::Waiting;
    assert!(matches!(fetcher::run(&mut state, FetcherEvent::Cancelled), FetcherAction::Stop));
    let mut state = FetcherState::Delivering;
    assert!(matches!(fetcher::run(&mut state, FetcherEvent::ReceiverGone), FetcherAction::Stop));
    assert_eq!(state, FetcherState::Stopped);
}

#[test]
fn tasks_are_waited_for() {
    let running = Phase::Running;
    assert_eq!(wait(running, TaskEvent::Finished), (Phase::Running, TaskAction::Wait));
    assert_eq!(wait(running, TaskEvent::Failed), (Phase::Draining, TaskAction::Report));
    assert_eq!(wait(running, TaskEvent::Cancelled), (Phase::Draining, TaskAction::Wait));
    assert_eq!(wait(Phase::Draining, TaskEvent::Failed), (Phase::Draining, TaskAction::Report));
    assert_eq!(wait(Phase::Draining, TaskEvent::AllEnded), (Phase::Draining, TaskAction::Stop));
}

#[test]
fn tasks_run_to_their_end() {
    let events = [
        TaskEvent::Finished, TaskEvent::Failed, TaskEvent::Finished, TaskEvent::Failed,
        TaskEvent::AllEnded,
    ];
    let mut phase = Phase::Running;
    let mut phases = Vec::new();
    let mut actions = Vec::new();
    for event in events {
        let (next, action) = wait(phase, event);
        phase = next;
        phases.push(next);
        actions.push(action);
    }
    assert_eq!(phases[0], Phase::Running);
    assert!(phases[1..].iter().all(|p| *p == Phase::Draining));
    assert_eq!(actions.iter().filter(|a| **a == TaskAction::Report).count(), 2);
    assert_eq!(actions.iter().position(|a| *a == TaskAction::Stop), Some(4));
}

#[test]
fn requests_are_tried_a_number_of_times() {
    let mut retry = Retry::new(3);
    assert_eq!(retry.attempt(), 1);
    assert_eq!(retry.failed(), RetryStep::Again);
    assert_eq!(retry.attempt(), 2);
    assert_eq!(retry.failed(), RetryStep::Again);
    assert_eq!(retry.attempt(), 3);
    assert_eq!(retry.failed(), RetryStep::GiveUp);
    assert_eq!(retry.attempt(), 3);
    assert_eq!(Retry::new(1).failed(), RetryStep::GiveUp);
}

#[test]
fn causes_follow_the_error() {
    let chain = vec!["outer".to_string(), "middle".to_string(), "root".to_string()];
    assert_eq!(
        render_chain(&chain),
        "outer\n\nCaused by:\n    middle\n\nCaused by:\n    root"
    );
    assert_eq!(render_chain(&vec!["alone".to_string()]), "alone");
}
