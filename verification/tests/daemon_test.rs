use jarvish::budget::Timeout;
use jarvish::capture::parse_capture_output;
use jarvish::daemon::{ChildStatus, Directory, Phase, Reap, RequestEvent, ZshDaemon};
use jarvish::framing::{ReadEvent, MAX_RESPONSE_BYTES};
use jarvish::spawn::{
    reap_turn, source_command, spawn_command, ReapTurn, SpawnCleanup, SpawnPhase,
};

const SCRIPT: &str = "/bridge/.daemon_init.1.zsh";

fn directory(path: &str) -> Directory {
    Directory {
        raw: path.as_bytes().to_vec(),
        shown: path.to_string(),
    }
}

fn spawned() -> ZshDaemon {
    ZshDaemon::spawned(SCRIPT.to_string(), Some(directory("/work")))
}

/// Runs a request with these events; returns the last phase and what is reaped.
fn run(daemon: &mut ZshDaemon, events: Vec<RequestEvent>) -> (Phase, Vec<Reap>) {
    let mut phase = daemon.request();
    let mut reaps = Vec::new();
    for event in events {
        let (next, reap) = daemon.advance(phase, event);
        phase = next;
        reaps.extend(reap);
    }
    (phase, reaps)
}

fn read(bytes: &[u8]) -> RequestEvent {
    RequestEvent::Read(ReadEvent::Chunk(bytes.to_vec()))
}

fn expired() -> RequestEvent {
    RequestEvent::Read(ReadEvent::Expired)
}

fn running() -> RequestEvent {
    RequestEvent::Polled(ChildStatus::Running)
}

fn here() -> RequestEvent {
    RequestEvent::Cwd(Some(directory("/work")))
}

fn written() -> RequestEvent {
    RequestEvent::Written(true)
}

fn background(script: &str) -> Reap {
    Reap {
        init_script: script.to_string(),
        blocking: false,
        deadline: Timeout::from_millis(1000),
    }
}

fn success_resets_the_count() {
    let mut daemon = spawned();
    let (r1, _) = run(&mut daemon, vec![running(), here(), written(), expired()]);
    assert_eq!(r1, Phase::Done(None));
    assert!(daemon.is_alive());

    let (r2, _) = run(
        &mut daemon,
        vec![
            running(),
            read(b"\x00neverseen\r\n\x00"),
            here(),
            written(),
            read(b"\x00alpha\r\nbeta\r\ngamma\r\n\x00"),
        ],
    );
    match r2 {
        Phase::Done(Some(frame)) => {
            let values = parse_capture_output(&frame);
            assert!(values.iter().any(|c| c.value == "alpha"));
        }
        other => panic!("no reply: {other:?}"),
    }
    assert!(daemon.is_alive());

    let (r3, reaps) = run(&mut daemon, vec![running(), here(), written(), expired()]);
    assert_eq!(r3, Phase::Done(None));
    assert!(daemon.is_alive());
    assert!(reaps.is_empty());
}

fn dead_shell_is_asked_nothing() {
    let mut daemon = spawned();
    let reap = daemon.shutdown_blocking(Timeout::from_millis(2000));
    assert_eq!(
        reap,
        Some(Reap {
            init_script: SCRIPT.to_string(),
            blocking: true,
            deadline: Timeout::from_millis(2000),
        })
    );
    assert!(!daemon.is_alive());
    assert_eq!(daemon.request(), Phase::Done(None));
}

fn oversized_response_ends_the_shell() {
    let mut daemon = spawned();
    let (phase, reaps) = run(
        &mut daemon,
        vec![
            running(),
            here(),
            written(),
            read(&vec![b'A'; MAX_RESPONSE_BYTES]),
            read(b"A"),
        ],
    );
    assert_eq!(phase, Phase::Done(None));
    assert!(!daemon.is_alive());
    assert_eq!(reaps, vec![background(SCRIPT)]);
}

fn failed_process_start_is_an_error() {
    let failed = SpawnPhase::WriteScript
        .advance(true)
        .advance(true)
        .advance(true)
        .advance(false);
    assert_eq!(failed, SpawnPhase::Failed(SpawnCleanup::RemoveScript));
}

fn late_frame_is_dropped() {
    let mut daemon = spawned();
    let (first, _) = run(
        &mut daemon,
        vec![running(), here(), written(), read(b"\x00slow"), expired()],
    );
    assert_eq!(first, Phase::Done(None));
    let (second, _) = run(
        &mut daemon,
        vec![
            running(),
            read(b"er\r\n\x00"),
            here(),
            written(),
            read(b"\x00quick\r\n\x00"),
        ],
    );
    assert_eq!(second, Phase::Done(Some("quick\r\n".to_string())));
    assert!(daemon.is_alive());
}

#[test]
fn zsh_daemon_success_between_timeouts_resets_consecutive_counter() {
    success_resets_the_count();
}

#[test]
fn tests_success_between_timeouts_resets_consecutive_counter() {
    success_resets_the_count();
}

#[test]
fn zsh_daemon_request_on_dead_daemon_returns_none_without_hanging() {
    dead_shell_is_asked_nothing();
}

#[test]
fn tests_request_on_dead_daemon_returns_none_without_hanging() {
    dead_shell_is_asked_nothing();
}

#[test]
fn zsh_daemon_oversized_response_is_capped_and_marks_daemon_dead() {
    oversized_response_ends_the_shell();
}

#[test]
fn tests_oversized_response_is_capped_and_marks_daemon_dead() {
    oversized_response_ends_the_shell();
}

#[test]
fn zsh_daemon_spawn_with_invalid_zsh_binary_returns_err() {
    failed_process_start_is_an_error();
}

#[test]
fn tests_spawn_with_invalid_zsh_binary_returns_err() {
    failed_process_start_is_an_error();
}

#[test]
fn zsh_daemon_grace_drain_recovers_slow_first_call_and_serves_second_request_correctly() {
    late_frame_is_dropped();
}

#[test]
fn tests_grace_drain_recovers_slow_first_call_and_serves_second_request_correctly() {
    late_frame_is_dropped();
}

#[test]
fn two_silent_requests_end_the_shell() {
    let mut daemon = spawned();
    let (_, first) = run(&mut daemon, vec![running(), here(), written(), expired()]);
    assert!(first.is_empty());
    assert!(daemon.is_alive());
    let (phase, second) = run(&mut daemon, vec![running(), expired()]);
    assert_eq!(phase, Phase::Done(None));
    assert_eq!(second, vec![background(SCRIPT)]);
    assert!(!daemon.is_alive());
    assert_eq!(daemon.shutdown(), None);
}

#[test]
fn exited_process_ends_the_shell_at_once() {
    let mut daemon = spawned();
    let (phase, reaps) = run(&mut daemon, vec![RequestEvent::Polled(ChildStatus::Exited)]);
    assert_eq!(phase, Phase::Done(None));
    assert_eq!(reaps, vec![background(SCRIPT)]);
    let mut other = spawned();
    let (phase, reaps) = run(&mut other, vec![RequestEvent::Polled(ChildStatus::Unknown)]);
    assert_eq!(phase, Phase::AskCwd);
    assert!(reaps.is_empty());
}

#[test]
fn failed_write_ends_the_shell() {
    let mut daemon = spawned();
    let (phase, reaps) = run(
        &mut daemon,
        vec![running(), here(), RequestEvent::Written(false)],
    );
    assert_eq!(phase, Phase::Done(None));
    assert_eq!(reaps.len(), 1);
    assert!(!daemon.is_alive());
}

#[test]
fn sync_cwd_is_noop_when_directory_is_unchanged() {
    let mut daemon = spawned();
    let (phase, _) = run(&mut daemon, vec![running(), here()]);
    assert_eq!(phase, Phase::WriteLine);
    let (phase, _) = run(&mut daemon, vec![running(), RequestEvent::Cwd(None)]);
    assert_eq!(phase, Phase::WriteLine);
    assert!(daemon.is_alive());
}

#[test]
fn shell_follows_the_directory_once() {
    let mut daemon = spawned();
    let there = || RequestEvent::Cwd(Some(directory("/it's")));
    let (phase, _) = run(&mut daemon, vec![running(), there()]);
    assert_eq!(phase, Phase::WriteCwd(directory("/it's")));
    assert_eq!(phase.payload("x").as_deref(), Some("\u{15}'/it'\\''s'\u{7}"));
    let (phase, _) = run(&mut daemon, vec![running(), there(), written(), read(b"redraw")]);
    assert_eq!(phase, Phase::DiscardEcho(directory("/it's")));
    let (phase, _) = run(
        &mut daemon,
        vec![
            running(),
            there(),
            written(),
            read(b"redraw"),
            RequestEvent::Read(ReadEvent::Nothing),
        ],
    );
    assert_eq!(phase, Phase::WriteLine);
    let (phase, _) = run(&mut daemon, vec![running(), there()]);
    assert_eq!(phase, Phase::WriteLine);
}

#[test]
fn failed_change_of_directory_ends_the_shell() {
    let mut daemon = spawned();
    let (phase, reaps) = run(
        &mut daemon,
        vec![
            running(),
            RequestEvent::Cwd(Some(directory("/other"))),
            RequestEvent::Written(false),
        ],
    );
    assert_eq!(phase, Phase::WriteLine);
    assert_eq!(reaps, vec![background(SCRIPT)]);
    assert!(!daemon.is_alive());
}

#[test]
fn directories_are_compared_by_components() {
    let same = |a: &str, b: &str| directory(a).same_as(&directory(b));
    assert!(same("/a", "/a/"));
    assert!(same("/a//b", "/a/b"));
    assert!(same("/a/./b/.", "/a/b"));
    assert!(same("/./a", "/a"));
    assert!(same("/", "//"));
    assert!(!same("a", "/a"));
    assert!(!same("./a", "a"));
    assert!(!same("/a/..", "/"));
    assert!(!same("/ab", "/a/b"));
    assert!(!same("", "/"));
    assert!(!same("", "."));
    let paths = [
        "", "/", "//", ".", "./", "./.", "..", "a", "/a", "/a/", "//a", "/./a", "./a", "a/.", "a/./b",
        "a//b", "a/b", "/a/../b", "/.a", "/a.", "/a/..", "./../a",
    ];
    for a in paths {
        for b in paths {
            assert_eq!(same(a, b), std::path::Path::new(a) == std::path::Path::new(b), "{a:?} {b:?}");
        }
    }
    let mut daemon = ZshDaemon::spawned(SCRIPT.to_string(), Some(directory("/a")));
    let (phase, _) = run(&mut daemon, vec![running(), RequestEvent::Cwd(Some(directory("/a/")))]);
    assert_eq!(phase, Phase::WriteLine);
}

#[test]
fn directories_are_told_apart_by_their_bytes() {
    let named = |byte: u8| Directory {
        raw: vec![b'/', byte],
        shown: "/\u{fffd}".to_string(),
    };
    assert!(named(0xfe).same_as(&named(0xfe)));
    assert!(!named(0xfe).same_as(&named(0xff)));
    let mut daemon = ZshDaemon::spawned(SCRIPT.to_string(), Some(named(0xfe)));
    let (phase, _) = run(&mut daemon, vec![running(), RequestEvent::Cwd(Some(named(0xfe)))]);
    assert_eq!(phase, Phase::WriteLine);
    let (phase, _) = run(&mut daemon, vec![running(), RequestEvent::Cwd(Some(named(0xff)))]);
    assert_eq!(phase, Phase::WriteCwd(named(0xff)));
    assert_eq!(phase.payload("x").as_deref(), Some("\u{15}'/\u{fffd}'\u{7}"));
}

#[test]
fn overflow_in_a_drain_counts_as_a_failure() {
    let mut daemon = spawned();
    run(&mut daemon, vec![running(), here(), written(), expired()]);
    assert!(format!("{daemon:?}").contains("consecutive_timeouts: 1"));
    let (phase, reaps) = run(
        &mut daemon,
        vec![running(), read(&vec![b'A'; MAX_RESPONSE_BYTES + 1])],
    );
    assert_eq!(phase, Phase::Done(None));
    assert_eq!(reaps, vec![background(SCRIPT)]);
    assert!(!daemon.is_alive());
    let state = format!("{daemon:?}");
    assert!(state.contains("consecutive_timeouts: 2"));
    assert!(state.contains("pending_frame: true"));
}

#[test]
fn overflow_of_a_reply_is_not_counted() {
    let mut daemon = spawned();
    run(
        &mut daemon,
        vec![running(), here(), written(), read(&vec![b'A'; MAX_RESPONSE_BYTES + 1])],
    );
    assert!(!daemon.is_alive());
    assert!(format!("{daemon:?}").contains("consecutive_timeouts: 0"));
}

#[test]
fn phases_have_their_time() {
    let timeout = Timeout::from_millis(700);
    let left = Timeout::from_millis(90);
    let echo = Phase::DiscardEcho(directory("/x"));
    assert_eq!(Phase::Drain.budget(timeout), Some(timeout));
    assert_eq!(Phase::Reply.budget(timeout), Some(timeout));
    assert_eq!(echo.budget(timeout), Some(Timeout::from_millis(120)));
    assert_eq!(Phase::WriteLine.budget(timeout), None);
    assert_eq!(Phase::Reply.next_wait(timeout), Some(Timeout::from_millis(200)));
    assert_eq!(Phase::Drain.next_wait(left), Some(left));
    assert_eq!(echo.next_wait(timeout), Some(timeout));
    assert_eq!(echo.next_wait(Timeout { nanos: 0 }), None);
    assert_eq!(Phase::AskCwd.next_wait(timeout), None);
}

#[test]
fn line_is_cleared_sent_and_completed() {
    assert_eq!(
        Phase::WriteLine.payload("git chec").as_deref(),
        Some("\u{15}git chec\t")
    );
    assert_eq!(Phase::Reply.payload("git chec"), None);
}

#[test]
fn event_that_is_not_awaited_changes_nothing() {
    let mut daemon = spawned();
    let (phase, reap) = daemon.advance(Phase::PollChild, written());
    assert_eq!(phase, Phase::PollChild);
    assert_eq!(reap, None);
}

#[test]
fn shell_is_started_interactively() {
    let command = spawn_command(
        "/bin/zsh",
        "/bridge",
        &[("HOME".to_string(), "/tmp/home".to_string())],
    );
    assert_eq!(command.program, "/bin/zsh");
    assert_eq!(command.args, vec!["-i"]);
    let envs: Vec<(&str, &str)> = command
        .envs
        .iter()
        .map(|(k, v)| (k.as_str(), v.as_str()))
        .collect();
    assert_eq!(
        envs,
        vec![("ZDOTDIR", "/bridge"), ("TERM", "dumb"), ("HOME", "/tmp/home")]
    );
    assert_eq!(source_command("/bridge/x.zsh"), "source /bridge/x.zsh\n");
}

#[test]
fn start_fails_where_a_step_fails() {
    let mut phase = SpawnPhase::WriteScript;
    let cleanups = [
        SpawnCleanup::Nothing,
        SpawnCleanup::Nothing,
        SpawnCleanup::RemoveScript,
        SpawnCleanup::RemoveScript,
        SpawnCleanup::ShutDown,
        SpawnCleanup::ShutDown,
    ];
    for cleanup in cleanups {
        assert_eq!(phase.advance(false), SpawnPhase::Failed(cleanup));
        phase = phase.advance(true);
    }
    assert_eq!(phase, SpawnPhase::Ready);
    assert_eq!(phase.advance(false), SpawnPhase::Ready);
}

#[test]
fn killed_process_is_awaited_in_steps() {
    assert_eq!(
        reap_turn(ChildStatus::Running, false),
        ReapTurn::Wait(Timeout::from_millis(25))
    );
    assert_eq!(reap_turn(ChildStatus::Running, true), ReapTurn::Stop);
    assert_eq!(reap_turn(ChildStatus::Exited, false), ReapTurn::Stop);
    assert_eq!(reap_turn(ChildStatus::Unknown, false), ReapTurn::Stop);
}
