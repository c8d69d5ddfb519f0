use jarvish::budget::Timeout;
use jarvish::capture::Candidate;
use jarvish::daemon::{ChildStatus, Phase, Reap, RequestEvent, ZshDaemon};
use jarvish::framing::{startup_turn, ReadEvent};
use jarvish::lifecycle::{
    new_shared_daemon_slot, prewarm_settle, prewarm_zsh_daemon, request_via_daemon,
    shutdown_shared_daemon, CallEvent, CallPhase, DaemonGate, DaemonSlot, PrewarmPhase,
};
use jarvish::provider::{
    provide, CompletionContext, PreparedRequest, ProvideEvent, ProvidePhase,
};
use jarvish::settings::{ExternalCompletionSettings, ExternalKind, ResolvedExternal};
use jarvish::spawn::SpawnPhase;
use jarvish::stale::{cleanup_stale_compdumps, cleanup_stale_init_scripts};

fn settings(daemon: bool) -> ExternalCompletionSettings {
    let mut all = ExternalCompletionSettings::new(
        Timeout::from_millis(15_000),
        vec![ResolvedExternal {
            kind: ExternalKind::Zsh,
            binary: Some("/bin/zsh".to_string()),
        }],
    );
    all.zsh_daemon_enabled = daemon;
    all
}

fn context(spans: &[&str]) -> CompletionContext {
    CompletionContext {
        is_first_token: false,
        spans: spans.iter().map(|s| s.to_string()).collect(),
    }
}

fn prepared(all: &ExternalCompletionSettings, spans: &[&str]) -> PreparedRequest {
    let ctx = context(spans);
    let zsh = Some("/bin/zsh".to_string());
    let event = ProvideEvent::Inspected(Some(all.clone()), Some(all.clone()), zsh);
    match provide(&ctx).advance(&ctx, event) {
        ProvidePhase::PrepareBridge(request) => request,
        other => panic!("nothing prepared: {other:?}"),
    }
}

/// Where a request goes once the bridge directory is ready.
fn routed(request: &PreparedRequest, spans: &[&str]) -> ProvidePhase {
    let phase = ProvidePhase::PrepareBridge(request.clone());
    phase.advance(&context(spans), ProvideEvent::BridgeReady(true))
}

/// The candidates in what a shell printed.
fn answered(printed: Option<String>) -> Option<Vec<Candidate>> {
    let spans = ["jarvishtestcmd", ""];
    let asked = routed(&prepared(&settings(true), &spans), &spans);
    match asked.advance(&context(&spans), ProvideEvent::Printed(printed)) {
        ProvidePhase::Done(found) => found,
        other => panic!("not done: {other:?}"),
    }
}

fn shell(script: &str) -> ZshDaemon {
    ZshDaemon::spawned(script.to_string(), None)
}

/// A request that these reads answer, or nothing where they expire.
fn ask(daemon: &mut ZshDaemon, reads: Vec<ReadEvent>) -> (Option<String>, Option<Reap>) {
    let mut reads = reads.into_iter();
    let mut phase = daemon.request();
    let mut reap = None;
    loop {
        let event = match &phase {
            Phase::PollChild => RequestEvent::Polled(ChildStatus::Running),
            Phase::AskCwd => RequestEvent::Cwd(None),
            Phase::WriteCwd(_) | Phase::WriteLine => RequestEvent::Written(true),
            Phase::Drain | Phase::Reply | Phase::DiscardEcho(_) => {
                RequestEvent::Read(reads.next().unwrap_or(ReadEvent::Expired))
            }
            Phase::Done(reply) => return (reply.clone(), reap),
        };
        let (next, due) = daemon.advance(phase, event);
        phase = next;
        reap = reap.or(due);
    }
}

/// The frame in which a shell prints these words.
fn frame(words: &[&str]) -> ReadEvent {
    let mut bytes = b"\x00\r\n".to_vec();
    for word in words {
        bytes.extend_from_slice(word.as_bytes());
        bytes.extend_from_slice(b"\r\n");
    }
    bytes.extend_from_slice(b"\x00\r\n\x07");
    ReadEvent::Chunk(bytes)
}

fn values(candidates: &[Candidate]) -> Vec<&str> {
    candidates.iter().map(|c| c.value.as_str()).collect()
}

/// One request through the slot; `script` is that of a shell that is started
/// for it where one is needed.
fn call(
    slot: &mut Option<DaemonSlot>,
    mtime: Option<i128>,
    script: &str,
    reads: Vec<ReadEvent>,
) -> (Option<Vec<Candidate>>, Vec<Reap>) {
    let mut reads = Some(reads);
    let mut reaps = Vec::new();
    let mut phase = request_via_daemon();
    loop {
        let event = match &phase {
            CallPhase::ReadMtime => CallEvent::Mtime(mtime),
            CallPhase::HoldSlot(_) => CallEvent::Held(true),
            CallPhase::Spawn(_) => CallEvent::Spawned(Some(shell(script))),
            CallPhase::Ask => {
                let daemon = &mut slot.as_mut().unwrap().daemon;
                let (reply, reap) = ask(daemon, reads.take().unwrap());
                reaps.extend(reap);
                CallEvent::Answered(reply)
            }
            CallPhase::Done(reply) => return (answered(reply.clone()), reaps),
        };
        let (next, reap) = phase.advance(slot, event);
        phase = next;
        reaps.extend(reap);
    }
}

/// The script of the shell in the slot, for which the shell is ended.
fn script_in(slot: &mut Option<DaemonSlot>) -> Option<String> {
    shutdown_shared_daemon(slot).map(|reap| reap.init_script)
}

fn flag_off_uses_one_shot() {
    let spans = ["jarvishtestcmd", ""];
    let request = prepared(&settings(false), &spans);
    assert!(!request.use_daemon);
    let alone = routed(&request, &spans).advance(&context(&spans), ProvideEvent::Ended);
    assert_eq!(alone, ProvidePhase::RunOneShot(request));
    let printed = Some("alpha\r\nbeta\r\ngamma\r\n".to_string());
    match alone.advance(&context(&spans), ProvideEvent::Printed(printed)) {
        ProvidePhase::Done(Some(candidates)) => assert!(values(&candidates).contains(&"alpha")),
        other => panic!("no candidates: {other:?}"),
    }
}

fn turning_off_ends_the_shell() {
    let mut slot = new_shared_daemon_slot();
    let (first, _) = call(&mut slot, Some(1), "/s", vec![frame(&["alpha"])]);
    assert!(first.is_some());
    assert!(slot.is_some());
    let spans = ["jarvishtestcmd", ""];
    let request = prepared(&settings(false), &spans);
    let ending = routed(&request, &spans);
    assert_eq!(ending, ProvidePhase::ShutDown(Some(request.clone())));
    assert_eq!(script_in(&mut slot).as_deref(), Some("/s"));
    assert!(slot.is_none());
    assert_eq!(
        ending.advance(&context(&spans), ProvideEvent::Ended),
        ProvidePhase::RunOneShot(request)
    );
}

fn warm_shell_serves_candidates() {
    let spans = ["jarvishtestcmd", ""];
    let request = prepared(&settings(true), &spans);
    assert_eq!(request.line(), "jarvishtestcmd ");
    assert_eq!(routed(&request, &spans), ProvidePhase::AskDaemon(request));
    let mut slot = new_shared_daemon_slot();
    let (reply, reaps) = call(&mut slot, Some(1), "/s", vec![frame(&["alpha", "beta", "gamma"])]);
    assert_eq!(values(&reply.unwrap()), vec!["alpha", "beta", "gamma"]);
    assert!(reaps.is_empty());
}

fn shell_is_reused() {
    let mut slot = new_shared_daemon_slot();
    let (first, _) = call(&mut slot, Some(1), "/first", vec![frame(&["alpha"])]);
    let (second, _) = call(&mut slot, Some(1), "/second", vec![frame(&["alpha"])]);
    assert!(first.is_some() && second.is_some());
    assert_eq!(script_in(&mut slot).as_deref(), Some("/first"));
}

fn changed_file_restarts_the_shell() {
    let mut slot = new_shared_daemon_slot();
    call(&mut slot, Some(1), "/first", vec![frame(&["alpha"])]);
    let (reply, reaps) = call(&mut slot, Some(2), "/second", vec![frame(&["beta"])]);
    assert_eq!(values(&reply.unwrap()), vec!["beta"]);
    assert_eq!(reaps[0].init_script, "/first");
    assert_eq!(script_in(&mut slot).as_deref(), Some("/second"));
}

fn deleted_file_keeps_the_shell() {
    let mut slot = new_shared_daemon_slot();
    call(&mut slot, Some(1), "/first", vec![frame(&["alpha"])]);
    let (reply, reaps) = call(&mut slot, None, "/second", vec![frame(&["alpha"])]);
    assert!(reply.is_some());
    assert!(reaps.is_empty());
    assert_eq!(script_in(&mut slot).as_deref(), Some("/first"));
}

fn file_that_appears_keeps_the_shell() {
    let mut slot = new_shared_daemon_slot();
    call(&mut slot, None, "/first", vec![frame(&["alpha"])]);
    let (reply, reaps) = call(&mut slot, Some(9), "/second", vec![frame(&["alpha"])]);
    assert!(reply.is_some());
    assert!(reaps.is_empty());
    assert_eq!(script_in(&mut slot).as_deref(), Some("/first"));
}

fn hung_shell_is_replaced_by_the_next_request() {
    let mut slot = new_shared_daemon_slot();
    call(&mut slot, Some(1), "/first", vec![frame(&["alpha"])]);
    let (silent, reaps) = call(&mut slot, Some(1), "/second", vec![]);
    assert!(silent.is_none() && reaps.is_empty() && slot.is_some());
    let (silent, reaps) = call(&mut slot, Some(1), "/second", vec![]);
    assert!(silent.is_none());
    assert_eq!(reaps[0].init_script, "/first");
    assert!(slot.is_none());
    let (reply, _) = call(&mut slot, Some(1), "/second", vec![frame(&["alpha"])]);
    assert!(reply.is_some());
    assert_eq!(script_in(&mut slot).as_deref(), Some("/second"));
}

fn shell_started_ahead_fills_the_slot() {
    let gate = DaemonGate::new();
    let mut slot = new_shared_daemon_slot();
    let mut phase = prewarm_zsh_daemon();
    while phase != PrewarmPhase::Insert {
        phase = phase.advance(true);
    }
    assert!(prewarm_settle(&mut slot, &gate, shell("/ahead"), Some(1)).is_none());
    assert!(slot.is_some());
}

fn shell_started_ahead_serves_requests() {
    let gate = DaemonGate::new();
    let mut slot = new_shared_daemon_slot();
    assert!(prewarm_settle(&mut slot, &gate, shell("/ahead"), Some(1)).is_none());
    let (reply, _) = call(&mut slot, Some(1), "/other", vec![frame(&["alpha"])]);
    assert!(reply.is_some());
    assert_eq!(script_in(&mut slot).as_deref(), Some("/ahead"));
}

fn shell_becomes_ready() {
    let mut held = Vec::new();
    let event = ReadEvent::Chunk(b"jarvish_daemon_ok\r\n".to_vec());
    let ready = startup_turn(&mut held, &event).unwrap();
    assert_eq!(SpawnPhase::AwaitReady.advance(ready), SpawnPhase::Ready);
    let mut daemon = shell("/s");
    assert!(daemon.is_alive());
    assert!(daemon.shutdown_blocking(Timeout::from_millis(2000)).is_some());
    assert!(!daemon.is_alive());
}

fn two_requests_return_words() {
    let mut daemon = shell("/s");
    for _ in 0..2 {
        let (reply, reap) = ask(&mut daemon, vec![frame(&["alpha", "beta", "gamma"])]);
        let candidates = answered(reply).unwrap();
        assert_eq!(values(&candidates), vec!["alpha", "beta", "gamma"]);
        assert_eq!(reap, None);
        assert!(daemon.is_alive());
    }
}

fn replies_do_not_mix() {
    let mut daemon = shell("/s");
    let (a, _) = ask(&mut daemon, vec![frame(&["alphaone", "alphatwo"])]);
    let (b, _) = ask(&mut daemon, vec![frame(&["betaone", "betatwo"])]);
    assert_eq!(values(&answered(a).unwrap()), vec!["alphaone", "alphatwo"]);
    assert_eq!(values(&answered(b).unwrap()), vec!["betaone", "betatwo"]);
}

fn hung_shell_dies_the_second_time() {
    let mut daemon = shell("/s");
    let (first, reap) = ask(&mut daemon, vec![]);
    assert!(first.is_none() && reap.is_none());
    assert!(daemon.is_alive());
    let (second, reap) = ask(&mut daemon, vec![]);
    assert_eq!(second, None);
    assert!(!reap.unwrap().blocking);
    assert!(!daemon.is_alive());
}

fn blocking_end_has_its_deadline() {
    let mut daemon = shell("/s");
    let reap = daemon.shutdown_blocking(Timeout::from_millis(3000)).unwrap();
    assert!(reap.blocking);
    assert_eq!(reap.deadline, Timeout::from_millis(3000));
    assert!(!daemon.is_alive());
    assert_eq!(daemon.shutdown_blocking(Timeout::from_millis(3000)), None);
}

#[test]
fn zsh_bridge_daemon_flag_off_never_spawns_daemon_one_shot_still_serves_candidates() {
    flag_off_uses_one_shot();
}

#[test]
fn tests_daemon_flag_off_never_spawns_daemon_one_shot_still_serves_candidates() {
    flag_off_uses_one_shot();
}

#[test]
fn zsh_bridge_daemon_turned_off_mid_session_shuts_down_running_daemon() {
    turning_off_ends_the_shell();
}

#[test]
fn tests_daemon_turned_off_mid_session_shuts_down_running_daemon() {
    turning_off_ends_the_shell();
}

#[test]
fn zsh_bridge_daemon_path_e2e_serves_candidates_via_warm_daemon() {
    warm_shell_serves_candidates();
}

#[test]
fn tests_daemon_path_e2e_serves_candidates_via_warm_daemon() {
    warm_shell_serves_candidates();
}

#[test]
fn zsh_bridge_daemon_path_reuses_same_daemon_across_requests() {
    shell_is_reused();
}

#[test]
fn tests_daemon_path_reuses_same_daemon_across_requests() {
    shell_is_reused();
}

#[test]
fn zsh_bridge_daemon_path_restarts_when_bridge_zshrc_mtime_changes() {
    changed_file_restarts_the_shell();
}

#[test]
fn tests_daemon_path_restarts_when_bridge_zshrc_mtime_changes() {
    changed_file_restarts_the_shell();
}

#[test]
fn zsh_bridge_daemon_survives_zshrc_deletion_after_spawn_mtime_none_is_treated_as_unchanged() {
    deleted_file_keeps_the_shell();
}

#[test]
fn tests_daemon_survives_zshrc_deletion_after_spawn_mtime_none_is_treated_as_unchanged() {
    deleted_file_keeps_the_shell();
}

#[test]
fn zsh_bridge_daemon_reused_when_spawn_time_mtime_was_none_and_file_now_present() {
    file_that_appears_keeps_the_shell();
}

#[test]
fn tests_daemon_reused_when_spawn_time_mtime_was_none_and_file_now_present() {
    file_that_appears_keeps_the_shell();
}

#[test]
fn zsh_bridge_daemon_failure_after_two_consecutive_timeouts_respawns_lazily_next_tab() {
    hung_shell_is_replaced_by_the_next_request();
}

#[test]
fn tests_daemon_failure_after_two_consecutive_timeouts_respawns_lazily_next_tab() {
    hung_shell_is_replaced_by_the_next_request();
}

#[test]
fn zsh_bridge_prewarm_populates_slot_when_daemon_enabled_without_provide_call() {
    shell_started_ahead_fills_the_slot();
}

#[test]
fn tests_prewarm_populates_slot_when_daemon_enabled_without_provide_call() {
    shell_started_ahead_fills_the_slot();
}

#[test]
fn zsh_bridge_provide_reuses_the_prewarmed_daemon_same_pid() {
    shell_started_ahead_serves_requests();
}

#[test]
fn tests_provide_reuses_the_prewarmed_daemon_same_pid() {
    shell_started_ahead_serves_requests();
}

#[test]
fn zsh_daemon_spawn_reaches_ready_marker() {
    shell_becomes_ready();
}

#[test]
fn tests_spawn_reaches_ready_marker() {
    shell_becomes_ready();
}

#[test]
fn zsh_daemon_two_sequential_requests_reuse_same_daemon_and_return_words() {
    two_requests_return_words();
}

#[test]
fn tests_two_sequential_requests_reuse_same_daemon_and_return_words() {
    two_requests_return_words();
}

#[test]
fn zsh_daemon_no_state_bleed_between_different_requests() {
    replies_do_not_mix();
}

#[test]
fn tests_no_state_bleed_between_different_requests() {
    replies_do_not_mix();
}

#[test]
fn zsh_daemon_hung_completion_first_timeout_stays_alive_second_kills_descendants() {
    hung_shell_dies_the_second_time();
}

#[test]
fn tests_hung_completion_first_timeout_stays_alive_second_kills_descendants() {
    hung_shell_dies_the_second_time();
}

#[test]
fn zsh_daemon_shutdown_blocking_reaps_within_deadline_and_kills_child() {
    blocking_end_has_its_deadline();
}

#[test]
fn tests_shutdown_blocking_reaps_within_deadline_and_kills_child() {
    blocking_end_has_its_deadline();
}

#[test]
fn cleanup_compdumps_on_missing_directory_is_noop() {
    assert_eq!(cleanup_stale_compdumps(&[]).len(), 0);
}

#[test]
fn cleanup_on_missing_directory_is_noop() {
    assert_eq!(cleanup_stale_init_scripts(&[], 1, &[]).len(), 0);
}
