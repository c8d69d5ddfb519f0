use jarvish::bridge::MIN_TIMEOUT_MS;
use jarvish::budget::Timeout;
use jarvish::capture::Candidate;
use jarvish::provider::{
    is_target_of_zsh_bridge, provide, CompletionContext, PreparedRequest, ProvideEvent, ProvidePhase,
};
use jarvish::settings::{ExternalCompletionSettings, ExternalKind, ResolvedExternal};

const E2E_TIMEOUT_MS: u64 = 15_000;

fn enabled(kind: ExternalKind, binary: &str) -> ExternalCompletionSettings {
    ExternalCompletionSettings::new(
        Timeout::from_millis(E2E_TIMEOUT_MS),
        vec![ResolvedExternal {
            kind,
            binary: Some(binary.to_string()),
        }],
    )
}

fn zsh_enabled_external_completion() -> ExternalCompletionSettings {
    enabled(ExternalKind::Zsh, "/bin/zsh")
}

fn carapace_only_external_completion() -> ExternalCompletionSettings {
    enabled(ExternalKind::Carapace, "/usr/bin/carapace")
}

fn disabled_external_completion() -> ExternalCompletionSettings {
    ExternalCompletionSettings::new(Timeout::from_millis(E2E_TIMEOUT_MS), vec![])
}

fn context(first: bool, spans: &[&str]) -> CompletionContext {
    CompletionContext {
        is_first_token: first,
        spans: spans.iter().map(|s| s.to_string()).collect(),
    }
}

fn inspected(
    ctx: &CompletionContext,
    settings: Option<&ExternalCompletionSettings>,
    reread: Option<&ExternalCompletionSettings>,
    zsh: Option<&str>,
) -> ProvidePhase {
    let found = zsh.map(|path| path.to_string());
    let event = ProvideEvent::Inspected(settings.cloned(), reread.cloned(), found);
    provide(ctx).advance(ctx, event)
}

fn plan(ctx: &CompletionContext, settings: &ExternalCompletionSettings) -> ProvidePhase {
    inspected(ctx, Some(settings), Some(settings), Some("/bin/zsh"))
}

fn prepared(phase: ProvidePhase) -> PreparedRequest {
    match phase {
        ProvidePhase::PrepareBridge(request) => request,
        other => panic!("nothing prepared: {other:?}"),
    }
}

fn declined() -> ProvidePhase {
    ProvidePhase::Done(None)
}

/// Ends the shell that may still run, and then has no answer.
fn assert_shuts_down(ctx: &CompletionContext, phase: ProvidePhase) {
    assert_eq!(phase, ProvidePhase::ShutDown(None));
    assert_eq!(phase.advance(ctx, ProvideEvent::Ended), declined());
}

fn targeted(ctx: &CompletionContext, settings: &ExternalCompletionSettings) -> bool {
    is_target_of_zsh_bridge(ctx, &Some(settings.clone()), true)
}

/// The answer to a request to which the running shell printed this.
fn answered(printed: Option<&str>) -> Option<Vec<Candidate>> {
    let ctx = context(false, &["git", "chec"]);
    let request = prepared(plan(&ctx, &zsh_enabled_external_completion()));
    let event = ProvideEvent::Printed(printed.map(|text| text.to_string()));
    let asked = ProvidePhase::AskDaemon(request.clone()).advance(&ctx, event.clone());
    let alone = ProvidePhase::RunOneShot(request).advance(&ctx, event);
    assert_eq!(asked, alone);
    match asked {
        ProvidePhase::Done(found) => found,
        other => panic!("not done: {other:?}"),
    }
}

fn declines_when_external_is_disabled() {
    let settings = disabled_external_completion();
    let ctx = context(false, &["git", "chec"]);
    assert_shuts_down(&ctx, plan(&ctx, &settings));
}

fn declines_when_only_carapace_is_enabled() {
    let settings = carapace_only_external_completion();
    let ctx = context(false, &["git", "chec"]);
    assert_shuts_down(&ctx, plan(&ctx, &settings));
}

fn declines_for_first_token() {
    let settings = zsh_enabled_external_completion();
    let ctx = context(true, &["gi"]);
    assert_eq!(plan(&ctx, &settings), declined());
}

fn declines_when_zsh_missing() {
    let settings = enabled(ExternalKind::Zsh, "/no/such/zsh/binary/zzjarvish");
    let ctx = context(false, &["git", "chec"]);
    let none = inspected(&ctx, Some(&settings), Some(&settings), None);
    assert_eq!(none, declined());
    let failing = inspected(
        &ctx,
        Some(&settings),
        Some(&settings),
        Some("/no/such/zsh/binary/zzjarvish"),
    );
    assert!(matches!(failing, ProvidePhase::PrepareBridge(_)));
    assert_eq!(answered(None), None);
}

fn declines_when_spans_too_short() {
    let settings = zsh_enabled_external_completion();
    assert_eq!(plan(&context(true, &["git"]), &settings), declined());
    assert_eq!(plan(&context(false, &["git"]), &settings), declined());
}

fn shuts_down_when_zsh_is_no_longer_admitted() {
    let ctx = context(false, &["jarvishtestcmd", ""]);
    let before = zsh_enabled_external_completion();
    assert!(prepared(plan(&ctx, &before)).use_daemon);
    let after = carapace_only_external_completion();
    assert_eq!(after.binary_path(ExternalKind::Zsh), None);
    assert_shuts_down(&ctx, plan(&ctx, &after));
}

fn budget_is_at_least_min_timeout() {
    let mut settings = zsh_enabled_external_completion();
    settings.timeout = Timeout::from_millis(50);
    let (_binary, effective) = settings
        .gate(
            ExternalKind::Zsh,
            Some(Timeout::from_millis(MIN_TIMEOUT_MS)),
        )
        .expect("zsh should be gated-in when external = \"zsh\"");
    assert!(effective.nanos >= Timeout::from_millis(MIN_TIMEOUT_MS).nanos);
}

fn daemon_is_enabled_by_default() {
    let settings = zsh_enabled_external_completion();
    assert!(settings.zsh_daemon_enabled);
}

#[test]
fn zsh_bridge_provide_returns_none_when_external_is_disabled() {
    declines_when_external_is_disabled();
}

#[test]
fn tests_provide_returns_none_when_external_is_disabled() {
    declines_when_external_is_disabled();
}

#[test]
fn zsh_bridge_provide_returns_none_when_only_carapace_is_enabled() {
    declines_when_only_carapace_is_enabled();
}

#[test]
fn tests_provide_returns_none_when_only_carapace_is_enabled() {
    declines_when_only_carapace_is_enabled();
}

#[test]
fn zsh_bridge_provide_returns_none_for_first_token() {
    declines_for_first_token();
}

#[test]
fn tests_provide_returns_none_for_first_token() {
    declines_for_first_token();
}

#[test]
fn zsh_bridge_integration_first_token_yields_none() {
    declines_for_first_token();
}

#[test]
fn tests_integration_first_token_yields_none() {
    declines_for_first_token();
}

#[test]
fn zsh_bridge_provide_returns_none_when_zsh_missing() {
    declines_when_zsh_missing();
}

#[test]
fn tests_provide_returns_none_when_zsh_missing() {
    declines_when_zsh_missing();
}

#[test]
fn zsh_bridge_provide_returns_none_when_spans_too_short() {
    declines_when_spans_too_short();
}

#[test]
fn tests_provide_returns_none_when_spans_too_short() {
    declines_when_spans_too_short();
}

#[test]
fn zsh_bridge_provide_shuts_down_daemon_when_gate_returns_none() {
    shuts_down_when_zsh_is_no_longer_admitted();
}

#[test]
fn tests_provide_shuts_down_daemon_when_gate_returns_none() {
    shuts_down_when_zsh_is_no_longer_admitted();
}

#[test]
fn zsh_bridge_timeout_budget_is_at_least_min_timeout() {
    budget_is_at_least_min_timeout();
}

#[test]
fn tests_timeout_budget_is_at_least_min_timeout() {
    budget_is_at_least_min_timeout();
}

#[test]
fn zsh_bridge_daemon_enabled_default_true_uses_daemon_field_type() {
    daemon_is_enabled_by_default();
}

#[test]
fn tests_daemon_enabled_default_true_uses_daemon_field_type() {
    daemon_is_enabled_by_default();
}

#[test]
fn is_responsible_true_when_zsh_enabled_and_not_first_token() {
    let settings = zsh_enabled_external_completion();
    let ctx = context(false, &["git", "chec"]);
    assert!(targeted(&ctx, &settings));
}

#[test]
fn is_responsible_false_when_external_is_disabled() {
    let settings = disabled_external_completion();
    let ctx = context(false, &["git", "chec"]);
    assert!(!targeted(&ctx, &settings));
}

#[test]
fn is_responsible_false_when_only_carapace_is_enabled() {
    let settings = carapace_only_external_completion();
    let ctx = context(false, &["git", "chec"]);
    assert!(!targeted(&ctx, &settings));
}

#[test]
fn is_responsible_false_for_first_token() {
    let settings = zsh_enabled_external_completion();
    let ctx = context(true, &["gi"]);
    assert!(!targeted(&ctx, &settings));
}

#[test]
fn is_responsible_false_when_spans_too_short() {
    let settings = zsh_enabled_external_completion();
    assert!(!targeted(&context(true, &["git"]), &settings));
    assert!(!targeted(&context(false, &["git"]), &settings));
}

#[test]
fn is_responsible_matches_provide_none_reason_when_zsh_disabled_or_carapace_only() {
    let settings = carapace_only_external_completion();
    let ctx = context(false, &["git", "chec"]);
    assert!(!matches!(plan(&ctx, &settings), ProvidePhase::PrepareBridge(_)));
    assert!(!targeted(&ctx, &settings));
}

#[test]
fn word_that_cannot_be_sent_is_declined() {
    let settings = zsh_enabled_external_completion();
    let ctx = context(false, &["git", "co\nmmit"]);
    assert_eq!(plan(&ctx, &settings), declined());
    assert!(!targeted(&ctx, &settings));
}

#[test]
fn settings_that_cannot_be_read_admit_nothing() {
    let ctx = context(false, &["git", "chec"]);
    assert_shuts_down(&ctx, inspected(&ctx, None, None, Some("/bin/zsh")));
    assert!(!is_target_of_zsh_bridge(&ctx, &None, true));
    let settings = zsh_enabled_external_completion();
    let request = prepared(inspected(&ctx, Some(&settings), None, Some("/bin/zsh")));
    assert!(!request.use_daemon);
    assert_eq!(request.warm_timeout, request.cold_timeout);
}

#[test]
fn times_have_floors() {
    let mut settings = zsh_enabled_external_completion();
    settings.timeout = Timeout::from_millis(400);
    let request = prepared(plan(&context(false, &["git", "chec"]), &settings));
    assert_eq!(request.cold_timeout, Timeout::from_millis(2000));
    assert_eq!(request.warm_timeout, Timeout::from_millis(2000));
    settings.timeout = Timeout::from_millis(3000);
    let request = prepared(plan(&context(false, &["git", "chec"]), &settings));
    assert_eq!(request.cold_timeout, Timeout::from_millis(3000));
    assert_eq!(request.warm_timeout, Timeout::from_millis(3000));
}

#[test]
fn running_shell_is_sent_one_line() {
    let ctx = context(false, &["git", "a b", ""]);
    let phase = plan(&ctx, &zsh_enabled_external_completion());
    let request = prepared(phase.clone());
    assert_eq!(request.zsh, "/bin/zsh");
    assert_eq!(request.line(), "git a\\ b ");
    let ready = phase.clone().advance(&ctx, ProvideEvent::BridgeReady(true));
    assert_eq!(ready, ProvidePhase::AskDaemon(request));
    let unready = phase.advance(&ctx, ProvideEvent::BridgeReady(false));
    assert_eq!(unready, declined());
}

#[test]
fn one_shot_shell_runs_the_script() {
    let mut settings = zsh_enabled_external_completion();
    settings.zsh_daemon_enabled = false;
    let ctx = context(false, &["git", "a b", ""]);
    let phase = plan(&ctx, &settings);
    let request = prepared(phase.clone());
    let ending = phase.advance(&ctx, ProvideEvent::BridgeReady(true));
    assert_eq!(ending, ProvidePhase::ShutDown(Some(request.clone())));
    let ended = ending.advance(&ctx, ProvideEvent::Ended);
    assert_eq!(ended, ProvidePhase::RunOneShot(request.clone()));
    let command = request.one_shot_command("SCRIPT", "/bridge");
    assert_eq!(command.program, "/bin/zsh");
    assert_eq!(
        command.args,
        vec!["--no-rcs", "-c", "SCRIPT", "--", "git", "a\\ b", ""]
    );
    assert_eq!(command.envs, vec![("ZDOTDIR".to_string(), "/bridge".to_string())]);
}

#[test]
fn request_waits_for_the_event_of_its_phase() {
    let ctx = context(false, &["git", "chec"]);
    let phase = plan(&ctx, &zsh_enabled_external_completion());
    assert_eq!(phase.clone().advance(&ctx, ProvideEvent::Ended), phase);
    let printed = ProvideEvent::Printed(Some("main\r\n".to_string()));
    assert_eq!(phase.clone().advance(&ctx, printed), phase);
    assert_eq!(
        declined().advance(&ctx, ProvideEvent::BridgeReady(true)),
        declined()
    );
}

#[test]
fn no_candidate_is_no_answer() {
    assert_eq!(answered(Some("")), None);
    assert_eq!(answered(Some("\r\n\r\n")), None);
    assert_eq!(answered(Some("main\r\n")).unwrap()[0].value, "main");
}

#[test]
fn first_entry_of_a_kind_counts() {
    let settings = ExternalCompletionSettings::new(
        Timeout::from_millis(1),
        vec![
            ResolvedExternal {
                kind: ExternalKind::Zsh,
                binary: None,
            },
            ResolvedExternal {
                kind: ExternalKind::Zsh,
                binary: Some("/bin/zsh".to_string()),
            },
        ],
    );
    assert_eq!(settings.binary_path(ExternalKind::Zsh), None);
    assert_eq!(settings.gate(ExternalKind::Zsh, None), None);
    let other = carapace_only_external_completion();
    assert_eq!(
        other.gate(ExternalKind::Carapace, None),
        Some(("/usr/bin/carapace".to_string(), Timeout::from_millis(E2E_TIMEOUT_MS)))
    );
}
