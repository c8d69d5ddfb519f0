//! Completion by zsh: whether a request is answered at all, and how.
//!
//! A request is answered either by the shell that is kept running or by one
//! that is started for it alone. What is read from the settings, found on disk
//! or printed by a shell is handed in: each [`ProvidePhase`] names the work that
//! is due, and `advance` takes what came of it.

use vstd::prelude::*;

use crate::bridge;
use crate::bridge::{compute_warm_timeout, MIN_TIMEOUT_MS};
use crate::budget;
use crate::budget::Timeout;
use crate::capture;
use crate::capture::{parse_capture_output, Candidate};
use crate::escape;
use crate::escape::escape_spans;
use crate::settings::{ExternalCompletionSettings, ExternalKind};
use crate::spawn;
use crate::spawn::SpawnCommand;
use crate::text;
use crate::text::join;

verus! {

/// What is completed.
#[derive(Debug, Clone, PartialEq, Eq)]
pub struct CompletionContext {
    /// Whether the word at the cursor is the first of its command.
    pub is_first_token: bool,
    /// The words of the command up to the cursor. The last is the one to
    /// complete and may be empty.
    pub spans: Vec<String>,
}

/// Whether every span can be sent to a shell.
pub open spec fn all_sendable(spans: Seq<Seq<char>>) -> bool {
    forall|i: int| 0 <= i < spans.len() ==> escape::sendable(#[trigger] spans[i])
}

/// Whether settings that could be read admit zsh.
pub open spec fn zsh_admitted(settings: Option<ExternalCompletionSettings>) -> bool {
    settings matches Some(s) && s.admits(ExternalKind::Zsh)
}

/// Whether zsh is to complete: not a command name, zsh is admitted and found,
/// there is a word behind the command, and every word can be sent.
pub open spec fn targeted(
    ctx: CompletionContext,
    settings: Option<ExternalCompletionSettings>,
    zsh_found: bool,
) -> bool {
    &&& !ctx.is_first_token
    &&& zsh_admitted(settings)
    &&& zsh_found
    &&& ctx.spans@.len() >= 2
    &&& all_sendable(text::texts(ctx.spans@))
}

/// The least time for a shell to start.
fn cold_floor() -> (r: Option<Timeout>)
    ensures
        r matches Some(t) && t.nanos == budget::millis(MIN_TIMEOUT_MS),
{
    Some(Timeout::from_millis(MIN_TIMEOUT_MS))
}

/// The time that a shell gets to start, and that a shell gets that is started
/// for one request alone.
pub open spec fn cold_timeout(settings: ExternalCompletionSettings) -> int {
    if settings.timeout.nanos < budget::millis(MIN_TIMEOUT_MS) {
        budget::millis(MIN_TIMEOUT_MS)
    } else {
        settings.timeout.nanos as int
    }
}

/// Tells whether zsh is to complete, without starting anything. `settings` is
/// `None` where they could not be read.
pub fn is_target_of_zsh_bridge(
    ctx: &CompletionContext,
    settings: &Option<ExternalCompletionSettings>,
    zsh_found: bool,
) -> (b: bool)
    ensures
        b == targeted(*ctx, *settings, zsh_found),
{
    if ctx.is_first_token {
        return false;
    }
    let gated: bool = match settings {
        Some(s) => s.gate(ExternalKind::Zsh, cold_floor()).is_some(),
        None => false,
    };
    if !gated || !zsh_found || ctx.spans.len() < 2 {
        return false;
    }
    escape_spans(ctx.spans.as_slice()).is_some()
}

/// A request that zsh is to answer.
#[derive(Debug, Clone, PartialEq, Eq)]
pub struct PreparedRequest {
    /// Where zsh was found.
    pub zsh: String,
    /// The words, escaped.
    pub escaped_spans: Vec<String>,
    /// Whether the shell that is kept running answers.
    pub use_daemon: bool,
    /// The time for a shell to start, and for one that is started for this
    /// request alone to answer it.
    pub cold_timeout: Timeout,
    /// The time for the running shell to answer.
    pub warm_timeout: Timeout,
}

/// `PreparedRequest`, as mathematical values.
pub struct RequestView {
    pub zsh: Seq<char>,
    pub escaped_spans: Seq<Seq<char>>,
    pub use_daemon: bool,
    pub cold_timeout: int,
    pub warm_timeout: int,
}

impl View for PreparedRequest {
    type V = RequestView;

    open spec fn view(&self) -> RequestView {
        RequestView {
            zsh: self.zsh@,
            escaped_spans: text::texts(self.escaped_spans@),
            use_daemon: self.use_daemon,
            cold_timeout: self.cold_timeout.nanos as int,
            warm_timeout: self.warm_timeout.nanos as int,
        }
    }
}

/// The arguments with which zsh answers one request alone: without start-up
/// files it runs the capture script on the words.
pub open spec fn one_shot_args(script: Seq<char>, escaped: Seq<Seq<char>>) -> Seq<Seq<char>> {
    seq!["--no-rcs"@, "-c"@, script, "--"@] + escaped
}

impl PreparedRequest {
    /// The line that is put to the running shell.
    pub fn line(&self) -> (r: String)
        ensures
            r@ == text::joined(self@.escaped_spans, ' '),
    {
        join(self.escaped_spans.as_slice(), ' ')
    }

    /// The command that answers this request alone. The shell that the capture
    /// script starts reads the start-up file of the bridge directory.
    pub fn one_shot_command(&self, script: &str, bridge_dir: &str) -> (r: SpawnCommand)
        ensures
            r.program@ == self@.zsh,
            text::texts(r.args@) == one_shot_args(script@, self@.escaped_spans),
            spawn::variables(r.envs@) == seq![("ZDOTDIR"@, bridge_dir@)],
    {
        let mut args: Vec<String> = Vec::new();
        args.push("--no-rcs".to_owned());
        args.push("-c".to_owned());
        args.push(script.to_owned());
        args.push("--".to_owned());
        let ghost own = text::texts(args@);
        let ghost escaped = text::texts(self.escaped_spans@);
        assert(own =~= seq!["--no-rcs"@, "-c"@, script@, "--"@]);
        let mut i: usize = 0;
        while i < self.escaped_spans.len()
            invariant
                i <= self.escaped_spans@.len(),
                escaped == text::texts(self.escaped_spans@),
                text::texts(args@) == own + escaped.take(i as int),
            decreases self.escaped_spans@.len() - i,
        {
            let ghost before = args@;
            args.push(self.escaped_spans[i].clone());
            proof {
                assert(text::texts(args@) =~= text::texts(before).push(escaped[i as int]));
                assert(escaped.take(i + 1) =~= escaped.take(i as int).push(escaped[i as int]));
                assert(text::texts(args@) =~= own + escaped.take(i + 1));
            }
            i += 1;
        }
        assert(escaped.take(i as int) =~= escaped);
        let mut envs: Vec<(String, String)> = Vec::new();
        envs.push(("ZDOTDIR".to_owned(), bridge_dir.to_owned()));
        assert(spawn::variables(envs@) =~= seq![("ZDOTDIR"@, bridge_dir@)]);
        SpawnCommand { program: self.zsh.clone(), args, envs }
    }
}

/// The request that is prepared for a context. The settings are read twice,
/// once for whether zsh is admitted and once more for how it is used; where the
/// second reading fails, no running shell is used and the time to start holds.
pub open spec fn prepared(
    ctx: CompletionContext,
    settings: ExternalCompletionSettings,
    reread: Option<ExternalCompletionSettings>,
    zsh: Seq<char>,
) -> RequestView {
    RequestView {
        zsh,
        escaped_spans: escape::all_escaped(text::texts(ctx.spans@)),
        use_daemon: reread matches Some(s) && s.zsh_daemon_enabled,
        cold_timeout: cold_timeout(settings),
        warm_timeout: match reread {
            Some(s) => bridge::warm_timeout(s.timeout),
            None => cold_timeout(settings),
        },
    }
}

/// The work that is due for a request.
#[derive(Debug, Clone, PartialEq, Eq)]
pub enum ProvidePhase {
    /// Read the settings, twice, and look for zsh.
    Inspect,
    /// Make the bridge directory ready.
    PrepareBridge(PreparedRequest),
    /// End the shell that is kept running, if there is one. Behind that the
    /// request is answered by a shell of its own, or not at all.
    ShutDown(Option<PreparedRequest>),
    /// Put the line to the shell that is kept running.
    AskDaemon(PreparedRequest),
    /// Run the command that answers this request alone.
    RunOneShot(PreparedRequest),
    /// Nothing is left to do; these are the candidates, if there are any.
    Done(Option<Vec<Candidate>>),
}

/// `ProvidePhase`, as mathematical values.
pub enum ProvidePhaseView {
    Inspect,
    PrepareBridge(RequestView),
    ShutDown(Option<RequestView>),
    AskDaemon(RequestView),
    RunOneShot(RequestView),
    Done(Option<Seq<capture::CandidateView>>),
}

impl View for ProvidePhase {
    type V = ProvidePhaseView;

    open spec fn view(&self) -> ProvidePhaseView {
        match *self {
            ProvidePhase::Inspect => ProvidePhaseView::Inspect,
            ProvidePhase::PrepareBridge(request) => ProvidePhaseView::PrepareBridge(request@),
            ProvidePhase::ShutDown(then) => ProvidePhaseView::ShutDown(
                match then {
                    Some(request) => Some(request@),
                    None => None,
                },
            ),
            ProvidePhase::AskDaemon(request) => ProvidePhaseView::AskDaemon(request@),
            ProvidePhase::RunOneShot(request) => ProvidePhaseView::RunOneShot(request@),
            ProvidePhase::Done(found) => ProvidePhaseView::Done(
                match found {
                    Some(candidates) => Some(capture::candidate_views(candidates@)),
                    None => None,
                },
            ),
        }
    }
}

/// What came of the work that was due.
#[derive(Debug, Clone, PartialEq, Eq)]
pub enum ProvideEvent {
    /// The settings, as they were read the first and the second time, and where
    /// zsh was found. What could not be read or found is missing.
    Inspected(
        Option<ExternalCompletionSettings>,
        Option<ExternalCompletionSettings>,
        Option<String>,
    ),
    /// The bridge directory can be used, or it cannot.
    BridgeReady(bool),
    /// The running shell, if there was one, has been ended.
    Ended,
    /// A shell printed this, or it did not answer.
    Printed(Option<String>),
}

/// The candidates in what a shell printed, if it answered. There is no answer
/// without a candidate.
pub open spec fn answer(printed: Option<String>) -> Option<Seq<capture::CandidateView>> {
    match printed {
        Some(output) => if capture::capture_candidates(output@).len() > 0 {
            Some(capture::capture_candidates(output@))
        } else {
            None
        },
        None => None,
    }
}

/// Where a request for `ctx` goes from `phase` when `event` came of its work.
/// An event that the phase does not wait for changes nothing.
pub open spec fn next_provide(
    ctx: CompletionContext,
    phase: ProvidePhaseView,
    event: ProvideEvent,
) -> ProvidePhaseView {
    match (phase, event) {
        (ProvidePhaseView::Inspect, ProvideEvent::Inspected(settings, reread, zsh)) => if ctx.is_first_token {
            ProvidePhaseView::Done(None)
        } else if !zsh_admitted(settings) {
            ProvidePhaseView::ShutDown(None)
        } else if targeted(ctx, settings, zsh.is_some()) {
            ProvidePhaseView::PrepareBridge(prepared(ctx, settings.unwrap(), reread, zsh.unwrap()@))
        } else {
            ProvidePhaseView::Done(None)
        },
        (ProvidePhaseView::PrepareBridge(request), ProvideEvent::BridgeReady(ready)) => if !ready {
            ProvidePhaseView::Done(None)
        } else if request.use_daemon {
            ProvidePhaseView::AskDaemon(request)
        } else {
            ProvidePhaseView::ShutDown(Some(request))
        },
        (ProvidePhaseView::ShutDown(then), ProvideEvent::Ended) => match then {
            Some(request) => ProvidePhaseView::RunOneShot(request),
            None => ProvidePhaseView::Done(None),
        },
        (ProvidePhaseView::AskDaemon(_), ProvideEvent::Printed(printed)) => ProvidePhaseView::Done(
            answer(printed),
        ),
        (ProvidePhaseView::RunOneShot(_), ProvideEvent::Printed(printed)) => ProvidePhaseView::Done(
            answer(printed),
        ),
        _ => phase,
    }
}

/// Begins a request. A command name is not completed by zsh.
pub fn provide(ctx: &CompletionContext) -> (phase: ProvidePhase)
    ensures
        phase@ == if ctx.is_first_token {
            ProvidePhaseView::Done(None)
        } else {
            ProvidePhaseView::Inspect
        },
{
    if ctx.is_first_token {
        ProvidePhase::Done(None)
    } else {
        ProvidePhase::Inspect
    }
}

/// Decides what to do about a request.
fn plan_provide(
    ctx: &CompletionContext,
    settings: &Option<ExternalCompletionSettings>,
    reread: &Option<ExternalCompletionSettings>,
    zsh: Option<String>,
) -> (phase: ProvidePhase)
    ensures
        phase@ == next_provide(
            *ctx,
            ProvidePhaseView::Inspect,
            ProvideEvent::Inspected(*settings, *reread, zsh),
        ),
{
    if ctx.is_first_token {
        return ProvidePhase::Done(None);
    }
    let gated: Option<(String, Timeout)> = match settings {
        Some(s) => s.gate(ExternalKind::Zsh, cold_floor()),
        None => None,
    };
    let cold_timeout: Timeout = match gated {
        Some((_, timeout)) => timeout,
        None => {
            return ProvidePhase::ShutDown(None);
        },
    };
    let (use_daemon, raw): (bool, Timeout) = match reread {
        Some(s) => (s.zsh_daemon_enabled, s.timeout),
        None => (false, cold_timeout),
    };
    let warm_timeout: Timeout = compute_warm_timeout(raw);
    let zsh: String = match zsh {
        Some(path) => path,
        None => {
            return ProvidePhase::Done(None);
        },
    };
    if ctx.spans.len() < 2 {
        return ProvidePhase::Done(None);
    }
    match escape_spans(ctx.spans.as_slice()) {
        Some(escaped_spans) => ProvidePhase::PrepareBridge(
            PreparedRequest { zsh, escaped_spans, use_daemon, cold_timeout, warm_timeout },
        ),
        None => ProvidePhase::Done(None),
    }
}

/// Reads what a shell printed, if it answered, into candidates.
fn finish_provide(printed: Option<String>) -> (phase: ProvidePhase)
    ensures
        phase@ == ProvidePhaseView::Done(answer(printed)),
{
    match printed {
        Some(output) => {
            let candidates: Vec<Candidate> = parse_capture_output(output.as_str());
            assert(capture::candidate_views(candidates@).len() == candidates@.len());
            if candidates.is_empty() {
                ProvidePhase::Done(None)
            } else {
                ProvidePhase::Done(Some(candidates))
            }
        },
        None => ProvidePhase::Done(None),
    }
}

impl ProvidePhase {
    /// Takes what came of the work of this phase of a request for `ctx`.
    pub fn advance(self, ctx: &CompletionContext, event: ProvideEvent) -> (r: ProvidePhase)
        ensures
            r@ == next_provide(*ctx, self@, event),
    {
        match (self, event) {
            (ProvidePhase::Inspect, ProvideEvent::Inspected(settings, reread, zsh)) => {
                plan_provide(ctx, &settings, &reread, zsh)
            },
            (ProvidePhase::PrepareBridge(request), ProvideEvent::BridgeReady(ready)) => {
                if !ready {
                    ProvidePhase::Done(None)
                } else if request.use_daemon {
                    ProvidePhase::AskDaemon(request)
                } else {
                    ProvidePhase::ShutDown(Some(request))
                }
            },
            (ProvidePhase::ShutDown(then), ProvideEvent::Ended) => match then {
                Some(request) => ProvidePhase::RunOneShot(request),
                None => ProvidePhase::Done(None),
            },
            (ProvidePhase::AskDaemon(_), ProvideEvent::Printed(printed)) => finish_provide(printed),
            (ProvidePhase::RunOneShot(_), ProvideEvent::Printed(printed)) => finish_provide(
                printed,
            ),
            (phase, _) => phase,
        }
    }
}

/// A request goes as far as the bridge directory exactly where zsh is
/// responsible for it, so the two never disagree.
pub proof fn law_responsible_requests_are_answered(
    ctx: CompletionContext,
    settings: Option<ExternalCompletionSettings>,
    reread: Option<ExternalCompletionSettings>,
    zsh: Option<String>,
)
    ensures
        targeted(ctx, settings, zsh.is_some()) <==> next_provide(
            ctx,
            ProvidePhaseView::Inspect,
            ProvideEvent::Inspected(settings, reread, zsh),
        ) is PrepareBridge,
{
}

/// Where zsh is not admitted, nothing is answered, and the shell that may still
/// run from when it was is ended.
pub proof fn law_shell_ends_when_zsh_is_not_admitted(
    ctx: CompletionContext,
    settings: Option<ExternalCompletionSettings>,
    reread: Option<ExternalCompletionSettings>,
    zsh: Option<String>,
)
    requires
        !ctx.is_first_token,
        !zsh_admitted(settings),
    ensures
        ({
            let ending = next_provide(
                ctx,
                ProvidePhaseView::Inspect,
                ProvideEvent::Inspected(settings, reread, zsh),
            );
            &&& ending == ProvidePhaseView::ShutDown(None)
            &&& next_provide(ctx, ending, ProvideEvent::Ended) == ProvidePhaseView::Done(None)
        }),
{
}

/// No shell is asked or started before the bridge directory is ready, and none
/// is started for one request alone before the running one has been ended.
pub proof fn law_shells_are_asked_in_order(
    ctx: CompletionContext,
    phase: ProvidePhaseView,
    event: ProvideEvent,
)
    ensures
        next_provide(ctx, phase, event) is AskDaemon ==> phase is AskDaemon || (
        phase is PrepareBridge && event == ProvideEvent::BridgeReady(true)),
        next_provide(ctx, phase, event) matches ProvidePhaseView::ShutDown(Some(_)) ==> phase
            is ShutDown || (phase is PrepareBridge && event == ProvideEvent::BridgeReady(true)),
        next_provide(ctx, phase, event) is RunOneShot ==> phase is RunOneShot || (phase
            matches ProvidePhaseView::ShutDown(Some(_)) && event == ProvideEvent::Ended),
{
}

/// Where the shell is no longer to be kept running, a request ends the one that
/// is before it is answered by a shell of its own.
pub proof fn law_switched_off_shell_is_ended(ctx: CompletionContext, request: RequestView)
    requires
        !request.use_daemon,
    ensures
        ({
            let ending = next_provide(
                ctx,
                ProvidePhaseView::PrepareBridge(request),
                ProvideEvent::BridgeReady(true),
            );
            &&& ending == ProvidePhaseView::ShutDown(Some(request))
            &&& next_provide(ctx, ending, ProvideEvent::Ended) == ProvidePhaseView::RunOneShot(
                request,
            )
        }),
{
}

/// A request that the running shell does not answer is not tried again with
/// another one.
pub proof fn law_running_shell_has_the_last_word(
    ctx: CompletionContext,
    request: RequestView,
    event: ProvideEvent,
)
    ensures
        ({
            let asked = ProvidePhaseView::AskDaemon(request);
            let next = next_provide(ctx, asked, event);
            &&& next == asked || next is Done
            &&& next_provide(ctx, asked, ProvideEvent::Printed(None)) == ProvidePhaseView::Done(None)
        }),
{
}

/// An answer has candidates.
pub proof fn law_answers_have_candidates(printed: Option<String>)
    ensures
        answer(printed) matches Some(candidates) ==> candidates.len() > 0,
{
}

/// A shell never gets less time to start than the floor.
pub proof fn law_cold_timeout_has_a_floor(settings: ExternalCompletionSettings)
    ensures
        cold_timeout(settings) >= budget::millis(MIN_TIMEOUT_MS),
        cold_timeout(settings) >= settings.timeout.nanos,
{
}

/// Whether every character of `word` can be sent to a shell: it is the tab or no
/// control character.
pub open spec fn free_of_controls(word: Seq<char>) -> bool {
    forall|j: int|
        0 <= j < word.len() ==> #[trigger] word[j] == '\t' || ('\u{20}' <= word[j] && word[j]
            != '\u{7f}')
}

/// Whether the first entry for zsh stands at position `k` and has a binary.
pub open spec fn zsh_switched_on(settings: ExternalCompletionSettings, k: int) -> bool {
    &&& 0 <= k < settings.enabled@.len()
    &&& settings.enabled@[k].kind == ExternalKind::Zsh
    &&& settings.enabled@[k].binary.is_some()
    &&& forall|j: int| 0 <= j < k ==> (#[trigger] settings.enabled@[j]).kind != ExternalKind::Zsh
}

proof fn lemma_words_are_sendable(ctx: CompletionContext)
    ensures
        all_sendable(text::texts(ctx.spans@)) <==> forall|i: int|
            0 <= i < ctx.spans@.len() ==> free_of_controls((#[trigger] ctx.spans@[i])@),
{
    let words = text::texts(ctx.spans@);
    assert forall|i: int| 0 <= i < words.len() implies escape::sendable(#[trigger] words[i])
        == free_of_controls(ctx.spans@[i]@) by {
        escape::law_only_control_characters_are_refused(words[i]);
    }
    if all_sendable(words) {
        assert forall|i: int| 0 <= i < ctx.spans@.len() implies free_of_controls(
            (#[trigger] ctx.spans@[i])@,
        ) by {
            assert(escape::sendable(words[i]));
        }
    }
}

/// Nothing but the following keeps zsh from completing: the word is not the
/// first of its command, zsh is switched on and was found, there are two words
/// at least, and no word holds a control character. What the words are, and with
/// what they begin or end, does not matter. The request that is prepared holds
/// each word escaped, and times of two seconds at least.
pub proof fn law_every_such_request_is_prepared(
    ctx: CompletionContext,
    settings: ExternalCompletionSettings,
    k: int,
    reread: Option<ExternalCompletionSettings>,
    zsh: String,
)
    requires
        !ctx.is_first_token,
        zsh_switched_on(settings, k),
        ctx.spans@.len() >= 2,
        forall|i: int|
            0 <= i < ctx.spans@.len() ==> free_of_controls((#[trigger] ctx.spans@[i])@),
    ensures
        targeted(ctx, Some(settings), true),
        next_provide(
            ctx,
            ProvidePhaseView::Inspect,
            ProvideEvent::Inspected(Some(settings), reread, Some(zsh)),
        ) matches ProvidePhaseView::PrepareBridge(request) && {
            &&& request.zsh == zsh@
            &&& request.escaped_spans.len() == ctx.spans@.len()
            &&& forall|i: int|
                0 <= i < ctx.spans@.len() ==> #[trigger] request.escaped_spans[i]
                    == escape::escaped(ctx.spans@[i]@)
            &&& request.use_daemon <==> (reread matches Some(s) && s.zsh_daemon_enabled)
            &&& request.cold_timeout >= 2_000_000_000
            &&& request.cold_timeout >= settings.timeout.nanos
            &&& request.cold_timeout == 2_000_000_000 || request.cold_timeout
                == settings.timeout.nanos
            &&& reread matches Some(s) ==> {
                &&& request.warm_timeout >= 2_000_000_000
                &&& request.warm_timeout >= s.timeout.nanos
                &&& request.warm_timeout == 2_000_000_000 || request.warm_timeout == s.timeout.nanos
            }
            &&& reread.is_none() ==> request.warm_timeout == request.cold_timeout
        },
{
    crate::settings::law_first_program_of_a_kind_decides(settings, ExternalKind::Zsh, k);
    lemma_words_are_sendable(ctx);
}

/// A request that lacks one of these is not prepared: the first word of a
/// command, a command without a further word, a word with a control character,
/// and any word where zsh was not found are declined without more ado.
pub proof fn law_other_requests_are_declined(
    ctx: CompletionContext,
    settings: ExternalCompletionSettings,
    k: int,
    reread: Option<ExternalCompletionSettings>,
    zsh: Option<String>,
    i: int,
)
    requires
        zsh_switched_on(settings, k),
        ctx.is_first_token || zsh.is_none() || ctx.spans@.len() < 2 || (0 <= i < ctx.spans@.len()
            && !free_of_controls(ctx.spans@[i]@)),
    ensures
        !targeted(ctx, Some(settings), zsh.is_some()),
        next_provide(
            ctx,
            ProvidePhaseView::Inspect,
            ProvideEvent::Inspected(Some(settings), reread, zsh),
        ) == ProvidePhaseView::Done(None),
{
    crate::settings::law_first_program_of_a_kind_decides(settings, ExternalKind::Zsh, k);
    lemma_words_are_sendable(ctx);
}

/// Where the settings cannot be read, or zsh is not among the programs that are
/// switched on, nothing is completed and a running shell is ended.
pub proof fn law_shell_is_ended_where_zsh_is_off(
    ctx: CompletionContext,
    settings: Option<ExternalCompletionSettings>,
    reread: Option<ExternalCompletionSettings>,
    zsh: Option<String>,
)
    requires
        !ctx.is_first_token,
        settings matches Some(s) ==> forall|j: int|
            0 <= j < s.enabled@.len() ==> (#[trigger] s.enabled@[j]).kind != ExternalKind::Zsh,
    ensures
        !targeted(ctx, settings, zsh.is_some()),
        next_provide(
            ctx,
            ProvidePhaseView::Inspect,
            ProvideEvent::Inspected(settings, reread, zsh),
        ) == ProvidePhaseView::ShutDown(None),
{
    if let Some(s) = settings {
        crate::settings::law_program_that_is_off_is_not_asked(s, ExternalKind::Zsh);
    }
}

/// What a shell printed is the answer where it holds a candidate, whichever
/// shell it was. Without a candidate, or without a reply, there is no answer.
pub proof fn law_answer_is_what_the_shell_printed(
    ctx: CompletionContext,
    request: RequestView,
    output: String,
)
    ensures
        ({
            let found = capture::capture_candidates(output@);
            let done = ProvidePhaseView::Done(
                if found.len() > 0 {
                    Some(found)
                } else {
                    None
                },
            );
            let printed = ProvideEvent::Printed(Some(output));
            &&& next_provide(ctx, ProvidePhaseView::AskDaemon(request), printed) == done
            &&& next_provide(ctx, ProvidePhaseView::RunOneShot(request), printed) == done
            &&& next_provide(
                ctx,
                ProvidePhaseView::RunOneShot(request),
                ProvideEvent::Printed(None),
            ) == ProvidePhaseView::Done(None)
        }),
{
}

/// A bridge directory that is not ready ends a request, and where it is ready
/// the running shell is asked if it is to be used.
pub proof fn law_bridge_comes_before_the_shell(ctx: CompletionContext, request: RequestView)
    ensures
        next_provide(
            ctx,
            ProvidePhaseView::PrepareBridge(request),
            ProvideEvent::BridgeReady(false),
        ) == ProvidePhaseView::Done(None),
        request.use_daemon ==> next_provide(
            ctx,
            ProvidePhaseView::PrepareBridge(request),
            ProvideEvent::BridgeReady(true),
        ) == ProvidePhaseView::AskDaemon(request),
{
}

/// The shell for one request alone gets four arguments of its own, the third of
/// which is the script, and then the words as they are.
pub proof fn law_words_follow_the_script(script: Seq<char>, escaped: Seq<Seq<char>>, i: int)
    requires
        0 <= i < escaped.len(),
    ensures
        ({
            let args = one_shot_args(script, escaped);
            &&& args.len() == 4 + escaped.len()
            &&& args[0] == "--no-rcs"@
            &&& args[1] == "-c"@
            &&& args[2] == script
            &&& args[3] == "--"@
            &&& args[4 + i] == escaped[i]
        }),
{
}

/// Whether `event` is what came of the work of `phase`.
pub open spec fn awaits(phase: ProvidePhaseView, event: ProvideEvent) -> bool {
    match phase {
        ProvidePhaseView::Inspect => event is Inspected,
        ProvidePhaseView::PrepareBridge(_) => event is BridgeReady,
        ProvidePhaseView::AskDaemon(_) | ProvidePhaseView::RunOneShot(_) => event is Printed,
        ProvidePhaseView::ShutDown(_) => event is Ended,
        ProvidePhaseView::Done(_) => false,
    }
}

/// What did not come of the work that is due changes nothing, and once there is
/// an answer nothing does.
pub proof fn law_answer_waits_for_its_work(
    ctx: CompletionContext,
    phase: ProvidePhaseView,
    event: ProvideEvent,
)
    requires
        !awaits(phase, event),
    ensures
        next_provide(ctx, phase, event) == phase,
{
}

} // verus!
