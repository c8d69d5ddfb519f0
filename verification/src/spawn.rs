//! Starting the completion shell and waiting for its end.

use vstd::prelude::*;

use crate::budget;
use crate::budget::Timeout;
use crate::daemon::{ChildStatus, REAP_POLL_MS};
use crate::text;

verus! {

/// How long a shell that did not become ready may take to end, in milliseconds.
pub const FAILED_START_REAP_MS: u64 = 1000;

/// The program to run for the completion shell.
#[derive(Debug, Clone, PartialEq, Eq)]
pub struct SpawnCommand {
    pub program: String,
    pub args: Vec<String>,
    pub envs: Vec<(String, String)>,
}

/// The views of a sequence of variables with their values.
pub open spec fn variables(envs: Seq<(String, String)>) -> Seq<(Seq<char>, Seq<char>)> {
    Seq::new(envs.len(), |i: int| (envs[i].0@, envs[i].1@))
}

/// The command that starts the completion shell: an interactive zsh whose
/// start-up files are those of the bridge directory, on a terminal without
/// abilities. Further variables are set behind these two and go before them.
pub fn spawn_command(zsh: &str, bridge_dir: &str, extra_envs: &[(String, String)]) -> (r:
    SpawnCommand)
    ensures
        r.program@ == zsh@,
        text::texts(r.args@) == seq!["-i"@],
        variables(r.envs@) == seq![("ZDOTDIR"@, bridge_dir@), ("TERM"@, "dumb"@)] + variables(
            extra_envs@,
        ),
{
    let mut args: Vec<String> = Vec::new();
    args.push("-i".to_owned());
    let mut envs: Vec<(String, String)> = Vec::new();
    envs.push(("ZDOTDIR".to_owned(), bridge_dir.to_owned()));
    envs.push(("TERM".to_owned(), "dumb".to_owned()));
    let ghost own = variables(envs@);
    assert(own =~= seq![("ZDOTDIR"@, bridge_dir@), ("TERM"@, "dumb"@)]);
    let mut i: usize = 0;
    while i < extra_envs.len()
        invariant
            i <= extra_envs@.len(),
            variables(envs@) == own + variables(extra_envs@).take(i as int),
        decreases extra_envs@.len() - i,
    {
        let ghost before = envs@;
        let name: String = extra_envs[i].0.clone();
        let value: String = extra_envs[i].1.clone();
        envs.push((name, value));
        proof {
            let extra = variables(extra_envs@);
            assert(variables(envs@) =~= variables(before).push(extra[i as int]));
            assert(extra.take(i + 1) =~= extra.take(i as int).push(extra[i as int]));
            assert(variables(envs@) =~= own + extra.take(i + 1));
        }
        i += 1;
    }
    assert(variables(extra_envs@).take(i as int) =~= variables(extra_envs@));
    assert(text::texts(args@) =~= seq!["-i"@]);
    SpawnCommand { program: zsh.to_owned(), args, envs }
}

/// What the shell is told first: to read the script at this path.
pub open spec fn source_line(path: Seq<char>) -> Seq<char> {
    "source "@ + path + seq!['\n']
}

/// The line that has the shell read the script at this path.
pub fn source_command(path: &str) -> (r: String)
    ensures
        r@ == source_line(path@),
{
    let mut out: String = "source ".to_owned();
    out.append(path);
    out.push('\n');
    assert(out@ =~= source_line(path@));
    out
}

/// What is left to clean up when the shell could not be started.
#[derive(Debug, Clone, Copy, PartialEq, Eq, Structural)]
pub enum SpawnCleanup {
    /// Nothing.
    Nothing,
    /// The initialisation script.
    RemoveScript,
    /// The process and with it the script; the caller waits for the end.
    ShutDown,
}

/// The work that is due while the shell is started.
#[derive(Debug, Clone, Copy, PartialEq, Eq, Structural)]
pub enum SpawnPhase {
    /// Write the initialisation script.
    WriteScript,
    /// Open a pseudo-terminal.
    OpenPty,
    /// Double its descriptor for input, output and errors.
    DuplicateFds,
    /// Start the process.
    StartProcess,
    /// Send the line that has it read the script.
    SendSource,
    /// Wait until it prints that it is ready.
    AwaitReady,
    /// It serves requests.
    Ready,
    /// It could not be started.
    Failed(SpawnCleanup),
}

/// Where the start goes from `phase` when its work succeeded or failed.
pub open spec fn next_spawn(phase: SpawnPhase, ok: bool) -> SpawnPhase {
    match phase {
        SpawnPhase::WriteScript => if ok {
            SpawnPhase::OpenPty
        } else {
            SpawnPhase::Failed(SpawnCleanup::Nothing)
        },
        SpawnPhase::OpenPty => if ok {
            SpawnPhase::DuplicateFds
        } else {
            SpawnPhase::Failed(SpawnCleanup::Nothing)
        },
        SpawnPhase::DuplicateFds => if ok {
            SpawnPhase::StartProcess
        } else {
            SpawnPhase::Failed(SpawnCleanup::RemoveScript)
        },
        SpawnPhase::StartProcess => if ok {
            SpawnPhase::SendSource
        } else {
            SpawnPhase::Failed(SpawnCleanup::RemoveScript)
        },
        SpawnPhase::SendSource => if ok {
            SpawnPhase::AwaitReady
        } else {
            SpawnPhase::Failed(SpawnCleanup::ShutDown)
        },
        SpawnPhase::AwaitReady => if ok {
            SpawnPhase::Ready
        } else {
            SpawnPhase::Failed(SpawnCleanup::ShutDown)
        },
        SpawnPhase::Ready => phase,
        SpawnPhase::Failed(_) => phase,
    }
}

impl SpawnPhase {
    /// Takes whether the work of this phase succeeded.
    pub fn advance(self, ok: bool) -> (r: SpawnPhase)
        ensures
            r == next_spawn(self, ok),
    {
        match self {
            SpawnPhase::Ready | SpawnPhase::Failed(_) => self,
            SpawnPhase::WriteScript => if ok {
                SpawnPhase::OpenPty
            } else {
                SpawnPhase::Failed(SpawnCleanup::Nothing)
            },
            SpawnPhase::OpenPty => if ok {
                SpawnPhase::DuplicateFds
            } else {
                SpawnPhase::Failed(SpawnCleanup::Nothing)
            },
            SpawnPhase::DuplicateFds => if ok {
                SpawnPhase::StartProcess
            } else {
                SpawnPhase::Failed(SpawnCleanup::RemoveScript)
            },
            SpawnPhase::StartProcess => if ok {
                SpawnPhase::SendSource
            } else {
                SpawnPhase::Failed(SpawnCleanup::RemoveScript)
            },
            SpawnPhase::SendSource => if ok {
                SpawnPhase::AwaitReady
            } else {
                SpawnPhase::Failed(SpawnCleanup::ShutDown)
            },
            SpawnPhase::AwaitReady => if ok {
                SpawnPhase::Ready
            } else {
                SpawnPhase::Failed(SpawnCleanup::ShutDown)
            },
        }
    }
}

/// Where the start goes when its work succeeds or fails as `results` tell.
pub open spec fn run_spawn(phase: SpawnPhase, results: Seq<bool>) -> SpawnPhase
    decreases results.len(),
{
    if results.len() == 0 {
        phase
    } else {
        run_spawn(next_spawn(phase, results[0]), results.skip(1))
    }
}

/// How many pieces of work are done before this phase.
spec fn spawn_rank(phase: SpawnPhase) -> nat {
    match phase {
        SpawnPhase::WriteScript => 0,
        SpawnPhase::OpenPty => 1,
        SpawnPhase::DuplicateFds => 2,
        SpawnPhase::StartProcess => 3,
        SpawnPhase::SendSource => 4,
        SpawnPhase::AwaitReady => 5,
        SpawnPhase::Ready => 6,
        SpawnPhase::Failed(_) => 7,
    }
}

proof fn lemma_ready_needs_success(phase: SpawnPhase, results: Seq<bool>)
    requires
        run_spawn(phase, results) == SpawnPhase::Ready,
    ensures
        !(phase is Failed),
        results.len() >= 6 - spawn_rank(phase),
        forall|i: int| 0 <= i < 6 - spawn_rank(phase) ==> #[trigger] results[i],
    decreases results.len(),
{
    if results.len() > 0 {
        let then = next_spawn(phase, results[0]);
        lemma_ready_needs_success(then, results.skip(1));
        if !(phase is Ready) {
            assert forall|i: int| 0 <= i < 6 - spawn_rank(phase) implies #[trigger] results[i] by {
                if i > 0 {
                    assert(results.skip(1)[i - 1] == results[i]);
                }
            }
        }
    }
}

/// The shell serves requests only once every piece of work has succeeded.
pub proof fn law_ready_only_after_every_success(results: Seq<bool>)
    requires
        run_spawn(SpawnPhase::WriteScript, results) == SpawnPhase::Ready,
    ensures
        results.len() >= 6,
        forall|i: int| 0 <= i < 6 ==> #[trigger] results[i],
{
    lemma_ready_needs_success(SpawnPhase::WriteScript, results);
}

/// A start that fails once the process runs puts the process away, and one that
/// fails on the way there takes the script away.
pub proof fn law_failed_start_is_cleaned_up(phase: SpawnPhase)
    ensures
        phase is SendSource || phase is AwaitReady ==> next_spawn(phase, false)
            == SpawnPhase::Failed(SpawnCleanup::ShutDown),
        phase is DuplicateFds || phase is StartProcess ==> next_spawn(phase, false)
            == SpawnPhase::Failed(SpawnCleanup::RemoveScript),
{
}

/// How to go on while a process is to end.
#[derive(Debug, Clone, Copy, PartialEq, Eq, Structural)]
pub enum ReapTurn {
    /// Look again after this time.
    Wait(Timeout),
    /// Wait no longer; the script is to be removed now.
    Stop,
}

/// Decides how to go on behind a look at a process that was killed: the wait
/// ends when the process has ended, when the look fails, or when the deadline
/// has passed.
pub fn reap_turn(status: ChildStatus, expired: bool) -> (r: ReapTurn)
    ensures
        match r {
            ReapTurn::Wait(pause) => !expired && status == ChildStatus::Running && pause.nanos
                == budget::millis(REAP_POLL_MS) && pause.nanos == 25_000_000,
            ReapTurn::Stop => expired || status != ChildStatus::Running,
        },
{
    if !expired && status == ChildStatus::Running {
        ReapTurn::Wait(Timeout::from_millis(REAP_POLL_MS))
    } else {
        ReapTurn::Stop
    }
}

/// A start that succeeds in each of its six pieces of work is ready, and one
/// that fails in a piece of work is not, whatever follows.
pub proof fn law_start_succeeds_where_all_of_it_does(results: Seq<bool>)
    requires
        results.len() == 6,
    ensures
        run_spawn(SpawnPhase::WriteScript, results) == SpawnPhase::Ready <==> forall|i: int|
            0 <= i < 6 ==> #[trigger] results[i],
{
    reveal_with_fuel(run_spawn, 7);
    let r1 = results.skip(1);
    let r2 = r1.skip(1);
    let r3 = r2.skip(1);
    let r4 = r3.skip(1);
    let r5 = r4.skip(1);
    assert(r1[0] == results[1] && r2[0] == results[2] && r3[0] == results[3] && r4[0] == results[4]
        && r5[0] == results[5]);
    if run_spawn(SpawnPhase::WriteScript, results) == SpawnPhase::Ready {
        law_ready_only_after_every_success(results);
    }
}

/// What is left to clean up behind a start that failed: nothing before there is
/// a terminal, the script before there is a process, and the process with its
/// script from then on.
pub proof fn law_failed_start_has_its_cleanup()
    ensures
        next_spawn(SpawnPhase::WriteScript, false) == SpawnPhase::Failed(SpawnCleanup::Nothing),
        next_spawn(SpawnPhase::OpenPty, false) == SpawnPhase::Failed(SpawnCleanup::Nothing),
        next_spawn(SpawnPhase::DuplicateFds, false) == SpawnPhase::Failed(
            SpawnCleanup::RemoveScript,
        ),
        next_spawn(SpawnPhase::StartProcess, false) == SpawnPhase::Failed(
            SpawnCleanup::RemoveScript,
        ),
        next_spawn(SpawnPhase::SendSource, false) == SpawnPhase::Failed(SpawnCleanup::ShutDown),
        next_spawn(SpawnPhase::AwaitReady, false) == SpawnPhase::Failed(SpawnCleanup::ShutDown),
{
}

/// The pieces of work of a start come in this order.
pub proof fn law_start_takes_its_order()
    ensures
        next_spawn(SpawnPhase::WriteScript, true) == SpawnPhase::OpenPty,
        next_spawn(SpawnPhase::OpenPty, true) == SpawnPhase::DuplicateFds,
        next_spawn(SpawnPhase::DuplicateFds, true) == SpawnPhase::StartProcess,
        next_spawn(SpawnPhase::StartProcess, true) == SpawnPhase::SendSource,
        next_spawn(SpawnPhase::SendSource, true) == SpawnPhase::AwaitReady,
        next_spawn(SpawnPhase::AwaitReady, true) == SpawnPhase::Ready,
{
}

/// The line that has a shell read a script is the word `source`, a space, the
/// path as it is and a line feed.
pub proof fn law_script_is_named_as_it_is(path: Seq<char>)
    ensures
        source_line(path) == seq!['s', 'o', 'u', 'r', 'c', 'e', ' '] + path + seq!['\n'],
{
    reveal_strlit("source ");
    assert("source "@ =~= seq!['s', 'o', 'u', 'r', 'c', 'e', ' ']);
}

/// A start that is ready or has failed stays so.
pub proof fn law_start_is_decided_once(how: SpawnCleanup, ok: bool)
    ensures
        next_spawn(SpawnPhase::Ready, ok) == SpawnPhase::Ready,
        next_spawn(SpawnPhase::Failed(how), ok) == SpawnPhase::Failed(how),
{
}

} // verus!
