//! The bridge directory and the time that completion by zsh may take.
//!
//! The completion shell reads its start-up file from a directory of its own, so
//! the user's own start-up file has no part in it. The file is made once, from
//! a template, and belongs to the user from then on.

use vstd::prelude::*;

use crate::budget;
use crate::budget::Timeout;

verus! {

/// The least time for a shell to start and become ready, and for a request to a
/// shell that is started for it alone, in milliseconds.
pub const MIN_TIMEOUT_MS: u64 = 2000;

/// The least time for a request to a shell that is kept running, in
/// milliseconds.
pub const WARM_MIN_TIMEOUT_MS: u64 = 2000;

/// The name of the bridge directory.
pub const BRIDGE_DIR_NAME: &'static str = "zsh-bridge";

/// The name of the start-up file.
pub const BRIDGE_ZSHRC_NAME: &'static str = ".zshrc";

/// The directory that holds the bridge directory, below the home directory.
pub const CONFIG_DIR: &'static str = ".config/jarvish";

/// The time that a request to a running shell gets: the configured time, but no
/// less than the floor.
pub open spec fn warm_timeout(raw: Timeout) -> int {
    if raw.nanos < budget::millis(WARM_MIN_TIMEOUT_MS) {
        budget::millis(WARM_MIN_TIMEOUT_MS)
    } else {
        raw.nanos as int
    }
}

/// Computes the time that a request to a running shell gets.
pub fn compute_warm_timeout(raw_timeout: Timeout) -> (r: Timeout)
    ensures
        r.nanos == warm_timeout(raw_timeout),
{
    raw_timeout.longer(Timeout::from_millis(WARM_MIN_TIMEOUT_MS))
}

/// A path below a directory: a slash stands between the two unless the
/// directory has no name or ends in one.
pub open spec fn below(dir: Seq<char>, name: Seq<char>) -> Seq<char> {
    if dir.len() == 0 || dir.last() == '/' {
        dir + name
    } else {
        dir + seq!['/'] + name
    }
}

/// Puts a relative path behind a directory.
pub fn join_path(dir: &str, name: &str) -> (r: String)
    ensures
        r@ == below(dir@, name@),
{
    let mut out: String = dir.to_owned();
    let chars: Vec<char> = crate::text::chars_of(dir);
    if chars.len() > 0 && chars[chars.len() - 1] != '/' {
        out.push('/');
    }
    out.append(name);
    assert(out@ =~= below(dir@, name@));
    out
}

/// The bridge directory below this home directory, or below the current
/// directory where there is none.
pub open spec fn bridge_dir_text(home: Option<Seq<char>>) -> Seq<char> {
    let base = match home {
        Some(dir) => dir,
        None => seq!['.'],
    };
    below(below(base, CONFIG_DIR@), BRIDGE_DIR_NAME@)
}

/// Names the bridge directory.
pub fn bridge_dir(home: Option<&str>) -> (r: String)
    ensures
        r@ == bridge_dir_text(
            match home {
                Some(dir) => Some(dir@),
                None => None,
            },
        ),
{
    let config: String = match home {
        Some(dir) => join_path(dir, CONFIG_DIR),
        None => {
            proof {
                reveal_strlit(".");
                assert("."@ =~= seq!['.']);
            }
            join_path(".", CONFIG_DIR)
        },
    };
    join_path(config.as_str(), BRIDGE_DIR_NAME)
}

/// Names the start-up file of a bridge directory.
pub fn bridge_zshrc_path(dir: &str) -> (r: String)
    ensures
        r@ == below(dir@, BRIDGE_ZSHRC_NAME@),
        r@ == below(dir@, ".zshrc"@),
{
    join_path(dir, BRIDGE_ZSHRC_NAME)
}

/// What a look at a path, without following links, tells.
#[derive(Debug, Clone, Copy, PartialEq, Eq, Structural)]
pub enum PathKind {
    /// Nothing is there.
    Missing,
    /// A symbolic link is there.
    Link,
    /// Something else is there.
    Other,
    /// The look itself failed.
    Unreadable,
}

/// Why the bridge directory cannot be used.
#[derive(Debug, Clone, Copy, PartialEq, Eq, Structural)]
pub enum BridgeError {
    /// A piece of work on the file system failed.
    Io,
    /// The bridge directory is a symbolic link.
    DirIsLink,
    /// The start-up file is a symbolic link.
    ZshrcIsLink,
}

/// Tells whether a path is a symbolic link. Nothing is no link; where the look
/// failed, that cannot be told.
pub fn is_symlink(kind: PathKind) -> (r: Result<bool, BridgeError>)
    ensures
        r == (match kind {
            PathKind::Link => Ok::<bool, BridgeError>(true),
            PathKind::Missing => Ok(false),
            PathKind::Other => Ok(false),
            PathKind::Unreadable => Err(BridgeError::Io),
        }),
{
    match kind {
        PathKind::Link => Ok(true),
        PathKind::Missing => Ok(false),
        PathKind::Other => Ok(false),
        PathKind::Unreadable => Err(BridgeError::Io),
    }
}

/// The work that is due while the bridge directory is made ready.
#[derive(Debug, Clone, Copy, PartialEq, Eq, Structural)]
pub enum EnsurePhase {
    /// Make the directory and those above it.
    CreateDir,
    /// Look at the directory.
    InspectDir,
    /// Look at the start-up file.
    InspectZshrc,
    /// Find out whether there is a start-up file.
    LookForZshrc,
    /// Write the template.
    WriteTemplate,
    /// The directory can be used.
    Ready,
    /// It cannot.
    Refused(BridgeError),
}

/// What came of the work that was due.
#[derive(Debug, Clone, Copy, PartialEq, Eq, Structural)]
pub enum EnsureEvent {
    /// It succeeded, or it failed.
    Finished(bool),
    /// The look at a path told this.
    Inspected(PathKind),
    /// There is a start-up file, or there is none.
    Exists(bool),
}

/// Where the work goes behind a look at a path that must not be a link.
pub open spec fn unless_link(kind: PathKind, error: BridgeError, then: EnsurePhase) -> EnsurePhase {
    match kind {
        PathKind::Link => EnsurePhase::Refused(error),
        PathKind::Unreadable => EnsurePhase::Refused(BridgeError::Io),
        _ => then,
    }
}

/// Where the work goes from `phase` when `event` came of it. An event that the
/// phase does not wait for changes nothing.
pub open spec fn next_ensure(phase: EnsurePhase, event: EnsureEvent) -> EnsurePhase {
    match (phase, event) {
        (EnsurePhase::CreateDir, EnsureEvent::Finished(ok)) => if ok {
            EnsurePhase::InspectDir
        } else {
            EnsurePhase::Refused(BridgeError::Io)
        },
        (EnsurePhase::InspectDir, EnsureEvent::Inspected(kind)) => unless_link(
            kind,
            BridgeError::DirIsLink,
            EnsurePhase::InspectZshrc,
        ),
        (EnsurePhase::InspectZshrc, EnsureEvent::Inspected(kind)) => unless_link(
            kind,
            BridgeError::ZshrcIsLink,
            EnsurePhase::LookForZshrc,
        ),
        (EnsurePhase::LookForZshrc, EnsureEvent::Exists(there)) => if there {
            EnsurePhase::Ready
        } else {
            EnsurePhase::WriteTemplate
        },
        (EnsurePhase::WriteTemplate, EnsureEvent::Finished(ok)) => if ok {
            EnsurePhase::Ready
        } else {
            EnsurePhase::Refused(BridgeError::Io)
        },
        _ => phase,
    }
}

/// Begins to make the bridge directory ready.
pub fn ensure_bridge_zshrc() -> (r: EnsurePhase)
    ensures
        r == EnsurePhase::CreateDir,
{
    EnsurePhase::CreateDir
}

impl EnsurePhase {
    /// Takes what came of the work of this phase.
    pub fn advance(self, event: EnsureEvent) -> (r: EnsurePhase)
        ensures
            r == next_ensure(self, event),
    {
        match (self, event) {
            (EnsurePhase::CreateDir, EnsureEvent::Finished(ok)) => if ok {
                EnsurePhase::InspectDir
            } else {
                EnsurePhase::Refused(BridgeError::Io)
            },
            (EnsurePhase::InspectDir, EnsureEvent::Inspected(kind)) => match is_symlink(kind) {
                Ok(true) => EnsurePhase::Refused(BridgeError::DirIsLink),
                Ok(false) => EnsurePhase::InspectZshrc,
                Err(error) => EnsurePhase::Refused(error),
            },
            (EnsurePhase::InspectZshrc, EnsureEvent::Inspected(kind)) => match is_symlink(kind) {
                Ok(true) => EnsurePhase::Refused(BridgeError::ZshrcIsLink),
                Ok(false) => EnsurePhase::LookForZshrc,
                Err(error) => EnsurePhase::Refused(error),
            },
            (EnsurePhase::LookForZshrc, EnsureEvent::Exists(there)) => if there {
                EnsurePhase::Ready
            } else {
                EnsurePhase::WriteTemplate
            },
            (EnsurePhase::WriteTemplate, EnsureEvent::Finished(ok)) => if ok {
                EnsurePhase::Ready
            } else {
                EnsurePhase::Refused(BridgeError::Io)
            },
            (phase, _) => phase,
        }
    }
}

/// Where the work goes when `events` come of it, one after the other.
pub open spec fn run_ensure(phase: EnsurePhase, events: Seq<EnsureEvent>) -> EnsurePhase
    decreases events.len(),
{
    if events.len() == 0 {
        phase
    } else {
        next_ensure(run_ensure(phase, events.drop_last()), events.last())
    }
}

proof fn lemma_final_phase_stays(events: Seq<EnsureEvent>, i: int)
    requires
        0 <= i <= events.len(),
        run_ensure(EnsurePhase::CreateDir, events.take(i)) is Ready || run_ensure(
            EnsurePhase::CreateDir,
            events.take(i),
        ) is Refused,
    ensures
        run_ensure(EnsurePhase::CreateDir, events) == run_ensure(
            EnsurePhase::CreateDir,
            events.take(i),
        ),
    decreases events.len() - i,
{
    if i < events.len() {
        assert(events.take(i + 1).drop_last() =~= events.take(i));
        lemma_final_phase_stays(events, i + 1);
    } else {
        assert(events.take(i) =~= events);
    }
}

/// A symbolic link in the place of the directory, or of the start-up file, is
/// never used: the work ends with the error that names it.
pub proof fn law_link_is_refused(events: Seq<EnsureEvent>, i: int)
    requires
        0 <= i < events.len(),
        events[i] == EnsureEvent::Inspected(PathKind::Link),
    ensures
        run_ensure(EnsurePhase::CreateDir, events.take(i)) is InspectDir ==> run_ensure(
            EnsurePhase::CreateDir,
            events,
        ) == EnsurePhase::Refused(BridgeError::DirIsLink),
        run_ensure(EnsurePhase::CreateDir, events.take(i)) is InspectZshrc ==> run_ensure(
            EnsurePhase::CreateDir,
            events,
        ) == EnsurePhase::Refused(BridgeError::ZshrcIsLink),
{
    assert(events.take(i + 1).drop_last() =~= events.take(i));
    let before = run_ensure(EnsurePhase::CreateDir, events.take(i));
    if before is InspectDir || before is InspectZshrc {
        lemma_final_phase_stays(events, i + 1);
    }
}

/// A start-up file that is there is never written over: once it was found, the
/// directory is ready and nothing more is done.
pub proof fn law_existing_zshrc_is_kept(events: Seq<EnsureEvent>, i: int)
    requires
        0 <= i < events.len(),
        run_ensure(EnsurePhase::CreateDir, events.take(i)) is LookForZshrc,
        events[i] == EnsureEvent::Exists(true),
    ensures
        run_ensure(EnsurePhase::CreateDir, events) == EnsurePhase::Ready,
        forall|k: int|
            0 <= k <= events.len() ==> !(#[trigger] run_ensure(
                EnsurePhase::CreateDir,
                events.take(k),
            ) is WriteTemplate),
{
    assert(events.take(i + 1).drop_last() =~= events.take(i));
    lemma_final_phase_stays(events, i + 1);
    assert forall|k: int| 0 <= k <= events.len() implies !(#[trigger] run_ensure(
        EnsurePhase::CreateDir,
        events.take(k),
    ) is WriteTemplate) by {
        if k > i {
            assert(events.take(k).take(i + 1) =~= events.take(i + 1));
            lemma_final_phase_stays(events.take(k), i + 1);
        } else if run_ensure(EnsurePhase::CreateDir, events.take(k)) is WriteTemplate {
            lemma_no_template_before(events, k, i);
        }
    }
}

proof fn lemma_no_template_before(events: Seq<EnsureEvent>, k: int, i: int)
    requires
        0 <= k <= i <= events.len(),
        run_ensure(EnsurePhase::CreateDir, events.take(k)) is WriteTemplate,
    ensures
        run_ensure(EnsurePhase::CreateDir, events.take(i)) is WriteTemplate || run_ensure(
            EnsurePhase::CreateDir,
            events.take(i),
        ) is Ready || run_ensure(EnsurePhase::CreateDir, events.take(i)) is Refused,
    decreases i - k,
{
    if k < i {
        lemma_no_template_before(events, k, i - 1);
        assert(events.take(i).drop_last() =~= events.take(i - 1));
    }
}

/// A request to a running shell never gets less time than the floor, and never
/// less than was configured.
pub proof fn law_warm_timeout_has_a_floor(raw: Timeout)
    ensures
        warm_timeout(raw) >= budget::millis(WARM_MIN_TIMEOUT_MS),
        warm_timeout(raw) >= raw.nanos,
        warm_timeout(raw) == budget::millis(WARM_MIN_TIMEOUT_MS) || warm_timeout(raw) == raw.nanos,
{
}

/// A path stands behind a directory and one slash. The slash of a directory that
/// ends in one is that slash.
pub proof fn law_one_slash_stands_before_a_name(dir: Seq<char>, name: Seq<char>)
    requires
        dir.len() > 0,
        dir.last() != '/',
    ensures
        below(dir, name) == dir + seq!['/'] + name,
        below(dir.push('/'), name) == dir + seq!['/'] + name,
        below(seq![], name) == name,
{
    assert(dir.push('/') + name =~= dir + seq!['/'] + name);
    assert(Seq::<char>::empty() + name =~= name);
}

/// The bridge directory stands in the configuration of this shell, below the
/// home directory, or below the current one where there is no home.
pub proof fn law_bridge_directory_is_below_home(home: Seq<char>)
    requires
        home.len() > 0,
        home.last() != '/',
    ensures
        bridge_dir_text(Some(home)) == home + "/.config/jarvish/zsh-bridge"@,
        bridge_dir_text(None) == "./.config/jarvish/zsh-bridge"@,
{
    reveal_strlit(".config/jarvish");
    reveal_strlit("zsh-bridge");
    reveal_strlit("/.config/jarvish/zsh-bridge");
    reveal_strlit("./.config/jarvish/zsh-bridge");
    assert(CONFIG_DIR@ == ".config/jarvish"@);
    assert(BRIDGE_DIR_NAME@ == "zsh-bridge"@);
    let config = home + seq!['/'] + CONFIG_DIR@;
    assert(config.last() == 'h');
    assert(bridge_dir_text(Some(home)) =~= home + "/.config/jarvish/zsh-bridge"@);
    let other = seq!['.'] + seq!['/'] + CONFIG_DIR@;
    assert(other.last() == 'h');
    assert(bridge_dir_text(None) =~= "./.config/jarvish/zsh-bridge"@);
}

/// A directory that can be made and is no link is used as soon as its start-up
/// file is known to be no link and to be there. Where it is missing it is written
/// first.
pub proof fn law_sound_directory_is_used(kind: PathKind, other: PathKind, wrote: bool)
    requires
        kind == PathKind::Other || kind == PathKind::Missing,
        other == PathKind::Other || other == PathKind::Missing,
    ensures
        ({
            let made = next_ensure(EnsurePhase::CreateDir, EnsureEvent::Finished(true));
            let looked = next_ensure(made, EnsureEvent::Inspected(kind));
            let checked = next_ensure(looked, EnsureEvent::Inspected(other));
            let absent = next_ensure(checked, EnsureEvent::Exists(false));
            &&& made == EnsurePhase::InspectDir
            &&& looked == EnsurePhase::InspectZshrc
            &&& checked == EnsurePhase::LookForZshrc
            &&& next_ensure(checked, EnsureEvent::Exists(true)) == EnsurePhase::Ready
            &&& absent == EnsurePhase::WriteTemplate
            &&& next_ensure(absent, EnsureEvent::Finished(wrote)) == if wrote {
                EnsurePhase::Ready
            } else {
                EnsurePhase::Refused(BridgeError::Io)
            }
        }),
{
}

/// A piece of work on the file system that fails, a look at a path included,
/// ends in the error that says so.
pub proof fn law_failed_work_is_an_error()
    ensures
        next_ensure(EnsurePhase::CreateDir, EnsureEvent::Finished(false)) == EnsurePhase::Refused(
            BridgeError::Io,
        ),
        next_ensure(EnsurePhase::InspectDir, EnsureEvent::Inspected(PathKind::Unreadable))
            == EnsurePhase::Refused(BridgeError::Io),
        next_ensure(EnsurePhase::InspectZshrc, EnsureEvent::Inspected(PathKind::Unreadable))
            == EnsurePhase::Refused(BridgeError::Io),
{
}

/// A request to a running shell gets two seconds, or the configured time where
/// that is more.
pub proof fn law_running_shell_gets_two_seconds_at_least(raw: Timeout)
    ensures
        raw.nanos <= 2_000_000_000 ==> warm_timeout(raw) == 2_000_000_000,
        raw.nanos >= 2_000_000_000 ==> warm_timeout(raw) == raw.nanos,
{
}

/// Whether `event` is what came of the work of `phase`.
pub open spec fn awaits(phase: EnsurePhase, event: EnsureEvent) -> bool {
    match phase {
        EnsurePhase::CreateDir | EnsurePhase::WriteTemplate => event is Finished,
        EnsurePhase::InspectDir | EnsurePhase::InspectZshrc => event is Inspected,
        EnsurePhase::LookForZshrc => event is Exists,
        EnsurePhase::Ready | EnsurePhase::Refused(_) => false,
    }
}

/// What did not come of the work that is due changes nothing, and once the
/// directory is ready or refused nothing does.
pub proof fn law_directory_waits_for_its_work(phase: EnsurePhase, event: EnsureEvent)
    requires
        !awaits(phase, event),
    ensures
        next_ensure(phase, event) == phase,
{
}

} // verus!
