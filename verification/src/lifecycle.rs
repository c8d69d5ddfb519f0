//! The one completion shell of a session: how it comes to be and how it ends.
//!
//! The shell stands in a slot that is shared by the thread that serves requests
//! and by a thread that starts the shell ahead of the first request. A session
//! that ends closes a latch before it empties the slot; whoever starts a shell
//! looks at the latch again while holding the slot, so no shell outlives the
//! session.

use vstd::prelude::*;

use crate::bridge::MIN_TIMEOUT_MS;
use crate::budget;
use crate::budget::Timeout;
use crate::daemon;
use crate::daemon::{Reap, ZshDaemon};
use crate::settings::{ExternalCompletionSettings, ExternalKind};
use crate::text;

verus! {

/// How long a shell that is not needed after all may take to end, in
/// milliseconds.
pub const DISCARD_DEADLINE_MS: u64 = 1000;

/// Whether the session has ended. A latch that is closed never opens again.
#[derive(Debug)]
pub struct DaemonGate {
    closed: bool,
}

impl Default for DaemonGate {
    /// An open latch.
    fn default() -> (r: Self)
        ensures
            !r.shut(),
    {
        DaemonGate { closed: false }
    }
}

impl DaemonGate {
    /// Whether the latch is closed.
    pub closed spec fn shut(&self) -> bool {
        self.closed
    }

    /// An open latch.
    pub fn new() -> (r: Self)
        ensures
            !r.shut(),
    {
        DaemonGate { closed: false }
    }

    /// Closes the latch.
    pub fn close(&mut self)
        ensures
            final(self).shut(),
    {
        self.closed = true;
    }

    /// Tells whether the latch is closed.
    pub fn is_closed(&self) -> (b: bool)
        ensures
            b == self.shut(),
    {
        self.closed
    }
}

/// A running shell, and when the start-up file that it read was last changed,
/// in nanoseconds since the epoch, where that is known.
#[derive(Debug, Clone)]
pub struct DaemonSlot {
    pub daemon: ZshDaemon,
    pub zshrc_mtime_at_spawn: Option<i128>,
}

/// Whether the shell in a slot, if any, is counted rightly.
pub open spec fn slot_wf(slot: Option<DaemonSlot>) -> bool {
    slot matches Some(s) ==> s.daemon.wf()
}

/// An empty slot.
pub fn new_shared_daemon_slot() -> (slot: Option<DaemonSlot>)
    ensures
        slot.is_none(),
{
    None
}

/// What is to be reaped when the slot is emptied.
pub open spec fn slot_reap(slot: Option<DaemonSlot>, blocking: bool, deadline: int) -> Option<
    daemon::ReapView,
> {
    match slot {
        Some(s) => daemon::death_reap(s.daemon@, blocking, deadline),
        None => None,
    }
}

/// Empties the slot and ends the shell in it, which is reaped in the
/// background. An empty slot stays empty. The latch is left alone, so a shell
/// can be started again.
pub fn shutdown_shared_daemon(slot: &mut Option<DaemonSlot>) -> (reap: Option<Reap>)
    requires
        slot_wf(*old(slot)),
    ensures
        final(slot).is_none(),
        daemon::optional_reap(reap) == slot_reap(
            *old(slot),
            false,
            budget::millis(daemon::REAP_DEADLINE_MS),
        ),
{
    match slot.take() {
        Some(mut taken) => taken.daemon.shutdown(),
        None => None,
    }
}

/// Empties the slot and ends the shell in it; the caller waits for the end.
/// Where a latch is given, it is closed first. Without one the latch is left
/// alone. `ShutdownPhase` tells when to close it where it is shared.
pub fn shutdown_shared_daemon_blocking(
    slot: &mut Option<DaemonSlot>,
    deadline: Timeout,
    gate: Option<&mut DaemonGate>,
) -> (reap: Option<Reap>)
    requires
        slot_wf(*old(slot)),
    ensures
        final(slot).is_none(),
        gate matches Some(g) ==> final(g).shut(),
        daemon::optional_reap(reap) == slot_reap(*old(slot), true, deadline.nanos as int),
{
    if let Some(g) = gate {
        g.close();
    }
    match slot.take() {
        Some(mut taken) => taken.daemon.shutdown_blocking(deadline),
        None => None,
    }
}

/// Whether the start-up file has changed since the shell read it. Where either
/// time is not known, it has not.
pub open spec fn changed_since(at_spawn: Option<i128>, current: Option<i128>) -> bool {
    at_spawn matches Some(a) && current matches Some(b) && a != b
}

/// Tells whether the start-up file has changed since the shell read it.
pub fn mtime_changed(at_spawn: Option<i128>, current: Option<i128>) -> (b: bool)
    ensures
        b == changed_since(at_spawn, current),
{
    match (at_spawn, current) {
        (Some(a), Some(b)) => a != b,
        _ => false,
    }
}

/// Whether the shell in the slot is too old for a start-up file of this time.
pub open spec fn outdated(slot: Option<DaemonSlot>, current: Option<i128>) -> bool {
    slot matches Some(s) && changed_since(s.zshrc_mtime_at_spawn, current)
}

/// Makes the slot ready for a request: a shell that read an older start-up file
/// is put away. Returns whether a shell has to be started, and what is to be
/// reaped.
fn open_slot(slot: &mut Option<DaemonSlot>, current: Option<i128>) -> (r: (bool, Option<Reap>))
    requires
        slot_wf(*old(slot)),
    ensures
        slot_wf(*final(slot)),
        *final(slot) == if outdated(*old(slot), current) {
            None
        } else {
            *old(slot)
        },
        r.0 == final(slot).is_none(),
        daemon::optional_reap(r.1) == if outdated(*old(slot), current) {
            slot_reap(*old(slot), false, budget::millis(daemon::REAP_DEADLINE_MS))
        } else {
            None
        },
{
    let stale: bool = match &*slot {
        Some(s) => mtime_changed(s.zshrc_mtime_at_spawn, current),
        None => false,
    };
    let mut reap: Option<Reap> = None;
    if stale {
        reap = shutdown_shared_daemon(slot);
    }
    (slot.is_none(), reap)
}

/// Puts a shell that was started for a request into the slot.
fn fill_slot(slot: &mut Option<DaemonSlot>, daemon: ZshDaemon, current: Option<i128>)
    requires
        daemon.wf(),
    ensures
        slot_wf(*final(slot)),
        *final(slot) == Some(DaemonSlot { daemon, zshrc_mtime_at_spawn: current }),
{
    *slot = Some(DaemonSlot { daemon, zshrc_mtime_at_spawn: current });
}

/// Empties the slot behind a request that ended its shell, so that the next
/// request starts another.
fn settle_slot(slot: &mut Option<DaemonSlot>)
    requires
        slot_wf(*old(slot)),
    ensures
        slot_wf(*final(slot)),
        *final(slot) == settled(*old(slot)),
{
    let ended: bool = match &*slot {
        Some(s) => !s.daemon.is_alive(),
        None => false,
    };
    if ended {
        *slot = None;
    }
}

/// The work that is due while a request is put to the shell that is kept
/// running.
#[derive(Debug, Clone)]
pub enum CallPhase {
    /// Find out when the start-up file was last changed.
    ReadMtime,
    /// Take hold of the slot; the start-up file was last changed then.
    HoldSlot(Option<i128>),
    /// Start a shell, which reads the start-up file of then.
    Spawn(Option<i128>),
    /// Put the line to the shell in the slot.
    Ask,
    /// Nothing is left to do; this is what the shell printed, if it did.
    Done(Option<String>),
}

/// `CallPhase`, as mathematical values.
pub enum CallPhaseView {
    ReadMtime,
    HoldSlot(Option<i128>),
    Spawn(Option<i128>),
    Ask,
    Done(Option<Seq<char>>),
}

impl View for CallPhase {
    type V = CallPhaseView;

    open spec fn view(&self) -> CallPhaseView {
        match *self {
            CallPhase::ReadMtime => CallPhaseView::ReadMtime,
            CallPhase::HoldSlot(mtime) => CallPhaseView::HoldSlot(mtime),
            CallPhase::Spawn(mtime) => CallPhaseView::Spawn(mtime),
            CallPhase::Ask => CallPhaseView::Ask,
            CallPhase::Done(reply) => CallPhaseView::Done(text::optional_text(reply)),
        }
    }
}

/// What came of the work that was due.
#[derive(Debug, Clone)]
pub enum CallEvent {
    /// The start-up file was last changed then, where that is known.
    Mtime(Option<i128>),
    /// The slot is held, or it cannot be.
    Held(bool),
    /// This shell has been started, or none could be.
    Spawned(Option<ZshDaemon>),
    /// The shell printed this, or it did not answer.
    Answered(Option<String>),
}

/// The slot behind a request: a shell that stopped serving is no longer in it.
pub open spec fn settled(slot: Option<DaemonSlot>) -> Option<DaemonSlot> {
    match slot {
        Some(s) => if s.daemon@.alive {
            Some(s)
        } else {
            None
        },
        None => None,
    }
}

/// Where a request goes from `phase` when `event` came of its work: the next
/// phase, the slot, and what is to be reaped. An event that the phase does not
/// wait for changes nothing.
pub open spec fn next_call(phase: CallPhaseView, slot: Option<DaemonSlot>, event: CallEvent) -> (
    CallPhaseView,
    Option<DaemonSlot>,
    Option<daemon::ReapView>,
) {
    match (phase, event) {
        (CallPhaseView::ReadMtime, CallEvent::Mtime(mtime)) => (
            CallPhaseView::HoldSlot(mtime),
            slot,
            None,
        ),
        (CallPhaseView::HoldSlot(mtime), CallEvent::Held(held)) => if !held {
            (CallPhaseView::Done(None), slot, None)
        } else if outdated(slot, mtime) {
            (
                CallPhaseView::Spawn(mtime),
                None,
                slot_reap(slot, false, budget::millis(daemon::REAP_DEADLINE_MS)),
            )
        } else if slot.is_none() {
            (CallPhaseView::Spawn(mtime), None, None)
        } else {
            (CallPhaseView::Ask, slot, None)
        },
        (CallPhaseView::Spawn(mtime), CallEvent::Spawned(started)) => match started {
            Some(daemon) => (
                CallPhaseView::Ask,
                Some(DaemonSlot { daemon, zshrc_mtime_at_spawn: mtime }),
                None,
            ),
            None => (CallPhaseView::Done(None), slot, None),
        },
        (CallPhaseView::Ask, CallEvent::Answered(reply)) => (
            CallPhaseView::Done(text::optional_text(reply)),
            settled(slot),
            None,
        ),
        _ => (phase, slot, None),
    }
}

/// Begins to put a request to the shell that is kept running.
pub fn request_via_daemon() -> (phase: CallPhase)
    ensures
        phase@ == CallPhaseView::ReadMtime,
{
    CallPhase::ReadMtime
}

impl CallPhase {
    /// How long the work of this phase may take: `cold` for a shell to start,
    /// `warm` for it to answer. A shell that was only just started gets as much
    /// time to answer as any other.
    pub fn timeout(&self, cold: Timeout, warm: Timeout) -> (r: Option<Timeout>)
        ensures
            r == (match self@ {
                CallPhaseView::Spawn(_) => Some(cold),
                CallPhaseView::Ask => Some(warm),
                _ => None,
            }),
    {
        match self {
            CallPhase::Spawn(_) => Some(cold),
            CallPhase::Ask => Some(warm),
            _ => None,
        }
    }

    /// Takes what came of the work of this phase. Returns the next phase and
    /// what is to be reaped.
    pub fn advance(self, slot: &mut Option<DaemonSlot>, event: CallEvent) -> (r: (
        CallPhase,
        Option<Reap>,
    ))
        requires
            slot_wf(*old(slot)),
            event matches CallEvent::Spawned(Some(d)) ==> d.wf(),
        ensures
            slot_wf(*final(slot)),
            (r.0@, *final(slot), daemon::optional_reap(r.1)) == next_call(self@, *old(slot), event),
    {
        match (self, event) {
            (CallPhase::ReadMtime, CallEvent::Mtime(mtime)) => (CallPhase::HoldSlot(mtime), None),
            (CallPhase::HoldSlot(mtime), CallEvent::Held(held)) => {
                if !held {
                    (CallPhase::Done(None), None)
                } else {
                    let (needed, reap): (bool, Option<Reap>) = open_slot(slot, mtime);
                    if needed {
                        (CallPhase::Spawn(mtime), reap)
                    } else {
                        (CallPhase::Ask, reap)
                    }
                }
            },
            (CallPhase::Spawn(mtime), CallEvent::Spawned(started)) => match started {
                Some(daemon) => {
                    fill_slot(slot, daemon, mtime);
                    (CallPhase::Ask, None)
                },
                None => (CallPhase::Done(None), None),
            },
            (CallPhase::Ask, CallEvent::Answered(reply)) => {
                settle_slot(slot);
                (CallPhase::Done(reply), None)
            },
            (phase, _) => (phase, None),
        }
    }
}

/// A shell that read the start-up file as it is serves on: it is neither ended
/// nor replaced.
pub proof fn law_running_shell_is_reused(slot: Option<DaemonSlot>, mtime: Option<i128>)
    requires
        slot.is_some(),
        !outdated(slot, mtime),
    ensures
        next_call(CallPhaseView::HoldSlot(mtime), slot, CallEvent::Held(true)) == (
            CallPhaseView::Ask,
            slot,
            None::<daemon::ReapView>,
        ),
{
}

/// A shell that read an older start-up file is ended before another is started,
/// in the same request.
pub proof fn law_outdated_shell_is_replaced(slot: Option<DaemonSlot>, mtime: Option<i128>)
    requires
        outdated(slot, mtime),
    ensures
        ({
            let (phase, after, reap) = next_call(
                CallPhaseView::HoldSlot(mtime),
                slot,
                CallEvent::Held(true),
            );
            &&& phase == CallPhaseView::Spawn(mtime)
            &&& after.is_none()
            &&& reap == slot_reap(slot, false, budget::millis(daemon::REAP_DEADLINE_MS))
        }),
{
}

/// A shell that is in the slot behind a request serves the next one. One that
/// stopped serving is gone, and the next request starts another.
pub proof fn law_slot_holds_no_dead_shell(slot: Option<DaemonSlot>, reply: Option<String>)
    ensures
        next_call(CallPhaseView::Ask, slot, CallEvent::Answered(reply)).1 matches Some(s)
            ==> s.daemon@.alive,
{
}

/// The work that is due while a shell is started ahead of the first request.
#[derive(Debug, Clone, Copy, PartialEq, Eq, Structural)]
pub enum PrewarmPhase {
    /// See whether the latch is open.
    GateAtStart,
    /// Find zsh.
    FindZsh,
    /// See whether a shell is wanted.
    ReadSettings,
    /// Make the bridge directory ready.
    PrepareBridge,
    /// Remove scripts that are left over.
    CleanScripts,
    /// Remove temporary files of the completion cache.
    CleanDumps,
    /// Start the shell.
    Spawn,
    /// See whether the latch is still open.
    GateAfterSpawn,
    /// Take hold of the slot.
    LockSlot,
    /// See whether the latch is still open, holding the slot.
    GateUnderLock,
    /// See whether the slot is empty, holding it.
    SlotEmpty,
    /// Put the shell into the slot.
    Insert,
    /// The shell is in the slot.
    Inserted,
    /// Let go of the slot, end the shell and wait for its end.
    Discard,
    /// Nothing was started.
    Stopped,
}

/// Where the start ahead goes from `phase`, where the answer was the one that
/// it needs (`ok`) or not. A shell that was started is never just dropped. What
/// the clean-ups come to does not matter.
pub open spec fn next_prewarm(phase: PrewarmPhase, ok: bool) -> PrewarmPhase {
    match phase {
        PrewarmPhase::CleanScripts => PrewarmPhase::CleanDumps,
        PrewarmPhase::CleanDumps => PrewarmPhase::Spawn,
        PrewarmPhase::Inserted | PrewarmPhase::Discard | PrewarmPhase::Stopped => phase,
        PrewarmPhase::GateAtStart => if ok {
            PrewarmPhase::FindZsh
        } else {
            PrewarmPhase::Stopped
        },
        PrewarmPhase::FindZsh => if ok {
            PrewarmPhase::ReadSettings
        } else {
            PrewarmPhase::Stopped
        },
        PrewarmPhase::ReadSettings => if ok {
            PrewarmPhase::PrepareBridge
        } else {
            PrewarmPhase::Stopped
        },
        PrewarmPhase::PrepareBridge => if ok {
            PrewarmPhase::CleanScripts
        } else {
            PrewarmPhase::Stopped
        },
        PrewarmPhase::Spawn => if ok {
            PrewarmPhase::GateAfterSpawn
        } else {
            PrewarmPhase::Stopped
        },
        PrewarmPhase::GateAfterSpawn => if ok {
            PrewarmPhase::LockSlot
        } else {
            PrewarmPhase::Discard
        },
        PrewarmPhase::LockSlot => if ok {
            PrewarmPhase::GateUnderLock
        } else {
            PrewarmPhase::Discard
        },
        PrewarmPhase::GateUnderLock => if ok {
            PrewarmPhase::SlotEmpty
        } else {
            PrewarmPhase::Discard
        },
        PrewarmPhase::SlotEmpty => if ok {
            PrewarmPhase::Insert
        } else {
            PrewarmPhase::Discard
        },
        PrewarmPhase::Insert => PrewarmPhase::Inserted,
    }
}

/// Begins to start a shell ahead of the first request.
pub fn prewarm_zsh_daemon() -> (r: PrewarmPhase)
    ensures
        r == PrewarmPhase::GateAtStart,
{
    PrewarmPhase::GateAtStart
}

/// Tells whether a shell is wanted by settings that could be read.
pub fn prewarm_wanted(settings: Option<&ExternalCompletionSettings>) -> (b: bool)
    ensures
        b == (settings matches Some(s) && s.zsh_daemon_enabled && s.admits(ExternalKind::Zsh)),
{
    match settings {
        Some(s) => s.should_run_zsh_daemon(),
        None => false,
    }
}

/// The time that a shell gets to start ahead of the first request.
pub fn prewarm_timeout() -> (r: Timeout)
    ensures
        r.nanos == budget::millis(MIN_TIMEOUT_MS),
        r.nanos == 2_000_000_000,
{
    Timeout::from_millis(MIN_TIMEOUT_MS)
}

impl PrewarmPhase {
    /// Takes the answer of this phase.
    pub fn advance(self, ok: bool) -> (r: PrewarmPhase)
        ensures
            r == next_prewarm(self, ok),
    {
        match self {
            PrewarmPhase::CleanScripts => PrewarmPhase::CleanDumps,
            PrewarmPhase::CleanDumps => PrewarmPhase::Spawn,
            PrewarmPhase::Insert => PrewarmPhase::Inserted,
            PrewarmPhase::Inserted => PrewarmPhase::Inserted,
            PrewarmPhase::Discard => PrewarmPhase::Discard,
            PrewarmPhase::Stopped => PrewarmPhase::Stopped,
            _ => {
                if ok {
                    match self {
                        PrewarmPhase::GateAtStart => PrewarmPhase::FindZsh,
                        PrewarmPhase::FindZsh => PrewarmPhase::ReadSettings,
                        PrewarmPhase::ReadSettings => PrewarmPhase::PrepareBridge,
                        PrewarmPhase::PrepareBridge => PrewarmPhase::CleanScripts,
                        PrewarmPhase::Spawn => PrewarmPhase::GateAfterSpawn,
                        PrewarmPhase::GateAfterSpawn => PrewarmPhase::LockSlot,
                        PrewarmPhase::LockSlot => PrewarmPhase::GateUnderLock,
                        PrewarmPhase::GateUnderLock => PrewarmPhase::SlotEmpty,
                        _ => PrewarmPhase::Insert,
                    }
                } else {
                    match self {
                        PrewarmPhase::GateAfterSpawn => PrewarmPhase::Discard,
                        PrewarmPhase::LockSlot => PrewarmPhase::Discard,
                        PrewarmPhase::GateUnderLock => PrewarmPhase::Discard,
                        PrewarmPhase::SlotEmpty => PrewarmPhase::Discard,
                        _ => PrewarmPhase::Stopped,
                    }
                }
            },
        }
    }
}

/// Decides, holding the slot, what becomes of a shell that was started ahead:
/// it goes into the slot where the latch is open and the slot is empty. Any
/// other shell is handed back, to be discarded.
pub fn prewarm_settle(
    slot: &mut Option<DaemonSlot>,
    gate: &DaemonGate,
    daemon: ZshDaemon,
    current: Option<i128>,
) -> (discard: Option<ZshDaemon>)
    requires
        slot_wf(*old(slot)),
        daemon.wf(),
    ensures
        slot_wf(*final(slot)),
        !gate.shut() && old(slot).is_none() ==> discard.is_none() && *final(slot) == Some(
            DaemonSlot { daemon, zshrc_mtime_at_spawn: current },
        ),
        gate.shut() || old(slot).is_some() ==> discard == Some(daemon) && *final(slot) == *old(
            slot,
        ),
{
    if gate.is_closed() {
        return Some(daemon);
    }
    if slot.is_some() {
        return Some(daemon);
    }
    fill_slot(slot, daemon, current);
    None
}

/// Ends a shell that was started ahead and is not needed; the caller waits for
/// its end.
pub fn discard_daemon(daemon: &mut ZshDaemon) -> (reap: Option<Reap>)
    requires
        old(daemon).wf(),
    ensures
        final(daemon).wf(),
        final(daemon)@ == daemon::dead(old(daemon)@),
        daemon::optional_reap(reap) == daemon::death_reap(
            old(daemon)@,
            true,
            budget::millis(DISCARD_DEADLINE_MS),
        ),
        daemon::optional_reap(reap) matches Some(how) ==> how.blocking && how.deadline
            == 1_000_000_000,
{
    daemon.shutdown_blocking(Timeout::from_millis(DISCARD_DEADLINE_MS))
}

/// The work that is due while a session ends.
#[derive(Debug, Clone, Copy, PartialEq, Eq, Structural)]
pub enum ShutdownPhase {
    /// Close the latch.
    CloseGate,
    /// Take hold of the slot.
    LockSlot,
    /// Empty the slot and end the shell in it.
    EmptySlot,
    /// Nothing is left to do.
    Finished,
}

/// Where the end of a session goes from `phase`. Only a slot that cannot be
/// taken hold of is left as it is.
pub open spec fn next_shutdown(phase: ShutdownPhase, ok: bool) -> ShutdownPhase {
    match phase {
        ShutdownPhase::CloseGate => ShutdownPhase::LockSlot,
        ShutdownPhase::LockSlot => if ok {
            ShutdownPhase::EmptySlot
        } else {
            ShutdownPhase::Finished
        },
        ShutdownPhase::EmptySlot => ShutdownPhase::Finished,
        ShutdownPhase::Finished => phase,
    }
}

impl ShutdownPhase {
    /// The first phase: the latch is closed first where there is one to close.
    pub fn first(with_gate: bool) -> (r: ShutdownPhase)
        ensures
            r == if with_gate {
                ShutdownPhase::CloseGate
            } else {
                ShutdownPhase::LockSlot
            },
    {
        if with_gate {
            ShutdownPhase::CloseGate
        } else {
            ShutdownPhase::LockSlot
        }
    }

    /// Takes whether the work of this phase succeeded.
    pub fn advance(self, ok: bool) -> (r: ShutdownPhase)
        ensures
            r == next_shutdown(self, ok),
    {
        match self {
            ShutdownPhase::CloseGate => ShutdownPhase::LockSlot,
            ShutdownPhase::LockSlot => if ok {
                ShutdownPhase::EmptySlot
            } else {
                ShutdownPhase::Finished
            },
            ShutdownPhase::EmptySlot => ShutdownPhase::Finished,
            ShutdownPhase::Finished => ShutdownPhase::Finished,
        }
    }
}

/// Where the start ahead goes when the answers are these, one after the other.
pub open spec fn run_prewarm(phase: PrewarmPhase, answers: Seq<bool>) -> PrewarmPhase
    decreases answers.len(),
{
    if answers.len() == 0 {
        phase
    } else {
        next_prewarm(run_prewarm(phase, answers.drop_last()), answers.last())
    }
}

/// Once a shell has been started, it ends up in the slot or is discarded: the
/// start ahead never stops without an account of it.
pub proof fn law_started_shell_is_accounted_for(answers: Seq<bool>)
    ensures
        !(run_prewarm(PrewarmPhase::GateAfterSpawn, answers) is Stopped),
        answers.len() >= 5 ==> run_prewarm(PrewarmPhase::GateAfterSpawn, answers) is Inserted
            || run_prewarm(PrewarmPhase::GateAfterSpawn, answers) is Discard,
    decreases answers.len(),
{
    lemma_prewarm_rank(answers);
}

/// How far the start ahead has come once the shell runs.
spec fn prewarm_rank(phase: PrewarmPhase) -> nat {
    match phase {
        PrewarmPhase::GateAfterSpawn => 0,
        PrewarmPhase::LockSlot => 1,
        PrewarmPhase::GateUnderLock => 2,
        PrewarmPhase::SlotEmpty => 3,
        PrewarmPhase::Insert => 4,
        _ => 5,
    }
}

proof fn lemma_prewarm_rank(answers: Seq<bool>)
    ensures
        ({
            let phase = run_prewarm(PrewarmPhase::GateAfterSpawn, answers);
            &&& phase is GateAfterSpawn || phase is LockSlot || phase is GateUnderLock
                || phase is SlotEmpty || phase is Insert || phase is Inserted || phase is Discard
            &&& answers.len() >= 5 ==> prewarm_rank(phase) == 5
            &&& answers.len() < 5 ==> prewarm_rank(phase) >= answers.len()
        }),
    decreases answers.len(),
{
    if answers.len() > 0 {
        lemma_prewarm_rank(answers.drop_last());
    }
}

/// A start-up file whose time is not known, when the shell was started or now,
/// never makes a shell outdated.
pub proof fn law_unknown_time_keeps_the_shell(slot: Option<DaemonSlot>, current: Option<i128>)
    requires
        current.is_none() || (slot matches Some(s) ==> s.zshrc_mtime_at_spawn.is_none()),
    ensures
        !outdated(slot, current),
{
}

/// Who holds the slot.
pub enum Holder {
    Nobody,
    Starter,
    Ender,
}

/// A session with one thread that starts a shell ahead and one that ends the
/// session, each between two of its steps.
pub struct Session {
    /// Whether the latch is closed.
    pub closed: bool,
    /// Whether there is a shell in the slot.
    pub filled: bool,
    pub holder: Holder,
    pub starter: PrewarmPhase,
    pub ender: ShutdownPhase,
}

/// A step of the thread that starts a shell ahead, once the shell runs. It can
/// do nothing while the other holds a slot that it needs.
pub open spec fn starter_step(s: Session) -> Session {
    match s.starter {
        PrewarmPhase::GateAfterSpawn => Session {
            starter: next_prewarm(s.starter, !s.closed),
            ..s
        },
        PrewarmPhase::LockSlot => if s.holder is Nobody {
            Session { starter: next_prewarm(s.starter, true), holder: Holder::Starter, ..s }
        } else {
            s
        },
        PrewarmPhase::GateUnderLock => Session {
            starter: next_prewarm(s.starter, !s.closed),
            holder: if s.closed {
                Holder::Nobody
            } else {
                s.holder
            },
            ..s
        },
        PrewarmPhase::SlotEmpty => Session {
            starter: next_prewarm(s.starter, !s.filled),
            holder: if s.filled {
                Holder::Nobody
            } else {
                s.holder
            },
            ..s
        },
        PrewarmPhase::Insert => Session {
            starter: next_prewarm(s.starter, true),
            filled: true,
            holder: Holder::Nobody,
            ..s
        },
        _ => s,
    }
}

/// A step of the thread that ends the session.
pub open spec fn ender_step(s: Session) -> Session {
    match s.ender {
        ShutdownPhase::CloseGate => Session {
            ender: next_shutdown(s.ender, true),
            closed: true,
            ..s
        },
        ShutdownPhase::LockSlot => if s.holder is Nobody {
            Session { ender: next_shutdown(s.ender, true), holder: Holder::Ender, ..s }
        } else {
            s
        },
        ShutdownPhase::EmptySlot => Session {
            ender: next_shutdown(s.ender, true),
            filled: false,
            holder: Holder::Nobody,
            ..s
        },
        ShutdownPhase::Finished => s,
    }
}

/// The session behind these steps; each names whose turn it is.
pub open spec fn interleaved(s: Session, starters_turn: Seq<bool>) -> Session
    decreases starters_turn.len(),
{
    if starters_turn.len() == 0 {
        s
    } else {
        let before = interleaved(s, starters_turn.drop_last());
        if starters_turn.last() {
            starter_step(before)
        } else {
            ender_step(before)
        }
    }
}

/// What holds between any two steps.
spec fn session_inv(s: Session) -> bool {
    &&& !(s.ender is CloseGate) ==> s.closed
    &&& s.ender is EmptySlot <==> s.holder is Ender
    &&& s.holder is Starter <==> (s.starter is GateUnderLock || s.starter is SlotEmpty || s.starter
        is Insert)
    &&& s.ender is Finished ==> !s.filled && !(s.starter is SlotEmpty) && !(s.starter is Insert)
}

/// However the steps of the two threads fall, once the session has ended there
/// is no shell in the slot and none will come into it: a shell that was started
/// too late is discarded.
pub proof fn law_no_shell_outlives_the_session(s: Session, starters_turn: Seq<bool>, i: int)
    requires
        s.holder is Nobody,
        s.starter is GateAfterSpawn,
        s.ender is CloseGate,
        0 <= i <= starters_turn.len(),
        interleaved(s, starters_turn.take(i)).ender is Finished,
    ensures
        !interleaved(s, starters_turn).filled,
        interleaved(s, starters_turn).ender is Finished,
        interleaved(s, starters_turn).starter is Inserted ==> interleaved(
            s,
            starters_turn.take(i),
        ).starter is Inserted,
    decreases starters_turn.len() - i,
{
    lemma_session_inv(s, starters_turn.take(i));
    if i < starters_turn.len() {
        assert(starters_turn.take(i + 1).drop_last() =~= starters_turn.take(i));
        law_no_shell_outlives_the_session(s, starters_turn, i + 1);
    } else {
        assert(starters_turn.take(i) =~= starters_turn);
    }
}

proof fn lemma_session_inv(s: Session, starters_turn: Seq<bool>)
    requires
        s.holder is Nobody,
        s.starter is GateAfterSpawn,
        s.ender is CloseGate,
    ensures
        session_inv(interleaved(s, starters_turn)),
    decreases starters_turn.len(),
{
    if starters_turn.len() > 0 {
        lemma_session_inv(s, starters_turn.drop_last());
    }
}

/// A shell that stands in the slot is never replaced by the one that was
/// started ahead: where the slot was filled in the meantime, the other is
/// discarded.
pub proof fn law_slot_holds_one_shell(s: Session)
    requires
        s.starter is SlotEmpty,
        s.filled,
    ensures
        starter_step(s).starter is Discard,
        starter_step(s).filled,
{
}

/// A start-up file has changed exactly where both times are known and differ,
/// whichever of them is the later.
pub proof fn law_known_times_that_differ_are_a_change(a: i128, b: i128)
    ensures
        changed_since(Some(a), Some(b)) <==> a != b,
        !changed_since(None, Some(b)),
        !changed_since(Some(a), None),
        !changed_since(None, None),
{
}

/// What becomes of the shell in the slot when a request takes hold of it. One
/// that read the file at another time is put away in the background, with a
/// second to end, and another is started; any other is asked. An empty slot is
/// filled, and a slot that cannot be held is left alone.
pub proof fn law_slot_is_made_ready(s: DaemonSlot, mtime: Option<i128>, script: Seq<char>)
    requires
        s.daemon@.alive,
        s.daemon@.init_script == Some(script),
    ensures
        ({
            let changed = s.zshrc_mtime_at_spawn matches Some(a) && mtime matches Some(b) && a != b;
            let held = CallEvent::Held(true);
            &&& changed ==> next_call(CallPhaseView::HoldSlot(mtime), Some(s), held) == (
                CallPhaseView::Spawn(mtime),
                None::<DaemonSlot>,
                Some(
                    daemon::ReapView {
                        init_script: script,
                        blocking: false,
                        deadline: 1_000_000_000,
                    },
                ),
            )
            &&& !changed ==> next_call(CallPhaseView::HoldSlot(mtime), Some(s), held) == (
                CallPhaseView::Ask,
                Some(s),
                None::<daemon::ReapView>,
            )
            &&& next_call(CallPhaseView::HoldSlot(mtime), None, held) == (
                CallPhaseView::Spawn(mtime),
                None::<DaemonSlot>,
                None::<daemon::ReapView>,
            )
            &&& next_call(CallPhaseView::HoldSlot(mtime), Some(s), CallEvent::Held(false)) == (
                CallPhaseView::Done(None),
                Some(s),
                None::<daemon::ReapView>,
            )
        }),
{
}

/// A shell that was started for a request is put into the slot with the time of
/// its start-up file and is asked. Where none could be started, the request has
/// no reply and the slot stays as it was.
pub proof fn law_started_shell_is_asked(
    slot: Option<DaemonSlot>,
    mtime: Option<i128>,
    shell: ZshDaemon,
)
    ensures
        next_call(CallPhaseView::ReadMtime, slot, CallEvent::Mtime(mtime)) == (
            CallPhaseView::HoldSlot(mtime),
            slot,
            None::<daemon::ReapView>,
        ),
        next_call(CallPhaseView::Spawn(mtime), slot, CallEvent::Spawned(Some(shell))) == (
            CallPhaseView::Ask,
            Some(DaemonSlot { daemon: shell, zshrc_mtime_at_spawn: mtime }),
            None::<daemon::ReapView>,
        ),
        next_call(CallPhaseView::Spawn(mtime), slot, CallEvent::Spawned(None)) == (
            CallPhaseView::Done(None),
            slot,
            None::<daemon::ReapView>,
        ),
{
}

/// The reply of a request is what the shell printed. A shell that still serves
/// stays in the slot, and one that stopped serving leaves it.
pub proof fn law_serving_shell_stays_in_the_slot(s: DaemonSlot, reply: String)
    ensures
        next_call(CallPhaseView::Ask, Some(s), CallEvent::Answered(Some(reply))) == (
            CallPhaseView::Done(Some(reply@)),
            if s.daemon@.alive {
                Some(s)
            } else {
                None
            },
            None::<daemon::ReapView>,
        ),
        next_call(CallPhaseView::Ask, Some(s), CallEvent::Answered(None)).0 == CallPhaseView::Done(
            None,
        ),
        next_call(CallPhaseView::Ask, Some(s), CallEvent::Answered(None)).1 == if s.daemon@.alive {
            Some(s)
        } else {
            None
        },
{
}

/// Emptying a slot reaps the shell in it, in the way and time that was asked
/// for, and nothing where there is none.
pub proof fn law_emptied_slot_is_reaped(
    s: DaemonSlot,
    script: Seq<char>,
    blocking: bool,
    deadline: int,
)
    requires
        s.daemon@.alive,
        s.daemon@.init_script == Some(script),
    ensures
        slot_reap(Some(s), blocking, deadline) == Some(
            daemon::ReapView { init_script: script, blocking, deadline },
        ),
        slot_reap(None, blocking, deadline).is_none(),
{
}

/// The start ahead takes its steps in this order where every answer is the one
/// that it needs: it looks at the latch before, behind and, holding the slot,
/// once more behind the start.
pub proof fn law_start_ahead_takes_its_order()
    ensures
        next_prewarm(PrewarmPhase::GateAtStart, true) == PrewarmPhase::FindZsh,
        next_prewarm(PrewarmPhase::FindZsh, true) == PrewarmPhase::ReadSettings,
        next_prewarm(PrewarmPhase::ReadSettings, true) == PrewarmPhase::PrepareBridge,
        next_prewarm(PrewarmPhase::PrepareBridge, true) == PrewarmPhase::CleanScripts,
        next_prewarm(PrewarmPhase::CleanScripts, true) == PrewarmPhase::CleanDumps,
        next_prewarm(PrewarmPhase::CleanDumps, true) == PrewarmPhase::Spawn,
        next_prewarm(PrewarmPhase::Spawn, true) == PrewarmPhase::GateAfterSpawn,
        next_prewarm(PrewarmPhase::GateAfterSpawn, true) == PrewarmPhase::LockSlot,
        next_prewarm(PrewarmPhase::LockSlot, true) == PrewarmPhase::GateUnderLock,
        next_prewarm(PrewarmPhase::GateUnderLock, true) == PrewarmPhase::SlotEmpty,
        next_prewarm(PrewarmPhase::SlotEmpty, true) == PrewarmPhase::Insert,
        next_prewarm(PrewarmPhase::Insert, true) == PrewarmPhase::Inserted,
{
}

/// Where an answer is another, the start ahead stops before there is a shell,
/// and discards the shell from then on. A clean-up that removed nothing holds
/// nothing up.
pub proof fn law_start_ahead_gives_up()
    ensures
        next_prewarm(PrewarmPhase::GateAtStart, false) == PrewarmPhase::Stopped,
        next_prewarm(PrewarmPhase::FindZsh, false) == PrewarmPhase::Stopped,
        next_prewarm(PrewarmPhase::ReadSettings, false) == PrewarmPhase::Stopped,
        next_prewarm(PrewarmPhase::PrepareBridge, false) == PrewarmPhase::Stopped,
        next_prewarm(PrewarmPhase::CleanScripts, false) == PrewarmPhase::CleanDumps,
        next_prewarm(PrewarmPhase::CleanDumps, false) == PrewarmPhase::Spawn,
        next_prewarm(PrewarmPhase::Spawn, false) == PrewarmPhase::Stopped,
        next_prewarm(PrewarmPhase::GateAfterSpawn, false) == PrewarmPhase::Discard,
        next_prewarm(PrewarmPhase::LockSlot, false) == PrewarmPhase::Discard,
        next_prewarm(PrewarmPhase::GateUnderLock, false) == PrewarmPhase::Discard,
        next_prewarm(PrewarmPhase::SlotEmpty, false) == PrewarmPhase::Discard,
{
}

/// The latch is closed before the slot is emptied, and only a slot that cannot
/// be held is left as it is.
pub proof fn law_latch_is_closed_before_the_slot_is_emptied(ok: bool)
    ensures
        next_shutdown(ShutdownPhase::CloseGate, ok) == ShutdownPhase::LockSlot,
        next_shutdown(ShutdownPhase::LockSlot, true) == ShutdownPhase::EmptySlot,
        next_shutdown(ShutdownPhase::LockSlot, false) == ShutdownPhase::Finished,
        next_shutdown(ShutdownPhase::EmptySlot, ok) == ShutdownPhase::Finished,
{
}

/// Whether `event` is what came of the work of `phase`.
pub open spec fn awaits(phase: CallPhaseView, event: CallEvent) -> bool {
    match phase {
        CallPhaseView::ReadMtime => event is Mtime,
        CallPhaseView::HoldSlot(_) => event is Held,
        CallPhaseView::Spawn(_) => event is Spawned,
        CallPhaseView::Ask => event is Answered,
        CallPhaseView::Done(_) => false,
    }
}

/// A request first reads the time of the start-up file, then takes hold of the
/// slot. What did not come of the work that is due changes nothing, and once the
/// request is done nothing does.
pub proof fn law_request_waits_for_its_work(
    phase: CallPhaseView,
    slot: Option<DaemonSlot>,
    event: CallEvent,
    mtime: Option<i128>,
)
    ensures
        next_call(CallPhaseView::ReadMtime, slot, CallEvent::Mtime(mtime)) == (
            CallPhaseView::HoldSlot(mtime),
            slot,
            None::<daemon::ReapView>,
        ),
        !awaits(phase, event) ==> next_call(phase, slot, event) == (
            phase,
            slot,
            None::<daemon::ReapView>,
        ),
{
}

/// A start ahead and the end of a session go no further once they are over.
pub proof fn law_what_is_over_stays_over(ok: bool)
    ensures
        next_prewarm(PrewarmPhase::Inserted, ok) == PrewarmPhase::Inserted,
        next_prewarm(PrewarmPhase::Discard, ok) == PrewarmPhase::Discard,
        next_prewarm(PrewarmPhase::Stopped, ok) == PrewarmPhase::Stopped,
        next_shutdown(ShutdownPhase::Finished, ok) == ShutdownPhase::Finished,
{
}

} // verus!
