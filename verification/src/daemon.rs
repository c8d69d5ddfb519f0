//! The completion shell that is kept running.
//!
//! One `zsh -i` serves every request of a session. `ZshDaemon` is what is known
//! of it: whether it still serves, what has been read of its next frame, how
//! many requests in a row it has failed to answer in time, and in which
//! directory it is. The reads and writes themselves are done elsewhere: each
//! [`Phase`] of a request names the work that is due, and `advance` takes what
//! came of it.
//!
//! A request that runs out of time does not end the shell: its frame may still
//! come, and the next request first waits for that frame and drops it. Two such
//! requests in a row do end it. So do too many bytes without a frame, a failed
//! write, and the end of the process.

use vstd::prelude::*;

use crate::budget;
use crate::budget::Timeout;
use crate::escape;
use crate::escape::single_quote;
use crate::framing;
use crate::framing::{echo_wait, read_wait, FramedRead, PartialRead, ReadEvent};
use crate::text;

verus! {

/// How many requests in a row may run out of time before the shell counts as
/// hung.
pub const MAX_CONSECUTIVE_TIMEOUTS: u8 = 2;

/// How long the shell's redrawing is awaited and dropped behind a change of
/// directory, in milliseconds.
pub const CWD_SYNC_DRAIN_MS: u64 = 120;

/// How long a shell that is put away in the background may take to end, in
/// milliseconds.
pub const REAP_DEADLINE_MS: u64 = 1000;

/// How long to wait between two looks at a process that is to end, in
/// milliseconds.
pub const REAP_POLL_MS: u64 = 25;

/// A shell that is to be killed and waited for, and whose initialisation script
/// is to be removed then.
#[derive(Debug, Clone, PartialEq, Eq)]
pub struct Reap {
    /// The script to remove.
    pub init_script: String,
    /// Whether the caller waits for the end, in place of a thread.
    pub blocking: bool,
    /// How long to wait for the end.
    pub deadline: Timeout,
}

/// `Reap`, as mathematical values.
pub struct ReapView {
    pub init_script: Seq<char>,
    pub blocking: bool,
    pub deadline: int,
}

impl View for Reap {
    type V = ReapView;

    open spec fn view(&self) -> ReapView {
        ReapView {
            init_script: self.init_script@,
            blocking: self.blocking,
            deadline: self.deadline.nanos as int,
        }
    }
}

/// The view of a reap that may not be due.
pub open spec fn optional_reap(reap: Option<Reap>) -> Option<ReapView> {
    match reap {
        Some(r) => Some(r@),
        None => None,
    }
}

/// A directory by its path.
#[derive(Debug, Clone, PartialEq, Eq)]
pub struct Directory {
    /// The bytes of the path.
    pub raw: Vec<u8>,
    /// The path as text, as it is sent to a shell.
    pub shown: String,
}

/// `Directory`, as mathematical values.
pub struct DirectoryView {
    pub raw: Seq<u8>,
    pub shown: Seq<char>,
}

impl View for Directory {
    type V = DirectoryView;

    open spec fn view(&self) -> DirectoryView {
        DirectoryView { raw: self.raw@, shown: self.shown@ }
    }
}

/// The view of a directory that may not be known.
pub open spec fn optional_directory(dir: Option<Directory>) -> Option<DirectoryView> {
    match dir {
        Some(d) => Some(d@),
        None => None,
    }
}

/// The byte between two names of a path.
pub const SEPARATOR: u8 = 0x2f;

/// The byte of the name that stands for the directory itself.
pub const DOT: u8 = 0x2e;

/// The component that a name of a path is. An empty name is none, and neither is
/// `.` unless the path begins with it.
pub open spec fn component(name: Seq<u8>, begins: bool) -> Seq<Seq<u8>> {
    if name.len() == 0 || (name == seq![DOT] && !begins) {
        seq![]
    } else {
        seq![name]
    }
}

/// The components of the names in `rest`, the first of which begins with
/// `begun`. It begins the path where `begins` holds.
pub open spec fn components_from(begun: Seq<u8>, rest: Seq<u8>, begins: bool) -> Seq<Seq<u8>>
    decreases rest.len(),
{
    if rest.len() == 0 {
        component(begun, begins)
    } else if rest[0] == SEPARATOR {
        component(begun, begins) + components_from(seq![], rest.skip(1), false)
    } else {
        components_from(begun.push(rest[0]), rest.skip(1), begins)
    }
}

/// The components of a path: the root, where the path begins there, and its
/// names. How often a separator stands between two names, whether one stands
/// behind the last, and a `.` that the path does not begin with make no
/// difference.
pub open spec fn components(path: Seq<u8>) -> Seq<Seq<u8>> {
    (if path.len() > 0 && path[0] == SEPARATOR {
        seq![seq![SEPARATOR]]
    } else {
        seq![]
    }) + components_from(seq![], path, true)
}

/// The views of a sequence of components.
pub open spec fn component_views(parts: Seq<Vec<u8>>) -> Seq<Seq<u8>> {
    Seq::new(parts.len(), |i: int| parts[i]@)
}

/// Whether a directory that may not be known is `dir`: their paths have the same
/// components.
pub open spec fn is_there(known: Option<DirectoryView>, dir: DirectoryView) -> bool {
    known matches Some(k) && components(k.raw) == components(dir.raw)
}

/// Puts the component that a name is, if it is one, behind the others.
fn push_component(parts: &mut Vec<Vec<u8>>, name: Vec<u8>, begins: bool)
    ensures
        component_views(final(parts)@) == component_views(old(parts)@) + component(name@, begins),
{
    let ghost before = parts@;
    let ghost bytes = name@;
    let dot: bool = name.len() == 1 && name[0] == DOT;
    assert(dot == (bytes == seq![DOT])) by {
        if dot {
            assert(bytes =~= seq![DOT]);
        }
    }
    if name.len() > 0 && !(dot && !begins) {
        parts.push(name);
        assert(component_views(parts@) =~= component_views(before) + seq![bytes]);
    } else {
        assert(component_views(parts@) =~= component_views(before) + seq![]);
    }
}

/// Cuts a path into its components.
fn path_components(path: &Vec<u8>) -> (parts: Vec<Vec<u8>>)
    ensures
        component_views(parts@) == components(path@),
{
    let mut parts: Vec<Vec<u8>> = Vec::new();
    let ghost none = component_views(parts@);
    if path.len() > 0 && path[0] == SEPARATOR {
        let mut root: Vec<u8> = Vec::new();
        root.push(SEPARATOR);
        assert(root@ =~= seq![SEPARATOR]);
        parts.push(root);
        assert(component_views(parts@) =~= seq![seq![SEPARATOR]]);
    } else {
        assert(none =~= seq![]);
    }
    let mut name: Vec<u8> = Vec::new();
    let mut begins: bool = true;
    let mut i: usize = 0;
    assert(path@.skip(0) =~= path@);
    assert(name@ =~= seq![]);
    while i < path.len()
        invariant
            i <= path@.len(),
            component_views(parts@) + components_from(name@, path@.skip(i as int), begins)
                == components(path@),
        decreases path@.len() - i,
    {
        let ghost rest = path@.skip(i as int);
        let ghost done = component_views(parts@);
        assert(rest.skip(1) =~= path@.skip(i + 1));
        if path[i] == SEPARATOR {
            let ghost ended = component(name@, begins);
            push_component(&mut parts, name, begins);
            name = Vec::new();
            begins = false;
            assert(name@ =~= seq![]);
            assert(done + (ended + components_from(seq![], rest.skip(1), false)) =~= done + ended
                + components_from(seq![], rest.skip(1), false));
        } else {
            name.push(path[i]);
        }
        i += 1;
    }
    assert(path@.skip(i as int) =~= seq![]);
    push_component(&mut parts, name, begins);
    parts
}

/// Tells whether two sequences of bytes are the same.
fn same_bytes(a: &Vec<u8>, b: &Vec<u8>) -> (same: bool)
    ensures
        same == (a@ == b@),
{
    if a.len() != b.len() {
        return false;
    }
    let mut i: usize = 0;
    while i < a.len()
        invariant
            i <= a@.len(),
            a@.len() == b@.len(),
            forall|j: int| 0 <= j < i ==> a@[j] == b@[j],
        decreases a@.len() - i,
    {
        if a[i] != b[i] {
            return false;
        }
        i += 1;
    }
    assert(a@ =~= b@);
    true
}

impl Directory {
    /// Tells whether two directories are the same: their paths have the same
    /// components.
    pub fn same_as(&self, other: &Directory) -> (b: bool)
        ensures
            b == (components(self@.raw) == components(other@.raw)),
    {
        let ours: Vec<Vec<u8>> = path_components(&self.raw);
        let theirs: Vec<Vec<u8>> = path_components(&other.raw);
        let ghost mine = component_views(ours@);
        let ghost yours = component_views(theirs@);
        if ours.len() != theirs.len() {
            assert(mine.len() != yours.len());
            return false;
        }
        let mut i: usize = 0;
        while i < ours.len()
            invariant
                i <= ours@.len(),
                ours@.len() == theirs@.len(),
                mine == component_views(ours@),
                yours == component_views(theirs@),
                mine == components(self@.raw),
                yours == components(other@.raw),
                forall|j: int| 0 <= j < i ==> #[trigger] mine[j] == yours[j],
            decreases ours@.len() - i,
        {
            if !same_bytes(&ours[i], &theirs[i]) {
                assert(mine[i as int] != yours[i as int]);
                return false;
            }
            assert(mine[i as int] == yours[i as int]);
            i += 1;
        }
        assert(mine =~= yours);
        true
    }
}

/// What is known of a running shell.
#[derive(Debug, Clone)]
pub struct ZshDaemon {
    alive: bool,
    init_script: Option<String>,
    pending_frame: bool,
    partial_read: PartialRead,
    consecutive_timeouts: u8,
    cwd: Option<Directory>,
}

/// `ZshDaemon`, as mathematical values.
pub struct DaemonView {
    /// Whether it serves requests.
    pub alive: bool,
    /// The script to remove when it ends.
    pub init_script: Option<Seq<char>>,
    /// Whether the frame of an earlier request has yet to come.
    pub pending_frame: bool,
    /// What was read towards the next frame.
    pub partial: framing::PartialReadView,
    /// How many requests in a row have run out of time.
    pub timeouts: u8,
    /// The directory it is in, where that is known.
    pub cwd: Option<DirectoryView>,
}

impl View for ZshDaemon {
    type V = DaemonView;

    closed spec fn view(&self) -> DaemonView {
        DaemonView {
            alive: self.alive,
            init_script: text::optional_text(self.init_script),
            pending_frame: self.pending_frame,
            partial: self.partial_read@,
            timeouts: self.consecutive_timeouts,
            cwd: optional_directory(self.cwd),
        }
    }
}

/// A shell that has just become ready.
pub open spec fn fresh(init_script: Seq<char>, cwd: Option<DirectoryView>) -> DaemonView {
    DaemonView {
        alive: true,
        init_script: Some(init_script),
        pending_frame: false,
        partial: framing::reading(seq![]),
        timeouts: 0,
        cwd,
    }
}

/// The shell once it no longer serves.
pub open spec fn dead(d: DaemonView) -> DaemonView {
    if d.alive {
        DaemonView { alive: false, init_script: None, ..d }
    } else {
        d
    }
}

/// What is to be reaped when the shell stops serving: nothing where it had
/// stopped before.
pub open spec fn death_reap(d: DaemonView, blocking: bool, deadline: int) -> Option<ReapView> {
    if d.alive {
        match d.init_script {
            Some(init_script) => Some(ReapView { init_script, blocking, deadline }),
            None => None,
        }
    } else {
        None
    }
}

/// `death_reap` of a shell that is put away in the background.
pub open spec fn background_reap(d: DaemonView) -> Option<ReapView> {
    death_reap(d, false, budget::millis(REAP_DEADLINE_MS))
}

/// The number of requests in a row that have run out of time, with one more.
pub open spec fn one_more(timeouts: u8) -> u8 {
    if timeouts == u8::MAX {
        timeouts
    } else {
        (timeouts + 1) as u8
    }
}

/// The shell with one more request counted that it has failed to answer.
pub open spec fn counted_once_more(d: DaemonView) -> DaemonView {
    DaemonView { timeouts: one_more(d.timeouts), ..d }
}

/// The shell once a read has run out of time.
pub open spec fn timed_out(d: DaemonView) -> DaemonView {
    let counted = counted_once_more(d);
    if counted.timeouts >= MAX_CONSECUTIVE_TIMEOUTS {
        dead(counted)
    } else {
        DaemonView { pending_frame: true, ..counted }
    }
}

/// What is to be reaped once a read has run out of time.
pub open spec fn timeout_reap(d: DaemonView) -> Option<ReapView> {
    if one_more(d.timeouts) >= MAX_CONSECUTIVE_TIMEOUTS {
        background_reap(d)
    } else {
        None
    }
}

/// What a look at the shell's process tells.
#[derive(Debug, Clone, Copy, PartialEq, Eq, Structural)]
pub enum ChildStatus {
    /// It runs.
    Running,
    /// It has ended.
    Exited,
    /// The look itself failed.
    Unknown,
}

/// The work that is due in a request.
#[derive(Debug, Clone, PartialEq, Eq)]
pub enum Phase {
    /// Look whether the process still runs.
    PollChild,
    /// Read the frame of an earlier request, to drop it.
    Drain,
    /// Find out the directory to complete in.
    AskCwd,
    /// Send the shell to this directory.
    WriteCwd(Directory),
    /// Read what the shell redraws behind the change to this directory.
    DiscardEcho(Directory),
    /// Send the line.
    WriteLine,
    /// Read the frame of this request.
    Reply,
    /// Nothing is left to do; this is the reply, if there is one.
    Done(Option<String>),
}

/// `Phase`, as mathematical values.
pub enum PhaseView {
    PollChild,
    Drain,
    AskCwd,
    WriteCwd(DirectoryView),
    DiscardEcho(DirectoryView),
    WriteLine,
    Reply,
    Done(Option<Seq<char>>),
}

impl View for Phase {
    type V = PhaseView;

    open spec fn view(&self) -> PhaseView {
        match *self {
            Phase::PollChild => PhaseView::PollChild,
            Phase::Drain => PhaseView::Drain,
            Phase::AskCwd => PhaseView::AskCwd,
            Phase::WriteCwd(dir) => PhaseView::WriteCwd(dir@),
            Phase::DiscardEcho(dir) => PhaseView::DiscardEcho(dir@),
            Phase::WriteLine => PhaseView::WriteLine,
            Phase::Reply => PhaseView::Reply,
            Phase::Done(reply) => PhaseView::Done(text::optional_text(reply)),
        }
    }
}

/// What came of the work that was due.
#[derive(Debug, Clone, PartialEq, Eq)]
pub enum RequestEvent {
    /// The look at the process told this.
    Polled(ChildStatus),
    /// A turn of a read ended like this.
    Read(ReadEvent),
    /// This is the directory to complete in, where it can be found out.
    Cwd(Option<Directory>),
    /// The write succeeded, or it failed.
    Written(bool),
}

/// Where a request goes when the shell stops serving.
pub open spec fn after_death(d: DaemonView, phase: PhaseView) -> (
    DaemonView,
    PhaseView,
    Option<ReapView>,
) {
    (dead(d), phase, background_reap(d))
}

/// Where a request goes from a phase in which a frame is read: `ended` where it
/// came, the end of the request where it did not. A drain that fails counts,
/// whether the time ran out or too many bytes came.
pub open spec fn after_read(
    d: DaemonView,
    event: ReadEvent,
    here: PhaseView,
    ended: spec_fn(DaemonView, Seq<char>) -> (DaemonView, PhaseView),
) -> (DaemonView, PhaseView, Option<ReapView>) {
    let (held, end) = framing::read_on(d.partial.held, event);
    let read = DaemonView { partial: framing::reading(held), ..d };
    match end {
        None => (read, here, None),
        Some(framing::FramedReadView::Frame(frame)) => {
            let (d2, phase) = ended(DaemonView { timeouts: 0, ..read }, frame);
            (d2, phase, None)
        },
        Some(framing::FramedReadView::BufferOverflow) => after_death(
            if here is Drain {
                counted_once_more(read)
            } else {
                read
            },
            PhaseView::Done(None),
        ),
        Some(framing::FramedReadView::Timeout) => (
            timed_out(read),
            PhaseView::Done(None),
            timeout_reap(read),
        ),
    }
}

/// The first phase of a request. A shell that does not serve is asked nothing.
pub open spec fn first_phase(d: DaemonView) -> PhaseView {
    if d.alive {
        PhaseView::PollChild
    } else {
        PhaseView::Done(None)
    }
}

/// Where a request goes from `phase` when `event` came of its work: the shell,
/// the next phase, and what is to be reaped. An event that the phase does not
/// wait for changes nothing.
pub open spec fn next(d: DaemonView, phase: PhaseView, event: RequestEvent) -> (
    DaemonView,
    PhaseView,
    Option<ReapView>,
) {
    match (phase, event) {
        (PhaseView::PollChild, RequestEvent::Polled(status)) => if status == ChildStatus::Exited {
            after_death(d, PhaseView::Done(None))
        } else if d.pending_frame {
            (d, PhaseView::Drain, None)
        } else {
            (d, PhaseView::AskCwd, None)
        },
        (PhaseView::Drain, RequestEvent::Read(read)) => after_read(
            d,
            read,
            phase,
            |drained: DaemonView, frame: Seq<char>|
                (DaemonView { pending_frame: false, ..drained }, PhaseView::AskCwd),
        ),
        (PhaseView::AskCwd, RequestEvent::Cwd(current)) => match current {
            None => (d, PhaseView::WriteLine, None),
            Some(dir) => if is_there(d.cwd, dir@) {
                (d, PhaseView::WriteLine, None)
            } else {
                (d, PhaseView::WriteCwd(dir@), None)
            },
        },
        (PhaseView::WriteCwd(dir), RequestEvent::Written(ok)) => if ok {
            (d, PhaseView::DiscardEcho(dir), None)
        } else {
            after_death(d, PhaseView::WriteLine)
        },
        (PhaseView::DiscardEcho(dir), RequestEvent::Read(read)) => match read {
            ReadEvent::Chunk(chunk) if chunk@.len() > 0 => (d, phase, None),
            _ => (DaemonView { cwd: Some(dir), ..d }, PhaseView::WriteLine, None),
        },
        (PhaseView::WriteLine, RequestEvent::Written(ok)) => if ok {
            (d, PhaseView::Reply, None)
        } else {
            after_death(d, PhaseView::Done(None))
        },
        (PhaseView::Reply, RequestEvent::Read(read)) => after_read(
            d,
            read,
            phase,
            |answered: DaemonView, frame: Seq<char>| (answered, PhaseView::Done(Some(frame))),
        ),
        _ => (d, phase, None),
    }
}

/// The bytes that a phase has to write: the line, behind a control character
/// that clears what is left in the shell's buffer, and the key that completes
/// it; or a quoted directory with the key that goes there.
pub open spec fn payload(phase: PhaseView, line: Seq<char>) -> Option<Seq<char>> {
    match phase {
        PhaseView::WriteCwd(dir) => Some(
            seq!['\u{15}'] + escape::single_quoted(dir.shown) + seq!['\u{7}'],
        ),
        PhaseView::WriteLine => Some(seq!['\u{15}'] + line + seq!['\t']),
        _ => None,
    }
}

impl Phase {
    /// What is to be written in this phase of a request for `line`.
    pub fn payload(&self, line: &str) -> (r: Option<String>)
        ensures
            text::optional_text(r) == payload(self@, line@),
    {
        match self {
            Phase::WriteCwd(dir) => {
                let mut out: String = String::new();
                out.push('\u{15}');
                let quoted: String = single_quote(dir.shown.as_str());
                out.append(quoted.as_str());
                out.push('\u{7}');
                assert(out@ =~= seq!['\u{15}'] + escape::single_quoted(dir.shown@) + seq!['\u{7}']);
                Some(out)
            },
            Phase::WriteLine => {
                let mut out: String = String::new();
                out.push('\u{15}');
                out.append(line);
                out.push('\t');
                assert(out@ =~= seq!['\u{15}'] + line@ + seq!['\t']);
                Some(out)
            },
            _ => None,
        }
    }

    /// How long the reads of this phase may take in all, from its beginning, in
    /// a request that may take this long.
    pub fn budget(&self, timeout: Timeout) -> (r: Option<Timeout>)
        ensures
            match self@ {
                PhaseView::Drain | PhaseView::Reply => r == Some(timeout),
                PhaseView::DiscardEcho(_) => r matches Some(t) && t.nanos == budget::millis(
                    CWD_SYNC_DRAIN_MS,
                ) && t.nanos == 120_000_000,
                _ => r.is_none(),
            },
    {
        match self {
            Phase::Drain | Phase::Reply => Some(timeout),
            Phase::DiscardEcho(_) => Some(Timeout::from_millis(CWD_SYNC_DRAIN_MS)),
            _ => None,
        }
    }

    /// How long to wait in the next turn of a read of this phase when
    /// `remaining` is left of its time. No turn is left once all of it is over.
    pub fn next_wait(&self, remaining: Timeout) -> (r: Option<Timeout>)
        ensures
            r == match self@ {
                PhaseView::Drain | PhaseView::Reply => framing::step_within(remaining),
                PhaseView::DiscardEcho(_) => framing::all_of(remaining),
                _ => None,
            },
    {
        match self {
            Phase::Drain | Phase::Reply => read_wait(remaining),
            Phase::DiscardEcho(_) => echo_wait(remaining),
            _ => None,
        }
    }
}

impl ZshDaemon {
    /// Whether what was read towards the next frame is counted rightly.
    pub closed spec fn wf(&self) -> bool {
        self.partial_read.wf()
    }

    /// A shell that has just become ready. It is in the directory in which it
    /// was started, where that is known.
    pub fn spawned(init_script: String, cwd: Option<Directory>) -> (r: Self)
        ensures
            r.wf(),
            r@ == fresh(init_script@, optional_directory(cwd)),
    {
        ZshDaemon {
            alive: true,
            init_script: Some(init_script),
            pending_frame: false,
            partial_read: PartialRead::new(),
            consecutive_timeouts: 0,
            cwd,
        }
    }

    /// Whether the shell serves requests.
    pub fn is_alive(&self) -> (b: bool)
        ensures
            b == self@.alive,
    {
        self.alive
    }

    /// Stops serving and hands out what is to be reaped. Does nothing where the
    /// shell had stopped before.
    fn put_away(&mut self, blocking: bool, deadline: Timeout) -> (r: Option<Reap>)
        requires
            old(self).wf(),
        ensures
            final(self).wf(),
            final(self)@ == dead(old(self)@),
            optional_reap(r) == death_reap(old(self)@, blocking, deadline.nanos as int),
    {
        if !self.alive {
            return None;
        }
        self.alive = false;
        match self.init_script.take() {
            Some(init_script) => Some(Reap { init_script, blocking, deadline }),
            None => None,
        }
    }

    /// Stops serving; the process is reaped in the background.
    pub fn mark_dead_and_kill(&mut self) -> (r: Option<Reap>)
        requires
            old(self).wf(),
        ensures
            final(self).wf(),
            final(self)@ == dead(old(self)@),
            optional_reap(r) == background_reap(old(self)@),
    {
        self.put_away(false, Timeout::from_millis(REAP_DEADLINE_MS))
    }

    /// Ends the shell; the process is reaped in the background.
    pub fn shutdown(&mut self) -> (r: Option<Reap>)
        requires
            old(self).wf(),
        ensures
            final(self).wf(),
            final(self)@ == dead(old(self)@),
            optional_reap(r) == background_reap(old(self)@),
    {
        self.mark_dead_and_kill()
    }

    /// Ends the shell; the caller waits until the process has ended, at most
    /// until `deadline` is over.
    pub fn shutdown_blocking(&mut self, deadline: Timeout) -> (r: Option<Reap>)
        requires
            old(self).wf(),
        ensures
            final(self).wf(),
            final(self)@ == dead(old(self)@),
            optional_reap(r) == death_reap(old(self)@, true, deadline.nanos as int),
    {
        self.put_away(true, deadline)
    }

    /// Counts a read that has run out of time, and stops serving where there
    /// were too many in a row.
    fn register_timeout_and_maybe_kill(&mut self) -> (r: Option<Reap>)
        requires
            old(self).wf(),
        ensures
            final(self).wf(),
            final(self)@ == timed_out(old(self)@),
            optional_reap(r) == timeout_reap(old(self)@),
    {
        self.consecutive_timeouts = self.consecutive_timeouts.saturating_add(1);
        if self.consecutive_timeouts >= MAX_CONSECUTIVE_TIMEOUTS {
            self.mark_dead_and_kill()
        } else {
            self.pending_frame = true;
            None
        }
    }

    /// Begins a request.
    pub fn request(&self) -> (phase: Phase)
        ensures
            phase@ == first_phase(self@),
    {
        if self.alive {
            Phase::PollChild
        } else {
            Phase::Done(None)
        }
    }

    /// A turn of the read that drops the frame of an earlier request.
    fn drain_pending_frame(&mut self, event: &ReadEvent) -> (r: (Phase, Option<Reap>))
        requires
            old(self).wf(),
        ensures
            final(self).wf(),
            (final(self)@, r.0@, optional_reap(r.1)) == next(
                old(self)@,
                PhaseView::Drain,
                RequestEvent::Read(*event),
            ),
    {
        match self.partial_read.read_framed_response(event) {
            None => (Phase::Drain, None),
            Some(FramedRead::Frame(_)) => {
                self.pending_frame = false;
                self.consecutive_timeouts = 0;
                (Phase::AskCwd, None)
            },
            Some(FramedRead::BufferOverflow) => {
                self.consecutive_timeouts = self.consecutive_timeouts.saturating_add(1);
                let reap: Option<Reap> = self.mark_dead_and_kill();
                (Phase::Done(None), reap)
            },
            Some(FramedRead::Timeout) => {
                let reap: Option<Reap> = self.register_timeout_and_maybe_kill();
                (Phase::Done(None), reap)
            },
        }
    }

    /// A turn of the read of a request's own frame.
    fn read_reply(&mut self, event: &ReadEvent) -> (r: (Phase, Option<Reap>))
        requires
            old(self).wf(),
        ensures
            final(self).wf(),
            (final(self)@, r.0@, optional_reap(r.1)) == next(
                old(self)@,
                PhaseView::Reply,
                RequestEvent::Read(*event),
            ),
    {
        match self.partial_read.read_framed_response(event) {
            None => (Phase::Reply, None),
            Some(FramedRead::Frame(frame)) => {
                self.consecutive_timeouts = 0;
                (Phase::Done(Some(frame)), None)
            },
            Some(FramedRead::BufferOverflow) => {
                let reap: Option<Reap> = self.mark_dead_and_kill();
                (Phase::Done(None), reap)
            },
            Some(FramedRead::Timeout) => {
                let reap: Option<Reap> = self.register_timeout_and_maybe_kill();
                (Phase::Done(None), reap)
            },
        }
    }

    /// Compares the directory to complete in with the one the shell is in. The
    /// shell is sent to another one only.
    fn sync_cwd(&self, current: Option<Directory>) -> (phase: Phase)
        ensures
            phase@ == next(self@, PhaseView::AskCwd, RequestEvent::Cwd(current)).1,
    {
        match current {
            None => Phase::WriteLine,
            Some(dir) => {
                let there: bool = match &self.cwd {
                    Some(known) => known.same_as(&dir),
                    None => false,
                };
                if there {
                    Phase::WriteLine
                } else {
                    Phase::WriteCwd(dir)
                }
            },
        }
    }

    /// Takes what came of the work of `phase`. Returns the next phase and what
    /// is to be reaped, if the shell has stopped serving.
    pub fn advance(&mut self, phase: Phase, event: RequestEvent) -> (r: (Phase, Option<Reap>))
        requires
            old(self).wf(),
        ensures
            final(self).wf(),
            (final(self)@, r.0@, optional_reap(r.1)) == next(old(self)@, phase@, event),
    {
        match (phase, event) {
            (Phase::PollChild, RequestEvent::Polled(status)) => {
                if status == ChildStatus::Exited {
                    let reap: Option<Reap> = self.mark_dead_and_kill();
                    (Phase::Done(None), reap)
                } else if self.pending_frame {
                    (Phase::Drain, None)
                } else {
                    (Phase::AskCwd, None)
                }
            },
            (Phase::Drain, RequestEvent::Read(read)) => self.drain_pending_frame(&read),
            (Phase::AskCwd, RequestEvent::Cwd(current)) => (self.sync_cwd(current), None),
            (Phase::WriteCwd(dir), RequestEvent::Written(ok)) => {
                if ok {
                    (Phase::DiscardEcho(dir), None)
                } else {
                    let reap: Option<Reap> = self.mark_dead_and_kill();
                    (Phase::WriteLine, reap)
                }
            },
            (Phase::DiscardEcho(dir), RequestEvent::Read(read)) => {
                let more: bool = match &read {
                    ReadEvent::Chunk(chunk) => chunk.len() > 0,
                    _ => false,
                };
                if more {
                    (Phase::DiscardEcho(dir), None)
                } else {
                    self.cwd = Some(dir);
                    (Phase::WriteLine, None)
                }
            },
            (Phase::WriteLine, RequestEvent::Written(ok)) => {
                if ok {
                    (Phase::Reply, None)
                } else {
                    let reap: Option<Reap> = self.mark_dead_and_kill();
                    (Phase::Done(None), reap)
                }
            },
            (Phase::Reply, RequestEvent::Read(read)) => self.read_reply(&read),
            (phase, _) => (phase, None),
        }
    }
}

/// Whether a shell between two requests is as it should be: while it serves,
/// its script is there to be removed, fewer requests have run out of time than
/// end it, a frame is due if and only if the last request ran out of time, and
/// what is held of that frame is not the whole of it.
pub open spec fn sound(d: DaemonView) -> bool {
    d.alive ==> {
        &&& d.init_script.is_some()
        &&& d.timeouts < MAX_CONSECUTIVE_TIMEOUTS
        &&& d.pending_frame <==> d.timeouts > 0
        &&& d.partial == framing::reading(d.partial.held)
        &&& framing::framed(d.partial.held).is_none()
        &&& d.partial.held.len() <= framing::MAX_RESPONSE_BYTES
    }
}

/// Whether a phase of a request goes with the state of the shell: behind the
/// drain no frame is due, so the reply that is read is the reply to the line
/// that was sent.
pub open spec fn consistent(d: DaemonView, phase: PhaseView) -> bool {
    &&& sound(d)
    &&& d.alive ==> match phase {
        PhaseView::PollChild => true,
        PhaseView::Done(_) => true,
        PhaseView::Drain => d.pending_frame,
        _ => !d.pending_frame,
    }
}

/// A shell that has just become ready is as it should be.
pub proof fn law_fresh_shell_is_sound(init_script: Seq<char>, cwd: Option<DirectoryView>)
    ensures
        sound(fresh(init_script, cwd)),
{
}

/// A request begins in a phase that goes with the state of the shell.
pub proof fn law_request_begins_consistent(d: DaemonView)
    requires
        sound(d),
    ensures
        consistent(d, first_phase(d)),
{
}

/// Whatever happens in a request, the shell stays as it should be, and no line
/// is sent while the frame of an earlier request is due.
pub proof fn law_step_stays_consistent(d: DaemonView, phase: PhaseView, event: RequestEvent)
    requires
        consistent(d, phase),
    ensures
        consistent(next(d, phase, event).0, next(d, phase, event).1),
        sound(next(d, phase, event).0),
{
}

/// A shell that does not serve is asked nothing, never serves again and is
/// reaped no more.
pub proof fn law_dead_stays_dead(d: DaemonView, phase: PhaseView, event: RequestEvent)
    requires
        !d.alive,
    ensures
        first_phase(d) == PhaseView::Done(None),
        !next(d, phase, event).0.alive,
        next(d, phase, event).2.is_none(),
        dead(d) == d,
        background_reap(d).is_none(),
{
}

/// A shell is reaped exactly when it stops serving, with the script that it was
/// started with.
pub proof fn law_reaped_when_it_stops(d: DaemonView, phase: PhaseView, event: RequestEvent)
    requires
        sound(d),
    ensures
        next(d, phase, event).2.is_some() <==> d.alive && !next(d, phase, event).0.alive,
        next(d, phase, event).2 matches Some(reap) ==> Some(reap.init_script) == d.init_script
            && !reap.blocking,
        next(d, phase, event).0.alive ==> next(d, phase, event).0.init_script == d.init_script,
{
}

/// A frame that comes, in a drain or as a reply, clears the count of requests
/// that ran out of time.
pub proof fn law_frame_clears_the_count(d: DaemonView, phase: PhaseView, read: ReadEvent)
    requires
        consistent(d, phase),
        d.alive,
        phase is Drain || phase is Reply,
        framing::read_on(d.partial.held, read).1 matches Some(framing::FramedReadView::Frame(_)),
    ensures
        next(d, phase, RequestEvent::Read(read)).0.alive,
        next(d, phase, RequestEvent::Read(read)).0.timeouts == 0,
        !next(d, phase, RequestEvent::Read(read)).0.pending_frame,
{
}

/// Where a request goes from `phase` when `events` come of its work, one after
/// the other.
pub open spec fn run(d: DaemonView, phase: PhaseView, events: Seq<RequestEvent>) -> (
    DaemonView,
    PhaseView,
)
    decreases events.len(),
{
    if events.len() == 0 {
        (d, phase)
    } else {
        let (d2, phase2, _) = next(d, phase, events[0]);
        run(d2, phase2, events.skip(1))
    }
}

/// A series of events keeps the shell as it should be.
pub proof fn law_run_stays_consistent(d: DaemonView, phase: PhaseView, events: Seq<RequestEvent>)
    requires
        consistent(d, phase),
    ensures
        consistent(run(d, phase, events).0, run(d, phase, events).1),
    decreases events.len(),
{
    if events.len() > 0 {
        law_step_stays_consistent(d, phase, events[0]);
        let (d2, phase2, _) = next(d, phase, events[0]);
        law_run_stays_consistent(d2, phase2, events.skip(1));
    }
}

/// A shell that answers is not ended by one reply that does not come in time:
/// the request has no reply, and the shell serves on with a frame due, from the
/// directory it is in.
pub proof fn law_one_timeout_is_forgiven(d: DaemonView)
    requires
        consistent(d, PhaseView::Reply),
        d.alive,
    ensures
        ({
            let (d2, phase, reap) = next(d, PhaseView::Reply, RequestEvent::Read(ReadEvent::Expired));
            &&& d2.alive
            &&& d2.pending_frame
            &&& d2.timeouts == 1
            &&& d2.partial == d.partial
            &&& d2.cwd == d.cwd
            &&& d2.init_script == d.init_script
            &&& phase == PhaseView::Done(None)
            &&& reap.is_none()
        }),
{
}

/// The second time in a row ends it: a drain that runs out of time follows a
/// request that did.
pub proof fn law_second_timeout_ends_it(d: DaemonView)
    requires
        consistent(d, PhaseView::Drain),
        d.alive,
    ensures
        ({
            let (d2, phase, reap) = next(d, PhaseView::Drain, RequestEvent::Read(ReadEvent::Expired));
            &&& !d2.alive
            &&& phase == PhaseView::Done(None)
            &&& reap matches Some(how) && Some(how.init_script) == d.init_script && !how.blocking
                && how.deadline == 1_000_000_000
        }),
{
}

/// A drain that fails, because the time runs out or too many bytes come, counts
/// once more, and the frame stays due.
pub proof fn law_failed_drain_counts(d: DaemonView, read: ReadEvent)
    requires
        consistent(d, PhaseView::Drain),
        d.alive,
        framing::read_on(d.partial.held, read).1 matches Some(end) && !(end is Frame),
    ensures
        ({
            let (d2, phase, reap) = next(d, PhaseView::Drain, RequestEvent::Read(read));
            &&& d2.timeouts == d.timeouts + 1
            &&& d2.pending_frame
            &&& d2.cwd == d.cwd
            &&& !d2.alive
            &&& phase == PhaseView::Done(None)
            &&& reap == background_reap(d)
        }),
{
}

/// Two requests, one after the other, that nothing answers: the first leaves
/// the shell running, the second ends it.
pub proof fn law_two_silent_requests_end_it(d: DaemonView, cwd: Option<Directory>)
    requires
        sound(d),
        d.alive,
        !d.pending_frame,
        cwd matches Some(dir) ==> is_there(d.cwd, dir@),
    ensures
        ({
            let first = run(
                d,
                first_phase(d),
                seq![
                    RequestEvent::Polled(ChildStatus::Running),
                    RequestEvent::Cwd(cwd),
                    RequestEvent::Written(true),
                    RequestEvent::Read(ReadEvent::Expired),
                ],
            );
            let second = run(
                first.0,
                first_phase(first.0),
                seq![
                    RequestEvent::Polled(ChildStatus::Running),
                    RequestEvent::Read(ReadEvent::Expired),
                ],
            );
            &&& first.0.alive
            &&& first.1 == PhaseView::Done(None)
            &&& !second.0.alive
            &&& second.1 == PhaseView::Done(None)
        }),
{
    reveal_with_fuel(run, 5);
    let e1 = RequestEvent::Polled(ChildStatus::Running);
    let e2 = RequestEvent::Cwd(cwd);
    let e3 = RequestEvent::Written(true);
    let e4 = RequestEvent::Read(ReadEvent::Expired);
    let es = seq![e1, e2, e3, e4];
    assert(es.skip(1) =~= seq![e2, e3, e4]);
    assert(es.skip(1).skip(1) =~= seq![e3, e4]);
    assert(es.skip(1).skip(1).skip(1) =~= seq![e4]);
    assert(es.skip(1).skip(1).skip(1).skip(1) =~= seq![]);
    let fs = seq![e1, e4];
    assert(fs.skip(1) =~= seq![e4]);
    assert(fs.skip(1).skip(1) =~= seq![]);
}

/// A shell that is in the directory to complete in is told nothing about it.
pub proof fn law_same_directory_is_not_sent(d: DaemonView, dir: Directory)
    requires
        is_there(d.cwd, dir@),
    ensures
        next(d, PhaseView::AskCwd, RequestEvent::Cwd(Some(dir))) == (
            d,
            PhaseView::WriteLine,
            None::<ReapView>,
        ),
{
}

/// A shell that is told of a directory is known to be in it before the line is
/// sent.
pub proof fn law_directory_is_followed(d: DaemonView, dir: Directory)
    requires
        !is_there(d.cwd, dir@),
    ensures
        ({
            let (d2, phase) = run(
                d,
                PhaseView::AskCwd,
                seq![
                    RequestEvent::Cwd(Some(dir)),
                    RequestEvent::Written(true),
                    RequestEvent::Read(ReadEvent::Nothing),
                ],
            );
            &&& d2 == DaemonView { cwd: Some(dir@), ..d }
            &&& phase == PhaseView::WriteLine
        }),
{
    reveal_with_fuel(run, 4);
    let e1 = RequestEvent::Cwd(Some(dir));
    let e2 = RequestEvent::Written(true);
    let e3 = RequestEvent::Read(ReadEvent::Nothing);
    let es = seq![e1, e2, e3];
    assert(es.skip(1) =~= seq![e2, e3]);
    assert(es.skip(1).skip(1) =~= seq![e3]);
    assert(es.skip(1).skip(1).skip(1) =~= seq![]);
}

/// Whether `name` is a plain name in a path: it is neither empty nor `.` and
/// holds no slash.
pub open spec fn plain_name(name: Seq<u8>) -> bool {
    &&& name.len() > 0
    &&& name != seq![0x2eu8]
    &&& forall|j: int| 0 <= j < name.len() ==> #[trigger] name[j] != 0x2f
}

/// The names of a path, with one slash before each of them.
pub open spec fn names_spelled(names: Seq<Seq<u8>>) -> Seq<u8>
    decreases names.len(),
{
    if names.len() == 0 {
        seq![]
    } else {
        names_spelled(names.drop_last()) + seq![0x2fu8] + names.last()
    }
}

/// The plainly written absolute path with these names, which is the root where
/// there are none.
pub open spec fn absolute_path(names: Seq<Seq<u8>>) -> Seq<u8> {
    if names.len() == 0 {
        seq![0x2fu8]
    } else {
        names_spelled(names)
    }
}

proof fn lemma_components_of_name(begun: Seq<u8>, name: Seq<u8>, begins: bool)
    requires
        forall|j: int| 0 <= j < name.len() ==> #[trigger] name[j] != 0x2f,
    ensures
        components_from(begun, name, begins) == component(begun + name, begins),
    decreases name.len(),
{
    if name.len() == 0 {
        assert(begun + name =~= begun);
    } else {
        assert forall|j: int| 0 <= j < name.skip(1).len() implies #[trigger] name.skip(1)[j] != 0x2f by {
            assert(name.skip(1)[j] == name[j + 1]);
        }
        lemma_components_of_name(begun.push(name[0]), name.skip(1), begins);
        assert(begun.push(name[0]) + name.skip(1) =~= begun + name);
    }
}

proof fn lemma_components_of_two(begun: Seq<u8>, a: Seq<u8>, b: Seq<u8>, begins: bool)
    ensures
        components_from(begun, a + seq![0x2fu8] + b, begins) == components_from(begun, a, begins)
            + components_from(seq![], b, false),
    decreases a.len(),
{
    let all = a + seq![0x2fu8] + b;
    let tail = components_from(seq![], b, false);
    if a.len() == 0 {
        assert(all.skip(1) =~= b);
    } else if a[0] == 0x2f {
        lemma_components_of_two(seq![], a.skip(1), b, false);
        assert(all.skip(1) =~= a.skip(1) + seq![0x2fu8] + b);
        let here = component(begun, begins);
        let mid = components_from(seq![], a.skip(1), false);
        assert(here + (mid + tail) =~= here + mid + tail);
    } else {
        lemma_components_of_two(begun.push(a[0]), a.skip(1), b, begins);
        assert(all.skip(1) =~= a.skip(1) + seq![0x2fu8] + b);
    }
}

proof fn lemma_components_behind(a: Seq<u8>, b: Seq<u8>)
    requires
        a.len() > 0,
    ensures
        components(a + seq![0x2fu8] + b) == components(a) + components_from(seq![], b, false),
{
    lemma_components_of_two(seq![], a, b, true);
    let all = a + seq![0x2fu8] + b;
    assert(all[0] == a[0]);
    assert(components(all) =~= components(a) + components_from(seq![], b, false));
}

proof fn lemma_components_of_root()
    ensures
        components(seq![0x2fu8]) == seq![seq![0x2fu8]],
{
    let root = seq![0x2fu8];
    assert(root.skip(1) =~= seq![]);
    assert(components_from(seq![], root.skip(1), false) =~= seq![]);
    assert(components_from(seq![], root, true) =~= seq![]);
    assert(components(root) =~= seq![seq![0x2fu8]]);
}

proof fn lemma_components_of_absolute(names: Seq<Seq<u8>>)
    requires
        forall|i: int| 0 <= i < names.len() ==> plain_name(#[trigger] names[i]),
    ensures
        components(absolute_path(names)) == seq![seq![0x2fu8]] + names,
        absolute_path(names).len() > 0,
    decreases names.len(),
{
    let root = seq![seq![0x2fu8]];
    if names.len() == 0 {
        lemma_components_of_root();
        assert(root + names =~= root);
    } else {
        let front = names.drop_last();
        let last = names.last();
        assert(plain_name(names[names.len() - 1]));
        assert forall|i: int| 0 <= i < front.len() implies plain_name(#[trigger] front[i]) by {
            assert(front[i] == names[i]);
        }
        lemma_components_of_absolute(front);
        lemma_components_of_name(seq![], last, false);
        assert(Seq::<u8>::empty() + last =~= last);
        assert(component(last, false) =~= seq![last]);
        let all = absolute_path(names);
        if front.len() == 0 {
            assert(names_spelled(front) =~= seq![]);
            assert(all =~= seq![0x2fu8] + last);
            assert(all.skip(1) =~= last);
            assert(components_from(seq![], all, true) =~= seq![last]);
            assert(components(all) =~= root + names);
        } else {
            assert(all =~= absolute_path(front) + seq![0x2fu8] + last);
            lemma_components_behind(absolute_path(front), last);
            assert(root + front + seq![last] =~= root + names);
        }
    }
}

/// The shell is sent to the directory to complete in unless it is in that very
/// directory. One above it, below it or beside it is another directory, however
/// much of the path is the same; so is any where the shell's own is not known.
pub proof fn law_only_the_same_directory_is_not_sent(
    d: DaemonView,
    here: Seq<Seq<u8>>,
    there: Seq<Seq<u8>>,
    dir: Directory,
)
    requires
        forall|i: int| 0 <= i < here.len() ==> plain_name(#[trigger] here[i]),
        forall|i: int| 0 <= i < there.len() ==> plain_name(#[trigger] there[i]),
        d.cwd matches Some(known) ==> known.raw == absolute_path(here),
        dir@.raw == absolute_path(there),
    ensures
        ({
            let (after, phase, reap) = next(d, PhaseView::AskCwd, RequestEvent::Cwd(Some(dir)));
            let same = d.cwd matches Some(known) && known.raw == dir@.raw;
            &&& phase == if same {
                PhaseView::WriteLine
            } else {
                PhaseView::WriteCwd(dir@)
            }
            &&& after == d
            &&& reap.is_none()
        }),
{
    lemma_components_of_absolute(here);
    lemma_components_of_absolute(there);
    let root = seq![seq![0x2fu8]];
    if root + here == root + there {
        assert((root + here).skip(1) =~= here);
        assert((root + there).skip(1) =~= there);
    }
}

/// How a path is spelled makes no difference: a slash at its end, two slashes in
/// the place of one, and a `.` for a name are as good as none.
pub proof fn law_spelling_of_a_path_makes_no_difference(
    d: DaemonView,
    front: Seq<u8>,
    back: Seq<u8>,
    dir: Directory,
)
    requires
        front.len() > 0,
        d.cwd matches Some(known) && (known.raw == front + seq![0x2fu8] + back),
        dir@.raw == front + seq![0x2fu8, 0x2fu8] + back || dir@.raw == front + seq![
            0x2fu8,
            0x2eu8,
            0x2fu8,
        ] + back || dir@.raw == front + seq![0x2fu8] + back + seq![0x2fu8] || dir@.raw == front + seq![
            0x2fu8,
        ] + back + seq![0x2fu8, 0x2eu8],
    ensures
        next(d, PhaseView::AskCwd, RequestEvent::Cwd(Some(dir))) == (
            d,
            PhaseView::WriteLine,
            None::<ReapView>,
        ),
{
    let slash = seq![0x2fu8];
    let none: Seq<u8> = seq![];
    let path = front + slash + back;
    let nothing: Seq<Seq<u8>> = seq![];
    let tail = components_from(none, back, false);
    lemma_components_behind(front, back);
    assert(components_from(none, none, false) =~= nothing);
    lemma_components_of_name(none, seq![0x2eu8], false);
    assert(none + seq![0x2eu8] =~= seq![0x2eu8]);
    assert(components_from(none, seq![0x2eu8], false) =~= nothing);
    // Two slashes.
    let two = front + seq![0x2fu8, 0x2fu8] + back;
    assert(two =~= front + slash + none + slash + back);
    lemma_components_behind(front + slash + none, back);
    lemma_components_behind(front, none);
    assert(components(front) + nothing + tail =~= components(front) + tail);
    // A dot.
    let dotted = front + seq![0x2fu8, 0x2eu8, 0x2fu8] + back;
    assert(dotted =~= front + slash + seq![0x2eu8] + slash + back);
    lemma_components_behind(front + slash + seq![0x2eu8], back);
    lemma_components_behind(front, seq![0x2eu8]);
    // A slash, or a slash and a dot, at the end.
    assert(path + slash =~= path + slash + none);
    lemma_components_behind(path, none);
    assert(path + seq![0x2fu8, 0x2eu8] =~= path + slash + seq![0x2eu8]);
    lemma_components_behind(path, seq![0x2eu8]);
    assert(components(path) + nothing =~= components(path));
}

proof fn lemma_begun_name_is_kept(begun: Seq<u8>, rest: Seq<u8>)
    requires
        begun.len() > 0,
        begun[0] != 0x2e,
    ensures
        components_from(begun, rest, true) == components_from(begun, rest, false),
    decreases rest.len(),
{
    assert(begun != seq![0x2eu8]);
    if rest.len() > 0 && rest[0] != 0x2f {
        lemma_begun_name_is_kept(begun.push(rest[0]), rest.skip(1));
    }
}

/// Where a path begins does make a difference: behind a slash, or behind a `.`
/// and a slash, it is another one, and the shell is sent there.
pub proof fn law_beginning_of_a_path_makes_a_difference(d: DaemonView, path: Seq<u8>, dir: Directory)
    requires
        path.len() > 0,
        path[0] != 0x2f,
        path[0] != 0x2e,
        d.cwd matches Some(known) && known.raw == path,
        dir@.raw == seq![0x2fu8] + path || dir@.raw == seq![0x2eu8, 0x2fu8] + path,
    ensures
        next(d, PhaseView::AskCwd, RequestEvent::Cwd(Some(dir))) == (
            d,
            PhaseView::WriteCwd(dir@),
            None::<ReapView>,
        ),
{
    let none: Seq<u8> = seq![];
    let names = components_from(none, path, false);
    let first = none.push(path[0]);
    lemma_begun_name_is_kept(first, path.skip(1));
    assert(components_from(none, path, true) == names);
    assert(components(path) =~= names);
    // Behind a slash.
    let rooted = seq![0x2fu8] + path;
    assert(rooted.skip(1) =~= path);
    assert(components_from(none, rooted, true) =~= names);
    assert(components(rooted).len() == names.len() + 1);
    // Behind a dot.
    let dot = seq![0x2eu8];
    let dotted = seq![0x2eu8, 0x2fu8] + path;
    assert(dotted =~= dot + seq![0x2fu8] + path);
    lemma_components_behind(dot, path);
    lemma_components_of_name(none, dot, true);
    assert(none + dot =~= dot);
    assert(components(dot).len() == 1);
    assert(components(dotted).len() == names.len() + 1);
}

/// What a request writes: a control character that clears the line, then the
/// line and the key that completes it, or the directory in quotes and the key
/// that goes there. In the other phases there is nothing to write.
pub proof fn law_requests_write_line_and_directory(dir: DirectoryView, line: Seq<char>)
    ensures
        payload(PhaseView::WriteLine, line) == Some(seq!['\u{15}'] + line + seq!['\t']),
        payload(PhaseView::WriteCwd(dir), line) == Some(
            seq!['\u{15}'] + escape::single_quoted(dir.shown) + seq!['\u{7}'],
        ),
        payload(PhaseView::PollChild, line).is_none(),
        payload(PhaseView::Drain, line).is_none(),
        payload(PhaseView::AskCwd, line).is_none(),
        payload(PhaseView::DiscardEcho(dir), line).is_none(),
        payload(PhaseView::Reply, line).is_none(),
        payload(PhaseView::Done(None), line).is_none(),
{
}

/// A shell whose process has ended is put away at once. Any other goes on, first
/// with the frame of an earlier request where one is due, even where the look at
/// the process failed.
pub proof fn law_ended_process_is_put_away(d: DaemonView)
    requires
        d.alive,
        d.init_script.is_some(),
    ensures
        ({
            let (after, phase, reap) = next(
                d,
                PhaseView::PollChild,
                RequestEvent::Polled(ChildStatus::Exited),
            );
            &&& after == (DaemonView { alive: false, init_script: None, ..d })
            &&& phase == PhaseView::Done(None)
            &&& reap == Some(
                ReapView {
                    init_script: d.init_script.unwrap(),
                    blocking: false,
                    deadline: 1_000_000_000,
                },
            )
        }),
        next(d, PhaseView::PollChild, RequestEvent::Polled(ChildStatus::Running)) == (
            d,
            if d.pending_frame {
                PhaseView::Drain
            } else {
                PhaseView::AskCwd
            },
            None::<ReapView>,
        ),
        next(d, PhaseView::PollChild, RequestEvent::Polled(ChildStatus::Unknown)) == next(
            d,
            PhaseView::PollChild,
            RequestEvent::Polled(ChildStatus::Running),
        ),
{
}

/// The reply to a request is what stands between the first two zero bytes of all
/// that was read since the last frame. The shell serves on with nothing held.
pub proof fn law_reply_is_the_frame(
    d: DaemonView,
    chunk: Vec<u8>,
    before: Seq<u8>,
    frame: Seq<u8>,
    behind: Seq<u8>,
)
    requires
        framing::without_zero(before),
        framing::without_zero(frame),
        d.partial.held + chunk@ == before + seq![0u8] + frame + seq![0u8] + behind,
    ensures
        next(d, PhaseView::Reply, RequestEvent::Read(ReadEvent::Chunk(chunk))) == (
            DaemonView { partial: framing::reading(seq![]), timeouts: 0, ..d },
            PhaseView::Done(Some(framing::lossy_text(frame))),
            None::<ReapView>,
        ),
{
    framing::law_frame_stands_between_the_first_two_zeros(
        d.partial.held,
        chunk@,
        before,
        frame,
        behind,
    );
}

/// A frame that comes late is dropped whole, and the request goes on as if it
/// had never been due: it finds out the directory and sends its own line.
pub proof fn law_late_frame_is_dropped(
    d: DaemonView,
    chunk: Vec<u8>,
    before: Seq<u8>,
    frame: Seq<u8>,
    behind: Seq<u8>,
)
    requires
        framing::without_zero(before),
        framing::without_zero(frame),
        d.partial.held + chunk@ == before + seq![0u8] + frame + seq![0u8] + behind,
    ensures
        next(d, PhaseView::Drain, RequestEvent::Read(ReadEvent::Chunk(chunk))) == (
            DaemonView {
                partial: framing::reading(seq![]),
                timeouts: 0,
                pending_frame: false,
                ..d
            },
            PhaseView::AskCwd,
            None::<ReapView>,
        ),
{
    framing::law_frame_stands_between_the_first_two_zeros(
        d.partial.held,
        chunk@,
        before,
        frame,
        behind,
    );
}

/// While no frame is complete, the bytes that come are held and the read goes
/// on, as it does in a turn in which nothing comes.
pub proof fn law_read_goes_on_without_a_frame(
    d: DaemonView,
    phase: PhaseView,
    chunk: Vec<u8>,
    before: Seq<u8>,
    behind: Seq<u8>,
)
    requires
        phase is Drain || phase is Reply,
        d.partial == framing::reading(d.partial.held),
        framing::without_zero(before),
        framing::without_zero(behind),
        d.partial.held + chunk@ == before + behind || d.partial.held + chunk@ == before + seq![0u8]
            + behind,
        (d.partial.held + chunk@).len() <= 4 * 1024 * 1024,
    ensures
        next(d, phase, RequestEvent::Read(ReadEvent::Chunk(chunk))) == (
            DaemonView { partial: framing::reading(d.partial.held + chunk@), ..d },
            phase,
            None::<ReapView>,
        ),
        next(d, phase, RequestEvent::Read(ReadEvent::Nothing)) == (d, phase, None::<ReapView>),
{
    framing::law_one_zero_is_no_frame(d.partial.held, chunk@, before, behind);
}

/// A request waits for what the shell redraws behind a change of directory until
/// nothing more comes, and only then is the shell known to be there. A write
/// that fails ends the shell.
pub proof fn law_directory_is_known_once_it_is_redrawn(
    d: DaemonView,
    dir: DirectoryView,
    chunk: Vec<u8>,
)
    requires
        chunk@.len() > 0,
    ensures
        next(d, PhaseView::WriteCwd(dir), RequestEvent::Written(true)) == (
            d,
            PhaseView::DiscardEcho(dir),
            None::<ReapView>,
        ),
        next(d, PhaseView::DiscardEcho(dir), RequestEvent::Read(ReadEvent::Chunk(chunk))) == (
            d,
            PhaseView::DiscardEcho(dir),
            None::<ReapView>,
        ),
        next(d, PhaseView::DiscardEcho(dir), RequestEvent::Read(ReadEvent::Nothing)) == (
            DaemonView { cwd: Some(dir), ..d },
            PhaseView::WriteLine,
            None::<ReapView>,
        ),
        next(d, PhaseView::DiscardEcho(dir), RequestEvent::Read(ReadEvent::Expired)) == (
            DaemonView { cwd: Some(dir), ..d },
            PhaseView::WriteLine,
            None::<ReapView>,
        ),
        next(d, PhaseView::AskCwd, RequestEvent::Cwd(None)) == (
            d,
            PhaseView::WriteLine,
            None::<ReapView>,
        ),
        next(d, PhaseView::WriteLine, RequestEvent::Written(true)) == (
            d,
            PhaseView::Reply,
            None::<ReapView>,
        ),
        !next(d, PhaseView::WriteCwd(dir), RequestEvent::Written(false)).0.alive,
        !next(d, PhaseView::WriteLine, RequestEvent::Written(false)).0.alive,
        next(d, PhaseView::WriteLine, RequestEvent::Written(false)).1 == PhaseView::Done(None),
{
}

/// A request from beginning to end: a shell that serves and owes no frame is
/// sent to the directory to complete in where it is elsewhere, is sent the line,
/// and answers with the frame. It is then known to be in that directory.
pub proof fn law_request_is_answered_from_its_directory(
    d: DaemonView,
    here: Seq<Seq<u8>>,
    there: Seq<Seq<u8>>,
    dir: Directory,
    chunk: Vec<u8>,
    before: Seq<u8>,
    frame: Seq<u8>,
    behind: Seq<u8>,
)
    requires
        d.alive,
        !d.pending_frame,
        forall|i: int| 0 <= i < here.len() ==> plain_name(#[trigger] here[i]),
        forall|i: int| 0 <= i < there.len() ==> plain_name(#[trigger] there[i]),
        d.cwd matches Some(known) ==> known.raw == absolute_path(here),
        dir@.raw == absolute_path(there),
        absolute_path(here) != absolute_path(there),
        framing::without_zero(before),
        framing::without_zero(frame),
        d.partial.held + chunk@ == before + seq![0u8] + frame + seq![0u8] + behind,
    ensures
        run(
            d,
            first_phase(d),
            seq![
                RequestEvent::Polled(ChildStatus::Running),
                RequestEvent::Cwd(Some(dir)),
                RequestEvent::Written(true),
                RequestEvent::Read(ReadEvent::Nothing),
                RequestEvent::Written(true),
                RequestEvent::Read(ReadEvent::Chunk(chunk)),
            ],
        ) == (
            DaemonView {
                cwd: Some(dir@),
                partial: framing::reading(seq![]),
                timeouts: 0,
                ..d
            },
            PhaseView::Done(Some(framing::lossy_text(frame))),
        ),
{
    let e1 = RequestEvent::Polled(ChildStatus::Running);
    let e2 = RequestEvent::Cwd(Some(dir));
    let e3 = RequestEvent::Written(true);
    let e4 = RequestEvent::Read(ReadEvent::Nothing);
    let e6 = RequestEvent::Read(ReadEvent::Chunk(chunk));
    let s1 = seq![e1, e2, e3, e4, e3, e6];
    let s2 = seq![e2, e3, e4, e3, e6];
    let s3 = seq![e3, e4, e3, e6];
    let s4 = seq![e4, e3, e6];
    let s5 = seq![e3, e6];
    let s6 = seq![e6];
    let s7: Seq<RequestEvent> = seq![];
    assert(s1.skip(1) =~= s2 && s2.skip(1) =~= s3 && s3.skip(1) =~= s4 && s4.skip(1) =~= s5
        && s5.skip(1) =~= s6 && s6.skip(1) =~= s7);
    law_only_the_same_directory_is_not_sent(d, here, there, dir);
    let moved = DaemonView { cwd: Some(dir@), ..d };
    law_reply_is_the_frame(moved, chunk, before, frame, behind);
    let done = DaemonView { partial: framing::reading(seq![]), timeouts: 0, ..moved };
    let reply = PhaseView::Done(Some(framing::lossy_text(frame)));
    assert(run(done, reply, s7) == (done, reply));
    assert(run(moved, PhaseView::Reply, s6) == (done, reply));
    assert(run(moved, PhaseView::WriteLine, s5) == (done, reply));
    assert(run(d, PhaseView::DiscardEcho(dir@), s4) == (done, reply));
    assert(run(d, PhaseView::WriteCwd(dir@), s3) == (done, reply));
    assert(run(d, PhaseView::AskCwd, s2) == (done, reply));
    assert(run(d, PhaseView::PollChild, s1) == (done, reply));
}

/// A shell that has just started serves, owes no frame, holds nothing and has
/// failed no request. Its script is the one that it was started with.
pub proof fn law_new_shell_owes_nothing(init_script: Seq<char>, cwd: Option<DirectoryView>)
    ensures
        ({
            let d = fresh(init_script, cwd);
            &&& d.alive && !d.pending_frame && d.timeouts == 0 && d.partial.held.len() == 0
            &&& d.init_script == Some(init_script)
            &&& d.cwd == cwd
            &&& first_phase(d) == PhaseView::PollChild
        }),
{
}

/// A shell that is put away no longer serves, hands out its script once, and
/// keeps what else is known of it. To put it away again changes nothing.
pub proof fn law_shell_is_put_away_once(d: DaemonView, blocking: bool, deadline: int)
    requires
        d.alive,
        d.init_script.is_some(),
    ensures
        dead(d) == (DaemonView { alive: false, init_script: None, ..d }),
        dead(dead(d)) == dead(d),
        death_reap(d, blocking, deadline) == Some(
            ReapView { init_script: d.init_script.unwrap(), blocking, deadline },
        ),
        death_reap(dead(d), blocking, deadline).is_none(),
{
}

/// Too many bytes without a frame end the shell at once, also where it has failed
/// no request before. They count as a failed request in a drain, and not in the
/// read of a reply.
pub proof fn law_too_many_bytes_end_the_shell(
    d: DaemonView,
    chunk: Vec<u8>,
    before: Seq<u8>,
    behind: Seq<u8>,
)
    requires
        d.alive,
        framing::without_zero(before),
        framing::without_zero(behind),
        d.partial.held + chunk@ == before + behind || d.partial.held + chunk@ == before + seq![0u8]
            + behind,
        (d.partial.held + chunk@).len() > 4 * 1024 * 1024,
        d.timeouts < u8::MAX,
    ensures
        ({
            let read = RequestEvent::Read(ReadEvent::Chunk(chunk));
            let reply = next(d, PhaseView::Reply, read);
            let drain = next(d, PhaseView::Drain, read);
            &&& !reply.0.alive && reply.1 == PhaseView::Done(None)
            &&& !drain.0.alive && drain.1 == PhaseView::Done(None)
            &&& reply.0.timeouts == d.timeouts
            &&& drain.0.timeouts == d.timeouts + 1
            &&& reply.0.partial.held.len() == 0 && drain.0.partial.held.len() == 0
        }),
{
    framing::law_one_zero_is_no_frame(d.partial.held, chunk@, before, behind);
}

/// Whether a phase waits for an event of this kind.
pub open spec fn awaits(phase: PhaseView, event: RequestEvent) -> bool {
    match phase {
        PhaseView::PollChild => event is Polled,
        PhaseView::AskCwd => event is Cwd,
        PhaseView::WriteCwd(_) | PhaseView::WriteLine => event is Written,
        PhaseView::Drain | PhaseView::DiscardEcho(_) | PhaseView::Reply => event is Read,
        PhaseView::Done(_) => false,
    }
}

/// An event that a phase does not wait for changes nothing, and a request that
/// is done stays done.
pub proof fn law_other_events_change_nothing(d: DaemonView, phase: PhaseView, event: RequestEvent)
    requires
        !awaits(phase, event),
    ensures
        next(d, phase, event) == (d, phase, None::<ReapView>),
{
}

} // verus!
