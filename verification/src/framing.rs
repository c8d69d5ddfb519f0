//! Frames in the bytes that come back from the completion shell.
//!
//! The shell prints a NUL byte before the first candidate of a reply and
//! another behind the last. What stands between the two is the reply's frame.
//! The bytes come in chunks of any size, and the two sentinels of one frame may
//! come in different requests, so what was read so far is kept.

use vstd::prelude::*;

use crate::budget;
use crate::budget::Timeout;
use crate::text::chars_of;

verus! {

/// The byte before and behind a frame.
pub const SENTINEL_BYTE: u8 = 0;

/// How many bytes are kept while a frame is not complete.
pub const MAX_RESPONSE_BYTES: usize = 4 * 1024 * 1024;

/// The line that the shell prints once it is ready for requests.
pub const READY_MARKER: &'static str = "jarvish_daemon_ok";

/// The text that the standard library decodes `bytes` to, with U+FFFD in the
/// place of what is not UTF-8.
pub uninterp spec fn lossy_text(bytes: Seq<u8>) -> Seq<char>;

/// `String::from_utf8_lossy` of the standard library. Its result depends on the
/// bytes alone, and bytes that are UTF-8 decode to the text they encode.
#[verifier::external_body]
pub(crate) fn decode_lossy(bytes: &[u8]) -> (r: String)
    ensures
        r@ == lossy_text(bytes@),
        vstd::utf8::valid_utf8(bytes@) ==> r@ == vstd::utf8::decode_utf8(bytes@),
{
    String::from_utf8_lossy(bytes).into_owned()
}

/// The first position at or behind `from` that holds a sentinel.
pub open spec fn sentinel_from(bytes: Seq<u8>, from: int) -> Option<int>
    decreases bytes.len() - from,
{
    if from < 0 || from >= bytes.len() {
        None
    } else if bytes[from] == SENTINEL_BYTE {
        Some(from)
    } else {
        sentinel_from(bytes, from + 1)
    }
}

/// What stands between the first two sentinels of `bytes`.
pub open spec fn framed(bytes: Seq<u8>) -> Option<Seq<u8>> {
    match sentinel_from(bytes, 0) {
        Some(opening) => match sentinel_from(bytes, opening + 1) {
            Some(closing) => Some(bytes.subrange(opening + 1, closing)),
            None => None,
        },
        None => None,
    }
}

/// What a chunk of bytes leads to.
#[derive(Debug, Clone, PartialEq, Eq)]
pub enum Fed {
    /// It completes a frame.
    Frame(String),
    /// No frame is complete and too many bytes are held.
    BufferOverflow,
    /// More bytes are needed.
    Pending,
}

/// `Fed`, as mathematical values.
pub enum FedView {
    Frame(Seq<char>),
    BufferOverflow,
    Pending,
}

impl View for Fed {
    type V = FedView;

    open spec fn view(&self) -> FedView {
        match *self {
            Fed::Frame(frame) => FedView::Frame(frame@),
            Fed::BufferOverflow => FedView::BufferOverflow,
            Fed::Pending => FedView::Pending,
        }
    }
}

/// What is held and what is told once `chunk` has come behind the bytes that
/// are `held`. A complete frame is handed out and all bytes are dropped, those
/// behind the frame too. A frame goes before the limit.
pub open spec fn fed(held: Seq<u8>, chunk: Seq<u8>) -> (Seq<u8>, FedView) {
    let all = held + chunk;
    match framed(all) {
        Some(frame) => (seq![], FedView::Frame(lossy_text(frame))),
        None => if all.len() > MAX_RESPONSE_BYTES {
            (seq![], FedView::BufferOverflow)
        } else {
            (all, FedView::Pending)
        },
    }
}

proof fn lemma_sentinel_from(bytes: Seq<u8>, from: int)
    requires
        0 <= from,
    ensures
        match sentinel_from(bytes, from) {
            Some(i) => from <= i < bytes.len() && bytes[i] == SENTINEL_BYTE && forall|j: int|
                from <= j < i ==> #[trigger] bytes[j] != SENTINEL_BYTE,
            None => forall|j: int|
                from <= j < bytes.len() ==> #[trigger] bytes[j] != SENTINEL_BYTE,
        },
    decreases bytes.len() - from,
{
    if from < bytes.len() && bytes[from] != SENTINEL_BYTE {
        lemma_sentinel_from(bytes, from + 1);
    }
}

proof fn lemma_sentinel_is_first(bytes: Seq<u8>, from: int, i: int)
    requires
        0 <= from <= i < bytes.len(),
        bytes[i] == SENTINEL_BYTE,
        forall|j: int| from <= j < i ==> #[trigger] bytes[j] != SENTINEL_BYTE,
    ensures
        sentinel_from(bytes, from) == Some(i),
{
    lemma_sentinel_from(bytes, from);
    if let Some(k) = sentinel_from(bytes, from) {
        if k < i {
            assert(bytes[k] != SENTINEL_BYTE);
        }
    }
}

proof fn lemma_no_sentinel(bytes: Seq<u8>, from: int)
    requires
        0 <= from,
        forall|j: int| from <= j < bytes.len() ==> #[trigger] bytes[j] != SENTINEL_BYTE,
    ensures
        sentinel_from(bytes, from) == None::<int>,
{
    lemma_sentinel_from(bytes, from);
}

/// The bytes read so far towards a frame.
#[derive(Debug, Clone)]
pub struct PartialRead {
    buf: Vec<u8>,
    toggles: u8,
    frame_start: Option<usize>,
}

/// `PartialRead`, as mathematical values.
pub struct PartialReadView {
    /// The bytes that are held.
    pub held: Seq<u8>,
    /// How many sentinels are among them.
    pub toggles: int,
    /// The position behind the first of these.
    pub frame_start: Option<int>,
}

/// A read that holds these bytes, in which there are not two sentinels.
pub open spec fn reading(held: Seq<u8>) -> PartialReadView {
    match sentinel_from(held, 0) {
        Some(opening) => PartialReadView { held, toggles: 1, frame_start: Some(opening + 1) },
        None => PartialReadView { held, toggles: 0, frame_start: None },
    }
}

impl View for PartialRead {
    type V = PartialReadView;

    closed spec fn view(&self) -> PartialReadView {
        PartialReadView {
            held: self.buf@,
            toggles: self.toggles as int,
            frame_start: match self.frame_start {
                Some(start) => Some(start as int),
                None => None,
            },
        }
    }
}

impl PartialRead {
    /// Whether the sentinels among the bytes are counted rightly, and neither a
    /// frame nor too many bytes are held.
    pub open spec fn wf(&self) -> bool {
        &&& self@ == reading(self@.held)
        &&& framed(self@.held).is_none()
        &&& self@.held.len() <= MAX_RESPONSE_BYTES
    }

    /// Nothing read yet.
    pub fn new() -> (r: Self)
        ensures
            r.wf(),
            r@ == reading(seq![]),
    {
        PartialRead { buf: Vec::new(), toggles: 0, frame_start: None }
    }

    /// Forgets what was read.
    pub fn reset(&mut self)
        ensures
            final(self).wf(),
            final(self)@ == reading(seq![]),
    {
        self.buf.clear();
        self.toggles = 0;
        self.frame_start = None;
    }

    /// Takes a chunk behind what was read.
    pub fn feed(&mut self, chunk: &[u8]) -> (r: Fed)
        requires
            old(self).wf(),
        ensures
            final(self).wf(),
            final(self)@ == reading(fed(old(self)@.held, chunk@).0),
            r@ == fed(old(self)@.held, chunk@).1,
    {
        let base: usize = self.buf.len();
        let ghost held = self.buf@;
        proof {
            lemma_sentinel_from(held, 0);
            if let Some(opening) = sentinel_from(held, 0) {
                lemma_sentinel_from(held, opening + 1);
            }
        }
        self.buf.extend_from_slice(chunk);
        let ghost all = held + chunk@;
        assert(self.buf@ =~= all);
        let mut idx: usize = base;
        while idx < self.buf.len()
            invariant
                self.buf@ == all,
                base <= idx <= all.len(),
                match self.frame_start {
                    Some(start) => {
                        &&& self.toggles == 1
                        &&& 0 < start <= idx
                        &&& all[start - 1] == SENTINEL_BYTE
                        &&& forall|j: int|
                            0 <= j < idx && j != start - 1 ==> #[trigger] all[j] != SENTINEL_BYTE
                    },
                    None => {
                        &&& self.toggles == 0
                        &&& forall|j: int| 0 <= j < idx ==> #[trigger] all[j] != SENTINEL_BYTE
                    },
                },
                fed(old(self)@.held, chunk@) == fed(held, chunk@),
                all == held + chunk@,
            decreases all.len() - idx,
        {
            if self.buf[idx] == SENTINEL_BYTE {
                match self.frame_start {
                    Some(start) => {
                        let bytes: &[u8] = vstd::slice::slice_subrange(
                            self.buf.as_slice(),
                            start,
                            idx,
                        );
                        let frame: String = decode_lossy(bytes);
                        proof {
                            lemma_sentinel_is_first(all, 0, start - 1);
                            lemma_sentinel_is_first(all, start as int, idx as int);
                        }
                        self.reset();
                        return Fed::Frame(frame);
                    },
                    None => {
                        self.toggles = 1;
                        self.frame_start = Some(idx + 1);
                    },
                }
            }
            idx += 1;
        }
        proof {
            match self.frame_start {
                Some(start) => {
                    lemma_sentinel_is_first(all, 0, start - 1);
                    lemma_no_sentinel(all, start as int);
                },
                None => {
                    lemma_no_sentinel(all, 0);
                },
            }
        }
        if self.buf.len() > MAX_RESPONSE_BYTES {
            self.reset();
            return Fed::BufferOverflow;
        }
        Fed::Pending
    }
}

/// How a read towards a frame ends.
#[derive(Debug, Clone, PartialEq, Eq)]
pub enum FramedRead {
    /// A frame came.
    Frame(String),
    /// The time ran out before a frame was complete.
    Timeout,
    /// Too many bytes came without a frame.
    BufferOverflow,
}

/// `FramedRead`, as mathematical values.
pub enum FramedReadView {
    Frame(Seq<char>),
    Timeout,
    BufferOverflow,
}

impl View for FramedRead {
    type V = FramedReadView;

    open spec fn view(&self) -> FramedReadView {
        match *self {
            FramedRead::Frame(frame) => FramedReadView::Frame(frame@),
            FramedRead::Timeout => FramedReadView::Timeout,
            FramedRead::BufferOverflow => FramedReadView::BufferOverflow,
        }
    }
}

/// What happens while a reply is awaited.
#[derive(Debug, Clone, PartialEq, Eq)]
pub enum ReadEvent {
    /// The deadline has passed.
    Expired,
    /// Nothing came in this turn.
    Nothing,
    /// These bytes came.
    Chunk(Vec<u8>),
}

/// The longest single wait for bytes, in milliseconds.
pub const READ_STEP_MS: u64 = 200;

/// What is `remaining`, but never more than one step. Nothing is left of no time.
pub open spec fn step_within(remaining: Timeout) -> Option<Timeout> {
    if remaining.nanos == 0 {
        None
    } else if budget::millis(READ_STEP_MS) < remaining.nanos {
        Some(Timeout { nanos: budget::millis(READ_STEP_MS) as u128 })
    } else {
        Some(remaining)
    }
}

/// All that is `remaining`. Nothing is left of no time.
pub open spec fn all_of(remaining: Timeout) -> Option<Timeout> {
    if remaining.nanos == 0 {
        None
    } else {
        Some(remaining)
    }
}

/// How long to wait for bytes in the next turn when `remaining` is left until
/// the deadline: all of it, but never more than one step. No turn is left once
/// the deadline has come.
pub fn read_wait(remaining: Timeout) -> (r: Option<Timeout>)
    ensures
        r == step_within(remaining),
{
    if remaining.nanos == 0 {
        None
    } else {
        Some(remaining.shorter(Timeout::from_millis(READ_STEP_MS)))
    }
}

/// How long to wait for bytes in the next turn of a read that only drops them:
/// all that is left until the deadline.
pub fn echo_wait(remaining: Timeout) -> (r: Option<Timeout>)
    ensures
        r == all_of(remaining),
{
    if remaining.nanos == 0 {
        None
    } else {
        Some(remaining)
    }
}

/// How long to wait for bytes in the next turn while a shell starts: one step,
/// even where less is left until the deadline.
pub fn startup_wait(remaining: Timeout) -> (r: Option<Timeout>)
    ensures
        r.is_none() <==> remaining.nanos == 0,
        r matches Some(step) ==> step.nanos == budget::millis(READ_STEP_MS),
{
    if remaining.nanos == 0 {
        None
    } else {
        Some(Timeout::from_millis(READ_STEP_MS))
    }
}

/// What is held and how the read ends, if it does, once `event` has happened.
/// When the time runs out, what was read is kept for the next read.
pub open spec fn read_on(held: Seq<u8>, event: ReadEvent) -> (Seq<u8>, Option<FramedReadView>) {
    match event {
        ReadEvent::Expired => (held, Some(FramedReadView::Timeout)),
        ReadEvent::Nothing => (held, None),
        ReadEvent::Chunk(chunk) => match fed(held, chunk@) {
            (kept, FedView::Frame(frame)) => (kept, Some(FramedReadView::Frame(frame))),
            (kept, FedView::BufferOverflow) => (kept, Some(FramedReadView::BufferOverflow)),
            (kept, FedView::Pending) => (kept, None),
        },
    }
}

impl PartialRead {
    /// One turn of a read towards a frame. Returns how the read ends, or `None`
    /// where it goes on.
    pub fn read_framed_response(&mut self, event: &ReadEvent) -> (r: Option<FramedRead>)
        requires
            old(self).wf(),
        ensures
            final(self).wf(),
            final(self)@ == reading(read_on(old(self)@.held, *event).0),
            r.is_some() <==> read_on(old(self)@.held, *event).1.is_some(),
            r.is_some() ==> Some(r.unwrap()@) == read_on(old(self)@.held, *event).1,
    {
        match event {
            ReadEvent::Expired => Some(FramedRead::Timeout),
            ReadEvent::Nothing => None,
            ReadEvent::Chunk(chunk) => match self.feed(chunk.as_slice()) {
                Fed::Frame(frame) => Some(FramedRead::Frame(frame)),
                Fed::BufferOverflow => Some(FramedRead::BufferOverflow),
                Fed::Pending => None,
            },
        }
    }
}

/// A line without the carriage return that belongs to its end.
pub open spec fn without_return(line: Seq<char>) -> Seq<char> {
    if line.len() > 0 && line.last() == '\r' {
        line.drop_last()
    } else {
        line
    }
}

/// Whether one of the lines of `rest` is `needle`, where `line` begins the
/// first of them. A line ends with `\n` or `\r\n`, and nothing else is taken
/// off it. What follows the last line end is a line unless it is empty.
pub open spec fn line_among(line: Seq<char>, rest: Seq<char>, needle: Seq<char>) -> bool
    decreases rest.len(),
{
    if rest.len() == 0 {
        line.len() > 0 && line == needle
    } else if rest[0] == '\n' {
        without_return(line) == needle || line_among(seq![], rest.skip(1), needle)
    } else {
        line_among(line.push(rest[0]), rest.skip(1), needle)
    }
}

/// Whether `needle` is a line of `haystack`.
pub open spec fn has_line(haystack: Seq<char>, needle: Seq<char>) -> bool {
    line_among(seq![], haystack, needle)
}

/// Tells whether the first `end` characters of a line are `needle`.
fn begins_as(line: &Vec<char>, end: usize, needle: &Vec<char>) -> (b: bool)
    requires
        end <= line@.len(),
    ensures
        b == (line@.take(end as int) == needle@),
{
    if end != needle.len() {
        return false;
    }
    let mut i: usize = 0;
    while i < end
        invariant
            i <= end,
            end <= line@.len(),
            end == needle@.len(),
            forall|j: int| 0 <= j < i ==> line@[j] == needle@[j],
        decreases end - i,
    {
        if line[i] != needle[i] {
            assert(line@.take(end as int)[i as int] != needle@[i as int]);
            return false;
        }
        i += 1;
    }
    assert(line@.take(end as int) =~= needle@);
    true
}

/// Tells whether a line that a line feed ends is `needle`.
fn line_is(line: &Vec<char>, needle: &Vec<char>) -> (b: bool)
    ensures
        b == (without_return(line@) == needle@),
{
    let mut end: usize = line.len();
    if end > 0 && line[end - 1] == '\r' {
        end -= 1;
    }
    assert(without_return(line@) =~= line@.take(end as int));
    begins_as(line, end, needle)
}

/// Tells whether `needle` is a line of `haystack`.
pub fn text_contains_line(haystack: &str, needle: &str) -> (b: bool)
    ensures
        b == has_line(haystack@, needle@),
{
    let chars: Vec<char> = chars_of(haystack);
    let wanted: Vec<char> = chars_of(needle);
    let mut line: Vec<char> = Vec::new();
    let mut i: usize = 0;
    assert(haystack@.skip(0) =~= haystack@);
    while i < chars.len()
        invariant
            i <= chars@.len(),
            chars@ == haystack@,
            wanted@ == needle@,
            line_among(line@, haystack@.skip(i as int), needle@) == has_line(haystack@, needle@),
        decreases chars@.len() - i,
    {
        assert(haystack@.skip(i as int).skip(1) =~= haystack@.skip(i + 1));
        if chars[i] == '\n' {
            if line_is(&line, &wanted) {
                return true;
            }
            line = Vec::new();
        } else {
            line.push(chars[i]);
        }
        i += 1;
    }
    assert(haystack@.skip(i as int) =~= seq![]);
    assert(line@.take(line@.len() as int) =~= line@);
    line.len() > 0 && begins_as(&line, line.len(), &wanted)
}

/// Tells whether `needle` is a line of what `haystack` decodes to.
pub fn contains_line(haystack: &[u8], needle: &str) -> (b: bool)
    ensures
        b == has_line(lossy_text(haystack@), needle@),
{
    let decoded: String = decode_lossy(haystack);
    text_contains_line(decoded.as_str(), needle)
}

/// What is held and whether the shell is ready, if that is known, once `event`
/// has happened while it starts.
pub open spec fn startup_on(held: Seq<u8>, event: ReadEvent) -> (Seq<u8>, Option<bool>) {
    match event {
        ReadEvent::Expired => (held, Some(false)),
        ReadEvent::Nothing => (held, None),
        ReadEvent::Chunk(chunk) => {
            let all = held + chunk@;
            (
                all,
                if has_line(lossy_text(all), READY_MARKER@) {
                    Some(true)
                } else {
                    None
                },
            )
        },
    }
}

/// One turn of the wait for the shell to start. `held` is all that it printed
/// so far. Returns whether it is ready, or `None` where the wait goes on.
pub fn startup_turn(held: &mut Vec<u8>, event: &ReadEvent) -> (r: Option<bool>)
    ensures
        (final(held)@, r) == startup_on(old(held)@, *event),
{
    match event {
        ReadEvent::Expired => Some(false),
        ReadEvent::Nothing => None,
        ReadEvent::Chunk(chunk) => {
            let ghost before = held@;
            held.extend_from_slice(chunk.as_slice());
            assert(held@ =~= before + chunk@);
            if contains_line(held.as_slice(), READY_MARKER) {
                Some(true)
            } else {
                None
            }
        },
    }
}

proof fn lemma_frame_stays(all: Seq<u8>, more: Seq<u8>)
    requires
        framed(all).is_some(),
    ensures
        framed(all + more) == framed(all),
{
    let longer = all + more;
    lemma_sentinel_from(all, 0);
    let opening = sentinel_from(all, 0).unwrap();
    lemma_sentinel_from(all, opening + 1);
    let closing = sentinel_from(all, opening + 1).unwrap();
    assert forall|j: int| 0 <= j < opening implies #[trigger] longer[j] != SENTINEL_BYTE by {
        assert(longer[j] == all[j]);
    }
    lemma_sentinel_is_first(longer, 0, opening);
    assert forall|j: int| opening + 1 <= j < closing implies #[trigger] longer[j]
        != SENTINEL_BYTE by {
        assert(longer[j] == all[j]);
    }
    lemma_sentinel_is_first(longer, opening + 1, closing);
    assert(longer.subrange(opening + 1, closing) =~= all.subrange(opening + 1, closing));
}

/// What a series of chunks leads to: they are taken in order until one ends the
/// read.
pub open spec fn fed_all(held: Seq<u8>, chunks: Seq<Seq<u8>>) -> (Seq<u8>, FedView)
    decreases chunks.len(),
{
    if chunks.len() == 0 {
        (held, FedView::Pending)
    } else {
        match fed(held, chunks[0]) {
            (kept, FedView::Pending) => fed_all(kept, chunks.skip(1)),
            ended => ended,
        }
    }
}

/// The bytes of `chunks`, one behind the other.
pub open spec fn concatenated(chunks: Seq<Seq<u8>>) -> Seq<u8>
    decreases chunks.len(),
{
    if chunks.len() == 0 {
        seq![]
    } else {
        chunks[0] + concatenated(chunks.skip(1))
    }
}

/// It does not matter how the bytes are cut into chunks. A frame that the
/// chunks lead to is the one between the first two sentinels of all the bytes,
/// and where the read goes on, the bytes that are held are all of them and hold
/// no frame.
pub proof fn law_chunks_do_not_matter(held: Seq<u8>, chunks: Seq<Seq<u8>>)
    requires
        framed(held).is_none(),
        held.len() <= MAX_RESPONSE_BYTES,
    ensures
        match fed_all(held, chunks) {
            (kept, FedView::Frame(frame)) => {
                &&& kept.len() == 0
                &&& framed(held + concatenated(chunks)) matches Some(bytes)
                &&& frame == lossy_text(bytes)
            },
            (kept, FedView::BufferOverflow) => {
                &&& kept.len() == 0
                &&& (held + concatenated(chunks)).len() > MAX_RESPONSE_BYTES
            },
            (kept, FedView::Pending) => {
                &&& kept == held + concatenated(chunks)
                &&& kept.len() <= MAX_RESPONSE_BYTES
                &&& framed(kept).is_none()
            },
        },
    decreases chunks.len(),
{
    let all = held + concatenated(chunks);
    if chunks.len() == 0 {
        assert(all =~= held);
    } else {
        let more = concatenated(chunks.skip(1));
        let first = held + chunks[0];
        assert(all =~= first + more);
        if framed(first).is_some() {
            lemma_frame_stays(first, more);
        } else if first.len() <= MAX_RESPONSE_BYTES {
            law_chunks_do_not_matter(first, chunks.skip(1));
        }
    }
}

/// A frame whose opening sentinel came before a read ran out of time is
/// complete as soon as the closing sentinel comes in a later read.
pub proof fn law_frame_spans_reads(before: Seq<u8>, after: Seq<u8>, tail: Seq<u8>)
    requires
        forall|j: int| 0 <= j < before.len() ==> #[trigger] before[j] != SENTINEL_BYTE,
        forall|j: int| 0 <= j < after.len() ==> #[trigger] after[j] != SENTINEL_BYTE,
    ensures
        fed(before.push(SENTINEL_BYTE), after.push(SENTINEL_BYTE) + tail) == (
            Seq::<u8>::empty(),
            FedView::Frame(lossy_text(after)),
        ),
{
    let all = before.push(SENTINEL_BYTE) + (after.push(SENTINEL_BYTE) + tail);
    let opening = before.len() as int;
    let closing = opening + 1 + after.len();
    lemma_sentinel_is_first(all, 0, opening);
    assert forall|j: int| opening + 1 <= j < closing implies #[trigger] all[j] != SENTINEL_BYTE by {
        assert(all[j] == after[j - opening - 1]);
    }
    lemma_sentinel_is_first(all, opening + 1, closing);
    assert(all.subrange(opening + 1, closing) =~= after);
}

/// Whether no byte of `bytes` is zero.
pub open spec fn without_zero(bytes: Seq<u8>) -> bool {
    forall|j: int| 0 <= j < bytes.len() ==> #[trigger] bytes[j] != 0
}

/// The frame is what stands between the first two zero bytes, however the bytes
/// came: whatever stands before the first and behind the second is dropped, and
/// nothing is held any longer. How many bytes came makes no difference.
pub proof fn law_frame_stands_between_the_first_two_zeros(
    held: Seq<u8>,
    chunk: Seq<u8>,
    before: Seq<u8>,
    frame: Seq<u8>,
    behind: Seq<u8>,
)
    requires
        without_zero(before),
        without_zero(frame),
        held + chunk == before + seq![0u8] + frame + seq![0u8] + behind,
    ensures
        fed(held, chunk) == (Seq::<u8>::empty(), FedView::Frame(lossy_text(frame))),
{
    let all = before + seq![0u8] + frame + seq![0u8] + behind;
    let opening = before.len() as int;
    let closing = opening + 1 + frame.len();
    assert forall|j: int| 0 <= j < opening implies #[trigger] all[j] != SENTINEL_BYTE by {
        assert(all[j] == before[j]);
    }
    lemma_sentinel_is_first(all, 0, opening);
    assert forall|j: int| opening + 1 <= j < closing implies #[trigger] all[j] != SENTINEL_BYTE by {
        assert(all[j] == frame[j - opening - 1]);
    }
    lemma_sentinel_is_first(all, opening + 1, closing);
    assert(all.subrange(opening + 1, closing) =~= frame);
}

/// Without a second zero byte there is no frame yet: all bytes are held for the
/// next read, unless they are more than four mebibytes, in which case they are
/// dropped and the read is given up.
pub proof fn law_one_zero_is_no_frame(
    held: Seq<u8>,
    chunk: Seq<u8>,
    before: Seq<u8>,
    behind: Seq<u8>,
)
    requires
        without_zero(before),
        without_zero(behind),
        held + chunk == before + behind || held + chunk == before + seq![0u8] + behind,
    ensures
        (held + chunk).len() <= 4 * 1024 * 1024 ==> fed(held, chunk) == (
            held + chunk,
            FedView::Pending,
        ),
        (held + chunk).len() > 4 * 1024 * 1024 ==> fed(held, chunk) == (
            Seq::<u8>::empty(),
            FedView::BufferOverflow,
        ),
{
    let all = held + chunk;
    let n = before.len() as int;
    lemma_sentinel_from(all, 0);
    if let Some(opening) = sentinel_from(all, 0) {
        if all == before + behind {
            if opening < n {
                assert(before[opening] == 0);
            } else {
                assert(behind[opening - n] == 0);
            }
        } else {
            if opening < n {
                assert(before[opening] == 0);
            } else if opening > n {
                assert(all[n] == 0);
            }
            lemma_sentinel_from(all, opening + 1);
            if let Some(closing) = sentinel_from(all, opening + 1) {
                assert(behind[closing - n - 1] == 0);
            }
        }
    }
}

/// A read whose time runs out keeps what it has for the next one, and a turn in
/// which nothing comes changes nothing. Bytes that come are fed to it: a frame
/// and an overflow end it, and otherwise it goes on.
pub proof fn law_read_goes_on_until_something_ends_it(held: Seq<u8>, chunk: Vec<u8>)
    ensures
        read_on(held, ReadEvent::Expired) == (held, Some(FramedReadView::Timeout)),
        read_on(held, ReadEvent::Nothing) == (held, None::<FramedReadView>),
        read_on(held, ReadEvent::Chunk(chunk)).0 == fed(held, chunk@).0,
        match fed(held, chunk@).1 {
            FedView::Frame(frame) => read_on(held, ReadEvent::Chunk(chunk)).1 == Some(
                FramedReadView::Frame(frame),
            ),
            FedView::BufferOverflow => read_on(held, ReadEvent::Chunk(chunk)).1 == Some(
                FramedReadView::BufferOverflow,
            ),
            FedView::Pending => read_on(held, ReadEvent::Chunk(chunk)).1.is_none(),
        },
{
}

proof fn lemma_line_among_begun(line: Seq<char>, more: Seq<char>, rest: Seq<char>, needle: Seq<char>)
    requires
        !more.contains('\n'),
    ensures
        line_among(line, more + rest, needle) == line_among(line + more, rest, needle),
    decreases more.len(),
{
    let all = more + rest;
    if more.len() == 0 {
        assert(all =~= rest);
        assert(line + more =~= line);
    } else {
        assert(more.contains(more[0]));
        assert forall|c: char| more.skip(1).contains(c) implies more.contains(c) by {
            let k = choose|k: int| 0 <= k < more.skip(1).len() && more.skip(1)[k] == c;
            assert(more[k + 1] == c);
        }
        lemma_line_among_begun(line.push(more[0]), more.skip(1), rest, needle);
        assert(all.skip(1) =~= more.skip(1) + rest);
        assert(line.push(more[0]) + more.skip(1) =~= line + more);
    }
}

/// A text is searched line by line. A line that a line feed ends is the one that
/// is sought where the two are the same, or differ by one carriage return before
/// the line feed, and otherwise one of the lines behind it must be. A blank
/// before or behind it, or anything else around it, makes it another line.
pub proof fn law_lines_are_searched_one_by_one(line: Seq<char>, rest: Seq<char>, needle: Seq<char>)
    requires
        !line.contains('\n'),
    ensures
        has_line(line + seq!['\n'] + rest, needle) <==> line == needle.push('\r') || (line == needle
            && !(line.len() > 0 && line.last() == '\r')) || has_line(rest, needle),
        has_line(line, needle) <==> line.len() > 0 && line == needle,
{
    let end = seq!['\n'] + rest;
    let none: Seq<char> = seq![];
    assert(line + seq!['\n'] + rest =~= line + end);
    lemma_line_among_begun(none, line, end, needle);
    assert(none + line =~= line);
    assert(end.skip(1) =~= rest);
    lemma_line_among_begun(none, line, none, needle);
    assert(line + none =~= line);
    if line.len() > 0 && line.last() == '\r' {
        assert(line =~= line.drop_last().push('\r'));
        if line == needle.push('\r') {
            assert(line.drop_last() =~= needle);
        }
    } else if line == needle.push('\r') {
        assert(line.last() == '\r');
    }
}

/// A shell that starts is ready as soon as the line `jarvish_daemon_ok` is among
/// all that it printed so far. It is not ready where the time runs out first,
/// and all that it prints is kept.
pub proof fn law_shell_is_ready_once_it_says_so(held: Seq<u8>, chunk: Vec<u8>)
    ensures
        ({
            let (kept, ready) = startup_on(held, ReadEvent::Chunk(chunk));
            &&& kept == held + chunk@
            &&& ready == Some(true) <==> has_line(lossy_text(held + chunk@), "jarvish_daemon_ok"@)
            &&& ready == Some(true) || ready.is_none()
        }),
        startup_on(held, ReadEvent::Expired) == (held, Some(false)),
        startup_on(held, ReadEvent::Nothing) == (held, None::<bool>),
{
}

/// A turn of a read takes at most a fifth of a second and no more than what is
/// left, one that only drops bytes may take all that is left, and none is taken
/// once nothing is left.
pub proof fn law_turns_keep_within_the_time(remaining: Timeout)
    ensures
        remaining.nanos == 0 ==> step_within(remaining).is_none() && all_of(remaining).is_none(),
        remaining.nanos > 0 ==> all_of(remaining) == Some(remaining),
        remaining.nanos > 0 ==> (step_within(remaining) matches Some(step) && 0 < step.nanos
            <= remaining.nanos && step.nanos <= 200_000_000 && (step.nanos == remaining.nanos
            || step.nanos == 200_000_000)),
{
}

} // verus!
