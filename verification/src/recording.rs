//! What a pane wrote, with the time of each chunk, for playing back.
use crate::clock;
use crate::json;
use crate::json::json_string;
use crate::rawtext;
use crate::rawtext::text_of_bytes;
use crate::seqops::copied;
use crate::text;
use crate::text::push_decimal;
use std::collections::VecDeque;
use vstd::prelude::*;
use vstd::string::StringExecFns;

verus! {

/// How many chunks a recording keeps unless told otherwise.
pub const DEFAULT_MAX_EVENTS: usize = 50000;

/// One chunk.
#[derive(Debug, PartialEq, Eq)]
pub struct PaneEvent {
    /// Milliseconds since the recording began.
    pub ts_ms: u64,
    pub bytes: Vec<u8>,
}

/// The contents of a [`PaneEvent`].
#[verifier::ext_equal]
pub struct PaneEventView {
    pub ts_ms: u64,
    pub bytes: Seq<u8>,
}

impl View for PaneEvent {
    type V = PaneEventView;

    open spec fn view(&self) -> PaneEventView {
        PaneEventView { ts_ms: self.ts_ms, bytes: self.bytes@ }
    }
}

impl Clone for PaneEvent {
    fn clone(&self) -> (r: PaneEvent)
        ensures
            r@ == self@,
    {
        PaneEvent { ts_ms: self.ts_ms, bytes: copied(&self.bytes) }
    }
}

/// The contents of a list of chunks.
pub open spec fn events_view(s: Seq<PaneEvent>) -> Seq<PaneEventView> {
    Seq::new(s.len(), |i: int| s[i]@)
}

/// When a recording began, by both clocks.
#[derive(Debug, Clone, Copy)]
struct Start {
    at: std::time::Instant,
    unix_ms: u64,
}

/// The recording of a pane.
#[derive(Debug)]
pub struct PaneRecording {
    /// The start of the recording that runs.
    running: Option<Start>,
    /// The start of the last recording that was stopped, by the wall clock.
    stopped_unix_ms: Option<u64>,
    events: VecDeque<PaneEvent>,
    max_events: usize,
    cols: u16,
    rows: u16,
}

/// The contents of a [`PaneRecording`].
#[verifier::ext_equal]
pub struct RecordingView {
    /// The steady clock when the recording that runs began.
    pub started: Option<std::time::Instant>,
    /// The wall clock, in milliseconds, when the recording that runs began.
    pub anchor: Option<u64>,
    /// The wall clock, in milliseconds, when what is held began to be recorded.
    pub began: Option<u64>,
    pub events: Seq<PaneEventView>,
    pub max_events: int,
    pub cols: u16,
    pub rows: u16,
}

impl View for PaneRecording {
    type V = RecordingView;

    closed spec fn view(&self) -> RecordingView {
        RecordingView {
            started: match self.running {
                Some(s) => Some(s.at),
                None => None,
            },
            anchor: match self.running {
                Some(s) => Some(s.unix_ms),
                None => None,
            },
            began: match self.running {
                Some(s) => Some(s.unix_ms),
                None => self.stopped_unix_ms,
            },
            events: events_view(self.events@),
            max_events: self.max_events as int,
            cols: self.cols,
            rows: self.rows,
        }
    }
}

/// The text of a number of milliseconds as seconds: a decimal fraction with one
/// digit behind the point at least and no zero at the end beyond it.
pub open spec fn seconds(ms: nat) -> Seq<char> {
    text::decimal(ms / 1000) + seq!['.'] + fraction(ms % 1000)
}

/// The digits of thousandths, without zeros at the end but for the first digit.
pub open spec fn fraction(f: nat) -> Seq<char> {
    let a = text::digit_char((f / 100) as int);
    let b = text::digit_char((f / 10 % 10) as int);
    let c = text::digit_char((f % 10) as int);
    if f % 100 == 0 {
        seq![a]
    } else if f % 10 == 0 {
        seq![a, b]
    } else {
        seq![a, b, c]
    }
}

/// A row of output: its time in seconds, its kind, and its text.
pub open spec fn output_row(ms: nat, text: Seq<char>) -> Seq<char> {
    seq!['['] + seconds(ms) + ",\"o\","@ + json::quoted(text) + seq![']']
}

/// One line of an exported recording.
pub open spec fn cast_line(e: PaneEventView) -> Seq<char> {
    output_row(e.ts_ms as nat, rawtext::lossless_text(e.bytes)) + "\n"@
}

/// A row of output is a JSON array of a number and two texts.
pub proof fn lemma_output_row_is_a_triple(ms: nat, text: Seq<char>)
    ensures
        output_row(ms, text) == json::triple(seconds(ms), "o"@, text),
        output_row(ms, text)[0] == '[',
{
    reveal_strlit(",\"o\",");
    reveal_strlit("o");
    assert("o"@ =~= seq!['o']);
    assert(json::escaped("o"@) =~= seq!['o']) by {
        assert(seq!['o'].drop_last() =~= Seq::<char>::empty());
        assert(json::escaped(Seq::<char>::empty()) =~= Seq::<char>::empty());
    }
    assert(json::quoted("o"@) =~= seq!['"', 'o', '"']);
    assert(output_row(ms, text) =~= json::triple(seconds(ms), "o"@, text));
}

pub open spec fn cast_lines(s: Seq<PaneEventView>) -> Seq<char>
    decreases s.len(),
{
    if s.len() == 0 {
        Seq::empty()
    } else {
        cast_lines(s.drop_last()) + cast_line(s.last())
    }
}

impl RecordingView {
    pub open spec fn start(max_events: int) -> RecordingView {
        RecordingView {
            started: None,
            anchor: None,
            began: None,
            events: Seq::empty(),
            max_events,
            cols: 80,
            rows: 24,
        }
    }

    /// A recording that runs has a start by both clocks, and what it holds began
    /// there; no more chunks are held than are to be kept.
    pub open spec fn wf(self) -> bool {
        &&& self.started is Some == self.anchor is Some
        &&& self.anchor is Some ==> self.began == self.anchor
        &&& self.began is None ==> self.events.len() == 0
        &&& self.events.len() <= self.max_events
    }

    pub open spec fn enable(
        self,
        cols: u16,
        rows: u16,
        at: std::time::Instant,
        unix_ms: u64,
    ) -> RecordingView {
        RecordingView {
            started: Some(at),
            anchor: Some(unix_ms),
            began: Some(unix_ms),
            events: Seq::empty(),
            cols,
            rows,
            ..self
        }
    }

    pub open spec fn disable(self) -> RecordingView {
        RecordingView { started: None, anchor: None, ..self }
    }

    /// A chunk at a time; the oldest one goes when as many are held as are to be
    /// kept. Nothing is taken while the recording does not run, nor where nothing
    /// is to be kept.
    pub open spec fn push(self, bytes: Seq<u8>, ts_ms: u64) -> RecordingView {
        if self.started is None || self.max_events <= 0 {
            self
        } else {
            let held = if self.events.len() == self.max_events {
                self.events.drop_first()
            } else {
                self.events
            };
            RecordingView { events: held.push(PaneEventView { ts_ms, bytes }), ..self }
        }
    }

    /// The stamp of a chunk at a point of the steady clock: the milliseconds since
    /// the recording that runs began; none where it does not run.
    pub open spec fn stamp(self, now: std::time::Instant) -> u64 {
        match self.started {
            Some(at) => clock::millis_between(at, now),
            None => 0,
        }
    }

    /// The place of the first chunk not before `ts_ms`, or how many there are.
    pub open spec fn cursor(self, ts_ms: u64) -> int {
        first_from(self.events, ts_ms)
    }

    /// The chunks around a time: half of the limit before it.
    pub open spec fn around(self, ts_ms: u64, limit: int) -> Seq<PaneEventView> {
        let c = self.cursor(ts_ms);
        let from = if c >= limit / 2 {
            c - limit / 2
        } else {
            0
        };
        let to = if from + limit <= self.events.len() {
            from + limit
        } else {
            self.events.len() as int
        };
        self.events.subrange(from, to)
    }

    /// The recording as text: a header, then a line for each chunk. The time in
    /// the header is when the recording began, also of one that was stopped, or
    /// `now` where nothing was ever recorded.
    pub open spec fn cast(self, shell: Seq<char>, now: u64) -> Seq<char> {
        let at = match self.began {
            Some(ms) => ms / 1000,
            None => now,
        };
        "{\"env\":{\"SHELL\":"@ + json::quoted(shell)
            + ",\"TERM\":\"xterm-256color\"},\"height\":"@ + text::decimal(self.rows as nat)
            + ",\"timestamp\":"@ + text::decimal(at as nat) + ",\"version\":2,\"width\":"@
            + text::decimal(self.cols as nat) + "}\n"@ + cast_lines(self.events)
    }
}

pub open spec fn first_from(s: Seq<PaneEventView>, ts_ms: u64) -> int
    decreases s.len(),
{
    if s.len() == 0 || s[0].ts_ms >= ts_ms {
        0
    } else {
        1 + first_from(s.drop_first(), ts_ms)
    }
}

fn push_seconds(out: &mut String, ms: u64)
    ensures
        final(out)@ == old(out)@ + seconds(ms as nat),
{
    let ghost before = out@;
    let f: u64 = ms % 1000;
    push_decimal(out, (ms / 1000) as u128);
    out.push('.');
    push_decimal(out, (f / 100) as u128);
    proof {
        lemma_one_digit((f / 100) as nat);
        lemma_one_digit((f / 10 % 10) as nat);
        lemma_one_digit((f % 10) as nat);
    }
    if f % 100 == 0 {
        assert(out@ =~= before + seconds(ms as nat));
        return;
    }
    push_decimal(out, (f / 10 % 10) as u128);
    if f % 10 == 0 {
        assert(out@ =~= before + seconds(ms as nat));
        return;
    }
    push_decimal(out, (f % 10) as u128);
    assert(out@ =~= before + seconds(ms as nat));
}

proof fn lemma_one_digit(d: nat)
    requires
        d < 10,
    ensures
        text::decimal(d) == seq![text::digit_char(d as int)],
{
    reveal_with_fuel(text::decimal, 2);
    assert(text::decimal(d) =~= seq![text::digit_char(d as int)]);
}

impl PaneRecording {
    /// A recording that keeps this many chunks, and does not run.
    pub fn new(max_events: usize) -> (r: PaneRecording)
        ensures
            r@ == RecordingView::start(max_events as int),
    {
        let r = PaneRecording {
            running: None,
            stopped_unix_ms: None,
            events: VecDeque::new(),
            max_events,
            cols: 80,
            rows: 24,
        };
        assert(r@.events =~= Seq::empty());
        r
    }

    /// Begins anew, with the size of the pane. Which times the clocks show is
    /// not known before they are read.
    pub fn enable(&mut self, cols: u16, rows: u16)
        ensures
            exists|at: std::time::Instant, t: std::time::SystemTime|
                final(self)@ == #[trigger] old(self)@.enable(cols, rows, at, clock::millis_of(t)),
    {
        let ghost before = self@;
        let at = std::time::Instant::now();
        let t = std::time::SystemTime::now();
        self.enable_at(cols, rows, at, clock::millis_at(t));
        assert(self@ == before.enable(cols, rows, at, clock::millis_of(t)));
    }

    /// Begins anew at a time by both clocks.
    pub fn enable_at(&mut self, cols: u16, rows: u16, at: std::time::Instant, unix_ms: u64)
        ensures
            final(self)@ == old(self)@.enable(cols, rows, at, unix_ms),
            final(self)@.started == Some(at),
    {
        self.running = Some(Start { at, unix_ms });
        self.events.clear();
        self.cols = cols;
        self.rows = rows;
        assert(self@.events =~= Seq::empty());
    }

    /// Stops; the chunks stay, and when they began to be recorded.
    pub fn disable(&mut self)
        ensures
            final(self)@ == old(self)@.disable(),
            final(self)@.started is None,
    {
        match self.running {
            Some(s) => {
                self.stopped_unix_ms = Some(s.unix_ms);
            },
            None => {},
        }
        self.running = None;
    }

    /// When the recording that runs began, by the wall clock.
    pub fn epoch_anchor(&self) -> (r: Option<u64>)
        ensures
            r == self@.anchor,
    {
        match self.running {
            Some(s) => Some(s.unix_ms),
            None => None,
        }
    }

    pub fn is_enabled(&self) -> (b: bool)
        ensures
            b == (self@.started is Some),
            b == (self@.anchor is Some),
    {
        self.running.is_some()
    }

    /// How many chunks are held.
    pub fn event_count(&self) -> (n: usize)
        ensures
            n == self@.events.len(),
    {
        self.events.len()
    }

    /// Takes a chunk, at the time since the recording began. Which time the clock
    /// shows is not known before it is read.
    pub fn push(&mut self, bytes: &[u8])
        ensures
            old(self)@.started is Some ==> exists|now: std::time::Instant|
                final(self)@ == #[trigger] old(self)@.push(
                    bytes@,
                    clock::millis_between(old(self)@.started->0, now),
                ),
            old(self)@.started is None ==> final(self)@ == old(self)@,
    {
        let ghost before = self@;
        if self.running.is_some() {
            let now = std::time::Instant::now();
            self.push_when(bytes, now);
            assert(self@ == before.push(bytes@, clock::millis_between(before.started->0, now)));
        }
    }

    /// Takes a chunk at a point of the steady clock: its time is the milliseconds
    /// from where the recording began to that point.
    pub fn push_when(&mut self, bytes: &[u8], now: std::time::Instant)
        ensures
            final(self)@ == old(self)@.push(bytes@, old(self)@.stamp(now)),
    {
        let ts_ms: u64 = self.stamp(now);
        self.push_at(bytes, ts_ms);
    }

    /// The milliseconds from where the recording that runs began to a point of the
    /// steady clock; none where it does not run.
    pub fn stamp(&self, now: std::time::Instant) -> (r: u64)
        ensures
            r == self@.stamp(now),
    {
        match self.running {
            Some(s) => clock::millis_from(s.at, now),
            None => 0,
        }
    }

    /// Takes a chunk at a time.
    pub fn push_at(&mut self, bytes: &[u8], ts_ms: u64)
        ensures
            final(self)@ == old(self)@.push(bytes@, ts_ms),
    {
        if self.running.is_none() || self.max_events == 0 {
            return;
        }
        let ghost before = events_view(self.events@);
        if self.events.len() == self.max_events {
            let _ = self.events.pop_front();
            assert(events_view(self.events@) =~= before.drop_first());
        }
        let ghost held = events_view(self.events@);
        let copy = vstd::slice::slice_to_vec(bytes);
        self.events.push_back(PaneEvent { ts_ms, bytes: copy });
        assert(events_view(self.events@) =~= held.push(PaneEventView { ts_ms, bytes: bytes@ }));
    }

    /// Up to `limit` chunks around a time.
    pub fn read_around(&self, ts_ms: u64, limit: usize) -> (r: Vec<PaneEvent>)
        ensures
            events_view(r@) == self@.around(ts_ms, limit as int),
    {
        let n: usize = self.events.len();
        let ghost all = self@.events;
        let mut c: usize = 0;
        assert(all.skip(0) =~= all);
        while c < n && self.events[c].ts_ms < ts_ms
            invariant
                c <= n == self.events@.len(),
                all == events_view(self.events@),
                first_from(all, ts_ms) == c + first_from(all.skip(c as int), ts_ms),
            decreases n - c,
        {
            assert(all.skip(c as int)[0] == self.events@[c as int]@);
            assert(all.skip(c as int).drop_first() =~= all.skip(c as int + 1));
            c = c + 1;
        }
        proof {
            if c < n {
                assert(all.skip(c as int)[0] == self.events@[c as int]@);
            }
        }
        let half: usize = limit / 2;
        let from: usize = if c >= half {
            c - half
        } else {
            0
        };
        let to: usize = if limit <= n - from {
            from + limit
        } else {
            n
        };
        let mut r: Vec<PaneEvent> = Vec::new();
        let mut i: usize = from;
        while i < to
            invariant
                from <= i <= to <= n == self.events@.len(),
                r@.len() == i - from,
                forall|j: int|
                    0 <= j < r@.len() ==> (#[trigger] r@[j])@ == self.events@[from + j]@,
            decreases to - i,
        {
            r.push(self.events[i].clone());
            i = i + 1;
        }
        assert(events_view(r@) =~= all.subrange(from as int, to as int));
        r
    }

    /// The recording as text, for the shell it was made in.
    pub fn to_cast_json(&self, shell: &str, now: u64) -> (r: String)
        ensures
            r@ == self@.cast(shell@, now),
    {
        let began: Option<u64> = match self.running {
            Some(s) => Some(s.unix_ms),
            None => self.stopped_unix_ms,
        };
        let at: u64 = match began {
            Some(ms) => ms / 1000,
            None => now,
        };
        let mut out = String::from_str("{\"env\":{\"SHELL\":");
        out.append(json_string(shell).as_str());
        out.append(",\"TERM\":\"xterm-256color\"},\"height\":");
        push_decimal(&mut out, self.rows as u128);
        out.append(",\"timestamp\":");
        push_decimal(&mut out, at as u128);
        out.append(",\"version\":2,\"width\":");
        push_decimal(&mut out, self.cols as u128);
        out.append("}\n");
        let ghost head = out@;
        let ghost all = self@.events;
        let mut i: usize = 0;
        assert(all.take(0) =~= Seq::<PaneEventView>::empty());
        assert(out@ =~= head + cast_lines(all.take(0)));
        while i < self.events.len()
            invariant
                i <= self.events@.len(),
                all == events_view(self.events@),
                out@ == head + cast_lines(all.take(i as int)),
            decreases self.events@.len() - i,
        {
            let e = &self.events[i];
            let ghost before = out@;
            out.push('[');
            push_seconds(&mut out, e.ts_ms);
            out.append(",\"o\",");
            let chunk = text_of_bytes(e.bytes.as_slice());
            out.append(json_string(chunk.as_str()).as_str());
            out.push(']');
            out.append("\n");
            proof {
                let longer = all.take(i as int + 1);
                assert(longer.drop_last() =~= all.take(i as int));
                assert(longer.last() == e@);
                assert(out@ =~= before + cast_line(e@));
                assert(out@ =~= head + cast_lines(longer));
            }
            i = i + 1;
        }
        assert(all.take(i as int) =~= all);
        assert(out@ =~= self@.cast(shell@, now));
        out
    }
}

impl Default for PaneRecording {
    fn default() -> (r: PaneRecording)
        ensures
            r@ == RecordingView::start(DEFAULT_MAX_EVENTS as int),
    {
        PaneRecording::new(DEFAULT_MAX_EVENTS)
    }
}

/// A recording runs by both clocks or by none, and what it holds while it runs
/// began with it.
pub proof fn lemma_a_recording_runs_by_both_clocks(r: PaneRecording)
    ensures
        r@.started is Some == r@.anchor is Some,
        r@.anchor is Some ==> r@.began == r@.anchor,
{
}

/// What happens to a recording.
pub enum RecordingStep {
    Enable { cols: u16, rows: u16, at: std::time::Instant, unix_ms: u64 },
    Disable,
    Push { bytes: Seq<u8>, ts_ms: u64 },
}

impl RecordingView {
    pub open spec fn step(self, s: RecordingStep) -> RecordingView {
        match s {
            RecordingStep::Enable { cols, rows, at, unix_ms } => self.enable(
                cols,
                rows,
                at,
                unix_ms,
            ),
            RecordingStep::Disable => self.disable(),
            RecordingStep::Push { bytes, ts_ms } => self.push(bytes, ts_ms),
        }
    }

    pub open spec fn steps(self, s: Seq<RecordingStep>) -> RecordingView
        decreases s.len(),
    {
        if s.len() == 0 {
            self
        } else {
            self.steps(s.drop_last()).step(s.last())
        }
    }
}

/// Whatever happens to a recording, it never holds more chunks than it was made
/// for, none where it was made for none, and it runs exactly while it has a
/// start by both clocks.
pub proof fn lemma_recording_stays_within_its_cap(max_events: int, s: Seq<RecordingStep>)
    requires
        0 <= max_events,
    ensures
        RecordingView::start(max_events).steps(s).wf(),
        RecordingView::start(max_events).steps(s).max_events == max_events,
    decreases s.len(),
{
    if s.len() > 0 {
        lemma_recording_stays_within_its_cap(max_events, s.drop_last());
    }
}

/// A recording that runs and keeps anything holds the newest chunk; one that
/// does not run is left as it is.
pub proof fn lemma_recording_keeps_the_newest(r: RecordingView, bytes: Seq<u8>, ts_ms: u64)
    requires
        r.wf(),
    ensures
        r.push(bytes, ts_ms).wf(),
        r.started is Some && r.max_events >= 1 ==> r.push(bytes, ts_ms).events.last() == (
        PaneEventView { ts_ms, bytes }),
        r.started is None ==> r.push(bytes, ts_ms) == r,
{
}

/// The stamps of a recording that runs follow the steady clock: a chunk that is
/// taken no nearer to the start than another has no earlier stamp.
pub proof fn lemma_stamps_follow_the_clock(
    r: RecordingView,
    a: std::time::Instant,
    b: std::time::Instant,
)
    requires
        r.started is Some,
        clock::nanos_between(r.started->0, a) <= clock::nanos_between(r.started->0, b),
    ensures
        r.stamp(a) <= r.stamp(b),
{
}

/// A recording that is started again starts empty, and a stopped one keeps what
/// it holds.
pub proof fn lemma_restart_clears_and_stop_keeps(
    r: RecordingView,
    cols: u16,
    rows: u16,
    at: std::time::Instant,
    unix_ms: u64,
)
    ensures
        r.enable(cols, rows, at, unix_ms).events.len() == 0,
        r.disable().events == r.events,
        r.disable().anchor is None,
        r.disable().started is None,
{
}

/// A recording is exported alike before and after it is stopped: its header
/// names its start, whenever it is exported.
pub proof fn lemma_a_stopped_recording_keeps_its_start(
    r: RecordingView,
    shell: Seq<char>,
    now: u64,
    later: u64,
)
    requires
        r.wf(),
        r.anchor is Some,
    ensures
        r.disable().began == r.anchor,
        r.disable().cast(shell, later) == r.cast(shell, now),
{
}

/// Two chunks taken at one time are exported as one line only where they hold
/// the same bytes, whatever the bytes are.
pub proof fn lemma_lines_keep_the_bytes(a: PaneEventView, b: PaneEventView)
    requires
        a.ts_ms == b.ts_ms,
        cast_line(a) == cast_line(b),
    ensures
        a.bytes == b.bytes,
{
    let s = rawtext::lossless_text(a.bytes);
    let t = rawtext::lossless_text(b.bytes);
    let head = seq!['['] + seconds(a.ts_ms as nat) + ",\"o\","@ + seq!['"'];
    let tail = seq!['"', ']'] + "\n"@;
    assert(cast_line(a) =~= head + json::escaped(s) + tail);
    assert(cast_line(b) =~= head + json::escaped(t) + tail);
    let n = json::escaped(s).len() as int;
    assert(json::escaped(s) =~= cast_line(a).subrange(head.len() as int, head.len() + n));
    assert(json::escaped(t) =~= cast_line(b).subrange(head.len() as int, head.len() + n));
    json::lemma_escaping_keeps_texts_apart(s, t);
    rawtext::lemma_text_keeps_the_bytes(a.bytes);
    rawtext::lemma_text_keeps_the_bytes(b.bytes);
}

} // verus!
