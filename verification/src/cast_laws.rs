//! What an exported recording says of what was recorded.
use crate::json;
use crate::rawtext;
use crate::recording;
use crate::recording::{PaneEventView, RecordingView};
use crate::text;
use vstd::prelude::*;

verus! {

/// The thousandths that a decimal number with up to three digits behind its point
/// stands for, where the point stands at `dot`.
pub open spec fn thousandths(s: Seq<char>, dot: int) -> int {
    let behind = s.skip(dot + 1);
    let unit: int = if behind.len() == 1 {
        100
    } else if behind.len() == 2 {
        10
    } else {
        1
    };
    text::digits_value(s.take(dot)) * 1000 + text::digits_value(behind) * unit
}

/// A text is a decimal number of so many thousandths: digits, a point, and one to
/// three more digits.
pub open spec fn reads_as_thousandths(s: Seq<char>, ms: int) -> bool {
    exists|dot: int|
        0 < dot < s.len() && s.len() <= dot + 4 && #[trigger] s[dot] == '.' && text::is_number(
            s.take(dot),
        ) && text::is_number(s.skip(dot + 1)) && thousandths(s, dot) == ms
}

proof fn lemma_digit_char(d: int)
    requires
        0 <= d < 10,
    ensures
        text::digit_char(d) as int == 48 + d,
        text::is_digit(text::digit_char(d)),
{
}

proof fn lemma_few_digits(a: int, b: int, c: int)
    requires
        0 <= a < 10,
        0 <= b < 10,
        0 <= c < 10,
    ensures
        text::digits_value(seq![text::digit_char(a)]) == a,
        text::digits_value(seq![text::digit_char(a), text::digit_char(b)]) == 10 * a + b,
        text::digits_value(
            seq![text::digit_char(a), text::digit_char(b), text::digit_char(c)],
        ) == 100 * a + 10 * b + c,
{
    lemma_digit_char(a);
    lemma_digit_char(b);
    lemma_digit_char(c);
    let one = seq![text::digit_char(a)];
    let two = seq![text::digit_char(a), text::digit_char(b)];
    let three = seq![text::digit_char(a), text::digit_char(b), text::digit_char(c)];
    assert(one.drop_last() =~= Seq::<char>::empty());
    assert(text::digits_value(Seq::<char>::empty()) == 0);
    assert(two.drop_last() =~= one);
    assert(three.drop_last() =~= two);
}

/// The time of a row is the milliseconds of its chunk, as a decimal number of
/// seconds.
pub proof fn lemma_a_time_reads_as_its_milliseconds(ms: nat)
    ensures
        reads_as_thousandths(recording::seconds(ms), ms as int),
{
    let whole = text::decimal(ms / 1000);
    let f = ms % 1000;
    let behind = recording::fraction(f);
    let s = recording::seconds(ms);
    let dot = whole.len() as int;
    text::lemma_decimal_reads_back(ms / 1000);
    let a = (f / 100) as int;
    let b = (f / 10 % 10) as int;
    let c = (f % 10) as int;
    lemma_few_digits(a, b, c);
    lemma_digit_char(a);
    lemma_digit_char(b);
    lemma_digit_char(c);
    assert(s.take(dot) =~= whole);
    assert(s.skip(dot + 1) =~= behind);
    assert(s[dot] == '.');
    assert(f == 100 * a + 10 * b + c);
    assert(text::is_number(behind));
    assert(thousandths(s, dot) == ms);
}

/// A text is a decimal number of so many thousandths in one way only, so rows with
/// different times are told apart, and a later chunk never has a smaller time.
pub proof fn lemma_a_number_has_one_reading(s: Seq<char>, a: int, b: int)
    requires
        reads_as_thousandths(s, a),
        reads_as_thousandths(s, b),
    ensures
        a == b,
{
    let i = choose|dot: int|
        0 < dot < s.len() && s.len() <= dot + 4 && #[trigger] s[dot] == '.' && text::is_number(
            s.take(dot),
        ) && text::is_number(s.skip(dot + 1)) && thousandths(s, dot) == a;
    let j = choose|dot: int|
        0 < dot < s.len() && s.len() <= dot + 4 && #[trigger] s[dot] == '.' && text::is_number(
            s.take(dot),
        ) && text::is_number(s.skip(dot + 1)) && thousandths(s, dot) == b;
    if i < j {
        assert(s.take(j)[i] == '.');
    } else if j < i {
        assert(s.take(i)[j] == '.');
    }
}

/// One row of output: a JSON array of the time, the letter `o`, and the chunk.
pub open spec fn is_output_row(row: Seq<char>, ms: int, bytes: Seq<u8>) -> bool {
    exists|time: Seq<char>, shown: Seq<char>|
        row == seq!['['] + time + seq![',', '"', 'o', '"', ',', '"'] + json::escaped(shown) + seq![
            '"',
            ']',
            '\n',
        ] && #[trigger] reads_as_thousandths(time, ms) && #[trigger] rawtext::bytes_of(shown)
            == bytes
}

proof fn lemma_a_line_is_a_row(e: PaneEventView)
    ensures
        is_output_row(recording::cast_line(e), e.ts_ms as int, e.bytes),
{
    reveal_strlit(",\"o\",");
    reveal_strlit("\n");
    let time = recording::seconds(e.ts_ms as nat);
    let shown = rawtext::lossless_text(e.bytes);
    let row = recording::cast_line(e);
    lemma_a_time_reads_as_its_milliseconds(e.ts_ms as nat);
    rawtext::lemma_text_keeps_the_bytes(e.bytes);
    assert(row =~= seq!['['] + time + seq![',', '"', 'o', '"', ',', '"'] + json::escaped(shown)
        + seq!['"', ']', '\n']);
    assert(reads_as_thousandths(time, e.ts_ms as int));
    assert(rawtext::bytes_of(shown) == e.bytes);
}

/// An exported recording grows at its end: a chunk that is taken by a recording
/// that runs and is not full adds one row, with the chunk's time and bytes, and
/// changes nothing of what came before it.
pub proof fn lemma_a_chunk_adds_a_row(
    r: RecordingView,
    bytes: Seq<u8>,
    ts_ms: u64,
    shell: Seq<char>,
    now: u64,
)
    requires
        r.started is Some,
        r.events.len() < r.max_events,
    ensures
        ({
            let before = r.cast(shell, now);
            let after = r.push(bytes, ts_ms).cast(shell, now);
            &&& before.len() <= after.len()
            &&& after.take(before.len() as int) == before
            &&& is_output_row(after.skip(before.len() as int), ts_ms as int, bytes)
        }),
{
    let e = PaneEventView { ts_ms, bytes };
    let w = r.push(bytes, ts_ms);
    let before = r.cast(shell, now);
    let after = w.cast(shell, now);
    assert(w.events.drop_last() =~= r.events);
    assert(w.events.last() == e);
    assert(after =~= before + recording::cast_line(e));
    assert(after.take(before.len() as int) =~= before);
    assert(after.skip(before.len() as int) =~= recording::cast_line(e));
    lemma_a_line_is_a_row(e);
}

/// A text holds a part between two others.
pub open spec fn holds(s: Seq<char>, head: Seq<char>, part: Seq<char>, tail: Seq<char>) -> bool {
    s == head + part + tail
}

/// The header of an exported recording is one object that names the shell, the
/// kind of terminal, the height and the width of the pane, each by its name, and
/// when the recording began, in whole seconds; the rows come behind it.
pub proof fn lemma_the_header_describes_the_recording(
    r: RecordingView,
    shell: Seq<char>,
    now: u64,
)
    ensures
        ({
            let at = match r.began {
                Some(ms) => ms as nat / 1000,
                None => now as nat,
            };
            exists|head: Seq<char>, rows: Seq<char>|
                #![trigger holds(r.cast(shell, now), head, seq!['\n'], rows)]
                holds(r.cast(shell, now), head, seq!['\n'], rows) && head
                    == "{\"env\":{\"SHELL\":\""@ + json::escaped(shell)
                    + "\",\"TERM\":\"xterm-256color\"}"@ + ",\"height\":"@ + text::decimal(
                    r.rows as nat,
                ) + ",\"timestamp\":"@ + text::decimal(at) + ",\"version\":2"@ + ",\"width\":"@
                    + text::decimal(r.cols as nat) + "}"@ && (r.events.len() == 0 ==> rows.len()
                    == 0)
        }),
{
    reveal_strlit("{\"env\":{\"SHELL\":\"");
    reveal_strlit("{\"env\":{\"SHELL\":");
    reveal_strlit("\",\"TERM\":\"xterm-256color\"}");
    reveal_strlit(",\"TERM\":\"xterm-256color\"},\"height\":");
    reveal_strlit(",\"height\":");
    reveal_strlit(",\"version\":2");
    reveal_strlit(",\"width\":");
    reveal_strlit(",\"version\":2,\"width\":");
    reveal_strlit("}");
    reveal_strlit("}\n");
    let at = match r.began {
        Some(ms) => ms as nat / 1000,
        None => now as nat,
    };
    let head = "{\"env\":{\"SHELL\":\""@ + json::escaped(shell)
        + "\",\"TERM\":\"xterm-256color\"}"@ + ",\"height\":"@ + text::decimal(r.rows as nat)
        + ",\"timestamp\":"@ + text::decimal(at) + ",\"version\":2"@ + ",\"width\":"@
        + text::decimal(r.cols as nat) + "}"@;
    let rows = recording::cast_lines(r.events);
    assert(r.cast(shell, now) =~= head + seq!['\n'] + rows);
    assert(holds(r.cast(shell, now), head, seq!['\n'], rows));
}

/// A chunk goes to the end of what is held, and of what was held only the oldest
/// chunk can go, and only where there is no room; the bytes and the time are those
/// of the chunk, and nothing else changes.
pub proof fn lemma_a_chunk_is_held_behind_the_others(
    r: RecordingView,
    bytes: Seq<u8>,
    ts_ms: u64,
)
    requires
        r.wf(),
        r.started is Some,
        r.max_events >= 1,
    ensures
        ({
            let w = r.push(bytes, ts_ms);
            let gone: int = if r.events.len() == r.max_events {
                1
            } else {
                0
            };
            &&& w == (RecordingView { events: w.events, ..r })
            &&& w.events.len() == r.events.len() - gone + 1
            &&& w.events.last().bytes == bytes
            &&& w.events.last().ts_ms == ts_ms
            &&& forall|i: int|
                0 <= i < w.events.len() - 1 ==> #[trigger] w.events[i] == r.events[i + gone]
        }),
{
}

proof fn lemma_first_from(s: Seq<PaneEventView>, ts_ms: u64)
    ensures
        0 <= recording::first_from(s, ts_ms) <= s.len(),
        forall|i: int| 0 <= i < recording::first_from(s, ts_ms) ==> (#[trigger] s[i]).ts_ms < ts_ms,
        recording::first_from(s, ts_ms) < s.len() ==> s[recording::first_from(s, ts_ms)].ts_ms
            >= ts_ms,
    decreases s.len(),
{
    if s.len() > 0 && s[0].ts_ms < ts_ms {
        let rest = s.drop_first();
        lemma_first_from(rest, ts_ms);
        assert forall|i: int| 0 <= i < recording::first_from(s, ts_ms) implies (#[trigger] s[i]).ts_ms
            < ts_ms by {
            if i > 0 {
                assert(rest[i - 1] == s[i]);
            }
        }
    }
}

/// The chunks around a time are consecutive, at most as many as asked for, with
/// half of them before the first chunk that is not earlier than the time, as far
/// as there are so many.
pub proof fn lemma_the_chunks_around_a_time(r: RecordingView, ts_ms: u64, limit: int)
    requires
        limit >= 0,
    ensures
        exists|cut: int, from: int|
            #![trigger r.events.subrange(from, from + r.around(ts_ms, limit).len()), r.events[cut]]
            0 <= from <= cut <= r.events.len() && (forall|i: int|
                0 <= i < cut ==> (#[trigger] r.events[i]).ts_ms < ts_ms) && (cut < r.events.len()
                ==> r.events[cut].ts_ms >= ts_ms) && (from == 0 || cut - from == limit / 2) && cut
                - from <= limit / 2 && r.around(ts_ms, limit) == r.events.subrange(
                from,
                from + r.around(ts_ms, limit).len(),
            ) && (r.around(ts_ms, limit).len() == limit || from + r.around(ts_ms, limit).len()
                == r.events.len()) && r.around(ts_ms, limit).len() <= limit,
{
    lemma_first_from(r.events, ts_ms);
    let cut = r.cursor(ts_ms);
    let from = if cut >= limit / 2 {
        cut - limit / 2
    } else {
        0
    };
    let n = r.around(ts_ms, limit).len();
    assert(r.around(ts_ms, limit) =~= r.events.subrange(from, from + n));
    let at = r.events[cut];
}

} // verus!
