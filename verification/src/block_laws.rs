//! What a block holds, told from what happened to its extractor.
use crate::block::BlockView;
use crate::blocks;
use crate::blocks::{marks, open_since, BlockStep, BlocksView, Phase};
use crate::grid_model;
use crate::grid_model::GridView;
use crate::text;
use crate::vt::VtEventView;
use crate::yurai::YuraiView;
use vstd::prelude::*;

verus! {

/// The letter of the last mark among `A`, `B` and `C` from the step at `i` on.
pub open spec fn last_letter(s: Seq<BlockStep>, i: int) -> char
    decreases s.len(),
{
    if s.len() <= i + 1 || s.len() == 0 {
        'A'
    } else if marks(s.last(), 'B') {
        'B'
    } else if marks(s.last(), 'C') {
        'C'
    } else {
        last_letter(s.drop_last(), i)
    }
}

/// The characters that a step gives: those that are printed, and raw bytes where
/// they are taken.
pub open spec fn given(s: BlockStep, raw: bool) -> Seq<char> {
    match s {
        BlockStep::Print(c) => seq![c],
        BlockStep::Raw(b) => if raw {
            seq![b as char]
        } else {
            Seq::empty()
        },
        _ => Seq::empty(),
    }
}

/// Everything given between the marks of a letter and the next other mark, from
/// the step at `i` on, in order.
pub open spec fn captured(s: Seq<BlockStep>, i: int, letter: char) -> Seq<char>
    decreases s.len(),
{
    if s.len() <= i + 1 || s.len() == 0 {
        Seq::empty()
    } else {
        let before = s.drop_last();
        captured(before, i, letter) + if last_letter(before, i) == letter {
            given(s.last(), letter == 'C')
        } else {
            Seq::empty()
        }
    }
}

/// The phase that a letter opens.
spec fn phase_of(letter: char) -> Phase {
    if letter == 'A' {
        Phase::Prompt
    } else if letter == 'B' {
        Phase::Command
    } else {
        Phase::Output
    }
}

/// The open block holds everything that was printed since it was opened, whatever
/// the characters are: its prompt what came behind its `A` mark, its command what
/// came behind a `B`, and its output what came behind a `C`, raw bytes too. It was
/// opened at the time of its mark.
pub proof fn lemma_the_open_block_holds_what_was_printed(cap: usize, s: Seq<BlockStep>, i: int)
    requires
        open_since(s, i),
    ensures
        ({
            let v = BlocksView::start(cap).steps(s);
            &&& v.current is Some
            &&& v.current->0.prompt == captured(s, i, 'A')
            &&& v.current->0.command == captured(s, i, 'B')
            &&& v.current->0.output == captured(s, i, 'C')
            &&& s[i] matches BlockStep::Mark { now, .. } && v.current->0.started_at_unix_ms == now
            &&& v.current->0.output_dropped_bytes == 0
            &&& v.current->0.exit_code is None
            &&& v.current->0.ended_at_unix_ms is None
        }),
    decreases s.len(),
{
    lemma_open_block(cap, s, i);
}

proof fn lemma_last_letter(s: Seq<BlockStep>, i: int)
    ensures
        last_letter(s, i) == 'A' || last_letter(s, i) == 'B' || last_letter(s, i) == 'C',
    decreases s.len(),
{
    if s.len() > 0 {
        lemma_last_letter(s.drop_last(), i);
    }
}

proof fn lemma_open_block(cap: usize, s: Seq<BlockStep>, i: int)
    requires
        open_since(s, i),
    ensures
        ({
            let v = BlocksView::start(cap).steps(s);
            &&& v.current is Some
            &&& v.phase == phase_of(last_letter(s, i))
            &&& v.current->0.prompt == captured(s, i, 'A')
            &&& v.current->0.command == captured(s, i, 'B')
            &&& v.current->0.output == captured(s, i, 'C')
            &&& s[i] matches BlockStep::Mark { now, .. } && v.current->0.started_at_unix_ms == now
            &&& v.current->0.output_dropped_bytes == 0
            &&& v.current->0.exit_code is None
            &&& v.current->0.ended_at_unix_ms is None
        }),
    decreases s.len(),
{
    let before = s.drop_last();
    let end = s.len() - 1;
    assert(s[end] == s.last());
    let u = BlocksView::start(cap).steps(before);
    let v = BlocksView::start(cap).steps(s);
    assert(v == u.step(s.last()));
    if i < end {
        assert(open_since(before, i)) by {
            assert(forall|j: int| 0 <= j < end ==> s[j] == before[j]);
        }
        lemma_open_block(cap, before, i);
        lemma_last_letter(before, i);
        assert(before[i] == s[i]);
        assert(!marks(s[end], 'A') && !marks(s[end], 'D'));
        assert(captured(before, i, 'A') + Seq::<char>::empty() =~= captured(before, i, 'A'));
        assert(captured(before, i, 'B') + Seq::<char>::empty() =~= captured(before, i, 'B'));
        assert(captured(before, i, 'C') + Seq::<char>::empty() =~= captured(before, i, 'C'));
        match s.last() {
            BlockStep::Print(c) => {
                assert(captured(before, i, 'A') + seq![c] =~= captured(before, i, 'A').push(c));
                assert(captured(before, i, 'B') + seq![c] =~= captured(before, i, 'B').push(c));
                assert(captured(before, i, 'C') + seq![c] =~= captured(before, i, 'C').push(c));
            },
            BlockStep::Raw(x) => {
                assert(captured(before, i, 'C') + seq![x as char] =~= captured(before, i, 'C').push(
                    x as char,
                ));
            },
            _ => {},
        }
    }
}

/// A closing mark keeps the open block as it stands, with the exit code that the
/// mark gives and the time it came, behind the blocks that were kept; of those only
/// the oldest can go, and only where there is no room. Without an open block it
/// does nothing.
pub proof fn lemma_a_closing_mark_keeps_the_block(v: BlocksView, marker: Seq<char>, now: u64)
    requires
        v.within_cap(),
        v.cap >= 1,
        marker.len() > 0,
        marker[0] == 'D',
    ensures
        ({
            let w = v.marker(marker, now);
            let gone: int = if v.blocks.len() == v.cap {
                1
            } else {
                0
            };
            &&& v.current is None ==> w == v
            &&& v.current matches Some(b) ==> {
                &&& w.current is None
                &&& w.blocks.len() == v.blocks.len() - gone + 1
                &&& w.blocks.last() == (BlockView {
                    exit_code: w.blocks.last().exit_code,
                    ended_at_unix_ms: Some(now),
                    ..b
                })
                &&& forall|i: int|
                    0 <= i < w.blocks.len() - 1 ==> #[trigger] w.blocks[i] == v.blocks[i + gone]
                &&& w.next_index == v.next_index
                &&& w.cwd == v.cwd
                &&& w.yurai == v.yurai
            }
        }),
{
}

/// A block that is still open when the next one opens is kept as it stands,
/// without an exit code; the new one is empty, with the next index, the directory
/// and the provenance that stand, and the time of the mark.
pub proof fn lemma_an_opening_mark_opens_an_empty_block(
    v: BlocksView,
    marker: Seq<char>,
    now: u64,
)
    requires
        v.within_cap(),
        v.cap >= 1,
        marker.len() > 0,
        marker[0] == 'A',
    ensures
        ({
            let w = v.marker(marker, now);
            &&& w.current == Some(
                BlockView {
                    index: v.next_index,
                    prompt: Seq::empty(),
                    command: Seq::empty(),
                    output: Seq::empty(),
                    output_dropped_bytes: 0,
                    exit_code: None,
                    started_at_unix_ms: now,
                    ended_at_unix_ms: None,
                    cwd: v.cwd,
                    yurai: v.yurai,
                },
            )
            &&& v.next_index < u64::MAX ==> w.next_index == v.next_index + 1
            &&& v.current is None ==> w.blocks == v.blocks
            &&& v.current matches Some(b) ==> w.blocks.last() == (BlockView {
                exit_code: None,
                ended_at_unix_ms: Some(now),
                ..b
            })
        }),
{
}

/// The origin that blocks are put down to is the first that is known of them, and
/// what is known never changes; every block that is opened later has it.
pub proof fn lemma_the_first_origin_counts(v: BlocksView, y: YuraiView, z: YuraiView)
    ensures
        v.yurai == YuraiView::Unknown ==> v.stamp(y).yurai == y,
        v.yurai != YuraiView::Unknown ==> v.stamp(y).yurai == v.yurai,
        y != YuraiView::Unknown ==> v.stamp(y).stamp(z) == v.stamp(y),
        v.stamp(y) == (BlocksView { yurai: v.stamp(y).yurai, ..v }),
{
}

/// Marks of other letters open and close nothing, and an empty one does nothing.
pub proof fn lemma_other_marks_keep_the_blocks(v: BlocksView, marker: Seq<char>, now: u64)
    requires
        marker.len() == 0 || (marker[0] != 'A' && marker[0] != 'D'),
    ensures
        v.marker(marker, now).blocks == v.blocks,
        v.marker(marker, now).current == v.current,
        v.marker(marker, now).cwd == v.cwd,
        v.marker(marker, now).next_index == v.next_index,
        marker.len() == 0 || (marker[0] != 'B' && marker[0] != 'C') ==> v.marker(marker, now) == v,
{
}

proof fn lemma_split_once(a: Seq<char>, b: Seq<char>)
    requires
        !a.contains(';'),
        !b.contains(';'),
    ensures
        text::split(a.push(';') + b, ';') == seq![a, b],
{
    let parts = seq![a, b];
    assert(parts.drop_last() =~= seq![a]);
    assert(text::join(seq![a], ';') == a);
    assert(text::join(parts, ';') =~= a.push(';') + b);
    assert forall|i: int| 0 <= i < parts.len() implies !(#[trigger] parts[i]).contains(';') by {}
    text::lemma_split_join(parts, ';');
}

proof fn lemma_number_needs_no_trim(s: Seq<char>)
    requires
        s.len() > 0,
        !text::white_space(s[0]),
        !text::white_space(s.last()),
    ensures
        text::trim(s) == s,
{
}

/// The exit code of a closing mark is the number behind its semicolon, with its
/// sign, where it fits; a mark without one has none.
pub proof fn lemma_the_exit_code_is_the_number_given(code: i32)
    ensures
        blocks::spec_exit_code(seq!['D']) is None,
        code >= 0 ==> blocks::spec_exit_code(seq!['D', ';'] + text::decimal(code as nat)) == Some(
            code,
        ),
        code < 0 ==> blocks::spec_exit_code(seq!['D', ';', '-'] + text::decimal(-code as nat))
            == Some(code),
{
    let d = seq!['D'];
    assert(d[0] == 'D');
    assert(text::join(seq![d], ';') == d);
    text::lemma_split_join(seq![d], ';');
    let n: nat = if code >= 0 {
        code as nat
    } else {
        -code as nat
    };
    let digits = text::decimal(n);
    text::lemma_decimal_reads_back(n);
    assert(text::is_digit(digits[0]) && text::is_digit(digits.last()));
    if code >= 0 {
        assert forall|i: int| 0 <= i < digits.len() implies digits[i] != ';' by {
            assert(text::is_digit(digits[i]));
        }
        lemma_split_once(d, digits);
        assert(d.push(';') + digits =~= seq!['D', ';'] + digits);
        lemma_number_needs_no_trim(digits);
        let parts = text::split(seq!['D', ';'] + digits, ';');
        assert(parts[1] == digits);
    } else {
        let signed = seq!['-'] + digits;
        assert forall|i: int| 0 <= i < signed.len() implies signed[i] != ';' by {
            if i > 0 {
                assert(text::is_digit(digits[i - 1]));
            }
        }
        lemma_split_once(d, signed);
        assert(d.push(';') + signed =~= seq!['D', ';', '-'] + digits);
        assert(signed.last() == digits.last());
        lemma_number_needs_no_trim(signed);
        assert(signed.skip(1) =~= digits);
        let parts = text::split(seq!['D', ';', '-'] + digits, ';');
        assert(parts[1] == signed);
    }
}

proof fn lemma_first_index(s: Seq<char>, c: char)
    requires
        s.contains(c),
    ensures
        0 <= blocks::first_index(s, c) < s.len(),
        s[blocks::first_index(s, c)] == c,
        forall|i: int| 0 <= i < blocks::first_index(s, c) ==> s[i] != c,
    decreases s.len(),
{
    if s[0] != c {
        let rest = s.drop_first();
        let k = choose|k: int| 0 <= k < s.len() && s[k] == c;
        assert(rest[k - 1] == c);
        lemma_first_index(rest, c);
        assert forall|i: int| 0 <= i < blocks::first_index(s, c) implies s[i] != c by {
            if i > 0 {
                assert(rest[i - 1] == s[i]);
            }
        }
    }
}

/// The directory of `file://host/path` is `/path`, whatever the host and the path
/// are, and any other text is a directory as it stands.
pub proof fn lemma_the_directory_is_the_path_of_the_address(
    host: Seq<char>,
    path: Seq<char>,
    other: Seq<char>,
)
    requires
        !host.contains('/'),
        path.len() > 0,
        path[0] == '/',
        other.len() < 7 || other.take(7) != seq!['f', 'i', 'l', 'e', ':', '/', '/'],
    ensures
        blocks::osc7_directory(seq!['f', 'i', 'l', 'e', ':', '/', '/'] + host + path) == path,
        blocks::osc7_directory(other) == other,
{
    let scheme = seq!['f', 'i', 'l', 'e', ':', '/', '/'];
    let raw = scheme + host + path;
    let rest = raw.skip(7);
    assert(raw.take(7) =~= scheme);
    assert(rest =~= host + path);
    let n = host.len() as int;
    assert(rest[n] == '/');
    assert(rest.contains('/'));
    lemma_first_index(rest, '/');
    let k = blocks::first_index(rest, '/');
    if k < n {
        assert(host[k] == '/');
        assert(host.contains('/'));
    }
    assert(k == n);
    assert(rest.skip(n) =~= path);
}

/// What a pane prints goes to its blocks, every character of it, and to its
/// screen beside.
pub proof fn lemma_a_pane_tells_its_blocks_what_it_prints(v: GridView, c: char, now: u64)
    requires
        v.wf(),
    ensures
        v.perform(VtEventView::Print(c), now).blocks == v.blocks.print(c),
{
    reveal(GridView::perform);
    reveal(GridView::print);
    let seen = GridView { blocks: v.blocks.print(c), ..v };
    lemma_printing_keeps_blocks(seen, c);
}

proof fn lemma_linefeed_keeps_blocks(v: GridView)
    ensures
        v.linefeed().blocks == v.blocks,
{
    reveal(GridView::linefeed);
    reveal(GridView::scroll_region_up);
}

proof fn lemma_place_keeps_blocks(v: GridView, c: char, w: int)
    ensures
        v.place(c, w).blocks == v.blocks,
{
    reveal(GridView::place);
    reveal(GridView::clear_orphans);
    reveal(GridView::set_cell);
}

proof fn lemma_printing_keeps_blocks(v: GridView, c: char)
    ensures
        v.combine(c).blocks == v.blocks,
        forall|w: int| (#[trigger] v.put_char(c, w)).blocks == v.blocks,
{
    assert(v.combine(c).blocks == v.blocks) by {
        reveal(GridView::combine);
        reveal(GridView::set_cell);
    }
    assert forall|w: int| (#[trigger] v.put_char(c, w)).blocks == v.blocks by {
        let a = v.wrap_now();
        assert(a.blocks == v.blocks) by {
            reveal(GridView::wrap_now);
            lemma_linefeed_keeps_blocks(GridView { wrap_pending: false, cursor_col: 0, ..v });
        }
        let b = a.wrap_wide(w);
        assert(b.blocks == v.blocks) by {
            reveal(GridView::wrap_wide);
            lemma_linefeed_keeps_blocks(GridView { cursor_col: 0, ..a });
        }
        lemma_place_keeps_blocks(b, c, w);
        reveal(GridView::put_char);
        reveal(GridView::advance);
    }
}

/// The operating system commands: `0`, `1` and `2` set the title, `7` tells the
/// working directory and `133` marks a prompt, each by the text of its field; no
/// other one does anything, nor does a text that is not well-formed. Nothing but
/// the title and the blocks changes.
pub proof fn lemma_commands_by_their_number(
    v: GridView,
    number: Seq<u8>,
    field: Seq<u8>,
    now: u64,
)
    requires
        vstd::utf8::valid_utf8(field),
    ensures
        ({
            let w = v.perform(VtEventView::Osc { fields: seq![number, field] }, now);
            let said = vstd::utf8::decode_utf8(field);
            let title = number == seq![0x30u8] || number == seq![0x31u8] || number == seq![0x32u8];
            let directory = number == seq![0x37u8];
            let mark = number == seq![0x31u8, 0x33, 0x33];
            &&& title ==> w == (GridView { title: Some(said), ..v })
            &&& directory ==> w == (GridView { blocks: v.blocks.set_cwd(said), ..v })
            &&& mark ==> w == (GridView { blocks: v.blocks.marker(said, now), ..v })
            &&& !title && !directory && !mark ==> w == v
        }),
{
    reveal(GridView::perform);
    reveal(GridView::osc);
    let fields = seq![number, field];
    assert(fields[0] == number && fields[1] == field);
    let rest = fields.skip(1);
    assert(rest =~= seq![field]);
    assert(rest.last() == field);
    assert(rest.drop_last() =~= Seq::<Seq<u8>>::empty());
    assert(grid_model::texts(rest.drop_last()) =~= Seq::<Seq<char>>::empty());
    assert(grid_model::texts(rest) =~= seq![vstd::utf8::decode_utf8(field)]);
    assert(text::join(grid_model::texts(rest), ';') == vstd::utf8::decode_utf8(field));
    assert(seq![0x30u8][0] == 0x30 && seq![0x31u8][0] == 0x31 && seq![0x32u8][0] == 0x32);
    assert(seq![0x37u8][0] == 0x37 && seq![0x31u8].len() == 1 && seq![0x31u8, 0x33, 0x33].len()
        == 3);
}

/// A mark with an exit code comes in two fields and is read as one text with a
/// semicolon between them; a field that is not well-formed counts for nothing. A
/// command without a text, or with one that is not well-formed, sets neither title
/// nor directory.
pub proof fn lemma_a_mark_in_two_fields(
    v: GridView,
    letter: Seq<u8>,
    code: Seq<u8>,
    bad: Seq<u8>,
    number: Seq<u8>,
    now: u64,
)
    requires
        vstd::utf8::valid_utf8(letter),
        vstd::utf8::valid_utf8(code),
        !vstd::utf8::valid_utf8(bad),
        number != seq![0x31u8, 0x33, 0x33],
    ensures
        ({
            let mark = seq![0x31u8, 0x33, 0x33];
            let a = vstd::utf8::decode_utf8(letter);
            let b = vstd::utf8::decode_utf8(code);
            &&& v.perform(VtEventView::Osc { fields: seq![mark, letter, code] }, now) == (GridView {
                blocks: v.blocks.marker(a.push(';') + b, now),
                ..v
            })
            &&& v.perform(VtEventView::Osc { fields: seq![mark, letter, bad] }, now) == (GridView {
                blocks: v.blocks.marker(a, now),
                ..v
            })
            &&& v.perform(VtEventView::Osc { fields: seq![number, bad] }, now) == v
            &&& v.perform(VtEventView::Osc { fields: seq![number] }, now) == v
        }),
{
    reveal(GridView::perform);
    reveal(GridView::osc);
    reveal_with_fuel(grid_model::texts, 3);
    reveal_with_fuel(text::join, 3);
    let mark = seq![0x31u8, 0x33, 0x33];
    let a = vstd::utf8::decode_utf8(letter);
    let b = vstd::utf8::decode_utf8(code);
    let x = seq![mark, letter, code];
    let y = seq![mark, letter, bad];
    let z = seq![number, bad];
    assert(x[0] == mark && y[0] == mark && z[0] == number && z[1] == bad);
    assert(x.skip(1) =~= seq![letter, code]);
    assert(y.skip(1) =~= seq![letter, bad]);
    assert(seq![letter, code].drop_last() =~= seq![letter]);
    assert(seq![letter, bad].drop_last() =~= seq![letter]);
    assert(seq![letter].drop_last() =~= Seq::<Seq<u8>>::empty());
    assert(grid_model::texts(seq![letter]) =~= seq![a]);
    assert(grid_model::texts(seq![letter, code]) =~= seq![a, b]);
    assert(grid_model::texts(seq![letter, bad]) =~= seq![a]);
    assert(seq![a, b].drop_last() =~= seq![a]);
    assert(text::join(seq![a], ';') == a);
    assert(text::join(seq![a, b], ';') =~= a.push(';') + b);
    assert(mark.len() == 3 && seq![0x37u8].len() == 1 && seq![0x30u8].len() == 1
        && seq![0x31u8].len() == 1 && seq![0x32u8].len() == 1);
    assert(seq![number][0] == number);
}

} // verus!
