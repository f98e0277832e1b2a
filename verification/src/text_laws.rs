//! What texts stand for: trimmed texts, signed numbers, key chords, escaped
//! strings, digits, rows of recordings and screens as text.
use crate::address;
use crate::address::{AddressErrorView, PatternErrorView, SegmentErrorView, TokenView};
use crate::capability;
use crate::cast;
use crate::cast::CastRowKind;
use crate::clock;
use crate::control::ControlErrorView;
use crate::digest;
use crate::engate_wrap;
use crate::json;
use crate::json::JsonItemView;
use crate::keybind;
use crate::pane_snapshot::Cell;
use crate::snapshot;
use crate::text;
use crate::wire;
use crate::wire::WireErrorView;
use vstd::prelude::*;

verus! {

// ── trimmed texts and numbers ──

/// `t` is what is left of `s` between two places once the white space before and
/// after it is gone: it neither starts nor ends with any.
pub open spec fn trimmed_between(s: Seq<char>, t: Seq<char>, i: int, j: int) -> bool {
    &&& 0 <= i <= j <= s.len()
    &&& t == s.subrange(i, j)
    &&& forall|k: int| 0 <= k < i ==> text::white_space(#[trigger] s[k])
    &&& forall|k: int| j <= k < s.len() ==> text::white_space(#[trigger] s[k])
    &&& t.len() > 0 ==> !text::white_space(t[0]) && !text::white_space(t.last())
}

/// Trimming takes the white space at both ends away, all of it, and nothing else.
pub proof fn lemma_trimming_takes_only_the_ends(s: Seq<char>)
    ensures
        exists|i: int, j: int| #[trigger] trimmed_between(s, text::trim(s), i, j),
    decreases s.len(),
{
    let t = text::trim(s);
    if s.len() > 0 && text::white_space(s[0]) {
        let r = s.drop_first();
        lemma_trimming_takes_only_the_ends(r);
        let (i, j) = choose|i: int, j: int| #[trigger] trimmed_between(r, t, i, j);
        assert forall|k: int| 0 <= k < i + 1 implies text::white_space(#[trigger] s[k]) by {
            if k > 0 {
                assert(s[k] == r[k - 1]);
            }
        }
        assert forall|k: int| j + 1 <= k < s.len() implies text::white_space(#[trigger] s[k]) by {
            assert(s[k] == r[k - 1]);
        }
        assert(t =~= s.subrange(i + 1, j + 1));
        assert(trimmed_between(s, t, i + 1, j + 1));
    } else if s.len() > 0 && text::white_space(s.last()) {
        let r = s.drop_last();
        lemma_trimming_takes_only_the_ends(r);
        let (i, j) = choose|i: int, j: int| #[trigger] trimmed_between(r, t, i, j);
        assert forall|k: int| 0 <= k < i implies text::white_space(#[trigger] s[k]) by {
            assert(s[k] == r[k]);
        }
        assert forall|k: int| j <= k < s.len() implies text::white_space(#[trigger] s[k]) by {
            if k < r.len() {
                assert(s[k] == r[k]);
            }
        }
        assert(t =~= s.subrange(i, j));
        assert(trimmed_between(s, t, i, j));
    } else {
        assert(t =~= s.subrange(0, s.len() as int));
        assert(trimmed_between(s, t, 0, s.len() as int));
    }
}

/// A number is read with or without its sign, and a number that does not fit is
/// none.
pub proof fn lemma_signed_numbers_are_read(n: nat)
    ensures
        text::signed_value(text::decimal(n)) == Some(n as int),
        text::signed_value(seq!['-'] + text::decimal(n)) == Some(-(n as int)),
        text::signed_value(seq!['+'] + text::decimal(n)) == Some(n as int),
        n <= i32::MAX ==> text::spec_parse_i32(text::decimal(n)) == Some(n as i32),
        n > i32::MAX ==> text::spec_parse_i32(text::decimal(n)) is None,
        n <= 0x8000_0000 ==> text::spec_parse_i32(seq!['-'] + text::decimal(n)) == Some(
            (-(n as int)) as i32,
        ),
        n > 0x8000_0000 ==> text::spec_parse_i32(seq!['-'] + text::decimal(n)) is None,
{
    text::lemma_decimal_reads_back(n);
    let d = text::decimal(n);
    assert(text::is_digit(d[0]));
    assert((seq!['-'] + d).skip(1) =~= d);
    assert((seq!['+'] + d).skip(1) =~= d);
}

/// A text with anything but digits behind its sign is no number.
pub proof fn lemma_other_texts_are_no_numbers(s: Seq<char>, i: int)
    requires
        0 <= i < s.len(),
        !text::is_digit(s[i]),
        i > 0 || (s[0] != '-' && s[0] != '+') || s.len() == 1,
    ensures
        text::signed_value(s) is None,
        text::spec_parse_i32(s) is None,
{
    if s.len() > 1 && i > 0 {
        assert(s.skip(1)[i - 1] == s[i]);
    }
}

// ── key chords ──

/// The modifier that a letter stands for in a shorthand.
pub open spec fn letter_of(part: Seq<char>, name: Seq<char>) -> bool {
    ||| (part == seq!['C'] || part == seq!['c']) && name == "ctrl"@
    ||| (part == seq!['M'] || part == seq!['m']) && name == "alt"@
    ||| (part == seq!['S'] || part == seq!['s']) && name == "shift"@
    ||| (part == seq!['D'] || part == seq!['d']) && name == "super"@
}

/// A shorthand of modifier letters and a key stands for the modifiers, by name and
/// in the same order, and the key in lower case.
pub proof fn lemma_a_shorthand_stands_for_its_chord(
    letters: Seq<Seq<char>>,
    names: Seq<Seq<char>>,
    key: Seq<char>,
)
    requires
        letters.len() == names.len(),
        forall|i: int| 0 <= i < letters.len() ==> letter_of(#[trigger] letters[i], names[i]),
        !key.contains('-'),
        forall|name: Seq<char>| !(#[trigger] letter_of(key, name)),
    ensures
        keybind::chord(text::join(letters.push(key), '-')) == text::join(
            names.push(keybind::lowered(key)),
            '+',
        ),
{
    let parts = letters.push(key);
    assert forall|i: int| 0 <= i < parts.len() implies !(#[trigger] parts[i]).contains('-') by {
        if i < letters.len() {
            assert(letter_of(letters[i], names[i]));
            assert(parts[i].len() == 1 && parts[i][0] != '-');
        }
    }
    text::lemma_split_join(parts, '-');
    assert(!letter_of(key, "ctrl"@));
    assert(!letter_of(key, "alt"@));
    assert(!letter_of(key, "shift"@));
    assert(!letter_of(key, "super"@));
    assert(keybind::modifier(key) is None);
    assert(parts.last() == key);
    assert(parts.drop_last() =~= letters);
    lemma_letters_are_modifiers(letters, names);
    assert(keybind::key_place(parts) == parts.len() - 1);
    assert(keybind::modifiers(parts) == names);
}

proof fn lemma_letters_are_modifiers(letters: Seq<Seq<char>>, names: Seq<Seq<char>>)
    requires
        letters.len() == names.len(),
        forall|i: int| 0 <= i < letters.len() ==> letter_of(#[trigger] letters[i], names[i]),
    ensures
        keybind::modifiers(letters) == names,
    decreases letters.len(),
{
    if letters.len() > 0 {
        let a = letters.drop_last();
        let b = names.drop_last();
        assert forall|i: int| 0 <= i < a.len() implies letter_of(#[trigger] a[i], b[i]) by {
            assert(a[i] == letters[i]);
        }
        lemma_letters_are_modifiers(a, b);
        let l = letters.last();
        assert(letters[letters.len() - 1] == l);
        assert(letter_of(l, names.last()));
        assert(seq!['C'][0] == 'C' && seq!['c'][0] == 'c' && seq!['M'][0] == 'M' && seq!['m'][0]
            == 'm');
        assert(seq!['S'][0] == 'S' && seq!['s'][0] == 's' && seq!['D'][0] == 'D' && seq!['d'][0]
            == 'd');
        assert(keybind::modifier(l) == Some(names.last()));
        assert(b.push(names.last()) =~= names);
    } else {
        assert(names =~= Seq::empty());
    }
}

/// A shorthand of modifier letters alone ends with its key.
pub proof fn lemma_a_shorthand_of_letters_alone(
    letters: Seq<Seq<char>>,
    names: Seq<Seq<char>>,
    last: Seq<char>,
    name: Seq<char>,
)
    requires
        letters.len() == names.len(),
        forall|i: int| 0 <= i < letters.len() ==> letter_of(#[trigger] letters[i], names[i]),
        letter_of(last, name),
    ensures
        keybind::chord(text::join(letters.push(last), '-')) == text::join(
            names.push(keybind::lowered(last)),
            '+',
        ),
{
    let parts = letters.push(last);
    let all = names.push(name);
    assert forall|i: int| 0 <= i < parts.len() implies letter_of(#[trigger] parts[i], all[i]) by {
        if i < letters.len() {
            assert(letter_of(letters[i], names[i]));
        }
    }
    assert forall|i: int| 0 <= i < parts.len() implies !(#[trigger] parts[i]).contains('-') by {
        assert(letter_of(parts[i], all[i]));
        assert(parts[i].len() == 1 && parts[i][0] != '-');
    }
    text::lemma_split_join(parts, '-');
    lemma_no_key_among_letters(parts, all);
    assert(parts.drop_last() =~= letters);
    lemma_letters_are_modifiers(letters, names);
}

proof fn lemma_no_key_among_letters(parts: Seq<Seq<char>>, names: Seq<Seq<char>>)
    requires
        parts.len() == names.len(),
        forall|i: int| 0 <= i < parts.len() ==> letter_of(#[trigger] parts[i], names[i]),
    ensures
        keybind::key_place(parts) == -1,
    decreases parts.len(),
{
    if parts.len() > 0 {
        let a = parts.drop_last();
        let b = names.drop_last();
        assert forall|i: int| 0 <= i < a.len() implies letter_of(#[trigger] a[i], b[i]) by {
            assert(a[i] == parts[i]);
        }
        lemma_no_key_among_letters(a, b);
        assert(letter_of(parts[parts.len() - 1], names.last()));
        assert(keybind::modifier(parts.last()) is Some);
    }
}

/// A key in lower case has its capitals in lower case and is else the same.
pub proof fn lemma_a_key_in_lower_case(key: Seq<char>, i: int)
    requires
        0 <= i < key.len(),
    ensures
        keybind::lowered(key).len() == key.len(),
        'A' <= key[i] && key[i] <= 'Z' ==> keybind::lowered(key)[i] as u32 == key[i] as u32 + 32,
        !('A' <= key[i] && key[i] <= 'Z') ==> keybind::lowered(key)[i] == key[i],
{
}

// ── escaped strings ──

/// What a character is written as inside a string of JSON: itself, or a short
/// escape, or the four digits of its number.
pub open spec fn is_written_as(c: char, s: Seq<char>) -> bool {
    ||| s == seq![c] && c as u32 >= 32 && c != '"' && c != '\\'
    ||| s.len() == 2 && s[0] == '\\' && {
        ||| s[1] == '"' && c == '"'
        ||| s[1] == '\\' && c == '\\'
        ||| s[1] == 'b' && c as u32 == 8
        ||| s[1] == 't' && c as u32 == 9
        ||| s[1] == 'n' && c as u32 == 10
        ||| s[1] == 'f' && c as u32 == 12
        ||| s[1] == 'r' && c as u32 == 13
    }
    ||| s.len() == 6 && s.take(4) == seq!['\\', 'u', '0', '0'] && digest::hex_value(s[4]) == Some(
        c as int / 16,
    ) && digest::hex_value(s[5]) == Some(c as int % 16)
}

/// Every character is written as what stands for it, one after the other, between
/// quotes.
pub proof fn lemma_strings_are_written_character_by_character(s: Seq<char>, c: char)
    ensures
        is_written_as(c, json::escaped_char(c)),
        json::escaped(s.push(c)) == json::escaped(s) + json::escaped_char(c),
        json::escaped(Seq::empty()).len() == 0,
        json::quoted(s) == seq!['"'] + json::escaped(s) + seq!['"'],
{
    assert(s.push(c).drop_last() =~= s);
    let w = json::escaped_char(c);
    if (c as u32) < 32 && c as u32 != 8 && c as u32 != 9 && c as u32 != 10 && c as u32 != 12
        && c as u32 != 13 {
        lemma_two_digits(c as nat);
        assert(w.take(4) =~= seq!['\\', 'u', '0', '0']);
        assert(w[4] == digest::hex(c as nat, 2)[0]);
        assert(w[5] == digest::hex(c as nat, 2)[1]);
    }
}

proof fn lemma_two_digits(n: nat)
    requires
        n < 256,
    ensures
        digest::hex(n, 2).len() == 2,
        digest::hex_value(digest::hex(n, 2)[0]) == Some((n / 16) as int),
        digest::hex_value(digest::hex(n, 2)[1]) == Some((n % 16) as int),
{
    reveal_with_fuel(digest::hex, 3);
    assert(n / 16 < 16);
    assert((n / 16) % 16 == n / 16);
}

/// Bytes in hexadecimal: two digits for each, the high one first.
pub proof fn lemma_bytes_in_hexadecimal(s: Seq<u8>, i: int)
    requires
        0 <= i < s.len(),
    ensures
        digest::hex_of_bytes(s).len() == 2 * s.len(),
        digest::hex_value(digest::hex_of_bytes(s)[2 * i]) == Some(s[i] as int / 16),
        digest::hex_value(digest::hex_of_bytes(s)[2 * i + 1]) == Some(s[i] as int % 16),
    decreases s.len(),
{
    let front = s.drop_last();
    let h = digest::hex_of_bytes(front);
    digest::lemma_hex_of_bytes_len(front);
    lemma_two_digits(s.last() as nat);
    if i < front.len() {
        lemma_bytes_in_hexadecimal(front, i);
    }
}

// ── rows of recordings ──

/// A row is what its elements say, a time, whether it was shown or typed, and the
/// text; whatever else stands there is not one.
pub proof fn lemma_what_a_row_says(items: Seq<JsonItemView>)
    ensures
        cast::row_of(items) is Ok <==> items.len() >= 3 && items[0] is Number && items[2] is Text
            && (items[1] == JsonItemView::Text("o"@) || items[1] == JsonItemView::Text("i"@)),
        cast::row_of(items) matches Ok(row) ==> {
            &&& items[0] == JsonItemView::Number(row.time)
            &&& items[2] == JsonItemView::Text(row.payload)
            &&& items[1] == JsonItemView::Text("o"@) <==> row.kind == CastRowKind::Output
            &&& items[1] == JsonItemView::Text("i"@) <==> row.kind == CastRowKind::Input
        },
{
    reveal_strlit("o");
    reveal_strlit("i");
    assert("o"@[0] == 'o' && "i"@[0] == 'i');
}

/// A line is the header exactly where the first of its characters that is no white
/// space is an opening brace.
pub proof fn lemma_what_a_header_is(line: Seq<char>)
    ensures
        cast::is_header(line) <==> exists|i: int|
            0 <= i < line.len() && #[trigger] line[i] == '{' && forall|k: int|
                0 <= k < i ==> text::white_space(#[trigger] line[k]),
    decreases line.len(),
{
    if line.len() > 0 {
        let rest = line.drop_first();
        lemma_what_a_header_is(rest);
        if text::white_space(line[0]) {
            if cast::is_header(line) {
                let i = choose|i: int|
                    0 <= i < rest.len() && #[trigger] rest[i] == '{' && forall|k: int|
                        0 <= k < i ==> text::white_space(#[trigger] rest[k]);
                assert(line[i + 1] == '{');
                assert forall|k: int| 0 <= k < i + 1 implies text::white_space(
                    #[trigger] line[k],
                ) by {
                    if k > 0 {
                        assert(line[k] == rest[k - 1]);
                    }
                }
            }
            if exists|i: int|
                0 <= i < line.len() && #[trigger] line[i] == '{' && forall|k: int|
                    0 <= k < i ==> text::white_space(#[trigger] line[k]) {
                let i = choose|i: int|
                    0 <= i < line.len() && #[trigger] line[i] == '{' && forall|k: int|
                        0 <= k < i ==> text::white_space(#[trigger] line[k]);
                assert(rest[i - 1] == '{');
                assert forall|k: int| 0 <= k < i - 1 implies text::white_space(
                    #[trigger] rest[k],
                ) by {
                    assert(rest[k] == line[k + 1]);
                }
            }
        } else {
            assert(line[0] == '{' ==> cast::is_header(line));
        }
    }
}

/// A line that is the header is no row; any other line is what its array says, where
/// it is one.
pub proof fn lemma_what_a_line_stands_for(line: Seq<char>)
    ensures
        cast::is_header(line) ==> cast::row_of_line(line) is Err,
        !cast::is_header(line) && json::json_line(line) is Err ==> cast::row_of_line(line) is Err,
        !cast::is_header(line) && json::json_line(line) is Ok && json::json_line(line)->Ok_0
            is None ==> cast::row_of_line(line) is Err,
        !cast::is_header(line) && json::json_line(line) is Ok && json::json_line(line)->Ok_0
            is Some ==> cast::row_of_line(line) == cast::row_of((json::json_line(line)->Ok_0)->0),
{
}

// ── screens as text ──

/// A screen as text has a line for each row, and on it the character of each cell.
pub proof fn lemma_a_screen_as_text(cells: Seq<Seq<Cell>>, r: int, c: int)
    requires
        0 <= r < cells.len(),
        0 <= c < cells[r].len(),
        forall|i: int, j: int|
            0 <= i < cells.len() && 0 <= j < cells[i].len() ==> (#[trigger] cells[i][j]).ch != '\n',
    ensures
        ({
            let lines = text::split(snapshot::screen_text(cells), '\n');
            &&& lines.len() == cells.len()
            &&& lines[r].len() == cells[r].len()
            &&& lines[r][c] == cells[r][c].ch
        }),
{
    let lines = Seq::new(cells.len(), |i: int| snapshot::row_chars(cells[i]));
    assert forall|i: int| 0 <= i < lines.len() implies !(#[trigger] lines[i]).contains('\n') by {
        if lines[i].contains('\n') {
            let j = choose|j: int| 0 <= j < lines[i].len() && lines[i][j] == '\n';
            assert(cells[i][j].ch == '\n');
        }
    }
    text::lemma_split_join(lines, '\n');
}

/// The cells of a screen of one width come to four for each of them.
pub proof fn lemma_four_for_each_cell(rows: Seq<int>, cols: int)
    requires
        cols >= 0,
        forall|i: int| 0 <= i < rows.len() ==> #[trigger] rows[i] == cols,
    ensures
        engate_wrap::total(rows) == rows.len() * cols,
        4 * rows.len() * cols <= usize::MAX ==> engate_wrap::cell_bytes(rows) == 4 * rows.len()
            * cols,
        4 * rows.len() * cols > usize::MAX ==> engate_wrap::cell_bytes(rows) == usize::MAX,
    decreases rows.len(),
{
    if rows.len() > 0 {
        let front = rows.drop_last();
        assert forall|i: int| 0 <= i < front.len() implies #[trigger] front[i] == cols by {
            assert(front[i] == rows[i]);
        }
        lemma_four_for_each_cell(front, cols);
        let n = rows.len() as int;
        assert(rows[n - 1] == cols);
        assert((n - 1) * cols + cols == n * cols) by (nonlinear_arith);
    } else {
        assert(0 * cols == 0) by (nonlinear_arith);
    }
    let n = rows.len() as int;
    assert(4 * (n * cols) == 4 * n * cols) by (nonlinear_arith);
}

// ── addresses ──

/// What is wrong with an address is what is wrong with the first of its labels
/// that is not valid; a text of valid labels is an address.
pub proof fn lemma_the_first_fault_of_an_address(s: Seq<char>)
    ensures
        ({
            let parts = text::split(s, '.');
            &&& s.len() == 0 ==> address::address_error(s) == Some(AddressErrorView::Empty)
            &&& s.len() > 0 ==> (address::address_error(s) is None <==> forall|i: int|
                0 <= i < parts.len() ==> address::is_segment(#[trigger] parts[i]))
            &&& (s.len() > 0 && address::address_error(s) is Some) ==> (address::address_error(s)
                matches Some(AddressErrorView::Segment { index, source }) && 0 <= index
                < parts.len() && address::segment_error(parts[index]) == Some(source) && forall|
                j: int,
            | 0 <= j < index ==> address::is_segment(#[trigger] parts[j]))
        }),
{
    let parts = text::split(s, '.');
    lemma_first_bad(parts);
}

proof fn lemma_first_bad(parts: Seq<Seq<char>>)
    ensures
        0 <= address::first_bad(parts) <= parts.len(),
        address::first_bad(parts) < parts.len() ==> !address::is_segment(
            parts[address::first_bad(parts)],
        ),
        forall|j: int|
            0 <= j < address::first_bad(parts) ==> address::is_segment(#[trigger] parts[j]),
    decreases parts.len(),
{
    if parts.len() > 0 && address::segment_error(parts[0]) is None {
        let rest = parts.drop_first();
        lemma_first_bad(rest);
        let n = address::first_bad(parts);
        assert(n == 1 + address::first_bad(rest));
        assert forall|j: int| 0 <= j < n implies address::is_segment(#[trigger] parts[j]) by {
            if j > 0 {
                assert(parts[j] == rest[j - 1]);
            }
        }
        if n < parts.len() {
            assert(parts[n] == rest[n - 1]);
        }
    }
}

/// What is wrong with a part of a pattern: a tail that is not the last part, or
/// anything that is neither a star nor a valid label.
pub proof fn lemma_what_is_wrong_with_a_part(part: Seq<char>, i: int, n: int)
    ensures
        address::part_error(part, i, n) is None <==> part == seq!['*'] || (part == seq!['>'] && i
            == n - 1) || (part != seq!['>'] && address::is_segment(part)),
        address::part_error(part, i, n) == Some(PatternErrorView::TailNotFinal { index: i }) <==> part
            == seq!['>'] && i != n - 1,
        address::part_error(part, i, n) is None ==> {
            &&& address::part_token(part) is One <==> part == seq!['*']
            &&& address::part_token(part) is Tail <==> part == seq!['>']
            &&& part != seq!['*'] && part != seq!['>'] ==> address::part_token(part)
                == TokenView::Literal(part)
            &&& address::part_token(part).chars() == part
        },
{
    assert(seq!['*'][0] == '*' && seq!['>'][0] == '>');
}

/// The character that is told as illegal is the first one that is neither a letter,
/// a digit, a dash nor an underscore.
pub proof fn lemma_the_first_illegal_character(s: Seq<char>, i: int)
    ensures
        0 <= address::first_illegal(s) <= s.len(),
        0 <= i < address::first_illegal(s) ==> address::is_legal(s[i]),
        address::first_illegal(s) < s.len() ==> !address::is_legal(s[address::first_illegal(s)]),
    decreases s.len(),
{
    if s.len() > 0 && address::is_legal(s[0]) {
        let rest = s.drop_first();
        lemma_the_first_illegal_character(rest, i - 1);
        if i > 0 && i < address::first_illegal(s) {
            assert(rest[i - 1] == s[i]);
        }
        let n = address::first_illegal(s);
        if n < s.len() {
            assert(rest[n - 1] == s[n]);
        }
    }
}

/// The characters that a label may hold.
pub proof fn lemma_the_characters_of_a_label(c: char)
    ensures
        address::is_legal(c) <==> ('a' <= c && c <= 'z') || ('A' <= c && c <= 'Z') || ('0' <= c && c
            <= '9') || c == '-' || c == '_',
{
}

/// A label is valid exactly where it has between one and 64 characters, each of them
/// a letter, a digit, a dash or an underscore.
pub proof fn lemma_what_a_label_is(s: Seq<char>)
    ensures
        address::is_segment(s) <==> 1 <= s.len() <= 64 && forall|i: int|
            0 <= i < s.len() ==> address::is_legal(#[trigger] s[i]),
        s.len() > 0 && s.contains('.') ==> address::segment_error(s) == Some(
            SegmentErrorView::ContainsSeparator(s),
        ),
        s.len() == 0 ==> address::segment_error(s) == Some(SegmentErrorView::Empty),
{
    if address::is_segment(s) {
        address::lemma_segment_rules(s);
    }
    if 1 <= s.len() <= 64 && forall|i: int|
        0 <= i < s.len() ==> address::is_legal(#[trigger] s[i]) {
        if s.contains('.') {
            let i = choose|i: int| 0 <= i < s.len() && s[i] == '.';
            assert(address::is_legal(s[i]));
        }
        if address::has_white_space(s) {
            let i = choose|i: int| 0 <= i < s.len() && text::white_space(#[trigger] s[i]);
            assert(address::is_legal(s[i]));
        }
        assert(address::is_legal(s[0]));
        assert(seq!['*'][0] == '*' && seq!['>'][0] == '>');
        lemma_the_first_illegal_character(s, 0);
        let n = address::first_illegal(s);
        if n < s.len() {
            assert(address::is_legal(s[n]));
        }
    }
}

/// A star takes any one label, a label takes itself alone, and a pattern of as
/// many tokens takes an address exactly where each token takes its label.
pub proof fn lemma_what_a_pattern_takes(
    p: Seq<TokenView>,
    a: Seq<Seq<char>>,
)
    requires
        p.len() >= 1,
        p.len() == a.len(),
        forall|i: int| 0 <= i < p.len() ==> !(#[trigger] p[i] is Tail),
    ensures
        address::pattern_matches(p, a) <==> forall|i: int|
            0 <= i < p.len() ==> ((#[trigger] p[i]) is One || p[i] == TokenView::Literal(a[i])),
{
    assert(p.last() == p[p.len() - 1]);
    if address::pattern_matches(p, a) {
        assert forall|i: int| 0 <= i < p.len() implies ((#[trigger] p[i]) is One || p[i]
            == TokenView::Literal(a[i])) by {
            assert(p[i].takes(a[i]));
        }
    }
    if forall|i: int|
        0 <= i < p.len() ==> ((#[trigger] p[i]) is One || p[i] == TokenView::Literal(a[i])) {
        assert forall|i: int| 0 <= i < p.len() implies (#[trigger] p[i]).takes(a[i]) by {}
    }
}

// ── order of names ──

/// `a` and `b` agree up to a place, and there `a` ends or has the smaller
/// character.
pub open spec fn smaller_at(a: Seq<char>, b: Seq<char>, k: int) -> bool {
    &&& 0 <= k <= a.len()
    &&& k < b.len()
    &&& a.take(k) == b.take(k)
    &&& k == a.len() || a[k] < b[k]
}

/// One name comes before another where they first differ.
pub proof fn lemma_the_order_of_names(a: Seq<char>, b: Seq<char>)
    ensures
        capability::before(a, b) <==> exists|k: int| #[trigger] smaller_at(a, b, k),
    decreases a.len(),
{
    if b.len() > 0 && a.len() == 0 {
        assert(a.take(0) =~= b.take(0));
        assert(smaller_at(a, b, 0));
    } else if b.len() > 0 {
        let x = a.drop_first();
        let y = b.drop_first();
        lemma_the_order_of_names(x, y);
        if a[0] != b[0] {
            if a[0] < b[0] {
                assert(a.take(0) =~= b.take(0));
                assert(smaller_at(a, b, 0));
            }
            assert forall|k: int| #[trigger] smaller_at(a, b, k) implies a[0] < b[0] by {
                if k > 0 {
                    assert(a.take(k)[0] == b.take(k)[0]);
                }
            }
        } else {
            if capability::before(x, y) {
                let k = choose|k: int| #[trigger] smaller_at(x, y, k);
                assert(a.take(k + 1) =~= seq![a[0]] + x.take(k));
                assert(b.take(k + 1) =~= seq![b[0]] + y.take(k));
                assert(smaller_at(a, b, k + 1));
            }
            if exists|k: int| #[trigger] smaller_at(a, b, k) {
                let k = choose|k: int| #[trigger] smaller_at(a, b, k);
                assert(k > 0);
                assert(x.take(k - 1) =~= a.take(k).drop_first());
                assert(y.take(k - 1) =~= b.take(k).drop_first());
                assert(smaller_at(x, y, k - 1));
            }
        }
    }
}

// ── times and errors ──

/// The seconds of a time are its milliseconds by the thousand; a time before the
/// epoch has none of either.
pub proof fn lemma_seconds_are_milliseconds_by_the_thousand(t: std::time::SystemTime)
    ensures
        clock::epoch_nanos(t) < 0 ==> clock::seconds_of(t) == 0 && clock::millis_of(t) == 0,
        clock::millis_of(t) < u64::MAX ==> clock::seconds_of(t) == clock::millis_of(t) / 1000,
        0 <= clock::epoch_nanos(t) && clock::millis_of(t) < u64::MAX ==> clock::millis_of(t)
            * 1_000_000 <= clock::epoch_nanos(t) < (clock::millis_of(t) + 1) * 1_000_000,
{
    let n = clock::epoch_nanos(t);
    if n >= 0 {
        assert((n / 1_000_000) / 1000 == n / 1_000_000_000) by {
            vstd::arithmetic::div_mod::lemma_div_denominator(n, 1_000_000, 1000);
        }
    }
}

/// An error travels as what it is; a capability that is missing is a rejection.
pub proof fn lemma_errors_travel(e: ControlErrorView)
    ensures
        e matches ControlErrorView::NoSuchSession(id) ==> wire::on_wire(e)
            == WireErrorView::NoSuchSession(id),
        e matches ControlErrorView::NoSuchWindow(id) ==> wire::on_wire(e)
            == WireErrorView::NoSuchWindow(id),
        e matches ControlErrorView::NoSuchPane(id) ==> wire::on_wire(e)
            == WireErrorView::NoSuchPane(id),
        e matches ControlErrorView::Transport(s) ==> wire::on_wire(e) == WireErrorView::Transport(
            s,
        ),
        e matches ControlErrorView::Rejected(s) ==> wire::on_wire(e) == WireErrorView::Rejected(s),
        e matches ControlErrorView::Internal(s) ==> wire::on_wire(e) == WireErrorView::Internal(s),
        e is Unsupported ==> wire::on_wire(e) is Rejected,
{
}

} // verus!
