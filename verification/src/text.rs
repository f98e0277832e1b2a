//! Text as sequences of characters: numbers to digits and back, splitting,
//! joining, trimming.
use vstd::prelude::*;

verus! {

/// `String::push`: the character is added at the end.
pub assume_specification[ String::push ](s: &mut String, c: char)
    ensures
        final(s)@ == old(s)@.push(c),
;

/// Whether a character has Unicode's `White_Space` property.
pub open spec fn white_space(c: char) -> bool {
    let n = c as u32;
    ||| 0x9 <= n <= 0xd
    ||| n == 0x20
    ||| n == 0x85
    ||| n == 0xa0
    ||| n == 0x1680
    ||| 0x2000 <= n <= 0x200a
    ||| n == 0x2028
    ||| n == 0x2029
    ||| n == 0x202f
    ||| n == 0x205f
    ||| n == 0x3000
}

/// `char::is_whitespace`: true exactly of the characters that have Unicode's
/// `White_Space` property.
pub assume_specification[ char::is_whitespace ](c: char) -> (r: bool)
    ensures
        r == white_space(c),
;

/// `std::str::from_utf8`: text is returned exactly for well-formed UTF-8, and
/// it is what the bytes encode.
#[verifier::external_body]
pub(crate) fn utf8_text(bytes: &[u8]) -> (r: Option<String>)
    ensures
        r is Some <==> vstd::utf8::valid_utf8(bytes@),
        r is Some ==> r->0@ == vstd::utf8::decode_utf8(bytes@),
{
    std::str::from_utf8(bytes).ok().map(|s| s.to_owned())
}

/// The text that `String::from_utf8_lossy` makes of bytes.
pub uninterp spec fn lossy_text(bytes: Seq<u8>) -> Seq<char>;

/// `String::from_utf8_lossy`: a function of the bytes alone, and on well-formed
/// UTF-8 what they encode. Which replacement characters stand for malformed
/// bytes is left to the name.
#[verifier::external_body]
pub(crate) fn utf8_lossy(bytes: &[u8]) -> (r: String)
    ensures
        r@ == lossy_text(bytes@),
        vstd::utf8::valid_utf8(bytes@) ==> r@ == vstd::utf8::decode_utf8(bytes@),
{
    String::from_utf8_lossy(bytes).into_owned()
}

/// The characters of a string.
pub fn chars_of(s: &str) -> (r: Vec<char>)
    ensures
        r@ == s@,
{
    let mut r: Vec<char> = Vec::new();
    let it = s.chars();
    for c in iter: it
        invariant
            iter.seq() == s@,
            r@ == s@.take(iter.index() as int),
    {
        proof {
            assert(s@.take(iter.index() as int + 1) =~= s@.take(iter.index() as int).push(s@[iter.index() as int]));
        }
        r.push(c);
    }
    assert(r@ =~= s@);
    r
}

/// The string of a sequence of characters.
pub fn string_of(v: &Vec<char>) -> (r: String)
    ensures
        r@ == v@,
{
    let mut r: String = String::new();
    let mut i: usize = 0;
    while i < v.len()
        invariant
            i <= v@.len(),
            r@ == v@.take(i as int),
        decreases v@.len() - i,
    {
        r.push(v[i]);
        i = i + 1;
        assert(r@ =~= v@.take(i as int));
    }
    assert(r@ =~= v@);
    r
}

/// Whether two strings hold the same characters.
pub fn str_eq(a: &str, b: &str) -> (r: bool)
    ensures
        r == (a@ == b@),
{
    a.to_owned() == b.to_owned()
}

/// The decimal digit of `d`.
pub open spec fn digit_char(d: int) -> char {
    (48 + d) as char
}

/// The decimal digits of `n`, without leading zeros.
pub open spec fn decimal(n: nat) -> Seq<char>
    decreases n,
{
    if n < 10 {
        seq![digit_char(n as int)]
    } else {
        decimal(n / 10).push(digit_char((n % 10) as int))
    }
}

/// Appends the decimal digits of `n`.
pub fn push_decimal(out: &mut String, n: u128)
    ensures
        final(out)@ == old(out)@ + decimal(n as nat),
    decreases n,
{
    if n >= 10 {
        push_decimal(out, n / 10);
    }
    let d: u8 = (n % 10) as u8;
    out.push((48 + d) as char);
    assert(out@ =~= old(out)@ + decimal(n as nat));
}

/// The decimal digits of `n` as ASCII bytes.
pub open spec fn decimal_bytes(n: nat) -> Seq<u8>
    decreases n,
{
    if n < 10 {
        seq![(48 + n) as u8]
    } else {
        decimal_bytes(n / 10).push((48 + n % 10) as u8)
    }
}

/// Appends the decimal digits of `n` as ASCII bytes.
pub fn push_decimal_bytes(out: &mut Vec<u8>, n: usize)
    ensures
        final(out)@ == old(out)@ + decimal_bytes(n as nat),
    decreases n,
{
    if n >= 10 {
        push_decimal_bytes(out, n / 10);
    }
    let d: u8 = (n % 10) as u8;
    out.push(48 + d);
    assert(out@ =~= old(out)@ + decimal_bytes(n as nat));
}

/// True of the ten decimal digits.
#[verifier::allow_in_spec]
pub fn is_digit(c: char) -> bool
    returns
        ('0' <= c && c <= '9'),
{
    '0' <= c && c <= '9'
}

/// The number that a run of decimal digits writes.
pub open spec fn digits_value(s: Seq<char>) -> nat
    decreases s.len(),
{
    if s.len() == 0 {
        0
    } else {
        digits_value(s.drop_last()) * 10 + (s.last() as nat - 48) as nat
    }
}

/// True of a run of decimal digits that is not empty.
pub open spec fn is_number(s: Seq<char>) -> bool {
    s.len() > 0 && forall|i: int| 0 <= i < s.len() ==> is_digit(#[trigger] s[i])
}

/// The digits of a number read back as the number.
pub proof fn lemma_decimal_reads_back(n: nat)
    ensures
        is_number(decimal(n)),
        digits_value(decimal(n)) == n,
    decreases n,
{
    if n < 10 {
        assert(decimal(n).drop_last() =~= Seq::<char>::empty());
        assert(digits_value(decimal(n).drop_last()) == 0);
        assert(digit_char(n as int) as int == 48 + n);
    } else {
        lemma_decimal_reads_back(n / 10);
        assert(decimal(n).drop_last() =~= decimal(n / 10));
        assert(digit_char((n % 10) as int) as int == 48 + n % 10);
    }
}

/// A signed number: an optional sign and at least one digit.
pub open spec fn signed_value(s: Seq<char>) -> Option<int> {
    if s.len() > 0 && s[0] == '-' {
        if is_number(s.skip(1)) {
            Some(-(digits_value(s.skip(1)) as int))
        } else {
            None
        }
    } else if s.len() > 0 && s[0] == '+' {
        if is_number(s.skip(1)) {
            Some(digits_value(s.skip(1)) as int)
        } else {
            None
        }
    } else if is_number(s) {
        Some(digits_value(s) as int)
    } else {
        None
    }
}

/// The `i32` that a text writes, where it is one.
pub open spec fn spec_parse_i32(s: Seq<char>) -> Option<i32> {
    match signed_value(s) {
        Some(v) => if i32::MIN <= v <= i32::MAX {
            Some(v as i32)
        } else {
            None
        },
        None => None,
    }
}

proof fn lemma_digits_value_grows(s: Seq<char>, k: int)
    requires
        0 <= k <= s.len(),
        forall|i: int| 0 <= i < s.len() ==> is_digit(#[trigger] s[i]),
    ensures
        digits_value(s.take(k)) <= digits_value(s),
    decreases s.len() - k,
{
    if k == s.len() {
        assert(s.take(k) =~= s);
    } else {
        lemma_digits_value_grows(s, k + 1);
        assert(s.take(k + 1).drop_last() =~= s.take(k));
        assert(digits_value(s.take(k + 1)) >= digits_value(s.take(k)) * 10);
    }
}

/// Reads a run of digits, at most 2^32.
fn read_digits(v: &Vec<char>, from: usize) -> (r: Option<u64>)
    requires
        from <= v@.len(),
    ensures
        match r {
            Some(n) => is_number(v@.skip(from as int)) && if digits_value(v@.skip(from as int))
                < 4294967296 {
                n == digits_value(v@.skip(from as int))
            } else {
                n == 4294967296
            },
            None => !is_number(v@.skip(from as int)),
        },
{
    let ghost body = v@.skip(from as int);
    if from == v.len() {
        return None;
    }
    let mut n: u64 = 0;
    let mut i: usize = from;
    assert(body.take(0) =~= Seq::<char>::empty());
    while i < v.len()
        invariant
            from <= i <= v@.len(),
            body == v@.skip(from as int),
            forall|j: int| 0 <= j < i - from ==> is_digit(#[trigger] body[j]),
            n <= 4294967296,
            n < 4294967296 ==> n == digits_value(body.take(i - from)),
            n == 4294967296 ==> digits_value(body.take(i - from)) >= 4294967296,
        decreases v@.len() - i,
    {
        let c: char = v[i];
        assert(c == body[i - from]);
        if !is_digit(c) {
            return None;
        }
        proof {
            assert(body.take(i - from + 1).drop_last() =~= body.take(i - from));
        }
        let d: u64 = c as u64 - 48;
        let next: u64 = n * 10 + d;
        n = if n == 4294967296 || next >= 4294967296 {
            4294967296
        } else {
            next
        };
        i = i + 1;
    }
    assert(body.take(body.len() as int) =~= body);
    Some(n)
}

/// Reads a signed 32-bit number, as `str::parse` does.
pub fn parse_i32(v: &Vec<char>) -> (r: Option<i32>)
    ensures
        r == spec_parse_i32(v@),
{
    if v.len() > 0 && v[0] == '-' {
        match read_digits(v, 1) {
            Some(n) => if n <= 2147483648 {
                Some((-(n as i64)) as i32)
            } else {
                None
            },
            None => None,
        }
    } else if v.len() > 0 && v[0] == '+' {
        match read_digits(v, 1) {
            Some(n) => if n <= 2147483647 {
                Some(n as i32)
            } else {
                None
            },
            None => None,
        }
    } else {
        assert(v@.skip(0) =~= v@);
        match read_digits(v, 0) {
            Some(n) => if n <= 2147483647 {
                Some(n as i32)
            } else {
                None
            },
            None => None,
        }
    }
}

/// The parts of `s` between the separators.
pub open spec fn split(s: Seq<char>, sep: char) -> Seq<Seq<char>>
    decreases s.len(),
{
    if s.len() == 0 {
        seq![Seq::<char>::empty()]
    } else {
        let before = split(s.drop_last(), sep);
        if s.last() == sep {
            before.push(Seq::empty())
        } else {
            before.drop_last().push(before.last().push(s.last()))
        }
    }
}

/// The parts with a separator between each two.
pub open spec fn join(parts: Seq<Seq<char>>, sep: char) -> Seq<char>
    decreases parts.len(),
{
    if parts.len() == 0 {
        Seq::empty()
    } else if parts.len() == 1 {
        parts[0]
    } else {
        join(parts.drop_last(), sep).push(sep) + parts.last()
    }
}

proof fn lemma_split_not_empty(s: Seq<char>, sep: char)
    ensures
        split(s, sep).len() >= 1,
    decreases s.len(),
{
    if s.len() > 0 {
        lemma_split_not_empty(s.drop_last(), sep);
    }
}

/// Joining what was split gives the text back.
pub proof fn lemma_join_split(s: Seq<char>, sep: char)
    ensures
        split(s, sep).len() >= 1,
        join(split(s, sep), sep) == s,
    decreases s.len(),
{
    if s.len() == 0 {
        assert(join(split(s, sep), sep) =~= s);
    } else {
        let rest = s.drop_last();
        let before = split(rest, sep);
        lemma_join_split(rest, sep);
        let now = split(s, sep);
        if s.last() == sep {
            assert(now.drop_last() =~= before);
            assert(now.last() =~= Seq::<char>::empty());
            assert(join(now, sep) =~= s);
        } else {
            assert(now.drop_last() =~= before.drop_last());
            assert(now.last() == before.last().push(s.last()));
            assert(before.last().push(s.last()).len() > 0);
            assert(rest.push(s.last()) =~= s);
            if before.len() == 1 {
                assert(before.last() == before[0]);
                assert(now[0] == now.last());
                assert(join(now, sep) =~= s);
            } else {
                assert(join(before, sep) == join(before.drop_last(), sep).push(sep) + before.last());
                assert(join(now, sep) == join(now.drop_last(), sep).push(sep) + now.last());
                assert(join(now, sep) =~= join(before, sep).push(s.last()));
            }
        }
    }
}

/// No part of a split text holds the separator.
pub proof fn lemma_split_parts_clean(s: Seq<char>, sep: char)
    ensures
        split(s, sep).len() >= 1,
        forall|i: int| 0 <= i < split(s, sep).len() ==> !(#[trigger] split(s, sep)[i]).contains(sep),
    decreases s.len(),
{
    if s.len() > 0 {
        let before = split(s.drop_last(), sep);
        lemma_split_parts_clean(s.drop_last(), sep);
        if s.last() != sep {
            let last = before.last();
            let now = last.push(s.last());
            assert(!last.contains(sep)) by {
                assert(last == before[before.len() - 1]);
            }
            assert(!now.contains(sep)) by {
                if now.contains(sep) {
                    let k = choose|k: int| 0 <= k < now.len() && now[k] == sep;
                    if k < last.len() {
                        assert(last[k] == sep);
                        assert(last.contains(sep));
                    }
                }
            }
        }
    }
}

proof fn lemma_split_without_separator(s: Seq<char>, sep: char)
    requires
        !s.contains(sep),
    ensures
        split(s, sep) == seq![s],
    decreases s.len(),
{
    if s.len() > 0 {
        let rest = s.drop_last();
        assert(!rest.contains(sep)) by {
            if rest.contains(sep) {
                let k = choose|k: int| 0 <= k < rest.len() && rest[k] == sep;
                assert(s[k] == sep);
            }
        }
        lemma_split_without_separator(rest, sep);
        assert(s.last() != sep) by {
            assert(s[s.len() - 1] == s.last());
        }
        assert(rest.push(s.last()) =~= s);
        assert(split(s, sep) =~= seq![s]);
    } else {
        assert(s =~= Seq::<char>::empty());
    }
}

proof fn lemma_split_append(a: Seq<char>, b: Seq<char>, sep: char)
    requires
        !b.contains(sep),
    ensures
        split(a.push(sep) + b, sep) == split(a, sep).push(b),
    decreases b.len(),
{
    let whole = a.push(sep) + b;
    if b.len() == 0 {
        assert(whole =~= a.push(sep));
        assert(whole.drop_last() =~= a);
        assert(b =~= Seq::<char>::empty());
    } else {
        let rest = b.drop_last();
        assert(!rest.contains(sep)) by {
            if rest.contains(sep) {
                let k = choose|k: int| 0 <= k < rest.len() && rest[k] == sep;
                assert(b[k] == sep);
            }
        }
        lemma_split_append(a, rest, sep);
        assert(whole.drop_last() =~= a.push(sep) + rest);
        assert(b.last() != sep) by {
            assert(b[b.len() - 1] == b.last());
        }
        let before = split(a, sep).push(rest);
        assert(before.drop_last() =~= split(a, sep));
        assert(rest.push(b.last()) =~= b);
    }
}

/// Splitting what was joined gives the parts back, where there is a part and
/// none holds the separator.
pub proof fn lemma_split_join(parts: Seq<Seq<char>>, sep: char)
    requires
        parts.len() >= 1,
        forall|i: int| 0 <= i < parts.len() ==> !(#[trigger] parts[i]).contains(sep),
    ensures
        split(join(parts, sep), sep) == parts,
    decreases parts.len(),
{
    if parts.len() == 1 {
        lemma_split_without_separator(parts[0], sep);
        assert(seq![parts[0]] =~= parts);
    } else {
        let rest = parts.drop_last();
        assert forall|i: int| 0 <= i < rest.len() implies !(#[trigger] rest[i]).contains(sep) by {
            assert(rest[i] == parts[i]);
        }
        lemma_split_join(rest, sep);
        assert(!parts[parts.len() - 1].contains(sep));
        lemma_split_append(join(rest, sep), parts.last(), sep);
        assert(rest.push(parts.last()) =~= parts);
    }
}

/// Splits a text at every separator.
pub fn split_chars(v: &Vec<char>, sep: char) -> (r: Vec<Vec<char>>)
    ensures
        crate::seqops::views(r@) == split(v@, sep),
        r@.len() >= 1,
{
    let mut parts: Vec<Vec<char>> = Vec::new();
    let mut cur: Vec<char> = Vec::new();
    let mut i: usize = 0;
    assert(crate::seqops::views(parts@).push(cur@) =~= split(v@.take(0), sep));
    while i < v.len()
        invariant
            i <= v@.len(),
            crate::seqops::views(parts@).push(cur@) == split(v@.take(i as int), sep),
        decreases v@.len() - i,
    {
        let c: char = v[i];
        let ghost before = crate::seqops::views(parts@).push(cur@);
        proof {
            assert(v@.take(i + 1).drop_last() =~= v@.take(i as int));
            assert(before.drop_last() =~= crate::seqops::views(parts@));
        }
        if c == sep {
            let mut full: Vec<char> = Vec::new();
            std::mem::swap(&mut full, &mut cur);
            parts.push(full);
            assert(crate::seqops::views(parts@) =~= before);
        } else {
            cur.push(c);
        }
        i = i + 1;
    }
    assert(v@.take(v@.len() as int) =~= v@);
    let ghost before = crate::seqops::views(parts@);
    let ghost last = cur@;
    parts.push(cur);
    assert(crate::seqops::views(parts@) =~= before.push(last));
    parts
}

/// Joins parts with a separator between each two.
pub fn join_chars(parts: &Vec<Vec<char>>, sep: char) -> (r: Vec<char>)
    ensures
        r@ == join(crate::seqops::views(parts@), sep),
{
    let mut r: Vec<char> = Vec::new();
    let mut i: usize = 0;
    let ghost all = crate::seqops::views(parts@);
    while i < parts.len()
        invariant
            i <= parts@.len(),
            all == crate::seqops::views(parts@),
            r@ == join(all.take(i as int), sep),
        decreases parts@.len() - i,
    {
        if i > 0 {
            r.push(sep);
        }
        let mut part = crate::seqops::copied(&parts[i]);
        r.append(&mut part);
        proof {
            assert(all.take(i + 1).drop_last() =~= all.take(i as int));
            assert(all.take(i + 1).last() == all[i as int]);
            if i == 0 {
                assert(r@ =~= all[0]);
            }
        }
        i = i + 1;
    }
    assert(all.take(all.len() as int) =~= all);
    r
}

/// A text without the white space before and after it.
pub open spec fn trim(s: Seq<char>) -> Seq<char>
    decreases s.len(),
{
    if s.len() > 0 && white_space(s[0]) {
        trim(s.drop_first())
    } else if s.len() > 0 && white_space(s.last()) {
        trim(s.drop_last())
    } else {
        s
    }
}

/// Removes the white space before and after a text.
pub fn trim_chars(v: &Vec<char>) -> (r: Vec<char>)
    ensures
        r@ == trim(v@),
{
    let mut from: usize = 0;
    let mut to: usize = v.len();
    assert(v@.subrange(0, v@.len() as int) =~= v@);
    while from < to && v[from].is_whitespace()
        invariant
            from <= to == v@.len(),
            trim(v@.subrange(from as int, to as int)) == trim(v@),
        decreases to - from,
    {
        proof {
            let cur = v@.subrange(from as int, to as int);
            assert(cur.drop_first() =~= v@.subrange(from + 1, to as int));
        }
        from = from + 1;
    }
    while from < to && v[to - 1].is_whitespace()
        invariant
            from <= to <= v@.len(),
            from < to ==> !white_space(v@[from as int]),
            trim(v@.subrange(from as int, to as int)) == trim(v@),
        decreases to - from,
    {
        proof {
            let cur = v@.subrange(from as int, to as int);
            assert(cur.drop_last() =~= v@.subrange(from as int, to - 1));
        }
        to = to - 1;
    }
    vstd::slice::slice_to_vec(vstd::slice::slice_subrange(v.as_slice(), from, to))
}

} // verus!
