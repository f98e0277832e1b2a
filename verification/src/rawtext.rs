//! Bytes as text without loss: what is well-formed UTF-8 as the characters it
//! encodes, and each other byte as a character of its own.
use crate::text::{chars_of, utf8_text};
use vstd::prelude::*;
use vstd::utf8;

verus! {

/// The character that stands for a byte outside well-formed UTF-8. All of them
/// lie in the last plane of private use.
pub open spec fn raw_char(b: u8) -> char {
    (0x10FE00 + b) as char
}

/// Whether a character stands for a byte.
pub open spec fn stands_for_byte(c: char) -> bool {
    0x10FE80 <= c as u32 <= 0x10FEFF
}

/// The text of bytes. A well-formed character that would itself stand for a byte
/// is written byte by byte.
pub open spec fn lossless_text(bytes: Seq<u8>) -> Seq<char>
    decreases bytes.len(),
{
    if bytes.len() == 0 {
        Seq::empty()
    } else if utf8::valid_first_scalar(bytes) && !stands_for_byte(
        utf8::decode_first_scalar(bytes) as char,
    ) {
        seq![utf8::decode_first_scalar(bytes) as char] + lossless_text(
            utf8::pop_first_scalar(bytes),
        )
    } else {
        seq![raw_char(bytes[0])] + lossless_text(bytes.drop_first())
    }
}

/// The bytes that a character is written for.
pub open spec fn bytes_of_char(c: char) -> Seq<u8> {
    if stands_for_byte(c) {
        seq![(c as u32 - 0x10FE00) as u8]
    } else {
        utf8::encode_scalar(c as u32)
    }
}

/// The bytes that a text is written for.
pub open spec fn bytes_of(text: Seq<char>) -> Seq<u8>
    decreases text.len(),
{
    if text.len() == 0 {
        Seq::empty()
    } else {
        bytes_of_char(text[0]) + bytes_of(text.drop_first())
    }
}

proof fn lemma_first_scalar(bytes: Seq<u8>)
    requires
        utf8::valid_first_scalar(bytes),
    ensures
        1 <= utf8::length_of_first_scalar(bytes) <= bytes.len(),
        utf8::encode_scalar((utf8::decode_first_scalar(bytes) as char) as u32)
            == utf8::take_first_scalar(bytes),
        bytes == utf8::take_first_scalar(bytes) + utf8::pop_first_scalar(bytes),
{
    let t = utf8::take_first_scalar(bytes);
    assert(utf8::length_of_first_scalar(t) == t.len());
    assert(utf8::valid_first_scalar(t));
    assert(utf8::pop_first_scalar(t).len() == 0);
    assert(utf8::valid_utf8(utf8::pop_first_scalar(t)));
    assert(utf8::valid_utf8(t));
    utf8::decode_utf8_first_scalar(t);
    assert(utf8::take_first_scalar(t) =~= t);
    assert(bytes =~= t + utf8::pop_first_scalar(bytes));
}

proof fn lemma_ascii_is_a_scalar(bytes: Seq<u8>)
    requires
        bytes.len() > 0,
        bytes[0] < 0x80,
    ensures
        utf8::valid_first_scalar(bytes),
        utf8::decode_first_scalar(bytes) == bytes[0],
        utf8::length_of_first_scalar(bytes) == 1,
{
    let b = bytes[0];
    assert(b < 0x80u8 ==> b & 0x7F == b) by (bit_vector);
}

/// The bytes can be read back from their text, so different bytes have different
/// texts.
pub proof fn lemma_text_keeps_the_bytes(bytes: Seq<u8>)
    ensures
        bytes_of(lossless_text(bytes)) == bytes,
    decreases bytes.len(),
{
    if bytes.len() > 0 {
        let all = lossless_text(bytes);
        if utf8::valid_first_scalar(bytes) && !stands_for_byte(
            utf8::decode_first_scalar(bytes) as char,
        ) {
            lemma_first_scalar(bytes);
            let rest = utf8::pop_first_scalar(bytes);
            assert(all.drop_first() =~= lossless_text(rest));
            lemma_text_keeps_the_bytes(rest);
        } else {
            if bytes[0] < 0x80 {
                lemma_ascii_is_a_scalar(bytes);
            }
            assert(all.drop_first() =~= lossless_text(bytes.drop_first()));
            lemma_text_keeps_the_bytes(bytes.drop_first());
            assert(bytes =~= seq![bytes[0]] + bytes.drop_first());
        }
        assert(all[0] == all.first());
    }
}

/// Well-formed UTF-8 is its own text, unless it holds a character that stands for
/// a byte.
pub proof fn lemma_well_formed_text_stays(bytes: Seq<u8>)
    requires
        utf8::valid_utf8(bytes),
        forall|i: int|
            0 <= i < utf8::decode_utf8(bytes).len() ==> !stands_for_byte(
                #[trigger] utf8::decode_utf8(bytes)[i],
            ),
    ensures
        lossless_text(bytes) == utf8::decode_utf8(bytes),
    decreases bytes.len(),
{
    let all = utf8::decode_utf8(bytes);
    if bytes.len() > 0 {
        lemma_first_scalar(bytes);
        let rest = utf8::pop_first_scalar(bytes);
        let tail = utf8::decode_utf8(rest);
        assert(all[0] == utf8::decode_first_scalar(bytes) as char);
        assert forall|i: int| 0 <= i < tail.len() implies !stands_for_byte(#[trigger] tail[i]) by {
            assert(all[i + 1] == tail[i]);
        }
        lemma_well_formed_text_stays(rest);
    }
}

/// The character of a byte outside ASCII.
fn byte_as_char(b: u8) -> (c: char)
    requires
        b >= 0x80,
    ensures
        c == raw_char(b),
{
    let third: u8 = if b < 0xC0 {
        0xBA
    } else {
        0xBB
    };
    let fourth: u8 = 0x80 + b % 0x40;
    let code: Vec<u8> = vec![0xF4, 0x8F, third, fourth];
    proof {
        let t = code@;
        assert(b >= 0x80u8 && third == (if b < 0xC0u8 {
            0xBAu8
        } else {
            0xBBu8
        }) && fourth == 0x80u8 + b % 0x40u8 ==> (((0xF4u8 & 0x07) as u32) << 18) | (((0x8Fu8
            & 0x3f) as u32) << 12) | (((third & 0x3f) as u32) << 6) | ((fourth & 0x3f) as u32)
            == 0x10FE00u32 + b as u32)
            by (bit_vector);
        assert(utf8::decode_first_codepoint(t) == 0x10FE00 + b);
        assert(utf8::valid_first_scalar(t));
        assert(utf8::pop_first_scalar(t).len() == 0);
        assert(utf8::valid_utf8(utf8::pop_first_scalar(t)));
        assert(utf8::valid_utf8(t));
        assert(utf8::decode_utf8(t)[0] == raw_char(b));
    }
    match utf8_text(code.as_slice()) {
        Some(s) => chars_of(s.as_str())[0],
        None => ' ',
    }
}

/// The character that bytes start with, and how many bytes it takes.
fn first_char(bytes: &[u8], from: usize) -> (r: Option<(char, usize)>)
    requires
        from < bytes@.len(),
    ensures
        r is Some <==> utf8::valid_first_scalar(bytes@.skip(from as int)),
        r is Some ==> {
            &&& (r->0).0 == utf8::decode_first_scalar(bytes@.skip(from as int)) as char
            &&& (r->0).1 == utf8::length_of_first_scalar(bytes@.skip(from as int))
            &&& from + (r->0).1 <= bytes@.len()
        },
{
    let ghost rest = bytes@.skip(from as int);
    let b: u8 = bytes[from];
    if b < 0x80 {
        proof {
            lemma_ascii_is_a_scalar(rest);
        }
        return Some((b as char, 1));
    }
    let width: usize = if 0xC0 <= b && b <= 0xDF {
        2
    } else if 0xE0 <= b && b <= 0xEF {
        3
    } else {
        4
    };
    if bytes.len() - from < width {
        return None;
    }
    let part = vstd::slice::slice_subrange(bytes, from, from + width);
    proof {
        let t = part@;
        assert(t =~= rest.take(width as int));
        assert(utf8::length_of_first_codepoint(rest) == width);
        assert(utf8::valid_first_scalar(t) == utf8::valid_first_scalar(rest));
        if utf8::valid_first_scalar(t) {
            assert(utf8::pop_first_scalar(t).len() == 0);
            assert(utf8::valid_utf8(utf8::pop_first_scalar(t)));
        }
        assert(utf8::valid_utf8(t) == utf8::valid_first_scalar(rest));
    }
    match utf8_text(part) {
        Some(s) => {
            let c: char = chars_of(s.as_str())[0];
            Some((c, width))
        },
        None => None,
    }
}

/// The text of bytes.
pub fn text_of_bytes(bytes: &[u8]) -> (r: String)
    ensures
        r@ == lossless_text(bytes@),
{
    let mut r: String = String::new();
    let mut i: usize = 0;
    assert(bytes@.skip(0) =~= bytes@);
    while i < bytes.len()
        invariant
            i <= bytes@.len(),
            r@ + lossless_text(bytes@.skip(i as int)) == lossless_text(bytes@),
        decreases bytes@.len() - i,
    {
        let ghost rest = bytes@.skip(i as int);
        let ghost before = r@;
        match first_char(bytes, i) {
            Some((c, width)) if !(0x10FE80 <= c as u32 && c as u32 <= 0x10FEFF) => {
                r.push(c);
                proof {
                    lemma_first_scalar(rest);
                    assert(utf8::pop_first_scalar(rest) =~= bytes@.skip(i + width));
                    assert(before + lossless_text(rest) =~= r@ + lossless_text(
                        bytes@.skip(i + width),
                    ));
                }
                i = i + width;
            },
            _ => {
                proof {
                    if rest[0] < 0x80 {
                        lemma_ascii_is_a_scalar(rest);
                    }
                }
                r.push(byte_as_char(bytes[i]));
                proof {
                    assert(rest.drop_first() =~= bytes@.skip(i + 1));
                    assert(before + lossless_text(rest) =~= r@ + lossless_text(bytes@.skip(i + 1)));
                }
                i = i + 1;
            },
        }
    }
    assert(r@ =~= lossless_text(bytes@));
    r
}

fn push_char_bytes(out: &mut Vec<u8>, c: char)
    ensures
        final(out)@ == old(out)@ + utf8::encode_scalar(c as u32),
{
    let mut s = String::new();
    s.push(c);
    proof {
        assert(s@ =~= seq![c]);
        assert(s@.drop_first() =~= Seq::<char>::empty());
        assert(utf8::encode_utf8(s@.drop_first()) =~= Seq::<u8>::empty());
        assert(utf8::encode_utf8(s@) =~= utf8::encode_scalar(c as u32));
    }
    let bytes = s.as_str().as_bytes();
    let ghost before = out@;
    let mut i: usize = 0;
    assert(before + bytes@.take(0) =~= before);
    while i < bytes.len()
        invariant
            i <= bytes@.len(),
            out@ == before + bytes@.take(i as int),
        decreases bytes@.len() - i,
    {
        out.push(bytes[i]);
        assert(bytes@.take(i + 1) =~= bytes@.take(i as int).push(bytes@[i as int]));
        i = i + 1;
    }
    assert(bytes@.take(i as int) =~= bytes@);
}

/// The bytes that a text was written for.
pub fn bytes_of_text(text: &str) -> (r: Vec<u8>)
    ensures
        r@ == bytes_of(text@),
{
    let v = chars_of(text);
    let mut r: Vec<u8> = Vec::new();
    let mut i: usize = 0;
    assert(v@.skip(0) =~= v@);
    while i < v.len()
        invariant
            i <= v@.len(),
            r@ + bytes_of(v@.skip(i as int)) == bytes_of(v@),
        decreases v@.len() - i,
    {
        let c: char = v[i];
        let ghost rest = v@.skip(i as int);
        let ghost before = r@;
        if 0x10FE80 <= c as u32 && c as u32 <= 0x10FEFF {
            r.push((c as u32 - 0x10FE00) as u8);
        } else {
            push_char_bytes(&mut r, c);
        }
        proof {
            assert(rest[0] == c);
            assert(rest.drop_first() =~= v@.skip(i + 1));
            assert(r@ =~= before + bytes_of_char(c));
            assert(before + bytes_of(rest) =~= r@ + bytes_of(v@.skip(i + 1)));
        }
        i = i + 1;
    }
    assert(r@ =~= bytes_of(v@));
    r
}

} // verus!
