//! The text of JSON strings, and the shape of a JSON line.
use crate::digest;
use crate::recording;
use serde_json::Value;
use vstd::prelude::*;

verus! {

/// What stands for one character inside a JSON string.
pub open spec fn escaped_char(c: char) -> Seq<char> {
    if c == '"' {
        seq!['\\', '"']
    } else if c == '\\' {
        seq!['\\', '\\']
    } else if c as u32 == 8 {
        seq!['\\', 'b']
    } else if c as u32 == 9 {
        seq!['\\', 't']
    } else if c as u32 == 10 {
        seq!['\\', 'n']
    } else if c as u32 == 12 {
        seq!['\\', 'f']
    } else if c as u32 == 13 {
        seq!['\\', 'r']
    } else if (c as u32) < 32 {
        seq!['\\', 'u', '0', '0'] + digest::hex(c as nat, 2)
    } else {
        seq![c]
    }
}

pub open spec fn escaped(s: Seq<char>) -> Seq<char>
    decreases s.len(),
{
    if s.len() == 0 {
        Seq::empty()
    } else {
        escaped(s.drop_last()) + escaped_char(s.last())
    }
}

/// A text as a JSON string, with its quotes.
pub open spec fn quoted(s: Seq<char>) -> Seq<char> {
    seq!['"'] + escaped(s) + seq!['"']
}

proof fn lemma_escaped_from_the_front(s: Seq<char>)
    requires
        s.len() > 0,
    ensures
        escaped(s) == escaped_char(s[0]) + escaped(s.drop_first()),
        escaped(s).len() > 0,
    decreases s.len(),
{
    assert(escaped_char(s[0]).len() > 0);
    if s.len() == 1 {
        assert(s.drop_last() =~= Seq::<char>::empty());
        assert(s.drop_first() =~= Seq::<char>::empty());
        assert(escaped(s) =~= escaped_char(s[0]) + escaped(s.drop_first()));
    } else {
        lemma_escaped_from_the_front(s.drop_last());
        assert(s.drop_last().drop_first() =~= s.drop_first().drop_last());
        assert(escaped(s) =~= escaped_char(s[0]) + escaped(s.drop_first()));
    }
}

proof fn lemma_two_hex_digits(a: char)
    requires
        (a as u32) < 32,
    ensures
        digest::hex(a as nat, 2) == seq![
            digest::hex_char((a as u32 / 16) as int),
            digest::hex_char((a as u32 % 16) as int),
        ],
{
    reveal_with_fuel(digest::hex, 3);
    assert(digest::hex(a as nat, 2) =~= seq![
        digest::hex_char((a as u32 / 16) as int),
        digest::hex_char((a as u32 % 16) as int),
    ]);
}

proof fn lemma_escapes_are_told_apart(a: char, b: char, x: Seq<char>, y: Seq<char>)
    requires
        escaped_char(a) + x == escaped_char(b) + y,
    ensures
        a == b,
        x == y,
{
    let p = escaped_char(a) + x;
    let q = escaped_char(b) + y;
    if (a as u32) < 32 {
        lemma_two_hex_digits(a);
    }
    if (b as u32) < 32 {
        lemma_two_hex_digits(b);
    }
    assert(p[0] == escaped_char(a)[0] && q[0] == escaped_char(b)[0]);
    if p[0] == '\\' {
        assert(p[1] == escaped_char(a)[1] && q[1] == escaped_char(b)[1]);
        if p[1] == 'u' {
            assert(p[4] == escaped_char(a)[4] && q[4] == escaped_char(b)[4]);
            assert(p[5] == escaped_char(a)[5] && q[5] == escaped_char(b)[5]);
        }
    }
    assert(a == b);
    let n = escaped_char(a).len() as int;
    assert(x =~= p.skip(n));
    assert(y =~= q.skip(n));
}

/// Two texts that are escaped alike are the same.
pub proof fn lemma_escaping_keeps_texts_apart(s: Seq<char>, t: Seq<char>)
    requires
        escaped(s) == escaped(t),
    ensures
        s == t,
    decreases s.len(),
{
    if s.len() > 0 {
        lemma_escaped_from_the_front(s);
    }
    if t.len() > 0 {
        lemma_escaped_from_the_front(t);
    }
    if s.len() > 0 && t.len() > 0 {
        lemma_escapes_are_told_apart(
            s[0],
            t[0],
            escaped(s.drop_first()),
            escaped(t.drop_first()),
        );
        lemma_escaping_keeps_texts_apart(s.drop_first(), t.drop_first());
        assert(s =~= seq![s[0]] + s.drop_first());
        assert(t =~= seq![t[0]] + t.drop_first());
    } else {
        assert(s =~= t);
    }
}

/// Writes a `serde_json::Value` made from a text with its `Display`: the text
/// between quotes, where a quote, a backslash and the characters under a space
/// are escaped, five of them by a letter and the others by four hexadecimal
/// digits, and every other character stands for itself.
#[verifier::external_body]
pub(crate) fn json_string(s: &str) -> (r: String)
    ensures
        r@ == quoted(s@),
{
    serde_json::Value::from(s).to_string()
}

/// One element of a JSON array, as far as its kind is known.
#[derive(Debug, PartialEq, Eq)]
pub enum JsonItem {
    /// A number, by its text.
    Number(String),
    Text(String),
    /// Anything else.
    Other,
}

/// The contents of a [`JsonItem`].
#[verifier::ext_equal]
pub enum JsonItemView {
    Number(Seq<char>),
    Text(Seq<char>),
    Other,
}

impl View for JsonItem {
    type V = JsonItemView;

    open spec fn view(&self) -> JsonItemView {
        match self {
            JsonItem::Number(s) => JsonItemView::Number(s@),
            JsonItem::Text(s) => JsonItemView::Text(s@),
            JsonItem::Other => JsonItemView::Other,
        }
    }
}

/// The contents of a list of elements.
pub open spec fn items_view(s: Seq<JsonItem>) -> Seq<JsonItemView> {
    Seq::new(s.len(), |i: int| s[i]@)
}

/// An array of a number, by its text, and two texts, without any space.
pub open spec fn triple(number: Seq<char>, a: Seq<char>, b: Seq<char>) -> Seq<char> {
    seq!['['] + number + seq![','] + quoted(a) + seq![','] + quoted(b) + seq![']']
}

/// The elements of an array of a number and two texts.
pub open spec fn is_triple(
    r: Result<Option<Seq<JsonItemView>>, Seq<char>>,
    a: Seq<char>,
    b: Seq<char>,
) -> bool {
    match r {
        Ok(Some(items)) => {
            &&& items.len() == 3
            &&& items[0] is Number
            &&& items[1] == JsonItemView::Text(a)
            &&& items[2] == JsonItemView::Text(b)
        },
        _ => false,
    }
}

/// What a line of JSON holds: the elements of an array, nothing for another
/// value, and the message of the parser for what is no JSON.
pub uninterp spec fn json_line(line: Seq<char>) -> Result<Option<Seq<JsonItemView>>, Seq<char>>;

/// The contents of what [`json_items`] returns.
pub open spec fn line_view(
    r: Result<Option<Vec<JsonItem>>, String>,
) -> Result<Option<Seq<JsonItemView>>, Seq<char>> {
    match r {
        Ok(Some(v)) => Ok(Some(items_view(v@))),
        Ok(None) => Ok(None),
        Err(e) => Err(e@),
    }
}

/// Parses a line with `serde_json::from_str`, whose result is a function of the
/// line alone, and tells the kinds of the elements of an array apart. An array of
/// a number of seconds and two strings, as JSON writes them, is read as a number
/// and those two texts.
#[verifier::external_body]
pub(crate) fn json_items(line: &str) -> (r: Result<Option<Vec<JsonItem>>, String>)
    ensures
        line_view(r) == json_line(line@),
        forall|ms: u64, a: Seq<char>, b: Seq<char>|
            line@ == #[trigger] triple(recording::seconds(ms as nat), a, b) ==> is_triple(
                line_view(r),
                a,
                b,
            ),
{
    serde_json::from_str::<Value>(line).map_err(|e| e.to_string()).map(|value| match value {
        Value::Array(items) => Some(items.into_iter().map(|v| match v {
            Value::Null => JsonItem::Other,
            Value::Bool(_) => JsonItem::Other,
            Value::Number(n) => JsonItem::Number(n.to_string()),
            Value::String(s) => JsonItem::Text(s),
            Value::Array(_) => JsonItem::Other,
            Value::Object(_) => JsonItem::Other,
        }).collect()),
        Value::Null => None,
        Value::Bool(_) => None,
        Value::Number(_) => None,
        Value::String(_) => None,
        Value::Object(_) => None,
    })
}

} // verus!
