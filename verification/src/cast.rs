//! Rows of a terminal recording: a time, a kind, and what was written or typed.
use crate::control::joined;
use crate::json;
use crate::json::{json_items, JsonItem, JsonItemView};
use crate::recording;
use crate::text;
use crate::text::{chars_of, push_decimal, str_eq};
use vstd::prelude::*;
use vstd::string::StringExecFns;

verus! {

/// What a row records.
#[derive(Debug, Clone, Copy, PartialEq, Eq, Hash, Structural)]
pub enum CastRowKind {
    /// What the terminal wrote.
    Output,
    /// What was typed.
    Input,
}

impl CastRowKind {
    pub open spec fn tag(self) -> Seq<char> {
        match self {
            CastRowKind::Output => "o"@,
            CastRowKind::Input => "i"@,
        }
    }

    /// The tag of the kind.
    pub fn as_str(self) -> (r: &'static str)
        ensures
            r@ == self.tag(),
    {
        match self {
            CastRowKind::Output => "o",
            CastRowKind::Input => "i",
        }
    }
}

/// One row.
#[derive(Debug, PartialEq, Eq)]
pub struct CastRow {
    /// Seconds since the recording began, as the number is written.
    pub time: String,
    pub kind: CastRowKind,
    pub payload: String,
}

/// The contents of a [`CastRow`].
#[verifier::ext_equal]
pub struct CastRowView {
    pub time: Seq<char>,
    pub kind: CastRowKind,
    pub payload: Seq<char>,
}

impl View for CastRow {
    type V = CastRowView;

    open spec fn view(&self) -> CastRowView {
        CastRowView { time: self.time@, kind: self.kind, payload: self.payload@ }
    }
}

impl Clone for CastRow {
    fn clone(&self) -> (r: CastRow)
        ensures
            r@ == self@,
    {
        CastRow { time: self.time.clone(), kind: self.kind, payload: self.payload.clone() }
    }
}

/// Why a line is no row.
#[derive(Debug, PartialEq, Eq)]
pub enum CastParseError {
    InvalidJson(String),
    NotAnArray,
    TooFewElements(usize),
    BadTime,
    BadKindShape,
    UnknownKind(String),
    BadPayload,
    /// The line is the header of a recording.
    HeaderRow,
}

/// The contents of a [`CastParseError`].
#[verifier::ext_equal]
pub enum CastErrorView {
    InvalidJson(Seq<char>),
    NotAnArray,
    TooFewElements(int),
    BadTime,
    BadKindShape,
    UnknownKind(Seq<char>),
    BadPayload,
    HeaderRow,
}

impl View for CastParseError {
    type V = CastErrorView;

    open spec fn view(&self) -> CastErrorView {
        match self {
            CastParseError::InvalidJson(s) => CastErrorView::InvalidJson(s@),
            CastParseError::NotAnArray => CastErrorView::NotAnArray,
            CastParseError::TooFewElements(n) => CastErrorView::TooFewElements(*n as int),
            CastParseError::BadTime => CastErrorView::BadTime,
            CastParseError::BadKindShape => CastErrorView::BadKindShape,
            CastParseError::UnknownKind(s) => CastErrorView::UnknownKind(s@),
            CastParseError::BadPayload => CastErrorView::BadPayload,
            CastParseError::HeaderRow => CastErrorView::HeaderRow,
        }
    }
}

impl CastErrorView {
    /// The message of an error.
    pub open spec fn message(self) -> Seq<char> {
        match self {
            CastErrorView::InvalidJson(s) => "row is not valid json: "@ + s,
            CastErrorView::NotAnArray => "row is not a JSON array"@,
            CastErrorView::TooFewElements(n) => "row has "@ + text::decimal(n as nat)
                + " elements, expected at least 3"@,
            CastErrorView::BadTime => "row[0] (time) is not a number"@,
            CastErrorView::BadKindShape => "row[1] (kind) is not a string"@,
            CastErrorView::UnknownKind(s) => "row[1] kind `"@ + s + "` is not 'o' or 'i'"@,
            CastErrorView::BadPayload => "row[2] (payload) is not a string"@,
            CastErrorView::HeaderRow => {
                "row is the asciinema header (JSON object, not array)"@
            },
        }
    }
}

impl CastParseError {
    /// The message of an error.
    pub fn to_string(&self) -> (r: String)
        ensures
            r@ == self@.message(),
    {
        match self {
            CastParseError::InvalidJson(s) => joined("row is not valid json: ", s.as_str()),
            CastParseError::NotAnArray => String::from_str("row is not a JSON array"),
            CastParseError::TooFewElements(n) => {
                let mut r = String::from_str("row has ");
                push_decimal(&mut r, *n as u128);
                r.append(" elements, expected at least 3");
                r
            },
            CastParseError::BadTime => String::from_str("row[0] (time) is not a number"),
            CastParseError::BadKindShape => String::from_str("row[1] (kind) is not a string"),
            CastParseError::UnknownKind(s) => {
                let mut r = joined("row[1] kind `", s.as_str());
                r.append("` is not 'o' or 'i'");
                r
            },
            CastParseError::BadPayload => String::from_str("row[2] (payload) is not a string"),
            CastParseError::HeaderRow => String::from_str(
                "row is the asciinema header (JSON object, not array)",
            ),
        }
    }
}

/// The row of the elements of an array: a number, the tag of a kind, and a text;
/// more elements do not matter.
pub open spec fn row_of(items: Seq<JsonItemView>) -> Result<CastRowView, CastErrorView> {
    if items.len() < 3 {
        Err(CastErrorView::TooFewElements(items.len() as int))
    } else {
        match items[0] {
            JsonItemView::Number(time) => match items[1] {
                JsonItemView::Text(k) => if k != "o"@ && k != "i"@ {
                    Err(CastErrorView::UnknownKind(k))
                } else {
                    match items[2] {
                        JsonItemView::Text(payload) => Ok(
                            CastRowView {
                                time,
                                kind: if k == "o"@ {
                                    CastRowKind::Output
                                } else {
                                    CastRowKind::Input
                                },
                                payload,
                            },
                        ),
                        _ => Err(CastErrorView::BadPayload),
                    }
                },
                _ => Err(CastErrorView::BadKindShape),
            },
            _ => Err(CastErrorView::BadTime),
        }
    }
}

/// Whether the first character of `s` that is no white space is an opening
/// brace.
pub open spec fn is_header(s: Seq<char>) -> bool
    decreases s.len(),
{
    if s.len() == 0 {
        false
    } else if text::white_space(s[0]) {
        is_header(s.drop_first())
    } else {
        s[0] == '{'
    }
}

/// What a line stands for.
pub open spec fn row_of_line(line: Seq<char>) -> Result<CastRowView, CastErrorView> {
    if is_header(line) {
        Err(CastErrorView::HeaderRow)
    } else {
        match json::json_line(line) {
            Err(e) => Err(CastErrorView::InvalidJson(e)),
            Ok(None) => Err(CastErrorView::NotAnArray),
            Ok(Some(items)) => row_of(items),
        }
    }
}

/// The contents of what a parse returns.
pub open spec fn row_view(r: Result<CastRow, CastParseError>) -> Result<CastRowView, CastErrorView> {
    match r {
        Ok(row) => Ok(row@),
        Err(e) => Err(e@),
    }
}

fn header_line(s: &str) -> (b: bool)
    ensures
        b == is_header(s@),
        s@.len() > 0 && s@[0] == '[' ==> !b,
{
    let v = chars_of(s);
    let mut i: usize = 0;
    assert(v@.skip(0) =~= v@);
    while i < v.len()
        invariant
            i <= v@.len(),
            v@ == s@,
            is_header(v@) == is_header(v@.skip(i as int)),
            s@.len() > 0 && s@[0] == '[' ==> i == 0,
        decreases v@.len() - i,
    {
        assert(v@.skip(i as int)[0] == v@[i as int]);
        if !v[i].is_whitespace() {
            return v[i] == '{';
        }
        assert(v@.skip(i as int).drop_first() =~= v@.skip(i as int + 1));
        i = i + 1;
    }
    false
}

impl CastRow {
    /// Reads one line. A line that a recording wrote is read as output of the
    /// text that was recorded.
    pub fn parse(line: &str) -> (r: Result<CastRow, CastParseError>)
        ensures
            row_view(r) == row_of_line(line@),
            forall|ms: u64, text: Seq<char>|
                line@ == #[trigger] recording::output_row(ms as nat, text) ==> match r {
                    Ok(row) => row.kind == CastRowKind::Output && row.payload@ == text,
                    Err(_) => false,
                },
    {
        proof {
            assert forall|ms: u64, text: Seq<char>|
                line@ == #[trigger] recording::output_row(ms as nat, text) implies line@.len() > 0
                && line@[0] == '[' && line@ == json::triple(
                recording::seconds(ms as nat),
                "o"@,
                text,
            ) by {
                recording::lemma_output_row_is_a_triple(ms as nat, text);
            }
        }
        if header_line(line) {
            return Err(CastParseError::HeaderRow);
        }
        match json_items(line) {
            Err(e) => Err(CastParseError::InvalidJson(e)),
            Ok(None) => Err(CastParseError::NotAnArray),
            Ok(Some(items)) => CastRow::from_items(&items),
        }
    }

    /// The row of the elements of an array.
    pub fn from_items(items: &Vec<JsonItem>) -> (r: Result<CastRow, CastParseError>)
        ensures
            row_view(r) == row_of(json::items_view(items@)),
    {
        let n: usize = items.len();
        if n < 3 {
            return Err(CastParseError::TooFewElements(n));
        }
        let ghost all = json::items_view(items@);
        assert(all[0] == items@[0]@ && all[1] == items@[1]@ && all[2] == items@[2]@);
        let time = match &items[0] {
            JsonItem::Number(t) => t.clone(),
            _ => {
                return Err(CastParseError::BadTime);
            },
        };
        let kind = match &items[1] {
            JsonItem::Text(k) => {
                if str_eq(k.as_str(), "o") {
                    CastRowKind::Output
                } else if str_eq(k.as_str(), "i") {
                    CastRowKind::Input
                } else {
                    return Err(CastParseError::UnknownKind(k.clone()));
                }
            },
            _ => {
                return Err(CastParseError::BadKindShape);
            },
        };
        match &items[2] {
            JsonItem::Text(p) => Ok(CastRow { time, kind, payload: p.clone() }),
            _ => Err(CastParseError::BadPayload),
        }
    }
}

} // verus!
