//! Addresses: the dotted, changeable names of sessions, and the patterns that
//! match them.
//!
//! A segment is made of ASCII letters, digits, `-` and `_`; the only way to a
//! value of [`Segment`], [`Address`] or [`Pattern`] is a parse that can fail.
use crate::seqops;
use crate::text;
use crate::text::{chars_of, join_chars, push_decimal, split_chars, string_of};
use vstd::prelude::*;
use vstd::string::StringExecFns;

verus! {

/// The character between segments.
pub const SEPARATOR: char = '.';

/// The token that matches exactly one segment.
pub const WILDCARD_ONE: &'static str = "*";

/// The token that matches one or more segments.
pub const WILDCARD_TAIL: &'static str = ">";

/// Longest segment accepted, in bytes.
pub const SEGMENT_MAX_LEN: usize = 64;

/// Why a label is not a [`Segment`]. The rules are checked in this order.
#[derive(Debug, PartialEq, Eq)]
pub enum SegmentError {
    Empty,
    ContainsSeparator(String),
    ContainsWhitespace(String),
    /// The label was exactly `*` or `>`.
    WildcardToken(String),
    /// The first character outside the accepted set, with its byte offset.
    IllegalChar { segment: String, ch: char, index: usize },
    TooLong { segment: String, len: usize },
}

/// The contents of a [`SegmentError`].
#[verifier::ext_equal]
pub enum SegmentErrorView {
    Empty,
    ContainsSeparator(Seq<char>),
    ContainsWhitespace(Seq<char>),
    WildcardToken(Seq<char>),
    IllegalChar { segment: Seq<char>, ch: char, index: int },
    TooLong { segment: Seq<char>, len: int },
}

impl View for SegmentError {
    type V = SegmentErrorView;

    open spec fn view(&self) -> SegmentErrorView {
        match self {
            SegmentError::Empty => SegmentErrorView::Empty,
            SegmentError::ContainsSeparator(s) => SegmentErrorView::ContainsSeparator(s@),
            SegmentError::ContainsWhitespace(s) => SegmentErrorView::ContainsWhitespace(s@),
            SegmentError::WildcardToken(s) => SegmentErrorView::WildcardToken(s@),
            SegmentError::IllegalChar { segment, ch, index } => SegmentErrorView::IllegalChar {
                segment: segment@,
                ch: *ch,
                index: *index as int,
            },
            SegmentError::TooLong { segment, len } => SegmentErrorView::TooLong {
                segment: segment@,
                len: *len as int,
            },
        }
    }
}

impl SegmentErrorView {
    /// The message of an error.
    pub open spec fn message(self) -> Seq<char> {
        match self {
            SegmentErrorView::Empty => "segment is empty"@,
            SegmentErrorView::ContainsSeparator(s) => "segment `"@ + s
                + "` contains the `.` separator"@,
            SegmentErrorView::ContainsWhitespace(s) => "segment `"@ + s
                + "` contains whitespace"@,
            SegmentErrorView::WildcardToken(s) => "`"@ + s
                + "` is a pattern wildcard, not a label"@,
            SegmentErrorView::IllegalChar { segment, ch, index } => "segment `"@ + segment
                + "`: illegal character `"@ + seq![ch] + "` at byte "@ + text::decimal(index as nat)
                + "; allowed: a-z A-Z 0-9 `-` `_`"@,
            SegmentErrorView::TooLong { segment, len } => "segment `"@ + segment + "` is "@
                + text::decimal(len as nat) + " bytes, over the "@ + text::decimal(
                SEGMENT_MAX_LEN as nat,
            ) + " byte maximum"@,
        }
    }
}

/// `head`, then `middle`, then `tail`.
fn around(head: &str, middle: &String, tail: &str) -> (r: String)
    ensures
        r@ == head@ + middle@ + tail@,
{
    let mut r = String::from_str(head);
    r.append(middle.as_str());
    r.append(tail);
    r
}

impl SegmentError {
    /// The message of an error.
    pub fn to_string(&self) -> (r: String)
        ensures
            r@ == self@.message(),
    {
        match self {
            SegmentError::Empty => String::from_str("segment is empty"),
            SegmentError::ContainsSeparator(s) => around(
                "segment `",
                s,
                "` contains the `.` separator",
            ),
            SegmentError::ContainsWhitespace(s) => around("segment `", s, "` contains whitespace"),
            SegmentError::WildcardToken(s) => around(
                "`",
                s,
                "` is a pattern wildcard, not a label",
            ),
            SegmentError::IllegalChar { segment, ch, index } => {
                let mut r = around("segment `", segment, "`: illegal character `");
                r.push(*ch);
                r.append("` at byte ");
                push_decimal(&mut r, *index as u128);
                r.append("; allowed: a-z A-Z 0-9 `-` `_`");
                assert(r@ =~= self@.message());
                r
            },
            SegmentError::TooLong { segment, len } => {
                let mut r = around("segment `", segment, "` is ");
                push_decimal(&mut r, *len as u128);
                r.append(" bytes, over the ");
                push_decimal(&mut r, SEGMENT_MAX_LEN as u128);
                r.append(" byte maximum");
                r
            },
        }
    }
}

impl Clone for SegmentError {
    fn clone(&self) -> (r: SegmentError)
        ensures
            r@ == self@,
    {
        match self {
            SegmentError::Empty => SegmentError::Empty,
            SegmentError::ContainsSeparator(s) => SegmentError::ContainsSeparator(s.clone()),
            SegmentError::ContainsWhitespace(s) => SegmentError::ContainsWhitespace(s.clone()),
            SegmentError::WildcardToken(s) => SegmentError::WildcardToken(s.clone()),
            SegmentError::IllegalChar { segment, ch, index } => SegmentError::IllegalChar {
                segment: segment.clone(),
                ch: *ch,
                index: *index,
            },
            SegmentError::TooLong { segment, len } => SegmentError::TooLong {
                segment: segment.clone(),
                len: *len,
            },
        }
    }
}

/// The accepted characters.
#[verifier::allow_in_spec]
pub fn is_legal(c: char) -> bool
    returns
        ('a' <= c && c <= 'z' || 'A' <= c && c <= 'Z' || '0' <= c && c <= '9' || c == '-' || c
            == '_'),
{
    'a' <= c && c <= 'z' || 'A' <= c && c <= 'Z' || '0' <= c && c <= '9' || c == '-' || c == '_'
}

/// The place of the first character of `s` that is not accepted, or the length
/// of `s`.
pub open spec fn first_illegal(s: Seq<char>) -> int
    decreases s.len(),
{
    if s.len() == 0 || !is_legal(s[0]) {
        0
    } else {
        1 + first_illegal(s.drop_first())
    }
}

/// True when some character of `s` is white space.
pub open spec fn has_white_space(s: Seq<char>) -> bool {
    exists|i: int| 0 <= i < s.len() && text::white_space(#[trigger] s[i])
}

/// What is wrong with a label, if anything is.
pub open spec fn segment_error(s: Seq<char>) -> Option<SegmentErrorView> {
    if s.len() == 0 {
        Some(SegmentErrorView::Empty)
    } else if s.contains('.') {
        Some(SegmentErrorView::ContainsSeparator(s))
    } else if has_white_space(s) {
        Some(SegmentErrorView::ContainsWhitespace(s))
    } else if s == seq!['*'] || s == seq!['>'] {
        Some(SegmentErrorView::WildcardToken(s))
    } else if first_illegal(s) < s.len() {
        Some(
            SegmentErrorView::IllegalChar {
                segment: s,
                ch: s[first_illegal(s)],
                index: first_illegal(s),
            },
        )
    } else if s.len() > SEGMENT_MAX_LEN {
        Some(SegmentErrorView::TooLong { segment: s, len: s.len() as int })
    } else {
        None
    }
}

/// A valid label.
pub open spec fn is_segment(s: Seq<char>) -> bool {
    segment_error(s) is None
}

proof fn lemma_first_illegal(s: Seq<char>, i: int)
    requires
        0 <= i <= s.len(),
        forall|j: int| 0 <= j < i ==> is_legal(#[trigger] s[j]),
        i < s.len() ==> !is_legal(s[i]),
    ensures
        first_illegal(s) == i,
    decreases i,
{
    if i > 0 {
        assert(is_legal(s[0]));
        let rest = s.drop_first();
        assert forall|j: int| 0 <= j < i - 1 implies is_legal(#[trigger] rest[j]) by {
            assert(rest[j] == s[j + 1]);
        }
        lemma_first_illegal(rest, i - 1);
    }
}

proof fn lemma_first_illegal_within(s: Seq<char>)
    ensures
        0 <= first_illegal(s) <= s.len(),
        forall|j: int| 0 <= j < first_illegal(s) ==> is_legal(#[trigger] s[j]),
        first_illegal(s) < s.len() ==> !is_legal(s[first_illegal(s)]),
    decreases s.len(),
{
    if s.len() > 0 && is_legal(s[0]) {
        let rest = s.drop_first();
        lemma_first_illegal_within(rest);
        assert forall|j: int| 0 <= j < first_illegal(s) implies is_legal(#[trigger] s[j]) by {
            if j > 0 {
                assert(s[j] == rest[j - 1]);
            }
        }
    }
}

/// A valid label is not empty, holds only accepted characters and no separator,
/// is no wildcard, and fits the bound.
pub proof fn lemma_segment_rules(s: Seq<char>)
    requires
        is_segment(s),
    ensures
        1 <= s.len() <= SEGMENT_MAX_LEN,
        forall|i: int| 0 <= i < s.len() ==> is_legal(#[trigger] s[i]),
        !s.contains('.'),
        s != seq!['*'],
        s != seq!['>'],
{
    lemma_first_illegal_within(s);
}

/// One address label.
#[derive(Debug, PartialEq, Eq, PartialOrd, Ord, Hash)]
pub struct Segment {
    label: String,
}

impl Segment {
    pub closed spec fn view(self) -> Seq<char> {
        self.label@
    }

    #[verifier::type_invariant]
    spec fn valid(self) -> bool {
        is_segment(self.label@)
    }

    /// Every segment is a valid label.
    pub fn is_valid(&self)
        ensures
            is_segment(self@),
    {
        proof {
            use_type_invariant(self);
        }
    }

    /// Reads a label, or tells the first rule it breaks.
    pub fn parse(s: &str) -> (r: Result<Segment, SegmentError>)
        ensures
            match r {
                Ok(seg) => seg@ == s@ && segment_error(s@) is None,
                Err(e) => segment_error(s@) == Some(e@),
            },
    {
        let v = chars_of(s);
        Segment::from_chars(&v)
    }

    pub(crate) fn from_chars(v: &Vec<char>) -> (r: Result<Segment, SegmentError>)
        ensures
            match r {
                Ok(seg) => seg@ == v@ && segment_error(v@) is None,
                Err(e) => segment_error(v@) == Some(e@),
            },
    {
        if v.len() == 0 {
            return Err(SegmentError::Empty);
        }
        if contains_char(v, SEPARATOR) {
            return Err(SegmentError::ContainsSeparator(string_of(v)));
        }
        if any_white_space(v) {
            return Err(SegmentError::ContainsWhitespace(string_of(v)));
        }
        if is_one_char(v, '*') || is_one_char(v, '>') {
            return Err(SegmentError::WildcardToken(string_of(v)));
        }
        let n: usize = v.len();
        let mut i: usize = 0;
        while i < n && is_legal(v[i])
            invariant
                i <= n == v@.len(),
                forall|j: int| 0 <= j < i ==> is_legal(#[trigger] v@[j]),
            decreases n - i,
        {
            i = i + 1;
        }
        proof {
            lemma_first_illegal(v@, i as int);
        }
        if i < n {
            return Err(SegmentError::IllegalChar { segment: string_of(v), ch: v[i], index: i });
        }
        if n > SEGMENT_MAX_LEN {
            return Err(SegmentError::TooLong { segment: string_of(v), len: n });
        }
        Ok(Segment { label: string_of(v) })
    }

    /// The label.
    pub fn as_str(&self) -> (r: &str)
        ensures
            r@ == self@,
            is_segment(r@),
    {
        proof {
            use_type_invariant(self);
        }
        self.label.as_str()
    }

    /// The label as a string of its own.
    pub fn to_string(&self) -> (r: String)
        ensures
            r@ == self@,
            is_segment(r@),
    {
        proof {
            use_type_invariant(self);
        }
        self.label.clone()
    }

    /// Whether two segments are the same label.
    pub fn same(&self, other: &Segment) -> (b: bool)
        ensures
            b == (self@ == other@),
    {
        self.label == other.label
    }
}

impl Clone for Segment {
    fn clone(&self) -> (r: Segment)
        ensures
            r@ == self@,
    {
        proof {
            use_type_invariant(self);
        }
        Segment { label: self.label.clone() }
    }
}

impl std::str::FromStr for Segment {
    type Err = SegmentError;

    fn from_str(s: &str) -> (r: Result<Segment, SegmentError>)
        ensures
            match r {
                Ok(seg) => seg@ == s@ && segment_error(s@) is None,
                Err(e) => segment_error(s@) == Some(e@),
            },
    {
        Segment::parse(s)
    }
}

fn contains_char(v: &Vec<char>, c: char) -> (r: bool)
    ensures
        r == v@.contains(c),
{
    let mut i: usize = 0;
    while i < v.len()
        invariant
            i <= v@.len(),
            forall|j: int| 0 <= j < i ==> v@[j] != c,
        decreases v@.len() - i,
    {
        if v[i] == c {
            return true;
        }
        i = i + 1;
    }
    false
}

fn any_white_space(v: &Vec<char>) -> (r: bool)
    ensures
        r == has_white_space(v@),
{
    let mut i: usize = 0;
    while i < v.len()
        invariant
            i <= v@.len(),
            forall|j: int| 0 <= j < i ==> !text::white_space(#[trigger] v@[j]),
        decreases v@.len() - i,
    {
        if v[i].is_whitespace() {
            return true;
        }
        i = i + 1;
    }
    false
}

fn is_one_char(v: &Vec<char>, c: char) -> (r: bool)
    ensures
        r == (v@ == seq![c]),
{
    if v.len() == 1 && v[0] == c {
        assert(v@ =~= seq![c]);
        true
    } else {
        assert(v@ != seq![c]) by {
            if v@ == seq![c] {
                assert(seq![c].len() == 1 && seq![c][0] == c);
            }
        }
        false
    }
}

/// The labels of a list of segments.
pub open spec fn labels(s: Seq<Segment>) -> Seq<Seq<char>> {
    Seq::new(s.len(), |i: int| s[i]@)
}

/// A valid address: at least one label, every label valid.
pub open spec fn is_address(s: Seq<Seq<char>>) -> bool {
    s.len() >= 1 && forall|i: int| 0 <= i < s.len() ==> is_segment(#[trigger] s[i])
}

/// The dotted form of a list of labels.
pub open spec fn dotted(s: Seq<Seq<char>>) -> Seq<char> {
    text::join(s, '.')
}

/// Why a text is not an [`Address`].
#[derive(Debug, PartialEq, Eq)]
pub enum AddressError {
    Empty,
    /// The first label that is not valid, by its place from the left.
    Segment { index: usize, source: SegmentError },
}

/// The contents of an [`AddressError`].
#[verifier::ext_equal]
pub enum AddressErrorView {
    Empty,
    Segment { index: int, source: SegmentErrorView },
}

impl View for AddressError {
    type V = AddressErrorView;

    open spec fn view(&self) -> AddressErrorView {
        match self {
            AddressError::Empty => AddressErrorView::Empty,
            AddressError::Segment { index, source } => AddressErrorView::Segment {
                index: *index as int,
                source: source@,
            },
        }
    }
}

impl AddressErrorView {
    /// The message of an error.
    pub open spec fn message(self) -> Seq<char> {
        match self {
            AddressErrorView::Empty => "address is empty"@,
            AddressErrorView::Segment { index, source } => "address segment "@ + text::decimal(
                index as nat,
            ) + ": "@ + source.message(),
        }
    }
}

/// A message about the part at a place.
fn placed(head: &str, index: usize, source: &SegmentError) -> (r: String)
    ensures
        r@ == head@ + text::decimal(index as nat) + ": "@ + source@.message(),
{
    let mut r = String::from_str(head);
    push_decimal(&mut r, index as u128);
    r.append(": ");
    r.append(source.to_string().as_str());
    r
}

impl AddressError {
    /// The message of an error.
    pub fn to_string(&self) -> (r: String)
        ensures
            r@ == self@.message(),
    {
        match self {
            AddressError::Empty => String::from_str("address is empty"),
            AddressError::Segment { index, source } => placed("address segment ", *index, source),
        }
    }
}

impl Clone for AddressError {
    fn clone(&self) -> (r: AddressError)
        ensures
            r@ == self@,
    {
        match self {
            AddressError::Empty => AddressError::Empty,
            AddressError::Segment { index, source } => AddressError::Segment {
                index: *index,
                source: source.clone(),
            },
        }
    }
}

/// The place of the first label that is not valid, or the number of labels.
pub open spec fn first_bad(parts: Seq<Seq<char>>) -> int
    decreases parts.len(),
{
    if parts.len() == 0 || segment_error(parts[0]) is Some {
        0
    } else {
        1 + first_bad(parts.drop_first())
    }
}

/// What is wrong with a text as an address, if anything is.
pub open spec fn address_error(s: Seq<char>) -> Option<AddressErrorView> {
    let parts = text::split(s, '.');
    let i = first_bad(parts);
    if s.len() == 0 {
        Some(AddressErrorView::Empty)
    } else if i < parts.len() {
        Some(AddressErrorView::Segment { index: i, source: segment_error(parts[i])->0 })
    } else {
        None
    }
}

proof fn lemma_first_bad(parts: Seq<Seq<char>>, i: int)
    requires
        0 <= i <= parts.len(),
        forall|j: int| 0 <= j < i ==> is_segment(#[trigger] parts[j]),
        i < parts.len() ==> !is_segment(parts[i]),
    ensures
        first_bad(parts) == i,
    decreases i,
{
    if i > 0 {
        assert(is_segment(parts[0]));
        let rest = parts.drop_first();
        assert forall|j: int| 0 <= j < i - 1 implies is_segment(#[trigger] rest[j]) by {
            assert(rest[j] == parts[j + 1]);
        }
        lemma_first_bad(rest, i - 1);
    }
}

/// An ordered, non-empty list of segments.
#[derive(Debug, PartialEq, Eq, PartialOrd, Ord, Hash)]
pub struct Address {
    parts: Vec<Segment>,
}

fn clone_segments(v: &Vec<Segment>, upto: usize) -> (r: Vec<Segment>)
    requires
        upto <= v@.len(),
    ensures
        labels(r@) == labels(v@).take(upto as int),
{
    let mut r: Vec<Segment> = Vec::new();
    let mut i: usize = 0;
    while i < upto
        invariant
            i <= upto <= v@.len(),
            r@.len() == i,
            forall|j: int| 0 <= j < i ==> (#[trigger] r@[j])@ == v@[j]@,
        decreases upto - i,
    {
        r.push(v[i].clone());
        i = i + 1;
    }
    assert(labels(r@) =~= labels(v@).take(upto as int));
    r
}

fn segment_chars(v: &Vec<Segment>) -> (r: Vec<Vec<char>>)
    ensures
        seqops::views(r@) == labels(v@),
{
    let mut r: Vec<Vec<char>> = Vec::new();
    let mut i: usize = 0;
    while i < v.len()
        invariant
            i <= v@.len(),
            r@.len() == i,
            forall|j: int| 0 <= j < i ==> (#[trigger] r@[j])@ == v@[j]@,
        decreases v@.len() - i,
    {
        r.push(chars_of(v[i].as_str()));
        i = i + 1;
    }
    assert(seqops::views(r@) =~= labels(v@));
    r
}

impl Address {
    /// The labels, left to right.
    pub closed spec fn view(self) -> Seq<Seq<char>> {
        labels(self.parts@)
    }

    #[verifier::type_invariant]
    spec fn valid(self) -> bool {
        is_address(labels(self.parts@))
    }

    /// Every address has at least one label, and only valid ones.
    pub fn is_valid(&self)
        ensures
            is_address(self@),
    {
        proof {
            use_type_invariant(self);
        }
    }

    /// Reads a dotted address.
    pub fn parse(s: &str) -> (r: Result<Address, AddressError>)
        ensures
            match r {
                Ok(a) => a@ == text::split(s@, '.') && is_address(a@) && address_error(s@) is None,
                Err(e) => address_error(s@) == Some(e@),
            },
    {
        let v = chars_of(s);
        if v.len() == 0 {
            return Err(AddressError::Empty);
        }
        let parts = split_chars(&v, SEPARATOR);
        let ghost want = text::split(s@, '.');
        let mut out: Vec<Segment> = Vec::new();
        let mut i: usize = 0;
        while i < parts.len()
            invariant
                i <= parts@.len(),
                s@.len() > 0,
                want == text::split(s@, '.'),
                seqops::views(parts@) == want,
                out@.len() == i,
                forall|j: int| 0 <= j < i ==> (#[trigger] out@[j])@ == want[j],
                forall|j: int| 0 <= j < i ==> is_segment(#[trigger] want[j]),
            decreases parts@.len() - i,
        {
            assert(want[i as int] == parts@[i as int]@);
            match Segment::from_chars(&parts[i]) {
                Ok(seg) => {
                    out.push(seg);
                },
                Err(source) => {
                    proof {
                        lemma_first_bad(want, i as int);
                    }
                    return Err(AddressError::Segment { index: i, source });
                },
            }
            i = i + 1;
        }
        proof {
            lemma_first_bad(want, i as int);
            assert(labels(out@) =~= want);
        }
        Ok(Address { parts: out })
    }

    /// Builds an address from segments; an empty list is refused.
    pub fn from_segments(segments: Vec<Segment>) -> (r: Result<Address, AddressError>)
        ensures
            match r {
                Ok(a) => segments@.len() > 0 && a@ == labels(segments@),
                Err(e) => segments@.len() == 0 && e@ == AddressErrorView::Empty,
            },
    {
        if segments.len() == 0 {
            return Err(AddressError::Empty);
        }
        let mut i: usize = 0;
        while i < segments.len()
            invariant
                i <= segments@.len(),
                forall|j: int| 0 <= j < i ==> is_segment(#[trigger] segments@[j]@),
            decreases segments@.len() - i,
        {
            segments[i].is_valid();
            i = i + 1;
        }
        assert forall|j: int| 0 <= j < segments@.len() implies is_segment(
            #[trigger] labels(segments@)[j],
        ) by {
            assert(labels(segments@)[j] == segments@[j]@);
        }
        Ok(Address { parts: segments })
    }

    /// An address of one segment.
    pub fn root(segment: Segment) -> (a: Address)
        ensures
            a@ == seq![segment@],
    {
        segment.is_valid();
        let ghost label = segment@;
        let parts = vec![segment];
        assert(labels(parts@) =~= seq![label]);
        Address { parts }
    }

    /// The segments, left to right.
    pub fn segments(&self) -> (r: &Vec<Segment>)
        ensures
            labels(r@) == self@,
            r@.len() >= 1,
    {
        proof {
            use_type_invariant(self);
        }
        &self.parts
    }

    /// The rightmost segment.
    pub fn leaf(&self) -> (r: &Segment)
        ensures
            self@.len() >= 1,
            r@ == self@.last(),
    {
        proof {
            use_type_invariant(self);
        }
        &self.parts[self.parts.len() - 1]
    }

    /// How many segments; never zero.
    pub fn depth(&self) -> (n: usize)
        ensures
            n == self@.len(),
            n >= 1,
    {
        proof {
            use_type_invariant(self);
        }
        self.parts.len()
    }

    /// This address without its last segment; a root has no parent.
    pub fn parent(&self) -> (r: Option<Address>)
        ensures
            match r {
                Some(p) => self@.len() > 1 && p@ == self@.drop_last(),
                None => self@.len() == 1,
            },
    {
        proof {
            use_type_invariant(self);
        }
        let n: usize = self.parts.len();
        if n == 1 {
            return None;
        }
        let kept = clone_segments(&self.parts, n - 1);
        assert(labels(kept@) =~= self@.drop_last());
        assert forall|j: int| 0 <= j < kept@.len() implies is_segment(
            #[trigger] labels(kept@)[j],
        ) by {
            assert(labels(kept@)[j] == self@[j]);
        }
        Some(Address { parts: kept })
    }

    /// This address with one more segment.
    pub fn child(&self, segment: Segment) -> (r: Address)
        ensures
            r@ == self@.push(segment@),
    {
        proof {
            use_type_invariant(self);
        }
        segment.is_valid();
        let ghost label = segment@;
        let mut parts = clone_segments(&self.parts, self.parts.len());
        assert(labels(parts@) =~= self@);
        parts.push(segment);
        assert(labels(parts@) =~= self@.push(label));
        Address { parts }
    }

    /// Whether `prefix` is a prefix of this address, segment by segment.
    pub fn starts_with(&self, prefix: &Address) -> (b: bool)
        ensures
            b == prefix@.is_prefix_of(self@),
    {
        let n: usize = prefix.parts.len();
        if self.parts.len() < n {
            return false;
        }
        let mut i: usize = 0;
        while i < n
            invariant
                i <= n == prefix.parts@.len() <= self.parts@.len(),
                forall|j: int| 0 <= j < i ==> prefix@[j] == #[trigger] self@[j],
            decreases n - i,
        {
            if !prefix.parts[i].same(&self.parts[i]) {
                assert(prefix@[i as int] != self@[i as int]);
                assert(self@.subrange(0, n as int)[i as int] == self@[i as int]);
                return false;
            }
            assert(prefix@[i as int] == self@[i as int]);
            i = i + 1;
        }
        assert(prefix@ =~= self@.subrange(0, n as int));
        true
    }

    /// The dotted form.
    pub fn to_string(&self) -> (r: String)
        ensures
            r@ == dotted(self@),
    {
        let parts = segment_chars(&self.parts);
        string_of(&join_chars(&parts, SEPARATOR))
    }

    /// Whether two addresses are the same.
    pub fn same(&self, other: &Address) -> (b: bool)
        ensures
            b == (self@ == other@),
    {
        if self.parts.len() != other.parts.len() {
            return false;
        }
        let b = self.starts_with(other);
        assert(b ==> self@ =~= other@);
        assert(self@ == other@ ==> other@ =~= self@.subrange(0, other@.len() as int));
        b
    }
}

impl Clone for Address {
    fn clone(&self) -> (r: Address)
        ensures
            r@ == self@,
    {
        proof {
            use_type_invariant(self);
        }
        let parts = clone_segments(&self.parts, self.parts.len());
        assert(labels(parts@) =~= self@);
        Address { parts }
    }
}

impl std::str::FromStr for Address {
    type Err = AddressError;

    fn from_str(s: &str) -> (r: Result<Address, AddressError>)
        ensures
            match r {
                Ok(a) => a@ == text::split(s@, '.') && is_address(a@) && address_error(s@) is None,
                Err(e) => address_error(s@) == Some(e@),
            },
    {
        Address::parse(s)
    }
}

/// The dotted form of a valid address reads back as the address, and what reads
/// as an address has itself as its dotted form.
pub proof fn lemma_address_round_trips(a: Seq<Seq<char>>, s: Seq<char>)
    requires
        is_address(a),
    ensures
        text::split(dotted(a), '.') == a,
        address_error(dotted(a)) is None,
        dotted(text::split(s, '.')) == s,
{
    assert forall|i: int| 0 <= i < a.len() implies !(#[trigger] a[i]).contains('.') by {
        lemma_segment_rules(a[i]);
    }
    text::lemma_split_join(a, '.');
    text::lemma_join_split(s, '.');
    lemma_first_bad(a, a.len() as int);
    lemma_segment_rules(a[0]);
    if dotted(a).len() == 0 {
        assert(dotted(a) =~= Seq::<char>::empty());
        assert(text::split(dotted(a), '.')[0] =~= Seq::<char>::empty());
    }
}

/// A child's parent is the address it was made from, and its leaf the segment.
pub proof fn lemma_parent_of_child(a: Seq<Seq<char>>, label: Seq<char>)
    ensures
        a.push(label).drop_last() == a,
        a.push(label).last() == label,
        a.is_prefix_of(a.push(label)),
{
    assert(a.push(label).drop_last() =~= a);
    assert(a =~= a.push(label).subrange(0, a.len() as int));
}

/// A label whose text merely starts like another is no prefix of an address
/// with that other label.
pub proof fn lemma_prefix_is_by_segment(
    a: Seq<Seq<char>>,
    x: Seq<char>,
    y: Seq<char>,
    rest: Seq<Seq<char>>,
)
    requires
        x != y,
    ensures
        !a.push(x).is_prefix_of(a.push(y) + rest),
{
    if a.push(x).is_prefix_of(a.push(y) + rest) {
        let whole = a.push(y) + rest;
        let n = a.len() as int;
        assert(whole.subrange(0, n + 1)[n] == whole[n]);
        assert(a.push(x)[n] == x);
        assert(whole[n] == y);
    }
}

/// One token of a [`Pattern`].
#[derive(Debug, PartialEq, Eq, PartialOrd, Ord, Hash)]
pub enum PatternToken {
    /// Matches itself and nothing else.
    Literal(Segment),
    /// `*`: matches exactly one segment.
    One,
    /// `>`: matches one or more segments, and stands only at the end.
    Tail,
}

/// The contents of a [`PatternToken`].
#[verifier::ext_equal]
pub enum TokenView {
    Literal(Seq<char>),
    One,
    Tail,
}

impl View for PatternToken {
    type V = TokenView;

    open spec fn view(&self) -> TokenView {
        match self {
            PatternToken::Literal(s) => TokenView::Literal(s@),
            PatternToken::One => TokenView::One,
            PatternToken::Tail => TokenView::Tail,
        }
    }
}

impl Clone for PatternToken {
    fn clone(&self) -> (r: PatternToken)
        ensures
            r@ == self@,
    {
        match self {
            PatternToken::Literal(s) => PatternToken::Literal(s.clone()),
            PatternToken::One => PatternToken::One,
            PatternToken::Tail => PatternToken::Tail,
        }
    }
}

impl TokenView {
    /// The text of a token.
    pub open spec fn chars(self) -> Seq<char> {
        match self {
            TokenView::Literal(s) => s,
            TokenView::One => seq!['*'],
            TokenView::Tail => seq!['>'],
        }
    }

    /// True when the token takes the one segment `s`.
    pub open spec fn takes(self, s: Seq<char>) -> bool {
        match self {
            TokenView::Literal(want) => want == s,
            TokenView::One => true,
            TokenView::Tail => true,
        }
    }

    pub open spec fn valid(self) -> bool {
        match self {
            TokenView::Literal(s) => is_segment(s),
            _ => true,
        }
    }
}

impl PatternToken {
    /// The text of a token.
    pub fn to_string(&self) -> (r: String)
        ensures
            r@ == self@.chars(),
    {
        proof {
            reveal_strlit("*");
            reveal_strlit(">");
        }
        match self {
            PatternToken::Literal(s) => s.to_string(),
            PatternToken::One => {
                let r = String::from_str(WILDCARD_ONE);
                assert(r@ =~= seq!['*']);
                r
            },
            PatternToken::Tail => {
                let r = String::from_str(WILDCARD_TAIL);
                assert(r@ =~= seq!['>']);
                r
            },
        }
    }
}

/// The contents of a list of tokens.
pub open spec fn tokens_view(s: Seq<PatternToken>) -> Seq<TokenView> {
    Seq::new(s.len(), |i: int| s[i]@)
}

/// A valid pattern: at least one token, valid literals, and a tail only at the
/// end.
pub open spec fn is_pattern(s: Seq<TokenView>) -> bool {
    &&& s.len() >= 1
    &&& forall|i: int| 0 <= i < s.len() ==> (#[trigger] s[i]).valid()
    &&& forall|i: int| 0 <= i < s.len() - 1 ==> !((#[trigger] s[i]) is Tail)
}

/// Whether a pattern matches an address: the tokens take the segments one by
/// one, and a tail takes all that are left, at least one.
pub open spec fn pattern_matches(p: Seq<TokenView>, a: Seq<Seq<char>>) -> bool {
    &&& if p.last() is Tail {
        a.len() >= p.len()
    } else {
        a.len() == p.len()
    }
    &&& forall|i: int| 0 <= i < p.len() ==> (#[trigger] p[i]).takes(a[i])
}

/// The texts of a list of tokens.
pub open spec fn token_texts(p: Seq<TokenView>) -> Seq<Seq<char>> {
    Seq::new(p.len(), |i: int| p[i].chars())
}

/// Why a text is not a [`Pattern`].
#[derive(Debug, PartialEq, Eq)]
pub enum PatternError {
    Empty,
    /// A `>` that is not the last token.
    TailNotFinal { index: usize },
    /// The first literal that is not a valid label.
    Token { index: usize, source: SegmentError },
}

/// The contents of a [`PatternError`].
#[verifier::ext_equal]
pub enum PatternErrorView {
    Empty,
    TailNotFinal { index: int },
    Token { index: int, source: SegmentErrorView },
}

impl View for PatternError {
    type V = PatternErrorView;

    open spec fn view(&self) -> PatternErrorView {
        match self {
            PatternError::Empty => PatternErrorView::Empty,
            PatternError::TailNotFinal { index } => PatternErrorView::TailNotFinal {
                index: *index as int,
            },
            PatternError::Token { index, source } => PatternErrorView::Token {
                index: *index as int,
                source: source@,
            },
        }
    }
}

impl PatternErrorView {
    /// The message of an error.
    pub open spec fn message(self) -> Seq<char> {
        match self {
            PatternErrorView::Empty => "pattern is empty"@,
            PatternErrorView::TailNotFinal { index } => "`>` at token "@ + text::decimal(
                index as nat,
            ) + " is not final; the tail wildcard is legal only last"@,
            PatternErrorView::Token { index, source } => "pattern token "@ + text::decimal(
                index as nat,
            ) + ": "@ + source.message(),
        }
    }
}

impl PatternError {
    /// The message of an error.
    pub fn to_string(&self) -> (r: String)
        ensures
            r@ == self@.message(),
    {
        match self {
            PatternError::Empty => String::from_str("pattern is empty"),
            PatternError::TailNotFinal { index } => {
                let mut r = String::from_str("`>` at token ");
                push_decimal(&mut r, *index as u128);
                r.append(" is not final; the tail wildcard is legal only last");
                r
            },
            PatternError::Token { index, source } => placed("pattern token ", *index, source),
        }
    }
}

impl Clone for PatternError {
    fn clone(&self) -> (r: PatternError)
        ensures
            r@ == self@,
    {
        match self {
            PatternError::Empty => PatternError::Empty,
            PatternError::TailNotFinal { index } => PatternError::TailNotFinal { index: *index },
            PatternError::Token { index, source } => PatternError::Token {
                index: *index,
                source: source.clone(),
            },
        }
    }
}

/// What is wrong with part `i` of a pattern of `n` parts, if anything is.
pub open spec fn part_error(part: Seq<char>, i: int, n: int) -> Option<PatternErrorView> {
    if part == seq!['*'] {
        None
    } else if part == seq!['>'] {
        if i == n - 1 {
            None
        } else {
            Some(PatternErrorView::TailNotFinal { index: i })
        }
    } else {
        match segment_error(part) {
            Some(source) => Some(PatternErrorView::Token { index: i, source }),
            None => None,
        }
    }
}

/// The token of a part that is not wrong.
pub open spec fn part_token(part: Seq<char>) -> TokenView {
    if part == seq!['*'] {
        TokenView::One
    } else if part == seq!['>'] {
        TokenView::Tail
    } else {
        TokenView::Literal(part)
    }
}

/// What is wrong with a text as a pattern, if anything is: the fault of its
/// first faulty part.
pub open spec fn is_pattern_error(s: Seq<char>, e: PatternErrorView) -> bool {
    let parts = text::split(s, '.');
    if s.len() == 0 {
        e == PatternErrorView::Empty
    } else {
        exists|i: int|
            0 <= i < parts.len() && #[trigger] part_error(parts[i], i, parts.len() as int) == Some(
                e,
            ) && forall|j: int|
                0 <= j < i ==> #[trigger] part_error(parts[j], j, parts.len() as int) is None
    }
}

/// A matcher of addresses.
#[derive(Debug, PartialEq, Eq, Hash)]
pub struct Pattern {
    parts: Vec<PatternToken>,
}

impl Pattern {
    /// The tokens, left to right.
    pub closed spec fn view(self) -> Seq<TokenView> {
        tokens_view(self.parts@)
    }

    #[verifier::type_invariant]
    spec fn valid(self) -> bool {
        is_pattern(tokens_view(self.parts@))
    }

    /// Every pattern has a token, and a tail only at the end.
    pub fn is_valid(&self)
        ensures
            is_pattern(self@),
    {
        proof {
            use_type_invariant(self);
        }
    }

    /// Reads a dotted pattern.
    pub fn parse(s: &str) -> (r: Result<Pattern, PatternError>)
        ensures
            match r {
                Ok(p) => {
                    &&& s@.len() > 0
                    &&& is_pattern(p@)
                    &&& token_texts(p@) == text::split(s@, '.')
                    &&& forall|e: PatternErrorView| !is_pattern_error(s@, e)
                },
                Err(e) => is_pattern_error(s@, e@),
            },
    {
        let v = chars_of(s);
        if v.len() == 0 {
            return Err(PatternError::Empty);
        }
        let parts = split_chars(&v, SEPARATOR);
        let n: usize = parts.len();
        let ghost want = text::split(s@, '.');
        let mut out: Vec<PatternToken> = Vec::new();
        let mut i: usize = 0;
        while i < n
            invariant
                i <= n == parts@.len(),
                n >= 1,
                s@.len() > 0,
                want == text::split(s@, '.'),
                seqops::views(parts@) == want,
                out@.len() == i,
                forall|j: int| 0 <= j < i ==> (#[trigger] out@[j])@ == part_token(want[j]),
                forall|j: int|
                    0 <= j < i ==> #[trigger] part_error(want[j], j, n as int) is None,
            decreases n - i,
        {
            assert(want[i as int] == parts@[i as int]@);
            let part = &parts[i];
            if is_one_char(part, '*') {
                out.push(PatternToken::One);
            } else if is_one_char(part, '>') {
                if i != n - 1 {
                    let e = PatternError::TailNotFinal { index: i };
                    assert(part_error(want[i as int], i as int, n as int) == Some(e@));
                    return Err(e);
                }
                out.push(PatternToken::Tail);
            } else {
                match Segment::from_chars(part) {
                    Ok(seg) => {
                        out.push(PatternToken::Literal(seg));
                    },
                    Err(source) => {
                        let e = PatternError::Token { index: i, source };
                        assert(part_error(want[i as int], i as int, n as int) == Some(e@));
                        return Err(e);
                    },
                }
            }
            assert(part_error(want[i as int], i as int, n as int) is None);
            i = i + 1;
        }
        proof {
            let view = tokens_view(out@);
            assert forall|j: int| 0 <= j < view.len() implies (#[trigger] view[j]).valid() by {
                assert(part_error(want[j], j, n as int) is None);
                assert(view[j] == part_token(want[j]));
            }
            assert forall|j: int| 0 <= j < view.len() - 1 implies !((#[trigger] view[j]) is Tail) by {
                assert(part_error(want[j], j, n as int) is None);
                assert(view[j] == part_token(want[j]));
            }
            assert(token_texts(view) =~= want) by {
                assert forall|j: int| 0 <= j < n implies #[trigger] token_texts(view)[j]
                    == want[j] by {
                    assert(view[j] == part_token(want[j]));
                }
            }
        }
        Ok(Pattern { parts: out })
    }

    /// The pattern that matches one address and no other.
    pub fn exact(address: &Address) -> (p: Pattern)
        ensures
            p@ == exact_tokens(address@),
    {
        address.is_valid();
        let segments = address.segments();
        let mut out: Vec<PatternToken> = Vec::new();
        let mut i: usize = 0;
        while i < segments.len()
            invariant
                i <= segments@.len(),
                labels(segments@) == address@,
                out@.len() == i,
                forall|j: int| 0 <= j < i ==> (#[trigger] out@[j])@ == TokenView::Literal(address@[j]),
            decreases segments@.len() - i,
        {
            assert(address@[i as int] == segments@[i as int]@);
            out.push(PatternToken::Literal(segments[i].clone()));
            i = i + 1;
        }
        assert(tokens_view(out@) =~= exact_tokens(address@));
        assert forall|j: int| 0 <= j < out@.len() implies (#[trigger] tokens_view(
            out@,
        )[j]).valid() by {
            assert(is_segment(address@[j]));
        }
        Pattern { parts: out }
    }

    /// The tokens, left to right.
    pub fn tokens(&self) -> (r: &Vec<PatternToken>)
        ensures
            tokens_view(r@) == self@,
    {
        &self.parts
    }

    /// Whether this pattern matches an address.
    pub fn matches(&self, address: &Address) -> (b: bool)
        ensures
            b == pattern_matches(self@, address@),
    {
        proof {
            use_type_invariant(self);
        }
        let segments = address.segments();
        let n: usize = self.parts.len();
        let ghost p = self@;
        let ghost a = address@;
        let mut i: usize = 0;
        while i < n
            invariant
                i <= n == self.parts@.len(),
                p == self@,
                a == address@,
                is_pattern(p),
                p.len() == n,
                labels(segments@) == a,
                segments@.len() == a.len(),
                i <= a.len(),
                forall|j: int| 0 <= j < i ==> (#[trigger] p[j]).takes(a[j]),
                i == n ==> !(p.last() is Tail),
            decreases n - i,
        {
            assert(p[i as int] == self.parts@[i as int]@);
            match &self.parts[i] {
                PatternToken::Tail => {
                    assert(i == n - 1);
                    assert(p.last() is Tail);
                    return segments.len() > i;
                },
                PatternToken::One => {
                    if segments.len() <= i {
                        return false;
                    }
                },
                PatternToken::Literal(want) => {
                    if segments.len() <= i {
                        return false;
                    }
                    assert(a[i as int] == segments@[i as int]@);
                    if !want.same(&segments[i]) {
                        assert(!p[i as int].takes(a[i as int]));
                        return false;
                    }
                },
            }
            assert(p[i as int].takes(a[i as int]));
            i = i + 1;
        }
        segments.len() == n
    }

    /// The dotted form.
    pub fn to_string(&self) -> (r: String)
        ensures
            r@ == text::join(token_texts(self@), '.'),
    {
        let mut parts: Vec<Vec<char>> = Vec::new();
        let mut i: usize = 0;
        while i < self.parts.len()
            invariant
                i <= self.parts@.len(),
                parts@.len() == i,
                forall|j: int| 0 <= j < i ==> (#[trigger] parts@[j])@ == self@[j].chars(),
            decreases self.parts@.len() - i,
        {
            assert(self@[i as int] == self.parts@[i as int]@);
            let chars = chars_of(self.parts[i].to_string().as_str());
            parts.push(chars);
            i = i + 1;
        }
        assert(seqops::views(parts@) =~= token_texts(self@));
        string_of(&join_chars(&parts, SEPARATOR))
    }
}

impl Clone for Pattern {
    fn clone(&self) -> (r: Pattern)
        ensures
            r@ == self@,
    {
        proof {
            use_type_invariant(self);
        }
        let mut parts: Vec<PatternToken> = Vec::new();
        let mut i: usize = 0;
        while i < self.parts.len()
            invariant
                i <= self.parts@.len(),
                parts@.len() == i,
                forall|j: int| 0 <= j < i ==> (#[trigger] parts@[j])@ == self.parts@[j]@,
            decreases self.parts@.len() - i,
        {
            parts.push(self.parts[i].clone());
            i = i + 1;
        }
        assert(tokens_view(parts@) =~= self@);
        Pattern { parts }
    }
}

impl std::str::FromStr for Pattern {
    type Err = PatternError;

    fn from_str(s: &str) -> (r: Result<Pattern, PatternError>)
        ensures
            match r {
                Ok(p) => {
                    &&& s@.len() > 0
                    &&& is_pattern(p@)
                    &&& token_texts(p@) == text::split(s@, '.')
                    &&& forall|e: PatternErrorView| !is_pattern_error(s@, e)
                },
                Err(e) => is_pattern_error(s@, e@),
            },
    {
        Pattern::parse(s)
    }
}

/// The tokens of the exact pattern of an address.
pub open spec fn exact_tokens(a: Seq<Seq<char>>) -> Seq<TokenView> {
    Seq::new(a.len(), |i: int| TokenView::Literal(a[i]))
}

/// The exact pattern of an address matches that address and no other, and reads
/// the same.
pub proof fn lemma_exact_matches_only_itself(a: Seq<Seq<char>>, b: Seq<Seq<char>>)
    requires
        a.len() >= 1,
    ensures
        pattern_matches(exact_tokens(a), b) <==> a == b,
        text::join(token_texts(exact_tokens(a)), '.') == dotted(a),
{
    let p = exact_tokens(a);
    assert(!(p.last() is Tail));
    if pattern_matches(p, b) {
        assert forall|i: int| 0 <= i < a.len() implies a[i] == b[i] by {
            assert(p[i].takes(b[i]));
        }
        assert(a =~= b);
    }
    assert(token_texts(p) =~= a);
}

/// A tail takes one or more segments and never none: the address that ends
/// where the tail would start does not match.
pub proof fn lemma_tail_never_takes_nothing(p: Seq<TokenView>, a: Seq<Seq<char>>)
    requires
        is_pattern(p),
        p.last() is Tail,
        a.len() < p.len(),
    ensures
        !pattern_matches(p, a),
{
}

/// A tail takes any number of further segments once it takes one.
pub proof fn lemma_tail_takes_all_the_rest(
    p: Seq<TokenView>,
    a: Seq<Seq<char>>,
    more: Seq<Seq<char>>,
)
    requires
        is_pattern(p),
        p.last() is Tail,
        pattern_matches(p, a),
    ensures
        pattern_matches(p, a + more),
{
    assert forall|i: int| 0 <= i < p.len() implies (#[trigger] p[i]).takes((a + more)[i]) by {
        assert((a + more)[i] == a[i]);
    }
}

/// A pattern without a tail matches only addresses of its own length.
pub proof fn lemma_without_tail_lengths_agree(p: Seq<TokenView>, a: Seq<Seq<char>>)
    requires
        is_pattern(p),
        !(p.last() is Tail),
        pattern_matches(p, a),
    ensures
        a.len() == p.len(),
{
}

proof fn lemma_token_text_reads_back(t: TokenView)
    requires
        t.valid(),
    ensures
        part_token(t.chars()) == t,
        !t.chars().contains('.'),
{
    match t {
        TokenView::Literal(s) => {
            lemma_segment_rules(s);
        },
        TokenView::One => {
            assert(seq!['*'][0] == '*');
        },
        TokenView::Tail => {
            assert(seq!['>'][0] == '>');
            assert(seq!['*'][0] == '*');
        },
    }
}

/// The dotted form of a valid pattern splits back into its tokens, none of them
/// faulty.
pub proof fn lemma_pattern_round_trips(p: Seq<TokenView>)
    requires
        is_pattern(p),
    ensures
        ({
            let parts = text::split(text::join(token_texts(p), '.'), '.');
            &&& parts == token_texts(p)
            &&& forall|i: int|
                0 <= i < p.len() ==> #[trigger] part_error(parts[i], i, p.len() as int) is None
                    && part_token(parts[i]) == p[i]
        }),
{
    let texts = token_texts(p);
    assert forall|i: int| 0 <= i < texts.len() implies !(#[trigger] texts[i]).contains('.') by {
        assert(p[i].valid());
        lemma_token_text_reads_back(p[i]);
    }
    text::lemma_split_join(texts, '.');
    assert forall|i: int| 0 <= i < p.len() implies #[trigger] part_error(
        texts[i],
        i,
        p.len() as int,
    ) is None && part_token(texts[i]) == p[i] by {
        assert(p[i].valid());
        lemma_token_text_reads_back(p[i]);
        if i < p.len() - 1 {
            assert(!(p[i] is Tail));
        }
    }
}

} // verus!
