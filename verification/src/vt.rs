//! The escape-sequence parser, and the events it reads out of a byte stream.
//!
//! The state machine is the `vte` crate's. Its callbacks are gathered into a
//! list of events, so that what a pane does with them is a function of the
//! list.
use vstd::prelude::*;

verus! {

#[verifier::external_type_specification]
#[verifier::external_body]
pub struct ExParams(vte::Params);

#[verifier::external_type_specification]
#[verifier::external_body]
pub struct ExParser<const OSC_RAW_BUF_SIZE: usize>(vte::Parser<OSC_RAW_BUF_SIZE>);

/// One action that the parser asks for.
#[derive(Debug)]
pub enum VtEvent {
    /// Draw a character.
    Print(char),
    /// Execute a control byte.
    Execute(u8),
    /// A device control string opened with this final character.
    Hook(char),
    /// A byte of the open device control string.
    Put(u8),
    /// The device control string ended.
    Unhook,
    /// An operating system command, as its fields.
    Osc { fields: Vec<Vec<u8>> },
    /// A control sequence: its parameters, each with its sub-parameters, its
    /// private marker and intermediates, and its final character.
    Csi { params: Vec<Vec<u16>>, intermediates: Vec<u8>, action: char },
    /// An escape sequence with this final byte.
    Esc(u8),
}

/// The contents of a [`VtEvent`].
#[verifier::ext_equal]
pub enum VtEventView {
    Print(char),
    Execute(u8),
    Hook(char),
    Put(u8),
    Unhook,
    Osc { fields: Seq<Seq<u8>> },
    Csi { params: Seq<Seq<u16>>, intermediates: Seq<u8>, action: char },
    Esc(u8),
}

impl View for VtEvent {
    type V = VtEventView;

    open spec fn view(&self) -> VtEventView {
        match self {
            VtEvent::Print(c) => VtEventView::Print(*c),
            VtEvent::Execute(b) => VtEventView::Execute(*b),
            VtEvent::Hook(c) => VtEventView::Hook(*c),
            VtEvent::Put(b) => VtEventView::Put(*b),
            VtEvent::Unhook => VtEventView::Unhook,
            VtEvent::Osc { fields } => VtEventView::Osc { fields: crate::seqops::views(fields@) },
            VtEvent::Csi { params, intermediates, action } => VtEventView::Csi {
                params: crate::seqops::views(params@),
                intermediates: intermediates@,
                action: *action,
            },
            VtEvent::Esc(b) => VtEventView::Esc(*b),
        }
    }
}

/// The contents of a list of events.
pub open spec fn events_view(s: Seq<VtEvent>) -> Seq<VtEventView> {
    Seq::new(s.len(), |i: int| s[i]@)
}

/// The parameters that a `vte::Params` holds, each with its sub-parameters.
pub uninterp spec fn vt_params(params: vte::Params) -> Seq<Seq<u16>>;

/// `vte::Params::iter`: every parameter in order, each as the slice of its
/// sub-parameters.
#[verifier::external_body]
fn param_groups(params: &vte::Params) -> (r: Vec<Vec<u16>>)
    ensures
        crate::seqops::views(r@) == vt_params(*params),
{
    params.iter().map(|p| p.to_vec()).collect()
}

/// Gathers the parser's callbacks.
pub struct Collector {
    pub events: Vec<VtEvent>,
}

impl vte::Perform for Collector {
    fn print(&mut self, c: char)
        ensures
            events_view(final(self).events@) == events_view(old(self).events@).push(
                VtEventView::Print(c),
            ),
    {
        self.events.push(VtEvent::Print(c));
        assert(events_view(self.events@) =~= events_view(old(self).events@).push(
            VtEventView::Print(c),
        ));
    }

    fn execute(&mut self, byte: u8)
        ensures
            events_view(final(self).events@) == events_view(old(self).events@).push(
                VtEventView::Execute(byte),
            ),
    {
        self.events.push(VtEvent::Execute(byte));
        assert(events_view(self.events@) =~= events_view(old(self).events@).push(
            VtEventView::Execute(byte),
        ));
    }

    fn hook(&mut self, _params: &vte::Params, _intermediates: &[u8], _ignore: bool, action: char)
        ensures
            events_view(final(self).events@) == events_view(old(self).events@).push(
                VtEventView::Hook(action),
            ),
    {
        self.events.push(VtEvent::Hook(action));
        assert(events_view(self.events@) =~= events_view(old(self).events@).push(
            VtEventView::Hook(action),
        ));
    }

    fn put(&mut self, byte: u8)
        ensures
            events_view(final(self).events@) == events_view(old(self).events@).push(
                VtEventView::Put(byte),
            ),
    {
        self.events.push(VtEvent::Put(byte));
        assert(events_view(self.events@) =~= events_view(old(self).events@).push(
            VtEventView::Put(byte),
        ));
    }

    fn unhook(&mut self)
        ensures
            events_view(final(self).events@) == events_view(old(self).events@).push(
                VtEventView::Unhook,
            ),
    {
        self.events.push(VtEvent::Unhook);
        assert(events_view(self.events@) =~= events_view(old(self).events@).push(
            VtEventView::Unhook,
        ));
    }

    fn osc_dispatch(&mut self, params: &[&[u8]], _bell_terminated: bool)
        ensures
            events_view(final(self).events@) == events_view(old(self).events@).push(
                VtEventView::Osc { fields: Seq::new(params@.len(), |i: int| params@[i]@) },
            ),
    {
        let mut copy: Vec<Vec<u8>> = Vec::new();
        let mut i: usize = 0;
        while i < params.len()
            invariant
                i <= params@.len(),
                copy@.len() == i,
                forall|j: int| 0 <= j < i ==> (#[trigger] copy@[j])@ == params@[j]@,
            decreases params@.len() - i,
        {
            copy.push(vstd::slice::slice_to_vec(params[i]));
            i = i + 1;
        }
        let ghost want = VtEventView::Osc {
            fields: Seq::new(params@.len(), |i: int| params@[i]@),
        };
        assert(crate::seqops::views(copy@) =~= Seq::new(params@.len(), |i: int| params@[i]@));
        self.events.push(VtEvent::Osc { fields: copy });
        assert(events_view(self.events@) =~= events_view(old(self).events@).push(want));
    }

    fn csi_dispatch(
        &mut self,
        params: &vte::Params,
        intermediates: &[u8],
        _ignore: bool,
        action: char,
    )
        ensures
            events_view(final(self).events@) == events_view(old(self).events@).push(
                VtEventView::Csi {
                    params: vt_params(*params),
                    intermediates: intermediates@,
                    action,
                },
            ),
    {
        let groups = param_groups(params);
        self.events.push(
            VtEvent::Csi {
                params: groups,
                intermediates: vstd::slice::slice_to_vec(intermediates),
                action,
            },
        );
        assert(events_view(self.events@) =~= events_view(old(self).events@).push(
            VtEventView::Csi {
                params: vt_params(*params),
                intermediates: intermediates@,
                action,
            },
        ));
    }

    fn esc_dispatch(&mut self, _intermediates: &[u8], _ignore: bool, byte: u8)
        ensures
            events_view(final(self).events@) == events_view(old(self).events@).push(
                VtEventView::Esc(byte),
            ),
    {
        self.events.push(VtEvent::Esc(byte));
        assert(events_view(self.events@) =~= events_view(old(self).events@).push(
            VtEventView::Esc(byte),
        ));
    }
}

/// The events that a parser which has read the slices `fed`, one after the
/// other, reads out of `bytes`.
pub uninterp spec fn vt_events(fed: Seq<Seq<u8>>, bytes: Seq<u8>) -> Seq<VtEventView>;

/// True of bytes that are printable ASCII characters.
pub open spec fn printable_ascii(bytes: Seq<u8>) -> bool {
    forall|i: int| 0 <= i < bytes.len() ==> 0x20 <= #[trigger] bytes[i] <= 0x7e
}

/// The characters of ASCII bytes.
pub open spec fn ascii_chars(bytes: Seq<u8>) -> Seq<char>
    decreases bytes.len(),
{
    if bytes.len() == 0 {
        Seq::empty()
    } else {
        ascii_chars(bytes.drop_last()).push(bytes.last() as char)
    }
}

/// The events that print a run of characters.
pub open spec fn prints(run: Seq<char>) -> Seq<VtEventView>
    decreases run.len(),
{
    if run.len() == 0 {
        Seq::empty()
    } else {
        prints(run.drop_last()).push(VtEventView::Print(run.last()))
    }
}

/// `vte::Parser::new`: a parser that has read nothing.
pub assume_specification[ vte::Parser::new ]() -> vte::Parser
;

/// A parser together with the slices it has read since it was made. Where one
/// slice ends and the next begins matters: a character that is cut in two is
/// read otherwise than a whole one.
pub struct VtParser {
    parser: vte::Parser,
    fed: Ghost<Seq<Seq<u8>>>,
}

impl VtParser {
    /// The slices read so far.
    pub closed spec fn view(self) -> Seq<Seq<u8>> {
        self.fed@
    }

    pub fn new() -> (p: VtParser)
        ensures
            p@ == Seq::<Seq<u8>>::empty(),
    {
        VtParser { parser: vte::Parser::new(), fed: Ghost(Seq::empty()) }
    }

    /// `vte::Parser::advance`: the parser reads on, and what it asks for
    /// depends on the slices it has read before and on `bytes` alone. A parser
    /// that has read nothing asks to print printable ASCII, one character a byte.
    #[verifier::external_body]
    pub(crate) fn advance(&mut self, bytes: &[u8]) -> (events: Vec<VtEvent>)
        ensures
            events_view(events@) == vt_events(old(self)@, bytes@),
            final(self)@ == old(self)@.push(bytes@),
            old(self)@.len() == 0 && printable_ascii(bytes@) ==> events_view(events@) == prints(
                ascii_chars(bytes@),
            ),
    {
        let mut collector = Collector { events: Vec::new() };
        self.parser.advance(&mut collector, bytes);
        collector.events
    }
}

/// The columns that a character takes, as the `unicode-width` crate tells them.
pub uninterp spec fn char_columns(c: char) -> Option<usize>;

/// `unicode_width::UnicodeWidthChar::width`: a function of the character, never
/// more than three columns. A printable ASCII character takes one column, and
/// a control character none that could be told.
#[verifier::external_body]
pub(crate) fn char_width(c: char) -> (r: Option<usize>)
    ensures
        r == char_columns(c),
        r is Some ==> r->0 <= 3,
        0x20 <= (c as u32) < 0x7f ==> r == Some(1usize),
        (c as u32) < 0x20 || 0x7f <= (c as u32) < 0xa0 ==> r is None,
{
    unicode_width::UnicodeWidthChar::width(c)
}

} // verus!
