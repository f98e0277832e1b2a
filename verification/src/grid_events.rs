//! What each terminal event does to a grid.
use crate::graphics;
use crate::graphics::{Graphic, GraphicProtocol, GRAPHIC_PAYLOAD_MAX};
use crate::grid::{resized, GridState};
use crate::grid_laws;
use crate::grid_model;
use crate::grid_model::GridView;
use crate::seqops;
use crate::seqops::{copied, min_usize};
use crate::sgr::Pen;
use crate::text;
use crate::text::{chars_of, join_chars, string_of, utf8_lossy, utf8_text};
use crate::vt;
use crate::vt::VtEvent;
use vstd::prelude::*;

verus! {

impl GridState {
    /// Executes a control byte.
    pub fn execute(&mut self, byte: u8)
        requires
            old(self).wf(),
        ensures
            final(self)@ == old(self)@.execute(byte),
            final(self).wf(),
    {
        proof {
            reveal(GridView::execute);
        }
        self.wrap_pending = false;
        assert(self@ == GridView { wrap_pending: false, ..old(self)@ });
        if byte == 0x0a {
            self.linefeed();
        } else if byte == 0x0d {
            self.carriage_return();
        } else if byte == 0x08 {
            self.backspace();
        } else if byte == 0x09 {
            self.tab_forward();
        }
    }

    /// Queues a reply to the child, where this pane answers queries.
    pub(crate) fn answer(&mut self, bytes: &Vec<u8>)
        requires
            old(self).wf(),
        ensures
            final(self)@ == old(self)@.answer(bytes@),
            final(self).wf(),
    {
        proof {
            reveal(GridView::answer);
        }
        if self.role.answers_queries() {
            let mut copy = copied(bytes);
            self.pending_response.append(&mut copy);
        }
    }

    fn reset(&mut self)
        requires
            old(self).wf(),
        ensures
            final(self)@ == old(self)@.reset(),
            final(self).wf(),
    {
        proof {
            reveal(GridView::reset);
            grid_laws::lemma_reset_wf(self@);
        }
        let (last_row, _) = self.limits();
        self.pen = Pen::plain();
        assert(self@ == GridView { pen: Pen::plain(), ..old(self)@ });
        self.clear_alternate();
        self.leave_alt_screen();
        self.erase_all();
        self.cursor_set(0, 0);
        let ghost v = self@;
        self.scroll_top = 0;
        self.scroll_bottom = last_row;
        self.saved = None;
        self.cursor_keys_mode = false;
        self.cursor_visible = true;
        self.title = None;
        assert(self@ == GridView {
            scroll_top: 0,
            scroll_bottom: old(self)@.last_row(),
            saved: None,
            cursor_keys_mode: false,
            cursor_visible: true,
            title: None,
            ..v
        });
    }

    /// An escape sequence.
    pub fn esc_dispatch(&mut self, byte: u8)
        requires
            old(self).wf(),
        ensures
            final(self)@ == old(self)@.esc(byte),
            final(self).wf(),
    {
        proof {
            reveal(GridView::esc);
        }
        if byte == 0x37 {
            self.save_cursor();
        } else if byte == 0x38 {
            self.drop_wrap();
            self.restore_cursor();
        } else if byte == 0x44 {
            self.drop_wrap();
            self.linefeed();
        } else if byte == 0x45 {
            self.drop_wrap();
            self.linefeed();
            self.carriage_return();
        } else if byte == 0x4d {
            self.drop_wrap();
            self.reverse_index();
        } else if byte == 0x63 {
            self.drop_wrap();
            self.reset();
        }
    }

    fn drop_wrap(&mut self)
        requires
            old(self).wf(),
        ensures
            final(self)@ == (GridView { wrap_pending: false, ..old(self)@ }),
            final(self).wf(),
    {
        self.wrap_pending = false;
    }

    fn set_title(&mut self, text: String)
        requires
            old(self).wf(),
        ensures
            final(self)@ == (GridView { title: Some(text@), ..old(self)@ }),
            final(self).wf(),
    {
        self.title = Some(text);
    }

    fn set_cwd(&mut self, text: &str)
        requires
            old(self).wf(),
        ensures
            final(self)@ == (GridView { blocks: old(self)@.blocks.set_cwd(text@), ..old(self)@ }),
            final(self).wf(),
    {
        self.blocks.set_cwd_from_osc7(text);
    }

    fn mark_prompt(&mut self, marker: &str, now: u64)
        requires
            old(self).wf(),
        ensures
            final(self)@ == (GridView {
                blocks: old(self)@.blocks.marker(marker@, now),
                ..old(self)@
            }),
            final(self).wf(),
    {
        self.blocks.on_osc_133_at(marker, now);
    }

    /// An operating system command read at `now`.
    pub fn osc_dispatch(&mut self, fields: &Vec<Vec<u8>>, now: u64)
        requires
            old(self).wf(),
        ensures
            final(self)@ == old(self)@.osc(seqops::views(fields@), now),
            final(self).wf(),
    {
        proof {
            reveal(GridView::osc);
        }
        if fields.len() == 0 {
            return;
        }
        let ghost all = seqops::views(fields@);
        let code = osc_code(&fields[0]);
        match code {
            OscCode::Title => {
                if fields.len() > 1 {
                    match utf8_text(fields[1].as_slice()) {
                        Some(t) => self.set_title(t),
                        None => {},
                    }
                }
            },
            OscCode::Directory => {
                if fields.len() > 1 {
                    match utf8_text(fields[1].as_slice()) {
                        Some(t) => self.set_cwd(t.as_str()),
                        None => {},
                    }
                }
            },
            OscCode::Prompt => {
                let parts = texts_from_second(fields);
                let marker = string_of(&join_chars(&parts, ';'));
                self.mark_prompt(marker.as_str(), now);
            },
            OscCode::Other => {},
        }
    }

    /// Records an image at the cursor.
    pub(crate) fn push_graphic(
        &mut self,
        protocol: GraphicProtocol,
        params: String,
        data: Vec<u8>,
        cut: bool,
    )
        requires
            old(self).wf(),
        ensures
            final(self)@ == old(self)@.push_graphic(protocol, params@, data@, cut),
            final(self).wf(),
    {
        proof {
            reveal(GridView::push_graphic);
        }
        let truncated = cut || data.len() > GRAPHIC_PAYLOAD_MAX;
        let mut kept = data;
        if kept.len() > GRAPHIC_PAYLOAD_MAX {
            kept.truncate(GRAPHIC_PAYLOAD_MAX);
        }
        assert(kept@ == if data@.len() > GRAPHIC_PAYLOAD_MAX {
            data@.take(GRAPHIC_PAYLOAD_MAX as int)
        } else {
            data@
        });
        let graphic = Graphic {
            protocol,
            params,
            data: kept,
            at_row: self.cursor_row,
            at_col: self.cursor_col,
            truncated,
        };
        let ghost list = self.graphics@;
        let ghost shown = graphic@;
        self.graphics.push(graphic);
        assert(graphics::graphics_view(self.graphics@) =~= graphics::graphics_view(list).push(
            shown,
        ));
    }

    /// Takes in one application program command.
    pub fn ingest_apc(&mut self, payload: &Vec<u8>, cut: bool)
        requires
            old(self).wf(),
        ensures
            final(self)@ == old(self)@.ingest_apc(payload@, cut),
            final(self).wf(),
    {
        proof {
            reveal(GridView::ingest_apc);
        }
        if payload.len() == 0 || payload[0] != 0x47 {
            return;
        }
        let (params, data) = split_kitty(payload);
        self.push_graphic(GraphicProtocol::Kitty, params, data, cut);
    }

    /// A device control string opens; `q` is a sixel image.
    pub fn hook(&mut self, action: char)
        requires
            old(self).wf(),
        ensures
            final(self)@ == old(self)@.hook(action),
            final(self).wf(),
    {
        proof {
            reveal(GridView::hook);
        }
        if action == 'q' {
            self.sixel_in_flight = Some(Vec::new());
        }
    }

    /// A byte of the open device control string, up to one past the bound.
    pub fn put(&mut self, byte: u8)
        requires
            old(self).wf(),
        ensures
            final(self)@ == old(self)@.put(byte),
            final(self).wf(),
    {
        proof {
            reveal(GridView::put);
        }
        match &mut self.sixel_in_flight {
            Some(buf) => {
                if buf.len() <= GRAPHIC_PAYLOAD_MAX {
                    buf.push(byte);
                }
            },
            None => {},
        }
    }

    fn take_sixel(&mut self) -> (r: Option<Vec<u8>>)
        requires
            old(self).wf(),
        ensures
            match r {
                Some(buf) => old(self)@.sixel == Some(buf@),
                None => old(self)@.sixel is None,
            },
            final(self)@ == (GridView { sixel: None, ..old(self)@ }),
            final(self).wf(),
    {
        let mut taken: Option<Vec<u8>> = None;
        std::mem::swap(&mut taken, &mut self.sixel_in_flight);
        taken
    }

    /// The device control string ends; an image that is not empty is kept.
    pub fn unhook(&mut self)
        requires
            old(self).wf(),
        ensures
            final(self)@ == old(self)@.unhook(),
            final(self).wf(),
    {
        proof {
            reveal(GridView::unhook);
        }
        match self.take_sixel() {
            Some(data) => {
                if data.len() > 0 {
                    let cut = data.len() > GRAPHIC_PAYLOAD_MAX;
                    let none = String::new();
                    self.push_graphic(GraphicProtocol::Sixel, none, data, cut);
                }
            },
            None => {},
        }
    }

    /// Carries out one event read at `now`.
    pub fn perform(&mut self, ev: &VtEvent, now: u64)
        requires
            old(self).wf(),
        ensures
            final(self)@ == old(self)@.perform(ev@, now),
            final(self).wf(),
    {
        proof {
            reveal(GridView::perform);
        }
        match ev {
            VtEvent::Print(c) => self.print(*c),
            VtEvent::Execute(b) => self.execute(*b),
            VtEvent::Hook(c) => self.hook(*c),
            VtEvent::Put(b) => self.put(*b),
            VtEvent::Unhook => self.unhook(),
            VtEvent::Osc { fields } => self.osc_dispatch(fields, now),
            VtEvent::Csi { params, intermediates, action } => self.csi_dispatch(
                params,
                intermediates,
                *action,
            ),
            VtEvent::Esc(b) => self.esc_dispatch(*b),
        }
    }

    /// Carries out a list of events read at `now`, in order.
    pub fn perform_all(&mut self, events: &Vec<VtEvent>, now: u64)
        requires
            old(self).wf(),
        ensures
            final(self)@ == old(self)@.run(vt::events_view(events@), now),
            final(self).wf(),
    {
        let ghost all = vt::events_view(events@);
        let mut i: usize = 0;
        while i < events.len()
            invariant
                i <= events@.len(),
                all == vt::events_view(events@),
                self.wf(),
                self@ == old(self)@.run(all.take(i as int), now),
            decreases events@.len() - i,
        {
            proof {
                assert(all.take(i + 1).drop_last() =~= all.take(i as int));
                assert(all.take(i + 1).last() == events@[i as int]@);
            }
            self.perform(&events[i], now);
            i = i + 1;
        }
        assert(all.take(all.len() as int) =~= all);
    }

    /// Takes in a list of application program commands, in order.
    pub fn ingest_all(&mut self, done: &Vec<(Vec<u8>, bool)>)
        requires
            old(self).wf(),
        ensures
            final(self)@ == old(self)@.ingest_all(crate::apc::done_view(done@)),
            final(self).wf(),
    {
        let ghost all = crate::apc::done_view(done@);
        let mut i: usize = 0;
        while i < done.len()
            invariant
                i <= done@.len(),
                all == crate::apc::done_view(done@),
                self.wf(),
                self@ == old(self)@.ingest_all(all.take(i as int)),
            decreases done@.len() - i,
        {
            proof {
                assert(all.take(i + 1).drop_last() =~= all.take(i as int));
                assert(all.take(i + 1).last() == (done@[i as int].0@, done@[i as int].1));
            }
            self.ingest_apc(&done[i].0, done[i].1);
            i = i + 1;
        }
        assert(all.take(all.len() as int) =~= all);
    }

    /// Brings the grid to a new size: the top left corner stays, the rest is
    /// cut or padded with blanks, and the margins go back to their defaults.
    pub fn resize(&mut self, cols: usize, rows: usize)
        requires
            old(self).wf(),
        ensures
            final(self)@ == old(self)@.resize(cols as int, rows as int),
            final(self).wf(),
    {
        proof {
            reveal(GridView::resize);
            grid_laws::lemma_resize_wf(self@, cols as int, rows as int);
        }
        self.primary = resized(&self.primary, cols, rows);
        self.alternate = resized(&self.alternate, cols, rows);
        self.rows = rows;
        self.cols = cols;
        let (last_row, last_col) = self.limits();
        self.cursor_row = min_usize(self.cursor_row, last_row);
        self.cursor_col = min_usize(self.cursor_col, last_col);
        self.scroll_top = 0;
        self.scroll_bottom = last_row;
    }
}

/// The operating system commands that a pane knows.
#[derive(Clone, Copy)]
enum OscCode {
    Title,
    Directory,
    Prompt,
    Other,
}

fn osc_code(code: &Vec<u8>) -> (r: OscCode)
    ensures
        (r is Title) == (code@ == seq![0x30u8] || code@ == seq![0x31u8] || code@ == seq![0x32u8]),
        (r is Directory) == (code@ == seq![0x37u8]),
        (r is Prompt) == (code@ == seq![0x31u8, 0x33, 0x33]),
{
    proof {
        assert(seq![0x30u8][0] == 0x30);
        assert(seq![0x31u8][0] == 0x31);
        assert(seq![0x32u8][0] == 0x32);
        assert(seq![0x37u8][0] == 0x37);
        let p = seq![0x31u8, 0x33, 0x33];
        assert(p[0] == 0x31 && p[1] == 0x33 && p[2] == 0x33);
    }
    if code.len() == 1 {
        let b: u8 = code[0];
        assert(code@ =~= seq![b]);
        if b == 0x30 || b == 0x31 || b == 0x32 {
            return OscCode::Title;
        }
        if b == 0x37 {
            return OscCode::Directory;
        }
    } else if code.len() == 3 && code[0] == 0x31 && code[1] == 0x33 && code[2] == 0x33 {
        assert(code@ =~= seq![0x31u8, 0x33, 0x33]);
        return OscCode::Prompt;
    }
    OscCode::Other
}

/// The texts of the fields after the first that are well-formed UTF-8.
fn texts_from_second(fields: &Vec<Vec<u8>>) -> (r: Vec<Vec<char>>)
    requires
        fields@.len() > 0,
    ensures
        seqops::views(r@) == grid_model::texts(seqops::views(fields@).skip(1)),
{
    let ghost rest = seqops::views(fields@).skip(1);
    let mut out: Vec<Vec<char>> = Vec::new();
    let mut i: usize = 1;
    assert(seqops::views(out@) =~= grid_model::texts(rest.take(0)));
    while i < fields.len()
        invariant
            1 <= i <= fields@.len(),
            rest == seqops::views(fields@).skip(1),
            seqops::views(out@) == grid_model::texts(rest.take(i - 1)),
        decreases fields@.len() - i,
    {
        proof {
            assert(rest.take(i as int).drop_last() =~= rest.take(i - 1));
            assert(rest.take(i as int).last() == fields@[i as int]@);
        }
        let ghost before = out@;
        match utf8_text(fields[i].as_slice()) {
            Some(t) => {
                let chars = chars_of(t.as_str());
                out.push(chars);
                assert(seqops::views(out@) =~= seqops::views(before).push(t@));
            },
            None => {},
        }
        i = i + 1;
    }
    assert(rest.take(rest.len() as int) =~= rest);
    out
}

proof fn lemma_first_byte(s: Seq<u8>, b: u8, i: int)
    requires
        0 <= i <= s.len(),
        i < s.len() ==> s[i] == b,
        forall|j: int| 0 <= j < i ==> s[j] != b,
    ensures
        grid_model::first_byte(s, b) == i,
    decreases i,
{
    if i > 0 {
        lemma_first_byte(s.drop_first(), b, i - 1);
    }
}

/// Splits a kitty payload at its first semicolon: parameters before, data
/// after. One without a semicolon is a command with no data.
fn split_kitty(payload: &Vec<u8>) -> (r: (String, Vec<u8>))
    requires
        payload@.len() > 0,
    ensures
        ({
            let rest = payload@.skip(1);
            let i = grid_model::first_byte(rest, 0x3b);
            &&& r.0@ == text::lossy_text(rest.take(i))
            &&& r.1@ == if i < rest.len() {
                rest.skip(i + 1)
            } else {
                Seq::empty()
            }
        }),
{
    let ghost rest = payload@.skip(1);
    let n: usize = payload.len();
    let mut i: usize = 1;
    while i < n && payload[i] != 0x3b
        invariant
            1 <= i <= n == payload@.len(),
            rest == payload@.skip(1),
            forall|j: int| 0 <= j < i - 1 ==> rest[j] != 0x3b,
        decreases n - i,
    {
        assert(rest[i - 1] == payload@[i as int]);
        i = i + 1;
    }
    proof {
        if i < n {
            assert(rest[i - 1] == payload@[i as int]);
        }
        lemma_first_byte(rest, 0x3b, i - 1);
        assert(payload@.subrange(1, i as int) =~= rest.take(i - 1));
    }
    let params = utf8_lossy(vstd::slice::slice_subrange(payload.as_slice(), 1, i));
    if i < n {
        let data = vstd::slice::slice_to_vec(
            vstd::slice::slice_subrange(payload.as_slice(), i + 1, n),
        );
        assert(data@ =~= rest.skip(i as int));
        (params, data)
    } else {
        (params, Vec::new())
    }
}

} // verus!
