//! Control sequences.
use crate::grid::{row_close_gap, row_open_gap, GridState};
use crate::grid_laws;
use crate::grid_model;
use crate::grid_model::GridView;
use crate::host_role::TearCaps;
use crate::modes::MouseTracking;
use crate::seqops;
use crate::seqops::min_usize;
use crate::text::push_decimal_bytes;
use vstd::prelude::*;

verus! {

/// The first number of parameter `i`, or `default` where it is missing.
fn param_at(params: &Vec<Vec<u16>>, i: usize, default: u16) -> (r: u16)
    ensures
        r == grid_model::param_or(seqops::views(params@), i as int, default as int),
{
    if i < params.len() && params[i].len() > 0 {
        params[i][0]
    } else {
        default
    }
}

fn one_or_more(n: u16) -> (r: u16)
    ensures
        r == grid_model::at_least_one(n as int),
        r >= 1,
{
    if n < 1 {
        1
    } else {
        n
    }
}

/// Whether some parameter starts with `code`.
fn any_param(params: &Vec<Vec<u16>>, code: u16) -> (r: bool)
    ensures
        r == grid_model::has_param(seqops::views(params@), code),
{
    let ghost all = seqops::views(params@);
    let mut i: usize = 0;
    while i < params.len()
        invariant
            i <= params@.len(),
            all == seqops::views(params@),
            forall|j: int|
                0 <= j < i ==> !((#[trigger] all[j]).len() > 0 && all[j][0] == code),
        decreases params@.len() - i,
    {
        if params[i].len() > 0 && params[i][0] == code {
            assert(all[i as int].len() > 0 && all[i as int][0] == code);
            return true;
        }
        assert(!(all[i as int].len() > 0 && all[i as int][0] == code));
        i = i + 1;
    }
    false
}

impl GridState {
    /// The reply that tells where the cursor stands.
    fn cursor_report(&self) -> (r: Vec<u8>)
        requires
            self.wf(),
        ensures
            r@ == self@.cursor_report(),
    {
        let mut r: Vec<u8> = vec![0x1b, 0x5b];
        push_decimal_bytes(&mut r, self.cursor_row + 1);
        r.push(0x3b);
        push_decimal_bytes(&mut r, self.cursor_col + 1);
        r.push(0x52);
        assert(r@ =~= self@.cursor_report());
        r
    }

    fn insert_lines(&mut self, n: usize)
        requires
            old(self).wf(),
        ensures
            final(self)@ == old(self)@.insert_lines(n as int),
            final(self).wf(),
    {
        proof {
            reveal(GridView::insert_lines);
            grid_laws::lemma_insert_delete_lines_wf(self@, n as int);
        }
        if self.cursor_row < self.active_rows().len() && self.cursor_row <= self.scroll_bottom {
            self.open_lines(self.cursor_row, self.scroll_bottom + 1, n);
        }
    }

    fn delete_lines(&mut self, n: usize)
        requires
            old(self).wf(),
        ensures
            final(self)@ == old(self)@.delete_lines(n as int),
            final(self).wf(),
    {
        proof {
            reveal(GridView::delete_lines);
            grid_laws::lemma_insert_delete_lines_wf(self@, n as int);
        }
        if self.cursor_row < self.active_rows().len() && self.cursor_row <= self.scroll_bottom {
            self.close_lines(self.cursor_row, self.scroll_bottom + 1, n);
        }
    }

    fn insert_cells(&mut self, n: usize)
        requires
            old(self).wf(),
        ensures
            final(self)@ == old(self)@.insert_cells(n as int),
            final(self).wf(),
    {
        proof {
            reveal(GridView::insert_cells);
            grid_laws::lemma_edit_cells_wf(self@, n as int);
            if self.cursor_row < self@.active().len() {
                grid_laws::lemma_rectangle_row(
                    self@.active(),
                    self.cols as int,
                    self.cursor_row as int,
                );
            }
        }
        let row: usize = self.cursor_row;
        let col: usize = self.cursor_col;
        let cols: usize = self.cols;
        let blank = self.blank_cell();
        let s = self.active_mut();
        row_open_gap(s, row, col, cols, n, blank);
    }

    fn delete_cells(&mut self, n: usize)
        requires
            old(self).wf(),
        ensures
            final(self)@ == old(self)@.delete_cells(n as int),
            final(self).wf(),
    {
        proof {
            reveal(GridView::delete_cells);
            grid_laws::lemma_edit_cells_wf(self@, n as int);
            if self.cursor_row < self@.active().len() {
                grid_laws::lemma_rectangle_row(
                    self@.active(),
                    self.cols as int,
                    self.cursor_row as int,
                );
            }
        }
        let row: usize = self.cursor_row;
        let col: usize = self.cursor_col;
        let cols: usize = self.cols;
        let blank = self.blank_cell();
        let s = self.active_mut();
        row_close_gap(s, row, col, cols, n, blank);
    }

    fn erase_cells(&mut self, n: usize)
        requires
            old(self).wf(),
        ensures
            final(self)@ == old(self)@.erase_cells(n as int),
            final(self).wf(),
    {
        proof {
            reveal(GridView::erase_cells);
            reveal(GridView::erase_in_line);
            grid_laws::lemma_edit_cells_wf(self@, n as int);
            if self.cursor_row < self@.active().len() {
                grid_laws::lemma_rectangle_row(
                    self@.active(),
                    self.cols as int,
                    self.cursor_row as int,
                );
                let r = self@.active()[self.cursor_row as int];
                let col = self.cursor_col as int;
                assert(seqops::fill_range(r, col, col + n, self@.blank_cell())
                    =~= seqops::fill_range(
                    r,
                    col,
                    seqops::imin(col + n, usize::MAX as int),
                    self@.blank_cell(),
                ));
            }
        }
        let left: usize = usize::MAX - self.cursor_col;
        let to: usize = self.cursor_col + min_usize(n, left);
        self.erase_in_line(self.cursor_col, to);
    }

    fn scroll_up(&mut self, n: usize)
        requires
            old(self).wf(),
        ensures
            final(self)@ == old(self)@.scroll_up(n as int),
            final(self).wf(),
    {
        let mut i: usize = 0;
        while i < n
            invariant
                i <= n,
                self.wf(),
                self@ == old(self)@.scroll_up(i as int),
            decreases n - i,
        {
            self.scroll_region_up();
            i = i + 1;
        }
    }

    fn repeat_last(&mut self, n: usize)
        requires
            old(self).wf(),
        ensures
            final(self)@ == (match old(self)@.last_printed {
                Some(c) => old(self)@.print_times(c, n as int),
                None => old(self)@,
            }),
            final(self).wf(),
    {
        match self.last_printed {
            Some(c) => {
                let mut i: usize = 0;
                while i < n
                    invariant
                        i <= n,
                        self.wf(),
                        self@ == old(self)@.print_times(c, i as int),
                    decreases n - i,
                {
                    self.print(c);
                    i = i + 1;
                }
            },
            None => {},
        }
    }

    fn set_insert_mode(&mut self, on: bool)
        requires
            old(self).wf(),
        ensures
            final(self)@ == (GridView { insert_mode: on, ..old(self)@ }),
            final(self).wf(),
    {
        self.insert_mode = on;
    }

    fn set_margins(&mut self, params: &Vec<Vec<u16>>)
        requires
            old(self).wf(),
        ensures
            final(self)@ == old(self)@.set_margins(seqops::views(params@)),
            final(self).wf(),
    {
        proof {
            reveal(GridView::set_margins);
        }
        let (last_row, _) = self.limits();
        let top: usize = one_or_more(param_at(params, 0, 1)) as usize - 1;
        let bottom: usize = if params.len() > 1 && params[1].len() > 0 {
            one_or_more(params[1][0]) as usize - 1
        } else {
            last_row
        };
        self.scroll_top = min_usize(top, last_row);
        self.scroll_bottom = min_usize(bottom, last_row);
        assert(self@ == GridView {
            scroll_top: seqops::imin(top as int, old(self)@.last_row()),
            scroll_bottom: seqops::imin(bottom as int, old(self)@.last_row()),
            ..old(self)@
        });
        self.cursor_set(0, 0);
    }

    fn set_mouse(&mut self, level: MouseTracking)
        requires
            old(self).wf(),
        ensures
            final(self)@ == (GridView { mouse: level, ..old(self)@ }),
            final(self).wf(),
    {
        self.mouse = level;
    }

    fn set_cursor_keys_mode(&mut self, on: bool)
        requires
            old(self).wf(),
        ensures
            final(self)@ == (GridView { cursor_keys_mode: on, ..old(self)@ }),
            final(self).wf(),
    {
        self.cursor_keys_mode = on;
    }

    fn set_cursor_visible(&mut self, on: bool)
        requires
            old(self).wf(),
        ensures
            final(self)@ == (GridView { cursor_visible: on, ..old(self)@ }),
            final(self).wf(),
    {
        self.cursor_visible = on;
    }

    fn set_autowrap(&mut self, on: bool)
        requires
            old(self).wf(),
        ensures
            final(self)@ == (GridView { autowrap: on, ..old(self)@ }),
            final(self).wf(),
    {
        self.autowrap = on;
    }

    fn set_focus_reporting(&mut self, on: bool)
        requires
            old(self).wf(),
        ensures
            final(self)@ == (GridView { focus_reporting: on, ..old(self)@ }),
            final(self).wf(),
    {
        self.focus_reporting = on;
    }

    fn set_bracketed_paste(&mut self, on: bool)
        requires
            old(self).wf(),
        ensures
            final(self)@ == (GridView { bracketed_paste: on, ..old(self)@ }),
            final(self).wf(),
    {
        self.bracketed_paste = on;
    }

    fn set_sync_output(&mut self, on: bool)
        requires
            old(self).wf(),
        ensures
            final(self)@ == (GridView { sync_output: on, ..old(self)@ }),
            final(self).wf(),
    {
        self.sync_output = on;
    }

    fn set_mouse_sgr(&mut self, on: bool)
        requires
            old(self).wf(),
        ensures
            final(self)@ == (GridView { mouse_sgr: on, ..old(self)@ }),
            final(self).wf(),
    {
        self.mouse_sgr = on;
    }

    fn set_flag(&mut self, code: u16, set: bool)
        requires
            old(self).wf(),
            code != 47 && code != 1047 && code != 1049,
        ensures
            final(self)@ == old(self)@.dec_mode(code, set),
            final(self).wf(),
    {
        proof {
            reveal(GridView::dec_mode);
        }
        match code {
            1 => self.set_cursor_keys_mode(set),
            25 => self.set_cursor_visible(set),
            7 => self.set_autowrap(set),
            1004 => self.set_focus_reporting(set),
            2004 => self.set_bracketed_paste(set),
            2026 => self.set_sync_output(set),
            1000 | 1002 | 1003 => {
                let level = if !set {
                    MouseTracking::Off
                } else if code == 1000 {
                    MouseTracking::Click
                } else if code == 1002 {
                    MouseTracking::Drag
                } else {
                    MouseTracking::Motion
                };
                self.set_mouse(level);
            },
            1006 => self.set_mouse_sgr(set),
            _ => {},
        }
    }

    /// Sets or resets one private mode.
    pub(crate) fn apply_dec_mode(&mut self, code: u16, set: bool)
        requires
            old(self).wf(),
        ensures
            final(self)@ == old(self)@.dec_mode(code, set),
            final(self).wf(),
    {
        if code == 47 {
            proof {
                reveal(GridView::dec_mode);
            }
            if set {
                self.enter_alt_screen(false);
            } else {
                self.leave_alt_screen();
            }
        } else if code == 1047 {
            proof {
                reveal(GridView::dec_mode);
            }
            if set {
                self.enter_alt_screen(true);
            } else {
                self.clear_alternate();
                self.leave_alt_screen();
            }
        } else if code == 1049 {
            proof {
                reveal(GridView::dec_mode);
            }
            if set {
                self.save_cursor();
                self.enter_alt_screen(true);
            } else {
                self.clear_alternate();
                self.leave_alt_screen();
                self.restore_cursor();
            }
        } else {
            self.set_flag(code, set);
        }
    }

    fn apply_dec_modes(&mut self, params: &Vec<Vec<u16>>, set: bool)
        requires
            old(self).wf(),
        ensures
            final(self)@ == old(self)@.dec_modes(seqops::views(params@), set),
            final(self).wf(),
    {
        let ghost all = seqops::views(params@);
        let mut i: usize = 0;
        while i < params.len()
            invariant
                i <= params@.len(),
                all == seqops::views(params@),
                self.wf(),
                self@ == old(self)@.dec_modes(all.take(i as int), set),
            decreases params@.len() - i,
        {
            proof {
                assert(all.take(i + 1).drop_last() =~= all.take(i as int));
                assert(all.take(i + 1).last() == params@[i as int]@);
            }
            if params[i].len() > 0 {
                self.apply_dec_mode(params[i][0], set);
            }
            i = i + 1;
        }
        assert(all.take(all.len() as int) =~= all);
    }

    fn csi_private(&mut self, marker: u8, params: &Vec<Vec<u16>>, action: char)
        requires
            old(self).wf(),
        ensures
            final(self)@ == old(self)@.private_csi(marker, seqops::views(params@), action),
            final(self).wf(),
    {
        proof {
            reveal(GridView::private_csi);
        }
        if marker == 0x3f && (action == 'h' || action == 'l') {
            self.apply_dec_modes(params, action == 'h');
        } else if marker == 0x3e && action == 'c' {
            self.answer(&TearCaps::secondary_da());
        }
    }

    fn csi_report(&mut self, params: &Vec<Vec<u16>>, action: char)
        requires
            old(self).wf(),
            action == 'n' || action == 'c',
        ensures
            final(self)@ == old(self)@.standard_csi(seqops::views(params@), action),
            final(self).wf(),
    {
        proof {
            reveal(GridView::standard_csi);
        }
        let first: u16 = param_at(params, 0, 0);
        if action == 'c' {
            self.answer(&TearCaps::primary_da());
        } else if first == 5 {
            self.answer(&TearCaps::status_ok());
        } else if first == 6 {
            let report = self.cursor_report();
            self.answer(&report);
        }
    }

    fn csi_cursor(&mut self, params: &Vec<Vec<u16>>, action: char)
        requires
            old(self).wf(),
            action == 'A' || action == 'B' || action == 'C' || action == 'D' || action == 'E'
                || action == 'F' || action == 'G' || action == 'H' || action == 'f' || action
                == 'd' || action == 's' || action == 'u',
        ensures
            final(self)@ == old(self)@.standard_csi(seqops::views(params@), action),
            final(self).wf(),
    {
        proof {
            reveal(GridView::standard_csi);
        }
        let n: u16 = one_or_more(param_at(params, 0, 0));
        if action == 'A' {
            self.cursor_move_relative(-(n as i64), 0);
        } else if action == 'B' {
            self.cursor_move_relative(n as i64, 0);
        } else if action == 'C' {
            self.cursor_move_relative(0, n as i64);
        } else if action == 'D' {
            self.cursor_move_relative(0, -(n as i64));
        } else if action == 'E' {
            self.carriage_return();
            self.cursor_move_relative(n as i64, 0);
        } else if action == 'F' {
            self.carriage_return();
            self.cursor_move_relative(-(n as i64), 0);
        } else if action == 'G' {
            self.cursor_set(self.cursor_row, n as usize - 1);
        } else if action == 'H' || action == 'f' {
            let row: usize = one_or_more(param_at(params, 0, 1)) as usize - 1;
            let col: usize = one_or_more(param_at(params, 1, 1)) as usize - 1;
            self.cursor_set(row, col);
        } else if action == 'd' {
            self.cursor_set(n as usize - 1, self.cursor_col);
        } else if action == 's' {
            self.save_cursor();
        } else {
            self.restore_cursor();
        }
    }

    fn csi_erase(&mut self, params: &Vec<Vec<u16>>, action: char)
        requires
            old(self).wf(),
            action == 'J' || action == 'K',
        ensures
            final(self)@ == old(self)@.standard_csi(seqops::views(params@), action),
            final(self).wf(),
    {
        proof {
            reveal(GridView::standard_csi);
        }
        let first: u16 = param_at(params, 0, 0);
        if action == 'J' {
            if first == 0 {
                self.erase_below_cursor();
            } else if first == 1 {
                self.erase_above_cursor();
            } else if first == 2 || first == 3 {
                self.erase_all();
            }
        } else {
            if first == 0 {
                self.erase_to_end_of_line();
            } else if first == 1 {
                self.erase_from_start_of_line();
            } else if first == 2 {
                self.erase_line();
            }
        }
    }

    fn csi_edit(&mut self, params: &Vec<Vec<u16>>, action: char)
        requires
            old(self).wf(),
            action == 'L' || action == 'M' || action == '@' || action == 'P' || action == 'X'
                || action == 'b' || action == 'S' || action == 'T',
        ensures
            final(self)@ == old(self)@.standard_csi(seqops::views(params@), action),
            final(self).wf(),
    {
        proof {
            reveal(GridView::standard_csi);
        }
        let n: usize = one_or_more(param_at(params, 0, 0)) as usize;
        if action == 'L' {
            self.insert_lines(n);
        } else if action == 'M' {
            self.delete_lines(n);
        } else if action == '@' {
            self.insert_cells(n);
        } else if action == 'P' {
            self.delete_cells(n);
        } else if action == 'X' {
            self.erase_cells(n);
        } else if action == 'b' {
            self.repeat_last(n);
        } else if action == 'S' {
            self.scroll_up(n);
        } else {
            self.scroll_down(n);
        }
    }

    fn csi_pen_and_modes(&mut self, params: &Vec<Vec<u16>>, action: char)
        requires
            old(self).wf(),
            action == 'h' || action == 'l' || action == 'm' || action == 'r',
        ensures
            final(self)@ == old(self)@.standard_csi(seqops::views(params@), action),
            final(self).wf(),
    {
        proof {
            reveal(GridView::standard_csi);
        }
        if action == 'h' {
            if any_param(params, 4) {
                self.set_insert_mode(true);
            }
        } else if action == 'l' {
            if any_param(params, 4) {
                self.set_insert_mode(false);
            }
        } else if action == 'm' {
            self.apply_sgr(params);
        } else {
            self.set_margins(params);
        }
    }

    /// Applies an SGR sequence to the pen.
    pub(crate) fn apply_sgr(&mut self, params: &Vec<Vec<u16>>)
        requires
            old(self).wf(),
        ensures
            final(self)@ == (GridView {
                pen: old(self)@.pen.sgr(seqops::views(params@), old(self)@.palette),
                ..old(self)@
            }),
            final(self).wf(),
    {
        self.pen.apply_sgr(params, &self.palette);
    }

    fn csi_standard(&mut self, params: &Vec<Vec<u16>>, action: char)
        requires
            old(self).wf(),
        ensures
            final(self)@ == old(self)@.standard_csi(seqops::views(params@), action),
            final(self).wf(),
    {
        match action {
            'n' | 'c' => self.csi_report(params, action),
            'A' | 'B' | 'C' | 'D' | 'E' | 'F' | 'G' | 'H' | 'f' | 'd' | 's' | 'u' => {
                self.csi_cursor(params, action)
            },
            'J' | 'K' => self.csi_erase(params, action),
            'L' | 'M' | '@' | 'P' | 'X' | 'b' | 'S' | 'T' => self.csi_edit(params, action),
            'h' | 'l' | 'm' | 'r' => self.csi_pen_and_modes(params, action),
            _ => {
                proof {
                    reveal(GridView::standard_csi);
                }
            },
        }
    }

    /// A control sequence.
    ///
    /// A private marker shares its final bytes with the standard sequences and
    /// means something else, so it never reaches them.
    pub fn csi_dispatch(&mut self, params: &Vec<Vec<u16>>, intermediates: &Vec<u8>, action: char)
        requires
            old(self).wf(),
        ensures
            final(self)@ == old(self)@.csi(seqops::views(params@), intermediates@, action),
            final(self).wf(),
    {
        proof {
            reveal(GridView::csi);
        }
        if action != 'm' {
            self.wrap_pending = false;
            assert(self@ == GridView { wrap_pending: false, ..old(self)@ });
        }
        if intermediates.len() > 0 && 0x3c <= intermediates[0] && intermediates[0] <= 0x3f {
            self.csi_private(intermediates[0], params, action);
        } else if intermediates.len() == 1 && intermediates[0] == 0x21 && action == 'p' {
            assert(intermediates@ =~= seq![0x21u8]);
            self.cursor_keys_mode = false;
        } else {
            self.csi_standard(params, action);
        }
    }
}

} // verus!
