//! Lifts application program commands (`ESC _` to `ESC \` or `BEL`) out of a
//! byte stream. The terminal parser drops them, and a payload may arrive over
//! many reads, so the scan is a machine that can stop after any byte.
use crate::graphics::GRAPHIC_PAYLOAD_MAX;
use vstd::prelude::*;

verus! {

#[derive(Debug, Clone, Copy, PartialEq, Eq, Structural)]
pub enum ApcState {
    /// Not in a command, and no `ESC` pending.
    Idle,
    /// Saw `ESC`; the next byte decides whether a command opens.
    Escape,
    /// Inside a payload.
    Inside,
    /// Inside a payload and saw `ESC`; a backslash ends the command.
    InsideEscape,
}

impl ApcState {
    /// The state after `b`.
    pub open spec fn next(self, b: u8) -> ApcState {
        match self {
            ApcState::Idle => if b == 0x1b {
                ApcState::Escape
            } else {
                ApcState::Idle
            },
            ApcState::Escape => if b == 0x5f {
                ApcState::Inside
            } else if b == 0x1b {
                ApcState::Escape
            } else {
                ApcState::Idle
            },
            ApcState::Inside => if b == 0x1b {
                ApcState::InsideEscape
            } else if b == 0x07 {
                ApcState::Idle
            } else {
                ApcState::Inside
            },
            ApcState::InsideEscape => if b == 0x5c {
                ApcState::Idle
            } else {
                ApcState::Inside
            },
        }
    }

    /// True when `b` ends the open command.
    pub open spec fn ends(self, b: u8) -> bool {
        ||| self == ApcState::Inside && b == 0x07
        ||| self == ApcState::InsideEscape && b == 0x5c
    }

    /// How many bytes there are up to the first that ends a command, that one
    /// included; all of them where none does.
    pub open spec fn piece(self, bytes: Seq<u8>) -> int
        decreases bytes.len(),
    {
        if bytes.len() == 0 {
            0
        } else if self.ends(bytes[0]) {
            1
        } else {
            1 + self.next(bytes[0]).piece(bytes.drop_first())
        }
    }
}

/// Where a scan stands.
#[verifier::ext_equal]
pub struct ApcView {
    pub state: ApcState,
    pub buf: Seq<u8>,
    pub cut: bool,
}

/// What a scan has put out: the bytes that belong to no command, and the
/// payloads that ended, each with whether it was cut.
#[verifier::ext_equal]
pub struct ApcOutput {
    pub pass: Seq<u8>,
    pub done: Seq<(Seq<u8>, bool)>,
}

impl ApcView {
    pub open spec fn start() -> ApcView {
        ApcView { state: ApcState::Idle, buf: Seq::empty(), cut: false }
    }

    /// The payload with `more` added, or marked as cut where it is full.
    pub open spec fn keep(self, more: Seq<u8>) -> ApcView {
        if self.buf.len() < GRAPHIC_PAYLOAD_MAX {
            ApcView { state: ApcState::Inside, buf: self.buf + more, ..self }
        } else {
            ApcView { state: ApcState::Inside, cut: true, ..self }
        }
    }

    /// Where the scan stands after `b`.
    pub open spec fn next(self, b: u8) -> ApcView {
        match self.state {
            ApcState::Idle => if b == 0x1b {
                ApcView { state: ApcState::Escape, ..self }
            } else {
                self
            },
            ApcState::Escape => if b == 0x5f {
                ApcView { state: ApcState::Inside, buf: Seq::empty(), cut: false }
            } else if b == 0x1b {
                self
            } else {
                ApcView { state: ApcState::Idle, ..self }
            },
            ApcState::Inside => if b == 0x1b {
                ApcView { state: ApcState::InsideEscape, ..self }
            } else if b == 0x07 {
                ApcView { state: ApcState::Idle, buf: Seq::empty(), ..self }
            } else {
                self.keep(seq![b])
            },
            ApcState::InsideEscape => if b == 0x5c {
                ApcView { state: ApcState::Idle, buf: Seq::empty(), ..self }
            } else {
                self.keep(seq![0x1b, b])
            },
        }
    }

    /// The bytes that `b` lets through: itself outside a command, with the
    /// `ESC` that was held back before it where no command opened.
    pub open spec fn passes(self, b: u8) -> Seq<u8> {
        match self.state {
            ApcState::Idle => if b == 0x1b {
                Seq::empty()
            } else {
                seq![b]
            },
            ApcState::Escape => if b == 0x5f {
                Seq::empty()
            } else if b == 0x1b {
                seq![0x1b]
            } else {
                seq![0x1b, b]
            },
            _ => Seq::empty(),
        }
    }

    /// True when `b` ends the open command.
    pub open spec fn ends(self, b: u8) -> bool {
        self.state.ends(b)
    }

    /// Where the scan stands after `bytes`.
    pub open spec fn after(self, bytes: Seq<u8>) -> ApcView
        decreases bytes.len(),
    {
        if bytes.len() == 0 {
            self
        } else {
            self.after(bytes.drop_last()).next(bytes.last())
        }
    }

    /// What the scan puts out for `bytes`.
    pub open spec fn output(self, bytes: Seq<u8>) -> ApcOutput
        decreases bytes.len(),
    {
        if bytes.len() == 0 {
            ApcOutput { pass: Seq::empty(), done: Seq::empty() }
        } else {
            let at = self.after(bytes.drop_last());
            let out = self.output(bytes.drop_last());
            let b = bytes.last();
            ApcOutput {
                pass: out.pass + at.passes(b),
                done: if at.ends(b) {
                    out.done.push((at.buf, at.cut))
                } else {
                    out.done
                },
            }
        }
    }

    /// The payload bound: an escaped byte may stand one past the cap.
    pub open spec fn bounded(self) -> bool {
        self.buf.len() <= GRAPHIC_PAYLOAD_MAX + 1
    }
}

/// The contents of a list of ended payloads.
pub open spec fn done_view(s: Seq<(Vec<u8>, bool)>) -> Seq<(Seq<u8>, bool)> {
    Seq::new(s.len(), |i: int| (s[i].0@, s[i].1))
}

/// A resumable scan for application program commands.
#[derive(Debug)]
pub struct ApcScanner {
    pub state: ApcState,
    pub buf: Vec<u8>,
    /// Set the moment `buf` reaches the cap.
    pub cut: bool,
}

impl View for ApcScanner {
    type V = ApcView;

    open spec fn view(&self) -> ApcView {
        ApcView { state: self.state, buf: self.buf@, cut: self.cut }
    }
}

impl Default for ApcScanner {
    fn default() -> (r: ApcScanner)
        ensures
            r@ == ApcView::start(),
    {
        ApcScanner { state: ApcState::Idle, buf: Vec::new(), cut: false }
    }
}

impl ApcScanner {
    fn keep_one(&mut self, b: u8)
        requires
            old(self)@.bounded(),
        ensures
            final(self)@ == old(self)@.keep(seq![b]),
    {
        self.state = ApcState::Inside;
        if self.buf.len() < GRAPHIC_PAYLOAD_MAX {
            self.buf.push(b);
            assert(self.buf@ =~= old(self).buf@ + seq![b]);
        } else {
            self.cut = true;
        }
    }

    fn keep_escaped(&mut self, b: u8)
        requires
            old(self)@.bounded(),
        ensures
            final(self)@ == old(self)@.keep(seq![0x1b, b]),
    {
        self.state = ApcState::Inside;
        if self.buf.len() < GRAPHIC_PAYLOAD_MAX {
            self.buf.push(0x1b);
            self.buf.push(b);
            assert(self.buf@ =~= old(self).buf@ + seq![0x1b, b]);
        } else {
            self.cut = true;
        }
    }

    /// Takes the payload out and returns to `Idle`.
    fn finish(&mut self) -> (r: (Vec<u8>, bool))
        ensures
            r.0@ == old(self)@.buf,
            r.1 == old(self)@.cut,
            final(self)@ == (ApcView { state: ApcState::Idle, buf: Seq::empty(), ..old(self)@ }),
    {
        let mut taken: Vec<u8> = Vec::new();
        std::mem::swap(&mut taken, &mut self.buf);
        self.state = ApcState::Idle;
        (taken, self.cut)
    }

    /// How many of the bytes from `from` on there are up to the first that ends
    /// a command, that one included; all of them where none does.
    pub fn piece(&self, bytes: &[u8], from: usize) -> (n: usize)
        requires
            from <= bytes@.len(),
        ensures
            n == self@.state.piece(bytes@.skip(from as int)),
            n <= bytes@.len() - from,
            from < bytes@.len() ==> n > 0,
    {
        let mut state = self.state;
        let mut i: usize = from;
        while i < bytes.len()
            invariant
                from <= i <= bytes@.len(),
                self@.state.piece(bytes@.skip(from as int)) == i - from + state.piece(
                    bytes@.skip(i as int),
                ),
            decreases bytes@.len() - i,
        {
            let b: u8 = bytes[i];
            let ghost rest = bytes@.skip(i as int);
            assert(rest[0] == b);
            assert(rest.drop_first() =~= bytes@.skip(i + 1));
            state = match state {
                ApcState::Idle => if b == 0x1b {
                    ApcState::Escape
                } else {
                    ApcState::Idle
                },
                ApcState::Escape => if b == 0x5f {
                    ApcState::Inside
                } else if b == 0x1b {
                    ApcState::Escape
                } else {
                    ApcState::Idle
                },
                ApcState::Inside => if b == 0x1b {
                    ApcState::InsideEscape
                } else if b == 0x07 {
                    return i + 1 - from;
                } else {
                    ApcState::Inside
                },
                ApcState::InsideEscape => if b == 0x5c {
                    return i + 1 - from;
                } else {
                    ApcState::Inside
                },
            };
            i = i + 1;
        }
        i - from
    }

    /// Feeds `bytes`, and returns the stream with the commands removed plus
    /// the payloads that ended, each with whether it was cut.
    ///
    /// A lone `ESC` at the end of `bytes` is held back until the next byte
    /// tells whether a command opens.
    pub fn split(&mut self, bytes: &[u8]) -> (r: (Vec<u8>, Vec<(Vec<u8>, bool)>))
        requires
            old(self)@.bounded(),
        ensures
            final(self)@ == old(self)@.after(bytes@),
            r.0@ == old(self)@.output(bytes@).pass,
            done_view(r.1@) == old(self)@.output(bytes@).done,
            final(self)@.bounded(),
    {
        let ghost start = self@;
        let mut pass: Vec<u8> = Vec::with_capacity(bytes.len());
        let mut done: Vec<(Vec<u8>, bool)> = Vec::new();
        let mut i: usize = 0;
        assert(done_view(done@) =~= Seq::<(Seq<u8>, bool)>::empty());
        while i < bytes.len()
            invariant
                i <= bytes@.len(),
                self@ == start.after(bytes@.take(i as int)),
                self@.bounded(),
                pass@ == start.output(bytes@.take(i as int)).pass,
                done_view(done@) == start.output(bytes@.take(i as int)).done,
            decreases bytes@.len() - i,
        {
            let b: u8 = bytes[i];
            let ghost before = self@;
            let ghost done_before = done@;
            let ghost pass_before = pass@;
            proof {
                assert(bytes@.take(i + 1).drop_last() =~= bytes@.take(i as int));
                assert(bytes@.take(i + 1).last() == b);
            }
            match self.state {
                ApcState::Idle => {
                    if b == 0x1b {
                        self.state = ApcState::Escape;
                    } else {
                        pass.push(b);
                    }
                },
                ApcState::Escape => {
                    if b == 0x5f {
                        self.state = ApcState::Inside;
                        self.buf.clear();
                        self.cut = false;
                    } else {
                        pass.push(0x1b);
                        if b != 0x1b {
                            pass.push(b);
                            self.state = ApcState::Idle;
                        }
                    }
                },
                ApcState::Inside => {
                    if b == 0x1b {
                        self.state = ApcState::InsideEscape;
                    } else if b == 0x07 {
                        let ended = self.finish();
                        done.push(ended);
                    } else {
                        self.keep_one(b);
                    }
                },
                ApcState::InsideEscape => {
                    if b == 0x5c {
                        let ended = self.finish();
                        done.push(ended);
                    } else {
                        self.keep_escaped(b);
                    }
                },
            }
            proof {
                assert(pass@ =~= pass_before + before.passes(b));
                if before.ends(b) {
                    assert(done_view(done@) =~= done_view(done_before).push((before.buf, before.cut)));
                } else {
                    assert(done@ == done_before);
                }
            }
            i = i + 1;
        }
        assert(bytes@.take(i as int) =~= bytes@);
        (pass, done)
    }
}

/// The payload bound holds wherever a scan stands.
pub proof fn lemma_scan_stays_bounded(v: ApcView, bytes: Seq<u8>)
    requires
        v.bounded(),
    ensures
        v.after(bytes).bounded(),
    decreases bytes.len(),
{
    if bytes.len() > 0 {
        lemma_scan_stays_bounded(v, bytes.drop_last());
    }
}

/// Outside a command, bytes that hold no `ESC` are one piece.
pub proof fn lemma_plain_bytes_are_one_piece(bytes: Seq<u8>)
    requires
        forall|i: int| 0 <= i < bytes.len() ==> bytes[i] != 0x1b,
    ensures
        ApcState::Idle.piece(bytes) == bytes.len(),
    decreases bytes.len(),
{
    if bytes.len() > 0 {
        lemma_plain_bytes_are_one_piece(bytes.drop_first());
    }
}

proof fn lemma_payload_is_open(payload: Seq<u8>, rest: Seq<u8>)
    requires
        forall|i: int| 0 <= i < payload.len() ==> payload[i] != 0x1b && payload[i] != 0x07,
    ensures
        ApcState::Inside.piece(payload + rest) == payload.len() + ApcState::Inside.piece(rest),
    decreases payload.len(),
{
    if payload.len() > 0 {
        lemma_payload_is_open(payload.drop_first(), rest);
        assert((payload + rest).drop_first() =~= payload.drop_first() + rest);
    } else {
        assert(payload + rest =~= rest);
    }
}

/// A whole command is one piece, whatever follows it.
pub proof fn lemma_a_whole_command_is_one_piece(payload: Seq<u8>, rest: Seq<u8>)
    requires
        forall|i: int| 0 <= i < payload.len() ==> payload[i] != 0x1b && payload[i] != 0x07,
    ensures
        ({
            let whole = seq![0x1bu8, 0x5f] + payload + seq![0x1bu8, 0x5c];
            ApcState::Idle.piece(whole + rest) == whole.len()
        }),
{
    reveal_with_fuel(ApcState::piece, 3);
    let whole = seq![0x1bu8, 0x5f] + payload + seq![0x1bu8, 0x5c];
    let close = seq![0x1bu8, 0x5c] + rest;
    let all = whole + rest;
    assert(all.drop_first().drop_first() =~= payload + close);
    assert(all.drop_first()[0] == 0x5f);
    lemma_payload_is_open(payload, close);
    assert(close.drop_first()[0] == 0x5c);
    assert(ApcState::Inside.piece(close) == 2);
}

proof fn lemma_output_step(v: ApcView, bytes: Seq<u8>, b: u8)
    ensures
        v.after(bytes.push(b)) == v.after(bytes).next(b),
        v.output(bytes.push(b)).pass == v.output(bytes).pass + v.after(bytes).passes(b),
        v.output(bytes.push(b)).done == (if v.after(bytes).ends(b) {
            v.output(bytes).done.push((v.after(bytes).buf, v.after(bytes).cut))
        } else {
            v.output(bytes).done
        }),
{
    assert(bytes.push(b).drop_last() =~= bytes);
}

/// Where a stream is cut into reads changes nothing: scanning `a` and then `b`
/// ends where scanning both at once ends, and puts out the same bytes and the
/// same payloads.
pub proof fn lemma_split_is_chunk_independent(v: ApcView, a: Seq<u8>, b: Seq<u8>)
    ensures
        v.after(a + b) == v.after(a).after(b),
        v.output(a + b).pass == v.output(a).pass + v.after(a).output(b).pass,
        v.output(a + b).done == v.output(a).done + v.after(a).output(b).done,
    decreases b.len(),
{
    if b.len() == 0 {
        assert(a + b =~= a);
        assert(v.output(a).pass + Seq::<u8>::empty() =~= v.output(a).pass);
        assert(v.output(a).done + Seq::<(Seq<u8>, bool)>::empty() =~= v.output(a).done);
    } else {
        let rest = b.drop_last();
        let x = b.last();
        lemma_split_is_chunk_independent(v, a, rest);
        assert(a + b =~= (a + rest).push(x));
        assert(b =~= rest.push(x));
        lemma_output_step(v, a + rest, x);
        lemma_output_step(v.after(a), rest, x);
        let w = v.after(a);
        assert(v.output(a + b).pass =~= v.output(a).pass + w.output(b).pass);
        assert(v.output(a + b).done =~= v.output(a).done + w.output(b).done);
    }
}

/// Outside a command, bytes that hold no `ESC` pass unchanged.
pub proof fn lemma_plain_bytes_pass(v: ApcView, bytes: Seq<u8>)
    requires
        v.state == ApcState::Idle,
        forall|i: int| 0 <= i < bytes.len() ==> bytes[i] != 0x1b,
    ensures
        v.after(bytes) == v,
        v.output(bytes).pass == bytes,
        v.output(bytes).done == Seq::<(Seq<u8>, bool)>::empty(),
    decreases bytes.len(),
{
    if bytes.len() > 0 {
        let rest = bytes.drop_last();
        lemma_plain_bytes_pass(v, rest);
        assert(bytes =~= rest.push(bytes.last()));
        lemma_output_step(v, rest, bytes.last());
        assert(rest + seq![bytes.last()] =~= bytes);
    } else {
        assert(bytes =~= Seq::<u8>::empty());
    }
}

proof fn lemma_payload_collects(v: ApcView, payload: Seq<u8>)
    requires
        v.state == ApcState::Inside,
        v.buf.len() + payload.len() <= GRAPHIC_PAYLOAD_MAX,
        forall|i: int| 0 <= i < payload.len() ==> payload[i] != 0x1b && payload[i] != 0x07,
    ensures
        v.after(payload) == (ApcView { buf: v.buf + payload, ..v }),
        v.output(payload).pass == Seq::<u8>::empty(),
        v.output(payload).done == Seq::<(Seq<u8>, bool)>::empty(),
    decreases payload.len(),
{
    if payload.len() > 0 {
        let rest = payload.drop_last();
        lemma_payload_collects(v, rest);
        assert(payload =~= rest.push(payload.last()));
        lemma_output_step(v, rest, payload.last());
        assert(v.buf + rest + seq![payload.last()] =~= v.buf + payload);
    } else {
        assert(v.buf + payload =~= v.buf);
    }
}

/// A whole command within the bound comes out as its payload, uncut, and lets
/// nothing through; wherever it is cut into reads.
pub proof fn lemma_whole_command_is_lifted(v: ApcView, payload: Seq<u8>)
    requires
        v.state == ApcState::Idle,
        payload.len() <= GRAPHIC_PAYLOAD_MAX,
        forall|i: int| 0 <= i < payload.len() ==> payload[i] != 0x1b && payload[i] != 0x07,
    ensures
        ({
            let whole = seq![0x1bu8, 0x5f] + payload + seq![0x1bu8, 0x5c];
            &&& v.output(whole).pass == Seq::<u8>::empty()
            &&& v.output(whole).done == seq![(payload, false)]
            &&& v.after(whole) == (ApcView { cut: false, ..ApcView::start() })
        }),
{
    let open = seq![0x1bu8, 0x5f];
    let close = seq![0x1bu8, 0x5c];
    let none = Seq::<u8>::empty();
    assert(open =~= none.push(0x1b).push(0x5f));
    lemma_output_step(v, none, 0x1b);
    lemma_output_step(v, none.push(0x1b), 0x5f);
    let inside = v.after(open);
    lemma_payload_collects(inside, payload);
    assert(inside.buf + payload =~= payload);
    lemma_split_is_chunk_independent(v, open, payload);
    let full = v.after(open + payload);
    assert(close =~= none.push(0x1b).push(0x5c));
    lemma_output_step(full, none, 0x1b);
    lemma_output_step(full, none.push(0x1b), 0x5c);
    lemma_split_is_chunk_independent(v, open + payload, close);
    let whole = open + payload + close;
    assert(v.output(whole).pass =~= none);
    assert(v.output(whole).done =~= seq![(payload, false)]);
}

} // verus!
