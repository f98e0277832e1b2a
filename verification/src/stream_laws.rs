//! What is lifted out of a stream of bytes and what is let through, byte by byte.
use crate::apc::{ApcState, ApcView};
use crate::digest;
use crate::genesis::GenesisView;
use crate::graphics::GRAPHIC_PAYLOAD_MAX;
use vstd::prelude::*;

verus! {

proof fn lemma_two_bytes(v: ApcView, a: u8, b: u8)
    ensures
        v.after(seq![a]) == v.next(a),
        v.after(seq![a, b]) == v.next(a).next(b),
        v.output(seq![a]).pass == v.passes(a),
        v.output(seq![a, b]).pass == v.passes(a) + v.next(a).passes(b),
        v.output(seq![a]).done == if v.ends(a) {
            seq![(v.buf, v.cut)]
        } else {
            Seq::empty()
        },
        !v.ends(a) ==> v.output(seq![a, b]).done == if v.next(a).ends(b) {
            seq![(v.next(a).buf, v.next(a).cut)]
        } else {
            Seq::empty()
        },
{
    reveal_with_fuel(ApcView::after, 3);
    reveal_with_fuel(ApcView::output, 3);
    assert(seq![a, b].drop_last() =~= seq![a]);
    assert(seq![a].drop_last() =~= Seq::empty());
    assert(v.output(seq![a]).pass =~= v.passes(a));
    assert(v.output(seq![a]).done =~= if v.ends(a) {
        seq![(v.buf, v.cut)]
    } else {
        Seq::empty()
    });
    assert(v.output(seq![a, b]).pass =~= v.passes(a) + v.next(a).passes(b));
    if !v.ends(a) {
        assert(v.output(seq![a, b]).done =~= if v.next(a).ends(b) {
            seq![(v.next(a).buf, v.next(a).cut)]
        } else {
            Seq::empty()
        });
    }
}

/// Outside a command every byte is let through as it is, an escape with what follows
/// it, except where the two open a command.
pub proof fn lemma_what_is_no_command_is_let_through(v: ApcView, b: u8)
    requires
        v.state == ApcState::Idle,
    ensures
        b != 0x1b ==> v.output(seq![b]).pass == seq![b] && v.after(seq![b]) == v,
        b != 0x1b && b != 0x5f ==> v.output(seq![0x1bu8, b]).pass == seq![0x1bu8, b] && v.after(
            seq![0x1bu8, b],
        ) == v,
        v.output(seq![0x1bu8, 0x5f]).pass.len() == 0,
        v.output(seq![0x1bu8, 0x1b]).pass == seq![0x1bu8],
        v.output(seq![b]).done.len() == 0,
        v.output(seq![0x1bu8, b]).done.len() == 0,
{
    lemma_two_bytes(v, b, b);
    lemma_two_bytes(v, 0x1b, b);
    lemma_two_bytes(v, 0x1b, 0x5f);
    lemma_two_bytes(v, 0x1b, 0x1b);
    assert(seq![0x1bu8] =~= Seq::<u8>::empty() + seq![0x1bu8]);
    if b != 0x1b && b != 0x5f {
        assert(v.output(seq![0x1bu8, b]).pass =~= seq![0x1bu8, b]);
    }
    assert(v.output(seq![0x1bu8, 0x1b]).pass =~= seq![0x1bu8]);
}

/// Inside a command nothing is let through. A byte is kept behind the others, and so
/// is an escape with what follows it; a bell, or an escape and a backslash, ends the
/// command and gives out what was kept. Past the bound nothing is kept, and the
/// command is known to be cut.
pub proof fn lemma_what_a_command_holds_is_kept(v: ApcView, b: u8)
    requires
        v.state == ApcState::Inside,
    ensures
        v.output(seq![b]).pass.len() == 0,
        v.output(seq![0x1bu8, b]).pass.len() == 0,
        v.buf.len() < GRAPHIC_PAYLOAD_MAX && b != 0x1b && b != 0x07 ==> v.after(seq![b]) == (
        ApcView { buf: v.buf.push(b), ..v }) && v.output(seq![b]).done.len() == 0,
        v.buf.len() < GRAPHIC_PAYLOAD_MAX && b != 0x5c ==> v.after(seq![0x1bu8, b]) == (ApcView {
            buf: v.buf.push(0x1b).push(b),
            ..v
        }) && v.output(seq![0x1bu8, b]).done.len() == 0,
        v.buf.len() >= GRAPHIC_PAYLOAD_MAX && b != 0x1b && b != 0x07 ==> v.after(seq![b]) == (
        ApcView { cut: true, ..v }),
        v.output(seq![0x07u8]).done == seq![(v.buf, v.cut)],
        v.output(seq![0x1bu8, 0x5c]).done == seq![(v.buf, v.cut)],
        v.after(seq![0x07u8]).state == ApcState::Idle,
        v.after(seq![0x1bu8, 0x5c]).state == ApcState::Idle,
        v.after(seq![0x07u8]).buf.len() == 0,
        v.after(seq![0x1bu8, 0x5c]).buf.len() == 0,
{
    lemma_two_bytes(v, b, b);
    lemma_two_bytes(v, 0x1b, b);
    lemma_two_bytes(v, 0x07, b);
    lemma_two_bytes(v, 0x1b, 0x5c);
    assert(v.buf + seq![b] =~= v.buf.push(b));
    assert(v.buf + seq![0x1bu8, b] =~= v.buf.push(0x1b).push(b));
}

/// The root of a genesis binds the program with what it is to do, and both with where
/// it is done: the digest of a one, the digest of a one and the first two leaves, and
/// the third leaf.
pub proof fn lemma_the_root_of_a_genesis(g: GenesisView)
    ensures
        ({
            let program = digest::blake3_digest(g.program_bytes());
            let intent = digest::blake3_digest(g.intent_bytes());
            let context = digest::blake3_digest(g.context_bytes());
            let inner = digest::blake3_digest(seq![1u8] + program@ + intent@);
            g.root() == digest::blake3_digest(seq![1u8] + inner@ + context@)
        }),
        g.program_bytes()[0] == 0 && g.intent_bytes()[0] == 0 && g.context_bytes()[0] == 0,
{
}

} // verus!
