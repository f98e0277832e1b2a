//! The unchanging identity of a session.
//!
//! A [`Guid`] is a BLAKE3 root over three leaves: the program, what the spawn
//! asked for, and where and under whom it happened. Leaves and inner nodes start
//! with different bytes, and every field is preceded by its length.
use crate::address;
use crate::address::Address;
use crate::digest;
use crate::digest::{hex_of_digest, push_le_u64};
use crate::text;
use vstd::prelude::*;
use vstd::string::StringExecFns;

verus! {

/// First byte of what is hashed for a leaf.
pub const LEAF_DOMAIN: u8 = 0;

/// First byte of what is hashed for an inner node.
pub const NODE_DOMAIN: u8 = 1;

/// A session's unchanging identity, all 256 bits of the root of its genesis.
#[derive(Debug, Clone, Copy, PartialEq, Eq, PartialOrd, Ord, Hash)]
pub struct Guid {
    root: [u8; 32],
}

impl Guid {
    /// The root.
    pub closed spec fn view(self) -> [u8; 32] {
        self.root
    }

    /// All 32 bytes of the root.
    pub fn as_bytes(&self) -> (r: &[u8; 32])
        ensures
            *r == self@,
    {
        &self.root
    }

    /// Sixty-four lowercase hexadecimal digits.
    pub fn to_hex(&self) -> (r: String)
        ensures
            r@ == digest::hex_of_bytes(self@@),
            r@.len() == 64,
    {
        proof {
            digest::lemma_hex_of_bytes_len(self@@);
        }
        hex_of_digest(&self.root)
    }

    /// The digits under the name of the type, for diagnostics.
    pub fn debug_text(&self) -> (r: String)
        ensures
            r@ == "Guid("@ + digest::hex_of_bytes(self@@) + ")"@,
    {
        let mut s = String::from_str("Guid(");
        s.append(self.to_hex().as_str());
        s.append(")");
        s
    }

    /// The first sixteen digits.
    pub fn short(&self) -> (r: String)
        ensures
            r@ == digest::hex_of_bytes(self@@).take(16),
            r@.len() == 16,
    {
        let all = text::chars_of(self.to_hex().as_str());
        proof {
            digest::lemma_hex_of_bytes_len(self@@);
        }
        let mut r = String::new();
        let mut i: usize = 0;
        while i < 16
            invariant
                i <= 16,
                all@.len() == 64,
                r@ == all@.take(i as int),
            decreases 16 - i,
        {
            r.push(all[i]);
            assert(all@.take(i as int + 1) =~= all@.take(i as int).push(all@[i as int]));
            i = i + 1;
        }
        r
    }

    /// The text form: the same as [`Guid::to_hex`].
    pub fn to_string(&self) -> (r: String)
        ensures
            r@ == digest::hex_of_bytes(self@@),
    {
        self.to_hex()
    }
}

/// Everything a session is committed to at birth.
#[derive(Debug, PartialEq, Eq)]
pub struct Genesis {
    pub program: String,
    pub requested_address: Address,
    pub args: Vec<String>,
    pub cwd: String,
    pub parent: Option<Guid>,
}

/// The contents of a [`Genesis`].
#[verifier::ext_equal]
pub struct GenesisView {
    pub program: Seq<char>,
    pub address: Seq<Seq<char>>,
    pub args: Seq<Seq<char>>,
    pub cwd: Seq<char>,
    pub parent: Option<[u8; 32]>,
}

/// The contents of a list of strings.
pub open spec fn texts(s: Seq<String>) -> Seq<Seq<char>> {
    Seq::new(s.len(), |i: int| s[i]@)
}

/// A field: its length as eight bytes, then its bytes.
pub open spec fn framed(bytes: Seq<u8>) -> Seq<u8> {
    digest::le_bytes(bytes.len(), 8) + bytes
}

/// A text field.
pub open spec fn framed_text(s: Seq<char>) -> Seq<u8> {
    framed(vstd::utf8::encode_utf8(s))
}

/// Several text fields, one after the other.
pub open spec fn framed_texts(s: Seq<Seq<char>>) -> Seq<u8>
    decreases s.len(),
{
    if s.len() == 0 {
        Seq::empty()
    } else {
        framed_texts(s.drop_last()) + framed_text(s.last())
    }
}

/// What is hashed for a leaf: the domain, the label, and the body.
pub open spec fn leaf_bytes(label: Seq<char>, body: Seq<u8>) -> Seq<u8> {
    seq![LEAF_DOMAIN] + framed_text(label) + body
}

/// What is hashed for an inner node.
pub open spec fn node_bytes(l: [u8; 32], r: [u8; 32]) -> Seq<u8> {
    seq![NODE_DOMAIN] + l@ + r@
}

pub open spec fn node(l: [u8; 32], r: [u8; 32]) -> [u8; 32] {
    digest::blake3_digest(node_bytes(l, r))
}

impl GenesisView {
    pub open spec fn program_bytes(self) -> Seq<u8> {
        leaf_bytes("tear.genesis.program.v1"@, framed_text(self.program))
    }

    pub open spec fn intent_bytes(self) -> Seq<u8> {
        leaf_bytes(
            "tear.genesis.intent.v1"@,
            framed_text(address::dotted(self.address)) + digest::le_bytes(self.args.len(), 8)
                + framed_texts(self.args),
        )
    }

    pub open spec fn context_bytes(self) -> Seq<u8> {
        leaf_bytes(
            "tear.genesis.context.v1"@,
            framed_text(self.cwd) + match self.parent {
                None => seq![0u8],
                Some(p) => seq![1u8] + p@,
            },
        )
    }

    /// The root of the three leaves.
    pub open spec fn root(self) -> [u8; 32] {
        node(
            node(
                digest::blake3_digest(self.program_bytes()),
                digest::blake3_digest(self.intent_bytes()),
            ),
            digest::blake3_digest(self.context_bytes()),
        )
    }

    /// Texts that fit in memory: every length fits in 64 bits.
    pub open spec fn fits(self) -> bool {
        &&& vstd::utf8::encode_utf8(self.program).len() <= u64::MAX
        &&& vstd::utf8::encode_utf8(address::dotted(self.address)).len() <= u64::MAX
        &&& vstd::utf8::encode_utf8(self.cwd).len() <= u64::MAX
        &&& self.args.len() <= u64::MAX
        &&& forall|i: int|
            0 <= i < self.args.len() ==> vstd::utf8::encode_utf8(#[trigger] self.args[i]).len()
                <= u64::MAX
    }
}

fn push_framed(out: &mut Vec<u8>, s: &str)
    ensures
        final(out)@ == old(out)@ + framed_text(s@),
{
    let mut bytes = vstd::slice::slice_to_vec(s.as_bytes());
    let n: usize = bytes.len();
    let ghost before = out@;
    let ghost body = bytes@;
    push_le_u64(out, n as u64);
    out.append(&mut bytes);
    assert(out@ =~= before + framed(body));
}

fn leaf_start(label: &str) -> (out: Vec<u8>)
    ensures
        out@ == leaf_bytes(label@, Seq::empty()),
{
    let mut out = vec![LEAF_DOMAIN];
    assert(out@ =~= seq![LEAF_DOMAIN]);
    push_framed(&mut out, label);
    assert(out@ =~= leaf_bytes(label@, Seq::empty()));
    out
}

/// The digest of a leaf whose body is one text field.
pub fn text_leaf(label: &str, field: &str) -> (d: [u8; 32])
    ensures
        d == digest::blake3_digest(leaf_bytes(label@, framed_text(field@))),
{
    let mut out = leaf_start(label);
    push_framed(&mut out, field);
    assert(out@ =~= leaf_bytes(label@, framed_text(field@)));
    digest::digest(&out)
}

/// The digest of an inner node over two digests.
pub fn hash_node(l: &[u8; 32], r: &[u8; 32]) -> (d: [u8; 32])
    ensures
        d == node(*l, *r),
{
    let mut out: Vec<u8> = vec![NODE_DOMAIN];
    let mut i: usize = 0;
    assert(out@ =~= seq![NODE_DOMAIN] + l@.take(0));
    while i < 32
        invariant
            i <= 32,
            l@.len() == 32,
            out@ == seq![NODE_DOMAIN] + l@.take(i as int),
        decreases 32 - i,
    {
        out.push(l[i]);
        i = i + 1;
        assert(out@ =~= seq![NODE_DOMAIN] + l@.take(i as int));
    }
    let mut j: usize = 0;
    assert(out@ =~= seq![NODE_DOMAIN] + l@ + r@.take(0));
    while j < 32
        invariant
            j <= 32,
            r@.len() == 32,
            out@ == seq![NODE_DOMAIN] + l@ + r@.take(j as int),
        decreases 32 - j,
    {
        out.push(r[j]);
        j = j + 1;
        assert(out@ =~= seq![NODE_DOMAIN] + l@ + r@.take(j as int));
    }
    assert(out@ =~= node_bytes(*l, *r));
    digest::digest(&out)
}

impl Genesis {
    pub open spec fn view(self) -> GenesisView {
        GenesisView {
            program: self.program@,
            address: self.requested_address@,
            args: texts(self.args@),
            cwd: self.cwd@,
            parent: match self.parent {
                None => None,
                Some(p) => Some(p@),
            },
        }
    }

    /// A genesis without arguments and without a parent.
    pub fn new(program: &str, requested_address: Address, cwd: &str) -> (g: Genesis)
        ensures
            g@ == (GenesisView {
                program: program@,
                address: requested_address@,
                args: Seq::empty(),
                cwd: cwd@,
                parent: None,
            }),
    {
        let g = Genesis {
            program: String::from_str(program),
            requested_address,
            args: Vec::new(),
            cwd: String::from_str(cwd),
            parent: None,
        };
        assert(texts(g.args@) =~= Seq::empty());
        g
    }

    /// The same genesis with these arguments.
    pub fn with_args(self, args: Vec<String>) -> (g: Genesis)
        ensures
            g@ == (GenesisView { args: texts(args@), ..self@ }),
    {
        Genesis {
            program: self.program,
            requested_address: self.requested_address,
            args,
            cwd: self.cwd,
            parent: self.parent,
        }
    }

    /// The same genesis under this parent.
    pub fn with_parent(self, parent: Guid) -> (g: Genesis)
        ensures
            g@ == (GenesisView { parent: Some(parent@), ..self@ }),
    {
        Genesis {
            program: self.program,
            requested_address: self.requested_address,
            args: self.args,
            cwd: self.cwd,
            parent: Some(parent),
        }
    }

    /// The identity of this genesis: the only way to a [`Guid`].
    pub fn guid(&self) -> (g: Guid)
        ensures
            g@ == self@.root(),
    {
        let (program, intent, context) = self.leaves();
        Guid { root: hash_node(&hash_node(&program, &intent), &context) }
    }

    /// The digests of the three leaves: program, intent, context.
    pub fn leaves(&self) -> (r: ([u8; 32], [u8; 32], [u8; 32]))
        ensures
            r.0 == digest::blake3_digest(self@.program_bytes()),
            r.1 == digest::blake3_digest(self@.intent_bytes()),
            r.2 == digest::blake3_digest(self@.context_bytes()),
    {
        (
            text_leaf("tear.genesis.program.v1", self.program.as_str()),
            self.intent_leaf(),
            self.context_leaf(),
        )
    }

    fn intent_leaf(&self) -> (d: [u8; 32])
        ensures
            d == digest::blake3_digest(self@.intent_bytes()),
    {
        let mut out = leaf_start("tear.genesis.intent.v1");
        push_framed(&mut out, self.requested_address.to_string().as_str());
        let n: usize = self.args.len();
        push_le_u64(&mut out, n as u64);
        let ghost head = out@;
        let ghost all = texts(self.args@);
        let mut i: usize = 0;
        assert(all.take(0) =~= Seq::<Seq<char>>::empty());
        assert(out@ =~= head + framed_texts(all.take(0)));
        while i < n
            invariant
                i <= n == self.args@.len(),
                all == texts(self.args@),
                out@ == head + framed_texts(all.take(i as int)),
            decreases n - i,
        {
            let ghost before = out@;
            push_framed(&mut out, self.args[i].as_str());
            proof {
                let longer = all.take(i as int + 1);
                assert(longer.drop_last() =~= all.take(i as int));
                assert(longer.last() == self.args@[i as int]@);
                assert(out@ =~= head + framed_texts(longer));
            }
            i = i + 1;
        }
        assert(all.take(n as int) =~= all);
        assert(out@ =~= self@.intent_bytes());
        digest::digest(&out)
    }

    fn context_leaf(&self) -> (d: [u8; 32])
        ensures
            d == digest::blake3_digest(self@.context_bytes()),
    {
        let mut out = leaf_start("tear.genesis.context.v1");
        push_framed(&mut out, self.cwd.as_str());
        match &self.parent {
            None => {
                out.push(0);
            },
            Some(parent) => {
                out.push(1);
                let ghost head = out@;
                let bytes = parent.as_bytes();
                let mut i: usize = 0;
                assert(out@ =~= head + bytes@.take(0));
                while i < 32
                    invariant
                        i <= 32,
                        bytes@.len() == 32,
                        out@ == head + bytes@.take(i as int),
                    decreases 32 - i,
                {
                    out.push(bytes[i]);
                    i = i + 1;
                    assert(out@ =~= head + bytes@.take(i as int));
                }
                assert(bytes@.take(32) =~= bytes@);
            },
        }
        assert(out@ =~= self@.context_bytes());
        digest::digest(&out)
    }
}

impl Clone for Genesis {
    fn clone(&self) -> (r: Genesis)
        ensures
            r@ == self@,
    {
        let mut args: Vec<String> = Vec::new();
        let mut i: usize = 0;
        while i < self.args.len()
            invariant
                i <= self.args@.len(),
                args@.len() == i,
                forall|j: int| 0 <= j < i ==> (#[trigger] args@[j])@ == self.args@[j]@,
            decreases self.args@.len() - i,
        {
            args.push(self.args[i].clone());
            i = i + 1;
        }
        assert(texts(args@) =~= texts(self.args@));
        Genesis {
            program: self.program.clone(),
            requested_address: self.requested_address.clone(),
            args,
            cwd: self.cwd.clone(),
            parent: self.parent,
        }
    }
}

/// What is hashed for a leaf is never what is hashed for an inner node.
pub proof fn lemma_domains_are_apart(label: Seq<char>, body: Seq<u8>, l: [u8; 32], r: [u8; 32])
    ensures
        leaf_bytes(label, body) != node_bytes(l, r),
{
    assert(leaf_bytes(label, body)[0] == LEAF_DOMAIN);
    assert(node_bytes(l, r)[0] == NODE_DOMAIN);
}

/// A framed field is told apart from what follows it.
pub proof fn lemma_framed_prefix(a: Seq<u8>, rest_a: Seq<u8>, b: Seq<u8>, rest_b: Seq<u8>)
    requires
        a.len() <= u64::MAX,
        b.len() <= u64::MAX,
        framed(a) + rest_a == framed(b) + rest_b,
    ensures
        a == b,
        rest_a == rest_b,
{
    let x = framed(a) + rest_a;
    let y = framed(b) + rest_b;
    digest::lemma_le_bytes_len(a.len(), 8);
    digest::lemma_le_bytes_len(b.len(), 8);
    assert(x.take(8) =~= digest::le_bytes(a.len(), 8));
    assert(y.take(8) =~= digest::le_bytes(b.len(), 8));
    digest::lemma_le_bytes_injective(a.len(), b.len());
    assert(a =~= x.subrange(8, 8 + a.len() as int));
    assert(b =~= y.subrange(8, 8 + b.len() as int));
    assert(rest_a =~= x.skip(8 + a.len() as int));
    assert(rest_b =~= y.skip(8 + b.len() as int));
}

proof fn lemma_framed_text_prefix(a: Seq<char>, rest_a: Seq<u8>, b: Seq<char>, rest_b: Seq<u8>)
    requires
        vstd::utf8::encode_utf8(a).len() <= u64::MAX,
        vstd::utf8::encode_utf8(b).len() <= u64::MAX,
        framed_text(a) + rest_a == framed_text(b) + rest_b,
    ensures
        a == b,
        rest_a == rest_b,
{
    lemma_framed_prefix(
        vstd::utf8::encode_utf8(a),
        rest_a,
        vstd::utf8::encode_utf8(b),
        rest_b,
    );
    vstd::utf8::encode_utf8_decode_utf8(a);
    vstd::utf8::encode_utf8_decode_utf8(b);
}

proof fn lemma_framed_texts_first(s: Seq<Seq<char>>)
    requires
        s.len() > 0,
    ensures
        framed_texts(s) == framed_text(s[0]) + framed_texts(s.drop_first()),
    decreases s.len(),
{
    if s.len() == 1 {
        assert(s.drop_last() =~= Seq::<Seq<char>>::empty());
        assert(s.drop_first() =~= Seq::<Seq<char>>::empty());
        assert(framed_texts(s) =~= framed_text(s[0]) + framed_texts(s.drop_first()));
    } else {
        lemma_framed_texts_first(s.drop_last());
        assert(s.drop_last().drop_first() =~= s.drop_first().drop_last());
        assert(s.drop_first().last() == s.last());
        assert(framed_texts(s) =~= framed_text(s[0]) + framed_texts(s.drop_first()));
    }
}

/// Lists of as many fields with the same framed bytes are the same: `a`, `b` and
/// `ab` are told apart.
pub proof fn lemma_framed_texts_injective(a: Seq<Seq<char>>, b: Seq<Seq<char>>)
    requires
        a.len() == b.len(),
        forall|i: int|
            0 <= i < a.len() ==> vstd::utf8::encode_utf8(#[trigger] a[i]).len() <= u64::MAX,
        forall|i: int|
            0 <= i < b.len() ==> vstd::utf8::encode_utf8(#[trigger] b[i]).len() <= u64::MAX,
        framed_texts(a) == framed_texts(b),
    ensures
        a == b,
    decreases a.len(),
{
    if a.len() == 0 {
        assert(a =~= b);
    } else {
        lemma_framed_texts_first(a);
        lemma_framed_texts_first(b);
        lemma_framed_text_prefix(
            a[0],
            framed_texts(a.drop_first()),
            b[0],
            framed_texts(b.drop_first()),
        );
        let ra = a.drop_first();
        let rb = b.drop_first();
        assert forall|i: int| 0 <= i < ra.len() implies vstd::utf8::encode_utf8(
            #[trigger] ra[i],
        ).len() <= u64::MAX by {
            assert(ra[i] == a[i + 1]);
        }
        assert forall|i: int| 0 <= i < rb.len() implies vstd::utf8::encode_utf8(
            #[trigger] rb[i],
        ).len() <= u64::MAX by {
            assert(rb[i] == b[i + 1]);
        }
        lemma_framed_texts_injective(ra, rb);
        assert(a =~= seq![a[0]] + ra);
        assert(b =~= seq![b[0]] + rb);
    }
}

proof fn lemma_leaf_body(label: Seq<char>, a: Seq<u8>, b: Seq<u8>)
    requires
        leaf_bytes(label, a) == leaf_bytes(label, b),
    ensures
        a == b,
{
    let n = (seq![LEAF_DOMAIN] + framed_text(label)).len() as int;
    assert(a =~= leaf_bytes(label, a).skip(n));
    assert(b =~= leaf_bytes(label, b).skip(n));
}

/// The three leaves of a genesis determine it.
pub proof fn lemma_leaves_determine_genesis(a: GenesisView, b: GenesisView)
    requires
        a.fits(),
        b.fits(),
        address::is_address(a.address),
        address::is_address(b.address),
        a.program_bytes() == b.program_bytes(),
        a.intent_bytes() == b.intent_bytes(),
        a.context_bytes() == b.context_bytes(),
    ensures
        a == b,
{
    lemma_leaf_body(
        "tear.genesis.program.v1"@,
        framed_text(a.program),
        framed_text(b.program),
    );
    assert(framed_text(a.program) + Seq::<u8>::empty() =~= framed_text(a.program));
    assert(framed_text(b.program) + Seq::<u8>::empty() =~= framed_text(b.program));
    lemma_framed_text_prefix(a.program, Seq::empty(), b.program, Seq::empty());

    let da = address::dotted(a.address);
    let db = address::dotted(b.address);
    let ia = digest::le_bytes(a.args.len(), 8) + framed_texts(a.args);
    let ib = digest::le_bytes(b.args.len(), 8) + framed_texts(b.args);
    assert(framed_text(da) + digest::le_bytes(a.args.len(), 8) + framed_texts(a.args)
        =~= framed_text(da) + ia);
    assert(framed_text(db) + digest::le_bytes(b.args.len(), 8) + framed_texts(b.args)
        =~= framed_text(db) + ib);
    lemma_leaf_body("tear.genesis.intent.v1"@, framed_text(da) + ia, framed_text(db) + ib);
    lemma_framed_text_prefix(da, ia, db, ib);
    address::lemma_address_round_trips(a.address, da);
    address::lemma_address_round_trips(b.address, db);
    digest::lemma_le_bytes_len(a.args.len(), 8);
    digest::lemma_le_bytes_len(b.args.len(), 8);
    assert(ia.take(8) =~= digest::le_bytes(a.args.len(), 8));
    assert(ib.take(8) =~= digest::le_bytes(b.args.len(), 8));
    digest::lemma_le_bytes_injective(a.args.len(), b.args.len());
    assert(framed_texts(a.args) =~= ia.skip(8));
    assert(framed_texts(b.args) =~= ib.skip(8));
    lemma_framed_texts_injective(a.args, b.args);

    let ca = match a.parent {
        None => seq![0u8],
        Some(p) => seq![1u8] + p@,
    };
    let cb = match b.parent {
        None => seq![0u8],
        Some(p) => seq![1u8] + p@,
    };
    lemma_leaf_body("tear.genesis.context.v1"@, framed_text(a.cwd) + ca, framed_text(b.cwd) + cb);
    lemma_framed_text_prefix(a.cwd, ca, b.cwd, cb);
    assert(ca[0] == cb[0]);
    match (a.parent, b.parent) {
        (Some(p), Some(q)) => {
            assert(p@ =~= ca.skip(1));
            assert(q@ =~= cb.skip(1));
            assert(p =~= q);
        },
        _ => {},
    }
}

/// Two byte strings that differ and have the same digest.
pub open spec fn collides(x: Seq<u8>, y: Seq<u8>) -> bool {
    x != y && digest::blake3_digest(x) == digest::blake3_digest(y)
}

proof fn lemma_node_parts(l: [u8; 32], r: [u8; 32], l2: [u8; 32], r2: [u8; 32])
    requires
        node_bytes(l, r) == node_bytes(l2, r2),
    ensures
        l == l2,
        r == r2,
{
    assert(l@ =~= node_bytes(l, r).subrange(1, 33));
    assert(l2@ =~= node_bytes(l2, r2).subrange(1, 33));
    assert(r@ =~= node_bytes(l, r).subrange(33, 65));
    assert(r2@ =~= node_bytes(l2, r2).subrange(33, 65));
    assert(l =~= l2);
    assert(r =~= r2);
}

/// Two different geneses with the same root give two different byte strings with
/// the same BLAKE3 digest.
pub proof fn lemma_equal_roots_mean_equal_geneses(a: GenesisView, b: GenesisView)
    requires
        a.fits(),
        b.fits(),
        address::is_address(a.address),
        address::is_address(b.address),
        a.root() == b.root(),
        a != b,
    ensures
        exists|x: Seq<u8>, y: Seq<u8>| collides(x, y),
{
    let (pa, pb) = (
        digest::blake3_digest(a.program_bytes()),
        digest::blake3_digest(b.program_bytes()),
    );
    let (ia, ib) = (
        digest::blake3_digest(a.intent_bytes()),
        digest::blake3_digest(b.intent_bytes()),
    );
    let (ca, cb) = (
        digest::blake3_digest(a.context_bytes()),
        digest::blake3_digest(b.context_bytes()),
    );
    let x = node_bytes(node(pa, ia), ca);
    let y = node_bytes(node(pb, ib), cb);
    if x != y {
        assert(collides(x, y));
    } else {
        lemma_node_parts(node(pa, ia), ca, node(pb, ib), cb);
        let u = node_bytes(pa, ia);
        let v = node_bytes(pb, ib);
        if u != v {
            assert(collides(u, v));
        } else {
            lemma_node_parts(pa, ia, pb, ib);
            if a.program_bytes() != b.program_bytes() {
                assert(collides(a.program_bytes(), b.program_bytes()));
            } else if a.intent_bytes() != b.intent_bytes() {
                assert(collides(a.intent_bytes(), b.intent_bytes()));
            } else if a.context_bytes() != b.context_bytes() {
                assert(collides(a.context_bytes(), b.context_bytes()));
            } else {
                lemma_leaves_determine_genesis(a, b);
            }
        }
    }
}

} // verus!
