//! Digests, and the byte and text forms of the numbers made from them.
use vstd::prelude::*;
use vstd::string::StringExecFns;

verus! {

/// The BLAKE3 digest of a byte string.
pub uninterp spec fn blake3_digest(bytes: Seq<u8>) -> [u8; 32];

/// Calls `blake3::hash`, whose result is a function of the bytes alone, and
/// takes its 32 bytes with `Hash::as_bytes`.
#[verifier::external_body]
pub(crate) fn digest(bytes: &Vec<u8>) -> (r: [u8; 32])
    ensures
        r == blake3_digest(bytes@),
{
    *blake3::hash(bytes).as_bytes()
}

/// The `k` lowest bytes of `n`, lowest first.
pub open spec fn le_bytes(n: nat, k: nat) -> Seq<u8>
    decreases k,
{
    if k == 0 {
        Seq::empty()
    } else {
        seq![(n % 256) as u8] + le_bytes(n / 256, (k - 1) as nat)
    }
}

/// The number whose bytes, lowest first, are `s`.
pub open spec fn le_value(s: Seq<u8>) -> nat
    decreases s.len(),
{
    if s.len() == 0 {
        0
    } else {
        s[0] as nat + 256 * le_value(s.drop_first())
    }
}

/// `256` to the power `k`.
pub open spec fn byte_range(k: nat) -> nat
    decreases k,
{
    if k == 0 {
        1
    } else {
        256 * byte_range((k - 1) as nat)
    }
}

proof fn lemma_u64_range()
    ensures
        byte_range(8) == u64::MAX + 1,
{
    reveal_with_fuel(byte_range, 9);
}

pub proof fn lemma_le_bytes_len(n: nat, k: nat)
    ensures
        le_bytes(n, k).len() == k,
    decreases k,
{
    if k > 0 {
        lemma_le_bytes_len(n / 256, (k - 1) as nat);
    }
}

/// A number that fits is read back from its bytes.
pub proof fn lemma_le_bytes_read_back(n: nat, k: nat)
    requires
        n < byte_range(k),
    ensures
        le_value(le_bytes(n, k)) == n,
    decreases k,
{
    if k > 0 {
        lemma_le_bytes_read_back(n / 256, (k - 1) as nat);
        let s = le_bytes(n, k);
        assert(s.drop_first() =~= le_bytes(n / 256, (k - 1) as nat));
        assert(s[0] == (n % 256) as u8);
    }
}

proof fn lemma_le_value_bound(s: Seq<u8>)
    ensures
        le_value(s) < byte_range(s.len()),
    decreases s.len(),
{
    if s.len() > 0 {
        lemma_le_value_bound(s.drop_first());
    }
}

/// Two numbers of eight bytes with the same bytes are the same.
pub proof fn lemma_le_bytes_injective(a: nat, b: nat)
    requires
        a <= u64::MAX,
        b <= u64::MAX,
        le_bytes(a, 8) == le_bytes(b, 8),
    ensures
        a == b,
{
    lemma_u64_range();
    lemma_le_bytes_read_back(a, 8);
    lemma_le_bytes_read_back(b, 8);
}

/// Appends the eight bytes of a number, lowest first.
pub fn push_le_u64(out: &mut Vec<u8>, n: u64)
    ensures
        final(out)@ == old(out)@ + le_bytes(n as nat, 8),
{
    let mut rest: u64 = n;
    let mut i: usize = 0;
    while i < 8
        invariant
            i <= 8,
            out@ + le_bytes(rest as nat, (8 - i) as nat) == old(out)@ + le_bytes(n as nat, 8),
        decreases 8 - i,
    {
        let ghost before = out@;
        let b = (rest % 256) as u8;
        out.push(b);
        proof {
            let tail = le_bytes(rest as nat / 256, (8 - i - 1) as nat);
            assert(before + le_bytes(rest as nat, (8 - i) as nat) =~= out@ + tail);
        }
        rest = rest / 256;
        i = i + 1;
    }
    assert(out@ =~= out@ + le_bytes(rest as nat, 0));
}

/// The number in the first eight bytes of a digest, lowest first.
pub open spec fn head_value(d: [u8; 32]) -> nat {
    le_value(d@.take(8))
}

pub fn head_u64(d: &[u8; 32]) -> (r: u64)
    ensures
        r as nat == head_value(*d),
{
    let ghost bytes = d@.take(8);
    let mut r: u64 = 0;
    let mut i: usize = 8;
    proof {
        lemma_u64_range();
        assert(bytes.skip(8) =~= Seq::<u8>::empty());
    }
    while i > 0
        invariant
            i <= 8,
            bytes == d@.take(8),
            d@.len() == 32,
            r as nat == le_value(bytes.skip(i as int)),
            byte_range(8) == u64::MAX + 1,
        decreases i,
    {
        i = i - 1;
        proof {
            let tail = bytes.skip(i as int);
            assert(tail.drop_first() =~= bytes.skip(i as int + 1));
            assert(tail[0] == d@[i as int]);
            lemma_le_value_bound(tail);
            lemma_byte_range_grows(tail.len(), 8);
        }
        r = r * 256 + d[i] as u64;
    }
    assert(bytes.skip(0) =~= bytes);
    r
}

proof fn lemma_byte_range_grows(a: nat, b: nat)
    requires
        a <= b,
    ensures
        byte_range(a) <= byte_range(b),
    decreases b,
{
    if a < b {
        lemma_byte_range_grows(a, (b - 1) as nat);
        assert(byte_range(b) == 256 * byte_range((b - 1) as nat));
    }
}

/// The lowercase hexadecimal digit of a value under sixteen.
pub open spec fn hex_char(d: int) -> char {
    if d < 10 {
        (48 + d) as char
    } else {
        (87 + d) as char
    }
}

fn hex_digit(d: u8) -> (c: char)
    requires
        d < 16,
    ensures
        c == hex_char(d as int),
{
    if d < 10 {
        (48 + d) as char
    } else {
        (87 + d) as char
    }
}

/// The `k` lowest hexadecimal digits of `n`, highest first.
pub open spec fn hex(n: nat, k: nat) -> Seq<char>
    decreases k,
{
    if k == 0 {
        Seq::empty()
    } else {
        hex(n / 16, (k - 1) as nat).push(hex_char((n % 16) as int))
    }
}

/// Two digits for each byte.
pub open spec fn hex_of_bytes(s: Seq<u8>) -> Seq<char>
    decreases s.len(),
{
    if s.len() == 0 {
        Seq::empty()
    } else {
        hex_of_bytes(s.drop_last()) + hex(s.last() as nat, 2)
    }
}

pub proof fn lemma_hex_len(n: nat, k: nat)
    ensures
        hex(n, k).len() == k,
    decreases k,
{
    if k > 0 {
        lemma_hex_len(n / 16, (k - 1) as nat);
    }
}

pub proof fn lemma_hex_of_bytes_len(s: Seq<u8>)
    ensures
        hex_of_bytes(s).len() == 2 * s.len(),
    decreases s.len(),
{
    if s.len() > 0 {
        lemma_hex_of_bytes_len(s.drop_last());
        lemma_hex_len(s.last() as nat, 2);
    }
}

fn hex_chars(n: u64, k: usize) -> (r: Vec<char>)
    ensures
        r@ == hex(n as nat, k as nat),
    decreases k,
{
    if k == 0 {
        let r: Vec<char> = Vec::new();
        assert(r@ =~= Seq::<char>::empty());
        return r;
    }
    let mut r = hex_chars(n / 16, k - 1);
    r.push(hex_digit((n % 16) as u8));
    r
}

/// The `k` lowest hexadecimal digits of a number.
pub fn hex_string(n: u64, k: usize) -> (r: String)
    ensures
        r@ == hex(n as nat, k as nat),
{
    crate::text::string_of(&hex_chars(n, k))
}

/// Two hexadecimal digits for each byte of a digest.
pub fn hex_of_digest(d: &[u8; 32]) -> (r: String)
    ensures
        r@ == hex_of_bytes(d@),
{
    let mut out: Vec<char> = Vec::new();
    let mut i: usize = 0;
    assert(d@.take(0) =~= Seq::<u8>::empty());
    assert(out@ =~= hex_of_bytes(d@.take(0)));
    while i < 32
        invariant
            i <= 32,
            d@.len() == 32,
            out@ == hex_of_bytes(d@.take(i as int)),
        decreases 32 - i,
    {
        let mut two = hex_chars(d[i] as u64, 2);
        proof {
            let longer = d@.take(i as int + 1);
            assert(longer.drop_last() =~= d@.take(i as int));
            assert(longer.last() == d@[i as int]);
        }
        out.append(&mut two);
        i = i + 1;
    }
    assert(d@.take(32) =~= d@);
    crate::text::string_of(&out)
}

/// The value of a hexadecimal digit of either case.
pub open spec fn hex_value(c: char) -> Option<int> {
    if '0' <= c && c <= '9' {
        Some(c as int - 48)
    } else if 'a' <= c && c <= 'f' {
        Some(c as int - 87)
    } else if 'A' <= c && c <= 'F' {
        Some(c as int - 55)
    } else {
        None
    }
}

fn hex_digit_value(c: char) -> (r: Option<u8>)
    ensures
        match r {
            Some(v) => hex_value(c) == Some(v as int) && v < 16,
            None => hex_value(c) is None,
        },
{
    let n = c as u32;
    if '0' <= c && c <= '9' {
        Some((n - 48) as u8)
    } else if 'a' <= c && c <= 'f' {
        Some((n - 87) as u8)
    } else if 'A' <= c && c <= 'F' {
        Some((n - 55) as u8)
    } else {
        None
    }
}

/// Why a text is not a hexadecimal number of 64 bits.
#[derive(Debug, Clone, Copy, PartialEq, Eq, Structural)]
pub enum HexError {
    Empty,
    InvalidDigit,
    Overflow,
}

impl HexError {
    /// What is wrong with the text.
    pub open spec fn reason(self) -> Seq<char> {
        match self {
            HexError::Empty => "cannot parse integer from empty string"@,
            HexError::InvalidDigit => "invalid digit found in string"@,
            HexError::Overflow => "number too large to fit in target type"@,
        }
    }

    /// What is wrong with the text.
    pub fn to_string(&self) -> (r: String)
        ensures
            r@ == self.reason(),
    {
        match self {
            HexError::Empty => String::from_str("cannot parse integer from empty string"),
            HexError::InvalidDigit => String::from_str("invalid digit found in string"),
            HexError::Overflow => String::from_str("number too large to fit in target type"),
        }
    }
}

/// Reads digits left to right on top of `acc`; the first character that is no
/// digit, or that carries the number out of range, decides.
pub open spec fn hex_scan(s: Seq<char>, acc: int) -> Result<int, HexError>
    decreases s.len(),
{
    if s.len() == 0 {
        Ok(acc)
    } else {
        match hex_value(s[0]) {
            None => Err(HexError::InvalidDigit),
            Some(d) => if acc * 16 + d > u64::MAX {
                Err(HexError::Overflow)
            } else {
                hex_scan(s.drop_first(), acc * 16 + d)
            },
        }
    }
}

/// The number a text stands for: hexadecimal digits, with one `+` before them at
/// most.
pub open spec fn hex_number(s: Seq<char>) -> Result<int, HexError> {
    if s.len() == 0 {
        Err(HexError::Empty)
    } else if s[0] == '+' {
        if s.len() == 1 {
            Err(HexError::InvalidDigit)
        } else {
            hex_scan(s.drop_first(), 0)
        }
    } else {
        hex_scan(s, 0)
    }
}

/// Reads a hexadecimal number of 64 bits.
pub fn parse_hex(s: &str) -> (r: Result<u64, HexError>)
    ensures
        match r {
            Ok(n) => hex_number(s@) == Ok::<int, HexError>(n as int),
            Err(e) => hex_number(s@) == Err::<int, HexError>(e),
        },
{
    let v = crate::text::chars_of(s);
    let n: usize = v.len();
    if n == 0 {
        return Err(HexError::Empty);
    }
    let start: usize = if v[0] == '+' {
        1
    } else {
        0
    };
    if start == n {
        return Err(HexError::InvalidDigit);
    }
    let ghost digits = v@.skip(start as int);
    proof {
        if start == 1 {
            assert(digits =~= v@.drop_first());
        } else {
            assert(digits =~= v@);
        }
    }
    let mut acc: u64 = 0;
    let mut i: usize = start;
    while i < n
        invariant
            start <= i <= n == v@.len(),
            digits == v@.skip(start as int),
            hex_number(s@) == hex_scan(digits, 0),
            hex_scan(digits, 0) == hex_scan(v@.skip(i as int), acc as int),
        decreases n - i,
    {
        proof {
            assert(v@.skip(i as int)[0] == v@[i as int]);
            assert(v@.skip(i as int).drop_first() =~= v@.skip(i as int + 1));
        }
        match hex_digit_value(v[i]) {
            None => {
                return Err(HexError::InvalidDigit);
            },
            Some(d) => {
                let wide: u128 = acc as u128 * 16 + d as u128;
                if wide > u64::MAX as u128 {
                    return Err(HexError::Overflow);
                }
                acc = wide as u64;
            },
        }
        i = i + 1;
    }
    assert(v@.skip(n as int) =~= Seq::<char>::empty());
    Ok(acc)
}

/// `16` to the power `k`.
pub open spec fn hex_range(k: nat) -> nat
    decreases k,
{
    if k == 0 {
        1
    } else {
        16 * hex_range((k - 1) as nat)
    }
}

proof fn lemma_hex_scan_push(s: Seq<char>, c: char, acc: int)
    ensures
        match hex_scan(s, acc) {
            Err(e) => hex_scan(s.push(c), acc) == Err::<int, HexError>(e),
            Ok(v) => hex_scan(s.push(c), acc) == (match hex_value(c) {
                None => Err::<int, HexError>(HexError::InvalidDigit),
                Some(d) => if v * 16 + d > u64::MAX {
                    Err::<int, HexError>(HexError::Overflow)
                } else {
                    Ok::<int, HexError>(v * 16 + d)
                },
            }),
        },
    decreases s.len(),
{
    let longer = s.push(c);
    if s.len() == 0 {
        assert(longer.drop_first() =~= Seq::<char>::empty());
        assert(longer[0] == c);
        reveal_with_fuel(hex_scan, 2);
    } else {
        assert(longer[0] == s[0]);
        assert(longer.drop_first() =~= s.drop_first().push(c));
        match hex_value(s[0]) {
            None => {},
            Some(d) => {
                lemma_hex_scan_push(s.drop_first(), c, acc * 16 + d);
            },
        }
    }
}

proof fn lemma_hex_scans(n: nat, k: nat)
    requires
        n <= u64::MAX,
        n < hex_range(k),
    ensures
        hex_scan(hex(n, k), 0) == Ok::<int, HexError>(n as int),
        forall|i: int| 0 <= i < k ==> #[trigger] hex(n, k)[i] != '+',
    decreases k,
{
    lemma_hex_len(n, k);
    if k > 0 {
        let high = n / 16;
        lemma_hex_scans(high, (k - 1) as nat);
        lemma_hex_len(high, (k - 1) as nat);
        let c = hex_char((n % 16) as int);
        assert(hex_value(c) == Some((n % 16) as int));
        lemma_hex_scan_push(hex(high, (k - 1) as nat), c, 0);
        assert(high * 16 + n % 16 == n);
        assert forall|i: int| 0 <= i < k implies #[trigger] hex(n, k)[i] != '+' by {
            if i < k - 1 {
                assert(hex(n, k)[i] == hex(high, (k - 1) as nat)[i]);
            }
        }
    }
}

/// The sixteen digits of a number of 64 bits are read back as that number.
pub proof fn lemma_hex_reads_back(n: nat)
    requires
        n <= u64::MAX,
    ensures
        hex(n, 16).len() == 16,
        hex_number(hex(n, 16)) == Ok::<int, HexError>(n as int),
{
    reveal_with_fuel(hex_range, 17);
    lemma_hex_len(n, 16);
    lemma_hex_scans(n, 16);
}

} // verus!
