//! Who may use the daemon: shared tokens, and where it may listen.
use crate::control::joined;
use crate::yurai;
use vstd::prelude::*;
use vstd::string::StringExecFns;

verus! {

proof fn lemma_xor_zero(x: u8, y: u8)
    ensures
        (x ^ y == 0) <==> x == y,
{
    assert((x ^ y == 0) <==> x == y) by (bit_vector);
}

proof fn lemma_or_zero(x: u8, y: u8)
    ensures
        (x | y == 0) <==> (x == 0 && y == 0),
{
    assert((x | y == 0) <==> (x == 0 && y == 0)) by (bit_vector);
}

/// Whether two byte strings are the same. Every byte of two strings of one
/// length is looked at, whatever came before it.
pub fn ct_eq(a: &[u8], b: &[u8]) -> (r: bool)
    ensures
        r == (a@ == b@),
{
    if a.len() != b.len() {
        return false;
    }
    let mut diff: u8 = 0;
    let mut i: usize = 0;
    while i < a.len()
        invariant
            i <= a@.len() == b@.len(),
            (diff == 0) <==> forall|j: int| 0 <= j < i ==> a@[j] == b@[j],
        decreases a@.len() - i,
    {
        let x = a[i] ^ b[i];
        proof {
            lemma_xor_zero(a@[i as int], b@[i as int]);
            lemma_or_zero(diff, x);
        }
        diff = diff | x;
        i = i + 1;
    }
    proof {
        if diff == 0 {
            assert(a@ =~= b@);
        }
    }
    diff == 0
}

/// What a token setting comes to: no setting asks for none; the variable it
/// names must be there and not empty.
pub open spec fn required(
    name: Option<Seq<char>>,
    value: Option<Seq<char>>,
) -> Result<Option<Seq<char>>, Seq<char>> {
    match name {
        None => Ok(None),
        Some(n) => match value {
            Some(v) => if v.len() > 0 {
                Ok(Some(v))
            } else {
                Err("auth_token_env="@ + n + " is set but the env var is empty"@)
            },
            None => Err(
                "auth_token_env="@ + n
                    + " is set but the env var is not present; export it before starting `tear daemon`"@,
            ),
        },
    }
}

/// The contents of what [`resolve_required_token`] returns.
pub open spec fn token_view(r: Result<Option<String>, String>) -> Result<
    Option<Seq<char>>,
    Seq<char>,
> {
    match r {
        Ok(t) => Ok(yurai::opt_text(t)),
        Err(e) => Err(e@),
    }
}

/// The token that clients must give, from the name of the variable that holds it
/// and the value of that variable; the text of the refusal to start if it
/// cannot be had.
pub fn resolve_required_token(name: &Option<String>, value: &Option<String>) -> (r: Result<
    Option<String>,
    String,
>)
    ensures
        token_view(r) == required(yurai::opt_text(*name), yurai::opt_text(*value)),
{
    match name {
        None => Ok(None),
        Some(n) => {
            let head = joined("auth_token_env=", n.as_str());
            match value {
                Some(v) => {
                    if !is_blank(v) {
                        Ok(Some(v.clone()))
                    } else {
                        Err(joined(head.as_str(), " is set but the env var is empty"))
                    }
                },
                None => Err(
                    joined(
                        head.as_str(),
                        " is set but the env var is not present; export it before starting `tear daemon`",
                    ),
                ),
            }
        },
    }
}

fn is_blank(s: &String) -> (b: bool)
    ensures
        b == (s@.len() == 0),
{
    crate::text::chars_of(s.as_str()).len() == 0
}

/// Why the daemon does not listen at an address.
pub open spec fn bind_refusal(addr: Seq<char>) -> Seq<char> {
    "refusing to bind "@ + addr
        + ": a non-loopback tear-daemon needs `auth_token_env` set, or every peer that can reach the port can spawn processes on this host. Bind a loopback address and tunnel it (ssh -L), or configure a token."@
}

/// Whether the daemon may listen at an address of the network: always at one of
/// this host, elsewhere only with a token.
pub fn check_tcp_bind(addr: &str, loopback: bool, token_configured: bool) -> (r: Result<(), String>)
    ensures
        match r {
            Ok(()) => loopback || token_configured,
            Err(e) => !loopback && !token_configured && e@ == bind_refusal(addr@),
        },
{
    if loopback || token_configured {
        return Ok(());
    }
    let mut s = joined("refusing to bind ", addr);
    s.append(
        ": a non-loopback tear-daemon needs `auth_token_env` set, or every peer that can reach the port can spawn processes on this host. Bind a loopback address and tunnel it (ssh -L), or configure a token.",
    );
    Err(s)
}

} // verus!
