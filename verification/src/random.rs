//! Names and secrets made from the system's random number source.
use vstd::prelude::*;
use crate::text::{hex_bytes, hex_fixed, push_hex, push_hex_bytes, push_str, string_of};

verus! {

/// `getrandom::Error`, carried through unread.
#[verifier::external_type_specification]
#[verifier::external_body]
pub struct ExRandomError(getrandom::Error);

/// Calls `getrandom::fill`, which fills `dest` with random bytes from the
/// system's source or fails; the contract claims only that the length stays.
#[verifier::external_body]
fn fill_random(dest: &mut Vec<u8>) -> (r: Result<(), getrandom::Error>)
    ensures
        final(dest)@.len() == old(dest)@.len(),
{
    getrandom::fill(dest)
}

/// The `Display` text of a `getrandom::Error` (nothing is claimed of it).
#[verifier::external_body]
fn random_error_text(e: &getrandom::Error) -> String {
    format!("{e}")
}

/// Calls `u64::from_ne_bytes` on eight bytes. The result depends on the
/// machine's byte order, so nothing is claimed of it.
#[verifier::external_body]
fn native_u64(b: &Vec<u8>) -> u64
    requires
        b.len() == 8,
{
    u64::from_ne_bytes([b[0], b[1], b[2], b[3], b[4], b[5], b[6], b[7]])
}

/// `n` random bytes, or the error message `context: ERROR`.
fn random_bytes(n: usize, context: &str) -> (r: Result<Vec<u8>, String>)
    ensures
        r matches Ok(b) ==> b.len() == n,
        r matches Err(e) ==> exists|t: Seq<char>| e@ == context@ + ": "@ + t,
{
    let mut b: Vec<u8> = Vec::new();
    let mut i: usize = 0;
    while i < n
        invariant
            i <= n,
            b.len() == i,
        decreases n - i,
    {
        b.push(0);
        i = i + 1;
    }
    match fill_random(&mut b) {
        Ok(()) => Ok(b),
        Err(e) => {
            let mut m = string_of(context);
            push_str(&mut m, ": ");
            let t = random_error_text(&e);
            push_str(&mut m, t.as_str());
            assert(m@ == context@ + ": "@ + t@);
            Err(m)
        },
    }
}

/// `.PREFIX-XXXXXXXXXXXXXXXX.tmp`: a hidden staging file name with 16 lower-case
/// hex digits of `n`.
pub open spec fn staging_text(prefix: Seq<char>, n: u64) -> Seq<char> {
    "."@ + prefix + "-"@ + hex_fixed(n as nat, 16) + ".tmp"@
}

/// The name of a staging file for `prefix` and the number `n`.
pub fn staging_name(prefix: &str, n: u64) -> (r: String)
    ensures
        r@ == staging_text(prefix@, n),
{
    let mut s = string_of(".");
    push_str(&mut s, prefix);
    push_str(&mut s, "-");
    push_hex(&mut s, n, 16);
    push_str(&mut s, ".tmp");
    s
}

/// A fresh staging file name for `prefix`, from eight random bytes; `context`
/// starts the message when the random source fails.
pub fn random_staging_name(prefix: &str, context: &str) -> (r: Result<String, String>)
    ensures
        r matches Ok(s) ==> exists|n: u64| s@ == staging_text(prefix@, n),
        r matches Err(e) ==> exists|t: Seq<char>| e@ == context@ + ": "@ + t,
{
    let b = random_bytes(8, context)?;
    let n = native_u64(&b);
    Ok(staging_name(prefix, n))
}

/// A fresh control token: 32 random bytes as 64 lower-case hex digits.
pub fn new_token() -> (r: Result<String, String>)
    ensures
        r matches Ok(t) ==> exists|b: Seq<u8>| b.len() == 32 && t@ == hex_bytes(b),
        r matches Err(e) ==> exists|t: Seq<char>| e@ == "cannot generate control token: "@ + t,
{
    let b = match random_bytes(32, "cannot generate control token") {
        Ok(b) => b,
        Err(e) => {
            proof {
                reveal_strlit("cannot generate control token");
                reveal_strlit(": ");
                reveal_strlit("cannot generate control token: ");
                let t = choose|t: Seq<char>| e@ == "cannot generate control token"@ + ": "@ + t;
                assert("cannot generate control token"@ + ": "@ =~= "cannot generate control token: "@);
                assert(e@ == "cannot generate control token: "@ + t);
            }
            return Err(e);
        },
    };
    let mut t = String::new();
    push_hex_bytes(&mut t, &b);
    assert(t@ =~= hex_bytes(b@));
    Ok(t)
}

} // verus!

verus! {

/// A token has two hex digits per byte.
pub proof fn lemma_hex_bytes_len(b: Seq<u8>)
    ensures
        hex_bytes(b).len() == 2 * b.len(),
    decreases b.len(),
{
    if b.len() > 0 {
        lemma_hex_bytes_len(b.drop_last());
        crate::text::lemma_hex_fixed_len(b.last() as nat, 2);
    }
}

} // verus!
