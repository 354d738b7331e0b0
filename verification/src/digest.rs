//! Digests and their hexadecimal form.

use vstd::prelude::*;

verus! {

/// The SHA-256 digest of the bytes.
pub uninterp spec fn sha256_of(b: Seq<u8>) -> Seq<u8>;

/// `sha2::Sha256::digest`: thirty-two bytes, a function of the bytes digested.
#[verifier::external_body]
pub(crate) fn sha256(b: &[u8]) -> (r: Vec<u8>)
    ensures
        r@ == sha256_of(b@),
        r@.len() == 32,
{
    <sha2::Sha256 as sha2::Digest>::digest(b).to_vec()
}

/// The hexadecimal digit for a number below sixteen.
pub open spec fn hex_digit(n: u8) -> char {
    if n < 10 {
        (48 + n) as char
    } else {
        (87 + n) as char
    }
}

/// The first `n` bytes in hexadecimal.
pub open spec fn hex_upto(b: Seq<u8>, n: int) -> Seq<char>
    decreases n,
{
    if n <= 0 {
        Seq::empty()
    } else {
        hex_upto(b, n - 1).push(hex_digit(b[n - 1] / 16)).push(hex_digit(b[n - 1] % 16))
    }
}

/// The bytes in lower-case hexadecimal, two digits each.
pub open spec fn hex(b: Seq<u8>) -> Seq<char> {
    hex_upto(b, b.len() as int)
}

pub proof fn lemma_hex_len(b: Seq<u8>, n: int)
    requires
        0 <= n,
    ensures
        hex_upto(b, n).len() == 2 * n,
    decreases n,
{
    if n > 0 {
        lemma_hex_len(b, n - 1);
    }
}

fn to_hex_digit(n: u8) -> (r: char)
    requires
        n < 16,
    ensures
        r == hex_digit(n),
{
    if n < 10 {
        (48 + n) as char
    } else {
        (87 + n) as char
    }
}

pub fn to_hex(b: &Vec<u8>) -> (r: String)
    ensures
        r@ == hex(b@),
{
    let mut out = String::new();
    let mut i: usize = 0;
    while i < b.len()
        invariant
            i <= b@.len(),
            out@ == hex_upto(b@, i as int),
        decreases b@.len() - i,
    {
        out.push(to_hex_digit(b[i] / 16));
        out.push(to_hex_digit(b[i] % 16));
        i = i + 1;
    }
    out
}

/// The digest of the bytes, in hexadecimal.
pub open spec fn sha256_text(b: Seq<u8>) -> Seq<char> {
    hex(sha256_of(b))
}

pub fn sha256_hex(b: &[u8]) -> (r: String)
    ensures
        r@ == sha256_text(b@),
        r@.len() == 64,
{
    let d = sha256(b);
    proof {
        lemma_hex_len(d@, 32);
    }
    to_hex(&d)
}

} // verus!
