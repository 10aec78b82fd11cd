//! Lower-case hexadecimal rendering of digests.

use vstd::prelude::*;
use crate::text::string_from_chars;

verus! {

/// The lower-case hexadecimal digit for a value below 16.
pub open spec fn hex_digit(d: int) -> char {
    if d < 10 {
        (48 + d) as char
    } else {
        (87 + d) as char
    }
}

/// Two lower-case hexadecimal digits per byte, most significant first.
pub open spec fn hex_of(bytes: Seq<u8>) -> Seq<char>
    decreases bytes.len(),
{
    if bytes.len() == 0 {
        Seq::empty()
    } else {
        let b = bytes.last();
        hex_of(bytes.drop_last()) + seq![hex_digit((b / 16) as int), hex_digit((b % 16) as int)]
    }
}

fn hex_digit_exec(d: u8) -> (c: char)
    requires
        d < 16,
    ensures
        c == hex_digit(d as int),
{
    if d < 10 {
        (48u8 + d) as char
    } else {
        (87u8 + d) as char
    }
}

pub fn hex_chars(bytes: &[u8]) -> (out: Vec<char>)
    ensures
        out@ == hex_of(bytes@),
{
    let mut out: Vec<char> = Vec::new();
    let mut i: usize = 0;
    while i < bytes.len()
        invariant
            i <= bytes@.len(),
            out@ == hex_of(bytes@.take(i as int)),
        decreases bytes@.len() - i,
    {
        let b = bytes[i];
        out.push(hex_digit_exec(b / 16));
        out.push(hex_digit_exec(b % 16));
        assert(bytes@.take(i + 1).drop_last() =~= bytes@.take(i as int));
        i = i + 1;
    }
    assert(bytes@.take(bytes@.len() as int) =~= bytes@);
    out
}

/// The full lower-case hexadecimal rendering of a 32-byte digest.
pub fn hex_encode(bytes: &[u8; 32]) -> (s: String)
    ensures
        s@ == hex_of(bytes@),
        s@.len() == 64,
{
    let v = hex_chars(bytes.as_slice());
    proof { lemma_hex_len(bytes@); }
    string_from_chars(v.as_slice())
}

pub proof fn lemma_hex_len(bytes: Seq<u8>)
    ensures
        hex_of(bytes).len() == 2 * bytes.len(),
    decreases bytes.len(),
{
    if bytes.len() > 0 {
        lemma_hex_len(bytes.drop_last());
    }
}


/// The hexadecimal of the first `k` bytes is the first `2k` digits of the
/// hexadecimal of all bytes.
pub proof fn lemma_hex_prefix(bytes: Seq<u8>, k: int)
    requires
        0 <= k <= bytes.len(),
    ensures
        hex_of(bytes.take(k)) == hex_of(bytes).take(2 * k),
    decreases bytes.len(),
{
    lemma_hex_len(bytes);
    if k == bytes.len() {
        assert(bytes.take(k) =~= bytes);
        assert(hex_of(bytes).take(2 * k) =~= hex_of(bytes));
    } else {
        let init = bytes.drop_last();
        lemma_hex_prefix(init, k);
        lemma_hex_len(init);
        assert(bytes.take(k) =~= init.take(k));
        assert(hex_of(bytes).take(2 * k) =~= hex_of(init).take(2 * k));
    }
}

/// The hexadecimal of the first `n` bytes of a digest.
pub fn digest_prefix_hex(bytes: &[u8; 32], n: usize) -> (v: Vec<char>)
    requires
        n <= 32,
    ensures
        v@ == hex_of(bytes@.take(n as int)),
{
    let mut head: Vec<u8> = Vec::new();
    let mut i: usize = 0;
    while i < n
        invariant
            i <= n <= 32,
            bytes@.len() == 32,
            head@ == bytes@.take(i as int),
        decreases n - i,
    {
        head.push(bytes[i]);
        assert(head@ =~= bytes@.take(i + 1));
        i = i + 1;
    }
    hex_chars(head.as_slice())
}

/// The first eight bytes of a digest in hexadecimal: sixteen digits.
pub fn short_hash_hex(hash: &[u8; 32]) -> (s: String)
    ensures
        s@ == hex_of(hash@).take(16),
{
    let v = digest_prefix_hex(hash, 8);
    proof {
        lemma_hex_prefix(hash@, 8);
    }
    string_from_chars(v.as_slice())
}

} // verus!
