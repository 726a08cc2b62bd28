//! Hashing and hex encoding of project paths.

use vstd::prelude::*;
use vstd::string::*;
use sha2::Digest;

verus! {

/// The SHA-256 digest of `data`, as computed by the `sha2` crate.
pub uninterp spec fn sha256_digest(data: Seq<u8>) -> Seq<u8>;

/// Calls `sha2::Sha256::digest`.
///
/// Trusted: the result is the `sha2` crate's SHA-256 digest of `data`
/// (named `sha256_digest`), and it is 32 bytes long (the crate's output
/// type for SHA-256 is a 32-byte array).
#[verifier::external_body]
pub(crate) fn sha256(data: &[u8]) -> (res: Vec<u8>)
    ensures
        res@ == sha256_digest(data@),
        res@.len() == 32,
{
    sha2::Sha256::digest(data).to_vec()
}

/// The lowercase hexadecimal digits.
pub open spec fn hex_digits() -> Seq<char> {
    seq!['0', '1', '2', '3', '4', '5', '6', '7', '8', '9', 'a', 'b', 'c', 'd', 'e', 'f']
}

/// Each byte of `bytes` as two lowercase hex digits, high nibble first.
pub open spec fn hex_lower(bytes: Seq<u8>) -> Seq<char>
    decreases bytes.len(),
{
    if bytes.len() == 0 {
        Seq::empty()
    } else {
        let b = bytes.last();
        hex_lower(bytes.drop_last()) + seq![hex_digits()[(b / 16) as int], hex_digits()[(b % 16) as int]]
    }
}

/// Returns the lowercase hex encoding of `bytes`.
pub fn to_hex(bytes: &[u8]) -> (res: String)
    ensures
        res@ == hex_lower(bytes@),
{
    let digits: &str = "0123456789abcdef";
    proof {
        reveal_strlit("0123456789abcdef");
        assert(digits@ =~= hex_digits());
    }
    let mut res = String::new();
    let mut i: usize = 0;
    while i < bytes.len()
        invariant
            i <= bytes@.len(),
            digits@ == hex_digits(),
            res@ == hex_lower(bytes@.take(i as int)),
        decreases bytes.len() - i,
    {
        let b = bytes[i];
        let hi = (b / 16) as usize;
        let lo = (b % 16) as usize;
        let ghost before = res@;
        res.append(digits.substring_char(hi, hi + 1));
        res.append(digits.substring_char(lo, lo + 1));
        proof {
            let t = bytes@.take(i + 1);
            assert(t.drop_last() =~= bytes@.take(i as int));
            assert(t.last() == b);
            assert(digits@.subrange(hi as int, hi + 1) =~= seq![hex_digits()[(b / 16) as int]]);
            assert(digits@.subrange(lo as int, lo + 1) =~= seq![hex_digits()[(b % 16) as int]]);
            assert(res@ =~= before + seq![hex_digits()[(b / 16) as int], hex_digits()[(b % 16) as int]]);
        }
        i = i + 1;
    }
    assert(bytes@.take(bytes@.len() as int) =~= bytes@);
    res
}

/// Returns the first `n` bytes of `bytes`.
pub fn prefix_bytes(bytes: &Vec<u8>, n: usize) -> (res: Vec<u8>)
    requires
        n <= bytes.len(),
    ensures
        res@ == bytes@.take(n as int),
{
    let mut res: Vec<u8> = Vec::new();
    let mut i: usize = 0;
    while i < n
        invariant
            i <= n,
            n <= bytes.len(),
            res@ == bytes@.take(i as int),
        decreases n - i,
    {
        res.push(bytes[i]);
        assert(res@ =~= bytes@.take(i + 1));
        i = i + 1;
    }
    res
}

} // verus!
