//! SHA-256 checksums of downloaded packages, written as lower-case hexadecimal.
use vstd::prelude::*;
use sha2::Digest;
use crate::text::{digit, digit_char, push_char};

verus! {

/// The SHA-256 digest of `data`, as the `sha2` crate computes it.
pub uninterp spec fn sha256_of(data: Seq<u8>) -> Seq<u8>;

/// Hashes `data` with `sha2::Sha256::digest`.
/// Trusted: the result is `sha256_of(data)` and has 32 bytes (`Sha256`'s output size is `U32`).
#[verifier::external_body]
fn sha256_digest(data: &[u8]) -> (d: Vec<u8>)
    ensures
        d@ == sha256_of(data@),
        d@.len() == 32,
{
    sha2::Sha256::digest(data).to_vec()
}

/// `bytes` in lower-case hexadecimal, two digits per byte (`format!("{:02x}", b)` each).
pub open spec fn hex_of(bytes: Seq<u8>) -> Seq<char>
    decreases bytes.len(),
{
    if bytes.len() == 0 {
        Seq::empty()
    } else {
        hex_of(bytes.drop_last()) + seq![digit_char((bytes.last() / 16) as nat), digit_char((bytes.last() % 16) as nat)]
    }
}

/// Converts bytes to their lower-case hexadecimal text.
pub fn to_hex_string(bytes: &[u8]) -> (s: String)
    ensures
        s@ == hex_of(bytes@),
{
    let mut s = String::new();
    for i in 0..bytes.len()
        invariant
            s@ == hex_of(bytes@.take(i as int)),
    {
        assert(bytes@.take(i + 1).drop_last() =~= bytes@.take(i as int));
        let b = bytes[i];
        push_char(&mut s, digit((b / 16) as u64));
        push_char(&mut s, digit((b % 16) as u64));
        assert(s@ =~= hex_of(bytes@.take(i + 1)));
    }
    assert(bytes@.take(bytes@.len() as int) =~= bytes@);
    s
}

/// The SHA-256 checksum of a package's bytes, in lower-case hexadecimal.
pub fn compute_sha256(data: &[u8]) -> (s: String)
    ensures
        s@ == hex_of(sha256_of(data@)),
        s@.len() == 64,
{
    let d = sha256_digest(data);
    proof {
        hex_text_shape(d@);
    }
    to_hex_string(d.as_slice())
}

/// A lower-case hexadecimal digit.
pub open spec fn is_hex_digit(c: char) -> bool {
    ('0' <= c <= '9') || ('a' <= c <= 'f')
}

/// Law: the hexadecimal text of `n` bytes has `2n` characters, all lower-case hexadecimal
/// digits, the high half of each byte first.
pub proof fn hex_text_shape(bytes: Seq<u8>)
    ensures
        hex_of(bytes).len() == 2 * bytes.len(),
        forall|i: int| 0 <= i < hex_of(bytes).len() ==> is_hex_digit(#[trigger] hex_of(bytes)[i]),
        forall|k: int| 0 <= k < bytes.len() ==> hex_of(bytes)[2 * k] == digit_char((bytes[k] / 16) as nat)
            && hex_of(bytes)[2 * k + 1] == digit_char((bytes[k] % 16) as nat),
    decreases bytes.len(),
{
    if bytes.len() > 0 {
        let init = bytes.drop_last();
        hex_text_shape(init);
        let h = hex_of(bytes);
        assert forall|i: int| 0 <= i < h.len() implies is_hex_digit(#[trigger] h[i]) by {
            if i < hex_of(init).len() {
                assert(h[i] == hex_of(init)[i]);
            }
        }
        assert forall|k: int| 0 <= k < bytes.len() implies h[2 * k] == digit_char((bytes[k] / 16) as nat)
            && h[2 * k + 1] == digit_char((bytes[k] % 16) as nat) by {
            if k < init.len() {
                assert(h[2 * k] == hex_of(init)[2 * k]);
                assert(h[2 * k + 1] == hex_of(init)[2 * k + 1]);
                assert(init[k] == bytes[k]);
            }
        }
    }
}

} // verus!
