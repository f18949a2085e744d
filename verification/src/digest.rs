//! SHA-256 digests and their lower-case hexadecimal form.

use vstd::prelude::*;
use crate::text::hex_digit;

verus! {

/// The SHA-256 digest of a byte sequence.
pub uninterp spec fn sha256(data: Seq<u8>) -> Seq<u8>;

/// Lower-case hexadecimal: two digits per byte, high nibble first.
pub open spec fn hex_spec(data: Seq<u8>) -> Seq<char> {
    Seq::new(
        2 * data.len(),
        |i: int|
            if i % 2 == 0 {
                hex_digit((data[i / 2] / 16) as nat)
            } else {
                hex_digit((data[i / 2] % 16) as nat)
            },
    )
}

/// Computes the SHA-256 digest of `data`.
///
/// Trusted: `sha2::Sha256::digest`, which hashes the whole input at once. The
/// contract names its result and states the digest's fixed size of 32 bytes.
#[verifier::external_body]
pub(crate) fn sha256_digest(data: &[u8]) -> (out: Vec<u8>)
    ensures
        out@ == sha256(data@),
        out@.len() == 32,
{
    <sha2::Sha256 as sha2::Digest>::digest(data).to_vec()
}

/// Encodes `data` in lower-case hexadecimal.
///
/// Trusted: `hex::encode`, which writes each byte as two digits taken from
/// `0123456789abcdef`, the high four bits first.
#[verifier::external_body]
pub(crate) fn hex_encode(data: &[u8]) -> (out: String)
    ensures
        out@ == hex_spec(data@),
{
    hex::encode(data)
}

/// The SHA-256 digest of `data`, in lower-case hexadecimal.
pub fn sha256_hex(data: &[u8]) -> (out: String)
    ensures
        out@ == hex_spec(sha256(data@)),
        out@.len() == 64,
{
    let digest = sha256_digest(data);
    hex_encode(digest.as_slice())
}

/// A hexadecimal digit determines its value.
pub proof fn lemma_hex_digit_injective(a: nat, b: nat)
    requires
        a < 16,
        b < 16,
        hex_digit(a) == hex_digit(b),
    ensures
        a == b,
{
    let ca = hex_digit(a) as u32;
    let cb = hex_digit(b) as u32;
    assert(ca == cb);
    if a < 10 {
        assert(ca == 48 + a);
    } else {
        assert(ca == 97 + (a - 10));
    }
    if b < 10 {
        assert(cb == 48 + b);
    } else {
        assert(cb == 97 + (b - 10));
    }
}

/// Two byte sequences with the same hexadecimal form are equal.
pub proof fn lemma_hex_injective(a: Seq<u8>, b: Seq<u8>)
    requires
        hex_spec(a) == hex_spec(b),
    ensures
        a == b,
{
    assert(hex_spec(a).len() == 2 * a.len());
    assert(hex_spec(b).len() == 2 * b.len());
    assert(a.len() == b.len());
    assert forall|i: int| 0 <= i < a.len() implies a[i] == b[i] by {
        let hi = hex_spec(a)[2 * i];
        let lo = hex_spec(a)[2 * i + 1];
        assert(hi == hex_spec(b)[2 * i]);
        assert(lo == hex_spec(b)[2 * i + 1]);
        assert((2 * i) / 2 == i && (2 * i) % 2 == 0);
        assert((2 * i + 1) / 2 == i && (2 * i + 1) % 2 == 1);
        lemma_hex_digit_injective((a[i] / 16) as nat, (b[i] / 16) as nat);
        lemma_hex_digit_injective((a[i] % 16) as nat, (b[i] % 16) as nat);
    }
    assert(a =~= b);
}

} // verus!
