//! The varu64 encoding of unsigned 64-bit integers.

use vstd::prelude::*;
use crate::endian::{be_bytes, be_value, lemma_be_bytes_len, lemma_be_round_trip, pow256};

verus! {

/// The least number of bytes, at least one, that hold `n`.
pub open spec fn byte_width(n: nat) -> nat
    decreases n,
{
    if n < 256 {
        1
    } else {
        1 + byte_width(n / 256)
    }
}

/// The varu64 encoding of `n`. A number below 248 is its own single byte.
/// Any other is a first byte of 247 plus the number's width in bytes,
/// followed by that many bytes holding the number, most significant first.
pub open spec fn varu64_bytes(n: u64) -> Seq<u8> {
    if n < 248 {
        seq![n as u8]
    } else {
        seq![(247 + byte_width(n as nat)) as u8] + be_bytes(n as nat, byte_width(n as nat))
    }
}

/// Calls `varu64::encode` on a buffer of nine bytes, the longest encoding
/// there is, and returns the bytes it filled. The contract restates the
/// format as the crate defines it: numbers below 248 stand for themselves,
/// larger ones follow a length tag between 248 and 255 in the fewest
/// big-endian bytes that hold them.
#[verifier::external_body]
pub(crate) fn varu64_encode(n: u64) -> (out: Vec<u8>)
    ensures
        out@ == varu64_bytes(n),
{
    let mut buf = [0u8; 9];
    let len = varu64::encode(n, &mut buf[..]);
    buf[..len].to_vec()
}

/// A number of 64 bits is between one and eight bytes wide.
pub proof fn lemma_byte_width_u64(n: u64)
    ensures
        1 <= byte_width(n as nat) <= 8,
{
    reveal_with_fuel(byte_width, 9);
    let v = n as nat;
    assert(v / 256 / 256 / 256 / 256 / 256 / 256 / 256 < 256);
}

/// The width of `n` is the least number of bytes that hold it: `n` is
/// below `256` to the power of its width, and not below any smaller power
/// unless one byte is enough.
pub proof fn lemma_byte_width_least(n: nat)
    ensures
        n < pow256(byte_width(n)),
        byte_width(n) == 1 || n >= pow256((byte_width(n) - 1) as nat),
    decreases n,
{
    reveal_with_fuel(pow256, 2);
    if n >= 256 {
        lemma_byte_width_least(n / 256);
        let w = byte_width(n / 256);
        assert(byte_width(n) == 1 + w);
        assert(n < 256 * pow256(w)) by (nonlinear_arith)
            requires
                n / 256 < pow256(w),
        ;
        if w > 1 {
            assert(n >= 256 * pow256((w - 1) as nat)) by (nonlinear_arith)
                requires
                    n / 256 >= pow256((w - 1) as nat),
            ;
        }
    }
}

/// The encoding is one byte for a number below 248, and a tag byte between
/// 248 and 255 followed by as many bytes as the number is wide for any
/// other: nine bytes at most.
pub proof fn lemma_varu64_len(n: u64)
    ensures
        n < 248 ==> varu64_bytes(n).len() == 1 && varu64_bytes(n)[0] == n,
        n >= 248 ==> varu64_bytes(n).len() == 1 + byte_width(n as nat) && varu64_bytes(n)[0]
            == 247 + byte_width(n as nat),
        1 <= varu64_bytes(n).len() <= 9,
{
    lemma_byte_width_u64(n);
    lemma_be_bytes_len(n as nat, byte_width(n as nat));
}

/// The bytes behind the tag hold the number itself, and the first of them
/// is not zero: no shorter string of bytes would hold it.
pub proof fn lemma_varu64_minimal(n: u64)
    requires
        n >= 248,
    ensures
        be_value(varu64_bytes(n).subrange(1, varu64_bytes(n).len() as int)) == n,
        varu64_bytes(n)[1] != 0,
{
    let v = n as nat;
    let w = byte_width(v);
    lemma_byte_width_u64(n);
    lemma_be_bytes_len(v, w);
    lemma_byte_width_least(v);
    lemma_be_round_trip(v, w);
    lemma_leading_byte(v);
    assert(varu64_bytes(n).subrange(1, varu64_bytes(n).len() as int) =~= be_bytes(v, w));
    assert(v % pow256(w) == v) by (nonlinear_arith)
        requires
            v < pow256(w),
    ;
}

/// Written in as many bytes as it is wide, a number other than zero
/// starts with a byte other than zero.
proof fn lemma_leading_byte(n: nat)
    requires
        n >= 1,
    ensures
        be_bytes(n, byte_width(n)).len() == byte_width(n),
        be_bytes(n, byte_width(n))[0] != 0,
    decreases n,
{
    let w = byte_width(n);
    lemma_be_bytes_len(n, w);
    reveal_with_fuel(be_bytes, 2);
    if n >= 256 {
        lemma_leading_byte(n / 256);
        lemma_be_bytes_len(n / 256, (w - 1) as nat);
    }
}

} // verus!
