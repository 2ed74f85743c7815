//! Big-endian byte strings of unsigned 64-bit integers.

use vstd::prelude::*;

verus! {

/// The `k` least significant bytes of `n`, most significant first.
pub open spec fn be_bytes(n: nat, k: nat) -> Seq<u8>
    decreases k,
{
    if k == 0 {
        Seq::empty()
    } else {
        be_bytes(n / 256, (k - 1) as nat).push((n % 256) as u8)
    }
}

/// The number that `bytes` spell when read most significant byte first.
pub open spec fn be_value(bytes: Seq<u8>) -> nat
    decreases bytes.len(),
{
    if bytes.len() == 0 {
        0
    } else {
        256 * be_value(bytes.drop_last()) + bytes.last() as nat
    }
}

/// 256 to the power of `k`.
pub open spec fn pow256(k: nat) -> nat
    decreases k,
{
    if k == 0 {
        1
    } else {
        256 * pow256((k - 1) as nat)
    }
}

/// `be_bytes(n, k)` has exactly `k` bytes.
pub proof fn lemma_be_bytes_len(n: nat, k: nat)
    ensures
        be_bytes(n, k).len() == k,
    decreases k,
{
    if k > 0 {
        lemma_be_bytes_len(n / 256, (k - 1) as nat);
    }
}

/// Reading back the `k` low bytes of `n` gives `n` modulo `256^k`: nothing
/// of the low `k` bytes is lost, and nothing else is kept.
pub proof fn lemma_be_round_trip(n: nat, k: nat)
    ensures
        be_value(be_bytes(n, k)) == n % pow256(k),
    decreases k,
{
    if k == 0 {
        assert(n % 1 == 0);
    } else {
        let rest = be_bytes(n / 256, (k - 1) as nat);
        let all = be_bytes(n, k);
        lemma_be_round_trip(n / 256, (k - 1) as nat);
        lemma_be_bytes_len(n / 256, (k - 1) as nat);
        assert(all.drop_last() =~= rest);
        assert(all.last() == (n % 256) as u8);
        let p = pow256((k - 1) as nat);
        lemma_pow256_positive((k - 1) as nat);
        lemma_mod_split(n, p);
    }
}

/// `256^k` is at least one.
pub proof fn lemma_pow256_positive(k: nat)
    ensures
        pow256(k) >= 1,
    decreases k,
{
    if k > 0 {
        lemma_pow256_positive((k - 1) as nat);
    }
}

/// Splitting off the lowest byte commutes with reduction modulo `256 * p`.
proof fn lemma_mod_split(n: nat, p: nat)
    requires
        p >= 1,
    ensures
        256 * ((n / 256) % p) + n % 256 == n % (256 * p),
{
    let q = n / 256;
    let r = n % 256;
    let a = q / p;
    let b = q % p;
    assert(n == 256 * q + r);
    assert(q == p * a + b) by (nonlinear_arith)
        requires
            a == q / p,
            b == q % p,
            p >= 1,
    ;
    assert(0 <= b < p) by (nonlinear_arith)
        requires
            b == q % p,
            p >= 1,
    ;
    let m = 256 * p;
    let low = 256 * b + r;
    assert(0 <= low < m) by (nonlinear_arith)
        requires
            0 <= b < p,
            0 <= r < 256,
            low == 256 * b + r,
            m == 256 * p,
    ;
    assert(n == m * a + low) by (nonlinear_arith)
        requires
            n == 256 * q + r,
            q == p * a + b,
            m == 256 * p,
            low == 256 * b + r,
    ;
    vstd::arithmetic::div_mod::lemma_fundamental_div_mod_converse(
        n as int,
        m as int,
        a as int,
        low as int,
    );
}

/// A number below `2^64` is its own remainder modulo `256^8`.
pub proof fn lemma_u64_fits_eight_bytes(n: u64)
    ensures
        be_value(be_bytes(n as nat, 8)) == n,
{
    lemma_be_round_trip(n as nat, 8);
    assert(pow256(8) == 0x1_0000_0000_0000_0000) by {
        reveal_with_fuel(pow256, 9);
    }
    assert((n as nat) % 0x1_0000_0000_0000_0000 == n as nat);
}

/// The eight bytes of `n`, most significant first.
pub fn u64_be_bytes(n: u64) -> (out: [u8; 8])
    ensures
        out@ == be_bytes(n as nat, 8),
{
    let out: [u8; 8] = [
        (n >> 56) as u8,
        ((n >> 48) & 0xff) as u8,
        ((n >> 40) & 0xff) as u8,
        ((n >> 32) & 0xff) as u8,
        ((n >> 24) & 0xff) as u8,
        ((n >> 16) & 0xff) as u8,
        ((n >> 8) & 0xff) as u8,
        (n & 0xff) as u8,
    ];
    proof {
        let v = n as nat;
        assert(n & 0xff == n % 256) by (bit_vector);
        assert((n >> 8) & 0xff == (n / 256) % 256) by (bit_vector);
        assert((n >> 16) & 0xff == (n / 256 / 256) % 256) by (bit_vector);
        assert((n >> 24) & 0xff == (n / 256 / 256 / 256) % 256) by (bit_vector);
        assert((n >> 32) & 0xff == (n / 256 / 256 / 256 / 256) % 256) by (bit_vector);
        assert((n >> 40) & 0xff == (n / 256 / 256 / 256 / 256 / 256) % 256) by (bit_vector);
        assert((n >> 48) & 0xff == (n / 256 / 256 / 256 / 256 / 256 / 256) % 256)
            by (bit_vector);
        assert(n >> 56 == (n / 256 / 256 / 256 / 256 / 256 / 256 / 256) % 256) by (bit_vector);
        reveal_with_fuel(be_bytes, 9);
        assert(out@ =~= be_bytes(v, 8));
    }
    out
}

} // verus!
