//! Unsigned integers as big-endian bytes.

use vstd::prelude::*;

verus! {

/// Big-endian notation of `n` in `k` bytes.
pub open spec fn be_bytes(n: nat, k: nat) -> Seq<u8>
    decreases k,
{
    if k == 0 {
        Seq::empty()
    } else {
        be_bytes(n / 256, (k - 1) as nat) + seq![(n % 256) as u8]
    }
}

/// Appends the big-endian notation of `n` in `k` bytes.
pub(crate) fn push_be(out: &mut Vec<u8>, n: u64, k: u64)
    requires
        k <= 8,
    ensures
        final(out)@ == old(out)@ + be_bytes(n as nat, k as nat),
    decreases k,
{
    if k > 0 {
        push_be(out, n / 256, k - 1);
        let ghost mid = out@;
        out.push((n % 256) as u8);
        proof {
            assert(out@ =~= mid + seq![(n % 256) as u8]);
            assert((n / 256) as nat == n as nat / 256);
            assert(old(out)@ + be_bytes(n as nat, k as nat) =~= old(out)@ + be_bytes(n as nat / 256, (k - 1) as nat) + seq![(n as nat % 256) as u8]);
        }
    }
}

/// `256^k`, the number of values `k` bytes can hold.
pub open spec fn byte_range(k: nat) -> nat
    decreases k,
{
    if k == 0 {
        1
    } else {
        256 * byte_range((k - 1) as nat)
    }
}

pub proof fn lemma_be_bytes_len(n: nat, k: nat)
    ensures
        be_bytes(n, k).len() == k,
    decreases k,
{
    if k > 0 {
        lemma_be_bytes_len(n / 256, (k - 1) as nat);
    }
}

pub proof fn lemma_div_bound(n: nat, r: nat)
    by (nonlinear_arith)
    requires
        n < 256 * r,
    ensures
        n / 256 < r,
{
}

pub proof fn lemma_be_bytes_injective(n: nat, m: nat, k: nat)
    requires
        n < byte_range(k),
        m < byte_range(k),
        be_bytes(n, k) == be_bytes(m, k),
    ensures
        n == m,
    decreases k,
{
    if k > 0 {
        let r = byte_range((k - 1) as nat);
        lemma_be_bytes_len(n / 256, (k - 1) as nat);
        lemma_be_bytes_len(m / 256, (k - 1) as nat);
        let a = be_bytes(n, k);
        let b = be_bytes(m, k);
        assert(a.last() == (n % 256) as u8);
        assert(b.last() == (m % 256) as u8);
        assert(a.drop_last() =~= be_bytes(n / 256, (k - 1) as nat));
        assert(b.drop_last() =~= be_bytes(m / 256, (k - 1) as nat));
        lemma_div_bound(n, r);
        lemma_div_bound(m, r);
        lemma_be_bytes_injective(n / 256, m / 256, (k - 1) as nat);
    } else {
        assert(n == 0 && m == 0);
    }
}

pub proof fn lemma_usize_fits_8_bytes(n: usize)
    ensures
        (n as nat) < byte_range(8),
{
    reveal_with_fuel(byte_range, 9);
    assert(byte_range(8) == 0x1_0000_0000_0000_0000);
}

/// The number that big-endian bytes stand for.
pub open spec fn be_value(b: Seq<u8>) -> nat
    decreases b.len(),
{
    if b.len() == 0 {
        0
    } else {
        be_value(b.drop_last()) * 256 + b.last() as nat
    }
}

/// Reading back big-endian bytes gives the number written.
pub proof fn lemma_be_value_of_bytes(n: nat, k: nat)
    requires
        n < byte_range(k),
    ensures
        be_value(be_bytes(n, k)) == n,
    decreases k,
{
    if k > 0 {
        let b = be_bytes(n, k);
        lemma_be_bytes_len(n / 256, (k - 1) as nat);
        assert(b.drop_last() =~= be_bytes(n / 256, (k - 1) as nat));
        lemma_div_bound(n, byte_range((k - 1) as nat));
        lemma_be_value_of_bytes(n / 256, (k - 1) as nat);
    }
}

/// Big-endian bytes stand for a number below `256^len`.
pub proof fn lemma_be_value_bound(b: Seq<u8>)
    ensures
        be_value(b) < byte_range(b.len()),
    decreases b.len(),
{
    if b.len() > 0 {
        lemma_be_value_bound(b.drop_last());
        let r = byte_range((b.len() - 1) as nat);
        let v = be_value(b.drop_last());
        assert(v * 256 + (b.last() as nat) < 256 * r) by (nonlinear_arith)
            requires
                v < r,
                b.last() < 256,
        ;
    }
}

proof fn lemma_byte_range_values()
    ensures
        byte_range(2) == 0x1_0000,
        byte_range(4) == 0x1_0000_0000,
        byte_range(8) == 0x1_0000_0000_0000_0000,
{
    reveal_with_fuel(byte_range, 9);
}

/// Reads up to 8 big-endian bytes.
pub(crate) fn read_be(b: &[u8]) -> (r: u64)
    requires
        b@.len() <= 8,
    ensures
        r == be_value(b@),
{
    proof {
        lemma_byte_range_values();
    }
    let mut acc: u64 = 0;
    let mut i: usize = 0;
    while i < b.len()
        invariant
            i <= b@.len() <= 8,
            acc == be_value(b@.take(i as int)),
            byte_range(8) == 0x1_0000_0000_0000_0000,
        decreases b@.len() - i,
    {
        proof {
            lemma_be_value_bound(b@.take(i as int));
            lemma_byte_range_monotone(i as nat, 7);
            assert(b@.take(i + 1).drop_last() =~= b@.take(i as int));
        }
        assert(acc * 256 + b[i as int] < 0x1_0000_0000_0000_0000) by (nonlinear_arith)
            requires
                acc < byte_range(i as nat),
                byte_range(i as nat) <= byte_range(7),
                byte_range(8) == 256 * byte_range(7),
                byte_range(8) == 0x1_0000_0000_0000_0000,
                b[i as int] < 256,
        ;
        acc = acc * 256 + b[i] as u64;
        i = i + 1;
    }
    proof {
        assert(b@.take(b@.len() as int) =~= b@);
    }
    acc
}

/// `256^i <= 256^j` for `i <= j`.
pub proof fn lemma_byte_range_monotone(i: nat, j: nat)
    requires
        i <= j,
    ensures
        byte_range(i) <= byte_range(j),
    decreases j,
{
    if i < j {
        lemma_byte_range_monotone(i, (j - 1) as nat);
    }
}

} // verus!
