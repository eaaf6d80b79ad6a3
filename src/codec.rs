//! Little-endian encoding of machine integers.
use vstd::prelude::*;
use crate::scalar::le_value;

verus! {

/// 256 to the power `n`: the weight of the byte at position `n`.
pub open spec fn weight(n: nat) -> nat
    decreases n,
{
    if n == 0 {
        1
    } else {
        256 * weight((n - 1) as nat)
    }
}

/// Weights multiply as their positions add.
pub proof fn lemma_weight_adds(a: nat, b: nat)
    ensures
        weight(a + b) == weight(a) * weight(b),
        weight(a) >= 1,
    decreases a,
{
    if a > 0 {
        lemma_weight_adds((a - 1) as nat, b);
        assert((a - 1) as nat + b == (a + b - 1) as nat);
        let w = weight((a - 1) as nat);
        let v = weight(b);
        assert(weight(a + b) == 256 * weight((a + b - 1) as nat));
        assert(weight(a) == 256 * w);
        assert(256 * (w * v) == (256 * w) * v) by (nonlinear_arith);
        assert(weight(a + b) == weight(a) * weight(b));
    } else {
        assert(weight(a) == 1);
        assert(weight(a + b) == weight(a) * weight(b));
    }
}

/// The weight of the byte past a machine integer.
pub proof fn lemma_weight_eight()
    ensures
        weight(8) == 0x1_0000_0000_0000_0000,
{
    reveal_with_fuel(weight, 9);
}

/// Appending a byte adds it at the weight of its position.
pub proof fn lemma_le_value_push(s: Seq<u8>, b: u8)
    ensures
        le_value(s.push(b)) == le_value(s) + weight(s.len()) * b,
    decreases s.len(),
{
    if s.len() == 0 {
        assert(s.push(b).drop_first() =~= Seq::<u8>::empty());
        assert(le_value(s.push(b)) == b + 256 * le_value(Seq::<u8>::empty()));
        assert(le_value(s) == 0);
        assert(weight(0) == 1);
    } else {
        assert(s.push(b).drop_first() =~= s.drop_first().push(b));
        assert(s.push(b)[0] == s[0]);
        assert(weight(s.len()) == 256 * weight((s.len() - 1) as nat));
        lemma_le_value_push(s.drop_first(), b);
        let p = weight((s.len() - 1) as nat);
        assert(256 * (le_value(s.drop_first()) + p * b) == 256 * le_value(s.drop_first()) + (256 * p) * b)
            by (nonlinear_arith);
    }
}

/// A byte string denotes less than the weight of its length.
pub proof fn lemma_le_value_bound(s: Seq<u8>)
    ensures
        le_value(s) < weight(s.len()),
    decreases s.len(),
{
    if s.len() > 0 {
        lemma_le_value_bound(s.drop_first());
        let p = weight((s.len() - 1) as nat);
        let v = le_value(s.drop_first());
        let h = s[0];
        assert(h + 256 * v < 256 * p) by (nonlinear_arith)
            requires
                v < p,
                h < 256,
        ;
    }
}

/// The eight little-endian bytes of `x`.
pub fn encode_u64(x: u64) -> (r: [u8; 8])
    ensures
        le_value(r@) == x,
{
    let mut r = [0u8; 8];
    let mut v: u64 = x;
    let mut i: usize = 0;
    assert(r@.subrange(0, 0) =~= Seq::<u8>::empty());
    assert(le_value(Seq::<u8>::empty()) == 0);
    assert(weight(0) == 1);
    while i < 8
        invariant
            0 <= i <= 8,
            r@.len() == 8,
            le_value(r@.subrange(0, i as int)) + weight(i as nat) * v == x,
        decreases 8 - i,
    {
        let byte = (v % 256) as u8;
        proof {
            assert(r@.subrange(0, i as int).push(byte) =~= r@.update(i as int, byte).subrange(0, i as int + 1));
            lemma_le_value_push(r@.subrange(0, i as int), byte);
            let p = weight(i as nat);
            assert(p * v == p * byte + (256 * p) * (v / 256)) by (nonlinear_arith)
                requires
                    byte == v % 256,
            ;
        }
        r.set(i, byte);
        v = v / 256;
        i = i + 1;
    }
    proof {
        assert(r@.subrange(0, 8) =~= r@);
        lemma_weight_eight();
        let w = weight(8);
        assert(v == 0) by (nonlinear_arith)
            requires
                w == 0x1_0000_0000_0000_0000int,
                w * v <= x,
                x < 0x1_0000_0000_0000_0000int,
        ;
    }
    r
}

/// The machine integer that the eight little-endian bytes of `b` from `start` denote.
pub fn decode_u64(b: &[u8], start: usize) -> (r: u64)
    requires
        start + 8 <= b@.len(),
    ensures
        r == le_value(b@.subrange(start as int, start + 8)),
{
    let mut v: u64 = 0;
    let mut k: usize = 8;
    let n = b.len();
    assert(b@.subrange(start + 8, start + 8) =~= Seq::<u8>::empty());
    while k > 0
        invariant
            0 <= k <= 8,
            start + 8 <= b@.len(),
            n == b@.len(),
            v == le_value(b@.subrange(start + k, start + 8)),
        decreases k,
    {
        let byte = b[start + k - 1];
        proof {
            let s = b@.subrange(start + k - 1, start + 8);
            assert(s.drop_first() =~= b@.subrange(start + k, start + 8));
            lemma_le_value_bound(b@.subrange(start + k, start + 8));
            lemma_weight_adds((8 - k) as nat, 1);
            lemma_weight_adds((9 - k) as nat, (k - 1) as nat);
            lemma_weight_eight();
            lemma_weight_adds((k - 1) as nat, 0);
            let p = weight((8 - k) as nat);
            let q = weight((k - 1) as nat);
            assert(byte + 256 * v < 0x1_0000_0000_0000_0000) by (nonlinear_arith)
                requires
                    v < p,
                    (256 * p) * q == 0x1_0000_0000_0000_0000int,
                    q >= 1,
                    byte < 256,
            ;
        }
        v = byte as u64 + 256 * v;
        k = k - 1;
    }
    v
}

/// The `N` bytes of `b` that start at `start`.
pub fn take_bytes<const N: usize>(b: &[u8], start: usize) -> (r: [u8; N])
    requires
        start + N <= b@.len(),
    ensures
        r@ == b@.subrange(start as int, start + N),
{
    let mut r = [0u8; N];
    let mut i: usize = 0;
    let n = b.len();
    while i < N
        invariant
            0 <= i <= N,
            start + N <= b@.len(),
            n == b@.len(),
            r@.len() == N,
            forall|j: int| 0 <= j < i ==> r@[j] == b@[start + j],
        decreases N - i,
    {
        r.set(i, b[start + i]);
        i = i + 1;
    }
    assert(r@ =~= b@.subrange(start as int, start + N));
    r
}

} // verus!
