//! Threshold sharing of a private key: split into fragments by evaluating a
//! random polynomial, recover by Lagrange interpolation at zero.
use vstd::prelude::*;
use vstd::arithmetic::div_mod::{lemma_mul_mod_noop_right, lemma_small_mod};
use crate::keys::{KeyError, KeyKind, PrivateKey};
use crate::scalar::{field_order, le_value, Scalar};

verus! {

/// Field addition.
pub open spec fn fadd(a: nat, b: nat) -> nat {
    (a + b) % field_order()
}

/// Field multiplication.
pub open spec fn fmul(a: nat, b: nat) -> nat {
    (a * b) % field_order()
}

/// Field subtraction.
pub open spec fn fsub(a: nat, b: nat) -> nat {
    ((a - b) % (field_order() as int)) as nat
}

/// `r` is the field inverse of `a`.
pub open spec fn inverts(r: nat, a: nat) -> bool {
    r < field_order() && (r * a) % field_order() == 1
}

/// The field inverse of `a` (unspecified for zero).
pub open spec fn finv(a: nat) -> nat {
    choose|r: nat| #[trigger] inverts(r, a)
}

/// The polynomial with coefficients `c` (constant term first) at `x`.
pub open spec fn poly_eval(c: Seq<nat>, x: nat) -> nat
    decreases c.len(),
{
    if c.len() == 0 {
        0
    } else {
        fadd(c[0], fmul(x, poly_eval(c.drop_first(), x)))
    }
}

/// The coefficients of a split of secret `s` with threshold `m`: the secret,
/// then one coefficient reduced from each of the first `m - 1` entropy blocks.
pub open spec fn split_coefficients(s: nat, entropy: Seq<[u8; 64]>, m: nat) -> Seq<nat> {
    seq![s] + Seq::new((m - 1) as nat, |j: int| le_value(entropy[j]@) % field_order())
}

/// The values of a sequence of field elements.
pub open spec fn values(c: Seq<Scalar>) -> Seq<nat> {
    c.map_values(|s: Scalar| s.value())
}

/// The value of the polynomial with coefficients `c` at `x`.
fn evaluate(c: &Vec<Scalar>, x: u64) -> (r: Scalar)
    requires
        forall|i: int| 0 <= i < c@.len() ==> (#[trigger] c@[i]).wf(),
    ensures
        r.wf(),
        r.value() == poly_eval(values(c@), x as nat),
{
    let xs = Scalar::from_u64(x);
    let mut acc = Scalar::zero();
    let mut k: usize = c.len();
    assert(values(c@).subrange(k as int, k as int) =~= Seq::<nat>::empty());
    while k > 0
        invariant
            k <= c@.len(),
            forall|i: int| 0 <= i < c@.len() ==> (#[trigger] c@[i]).wf(),
            xs.wf(),
            xs.value() == x,
            acc.wf(),
            acc.value() == poly_eval(values(c@).subrange(k as int, c@.len() as int), x as nat),
        decreases k,
    {
        let t = xs.mul(&acc);
        acc = c[k - 1].add(&t);
        proof {
            let s = values(c@).subrange(k - 1, c@.len() as int);
            assert(s.drop_first() =~= values(c@).subrange(k as int, c@.len() as int));
            assert(s[0] == c@[k - 1].value());
        }
        k = k - 1;
    }
    assert(values(c@).subrange(0, c@.len() as int) =~= values(c@));
    acc
}

impl PrivateKey {
    /// Splits a full key into `n` fragments, any `m` of which recover it.
    /// The fragment at position `i` holds the value at `i + 1` of the
    /// polynomial whose constant term is the key's scalar and whose other
    /// `m - 1` coefficients come from `entropy`.
    pub fn split(&self, m: usize, n: usize, entropy: &[[u8; 64]]) -> (r: Result<Vec<PrivateKey>, KeyError>)
        requires
            self.wf(),
            1 <= m <= n ==> entropy@.len() + 1 >= m,
        ensures
            r is Ok <==> (self.kind is Full && 1 <= m <= n),
            r matches Err(e) ==> e == (if self.kind is Full {
                KeyError::InvalidThresholdParameters
            } else {
                KeyError::NotASigningKey
            }),
            r matches Ok(f) ==> {
                &&& f@.len() == n
                &&& forall|i: int| 0 <= i < n ==> {
                    &&& (#[trigger] f@[i]).wf()
                    &&& f@[i].kind == (KeyKind::Fragment { index: (i + 1) as u64, threshold: m as u64 })
                    &&& f@[i].scalar.value() == poly_eval(
                        split_coefficients(self.scalar.value(), entropy@, m as nat),
                        (i + 1) as nat,
                    )
                }
            },
    {
        if self.is_fragment() {
            return Err(KeyError::NotASigningKey);
        }
        if m < 1 || m > n {
            return Err(KeyError::InvalidThresholdParameters);
        }
        let mut coefficients: Vec<Scalar> = Vec::new();
        coefficients.push(self.scalar);
        let mut j: usize = 0;
        while j + 1 < m
            invariant
                1 <= m <= n,
                entropy@.len() + 1 >= m,
                j + 1 <= m,
                self.wf(),
                coefficients@.len() == j + 1,
                forall|i: int| 0 <= i < coefficients@.len() ==> (#[trigger] coefficients@[i]).wf(),
                values(coefficients@) =~= split_coefficients(self.scalar.value(), entropy@, (j + 1) as nat),
            decreases m - j,
        {
            let c = Scalar::from_bytes_wide(&entropy[j]);
            let ghost before = coefficients@;
            coefficients.push(c);
            proof {
                assert(values(coefficients@) =~= values(before).push(c.value()));
                assert(split_coefficients(self.scalar.value(), entropy@, (j + 2) as nat) =~= split_coefficients(
                    self.scalar.value(),
                    entropy@,
                    (j + 1) as nat,
                ).push(le_value(entropy@[j as int]@) % field_order()));
            }
            j = j + 1;
        }
        let mut fragments: Vec<PrivateKey> = Vec::new();
        let mut i: usize = 0;
        while i < n
            invariant
                1 <= m <= n,
                i <= n,
                fragments@.len() == i,
                forall|t: int| 0 <= t < coefficients@.len() ==> (#[trigger] coefficients@[t]).wf(),
                values(coefficients@) == split_coefficients(self.scalar.value(), entropy@, m as nat),
                forall|t: int| 0 <= t < i ==> {
                    &&& (#[trigger] fragments@[t]).wf()
                    &&& fragments@[t].kind == (KeyKind::Fragment { index: (t + 1) as u64, threshold: m as u64 })
                    &&& fragments@[t].scalar.value() == poly_eval(
                        split_coefficients(self.scalar.value(), entropy@, m as nat),
                        (t + 1) as nat,
                    )
                },
            decreases n - i,
        {
            let index = (i + 1) as u64;
            let value = evaluate(&coefficients, index);
            fragments.push(PrivateKey { scalar: value, kind: KeyKind::Fragment { index, threshold: m as u64 } });
            i = i + 1;
        }
        Ok(fragments)
    }
}

/// The index of a fragment (zero for a full key).
pub open spec fn share_index(k: PrivateKey) -> nat {
    match k.kind {
        KeyKind::Fragment { index, .. } => index as nat,
        KeyKind::Full => 0,
    }
}

/// The threshold of the split that a fragment comes from (zero for a full key).
pub open spec fn share_threshold(k: PrivateKey) -> nat {
    match k.kind {
        KeyKind::Fragment { threshold, .. } => threshold as nat,
        KeyKind::Full => 0,
    }
}

/// Every key is a fragment.
pub open spec fn all_fragments(f: Seq<PrivateKey>) -> bool {
    forall|i: int| 0 <= i < f.len() ==> (#[trigger] f[i]).kind is Fragment
}

/// The fragments come from one split, are at least its threshold in number,
/// and have pairwise distinct indices.
pub open spec fn shares_sufficient(f: Seq<PrivateKey>) -> bool {
    &&& f.len() > 0
    &&& forall|i: int| 0 <= i < f.len() ==> share_threshold(#[trigger] f[i]) == share_threshold(f[0])
    &&& f.len() >= share_threshold(f[0])
    &&& forall|i: int, j: int|
        0 <= i < f.len() && 0 <= j < f.len() && i != j ==> share_index(#[trigger] f[i]) != share_index(
            #[trigger] f[j],
        )
}

/// The product, over the first `k` positions other than `j`, of
/// `x_k / (x_k - x_j)`: the Lagrange basis polynomial of `x_j` at zero.
pub open spec fn basis_at_zero(xs: Seq<nat>, j: int, k: nat) -> nat
    decreases k,
{
    if k == 0 {
        1
    } else {
        let b = basis_at_zero(xs, j, (k - 1) as nat);
        if k - 1 == j {
            b
        } else {
            fmul(b, fmul(xs[k - 1], finv(fsub(xs[k - 1], xs[j]))))
        }
    }
}

/// The sum over the first `t` points of `y_j` times the basis of `x_j` at
/// zero: the value at zero of the polynomial through the points.
pub open spec fn lagrange_at_zero(xs: Seq<nat>, ys: Seq<nat>, t: nat) -> nat
    decreases t,
{
    if t == 0 {
        0
    } else {
        fadd(
            lagrange_at_zero(xs, ys, (t - 1) as nat),
            fmul(ys[t - 1], basis_at_zero(xs, t - 1, xs.len())),
        )
    }
}

/// The indices of fragments.
pub open spec fn share_indices(f: Seq<PrivateKey>) -> Seq<nat> {
    f.map_values(|k: PrivateKey| share_index(k))
}

/// The scalar values of keys.
pub open spec fn share_values(f: Seq<PrivateKey>) -> Seq<nat> {
    f.map_values(|k: PrivateKey| k.scalar.value())
}

/// The field inverse is unique.
pub proof fn lemma_inverse_unique(a: nat, r: nat)
    requires
        inverts(r, a),
    ensures
        finv(a) == r,
{
    let q = field_order() as int;
    let c = finv(a);
    assert(inverts(c, a));
    lemma_mul_mod_noop_right(r as int, (c * a) as int, q);
    lemma_mul_mod_noop_right(c as int, (r * a) as int, q);
    assert((r as int) * ((c * a) as int) == (c as int) * ((r * a) as int)) by (nonlinear_arith);
    lemma_small_mod(r, field_order());
    lemma_small_mod(c, field_order());
}

/// The difference of two distinct indices is non-zero in the field.
proof fn lemma_distinct_indices(a: u64, b: u64)
    requires
        a != b,
    ensures
        fsub(a as nat, b as nat) != 0,
{
    let d = a as int - b as int;
    let q = field_order() as int;
    assert(-q < d < q && d != 0);
    if d > 0 {
        assert(d % q == d);
    } else {
        assert(d % q == d + q);
    }
}

/// The Lagrange basis of the fragment at `j`, evaluated at zero.
fn basis(fragments: &[PrivateKey], j: usize) -> (r: Scalar)
    requires
        j < fragments@.len(),
        all_fragments(fragments@),
        forall|i: int, k: int|
            0 <= i < fragments@.len() && 0 <= k < fragments@.len() && i != k ==> share_index(
                #[trigger] fragments@[i],
            ) != share_index(#[trigger] fragments@[k]),
    ensures
        r.wf(),
        r.value() == basis_at_zero(share_indices(fragments@), j as int, fragments@.len()),
{
    let ghost xs = share_indices(fragments@);
    let xj = match fragments[j].kind {
        KeyKind::Fragment { index, .. } => index,
        KeyKind::Full => 0,
    };
    let xj_s = Scalar::from_u64(xj);
    let mut b = Scalar::from_u64(1);
    let mut k: usize = 0;
    while k < fragments.len()
        invariant
            j < fragments@.len(),
            k <= fragments@.len(),
            all_fragments(fragments@),
            forall|i: int, l: int|
                0 <= i < fragments@.len() && 0 <= l < fragments@.len() && i != l ==> share_index(
                    #[trigger] fragments@[i],
                ) != share_index(#[trigger] fragments@[l]),
            xs == share_indices(fragments@),
            xj == xs[j as int],
            xj_s.wf(),
            xj_s.value() == xj,
            b.wf(),
            b.value() == basis_at_zero(xs, j as int, k as nat),
        decreases fragments@.len() - k,
    {
        if k != j {
            let xk = match fragments[k].kind {
                KeyKind::Fragment { index, .. } => index,
                KeyKind::Full => 0,
            };
            assert(all_fragments(fragments@) ==> fragments@[k as int].kind is Fragment);
            assert(xk == xs[k as int]);
            assert(share_index(fragments@[k as int]) != share_index(fragments@[j as int]));
            let xk_s = Scalar::from_u64(xk);
            let d = xk_s.sub(&xj_s);
            proof {
                lemma_distinct_indices(xk, xj);
            }
            let inv = d.invert();
            proof {
                lemma_inverse_unique(d.value(), inv.value());
            }
            let t = xk_s.mul(&inv);
            b = b.mul(&t);
        }
        k = k + 1;
    }
    b
}

impl PrivateKey {
    /// Recovers a full key from fragments of one split by Lagrange
    /// interpolation at zero. Fails with `NotASigningKey` where one of the
    /// keys is not a fragment, and with `InsufficientShares` where there are
    /// fewer fragments than the threshold, fragments of different splits, or
    /// a repeated index.
    pub fn recover(fragments: &[PrivateKey]) -> (r: Result<PrivateKey, KeyError>)
        requires
            forall|i: int| 0 <= i < fragments@.len() ==> (#[trigger] fragments@[i]).wf(),
        ensures
            r is Ok <==> (all_fragments(fragments@) && shares_sufficient(fragments@)),
            r matches Err(e) ==> e == (if all_fragments(fragments@) {
                KeyError::InsufficientShares
            } else {
                KeyError::NotASigningKey
            }),
            r matches Ok(k) ==> {
                &&& k.wf()
                &&& k.kind == KeyKind::Full
                &&& k.scalar.value() == lagrange_at_zero(
                    share_indices(fragments@),
                    share_values(fragments@),
                    fragments@.len(),
                )
            },
    {
        let t = fragments.len();
        let mut i: usize = 0;
        while i < t
            invariant
                t == fragments@.len(),
                i <= t,
                forall|l: int| 0 <= l < i ==> (#[trigger] fragments@[l]).kind is Fragment,
            decreases t - i,
        {
            if !fragments[i].is_fragment() {
                return Err(KeyError::NotASigningKey);
            }
            i = i + 1;
        }
        if t == 0 {
            return Err(KeyError::InsufficientShares);
        }
        let threshold = match fragments[0].kind {
            KeyKind::Fragment { threshold, .. } => threshold,
            KeyKind::Full => 0,
        };
        i = 0;
        while i < t
            invariant
                t == fragments@.len(),
                t > 0,
                i <= t,
                all_fragments(fragments@),
                threshold == share_threshold(fragments@[0]),
                forall|l: int| 0 <= l < i ==> share_threshold(#[trigger] fragments@[l]) == threshold,
                forall|l: int, m: int|
                    0 <= l < i && 0 <= m < t && l != m ==> share_index(#[trigger] fragments@[l])
                        != share_index(#[trigger] fragments@[m]),
            decreases t - i,
        {
            let (xi, ti) = match fragments[i].kind {
                KeyKind::Fragment { index, threshold } => (index, threshold),
                KeyKind::Full => (0, 0),
            };
            assert(fragments@[i as int].kind is Fragment);
            if ti != threshold {
                return Err(KeyError::InsufficientShares);
            }
            let mut k: usize = 0;
            while k < t
                invariant
                    t == fragments@.len(),
                    i < t,
                    k <= t,
                    all_fragments(fragments@),
                    xi == share_index(fragments@[i as int]),
                    forall|m: int| 0 <= m < k && m != i ==> share_index(fragments@[i as int]) != share_index(
                        #[trigger] fragments@[m],
                    ),
                decreases t - k,
            {
                let xk = match fragments[k].kind {
                    KeyKind::Fragment { index, .. } => index,
                    KeyKind::Full => 0,
                };
                assert(fragments@[k as int].kind is Fragment);
                if k != i && xk == xi {
                    assert(!shares_sufficient(fragments@));
                    return Err(KeyError::InsufficientShares);
                }
                k = k + 1;
            }
            i = i + 1;
        }
        if (t as u64) < threshold {
            return Err(KeyError::InsufficientShares);
        }
        let ghost xs = share_indices(fragments@);
        let ghost ys = share_values(fragments@);
        let mut acc = Scalar::zero();
        let mut j: usize = 0;
        while j < t
            invariant
                t == fragments@.len(),
                j <= t,
                all_fragments(fragments@),
                shares_sufficient(fragments@),
                forall|l: int| 0 <= l < t ==> (#[trigger] fragments@[l]).wf(),
                xs == share_indices(fragments@),
                ys == share_values(fragments@),
                acc.wf(),
                acc.value() == lagrange_at_zero(xs, ys, j as nat),
            decreases t - j,
        {
            let b = basis(fragments, j);
            assert(fragments@[j as int].wf());
            let term = fragments[j].scalar.mul(&b);
            acc = acc.add(&term);
            j = j + 1;
        }
        Ok(PrivateKey { scalar: acc, kind: KeyKind::Full })
    }
}

/// A split with threshold one puts the secret itself in every fragment, and
/// recovery from any one fragment gives the secret back.
pub proof fn lemma_threshold_one(s: nat, entropy: Seq<[u8; 64]>, x: nat)
    requires
        s < field_order(),
    ensures
        poly_eval(split_coefficients(s, entropy, 1), x) == s,
        lagrange_at_zero(seq![x], seq![poly_eval(split_coefficients(s, entropy, 1), x)], 1) == s,
{
    let c = split_coefficients(s, entropy, 1);
    assert(c =~= seq![s]);
    assert(c.drop_first() =~= Seq::<nat>::empty());
    assert(poly_eval(c.drop_first(), x) == 0);
    assert(fmul(x, 0) == 0);
    lemma_small_mod(s, field_order());
    assert(basis_at_zero(seq![x], 0, 0) == 1);
    assert(basis_at_zero(seq![x], 0, 1) == 1);
    assert(lagrange_at_zero(seq![x], seq![s], 0) == 0);
}

} // verus!
