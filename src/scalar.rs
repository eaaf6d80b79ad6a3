//! Elements of the BLS12-381 scalar field, kept as 32 little-endian bytes.
use vstd::prelude::*;
use crate::codec::encode_u64;

verus! {

/// The order of the BLS12-381 scalar field.
pub open spec fn field_order() -> nat {
    0x73eda753299d7d483339d80809a1d80553bda402fffe5bfeffffffff00000001nat
}

/// The integer that a little-endian byte string denotes.
pub open spec fn le_value(b: Seq<u8>) -> nat
    decreases b.len(),
{
    if b.len() == 0 {
        0
    } else {
        b[0] as nat + 256 * le_value(b.drop_first())
    }
}

/// A field element: its canonical little-endian encoding.
#[derive(Clone, Copy, Debug, PartialEq, Eq)]
pub struct Scalar {
    pub bytes: [u8; 32],
}

impl Scalar {
    /// The field element, as an integer below the field order.
    pub open spec fn value(self) -> nat {
        le_value(self.bytes@)
    }

    /// The encoding is canonical.
    pub open spec fn wf(self) -> bool {
        self.value() < field_order()
    }
}

/// Relies on bls12_381::Scalar::from_bytes, which accepts exactly the
/// little-endian encodings of integers below the field order.
#[verifier::external_body]
fn is_canonical(bytes: &[u8; 32]) -> (r: bool)
    ensures
        r == (le_value(bytes@) < field_order()),
{
    bool::from(bls12_381::Scalar::from_bytes(bytes).is_some())
}

impl Scalar {
    /// Decodes a field element; `None` where the bytes are not canonical.
    pub fn from_bytes(bytes: [u8; 32]) -> (r: Option<Scalar>)
        ensures
            r == (if le_value(bytes@) < field_order() {
                Some(Scalar { bytes })
            } else {
                None::<Scalar>
            }),
    {
        if is_canonical(&bytes) {
            Some(Scalar { bytes })
        } else {
            None
        }
    }
}


/// Relies on bls12_381::Scalar's `+`: addition modulo the field order.
#[verifier::external_body]
fn field_add(a: &Scalar, b: &Scalar) -> (r: Scalar)
    requires
        a.wf(),
        b.wf(),
    ensures
        r.value() == (a.value() + b.value()) % field_order(),
{
    let x = bls12_381::Scalar::from_bytes(&a.bytes).unwrap();
    let y = bls12_381::Scalar::from_bytes(&b.bytes).unwrap();
    Scalar { bytes: (x + y).to_bytes() }
}

/// Relies on bls12_381::Scalar's `-`: subtraction modulo the field order.
#[verifier::external_body]
fn field_sub(a: &Scalar, b: &Scalar) -> (r: Scalar)
    requires
        a.wf(),
        b.wf(),
    ensures
        r.value() == (a.value() - b.value()) % (field_order() as int),
{
    let x = bls12_381::Scalar::from_bytes(&a.bytes).unwrap();
    let y = bls12_381::Scalar::from_bytes(&b.bytes).unwrap();
    Scalar { bytes: (x - y).to_bytes() }
}

/// Relies on bls12_381::Scalar's `*`: multiplication modulo the field order.
#[verifier::external_body]
fn field_mul(a: &Scalar, b: &Scalar) -> (r: Scalar)
    requires
        a.wf(),
        b.wf(),
    ensures
        r.value() == (a.value() * b.value()) % field_order(),
{
    let x = bls12_381::Scalar::from_bytes(&a.bytes).unwrap();
    let y = bls12_381::Scalar::from_bytes(&b.bytes).unwrap();
    Scalar { bytes: (x * y).to_bytes() }
}

/// Relies on bls12_381::Scalar::invert: the multiplicative inverse of a
/// non-zero element.
#[verifier::external_body]
fn field_invert(a: &Scalar) -> (r: Scalar)
    requires
        a.wf(),
        a.value() != 0,
    ensures
        r.value() < field_order(),
        (r.value() * a.value()) % field_order() == 1,
{
    let x = bls12_381::Scalar::from_bytes(&a.bytes).unwrap();
    Scalar { bytes: x.invert().unwrap().to_bytes() }
}

/// Relies on bls12_381::Scalar::from_bytes_wide: a 512-bit little-endian
/// integer reduced modulo the field order.
#[verifier::external_body]
fn field_from_wide(bytes: &[u8; 64]) -> (r: Scalar)
    ensures
        r.value() == le_value(bytes@) % field_order(),
{
    Scalar { bytes: bls12_381::Scalar::from_bytes_wide(bytes).to_bytes() }
}

impl Scalar {
    /// The sum of two elements.
    pub fn add(&self, other: &Scalar) -> (r: Scalar)
        requires
            self.wf(),
            other.wf(),
        ensures
            r.wf(),
            r.value() == (self.value() + other.value()) % field_order(),
    {
        field_add(self, other)
    }

    /// The difference of two elements.
    pub fn sub(&self, other: &Scalar) -> (r: Scalar)
        requires
            self.wf(),
            other.wf(),
        ensures
            r.wf(),
            r.value() == (self.value() - other.value()) % (field_order() as int),
    {
        field_sub(self, other)
    }

    /// The product of two elements.
    pub fn mul(&self, other: &Scalar) -> (r: Scalar)
        requires
            self.wf(),
            other.wf(),
        ensures
            r.wf(),
            r.value() == (self.value() * other.value()) % field_order(),
    {
        field_mul(self, other)
    }

    /// The multiplicative inverse of a non-zero element.
    pub fn invert(&self) -> (r: Scalar)
        requires
            self.wf(),
            self.value() != 0,
        ensures
            r.wf(),
            (r.value() * self.value()) % field_order() == 1,
    {
        field_invert(self)
    }

    /// The element equal to a machine integer.
    pub fn from_u64(x: u64) -> (r: Scalar)
        ensures
            r.wf(),
            r.value() == x,
    {
        let low = encode_u64(x);
        let mut bytes = [0u8; 32];
        let mut i: usize = 0;
        while i < 8
            invariant
                0 <= i <= 8,
                bytes@.len() == 32,
                low@.len() == 8,
                forall|j: int| 0 <= j < i ==> bytes@[j] == low@[j],
                forall|j: int| 8 <= j < 32 ==> bytes@[j] == 0,
            decreases 8 - i,
        {
            bytes.set(i, low[i]);
            i = i + 1;
        }
        proof {
            let tail = bytes@.subrange(8, 32);
            assert(bytes@ =~= low@ + tail);
            lemma_le_value_zero(tail);
            lemma_le_value_zero_tail(low@, tail);
        }
        Scalar { bytes }
    }

    /// The element that 64 bytes denote, reduced modulo the field order
    /// (uniform when the bytes are).
    pub fn from_bytes_wide(bytes: &[u8; 64]) -> (r: Scalar)
        ensures
            r.wf(),
            r.value() == le_value(bytes@) % field_order(),
    {
        field_from_wide(bytes)
    }

    /// The zero element.
    pub fn zero() -> (r: Scalar)
        ensures
            r.wf(),
            r.value() == 0,
    {
        Scalar::from_u64(0)
    }

    /// Tells whether the element is zero.
    pub fn is_zero(&self) -> (r: bool)
        ensures
            r == (self.value() == 0),
    {
        let mut i: usize = 0;
        while i < 32
            invariant
                0 <= i <= 32,
                forall|j: int| 0 <= j < i ==> self.bytes@[j] == 0,
            decreases 32 - i,
        {
            if self.bytes[i] != 0 {
                proof {
                    lemma_le_value_zero(self.bytes@);
                }
                return false;
            }
            i = i + 1;
        }
        proof {
            lemma_le_value_zero(self.bytes@);
        }
        true
    }
}

/// Zero bytes appended at the high end do not change the value.
pub proof fn lemma_le_value_zero_tail(s: Seq<u8>, tail: Seq<u8>)
    requires
        le_value(tail) == 0,
    ensures
        le_value(s + tail) == le_value(s),
    decreases s.len(),
{
    if s.len() == 0 {
        assert(s + tail =~= tail);
    } else {
        assert((s + tail).drop_first() =~= s.drop_first() + tail);
        lemma_le_value_zero_tail(s.drop_first(), tail);
    }
}

/// A byte string denotes zero exactly when every byte is zero.
pub proof fn lemma_le_value_zero(b: Seq<u8>)
    ensures
        (le_value(b) == 0) == (forall|j: int| 0 <= j < b.len() ==> b[j] == 0),
    decreases b.len(),
{
    if b.len() > 0 {
        lemma_le_value_zero(b.drop_first());
        if le_value(b) == 0 {
            assert forall|j: int| 0 <= j < b.len() implies b[j] == 0 by {
                if j > 0 {
                    assert(b[j] == b.drop_first()[j - 1]);
                }
            }
        }
        if forall|j: int| 0 <= j < b.len() ==> b[j] == 0 {
            assert forall|j: int| 0 <= j < b.drop_first().len() implies b.drop_first()[j] == 0 by {
                assert(b.drop_first()[j] == b[j + 1]);
            }
        }
    }
}

} // verus!
