//! Private keys, public keys and signatures, and their fixed-width encodings.
use vstd::prelude::*;
use vstd::slice::slice_to_vec;
use crate::codec::{decode_u64, encode_u64, take_bytes};
use crate::curve::{
    g1_base_mul, g1_base_times, g1_decodes, g1_valid, g2_decodes, g2_mul, g2_times, g2_valid,
    g1_generator, pairing_eq, pairings_equal,
};
use crate::scalar::{field_order, le_value, Scalar};

verus! {

broadcast use vstd::array::group_array_axioms;

/// Width of an encoded full private key.
pub const FULL_KEY_BYTES: usize = 32;

/// Width of an encoded key fragment: scalar, index, threshold, zero padding.
pub const FRAGMENT_BYTES: usize = 64;

/// Width of an encoded public key.
pub const PUBLIC_KEY_BYTES: usize = 48;

/// Width of an encoded signature, and of a message point.
pub const SIGNATURE_BYTES: usize = 96;

/// What can go wrong with a key operation.
#[derive(Clone, Copy, Debug, PartialEq, Eq, Structural)]
pub enum KeyError {
    /// The pairing check failed.
    InvalidSignature,
    /// A buffer has the wrong width or does not encode a valid value.
    MalformedInput,
    /// The key is of the wrong variant for the operation.
    NotASigningKey,
    /// A split was asked for with a threshold outside `1..=n`.
    InvalidThresholdParameters,
    /// Too few fragments, fragments of different splits, or a repeated index.
    InsufficientShares,
}

/// Whether a private key signs on its own or is one share of a split key.
#[derive(Clone, Copy, Debug, PartialEq, Eq, Structural)]
pub enum KeyKind {
    /// A signing key.
    Full,
    /// The share at `index` of a key split with threshold `threshold`.
    Fragment { index: u64, threshold: u64 },
}

/// A private key: a scalar, either a signing key or a share of one.
#[derive(Clone, Copy, Debug, PartialEq, Eq)]
pub struct PrivateKey {
    pub scalar: Scalar,
    pub kind: KeyKind,
}

/// A public key: the compressed encoding of a point of G1.
#[derive(Clone, Copy, Debug, PartialEq, Eq)]
pub struct PublicKey {
    pub bytes: [u8; 48],
}

/// A signature: the compressed encoding of a point of G2.
#[derive(Clone, Copy, Debug, PartialEq, Eq)]
pub struct Signature {
    pub bytes: [u8; 96],
}

/// The bytes from `lo` to `hi` are all zero.
pub open spec fn zeros_between(b: Seq<u8>, lo: int, hi: int) -> bool {
    forall|i: int| lo <= i < hi ==> b[i] == 0
}

/// The bytes are the encoding of some private key.
pub open spec fn private_key_decodable(b: Seq<u8>) -> bool {
    (b.len() == FULL_KEY_BYTES && le_value(b) < field_order()) || (b.len() == FRAGMENT_BYTES
        && le_value(b.subrange(0, 32)) < field_order() && le_value(b.subrange(32, 40)) >= 1
        && le_value(b.subrange(40, 48)) >= 1 && zeros_between(b, 48, 64))
}

impl PrivateKey {
    /// The scalar is canonical and a fragment has a non-zero index and threshold.
    pub open spec fn wf(self) -> bool {
        &&& self.scalar.wf()
        &&& match self.kind {
            KeyKind::Full => true,
            KeyKind::Fragment { index, threshold } => index >= 1 && threshold >= 1,
        }
    }

    /// `b` is the encoding of this key.
    pub open spec fn encodes(self, b: Seq<u8>) -> bool {
        match self.kind {
            KeyKind::Full => b == self.scalar.bytes@,
            KeyKind::Fragment { index, threshold } => {
                &&& b.len() == FRAGMENT_BYTES
                &&& b.subrange(0, 32) == self.scalar.bytes@
                &&& le_value(b.subrange(32, 40)) == index
                &&& le_value(b.subrange(40, 48)) == threshold
                &&& zeros_between(b, 48, 64)
            },
        }
    }

    /// Tells whether the key is well formed: a canonical scalar and, for a
    /// fragment, a non-zero index and threshold.
    pub fn is_well_formed(&self) -> (r: bool)
        ensures
            r == self.wf(),
    {
        let canonical = match Scalar::from_bytes(self.scalar.bytes) {
            Some(_) => true,
            None => false,
        };
        canonical && match self.kind {
            KeyKind::Full => true,
            KeyKind::Fragment { index, threshold } => index >= 1 && threshold >= 1,
        }
    }

    /// Tells whether the key is a fragment of a split key.
    pub fn is_fragment(&self) -> (r: bool)
        ensures
            r == (self.kind is Fragment),
    {
        match self.kind {
            KeyKind::Full => false,
            KeyKind::Fragment { .. } => true,
        }
    }

    /// The encoding: 32 bytes for a full key, 64 for a fragment.
    pub fn to_bytes(&self) -> (r: Vec<u8>)
        ensures
            self.encodes(r@),
            r@.len() == (if self.kind is Full { FULL_KEY_BYTES } else { FRAGMENT_BYTES }),
    {
        let mut r = slice_to_vec(self.scalar.bytes.as_slice());
        match self.kind {
            KeyKind::Full => {},
            KeyKind::Fragment { index, threshold } => {
                let i = encode_u64(index);
                let t = encode_u64(threshold);
                let mut k: usize = 0;
                while k < 8
                    invariant
                        0 <= k <= 8,
                        r@.len() == 32 + k,
                        r@.subrange(0, 32) == self.scalar.bytes@,
                        r@.subrange(32, 32 + k as int) == i@.subrange(0, k as int),
                    decreases 8 - k,
                {
                    r.push(i[k]);
                    assert(r@.subrange(32, 33 + k as int) =~= i@.subrange(0, k + 1));
                    assert(r@.subrange(0, 32) =~= self.scalar.bytes@);
                    k = k + 1;
                }
                assert(i@.subrange(0, 8) =~= i@);
                k = 0;
                while k < 8
                    invariant
                        0 <= k <= 8,
                        r@.len() == 40 + k,
                        r@.subrange(0, 32) == self.scalar.bytes@,
                        r@.subrange(32, 40) == i@,
                        r@.subrange(40, 40 + k as int) == t@.subrange(0, k as int),
                    decreases 8 - k,
                {
                    r.push(t[k]);
                    assert(r@.subrange(40, 41 + k as int) =~= t@.subrange(0, k + 1));
                    assert(r@.subrange(0, 32) =~= self.scalar.bytes@);
                    assert(r@.subrange(32, 40) =~= i@);
                    k = k + 1;
                }
                assert(t@.subrange(0, 8) =~= t@);
                k = 0;
                while k < 16
                    invariant
                        0 <= k <= 16,
                        r@.len() == 48 + k,
                        r@.subrange(0, 32) == self.scalar.bytes@,
                        r@.subrange(32, 40) == i@,
                        r@.subrange(40, 48) == t@,
                        zeros_between(r@, 48, 48 + k),
                    decreases 16 - k,
                {
                    r.push(0u8);
                    assert(r@.subrange(0, 32) =~= self.scalar.bytes@);
                    assert(r@.subrange(32, 40) =~= i@);
                    assert(r@.subrange(40, 48) =~= t@);
                    k = k + 1;
                }
            },
        }
        r
    }

    /// Decodes a private key: a full key from 32 bytes, a fragment from 64.
    pub fn from_bytes(b: &[u8]) -> (r: Result<PrivateKey, KeyError>)
        ensures
            r is Ok <==> private_key_decodable(b@),
            r matches Ok(k) ==> k.wf() && k.encodes(b@),
            r matches Err(e) ==> e == KeyError::MalformedInput,
    {
        let n = b.len();
        if n == FULL_KEY_BYTES {
            let bytes: [u8; 32] = take_bytes(b, 0);
            assert(b@.subrange(0, 32) =~= b@);
            match Scalar::from_bytes(bytes) {
                Some(scalar) => Ok(PrivateKey { scalar, kind: KeyKind::Full }),
                None => Err(KeyError::MalformedInput),
            }
        } else if n == FRAGMENT_BYTES {
            let bytes: [u8; 32] = take_bytes(b, 0);
            let index = decode_u64(b, 32);
            let threshold = decode_u64(b, 40);
            let mut k: usize = 48;
            while k < 64
                invariant
                    48 <= k <= 64,
                    n == b@.len(),
                    n == 64,
                    zeros_between(b@, 48, k as int),
                decreases 64 - k,
            {
                if b[k] != 0 {
                    return Err(KeyError::MalformedInput);
                }
                k = k + 1;
            }
            if index == 0 || threshold == 0 {
                return Err(KeyError::MalformedInput);
            }
            match Scalar::from_bytes(bytes) {
                Some(scalar) => Ok(PrivateKey { scalar, kind: KeyKind::Fragment { index, threshold } }),
                None => Err(KeyError::MalformedInput),
            }
        } else {
            Err(KeyError::MalformedInput)
        }
    }
}

/// The encoding of the public key of a full key with scalar `s`.
pub open spec fn public_key_spec(s: nat) -> Seq<u8> {
    g1_base_mul(s)
}

/// The encoding of the signature by scalar `s` of the message point `m`.
pub open spec fn signature_spec(s: nat, m: Seq<u8>) -> Seq<u8> {
    g2_mul(m, s)
}

impl PrivateKey {
    /// A full key whose scalar is drawn from 64 bytes of entropy.
    pub fn random(entropy: &[u8; 64]) -> (r: PrivateKey)
        ensures
            r.wf(),
            r.kind == KeyKind::Full,
            r.scalar.value() == le_value(entropy@) % field_order(),
    {
        PrivateKey { scalar: Scalar::from_bytes_wide(entropy), kind: KeyKind::Full }
    }

    /// The public key of a full key; a fragment has none.
    pub fn public_key(&self) -> (r: Result<PublicKey, KeyError>)
        requires
            self.wf(),
        ensures
            r is Ok <==> self.kind is Full,
            r matches Ok(p) ==> p.wf() && p.bytes@ == public_key_spec(self.scalar.value()),
            r matches Err(e) ==> e == KeyError::NotASigningKey,
    {
        match self.kind {
            KeyKind::Full => Ok(PublicKey { bytes: g1_base_times(&self.scalar) }),
            KeyKind::Fragment { .. } => Err(KeyError::NotASigningKey),
        }
    }

    /// Signs a message point, given as its 96-byte compressed encoding.
    pub fn sign(&self, message: &[u8]) -> (r: Result<Signature, KeyError>)
        requires
            self.wf(),
        ensures
            r is Ok <==> (self.kind is Full && message@.len() == SIGNATURE_BYTES && g2_valid(message@)),
            r matches Ok(sig) ==> sig.wf() && sig.bytes@ == signature_spec(self.scalar.value(), message@),
            r matches Err(e) ==> e == (if self.kind is Full {
                KeyError::MalformedInput
            } else {
                KeyError::NotASigningKey
            }),
    {
        if self.is_fragment() {
            return Err(KeyError::NotASigningKey);
        }
        match decode_g2(message) {
            Some(m) => Ok(Signature { bytes: g2_times(&m, &self.scalar) }),
            None => Err(KeyError::MalformedInput),
        }
    }
}

/// Public keys and signatures depend on nothing but the scalar and the
/// message: keys with equal scalars give equal results.
pub proof fn lemma_determinism(k1: PrivateKey, k2: PrivateKey, m: Seq<u8>)
    requires
        k1.scalar == k2.scalar,
    ensures
        public_key_spec(k1.scalar.value()) == public_key_spec(k2.scalar.value()),
        signature_spec(k1.scalar.value(), m) == signature_spec(k2.scalar.value(), m),
{
}

impl PublicKey {
    /// The outcome of checking `sig` against message point `m`: `Ok(true)`
    /// when the pairing equation `e(G1 generator, sig) == e(self, m)` holds, `InvalidSignature` when it does not,
    /// and `MalformedInput` when the message or either point is not valid.
    pub open spec fn verify_spec(self, m: Seq<u8>, sig: Signature) -> Result<bool, KeyError> {
        if !(self.wf() && sig.wf() && m.len() == SIGNATURE_BYTES && g2_valid(m)) {
            Err(KeyError::MalformedInput)
        } else if pairing_eq(g1_base_mul(1), sig.bytes@, self.bytes@, m) {
            Ok(true)
        } else {
            Err(KeyError::InvalidSignature)
        }
    }

    /// Checks a signature of a message point, given as its 96-byte
    /// compressed encoding.
    pub fn verify(&self, message: &[u8], signature: &Signature) -> (r: Result<bool, KeyError>)
        ensures
            r == self.verify_spec(message@, *signature),
    {
        if !g1_decodes(&self.bytes) || !g2_decodes(&signature.bytes) {
            return Err(KeyError::MalformedInput);
        }
        match decode_g2(message) {
            Some(m) => {
                let g = g1_generator();
                if pairings_equal(&g, &signature.bytes, &self.bytes, &m) {
                    Ok(true)
                } else {
                    Err(KeyError::InvalidSignature)
                }
            },
            None => Err(KeyError::MalformedInput),
        }
    }

    /// The bytes encode a point of G1.
    pub open spec fn wf(self) -> bool {
        g1_valid(self.bytes@)
    }

    /// Decodes a public key from its 48-byte compressed encoding.
    pub fn from_bytes(b: &[u8]) -> (r: Result<PublicKey, KeyError>)
        ensures
            r is Ok <==> (b@.len() == PUBLIC_KEY_BYTES && g1_valid(b@)),
            r matches Ok(p) ==> p.bytes@ == b@,
            r matches Err(e) ==> e == KeyError::MalformedInput,
    {
        if b.len() != PUBLIC_KEY_BYTES {
            return Err(KeyError::MalformedInput);
        }
        let bytes: [u8; 48] = take_bytes(b, 0);
        assert(b@.subrange(0, 48) =~= b@);
        if g1_decodes(&bytes) {
            Ok(PublicKey { bytes })
        } else {
            Err(KeyError::MalformedInput)
        }
    }

    /// The 48-byte compressed encoding.
    pub fn to_bytes(&self) -> (r: Vec<u8>)
        ensures
            r@ == self.bytes@,
    {
        slice_to_vec(self.bytes.as_slice())
    }
}

impl Signature {
    /// The bytes encode a point of G2.
    pub open spec fn wf(self) -> bool {
        g2_valid(self.bytes@)
    }

    /// Decodes a signature from its 96-byte compressed encoding.
    pub fn from_bytes(b: &[u8]) -> (r: Result<Signature, KeyError>)
        ensures
            r is Ok <==> (b@.len() == SIGNATURE_BYTES && g2_valid(b@)),
            r matches Ok(s) ==> s.bytes@ == b@,
            r matches Err(e) ==> e == KeyError::MalformedInput,
    {
        match decode_g2(b) {
            Some(bytes) => Ok(Signature { bytes }),
            None => Err(KeyError::MalformedInput),
        }
    }

    /// The 96-byte compressed encoding.
    pub fn to_bytes(&self) -> (r: Vec<u8>)
        ensures
            r@ == self.bytes@,
    {
        slice_to_vec(self.bytes.as_slice())
    }
}

/// The bytes as a point of G2, where they are the 96-byte encoding of one.
pub fn decode_g2(b: &[u8]) -> (r: Option<[u8; 96]>)
    ensures
        r is Some <==> (b@.len() == SIGNATURE_BYTES && g2_valid(b@)),
        r matches Some(p) ==> p@ == b@,
{
    if b.len() != SIGNATURE_BYTES {
        return None;
    }
    let bytes: [u8; 96] = take_bytes(b, 0);
    assert(b@.subrange(0, 96) =~= b@);
    if g2_decodes(&bytes) {
        Some(bytes)
    } else {
        None
    }
}

/// Decoding the encoding of a private key gives that key back, and no
/// other key has the same encoding.
pub proof fn lemma_private_key_round_trip(k: PrivateKey, other: PrivateKey, b: Seq<u8>)
    requires
        k.wf(),
        k.encodes(b),
        other.encodes(b),
    ensures
        private_key_decodable(b),
        other == k,
{
    match k.kind {
        KeyKind::Full => {
            assert(b.len() == 32);
            match other.kind {
                KeyKind::Full => {
                    assert(other.scalar.bytes =~= k.scalar.bytes);
                },
                KeyKind::Fragment { .. } => {},
            }
        },
        KeyKind::Fragment { .. } => {
            match other.kind {
                KeyKind::Full => {
                    assert(b.len() == 32);
                },
                KeyKind::Fragment { .. } => {
                    assert(other.scalar.bytes =~= k.scalar.bytes);
                },
            }
        },
    }
}

/// Decoding the encoding of a public key gives that key back.
pub proof fn lemma_public_key_round_trip(p: PublicKey, other: PublicKey)
    requires
        p.wf(),
        other.bytes@ == p.bytes@,
    ensures
        p.bytes@.len() == PUBLIC_KEY_BYTES,
        other == p,
{
    assert(other.bytes =~= p.bytes);
}

/// Decoding the encoding of a signature gives that signature back.
pub proof fn lemma_signature_round_trip(s: Signature, other: Signature)
    requires
        s.wf(),
        other.bytes@ == s.bytes@,
    ensures
        s.bytes@.len() == SIGNATURE_BYTES,
        other == s,
{
    assert(other.bytes =~= s.bytes);
}

} // verus!
