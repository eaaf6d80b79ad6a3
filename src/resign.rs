//! Proxy re-signature: Alice hands a proxy a re-signing key that turns her
//! signatures into signatures under a key designated by Bob.
//!
//! Both parties reach the same scalar `d`, the hash of their Diffie-Hellman
//! point `a·B = b·A`. Bob's designated key is `d`; Alice's re-signing key is
//! `d / a`, so that re-signing `a·M` gives `d·M`.
use vstd::prelude::*;
use crate::curve::{g1_decodes, g1_mul, g1_times, g2_mul, g2_times, sha512, sha512_of};
use crate::keys::{KeyError, KeyKind, PrivateKey, PublicKey, Signature};
use crate::scalar::{field_order, le_value, Scalar};
use crate::threshold::{finv, fmul, lemma_inverse_unique};

verus! {

/// The scalar that the holder of scalar `s` shares with the holder of the
/// public key `p`.
pub open spec fn shared_scalar(s: nat, p: Seq<u8>) -> nat {
    le_value(sha512_of(g1_mul(p, s))) % field_order()
}

/// The scalar shared between `s` and the public key `p`.
fn shared(s: &Scalar, p: &PublicKey) -> (r: Scalar)
    requires
        s.wf(),
        p.wf(),
    ensures
        r.wf(),
        r.value() == shared_scalar(s.value(), p.bytes@),
{
    let point = g1_times(&p.bytes, s);
    let digest = sha512(&point);
    Scalar::from_bytes_wide(&digest)
}

impl PrivateKey {
    /// Alice's re-signing key towards Bob, given Bob's own public key (not
    /// his designated one): the shared scalar divided by Alice's scalar.
    pub fn resigning_key(&self, bob_pubkey: &PublicKey) -> (r: Result<PrivateKey, KeyError>)
        requires
            self.wf(),
        ensures
            r is Ok <==> (self.kind is Full && self.scalar.value() != 0 && bob_pubkey.wf()),
            r matches Err(e) ==> e == (if self.kind is Full && self.scalar.value() != 0 {
                KeyError::MalformedInput
            } else {
                KeyError::NotASigningKey
            }),
            r matches Ok(k) ==> {
                &&& k.wf()
                &&& k.kind == KeyKind::Full
                &&& k.scalar.value() == fmul(
                    shared_scalar(self.scalar.value(), bob_pubkey.bytes@),
                    finv(self.scalar.value()),
                )
            },
    {
        if self.is_fragment() || self.scalar.is_zero() {
            return Err(KeyError::NotASigningKey);
        }
        if !g1_decodes(&bob_pubkey.bytes) {
            return Err(KeyError::MalformedInput);
        }
        let d = shared(&self.scalar, bob_pubkey);
        let inv = self.scalar.invert();
        proof {
            lemma_inverse_unique(self.scalar.value(), inv.value());
        }
        Ok(PrivateKey { scalar: d.mul(&inv), kind: KeyKind::Full })
    }

    /// Bob's designated key towards Alice, whose public key is given: the
    /// shared scalar. Its public key verifies what Alice's proxy re-signs.
    pub fn designated_key(&self, alice_pubkey: &PublicKey) -> (r: Result<PrivateKey, KeyError>)
        requires
            self.wf(),
        ensures
            r is Ok <==> (self.kind is Full && alice_pubkey.wf()),
            r matches Err(e) ==> e == (if self.kind is Full {
                KeyError::MalformedInput
            } else {
                KeyError::NotASigningKey
            }),
            r matches Ok(k) ==> {
                &&& k.wf()
                &&& k.kind == KeyKind::Full
                &&& k.scalar.value() == shared_scalar(self.scalar.value(), alice_pubkey.bytes@)
            },
    {
        if self.is_fragment() {
            return Err(KeyError::NotASigningKey);
        }
        if !g1_decodes(&alice_pubkey.bytes) {
            return Err(KeyError::MalformedInput);
        }
        Ok(PrivateKey { scalar: shared(&self.scalar, alice_pubkey), kind: KeyKind::Full })
    }

    /// The signature point multiplied by this key's scalar, with no check
    /// that the signature verifies.
    fn transform(&self, signature: &Signature) -> (r: Result<Signature, KeyError>)
        requires
            self.wf(),
            signature.wf(),
        ensures
            r is Ok <==> self.kind is Full,
            r matches Err(e) ==> e == KeyError::NotASigningKey,
            r matches Ok(s) ==> s.wf() && s.bytes@ == g2_mul(signature.bytes@, self.scalar.value()),
    {
        if self.is_fragment() {
            return Err(KeyError::NotASigningKey);
        }
        Ok(Signature { bytes: g2_times(&signature.bytes, &self.scalar) })
    }

    /// Re-signs Alice's signature of a message point with this re-signing
    /// key. The signature is first checked against Alice's public key and
    /// the message; one that does not verify is refused with the error that
    /// verification gives (`InvalidSignature`, or `MalformedInput` for a bad
    /// point), so forged material is never moved to a new identity.
    pub fn resign(&self, alice_pubkey: &PublicKey, message: &[u8], signature: &Signature) -> (r: Result<
        Signature,
        KeyError,
    >)
        requires
            self.wf(),
        ensures
            alice_pubkey.verify_spec(message@, *signature) matches Err(e) ==> r == Err::<Signature, KeyError>(e),
            alice_pubkey.verify_spec(message@, *signature) is Ok ==> {
                &&& r is Ok <==> self.kind is Full
                &&& r matches Err(e) ==> e == KeyError::NotASigningKey
                &&& r matches Ok(s) ==> s.wf() && s.bytes@ == g2_mul(signature.bytes@, self.scalar.value())
            },
    {
        match alice_pubkey.verify(message, signature) {
            Err(e) => Err(e),
            Ok(_) => self.transform(signature),
        }
    }
}

} // verus!
