//! secp256k1 secret keys held as validated bytes.
use vstd::prelude::*;
use crate::crypto::{
    derive_public_key, ecdsa_sign, secret_key_is_valid, spec_ecdsa_sign, spec_ecdsa_verify,
    spec_public_key, spec_secret_key_valid,
};

verus! {

/// A secp256k1 secret key: 32 bytes that the curve accepts as a scalar.
pub struct SecretKey {
    bytes: [u8; 32],
}

impl SecretKey {
    #[verifier::type_invariant]
    spec fn is_valid_key(self) -> bool {
        spec_secret_key_valid(self.bytes@)
    }

    /// The 32 secret bytes.
    pub closed spec fn spec_bytes(&self) -> Seq<u8> {
        self.bytes@
    }

    /// Reads a secret key from a byte slice; fails unless it holds exactly 32
    /// bytes forming a valid scalar.
    pub fn from_slice(data: &[u8]) -> (r: Result<SecretKey, String>)
        ensures
            r is Ok <==> (data@.len() == 32 && spec_secret_key_valid(data@)),
            r matches Ok(k) ==> k.spec_bytes() == data@,
    {
        if data.len() != 32 {
            return Err(String::from_str("secret key must be 32 bytes"));
        }
        let bytes = crate::bytes::read_array_32(data, 0);
        assert(bytes@ =~= data@);
        if !secret_key_is_valid(&bytes) {
            return Err(String::from_str("invalid secret key"));
        }
        Ok(SecretKey { bytes })
    }

    /// The 32 secret bytes.
    pub fn secret_bytes(&self) -> (r: [u8; 32])
        ensures
            r@ == self.spec_bytes(),
    {
        self.bytes
    }

    /// The 33-byte compressed public key of this secret key.
    pub fn public_key_bytes(&self) -> (r: [u8; 33])
        ensures
            r@ == spec_public_key(self.spec_bytes()),
    {
        proof {
            use_type_invariant(self);
        }
        derive_public_key(&self.bytes)
    }

    /// Signs a 32-byte digest; the signature verifies under this key's
    /// public key.
    pub fn sign_digest(&self, digest: &[u8; 32]) -> (r: [u8; 64])
        ensures
            r@ == spec_ecdsa_sign(self.spec_bytes(), digest@),
            spec_ecdsa_verify(digest@, r@, spec_public_key(self.spec_bytes())),
    {
        proof {
            use_type_invariant(self);
        }
        ecdsa_sign(&self.bytes, digest)
    }
}

impl Clone for SecretKey {
    fn clone(&self) -> (r: Self)
        ensures
            r.spec_bytes() == self.spec_bytes(),
    {
        proof {
            use_type_invariant(self);
        }
        SecretKey { bytes: self.bytes }
    }
}

} // verus!
