//! The participant's signing identity: raw signature key material plus the
//! numeric identifier of the signature algorithm it was generated under.
//!
//! Key generation itself is the cryptographic backend's job; these types
//! only carry the raw bytes, created once at identity-generation time and
//! immutable thereafter.

use vstd::prelude::*;
use crate::b64::{base64_of, base64_encode};

verus! {

/// A public signature key, as raw bytes.
pub struct SignaturePublicKey {
    value: Vec<u8>,
}

impl View for SignaturePublicKey {
    type V = Seq<u8>;

    closed spec fn view(&self) -> Seq<u8> {
        self.value@
    }
}

impl SignaturePublicKey {
    /// Wraps raw public key bytes.
    pub fn new(value: Vec<u8>) -> (r: Self)
        ensures
            r@ == value@,
    {
        SignaturePublicKey { value }
    }

    /// The raw bytes of the public key.
    pub fn value(&self) -> (r: &[u8])
        ensures
            r@ == self@,
    {
        self.value.as_slice()
    }
}

/// A signature key pair: private and public key bytes and the signature
/// algorithm identifier they were generated under.
pub struct SignatureKeyPair {
    private: Vec<u8>,
    public: Vec<u8>,
    signature_scheme: u16,
}

impl SignatureKeyPair {
    /// The private key bytes.
    pub closed spec fn private_spec(&self) -> Seq<u8> {
        self.private@
    }

    /// The public key bytes.
    pub closed spec fn public_spec(&self) -> Seq<u8> {
        self.public@
    }

    /// The signature algorithm identifier.
    pub closed spec fn scheme_spec(&self) -> u16 {
        self.signature_scheme
    }

    /// Builds a key pair from raw private and public key bytes and a
    /// signature algorithm identifier.
    pub fn from_raw(private: Vec<u8>, public: Vec<u8>, signature_scheme: u16) -> (r: Self)
        ensures
            r.private_spec() == private@,
            r.public_spec() == public@,
            r.scheme_spec() == signature_scheme,
    {
        SignatureKeyPair { private, public, signature_scheme }
    }

    /// The raw bytes of the private key.
    pub fn private_key_raw(&self) -> (r: &[u8])
        ensures
            r@ == self.private_spec(),
    {
        self.private.as_slice()
    }

    /// The raw bytes of the public key.
    pub fn public_key_raw(&self) -> (r: &[u8])
        ensures
            r@ == self.public_spec(),
    {
        self.public.as_slice()
    }

    /// The signature algorithm identifier of this key pair.
    pub fn signature_scheme(&self) -> (r: u16)
        ensures
            r == self.scheme_spec(),
    {
        self.signature_scheme
    }

    /// The public key, wrapped as a `SignaturePublicKey`.
    pub fn public_key(&self) -> (r: SignaturePublicKey)
        ensures
            r@ == self.public_spec(),
    {
        SignaturePublicKey::new(vstd::slice::slice_to_vec(self.public.as_slice()))
    }

    /// The public key in base64 text form.
    pub fn public_key_b64(&self) -> (r: String)
        requires
            self.public_spec().len() < usize::MAX / 2,
        ensures
            r@ == base64_of(self.public_spec()),
    {
        base64_encode(self.public.as_slice())
    }
}

} // verus!
