//! Parsing of COSE signature envelopes.
//!
//! The crate's core is a CBOR decoder, in [`cbor`]: it turns a byte buffer
//! into a tree of typed values, and every function of it carries a contract
//! that says which tree (or which error) a buffer gives. The types at the
//! crate root name what the layers above the decoder speak of: the errors of
//! COSE handling and the signature algorithms.
use vstd::prelude::*;

pub mod cbor;

verus! {

/// Errors that can be returned from COSE functions.
#[derive(Debug, PartialEq, Eq, Structural, Clone, Copy)]
pub enum CoseError {
    DecodingFailure,
    LibraryFailure,
    MalformedInput,
    MissingHeader,
    UnexpectedHeaderValue,
    UnexpectedTag,
    UnexpectedType,
    Unimplemented,
    VerificationFailed,
    UnknownSignatureScheme,
    SigningFailed,
    InvalidArgument,
}

/// The signature algorithms a COSE envelope may name: ECDSA with SHA-256,
/// SHA-384 and SHA-512, and RSASSA-PSS with SHA-256 (salt length 32 bytes).
#[derive(Debug, PartialEq, Eq, Structural, Clone, Copy)]
pub enum SignatureAlgorithm {
    ES256,
    ES384,
    ES512,
    PS256,
}

/// What a signer brings: its certificate, its algorithm and its key.
#[derive(Debug)]
pub struct SignatureParameters<'a> {
    pub certificate: &'a [u8],
    pub algorithm: SignatureAlgorithm,
    pub pkcs8: &'a [u8],
}

/// One signature, with the parameters it was made under.
#[derive(Debug)]
pub struct Signature<'a> {
    pub parameter: &'a SignatureParameters<'a>,
    pub signature_bytes: Vec<u8>,
}

} // verus!
