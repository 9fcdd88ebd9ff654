//! The three outside transformations a frame goes through: SHA-256 for the
//! key, zlib for the payload and AES-256-GCM for the ciphertext.
//!
//! Nothing in this file is proved. Each function makes one call into an
//! outside crate; what that call returns has a name here, and the contract
//! says that the function returns exactly that.

use aes_gcm::aead::Aead;
use aes_gcm::{Aes256Gcm, KeyInit, Nonce};
use flate2::read::ZlibDecoder;
use flate2::write::ZlibEncoder;
use flate2::Compression;
use rand::Rng;
use sha2::{Digest, Sha256};
use std::io::{Read, Write};
use vstd::prelude::*;

verus! {

/// The length of an AES-GCM authentication tag.
pub const TAG_LEN: usize = 16;

/// The SHA-256 digest of `data`: 32 bytes.
pub uninterp spec fn sha256_digest(data: Seq<u8>) -> Seq<u8>;

/// The zlib stream that the compressor writes for `data` at its default
/// level, or `None` where it reports an error.
pub uninterp spec fn zlib_deflate(data: Seq<u8>) -> Option<Seq<u8>>;

/// The bytes that the zlib stream `data` expands to, or `None` where it is
/// no complete zlib stream.
pub uninterp spec fn zlib_inflate(data: Seq<u8>) -> Option<Seq<u8>>;

/// The AES-256-GCM ciphertext of `plain` under `key` and `nonce`, without
/// associated data, with the tag at its end.
pub uninterp spec fn aes_gcm_seal(key: Seq<u8>, nonce: Seq<u8>, plain: Seq<u8>) -> Seq<u8>;

/// The plaintext that `sealed` authenticates and decrypts to under `key` and
/// `nonce`, or `None` where the tag does not match.
pub uninterp spec fn aes_gcm_open(key: Seq<u8>, nonce: Seq<u8>, sealed: Seq<u8>) -> Option<
    Seq<u8>,
>;

/// `Sha256::digest`: hashes `data` in one call.
#[verifier::external_body]
pub(crate) fn sha256(data: &[u8]) -> (r: [u8; 32])
    ensures
        r@ == sha256_digest(data@),
{
    Sha256::digest(data).into()
}

/// `Rng::fill` on the thread's generator: twelve random bytes. Nothing is
/// known of them.
#[verifier::external_body]
pub(crate) fn random_nonce() -> [u8; 12] {
    let mut nonce = [0u8; 12];
    rand::thread_rng().fill(&mut nonce);
    nonce
}

/// `ZlibEncoder` at the default level over `data`, written in one piece and
/// finished. A stream that it produced expands to `data` again.
#[verifier::external_body]
pub(crate) fn deflate(data: &[u8]) -> (r: Option<Vec<u8>>)
    ensures
        r is Some == zlib_deflate(data@) is Some,
        r is Some ==> r.unwrap()@ == zlib_deflate(data@).unwrap(),
        r is Some ==> zlib_inflate(r.unwrap()@) == Some(data@),
{
    let mut e = ZlibEncoder::new(Vec::new(), Compression::default());
    match e.write_all(data) {
        Ok(()) => e.finish().ok(),
        Err(_) => None,
    }
}

/// `ZlibDecoder` over `data`, read to its end.
#[verifier::external_body]
pub(crate) fn inflate(data: &[u8]) -> (r: Option<Vec<u8>>)
    ensures
        r is Some == zlib_inflate(data@) is Some,
        r is Some ==> r.unwrap()@ == zlib_inflate(data@).unwrap(),
{
    let mut out = Vec::new();
    match ZlibDecoder::new(data).read_to_end(&mut out) {
        Ok(_) => Some(out),
        Err(_) => None,
    }
}

/// `Aead::encrypt` of `Aes256Gcm`: the ciphertext is the plaintext's length
/// plus the tag. The call fails only on a plaintext over 2^36 bytes, which
/// `requires` leaves out. What it sealed opens to `plain` again under the
/// same key and nonce.
#[verifier::external_body]
pub(crate) fn seal(key: &[u8; 32], nonce: &[u8; 12], plain: &[u8]) -> (r: Option<Vec<u8>>)
    requires
        plain@.len() + TAG_LEN <= u32::MAX,
    ensures
        r is Some,
        r.unwrap()@ == aes_gcm_seal(key@, nonce@, plain@),
        r.unwrap()@.len() == plain@.len() + TAG_LEN,
        aes_gcm_open(key@, nonce@, r.unwrap()@) == Some(plain@),
{
    Aes256Gcm::new(key.into()).encrypt(&Nonce::from(*nonce), plain).ok()
}

/// `Aead::decrypt` of `Aes256Gcm`: the plaintext where the tag matches.
#[verifier::external_body]
pub(crate) fn open(key: &[u8; 32], nonce: &[u8; 12], sealed: &[u8]) -> (r: Option<Vec<u8>>)
    ensures
        r is Some == aes_gcm_open(key@, nonce@, sealed@) is Some,
        r is Some ==> r.unwrap()@ == aes_gcm_open(key@, nonce@, sealed@).unwrap(),
{
    Aes256Gcm::new(key.into()).decrypt(&Nonce::from(*nonce), sealed).ok()
}

} // verus!
