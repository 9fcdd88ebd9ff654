//! The control channel's frame format.
//!
//! A frame is the magic bytes, the ciphertext's length as four big-endian
//! bytes, a twelve-byte nonce and the ciphertext: the AES-256-GCM seal of
//! the zlib-compressed payload. Frames are self-delimiting, so a receiver
//! can cut them out of a byte stream one at a time.

use crate::buffer::{
    be32, buffer_advance, buffer_bytes, buffer_len, buffer_put_slice, buffer_put_u32,
    buffer_reserve, buffer_slice, buffer_split_to,
};
use crate::sealing::{
    aes_gcm_open, aes_gcm_seal, deflate, inflate, open, random_nonce, seal, sha256,
    sha256_digest, zlib_deflate, zlib_inflate, TAG_LEN,
};
use bytes::BytesMut;
use vstd::prelude::*;
use vstd::string::StringSliceAdditionalSpecFns;

verus! {

/// Magic, length and nonce: 4 + 4 + 12 bytes.
pub const HEADER_LEN: usize = 4 + 4 + 12;

/// The length of a nonce.
pub const NONCE_LEN: usize = 12;

/// An AES-256 key.
pub type Key = [u8; 32];

/// The four bytes every frame begins with.
pub open spec fn magic() -> Seq<u8> {
    seq![0x23u8, 0x33u8, 0x23u8, 0x33u8]
}

/// The number that four bytes spell, most significant first.
pub open spec fn read_be32(b: Seq<u8>) -> int
    recommends
        b.len() == 4,
{
    b[0] * 0x100_0000 + b[1] * 0x1_0000 + b[2] * 0x100 + b[3]
}

/// The frame that carries `sealed` under `nonce`.
pub open spec fn frame(nonce: Seq<u8>, sealed: Seq<u8>) -> Seq<u8> {
    magic() + be32(sealed.len() as u32) + nonce + sealed
}

/// The length of the frame that `b` begins with, as its length field gives
/// it.
pub open spec fn frame_len(b: Seq<u8>) -> int
    recommends
        b.len() >= 8,
{
    HEADER_LEN + read_be32(b.subrange(4, 8))
}

/// Whether `b` holds all the bytes of the frame it begins with.
pub open spec fn holds_frame(b: Seq<u8>) -> bool {
    b.len() >= HEADER_LEN && b.len() >= frame_len(b)
}

/// The payload of the frame that `b` begins with, or `None` where the magic
/// is wrong, the tag does not match or the plaintext is no zlib stream.
pub open spec fn frame_payload(b: Seq<u8>, key: Seq<u8>) -> Option<Seq<u8>>
    recommends
        holds_frame(b),
{
    if b.subrange(0, 4) != magic() {
        None
    } else {
        match aes_gcm_open(key, b.subrange(8, 20), b.subrange(20, frame_len(b))) {
            Some(plain) => zlib_inflate(plain),
            None => None,
        }
    }
}

/// Why no payload came out of a buffer.
#[derive(Debug, Clone, Copy, PartialEq, Eq, Structural)]
pub enum DecodeError {
    /// The buffer does not hold a whole frame yet.
    NotEnoughData,
    /// The buffer held a whole frame, and it is not a valid one.
    InvalidData,
}

/// What decoding the bytes `b` gives.
pub open spec fn decoded(b: Seq<u8>, key: Seq<u8>) -> Result<Seq<u8>, DecodeError> {
    if !holds_frame(b) {
        Err(DecodeError::NotEnoughData)
    } else {
        match frame_payload(b, key) {
            Some(p) => Ok(p),
            None => Err(DecodeError::InvalidData),
        }
    }
}

/// What decoding leaves of the bytes `b`: all of them where no whole frame
/// is there, else what follows the first frame.
pub open spec fn remainder(b: Seq<u8>) -> Seq<u8> {
    if holds_frame(b) {
        b.skip(frame_len(b))
    } else {
        b
    }
}

/// Whether `payload` can be framed and appended to a buffer that holds
/// `held` bytes: it compresses, the ciphertext's length fits the length
/// field, and the buffer's length stays within `usize`.
pub open spec fn encodable(payload: Seq<u8>, held: nat) -> bool {
    zlib_deflate(payload) matches Some(z) && z.len() + TAG_LEN <= u32::MAX && held + HEADER_LEN
        + z.len() + TAG_LEN <= usize::MAX
}

/// The frame that carries `payload` under `key` and `nonce`.
pub open spec fn encoded(payload: Seq<u8>, key: Seq<u8>, nonce: Seq<u8>) -> Seq<u8>
    recommends
        zlib_deflate(payload) is Some,
{
    frame(nonce, aes_gcm_seal(key, nonce, zlib_deflate(payload).unwrap()))
}

/// What `encode` does to a buffer's bytes when it draws `nonce`.
pub open spec fn encode_effect(
    before: Seq<u8>,
    after: Seq<u8>,
    payload: Seq<u8>,
    key: Seq<u8>,
    nonce: Seq<u8>,
    ok: bool,
) -> bool {
    &&& ok == encodable(payload, before.len())
    &&& ok ==> after == before + encoded(payload, key, nonce)
    &&& ok ==> forall|rest: Seq<u8>| #[trigger]
        decoded(encoded(payload, key, nonce) + rest, key) == Ok::<Seq<u8>, DecodeError>(payload)
    &&& ok ==> forall|rest: Seq<u8>| #[trigger]
        remainder(encoded(payload, key, nonce) + rest) == rest
    &&& !ok ==> after == before
}

/// Reading back the four bytes of `n` gives `n`.
pub proof fn lemma_be32_round_trip(n: u32)
    ensures
        be32(n).len() == 4,
        read_be32(be32(n)) == n,
{
    let b0 = n / 0x100_0000;
    let b1 = (n / 0x1_0000) % 0x100;
    let b2 = (n / 0x100) % 0x100;
    let b3 = n % 0x100;
    assert(b0 < 0x100 && b1 < 0x100 && b2 < 0x100 && b3 < 0x100 && n == b0 * 0x100_0000 + b1
        * 0x1_0000 + b2 * 0x100 + b3) by {
        let q = n / 0x100;
        let p = q / 0x100;
        assert(n == q * 0x100 + b3);
        assert(q == p * 0x100 + q % 0x100);
        assert(p == (p / 0x100) * 0x100 + p % 0x100);
        assert(p == n / 0x1_0000);
        assert(p / 0x100 == n / 0x100_0000);
    }
    let b = be32(n);
    assert(b[0] == b0 as u8);
    assert(b[1] == b1 as u8);
    assert(b[2] == b2 as u8);
    assert(b[3] == b3 as u8);
}

/// A frame followed by anything is cut out whole: its length field gives
/// its own length, what follows is left over, and its payload is what the
/// nonce and ciphertext in it open and expand to.
pub proof fn lemma_frame_is_cut_out(nonce: Seq<u8>, sealed: Seq<u8>, rest: Seq<u8>, key: Seq<u8>)
    requires
        nonce.len() == NONCE_LEN,
        sealed.len() <= u32::MAX,
    ensures
        frame(nonce, sealed).len() == HEADER_LEN + sealed.len(),
        holds_frame(frame(nonce, sealed) + rest),
        frame_len(frame(nonce, sealed) + rest) == frame(nonce, sealed).len(),
        remainder(frame(nonce, sealed) + rest) == rest,
        frame_payload(frame(nonce, sealed) + rest, key) == match aes_gcm_open(key, nonce, sealed) {
            Some(plain) => zlib_inflate(plain),
            None => None,
        },
{
    let f = frame(nonce, sealed);
    let b = f + rest;
    let n = sealed.len() as u32;
    lemma_be32_round_trip(n);
    assert(f.len() == 20 + sealed.len());
    assert(b.subrange(0, 4) =~= magic());
    assert(b.subrange(4, 8) =~= be32(n));
    assert(b.subrange(8, 20) =~= nonce);
    assert(frame_len(b) == 20 + sealed.len());
    assert(b.subrange(20, frame_len(b)) =~= sealed);
    assert(b.skip(frame_len(b)) =~= rest);
}

/// Concatenated frames come out in order: after the first is cut out, the
/// buffer begins with the second.
pub proof fn lemma_frames_in_order(
    nonce1: Seq<u8>,
    sealed1: Seq<u8>,
    nonce2: Seq<u8>,
    sealed2: Seq<u8>,
    rest: Seq<u8>,
    key: Seq<u8>,
)
    requires
        nonce1.len() == NONCE_LEN,
        nonce2.len() == NONCE_LEN,
        sealed1.len() <= u32::MAX,
        sealed2.len() <= u32::MAX,
    ensures
        ({
            let both = frame(nonce1, sealed1) + frame(nonce2, sealed2) + rest;
            &&& decoded(both, key) == decoded(frame(nonce1, sealed1), key)
            &&& remainder(both) == frame(nonce2, sealed2) + rest
            &&& decoded(remainder(both), key) == decoded(frame(nonce2, sealed2), key)
            &&& remainder(remainder(both)) == rest
        }),
{
    let f1 = frame(nonce1, sealed1);
    let f2 = frame(nonce2, sealed2);
    assert(f1 + f2 + rest =~= f1 + (f2 + rest));
    assert(f1 =~= f1 + Seq::<u8>::empty());
    assert(f2 =~= f2 + Seq::<u8>::empty());
    lemma_frame_is_cut_out(nonce1, sealed1, f2 + rest, key);
    lemma_frame_is_cut_out(nonce1, sealed1, Seq::<u8>::empty(), key);
    lemma_frame_is_cut_out(nonce2, sealed2, rest, key);
    lemma_frame_is_cut_out(nonce2, sealed2, Seq::<u8>::empty(), key);
}

/// A buffer that holds only the first `k` bytes of a frame, short of all of
/// them, holds no frame: decoding reports `NotEnoughData` and leaves every
/// byte in place.
pub proof fn lemma_partial_frame(nonce: Seq<u8>, sealed: Seq<u8>, k: int, key: Seq<u8>)
    requires
        nonce.len() == NONCE_LEN,
        sealed.len() <= u32::MAX,
        0 <= k < frame(nonce, sealed).len(),
    ensures
        decoded(frame(nonce, sealed).take(k), key) == Err::<Seq<u8>, DecodeError>(
            DecodeError::NotEnoughData,
        ),
        remainder(frame(nonce, sealed).take(k)) == frame(nonce, sealed).take(k),
{
    let f = frame(nonce, sealed);
    let p = f.take(k);
    let n = sealed.len() as u32;
    lemma_be32_round_trip(n);
    if k >= 20 {
        assert(p.subrange(4, 8) =~= be32(n));
        assert(frame_len(p) == 20 + sealed.len());
    }
}

/// A frame whose ciphertext opens to the compressed payload decodes to the
/// payload, whatever follows it.
pub proof fn lemma_round_trip(
    payload: Seq<u8>,
    compressed: Seq<u8>,
    sealed: Seq<u8>,
    key: Seq<u8>,
    nonce: Seq<u8>,
    rest: Seq<u8>,
)
    requires
        nonce.len() == NONCE_LEN,
        sealed.len() <= u32::MAX,
        zlib_inflate(compressed) == Some(payload),
        aes_gcm_open(key, nonce, sealed) == Some(compressed),
    ensures
        decoded(frame(nonce, sealed) + rest, key) == Ok::<Seq<u8>, DecodeError>(payload),
        remainder(frame(nonce, sealed) + rest) == rest,
{
    lemma_frame_is_cut_out(nonce, sealed, rest, key);
}

/// The key for a pre-shared secret: the SHA-256 digest of its UTF-8 bytes.
pub fn make_key(key: &str) -> (r: Key)
    ensures
        r@ == sha256_digest(key.spec_bytes()),
{
    sha256(key.as_bytes())
}

/// Appends the frame that carries `sealed` under `nonce`, or nothing where
/// the length field cannot hold the ciphertext's length or the buffer cannot
/// grow by the frame.
pub fn write_frame(buf: &mut BytesMut, nonce: &[u8; 12], sealed: &[u8]) -> (ok: bool)
    ensures
        ok == (sealed@.len() <= u32::MAX && buffer_bytes(*old(buf)).len() + HEADER_LEN
            + sealed@.len() <= usize::MAX),
        ok ==> buffer_bytes(*final(buf)) == buffer_bytes(*old(buf)) + frame(nonce@, sealed@),
        !ok ==> buffer_bytes(*final(buf)) == buffer_bytes(*old(buf)),
{
    let held = buffer_len(buf);
    let n = sealed.len();
    if n > u32::MAX as usize {
        return false;
    }
    if held > usize::MAX - HEADER_LEN || n > usize::MAX - HEADER_LEN - held {
        return false;
    }
    let magic_bytes: [u8; 4] = [0x23, 0x33, 0x23, 0x33];
    assert(magic_bytes@ =~= magic());
    buffer_reserve(buf, 4 + 4 + n);
    buffer_put_slice(buf, magic_bytes.as_slice());
    buffer_put_u32(buf, n as u32);
    buffer_put_slice(buf, nonce.as_slice());
    buffer_put_slice(buf, sealed);
    assert(buffer_bytes(*buf) =~= buffer_bytes(*old(buf)) + frame(nonce@, sealed@));
    true
}

/// Compresses and seals `t` under `key` and `nonce` and appends the frame to
/// `buf`. On failure nothing is appended. A frame that was appended decodes
/// to `t` again under `key`.
pub fn encode_with_nonce(t: &[u8], buf: &mut BytesMut, key: &Key, nonce: &[u8; 12]) -> (ok: bool)
    ensures
        encode_effect(buffer_bytes(*old(buf)), buffer_bytes(*final(buf)), t@, key@, nonce@, ok),
{
    let held = buffer_len(buf);
    let compressed = match deflate(t) {
        Some(z) => z,
        None => {
            return false;
        },
    };
    let n = compressed.len();
    if n > u32::MAX as usize - TAG_LEN {
        return false;
    }
    if held > usize::MAX - HEADER_LEN - TAG_LEN || n > usize::MAX - HEADER_LEN - TAG_LEN - held {
        return false;
    }
    let sealed = match seal(key, nonce, compressed.as_slice()) {
        Some(c) => c,
        None => {
            return false;
        },
    };
    let ok = write_frame(buf, nonce, sealed.as_slice());
    proof {
        let e = encoded(t@, key@, nonce@);
        assert(e == frame(nonce@, sealed@));
        assert forall|rest: Seq<u8>| #[trigger]
            decoded(e + rest, key@) == Ok::<Seq<u8>, DecodeError>(t@) by {
            lemma_round_trip(t@, compressed@, sealed@, key@, nonce@, rest);
        }
        assert forall|rest: Seq<u8>| #[trigger] remainder(e + rest) == rest by {
            lemma_round_trip(t@, compressed@, sealed@, key@, nonce@, rest);
        }
        assert(ok);
        assert(encodable(t@, buffer_bytes(*old(buf)).len()));
    }
    ok
}

/// Compresses and seals `t` under `key` and a fresh random nonce and appends
/// exactly one frame to `buf`; on failure nothing is appended. A frame that
/// was appended decodes to `t` again under `key`, whichever nonce was drawn.
pub fn encode(t: &[u8], buf: &mut BytesMut, key: &Key) -> (ok: bool)
    ensures
        exists|nonce: Seq<u8>|
            nonce.len() == NONCE_LEN && #[trigger] encode_effect(
                buffer_bytes(*old(buf)),
                buffer_bytes(*final(buf)),
                t@,
                key@,
                nonce,
                ok,
            ),
{
    let nonce = random_nonce();
    let ok = encode_with_nonce(t, buf, key, &nonce);
    assert(encode_effect(buffer_bytes(*old(buf)), buffer_bytes(*buf), t@, key@, nonce@, ok));
    ok
}

/// What a decoded payload is in contracts.
pub open spec fn payload_view(r: Result<Vec<u8>, DecodeError>) -> Result<Seq<u8>, DecodeError> {
    match r {
        Ok(v) => Ok(v@),
        Err(e) => Err(e),
    }
}

/// Cuts the first frame out of `buf` and returns its payload.
///
/// Where `buf` does not hold a whole frame, the result is `NotEnoughData`
/// and `buf` is left as it was. Otherwise exactly one frame is consumed, and
/// the result is `InvalidData` where the magic is wrong, the tag does not
/// match or the plaintext does not expand.
pub fn decode(buf: &mut BytesMut, key: &Key) -> (r: Result<Vec<u8>, DecodeError>)
    ensures
        payload_view(r) == decoded(buffer_bytes(*old(buf)), key@),
        buffer_bytes(*final(buf)) == remainder(buffer_bytes(*old(buf))),
{
    let held = buffer_len(buf);
    if held < HEADER_LEN {
        return Err(DecodeError::NotEnoughData);
    }
    let head = buffer_slice(buf);
    let magic_ok = head[0] == 0x23 && head[1] == 0x33 && head[2] == 0x23 && head[3] == 0x33;
    let len: u64 = head[4] as u64 * 0x100_0000 + head[5] as u64 * 0x1_0000 + head[6] as u64 * 0x100
        + head[7] as u64;
    let nonce: [u8; 12] = [
        head[8],
        head[9],
        head[10],
        head[11],
        head[12],
        head[13],
        head[14],
        head[15],
        head[16],
        head[17],
        head[18],
        head[19],
    ];
    proof {
        let b = buffer_bytes(*old(buf));
        assert(nonce@ =~= b.subrange(8, 20));
        assert(magic_ok == (b.subrange(0, 4) == magic())) by {
            if magic_ok {
                assert(b.subrange(0, 4) =~= magic());
            } else {
                assert(b.subrange(0, 4)[0] == b[0]);
                assert(b.subrange(0, 4)[1] == b[1]);
                assert(b.subrange(0, 4)[2] == b[2]);
                assert(b.subrange(0, 4)[3] == b[3]);
            }
        }
        assert(len == read_be32(b.subrange(4, 8)));
    }
    if (held as u64) < HEADER_LEN as u64 + len {
        return Err(DecodeError::NotEnoughData);
    }
    buffer_advance(buf, HEADER_LEN);
    let sealed = buffer_split_to(buf, len as usize);
    proof {
        let b = buffer_bytes(*old(buf));
        assert(buffer_bytes(sealed) =~= b.subrange(20, frame_len(b)));
        assert(buffer_bytes(*buf) =~= b.skip(frame_len(b)));
    }
    if !magic_ok {
        return Err(DecodeError::InvalidData);
    }
    let plain = match open(key, &nonce, buffer_slice(&sealed)) {
        Some(p) => p,
        None => {
            return Err(DecodeError::InvalidData);
        },
    };
    match inflate(plain.as_slice()) {
        Some(payload) => Ok(payload),
        None => Err(DecodeError::InvalidData),
    }
}

} // verus!
