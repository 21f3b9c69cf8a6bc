//! The frame codec: a length-prefixed, optionally AES-128-GCM-sealed record
//! carried on a QUIC stream.
//!
//! A frame is a 3-byte header — one `secure` flag byte and a little-endian
//! `u16` body length — followed by the body, and, when sealed, by a 12-byte
//! nonce after the body.

use vstd::prelude::*;
use vstd::slice::{slice_subrange, slice_to_vec};

use crate::crypto::{gcm128_open, gcm128_seal, generate_nonce, Aes128GcmCipher, NONCE_SIZE};

verus! {

/// The largest body a receiver accepts; a wire length is a `u16`, so every
/// frame that parses is below this bound.
pub const MAX_FRAME: usize = 65536;

#[derive(Debug, Clone, Copy, PartialEq, Eq, Structural)]
pub enum FrameError {
    /// The body would not fit the 16-bit length field.
    TooLarge,
    /// The buffer is not exactly one whole frame.
    Truncated,
    /// The frame is sealed but no cipher is configured.
    CipherMissing,
    /// The seal did not authenticate under the configured key.
    CipherMismatch,
}

/// The two length bytes of a frame header, least significant first.
pub open spec fn le16(n: nat) -> Seq<u8>
    recommends
        n <= 65535,
{
    seq![(n % 256) as u8, ((n / 256) % 256) as u8]
}

/// A plaintext frame: flag byte zero, length, body.
pub open spec fn frame_plain(body: Seq<u8>) -> Seq<u8> {
    seq![0u8] + le16(body.len()) + body
}

/// A sealed frame: flag byte one, length of the ciphertext, ciphertext
/// (tag included), nonce.
pub open spec fn frame_sealed(ct: Seq<u8>, nonce: Seq<u8>) -> Seq<u8> {
    seq![1u8] + le16(ct.len()) + ct + nonce
}

/// The key bytes of an optionally configured cipher.
pub open spec fn cipher_key(cipher: Option<Aes128GcmCipher>) -> Option<Seq<u8>> {
    match cipher {
        Option::None => None,
        Option::Some(c) => Some(c@),
    }
}

/// What decoding a buffer holding exactly one frame yields under an
/// optionally configured key. A plaintext frame is accepted whether or not
/// a key is configured; the sender's flag is authoritative.
pub open spec fn decode_spec(buf: Seq<u8>, key: Option<Seq<u8>>) -> Result<Seq<u8>, FrameError> {
    if buf.len() < 3 {
        Err(FrameError::Truncated)
    } else {
        let n = buf[1] as int + 256 * (buf[2] as int);
        if buf[0] == 0 {
            if buf.len() == 3 + n {
                Ok(buf.subrange(3, 3 + n))
            } else {
                Err(FrameError::Truncated)
            }
        } else {
            if buf.len() == 3 + n + NONCE_SIZE {
                match key {
                    None => Err(FrameError::CipherMissing),
                    Some(k) => match gcm128_open(
                        k,
                        buf.subrange(3 + n, 3 + n + NONCE_SIZE),
                        buf.subrange(3, 3 + n),
                    ) {
                        Some(p) => Ok(p),
                        None => Err(FrameError::CipherMismatch),
                    },
                }
            } else {
                Err(FrameError::Truncated)
            }
        }
    }
}

/// Encode one record as a frame: plaintext when no cipher is configured,
/// sealed under a fresh random nonce otherwise.
///
/// Decoding the resulting frame with the same cipher yields the record
/// back, whichever nonce was drawn.
pub fn encode(data: &[u8], cipher: &Option<Aes128GcmCipher>) -> (r: Result<Vec<u8>, FrameError>)
    requires
        cipher matches Some(c) ==> c.wf(),
    ensures
        cipher is None ==> (r is Ok <==> data@.len() <= 65535),
        cipher is Some ==> (r is Ok <==> data@.len() + 16 <= 65535),
        r matches Err(e) ==> e == FrameError::TooLarge,
        r matches Ok(f) ==> (cipher is None ==> f@ == frame_plain(data@)),
        r matches Ok(f) ==> (cipher_key(*cipher) matches Some(k) ==> exists|nonce: Seq<u8>|
            nonce.len() == NONCE_SIZE && f@ == frame_sealed(gcm128_seal(k, nonce, data@), nonce)),
        r matches Ok(f) ==> decode_spec(f@, cipher_key(*cipher)) == Ok::<Seq<u8>, FrameError>(
            data@,
        ),
{
    match cipher {
        None => {
            if data.len() > 65535 {
                return Err(FrameError::TooLarge);
            }
            let n = data.len();
            let mut buf: Vec<u8> = Vec::new();
            buf.push(0u8);
            buf.push((n % 256) as u8);
            buf.push((n / 256) as u8);
            buf.extend_from_slice(data);
            proof {
                assert((n / 256) % 256 == n / 256);
                assert(buf@ =~= frame_plain(data@));
                assert(decode_spec(buf@, cipher_key(*cipher)) == Ok::<Seq<u8>, FrameError>(data@))
                    by {
                    assert(buf@.len() == 3 + n);
                    assert(buf@[1] as int + 256 * (buf@[2] as int) == n);
                    assert(buf@.subrange(3, 3 + n as int) =~= data@);
                }
            }
            Ok(buf)
        },
        Some(c) => {
            if data.len() > 65535 - 16 {
                return Err(FrameError::TooLarge);
            }
            let nonce = generate_nonce();
            let ct = match c.encrypt(nonce.as_slice(), data) {
                Ok(ct) => ct,
                Err(_) => {
                    return Err(FrameError::TooLarge);
                },
            };
            let m = ct.len();
            let mut buf: Vec<u8> = Vec::new();
            buf.push(1u8);
            buf.push((m % 256) as u8);
            buf.push((m / 256) as u8);
            buf.extend_from_slice(ct.as_slice());
            buf.extend_from_slice(nonce.as_slice());
            proof {
                assert((m / 256) % 256 == m / 256);
                assert(buf@ =~= frame_sealed(ct@, nonce@));
                assert(decode_spec(buf@, cipher_key(*cipher)) == Ok::<Seq<u8>, FrameError>(data@))
                    by {
                    assert(buf@.len() == 3 + m + NONCE_SIZE);
                    assert(buf@[0] == 1u8);
                    assert(buf@[1] as int + 256 * (buf@[2] as int) == m);
                    assert(buf@.subrange(3, 3 + m as int) =~= ct@);
                    assert(buf@.subrange(3 + m as int, 3 + m as int + NONCE_SIZE as int)
                        =~= nonce@);
                }
            }
            Ok(buf)
        },
    }
}

/// Decode a buffer holding exactly one frame, exactly as `decode_spec`
/// describes it.
pub fn decode(buf: &[u8], cipher: &Option<Aes128GcmCipher>) -> (r: Result<Vec<u8>, FrameError>)
    requires
        cipher matches Some(c) ==> c.wf(),
    ensures
        r is Ok <==> decode_spec(buf@, cipher_key(*cipher)) is Ok,
        r matches Ok(v) ==> decode_spec(buf@, cipher_key(*cipher)) matches Ok(p) && v@ == p,
        r matches Err(e) ==> decode_spec(buf@, cipher_key(*cipher)) matches Err(e2) && e == e2,
{
    if buf.len() < 3 {
        return Err(FrameError::Truncated);
    }
    let secure = buf[0];
    let n: usize = buf[1] as usize + 256 * (buf[2] as usize);
    if secure == 0 {
        if buf.len() == 3 + n {
            let body = slice_subrange(buf, 3, 3 + n);
            Ok(slice_to_vec(body))
        } else {
            Err(FrameError::Truncated)
        }
    } else {
        if buf.len() == 3 + n + NONCE_SIZE {
            match cipher {
                None => Err(FrameError::CipherMissing),
                Some(c) => {
                    let ct = slice_subrange(buf, 3, 3 + n);
                    let nonce = slice_subrange(buf, 3 + n, 3 + n + NONCE_SIZE);
                    match c.decrypt(nonce, ct) {
                        Ok(p) => Ok(p),
                        Err(_) => Err(FrameError::CipherMismatch),
                    }
                },
            }
        } else {
            Err(FrameError::Truncated)
        }
    }
}

/// The parsed 3-byte header of a frame, from which a stream reader learns
/// how many bytes follow.
#[derive(Debug, Clone, Copy, PartialEq, Eq, Structural)]
pub struct FrameHeader {
    pub secure: bool,
    pub body_len: u16,
}

impl FrameHeader {
    /// How many bytes follow the header: the body, plus the nonce when the
    /// frame is sealed.
    pub fn tail_len(&self) -> (r: usize)
        ensures
            self.secure ==> r == self.body_len + NONCE_SIZE,
            !self.secure ==> r == self.body_len,
    {
        if self.secure {
            self.body_len as usize + NONCE_SIZE
        } else {
            self.body_len as usize
        }
    }
}

/// Parse the 3-byte header. The body length is a `u16`, so it is always
/// below `MAX_FRAME` and fits the receiver's buffer.
pub fn parse_header(h: &[u8]) -> (fh: FrameHeader)
    requires
        h@.len() == 3,
    ensures
        fh.secure == (h@[0] != 0),
        fh.body_len as int == h@[1] as int + 256 * (h@[2] as int),
        (fh.body_len as int) < MAX_FRAME,
{
    FrameHeader { secure: h[0] != 0, body_len: h[1] as u16 + 256 * (h[2] as u16) }
}

} // verus!
