//! Container decoder: key trials, framing, decompression.
//!
//! A container holds two independently zlib-compressed payloads. The buffer
//! may be plaintext or encrypted under one of two fixed key schedules; the
//! decoder tries plaintext first, then each schedule, and a trial is
//! rejected — sending the decoder on to the next key — only when byte 4 of
//! its buffer is not the zlib magic byte `0x78`. The accepted buffer is
//! framed as: a 4-byte little-endian content length, the content zlib
//! stream, and — located through a backward distance in the last 4 bytes,
//! then an absolute pointer — a 4-byte description length followed by the
//! description zlib stream. Every offset is bounds-checked; a bad pointer is
//! an error, never a panic.

use vstd::prelude::*;
use crate::crypto;

verus! {

/// Why decoding failed.
#[derive(Clone, Copy, Debug, PartialEq, Eq, Structural)]
pub enum DecodeError {
    /// Byte 4 of the trial buffer is not the zlib magic byte `0x78`
    /// (recoverable per trial: the next key is tried).
    InvalidMagic,
    /// A length, distance or pointer field resolves outside the buffer.
    FramingOutOfBounds,
    /// A zlib stream could not be decompressed.
    CorruptStream,
    /// A decompressed payload differs in length from its declared length.
    SizeMismatch,
}

/// What zlib inflation yields on a byte sequence: the decompressed bytes of
/// the zlib stream at its start (trailing bytes beyond the stream end are
/// ignored), or nothing when the stream is corrupt. A pure function of the
/// bytes alone.
pub uninterp spec fn spec_inflate(s: Seq<u8>) -> Option<Seq<u8>>;

/// Relies on flate2::read::ZlibDecoder (read to the end): decompresses the
/// zlib stream at the start of `data`, a deterministic function of the bytes
/// alone; yields an error exactly when the stream is corrupt.
#[verifier::external_body]
fn inflate(data: &[u8]) -> (r: Option<Vec<u8>>)
    ensures
        r is Some ==> spec_inflate(data@) == Some(r.unwrap()@),
        r is None ==> spec_inflate(data@) is None,
{
    let mut decoder = flate2::read::ZlibDecoder::new(data);
    let mut buffer = Vec::new();
    match std::io::Read::read_to_end(&mut decoder, &mut buffer) {
        Ok(_) => Some(buffer),
        Err(_) => None,
    }
}

/// The little-endian 32-bit integer at offset `i` of `s`.
pub open spec fn spec_le32(s: Seq<u8>, i: int) -> u32
    recommends
        0 <= i,
        i + 4 <= s.len(),
{
    vstd::bytes::spec_u32_from_le_bytes(s.subrange(i, i + 4))
}

/// Reads the little-endian 32-bit integer at offset `i`.
fn le32(p: &[u8], i: usize) -> (r: u32)
    requires
        i + 4 <= p@.len(),
    ensures
        r == spec_le32(p@, i as int),
{
    let n = p.len();
    assert(i + 4 <= n);
    vstd::bytes::u32_from_le_bytes(vstd::slice::slice_subrange(p, i, i + 4))
}

/// One framing trial on a candidate plaintext buffer `p`:
/// - `p[4]` must be the zlib magic byte, else the trial is rejected;
/// - the content stream `p[4..]` must inflate to exactly the length declared
///   at `p[0..4]`;
/// - the last 4 bytes hold a backward distance `off`; the 4 bytes ending
///   `off` bytes before the end hold an absolute pointer `ptr`; the
///   description stream `p[ptr+4 .. len-4]` must inflate to exactly the
///   length declared at `p[ptr..ptr+4]`;
/// - every read is bounds-checked in this order, and the first failure is
///   the trial's error.
pub open spec fn spec_frame(p: Seq<u8>) -> Result<(Seq<u8>, Seq<u8>), DecodeError> {
    let len = p.len() as int;
    if len < 5 {
        Err(DecodeError::FramingOutOfBounds)
    } else if p[4] != 0x78 {
        Err(DecodeError::InvalidMagic)
    } else {
        let clen = spec_le32(p, 0) as int;
        let content = spec_inflate(p.subrange(4, len));
        if content is None {
            Err(DecodeError::CorruptStream)
        } else if content.unwrap().len() != clen {
            Err(DecodeError::SizeMismatch)
        } else {
            let off = spec_le32(p, len - 4) as int;
            if off + 4 > len {
                Err(DecodeError::FramingOutOfBounds)
            } else {
                let ptr = spec_le32(p, len - off - 4) as int;
                if ptr + 4 > len {
                    Err(DecodeError::FramingOutOfBounds)
                } else {
                    let dlen = spec_le32(p, ptr) as int;
                    if ptr + 4 > len - 4 {
                        Err(DecodeError::FramingOutOfBounds)
                    } else {
                        let description = spec_inflate(p.subrange(ptr + 4, len - 4));
                        if description is None {
                            Err(DecodeError::CorruptStream)
                        } else if description.unwrap().len() != dlen {
                            Err(DecodeError::SizeMismatch)
                        } else {
                            Ok((content.unwrap(), description.unwrap()))
                        }
                    }
                }
            }
        }
    }
}

/// Whether a trial's outcome sends the decoder on to the next key: only a
/// failed magic check does; any other failure is fatal for the whole
/// decode.
pub open spec fn spec_trial_rejected(r: Result<(Seq<u8>, Seq<u8>), DecodeError>) -> bool {
    r == Err::<(Seq<u8>, Seq<u8>), DecodeError>(DecodeError::InvalidMagic)
}

/// The whole decode: the trials run in fixed order — plaintext, first key
/// schedule, second key schedule. A trial rejected for its magic byte is
/// retried with the next key; any other outcome (success, or a framing or
/// decompression error) is the decode's result.
pub open spec fn spec_decode(raw: Seq<u8>) -> Result<(Seq<u8>, Seq<u8>), DecodeError> {
    let plain = spec_frame(raw);
    if !spec_trial_rejected(plain) {
        plain
    } else {
        let first = spec_frame(crypto::spec_decrypt(raw, crypto::FZ_EXPANDED_KEY@));
        if !spec_trial_rejected(first) {
            first
        } else {
            spec_frame(crypto::spec_decrypt(raw, crypto::CAE_EXPANDED_KEY@))
        }
    }
}

/// The decoder's trial order is fixed: a buffer not rejected for its magic
/// byte settles the decode as plaintext; otherwise the first key schedule
/// is tried; the second key schedule is reached only after both earlier
/// trials were rejected for their magic byte, and every outcome of the last
/// trial — the magic rejection included — is the decode's result.
pub proof fn lemma_decode_trial_order(raw: Seq<u8>)
    ensures
        !spec_trial_rejected(spec_frame(raw)) ==> spec_decode(raw) == spec_frame(raw),
        (spec_trial_rejected(spec_frame(raw)) && !spec_trial_rejected(
            spec_frame(crypto::spec_decrypt(raw, crypto::FZ_EXPANDED_KEY@)),
        )) ==> spec_decode(raw) == spec_frame(
            crypto::spec_decrypt(raw, crypto::FZ_EXPANDED_KEY@),
        ),
        (spec_trial_rejected(spec_frame(raw)) && spec_trial_rejected(
            spec_frame(crypto::spec_decrypt(raw, crypto::FZ_EXPANDED_KEY@)),
        )) ==> spec_decode(raw) == spec_frame(
            crypto::spec_decrypt(raw, crypto::CAE_EXPANDED_KEY@),
        ),
{
}

/// A synthetic container laid out per the documented framing: the declared
/// content length, the content stream, the declared description length, the
/// description stream, the absolute pointer slot (pointing back at the
/// description block), and the backward-distance trailer (distance 4: the
/// slot sits right before the trailer).
pub open spec fn spec_build_container(clen: u32, cs: Seq<u8>, dlen: u32, ds: Seq<u8>) -> Seq<u8> {
    vstd::bytes::spec_u32_to_le_bytes(clen) + cs + vstd::bytes::spec_u32_to_le_bytes(dlen) + ds
        + vstd::bytes::spec_u32_to_le_bytes((4 + cs.len()) as u32)
        + vstd::bytes::spec_u32_to_le_bytes(4u32)
}

/// The framing of a synthetic container resolves back to its parts: the
/// trailer distance leads to the pointer slot, the slot back to the
/// description block, and the two stream regions are exactly where the
/// layout put them (each followed by the trailing framing bytes, which a
/// zlib stream ignores past its own end).
pub proof fn lemma_container_layout(clen: u32, cs: Seq<u8>, dlen: u32, ds: Seq<u8>)
    requires
        1 <= cs.len(),
        16 + cs.len() + ds.len() <= u32::MAX,
    ensures
        ({
            let p = spec_build_container(clen, cs, dlen, ds);
            let len = p.len() as int;
            let ptr = 4 + cs.len() as int;
            &&& len == 16 + cs.len() + ds.len()
            &&& p[4] == cs[0]
            &&& spec_le32(p, 0) == clen
            &&& spec_le32(p, len - 4) == 4
            &&& spec_le32(p, len - 8) == ptr
            &&& spec_le32(p, ptr) == dlen
            &&& p.subrange(4, len) == cs + vstd::bytes::spec_u32_to_le_bytes(dlen) + ds
                + vstd::bytes::spec_u32_to_le_bytes((4 + cs.len()) as u32)
                + vstd::bytes::spec_u32_to_le_bytes(4u32)
            &&& p.subrange(ptr + 4, len - 4) == ds + vstd::bytes::spec_u32_to_le_bytes(
                (4 + cs.len()) as u32,
            )
        }),
{
    vstd::bytes::lemma_auto_spec_u32_to_from_le_bytes();
    let p = spec_build_container(clen, cs, dlen, ds);
    let len = p.len() as int;
    let ptr = 4 + cs.len() as int;
    assert(p.subrange(0, 4) =~= vstd::bytes::spec_u32_to_le_bytes(clen));
    assert(p.subrange(len - 4, len) =~= vstd::bytes::spec_u32_to_le_bytes(4u32));
    assert(p.subrange(len - 8, len - 4) =~= vstd::bytes::spec_u32_to_le_bytes(
        (4 + cs.len()) as u32,
    ));
    assert(p.subrange(ptr, ptr + 4) =~= vstd::bytes::spec_u32_to_le_bytes(dlen));
    assert(p.subrange(4, len) =~= cs + vstd::bytes::spec_u32_to_le_bytes(dlen) + ds
        + vstd::bytes::spec_u32_to_le_bytes((4 + cs.len()) as u32)
        + vstd::bytes::spec_u32_to_le_bytes(4u32));
    assert(p.subrange(ptr + 4, len - 4) =~= ds + vstd::bytes::spec_u32_to_le_bytes(
        (4 + cs.len()) as u32,
    ));
}

/// Framing round trip: a synthetic container built from a content stream
/// and a description stream decodes back to exactly the two blobs those
/// streams inflate to, when each inflates to its declared length.
pub proof fn lemma_framing_round_trip(
    clen: u32,
    cs: Seq<u8>,
    dlen: u32,
    ds: Seq<u8>,
    cb: Seq<u8>,
    db: Seq<u8>,
)
    requires
        1 <= cs.len(),
        cs[0] == 0x78,
        16 + cs.len() + ds.len() <= u32::MAX,
        spec_inflate(
            cs + vstd::bytes::spec_u32_to_le_bytes(dlen) + ds
                + vstd::bytes::spec_u32_to_le_bytes((4 + cs.len()) as u32)
                + vstd::bytes::spec_u32_to_le_bytes(4u32),
        ) == Some(cb),
        cb.len() == clen,
        spec_inflate(ds + vstd::bytes::spec_u32_to_le_bytes((4 + cs.len()) as u32)) == Some(db),
        db.len() == dlen,
    ensures
        spec_frame(spec_build_container(clen, cs, dlen, ds)) == Ok::<_, DecodeError>((cb, db)),
{
    lemma_container_layout(clen, cs, dlen, ds);
}

/// The two decompressed payloads of a container.
#[derive(Debug)]
pub struct DecodedPcbRepairFile {
    /// The decompressed content document (geometry records).
    pub content: Vec<u8>,
    /// The decompressed description document (board identity and
    /// bill-of-materials).
    pub description: Vec<u8>,
}

impl DecodedPcbRepairFile {
    /// Runs one framing trial on a candidate plaintext buffer, as
    /// [`spec_frame`] describes.
    fn try_frame(p: &[u8]) -> (r: Result<DecodedPcbRepairFile, DecodeError>)
        ensures
            match r {
                Ok(d) => spec_frame(p@) == Ok::<_, DecodeError>((d.content@, d.description@)),
                Err(e) => spec_frame(p@) == Err::<(Seq<u8>, Seq<u8>), _>(e),
            },
    {
        let len = p.len();
        if len < 5 {
            return Err(DecodeError::FramingOutOfBounds);
        }
        if p[4] != 0x78 {
            return Err(DecodeError::InvalidMagic);
        }
        let clen = le32(p, 0);
        let content = match inflate(vstd::slice::slice_subrange(p, 4, len)) {
            Some(c) => c,
            None => {
                return Err(DecodeError::CorruptStream);
            },
        };
        if content.len() as u64 != clen as u64 {
            return Err(DecodeError::SizeMismatch);
        }
        let off = le32(p, len - 4) as usize;
        if off > len - 4 {
            return Err(DecodeError::FramingOutOfBounds);
        }
        let ptr = le32(p, len - off - 4) as usize;
        if ptr > len - 4 {
            return Err(DecodeError::FramingOutOfBounds);
        }
        let dlen = le32(p, ptr);
        if len < 8 || ptr > len - 8 {
            return Err(DecodeError::FramingOutOfBounds);
        }
        let description = match inflate(vstd::slice::slice_subrange(p, ptr + 4, len - 4)) {
            Some(d) => d,
            None => {
                return Err(DecodeError::CorruptStream);
            },
        };
        if description.len() as u64 != dlen as u64 {
            return Err(DecodeError::SizeMismatch);
        }
        Ok(DecodedPcbRepairFile { content, description })
    }

    /// Decodes a raw container: tries the buffer as plaintext, then
    /// decrypted under each of the two fixed key schedules, in that order.
    /// A trial rejected for its magic byte is retried with the next key;
    /// any other outcome settles the decode, exactly as [`spec_decode`]
    /// describes.
    pub fn from_bytes(raw: &[u8]) -> (r: Result<DecodedPcbRepairFile, DecodeError>)
        ensures
            match r {
                Ok(d) => spec_decode(raw@) == Ok::<_, DecodeError>((d.content@, d.description@)),
                Err(e) => spec_decode(raw@) == Err::<(Seq<u8>, Seq<u8>), _>(e),
            },
    {
        match Self::try_frame(raw) {
            Ok(d) => {
                return Ok(d);
            },
            Err(DecodeError::InvalidMagic) => {},
            Err(e) => {
                return Err(e);
            },
        }
        let first = crypto::decrypt(raw, &crypto::FZ_EXPANDED_KEY);
        match Self::try_frame(first.as_slice()) {
            Ok(d) => {
                return Ok(d);
            },
            Err(DecodeError::InvalidMagic) => {},
            Err(e) => {
                return Err(e);
            },
        }
        let second = crypto::decrypt(raw, &crypto::CAE_EXPANDED_KEY);
        Self::try_frame(second.as_slice())
    }
}

} // verus!
