use std::io::Write;

use flate2::Compression;
use flate2::write::ZlibEncoder;

use pcbrepair::crypto::CAE_EXPANDED_KEY;
use pcbrepair::crypto::FZ_EXPANDED_KEY;
use pcbrepair::crypto::decrypt;
use pcbrepair::crypto::encrypt;
use pcbrepair::decoder::DecodeError;
use pcbrepair::decoder::DecodedPcbRepairFile;

fn deflate(data: &[u8]) -> Vec<u8> {
    let mut encoder = ZlibEncoder::new(Vec::new(), Compression::default());
    encoder.write_all(data).unwrap();
    encoder.finish().unwrap()
}

/// Lays a container out per the documented framing: content length, content
/// stream, description length, description stream, pointer slot, trailer
/// (backward distance 4). `declared_content_len` normally equals the blob's
/// length; tests may skew it.
fn build_container(content_blob: &[u8], description_blob: &[u8], declared_content_len: u32) -> Vec<u8> {
    let cs = deflate(content_blob);
    let ds = deflate(description_blob);
    let ptr = (4 + cs.len()) as u32;
    let mut p = Vec::new();
    p.extend_from_slice(&declared_content_len.to_le_bytes());
    p.extend_from_slice(&cs);
    p.extend_from_slice(&(description_blob.len() as u32).to_le_bytes());
    p.extend_from_slice(&ds);
    p.extend_from_slice(&ptr.to_le_bytes());
    p.extend_from_slice(&4u32.to_le_bytes());
    p
}

#[test]
fn framing_round_trip() {
    let content = b"A!UNIT!mils\nsome geometry rows";
    let description = b"MODEL|1.0|EXT|1.01|PN";
    let raw = build_container(content, description, content.len() as u32);
    let decoded = DecodedPcbRepairFile::from_bytes(&raw).unwrap();
    assert_eq!(decoded.content, content);
    assert_eq!(decoded.description, description);
}

#[test]
fn size_mismatch_detected() {
    let content = b"payload bytes here";
    let description = b"desc";
    // Declare the content one byte longer than it really is.
    let raw = build_container(content, description, content.len() as u32 + 1);
    assert_eq!(
        DecodedPcbRepairFile::from_bytes(&raw).unwrap_err(),
        DecodeError::SizeMismatch
    );
}

#[test]
fn description_size_mismatch_detected() {
    let content = b"payload bytes here";
    let description = b"desc";
    let cs = deflate(content);
    let ds = deflate(description);
    let ptr = (4 + cs.len()) as u32;
    let mut raw = Vec::new();
    raw.extend_from_slice(&(content.len() as u32).to_le_bytes());
    raw.extend_from_slice(&cs);
    // Declare the description one byte longer than it really is.
    raw.extend_from_slice(&(description.len() as u32 + 1).to_le_bytes());
    raw.extend_from_slice(&ds);
    raw.extend_from_slice(&ptr.to_le_bytes());
    raw.extend_from_slice(&4u32.to_le_bytes());
    assert_eq!(
        DecodedPcbRepairFile::from_bytes(&raw).unwrap_err(),
        DecodeError::SizeMismatch
    );
}

#[test]
fn trial_order_reaches_second_key() {
    let content = b"content under the second schedule";
    let description = b"desc|with|fields";
    let plain = build_container(content, description, content.len() as u32);
    // Encrypting with the second schedule, then decrypting with it, is the
    // identity, so this buffer decodes only through the third trial.
    let raw = encrypt(&plain, &CAE_EXPANDED_KEY);
    // Premises of the trial order: the buffer passes the magic check
    // neither as plaintext nor under the first schedule.
    assert_ne!(raw[4], 0x78);
    assert_ne!(decrypt(&raw, &FZ_EXPANDED_KEY)[4], 0x78);
    let decoded = DecodedPcbRepairFile::from_bytes(&raw).unwrap();
    assert_eq!(decoded.content, content);
    assert_eq!(decoded.description, description);
}

#[test]
fn first_key_trial_taken_before_second() {
    let content = b"content under the first schedule";
    let description = b"d";
    let plain = build_container(content, description, content.len() as u32);
    let raw = encrypt(&plain, &FZ_EXPANDED_KEY);
    assert_ne!(raw[4], 0x78);
    let decoded = DecodedPcbRepairFile::from_bytes(&raw).unwrap();
    assert_eq!(decoded.content, content);
    assert_eq!(decoded.description, description);
}

#[test]
fn all_trials_fail_with_last_error() {
    // A buffer whose byte 4 is not the zlib magic in any trial.
    let raw = [0u8; 64];
    assert_ne!(decrypt(&raw, &FZ_EXPANDED_KEY)[4], 0x78);
    assert_ne!(decrypt(&raw, &CAE_EXPANDED_KEY)[4], 0x78);
    assert_eq!(
        DecodedPcbRepairFile::from_bytes(&raw).unwrap_err(),
        DecodeError::InvalidMagic
    );
}

#[test]
fn short_buffer_is_out_of_bounds() {
    assert_eq!(
        DecodedPcbRepairFile::from_bytes(&[0x78, 0x9c, 0x01]).unwrap_err(),
        DecodeError::FramingOutOfBounds
    );
}

#[test]
fn corrupt_content_stream_detected() {
    let content = b"good content";
    let description = b"desc";
    let mut raw = build_container(content, description, content.len() as u32);
    // Corrupt the content stream body (past its zlib header at offset 4).
    raw[7] ^= 0xff;
    let err = DecodedPcbRepairFile::from_bytes(&raw).unwrap_err();
    assert!(
        err == DecodeError::CorruptStream || err == DecodeError::SizeMismatch,
        "unexpected error: {:?}",
        err
    );
}

#[test]
fn bad_pointer_is_out_of_bounds() {
    let content = b"content blob";
    let cs = deflate(content);
    let mut raw = Vec::new();
    raw.extend_from_slice(&(content.len() as u32).to_le_bytes());
    raw.extend_from_slice(&cs);
    // Trailer claims the pointer slot lies far before the buffer start.
    raw.extend_from_slice(&0xffff_ffffu32.to_le_bytes());
    assert_eq!(
        DecodedPcbRepairFile::from_bytes(&raw).unwrap_err(),
        DecodeError::FramingOutOfBounds
    );
}

#[test]
fn empty_buffer_is_out_of_bounds() {
    assert_eq!(
        DecodedPcbRepairFile::from_bytes(&[]).unwrap_err(),
        DecodeError::FramingOutOfBounds
    );
}
