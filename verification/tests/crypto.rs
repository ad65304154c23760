use pcbrepair::crypto::CAE_EXPANDED_KEY;
use pcbrepair::crypto::FZ_EXPANDED_KEY;
use pcbrepair::crypto::decrypt;
use pcbrepair::crypto::encrypt;
use pcbrepair::crypto::expand_key;
use pcbrepair::crypto::rc6_encrypt_block;

#[test]
fn test_rc6_encrypt_block() {
    let plaintext = [0; 16];
    let user_key = [0; 16];
    let ciphertext = [
        0x8f, 0xc3, 0xa5, 0x36, 0x56, 0xb1, 0xf7, 0x78, 0xc1, 0x29, 0xdf, 0x4e, 0x98, 0x48,
        0xa4, 0x1e,
    ];
    let expanded_key = expand_key(&user_key);
    let (a, b, c, d) = rc6_encrypt_block(&plaintext, &expanded_key);
    let mut rc6_encrypt_block_result = Vec::with_capacity(16);
    rc6_encrypt_block_result.extend(a.to_le_bytes());
    rc6_encrypt_block_result.extend(b.to_le_bytes());
    rc6_encrypt_block_result.extend(c.to_le_bytes());
    rc6_encrypt_block_result.extend(d.to_le_bytes());
    assert_eq!(&rc6_encrypt_block_result, &ciphertext);
}

#[test]
fn test_decrypt() {
    let data = [0x12, 0x34, 0x56, 0x78, 0xAB, 0xCD];
    for key in [&FZ_EXPANDED_KEY, &CAE_EXPANDED_KEY] {
        let encrypted = encrypt(data.as_slice(), key);
        let decrypted = decrypt(&encrypted, key);
        assert_eq!(decrypted, data);
    }
}

fn pattern_bytes(len: usize) -> Vec<u8> {
    (0..len).map(|i| (i.wrapping_mul(7).wrapping_add(3) % 256) as u8).collect()
}

#[test]
fn test_involution_lengths() {
    for len in [0usize, 1, 16, 17, 1000] {
        let data = pattern_bytes(len);
        for key in [&FZ_EXPANDED_KEY, &CAE_EXPANDED_KEY] {
            let encrypted = encrypt(&data, key);
            assert_eq!(encrypted.len(), data.len());
            let decrypted = decrypt(&encrypted, key);
            assert_eq!(decrypted, data);
        }
    }
}

#[test]
fn test_involution_derived_key() {
    let user_key: [u8; 16] = [
        0x01, 0x23, 0x45, 0x67, 0x89, 0xab, 0xcd, 0xef, 0x01, 0x12, 0x23, 0x34, 0x45, 0x56,
        0x67, 0x78,
    ];
    let key = expand_key(&user_key);
    let data = pattern_bytes(100);
    assert_eq!(decrypt(&encrypt(&data, &key), &key), data);
}

#[test]
fn test_encrypt_changes_bytes() {
    // A degenerate cipher that returned its input unchanged would satisfy
    // the involution alone; the keystream must actually act on the data.
    let data = pattern_bytes(32);
    let encrypted = encrypt(&data, &FZ_EXPANDED_KEY);
    assert_ne!(encrypted, data);
    // And the two schedules must produce different streams.
    let encrypted2 = encrypt(&data, &CAE_EXPANDED_KEY);
    assert_ne!(encrypted, encrypted2);
}
