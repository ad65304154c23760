//! Keystream cipher used by the container decoder.
//!
//! The container format encrypts its byte stream with a 128-bit-block,
//! 20-round, 32-bit-word block cipher run in 8-bit cipher-feedback mode
//! (CFB-8): a 16-byte shift register, initially all zero, always holds the 16
//! most recent ciphertext bytes; each keystream byte is the low byte of the
//! first output word of the block cipher applied to the register.
//!
//! Two fixed 44-word expanded key schedules are format constants, one per
//! vendor variant.

use vstd::prelude::*;

verus! {

/// Expanded key schedule used by the first vendor variant.
pub const FZ_EXPANDED_KEY: [u32; 44] = [
    0x25d8d248, 0xe1502405, 0x56b5d486, 0x69213fe0, 0xa22490ec, 0x01fdd9fa, 0x0681955f, 0x0fac202d,
    0xdac9eeb4, 0xf6024aba, 0xcd8b4cc6, 0x9f307c8e, 0x4ab8fad7, 0x232f967d, 0x5e8666a3, 0xde966d4b,
    0xc64bfb1c, 0xea7fb092, 0x1a751a7e, 0x37e8f0bc, 0x3359c8f3, 0x969ac22b, 0x610f5804, 0xd99d10e6,
    0xc58d54d6, 0x1f9aea8b, 0x8e388c1a, 0xe4f7d2ed, 0x3e5da1f6, 0xedfe818a, 0x7252b016, 0xb503a170,
    0xc4128fb6, 0x2c93ceeb, 0x53539a6e, 0xdacf7668, 0x3ab78e52, 0x8ee9d815, 0x7043f799, 0xc6a05dcf,
    0x727f1da2, 0x0dfd983b, 0x78c53872, 0x00945692,
];

/// Expanded key schedule used by the second vendor variant.
pub const CAE_EXPANDED_KEY: [u32; 44] = [
    0x477fa6a2, 0xfb9b5e2b, 0x77bcac57, 0x2d7cef8c, 0x69825182, 0xfa231194, 0x96ee6d48, 0x520a9b74,
    0x0619cb60, 0x95918dfb, 0x1c829771, 0x03f6655c, 0xbba3b302, 0xf3cbcc66, 0xb42e9ac7, 0x417b37dd,
    0x34854b8c, 0xf95a9547, 0x7950401e, 0xc3271f83, 0x0e7c9a6e, 0xcfa7f799, 0x616d9d05, 0x200ac08f,
    0x7cdb242f, 0x30d3bc5e, 0x2983cc29, 0x9da249c9, 0x7509f015, 0x6632580e, 0x83247f04, 0x6525ed71,
    0x02fa242a, 0x47b12928, 0x7ed51b5d, 0xf69cd51b, 0x66f24c77, 0x042856b9, 0x00e37970, 0x88b6624d,
    0x6826cd76, 0xd2a4c9fe, 0x2eff487a, 0x09648fae,
];

/// log2 of the cipher's word size in bits: rotation amounts are taken mod 32.
pub const LOGW: u32 = 5;

/// Number of cipher rounds.
pub const ROUNDS: usize = 20;

/// Rotate a 32-bit word left by `n` bit positions (`n` taken mod 32).
pub open spec fn spec_rotl32(x: u32, n: u32) -> u32 {
    let k = (n % 32) as u32;
    if k == 0 {
        x
    } else {
        (x << k) | (x >> ((32 - k) as u32))
    }
}

/// Rotate a 32-bit word left by `n` bit positions (`n` taken mod 32).
pub fn rotl32(x: u32, n: u32) -> (r: u32)
    ensures
        r == spec_rotl32(x, n),
{
    let k = n % 32;
    if k == 0 {
        x
    } else {
        (x << k) | (x >> (32 - k))
    }
}

/// One round of the block cipher: from `(a, b, c, d)` and the round's two key
/// words to the state after the round's data-dependent rotations and the
/// cyclic register swap.
pub open spec fn spec_round(a: u32, b: u32, c: u32, d: u32, k0: u32, k1: u32) -> (u32, u32, u32, u32) {
    let t = spec_rotl32(b.wrapping_mul(b.wrapping_mul(2).wrapping_add(1)), LOGW);
    let u = spec_rotl32(d.wrapping_mul(d.wrapping_mul(2).wrapping_add(1)), LOGW);
    let a2 = spec_rotl32(a ^ t, u).wrapping_add(k0);
    let c2 = spec_rotl32(c ^ u, t).wrapping_add(k1);
    (b, c2, d, a2)
}

/// The cipher state after rounds `i`, `i + 1`, ..., 20 have been applied to
/// `(a, b, c, d)` under key schedule `key`.
pub open spec fn spec_rounds_from(a: u32, b: u32, c: u32, d: u32, key: Seq<u32>, i: int) -> (u32, u32, u32, u32)
    decreases 21 - i,
{
    if i < 1 || i > ROUNDS {
        (a, b, c, d)
    } else {
        let (a2, b2, c2, d2) = spec_round(a, b, c, d, key[2 * i], key[2 * i + 1]);
        spec_rounds_from(a2, b2, c2, d2, key, i + 1)
    }
}

/// The block cipher's encrypt direction on a 16-byte block, as four 32-bit
/// output words: pre-whitening of `b` and `d`, 20 rounds, post-whitening of
/// `a` and `c`.
pub open spec fn spec_encrypt_block(block: Seq<u8>, key: Seq<u32>) -> (u32, u32, u32, u32)
    recommends
        block.len() == 16,
        key.len() == 44,
{
    let a = vstd::bytes::spec_u32_from_le_bytes(block.subrange(0, 4));
    let b = vstd::bytes::spec_u32_from_le_bytes(block.subrange(4, 8));
    let c = vstd::bytes::spec_u32_from_le_bytes(block.subrange(8, 12));
    let d = vstd::bytes::spec_u32_from_le_bytes(block.subrange(12, 16));
    let b1 = b.wrapping_add(key[0]);
    let d1 = d.wrapping_add(key[1]);
    let (a2, b2, c2, d2) = spec_rounds_from(a, b1, c, d1, key, 1);
    (a2.wrapping_add(key[42]), b2, c2.wrapping_add(key[43]), d2)
}

/// Runs the block cipher forward on one 16-byte block, returning the four
/// 32-bit output words.
pub fn rc6_encrypt_block(block: &[u8; 16], expanded_key: &[u32; 44]) -> (r: (u32, u32, u32, u32))
    ensures
        r == spec_encrypt_block(block@, expanded_key@),
{
    let s = block.as_slice();
    let mut a = vstd::bytes::u32_from_le_bytes(vstd::slice::slice_subrange(s, 0, 4));
    let mut b = vstd::bytes::u32_from_le_bytes(vstd::slice::slice_subrange(s, 4, 8));
    let mut c = vstd::bytes::u32_from_le_bytes(vstd::slice::slice_subrange(s, 8, 12));
    let mut d = vstd::bytes::u32_from_le_bytes(vstd::slice::slice_subrange(s, 12, 16));

    b = b.wrapping_add(expanded_key[0]);
    d = d.wrapping_add(expanded_key[1]);

    let ghost a0 = a;
    let ghost b0 = b;
    let ghost c0 = c;
    let ghost d0 = d;

    let mut i: usize = 1;
    while i <= ROUNDS
        invariant
            1 <= i <= ROUNDS + 1,
            spec_rounds_from(a, b, c, d, expanded_key@, i as int) == spec_rounds_from(
                a0,
                b0,
                c0,
                d0,
                expanded_key@,
                1,
            ),
        decreases ROUNDS + 1 - i,
    {
        let t = rotl32(b.wrapping_mul(b.wrapping_mul(2).wrapping_add(1)), LOGW);
        let u = rotl32(d.wrapping_mul(d.wrapping_mul(2).wrapping_add(1)), LOGW);
        let a2 = rotl32(a ^ t, u).wrapping_add(expanded_key[2 * i]);
        let c2 = rotl32(c ^ u, t).wrapping_add(expanded_key[2 * i + 1]);

        a = b;
        b = c2;
        c = d;
        d = a2;

        i = i + 1;
    }

    a = a.wrapping_add(expanded_key[2 * ROUNDS + 2]);
    c = c.wrapping_add(expanded_key[2 * ROUNDS + 3]);

    (a, b, c, d)
}

/// The shift register at the start of a transform: 16 zero bytes (the format
/// uses no IV).
pub open spec fn spec_zero_register() -> Seq<u8> {
    Seq::new(16, |i: int| 0u8)
}

/// The keystream byte produced from the current shift register: the low byte
/// of the first output word of the block cipher run forward on the register.
pub open spec fn spec_keystream_byte(reg: Seq<u8>, key: Seq<u32>) -> u8 {
    (spec_encrypt_block(reg, key).0 & 0xff) as u8
}

/// The shift register after one byte of feedback: drop the oldest byte,
/// append `b` (always the ciphertext byte, in either direction).
pub open spec fn spec_feed(reg: Seq<u8>, b: u8) -> Seq<u8> {
    reg.subrange(1, 16).push(b)
}

/// CFB-8 decryption of `data` starting from shift register `reg`: each
/// plaintext byte is the ciphertext byte XOR the keystream byte, and the
/// ciphertext byte is fed back into the register.
pub open spec fn spec_decrypt_from(data: Seq<u8>, key: Seq<u32>, reg: Seq<u8>) -> Seq<u8>
    decreases data.len(),
{
    if data.len() == 0 {
        Seq::empty()
    } else {
        let p = data[0] ^ spec_keystream_byte(reg, key);
        seq![p] + spec_decrypt_from(data.skip(1), key, spec_feed(reg, data[0]))
    }
}

/// CFB-8 decryption of `data` under key schedule `key`, starting from the
/// all-zero register.
pub open spec fn spec_decrypt(data: Seq<u8>, key: Seq<u32>) -> Seq<u8> {
    spec_decrypt_from(data, key, spec_zero_register())
}

/// CFB-8 encryption of `data` starting from shift register `reg`: each
/// ciphertext byte is the plaintext byte XOR the keystream byte, and that
/// ciphertext byte is fed back into the register.
pub open spec fn spec_encrypt_from(data: Seq<u8>, key: Seq<u32>, reg: Seq<u8>) -> Seq<u8>
    decreases data.len(),
{
    if data.len() == 0 {
        Seq::empty()
    } else {
        let c = data[0] ^ spec_keystream_byte(reg, key);
        seq![c] + spec_encrypt_from(data.skip(1), key, spec_feed(reg, c))
    }
}

/// CFB-8 encryption of `data` under key schedule `key`, starting from the
/// all-zero register.
pub open spec fn spec_encrypt(data: Seq<u8>, key: Seq<u32>) -> Seq<u8> {
    spec_encrypt_from(data, key, spec_zero_register())
}

/// Decrypts `data` with the given expanded key schedule (CFB-8 mode,
/// zero-initialized shift register).
pub fn decrypt(data: &[u8], expanded_key: &[u32; 44]) -> (result: Vec<u8>)
    ensures
        result@ == spec_decrypt(data@, expanded_key@),
{
    let mut result: Vec<u8> = Vec::new();
    let mut keystream: [u8; 16] = [0u8; 16];
    assert(keystream@ =~= spec_zero_register());
    let n = data.len();
    proof {
        assert(data@.skip(0) =~= data@);
        assert(Seq::<u8>::empty() + spec_decrypt_from(data@, expanded_key@, keystream@)
            =~= spec_decrypt_from(data@, expanded_key@, keystream@));
    }
    let mut i: usize = 0;
    while i < n
        invariant
            i <= n,
            n == data@.len(),
            result@.len() == i,
            result@ + spec_decrypt_from(data@.skip(i as int), expanded_key@, keystream@)
                == spec_decrypt(data@, expanded_key@),
        decreases n - i,
    {
        let ghost reg0 = keystream@;
        let (a, _b, _c, _d) = rc6_encrypt_block(&keystream, expanded_key);
        let cur = data[i];

        let mut j: usize = 0;
        while j < 15
            invariant
                j <= 15,
                forall|k: int| 0 <= k < j ==> keystream@[k] == reg0[k + 1],
                forall|k: int| j <= k < 16 ==> keystream@[k] == reg0[k],
            decreases 15 - j,
        {
            keystream[j] = keystream[j + 1];
            j = j + 1;
        }
        keystream[15] = cur;
        assert(keystream@ =~= spec_feed(reg0, cur));

        let p = cur ^ ((a & 0xff) as u8);
        result.push(p);

        proof {
            let rest = data@.skip(i as int);
            assert(rest[0] == data@[i as int]);
            assert(rest.skip(1) =~= data@.skip(i as int + 1));
            assert(result@ =~= (result@.drop_last() + seq![p]));
            assert(result@ + spec_decrypt_from(data@.skip(i as int + 1), expanded_key@, keystream@)
                =~= (result@.drop_last() + spec_decrypt_from(rest, expanded_key@, reg0)));
        }
        i = i + 1;
    }
    proof {
        assert(data@.skip(n as int) =~= Seq::<u8>::empty());
        assert(result@ + spec_decrypt_from(Seq::<u8>::empty(), expanded_key@, keystream@)
            =~= result@);
    }
    result
}

/// Encrypts `data` with the given expanded key schedule (CFB-8 mode,
/// zero-initialized shift register). The format never needs this for
/// decoding; it exists to witness the cipher's symmetry.
pub fn encrypt(data: &[u8], expanded_key: &[u32; 44]) -> (result: Vec<u8>)
    ensures
        result@ == spec_encrypt(data@, expanded_key@),
{
    let mut result: Vec<u8> = Vec::new();
    let mut keystream: [u8; 16] = [0u8; 16];
    assert(keystream@ =~= spec_zero_register());
    let n = data.len();
    proof {
        assert(data@.skip(0) =~= data@);
        assert(Seq::<u8>::empty() + spec_encrypt_from(data@, expanded_key@, keystream@)
            =~= spec_encrypt_from(data@, expanded_key@, keystream@));
    }
    let mut i: usize = 0;
    while i < n
        invariant
            i <= n,
            n == data@.len(),
            result@.len() == i,
            result@ + spec_encrypt_from(data@.skip(i as int), expanded_key@, keystream@)
                == spec_encrypt(data@, expanded_key@),
        decreases n - i,
    {
        let ghost reg0 = keystream@;
        let (a, _b, _c, _d) = rc6_encrypt_block(&keystream, expanded_key);
        let cur = data[i] ^ ((a & 0xff) as u8);
        result.push(cur);

        let mut j: usize = 0;
        while j < 15
            invariant
                j <= 15,
                forall|k: int| 0 <= k < j ==> keystream@[k] == reg0[k + 1],
                forall|k: int| j <= k < 16 ==> keystream@[k] == reg0[k],
            decreases 15 - j,
        {
            keystream[j] = keystream[j + 1];
            j = j + 1;
        }
        keystream[15] = cur;
        assert(keystream@ =~= spec_feed(reg0, cur));

        proof {
            let rest = data@.skip(i as int);
            assert(rest[0] == data@[i as int]);
            assert(rest.skip(1) =~= data@.skip(i as int + 1));
            assert(result@ =~= (result@.drop_last() + seq![cur]));
            assert(result@ + spec_encrypt_from(data@.skip(i as int + 1), expanded_key@, keystream@)
                =~= (result@.drop_last() + spec_encrypt_from(rest, expanded_key@, reg0)));
        }
        i = i + 1;
    }
    proof {
        assert(data@.skip(n as int) =~= Seq::<u8>::empty());
        assert(result@ + spec_encrypt_from(Seq::<u8>::empty(), expanded_key@, keystream@)
            =~= result@);
    }
    result
}

/// Decrypting from register `reg` what was encrypted from the same register
/// recovers the data: both directions generate the identical keystream,
/// because the register is fed the ciphertext byte in either direction, and
/// XOR with the same keystream byte twice is the identity.
proof fn lemma_involution_from(data: Seq<u8>, key: Seq<u32>, reg: Seq<u8>)
    ensures
        spec_decrypt_from(spec_encrypt_from(data, key, reg), key, reg) == data,
    decreases data.len(),
{
    if data.len() == 0 {
        assert(spec_decrypt_from(spec_encrypt_from(data, key, reg), key, reg) =~= data);
    } else {
        let k = spec_keystream_byte(reg, key);
        let x = data[0];
        let c0 = x ^ k;
        let enc = spec_encrypt_from(data, key, reg);
        let rest_enc = spec_encrypt_from(data.skip(1), key, spec_feed(reg, c0));
        assert(enc == seq![c0] + rest_enc);
        assert(enc[0] == c0);
        assert(enc.skip(1) =~= rest_enc);
        assert((x ^ k) ^ k == x) by (bit_vector);
        lemma_involution_from(data.skip(1), key, spec_feed(reg, c0));
        assert(spec_decrypt_from(enc, key, reg)
            == seq![(enc[0] ^ k)] + spec_decrypt_from(enc.skip(1), key, spec_feed(reg, enc[0])));
        assert(spec_decrypt_from(enc, key, reg) =~= data);
    }
}

/// The cipher is an involution: for any key schedule and any byte sequence,
/// decrypting what was encrypted under that schedule recovers the sequence
/// exactly.
pub proof fn lemma_cipher_involution(data: Seq<u8>, key: Seq<u32>)
    ensures
        spec_decrypt(spec_encrypt(data, key), key) == data,
{
    lemma_involution_from(data, key, spec_zero_register());
}

/// First magic constant of the key schedule derivation.
pub const P32: u32 = 0xB7E15163;

/// Second magic constant of the key schedule derivation.
pub const Q32: u32 = 0x9E3779B9;

/// The schedule array before mixing: `S[0] = P32`, `S[i] = S[i-1] + Q32`.
pub open spec fn spec_s_init(i: int) -> u32
    decreases i,
{
    if i <= 0 {
        P32
    } else {
        spec_s_init(i - 1).wrapping_add(Q32)
    }
}

/// The four 32-bit words of the 128-bit user key, little-endian.
pub open spec fn spec_l_init(user_key: Seq<u8>) -> Seq<u32>
    recommends
        user_key.len() == 16,
{
    Seq::new(4, |i: int| vstd::bytes::spec_u32_from_le_bytes(user_key.subrange(4 * i, 4 * i + 4)))
}

/// State of the schedule and key arrays after `n` mixing steps. Step `k`
/// (counting from 0) touches `S[k % 44]` and `L[k % 4]`.
pub open spec fn spec_mix(s: Seq<u32>, l: Seq<u32>, a: u32, b: u32, n: int) -> (Seq<u32>, Seq<u32>, u32, u32)
    decreases n,
{
    if n <= 0 {
        (s, l, a, b)
    } else {
        let (s1, l1, a1, b1) = spec_mix(s, l, a, b, n - 1);
        let i = (n - 1) % 44;
        let j = (n - 1) % 4;
        let snew = spec_rotl32(s1[i].wrapping_add(a1).wrapping_add(b1), 3);
        let lnew = spec_rotl32(
            l1[j].wrapping_add(snew).wrapping_add(b1),
            snew.wrapping_add(b1),
        );
        (s1.update(i, snew), l1.update(j, lnew), snew, lnew)
    }
}

/// The 44-word expanded schedule derived from a 128-bit user key: the
/// initialized schedule array after 132 mixing steps against the key words.
pub open spec fn spec_expand_key(user_key: Seq<u8>) -> Seq<u32>
    recommends
        user_key.len() == 16,
{
    spec_mix(Seq::new(44, |i: int| spec_s_init(i)), spec_l_init(user_key), 0, 0, 132).0
}

/// Derives the 44-word expanded schedule from a 128-bit user key. The decode
/// pipeline itself only uses the two fixed schedules; this exists to witness
/// how they were derived and to exercise the cipher against known vectors.
pub fn expand_key(user_key: &[u8; 16]) -> (r: [u32; 44])
    ensures
        r@ == spec_expand_key(user_key@),
{
    let uk = user_key.as_slice();
    let mut big_l: [u32; 4] = [0u32; 4];
    big_l[0] = vstd::bytes::u32_from_le_bytes(vstd::slice::slice_subrange(uk, 0, 4));
    big_l[1] = vstd::bytes::u32_from_le_bytes(vstd::slice::slice_subrange(uk, 4, 8));
    big_l[2] = vstd::bytes::u32_from_le_bytes(vstd::slice::slice_subrange(uk, 8, 12));
    big_l[3] = vstd::bytes::u32_from_le_bytes(vstd::slice::slice_subrange(uk, 12, 16));
    assert(big_l@ =~= spec_l_init(user_key@));

    let mut big_s: [u32; 44] = [0u32; 44];
    big_s[0] = P32;
    let mut i: usize = 1;
    while i < 44
        invariant
            1 <= i <= 44,
            forall|k: int| 0 <= k < i ==> big_s@[k] == spec_s_init(k),
        decreases 44 - i,
    {
        big_s[i] = big_s[i - 1].wrapping_add(Q32);
        assert(spec_s_init(i as int) == spec_s_init(i as int - 1).wrapping_add(Q32));
        i = i + 1;
    }
    assert(big_s@ =~= Seq::new(44, |k: int| spec_s_init(k)));

    let ghost s0 = big_s@;
    let ghost l0 = big_l@;

    let mut big_a: u32 = 0;
    let mut big_b: u32 = 0;
    let mut step: usize = 0;
    while step < 132
        invariant
            step <= 132,
            (big_s@, big_l@, big_a, big_b) == spec_mix(s0, l0, 0, 0, step as int),
        decreases 132 - step,
    {
        let si = step % 44;
        let lj = step % 4;
        let snew = rotl32(big_s[si].wrapping_add(big_a).wrapping_add(big_b), 3);
        big_s[si] = snew;
        big_a = snew;
        let lnew = rotl32(
            big_l[lj].wrapping_add(big_a).wrapping_add(big_b),
            big_a.wrapping_add(big_b),
        );
        big_l[lj] = lnew;
        big_b = lnew;
        step = step + 1;
    }

    big_s
}

} // verus!
