use aes::cipher::{BlockEncrypt, KeyInit, KeyIvInit, StreamCipher};
use nx_decrypt::{create_dec_ctr, CtrWrapper, DecryptError};

const KEY: [u8; 16] = [
    0x2b, 0x7e, 0x15, 0x16, 0x28, 0xae, 0xd2, 0xa6, 0xab, 0xf7, 0x15, 0x88, 0x09, 0xcf, 0x4f, 0x3c,
];

const NONCE: [u8; 8] = [0xf0, 0xf1, 0xf2, 0xf3, 0xf4, 0xf5, 0xf6, 0xf7];

fn cursor(offset: u64) -> CtrWrapper {
    create_dec_ctr(&KEY, &NONCE, offset).unwrap()
}

fn sample(len: usize) -> Vec<u8> {
    (0..len).map(|i| (i * 11 + 5) as u8).collect()
}

/// The keystream block for one counter block, computed with the block cipher
/// alone.
fn keystream(key: &[u8; 16], counter: &[u8; 16]) -> [u8; 16] {
    let mut block = aes::Block::from(*counter);
    aes::Aes128::new(key.into()).encrypt_block(&mut block);
    block.into()
}

/// The counter block for the chunk at `offset`, for a cursor made with
/// `initial` as its first offset.
fn expected_counter(initial: u64, offset: u64) -> [u8; 16] {
    let mut counter = [0u8; 16];
    counter[..8].copy_from_slice(&NONCE);
    counter[8] = (initial >> 60) as u8;
    let index = (offset >> 4).to_be_bytes();
    counter[9..].copy_from_slice(&index[1..]);
    counter
}

fn expected_plain(initial: u64, offset: u64, data: &[u8]) -> Vec<u8> {
    let mut out = data.to_vec();
    for (i, chunk) in out.chunks_exact_mut(16).enumerate() {
        let at = offset.wrapping_add(16 * i as u64);
        let stream = keystream(&KEY, &expected_counter(initial, at));
        for (byte, mask) in chunk.iter_mut().zip(stream.iter()) {
            *byte ^= mask;
        }
    }
    out
}

#[test]
fn new_cursor_holds_nonce_and_block_index() {
    let c = cursor(0x1230);
    assert_eq!(c.key(), KEY);
    assert_eq!(
        c.counter(),
        [0xf0, 0xf1, 0xf2, 0xf3, 0xf4, 0xf5, 0xf6, 0xf7, 0, 0, 0, 0, 0, 0, 0x01, 0x23]
    );
}

#[test]
fn new_cursor_at_offset_zero() {
    let c = cursor(0);
    assert_eq!(
        c.counter(),
        [0xf0, 0xf1, 0xf2, 0xf3, 0xf4, 0xf5, 0xf6, 0xf7, 0, 0, 0, 0, 0, 0, 0, 0]
    );
}

#[test]
fn new_cursor_with_the_largest_offset() {
    let c = cursor(u64::MAX);
    assert_eq!(
        c.counter(),
        [
            0xf0, 0xf1, 0xf2, 0xf3, 0xf4, 0xf5, 0xf6, 0xf7, 0x0f, 0xff, 0xff, 0xff, 0xff, 0xff,
            0xff, 0xff
        ]
    );
}

#[test]
fn new_cursor_ignores_the_low_four_offset_bits() {
    assert_eq!(cursor(0x1230).counter(), cursor(0x123f).counter());
    assert_ne!(cursor(0x1230).counter(), cursor(0x1240).counter());
}

#[test]
fn create_refuses_a_wrong_key_length() {
    assert!(matches!(
        create_dec_ctr(&KEY[..15], &NONCE, 0),
        Err(DecryptError::InvalidKeyLength)
    ));
    assert!(matches!(
        create_dec_ctr(&[0u8; 17], &NONCE, 0),
        Err(DecryptError::InvalidKeyLength)
    ));
}

#[test]
fn create_refuses_a_wrong_nonce_length() {
    assert!(matches!(
        create_dec_ctr(&KEY, &NONCE[..7], 0),
        Err(DecryptError::InvalidBufferLength)
    ));
    assert!(matches!(
        create_dec_ctr(&KEY, &[0u8; 16], 0),
        Err(DecryptError::InvalidBufferLength)
    ));
}

#[test]
fn create_reports_the_key_first() {
    assert!(matches!(
        create_dec_ctr(&[], &[], 0),
        Err(DecryptError::InvalidKeyLength)
    ));
}

#[test]
fn counter_derivation_for_offset_0x1230() {
    let mut c = cursor(0);
    c.update_counter(0x1230);
    let counter = c.counter();
    assert_eq!(&counter[..8], &NONCE[..]);
    assert_eq!(counter[8], 0);
    assert_eq!(&counter[9..], &[0, 0, 0, 0, 0, 0x01, 0x23]);
}

#[test]
fn counter_derivation_for_a_second_offset() {
    let mut c = cursor(0);
    c.update_counter(0xa1b2_c3d4_e5f6_0718);
    let counter = c.counter();
    // offset >> 4 == 0x0a1b_2c3d_4e5f_6071; its low seven bytes follow.
    assert_eq!(&counter[9..], &[0x1b, 0x2c, 0x3d, 0x4e, 0x5f, 0x60, 0x71]);
    assert_eq!(&counter[..8], &NONCE[..]);
    assert_eq!(counter[8], 0);
}

#[test]
fn counter_derivation_uses_the_floor_of_the_block() {
    let mut c = cursor(0);
    c.update_counter(0x1f);
    assert_eq!(&c.counter()[9..], &[0, 0, 0, 0, 0, 0, 1]);
    c.update_counter(0x0f);
    assert_eq!(&c.counter()[9..], &[0, 0, 0, 0, 0, 0, 0]);
}

#[test]
fn counter_update_never_touches_the_first_nine_bytes() {
    let mut c = cursor(u64::MAX);
    assert_eq!(c.counter()[8], 0x0f);
    c.update_counter(0);
    let counter = c.counter();
    assert_eq!(&counter[..8], &NONCE[..]);
    assert_eq!(counter[8], 0x0f);
    assert_eq!(&counter[9..], &[0u8; 7]);
    assert_eq!(c.key(), KEY);
}

#[test]
fn counter_update_keeps_only_56_bits() {
    let mut c = cursor(0);
    c.update_counter(u64::MAX);
    let counter = c.counter();
    assert_eq!(counter[8], 0);
    assert_eq!(&counter[9..], &[0xffu8; 7]);
}

#[test]
fn read_combines_each_chunk_with_the_keystream_of_its_block() {
    let data = sample(64);
    let mut buf = data.clone();
    let mut c = cursor(0);
    c.read(0x1230, &mut buf);
    assert_ne!(buf, data);
    assert_eq!(buf, expected_plain(0, 0x1230, &data));
    let first = keystream(&KEY, &expected_counter(0, 0x1230));
    for i in 0..16 {
        assert_eq!(buf[i], data[i] ^ first[i]);
    }
}

#[test]
fn read_agrees_with_the_stream_cipher_on_single_chunks() {
    let data = sample(16);
    let mut buf = data.clone();
    cursor(0).read(0x40, &mut buf);
    let counter = expected_counter(0, 0x40);
    let mut reference = data.clone();
    ctr::Ctr128LE::<aes::Aes128>::new(&KEY.into(), &counter.into()).apply_keystream(&mut reference);
    assert_eq!(buf, reference);
}

#[test]
fn read_is_deterministic_on_fresh_cursors() {
    let data = sample(48);
    let mut first = data.clone();
    let mut second = data.clone();
    cursor(0).read(0x200, &mut first);
    cursor(0).read(0x200, &mut second);
    assert_eq!(first, second);
    assert_ne!(first, data);
}

#[test]
fn read_composes_over_adjacent_chunks() {
    let data = sample(32);
    let mut whole = data.clone();
    cursor(0).read(0, &mut whole);

    let mut c = cursor(0);
    let mut head = data[..16].to_vec();
    let mut tail = data[16..].to_vec();
    c.read(0, &mut head);
    c.read(16, &mut tail);
    assert_eq!(&whole[..16], &head[..]);
    assert_eq!(&whole[16..], &tail[..]);
}

#[test]
fn read_does_not_depend_on_the_order_of_reads() {
    let data = sample(96);
    let mut whole = data.clone();
    cursor(0).read(0x1000, &mut whole);

    let mut c = cursor(0);
    let mut parts = data.clone();
    c.read(0x1040, &mut parts[64..]);
    c.read(0x1000, &mut parts[..32]);
    c.read(0x1020, &mut parts[32..64]);
    assert_eq!(parts, whole);
}

#[test]
fn read_does_not_depend_on_earlier_reads() {
    let data = sample(32);
    let mut fresh = data.clone();
    cursor(0).read(0x500, &mut fresh);

    let mut c = cursor(0);
    let mut scratch = sample(80);
    c.read(0x9000, &mut scratch);
    let mut later = data.clone();
    c.read(0x500, &mut later);
    assert_eq!(later, fresh);
}

#[test]
fn read_ignores_the_initial_offset_below_bit_sixty() {
    let data = sample(32);
    let mut a = data.clone();
    let mut b = data.clone();
    cursor(0).read(0x300, &mut a);
    cursor(0x7777_0000).read(0x300, &mut b);
    assert_eq!(a, b);
}

#[test]
fn read_keeps_the_top_counter_byte_of_the_initial_offset() {
    let data = sample(16);
    let mut a = data.clone();
    let mut b = data.clone();
    cursor(0).read(0x300, &mut a);
    cursor(1 << 60).read(0x300, &mut b);
    assert_ne!(a, b);
    assert_eq!(b, expected_plain(1 << 60, 0x300, &data));
}

#[test]
fn read_twice_restores_the_buffer() {
    for len in [0usize, 16, 32, 48, 160, 1024] {
        let data = sample(len);
        let mut buf = data.clone();
        let mut c = cursor(0);
        c.read(0x8000, &mut buf);
        c.read(0x8000, &mut buf);
        assert_eq!(buf, data);
    }
}

#[test]
fn read_round_trip_against_a_reference_encryptor() {
    for chunks in 0..9usize {
        let plain = sample(16 * chunks);
        let cipher = expected_plain(0, 0x4000, &plain);
        let mut buf = cipher.clone();
        cursor(0).read(0x4000, &mut buf);
        assert_eq!(buf, plain);
    }
}

#[test]
fn read_leaves_a_trailing_partial_chunk_untouched() {
    let data = sample(37);
    let mut buf = data.clone();
    cursor(0).read(0x100, &mut buf);
    assert_eq!(&buf[..32], &expected_plain(0, 0x100, &data[..32])[..]);
    assert_ne!(&buf[..32], &data[..32]);
    assert_eq!(&buf[32..], &data[32..]);
}

#[test]
fn read_of_less_than_one_chunk_changes_nothing() {
    let data = sample(15);
    let mut buf = data.clone();
    let mut c = cursor(0x1230);
    let before = c.counter();
    c.read(0x100, &mut buf);
    assert_eq!(buf, data);
    assert_eq!(c.counter(), before);
}

#[test]
fn read_of_an_empty_buffer_changes_nothing() {
    let mut buf: Vec<u8> = Vec::new();
    let mut c = cursor(0x1230);
    let before = c.counter();
    c.read(0, &mut buf);
    assert!(buf.is_empty());
    assert_eq!(c.counter(), before);
}

#[test]
fn read_leaves_the_counter_at_the_last_chunk() {
    let mut buf = sample(48);
    let mut c = cursor(0);
    c.read(0x1230, &mut buf);
    assert_eq!(c.counter(), expected_counter(0, 0x1250));
}

#[test]
fn read_at_an_unaligned_offset_uses_the_block_that_holds_it() {
    let data = sample(32);
    let mut aligned = data.clone();
    let mut unaligned = data.clone();
    cursor(0).read(0x120, &mut aligned);
    cursor(0).read(0x12b, &mut unaligned);
    assert_eq!(aligned, unaligned);
}

#[test]
fn read_wraps_the_offset_at_the_end_of_the_address_space() {
    let data = sample(32);
    let mut buf = data.clone();
    cursor(0).read(u64::MAX - 15, &mut buf);
    let first = keystream(&KEY, &expected_counter(0, u64::MAX - 15));
    let second = keystream(&KEY, &expected_counter(0, 0));
    for i in 0..16 {
        assert_eq!(buf[i], data[i] ^ first[i]);
        assert_eq!(buf[16 + i], data[16 + i] ^ second[i]);
    }
}

#[test]
fn read_aligned_decrypts_whole_chunks() {
    let data = sample(64);
    let mut strict = data.clone();
    let mut plain = data.clone();
    assert_eq!(cursor(0).read_aligned(0x700, &mut strict), Ok(()));
    cursor(0).read(0x700, &mut plain);
    assert_eq!(strict, plain);
    assert_ne!(strict, data);
}

#[test]
fn read_aligned_refuses_a_partial_chunk() {
    let data = sample(37);
    let mut buf = data.clone();
    let mut c = cursor(0x1230);
    let before = c.counter();
    assert_eq!(
        c.read_aligned(0x700, &mut buf),
        Err(DecryptError::UnsupportedOffsetAlignment)
    );
    assert_eq!(buf, data);
    assert_eq!(c.counter(), before);
}

#[test]
fn read_aligned_accepts_an_empty_buffer() {
    let mut buf: Vec<u8> = Vec::new();
    assert_eq!(cursor(0).read_aligned(0, &mut buf), Ok(()));
}
