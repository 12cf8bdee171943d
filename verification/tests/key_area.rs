use aes::cipher::{BlockEncrypt, KeyInit};
use nx_decrypt::{decrypt_nca_area, DecryptError};

fn ascending_key() -> [u8; 16] {
    let mut key = [0u8; 16];
    for (i, byte) in key.iter_mut().enumerate() {
        *byte = i as u8;
    }
    key
}

#[test]
fn ecb_decrypts_the_standard_example_block() {
    let key = ascending_key();
    let cipher = [
        0x69, 0xc4, 0xe0, 0xd8, 0x6a, 0x7b, 0x04, 0x30, 0xd8, 0xcd, 0xb7, 0x80, 0x70, 0xb4, 0xc5,
        0x5a,
    ];
    let plain = [
        0x00, 0x11, 0x22, 0x33, 0x44, 0x55, 0x66, 0x77, 0x88, 0x99, 0xaa, 0xbb, 0xcc, 0xdd, 0xee,
        0xff,
    ];
    assert_eq!(decrypt_nca_area(&key, &cipher), Ok(plain));
}

#[test]
fn ecb_decrypts_a_second_known_block() {
    let key = [
        0x2b, 0x7e, 0x15, 0x16, 0x28, 0xae, 0xd2, 0xa6, 0xab, 0xf7, 0x15, 0x88, 0x09, 0xcf, 0x4f,
        0x3c,
    ];
    let cipher = [
        0x3a, 0xd7, 0x7b, 0xb4, 0x0d, 0x7a, 0x36, 0x60, 0xa8, 0x9e, 0xca, 0xf3, 0x24, 0x66, 0xef,
        0x97,
    ];
    let plain = [
        0x6b, 0xc1, 0xbe, 0xe2, 0x2e, 0x40, 0x9f, 0x96, 0xe9, 0x3d, 0x7e, 0x11, 0x73, 0x93, 0x17,
        0x2a,
    ];
    assert_eq!(decrypt_nca_area(&key, &cipher), Ok(plain));
}

#[test]
fn ecb_is_the_inverse_of_block_encryption() {
    let key = [0x5au8; 16];
    let plain = *b"sixteen byte msg";
    let mut block = aes::Block::from(plain);
    aes::Aes128::new(&key.into()).encrypt_block(&mut block);
    let cipher: [u8; 16] = block.into();
    assert_ne!(cipher, plain);
    assert_eq!(decrypt_nca_area(&key, &cipher), Ok(plain));
}

#[test]
fn ecb_has_no_hidden_state() {
    let key = ascending_key();
    let cipher = [0xa5u8; 16];
    let first = decrypt_nca_area(&key, &cipher);
    let second = decrypt_nca_area(&key, &cipher);
    assert!(first.is_ok());
    assert_eq!(first, second);
    let other = decrypt_nca_area(&key, &[0x5au8; 16]);
    assert_ne!(first, other);
    assert_eq!(decrypt_nca_area(&key, &cipher), first);
}

#[test]
fn ecb_does_not_return_its_input() {
    let key = ascending_key();
    let cipher = [0u8; 16];
    assert_ne!(decrypt_nca_area(&key, &cipher), Ok(cipher));
}

#[test]
fn ecb_refuses_a_short_key() {
    assert_eq!(
        decrypt_nca_area(&[0u8; 15], &[0u8; 16]),
        Err(DecryptError::InvalidKeyLength)
    );
}

#[test]
fn ecb_refuses_a_long_key() {
    assert_eq!(
        decrypt_nca_area(&[0u8; 32], &[0u8; 16]),
        Err(DecryptError::InvalidKeyLength)
    );
}

#[test]
fn ecb_refuses_a_block_of_the_wrong_length() {
    let key = ascending_key();
    assert_eq!(
        decrypt_nca_area(&key, &[0u8; 15]),
        Err(DecryptError::InvalidBufferLength)
    );
    assert_eq!(
        decrypt_nca_area(&key, &[0u8; 17]),
        Err(DecryptError::InvalidBufferLength)
    );
    assert_eq!(
        decrypt_nca_area(&key, &[0u8; 32]),
        Err(DecryptError::InvalidBufferLength)
    );
    assert_eq!(
        decrypt_nca_area(&key, &[]),
        Err(DecryptError::InvalidBufferLength)
    );
}

#[test]
fn ecb_reports_the_key_before_the_block() {
    assert_eq!(
        decrypt_nca_area(&[], &[]),
        Err(DecryptError::InvalidKeyLength)
    );
}
