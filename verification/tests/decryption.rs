//! Keys and ciphers.

use aes::cipher::generic_array::GenericArray;
use aes::cipher::{BlockEncrypt, KeyInit};
use base64::engine::general_purpose::STANDARD;
use base64::Engine;

use dv_hls_gateway::crypto::cenc::{parse_key_hex, parse_kid_hex, Decryptor};
use dv_hls_gateway::crypto::hls::{decrypt_aes128_cbc_pkcs7, iv_from_media_sequence};
use dv_hls_gateway::crypto::playready::{
    kid_from_playready_data_uri, playready_kid_value_to_common_hex,
};
use dv_hls_gateway::mp4::sample::SampleInfo;

#[test]
fn parse_keys() {
    let k = parse_key_hex("00112233445566778899aabbccddeeff:ffeeddccbbaa99887766554433221100")
        .unwrap();
    assert_eq!(k[0], 0xff);
    assert_eq!(k[15], 0x00);
    let kid =
        parse_kid_hex("00112233445566778899aabbccddeeff:ffeeddccbbaa99887766554433221100")
            .unwrap();
    assert_eq!(kid, "00112233445566778899aabbccddeeff");
}

#[test]
fn ctr_seek_unused_ok() {
    let d = Decryptor::new([0u8; 16]);
    let mut buf = vec![1u8, 2, 3, 4];
    let info = SampleInfo {
        data_range: (0, 4),
        duration: 0,
        cts_offset: 0,
        iv: vec![0u8; 8],
        subsamples: vec![],
    };
    d.decrypt_sample(&mut buf, &info);
    assert_ne!(buf, vec![1u8, 2, 3, 4]);
}

#[test]
fn cbcs_full_cbc_decrypts_full_blocks_and_leaves_tail() {
    let key = [0x11u8; 16];
    let iv = [0x22u8; 16];
    let plain = (0u8..34).collect::<Vec<_>>();
    let mut encrypted = plain.clone();
    encrypt_cbc_blocks(&key, &iv, &mut encrypted[..32]);

    let d = Decryptor::cbcs_with_constant_iv(key, iv, 0, 0);
    let info = SampleInfo {
        data_range: (0, encrypted.len()),
        duration: 0,
        cts_offset: 0,
        iv: Vec::new(),
        subsamples: Vec::new(),
    };
    d.decrypt_sample(&mut encrypted, &info);
    assert_eq!(encrypted, plain);
}

#[test]
fn cbcs_pattern_skips_clear_blocks_without_chaining_them() {
    let key = [0x33u8; 16];
    let iv = [0x44u8; 16];
    let plain = (0u8..64).collect::<Vec<_>>();
    let mut encrypted = plain.clone();

    let mut state = iv;
    encrypt_cbc_blocks_stateful(&key, &mut state, &mut encrypted[0..16]);
    encrypt_cbc_blocks_stateful(&key, &mut state, &mut encrypted[32..48]);

    let d = Decryptor::new_cbcs(key, 1, 1);
    let info = SampleInfo {
        data_range: (0, encrypted.len()),
        duration: 0,
        cts_offset: 0,
        iv: iv.to_vec(),
        subsamples: Vec::new(),
    };
    d.decrypt_sample(&mut encrypted, &info);
    assert_eq!(encrypted, plain);
}

fn encrypt_cbc_blocks(key: &[u8; 16], iv: &[u8; 16], data: &mut [u8]) {
    let mut state = *iv;
    encrypt_cbc_blocks_stateful(key, &mut state, data);
}

fn encrypt_cbc_blocks_stateful(key: &[u8; 16], iv: &mut [u8; 16], data: &mut [u8]) {
    let cipher = aes::Aes128::new(key.into());
    for chunk in data.chunks_exact_mut(16) {
        for i in 0..16 {
            chunk[i] ^= iv[i];
        }
        let mut block = GenericArray::clone_from_slice(chunk);
        cipher.encrypt_block(&mut block);
        chunk.copy_from_slice(&block);
        iv.copy_from_slice(chunk);
    }
}

fn encrypt_for_test(plaintext: &[u8], key: [u8; 16], iv: [u8; 16]) -> Vec<u8> {
    let mut data = plaintext.to_vec();
    let pad = 16 - (data.len() % 16);
    data.extend(std::iter::repeat(pad as u8).take(pad));

    let cipher = aes::Aes128::new(GenericArray::from_slice(&key));
    let mut prev = iv;
    for block in data.chunks_exact_mut(16) {
        for (b, p) in block.iter_mut().zip(prev) {
            *b ^= p;
        }
        cipher.encrypt_block(GenericArray::from_mut_slice(block));
        prev = block.try_into().expect("chunks_exact(16)");
    }
    data
}

#[test]
fn default_iv_is_big_endian_media_sequence() {
    let iv = iv_from_media_sequence(0x0102_0304_0506_0708);
    assert_eq!(&iv[..8], &[0u8; 8]);
    assert_eq!(&iv[8..], &[1, 2, 3, 4, 5, 6, 7, 8]);
}

#[test]
fn decrypt_roundtrip_removes_pkcs7_padding() {
    let key = [0x11u8; 16];
    let iv = [0x22u8; 16];
    let plain = b"two ts packets worth of bytes";
    let enc = encrypt_for_test(plain, key, iv);
    let dec = decrypt_aes128_cbc_pkcs7(&enc, key, iv).unwrap();
    assert_eq!(dec, plain);
}

#[test]
fn rejects_non_block_multiple() {
    let err = decrypt_aes128_cbc_pkcs7(&[1, 2, 3], [0u8; 16], [0u8; 16]).unwrap_err();
    assert!(err.message().contains("multiple of 16"));
}

#[test]
fn rejects_bad_padding() {
    let err = decrypt_aes128_cbc_pkcs7(&[0u8; 16], [0u8; 16], [0u8; 16]).unwrap_err();
    assert!(err.message().contains("unpad"));
}

#[test]
fn converts_playready_guid_to_common_kid() {
    assert_eq!(
        playready_kid_value_to_common_hex("724Zm6/f3kyfZ8FOH2OUyg==").unwrap(),
        "9b196eefdfaf4cde9f67c14e1f6394ca"
    );
}

#[test]
fn extracts_utf16_kid_from_data_uri() {
    let xml = r#"<WRMHEADER><DATA><KID>724Zm6/f3kyfZ8FOH2OUyg==</KID></DATA></WRMHEADER>"#;
    let utf16: Vec<u8> = xml.encode_utf16().flat_map(|u| u.to_le_bytes()).collect();
    let uri = format!("data:text/plain;base64,{}", STANDARD.encode(utf16));
    assert_eq!(
        kid_from_playready_data_uri(&uri).unwrap(),
        "9b196eefdfaf4cde9f67c14e1f6394ca"
    );
}
