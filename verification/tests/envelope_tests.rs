//! Envelope decryption: padding round trips, AES-GCM round trips, and a
//! full encrypted envelope built with a test keypair.

use aes_gcm::aead::Aead;
use aes_gcm::{Aes256Gcm, KeyInit, Nonce};
use base64::Engine;
use kiro_rs::cloudpass::envelope::{
    aes256_gcm_open, decrypt_envelope, pkcs1_type1_pad, pkcs1_type1_unpad, EncryptedEnvelope,
    EnvelopeError, embedded_rsa_modulus, embedded_rsa_exponent,
};

const TEST_N_HEX: &str = "c788d18b19ff428875650d70269c70495f93963ab7bc04a8a2963b888f048ab54ae2f0bf42814950349cda7a7a9a2944bc7ffc2a9fda3ffcdf0b41c1aed29f8387cf0c9670f7746518a5010d3a748adc58f8b3bc74a1b027218c0cbcac6b55160db2f745ce2ac1e8e05adda5a7c793ff82317a0fe8d39eb59299e0a5a50c289449a17f09d97014ed2f4f47e86ad93b5db256356c600e6b29cef6f16cd88d973b2dee7948431e2210c9c3a2efe8b0d364059d618514dac65f54b10107f9922c36c4ee9c81d1beb192c5cbd3a6f4c9bbdbaba02948cbb83cd8dd2abb8b4b2eb792d489d7444452603f887e1f85b6bff4f79f6bb82ce4767da653028e1f137fb845";
const TEST_D_HEX: &str = "43e37f380ebe54caccf676de03a51267448798839de3f0c9d797b9e5ba9357065bd65f0713ff9d0c16fa8f3340e796c6f643ad6e6b38fcb072cb07b27862dd37094c1f0248a94906e49daf7feab5a0515c4c320b1abbb08d7fd280bae90713ca0f1b271aaf0cc9310cb49dd930feac92309fd8e1f4db9b9237b0f74824a1c06429d5fd4d518329776d45b951949fdbae1c7a7e15da1f8330ed6ed11d06d351a755c01df969cdca0f8df080e2d3fac0671e34a7a9bb806d4ef7d618e5c9882dde0cf4d5b136ecd828fd79ae96afba507e7ad33b4a9a853bde91e39573899cb0a558f6aec60432ee4ac1a3e2f07446563edc1d1db74835409ba4103ea0f8384141";

fn hex_bytes(s: &str) -> Vec<u8> {
    (0..s.len() / 2).map(|i| u8::from_str_radix(&s[2 * i..2 * i + 2], 16).unwrap()).collect()
}

#[test]
fn pkcs1_pad_unpad_identity_32_bytes() {
    let payload: Vec<u8> = (0u8..32).map(|b| b.wrapping_mul(7).wrapping_add(3)).collect();
    let padded = pkcs1_type1_pad(&payload, 256);
    assert_eq!(padded.len(), 256);
    assert_eq!(padded[0], 0x00);
    assert_eq!(padded[1], 0x01);
    let unpadded = pkcs1_type1_unpad(&padded).unwrap();
    assert_eq!(unpadded, payload);
}

#[test]
fn pkcs1_unpad_rejects_bad_marker() {
    let mut padded = pkcs1_type1_pad(&[9u8; 32], 256);
    padded[1] = 0x02;
    assert!(pkcs1_type1_unpad(&padded).is_none());
}

#[test]
fn aes_gcm_round_trip() {
    let key = [0x42u8; 32];
    let iv = [7u8; 12];
    let payload = b"{\"success\":true}".to_vec();
    let cipher = Aes256Gcm::new_from_slice(&key).unwrap();
    let ct_and_tag = cipher.encrypt(Nonce::from_slice(&iv), payload.as_slice()).unwrap();
    let opened = aes256_gcm_open(&key, &iv, &ct_and_tag).unwrap();
    assert_eq!(opened, payload);
}

#[test]
fn aes_gcm_rejects_bad_tag() {
    let key = [0x42u8; 32];
    let iv = [7u8; 12];
    let cipher = Aes256Gcm::new_from_slice(&key).unwrap();
    let mut ct = cipher.encrypt(Nonce::from_slice(&iv), b"hello".as_slice()).unwrap();
    let last = ct.len() - 1;
    ct[last] ^= 1;
    assert!(aes256_gcm_open(&key, &iv, &ct).is_none());
}

#[test]
fn encrypted_envelope_round_trip_with_test_keypair() {
    let n = hex_bytes(TEST_N_HEX);
    let d = hex_bytes(TEST_D_HEX);
    let e: Vec<u8> = vec![0x01, 0x00, 0x01];
    let aes_key: Vec<u8> = (0u8..32).map(|b| b.wrapping_mul(11).wrapping_add(5)).collect();
    // the server side: pad the AES key and apply the private exponent
    let padded = pkcs1_type1_pad(&aes_key, 256);
    let m = rsa::BigUint::from_bytes_be(&padded);
    let nn = rsa::BigUint::from_bytes_be(&n);
    let dd = rsa::BigUint::from_bytes_be(&d);
    let c = m.modpow(&dd, &nn);
    let mut c_bytes = c.to_bytes_be();
    while c_bytes.len() < 256 {
        c_bytes.insert(0, 0);
    }
    let iv = [3u8; 12];
    let payload = br#"{"success":true,"refreshToken":"rZ"}"#.to_vec();
    let cipher = Aes256Gcm::new_from_slice(&aes_key).unwrap();
    let ct_and_tag = cipher.encrypt(Nonce::from_slice(&iv), payload.as_slice()).unwrap();
    let tag = ct_and_tag[ct_and_tag.len() - 16..].to_vec();
    let data = ct_and_tag[..ct_and_tag.len() - 16].to_vec();
    let b64 = base64::engine::general_purpose::STANDARD;
    let env = EncryptedEnvelope {
        key_b64: b64.encode(&c_bytes),
        iv_b64: b64.encode(iv),
        tag_b64: b64.encode(&tag),
        data_b64: b64.encode(&data),
    };
    let pt = decrypt_envelope(&env, &n, &e).unwrap();
    assert_eq!(pt, payload);
}

#[test]
fn envelope_rejects_bad_base64() {
    let n = hex_bytes(TEST_N_HEX);
    let e: Vec<u8> = vec![0x01, 0x00, 0x01];
    let env = EncryptedEnvelope {
        key_b64: "!!!not base64!!!".to_string(),
        iv_b64: String::new(),
        tag_b64: String::new(),
        data_b64: String::new(),
    };
    assert_eq!(decrypt_envelope(&env, &n, &e), Err(EnvelopeError::BadKeyEncoding));
}

#[test]
fn embedded_key_shape() {
    let n = embedded_rsa_modulus();
    assert_eq!(n.len(), 256);
    assert_ne!(n[0], 0);
    assert_eq!(embedded_rsa_exponent(), vec![0x01, 0x00, 0x01]);
}
