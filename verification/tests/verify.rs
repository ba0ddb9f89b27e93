use pyroxene::verify::{public_key_of, sign_data, verify_data};
use rsa::pkcs8::{EncodePrivateKey, EncodePublicKey};
use rsa::RsaPrivateKey;

fn key_pair(bits: usize) -> (Vec<u8>, Vec<u8>) {
    let key = RsaPrivateKey::new(&mut rand::thread_rng(), bits).expect("Failed to generate a private key");
    let private_der = key.to_pkcs8_der().unwrap().as_bytes().to_vec();
    let public_der = key.to_public_key().to_public_key_der().unwrap().into_vec();
    (private_der, public_der)
}

#[test]
fn test_verify() {
    let data = [1, 2, 3, 4, 5, 6, 7, 8, 9, 10u8];
    let (private_der, public_der) = key_pair(2048);
    let signature = sign_data(&data, &private_der).unwrap();
    verify_data(&data, &signature, &public_der);
}

#[test]
fn signatures_check_out_and_tampering_is_caught() {
    let data = b"block 42".to_vec();
    let (private_der, public_der) = key_pair(1024);
    let signature = sign_data(&data, &private_der).unwrap();
    assert!(verify_data(&data, &signature, &public_der));
    assert!(!verify_data(b"block 43", &signature, &public_der));
    let mut bad = signature.clone();
    bad[0] ^= 1;
    assert!(!verify_data(&data, &bad, &public_der));
    let (_, other_public) = key_pair(1024);
    assert!(!verify_data(&data, &signature, &other_public));
}

#[test]
fn undecodable_keys() {
    assert!(sign_data(b"x", &[1, 2, 3]).is_none());
    assert!(!verify_data(b"x", &[0; 128], &[1, 2, 3]));
}

#[test]
fn signature_checks_under_derived_public_key() {
    let data = b"a transaction".to_vec();
    let (private_der, public_der) = key_pair(1024);
    let derived = public_key_of(&private_der).unwrap();
    assert_eq!(derived, public_der);
    let signature = sign_data(&data, &private_der).unwrap();
    assert!(verify_data(&data, &signature, &derived));
    assert!(public_key_of(&[0, 1, 2]).is_none());
}
