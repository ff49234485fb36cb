use blindsort::cipher::{decrypt_array, encrypt_array, KeyPair};

#[test]
fn encrypt_decrypt_round_trip() {
    let keys = KeyPair::generate();
    let encrypted = encrypt_array(&[5, 7, 3, 2], &keys);
    assert_eq!(decrypt_array(&encrypted, &keys), vec![5, 7, 3, 2]);
}
