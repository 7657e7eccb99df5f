use axcryptor::container::{
    algorithm_tag, append_batch_entry, frame_file, read_batch, read_file, tag_algorithm,
    FrameError, AES_TAG, CHACHA_TAG,
};
use axcryptor::encryption::{
    decrypt_data, encrypt_data, seal_data, CryptoError, DecryptionInput, EncryptionResult,
    NONCE_SIZE, SALT_SIZE,
};
use axcryptor::handlers::{
    accepts_ciphertext, accepts_password, accepts_plaintext, is_base64,
    decrypt_batch_payload, decrypt_file_payload, encrypt_batch_payload, encrypt_file_payload,
    parse_algorithm_name, PayloadError,
};
use axcryptor::models::Algorithm;
use axcryptor::utils::xor_encrypt;

fn sample_result() -> EncryptionResult {
    EncryptionResult {
        encrypted_data: vec![0xAA, 0xBB, 0xCC],
        nonce: (0u8..12).collect(),
        salt: (100u8..132).collect(),
    }
}

#[test]
fn xor_encrypt_repeats_the_password() {
    assert_eq!(xor_encrypt(&[1, 2, 3], "ab"), vec![0x60, 0x60, 0x62]);
    assert_eq!(xor_encrypt(&[0, 0, 0, 0, 0], "xyz"), b"xyzxy".to_vec());
}

#[test]
fn xor_encrypt_with_empty_password_gives_nothing() {
    assert_eq!(xor_encrypt(&[1, 2, 3], ""), Vec::<u8>::new());
    assert_eq!(xor_encrypt(&[], "key"), Vec::<u8>::new());
}

#[test]
fn xor_encrypt_twice_gives_the_data_back() {
    let data = b"attack at dawn".to_vec();
    let once = xor_encrypt(&data, "s3cret");
    assert_ne!(once, data);
    assert_eq!(xor_encrypt(&once, "s3cret"), data);
}

#[test]
fn algorithm_names_are_read() {
    assert_eq!(parse_algorithm_name("AES256"), Some(Algorithm::AES256));
    assert_eq!(parse_algorithm_name("ChaCha20"), Some(Algorithm::ChaCha20));
    assert_eq!(parse_algorithm_name("aes256"), None);
    assert_eq!(parse_algorithm_name("ChaCha2"), None);
    assert_eq!(parse_algorithm_name(""), None);
}

#[test]
fn algorithm_tags_round_trip() {
    assert_eq!(algorithm_tag(&Algorithm::AES256), AES_TAG);
    assert_eq!(algorithm_tag(&Algorithm::ChaCha20), CHACHA_TAG);
    assert_eq!(tag_algorithm(0x01), Some(Algorithm::AES256));
    assert_eq!(tag_algorithm(0x02), Some(Algorithm::ChaCha20));
    assert_eq!(tag_algorithm(0x00), None);
    assert_eq!(tag_algorithm(0x03), None);
}

#[test]
fn error_texts() {
    assert_eq!(CryptoError::AesDecryption.describe(), "AES decryption failed: aead::Error");
    assert_eq!(CryptoError::ChaChaDecryption.describe(), "ChaCha20 decryption failed: aead::Error");
    assert_eq!(CryptoError::KeyDerivation.describe(), "Password hashing error");
}

#[test]
fn file_frame_layout() {
    let r = sample_result();
    let framed = frame_file(&Algorithm::ChaCha20, &r);
    assert_eq!(framed.len(), 1 + 32 + 12 + 3);
    assert_eq!(framed[0], 0x02);
    assert_eq!(&framed[1..33], &r.salt[..]);
    assert_eq!(&framed[33..45], &r.nonce[..]);
    assert_eq!(&framed[45..], &[0xAA, 0xBB, 0xCC]);
    let (alg, input) = read_file(&framed).unwrap();
    assert_eq!(alg, Algorithm::ChaCha20);
    assert_eq!(input.salt, r.salt);
    assert_eq!(input.nonce, r.nonce);
    assert_eq!(input.encrypted_data, r.encrypted_data);
}

#[test]
fn file_frame_errors() {
    assert_eq!(read_file(&[]).err(), Some(FrameError::Truncated));
    assert_eq!(read_file(&[0x07; 60]).err(), Some(FrameError::UnknownAlgorithm));
    assert_eq!(read_file(&[0x01; 44]).err(), Some(FrameError::TooShort));
    let (_, input) = read_file(&[0x01; 45]).unwrap();
    assert!(input.encrypted_data.is_empty());
}

#[test]
fn batch_entry_layout() {
    let r = sample_result();
    let mut combined = vec![0x55];
    append_batch_entry(&mut combined, &Algorithm::AES256, &r);
    assert_eq!(combined.len(), 1 + 53 + 3);
    assert_eq!(combined[1], 0x01);
    assert_eq!(&combined[46..54], &3u64.to_le_bytes());
    assert_eq!(&combined[54..], &[0xAA, 0xBB, 0xCC]);
}

#[test]
fn batch_frame_round_trip() {
    let r = sample_result();
    let mut combined = Vec::new();
    append_batch_entry(&mut combined, &Algorithm::AES256, &r);
    append_batch_entry(&mut combined, &Algorithm::ChaCha20, &r);
    let entries = read_batch(&combined).unwrap();
    assert_eq!(entries.len(), 2);
    assert_eq!(entries[0].0, Algorithm::AES256);
    assert_eq!(entries[1].0, Algorithm::ChaCha20);
    assert_eq!(entries[1].1.encrypted_data, r.encrypted_data);
    assert_eq!(entries[1].1.salt, r.salt);
    assert_eq!(entries[1].1.nonce, r.nonce);
}

#[test]
fn batch_read_errors_and_stops() {
    assert_eq!(read_batch(&[]).unwrap().len(), 0);
    assert_eq!(read_batch(&[0x09, 0, 0]).err(), Some(FrameError::UnknownAlgorithm));
    assert_eq!(read_batch(&[0x01; 52]).err(), Some(FrameError::Truncated));
    // a length that runs past the end stops the reading
    let r = sample_result();
    let mut combined = Vec::new();
    append_batch_entry(&mut combined, &Algorithm::AES256, &r);
    let mut broken = vec![0x02];
    broken.extend_from_slice(&[0u8; 44]);
    broken.extend_from_slice(&100u64.to_le_bytes());
    broken.extend_from_slice(&[1, 2, 3]);
    combined.extend_from_slice(&broken);
    assert_eq!(read_batch(&combined).unwrap().len(), 1);
    // a length that overflows the index is refused
    let mut overflow = vec![0x01];
    overflow.extend_from_slice(&[0u8; 44]);
    overflow.extend_from_slice(&u64::MAX.to_le_bytes());
    assert_eq!(read_batch(&overflow).err(), Some(FrameError::Truncated));
}

#[test]
fn seal_data_is_deterministic_given_salt_and_nonce() {
    let salt = vec![7u8; 32];
    let nonce = vec![9u8; 12];
    let a = seal_data(b"hello", "pw", &Algorithm::AES256, salt.clone(), nonce.clone());
    let b = seal_data(b"hello", "pw", &Algorithm::AES256, salt.clone(), nonce.clone());
    assert_eq!(a.encrypted_data, b.encrypted_data);
    assert_eq!(a.encrypted_data.len(), 5 + 16);
    assert_ne!(&a.encrypted_data[..5], b"hello");
    let input = DecryptionInput { encrypted_data: a.encrypted_data, nonce, salt };
    assert_eq!(decrypt_data(input, "pw", &Algorithm::AES256).unwrap(), b"hello".to_vec());
}

#[test]
fn encrypt_then_decrypt_aes() {
    let data = b"the quick brown fox".to_vec();
    let res = encrypt_data(&data, "hunter2", &Algorithm::AES256).unwrap();
    assert_eq!(res.salt.len(), SALT_SIZE);
    assert_eq!(res.nonce.len(), NONCE_SIZE);
    assert_eq!(res.encrypted_data.len(), data.len() + 16);
    assert!(res.salt.iter().any(|b| *b != 0));
    let input = DecryptionInput { encrypted_data: res.encrypted_data, nonce: res.nonce, salt: res.salt };
    assert_eq!(decrypt_data(input, "hunter2", &Algorithm::AES256).unwrap(), data);
}

#[test]
fn encrypt_then_decrypt_chacha() {
    let data = vec![0u8, 1, 2, 3, 255];
    let res = encrypt_data(&data, "pässwörd", &Algorithm::ChaCha20).unwrap();
    let input = DecryptionInput { encrypted_data: res.encrypted_data, nonce: res.nonce, salt: res.salt };
    assert_eq!(decrypt_data(input, "pässwörd", &Algorithm::ChaCha20).unwrap(), data);
}

#[test]
fn decrypt_with_wrong_password_fails() {
    let res = encrypt_data(b"secret", "right", &Algorithm::ChaCha20).unwrap();
    let input = DecryptionInput { encrypted_data: res.encrypted_data, nonce: res.nonce, salt: res.salt };
    assert_eq!(decrypt_data(input, "wrong", &Algorithm::ChaCha20), Err(CryptoError::ChaChaDecryption));
}

#[test]
fn decrypt_with_other_algorithm_fails() {
    let res = encrypt_data(b"secret", "pw", &Algorithm::AES256).unwrap();
    let input = DecryptionInput { encrypted_data: res.encrypted_data, nonce: res.nonce, salt: res.salt };
    assert_eq!(decrypt_data(input, "pw", &Algorithm::ChaCha20), Err(CryptoError::ChaChaDecryption));
}

#[test]
fn tampered_ciphertext_fails() {
    let res = encrypt_data(b"secret", "pw", &Algorithm::AES256).unwrap();
    let mut data = res.encrypted_data;
    data[0] ^= 1;
    let input = DecryptionInput { encrypted_data: data, nonce: res.nonce, salt: res.salt };
    assert_eq!(decrypt_data(input, "pw", &Algorithm::AES256), Err(CryptoError::AesDecryption));
}

#[test]
fn file_payload_round_trip() {
    let text = encrypt_file_payload(b"file contents", "pw", &Algorithm::AES256).unwrap();
    assert!(text.starts_with("A"));
    assert_eq!(decrypt_file_payload(&text, "pw"), Ok("ZmlsZSBjb250ZW50cw==".to_string()));
}

#[test]
fn file_payload_errors() {
    assert_eq!(decrypt_file_payload("not base64!", "pw"), Err(PayloadError::BadRequest));
    assert_eq!(decrypt_file_payload("", "pw"), Err(PayloadError::Malformed));
    // tag 0x03
    assert_eq!(decrypt_file_payload("AwAA", "pw"), Err(PayloadError::BadRequest));
    // tag 0x01, too short
    assert_eq!(decrypt_file_payload("AQAA", "pw"), Err(PayloadError::BadRequest));
    let text = encrypt_file_payload(b"x", "pw", &Algorithm::ChaCha20).unwrap();
    assert_eq!(
        decrypt_file_payload(&text, "other"),
        Err(PayloadError::Decryption(CryptoError::ChaChaDecryption))
    );
}

#[test]
fn batch_payload_round_trip() {
    let files = vec![b"one".to_vec(), Vec::new(), b"three".to_vec()];
    let (text, successful) = encrypt_batch_payload(&files, "pw", &Algorithm::ChaCha20);
    assert_eq!(successful, 3);
    let plain = decrypt_batch_payload(&text, "pw").unwrap();
    assert_eq!(plain, vec!["b25l".to_string(), "".to_string(), "dGhyZWU=".to_string()]);
}

#[test]
fn batch_payload_skips_what_does_not_decrypt() {
    let (text, _) = encrypt_batch_payload(&vec![b"a".to_vec()], "pw", &Algorithm::AES256);
    assert_eq!(decrypt_batch_payload(&text, "other"), Ok(Vec::new()));
    assert_eq!(decrypt_batch_payload("%%%", "pw"), Err(PayloadError::BadRequest));
    assert_eq!(decrypt_batch_payload("", "pw"), Ok(Vec::new()));
    assert_eq!(decrypt_batch_payload("AQ==", "pw"), Err(PayloadError::Malformed));
    assert_eq!(decrypt_batch_payload("Bw==", "pw"), Err(PayloadError::BadRequest));
}

#[test]
fn seal_data_chacha_changes_the_bytes() {
    let r = seal_data(b"plaintext", "pw", &Algorithm::ChaCha20, vec![1u8; 32], vec![2u8; 12]);
    assert_eq!(r.encrypted_data.len(), 9 + 16);
    assert_ne!(&r.encrypted_data[..9], b"plaintext");
    assert_eq!(r.salt, vec![1u8; 32]);
    assert_eq!(r.nonce, vec![2u8; 12]);
}

#[test]
fn seal_data_depends_on_password_and_salt() {
    let base = seal_data(b"data", "pw", &Algorithm::AES256, vec![3u8; 32], vec![4u8; 12]);
    let other_pw = seal_data(b"data", "pw2", &Algorithm::AES256, vec![3u8; 32], vec![4u8; 12]);
    let other_salt = seal_data(b"data", "pw", &Algorithm::AES256, vec![5u8; 32], vec![4u8; 12]);
    assert_ne!(base.encrypted_data, other_pw.encrypted_data);
    assert_ne!(base.encrypted_data, other_salt.encrypted_data);
}

#[test]
fn input_limits() {
    assert!(accepts_password("anything"));
    assert!(accepts_plaintext(&Algorithm::AES256, 1 << 36));
    assert!(!accepts_plaintext(&Algorithm::AES256, (1 << 36) + 1));
    assert!(accepts_plaintext(&Algorithm::ChaCha20, 64 * 0xFFFF_FFFE));
    assert!(!accepts_plaintext(&Algorithm::ChaCha20, 64 * 0xFFFF_FFFE + 1));
    assert!(!accepts_plaintext(&Algorithm::ChaCha20, 64 * 0xFFFF_FFFF));
    assert!(accepts_ciphertext(&Algorithm::AES256, usize::MAX));
    assert!(accepts_ciphertext(&Algorithm::ChaCha20, 64 * 0xFFFF_FFFE + 16));
    assert!(!accepts_ciphertext(&Algorithm::ChaCha20, 64 * 0xFFFF_FFFE + 17));
    assert!(!accepts_ciphertext(&Algorithm::ChaCha20, 64 * 0xFFFF_FFFF + 15));
    assert!(accepts_ciphertext(&Algorithm::ChaCha20, 64 * 0xFFFF_FFFF + 16));
    assert!(accepts_ciphertext(&Algorithm::ChaCha20, 3));
}

#[test]
fn ciphertext_shorter_than_tag_is_refused() {
    let input = DecryptionInput { encrypted_data: vec![1, 2, 3], nonce: vec![0u8; 12], salt: vec![0u8; 32] };
    assert_eq!(decrypt_data(input, "pw", &Algorithm::AES256), Err(CryptoError::AesDecryption));
    // a container whose ciphertext is empty
    let text = "AQAAAAAAAAAAAAAAAAAAAAAAAAAAAAAAAAAAAAAAAAAAAAAAAAAAAAAAAAAA";
    assert_eq!(
        decrypt_file_payload(text, "pw"),
        Err(PayloadError::Decryption(CryptoError::AesDecryption))
    );
}

#[test]
fn batch_without_entries_needs_no_key() {
    assert_eq!(decrypt_batch_payload("", "pw"), Ok(Vec::new()));
}

#[test]
fn base64_fields_are_checked() {
    assert!(is_base64("AQID"));
    assert!(is_base64(""));
    assert!(!is_base64("AQI"));
    assert!(!is_base64("not base64!"));
}

#[test]
fn empty_batch_is_an_empty_container() {
    let (text, successful) = encrypt_batch_payload(&Vec::new(), "pw", &Algorithm::AES256);
    assert_eq!(text, "");
    assert_eq!(successful, 0);
}

#[test]
fn base64_of_each_remainder() {
    // one, two and three trailing bytes, through the file container's encoding
    let one = encrypt_file_payload(b"", "pw", &Algorithm::AES256).unwrap();
    let two = encrypt_file_payload(b"a", "pw", &Algorithm::AES256).unwrap();
    let three = encrypt_file_payload(b"ab", "pw", &Algorithm::AES256).unwrap();
    // containers of 61, 62 and 63 bytes
    assert!(one.ends_with("=="));
    assert!(two.ends_with("=") && !two.ends_with("=="));
    assert!(!three.ends_with("="));
    assert_eq!(one.len(), 84);
}
