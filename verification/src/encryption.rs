//! Password-based authenticated encryption of one file: a key derived with
//! Argon2 from the password and a salt, then AES-256-GCM or ChaCha20-Poly1305
//! under a nonce.
use vstd::prelude::*;
use vstd::slice::slice_subrange;
use vstd::utf8::encode_utf8;
use crate::models::Algorithm;
use crate::outside::{
    aes256gcm_decrypt, aes256gcm_encrypt, aes256gcm_open, aes256gcm_seal, aes_gcm_max_plaintext,
    argon2_default_hash, argon2_hash_password, chacha20poly1305_decrypt, chacha20poly1305_encrypt,
    chacha20poly1305_open, chacha20poly1305_seal, chacha_accepts_len, chacha_panics_on_len,
    fill_random,
};

verus! {

/// Bytes of nonce that `encrypt_data` draws.
pub const NONCE_SIZE: usize = 12;

/// Bytes of salt that `encrypt_data` draws.
pub const SALT_SIZE: usize = 32;

/// What encrypting a file gives: the ciphertext (tag included) and the
/// nonce and salt it was made with.
pub struct EncryptionResult {
    pub encrypted_data: Vec<u8>,
    pub nonce: Vec<u8>,
    pub salt: Vec<u8>,
}

/// What decrypting a file needs besides the password and the algorithm.
pub struct DecryptionInput {
    pub encrypted_data: Vec<u8>,
    pub nonce: Vec<u8>,
    pub salt: Vec<u8>,
}

/// Why encrypting or decrypting failed.
#[derive(Debug, Clone, Copy, PartialEq, Eq, Structural)]
pub enum CryptoError {
    /// Argon2 refused the password or the salt.
    KeyDerivation,
    /// AES-256-GCM refused to encrypt (the plaintext is too long).
    AesEncryption,
    /// ChaCha20-Poly1305 refused to encrypt (the plaintext is too long).
    ChaChaEncryption,
    /// AES-256-GCM found the ciphertext not authentic.
    AesDecryption,
    /// ChaCha20-Poly1305 found the ciphertext not authentic.
    ChaChaDecryption,
}

impl CryptoError {
    /// The error's text, as the service reports it.
    pub fn describe(&self) -> (s: &'static str)
        ensures
            s@ == crypto_error_text(*self)@,
    {
        match self {
            CryptoError::KeyDerivation => "Password hashing error",
            CryptoError::AesEncryption => "AES encryption failed: aead::Error",
            CryptoError::ChaChaEncryption => "ChaCha20 encryption failed: aead::Error",
            CryptoError::AesDecryption => "AES decryption failed: aead::Error",
            CryptoError::ChaChaDecryption => "ChaCha20 decryption failed: aead::Error",
        }
    }
}

/// The text of each error.
pub open spec fn crypto_error_text(e: CryptoError) -> &'static str {
    match e {
        CryptoError::KeyDerivation => "Password hashing error",
        CryptoError::AesEncryption => "AES encryption failed: aead::Error",
        CryptoError::ChaChaEncryption => "ChaCha20 encryption failed: aead::Error",
        CryptoError::AesDecryption => "AES decryption failed: aead::Error",
        CryptoError::ChaChaDecryption => "ChaCha20 decryption failed: aead::Error",
    }
}

/// The key that a password and a salt give: the whole 32-byte Argon2 hash.
pub open spec fn derived_key(password: Seq<char>, salt: Seq<u8>) -> Seq<u8> {
    argon2_default_hash(password, salt)
}

/// Whether Argon2 derives a key from this password and salt: the salt has 8
/// to 48 bytes and the password at most `u32::MAX` bytes.
pub open spec fn key_derivable(password: Seq<char>, salt: Seq<u8>) -> bool {
    &&& 8 <= salt.len() <= 48
    &&& encode_utf8(password).len() <= 0xFFFF_FFFF
}

/// Whether the algorithm's decryption answers on a ciphertext of `len`
/// bytes whatever it holds: ChaCha20-Poly1305 panics on an authentic
/// ciphertext whose body has one of the lengths that `chacha_panics_on_len`
/// names.
pub open spec fn ciphertext_processable(algorithm: Algorithm, len: nat) -> bool {
    algorithm == Algorithm::AES256 || len < 16 || !chacha_panics_on_len((len - 16) as nat)
}

/// Whether the algorithm encrypts a plaintext of `len` bytes.
pub open spec fn plaintext_fits(algorithm: Algorithm, len: nat) -> bool {
    match algorithm {
        Algorithm::AES256 => len <= aes_gcm_max_plaintext(),
        Algorithm::ChaCha20 => chacha_accepts_len(len),
    }
}

/// The ciphertext of `data` under the algorithm, the key and the first 12
/// bytes of the nonce.
pub open spec fn seal_with_key(algorithm: Algorithm, key: Seq<u8>, nonce: Seq<u8>, data: Seq<u8>) -> Seq<u8> {
    match algorithm {
        Algorithm::AES256 => aes256gcm_seal(key, nonce.take(12), data),
        Algorithm::ChaCha20 => chacha20poly1305_seal(key, nonce.take(12), data),
    }
}

/// The plaintext of `ciphertext` under the algorithm, the key and the first
/// 12 bytes of the nonce, if it is authentic.
pub open spec fn open_with_key(
    algorithm: Algorithm,
    key: Seq<u8>,
    nonce: Seq<u8>,
    ciphertext: Seq<u8>,
) -> Option<Seq<u8>> {
    match algorithm {
        Algorithm::AES256 => aes256gcm_open(key, nonce.take(12), ciphertext),
        Algorithm::ChaCha20 => chacha20poly1305_open(key, nonce.take(12), ciphertext),
    }
}

/// The ciphertext that `password`, `salt` and `nonce` give for `data`.
pub open spec fn sealed_data(
    algorithm: Algorithm,
    password: Seq<char>,
    salt: Seq<u8>,
    nonce: Seq<u8>,
    data: Seq<u8>,
) -> Seq<u8> {
    seal_with_key(algorithm, derived_key(password, salt), nonce, data)
}

/// The plaintext that `password`, `salt` and `nonce` give for `ciphertext`.
pub open spec fn opened_data(
    algorithm: Algorithm,
    password: Seq<char>,
    salt: Seq<u8>,
    nonce: Seq<u8>,
    ciphertext: Seq<u8>,
) -> Option<Seq<u8>> {
    open_with_key(algorithm, derived_key(password, salt), nonce, ciphertext)
}

/// The error that a failed decryption with the algorithm reports.
pub open spec fn decryption_error(algorithm: Algorithm) -> CryptoError {
    match algorithm {
        Algorithm::AES256 => CryptoError::AesDecryption,
        Algorithm::ChaCha20 => CryptoError::ChaChaDecryption,
    }
}

/// The error that a refused encryption with the algorithm reports.
pub open spec fn encryption_error(algorithm: Algorithm) -> CryptoError {
    match algorithm {
        Algorithm::AES256 => CryptoError::AesEncryption,
        Algorithm::ChaCha20 => CryptoError::ChaChaEncryption,
    }
}

/// Derives the 32-byte key from the password and the salt with Argon2:
/// the hash's first 32 bytes, zero-padded where it is shorter (it never is).
fn derive_key(password: &str, salt: &[u8]) -> (r: Result<[u8; 32], CryptoError>)
    requires
        salt@.len() >= 3,
    ensures
        r is Ok <==> key_derivable(password@, salt@),
        r matches Ok(k) ==> k@ == derived_key(password@, salt@),
        r matches Ok(k) ==> k@ == argon2_default_hash(password@, salt@),
        r matches Err(e) ==> e == CryptoError::KeyDerivation,
{
    let hash = match argon2_hash_password(password, salt) {
        Ok(Some(h)) => h,
        _ => {
            return Err(CryptoError::KeyDerivation);
        },
    };
    let mut key = [0u8; 32];
    let copy_len: usize = if hash.len() < 32 {
        hash.len()
    } else {
        32
    };
    let mut i: usize = 0;
    while i < copy_len
        invariant
            copy_len <= 32,
            copy_len <= hash@.len(),
            i <= copy_len,
            key@.len() == 32,
            forall|j: int| 0 <= j < i ==> key@[j] == hash@[j],
            forall|j: int| i <= j < 32 ==> key@[j] == 0u8,
        decreases copy_len - i,
    {
        key[i] = hash[i];
        i = i + 1;
    }
    assert(key@ =~= hash@);
    Ok(key)
}

/// Encrypts with AES-256-GCM under the key and the nonce's first 12 bytes.
fn encrypt_aes(data: &[u8], key: &[u8; 32], nonce: &[u8]) -> (r: Vec<u8>)
    requires
        nonce@.len() >= 12,
        data@.len() <= aes_gcm_max_plaintext(),
    ensures
        r@ == aes256gcm_seal(key@, nonce@.take(12), data@),
        r@.len() == data@.len() + 16,
{
    let nonce = slice_subrange(nonce, 0, 12);
    aes256gcm_encrypt(key, nonce, data).unwrap()
}

/// Encrypts with AES-256-GCM, reporting a refusal as an error.
fn not_encrypt_aes(data: &[u8], key: &[u8; 32], nonce: &[u8]) -> (r: Result<Vec<u8>, CryptoError>)
    requires
        nonce@.len() >= 12,
    ensures
        r is Ok <==> data@.len() <= aes_gcm_max_plaintext(),
        r matches Ok(c) ==> c@ == aes256gcm_seal(key@, nonce@.take(12), data@) && c@.len()
            == data@.len() + 16,
        r matches Err(e) ==> e == CryptoError::AesEncryption,
{
    let nonce = slice_subrange(nonce, 0, 12);
    match aes256gcm_encrypt(key, nonce, data) {
        Ok(c) => Ok(c),
        Err(_) => Err(CryptoError::AesEncryption),
    }
}

/// Encrypts with ChaCha20-Poly1305 under the key and the nonce's first 12 bytes.
fn encrypt_chacha20(data: &[u8], key: &[u8; 32], nonce: &[u8]) -> (r: Vec<u8>)
    requires
        nonce@.len() >= 12,
        chacha_accepts_len(data@.len()),
    ensures
        r@ == chacha20poly1305_seal(key@, nonce@.take(12), data@),
        r@.len() == data@.len() + 16,
{
    let nonce = slice_subrange(nonce, 0, 12);
    chacha20poly1305_encrypt(key, nonce, data).unwrap()
}

/// Encrypts with ChaCha20-Poly1305, reporting a refusal as an error.
fn not_encrypt_chacha20(data: &[u8], key: &[u8; 32], nonce: &[u8]) -> (r: Result<Vec<u8>, CryptoError>)
    requires
        nonce@.len() >= 12,
        !chacha_panics_on_len(data@.len()),
    ensures
        r is Ok <==> chacha_accepts_len(data@.len()),
        r matches Ok(c) ==> c@ == chacha20poly1305_seal(key@, nonce@.take(12), data@) && c@.len()
            == data@.len() + 16,
        r matches Err(e) ==> e == CryptoError::ChaChaEncryption,
{
    let nonce = slice_subrange(nonce, 0, 12);
    match chacha20poly1305_encrypt(key, nonce, data) {
        Ok(c) => Ok(c),
        Err(_) => Err(CryptoError::ChaChaEncryption),
    }
}

/// Decrypts with AES-256-GCM under the key and the nonce's first 12 bytes.
fn decrypt_aes(encrypted_data: &[u8], key: &[u8; 32], nonce: &[u8]) -> (r: Result<Vec<u8>, CryptoError>)
    requires
        nonce@.len() >= 12,
    ensures
        r is Ok <==> aes256gcm_open(key@, nonce@.take(12), encrypted_data@) is Some,
        r matches Ok(p) ==> aes256gcm_open(key@, nonce@.take(12), encrypted_data@) == Some(p@),
        r matches Err(e) ==> e == CryptoError::AesDecryption,
        encrypted_data@.len() < 16 ==> r is Err,
        r matches Ok(p) ==> p@.len() + 16 == encrypted_data@.len(),
        forall|m: Seq<u8>|
            m.len() <= aes_gcm_max_plaintext() && encrypted_data@ == #[trigger] aes256gcm_seal(
                key@,
                nonce@.take(12),
                m,
            ) ==> (r matches Ok(p) && p@ == m),
{
    let nonce = slice_subrange(nonce, 0, 12);
    match aes256gcm_decrypt(key, nonce, encrypted_data) {
        Ok(p) => Ok(p),
        Err(_) => Err(CryptoError::AesDecryption),
    }
}

/// Decrypts with ChaCha20-Poly1305 under the key and the nonce's first 12 bytes.
fn decrypt_chacha20(encrypted_data: &[u8], key: &[u8; 32], nonce: &[u8]) -> (r: Result<
    Vec<u8>,
    CryptoError,
>)
    requires
        nonce@.len() >= 12,
        ciphertext_processable(Algorithm::ChaCha20, encrypted_data@.len())
            || chacha20poly1305_open(key@, nonce@.take(12), encrypted_data@) is None,
    ensures
        r is Ok <==> chacha20poly1305_open(key@, nonce@.take(12), encrypted_data@) is Some,
        r matches Ok(p) ==> chacha20poly1305_open(key@, nonce@.take(12), encrypted_data@) == Some(
            p@,
        ),
        r matches Err(e) ==> e == CryptoError::ChaChaDecryption,
        encrypted_data@.len() < 16 ==> r is Err,
        r matches Ok(p) ==> p@.len() + 16 == encrypted_data@.len(),
        forall|m: Seq<u8>|
            chacha_accepts_len(m.len()) && encrypted_data@ == #[trigger] chacha20poly1305_seal(
                key@,
                nonce@.take(12),
                m,
            ) ==> (r matches Ok(p) && p@ == m),
{
    let nonce = slice_subrange(nonce, 0, 12);
    match chacha20poly1305_decrypt(key, nonce, encrypted_data) {
        Ok(p) => Ok(p),
        Err(_) => Err(CryptoError::ChaChaDecryption),
    }
}

/// Encrypts `data` with a key derived from the password and the given salt,
/// under the given nonce.
pub fn seal_data(data: &[u8], password: &str, algorithm: &Algorithm, salt: Vec<u8>, nonce: Vec<u8>) -> (r:
    EncryptionResult)
    requires
        key_derivable(password@, salt@),
        nonce@.len() >= 12,
        plaintext_fits(*algorithm, data@.len()),
    ensures
        r.salt@ == salt@,
        r.nonce@ == nonce@,
        r.encrypted_data@ == sealed_data(*algorithm, password@, salt@, nonce@, data@),
        r.encrypted_data@.len() == data@.len() + 16,
{
    let key = derive_key(password, salt.as_slice()).unwrap();
    let encrypted_data = match algorithm {
        Algorithm::AES256 => encrypt_aes(data, &key, nonce.as_slice()),
        Algorithm::ChaCha20 => encrypt_chacha20(data, &key, nonce.as_slice()),
    };
    EncryptionResult { encrypted_data, nonce, salt }
}

/// Encrypts `data` under a fresh random salt and nonce.
pub fn encrypt_data(data: &[u8], password: &str, algorithm: &Algorithm) -> (r: Result<
    EncryptionResult,
    CryptoError,
>)
    requires
        encode_utf8(password@).len() <= 0xFFFF_FFFF,
        plaintext_fits(*algorithm, data@.len()),
    ensures
        r matches Ok(res) && res.salt@.len() == SALT_SIZE && res.nonce@.len() == NONCE_SIZE
            && res.encrypted_data@.len() == data@.len() + 16 && res.encrypted_data@ == sealed_data(
            *algorithm,
            password@,
            res.salt@,
            res.nonce@,
            data@,
        ),
{
    let mut salt = vec![0u8; SALT_SIZE];
    fill_random(&mut salt);
    let mut nonce = vec![0u8; NONCE_SIZE];
    fill_random(&mut nonce);
    Ok(seal_data(data, password, algorithm, salt, nonce))
}

/// Decrypts a file with the password and the algorithm it was encrypted
/// with. A ciphertext that encryption made with this password, salt, nonce
/// and algorithm decrypts to the plaintext that was encrypted.
pub fn decrypt_data(input: DecryptionInput, password: &str, algorithm: &Algorithm) -> (r: Result<
    Vec<u8>,
    CryptoError,
>)
    requires
        key_derivable(password@, input.salt@),
        input.nonce@.len() >= 12,
        ciphertext_processable(*algorithm, input.encrypted_data@.len()) || opened_data(
            *algorithm,
            password@,
            input.salt@,
            input.nonce@,
            input.encrypted_data@,
        ) is None,
    ensures
        r is Ok <==> opened_data(
            *algorithm,
            password@,
            input.salt@,
            input.nonce@,
            input.encrypted_data@,
        ) is Some,
        r matches Ok(p) ==> opened_data(
            *algorithm,
            password@,
            input.salt@,
            input.nonce@,
            input.encrypted_data@,
        ) == Some(p@),
        r matches Err(e) ==> e == decryption_error(*algorithm),
        input.encrypted_data@.len() < 16 ==> r is Err,
        r matches Ok(p) ==> p@.len() + 16 == input.encrypted_data@.len(),
        forall|m: Seq<u8>|
            plaintext_fits(*algorithm, m.len()) && input.encrypted_data@ == #[trigger] sealed_data(
                *algorithm,
                password@,
                input.salt@,
                input.nonce@,
                m,
            ) ==> (r matches Ok(p) && p@ == m),
{
    let key = derive_key(password, input.salt.as_slice()).unwrap();
    let decrypted_data = match algorithm {
        Algorithm::AES256 => decrypt_aes(input.encrypted_data.as_slice(), &key, input.nonce.as_slice())?,
        Algorithm::ChaCha20 => decrypt_chacha20(
            input.encrypted_data.as_slice(),
            &key,
            input.nonce.as_slice(),
        )?,
    };
    Ok(decrypted_data)
}

/// Encryption and decryption are functions of their inputs, and of the
/// nonce they use only its first 12 bytes: nonces that agree there give the
/// same ciphertext and the same plaintext.
pub proof fn lemma_only_nonce_prefix_matters(
    algorithm: Algorithm,
    password: Seq<char>,
    salt: Seq<u8>,
    nonce1: Seq<u8>,
    nonce2: Seq<u8>,
    data: Seq<u8>,
)
    requires
        nonce1.len() >= 12,
        nonce2.len() >= 12,
        nonce1.take(12) == nonce2.take(12),
    ensures
        sealed_data(algorithm, password, salt, nonce1, data) == sealed_data(
            algorithm,
            password,
            salt,
            nonce2,
            data,
        ),
        opened_data(algorithm, password, salt, nonce1, data) == opened_data(
            algorithm,
            password,
            salt,
            nonce2,
            data,
        ),
{
}

/// The key is the Argon2 hash of the password with the whole salt: every
/// salt byte takes part.
pub proof fn lemma_key_is_hash_of_whole_salt(password: Seq<char>, salt: Seq<u8>)
    ensures
        derived_key(password, salt) == argon2_default_hash(password, salt),
{
}

/// Encrypting is the algorithm's AEAD under the Argon2 hash of the password
/// and the whole salt and the nonce's first 12 bytes; decrypting is the
/// same algorithm's AEAD decryption under the same key and nonce.
pub proof fn lemma_sealing_is_the_named_aead(
    algorithm: Algorithm,
    password: Seq<char>,
    salt: Seq<u8>,
    nonce: Seq<u8>,
    data: Seq<u8>,
)
    ensures
        algorithm == Algorithm::AES256 ==> sealed_data(algorithm, password, salt, nonce, data)
            == aes256gcm_seal(argon2_default_hash(password, salt), nonce.take(12), data),
        algorithm == Algorithm::ChaCha20 ==> sealed_data(algorithm, password, salt, nonce, data)
            == chacha20poly1305_seal(argon2_default_hash(password, salt), nonce.take(12), data),
        algorithm == Algorithm::AES256 ==> opened_data(algorithm, password, salt, nonce, data)
            == aes256gcm_open(argon2_default_hash(password, salt), nonce.take(12), data),
        algorithm == Algorithm::ChaCha20 ==> opened_data(algorithm, password, salt, nonce, data)
            == chacha20poly1305_open(argon2_default_hash(password, salt), nonce.take(12), data),
{
}

} // verus!
