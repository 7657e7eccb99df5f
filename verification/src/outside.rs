//! Everything this crate takes on trust from the outside crates it calls:
//! the outside types it carries, names for results that take pages to
//! state, and the wrappers that make the calls. Each doc comment says what
//! is believed without proof.
use vstd::prelude::*;
use vstd::string::StringSliceAdditionalSpecFns;
use aes_gcm::aead::{Aead, KeyInit, OsRng};
use aes_gcm::{Aes256Gcm, Nonce};
use argon2::password_hash::{PasswordHasher, SaltString};
use argon2::Argon2;
use base64::engine::general_purpose;
use base64::Engine;
use rand::RngCore;

verus! {

/// The error of the `aead` traits (`aes_gcm::Error`, the same type as
/// `chacha20poly1305::Error`); it carries nothing.
#[verifier::external_type_specification]
#[verifier::external_body]
pub struct ExAeadError(aes_gcm::Error);

/// The error of the `password-hash` crate that `argon2` reports through.
#[verifier::external_type_specification]
#[verifier::external_body]
pub struct ExPasswordHashError(argon2::password_hash::Error);

/// The error that `base64` decoding reports.
#[verifier::external_type_specification]
#[verifier::external_body]
pub struct ExDecodeError(base64::DecodeError);

/// The ciphertext (with its 16-byte tag appended) that AES-256-GCM gives for
/// `plaintext` under `key` and the 12-byte `nonce`, with no associated data.
pub uninterp spec fn aes256gcm_seal(key: Seq<u8>, nonce: Seq<u8>, plaintext: Seq<u8>) -> Seq<u8>;

/// What AES-256-GCM decryption of `ciphertext` under `key` and `nonce` gives:
/// the plaintext, or `None` where the tag does not authenticate.
pub uninterp spec fn aes256gcm_open(key: Seq<u8>, nonce: Seq<u8>, ciphertext: Seq<u8>) -> Option<
    Seq<u8>,
>;

/// The ciphertext (with its 16-byte tag appended) that ChaCha20-Poly1305 gives
/// for `plaintext` under `key` and the 12-byte `nonce`, with no associated data.
pub uninterp spec fn chacha20poly1305_seal(key: Seq<u8>, nonce: Seq<u8>, plaintext: Seq<u8>) -> Seq<
    u8,
>;

/// What ChaCha20-Poly1305 decryption of `ciphertext` under `key` and `nonce`
/// gives: the plaintext, or `None` where the tag does not authenticate.
pub uninterp spec fn chacha20poly1305_open(
    key: Seq<u8>,
    nonce: Seq<u8>,
    ciphertext: Seq<u8>,
) -> Option<Seq<u8>>;

/// The hash output that `Argon2::default()` (Argon2id, version 0x13, default
/// parameters) computes for the UTF-8 bytes of `password` and the raw `salt`.
pub uninterp spec fn argon2_default_hash(password: Seq<char>, salt: Seq<u8>) -> Seq<u8>;

/// The character of a 6-bit value in the standard base64 alphabet.
pub open spec fn base64_digit(v: int) -> char {
    if v < 26 {
        (65 + v) as char
    } else if v < 52 {
        (97 + v - 26) as char
    } else if v < 62 {
        (48 + v - 52) as char
    } else if v == 62 {
        '+'
    } else {
        '/'
    }
}

/// The standard base64 text of `bytes`: each group of three bytes becomes
/// four characters, and a last group of one or two bytes is padded with `=`.
pub open spec fn base64_standard_encode(bytes: Seq<u8>) -> Seq<char>
    decreases bytes.len(),
{
    if bytes.len() == 0 {
        Seq::empty()
    } else if bytes.len() == 1 {
        let b0 = bytes[0] as int;
        seq![base64_digit(b0 / 4), base64_digit((b0 % 4) * 16), '=', '=']
    } else if bytes.len() == 2 {
        let b0 = bytes[0] as int;
        let b1 = bytes[1] as int;
        seq![
            base64_digit(b0 / 4),
            base64_digit((b0 % 4) * 16 + b1 / 16),
            base64_digit((b1 % 16) * 4),
            '=',
        ]
    } else {
        let b0 = bytes[0] as int;
        let b1 = bytes[1] as int;
        let b2 = bytes[2] as int;
        seq![
            base64_digit(b0 / 4),
            base64_digit((b0 % 4) * 16 + b1 / 16),
            base64_digit((b1 % 16) * 4 + b2 / 64),
            base64_digit(b2 % 64),
        ] + base64_standard_encode(bytes.subrange(3, bytes.len() as int))
    }
}

/// The bytes that standard base64 decoding gives for `text`, or `None`
/// where `text` is not valid standard base64.
pub uninterp spec fn base64_standard_decode(text: Seq<char>) -> Option<Seq<u8>>;

/// The largest plaintext, in bytes, that aes-gcm encrypts (`aes_gcm::P_MAX`).
pub open spec fn aes_gcm_max_plaintext() -> nat {
    0x10_0000_0000
}

/// Whether chacha20poly1305 processes a buffer of `len` bytes: after the
/// block that keys Poly1305, ChaCha20 has `u32::MAX - 1` blocks of 64 bytes
/// left.
pub open spec fn chacha_accepts_len(len: nat) -> bool {
    len <= 64 * 0xFFFF_FFFE
}

/// Whether chacha20poly1305 panics on a buffer of `len` bytes: its own
/// check refuses only `u32::MAX` blocks or more, and the keystream runs out
/// (and panics) on the lengths between that and what it accepts.
pub open spec fn chacha_panics_on_len(len: nat) -> bool {
    64 * 0xFFFF_FFFE < len < 64 * 0xFFFF_FFFF
}

/// `Aes256Gcm::new` on `key`, then `Aead::encrypt` of `plaintext` under
/// `nonce` (aes-gcm). Believed: it fails exactly when the plaintext is longer
/// than `P_MAX`, as the source's length check shows, and otherwise returns the
/// named ciphertext: the plaintext's length plus the 16-byte tag.
#[verifier::external_body]
pub(crate) fn aes256gcm_encrypt(key: &[u8; 32], nonce: &[u8], plaintext: &[u8]) -> (r: Result<
    Vec<u8>,
    aes_gcm::Error,
>)
    requires
        nonce@.len() == 12,
    ensures
        r is Ok <==> plaintext@.len() <= aes_gcm_max_plaintext(),
        r matches Ok(c) ==> c@ == aes256gcm_seal(key@, nonce@, plaintext@) && c@.len()
            == plaintext@.len() + 16,
{
    let cipher = Aes256Gcm::new(aes_gcm::Key::<Aes256Gcm>::from_slice(key));
    cipher.encrypt(Nonce::from_slice(nonce), plaintext)
}

/// `Aes256Gcm::new` on `key`, then `Aead::decrypt` of `ciphertext` under
/// `nonce` (aes-gcm). Believed: it returns the named result; it refuses a
/// ciphertext shorter than the 16-byte tag, and a plaintext is the
/// ciphertext without its tag (the `aead` source); and, as any AEAD does, it
/// gives back the plaintext of a ciphertext that encryption under the same
/// key and nonce produced.
#[verifier::external_body]
pub(crate) fn aes256gcm_decrypt(key: &[u8; 32], nonce: &[u8], ciphertext: &[u8]) -> (r: Result<
    Vec<u8>,
    aes_gcm::Error,
>)
    requires
        nonce@.len() == 12,
    ensures
        r is Ok <==> aes256gcm_open(key@, nonce@, ciphertext@) is Some,
        r matches Ok(p) ==> aes256gcm_open(key@, nonce@, ciphertext@) == Some(p@),
        ciphertext@.len() < 16 ==> r is Err,
        r matches Ok(p) ==> p@.len() + 16 == ciphertext@.len(),
        r is Ok <== exists|m: Seq<u8>|
            m.len() <= aes_gcm_max_plaintext() && ciphertext@ == #[trigger] aes256gcm_seal(key@, nonce@, m),
        r matches Ok(p) ==> forall|m: Seq<u8>|
            m.len() <= aes_gcm_max_plaintext() && ciphertext@ == #[trigger] aes256gcm_seal(key@, nonce@, m) ==> p@ == m,
{
    let cipher = Aes256Gcm::new(aes_gcm::Key::<Aes256Gcm>::from_slice(key));
    cipher.decrypt(Nonce::from_slice(nonce), ciphertext)
}

/// `ChaCha20Poly1305::new` on `key`, then `Aead::encrypt` of `plaintext`
/// under `nonce` (chacha20poly1305). Believed, from the sources of
/// chacha20poly1305, chacha20 and cipher: it fails for a plaintext of
/// `u32::MAX` blocks or more, panics for the lengths that `chacha_panics_on_len`
/// names (left out here), and otherwise returns the named ciphertext: the
/// plaintext's length plus the 16-byte tag.
#[verifier::external_body]
pub(crate) fn chacha20poly1305_encrypt(key: &[u8; 32], nonce: &[u8], plaintext: &[u8]) -> (r:
    Result<Vec<u8>, chacha20poly1305::Error>)
    requires
        nonce@.len() == 12,
        !chacha_panics_on_len(plaintext@.len()),
    ensures
        r is Ok <==> chacha_accepts_len(plaintext@.len()),
        r matches Ok(c) ==> c@ == chacha20poly1305_seal(key@, nonce@, plaintext@) && c@.len()
            == plaintext@.len() + 16,
{
    let cipher = chacha20poly1305::ChaCha20Poly1305::new(chacha20poly1305::Key::from_slice(key));
    cipher.encrypt(chacha20poly1305::Nonce::from_slice(nonce), plaintext)
}

/// `ChaCha20Poly1305::new` on `key`, then `Aead::decrypt` of `ciphertext`
/// under `nonce` (chacha20poly1305). Believed: it returns the named result;
/// it refuses a ciphertext shorter than the 16-byte tag, and a plaintext is
/// the ciphertext without its tag (the `aead` source); and it gives back the
/// plaintext of a ciphertext that encryption under the same key and nonce
/// produced. It checks the tag before it applies the keystream, so only an
/// authentic ciphertext whose body has a length that `chacha_panics_on_len`
/// names makes it panic; such ciphertexts are left out.
#[verifier::external_body]
pub(crate) fn chacha20poly1305_decrypt(key: &[u8; 32], nonce: &[u8], ciphertext: &[u8]) -> (r:
    Result<Vec<u8>, chacha20poly1305::Error>)
    requires
        nonce@.len() == 12,
        ciphertext@.len() < 16 || !chacha_panics_on_len((ciphertext@.len() - 16) as nat)
            || chacha20poly1305_open(key@, nonce@, ciphertext@) is None,
    ensures
        r is Ok <==> chacha20poly1305_open(key@, nonce@, ciphertext@) is Some,
        r matches Ok(p) ==> chacha20poly1305_open(key@, nonce@, ciphertext@) == Some(p@),
        ciphertext@.len() < 16 ==> r is Err,
        r matches Ok(p) ==> p@.len() + 16 == ciphertext@.len(),
        r is Ok <== exists|m: Seq<u8>|
            chacha_accepts_len(m.len()) && ciphertext@ == #[trigger] chacha20poly1305_seal(key@, nonce@, m),
        r matches Ok(p) ==> forall|m: Seq<u8>|
            chacha_accepts_len(m.len()) && ciphertext@ == #[trigger] chacha20poly1305_seal(key@, nonce@, m) ==> p@ == m,
{
    let cipher = chacha20poly1305::ChaCha20Poly1305::new(chacha20poly1305::Key::from_slice(key));
    cipher.decrypt(chacha20poly1305::Nonce::from_slice(nonce), ciphertext)
}

/// `SaltString::encode_b64` of the raw salt, then `PasswordHasher::hash_password`
/// of `Argon2::default()` on the password's bytes with that salt string, and
/// the bytes of the `hash` field (argon2, password-hash). Believed, from the
/// source: encoding fails only when the salt's base64 exceeds 64 characters
/// (more than 48 bytes), hashing fails only for a decoded salt under 8 bytes
/// or a password over `u32::MAX` bytes; on success the `hash` field is set,
/// holds `Params::DEFAULT_OUTPUT_LEN` (32) bytes, and is the named hash. A
/// salt of under 3 bytes encodes to under 4 characters, which `as_salt`
/// rejects with a panic, so such salts are left out.
#[verifier::external_body]
pub(crate) fn argon2_hash_password(password: &str, salt: &[u8]) -> (r: Result<
    Option<Vec<u8>>,
    argon2::password_hash::Error,
>)
    requires
        salt@.len() >= 3,
    ensures
        r is Ok <==> (8 <= salt@.len() <= 48 && password.spec_bytes().len() <= 0xFFFF_FFFF),
        r matches Ok(o) ==> o is Some,
        r matches Ok(Some(h)) ==> h@ == argon2_default_hash(password@, salt@) && h@.len() == 32,
{
    let salt_string = SaltString::encode_b64(salt)?;
    let hash = Argon2::default().hash_password(password.as_bytes(), &salt_string)?;
    match hash.hash {
        Some(output) => Ok(Some(output.as_bytes().to_vec())),
        None => Ok(None),
    }
}

/// `OsRng.fill_bytes` (rand_core's operating-system generator, through
/// `rand::RngCore`). What it writes depends on chance: only that the length
/// stays is stated. It panics where the operating system cannot give random
/// bytes, which no contract here can rule out.
#[verifier::external_body]
pub(crate) fn fill_random(buf: &mut Vec<u8>)
    ensures
        final(buf)@.len() == old(buf)@.len(),
{
    OsRng.fill_bytes(buf.as_mut_slice());
}

/// `general_purpose::STANDARD.encode` (base64): the standard, padded base64
/// text of the bytes.
#[verifier::external_body]
pub(crate) fn base64_encode(bytes: &[u8]) -> (s: String)
    ensures
        s@ == base64_standard_encode(bytes@),
{
    general_purpose::STANDARD.encode(bytes)
}

/// `general_purpose::STANDARD.decode` (base64) of the text's bytes. Believed:
/// it returns the named result, and decodes the text that encoding produced
/// back to the bytes that were encoded.
#[verifier::external_body]
pub(crate) fn base64_decode(text: &str) -> (r: Result<Vec<u8>, base64::DecodeError>)
    ensures
        r is Ok <==> base64_standard_decode(text@) is Some,
        r matches Ok(b) ==> base64_standard_decode(text@) == Some(b@),
        r is Ok <== exists|b: Seq<u8>| text@ == #[trigger] base64_standard_encode(b),
        r matches Ok(d) ==> forall|b: Seq<u8>| text@ == #[trigger] base64_standard_encode(b) ==> d@ == b,
{
    general_purpose::STANDARD.decode(text)
}

} // verus!
