//! What the service's four requests compute once their fields are read:
//! encrypting an upload into a base64 container, and reading a base64
//! container back into the base64 of the plaintext, for one file or a batch.
use vstd::prelude::*;
use vstd::string::StrSliceExecFns;
use vstd::utf8::encode_utf8;
use crate::container::{
    append_batch_entry, batch_has_entry, batch_starts_with_entry, batch_frame, entry_view, entry_well_formed, file_frame, frame_file,
    read_batch, read_batch_frame, read_batch_from, read_file, read_file_frame, EntryView,
    FrameError,
};
use crate::encryption::{
    ciphertext_processable, decrypt_data, decryption_error, encrypt_data, opened_data,
    plaintext_fits, sealed_data,
    CryptoError, DecryptionInput,
};
use crate::models::Algorithm;
use crate::outside::{base64_decode, base64_encode, base64_standard_decode, base64_standard_encode};

verus! {

/// Why a request that carries a container was not answered with plaintext.
#[derive(Debug, Clone, Copy, PartialEq, Eq, Structural)]
pub enum PayloadError {
    /// The request is malformed: not base64, or an unknown algorithm tag,
    /// or a single file shorter than its header.
    BadRequest,
    /// The container ends inside a header, or a length overflows: the
    /// service does not answer such a request.
    Malformed,
    /// A key would be derived but the password is over `u32::MAX` bytes:
    /// the service does not answer such a request.
    PasswordTooLong,
    /// A ChaCha20-Poly1305 ciphertext whose body has a length on which the
    /// cipher panics if the ciphertext is authentic (and refuses it if not).
    /// Only that panicking call would tell the two apart, so such a
    /// ciphertext is not decrypted and the request is not answered.
    CiphertextTooLong,
    /// The container was read but its ciphertext did not decrypt.
    Decryption(CryptoError),
}

/// The algorithm that a request names: "AES256" or "ChaCha20".
pub open spec fn algorithm_named(name: Seq<char>) -> Option<Algorithm> {
    if name == "AES256"@ {
        Some(Algorithm::AES256)
    } else if name == "ChaCha20"@ {
        Some(Algorithm::ChaCha20)
    } else {
        None
    }
}

/// Whether two strings hold the same characters.
fn same_text(value: &str, expected: &str) -> (b: bool)
    ensures
        b == (value@ == expected@),
{
    let n = value.unicode_len();
    if n != expected.unicode_len() {
        return false;
    }
    let mut i: usize = 0;
    while i < n
        invariant
            n == value@.len(),
            n == expected@.len(),
            i <= n,
            forall|j: int| 0 <= j < i ==> value@[j] == expected@[j],
        decreases n - i,
    {
        if value.get_char(i) != expected.get_char(i) {
            return false;
        }
        i = i + 1;
    }
    assert(value@ =~= expected@);
    true
}

/// Reads the algorithm field of a request.
pub fn parse_algorithm_name(value: &str) -> (r: Option<Algorithm>)
    ensures
        r == algorithm_named(value@),
{
    if same_text(value, "AES256") {
        Some(Algorithm::AES256)
    } else if same_text(value, "ChaCha20") {
        Some(Algorithm::ChaCha20)
    } else {
        None
    }
}

/// Whether Argon2 accepts the password (at most `u32::MAX` bytes).
pub open spec fn password_accepted(password: Seq<char>) -> bool {
    encode_utf8(password).len() <= 0xFFFF_FFFF
}

/// Whether an uploaded field is valid standard base64.
pub fn is_base64(text: &str) -> (b: bool)
    ensures
        b == (base64_standard_decode(text@) is Some),
{
    base64_decode(text).is_ok()
}

/// Whether Argon2 accepts the password.
pub fn accepts_password(password: &str) -> (b: bool)
    ensures
        b == password_accepted(password@),
{
    password.as_bytes().len() as u64 <= 0xFFFF_FFFFu64
}

/// Whether the algorithm encrypts a plaintext of `len` bytes.
pub fn accepts_plaintext(algorithm: &Algorithm, len: usize) -> (b: bool)
    ensures
        b == plaintext_fits(*algorithm, len as nat),
{
    match algorithm {
        Algorithm::AES256 => len as u64 <= 0x10_0000_0000u64,
        Algorithm::ChaCha20 => len as u64 <= 64 * 0xFFFF_FFFEu64,
    }
}

/// Whether the algorithm's decryption runs to an answer on a ciphertext of
/// `len` bytes.
pub fn accepts_ciphertext(algorithm: &Algorithm, len: usize) -> (b: bool)
    ensures
        b == ciphertext_processable(*algorithm, len as nat),
{
    match algorithm {
        Algorithm::AES256 => true,
        Algorithm::ChaCha20 => len < 16 || !(64 * 0xFFFF_FFFEu64 < (len - 16) as u64 && ((len
            - 16) as u64) < 64 * 0xFFFF_FFFFu64),
    }
}

/// Encrypts an uploaded file under a fresh salt and nonce and gives its
/// container in base64.
pub fn encrypt_file_payload(file_data: &[u8], password: &str, algorithm: &Algorithm) -> (r: Result<
    String,
    CryptoError,
>)
    requires
        password_accepted(password@),
        plaintext_fits(*algorithm, file_data@.len()),
    ensures
        r matches Ok(text) && exists|salt: Seq<u8>, nonce: Seq<u8>|
            {
                &&& salt.len() == 32
                &&& nonce.len() == 12
                &&& sealed_data(*algorithm, password@, salt, nonce, file_data@).len()
                    == file_data@.len() + 16
                &&& text@ == base64_standard_encode(
                    file_frame(
                        *algorithm,
                        salt,
                        nonce,
                        sealed_data(*algorithm, password@, salt, nonce, file_data@),
                    ),
                )
            },
{
    match encrypt_data(file_data, password, algorithm) {
        Ok(result) => {
            let combined = frame_file(algorithm, &result);
            Ok(base64_encode(combined.as_slice()))
        },
        Err(e) => Err(e),
    }
}

/// What a single-file decryption request is answered with.
pub open spec fn decrypt_file_outcome(text: Seq<char>, password: Seq<char>) -> Result<
    Seq<char>,
    PayloadError,
> {
    match base64_standard_decode(text) {
        None => Err(PayloadError::BadRequest),
        Some(bytes) => match read_file_frame(bytes) {
            Err(FrameError::Truncated) => Err(PayloadError::Malformed),
            Err(_) => Err(PayloadError::BadRequest),
            Ok(entry) => if !password_accepted(password) {
                Err(PayloadError::PasswordTooLong)
            } else if !ciphertext_processable(entry.0, entry.3.len()) {
                Err(PayloadError::CiphertextTooLong)
            } else {
                match opened_data(entry.0, password, entry.1, entry.2, entry.3) {
                    Some(plain) => Ok(base64_standard_encode(plain)),
                    None => Err(PayloadError::Decryption(decryption_error(entry.0))),
                }
            },
        },
    }
}

/// Decrypts a single-file container given in base64 and gives the
/// plaintext in base64. A container that `encrypt_file_payload` made with
/// this password gives back the file that was encrypted. A ChaCha20-Poly1305
/// ciphertext whose length `ciphertext_processable` refuses is not decrypted
/// (`CiphertextTooLong`), authentic or not.
pub fn decrypt_file_payload(text: &str, password: &str) -> (r: Result<String, PayloadError>)
    ensures
        match decrypt_file_outcome(text@, password@) {
            Ok(plain) => r matches Ok(s) && s@ == plain,
            Err(e) => r matches Err(f) && f == e,
        },
        forall|algorithm: Algorithm, salt: Seq<u8>, nonce: Seq<u8>, m: Seq<u8>|
            password_accepted(password@) && salt.len() == 32 && nonce.len() == 12 && plaintext_fits(
                algorithm,
                m.len(),
            ) && sealed_data(algorithm, password@, salt, nonce, m).len() == m.len() + 16 && text@
                == #[trigger] base64_standard_encode(
                file_frame(algorithm, salt, nonce, sealed_data(algorithm, password@, salt, nonce, m)),
            ) ==> (r matches Ok(s) && s@ == base64_standard_encode(m)),
{
    let bytes = match base64_decode(text) {
        Ok(b) => b,
        Err(_) => {
            return Err(PayloadError::BadRequest);
        },
    };
    let (algorithm, input) = match read_file(bytes.as_slice()) {
        Ok(entry) => entry,
        Err(FrameError::Truncated) => {
            return Err(PayloadError::Malformed);
        },
        Err(_) => {
            return Err(PayloadError::BadRequest);
        },
    };
    let ghost entry = entry_view((algorithm, input));
    proof {
        assert forall|a: Algorithm, salt: Seq<u8>, nonce: Seq<u8>, m: Seq<u8>|
            #![trigger base64_standard_encode(file_frame(a, salt, nonce, sealed_data(a, password@, salt, nonce, m)))]
            salt.len() == 32 && nonce.len() == 12 && text@ == base64_standard_encode(
                file_frame(a, salt, nonce, sealed_data(a, password@, salt, nonce, m)),
            ) implies entry == (a, salt, nonce, sealed_data(a, password@, salt, nonce, m)) by {
            let ct = sealed_data(a, password@, salt, nonce, m);
            crate::container::lemma_file_frame_roundtrip(a, salt, nonce, ct);
            assert(bytes@ == file_frame(a, salt, nonce, ct));
        }
    }
    if !accepts_password(password) {
        return Err(PayloadError::PasswordTooLong);
    }
    if !accepts_ciphertext(&algorithm, input.encrypted_data.len()) {
        return Err(PayloadError::CiphertextTooLong);
    }
    let result = decrypt_data(input, password, &algorithm);
    proof {
        assert forall|a: Algorithm, salt: Seq<u8>, nonce: Seq<u8>, m: Seq<u8>|
            salt.len() == 32 && nonce.len() == 12 && plaintext_fits(a, m.len()) && text@
                == #[trigger] base64_standard_encode(
                file_frame(a, salt, nonce, sealed_data(a, password@, salt, nonce, m)),
            ) implies (result matches Ok(p) && p@ == m) by {
            assert(entry == (a, salt, nonce, sealed_data(a, password@, salt, nonce, m)));
        }
    }
    match result {
        Ok(plain) => Ok(base64_encode(plain.as_slice())),
        Err(e) => Err(PayloadError::Decryption(e)),
    }
}

/// Whether `entries` are what encrypting each of `files`, under its own
/// algorithm, salt and nonce, with `password` gives.
pub open spec fn entries_seal_files(entries: Seq<EntryView>, password: Seq<char>, files: Seq<Seq<u8>>) -> bool {
    &&& entries.len() == files.len()
    &&& forall|i: int|
        0 <= i < entries.len() ==> {
            &&& entry_well_formed(#[trigger] entries[i])
            &&& plaintext_fits(entries[i].0, files[i].len())
            &&& entries[i].3.len() == files[i].len() + 16
            &&& entries[i].3 == sealed_data(
                entries[i].0,
                password,
                entries[i].1,
                entries[i].2,
                files[i],
            )
        }
}

/// The contents of the uploaded files.
pub open spec fn file_contents(files: Seq<Vec<u8>>) -> Seq<Seq<u8>> {
    files.map_values(|f: Vec<u8>| f@)
}

/// Encrypts every uploaded file under its own fresh salt and nonce and
/// gives the batch container in base64, with the count of files encrypted.
pub fn encrypt_batch_payload(files: &Vec<Vec<u8>>, password: &str, algorithm: &Algorithm) -> (r: (
    String,
    usize,
))
    requires
        files@.len() > 0 ==> password_accepted(password@),
        forall|i: int| 0 <= i < files@.len() ==> plaintext_fits(*algorithm, #[trigger] files@[i]@.len()),
    ensures
        r.1 == files@.len(),
        exists|entries: Seq<EntryView>|
            {
                &&& entries_seal_files(entries, password@, file_contents(files@))
                &&& forall|i: int| 0 <= i < entries.len() ==> (#[trigger] entries[i]).0 == *algorithm
                &&& r.0@ == base64_standard_encode(batch_frame(entries))
            },
{
    let mut combined: Vec<u8> = Vec::new();
    let mut successful: usize = 0;
    let ghost mut entries: Seq<EntryView> = Seq::empty();
    let mut i: usize = 0;
    while i < files.len()
        invariant
            i <= files@.len(),
            successful == i,
            files@.len() > 0 ==> password_accepted(password@),
            forall|k: int| 0 <= k < files@.len() ==> plaintext_fits(*algorithm, #[trigger] files@[k]@.len()),
            entries_seal_files(entries, password@, file_contents(files@).take(i as int)),
            forall|k: int| 0 <= k < entries.len() ==> (#[trigger] entries[k]).0 == *algorithm,
            combined@ == batch_frame(entries),
        decreases files@.len() - i,
    {
        let file_data = &files[i];
        assert(plaintext_fits(*algorithm, files@[i as int]@.len()));
        match encrypt_data(file_data.as_slice(), password, algorithm) {
            Ok(res) => {
                let ghost entry = (*algorithm, res.salt@, res.nonce@, res.encrypted_data@);
                append_batch_entry(&mut combined, algorithm, &res);
                proof {
                    let old_entries = entries;
                    entries = entries.push(entry);
                    assert(entries.drop_last() =~= old_entries);
                    assert(file_contents(files@).take(i + 1) =~= file_contents(files@).take(
                        i as int,
                    ).push(file_data@));
                }
                successful = successful + 1;
            },
            Err(_) => {},
        }
        i = i + 1;
    }
    assert(file_contents(files@).take(i as int) =~= file_contents(files@));
    (base64_encode(combined.as_slice()), successful)
}

/// The base64 plaintexts of the entries that decrypt, in order; entries that
/// do not decrypt are left out.
pub open spec fn kept_plaintexts(entries: Seq<EntryView>, password: Seq<char>) -> Seq<Seq<char>>
    decreases entries.len(),
{
    if entries.len() == 0 {
        Seq::empty()
    } else {
        let e = entries.last();
        let before = kept_plaintexts(entries.drop_last(), password);
        match opened_data(e.0, password, e.1, e.2, e.3) {
            Some(plain) => before.push(base64_standard_encode(plain)),
            None => before,
        }
    }
}

/// What a batch decryption request is answered with.
pub open spec fn decrypt_batch_outcome(text: Seq<char>, password: Seq<char>) -> Result<
    Seq<Seq<char>>,
    PayloadError,
> {
    match base64_standard_decode(text) {
        None => Err(PayloadError::BadRequest),
        Some(bytes) => if !password_accepted(password) && batch_starts_with_entry(bytes) {
            Err(PayloadError::PasswordTooLong)
        } else {
            match read_batch_frame(bytes) {
                Err(FrameError::Truncated) => Err(PayloadError::Malformed),
                Err(_) => Err(PayloadError::BadRequest),
                Ok(entries) => if entries_processable(entries) {
                    Ok(kept_plaintexts(entries, password))
                } else {
                    Err(PayloadError::CiphertextTooLong)
                },
            }
        },
    }
}

/// Whether decryption runs to an answer on every entry.
pub open spec fn entries_processable(entries: Seq<EntryView>) -> bool {
    forall|i: int|
        0 <= i < entries.len() ==> ciphertext_processable(
            (#[trigger] entries[i]).0,
            entries[i].3.len(),
        )
}

/// Whether decryption runs to an answer on every read entry.
fn all_processable(entries: &Vec<(Algorithm, DecryptionInput)>) -> (b: bool)
    ensures
        b == entries_processable(entries@.map_values(|e| entry_view(e))),
{
    let ghost all = entries@.map_values(|e| entry_view(e));
    let mut i: usize = 0;
    while i < entries.len()
        invariant
            i <= entries@.len(),
            all == entries@.map_values(|e| entry_view(e)),
            forall|j: int| 0 <= j < i ==> ciphertext_processable(
                (#[trigger] all[j]).0,
                all[j].3.len(),
            ),
        decreases entries@.len() - i,
    {
        assert(all[i as int] == entry_view(entries@[i as int]));
        if !accepts_ciphertext(&entries[i].0, entries[i].1.encrypted_data.len()) {
            return false;
        }
        i = i + 1;
    }
    true
}

/// What the strings hold.
pub open spec fn texts(strings: Seq<String>) -> Seq<Seq<char>> {
    strings.map_values(|s: String| s@)
}

/// Whether decrypting the entry gives back whatever was encrypted into it.
pub open spec fn opening_inverts_sealing(e: EntryView, password: Seq<char>) -> bool {
    forall|m: Seq<u8>|
        plaintext_fits(e.0, m.len()) && e.3 == #[trigger] sealed_data(e.0, password, e.1, e.2, m)
            ==> opened_data(e.0, password, e.1, e.2, e.3) == Some(m)
}

/// Every entry that a batch container reads as has a 32-byte salt and a
/// 12-byte nonce.
proof fn lemma_read_batch_well_formed(bytes: Seq<u8>, index: int)
    ensures
        read_batch_from(bytes, index) matches Ok(v) ==> forall|i: int|
            0 <= i < v.len() ==> entry_well_formed(#[trigger] v[i]),
    decreases bytes.len() - index,
{
    if index < 0 || index >= bytes.len() {
    } else if index + 53 <= bytes.len() {
        let n = vstd::bytes::spec_u64_from_le_bytes(bytes.subrange(index + 45, index + 53)) as int;
        let end = index + 53 + n;
        if end <= bytes.len() {
            lemma_read_batch_well_formed(bytes, end);
        }
    }
}

/// Decrypting entries that decrypt to given files keeps them all.
proof fn lemma_kept_all(entries: Seq<EntryView>, password: Seq<char>, files: Seq<Seq<u8>>)
    requires
        entries.len() == files.len(),
        forall|i: int|
            0 <= i < entries.len() ==> opened_data(
                (#[trigger] entries[i]).0,
                password,
                entries[i].1,
                entries[i].2,
                entries[i].3,
            ) == Some(files[i]),
    ensures
        kept_plaintexts(entries, password) == files.map_values(|d: Seq<u8>| base64_standard_encode(d)),
    decreases entries.len(),
{
    if entries.len() == 0 {
        assert(files.map_values(|d: Seq<u8>| base64_standard_encode(d)) =~= Seq::<Seq<char>>::empty());
    } else {
        let k = entries.len() - 1;
        assert(entries[k] == entries.last());
        lemma_kept_all(entries.drop_last(), password, files.drop_last());
        assert(files.map_values(|d: Seq<u8>| base64_standard_encode(d)) =~= files.drop_last().map_values(
            |d: Seq<u8>| base64_standard_encode(d),
        ).push(base64_standard_encode(files[k])));
    }
}

/// Decrypts each read entry in order, keeping the base64 of each plaintext
/// and skipping the entries that do not decrypt.
fn decrypt_entries(entries: Vec<(Algorithm, DecryptionInput)>, password: &str) -> (out: Vec<String>)
    requires
        entries@.len() > 0 ==> password_accepted(password@),
        entries_processable(entries@.map_values(|e| entry_view(e))),
        forall|i: int| 0 <= i < entries@.len() ==> entry_well_formed(#[trigger] entry_view(entries@[i])),
    ensures
        texts(out@) == kept_plaintexts(entries@.map_values(|e| entry_view(e)), password@),
        forall|i: int|
            0 <= i < entries@.len() ==> opening_inverts_sealing(
                #[trigger] entry_view(entries@[i]),
                password@,
            ),
{
    let ghost all = entries@.map_values(|e| entry_view(e));
    let mut rest = entries;
    let mut out: Vec<String> = Vec::new();
    let ghost mut done: int = 0;
    while rest.len() > 0
        invariant
            all.len() > 0 ==> password_accepted(password@),
            entries_processable(all),
            0 <= done <= all.len(),
            rest@.map_values(|e| entry_view(e)) == all.subrange(done, all.len() as int),
            forall|i: int| 0 <= i < all.len() ==> entry_well_formed(#[trigger] all[i]),
            texts(out@) == kept_plaintexts(all.take(done), password@),
            forall|i: int| 0 <= i < done ==> opening_inverts_sealing(#[trigger] all[i], password@),
        decreases rest@.len(),
    {
        let ghost before = out@;
        assert(rest@.map_values(|e| entry_view(e)).len() == rest@.len());
        assert(done < all.len());
        assert(rest@.map_values(|e| entry_view(e))[0] == entry_view(rest@[0]));
        assert(all.subrange(done, all.len() as int)[0] == all[done]);
        let ghost old_rest = rest@;
        let (algorithm, input) = rest.remove(0);
        let ghost e = all[done];
        assert(entry_well_formed(e));
        let result = decrypt_data(input, password, &algorithm);
        proof {
            assert(all.take(done + 1).drop_last() =~= all.take(done));
            assert(all.take(done + 1).last() == e);
            assert forall|k: int| 0 <= k < rest@.len() implies entry_view(rest@[k]) == all[done + 1
                + k] by {
                assert(rest@[k] == old_rest[k + 1]);
                assert(old_rest.map_values(|e| entry_view(e))[k + 1] == all.subrange(
                    done,
                    all.len() as int,
                )[k + 1]);
            }
            assert(rest@.map_values(|e| entry_view(e)) =~= all.subrange(done + 1, all.len() as int));
        }
        match result {
            Ok(plain) => {
                out.push(base64_encode(plain.as_slice()));
                proof {
                    assert(texts(out@) =~= texts(before).push(base64_standard_encode(plain@)));
                }
            },
            Err(_) => {},
        }
        proof {
            done = done + 1;
        }
    }
    assert(all.take(done) =~= all);
    proof {
        assert forall|i: int| 0 <= i < entries@.len() implies opening_inverts_sealing(
            #[trigger] entry_view(entries@[i]),
            password@,
        ) by {
            assert(all[i] == entry_view(entries@[i]));
        }
    }
    out
}

/// Decrypts every entry of a batch container given in base64 and gives the
/// base64 plaintexts of those that decrypt. A container that
/// `encrypt_batch_payload` made with this password gives back every file
/// that was encrypted, in order.
pub fn decrypt_batch_payload(text: &str, password: &str) -> (r: Result<Vec<String>, PayloadError>)
    ensures
        match decrypt_batch_outcome(text@, password@) {
            Ok(plains) => r matches Ok(out) && texts(out@) == plains,
            Err(e) => r matches Err(f) && f == e,
        },
        forall|entries: Seq<EntryView>, files: Seq<Seq<u8>>|
            password_accepted(password@) && #[trigger] entries_seal_files(entries, password@, files)
                && text@ == base64_standard_encode(batch_frame(entries)) ==> (r matches Ok(out)
                && texts(out@) == files.map_values(
                |d: Seq<u8>| base64_standard_encode(d),
            )),
{
    let bytes = match base64_decode(text) {
        Ok(b) => b,
        Err(_) => {
            proof {
                assert forall|sealed: Seq<EntryView>, plains: Seq<Seq<u8>>|
                    #[trigger] entries_seal_files(sealed, password@, plains) && text@
                        == base64_standard_encode(batch_frame(sealed)) implies false by {
                    assert(text@ == base64_standard_encode(batch_frame(sealed)));
                }
            }
            return Err(PayloadError::BadRequest);
        },
    };
    let total = bytes.len();
    proof {
        assert forall|sealed: Seq<EntryView>, plains: Seq<Seq<u8>>|
            #[trigger] entries_seal_files(sealed, password@, plains) && text@ == base64_standard_encode(
                batch_frame(sealed),
            ) implies read_batch_frame(bytes@) == Ok::<Seq<EntryView>, FrameError>(sealed) by {
            assert(bytes@ == batch_frame(sealed));
            assert(batch_frame(sealed).len() == total);
            crate::container::lemma_batch_frame_roundtrip(sealed);
        }
        assert forall|sealed: Seq<EntryView>, plains: Seq<Seq<u8>>|
            #[trigger] entries_seal_files(sealed, password@, plains) implies entries_processable(
                sealed,
            ) by {
            assert forall|i: int| 0 <= i < sealed.len() implies ciphertext_processable(
                (#[trigger] sealed[i]).0,
                sealed[i].3.len(),
            ) by {
                assert(sealed[i].3.len() == plains[i].len() + 16);
            }
        }
    }
    if !accepts_password(password) && batch_has_entry(bytes.as_slice()) {
        return Err(PayloadError::PasswordTooLong);
    }
    let entries = match read_batch(bytes.as_slice()) {
        Ok(entries) => entries,
        Err(FrameError::Truncated) => {
            return Err(PayloadError::Malformed);
        },
        Err(_) => {
            return Err(PayloadError::BadRequest);
        },
    };
    let ghost read = entries@.map_values(|e| entry_view(e));
    if !all_processable(&entries) {
        return Err(PayloadError::CiphertextTooLong);
    }
    proof {
        crate::container::lemma_read_entries_start_whole(bytes@);
        lemma_read_batch_well_formed(bytes@, 0);
        assert forall|i: int| 0 <= i < entries@.len() implies entry_well_formed(
            #[trigger] entry_view(entries@[i]),
        ) by {
            assert(read[i] == entry_view(entries@[i]));
        }
    }
    let files = decrypt_entries(entries, password);
    proof {
        assert forall|sealed: Seq<EntryView>, plains: Seq<Seq<u8>>|
            #[trigger] entries_seal_files(sealed, password@, plains) && text@ == base64_standard_encode(
                batch_frame(sealed),
            ) implies texts(files@) == plains.map_values(
            |d: Seq<u8>| base64_standard_encode(d),
        ) by {
            assert(bytes@ == batch_frame(sealed));
            assert(batch_frame(sealed).len() == total);
            crate::container::lemma_batch_frame_roundtrip(sealed);
            assert(read == sealed);
            assert forall|i: int| 0 <= i < sealed.len() implies opened_data(
                (#[trigger] sealed[i]).0,
                password@,
                sealed[i].1,
                sealed[i].2,
                sealed[i].3,
            ) == Some(plains[i]) by {
                assert(read[i] == sealed[i]);
                assert(opening_inverts_sealing(sealed[i], password@));
                assert(sealed[i].3 == sealed_data(sealed[i].0, password@, sealed[i].1, sealed[i].2, plains[i]));
            }
            lemma_kept_all(sealed, password@, plains);
        }
    }
    Ok(files)
}

/// A batch with a single entry keeps the base64 of its plaintext exactly
/// when the entry opens under the password, and nothing otherwise.
pub proof fn lemma_kept_plaintexts_single(entry: EntryView, password: Seq<char>)
    ensures
        opened_data(entry.0, password, entry.1, entry.2, entry.3) matches Some(p) ==> kept_plaintexts(
            seq![entry],
            password,
        ) == seq![base64_standard_encode(p)],
        opened_data(entry.0, password, entry.1, entry.2, entry.3) is None ==> kept_plaintexts(
            seq![entry],
            password,
        ) == Seq::<Seq<char>>::empty(),
{
    let s = seq![entry];
    assert(s.drop_last() =~= Seq::<EntryView>::empty());
    assert(kept_plaintexts(s.drop_last(), password) == Seq::<Seq<char>>::empty());
    assert(Seq::<Seq<char>>::empty().push(
        base64_standard_encode(opened_data(entry.0, password, entry.1, entry.2, entry.3)->0),
    ) =~= seq![base64_standard_encode(opened_data(entry.0, password, entry.1, entry.2, entry.3)->0)]);
}

/// Each entry is judged on its own: what two runs of entries keep together
/// is what the first keeps followed by what the second keeps.
pub proof fn lemma_kept_plaintexts_concat(a: Seq<EntryView>, b: Seq<EntryView>, password: Seq<char>)
    ensures
        kept_plaintexts(a + b, password) == kept_plaintexts(a, password) + kept_plaintexts(
            b,
            password,
        ),
    decreases b.len(),
{
    if b.len() == 0 {
        assert(a + b =~= a);
        assert(kept_plaintexts(b, password) == Seq::<Seq<char>>::empty());
        assert(kept_plaintexts(a, password) + Seq::<Seq<char>>::empty() =~= kept_plaintexts(
            a,
            password,
        ));
    } else {
        lemma_kept_plaintexts_concat(a, b.drop_last(), password);
        assert((a + b).drop_last() =~= a + b.drop_last());
        assert((a + b).last() == b.last());
        let e = b.last();
        match opened_data(e.0, password, e.1, e.2, e.3) {
            Some(p) => {
                assert(kept_plaintexts(a, password) + kept_plaintexts(b.drop_last(), password).push(
                    base64_standard_encode(p),
                ) =~= (kept_plaintexts(a, password) + kept_plaintexts(b.drop_last(), password)).push(
                    base64_standard_encode(p),
                ));
            },
            None => {},
        }
    }
}

/// A single-file request is answered with plaintext only when the ciphertext
/// authenticates: the answer is then the base64 of what it opens to; a
/// ciphertext that does not open under the password is answered with the
/// algorithm's decryption error.
pub proof fn lemma_file_answer_authenticates(text: Seq<char>, password: Seq<char>)
    ensures
        decrypt_file_outcome(text, password) matches Ok(s) ==> {
            &&& base64_standard_decode(text) is Some
            &&& read_file_frame(base64_standard_decode(text)->0) is Ok
            &&& ({
                let e = read_file_frame(base64_standard_decode(text)->0)->Ok_0;
                &&& opened_data(e.0, password, e.1, e.2, e.3) is Some
                &&& s == base64_standard_encode(opened_data(e.0, password, e.1, e.2, e.3)->0)
            })
        },
        base64_standard_decode(text) matches Some(bytes) ==> read_file_frame(bytes) matches Ok(e)
            ==> password_accepted(password) ==> ciphertext_processable(e.0, e.3.len())
            ==> opened_data(e.0, password, e.1, e.2, e.3) is None ==> decrypt_file_outcome(
            text,
            password,
        ) == Err::<Seq<char>, PayloadError>(PayloadError::Decryption(decryption_error(e.0))),
{
}

/// A batch request is answered with plaintexts only for a container that
/// decodes and reads, and then with what its entries keep.
pub proof fn lemma_batch_answer_keeps_opened(text: Seq<char>, password: Seq<char>)
    ensures
        decrypt_batch_outcome(text, password) matches Ok(v) ==> {
            &&& base64_standard_decode(text) is Some
            &&& read_batch_frame(base64_standard_decode(text)->0) is Ok
            &&& v == kept_plaintexts(read_batch_frame(base64_standard_decode(text)->0)->Ok_0, password)
        },
{
}

} // verus!
