//! The byte containers the service hands out and takes back: one encrypted
//! file is `tag | salt | nonce | ciphertext`; a batch is a run of entries
//! `tag | salt | nonce | length (u64, little-endian) | ciphertext`.
use vstd::prelude::*;
use vstd::bytes::{lemma_auto_spec_u64_to_from_le_bytes, spec_u64_from_le_bytes, spec_u64_to_le_bytes, u64_from_le_bytes, u64_to_le_bytes};
use vstd::slice::{slice_subrange, slice_to_vec};
use crate::encryption::{DecryptionInput, EncryptionResult, NONCE_SIZE, SALT_SIZE};
use crate::models::Algorithm;

verus! {

/// The tag byte of AES-256-GCM.
pub const AES_TAG: u8 = 0x01;

/// The tag byte of ChaCha20-Poly1305.
pub const CHACHA_TAG: u8 = 0x02;

/// Bytes before the ciphertext of a single file: tag, salt, nonce.
pub const FILE_HEADER_LEN: usize = 45;

/// Bytes before the ciphertext of a batch entry: tag, salt, nonce, length.
pub const ENTRY_HEADER_LEN: usize = 53;

/// Why a container could not be read.
#[derive(Debug, Clone, Copy, PartialEq, Eq, Structural)]
pub enum FrameError {
    /// A tag byte names no algorithm; the request is refused as malformed.
    UnknownAlgorithm,
    /// A single file is shorter than its header; the request is refused as
    /// malformed.
    TooShort,
    /// The bytes end inside a header, or a length runs past the largest
    /// index: the service does not answer such a request at all.
    Truncated,
}

/// What a container entry holds: algorithm, salt, nonce, ciphertext.
pub type EntryView = (Algorithm, Seq<u8>, Seq<u8>, Seq<u8>);

/// The tag byte of an algorithm.
pub open spec fn tag_of(algorithm: Algorithm) -> u8 {
    match algorithm {
        Algorithm::AES256 => AES_TAG,
        Algorithm::ChaCha20 => CHACHA_TAG,
    }
}

/// The algorithm a tag byte names, if any.
pub open spec fn algorithm_of_tag(tag: u8) -> Option<Algorithm> {
    if tag == AES_TAG {
        Some(Algorithm::AES256)
    } else if tag == CHACHA_TAG {
        Some(Algorithm::ChaCha20)
    } else {
        None
    }
}

/// The tag byte that marks the algorithm in a container.
pub fn algorithm_tag(algorithm: &Algorithm) -> (t: u8)
    ensures
        t == tag_of(*algorithm),
{
    match algorithm {
        Algorithm::AES256 => AES_TAG,
        Algorithm::ChaCha20 => CHACHA_TAG,
    }
}

/// The algorithm that a tag byte names.
pub fn tag_algorithm(tag: u8) -> (r: Option<Algorithm>)
    ensures
        r == algorithm_of_tag(tag),
{
    if tag == AES_TAG {
        Some(Algorithm::AES256)
    } else if tag == CHACHA_TAG {
        Some(Algorithm::ChaCha20)
    } else {
        None
    }
}

/// Every algorithm is read back from its own tag.
pub proof fn lemma_tag_roundtrip(algorithm: Algorithm)
    ensures
        algorithm_of_tag(tag_of(algorithm)) == Some(algorithm),
{
}

/// The container of one encrypted file.
pub open spec fn file_frame(algorithm: Algorithm, salt: Seq<u8>, nonce: Seq<u8>, ciphertext: Seq<u8>) -> Seq<u8> {
    seq![tag_of(algorithm)] + salt + nonce + ciphertext
}

/// What reading a single-file container gives.
pub open spec fn read_file_frame(bytes: Seq<u8>) -> Result<EntryView, FrameError> {
    if bytes.len() == 0 {
        Err(FrameError::Truncated)
    } else {
        match algorithm_of_tag(bytes[0]) {
            None => Err(FrameError::UnknownAlgorithm),
            Some(algorithm) => if bytes.len() < 45 {
                Err(FrameError::TooShort)
            } else {
                Ok(
                    (
                        algorithm,
                        bytes.subrange(1, 33),
                        bytes.subrange(33, 45),
                        bytes.subrange(45, bytes.len() as int),
                    ),
                )
            },
        }
    }
}

/// What an entry read from a container holds.
pub open spec fn entry_view(entry: (Algorithm, DecryptionInput)) -> EntryView {
    (entry.0, entry.1.salt@, entry.1.nonce@, entry.1.encrypted_data@)
}

/// Whether an executable read agrees with a read in the model.
pub open spec fn read_agrees(
    r: Result<(Algorithm, DecryptionInput), FrameError>,
    model: Result<EntryView, FrameError>,
) -> bool {
    match model {
        Ok(v) => r matches Ok(entry) && entry_view(entry) == v,
        Err(e) => r matches Err(f) && f == e,
    }
}

/// Puts one encrypted file in its container: tag, salt, nonce, ciphertext.
pub fn frame_file(algorithm: &Algorithm, result: &EncryptionResult) -> (r: Vec<u8>)
    ensures
        r@ == file_frame(*algorithm, result.salt@, result.nonce@, result.encrypted_data@),
{
    let mut combined: Vec<u8> = Vec::new();
    combined.push(algorithm_tag(algorithm));
    combined.extend_from_slice(result.salt.as_slice());
    combined.extend_from_slice(result.nonce.as_slice());
    combined.extend_from_slice(result.encrypted_data.as_slice());
    assert(combined@ =~= file_frame(
        *algorithm,
        result.salt@,
        result.nonce@,
        result.encrypted_data@,
    ));
    combined
}

/// Reads a single-file container: the tag first, then the header's length.
pub fn read_file(bytes: &[u8]) -> (r: Result<(Algorithm, DecryptionInput), FrameError>)
    ensures
        read_agrees(r, read_file_frame(bytes@)),
{
    if bytes.len() == 0 {
        return Err(FrameError::Truncated);
    }
    let algorithm = match tag_algorithm(bytes[0]) {
        Some(a) => a,
        None => {
            return Err(FrameError::UnknownAlgorithm);
        },
    };
    if bytes.len() < FILE_HEADER_LEN {
        return Err(FrameError::TooShort);
    }
    let salt = slice_to_vec(slice_subrange(bytes, 1, 33));
    let nonce = slice_to_vec(slice_subrange(bytes, 33, 45));
    let data = slice_to_vec(slice_subrange(bytes, 45, bytes.len()));
    Ok((algorithm, DecryptionInput { encrypted_data: data, nonce, salt }))
}

/// A single-file container reads back as the algorithm, salt, nonce and
/// ciphertext it was made of, for a 32-byte salt and a 12-byte nonce.
pub proof fn lemma_file_frame_roundtrip(
    algorithm: Algorithm,
    salt: Seq<u8>,
    nonce: Seq<u8>,
    ciphertext: Seq<u8>,
)
    requires
        salt.len() == SALT_SIZE,
        nonce.len() == NONCE_SIZE,
    ensures
        read_file_frame(file_frame(algorithm, salt, nonce, ciphertext)) == Ok::<
            EntryView,
            FrameError,
        >((algorithm, salt, nonce, ciphertext)),
{
    let b = file_frame(algorithm, salt, nonce, ciphertext);
    assert(b.subrange(1, 33) =~= salt);
    assert(b.subrange(33, 45) =~= nonce);
    assert(b.subrange(45, b.len() as int) =~= ciphertext);
}

/// The container entry of one file of a batch.
pub open spec fn entry_frame(entry: EntryView) -> Seq<u8> {
    seq![tag_of(entry.0)] + entry.1 + entry.2 + spec_u64_to_le_bytes(entry.3.len() as u64) + entry.3
}

/// The container of a batch: its entries one after another.
pub open spec fn batch_frame(entries: Seq<EntryView>) -> Seq<u8>
    decreases entries.len(),
{
    if entries.len() == 0 {
        Seq::empty()
    } else {
        batch_frame(entries.drop_last()) + entry_frame(entries.last())
    }
}

/// Puts `prefix` in front of the entries of a read, keeping an error as it is.
pub open spec fn prepend_entries(
    prefix: Seq<EntryView>,
    read: Result<Seq<EntryView>, FrameError>,
) -> Result<Seq<EntryView>, FrameError> {
    match read {
        Ok(rest) => Ok(prefix + rest),
        Err(e) => Err(e),
    }
}

/// What reading a batch container from `index` on gives. Reading stops
/// quietly at an entry whose length runs past the end of the bytes.
pub open spec fn read_batch_from(bytes: Seq<u8>, index: int) -> Result<Seq<EntryView>, FrameError>
    decreases bytes.len() - index,
{
    if index < 0 || index >= bytes.len() {
        Ok(Seq::empty())
    } else {
        match algorithm_of_tag(bytes[index]) {
            None => Err(FrameError::UnknownAlgorithm),
            Some(algorithm) => if index + 53 > bytes.len() {
                Err(FrameError::Truncated)
            } else {
                let n = spec_u64_from_le_bytes(bytes.subrange(index + 45, index + 53)) as int;
                let end = index + 53 + n;
                if end > usize::MAX {
                    Err(FrameError::Truncated)
                } else if end > bytes.len() {
                    Ok(Seq::empty())
                } else {
                    let entry = (
                        algorithm,
                        bytes.subrange(index + 1, index + 33),
                        bytes.subrange(index + 33, index + 45),
                        bytes.subrange(index + 53, end),
                    );
                    prepend_entries(seq![entry], read_batch_from(bytes, end))
                }
            },
        }
    }
}

/// What reading a whole batch container gives.
pub open spec fn read_batch_frame(bytes: Seq<u8>) -> Result<Seq<EntryView>, FrameError> {
    read_batch_from(bytes, 0)
}

/// Whether an executable batch read agrees with a read in the model.
pub open spec fn batch_agrees(
    r: Result<Vec<(Algorithm, DecryptionInput)>, FrameError>,
    model: Result<Seq<EntryView>, FrameError>,
) -> bool {
    match model {
        Ok(v) => r matches Ok(entries) && entries@.map_values(|e| entry_view(e)) == v,
        Err(e) => r matches Err(f) && f == e,
    }
}

/// Appends the entry of one encrypted file to a batch container.
pub fn append_batch_entry(combined: &mut Vec<u8>, algorithm: &Algorithm, result: &EncryptionResult)
    ensures
        final(combined)@ == old(combined)@ + entry_frame(
            (*algorithm, result.salt@, result.nonce@, result.encrypted_data@),
        ),
{
    let ghost start = combined@;
    combined.push(algorithm_tag(algorithm));
    combined.extend_from_slice(result.salt.as_slice());
    combined.extend_from_slice(result.nonce.as_slice());
    let length = result.encrypted_data.len() as u64;
    let length_bytes = u64_to_le_bytes(length);
    combined.extend_from_slice(length_bytes.as_slice());
    combined.extend_from_slice(result.encrypted_data.as_slice());
    assert(combined@ =~= start + entry_frame(
        (*algorithm, result.salt@, result.nonce@, result.encrypted_data@),
    ));
}

/// Reads a batch container entry by entry: the tag first, then the header,
/// then the length, and stops at an entry whose length runs past the end.
pub fn read_batch(bytes: &[u8]) -> (r: Result<Vec<(Algorithm, DecryptionInput)>, FrameError>)
    ensures
        batch_agrees(r, read_batch_frame(bytes@)),
{
    let mut entries: Vec<(Algorithm, DecryptionInput)> = Vec::new();
    let mut index: usize = 0;
    while index < bytes.len()
        invariant
            index <= bytes@.len(),
            read_batch_frame(bytes@) == prepend_entries(
                entries@.map_values(|e| entry_view(e)),
                read_batch_from(bytes@, index as int),
            ),
        decreases bytes@.len() - index,
    {
        let ghost before = entries@.map_values(|e| entry_view(e));
        let algorithm = match tag_algorithm(bytes[index]) {
            Some(a) => a,
            None => {
                return Err(FrameError::UnknownAlgorithm);
            },
        };
        if bytes.len() - index < ENTRY_HEADER_LEN {
            return Err(FrameError::Truncated);
        }
        let file_len = u64_from_le_bytes(slice_subrange(bytes, index + 45, index + 53));
        let remaining = bytes.len() - index - ENTRY_HEADER_LEN;
        if file_len as u128 > remaining as u128 {
            if index as u128 + 53 + file_len as u128 > usize::MAX as u128 {
                return Err(FrameError::Truncated);
            }
            assert(before + Seq::<EntryView>::empty() =~= before);
            return Ok(entries);
        }
        let end = index + ENTRY_HEADER_LEN + file_len as usize;
        let salt = slice_to_vec(slice_subrange(bytes, index + 1, index + 33));
        let nonce = slice_to_vec(slice_subrange(bytes, index + 33, index + 45));
        let data = slice_to_vec(slice_subrange(bytes, index + 53, end));
        let entry = (algorithm, DecryptionInput { encrypted_data: data, nonce, salt });
        proof {
            let ghost rest = read_batch_from(bytes@, end as int);
            assert(read_batch_from(bytes@, index as int) == prepend_entries(
                seq![entry_view(entry)],
                rest,
            ));
        }
        entries.push(entry);
        proof {
            assert(entries@.map_values(|e| entry_view(e)) =~= before.push(entry_view(entry)));
            match read_batch_from(bytes@, end as int) {
                Ok(rest) => {
                    assert(before + (seq![entry_view(entry)] + rest) =~= before.push(
                        entry_view(entry),
                    ) + rest);
                },
                Err(_) => {},
            }
        }
        index = end;
    }
    assert(entries@.map_values(|e| entry_view(e)) + Seq::<EntryView>::empty() =~= entries@.map_values(
        |e| entry_view(e),
    ));
    Ok(entries)
}

/// Whether an entry has the salt and nonce sizes that encryption gives.
pub open spec fn entry_well_formed(entry: EntryView) -> bool {
    entry.1.len() == SALT_SIZE && entry.2.len() == NONCE_SIZE
}

/// A batch container is its first entry followed by the container of the rest.
proof fn lemma_batch_frame_front(entries: Seq<EntryView>)
    requires
        entries.len() > 0,
    ensures
        batch_frame(entries) == entry_frame(entries[0]) + batch_frame(entries.drop_first()),
    decreases entries.len(),
{
    if entries.len() == 1 {
        assert(entries.drop_last() =~= Seq::<EntryView>::empty());
        assert(entries.drop_first() =~= Seq::<EntryView>::empty());
        assert(batch_frame(entries.drop_last()) == Seq::<u8>::empty());
        assert(batch_frame(entries.drop_first()) == Seq::<u8>::empty());
        assert(batch_frame(entries) =~= entry_frame(entries[0]));
    } else {
        let init = entries.drop_last();
        lemma_batch_frame_front(init);
        assert(init.drop_first() =~= entries.drop_first().drop_last());
        assert(entries.drop_first().last() == entries.last());
        assert(batch_frame(entries) =~= entry_frame(entries[0]) + batch_frame(entries.drop_first()));
    }
}

/// Reading from where a run of entries begins gives back those entries.
proof fn lemma_read_batch_after(prefix: Seq<u8>, entries: Seq<EntryView>)
    requires
        forall|i: int| 0 <= i < entries.len() ==> entry_well_formed(#[trigger] entries[i]),
        prefix.len() + batch_frame(entries).len() <= usize::MAX,
    ensures
        read_batch_from(prefix + batch_frame(entries), prefix.len() as int) == Ok::<
            Seq<EntryView>,
            FrameError,
        >(entries),
    decreases entries.len(),
{
    let bytes = prefix + batch_frame(entries);
    let i = prefix.len() as int;
    if entries.len() == 0 {
        assert(bytes.len() == i);
        assert(entries =~= Seq::<EntryView>::empty());
    } else {
        let e = entries[0];
        let rest = entries.drop_first();
        lemma_batch_frame_front(entries);
        let next = prefix + entry_frame(e);
        assert(bytes =~= next + batch_frame(rest));
        assert(entry_well_formed(e));
        lemma_auto_spec_u64_to_from_le_bytes();
        let n = e.3.len();
        lemma_tag_roundtrip(e.0);
        assert(bytes.subrange(i + 45, i + 53) =~= spec_u64_to_le_bytes(n as u64));
        assert(spec_u64_from_le_bytes(bytes.subrange(i + 45, i + 53)) == n);
        assert(bytes.subrange(i + 1, i + 33) =~= e.1);
        assert(bytes.subrange(i + 33, i + 45) =~= e.2);
        assert(bytes.subrange(i + 53, i + 53 + n) =~= e.3);
        assert(next.len() == i + 53 + n);
        assert forall|k: int| 0 <= k < rest.len() implies entry_well_formed(#[trigger] rest[k]) by {
            assert(rest[k] == entries[k + 1]);
        }
        lemma_read_batch_after(next, rest);
        assert(read_batch_from(bytes, i) == prepend_entries(
            seq![(e.0, e.1, e.2, e.3)],
            read_batch_from(bytes, i + 53 + n),
        ));
        assert(seq![(e.0, e.1, e.2, e.3)] + rest =~= entries);
    }
}

/// A batch container reads back as the entries it was made of, when every
/// entry has a 32-byte salt and a 12-byte nonce and the container's length
/// is an index.
pub proof fn lemma_batch_frame_roundtrip(entries: Seq<EntryView>)
    requires
        forall|i: int| 0 <= i < entries.len() ==> entry_well_formed(#[trigger] entries[i]),
        batch_frame(entries).len() <= usize::MAX,
    ensures
        read_batch_frame(batch_frame(entries)) == Ok::<Seq<EntryView>, FrameError>(entries),
{
    lemma_read_batch_after(Seq::empty(), entries);
    assert(Seq::<u8>::empty() + batch_frame(entries) =~= batch_frame(entries));
}

/// Whether a batch container begins with a whole entry: a known tag, a full
/// header, and a ciphertext that ends within the bytes.
pub open spec fn batch_starts_with_entry(bytes: Seq<u8>) -> bool {
    &&& bytes.len() >= 53
    &&& algorithm_of_tag(bytes[0]) is Some
    &&& 53 + spec_u64_from_le_bytes(bytes.subrange(45, 53)) <= bytes.len()
}

/// Whether a batch container begins with a whole entry.
pub fn batch_has_entry(bytes: &[u8]) -> (b: bool)
    ensures
        b == batch_starts_with_entry(bytes@),
{
    if bytes.len() < ENTRY_HEADER_LEN {
        return false;
    }
    if tag_algorithm(bytes[0]).is_none() {
        return false;
    }
    let file_len = u64_from_le_bytes(slice_subrange(bytes, 45, 53));
    file_len as u128 <= (bytes.len() - ENTRY_HEADER_LEN) as u128
}

/// A batch container that reads as some entries begins with a whole entry.
pub proof fn lemma_read_entries_start_whole(bytes: Seq<u8>)
    ensures
        read_batch_frame(bytes) matches Ok(v) && v.len() > 0 ==> batch_starts_with_entry(bytes),
{
}

/// Where each part of a single-file container stands: the tag at 0, the
/// salt at 1..33, the nonce at 33..45 and the ciphertext from 45 on.
pub proof fn lemma_file_frame_layout(
    algorithm: Algorithm,
    salt: Seq<u8>,
    nonce: Seq<u8>,
    ciphertext: Seq<u8>,
)
    requires
        salt.len() == SALT_SIZE,
        nonce.len() == NONCE_SIZE,
    ensures
        ({
            let f = file_frame(algorithm, salt, nonce, ciphertext);
            &&& f.len() == 45 + ciphertext.len()
            &&& f[0] == tag_of(algorithm)
            &&& f.subrange(1, 33) == salt
            &&& f.subrange(33, 45) == nonce
            &&& f.subrange(45, f.len() as int) == ciphertext
        }),
{
    let f = file_frame(algorithm, salt, nonce, ciphertext);
    assert(f.subrange(1, 33) =~= salt);
    assert(f.subrange(33, 45) =~= nonce);
    assert(f.subrange(45, f.len() as int) =~= ciphertext);
}

/// A single-file container is read from fixed offsets: the salt from 1..33,
/// the nonce from 33..45 and the ciphertext from 45 on.
pub proof fn lemma_read_file_offsets(bytes: Seq<u8>)
    ensures
        read_file_frame(bytes) matches Ok(e) ==> {
            &&& bytes.len() >= 45
            &&& algorithm_of_tag(bytes[0]) == Some(e.0)
            &&& e.1 == bytes.subrange(1, 33)
            &&& e.2 == bytes.subrange(33, 45)
            &&& e.3 == bytes.subrange(45, bytes.len() as int)
        },
{
}

/// Where each part of a batch entry stands: the tag at 0, the salt at 1..33,
/// the nonce at 33..45, the ciphertext's length (u64, little-endian) at
/// 45..53 and the ciphertext from 53 on.
pub proof fn lemma_entry_frame_layout(entry: EntryView)
    requires
        entry_well_formed(entry),
        entry.3.len() <= u64::MAX,
    ensures
        ({
            let f = entry_frame(entry);
            &&& f.len() == 53 + entry.3.len()
            &&& f[0] == tag_of(entry.0)
            &&& f.subrange(1, 33) == entry.1
            &&& f.subrange(33, 45) == entry.2
            &&& spec_u64_from_le_bytes(f.subrange(45, 53)) == entry.3.len()
            &&& f.subrange(53, f.len() as int) == entry.3
        }),
{
    let f = entry_frame(entry);
    lemma_auto_spec_u64_to_from_le_bytes();
    assert(f.subrange(1, 33) =~= entry.1);
    assert(f.subrange(33, 45) =~= entry.2);
    assert(f.subrange(45, 53) =~= spec_u64_to_le_bytes(entry.3.len() as u64));
    assert(f.subrange(53, f.len() as int) =~= entry.3);
}

/// A batch entry is read from fixed offsets after where it starts: the tag
/// at 0, the salt from 1..33, the nonce from 33..45, the length from 45..53
/// and that many ciphertext bytes from 53 on.
pub proof fn lemma_read_batch_offsets(bytes: Seq<u8>, index: int)
    ensures
        read_batch_from(bytes, index) matches Ok(v) ==> v.len() > 0 ==> {
            &&& 0 <= index
            &&& index + 53 <= bytes.len()
            &&& algorithm_of_tag(bytes[index]) == Some(v[0].0)
            &&& v[0].1 == bytes.subrange(index + 1, index + 33)
            &&& v[0].2 == bytes.subrange(index + 33, index + 45)
            &&& v[0].3.len() == spec_u64_from_le_bytes(bytes.subrange(index + 45, index + 53))
            &&& v[0].3 == bytes.subrange(index + 53, index + 53 + v[0].3.len())
        },
{
    if 0 <= index < bytes.len() && index + 53 <= bytes.len() {
        match read_batch_from(bytes, index) {
            Ok(v) => {
                if v.len() > 0 {
                    let n = spec_u64_from_le_bytes(bytes.subrange(index + 45, index + 53)) as int;
                    let end = index + 53 + n;
                    match read_batch_from(bytes, end) {
                        Ok(rest) => {
                            assert(v[0] == (
                                v[0].0,
                                bytes.subrange(index + 1, index + 33),
                                bytes.subrange(index + 33, index + 45),
                                bytes.subrange(index + 53, end),
                            ));
                        },
                        Err(_) => {},
                    }
                }
            },
            Err(_) => {},
        }
    }
}

/// AES-256-GCM is marked 0x01 and ChaCha20-Poly1305 0x02; every other byte
/// names no algorithm.
pub proof fn lemma_tag_values(tag: u8)
    ensures
        tag_of(Algorithm::AES256) == 0x01u8,
        tag_of(Algorithm::ChaCha20) == 0x02u8,
        algorithm_of_tag(tag) is Some <==> (tag == 0x01u8 || tag == 0x02u8),
{
}

} // verus!
