//! A repeating-key XOR of bytes with a password.
use vstd::prelude::*;
use vstd::string::StringSliceAdditionalSpecFns;

verus! {

/// Each byte of `data` XORed with the key byte at its position modulo the
/// key's length; nothing where the key is empty.
pub open spec fn xor_with_key(data: Seq<u8>, key: Seq<u8>) -> Seq<u8> {
    if key.len() == 0 {
        Seq::empty()
    } else {
        Seq::new(data.len(), |i: int| data[i] ^ key[i % (key.len() as int)])
    }
}

/// XORs `data` with the password's bytes, repeated as often as needed; an
/// empty password gives nothing.
pub fn xor_encrypt(data: &[u8], password: &str) -> (r: Vec<u8>)
    ensures
        r@ == xor_with_key(data@, password.spec_bytes()),
        password.spec_bytes().len() > 0 ==> r@.len() == data@.len(),
        forall|i: int|
            0 <= i < r@.len() ==> #[trigger] r@[i] ^ data@[i] == password.spec_bytes()[i
                % (password.spec_bytes().len() as int)],
{
    let key = password.as_bytes();
    let mut out: Vec<u8> = Vec::new();
    if key.len() == 0 {
        return out;
    }
    let mut i: usize = 0;
    while i < data.len()
        invariant
            key@ == password.spec_bytes(),
            key@.len() > 0,
            i <= data@.len(),
            out@.len() == i,
            forall|j: int| 0 <= j < i ==> out@[j] == data@[j] ^ key@[j % (key@.len() as int)],
        decreases data@.len() - i,
    {
        out.push(data[i] ^ key[i % key.len()]);
        i = i + 1;
    }
    assert(out@ =~= xor_with_key(data@, password.spec_bytes()));
    proof {
        lemma_xor_reveals_key(data@, key@);
    }
    out
}

/// XORing twice with the same password gives the data back, wherever the
/// password is not empty (an empty password erases any data).
pub proof fn lemma_xor_encrypt_involution(data: Seq<u8>, key: Seq<u8>)
    requires
        key.len() > 0 || data.len() == 0,
    ensures
        xor_with_key(xor_with_key(data, key), key) == data,
{
    if key.len() == 0 {
        assert(xor_with_key(xor_with_key(data, key), key) =~= data);
    } else {
        let once = xor_with_key(data, key);
        let twice = xor_with_key(once, key);
        assert forall|i: int| 0 <= i < data.len() implies twice[i] == data[i] by {
            let a = data[i];
            let b = key[i % (key.len() as int)];
            assert((a ^ b) ^ b == a) by (bit_vector);
        }
        assert(twice =~= data);
    }
}

/// XORing the output with the data gives the password's bytes back,
/// repeated: each output byte is its data byte XORed with the key byte at
/// that position modulo the key's length, whatever the key's bytes are.
pub proof fn lemma_xor_reveals_key(data: Seq<u8>, key: Seq<u8>)
    ensures
        key.len() > 0 ==> xor_with_key(data, key).len() == data.len(),
        key.len() == 0 ==> xor_with_key(data, key).len() == 0,
        forall|i: int|
            0 <= i < xor_with_key(data, key).len() ==> #[trigger] xor_with_key(data, key)[i]
                ^ data[i] == key[i % (key.len() as int)],
{
    if key.len() > 0 {
        assert forall|i: int| 0 <= i < xor_with_key(data, key).len() implies #[trigger] xor_with_key(
            data,
            key,
        )[i] ^ data[i] == key[i % (key.len() as int)] by {
            let a = data[i];
            let b = key[i % (key.len() as int)];
            assert((a ^ b) ^ a == b) by (bit_vector);
        }
    }
}

} // verus!
