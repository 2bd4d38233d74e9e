//! The obfuscation transform: a length/position-keyed XOR stream cipher.
//!
//! The keystream depends only on the buffer's length and the byte's
//! position, never on the buffer's content, so applying the transform
//! twice restores the original bytes; the same routine both obfuscates
//! and restores a payload.

use vstd::prelude::*;

verus! {

/// One step of the key schedule: the key byte for index `i` is derived
/// from `i` (already reduced mod 256) and the key byte used one index
/// higher, with 8-bit wrapping arithmetic throughout.
pub open spec fn key_step(i: u8, num: u8) -> u8 {
    ((((i & 0x0f) + 0x55) as u8 ^ ((i * 11) % 256) as u8) ^ num) ^ 0xaa
}

/// The key byte XORed onto index `i` of a buffer of length `len`.
/// Indices are processed from `len - 1` down to `0`; the first key byte
/// is the length reduced mod 256, and each later one comes from
/// `key_step`.
pub open spec fn keystream(len: nat, i: int) -> u8
    recommends
        0 <= i < len,
    decreases len - i,
{
    if i >= len - 1 {
        (len % 256) as u8
    } else {
        key_step((((i + 1) % 256) as u8), keystream(len, i + 1))
    }
}

/// The transform as a function on byte sequences: every byte XORed with
/// the keystream byte for its position.
pub open spec fn spec_transform(s: Seq<u8>) -> Seq<u8> {
    Seq::new(s.len(), |i: int| s[i] ^ keystream(s.len(), i))
}

/// De- or encrypts a payload in place. Needs to be called over the
/// complete blob of payload data of a file to be successful, since the
/// keystream starts from the buffer's total length.
pub fn decrypt(data: &mut Vec<u8>)
    ensures
        final(data)@ == spec_transform(old(data)@),
{
    let ghost orig = data@;
    let len = data.len();
    let mut num: u8 = (len % 256) as u8;
    let mut i: usize = len;
    while i > 0
        invariant
            i <= len,
            data@.len() == len,
            orig.len() == len,
            i > 0 ==> num == keystream(len as nat, i - 1),
            forall|j: int| i <= j < len ==> data@[j] == orig[j] ^ keystream(len as nat, j),
            forall|j: int| 0 <= j < i ==> data@[j] == orig[j],
        decreases i,
    {
        let idx = i - 1;
        let old_b = data[idx];
        data.set(idx, old_b ^ num);
        let im: u8 = (idx % 256) as u8;
        proof {
            assert(im & 0x0f < 16) by (bit_vector);
        }
        let k1: u8 = (im & 0x0f) + 0x55;
        let k2: u8 = (((im as u16) * 11) % 256) as u8;
        num = ((k1 ^ k2) ^ num) ^ 0xaa;
        i = idx;
    }
    proof {
        assert(data@ =~= spec_transform(orig));
    }
}

/// Law: the transform is involutive. Applying it twice to any byte
/// sequence gives back the original sequence.
pub proof fn lemma_transform_involutive(s: Seq<u8>)
    ensures
        spec_transform(spec_transform(s)) == s,
{
    let t = spec_transform(s);
    let u = spec_transform(t);
    assert forall|i: int| 0 <= i < s.len() implies u[i] == s[i] by {
        let x = s[i];
        let k = keystream(s.len(), i);
        assert((x ^ k) ^ k == x) by (bit_vector);
    }
    assert(u =~= s);
}

/// Law: the keystream is independent of the buffer's content. For two
/// buffers of equal length, XORing each buffer with its transform
/// recovers one and the same keystream.
pub proof fn lemma_transform_content_independent(b1: Seq<u8>, b2: Seq<u8>)
    ensures
        b1.len() == b2.len() ==> forall|i: int|
            0 <= i < b1.len() ==> (spec_transform(b1)[i] ^ b1[i]) == (spec_transform(b2)[i]
                ^ b2[i]),
{
    if b1.len() == b2.len() {
        assert forall|i: int| 0 <= i < b1.len() implies (spec_transform(b1)[i] ^ b1[i]) == (
        spec_transform(b2)[i] ^ b2[i]) by {
            let k = keystream(b1.len(), i);
            let x = b1[i];
            let y = b2[i];
            assert(((x ^ k) ^ x) == ((y ^ k) ^ y)) by (bit_vector);
        }
    }
}

} // verus!
