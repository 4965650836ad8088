use vstd::prelude::*;

verus! {

/// Byte `j` (0 to 3) of the big-endian form of the key `key`.
pub open spec fn key_byte(key: u32, j: int) -> u8 {
    if j == 0 {
        (key >> 24u32) as u8
    } else if j == 1 {
        (key >> 16u32) as u8
    } else if j == 2 {
        (key >> 8u32) as u8
    } else {
        key as u8
    }
}

/// The payload `p` XORed with the four key bytes, cycling by offset modulo 4.
pub open spec fn masked(p: Seq<u8>, key: u32) -> Seq<u8> {
    Seq::new(p.len(), |i: int| p[i] ^ key_byte(key, i % 4))
}

/// Applying the same mask twice gives back the original payload.
pub proof fn lemma_mask_involution(p: Seq<u8>, key: u32)
    ensures
        masked(masked(p, key), key) == p,
{
    let m = masked(masked(p, key), key);
    assert forall|i: int| 0 <= i < p.len() implies m[i] == p[i] by {
        let a = p[i];
        let k = key_byte(key, i % 4);
        assert((a ^ k) ^ k == a) by (bit_vector);
    }
    assert(m =~= p);
}

proof fn lemma_word_xor(b0: u8, b1: u8, b2: u8, b3: u8, key: u32)
    ensures
        ({
            let w: u32 = ((b0 as u32) << 24u32) | ((b1 as u32) << 16u32) | ((b2 as u32) << 8u32) | (
            b3 as u32);
            let x: u32 = w ^ key;
            &&& ((x >> 24u32) as u8) == b0 ^ key_byte(key, 0)
            &&& ((x >> 16u32) as u8) == b1 ^ key_byte(key, 1)
            &&& ((x >> 8u32) as u8) == b2 ^ key_byte(key, 2)
            &&& (x as u8) == b3 ^ key_byte(key, 3)
        }),
{
    assert(((((((b0 as u32) << 24u32) | ((b1 as u32) << 16u32) | ((b2 as u32) << 8u32) | (b3 as u32))
        ^ key) >> 24u32) as u8) == b0 ^ ((key >> 24u32) as u8)) by (bit_vector);
    assert(((((((b0 as u32) << 24u32) | ((b1 as u32) << 16u32) | ((b2 as u32) << 8u32) | (b3 as u32))
        ^ key) >> 16u32) as u8) == b1 ^ ((key >> 16u32) as u8)) by (bit_vector);
    assert(((((((b0 as u32) << 24u32) | ((b1 as u32) << 16u32) | ((b2 as u32) << 8u32) | (b3 as u32))
        ^ key) >> 8u32) as u8) == b2 ^ ((key >> 8u32) as u8)) by (bit_vector);
    assert((((((b0 as u32) << 24u32) | ((b1 as u32) << 16u32) | ((b2 as u32) << 8u32) | (b3 as u32))
        ^ key) as u8) == b3 ^ (key as u8)) by (bit_vector);
}

/// XORs `data` in place with the big-endian bytes of `key`, the key cycling
/// by offset modulo 4: each whole group of four bytes as one big-endian
/// `u32` word XORed with the key, the bytes after the last group one by one.
pub fn mask(data: &mut [u8], key: u32)
    ensures
        final(data)@ == masked(old(data)@, key),
{
    let k: [u8; 4] = [(key >> 24u32) as u8, (key >> 16u32) as u8, (key >> 8u32) as u8, key as u8];
    let n = data.len();
    let words = n - n % 4;
    let mut i: usize = 0;
    while i < words
        invariant
            n == data@.len(),
            n == old(data)@.len(),
            words == n - n % 4,
            i <= words,
            i % 4 == 0,
            forall|j: int| 0 <= j < i ==> data@[j] == old(data)@[j] ^ key_byte(key, j % 4),
            forall|j: int| i <= j < n ==> data@[j] == old(data)@[j],
        decreases words - i,
    {
        let w: u32 = ((data[i] as u32) << 24u32) | ((data[i + 1] as u32) << 16u32) | ((data[i + 2]
            as u32) << 8u32) | (data[i + 3] as u32);
        proof {
            lemma_word_xor(data@[i as int], data@[i + 1], data@[i + 2], data@[i + 3], key);
        }
        let x: u32 = w ^ key;
        data[i] = (x >> 24u32) as u8;
        data[i + 1] = (x >> 16u32) as u8;
        data[i + 2] = (x >> 8u32) as u8;
        data[i + 3] = x as u8;
        assert((i + 1) as int % 4 == 1 && (i + 2) as int % 4 == 2 && (i + 3) as int % 4 == 3);
        i = i + 4;
    }
    while i < n
        invariant
            n == data@.len(),
            n == old(data)@.len(),
            i <= n,
            k@ == seq![key_byte(key, 0), key_byte(key, 1), key_byte(key, 2), key_byte(key, 3)],
            forall|j: int| 0 <= j < i ==> data@[j] == old(data)@[j] ^ key_byte(key, j % 4),
            forall|j: int| i <= j < n ==> data@[j] == old(data)@[j],
        decreases n - i,
    {
        let b = data[i] ^ k[i % 4];
        data[i] = b;
        i = i + 1;
    }
    assert(data@ =~= masked(old(data)@, key));
}

} // verus!
