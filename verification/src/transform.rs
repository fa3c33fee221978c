//! Key material and the repeating-key XOR transform.

use vstd::prelude::*;

verus! {

/// Byte `k` of `key`, counted from the least significant.
pub open spec fn key_byte(key: u32, k: int) -> u8 {
    if k == 0 {
        (key & 0xff) as u8
    } else if k == 1 {
        ((key >> 8) & 0xff) as u8
    } else if k == 2 {
        ((key >> 16) & 0xff) as u8
    } else {
        ((key >> 24) & 0xff) as u8
    }
}

/// Number of values that `len` bytes can hold, for `len` up to four.
pub open spec fn pow256(len: nat) -> int {
    if len == 0 {
        1
    } else if len == 1 {
        0x100
    } else if len == 2 {
        0x1_0000
    } else if len == 3 {
        0x100_0000
    } else {
        0x1_0000_0000
    }
}

/// The first `len` bytes of `key` in little-endian order.
pub open spec fn key_bytes(key: u32, len: nat) -> Seq<u8> {
    Seq::new(len, |k: int| key_byte(key, k))
}

/// `data` with byte `i` XORed with byte `i mod len(key)` of `key`.
pub open spec fn xor_with_key(data: Seq<u8>, key: Seq<u8>) -> Seq<u8>
    recommends
        key.len() > 0,
{
    Seq::new(data.len(), |i: int| data[i] ^ key[i % (key.len() as int)])
}

/// `data` XORed byte by byte with a pad at least as long.
pub open spec fn xor_with_pad(data: Seq<u8>, pad: Seq<u8>) -> Seq<u8>
    recommends
        data.len() <= pad.len(),
{
    Seq::new(data.len(), |i: int| data[i] ^ pad[i])
}

/// Two keys whose first `len` bytes agree and which have no other bytes set
/// are the same key: within a keyspace, different keys give different key
/// material.
pub proof fn lemma_key_bytes_distinct(a: u32, b: u32, len: nat)
    requires
        1 <= len <= 4,
        len < 4 ==> a < pow256(len) && b < pow256(len),
        key_bytes(a, len) == key_bytes(b, len),
    ensures
        a == b,
{
    let x = key_bytes(a, len);
    let y = key_bytes(b, len);
    assert(a & 0xff < 256 && (a >> 8) & 0xff < 256 && (a >> 16) & 0xff < 256 && (a >> 24) & 0xff
        < 256) by (bit_vector);
    assert(b & 0xff < 256 && (b >> 8) & 0xff < 256 && (b >> 16) & 0xff < 256 && (b >> 24) & 0xff
        < 256) by (bit_vector);
    assert(x[0] == y[0]);
    assert(a & 0xff == b & 0xff);
    if len >= 2 {
        assert(x[1] == y[1]);
        assert((a >> 8) & 0xff == (b >> 8) & 0xff);
    }
    if len >= 3 {
        assert(x[2] == y[2]);
        assert((a >> 16) & 0xff == (b >> 16) & 0xff);
    }
    if len >= 4 {
        assert(x[3] == y[3]);
        assert((a >> 24) & 0xff == (b >> 24) & 0xff);
    }
    if len == 1 {
        assert(a == b) by (bit_vector)
            requires
                a & 0xff == b & 0xff,
                a < 0x100,
                b < 0x100,
        ;
    } else if len == 2 {
        assert(a == b) by (bit_vector)
            requires
                a & 0xff == b & 0xff,
                (a >> 8) & 0xff == (b >> 8) & 0xff,
                a < 0x1_0000,
                b < 0x1_0000,
        ;
    } else if len == 3 {
        assert(a == b) by (bit_vector)
            requires
                a & 0xff == b & 0xff,
                (a >> 8) & 0xff == (b >> 8) & 0xff,
                (a >> 16) & 0xff == (b >> 16) & 0xff,
                a < 0x100_0000,
                b < 0x100_0000,
        ;
    } else {
        assert(a == b) by (bit_vector)
            requires
                a & 0xff == b & 0xff,
                (a >> 8) & 0xff == (b >> 8) & 0xff,
                (a >> 16) & 0xff == (b >> 16) & 0xff,
                (a >> 24) & 0xff == (b >> 24) & 0xff,
        ;
    }
}

/// The little-endian bytes of `key`, truncated to `key_length` bytes.
pub fn key_material(key: u32, key_length: usize) -> (bytes: Vec<u8>)
    requires
        1 <= key_length <= 4,
    ensures
        bytes@ == key_bytes(key, key_length as nat),
{
    assert(key & 0xff < 256 && (key >> 8) & 0xff < 256 && (key >> 16) & 0xff < 256 && (key >> 24)
        & 0xff < 256) by (bit_vector);
    let mut bytes: Vec<u8> = Vec::new();
    bytes.push((key & 0xff) as u8);
    if key_length >= 2 {
        bytes.push(((key >> 8) & 0xff) as u8);
    }
    if key_length >= 3 {
        bytes.push(((key >> 16) & 0xff) as u8);
    }
    if key_length >= 4 {
        bytes.push(((key >> 24) & 0xff) as u8);
    }
    assert(bytes@ =~= key_bytes(key, key_length as nat));
    bytes
}

/// XORs `data` with a repeating key of any positive length.
pub fn xor_bytes(data: &[u8], key: &[u8]) -> (out: Vec<u8>)
    requires
        key@.len() > 0,
    ensures
        out@ == xor_with_key(data@, key@),
{
    let mut out: Vec<u8> = Vec::with_capacity(data.len());
    let mut i: usize = 0;
    while i < data.len()
        invariant
            key@.len() > 0,
            i <= data@.len(),
            out@ == xor_with_key(data@.take(i as int), key@),
        decreases data@.len() - i,
    {
        out.push(data[i] ^ key[i % key.len()]);
        assert(out@ =~= xor_with_key(data@.take(i + 1), key@));
        i = i + 1;
    }
    assert(data@.take(i as int) =~= data@);
    out
}

/// XORs `data` with the four little-endian bytes of `key`, repeated.
pub fn xor_data(data: &[u8], key: u32) -> (out: Vec<u8>)
    ensures
        out@ == xor_with_key(data@, key_bytes(key, 4)),
        out@.len() == data@.len(),
{
    let pad = key_material(key, 4);
    xor_bytes(data, pad.as_slice())
}

/// XOR with a repeating key undoes itself: transforming twice with the same
/// key gives the buffer back.
pub proof fn lemma_xor_round_trip(data: Seq<u8>, key: Seq<u8>)
    requires
        key.len() > 0,
    ensures
        xor_with_key(xor_with_key(data, key), key) == data,
{
    let once = xor_with_key(data, key);
    let twice = xor_with_key(once, key);
    assert forall|i: int| 0 <= i < data.len() implies twice[i] == data[i] by {
        let a = data[i];
        let b = key[i % (key.len() as int)];
        assert((a ^ b) ^ b == a) by (bit_vector);
    }
    assert(twice =~= data);
}

/// XOR with a pad undoes itself.
pub proof fn lemma_pad_round_trip(data: Seq<u8>, pad: Seq<u8>)
    requires
        data.len() <= pad.len(),
    ensures
        xor_with_pad(xor_with_pad(data, pad), pad) == data,
{
    let once = xor_with_pad(data, pad);
    let twice = xor_with_pad(once, pad);
    assert forall|i: int| 0 <= i < data.len() implies twice[i] == data[i] by {
        let a = data[i];
        let b = pad[i];
        assert((a ^ b) ^ b == a) by (bit_vector);
    }
    assert(twice =~= data);
}

} // verus!
