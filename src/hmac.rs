use crate::digest::{sha256, sha256_of};
use vstd::prelude::*;

verus! {

/// Block size of SHA-256 in bytes.
pub const BLOCK_LEN: usize = 64;

/// The key brought to one block: hashed first when longer than a block,
/// then right-padded with zero bytes.
pub open spec fn block_key(key: Seq<u8>) -> Seq<u8> {
    let k = if key.len() > BLOCK_LEN { sha256_of(key) } else { key };
    k + Seq::new((BLOCK_LEN - k.len()) as nat, |i: int| 0u8)
}

/// Every byte of `k` xor-ed with `pad`.
pub open spec fn xor_pad(k: Seq<u8>, pad: u8) -> Seq<u8> {
    Seq::new(k.len(), |i: int| k[i] ^ pad)
}

/// HMAC over SHA-256 (RFC 2104): H((K ^ opad) || H((K ^ ipad) || m)).
pub open spec fn hmac_sha256(key: Seq<u8>, msg: Seq<u8>) -> Seq<u8> {
    let k = block_key(key);
    sha256_of(xor_pad(k, 0x5c) + sha256_of(xor_pad(k, 0x36) + msg))
}

fn append_bytes(dst: &mut Vec<u8>, src: &[u8])
    ensures
        final(dst)@ == old(dst)@ + src@,
{
    let mut i: usize = 0;
    while i < src.len()
        invariant
            i <= src@.len(),
            dst@ == old(dst)@ + src@.subrange(0, i as int),
        decreases src@.len() - i,
    {
        dst.push(src[i]);
        proof {
            assert(src@.subrange(0, i as int + 1) =~= src@.subrange(0, i as int).push(src@[i as int]));
        }
        i = i + 1;
    }
    assert(src@.subrange(0, src@.len() as int) =~= src@);
}

/// HMAC-SHA256 of `msg` under `key`, as raw bytes.
pub fn hmac_sha256_bytes(key: &[u8], msg: &[u8]) -> (r: Vec<u8>)
    ensures
        r@ == hmac_sha256(key@, msg@),
        r@.len() == 32,
{
    let mut k: Vec<u8> = Vec::new();
    if key.len() > BLOCK_LEN {
        let h = sha256(key);
        append_bytes(&mut k, h.as_slice());
    } else {
        append_bytes(&mut k, key);
    }
    assert(k@.len() <= BLOCK_LEN);
    let ghost kb = block_key(key@);
    let mut inner: Vec<u8> = Vec::new();
    let mut outer: Vec<u8> = Vec::new();
    let mut i: usize = 0;
    while i < BLOCK_LEN
        invariant
            i <= BLOCK_LEN,
            k@.len() <= BLOCK_LEN,
            kb.len() == BLOCK_LEN,
            forall|j: int| 0 <= j < BLOCK_LEN ==> #[trigger] kb[j] == (if j < k@.len() { k@[j] } else { 0u8 }),
            inner@ == xor_pad(kb, 0x36).subrange(0, i as int),
            outer@ == xor_pad(kb, 0x5c).subrange(0, i as int),
        decreases BLOCK_LEN - i,
    {
        let b: u8 = if i < k.len() { k[i] } else { 0u8 };
        inner.push(b ^ 0x36u8);
        outer.push(b ^ 0x5cu8);
        proof {
            assert(inner@ =~= xor_pad(kb, 0x36).subrange(0, i as int + 1));
            assert(outer@ =~= xor_pad(kb, 0x5c).subrange(0, i as int + 1));
        }
        i = i + 1;
    }
    assert(inner@ =~= xor_pad(kb, 0x36));
    assert(outer@ =~= xor_pad(kb, 0x5c));
    append_bytes(&mut inner, msg);
    let ih = sha256(inner.as_slice());
    append_bytes(&mut outer, ih.as_slice());
    sha256(outer.as_slice())
}

} // verus!
