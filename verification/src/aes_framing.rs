use vstd::prelude::*;

use aes::cipher::generic_array::GenericArray;
use aes::cipher::{BlockDecrypt, BlockEncrypt, KeyInit};
use aes::Aes128;
use typenum::U16;

verus! {

/// Size of an AES block and of an AES-128 key, in bytes.
pub const BLOCK_LEN: usize = 16;

/// What AES-128 turns the 16-byte `block` into under the 16-byte `key`.
pub uninterp spec fn aes128_encrypt(key: Seq<u8>, block: Seq<u8>) -> Seq<u8>;

/// What AES-128 decryption turns the 16-byte `block` into under the 16-byte `key`.
pub uninterp spec fn aes128_decrypt(key: Seq<u8>, block: Seq<u8>) -> Seq<u8>;

/// Encrypts one block: builds the cipher with `Aes128::new` (through `KeyInit`) from the
/// key and runs `BlockEncrypt::encrypt_block` on a copy of the block.
/// Trusted: the result is the AES-128 image of the block, 16 bytes long, and decrypting it
/// under the same key gives the block back (the cipher crate documents block ciphers as
/// keyed, deterministic, reversible permutations of a block).
#[verifier::external_body]
fn aes128_encrypt_block(key: &[u8], block: &[u8]) -> (out: Vec<u8>)
    requires
        key@.len() == BLOCK_LEN,
        block@.len() == BLOCK_LEN,
    ensures
        out@ == aes128_encrypt(key@, block@),
        out@.len() == BLOCK_LEN,
        aes128_decrypt(key@, out@) == block@,
{
    let cipher = Aes128::new(key.into());
    let mut b = GenericArray::<u8, U16>::clone_from_slice(block);
    cipher.encrypt_block(&mut b);
    b.to_vec()
}

/// Decrypts one block: builds the cipher with `Aes128::new` (through `KeyInit`) from the
/// key and runs `BlockDecrypt::decrypt_block` on a copy of the block.
/// Trusted: the result is the AES-128 preimage of the block, 16 bytes long, and encrypting
/// it under the same key gives the block back.
#[verifier::external_body]
fn aes128_decrypt_block(key: &[u8], block: &[u8]) -> (out: Vec<u8>)
    requires
        key@.len() == BLOCK_LEN,
        block@.len() == BLOCK_LEN,
    ensures
        out@ == aes128_decrypt(key@, block@),
        out@.len() == BLOCK_LEN,
        aes128_encrypt(key@, out@) == block@,
{
    let cipher = Aes128::new(key.into());
    let mut b = GenericArray::<u8, U16>::clone_from_slice(block);
    cipher.decrypt_block(&mut b);
    b.to_vec()
}

/// Number of 16-byte chunks that a message of `len` bytes is cut into (the last one may be
/// short).
pub open spec fn block_count(len: int) -> int {
    (len + 15) / 16
}

/// Chunk `i` of `p`, filled up with zero bytes to 16 bytes.
pub open spec fn padded_block(p: Seq<u8>, i: int) -> Seq<u8> {
    Seq::new(16, |j: int| if 16 * i + j < p.len() { p[16 * i + j] } else { 0u8 })
}

/// `p` followed by zero bytes up to `len` bytes.
pub open spec fn zero_fill(p: Seq<u8>, len: int) -> Seq<u8> {
    Seq::new(len as nat, |j: int| if j < p.len() { p[j] } else { 0u8 })
}

/// The encryptions of the first `n` padded chunks of `p`, one after the other.
pub open spec fn encrypt_blocks(key: Seq<u8>, p: Seq<u8>, n: nat) -> Seq<u8>
    decreases n,
{
    if n == 0 {
        Seq::empty()
    } else {
        encrypt_blocks(key, p, (n - 1) as nat) + aes128_encrypt(key, padded_block(p, n - 1))
    }
}

/// The decryptions of the first `n` padded chunks of `c`, one after the other.
pub open spec fn decrypt_blocks(key: Seq<u8>, c: Seq<u8>, n: nat) -> Seq<u8>
    decreases n,
{
    if n == 0 {
        Seq::empty()
    } else {
        decrypt_blocks(key, c, (n - 1) as nat) + aes128_decrypt(key, padded_block(c, n - 1))
    }
}

/// `s` without its trailing zero bytes.
pub open spec fn strip_trailing_zeros(s: Seq<u8>) -> Seq<u8>
    decreases s.len(),
{
    if s.len() > 0 && s.last() == 0 {
        strip_trailing_zeros(s.drop_last())
    } else {
        s
    }
}

/// The ciphertext of a message: each 16-byte chunk, zero-filled, encrypted on its own.
pub open spec fn aes_encrypt_spec(key: Seq<u8>, p: Seq<u8>) -> Seq<u8> {
    encrypt_blocks(key, p, block_count(p.len() as int) as nat)
}

/// The plaintext of a ciphertext: each 16-byte chunk, zero-filled, decrypted on its own,
/// with the trailing zero bytes of the whole taken off.
pub open spec fn aes_decrypt_spec(key: Seq<u8>, c: Seq<u8>) -> Seq<u8> {
    strip_trailing_zeros(decrypt_blocks(key, c, block_count(c.len() as int) as nat))
}

proof fn lemma_decrypt_blocks_prefix(key: Seq<u8>, c: Seq<u8>, e: Seq<u8>, n: nat)
    requires
        c.len() >= 16 * n,
    ensures
        decrypt_blocks(key, c + e, n) == decrypt_blocks(key, c, n),
    decreases n,
{
    if n > 0 {
        lemma_decrypt_blocks_prefix(key, c, e, (n - 1) as nat);
        assert(padded_block(c + e, n - 1) =~= padded_block(c, n - 1));
    }
}

proof fn lemma_strip_zero_fill(p: Seq<u8>, len: int)
    requires
        len >= p.len(),
    ensures
        strip_trailing_zeros(zero_fill(p, len)) == strip_trailing_zeros(p),
    decreases len - p.len(),
{
    if len == p.len() {
        assert(zero_fill(p, len) =~= p);
    } else {
        assert(zero_fill(p, len).drop_last() =~= zero_fill(p, len - 1));
        lemma_strip_zero_fill(p, len - 1);
    }
}

/// Encrypts a message for the lobby protocol: the message is cut into 16-byte chunks, the
/// last one filled up with zero bytes, and each chunk is encrypted with AES-128 on its own.
///
/// Decrypting the result with `decrypt_aes` under the same key gives the message back
/// without its trailing zero bytes.
pub fn encrypt_aes(key: &[u8], plaintext: &[u8]) -> (ciphertext: Vec<u8>)
    requires
        key@.len() == BLOCK_LEN,
    ensures
        ciphertext@ == aes_encrypt_spec(key@, plaintext@),
        ciphertext@.len() == 16 * block_count(plaintext@.len() as int),
        aes_decrypt_spec(key@, ciphertext@) == strip_trailing_zeros(plaintext@),
{
    let n = plaintext.len();
    let blocks: usize = n / BLOCK_LEN + if n % BLOCK_LEN != 0 {
        1
    } else {
        0
    };
    assert(blocks == block_count(n as int));
    let mut ciphertext: Vec<u8> = Vec::new();
    let mut i: usize = 0;
    while i < blocks
        invariant
            n == plaintext@.len(),
            blocks == block_count(n as int),
            i <= blocks,
            key@.len() == BLOCK_LEN,
            ciphertext@ == encrypt_blocks(key@, plaintext@, i as nat),
            ciphertext@.len() == 16 * i,
            decrypt_blocks(key@, ciphertext@, i as nat) == zero_fill(plaintext@, 16 * i),
        decreases blocks - i,
    {
        let start = i * BLOCK_LEN;
        let mut block: Vec<u8> = Vec::new();
        let mut j: usize = 0;
        while j < BLOCK_LEN
            invariant
                n == plaintext@.len(),
                start == 16 * i,
                start < n,
                j <= BLOCK_LEN,
                block@.len() == j,
                forall|k: int| 0 <= k < j ==> #[trigger] block@[k] == padded_block(plaintext@, i as int)[k],
            decreases BLOCK_LEN - j,
        {
            if j < n - start {
                block.push(plaintext[start + j]);
            } else {
                block.push(0);
            }
            j = j + 1;
        }
        assert(block@ =~= padded_block(plaintext@, i as int));
        let enc = aes128_encrypt_block(key, block.as_slice());
        let ghost before = ciphertext@;
        let mut k: usize = 0;
        while k < BLOCK_LEN
            invariant
                enc@.len() == BLOCK_LEN,
                k <= BLOCK_LEN,
                ciphertext@ == before + enc@.subrange(0, k as int),
            decreases BLOCK_LEN - k,
        {
            ciphertext.push(enc[k]);
            k = k + 1;
            assert(ciphertext@ =~= before + enc@.subrange(0, k as int));
        }
        proof {
            assert(enc@.subrange(0, 16) =~= enc@);
            lemma_decrypt_blocks_prefix(key@, before, enc@, i as nat);
            assert(padded_block(ciphertext@, i as int) =~= enc@);
            assert(zero_fill(plaintext@, 16 * (i + 1)) =~= zero_fill(plaintext@, 16 * i)
                + padded_block(plaintext@, i as int));
        }
        i = i + 1;
    }
    proof {
        lemma_strip_zero_fill(plaintext@, 16 * blocks);
        assert(block_count(ciphertext@.len() as int) == blocks);
    }
    ciphertext
}

/// Decrypts a message of the lobby protocol: the ciphertext is cut into 16-byte chunks, the
/// last one filled up with zero bytes, each chunk is decrypted with AES-128 on its own, and
/// the trailing zero bytes of the whole are taken off.
pub fn decrypt_aes(key: &[u8], ciphertext: &[u8]) -> (plaintext: Vec<u8>)
    requires
        key@.len() == BLOCK_LEN,
    ensures
        plaintext@ == aes_decrypt_spec(key@, ciphertext@),
{
    let n = ciphertext.len();
    let blocks: usize = n / BLOCK_LEN + if n % BLOCK_LEN != 0 {
        1
    } else {
        0
    };
    let mut decrypted: Vec<u8> = Vec::new();
    let mut i: usize = 0;
    while i < blocks
        invariant
            n == ciphertext@.len(),
            blocks == block_count(n as int),
            i <= blocks,
            key@.len() == BLOCK_LEN,
            decrypted@ == decrypt_blocks(key@, ciphertext@, i as nat),
        decreases blocks - i,
    {
        let start = i * BLOCK_LEN;
        let mut block: Vec<u8> = Vec::new();
        let mut j: usize = 0;
        while j < BLOCK_LEN
            invariant
                n == ciphertext@.len(),
                start == 16 * i,
                start < n,
                j <= BLOCK_LEN,
                block@.len() == j,
                forall|k: int| 0 <= k < j ==> #[trigger] block@[k] == padded_block(ciphertext@, i as int)[k],
            decreases BLOCK_LEN - j,
        {
            if j < n - start {
                block.push(ciphertext[start + j]);
            } else {
                block.push(0);
            }
            j = j + 1;
        }
        assert(block@ =~= padded_block(ciphertext@, i as int));
        let dec = aes128_decrypt_block(key, block.as_slice());
        let ghost before = decrypted@;
        let mut k: usize = 0;
        while k < BLOCK_LEN
            invariant
                dec@.len() == BLOCK_LEN,
                k <= BLOCK_LEN,
                decrypted@ == before + dec@.subrange(0, k as int),
            decreases BLOCK_LEN - k,
        {
            decrypted.push(dec[k]);
            k = k + 1;
            assert(decrypted@ =~= before + dec@.subrange(0, k as int));
        }
        assert(dec@.subrange(0, 16) =~= dec@);
        i = i + 1;
    }
    // Remove the zero padding.
    while decrypted.len() > 0 && decrypted[decrypted.len() - 1] == 0
        invariant
            strip_trailing_zeros(decrypted@) == aes_decrypt_spec(key@, ciphertext@),
        decreases decrypted@.len(),
    {
        decrypted.pop();
    }
    decrypted
}

} // verus!
