use vstd::prelude::*;
use vstd::slice::slice_subrange;

use aes::Aes256;
use block_modes::block_padding::NoPadding;
use block_modes::{BlockMode, Cbc, Ecb};

use crate::error::{result_view, PeelError};

verus! {

/// Length of the header: KEK, KEK IV, wrapped key and payload IV.
pub const HEADER_LEN: usize = 96;

/// One AES-256 block decryption of `block` under `key`, as the `aes` crate computes it.
pub uninterp spec fn aes256_block_decrypt_of(key: Seq<u8>, block: Seq<u8>) -> Seq<u8>;

/// AES-256-CBC decryption without padding of `data` under `key` and `iv`, as
/// the `block-modes` crate computes it.
pub uninterp spec fn aes256_cbc_decrypt_of(key: Seq<u8>, iv: Seq<u8>, data: Seq<u8>) -> Seq<u8>;

/// Relies on `block_modes::Ecb<aes::Aes256, NoPadding>`: `new_from_slices`
/// accepts any 32-byte key (ECB ignores the IV), and `decrypt` decrypts a
/// 16-byte buffer in place, keeping its length.
#[verifier::external_body]
fn decrypt_block(key: &[u8], block: &[u8]) -> (r: Vec<u8>)
    requires
        key@.len() == 32,
        block@.len() == 16,
    ensures
        r@ == aes256_block_decrypt_of(key@, block@),
        r@.len() == 16,
{
    let mut buf = block.to_vec();
    Ecb::<Aes256, NoPadding>::new_from_slices(key, &[]).unwrap().decrypt(&mut buf).unwrap();
    buf
}

/// Relies on `block_modes::Cbc<aes::Aes256, NoPadding>`: `new_from_slices`
/// accepts a 32-byte key and a 16-byte IV, and `decrypt_vec` accepts any
/// whole number of blocks and, with no padding to strip, keeps the length.
#[verifier::external_body]
fn decrypt_cbc(key: &[u8], iv: &[u8], data: &[u8]) -> (r: Vec<u8>)
    requires
        key@.len() == 32,
        iv@.len() == 16,
        data@.len() % 16 == 0,
    ensures
        r@ == aes256_cbc_decrypt_of(key@, iv@, data@),
        r@.len() == data@.len(),
{
    Cbc::<Aes256, NoPadding>::new_from_slices(key, iv).unwrap().decrypt_vec(data).unwrap()
}

/// The big-endian 64-bit word at `i`.
pub open spec fn word_of(b: Seq<u8>, i: int) -> u64 {
    ((b[i] as u64) << 56u64) | ((b[i + 1] as u64) << 48u64) | ((b[i + 2] as u64) << 40u64) | ((
    b[i + 3] as u64) << 32u64) | ((b[i + 4] as u64) << 24u64) | ((b[i + 5] as u64) << 16u64) | ((b[i
        + 6] as u64) << 8u64) | (b[i + 7] as u64)
}

/// The eight big-endian bytes of `x`.
pub open spec fn bytes_of(x: u64) -> Seq<u8> {
    seq![(x >> 56u64) as u8, (x >> 48u64) as u8, (x >> 40u64) as u8, (x >> 32u64) as u8, (x
        >> 24u64) as u8, (x >> 16u64) as u8, (x >> 8u64) as u8, x as u8]
}

/// The words, each as eight big-endian bytes, in order.
pub open spec fn key_bytes(ws: Seq<u64>) -> Seq<u8>
    decreases ws.len(),
{
    if ws.len() == 0 {
        Seq::empty()
    } else {
        key_bytes(ws.drop_last()) + bytes_of(ws.last())
    }
}

/// One step of the unwrap at round `j` and word `i`.
pub open spec fn unwrap_step(kek: Seq<u8>, a: u64, c: Seq<u64>, j: int, i: int) -> (u64, Seq<u64>) {
    let t = ((c.len() - 1) * j + i) as u64;
    let b = aes256_block_decrypt_of(kek, bytes_of(a ^ t) + bytes_of(c[i]));
    (word_of(b, 0), c.update(i, word_of(b, 8)))
}

/// Round `j` of the unwrap, over words `i` down to 1.
pub open spec fn unwrap_round(kek: Seq<u8>, a: u64, c: Seq<u64>, j: int, i: int) -> (u64, Seq<u64>)
    decreases i,
{
    if i <= 0 {
        (a, c)
    } else {
        let s = unwrap_step(kek, a, c, j, i);
        unwrap_round(kek, s.0, s.1, j, i - 1)
    }
}

/// Rounds `m - 1` down to 0 of the unwrap.
pub open spec fn unwrap_rounds(kek: Seq<u8>, a: u64, c: Seq<u64>, m: int) -> (u64, Seq<u64>)
    decreases m,
{
    if m <= 0 {
        (a, c)
    } else {
        let s = unwrap_round(kek, a, c, m - 1, c.len() - 1);
        unwrap_rounds(kek, s.0, s.1, m - 1)
    }
}

/// The integrity value and the words after the whole RFC 3394 unwrap of `c` under `kek`.
pub open spec fn unwrap_state(kek: Seq<u8>, c: Seq<u64>) -> (u64, Seq<u64>) {
    unwrap_rounds(kek, c[0], c, 6)
}

/// The unwrapped key words (all but the first).
pub open spec fn unwrapped(kek: Seq<u8>, c: Seq<u64>) -> Seq<u64> {
    let s = unwrap_state(kek, c).1;
    s.subrange(1, s.len() as int)
}

/// The wrapped key of the header as five big-endian words.
pub open spec fn wrapped_words(p: Seq<u8>) -> Seq<u64> {
    Seq::new(5, |k: int| word_of(p, 40 + 8 * k))
}

/// What the AES layer decodes `p` to.
pub open spec fn decrypted_payload(p: Seq<u8>) -> Result<Seq<u8>, PeelError> {
    if p.len() < HEADER_LEN {
        Err(PeelError::TruncatedStream)
    } else if p.len() == HEADER_LEN || (p.len() - HEADER_LEN) % 16 != 0 {
        Err(PeelError::BadBlockSize)
    } else if unwrap_state(p.subrange(0, 32), wrapped_words(p)).0 != word_of(p, 32) {
        Err(PeelError::IntegrityFailure)
    } else {
        Ok(
            aes256_cbc_decrypt_of(
                key_bytes(unwrapped(p.subrange(0, 32), wrapped_words(p))),
                p.subrange(80, 96),
                p.subrange(96, p.len() as int),
            ),
        )
    }
}

proof fn lemma_round_len(kek: Seq<u8>, a: u64, c: Seq<u64>, j: int, i: int)
    requires
        i < c.len(),
    ensures
        unwrap_round(kek, a, c, j, i).1.len() == c.len(),
    decreases i,
{
    if i > 0 {
        let s = unwrap_step(kek, a, c, j, i);
        lemma_round_len(kek, s.0, s.1, j, i - 1);
    }
}

proof fn lemma_rounds_len(kek: Seq<u8>, a: u64, c: Seq<u64>, m: int)
    requires
        c.len() >= 1,
    ensures
        unwrap_rounds(kek, a, c, m).1.len() == c.len(),
    decreases m,
{
    if m > 0 {
        lemma_round_len(kek, a, c, m - 1, c.len() - 1);
        let s = unwrap_round(kek, a, c, m - 1, c.len() - 1);
        lemma_rounds_len(kek, s.0, s.1, m - 1);
    }
}

fn read_be_u64(b: &[u8], i: usize) -> (r: u64)
    requires
        i + 7 < b@.len(),
    ensures
        r == word_of(b@, i as int),
{
    ((b[i] as u64) << 56u64) | ((b[i + 1] as u64) << 48u64) | ((b[i + 2] as u64) << 40u64) | ((
    b[i + 3] as u64) << 32u64) | ((b[i + 4] as u64) << 24u64) | ((b[i + 5] as u64) << 16u64) | ((b[i
        + 6] as u64) << 8u64) | (b[i + 7] as u64)
}

fn push_be_u64(v: &mut Vec<u8>, x: u64)
    ensures
        final(v)@ == old(v)@ + bytes_of(x),
{
    v.push(#[verifier::truncate] ((x >> 56u64) as u8));
    v.push(#[verifier::truncate] ((x >> 48u64) as u8));
    v.push(#[verifier::truncate] ((x >> 40u64) as u8));
    v.push(#[verifier::truncate] ((x >> 32u64) as u8));
    v.push(#[verifier::truncate] ((x >> 24u64) as u8));
    v.push(#[verifier::truncate] ((x >> 16u64) as u8));
    v.push(#[verifier::truncate] ((x >> 8u64) as u8));
    v.push(#[verifier::truncate] (x as u8));
    assert(final(v)@ =~= old(v)@ + bytes_of(x));
}

/// RFC 3394 key unwrap of the words `ciphertext` under `kek`: replaces them by
/// the unwrapped key words (the first word dropped) and tells whether the
/// final integrity value equals the big-endian word in `iv`.
pub fn unwrap_key(ciphertext: &mut Vec<u64>, kek: &[u8], iv: &[u8]) -> (r: bool)
    requires
        1 <= old(ciphertext)@.len() <= 0x1000_0000,
        kek@.len() == 32,
        iv@.len() == 8,
    ensures
        final(ciphertext)@ == unwrapped(kek@, old(ciphertext)@),
        r == (unwrap_state(kek@, old(ciphertext)@).0 == word_of(iv@, 0)),
{
    let ghost c0 = ciphertext@;
    let len = ciphertext.len();
    let n = (len - 1) as u64;
    let mut a = ciphertext[0];
    let mut j: u64 = 6;
    while j > 0
        invariant
            ciphertext@.len() == len,
            n == len - 1,
            1 <= len <= 0x1000_0000,
            kek@.len() == 32,
            j <= 6,
            unwrap_rounds(kek@, a, ciphertext@, j as int) == unwrap_state(kek@, c0),
        decreases j,
    {
        j = j - 1;
        let ghost a0 = a;
        let ghost start = ciphertext@;
        let mut i: usize = len - 1;
        while i > 0
            invariant
                ciphertext@.len() == len,
                n == len - 1,
                1 <= len <= 0x1000_0000,
                kek@.len() == 32,
                j < 6,
                i < len,
                unwrap_round(kek@, a, ciphertext@, j as int, i as int) == unwrap_round(
                    kek@,
                    a0,
                    start,
                    j as int,
                    n as int,
                ),
            decreases i,
        {
            assert(n * j <= n * 5) by (nonlinear_arith)
                requires
                    j <= 5,
            ;
            let t = n * j + i as u64;
            let mut block: Vec<u8> = Vec::new();
            push_be_u64(&mut block, a ^ t);
            push_be_u64(&mut block, ciphertext[i]);
            assert(block@ =~= bytes_of(a ^ t) + bytes_of(ciphertext@[i as int]));
            let b = decrypt_block(kek, block.as_slice());
            a = read_be_u64(b.as_slice(), 0);
            ciphertext.set(i, read_be_u64(b.as_slice(), 8));
            i = i - 1;
        }
    }
    let ok = a == read_be_u64(iv, 0);
    ciphertext.remove(0);
    assert(ciphertext@ =~= unwrapped(kek@, c0));
    ok
}

/// Unwraps the payload key from the 96-byte header (KEK, KEK IV, wrapped key,
/// payload IV) and decrypts the rest with AES-256-CBC.
pub fn solve(payload: Vec<u8>) -> (r: Result<Vec<u8>, PeelError>)
    ensures
        result_view(r) == decrypted_payload(payload@),
        r matches Ok(v) ==> v@.len() == payload@.len() - HEADER_LEN,
{
    let len = payload.len();
    if len < HEADER_LEN {
        return Err(PeelError::TruncatedStream);
    }
    if len == HEADER_LEN || (len - HEADER_LEN) % 16 != 0 {
        return Err(PeelError::BadBlockSize);
    }
    let p = payload.as_slice();
    let kek = slice_subrange(p, 0, 32);
    let kek_iv = slice_subrange(p, 32, 40);
    let payload_iv = slice_subrange(p, 80, 96);
    let ciphertext = slice_subrange(p, 96, len);
    let mut words: Vec<u64> = Vec::new();
    let mut k: usize = 0;
    while k < 5
        invariant
            p@ == payload@,
            p@.len() == len,
            len > HEADER_LEN,
            k <= 5,
            words@ == wrapped_words(p@).subrange(0, k as int),
        decreases 5 - k,
    {
        words.push(read_be_u64(p, 40 + 8 * k));
        assert(words@ =~= wrapped_words(p@).subrange(0, k + 1));
        k = k + 1;
    }
    assert(words@ =~= wrapped_words(p@));
    assert(kek@ =~= p@.subrange(0, 32));
    let ok = unwrap_key(&mut words, kek, kek_iv);
    proof {
        lemma_rounds_len(p@.subrange(0, 32), wrapped_words(p@)[0], wrapped_words(p@), 6);
    }
    assert(word_of(kek_iv@, 0) == word_of(p@, 32));
    if !ok {
        return Err(PeelError::IntegrityFailure);
    }
    let ghost ws = words@;
    let mut key: Vec<u8> = Vec::new();
    let mut k: usize = 0;
    while k < words.len()
        invariant
            ws == words@,
            k <= words@.len(),
            key@ == key_bytes(ws.subrange(0, k as int)),
            key@.len() == 8 * k,
        decreases words@.len() - k,
    {
        push_be_u64(&mut key, words[k]);
        assert(ws.subrange(0, k + 1).drop_last() =~= ws.subrange(0, k as int));
        k = k + 1;
    }
    assert(ws.subrange(0, ws.len() as int) =~= ws);
    Ok(decrypt_cbc(key.as_slice(), payload_iv, ciphertext))
}

} // verus!
