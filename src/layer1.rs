use vstd::prelude::*;

use crate::error::PeelError;

verus! {

/// The byte mask applied before rotating.
pub const MASK: u8 = 0x55;

/// Byte `i` of the whole buffer rotated right by one bit, where `prev` is the
/// byte before it (cyclically) and `cur` the byte itself.
pub open spec fn rotr_byte(prev: u8, cur: u8) -> u8 {
    (((prev & 1) << 7u8) | (cur >> 1u8)) as u8
}

/// Byte `i` of the whole buffer rotated left by one bit.
pub open spec fn rotl_byte(cur: u8, next: u8) -> u8 {
    (((cur << 1u8) as u8) | (next >> 7u8)) as u8
}

/// The masked input.
pub open spec fn masked(s: Seq<u8>) -> Seq<u8> {
    Seq::new(s.len(), |i: int| s[i] ^ MASK)
}

/// The buffer rotated right by one bit as one cyclic `8 * len`-bit word.
pub open spec fn rotate_right(s: Seq<u8>) -> Seq<u8> {
    Seq::new(s.len(), |i: int| rotr_byte(s[(i + s.len() - 1) % (s.len() as int)], s[i]))
}

/// The buffer rotated left by one bit as one cyclic `8 * len`-bit word.
pub open spec fn rotate_left(s: Seq<u8>) -> Seq<u8> {
    Seq::new(s.len(), |i: int| rotl_byte(s[i], s[(i + 1) % (s.len() as int)]))
}

/// What the bit-twist layer decodes `s` to.
pub open spec fn twist(s: Seq<u8>) -> Seq<u8> {
    rotate_right(masked(s))
}

/// The inverse of `twist`: rotate left, then mask.
pub open spec fn untwist(s: Seq<u8>) -> Seq<u8> {
    masked(rotate_left(s))
}

fn rotate(prev: u8, cur: u8) -> (r: u8)
    ensures
        r == rotr_byte(prev, cur),
{
    ((prev & 1) << 7u8) | (cur >> 1u8)
}

/// Masks every byte with `0x55`, then rotates the whole buffer right by one bit.
pub fn solve(payload: Vec<u8>) -> (r: Result<Vec<u8>, PeelError>)
    ensures
        payload@.len() == 0 ==> r == Err::<Vec<u8>, PeelError>(PeelError::EmptyInput),
        payload@.len() > 0 ==> (r matches Ok(out) && out@ == twist(payload@) && out@.len()
            == payload@.len()),
{
    let mut payload = payload;
    let n = payload.len();
    if n == 0 {
        return Err(PeelError::EmptyInput);
    }
    let ghost src = payload@;
    let mut i: usize = 0;
    while i < n
        invariant
            n == payload@.len(),
            n == src.len(),
            i <= n,
            forall|k: int| 0 <= k < i ==> payload@[k] == masked(src)[k],
            forall|k: int| i <= k < n ==> payload@[k] == src[k],
        decreases n - i,
    {
        let b = payload[i] ^ MASK;
        payload.set(i, b);
        i = i + 1;
    }
    let ghost m = payload@;
    assert(m =~= masked(src));
    let mut prev = payload[n - 1];
    proof {
        vstd::arithmetic::div_mod::lemma_small_mod((n - 1) as nat, n as nat);
    }
    let mut i: usize = 0;
    while i < n
        invariant
            n == payload@.len(),
            n == m.len(),
            n > 0,
            i <= n,
            prev == m[(i + n - 1) % (n as int)],
            forall|k: int| 0 <= k < i ==> payload@[k] == rotate_right(m)[k],
            forall|k: int| i <= k < n ==> payload@[k] == m[k],
        decreases n - i,
    {
        let cur = payload[i];
        payload.set(i, rotate(prev, cur));
        prev = cur;
        assert((i + 1 + n - 1) % (n as int) == i) by {
            assert((i + n) % (n as int) == i) by {
                vstd::arithmetic::div_mod::lemma_mod_add_multiples_vanish(i as int, n as int);
                vstd::arithmetic::div_mod::lemma_small_mod(i as nat, n as nat);
            }
        }
        i = i + 1;
    }
    assert(payload@ =~= twist(src));
    Ok(payload)
}

proof fn lemma_byte_round_trip(a: u8, b: u8, c: u8)
    ensures
        rotl_byte(rotr_byte(a, b), rotr_byte(b, c)) == b,
{
    assert((((((((a & 1) << 7u8) | (b >> 1u8)) as u8) << 1u8) as u8) | ((((((b & 1) << 7u8) | (c
        >> 1u8)) as u8) >> 7u8))) as u8 == b) by (bit_vector);
}

/// Undoing the layer (rotate left by one bit, then mask with `0x55`) gives
/// back the input, and the layer keeps the length.
pub proof fn lemma_untwist_twist(s: Seq<u8>)
    ensures
        twist(s).len() == s.len(),
        untwist(twist(s)) == s,
{
    let n = s.len() as int;
    let m = masked(s);
    let t = twist(s);
    let l = rotate_left(t);
    assert forall|i: int| 0 <= i < n implies #[trigger] l[i] == m[i] by {
        let j = (i + 1) % n;
        assert(0 <= j < n) by {
            vstd::arithmetic::div_mod::lemma_mod_bound(i + 1, n);
        }
        assert((j + n - 1) % n == i) by {
            if i + 1 < n {
                vstd::arithmetic::div_mod::lemma_small_mod((i + 1) as nat, n as nat);
                vstd::arithmetic::div_mod::lemma_mod_add_multiples_vanish(i, n);
                vstd::arithmetic::div_mod::lemma_small_mod(i as nat, n as nat);
            } else {
                vstd::arithmetic::div_mod::lemma_mod_self_0(n);
                vstd::arithmetic::div_mod::lemma_small_mod((n - 1) as nat, n as nat);
            }
        }
        lemma_byte_round_trip(m[(i + n - 1) % n], m[i], m[j]);
    }
    assert forall|i: int| 0 <= i < n implies #[trigger] untwist(t)[i] == s[i] by {
        let b = s[i];
        assert((b ^ 0x55u8) ^ 0x55u8 == b) by (bit_vector);
    }
    assert(untwist(t) =~= s);
}

} // verus!
