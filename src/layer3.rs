use vstd::prelude::*;

use crate::error::PeelError;

verus! {

/// The length of the repeating XOR key.
pub const KEY_LEN: usize = 32;

/// How many leading plaintext bytes are known.
pub const PREFIX_LEN: usize = 15;

/// The known start of the plaintext, `"==[ Layer 4/5: "`.
pub open spec fn known_prefix() -> Seq<u8> {
    seq![61u8, 61, 91, 32, 76, 97, 121, 101, 114, 32, 52, 47, 53, 58, 32]
}

/// Printable 7-bit ASCII or a newline.
pub open spec fn printable(c: u8) -> bool {
    c < 0x80 && (c >= 0x20 || c == 0x0A)
}

/// XOR with `g` makes every byte of column `i` of `p` printable.
pub open spec fn column_fits(p: Seq<u8>, i: int, g: u8) -> bool {
    forall|j: int| 0 <= j < p.len() && j % (KEY_LEN as int) == i ==> printable(#[trigger] p[j] ^ g)
}

/// `g` is the smallest byte below 255 that fits column `i`.
pub open spec fn first_fit(p: Seq<u8>, i: int, g: u8) -> bool {
    g < 255 && column_fits(p, i, g) && forall|h: u8| h < g ==> !column_fits(p, i, h)
}

/// Some byte below 255 fits column `i`.
pub open spec fn has_fit(p: Seq<u8>, i: int) -> bool {
    exists|g: u8| g < 255 && column_fits(p, i, g)
}

/// Every column past the known prefix has a fitting key byte.
pub open spec fn key_recoverable(p: Seq<u8>) -> bool {
    forall|i: int| PREFIX_LEN <= i < KEY_LEN ==> has_fit(p, i)
}

/// Key byte `i`: from the known prefix where it covers the column, else the first fit.
pub open spec fn key_byte(p: Seq<u8>, i: int) -> u8 {
    if i < PREFIX_LEN {
        if i < p.len() {
            p[i] ^ known_prefix()[i]
        } else {
            0
        }
    } else {
        choose|g: u8| first_fit(p, i, g)
    }
}

/// `p` with every byte XORed by the key byte of its column.
pub open spec fn decrypted(p: Seq<u8>) -> Seq<u8> {
    Seq::new(p.len(), |j: int| p[j] ^ key_byte(p, j % (KEY_LEN as int)))
}

fn is_printable(c: u8) -> (r: bool)
    ensures
        r == printable(c),
{
    c < 0x80 && (c >= 0x20 || c == 0x0A)
}

fn fits_column(p: &Vec<u8>, i: usize, g: u8) -> (r: bool)
    requires
        i < KEY_LEN,
    ensures
        r == column_fits(p@, i as int, g),
{
    let n = p.len();
    let mut j: usize = i;
    while j < n
        invariant
            n == p@.len(),
            i < KEY_LEN,
            j % KEY_LEN == i,
            forall|k: int| 0 <= k < j && k < n && k % (KEY_LEN as int) == i ==> printable(#[trigger] p@[k] ^ g),
        decreases n - j,
    {
        if !is_printable(p[j] ^ g) {
            return false;
        }
        if n - j <= KEY_LEN {
            return true;
        }
        j = j + KEY_LEN;
    }
    true
}

proof fn lemma_first_fit_unique(p: Seq<u8>, i: int, g: u8, h: u8)
    requires
        first_fit(p, i, g),
        first_fit(p, i, h),
    ensures
        g == h,
{
}

/// Recovers the 32-byte XOR key from the known prefix and, for the other
/// columns, the first byte that makes the whole column printable; then
/// decrypts the payload with it.
pub fn solve(payload: Vec<u8>) -> (r: Result<Vec<u8>, PeelError>)
    ensures
        r is Err <==> !key_recoverable(payload@),
        r matches Err(e) ==> e == PeelError::NoKeyCandidate,
        r matches Ok(out) ==> out@ == decrypted(payload@),
        r matches Ok(out) ==> forall|j: int|
            0 <= j < out@.len() && (j < PREFIX_LEN || j % (KEY_LEN as int) >= PREFIX_LEN)
                ==> printable(#[trigger] out@[j]),
{
    let prefix: Vec<u8> = vec![61u8, 61, 91, 32, 76, 97, 121, 101, 114, 32, 52, 47, 53, 58, 32];
    assert(prefix@ =~= known_prefix());
    let n = payload.len();
    let mut key: Vec<u8> = Vec::new();
    let mut i: usize = 0;
    while i < PREFIX_LEN
        invariant
            n == payload@.len(),
            prefix@ == known_prefix(),
            i <= PREFIX_LEN,
            key@.len() == i,
            forall|k: int| 0 <= k < i ==> key@[k] == key_byte(payload@, k),
        decreases PREFIX_LEN - i,
    {
        if i < n {
            key.push(payload[i] ^ prefix[i]);
        } else {
            key.push(0);
        }
        i = i + 1;
    }
    while i < KEY_LEN
        invariant
            n == payload@.len(),
            PREFIX_LEN <= i <= KEY_LEN,
            key@.len() == i,
            forall|k: int| 0 <= k < i ==> key@[k] == key_byte(payload@, k),
            forall|k: int| PREFIX_LEN <= k < i ==> first_fit(payload@, k, #[trigger] key@[k]),
        decreases KEY_LEN - i,
    {
        let mut g: u8 = 0;
        let mut found = false;
        while g < 255 && !found
            invariant
                i < KEY_LEN,
                forall|h: u8| h < g ==> !column_fits(payload@, i as int, h),
                found ==> g < 255 && column_fits(payload@, i as int, g),
            decreases 2 * (255 - g) + if found { 0int } else { 1int },
        {
            if fits_column(&payload, i, g) {
                found = true;
            } else {
                g = g + 1;
            }
        }
        if !found {
            assert(!has_fit(payload@, i as int));
            assert(!key_recoverable(payload@));
            return Err(PeelError::NoKeyCandidate);
        }
        proof {
            let c = choose|c: u8| first_fit(payload@, i as int, c);
            assert(first_fit(payload@, i as int, g));
            lemma_first_fit_unique(payload@, i as int, g, c);
        }
        key.push(g);
        i = i + 1;
    }
    assert(key_recoverable(payload@)) by {
        assert forall|k: int| PREFIX_LEN <= k < KEY_LEN implies has_fit(payload@, k) by {
            assert(first_fit(payload@, k, key@[k]));
        }
    }
    let mut out = payload;
    let mut j: usize = 0;
    while j < n
        invariant
            n == out@.len(),
            n == payload@.len(),
            key@.len() == KEY_LEN,
            prefix@ == known_prefix(),
            j <= n,
            forall|k: int| 0 <= k < KEY_LEN ==> key@[k] == key_byte(payload@, k),
            forall|k: int| 0 <= k < j ==> out@[k] == decrypted(payload@)[k],
            forall|k: int| j <= k < n ==> out@[k] == payload@[k],
        decreases n - j,
    {
        let b = out[j] ^ key[j % KEY_LEN];
        out.set(j, b);
        j = j + 1;
    }
    assert(out@ =~= decrypted(payload@));
    assert forall|j: int|
        0 <= j < out@.len() && (j < PREFIX_LEN || j % (KEY_LEN as int) >= PREFIX_LEN)
            implies printable(#[trigger] out@[j]) by {
        let c = j % (KEY_LEN as int);
        let p = payload@;
        if j < PREFIX_LEN {
            let a = p[j];
            let q = known_prefix()[j];
            assert(a ^ (a ^ q) == q) by (bit_vector);
        } else {
            assert(first_fit(p, c, key@[c]));
            assert(printable(p[j] ^ key@[c]));
        }
    }
    Ok(out)
}

} // verus!
