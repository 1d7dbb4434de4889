use vstd::prelude::*;

verus! {

/// The XOR of the eight bits of `b`.
pub open spec fn parity_of(b: u8) -> u8 {
    ((b & 1) ^ ((b >> 1u8) & 1) ^ ((b >> 2u8) & 1) ^ ((b >> 3u8) & 1) ^ ((b >> 4u8) & 1) ^ ((b
        >> 5u8) & 1) ^ ((b >> 6u8) & 1) ^ ((b >> 7u8) & 1)) as u8
}

/// A byte survives the filter when its low bit is the parity of its seven high bits.
pub open spec fn keeps_parity(b: u8) -> bool {
    parity_of(b & 0xFE) == b & 1
}

/// The bytes that pass the parity filter, in order.
pub open spec fn filtered(s: Seq<u8>) -> Seq<u8> {
    s.filter(|b: u8| keeps_parity(b))
}

/// The seven high bits of the first `k` bytes of `c`, packed big-endian.
pub open spec fn pack(c: Seq<u8>, k: nat) -> u64
    decreases k,
{
    if k == 0 {
        0
    } else {
        ((pack(c, (k - 1) as nat) << 7u64) | ((c[k - 1] >> 1u8) as u64)) as u64
    }
}

/// The low seven bytes of `v`, big-endian.
pub open spec fn low7_be(v: u64) -> Seq<u8> {
    Seq::new(7, |j: int| (v >> ((48 - 8 * j) as u64)) as u8)
}

/// Each whole group of eight bytes of `f` becomes seven bytes; a short tail is dropped.
pub open spec fn unpack(f: Seq<u8>) -> Seq<u8>
    decreases f.len(),
{
    if f.len() < 8 {
        Seq::empty()
    } else {
        low7_be(pack(f, 8)) + unpack(f.subrange(8, f.len() as int))
    }
}

/// What the parity layer decodes `s` to.
pub open spec fn unpacked(s: Seq<u8>) -> Seq<u8> {
    unpack(filtered(s))
}

/// The parity of the eight bits of `byte`.
pub fn parity(byte: u8) -> (r: u8)
    ensures
        r == parity_of(byte),
{
    (byte & 1) ^ ((byte >> 1u8) & 1) ^ ((byte >> 2u8) & 1) ^ ((byte >> 3u8) & 1) ^ ((
    byte >> 4u8) & 1) ^ ((byte >> 5u8) & 1) ^ ((byte >> 6u8) & 1) ^ ((byte >> 7u8) & 1)
}

proof fn lemma_unpack_len(f: Seq<u8>)
    ensures
        unpack(f).len() == 7 * (f.len() / 8),
    decreases f.len(),
{
    if f.len() >= 8 {
        lemma_unpack_len(f.subrange(8, f.len() as int));
    }
}

/// Drops every byte whose low bit is not the parity of its high seven bits,
/// then turns each whole group of eight survivors into seven bytes.
pub fn solve(payload: Vec<u8>) -> (r: Vec<u8>)
    ensures
        r@ == unpacked(payload@),
        r@.len() == 7 * (filtered(payload@).len() / 8),
{
    let n = payload.len();
    let mut kept: Vec<u8> = Vec::new();
    let mut i: usize = 0;
    while i < n
        invariant
            n == payload@.len(),
            i <= n,
            kept@ == filtered(payload@.subrange(0, i as int)),
        decreases n - i,
    {
        let b = payload[i];
        proof {
            assert(payload@.subrange(0, i + 1) =~= payload@.subrange(0, i as int).push(b));
            payload@.subrange(0, i as int).lemma_filter_push(b, |b: u8| keeps_parity(b));
        }
        if parity(b & 0xFE) == b & 1 {
            kept.push(b);
        }
        i = i + 1;
    }
    assert(payload@.subrange(0, n as int) =~= payload@);
    let ghost f = kept@;
    let m = kept.len();
    let mut out: Vec<u8> = Vec::new();
    let mut base: usize = 0;
    assert(f.subrange(0, m as int) =~= f);
    while m - base >= 8
        invariant
            f == kept@,
            m == f.len(),
            base <= m,
            out@ + unpack(f.subrange(base as int, m as int)) == unpack(f),
        decreases m - base,
    {
        let ghost rest = f.subrange(base as int, m as int);
        let mut acc: u64 = 0;
        let mut k: usize = 0;
        while k < 8
            invariant
                base + 8 <= m,
                m == kept@.len(),
                rest == kept@.subrange(base as int, m as int),
                k <= 8,
                acc == pack(rest, k as nat),
            decreases 8 - k,
        {
            acc = (acc << 7u64) | ((kept[base + k] >> 1u8) as u64);
            k = k + 1;
        }
        let ghost before = out@;
        let mut j: usize = 0;
        while j < 7
            invariant
                j <= 7,
                out@ == before + low7_be(acc).subrange(0, j as int),
            decreases 7 - j,
        {
            out.push(#[verifier::truncate] ((acc >> ((48 - 8 * j) as u64)) as u8));
            proof {
                assert(low7_be(acc).subrange(0, j + 1) =~= low7_be(acc).subrange(0, j as int).push(
                    (acc >> ((48 - 8 * j) as u64)) as u8,
                ));
            }
            j = j + 1;
        }
        assert(low7_be(acc).subrange(0, 7) =~= low7_be(acc));
        assert(rest.subrange(8, rest.len() as int) =~= f.subrange(base + 8, m as int));
        assert(out@ + unpack(f.subrange(base + 8, m as int)) =~= before + unpack(rest));
        base = base + 8;
    }
    assert(unpack(f.subrange(base as int, m as int)) =~= Seq::<u8>::empty());
    assert(out@ =~= unpack(f));
    proof {
        lemma_unpack_len(f);
    }
    out
}

/// Every byte that goes into an emitted group passed the parity check.
pub proof fn lemma_groups_pass_parity(s: Seq<u8>)
    ensures
        forall|i: int| 0 <= i < filtered(s).len() ==> keeps_parity(#[trigger] filtered(s)[i]),
        unpacked(s).len() == 7 * (filtered(s).len() / 8),
{
    broadcast use vstd::seq_lib::group_filter_ensures;

    lemma_unpack_len(filtered(s));
}

} // verus!
