use vstd::prelude::*;
use vstd::slice::slice_subrange;

use crate::error::{result_view, PeelError};

verus! {

/// The bytes are valid UTF-8, as `std::str::from_utf8` decides it.
pub uninterp spec fn utf8_valid(b: Seq<u8>) -> bool;

/// What `ascii85::decode` returns for the text `b`, if it succeeds.
pub uninterp spec fn ascii85_decoded(b: Seq<u8>) -> Option<Seq<u8>>;

/// Relies on `std::str::from_utf8`: it succeeds exactly on valid UTF-8.
#[verifier::external_body]
fn is_utf8(b: &[u8]) -> (r: bool)
    ensures
        r == utf8_valid(b@),
{
    std::str::from_utf8(b).is_ok()
}

/// Relies on `ascii85::decode`: `Ok` carries the decoded bytes. The bytes
/// reach it as text through `std::str::from_utf8`, and bytes that are not
/// UTF-8 give `None`. It strips every leading `<~`, so the text starts with
/// exactly one; its 32-bit accumulator must not overflow (it would panic),
/// which is what `decodes_in_range` states. A byte that is neither ASCII
/// whitespace nor a digit, ahead of a digit other than `>` (which the
/// trailing `~>` that it trims cannot hold), makes it fail.
#[verifier::external_body]
fn ascii85_decode(text: &[u8]) -> (r: Option<Vec<u8>>)
    requires
        opens_at(text@, 0),
        !opens_at(text@, 2),
        decodes_in_range(text@),
    ensures
        match r {
            Some(v) => ascii85_decoded(text@) == Some(v@),
            None => ascii85_decoded(text@) is None,
        },
        has_stray_byte(text@) ==> r is None,
{
    match std::str::from_utf8(text) {
        Ok(s) => ascii85::decode(s).ok(),
        Err(_) => None,
    }
}

/// A `<~` starts at `k`.
pub open spec fn opens_at(b: Seq<u8>, k: int) -> bool {
    0 <= k && k + 1 < b.len() && b[k] == 60 && b[k + 1] == 126
}

/// The last `<~` that starts before `end`.
pub open spec fn last_open_before(b: Seq<u8>, end: int) -> Option<int>
    decreases end,
{
    if end <= 0 {
        None
    } else if opens_at(b, end - 1) {
        Some(end - 1)
    } else {
        last_open_before(b, end - 1)
    }
}

/// An ASCII whitespace byte, as `u8::is_ascii_whitespace` has it.
pub open spec fn ascii_space(d: u8) -> bool {
    d == 32 || d == 9 || d == 10 || d == 12 || d == 13
}

/// The weight of the digit at place `counter` of a five-digit group.
pub open spec fn place_weight(counter: int) -> int {
    if counter == 0 {
        52200625
    } else if counter == 1 {
        614125
    } else if counter == 2 {
        7225
    } else if counter == 3 {
        85
    } else {
        1
    }
}

/// What completing a group from place `counter` with `u` digits adds.
pub open spec fn padding_total(counter: int) -> int
    decreases 5 - counter,
{
    if counter >= 5 {
        0
    } else {
        84 * place_weight(counter) + padding_total(counter + 1)
    }
}

/// A group cut short at place `counter` with value `chunk` is completed
/// without leaving 32 bits.
pub open spec fn padding_fits(counter: int, chunk: int) -> bool {
    counter == 0 || chunk + padding_total(counter) < 0x1_0000_0000
}

/// From byte `k` on, with `counter` digits of a group read into `chunk`, no
/// group of the decoder leaves 32 bits. Decoding stops at the first byte that
/// is neither whitespace nor a digit (`!` to `u`).
pub open spec fn in_range_from(b: Seq<u8>, k: int, counter: int, chunk: int) -> bool
    decreases b.len() - k,
{
    if k >= b.len() || k < 0 {
        padding_fits(counter, chunk)
    } else if ascii_space(b[k]) {
        in_range_from(b, k + 1, counter, chunk)
    } else if b[k] < 33 || b[k] > 117 {
        padding_fits(counter, chunk)
    } else {
        let c = chunk + (b[k] - 33) * place_weight(counter);
        c < 0x1_0000_0000 && if counter == 4 {
            in_range_from(b, k + 1, 0, 0)
        } else {
            in_range_from(b, k + 1, counter + 1, c)
        }
    }
}

/// A digit of the ASCII85 alphabet (`!` to `u`).
pub open spec fn a85_digit(d: u8) -> bool {
    33 <= d <= 117
}

/// After the opening `<~`, a byte that is neither whitespace nor a digit
/// comes before a digit other than `>`.
pub open spec fn has_stray_byte(b: Seq<u8>) -> bool {
    exists|i: int, j: int|
        2 <= i < j < b.len() && !ascii_space(#[trigger] b[i]) && !a85_digit(b[i]) && a85_digit(
            #[trigger] b[j],
        ) && b[j] != 62
}

/// The armored text `b` (which starts with `<~`) decodes without overflow.
pub open spec fn decodes_in_range(b: Seq<u8>) -> bool {
    in_range_from(b, 2, 0, 0)
}

/// What stripping the armor off `b` gives: the ASCII85 decoding of the text
/// from the last `<~` on.
pub open spec fn dearmored(b: Seq<u8>) -> Result<Seq<u8>, PeelError> {
    if !utf8_valid(b) {
        Err(PeelError::MalformedArmor)
    } else {
        match last_open_before(b, b.len() as int) {
            None => Err(PeelError::MalformedArmor),
            Some(k) => {
                let t = b.subrange(k, b.len() as int);
                if !decodes_in_range(t) {
                    Err(PeelError::MalformedArmor)
                } else {
                    match ascii85_decoded(t) {
                        Some(v) => Ok(v),
                        None => Err(PeelError::MalformedArmor),
                    }
                }
            },
        }
    }
}

/// Where the last `<~` of `b` starts.
pub fn find_armor_start(b: &[u8]) -> (r: Option<usize>)
    ensures
        match r {
            Some(k) => last_open_before(b@, b@.len() as int) == Some(k as int) && opens_at(
                b@,
                k as int,
            ) && forall|j: int| k < j < b@.len() ==> !opens_at(b@, j),
            None => last_open_before(b@, b@.len() as int) is None,
        },
{
    let mut end: usize = b.len();
    while end > 0
        invariant
            end <= b@.len(),
            last_open_before(b@, end as int) == last_open_before(b@, b@.len() as int),
            forall|j: int| end <= j < b@.len() ==> !opens_at(b@, j),
        decreases end,
    {
        let k = end - 1;
        if k + 1 < b.len() && b[k] == 60 && b[k + 1] == 126 {
            return Some(k);
        }
        end = k;
    }
    None
}

fn weight(counter: u64) -> (r: u64)
    ensures
        r == place_weight(counter as int),
{
    if counter == 0 {
        52200625
    } else if counter == 1 {
        614125
    } else if counter == 2 {
        7225
    } else if counter == 3 {
        85
    } else {
        1
    }
}

proof fn lemma_padding_totals()
    ensures
        padding_total(5) == 0,
        padding_total(4) == 84,
        padding_total(3) == 7224,
        padding_total(2) == 614124,
        padding_total(1) == 52200624,
{
    reveal_with_fuel(padding_total, 6);
}

fn padding_in_range(counter: u64, chunk: u64) -> (r: bool)
    requires
        counter <= 4,
        chunk < 0x1_0000_0000,
    ensures
        r == padding_fits(counter as int, chunk as int),
{
    if counter == 0 {
        return true;
    }
    proof {
        lemma_padding_totals();
    }
    let mut total: u64 = chunk;
    let mut q: u64 = counter;
    while q < 5
        invariant
            1 <= counter <= q <= 5,
            chunk < 0x1_0000_0000,
            total + padding_total(q as int) == chunk + padding_total(counter as int),
            padding_total(5) == 0,
            padding_total(4) == 84,
            padding_total(3) == 7224,
            padding_total(2) == 614124,
            padding_total(1) == 52200624,
        decreases 5 - q,
    {
        total = total + 84 * weight(q);
        q = q + 1;
    }
    total < 0x1_0000_0000
}

/// Whether `ascii85::decode` can read the armored text `b` without its
/// 32-bit accumulator leaving range.
pub fn decodes_without_overflow(b: &[u8]) -> (r: bool)
    ensures
        r == decodes_in_range(b@),
{
    let n = b.len();
    let mut k: usize = 2;
    let mut counter: u64 = 0;
    let mut chunk: u64 = 0;
    while k < n
        invariant
            n == b@.len(),
            k >= 2,
            counter <= 4,
            chunk < 0x1_0000_0000,
            in_range_from(b@, k as int, counter as int, chunk as int) == decodes_in_range(b@),
        decreases n - k,
    {
        let d = b[k];
        if d == 32 || d == 9 || d == 10 || d == 12 || d == 13 {
            k = k + 1;
        } else if d < 33 || d > 117 {
            return padding_in_range(counter, chunk);
        } else {
            let c = chunk + ((d - 33) as u64) * weight(counter);
            if c >= 0x1_0000_0000 {
                return false;
            }
            if counter == 4 {
                counter = 0;
                chunk = 0;
            } else {
                counter = counter + 1;
                chunk = c;
            }
            k = k + 1;
        }
    }
    padding_in_range(counter, chunk)
}

/// Strips the ASCII85 armor: decodes the text from the last `<~` on.
pub fn decode_payload(flavor: &[u8]) -> (r: Result<Vec<u8>, PeelError>)
    ensures
        result_view(r) == dearmored(flavor@),
{
    if !is_utf8(flavor) {
        return Err(PeelError::MalformedArmor);
    }
    match find_armor_start(flavor) {
        None => Err(PeelError::MalformedArmor),
        Some(k) => {
            let text = slice_subrange(flavor, k, flavor.len());
            assert(opens_at(text@, 0));
            assert(!opens_at(flavor@, k + 2));
            assert(!opens_at(text@, 2));
            if !decodes_without_overflow(text) {
                return Err(PeelError::MalformedArmor);
            }
            match ascii85_decode(text) {
                Some(v) => Ok(v),
                None => Err(PeelError::MalformedArmor),
            }
        },
    }
}

} // verus!
