//! Room identifiers: 128-bit values written and read in the usual
//! hyphenated hexadecimal form.
//!
//! Freshly created rooms draw a random identifier through the `uuid`
//! crate; the textual form is the library's own code, so a client can
//! quote back exactly what a snapshot showed it.

use vstd::prelude::*;
use vstd::arithmetic::div_mod::lemma_div_denominator;

verus! {

/// The dash between identifier groups.
pub const DASH: u8 = 0x2d;

pub open spec fn pow16(k: nat) -> nat
    decreases k,
{
    if k == 0 {
        1
    } else {
        16 * pow16((k - 1) as nat)
    }
}

proof fn lemma_pow16_pos(k: nat)
    ensures
        pow16(k) >= 1,
    decreases k,
{
    if k > 0 {
        lemma_pow16_pos((k - 1) as nat);
    }
}

proof fn lemma_pow16_mono(a: nat, b: nat)
    requires
        a <= b,
    ensures
        pow16(a) <= pow16(b),
    decreases b,
{
    lemma_pow16_pos(a);
    if a < b {
        lemma_pow16_mono(a, (b - 1) as nat);
        lemma_pow16_pos((b - 1) as nat);
    }
}

proof fn lemma_pow16_32()
    ensures
        pow16(32) == 0x100000000000000000000000000000000,
{
    reveal_with_fuel(pow16, 33);
}

/// The lowercase hex digit for a nibble.
pub open spec fn hexd(n: u8) -> u8 {
    if n < 10 {
        (0x30 + n) as u8
    } else {
        (0x57 + n) as u8
    }
}

/// The nibble a hex digit stands for, upper or lower case.
pub open spec fn hex_val(b: u8) -> Option<u8> {
    if 0x30 <= b <= 0x39 {
        Some((b - 0x30) as u8)
    } else if 0x61 <= b <= 0x66 {
        Some((b - 0x57) as u8)
    } else if 0x41 <= b <= 0x46 {
        Some((b - 0x37) as u8)
    } else {
        None
    }
}

/// Hex digit `i` of `id`, counted from the most significant of 32.
pub open spec fn spec_uuid_nib(id: u128, i: int) -> u8 {
    hexd((((id as nat) / pow16((31 - i) as nat)) % 16) as u8)
}

/// Which of the 32 hex digits sits at text position `i`.
pub open spec fn uuid_digit_index(i: int) -> int {
    if i < 8 {
        i
    } else if i < 13 {
        i - 1
    } else if i < 18 {
        i - 2
    } else if i < 23 {
        i - 3
    } else {
        i - 4
    }
}

/// The hyphenated lowercase text of `id`.
pub open spec fn spec_uuid_bytes(id: u128) -> Seq<u8> {
    Seq::new(
        36,
        |i: int|
            if i == 8 || i == 13 || i == 18 || i == 23 {
                DASH
            } else {
                spec_uuid_nib(id, uuid_digit_index(i))
            },
    )
}

/// Writes `id` in its hyphenated lowercase form.
pub fn uuid_bytes(id: u128) -> (r: Vec<u8>)
    ensures
        r@ == spec_uuid_bytes(id),
{
    let mut nibs: Vec<u8> = Vec::new();
    let mut tmp: u128 = id;
    proof {
        assert(pow16(0) == 1);
        assert((id as nat) / 1 == id as nat);
    }
    let mut k: usize = 0;
    while k < 32
        invariant
            k <= 32,
            nibs@.len() == k,
            tmp as nat == (id as nat) / pow16(k as nat),
            forall|m: int| 0 <= m < k ==> nibs@[m] == spec_uuid_nib(id, 31 - m),
        decreases 32 - k,
    {
        let nib: u8 = (tmp % 16) as u8;
        let digit: u8 = if nib < 10 {
            0x30 + nib
        } else {
            0x57 + nib
        };
        nibs.push(digit);
        proof {
            assert(digit == hexd(nib));
            assert(nibs@[k as int] == spec_uuid_nib(id, 31 - k));
            lemma_pow16_pos(k as nat);
            lemma_div_denominator(id as int, pow16(k as nat) as int, 16);
            assert(pow16((k + 1) as nat) == 16 * pow16(k as nat));
        }
        tmp = tmp / 16;
        k += 1;
    }
    let mut out: Vec<u8> = Vec::new();
    let mut i: usize = 0;
    while i < 36
        invariant
            i <= 36,
            nibs@.len() == 32,
            forall|m: int| 0 <= m < 32 ==> nibs@[m] == spec_uuid_nib(id, 31 - m),
            out@.len() == i,
            forall|m: int| 0 <= m < i ==> out@[m] == spec_uuid_bytes(id)[m],
        decreases 36 - i,
    {
        if i == 8 || i == 13 || i == 18 || i == 23 {
            out.push(DASH);
        } else {
            let di: usize = if i < 8 {
                i
            } else if i < 13 {
                i - 1
            } else if i < 18 {
                i - 2
            } else if i < 23 {
                i - 3
            } else {
                i - 4
            };
            out.push(nibs[31 - di]);
            assert(out@[i as int] == spec_uuid_nib(id, uuid_digit_index(i as int)));
        }
        i += 1;
    }
    assert(out@ =~= spec_uuid_bytes(id));
    out
}

/// The value of a run of hex digits, most significant first; digits
/// that are not hex count zero.
pub open spec fn spec_hex_fold(s: Seq<u8>) -> nat
    decreases s.len(),
{
    if s.len() == 0 {
        0
    } else {
        spec_hex_fold(s.drop_last()) * 16 + (match hex_val(s.last()) {
            Some(v) => v as nat,
            None => 0,
        })
    }
}

proof fn lemma_hex_fold_bound(s: Seq<u8>)
    ensures
        spec_hex_fold(s) < pow16(s.len()),
    decreases s.len(),
{
    if s.len() > 0 {
        lemma_hex_fold_bound(s.drop_last());
    }
}

pub open spec fn all_hex(s: Seq<u8>) -> bool {
    forall|k: int| 0 <= k < s.len() ==> hex_val(#[trigger] s[k]) is Some
}

/// The digit positions of a hyphenated identifier, dashes removed.
pub open spec fn spec_uuid_digits(s: Seq<u8>) -> Seq<u8> {
    s.subrange(0, 8) + s.subrange(9, 13) + s.subrange(14, 18) + s.subrange(19, 23) + s.subrange(
        24,
        36,
    )
}

/// Reads an identifier in hyphenated or plain 32-digit form, either
/// case.
pub open spec fn spec_parse_uuid(s: Seq<u8>) -> Option<u128> {
    if s.len() == 36 && s[8] == DASH && s[13] == DASH && s[18] == DASH && s[23] == DASH
        && all_hex(spec_uuid_digits(s)) {
        Some(spec_hex_fold(spec_uuid_digits(s)) as u128)
    } else if s.len() == 32 && all_hex(s) {
        Some(spec_hex_fold(s) as u128)
    } else {
        None
    }
}

/// Folds 32 hex digits into their value.
fn fold_digits(digits: &Vec<u8>) -> (r: u128)
    requires
        digits@.len() == 32,
        all_hex(digits@),
    ensures
        r == spec_hex_fold(digits@),
{
    proof {
        lemma_pow16_32();
    }
    let mut acc: u128 = 0;
    let mut k: usize = 0;
    while k < 32
        invariant
            k <= 32,
            digits@.len() == 32,
            all_hex(digits@),
            acc as nat == spec_hex_fold(digits@.subrange(0, k as int)),
            (acc as nat) < pow16(k as nat),
            pow16(32) == 0x100000000000000000000000000000000,
        decreases 32 - k,
    {
        let b = digits[k];
        proof {
            assert(hex_val(digits@[k as int]) is Some);
        }
        let v: u8 = if 0x30 <= b && b <= 0x39 {
            b - 0x30
        } else if 0x61 <= b && b <= 0x66 {
            b - 0x57
        } else {
            assert(0x41 <= b <= 0x46);
            b - 0x37
        };
        proof {
            assert(hex_val(b) == Some(v));
            lemma_pow16_mono((k + 1) as nat, 32);
            assert(pow16((k + 1) as nat) == 16 * pow16(k as nat));
            assert((acc as nat) * 16 + (v as nat) < pow16((k + 1) as nat));
        }
        acc = acc * 16 + (v as u128);
        proof {
            let pre = digits@.subrange(0, k as int);
            let post = digits@.subrange(0, k + 1 as int);
            assert(post.drop_last() =~= pre);
            assert(post.last() == b);
        }
        k += 1;
    }
    assert(digits@.subrange(0, 32) =~= digits@);
    acc
}

/// Reads an identifier from text.
pub fn parse_uuid(s: &[u8]) -> (r: Option<u128>)
    ensures
        r == spec_parse_uuid(s@),
{
    let n: usize = s.len();
    if n == 36 {
        if !(s[8] == DASH && s[13] == DASH && s[18] == DASH && s[23] == DASH) {
            return None;
        }
        let mut digits: Vec<u8> = Vec::new();
        let mut i: usize = 0;
        while i < 36
            invariant
                i <= 36,
                n == 36,
                s@.len() == 36,
                i <= 8 ==> digits@.len() == i,
                8 < i <= 13 ==> digits@.len() == i - 1,
                13 < i <= 18 ==> digits@.len() == i - 2,
                18 < i <= 23 ==> digits@.len() == i - 3,
                23 < i ==> digits@.len() == i - 4,
                forall|m: int| 0 <= m < digits@.len() ==> digits@[m] == spec_uuid_digits(s@)[m],
            decreases 36 - i,
        {
            if !(i == 8 || i == 13 || i == 18 || i == 23) {
                digits.push(s[i]);
                proof {
                    let m = digits@.len() - 1;
                    assert(spec_uuid_digits(s@)[m] == s@[i as int]);
                }
            }
            i += 1;
        }
        assert(digits@ =~= spec_uuid_digits(s@));
        let mut k: usize = 0;
        while k < 32
            invariant
                k <= 32,
                s@.len() == 36,
                s@[8] == DASH && s@[13] == DASH && s@[18] == DASH && s@[23] == DASH,
                digits@.len() == 32,
                digits@ == spec_uuid_digits(s@),
                forall|m: int| 0 <= m < k ==> hex_val(#[trigger] digits@[m]) is Some,
            decreases 32 - k,
        {
            let b = digits[k];
            let ok = (0x30 <= b && b <= 0x39) || (0x61 <= b && b <= 0x66) || (0x41 <= b && b
                <= 0x46);
            if !ok {
                assert(hex_val(digits@[k as int]) is None);
                assert(!all_hex(spec_uuid_digits(s@)));
                return None;
            }
            k += 1;
        }
        assert(all_hex(digits@));
        Some(fold_digits(&digits))
    } else if n == 32 {
        let mut digits: Vec<u8> = Vec::new();
        let mut k: usize = 0;
        while k < 32
            invariant
                k <= 32,
                n == 32,
                s@.len() == 32,
                digits@.len() == k,
                forall|m: int| 0 <= m < k ==> digits@[m] == s@[m],
                forall|m: int| 0 <= m < k ==> hex_val(#[trigger] s@[m]) is Some,
            decreases 32 - k,
        {
            let b = s[k];
            let ok = (0x30 <= b && b <= 0x39) || (0x61 <= b && b <= 0x66) || (0x41 <= b && b
                <= 0x46);
            if !ok {
                assert(hex_val(s@[k as int]) is None);
                return None;
            }
            digits.push(b);
            k += 1;
        }
        assert(digits@ =~= s@);
        assert(all_hex(s@));
        Some(fold_digits(&digits))
    } else {
        None
    }
}

/// Relies on `uuid::Uuid::new_v4` and `Uuid::as_u128`: a freshly
/// drawn random identifier, returned as its 128-bit value.  Nothing
/// is promised of the value.
#[verifier::external_body]
pub fn fresh_uuid() -> u128 {
    uuid::Uuid::new_v4().as_u128()
}

} // verus!
