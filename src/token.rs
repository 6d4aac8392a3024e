//! Client tokens: ULIDs, held as their 128-bit value.

use std::str::FromStr;
use vstd::prelude::*;

verus! {

/// The value of a Crockford base32 digit: a decimal digit, or a letter of
/// either case other than `U`, where `I` and `L` read as 1 and `O` as 0.
pub open spec fn crockford_digit(c: char) -> Option<nat> {
    let x = if 97 <= c as int <= 122 { c as int - 32 } else { c as int };
    if 48 <= x <= 57 {
        Some((x - 48) as nat)
    } else if 65 <= x <= 72 {
        Some((x - 55) as nat)
    } else if x == 73 || x == 76 {
        Some(1)
    } else if 74 <= x <= 75 {
        Some((x - 56) as nat)
    } else if 77 <= x <= 78 {
        Some((x - 57) as nat)
    } else if x == 79 {
        Some(0)
    } else if 80 <= x <= 84 {
        Some((x - 58) as nat)
    } else if 86 <= x <= 90 {
        Some((x - 59) as nat)
    } else {
        None
    }
}

/// The base-32 value of a string of Crockford digits, most significant first.
pub open spec fn crockford_value(s: Seq<char>) -> nat
    decreases s.len(),
{
    if s.len() == 0 {
        0
    } else {
        crockford_value(s.drop_last()) * 32 + crockford_digit(s.last())->0
    }
}

/// The ULID a text spells: exactly 26 Crockford digits, the first at most 7
/// so that the value fits in 128 bits.
pub open spec fn ulid_value(s: Seq<char>) -> Option<u128> {
    if s.len() == 26 && (forall|i: int| 0 <= i < s.len() ==> (#[trigger] crockford_digit(s[i])) is Some)
        && crockford_digit(s[0])->0 <= 7 {
        Some(crockford_value(s) as u128)
    } else {
        None
    }
}

/// Relies on `rusty_ulid::Ulid::from_str` and `u128::from(Ulid)`: the value
/// of the 26-character Crockford base32 text of a ULID (`crockford::
/// parse_crockford_u64_tuple` with its digit table); other text is refused.
#[verifier::external_body]
pub(crate) fn parse_token(s: &str) -> (r: Option<u128>)
    ensures
        r == ulid_value(s@),
{
    match rusty_ulid::Ulid::from_str(s) {
        Ok(u) => Some(u128::from(u)),
        Err(_) => None,
    }
}

/// Relies on `rusty_ulid::Ulid::generate`: a new ULID from the clock and a
/// random source. Nothing is promised of its value.
#[verifier::external_body]
pub(crate) fn fresh_token() -> (r: u128) {
    u128::from(rusty_ulid::Ulid::generate())
}

} // verus!
