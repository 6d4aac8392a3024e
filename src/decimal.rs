//! Unsigned decimal numbers as carried in telemetry text fields.

use vstd::prelude::*;
use vstd::std_specs::iter::IteratorSpec;

verus! {

/// The value of a string of decimal digits, most significant first.
pub open spec fn digits_value(s: Seq<char>) -> nat
    decreases s.len(),
{
    if s.len() == 0 {
        0
    } else {
        digits_value(s.drop_last()) * 10 + (s.last() as nat - '0' as nat) as nat
    }
}

pub open spec fn is_digit(c: char) -> bool {
    '0' <= c && c <= '9'
}

pub open spec fn all_digits(s: Seq<char>) -> bool {
    forall|i: int| 0 <= i < s.len() ==> is_digit(#[trigger] s[i])
}

/// The digits after an optional leading `+`.
pub open spec fn unsigned_digits(s: Seq<char>) -> Seq<char> {
    if s.len() > 0 && s[0] == '+' {
        s.drop_first()
    } else {
        s
    }
}

/// What a text reads as an unsigned 64-bit number: an optional `+`, then at
/// least one digit and nothing else, with a value that fits.
pub open spec fn decimal_u64(s: Seq<char>) -> Option<u64> {
    let d = unsigned_digits(s);
    if d.len() > 0 && all_digits(d) && digits_value(d) <= u64::MAX {
        Some(digits_value(d) as u64)
    } else {
        None
    }
}

proof fn lemma_digits_value_grows(s: Seq<char>, i: int)
    requires
        0 <= i <= s.len(),
        all_digits(s),
    ensures
        digits_value(s.take(i)) <= digits_value(s),
    decreases s.len() - i,
{
    if i < s.len() {
        lemma_digits_value_grows(s, i + 1);
        assert(s.take(i + 1).drop_last() =~= s.take(i));
    } else {
        assert(s.take(i) =~= s);
    }
}

/// Reads an unsigned decimal number, as `u64`'s `FromStr` does.
pub fn parse_u64(s: &str) -> (r: Option<u64>)
    ensures
        r == decimal_u64(s@),
{
    broadcast use vstd::string::axiom_spec_iter, vstd::string::next_postcondition;

    let ghost text = s@;
    let ghost d = unsigned_digits(text);
    let mut chars = s.chars();
    let mut first = true;
    let mut any_digit = false;
    let ghost mut seen: int = 0;
    let mut acc: u64 = 0;
    let ghost mut skipped: int = 0;
    assert(chars.remaining() == text);
    loop
        invariant
            text == s@,
            d == unsigned_digits(text),
            chars.obeys_prophetic_iter_laws(),
            0 <= skipped <= 1,
            first ==> skipped == 0 && seen == 0 && chars.remaining() == text,
            !first ==> skipped == (if text.len() > 0 && text[0] == '+' { 1int } else { 0int }),
            !first ==> d == text.skip(skipped),
            !first ==> chars.remaining() == d.skip(seen),
            !first ==> d.skip(seen) == text.skip(skipped + seen),
            0 <= seen <= d.len(),
            any_digit <==> seen > 0,
            all_digits(d.take(seen)),
            acc as nat == digits_value(d.take(seen)),
        ensures
            first ==> text.len() == 0,
            !first ==> d.take(seen) =~= d,
        decreases text.len() - skipped - seen + (if first { 1int } else { 0int }),
    {
        let c = chars.next();
        match c {
            None => {
                proof {
                    if !first {
                        assert(d.skip(seen).len() == 0);
                        assert(d.take(seen) =~= d);
                    } else {
                        assert(text.len() == 0);
                    }
                }
                break;
            },
            Some(ch) => {
                proof {
                    if first {
                        assert(text.len() > 0 && ch == text[0]);
                    }
                }
                if first && ch == '+' {
                    first = false;
                    proof {
                        skipped = 1;
                        assert(d =~= text.skip(1));
                    }
                    continue;
                }
                if first {
                    proof {
                        assert(d =~= text.skip(0));
                    }
                }
                first = false;
                if !('0' <= ch && ch <= '9') {
                    proof {
                        assert(d[seen] == ch);
                    }
                    return None;
                }
                let digit = (ch as u32 - '0' as u32) as u64;
                proof {
                    assert(d[seen] == ch);
                    assert(d.take(seen + 1).drop_last() =~= d.take(seen));
                    assert(all_digits(d.take(seen + 1)));
                }
                if acc > 1844674407370955161 || (acc == 1844674407370955161 && digit > 5) {
                    proof {
                        let v = digits_value(d.take(seen + 1));
                        assert(v == acc as nat * 10 + digit as nat);
                        assert(acc as nat * 10 + digit as nat > u64::MAX) by (nonlinear_arith)
                            requires
                                acc > 1844674407370955161 || (acc == 1844674407370955161 && digit > 5),
                        ;
                        if all_digits(d) {
                            lemma_digits_value_grows(d, seen + 1);
                        }
                    }
                    return None;
                }
                acc = acc * 10 + digit;
                any_digit = true;
                proof {
                    seen = seen + 1;
                }
                proof {
                    assert(chars.remaining() == d.skip(seen));
                }
            },
        }
    }
    if first || !any_digit {
        None
    } else {
        Some(acc)
    }
}

} // verus!
