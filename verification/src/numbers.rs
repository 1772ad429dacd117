//! Parsing of integers from text, as `str::parse` and `from_str_radix` do
//! it: an optional sign, then one or more digits, and a value that fits.

use vstd::prelude::*;
use crate::text::chars_of;

verus! {

/// The value of `c` as a digit in `radix` (2 to 36), letters in either case.
pub open spec fn digit_value(c: char, radix: nat) -> Option<nat> {
    let v: nat = if '0' <= c && c <= '9' {
        (c as nat - '0' as nat) as nat
    } else if 'a' <= c && c <= 'z' {
        (c as nat - 'a' as nat + 10) as nat
    } else if 'A' <= c && c <= 'Z' {
        (c as nat - 'A' as nat + 10) as nat
    } else {
        36
    };
    if v < radix {
        Some(v)
    } else {
        None
    }
}

/// Every character of `s` is a digit in `radix`.
pub open spec fn all_digits(s: Seq<char>, radix: nat) -> bool {
    forall|i: int| 0 <= i < s.len() ==> (#[trigger] digit_value(s[i], radix)) is Some
}

/// The value of a string of digits in `radix`, most significant first.
pub open spec fn digits_value(s: Seq<char>, radix: nat) -> nat
    decreases s.len(),
{
    if s.len() == 0 {
        0
    } else {
        let d = match digit_value(s.last(), radix) {
            Some(v) => v,
            None => 0,
        };
        radix * digits_value(s.drop_last(), radix) + d
    }
}

/// The digits after an optional leading `+`.
pub open spec fn unsigned_body(s: Seq<char>) -> Seq<char> {
    if s.len() > 0 && s[0] == '+' {
        s.drop_first()
    } else {
        s
    }
}

/// An unsigned integer in `radix` that is at most `max`: an optional `+`,
/// then one or more digits.
pub open spec fn parse_unsigned(s: Seq<char>, radix: nat, max: nat) -> Option<nat> {
    let d = unsigned_body(s);
    if d.len() > 0 && all_digits(d, radix) && digits_value(d, radix) <= max {
        Some(digits_value(d, radix))
    } else {
        None
    }
}

/// A signed decimal integer within `min..=max`: an optional `+` or `-`,
/// then one or more digits.
pub open spec fn parse_signed(s: Seq<char>, min: int, max: int) -> Option<int> {
    if s.len() > 0 && s[0] == '-' {
        let d = s.drop_first();
        if d.len() > 0 && all_digits(d, 10) && min <= -(digits_value(d, 10) as int) {
            Some(-(digits_value(d, 10) as int))
        } else {
            None
        }
    } else {
        let d = unsigned_body(s);
        if d.len() > 0 && all_digits(d, 10) && digits_value(d, 10) <= max {
            Some(digits_value(d, 10) as int)
        } else {
            None
        }
    }
}

fn digit_of(c: char, radix: u32) -> (res: Option<u32>)
    requires
        2 <= radix <= 36,
    ensures
        match digit_value(c, radix as nat) {
            Some(v) => res == Some(v as u32),
            None => res is None,
        },
{
    let v: u32 = if '0' <= c && c <= '9' {
        (c as u32) - ('0' as u32)
    } else if 'a' <= c && c <= 'z' {
        (c as u32) - ('a' as u32) + 10
    } else if 'A' <= c && c <= 'Z' {
        (c as u32) - ('A' as u32) + 10
    } else {
        36
    };
    if v < radix {
        Some(v)
    } else {
        None
    }
}

proof fn lemma_digits_value_push(s: Seq<char>, c: char, radix: nat)
    ensures
        digits_value(s.push(c), radix) == radix * digits_value(s, radix) + match digit_value(
            c,
            radix,
        ) {
            Some(v) => v,
            None => 0,
        },
{
    assert(s.push(c).drop_last() =~= s);
}

/// The value of the digits `s[start..]` in `radix`, capped at `cap`; `None`
/// if one of them is not a digit.
fn capped_digits(s: &Vec<char>, start: usize, radix: u32, cap: u128) -> (res: Option<u128>)
    requires
        2 <= radix <= 36,
        start <= s@.len(),
        cap <= 0x1_0000_0000_0000_0000u128,
    ensures
        match res {
            Some(v) => all_digits(s@.subrange(start as int, s@.len() as int), radix as nat) && v as nat
                == if digits_value(s@.subrange(start as int, s@.len() as int), radix as nat)
                <= cap {
                digits_value(s@.subrange(start as int, s@.len() as int), radix as nat)
            } else {
                cap as nat
            },
            None => !all_digits(s@.subrange(start as int, s@.len() as int), radix as nat),
        },
{
    let mut acc: u128 = 0;
    let mut i: usize = start;
    while i < s.len()
        invariant
            2 <= radix <= 36,
            cap <= 0x1_0000_0000_0000_0000u128,
            acc <= cap,
            start <= i <= s@.len(),
                all_digits(s@.subrange(start as int, i as int), radix as nat),
            acc as nat == if digits_value(s@.subrange(start as int, i as int), radix as nat) <= cap {
                digits_value(s@.subrange(start as int, i as int), radix as nat)
            } else {
                cap as nat
            },
        decreases s.len() - i,
    {
        let ghost prev = s@.subrange(start as int, i as int);
        let ghost next = s@.subrange(start as int, i + 1);
        assert(next =~= prev.push(s@[i as int]));
        match digit_of(s[i], radix) {
            None => {
                proof {
                    let whole = s@.subrange(start as int, s@.len() as int);
                    assert(whole[i - start] == s@[i as int]);
                }
                return None;
            },
            Some(d) => {
                proof {
                    lemma_digits_value_push(prev, s@[i as int], radix as nat);
                    let pv = digits_value(prev, radix as nat);
                    let nv = digits_value(next, radix as nat);
                    assert(nv == radix * pv + d);
                    if pv > cap {
                        assert(radix * pv >= pv) by (nonlinear_arith)
                            requires
                                radix >= 2,
                        ;
                    }
                    assert forall|j: int| 0 <= j < next.len() implies (#[trigger] digit_value(
                        next[j],
                        radix as nat,
                    )) is Some by {
                        if j < prev.len() {
                            assert(next[j] == prev[j]);
                        }
                    }
                }
                let r128 = radix as u128;
                let a128 = acc;
                assert(r128 * a128 <= 36 * 0x1_0000_0000_0000_0000u128) by (nonlinear_arith)
                    requires
                        r128 <= 36,
                        a128 <= 0x1_0000_0000_0000_0000u128,
                ;
                let wide: u128 = r128 * a128 + (d as u128);
                proof {
                    let pv = digits_value(prev, radix as nat);
                    if pv <= cap {
                        assert(acc as nat == pv);
                    } else {
                        assert(acc as nat == cap);
                        assert(radix * pv + d >= radix * cap + d) by (nonlinear_arith)
                            requires
                                pv > cap,
                                radix >= 2,
                        ;
                        assert(radix * cap + d >= cap) by (nonlinear_arith)
                            requires
                                radix >= 2,
                        ;
                    }
                }
                acc = if wide > cap {
                    cap
                } else {
                    wide
                };
            },
        }
        i = i + 1;
    }
    Some(acc)
}

/// Parses an unsigned integer in `radix` that is at most `max`
/// (`from_str_radix` and `parse` for the unsigned types).
pub fn parse_unsigned_in(s: &str, radix: u32, max: u64) -> (res: Option<u64>)
    requires
        2 <= radix <= 36,
    ensures
        match parse_unsigned(s@, radix as nat, max as nat) {
            Some(v) => res == Some(v as u64),
            None => res is None,
        },
{
    let chars = chars_of(s);
    parse_unsigned_chars(&chars, radix, max)
}

/// `parse_unsigned_in` on a character vector.
pub fn parse_unsigned_chars(chars: &Vec<char>, radix: u32, max: u64) -> (res: Option<u64>)
    requires
        2 <= radix <= 36,
    ensures
        match parse_unsigned(chars@, radix as nat, max as nat) {
            Some(v) => res == Some(v as u64),
            None => res is None,
        },
{
    let start: usize = if chars.len() > 0 && chars[0] == '+' {
        1
    } else {
        0
    };
    proof {
        if start == 1 {
            assert(chars@.subrange(1, chars@.len() as int) =~= unsigned_body(chars@));
        } else {
            assert(chars@.subrange(0, chars@.len() as int) =~= unsigned_body(chars@));
        }
    }
    if start >= chars.len() {
        return None;
    }
    let cap: u128 = max as u128 + 1;
    match capped_digits(chars, start, radix, cap) {
        Some(v) => {
            if v <= max as u128 {
                Some(v as u64)
            } else {
                None
            }
        },
        None => None,
    }
}

/// Parses a signed decimal `i64` (`str::parse::<i64>`).
pub fn parse_i64(s: &str) -> (res: Option<i64>)
    ensures
        match parse_signed(s@, i64::MIN as int, i64::MAX as int) {
            Some(v) => res == Some(v as i64),
            None => res is None,
        },
{
    let chars = chars_of(s);
    let negative = chars.len() > 0 && chars[0] == '-';
    let start: usize = if chars.len() > 0 && (chars[0] == '-' || chars[0] == '+') {
        1
    } else {
        0
    };
    proof {
        if start == 1 {
            assert(chars@.subrange(1, chars@.len() as int) =~= s@.drop_first());
            if !negative {
                assert(s@.drop_first() =~= unsigned_body(s@));
            }
        } else {
            assert(chars@.subrange(0, chars@.len() as int) =~= unsigned_body(s@));
        }
    }
    if start >= chars.len() {
        return None;
    }
    let cap: u128 = 9223372036854775809;
    match capped_digits(&chars, start, 10, cap) {
        Some(v) => {
            if negative {
                if v <= 9223372036854775808 {
                    if v == 9223372036854775808 {
                        Some(i64::MIN)
                    } else {
                        Some(-(v as i64))
                    }
                } else {
                    None
                }
            } else {
                if v <= 9223372036854775807 {
                    Some(v as i64)
                } else {
                    None
                }
            }
        },
        None => None,
    }
}

} // verus!
