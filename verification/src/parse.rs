use vstd::prelude::*;
use vstd::string::*;

verus! {

/// The value of a hexadecimal digit (`0-9`, `a-f`, `A-F`).
pub open spec fn hex_digit_value(c: char) -> Option<nat> {
    if '0' <= c && c <= '9' {
        Some((c as nat - '0' as nat) as nat)
    } else if 'a' <= c && c <= 'f' {
        Some((c as nat - 'a' as nat + 10) as nat)
    } else if 'A' <= c && c <= 'F' {
        Some((c as nat - 'A' as nat + 10) as nat)
    } else {
        None
    }
}

/// The value of a decimal digit.
pub open spec fn decimal_digit_value(c: char) -> Option<nat> {
    if '0' <= c && c <= '9' {
        Some((c as nat - '0' as nat) as nat)
    } else {
        None
    }
}

/// Every character of `s` is a digit in base `radix` (16 or 10).
pub open spec fn all_digits(s: Seq<char>, radix: nat) -> bool {
    forall|i: int| 0 <= i < s.len() ==> (#[trigger] digit_value(s[i], radix)) is Some
}

pub open spec fn digit_value(c: char, radix: nat) -> Option<nat> {
    if radix == 16 {
        hex_digit_value(c)
    } else {
        decimal_digit_value(c)
    }
}

/// The number that the digits `s` stand for in base `radix`.
pub open spec fn digits_value(s: Seq<char>, radix: nat) -> nat
    decreases s.len(),
{
    if s.len() == 0 {
        0
    } else {
        digits_value(s.drop_last(), radix) * radix + digit_value(s.last(), radix)->0
    }
}

/// What `from_str_radix` reads from `s` in base `radix` for an unsigned type: an optional
/// `+`, then one or more digits; `None` if that is not the form of `s`. (Whether the value
/// fits is up to the caller.)
pub open spec fn unsigned_text_value(s: Seq<char>, radix: nat) -> Option<nat> {
    let digits = if s.len() > 0 && s[0] == '+' {
        s.drop_first()
    } else {
        s
    };
    if digits.len() > 0 && all_digits(digits, radix) {
        Some(digits_value(digits, radix))
    } else {
        None
    }
}

pub open spec fn pow_nat(base: nat, e: nat) -> nat
    decreases e,
{
    if e == 0 {
        1
    } else {
        base * pow_nat(base, (e - 1) as nat)
    }
}

proof fn lemma_digits_value_bound(s: Seq<char>, radix: nat)
    requires
        radix == 16 || radix == 10,
        all_digits(s, radix),
    ensures
        digits_value(s, radix) < pow_nat(radix, s.len()),
    decreases s.len(),
{
    if s.len() > 0 {
        let d = s.drop_last();
        assert(all_digits(d, radix)) by {
            assert forall|i: int| 0 <= i < d.len() implies (#[trigger] digit_value(d[i], radix)) is Some by {
                assert(d[i] == s[i]);
            }
        }
        lemma_digits_value_bound(d, radix);
        assert(digit_value(s[s.len() - 1], radix) is Some);
        let v = digits_value(d, radix);
        let x = digit_value(s.last(), radix)->0;
        assert(x < radix);
        let p = pow_nat(radix, d.len());
        assert(v * radix + x < p * radix) by (nonlinear_arith)
            requires
                v < p,
                x < radix,
                radix > 0,
        ;
        assert(pow_nat(radix, s.len()) == radix * p);
    }
}

fn digit_of(c: char, radix: u32) -> (res: Option<u32>)
    requires
        radix == 16 || radix == 10,
    ensures
        match digit_value(c, radix as nat) {
            Some(v) => res == Some(v as u32),
            None => res is None,
        },
{
    if '0' <= c && c <= '9' {
        Some((c as u32) - ('0' as u32))
    } else if radix == 16 && 'a' <= c && c <= 'f' {
        Some((c as u32) - ('a' as u32) + 10)
    } else if radix == 16 && 'A' <= c && c <= 'F' {
        Some((c as u32) - ('A' as u32) + 10)
    } else {
        None
    }
}

/// Reads `s` as a `u128` in base 16 (`u128::from_str_radix(s, 16)`), for `s` of at most 32
/// characters (so that the value always fits).
pub fn parse_hex_u128(s: &str) -> (res: Option<u128>)
    requires
        s@.len() <= 32,
    ensures
        match unsigned_text_value(s@, 16) {
            Some(v) => res == Some(v as u128),
            None => res is None,
        },
{
    let n = s.unicode_len();
    let mut start: usize = 0;
    if n > 0 && s.get_char(0) == '+' {
        start = 1;
    }
    let ghost digits = s@.subrange(start as int, n as int);
    proof {
        if start == 1 {
            assert(digits =~= s@.drop_first());
        } else {
            assert(digits =~= s@);
        }
    }
    if start >= n {
        return None;
    }
    let mut value: u128 = 0;
    let mut i: usize = start;
    while i < n
        invariant
            n == s@.len(),
            n <= 32,
            start <= i <= n,
            digits == s@.subrange(start as int, n as int),
            digits == (if n > 0 && s@[0] == '+' {
                s@.drop_first()
            } else {
                s@
            }),
            all_digits(s@.subrange(start as int, i as int), 16),
            value == digits_value(s@.subrange(start as int, i as int), 16),
        decreases n - i,
    {
        let c = s.get_char(i);
        let d = digit_of(c, 16);
        let ghost prefix = s@.subrange(start as int, i as int);
        let ghost next = s@.subrange(start as int, i + 1);
        proof {
            assert(next.drop_last() =~= prefix);
            assert(next.last() == c);
        }
        match d {
            None => {
                proof {
                    assert(digits[i - start] == c);
                    assert(digit_value(digits[i - start], 16) is None);
                    assert(!all_digits(digits, 16));
                }
                return None;
            },
            Some(dv) => {
                proof {
                    assert(all_digits(next, 16)) by {
                        assert forall|j: int| 0 <= j < next.len() implies (#[trigger] digit_value(next[j], 16)) is Some by {
                            if j < prefix.len() {
                                assert(next[j] == prefix[j]);
                            }
                        }
                    }
                    lemma_digits_value_bound(next, 16);
                    lemma_pow16_bound(next.len());
                }
                value = value * 16 + dv as u128;
            },
        }
        i = i + 1;
    }
    Some(value)
}

proof fn lemma_pow16_bound(e: nat)
    requires
        e <= 32,
    ensures
        pow_nat(16, e) <= 0x1_0000_0000_0000_0000_0000_0000_0000_0000,
    decreases e,
{
    if e > 0 {
        lemma_pow16_bound((e - 1) as nat);
        lemma_pow_monotone(16, (e - 1) as nat, 31);
        assert(pow_nat(16, 31) == 0x1000_0000_0000_0000_0000_0000_0000_0000) by {
            reveal_with_fuel(pow_nat, 32);
        }
    }
}

proof fn lemma_pow_monotone(base: nat, a: nat, b: nat)
    requires
        base >= 1,
        a <= b,
    ensures
        pow_nat(base, a) <= pow_nat(base, b),
    decreases b,
{
    if a < b {
        lemma_pow_monotone(base, a, (b - 1) as nat);
        let p = pow_nat(base, (b - 1) as nat);
        assert(p <= base * p) by (nonlinear_arith)
            requires
                base >= 1,
        ;
    }
}

/// Reads `s` as a decimal `u32` (`str::parse::<u32>`): an optional `+` and one or more
/// digits whose value fits in a `u32`.
pub fn parse_u32(s: &str) -> (res: Option<u32>)
    ensures
        match unsigned_text_value(s@, 10) {
            Some(v) => if v <= u32::MAX {
                res == Some(v as u32)
            } else {
                res is None
            },
            None => res is None,
        },
{
    let n = s.unicode_len();
    let mut start: usize = 0;
    if n > 0 && s.get_char(0) == '+' {
        start = 1;
    }
    let ghost digits = s@.subrange(start as int, n as int);
    proof {
        if start == 1 {
            assert(digits =~= s@.drop_first());
        } else {
            assert(digits =~= s@);
        }
    }
    if start >= n {
        return None;
    }
    let mut value: u64 = 0;
    let mut overflowed = false;
    let mut i: usize = start;
    while i < n
        invariant
            n == s@.len(),
            start <= i <= n,
            digits == s@.subrange(start as int, n as int),
            digits == (if n > 0 && s@[0] == '+' {
                s@.drop_first()
            } else {
                s@
            }),
            all_digits(s@.subrange(start as int, i as int), 10),
            !overflowed ==> value == digits_value(s@.subrange(start as int, i as int), 10),
            !overflowed ==> value <= u32::MAX,
            overflowed ==> digits_value(s@.subrange(start as int, i as int), 10) > u32::MAX,
        decreases n - i,
    {
        let c = s.get_char(i);
        let d = digit_of(c, 10);
        let ghost prefix = s@.subrange(start as int, i as int);
        let ghost next = s@.subrange(start as int, i + 1);
        proof {
            assert(next.drop_last() =~= prefix);
            assert(next.last() == c);
        }
        match d {
            None => {
                proof {
                    assert(digits[i - start] == c);
                    assert(digit_value(digits[i - start], 10) is None);
                    assert(!all_digits(digits, 10));
                }
                return None;
            },
            Some(dv) => {
                proof {
                    assert(all_digits(next, 10)) by {
                        assert forall|j: int| 0 <= j < next.len() implies (#[trigger] digit_value(next[j], 10)) is Some by {
                            if j < prefix.len() {
                                assert(next[j] == prefix[j]);
                            }
                        }
                    }
                }
                if !overflowed {
                    let v = value * 10 + dv as u64;
                    if v > 0xffff_ffff {
                        overflowed = true;
                    } else {
                        value = v;
                    }
                } else {
                    proof {
                        let pv = digits_value(prefix, 10);
                        assert(digits_value(next, 10) == pv * 10 + dv);
                        assert(pv * 10 + dv >= pv) by (nonlinear_arith)
                            requires
                                pv >= 0,
                                dv >= 0,
                        ;
                    }
                }
            },
        }
        i = i + 1;
    }
    proof {
        assert(s@.subrange(start as int, n as int) == digits);
    }
    if overflowed {
        None
    } else {
        Some(value as u32)
    }
}

} // verus!
