//! Reading a generator seed that a user typed: hexadecimal, with or without a
//! `0x` prefix, or decimal.
use std::num::ParseIntError;
use vstd::prelude::*;

verus! {

#[verifier::external_type_specification]
#[verifier::external_body]
pub struct ExParseIntError(std::num::ParseIntError);

/// The value of a digit character: `0`-`9`, then `a`-`z` or `A`-`Z` for 10 to
/// 35; 36 for a character that is no digit.
pub open spec fn digit_value(c: char) -> int {
    if '0' <= c <= '9' {
        c as int - '0' as int
    } else if 'a' <= c <= 'z' {
        c as int - 'a' as int + 10
    } else if 'A' <= c <= 'Z' {
        c as int - 'A' as int + 10
    } else {
        36
    }
}

/// The number that the digits `s` write in base `radix`.
pub open spec fn digits_value(s: Seq<char>, radix: int) -> int
    decreases s.len(),
{
    if s.len() == 0 {
        0
    } else {
        digits_value(s.drop_last(), radix) * radix + digit_value(s.last())
    }
}

/// The `u64` that `s` writes in base `radix`, as `u64::from_str_radix` reads
/// it: an optional `+`, then at least one digit below `radix` and nothing
/// else, with a value that fits in a `u64`. `None` for anything else.
pub open spec fn parsed_u64(s: Seq<char>, radix: int) -> Option<u64> {
    let digits = sign_stripped(s);
    if digits.len() > 0 && all_digits_below(digits, radix) && digits_value(digits, radix) <= u64::MAX {
        Some(digits_value(digits, radix) as u64)
    } else {
        None
    }
}

/// `s` without the `+` that it may start with.
pub open spec fn sign_stripped(s: Seq<char>) -> Seq<char> {
    if s.len() > 0 && s[0] == '+' {
        s.drop_first()
    } else {
        s
    }
}

/// Whether every character of `digits` is a digit below `radix`.
pub open spec fn all_digits_below(digits: Seq<char>, radix: int) -> bool {
    forall|i: int| 0 <= i < digits.len() ==> #[trigger] digit_value(digits[i]) < radix
}

/// Whether `s` starts with `0x`.
pub open spec fn has_hex_prefix(s: Seq<char>) -> bool {
    s.len() >= 2 && s[0] == '0' && s[1] == 'x'
}

/// The seed that `s` writes: after a `0x` prefix, hexadecimal digits;
/// otherwise hexadecimal digits or, failing that, decimal digits.
pub open spec fn seed_value(s: Seq<char>) -> Option<u64> {
    if has_hex_prefix(s) {
        parsed_u64(s.skip(2), 16)
    } else if parsed_u64(s, 16) is Some {
        parsed_u64(s, 16)
    } else {
        parsed_u64(s, 10)
    }
}

/// Trusted: `str::strip_prefix` with the pattern `"0x"`. Its documentation
/// promises the rest of the string when the string starts with the prefix,
/// and `None` otherwise.
#[verifier::external_body]
fn strip_hex_prefix(s: &str) -> (rest: Option<&str>)
    ensures
        rest is Some <==> has_hex_prefix(s@),
        rest is Some ==> rest.unwrap()@ == s@.skip(2),
{
    s.strip_prefix("0x")
}

/// Trusted: `u64::from_str_radix`. Its documentation describes the accepted
/// strings (`parsed_u64`) and promises an error for every other string and
/// a panic for a radix outside `2 ..= 36`. Nothing is claimed of the error.
#[verifier::external_body]
fn u64_from_str_radix(s: &str, radix: u32) -> (parsed: Result<u64, ParseIntError>)
    requires
        2 <= radix <= 36,
    ensures
        parsed is Ok <==> parsed_u64(s@, radix as int) is Some,
        parsed is Ok ==> parsed_u64(s@, radix as int) == Some(parsed.unwrap()),
{
    u64::from_str_radix(s, radix)
}

/// Trusted: `str::parse::<u64>`, which `FromStr` documents as
/// `u64::from_str_radix(s, 10)`. Nothing is claimed of the error.
#[verifier::external_body]
fn u64_from_decimal(s: &str) -> (parsed: Result<u64, ParseIntError>)
    ensures
        parsed is Ok <==> parsed_u64(s@, 10) is Some,
        parsed is Ok ==> parsed_u64(s@, 10) == Some(parsed.unwrap()),
{
    s.parse::<u64>()
}

/// Reads a seed: hexadecimal after a `0x` prefix; otherwise hexadecimal, or
/// decimal when that fails. The error is that of the last reading tried.
pub fn parse_seed(s: &str) -> (seed: Result<u64, ParseIntError>)
    ensures
        seed is Ok <==> seed_value(s@) is Some,
        seed is Ok ==> seed_value(s@) == Some(seed.unwrap()),
{
    if let Some(hex) = strip_hex_prefix(s) {
        u64_from_str_radix(hex, 16)
    } else {
        match u64_from_str_radix(s, 16) {
            Ok(value) => Ok(value),
            Err(_) => u64_from_decimal(s),
        }
    }
}

/// The lower-case hexadecimal digit for `d`, for `d` in `0 .. 16`.
pub open spec fn hex_char(d: int) -> char {
    if d < 10 {
        (48 + d) as char
    } else {
        (87 + d) as char
    }
}

/// The last `w` hexadecimal digits of `v`, with leading zeros: what
/// `format!("{:0w$x}", v)` prints for a `v` of at most `w` digits.
pub open spec fn hex_fixed(v: nat, w: nat) -> Seq<char>
    decreases w,
{
    if w == 0 {
        Seq::empty()
    } else {
        hex_fixed(v / 16, (w - 1) as nat).push(hex_char((v % 16) as int))
    }
}

/// The hexadecimal digits of `v` without leading zeros (`0` for 0): what
/// `format!("{:x}", v)` prints.
pub open spec fn hex_string(v: nat) -> Seq<char>
    decreases v,
{
    if v < 16 {
        seq![hex_char(v as int)]
    } else {
        hex_string(v / 16).push(hex_char((v % 16) as int))
    }
}

/// 16 to the power `w`.
pub open spec fn pow16(w: nat) -> nat
    decreases w,
{
    if w == 0 {
        1
    } else {
        16 * pow16((w - 1) as nat)
    }
}

proof fn lemma_hex_char(d: int)
    requires
        0 <= d < 16,
    ensures
        digit_value(hex_char(d)) == d,
        hex_char(d) != '+',
        hex_char(d) != 'x',
{
}

proof fn lemma_hex_fixed(v: nat, w: nat)
    requires
        v < pow16(w),
    ensures
        hex_fixed(v, w).len() == w,
        all_digits_below(hex_fixed(v, w), 16),
        digits_value(hex_fixed(v, w), 16) == v,
    decreases w,
{
    if w > 0 {
        let p = pow16((w - 1) as nat);
        assert(v / 16 < p) by (nonlinear_arith)
            requires
                v < 16 * p,
        ;
        lemma_hex_fixed(v / 16, (w - 1) as nat);
        lemma_hex_char((v % 16) as int);
        let s = hex_fixed(v, w);
        assert(s.drop_last() =~= hex_fixed(v / 16, (w - 1) as nat));
        assert forall|i: int| 0 <= i < s.len() implies #[trigger] digit_value(s[i]) < 16 by {
            if i < s.len() - 1 {
                assert(s[i] == hex_fixed(v / 16, (w - 1) as nat)[i]);
            }
        }
        assert((v / 16) * 16 + v % 16 == v) by (nonlinear_arith);
    }
}

proof fn lemma_hex_string(v: nat)
    ensures
        hex_string(v).len() > 0,
        all_digits_below(hex_string(v), 16),
        digits_value(hex_string(v), 16) == v,
        forall|i: int| 0 <= i < hex_string(v).len() ==> #[trigger] hex_string(v)[i] != 'x'
            && hex_string(v)[i] != '+',
    decreases v,
{
    let s = hex_string(v);
    if v < 16 {
        lemma_hex_char(v as int);
        assert(s.drop_last() =~= Seq::<char>::empty());
        assert(digits_value(s.drop_last(), 16) == 0);
        assert(digits_value(s, 16) == digits_value(s.drop_last(), 16) * 16 + digit_value(s.last()));
    } else {
        lemma_hex_string(v / 16);
        lemma_hex_char((v % 16) as int);
        assert(s.drop_last() =~= hex_string(v / 16));
        assert forall|i: int| 0 <= i < s.len() implies #[trigger] digit_value(s[i]) < 16 && s[i]
            != 'x' && s[i] != '+' by {
            if i < s.len() - 1 {
                assert(s[i] == hex_string(v / 16)[i]);
            }
        }
        assert((v / 16) * 16 + v % 16 == v) by (nonlinear_arith);
    }
}

/// A seed printed in hexadecimal reads back as the same seed: with a `0x`
/// prefix and sixteen digits (`format!("0x{:016x}", v)`), and as bare digits
/// (`format!("{:x}", v)`).
pub proof fn law_printed_seeds_read_back(v: u64)
    ensures
        seed_value(seq!['0', 'x'] + hex_fixed(v as nat, 16)) == Some(v),
        seed_value(hex_string(v as nat)) == Some(v),
{
    reveal_with_fuel(pow16, 17);
    assert(pow16(16) == 0x1_0000_0000_0000_0000);
    lemma_hex_fixed(v as nat, 16);
    let digits = hex_fixed(v as nat, 16);
    let s = seq!['0', 'x'] + digits;
    assert(has_hex_prefix(s));
    assert(s.skip(2) =~= digits);
    lemma_hex_char((v % 16) as int);
    assert(digits[0] != '+') by {
        assert(digit_value(digits[0]) < 16);
    }
    assert(sign_stripped(digits) == digits);
    let t = hex_string(v as nat);
    lemma_hex_string(v as nat);
    assert(t[0] != '+');
    assert(sign_stripped(t) == t);
    if t.len() >= 2 {
        assert(t[1] != 'x');
    }
    assert(!has_hex_prefix(t));
}

} // verus!
