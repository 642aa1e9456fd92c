//! Unsigned integers as text.

use vstd::prelude::*;

verus! {

/// The value of a digit in a radix of at most 36, letters of either case.
pub open spec fn digit_of(c: char, radix: int) -> Option<int> {
    let v = if '0' <= c <= '9' {
        c as int - '0' as int
    } else if 'a' <= c <= 'z' {
        c as int - 'a' as int + 10
    } else if 'A' <= c <= 'Z' {
        c as int - 'A' as int + 10
    } else {
        radix
    };
    if v < radix {
        Some(v)
    } else {
        None
    }
}

/// The value of a run of digits.
pub open spec fn value_of(s: Seq<char>, radix: int) -> Option<int>
    decreases s.len(),
{
    if s.len() == 0 {
        Some(0)
    } else {
        match (value_of(s.drop_last(), radix), digit_of(s.last(), radix)) {
            (Some(high), Some(low)) => Some(high * radix + low),
            _ => None,
        }
    }
}

/// The number that a text stands for: at least one digit, after a plus sign or
/// none, of a value of at most `max`.
pub open spec fn uint_of(s: Seq<char>, radix: int, max: int) -> Option<int> {
    let digits = if s.len() > 0 && s[0] == '+' {
        s.skip(1)
    } else {
        s
    };
    match value_of(digits, radix) {
        Some(v) if digits.len() > 0 && v <= max => Some(v),
        _ => None,
    }
}

/// A decimal text that fits 64 bits.
pub open spec fn u64_of(s: Seq<char>) -> Option<u64> {
    match uint_of(s, 10, u64::MAX as int) {
        Some(v) => Some(v as u64),
        None => None,
    }
}

/// A decimal text that fits 32 bits.
pub open spec fn u32_of(s: Seq<char>) -> Option<u32> {
    match uint_of(s, 10, u32::MAX as int) {
        Some(v) => Some(v as u32),
        None => None,
    }
}

/// A hexadecimal text that fits 32 bits.
pub open spec fn hex_of(s: Seq<char>) -> Option<u32> {
    match uint_of(s, 16, u32::MAX as int) {
        Some(v) => Some(v as u32),
        None => None,
    }
}

/// The lower case hexadecimal digit of a value below 16.
pub open spec fn hex_digit(v: int) -> char {
    if v < 10 {
        ('0' as int + v) as char
    } else {
        ('a' as int + v - 10) as char
    }
}

/// `v` in lower case hexadecimal, on at least `width` digits.
pub open spec fn hex_text(v: nat, width: nat) -> Seq<char>
    decreases v, width,
{
    if v == 0 && width == 0 {
        Seq::empty()
    } else {
        hex_text(
            v / 16,
            if width > 0 {
                (width - 1) as nat
            } else {
                0
            },
        ).push(hex_digit((v % 16) as int))
    }
}

proof fn lemma_value_nonneg(s: Seq<char>, radix: int)
    requires
        radix > 0,
    ensures
        value_of(s, radix) matches Some(v) ==> v >= 0,
    decreases s.len(),
{
    if s.len() > 0 {
        lemma_value_nonneg(s.drop_last(), radix);
        if let Some(high) = value_of(s.drop_last(), radix) {
            assert(high * radix >= 0) by (nonlinear_arith)
                requires
                    high >= 0,
                    radix > 0,
            ;
        }
    }
}

/// A longer run of digits has no smaller value, and a bad digit spoils it.
proof fn lemma_value_prefix(s: Seq<char>, n: int, radix: int)
    requires
        0 <= n <= s.len(),
        radix > 0,
    ensures
        match (value_of(s.take(n), radix), value_of(s, radix)) {
            (Some(a), Some(b)) => 0 <= a <= b,
            (None, Some(_)) => false,
            _ => true,
        },
    decreases s.len() - n,
{
    lemma_value_nonneg(s.take(n), radix);
    if n < s.len() {
        lemma_value_prefix(s, n + 1, radix);
        assert(s.take(n + 1).drop_last() =~= s.take(n));
        if let Some(high) = value_of(s.take(n), radix) {
            assert(high * radix >= high) by (nonlinear_arith)
                requires
                    high >= 0,
                    radix > 0,
            ;
        }
    } else {
        assert(s.take(n) =~= s);
    }
}

fn digit(c: char, radix: u64) -> (r: Option<u64>)
    requires
        2 <= radix <= 36,
    ensures
        match r {
            Some(v) => digit_of(c, radix as int) == Some(v as int),
            None => digit_of(c, radix as int) is None,
        },
{
    let u = c as u32;
    let v: u64 = if '0' <= c && c <= '9' {
        (u - 0x30) as u64
    } else if 'a' <= c && c <= 'z' {
        (u - 0x61 + 10) as u64
    } else if 'A' <= c && c <= 'Z' {
        (u - 0x41 + 10) as u64
    } else {
        radix
    };
    if v < radix {
        Some(v)
    } else {
        None
    }
}

fn parse_uint(s: &[char], radix: u64, max: u64) -> (r: Option<u64>)
    requires
        2 <= radix <= 36,
    ensures
        match r {
            Some(v) => uint_of(s@, radix as int, max as int) == Some(v as int),
            None => uint_of(s@, radix as int, max as int) is None,
        },
{
    let start: usize = if s.len() > 0 && s[0] == '+' {
        1
    } else {
        0
    };
    let digits = &s[start..s.len()];
    proof {
        assert(s@.subrange(0, s@.len() as int) =~= s@);
        assert(s@.len() > 0 ==> s@.subrange(1, s@.len() as int) =~= s@.skip(1));
    }
    if digits.len() == 0 {
        return None;
    }
    let mut v: u64 = 0;
    assert(digits@.take(0) =~= Seq::<char>::empty());
    for i in 0..digits.len()
        invariant
            2 <= radix <= 36,
            v <= max,
            value_of(digits@.take(i as int), radix as int) == Some(v as int),
            uint_of(s@, radix as int, max as int) == (match value_of(digits@, radix as int) {
                Some(v) if digits@.len() > 0 && v <= max as int => Some(v),
                _ => None,
            }),
    {
        proof {
            assert(digits@.take(i + 1).drop_last() =~= digits@.take(i as int));
            lemma_value_prefix(digits@, i + 1, radix as int);
        }
        match digit(digits[i], radix) {
            Some(d) => {
                assert(v * radix <= u64::MAX * 36) by (nonlinear_arith)
                    requires
                        v <= u64::MAX,
                        radix <= 36,
                ;
                let next: u128 = v as u128 * radix as u128 + d as u128;
                if next > max as u128 {
                    return None;
                }
                v = next as u64;
            },
            None => {
                return None;
            },
        }
    }
    assert(digits@.take(digits@.len() as int) =~= digits@);
    Some(v)
}

pub(crate) fn parse_u64(s: &[char]) -> (r: Option<u64>)
    ensures
        r == u64_of(s@),
{
    parse_uint(s, 10, 0xffff_ffff_ffff_ffff)
}

pub(crate) fn parse_u32(s: &[char]) -> (r: Option<u32>)
    ensures
        r == u32_of(s@),
{
    match parse_uint(s, 10, 0xffff_ffff) {
        Some(v) => Some(v as u32),
        None => None,
    }
}

pub(crate) fn parse_hex(s: &[char]) -> (r: Option<u32>)
    ensures
        r == hex_of(s@),
{
    match parse_uint(s, 16, 0xffff_ffff) {
        Some(v) => Some(v as u32),
        None => None,
    }
}

/// `v` in lower case hexadecimal, on at least `width` digits.
pub(crate) fn to_hex(v: u32, width: u32) -> (r: Vec<char>)
    ensures
        r@ == hex_text(v as nat, width as nat),
    decreases v, width,
{
    if v == 0 && width == 0 {
        Vec::new()
    } else {
        let rest = if width > 0 {
            width - 1
        } else {
            0
        };
        let mut out = to_hex(v / 16, rest);
        let d = (v % 16) as u8;
        let c = if d < 10 {
            (0x30 + d) as char
        } else {
            (0x61 + d - 10) as char
        };
        out.push(c);
        out
    }
}

/// What is written in hexadecimal reads back as the same number, so that no two numbers
/// are written alike.
pub proof fn law_hex_reads_back(v: u32, width: nat)
    requires
        width > 0,
    ensures
        hex_of(hex_text(v as nat, width)) == Some(v),
{
    lemma_hex_value(v as nat, width);
    let s = hex_text(v as nat, width);
    lemma_hex_digits(v as nat, width);
    assert(s[0] != '+');
}

proof fn lemma_hex_value(v: nat, width: nat)
    ensures
        value_of(hex_text(v, width), 16) == Some(v as int),
        width > 0 ==> hex_text(v, width).len() > 0,
    decreases v, width,
{
    if v != 0 || width != 0 {
        let narrower = if width > 0 {
            (width - 1) as nat
        } else {
            0
        };
        lemma_hex_value(v / 16, narrower);
        let rest = hex_text(v / 16, narrower);
        let last = hex_digit((v % 16) as int);
        lemma_hex_digit((v % 16) as int);
        assert(hex_text(v, width) == rest.push(last));
        assert(rest.push(last).drop_last() =~= rest);
    }
}

proof fn lemma_hex_digit(d: int)
    requires
        0 <= d < 16,
    ensures
        digit_of(hex_digit(d), 16) == Some(d),
        hex_digit(d) != '+',
{
}

proof fn lemma_hex_digits(v: nat, width: nat)
    ensures
        forall|i: int| 0 <= i < hex_text(v, width).len() ==> #[trigger] hex_text(v, width)[i] != '+',
    decreases v, width,
{
    if v != 0 || width != 0 {
        let narrower = if width > 0 {
            (width - 1) as nat
        } else {
            0
        };
        lemma_hex_digits(v / 16, narrower);
        lemma_hex_digit((v % 16) as int);
        let rest = hex_text(v / 16, narrower);
        assert forall|i: int| 0 <= i < hex_text(v, width).len() implies #[trigger] hex_text(
            v,
            width,
        )[i] != '+' by {
            if i < rest.len() {
                assert(hex_text(v, width)[i] == rest[i]);
            }
        }
    }
}

} // verus!
