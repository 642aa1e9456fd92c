//! Laws of numbers as text.

use crate::number;
use crate::text;
use vstd::prelude::*;

verus! {

/// A number in decimal, without leading zeros.
pub open spec fn decimal(n: nat) -> Seq<char>
    decreases n,
{
    if n < 10 {
        seq![('0' as int + n) as char]
    } else {
        decimal(n / 10).push(('0' as int + n % 10) as char)
    }
}

/// Digits without a sign have a value.
proof fn lemma_digits_have_value(s: Seq<char>)
    requires
        text::all_digits(s),
    ensures
        number::value_of(s, 10) is Some,
        number::value_of(s, 10)->0 >= 0,
        s.len() > 0 ==> number::uint_of(s, 10, number::value_of(s, 10)->0) == number::value_of(
            s,
            10,
        ),
    decreases s.len(),
{
    if s.len() > 0 {
        let front = s.drop_last();
        assert forall|i: int| 0 <= i < front.len() implies '0' <= #[trigger] front[i] <= '9' by {
            assert(s[i] == front[i]);
        }
        assert('0' <= s[s.len() - 1] <= '9');
        assert('0' <= s[0] <= '9');
        lemma_digits_have_value(front);
    }
}

proof fn lemma_value_needs_digits(s: Seq<char>)
    requires
        number::value_of(s, 10) is Some,
    ensures
        text::all_digits(s),
    decreases s.len(),
{
    if s.len() > 0 {
        lemma_value_needs_digits(s.drop_last());
        assert forall|i: int| 0 <= i < s.len() implies '0' <= #[trigger] s[i] <= '9' by {
            if i < s.len() - 1 {
                assert(s.drop_last()[i] == s[i]);
            }
        }
    }
}

/// One more digit makes ten times the number and the digit, if that fits 64 bits.
pub proof fn law_digit_by_digit(s: Seq<char>, c: char)
    requires
        '0' <= c <= '9',
    ensures
        number::u64_of(seq![c]) == Some((c as int - '0' as int) as u64),
        number::u64_of(s) matches Some(v) ==> number::u64_of(s.push(c)) == (if v * 10 + (c as int
            - '0' as int) <= u64::MAX {
            Some((v * 10 + (c as int - '0' as int)) as u64)
        } else {
            None
        }),
        number::u32_of(seq![c]) == Some((c as int - '0' as int) as u32),
        number::u32_of(s) matches Some(v) ==> number::u32_of(s.push(c)) == (if v * 10 + (c as int
            - '0' as int) <= u32::MAX {
            Some((v * 10 + (c as int - '0' as int)) as u32)
        } else {
            None
        }),
{
    let one = seq![c];
    reveal_with_fuel(number::value_of, 2);
    assert(one.drop_last() =~= Seq::<char>::empty());
    assert(number::value_of(one, 10) == Some(c as int - '0' as int));
    let d = s.push(c);
    if s.len() > 0 {
        assert(d[0] == s[0]);
        assert(d.skip(1) =~= s.skip(1).push(c));
        assert(s.skip(1).push(c).drop_last() =~= s.skip(1));
        assert(d.drop_last() =~= s);
        let digits = if s[0] == '+' {
            s.skip(1)
        } else {
            s
        };
        if number::value_of(digits, 10) is Some {
            lemma_value_needs_digits(digits);
            lemma_digits_have_value(digits);
        }
    }
}

/// A number is at least one digit, behind a plus sign or none: nothing else is one.
pub proof fn law_only_digits_are_numbers(s: Seq<char>)
    ensures
        number::u64_of(s) is Some ==> s.len() > 0 && (text::all_digits(s) || (s[0] == '+'
            && s.len() > 1 && text::all_digits(s.skip(1)))),
        number::u32_of(s) is Some ==> number::u64_of(s) is Some && number::u64_of(s)->0
            == number::u32_of(s)->0,
        number::u64_of(s) matches Some(v) ==> (number::u32_of(s) is Some <==> v <= u32::MAX),
        s.len() > 0 && s[0] != '+' ==> number::u64_of(seq!['+'] + s) == number::u64_of(s),
{
    let digits = if s.len() > 0 && s[0] == '+' {
        s.skip(1)
    } else {
        s
    };
    if number::value_of(digits, 10) is Some {
        lemma_value_needs_digits(digits);
        lemma_digits_have_value(digits);
    }
    assert((seq!['+'] + s).skip(1) =~= s);
}

/// A number that fits is read back from its digits, and one that does not fit is none.
pub proof fn law_decimal_reads_back(n: nat)
    ensures
        number::u64_of(decimal(n)) == (if n <= u64::MAX {
            Some(n as u64)
        } else {
            None
        }),
        number::u32_of(decimal(n)) == (if n <= u32::MAX {
            Some(n as u32)
        } else {
            None
        }),
        text::all_digits(decimal(n)),
        decimal(n).len() > 0,
{
    lemma_decimal_value(n);
    let s = decimal(n);
    assert('0' <= s[0] <= '9');
}

proof fn lemma_decimal_value(n: nat)
    ensures
        number::value_of(decimal(n), 10) == Some(n as int),
        decimal(n).len() > 0,
        text::all_digits(decimal(n)),
    decreases n,
{
    let s = decimal(n);
    reveal_with_fuel(number::value_of, 2);
    if n < 10 {
        assert(s.drop_last() =~= Seq::<char>::empty());
    } else {
        let front = decimal(n / 10);
        lemma_decimal_value(n / 10);
        assert(s.drop_last() =~= front);
        assert forall|i: int| 0 <= i < s.len() implies '0' <= #[trigger] s[i] <= '9' by {
            if i < front.len() {
                assert(s[i] == front[i]);
            }
        }
    }
}

/// An upper case letter for a lower case hexadecimal digit.
pub open spec fn upper_digit(c: char) -> char {
    if 'a' <= c <= 'f' {
        (c as int - 'a' as int + 'A' as int) as char
    } else {
        c
    }
}

proof fn lemma_case_of_digits(s: Seq<char>)
    ensures
        number::value_of(s.map_values(|c: char| upper_digit(c)), 16) == number::value_of(s, 16),
    decreases s.len(),
{
    let t = s.map_values(|c: char| upper_digit(c));
    if s.len() > 0 {
        lemma_case_of_digits(s.drop_last());
        assert(t.drop_last() =~= s.drop_last().map_values(|c: char| upper_digit(c)));
        assert(t.last() == upper_digit(s.last()));
        assert(number::digit_of(upper_digit(s.last()), 16) == number::digit_of(s.last(), 16));
    }
}

/// The case of hexadecimal digits makes no difference.
pub proof fn law_hex_case(s: Seq<char>)
    ensures
        number::hex_of(s.map_values(|c: char| upper_digit(c))) == number::hex_of(s),
{
    let t = s.map_values(|c: char| upper_digit(c));
    lemma_case_of_digits(s);
    if s.len() > 0 {
        lemma_case_of_digits(s.skip(1));
        assert(t.skip(1) =~= s.skip(1).map_values(|c: char| upper_digit(c)));
        assert(t[0] == upper_digit(s[0]));
    }
}

proof fn lemma_hex_needs_digits(s: Seq<char>)
    requires
        number::value_of(s, 16) is Some,
    ensures
        forall|i: int|
            0 <= i < s.len() ==> "0123456789abcdefABCDEF"@.contains(#[trigger] s[i]),
    decreases s.len(),
{
    reveal_strlit("0123456789abcdefABCDEF");
    let d = "0123456789abcdefABCDEF"@;
    if s.len() > 0 {
        lemma_hex_needs_digits(s.drop_last());
        assert forall|i: int| 0 <= i < s.len() implies d.contains(#[trigger] s[i]) by {
            if i < s.len() - 1 {
                assert(s.drop_last()[i] == s[i]);
            } else {
                let c = s[i];
                if '0' <= c <= '9' {
                    assert(d[c as int - '0' as int] == c);
                } else if 'a' <= c <= 'f' {
                    assert(d[c as int - 'a' as int + 10] == c);
                } else {
                    assert(d[c as int - 'A' as int + 16] == c);
                }
            }
        }
    }
}

/// A hexadecimal number is at least one hexadecimal digit, behind a plus sign or none.
pub proof fn law_only_hex_digits(s: Seq<char>)
    ensures
        number::hex_of(s) is Some ==> s.len() > 0 && forall|i: int|
            0 < i < s.len() ==> "0123456789abcdefABCDEF"@.contains(#[trigger] s[i]),
        number::hex_of(s) is Some ==> "+0123456789abcdefABCDEF"@.contains(s[0]),
{
    reveal_strlit("0123456789abcdefABCDEF");
    reveal_strlit("+0123456789abcdefABCDEF");
    let d = "0123456789abcdefABCDEF"@;
    let e = "+0123456789abcdefABCDEF"@;
    if number::hex_of(s) is Some {
        let digits = if s[0] == '+' {
            s.skip(1)
        } else {
            s
        };
        lemma_hex_needs_digits(digits);
        assert forall|i: int| 0 < i < s.len() implies d.contains(#[trigger] s[i]) by {
            if s[0] == '+' {
                assert(digits[i - 1] == s[i]);
            } else {
                assert(digits[i] == s[i]);
            }
        }
        if s[0] == '+' {
            assert(e[0] == s[0]);
        } else {
            assert(d.contains(digits[0]));
            let k = choose|k: int| 0 <= k < d.len() && d[k] == s[0];
            assert(e[k + 1] == s[0]);
        }
    }
}

/// A number in hexadecimal has the digits that were asked for, and no more zeros in front.
pub proof fn law_hex_width(v: nat, width: nat)
    ensures
        number::hex_text(v, width).len() >= width,
        number::hex_text(v, width).len() > width ==> number::hex_text(v, width)[0] != '0',
        forall|i: int|
            0 <= i < number::hex_text(v, width).len() ==> "0123456789abcdef"@.contains(
                #[trigger] number::hex_text(v, width)[i],
            ),
    decreases v, width,
{
    reveal_strlit("0123456789abcdef");
    let d = "0123456789abcdef"@;
    let s = number::hex_text(v, width);
    if v != 0 || width != 0 {
        let narrower = if width > 0 {
            (width - 1) as nat
        } else {
            0
        };
        let rest = number::hex_text(v / 16, narrower);
        law_hex_width(v / 16, narrower);
        assert(s == rest.push(number::hex_digit((v % 16) as int)));
        assert forall|i: int| 0 <= i < s.len() implies d.contains(#[trigger] s[i]) by {
            if i < rest.len() {
                assert(s[i] == rest[i]);
            } else {
                assert(d[(v % 16) as int] == s[i]);
            }
        }
        if s.len() > width && width == 0 && rest.len() == 0 {
            lemma_no_digits(v / 16);
        }
        if rest.len() > 0 {
            assert(s[0] == rest[0]);
        }
    }
}

proof fn lemma_no_digits(v: nat)
    requires
        number::hex_text(v, 0).len() == 0,
    ensures
        v == 0,
{
    if v != 0 {
        assert(number::hex_text(v, 0).len() > 0);
    }
}

} // verus!
