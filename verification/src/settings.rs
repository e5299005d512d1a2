//! Numeric settings read from text: an unsigned decimal, or the default
//! when the text is not one or does not fit.

use vstd::prelude::*;

use crate::text::chars_of;

verus! {

/// A decimal digit.
pub open spec fn is_digit(c: char) -> bool {
    '0' <= c && c <= '9'
}

/// The value of a decimal digit.
pub open spec fn digit_value(c: char) -> nat {
    (c as nat - '0' as nat) as nat
}

/// The value of a string of decimal digits, most significant first.
pub open spec fn decimal_value(digits: Seq<char>) -> nat
    decreases digits.len(),
{
    if digits.len() == 0 {
        0
    } else {
        decimal_value(digits.drop_last()) * 10 + digit_value(digits.last())
    }
}

/// The text without one leading `+`, if it has one.
pub open spec fn without_plus(text: Seq<char>) -> Seq<char> {
    if text.len() > 0 && text[0] == '+' {
        text.drop_first()
    } else {
        text
    }
}

/// The digits of an unsigned decimal: the text, without one leading `+`,
/// when what remains is a non-empty run of digits.
pub open spec fn unsigned_digits(text: Seq<char>) -> Option<Seq<char>> {
    let digits = without_plus(text);
    if digits.len() > 0 && forall|i: int| 0 <= i < digits.len() ==> is_digit(#[trigger] digits[i]) {
        Some(digits)
    } else {
        None
    }
}

/// The value of an unsigned decimal that is at most `max`.
pub open spec fn parsed_unsigned(text: Seq<char>, max: nat) -> Option<nat> {
    match unsigned_digits(text) {
        Some(digits) => if decimal_value(digits) <= max {
            Some(decimal_value(digits))
        } else {
            None
        },
        None => None,
    }
}

/// The digits are the code points 48 (`0`) to 57 (`9`), and a digit is
/// worth its code point minus 48.
pub proof fn lemma_digit_code_points(c: char)
    ensures
        is_digit(c) <==> 48 <= c as u32 <= 57,
        is_digit(c) ==> digit_value(c) == c as u32 - 48,
{
}

/// Appending a digit multiplies the value by ten and adds the digit; a
/// leading zero changes nothing.
pub proof fn lemma_decimal_value_digits(digits: Seq<char>, c: char)
    ensures
        decimal_value(digits.push(c)) == 10 * decimal_value(digits) + digit_value(c),
        decimal_value(seq!['0'] + digits) == decimal_value(digits),
    decreases digits.len(),
{
    assert(digits.push(c).drop_last() =~= digits);
    if digits.len() > 0 {
        let d0 = digits.drop_last();
        lemma_decimal_value_digits(d0, digits.last());
        assert((seq!['0'] + digits).drop_last() =~= seq!['0'] + d0);
        assert((seq!['0'] + digits).last() == digits.last());
        assert(decimal_value(seq!['0'] + digits) == decimal_value(seq!['0'] + d0) * 10
            + digit_value(digits.last()));
    } else {
        assert(seq!['0'] + digits =~= seq!['0']);
        assert(seq!['0'].drop_last() =~= Seq::<char>::empty());
        assert(seq!['0'].last() == '0');
        assert(decimal_value(seq!['0']) == decimal_value(Seq::<char>::empty()) * 10 + digit_value(
            '0',
        ));
    }
}

/// A non-empty run of digits, with or without one leading `+`, reads as its
/// value when that is at most `max` and is refused otherwise; an empty text,
/// a lone `+`, and a text starting with `-` or holding any other non-digit
/// are refused.
pub proof fn lemma_parse_unsigned_grammar(digits: Seq<char>, text: Seq<char>, i: int, max: nat)
    requires
        forall|k: int| 0 <= k < digits.len() ==> is_digit(#[trigger] digits[k]),
    ensures
        digits.len() > 0 ==> parsed_unsigned(digits, max) == if decimal_value(digits) <= max {
            Some(decimal_value(digits))
        } else {
            None
        },
        digits.len() > 0 ==> parsed_unsigned(seq!['+'] + digits, max) == parsed_unsigned(
            digits,
            max,
        ),
        parsed_unsigned(Seq::<char>::empty(), max) is None,
        parsed_unsigned(seq!['+'], max) is None,
        text.len() > 0 && text[0] == '-' ==> parsed_unsigned(text, max) is None,
        1 <= i < text.len() && !is_digit(text[i]) ==> parsed_unsigned(text, max) is None,
{
    if digits.len() > 0 {
        assert(digits[0] != '+') by {
            assert(is_digit(digits[0]));
        }
        assert(without_plus(digits) == digits);
        assert((seq!['+'] + digits).drop_first() =~= digits);
        assert((seq!['+'] + digits)[0] == '+');
    }
    assert(seq!['+'].drop_first() =~= Seq::<char>::empty());
    if text.len() > 0 && text[0] == '-' {
        assert(without_plus(text) == text);
        assert(!is_digit(without_plus(text)[0]));
    }
    if 1 <= i < text.len() && !is_digit(text[i]) {
        if text[0] == '+' {
            assert(without_plus(text)[i - 1] == text[i]);
        } else {
            assert(without_plus(text)[i] == text[i]);
        }
    }
}

/// A longer run of digits is worth at least as much as its prefix.
proof fn lemma_decimal_value_grows(digits: Seq<char>, k: int)
    requires
        0 <= k <= digits.len(),
    ensures
        decimal_value(digits.take(k)) <= decimal_value(digits),
    decreases digits.len() - k,
{
    if k < digits.len() {
        lemma_decimal_value_grows(digits, k + 1);
        assert(digits.take(k + 1).drop_last() =~= digits.take(k));
    } else {
        assert(digits.take(k) =~= digits);
    }
}

/// Reads an unsigned decimal no larger than `max`: an optional `+`, then
/// one or more digits; anything else, or a larger value, gives `None`.
pub fn parse_unsigned(text: &str, max: u64) -> (r: Option<u64>)
    ensures
        match parsed_unsigned(text@, max as nat) {
            Some(n) => r == Some(n as u64),
            None => r is None,
        },
{
    let chars = chars_of(text);
    let n = chars.len();
    let start: usize = if n > 0 && chars[0] == '+' {
        1
    } else {
        0
    };
    let ghost digits = chars@.subrange(start as int, n as int);
    assert(digits =~= if chars@.len() > 0 && chars@[0] == '+' {
        chars@.drop_first()
    } else {
        chars@
    });
    if start == n {
        return None;
    }
    let mut value: u64 = 0;
    let mut i: usize = start;
    assert(digits.take(0) =~= Seq::<char>::empty());
    while i < n
        invariant
            start <= i <= n,
            n == chars@.len(),
            digits == chars@.subrange(start as int, n as int),
            chars@ == text@,
            digits == without_plus(text@),
            value as nat == decimal_value(digits.take(i - start)),
            value <= max,
            forall|j: int| 0 <= j < i - start ==> is_digit(#[trigger] digits[j]),
        decreases n - i,
    {
        let c = chars[i];
        let ghost k = (i - start) as int;
        assert(digits[k] == c);
        if !('0' <= c && c <= '9') {
            assert(!is_digit(digits[k]));
            return None;
        }
        let d = (c as u64) - ('0' as u64);
        assert(digits.take(k + 1).drop_last() =~= digits.take(k));
        assert(digits.take(k + 1).last() == c);
        assert(digit_value(c) == d);
        assert(digits.take(k + 1).last() == c);
        assert(digit_value(c) == d);
        assert(decimal_value(digits.take(k + 1)) == decimal_value(digits.take(k)) * 10 + d);
        if d > max || value > (max - d) / 10 {
            proof {
                assert(value * 10 + d > max) by (nonlinear_arith)
                    requires
                        d > max || value > (max - d) / 10,
                        d <= 9,
                ;
                lemma_decimal_value_grows(digits, k + 1);
                assert(decimal_value(digits) > max);
            }
            return None;
        }
        proof {
            assert(value * 10 + d <= max) by (nonlinear_arith)
                requires
                    d <= max,
                    value <= (max - d) / 10,
            ;
        }
        value = value * 10 + d;
        i = i + 1;
    }
    assert(digits.take(n - start) =~= digits);
    Some(value)
}

/// A 32-bit setting: the value of `text` when it is an unsigned decimal
/// that fits, `default` when it is absent or is not.
pub fn u32_setting(text: Option<&str>, default: u32) -> (r: u32)
    ensures
        r == match text {
            Some(t) => match parsed_unsigned(t@, u32::MAX as nat) {
                Some(n) => n as u32,
                None => default,
            },
            None => default,
        },
{
    match text {
        Some(t) => match parse_unsigned(t, u32::MAX as u64) {
            Some(n) => n as u32,
            None => default,
        },
        None => default,
    }
}

/// A size setting: the value of `text` when it is an unsigned decimal
/// that fits, `default` when it is absent or is not.
pub fn usize_setting(text: Option<&str>, default: usize) -> (r: usize)
    ensures
        r == match text {
            Some(t) => match parsed_unsigned(t@, usize::MAX as nat) {
                Some(n) => n as usize,
                None => default,
            },
            None => default,
        },
{
    match text {
        Some(t) => match parse_unsigned(t, usize::MAX as u64) {
            Some(n) => n as usize,
            None => default,
        },
        None => default,
    }
}

} // verus!
