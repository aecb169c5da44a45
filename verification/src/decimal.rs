//! Decimal notation: the value of a run of digits, and the digits of a value.

use vstd::prelude::*;

verus! {

/// The ASCII digits `0` to `9`.
pub open spec fn is_digit(c: char) -> bool {
    '0' <= c && c <= '9'
}

/// The number that a digit stands for.
pub open spec fn digit_value(c: char) -> int {
    c as int - '0' as int
}

/// The digit that stands for `d`, for `d` from 0 to 9.
pub open spec fn digit_char(d: int) -> char {
    ('0' as int + d) as char
}

/// Whether every character of `s` is an ASCII digit.
pub open spec fn all_digits(s: Seq<char>) -> bool {
    forall|i: int| 0 <= i < s.len() ==> is_digit(#[trigger] s[i])
}

/// The number that a run of digits denotes in base ten, leading zeros allowed.
pub open spec fn decimal_value(s: Seq<char>) -> int
    decreases s.len(),
{
    if s.len() == 0 {
        0
    } else {
        decimal_value(s.drop_last()) * 10 + digit_value(s.last())
    }
}

/// The texts that denote a value of `isize`: one or more ASCII digits whose
/// value does not exceed `isize::MAX`.
pub open spec fn is_decimal_literal(s: Seq<char>) -> bool {
    &&& s.len() > 0
    &&& all_digits(s)
    &&& decimal_value(s) <= isize::MAX
}

/// The digits of `n` in base ten, without leading zeros.
pub open spec fn decimal_digits(n: nat) -> Seq<char>
    decreases n,
{
    if n < 10 {
        seq![digit_char(n as int)]
    } else {
        decimal_digits(n / 10).push(digit_char((n % 10) as int))
    }
}

/// The decimal text of an integer: a minus sign for a negative one, then the
/// digits of its magnitude.
pub open spec fn decimal_text(v: int) -> Seq<char> {
    if v < 0 {
        seq!['-'] + decimal_digits((-v) as nat)
    } else {
        decimal_digits(v as nat)
    }
}

/// Whether a run of digits is written without needless zeros in front: it is
/// a single digit, or it does not begin with `0`.
pub open spec fn is_plain(s: Seq<char>) -> bool {
    s.len() == 1 || s[0] != '0'
}

/// A run of digits is worth at least as much as any of its prefixes.
pub proof fn lemma_decimal_value_of_prefix(s: Seq<char>, k: int)
    requires
        all_digits(s),
        0 <= k <= s.len(),
    ensures
        0 <= decimal_value(s.take(k)) <= decimal_value(s),
    decreases s.len() - k,
{
    if k == s.len() {
        assert(s.take(k) == s);
        lemma_decimal_value_is_natural(s);
    } else {
        lemma_decimal_value_of_prefix(s, k + 1);
        let longer = s.take(k + 1);
        assert(longer.drop_last() == s.take(k));
        assert(longer.last() == s[k]);
        assert(is_digit(s[k]));
        assert forall|i: int| 0 <= i < k implies is_digit(#[trigger] s.take(k)[i]) by {
            assert(s.take(k)[i] == s[i]);
        }
        lemma_decimal_value_is_natural(s.take(k));
    }
}

/// The value of a run of digits is not negative.
pub proof fn lemma_decimal_value_is_natural(s: Seq<char>)
    requires
        all_digits(s),
    ensures
        0 <= decimal_value(s),
    decreases s.len(),
{
    if s.len() > 0 {
        let front = s.drop_last();
        assert forall|i: int| 0 <= i < front.len() implies is_digit(#[trigger] front[i]) by {
            assert(front[i] == s[i]);
        }
        lemma_decimal_value_is_natural(front);
        assert(is_digit(s[s.len() - 1]));
    }
}

/// A number has at least one digit.
pub proof fn lemma_decimal_digits_not_empty(n: nat)
    ensures
        decimal_digits(n).len() >= 1,
    decreases n,
{
    if n >= 10 {
        lemma_decimal_digits_not_empty(n / 10);
    }
}

/// Written without leading zeros, the value of a run of digits takes no more
/// digits than the run has.
pub proof fn lemma_decimal_digits_of_value(s: Seq<char>)
    requires
        s.len() > 0,
        all_digits(s),
    ensures
        decimal_value(s) >= 0,
        1 <= decimal_digits(decimal_value(s) as nat).len() <= s.len(),
    decreases s.len(),
{
    let front = s.drop_last();
    let value = decimal_value(s);
    assert(is_digit(s[s.len() - 1]));
    assert forall|i: int| 0 <= i < front.len() implies is_digit(#[trigger] front[i]) by {
        assert(front[i] == s[i]);
    }
    lemma_decimal_value_is_natural(front);
    lemma_decimal_digits_not_empty(value as nat);
    if value >= 10 {
        assert(front.len() > 0);
        lemma_decimal_digits_of_value(front);
        assert(value / 10 == decimal_value(front));
    }
}

/// A run of digits without needless zeros in front is the decimal text of its
/// value.
pub proof fn lemma_decimal_digits_of_plain(s: Seq<char>)
    requires
        s.len() > 0,
        all_digits(s),
        is_plain(s),
    ensures
        decimal_value(s) >= 0,
        s.len() >= 2 ==> decimal_value(s) >= 10,
        decimal_digits(decimal_value(s) as nat) == s,
    decreases s.len(),
{
    let front = s.drop_last();
    let last = s.last();
    assert(is_digit(s[s.len() - 1]));
    assert(digit_char(digit_value(last)) == last);
    assert forall|i: int| 0 <= i < front.len() implies is_digit(#[trigger] front[i]) by {
        assert(front[i] == s[i]);
    }
    if front.len() == 0 {
        assert(decimal_value(front) == 0);
        assert(decimal_value(s) == digit_value(last));
        assert(seq![last] == s);
    } else {
        assert(front[0] == s[0]);
        lemma_decimal_digits_of_plain(front);
        assert(is_digit(front[0]));
        assert(decimal_value(front) >= 1) by {
            if front.len() == 1 {
                assert(front.drop_last().len() == 0);
            }
        }
        let value = decimal_value(s);
        assert(value / 10 == decimal_value(front));
        assert(value % 10 == digit_value(last));
        assert(front.push(last) == s);
    }
}

/// Reads a decimal literal: the value of `digits` where they are a decimal
/// literal, and nothing where a character is no ASCII digit, where there is no
/// digit at all, or where the value exceeds `isize::MAX`.
pub fn parse_decimal(digits: &[char]) -> (parsed: Option<isize>)
    ensures
        parsed is Some <==> is_decimal_literal(digits@),
        parsed matches Some(value) ==> value == decimal_value(digits@),
{
    if digits.len() == 0 {
        return None;
    }
    let limit: i128 = isize::MAX as i128;
    let mut value: i128 = 0;
    let mut i: usize = 0;
    while i < digits.len()
        invariant
            i <= digits@.len(),
            limit == isize::MAX,
            all_digits(digits@.take(i as int)),
            value == decimal_value(digits@.take(i as int)),
            0 <= value <= limit,
        decreases digits@.len() - i,
    {
        let c = digits[i];
        if !('0' <= c && c <= '9') {
            return None;
        }
        let digit: i128 = (c as u32 - '0' as u32) as i128;
        let ghost longer = digits@.take(i + 1);
        proof {
            assert(longer.drop_last() == digits@.take(i as int));
            assert(longer.last() == c);
            assert forall|j: int| 0 <= j < longer.len() implies is_digit(#[trigger] longer[j]) by {
                if j < i {
                    assert(longer[j] == digits@.take(i as int)[j]);
                }
            }
        }
        let next: i128 = value * 10 + digit;
        if next > limit {
            proof {
                if all_digits(digits@) {
                    lemma_decimal_value_of_prefix(digits@, i + 1);
                }
            }
            return None;
        }
        value = next;
        i += 1;
    }
    proof {
        assert(digits@.take(i as int) == digits@);
    }
    Some(value as isize)
}

/// Appends the digits of `n` to `out`.
pub fn push_digits(out: &mut String, n: u128)
    ensures
        final(out)@ == old(out)@ + decimal_digits(n as nat),
    decreases n,
{
    if n >= 10 {
        push_digits(out, n / 10);
    }
    let digit: u8 = (n % 10) as u8;
    out.push((48u8 + digit) as char);
}

/// Appends the decimal text of `v` to `out`.
pub fn push_decimal(out: &mut String, v: isize)
    ensures
        final(out)@ == old(out)@ + decimal_text(v as int),
{
    let wide: i128 = v as i128;
    if wide < 0 {
        out.push('-');
        push_digits(out, (-wide) as u128);
    } else {
        push_digits(out, wide as u128);
    }
}

/// Ten to the power `k`.
pub open spec fn power_of_ten(k: nat) -> nat
    decreases k,
{
    if k == 0 {
        1
    } else {
        10 * power_of_ten((k - 1) as nat)
    }
}

/// A number below ten to the power `k` has at most `k` digits.
pub proof fn lemma_decimal_digits_below_power(n: nat, k: nat)
    requires
        k >= 1,
        n < power_of_ten(k),
    ensures
        decimal_digits(n).len() <= k,
    decreases k,
{
    if n >= 10 {
        assert(power_of_ten(1) == 10) by {
            reveal_with_fuel(power_of_ten, 2);
        }
        lemma_decimal_digits_below_power(n / 10, (k - 1) as nat);
    }
}

/// The number of digits of `n`.
pub fn count_digits(n: u128) -> (count: usize)
    ensures
        count == decimal_digits(n as nat).len(),
        1 <= count <= 39,
    decreases n,
{
    proof {
        assert(n < power_of_ten(39)) by {
            reveal_with_fuel(power_of_ten, 40);
        }
        lemma_decimal_digits_below_power(n as nat, 39);
        lemma_decimal_digits_not_empty(n as nat);
    }
    if n >= 10 {
        let shorter = count_digits(n / 10);
        shorter + 1
    } else {
        1
    }
}

/// The number of characters in the decimal text of `v`.
pub fn decimal_width(v: isize) -> (width: usize)
    ensures
        width == decimal_text(v as int).len(),
{
    let wide: i128 = v as i128;
    if wide < 0 {
        1 + count_digits((-wide) as u128)
    } else {
        count_digits(wide as u128)
    }
}

} // verus!
