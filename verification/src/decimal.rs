//! Decimal text of natural numbers: the digits a count is written with, and
//! the number that a row of digits stands for.

use vstd::prelude::*;

verus! {

/// `c` is one of the ten ASCII digits.
pub open spec fn is_digit(c: char) -> bool {
    '0' <= c && c <= '9'
}

/// Every character of `s` is an ASCII digit.
pub open spec fn all_digits(s: Seq<char>) -> bool {
    forall|i: int| 0 <= i < s.len() ==> is_digit(#[trigger] s[i])
}

/// The digit that stands for `d`, for `d` below ten.
pub open spec fn digit_char(d: nat) -> char
    recommends
        d < 10,
{
    ('0' as nat + d) as char
}

/// The number that the digit `c` stands for.
pub open spec fn digit_value(c: char) -> nat
    recommends
        is_digit(c),
{
    (c as nat - '0' as nat) as nat
}

/// The decimal text of `n`: its digits from the most significant down, with
/// no leading zero but for `0` itself.
pub open spec fn decimal(n: nat) -> Seq<char>
    decreases n,
{
    if n < 10 {
        seq![digit_char(n)]
    } else {
        decimal(n / 10).push(digit_char(n % 10))
    }
}

/// The number that the digits of `s` stand for, read as decimal text. Leading
/// zeros count for nothing, and the empty text stands for zero.
pub open spec fn decimal_value(s: Seq<char>) -> nat
    decreases s.len(),
{
    if s.len() == 0 {
        0
    } else {
        decimal_value(s.drop_last()) * 10 + digit_value(s.last())
    }
}

/// What a row of characters is worth as a count: its decimal value, where it
/// is a non-empty row of digits whose value fits in `usize`.
pub open spec fn parse_count(s: Seq<char>) -> Option<usize> {
    if s.len() > 0 && all_digits(s) && decimal_value(s) <= usize::MAX {
        Some(decimal_value(s) as usize)
    } else {
        None
    }
}

/// Decimal text is made of digits, is never empty, and starts with a zero
/// only for zero.
pub proof fn lemma_decimal_shape(n: nat)
    ensures
        decimal(n).len() >= 1,
        all_digits(decimal(n)),
        n > 0 ==> decimal(n)[0] != '0',
        n == 0 ==> decimal(n) == seq!['0'],
    decreases n,
{
    if n >= 10 {
        lemma_decimal_shape(n / 10);
    }
}

/// The decimal text of `n` stands for `n`.
pub proof fn lemma_decimal_value(n: nat)
    ensures
        decimal_value(decimal(n)) == n,
    decreases n,
{
    if n < 10 {
        assert(decimal(n).drop_last() =~= Seq::<char>::empty());
        assert(decimal_value(Seq::<char>::empty()) == 0);
    } else {
        lemma_decimal_value(n / 10);
        assert(decimal(n).drop_last() =~= decimal(n / 10));
    }
}

/// A row of digits without a leading zero is the decimal text of its value:
/// no number has two such texts.
pub proof fn lemma_decimal_unique(s: Seq<char>)
    requires
        s.len() >= 1,
        all_digits(s),
        s.len() > 1 ==> s[0] != '0',
    ensures
        decimal(decimal_value(s)) == s,
    decreases s.len(),
{
    let head = s.drop_last();
    if s.len() == 1 {
        assert(decimal_value(head) == 0);
    } else {
        assert(all_digits(head));
        lemma_decimal_unique(head);
    }
}

/// The value of a row of characters is at least the value of each of its
/// beginnings.
pub proof fn lemma_decimal_value_grows(s: Seq<char>, k: int)
    requires
        0 <= k <= s.len(),
    ensures
        decimal_value(s.take(k)) <= decimal_value(s),
    decreases s.len(),
{
    if k == s.len() {
        assert(s.take(k) =~= s);
    } else {
        lemma_decimal_value_grows(s.drop_last(), k);
        assert(s.drop_last().take(k) =~= s.take(k));
    }
}

/// A row of characters is worth at least ten times each of its beginnings
/// that is shorter than itself.
pub proof fn lemma_decimal_value_tenfold(s: Seq<char>, k: int)
    requires
        0 <= k < s.len(),
    ensures
        decimal_value(s) >= 10 * decimal_value(s.take(k)),
{
    lemma_decimal_value_grows(s.drop_last(), k);
    assert(s.drop_last().take(k) =~= s.take(k));
}

/// The value of `c` as a digit, or `None` where `c` is no ASCII digit.
pub fn digit_of(c: char) -> (digit: Option<u8>)
    ensures
        digit is Some <==> is_digit(c),
        digit matches Some(d) ==> d == digit_value(c) && d < 10,
{
    if '0' <= c && c <= '9' {
        Some((c as u32 - '0' as u32) as u8)
    } else {
        None
    }
}

/// Appends the decimal text of `n` to `out`.
pub fn push_decimal(out: &mut String, n: u128)
    ensures
        final(out)@ == old(out)@ + decimal(n as nat),
    decreases n,
{
    if n >= 10 {
        push_decimal(out, n / 10);
    }
    let digit = (48u8 + (n % 10) as u8) as char;
    out.push(digit);
}

/// Reads `digits` as a count. `None` where `digits` is empty, holds a
/// character that is no ASCII digit, or stands for more than `usize` holds.
pub fn parse_decimal(digits: &str) -> (value: Option<usize>)
    ensures
        value == parse_count(digits@),
{
    let mut value: usize = 0;
    let mut any = false;
    for c in it: digits.chars()
        invariant
            it.seq() == digits@,
            all_digits(digits@.take(it.index())),
            value == decimal_value(digits@.take(it.index())),
            any == (it.index() > 0),
    {
        let ghost seen = digits@.take(it.index() + 1);
        proof {
            assert(seen.drop_last() =~= digits@.take(it.index()));
            lemma_decimal_value_grows(digits@, it.index() + 1);
        }
        let d = match digit_of(c) {
            Some(d) => d,
            None => {
                return None;
            },
        };
        let tens = match value.checked_mul(10) {
            Some(tens) => tens,
            None => {
                return None;
            },
        };
        value = match tens.checked_add(d as usize) {
            Some(sum) => sum,
            None => {
                return None;
            },
        };
        any = true;
        assert(all_digits(seen));
    }
    assert(digits@.take(digits@.len() as int) =~= digits@);
    if any {
        Some(value)
    } else {
        None
    }
}

} // verus!
