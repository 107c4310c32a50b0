//! The numbers in messages are read as the numbers that were put there.
use crate::error::{decimal, digit, digits, hex_digit, hex_digits, hex_width, hexadecimal};
use vstd::prelude::*;

verus! {

/// The number that a decimal or hexadecimal digit stands for.
pub open spec fn digit_value(c: char) -> int {
    if '0' <= c <= '9' {
        c as u32 - '0' as u32
    } else {
        c as u32 - 'a' as u32 + 10
    }
}

/// The number that digits to a base stand for.
pub open spec fn number_of(s: Seq<char>, base: int) -> int
    decreases s.len(),
{
    if s.len() == 0 {
        0
    } else {
        number_of(s.drop_last(), base) * base + digit_value(s.last())
    }
}

proof fn lemma_digit(d: int)
    requires
        0 <= d < 10,
    ensures
        digit(d).len() == 1,
        '0' <= digit(d)[0] <= '9',
        digit_value(digit(d)[0]) == d,
{
    reveal_strlit("0");
    reveal_strlit("1");
    reveal_strlit("2");
    reveal_strlit("3");
    reveal_strlit("4");
    reveal_strlit("5");
    reveal_strlit("6");
    reveal_strlit("7");
    reveal_strlit("8");
    reveal_strlit("9");
}

proof fn lemma_hex_digit(d: int)
    requires
        0 <= d < 16,
    ensures
        hex_digit(d).len() == 1,
        digit_value(hex_digit(d)[0]) == d,
{
    if d < 10 {
        lemma_digit(d);
    }
    reveal_strlit("a");
    reveal_strlit("b");
    reveal_strlit("c");
    reveal_strlit("d");
    reveal_strlit("e");
    reveal_strlit("f");
}

/// Decimal digits stand for the number, and the first one is 0 for the number 0 alone.
pub proof fn law_digits_are_the_number(n: nat)
    ensures
        digits(n).len() > 0,
        number_of(digits(n), 10) == n,
        digits(n)[0] == '0' ==> n == 0,
    decreases n,
{
    if n < 10 {
        lemma_digit(n as int);
        let s = digits(n);
        assert(number_of(s.drop_last(), 10) == 0);
        assert(s.last() == s[0]);
    } else {
        law_digits_are_the_number(n / 10);
        lemma_digit((n % 10) as int);
        let s = digits(n);
        assert(s.drop_last() =~= digits(n / 10));
        assert(s.last() == digit((n % 10) as int)[0]);
        assert(s[0] == digits(n / 10)[0]);
    }
}

/// A negative number has a minus sign in front of its digits.
pub proof fn law_decimal_has_its_sign(n: int)
    ensures
        n >= 0 ==> number_of(decimal(n), 10) == n,
        n < 0 ==> decimal(n)[0] == '-' && number_of(
            decimal(n).subrange(1, decimal(n).len() as int),
            10,
        ) == -n,
{
    if n < 0 {
        reveal_strlit("-");
        law_digits_are_the_number((-n) as nat);
        assert(decimal(n).subrange(1, decimal(n).len() as int) =~= digits((-n) as nat));
    } else {
        law_digits_are_the_number(n as nat);
    }
}

spec fn power(k: nat) -> nat
    decreases k,
{
    if k == 0 {
        1
    } else {
        16 * power((k - 1) as nat)
    }
}

proof fn lemma_hex_digits(n: nat, k: nat)
    requires
        n < power(k),
    ensures
        hex_digits(n, k).len() == k,
        number_of(hex_digits(n, k), 16) == n,
    decreases k,
{
    if k > 0 {
        lemma_hex_digits(n / 16, (k - 1) as nat);
        lemma_hex_digit((n % 16) as int);
        let s = hex_digits(n, k);
        assert(s.drop_last() =~= hex_digits(n / 16, (k - 1) as nat));
        assert(s.last() == hex_digit((n % 16) as int)[0]);
    }
}

/// Hexadecimal digits stand for the number, behind `0x`, and there are at least four.
pub proof fn law_hexadecimal_is_the_number(n: u32)
    ensures
        ({
            let s = hexadecimal(n);
            &&& s.len() >= 6
            &&& s[0] == '0' && s[1] == 'x'
            &&& number_of(s.subrange(2, s.len() as int), 16) == n
        }),
{
    reveal_strlit("0x");
    reveal_with_fuel(power, 9);
    lemma_hex_digits(n as nat, hex_width(n));
    let s = hexadecimal(n);
    assert(s.subrange(2, s.len() as int) =~= hex_digits(n as nat, hex_width(n)));
}

} // verus!
