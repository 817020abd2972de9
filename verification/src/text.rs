//! Numbers written out in decimal.

use crate::parse::{digits_value, is_digit, number_of};
use vstd::prelude::*;

verus! {

/// The character that writes a digit below ten.
pub open spec fn digit_char(digit: nat) -> char {
    if digit == 0 {
        '0'
    } else if digit == 1 {
        '1'
    } else if digit == 2 {
        '2'
    } else if digit == 3 {
        '3'
    } else if digit == 4 {
        '4'
    } else if digit == 5 {
        '5'
    } else if digit == 6 {
        '6'
    } else if digit == 7 {
        '7'
    } else if digit == 8 {
        '8'
    } else {
        '9'
    }
}

/// A number in decimal, without sign and without leading zeros; zero is `0`.
pub open spec fn decimal_text(n: nat) -> Seq<char>
    decreases n,
{
    if n < 10 {
        seq![digit_char(n)]
    } else {
        decimal_text(n / 10).push(digit_char(n % 10))
    }
}

/// A number in decimal is made of digits, and they write the number.
pub proof fn lemma_decimal_reads_back(n: nat)
    ensures
        decimal_text(n).len() > 0,
        forall|k: int| 0 <= k < decimal_text(n).len() ==> is_digit(#[trigger] decimal_text(n)[k]),
        digits_value(decimal_text(n)) == n,
    decreases n,
{
    let text = decimal_text(n);
    if n < 10 {
        assert(text.drop_last() =~= Seq::<char>::empty());
        assert(digits_value(text.drop_last()) == 0);
    } else {
        lemma_decimal_reads_back(n / 10);
        assert(text.drop_last() =~= decimal_text(n / 10));
    }
}

/// Different numbers are written differently.
pub proof fn lemma_decimal_differs(a: nat, b: nat)
    requires
        a != b,
    ensures
        decimal_text(a) != decimal_text(b),
{
    lemma_decimal_reads_back(a);
    lemma_decimal_reads_back(b);
}

/// A number that fits 32 bits, written in decimal, is read as that number.
pub proof fn lemma_decimal_is_a_number(n: nat)
    requires
        n <= u32::MAX,
    ensures
        number_of(decimal_text(n)) == Some(n as u32),
{
    lemma_decimal_reads_back(n);
    assert(is_digit(decimal_text(n)[0]));
}

fn digit_str(digit: usize) -> (text: &'static str)
    requires
        digit < 10,
    ensures
        text@ == seq![digit_char(digit as nat)],
{
    let text = if digit == 0 {
        "0"
    } else if digit == 1 {
        "1"
    } else if digit == 2 {
        "2"
    } else if digit == 3 {
        "3"
    } else if digit == 4 {
        "4"
    } else if digit == 5 {
        "5"
    } else if digit == 6 {
        "6"
    } else if digit == 7 {
        "7"
    } else if digit == 8 {
        "8"
    } else {
        "9"
    };
    proof {
        reveal_strlit("0");
        reveal_strlit("1");
        reveal_strlit("2");
        reveal_strlit("3");
        reveal_strlit("4");
        reveal_strlit("5");
        reveal_strlit("6");
        reveal_strlit("7");
        reveal_strlit("8");
        reveal_strlit("9");
        assert(text@ =~= seq![digit_char(digit as nat)]);
    }
    text
}

/// Writes `n` in decimal.
pub fn decimal(n: usize) -> (text: String)
    ensures
        text@ == decimal_text(n as nat),
    decreases n,
{
    if n < 10 {
        String::from_str(digit_str(n))
    } else {
        let mut text = decimal(n / 10);
        text.append(digit_str(n % 10));
        assert(text@ =~= decimal_text(n as nat));
        text
    }
}

} // verus!
