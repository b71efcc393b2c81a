//! Decimal numerals: the text that stands for a natural number in base ten.

use vstd::prelude::*;
use vstd::string::*;

verus! {

/// The character that stands for the digit `d`.
pub open spec fn digit_char(d: nat) -> char
    recommends
        d < 10,
{
    seq!['0', '1', '2', '3', '4', '5', '6', '7', '8', '9'][d as int]
}

/// The decimal numeral of `n`: its digits from the most significant to the
/// least, with no leading zero, and the single digit `0` for zero.
pub open spec fn decimal(n: nat) -> Seq<char>
    decreases n,
{
    if n < 10 {
        seq![digit_char(n)]
    } else {
        decimal(n / 10).push(digit_char(n % 10))
    }
}

/// Whether `c` is one of the ten digit characters.
pub open spec fn is_digit(c: char) -> bool {
    '0' <= c <= '9'
}

/// The number that the digit character `c` stands for.
pub open spec fn digit_value(c: char) -> nat
    recommends
        is_digit(c),
{
    (c as int - '0' as int) as nat
}

/// Whether `text` is a decimal numeral: one digit at least, digits only, and
/// no zero in front of another digit.
pub open spec fn is_numeral(text: Seq<char>) -> bool {
    &&& text.len() > 0
    &&& forall|i: int| 0 <= i < text.len() ==> is_digit(#[trigger] text[i])
    &&& text.len() > 1 ==> text[0] != '0'
}

/// The number that a run of digits denotes in base ten: each digit counts ten
/// times what its right neighbour counts.
pub open spec fn numeral_value(text: Seq<char>) -> nat
    decreases text.len(),
{
    if text.len() == 0 {
        0
    } else {
        10 * numeral_value(text.drop_last()) + digit_value(text.last())
    }
}

/// Digits and digit characters answer each other: `digit_char` gives a digit
/// character that stands for the digit it was made from, and zero alone gives
/// the character `0`.
pub proof fn lemma_digit_char_value(d: nat)
    requires
        d < 10,
    ensures
        is_digit(digit_char(d)),
        digit_value(digit_char(d)) == d,
        digit_char(d) == '0' <==> d == 0,
{
}

/// Every digit character is the character of the digit it stands for.
pub proof fn lemma_digit_value_char(c: char)
    requires
        is_digit(c),
    ensures
        digit_value(c) < 10,
        digit_char(digit_value(c)) == c,
{
}

/// The text that `decimal` gives is a decimal numeral, and it denotes the
/// number it was made from.
pub proof fn lemma_decimal_denotes(n: nat)
    ensures
        is_numeral(decimal(n)),
        numeral_value(decimal(n)) == n,
    decreases n,
{
    lemma_digit_char_value(n % 10);
    if n < 10 {
        // One digit, with nothing in front of it.
        assert(numeral_value(decimal(n).drop_last()) == 0);
    } else {
        let front = decimal(n / 10);
        lemma_decimal_denotes(n / 10);
        assert(decimal(n).drop_last() =~= front);
        if front.len() == 1 {
            // A lone `0` in front would denote zero, and `n / 10` is not zero.
            assert(numeral_value(front.drop_last()) == 0);
        }
    }
}

/// A decimal numeral is the text that `decimal` gives for the number it
/// denotes: no number has two numerals.
pub proof fn lemma_numeral_is_decimal(text: Seq<char>)
    requires
        is_numeral(text),
    ensures
        decimal(numeral_value(text)) == text,
    decreases text.len(),
{
    let front = text.drop_last();
    lemma_digit_value_char(text.last());
    if text.len() == 1 {
        assert(numeral_value(front) == 0);
    } else {
        lemma_numeral_is_decimal(front);
        // The digits in front do not begin with `0`, so they denote a number
        // other than zero, and the whole numeral denotes ten at least.
        assert(decimal(0)[0] == '0');
        assert(numeral_value(front) != 0);
        assert(decimal(numeral_value(text)) =~= front.push(text.last()));
    }
}

/// The text of a run of digits that is held least significant digit first.
spec fn text_of(digits: Seq<u8>) -> Seq<char>
    decreases digits.len(),
{
    if digits.len() == 0 {
        Seq::empty()
    } else {
        seq![digit_char(digits.last() as nat)] + text_of(digits.drop_last())
    }
}

/// The one-character text of the digit `d`.
fn digit_str(d: u8) -> (s: &'static str)
    requires
        d < 10,
    ensures
        s@ == seq![digit_char(d as nat)],
{
    let s = match d {
        0 => "0",
        1 => "1",
        2 => "2",
        3 => "3",
        4 => "4",
        5 => "5",
        6 => "6",
        7 => "7",
        8 => "8",
        _ => "9",
    };
    proof {
        reveal_strlit("0");
        reveal_strlit("1");
        reveal_strlit("2");
        reveal_strlit("3");
        reveal_strlit("4");
        reveal_strlit("5");
        reveal_strlit("6");
        reveal_strlit("7");
        reveal_strlit("8");
        reveal_strlit("9");
    }
    s
}

/// Putting one more digit in front of the text of `digits`.
proof fn lemma_text_of_push(digits: Seq<u8>, d: u8)
    ensures
        text_of(digits.push(d)) == seq![digit_char(d as nat)] + text_of(digits),
{
    assert(digits.push(d).drop_last() =~= digits);
}

/// Writes `n` as its decimal numeral.
pub fn to_decimal(n: usize) -> (text: String)
    ensures
        text@ == decimal(n as nat),
{
    // The digits of `n`, least significant first.
    let mut digits: Vec<u8> = Vec::new();
    let mut rest: usize = n;
    while rest >= 10
        invariant
            decimal(n as nat) == decimal(rest as nat) + text_of(digits@),
            forall|k: int| 0 <= k < digits.len() ==> digits[k] < 10,
        decreases rest,
    {
        let d: u8 = (rest % 10) as u8;
        proof {
            lemma_text_of_push(digits@, d);
            assert(decimal((rest / 10) as nat) + text_of(digits@.push(d)) =~= decimal(rest as nat)
                + text_of(digits@));
        }
        digits.push(d);
        rest = rest / 10;
    }
    proof {
        lemma_text_of_push(digits@, rest as u8);
    }
    digits.push(rest as u8);

    let mut text = String::new();
    let mut i: usize = digits.len();
    proof {
        assert(digits@.take(i as int) =~= digits@);
    }
    while i > 0
        invariant
            i <= digits.len(),
            text@ + text_of(digits@.take(i as int)) == text_of(digits@),
            forall|k: int| 0 <= k < digits.len() ==> digits[k] < 10,
        decreases i,
    {
        i = i - 1;
        proof {
            lemma_text_of_push(digits@.take(i as int), digits[i as int]);
            assert(digits@.take(i as int).push(digits[i as int]) =~= digits@.take(i + 1));
            assert(text@ + seq![digit_char(digits[i as int] as nat)] + text_of(
                digits@.take(i as int),
            ) =~= text@ + text_of(digits@.take(i + 1)));
        }
        text.append(digit_str(digits[i]));
    }
    text
}

} // verus!
