//! The sum of two unsigned machine words, as decimal text.

use crate::decimal::{decimal, is_numeral, lemma_decimal_denotes, numeral_value, to_decimal};
use vstd::prelude::*;

verus! {

/// Why a sum could not be written.
#[derive(Clone, Copy, Debug, PartialEq, Eq)]
pub enum SumError {
    /// The sum is larger than `usize::MAX`.
    Overflow,
}

/// What `sum_as_string` gives for `a` and `b`, the text taken as a sequence of
/// characters: the decimal numeral of `a + b` where the sum fits in a `usize`,
/// and `Overflow` where it does not.
pub open spec fn sum_text(a: usize, b: usize) -> Result<Seq<char>, SumError> {
    if a + b <= usize::MAX {
        Ok(decimal((a + b) as nat))
    } else {
        Err(SumError::Overflow)
    }
}

/// Adds `a` and `b` and writes the sum as its decimal numeral. Fails with
/// `Overflow`, and only then, when the sum does not fit in a `usize`.
pub fn sum_as_string(a: usize, b: usize) -> (r: Result<String, SumError>)
    ensures
        r is Ok <==> a + b <= usize::MAX,
        sum_text(a, b) == match r {
            Ok(text) => Ok(text@),
            Err(e) => Err(e),
        },
{
    match a.checked_add(b) {
        Some(sum) => Ok(to_decimal(sum)),
        None => Err(SumError::Overflow),
    }
}

/// The order of the two numbers does not matter: `sum_as_string(a, b)` and
/// `sum_as_string(b, a)` give the same text, or both fail with `Overflow`.
pub proof fn lemma_sum_commutes(a: usize, b: usize)
    ensures
        sum_text(a, b) == sum_text(b, a),
{
}

/// Where the sum fits in a `usize`, the text is a decimal numeral and the
/// number it denotes is `a + b`.
pub proof fn lemma_sum_denotes(a: usize, b: usize)
    requires
        a + b <= usize::MAX,
    ensures
        sum_text(a, b) matches Ok(text) && is_numeral(text) && numeral_value(text) == a + b,
{
    lemma_decimal_denotes((a + b) as nat);
}

} // verus!
