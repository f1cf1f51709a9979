//! Request validation: the scoreboard identifier arrives as a path segment
//! and must be a decimal number that fits the identifier type. Anything else
//! is rejected with a `ValidationError`, never accepted and never a panic.

use vstd::prelude::*;
use vstd::string::StringSliceAdditionalSpecFns;
use crate::entry::ValidationError;

verus! {

/// An ASCII decimal digit.
pub open spec fn is_digit_byte(b: u8) -> bool {
    48 <= b <= 57
}

/// A non-empty run of decimal digits and nothing else.
pub open spec fn all_digits(s: Seq<u8>) -> bool {
    s.len() > 0 && forall|i: int| 0 <= i < s.len() ==> is_digit_byte(#[trigger] s[i])
}

/// The number a digit string denotes, most significant digit first.
pub open spec fn decimal_value(s: Seq<u8>) -> int
    decreases s.len(),
{
    if s.len() == 0 {
        0
    } else {
        decimal_value(s.drop_last()) * 10 + (s.last() - 48)
    }
}

pub proof fn lemma_decimal_value_nonneg(s: Seq<u8>)
    requires
        forall|i: int| 0 <= i < s.len() ==> is_digit_byte(#[trigger] s[i]),
    ensures
        decimal_value(s) >= 0,
    decreases s.len(),
{
    if s.len() == 0 {
    } else {
        let dl = s.drop_last();
        assert(forall|i: int| 0 <= i < dl.len() ==> is_digit_byte(#[trigger] dl[i]));
        lemma_decimal_value_nonneg(dl);
    }
}

/// Reading more digits never makes the number smaller: any prefix denotes at
/// most the whole string's value.
pub proof fn lemma_decimal_value_prefix(s: Seq<u8>, k: int)
    requires
        0 <= k <= s.len(),
        forall|i: int| 0 <= i < s.len() ==> is_digit_byte(#[trigger] s[i]),
    ensures
        decimal_value(s.take(k)) <= decimal_value(s),
    decreases s.len(),
{
    if k == s.len() {
        assert(s.take(k) =~= s);
    } else {
        let dl = s.drop_last();
        assert(forall|i: int| 0 <= i < dl.len() ==> is_digit_byte(#[trigger] dl[i]));
        assert(s.take(k) =~= dl.take(k));
        lemma_decimal_value_prefix(dl, k);
        lemma_decimal_value_nonneg(dl);
        assert(decimal_value(s) == decimal_value(dl) * 10 + (s.last() - 48));
        assert(decimal_value(dl) * 10 >= decimal_value(dl)) by {
            lemma_decimal_value_nonneg(dl);
        };
    }
}

/// Parses a scoreboard identifier. Succeeds on exactly the non-empty decimal
/// digit strings whose value fits; reports `NotANumber` on anything that is
/// not such a string, and `OutOfRange` on a number too large for the type.
pub fn parse_scoreboard_id(s: &str) -> (r: Result<u32, ValidationError>)
    ensures
        (match r {
            Ok(n) => all_digits(s.spec_bytes()) && n == decimal_value(s.spec_bytes()),
            Err(ValidationError::NotANumber) => !all_digits(s.spec_bytes()),
            Err(ValidationError::OutOfRange) => all_digits(s.spec_bytes()) && decimal_value(s.spec_bytes())
                > u32::MAX,
        }),
{
    let bytes = s.as_bytes();
    if bytes.len() == 0 {
        return Err(ValidationError::NotANumber);
    }
    let mut i: usize = 0;
    while i < bytes.len()
        invariant
            i <= bytes@.len(),
            bytes@ == s.spec_bytes(),
            forall|j: int| 0 <= j < i ==> is_digit_byte(#[trigger] bytes@[j]),
        decreases bytes@.len() - i,
    {
        let b = bytes[i];
        if b < 48 || b > 57 {
            return Err(ValidationError::NotANumber);
        }
        i = i + 1;
    }
    let mut acc: u64 = 0;
    i = 0;
    while i < bytes.len()
        invariant
            i <= bytes@.len(),
            bytes@ == s.spec_bytes(),
            all_digits(bytes@),
            acc <= u32::MAX,
            acc == decimal_value(bytes@.take(i as int)),
        decreases bytes@.len() - i,
    {
        let d = (bytes[i] - 48) as u64;
        let next = acc * 10 + d;
        proof {
            let taken = bytes@.take(i as int + 1);
            assert(taken.drop_last() =~= bytes@.take(i as int));
            assert(taken.last() == bytes@[i as int]);
            assert(decimal_value(taken) == decimal_value(bytes@.take(i as int)) * 10 + (bytes@[i as int]
                - 48));
        }
        if next > 0xffff_ffff {
            proof {
                lemma_decimal_value_prefix(bytes@, i as int + 1);
            }
            return Err(ValidationError::OutOfRange);
        }
        acc = next;
        i = i + 1;
    }
    proof {
        assert(bytes@.take(bytes@.len() as int) =~= bytes@);
    }
    Ok(acc as u32)
}

} // verus!
