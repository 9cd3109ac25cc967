//! Facts about the digits of a length, on which the decoder's proofs rest.

use crate::format::{
    canonical, decimal, decimal_value, digit_run, digit_value, is_digit, overflow_from, ZERO,
};
use vstd::prelude::*;

verus! {

/// A longer prefix of `s` spells no smaller a number.
pub proof fn lemma_value_grows(s: Seq<u8>, shorter: nat, longer: nat)
    requires
        shorter <= longer <= s.len(),
    ensures
        decimal_value(s.take(shorter as int)) <= decimal_value(s.take(longer as int)),
    decreases longer,
{
    if shorter < longer {
        lemma_value_step(s, (longer - 1) as nat);
        lemma_value_grows(s, shorter, (longer - 1) as nat);
    }
}

/// One more byte multiplies the number spelled so far by ten and adds the
/// byte's digit.
pub proof fn lemma_value_step(s: Seq<u8>, n: nat)
    requires
        n < s.len(),
    ensures
        decimal_value(s.take(n as int + 1)) == 10 * decimal_value(s.take(n as int))
            + digit_value(s[n as int]),
{
    assert(s.take(n as int + 1).drop_last() =~= s.take(n as int));
}

/// Where the first `n` bytes of `s` are digits, the digits that `s` begins
/// with are at least `n`, and exactly `n` where no digit follows them.
pub proof fn lemma_digit_run(s: Seq<u8>, n: nat)
    requires
        n <= s.len(),
        forall|i: int| 0 <= i < n ==> is_digit(#[trigger] s[i]),
    ensures
        digit_run(s) >= n,
        n == s.len() || !is_digit(s[n as int]) ==> digit_run(s) == n,
    decreases n,
{
    if n > 0 {
        let tail = s.skip(1);
        assert forall|i: int| 0 <= i < n - 1 implies is_digit(#[trigger] tail[i]) by {
            assert(tail[i] == s[i + 1]);
        }
        lemma_digit_run(tail, (n - 1) as nat);
    }
}

/// The digits that `s` begins with are digits, and the byte after them is
/// none.
pub proof fn lemma_digit_run_ends(s: Seq<u8>)
    ensures
        digit_run(s) <= s.len(),
        forall|i: int| 0 <= i < digit_run(s) ==> is_digit(#[trigger] s[i]),
        digit_run(s) < s.len() ==> !is_digit(s[digit_run(s) as int]),
    decreases s.len(),
{
    if s.len() > 0 && is_digit(s[0]) {
        let tail = s.skip(1);
        lemma_digit_run_ends(tail);
        assert forall|i: int| 0 <= i < digit_run(s) implies is_digit(#[trigger] s[i]) by {
            if i > 0 {
                assert(s[i] == tail[i - 1]);
            }
        }
        if digit_run(s) < s.len() {
            assert(s[digit_run(s) as int] == tail[digit_run(tail) as int]);
        }
    }
}

/// Where the first `n` bytes of `s` spell a number beyond `u64::MAX` and one
/// byte fewer does not, the search for such a prefix ends at `n`, from
/// wherever below it started.
pub proof fn lemma_overflow_from(s: Seq<u8>, from: nat, n: nat)
    requires
        from <= n <= s.len(),
        n > 0,
        decimal_value(s.take(n as int)) > u64::MAX,
        decimal_value(s.take(n - 1)) <= u64::MAX,
    ensures
        overflow_from(s, from) == n,
    decreases n - from,
{
    if from < n {
        lemma_value_grows(s, from, (n - 1) as nat);
        lemma_overflow_from(s, from + 1, n);
    }
}

/// The search for a prefix that spells a number beyond `u64::MAX` ends within
/// any such prefix, at the shortest one.
pub proof fn lemma_overflow_within(s: Seq<u8>, from: nat, n: nat)
    requires
        from <= n <= s.len(),
        decimal_value(s.take(n as int)) > u64::MAX,
    ensures
        from <= overflow_from(s, from) <= n,
        decimal_value(s.take(overflow_from(s, from) as int)) > u64::MAX,
        forall|m: nat|
            from <= m < overflow_from(s, from) ==> decimal_value(#[trigger] s.take(m as int))
                <= u64::MAX,
    decreases n - from,
{
    if from < n && decimal_value(s.take(from as int)) <= u64::MAX {
        lemma_overflow_within(s, from + 1, n);
    }
}

/// [`decimal`] writes digits only, at least one and in canonical form, and
/// they spell the number written.
pub proof fn lemma_decimal(n: nat)
    ensures
        canonical(decimal(n)),
        forall|i: int| 0 <= i < decimal(n).len() ==> is_digit(#[trigger] decimal(n)[i]),
        decimal_value(decimal(n)) == n,
    decreases n,
{
    let digits = decimal(n);
    assert(decimal_value(Seq::<u8>::empty()) == 0);
    if n < 10 {
        assert(digits.drop_last() =~= Seq::<u8>::empty());
    } else {
        let front = decimal(n / 10);
        lemma_decimal(n / 10);
        assert(digits.drop_last() =~= front);
        assert(digits[0] == front[0]);
        if front.len() == 1 {
            assert(front.drop_last() =~= Seq::<u8>::empty());
        }
    }
}

/// Digits that begin with a digit other than zero spell a number other than
/// zero.
pub proof fn lemma_value_positive(digits: Seq<u8>)
    requires
        digits.len() >= 1,
        is_digit(digits[0]),
        digits[0] != ZERO,
    ensures
        decimal_value(digits) >= 1,
{
    lemma_value_grows(digits, 1, digits.len());
    assert(digits.take(digits.len() as int) =~= digits);
    assert(digits.take(1).drop_last() =~= Seq::<u8>::empty());
    assert(decimal_value(Seq::<u8>::empty()) == 0);
}

/// Digits in canonical form are what [`decimal`] writes for the number that
/// they spell.
pub proof fn lemma_canonical_decimal(digits: Seq<u8>)
    requires
        canonical(digits),
        forall|i: int| 0 <= i < digits.len() ==> is_digit(#[trigger] digits[i]),
    ensures
        decimal(decimal_value(digits)) == digits,
    decreases digits.len(),
{
    let front = digits.drop_last();
    if digits.len() == 1 {
        assert(front =~= Seq::<u8>::empty());
        assert(decimal_value(Seq::<u8>::empty()) == 0);
        assert(decimal(decimal_value(digits)) =~= digits);
    } else {
        assert(front[0] == digits[0]);
        lemma_canonical_decimal(front);
        lemma_value_positive(front);
        let value = decimal_value(digits);
        assert(value / 10 == decimal_value(front));
        assert(value % 10 == digit_value(digits.last()));
        assert(decimal(value) =~= digits);
    }
}

/// A zero in front of digits does not change the number that they spell.
pub proof fn lemma_leading_zero(digits: Seq<u8>)
    requires
        digits.len() >= 1,
        digits[0] == ZERO,
    ensures
        decimal_value(digits) == decimal_value(digits.skip(1)),
    decreases digits.len(),
{
    let front = digits.drop_last();
    if digits.len() == 1 {
        assert(front =~= digits.skip(1));
    } else {
        lemma_leading_zero(front);
        assert(digits.skip(1).drop_last() =~= front.skip(1));
    }
}

/// A number has no more digits in decimal than any digits that spell it.
pub proof fn lemma_decimal_shortest(digits: Seq<u8>)
    requires
        digits.len() >= 1,
    ensures
        decimal(decimal_value(digits)).len() <= digits.len(),
    decreases digits.len(),
{
    let front = digits.drop_last();
    let value = decimal_value(digits);
    if value >= 10 {
        assert(decimal_value(Seq::<u8>::empty()) == 0);
        assert(value / 10 == decimal_value(front));
        lemma_decimal_shortest(front);
    }
}

} // verus!
