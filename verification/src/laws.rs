//! What holds of every decoding, stated over the model of the format.

use crate::error::Error;
use crate::format::{
    canonical, decimal, decimal_value, decoded, digit_run, is_digit, netstring, scanned, Decoded,
    COLON, COMMA, ZERO,
};
use crate::lemmas::{
    lemma_canonical_decimal, lemma_decimal, lemma_decimal_shortest, lemma_digit_run,
    lemma_digit_run_ends, lemma_leading_zero, lemma_overflow_within, lemma_value_grows,
    lemma_value_step,
};
use vstd::prelude::*;

verus! {

/// A payload comes back from its netstring: whatever follows the netstring
/// in the stream, decoding it with a predicate that accepts gives the
/// payload's length, appends the payload, bytes equal to the colon or the
/// comma among them, and takes the netstring's bytes and no more.
pub proof fn lemma_round_trip(payload: Seq<u8>, rest: Seq<u8>)
    requires
        payload.len() <= u64::MAX,
    ensures
        decoded(netstring(payload) + rest, true) == (Decoded {
            result: Ok(payload.len() as u64),
            consumed: netstring(payload).len(),
            payload,
        }),
{
    let s = netstring(payload) + rest;
    let digits = decimal(payload.len());
    lemma_decimal(payload.len());
    assert forall|i: int| 0 <= i < digits.len() implies is_digit(#[trigger] s[i]) by {
        assert(s[i] == digits[i]);
    }
    assert(s[digits.len() as int] == COLON);
    lemma_digit_run(s, digits.len());
    assert(s.take(digits.len() as int) =~= digits);
    let body = s.skip(digits.len() as int + 1);
    assert(body =~= payload + seq![COMMA] + rest);
    assert(body.take(payload.len() as int) =~= payload);
}

/// A successful decoding takes one byte for each digit of the length, one
/// for the colon, the payload's bytes and one for the comma, and the payload
/// is what stands between the colon and the comma.
pub proof fn lemma_consumed(s: Seq<u8>, accepted: bool)
    requires
        decoded(s, accepted).result is Ok,
    ensures
        ({
            let len = decoded(s, accepted).result->Ok_0;
            let run = digit_run(s) as int;
            &&& decoded(s, accepted).consumed == run + 1 + len + 1
            &&& decoded(s, accepted).payload == s.subrange(run + 1, run + 1 + len)
        }),
{
    let run = digit_run(s) as int;
    let len = decoded(s, accepted).result->Ok_0;
    lemma_digit_run_ends(s);
    assert(s.skip(run + 1).take(len as int) =~= s.subrange(run + 1, run + 1 + len));
}

/// Where the length is in canonical form, a successful decoding takes as
/// many bytes as the length has digits in decimal, one for the colon, the
/// payload's bytes and one for the comma.
pub proof fn lemma_consumed_canonical(s: Seq<u8>, accepted: bool)
    requires
        decoded(s, accepted).result is Ok,
        canonical(s.take(digit_run(s) as int)),
    ensures
        ({
            let len = decoded(s, accepted).result->Ok_0;
            decoded(s, accepted).consumed == decimal(len as nat).len() + 1 + len + 1
        }),
{
    lemma_digit_run_ends(s);
    lemma_canonical_decimal(s.take(digit_run(s) as int));
}

/// Where the length is not in canonical form, a successful decoding takes
/// another number of bytes than [`lemma_consumed_canonical`] gives: one
/// fewer where the length has no digit, and more where it begins with a
/// zero that is not its only digit.
pub proof fn lemma_consumed_otherwise(s: Seq<u8>, accepted: bool)
    requires
        decoded(s, accepted).result is Ok,
        !canonical(s.take(digit_run(s) as int)),
    ensures
        ({
            let len = decoded(s, accepted).result->Ok_0;
            let count = decimal(len as nat).len() + 1 + len + 1;
            if digit_run(s) == 0 {
                decoded(s, accepted).consumed == count - 1
            } else {
                decoded(s, accepted).consumed > count
            }
        }),
{
    let digits = s.take(digit_run(s) as int);
    lemma_digit_run_ends(s);
    if digits.len() == 0 {
        assert(decimal_value(digits) == 0);
    } else {
        lemma_leading_zero(digits);
        lemma_decimal_shortest(digits.skip(1));
    }
}

/// What a successful decoding takes from the stream is the netstring of the
/// payload that it appends, where the length is in canonical form.
pub proof fn lemma_netstring_taken(s: Seq<u8>, accepted: bool)
    requires
        decoded(s, accepted).result is Ok,
        canonical(s.take(digit_run(s) as int)),
    ensures
        s.take(decoded(s, accepted).consumed as int) == netstring(decoded(s, accepted).payload),
{
    let run = digit_run(s) as int;
    let whole = decoded(s, accepted);
    lemma_consumed(s, accepted);
    lemma_digit_run_ends(s);
    lemma_canonical_decimal(s.take(run));
    assert(s.take(whole.consumed as int) =~= netstring(whole.payload));
}

/// A length is reported as turned down exactly where it was read and the
/// predicate did not accept it. Then nothing is appended, and the last byte
/// taken from the stream is the colon.
pub proof fn lemma_rejected(s: Seq<u8>, accepted: bool)
    ensures
        decoded(s, accepted).result matches Err(Error::Length(len)) <==> scanned(s).result is Ok
            && !accepted,
        decoded(s, accepted).result matches Err(Error::Length(len)) ==> {
            &&& scanned(s).result == Ok::<u64, Error>(len)
            &&& decoded(s, accepted).payload == Seq::<u8>::empty()
            &&& decoded(s, accepted).consumed == digit_run(s) + 1
            &&& s[digit_run(s) as int] == COLON
        },
{
}

/// An overflow is reported exactly where the digits that the stream begins
/// with spell a number too great for a `u64`, whatever the predicate would
/// say and whatever follows the digits. Then nothing is appended, and no
/// byte after the digits is taken from the stream.
pub proof fn lemma_overflow(s: Seq<u8>, accepted: bool)
    ensures
        decoded(s, accepted).result == Err::<u64, Error>(Error::Overflow) <==> decimal_value(
            s.take(digit_run(s) as int),
        ) > u64::MAX,
        decoded(s, accepted).result == Err::<u64, Error>(Error::Overflow) ==> {
            &&& decoded(s, accepted).payload == Seq::<u8>::empty()
            &&& 1 <= decoded(s, accepted).consumed <= digit_run(s)
        },
{
    lemma_digit_run_ends(s);
    if decimal_value(s.take(digit_run(s) as int)) > u64::MAX {
        lemma_overflow_within(s, 0, digit_run(s));
        assert(decimal_value(s.take(0)) == 0);
    }
}

/// A decoding takes no more bytes than the stream holds, and appends no
/// more bytes than the length says: all of them where it succeeds, and none
/// where no length was read.
pub proof fn lemma_bounds(s: Seq<u8>, accepted: bool)
    ensures
        scanned(s).consumed <= decoded(s, accepted).consumed <= s.len(),
        match scanned(s).result {
            Ok(len) => decoded(s, accepted).payload.len() <= len,
            Err(_) => decoded(s, accepted).payload.len() == 0,
        },
        decoded(s, accepted).result matches Ok(len) ==> decoded(s, accepted).payload.len() == len,
{
    lemma_digit_run_ends(s);
    if decimal_value(s.take(digit_run(s) as int)) > u64::MAX {
        lemma_overflow_within(s, 0, digit_run(s));
    }
}

/// Ten to the power of `n`.
spec fn pow10(n: nat) -> nat
    decreases n,
{
    if n == 0 {
        1
    } else {
        10 * pow10((n - 1) as nat)
    }
}

/// Behind a first digit other than zero, `n` bytes spell a number of `n`
/// decimal places at least.
proof fn lemma_value_at_least(s: Seq<u8>, n: nat)
    requires
        1 <= n <= s.len(),
        is_digit(s[0]),
        s[0] != ZERO,
    ensures
        decimal_value(s.take(n as int)) >= pow10((n - 1) as nat),
    decreases n,
{
    lemma_value_step(s, (n - 1) as nat);
    if n == 1 {
        assert(decimal_value(s.take(0)) == 0);
    } else {
        lemma_value_at_least(s, (n - 1) as nat);
    }
}

/// A length of more than twenty digits, the first of them not a zero, is
/// too great for a `u64`, and is reported as an overflow as
/// [`lemma_overflow`] says.
pub proof fn lemma_long_length(s: Seq<u8>, accepted: bool)
    requires
        digit_run(s) > 20,
        s[0] != ZERO,
    ensures
        decimal_value(s.take(digit_run(s) as int)) > u64::MAX,
        decoded(s, accepted).result == Err::<u64, Error>(Error::Overflow),
{
    lemma_digit_run_ends(s);
    lemma_value_at_least(s, 21);
    lemma_value_grows(s, 21, digit_run(s));
    assert(pow10(20) == 100_000_000_000_000_000_000) by {
        reveal_with_fuel(pow10, 21);
    }
    lemma_overflow(s, accepted);
}

} // verus!
