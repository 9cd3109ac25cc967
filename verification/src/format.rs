//! The wire format `<length>:<payload>,` as a mathematical model: what a
//! decoder makes of a sequence of bytes, and which bytes stand for a payload.

use crate::error::Error;
use vstd::prelude::*;

verus! {

/// The byte `:` that ends the length.
pub const COLON: u8 = 0x3a;

/// The byte `,` that ends the record.
pub const COMMA: u8 = 0x2c;

/// The byte `0`, the least decimal digit.
pub const ZERO: u8 = 0x30;

/// The byte `9`, the greatest decimal digit.
pub const NINE: u8 = 0x39;

/// What a read gives after `n` bytes of the stream `s` have been read: the
/// next byte, or `None` at the end of the stream.
pub open spec fn byte_at(s: Seq<u8>, n: nat) -> Option<u8> {
    if n < s.len() {
        Some(s[n as int])
    } else {
        None
    }
}

/// Whether `byte` is an ASCII decimal digit.
pub open spec fn is_digit(byte: u8) -> bool {
    ZERO <= byte <= NINE
}

/// The number that a digit stands for; 0 for any other byte.
pub open spec fn digit_value(byte: u8) -> nat {
    if is_digit(byte) {
        (byte - ZERO) as nat
    } else {
        0
    }
}

/// The number that `digits` spell in decimal, most significant digit first.
/// No digits spell 0.
pub open spec fn decimal_value(digits: Seq<u8>) -> nat
    decreases digits.len(),
{
    if digits.len() == 0 {
        0
    } else {
        10 * decimal_value(digits.drop_last()) + digit_value(digits.last())
    }
}

/// How many decimal digits `s` begins with.
pub open spec fn digit_run(s: Seq<u8>) -> nat
    decreases s.len(),
{
    if s.len() > 0 && is_digit(s[0]) {
        1 + digit_run(s.skip(1))
    } else {
        0
    }
}

/// The least `n >= from` for which the first `n` bytes of `s` spell a number
/// greater than `u64::MAX`; the length of `s` where there is none.
pub open spec fn overflow_from(s: Seq<u8>, from: nat) -> nat
    decreases s.len() - from,
{
    if from >= s.len() || decimal_value(s.take(from as int)) > u64::MAX {
        from
    } else {
        overflow_from(s, from + 1)
    }
}

/// What reading a length from the front of a stream comes to.
pub struct Scanned {
    /// The length, or why there is none.
    pub result: Result<u64, Error>,
    /// How many bytes were taken from the stream.
    pub consumed: nat,
}

/// The length read from the front of `s`.
///
/// The length is the number spelled by the digits that `s` begins with, 0
/// where it begins with none. Reading stops with the first digit that takes
/// the number beyond `u64::MAX`; else at the end of `s`, where no byte
/// follows the digits; else with the byte after the digits, which is taken
/// too and must be a colon.
pub open spec fn scanned(s: Seq<u8>) -> Scanned {
    let run = digit_run(s);
    let value = decimal_value(s.take(run as int));
    if value > u64::MAX {
        Scanned { result: Err(Error::Overflow), consumed: overflow_from(s, 0) }
    } else if run == s.len() {
        Scanned { result: Err(Error::Io), consumed: run }
    } else if s[run as int] == COLON {
        Scanned { result: Ok(value as u64), consumed: run + 1 }
    } else {
        Scanned { result: Err(Error::Syntax), consumed: run + 1 }
    }
}

/// What decoding one record from the front of a stream comes to.
pub struct Decoded {
    /// The length of the record, or why there is none.
    pub result: Result<u64, Error>,
    /// How many bytes were taken from the stream.
    pub consumed: nat,
    /// The bytes appended to the payload buffer.
    pub payload: Seq<u8>,
}

/// The record decoded from the front of `s`, where `accepted` is the caller's
/// verdict on the length that `s` announces.
///
/// A length that cannot be read, or that the caller turns down, ends the
/// decoding with nothing taken beyond the length and nothing appended. Else
/// as many bytes as the length says are taken as payload and appended, or
/// all that are left where they are fewer; the byte after a whole payload is
/// taken too and must be a comma.
pub open spec fn decoded(s: Seq<u8>, accepted: bool) -> Decoded {
    let head = scanned(s);
    match head.result {
        Err(error) => Decoded { result: Err(error), consumed: head.consumed, payload: Seq::empty() },
        Ok(len) => {
            let body = s.skip(head.consumed as int);
            if !accepted {
                Decoded {
                    result: Err(Error::Length(len)),
                    consumed: head.consumed,
                    payload: Seq::empty(),
                }
            } else if body.len() < len {
                Decoded { result: Err(Error::Incomplete), consumed: s.len(), payload: body }
            } else if body.len() == len {
                Decoded { result: Err(Error::Io), consumed: s.len(), payload: body }
            } else if body[len as int] != COMMA {
                Decoded {
                    result: Err(Error::Syntax),
                    consumed: (head.consumed + len + 1) as nat,
                    payload: body.take(len as int),
                }
            } else {
                Decoded {
                    result: Ok(len),
                    consumed: (head.consumed + len + 1) as nat,
                    payload: body.take(len as int),
                }
            }
        },
    }
}

/// The decimal digits of `n`, most significant first, with no leading zero;
/// the single digit `0` for 0.
pub open spec fn decimal(n: nat) -> Seq<u8>
    decreases n,
{
    if n < 10 {
        seq![(ZERO + n) as u8]
    } else {
        decimal(n / 10).push((ZERO + n % 10) as u8)
    }
}

/// The netstring that holds `payload`.
pub open spec fn netstring(payload: Seq<u8>) -> Seq<u8> {
    decimal(payload.len()) + seq![COLON] + payload + seq![COMMA]
}

/// Whether `digits` is written as [`decimal`] writes a number: at least one
/// digit, and no zero before another digit.
pub open spec fn canonical(digits: Seq<u8>) -> bool {
    digits.len() >= 1 && (digits[0] != ZERO || digits.len() == 1)
}

} // verus!
