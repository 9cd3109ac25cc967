//! What the decoder decides after each read. The decisions need no stream:
//! whoever does the reading hands them what was read, or `None` where the
//! stream failed to give what was asked of it.

use crate::error::Error;
use crate::format::{
    byte_at, decimal_value, digit_run, digit_value, is_digit, scanned, Scanned, COLON, COMMA,
    NINE, ZERO,
};
use crate::lemmas::{
    lemma_digit_run, lemma_digit_run_ends, lemma_overflow_from, lemma_value_grows,
    lemma_value_step,
};
use vstd::prelude::*;

verus! {

/// How the reading of a length goes on after one more read.
#[derive(Debug, Clone, Copy, PartialEq, Eq, Structural)]
pub enum Scan {
    /// A digit was read; the length so far is given, and another byte is to
    /// be read.
    More(u64),
    /// The colon was read; the length is given.
    Done(u64),
    /// The reading ended with an error.
    Fail(Error),
}

/// What a read makes of the length `len` read so far.
pub open spec fn scan_step(len: u64, byte: Option<u8>) -> Scan {
    match byte {
        None => Scan::Fail(Error::Io),
        Some(byte) => if is_digit(byte) {
            if 10 * len + digit_value(byte) <= u64::MAX {
                Scan::More((10 * len + digit_value(byte)) as u64)
            } else {
                Scan::Fail(Error::Overflow)
            }
        } else if byte == COLON {
            Scan::Done(len)
        } else {
            Scan::Fail(Error::Syntax)
        },
    }
}

/// Reading a length step by step arrives at what [`scanned`] says of the
/// stream. After `n` digits of `s` that spell a number within `u64`, the
/// step on the next byte either goes on, with one digit more that still
/// spell a number within `u64`, or ends the reading as the whole of `s`
/// has it end.
pub proof fn lemma_scan_step(s: Seq<u8>, n: nat)
    requires
        n <= s.len(),
        forall|i: int| 0 <= i < n ==> is_digit(#[trigger] s[i]),
        decimal_value(s.take(n as int)) <= u64::MAX,
    ensures
        match scan_step(decimal_value(s.take(n as int)) as u64, byte_at(s, n)) {
            Scan::More(len) => {
                &&& n < s.len()
                &&& is_digit(s[n as int])
                &&& len == decimal_value(s.take(n as int + 1))
            },
            Scan::Done(len) => scanned(s) == (Scanned { result: Ok(len), consumed: n + 1 }),
            Scan::Fail(error) => scanned(s) == (Scanned {
                result: Err(error),
                consumed: if n < s.len() {
                    n + 1
                } else {
                    n
                },
            }),
        },
{
    lemma_digit_run_ends(s);
    if n < s.len() && is_digit(s[n as int]) {
        lemma_value_step(s, n);
        lemma_digit_run(s, n + 1);
        if decimal_value(s.take(n as int + 1)) > u64::MAX {
            lemma_value_grows(s, n + 1, digit_run(s));
            lemma_overflow_from(s, 0, n + 1);
        }
    } else {
        lemma_digit_run(s, n);
    }
}

/// Takes one more byte of a length of which the digits read so far spell
/// `len`. A digit is appended to the length, unless the length would then
/// exceed `u64::MAX`, which is [`Error::Overflow`]; a colon ends the
/// length; any other byte is [`Error::Syntax`], and no byte is [`Error::Io`].
pub fn scan_byte(len: u64, byte: Option<u8>) -> (next: Scan)
    ensures
        next == scan_step(len, byte),
{
    let byte = match byte {
        Some(byte) => byte,
        None => return Scan::Fail(Error::Io),
    };
    if ZERO <= byte && byte <= NINE {
        let digit = byte - ZERO;
        match len.checked_mul(10) {
            None => Scan::Fail(Error::Overflow),
            Some(tens) => match tens.checked_add(digit as u64) {
                None => Scan::Fail(Error::Overflow),
                Some(next) => Scan::More(next),
            },
        }
    } else if byte == COLON {
        Scan::Done(len)
    } else {
        Scan::Fail(Error::Syntax)
    }
}

/// Passes the length `len` on where the caller's predicate `accepted` it,
/// and reports it as [`Error::Length`] where not.
pub fn check_length(len: u64, accepted: bool) -> (result: Result<u64, Error>)
    ensures
        result == if accepted {
            Ok::<u64, Error>(len)
        } else {
            Err(Error::Length(len))
        },
{
    if accepted {
        Ok(len)
    } else {
        Err(Error::Length(len))
    }
}

/// Holds the `count` of payload bytes that the stream gave, when asked for
/// `len` at most, against the length `len`: any other count is
/// [`Error::Incomplete`], and no count is [`Error::Io`].
pub fn check_payload(len: u64, count: Option<u64>) -> (result: Result<u64, Error>)
    ensures
        result == match count {
            None => Err::<u64, Error>(Error::Io),
            Some(count) => if count == len {
                Ok(len)
            } else {
                Err(Error::Incomplete)
            },
        },
{
    match count {
        None => Err(Error::Io),
        Some(count) => if count == len {
            Ok(len)
        } else {
            Err(Error::Incomplete)
        },
    }
}

/// Holds the byte read after the payload against the comma: any other byte
/// is [`Error::Syntax`], and no byte is [`Error::Io`]. With the comma the
/// record of length `len` is whole.
pub fn check_terminator(len: u64, byte: Option<u8>) -> (result: Result<u64, Error>)
    ensures
        result == match byte {
            None => Err::<u64, Error>(Error::Io),
            Some(byte) => if byte == COMMA {
                Ok(len)
            } else {
                Err(Error::Syntax)
            },
        },
{
    match byte {
        None => Err(Error::Io),
        Some(byte) => if byte == COMMA {
            Ok(len)
        } else {
            Err(Error::Syntax)
        },
    }
}

} // verus!
