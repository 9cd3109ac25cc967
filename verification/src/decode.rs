//! Decoding one netstring from a [`Cursor`].

use crate::cursor::Cursor;
use crate::error::Error;
use crate::format::{decimal_value, decoded, digit_run, is_digit, scanned};
use crate::laws::{lemma_overflow, lemma_rejected};
use crate::lemmas::lemma_digit_run_ends;
use crate::step::{
    check_length, check_payload, check_terminator, lemma_scan_step, scan_byte, Scan,
};
use vstd::prelude::*;

verus! {

/// Whether the predicate `f` may give the verdict `accepted` on the length
/// that `s` announces. Where `s` announces none, `f` is not asked.
pub open spec fn answers<F: FnOnce(u64) -> bool>(f: F, s: Seq<u8>, accepted: bool) -> bool {
    match scanned(s).result {
        Ok(len) => f.ensures((len,), accepted),
        Err(_) => true,
    }
}

/// Reads the length of a netstring, up to and with its colon.
///
/// Bytes are read one by one. Each digit is appended to the length; the
/// colon ends it. A digit that takes the length beyond `u64::MAX` is
/// [`Error::Overflow`], any other byte is [`Error::Syntax`], and the end of
/// the stream is [`Error::Io`]. The cursor is left behind the last byte
/// read.
pub fn decode_len(r: &mut Cursor) -> (result: Result<u64, Error>)
    ensures
        final(r)@.bytes == old(r)@.bytes,
        result == scanned(old(r)@.remaining()).result,
        final(r)@.position == old(r)@.position + scanned(old(r)@.remaining()).consumed,
{
    let ghost input = r@.remaining();
    let ghost start = r@.position;
    proof {
        use_type_invariant(&*r);
    }
    let mut len: u64 = 0;
    loop
        invariant
            input == old(r)@.remaining(),
            start == old(r)@.position,
            r@.bytes == old(r)@.bytes,
            start <= r@.position <= r@.bytes.len(),
            forall|i: int| 0 <= i < r@.position - start ==> is_digit(#[trigger] input[i]),
            len == decimal_value(input.take(r@.position - start)),
        decreases r@.bytes.len() - r@.position,
    {
        let ghost taken = (r@.position - start) as nat;
        let byte = r.read_byte();
        proof {
            lemma_scan_step(input, taken);
        }
        match scan_byte(len, byte) {
            Scan::More(next) => {
                len = next;
            },
            Scan::Done(len) => {
                return Ok(len);
            },
            Scan::Fail(error) => {
                return Err(error);
            },
        }
    }
}

/// Decodes one netstring.
///
/// First the length is read. If the predicate `f` accepts it, that many
/// bytes of payload are appended to `buf`, and the comma after them is read.
/// The cursor is left right after the comma, and the length is returned.
///
/// Any failure ends the decoding at once, with the cursor behind the last
/// byte that was read. A length that cannot be read, or that `f` turns
/// down, leaves `buf` as it was.
pub fn decode<F: FnOnce(u64) -> bool>(r: &mut Cursor, f: F, buf: &mut Vec<u8>) -> (result: Result<
    u64,
    Error,
>)
    requires
        scanned(old(r)@.remaining()).result matches Ok(len) ==> f.requires((len,)),
    ensures
        final(r)@.bytes == old(r)@.bytes,
        exists|accepted: bool|
            {
                let whole = #[trigger] decoded(old(r)@.remaining(), accepted);
                &&& answers(f, old(r)@.remaining(), accepted)
                &&& result == whole.result
                &&& final(r)@.position == old(r)@.position + whole.consumed
                &&& final(buf)@ == old(buf)@ + whole.payload
            },
        result matches Ok(len) ==> {
            let start = digit_run(old(r)@.remaining()) as int + 1;
            &&& final(r)@.position == old(r)@.position + start + len + 1
            &&& final(buf)@ == old(buf)@ + old(r)@.remaining().subrange(start, start + len)
        },
        result matches Err(Error::Length(len)) ==> {
            &&& scanned(old(r)@.remaining()).result == Ok::<u64, Error>(len)
            &&& f.ensures((len,), false)
            &&& final(r)@.position == old(r)@.position + digit_run(old(r)@.remaining()) + 1
            &&& final(buf)@ == old(buf)@
        },
        result == Err::<u64, Error>(Error::Overflow) <==> decimal_value(
            old(r)@.remaining().take(digit_run(old(r)@.remaining()) as int),
        ) > u64::MAX,
        result == Err::<u64, Error>(Error::Overflow) ==> {
            &&& final(r)@.position <= old(r)@.position + digit_run(old(r)@.remaining())
            &&& final(buf)@ == old(buf)@
        },
{
    let ghost input = r@.remaining();
    proof {
        assert(buf@ + Seq::<u8>::empty() =~= buf@);
        lemma_digit_run_ends(input);
        lemma_rejected(input, true);
        lemma_rejected(input, false);
        lemma_overflow(input, true);
        lemma_overflow(input, false);
    }
    let len = decode_len(r)?;
    let ghost body = r@.remaining();
    proof {
        use_type_invariant(&*r);
        assert(body =~= input.skip(scanned(input).consumed as int));
        assert(body.len() >= len ==> body.take(len as int) =~= input.subrange(
            scanned(input).consumed as int,
            scanned(input).consumed + len,
        ));
    }
    check_length(len, f(len))?;
    let count = r.read_up_to(len, buf);
    proof {
        assert(body.len() <= len ==> body.take(count as int) =~= body);
        assert(r@.remaining() =~= body.skip(count as int));
    }
    check_payload(len, Some(count))?;
    check_terminator(len, r.read_byte())
}

} // verus!
