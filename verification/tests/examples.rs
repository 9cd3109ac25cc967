use garlic_netstring::{decode, Cursor, Error};

#[test]
fn test_examples() {
    let examples: &[(&[u8], Option<(&[u8], u64)>)] = &[
        // Erroneous examples.
        (b"", None),
        (b"1:A", None),
        (b"1:AB,", None),
        (b"1:,", None),
        (b"A:1,", None),
        // Valid examples.
        (b"0:,", Some((b"", 3))),
        (b"1:A,", Some((b"A", 4))),
        (b"1:A,B", Some((b"A", 4))),
        (b"2:AB,", Some((b"AB", 5))),
        (b"2:AB,C", Some((b"AB", 5))),
        (b"13:Hello, world!,X", Some((b"Hello, world!", 17))),
    ];

    for &(input, expected) in examples {
        let mut cursor = Cursor::new(input);
        let mut actual = Vec::new();
        let result = decode(&mut cursor, |_| true, &mut actual);
        match expected {
            None => assert!(result.is_err()),
            Some((expected_payload, expected_position)) => {
                assert_eq!(actual, expected_payload);
                assert_eq!(cursor.position(), expected_position);
            },
        }
    }
}

/// Decodes `input` with a predicate that accepts every length, and gives
/// the result, the payload and the cursor's position.
fn run(input: &[u8]) -> (Result<u64, Error>, Vec<u8>, u64) {
    let mut cursor = Cursor::new(input);
    let mut payload = Vec::new();
    let result = decode(&mut cursor, |_| true, &mut payload);
    (result, payload, cursor.position())
}

#[test]
fn empty_stream_is_io() {
    assert_eq!(run(b""), (Err(Error::Io), vec![], 0));
}

#[test]
fn missing_terminator_is_io() {
    assert_eq!(run(b"1:A"), (Err(Error::Io), b"A".to_vec(), 3));
}

#[test]
fn wrong_terminator_is_syntax() {
    assert_eq!(run(b"1:AB,"), (Err(Error::Syntax), b"A".to_vec(), 4));
}

#[test]
fn comma_taken_as_payload_leaves_no_terminator() {
    assert_eq!(run(b"1:,"), (Err(Error::Io), b",".to_vec(), 3));
}

#[test]
fn letter_before_colon_is_syntax() {
    assert_eq!(run(b"A:1,"), (Err(Error::Syntax), vec![], 1));
}

#[test]
fn letter_after_digits_is_syntax() {
    assert_eq!(run(b"12x:"), (Err(Error::Syntax), vec![], 3));
}

#[test]
fn stream_ending_in_the_length_is_io() {
    assert_eq!(run(b"12"), (Err(Error::Io), vec![], 2));
}

#[test]
fn short_payload_is_incomplete() {
    assert_eq!(run(b"5:abc"), (Err(Error::Incomplete), b"abc".to_vec(), 5));
    assert_eq!(run(b"1:"), (Err(Error::Incomplete), vec![], 2));
}

#[test]
fn empty_payload() {
    assert_eq!(run(b"0:,"), (Ok(0), vec![], 3));
}

#[test]
fn one_byte_payload() {
    assert_eq!(run(b"1:A,"), (Ok(1), b"A".to_vec(), 4));
}

#[test]
fn trailing_bytes_are_left_unread() {
    assert_eq!(run(b"1:A,B"), (Ok(1), b"A".to_vec(), 4));
    assert_eq!(run(b"2:AB,C"), (Ok(2), b"AB".to_vec(), 5));
}

#[test]
fn commas_in_the_payload_do_not_end_it() {
    assert_eq!(run(b"13:Hello, world!,X"), (Ok(13), b"Hello, world!".to_vec(), 17));
}

#[test]
fn colons_in_the_payload_are_payload() {
    assert_eq!(run(b"3:::,,"), (Ok(3), b"::,".to_vec(), 6));
    assert_eq!(run(b"3:a:b,"), (Ok(3), b"a:b".to_vec(), 6));
}

#[test]
fn no_digits_announce_zero() {
    assert_eq!(run(b":,"), (Ok(0), vec![], 2));
}

#[test]
fn leading_zeros_are_read() {
    assert_eq!(run(b"002:hi,"), (Ok(2), b"hi".to_vec(), 7));
}

#[test]
fn payload_is_appended_to_the_buffer() {
    let mut cursor = Cursor::new(b"3:abc,");
    let mut buf = b"xy".to_vec();
    assert_eq!(decode(&mut cursor, |_| true, &mut buf), Ok(3));
    assert_eq!(buf, b"xyabc");
}

#[test]
fn partial_payload_is_appended_too() {
    let mut cursor = Cursor::new(b"9:abc");
    let mut buf = b"xy".to_vec();
    assert_eq!(decode(&mut cursor, |_| true, &mut buf), Err(Error::Incomplete));
    assert_eq!(buf, b"xyabc");
    assert_eq!(cursor.position(), 5);
}

#[test]
fn records_decode_back_to_back() {
    let mut cursor = Cursor::new(b"2:ab,0:,3:c,d,rest");
    let mut buf = Vec::new();
    assert_eq!(decode(&mut cursor, |_| true, &mut buf), Ok(2));
    assert_eq!(cursor.position(), 5);
    assert_eq!(decode(&mut cursor, |_| true, &mut buf), Ok(0));
    assert_eq!(cursor.position(), 8);
    assert_eq!(decode(&mut cursor, |_| true, &mut buf), Ok(3));
    assert_eq!(cursor.position(), 14);
    assert_eq!(buf, b"abc,d");
    assert_eq!(decode(&mut cursor, |_| true, &mut buf), Err(Error::Syntax));
    assert_eq!(cursor.position(), 15);
}

#[test]
fn predicate_sees_the_length() {
    let mut cursor = Cursor::new(b"13:Hello, world!,");
    let mut buf = Vec::new();
    let mut seen = None;
    let result = decode(
        &mut cursor,
        |len| {
            seen = Some(len);
            true
        },
        &mut buf,
    );
    assert_eq!(result, Ok(13));
    assert_eq!(seen, Some(13));
}

#[test]
fn predicate_is_not_asked_without_a_length() {
    let mut asked = false;
    let mut buf = Vec::new();
    let result = decode(
        &mut Cursor::new(b"1x:"),
        |_| {
            asked = true;
            true
        },
        &mut buf,
    );
    assert_eq!(result, Err(Error::Syntax));
    assert!(!asked);
}
