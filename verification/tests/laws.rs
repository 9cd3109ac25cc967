use garlic_netstring::{decode, decode_len, Cursor, Error};

/// The netstring of `payload`, written out by hand.
fn netstring(payload: &[u8]) -> Vec<u8> {
    let mut bytes = format!("{}:", payload.len()).into_bytes();
    bytes.extend_from_slice(payload);
    bytes.push(b',');
    bytes
}

#[test]
fn round_trip() {
    let payloads: [&[u8]; 6] = [
        b"",
        b"A",
        b":",
        b",",
        b"12:colons:and,commas,,::",
        b"0123456789 0123456789 0123456789 0123456789 0123456789 0123456789 0123456789 0123456789 0123456789 0123456789",
    ];
    for payload in payloads {
        let mut stream = netstring(payload);
        let record = stream.len() as u64;
        stream.extend_from_slice(b"7:trailer");
        let mut cursor = Cursor::new(&stream);
        let mut buf = Vec::new();
        assert_eq!(decode(&mut cursor, |_| true, &mut buf), Ok(payload.len() as u64));
        assert_eq!(buf, payload);
        assert_eq!(cursor.position(), record);
    }
}

#[test]
fn round_trip_of_every_byte() {
    let payload: Vec<u8> = (0..=255).collect();
    let stream = netstring(&payload);
    assert_eq!(&stream[..4], b"256:");
    let mut cursor = Cursor::new(&stream);
    let mut buf = Vec::new();
    assert_eq!(decode(&mut cursor, |len| len == 256, &mut buf), Ok(256));
    assert_eq!(buf, payload);
    assert_eq!(cursor.position(), 4 + 256 + 1);
}

#[test]
fn consumed_bytes() {
    // digits + colon + payload + comma
    let mut cursor = Cursor::new(b"11:hello world,and more");
    let mut buf = Vec::new();
    assert_eq!(decode(&mut cursor, |_| true, &mut buf), Ok(11));
    assert_eq!(cursor.position(), 2 + 1 + 11 + 1);

    // leading zeros are digits that are taken too
    let mut cursor = Cursor::new(b"0011:hello world,and more");
    let mut buf = Vec::new();
    assert_eq!(decode(&mut cursor, |_| true, &mut buf), Ok(11));
    assert_eq!(cursor.position(), 4 + 1 + 11 + 1);
}

#[test]
fn rejected_length_reads_no_payload() {
    let mut cursor = Cursor::new(b"13:Hello, world!,X");
    let mut buf = b"kept".to_vec();
    assert_eq!(decode(&mut cursor, |len| len <= 12, &mut buf), Err(Error::Length(13)));
    assert_eq!(buf, b"kept");
    assert_eq!(cursor.position(), 3);

    let mut cursor = Cursor::new(b"0:,");
    let mut buf = Vec::new();
    assert_eq!(decode(&mut cursor, |_| false, &mut buf), Err(Error::Length(0)));
    assert!(buf.is_empty());
    assert_eq!(cursor.position(), 2);
}

#[test]
fn rejected_length_needs_no_payload_in_the_stream() {
    let mut cursor = Cursor::new(b"18446744073709551615:");
    let mut buf = Vec::new();
    assert_eq!(
        decode(&mut cursor, |len| len < 1024, &mut buf),
        Err(Error::Length(18446744073709551615))
    );
    assert!(buf.is_empty());
    assert_eq!(cursor.position(), 21);
}

#[test]
fn overflow_is_found_in_the_length() {
    // u64::MAX + 1: the last digit overflows
    let mut cursor = Cursor::new(b"18446744073709551616:payload,");
    let mut buf = Vec::new();
    assert_eq!(decode(&mut cursor, |_| true, &mut buf), Err(Error::Overflow));
    assert!(buf.is_empty());
    assert_eq!(cursor.position(), 20);

    // the multiplication by ten overflows
    let mut cursor = Cursor::new(b"99999999999999999999999:payload,");
    assert_eq!(decode_len(&mut cursor), Err(Error::Overflow));
    assert_eq!(cursor.position(), 20);

    // twenty-one digits
    let mut cursor = Cursor::new(b"100000000000000000000:");
    assert_eq!(decode_len(&mut cursor), Err(Error::Overflow));
    assert_eq!(cursor.position(), 21);
}

#[test]
fn overflow_comes_before_the_predicate() {
    let mut asked = false;
    let mut buf = Vec::new();
    let result = decode(
        &mut Cursor::new(b"18446744073709551616:"),
        |_| {
            asked = true;
            false
        },
        &mut buf,
    );
    assert_eq!(result, Err(Error::Overflow));
    assert!(!asked);
}

#[test]
fn greatest_length_is_no_overflow() {
    let mut cursor = Cursor::new(b"18446744073709551615:");
    assert_eq!(decode_len(&mut cursor), Ok(u64::MAX));
    assert_eq!(cursor.position(), 21);

    let mut cursor = Cursor::new(b"10000000000000000000:");
    assert_eq!(decode_len(&mut cursor), Ok(10_000_000_000_000_000_000));

    let mut cursor = Cursor::new(b"000000000000000000000000000007:");
    assert_eq!(decode_len(&mut cursor), Ok(7));
    assert_eq!(cursor.position(), 31);
}

#[test]
fn greatest_length_with_short_payload_is_incomplete() {
    let mut cursor = Cursor::new(b"18446744073709551615:abc");
    let mut buf = Vec::new();
    assert_eq!(decode(&mut cursor, |_| true, &mut buf), Err(Error::Incomplete));
    assert_eq!(buf, b"abc");
}

#[test]
fn length_scanner() {
    let cases: [(&[u8], Result<u64, Error>, u64); 10] = [
        (b"", Err(Error::Io), 0),
        (b":", Ok(0), 1),
        (b"0:", Ok(0), 2),
        (b"7", Err(Error::Io), 1),
        (b"42:rest", Ok(42), 3),
        (b"042:", Ok(42), 4),
        (b"4 2:", Err(Error::Syntax), 2),
        (b"-1:", Err(Error::Syntax), 1),
        (b"+1:", Err(Error::Syntax), 1),
        (b"12,", Err(Error::Syntax), 3),
    ];
    for (input, result, position) in cases {
        let mut cursor = Cursor::new(input);
        assert_eq!(decode_len(&mut cursor), result);
        assert_eq!(cursor.position(), position);
    }
}
