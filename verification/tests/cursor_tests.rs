use cursor::{byte, integer, parse_i64, parse_u64, size, slice, Cursor, CursorError};

#[test]
fn byte_reads_in_order_then_fails() {
    let data: [u8; 2] = [1, 2];
    let mut src = Cursor::new(&data);

    assert_eq!(byte(&mut src), Ok(1));
    assert_eq!(src.position(), 1);
    assert_eq!(byte(&mut src), Ok(2));
    assert_eq!(src.position(), 2);
    assert_eq!(byte(&mut src), Err(CursorError::Incomplete));
    assert_eq!(src.position(), 2);
}

#[test]
fn byte_on_empty_slice_fails() {
    let data: [u8; 0] = [];
    let mut src = Cursor::new(&data);
    assert_eq!(byte(&mut src), Err(CursorError::Incomplete));
    assert_eq!(src.position(), 0);
}

#[test]
fn slice_reads_consecutive_chunks() {
    let data = "Hello, world!".as_bytes();
    let mut src = Cursor::new(data);

    assert_eq!(slice(&mut src, 5), Ok("Hello".as_bytes()));
    assert_eq!(src.position(), 5);
    assert_eq!(slice(&mut src, 5), Ok(", wor".as_bytes()));
    assert_eq!(src.position(), 10);
}

#[test]
fn slice_too_long_fails_without_moving() {
    let data = "Hello, world!".as_bytes();
    let mut src = Cursor::new(data);

    assert_eq!(slice(&mut src, 20), Err(CursorError::Incomplete));
    assert_eq!(src.position(), 0);
    assert_eq!(slice(&mut src, 13), Ok("Hello, world!".as_bytes()));
    assert_eq!(src.position(), 13);
}

#[test]
fn slice_of_zero_length_succeeds_anywhere() {
    let data = "ab".as_bytes();
    let mut src = Cursor::new(data);
    assert_eq!(slice(&mut src, 2), Ok("ab".as_bytes()));
    assert_eq!(slice(&mut src, 0), Ok("".as_bytes()));
    assert_eq!(src.position(), 2);
}

#[test]
fn line_returns_bytes_before_terminator() {
    let data = "Hello, world!\r\n".as_bytes();
    let mut src = Cursor::new(data);

    assert_eq!(cursor::line(&mut src), Ok("Hello, world!".as_bytes()));
    assert_eq!(src.position(), 15);
}

#[test]
fn line_without_terminator_fails_with_count() {
    let data = "Hello, world!".as_bytes();
    let mut src = Cursor::new(data);

    assert_eq!(cursor::line(&mut src), Err(CursorError::Unterminated(13)));
    assert_eq!(src.position(), 0);
}

#[test]
fn line_stops_at_first_terminator() {
    let data = "a\r\nb\r\n".as_bytes();
    let mut src = Cursor::new(data);

    assert_eq!(cursor::line(&mut src), Ok("a".as_bytes()));
    assert_eq!(src.position(), 3);
    assert_eq!(cursor::line(&mut src), Ok("b".as_bytes()));
    assert_eq!(src.position(), 6);
    assert_eq!(cursor::line(&mut src), Err(CursorError::Unterminated(0)));
}

#[test]
fn line_keeps_lone_carriage_returns() {
    let data = "a\rb\r\nrest".as_bytes();
    let mut src = Cursor::new(data);

    assert_eq!(cursor::line(&mut src), Ok("a\rb".as_bytes()));
    assert_eq!(src.position(), 5);
}

#[test]
fn line_may_be_empty() {
    let data = "\r\ntail".as_bytes();
    let mut src = Cursor::new(data);

    assert_eq!(cursor::line(&mut src), Ok("".as_bytes()));
    assert_eq!(src.position(), 2);
}

#[test]
fn size_reads_decimal_line() {
    let mut src = Cursor::new("100\r\n".as_bytes());
    assert_eq!(size(&mut src), Ok(100));
    assert_eq!(src.position(), 5);
}

#[test]
fn size_unterminated_propagates_count() {
    let mut src = Cursor::new("100".as_bytes());
    assert_eq!(size(&mut src), Err(CursorError::Unterminated(3)));
    assert_eq!(src.position(), 0);
}

#[test]
fn size_malformed_line_still_advances() {
    let mut src = Cursor::new("abc\r\nnext".as_bytes());
    assert_eq!(size(&mut src), Err(CursorError::Size));
    assert_eq!(src.position(), 5);
    assert_eq!(slice(&mut src, 4), Ok("next".as_bytes()));
}

#[test]
fn size_rejects_sign_and_empty_line() {
    let mut src = Cursor::new("+5\r\n".as_bytes());
    assert_eq!(size(&mut src), Err(CursorError::Size));

    let mut src = Cursor::new("-5\r\n".as_bytes());
    assert_eq!(size(&mut src), Err(CursorError::Size));

    let mut src = Cursor::new("\r\n".as_bytes());
    assert_eq!(size(&mut src), Err(CursorError::Size));
    assert_eq!(src.position(), 2);
}

#[test]
fn size_handles_u64_bounds() {
    let mut src = Cursor::new("18446744073709551615\r\n".as_bytes());
    assert_eq!(size(&mut src), Ok(u64::MAX));

    let mut src = Cursor::new("18446744073709551616\r\n".as_bytes());
    assert_eq!(size(&mut src), Err(CursorError::Size));
}

#[test]
fn integer_reads_signed_and_unsigned_lines() {
    let mut src = Cursor::new("-42\r\n".as_bytes());
    assert_eq!(integer(&mut src), Ok(-42));
    assert_eq!(src.position(), 5);

    let mut src = Cursor::new("100\r\n".as_bytes());
    assert_eq!(integer(&mut src), Ok(100));
    assert_eq!(src.position(), 5);
}

#[test]
fn integer_unterminated_propagates_count() {
    let mut src = Cursor::new("100".as_bytes());
    assert_eq!(integer(&mut src), Err(CursorError::Unterminated(3)));
    assert_eq!(src.position(), 0);
}

#[test]
fn integer_malformed_line_still_advances() {
    let mut src = Cursor::new("abc\r\nnext".as_bytes());
    assert_eq!(integer(&mut src), Err(CursorError::Integer));
    assert_eq!(src.position(), 5);
}

#[test]
fn integer_handles_i64_bounds() {
    let mut src = Cursor::new("9223372036854775807\r\n".as_bytes());
    assert_eq!(integer(&mut src), Ok(i64::MAX));

    let mut src = Cursor::new("-9223372036854775808\r\n".as_bytes());
    assert_eq!(integer(&mut src), Ok(i64::MIN));

    let mut src = Cursor::new("9223372036854775808\r\n".as_bytes());
    assert_eq!(integer(&mut src), Err(CursorError::Integer));

    let mut src = Cursor::new("-9223372036854775809\r\n".as_bytes());
    assert_eq!(integer(&mut src), Err(CursorError::Integer));
}

#[test]
fn integer_rejects_bare_sign_and_accepts_minus_zero() {
    let mut src = Cursor::new("-\r\n".as_bytes());
    assert_eq!(integer(&mut src), Err(CursorError::Integer));

    let mut src = Cursor::new("-0\r\n".as_bytes());
    assert_eq!(integer(&mut src), Ok(0));
}

#[test]
fn not_enough_data_classifies_errors() {
    assert!(CursorError::Unterminated(3).not_enough_data());
    assert!(CursorError::Incomplete.not_enough_data());
    assert!(!CursorError::Integer.not_enough_data());
    assert!(!CursorError::Size.not_enough_data());
}

#[test]
fn parse_u64_accepts_digits_only() {
    assert_eq!(parse_u64("007".as_bytes()), Some(7));
    assert_eq!(parse_u64("0".as_bytes()), Some(0));
    assert_eq!(parse_u64("".as_bytes()), None);
    assert_eq!(parse_u64("12a".as_bytes()), None);
    assert_eq!(parse_u64(" 12".as_bytes()), None);
}

#[test]
fn parse_i64_accepts_optional_minus() {
    assert_eq!(parse_i64("-1".as_bytes()), Some(-1));
    assert_eq!(parse_i64("17".as_bytes()), Some(17));
    assert_eq!(parse_i64("+17".as_bytes()), None);
    assert_eq!(parse_i64("-".as_bytes()), None);
    assert_eq!(parse_i64("".as_bytes()), None);
    assert_eq!(parse_i64("1-2".as_bytes()), None);
}
