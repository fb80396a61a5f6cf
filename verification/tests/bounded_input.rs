use zerker_reason::input::read_bounded;

#[test]
fn bounded_reader_rejects_input_before_reading_past_the_sentinel_byte() {
    let error = read_bounded("123456789".as_bytes(), 8).unwrap_err();
    assert_eq!(error.kind(), std::io::ErrorKind::InvalidData);
    assert_eq!(error.to_string(), "input exceeds the 8-byte limit");
}

#[test]
fn bounded_reader_accepts_input_at_the_limit() {
    assert_eq!(read_bounded("12345678".as_bytes(), 8).unwrap(), "12345678");
}

#[test]
fn bounded_reader_rejects_text_that_is_not_utf8() {
    let error = read_bounded(&[0x66, 0xff, 0x6f], 8).unwrap_err();
    assert_eq!(error.kind(), std::io::ErrorKind::InvalidData);
}

#[test]
fn bounded_reader_accepts_an_empty_input() {
    assert_eq!(read_bounded(b"", 0).unwrap(), "");
}

#[test]
fn bounded_reader_rejects_one_byte_over_a_zero_limit() {
    let error = read_bounded(b"x", 0).unwrap_err();
    assert_eq!(error.to_string(), "input exceeds the 0-byte limit");
}
