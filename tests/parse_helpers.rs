use idle_sidecar::scanner::{colon, consume_until_newline, decimal, hex_u16, hex_u8, whitespace};

#[test]
fn test_parse_decimal() {
    assert_eq!(None, decimal(b",123"));
    assert_eq!(None, decimal(b" 0A f"));
    assert_eq!(None, decimal(b""));

    assert_eq!(Some((&b":456"[..], 123)), decimal(b"123:456"));
}

#[test]
fn test_consume_until_newline() {
    assert_eq!(&[] as &[u8], consume_until_newline(b""));
    assert_eq!(&b"bar\nbaz"[..], consume_until_newline(b"foo\nbar\nbaz"));
}

#[test]
fn test_colon() {
    assert_eq!(None, colon(b""));
    assert_eq!(None, colon(b"/"));
    assert_eq!(Some(&b"foo"[..]), colon(b":foo"));
}

#[test]
fn test_hex_u8() {
    assert_eq!(None, hex_u8(b",0A f"));
    assert_eq!(None, hex_u8(b" 0A f"));
    assert_eq!(None, hex_u8(b""));

    assert_eq!(Some((&b"9999"[..], 0x0A)), hex_u8(b"0A9999"));
}

#[test]
fn test_hex_u16() {
    assert_eq!(None, hex_u16(b",0A f"));
    assert_eq!(None, hex_u16(b" 0A f"));
    assert_eq!(None, hex_u16(b"0AA f"));
    assert_eq!(None, hex_u16(b""));

    assert_eq!(Some((&b"99"[..], 0x0A99)), hex_u16(b"0A9999"));
}

#[test]
fn test_whitespace() {
    assert_eq!(None, whitespace(b""));

    assert_eq!(None, whitespace(b"blah"));

    assert_eq!(Some(&b"foo bar"[..]), whitespace(b" foo bar"));

    assert_eq!(Some(&b"foo bar"[..]), whitespace(b"  foo bar"));

    assert_eq!(Some(&b"foo bar"[..]), whitespace(b"\t \tfoo bar"));
}

#[test]
fn hex16_round_trip_on_samples() {
    for v in [0u16, 1, 0x0A99, 0x1F90, 0xBEEF, 0xFFFF] {
        let text = format!("{:04X}rest", v);
        assert_eq!(Some((&b"rest"[..], v)), hex_u16(text.as_bytes()));
        let lower = format!("{:04x}", v);
        assert_eq!(Some((&b""[..], v)), hex_u16(lower.as_bytes()));
    }
}

#[test]
fn hex_rejects_signs_and_short_input() {
    assert_eq!(None, hex_u8(b"+A"));
    assert_eq!(None, hex_u8(b"A"));
    assert_eq!(None, hex_u16(b"+0A9"));
    assert_eq!(None, hex_u16(b"0A9"));
    assert_eq!(Some((&b""[..], 0xFF)), hex_u8(b"ff"));
    assert_eq!(Some((&b"g"[..], 0xABCD)), hex_u16(b"abCDg"));
}

#[test]
fn decimal_reads_whole_run() {
    assert_eq!(Some((&b" x"[..], 4294967295)), decimal(b"4294967295 x"));
    assert_eq!(None, decimal(b"4294967296 x"));
    assert_eq!(Some((&b""[..], 7)), decimal(b"0007"));
    assert_eq!(Some((&b"a1"[..], 90)), decimal(b"90a1"));
}

#[test]
fn whitespace_consumes_all_kinds_after_blank() {
    assert_eq!(Some(&b"x"[..]), whitespace(b" \n\r\x0c\tx"));
    assert_eq!(None, whitespace(b"\nx"));
    assert_eq!(Some(&b""[..]), whitespace(b"   "));
}

#[test]
fn consume_until_newline_edges() {
    assert_eq!(&[] as &[u8], consume_until_newline(b"no newline here"));
    assert_eq!(&[] as &[u8], consume_until_newline(b"ends here\n"));
    assert_eq!(&b"x\n"[..], consume_until_newline(b"\nx\n"));
}
