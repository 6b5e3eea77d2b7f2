use user_service::decimal::{parse_decimal, push_decimal, render_decimal, render_list};

#[test]
fn decimal_of_small_numbers() {
    assert_eq!(render_decimal(0), b"0".to_vec());
    assert_eq!(render_decimal(7), b"7".to_vec());
    assert_eq!(render_decimal(10), b"10".to_vec());
    assert_eq!(render_decimal(409), b"409".to_vec());
    assert_eq!(render_decimal(12345), b"12345".to_vec());
}

#[test]
fn decimal_of_the_largest_number() {
    assert_eq!(render_decimal(usize::MAX), format!("{}", usize::MAX).into_bytes());
}

#[test]
fn decimal_is_appended() {
    let mut out = b"id=".to_vec();
    push_decimal(&mut out, 250);
    assert_eq!(out, b"id=250".to_vec());
    push_decimal(&mut out, 0);
    assert_eq!(out, b"id=2500".to_vec());
}

#[test]
fn list_is_joined_by_commas() {
    assert_eq!(render_list(&[]), Vec::<u8>::new());
    assert_eq!(render_list(&[3]), b"3".to_vec());
    assert_eq!(render_list(&[0, 1, 2]), b"0,1,2".to_vec());
    assert_eq!(render_list(&[10, 200, 3000]), b"10,200,3000".to_vec());
}

#[test]
fn parse_reads_digits() {
    assert_eq!(parse_decimal(b"0"), Some(0));
    assert_eq!(parse_decimal(b"5"), Some(5));
    assert_eq!(parse_decimal(b"1234567890"), Some(1234567890));
    assert_eq!(parse_decimal(b"00012"), Some(12));
}

#[test]
fn parse_rejects_what_is_no_number() {
    assert_eq!(parse_decimal(b""), None);
    assert_eq!(parse_decimal(b"abc"), None);
    assert_eq!(parse_decimal(b"12a"), None);
    assert_eq!(parse_decimal(b"+1"), None);
    assert_eq!(parse_decimal(b"-1"), None);
    assert_eq!(parse_decimal(b" 1"), None);
    assert_eq!(parse_decimal(b"1/"), None);
    assert_eq!(parse_decimal(b"/"), None);
    assert_eq!(parse_decimal(b":"), None);
}

#[test]
fn parse_knows_the_limit() {
    let max = format!("{}", usize::MAX);
    assert_eq!(parse_decimal(max.as_bytes()), Some(usize::MAX));
    let beyond = format!("{}", usize::MAX as u128 + 1);
    assert_eq!(parse_decimal(beyond.as_bytes()), None);
    let longer = format!("{}0", usize::MAX);
    assert_eq!(parse_decimal(longer.as_bytes()), None);
    let padded = format!("000{}", usize::MAX);
    assert_eq!(parse_decimal(padded.as_bytes()), Some(usize::MAX));
}

#[test]
fn written_numbers_read_back() {
    for n in [0usize, 1, 9, 10, 19, 99, 100, 4096, 999_999, usize::MAX - 1, usize::MAX] {
        assert_eq!(parse_decimal(&render_decimal(n)), Some(n));
    }
}
