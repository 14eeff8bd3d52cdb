use vpn::response::build_response;
use vpn::response::push_decimal;

fn digits_of(n: usize) -> Vec<u8> {
    let mut out = Vec::new();
    push_decimal(&mut out, n);
    out
}

/// Splits a response at its first blank line and reads the announced length.
fn read_back(response: &[u8]) -> (usize, Vec<u8>) {
    let status = b"HTTP/1.1 200 OK\r\nContent-Length: ";
    assert!(response.starts_with(status));
    let at = response
        .windows(4)
        .position(|w| w == b"\r\n\r\n")
        .expect("a blank line");
    let digits = std::str::from_utf8(&response[status.len()..at]).unwrap();
    (digits.parse().unwrap(), response[at + 4..].to_vec())
}

#[test]
fn decimal_of_zero_is_one_digit() {
    assert_eq!(digits_of(0), b"0".to_vec());
}

#[test]
fn decimal_of_single_digits() {
    assert_eq!(digits_of(7), b"7".to_vec());
    assert_eq!(digits_of(9), b"9".to_vec());
}

#[test]
fn decimal_of_round_numbers() {
    assert_eq!(digits_of(10), b"10".to_vec());
    assert_eq!(digits_of(100), b"100".to_vec());
    assert_eq!(digits_of(1000), b"1000".to_vec());
}

#[test]
fn decimal_of_large_numbers() {
    assert_eq!(digits_of(65535), b"65535".to_vec());
    assert_eq!(digits_of(4294967295), b"4294967295".to_vec());
    assert_eq!(digits_of(usize::MAX), format!("{}", usize::MAX).into_bytes());
}

#[test]
fn decimal_is_appended_to_what_is_there() {
    let mut out = b"n=".to_vec();
    push_decimal(&mut out, 42);
    assert_eq!(out, b"n=42".to_vec());
}

#[test]
fn decimal_agrees_with_the_standard_formatting() {
    for n in 0..2000usize {
        assert_eq!(digits_of(n), format!("{}", n).into_bytes());
    }
}

#[test]
fn response_to_haha() {
    assert_eq!(
        build_response(b"haha"),
        b"HTTP/1.1 200 OK\r\nContent-Length: 4\r\n\r\nhaha".to_vec()
    );
}

#[test]
fn response_to_an_empty_body() {
    assert_eq!(
        build_response(b""),
        b"HTTP/1.1 200 OK\r\nContent-Length: 0\r\n\r\n".to_vec()
    );
}

#[test]
fn response_to_a_body_of_twelve_bytes() {
    assert_eq!(
        build_response(b"hello, world"),
        b"HTTP/1.1 200 OK\r\nContent-Length: 12\r\n\r\nhello, world".to_vec()
    );
}

#[test]
fn response_has_no_header_but_the_length() {
    let response = build_response(b"x");
    let (_, body) = read_back(&response);
    let head = &response[..response.len() - body.len()];
    let lines: Vec<&[u8]> = head
        .split(|b| *b == b'\n')
        .map(|line| line.strip_suffix(b"\r").unwrap_or(line))
        .collect();
    assert_eq!(
        lines,
        vec![
            &b"HTTP/1.1 200 OK"[..],
            &b"Content-Length: 1"[..],
            &b""[..],
            &b""[..]
        ]
    );
}

#[test]
fn content_length_is_the_length_of_the_body() {
    for len in 0..300usize {
        let body: Vec<u8> = (0..len).map(|i| (i % 251) as u8).collect();
        let response = build_response(&body);
        let (announced, carried) = read_back(&response);
        assert_eq!(announced, len);
        assert_eq!(carried.len(), len);
        assert_eq!(carried, body);
    }
}

#[test]
fn body_with_a_blank_line_is_carried_unchanged() {
    let body = b"a\r\n\r\nb\r\n\r\n";
    let response = build_response(body);
    let (announced, carried) = read_back(&response);
    assert_eq!(announced, 10);
    assert_eq!(carried, body.to_vec());
}

#[test]
fn body_of_arbitrary_bytes_is_carried_unchanged() {
    let body: Vec<u8> = (0..=255u8).collect();
    let response = build_response(&body);
    assert!(response.starts_with(b"HTTP/1.1 200 OK\r\nContent-Length: 256\r\n\r\n"));
    assert_eq!(&response[response.len() - 256..], &body[..]);
    assert_eq!(response.len(), 40 + 256);
}
