use lsp_core::bytes::{parse_usize_at, push_decimal};
use lsp_core::framing::{FrameError, HeaderReader, RawMessage};

#[test]
fn read_message_with_both_fields() {
    let input = b"Content-Length: 5\r\nContent-Type: application/vscode-jsonrpc; charset=utf-8\r\n\r\nhello";
    let m = RawMessage::read(input).unwrap();
    assert_eq!(m.content_length, 5);
    assert_eq!(m.content_type, "application/vscode-jsonrpc; charset=utf-8");
    assert_eq!(m.content, "hello");
}

#[test]
fn read_skips_leading_blank_line_and_ignores_rest() {
    let m = RawMessage::read(b"\r\nContent-Length: 2\r\n\r\n{}Content-Length").unwrap();
    assert_eq!(m.content, "{}");
    assert_eq!(m.content_type, "");
}

#[test]
fn read_errors() {
    assert_eq!(RawMessage::read(b"Content-Length: x\r\n\r\n").unwrap_err(), FrameError::HeaderParseError);
    assert_eq!(RawMessage::read(b"Content-Type: a\r\n\r\n").unwrap_err(), FrameError::HeaderParseError);
    assert_eq!(RawMessage::read(b"NoColon\r\n\r\n").unwrap_err(), FrameError::HeaderParseError);
    assert_eq!(RawMessage::read(b"Accept: x\r\n\r\n").unwrap_err(), FrameError::UnexpectedHeaderField);
    assert_eq!(RawMessage::read(b"Content-Length: 2\r\n\r\n\xff\xfe").unwrap_err(), FrameError::ContentDecodeError);
    assert_eq!(RawMessage::read(b"Content-Length: 9\r\n\r\nabc").unwrap_err(), FrameError::Truncated);
    assert_eq!(RawMessage::read(b"Content-Length: 1").unwrap_err(), FrameError::Truncated);
}

#[test]
fn write_frames_message() {
    let m = RawMessage { content_length: 2, content_type: String::new(), content: String::from("{}") };
    assert_eq!(m.write(), b"Content-Length: 2\r\n\r\n{}".to_vec());
    let t = RawMessage { content_length: 12, content_type: String::from("text/x"), content: String::from("ääää") };
    assert_eq!(t.write(), "Content-Length: 12\r\nContent-Type: text/x\r\n\r\nääää".as_bytes().to_vec());
}

#[test]
fn write_of_read_reproduces_content() {
    let input = "Content-Length: 14\r\n\r\n{\"a\":\"äöü\"}".as_bytes();
    let m = RawMessage::read(input).unwrap();
    let out = m.write();
    assert_eq!(out, input.to_vec());
    assert!(out.ends_with("{\"a\":\"äöü\"}".as_bytes()));
}

#[test]
fn header_reader_line_by_line() {
    let mut h = HeaderReader::new();
    assert_eq!(h.feed_line(b"\r\n"), Ok(false));
    assert_eq!(h.feed_line(b"Content-Length: 3\r\n"), Ok(false));
    assert_eq!(h.feed_line(b"\r\n"), Ok(true));
    let m = h.finish(b"abc".to_vec()).unwrap();
    assert_eq!(m.content, "abc");
    assert_eq!(h.finish(b"ab".to_vec()).unwrap_err(), FrameError::Truncated);
}

#[test]
fn decimal_parse_and_format() {
    assert_eq!(parse_usize_at(b"+42", 0, 3), Some(42));
    assert_eq!(parse_usize_at(b"x123", 1, 4), Some(123));
    assert_eq!(parse_usize_at(b"", 0, 0), None);
    assert_eq!(parse_usize_at(b"+", 0, 1), None);
    assert_eq!(parse_usize_at(b"99999999999999999999999", 0, 23), None);
    let mut out = Vec::new();
    push_decimal(0, &mut out);
    push_decimal(1207, &mut out);
    assert_eq!(out, b"01207".to_vec());
}

#[test]
fn from_counts_content_bytes() {
    let m = RawMessage::from(String::from("{\"k\":\"ü\"}"));
    assert_eq!(m.content_length, 10);
    assert_eq!(m.content_type, "");
    assert_eq!(m.write(), "Content-Length: 10\r\n\r\n{\"k\":\"ü\"}".as_bytes().to_vec());
}
