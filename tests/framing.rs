use buzzen_irc::framer::{FrameError, LineBuffer};

fn drain_all(chunks: &[&[u8]]) -> (Vec<String>, String) {
    let mut buf = LineBuffer::new();
    for c in chunks {
        buf.feed(c).unwrap();
    }
    let lines = buf.drain();
    (lines, buf.pending())
}

#[test]
fn lines_are_split_at_line_feeds() {
    let (lines, rest) = drain_all(&[b"PING :a\r\n:x NOTICE y :z\npartial"]);
    assert_eq!(lines, vec!["PING :a".to_string(), ":x NOTICE y :z".to_string()]);
    assert_eq!(rest, "partial");
}

#[test]
fn split_invariance_on_concrete_chunks() {
    let whole = drain_all(&[b"one\r\ntwo\nthree\r\nfour"]);
    let split = drain_all(&[b"on", b"e\r", b"\ntwo\nth", b"ree\r\nfo", b"ur"]);
    let bytes = drain_all(&[b"o", b"n", b"e", b"\r", b"\n", b"two\n", b"three\r\nfour"]);
    assert_eq!(whole, split);
    assert_eq!(whole, bytes);
    assert_eq!(whole.0.len(), 3);
}

#[test]
fn partial_line_waits_for_next_chunk() {
    let mut buf = LineBuffer::new();
    buf.feed(b":a!b@c JOIN :#ch").unwrap();
    assert!(buf.drain().is_empty());
    buf.feed(b"an\r\n").unwrap();
    assert_eq!(buf.drain(), vec![":a!b@c JOIN :#chan".to_string()]);
    assert_eq!(buf.pending(), "");
}

#[test]
fn empty_line_clears_the_buffer() {
    let mut buf = LineBuffer::new();
    buf.feed(b"first\n\r\nsecond\nthird").unwrap();
    assert_eq!(buf.drain(), vec!["first".to_string()]);
    assert_eq!(buf.pending(), "");
}

#[test]
fn zero_length_read_is_connection_closed() {
    let mut buf = LineBuffer::new();
    buf.feed(b"keep").unwrap();
    assert_eq!(buf.feed(b""), Err(FrameError::ConnectionClosed));
    assert_eq!(buf.pending(), "keep");
}

#[test]
fn invalid_utf8_is_refused() {
    let mut buf = LineBuffer::new();
    assert_eq!(buf.feed(&[0x66, 0xff, 0x0a]), Err(FrameError::InvalidUtf8));
    assert_eq!(buf.pending(), "");
    buf.feed("caf\u{e9}\n".as_bytes()).unwrap();
    assert_eq!(buf.drain(), vec!["caf\u{e9}".to_string()]);
}

#[test]
fn split_inside_a_character_is_refused() {
    let bytes = "\u{e9}\n".as_bytes();
    let mut buf = LineBuffer::new();
    assert_eq!(buf.feed(&bytes[..1]), Err(FrameError::InvalidUtf8));
    buf.feed(bytes).unwrap();
    assert_eq!(buf.drain(), vec!["\u{e9}".to_string()]);
}

#[test]
fn draining_after_each_chunk_gives_the_same_lines() {
    let mut buf = LineBuffer::new();
    let mut lines = Vec::new();
    for c in [&b"one\r\ntw"[..], b"o\nthr", b"ee\r\nfo", b"ur"] {
        buf.feed(c).unwrap();
        lines.extend(buf.drain());
    }
    let (whole, rest) = drain_all(&[b"one\r\ntwo\nthree\r\nfour"]);
    assert_eq!(lines, whole);
    assert_eq!(buf.pending(), rest);
}
