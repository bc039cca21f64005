use pi_natives::control::ReaderEvent;
use pi_natives::reader::{chunk_event, ReaderWorker};
use pi_natives::reassembler::ByteReassembler;

fn decode_in_parts(parts: &[&[u8]]) -> String {
    let mut r = ByteReassembler::new();
    let mut out = String::new();
    for part in parts {
        out.push_str(&r.feed(part));
    }
    out.push_str(&r.finish());
    out
}

fn lossy(bytes: &[u8]) -> String {
    String::from_utf8_lossy(bytes).into_owned()
}

#[test]
fn ascii_passes_through() {
    assert_eq!(decode_in_parts(&[b"hello\n"]), "hello\n");
}

#[test]
fn multibyte_split_at_every_boundary() {
    let text = "a\u{e9}\u{20ac}\u{1f600}z";
    let bytes = text.as_bytes();
    for cut in 0..=bytes.len() {
        let (a, b) = bytes.split_at(cut);
        assert_eq!(decode_in_parts(&[a, b]), text, "cut at {}", cut);
    }
}

#[test]
fn incomplete_tail_is_held_back() {
    let mut r = ByteReassembler::new();
    assert_eq!(r.feed(&[0xe2, 0x82]), "");
    assert_eq!(r.feed(&[0xac, b'!']), "\u{20ac}!");
    assert_eq!(r.finish(), "");
}

#[test]
fn invalid_byte_gives_one_marker() {
    assert_eq!(decode_in_parts(&[b"ab\xffcd"]), "ab\u{fffd}cd");
    let mut r = ByteReassembler::new();
    assert_eq!(r.feed(b"x\xc0y"), "x\u{fffd}y");
}

#[test]
fn truncated_sequence_before_ascii_gives_one_marker() {
    assert_eq!(decode_in_parts(&[b"\xe2\x82", b"A"]), "\u{fffd}A");
}

#[test]
fn unfinished_sequence_at_end_gives_one_marker() {
    let mut r = ByteReassembler::new();
    assert_eq!(r.feed(b"ok\xf0\x9f\x98"), "ok");
    assert_eq!(r.finish(), "\u{fffd}");
    assert_eq!(r.finish(), "");
}

#[test]
fn surrogate_and_overlong_forms_rejected() {
    for bytes in [&b"\xed\xa0\x80"[..], b"\xe0\x80\xaf", b"\xf4\x90\x80\x80", b"\xf5\x80"] {
        assert_eq!(decode_in_parts(&[bytes]), lossy(bytes));
    }
}

#[test]
fn matches_std_lossy_decoding_under_any_split() {
    let mut seed: u32 = 12345;
    let pool: [u8; 16] = [
        b'a', b'\n', 0x80, 0x9f, 0xa0, 0xbf, 0xc2, 0xc0, 0xdf, 0xe0, 0xed, 0xef, 0xf0, 0xf4, 0xf5,
        0xff,
    ];
    for _ in 0..400 {
        let mut bytes = Vec::new();
        seed = seed.wrapping_mul(1103515245).wrapping_add(12345);
        let len = (seed >> 16) % 12;
        for _ in 0..len {
            seed = seed.wrapping_mul(1103515245).wrapping_add(12345);
            bytes.push(pool[((seed >> 16) % 16) as usize]);
        }
        let expected = lossy(&bytes);
        assert_eq!(decode_in_parts(&[&bytes]), expected);
        for cut in 0..=bytes.len() {
            let (a, b) = bytes.split_at(cut);
            assert_eq!(decode_in_parts(&[a, b]), expected, "bytes {:?} cut {}", bytes, cut);
        }
        let singles: Vec<&[u8]> = bytes.chunks(1).collect();
        assert_eq!(decode_in_parts(&singles), expected);
    }
}

#[test]
fn reader_worker_ends_with_one_done() {
    let mut w = ReaderWorker::new();
    assert!(w.on_read(&[0xe2]).is_none());
    match w.on_read(&[0x82, 0xac]) {
        Some(ReaderEvent::Chunk(t)) => assert_eq!(t, "\u{20ac}"),
        _ => panic!("expected a chunk"),
    }
    assert!(w.on_read(&[0xf0]).is_none());
    let events = w.on_end();
    assert_eq!(events.len(), 2);
    assert!(matches!(&events[0], ReaderEvent::Chunk(t) if t == "\u{fffd}"));
    assert!(matches!(events[1], ReaderEvent::Done));
    let events = w.on_end();
    assert_eq!(events.len(), 1);
    assert!(matches!(events[0], ReaderEvent::Done));
}

#[test]
fn empty_text_gives_no_event() {
    assert!(chunk_event(String::new()).is_none());
    assert!(matches!(chunk_event("x".to_string()), Some(ReaderEvent::Chunk(t)) if t == "x"));
}

#[test]
fn invalid_between_valid_text_in_any_split() {
    let bytes: &[u8] = b"caf\xc3\xa9\xe2\x82A\xf0\x9f\x98\x80";
    let expected = "caf\u{e9}\u{fffd}A\u{1f600}";
    for cut in 0..=bytes.len() {
        let (a, b) = bytes.split_at(cut);
        assert_eq!(decode_in_parts(&[a, b]), expected, "cut at {}", cut);
    }
}
