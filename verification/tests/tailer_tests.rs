//! The tailer's append-safety and truncation recovery on concrete
//! write/poll interleavings.

use arenabuddy::tailer::Tailer;

#[test]
fn chunked_reads_lose_nothing() {
    // The same content, read whole or in awkward pieces, yields the same
    // lines in the same order.
    let content = "first line\nsecond line\nthird";
    let mut whole = Tailer::new();
    let whole_lines = whole.feed(content);

    let mut pieces = Tailer::new();
    let mut collected = Vec::new();
    for chunk in ["first li", "ne\nsec", "", "ond line\nthi", "rd"] {
        collected.extend(pieces.feed(chunk));
    }
    assert_eq!(whole_lines, collected);
    assert_eq!(collected, vec!["first line".to_string(), "second line".to_string()]);
}

#[test]
fn partial_tail_completes_later() {
    let mut t = Tailer::new();
    assert_eq!(t.feed("no newline yet"), Vec::<String>::new());
    assert_eq!(t.feed(" and done\n"), vec!["no newline yet and done".to_string()]);
    assert_eq!(t.feed("\n\n"), vec!["".to_string(), "".to_string()]);
}

#[test]
fn truncation_resets_to_zero() {
    let mut t = Tailer::new();
    let content = "abc\ndef\n";
    assert_eq!(t.read_from(content.len() as u64), 0);
    let lines = t.feed(content);
    assert_eq!(lines.len(), 2);
    assert_eq!(t.offset(), content.len() as u64);

    // The file shrank below the last observed offset: the next poll
    // starts at offset zero of the new content.
    assert_eq!(t.read_from(3), 0);
    assert_eq!(t.offset(), 0);
    let lines = t.feed("xy\n");
    assert_eq!(lines, vec!["xy".to_string()]);
}

#[test]
fn offsets_count_bytes_not_characters() {
    let mut t = Tailer::new();
    let chunk = "caf\u{e9}\n";
    let lines = t.feed(chunk);
    assert_eq!(lines, vec!["caf\u{e9}".to_string()]);
    assert_eq!(t.offset(), chunk.len() as u64);
    assert_eq!(chunk.len(), 6);
}

#[test]
fn growth_keeps_the_offset() {
    let mut t = Tailer::new();
    t.feed("one\n");
    let offset_before = t.offset();
    assert_eq!(t.read_from(100), offset_before);
    assert_eq!(t.offset(), offset_before);
}
