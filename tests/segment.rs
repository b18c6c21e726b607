use srt_translate::segment::{segment_lines, Segmenter, SubtitleEntry};

fn lines(text: &str) -> Vec<String> {
    text.lines().map(|l| l.to_string()).collect()
}

fn triple(e: &SubtitleEntry) -> (&str, &str, &str) {
    (e.index.as_str(), e.time_code.as_str(), e.text.as_str())
}

#[test]
fn segments_entries_in_order() {
    let input = "1\n00:00:01,000 --> 00:00:02,000\nHello\n\n2\n00:00:03,000 --> 00:00:04,000\nWorld\n\n";
    let es = segment_lines(&lines(input));
    assert_eq!(es.len(), 2);
    assert_eq!(triple(&es[0]), ("1", "00:00:01,000 --> 00:00:02,000", "Hello\n"));
    assert_eq!(triple(&es[1]), ("2", "00:00:03,000 --> 00:00:04,000", "World\n"));
}

#[test]
fn last_entry_without_blank_line_is_kept() {
    let input = "1\n00:00:01,000 --> 00:00:02,000\nHello\n\n2\n00:00:03,000 --> 00:00:04,000\nWorld";
    let es = segment_lines(&lines(input));
    assert_eq!(es.len(), 2);
    assert_eq!(triple(&es[1]), ("2", "00:00:03,000 --> 00:00:04,000", "World\n"));
}

#[test]
fn multi_line_text_is_joined_with_newlines() {
    let input = "3\n00:00:05,000 --> 00:00:06,000\nfirst line\nsecond line\nthird\n\n";
    let es = segment_lines(&lines(input));
    assert_eq!(es.len(), 1);
    assert_eq!(es[0].text, "first line\nsecond line\nthird\n");
}

#[test]
fn consecutive_blank_lines_are_tolerated() {
    let input = "\n\n1\n00:00:01,000 --> 00:00:02,000\nHello\n\n  \n\t\n2\n00:00:03,000 --> 00:00:04,000\nWorld\n\n\n";
    let es = segment_lines(&lines(input));
    assert_eq!(es.len(), 2);
}

#[test]
fn empty_input_has_no_entries() {
    assert_eq!(segment_lines(&Vec::new()).len(), 0);
    assert_eq!(segment_lines(&lines("\n \n")).len(), 0);
}

#[test]
fn index_and_time_code_carry_over_when_missing() {
    let input = "5\n00:00:01,000 --> 00:00:02,000\nfirst\n\nsecond\n";
    let es = segment_lines(&lines(input));
    assert_eq!(es.len(), 2);
    assert_eq!(triple(&es[1]), ("5", "00:00:01,000 --> 00:00:02,000", "second\n"));
}

#[test]
fn index_line_after_text_replaces_index() {
    let input = "1\n00:00:01,000 --> 00:00:02,000\nHello\n42\nagain\n";
    let es = segment_lines(&lines(input));
    assert_eq!(es.len(), 1);
    assert_eq!(triple(&es[0]), ("42", "00:00:01,000 --> 00:00:02,000", "Hello\nagain\n"));
}

#[test]
fn text_before_any_index_has_empty_index() {
    let es = segment_lines(&lines("orphan\n"));
    assert_eq!(es.len(), 1);
    assert_eq!(triple(&es[0]), ("", "", "orphan\n"));
}

#[test]
fn segmenter_yields_entry_on_blank_line() {
    let mut s = Segmenter::new();
    assert!(s.feed("7").is_none());
    assert!(s.feed("00:01:00,000 --> 00:01:02,500").is_none());
    assert!(s.feed("Salut").is_none());
    let e = s.feed("").expect("entry");
    assert_eq!(triple(&e), ("7", "00:01:00,000 --> 00:01:02,500", "Salut\n"));
    assert!(s.feed("").is_none());
    assert!(s.finish().is_none());
    assert_eq!(s.index, "7");
    assert_eq!(s.text, "");
}

#[test]
fn segmenter_finish_yields_pending_entry() {
    let mut s = Segmenter::new();
    s.feed("1");
    s.feed("00:00:01,000 --> 00:00:02,000");
    s.feed("Au revoir");
    let e = s.finish().expect("entry");
    assert_eq!(e.text, "Au revoir\n");
}
