use mpt_trace::framing::classify;
use mpt_trace::framing::records;
use mpt_trace::framing::split_lines;
use mpt_trace::framing::trim;
use mpt_trace::framing::trim_bounds;

#[test]
fn whitespace_around_the_text_is_taken_away() {
    assert_eq!(trim("  a b \n"), "a b");
    assert_eq!(trim("\n\t{}\r\n"), "{}");
    assert_eq!(trim("\u{a0}x\u{3000}"), "x");
    assert_eq!(trim("x"), "x");
    assert_eq!(trim(""), "");
    assert_eq!(trim(" \n "), "");
    assert_eq!(trim(" é "), "é");
    assert_eq!(trim("  a b \n"), "  a b \n".trim());
}

#[test]
fn lines_are_cut_at_line_feeds() {
    assert_eq!(split_lines(b"a\nbc\nd"), vec![b"a".to_vec(), b"bc".to_vec(), b"d".to_vec()]);
    assert_eq!(split_lines(b""), vec![Vec::<u8>::new()]);
    assert_eq!(split_lines(b"\n"), vec![Vec::<u8>::new(), Vec::new()]);
    assert_eq!(split_lines(b"a\n\nb"), vec![b"a".to_vec(), Vec::new(), b"b".to_vec()]);
    assert_eq!(split_lines(b"a\r\nb"), vec![b"a\r".to_vec(), b"b".to_vec()]);
    assert_eq!(split_lines(b"abc"), vec![b"abc".to_vec()]);
}

#[test]
fn records_of_a_text() {
    let text = "\n {\"a\":1}\n{\"b\":\"é\"} \n\n";
    let expected: Vec<Vec<u8>> = text
        .trim()
        .split('\n')
        .map(|line| line.as_bytes().to_vec())
        .collect();
    assert_eq!(records(text), expected);
    assert_eq!(expected.len(), 2);
    assert_eq!(records(text)[1], "{\"b\":\"é\"}".as_bytes().to_vec());
    assert_eq!(records("   "), vec![Vec::<u8>::new()]);
}

#[test]
fn bounds_of_what_is_kept() {
    assert_eq!(trim_bounds(&[true, true, false, true, false, true]), (2, 5));
    assert_eq!(trim_bounds(&[false, true, true]), (0, 1));
    assert_eq!(trim_bounds(&[true, false]), (1, 2));
    assert_eq!(trim_bounds(&[false]), (0, 1));
    assert_eq!(trim_bounds(&[true, true, true]), (3, 3));
    assert_eq!(trim_bounds(&[]), (0, 0));
}

#[test]
fn whitespace_is_flagged_character_by_character() {
    assert_eq!(classify(" a\tb\n"), vec![true, false, true, false, true]);
    assert_eq!(classify("é \u{2003}"), vec![false, true, true]);
    assert_eq!(classify(""), Vec::<bool>::new());
    let text = "\u{85}x\u{200b}";
    let expected: Vec<bool> = text.chars().map(|c| c.is_whitespace()).collect();
    assert_eq!(classify(text), expected);
}
