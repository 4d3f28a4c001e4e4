use job_runner::lines::LineSplitter;

fn texts(lines: Vec<Vec<u8>>) -> Vec<String> {
    lines.into_iter().map(|l| String::from_utf8(l).expect("test bytes are text")).collect()
}

#[test]
fn one_chunk_one_line() {
    let mut s = LineSplitter::new();
    let lines = s.push_bytes(b"hi\n");
    assert_eq!(texts(lines), vec!["hi".to_string()]);
    assert!(s.take_rest().is_none());
}

#[test]
fn line_split_across_chunks_comes_out_once_in_order() {
    let mut s = LineSplitter::new();
    let l1 = s.push_bytes(b"he");
    assert!(l1.is_empty());
    let l2 = s.push_bytes(b"llo\nwo");
    assert_eq!(texts(l2), vec!["hello".to_string()]);
    let l3 = s.push_bytes(b"rld\nand more\n");
    assert_eq!(texts(l3), vec!["world".to_string(), "and more".to_string()]);
    assert!(s.take_rest().is_none());
}

#[test]
fn crlf_is_stripped() {
    let mut s = LineSplitter::new();
    let lines = s.push_bytes(b"one\r\ntwo\r\n");
    assert_eq!(texts(lines), vec!["one".to_string(), "two".to_string()]);
}

#[test]
fn lone_carriage_return_inside_a_line_is_kept() {
    let mut s = LineSplitter::new();
    let lines = s.push_bytes(b"a\rb\n");
    assert_eq!(lines.len(), 1);
    assert_eq!(lines[0], b"a\rb".to_vec());
}

#[test]
fn empty_lines_are_preserved() {
    let mut s = LineSplitter::new();
    let lines = s.push_bytes(b"\n\nx\n");
    assert_eq!(lines.len(), 3);
    assert_eq!(lines[0], b"".to_vec());
    assert_eq!(lines[1], b"".to_vec());
    assert_eq!(lines[2], b"x".to_vec());
}

#[test]
fn invalid_bytes_do_not_stop_the_stream() {
    let mut s = LineSplitter::new();
    let lines = s.push_bytes(&[0xff, 0xfe, 0x0a, b'o', b'k', 0x0a]);
    assert_eq!(lines.len(), 2);
    assert_eq!(lines[0], vec![0xff, 0xfe]);
    assert_eq!(lines[1], b"ok".to_vec());
    // The bad line refuses to decode but the good one is unharmed.
    assert!(String::from_utf8(lines[0].clone()).is_err());
}

#[test]
fn trailing_text_without_newline_is_handed_back_at_end() {
    let mut s = LineSplitter::new();
    let lines = s.push_bytes(b"done\nno newline");
    assert_eq!(texts(lines), vec!["done".to_string()]);
    let rest = s.take_rest().expect("an open line remains");
    assert_eq!(rest, b"no newline".to_vec());
    assert!(s.take_rest().is_none());
}

#[test]
fn trailing_carriage_return_without_newline_is_kept() {
    let mut s = LineSplitter::new();
    let lines = s.push_bytes(b"x\r");
    assert!(lines.is_empty());
    let rest = s.take_rest().expect("an open line remains");
    assert_eq!(rest, b"x\r".to_vec());
}
