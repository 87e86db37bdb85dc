use amux::scrollback::{Scrollback, SCROLLBACK_SIZE};

#[test]
fn test_scrollback_basic() {
    let mut sb = Scrollback::new();
    sb.push(b"hello world");
    assert_eq!(sb.contents(), b"hello world");
}

#[test]
fn test_scrollback_empty() {
    let sb = Scrollback::new();
    assert!(sb.contents().is_empty());
}

#[test]
fn test_scrollback_multiple_pushes() {
    let mut sb = Scrollback::new();
    sb.push(b"hello ");
    sb.push(b"world");
    assert_eq!(sb.contents(), b"hello world");
}

#[test]
fn test_scrollback_overflow() {
    let mut sb = Scrollback::new();
    let data = vec![b'A'; SCROLLBACK_SIZE];
    sb.push(&data);
    assert_eq!(sb.contents().len(), SCROLLBACK_SIZE);

    sb.push(b"XYZ");
    let contents = sb.contents();
    assert_eq!(contents.len(), SCROLLBACK_SIZE);
    assert_eq!(&contents[SCROLLBACK_SIZE - 3..], b"XYZ");
    assert_eq!(contents[0], b'A');
}

#[test]
fn test_scrollback_exactly_at_capacity() {
    let mut sb = Scrollback::new();
    let data = vec![b'B'; SCROLLBACK_SIZE];
    sb.push(&data);
    assert_eq!(sb.contents().len(), SCROLLBACK_SIZE);
    assert!(sb.contents().iter().all(|&b| b == b'B'));
}

#[test]
fn test_scrollback_chunked_overflow_keeps_suffix() {
    // Two chunks whose total exceeds the cap: the contents equal the
    // last SCROLLBACK_SIZE bytes of the concatenation.
    let mut sb = Scrollback::new();
    let first = vec![b'x'; 40_000];
    let second = vec![b'y'; 40_000];
    sb.push(&first);
    sb.push(&second);
    let contents = sb.contents();
    assert_eq!(contents.len(), SCROLLBACK_SIZE);
    let mut joined = first.clone();
    joined.extend_from_slice(&second);
    assert_eq!(contents, joined[joined.len() - SCROLLBACK_SIZE..].to_vec());
}

#[test]
fn test_scrollback_within_capacity_keeps_all() {
    // A sequence of pushes whose total stays within the cap equals the
    // concatenation of the inputs.
    let mut sb = Scrollback::new();
    let chunks: Vec<Vec<u8>> = (0u8..10).map(|i| vec![i; 1000]).collect();
    let mut joined = Vec::new();
    for c in &chunks {
        sb.push(c);
        joined.extend_from_slice(c);
    }
    assert_eq!(sb.contents(), joined);
}

#[test]
fn test_last_lines_basic() {
    let mut sb = Scrollback::new();
    sb.push(b"line1\nline2\nline3\n");
    assert_eq!(sb.last_lines(2), b"line2\nline3\n");
}

#[test]
fn test_last_lines_no_trailing_newline() {
    let mut sb = Scrollback::new();
    sb.push(b"line1\nline2\nline3");
    assert_eq!(sb.last_lines(2), b"line2\nline3");
}

#[test]
fn test_last_lines_more_than_available() {
    let mut sb = Scrollback::new();
    sb.push(b"line1\nline2\n");
    assert_eq!(sb.last_lines(10), b"line1\nline2\n");
}

#[test]
fn test_last_lines_zero() {
    let mut sb = Scrollback::new();
    sb.push(b"line1\nline2\n");
    assert!(sb.last_lines(0).is_empty());
}

#[test]
fn test_last_lines_empty_buffer() {
    let sb = Scrollback::new();
    assert!(sb.last_lines(5).is_empty());
}

#[test]
fn test_last_lines_single_line() {
    let mut sb = Scrollback::new();
    sb.push(b"only line\n");
    assert_eq!(sb.last_lines(1), b"only line\n");
}

#[test]
fn test_last_lines_all() {
    let mut sb = Scrollback::new();
    sb.push(b"a\nb\nc\n");
    assert_eq!(sb.last_lines(3), b"a\nb\nc\n");
}

#[test]
fn test_last_lines_two_of_three() {
    let mut sb = Scrollback::new();
    sb.push(b"a\nb\nc\n");
    assert_eq!(sb.last_lines(2), b"b\nc\n");
    let mut sb2 = Scrollback::new();
    sb2.push(b"a\nb\nc");
    assert_eq!(sb2.last_lines(2), b"b\nc");
    assert_eq!(sb2.last_lines(10), sb2.contents());
}
