use voxcaster::pty::buffer::RingBuffer;

#[test]
fn appends_and_reads_lines_by_range() {
    let mut b = RingBuffer::new(100, 64 * 1024);
    b.append("line one\nline two\nline three\n");
    let r = b.read(0, Some(2), false);
    assert_eq!(r.lines, vec!["line one", "line two"]);
    assert_eq!(r.total, 3);
    assert!(!r.truncated);
}

#[test]
fn strips_ansi_by_default_keeps_raw_on_request() {
    let mut b = RingBuffer::new(100, 64 * 1024);
    b.append("\x1b[31mred\x1b[0m\n");
    assert_eq!(b.read(0, None, false).lines, vec!["red"]);
    assert_eq!(b.read(0, None, true).lines, vec!["\x1b[31mred\x1b[0m"]);
}

#[test]
fn drops_oldest_lines_past_cap() {
    let mut b = RingBuffer::new(2, 64 * 1024);
    b.append("a\nb\nc\n");
    let r = b.read(0, None, false);
    assert_eq!(r.lines, vec!["b", "c"]);
    assert_eq!(r.total, 2);
}

#[test]
fn partial_line_waits_for_its_newline() {
    let mut b = RingBuffer::new(100, 1024);
    b.append("hel");
    assert_eq!(b.len(), 0);
    assert!(b.is_empty());
    b.append("lo\nwor");
    assert_eq!(b.read(0, None, true).lines, vec!["hello"]);
    b.flush();
    assert_eq!(b.read(0, None, true).lines, vec!["hello", "wor"]);
    b.flush();
    assert_eq!(b.len(), 2);
}

#[test]
fn carriage_return_before_newline_is_dropped() {
    let mut b = RingBuffer::new(100, 1024);
    b.append("one\r\ntwo\r\r\n\n");
    assert_eq!(b.read(0, None, true).lines, vec!["one", "two\r", ""]);
}

#[test]
fn chunking_does_not_matter() {
    let mut whole = RingBuffer::new(3, 1024);
    whole.append("alpha\nbeta\r\ngamma\ndelta\nrest");
    let mut parts = RingBuffer::new(3, 1024);
    for piece in ["al", "pha\nbe", "ta\r", "\ngamma\nde", "lta\nre", "st"] {
        parts.append(piece);
    }
    let a = whole.read(0, None, true);
    let b = parts.read(0, None, true);
    assert_eq!(a.lines, b.lines);
    assert_eq!(a.lines, vec!["beta", "gamma", "delta"]);
    assert!(a.truncated && b.truncated);
}

#[test]
fn byte_cap_drops_oldest_lines() {
    // "é" takes two bytes in UTF-8.
    let mut b = RingBuffer::new(100, 5);
    b.append("ab\ncd\né\n");
    let r = b.read(0, None, true);
    assert_eq!(r.lines, vec!["cd", "é"]);
    assert!(r.truncated);
    b.append("toolongline\n");
    assert_eq!(b.len(), 0);
}

#[test]
fn read_window_is_clamped() {
    let mut b = RingBuffer::new(100, 1024);
    b.append("0\n1\n2\n3\n");
    let r = b.read(1, Some(2), true);
    assert_eq!(r.lines, vec!["1", "2"]);
    assert_eq!(r.offset, 1);
    assert_eq!(r.total, 4);
    assert_eq!(b.read(3, Some(10), true).lines, vec!["3"]);
    assert!(b.read(9, None, true).lines.is_empty());
    assert!(b.read(2, Some(0), true).lines.is_empty());
}

#[test]
fn zero_line_cap_keeps_nothing() {
    let mut b = RingBuffer::new(0, 1024);
    b.append("x\n");
    let r = b.read(0, None, true);
    assert!(r.lines.is_empty());
    assert_eq!(r.total, 0);
    assert!(r.truncated);
}

#[test]
fn huge_limit_is_only_an_upper_bound() {
    let mut b = RingBuffer::new(100, 64 * 1024);
    b.append("line one\nline two\nline three\n");
    let r = b.read(1, Some(usize::MAX), true);
    assert_eq!(r.lines, vec!["line two", "line three"]);
    assert_eq!(r.offset, 1);
    assert_eq!(r.total, 3);
}

#[test]
fn dropped_flag_stays_set() {
    let mut b = RingBuffer::new(1, 1024);
    b.append("a\nb\n");
    assert!(b.read(0, None, true).truncated);
    b.append("partial");
    assert!(b.read(0, None, true).truncated);
    b.flush();
    let r = b.read(0, None, true);
    assert!(r.truncated);
    assert_eq!(r.lines, vec!["partial"]);
}

#[test]
fn buffers_that_look_alike_stay_alike() {
    // Different histories, same held lines, partial text, caps and flag.
    let mut b1 = RingBuffer::new(2, 1024);
    b1.append("x\ny\np\nq\nr");
    let mut b2 = RingBuffer::new(2, 1024);
    b2.append("z\np\nq\nr");
    assert_eq!(b1.read(0, None, true).lines, b2.read(0, None, true).lines);
    b1.append("1\n2");
    b1.append("\n3");
    b2.append("1\n2\n3");
    for (o, l) in [(0, None), (1, Some(1)), (0, Some(5))] {
        let r1 = b1.read(o, l, true);
        let r2 = b2.read(o, l, true);
        assert_eq!(r1.lines, r2.lines);
        assert_eq!((r1.total, r1.truncated), (r2.total, r2.truncated));
    }
    b1.flush();
    b2.flush();
    assert_eq!(b1.read(0, None, true).lines, b2.read(0, None, true).lines);
    assert_eq!(b1.len(), b2.len());
}
