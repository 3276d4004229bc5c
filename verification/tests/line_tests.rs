use input_mgr::{Line, LineError, RingLine};

#[test]
fn ascii() {
    assert!(b'\r'.is_ascii());
    assert!(b'\r'.is_ascii_control());
    assert!(b'\n'.is_ascii());
    assert!(b'\n'.is_ascii_control());
}

#[test]
fn smoke_ring() {}

#[test]
fn smoke_line() {
    let mut line = Line::<10>::new();
    assert_eq!(line.as_str(), "");
    for (i, c) in b"hello".iter().enumerate() {
        line.insert(i, *c).unwrap();
        assert_eq!(line.as_str(), &"hello"[..(i + 1)]);
    }
    for i in (line.len() + 1)..256 {
        assert!(matches!(
            line.insert(i, b' ').unwrap_err(),
            LineError::WriteGap | LineError::Full
        ));
    }
    for c in b"world" {
        line.insert(0, *c).unwrap();
    }
    assert_eq!(line.as_str(), "dlrowhello");
    for i in 0..256 {
        assert_eq!(line.insert(i, b' ').unwrap_err(), LineError::Full);
    }
    for i in 0..line.len() {
        line.overwrite(i, b'a').unwrap();
    }
    assert_eq!(line.as_str(), "aaaaaaaaaa");
    for i in line.len()..256 {
        assert_eq!(line.insert(i, b' ').unwrap_err(), LineError::Full);
    }

    line.clear();
    assert_eq!(line.as_str(), "");
    for i in 1..256 {
        assert!(matches!(
            line.overwrite(i, b' ').unwrap_err(),
            LineError::WriteGap | LineError::Full
        ));
        assert!(matches!(
            line.insert(i, b' ').unwrap_err(),
            LineError::WriteGap | LineError::Full
        ));
    }
    line.overwrite(0, b'a').unwrap();
    assert_eq!(line.as_str(), "a");
    line.overwrite(0, b'b').unwrap();
    assert_eq!(line.as_str(), "b");
    line.clear();
    line.extend("hello").unwrap();
    line.extend("world").unwrap();
    assert_eq!(line.as_str(), "helloworld");

    line.pop();
    assert_eq!(line.as_str(), "helloworl");

    line.pop();
    assert_eq!(line.as_str(), "hellowor");

    line.clear();
    assert_eq!(
        line.extend("hello\nworl").unwrap_err(),
        LineError::InvalidChar
    );
    assert_eq!(
        line.extend("hello\rworl").unwrap_err(),
        LineError::InvalidChar
    );
    assert_eq!(line.extend("Sp\u{221a}\u{00a7}ti").unwrap_err(), LineError::InvalidChar);
    assert_eq!(line.as_str(), "");
}

#[test]
fn extend_is_atomic() {
    // A rejected batch leaves the prior content completely unchanged.
    let mut line = Line::<20>::new();
    assert_eq!(line.extend("hello\nworld").unwrap_err(), LineError::InvalidChar);
    assert_eq!(line.as_str(), "");
    line.extend("abc").unwrap();
    assert_eq!(line.extend("de\rf").unwrap_err(), LineError::InvalidChar);
    assert_eq!(line.extend("0123456789abcdefgh").unwrap_err(), LineError::Full);
    assert_eq!(line.as_str(), "abc");
}

#[test]
fn insert_at_front_until_full() {
    // A line already holding "hello" takes five front insertions and ends
    // exactly full; any further insert reports Full.
    let mut line = Line::<10>::new();
    for (i, c) in b"hello".iter().enumerate() {
        line.insert(i, *c).unwrap();
    }
    for c in b"world" {
        line.insert(0, *c).unwrap();
    }
    assert_eq!(line.as_str(), "dlrowhello");
    assert!(line.is_full());
    assert_eq!(line.insert(0, b'x').unwrap_err(), LineError::Full);
    assert_eq!(line.insert(10, b'x').unwrap_err(), LineError::Full);
}

#[test]
fn insert_in_the_middle_shifts_the_tail() {
    let mut line = Line::<10>::new();
    line.extend("abde").unwrap();
    line.insert(2, b'c').unwrap();
    assert_eq!(line.as_str(), "abcde");
    assert_eq!(line.insert(6, b'x').unwrap_err(), LineError::WriteGap);
    assert_eq!(line.as_str(), "abcde");
}

#[test]
fn push_and_error_variants() {
    let mut line = Line::<2>::new();
    line.push(b'h').unwrap();
    line.push(b'i').unwrap();
    assert_eq!(line.as_str(), "hi");
    assert_eq!(line.push(b'!').unwrap_err(), LineError::Full);
    let mut line = Line::<4>::new();
    assert_eq!(line.push(b'\n').unwrap_err(), LineError::InvalidChar);
    assert_eq!(line.push(0x7f).unwrap_err(), LineError::InvalidChar);
    assert_eq!(line.push(0xc3).unwrap_err(), LineError::InvalidChar);
    line.push(b' ').unwrap();
    line.push(b'~').unwrap();
    assert_eq!(line.as_str(), " ~");
    assert_eq!(line.insert(3, b'x').unwrap_err(), LineError::WriteGap);
    assert_eq!(line.insert(4, b'x').unwrap_err(), LineError::Full);
    assert_eq!(line.not_full(), Ok(()));
}

#[test]
fn largest_line_capacity() {
    assert_eq!(Line::<254>::cap_u8(), 254);
    let mut line = Line::<254>::new();
    for _ in 0..254 {
        line.push(b'x').unwrap();
    }
    assert!(line.is_full());
    assert_eq!(line.len(), 254);
    assert_eq!(line.push(b'x').unwrap_err(), LineError::Full);
}

#[test]
fn pop_on_empty_buffer_is_a_noop() {
    let mut ringline = RingLine::<4, 8>::new();
    ringline.pop_local_char();
    ringline.pop_remote_char();
    assert_eq!(ringline.iter_local_editing().len(), 0);
    assert_eq!(ringline.iter_remote_editing().len(), 0);
    assert_eq!(ringline.iter_history().len(), 0);
}
