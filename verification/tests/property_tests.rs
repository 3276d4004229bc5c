use input_mgr::{LineError, RingLine, RingLineError, Source};

#[test]
fn full_only_when_every_slot_is_pinned_in_editing() {
    // History is always recyclable, so appending only fails once every
    // slot is pinned in an active editing zone.
    let mut ringline = RingLine::<1, 2>::new();
    ringline.append_local_char(b'a').unwrap();
    ringline.append_local_char(b'b').unwrap();
    assert_eq!(
        ringline.append_local_char(b'c').unwrap_err(),
        RingLineError::Line(LineError::Full)
    );
    assert_eq!(
        ringline.append_remote_char(b'x').unwrap_err(),
        RingLineError::Line(LineError::Full)
    );
    let local = ringline.iter_local_editing();
    assert_eq!(local.len(), 1);
    assert_eq!(local[0].as_str(), "ab");
}

#[test]
fn newest_first_ordering() {
    // Local-editing lines with content A, then B, then C come back C, B, A
    // (newest first); the reversed iteration yields A, B, C.
    let mut ringline = RingLine::<8, 2>::new();
    for c in b"AABBCC" {
        ringline.append_local_char(*c).unwrap();
    }
    let texts: Vec<String> = ringline
        .iter_local_editing()
        .iter()
        .map(|l| l.as_str())
        .collect();
    assert_eq!(texts, vec!["CC", "BB", "AA"]);
    let oldest_first: Vec<String> = texts.iter().rev().cloned().collect();
    assert_eq!(oldest_first, vec!["AA", "BB", "CC"]);
}

#[test]
fn submit_remote_on_empty_zone_changes_nothing() {
    let mut ringline = RingLine::<4, 16>::new();
    for c in b"draft" {
        ringline.append_local_char(*c).unwrap();
    }
    let history_before = ringline.iter_history().len();
    let local_before: Vec<String> = ringline
        .iter_local_editing()
        .iter()
        .map(|l| l.as_str())
        .collect();
    ringline.submit_remote_editing();
    assert_eq!(ringline.iter_history().len(), history_before);
    assert_eq!(ringline.iter_remote_editing().len(), 0);
    let local_after: Vec<String> = ringline
        .iter_local_editing()
        .iter()
        .map(|l| l.as_str())
        .collect();
    assert_eq!(local_after, local_before);
}

#[test]
fn two_party_history() {
    // Local text, then remote text, submitted in that order, leaves a
    // history of exactly two entries: oldest the local line, newest the
    // remote line, each tagged with its source.
    let mut ringline = RingLine::<16, 80>::new();
    for c in b"hello from local!" {
        ringline.append_local_char(*c).unwrap();
    }
    for c in b"hello from remote!" {
        ringline.append_remote_char(*c).unwrap();
    }
    ringline.submit_local_editing();
    ringline.submit_remote_editing();
    let history = ringline.iter_history();
    let oldest_first: Vec<(Source, String)> = history
        .iter()
        .rev()
        .map(|l| (l.status(), l.as_str()))
        .collect();
    assert_eq!(
        oldest_first,
        vec![
            (Source::Local, "hello from local!".to_string()),
            (Source::Remote, "hello from remote!".to_string()),
        ]
    );
}

#[test]
fn appending_past_one_line_wraps() {
    // 90 characters of local text in an 80-character-per-line buffer make
    // two local-editing lines: a full one with the first 80 characters and
    // a newer one with the remaining 10, both tagged local, newest first.
    let mut ringline = RingLine::<16, 80>::new();
    for i in 0..90usize {
        let c = b'a' + (i % 26) as u8;
        ringline.append_local_char(c).unwrap();
    }
    let mut all: String = String::new();
    for i in 0..90usize {
        all.push((b'a' + (i % 26) as u8) as char);
    }
    let local = ringline.iter_local_editing();
    assert_eq!(local.len(), 2);
    assert_eq!(local[0].as_str(), &all[80..]);
    assert_eq!(local[0].len(), 10);
    assert_eq!(local[1].as_str(), &all[..80]);
    assert!(local[1].is_full());
    assert_eq!(local[0].status(), Source::Local);
    assert_eq!(local[1].status(), Source::Local);
}

#[test]
fn rejected_characters_leave_text_alone() {
    let mut ringline = RingLine::<4, 8>::new();
    for c in b"ok" {
        ringline.append_local_char(*c).unwrap();
    }
    assert!(ringline.append_local_char(b'\n').is_err());
    assert!(ringline.append_remote_char(b'\r').is_err());
    let local = ringline.iter_local_editing();
    assert_eq!(local.len(), 1);
    assert_eq!(local[0].as_str(), "ok");
}
