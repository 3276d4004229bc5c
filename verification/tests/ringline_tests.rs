use input_mgr::{RingLine, Source};

fn dump_to_string<const L: usize, const C: usize>(ringline: &RingLine<L, C>) -> String {
    let mut out = String::new();
    out.push_str("====\n");
    // Iterate through all the "latched" messages.
    //
    // These are newest to oldest, so we reverse the iteration
    for item in ringline.iter_history().iter().rev() {
        match item.status() {
            Source::Local => {
                out.push_str(&format!("L. | {} |\n", item.as_str()));
            }
            Source::Remote => {
                out.push_str(&format!("R. | {} |\n", item.as_str()));
            }
        }
    }
    // Then show the current "remote" working buffer, newest to oldest
    for item in ringline.iter_remote_editing().iter().rev() {
        out.push_str(&format!("R# | {} |\n", item.as_str()));
    }
    // Then show the current "local" working buffer, newest to oldest
    for item in ringline.iter_local_editing().iter().rev() {
        out.push_str(&format!("L# | {} |\n", item.as_str()));
    }
    out.push_str("====");
    out
}

fn expect(lines: &[&str]) -> String {
    lines.join("\n")
}

#[test]
fn basic_usage() {
    // Create a ringline buffer with 80 characters per line, and 16 lines
    let mut ringline = RingLine::<16, 80>::new();

    let dump = dump_to_string(&ringline);
    assert_eq!(dump, expect(&["====", "===="]));

    // Push some contents to the user buffer
    b"hello from local!".iter().for_each(|c| {
        ringline.append_local_char(*c).unwrap();
    });

    let dump = dump_to_string(&ringline);
    assert_eq!(dump, expect(&["====", "L# | hello from local! |", "===="]));

    // Push some contents into the remote
    b"hello from remote!".iter().for_each(|c| {
        ringline.append_remote_char(*c).unwrap();
    });

    let dump = dump_to_string(&ringline);
    assert_eq!(
        dump,
        expect(&[
            "====",
            "R# | hello from remote! |",
            "L# | hello from local! |",
            "====",
        ])
    );

    // Mark the local contents as submitted
    ringline.submit_local_editing();

    let dump = dump_to_string(&ringline);
    assert_eq!(
        dump,
        expect(&[
            "====",
            "L. | hello from local! |",
            "R# | hello from remote! |",
            "====",
        ])
    );

    // Push some contents to the user buffer
    b"hello from local2!".iter().for_each(|c| {
        ringline.append_local_char(*c).unwrap();
    });

    let dump = dump_to_string(&ringline);
    assert_eq!(
        dump,
        expect(&[
            "====",
            "L. | hello from local! |",
            "R# | hello from remote! |",
            "L# | hello from local2! |",
            "====",
        ])
    );

    // Mark the remote contents as submitted
    ringline.submit_remote_editing();

    let dump = dump_to_string(&ringline);
    assert_eq!(
        dump,
        expect(&[
            "====",
            "L. | hello from local! |",
            "R. | hello from remote! |",
            "L# | hello from local2! |",
            "====",
        ])
    );

    // Push some contents into the remote
    b"hello from remote2!".iter().for_each(|c| {
        ringline.append_remote_char(*c).unwrap();
    });

    let dump = dump_to_string(&ringline);
    assert_eq!(
        dump,
        expect(&[
            "====",
            "L. | hello from local! |",
            "R. | hello from remote! |",
            "R# | hello from remote2! |",
            "L# | hello from local2! |",
            "====",
        ])
    );

    // Mark the local contents as submitted
    ringline.submit_local_editing();

    let dump = dump_to_string(&ringline);
    assert_eq!(
        dump,
        expect(&[
            "====",
            "L. | hello from local! |",
            "R. | hello from remote! |",
            "L. | hello from local2! |",
            "R# | hello from remote2! |",
            "====",
        ])
    );

    // Mark the remote contents as submitted
    ringline.submit_remote_editing();

    let dump = dump_to_string(&ringline);
    assert_eq!(
        dump,
        expect(&[
            "====",
            "L. | hello from local! |",
            "R. | hello from remote! |",
            "L. | hello from local2! |",
            "R. | hello from remote2! |",
            "====",
        ])
    );
}

#[test]
fn wrap_pop() {
    // Create a ringline buffer with 80 characters per line, and 6 lines
    let mut ringline = RingLine::<6, 80>::new();

    let eighty_dots = "....^".repeat(16);
    let eighty_commas = ",,,,^".repeat(16);

    let fifteen_local = b"....^....^....^";

    // Push some contents to the user buffer (90)
    for _ in 0..6 {
        fifteen_local.iter().for_each(|c| {
            ringline.append_local_char(*c).unwrap();
        });
    }

    let dump = dump_to_string(&ringline);
    assert_eq!(
        dump,
        expect(&[
            "====",
            &format!("L# | {} |", eighty_dots),
            "L# | ....^....^ |",
            "====",
        ])
    );

    let fifteen_remote = b",,,,^,,,,^,,,,^";

    // Push some contents to the remote buffer (90)
    for _ in 0..6 {
        fifteen_remote.iter().for_each(|c| {
            ringline.append_remote_char(*c).unwrap();
        });
    }

    let dump = dump_to_string(&ringline);
    assert_eq!(
        dump,
        expect(&[
            "====",
            &format!("R# | {} |", eighty_commas),
            "R# | ,,,,^,,,,^ |",
            &format!("L# | {} |", eighty_dots),
            "L# | ....^....^ |",
            "====",
        ])
    );

    for _ in 0..10 {
        ringline.pop_local_char();
    }

    let dump = dump_to_string(&ringline);
    assert_eq!(
        dump,
        expect(&[
            "====",
            &format!("R# | {} |", eighty_commas),
            "R# | ,,,,^,,,,^ |",
            &format!("L# | {} |", eighty_dots),
            "L# |  |",
            "====",
        ])
    );

    ringline.pop_local_char();

    let dump = dump_to_string(&ringline);
    assert_eq!(
        dump,
        expect(&[
            "====",
            &format!("R# | {} |", eighty_commas),
            "R# | ,,,,^,,,,^ |",
            &format!("L# | {} |", eighty_dots),
            "====",
        ])
    );

    for _ in 0..10 {
        ringline.pop_remote_char();
    }

    let dump = dump_to_string(&ringline);
    assert_eq!(
        dump,
        expect(&[
            "====",
            &format!("R# | {} |", eighty_commas),
            "R# |  |",
            &format!("L# | {} |", eighty_dots),
            "====",
        ])
    );

    ringline.pop_remote_char();

    let dump = dump_to_string(&ringline);
    assert_eq!(
        dump,
        expect(&[
            "====",
            &format!("R# | {} |", eighty_commas),
            &format!("L# | {} |", eighty_dots),
            "====",
        ])
    );

    ringline.submit_remote_editing();
    ringline.submit_local_editing();

    let dump = dump_to_string(&ringline);
    assert_eq!(
        dump,
        expect(&[
            "====",
            &format!("R. | {} |", eighty_commas),
            &format!("L. | {} |", eighty_dots),
            "====",
        ])
    );

    // ---

    let fifteen_local = b"....^....^....^";

    // Push some contents to the user buffer (90)
    for _ in 0..6 {
        fifteen_local.iter().for_each(|c| {
            ringline.append_local_char(*c).unwrap();
        });
    }

    let dump = dump_to_string(&ringline);
    assert_eq!(
        dump,
        expect(&[
            "====",
            &format!("R. | {} |", eighty_commas),
            &format!("L. | {} |", eighty_dots),
            &format!("L# | {} |", eighty_dots),
            "L# | ....^....^ |",
            "====",
        ])
    );

    let fifteen_remote = b",,,,^,,,,^,,,,^";

    // Push some contents to the remote buffer (90)
    for _ in 0..6 {
        fifteen_remote.iter().for_each(|c| {
            ringline.append_remote_char(*c).unwrap();
        });
    }

    let dump = dump_to_string(&ringline);
    assert_eq!(
        dump,
        expect(&[
            "====",
            &format!("R. | {} |", eighty_commas),
            &format!("L. | {} |", eighty_dots),
            &format!("R# | {} |", eighty_commas),
            "R# | ,,,,^,,,,^ |",
            &format!("L# | {} |", eighty_dots),
            "L# | ....^....^ |",
            "====",
        ])
    );

    for _ in 0..10 {
        ringline.pop_local_char();
    }

    let dump = dump_to_string(&ringline);
    assert_eq!(
        dump,
        expect(&[
            "====",
            &format!("R. | {} |", eighty_commas),
            &format!("L. | {} |", eighty_dots),
            &format!("R# | {} |", eighty_commas),
            "R# | ,,,,^,,,,^ |",
            &format!("L# | {} |", eighty_dots),
            "L# |  |",
            "====",
        ])
    );

    ringline.pop_local_char();

    let dump = dump_to_string(&ringline);
    assert_eq!(
        dump,
        expect(&[
            "====",
            &format!("R. | {} |", eighty_commas),
            &format!("L. | {} |", eighty_dots),
            &format!("R# | {} |", eighty_commas),
            "R# | ,,,,^,,,,^ |",
            &format!("L# | {} |", eighty_dots),
            "====",
        ])
    );

    for _ in 0..10 {
        ringline.pop_remote_char();
    }

    let dump = dump_to_string(&ringline);
    assert_eq!(
        dump,
        expect(&[
            "====",
            &format!("R. | {} |", eighty_commas),
            &format!("L. | {} |", eighty_dots),
            &format!("R# | {} |", eighty_commas),
            "R# |  |",
            &format!("L# | {} |", eighty_dots),
            "====",
        ])
    );

    ringline.pop_remote_char();

    let dump = dump_to_string(&ringline);
    assert_eq!(
        dump,
        expect(&[
            "====",
            &format!("R. | {} |", eighty_commas),
            &format!("L. | {} |", eighty_dots),
            &format!("R# | {} |", eighty_commas),
            &format!("L# | {} |", eighty_dots),
            "====",
        ])
    );

    for _ in 0..10 {
        ringline.pop_local_char();
        ringline.pop_remote_char();
    }

    let dump = dump_to_string(&ringline);
    assert_eq!(
        dump,
        expect(&[
            "====",
            &format!("R. | {} |", eighty_commas),
            &format!("L. | {} |", eighty_dots),
            &format!("R# | {} |", ",,,,^".repeat(14)),
            &format!("L# | {} |", "....^".repeat(14)),
            "====",
        ])
    );
}

#[test]
fn multiline() {
    // Create a ringline buffer with 80 characters per line, and 16 lines
    let mut ringline = RingLine::<16, 80>::new();

    let fifteen = b"....^....^....^";

    // Push some contents to the user buffer (15)
    fifteen.iter().for_each(|c| {
        ringline.append_local_char(*c).unwrap();
    });

    let dump = dump_to_string(&ringline);
    assert_eq!(dump, expect(&["====", "L# | ....^....^....^ |", "===="]));

    // Push some contents to the user buffer (30)
    fifteen.iter().for_each(|c| {
        ringline.append_local_char(*c).unwrap();
    });

    let dump = dump_to_string(&ringline);
    assert_eq!(
        dump,
        expect(&["====", &format!("L# | {} |", "....^".repeat(6)), "===="])
    );

    // Push some contents to the user buffer (45)
    fifteen.iter().for_each(|c| {
        ringline.append_local_char(*c).unwrap();
    });
    // Push some contents to the user buffer (60)
    fifteen.iter().for_each(|c| {
        ringline.append_local_char(*c).unwrap();
    });
    // Push some contents to the user buffer (75)
    fifteen.iter().for_each(|c| {
        ringline.append_local_char(*c).unwrap();
    });

    let dump = dump_to_string(&ringline);
    assert_eq!(
        dump,
        expect(&["====", &format!("L# | {} |", "....^".repeat(15)), "===="])
    );

    // Push some contents to the user buffer (90)
    fifteen.iter().for_each(|c| {
        ringline.append_local_char(*c).unwrap();
    });

    let dump = dump_to_string(&ringline);
    assert_eq!(
        dump,
        expect(&[
            "====",
            &format!("L# | {} |", "....^".repeat(16)),
            "L# | ....^....^ |",
            "====",
        ])
    );

    // Push some contents into the remote
    b"hello from remote!".iter().for_each(|c| {
        ringline.append_remote_char(*c).unwrap();
    });

    let dump = dump_to_string(&ringline);
    assert_eq!(
        dump,
        expect(&[
            "====",
            "R# | hello from remote! |",
            &format!("L# | {} |", "....^".repeat(16)),
            "L# | ....^....^ |",
            "====",
        ])
    );

    ringline.submit_local_editing();

    let dump = dump_to_string(&ringline);
    assert_eq!(
        dump,
        expect(&[
            "====",
            &format!("L. | {} |", "....^".repeat(16)),
            "L. | ....^....^ |",
            "R# | hello from remote! |",
            "====",
        ])
    );

    ringline.submit_remote_editing();
}

#[test]
fn interleaved() {
    // Create a ringline buffer with 80 characters per line, and 16 lines
    let mut ringline = RingLine::<16, 80>::new();

    for i in 0..8 {
        // Push some contents into the remote
        format!("hello from remote {i}")
            .as_bytes()
            .iter()
            .for_each(|c| {
                ringline.append_remote_char(*c).unwrap();
            });
        ringline.submit_remote_editing();
        // Push some contents into the local
        format!("hello from local {i}")
            .as_bytes()
            .iter()
            .for_each(|c| {
                ringline.append_local_char(*c).unwrap();
            });
        ringline.submit_local_editing();
    }

    let dump = dump_to_string(&ringline);
    let mut expected: Vec<String> = Vec::new();
    expected.push("====".to_string());
    for i in 0..8 {
        expected.push(format!("R. | hello from remote {i} |"));
        expected.push(format!("L. | hello from local {i} |"));
    }
    expected.push("====".to_string());
    assert_eq!(dump, expected.join("\n"));
}

#[test]
fn overwrite() {
    // Create a ringline buffer with 80 characters per line, and 16 lines
    let mut ringline = RingLine::<16, 80>::new();

    for i in 0..8 {
        // Push some contents into the remote
        format!("hello from remote {i}")
            .as_bytes()
            .iter()
            .for_each(|c| {
                ringline.append_remote_char(*c).unwrap();
            });
        ringline.submit_remote_editing();
        // Push some contents into the local
        format!("hello from local {i}")
            .as_bytes()
            .iter()
            .for_each(|c| {
                ringline.append_local_char(*c).unwrap();
            });
        ringline.submit_local_editing();
    }

    let dump = dump_to_string(&ringline);
    let mut expected: Vec<String> = Vec::new();
    expected.push("====".to_string());
    for i in 0..8 {
        expected.push(format!("R. | hello from remote {i} |"));
        expected.push(format!("L. | hello from local {i} |"));
    }
    expected.push("====".to_string());
    assert_eq!(dump, expected.join("\n"));

    for i in 8..12 {
        // Push some contents into the remote
        format!("hello from remote {i}")
            .as_bytes()
            .iter()
            .for_each(|c| {
                ringline.append_remote_char(*c).unwrap();
            });
        ringline.submit_remote_editing();
        // Push some contents into the local
        format!("hello from local {i}")
            .as_bytes()
            .iter()
            .for_each(|c| {
                ringline.append_local_char(*c).unwrap();
            });
        ringline.submit_local_editing();
    }

    let dump = dump_to_string(&ringline);
    let mut expected: Vec<String> = Vec::new();
    expected.push("====".to_string());
    for i in 4..12 {
        expected.push(format!("R. | hello from remote {i} |"));
        expected.push(format!("L. | hello from local {i} |"));
    }
    expected.push("====".to_string());
    assert_eq!(dump, expected.join("\n"));
}
