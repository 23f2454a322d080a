use timber::ndjson::{message_lines, split_lines};
use timber::text::{append_decimal, blank, parse_usize, same_text};

fn decimal(n: usize) -> String {
    let mut out = String::from(">");
    append_decimal(&mut out, n);
    out
}

#[test]
fn numbers_are_written_in_decimal() {
    assert_eq!(decimal(0), ">0");
    assert_eq!(decimal(10), ">10");
    assert_eq!(decimal(1234567890), ">1234567890");
    assert_eq!(decimal(usize::MAX), format!(">{}", usize::MAX));
}

#[test]
fn a_written_number_reads_back() {
    for n in [0, 9, 10, 99, 100, 1318765, usize::MAX] {
        let mut out = String::new();
        append_decimal(&mut out, n);
        assert_eq!(parse_usize(&out), Some(n));
    }
}

#[test]
fn white_space_is_that_of_unicode() {
    for code in 0..0x11_0000u32 {
        if let Some(c) = char::from_u32(code) {
            assert_eq!(blank(&String::from(c)), c.is_whitespace());
        }
    }
    assert!(blank(""));
    assert!(blank(" \t\u{3000}\r\n"));
    assert!(!blank("  x "));
}

#[test]
fn texts_are_compared() {
    assert!(same_text("source", "source"));
    assert!(!same_text("source", "Source"));
    assert!(!same_text("source", "source "));
}

#[test]
fn lines_are_split_as_a_reader_splits_them() {
    let bodies: [&[u8]; 10] = [
        b"",
        b"\n",
        b"\r\n",
        b"a",
        b"a\n",
        b"a\r\n\r\nb\r",
        b"a\n\n\nb",
        b"a\rb\nc\r\r\n",
        b"\r",
        b"x\n\r",
    ];
    for body in bodies {
        let expected: Vec<Vec<u8>> = std::io::BufRead::lines(body)
            .map(|line| line.unwrap().into_bytes())
            .collect();
        assert_eq!(split_lines(body), expected);
    }
    assert_eq!(split_lines(b"a\r\n\nb\r"), vec![b"a".to_vec(), b"".to_vec(), b"b\r".to_vec()]);
}

#[test]
fn framed_lines_read_back() {
    let lines = ["{\"a\":1}", "", "\u{e9}\rx", "end"];
    let mut body: Vec<u8> = Vec::new();
    for line in lines {
        body.extend_from_slice(line.as_bytes());
        body.push(b'\n');
    }
    let read: Vec<Vec<u8>> = lines.iter().map(|line| line.as_bytes().to_vec()).collect();
    assert_eq!(split_lines(&body), read);
    body.extend_from_slice(b"last");
    assert_eq!(split_lines(&body).last(), Some(&b"last".to_vec()));
    assert!(split_lines(&body).iter().all(|line| !line.contains(&b'\n')));
}

#[test]
fn messages_are_the_lines_that_are_not_blank() {
    let found = message_lines("one\n\n \u{2003}\r\ntwo \u{1f332}\n".as_bytes());
    assert_eq!(found.lines, vec!["one".to_string(), "two \u{1f332}".to_string()]);
    assert!(found.complete);
}

#[test]
fn reading_stops_at_invalid_utf8() {
    let found = message_lines(b"one\n\xc3(\ntwo\n");
    assert_eq!(found.lines, vec!["one".to_string()]);
    assert!(!found.complete);
}

#[test]
fn blank_lines_and_the_last_line_feed_change_nothing() {
    let plain = message_lines(b"one\ntwo");
    let bodies: [&[u8]; 6] = [
        b"one\ntwo\n",
        b"\n\none\ntwo",
        b"one\n \t\r\n\r\ntwo\n\n",
        b"one\ntwo\n  ",
        b"one\ntwo\n\r",
        b"\xe3\x80\x80\none\r\ntwo\r\n",
    ];
    for body in bodies {
        let found = message_lines(body);
        assert_eq!(found.lines, plain.lines);
        assert!(found.complete);
    }
    assert_eq!(message_lines(b"one\r").lines, vec!["one\r".to_string()]);
    assert_eq!(message_lines(b"one\r\n").lines, vec!["one".to_string()]);
}

#[test]
fn joined_bodies_hold_the_messages_of_both() {
    let bodies: [&[u8]; 5] = [b"", b"one", b"one\ntwo\n", b"\n", b" x\r\none\n"];
    for a in bodies {
        for b in bodies {
            let mut joined = a.to_vec();
            joined.push(b'\n');
            joined.extend_from_slice(b);
            let mut lines = message_lines(a).lines;
            lines.extend(message_lines(b).lines);
            let found = message_lines(&joined);
            assert_eq!(found.lines, lines);
            assert!(found.complete);
        }
    }
    let found = message_lines(b"one\n\n\xff");
    assert_eq!(found.lines, vec!["one".to_string()]);
    assert!(!found.complete);
}
