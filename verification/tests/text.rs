use bootloader::text::{find_char, is_white_space, lines, parse_usize, same_text, trim};

const SAMPLES: [&str; 12] = [
    "",
    " ",
    "a",
    "  a b \t",
    "\u{3000}wide\u{2003}",
    "\u{85}\u{a0}x\u{200b}",
    "one\ntwo",
    "one\ntwo\n",
    "\n\n",
    "\r\none\r\n",
    "na\u{ef}ve \u{1f600}\n\u{4e2d}",
    "tail\n\nend",
];

#[test]
fn white_space_is_that_of_unicode() {
    for c in '\0'..=char::MAX {
        assert_eq!(is_white_space(c), c.is_whitespace(), "{:?}", c);
    }
}

#[test]
fn trimming_takes_white_space_off_both_ends() {
    for s in SAMPLES {
        assert_eq!(trim(s), s.trim());
    }
}

#[test]
fn lines_stand_between_line_feeds() {
    for s in SAMPLES {
        let ours: Vec<&str> = lines(s)
            .into_iter()
            .map(|l| l.strip_suffix('\r').unwrap_or(l))
            .collect();
        let theirs: Vec<&str> = s.lines().collect();
        assert_eq!(ours, theirs);
        for line in lines(s) {
            assert!(!line.contains('\n'));
        }
    }
}

#[test]
fn numbers_are_decimal() {
    for s in [
        "", "+", "-", "0", "+0", "007", "42", "+42", "-1", "4 2", " 4", "4a", "++1", "\u{664}",
        "18446744073709551615", "18446744073709551616", "00000000000000000000000000000000000000001",
        "99999999999999999999999999",
    ] {
        assert_eq!(parse_usize(s), s.parse::<usize>().ok(), "{:?}", s);
    }
}

#[test]
fn texts_are_compared_and_searched() {
    for a in SAMPLES {
        for b in SAMPLES {
            assert_eq!(same_text(a, b), a == b);
        }
    }
    assert_eq!(find_char("na\u{ef}ve", 'v'), 3);
    assert_eq!(find_char("abc", 'x'), 3);
    assert_eq!(find_char("", 'x'), 0);
}
