use wireguard_keepalived::text::{
    chars_of, is_whitespace, same_text, split_fields, split_lines, split_list,
};

fn std_fields(line: &str) -> Vec<String> {
    line.split_whitespace().map(|f| f.to_string()).collect()
}

fn std_lines(text: &str) -> Vec<String> {
    text.lines().map(|l| l.to_string()).collect()
}

fn std_list(text: &str, sep: char) -> Vec<String> {
    text.split(sep).map(|p| p.to_string()).collect()
}

const SAMPLES: [&str; 16] = [
    "",
    "\n",
    "\r\n",
    "a",
    "a\n",
    "a\r\n",
    "a\r",
    "a\rb\n",
    "a\n\nb",
    "a\r\r\nb\r\n\r\n",
    "\n\na b\tc\n",
    "wg0 key (none) 1.2.3.4:51820 0.0.0.0/0 1700000000 100 200 25\n",
    "  lead and trail  \n\t\n x",
    "caf\u{e9} \u{3000}na\u{ef}ve\u{a0}x\u{2028}y",
    "10.0.0.1/32,fd00::1/128",
    ",a,,b,",
];

#[test]
fn whitespace_agrees_with_unicode_property() {
    let mut n: u32 = 0;
    while n <= 0x10FFFF {
        if let Some(c) = char::from_u32(n) {
            assert_eq!(is_whitespace(c), c.is_whitespace(), "U+{:04X}", n);
        }
        n += 1;
    }
}

#[test]
fn whitespace_named_code_points() {
    for c in ['\t', '\n', '\u{b}', '\u{c}', '\r', ' ', '\u{85}', '\u{a0}', '\u{1680}', '\u{2000}',
        '\u{200a}', '\u{2028}', '\u{2029}', '\u{202f}', '\u{205f}', '\u{3000}']
    {
        assert!(is_whitespace(c), "U+{:04X}", c as u32);
    }
    for c in ['\u{8}', '\u{e}', '\u{1f}', '!', '0', 'a', '\u{84}', '\u{86}', '\u{9f}', '\u{a1}',
        '\u{1fff}', '\u{200b}', '\u{2027}', '\u{202a}', '\u{2060}', '\u{2fff}', '\u{3001}',
        '\u{feff}']
    {
        assert!(!is_whitespace(c), "U+{:04X}", c as u32);
    }
}

#[test]
fn chars_of_keeps_every_character() {
    assert_eq!(chars_of("wg0 \u{e9}\t"), vec!['w', 'g', '0', ' ', '\u{e9}', '\t']);
    assert_eq!(chars_of(""), Vec::<char>::new());
    for s in SAMPLES {
        assert_eq!(chars_of(s), s.chars().collect::<Vec<char>>());
    }
}

#[test]
fn split_fields_drops_all_white_space() {
    assert_eq!(split_fields("  wg0\tabc  25 \r"), vec!["wg0", "abc", "25"]);
    assert_eq!(split_fields(""), Vec::<String>::new());
    assert_eq!(split_fields(" \t \u{3000}"), Vec::<String>::new());
    assert_eq!(split_fields("one"), vec!["one"]);
    assert_eq!(split_fields("a\u{a0}b\u{2003}c"), vec!["a", "b", "c"]);
}

#[test]
fn split_fields_agrees_with_split_whitespace() {
    for s in SAMPLES {
        assert_eq!(split_fields(s), std_fields(s), "{:?}", s);
    }
}

#[test]
fn split_fields_yields_nine_columns_of_a_peer_line() {
    let f = split_fields("wg0 PUB (none) 1.2.3.4:51820 0.0.0.0/0 1700000000 100 200 25");
    assert_eq!(
        f,
        vec!["wg0", "PUB", "(none)", "1.2.3.4:51820", "0.0.0.0/0", "1700000000", "100", "200", "25"]
    );
}

#[test]
fn split_lines_ends_lines_at_line_feeds() {
    assert_eq!(split_lines(""), Vec::<String>::new());
    assert_eq!(split_lines("\n"), vec![""]);
    assert_eq!(split_lines("a"), vec!["a"]);
    assert_eq!(split_lines("a\n"), vec!["a"]);
    assert_eq!(split_lines("a\nb"), vec!["a", "b"]);
    assert_eq!(split_lines("a\n\nb\n"), vec!["a", "", "b"]);
}

#[test]
fn split_lines_takes_a_carriage_return_only_before_a_line_feed() {
    assert_eq!(split_lines("a\r\nb"), vec!["a", "b"]);
    assert_eq!(split_lines("a\r"), vec!["a\r"]);
    assert_eq!(split_lines("a\rb\n"), vec!["a\rb"]);
    assert_eq!(split_lines("a\r\r\n"), vec!["a\r"]);
    assert_eq!(split_lines("\r\n"), vec![""]);
}

#[test]
fn split_lines_agrees_with_lines() {
    for s in SAMPLES {
        assert_eq!(split_lines(s), std_lines(s), "{:?}", s);
    }
}

#[test]
fn split_list_keeps_empty_pieces() {
    assert_eq!(split_list("", ','), vec![""]);
    assert_eq!(split_list("a", ','), vec!["a"]);
    assert_eq!(split_list("a,b", ','), vec!["a", "b"]);
    assert_eq!(split_list(",a,,b,", ','), vec!["", "a", "", "b", ""]);
    assert_eq!(split_list("10.0.0.1/32,fd00::1/128", ','), vec!["10.0.0.1/32", "fd00::1/128"]);
    assert_eq!(split_list("a,b", ';'), vec!["a,b"]);
}

#[test]
fn split_list_agrees_with_split() {
    for s in SAMPLES {
        assert_eq!(split_list(s, ','), std_list(s, ','), "{:?}", s);
        assert_eq!(split_list(s, '\n'), std_list(s, '\n'), "{:?}", s);
    }
}

#[test]
fn same_text_compares_every_character() {
    assert!(same_text("", ""));
    assert!(same_text("(none)", "(none)"));
    assert!(!same_text("(none)", "(none"));
    assert!(!same_text("(none)", "(nonE)"));
    assert!(!same_text("a", ""));
    assert!(!same_text("wg0", "wg1"));
    for a in SAMPLES {
        for b in SAMPLES {
            assert_eq!(same_text(a, b), a == b);
        }
    }
}
