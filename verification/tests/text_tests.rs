use proxychains_changer::text::{
    chars_of, chars_of_each, contains, find, is_space, join_lines, split_lines, starts_with,
    string_of, strings_of, strip_leading, trim, trim_start,
};

fn chars(s: &str) -> Vec<char> {
    s.chars().collect()
}

fn text(v: &[char]) -> String {
    v.iter().collect()
}

fn lines(s: &str) -> Vec<String> {
    split_lines(&chars(s)).iter().map(|l| text(l)).collect()
}

const SAMPLES: [&str; 24] = [
    "",
    "\n",
    "\n\n",
    "a",
    "a\n",
    "a\nb",
    "a\r\nb\r\n",
    "a\r",
    "a\r\r\n",
    "\r\n",
    "\r",
    "a\n\nb\n",
    "  # socks5 \t127.0.0.1 9050",
    "# comment\nsocks5 \t127.0.0.1 9050\n\nhttp 10.0.0.1 8080",
    "\u{a0}\u{2003}x\u{3000}",
    " \t\n x y \r\n",
    "##  #a",
    "h\u{e9}llo, w\u{f6}rld: 1",
    "\u{85}a\u{85}",
    "a\nb\r",
    "\n\r\n\r",
    "a,b:c",
    "\u{1680}\u{2028}\u{2029}\u{202f}\u{205f}z",
    "\u{200b}a",
];

#[test]
fn conversions_keep_the_text() {
    for s in SAMPLES {
        assert_eq!(chars_of(s), chars(s));
        assert_eq!(string_of(&chars(s)), s);
    }
    let items = vec!["a b".to_string(), String::new(), "\u{e9}".to_string()];
    let as_chars = chars_of_each(&items);
    assert_eq!(as_chars, vec![chars("a b"), chars(""), chars("\u{e9}")]);
    assert_eq!(strings_of(&as_chars), items);
}

#[test]
fn white_space_is_the_unicode_property() {
    let mut code: u32 = 0;
    while code <= 0x10ffff {
        if let Some(c) = char::from_u32(code) {
            assert_eq!(is_space(c), c.is_whitespace(), "U+{:04X}", code);
        }
        code += 1;
    }
}

#[test]
fn lines_are_those_of_the_standard_library() {
    for s in SAMPLES {
        let expected: Vec<String> = s.lines().map(|l| l.to_string()).collect();
        assert_eq!(lines(s), expected, "{:?}", s);
    }
}

#[test]
fn lines_of_edge_cases() {
    assert_eq!(lines(""), Vec::<String>::new());
    assert_eq!(lines("\n"), vec![""]);
    assert_eq!(lines("a\r\nb"), vec!["a", "b"]);
    assert_eq!(lines("a\r"), vec!["a\r"]);
    assert_eq!(lines("a\r\r\n"), vec!["a\r"]);
    assert_eq!(lines("a\n\nb\n"), vec!["a", "", "b"]);
}

#[test]
fn join_puts_one_line_feed_between_lines() {
    assert_eq!(text(&join_lines(&vec![])), "");
    assert_eq!(text(&join_lines(&vec![chars("a")])), "a");
    assert_eq!(text(&join_lines(&vec![chars("a"), chars("b")])), "a\nb");
    assert_eq!(text(&join_lines(&vec![chars("a"), chars(""), chars("")])), "a\n\n");
    for s in SAMPLES {
        let parts: Vec<String> = s.lines().map(|l| l.to_string()).collect();
        assert_eq!(text(&join_lines(&split_lines(&chars(s)))), parts.join("\n"));
    }
}

#[test]
fn trimming_is_that_of_the_standard_library() {
    for s in SAMPLES {
        assert_eq!(text(&trim_start(&chars(s))), s.trim_start(), "{:?}", s);
        assert_eq!(text(&trim(&chars(s))), s.trim(), "{:?}", s);
        assert_eq!(text(&strip_leading(&chars(s), '#')), s.trim_start_matches('#'), "{:?}", s);
    }
    assert_eq!(text(&trim(&chars("  a b \t"))), "a b");
    assert_eq!(text(&trim_start(&chars("  a b \t"))), "a b \t");
    assert_eq!(text(&strip_leading(&chars("## #a"), '#')), " #a");
}

#[test]
fn searching_is_that_of_the_standard_library() {
    let patterns = ["", "a", "b", "\n", "socks5", "# ", ":", ",", "\u{e9}", "ab", "a\nb", "\r"];
    for s in SAMPLES {
        for p in patterns {
            let expected = s.find(p).map(|at| s[..at].chars().count());
            assert_eq!(find(&chars(s), &chars(p)), expected, "{:?} in {:?}", p, s);
            assert_eq!(contains(&chars(s), &chars(p)), s.contains(p));
            assert_eq!(starts_with(&chars(s), &chars(p)), s.starts_with(p));
        }
    }
    assert_eq!(find(&chars("abcabc"), &chars("bc")), Some(1));
    assert_eq!(find(&chars("abc"), &chars("abcd")), None);
    assert_eq!(find(&chars(""), &chars("")), Some(0));
}

#[test]
fn written_lines_are_read_back_but_for_an_empty_last_line_and_carriage_returns() {
    let written: [&[&str]; 9] = [
        &[],
        &[""],
        &["a"],
        &["a", ""],
        &["a", "", ""],
        &["a\r", "b\r"],
        &["a\r", ""],
        &["", "", "x"],
        &["\r", "\r"],
    ];
    for case in written {
        let as_chars: Vec<Vec<char>> = case.iter().map(|l| chars(l)).collect();
        let count = if case.last() == Some(&"") { case.len() - 1 } else { case.len() };
        let mut expected: Vec<String> = Vec::new();
        for (i, line) in case.iter().enumerate().take(count) {
            if i + 1 < case.len() {
                expected.push(line.strip_suffix('\r').unwrap_or(line).to_string());
            } else {
                expected.push(line.to_string());
            }
        }
        assert_eq!(lines(&text(&join_lines(&as_chars))), expected, "{:?}", case);
    }
    assert_eq!(lines(&text(&join_lines(&vec![chars("a\r"), chars("b\r")]))), vec!["a", "b\r"]);
}
