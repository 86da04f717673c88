use taskmd::checkbox::{format_line, parse_line};
use taskmd::hash_map_task::Task;
use taskmd::text::{contains, from_chars, is_whitespace, join, split, to_chars, trim_bounds};

fn task(description: &str, is_completed: bool) -> Task {
    Task { is_completed, description: description.to_string() }
}

#[test]
fn whitespace_agrees_with_the_standard_library() {
    let mut n: u32 = 0;
    while n <= 0x3100 {
        if let Some(c) = char::from_u32(n) {
            assert_eq!(is_whitespace(c), c.is_whitespace(), "code point {}", n);
        }
        n += 1;
    }
    assert!(!is_whitespace('\u{10FFFF}'));
}

#[test]
fn chars_round_trip() {
    let v = to_chars("héllo wörld");
    assert_eq!(v.len(), 11);
    assert_eq!(from_chars(&v, 0, v.len()), "héllo wörld");
    assert_eq!(from_chars(&v, 1, 5), "éllo");
    assert_eq!(from_chars(&v, 3, 3), "");
}

#[test]
fn trim_bounds_match_str_trim() {
    for s in ["", "   ", "a", "  a b  ", "\t x\u{a0}\n", "no space", " \u{3000}wide\u{2003} "] {
        let v = to_chars(s);
        let (a, b) = trim_bounds(&v, 0, v.len());
        assert_eq!(from_chars(&v, a, b), s.trim(), "input {:?}", s);
    }
    let v = to_chars("ab  cd  ef");
    assert_eq!(trim_bounds(&v, 2, 8), (4, 6));
    assert_eq!(trim_bounds(&v, 2, 4), (4, 4));
}

#[test]
fn split_cuts_at_each_line_feed() {
    assert_eq!(split(""), vec![""]);
    assert_eq!(split("a"), vec!["a"]);
    assert_eq!(split("a\nb"), vec!["a", "b"]);
    assert_eq!(split("a\n"), vec!["a", ""]);
    assert_eq!(split("\n\nx\n"), vec!["", "", "x", ""]);
    let text = "one\n two \r\n\nthree";
    let expected: Vec<String> = text.split('\n').map(|l| l.to_string()).collect();
    assert_eq!(split(text), expected);
}

#[test]
fn join_puts_a_line_feed_between_lines() {
    assert_eq!(join(&Vec::new()), "");
    assert_eq!(join(&vec!["a".to_string()]), "a");
    assert_eq!(join(&vec!["a".to_string(), "b".to_string(), "".to_string()]), "a\nb\n");
    let lines = vec!["x".to_string(), "".to_string(), "y z".to_string()];
    assert_eq!(split(&join(&lines)), lines);
}

#[test]
fn contains_finds_infixes() {
    assert!(contains("hello", ""));
    assert!(contains("", ""));
    assert!(!contains("", "a"));
    assert!(contains("hello", "hello"));
    assert!(contains("hello", "ell"));
    assert!(contains("hello", "lo"));
    assert!(!contains("hello", "hello!"));
    assert!(!contains("hello", "elo"));
    assert!(!contains("Hello", "hello"));
    assert!(contains("aaab", "aab"));
}

#[test]
fn parse_line_reads_checkbox_lines() {
    assert_eq!(parse_line("- [ ] buy milk"), Some(task("buy milk", false)));
    assert_eq!(parse_line("- [x] done"), Some(task("done", true)));
    assert_eq!(parse_line("- [X] done"), Some(task("done", true)));
    assert_eq!(parse_line("   - [x] complete task  "), Some(task("complete task", true)));
    assert_eq!(parse_line("- [ ]    wide   gap "), Some(task("wide   gap", false)));
    assert_eq!(parse_line("- [ ] - [x] nested"), Some(task("- [x] nested", false)));
    assert_eq!(parse_line("- [ ] é"), Some(task("é", false)));
}

#[test]
fn parse_line_leaves_other_lines() {
    for line in [
        "",
        "hello",
        "- this is a note",
        "- [ ]",
        "- [ ] ",
        "- [ ]   ",
        "- [y] no",
        "- [] no",
        "-[ ] no",
        "- [ ]no",
        "* [ ] no",
        "- [xx] no",
        "text - [ ] inside",
        "- [ ]\ttab",
        "-  [ ] two spaces",
    ] {
        assert_eq!(parse_line(line), None, "line {:?}", line);
    }
}

#[test]
fn format_line_writes_checkbox_lines() {
    assert_eq!(format_line(&task("buy milk", false)), "- [ ] buy milk");
    assert_eq!(format_line(&task("done", true)), "- [x] done");
    assert_eq!(format_line(&task("", true)), "- [x] ");
    let t = task("round trip", true);
    assert_eq!(parse_line(&format_line(&t)), Some(t));
}

#[test]
fn printable_leaves_out_the_controls() {
    let mut n: u32 = 0;
    while n <= 0x200 {
        if let Some(c) = char::from_u32(n) {
            assert_eq!(taskmd::text::is_printable(c), !c.is_control(), "code point {}", n);
        }
        n += 1;
    }
}

#[test]
fn buffers_grow_and_shrink_by_one_character() {
    assert_eq!(taskmd::text::with_char("", 'a'), "a");
    assert_eq!(taskmd::text::with_char("añ", 'ö'), "añö");
    assert_eq!(taskmd::text::without_last("añö"), "añ");
    assert_eq!(taskmd::text::without_last("a"), "");
    assert_eq!(taskmd::text::without_last(""), "");
    assert_eq!(taskmd::text::trimmed("  x y \n"), "x y");
}

#[test]
fn parse_number_agrees_with_the_standard_library() {
    for s in [
        "", "+", "-", "0", "7", "42", "007", "+5", "+05", "-5", "-0", "++5", "5+", " 5", "5 ",
        "5a", "a5", "1_000", "٣", "1.0", "0x10", "18446744073709551615", "18446744073709551616",
        "99999999999999999999999999", "4294967295", "4294967296", "+18446744073709551615",
        "000000000000000000000000000001",
    ] {
        assert_eq!(taskmd::text::parse_number(s), s.parse::<usize>().ok(), "input {:?}", s);
    }
    assert_eq!(taskmd::text::parse_number("12"), Some(12));
    assert_eq!(taskmd::text::parse_number("+3"), Some(3));
    assert_eq!(taskmd::text::parse_number("x"), None);
}
