use blog_markdown::text::{
    chars_of, find, find_in, line_number, line_ranges, same_text, string_of, take_lines,
    to_decimal,
};

fn chars(s: &str) -> Vec<char> {
    s.chars().collect()
}

#[test]
fn characters_and_strings_convert_both_ways() {
    assert_eq!(chars_of("a\u{e9}\u{1f600}"), vec!['a', '\u{e9}', '\u{1f600}']);
    assert_eq!(chars_of(""), Vec::<char>::new());
    let v = chars("hello world");
    assert_eq!(string_of(&v, 0, 11), "hello world");
    assert_eq!(string_of(&v, 6, 11), "world");
    assert_eq!(string_of(&v, 3, 3), "");
    assert!(same_text("abc", "abc"));
    assert!(!same_text("abc", "abd"));
    assert!(!same_text("abc", "ab"));
}

#[test]
fn first_occurrence_is_found() {
    let hay = chars("a: b: c");
    let pat = chars(": ");
    assert_eq!(find(&hay, &pat, 0), Some(1));
    assert_eq!(find(&hay, &pat, 1), Some(1));
    assert_eq!(find(&hay, &pat, 2), Some(4));
    assert_eq!(find(&hay, &pat, 5), None);
    assert_eq!(find(&hay, &pat, 100), None);
    assert_eq!(find(&hay, &chars("c"), 0), Some(6));
    assert_eq!(find(&hay, &chars("a: b: c!"), 0), None);
    assert_eq!(find(&hay, &chars(""), 3), Some(3));
    assert_eq!(find(&hay, &chars(""), 7), Some(7));
    assert_eq!(find(&hay, &chars(""), 8), None);
    assert_eq!(find_in(&hay, &pat, 0, 2), None);
    assert_eq!(find_in(&hay, &pat, 0, 3), Some(1));
    assert_eq!(find_in(&hay, &pat, 2, 5), None);
    assert_eq!(find_in(&hay, &pat, 2, 6), Some(4));
}

#[test]
fn lines_end_at_line_feeds() {
    assert_eq!(line_ranges(&chars("")), vec![]);
    assert_eq!(line_ranges(&chars("abc")), vec![(0, 3)]);
    assert_eq!(line_ranges(&chars("abc\n")), vec![(0, 3)]);
    assert_eq!(line_ranges(&chars("a\n\nb")), vec![(0, 1), (2, 2), (3, 4)]);
    assert_eq!(line_ranges(&chars("\n")), vec![(0, 0)]);
    assert_eq!(line_ranges(&chars("a\r\nb\r")), vec![(0, 1), (3, 5)]);
    assert_eq!(line_ranges(&chars("\r\n\r\r\n")), vec![(0, 0), (2, 3)]);
}

#[test]
fn lines_agree_with_the_standard_library() {
    let samples = ["", "a", "a\n", "a\nb", "a\r\nb\r\n", "\n\n", "a\rb\n", "x\r", "\r\n", "a\n\r\nb\n\n"];
    for sample in samples {
        let v = chars(sample);
        let ours: Vec<String> =
            line_ranges(&v).iter().map(|&(from, to)| string_of(&v, from, to)).collect();
        let theirs: Vec<String> = sample.lines().map(|l| l.to_string()).collect();
        assert_eq!(ours, theirs, "lines of {:?}", sample);
    }
}

#[test]
fn first_lines_are_kept() {
    assert_eq!(take_lines("one\ntwo\nthree\nfour\n", 3), "one\ntwo\nthree");
    assert_eq!(take_lines("one\ntwo", 3), "one\ntwo");
    assert_eq!(take_lines("one\r\ntwo\r\nthree\r\nfour", 3), "one\ntwo\nthree");
    assert_eq!(take_lines("\n\n\n\n", 3), "\n\n");
    assert_eq!(take_lines("", 3), "");
    assert_eq!(take_lines("one\ntwo", 0), "");
    assert_eq!(take_lines("one\ntwo", 1), "one");
}

#[test]
fn line_numbers_count_from_one() {
    let text = "a\nbc\n\nd\u{e9}\ne";
    assert_eq!(line_number(text, 0), 1);
    assert_eq!(line_number(text, 1), 1);
    assert_eq!(line_number(text, 2), 2);
    assert_eq!(line_number(text, 4), 2);
    assert_eq!(line_number(text, 5), 3);
    assert_eq!(line_number(text, 6), 4);
    assert_eq!(line_number(text, 9), 4);
    assert_eq!(line_number(text, 10), 5);
    assert_eq!(line_number(text, 1000), 5);
    assert_eq!(line_number("", 0), 1);
    assert_eq!(line_number("\n\n", 2), 3);
}

#[test]
fn numbers_are_written_in_decimal() {
    assert_eq!(to_decimal(0), "0");
    assert_eq!(to_decimal(7), "7");
    assert_eq!(to_decimal(10), "10");
    assert_eq!(to_decimal(1234567890), "1234567890");
    assert_eq!(to_decimal(usize::MAX), usize::MAX.to_string());
}
