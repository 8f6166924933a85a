use blog_markdown::frontmatter::{parse_frontmatter, Frontmatter};
use blog_markdown::metadata::BlogMetadata;

fn value(fm: &Frontmatter, key: &str) -> Option<String> {
    fm.get(key).cloned()
}

#[test]
fn lines_with_a_separator_become_entries() {
    let fm = parse_frontmatter("title: Hello\nauthor: Jane\ndate: 2024-01-02\nbad-line");
    assert_eq!(value(&fm, "title"), Some("Hello".to_string()));
    assert_eq!(value(&fm, "author"), Some("Jane".to_string()));
    assert_eq!(value(&fm, "date"), Some("2024-01-02".to_string()));
    assert_eq!(fm.len(), 3);
    assert_eq!(value(&fm, "bad-line"), None);
    assert_eq!(value(&fm, "bad"), None);
    assert_eq!(value(&fm, ""), None);
}

#[test]
fn empty_input_gives_an_empty_mapping() {
    let fm = parse_frontmatter("");
    assert_eq!(fm.len(), 0);
    assert_eq!(value(&fm, "title"), None);
    assert_eq!(value(&fm, ""), None);
}

#[test]
fn last_value_of_a_key_wins() {
    let fm = parse_frontmatter("title: One\nauthor: Jane\ntitle: Two\n");
    assert_eq!(fm.len(), 2);
    assert_eq!(value(&fm, "title"), Some("Two".to_string()));
    assert_eq!(value(&fm, "author"), Some("Jane".to_string()));
}

#[test]
fn line_is_split_at_the_first_separator() {
    let fm = parse_frontmatter("title: Rust: a review\nurl:http://x\n: nokey\nempty: ");
    assert_eq!(value(&fm, "title"), Some("Rust: a review".to_string()));
    assert_eq!(value(&fm, "url"), None);
    assert_eq!(value(&fm, "url:http"), None);
    assert_eq!(value(&fm, ""), Some("nokey".to_string()));
    assert_eq!(value(&fm, "empty"), Some("".to_string()));
}

#[test]
fn carriage_returns_before_line_feeds_are_dropped() {
    let fm = parse_frontmatter("title: Hello\r\nauthor: Jane\r\n");
    assert_eq!(value(&fm, "title"), Some("Hello".to_string()));
    assert_eq!(value(&fm, "author"), Some("Jane".to_string()));
    let fm = parse_frontmatter("title: Hello\r");
    assert_eq!(value(&fm, "title"), Some("Hello\r".to_string()));
}

#[test]
fn separator_does_not_reach_over_a_line_end() {
    let fm = parse_frontmatter("title:\n value\nkey: v");
    assert_eq!(value(&fm, "title"), None);
    assert_eq!(value(&fm, "title:\n value\nkey"), None);
    assert_eq!(value(&fm, "key"), Some("v".to_string()));
}

#[test]
fn inserted_values_are_found_again() {
    let mut fm = Frontmatter::new();
    assert_eq!(value(&fm, "a"), None);
    fm.insert("a".to_string(), "1".to_string());
    fm.insert("b".to_string(), "2".to_string());
    fm.insert("a".to_string(), "3".to_string());
    assert_eq!(fm.len(), 2);
    assert_eq!(value(&fm, "a"), Some("3".to_string()));
    assert_eq!(value(&fm, "b"), Some("2".to_string()));
    assert_eq!(value(&fm, "c"), None);
}

#[test]
fn metadata_takes_title_author_and_date() {
    let fm = parse_frontmatter("title: Hello\nauthor: Jane\ndate: 2024-01-02\nbad-line");
    let meta = BlogMetadata::new_from_frontmatter(&fm);
    assert_eq!(meta.title, "Hello");
    assert_eq!(meta.author, "Jane");
    assert_eq!(meta.date, "2024-01-02");
    let date = meta.parsed_date.expect("the date is a date");
    assert_eq!((date.year, date.month, date.day), (2024, 1, 2));
    assert_eq!((date.hour, date.minute, date.second), (0, 0, 0));
}

#[test]
fn missing_keys_give_empty_metadata() {
    let meta = BlogMetadata::new_from_frontmatter(&parse_frontmatter("author: Jane"));
    assert_eq!(meta.title, "");
    assert_eq!(meta.author, "Jane");
    assert_eq!(meta.date, "");
    assert_eq!(meta.parsed_date, None);
    assert_eq!(BlogMetadata::new_from_frontmatter(&Frontmatter::new()), BlogMetadata::default());
}

#[test]
fn default_metadata_is_empty() {
    let meta = BlogMetadata::default();
    assert_eq!(meta.title, "");
    assert_eq!(meta.author, "");
    assert_eq!(meta.date, "");
    assert_eq!(meta.parsed_date, None);
}

#[test]
fn date_that_is_no_date_is_kept_as_text_only() {
    let meta = BlogMetadata::new_from_frontmatter(&parse_frontmatter("date: next week"));
    assert_eq!(meta.date, "next week");
    assert_eq!(meta.parsed_date, None);
}
