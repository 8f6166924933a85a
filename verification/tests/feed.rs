use blog_markdown::date::parse_date;
use blog_markdown::feed::sort_posts;
use blog_markdown::metadata::BlogMetadata;
use blog_markdown::post::BlogPost;

fn post(id: &str, date: &str) -> BlogPost {
    BlogPost {
        id: id.to_string(),
        content: String::new(),
        metadata: BlogMetadata {
            title: String::new(),
            author: String::new(),
            date: date.to_string(),
            parsed_date: parse_date(date),
        },
    }
}

fn ids(posts: &[BlogPost]) -> Vec<&str> {
    posts.iter().map(|p| p.id.as_str()).collect()
}

#[test]
fn posts_in_order_stay_in_order() {
    let sorted = sort_posts(vec![post("a", "2024-03-01"), post("b", "2024-01-01"), post("c", "")]);
    assert_eq!(ids(&sorted), vec!["a", "b", "c"]);
    let dates: Vec<&str> = sorted.iter().map(|p| p.metadata.date.as_str()).collect();
    assert_eq!(dates, vec!["2024-03-01", "2024-01-01", ""]);
}

#[test]
fn newest_post_comes_first_and_undated_last() {
    let sorted = sort_posts(vec![post("c", ""), post("b", "2024-01-01"), post("a", "2024-03-01")]);
    assert_eq!(ids(&sorted), vec!["a", "b", "c"]);
    let sorted = sort_posts(vec![post("b", "2024-01-01"), post("c", ""), post("a", "2024-03-01")]);
    assert_eq!(ids(&sorted), vec!["a", "b", "c"]);
}

#[test]
fn posts_of_the_same_date_keep_their_order() {
    let sorted = sort_posts(vec![
        post("u1", ""),
        post("x1", "2024-01-01"),
        post("u2", "not a date"),
        post("x2", "2024-01-01"),
        post("y", "2024-01-01T00:00:01"),
        post("x3", "2024-01-01 00:00:00"),
        post("u3", ""),
    ]);
    assert_eq!(ids(&sorted), vec!["y", "x1", "x2", "x3", "u1", "u2", "u3"]);
}

#[test]
fn short_lists_are_sorted() {
    assert!(sort_posts(Vec::new()).is_empty());
    let one = sort_posts(vec![post("a", "")]);
    assert_eq!(one, vec![post("a", "")]);
    let two = sort_posts(vec![post("old", "1999-12-31"), post("new", "2000-01-01")]);
    assert_eq!(two, vec![post("new", "2000-01-01"), post("old", "1999-12-31")]);
}

#[test]
fn sorting_a_sorted_feed_changes_nothing() {
    let posts = vec![
        post("a", "2021-05-05"),
        post("b", ""),
        post("c", "2023-01-01"),
        post("d", "2022-02-02"),
        post("e", ""),
        post("f", "2023-01-01"),
    ];
    let once = sort_posts(posts);
    assert_eq!(ids(&once), vec!["c", "f", "d", "a", "b", "e"]);
    let twice = sort_posts(once.clone());
    assert_eq!(once, twice);
}
