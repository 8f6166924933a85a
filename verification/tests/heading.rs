use blog_markdown::event::{HeadingLevel, OutEvent};
use blog_markdown::heading::{close_heading, open_heading, RenderMode};

fn text(s: &str) -> OutEvent {
    OutEvent::Text(s.to_string())
}

fn html(s: &str) -> OutEvent {
    OutEvent::Html(s.to_string())
}

#[test]
fn article_heading_opens_with_its_id() {
    assert_eq!(
        open_heading(RenderMode::Article, "/blog/my-post", HeadingLevel::H1, "intro"),
        vec![html("<h1 id=\"intro\">")]
    );
    assert_eq!(
        open_heading(RenderMode::Article, "/blog/my-post", HeadingLevel::H4, "a-b"),
        vec![html("<h4 id=\"a-b\">")]
    );
}

#[test]
fn article_heading_closes_with_a_permalink() {
    assert_eq!(
        close_heading(RenderMode::Article, "/blog/my-post", HeadingLevel::H1, "intro"),
        vec![
            text(" ["),
            html("<a href=\"/blog/my-post#intro\" style=\"text-decoration: none;\">#</a>"),
            text("]"),
            html("</h1>"),
        ]
    );
}

#[test]
fn preview_heading_is_wrapped_in_a_link() {
    assert_eq!(
        open_heading(RenderMode::Preview, "/blog/my-post", HeadingLevel::H2, "intro"),
        vec![html("<a href=\"/blog/my-post#intro\"><h2 id=\"intro\">")]
    );
    assert_eq!(
        close_heading(RenderMode::Preview, "/blog/my-post", HeadingLevel::H2, "intro"),
        vec![html("</h2></a>")]
    );
}

#[test]
fn every_level_has_its_tag() {
    let levels = [
        (HeadingLevel::H1, "h1", 1),
        (HeadingLevel::H2, "h2", 2),
        (HeadingLevel::H3, "h3", 3),
        (HeadingLevel::H4, "h4", 4),
        (HeadingLevel::H5, "h5", 5),
        (HeadingLevel::H6, "h6", 6),
    ];
    for (level, tag, number) in levels {
        assert_eq!(level.tag_name(), tag);
        assert_eq!(HeadingLevel::from_number(number), Some(level));
    }
    assert_eq!(HeadingLevel::from_number(0), None);
    assert_eq!(HeadingLevel::from_number(7), None);
}
