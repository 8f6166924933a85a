use blog_markdown::diagnostic::Diagnostic;
use blog_markdown::event::{HeadingLevel, MdEvent};
use blog_markdown::highlight::render_code_block;
use blog_markdown::markdown::{
    blog, blog_preview, blog_render_context, build_parser, classify, parse_blog_markdown,
    render_document, RawEvent,
};
use blog_markdown::post::{post_id, BlogPost};

const POST: &str = "---\ntitle: Hello\nauthor: Jane\ndate: 2024-01-02\nbad-line\n---\n\n# Intro {#intro}\n\nSome text with a note^^1^^.\n\n```nosuchlang\nlet x = 1;\n```\n";

#[test]
fn parser_gives_the_events_of_a_document() {
    let events = build_parser("# Intro {#intro}\n\nText\n\n```rust\nfn main() {}\n```\n");
    assert_eq!(
        events,
        vec![
            MdEvent::HeadingStart { level: HeadingLevel::H1, id: Some("intro".to_string()) },
            MdEvent::Text("Intro".to_string()),
            MdEvent::HeadingEnd { level: HeadingLevel::H1 },
            MdEvent::Other,
            MdEvent::Text("Text".to_string()),
            MdEvent::Other,
            MdEvent::CodeStart { language: "rust".to_string(), line: 5 },
            MdEvent::Text("fn main() {}\n".to_string()),
            MdEvent::CodeEnd,
        ]
    );
    assert!(build_parser("").is_empty());
}

#[test]
fn parser_marks_metadata_blocks() {
    let events = build_parser("---\ntitle: Hello\n---\n\n## Plain\n");
    assert_eq!(
        events,
        vec![
            MdEvent::MetadataStart,
            MdEvent::Text("title: Hello\n".to_string()),
            MdEvent::MetadataEnd,
            MdEvent::HeadingStart { level: HeadingLevel::H2, id: None },
            MdEvent::Text("Plain".to_string()),
            MdEvent::HeadingEnd { level: HeadingLevel::H2 },
        ]
    );
}

#[test]
fn parser_events_are_classified() {
    let md = "a\nb\nc";
    assert_eq!(
        classify(RawEvent::Text("t".to_string()), md),
        MdEvent::Text("t".to_string())
    );
    assert_eq!(
        classify(RawEvent::HeadingStart(3, Some("x".to_string())), md),
        MdEvent::HeadingStart { level: HeadingLevel::H3, id: Some("x".to_string()) }
    );
    assert_eq!(classify(RawEvent::HeadingStart(7, None), md), MdEvent::Other);
    assert_eq!(classify(RawEvent::HeadingEnd(6), md), MdEvent::HeadingEnd { level: HeadingLevel::H6 });
    assert_eq!(classify(RawEvent::HeadingEnd(0), md), MdEvent::Other);
    assert_eq!(
        classify(RawEvent::CodeStart("rs".to_string(), 4), md),
        MdEvent::CodeStart { language: "rs".to_string(), line: 3 }
    );
    assert_eq!(classify(RawEvent::CodeEnd, md), MdEvent::CodeEnd);
    assert_eq!(classify(RawEvent::MetadataStart, md), MdEvent::MetadataStart);
    assert_eq!(classify(RawEvent::MetadataEnd, md), MdEvent::MetadataEnd);
    assert_eq!(classify(RawEvent::Other, md), MdEvent::Other);
}

#[test]
fn article_heading_is_rendered_with_a_permalink() {
    assert_eq!(
        parse_blog_markdown("my-post", "# Intro {#intro}\n", false),
        "<h1 id=\"intro\">Intro [<a href=\"/blog/my-post#intro\" style=\"text-decoration: none;\">#</a>]</h1>"
    );
    assert_eq!(
        blog("my-post", "# Intro {#intro}\n"),
        parse_blog_markdown("my-post", "# Intro {#intro}\n", false)
    );
}

#[test]
fn preview_heading_is_rendered_as_a_link() {
    assert_eq!(
        parse_blog_markdown("my-post", "# Intro {#intro}\n", true),
        "<a href=\"/blog/my-post#intro\"><h1 id=\"intro\">Intro</h1></a>"
    );
}

#[test]
fn heading_without_id_is_rendered_as_usual() {
    for is_preview in [false, true] {
        assert_eq!(
            parse_blog_markdown("my-post", "## Plain *heading*\n", is_preview),
            "<h2>Plain <em>heading</em></h2>\n"
        );
    }
}

#[test]
fn paragraphs_pass_through_with_superscripts() {
    assert_eq!(
        parse_blog_markdown("p", "A note^^1^^ and *more* <text>.\n", false),
        "<p>A note<sup>1</sup> and <em>more</em> <text>.</p>\n"
    );
    assert_eq!(
        parse_blog_markdown("p", "a^^b & c < d\n", false),
        "<p>a^^b &amp; c &lt; d</p>\n"
    );
    assert_eq!(parse_blog_markdown("p", "", false), "");
}

#[test]
fn whole_post_is_rendered() {
    let ctx = blog_render_context("my-post", false);
    assert_eq!(ctx.post_id, "my-post");
    assert_eq!(ctx.page_url, "/blog/my-post");
    let rendered = render_document(&ctx, POST);
    let code = render_code_block("let x = 1;\n", "nosuchlang");
    assert_eq!(
        rendered.html,
        format!(
            "<h1 id=\"intro\">Intro [<a href=\"/blog/my-post#intro\" style=\"text-decoration: none;\">#</a>]</h1>\n<p>Some text with a note<sup>1</sup>.</p>\n{}",
            code.html
        )
    );
    assert_eq!(rendered.metadata.title, "Hello");
    assert_eq!(rendered.metadata.author, "Jane");
    assert_eq!(rendered.metadata.date, "2024-01-02");
    assert!(rendered.metadata.parsed_date.is_some());
    assert_eq!(
        rendered.diagnostics,
        vec![Diagnostic {
            post_id: "my-post".to_string(),
            line: 12,
            token: "nosuchlang".to_string()
        }]
    );
    assert_eq!(parse_blog_markdown("my-post", POST, false), rendered.html);
}

#[test]
fn fenced_code_is_highlighted() {
    let html = parse_blog_markdown("p", "```rust\nfn main() {}\n```\n", false);
    assert_eq!(html, render_code_block("fn main() {}\n", "rust").html);
    assert!(html.contains("<span style=\"font-weight:bold;color:#a71d5d;\">fn </span>"));
}

#[test]
fn indented_code_is_left_to_the_renderer() {
    assert_eq!(
        parse_blog_markdown("p", "    let x = 1;\n", false),
        "<pre><code>let x = 1;\n</code></pre>\n"
    );
}

#[test]
fn preview_shows_the_first_three_lines() {
    let source = "# Title {#t}\n\nFirst paragraph.\n\nSecond paragraph.\n";
    assert_eq!(
        blog_preview("my-post", source),
        "<a href=\"/blog/my-post#t\"><h1 id=\"t\">Title</h1></a>\n<p>First paragraph.</p>\n"
    );
    assert_eq!(
        blog_preview("my-post", source),
        parse_blog_markdown("my-post", "# Title {#t}\n\nFirst paragraph.", true)
    );
}

#[test]
fn preview_cut_inside_a_code_fence_is_still_rendered() {
    let source = "Intro\n\n```rust\nfn main() {}\n```\n\nMore text\n";
    let html = blog_preview("my-post", source);
    assert_eq!(html, format!("<p>Intro</p>\n{}", render_code_block("", "rust").html));
    assert!(!html.is_empty());
    let source = "```rust\nfn main() {}\nlet x = 1;\nlet y = 2;\n```\n";
    let html = blog_preview("my-post", source);
    assert_eq!(html, render_code_block("fn main() {}\nlet x = 1;", "rust").html);
}

#[test]
fn preview_cut_inside_a_metadata_block_is_still_rendered() {
    let source = "---\ntitle: Hello\nauthor: Jane\ndate: 2024-01-02\n---\n\nBody\n";
    let html = blog_preview("my-post", source);
    assert!(!html.is_empty());
}

#[test]
fn post_id_is_the_file_name_without_extension() {
    assert_eq!(post_id("my-post.md"), Some("my-post".to_string()));
    assert_eq!(post_id("a.b.md"), Some("a.b".to_string()));
    assert_eq!(post_id(".md"), Some("".to_string()));
    assert_eq!(post_id("my-post.txt"), None);
    assert_eq!(post_id("my-post.MD"), None);
    assert_eq!(post_id("md"), None);
    assert_eq!(post_id(""), None);
    assert_eq!(post_id("my-post.md.bak"), None);
}

#[test]
fn post_is_rendered_for_a_static_page() {
    let (post, diagnostics) = BlogPost::from_markdown("my-post", POST);
    assert_eq!(post.id, "my-post");
    assert_eq!(post.metadata.title, "Hello");
    assert_eq!(post.metadata.author, "Jane");
    assert!(post.content.starts_with(
        "<h1 id=\"intro\">Intro [<a href=\"/my-post.html#intro\" style=\"text-decoration: none;\">#</a>]</h1>"
    ));
    assert_eq!(diagnostics.len(), 1);
    assert_eq!(diagnostics[0].token, "nosuchlang");
    assert_eq!(diagnostics[0].post_id, "my-post");
    assert_eq!(
        diagnostics[0].message(),
        "post my-post, line 12: unknown code language \"nosuchlang\", rendered as plain text"
    );
}
