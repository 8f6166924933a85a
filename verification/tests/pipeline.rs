use blog_markdown::diagnostic::Diagnostic;
use blog_markdown::event::{HeadingLevel, MdEvent, OutEvent};
use blog_markdown::heading::RenderMode;
use blog_markdown::highlight::{render_code_block, CodeBlock};
use blog_markdown::metadata::BlogMetadata;
use blog_markdown::pipeline::{transform, RenderContext, TransformerState};

fn text(s: &str) -> OutEvent {
    OutEvent::Text(s.to_string())
}

fn html(s: &str) -> OutEvent {
    OutEvent::Html(s.to_string())
}

fn article() -> RenderContext {
    RenderContext {
        post_id: "my-post".to_string(),
        page_url: "/blog/my-post".to_string(),
        mode: RenderMode::Article,
    }
}

fn preview() -> RenderContext {
    RenderContext { mode: RenderMode::Preview, ..article() }
}

fn intro_heading() -> Vec<MdEvent> {
    vec![
        MdEvent::HeadingStart { level: HeadingLevel::H1, id: Some("intro".to_string()) },
        MdEvent::Text("Intro".to_string()),
        MdEvent::HeadingEnd { level: HeadingLevel::H1 },
    ]
}

fn code_start(language: &str, line: usize) -> MdEvent {
    MdEvent::CodeStart { language: language.to_string(), line }
}

#[test]
fn article_heading_gets_id_and_permalink() {
    let result = transform(&article(), &intro_heading());
    assert_eq!(
        result.events,
        vec![
            html("<h1 id=\"intro\">"),
            text("Intro"),
            text(" ["),
            html("<a href=\"/blog/my-post#intro\" style=\"text-decoration: none;\">#</a>"),
            text("]"),
            html("</h1>"),
        ]
    );
    assert_eq!(result.metadata, BlogMetadata::default());
    assert!(result.diagnostics.is_empty());
}

#[test]
fn preview_heading_links_to_the_article() {
    let result = transform(&preview(), &intro_heading());
    assert_eq!(
        result.events,
        vec![
            html("<a href=\"/blog/my-post#intro\"><h1 id=\"intro\">"),
            text("Intro"),
            html("</h1></a>"),
        ]
    );
}

#[test]
fn heading_without_id_is_passed_on() {
    let events = vec![
        MdEvent::HeadingStart { level: HeadingLevel::H2, id: None },
        MdEvent::Text("Plain".to_string()),
        MdEvent::HeadingEnd { level: HeadingLevel::H2 },
    ];
    for ctx in [article(), preview()] {
        let result = transform(&ctx, &events);
        assert_eq!(result.events, vec![OutEvent::Keep(0), text("Plain"), OutEvent::Keep(2)]);
    }
}

#[test]
fn heading_id_is_forgotten_after_the_heading() {
    let mut events = intro_heading();
    events.push(MdEvent::HeadingStart { level: HeadingLevel::H2, id: None });
    events.push(MdEvent::HeadingEnd { level: HeadingLevel::H2 });
    events.push(MdEvent::HeadingEnd { level: HeadingLevel::H3 });
    let result = transform(&preview(), &events);
    assert_eq!(
        result.events,
        vec![
            html("<a href=\"/blog/my-post#intro\"><h1 id=\"intro\">"),
            text("Intro"),
            html("</h1></a>"),
            OutEvent::Keep(3),
            OutEvent::Keep(4),
            OutEvent::Keep(5),
        ]
    );
}

#[test]
fn other_events_are_passed_on_in_order() {
    let events = vec![
        MdEvent::Other,
        MdEvent::Text("a^^b^^".to_string()),
        MdEvent::Other,
        MdEvent::CodeEnd,
        MdEvent::MetadataEnd,
        MdEvent::Other,
    ];
    let result = transform(&article(), &events);
    assert_eq!(
        result.events,
        vec![
            OutEvent::Keep(0),
            text("a"),
            html("<sup>"),
            text("b"),
            html("</sup>"),
            OutEvent::Keep(2),
            OutEvent::Keep(3),
            OutEvent::Keep(5),
        ]
    );
}

#[test]
fn empty_input_gives_nothing() {
    let result = transform(&article(), &Vec::new());
    assert!(result.events.is_empty());
    assert_eq!(result.metadata, BlogMetadata::default());
    assert!(result.diagnostics.is_empty());
}

#[test]
fn metadata_block_is_read_and_not_written() {
    let events = vec![
        MdEvent::MetadataStart,
        MdEvent::Text("title: Hello\nauthor: ".to_string()),
        MdEvent::Text("Jane\ndate: 2024-01-02\nbad-line\n".to_string()),
        MdEvent::MetadataEnd,
        MdEvent::Text("body".to_string()),
    ];
    let result = transform(&article(), &events);
    assert_eq!(result.events, vec![text("body")]);
    assert_eq!(result.metadata.title, "Hello");
    assert_eq!(result.metadata.author, "Jane");
    assert_eq!(result.metadata.date, "2024-01-02");
    assert!(result.metadata.parsed_date.is_some());
}

#[test]
fn metadata_block_without_end_is_read_at_the_end_of_input() {
    let events = vec![MdEvent::MetadataStart, MdEvent::Text("title: Open".to_string())];
    let result = transform(&article(), &events);
    assert!(result.events.is_empty());
    assert_eq!(result.metadata.title, "Open");
}

#[test]
fn code_block_becomes_one_piece_of_markup() {
    let events = vec![
        MdEvent::Other,
        code_start("rust", 3),
        MdEvent::Text("fn main() {}\n".to_string()),
        MdEvent::Text("// ^^not a superscript^^\n".to_string()),
        MdEvent::CodeEnd,
        MdEvent::Other,
    ];
    let result = transform(&article(), &events);
    let expected = render_code_block("fn main() {}\n// ^^not a superscript^^\n", "rust");
    assert!(expected.resolved);
    assert_eq!(
        result.events,
        vec![OutEvent::Keep(0), OutEvent::Html(expected.html), OutEvent::Keep(5)]
    );
    assert!(result.diagnostics.is_empty());
}

#[test]
fn unknown_language_is_rendered_as_plain_text_with_one_diagnostic() {
    let events = vec![
        code_start("nosuchlang", 7),
        MdEvent::Text("let x = 1;\n".to_string()),
        MdEvent::CodeEnd,
    ];
    let result = transform(&article(), &events);
    assert_eq!(
        result.events,
        vec![html(
            "<pre style=\"background-color:#ffffff;\">\n<span style=\"color:#323232;\">let x = 1;\n</span></pre>\n"
        )]
    );
    assert_eq!(
        result.diagnostics,
        vec![Diagnostic {
            post_id: "my-post".to_string(),
            line: 7,
            token: "nosuchlang".to_string()
        }]
    );
    assert_eq!(
        result.diagnostics[0].message(),
        "post my-post, line 7: unknown code language \"nosuchlang\", rendered as plain text"
    );
}

#[test]
fn code_block_without_end_is_rendered_at_the_end_of_input() {
    let events = vec![code_start("rust", 1), MdEvent::Text("let x = 1;\n".to_string())];
    let result = transform(&preview(), &events);
    let expected = render_code_block("let x = 1;\n", "rust");
    assert_eq!(result.events, vec![OutEvent::Html(expected.html)]);
    let result = transform(&preview(), &vec![code_start("rust", 1)]);
    assert_eq!(result.events, vec![OutEvent::Html(render_code_block("", "rust").html)]);
}

#[test]
fn new_block_ends_the_block_before_it() {
    let events = vec![
        code_start("rust", 1),
        MdEvent::Text("a".to_string()),
        MdEvent::MetadataStart,
        MdEvent::Text("title: T".to_string()),
        code_start("rust", 9),
        MdEvent::Text("b".to_string()),
    ];
    let result = transform(&article(), &events);
    assert_eq!(
        result.events,
        vec![
            OutEvent::Html(render_code_block("a", "rust").html),
            OutEvent::Html(render_code_block("b", "rust").html),
        ]
    );
    assert_eq!(result.metadata.title, "T");
}

#[test]
fn state_follows_the_events() {
    let ctx = article();
    let mut state = TransformerState::new();
    assert!(!state.in_code_block && !state.in_frontmatter);
    assert_eq!(state.current_heading_id, None);

    assert!(state.step(&ctx, 0, &MdEvent::MetadataStart).is_empty());
    assert!(state.in_frontmatter && !state.in_code_block);
    assert!(state.step(&ctx, 1, &MdEvent::Text("title: A\n".to_string())).is_empty());
    assert_eq!(state.frontmatter_text, "title: A\n");
    assert!(state.step(&ctx, 2, &MdEvent::MetadataEnd).is_empty());
    assert!(!state.in_frontmatter);
    assert_eq!(state.frontmatter_text, "");
    assert_eq!(state.metadata.title, "A");

    assert!(state.step(&ctx, 3, &code_start("zzz", 4)).is_empty());
    assert!(state.in_code_block && !state.in_frontmatter);
    assert_eq!(state.code_language, "zzz");
    assert_eq!(state.code_line, 4);
    assert!(state.step(&ctx, 4, &MdEvent::Text("x".to_string())).is_empty());
    assert!(state.step(&ctx, 5, &MdEvent::Text("y".to_string())).is_empty());
    assert_eq!(state.code_text, "xy");
    assert_eq!(state.step(&ctx, 6, &MdEvent::CodeEnd).len(), 1);
    assert!(!state.in_code_block);
    assert_eq!(state.code_text, "");
    assert_eq!(state.code_language, "");
    assert_eq!(state.diagnostics.len(), 1);

    let start = MdEvent::HeadingStart { level: HeadingLevel::H3, id: Some("h".to_string()) };
    assert_eq!(state.step(&ctx, 7, &start), vec![html("<h3 id=\"h\">")]);
    assert_eq!(state.current_heading_id, Some("h".to_string()));
    assert_eq!(state.step(&ctx, 8, &MdEvent::HeadingEnd { level: HeadingLevel::H3 }).len(), 4);
    assert_eq!(state.current_heading_id, None);
    assert!(state.close_block(&ctx).is_empty());
}

#[test]
fn rendered_block_is_written_out_as_given() {
    let ctx = article();
    let mut state = TransformerState::new();
    state.step(&ctx, 0, &code_start("abc", 2));
    let block = CodeBlock { html: "<pre>x</pre>".to_string(), resolved: true };
    assert_eq!(state.finish_code_block(&ctx, block), vec![html("<pre>x</pre>")]);
    assert!(state.diagnostics.is_empty());
    assert!(!state.in_code_block);

    state.step(&ctx, 1, &code_start("abc", 5));
    let block = CodeBlock { html: "<pre>y</pre>".to_string(), resolved: false };
    assert_eq!(state.finish_code_block(&ctx, block), vec![html("<pre>y</pre>")]);
    assert_eq!(
        state.diagnostics,
        vec![Diagnostic { post_id: "my-post".to_string(), line: 5, token: "abc".to_string() }]
    );
}
