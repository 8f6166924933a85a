use crate::diagnostic::{diagnostic_views, Diagnostic};
use crate::event::{
    event_views, keeps_below, out_views, HeadingLevel, MdEvent, MdEventView, OutEvent, OutEventView,
};
use crate::heading::RenderMode;
use crate::metadata::BlogMetadata;
use crate::pipeline::{
    lemma_order_preserved, transform, transformed, RenderContext, RenderContextView,
};
use crate::text::{first_lines, line_at, line_number, take_lines};
use pulldown_cmark::html::push_html;
use pulldown_cmark::{CodeBlockKind, Event, Options, Parser, Tag, TagEnd};
use vstd::prelude::*;
use vstd::string::{StringExecFns, StringSliceAdditionalSpecFns};
use vstd::utf8::encode_utf8;

verus! {

/// One event as the Markdown parser gives it: the depth of a heading is a
/// number, and the place of a code block is the offset of its first byte.
#[derive(Clone, Debug, PartialEq, Eq)]
pub enum RawEvent {
    /// A run of plain text.
    Text(String),
    /// The start of a heading: its depth, and its id if it has one.
    HeadingStart(usize, Option<String>),
    /// The end of a heading of the given depth.
    HeadingEnd(usize),
    /// The start of a fenced code block: the language token of the fence,
    /// and the offset of the fence in the document.
    CodeStart(String, usize),
    /// The end of a code block.
    CodeEnd,
    /// The start of a metadata block.
    MetadataStart,
    /// The end of a metadata block.
    MetadataEnd,
    /// Any other event.
    Other,
}

/// Mathematical value of a [`RawEvent`].
pub ghost enum RawEventView {
    Text(Seq<char>),
    HeadingStart { level: nat, id: Option<Seq<char>> },
    HeadingEnd { level: nat },
    CodeStart { language: Seq<char>, offset: nat },
    CodeEnd,
    MetadataStart,
    MetadataEnd,
    Other,
}

impl View for RawEvent {
    type V = RawEventView;

    open spec fn view(&self) -> RawEventView {
        match *self {
            RawEvent::Text(s) => RawEventView::Text(s@),
            RawEvent::HeadingStart(level, id) => RawEventView::HeadingStart {
                level: level as nat,
                id: match id {
                    Some(s) => Some(s@),
                    None => None,
                },
            },
            RawEvent::HeadingEnd(level) => RawEventView::HeadingEnd { level: level as nat },
            RawEvent::CodeStart(language, offset) => RawEventView::CodeStart {
                language: language@,
                offset: offset as nat,
            },
            RawEvent::CodeEnd => RawEventView::CodeEnd,
            RawEvent::MetadataStart => RawEventView::MetadataStart,
            RawEvent::MetadataEnd => RawEventView::MetadataEnd,
            RawEvent::Other => RawEventView::Other,
        }
    }
}

/// The values of a sequence of parser events.
pub open spec fn raw_views(events: Seq<RawEvent>) -> Seq<RawEventView> {
    events.map_values(|e: RawEvent| e@)
}

/// The events that the Markdown parser, with all its extensions switched on,
/// reads from a document.
pub uninterp spec fn raw_events(source: Seq<char>) -> Seq<RawEventView>;

/// The markup that the HTML renderer writes for a rewritten event stream of
/// the document `source`.
pub uninterp spec fn rendered_html(source: Seq<char>, events: Seq<OutEventView>) -> Seq<char>;

/// Runs pulldown-cmark's `Parser::new_ext` with `Options::all()` over the
/// document and hands out each event of `Parser::into_offset_iter` as a
/// plain value: the text of a text event, the depth and the id of a heading,
/// the info string of a fenced code block with the offset at which the
/// block starts, and the kind of every event. The parser reads nothing but
/// the document, so the events depend on it alone; nothing more is claimed
/// of them.
#[verifier::external_body]
fn parse_raw(markdown: &str) -> (events: Vec<RawEvent>)
    ensures
        raw_views(events@) == raw_events(markdown@),
{
    Parser::new_ext(markdown, Options::all()).into_offset_iter().map(|(event, range)| match event {
        Event::Text(text) => RawEvent::Text(text.into()),
        Event::Start(Tag::Heading { level, id, .. }) => RawEvent::HeadingStart(level as usize, id.map(String::from)),
        Event::End(TagEnd::Heading(level)) => RawEvent::HeadingEnd(level as usize),
        Event::Start(Tag::CodeBlock(CodeBlockKind::Fenced(info))) => RawEvent::CodeStart(info.into(), range.start),
        Event::End(TagEnd::CodeBlock) => RawEvent::CodeEnd,
        Event::Start(Tag::MetadataBlock(_)) => RawEvent::MetadataStart,
        Event::End(TagEnd::MetadataBlock(_)) => RawEvent::MetadataEnd,
        _ => RawEvent::Other,
    }).collect()
}

/// Calls pulldown-cmark's `html::push_html` on the rewritten events of a
/// document: markup goes in as an `Event::Html`, text as an `Event::Text`,
/// and an event that passes an input event on as the event at that position
/// of the document's own event stream. For these the document is parsed
/// again, as `parse_raw` parses it; the positions must lie within that
/// stream. The markup depends on the document and the events alone; nothing
/// more is claimed of it.
#[verifier::external_body]
fn render_html(markdown: &str, events: &Vec<OutEvent>) -> (html: String)
    requires
        keeps_below(out_views(events@), raw_events(markdown@).len()),
    ensures
        html@ == rendered_html(markdown@, out_views(events@)),
{
    let parser = Parser::new_ext(markdown, Options::all()).into_offset_iter();
    let input: Vec<Event> = parser.map(|(event, _)| event).collect();
    let mut html = String::new();
    push_html(&mut html, events.iter().map(|event| match event {
        OutEvent::Html(markup) => Event::Html(markup.as_str().into()),
        OutEvent::Text(text) => Event::Text(text.as_str().into()),
        OutEvent::Keep(index) => input[*index].clone(),
    }));
    html
}

/// An event of the parser as the transformation reads it: the depth of a
/// heading becomes its level, and the offset of a code block the number of
/// its line in the document with the bytes `bytes`. A heading of a depth
/// that is no level counts as any other event.
pub open spec fn classified(raw: RawEventView, bytes: Seq<u8>) -> MdEventView {
    match raw {
        RawEventView::Text(text) => MdEventView::Text(text),
        RawEventView::HeadingStart { level, id } => match HeadingLevel::with_number(level as int) {
            Some(level) => MdEventView::HeadingStart { level, id },
            None => MdEventView::Other,
        },
        RawEventView::HeadingEnd { level } => match HeadingLevel::with_number(level as int) {
            Some(level) => MdEventView::HeadingEnd { level },
            None => MdEventView::Other,
        },
        RawEventView::CodeStart { language, offset } => MdEventView::CodeStart {
            language,
            line: line_at(bytes, offset),
        },
        RawEventView::CodeEnd => MdEventView::CodeEnd,
        RawEventView::MetadataStart => MdEventView::MetadataStart,
        RawEventView::MetadataEnd => MdEventView::MetadataEnd,
        RawEventView::Other => MdEventView::Other,
    }
}

/// The events of a document as the transformation reads them.
pub open spec fn markdown_events(source: Seq<char>) -> Seq<MdEventView> {
    raw_events(source).map_values(|raw: RawEventView| classified(raw, encode_utf8(source)))
}

/// Turns an event of the parser into one that the transformation reads.
pub fn classify(raw: RawEvent, markdown: &str) -> (event: MdEvent)
    ensures
        event@ == classified(raw@, markdown.spec_bytes()),
{
    match raw {
        RawEvent::Text(text) => MdEvent::Text(text),
        RawEvent::HeadingStart(level, id) => match HeadingLevel::from_number(level) {
            Some(level) => MdEvent::HeadingStart { level, id },
            None => MdEvent::Other,
        },
        RawEvent::HeadingEnd(level) => match HeadingLevel::from_number(level) {
            Some(level) => MdEvent::HeadingEnd { level },
            None => MdEvent::Other,
        },
        RawEvent::CodeStart(language, offset) => MdEvent::CodeStart {
            language,
            line: line_number(markdown, offset),
        },
        RawEvent::CodeEnd => MdEvent::CodeEnd,
        RawEvent::MetadataStart => MdEvent::MetadataStart,
        RawEvent::MetadataEnd => MdEvent::MetadataEnd,
        RawEvent::Other => MdEvent::Other,
    }
}

/// Parses a document, with all extensions of the parser switched on, into
/// the events that the transformation reads.
pub fn build_parser(markdown: &str) -> (events: Vec<MdEvent>)
    ensures
        event_views(events@) == markdown_events(markdown@),
        events@.len() == raw_events(markdown@).len(),
{
    let raw = parse_raw(markdown);
    let ghost raws = raw_views(raw@);
    let ghost bytes = markdown.spec_bytes();
    let mut events: Vec<MdEvent> = Vec::new();
    for event in it: raw.into_iter()
        invariant
            it.seq() == raw@,
            raws == raw_views(raw@),
            bytes == markdown.spec_bytes(),
            events@.len() == it.index(),
            forall|k: int|
                0 <= k < events@.len() ==> (#[trigger] events@[k])@ == classified(raws[k], bytes),
    {
        events.push(classify(event, markdown));
    }
    assert(event_views(events@) =~= markdown_events(markdown@));
    events
}

/// A rendered document.
#[derive(Clone, Debug, PartialEq, Eq)]
pub struct Rendered {
    /// The markup of the document.
    pub html: String,
    /// What the metadata block of the document says.
    pub metadata: BlogMetadata,
    /// The code blocks whose language was not known.
    pub diagnostics: Vec<Diagnostic>,
}

/// The markup of the document `source`, rendered as `ctx` says.
pub open spec fn document_html(ctx: RenderContextView, source: Seq<char>) -> Seq<char> {
    rendered_html(source, transformed(ctx, markdown_events(source)).events)
}

/// Renders a document: parses it, rewrites its events in one pass, and lets
/// the HTML renderer write the rewritten events out.
pub fn render_document(ctx: &RenderContext, markdown: &str) -> (rendered: Rendered)
    ensures
        rendered.html@ == document_html(ctx@, markdown@),
        rendered.metadata@ == transformed(ctx@, markdown_events(markdown@)).metadata,
        diagnostic_views(rendered.diagnostics@) == transformed(
            ctx@,
            markdown_events(markdown@),
        ).diagnostics,
{
    let events = build_parser(markdown);
    let result = transform(ctx, &events);
    proof {
        lemma_order_preserved(ctx@, markdown_events(markdown@));
    }
    let html = render_html(markdown, &result.events);
    Rendered { html, metadata: result.metadata, diagnostics: result.diagnostics }
}

/// The address of the page of the post `blog_id`.
pub open spec fn blog_url(blog_id: Seq<char>) -> Seq<char> {
    "/blog/"@ + blog_id
}

/// How the post `blog_id` is rendered for its own page or for a listing.
pub open spec fn blog_context(blog_id: Seq<char>, is_preview: bool) -> RenderContextView {
    RenderContextView {
        post_id: blog_id,
        page_url: blog_url(blog_id),
        mode: if is_preview {
            RenderMode::Preview
        } else {
            RenderMode::Article
        },
    }
}

/// How the post `blog_id` is rendered for its own page or for a listing.
pub fn blog_render_context(blog_id: &str, is_preview: bool) -> (ctx: RenderContext)
    ensures
        ctx@ == blog_context(blog_id@, is_preview),
{
    let mut page_url = String::from_str("/blog/");
    page_url.append(blog_id);
    RenderContext {
        post_id: String::from_str(blog_id),
        page_url,
        mode: if is_preview {
            RenderMode::Preview
        } else {
            RenderMode::Article
        },
    }
}

/// Renders the Markdown source of the post `blog_id` to HTML, for the post's
/// own page or, as a preview, for a listing.
pub fn parse_blog_markdown(blog_id: &str, markdown: &str, is_preview: bool) -> (html: String)
    ensures
        html@ == document_html(blog_context(blog_id@, is_preview), markdown@),
{
    let ctx = blog_render_context(blog_id, is_preview);
    render_document(&ctx, markdown).html
}

/// The number of lines of a post that its preview shows.
pub const PREVIEW_LINES: usize = 3;

/// Renders the post `blog_id` for its own page.
pub fn blog(blog_id: &str, source: &str) -> (html: String)
    ensures
        html@ == document_html(blog_context(blog_id@, false), source@),
{
    parse_blog_markdown(blog_id, source, false)
}

/// Renders the preview of the post `blog_id`: its first three lines, with
/// each heading a link to the post.
pub fn blog_preview(blog_id: &str, source: &str) -> (html: String)
    ensures
        html@ == document_html(
            blog_context(blog_id@, true),
            first_lines(source@, PREVIEW_LINES as nat),
        ),
{
    let preview = take_lines(source, PREVIEW_LINES);
    parse_blog_markdown(blog_id, preview.as_str(), true)
}

} // verus!
