use crate::event::{out_views, HeadingLevel, OutEvent, OutEventView};
use vstd::prelude::*;
use vstd::string::StringExecFns;

verus! {

/// How a document is rendered.
#[derive(Clone, Copy, Debug, PartialEq, Eq, Structural)]
pub enum RenderMode {
    /// The whole post, each heading followed by a link to itself.
    Article,
    /// The start of a post in a listing, each heading a link to the post.
    Preview,
}

/// The opening tag of a heading with an id.
pub open spec fn opening_tag(level: HeadingLevel, id: Seq<char>) -> Seq<char> {
    "<"@ + level.tag() + " id=\""@ + id + "\">"@
}

/// The closing tag of a heading.
pub open spec fn closing_tag(level: HeadingLevel) -> Seq<char> {
    "</"@ + level.tag() + ">"@
}

/// The address of the heading `id` on the page at `page_url`.
pub open spec fn heading_url(page_url: Seq<char>, id: Seq<char>) -> Seq<char> {
    page_url + "#"@ + id
}

/// The link that stands behind the text of a heading of an article.
pub open spec fn permalink(page_url: Seq<char>, id: Seq<char>) -> Seq<char> {
    "<a href=\""@ + heading_url(page_url, id) + "\" style=\"text-decoration: none;\">#</a>"@
}

/// The start of the link that a heading of a preview is wrapped in.
pub open spec fn wrapping_link(page_url: Seq<char>, id: Seq<char>) -> Seq<char> {
    "<a href=\""@ + heading_url(page_url, id) + "\">"@
}

/// The events that open a heading with the id `id`.
///
/// In an article this is the opening tag with the id. In a preview the
/// heading stands inside a link to the heading on the post's page.
pub open spec fn heading_opening(
    mode: RenderMode,
    page_url: Seq<char>,
    level: HeadingLevel,
    id: Seq<char>,
) -> Seq<OutEventView> {
    match mode {
        RenderMode::Article => seq![OutEventView::Html(opening_tag(level, id))],
        RenderMode::Preview => seq![
            OutEventView::Html(wrapping_link(page_url, id) + opening_tag(level, id)),
        ],
    }
}

/// The events that close a heading with the id `id`.
///
/// In an article the text of the heading is followed by ` [`, a link with the
/// text `#` to the heading itself, `]` and the closing tag. In a preview the
/// closing tag is followed by the end of the link around the heading.
pub open spec fn heading_closing(
    mode: RenderMode,
    page_url: Seq<char>,
    level: HeadingLevel,
    id: Seq<char>,
) -> Seq<OutEventView> {
    match mode {
        RenderMode::Article => seq![
            OutEventView::Text(" ["@),
            OutEventView::Html(permalink(page_url, id)),
            OutEventView::Text("]"@),
            OutEventView::Html(closing_tag(level)),
        ],
        RenderMode::Preview => seq![OutEventView::Html(closing_tag(level) + "</a>"@)],
    }
}

fn write_opening_tag(out: &mut String, level: HeadingLevel, id: &str)
    ensures
        final(out)@ == old(out)@ + opening_tag(level, id@),
{
    out.append("<");
    out.append(level.tag_name());
    out.append(" id=\"");
    out.append(id);
    out.append("\">");
    assert(out@ =~= old(out)@ + opening_tag(level, id@));
}

fn write_closing_tag(out: &mut String, level: HeadingLevel)
    ensures
        final(out)@ == old(out)@ + closing_tag(level),
{
    out.append("</");
    out.append(level.tag_name());
    out.append(">");
    assert(out@ =~= old(out)@ + closing_tag(level));
}

fn write_heading_url(out: &mut String, page_url: &str, id: &str)
    ensures
        final(out)@ == old(out)@ + heading_url(page_url@, id@),
{
    out.append(page_url);
    out.append("#");
    out.append(id);
    assert(out@ =~= old(out)@ + heading_url(page_url@, id@));
}

/// Opens a heading with the id `id`.
pub fn open_heading(mode: RenderMode, page_url: &str, level: HeadingLevel, id: &str) -> (out: Vec<
    OutEvent,
>)
    ensures
        out_views(out@) == heading_opening(mode, page_url@, level, id@),
{
    let mut html = String::new();
    match mode {
        RenderMode::Article => {},
        RenderMode::Preview => {
            html.append("<a href=\"");
            write_heading_url(&mut html, page_url, id);
            html.append("\">");
            assert(html@ =~= wrapping_link(page_url@, id@));
        },
    }
    write_opening_tag(&mut html, level, id);
    let out = vec![OutEvent::Html(html)];
    assert(html@ =~= match mode {
        RenderMode::Article => opening_tag(level, id@),
        RenderMode::Preview => wrapping_link(page_url@, id@) + opening_tag(level, id@),
    });
    assert(out_views(out@) =~= heading_opening(mode, page_url@, level, id@));
    out
}

/// Closes a heading with the id `id`.
pub fn close_heading(mode: RenderMode, page_url: &str, level: HeadingLevel, id: &str) -> (out: Vec<
    OutEvent,
>)
    ensures
        out_views(out@) == heading_closing(mode, page_url@, level, id@),
{
    match mode {
        RenderMode::Article => {
            let mut link = String::from_str("<a href=\"");
            write_heading_url(&mut link, page_url, id);
            link.append("\" style=\"text-decoration: none;\">#</a>");
            assert(link@ =~= permalink(page_url@, id@));
            let mut tag = String::new();
            write_closing_tag(&mut tag, level);
            assert(tag@ =~= closing_tag(level));
            let out = vec![
                OutEvent::Text(String::from_str(" [")),
                OutEvent::Html(link),
                OutEvent::Text(String::from_str("]")),
                OutEvent::Html(tag),
            ];
            assert(out_views(out@) =~= heading_closing(mode, page_url@, level, id@));
            out
        },
        RenderMode::Preview => {
            let mut tag = String::new();
            write_closing_tag(&mut tag, level);
            tag.append("</a>");
            assert(tag@ =~= closing_tag(level) + "</a>"@);
            let out = vec![OutEvent::Html(tag)];
            assert(out_views(out@) =~= heading_closing(mode, page_url@, level, id@));
            out
        },
    }
}

} // verus!
