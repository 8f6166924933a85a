use crate::diagnostic::{diagnostic_views, Diagnostic};
use crate::heading::RenderMode;
use crate::markdown::{document_html, markdown_events, render_document};
use crate::metadata::{BlogMetadata, BlogMetadataView};
use crate::pipeline::{transformed, RenderContext, RenderContextView};
use crate::text::{chars_of, string_of};
use vstd::prelude::*;
use vstd::string::StringExecFns;

verus! {

/// A rendered post.
#[derive(Clone, Debug, PartialEq, Eq)]
pub struct BlogPost {
    /// The name of the post's file, without its extension.
    pub id: String,
    /// The body of the post as HTML.
    pub content: String,
    /// What the post says of itself.
    pub metadata: BlogMetadata,
}

/// Mathematical value of a [`BlogPost`].
pub ghost struct BlogPostView {
    pub id: Seq<char>,
    pub content: Seq<char>,
    pub metadata: BlogMetadataView,
}

impl View for BlogPost {
    type V = BlogPostView;

    open spec fn view(&self) -> BlogPostView {
        BlogPostView { id: self.id@, content: self.content@, metadata: self.metadata@ }
    }
}

/// The values of a sequence of posts.
pub open spec fn post_views(posts: Seq<BlogPost>) -> Seq<BlogPostView> {
    posts.map_values(|p: BlogPost| p@)
}

/// The extension of a Markdown file.
pub open spec fn markdown_extension() -> Seq<char> {
    seq!['.', 'm', 'd']
}

/// The id of the post in the file `file_name`: the name without its
/// extension. A name without the Markdown extension names no post.
pub open spec fn id_of_file(file_name: Seq<char>) -> Option<Seq<char>> {
    if file_name.len() >= 3 && file_name.skip(file_name.len() - 3) == markdown_extension() {
        Some(file_name.take(file_name.len() - 3))
    } else {
        None
    }
}

/// The id of the post in the file `file_name`.
pub fn post_id(file_name: &str) -> (id: Option<String>)
    ensures
        match id {
            Some(id) => id_of_file(file_name@) == Some(id@),
            None => id_of_file(file_name@) is None,
        },
{
    let chars = chars_of(file_name);
    let n = chars.len();
    if n >= 3 {
        assert(chars@.skip(n - 3) =~= seq![chars@[n - 3], chars@[n - 2], chars@[n - 1]]);
        if chars[n - 3] == '.' && chars[n - 2] == 'm' && chars[n - 1] == 'd' {
            assert(chars@.subrange(0, n - 3) =~= chars@.take(n - 3));
            return Some(string_of(&chars, 0, n - 3));
        }
        assert(chars@.skip(n - 3) != markdown_extension()) by {
            if chars@.skip(n - 3) == markdown_extension() {
                assert(markdown_extension()[0] == '.');
                assert(markdown_extension()[1] == 'm');
                assert(markdown_extension()[2] == 'd');
            }
        }
    }
    None
}

/// The address of the page of the post `id` on a site of static pages.
pub open spec fn page_url(id: Seq<char>) -> Seq<char> {
    "/"@ + id + ".html"@
}

/// How the post `id` is rendered for its page on a site of static pages.
pub open spec fn page_context(id: Seq<char>) -> RenderContextView {
    RenderContextView { post_id: id, page_url: page_url(id), mode: RenderMode::Article }
}

/// The post `id` with the Markdown source `source`, rendered.
pub open spec fn rendered_post(id: Seq<char>, source: Seq<char>) -> BlogPostView {
    BlogPostView {
        id,
        content: document_html(page_context(id), source),
        metadata: transformed(page_context(id), markdown_events(source)).metadata,
    }
}

impl BlogPost {
    /// Renders the post `id` from its Markdown source, for its page on a site
    /// of static pages. Beside the post stand the diagnostics of the pass.
    pub fn from_markdown(id: &str, source: &str) -> (result: (BlogPost, Vec<Diagnostic>))
        ensures
            result.0@ == rendered_post(id@, source@),
            diagnostic_views(result.1@) == transformed(
                page_context(id@),
                markdown_events(source@),
            ).diagnostics,
    {
        let mut url = String::from_str("/");
        url.append(id);
        url.append(".html");
        let ctx = RenderContext {
            post_id: String::from_str(id),
            page_url: url,
            mode: RenderMode::Article,
        };
        let rendered = render_document(&ctx, source);
        (
            BlogPost {
                id: String::from_str(id),
                content: rendered.html,
                metadata: rendered.metadata,
            },
            rendered.diagnostics,
        )
    }
}

} // verus!
