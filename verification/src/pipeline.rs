use crate::diagnostic::{diagnostic_views, Diagnostic, DiagnosticView};
use crate::event::{
    event_views, keeps_ascending, keeps_below, keeps_nothing, out_views, HeadingLevel, MdEvent,
    MdEventView, OutEvent, OutEventView,
};
use crate::frontmatter::{frontmatter_map, parse_frontmatter};
use crate::heading::{
    close_heading, closing_tag, heading_closing, heading_opening, open_heading, opening_tag,
    permalink, wrapping_link, RenderMode,
};
use crate::highlight::{
    block_html, code_block_html, highlighted_html, plain_text_syntax, render_code_block,
    resolved_syntax, syntax_for_alias, syntax_for_token, theme_name, CodeBlock,
};
use crate::metadata::{empty_metadata, metadata_of, BlogMetadata, BlogMetadataView};
use crate::superscript::{
    delimiter, lemma_plain_text_unchanged, lemma_superscript_keeps_nothing, rewrite_superscript,
    superscript_events,
};
use crate::text::matches_at;
use vstd::prelude::*;
use vstd::string::StringExecFns;

verus! {

/// What a pass over a document needs to know of the document.
#[derive(Clone, Debug, PartialEq, Eq)]
pub struct RenderContext {
    /// The id of the post, which diagnostics name.
    pub post_id: String,
    /// The address of the post's page, to which the links of headings lead.
    pub page_url: String,
    pub mode: RenderMode,
}

/// Mathematical value of a [`RenderContext`].
pub ghost struct RenderContextView {
    pub post_id: Seq<char>,
    pub page_url: Seq<char>,
    pub mode: RenderMode,
}

impl View for RenderContext {
    type V = RenderContextView;

    open spec fn view(&self) -> RenderContextView {
        RenderContextView { post_id: self.post_id@, page_url: self.page_url@, mode: self.mode }
    }
}

/// What a pass over a document remembers from one event to the next.
#[derive(Clone, Debug, PartialEq, Eq)]
pub struct TransformerState {
    /// The id of the heading that is open, if it has one.
    pub current_heading_id: Option<String>,
    /// Whether a code block is open.
    pub in_code_block: bool,
    /// The text of the open code block so far.
    pub code_text: String,
    /// The language token of the open code block.
    pub code_language: String,
    /// The line on which the open code block starts.
    pub code_line: usize,
    /// Whether a metadata block is open.
    pub in_frontmatter: bool,
    /// The text of the open metadata block so far.
    pub frontmatter_text: String,
    /// The metadata of the last metadata block that ended.
    pub metadata: BlogMetadata,
    /// The diagnostics so far.
    pub diagnostics: Vec<Diagnostic>,
}

/// Mathematical value of a [`TransformerState`].
pub ghost struct TransformerStateView {
    pub current_heading_id: Option<Seq<char>>,
    pub in_code_block: bool,
    pub code_text: Seq<char>,
    pub code_language: Seq<char>,
    pub code_line: nat,
    pub in_frontmatter: bool,
    pub frontmatter_text: Seq<char>,
    pub metadata: BlogMetadataView,
    pub diagnostics: Seq<DiagnosticView>,
}

impl View for TransformerState {
    type V = TransformerStateView;

    open spec fn view(&self) -> TransformerStateView {
        TransformerStateView {
            current_heading_id: match self.current_heading_id {
                Some(id) => Some(id@),
                None => None,
            },
            in_code_block: self.in_code_block,
            code_text: self.code_text@,
            code_language: self.code_language@,
            code_line: self.code_line as nat,
            in_frontmatter: self.in_frontmatter,
            frontmatter_text: self.frontmatter_text@,
            metadata: self.metadata@,
            diagnostics: diagnostic_views(self.diagnostics@),
        }
    }
}

impl TransformerStateView {
    /// At most one block is open, and nothing is kept of a block that is
    /// not open.
    pub open spec fn wf(self) -> bool {
        &&& !(self.in_code_block && self.in_frontmatter)
        &&& !self.in_code_block ==> self.code_text.len() == 0 && self.code_language.len() == 0
            && self.code_line == 0
        &&& !self.in_frontmatter ==> self.frontmatter_text.len() == 0
    }

    /// Whether no block is open.
    pub open spec fn idle(self) -> bool {
        !self.in_code_block && !self.in_frontmatter
    }
}

/// The state at the start of a document.
pub open spec fn initial_state() -> TransformerStateView {
    TransformerStateView {
        current_heading_id: None,
        in_code_block: false,
        code_text: Seq::empty(),
        code_language: Seq::empty(),
        code_line: 0,
        in_frontmatter: false,
        frontmatter_text: Seq::empty(),
        metadata: empty_metadata(),
        diagnostics: Seq::empty(),
    }
}

/// The end of the open code block, given its markup and whether a syntax
/// definition was found for its language token: the markup is written out
/// as one event. Where no definition was found, a diagnostic names the post,
/// the line and the token.
pub open spec fn code_block_ended(
    ctx: RenderContextView,
    st: TransformerStateView,
    html: Seq<char>,
    resolved: bool,
) -> (TransformerStateView, Seq<OutEventView>) {
    let diagnostics = if resolved {
        st.diagnostics
    } else {
        st.diagnostics.push(
            DiagnosticView { post_id: ctx.post_id, line: st.code_line, token: st.code_language },
        )
    };
    (
        TransformerStateView {
            in_code_block: false,
            code_text: Seq::empty(),
            code_language: Seq::empty(),
            code_line: 0,
            diagnostics,
            ..st
        },
        seq![OutEventView::Html(html)],
    )
}

/// The end of the open code block: the block is rendered by the syntax
/// definition for its language token, or as plain text where there is none,
/// and written out.
pub open spec fn end_code(ctx: RenderContextView, st: TransformerStateView) -> (
    TransformerStateView,
    Seq<OutEventView>,
) {
    code_block_ended(
        ctx,
        st,
        code_block_html(st.code_text, st.code_language),
        resolved_syntax(st.code_language).resolved,
    )
}

/// The end of the open metadata block: its text is read, and what it says
/// becomes the metadata of the document. Nothing is written out.
pub open spec fn end_frontmatter(st: TransformerStateView) -> TransformerStateView {
    TransformerStateView {
        in_frontmatter: false,
        frontmatter_text: Seq::empty(),
        metadata: metadata_of(frontmatter_map(st.frontmatter_text)),
        ..st
    }
}

/// Ends the block that is open, if one is.
pub open spec fn close_block(ctx: RenderContextView, st: TransformerStateView) -> (
    TransformerStateView,
    Seq<OutEventView>,
) {
    if st.in_code_block {
        end_code(ctx, st)
    } else if st.in_frontmatter {
        (end_frontmatter(st), seq![])
    } else {
        (st, seq![])
    }
}

/// What one event does: the state after it, and the events written out for
/// it. `index` is the position of the event in the document.
///
/// - The start of a metadata block or of a fenced code block opens that
///   block, after ending a block that is still open. Nothing is written for
///   the start itself.
/// - The end of a metadata block ends the open metadata block; without one it
///   does nothing.
/// - The end of a code block ends the open code block; without one it is
///   passed on.
/// - Text is added to the open block. Without an open block, it is rewritten
///   into literal text and superscripts.
/// - The start of a heading with an id opens the heading and is remembered;
///   the end of such a heading closes it. Headings without an id are passed
///   on.
/// - Every other event is passed on.
pub open spec fn step(
    ctx: RenderContextView,
    st: TransformerStateView,
    index: nat,
    event: MdEventView,
) -> (TransformerStateView, Seq<OutEventView>) {
    match event {
        MdEventView::MetadataStart => {
            let (closed, out) = close_block(ctx, st);
            (TransformerStateView { in_frontmatter: true, ..closed }, out)
        },
        MdEventView::MetadataEnd => if st.in_frontmatter {
            (end_frontmatter(st), seq![])
        } else {
            (st, seq![])
        },
        MdEventView::CodeStart { language, line } => {
            let (closed, out) = close_block(ctx, st);
            (
                TransformerStateView {
                    in_code_block: true,
                    code_language: language,
                    code_line: line,
                    ..closed
                },
                out,
            )
        },
        MdEventView::CodeEnd => if st.in_code_block {
            end_code(ctx, st)
        } else {
            (st, seq![OutEventView::Keep(index)])
        },
        MdEventView::Text(text) => if st.in_frontmatter {
            (TransformerStateView { frontmatter_text: st.frontmatter_text + text, ..st }, seq![])
        } else if st.in_code_block {
            (TransformerStateView { code_text: st.code_text + text, ..st }, seq![])
        } else {
            (st, superscript_events(text))
        },
        MdEventView::HeadingStart { level, id } => match id {
            Some(id) => (
                TransformerStateView { current_heading_id: Some(id), ..st },
                heading_opening(ctx.mode, ctx.page_url, level, id),
            ),
            None => (
                TransformerStateView { current_heading_id: None, ..st },
                seq![OutEventView::Keep(index)],
            ),
        },
        MdEventView::HeadingEnd { level } => match st.current_heading_id {
            Some(id) => (
                TransformerStateView { current_heading_id: None, ..st },
                heading_closing(ctx.mode, ctx.page_url, level, id),
            ),
            None => (st, seq![OutEventView::Keep(index)]),
        },
        MdEventView::Other => (st, seq![OutEventView::Keep(index)]),
    }
}

/// The state after the given events, and what was written out for them.
pub open spec fn run(ctx: RenderContextView, events: Seq<MdEventView>) -> (
    TransformerStateView,
    Seq<OutEventView>,
)
    decreases events.len(),
{
    if events.len() == 0 {
        (initial_state(), seq![])
    } else {
        let (st, out) = run(ctx, events.drop_last());
        let (next, more) = step(ctx, st, (events.len() - 1) as nat, events.last());
        (next, out + more)
    }
}

/// What a pass over a document gives.
#[derive(Clone, Debug, PartialEq, Eq)]
pub struct Transformed {
    /// The rewritten events.
    pub events: Vec<OutEvent>,
    /// The metadata of the document.
    pub metadata: BlogMetadata,
    /// The diagnostics of the pass.
    pub diagnostics: Vec<Diagnostic>,
}

/// Mathematical value of a [`Transformed`].
pub ghost struct TransformedView {
    pub events: Seq<OutEventView>,
    pub metadata: BlogMetadataView,
    pub diagnostics: Seq<DiagnosticView>,
}

impl View for Transformed {
    type V = TransformedView;

    open spec fn view(&self) -> TransformedView {
        TransformedView {
            events: out_views(self.events@),
            metadata: self.metadata@,
            diagnostics: diagnostic_views(self.diagnostics@),
        }
    }
}

/// What a pass over the events of a document gives: every event is taken in
/// turn, and a block that is still open after the last one is ended there.
pub open spec fn transformed(ctx: RenderContextView, events: Seq<MdEventView>)
    -> TransformedView {
    let (st, out) = run(ctx, events);
    let (end, more) = close_block(ctx, st);
    TransformedView { events: out + more, metadata: end.metadata, diagnostics: end.diagnostics }
}

/// One event leaves at most one block open, and keeps nothing of a block that
/// is not open.
pub proof fn lemma_step_keeps_wf(
    ctx: RenderContextView,
    st: TransformerStateView,
    index: nat,
    event: MdEventView,
)
    requires
        st.wf(),
    ensures
        step(ctx, st, index, event).0.wf(),
{
}

/// At every point of a pass at most one block is open.
pub proof fn lemma_run_wf(ctx: RenderContextView, events: Seq<MdEventView>)
    ensures
        run(ctx, events).0.wf(),
    decreases events.len(),
{
    if events.len() > 0 {
        lemma_run_wf(ctx, events.drop_last());
        let st = run(ctx, events.drop_last()).0;
        lemma_step_keeps_wf(ctx, st, (events.len() - 1) as nat, events.last());
    }
}

/// After the end of the input no block is open.
pub proof fn lemma_no_block_left_open(ctx: RenderContextView, events: Seq<MdEventView>)
    ensures
        close_block(ctx, run(ctx, events).0).0.wf(),
        close_block(ctx, run(ctx, events).0).0.idle(),
{
    lemma_run_wf(ctx, events);
}

/// A code block that is still open at the end of the input is rendered
/// there: the last event written out is its markup.
pub proof fn lemma_open_code_block_is_rendered(ctx: RenderContextView, events: Seq<MdEventView>)
    requires
        run(ctx, events).0.in_code_block,
    ensures
        transformed(ctx, events).events.len() > 0,
        transformed(ctx, events).events.last() == OutEventView::Html(
            code_block_html(run(ctx, events).0.code_text, run(ctx, events).0.code_language),
        ),
{
}

/// A code block in a language for which there is neither a syntax definition
/// nor an alias is rendered as plain text, and exactly one diagnostic is
/// added, which names the post, the line of the block and the language
/// token.
pub proof fn lemma_unknown_language_is_plain_text(
    ctx: RenderContextView,
    st: TransformerStateView,
    index: nat,
)
    requires
        st.in_code_block,
        syntax_for_token(st.code_language) is None,
        syntax_for_alias(st.code_language) is None,
    ensures
        step(ctx, st, index, MdEventView::CodeEnd).1 == seq![
            OutEventView::Html(
                block_html(
                    st.code_text,
                    highlighted_html(st.code_text, plain_text_syntax(), theme_name()),
                ),
            ),
        ],
        step(ctx, st, index, MdEventView::CodeEnd).0.diagnostics == st.diagnostics.push(
            DiagnosticView { post_id: ctx.post_id, line: st.code_line, token: st.code_language },
        ),
        !step(ctx, st, index, MdEventView::CodeEnd).0.in_code_block,
{
}

/// A code block in a language that the highlighter knows adds no
/// diagnostic.
pub proof fn lemma_known_language_is_silent(
    ctx: RenderContextView,
    st: TransformerStateView,
    index: nat,
)
    requires
        st.in_code_block,
        syntax_for_token(st.code_language) is Some,
    ensures
        step(ctx, st, index, MdEventView::CodeEnd).0.diagnostics == st.diagnostics,
{
}

/// Outside of code and metadata blocks, text without a superscript
/// delimiter is written out as it came in.
pub proof fn lemma_plain_text_passes(
    ctx: RenderContextView,
    st: TransformerStateView,
    index: nat,
    text: Seq<char>,
)
    requires
        st.idle(),
        forall|i: int| !matches_at(text, i, delimiter()),
    ensures
        step(ctx, st, index, MdEventView::Text(text)) == (st, seq![OutEventView::Text(text)]),
{
    lemma_plain_text_unchanged(text);
}

/// A heading with an id, with plain text in it, on its own: the opening of
/// the heading is followed by the text and the text by the closing. In an
/// article that is the tag with the id, the text, ` [`, the link to the
/// heading with the text `#`, `]` and the closing tag; in a preview the
/// whole heading stands in one link to the heading on the post's page.
pub proof fn lemma_heading_with_id(
    ctx: RenderContextView,
    level: HeadingLevel,
    id: Seq<char>,
    text: Seq<char>,
)
    requires
        forall|i: int| !matches_at(text, i, delimiter()),
    ensures
        transformed(
            ctx,
            seq![
                MdEventView::HeadingStart { level, id: Some(id) },
                MdEventView::Text(text),
                MdEventView::HeadingEnd { level },
            ],
        ).events == heading_opening(ctx.mode, ctx.page_url, level, id) + seq![
            OutEventView::Text(text),
        ] + heading_closing(ctx.mode, ctx.page_url, level, id),
        ctx.mode == RenderMode::Article ==> transformed(
            ctx,
            seq![
                MdEventView::HeadingStart { level, id: Some(id) },
                MdEventView::Text(text),
                MdEventView::HeadingEnd { level },
            ],
        ).events == seq![
            OutEventView::Html(opening_tag(level, id)),
            OutEventView::Text(text),
            OutEventView::Text(" ["@),
            OutEventView::Html(permalink(ctx.page_url, id)),
            OutEventView::Text("]"@),
            OutEventView::Html(closing_tag(level)),
        ],
        ctx.mode == RenderMode::Preview ==> transformed(
            ctx,
            seq![
                MdEventView::HeadingStart { level, id: Some(id) },
                MdEventView::Text(text),
                MdEventView::HeadingEnd { level },
            ],
        ).events == seq![
            OutEventView::Html(wrapping_link(ctx.page_url, id) + opening_tag(level, id)),
            OutEventView::Text(text),
            OutEventView::Html(closing_tag(level) + "</a>"@),
        ],
{
    let start = MdEventView::HeadingStart { level, id: Some(id) };
    let middle = MdEventView::Text(text);
    let end = MdEventView::HeadingEnd { level };
    let events = seq![start, middle, end];
    let two = seq![start, middle];
    let one = seq![start];
    assert(events.drop_last() =~= two);
    assert(two.drop_last() =~= one);
    assert(one.drop_last() =~= Seq::<MdEventView>::empty());
    lemma_plain_text_unchanged(text);
    let s0 = run(ctx, Seq::<MdEventView>::empty());
    assert(s0 == (initial_state(), Seq::<OutEventView>::empty()));
    let s1 = run(ctx, one);
    assert(s1.0.idle() && s1.0.current_heading_id == Some(id));
    assert(s1.1 =~= heading_opening(ctx.mode, ctx.page_url, level, id));
    let s2 = run(ctx, two);
    assert(s2.0 == s1.0);
    assert(s2.1 =~= s1.1 + seq![OutEventView::Text(text)]);
    let s3 = run(ctx, events);
    assert(s3.0.idle());
    assert(s3.1 =~= s2.1 + heading_closing(ctx.mode, ctx.page_url, level, id));
    assert(transformed(ctx, events).events =~= s3.1);
    let opening = heading_opening(ctx.mode, ctx.page_url, level, id);
    let closing = heading_closing(ctx.mode, ctx.page_url, level, id);
    let all = opening + seq![OutEventView::Text(text)] + closing;
    if ctx.mode == RenderMode::Article {
        assert(all =~= seq![
            OutEventView::Html(opening_tag(level, id)),
            OutEventView::Text(text),
            OutEventView::Text(" ["@),
            OutEventView::Html(permalink(ctx.page_url, id)),
            OutEventView::Text("]"@),
            OutEventView::Html(closing_tag(level)),
        ]);
    } else {
        assert(all =~= seq![
            OutEventView::Html(wrapping_link(ctx.page_url, id) + opening_tag(level, id)),
            OutEventView::Text(text),
            OutEventView::Html(closing_tag(level) + "</a>"@),
        ]);
    }
}

/// What is written out for one event either passes no input event on, or
/// is that event itself, passed on.
pub proof fn lemma_step_keeps(
    ctx: RenderContextView,
    st: TransformerStateView,
    index: nat,
    event: MdEventView,
)
    ensures
        keeps_nothing(step(ctx, st, index, event).1) || step(ctx, st, index, event).1
            == seq![OutEventView::Keep(index)],
{
    if let MdEventView::Text(text) = event {
        lemma_superscript_keeps_nothing(text);
    }
}

/// Ending the open block passes no input event on.
pub proof fn lemma_close_block_keeps_nothing(ctx: RenderContextView, st: TransformerStateView)
    ensures
        keeps_nothing(close_block(ctx, st).1),
{
}

/// The input events that a pass passes on are events of the input, and they
/// come out in the order in which they came in.
pub proof fn lemma_run_keeps_order(ctx: RenderContextView, events: Seq<MdEventView>)
    ensures
        keeps_below(run(ctx, events).1, events.len()),
        keeps_ascending(run(ctx, events).1),
    decreases events.len(),
{
    if events.len() > 0 {
        let front = events.drop_last();
        lemma_run_keeps_order(ctx, front);
        let (st, out) = run(ctx, front);
        let index = (events.len() - 1) as nat;
        lemma_step_keeps(ctx, st, index, events.last());
        let more = step(ctx, st, index, events.last()).1;
        let all = out + more;
        assert forall|k: int| 0 <= k < all.len() implies match #[trigger] all[k] {
            OutEventView::Keep(i) => i < events.len(),
            _ => true,
        } by {
            if k < out.len() {
                assert(all[k] == out[k]);
            } else {
                assert(all[k] == more[k - out.len()]);
            }
        }
        assert forall|j: int, k: int| 0 <= j < k < all.len() implies match (
            #[trigger] all[j],
            #[trigger] all[k],
        ) {
            (OutEventView::Keep(a), OutEventView::Keep(b)) => a < b,
            _ => true,
        } by {
            if k < out.len() {
                assert(all[j] == out[j] && all[k] == out[k]);
            } else if j < out.len() {
                assert(all[j] == out[j]);
                assert(all[k] == more[k - out.len()]);
            } else {
                assert(all[j] == more[j - out.len()]);
                assert(all[k] == more[k - out.len()]);
            }
        }
    }
}

/// The ordering guarantee of a pass: every input event that is passed on
/// is an event of the input, and the events passed on keep the order of the
/// input.
pub proof fn lemma_order_preserved(ctx: RenderContextView, events: Seq<MdEventView>)
    ensures
        keeps_below(transformed(ctx, events).events, events.len()),
        keeps_ascending(transformed(ctx, events).events),
{
    lemma_run_keeps_order(ctx, events);
    let (st, out) = run(ctx, events);
    lemma_close_block_keeps_nothing(ctx, st);
    let more = close_block(ctx, st).1;
    let all = out + more;
    assert forall|k: int| 0 <= k < all.len() implies match #[trigger] all[k] {
        OutEventView::Keep(i) => i < events.len(),
        _ => true,
    } by {
        if k < out.len() {
            assert(all[k] == out[k]);
        } else {
            assert(all[k] == more[k - out.len()]);
        }
    }
    assert forall|j: int, k: int| 0 <= j < k < all.len() implies match (
        #[trigger] all[j],
        #[trigger] all[k],
    ) {
        (OutEventView::Keep(a), OutEventView::Keep(b)) => a < b,
        _ => true,
    } by {
        if k < out.len() {
            assert(all[j] == out[j] && all[k] == out[k]);
        } else {
            assert(all[k] == more[k - out.len()]);
        }
    }
}

impl TransformerState {
    /// The state at the start of a document.
    pub fn new() -> (state: TransformerState)
        ensures
            state@ == initial_state(),
    {
        let state = TransformerState {
            current_heading_id: None,
            in_code_block: false,
            code_text: String::new(),
            code_language: String::new(),
            code_line: 0,
            in_frontmatter: false,
            frontmatter_text: String::new(),
            metadata: BlogMetadata::default(),
            diagnostics: Vec::new(),
        };
        assert(state@.diagnostics =~= Seq::empty());
        state
    }

    /// Ends the open code block, given the block as it was rendered: writes
    /// its markup out, and notes a diagnostic where its language was not
    /// known.
    pub fn finish_code_block(&mut self, ctx: &RenderContext, block: CodeBlock) -> (out: Vec<
        OutEvent,
    >)
        ensures
            (final(self)@, out_views(out@)) == code_block_ended(
                ctx@,
                old(self)@,
                block.html@,
                block.resolved,
            ),
    {
        if !block.resolved {
            self.diagnostics.push(
                Diagnostic {
                    post_id: ctx.post_id.clone(),
                    line: self.code_line,
                    token: self.code_language.clone(),
                },
            );
            assert(diagnostic_views(self.diagnostics@) =~= diagnostic_views(
                old(self).diagnostics@,
            ).push(
                DiagnosticView {
                    post_id: ctx@.post_id,
                    line: old(self)@.code_line,
                    token: old(self)@.code_language,
                },
            ));
        }
        self.in_code_block = false;
        self.code_text = String::new();
        self.code_language = String::new();
        self.code_line = 0;
        let out = vec![OutEvent::Html(block.html)];
        assert(out_views(out@) =~= seq![OutEventView::Html(block.html@)]);
        out
    }

    /// Ends the open code block.
    fn end_code(&mut self, ctx: &RenderContext) -> (out: Vec<OutEvent>)
        ensures
            (final(self)@, out_views(out@)) == end_code(ctx@, old(self)@),
    {
        let block = render_code_block(self.code_text.as_str(), self.code_language.as_str());
        self.finish_code_block(ctx, block)
    }

    /// Ends the open metadata block.
    fn end_frontmatter(&mut self)
        ensures
            final(self)@ == end_frontmatter(old(self)@),
    {
        let frontmatter = parse_frontmatter(self.frontmatter_text.as_str());
        self.metadata = BlogMetadata::new_from_frontmatter(&frontmatter);
        self.in_frontmatter = false;
        self.frontmatter_text = String::new();
    }

    /// Ends the block that is open, if one is, as its end event would:
    /// an open code block is rendered and written out, an open metadata
    /// block is read.
    pub fn close_block(&mut self, ctx: &RenderContext) -> (out: Vec<OutEvent>)
        ensures
            (final(self)@, out_views(out@)) == close_block(ctx@, old(self)@),
            old(self)@.wf() ==> final(self)@.wf() && final(self)@.idle(),
    {
        if self.in_code_block {
            self.end_code(ctx)
        } else if self.in_frontmatter {
            self.end_frontmatter();
            let out: Vec<OutEvent> = Vec::new();
            assert(out_views(out@) =~= Seq::empty());
            out
        } else {
            let out: Vec<OutEvent> = Vec::new();
            assert(out_views(out@) =~= Seq::empty());
            out
        }
    }

    /// Takes one event: changes the state as the event asks, and returns the
    /// events to write out for it. `index` is the position of the event in
    /// the document.
    pub fn step(&mut self, ctx: &RenderContext, index: usize, event: &MdEvent) -> (out: Vec<
        OutEvent,
    >)
        ensures
            (final(self)@, out_views(out@)) == step(ctx@, old(self)@, index as nat, event@),
            old(self)@.wf() ==> final(self)@.wf(),
    {
        match event {
            MdEvent::MetadataStart => {
                let out = self.close_block(ctx);
                self.in_frontmatter = true;
                out
            },
            MdEvent::MetadataEnd => {
                if self.in_frontmatter {
                    self.end_frontmatter();
                }
                let out: Vec<OutEvent> = Vec::new();
                assert(out_views(out@) =~= Seq::empty());
                out
            },
            MdEvent::CodeStart { language, line } => {
                let out = self.close_block(ctx);
                self.in_code_block = true;
                self.code_language = language.clone();
                self.code_line = *line;
                out
            },
            MdEvent::CodeEnd => {
                if self.in_code_block {
                    self.end_code(ctx)
                } else {
                    keep(index)
                }
            },
            MdEvent::Text(text) => {
                if self.in_frontmatter {
                    self.frontmatter_text.append(text.as_str());
                    let out: Vec<OutEvent> = Vec::new();
                    assert(out_views(out@) =~= Seq::empty());
                    out
                } else if self.in_code_block {
                    self.code_text.append(text.as_str());
                    let out: Vec<OutEvent> = Vec::new();
                    assert(out_views(out@) =~= Seq::empty());
                    out
                } else {
                    rewrite_superscript(text.as_str())
                }
            },
            MdEvent::HeadingStart { level, id } => {
                match id {
                    Some(id) => {
                        self.current_heading_id = Some(id.clone());
                        open_heading(ctx.mode, ctx.page_url.as_str(), *level, id.as_str())
                    },
                    None => {
                        self.current_heading_id = None;
                        keep(index)
                    },
                }
            },
            MdEvent::HeadingEnd { level } => {
                match self.current_heading_id.take() {
                    Some(id) => close_heading(
                        ctx.mode,
                        ctx.page_url.as_str(),
                        *level,
                        id.as_str(),
                    ),
                    None => keep(index),
                }
            },
            MdEvent::Other => keep(index),
        }
    }
}

/// The event that passes on the input event at `index`.
fn keep(index: usize) -> (out: Vec<OutEvent>)
    ensures
        out_views(out@) == seq![OutEventView::Keep(index as nat)],
{
    let out = vec![OutEvent::Keep(index)];
    assert(out_views(out@) =~= seq![OutEventView::Keep(index as nat)]);
    out
}

/// Rewrites the events of a document in one pass from first to last.
///
/// The input events that are passed on are events of the input, and they
/// come out in the order in which they came in.
pub fn transform(ctx: &RenderContext, events: &Vec<MdEvent>) -> (result: Transformed)
    ensures
        result@ == transformed(ctx@, event_views(events@)),
        keeps_below(out_views(result.events@), events@.len()),
        keeps_ascending(out_views(result.events@)),
{
    let ghost views = event_views(events@);
    proof {
        lemma_order_preserved(ctx@, views);
    }
    let mut state = TransformerState::new();
    let mut all: Vec<OutEvent> = Vec::new();
    let mut i: usize = 0;
    assert(views.take(0) =~= Seq::<MdEventView>::empty());
    assert(out_views(all@) =~= Seq::empty());
    while i < events.len()
        invariant
            i <= events@.len(),
            views == event_views(events@),
            (state@, out_views(all@)) == run(ctx@, views.take(i as int)),
        decreases events@.len() - i,
    {
        let ghost before = out_views(all@);
        let mut out = state.step(ctx, i, &events[i]);
        let ghost more = out_views(out@);
        all.append(&mut out);
        proof {
            assert(views.take(i + 1).drop_last() =~= views.take(i as int));
            assert(views.take(i + 1).last() == events@[i as int]@);
            assert(out_views(all@) =~= before + more);
        }
        i = i + 1;
    }
    assert(views.take(i as int) =~= views);
    let ghost before = out_views(all@);
    let mut tail = state.close_block(ctx);
    let ghost more = out_views(tail@);
    all.append(&mut tail);
    assert(out_views(all@) =~= before + more);
    Transformed { events: all, metadata: state.metadata, diagnostics: state.diagnostics }
}

} // verus!
