use crate::text::{chars_of, same_text};
use syntect::highlighting::ThemeSet;
use syntect::html::highlighted_html_for_string;
use syntect::parsing::SyntaxSet;
use vstd::prelude::*;
use vstd::string::StringExecFns;

verus! {

/// The name of the syntax definition that the default syntax set has for a
/// language token, if it has one.
pub uninterp spec fn syntax_for_token(token: Seq<char>) -> Option<Seq<char>>;

/// The markup that the highlighter writes for `code`, read by the syntax
/// definition named `syntax` and coloured by the theme named `theme`. It is
/// `None` where the default sets hold no such definition or theme, or where
/// the highlighter fails on the code.
pub uninterp spec fn highlighted_html(code: Seq<char>, syntax: Seq<char>, theme: Seq<char>)
    -> Option<Seq<char>>;

/// The view of an optional string.
pub open spec fn text_of(s: Option<String>) -> Option<Seq<char>> {
    match s {
        Some(s) => Some(s@),
        None => None,
    }
}

/// Calls syntect's `SyntaxSet::find_syntax_by_token` on the syntax set that
/// `SyntaxSet::load_defaults_newlines` loads, and returns the `name` of the
/// definition found. The set is built into syntect, so the answer depends
/// on the token alone; nothing more is claimed of it.
#[verifier::external_body]
fn lookup_syntax(token: &str) -> (name: Option<String>)
    ensures
        text_of(name) == syntax_for_token(token@),
{
    SyntaxSet::load_defaults_newlines().find_syntax_by_token(token).map(|s| s.name.clone())
}

/// Calls syntect's `highlighted_html_for_string` on the code, with the
/// definition that `SyntaxSet::find_syntax_by_name` finds in the set of
/// `SyntaxSet::load_defaults_newlines`, and with the theme that stands under
/// the given key in `ThemeSet::load_defaults`. `None` stands for a
/// definition or a theme that is not there, and for an error of the
/// highlighter. Both sets are built into syntect, so the result depends on
/// the three arguments alone; nothing more is claimed of it.
#[verifier::external_body]
fn highlight(code: &str, syntax: &str, theme: &str) -> (html: Option<String>)
    ensures
        text_of(html) == highlighted_html(code@, syntax@, theme@),
{
    let syntaxes = SyntaxSet::load_defaults_newlines();
    let themes = ThemeSet::load_defaults();
    let syntax = syntaxes.find_syntax_by_name(syntax)?;
    let theme = themes.themes.get(theme)?;
    highlighted_html_for_string(code, &syntaxes, syntax, theme).ok()
}

/// The name of the syntax definition for text without a language.
pub open spec fn plain_text_syntax() -> Seq<char> {
    "Plain Text"@
}

/// The name of the theme that colours code.
pub open spec fn theme_name() -> Seq<char> {
    "InspiredGitHub"@
}

/// The token under which the highlighter knows the language that `token`
/// is another name for: `gfm` and `commonmark` are names for `markdown`,
/// `shell` and `console` for `bash`, and `typescript` is read as
/// `javascript`. No other token is another name.
pub open spec fn alias_target(token: Seq<char>) -> Option<Seq<char>> {
    if token == "gfm"@ || token == "commonmark"@ {
        Some("markdown"@)
    } else if token == "shell"@ || token == "console"@ {
        Some("bash"@)
    } else if token == "typescript"@ {
        Some("javascript"@)
    } else {
        None
    }
}

/// The token under which the highlighter knows the language that `token`
/// is another name for.
pub fn alias_for(token: &str) -> (target: Option<&'static str>)
    ensures
        match target {
            Some(t) => alias_target(token@) == Some(t@),
            None => alias_target(token@) is None,
        },
{
    if same_text(token, "gfm") || same_text(token, "commonmark") {
        Some("markdown")
    } else if same_text(token, "shell") || same_text(token, "console") {
        Some("bash")
    } else if same_text(token, "typescript") {
        Some("javascript")
    } else {
        None
    }
}

/// The syntax definition by which a code block is read.
#[derive(Clone, Debug, PartialEq, Eq)]
pub struct Resolution {
    /// The name of the definition.
    pub syntax: String,
    /// Whether the definition was found for the block's language token;
    /// otherwise it is the one for plain text.
    pub resolved: bool,
}

/// Mathematical value of a [`Resolution`].
pub ghost struct ResolutionView {
    pub syntax: Seq<char>,
    pub resolved: bool,
}

impl View for Resolution {
    type V = ResolutionView;

    open spec fn view(&self) -> ResolutionView {
        ResolutionView { syntax: self.syntax@, resolved: self.resolved }
    }
}

/// The definition chosen from what the syntax set has for the token itself
/// and for the token that it is another name for: the first of the two that
/// is there, else the one for plain text.
pub open spec fn chosen_syntax(exact: Option<Seq<char>>, aliased: Option<Seq<char>>)
    -> ResolutionView {
    match exact {
        Some(name) => ResolutionView { syntax: name, resolved: true },
        None => match aliased {
            Some(name) => ResolutionView { syntax: name, resolved: true },
            None => ResolutionView { syntax: plain_text_syntax(), resolved: false },
        },
    }
}

/// What the syntax set has for the token that `token` is another name for.
pub open spec fn syntax_for_alias(token: Seq<char>) -> Option<Seq<char>> {
    match alias_target(token) {
        Some(target) => syntax_for_token(target),
        None => None,
    }
}

/// The definition by which a code block with the language token `token` is
/// read.
pub open spec fn resolved_syntax(token: Seq<char>) -> ResolutionView {
    chosen_syntax(syntax_for_token(token), syntax_for_alias(token))
}

/// Chooses between the definition found for a token itself and the one
/// found for the token that it is another name for.
pub fn choose_syntax(exact: Option<String>, aliased: Option<String>) -> (chosen: Resolution)
    ensures
        chosen@ == chosen_syntax(text_of(exact), text_of(aliased)),
{
    match exact {
        Some(name) => Resolution { syntax: name, resolved: true },
        None => match aliased {
            Some(name) => Resolution { syntax: name, resolved: true },
            None => Resolution { syntax: String::from_str("Plain Text"), resolved: false },
        },
    }
}

/// Finds the syntax definition for a language token: the one that the syntax
/// set has for the token, else the one it has for the token's alias, else
/// the one for plain text.
pub fn resolve_syntax(token: &str) -> (chosen: Resolution)
    ensures
        chosen@ == resolved_syntax(token@),
{
    let exact = lookup_syntax(token);
    let aliased = if exact.is_some() {
        None
    } else {
        match alias_for(token) {
            Some(target) => lookup_syntax(target),
            None => None,
        }
    };
    choose_syntax(exact, aliased)
}

/// What stands for a character in HTML text.
pub open spec fn escaped_char(c: char) -> Seq<char> {
    if c == '&' {
        "&amp;"@
    } else if c == '<' {
        "&lt;"@
    } else if c == '>' {
        "&gt;"@
    } else if c == '"' {
        "&quot;"@
    } else if c == '\'' {
        "&#39;"@
    } else {
        seq![c]
    }
}

/// A text with each character that HTML reads as markup replaced.
pub open spec fn escaped(s: Seq<char>) -> Seq<char>
    decreases s.len(),
{
    if s.len() == 0 {
        Seq::empty()
    } else {
        escaped(s.drop_last()) + escaped_char(s.last())
    }
}

/// Replaces each character that HTML reads as markup.
pub fn escape_html(text: &str) -> (out: String)
    ensures
        out@ == escaped(text@),
{
    let chars = chars_of(text);
    let mut out = String::new();
    let mut i: usize = 0;
    assert(chars@.take(0) =~= Seq::<char>::empty());
    while i < chars.len()
        invariant
            i <= chars@.len(),
            chars@ == text@,
            out@ == escaped(chars@.take(i as int)),
        decreases chars@.len() - i,
    {
        let c = chars[i];
        assert(chars@.take(i + 1).drop_last() =~= chars@.take(i as int));
        if c == '&' {
            out.append("&amp;");
        } else if c == '<' {
            out.append("&lt;");
        } else if c == '>' {
            out.append("&gt;");
        } else if c == '"' {
            out.append("&quot;");
        } else if c == '\'' {
            out.append("&#39;");
        } else {
            out.push(c);
            assert(out@ =~= escaped(chars@.take(i as int)) + seq![c]);
        }
        i = i + 1;
    }
    assert(chars@.take(i as int) =~= chars@);
    out
}

/// A code block without colours.
pub open spec fn plain_block(code: Seq<char>) -> Seq<char> {
    "<pre><code>"@ + escaped(code) + "</code></pre>\n"@
}

/// The markup of a code block, given what the highlighter wrote for it:
/// that, or the code without colours where the highlighter wrote nothing.
pub open spec fn block_html(code: Seq<char>, highlighted: Option<Seq<char>>) -> Seq<char> {
    match highlighted {
        Some(html) => html,
        None => plain_block(code),
    }
}

/// The markup of a code block with the language token `token`.
pub open spec fn code_block_html(code: Seq<char>, token: Seq<char>) -> Seq<char> {
    block_html(code, highlighted_html(code, resolved_syntax(token).syntax, theme_name()))
}

/// The markup of a code block, given what the highlighter wrote for it.
pub fn finish_code_block(code: &str, highlighted: Option<String>) -> (html: String)
    ensures
        html@ == block_html(code@, text_of(highlighted)),
{
    match highlighted {
        Some(html) => html,
        None => {
            let mut html = String::from_str("<pre><code>");
            let body = escape_html(code);
            html.append(body.as_str());
            html.append("</code></pre>\n");
            html
        },
    }
}

/// A rendered code block.
#[derive(Clone, Debug, PartialEq, Eq)]
pub struct CodeBlock {
    /// The markup of the block.
    pub html: String,
    /// Whether a syntax definition was found for the block's language token.
    pub resolved: bool,
}

/// Renders a code block: resolves its language token to a syntax definition
/// and highlights the code by it.
pub fn render_code_block(code: &str, token: &str) -> (block: CodeBlock)
    ensures
        block.html@ == code_block_html(code@, token@),
        block.resolved == resolved_syntax(token@).resolved,
{
    let chosen = resolve_syntax(token);
    let highlighted = highlight(code, chosen.syntax.as_str(), "InspiredGitHub");
    CodeBlock { html: finish_code_block(code, highlighted), resolved: chosen.resolved }
}

} // verus!
