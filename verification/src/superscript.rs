use crate::event::{keeps_nothing, out_views, OutEvent, OutEventView};
use crate::text::{
    chars_of, find, first_match, lemma_first_match, lemma_first_match_skip, matches_at, string_of,
};
use vstd::prelude::*;
use vstd::string::StringExecFns;

verus! {

/// The two carets that open and close a superscript.
pub open spec fn delimiter() -> Seq<char> {
    seq!['^', '^']
}

/// The events for a superscript with the given content.
pub open spec fn superscript(inner: Seq<char>) -> Seq<OutEventView> {
    seq![OutEventView::Html("<sup>"@), OutEventView::Text(inner), OutEventView::Html("</sup>"@)]
}

/// A text event for `s`, or nothing where `s` is empty.
pub open spec fn literal(s: Seq<char>) -> Seq<OutEventView> {
    if s.len() == 0 {
        seq![]
    } else {
        seq![OutEventView::Text(s)]
    }
}

/// The events that a run of plain text becomes.
///
/// The text is read from the left. A pair of delimiters turns what it
/// encloses into a superscript; the text before the pair stays literal, and
/// what follows the pair is read in the same way. Text without a complete
/// pair stays one literal run, an unmatched opening delimiter included.
pub open spec fn superscript_events(s: Seq<char>) -> Seq<OutEventView>
    decreases s.len(),
    via superscript_events_decreases
{
    match first_match(s, delimiter(), 0) {
        None => seq![OutEventView::Text(s)],
        Some(open) => match first_match(s, delimiter(), open + 2) {
            None => seq![OutEventView::Text(s)],
            Some(close) => {
                let rest = s.skip(close + 2);
                literal(s.take(open)) + superscript(s.subrange(open + 2, close)) + if rest.len()
                    == 0 {
                    seq![]
                } else {
                    superscript_events(rest)
                }
            },
        },
    }
}

#[via_fn]
proof fn superscript_events_decreases(s: Seq<char>) {
    lemma_first_match(s, delimiter(), 0);
    if let Some(open) = first_match(s, delimiter(), 0) {
        lemma_first_match(s, delimiter(), open + 2);
    }
}

/// Text without a delimiter is passed on as it is.
pub proof fn lemma_plain_text_unchanged(s: Seq<char>)
    requires
        forall|i: int| !matches_at(s, i, delimiter()),
    ensures
        superscript_events(s) == seq![OutEventView::Text(s)],
{
    lemma_first_match(s, delimiter(), 0);
}

/// Rewriting text passes no input event on.
pub proof fn lemma_superscript_keeps_nothing(s: Seq<char>)
    ensures
        keeps_nothing(superscript_events(s)),
    decreases s.len(),
{
    lemma_first_match(s, delimiter(), 0);
    if let Some(open) = first_match(s, delimiter(), 0) {
        lemma_first_match(s, delimiter(), open + 2);
        if let Some(close) = first_match(s, delimiter(), open + 2) {
            let rest = s.skip(close + 2);
            if rest.len() > 0 {
                lemma_superscript_keeps_nothing(rest);
            }
        }
    }
}

/// The text that one rewritten event stands for: a text event stands for
/// its text, and the opening and the closing tag of a superscript each for
/// the delimiter that they took the place of.
pub open spec fn event_text(event: OutEventView) -> Seq<char> {
    match event {
        OutEventView::Text(text) => text,
        OutEventView::Html(_) => delimiter(),
        OutEventView::Keep(_) => Seq::empty(),
    }
}

/// The text that rewritten events stand for, one after the other.
pub open spec fn source_text(events: Seq<OutEventView>) -> Seq<char>
    decreases events.len(),
{
    if events.len() == 0 {
        Seq::empty()
    } else {
        source_text(events.drop_last()) + event_text(events.last())
    }
}

proof fn lemma_source_text_concat(a: Seq<OutEventView>, b: Seq<OutEventView>)
    ensures
        source_text(a + b) == source_text(a) + source_text(b),
    decreases b.len(),
{
    if b.len() == 0 {
        assert(a + b =~= a);
        assert(source_text(a) + source_text(b) =~= source_text(a));
    } else {
        assert((a + b).drop_last() =~= a + b.drop_last());
        lemma_source_text_concat(a, b.drop_last());
        assert((a + b).last() == b.last());
        assert(source_text(a + b) =~= source_text(a) + source_text(b));
    }
}

proof fn lemma_source_text_one(event: OutEventView)
    ensures
        source_text(seq![event]) == event_text(event),
{
    let one = seq![event];
    assert(one.drop_last() =~= Seq::<OutEventView>::empty());
    assert(source_text(one.drop_last()) =~= Seq::<char>::empty());
    assert(one.last() == event);
    assert(source_text(one) =~= event_text(event));
}

proof fn lemma_source_text_literal(s: Seq<char>)
    ensures
        source_text(literal(s)) == s,
{
    if s.len() > 0 {
        lemma_source_text_one(OutEventView::Text(s));
    } else {
        assert(s =~= Seq::<char>::empty());
    }
}

proof fn lemma_source_text_superscript(inner: Seq<char>)
    ensures
        source_text(superscript(inner)) == delimiter() + inner + delimiter(),
{
    let a = OutEventView::Html("<sup>"@);
    let b = OutEventView::Text(inner);
    let c = OutEventView::Html("</sup>"@);
    lemma_source_text_one(a);
    lemma_source_text_one(b);
    lemma_source_text_one(c);
    lemma_source_text_concat(seq![a], seq![b]);
    lemma_source_text_concat(seq![a] + seq![b], seq![c]);
    assert(superscript(inner) =~= seq![a] + seq![b] + seq![c]);
}

/// Rewriting loses and reorders nothing: with the delimiters put back in
/// the place of the tags, the rewritten events spell the text that was
/// rewritten.
pub proof fn lemma_superscript_keeps_text(s: Seq<char>)
    ensures
        source_text(superscript_events(s)) == s,
    decreases s.len(),
{
    lemma_source_text_one(OutEventView::Text(s));
    lemma_first_match(s, delimiter(), 0);
    if let Some(open) = first_match(s, delimiter(), 0) {
        lemma_first_match(s, delimiter(), open + 2);
        if let Some(close) = first_match(s, delimiter(), open + 2) {
            let before = s.take(open);
            let inner = s.subrange(open + 2, close);
            let rest = s.skip(close + 2);
            let rest_events = if rest.len() == 0 {
                Seq::<OutEventView>::empty()
            } else {
                superscript_events(rest)
            };
            assert(source_text(rest_events) == rest) by {
                if rest.len() > 0 {
                    lemma_superscript_keeps_text(rest);
                } else {
                    assert(rest =~= Seq::<char>::empty());
                }
            }
            lemma_source_text_literal(before);
            lemma_source_text_superscript(inner);
            lemma_source_text_concat(literal(before), superscript(inner));
            lemma_source_text_concat(literal(before) + superscript(inner), rest_events);
            assert(s =~= before + delimiter() + inner + delimiter() + rest) by {
                assert(s.subrange(open, open + 2) =~= delimiter());
                assert(s.subrange(close, close + 2) =~= delimiter());
                assert(s =~= before + s.subrange(open, open + 2) + inner + s.subrange(
                    close,
                    close + 2,
                ) + rest);
            }
            assert(superscript_events(s) == literal(before) + superscript(inner) + rest_events);
        }
    }
}

/// What `superscript_events` says of the text that is left after `pos`
/// characters of `s`, with the positions counted in `s`.
spec fn remaining_events(s: Seq<char>, pos: int) -> Seq<OutEventView> {
    match first_match(s, delimiter(), pos) {
        None => seq![OutEventView::Text(s.skip(pos))],
        Some(open) => match first_match(s, delimiter(), open + 2) {
            None => seq![OutEventView::Text(s.skip(pos))],
            Some(close) => literal(s.subrange(pos, open)) + superscript(
                s.subrange(open + 2, close),
            ) + if close + 2 == s.len() {
                seq![]
            } else {
                superscript_events(s.skip(close + 2))
            },
        },
    }
}

proof fn lemma_remaining_events(s: Seq<char>, pos: int)
    requires
        0 <= pos <= s.len(),
    ensures
        superscript_events(s.skip(pos)) == remaining_events(s, pos),
        match first_match(s, delimiter(), pos) {
            None => true,
            Some(open) => pos <= open && open + 2 <= s.len() && match first_match(
                s,
                delimiter(),
                open + 2,
            ) {
                None => true,
                Some(close) => open + 2 <= close && close + 2 <= s.len(),
            },
        },
{
    let rem = s.skip(pos);
    lemma_first_match_skip(s, delimiter(), pos, 0);
    lemma_first_match(s, delimiter(), pos);
    if let Some(open) = first_match(s, delimiter(), pos) {
        lemma_first_match_skip(s, delimiter(), pos, open - pos + 2);
        lemma_first_match(s, delimiter(), open + 2);
        if let Some(close) = first_match(s, delimiter(), open + 2) {
            assert(rem.take(open - pos) =~= s.subrange(pos, open));
            assert(rem.subrange(open - pos + 2, close - pos) =~= s.subrange(open + 2, close));
            assert(rem.skip(close - pos + 2) =~= s.skip(close + 2));
        }
    }
}

/// Rewrites a run of plain text into literal text and superscripts.
///
/// Text without a delimiter comes back as it is, in one piece. Whatever the
/// text, nothing of it is lost or moved: with the delimiters put back for
/// the tags, the events spell the text.
pub fn rewrite_superscript(text: &str) -> (out: Vec<OutEvent>)
    ensures
        out_views(out@) == superscript_events(text@),
        (forall|i: int| !matches_at(text@, i, delimiter())) ==> out_views(out@) == seq![
            OutEventView::Text(text@),
        ],
        source_text(out_views(out@)) == text@,
{
    proof {
        lemma_superscript_keeps_text(text@);
        if forall|i: int| !matches_at(text@, i, delimiter()) {
            lemma_plain_text_unchanged(text@);
        }
    }
    split_at_pairs(text)
}

/// Reads the text from the left, pair by pair.
fn split_at_pairs(text: &str) -> (out: Vec<OutEvent>)
    ensures
        out_views(out@) == superscript_events(text@),
{
    let chars = chars_of(text);
    let delim: Vec<char> = vec!['^', '^'];
    assert(delim@ =~= delimiter());
    let mut out: Vec<OutEvent> = Vec::new();
    let mut pos: usize = 0;
    assert(chars@.skip(0) =~= chars@);
    assert(out_views(out@) + superscript_events(text@) =~= superscript_events(text@));
    loop
        invariant
            chars@ == text@,
            delim@ == delimiter(),
            pos == 0 || pos < chars@.len(),
            superscript_events(text@) == out_views(out@) + superscript_events(
                chars@.skip(pos as int),
            ),
        decreases chars@.len() - pos,
    {
        let ghost before = out_views(out@);
        proof {
            lemma_remaining_events(chars@, pos as int);
        }
        let n = chars.len();
        let mut pair: Option<(usize, usize)> = None;
        if let Some(open) = find(&chars, &delim, pos) {
            if let Some(close) = find(&chars, &delim, open + 2) {
                pair = Some((open, close));
            }
        }
        match pair {
            None => {
                out.push(OutEvent::Text(string_of(&chars, pos, n)));
                proof {
                    assert(chars@.subrange(pos as int, n as int) =~= chars@.skip(pos as int));
                    assert(out_views(out@) =~= before + remaining_events(chars@, pos as int));
                }
                return out;
            },
            Some((open, close)) => {
                if open > pos {
                    out.push(OutEvent::Text(string_of(&chars, pos, open)));
                }
                out.push(OutEvent::Html(String::from_str("<sup>")));
                out.push(OutEvent::Text(string_of(&chars, open + 2, close)));
                out.push(OutEvent::Html(String::from_str("</sup>")));
                proof {
                    assert(out_views(out@) =~= before + literal(
                        chars@.subrange(pos as int, open as int),
                    ) + superscript(chars@.subrange(open + 2, close as int)));
                }
                pos = close + 2;
                if pos == n {
                    proof {
                        assert(superscript_events(text@) =~= out_views(out@));
                    }
                    return out;
                }
            },
        }
    }
}

} // verus!
