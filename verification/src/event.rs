use vstd::prelude::*;

verus! {

/// Depth of a heading, from the top-level `h1` down to `h6`.
#[derive(Clone, Copy, Debug, PartialEq, Eq, Structural)]
pub enum HeadingLevel {
    H1,
    H2,
    H3,
    H4,
    H5,
    H6,
}

impl HeadingLevel {
    /// The name of the HTML element for this depth.
    pub open spec fn tag(self) -> Seq<char> {
        match self {
            HeadingLevel::H1 => "h1"@,
            HeadingLevel::H2 => "h2"@,
            HeadingLevel::H3 => "h3"@,
            HeadingLevel::H4 => "h4"@,
            HeadingLevel::H5 => "h5"@,
            HeadingLevel::H6 => "h6"@,
        }
    }

    /// The level with the given depth, if the depth is between 1 and 6.
    pub open spec fn with_number(n: int) -> Option<HeadingLevel> {
        if n == 1 {
            Some(HeadingLevel::H1)
        } else if n == 2 {
            Some(HeadingLevel::H2)
        } else if n == 3 {
            Some(HeadingLevel::H3)
        } else if n == 4 {
            Some(HeadingLevel::H4)
        } else if n == 5 {
            Some(HeadingLevel::H5)
        } else if n == 6 {
            Some(HeadingLevel::H6)
        } else {
            None
        }
    }

    /// The name of the HTML element for this depth.
    pub fn tag_name(self) -> (name: &'static str)
        ensures
            name@ == self.tag(),
    {
        match self {
            HeadingLevel::H1 => "h1",
            HeadingLevel::H2 => "h2",
            HeadingLevel::H3 => "h3",
            HeadingLevel::H4 => "h4",
            HeadingLevel::H5 => "h5",
            HeadingLevel::H6 => "h6",
        }
    }

    /// The level with the given depth, if the depth is between 1 and 6.
    pub fn from_number(n: usize) -> (level: Option<HeadingLevel>)
        ensures
            level == HeadingLevel::with_number(n as int),
    {
        if n == 1 {
            Some(HeadingLevel::H1)
        } else if n == 2 {
            Some(HeadingLevel::H2)
        } else if n == 3 {
            Some(HeadingLevel::H3)
        } else if n == 4 {
            Some(HeadingLevel::H4)
        } else if n == 5 {
            Some(HeadingLevel::H5)
        } else if n == 6 {
            Some(HeadingLevel::H6)
        } else {
            None
        }
    }
}

/// One parse event of a Markdown document, reduced to what the
/// transformation reads.
#[derive(Clone, Debug, PartialEq, Eq)]
pub enum MdEvent {
    /// A run of plain text.
    Text(String),
    /// The start of a heading, with its explicit id if it has one.
    HeadingStart { level: HeadingLevel, id: Option<String> },
    /// The end of a heading.
    HeadingEnd { level: HeadingLevel },
    /// The start of a fenced code block, with the language token of its
    /// fence and the line of the document on which the fence stands.
    CodeStart { language: String, line: usize },
    /// The end of a code block.
    CodeEnd,
    /// The start of a metadata block.
    MetadataStart,
    /// The end of a metadata block.
    MetadataEnd,
    /// Any other event.
    Other,
}

/// Mathematical value of an [`MdEvent`].
pub ghost enum MdEventView {
    Text(Seq<char>),
    HeadingStart { level: HeadingLevel, id: Option<Seq<char>> },
    HeadingEnd { level: HeadingLevel },
    CodeStart { language: Seq<char>, line: nat },
    CodeEnd,
    MetadataStart,
    MetadataEnd,
    Other,
}

impl View for MdEvent {
    type V = MdEventView;

    open spec fn view(&self) -> MdEventView {
        match *self {
            MdEvent::Text(s) => MdEventView::Text(s@),
            MdEvent::HeadingStart { level, id } => MdEventView::HeadingStart {
                level,
                id: match id {
                    Some(s) => Some(s@),
                    None => None,
                },
            },
            MdEvent::HeadingEnd { level } => MdEventView::HeadingEnd { level },
            MdEvent::CodeStart { language, line } => MdEventView::CodeStart {
                language: language@,
                line: line as nat,
            },
            MdEvent::CodeEnd => MdEventView::CodeEnd,
            MdEvent::MetadataStart => MdEventView::MetadataStart,
            MdEvent::MetadataEnd => MdEventView::MetadataEnd,
            MdEvent::Other => MdEventView::Other,
        }
    }
}

/// The values of a sequence of events.
pub open spec fn event_views(events: Seq<MdEvent>) -> Seq<MdEventView> {
    events.map_values(|e: MdEvent| e@)
}

/// One event of the rewritten stream.
#[derive(Clone, Debug, PartialEq, Eq)]
pub enum OutEvent {
    /// Markup that is written out as it stands.
    Html(String),
    /// Plain text, which the renderer escapes.
    Text(String),
    /// The input event at this position, unchanged.
    Keep(usize),
}

/// Mathematical value of an [`OutEvent`].
pub ghost enum OutEventView {
    Html(Seq<char>),
    Text(Seq<char>),
    Keep(nat),
}

impl View for OutEvent {
    type V = OutEventView;

    open spec fn view(&self) -> OutEventView {
        match *self {
            OutEvent::Html(s) => OutEventView::Html(s@),
            OutEvent::Text(s) => OutEventView::Text(s@),
            OutEvent::Keep(i) => OutEventView::Keep(i as nat),
        }
    }
}

/// The values of a sequence of rewritten events.
pub open spec fn out_views(events: Seq<OutEvent>) -> Seq<OutEventView> {
    events.map_values(|e: OutEvent| e@)
}

/// No event passes an input event on.
pub open spec fn keeps_nothing(events: Seq<OutEventView>) -> bool {
    forall|k: int| 0 <= k < events.len() ==> !(#[trigger] events[k] is Keep)
}

/// Every event that passes an input event on names a position below `bound`.
pub open spec fn keeps_below(events: Seq<OutEventView>, bound: nat) -> bool {
    forall|k: int|
        0 <= k < events.len() ==> match #[trigger] events[k] {
            OutEventView::Keep(index) => index < bound,
            _ => true,
        }
}

/// The input events that are passed on come in the order of the input: of
/// two such events, the later one names the later position.
pub open spec fn keeps_ascending(events: Seq<OutEventView>) -> bool {
    forall|j: int, k: int|
        0 <= j < k < events.len() ==> match (#[trigger] events[j], #[trigger] events[k]) {
            (OutEventView::Keep(a), OutEventView::Keep(b)) => a < b,
            _ => true,
        }
}

} // verus!
