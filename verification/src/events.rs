//! Classified structural events and per-event actions.
//!
//! The classifier never looks inside constructs other than code blocks, so
//! a parsed document is abstracted to four classes of events: a code-block
//! start with its language tag, a code-block end, a text fragment, and a
//! bucket for everything else, which passes through unexamined.

use vstd::prelude::*;

verus! {

/// One classified structural event of a parsed document.  Text is carried
/// as UTF-8 bytes.
#[derive(Debug, PartialEq, Eq)]
pub enum Event {
    /// A code block opens, with the language tag of its fence (empty for an
    /// indented block).
    CodeBlockStart { lang: Vec<u8> },
    /// A code block closes.
    CodeBlockEnd,
    /// A text fragment.
    Text { content: Vec<u8> },
    /// Any other construct: headings, links, emphasis, and the rest.
    Other,
}

/// Mathematical view of an [`Event`].
pub enum EventView {
    CodeBlockStart { lang: Seq<u8> },
    CodeBlockEnd,
    Text { content: Seq<u8> },
    Other,
}

impl View for Event {
    type V = EventView;

    open spec fn view(&self) -> EventView {
        match self {
            Event::CodeBlockStart { lang } => EventView::CodeBlockStart { lang: lang@ },
            Event::CodeBlockEnd => EventView::CodeBlockEnd,
            Event::Text { content } => EventView::Text { content: content@ },
            Event::Other => EventView::Other,
        }
    }
}

impl DeepView for Event {
    type V = EventView;

    open spec fn deep_view(&self) -> EventView {
        self.view()
    }
}

/// What becomes of one event: kept as it is, dropped, or replaced by a
/// text fragment with some of its lines removed.
#[derive(Debug, PartialEq, Eq)]
pub enum Action {
    /// The event passes through unchanged.
    Retain,
    /// The event is dropped.
    Omit,
    /// The event is replaced by a text fragment with this content.
    Rewrite { content: Vec<u8> },
}

/// Mathematical view of an [`Action`].
pub enum ActionView {
    Retain,
    Omit,
    Rewrite { content: Seq<u8> },
}

impl View for Action {
    type V = ActionView;

    open spec fn view(&self) -> ActionView {
        match self {
            Action::Retain => ActionView::Retain,
            Action::Omit => ActionView::Omit,
            Action::Rewrite { content } => ActionView::Rewrite { content: content@ },
        }
    }
}

impl DeepView for Action {
    type V = ActionView;

    open spec fn deep_view(&self) -> ActionView {
        self.view()
    }
}

} // verus!
