use vstd::prelude::*;

verus! {

/// One structural event of a markdown document, in document order.
#[derive(Clone, Debug, PartialEq, Eq)]
pub enum MdEvent {
    ParagraphStart,
    ParagraphEnd,
    /// A heading of the given level, 1 to 6.
    HeadingStart(u8),
    HeadingEnd,
    BlockQuoteStart,
    BlockQuoteEnd,
    /// A code block: `Some` with the fence's tag, `None` for an indented one.
    CodeBlockStart(Option<String>),
    CodeBlockEnd,
    /// A list: `Some` with the first number of an ordered one.
    ListStart(Option<u64>),
    ListEnd,
    ItemStart,
    ItemEnd,
    EmphasisStart,
    EmphasisEnd,
    StrongStart,
    StrongEnd,
    StrikeStart,
    StrikeEnd,
    /// A link to the given destination.
    LinkStart(String),
    LinkEnd,
    Text(String),
    /// An inline code span.
    Code(String),
    /// Raw markup passed through.
    Html(String),
    SoftBreak,
    HardBreak,
    Rule,
    /// Anything the renderer shows nothing for.
    Other,
}

} // verus!
