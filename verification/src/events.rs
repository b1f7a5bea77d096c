//! The block-level markdown event stream.
//!
//! Both rewrite passes consume a linear stream of events with byte ranges
//! into the source text.  The stream itself comes from the external markdown
//! parser behind a trusted wrapper; all logic over the stream is verified,
//! and nothing here assumes the ranges are orderly — the splicing layer
//! discards any edit the stream does not justify.

use vstd::prelude::*;
use pulldown_cmark::{CodeBlockKind, Event, Options, Parser, Tag};

verus! {

/// The block-level constructs the anchor pass cares about, besides fenced
/// code blocks.
#[derive(Debug, Clone, Copy, PartialEq, Eq, Structural)]
pub enum BlockKind {
    Paragraph,
    Heading,
    BlockQuote,
    IndentedCode,
    List,
    Item,
    FootnoteDefinition,
    Table,
    TableHead,
    TableRow,
    TableCell,
}

/// One markdown event, reduced to what the two rewrite passes read.
/// `start` and `end` are byte offsets into the UTF-8 encoding of the parsed
/// text.
#[derive(Debug, Clone)]
pub enum MdEvent {
    /// Start of a fenced code block carrying its info string.
    FenceStart { info: String, start: usize, end: usize },
    /// End of a fenced code block.
    FenceEnd { start: usize, end: usize },
    /// Start of any other block-level construct.
    BlockStart { kind: BlockKind, start: usize, end: usize },
    /// Literal text or inline code inside the current construct.
    Text { content: String },
    /// A soft or hard line break.
    LineBreak,
    /// Anything neither pass reads.
    Other,
}

#[verifier::external_type_specification]
#[verifier::external_body]
pub struct ExEvent<'a>(Event<'a>);

#[verifier::external_type_specification]
#[verifier::external_body]
pub struct ExTag<'a>(Tag<'a>);

/// What the external markdown parser produces for a given text, with
/// footnotes, tasklists, strikethrough, tables, smart punctuation and
/// heading attributes enabled.  The stream is a function of the text alone.
pub uninterp spec fn spec_md_events(text: Seq<char>) -> Seq<MdEvent>;

/// Relies on `pulldown_cmark::Tag`: names the block-level construct a start
/// tag opens, one arm per variant, or `None` for inline tags.
#[verifier::external_body]
fn block_kind_of(tag: &Tag<'_>) -> Option<BlockKind> {
    match tag {
        Tag::Paragraph => Some(BlockKind::Paragraph),
        Tag::Heading(..) => Some(BlockKind::Heading),
        Tag::BlockQuote => Some(BlockKind::BlockQuote),
        Tag::CodeBlock(_) => Some(BlockKind::IndentedCode),
        Tag::List(_) => Some(BlockKind::List),
        Tag::Item => Some(BlockKind::Item),
        Tag::FootnoteDefinition(_) => Some(BlockKind::FootnoteDefinition),
        Tag::Table(_) => Some(BlockKind::Table),
        Tag::TableHead => Some(BlockKind::TableHead),
        Tag::TableRow => Some(BlockKind::TableRow),
        Tag::TableCell => Some(BlockKind::TableCell),
        _ => None,
    }
}

/// Relies on `pulldown_cmark::Event`: reduces one parser event and its byte
/// range to the `MdEvent` this crate reads, moving fields only.
#[verifier::external_body]
fn convert_event(event: Event<'_>, range: core::ops::Range<usize>) -> MdEvent {
    let (start, end) = (range.start, range.end);
    match event {
        Event::Start(Tag::CodeBlock(CodeBlockKind::Fenced(info))) =>
            MdEvent::FenceStart { info: info.into_string(), start, end },
        Event::End(Tag::CodeBlock(CodeBlockKind::Fenced(_))) => MdEvent::FenceEnd { start, end },
        Event::Start(tag) => match block_kind_of(&tag) {
            Some(kind) => MdEvent::BlockStart { kind, start, end },
            None => MdEvent::Other,
        },
        Event::Text(t) | Event::Code(t) => MdEvent::Text { content: t.into_string() },
        Event::SoftBreak | Event::HardBreak => MdEvent::LineBreak,
        _ => MdEvent::Other,
    }
}

/// Relies on `pulldown_cmark::Parser::new_ext` and `into_offset_iter`:
/// parses the text into events with byte ranges, in document order; the
/// result depends on the text alone.
#[verifier::external_body]
pub fn parse_markdown_events(text: &str) -> (r: Vec<MdEvent>)
    ensures
        r@ == spec_md_events(text@),
{
    let options = Options::ENABLE_FOOTNOTES | Options::ENABLE_TASKLISTS
        | Options::ENABLE_STRIKETHROUGH | Options::ENABLE_TABLES
        | Options::ENABLE_SMART_PUNCTUATION | Options::ENABLE_HEADING_ATTRIBUTES;
    let mut out = Vec::new();
    for (event, range) in Parser::new_ext(text, options).into_offset_iter() {
        out.push(convert_event(event, range));
    }
    out
}

} // verus!
