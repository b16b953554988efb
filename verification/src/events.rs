//! The structural event stream of a markdown body: parsing a body into events
//! and writing events back out as markdown.

use pulldown_cmark::{CodeBlockKind, Event, Options, Parser, Tag};
use vstd::prelude::*;

verus! {

/// The markdown parser's event type. Events the pipeline does not look into
/// are carried in this form from the parser to the serializer.
#[verifier::external_type_specification]
#[verifier::external_body]
pub struct ExEvent<'a>(Event<'a>);

/// The error type of the markdown serializer.
#[verifier::external_type_specification]
#[verifier::external_body]
pub struct ExSerializeError(pulldown_cmark_to_cmark::Error);

/// One event of the markdown grammar, as far as the pipeline looks into it.
#[derive(Debug, PartialEq)]
pub enum MdEvent {
    /// Start of a fenced code block, with its info-string.
    FenceStart { info: String },
    /// A text node, inside or outside a code block.
    Text { text: String },
    /// Any other event.
    Other { raw: Event<'static> },
}

/// Mathematical content of an [`MdEvent`].
pub enum MdEventView {
    FenceStart { info: Seq<char> },
    Text { text: Seq<char> },
    Other { raw: Event<'static> },
}

impl View for MdEvent {
    type V = MdEventView;

    open spec fn view(&self) -> MdEventView {
        match self {
            MdEvent::FenceStart { info } => MdEventView::FenceStart { info: info@ },
            MdEvent::Text { text } => MdEventView::Text { text: text@ },
            MdEvent::Other { raw } => MdEventView::Other { raw: *raw },
        }
    }
}

/// An event together with the byte range of the body that it was parsed from.
#[derive(Debug, PartialEq)]
pub struct StructuralEvent {
    pub event: MdEvent,
    /// First byte of the event's source.
    pub start: usize,
    /// First byte behind the event's source.
    pub end: usize,
}

/// Mathematical content of a [`StructuralEvent`].
pub struct StructuralEventView {
    pub event: MdEventView,
    pub start: nat,
    pub end: nat,
}

impl View for StructuralEvent {
    type V = StructuralEventView;

    open spec fn view(&self) -> StructuralEventView {
        StructuralEventView { event: self.event@, start: self.start as nat, end: self.end as nat }
    }
}

impl DeepView for StructuralEvent {
    type V = StructuralEventView;

    open spec fn deep_view(&self) -> StructuralEventView {
        self@
    }
}

/// The events of a stream without their byte ranges.
pub open spec fn kinds(events: Seq<StructuralEventView>) -> Seq<MdEventView> {
    Seq::new(events.len(), |i: int| events[i].event)
}

/// The event stream that the markdown parser, with no extension switched on,
/// yields for `body`.
pub uninterp spec fn parsed_events(body: Seq<char>) -> Seq<StructuralEventView>;

/// The markdown text that the serializer writes for `events` with its default
/// formatting, or `None` where it rejects the stream.
pub uninterp spec fn serialized(events: Seq<MdEventView>) -> Option<Seq<char>>;

/// Parses a markdown body into its events.
///
/// Runs `pulldown_cmark::Parser::new_ext` without options and collects what
/// `into_offset_iter` yields; fence starts and texts hand over their string,
/// every other event is kept as it is. The stream depends on `body` alone.
#[verifier::external_body]
pub(crate) fn parse_events(body: &str) -> (res: Vec<StructuralEvent>)
    ensures
        res.deep_view() == parsed_events(body@),
{
    Parser::new_ext(body, Options::empty())
        .into_offset_iter()
        .map(|(event, span)| StructuralEvent {
            event: match event {
                Event::Start(Tag::CodeBlock(CodeBlockKind::Fenced(info))) => {
                    MdEvent::FenceStart { info: info.to_string() }
                },
                Event::Text(text) => MdEvent::Text { text: text.to_string() },
                other => MdEvent::Other { raw: other.into_static() },
            },
            start: span.start,
            end: span.end,
        })
        .collect()
}

/// Writes an event stream out as markdown.
///
/// Runs `pulldown_cmark_to_cmark::cmark` on the events, byte ranges left
/// aside, with the parser options that `parse_events` uses. What is written,
/// and whether the stream is rejected, depends on the events alone.
#[verifier::external_body]
pub(crate) fn serialize_events(events: &Vec<StructuralEvent>) -> (res: Result<
    String,
    pulldown_cmark_to_cmark::Error,
>)
    ensures
        match res {
            Ok(text) => serialized(kinds(events.deep_view())) == Some(text@),
            Err(_) => serialized(kinds(events.deep_view())) is None,
        },
{
    let raw = events.iter().map(|e| match &e.event {
        MdEvent::FenceStart { info } => {
            Event::Start(Tag::CodeBlock(CodeBlockKind::Fenced(info.as_str().into())))
        },
        MdEvent::Text { text } => Event::Text(text.as_str().into()),
        MdEvent::Other { raw } => raw.clone(),
    });
    let mut out = String::new();
    pulldown_cmark_to_cmark::cmark(raw, &mut out, Options::empty())?;
    Ok(out)
}

} // verus!
