//! The older streaming pull parser, `OxideParser`.
//!
//! It walks the same states as `crate::sax::parser::Parser` but checks less:
//! it keeps no stack of open elements, knows no namespaces, skips the inside
//! of the document type declaration, takes no processing instruction inside
//! the root element, and does not notice the end of the root element. It
//! begins with the start of the document, and hands out the text of a
//! comment or a CDATA section as character data between the events that
//! start and end it. Where
//! it cannot go on it has no error to report: `try_read_event` then answers
//! `None`, and `read_event` is only to be called where that cannot happen.
use vstd::prelude::*;
use std::ops::Range;
use crate::parser3::grammar::{
    content_relaxed, misc_before_doctype, misc_before_xmldecl, spec_content_relaxed,
    spec_misc_before_doctype, spec_misc_before_xmldecl,
};
use crate::sax::internal::{
    insidecdata, insidecomment, misc, span_within, spec_Attribute2, spec_insidecdata,
    spec_insidecomment, spec_misc, Attribute2, AttributeRange, ContentRelaxed, InsideCdata,
    InsideComment, Misc, MiscBeforeDoctype, MiscBeforeXmlDecl,
};
use crate::sax::parser::{
    bytes_eq, piece_within, span, string_at, text_event_view, InternalSuccess, TextKind,
    ENTITY_AMP, ENTITY_APOS, ENTITY_GT, ENTITY_LT, ENTITY_QUOT,
};
use crate::sax::scan::Fail;
use crate::sax::text::{copy_bytes, text};
use crate::sax::{
    Attribute, AttributeView, EndElement, EndElementView, Event, EventView, Reference,
    ReferenceView, StartElement, StartElementView,
};
use vstd::string::StringExecFns;

pub mod grammar;

verus! {

/// Where the parser is in the document.
#[derive(Debug, Clone, Copy, PartialEq, Eq, Structural)]
pub enum ParserState {
    /// before the first event, which is the start of the document
    Initial,
    /// when the XML declaration, or anything else, is parsed, move on to
    /// `DocStartBeforeDocType`
    DocStartBeforeXmlDecl,
    /// when the document type declaration is parsed, move on to `DocStart`
    DocStartBeforeDocType,
    DocStartBeforeDocTypeInsideComment,
    DocStart,
    DocStartInsideComment,
    Content,
    InsideCdata,
    InsideComment,
    DocEnd,
    DocEndInsideComment,
}

/* ---------------------------------------------------------------------- */
/* the next piece of the document, and the state after it                   */

pub open spec fn after_misc_before_xmldecl(v: MiscBeforeXmlDecl) -> ParserState {
    match v {
        MiscBeforeXmlDecl::CommentStart => ParserState::DocStartBeforeDocTypeInsideComment,
        MiscBeforeXmlDecl::DocType(_) => ParserState::DocStart,
        _ => ParserState::DocStartBeforeDocType,
    }
}

pub open spec fn after_misc_before_doctype(v: MiscBeforeDoctype) -> ParserState {
    match v {
        MiscBeforeDoctype::CommentStart => ParserState::DocStartBeforeDocTypeInsideComment,
        MiscBeforeDoctype::DocType(_) => ParserState::DocStart,
        _ => ParserState::DocStartBeforeDocType,
    }
}

/// After a Misc piece in state `st`: a comment start moves inside the comment.
pub open spec fn after_misc(v: Misc, st: ParserState, in_comment: ParserState) -> ParserState {
    match v {
        Misc::CommentStart => in_comment,
        _ => st,
    }
}

/// After a piece of a comment: its end moves back to `out`.
pub open spec fn after_comment(v: InsideComment, st: ParserState, out: ParserState) -> ParserState {
    match v {
        InsideComment::CommentEnd => out,
        _ => st,
    }
}

pub open spec fn after_content(v: ContentRelaxed) -> ParserState {
    match v {
        ContentRelaxed::CdataStart => ParserState::InsideCdata,
        ContentRelaxed::CommentStart => ParserState::InsideComment,
        _ => ParserState::Content,
    }
}

pub open spec fn after_cdata(v: InsideCdata) -> ParserState {
    match v {
        InsideCdata::CdataEnd => ParserState::Content,
        _ => ParserState::InsideCdata,
    }
}

/// A piece of content; no data at all is the end of the document, and
/// anything else that does not parse stops the parser.
pub open spec fn spec_content_step(data: Seq<u8>) -> Option<(InternalSuccess, ParserState, usize)> {
    match spec_content_relaxed(data, 0) {
        Ok((n, v)) => Some((InternalSuccess::ContentRelaxed(v), after_content(v), n)),
        Err(Fail::Incomplete(_)) => if data.len() == 0 {
            Some((InternalSuccess::EndDocument, ParserState::Content, 0))
        } else {
            None
        },
        Err(Fail::Error(_, _)) => None,
    }
}

/// A piece of a comment, in a state whose comment ends in state `out`.
pub open spec fn spec_comment_step(data: Seq<u8>, st: ParserState, out: ParserState) -> Option<
    (InternalSuccess, ParserState, usize),
> {
    match spec_insidecomment(data, 0) {
        Ok((n, v)) => Some((InternalSuccess::InsideComment(v), after_comment(v, st, out), n)),
        Err(_) => None,
    }
}

/// The next piece of the document in state `state`, the state after it and
/// the number of bytes it takes; `None` where the parser cannot go on. In
/// the prolog, whatever is not a prolog piece (incomplete ones too) is taken
/// as content.
pub open spec fn spec_step(state: ParserState, data: Seq<u8>) -> Option<
    (InternalSuccess, ParserState, usize),
> {
    match state {
        ParserState::Initial => Some(
            (InternalSuccess::StartDocument, ParserState::DocStartBeforeXmlDecl, 0),
        ),
        ParserState::DocStartBeforeXmlDecl => match spec_misc_before_xmldecl(data, 0) {
            Ok((n, v)) => Some(
                (InternalSuccess::MiscBeforeXmlDecl(v), after_misc_before_xmldecl(v), n),
            ),
            Err(_) => spec_content_step(data),
        },
        ParserState::DocStartBeforeDocType => match spec_misc_before_doctype(data, 0) {
            Ok((n, v)) => Some(
                (InternalSuccess::MiscBeforeDoctype(v), after_misc_before_doctype(v), n),
            ),
            Err(_) => spec_content_step(data),
        },
        ParserState::DocStartBeforeDocTypeInsideComment => spec_comment_step(
            data,
            state,
            ParserState::DocStartBeforeDocType,
        ),
        ParserState::DocStart => match spec_misc(data, 0) {
            Ok((n, v)) => Some(
                (
                    InternalSuccess::Misc(v),
                    after_misc(v, ParserState::DocStart, ParserState::DocStartInsideComment),
                    n,
                ),
            ),
            Err(_) => spec_content_step(data),
        },
        ParserState::DocStartInsideComment => spec_comment_step(
            data,
            state,
            ParserState::DocStart,
        ),
        ParserState::Content => spec_content_step(data),
        ParserState::InsideCdata => match spec_insidecdata(data, 0) {
            Ok((n, v)) => Some((InternalSuccess::InsideCdata(v), after_cdata(v), n)),
            Err(_) => None,
        },
        ParserState::InsideComment => spec_comment_step(data, state, ParserState::Content),
        ParserState::DocEnd => if data.len() == 0 {
            Some((InternalSuccess::EndDocument, ParserState::DocEnd, 0))
        } else {
            match spec_misc(data, 0) {
                Ok((n, v)) => Some(
                    (
                        InternalSuccess::Misc(v),
                        after_misc(v, ParserState::DocEnd, ParserState::DocEndInsideComment),
                        n,
                    ),
                ),
                Err(_) => None,
            }
        },
        ParserState::DocEndInsideComment => spec_comment_step(data, state, ParserState::DocEnd),
    }
}

fn content_step(data: &[u8]) -> (r: Option<(InternalSuccess, ParserState, usize)>)
    ensures
        r == spec_content_step(data@),
        r matches Some((p, _, n)) ==> n <= data.len() && piece_within(p, data.len() as int),
{
    match content_relaxed(data, 0) {
        Ok((n, v)) => {
            let st = match &v {
                ContentRelaxed::CdataStart => ParserState::InsideCdata,
                ContentRelaxed::CommentStart => ParserState::InsideComment,
                _ => ParserState::Content,
            };
            Some((InternalSuccess::ContentRelaxed(v), st, n))
        },
        Err(Fail::Incomplete(_)) => if data.len() == 0 {
            Some((InternalSuccess::EndDocument, ParserState::Content, 0))
        } else {
            None
        },
        Err(Fail::Error(_, _)) => None,
    }
}

fn comment_step(data: &[u8], st: ParserState, out: ParserState) -> (r: Option<
    (InternalSuccess, ParserState, usize),
>)
    ensures
        r == spec_comment_step(data@, st, out),
        r matches Some((p, _, n)) ==> n <= data.len() && piece_within(p, data.len() as int),
{
    match insidecomment(data, 0) {
        Ok((n, v)) => {
            let next = match &v {
                InsideComment::CommentEnd => out,
                _ => st,
            };
            Some((InternalSuccess::InsideComment(v), next, n))
        },
        Err(_) => None,
    }
}

/// The next piece of the document in state `state` (see `spec_step`).
pub fn step(state: ParserState, data: &[u8]) -> (r: Option<(InternalSuccess, ParserState, usize)>)
    ensures
        r == spec_step(state, data@),
        r matches Some((p, _, n)) ==> n <= data.len() && piece_within(p, data.len() as int),
{
    match state {
        ParserState::Initial => Some(
            (InternalSuccess::StartDocument, ParserState::DocStartBeforeXmlDecl, 0),
        ),
        ParserState::DocStartBeforeXmlDecl => match misc_before_xmldecl(data, 0) {
            Ok((n, v)) => {
                let next = match &v {
                    MiscBeforeXmlDecl::CommentStart => {
                        ParserState::DocStartBeforeDocTypeInsideComment
                    },
                    MiscBeforeXmlDecl::DocType(_) => ParserState::DocStart,
                    _ => ParserState::DocStartBeforeDocType,
                };
                Some((InternalSuccess::MiscBeforeXmlDecl(v), next, n))
            },
            Err(_) => content_step(data),
        },
        ParserState::DocStartBeforeDocType => match misc_before_doctype(data, 0) {
            Ok((n, v)) => {
                let next = match &v {
                    MiscBeforeDoctype::CommentStart => {
                        ParserState::DocStartBeforeDocTypeInsideComment
                    },
                    MiscBeforeDoctype::DocType(_) => ParserState::DocStart,
                    _ => ParserState::DocStartBeforeDocType,
                };
                Some((InternalSuccess::MiscBeforeDoctype(v), next, n))
            },
            Err(_) => content_step(data),
        },
        ParserState::DocStartBeforeDocTypeInsideComment => comment_step(
            data,
            state,
            ParserState::DocStartBeforeDocType,
        ),
        ParserState::DocStart => match misc(data, 0) {
            Ok((n, v)) => {
                let next = match &v {
                    Misc::CommentStart => ParserState::DocStartInsideComment,
                    _ => ParserState::DocStart,
                };
                Some((InternalSuccess::Misc(v), next, n))
            },
            Err(_) => content_step(data),
        },
        ParserState::DocStartInsideComment => comment_step(data, state, ParserState::DocStart),
        ParserState::Content => content_step(data),
        ParserState::InsideCdata => match insidecdata(data, 0) {
            Ok((n, v)) => {
                let next = match &v {
                    InsideCdata::CdataEnd => ParserState::Content,
                    _ => ParserState::InsideCdata,
                };
                Some((InternalSuccess::InsideCdata(v), next, n))
            },
            Err(_) => None,
        },
        ParserState::InsideComment => comment_step(data, state, ParserState::Content),
        ParserState::DocEnd => if data.len() == 0 {
            Some((InternalSuccess::EndDocument, ParserState::DocEnd, 0))
        } else {
            match misc(data, 0) {
                Ok((n, v)) => {
                    let next = match &v {
                        Misc::CommentStart => ParserState::DocEndInsideComment,
                        _ => ParserState::DocEnd,
                    };
                    Some((InternalSuccess::Misc(v), next, n))
                },
                Err(_) => None,
            }
        },
        ParserState::DocEndInsideComment => comment_step(data, state, ParserState::DocEnd),
    }
}

/* ---------------------------------------------------------------------- */
/* from a piece of the document to an event                                 */

/// The attributes written in `s[pos..end]`, after those in `acc`: one
/// `S? Name Eq AttValue` after another, as long as they parse.
pub open spec fn attribute_list(s: Seq<u8>, pos: usize, end: usize, acc: Seq<AttributeRange>) -> Seq<
    AttributeRange,
>
    decreases end - pos,
{
    if pos < end && end <= s.len() {
        match spec_Attribute2(s, pos) {
            Ok((rest, a)) => if pos < rest && rest <= end {
                attribute_list(s, rest, end, acc.push(a))
            } else {
                acc
            },
            Err(_) => acc,
        }
    } else {
        acc
    }
}

/// The name and the value of the attribute lie in `0..=len`.
pub open spec fn attribute_placed(a: AttributeRange, len: int) -> bool {
    span_within(a.name, 0, len) && span_within(a.value, 0, len)
}

/// The attributes written in `s[start..end]` (see `attribute_list`).
fn attributes_between(s: &[u8], start: usize, end: usize) -> (r: Vec<AttributeRange>)
    requires
        start <= end <= s.len(),
    ensures
        r@ == attribute_list(s@, start, end, Seq::empty()),
        forall|i: int| 0 <= i < r.len() ==> #[trigger] attribute_placed(r@[i], s.len() as int),
{
    let mut acc: Vec<AttributeRange> = Vec::new();
    let mut pos = start;
    while pos < end
        invariant
            start <= pos <= end <= s.len(),
            attribute_list(s@, start, end, Seq::empty()) == attribute_list(s@, pos, end, acc@),
            forall|i: int| 0 <= i < acc.len() ==> #[trigger] attribute_placed(acc@[i], s.len() as int),
        decreases end - pos,
    {
        match Attribute2(s, pos) {
            Ok((rest, a)) => {
                if pos < rest && rest <= end {
                    acc.push(a);
                    pos = rest;
                } else {
                    return acc;
                }
            },
            Err(_) => {
                return acc;
            },
        }
    }
    acc
}

/// An attribute as an event shows it: its value and its name (this parser
/// knows no namespaces, so the other parts are empty).
pub open spec fn attribute_view(s: Seq<u8>, a: AttributeRange) -> Option<AttributeView> {
    match (text(span(s, a.name)), text(span(s, a.value))) {
        (Some(n), Some(v)) => Some(
            AttributeView {
                value: v,
                name: n,
                local_name: Seq::empty(),
                prefix: Seq::empty(),
                namespace: Seq::empty(),
            },
        ),
        _ => None,
    }
}

/// All the attributes as an event shows them; `None` when the text of one
/// of them is not UTF-8.
pub open spec fn attribute_views(s: Seq<u8>, v: Seq<AttributeRange>) -> Option<Seq<AttributeView>>
    decreases v.len(),
{
    if v.len() == 0 {
        Some(Seq::empty())
    } else {
        match (attribute_views(s, v.drop_last()), attribute_view(s, v.last())) {
            (Some(p), Some(a)) => Some(p.push(a)),
            _ => None,
        }
    }
}

proof fn lemma_views_prefix_none(s: Seq<u8>, v: Seq<AttributeRange>, k: int)
    requires
        0 <= k <= v.len(),
        attribute_views(s, v.take(k)) is None,
    ensures
        attribute_views(s, v) is None,
    decreases v.len() - k,
{
    if k < v.len() {
        assert(v.take(k + 1).drop_last() =~= v.take(k));
        lemma_views_prefix_none(s, v, k + 1);
    } else {
        assert(v.take(k) =~= v);
    }
}

fn build_attributes(s: &[u8], v: &Vec<AttributeRange>) -> (r: Option<Vec<Attribute>>)
    requires
        forall|i: int| 0 <= i < v.len() ==> #[trigger] attribute_placed(v@[i], s.len() as int),
    ensures
        match attribute_views(s@, v@) {
            Some(views) => r matches Some(x) && x@.map_values(|a: Attribute| a@) == views,
            None => r is None,
        },
{
    let mut out: Vec<Attribute> = Vec::new();
    let mut i: usize = 0;
    assert(v@.take(0) =~= Seq::<AttributeRange>::empty());
    while i < v.len()
        invariant
            i <= v.len(),
            forall|j: int| 0 <= j < v.len() ==> #[trigger] attribute_placed(v@[j], s.len() as int),
            attribute_views(s@, v@.take(i as int)) == Some(out@.map_values(|a: Attribute| a@)),
        decreases v.len() - i,
    {
        let a = &v[i];
        assert(attribute_placed(v@[i as int], s.len() as int));
        assert(v@.take(i as int + 1).drop_last() =~= v@.take(i as int));
        assert(v@.take(i as int + 1).last() == v@[i as int]);
        let name = string_at(s, &a.name);
        let value = string_at(s, &a.value);
        match (name, value) {
            (Some(n), Some(x)) => {
                out.push(
                    Attribute {
                        value: x,
                        name: n,
                        local_name: String::new(),
                        prefix: String::new(),
                        namespace: String::new(),
                    },
                );
                i = i + 1;
                assert(out@.map_values(|a: Attribute| a@) =~= attribute_views(
                    s@,
                    v@.take(i as int),
                ).unwrap());
            },
            _ => {
                proof {
                    lemma_views_prefix_none(s@, v@, i as int + 1);
                }
                return None;
            },
        }
    }
    assert(v@.take(v.len() as int) =~= v@);
    Some(out)
}

/// A start or empty-element tag as an event shows it.
pub open spec fn start_view(s: Seq<u8>, e: crate::sax::internal::StartElement, is_empty: bool) -> Option<
    StartElementView,
> {
    let list = attribute_list(s, e.attributes_chunk.start, e.attributes_chunk.end, Seq::empty());
    match (text(span(s, e.name)), attribute_views(s, list)) {
        (Some(n), Some(a)) => Some(
            StartElementView {
                name: n,
                is_empty,
                local_name: Seq::empty(),
                prefix: Seq::empty(),
                namespace: Seq::empty(),
                attributes: a,
            },
        ),
        _ => None,
    }
}

fn start_event(s: &[u8], e: &crate::sax::internal::StartElement, is_empty: bool) -> (r: Option<Event>)
    requires
        e.name.start <= e.name.end <= e.attributes_chunk.start <= e.attributes_chunk.end <= s.len(),
    ensures
        match start_view(s@, *e, is_empty) {
            Some(v) => r matches Some(x) && x@ == EventView::StartElement(v),
            None => r is None,
        },
{
    let list = attributes_between(s, e.attributes_chunk.start, e.attributes_chunk.end);
    let name = string_at(s, &e.name);
    let attributes = build_attributes(s, &list);
    match (name, attributes) {
        (Some(n), Some(a)) => Some(
            Event::StartElement(
                StartElement {
                    name: n,
                    is_empty,
                    local_name: String::new(),
                    prefix: String::new(),
                    namespace: String::new(),
                    attributes: a,
                },
            ),
        ),
        _ => None,
    }
}

/// What a reference stands for: the five predefined entities are resolved;
/// any other reference, character references too, stands for itself.
pub open spec fn resolved_reference(raw: Seq<u8>, t: Seq<char>) -> Seq<char> {
    if raw == ENTITY_AMP@ {
        "&"@
    } else if raw == ENTITY_LT@ {
        "<"@
    } else if raw == ENTITY_GT@ {
        ">"@
    } else if raw == ENTITY_QUOT@ {
        "\""@
    } else if raw == ENTITY_APOS@ {
        "'"@
    } else {
        t
    }
}

/// The event of a piece of text, when the text is UTF-8.
pub open spec fn text_view(s: Seq<u8>, g: Range<usize>, kind: TextKind) -> Option<EventView> {
    match text(span(s, g)) {
        Some(t) => Some(text_event_view(kind, t)),
        None => None,
    }
}

fn text_event(s: &[u8], g: &Range<usize>, kind: TextKind) -> (r: Option<Event>)
    requires
        span_within(*g, 0, s.len() as int),
    ensures
        match text_view(s@, *g, kind) {
            Some(v) => r matches Some(e) && e@ == v,
            None => r is None,
        },
{
    match string_at(s, g) {
        Some(t) => Some(
            match kind {
                TextKind::Characters => Event::Characters(t),
                TextKind::Comment => Event::Comment(t),
                TextKind::Cdata => Event::Cdata(t),
                TextKind::DocumentTypeDeclaration => Event::DocumentTypeDeclaration(t),
                TextKind::ProcessingInstruction => Event::ProcessingInstruction(t),
                TextKind::XmlDeclaration => Event::XmlDeclaration(t),
                TextKind::Whitespace => Event::Whitespace(t),
            },
        ),
        None => None,
    }
}

/// The event of a reference.
pub open spec fn reference_view(s: Seq<u8>, g: Range<usize>) -> Option<EventView> {
    match text(span(s, g)) {
        Some(t) => Some(
            EventView::Reference(
                ReferenceView { raw: t, resolved: Some(resolved_reference(span(s, g), t)) },
            ),
        ),
        None => None,
    }
}

fn reference_event(s: &[u8], g: &Range<usize>) -> (r: Option<Event>)
    requires
        span_within(*g, 0, s.len() as int),
    ensures
        match reference_view(s@, *g) {
            Some(v) => r matches Some(e) && e@ == v,
            None => r is None,
        },
{
    match string_at(s, g) {
        Some(t) => {
            let raw = vstd::slice::slice_subrange(s, g.start, g.end);
            assert(raw@ == span(s@, *g));
            let resolved = if bytes_eq(raw, &ENTITY_AMP) {
                String::from_str("&")
            } else if bytes_eq(raw, &ENTITY_LT) {
                String::from_str("<")
            } else if bytes_eq(raw, &ENTITY_GT) {
                String::from_str(">")
            } else if bytes_eq(raw, &ENTITY_QUOT) {
                String::from_str("\"")
            } else if bytes_eq(raw, &ENTITY_APOS) {
                String::from_str("'")
            } else {
                t.clone()
            };
            Some(Event::Reference(Reference { raw: t, resolved: Some(resolved) }))
        },
        None => None,
    }
}

/// The event a piece of the document makes, when its text is UTF-8.
pub open spec fn event_view(s: Seq<u8>, piece: InternalSuccess) -> Option<EventView> {
    match piece {
        InternalSuccess::StartDocument => Some(EventView::StartDocument),
        InternalSuccess::EndDocument => Some(EventView::EndDocument),
        InternalSuccess::MiscBeforeXmlDecl(v) => match v {
            MiscBeforeXmlDecl::XmlDecl(g) => text_view(s, g, TextKind::XmlDeclaration),
            MiscBeforeXmlDecl::PI(g) => text_view(s, g, TextKind::ProcessingInstruction),
            MiscBeforeXmlDecl::Whitespace(g) => text_view(s, g, TextKind::Whitespace),
            MiscBeforeXmlDecl::CommentStart => Some(EventView::StartComment),
            MiscBeforeXmlDecl::DocType(g) => text_view(s, g, TextKind::DocumentTypeDeclaration),
        },
        InternalSuccess::MiscBeforeDoctype(v) => match v {
            MiscBeforeDoctype::PI(g) => text_view(s, g, TextKind::ProcessingInstruction),
            MiscBeforeDoctype::Whitespace(g) => text_view(s, g, TextKind::Whitespace),
            MiscBeforeDoctype::CommentStart => Some(EventView::StartComment),
            MiscBeforeDoctype::DocType(g) => text_view(s, g, TextKind::DocumentTypeDeclaration),
        },
        InternalSuccess::Misc(v) => match v {
            Misc::PI(g) => text_view(s, g, TextKind::ProcessingInstruction),
            Misc::Whitespace(g) => text_view(s, g, TextKind::Whitespace),
            Misc::CommentStart => Some(EventView::StartComment),
        },
        InternalSuccess::InsideComment(v) => match v {
            InsideComment::Characters(g) => text_view(s, g, TextKind::Characters),
            InsideComment::CommentEnd => Some(EventView::EndComment),
        },
        InternalSuccess::InsideCdata(v) => match v {
            InsideCdata::Characters(g) => text_view(s, g, TextKind::Characters),
            InsideCdata::CdataEnd => Some(EventView::EndCdataSection),
        },
        InternalSuccess::ContentRelaxed(v) => match v {
            ContentRelaxed::CharData(g) => text_view(s, g, TextKind::Characters),
            ContentRelaxed::StartElement(e) => match start_view(s, e, false) {
                Some(x) => Some(EventView::StartElement(x)),
                None => None,
            },
            ContentRelaxed::EmptyElemTag(e) => match start_view(s, e, true) {
                Some(x) => Some(EventView::StartElement(x)),
                None => None,
            },
            ContentRelaxed::EndElement(e) => match text(span(s, e.name)) {
                Some(n) => Some(
                    EventView::EndElement(
                        EndElementView {
                            name: n,
                            local_name: Seq::empty(),
                            prefix: Seq::empty(),
                            namespace: Seq::empty(),
                        },
                    ),
                ),
                None => None,
            },
            ContentRelaxed::Reference(r) => reference_view(s, r.initial),
            ContentRelaxed::PI(g) => text_view(s, g, TextKind::ProcessingInstruction),
            ContentRelaxed::CdataStart => Some(EventView::StartCdataSection),
            ContentRelaxed::CommentStart => Some(EventView::StartComment),
        },
    }
}

/// The event a piece of the document makes (see `event_view`).
pub fn event_of(s: &[u8], piece: &InternalSuccess) -> (r: Option<Event>)
    requires
        piece_within(*piece, s.len() as int),
    ensures
        match event_view(s@, *piece) {
            Some(v) => r matches Some(e) && e@ == v,
            None => r is None,
        },
{
    match piece {
        InternalSuccess::StartDocument => Some(Event::StartDocument),
        InternalSuccess::EndDocument => Some(Event::EndDocument),
        InternalSuccess::MiscBeforeXmlDecl(v) => match v {
            MiscBeforeXmlDecl::XmlDecl(g) => text_event(s, g, TextKind::XmlDeclaration),
            MiscBeforeXmlDecl::PI(g) => text_event(s, g, TextKind::ProcessingInstruction),
            MiscBeforeXmlDecl::Whitespace(g) => text_event(s, g, TextKind::Whitespace),
            MiscBeforeXmlDecl::CommentStart => Some(Event::StartComment),
            MiscBeforeXmlDecl::DocType(g) => text_event(s, g, TextKind::DocumentTypeDeclaration),
        },
        InternalSuccess::MiscBeforeDoctype(v) => match v {
            MiscBeforeDoctype::PI(g) => text_event(s, g, TextKind::ProcessingInstruction),
            MiscBeforeDoctype::Whitespace(g) => text_event(s, g, TextKind::Whitespace),
            MiscBeforeDoctype::CommentStart => Some(Event::StartComment),
            MiscBeforeDoctype::DocType(g) => text_event(s, g, TextKind::DocumentTypeDeclaration),
        },
        InternalSuccess::Misc(v) => match v {
            Misc::PI(g) => text_event(s, g, TextKind::ProcessingInstruction),
            Misc::Whitespace(g) => text_event(s, g, TextKind::Whitespace),
            Misc::CommentStart => Some(Event::StartComment),
        },
        InternalSuccess::InsideComment(v) => match v {
            InsideComment::Characters(g) => text_event(s, g, TextKind::Characters),
            InsideComment::CommentEnd => Some(Event::EndComment),
        },
        InternalSuccess::InsideCdata(v) => match v {
            InsideCdata::Characters(g) => text_event(s, g, TextKind::Characters),
            InsideCdata::CdataEnd => Some(Event::EndCdataSection),
        },
        InternalSuccess::ContentRelaxed(v) => match v {
            ContentRelaxed::CharData(g) => text_event(s, g, TextKind::Characters),
            ContentRelaxed::StartElement(e) => start_event(s, e, false),
            ContentRelaxed::EmptyElemTag(e) => start_event(s, e, true),
            ContentRelaxed::EndElement(e) => match string_at(s, &e.name) {
                Some(n) => Some(
                    Event::EndElement(
                        EndElement {
                            name: n,
                            local_name: String::new(),
                            prefix: String::new(),
                            namespace: String::new(),
                        },
                    ),
                ),
                None => None,
            },
            ContentRelaxed::Reference(r) => reference_event(s, &r.initial),
            ContentRelaxed::PI(g) => text_event(s, g, TextKind::ProcessingInstruction),
            ContentRelaxed::CdataStart => Some(Event::StartCdataSection),
            ContentRelaxed::CommentStart => Some(Event::StartComment),
        },
    }
}

/* ---------------------------------------------------------------------- */
/* the parser                                                               */

/// The next event in state `state` with the buffered data `data`, the state
/// after it and the number of bytes it takes; `None` where the parser cannot
/// go on.
pub open spec fn spec_read_event(state: ParserState, data: Seq<u8>) -> Option<
    (EventView, ParserState, usize),
> {
    match spec_step(state, data) {
        Some((piece, next, n)) => match event_view(data, piece) {
            Some(e) => Some((e, next, n)),
            None => None,
        },
        None => None,
    }
}

/// A streaming pull parser over the bytes it is handed.
pub struct OxideParser {
    state: ParserState,
    buffer2: Vec<u8>,
    /// the bytes at the front of `buffer2` that the last event consumed
    offset: usize,
}

/// What the parser knows between two events.
pub struct OxideParserView {
    pub state: ParserState,
    /// the input that is buffered and not yet consumed
    pub data: Seq<u8>,
}

impl View for OxideParser {
    type V = OxideParserView;

    closed spec fn view(&self) -> OxideParserView {
        OxideParserView { state: self.state, data: self.buffer2@.skip(self.offset as int) }
    }
}

impl OxideParser {
    pub closed spec fn wf(&self) -> bool {
        self.offset <= self.buffer2.len()
    }

    /// A parser at the start of a document, with no data yet.
    pub fn start() -> (p: OxideParser)
        ensures
            p.wf(),
            p@ == (OxideParserView { state: ParserState::Initial, data: Seq::empty() }),
    {
        let p = OxideParser { state: ParserState::Initial, buffer2: Vec::new(), offset: 0 };
        assert(p@.data =~= Seq::<u8>::empty());
        p
    }

    /// The number of bytes buffered and not yet consumed.
    pub fn buffered_len(&self) -> (n: usize)
        requires
            self.wf(),
        ensures
            n == self@.data.len(),
    {
        self.buffer2.len() - self.offset
    }

    /// Drop the bytes that earlier events consumed.
    fn compact(&mut self)
        requires
            old(self).wf(),
        ensures
            final(self).wf(),
            final(self)@ == old(self)@,
            final(self).offset == 0,
    {
        if self.offset > 0 {
            let rest = copy_bytes(self.buffer2.as_slice(), self.offset, self.buffer2.len());
            self.buffer2 = rest;
            self.offset = 0;
            assert(self.buffer2@.skip(0) =~= self.buffer2@);
        }
    }

    /// Hand the parser the next bytes of the document; they go after the
    /// data it holds.
    pub fn read_data(&mut self, bytes: &[u8])
        requires
            old(self).wf(),
        ensures
            final(self).wf(),
            final(self)@ == (OxideParserView { data: old(self)@.data + bytes@, ..old(self)@ }),
    {
        self.compact();
        let ghost before = self.buffer2@;
        let ghost st = self.state;
        assert(before =~= old(self)@.data);
        let mut i: usize = 0;
        while i < bytes.len()
            invariant
                i <= bytes.len(),
                self.offset == 0,
                self.state == st,
                self.buffer2@ == before + bytes@.take(i as int),
            decreases bytes.len() - i,
        {
            self.buffer2.push(bytes[i]);
            i = i + 1;
            assert(self.buffer2@ =~= before + bytes@.take(i as int));
        }
        assert(bytes@.take(bytes.len() as int) =~= bytes@);
        assert(self.buffer2@.skip(0) =~= self.buffer2@);
        assert(before.skip(0) =~= before);
    }

    /// The next event, or `None` where the parser cannot go on (then nothing
    /// changes). The event consumes its bytes of the buffered data.
    pub fn try_read_event(&mut self) -> (r: Option<Event>)
        requires
            old(self).wf(),
        ensures
            final(self).wf(),
            match spec_read_event(old(self)@.state, old(self)@.data) {
                Some((e, next, n)) => r matches Some(x) && x@ == e && n <= old(self)@.data.len()
                    && final(self)@ == (OxideParserView {
                    state: next,
                    data: old(self)@.data.skip(n as int),
                }),
                None => r is None && final(self)@ == old(self)@,
            },
    {
        self.compact();
        assert(self.buffer2@.skip(0) =~= self.buffer2@);
        match step(self.state, self.buffer2.as_slice()) {
            Some((piece, next, n)) => {
                match event_of(self.buffer2.as_slice(), &piece) {
                    Some(e) => {
                        self.state = next;
                        self.offset = n;
                        Some(e)
                    },
                    None => None,
                }
            },
            None => None,
        }
    }

    /// The next event; the parser must be able to go on (see
    /// `try_read_event`).
    pub fn read_event(&mut self) -> (e: Event)
        requires
            old(self).wf(),
            spec_read_event(old(self)@.state, old(self)@.data) is Some,
        ensures
            final(self).wf(),
            spec_read_event(old(self)@.state, old(self)@.data) matches Some((v, next, n)) && e@
                == v && final(self)@ == (OxideParserView {
                state: next,
                data: old(self)@.data.skip(n as int),
            }),
    {
        match self.try_read_event() {
            Some(e) => e,
            None => Event::EndDocument,
        }
    }
}

/* ---------------------------------------------------------------------- */
/* laws                                                                     */

/// With no data left, outside a comment or a CDATA section, the parser
/// answers the end of the document without consuming anything; it then
/// stays where it is (in the content, or after the root element), so every
/// later call answers the end again.
pub proof fn law_no_data_ends_document(state: ParserState)
    requires
        state != ParserState::Initial,
        state != ParserState::DocStartBeforeDocTypeInsideComment,
        state != ParserState::DocStartInsideComment,
        state != ParserState::InsideCdata,
        state != ParserState::InsideComment,
        state != ParserState::DocEndInsideComment,
    ensures
        spec_read_event(state, Seq::empty()) == Some(
            (
                EventView::EndDocument,
                if state == ParserState::DocEnd {
                    ParserState::DocEnd
                } else {
                    ParserState::Content
                },
                0usize,
            ),
        ),
{
    let e = Seq::<u8>::empty();
    reveal(crate::parser3::grammar::spec_misc_before_xmldecl);
    reveal(crate::parser3::grammar::spec_misc_before_doctype);
    reveal(crate::parser3::grammar::spec_content_relaxed);
    reveal(crate::sax::internal::spec_misc);
    reveal(crate::sax::internal::spec_XMLDecl);
    reveal(crate::sax::internal::spec_PI);
    reveal(crate::sax::internal::spec_PI_start);
    reveal(crate::sax::internal::spec_CharData);
    reveal(crate::sax::internal::spec_STag);
    reveal(crate::sax::internal::spec_EmptyElemTag);
    reveal(crate::sax::internal::spec_ETag);
    // each literal that the first alternatives begin with runs past the end
    assert(e.subrange(0, 0) =~= seq![60u8, 63u8, 120u8, 109u8, 108u8].subrange(0, 0));
    assert(e.subrange(0, 0) =~= seq![60u8, 63u8].subrange(0, 0));
    assert(e.subrange(0, 0) =~= seq![60u8, 47u8].subrange(0, 0));
    assert(spec_content_relaxed(e, 0) is Err);
}


/// The five predefined entities stand for their characters, whatever the
/// text of the reference: `&amp;` for `&`, `&lt;` for `<`, `&gt;` for `>`,
/// `&quot;` for `"` and `&apos;` for `'`.
pub proof fn law_predefined_entities_resolved(t: Seq<char>)
    ensures
        resolved_reference(seq![38u8, 97u8, 109u8, 112u8, 59u8], t) == seq!['&'],
        resolved_reference(seq![38u8, 108u8, 116u8, 59u8], t) == seq!['<'],
        resolved_reference(seq![38u8, 103u8, 116u8, 59u8], t) == seq!['>'],
        resolved_reference(seq![38u8, 113u8, 117u8, 111u8, 116u8, 59u8], t) == seq!['"'],
        resolved_reference(seq![38u8, 97u8, 112u8, 111u8, 115u8, 59u8], t) == seq!['\''],
{
    reveal_strlit("&");
    reveal_strlit("<");
    reveal_strlit(">");
    reveal_strlit("\"");
    reveal_strlit("'");
    assert(ENTITY_AMP@ =~= seq![38u8, 97u8, 109u8, 112u8, 59u8]);
    assert(ENTITY_LT@ =~= seq![38u8, 108u8, 116u8, 59u8]);
    assert(ENTITY_GT@ =~= seq![38u8, 103u8, 116u8, 59u8]);
    assert(ENTITY_QUOT@ =~= seq![38u8, 113u8, 117u8, 111u8, 116u8, 59u8]);
    assert(ENTITY_APOS@ =~= seq![38u8, 97u8, 112u8, 111u8, 115u8, 59u8]);
}

/// Any other reference stands for its own text.
pub proof fn law_other_references_kept(raw: Seq<u8>, t: Seq<char>)
    requires
        raw != seq![38u8, 97u8, 109u8, 112u8, 59u8],
        raw != seq![38u8, 108u8, 116u8, 59u8],
        raw != seq![38u8, 103u8, 116u8, 59u8],
        raw != seq![38u8, 113u8, 117u8, 111u8, 116u8, 59u8],
        raw != seq![38u8, 97u8, 112u8, 111u8, 115u8, 59u8],
    ensures
        resolved_reference(raw, t) == t,
{
    assert(ENTITY_AMP@ =~= seq![38u8, 97u8, 109u8, 112u8, 59u8]);
    assert(ENTITY_LT@ =~= seq![38u8, 108u8, 116u8, 59u8]);
    assert(ENTITY_GT@ =~= seq![38u8, 103u8, 116u8, 59u8]);
    assert(ENTITY_QUOT@ =~= seq![38u8, 113u8, 117u8, 111u8, 116u8, 59u8]);
    assert(ENTITY_APOS@ =~= seq![38u8, 97u8, 112u8, 111u8, 115u8, 59u8]);
}

} // verus!
