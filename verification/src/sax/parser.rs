//! The pull parser: a state machine over the buffered input that hands out
//! one event per call.
use vstd::prelude::*;
use vstd::slice::slice_subrange;
use crate::sax::internal::{
    span_within, spec_Attribute2, spec_QName, Attribute2, AttributeRange, QName, AMP_HASH,
    AMP_HASH_X, content_within, cdata_within, comment_within, misc_within, misc_doctype_within,
    misc_xmldecl_within,
    content_relaxed, insidecdata, insidecomment, misc, misc_before_doctype, misc_before_xmldecl,
    spec_content_relaxed, spec_insidecdata, spec_insidecomment, spec_misc,
    spec_misc_before_doctype, spec_misc_before_xmldecl, ContentRelaxed, InsideCdata,
    InsideComment, Misc, MiscBeforeDoctype, MiscBeforeXmlDecl,
};
use crate::sax::scan::{Fail};
use crate::sax::{
    Attribute, AttributeView, EndElement, EndElementView, Event, EventView, Reference,
    ReferenceView, StartElement, StartElementView,
};
use vstd::utf8::is_scalar;
use crate::sax::text::{
    copy_bytes, join2, join4, join6, lossy_preview, lossy_preview_string, text, text_or_empty,
    scalar_string, utf8_string, utf8_string_or_empty,
};
use std::ops::Range;
use vstd::string::StringExecFns;

verus! {

/// Where the parser is in the document.
#[derive(Debug, Clone, Copy, PartialEq, Eq, Structural)]
pub enum ParserState {
    Initial,
    /// when the XML declaration is parsed, or anything else, move on to
    /// `DocStartBeforeDocType`
    DocStartBeforeXmlDecl,
    /// when the document type declaration is parsed, move on to `DocStart`
    DocStartBeforeDocType,
    DocStartBeforeDocTypeInsideComment,
    DocStart,
    DocStartInsideComment,
    Content,
    InsideCdata,
    InsideComment,
    /// after the root element: only Misc may follow
    DocEnd,
    DocEndInsideComment,
}

/// A parsing error.
#[derive(Debug)]
pub enum Error {
    /// the input is not well-formed; the message says where
    Parsing(String),
    /// the input ended before the next event was complete
    UnexpectedEof,
}

/// What an error says.
pub enum ErrorView {
    Parsing(Seq<char>),
    UnexpectedEof,
}

impl View for Error {
    type V = ErrorView;

    open spec fn view(&self) -> ErrorView {
        match self {
            Error::Parsing(m) => ErrorView::Parsing(m@),
            Error::UnexpectedEof => ErrorView::UnexpectedEof,
        }
    }
}

pub type SaxResult<T> = Result<T, Error>;

/// An exec result and a spec result that say the same.
pub open spec fn agrees<T>(r: Result<T, Error>, s: Result<T, ErrorView>) -> bool {
    match (r, s) {
        (Ok(a), Ok(b)) => a == b,
        (Err(e), Err(f)) => e@ == f,
        _ => false,
    }
}

/// A piece of the document as the grammar found it, before it becomes an
/// event.
#[derive(Debug)]
pub enum InternalSuccess {
    StartDocument,
    EndDocument,
    ContentRelaxed(ContentRelaxed),
    InsideCdata(InsideCdata),
    InsideComment(InsideComment),
    Misc(Misc),
    MiscBeforeDoctype(MiscBeforeDoctype),
    MiscBeforeXmlDecl(MiscBeforeXmlDecl),
}

/* ---------------------------------------------------------------------- */
/* the next piece of the document, and the state after it                   */

pub open spec fn state_after_misc_before_xmldecl(v: MiscBeforeXmlDecl) -> ParserState {
    match v {
        MiscBeforeXmlDecl::CommentStart => ParserState::DocStartBeforeDocTypeInsideComment,
        MiscBeforeXmlDecl::DocType(_) => ParserState::DocStart,
        _ => ParserState::DocStartBeforeDocType,
    }
}

pub open spec fn state_after_misc_before_doctype(v: MiscBeforeDoctype) -> ParserState {
    match v {
        MiscBeforeDoctype::CommentStart => ParserState::DocStartBeforeDocTypeInsideComment,
        MiscBeforeDoctype::DocType(_) => ParserState::DocStart,
        _ => ParserState::DocStartBeforeDocType,
    }
}

/// After a Misc piece in state `st`: a comment start moves inside the comment.
pub open spec fn state_after_misc(v: Misc, st: ParserState, in_comment: ParserState) -> ParserState {
    match v {
        Misc::CommentStart => in_comment,
        _ => st,
    }
}

/// After a piece of a comment: its end moves back to `out`.
pub open spec fn state_after_comment(v: InsideComment, st: ParserState, out: ParserState) -> ParserState {
    match v {
        InsideComment::CommentEnd => out,
        _ => st,
    }
}

pub open spec fn state_after_content(v: ContentRelaxed) -> ParserState {
    match v {
        ContentRelaxed::CdataStart => ParserState::InsideCdata,
        ContentRelaxed::CommentStart => ParserState::InsideComment,
        _ => ParserState::Content,
    }
}

pub open spec fn state_after_cdata(v: InsideCdata) -> ParserState {
    match v {
        InsideCdata::CdataEnd => ParserState::Content,
        _ => ParserState::InsideCdata,
    }
}

/// The message when no content piece begins the data.
pub open spec fn content_error(data: Seq<u8>) -> ErrorView {
    ErrorView::Parsing(
        "Expected one of (CharData | element | Reference | CDSect | PI | Comment), found: "@
            + lossy_preview(data),
    )
}

pub open spec fn spec_content_step(data: Seq<u8>) -> Result<(InternalSuccess, ParserState, usize), ErrorView> {
    match spec_content_relaxed(data, 0) {
        Ok((n, v)) => Ok((InternalSuccess::ContentRelaxed(v), state_after_content(v), n)),
        Err(Fail::Incomplete(_)) => Err(ErrorView::UnexpectedEof),
        Err(Fail::Error(_, _)) => Err(content_error(data)),
    }
}

/// A piece of a comment, in a state whose comment ends in state `out`.
pub open spec fn spec_comment_step(
    data: Seq<u8>,
    st: ParserState,
    out: ParserState,
    message: Seq<char>,
) -> Result<(InternalSuccess, ParserState, usize), ErrorView> {
    match spec_insidecomment(data, 0) {
        Ok((n, v)) => Ok((InternalSuccess::InsideComment(v), state_after_comment(v, st, out), n)),
        Err(Fail::Incomplete(_)) => Err(ErrorView::UnexpectedEof),
        Err(Fail::Error(_, _)) => Err(ErrorView::Parsing(message)),
    }
}

/// The XML declaration, a piece of the prolog or the document type
/// declaration at the start of the document; anything else is tried as
/// content.
pub open spec fn spec_xmldecl_step(data: Seq<u8>) -> Result<(InternalSuccess, ParserState, usize), ErrorView> {
    match spec_misc_before_xmldecl(data, 0) {
        Ok((n, v)) => Ok(
            (InternalSuccess::MiscBeforeXmlDecl(v), state_after_misc_before_xmldecl(v), n),
        ),
        Err(Fail::Incomplete(_)) => Err(ErrorView::UnexpectedEof),
        Err(Fail::Error(_, _)) => spec_content_step(data),
    }
}

/// A piece of the prolog or the document type declaration; anything else is
/// tried as content.
pub open spec fn spec_doctype_step(data: Seq<u8>) -> Result<(InternalSuccess, ParserState, usize), ErrorView> {
    match spec_misc_before_doctype(data, 0) {
        Ok((n, v)) => Ok(
            (InternalSuccess::MiscBeforeDoctype(v), state_after_misc_before_doctype(v), n),
        ),
        Err(Fail::Incomplete(_)) => Err(ErrorView::UnexpectedEof),
        Err(Fail::Error(_, _)) => spec_content_step(data),
    }
}

/// A piece of the prolog after the document type declaration; anything else
/// is tried as content.
pub open spec fn spec_docstart_step(data: Seq<u8>) -> Result<(InternalSuccess, ParserState, usize), ErrorView> {
    match spec_misc(data, 0) {
        Ok((n, v)) => Ok(
            (
                InternalSuccess::Misc(v),
                state_after_misc(v, ParserState::DocStart, ParserState::DocStartInsideComment),
                n,
            ),
        ),
        Err(Fail::Incomplete(_)) => Err(ErrorView::UnexpectedEof),
        Err(Fail::Error(_, _)) => spec_content_step(data),
    }
}

/// A piece of a CDATA section.
pub open spec fn spec_cdata_step(data: Seq<u8>) -> Result<(InternalSuccess, ParserState, usize), ErrorView> {
    match spec_insidecdata(data, 0) {
        Ok((n, v)) => Ok((InternalSuccess::InsideCdata(v), state_after_cdata(v), n)),
        Err(Fail::Incomplete(_)) => Err(ErrorView::UnexpectedEof),
        Err(Fail::Error(_, _)) => Err(
            ErrorView::Parsing("Expecting CDATA content or CDATA closing tag "@),
        ),
    }
}

/// After the root element: the end of the document when no data is left,
/// otherwise a piece of the epilog.
pub open spec fn spec_docend_step(data: Seq<u8>) -> Result<(InternalSuccess, ParserState, usize), ErrorView> {
    if data.len() == 0 {
        Ok((InternalSuccess::EndDocument, ParserState::DocEnd, 0))
    } else {
        match spec_misc(data, 0) {
            Ok((n, v)) => Ok(
                (
                    InternalSuccess::Misc(v),
                    state_after_misc(v, ParserState::DocEnd, ParserState::DocEndInsideComment),
                    n,
                ),
            ),
            Err(Fail::Incomplete(_)) => Err(ErrorView::UnexpectedEof),
            Err(Fail::Error(_, _)) => Err(
                ErrorView::Parsing("Unexpected entity/content at the end of the document."@),
            ),
        }
    }
}

/// The next piece of the document in state `state`, the state after it and
/// the number of bytes it takes; an incomplete piece is `UnexpectedEof`.
#[verifier::opaque]
pub open spec fn spec_read_event_splitted(state: ParserState, data: Seq<u8>) -> Result<
    (InternalSuccess, ParserState, usize),
    ErrorView,
> {
    match state {
        ParserState::Initial => Ok(
            (InternalSuccess::StartDocument, ParserState::DocStartBeforeXmlDecl, 0),
        ),
        ParserState::DocStartBeforeXmlDecl => spec_xmldecl_step(data),
        ParserState::DocStartBeforeDocType => spec_doctype_step(data),
        ParserState::DocStartBeforeDocTypeInsideComment => spec_comment_step(
            data,
            state,
            ParserState::DocStartBeforeDocType,
            "Expected Comment content or Comment end"@,
        ),
        ParserState::DocStart => spec_docstart_step(data),
        ParserState::DocStartInsideComment => spec_comment_step(
            data,
            state,
            ParserState::DocStart,
            "Expecting comment content or comment closing tag "@,
        ),
        ParserState::Content => spec_content_step(data),
        ParserState::InsideCdata => spec_cdata_step(data),
        ParserState::InsideComment => spec_comment_step(
            data,
            state,
            ParserState::Content,
            "Expecting comment content or comment closing tag "@,
        ),
        ParserState::DocEnd => spec_docend_step(data),
        ParserState::DocEndInsideComment => spec_comment_step(
            data,
            state,
            ParserState::DocEnd,
            "Expecting comment content or comment closing tag "@,
        ),
    }
}

fn content_step(data: &[u8]) -> (r: Result<(InternalSuccess, ParserState, usize), Error>)
    ensures
        agrees(r, spec_content_step(data@)),
        r matches Ok((piece, _, n)) ==> n <= data.len() && piece_within(piece, data.len() as int),
{
    match content_relaxed(data, 0) {
        Ok((n, v)) => {
            let st = match &v {
                ContentRelaxed::CdataStart => ParserState::InsideCdata,
                ContentRelaxed::CommentStart => ParserState::InsideComment,
                _ => ParserState::Content,
            };
            Ok((InternalSuccess::ContentRelaxed(v), st, n))
        },
        Err(Fail::Incomplete(_)) => Err(Error::UnexpectedEof),
        Err(Fail::Error(_, _)) => {
            let found = lossy_preview_string(data);
            Err(
                Error::Parsing(
                    join2(
                        "Expected one of (CharData | element | Reference | CDSect | PI | Comment), found: ",
                        &found,
                    ),
                ),
            )
        },
    }
}

fn comment_step(data: &[u8], st: ParserState, out: ParserState, message: &str) -> (r: Result<
    (InternalSuccess, ParserState, usize),
    Error,
>)
    ensures
        agrees(r, spec_comment_step(data@, st, out, message@)),
        r matches Ok((piece, _, n)) ==> n <= data.len() && piece_within(piece, data.len() as int),
{
    match insidecomment(data, 0) {
        Ok((n, v)) => {
            let next = match &v {
                InsideComment::CommentEnd => out,
                _ => st,
            };
            Ok((InternalSuccess::InsideComment(v), next, n))
        },
        Err(Fail::Incomplete(_)) => Err(Error::UnexpectedEof),
        Err(Fail::Error(_, _)) => Err(Error::Parsing(String::from_str(message))),
    }
}

fn xmldecl_step(data: &[u8]) -> (r: Result<(InternalSuccess, ParserState, usize), Error>)
    ensures
        agrees(r, spec_xmldecl_step(data@)),
        r matches Ok((piece, _, n)) ==> n <= data.len() && piece_within(piece, data.len() as int),
{
    match misc_before_xmldecl(data, 0) {
        Ok((n, v)) => {
            let next = match &v {
                MiscBeforeXmlDecl::CommentStart => ParserState::DocStartBeforeDocTypeInsideComment,
                MiscBeforeXmlDecl::DocType(_) => ParserState::DocStart,
                _ => ParserState::DocStartBeforeDocType,
            };
            Ok((InternalSuccess::MiscBeforeXmlDecl(v), next, n))
        },
        Err(Fail::Incomplete(_)) => Err(Error::UnexpectedEof),
        Err(Fail::Error(_, _)) => content_step(data),
    }
}

fn doctype_step(data: &[u8]) -> (r: Result<(InternalSuccess, ParserState, usize), Error>)
    ensures
        agrees(r, spec_doctype_step(data@)),
        r matches Ok((piece, _, n)) ==> n <= data.len() && piece_within(piece, data.len() as int),
{
    match misc_before_doctype(data, 0) {
        Ok((n, v)) => {
            let next = match &v {
                MiscBeforeDoctype::CommentStart => ParserState::DocStartBeforeDocTypeInsideComment,
                MiscBeforeDoctype::DocType(_) => ParserState::DocStart,
                _ => ParserState::DocStartBeforeDocType,
            };
            Ok((InternalSuccess::MiscBeforeDoctype(v), next, n))
        },
        Err(Fail::Incomplete(_)) => Err(Error::UnexpectedEof),
        Err(Fail::Error(_, _)) => content_step(data),
    }
}

fn docstart_step(data: &[u8]) -> (r: Result<(InternalSuccess, ParserState, usize), Error>)
    ensures
        agrees(r, spec_docstart_step(data@)),
        r matches Ok((piece, _, n)) ==> n <= data.len() && piece_within(piece, data.len() as int),
{
    match misc(data, 0) {
        Ok((n, v)) => {
            let next = match &v {
                Misc::CommentStart => ParserState::DocStartInsideComment,
                _ => ParserState::DocStart,
            };
            Ok((InternalSuccess::Misc(v), next, n))
        },
        Err(Fail::Incomplete(_)) => Err(Error::UnexpectedEof),
        Err(Fail::Error(_, _)) => content_step(data),
    }
}

fn cdata_step(data: &[u8]) -> (r: Result<(InternalSuccess, ParserState, usize), Error>)
    ensures
        agrees(r, spec_cdata_step(data@)),
        r matches Ok((piece, _, n)) ==> n <= data.len() && piece_within(piece, data.len() as int),
{
    match insidecdata(data, 0) {
        Ok((n, v)) => {
            let next = match &v {
                InsideCdata::CdataEnd => ParserState::Content,
                _ => ParserState::InsideCdata,
            };
            Ok((InternalSuccess::InsideCdata(v), next, n))
        },
        Err(Fail::Incomplete(_)) => Err(Error::UnexpectedEof),
        Err(Fail::Error(_, _)) => Err(
            Error::Parsing(String::from_str("Expecting CDATA content or CDATA closing tag ")),
        ),
    }
}

fn docend_step(data: &[u8]) -> (r: Result<(InternalSuccess, ParserState, usize), Error>)
    ensures
        agrees(r, spec_docend_step(data@)),
        r matches Ok((piece, _, n)) ==> n <= data.len() && piece_within(piece, data.len() as int),
{
    if data.len() == 0 {
        Ok((InternalSuccess::EndDocument, ParserState::DocEnd, 0))
    } else {
        match misc(data, 0) {
            Ok((n, v)) => {
                let next = match &v {
                    Misc::CommentStart => ParserState::DocEndInsideComment,
                    _ => ParserState::DocEnd,
                };
                Ok((InternalSuccess::Misc(v), next, n))
            },
            Err(Fail::Incomplete(_)) => Err(Error::UnexpectedEof),
            Err(Fail::Error(_, _)) => Err(
                Error::Parsing(
                    String::from_str("Unexpected entity/content at the end of the document."),
                ),
            ),
        }
    }
}

/// The next piece of the document in state `state`.
fn read_event_splitted(state: ParserState, data: &[u8]) -> (r: Result<
    (InternalSuccess, ParserState, usize),
    Error,
>)
    ensures
        agrees(r, spec_read_event_splitted(state, data@)),
        r matches Ok((piece, _, n)) ==> n <= data.len() && piece_within(piece, data.len() as int),
{
    reveal(spec_read_event_splitted);
    match state {
        ParserState::Initial => Ok(
            (InternalSuccess::StartDocument, ParserState::DocStartBeforeXmlDecl, 0),
        ),
        ParserState::DocStartBeforeXmlDecl => xmldecl_step(data),
        ParserState::DocStartBeforeDocType => doctype_step(data),
        ParserState::DocStartBeforeDocTypeInsideComment => comment_step(
            data,
            state,
            ParserState::DocStartBeforeDocType,
            "Expected Comment content or Comment end",
        ),
        ParserState::DocStart => docstart_step(data),
        ParserState::DocStartInsideComment => comment_step(
            data,
            state,
            ParserState::DocStart,
            "Expecting comment content or comment closing tag ",
        ),
        ParserState::Content => content_step(data),
        ParserState::InsideCdata => cdata_step(data),
        ParserState::InsideComment => comment_step(
            data,
            state,
            ParserState::Content,
            "Expecting comment content or comment closing tag ",
        ),
        ParserState::DocEnd => docend_step(data),
        ParserState::DocEndInsideComment => comment_step(
            data,
            state,
            ParserState::DocEnd,
            "Expecting comment content or comment closing tag ",
        ),
    }
}

/* ---------------------------------------------------------------------- */
/* bytes                                                                    */

/// The bytes `data[r]`.
pub open spec fn span(data: Seq<u8>, r: Range<usize>) -> Seq<u8> {
    data.subrange(r.start as int, r.end as int)
}

/// Whether two byte strings are the same.
pub(crate) fn bytes_eq(a: &[u8], b: &[u8]) -> (r: bool)
    ensures
        r == (a@ == b@),
{
    if a.len() != b.len() {
        return false;
    }
    let mut i: usize = 0;
    while i < a.len()
        invariant
            a.len() == b.len(),
            i <= a.len(),
            forall|j: int| 0 <= j < i ==> a@[j] == b@[j],
        decreases a.len() - i,
    {
        if a[i] != b[i] {
            return false;
        }
        i = i + 1;
    }
    assert(a@ =~= b@);
    true
}

/// The bytes of `xmlns`.
pub const XMLNS: [u8; 5] = [120u8, 109u8, 108u8, 110u8, 115u8];

/* ---------------------------------------------------------------------- */
/* namespaces in scope                                                      */

/// A namespace binding: the depth of the element that declared it, its
/// prefix (empty for the default namespace) and its value.
struct Namespace {
    level: usize,
    prefix: Vec<u8>,
    value: Vec<u8>,
}

/// What a namespace binding holds.
pub struct NamespaceView {
    pub level: usize,
    pub prefix: Seq<u8>,
    pub value: Seq<u8>,
}

impl View for Namespace {
    type V = NamespaceView;

    closed spec fn view(&self) -> NamespaceView {
        NamespaceView { level: self.level, prefix: self.prefix@, value: self.value@ }
    }
}

spec fn ns_views(v: Seq<Namespace>) -> Seq<NamespaceView> {
    v.map_values(|n: Namespace| n@)
}

/// The index of the last binding among the first `n` whose depth is at
/// most `level`, or -1 when there is none.
pub open spec fn last_at_most(nss: Seq<NamespaceView>, level: usize, n: int) -> int
    decreases n,
{
    if n <= 0 {
        -1
    } else if nss[n - 1].level <= level {
        n - 1
    } else {
        last_at_most(nss, level, n - 1)
    }
}

/// The bindings still in scope at depth `level`: everything after the last
/// binding of depth at most `level` goes (everything, when no binding has
/// such a depth).
pub open spec fn cleanup_namespaces(nss: Seq<NamespaceView>, level: usize) -> Seq<NamespaceView> {
    let i = last_at_most(nss, level, nss.len() as int);
    if i < 0 {
        Seq::empty()
    } else {
        nss.take(i + 1)
    }
}

/// The value of the last binding among the first `n` with this prefix.
pub open spec fn find_namespace(nss: Seq<NamespaceView>, prefix: Seq<u8>, n: int) -> Option<Seq<u8>>
    decreases n,
{
    if n <= 0 {
        None
    } else if nss[n - 1].prefix == prefix {
        Some(nss[n - 1].value)
    } else {
        find_namespace(nss, prefix, n - 1)
    }
}

proof fn lemma_last_at_most_range(nss: Seq<NamespaceView>, level: usize, n: int)
    ensures
        -1 <= last_at_most(nss, level, n),
        n > 0 ==> last_at_most(nss, level, n) < n,
    decreases n,
{
    if n > 0 {
        lemma_last_at_most_range(nss, level, n - 1);
    }
}

/// Drop the bindings that went out of scope (see `cleanup_namespaces`).
fn cleanup(list: &mut Vec<Namespace>, level: usize)
    ensures
        ns_views(final(list)@) == cleanup_namespaces(ns_views(old(list)@), level),
{
    let ghost nss = ns_views(list@);
    let mut n = list.len();
    while n > 0 && list[n - 1].level > level
        invariant
            n <= list.len(),
            nss == ns_views(list@),
            last_at_most(nss, level, n as int) == last_at_most(nss, level, list.len() as int),
        decreases n,
    {
        n = n - 1;
    }
    proof {
        lemma_last_at_most_range(nss, level, list.len() as int);
    }
    list.truncate(n);
    assert(ns_views(list@) =~= nss.take(n as int));
}

/// The value of the last binding with this prefix.
fn find(list: &Vec<Namespace>, prefix: &[u8]) -> (r: Option<Vec<u8>>)
    ensures
        r is Some <==> find_namespace(ns_views(list@), prefix@, list.len() as int) is Some,
        r matches Some(v) ==> Some(v@) == find_namespace(ns_views(list@), prefix@, list.len() as int),
{
    let ghost nss = ns_views(list@);
    let mut n = list.len();
    while n > 0
        invariant
            n <= list.len(),
            nss == ns_views(list@),
            find_namespace(nss, prefix@, n as int) == find_namespace(nss, prefix@, list.len() as int),
        decreases n,
    {
        if bytes_eq(list[n - 1].prefix.as_slice(), prefix) {
            let v = copy_bytes(list[n - 1].value.as_slice(), 0, list[n - 1].value.len());
            assert(list[n - 1].value@.subrange(0, list[n - 1].value.len() as int) =~= list[n - 1].value@);
            return Some(v);
        }
        n = n - 1;
    }
    None
}

/* ---------------------------------------------------------------------- */
/* the attributes of a start tag                                            */

/// The attributes written in `s[pos..]`, after those in `acc`: one
/// `S? Name Eq AttValue` after another up to the end of `s`; `None` when one
/// of them does not parse.
pub open spec fn spec_attribute_ranges(s: Seq<u8>, pos: usize, acc: Seq<AttributeRange>) -> Option<
    Seq<AttributeRange>,
>
    decreases s.len() - pos,
{
    if pos >= s.len() {
        Some(acc)
    } else {
        match spec_Attribute2(s, pos) {
            Ok((rest, a)) => if pos < rest <= s.len() {
                spec_attribute_ranges(s, rest, acc.push(a))
            } else {
                None
            },
            Err(_) => None,
        }
    }
}

/// The parts of the attribute lie in `0..=len`.
pub open spec fn attribute_placed(a: AttributeRange, len: int) -> bool {
    &&& span_within(a.name, 0, len)
    &&& span_within(a.value, 0, len)
    &&& span_within(a.local_name, 0, len)
    &&& span_within(a.prefix, 0, len)
}

pub open spec fn all_placed(v: Seq<AttributeRange>, len: int) -> bool {
    forall|i: int| 0 <= i < v.len() ==> #[trigger] attribute_placed(v[i], len)
}

/// The attributes written in `s[start..]` (see `spec_attribute_ranges`).
fn attribute_ranges(s: &[u8], start: usize) -> (r: Option<Vec<AttributeRange>>)
    requires
        start <= s.len(),
    ensures
        match r {
            Some(v) => spec_attribute_ranges(s@, start, Seq::empty()) == Some(v@) && all_placed(
                v@,
                s.len() as int,
            ),
            None => spec_attribute_ranges(s@, start, Seq::empty()) is None,
        },
{
    let mut acc: Vec<AttributeRange> = Vec::new();
    let mut pos = start;
    while pos < s.len()
        invariant
            pos <= s.len(),
            spec_attribute_ranges(s@, start, Seq::empty()) == spec_attribute_ranges(s@, pos, acc@),
            all_placed(acc@, s.len() as int),
        decreases s.len() - pos,
    {
        match Attribute2(s, pos) {
            Ok((rest, a)) => {
                if rest <= pos {
                    return None;
                }
                acc.push(a);
                pos = rest;
            },
            Err(_) => {
                return None;
            },
        }
    }
    Some(acc)
}

/// The range `r` moved on by `by`.
pub open spec fn shift(r: Range<usize>, by: usize) -> Range<usize> {
    Range { start: (r.start + by) as usize, end: (r.end + by) as usize }
}

/// One attribute's part in the namespace declarations: an attribute `xmlns`
/// declares the default namespace and an attribute `xmlns:p` the prefix `p`,
/// both at depth `level`; the attribute comes back with the places of its
/// prefix and local part. An attribute name that is not a QName is an error.
pub open spec fn declare_step(data: Seq<u8>, a: AttributeRange, level: usize, nss: Seq<NamespaceView>) -> Result<
    (Seq<NamespaceView>, AttributeRange),
    ErrorView,
> {
    let name = span(data, a.name);
    match spec_QName(name, 0) {
        Err(_) => Err(
            ErrorView::Parsing("Attribute does not conform to QName spec: "@ + text_or_empty(name)),
        ),
        Ok((_, q)) => {
            let p = span(name, q.prefix_range);
            let l = span(name, q.local_name_range);
            let v = span(data, a.value);
            let nss2 = if p.len() == 0 && l == XMLNS@ {
                nss.push(NamespaceView { level, prefix: Seq::empty(), value: v })
            } else if p == XMLNS@ {
                nss.push(NamespaceView { level, prefix: l, value: v })
            } else {
                nss
            };
            Ok(
                (
                    nss2,
                    AttributeRange {
                        value: a.value,
                        name: a.name,
                        local_name: shift(q.local_name_range, a.name.start),
                        prefix: shift(q.prefix_range, a.name.start),
                        namespace: a.namespace,
                    },
                ),
            )
        },
    }
}

/// The namespace declarations among `attrs[i..]` added to `nss`, and the
/// attributes with the places of their prefixes and local parts, after
/// those in `done` (see `declare_step`).
pub open spec fn spec_declare(
    data: Seq<u8>,
    attrs: Seq<AttributeRange>,
    i: int,
    level: usize,
    nss: Seq<NamespaceView>,
    done: Seq<AttributeRange>,
) -> Result<(Seq<NamespaceView>, Seq<AttributeRange>), ErrorView>
    decreases attrs.len() - i,
{
    if i >= attrs.len() || i < 0 {
        Ok((nss, done))
    } else {
        match declare_step(data, attrs[i], level, nss) {
            Err(e) => Err(e),
            Ok((nss2, a2)) => spec_declare(data, attrs, i + 1, level, nss2, done.push(a2)),
        }
    }
}

/// A copy of the range.
fn range_copy(r: &Range<usize>) -> (c: Range<usize>)
    ensures
        c == *r,
{
    Range { start: r.start, end: r.end }
}

/// One attribute's part in the namespace declarations (see `declare_step`);
/// on an error `list` is left as it was.
fn declare_one(data: &[u8], a: &AttributeRange, level: usize, list: &mut Vec<Namespace>) -> (r:
    Result<AttributeRange, Error>)
    requires
        attribute_placed(*a, data.len() as int),
    ensures
        match declare_step(data@, *a, level, ns_views(old(list)@)) {
            Ok((n2, a2)) => r matches Ok(v) && v == a2 && ns_views(final(list)@) == n2
                && attribute_placed(v, data.len() as int),
            Err(e) => r matches Err(f) && f@ == e && final(list)@ == old(list)@,
        },
{
    let name = slice_subrange(data, a.name.start, a.name.end);
    match QName(name, 0) {
        Err(_) => {
            let shown = utf8_string_or_empty(name);
            Err(Error::Parsing(join2("Attribute does not conform to QName spec: ", &shown)))
        },
        Ok((_, q)) => {
            let p = slice_subrange(name, q.prefix_range.start, q.prefix_range.end);
            let l = slice_subrange(name, q.local_name_range.start, q.local_name_range.end);
            let ghost before = ns_views(list@);
            if p.len() == 0 && bytes_eq(l, &XMLNS) {
                let v = copy_bytes(data, a.value.start, a.value.end);
                list.push(Namespace { level, prefix: Vec::new(), value: v });
                proof {
                    assert(ns_views(list@) =~= before.push(
                        NamespaceView { level, prefix: Seq::empty(), value: span(data@, a.value) },
                    ));
                }
            } else if bytes_eq(p, &XMLNS) {
                let v = copy_bytes(data, a.value.start, a.value.end);
                let lc = copy_bytes(name, q.local_name_range.start, q.local_name_range.end);
                list.push(Namespace { level, prefix: lc, value: v });
                proof {
                    assert(ns_views(list@) =~= before.push(
                        NamespaceView { level, prefix: l@, value: span(data@, a.value) },
                    ));
                }
            }
            Ok(
                AttributeRange {
                    value: range_copy(&a.value),
                    name: range_copy(&a.name),
                    local_name: Range {
                        start: q.local_name_range.start + a.name.start,
                        end: q.local_name_range.end + a.name.start,
                    },
                    prefix: Range {
                        start: q.prefix_range.start + a.name.start,
                        end: q.prefix_range.end + a.name.start,
                    },
                    namespace: range_copy(&a.namespace),
                },
            )
        },
    }
}

/// Add the namespace declarations of the attributes to `list` (see
/// `spec_declare`); on an error `list` is left as it was.
fn declare(data: &[u8], attrs: &Vec<AttributeRange>, level: usize, list: &mut Vec<Namespace>) -> (r:
    Result<Vec<AttributeRange>, Error>)
    requires
        all_placed(attrs@, data.len() as int),
    ensures
        match spec_declare(data@, attrs@, 0, level, ns_views(old(list)@), Seq::empty()) {
            Ok((n2, d)) => r matches Ok(v) && v@ == d && ns_views(final(list)@) == n2 && all_placed(
                v@,
                data.len() as int,
            ),
            Err(e) => r matches Err(f) && f@ == e && ns_views(final(list)@) == ns_views(old(list)@),
        },
{
    let ghost nss0 = ns_views(list@);
    let base = list.len();
    let mut done: Vec<AttributeRange> = Vec::new();
    let mut i: usize = 0;
    while i < attrs.len()
        invariant
            i <= attrs.len(),
            all_placed(attrs@, data.len() as int),
            all_placed(done@, data.len() as int),
            base <= list.len(),
            ns_views(list@).take(base as int) == nss0,
            nss0.len() == base,
            nss0 == ns_views(old(list)@),
            spec_declare(data@, attrs@, 0, level, nss0, Seq::empty()) == spec_declare(
                data@,
                attrs@,
                i as int,
                level,
                ns_views(list@),
                done@,
            ),
        decreases attrs.len() - i,
    {
        assert(attribute_placed(attrs@[i as int], data.len() as int));
        let ghost before = ns_views(list@);
        match declare_one(data, &attrs[i], level, list) {
            Err(e) => {
                proof {
                    assert(declare_step(data@, attrs@[i as int], level, before) == Err::<
                        (Seq<NamespaceView>, AttributeRange),
                        ErrorView,
                    >(e@));
                    assert(spec_declare(data@, attrs@, i as int, level, before, done@) == Err::<
                        (Seq<NamespaceView>, Seq<AttributeRange>),
                        ErrorView,
                    >(e@));
                }
                list.truncate(base);
                proof {
                    assert(ns_views(list@) =~= nss0);
                }
                return Err(e);
            },
            Ok(a2) => {
                proof {
                    assert(ns_views(list@).take(base as int) =~= nss0) by {
                        assert(ns_views(list@).len() >= before.len());
                        assert forall|j: int| 0 <= j < base implies ns_views(list@)[j] == before[j] by {
                            if ns_views(list@) != before {
                                assert(ns_views(list@)[j] == before[j]);
                            }
                        }
                        assert(before.take(base as int) =~= nss0);
                    }
                }
                done.push(a2);
            },
        }
        i = i + 1;
    }
    Ok(done)
}

/// The namespace of each attribute of `attrs[i..]`, after those in `acc`:
/// none for an unprefixed attribute or one prefixed `xmlns` (the default
/// namespace does not apply to attributes), otherwise the value of the last
/// binding of its prefix; a prefix that nothing binds is an error.
pub open spec fn spec_attribute_namespaces(
    data: Seq<u8>,
    attrs: Seq<AttributeRange>,
    i: int,
    nss: Seq<NamespaceView>,
    element: Seq<u8>,
    acc: Seq<Seq<u8>>,
) -> Result<Seq<Seq<u8>>, ErrorView>
    decreases attrs.len() - i,
{
    if i >= attrs.len() || i < 0 {
        Ok(acc)
    } else {
        let a = attrs[i];
        let p = span(data, a.prefix);
        if p.len() == 0 || p == XMLNS@ {
            spec_attribute_namespaces(data, attrs, i + 1, nss, element, acc.push(Seq::empty()))
        } else {
            match find_namespace(nss, p, nss.len() as int) {
                Some(v) => spec_attribute_namespaces(data, attrs, i + 1, nss, element, acc.push(v)),
                None => Err(
                    ErrorView::Parsing(
                        "Namespace not found for prefix: "@ + text_or_empty(p) + " , attribute: "@
                            + text_or_empty(span(data, a.name)) + " , element: "@ + text_or_empty(
                            element,
                        ),
                    ),
                ),
            }
        }
    }
}

spec fn byte_views(v: Seq<Vec<u8>>) -> Seq<Seq<u8>> {
    v.map_values(|b: Vec<u8>| b@)
}

/// The namespace of each attribute (see `spec_attribute_namespaces`).
fn attribute_namespaces(
    data: &[u8],
    attrs: &Vec<AttributeRange>,
    list: &Vec<Namespace>,
    element: &[u8],
) -> (r: Result<Vec<Vec<u8>>, Error>)
    requires
        all_placed(attrs@, data.len() as int),
    ensures
        match spec_attribute_namespaces(
            data@,
            attrs@,
            0,
            ns_views(list@),
            element@,
            Seq::empty(),
        ) {
            Ok(v) => r matches Ok(w) && byte_views(w@) == v,
            Err(e) => r matches Err(f) && f@ == e,
        },
{
    let mut acc: Vec<Vec<u8>> = Vec::new();
    let mut i: usize = 0;
    assert(byte_views(acc@) =~= Seq::empty());
    while i < attrs.len()
        invariant
            i <= attrs.len(),
            all_placed(attrs@, data.len() as int),
            spec_attribute_namespaces(data@, attrs@, 0, ns_views(list@), element@, Seq::empty())
                == spec_attribute_namespaces(
                data@,
                attrs@,
                i as int,
                ns_views(list@),
                element@,
                byte_views(acc@),
            ),
        decreases attrs.len() - i,
    {
        let a = &attrs[i];
        assert(attribute_placed(attrs@[i as int], data.len() as int));
        let p = slice_subrange(data, a.prefix.start, a.prefix.end);
        let ghost before = byte_views(acc@);
        if p.len() == 0 || bytes_eq(p, &XMLNS) {
            acc.push(Vec::new());
            assert(byte_views(acc@) =~= before.push(Seq::empty()));
        } else {
            match find(list, p) {
                Some(v) => {
                    let ghost vv = v@;
                    acc.push(v);
                    assert(byte_views(acc@) =~= before.push(vv));
                },
                None => {
                    let ps = utf8_string_or_empty(p);
                    let ns = utf8_string_or_empty(slice_subrange(data, a.name.start, a.name.end));
                    let es = utf8_string_or_empty(element);
                    return Err(
                        Error::Parsing(
                            join6(
                                "Namespace not found for prefix: ",
                                &ps,
                                " , attribute: ",
                                &ns,
                                " , element: ",
                                &es,
                            ),
                        ),
                    );
                },
            }
        }
        i = i + 1;
    }
    Ok(acc)
}

/// The places of the prefix and local part of the element name `data[r]`,
/// and its namespace: the value of the last binding of its prefix, or none
/// for an unprefixed name that no default namespace binds. A name that is
/// not a QName, or a prefix that nothing binds, is an error.
pub open spec fn spec_element_namespace(data: Seq<u8>, r: Range<usize>, nss: Seq<NamespaceView>) -> Result<
    (Range<usize>, Range<usize>, Seq<u8>),
    ErrorView,
> {
    let name = span(data, r);
    match spec_QName(name, 0) {
        Err(_) => Err(
            ErrorView::Parsing("Element name does not conform to QName spec: "@ + text_or_empty(name)),
        ),
        Ok((_, q)) => {
            let p = span(name, q.prefix_range);
            let pre = shift(q.prefix_range, r.start);
            let loc = shift(q.local_name_range, r.start);
            match find_namespace(nss, p, nss.len() as int) {
                Some(v) => Ok((pre, loc, v)),
                None => if p.len() == 0 {
                    Ok((pre, loc, Seq::empty()))
                } else {
                    Err(
                        ErrorView::Parsing(
                            "Namespace prefix not found for element: "@ + text_or_empty(name),
                        ),
                    )
                },
            }
        },
    }
}

/// The prefix, local part and namespace of an element name (see
/// `spec_element_namespace`).
fn element_namespace(data: &[u8], r: &Range<usize>, list: &Vec<Namespace>) -> (res: Result<
    (Range<usize>, Range<usize>, Vec<u8>),
    Error,
>)
    requires
        span_within(*r, 0, data.len() as int),
    ensures
        match spec_element_namespace(data@, *r, ns_views(list@)) {
            Ok((pre, loc, v)) => res matches Ok((p2, l2, w)) && p2 == pre && l2 == loc && w@ == v
                && span_within(pre, 0, data.len() as int) && span_within(loc, 0, data.len() as int),
            Err(e) => res matches Err(f) && f@ == e,
        },
{
    let name = slice_subrange(data, r.start, r.end);
    match QName(name, 0) {
        Err(_) => {
            let shown = utf8_string_or_empty(name);
            Err(Error::Parsing(join2("Element name does not conform to QName spec: ", &shown)))
        },
        Ok((_, q)) => {
            let p = slice_subrange(name, q.prefix_range.start, q.prefix_range.end);
            let pre = Range {
                start: q.prefix_range.start + r.start,
                end: q.prefix_range.end + r.start,
            };
            let loc = Range {
                start: q.local_name_range.start + r.start,
                end: q.local_name_range.end + r.start,
            };
            match find(list, p) {
                Some(v) => Ok((pre, loc, v)),
                None => {
                    if p.len() == 0 {
                        Ok((pre, loc, Vec::new()))
                    } else {
                        let shown = utf8_string_or_empty(name);
                        Err(
                            Error::Parsing(
                                join2("Namespace prefix not found for element: ", &shown),
                            ),
                        )
                    }
                },
            }
        },
    }
}

/// Declaring namespaces only adds bindings after those in scope.
proof fn lemma_declare_extends(
    data: Seq<u8>,
    attrs: Seq<AttributeRange>,
    i: int,
    level: usize,
    nss: Seq<NamespaceView>,
    done: Seq<AttributeRange>,
)
    ensures
        spec_declare(data, attrs, i, level, nss, done) matches Ok((n2, _)) ==> n2.len() >= nss.len()
            && n2.take(nss.len() as int) =~= nss,
    decreases attrs.len() - i,
{
    if 0 <= i < attrs.len() {
        match declare_step(data, attrs[i], level, nss) {
            Err(_) => {},
            Ok((nss2, a2)) => {
                lemma_declare_extends(data, attrs, i + 1, level, nss2, done.push(a2));
                match spec_declare(data, attrs, i, level, nss, done) {
                    Ok((n2, _)) => {
                        assert(nss2.len() >= nss.len());
                        assert(nss2.take(nss.len() as int) =~= nss);
                        assert(n2.take(nss.len() as int) =~= n2.take(nss2.len() as int).take(
                            nss.len() as int,
                        ));
                    },
                    Err(_) => {},
                }
            },
        }
    }
}

/// A start tag's names resolved against the namespaces in scope.
pub struct ResolvedStart {
    /// the bindings in scope after the tag's own declarations
    pub namespaces: Seq<NamespaceView>,
    /// the attributes, with the places of their prefixes and local parts
    pub attributes: Seq<AttributeRange>,
    /// the namespace of each attribute
    pub attribute_namespaces: Seq<Seq<u8>>,
    pub prefix: Range<usize>,
    pub local_name: Range<usize>,
    pub namespace: Seq<u8>,
}

/// The empty range at 0.
pub open spec fn nowhere() -> Range<usize> {
    Range { start: 0, end: 0 }
}

/// A start tag with name `data[r]` and attributes `attrs` at depth `level`:
/// without namespace processing nothing is resolved; with it, the tag's
/// namespace declarations are added, then the attributes and the element
/// name are resolved against the bindings in scope.
pub open spec fn spec_parse_start_element(
    data: Seq<u8>,
    r: Range<usize>,
    attrs: Seq<AttributeRange>,
    namespace_aware: bool,
    level: usize,
    nss: Seq<NamespaceView>,
) -> Result<ResolvedStart, ErrorView> {
    if !namespace_aware {
        Ok(
            ResolvedStart {
                namespaces: nss,
                attributes: attrs,
                attribute_namespaces: Seq::new(attrs.len(), |i: int| Seq::<u8>::empty()),
                prefix: nowhere(),
                local_name: nowhere(),
                namespace: Seq::empty(),
            },
        )
    } else {
        match spec_declare(data, attrs, 0, level, nss, Seq::empty()) {
            Err(e) => Err(e),
            Ok((nss2, attrs2)) => match spec_attribute_namespaces(
                data,
                attrs2,
                0,
                nss2,
                span(data, r),
                Seq::empty(),
            ) {
                Err(e) => Err(e),
                Ok(ans) => match spec_element_namespace(data, r, nss2) {
                    Err(e) => Err(e),
                    Ok((pre, loc, v)) => Ok(
                        ResolvedStart {
                            namespaces: nss2,
                            attributes: attrs2,
                            attribute_namespaces: ans,
                            prefix: pre,
                            local_name: loc,
                            namespace: v,
                        },
                    ),
                },
            },
        }
    }
}

/// Resolve a start tag's names (see `spec_parse_start_element`); the tag's
/// namespace declarations stay in `list` when it succeeds, and `list` is
/// left as it was when it fails.
fn parse_start_element(
    data: &[u8],
    r: &Range<usize>,
    attrs: Vec<AttributeRange>,
    namespace_aware: bool,
    level: usize,
    list: &mut Vec<Namespace>,
) -> (res: Result<(Vec<AttributeRange>, Vec<Vec<u8>>, Range<usize>, Range<usize>, Vec<u8>), Error>)
    requires
        all_placed(attrs@, data.len() as int),
        span_within(*r, 0, data.len() as int),
    ensures
        match spec_parse_start_element(data@, *r, attrs@, namespace_aware, level, ns_views(old(list)@)) {
            Ok(rs) => res matches Ok((a2, ans, pre, loc, v)) && a2@ == rs.attributes && byte_views(
                ans@,
            ) == rs.attribute_namespaces && pre == rs.prefix && loc == rs.local_name && v@
                == rs.namespace && ns_views(final(list)@) == rs.namespaces && all_placed(
                a2@,
                data.len() as int,
            ) && span_within(pre, 0, data.len() as int) && span_within(loc, 0, data.len() as int),
            Err(e) => res matches Err(f) && f@ == e && ns_views(final(list)@) == ns_views(old(list)@),
        },
{
    if !namespace_aware {
        let mut ans: Vec<Vec<u8>> = Vec::new();
        let mut i: usize = 0;
        while i < attrs.len()
            invariant
                i <= attrs.len(),
                ans.len() == i,
                forall|j: int| 0 <= j < i ==> (#[trigger] ans@[j])@ == Seq::<u8>::empty(),
            decreases attrs.len() - i,
        {
            ans.push(Vec::new());
            i = i + 1;
        }
        assert(byte_views(ans@) =~= Seq::new(attrs.len() as nat, |j: int| Seq::<u8>::empty()));
        return Ok((attrs, ans, Range { start: 0, end: 0 }, Range { start: 0, end: 0 }, Vec::new()));
    }
    let ghost nss0 = ns_views(list@);
    let base = list.len();
    let attrs2 = match declare(data, &attrs, level, list) {
        Ok(a) => a,
        Err(e) => {
            return Err(e);
        },
    };
    let element = slice_subrange(data, r.start, r.end);
    let ans = match attribute_namespaces(data, &attrs2, list, element) {
        Ok(v) => v,
        Err(e) => {
            list.truncate(base);
            proof {
                lemma_declare_extends(data@, attrs@, 0, level, nss0, Seq::empty());
                assert(ns_views(list@) =~= nss0);
            }
            return Err(e);
        },
    };
    match element_namespace(data, r, list) {
        Ok((pre, loc, v)) => Ok((attrs2, ans, pre, loc, v)),
        Err(e) => {
            list.truncate(base);
            proof {
                lemma_declare_extends(data@, attrs@, 0, level, nss0, Seq::empty());
                assert(ns_views(list@) =~= nss0);
            }
            Err(e)
        },
    }
}

/// Declaring namespaces keeps one attribute for each attribute.
proof fn lemma_declare_len(
    data: Seq<u8>,
    attrs: Seq<AttributeRange>,
    i: int,
    level: usize,
    nss: Seq<NamespaceView>,
    done: Seq<AttributeRange>,
)
    requires
        0 <= i <= attrs.len(),
    ensures
        spec_declare(data, attrs, i, level, nss, done) matches Ok((_, d)) ==> d.len() == done.len()
            + attrs.len() - i,
    decreases attrs.len() - i,
{
    if i < attrs.len() {
        match declare_step(data, attrs[i], level, nss) {
            Err(_) => {},
            Ok((nss2, a2)) => {
                lemma_declare_len(data, attrs, i + 1, level, nss2, done.push(a2));
            },
        }
    }
}

/// There is one namespace for each attribute.
proof fn lemma_attribute_namespaces_len(
    data: Seq<u8>,
    attrs: Seq<AttributeRange>,
    i: int,
    nss: Seq<NamespaceView>,
    element: Seq<u8>,
    acc: Seq<Seq<u8>>,
)
    requires
        0 <= i <= attrs.len(),
    ensures
        spec_attribute_namespaces(data, attrs, i, nss, element, acc) matches Ok(v) ==> v.len()
            == acc.len() + attrs.len() - i,
    decreases attrs.len() - i,
{
    if i < attrs.len() {
        let p = span(data, attrs[i].prefix);
        if p.len() == 0 || p == XMLNS@ {
            lemma_attribute_namespaces_len(data, attrs, i + 1, nss, element, acc.push(Seq::empty()));
        } else {
            match find_namespace(nss, p, nss.len() as int) {
                Some(v) => lemma_attribute_namespaces_len(
                    data,
                    attrs,
                    i + 1,
                    nss,
                    element,
                    acc.push(v),
                ),
                None => {},
            }
        }
    }
}

/// Resolving a start tag keeps one namespace for each attribute and only
/// adds bindings after those in scope.
proof fn lemma_parse_start_element(
    data: Seq<u8>,
    r: Range<usize>,
    attrs: Seq<AttributeRange>,
    namespace_aware: bool,
    level: usize,
    nss: Seq<NamespaceView>,
)
    ensures
        spec_parse_start_element(data, r, attrs, namespace_aware, level, nss) matches Ok(rs) ==> (
        rs.attributes.len() == rs.attribute_namespaces.len() && rs.namespaces.len() >= nss.len()
            && rs.namespaces.take(nss.len() as int) =~= nss),
{
    lemma_declare_len(data, attrs, 0, level, nss, Seq::empty());
    lemma_declare_extends(data, attrs, 0, level, nss, Seq::empty());
    if namespace_aware {
        match spec_declare(data, attrs, 0, level, nss, Seq::empty()) {
            Ok((nss2, attrs2)) => {
                lemma_attribute_namespaces_len(data, attrs2, 0, nss2, span(data, r), Seq::empty());
            },
            Err(_) => {},
        }
    } else {
        assert(nss.take(nss.len() as int) =~= nss);
    }
}

/* ---------------------------------------------------------------------- */
/* the strings of an event                                                  */

/// The error for text that is not UTF-8.
pub open spec fn utf8_error() -> ErrorView {
    ErrorView::Parsing("The document is not valid UTF-8."@)
}

fn utf8_failure() -> (e: Error)
    ensures
        e@ == utf8_error(),
{
    Error::Parsing(String::from_str("The document is not valid UTF-8."))
}

/// The string the bytes `data[r]` encode.
pub(crate) fn string_at(data: &[u8], r: &Range<usize>) -> (s: Option<String>)
    requires
        span_within(*r, 0, data.len() as int),
    ensures
        match text(span(data@, *r)) {
            Some(t) => s matches Some(x) && x@ == t,
            None => s is None,
        },
{
    utf8_string(data, r.start, r.end)
}

/// The string the bytes encode.
fn string_of(v: &Vec<u8>) -> (s: Option<String>)
    ensures
        match text(v@) {
            Some(t) => s matches Some(x) && x@ == t,
            None => s is None,
        },
{
    assert(v@.subrange(0, v.len() as int) =~= v@);
    utf8_string(v.as_slice(), 0, v.len())
}

/// An attribute as an event shows it: its value, name, local part, prefix
/// and namespace.
pub open spec fn attribute_view(data: Seq<u8>, a: AttributeRange, ns: Seq<u8>) -> Option<AttributeView> {
    match (
        text(span(data, a.value)),
        text(span(data, a.name)),
        text(span(data, a.local_name)),
        text(span(data, a.prefix)),
        text(ns),
    ) {
        (Some(v), Some(n), Some(l), Some(p), Some(s)) => Some(
            AttributeView { value: v, name: n, local_name: l, prefix: p, namespace: s },
        ),
        _ => None,
    }
}

/// The attributes `attrs[i..]` as an event shows them, after `acc`.
pub open spec fn attribute_views(
    data: Seq<u8>,
    attrs: Seq<AttributeRange>,
    nsl: Seq<Seq<u8>>,
    i: int,
    acc: Seq<AttributeView>,
) -> Option<Seq<AttributeView>>
    decreases attrs.len() - i,
{
    if i >= attrs.len() || i < 0 {
        Some(acc)
    } else {
        match attribute_view(data, attrs[i], nsl[i]) {
            Some(v) => attribute_views(data, attrs, nsl, i + 1, acc.push(v)),
            None => None,
        }
    }
}

/// An attribute as an event shows it (see `attribute_view`).
fn convert_attribute_range(data: &[u8], a: &AttributeRange, namespace: &Vec<u8>) -> (r: Option<
    Attribute,
>)
    requires
        attribute_placed(*a, data.len() as int),
    ensures
        match attribute_view(data@, *a, namespace@) {
            Some(v) => r matches Some(x) && x@ == v,
            None => r is None,
        },
{
    let value = string_at(data, &a.value);
    let name = string_at(data, &a.name);
    let local_name = string_at(data, &a.local_name);
    let prefix = string_at(data, &a.prefix);
    let namespace = string_of(namespace);
    match (value, name, local_name, prefix, namespace) {
        (Some(value), Some(name), Some(local_name), Some(prefix), Some(namespace)) => Some(
            Attribute { value, name, local_name, prefix, namespace },
        ),
        _ => None,
    }
}

spec fn attr_views(v: Seq<Attribute>) -> Seq<AttributeView> {
    v.map_values(|a: Attribute| a@)
}

/// The attributes as an event shows them (see `attribute_views`).
fn build_attributes(data: &[u8], attrs: &Vec<AttributeRange>, nsl: &Vec<Vec<u8>>) -> (r: Option<
    Vec<Attribute>,
>)
    requires
        all_placed(attrs@, data.len() as int),
        nsl.len() == attrs.len(),
    ensures
        match attribute_views(data@, attrs@, byte_views(nsl@), 0, Seq::empty()) {
            Some(v) => r matches Some(w) && attr_views(w@) == v,
            None => r is None,
        },
{
    let mut acc: Vec<Attribute> = Vec::new();
    let mut i: usize = 0;
    assert(attr_views(acc@) =~= Seq::empty());
    while i < attrs.len()
        invariant
            i <= attrs.len(),
            nsl.len() == attrs.len(),
            all_placed(attrs@, data.len() as int),
            attribute_views(data@, attrs@, byte_views(nsl@), 0, Seq::empty()) == attribute_views(
                data@,
                attrs@,
                byte_views(nsl@),
                i as int,
                attr_views(acc@),
            ),
        decreases attrs.len() - i,
    {
        let a = &attrs[i];
        assert(attribute_placed(attrs@[i as int], data.len() as int));
        assert(byte_views(nsl@)[i as int] == nsl@[i as int]@);
        match convert_attribute_range(data, a, &nsl[i]) {
            Some(at) => {
                let ghost before = attr_views(acc@);
                let ghost av = at@;
                acc.push(at);
                assert(attr_views(acc@) =~= before.push(av));
            },
            None => {
                return None;
            },
        }
        i = i + 1;
    }
    Some(acc)
}

/// A start tag as an event shows it.
pub open spec fn start_element_view(data: Seq<u8>, r: Range<usize>, is_empty: bool, rs: ResolvedStart) -> Option<
    StartElementView,
> {
    match (
        text(span(data, r)),
        text(span(data, rs.local_name)),
        text(span(data, rs.prefix)),
        text(rs.namespace),
        attribute_views(data, rs.attributes, rs.attribute_namespaces, 0, Seq::empty()),
    ) {
        (Some(n), Some(l), Some(p), Some(s), Some(atts)) => Some(
            StartElementView {
                name: n,
                is_empty,
                local_name: l,
                prefix: p,
                namespace: s,
                attributes: atts,
            },
        ),
        _ => None,
    }
}

/// An end tag as an event shows it.
pub open spec fn end_element_view(
    data: Seq<u8>,
    r: Range<usize>,
    prefix: Range<usize>,
    local_name: Range<usize>,
    namespace: Seq<u8>,
) -> Option<EndElementView> {
    match (
        text(span(data, r)),
        text(span(data, local_name)),
        text(span(data, prefix)),
        text(namespace),
    ) {
        (Some(n), Some(l), Some(p), Some(s)) => Some(
            EndElementView { name: n, local_name: l, prefix: p, namespace: s },
        ),
        _ => None,
    }
}

/// The end tag event (see `end_element_view`).
fn build_end_element(
    data: &[u8],
    r: &Range<usize>,
    prefix: &Range<usize>,
    local_name: &Range<usize>,
    namespace: &Vec<u8>,
) -> (e: Option<EndElement>)
    requires
        span_within(*r, 0, data.len() as int),
        span_within(*prefix, 0, data.len() as int),
        span_within(*local_name, 0, data.len() as int),
    ensures
        match end_element_view(data@, *r, *prefix, *local_name, namespace@) {
            Some(v) => e matches Some(x) && x@ == v,
            None => e is None,
        },
{
    match (string_at(data, r), string_at(data, local_name), string_at(data, prefix), string_of(namespace)) {
        (Some(name), Some(local_name), Some(prefix), Some(namespace)) => Some(
            EndElement { name, local_name, prefix, namespace },
        ),
        _ => None,
    }
}

/* ---------------------------------------------------------------------- */
/* references                                                               */

/// The bytes of `&amp;`.
pub const ENTITY_AMP: [u8; 5] = [38u8, 97u8, 109u8, 112u8, 59u8];

/// The bytes of `&lt;`.
pub const ENTITY_LT: [u8; 4] = [38u8, 108u8, 116u8, 59u8];

/// The bytes of `&gt;`.
pub const ENTITY_GT: [u8; 4] = [38u8, 103u8, 116u8, 59u8];

/// The bytes of `&quot;`.
pub const ENTITY_QUOT: [u8; 6] = [38u8, 113u8, 117u8, 111u8, 116u8, 59u8];

/// The bytes of `&apos;`.
pub const ENTITY_APOS: [u8; 6] = [38u8, 97u8, 112u8, 111u8, 115u8, 59u8];

/// The value of a digit: `0`-`9`, then `a`-`f` and `A`-`F` from 10; 36 for
/// any other byte.
pub open spec fn digit_value(b: u8) -> u32 {
    if 48 <= b <= 57 {
        (b - 48) as u32
    } else if 97 <= b <= 102 {
        (b - 87) as u32
    } else if 65 <= b <= 70 {
        (b - 55) as u32
    } else {
        36
    }
}

fn digit(b: u8) -> (r: u32)
    ensures
        r == digit_value(b),
{
    if 48 <= b && b <= 57 {
        (b - 48) as u32
    } else if 97 <= b && b <= 102 {
        (b - 87) as u32
    } else if 65 <= b && b <= 70 {
        (b - 55) as u32
    } else {
        36
    }
}

/// The number the digits spell in base `radix`.
pub open spec fn digits_value(s: Seq<u8>, radix: nat) -> nat
    decreases s.len(),
{
    if s.len() == 0 {
        0
    } else {
        digits_value(s.drop_last(), radix) * radix + digit_value(s.last()) as nat
    }
}

/// Every byte is a digit of base `radix`.
pub open spec fn all_digits(s: Seq<u8>, radix: nat) -> bool {
    forall|i: int| 0 <= i < s.len() ==> (digit_value(#[trigger] s[i]) as nat) < radix
}

/// The number the digits spell in base `radix`, when there is at least one,
/// all are digits of that base, and the number fits in a `u32`.
pub open spec fn radix_value(s: Seq<u8>, radix: nat) -> Option<u32> {
    if s.len() > 0 && all_digits(s, radix) && digits_value(s, radix) <= u32::MAX {
        Some(digits_value(s, radix) as u32)
    } else {
        None
    }
}

proof fn lemma_digits_grow(s: Seq<u8>, radix: nat, i: int, j: int)
    requires
        0 <= i <= j <= s.len(),
        radix >= 1,
    ensures
        digits_value(s.take(i), radix) <= digits_value(s.take(j), radix),
    decreases j - i,
{
    if i < j {
        lemma_digits_grow(s, radix, i, j - 1);
        assert(s.take(j).drop_last() =~= s.take(j - 1));
        let x = digits_value(s.take(j - 1), radix);
        assert(x * radix >= x) by (nonlinear_arith)
            requires
                radix >= 1,
        ;
    }
}

/// The number the digits spell in base `radix` (see `radix_value`).
fn radix_number(s: &[u8], radix: u32) -> (r: Option<u32>)
    requires
        radix == 10 || radix == 16,
    ensures
        r == radix_value(s@, radix as nat),
{
    if s.len() == 0 {
        return None;
    }
    let mut v: u64 = 0;
    let mut i: usize = 0;
    while i < s.len()
        invariant
            i <= s.len(),
            radix == 10 || radix == 16,
            v == digits_value(s@.take(i as int), radix as nat),
            v <= u32::MAX,
            all_digits(s@.take(i as int), radix as nat),
        decreases s.len() - i,
    {
        let d = digit(s[i]);
        if d >= radix {
            assert(!all_digits(s@, radix as nat));
            return None;
        }
        assert(s@.take(i + 1).drop_last() =~= s@.take(i as int));
        assert(v * (radix as u64) <= 0xffff_ffffu64 * 16) by (nonlinear_arith)
            requires
                v <= 0xffff_ffffu64,
                radix <= 16,
        ;
        let nv = v * (radix as u64) + (d as u64);
        assert(nv == digits_value(s@.take(i + 1), radix as nat));
        if nv > 0xffff_ffffu64 {
            proof {
                if all_digits(s@, radix as nat) {
                    lemma_digits_grow(s@, radix as nat, i + 1, s.len() as int);
                    assert(s@.take(s.len() as int) =~= s@);
                }
            }
            return None;
        }
        v = nv;
        i = i + 1;
        assert(all_digits(s@.take(i as int), radix as nat)) by {
            assert forall|k: int| 0 <= k < i implies (digit_value(#[trigger] s@.take(i as int)[k])
                as nat) < radix by {
                if k < i - 1 {
                    assert(s@.take(i as int)[k] == s@.take(i - 1)[k]);
                }
            }
        }
    }
    assert(s@.take(s.len() as int) =~= s@);
    Some(v as u32)
}

/// The character of a code point, when it is a Unicode scalar value.
pub open spec fn char_of(v: Option<u32>) -> Option<Seq<char>> {
    match v {
        Some(c) => if is_scalar(c) {
            Some(seq![c as char])
        } else {
            None
        },
        None => None,
    }
}

/// What a reference stands for: the character of a character reference
/// (`&#x` and hexadecimal digits, or `&#` and decimal digits, then `;`), the
/// character of one of the five predefined entities, or nothing for other
/// entities.
pub open spec fn resolve_reference(raw: Seq<u8>) -> Option<Seq<char>> {
    if raw.len() >= 3 && raw.take(3) == AMP_HASH_X@ {
        char_of(
            radix_value(
                if raw.len() >= 4 {
                    raw.subrange(3, raw.len() - 1)
                } else {
                    Seq::empty()
                },
                16,
            ),
        )
    } else if raw.len() >= 2 && raw.take(2) == AMP_HASH@ {
        char_of(
            radix_value(
                if raw.len() >= 3 {
                    raw.subrange(2, raw.len() - 1)
                } else {
                    Seq::empty()
                },
                10,
            ),
        )
    } else if raw == ENTITY_AMP@ {
        Some("&"@)
    } else if raw == ENTITY_LT@ {
        Some("<"@)
    } else if raw == ENTITY_GT@ {
        Some(">"@)
    } else if raw == ENTITY_QUOT@ {
        Some("\""@)
    } else if raw == ENTITY_APOS@ {
        Some("'"@)
    } else {
        None
    }
}

/// The character of a code point.
fn char_string(v: Option<u32>) -> (r: Option<String>)
    ensures
        match char_of(v) {
            Some(t) => r matches Some(s) && s@ == t,
            None => r is None,
        },
{
    match v {
        Some(c) => scalar_string(c),
        None => None,
    }
}

/// What a reference stands for (see `resolve_reference`).
fn resolve(raw: &[u8]) -> (r: Option<String>)
    ensures
        match resolve_reference(raw@) {
            Some(t) => r matches Some(s) && s@ == t,
            None => r is None,
        },
{
    let n = raw.len();
    if n >= 3 && bytes_eq(slice_subrange(raw, 0, 3), &AMP_HASH_X) {
        let digits = if n >= 4 {
            slice_subrange(raw, 3, n - 1)
        } else {
            slice_subrange(raw, 0, 0)
        };
        proof {
            if n < 4 {
                assert(digits@ =~= Seq::<u8>::empty());
            }
        }
        char_string(radix_number(digits, 16))
    } else if n >= 2 && bytes_eq(slice_subrange(raw, 0, 2), &AMP_HASH) {
        let digits = if n >= 3 {
            slice_subrange(raw, 2, n - 1)
        } else {
            slice_subrange(raw, 0, 0)
        };
        proof {
            if n < 3 {
                assert(digits@ =~= Seq::<u8>::empty());
            }
        }
        char_string(radix_number(digits, 10))
    } else if bytes_eq(raw, &ENTITY_AMP) {
        Some(String::from_str("&"))
    } else if bytes_eq(raw, &ENTITY_LT) {
        Some(String::from_str("<"))
    } else if bytes_eq(raw, &ENTITY_GT) {
        Some(String::from_str(">"))
    } else if bytes_eq(raw, &ENTITY_QUOT) {
        Some(String::from_str("\""))
    } else if bytes_eq(raw, &ENTITY_APOS) {
        Some(String::from_str("'"))
    } else {
        None
    }
}

/* ---------------------------------------------------------------------- */
/* from a piece of the document to an event                                 */

/// What the parser knows between two events.
pub struct ParserView {
    pub state: ParserState,
    /// the input that is buffered and not yet consumed
    pub data: Seq<u8>,
    /// the depth of the open elements
    pub level: usize,
    /// the names of the open elements, the innermost last
    pub elements: Seq<Seq<u8>>,
    pub namespace_aware: bool,
    /// the namespace bindings in scope, the latest last
    pub namespaces: Seq<NamespaceView>,
}

/// The kinds of event that carry a piece of text.
#[derive(Clone, Copy)]
pub enum TextKind {
    Characters,
    Comment,
    Cdata,
    DocumentTypeDeclaration,
    ProcessingInstruction,
    XmlDeclaration,
    Whitespace,
}

pub open spec fn text_event_view(kind: TextKind, t: Seq<char>) -> EventView {
    match kind {
        TextKind::Characters => EventView::Characters(t),
        TextKind::Comment => EventView::Comment(t),
        TextKind::Cdata => EventView::Cdata(t),
        TextKind::DocumentTypeDeclaration => EventView::DocumentTypeDeclaration(t),
        TextKind::ProcessingInstruction => EventView::ProcessingInstruction(t),
        TextKind::XmlDeclaration => EventView::XmlDeclaration(t),
        TextKind::Whitespace => EventView::Whitespace(t),
    }
}

/// The event of kind `kind` with the text `data[r]`.
pub open spec fn spec_text_event(data: Seq<u8>, r: Range<usize>, kind: TextKind) -> Result<
    EventView,
    ErrorView,
> {
    match text(span(data, r)) {
        Some(t) => Ok(text_event_view(kind, t)),
        None => Err(utf8_error()),
    }
}

fn text_event(data: &[u8], r: &Range<usize>, kind: TextKind) -> (e: Result<Event, Error>)
    requires
        span_within(*r, 0, data.len() as int),
    ensures
        event_agrees(e, spec_text_event(data@, *r, kind)),
{
    match string_at(data, r) {
        Some(t) => Ok(
            match kind {
                TextKind::Characters => Event::Characters(t),
                TextKind::Comment => Event::Comment(t),
                TextKind::Cdata => Event::Cdata(t),
                TextKind::DocumentTypeDeclaration => Event::DocumentTypeDeclaration(t),
                TextKind::ProcessingInstruction => Event::ProcessingInstruction(t),
                TextKind::XmlDeclaration => Event::XmlDeclaration(t),
                TextKind::Whitespace => Event::Whitespace(t),
            },
        ),
        None => Err(utf8_failure()),
    }
}

/// An exec result and a spec result about events that say the same.
pub open spec fn event_agrees(r: Result<Event, Error>, s: Result<EventView, ErrorView>) -> bool {
    match (r, s) {
        (Ok(a), Ok(b)) => a@ == b,
        (Err(e), Err(f)) => e@ == f,
        _ => false,
    }
}

/// The error when the elements nest deeper than a `usize` counts.
pub open spec fn depth_error() -> ErrorView {
    ErrorView::Parsing("Elements are nested too deeply."@)
}

/// A start tag (`is_empty` for an empty-element tag) whose places refer to
/// `data`, seen by the parser `p`: bindings out of scope are dropped, the
/// attributes are read, the depth goes up by one and the names are
/// resolved; a start tag then opens an element, an empty-element tag closes
/// it at once and ends the document when it is the root. On an error only
/// the state, the input and the dropping of bindings take effect.
pub open spec fn spec_start_tag(
    data: Seq<u8>,
    e: crate::sax::internal::StartElement,
    is_empty: bool,
    p: ParserView,
) -> (Result<EventView, ErrorView>, ParserView) {
    let nss0 = if p.namespace_aware {
        cleanup_namespaces(p.namespaces, p.level)
    } else {
        p.namespaces
    };
    let failed = ParserView { namespaces: nss0, ..p };
    match spec_attribute_ranges(
        data.take(e.attributes_chunk.end as int),
        e.attributes_chunk.start,
        Seq::empty(),
    ) {
        None => (Err(ErrorView::Parsing("Error while parsing attributes."@)), failed),
        Some(attrs) => if p.level == usize::MAX {
            (Err(depth_error()), failed)
        } else {
            let level = (p.level + 1) as usize;
            match spec_parse_start_element(data, e.name, attrs, p.namespace_aware, level, nss0) {
                Err(er) => (Err(er), failed),
                Ok(rs) => match start_element_view(data, e.name, is_empty, rs) {
                    None => (Err(utf8_error()), failed),
                    Some(v) => if is_empty {
                        (
                            Ok(EventView::StartElement(v)),
                            ParserView {
                                namespaces: rs.namespaces,
                                state: if p.level == 0 {
                                    ParserState::DocEnd
                                } else {
                                    p.state
                                },
                                ..p
                            },
                        )
                    } else {
                        (
                            Ok(EventView::StartElement(v)),
                            ParserView {
                                namespaces: rs.namespaces,
                                level,
                                elements: p.elements.push(span(data, e.name)),
                                ..p
                            },
                        )
                    },
                },
            }
        },
    }
}

/// An end tag whose name refers to `data`, seen by the parser `p`: it must
/// close the innermost open element; bindings out of scope are dropped, the
/// depth goes down by one (back to 0 ends the document) and the name is
/// resolved. On an error only the state, the input and (once the element
/// matched) the dropping of bindings take effect.
pub open spec fn spec_end_tag(data: Seq<u8>, e: crate::sax::internal::EndElement, p: ParserView) -> (
    Result<EventView, ErrorView>,
    ParserView,
) {
    let name = span(data, e.name);
    if p.elements.len() == 0 {
        (Err(ErrorView::Parsing("No starting tag for: "@ + text_or_empty(name))), p)
    } else if p.elements.last() != name {
        (
            Err(
                ErrorView::Parsing(
                    "Expected closing tag: "@ + text_or_empty(p.elements.last()) + " ,found: "@
                        + text_or_empty(name),
                ),
            ),
            p,
        )
    } else {
        let nss0 = if p.namespace_aware {
            cleanup_namespaces(p.namespaces, p.level)
        } else {
            p.namespaces
        };
        let failed = ParserView { namespaces: nss0, ..p };
        let level = (p.level - 1) as usize;
        let closed = ParserView {
            namespaces: nss0,
            level,
            elements: p.elements.drop_last(),
            state: if level == 0 {
                ParserState::DocEnd
            } else {
                p.state
            },
            ..p
        };
        let resolved = if p.namespace_aware {
            spec_element_namespace(data, e.name, nss0)
        } else {
            Ok((nowhere(), nowhere(), Seq::empty()))
        };
        match resolved {
            Err(er) => (Err(er), failed),
            Ok((pre, loc, v)) => match end_element_view(data, e.name, pre, loc, v) {
                Some(ev) => (Ok(EventView::EndElement(ev)), closed),
                None => (Err(utf8_error()), failed),
            },
        }
    }
}

/// A reference whose place refers to `data`.
pub open spec fn spec_reference(data: Seq<u8>, r: Range<usize>) -> Result<EventView, ErrorView> {
    match text(span(data, r)) {
        Some(t) => Ok(
            EventView::Reference(
                ReferenceView { raw: t, resolved: resolve_reference(span(data, r)) },
            ),
        ),
        None => Err(utf8_error()),
    }
}

/// The event for a piece of the document whose places refer to `data`, and
/// the parser after it; `p` is the parser with the piece already consumed.
#[verifier::opaque]
pub open spec fn spec_convert(data: Seq<u8>, piece: InternalSuccess, p: ParserView) -> (
    Result<EventView, ErrorView>,
    ParserView,
) {
    match piece {
        InternalSuccess::StartDocument => (Ok(EventView::StartDocument), p),
        InternalSuccess::EndDocument => (Ok(EventView::EndDocument), p),
        InternalSuccess::ContentRelaxed(c) => match c {
            ContentRelaxed::CharData(r) => (spec_text_event(data, r, TextKind::Characters), p),
            ContentRelaxed::StartElement(e) => spec_start_tag(data, e, false, p),
            ContentRelaxed::EmptyElemTag(e) => spec_start_tag(data, e, true, p),
            ContentRelaxed::EndElement(e) => spec_end_tag(data, e, p),
            ContentRelaxed::Reference(r) => (spec_reference(data, r.initial), p),
            ContentRelaxed::PI(r) => (spec_text_event(data, r, TextKind::ProcessingInstruction), p),
            ContentRelaxed::CdataStart => (Ok(EventView::StartCdataSection), p),
            ContentRelaxed::CommentStart => (Ok(EventView::StartComment), p),
        },
        InternalSuccess::InsideCdata(c) => match c {
            InsideCdata::Characters(r) => (spec_text_event(data, r, TextKind::Cdata), p),
            InsideCdata::CdataEnd => (Ok(EventView::EndCdataSection), p),
        },
        InternalSuccess::InsideComment(c) => match c {
            InsideComment::Characters(r) => (spec_text_event(data, r, TextKind::Comment), p),
            InsideComment::CommentEnd => (Ok(EventView::EndComment), p),
        },
        InternalSuccess::Misc(m) => match m {
            Misc::PI(r) => (spec_text_event(data, r, TextKind::ProcessingInstruction), p),
            Misc::Whitespace(r) => (spec_text_event(data, r, TextKind::Whitespace), p),
            Misc::CommentStart => (Ok(EventView::StartComment), p),
        },
        InternalSuccess::MiscBeforeDoctype(m) => match m {
            MiscBeforeDoctype::PI(r) => (
                spec_text_event(data, r, TextKind::ProcessingInstruction),
                p,
            ),
            MiscBeforeDoctype::Whitespace(r) => (spec_text_event(data, r, TextKind::Whitespace), p),
            MiscBeforeDoctype::CommentStart => (Ok(EventView::StartComment), p),
            MiscBeforeDoctype::DocType(r) => (
                spec_text_event(data, r, TextKind::DocumentTypeDeclaration),
                p,
            ),
        },
        InternalSuccess::MiscBeforeXmlDecl(m) => match m {
            MiscBeforeXmlDecl::XmlDecl(r) => (spec_text_event(data, r, TextKind::XmlDeclaration), p),
            MiscBeforeXmlDecl::PI(r) => (
                spec_text_event(data, r, TextKind::ProcessingInstruction),
                p,
            ),
            MiscBeforeXmlDecl::Whitespace(r) => (spec_text_event(data, r, TextKind::Whitespace), p),
            MiscBeforeXmlDecl::CommentStart => (Ok(EventView::StartComment), p),
            MiscBeforeXmlDecl::DocType(r) => (
                spec_text_event(data, r, TextKind::DocumentTypeDeclaration),
                p,
            ),
        },
    }
}

/// The places a piece of the document mentions lie in `0..=len`.
pub open spec fn piece_within(piece: InternalSuccess, len: int) -> bool {
    match piece {
        InternalSuccess::ContentRelaxed(c) => content_within(c, 0, len),
        InternalSuccess::InsideCdata(c) => cdata_within(c, 0, len),
        InternalSuccess::InsideComment(c) => comment_within(c, 0, len),
        InternalSuccess::Misc(m) => misc_within(m, 0, len),
        InternalSuccess::MiscBeforeDoctype(m) => misc_doctype_within(m, 0, len),
        InternalSuccess::MiscBeforeXmlDecl(m) => misc_xmldecl_within(m, 0, len),
        _ => true,
    }
}

/* ---------------------------------------------------------------------- */
/* the parser                                                               */

/// The next event of the document as the parser `p` sees it, and the parser
/// after it. When the buffered data does not hold the next piece in full,
/// or the next piece is wrong where it stands, the parser stays as it is.
pub open spec fn spec_read_event(p: ParserView) -> (Result<EventView, ErrorView>, ParserView) {
    match spec_read_event_splitted(p.state, p.data) {
        Err(e) => (Err(e), p),
        Ok((piece, st, n)) => spec_convert(
            p.data,
            piece,
            ParserView { state: st, data: p.data.skip(n as int), ..p },
        ),
    }
}

/// A streaming pull parser: it is handed the document in pieces with
/// `read_data` and hands out one event per call of `read_event`.
pub struct Parser {
    state: ParserState,
    buffer: Vec<u8>,
    offset: usize,
    element_level: usize,
    element_list: Vec<Vec<u8>>,
    is_namespace_aware: bool,
    namespace_list: Vec<Namespace>,
}

impl View for Parser {
    type V = ParserView;

    closed spec fn view(&self) -> ParserView {
        ParserView {
            state: self.state,
            data: self.buffer@.skip(self.offset as int),
            level: self.element_level,
            elements: byte_views(self.element_list@),
            namespace_aware: self.is_namespace_aware,
            namespaces: ns_views(self.namespace_list@),
        }
    }
}

impl Parser {
    /// The parser's parts fit together; every parser the library hands out
    /// has it.
    pub closed spec fn wf(&self) -> bool {
        &&& self.offset <= self.buffer.len()
        &&& self.element_level >= self.element_list.len()
    }

    /// A parser at the start of a document, with no data yet, that
    /// processes namespaces.
    pub fn new() -> (p: Parser)
        ensures
            p.wf(),
            p@ == (ParserView {
                state: ParserState::Initial,
                data: Seq::empty(),
                level: 0,
                elements: Seq::empty(),
                namespace_aware: true,
                namespaces: Seq::empty(),
            }),
    {
        let p = Parser {
            state: ParserState::Initial,
            buffer: Vec::new(),
            offset: 0,
            element_level: 0,
            element_list: Vec::new(),
            is_namespace_aware: true,
            namespace_list: Vec::new(),
        };
        proof {
            assert(p@.data =~= Seq::<u8>::empty());
            assert(p@.elements =~= Seq::<Seq<u8>>::empty());
            assert(p@.namespaces =~= Seq::<NamespaceView>::empty());
        }
        p
    }

    /// The number of bytes buffered and not yet consumed.
    pub fn buffered_len(&self) -> (n: usize)
        requires
            self.wf(),
        ensures
            n == self@.data.len(),
    {
        self.buffer.len() - self.offset
    }

    /// Hand the parser the next bytes of the document; they go after the
    /// data it holds. Returns their number.
    pub fn read_data(&mut self, bytes: &[u8]) -> (n: usize)
        requires
            old(self).wf(),
        ensures
            final(self).wf(),
            n == bytes.len(),
            final(self)@ == (ParserView { data: old(self)@.data + bytes@, ..old(self)@ }),
    {
        let ghost old_data = self@.data;
        let mut buffer = Vec::new();
        std::mem::swap(&mut buffer, &mut self.buffer);
        if self.offset > 0 {
            buffer = copy_bytes(buffer.as_slice(), self.offset, buffer.len());
        }
        assert(buffer@ =~= old_data);
        let mut i: usize = 0;
        while i < bytes.len()
            invariant
                i <= bytes.len(),
                buffer@ == old_data + bytes@.take(i as int),
            decreases bytes.len() - i,
        {
            buffer.push(bytes[i]);
            i = i + 1;
            assert(buffer@ =~= old_data + bytes@.take(i as int));
        }
        self.buffer = buffer;
        self.offset = 0;
        proof {
            assert(bytes@.take(bytes.len() as int) =~= bytes@);
            assert(self.buffer@.skip(0) =~= self.buffer@);
        }
        bytes.len()
    }

    /// A start tag whose places refer to `buffer[start..]` (see
    /// `spec_start_tag`).
    fn start_tag(&mut self, start: usize, e: crate::sax::internal::StartElement, is_empty: bool) -> (r:
        Result<Event, Error>)
        requires
            old(self).wf(),
            start <= old(self).buffer.len(),
            e.name.start <= e.name.end <= e.attributes_chunk.start <= e.attributes_chunk.end
                <= old(self).buffer.len() - start,
        ensures
            final(self).wf(),
            final(self).buffer == old(self).buffer,
            final(self).offset == old(self).offset,
            event_agrees(
                r,
                spec_start_tag(
                    old(self).buffer@.subrange(start as int, old(self).buffer.len() as int),
                    e,
                    is_empty,
                    old(self)@,
                ).0,
            ),
            final(self)@ == spec_start_tag(
                old(self).buffer@.subrange(start as int, old(self).buffer.len() as int),
                e,
                is_empty,
                old(self)@,
            ).1,
    {
        let data = slice_subrange(self.buffer.as_slice(), start, self.buffer.len());
        if self.is_namespace_aware {
            cleanup(&mut self.namespace_list, self.element_level);
        }
        let scope = slice_subrange(data, 0, e.attributes_chunk.end);
        assert(scope@ =~= data@.take(e.attributes_chunk.end as int));
        let attrs = match attribute_ranges(scope, e.attributes_chunk.start) {
            Some(a) => a,
            None => {
                return Err(Error::Parsing(String::from_str("Error while parsing attributes.")));
            },
        };
        assert(all_placed(attrs@, data.len() as int)) by {
            assert forall|i: int| 0 <= i < attrs@.len() implies #[trigger] attribute_placed(
                attrs@[i],
                data.len() as int,
            ) by {
                assert(attribute_placed(attrs@[i], scope.len() as int));
            }
        }
        if self.element_level == usize::MAX {
            return Err(Error::Parsing(String::from_str("Elements are nested too deeply.")));
        }
        let level = self.element_level + 1;
        let base = self.namespace_list.len();
        let ghost nss0 = ns_views(self.namespace_list@);
        let ghost attrs_spec = attrs@;
        let resolved = parse_start_element(
            data,
            &e.name,
            attrs,
            self.is_namespace_aware,
            level,
            &mut self.namespace_list,
        );
        match resolved {
            Err(er) => Err(er),
            Ok((attrs2, ans, pre, loc, nsv)) => {
                proof {
                    lemma_parse_start_element(
                        data@,
                        e.name,
                        attrs_spec,
                        self.is_namespace_aware,
                        level,
                        nss0,
                    );
                }
                let name = string_at(data, &e.name);
                let local_name = string_at(data, &loc);
                let prefix = string_at(data, &pre);
                let namespace = string_of(&nsv);
                let attributes = build_attributes(data, &attrs2, &ans);
                match (name, local_name, prefix, namespace, attributes) {
                    (
                        Some(name),
                        Some(local_name),
                        Some(prefix),
                        Some(namespace),
                        Some(attributes),
                    ) => {
                        if is_empty {
                            if self.element_level == 0 {
                                self.state = ParserState::DocEnd;
                            }
                        } else {
                            let ghost before = byte_views(self.element_list@);
                            let own = copy_bytes(data, e.name.start, e.name.end);
                            self.element_level = level;
                            self.element_list.push(own);
                            assert(byte_views(self.element_list@) =~= before.push(
                                span(data@, e.name),
                            ));
                        }
                        Ok(
                            Event::StartElement(
                                StartElement::new(
                                    name,
                                    is_empty,
                                    local_name,
                                    prefix,
                                    namespace,
                                    attributes,
                                ),
                            ),
                        )
                    },
                    _ => {
                        self.namespace_list.truncate(base);
                        assert(ns_views(self.namespace_list@) =~= nss0);
                        Err(utf8_failure())
                    },
                }
            },
        }
    }

    /// An end tag whose name refers to `buffer[start..]` (see
    /// `spec_end_tag`).
    fn end_tag(&mut self, start: usize, e: crate::sax::internal::EndElement) -> (r: Result<
        Event,
        Error,
    >)
        requires
            old(self).wf(),
            start <= old(self).buffer.len(),
            span_within(e.name, 0, old(self).buffer.len() - start),
        ensures
            final(self).wf(),
            final(self).buffer == old(self).buffer,
            final(self).offset == old(self).offset,
            event_agrees(
                r,
                spec_end_tag(
                    old(self).buffer@.subrange(start as int, old(self).buffer.len() as int),
                    e,
                    old(self)@,
                ).0,
            ),
            final(self)@ == spec_end_tag(
                old(self).buffer@.subrange(start as int, old(self).buffer.len() as int),
                e,
                old(self)@,
            ).1,
    {
        let data = slice_subrange(self.buffer.as_slice(), start, self.buffer.len());
        let name = slice_subrange(data, e.name.start, e.name.end);
        let n = self.element_list.len();
        if n == 0 {
            let shown = utf8_string_or_empty(name);
            return Err(Error::Parsing(join2("No starting tag for: ", &shown)));
        }
        assert(byte_views(self.element_list@).last() == self.element_list@[n - 1]@);
        if !bytes_eq(self.element_list[n - 1].as_slice(), name) {
            let expected = utf8_string_or_empty(self.element_list[n - 1].as_slice());
            let found = utf8_string_or_empty(name);
            return Err(
                Error::Parsing(join4("Expected closing tag: ", &expected, " ,found: ", &found)),
            );
        }
        if self.is_namespace_aware {
            cleanup(&mut self.namespace_list, self.element_level);
        }
        let resolved = if self.is_namespace_aware {
            element_namespace(data, &e.name, &self.namespace_list)
        } else {
            Ok((Range { start: 0, end: 0 }, Range { start: 0, end: 0 }, Vec::new()))
        };
        match resolved {
            Err(er) => Err(er),
            Ok((pre, loc, v)) => match build_end_element(data, &e.name, &pre, &loc, &v) {
                Some(ev) => {
                    let ghost before = byte_views(self.element_list@);
                    self.element_list.pop();
                    assert(byte_views(self.element_list@) =~= before.drop_last());
                    self.element_level = self.element_level - 1;
                    if self.element_level == 0 {
                        self.state = ParserState::DocEnd;
                    }
                    Ok(Event::EndElement(ev))
                },
                None => Err(utf8_failure()),
            },
        }
    }

    /// The event for a piece whose places refer to `buffer[start..]` (see
    /// `spec_convert`).
    fn event_converter(&mut self, start: usize, piece: InternalSuccess) -> (r: Result<Event, Error>)
        requires
            old(self).wf(),
            start <= old(self).buffer.len(),
            piece_within(piece, old(self).buffer.len() - start),
        ensures
            final(self).wf(),
            final(self).buffer == old(self).buffer,
            final(self).offset == old(self).offset,
            event_agrees(
                r,
                spec_convert(
                    old(self).buffer@.subrange(start as int, old(self).buffer.len() as int),
                    piece,
                    old(self)@,
                ).0,
            ),
            final(self)@ == spec_convert(
                old(self).buffer@.subrange(start as int, old(self).buffer.len() as int),
                piece,
                old(self)@,
            ).1,
    {
        reveal(spec_convert);
        match piece {
            InternalSuccess::StartDocument => Ok(Event::StartDocument),
            InternalSuccess::EndDocument => Ok(Event::EndDocument),
            InternalSuccess::ContentRelaxed(c) => match c {
                ContentRelaxed::StartElement(e) => self.start_tag(start, e, false),
                ContentRelaxed::EmptyElemTag(e) => self.start_tag(start, e, true),
                ContentRelaxed::EndElement(e) => self.end_tag(start, e),
                ContentRelaxed::CharData(r) => {
                    let data = slice_subrange(self.buffer.as_slice(), start, self.buffer.len());
                    text_event(data, &r, TextKind::Characters)
                },
                ContentRelaxed::Reference(r) => {
                    let data = slice_subrange(self.buffer.as_slice(), start, self.buffer.len());
                    match string_at(data, &r.initial) {
                        Some(raw) => {
                            let resolved = resolve(
                                slice_subrange(data, r.initial.start, r.initial.end),
                            );
                            Ok(Event::Reference(Reference { raw, resolved }))
                        },
                        None => Err(utf8_failure()),
                    }
                },
                ContentRelaxed::PI(r) => {
                    let data = slice_subrange(self.buffer.as_slice(), start, self.buffer.len());
                    text_event(data, &r, TextKind::ProcessingInstruction)
                },
                ContentRelaxed::CdataStart => Ok(Event::StartCdataSection),
                ContentRelaxed::CommentStart => Ok(Event::StartComment),
            },
            InternalSuccess::InsideCdata(c) => match c {
                InsideCdata::Characters(r) => {
                    let data = slice_subrange(self.buffer.as_slice(), start, self.buffer.len());
                    text_event(data, &r, TextKind::Cdata)
                },
                InsideCdata::CdataEnd => Ok(Event::EndCdataSection),
            },
            InternalSuccess::InsideComment(c) => match c {
                InsideComment::Characters(r) => {
                    let data = slice_subrange(self.buffer.as_slice(), start, self.buffer.len());
                    text_event(data, &r, TextKind::Comment)
                },
                InsideComment::CommentEnd => Ok(Event::EndComment),
            },
            InternalSuccess::Misc(m) => {
                let data = slice_subrange(self.buffer.as_slice(), start, self.buffer.len());
                match m {
                    Misc::PI(r) => text_event(data, &r, TextKind::ProcessingInstruction),
                    Misc::Whitespace(r) => text_event(data, &r, TextKind::Whitespace),
                    Misc::CommentStart => Ok(Event::StartComment),
                }
            },
            InternalSuccess::MiscBeforeDoctype(m) => {
                let data = slice_subrange(self.buffer.as_slice(), start, self.buffer.len());
                match m {
                    MiscBeforeDoctype::PI(r) => text_event(data, &r, TextKind::ProcessingInstruction),
                    MiscBeforeDoctype::Whitespace(r) => text_event(data, &r, TextKind::Whitespace),
                    MiscBeforeDoctype::CommentStart => Ok(Event::StartComment),
                    MiscBeforeDoctype::DocType(r) => text_event(
                        data,
                        &r,
                        TextKind::DocumentTypeDeclaration,
                    ),
                }
            },
            InternalSuccess::MiscBeforeXmlDecl(m) => {
                let data = slice_subrange(self.buffer.as_slice(), start, self.buffer.len());
                match m {
                    MiscBeforeXmlDecl::XmlDecl(r) => text_event(data, &r, TextKind::XmlDeclaration),
                    MiscBeforeXmlDecl::PI(r) => text_event(data, &r, TextKind::ProcessingInstruction),
                    MiscBeforeXmlDecl::Whitespace(r) => text_event(data, &r, TextKind::Whitespace),
                    MiscBeforeXmlDecl::CommentStart => Ok(Event::StartComment),
                    MiscBeforeXmlDecl::DocType(r) => text_event(
                        data,
                        &r,
                        TextKind::DocumentTypeDeclaration,
                    ),
                }
            },
        }
    }

    /// The next event of the document (see `spec_read_event`).
    /// `UnexpectedEof` says that the buffered data ends inside the next
    /// piece: hand the parser more data and ask again.
    pub fn read_event(&mut self) -> (r: SaxResult<Event>)
        requires
            old(self).wf(),
        ensures
            final(self).wf(),
            event_agrees(r, spec_read_event(old(self)@).0),
            final(self)@ == spec_read_event(old(self)@).1,
            final(self)@.data.len() <= old(self)@.data.len(),
            final(self)@.data == old(self)@.data.skip(
                old(self)@.data.len() - final(self)@.data.len(),
            ),
    {
        let start = self.offset;
        let data = slice_subrange(self.buffer.as_slice(), start, self.buffer.len());
        proof {
            assert(data@ =~= self@.data);
        }
        match read_event_splitted(self.state, data) {
            Err(e) => {
                assert(self@.data.skip(0) =~= self@.data);
                Err(e)
            },
            Ok((piece, st, n)) => {
                self.state = st;
                self.offset = start + n;
                proof {
                    assert(self@.data =~= old(self)@.data.skip(n as int));
                    assert(self@ == (ParserView { state: st, data: old(self)@.data.skip(n as int), ..old(self)@ }));
                    assert(self.buffer@.subrange(start as int, self.buffer.len() as int) =~= old(self)@.data);
                }
                self.event_converter(start, piece)
            },
        }
    }
}

/* ---------------------------------------------------------------------- */
/* laws                                                                     */

proof fn lemma_declare_errors_are_parsing(
    data: Seq<u8>,
    attrs: Seq<AttributeRange>,
    i: int,
    level: usize,
    nss: Seq<NamespaceView>,
    done: Seq<AttributeRange>,
)
    ensures
        spec_declare(data, attrs, i, level, nss, done) matches Err(e) ==> e is Parsing,
    decreases attrs.len() - i,
{
    if 0 <= i < attrs.len() {
        match declare_step(data, attrs[i], level, nss) {
            Err(_) => {},
            Ok((nss2, a2)) => lemma_declare_errors_are_parsing(
                data,
                attrs,
                i + 1,
                level,
                nss2,
                done.push(a2),
            ),
        }
    }
}

proof fn lemma_attribute_namespace_errors_are_parsing(
    data: Seq<u8>,
    attrs: Seq<AttributeRange>,
    i: int,
    nss: Seq<NamespaceView>,
    element: Seq<u8>,
    acc: Seq<Seq<u8>>,
)
    ensures
        spec_attribute_namespaces(data, attrs, i, nss, element, acc) matches Err(e) ==> e is Parsing,
    decreases attrs.len() - i,
{
    if 0 <= i < attrs.len() {
        let p = span(data, attrs[i].prefix);
        if p.len() == 0 || p == XMLNS@ {
            lemma_attribute_namespace_errors_are_parsing(
                data,
                attrs,
                i + 1,
                nss,
                element,
                acc.push(Seq::empty()),
            );
        } else {
            match find_namespace(nss, p, nss.len() as int) {
                Some(v) => lemma_attribute_namespace_errors_are_parsing(
                    data,
                    attrs,
                    i + 1,
                    nss,
                    element,
                    acc.push(v),
                ),
                None => {},
            }
        }
    }
}

proof fn lemma_convert_errors_are_parsing(data: Seq<u8>, piece: InternalSuccess, p: ParserView)
    ensures
        spec_convert(data, piece, p).0 matches Err(e) ==> e is Parsing,
{
    reveal(spec_convert);
    match piece {
        InternalSuccess::ContentRelaxed(ContentRelaxed::StartElement(e)) => {
            lemma_start_tag_errors_are_parsing(data, e, false, p);
        },
        InternalSuccess::ContentRelaxed(ContentRelaxed::EmptyElemTag(e)) => {
            lemma_start_tag_errors_are_parsing(data, e, true, p);
        },
        _ => {},
    }
}

proof fn lemma_start_tag_errors_are_parsing(
    data: Seq<u8>,
    e: crate::sax::internal::StartElement,
    is_empty: bool,
    p: ParserView,
)
    ensures
        spec_start_tag(data, e, is_empty, p).0 matches Err(er) ==> er is Parsing,
{
    let nss0 = if p.namespace_aware {
        cleanup_namespaces(p.namespaces, p.level)
    } else {
        p.namespaces
    };
    match spec_attribute_ranges(
        data.take(e.attributes_chunk.end as int),
        e.attributes_chunk.start,
        Seq::empty(),
    ) {
        None => {},
        Some(attrs) => {
            if p.level < usize::MAX {
                let level = (p.level + 1) as usize;
                lemma_declare_errors_are_parsing(data, attrs, 0, level, nss0, Seq::empty());
                match spec_declare(data, attrs, 0, level, nss0, Seq::empty()) {
                    Ok((nss2, attrs2)) => lemma_attribute_namespace_errors_are_parsing(
                        data,
                        attrs2,
                        0,
                        nss2,
                        span(data, e.name),
                        Seq::empty(),
                    ),
                    Err(_) => {},
                }
            }
        },
    }
}

/// A call that runs out of data changes nothing: when `read_event` answers
/// `UnexpectedEof`, the parser is as it was, so that it can be handed more
/// data and asked again.
pub proof fn law_unexpected_eof_keeps_parser(p: ParserView)
    ensures
        spec_read_event(p).0 == Err::<EventView, ErrorView>(ErrorView::UnexpectedEof)
            ==> spec_read_event(p).1 == p,
{
    match spec_read_event_splitted(p.state, p.data) {
        Err(_) => {},
        Ok((piece, st, n)) => {
            lemma_convert_errors_are_parsing(
                p.data,
                piece,
                ParserView { state: st, data: p.data.skip(n as int), ..p },
            );
        },
    }
}

/// How an event changes the open elements `before` into `after`.
pub open spec fn elements_after(
    r: Result<EventView, ErrorView>,
    before: Seq<Seq<u8>>,
    after: Seq<Seq<u8>>,
) -> bool {
    match r {
        Ok(EventView::StartElement(s)) => if s.is_empty {
            after == before
        } else {
            after.len() == before.len() + 1 && after.drop_last() == before && text(after.last())
                == Some(s.name)
        },
        Ok(EventView::EndElement(_)) => before.len() > 0 && after == before.drop_last(),
        _ => after == before,
    }
}

/// Only `StartElement` and `EndElement` events change the open elements:
/// a start tag pushes its name, an empty-element tag leaves them as they
/// are, an end tag pops the innermost one; every other event and every
/// error leaves them as they are.
pub proof fn law_open_elements(p: ParserView)
    ensures
        elements_after(spec_read_event(p).0, p.elements, spec_read_event(p).1.elements),
{
    match spec_read_event_splitted(p.state, p.data) {
        Err(_) => {},
        Ok((piece, st, n)) => {
            lemma_convert_elements(p.data, piece, ParserView { state: st, data: p.data.skip(n as int), ..p });
        },
    }
}

proof fn lemma_start_tag_elements(
    data: Seq<u8>,
    e: crate::sax::internal::StartElement,
    is_empty: bool,
    p: ParserView,
)
    ensures
        elements_after(
            spec_start_tag(data, e, is_empty, p).0,
            p.elements,
            spec_start_tag(data, e, is_empty, p).1.elements,
        ),
{
    let (r, q) = spec_start_tag(data, e, is_empty, p);
    if r is Ok && !is_empty {
        assert(q.elements.drop_last() =~= p.elements);
    }
}

proof fn lemma_convert_elements(data: Seq<u8>, piece: InternalSuccess, p: ParserView)
    ensures
        elements_after(spec_convert(data, piece, p).0, p.elements, spec_convert(data, piece, p).1.elements),
{
    reveal(spec_convert);
    match piece {
        InternalSuccess::ContentRelaxed(ContentRelaxed::StartElement(e)) => {
            lemma_start_tag_elements(data, e, false, p);
        },
        InternalSuccess::ContentRelaxed(ContentRelaxed::EmptyElemTag(e)) => {
            lemma_start_tag_elements(data, e, true, p);
        },
        _ => {},
    }
}

/// An end tag closes the innermost open element: the `EndElement` event
/// carries that element's name.
pub proof fn law_end_tag_matches_start_tag(p: ParserView)
    ensures
        spec_read_event(p).0 matches Ok(EventView::EndElement(e)) ==> p.elements.len() > 0 && text(
            p.elements.last(),
        ) == Some(e.name),
{
    reveal(spec_convert);
}

/// The depth follows the open elements: when it equals their number before
/// a call, it equals it after.
pub proof fn law_depth_counts_open_elements(p: ParserView)
    requires
        p.level == p.elements.len(),
    ensures
        spec_read_event(p).1.level == spec_read_event(p).1.elements.len(),
{
    reveal(spec_convert);
}

/// The end of the document comes only after the root element, when no data
/// is left, and it changes nothing: every later call answers it again.
pub proof fn law_end_document(p: ParserView)
    ensures
        spec_read_event(p).0 matches Ok(EventView::EndDocument) ==> p.state == ParserState::DocEnd
            && p.data.len() == 0 && spec_read_event(p).1 == p,
{
    reveal(spec_convert);
    reveal(spec_read_event_splitted);
    if p.state == ParserState::DocEnd && p.data.len() == 0 {
        assert(p.data.skip(0) =~= p.data);
    }
}


/// What turning a piece into an event does to the depth, the open elements
/// and the state, when it succeeds and depth and open elements are in step
/// before: a start tag goes one deeper and keeps the state; an empty-element
/// tag keeps the depth and the open elements, and ends the document when it
/// is the root; an end tag goes one up, and ends the document when it closes
/// the root; any other piece changes none of them. Depth and open elements
/// stay in step.
pub proof fn law_convert_depth_and_state(data: Seq<u8>, piece: InternalSuccess, p: ParserView)
    requires
        p.level == p.elements.len(),
    ensures
        spec_convert(data, piece, p).0 is Ok ==> {
            let q = spec_convert(data, piece, p).1;
            &&& q.level == q.elements.len()
            &&& match piece {
                InternalSuccess::ContentRelaxed(ContentRelaxed::StartElement(_)) => q.level == p.level + 1
                    && q.elements.drop_last() == p.elements && q.state == p.state,
                InternalSuccess::ContentRelaxed(ContentRelaxed::EmptyElemTag(_)) => q.level == p.level
                    && q.elements == p.elements && q.state == (if p.level == 0 {
                    ParserState::DocEnd
                } else {
                    p.state
                }),
                InternalSuccess::ContentRelaxed(ContentRelaxed::EndElement(_)) => q.level == p.level - 1
                    && q.elements == p.elements.drop_last() && q.state == (if q.level == 0 {
                    ParserState::DocEnd
                } else {
                    p.state
                }),
                _ => q.level == p.level && q.elements == p.elements && q.state == p.state,
            }
        },
{
    reveal(spec_convert);
    match piece {
        InternalSuccess::ContentRelaxed(ContentRelaxed::StartElement(e)) => {
            let (r, q) = spec_convert(data, piece, p);
            if r is Ok {
                assert(q.elements.drop_last() =~= p.elements);
            }
        },
        _ => {},
    }
}


/// Where a comment read in the state `st` ends: back in the state it was
/// opened from.
pub open spec fn comment_exit(st: ParserState) -> ParserState {
    match st {
        ParserState::DocStartBeforeDocTypeInsideComment => ParserState::DocStartBeforeDocType,
        ParserState::DocStartInsideComment => ParserState::DocStart,
        ParserState::DocEndInsideComment => ParserState::DocEnd,
        _ => ParserState::Content,
    }
}

/// The state after the piece `piece` read in the state `st`: the start of
/// the document leads to the XML declaration; a comment start enters the
/// comment of the part of the document it is in, and a comment end goes
/// back; a CDATA start and end enter and leave the CDATA section; the
/// document type declaration leads to the rest of the prolog, any other
/// prolog piece before it to the part before it; content stays content;
/// the end of the document stays there.
pub open spec fn next_state(st: ParserState, piece: InternalSuccess) -> ParserState {
    match piece {
        InternalSuccess::StartDocument => ParserState::DocStartBeforeXmlDecl,
        InternalSuccess::EndDocument => ParserState::DocEnd,
        InternalSuccess::MiscBeforeXmlDecl(v) => state_after_misc_before_xmldecl(v),
        InternalSuccess::MiscBeforeDoctype(v) => state_after_misc_before_doctype(v),
        InternalSuccess::Misc(v) => if st == ParserState::DocEnd {
            state_after_misc(v, ParserState::DocEnd, ParserState::DocEndInsideComment)
        } else {
            state_after_misc(v, ParserState::DocStart, ParserState::DocStartInsideComment)
        },
        InternalSuccess::InsideComment(v) => state_after_comment(v, st, comment_exit(st)),
        InternalSuccess::ContentRelaxed(v) => state_after_content(v),
        InternalSuccess::InsideCdata(v) => state_after_cdata(v),
    }
}

/// Each step of the reader moves from its state to the one `next_state`
/// gives for the piece it read: the state after a step depends on the state
/// and the piece alone.
pub proof fn law_step_state(st: ParserState, data: Seq<u8>)
    ensures
        spec_read_event_splitted(st, data) matches Ok((piece, st2, n)) ==> st2 == next_state(st, piece),
{
    reveal(spec_read_event_splitted);
}

/// What a call of `read_event` does to the depth and the state, when depth
/// and open elements are in step before: a start tag goes one deeper and
/// leaves the parser in content; an empty-element tag keeps the depth, and
/// ends the document when it is the root; an end tag goes one up, and ends
/// the document when it closes the root; any other event, and any error,
/// keeps the depth and the open elements. Depth and open elements stay in
/// step.
pub proof fn law_read_event_depth_and_state(p: ParserView)
    requires
        p.level == p.elements.len(),
    ensures
        spec_read_event(p).1.level == spec_read_event(p).1.elements.len(),
        spec_read_event(p).0 matches Ok(EventView::StartElement(s)) ==> if s.is_empty {
            spec_read_event(p).1.level == p.level && spec_read_event(p).1.state == (if p.level == 0 {
                ParserState::DocEnd
            } else {
                ParserState::Content
            })
        } else {
            spec_read_event(p).1.level == p.level + 1 && spec_read_event(p).1.state == ParserState::Content
        },
        spec_read_event(p).0 matches Ok(EventView::EndElement(_)) ==> spec_read_event(p).1.level == p.level
            - 1 && spec_read_event(p).1.state == (if spec_read_event(p).1.level == 0 {
            ParserState::DocEnd
        } else {
            ParserState::Content
        }),
        !(spec_read_event(p).0 matches Ok(EventView::StartElement(_))) && !(spec_read_event(
            p,
        ).0 matches Ok(EventView::EndElement(_))) ==> spec_read_event(p).1.level == p.level
            && spec_read_event(p).1.elements == p.elements,
{
    law_depth_counts_open_elements(p);
    law_open_elements(p);
    law_step_state(p.state, p.data);
    match spec_read_event_splitted(p.state, p.data) {
        Err(_) => {},
        Ok((piece, st, n)) => {
            let p2 = ParserView { state: st, data: p.data.skip(n as int), ..p };
            law_convert_depth_and_state(p.data, piece, p2);
            reveal(spec_convert);
        },
    }
}


/* ---------------------------------------------------------------------- */
/* laws of references and of namespace lookup                               */

/// The value of a hexadecimal digit: `0`-`9` count 0 to 9, `a`-`f` and
/// `A`-`F` count 10 to 15.
pub open spec fn hex_digit_value(b: u8) -> int {
    if 48 <= b <= 57 {
        b - 48
    } else if 97 <= b <= 102 {
        b - 97 + 10
    } else {
        b - 65 + 10
    }
}

/// The byte is a hexadecimal digit, in either case.
pub open spec fn is_hex_digit(b: u8) -> bool {
    (48 <= b <= 57) || (97 <= b <= 102) || (65 <= b <= 70)
}

/// A character reference `&#xHH;` with two hexadecimal digits, in lower or
/// upper case, stands for the character with the code `16 * H + H`.
pub proof fn law_hex_reference(h1: u8, h2: u8)
    requires
        is_hex_digit(h1),
        is_hex_digit(h2),
    ensures
        resolve_reference(seq![38u8, 35u8, 120u8, h1, h2, 59u8]) == Some(
            seq![(16 * hex_digit_value(h1) + hex_digit_value(h2)) as char],
        ),
{
    reveal_with_fuel(digits_value, 3);
    let raw = seq![38u8, 35u8, 120u8, h1, h2, 59u8];
    assert(AMP_HASH_X@ =~= seq![38u8, 35u8, 120u8]);
    assert(raw.take(3) =~= AMP_HASH_X@);
    let ds = raw.subrange(3, raw.len() - 1);
    assert(ds =~= seq![h1, h2]);
    assert(ds.drop_last() =~= seq![h1]);
    assert(ds.drop_last().drop_last() =~= Seq::<u8>::empty());
    assert(all_digits(ds, 16));
    let v = 16 * hex_digit_value(h1) + hex_digit_value(h2);
    assert(digits_value(ds, 16) == v);
    assert(is_scalar(v as u32));
}

/// A character reference does not depend on the case of its hexadecimal
/// digits: `&#xHH;` with `a`-`f` stands for what it stands for with
/// `A`-`F`.
pub proof fn law_hex_reference_case(h1: u8, h2: u8)
    requires
        97 <= h1 <= 102,
        is_hex_digit(h2),
    ensures
        resolve_reference(seq![38u8, 35u8, 120u8, h1, h2, 59u8]) == resolve_reference(
            seq![38u8, 35u8, 120u8, (h1 - 32) as u8, h2, 59u8],
        ),
{
    law_hex_reference(h1, h2);
    law_hex_reference((h1 - 32) as u8, h2);
}

/// The five predefined entities stand for their characters: `&amp;` for
/// `&`, `&lt;` for `<`, `&gt;` for `>`, `&quot;` for `"` and `&apos;` for
/// `'`.
pub proof fn law_predefined_entities()
    ensures
        resolve_reference(seq![38u8, 97u8, 109u8, 112u8, 59u8]) == Some(seq!['&']),
        resolve_reference(seq![38u8, 108u8, 116u8, 59u8]) == Some(seq!['<']),
        resolve_reference(seq![38u8, 103u8, 116u8, 59u8]) == Some(seq!['>']),
        resolve_reference(seq![38u8, 113u8, 117u8, 111u8, 116u8, 59u8]) == Some(seq!['"']),
        resolve_reference(seq![38u8, 97u8, 112u8, 111u8, 115u8, 59u8]) == Some(seq!['\'']),
{
    reveal_strlit("&");
    reveal_strlit("<");
    reveal_strlit(">");
    reveal_strlit("\"");
    reveal_strlit("'");
    assert(AMP_HASH_X@ =~= seq![38u8, 35u8, 120u8]);
    assert(AMP_HASH@ =~= seq![38u8, 35u8]);
    assert(ENTITY_AMP@ =~= seq![38u8, 97u8, 109u8, 112u8, 59u8]);
    assert(ENTITY_LT@ =~= seq![38u8, 108u8, 116u8, 59u8]);
    assert(ENTITY_GT@ =~= seq![38u8, 103u8, 116u8, 59u8]);
    assert(ENTITY_QUOT@ =~= seq![38u8, 113u8, 117u8, 111u8, 116u8, 59u8]);
    assert(ENTITY_APOS@ =~= seq![38u8, 97u8, 112u8, 111u8, 115u8, 59u8]);
    assert(seq![38u8, 97u8, 109u8, 112u8, 59u8].take(3) != AMP_HASH_X@);
    assert(seq![38u8, 97u8, 109u8, 112u8, 59u8].take(2) != AMP_HASH@);
    assert(seq![38u8, 108u8, 116u8, 59u8].take(3) != AMP_HASH_X@);
    assert(seq![38u8, 108u8, 116u8, 59u8].take(2) != AMP_HASH@);
    assert(seq![38u8, 103u8, 116u8, 59u8].take(3) != AMP_HASH_X@);
    assert(seq![38u8, 103u8, 116u8, 59u8].take(2) != AMP_HASH@);
    assert(seq![38u8, 113u8, 117u8, 111u8, 116u8, 59u8].take(3) != AMP_HASH_X@);
    assert(seq![38u8, 113u8, 117u8, 111u8, 116u8, 59u8].take(2) != AMP_HASH@);
    assert(seq![38u8, 97u8, 112u8, 111u8, 115u8, 59u8].take(3) != AMP_HASH_X@);
    assert(seq![38u8, 97u8, 112u8, 111u8, 115u8, 59u8].take(2) != AMP_HASH@);
}

/// The latest binding of a prefix wins: after a binding of `b.prefix` to
/// `b.value` is added, the prefix stands for `b.value`, whatever was bound
/// before (an inner declaration shadows an outer one).
pub proof fn law_latest_binding_wins(nss: Seq<NamespaceView>, b: NamespaceView)
    ensures
        find_namespace(nss.push(b), b.prefix, (nss.len() + 1) as int) == Some(b.value),
{
}

/// Adding a binding of one prefix leaves what every other prefix stands
/// for as it was.
pub proof fn law_other_prefixes_unchanged(nss: Seq<NamespaceView>, b: NamespaceView, prefix: Seq<u8>)
    requires
        prefix != b.prefix,
    ensures
        find_namespace(nss.push(b), prefix, (nss.len() + 1) as int) == find_namespace(nss, prefix, nss.len() as int),
{
    lemma_find_namespace_prefix(nss, b, prefix, nss.len() as int);
}

proof fn lemma_find_namespace_prefix(nss: Seq<NamespaceView>, b: NamespaceView, prefix: Seq<u8>, n: int)
    requires
        0 <= n <= nss.len(),
    ensures
        find_namespace(nss.push(b), prefix, n) == find_namespace(nss, prefix, n),
    decreases n,
{
    if n > 0 {
        assert(nss.push(b)[n - 1] == nss[n - 1]);
        lemma_find_namespace_prefix(nss, b, prefix, n - 1);
    }
}

/// A character reference `&#DD;` with two decimal digits stands for the
/// character with the code `10 * D + D`.
pub proof fn law_decimal_reference(d1: u8, d2: u8)
    requires
        48 <= d1 <= 57,
        48 <= d2 <= 57,
    ensures
        resolve_reference(seq![38u8, 35u8, d1, d2, 59u8]) == Some(seq![(10 * (d1 - 48) + (d2 - 48)) as char]),
{
    reveal_with_fuel(digits_value, 3);
    let raw = seq![38u8, 35u8, d1, d2, 59u8];
    assert(AMP_HASH_X@ =~= seq![38u8, 35u8, 120u8]);
    assert(AMP_HASH@ =~= seq![38u8, 35u8]);
    assert(raw.take(3) != AMP_HASH_X@) by {
        assert(raw.take(3)[2] == d1);
    }
    assert(raw.take(2) =~= AMP_HASH@);
    let ds = raw.subrange(2, raw.len() - 1);
    assert(ds =~= seq![d1, d2]);
    assert(ds.drop_last() =~= seq![d1]);
    assert(ds.drop_last().drop_last() =~= Seq::<u8>::empty());
    assert(all_digits(ds, 10));
    let v = 10 * (d1 - 48) + (d2 - 48);
    assert(digits_value(ds, 10) == v);
    assert(is_scalar(v as u32));
}

/// Attributes without a prefix belong to no namespace, whatever default
/// namespace is bound: their namespaces are all empty.
pub proof fn law_unprefixed_attributes_have_no_namespace(
    data: Seq<u8>,
    attrs: Seq<AttributeRange>,
    i: int,
    nss: Seq<NamespaceView>,
    element: Seq<u8>,
    acc: Seq<Seq<u8>>,
)
    requires
        0 <= i <= attrs.len(),
        forall|k: int| i <= k < attrs.len() ==> span(data, (#[trigger] attrs[k]).prefix).len() == 0,
    ensures
        spec_attribute_namespaces(data, attrs, i, nss, element, acc) == Ok::<Seq<Seq<u8>>, ErrorView>(
            acc + Seq::new((attrs.len() - i) as nat, |k: int| Seq::<u8>::empty()),
        ),
    decreases attrs.len() - i,
{
    if i < attrs.len() {
        assert(span(data, attrs[i].prefix).len() == 0);
        law_unprefixed_attributes_have_no_namespace(data, attrs, i + 1, nss, element, acc.push(Seq::empty()));
        assert(acc.push(Seq::<u8>::empty()) + Seq::new((attrs.len() - (i + 1)) as nat, |k: int| Seq::<u8>::empty())
            =~= acc + Seq::new((attrs.len() - i) as nat, |k: int| Seq::<u8>::empty()));
    } else {
        assert(acc + Seq::new(0, |k: int| Seq::<u8>::empty()) =~= acc);
    }
}

/* ---------------------------------------------------------------------- */
/* the scope of namespace bindings                                          */

/// The bindings lie in order of depth.
pub open spec fn levels_ordered(nss: Seq<NamespaceView>) -> bool {
    forall|i: int, j: int| 0 <= i < j < nss.len() ==> (#[trigger] nss[i]).level <= (#[trigger] nss[j]).level
}

/// The namespace bindings in scope where the parser stands.
pub open spec fn in_scope(p: ParserView) -> Seq<NamespaceView> {
    cleanup_namespaces(p.namespaces, p.level)
}

proof fn lemma_last_at_most_spec(nss: Seq<NamespaceView>, level: usize, n: int)
    requires
        0 <= n <= nss.len(),
    ensures
        -1 <= last_at_most(nss, level, n) < n,
        last_at_most(nss, level, n) >= 0 ==> nss[last_at_most(nss, level, n)].level <= level,
        forall|j: int| last_at_most(nss, level, n) < j < n ==> (#[trigger] nss[j]).level > level,
    decreases n,
{
    if n > 0 {
        lemma_last_at_most_spec(nss, level, n - 1);
    }
}

/// Of bindings in order of depth, those in scope at depth `level` are the
/// first `k` when exactly those have a depth of at most `level`.
proof fn lemma_cleanup_split(nss: Seq<NamespaceView>, level: usize, k: int)
    requires
        levels_ordered(nss),
        0 <= k <= nss.len(),
        forall|j: int| 0 <= j < k ==> (#[trigger] nss[j]).level <= level,
        forall|j: int| k <= j < nss.len() ==> (#[trigger] nss[j]).level > level,
    ensures
        cleanup_namespaces(nss, level) == nss.take(k),
{
    lemma_last_at_most_spec(nss, level, nss.len() as int);
    let r = last_at_most(nss, level, nss.len() as int);
    if k > 0 {
        assert(nss[k - 1].level <= level);
        assert(r >= k - 1);
        assert(r < k);
    } else {
        assert(r < 0);
        assert(nss.take(0) =~= Seq::<NamespaceView>::empty());
    }
}

/// Of bindings in order of depth, those in scope at depth `level` are a
/// prefix, in order, all of depth at most `level`, and the rest are deeper.
proof fn lemma_cleanup_ordered(nss: Seq<NamespaceView>, level: usize)
    requires
        levels_ordered(nss),
    ensures
        ({
            let c = cleanup_namespaces(nss, level);
            &&& c.len() <= nss.len()
            &&& c == nss.take(c.len() as int)
            &&& levels_ordered(c)
            &&& forall|j: int| 0 <= j < c.len() ==> (#[trigger] c[j]).level <= level
            &&& forall|j: int| c.len() <= j < nss.len() ==> (#[trigger] nss[j]).level > level
        }),
{
    lemma_last_at_most_spec(nss, level, nss.len() as int);
    let r = last_at_most(nss, level, nss.len() as int);
    let c = cleanup_namespaces(nss, level);
    if r >= 0 {
        assert forall|j: int| 0 <= j < c.len() implies (#[trigger] c[j]).level <= level by {
            assert(c[j] == nss[j]);
            assert(nss[j].level <= nss[r].level);
        }
    }
    assert(c =~= nss.take(c.len() as int));
}

/// The namespace declarations of a start tag are added after the bindings,
/// each at the depth of the tag.
proof fn lemma_declare_levels(
    data: Seq<u8>,
    attrs: Seq<AttributeRange>,
    i: int,
    level: usize,
    nss: Seq<NamespaceView>,
    done: Seq<AttributeRange>,
)
    ensures
        spec_declare(data, attrs, i, level, nss, done) matches Ok((n2, _)) ==> n2.len() >= nss.len()
            && n2.take(nss.len() as int) =~= nss && forall|j: int|
            nss.len() <= j < n2.len() ==> (#[trigger] n2[j]).level == level,
    decreases attrs.len() - i,
{
    if 0 <= i < attrs.len() {
        match declare_step(data, attrs[i], level, nss) {
            Err(_) => {},
            Ok((nss2, a2)) => {
                lemma_declare_levels(data, attrs, i + 1, level, nss2, done.push(a2));
                match spec_declare(data, attrs, i, level, nss, done) {
                    Ok((n2, _)) => {
                        assert(nss2.len() >= nss.len());
                        assert(nss2.take(nss.len() as int) =~= nss);
                        assert forall|j: int| nss.len() <= j < n2.len() implies (
                        #[trigger] n2[j]).level == level by {
                            if j < nss2.len() {
                                assert(n2[j] == n2.take(nss2.len() as int)[j]);
                                assert(n2[j] == nss2[j]);
                            }
                        }
                        assert(n2.take(nss.len() as int) =~= n2.take(nss2.len() as int).take(
                            nss.len() as int,
                        ));
                    },
                    Err(_) => {},
                }
            },
        }
    }
}

/// The bindings after a start tag: those in scope before it, then its own
/// declarations at the depth it opens.
proof fn lemma_start_tag_scope(
    data: Seq<u8>,
    e: crate::sax::internal::StartElement,
    is_empty: bool,
    p: ParserView,
)
    requires
        p.namespace_aware,
        levels_ordered(p.namespaces),
    ensures
        ({
            let (r, q) = spec_start_tag(data, e, is_empty, p);
            let nss0 = cleanup_namespaces(p.namespaces, p.level);
            &&& q.namespace_aware
            &&& q.namespaces.len() >= nss0.len()
            &&& q.namespaces.take(nss0.len() as int) == nss0
            &&& r is Ok ==> (p.level < usize::MAX && forall|j: int|
                nss0.len() <= j < q.namespaces.len() ==> (#[trigger] q.namespaces[j]).level == p.level
                    + 1)
            &&& r is Err ==> q.namespaces == nss0 && q.level == p.level
            &&& r is Ok ==> (r matches Ok(EventView::StartElement(v)) && v.is_empty == is_empty)
            &&& is_empty ==> q.level == p.level
            &&& (r is Ok && !is_empty) ==> q.level == p.level + 1
        }),
{
    let nss0 = cleanup_namespaces(p.namespaces, p.level);
    lemma_cleanup_ordered(p.namespaces, p.level);
    match spec_attribute_ranges(
        data.take(e.attributes_chunk.end as int),
        e.attributes_chunk.start,
        Seq::empty(),
    ) {
        None => {
            assert(nss0.take(nss0.len() as int) =~= nss0);
        },
        Some(attrs) => {
            assert(nss0.take(nss0.len() as int) =~= nss0);
            if p.level < usize::MAX {
                let level = (p.level + 1) as usize;
                lemma_declare_levels(data, attrs, 0, level, nss0, Seq::empty());
            }
        },
    }
}

/// A binding declared on an element is in scope exactly within that element
/// and its descendants. For a namespace-aware parser whose bindings lie in
/// order of depth, and whose depth counts its open elements, every call
/// keeps the bindings in order and:
/// - a start tag keeps the bindings in scope and adds its own declarations,
///   at the depth it opens;
/// - an empty-element tag leaves the bindings in scope as they were (its own
///   declarations never come into scope for what follows);
/// - an end tag takes away the bindings deeper than the depth it returns to;
/// - anything else, errors included, leaves the bindings in scope as they
///   were;
/// and every binding in scope has a depth of at most the current depth.
pub proof fn law_namespace_scope(p: ParserView)
    requires
        p.namespace_aware,
        levels_ordered(p.namespaces),
        p.level == p.elements.len(),
    ensures
        ({
            let (r, q) = spec_read_event(p);
            &&& levels_ordered(q.namespaces)
            &&& forall|j: int| 0 <= j < in_scope(q).len() ==> (#[trigger] in_scope(q)[j]).level <= q.level
            &&& match r {
                Ok(EventView::StartElement(v)) => if v.is_empty {
                    in_scope(q) == in_scope(p)
                } else {
                    q.level == p.level + 1 && in_scope(q).len() >= in_scope(p).len()
                        && in_scope(q).take(in_scope(p).len() as int) == in_scope(p) && forall|
                        j: int,
                    |
                        in_scope(p).len() <= j < in_scope(q).len() ==> (#[trigger] in_scope(
                            q,
                        )[j]).level == q.level
                },
                Ok(EventView::EndElement(_)) => q.level + 1 == p.level && in_scope(q)
                    == cleanup_namespaces(in_scope(p), q.level),
                _ => in_scope(q) == in_scope(p),
            }
        }),
{
    reveal(spec_convert);
    let nss0 = cleanup_namespaces(p.namespaces, p.level);
    lemma_cleanup_ordered(p.namespaces, p.level);
    lemma_cleanup_split(nss0, p.level, nss0.len() as int);
    assert(nss0.take(nss0.len() as int) =~= nss0);
    match spec_read_event_splitted(p.state, p.data) {
        Err(_) => {
            lemma_cleanup_ordered(p.namespaces, p.level);
        },
        Ok((piece, st, n)) => {
            let p1 = ParserView { state: st, data: p.data.skip(n as int), ..p };
            let (r, q) = spec_read_event(p);
            assert((r, q) == spec_convert(p.data, piece, p1));
            match piece {
                InternalSuccess::ContentRelaxed(ContentRelaxed::StartElement(e)) => {
                    lemma_start_tag_scope(p.data, e, false, p1);
                    lemma_scope_after_start(p1, q, nss0, r is Ok);
                },
                InternalSuccess::ContentRelaxed(ContentRelaxed::EmptyElemTag(e)) => {
                    lemma_start_tag_scope(p.data, e, true, p1);
                    lemma_scope_after_start(p1, q, nss0, r is Ok);
                },
                InternalSuccess::ContentRelaxed(ContentRelaxed::EndElement(e)) => {
                    if q != p1 {
                        lemma_cleanup_ordered(nss0, q.level);
                    }
                },
                _ => {},
            }
        },
    }
}

/// After a start tag (see `lemma_start_tag_scope`): the bindings lie in
/// order, and those in scope are the earlier ones plus the tag's own when
/// the tag opened an element.
proof fn lemma_scope_after_start(p: ParserView, q: ParserView, nss0: Seq<NamespaceView>, ok: bool)
    requires
        levels_ordered(p.namespaces),
        nss0 == cleanup_namespaces(p.namespaces, p.level),
        levels_ordered(nss0),
        forall|j: int| 0 <= j < nss0.len() ==> (#[trigger] nss0[j]).level <= p.level,
        q.namespaces.len() >= nss0.len(),
        q.namespaces.take(nss0.len() as int) == nss0,
        ok ==> (p.level < usize::MAX && forall|j: int|
            nss0.len() <= j < q.namespaces.len() ==> (#[trigger] q.namespaces[j]).level == p.level + 1),
        !ok ==> q.namespaces == nss0,
        q.level == p.level || (ok && q.level == p.level + 1),
    ensures
        levels_ordered(q.namespaces),
        forall|j: int| 0 <= j < in_scope(q).len() ==> (#[trigger] in_scope(q)[j]).level <= q.level,
        q.level == p.level ==> in_scope(q) == nss0,
        q.level == p.level + 1 ==> in_scope(q) == q.namespaces,
{
    let qn = q.namespaces;
    assert forall|i: int, j: int| 0 <= i < j < qn.len() implies (#[trigger] qn[i]).level <= (
    #[trigger] qn[j]).level by {
        if j < nss0.len() {
            assert(qn[i] == nss0[i]);
            assert(qn[j] == nss0[j]);
        } else if i < nss0.len() {
            assert(qn[i] == nss0[i]);
        }
    }
    assert forall|j: int| 0 <= j < nss0.len() implies (#[trigger] qn[j]).level <= p.level by {
        assert(qn[j] == nss0[j]);
    }
    if q.level == p.level {
        lemma_cleanup_split(qn, q.level, nss0.len() as int);
    } else {
        lemma_cleanup_split(qn, q.level, qn.len() as int);
        assert(qn.take(qn.len() as int) =~= qn);
    }
    lemma_cleanup_ordered(qn, q.level);
}

} // verus!
