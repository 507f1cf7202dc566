//! The XML grammar of the document content, the prolog and namespaces, as
//! streaming scanners over bytes.
//!
//! Each scanner starts at `pos` in the data `s` that is buffered so far. A
//! scanner that reaches the end of `s` before it can decide answers
//! `Incomplete`, so that the caller can wait for more data; some scanners
//! (character data, comment and CDATA text) instead stop at the end of the
//! data and hand back what they have, so that large texts come in pieces.
#![allow(non_snake_case)]

use std::ops::Range;
use vstd::prelude::*;
use crate::sax::chars::{one_char, spec_one_char, CharClass};
use crate::sax::dtd::{doctypedecl, spec_doctypedecl};
use crate::sax::scan::{
    alt, char_, covers, is_error, is_mismatch, is_not, multispace0, multispace1, opt, optional,
    recognize, recognized, run1, spec_char, spec_is_not, spec_multispace0, spec_multispace1,
    spec_run1, spec_tag, tag, well_placed, Class, ErrorKind, Fail, Matched, Needed, Scanned, eof,
    spec_eof,
};

verus! {

/// The result of a scanner that hands back a structured value: the position
/// where it stops and the value.
pub type Parsed<T> = Result<(usize, T), Fail>;

/// The positions a structured scan result mentions lie in `pos..=len`.
pub open spec fn placed<T>(r: Parsed<T>, pos: int, len: int) -> bool {
    match r {
        Ok((rest, _)) => pos <= rest <= len,
        Err(Fail::Error(p, _)) => pos <= p <= len,
        Err(Fail::Incomplete(_)) => true,
    }
}

/// A reference as it appears in the text (`&name;`, `&#60;` or `&#x3C;`).
#[derive(Debug)]
pub struct Reference {
    pub initial: Range<usize>,
}

/// Where the parts of an attribute lie in a buffer.
#[derive(Debug)]
pub struct AttributeRange {
    pub value: Range<usize>,
    pub name: Range<usize>,
    // namespace aware
    pub local_name: Range<usize>,
    pub prefix: Range<usize>,
    pub namespace: Range<usize>,
}

/// Where the qualified name and the value of an attribute lie.
#[derive(Debug)]
pub struct SAXAttribute {
    pub value: Range<usize>,
    pub qualified_name: Range<usize>,
}

/// Where the qualified name and the value of an attribute lie.
#[derive(Debug)]
pub struct SAXAttribute2 {
    pub value: Range<usize>,
    pub qualified_name: Range<usize>,
}

/// A start tag: its name and the bytes that hold its attributes.
#[derive(Debug)]
pub struct StartElement {
    pub name: Range<usize>,
    pub attributes_chunk: Range<usize>,
}

/// An end tag: its name.
#[derive(Debug)]
pub struct EndElement {
    pub name: Range<usize>,
}

/* ---------------------------------------------------------------------- */
/* single characters that must not begin a closing delimiter                */

/// One character of class `cls` at `pos`, unless the closing delimiter `t`
/// starts there. An empty input is a mismatch; a delimiter cut short by the
/// end of the data is incomplete with `needed`.
pub open spec fn spec_single_unless(
    s: Seq<u8>,
    pos: usize,
    t: Seq<u8>,
    needed: Needed,
    cls: CharClass,
) -> Scanned {
    if pos >= s.len() {
        Err(Fail::Error(pos, ErrorKind::Char))
    } else {
        match spec_tag(s, pos, t) {
            Ok(_) => Err(Fail::Error(pos, ErrorKind::Char)),
            Err(Fail::Incomplete(_)) => Err(Fail::Incomplete(needed)),
            Err(Fail::Error(_, _)) => spec_one_char(s, pos, cls),
        }
    }
}

pub fn single_unless(s: &[u8], pos: usize, t: &[u8], needed: Needed, cls: CharClass) -> (r:
    Scanned)
    requires
        pos <= s.len(),
    ensures
        r == spec_single_unless(s@, pos, t@, needed, cls),
        well_placed(r, pos as int, s.len() as int),
        r matches Ok(m) ==> m.rest > pos,
{
    if pos >= s.len() {
        Err(Fail::Error(pos, ErrorKind::Char))
    } else {
        match tag(s, pos, t) {
            Ok(_) => Err(Fail::Error(pos, ErrorKind::Char)),
            Err(Fail::Incomplete(_)) => Err(Fail::Incomplete(needed)),
            Err(Fail::Error(_, _)) => one_char(s, pos, cls),
        }
    }
}

/// One character of character data; `]]>` may not begin there.
pub open spec fn spec_CharData_single(s: Seq<u8>, pos: usize) -> Scanned {
    spec_single_unless(s, pos, seq![93u8, 93u8, 62u8], Needed::Unknown, CharClass::CharData)
}

pub fn CharData_single(s: &[u8], pos: usize) -> (r: Scanned)
    requires
        pos <= s.len(),
    ensures
        r == spec_CharData_single(s@, pos),
        well_placed(r, pos as int, s.len() as int),
{
    single_unless(s, pos, &[93u8, 93u8, 62u8], Needed::Unknown, CharClass::CharData)
}

/// One character of a comment; `--` may not begin there.
pub open spec fn spec_inside_Comment_single(s: Seq<u8>, pos: usize) -> Scanned {
    spec_single_unless(s, pos, seq![45u8, 45u8], Needed::Size(1), CharClass::XmlChar)
}

pub fn inside_Comment_single(s: &[u8], pos: usize) -> (r: Scanned)
    requires
        pos <= s.len(),
    ensures
        r == spec_inside_Comment_single(s@, pos),
        well_placed(r, pos as int, s.len() as int),
{
    single_unless(s, pos, &[45u8, 45u8], Needed::Size(1), CharClass::XmlChar)
}

/// One character of a CDATA section; `]]>` may not begin there.
pub open spec fn spec_inside_CDATASection_single(s: Seq<u8>, pos: usize) -> Scanned {
    spec_single_unless(s, pos, seq![93u8, 93u8, 62u8], Needed::Unknown, CharClass::XmlChar)
}

pub fn inside_CDATASection_single(s: &[u8], pos: usize) -> (r: Scanned)
    requires
        pos <= s.len(),
    ensures
        r == spec_inside_CDATASection_single(s@, pos),
        well_placed(r, pos as int, s.len() as int),
{
    single_unless(s, pos, &[93u8, 93u8, 62u8], Needed::Unknown, CharClass::XmlChar)
}

/// One character of a processing instruction; `?>` may not begin there.
pub open spec fn spec_inside_PI_single(s: Seq<u8>, pos: usize) -> Scanned {
    spec_single_unless(s, pos, seq![63u8, 62u8], Needed::Unknown, CharClass::XmlChar)
}

pub fn inside_PI_single(s: &[u8], pos: usize) -> (r: Scanned)
    requires
        pos <= s.len(),
    ensures
        r == spec_inside_PI_single(s@, pos),
        well_placed(r, pos as int, s.len() as int),
{
    single_unless(s, pos, &[63u8, 62u8], Needed::Unknown, CharClass::XmlChar)
}

/// One piece of content.
#[derive(Debug)]
pub enum ContentRelaxed {
    CharData(Range<usize>),
    StartElement(StartElement),
    EmptyElemTag(StartElement),
    EndElement(EndElement),
    Reference(Reference),
    PI(Range<usize>),
    CdataStart,
    CommentStart,
}

/// One piece of a comment.
#[derive(Debug)]
pub enum InsideComment {
    Characters(Range<usize>),
    CommentEnd,
}

/// One piece of a CDATA section.
#[derive(Debug)]
pub enum InsideCdata {
    Characters(Range<usize>),
    CdataEnd,
}

/// One piece of the prolog before the XML declaration.
#[derive(Debug)]
pub enum MiscBeforeXmlDecl {
    PI(Range<usize>),
    Whitespace(Range<usize>),
    CommentStart,
    DocType(Range<usize>),
    XmlDecl(Range<usize>),
}

/// One piece of the prolog before the document type declaration.
#[derive(Debug)]
pub enum MiscBeforeDoctype {
    PI(Range<usize>),
    Whitespace(Range<usize>),
    CommentStart,
    DocType(Range<usize>),
}

/// One piece of the prolog after the document type declaration, or of the
/// epilog.
#[derive(Debug)]
pub enum Misc {
    PI(Range<usize>),
    Whitespace(Range<usize>),
    CommentStart,
}

/// Where the prefix and the local part of a qualified name lie (the prefix
/// is empty when there is none).
#[derive(Debug)]
pub struct QName {
    pub prefix_range: Range<usize>,
    pub local_name_range: Range<usize>,
}


/// `lo <= r.start <= r.end <= hi`
pub open spec fn span_within(r: Range<usize>, lo: int, hi: int) -> bool {
    lo <= r.start <= r.end <= hi
}

/// The places a piece of content mentions lie in `lo..=hi`.
pub open spec fn content_within(v: ContentRelaxed, lo: int, hi: int) -> bool {
    match v {
        ContentRelaxed::CharData(g) => span_within(g, lo, hi),
        ContentRelaxed::StartElement(e) => lo <= e.name.start <= e.name.end
            <= e.attributes_chunk.start <= e.attributes_chunk.end <= hi,
        ContentRelaxed::EmptyElemTag(e) => lo <= e.name.start <= e.name.end
            <= e.attributes_chunk.start <= e.attributes_chunk.end <= hi,
        ContentRelaxed::EndElement(e) => span_within(e.name, lo, hi),
        ContentRelaxed::Reference(r) => span_within(r.initial, lo, hi),
        ContentRelaxed::PI(g) => span_within(g, lo, hi),
        _ => true,
    }
}

/// The places a piece of a comment mentions lie in `lo..=hi`.
pub open spec fn comment_within(v: InsideComment, lo: int, hi: int) -> bool {
    match v {
        InsideComment::Characters(g) => span_within(g, lo, hi),
        _ => true,
    }
}

/// The places a piece of a CDATA section mentions lie in `lo..=hi`.
pub open spec fn cdata_within(v: InsideCdata, lo: int, hi: int) -> bool {
    match v {
        InsideCdata::Characters(g) => span_within(g, lo, hi),
        _ => true,
    }
}

/// The places a Misc piece mentions lie in `lo..=hi`.
pub open spec fn misc_within(v: Misc, lo: int, hi: int) -> bool {
    match v {
        Misc::PI(g) => span_within(g, lo, hi),
        Misc::Whitespace(g) => span_within(g, lo, hi),
        _ => true,
    }
}

/// The places a piece of the prolog before the document type mentions lie
/// in `lo..=hi`.
pub open spec fn misc_doctype_within(v: MiscBeforeDoctype, lo: int, hi: int) -> bool {
    match v {
        MiscBeforeDoctype::PI(g) => span_within(g, lo, hi),
        MiscBeforeDoctype::Whitespace(g) => span_within(g, lo, hi),
        MiscBeforeDoctype::DocType(g) => span_within(g, lo, hi),
        _ => true,
    }
}

/// The places a piece of the prolog before the XML declaration mentions lie
/// in `lo..=hi`.
pub open spec fn misc_xmldecl_within(v: MiscBeforeXmlDecl, lo: int, hi: int) -> bool {
    match v {
        MiscBeforeXmlDecl::PI(g) => span_within(g, lo, hi),
        MiscBeforeXmlDecl::Whitespace(g) => span_within(g, lo, hi),
        MiscBeforeXmlDecl::DocType(g) => span_within(g, lo, hi),
        MiscBeforeXmlDecl::XmlDecl(g) => span_within(g, lo, hi),
        _ => true,
    }
}

/// Both parts of a qualified name lie in `0..=hi` (an absent prefix is the
/// empty range at 0).
pub open spec fn qname_within(q: QName, hi: int) -> bool {
    span_within(q.prefix_range, 0, hi) && span_within(q.local_name_range, 0, hi)
}
/// The bytes of `&#`.
pub const AMP_HASH: [u8; 2] = [38u8, 35u8];

/// The bytes of `&#x`.
pub const AMP_HASH_X: [u8; 3] = [38u8, 35u8, 120u8];

/// The bytes of `&`.
pub const AMP: [u8; 1] = [38u8];

/// The bytes of `<&"`.
pub const NOT_IN_ATTVALUE_DQ: [u8; 3] = [60u8, 38u8, 34u8];

/// The bytes of `<&'`.
pub const NOT_IN_ATTVALUE_SQ: [u8; 3] = [60u8, 38u8, 39u8];

/// The bytes of `1.`.
pub const N1_DOT: [u8; 2] = [49u8, 46u8];

/// The bytes of `version`.
pub const VERSION: [u8; 7] = [118u8, 101u8, 114u8, 115u8, 105u8, 111u8, 110u8];

/// The bytes of `-`.
pub const DASH: [u8; 1] = [45u8];

/// The bytes of `.`.
pub const DOT: [u8; 1] = [46u8];

/// The bytes of `_`.
pub const UNDERSCORE: [u8; 1] = [95u8];

/// The bytes of `encoding`.
pub const ENCODING: [u8; 8] = [101u8, 110u8, 99u8, 111u8, 100u8, 105u8, 110u8, 103u8];

/// The bytes of `yes`.
pub const YES: [u8; 3] = [121u8, 101u8, 115u8];

/// The bytes of `no`.
pub const NO: [u8; 2] = [110u8, 111u8];

/// The bytes of `standalone`.
pub const STANDALONE: [u8; 10] = [115u8, 116u8, 97u8, 110u8, 100u8, 97u8, 108u8, 111u8, 110u8, 101u8];

/// The bytes of `<?xml`.
pub const LT_QUESTION_XML: [u8; 5] = [60u8, 63u8, 120u8, 109u8, 108u8];

/// The bytes of `?>`.
pub const QUESTION_GT: [u8; 2] = [63u8, 62u8];

/// The bytes of `<!--`.
pub const LT_BANG_DASH_DASH: [u8; 4] = [60u8, 33u8, 45u8, 45u8];

/// The bytes of `-->`.
pub const DASH_DASH_GT: [u8; 3] = [45u8, 45u8, 62u8];

/// The bytes of `<![CDATA[`.
pub const LT_BANG_LBRACKET_CDATA_LBRACKET: [u8; 9] = [60u8, 33u8, 91u8, 67u8, 68u8, 65u8, 84u8, 65u8, 91u8];

/// The bytes of `]]>`.
pub const RBRACKET_RBRACKET_GT: [u8; 3] = [93u8, 93u8, 62u8];

/// The bytes of `<?`.
pub const LT_QUESTION: [u8; 2] = [60u8, 63u8];

/// The bytes of `/>`.
pub const SLASH_GT: [u8; 2] = [47u8, 62u8];

/// The bytes of `</`.
pub const LT_SLASH: [u8; 2] = [60u8, 47u8];

/// [5] Name ::= NameStartChar (NameChar)*
#[verifier::opaque]
pub open spec fn spec_name(s: Seq<u8>, pos: usize) -> Scanned
{
    match spec_one_char(s, pos, CharClass::NameStart) {
        Err(f) => Err(f),
        Ok(m1) => match spec_many0_namechar(s, m1.rest) {
            Err(f) => Err(f),
            Ok(m2) => Ok(Matched { rest: m2.rest, start: pos, end: m2.rest }),
        },
    }
}

/// [5] Name ::= NameStartChar (NameChar)*
pub fn name(s: &[u8], pos: usize) -> (r: Scanned)
    requires
        pos <= s.len(),
    ensures
        r == spec_name(s@, pos),
        well_placed(r, pos as int, s.len() as int),
{
    reveal(spec_name);
    match one_char(s, pos, CharClass::NameStart) {
        Err(f) => Err(f),
        Ok(m3) => match many0_namechar(s, m3.rest) {
            Err(f) => Err(f),
            Ok(m4) => Ok(Matched { rest: m4.rest, start: pos, end: m4.rest }),
        },
    }
}

/// NameChar*
pub open spec fn spec_many0_namechar(s: Seq<u8>, pos: usize) -> Scanned
    decreases s.len() - pos,
{
    match spec_one_char(s, pos, CharClass::Name) {
        Err(Fail::Error(_, _)) => covers(pos, pos),
        Err(f) => Err(f),
        Ok(m) => if pos < m.rest && m.rest <= s.len() {
            recognize(pos, spec_many0_namechar(s, m.rest))
        } else {
            Err(Fail::Error(pos, ErrorKind::Many0))
        },
    }
}

/// NameChar*
pub fn many0_namechar(s: &[u8], pos: usize) -> (r: Scanned)
    requires
        pos <= s.len(),
    ensures
        r == spec_many0_namechar(s@, pos),
        well_placed(r, pos as int, s.len() as int),
{
    let mut i = pos;
    loop
        invariant
            pos <= i <= s.len(),
            spec_many0_namechar(s@, pos) == recognize(pos, spec_many0_namechar(s@, i)),
        decreases s.len() - i,
    {
        let step = one_char(s, i, CharClass::Name);
        match step {
            Err(Fail::Error(_, _)) => {
                return Ok(Matched { rest: i, start: pos, end: i });
            }
            Err(f) => {
                return Err(f);
            }
            Ok(m) => {
                if i < m.rest && m.rest <= s.len() {
                    i = m.rest;
                } else {
                    return Err(Fail::Error(i, ErrorKind::Many0));
                }
            }
        }
    }
}

/// [66] CharRef ::= '&#' [0-9]+ ';' | '&#x' [0-9a-fA-F]+ ';'
#[verifier::opaque]
pub open spec fn spec_CharRef(s: Seq<u8>, pos: usize) -> Scanned
{
    alt(match spec_tag(s, pos, AMP_HASH@) {
        Err(f) => Err(f),
        Ok(m1) => match spec_run1(s, m1.rest, Class::Digit, ErrorKind::TakeWhile1) {
            Err(f) => Err(f),
            Ok(m2) => match spec_char(s, m2.rest, 59u8) {
                Err(f) => Err(f),
                Ok(m3) => Ok(Matched { rest: m3.rest, start: pos, end: m3.rest }),
            },
        },
    }, match spec_tag(s, pos, AMP_HASH_X@) {
        Err(f) => Err(f),
        Ok(m4) => match spec_run1(s, m4.rest, Class::HexDigit, ErrorKind::TakeWhile1) {
            Err(f) => Err(f),
            Ok(m5) => match spec_char(s, m5.rest, 59u8) {
                Err(f) => Err(f),
                Ok(m6) => Ok(Matched { rest: m6.rest, start: pos, end: m6.rest }),
            },
        },
    })
}

/// [66] CharRef ::= '&#' [0-9]+ ';' | '&#x' [0-9a-fA-F]+ ';'
pub fn CharRef(s: &[u8], pos: usize) -> (r: Scanned)
    requires
        pos <= s.len(),
    ensures
        r == spec_CharRef(s@, pos),
        well_placed(r, pos as int, s.len() as int),
{
    reveal(spec_CharRef);
    { let r13 = match tag(s, pos, &AMP_HASH) {
        Err(f) => Err(f),
        Ok(m7) => match run1(s, m7.rest, Class::Digit, ErrorKind::TakeWhile1) {
            Err(f) => Err(f),
            Ok(m8) => match char_(s, m8.rest, 59u8) {
                Err(f) => Err(f),
                Ok(m9) => Ok(Matched { rest: m9.rest, start: pos, end: m9.rest }),
            },
        },
    }; if is_mismatch(&r13) { match tag(s, pos, &AMP_HASH_X) {
        Err(f) => Err(f),
        Ok(m10) => match run1(s, m10.rest, Class::HexDigit, ErrorKind::TakeWhile1) {
            Err(f) => Err(f),
            Ok(m11) => match char_(s, m11.rest, 59u8) {
                Err(f) => Err(f),
                Ok(m12) => Ok(Matched { rest: m12.rest, start: pos, end: m12.rest }),
            },
        },
    } } else { r13 } }
}

/// [68] EntityRef ::= '&' Name ';'
#[verifier::opaque]
pub open spec fn spec_EntityRef(s: Seq<u8>, pos: usize) -> Scanned
{
    match spec_tag(s, pos, AMP@) {
        Err(f) => Err(f),
        Ok(m1) => match spec_name(s, m1.rest) {
            Err(f) => Err(f),
            Ok(m2) => match spec_char(s, m2.rest, 59u8) {
                Err(f) => Err(f),
                Ok(m3) => Ok(Matched { rest: m3.rest, start: pos, end: m3.rest }),
            },
        },
    }
}

/// [68] EntityRef ::= '&' Name ';'
pub fn EntityRef(s: &[u8], pos: usize) -> (r: Scanned)
    requires
        pos <= s.len(),
    ensures
        r == spec_EntityRef(s@, pos),
        well_placed(r, pos as int, s.len() as int),
{
    reveal(spec_EntityRef);
    match tag(s, pos, &AMP) {
        Err(f) => Err(f),
        Ok(m4) => match name(s, m4.rest) {
            Err(f) => Err(f),
            Ok(m5) => match char_(s, m5.rest, 59u8) {
                Err(f) => Err(f),
                Ok(m6) => Ok(Matched { rest: m6.rest, start: pos, end: m6.rest }),
            },
        },
    }
}

/// [67] Reference ::= EntityRef | CharRef
#[verifier::opaque]
pub open spec fn spec_Reference(s: Seq<u8>, pos: usize) -> Scanned
{
    alt(spec_EntityRef(s, pos), spec_CharRef(s, pos))
}

/// [67] Reference ::= EntityRef | CharRef
pub fn Reference(s: &[u8], pos: usize) -> (r: Scanned)
    requires
        pos <= s.len(),
    ensures
        r == spec_Reference(s@, pos),
        well_placed(r, pos as int, s.len() as int),
{
    reveal(spec_Reference);
    { let r1 = EntityRef(s, pos); if is_mismatch(&r1) { CharRef(s, pos) } else { r1 } }
}

/// One piece of a double-quoted attribute value: [^<&"]+ | Reference
#[verifier::opaque]
pub open spec fn spec_attvalue_dq_item(s: Seq<u8>, pos: usize) -> Scanned
{
    alt(spec_is_not(s, pos, NOT_IN_ATTVALUE_DQ@), spec_Reference(s, pos))
}

/// One piece of a double-quoted attribute value: [^<&"]+ | Reference
pub fn attvalue_dq_item(s: &[u8], pos: usize) -> (r: Scanned)
    requires
        pos <= s.len(),
    ensures
        r == spec_attvalue_dq_item(s@, pos),
        well_placed(r, pos as int, s.len() as int),
{
    reveal(spec_attvalue_dq_item);
    { let r1 = is_not(s, pos, &NOT_IN_ATTVALUE_DQ); if is_mismatch(&r1) { Reference(s, pos) } else { r1 } }
}

/// One piece of a single-quoted attribute value: [^<&']+ | Reference
#[verifier::opaque]
pub open spec fn spec_attvalue_sq_item(s: Seq<u8>, pos: usize) -> Scanned
{
    alt(spec_is_not(s, pos, NOT_IN_ATTVALUE_SQ@), spec_Reference(s, pos))
}

/// One piece of a single-quoted attribute value: [^<&']+ | Reference
pub fn attvalue_sq_item(s: &[u8], pos: usize) -> (r: Scanned)
    requires
        pos <= s.len(),
    ensures
        r == spec_attvalue_sq_item(s@, pos),
        well_placed(r, pos as int, s.len() as int),
{
    reveal(spec_attvalue_sq_item);
    { let r1 = is_not(s, pos, &NOT_IN_ATTVALUE_SQ); if is_mismatch(&r1) { Reference(s, pos) } else { r1 } }
}

/// ([^<&"] | Reference)*
pub open spec fn spec_many0_attvalue_dq(s: Seq<u8>, pos: usize) -> Scanned
    decreases s.len() - pos,
{
    match spec_attvalue_dq_item(s, pos) {
        Err(Fail::Error(_, _)) => covers(pos, pos),
        Err(f) => Err(f),
        Ok(m) => if pos < m.rest && m.rest <= s.len() {
            recognize(pos, spec_many0_attvalue_dq(s, m.rest))
        } else {
            Err(Fail::Error(pos, ErrorKind::Many0))
        },
    }
}

/// ([^<&"] | Reference)*
pub fn many0_attvalue_dq(s: &[u8], pos: usize) -> (r: Scanned)
    requires
        pos <= s.len(),
    ensures
        r == spec_many0_attvalue_dq(s@, pos),
        well_placed(r, pos as int, s.len() as int),
{
    let mut i = pos;
    loop
        invariant
            pos <= i <= s.len(),
            spec_many0_attvalue_dq(s@, pos) == recognize(pos, spec_many0_attvalue_dq(s@, i)),
        decreases s.len() - i,
    {
        let step = attvalue_dq_item(s, i);
        match step {
            Err(Fail::Error(_, _)) => {
                return Ok(Matched { rest: i, start: pos, end: i });
            }
            Err(f) => {
                return Err(f);
            }
            Ok(m) => {
                if i < m.rest && m.rest <= s.len() {
                    i = m.rest;
                } else {
                    return Err(Fail::Error(i, ErrorKind::Many0));
                }
            }
        }
    }
}

/// ([^<&'] | Reference)*
pub open spec fn spec_many0_attvalue_sq(s: Seq<u8>, pos: usize) -> Scanned
    decreases s.len() - pos,
{
    match spec_attvalue_sq_item(s, pos) {
        Err(Fail::Error(_, _)) => covers(pos, pos),
        Err(f) => Err(f),
        Ok(m) => if pos < m.rest && m.rest <= s.len() {
            recognize(pos, spec_many0_attvalue_sq(s, m.rest))
        } else {
            Err(Fail::Error(pos, ErrorKind::Many0))
        },
    }
}

/// ([^<&'] | Reference)*
pub fn many0_attvalue_sq(s: &[u8], pos: usize) -> (r: Scanned)
    requires
        pos <= s.len(),
    ensures
        r == spec_many0_attvalue_sq(s@, pos),
        well_placed(r, pos as int, s.len() as int),
{
    let mut i = pos;
    loop
        invariant
            pos <= i <= s.len(),
            spec_many0_attvalue_sq(s@, pos) == recognize(pos, spec_many0_attvalue_sq(s@, i)),
        decreases s.len() - i,
    {
        let step = attvalue_sq_item(s, i);
        match step {
            Err(Fail::Error(_, _)) => {
                return Ok(Matched { rest: i, start: pos, end: i });
            }
            Err(f) => {
                return Err(f);
            }
            Ok(m) => {
                if i < m.rest && m.rest <= s.len() {
                    i = m.rest;
                } else {
                    return Err(Fail::Error(i, ErrorKind::Many0));
                }
            }
        }
    }
}

/// [10] AttValue ::= '"' ([^<&"] | Reference)* '"' | "'" ([^<&'] | Reference)* "'" (hands back the part between the quotes)
#[verifier::opaque]
pub open spec fn spec_AttValue(s: Seq<u8>, pos: usize) -> Scanned
{
    alt(match spec_char(s, pos, 34u8) {
        Err(f) => Err(f),
        Ok(m1) => match spec_many0_attvalue_dq(s, m1.rest) {
            Err(f) => Err(f),
            Ok(m2) => match spec_char(s, m2.rest, 34u8) {
                Err(f) => Err(f),
                Ok(m3) => Ok(Matched { rest: m3.rest, start: m2.start, end: m2.end }),
            },
        },
    }, match spec_char(s, pos, 39u8) {
        Err(f) => Err(f),
        Ok(m4) => match spec_many0_attvalue_sq(s, m4.rest) {
            Err(f) => Err(f),
            Ok(m5) => match spec_char(s, m5.rest, 39u8) {
                Err(f) => Err(f),
                Ok(m6) => Ok(Matched { rest: m6.rest, start: m5.start, end: m5.end }),
            },
        },
    })
}

/// [10] AttValue ::= '"' ([^<&"] | Reference)* '"' | "'" ([^<&'] | Reference)* "'" (hands back the part between the quotes)
pub fn AttValue(s: &[u8], pos: usize) -> (r: Scanned)
    requires
        pos <= s.len(),
    ensures
        r == spec_AttValue(s@, pos),
        well_placed(r, pos as int, s.len() as int),
{
    reveal(spec_AttValue);
    { let r13 = match char_(s, pos, 34u8) {
        Err(f) => Err(f),
        Ok(m7) => match many0_attvalue_dq(s, m7.rest) {
            Err(f) => Err(f),
            Ok(m8) => match char_(s, m8.rest, 34u8) {
                Err(f) => Err(f),
                Ok(m9) => Ok(Matched { rest: m9.rest, start: m8.start, end: m8.end }),
            },
        },
    }; if is_mismatch(&r13) { match char_(s, pos, 39u8) {
        Err(f) => Err(f),
        Ok(m10) => match many0_attvalue_sq(s, m10.rest) {
            Err(f) => Err(f),
            Ok(m11) => match char_(s, m11.rest, 39u8) {
                Err(f) => Err(f),
                Ok(m12) => Ok(Matched { rest: m12.rest, start: m11.start, end: m11.end }),
            },
        },
    } } else { r13 } }
}

/// [25] Eq ::= S? '=' S?
#[verifier::opaque]
pub open spec fn spec_Eq(s: Seq<u8>, pos: usize) -> Scanned
{
    match spec_multispace0(s, pos) {
        Err(f) => Err(f),
        Ok(m1) => match spec_char(s, m1.rest, 61u8) {
            Err(f) => Err(f),
            Ok(m2) => match spec_multispace0(s, m2.rest) {
                Err(f) => Err(f),
                Ok(m3) => Ok(Matched { rest: m3.rest, start: pos, end: m3.rest }),
            },
        },
    }
}

/// [25] Eq ::= S? '=' S?
pub fn Eq(s: &[u8], pos: usize) -> (r: Scanned)
    requires
        pos <= s.len(),
    ensures
        r == spec_Eq(s@, pos),
        well_placed(r, pos as int, s.len() as int),
{
    reveal(spec_Eq);
    match multispace0(s, pos) {
        Err(f) => Err(f),
        Ok(m4) => match char_(s, m4.rest, 61u8) {
            Err(f) => Err(f),
            Ok(m5) => match multispace0(s, m5.rest) {
                Err(f) => Err(f),
                Ok(m6) => Ok(Matched { rest: m6.rest, start: pos, end: m6.rest }),
            },
        },
    }
}

/// White space and one [41] Attribute ::= Name Eq AttValue
#[verifier::opaque]
pub open spec fn spec_stag_attribute(s: Seq<u8>, pos: usize) -> Scanned
{
    match spec_multispace0(s, pos) {
        Err(f) => Err(f),
        Ok(m1) => match spec_name(s, m1.rest) {
            Err(f) => Err(f),
            Ok(m2) => match spec_Eq(s, m2.rest) {
                Err(f) => Err(f),
                Ok(m3) => match spec_AttValue(s, m3.rest) {
                    Err(f) => Err(f),
                    Ok(m4) => Ok(Matched { rest: m4.rest, start: pos, end: m4.rest }),
                },
            },
        },
    }
}

/// White space and one [41] Attribute ::= Name Eq AttValue
pub fn stag_attribute(s: &[u8], pos: usize) -> (r: Scanned)
    requires
        pos <= s.len(),
    ensures
        r == spec_stag_attribute(s@, pos),
        well_placed(r, pos as int, s.len() as int),
{
    reveal(spec_stag_attribute);
    match multispace0(s, pos) {
        Err(f) => Err(f),
        Ok(m5) => match name(s, m5.rest) {
            Err(f) => Err(f),
            Ok(m6) => match Eq(s, m6.rest) {
                Err(f) => Err(f),
                Ok(m7) => match AttValue(s, m7.rest) {
                    Err(f) => Err(f),
                    Ok(m8) => Ok(Matched { rest: m8.rest, start: pos, end: m8.rest }),
                },
            },
        },
    }
}

/// (S Attribute)*
pub open spec fn spec_many0_stag_attributes(s: Seq<u8>, pos: usize) -> Scanned
    decreases s.len() - pos,
{
    match spec_stag_attribute(s, pos) {
        Err(Fail::Error(_, _)) => covers(pos, pos),
        Err(f) => Err(f),
        Ok(m) => if pos < m.rest && m.rest <= s.len() {
            recognize(pos, spec_many0_stag_attributes(s, m.rest))
        } else {
            Err(Fail::Error(pos, ErrorKind::Many0))
        },
    }
}

/// (S Attribute)*
pub fn many0_stag_attributes(s: &[u8], pos: usize) -> (r: Scanned)
    requires
        pos <= s.len(),
    ensures
        r == spec_many0_stag_attributes(s@, pos),
        well_placed(r, pos as int, s.len() as int),
{
    let mut i = pos;
    loop
        invariant
            pos <= i <= s.len(),
            spec_many0_stag_attributes(s@, pos) == recognize(pos, spec_many0_stag_attributes(s@, i)),
        decreases s.len() - i,
    {
        let step = stag_attribute(s, i);
        match step {
            Err(Fail::Error(_, _)) => {
                return Ok(Matched { rest: i, start: pos, end: i });
            }
            Err(f) => {
                return Err(f);
            }
            Ok(m) => {
                if i < m.rest && m.rest <= s.len() {
                    i = m.rest;
                } else {
                    return Err(Fail::Error(i, ErrorKind::Many0));
                }
            }
        }
    }
}

/// [14] CharData ::= [^<&]* - ([^<&]* ']]>' [^<&]*), at least one character; the end of the data ends it
#[verifier::opaque]
pub open spec fn spec_CharData(s: Seq<u8>, pos: usize) -> Scanned
{
    match spec_CharData_single(s, pos) {
        Err(f) => Err(f),
        Ok(m1) => match spec_many0_chardata(s, m1.rest) {
            Err(f) => Err(f),
            Ok(m2) => Ok(Matched { rest: m2.rest, start: pos, end: m2.rest }),
        },
    }
}

/// [14] CharData ::= [^<&]* - ([^<&]* ']]>' [^<&]*), at least one character; the end of the data ends it
pub fn CharData(s: &[u8], pos: usize) -> (r: Scanned)
    requires
        pos <= s.len(),
    ensures
        r == spec_CharData(s@, pos),
        well_placed(r, pos as int, s.len() as int),
{
    reveal(spec_CharData);
    match CharData_single(s, pos) {
        Err(f) => Err(f),
        Ok(m3) => match many0_chardata(s, m3.rest) {
            Err(f) => Err(f),
            Ok(m4) => Ok(Matched { rest: m4.rest, start: pos, end: m4.rest }),
        },
    }
}

/// more character data, up to the end of the data
pub open spec fn spec_many0_chardata(s: Seq<u8>, pos: usize) -> Scanned
    decreases s.len() - pos,
{
    match spec_CharData_single(s, pos) {
        Err(Fail::Error(_, _)) => covers(pos, pos),
        Err(f) => covers(pos, pos),
        Ok(m) => if pos < m.rest && m.rest <= s.len() {
            recognize(pos, spec_many0_chardata(s, m.rest))
        } else {
            Err(Fail::Error(pos, ErrorKind::Many0))
        },
    }
}

/// more character data, up to the end of the data
pub fn many0_chardata(s: &[u8], pos: usize) -> (r: Scanned)
    requires
        pos <= s.len(),
    ensures
        r == spec_many0_chardata(s@, pos),
        well_placed(r, pos as int, s.len() as int),
{
    let mut i = pos;
    loop
        invariant
            pos <= i <= s.len(),
            spec_many0_chardata(s@, pos) == recognize(pos, spec_many0_chardata(s@, i)),
        decreases s.len() - i,
    {
        let step = CharData_single(s, i);
        match step {
            Err(Fail::Error(_, _)) => {
                return Ok(Matched { rest: i, start: pos, end: i });
            }
            Err(f) => {
                return Ok(Matched { rest: i, start: pos, end: i });
            }
            Ok(m) => {
                if i < m.rest && m.rest <= s.len() {
                    i = m.rest;
                } else {
                    return Err(Fail::Error(i, ErrorKind::Many0));
                }
            }
        }
    }
}

/// [26] VersionNum ::= '1.' [0-9]+
#[verifier::opaque]
pub open spec fn spec_VersionNum(s: Seq<u8>, pos: usize) -> Scanned
{
    match spec_tag(s, pos, N1_DOT@) {
        Err(f) => Err(f),
        Ok(m1) => match spec_run1(s, m1.rest, Class::Digit, ErrorKind::Digit) {
            Err(f) => Err(f),
            Ok(m2) => Ok(Matched { rest: m2.rest, start: pos, end: m2.rest }),
        },
    }
}

/// [26] VersionNum ::= '1.' [0-9]+
pub fn VersionNum(s: &[u8], pos: usize) -> (r: Scanned)
    requires
        pos <= s.len(),
    ensures
        r == spec_VersionNum(s@, pos),
        well_placed(r, pos as int, s.len() as int),
{
    reveal(spec_VersionNum);
    match tag(s, pos, &N1_DOT) {
        Err(f) => Err(f),
        Ok(m3) => match run1(s, m3.rest, Class::Digit, ErrorKind::Digit) {
            Err(f) => Err(f),
            Ok(m4) => Ok(Matched { rest: m4.rest, start: pos, end: m4.rest }),
        },
    }
}

/// [24] VersionInfo ::= S 'version' Eq ("'" VersionNum "'" | '"' VersionNum '"')
#[verifier::opaque]
pub open spec fn spec_VersionInfo(s: Seq<u8>, pos: usize) -> Scanned
{
    match spec_multispace1(s, pos) {
        Err(f) => Err(f),
        Ok(m1) => match spec_tag(s, m1.rest, VERSION@) {
            Err(f) => Err(f),
            Ok(m2) => match spec_Eq(s, m2.rest) {
                Err(f) => Err(f),
                Ok(m3) => match alt(match spec_char(s, m3.rest, 34u8) {
        Err(f) => Err(f),
        Ok(m5) => match spec_VersionNum(s, m5.rest) {
            Err(f) => Err(f),
            Ok(m6) => match spec_char(s, m6.rest, 34u8) {
                Err(f) => Err(f),
                Ok(m7) => Ok(Matched { rest: m7.rest, start: m6.start, end: m6.end }),
            },
        },
    }, match spec_char(s, m3.rest, 39u8) {
        Err(f) => Err(f),
        Ok(m8) => match spec_VersionNum(s, m8.rest) {
            Err(f) => Err(f),
            Ok(m9) => match spec_char(s, m9.rest, 39u8) {
                Err(f) => Err(f),
                Ok(m10) => Ok(Matched { rest: m10.rest, start: m9.start, end: m9.end }),
            },
        },
    }) {
                    Err(f) => Err(f),
                    Ok(m4) => Ok(Matched { rest: m4.rest, start: pos, end: m4.rest }),
                },
            },
        },
    }
}

/// [24] VersionInfo ::= S 'version' Eq ("'" VersionNum "'" | '"' VersionNum '"')
pub fn VersionInfo(s: &[u8], pos: usize) -> (r: Scanned)
    requires
        pos <= s.len(),
    ensures
        r == spec_VersionInfo(s@, pos),
        well_placed(r, pos as int, s.len() as int),
{
    reveal(spec_VersionInfo);
    match multispace1(s, pos) {
        Err(f) => Err(f),
        Ok(m11) => match tag(s, m11.rest, &VERSION) {
            Err(f) => Err(f),
            Ok(m12) => match Eq(s, m12.rest) {
                Err(f) => Err(f),
                Ok(m13) => match { let r21 = match char_(s, m13.rest, 34u8) {
        Err(f) => Err(f),
        Ok(m15) => match VersionNum(s, m15.rest) {
            Err(f) => Err(f),
            Ok(m16) => match char_(s, m16.rest, 34u8) {
                Err(f) => Err(f),
                Ok(m17) => Ok(Matched { rest: m17.rest, start: m16.start, end: m16.end }),
            },
        },
    }; if is_mismatch(&r21) { match char_(s, m13.rest, 39u8) {
        Err(f) => Err(f),
        Ok(m18) => match VersionNum(s, m18.rest) {
            Err(f) => Err(f),
            Ok(m19) => match char_(s, m19.rest, 39u8) {
                Err(f) => Err(f),
                Ok(m20) => Ok(Matched { rest: m20.rest, start: m19.start, end: m19.end }),
            },
        },
    } } else { r21 } } {
                    Err(f) => Err(f),
                    Ok(m14) => Ok(Matched { rest: m14.rest, start: pos, end: m14.rest }),
                },
            },
        },
    }
}

/// [A-Za-z0-9._] | '-'
#[verifier::opaque]
pub open spec fn spec_encname_item(s: Seq<u8>, pos: usize) -> Scanned
{
    alt(spec_run1(s, pos, Class::AlphaNum, ErrorKind::AlphaNumeric), alt(spec_tag(s, pos, DASH@), alt(spec_tag(s, pos, DOT@), spec_tag(s, pos, UNDERSCORE@))))
}

/// [A-Za-z0-9._] | '-'
pub fn encname_item(s: &[u8], pos: usize) -> (r: Scanned)
    requires
        pos <= s.len(),
    ensures
        r == spec_encname_item(s@, pos),
        well_placed(r, pos as int, s.len() as int),
{
    reveal(spec_encname_item);
    { let r3 = run1(s, pos, Class::AlphaNum, ErrorKind::AlphaNumeric); if is_mismatch(&r3) { { let r2 = tag(s, pos, &DASH); if is_mismatch(&r2) { { let r1 = tag(s, pos, &DOT); if is_mismatch(&r1) { tag(s, pos, &UNDERSCORE) } else { r1 } } } else { r2 } } } else { r3 } }
}

/// ([A-Za-z0-9._] | '-')*
pub open spec fn spec_many0_encname(s: Seq<u8>, pos: usize) -> Scanned
    decreases s.len() - pos,
{
    match spec_encname_item(s, pos) {
        Err(Fail::Error(_, _)) => covers(pos, pos),
        Err(f) => Err(f),
        Ok(m) => if pos < m.rest && m.rest <= s.len() {
            recognize(pos, spec_many0_encname(s, m.rest))
        } else {
            Err(Fail::Error(pos, ErrorKind::Many0))
        },
    }
}

/// ([A-Za-z0-9._] | '-')*
pub fn many0_encname(s: &[u8], pos: usize) -> (r: Scanned)
    requires
        pos <= s.len(),
    ensures
        r == spec_many0_encname(s@, pos),
        well_placed(r, pos as int, s.len() as int),
{
    let mut i = pos;
    loop
        invariant
            pos <= i <= s.len(),
            spec_many0_encname(s@, pos) == recognize(pos, spec_many0_encname(s@, i)),
        decreases s.len() - i,
    {
        let step = encname_item(s, i);
        match step {
            Err(Fail::Error(_, _)) => {
                return Ok(Matched { rest: i, start: pos, end: i });
            }
            Err(f) => {
                return Err(f);
            }
            Ok(m) => {
                if i < m.rest && m.rest <= s.len() {
                    i = m.rest;
                } else {
                    return Err(Fail::Error(i, ErrorKind::Many0));
                }
            }
        }
    }
}

/// [81] EncName ::= [A-Za-z] ([A-Za-z0-9._] | '-')*
#[verifier::opaque]
pub open spec fn spec_EncName(s: Seq<u8>, pos: usize) -> Scanned
{
    match spec_run1(s, pos, Class::Alpha, ErrorKind::Alpha) {
        Err(f) => Err(f),
        Ok(m1) => match spec_many0_encname(s, m1.rest) {
            Err(f) => Err(f),
            Ok(m2) => Ok(Matched { rest: m2.rest, start: pos, end: m2.rest }),
        },
    }
}

/// [81] EncName ::= [A-Za-z] ([A-Za-z0-9._] | '-')*
pub fn EncName(s: &[u8], pos: usize) -> (r: Scanned)
    requires
        pos <= s.len(),
    ensures
        r == spec_EncName(s@, pos),
        well_placed(r, pos as int, s.len() as int),
{
    reveal(spec_EncName);
    match run1(s, pos, Class::Alpha, ErrorKind::Alpha) {
        Err(f) => Err(f),
        Ok(m3) => match many0_encname(s, m3.rest) {
            Err(f) => Err(f),
            Ok(m4) => Ok(Matched { rest: m4.rest, start: pos, end: m4.rest }),
        },
    }
}

/// [80] EncodingDecl ::= S 'encoding' Eq ('"' EncName '"' | "'" EncName "'" )
#[verifier::opaque]
pub open spec fn spec_EncodingDecl(s: Seq<u8>, pos: usize) -> Scanned
{
    match spec_multispace1(s, pos) {
        Err(f) => Err(f),
        Ok(m1) => match spec_tag(s, m1.rest, ENCODING@) {
            Err(f) => Err(f),
            Ok(m2) => match spec_Eq(s, m2.rest) {
                Err(f) => Err(f),
                Ok(m3) => match alt(match spec_char(s, m3.rest, 34u8) {
        Err(f) => Err(f),
        Ok(m5) => match spec_EncName(s, m5.rest) {
            Err(f) => Err(f),
            Ok(m6) => match spec_char(s, m6.rest, 34u8) {
                Err(f) => Err(f),
                Ok(m7) => Ok(Matched { rest: m7.rest, start: m6.start, end: m6.end }),
            },
        },
    }, match spec_char(s, m3.rest, 39u8) {
        Err(f) => Err(f),
        Ok(m8) => match spec_EncName(s, m8.rest) {
            Err(f) => Err(f),
            Ok(m9) => match spec_char(s, m9.rest, 39u8) {
                Err(f) => Err(f),
                Ok(m10) => Ok(Matched { rest: m10.rest, start: m9.start, end: m9.end }),
            },
        },
    }) {
                    Err(f) => Err(f),
                    Ok(m4) => Ok(Matched { rest: m4.rest, start: pos, end: m4.rest }),
                },
            },
        },
    }
}

/// [80] EncodingDecl ::= S 'encoding' Eq ('"' EncName '"' | "'" EncName "'" )
pub fn EncodingDecl(s: &[u8], pos: usize) -> (r: Scanned)
    requires
        pos <= s.len(),
    ensures
        r == spec_EncodingDecl(s@, pos),
        well_placed(r, pos as int, s.len() as int),
{
    reveal(spec_EncodingDecl);
    match multispace1(s, pos) {
        Err(f) => Err(f),
        Ok(m11) => match tag(s, m11.rest, &ENCODING) {
            Err(f) => Err(f),
            Ok(m12) => match Eq(s, m12.rest) {
                Err(f) => Err(f),
                Ok(m13) => match { let r21 = match char_(s, m13.rest, 34u8) {
        Err(f) => Err(f),
        Ok(m15) => match EncName(s, m15.rest) {
            Err(f) => Err(f),
            Ok(m16) => match char_(s, m16.rest, 34u8) {
                Err(f) => Err(f),
                Ok(m17) => Ok(Matched { rest: m17.rest, start: m16.start, end: m16.end }),
            },
        },
    }; if is_mismatch(&r21) { match char_(s, m13.rest, 39u8) {
        Err(f) => Err(f),
        Ok(m18) => match EncName(s, m18.rest) {
            Err(f) => Err(f),
            Ok(m19) => match char_(s, m19.rest, 39u8) {
                Err(f) => Err(f),
                Ok(m20) => Ok(Matched { rest: m20.rest, start: m19.start, end: m19.end }),
            },
        },
    } } else { r21 } } {
                    Err(f) => Err(f),
                    Ok(m14) => Ok(Matched { rest: m14.rest, start: pos, end: m14.rest }),
                },
            },
        },
    }
}

/// 'yes' | 'no'
#[verifier::opaque]
pub open spec fn spec_yes_mi_no_mu(s: Seq<u8>, pos: usize) -> Scanned
{
    alt(spec_tag(s, pos, YES@), spec_tag(s, pos, NO@))
}

/// 'yes' | 'no'
pub fn yes_mi_no_mu(s: &[u8], pos: usize) -> (r: Scanned)
    requires
        pos <= s.len(),
    ensures
        r == spec_yes_mi_no_mu(s@, pos),
        well_placed(r, pos as int, s.len() as int),
{
    reveal(spec_yes_mi_no_mu);
    { let r1 = tag(s, pos, &YES); if is_mismatch(&r1) { tag(s, pos, &NO) } else { r1 } }
}

/// [32] SDDecl ::= S 'standalone' Eq (("'" ('yes' | 'no') "'") | ('"' ('yes' | 'no') '"'))
#[verifier::opaque]
pub open spec fn spec_SDDecl(s: Seq<u8>, pos: usize) -> Scanned
{
    match spec_multispace1(s, pos) {
        Err(f) => Err(f),
        Ok(m1) => match spec_tag(s, m1.rest, STANDALONE@) {
            Err(f) => Err(f),
            Ok(m2) => match spec_Eq(s, m2.rest) {
                Err(f) => Err(f),
                Ok(m3) => match alt(match spec_char(s, m3.rest, 34u8) {
        Err(f) => Err(f),
        Ok(m5) => match spec_yes_mi_no_mu(s, m5.rest) {
            Err(f) => Err(f),
            Ok(m6) => match spec_char(s, m6.rest, 34u8) {
                Err(f) => Err(f),
                Ok(m7) => Ok(Matched { rest: m7.rest, start: m6.start, end: m6.end }),
            },
        },
    }, match spec_char(s, m3.rest, 39u8) {
        Err(f) => Err(f),
        Ok(m8) => match spec_yes_mi_no_mu(s, m8.rest) {
            Err(f) => Err(f),
            Ok(m9) => match spec_char(s, m9.rest, 39u8) {
                Err(f) => Err(f),
                Ok(m10) => Ok(Matched { rest: m10.rest, start: m9.start, end: m9.end }),
            },
        },
    }) {
                    Err(f) => Err(f),
                    Ok(m4) => Ok(Matched { rest: m4.rest, start: pos, end: m4.rest }),
                },
            },
        },
    }
}

/// [32] SDDecl ::= S 'standalone' Eq (("'" ('yes' | 'no') "'") | ('"' ('yes' | 'no') '"'))
pub fn SDDecl(s: &[u8], pos: usize) -> (r: Scanned)
    requires
        pos <= s.len(),
    ensures
        r == spec_SDDecl(s@, pos),
        well_placed(r, pos as int, s.len() as int),
{
    reveal(spec_SDDecl);
    match multispace1(s, pos) {
        Err(f) => Err(f),
        Ok(m11) => match tag(s, m11.rest, &STANDALONE) {
            Err(f) => Err(f),
            Ok(m12) => match Eq(s, m12.rest) {
                Err(f) => Err(f),
                Ok(m13) => match { let r21 = match char_(s, m13.rest, 34u8) {
        Err(f) => Err(f),
        Ok(m15) => match yes_mi_no_mu(s, m15.rest) {
            Err(f) => Err(f),
            Ok(m16) => match char_(s, m16.rest, 34u8) {
                Err(f) => Err(f),
                Ok(m17) => Ok(Matched { rest: m17.rest, start: m16.start, end: m16.end }),
            },
        },
    }; if is_mismatch(&r21) { match char_(s, m13.rest, 39u8) {
        Err(f) => Err(f),
        Ok(m18) => match yes_mi_no_mu(s, m18.rest) {
            Err(f) => Err(f),
            Ok(m19) => match char_(s, m19.rest, 39u8) {
                Err(f) => Err(f),
                Ok(m20) => Ok(Matched { rest: m20.rest, start: m19.start, end: m19.end }),
            },
        },
    } } else { r21 } } {
                    Err(f) => Err(f),
                    Ok(m14) => Ok(Matched { rest: m14.rest, start: pos, end: m14.rest }),
                },
            },
        },
    }
}

/// [23] XMLDecl ::= '<?xml' VersionInfo EncodingDecl? SDDecl? S? '?>'
#[verifier::opaque]
pub open spec fn spec_XMLDecl(s: Seq<u8>, pos: usize) -> Scanned
{
    match spec_tag(s, pos, LT_QUESTION_XML@) {
        Err(f) => Err(f),
        Ok(m1) => match spec_VersionInfo(s, m1.rest) {
            Err(f) => Err(f),
            Ok(m2) => match opt(m2.rest, spec_EncodingDecl(s, m2.rest)) {
                Err(f) => Err(f),
                Ok(m3) => match opt(m3.rest, spec_SDDecl(s, m3.rest)) {
                    Err(f) => Err(f),
                    Ok(m4) => match spec_multispace0(s, m4.rest) {
                        Err(f) => Err(f),
                        Ok(m5) => match spec_tag(s, m5.rest, QUESTION_GT@) {
                            Err(f) => Err(f),
                            Ok(m6) => Ok(Matched { rest: m6.rest, start: pos, end: m6.rest }),
                        },
                    },
                },
            },
        },
    }
}

/// [23] XMLDecl ::= '<?xml' VersionInfo EncodingDecl? SDDecl? S? '?>'
pub fn XMLDecl(s: &[u8], pos: usize) -> (r: Scanned)
    requires
        pos <= s.len(),
    ensures
        r == spec_XMLDecl(s@, pos),
        well_placed(r, pos as int, s.len() as int),
{
    reveal(spec_XMLDecl);
    match tag(s, pos, &LT_QUESTION_XML) {
        Err(f) => Err(f),
        Ok(m7) => match VersionInfo(s, m7.rest) {
            Err(f) => Err(f),
            Ok(m8) => match optional(m8.rest, EncodingDecl(s, m8.rest)) {
                Err(f) => Err(f),
                Ok(m9) => match optional(m9.rest, SDDecl(s, m9.rest)) {
                    Err(f) => Err(f),
                    Ok(m10) => match multispace0(s, m10.rest) {
                        Err(f) => Err(f),
                        Ok(m11) => match tag(s, m11.rest, &QUESTION_GT) {
                            Err(f) => Err(f),
                            Ok(m12) => Ok(Matched { rest: m12.rest, start: pos, end: m12.rest }),
                        },
                    },
                },
            },
        },
    }
}

/// '<!--'
#[verifier::opaque]
pub open spec fn spec_Comment_start(s: Seq<u8>, pos: usize) -> Scanned
{
    spec_tag(s, pos, LT_BANG_DASH_DASH@)
}

/// '<!--'
pub fn Comment_start(s: &[u8], pos: usize) -> (r: Scanned)
    requires
        pos <= s.len(),
    ensures
        r == spec_Comment_start(s@, pos),
        well_placed(r, pos as int, s.len() as int),
{
    reveal(spec_Comment_start);
    tag(s, pos, &LT_BANG_DASH_DASH)
}

/// '-->'
#[verifier::opaque]
pub open spec fn spec_Comment_end(s: Seq<u8>, pos: usize) -> Scanned
{
    spec_tag(s, pos, DASH_DASH_GT@)
}

/// '-->'
pub fn Comment_end(s: &[u8], pos: usize) -> (r: Scanned)
    requires
        pos <= s.len(),
    ensures
        r == spec_Comment_end(s@, pos),
        well_placed(r, pos as int, s.len() as int),
{
    reveal(spec_Comment_end);
    tag(s, pos, &DASH_DASH_GT)
}

/// comment characters, up to the end of the data
pub open spec fn spec_many0_comment(s: Seq<u8>, pos: usize) -> Scanned
    decreases s.len() - pos,
{
    match spec_inside_Comment_single(s, pos) {
        Err(Fail::Error(_, _)) => covers(pos, pos),
        Err(f) => covers(pos, pos),
        Ok(m) => if pos < m.rest && m.rest <= s.len() {
            recognize(pos, spec_many0_comment(s, m.rest))
        } else {
            Err(Fail::Error(pos, ErrorKind::Many0))
        },
    }
}

/// comment characters, up to the end of the data
pub fn many0_comment(s: &[u8], pos: usize) -> (r: Scanned)
    requires
        pos <= s.len(),
    ensures
        r == spec_many0_comment(s@, pos),
        well_placed(r, pos as int, s.len() as int),
{
    let mut i = pos;
    loop
        invariant
            pos <= i <= s.len(),
            spec_many0_comment(s@, pos) == recognize(pos, spec_many0_comment(s@, i)),
        decreases s.len() - i,
    {
        let step = inside_Comment_single(s, i);
        match step {
            Err(Fail::Error(_, _)) => {
                return Ok(Matched { rest: i, start: pos, end: i });
            }
            Err(f) => {
                return Ok(Matched { rest: i, start: pos, end: i });
            }
            Ok(m) => {
                if i < m.rest && m.rest <= s.len() {
                    i = m.rest;
                } else {
                    return Err(Fail::Error(i, ErrorKind::Many0));
                }
            }
        }
    }
}

/// [15] Comment ::= '<!--' ((Char - '-') | ('-' (Char - '-')))* '-->'
#[verifier::opaque]
pub open spec fn spec_Comment(s: Seq<u8>, pos: usize) -> Scanned
{
    match spec_Comment_start(s, pos) {
        Err(f) => Err(f),
        Ok(m1) => match spec_many0_comment(s, m1.rest) {
            Err(f) => Err(f),
            Ok(m2) => match spec_Comment_end(s, m2.rest) {
                Err(f) => Err(f),
                Ok(m3) => Ok(Matched { rest: m3.rest, start: pos, end: m3.rest }),
            },
        },
    }
}

/// [15] Comment ::= '<!--' ((Char - '-') | ('-' (Char - '-')))* '-->'
pub fn Comment(s: &[u8], pos: usize) -> (r: Scanned)
    requires
        pos <= s.len(),
    ensures
        r == spec_Comment(s@, pos),
        well_placed(r, pos as int, s.len() as int),
{
    reveal(spec_Comment);
    match Comment_start(s, pos) {
        Err(f) => Err(f),
        Ok(m4) => match many0_comment(s, m4.rest) {
            Err(f) => Err(f),
            Ok(m5) => match Comment_end(s, m5.rest) {
                Err(f) => Err(f),
                Ok(m6) => Ok(Matched { rest: m6.rest, start: pos, end: m6.rest }),
            },
        },
    }
}

/// [19] CDStart ::= '<![CDATA['
#[verifier::opaque]
pub open spec fn spec_CDATASection_start(s: Seq<u8>, pos: usize) -> Scanned
{
    spec_tag(s, pos, LT_BANG_LBRACKET_CDATA_LBRACKET@)
}

/// [19] CDStart ::= '<![CDATA['
pub fn CDATASection_start(s: &[u8], pos: usize) -> (r: Scanned)
    requires
        pos <= s.len(),
    ensures
        r == spec_CDATASection_start(s@, pos),
        well_placed(r, pos as int, s.len() as int),
{
    reveal(spec_CDATASection_start);
    tag(s, pos, &LT_BANG_LBRACKET_CDATA_LBRACKET)
}

/// [21] CDEnd ::= ']]>'
#[verifier::opaque]
pub open spec fn spec_CDATASection_end(s: Seq<u8>, pos: usize) -> Scanned
{
    spec_tag(s, pos, RBRACKET_RBRACKET_GT@)
}

/// [21] CDEnd ::= ']]>'
pub fn CDATASection_end(s: &[u8], pos: usize) -> (r: Scanned)
    requires
        pos <= s.len(),
    ensures
        r == spec_CDATASection_end(s@, pos),
        well_placed(r, pos as int, s.len() as int),
{
    reveal(spec_CDATASection_end);
    tag(s, pos, &RBRACKET_RBRACKET_GT)
}

/// CDATA characters, up to the end of the data
pub open spec fn spec_many0_cdata(s: Seq<u8>, pos: usize) -> Scanned
    decreases s.len() - pos,
{
    match spec_inside_CDATASection_single(s, pos) {
        Err(Fail::Error(_, _)) => covers(pos, pos),
        Err(f) => covers(pos, pos),
        Ok(m) => if pos < m.rest && m.rest <= s.len() {
            recognize(pos, spec_many0_cdata(s, m.rest))
        } else {
            Err(Fail::Error(pos, ErrorKind::Many0))
        },
    }
}

/// CDATA characters, up to the end of the data
pub fn many0_cdata(s: &[u8], pos: usize) -> (r: Scanned)
    requires
        pos <= s.len(),
    ensures
        r == spec_many0_cdata(s@, pos),
        well_placed(r, pos as int, s.len() as int),
{
    let mut i = pos;
    loop
        invariant
            pos <= i <= s.len(),
            spec_many0_cdata(s@, pos) == recognize(pos, spec_many0_cdata(s@, i)),
        decreases s.len() - i,
    {
        let step = inside_CDATASection_single(s, i);
        match step {
            Err(Fail::Error(_, _)) => {
                return Ok(Matched { rest: i, start: pos, end: i });
            }
            Err(f) => {
                return Ok(Matched { rest: i, start: pos, end: i });
            }
            Ok(m) => {
                if i < m.rest && m.rest <= s.len() {
                    i = m.rest;
                } else {
                    return Err(Fail::Error(i, ErrorKind::Many0));
                }
            }
        }
    }
}

/// [18] CDSect ::= CDStart CData CDEnd
#[verifier::opaque]
pub open spec fn spec_CDATASection(s: Seq<u8>, pos: usize) -> Scanned
{
    match spec_CDATASection_start(s, pos) {
        Err(f) => Err(f),
        Ok(m1) => match spec_many0_cdata(s, m1.rest) {
            Err(f) => Err(f),
            Ok(m2) => match spec_CDATASection_end(s, m2.rest) {
                Err(f) => Err(f),
                Ok(m3) => Ok(Matched { rest: m3.rest, start: pos, end: m3.rest }),
            },
        },
    }
}

/// [18] CDSect ::= CDStart CData CDEnd
pub fn CDATASection(s: &[u8], pos: usize) -> (r: Scanned)
    requires
        pos <= s.len(),
    ensures
        r == spec_CDATASection(s@, pos),
        well_placed(r, pos as int, s.len() as int),
{
    reveal(spec_CDATASection);
    match CDATASection_start(s, pos) {
        Err(f) => Err(f),
        Ok(m4) => match many0_cdata(s, m4.rest) {
            Err(f) => Err(f),
            Ok(m5) => match CDATASection_end(s, m5.rest) {
                Err(f) => Err(f),
                Ok(m6) => Ok(Matched { rest: m6.rest, start: pos, end: m6.rest }),
            },
        },
    }
}

/// '<?'
#[verifier::opaque]
pub open spec fn spec_PI_start(s: Seq<u8>, pos: usize) -> Scanned
{
    spec_tag(s, pos, LT_QUESTION@)
}

/// '<?'
pub fn PI_start(s: &[u8], pos: usize) -> (r: Scanned)
    requires
        pos <= s.len(),
    ensures
        r == spec_PI_start(s@, pos),
        well_placed(r, pos as int, s.len() as int),
{
    reveal(spec_PI_start);
    tag(s, pos, &LT_QUESTION)
}

/// '?>'
#[verifier::opaque]
pub open spec fn spec_PI_end(s: Seq<u8>, pos: usize) -> Scanned
{
    spec_tag(s, pos, QUESTION_GT@)
}

/// '?>'
pub fn PI_end(s: &[u8], pos: usize) -> (r: Scanned)
    requires
        pos <= s.len(),
    ensures
        r == spec_PI_end(s@, pos),
        well_placed(r, pos as int, s.len() as int),
{
    reveal(spec_PI_end);
    tag(s, pos, &QUESTION_GT)
}

/// processing instruction characters, up to the end of the data
pub open spec fn spec_many0_pi(s: Seq<u8>, pos: usize) -> Scanned
    decreases s.len() - pos,
{
    match spec_inside_PI_single(s, pos) {
        Err(Fail::Error(_, _)) => covers(pos, pos),
        Err(f) => covers(pos, pos),
        Ok(m) => if pos < m.rest && m.rest <= s.len() {
            recognize(pos, spec_many0_pi(s, m.rest))
        } else {
            Err(Fail::Error(pos, ErrorKind::Many0))
        },
    }
}

/// processing instruction characters, up to the end of the data
pub fn many0_pi(s: &[u8], pos: usize) -> (r: Scanned)
    requires
        pos <= s.len(),
    ensures
        r == spec_many0_pi(s@, pos),
        well_placed(r, pos as int, s.len() as int),
{
    let mut i = pos;
    loop
        invariant
            pos <= i <= s.len(),
            spec_many0_pi(s@, pos) == recognize(pos, spec_many0_pi(s@, i)),
        decreases s.len() - i,
    {
        let step = inside_PI_single(s, i);
        match step {
            Err(Fail::Error(_, _)) => {
                return Ok(Matched { rest: i, start: pos, end: i });
            }
            Err(f) => {
                return Ok(Matched { rest: i, start: pos, end: i });
            }
            Ok(m) => {
                if i < m.rest && m.rest <= s.len() {
                    i = m.rest;
                } else {
                    return Err(Fail::Error(i, ErrorKind::Many0));
                }
            }
        }
    }
}

/// [16] PI ::= '<?' PITarget (S (Char* - (Char* '?>' Char*)))? '?>' (the inside is taken as characters only)
#[verifier::opaque]
pub open spec fn spec_PI(s: Seq<u8>, pos: usize) -> Scanned
{
    match spec_PI_start(s, pos) {
        Err(f) => Err(f),
        Ok(m1) => match spec_many0_pi(s, m1.rest) {
            Err(f) => Err(f),
            Ok(m2) => match spec_PI_end(s, m2.rest) {
                Err(f) => Err(f),
                Ok(m3) => Ok(Matched { rest: m3.rest, start: pos, end: m3.rest }),
            },
        },
    }
}

/// [16] PI ::= '<?' PITarget (S (Char* - (Char* '?>' Char*)))? '?>' (the inside is taken as characters only)
pub fn PI(s: &[u8], pos: usize) -> (r: Scanned)
    requires
        pos <= s.len(),
    ensures
        r == spec_PI(s@, pos),
        well_placed(r, pos as int, s.len() as int),
{
    reveal(spec_PI);
    match PI_start(s, pos) {
        Err(f) => Err(f),
        Ok(m4) => match many0_pi(s, m4.rest) {
            Err(f) => Err(f),
            Ok(m5) => match PI_end(s, m5.rest) {
                Err(f) => Err(f),
                Ok(m6) => Ok(Matched { rest: m6.rest, start: pos, end: m6.rest }),
            },
        },
    }
}

/// [4] NCName ::= Name - (Char* ':' Char*)
#[verifier::opaque]
pub open spec fn spec_nc_name(s: Seq<u8>, pos: usize) -> Scanned
{
    match spec_one_char(s, pos, CharClass::NcNameStart) {
        Err(f) => Err(f),
        Ok(m1) => match spec_many0_nc_namechar(s, m1.rest) {
            Err(f) => Err(f),
            Ok(m2) => Ok(Matched { rest: m2.rest, start: pos, end: m2.rest }),
        },
    }
}

/// [4] NCName ::= Name - (Char* ':' Char*)
pub fn nc_name(s: &[u8], pos: usize) -> (r: Scanned)
    requires
        pos <= s.len(),
    ensures
        r == spec_nc_name(s@, pos),
        well_placed(r, pos as int, s.len() as int),
{
    reveal(spec_nc_name);
    match one_char(s, pos, CharClass::NcNameStart) {
        Err(f) => Err(f),
        Ok(m3) => match many0_nc_namechar(s, m3.rest) {
            Err(f) => Err(f),
            Ok(m4) => Ok(Matched { rest: m4.rest, start: pos, end: m4.rest }),
        },
    }
}

/// NCNameChar*, up to the end of the data
pub open spec fn spec_many0_nc_namechar(s: Seq<u8>, pos: usize) -> Scanned
    decreases s.len() - pos,
{
    match spec_one_char(s, pos, CharClass::NcName) {
        Err(Fail::Error(_, _)) => covers(pos, pos),
        Err(f) => covers(pos, pos),
        Ok(m) => if pos < m.rest && m.rest <= s.len() {
            recognize(pos, spec_many0_nc_namechar(s, m.rest))
        } else {
            Err(Fail::Error(pos, ErrorKind::Many0))
        },
    }
}

/// NCNameChar*, up to the end of the data
pub fn many0_nc_namechar(s: &[u8], pos: usize) -> (r: Scanned)
    requires
        pos <= s.len(),
    ensures
        r == spec_many0_nc_namechar(s@, pos),
        well_placed(r, pos as int, s.len() as int),
{
    let mut i = pos;
    loop
        invariant
            pos <= i <= s.len(),
            spec_many0_nc_namechar(s@, pos) == recognize(pos, spec_many0_nc_namechar(s@, i)),
        decreases s.len() - i,
    {
        let step = one_char(s, i, CharClass::NcName);
        match step {
            Err(Fail::Error(_, _)) => {
                return Ok(Matched { rest: i, start: pos, end: i });
            }
            Err(f) => {
                return Ok(Matched { rest: i, start: pos, end: i });
            }
            Ok(m) => {
                if i < m.rest && m.rest <= s.len() {
                    i = m.rest;
                } else {
                    return Err(Fail::Error(i, ErrorKind::Many0));
                }
            }
        }
    }
}

/// [40] STag ::= '<' Name (S Attribute)* S? '>'
#[verifier::opaque]
pub open spec fn spec_STag(s: Seq<u8>, pos: usize) -> Parsed<StartElement>
{
    match spec_char(s, pos, 60u8) {
        Err(f) => Err(f),
        Ok(m1) => match spec_name(s, m1.rest) {
            Err(f) => Err(f),
            Ok(m2) => match spec_many0_stag_attributes(s, m2.rest) {
                Err(f) => Err(f),
                Ok(m3) => match spec_multispace0(s, m3.rest) {
                    Err(f) => Err(f),
                    Ok(m4) => match spec_char(s, m4.rest, 62u8) {
                        Err(f) => Err(f),
                        Ok(m5) => Ok((m5.rest, StartElement { name: Range { start: m2.start, end: m2.end }, attributes_chunk: Range { start: m3.start, end: m3.end } })),
                    },
                },
            },
        },
    }
}

/// [40] STag ::= '<' Name (S Attribute)* S? '>'
pub fn STag(s: &[u8], pos: usize) -> (r: Parsed<StartElement>)
    requires
        pos <= s.len(),
    ensures
        r == spec_STag(s@, pos),
        placed(r, pos as int, s.len() as int),
        r matches Ok((rest, e)) ==> pos <= e.name.start <= e.name.end <= e.attributes_chunk.start <= e.attributes_chunk.end <= rest,
{
    reveal(spec_STag);
    match char_(s, pos, 60u8) {
        Err(f) => Err(f),
        Ok(m6) => match name(s, m6.rest) {
            Err(f) => Err(f),
            Ok(m7) => match many0_stag_attributes(s, m7.rest) {
                Err(f) => Err(f),
                Ok(m8) => match multispace0(s, m8.rest) {
                    Err(f) => Err(f),
                    Ok(m9) => match char_(s, m9.rest, 62u8) {
                        Err(f) => Err(f),
                        Ok(m10) => Ok((m10.rest, StartElement { name: Range { start: m7.start, end: m7.end }, attributes_chunk: Range { start: m8.start, end: m8.end } })),
                    },
                },
            },
        },
    }
}

/// [44] EmptyElemTag ::= '<' Name (S Attribute)* S? '/>'
#[verifier::opaque]
pub open spec fn spec_EmptyElemTag(s: Seq<u8>, pos: usize) -> Parsed<StartElement>
{
    match spec_char(s, pos, 60u8) {
        Err(f) => Err(f),
        Ok(m1) => match spec_name(s, m1.rest) {
            Err(f) => Err(f),
            Ok(m2) => match spec_many0_stag_attributes(s, m2.rest) {
                Err(f) => Err(f),
                Ok(m3) => match spec_multispace0(s, m3.rest) {
                    Err(f) => Err(f),
                    Ok(m4) => match spec_tag(s, m4.rest, SLASH_GT@) {
                        Err(f) => Err(f),
                        Ok(m5) => Ok((m5.rest, StartElement { name: Range { start: m2.start, end: m2.end }, attributes_chunk: Range { start: m3.start, end: m3.end } })),
                    },
                },
            },
        },
    }
}

/// [44] EmptyElemTag ::= '<' Name (S Attribute)* S? '/>'
pub fn EmptyElemTag(s: &[u8], pos: usize) -> (r: Parsed<StartElement>)
    requires
        pos <= s.len(),
    ensures
        r == spec_EmptyElemTag(s@, pos),
        placed(r, pos as int, s.len() as int),
        r matches Ok((rest, e)) ==> pos <= e.name.start <= e.name.end <= e.attributes_chunk.start <= e.attributes_chunk.end <= rest,
{
    reveal(spec_EmptyElemTag);
    match char_(s, pos, 60u8) {
        Err(f) => Err(f),
        Ok(m6) => match name(s, m6.rest) {
            Err(f) => Err(f),
            Ok(m7) => match many0_stag_attributes(s, m7.rest) {
                Err(f) => Err(f),
                Ok(m8) => match multispace0(s, m8.rest) {
                    Err(f) => Err(f),
                    Ok(m9) => match tag(s, m9.rest, &SLASH_GT) {
                        Err(f) => Err(f),
                        Ok(m10) => Ok((m10.rest, StartElement { name: Range { start: m7.start, end: m7.end }, attributes_chunk: Range { start: m8.start, end: m8.end } })),
                    },
                },
            },
        },
    }
}

/// [42] ETag ::= '</' Name S? '>'
#[verifier::opaque]
pub open spec fn spec_ETag(s: Seq<u8>, pos: usize) -> Parsed<EndElement>
{
    match spec_tag(s, pos, LT_SLASH@) {
        Err(f) => Err(f),
        Ok(m1) => match spec_name(s, m1.rest) {
            Err(f) => Err(f),
            Ok(m2) => match spec_multispace0(s, m2.rest) {
                Err(f) => Err(f),
                Ok(m3) => match spec_char(s, m3.rest, 62u8) {
                    Err(f) => Err(f),
                    Ok(m4) => Ok((m4.rest, EndElement { name: Range { start: m2.start, end: m2.end } })),
                },
            },
        },
    }
}

/// [42] ETag ::= '</' Name S? '>'
pub fn ETag(s: &[u8], pos: usize) -> (r: Parsed<EndElement>)
    requires
        pos <= s.len(),
    ensures
        r == spec_ETag(s@, pos),
        placed(r, pos as int, s.len() as int),
        r matches Ok((rest, e)) ==> pos <= e.name.start <= e.name.end <= rest,
{
    reveal(spec_ETag);
    match tag(s, pos, &LT_SLASH) {
        Err(f) => Err(f),
        Ok(m5) => match name(s, m5.rest) {
            Err(f) => Err(f),
            Ok(m6) => match multispace0(s, m6.rest) {
                Err(f) => Err(f),
                Ok(m7) => match char_(s, m7.rest, 62u8) {
                    Err(f) => Err(f),
                    Ok(m8) => Ok((m8.rest, EndElement { name: Range { start: m6.start, end: m6.end } })),
                },
            },
        },
    }
}

/// [41] Attribute ::= Name Eq AttValue
#[verifier::opaque]
pub open spec fn spec_Attribute(s: Seq<u8>, pos: usize) -> Parsed<SAXAttribute>
{
    match spec_name(s, pos) {
        Err(f) => Err(f),
        Ok(m1) => match spec_Eq(s, m1.rest) {
            Err(f) => Err(f),
            Ok(m2) => match spec_AttValue(s, m2.rest) {
                Err(f) => Err(f),
                Ok(m3) => Ok((m3.rest, SAXAttribute { value: Range { start: m3.start, end: m3.end }, qualified_name: Range { start: m1.start, end: m1.end } })),
            },
        },
    }
}

/// [41] Attribute ::= Name Eq AttValue
pub fn Attribute(s: &[u8], pos: usize) -> (r: Parsed<SAXAttribute>)
    requires
        pos <= s.len(),
    ensures
        r == spec_Attribute(s@, pos),
        placed(r, pos as int, s.len() as int),
        r matches Ok((rest, a)) ==> pos <= a.qualified_name.start <= a.qualified_name.end <= a.value.start <= a.value.end <= rest,
{
    reveal(spec_Attribute);
    match name(s, pos) {
        Err(f) => Err(f),
        Ok(m4) => match Eq(s, m4.rest) {
            Err(f) => Err(f),
            Ok(m5) => match AttValue(s, m5.rest) {
                Err(f) => Err(f),
                Ok(m6) => Ok((m6.rest, SAXAttribute { value: Range { start: m6.start, end: m6.end }, qualified_name: Range { start: m4.start, end: m4.end } })),
            },
        },
    }
}

/// White space and one [41] Attribute ::= Name Eq AttValue, handed back as the places of its name and value
#[verifier::opaque]
pub open spec fn spec_Attribute2(s: Seq<u8>, pos: usize) -> Parsed<AttributeRange>
{
    match spec_multispace0(s, pos) {
        Err(f) => Err(f),
        Ok(m1) => match spec_name(s, m1.rest) {
            Err(f) => Err(f),
            Ok(m2) => match spec_Eq(s, m2.rest) {
                Err(f) => Err(f),
                Ok(m3) => match spec_AttValue(s, m3.rest) {
                    Err(f) => Err(f),
                    Ok(m4) => Ok((m4.rest, AttributeRange { value: Range { start: m4.start, end: m4.end }, name: Range { start: m2.start, end: m2.end }, local_name: Range { start: 0, end: 0 }, prefix: Range { start: 0, end: 0 }, namespace: Range { start: 0, end: 0 } })),
                },
            },
        },
    }
}

/// White space and one [41] Attribute ::= Name Eq AttValue, handed back as the places of its name and value
pub fn Attribute2(s: &[u8], pos: usize) -> (r: Parsed<AttributeRange>)
    requires
        pos <= s.len(),
    ensures
        r == spec_Attribute2(s@, pos),
        placed(r, pos as int, s.len() as int),
        r matches Ok((rest, a)) ==> pos <= a.name.start <= a.name.end <= a.value.start <= a.value.end <= rest && a.local_name == (Range { start: 0usize, end: 0usize }) && a.prefix == (Range { start: 0usize, end: 0usize }) && a.namespace == (Range { start: 0usize, end: 0usize }),
{
    reveal(spec_Attribute2);
    match multispace0(s, pos) {
        Err(f) => Err(f),
        Ok(m5) => match name(s, m5.rest) {
            Err(f) => Err(f),
            Ok(m6) => match Eq(s, m6.rest) {
                Err(f) => Err(f),
                Ok(m7) => match AttValue(s, m7.rest) {
                    Err(f) => Err(f),
                    Ok(m8) => Ok((m8.rest, AttributeRange { value: Range { start: m8.start, end: m8.end }, name: Range { start: m6.start, end: m6.end }, local_name: Range { start: 0, end: 0 }, prefix: Range { start: 0, end: 0 }, namespace: Range { start: 0, end: 0 } })),
                },
            },
        },
    }
}

/// [43] content ::= CharData? ((element | Reference | CDSect | PI | Comment) CharData?)*, taken one piece at a time: character data, a start, empty-element or end tag, a reference, the start of a CDATA section or comment, or a processing instruction
#[verifier::opaque]
pub open spec fn spec_content_relaxed(s: Seq<u8>, pos: usize) -> Parsed<ContentRelaxed> {
    match spec_CharData(s, pos) {
        Ok(m) => Ok((m.rest, ContentRelaxed::CharData(Range { start: m.start, end: m.end }))),
        Err(Fail::Incomplete(n)) => Err(Fail::Incomplete(n)),
        Err(Fail::Error(_, _)) => match spec_STag(s, pos) {
        Ok((rest, v)) => Ok((rest, ContentRelaxed::StartElement(v))),
        Err(Fail::Incomplete(n)) => Err(Fail::Incomplete(n)),
        Err(Fail::Error(_, _)) => match spec_EmptyElemTag(s, pos) {
        Ok((rest, v)) => Ok((rest, ContentRelaxed::EmptyElemTag(v))),
        Err(Fail::Incomplete(n)) => Err(Fail::Incomplete(n)),
        Err(Fail::Error(_, _)) => match spec_ETag(s, pos) {
        Ok((rest, v)) => Ok((rest, ContentRelaxed::EndElement(v))),
        Err(Fail::Incomplete(n)) => Err(Fail::Incomplete(n)),
        Err(Fail::Error(_, _)) => match spec_Reference(s, pos) {
        Ok(m) => Ok((m.rest, ContentRelaxed::Reference(Reference { initial: Range { start: m.start, end: m.end } }))),
        Err(Fail::Incomplete(n)) => Err(Fail::Incomplete(n)),
        Err(Fail::Error(_, _)) => match spec_CDATASection_start(s, pos) {
        Ok(m) => Ok((m.rest, ContentRelaxed::CdataStart)),
        Err(Fail::Incomplete(n)) => Err(Fail::Incomplete(n)),
        Err(Fail::Error(_, _)) => match spec_Comment_start(s, pos) {
        Ok(m) => Ok((m.rest, ContentRelaxed::CommentStart)),
        Err(Fail::Incomplete(n)) => Err(Fail::Incomplete(n)),
        Err(Fail::Error(_, _)) => match spec_PI(s, pos) {
        Ok(m) => Ok((m.rest, ContentRelaxed::PI(Range { start: m.start, end: m.end }))),
        Err(Fail::Incomplete(n)) => Err(Fail::Incomplete(n)),
        Err(Fail::Error(p, k)) => Err(Fail::Error(p, k)),
    },
    },
    },
    },
    },
    },
    },
    }
}

/// [43] content ::= CharData? ((element | Reference | CDSect | PI | Comment) CharData?)*, taken one piece at a time: character data, a start, empty-element or end tag, a reference, the start of a CDATA section or comment, or a processing instruction
pub fn content_relaxed(s: &[u8], pos: usize) -> (r: Parsed<ContentRelaxed>)
    requires
        pos <= s.len(),
    ensures
        r == spec_content_relaxed(s@, pos),
        placed(r, pos as int, s.len() as int),
        r matches Ok((rest, v)) ==> content_within(v, pos as int, rest as int),
{
    reveal(spec_content_relaxed);
    match CharData(s, pos) {
        Ok(m) => Ok((m.rest, ContentRelaxed::CharData(Range { start: m.start, end: m.end }))),
        Err(Fail::Incomplete(n)) => Err(Fail::Incomplete(n)),
        Err(Fail::Error(_, _)) => match STag(s, pos) {
        Ok((rest, v)) => Ok((rest, ContentRelaxed::StartElement(v))),
        Err(Fail::Incomplete(n)) => Err(Fail::Incomplete(n)),
        Err(Fail::Error(_, _)) => match EmptyElemTag(s, pos) {
        Ok((rest, v)) => Ok((rest, ContentRelaxed::EmptyElemTag(v))),
        Err(Fail::Incomplete(n)) => Err(Fail::Incomplete(n)),
        Err(Fail::Error(_, _)) => match ETag(s, pos) {
        Ok((rest, v)) => Ok((rest, ContentRelaxed::EndElement(v))),
        Err(Fail::Incomplete(n)) => Err(Fail::Incomplete(n)),
        Err(Fail::Error(_, _)) => match Reference(s, pos) {
        Ok(m) => Ok((m.rest, ContentRelaxed::Reference(Reference { initial: Range { start: m.start, end: m.end } }))),
        Err(Fail::Incomplete(n)) => Err(Fail::Incomplete(n)),
        Err(Fail::Error(_, _)) => match CDATASection_start(s, pos) {
        Ok(m) => Ok((m.rest, ContentRelaxed::CdataStart)),
        Err(Fail::Incomplete(n)) => Err(Fail::Incomplete(n)),
        Err(Fail::Error(_, _)) => match Comment_start(s, pos) {
        Ok(m) => Ok((m.rest, ContentRelaxed::CommentStart)),
        Err(Fail::Incomplete(n)) => Err(Fail::Incomplete(n)),
        Err(Fail::Error(_, _)) => match PI(s, pos) {
        Ok(m) => Ok((m.rest, ContentRelaxed::PI(Range { start: m.start, end: m.end }))),
        Err(Fail::Incomplete(n)) => Err(Fail::Incomplete(n)),
        Err(Fail::Error(p, k)) => Err(Fail::Error(p, k)),
    },
    },
    },
    },
    },
    },
    },
    }
}

/// Comment characters, at least one
#[verifier::opaque]
pub open spec fn spec_insidecomment_characters(s: Seq<u8>, pos: usize) -> Scanned
{
    match spec_inside_Comment_single(s, pos) {
        Err(f) => Err(f),
        Ok(m1) => match spec_many0_comment(s, m1.rest) {
            Err(f) => Err(f),
            Ok(m2) => Ok(Matched { rest: m2.rest, start: pos, end: m2.rest }),
        },
    }
}

/// Comment characters, at least one
pub fn insidecomment_characters(s: &[u8], pos: usize) -> (r: Scanned)
    requires
        pos <= s.len(),
    ensures
        r == spec_insidecomment_characters(s@, pos),
        well_placed(r, pos as int, s.len() as int),
{
    reveal(spec_insidecomment_characters);
    match inside_Comment_single(s, pos) {
        Err(f) => Err(f),
        Ok(m3) => match many0_comment(s, m3.rest) {
            Err(f) => Err(f),
            Ok(m4) => Ok(Matched { rest: m4.rest, start: pos, end: m4.rest }),
        },
    }
}

/// Inside a comment: characters of it, or its end
#[verifier::opaque]
pub open spec fn spec_insidecomment(s: Seq<u8>, pos: usize) -> Parsed<InsideComment> {
    match spec_insidecomment_characters(s, pos) {
        Ok(m) => Ok((m.rest, InsideComment::Characters(Range { start: m.start, end: m.end }))),
        Err(Fail::Incomplete(n)) => Err(Fail::Incomplete(n)),
        Err(Fail::Error(_, _)) => match spec_Comment_end(s, pos) {
        Ok(m) => Ok((m.rest, InsideComment::CommentEnd)),
        Err(Fail::Incomplete(n)) => Err(Fail::Incomplete(n)),
        Err(Fail::Error(p, k)) => Err(Fail::Error(p, k)),
    },
    }
}

/// Inside a comment: characters of it, or its end
pub fn insidecomment(s: &[u8], pos: usize) -> (r: Parsed<InsideComment>)
    requires
        pos <= s.len(),
    ensures
        r == spec_insidecomment(s@, pos),
        placed(r, pos as int, s.len() as int),
        r matches Ok((rest, v)) ==> comment_within(v, pos as int, rest as int),
{
    reveal(spec_insidecomment);
    match insidecomment_characters(s, pos) {
        Ok(m) => Ok((m.rest, InsideComment::Characters(Range { start: m.start, end: m.end }))),
        Err(Fail::Incomplete(n)) => Err(Fail::Incomplete(n)),
        Err(Fail::Error(_, _)) => match Comment_end(s, pos) {
        Ok(m) => Ok((m.rest, InsideComment::CommentEnd)),
        Err(Fail::Incomplete(n)) => Err(Fail::Incomplete(n)),
        Err(Fail::Error(p, k)) => Err(Fail::Error(p, k)),
    },
    }
}

/// CDATA characters, at least one
#[verifier::opaque]
pub open spec fn spec_insidecdata_characters(s: Seq<u8>, pos: usize) -> Scanned
{
    match spec_inside_CDATASection_single(s, pos) {
        Err(f) => Err(f),
        Ok(m1) => match spec_many0_cdata(s, m1.rest) {
            Err(f) => Err(f),
            Ok(m2) => Ok(Matched { rest: m2.rest, start: pos, end: m2.rest }),
        },
    }
}

/// CDATA characters, at least one
pub fn insidecdata_characters(s: &[u8], pos: usize) -> (r: Scanned)
    requires
        pos <= s.len(),
    ensures
        r == spec_insidecdata_characters(s@, pos),
        well_placed(r, pos as int, s.len() as int),
{
    reveal(spec_insidecdata_characters);
    match inside_CDATASection_single(s, pos) {
        Err(f) => Err(f),
        Ok(m3) => match many0_cdata(s, m3.rest) {
            Err(f) => Err(f),
            Ok(m4) => Ok(Matched { rest: m4.rest, start: pos, end: m4.rest }),
        },
    }
}

/// Inside a CDATA section: characters of it, or its end
#[verifier::opaque]
pub open spec fn spec_insidecdata(s: Seq<u8>, pos: usize) -> Parsed<InsideCdata> {
    match spec_insidecdata_characters(s, pos) {
        Ok(m) => Ok((m.rest, InsideCdata::Characters(Range { start: m.start, end: m.end }))),
        Err(Fail::Incomplete(n)) => Err(Fail::Incomplete(n)),
        Err(Fail::Error(_, _)) => match spec_CDATASection_end(s, pos) {
        Ok(m) => Ok((m.rest, InsideCdata::CdataEnd)),
        Err(Fail::Incomplete(n)) => Err(Fail::Incomplete(n)),
        Err(Fail::Error(p, k)) => Err(Fail::Error(p, k)),
    },
    }
}

/// Inside a CDATA section: characters of it, or its end
pub fn insidecdata(s: &[u8], pos: usize) -> (r: Parsed<InsideCdata>)
    requires
        pos <= s.len(),
    ensures
        r == spec_insidecdata(s@, pos),
        placed(r, pos as int, s.len() as int),
        r matches Ok((rest, v)) ==> cdata_within(v, pos as int, rest as int),
{
    reveal(spec_insidecdata);
    match insidecdata_characters(s, pos) {
        Ok(m) => Ok((m.rest, InsideCdata::Characters(Range { start: m.start, end: m.end }))),
        Err(Fail::Incomplete(n)) => Err(Fail::Incomplete(n)),
        Err(Fail::Error(_, _)) => match CDATASection_end(s, pos) {
        Ok(m) => Ok((m.rest, InsideCdata::CdataEnd)),
        Err(Fail::Incomplete(n)) => Err(Fail::Incomplete(n)),
        Err(Fail::Error(p, k)) => Err(Fail::Error(p, k)),
    },
    }
}

/// [3] S ::= (#x20 | #x9 | #xD | #xA)+ (the end of the data ends it)
#[verifier::opaque]
pub open spec fn spec_whitespace(s: Seq<u8>, pos: usize) -> Scanned
{
    spec_multispace1(s, pos)
}

/// [3] S ::= (#x20 | #x9 | #xD | #xA)+ (the end of the data ends it)
pub fn whitespace(s: &[u8], pos: usize) -> (r: Scanned)
    requires
        pos <= s.len(),
    ensures
        r == spec_whitespace(s@, pos),
        well_placed(r, pos as int, s.len() as int),
{
    reveal(spec_whitespace);
    multispace1(s, pos)
}

/// [27] Misc ::= Comment | PI | S, where a comment is only begun
#[verifier::opaque]
pub open spec fn spec_misc(s: Seq<u8>, pos: usize) -> Parsed<Misc> {
    match spec_PI(s, pos) {
        Ok(m) => Ok((m.rest, Misc::PI(Range { start: m.start, end: m.end }))),
        Err(Fail::Incomplete(n)) => Err(Fail::Incomplete(n)),
        Err(Fail::Error(_, _)) => match spec_whitespace(s, pos) {
        Ok(m) => Ok((m.rest, Misc::Whitespace(Range { start: m.start, end: m.end }))),
        Err(Fail::Incomplete(n)) => Err(Fail::Incomplete(n)),
        Err(Fail::Error(_, _)) => match spec_Comment_start(s, pos) {
        Ok(m) => Ok((m.rest, Misc::CommentStart)),
        Err(Fail::Incomplete(n)) => Err(Fail::Incomplete(n)),
        Err(Fail::Error(p, k)) => Err(Fail::Error(p, k)),
    },
    },
    }
}

/// [27] Misc ::= Comment | PI | S, where a comment is only begun
pub fn misc(s: &[u8], pos: usize) -> (r: Parsed<Misc>)
    requires
        pos <= s.len(),
    ensures
        r == spec_misc(s@, pos),
        placed(r, pos as int, s.len() as int),
        r matches Ok((rest, v)) ==> misc_within(v, pos as int, rest as int),
{
    reveal(spec_misc);
    match PI(s, pos) {
        Ok(m) => Ok((m.rest, Misc::PI(Range { start: m.start, end: m.end }))),
        Err(Fail::Incomplete(n)) => Err(Fail::Incomplete(n)),
        Err(Fail::Error(_, _)) => match whitespace(s, pos) {
        Ok(m) => Ok((m.rest, Misc::Whitespace(Range { start: m.start, end: m.end }))),
        Err(Fail::Incomplete(n)) => Err(Fail::Incomplete(n)),
        Err(Fail::Error(_, _)) => match Comment_start(s, pos) {
        Ok(m) => Ok((m.rest, Misc::CommentStart)),
        Err(Fail::Incomplete(n)) => Err(Fail::Incomplete(n)),
        Err(Fail::Error(p, k)) => Err(Fail::Error(p, k)),
    },
    },
    }
}

/// Misc, or the document type declaration
#[verifier::opaque]
pub open spec fn spec_misc_before_doctype(s: Seq<u8>, pos: usize) -> Parsed<MiscBeforeDoctype> {
    match spec_PI(s, pos) {
        Ok(m) => Ok((m.rest, MiscBeforeDoctype::PI(Range { start: m.start, end: m.end }))),
        Err(Fail::Incomplete(n)) => Err(Fail::Incomplete(n)),
        Err(Fail::Error(_, _)) => match spec_whitespace(s, pos) {
        Ok(m) => Ok((m.rest, MiscBeforeDoctype::Whitespace(Range { start: m.start, end: m.end }))),
        Err(Fail::Incomplete(n)) => Err(Fail::Incomplete(n)),
        Err(Fail::Error(_, _)) => match spec_Comment_start(s, pos) {
        Ok(m) => Ok((m.rest, MiscBeforeDoctype::CommentStart)),
        Err(Fail::Incomplete(n)) => Err(Fail::Incomplete(n)),
        Err(Fail::Error(_, _)) => match spec_doctypedecl(s, pos) {
        Ok(m) => Ok((m.rest, MiscBeforeDoctype::DocType(Range { start: m.start, end: m.end }))),
        Err(Fail::Incomplete(n)) => Err(Fail::Incomplete(n)),
        Err(Fail::Error(p, k)) => Err(Fail::Error(p, k)),
    },
    },
    },
    }
}

/// Misc, or the document type declaration
pub fn misc_before_doctype(s: &[u8], pos: usize) -> (r: Parsed<MiscBeforeDoctype>)
    requires
        pos <= s.len(),
    ensures
        r == spec_misc_before_doctype(s@, pos),
        placed(r, pos as int, s.len() as int),
        r matches Ok((rest, v)) ==> misc_doctype_within(v, pos as int, rest as int),
{
    reveal(spec_misc_before_doctype);
    match PI(s, pos) {
        Ok(m) => Ok((m.rest, MiscBeforeDoctype::PI(Range { start: m.start, end: m.end }))),
        Err(Fail::Incomplete(n)) => Err(Fail::Incomplete(n)),
        Err(Fail::Error(_, _)) => match whitespace(s, pos) {
        Ok(m) => Ok((m.rest, MiscBeforeDoctype::Whitespace(Range { start: m.start, end: m.end }))),
        Err(Fail::Incomplete(n)) => Err(Fail::Incomplete(n)),
        Err(Fail::Error(_, _)) => match Comment_start(s, pos) {
        Ok(m) => Ok((m.rest, MiscBeforeDoctype::CommentStart)),
        Err(Fail::Incomplete(n)) => Err(Fail::Incomplete(n)),
        Err(Fail::Error(_, _)) => match doctypedecl(s, pos) {
        Ok(m) => Ok((m.rest, MiscBeforeDoctype::DocType(Range { start: m.start, end: m.end }))),
        Err(Fail::Incomplete(n)) => Err(Fail::Incomplete(n)),
        Err(Fail::Error(p, k)) => Err(Fail::Error(p, k)),
    },
    },
    },
    }
}

/// The XML declaration, Misc, or the document type declaration
#[verifier::opaque]
pub open spec fn spec_misc_before_xmldecl(s: Seq<u8>, pos: usize) -> Parsed<MiscBeforeXmlDecl> {
    match spec_XMLDecl(s, pos) {
        Ok(m) => Ok((m.rest, MiscBeforeXmlDecl::XmlDecl(Range { start: m.start, end: m.end }))),
        Err(Fail::Incomplete(n)) => Err(Fail::Incomplete(n)),
        Err(Fail::Error(_, _)) => match spec_PI(s, pos) {
        Ok(m) => Ok((m.rest, MiscBeforeXmlDecl::PI(Range { start: m.start, end: m.end }))),
        Err(Fail::Incomplete(n)) => Err(Fail::Incomplete(n)),
        Err(Fail::Error(_, _)) => match spec_whitespace(s, pos) {
        Ok(m) => Ok((m.rest, MiscBeforeXmlDecl::Whitespace(Range { start: m.start, end: m.end }))),
        Err(Fail::Incomplete(n)) => Err(Fail::Incomplete(n)),
        Err(Fail::Error(_, _)) => match spec_Comment_start(s, pos) {
        Ok(m) => Ok((m.rest, MiscBeforeXmlDecl::CommentStart)),
        Err(Fail::Incomplete(n)) => Err(Fail::Incomplete(n)),
        Err(Fail::Error(_, _)) => match spec_doctypedecl(s, pos) {
        Ok(m) => Ok((m.rest, MiscBeforeXmlDecl::DocType(Range { start: m.start, end: m.end }))),
        Err(Fail::Incomplete(n)) => Err(Fail::Incomplete(n)),
        Err(Fail::Error(p, k)) => Err(Fail::Error(p, k)),
    },
    },
    },
    },
    }
}

/// The XML declaration, Misc, or the document type declaration
pub fn misc_before_xmldecl(s: &[u8], pos: usize) -> (r: Parsed<MiscBeforeXmlDecl>)
    requires
        pos <= s.len(),
    ensures
        r == spec_misc_before_xmldecl(s@, pos),
        placed(r, pos as int, s.len() as int),
        r matches Ok((rest, v)) ==> misc_xmldecl_within(v, pos as int, rest as int),
{
    reveal(spec_misc_before_xmldecl);
    match XMLDecl(s, pos) {
        Ok(m) => Ok((m.rest, MiscBeforeXmlDecl::XmlDecl(Range { start: m.start, end: m.end }))),
        Err(Fail::Incomplete(n)) => Err(Fail::Incomplete(n)),
        Err(Fail::Error(_, _)) => match PI(s, pos) {
        Ok(m) => Ok((m.rest, MiscBeforeXmlDecl::PI(Range { start: m.start, end: m.end }))),
        Err(Fail::Incomplete(n)) => Err(Fail::Incomplete(n)),
        Err(Fail::Error(_, _)) => match whitespace(s, pos) {
        Ok(m) => Ok((m.rest, MiscBeforeXmlDecl::Whitespace(Range { start: m.start, end: m.end }))),
        Err(Fail::Incomplete(n)) => Err(Fail::Incomplete(n)),
        Err(Fail::Error(_, _)) => match Comment_start(s, pos) {
        Ok(m) => Ok((m.rest, MiscBeforeXmlDecl::CommentStart)),
        Err(Fail::Incomplete(n)) => Err(Fail::Incomplete(n)),
        Err(Fail::Error(_, _)) => match doctypedecl(s, pos) {
        Ok(m) => Ok((m.rest, MiscBeforeXmlDecl::DocType(Range { start: m.start, end: m.end }))),
        Err(Fail::Incomplete(n)) => Err(Fail::Incomplete(n)),
        Err(Fail::Error(p, k)) => Err(Fail::Error(p, k)),
    },
    },
    },
    },
    }
}

/// [8] PrefixedName ::= Prefix ':' LocalPart, up to the end of the input
#[verifier::opaque]
pub open spec fn spec_qname_prefixed(s: Seq<u8>, pos: usize) -> Parsed<QName>
{
    match spec_nc_name(s, pos) {
        Err(f) => Err(f),
        Ok(m1) => match spec_char(s, m1.rest, 58u8) {
            Err(f) => Err(f),
            Ok(m2) => match spec_nc_name(s, m2.rest) {
                Err(f) => Err(f),
                Ok(m3) => match spec_eof(s, m3.rest) {
                    Err(f) => Err(f),
                    Ok(m4) => Ok((m4.rest, QName { prefix_range: Range { start: m1.start, end: m1.end }, local_name_range: Range { start: m3.start, end: m3.end } })),
                },
            },
        },
    }
}

/// [8] PrefixedName ::= Prefix ':' LocalPart, up to the end of the input
pub fn qname_prefixed(s: &[u8], pos: usize) -> (r: Parsed<QName>)
    requires
        pos <= s.len(),
    ensures
        r == spec_qname_prefixed(s@, pos),
        placed(r, pos as int, s.len() as int),
        r matches Ok((rest, q)) ==> qname_within(q, s.len() as int),
{
    reveal(spec_qname_prefixed);
    match nc_name(s, pos) {
        Err(f) => Err(f),
        Ok(m5) => match char_(s, m5.rest, 58u8) {
            Err(f) => Err(f),
            Ok(m6) => match nc_name(s, m6.rest) {
                Err(f) => Err(f),
                Ok(m7) => match eof(s, m7.rest) {
                    Err(f) => Err(f),
                    Ok(m8) => Ok((m8.rest, QName { prefix_range: Range { start: m5.start, end: m5.end }, local_name_range: Range { start: m7.start, end: m7.end } })),
                },
            },
        },
    }
}

/// [9] UnprefixedName ::= LocalPart, up to the end of the input
#[verifier::opaque]
pub open spec fn spec_qname_unprefixed(s: Seq<u8>, pos: usize) -> Parsed<QName>
{
    match spec_nc_name(s, pos) {
        Err(f) => Err(f),
        Ok(m1) => match spec_eof(s, m1.rest) {
            Err(f) => Err(f),
            Ok(m2) => Ok((m2.rest, QName { prefix_range: Range { start: 0, end: 0 }, local_name_range: Range { start: m1.start, end: m1.end } })),
        },
    }
}

/// [9] UnprefixedName ::= LocalPart, up to the end of the input
pub fn qname_unprefixed(s: &[u8], pos: usize) -> (r: Parsed<QName>)
    requires
        pos <= s.len(),
    ensures
        r == spec_qname_unprefixed(s@, pos),
        placed(r, pos as int, s.len() as int),
        r matches Ok((rest, q)) ==> qname_within(q, s.len() as int),
{
    reveal(spec_qname_unprefixed);
    match nc_name(s, pos) {
        Err(f) => Err(f),
        Ok(m3) => match eof(s, m3.rest) {
            Err(f) => Err(f),
            Ok(m4) => Ok((m4.rest, QName { prefix_range: Range { start: 0, end: 0 }, local_name_range: Range { start: m3.start, end: m3.end } })),
        },
    }
}

/// [7] QName ::= PrefixedName | UnprefixedName, which must take up the whole input
#[verifier::opaque]
pub open spec fn spec_QName(s: Seq<u8>, pos: usize) -> Parsed<QName> {
    match spec_qname_prefixed(s, pos) {
        Ok((rest, v)) => Ok((rest, v)),
        Err(Fail::Incomplete(n)) => Err(Fail::Incomplete(n)),
        Err(Fail::Error(_, _)) => match spec_qname_unprefixed(s, pos) {
        Ok((rest, v)) => Ok((rest, v)),
        Err(Fail::Incomplete(n)) => Err(Fail::Incomplete(n)),
        Err(Fail::Error(p, k)) => Err(Fail::Error(p, k)),
    },
    }
}

/// [7] QName ::= PrefixedName | UnprefixedName, which must take up the whole input
pub fn QName(s: &[u8], pos: usize) -> (r: Parsed<QName>)
    requires
        pos <= s.len(),
    ensures
        r == spec_QName(s@, pos),
        placed(r, pos as int, s.len() as int),
        r matches Ok((rest, q)) ==> qname_within(q, s.len() as int),
{
    reveal(spec_QName);
    match qname_prefixed(s, pos) {
        Ok((rest, v)) => Ok((rest, v)),
        Err(Fail::Incomplete(n)) => Err(Fail::Incomplete(n)),
        Err(Fail::Error(_, _)) => match qname_unprefixed(s, pos) {
        Ok((rest, v)) => Ok((rest, v)),
        Err(Fail::Incomplete(n)) => Err(Fail::Incomplete(n)),
        Err(Fail::Error(p, k)) => Err(Fail::Error(p, k)),
    },
    }
}


/* ---------------------------------------------------------------------- */
/* laws of attribute values                                                 */

/// A run of bytes outside `set` that a byte of `set` ends stops at that
/// byte.
proof fn lemma_run_to_set(s: Seq<u8>, j: int, e: int, set: Seq<u8>)
    requires
        0 <= j <= e < s.len(),
        set.contains(s[e]),
        forall|k: int| j <= k < e ==> !set.contains(#[trigger] s[k]),
    ensures
        crate::sax::scan::run_end(s, j, None, set, false) == e,
    decreases e - j,
{
    if j < e {
        lemma_run_to_set(s, j + 1, e, set);
    }
}

/// A tag does not begin at a byte other than its first one.
proof fn lemma_tag_mismatch(s: Seq<u8>, pos: usize, t: Seq<u8>)
    requires
        pos < s.len(),
        t.len() > 0,
        s[pos as int] != t[0],
    ensures
        spec_tag(s, pos, t) is Err && spec_tag(s, pos, t)->Err_0 is Error,
{
    let avail = s.len() - pos;
    if avail >= t.len() {
        assert(s.subrange(pos as int, pos + t.len())[0] != t[0]);
    } else {
        assert(s.subrange(pos as int, s.len() as int)[0] != t.subrange(0, avail)[0]);
    }
}

/// No reference begins at a byte other than `&`.
proof fn lemma_no_reference_at(s: Seq<u8>, pos: usize)
    requires
        pos < s.len(),
        s[pos as int] != 38u8,
    ensures
        spec_Reference(s, pos) is Err && spec_Reference(s, pos)->Err_0 is Error,
{
    reveal(spec_Reference);
    reveal(spec_EntityRef);
    reveal(spec_CharRef);
    assert(AMP@ =~= seq![38u8]);
    assert(AMP_HASH@ =~= seq![38u8, 35u8]);
    assert(AMP_HASH_X@ =~= seq![38u8, 35u8, 120u8]);
    lemma_tag_mismatch(s, pos, AMP@);
    lemma_tag_mismatch(s, pos, AMP_HASH@);
    lemma_tag_mismatch(s, pos, AMP_HASH_X@);
}

/// The bytes of `w` are all outside `set`.
pub open spec fn none_in(w: Seq<u8>, set: Seq<u8>) -> bool {
    forall|i: int| 0 <= i < w.len() ==> !set.contains(#[trigger] w[i])
}

proof fn lemma_many0_attvalue(s: Seq<u8>, j: usize, e: usize, q: u8)
    requires
        q == 34u8 || q == 39u8,
        j <= e < s.len(),
        s[e as int] == q,
        forall|k: int| j <= k < e ==> s[k] != 60u8 && s[k] != 38u8 && s[k] != q,
    ensures
        q == 34u8 ==> spec_many0_attvalue_dq(s, j) == covers(j, e),
        q == 39u8 ==> spec_many0_attvalue_sq(s, j) == covers(j, e),
    decreases e - j,
{
    reveal(spec_attvalue_dq_item);
    reveal(spec_attvalue_sq_item);
    let set = if q == 34u8 {
        NOT_IN_ATTVALUE_DQ@
    } else {
        NOT_IN_ATTVALUE_SQ@
    };
    assert(NOT_IN_ATTVALUE_DQ@ =~= seq![60u8, 38u8, 34u8]);
    assert(NOT_IN_ATTVALUE_SQ@ =~= seq![60u8, 38u8, 39u8]);
    assert(set =~= seq![60u8, 38u8, q]);
    assert(set.contains(s[e as int])) by {
        assert(set[2] == q);
    }
    assert forall|k: int| j <= k < e implies !set.contains(#[trigger] s[k]) by {
        if set.contains(s[k]) {
            let x = choose|x: int| 0 <= x < set.len() && set[x] == s[k];
            assert(x == 0 || x == 1 || x == 2);
        }
    }
    lemma_run_to_set(s, j as int, e as int, set);
    lemma_run_to_set(s, e as int, e as int, set);
    lemma_no_reference_at(s, e);
    if j < e {
        lemma_many0_attvalue(s, e, e, q);
    }
}

/// An attribute value of plain characters may be quoted with `"` or `'`:
/// for any bytes `w` without `<`, `&` or the quote, the value `"w"` (or
/// `'w'`) is taken whole, and hands back `w`.
pub proof fn law_attribute_value_quoted(w: Seq<u8>, q: u8)
    requires
        q == 34u8 || q == 39u8,
        forall|i: int| 0 <= i < w.len() ==> w[i] != 60u8 && w[i] != 38u8 && w[i] != q,
        w.len() + 2 <= usize::MAX,
    ensures
        spec_AttValue(seq![q] + w + seq![q], 0) == Ok::<Matched, Fail>(
            Matched { rest: (w.len() + 2) as usize, start: 1, end: (w.len() + 1) as usize },
        ),
{
    reveal(spec_AttValue);
    let s = seq![q] + w + seq![q];
    let e = (w.len() + 1) as usize;
    assert(s[0] == q);
    assert(s[e as int] == q);
    assert forall|k: int| 1 <= k < e implies s[k] != 60u8 && s[k] != 38u8 && s[k] != q by {
        assert(s[k] == w[k - 1]);
    }
    lemma_many0_attvalue(s, 1, e, q);
}


/* ---------------------------------------------------------------------- */
/* laws of character references                                             */

/// A run of a class of bytes that a byte outside the class ends stops at
/// that byte.
proof fn lemma_run_to_class_end(s: Seq<u8>, j: int, e: int, c: Class)
    requires
        0 <= j <= e < s.len(),
        !crate::sax::scan::spec_in_class(c, s[e]),
        forall|k: int| j <= k < e ==> crate::sax::scan::spec_in_class(c, #[trigger] s[k]),
    ensures
        crate::sax::scan::run_end(s, j, Some(c), seq![], true) == e,
    decreases e - j,
{
    if j < e {
        lemma_run_to_class_end(s, j + 1, e, c);
    }
}

/// A hexadecimal character reference `&#xHH;`, with digits in either case,
/// is taken whole as a reference.
pub proof fn law_hex_char_ref_scanned(h1: u8, h2: u8)
    requires
        (48 <= h1 <= 57) || (97 <= h1 <= 102) || (65 <= h1 <= 70),
        (48 <= h2 <= 57) || (97 <= h2 <= 102) || (65 <= h2 <= 70),
    ensures
        spec_CharRef(seq![38u8, 35u8, 120u8, h1, h2, 59u8], 0) == Ok::<Matched, Fail>(
            Matched { rest: 6, start: 0, end: 6 },
        ),
{
    reveal(spec_CharRef);
    let s = seq![38u8, 35u8, 120u8, h1, h2, 59u8];
    assert(AMP_HASH@ =~= seq![38u8, 35u8]);
    assert(AMP_HASH_X@ =~= seq![38u8, 35u8, 120u8]);
    assert(s.subrange(0, 2) =~= AMP_HASH@);
    assert(s.subrange(0, 3) =~= AMP_HASH_X@);
    lemma_run_to_class_end(s, 2, 2, Class::Digit);
    lemma_run_to_class_end(s, 3, 5, Class::HexDigit);
}

/// A decimal character reference `&#DD;` is taken whole as a reference.
pub proof fn law_decimal_char_ref_scanned(d1: u8, d2: u8)
    requires
        48 <= d1 <= 57,
        48 <= d2 <= 57,
    ensures
        spec_CharRef(seq![38u8, 35u8, d1, d2, 59u8], 0) == Ok::<Matched, Fail>(
            Matched { rest: 5, start: 0, end: 5 },
        ),
{
    reveal(spec_CharRef);
    let s = seq![38u8, 35u8, d1, d2, 59u8];
    assert(AMP_HASH@ =~= seq![38u8, 35u8]);
    assert(s.subrange(0, 2) =~= AMP_HASH@);
    lemma_run_to_class_end(s, 2, 4, Class::Digit);
}

} // verus!
