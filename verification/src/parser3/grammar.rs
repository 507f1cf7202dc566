//! The grammar of the older parser where it differs from that of
//! `crate::sax::internal`: a document type declaration whose inside is only
//! skipped (text, comments and bracketed parts, nested), and content without
//! processing instructions.
#![allow(non_snake_case)]

use std::ops::Range;
use vstd::prelude::*;
use crate::sax::chars::{one_char, spec_one_char, CharClass};
pub use crate::sax::internal::{
    content_within, misc_doctype_within, misc_xmldecl_within, CDATASection_start, CharData,
    Comment, Comment_start, ETag, EmptyElemTag, PI, Reference, STag, XMLDecl, whitespace,
    spec_CDATASection_start, spec_CharData, spec_Comment, spec_Comment_start, spec_ETag,
    spec_EmptyElemTag, spec_PI, spec_Reference, spec_STag, spec_XMLDecl, spec_whitespace,
    placed, ContentRelaxed, MiscBeforeDoctype, MiscBeforeXmlDecl, Parsed,
};
use crate::sax::scan::{
    alt, covers, is_mismatch, recognize, spec_tag, tag, well_placed, ErrorKind, Fail, Matched,
    Scanned,
};
pub use crate::sax::chars::{
    is_CharData_single_pure_t, is_namechar_t, is_namestart_char_t, is_xml_char_t,
};
pub use crate::sax::internal::{
    CDATASection, CharData_single, EncName, EncodingDecl, SDDecl, VersionInfo, VersionNum,
};

verus! {

/// One [4] NameStartChar.
pub open spec fn spec_namestart_char(s: Seq<u8>, pos: usize) -> Scanned {
    spec_one_char(s, pos, CharClass::NameStart)
}

pub fn namestart_char(s: &[u8], pos: usize) -> (r: Scanned)
    requires
        pos <= s.len(),
    ensures
        r == spec_namestart_char(s@, pos),
        well_placed(r, pos as int, s.len() as int),
{
    one_char(s, pos, CharClass::NameStart)
}

/// One [4a] NameChar.
pub open spec fn spec_namechar(s: Seq<u8>, pos: usize) -> Scanned {
    spec_one_char(s, pos, CharClass::Name)
}

pub fn namechar(s: &[u8], pos: usize) -> (r: Scanned)
    requires
        pos <= s.len(),
    ensures
        r == spec_namechar(s@, pos),
        well_placed(r, pos as int, s.len() as int),
{
    one_char(s, pos, CharClass::Name)
}

/// One character of character data: any Char but '<' and '&'.
pub open spec fn spec_CharData_single_pure(s: Seq<u8>, pos: usize) -> Scanned {
    spec_one_char(s, pos, CharClass::CharData)
}

pub fn CharData_single_pure(s: &[u8], pos: usize) -> (r: Scanned)
    requires
        pos <= s.len(),
    ensures
        r == spec_CharData_single_pure(s@, pos),
        well_placed(r, pos as int, s.len() as int),
{
    one_char(s, pos, CharClass::CharData)
}

/// The bytes of `<`.
pub const LT: [u8; 1] = [60u8];

/// The bytes of `>`.
pub const GT: [u8; 1] = [62u8];

/// The bytes of `<!DOCTYPE`.
pub const LT_BANG_DOCTYPE: [u8; 9] = [60u8, 33u8, 68u8, 79u8, 67u8, 84u8, 89u8, 80u8, 69u8];

/// more characters of the skipped text
pub open spec fn spec_many0_doctype_chars(s: Seq<u8>, pos: usize) -> Scanned
    decreases s.len() - pos,
{
    match spec_one_char(s, pos, CharClass::DocTypeChar) {
        Err(Fail::Error(_, _)) => covers(pos, pos),
        Err(f) => Err(f),
        Ok(m) => if pos < m.rest && m.rest <= s.len() {
            recognize(pos, spec_many0_doctype_chars(s, m.rest))
        } else {
            Err(Fail::Error(pos, ErrorKind::Many0))
        },
    }
}

/// more characters of the skipped text
pub fn many0_doctype_chars(s: &[u8], pos: usize) -> (r: Scanned)
    requires
        pos <= s.len(),
    ensures
        r == spec_many0_doctype_chars(s@, pos),
        well_placed(r, pos as int, s.len() as int),
{
    let mut i = pos;
    loop
        invariant
            pos <= i <= s.len(),
            spec_many0_doctype_chars(s@, pos) == recognize(pos, spec_many0_doctype_chars(s@, i)),
        decreases s.len() - i,
    {
        let step = one_char(s, i, CharClass::DocTypeChar);
        match step {
            Err(Fail::Error(_, _)) => {
                return Ok(Matched { rest: i, start: pos, end: i });
            }
            Err(f) => {
                return Err(f);
            }
            Ok(m) => {
                if i < m.rest && m.rest <= s.len() {
                    i = m.rest;
                } else {
                    return Err(Fail::Error(i, ErrorKind::Many0));
                }
            }
        }
    }
}

/// Skipped text of a document type declaration: one or more characters, none of them '<' or '>'
#[verifier::opaque]
pub open spec fn spec_doctype_text(s: Seq<u8>, pos: usize) -> Scanned
{
    match spec_one_char(s, pos, CharClass::DocTypeChar) {
        Err(f) => Err(f),
        Ok(m1) => match spec_many0_doctype_chars(s, m1.rest) {
            Err(f) => Err(f),
            Ok(m2) => Ok(Matched { rest: m2.rest, start: pos, end: m2.rest }),
        },
    }
}

/// Skipped text of a document type declaration: one or more characters, none of them '<' or '>'
pub fn doctype_text(s: &[u8], pos: usize) -> (r: Scanned)
    requires
        pos <= s.len(),
    ensures
        r == spec_doctype_text(s@, pos),
        well_placed(r, pos as int, s.len() as int),
{
    reveal(spec_doctype_text);
    match one_char(s, pos, CharClass::DocTypeChar) {
        Err(f) => Err(f),
        Ok(m3) => match many0_doctype_chars(s, m3.rest) {
            Err(f) => Err(f),
            Ok(m4) => Ok(Matched { rest: m4.rest, start: pos, end: m4.rest }),
        },
    }
}

/// A bracketed part of a document type declaration: '<' (text | Comment | bracketed part)* '>'
pub open spec fn spec_doctypedecl_dummy_internal(s: Seq<u8>, pos: usize) -> Scanned
    decreases s.len() - pos, 0int,
{
    match spec_tag(s, pos, LT@) {
        Err(f) => Err(f),
        Ok(m1) => match (if pos < m1.rest && m1.rest <= s.len() { spec_many0_doctype_pieces(s, m1.rest) } else { Err(Fail::Error(m1.rest, ErrorKind::Many0)) }) {
            Err(f) => Err(f),
            Ok(m2) => match spec_tag(s, m2.rest, GT@) {
                Err(f) => Err(f),
                Ok(m3) => Ok(Matched { rest: m3.rest, start: pos, end: m3.rest }),
            },
        },
    }
}

/// A bracketed part of a document type declaration: '<' (text | Comment | bracketed part)* '>'
pub fn doctypedecl_dummy_internal(s: &[u8], pos: usize) -> (r: Scanned)
    requires
        pos <= s.len(),
    ensures
        r == spec_doctypedecl_dummy_internal(s@, pos),
        well_placed(r, pos as int, s.len() as int),
    decreases s@.len() - pos, 0int,
{
    match tag(s, pos, &LT) {
        Err(f) => Err(f),
        Ok(m4) => match (if pos < m4.rest && m4.rest <= s.len() { many0_doctype_pieces(s, m4.rest) } else { Err(Fail::Error(m4.rest, ErrorKind::Many0)) }) {
            Err(f) => Err(f),
            Ok(m5) => match tag(s, m5.rest, &GT) {
                Err(f) => Err(f),
                Ok(m6) => Ok(Matched { rest: m6.rest, start: pos, end: m6.rest }),
            },
        },
    }
}

/// One piece of a document type declaration: text, a comment or a bracketed part
pub open spec fn spec_doctype_piece(s: Seq<u8>, pos: usize) -> Scanned
    decreases s.len() - pos, 1int,
{
    alt(spec_doctype_text(s, pos), alt(spec_Comment(s, pos), spec_doctypedecl_dummy_internal(s, pos)))
}

/// One piece of a document type declaration: text, a comment or a bracketed part
pub fn doctype_piece(s: &[u8], pos: usize) -> (r: Scanned)
    requires
        pos <= s.len(),
    ensures
        r == spec_doctype_piece(s@, pos),
        well_placed(r, pos as int, s.len() as int),
    decreases s@.len() - pos, 1int,
{
    { let r2 = doctype_text(s, pos); if is_mismatch(&r2) { { let r1 = Comment(s, pos); if is_mismatch(&r1) { doctypedecl_dummy_internal(s, pos) } else { r1 } } } else { r2 } }
}

/// (text | Comment | bracketed part)*
pub open spec fn spec_many0_doctype_pieces(s: Seq<u8>, pos: usize) -> Scanned
    decreases s.len() - pos, 2int,
{
    match spec_doctype_piece(s, pos) {
        Err(Fail::Error(_, _)) => covers(pos, pos),
        Err(f) => Err(f),
        Ok(m) => if pos < m.rest && m.rest <= s.len() {
            recognize(pos, spec_many0_doctype_pieces(s, m.rest))
        } else {
            Err(Fail::Error(pos, ErrorKind::Many0))
        },
    }
}

/// (text | Comment | bracketed part)*
pub fn many0_doctype_pieces(s: &[u8], pos: usize) -> (r: Scanned)
    requires
        pos <= s.len(),
    ensures
        r == spec_many0_doctype_pieces(s@, pos),
        well_placed(r, pos as int, s.len() as int),
    decreases s@.len() - pos, 2int,
{
    let mut i = pos;
    loop
        invariant
            pos <= i <= s.len(),
            spec_many0_doctype_pieces(s@, pos) == recognize(pos, spec_many0_doctype_pieces(s@, i)),
        decreases s.len() - i,
    {
        let step = doctype_piece(s, i);
        match step {
            Err(Fail::Error(_, _)) => {
                return Ok(Matched { rest: i, start: pos, end: i });
            }
            Err(f) => {
                return Err(f);
            }
            Ok(m) => {
                if i < m.rest && m.rest <= s.len() {
                    i = m.rest;
                } else {
                    return Err(Fail::Error(i, ErrorKind::Many0));
                }
            }
        }
    }
}

/// A document type declaration whose inside is only skipped: '<!DOCTYPE' (text | Comment | bracketed part)* '>'
#[verifier::opaque]
pub open spec fn spec_doctypedecl(s: Seq<u8>, pos: usize) -> Scanned
{
    match spec_tag(s, pos, LT_BANG_DOCTYPE@) {
        Err(f) => Err(f),
        Ok(m1) => match spec_many0_doctype_pieces(s, m1.rest) {
            Err(f) => Err(f),
            Ok(m2) => match spec_tag(s, m2.rest, GT@) {
                Err(f) => Err(f),
                Ok(m3) => Ok(Matched { rest: m3.rest, start: pos, end: m3.rest }),
            },
        },
    }
}

/// A document type declaration whose inside is only skipped: '<!DOCTYPE' (text | Comment | bracketed part)* '>'
pub fn doctypedecl(s: &[u8], pos: usize) -> (r: Scanned)
    requires
        pos <= s.len(),
    ensures
        r == spec_doctypedecl(s@, pos),
        well_placed(r, pos as int, s.len() as int),
{
    reveal(spec_doctypedecl);
    match tag(s, pos, &LT_BANG_DOCTYPE) {
        Err(f) => Err(f),
        Ok(m4) => match many0_doctype_pieces(s, m4.rest) {
            Err(f) => Err(f),
            Ok(m5) => match tag(s, m5.rest, &GT) {
                Err(f) => Err(f),
                Ok(m6) => Ok(Matched { rest: m6.rest, start: pos, end: m6.rest }),
            },
        },
    }
}

/// One piece of content: character data, a start, empty-element or end tag, a reference, or the start of a CDATA section or comment (a processing instruction is not content here)
#[verifier::opaque]
pub open spec fn spec_content_relaxed(s: Seq<u8>, pos: usize) -> Parsed<ContentRelaxed> {
    match spec_CharData(s, pos) {
        Ok(m) => Ok((m.rest, ContentRelaxed::CharData(Range { start: m.start, end: m.end }))),
        Err(Fail::Incomplete(n)) => Err(Fail::Incomplete(n)),
        Err(Fail::Error(_, _)) => match spec_STag(s, pos) {
        Ok((rest, v)) => Ok((rest, ContentRelaxed::StartElement(v))),
        Err(Fail::Incomplete(n)) => Err(Fail::Incomplete(n)),
        Err(Fail::Error(_, _)) => match spec_EmptyElemTag(s, pos) {
        Ok((rest, v)) => Ok((rest, ContentRelaxed::EmptyElemTag(v))),
        Err(Fail::Incomplete(n)) => Err(Fail::Incomplete(n)),
        Err(Fail::Error(_, _)) => match spec_ETag(s, pos) {
        Ok((rest, v)) => Ok((rest, ContentRelaxed::EndElement(v))),
        Err(Fail::Incomplete(n)) => Err(Fail::Incomplete(n)),
        Err(Fail::Error(_, _)) => match spec_Reference(s, pos) {
        Ok(m) => Ok((m.rest, ContentRelaxed::Reference(Reference { initial: Range { start: m.start, end: m.end } }))),
        Err(Fail::Incomplete(n)) => Err(Fail::Incomplete(n)),
        Err(Fail::Error(_, _)) => match spec_CDATASection_start(s, pos) {
        Ok(m) => Ok((m.rest, ContentRelaxed::CdataStart)),
        Err(Fail::Incomplete(n)) => Err(Fail::Incomplete(n)),
        Err(Fail::Error(_, _)) => match spec_Comment_start(s, pos) {
        Ok(m) => Ok((m.rest, ContentRelaxed::CommentStart)),
        Err(Fail::Incomplete(n)) => Err(Fail::Incomplete(n)),
        Err(Fail::Error(p, k)) => Err(Fail::Error(p, k)),
    },
    },
    },
    },
    },
    },
    }
}

/// One piece of content: character data, a start, empty-element or end tag, a reference, or the start of a CDATA section or comment (a processing instruction is not content here)
pub fn content_relaxed(s: &[u8], pos: usize) -> (r: Parsed<ContentRelaxed>)
    requires
        pos <= s.len(),
    ensures
        r == spec_content_relaxed(s@, pos),
        placed(r, pos as int, s.len() as int),
        r matches Ok((rest, v)) ==> content_within(v, pos as int, rest as int),
{
    reveal(spec_content_relaxed);
    match CharData(s, pos) {
        Ok(m) => Ok((m.rest, ContentRelaxed::CharData(Range { start: m.start, end: m.end }))),
        Err(Fail::Incomplete(n)) => Err(Fail::Incomplete(n)),
        Err(Fail::Error(_, _)) => match STag(s, pos) {
        Ok((rest, v)) => Ok((rest, ContentRelaxed::StartElement(v))),
        Err(Fail::Incomplete(n)) => Err(Fail::Incomplete(n)),
        Err(Fail::Error(_, _)) => match EmptyElemTag(s, pos) {
        Ok((rest, v)) => Ok((rest, ContentRelaxed::EmptyElemTag(v))),
        Err(Fail::Incomplete(n)) => Err(Fail::Incomplete(n)),
        Err(Fail::Error(_, _)) => match ETag(s, pos) {
        Ok((rest, v)) => Ok((rest, ContentRelaxed::EndElement(v))),
        Err(Fail::Incomplete(n)) => Err(Fail::Incomplete(n)),
        Err(Fail::Error(_, _)) => match Reference(s, pos) {
        Ok(m) => Ok((m.rest, ContentRelaxed::Reference(Reference { initial: Range { start: m.start, end: m.end } }))),
        Err(Fail::Incomplete(n)) => Err(Fail::Incomplete(n)),
        Err(Fail::Error(_, _)) => match CDATASection_start(s, pos) {
        Ok(m) => Ok((m.rest, ContentRelaxed::CdataStart)),
        Err(Fail::Incomplete(n)) => Err(Fail::Incomplete(n)),
        Err(Fail::Error(_, _)) => match Comment_start(s, pos) {
        Ok(m) => Ok((m.rest, ContentRelaxed::CommentStart)),
        Err(Fail::Incomplete(n)) => Err(Fail::Incomplete(n)),
        Err(Fail::Error(p, k)) => Err(Fail::Error(p, k)),
    },
    },
    },
    },
    },
    },
    }
}

/// Misc, or the document type declaration
#[verifier::opaque]
pub open spec fn spec_misc_before_doctype(s: Seq<u8>, pos: usize) -> Parsed<MiscBeforeDoctype> {
    match spec_PI(s, pos) {
        Ok(m) => Ok((m.rest, MiscBeforeDoctype::PI(Range { start: m.start, end: m.end }))),
        Err(Fail::Incomplete(n)) => Err(Fail::Incomplete(n)),
        Err(Fail::Error(_, _)) => match spec_whitespace(s, pos) {
        Ok(m) => Ok((m.rest, MiscBeforeDoctype::Whitespace(Range { start: m.start, end: m.end }))),
        Err(Fail::Incomplete(n)) => Err(Fail::Incomplete(n)),
        Err(Fail::Error(_, _)) => match spec_Comment_start(s, pos) {
        Ok(m) => Ok((m.rest, MiscBeforeDoctype::CommentStart)),
        Err(Fail::Incomplete(n)) => Err(Fail::Incomplete(n)),
        Err(Fail::Error(_, _)) => match spec_doctypedecl(s, pos) {
        Ok(m) => Ok((m.rest, MiscBeforeDoctype::DocType(Range { start: m.start, end: m.end }))),
        Err(Fail::Incomplete(n)) => Err(Fail::Incomplete(n)),
        Err(Fail::Error(p, k)) => Err(Fail::Error(p, k)),
    },
    },
    },
    }
}

/// Misc, or the document type declaration
pub fn misc_before_doctype(s: &[u8], pos: usize) -> (r: Parsed<MiscBeforeDoctype>)
    requires
        pos <= s.len(),
    ensures
        r == spec_misc_before_doctype(s@, pos),
        placed(r, pos as int, s.len() as int),
        r matches Ok((rest, v)) ==> misc_doctype_within(v, pos as int, rest as int),
{
    reveal(spec_misc_before_doctype);
    match PI(s, pos) {
        Ok(m) => Ok((m.rest, MiscBeforeDoctype::PI(Range { start: m.start, end: m.end }))),
        Err(Fail::Incomplete(n)) => Err(Fail::Incomplete(n)),
        Err(Fail::Error(_, _)) => match whitespace(s, pos) {
        Ok(m) => Ok((m.rest, MiscBeforeDoctype::Whitespace(Range { start: m.start, end: m.end }))),
        Err(Fail::Incomplete(n)) => Err(Fail::Incomplete(n)),
        Err(Fail::Error(_, _)) => match Comment_start(s, pos) {
        Ok(m) => Ok((m.rest, MiscBeforeDoctype::CommentStart)),
        Err(Fail::Incomplete(n)) => Err(Fail::Incomplete(n)),
        Err(Fail::Error(_, _)) => match doctypedecl(s, pos) {
        Ok(m) => Ok((m.rest, MiscBeforeDoctype::DocType(Range { start: m.start, end: m.end }))),
        Err(Fail::Incomplete(n)) => Err(Fail::Incomplete(n)),
        Err(Fail::Error(p, k)) => Err(Fail::Error(p, k)),
    },
    },
    },
    }
}

/// The XML declaration, Misc, or the document type declaration
#[verifier::opaque]
pub open spec fn spec_misc_before_xmldecl(s: Seq<u8>, pos: usize) -> Parsed<MiscBeforeXmlDecl> {
    match spec_XMLDecl(s, pos) {
        Ok(m) => Ok((m.rest, MiscBeforeXmlDecl::XmlDecl(Range { start: m.start, end: m.end }))),
        Err(Fail::Incomplete(n)) => Err(Fail::Incomplete(n)),
        Err(Fail::Error(_, _)) => match spec_PI(s, pos) {
        Ok(m) => Ok((m.rest, MiscBeforeXmlDecl::PI(Range { start: m.start, end: m.end }))),
        Err(Fail::Incomplete(n)) => Err(Fail::Incomplete(n)),
        Err(Fail::Error(_, _)) => match spec_whitespace(s, pos) {
        Ok(m) => Ok((m.rest, MiscBeforeXmlDecl::Whitespace(Range { start: m.start, end: m.end }))),
        Err(Fail::Incomplete(n)) => Err(Fail::Incomplete(n)),
        Err(Fail::Error(_, _)) => match spec_Comment_start(s, pos) {
        Ok(m) => Ok((m.rest, MiscBeforeXmlDecl::CommentStart)),
        Err(Fail::Incomplete(n)) => Err(Fail::Incomplete(n)),
        Err(Fail::Error(_, _)) => match spec_doctypedecl(s, pos) {
        Ok(m) => Ok((m.rest, MiscBeforeXmlDecl::DocType(Range { start: m.start, end: m.end }))),
        Err(Fail::Incomplete(n)) => Err(Fail::Incomplete(n)),
        Err(Fail::Error(p, k)) => Err(Fail::Error(p, k)),
    },
    },
    },
    },
    }
}

/// The XML declaration, Misc, or the document type declaration
pub fn misc_before_xmldecl(s: &[u8], pos: usize) -> (r: Parsed<MiscBeforeXmlDecl>)
    requires
        pos <= s.len(),
    ensures
        r == spec_misc_before_xmldecl(s@, pos),
        placed(r, pos as int, s.len() as int),
        r matches Ok((rest, v)) ==> misc_xmldecl_within(v, pos as int, rest as int),
{
    reveal(spec_misc_before_xmldecl);
    match XMLDecl(s, pos) {
        Ok(m) => Ok((m.rest, MiscBeforeXmlDecl::XmlDecl(Range { start: m.start, end: m.end }))),
        Err(Fail::Incomplete(n)) => Err(Fail::Incomplete(n)),
        Err(Fail::Error(_, _)) => match PI(s, pos) {
        Ok(m) => Ok((m.rest, MiscBeforeXmlDecl::PI(Range { start: m.start, end: m.end }))),
        Err(Fail::Incomplete(n)) => Err(Fail::Incomplete(n)),
        Err(Fail::Error(_, _)) => match whitespace(s, pos) {
        Ok(m) => Ok((m.rest, MiscBeforeXmlDecl::Whitespace(Range { start: m.start, end: m.end }))),
        Err(Fail::Incomplete(n)) => Err(Fail::Incomplete(n)),
        Err(Fail::Error(_, _)) => match Comment_start(s, pos) {
        Ok(m) => Ok((m.rest, MiscBeforeXmlDecl::CommentStart)),
        Err(Fail::Incomplete(n)) => Err(Fail::Incomplete(n)),
        Err(Fail::Error(_, _)) => match doctypedecl(s, pos) {
        Ok(m) => Ok((m.rest, MiscBeforeXmlDecl::DocType(Range { start: m.start, end: m.end }))),
        Err(Fail::Incomplete(n)) => Err(Fail::Incomplete(n)),
        Err(Fail::Error(p, k)) => Err(Fail::Error(p, k)),
    },
    },
    },
    },
    }
}

} // verus!
