//! UTF-8 decoding of single characters and the character classes of the
//! XML 1.0 and Namespaces in XML 1.0 grammars.
use vstd::prelude::*;
use vstd::utf8::*;
use crate::sax::scan::{covers, well_placed, ErrorKind, Fail, Matched, Needed, Scanned};

verus! {

/// The number of bytes of a UTF-8 character, given its first byte (RFC 3629);
/// 0 for a byte that cannot start a character.
pub open spec fn spec_utf8_char_width(b: u8) -> usize {
    if b < 0x80 {
        1
    } else if b < 0xC2 {
        0
    } else if b < 0xE0 {
        2
    } else if b < 0xF0 {
        3
    } else if b < 0xF5 {
        4
    } else {
        0
    }
}

pub fn utf8_char_width(b: u8) -> (r: usize)
    ensures
        r == spec_utf8_char_width(b),
{
    if b < 0x80 {
        1
    } else if b < 0xC2 {
        0
    } else if b < 0xE0 {
        2
    } else if b < 0xF0 {
        3
    } else if b < 0xF5 {
        4
    } else {
        0
    }
}

/// What the bytes at a position hold.
#[derive(Debug, Clone, Copy, PartialEq, Eq, Structural)]
pub enum Decoded {
    /// a Unicode scalar value and the number of bytes it takes
    Scalar(u32, usize),
    /// not a character
    Invalid,
    /// the data ends this many bytes before the character does
    Short(usize),
    /// no data at all
    Empty,
}

pub open spec fn spec_decode_at(s: Seq<u8>, pos: usize) -> Decoded {
    if pos >= s.len() {
        Decoded::Empty
    } else {
        let w = spec_utf8_char_width(s[pos as int]);
        if w == 0 {
            Decoded::Invalid
        } else if s.len() - pos < w {
            Decoded::Short((w - (s.len() - pos)) as usize)
        } else {
            let b = s.subrange(pos as int, pos + w);
            if valid_first_scalar(b) {
                Decoded::Scalar(decode_first_scalar(b), w)
            } else {
                Decoded::Invalid
            }
        }
    }
}

fn is_cont(b: u8) -> (r: bool)
    ensures
        r == is_continuation_byte(b),
{
    0x80 <= b && b <= 0xbf
}

/// Decodes the character at `pos`.
pub fn decode_at(s: &[u8], pos: usize) -> (r: Decoded)
    requires
        pos <= s.len(),
    ensures
        r == spec_decode_at(s@, pos),
        r matches Decoded::Scalar(_, w) ==> 1 <= w <= 4 && pos + w <= s.len(),
{
    if pos >= s.len() {
        return Decoded::Empty;
    }
    let b0 = s[pos];
    let w = utf8_char_width(b0);
    if w == 0 {
        return Decoded::Invalid;
    }
    if s.len() - pos < w {
        return Decoded::Short(w - (s.len() - pos));
    }
    let ghost b = s@.subrange(pos as int, pos + w);
    assert(b[0] == b0);
    if w == 1 {
        let cp = (b0 & 0x7F) as u32;
        return Decoded::Scalar(cp, 1);
    }
    let b1 = s[pos + 1];
    assert(b[1] == b1);
    if !is_cont(b1) {
        return Decoded::Invalid;
    }
    if w == 2 {
        let cp = ((b0 & 0x1F) as u32) << 6u32 | ((b1 & 0x3F) as u32);
        if 0x80 <= cp && !(0xD800 <= cp && cp <= 0xDFFF) {
            return Decoded::Scalar(cp, 2);
        } else {
            return Decoded::Invalid;
        }
    }
    let b2 = s[pos + 2];
    assert(b[2] == b2);
    if !is_cont(b2) {
        return Decoded::Invalid;
    }
    if w == 3 {
        let cp = ((b0 & 0x0F) as u32) << 12u32 | ((b1 & 0x3F) as u32) << 6u32 | ((b2 & 0x3F)
            as u32);
        if 0x800 <= cp && !(0xD800 <= cp && cp <= 0xDFFF) {
            return Decoded::Scalar(cp, 3);
        } else {
            return Decoded::Invalid;
        }
    }
    let b3 = s[pos + 3];
    assert(b[3] == b3);
    if !is_cont(b3) {
        return Decoded::Invalid;
    }
    let cp = ((b0 & 0x07) as u32) << 18u32 | ((b1 & 0x3F) as u32) << 12u32 | ((b2 & 0x3F) as u32)
        << 6u32 | ((b3 & 0x3F) as u32);
    if 0x10000 <= cp && cp <= 0x10ffff && !(0xD800 <= cp && cp <= 0xDFFF) {
        Decoded::Scalar(cp, 4)
    } else {
        Decoded::Invalid
    }
}

/* ---------------------------------------------------------------------- */
/* character classes                                                        */

/// [2] Char ::= #x9 | #xA | #xD | [#x20-#xD7FF] | [#xE000-#xFFFD] | [#x10000-#x10FFFF]
pub open spec fn spec_is_xml_char(c: u32) -> bool {
    c == 0x9 || c == 0xA || c == 0xD || (0x20 <= c <= 0xD7FF) || (0xE000 <= c <= 0xFFFD) || (
    0x10000 <= c <= 0x10FFFF)
}

pub fn is_xml_char_t(c: u32) -> (r: bool)
    ensures
        r == spec_is_xml_char(c),
{
    c == 0x9 || c == 0xA || c == 0xD || (0x20 <= c && c <= 0xD7FF) || (0xE000 <= c && c <= 0xFFFD)
        || (0x10000 <= c && c <= 0x10FFFF)
}

/// The ranges of [4] NameStartChar other than ":" and "_" (which is also
/// NCNameStartChar without "_").
pub open spec fn spec_is_name_letter(c: u32) -> bool {
    (0x41 <= c <= 0x5A) || (0x61 <= c <= 0x7A) || (0xC0 <= c <= 0xD6) || (0xD8 <= c <= 0xF6) || (
    0xF8 <= c <= 0x2FF) || (0x370 <= c <= 0x37D) || (0x37F <= c <= 0x1FFF) || (0x200C <= c
        <= 0x200D) || (0x2070 <= c <= 0x218F) || (0x2C00 <= c <= 0x2FEF) || (0x3001 <= c <= 0xD7FF)
        || (0xF900 <= c <= 0xFDCF) || (0xFDF0 <= c <= 0xFFFD) || (0x10000 <= c <= 0xEFFFF)
}

fn is_name_letter(c: u32) -> (r: bool)
    ensures
        r == spec_is_name_letter(c),
{
    (0x41 <= c && c <= 0x5A) || (0x61 <= c && c <= 0x7A) || (0xC0 <= c && c <= 0xD6) || (0xD8 <= c
        && c <= 0xF6) || (0xF8 <= c && c <= 0x2FF) || (0x370 <= c && c <= 0x37D) || (0x37F <= c
        && c <= 0x1FFF) || (0x200C <= c && c <= 0x200D) || (0x2070 <= c && c <= 0x218F) || (0x2C00
        <= c && c <= 0x2FEF) || (0x3001 <= c && c <= 0xD7FF) || (0xF900 <= c && c <= 0xFDCF) || (
    0xFDF0 <= c && c <= 0xFFFD) || (0x10000 <= c && c <= 0xEFFFF)
}

/// The characters [4a] NameChar adds to NameStartChar:
/// "-" | "." | [0-9] | #xB7 | [#x0300-#x036F] | [#x203F-#x2040]
pub open spec fn spec_is_name_extra(c: u32) -> bool {
    (0x30 <= c <= 0x39) || (0x300 <= c <= 0x36F) || (0x203F <= c <= 0x2040) || c == 0x2D || c
        == 0x2E || c == 0xB7
}

fn is_name_extra(c: u32) -> (r: bool)
    ensures
        r == spec_is_name_extra(c),
{
    (0x30 <= c && c <= 0x39) || (0x300 <= c && c <= 0x36F) || (0x203F <= c && c <= 0x2040) || c
        == 0x2D || c == 0x2E || c == 0xB7
}

/// [4] NameStartChar
pub open spec fn spec_is_namestart_char(c: u32) -> bool {
    spec_is_name_letter(c) || c == 0x3A || c == 0x5F
}

pub fn is_namestart_char_t(c: u32) -> (r: bool)
    ensures
        r == spec_is_namestart_char(c),
{
    is_name_letter(c) || c == 0x3A || c == 0x5F
}

/// [4a] NameChar
pub open spec fn spec_is_namechar(c: u32) -> bool {
    spec_is_namestart_char(c) || spec_is_name_extra(c)
}

pub fn is_namechar_t(c: u32) -> (r: bool)
    ensures
        r == spec_is_namechar(c),
{
    is_namestart_char_t(c) || is_name_extra(c)
}

/// NCNameStartChar: a NameStartChar other than ":"
pub open spec fn spec_is_nc_namestart_char(c: u32) -> bool {
    spec_is_name_letter(c) || c == 0x5F
}

pub fn is_nc_namestart_char_t(c: u32) -> (r: bool)
    ensures
        r == spec_is_nc_namestart_char(c),
{
    is_name_letter(c) || c == 0x5F
}

/// NCNameChar: a NameChar other than ":"
pub open spec fn spec_is_nc_namechar(c: u32) -> bool {
    spec_is_nc_namestart_char(c) || spec_is_name_extra(c)
}

pub fn is_nc_namechar_t(c: u32) -> (r: bool)
    ensures
        r == spec_is_nc_namechar(c),
{
    is_nc_namestart_char_t(c) || is_name_extra(c)
}

/// A character of character data: any Char but "<" and "&".
pub open spec fn spec_is_chardata_char(c: u32) -> bool {
    c != 0x3C && c != 0x26 && spec_is_xml_char(c)
}

pub fn is_CharData_single_pure_t(c: u32) -> (r: bool)
    ensures
        r == spec_is_chardata_char(c),
{
    c != 0x3C && c != 0x26 && is_xml_char_t(c)
}

/// A character of the text of a document type declaration when its inside
/// is only skipped: any Char but "<" and ">".
pub open spec fn spec_is_doctype_char(c: u32) -> bool {
    c != 0x3C && c != 0x3E && spec_is_xml_char(c)
}

pub fn is_doctype_char_t(c: u32) -> (r: bool)
    ensures
        r == spec_is_doctype_char(c),
{
    c != 0x3C && c != 0x3E && is_xml_char_t(c)
}

/// The character classes that single-character scanners accept.
#[derive(Debug, Clone, Copy, PartialEq, Eq, Structural)]
pub enum CharClass {
    NameStart,
    Name,
    NcNameStart,
    NcName,
    CharData,
    XmlChar,
    DocTypeChar,
}

pub open spec fn spec_char_in(cls: CharClass, c: u32) -> bool {
    match cls {
        CharClass::NameStart => spec_is_namestart_char(c),
        CharClass::Name => spec_is_namechar(c),
        CharClass::NcNameStart => spec_is_nc_namestart_char(c),
        CharClass::NcName => spec_is_nc_namechar(c),
        CharClass::CharData => spec_is_chardata_char(c),
        CharClass::XmlChar => spec_is_xml_char(c),
        CharClass::DocTypeChar => spec_is_doctype_char(c),
    }
}

fn char_in(cls: CharClass, c: u32) -> (r: bool)
    ensures
        r == spec_char_in(cls, c),
{
    match cls {
        CharClass::NameStart => is_namestart_char_t(c),
        CharClass::Name => is_namechar_t(c),
        CharClass::NcNameStart => is_nc_namestart_char_t(c),
        CharClass::NcName => is_nc_namechar_t(c),
        CharClass::CharData => is_CharData_single_pure_t(c),
        CharClass::XmlChar => is_xml_char_t(c),
        CharClass::DocTypeChar => is_doctype_char_t(c),
    }
}

/// One character of the given class. No data, or a character cut short by
/// the end of the data, is incomplete; bytes that are not a UTF-8 character
/// are a mismatch.
pub open spec fn spec_one_char(s: Seq<u8>, pos: usize, cls: CharClass) -> Scanned {
    match spec_decode_at(s, pos) {
        Decoded::Empty => Err(Fail::Incomplete(Needed::Size(1))),
        Decoded::Short(k) => Err(Fail::Incomplete(Needed::Size(k))),
        Decoded::Invalid => Err(Fail::Error(pos, ErrorKind::Char)),
        Decoded::Scalar(c, w) => if spec_char_in(cls, c) {
            covers(pos, (pos + w) as usize)
        } else {
            Err(Fail::Error(pos, ErrorKind::Char))
        },
    }
}

pub fn one_char(s: &[u8], pos: usize, cls: CharClass) -> (r: Scanned)
    requires
        pos <= s.len(),
    ensures
        r == spec_one_char(s@, pos, cls),
        well_placed(r, pos as int, s.len() as int),
        r matches Ok(m) ==> m.rest > pos,
{
    match decode_at(s, pos) {
        Decoded::Empty => Err(Fail::Incomplete(Needed::Size(1))),
        Decoded::Short(k) => Err(Fail::Incomplete(Needed::Size(k))),
        Decoded::Invalid => Err(Fail::Error(pos, ErrorKind::Char)),
        Decoded::Scalar(c, w) => if char_in(cls, c) {
            Ok(Matched { rest: pos + w, start: pos, end: pos + w })
        } else {
            Err(Fail::Error(pos, ErrorKind::Char))
        },
    }
}


/// How the character classes relate: a character of an NCName is one of a
/// Name other than `:` (at the start too); a character that may start a
/// name may go on one; every name character is an XML character, and so is
/// every character of character data, which is any XML character but `<`
/// and `&`. ASCII letters, `:` and `_` start names; digits, `-`, `.`,
/// `#xB7`, the combining marks `#x300`-`#x36F` and `#x203F`-`#x2040` go on
/// names but do not start them. The XML characters are tab, line feed,
/// carriage return, and `#x20`-`#xD7FF`, `#xE000`-`#xFFFD`,
/// `#x10000`-`#x10FFFF`.
pub proof fn law_character_classes(c: u32)
    ensures
        spec_is_nc_namechar(c) <==> (spec_is_namechar(c) && c != 0x3A),
        spec_is_nc_namestart_char(c) <==> (spec_is_namestart_char(c) && c != 0x3A),
        spec_is_namestart_char(c) ==> spec_is_namechar(c),
        spec_is_namechar(c) ==> spec_is_xml_char(c),
        spec_is_chardata_char(c) <==> (spec_is_xml_char(c) && c != 0x3C && c != 0x26),
        ((0x41 <= c <= 0x5A) || (0x61 <= c <= 0x7A) || c == 0x3A || c == 0x5F) ==> spec_is_namestart_char(c),
        ((0x30 <= c <= 0x39) || c == 0x2D || c == 0x2E || c == 0xB7 || (0x300 <= c <= 0x36F) || (0x203F
            <= c <= 0x2040)) ==> spec_is_namechar(c) && !spec_is_namestart_char(c),
        spec_is_xml_char(c) <==> (c == 0x9 || c == 0xA || c == 0xD || (0x20 <= c <= 0xD7FF) || (0xE000
            <= c <= 0xFFFD) || (0x10000 <= c <= 0x10FFFF)),
{
}

} // verus!
