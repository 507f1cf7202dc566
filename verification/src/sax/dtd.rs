//! The grammar of the document type declaration, as streaming scanners over
//! bytes. The declarations are checked for well-formedness and handed back as
//! raw text; nothing in them is interpreted.
#![allow(non_snake_case)]

use vstd::prelude::*;
use crate::sax::chars::{one_char, spec_one_char, CharClass};
use crate::sax::internal::{
    many0_namechar, name, spec_many0_namechar, spec_name, AttValue, Comment, PI, Reference,
    spec_AttValue, spec_Comment, spec_PI, spec_Reference,
};
use crate::sax::scan::{
    alt, char_, covers, is_a_complete, is_mismatch, is_not, multispace0, multispace1, opt,
    optional, recognize, recognized, run1_complete, spec_char, spec_is_a_complete, spec_is_not,
    spec_multispace0, spec_multispace1, spec_run1_complete, spec_tag, tag, well_placed, Class,
    ErrorKind, Fail, Matched, Scanned,
};

verus! {

/// The bytes of `<!DOCTYPE`.
pub const LT_BANG_DOCTYPE: [u8; 9] = [60u8, 33u8, 68u8, 79u8, 67u8, 84u8, 89u8, 80u8, 69u8];

/// The bytes of `>`.
pub const GT: [u8; 1] = [62u8];

/// The bytes of `-'()+,./:=?;!*#@$_% \r\n`.
pub const PUBID_PUNCTUATION: [u8; 22] = [45u8, 39u8, 40u8, 41u8, 43u8, 44u8, 46u8, 47u8, 58u8, 61u8, 63u8, 59u8, 33u8, 42u8, 35u8, 64u8, 36u8, 95u8, 37u8, 32u8, 13u8, 10u8];

/// The bytes of `-()+,./:=?;!*#@$_% \r\n`.
pub const PUBID_PUNCTUATION_NO_APOS: [u8; 21] = [45u8, 40u8, 41u8, 43u8, 44u8, 46u8, 47u8, 58u8, 61u8, 63u8, 59u8, 33u8, 42u8, 35u8, 64u8, 36u8, 95u8, 37u8, 32u8, 13u8, 10u8];

/// The bytes of `"`.
pub const NOT_IN_SYSTEM_DQ: [u8; 1] = [34u8];

/// The bytes of `'`.
pub const NOT_IN_SYSTEM_SQ: [u8; 1] = [39u8];

/// The bytes of `SYSTEM`.
pub const SYSTEM: [u8; 6] = [83u8, 89u8, 83u8, 84u8, 69u8, 77u8];

/// The bytes of `PUBLIC`.
pub const PUBLIC: [u8; 6] = [80u8, 85u8, 66u8, 76u8, 73u8, 67u8];

/// The bytes of `%`.
pub const PERCENT: [u8; 1] = [37u8];

/// The bytes of `;`.
pub const SEMICOLON: [u8; 1] = [59u8];

/// The bytes of `<!NOTATION`.
pub const LT_BANG_NOTATION: [u8; 10] = [60u8, 33u8, 78u8, 79u8, 84u8, 65u8, 84u8, 73u8, 79u8, 78u8];

/// The bytes of `<!ENTITY`.
pub const LT_BANG_ENTITY: [u8; 8] = [60u8, 33u8, 69u8, 78u8, 84u8, 73u8, 84u8, 89u8];

/// The bytes of `NDATA`.
pub const NDATA: [u8; 5] = [78u8, 68u8, 65u8, 84u8, 65u8];

/// The bytes of `%&"`.
pub const NOT_IN_ENTITY_VALUE_DQ: [u8; 3] = [37u8, 38u8, 34u8];

/// The bytes of `%&'`.
pub const NOT_IN_ENTITY_VALUE_SQ: [u8; 3] = [37u8, 38u8, 39u8];

/// The bytes of `<!ATTLIST`.
pub const LT_BANG_ATTLIST: [u8; 9] = [60u8, 33u8, 65u8, 84u8, 84u8, 76u8, 73u8, 83u8, 84u8];

/// The bytes of `#REQUIRED`.
pub const HASH_REQUIRED: [u8; 9] = [35u8, 82u8, 69u8, 81u8, 85u8, 73u8, 82u8, 69u8, 68u8];

/// The bytes of `#IMPLIED`.
pub const HASH_IMPLIED: [u8; 8] = [35u8, 73u8, 77u8, 80u8, 76u8, 73u8, 69u8, 68u8];

/// The bytes of `#FIXED`.
pub const HASH_FIXED: [u8; 6] = [35u8, 70u8, 73u8, 88u8, 69u8, 68u8];

/// The bytes of `|`.
pub const BAR: [u8; 1] = [124u8];

/// The bytes of `NOTATION`.
pub const NOTATION: [u8; 8] = [78u8, 79u8, 84u8, 65u8, 84u8, 73u8, 79u8, 78u8];

/// The bytes of `(`.
pub const LPAREN: [u8; 1] = [40u8];

/// The bytes of `)`.
pub const RPAREN: [u8; 1] = [41u8];

/// The bytes of `CDATA`.
pub const CDATA: [u8; 5] = [67u8, 68u8, 65u8, 84u8, 65u8];

/// The bytes of `IDREFS`.
pub const IDREFS: [u8; 6] = [73u8, 68u8, 82u8, 69u8, 70u8, 83u8];

/// The bytes of `IDREF`.
pub const IDREF: [u8; 5] = [73u8, 68u8, 82u8, 69u8, 70u8];

/// The bytes of `ID`.
pub const ID: [u8; 2] = [73u8, 68u8];

/// The bytes of `ENTITY`.
pub const ENTITY: [u8; 6] = [69u8, 78u8, 84u8, 73u8, 84u8, 89u8];

/// The bytes of `ENTITIES`.
pub const ENTITIES: [u8; 8] = [69u8, 78u8, 84u8, 73u8, 84u8, 73u8, 69u8, 83u8];

/// The bytes of `NMTOKENS`.
pub const NMTOKENS: [u8; 8] = [78u8, 77u8, 84u8, 79u8, 75u8, 69u8, 78u8, 83u8];

/// The bytes of `NMTOKEN`.
pub const NMTOKEN: [u8; 7] = [78u8, 77u8, 84u8, 79u8, 75u8, 69u8, 78u8];

/// The bytes of `<!ELEMENT`.
pub const LT_BANG_ELEMENT: [u8; 9] = [60u8, 33u8, 69u8, 76u8, 69u8, 77u8, 69u8, 78u8, 84u8];

/// The bytes of `EMPTY`.
pub const EMPTY: [u8; 5] = [69u8, 77u8, 80u8, 84u8, 89u8];

/// The bytes of `ANY`.
pub const ANY: [u8; 3] = [65u8, 78u8, 89u8];

/// The bytes of `#PCDATA`.
pub const HASH_PCDATA: [u8; 7] = [35u8, 80u8, 67u8, 68u8, 65u8, 84u8, 65u8];

/// The bytes of `)*`.
pub const RPAREN_STAR: [u8; 2] = [41u8, 42u8];

/// The bytes of `,`.
pub const COMMA: [u8; 1] = [44u8];

/// The bytes of `[`.
pub const LBRACKET: [u8; 1] = [91u8];

/// The bytes of `]`.
pub const RBRACKET: [u8; 1] = [93u8];

/// '<!DOCTYPE'
#[verifier::opaque]
pub open spec fn spec_doctypedecl_start(s: Seq<u8>, pos: usize) -> Scanned
{
    spec_tag(s, pos, LT_BANG_DOCTYPE@)
}

/// '<!DOCTYPE'
pub fn doctypedecl_start(s: &[u8], pos: usize) -> (r: Scanned)
    requires
        pos <= s.len(),
    ensures
        r == spec_doctypedecl_start(s@, pos),
        well_placed(r, pos as int, s.len() as int),
{
    reveal(spec_doctypedecl_start);
    tag(s, pos, &LT_BANG_DOCTYPE)
}

/// '>'
#[verifier::opaque]
pub open spec fn spec_doctypedecl_end(s: Seq<u8>, pos: usize) -> Scanned
{
    spec_tag(s, pos, GT@)
}

/// '>'
pub fn doctypedecl_end(s: &[u8], pos: usize) -> (r: Scanned)
    requires
        pos <= s.len(),
    ensures
        r == spec_doctypedecl_end(s@, pos),
        well_placed(r, pos as int, s.len() as int),
{
    reveal(spec_doctypedecl_end);
    tag(s, pos, &GT)
}

/// A run of [13] PubidChar
#[verifier::opaque]
pub open spec fn spec_pubid_item(s: Seq<u8>, pos: usize) -> Scanned
{
    alt(spec_run1_complete(s, pos, Class::AlphaNum, ErrorKind::TakeWhile1), spec_is_a_complete(s, pos, PUBID_PUNCTUATION@))
}

/// A run of [13] PubidChar
pub fn pubid_item(s: &[u8], pos: usize) -> (r: Scanned)
    requires
        pos <= s.len(),
    ensures
        r == spec_pubid_item(s@, pos),
        well_placed(r, pos as int, s.len() as int),
{
    reveal(spec_pubid_item);
    { let r1 = run1_complete(s, pos, Class::AlphaNum, ErrorKind::TakeWhile1); if is_mismatch(&r1) { is_a_complete(s, pos, &PUBID_PUNCTUATION) } else { r1 } }
}

/// PubidChar*
pub open spec fn spec_many0_pubid(s: Seq<u8>, pos: usize) -> Scanned
    decreases s.len() - pos,
{
    match spec_pubid_item(s, pos) {
        Err(Fail::Error(_, _)) => covers(pos, pos),
        Err(f) => Err(f),
        Ok(m) => if pos < m.rest && m.rest <= s.len() {
            recognize(pos, spec_many0_pubid(s, m.rest))
        } else {
            Err(Fail::Error(pos, ErrorKind::Many0))
        },
    }
}

/// PubidChar*
pub fn many0_pubid(s: &[u8], pos: usize) -> (r: Scanned)
    requires
        pos <= s.len(),
    ensures
        r == spec_many0_pubid(s@, pos),
        well_placed(r, pos as int, s.len() as int),
{
    let mut i = pos;
    loop
        invariant
            pos <= i <= s.len(),
            spec_many0_pubid(s@, pos) == recognize(pos, spec_many0_pubid(s@, i)),
        decreases s.len() - i,
    {
        let step = pubid_item(s, i);
        match step {
            Err(Fail::Error(_, _)) => {
                return Ok(Matched { rest: i, start: pos, end: i });
            }
            Err(f) => {
                return Err(f);
            }
            Ok(m) => {
                if i < m.rest && m.rest <= s.len() {
                    i = m.rest;
                } else {
                    return Err(Fail::Error(i, ErrorKind::Many0));
                }
            }
        }
    }
}

/// [13] PubidChar ::= #x20 | #xD | #xA | [a-zA-Z0-9] | [-'()+,./:=?;!*#@$_%], any number of them
#[verifier::opaque]
pub open spec fn spec_PubidChar_13_many(s: Seq<u8>, pos: usize) -> Scanned
{
    spec_many0_pubid(s, pos)
}

/// [13] PubidChar ::= #x20 | #xD | #xA | [a-zA-Z0-9] | [-'()+,./:=?;!*#@$_%], any number of them
pub fn PubidChar_13_many(s: &[u8], pos: usize) -> (r: Scanned)
    requires
        pos <= s.len(),
    ensures
        r == spec_PubidChar_13_many(s@, pos),
        well_placed(r, pos as int, s.len() as int),
{
    reveal(spec_PubidChar_13_many);
    many0_pubid(s, pos)
}

/// A run of PubidChar other than "'"
#[verifier::opaque]
pub open spec fn spec_pubid_no_quote_item(s: Seq<u8>, pos: usize) -> Scanned
{
    alt(spec_run1_complete(s, pos, Class::AlphaNum, ErrorKind::TakeWhile1), spec_is_a_complete(s, pos, PUBID_PUNCTUATION_NO_APOS@))
}

/// A run of PubidChar other than "'"
pub fn pubid_no_quote_item(s: &[u8], pos: usize) -> (r: Scanned)
    requires
        pos <= s.len(),
    ensures
        r == spec_pubid_no_quote_item(s@, pos),
        well_placed(r, pos as int, s.len() as int),
{
    reveal(spec_pubid_no_quote_item);
    { let r1 = run1_complete(s, pos, Class::AlphaNum, ErrorKind::TakeWhile1); if is_mismatch(&r1) { is_a_complete(s, pos, &PUBID_PUNCTUATION_NO_APOS) } else { r1 } }
}

/// (PubidChar - "'")*
pub open spec fn spec_many0_pubid_no_quote(s: Seq<u8>, pos: usize) -> Scanned
    decreases s.len() - pos,
{
    match spec_pubid_no_quote_item(s, pos) {
        Err(Fail::Error(_, _)) => covers(pos, pos),
        Err(f) => Err(f),
        Ok(m) => if pos < m.rest && m.rest <= s.len() {
            recognize(pos, spec_many0_pubid_no_quote(s, m.rest))
        } else {
            Err(Fail::Error(pos, ErrorKind::Many0))
        },
    }
}

/// (PubidChar - "'")*
pub fn many0_pubid_no_quote(s: &[u8], pos: usize) -> (r: Scanned)
    requires
        pos <= s.len(),
    ensures
        r == spec_many0_pubid_no_quote(s@, pos),
        well_placed(r, pos as int, s.len() as int),
{
    let mut i = pos;
    loop
        invariant
            pos <= i <= s.len(),
            spec_many0_pubid_no_quote(s@, pos) == recognize(pos, spec_many0_pubid_no_quote(s@, i)),
        decreases s.len() - i,
    {
        let step = pubid_no_quote_item(s, i);
        match step {
            Err(Fail::Error(_, _)) => {
                return Ok(Matched { rest: i, start: pos, end: i });
            }
            Err(f) => {
                return Err(f);
            }
            Ok(m) => {
                if i < m.rest && m.rest <= s.len() {
                    i = m.rest;
                } else {
                    return Err(Fail::Error(i, ErrorKind::Many0));
                }
            }
        }
    }
}

/// (PubidChar - "'")*
#[verifier::opaque]
pub open spec fn spec_PubidChar_13_many_except_single_quote(s: Seq<u8>, pos: usize) -> Scanned
{
    spec_many0_pubid_no_quote(s, pos)
}

/// (PubidChar - "'")*
pub fn PubidChar_13_many_except_single_quote(s: &[u8], pos: usize) -> (r: Scanned)
    requires
        pos <= s.len(),
    ensures
        r == spec_PubidChar_13_many_except_single_quote(s@, pos),
        well_placed(r, pos as int, s.len() as int),
{
    reveal(spec_PubidChar_13_many_except_single_quote);
    many0_pubid_no_quote(s, pos)
}

/// [12] PubidLiteral ::= '"' PubidChar* '"' | "'" (PubidChar - "'")* "'" (hands back the part between the quotes)
#[verifier::opaque]
pub open spec fn spec_PubidLiteral_12(s: Seq<u8>, pos: usize) -> Scanned
{
    alt(match spec_char(s, pos, 34u8) {
        Err(f) => Err(f),
        Ok(m1) => match spec_PubidChar_13_many(s, m1.rest) {
            Err(f) => Err(f),
            Ok(m2) => match spec_char(s, m2.rest, 34u8) {
                Err(f) => Err(f),
                Ok(m3) => Ok(Matched { rest: m3.rest, start: m2.start, end: m2.end }),
            },
        },
    }, match spec_char(s, pos, 39u8) {
        Err(f) => Err(f),
        Ok(m4) => match spec_PubidChar_13_many_except_single_quote(s, m4.rest) {
            Err(f) => Err(f),
            Ok(m5) => match spec_char(s, m5.rest, 39u8) {
                Err(f) => Err(f),
                Ok(m6) => Ok(Matched { rest: m6.rest, start: m5.start, end: m5.end }),
            },
        },
    })
}

/// [12] PubidLiteral ::= '"' PubidChar* '"' | "'" (PubidChar - "'")* "'" (hands back the part between the quotes)
pub fn PubidLiteral_12(s: &[u8], pos: usize) -> (r: Scanned)
    requires
        pos <= s.len(),
    ensures
        r == spec_PubidLiteral_12(s@, pos),
        well_placed(r, pos as int, s.len() as int),
{
    reveal(spec_PubidLiteral_12);
    { let r13 = match char_(s, pos, 34u8) {
        Err(f) => Err(f),
        Ok(m7) => match PubidChar_13_many(s, m7.rest) {
            Err(f) => Err(f),
            Ok(m8) => match char_(s, m8.rest, 34u8) {
                Err(f) => Err(f),
                Ok(m9) => Ok(Matched { rest: m9.rest, start: m8.start, end: m8.end }),
            },
        },
    }; if is_mismatch(&r13) { match char_(s, pos, 39u8) {
        Err(f) => Err(f),
        Ok(m10) => match PubidChar_13_many_except_single_quote(s, m10.rest) {
            Err(f) => Err(f),
            Ok(m11) => match char_(s, m11.rest, 39u8) {
                Err(f) => Err(f),
                Ok(m12) => Ok(Matched { rest: m12.rest, start: m11.start, end: m11.end }),
            },
        },
    } } else { r13 } }
}

/// [^"]*
pub open spec fn spec_many0_system_dq(s: Seq<u8>, pos: usize) -> Scanned
    decreases s.len() - pos,
{
    match spec_is_not(s, pos, NOT_IN_SYSTEM_DQ@) {
        Err(Fail::Error(_, _)) => covers(pos, pos),
        Err(f) => Err(f),
        Ok(m) => if pos < m.rest && m.rest <= s.len() {
            recognize(pos, spec_many0_system_dq(s, m.rest))
        } else {
            Err(Fail::Error(pos, ErrorKind::Many0))
        },
    }
}

/// [^"]*
pub fn many0_system_dq(s: &[u8], pos: usize) -> (r: Scanned)
    requires
        pos <= s.len(),
    ensures
        r == spec_many0_system_dq(s@, pos),
        well_placed(r, pos as int, s.len() as int),
{
    let mut i = pos;
    loop
        invariant
            pos <= i <= s.len(),
            spec_many0_system_dq(s@, pos) == recognize(pos, spec_many0_system_dq(s@, i)),
        decreases s.len() - i,
    {
        let step = is_not(s, i, &NOT_IN_SYSTEM_DQ);
        match step {
            Err(Fail::Error(_, _)) => {
                return Ok(Matched { rest: i, start: pos, end: i });
            }
            Err(f) => {
                return Err(f);
            }
            Ok(m) => {
                if i < m.rest && m.rest <= s.len() {
                    i = m.rest;
                } else {
                    return Err(Fail::Error(i, ErrorKind::Many0));
                }
            }
        }
    }
}

/// [^']*
pub open spec fn spec_many0_system_sq(s: Seq<u8>, pos: usize) -> Scanned
    decreases s.len() - pos,
{
    match spec_is_not(s, pos, NOT_IN_SYSTEM_SQ@) {
        Err(Fail::Error(_, _)) => covers(pos, pos),
        Err(f) => Err(f),
        Ok(m) => if pos < m.rest && m.rest <= s.len() {
            recognize(pos, spec_many0_system_sq(s, m.rest))
        } else {
            Err(Fail::Error(pos, ErrorKind::Many0))
        },
    }
}

/// [^']*
pub fn many0_system_sq(s: &[u8], pos: usize) -> (r: Scanned)
    requires
        pos <= s.len(),
    ensures
        r == spec_many0_system_sq(s@, pos),
        well_placed(r, pos as int, s.len() as int),
{
    let mut i = pos;
    loop
        invariant
            pos <= i <= s.len(),
            spec_many0_system_sq(s@, pos) == recognize(pos, spec_many0_system_sq(s@, i)),
        decreases s.len() - i,
    {
        let step = is_not(s, i, &NOT_IN_SYSTEM_SQ);
        match step {
            Err(Fail::Error(_, _)) => {
                return Ok(Matched { rest: i, start: pos, end: i });
            }
            Err(f) => {
                return Err(f);
            }
            Ok(m) => {
                if i < m.rest && m.rest <= s.len() {
                    i = m.rest;
                } else {
                    return Err(Fail::Error(i, ErrorKind::Many0));
                }
            }
        }
    }
}

/// [11] SystemLiteral ::= ('"' [^"]* '"') | ("'" [^']* "'") (hands back the part between the quotes)
#[verifier::opaque]
pub open spec fn spec_SystemLiteral_11(s: Seq<u8>, pos: usize) -> Scanned
{
    alt(match spec_char(s, pos, 34u8) {
        Err(f) => Err(f),
        Ok(m1) => match spec_many0_system_dq(s, m1.rest) {
            Err(f) => Err(f),
            Ok(m2) => match spec_char(s, m2.rest, 34u8) {
                Err(f) => Err(f),
                Ok(m3) => Ok(Matched { rest: m3.rest, start: m2.start, end: m2.end }),
            },
        },
    }, match spec_char(s, pos, 39u8) {
        Err(f) => Err(f),
        Ok(m4) => match spec_many0_system_sq(s, m4.rest) {
            Err(f) => Err(f),
            Ok(m5) => match spec_char(s, m5.rest, 39u8) {
                Err(f) => Err(f),
                Ok(m6) => Ok(Matched { rest: m6.rest, start: m5.start, end: m5.end }),
            },
        },
    })
}

/// [11] SystemLiteral ::= ('"' [^"]* '"') | ("'" [^']* "'") (hands back the part between the quotes)
pub fn SystemLiteral_11(s: &[u8], pos: usize) -> (r: Scanned)
    requires
        pos <= s.len(),
    ensures
        r == spec_SystemLiteral_11(s@, pos),
        well_placed(r, pos as int, s.len() as int),
{
    reveal(spec_SystemLiteral_11);
    { let r13 = match char_(s, pos, 34u8) {
        Err(f) => Err(f),
        Ok(m7) => match many0_system_dq(s, m7.rest) {
            Err(f) => Err(f),
            Ok(m8) => match char_(s, m8.rest, 34u8) {
                Err(f) => Err(f),
                Ok(m9) => Ok(Matched { rest: m9.rest, start: m8.start, end: m8.end }),
            },
        },
    }; if is_mismatch(&r13) { match char_(s, pos, 39u8) {
        Err(f) => Err(f),
        Ok(m10) => match many0_system_sq(s, m10.rest) {
            Err(f) => Err(f),
            Ok(m11) => match char_(s, m11.rest, 39u8) {
                Err(f) => Err(f),
                Ok(m12) => Ok(Matched { rest: m12.rest, start: m11.start, end: m11.end }),
            },
        },
    } } else { r13 } }
}

/// [75] ExternalID ::= 'SYSTEM' S SystemLiteral | 'PUBLIC' S PubidLiteral S SystemLiteral
#[verifier::opaque]
pub open spec fn spec_ExternalID_75(s: Seq<u8>, pos: usize) -> Scanned
{
    alt(match spec_tag(s, pos, SYSTEM@) {
        Err(f) => Err(f),
        Ok(m1) => match spec_multispace1(s, m1.rest) {
            Err(f) => Err(f),
            Ok(m2) => match spec_SystemLiteral_11(s, m2.rest) {
                Err(f) => Err(f),
                Ok(m3) => Ok(Matched { rest: m3.rest, start: pos, end: m3.rest }),
            },
        },
    }, match spec_tag(s, pos, PUBLIC@) {
        Err(f) => Err(f),
        Ok(m4) => match spec_multispace1(s, m4.rest) {
            Err(f) => Err(f),
            Ok(m5) => match spec_PubidLiteral_12(s, m5.rest) {
                Err(f) => Err(f),
                Ok(m6) => match spec_multispace1(s, m6.rest) {
                    Err(f) => Err(f),
                    Ok(m7) => match spec_SystemLiteral_11(s, m7.rest) {
                        Err(f) => Err(f),
                        Ok(m8) => Ok(Matched { rest: m8.rest, start: pos, end: m8.rest }),
                    },
                },
            },
        },
    })
}

/// [75] ExternalID ::= 'SYSTEM' S SystemLiteral | 'PUBLIC' S PubidLiteral S SystemLiteral
pub fn ExternalID_75(s: &[u8], pos: usize) -> (r: Scanned)
    requires
        pos <= s.len(),
    ensures
        r == spec_ExternalID_75(s@, pos),
        well_placed(r, pos as int, s.len() as int),
{
    reveal(spec_ExternalID_75);
    { let r17 = match tag(s, pos, &SYSTEM) {
        Err(f) => Err(f),
        Ok(m9) => match multispace1(s, m9.rest) {
            Err(f) => Err(f),
            Ok(m10) => match SystemLiteral_11(s, m10.rest) {
                Err(f) => Err(f),
                Ok(m11) => Ok(Matched { rest: m11.rest, start: pos, end: m11.rest }),
            },
        },
    }; if is_mismatch(&r17) { match tag(s, pos, &PUBLIC) {
        Err(f) => Err(f),
        Ok(m12) => match multispace1(s, m12.rest) {
            Err(f) => Err(f),
            Ok(m13) => match PubidLiteral_12(s, m13.rest) {
                Err(f) => Err(f),
                Ok(m14) => match multispace1(s, m14.rest) {
                    Err(f) => Err(f),
                    Ok(m15) => match SystemLiteral_11(s, m15.rest) {
                        Err(f) => Err(f),
                        Ok(m16) => Ok(Matched { rest: m16.rest, start: pos, end: m16.rest }),
                    },
                },
            },
        },
    } } else { r17 } }
}

/// [69] PEReference ::= '%' Name ';'
#[verifier::opaque]
pub open spec fn spec_PEReference_69(s: Seq<u8>, pos: usize) -> Scanned
{
    match spec_tag(s, pos, PERCENT@) {
        Err(f) => Err(f),
        Ok(m1) => match spec_name(s, m1.rest) {
            Err(f) => Err(f),
            Ok(m2) => match spec_tag(s, m2.rest, SEMICOLON@) {
                Err(f) => Err(f),
                Ok(m3) => Ok(Matched { rest: m3.rest, start: pos, end: m3.rest }),
            },
        },
    }
}

/// [69] PEReference ::= '%' Name ';'
pub fn PEReference_69(s: &[u8], pos: usize) -> (r: Scanned)
    requires
        pos <= s.len(),
    ensures
        r == spec_PEReference_69(s@, pos),
        well_placed(r, pos as int, s.len() as int),
{
    reveal(spec_PEReference_69);
    match tag(s, pos, &PERCENT) {
        Err(f) => Err(f),
        Ok(m4) => match name(s, m4.rest) {
            Err(f) => Err(f),
            Ok(m5) => match tag(s, m5.rest, &SEMICOLON) {
                Err(f) => Err(f),
                Ok(m6) => Ok(Matched { rest: m6.rest, start: pos, end: m6.rest }),
            },
        },
    }
}

/// [83] PublicID ::= 'PUBLIC' S PubidLiteral
#[verifier::opaque]
pub open spec fn spec_PublicID_83(s: Seq<u8>, pos: usize) -> Scanned
{
    match spec_tag(s, pos, PUBLIC@) {
        Err(f) => Err(f),
        Ok(m1) => match spec_multispace1(s, m1.rest) {
            Err(f) => Err(f),
            Ok(m2) => match spec_PubidLiteral_12(s, m2.rest) {
                Err(f) => Err(f),
                Ok(m3) => Ok(Matched { rest: m3.rest, start: pos, end: m3.rest }),
            },
        },
    }
}

/// [83] PublicID ::= 'PUBLIC' S PubidLiteral
pub fn PublicID_83(s: &[u8], pos: usize) -> (r: Scanned)
    requires
        pos <= s.len(),
    ensures
        r == spec_PublicID_83(s@, pos),
        well_placed(r, pos as int, s.len() as int),
{
    reveal(spec_PublicID_83);
    match tag(s, pos, &PUBLIC) {
        Err(f) => Err(f),
        Ok(m4) => match multispace1(s, m4.rest) {
            Err(f) => Err(f),
            Ok(m5) => match PubidLiteral_12(s, m5.rest) {
                Err(f) => Err(f),
                Ok(m6) => Ok(Matched { rest: m6.rest, start: pos, end: m6.rest }),
            },
        },
    }
}

/// [82] NotationDecl ::= '<!NOTATION' S Name S (ExternalID | PublicID) S? '>'
#[verifier::opaque]
pub open spec fn spec_NotationDecl(s: Seq<u8>, pos: usize) -> Scanned
{
    match spec_tag(s, pos, LT_BANG_NOTATION@) {
        Err(f) => Err(f),
        Ok(m1) => match spec_multispace1(s, m1.rest) {
            Err(f) => Err(f),
            Ok(m2) => match spec_name(s, m2.rest) {
                Err(f) => Err(f),
                Ok(m3) => match spec_multispace1(s, m3.rest) {
                    Err(f) => Err(f),
                    Ok(m4) => match alt(spec_ExternalID_75(s, m4.rest), spec_PublicID_83(s, m4.rest)) {
                        Err(f) => Err(f),
                        Ok(m5) => match spec_multispace0(s, m5.rest) {
                            Err(f) => Err(f),
                            Ok(m6) => match spec_tag(s, m6.rest, GT@) {
                                Err(f) => Err(f),
                                Ok(m7) => Ok(Matched { rest: m7.rest, start: pos, end: m7.rest }),
                            },
                        },
                    },
                },
            },
        },
    }
}

/// [82] NotationDecl ::= '<!NOTATION' S Name S (ExternalID | PublicID) S? '>'
pub fn NotationDecl(s: &[u8], pos: usize) -> (r: Scanned)
    requires
        pos <= s.len(),
    ensures
        r == spec_NotationDecl(s@, pos),
        well_placed(r, pos as int, s.len() as int),
{
    reveal(spec_NotationDecl);
    match tag(s, pos, &LT_BANG_NOTATION) {
        Err(f) => Err(f),
        Ok(m8) => match multispace1(s, m8.rest) {
            Err(f) => Err(f),
            Ok(m9) => match name(s, m9.rest) {
                Err(f) => Err(f),
                Ok(m10) => match multispace1(s, m10.rest) {
                    Err(f) => Err(f),
                    Ok(m11) => match { let r15 = ExternalID_75(s, m11.rest); if is_mismatch(&r15) { PublicID_83(s, m11.rest) } else { r15 } } {
                        Err(f) => Err(f),
                        Ok(m12) => match multispace0(s, m12.rest) {
                            Err(f) => Err(f),
                            Ok(m13) => match tag(s, m13.rest, &GT) {
                                Err(f) => Err(f),
                                Ok(m14) => Ok(Matched { rest: m14.rest, start: pos, end: m14.rest }),
                            },
                        },
                    },
                },
            },
        },
    }
}

/// [70] EntityDecl ::= GEDecl | PEDecl
#[verifier::opaque]
pub open spec fn spec_EntityDecl_70(s: Seq<u8>, pos: usize) -> Scanned
{
    alt(spec_GEDecl_71(s, pos), spec_PEDecl_72(s, pos))
}

/// [70] EntityDecl ::= GEDecl | PEDecl
pub fn EntityDecl_70(s: &[u8], pos: usize) -> (r: Scanned)
    requires
        pos <= s.len(),
    ensures
        r == spec_EntityDecl_70(s@, pos),
        well_placed(r, pos as int, s.len() as int),
{
    reveal(spec_EntityDecl_70);
    { let r1 = GEDecl_71(s, pos); if is_mismatch(&r1) { PEDecl_72(s, pos) } else { r1 } }
}

/// [71] GEDecl ::= '<!ENTITY' S Name S EntityDef S? '>'
#[verifier::opaque]
pub open spec fn spec_GEDecl_71(s: Seq<u8>, pos: usize) -> Scanned
{
    match spec_tag(s, pos, LT_BANG_ENTITY@) {
        Err(f) => Err(f),
        Ok(m1) => match spec_multispace1(s, m1.rest) {
            Err(f) => Err(f),
            Ok(m2) => match spec_name(s, m2.rest) {
                Err(f) => Err(f),
                Ok(m3) => match spec_multispace1(s, m3.rest) {
                    Err(f) => Err(f),
                    Ok(m4) => match spec_EntityDef_73(s, m4.rest) {
                        Err(f) => Err(f),
                        Ok(m5) => match spec_multispace0(s, m5.rest) {
                            Err(f) => Err(f),
                            Ok(m6) => match spec_tag(s, m6.rest, GT@) {
                                Err(f) => Err(f),
                                Ok(m7) => Ok(Matched { rest: m7.rest, start: pos, end: m7.rest }),
                            },
                        },
                    },
                },
            },
        },
    }
}

/// [71] GEDecl ::= '<!ENTITY' S Name S EntityDef S? '>'
pub fn GEDecl_71(s: &[u8], pos: usize) -> (r: Scanned)
    requires
        pos <= s.len(),
    ensures
        r == spec_GEDecl_71(s@, pos),
        well_placed(r, pos as int, s.len() as int),
{
    reveal(spec_GEDecl_71);
    match tag(s, pos, &LT_BANG_ENTITY) {
        Err(f) => Err(f),
        Ok(m8) => match multispace1(s, m8.rest) {
            Err(f) => Err(f),
            Ok(m9) => match name(s, m9.rest) {
                Err(f) => Err(f),
                Ok(m10) => match multispace1(s, m10.rest) {
                    Err(f) => Err(f),
                    Ok(m11) => match EntityDef_73(s, m11.rest) {
                        Err(f) => Err(f),
                        Ok(m12) => match multispace0(s, m12.rest) {
                            Err(f) => Err(f),
                            Ok(m13) => match tag(s, m13.rest, &GT) {
                                Err(f) => Err(f),
                                Ok(m14) => Ok(Matched { rest: m14.rest, start: pos, end: m14.rest }),
                            },
                        },
                    },
                },
            },
        },
    }
}

/// [72] PEDecl ::= '<!ENTITY' S '%' S Name S PEDef S? '>'
#[verifier::opaque]
pub open spec fn spec_PEDecl_72(s: Seq<u8>, pos: usize) -> Scanned
{
    match spec_tag(s, pos, LT_BANG_ENTITY@) {
        Err(f) => Err(f),
        Ok(m1) => match spec_multispace1(s, m1.rest) {
            Err(f) => Err(f),
            Ok(m2) => match spec_tag(s, m2.rest, PERCENT@) {
                Err(f) => Err(f),
                Ok(m3) => match spec_multispace1(s, m3.rest) {
                    Err(f) => Err(f),
                    Ok(m4) => match spec_name(s, m4.rest) {
                        Err(f) => Err(f),
                        Ok(m5) => match spec_multispace1(s, m5.rest) {
                            Err(f) => Err(f),
                            Ok(m6) => match spec_PEDef_74(s, m6.rest) {
                                Err(f) => Err(f),
                                Ok(m7) => match spec_multispace0(s, m7.rest) {
                                    Err(f) => Err(f),
                                    Ok(m8) => match spec_tag(s, m8.rest, GT@) {
                                        Err(f) => Err(f),
                                        Ok(m9) => Ok(Matched { rest: m9.rest, start: pos, end: m9.rest }),
                                    },
                                },
                            },
                        },
                    },
                },
            },
        },
    }
}

/// [72] PEDecl ::= '<!ENTITY' S '%' S Name S PEDef S? '>'
pub fn PEDecl_72(s: &[u8], pos: usize) -> (r: Scanned)
    requires
        pos <= s.len(),
    ensures
        r == spec_PEDecl_72(s@, pos),
        well_placed(r, pos as int, s.len() as int),
{
    reveal(spec_PEDecl_72);
    match tag(s, pos, &LT_BANG_ENTITY) {
        Err(f) => Err(f),
        Ok(m10) => match multispace1(s, m10.rest) {
            Err(f) => Err(f),
            Ok(m11) => match tag(s, m11.rest, &PERCENT) {
                Err(f) => Err(f),
                Ok(m12) => match multispace1(s, m12.rest) {
                    Err(f) => Err(f),
                    Ok(m13) => match name(s, m13.rest) {
                        Err(f) => Err(f),
                        Ok(m14) => match multispace1(s, m14.rest) {
                            Err(f) => Err(f),
                            Ok(m15) => match PEDef_74(s, m15.rest) {
                                Err(f) => Err(f),
                                Ok(m16) => match multispace0(s, m16.rest) {
                                    Err(f) => Err(f),
                                    Ok(m17) => match tag(s, m17.rest, &GT) {
                                        Err(f) => Err(f),
                                        Ok(m18) => Ok(Matched { rest: m18.rest, start: pos, end: m18.rest }),
                                    },
                                },
                            },
                        },
                    },
                },
            },
        },
    }
}

/// [73] EntityDef ::= EntityValue | (ExternalID NDataDecl?) (the external form is tried first)
#[verifier::opaque]
pub open spec fn spec_EntityDef_73(s: Seq<u8>, pos: usize) -> Scanned
{
    alt(match spec_ExternalID_75(s, pos) {
        Err(f) => Err(f),
        Ok(m1) => match opt(m1.rest, spec_NDataDecl_76(s, m1.rest)) {
            Err(f) => Err(f),
            Ok(m2) => Ok(Matched { rest: m2.rest, start: pos, end: m2.rest }),
        },
    }, spec_EntityValue(s, pos))
}

/// [73] EntityDef ::= EntityValue | (ExternalID NDataDecl?) (the external form is tried first)
pub fn EntityDef_73(s: &[u8], pos: usize) -> (r: Scanned)
    requires
        pos <= s.len(),
    ensures
        r == spec_EntityDef_73(s@, pos),
        well_placed(r, pos as int, s.len() as int),
{
    reveal(spec_EntityDef_73);
    { let r5 = match ExternalID_75(s, pos) {
        Err(f) => Err(f),
        Ok(m3) => match optional(m3.rest, NDataDecl_76(s, m3.rest)) {
            Err(f) => Err(f),
            Ok(m4) => Ok(Matched { rest: m4.rest, start: pos, end: m4.rest }),
        },
    }; if is_mismatch(&r5) { EntityValue(s, pos) } else { r5 } }
}

/// [76] NDataDecl ::= S 'NDATA' S Name
#[verifier::opaque]
pub open spec fn spec_NDataDecl_76(s: Seq<u8>, pos: usize) -> Scanned
{
    match spec_multispace1(s, pos) {
        Err(f) => Err(f),
        Ok(m1) => match spec_tag(s, m1.rest, NDATA@) {
            Err(f) => Err(f),
            Ok(m2) => match spec_multispace1(s, m2.rest) {
                Err(f) => Err(f),
                Ok(m3) => match spec_name(s, m3.rest) {
                    Err(f) => Err(f),
                    Ok(m4) => Ok(Matched { rest: m4.rest, start: pos, end: m4.rest }),
                },
            },
        },
    }
}

/// [76] NDataDecl ::= S 'NDATA' S Name
pub fn NDataDecl_76(s: &[u8], pos: usize) -> (r: Scanned)
    requires
        pos <= s.len(),
    ensures
        r == spec_NDataDecl_76(s@, pos),
        well_placed(r, pos as int, s.len() as int),
{
    reveal(spec_NDataDecl_76);
    match multispace1(s, pos) {
        Err(f) => Err(f),
        Ok(m5) => match tag(s, m5.rest, &NDATA) {
            Err(f) => Err(f),
            Ok(m6) => match multispace1(s, m6.rest) {
                Err(f) => Err(f),
                Ok(m7) => match name(s, m7.rest) {
                    Err(f) => Err(f),
                    Ok(m8) => Ok(Matched { rest: m8.rest, start: pos, end: m8.rest }),
                },
            },
        },
    }
}

/// [74] PEDef ::= EntityValue | ExternalID (the external form is tried first)
#[verifier::opaque]
pub open spec fn spec_PEDef_74(s: Seq<u8>, pos: usize) -> Scanned
{
    alt(spec_ExternalID_75(s, pos), spec_EntityValue(s, pos))
}

/// [74] PEDef ::= EntityValue | ExternalID (the external form is tried first)
pub fn PEDef_74(s: &[u8], pos: usize) -> (r: Scanned)
    requires
        pos <= s.len(),
    ensures
        r == spec_PEDef_74(s@, pos),
        well_placed(r, pos as int, s.len() as int),
{
    reveal(spec_PEDef_74);
    { let r1 = ExternalID_75(s, pos); if is_mismatch(&r1) { EntityValue(s, pos) } else { r1 } }
}

/// [^%&"]+ | Reference | PEReference
#[verifier::opaque]
pub open spec fn spec_entity_value_dq_item(s: Seq<u8>, pos: usize) -> Scanned
{
    alt(spec_is_not(s, pos, NOT_IN_ENTITY_VALUE_DQ@), alt(spec_Reference(s, pos), spec_PEReference_69(s, pos)))
}

/// [^%&"]+ | Reference | PEReference
pub fn entity_value_dq_item(s: &[u8], pos: usize) -> (r: Scanned)
    requires
        pos <= s.len(),
    ensures
        r == spec_entity_value_dq_item(s@, pos),
        well_placed(r, pos as int, s.len() as int),
{
    reveal(spec_entity_value_dq_item);
    { let r2 = is_not(s, pos, &NOT_IN_ENTITY_VALUE_DQ); if is_mismatch(&r2) { { let r1 = Reference(s, pos); if is_mismatch(&r1) { PEReference_69(s, pos) } else { r1 } } } else { r2 } }
}

/// [^%&']+ | Reference | PEReference
#[verifier::opaque]
pub open spec fn spec_entity_value_sq_item(s: Seq<u8>, pos: usize) -> Scanned
{
    alt(spec_is_not(s, pos, NOT_IN_ENTITY_VALUE_SQ@), alt(spec_Reference(s, pos), spec_PEReference_69(s, pos)))
}

/// [^%&']+ | Reference | PEReference
pub fn entity_value_sq_item(s: &[u8], pos: usize) -> (r: Scanned)
    requires
        pos <= s.len(),
    ensures
        r == spec_entity_value_sq_item(s@, pos),
        well_placed(r, pos as int, s.len() as int),
{
    reveal(spec_entity_value_sq_item);
    { let r2 = is_not(s, pos, &NOT_IN_ENTITY_VALUE_SQ); if is_mismatch(&r2) { { let r1 = Reference(s, pos); if is_mismatch(&r1) { PEReference_69(s, pos) } else { r1 } } } else { r2 } }
}

/// ([^%&"] | PEReference | Reference)*
pub open spec fn spec_many0_entity_value_dq(s: Seq<u8>, pos: usize) -> Scanned
    decreases s.len() - pos,
{
    match spec_entity_value_dq_item(s, pos) {
        Err(Fail::Error(_, _)) => covers(pos, pos),
        Err(f) => Err(f),
        Ok(m) => if pos < m.rest && m.rest <= s.len() {
            recognize(pos, spec_many0_entity_value_dq(s, m.rest))
        } else {
            Err(Fail::Error(pos, ErrorKind::Many0))
        },
    }
}

/// ([^%&"] | PEReference | Reference)*
pub fn many0_entity_value_dq(s: &[u8], pos: usize) -> (r: Scanned)
    requires
        pos <= s.len(),
    ensures
        r == spec_many0_entity_value_dq(s@, pos),
        well_placed(r, pos as int, s.len() as int),
{
    let mut i = pos;
    loop
        invariant
            pos <= i <= s.len(),
            spec_many0_entity_value_dq(s@, pos) == recognize(pos, spec_many0_entity_value_dq(s@, i)),
        decreases s.len() - i,
    {
        let step = entity_value_dq_item(s, i);
        match step {
            Err(Fail::Error(_, _)) => {
                return Ok(Matched { rest: i, start: pos, end: i });
            }
            Err(f) => {
                return Err(f);
            }
            Ok(m) => {
                if i < m.rest && m.rest <= s.len() {
                    i = m.rest;
                } else {
                    return Err(Fail::Error(i, ErrorKind::Many0));
                }
            }
        }
    }
}

/// ([^%&'] | PEReference | Reference)*
pub open spec fn spec_many0_entity_value_sq(s: Seq<u8>, pos: usize) -> Scanned
    decreases s.len() - pos,
{
    match spec_entity_value_sq_item(s, pos) {
        Err(Fail::Error(_, _)) => covers(pos, pos),
        Err(f) => Err(f),
        Ok(m) => if pos < m.rest && m.rest <= s.len() {
            recognize(pos, spec_many0_entity_value_sq(s, m.rest))
        } else {
            Err(Fail::Error(pos, ErrorKind::Many0))
        },
    }
}

/// ([^%&'] | PEReference | Reference)*
pub fn many0_entity_value_sq(s: &[u8], pos: usize) -> (r: Scanned)
    requires
        pos <= s.len(),
    ensures
        r == spec_many0_entity_value_sq(s@, pos),
        well_placed(r, pos as int, s.len() as int),
{
    let mut i = pos;
    loop
        invariant
            pos <= i <= s.len(),
            spec_many0_entity_value_sq(s@, pos) == recognize(pos, spec_many0_entity_value_sq(s@, i)),
        decreases s.len() - i,
    {
        let step = entity_value_sq_item(s, i);
        match step {
            Err(Fail::Error(_, _)) => {
                return Ok(Matched { rest: i, start: pos, end: i });
            }
            Err(f) => {
                return Err(f);
            }
            Ok(m) => {
                if i < m.rest && m.rest <= s.len() {
                    i = m.rest;
                } else {
                    return Err(Fail::Error(i, ErrorKind::Many0));
                }
            }
        }
    }
}

/// [9] EntityValue ::= '"' ([^%&"] | PEReference | Reference)* '"' | "'" ([^%&'] | PEReference | Reference)* "'" (hands back the part between the quotes)
#[verifier::opaque]
pub open spec fn spec_EntityValue(s: Seq<u8>, pos: usize) -> Scanned
{
    alt(match spec_char(s, pos, 34u8) {
        Err(f) => Err(f),
        Ok(m1) => match spec_many0_entity_value_dq(s, m1.rest) {
            Err(f) => Err(f),
            Ok(m2) => match spec_char(s, m2.rest, 34u8) {
                Err(f) => Err(f),
                Ok(m3) => Ok(Matched { rest: m3.rest, start: m2.start, end: m2.end }),
            },
        },
    }, match spec_char(s, pos, 39u8) {
        Err(f) => Err(f),
        Ok(m4) => match spec_many0_entity_value_sq(s, m4.rest) {
            Err(f) => Err(f),
            Ok(m5) => match spec_char(s, m5.rest, 39u8) {
                Err(f) => Err(f),
                Ok(m6) => Ok(Matched { rest: m6.rest, start: m5.start, end: m5.end }),
            },
        },
    })
}

/// [9] EntityValue ::= '"' ([^%&"] | PEReference | Reference)* '"' | "'" ([^%&'] | PEReference | Reference)* "'" (hands back the part between the quotes)
pub fn EntityValue(s: &[u8], pos: usize) -> (r: Scanned)
    requires
        pos <= s.len(),
    ensures
        r == spec_EntityValue(s@, pos),
        well_placed(r, pos as int, s.len() as int),
{
    reveal(spec_EntityValue);
    { let r13 = match char_(s, pos, 34u8) {
        Err(f) => Err(f),
        Ok(m7) => match many0_entity_value_dq(s, m7.rest) {
            Err(f) => Err(f),
            Ok(m8) => match char_(s, m8.rest, 34u8) {
                Err(f) => Err(f),
                Ok(m9) => Ok(Matched { rest: m9.rest, start: m8.start, end: m8.end }),
            },
        },
    }; if is_mismatch(&r13) { match char_(s, pos, 39u8) {
        Err(f) => Err(f),
        Ok(m10) => match many0_entity_value_sq(s, m10.rest) {
            Err(f) => Err(f),
            Ok(m11) => match char_(s, m11.rest, 39u8) {
                Err(f) => Err(f),
                Ok(m12) => Ok(Matched { rest: m12.rest, start: m11.start, end: m11.end }),
            },
        },
    } } else { r13 } }
}

/// AttDef*
pub open spec fn spec_many0_att_defs(s: Seq<u8>, pos: usize) -> Scanned
    decreases s.len() - pos,
{
    match spec_AttDef_53(s, pos) {
        Err(Fail::Error(_, _)) => covers(pos, pos),
        Err(f) => Err(f),
        Ok(m) => if pos < m.rest && m.rest <= s.len() {
            recognize(pos, spec_many0_att_defs(s, m.rest))
        } else {
            Err(Fail::Error(pos, ErrorKind::Many0))
        },
    }
}

/// AttDef*
pub fn many0_att_defs(s: &[u8], pos: usize) -> (r: Scanned)
    requires
        pos <= s.len(),
    ensures
        r == spec_many0_att_defs(s@, pos),
        well_placed(r, pos as int, s.len() as int),
{
    let mut i = pos;
    loop
        invariant
            pos <= i <= s.len(),
            spec_many0_att_defs(s@, pos) == recognize(pos, spec_many0_att_defs(s@, i)),
        decreases s.len() - i,
    {
        let step = AttDef_53(s, i);
        match step {
            Err(Fail::Error(_, _)) => {
                return Ok(Matched { rest: i, start: pos, end: i });
            }
            Err(f) => {
                return Err(f);
            }
            Ok(m) => {
                if i < m.rest && m.rest <= s.len() {
                    i = m.rest;
                } else {
                    return Err(Fail::Error(i, ErrorKind::Many0));
                }
            }
        }
    }
}

/// [52] AttlistDecl ::= '<!ATTLIST' S Name AttDef* S? '>'
#[verifier::opaque]
pub open spec fn spec_AttlistDecl_52(s: Seq<u8>, pos: usize) -> Scanned
{
    match spec_tag(s, pos, LT_BANG_ATTLIST@) {
        Err(f) => Err(f),
        Ok(m1) => match spec_multispace1(s, m1.rest) {
            Err(f) => Err(f),
            Ok(m2) => match spec_name(s, m2.rest) {
                Err(f) => Err(f),
                Ok(m3) => match spec_many0_att_defs(s, m3.rest) {
                    Err(f) => Err(f),
                    Ok(m4) => match spec_multispace0(s, m4.rest) {
                        Err(f) => Err(f),
                        Ok(m5) => match spec_tag(s, m5.rest, GT@) {
                            Err(f) => Err(f),
                            Ok(m6) => Ok(Matched { rest: m6.rest, start: pos, end: m6.rest }),
                        },
                    },
                },
            },
        },
    }
}

/// [52] AttlistDecl ::= '<!ATTLIST' S Name AttDef* S? '>'
pub fn AttlistDecl_52(s: &[u8], pos: usize) -> (r: Scanned)
    requires
        pos <= s.len(),
    ensures
        r == spec_AttlistDecl_52(s@, pos),
        well_placed(r, pos as int, s.len() as int),
{
    reveal(spec_AttlistDecl_52);
    match tag(s, pos, &LT_BANG_ATTLIST) {
        Err(f) => Err(f),
        Ok(m7) => match multispace1(s, m7.rest) {
            Err(f) => Err(f),
            Ok(m8) => match name(s, m8.rest) {
                Err(f) => Err(f),
                Ok(m9) => match many0_att_defs(s, m9.rest) {
                    Err(f) => Err(f),
                    Ok(m10) => match multispace0(s, m10.rest) {
                        Err(f) => Err(f),
                        Ok(m11) => match tag(s, m11.rest, &GT) {
                            Err(f) => Err(f),
                            Ok(m12) => Ok(Matched { rest: m12.rest, start: pos, end: m12.rest }),
                        },
                    },
                },
            },
        },
    }
}

/// [53] AttDef ::= S Name S AttType S DefaultDecl
#[verifier::opaque]
pub open spec fn spec_AttDef_53(s: Seq<u8>, pos: usize) -> Scanned
{
    match spec_multispace1(s, pos) {
        Err(f) => Err(f),
        Ok(m1) => match spec_name(s, m1.rest) {
            Err(f) => Err(f),
            Ok(m2) => match spec_multispace1(s, m2.rest) {
                Err(f) => Err(f),
                Ok(m3) => match spec_AttType_54(s, m3.rest) {
                    Err(f) => Err(f),
                    Ok(m4) => match spec_multispace1(s, m4.rest) {
                        Err(f) => Err(f),
                        Ok(m5) => match spec_DefaultDecl_60(s, m5.rest) {
                            Err(f) => Err(f),
                            Ok(m6) => Ok(Matched { rest: m6.rest, start: pos, end: m6.rest }),
                        },
                    },
                },
            },
        },
    }
}

/// [53] AttDef ::= S Name S AttType S DefaultDecl
pub fn AttDef_53(s: &[u8], pos: usize) -> (r: Scanned)
    requires
        pos <= s.len(),
    ensures
        r == spec_AttDef_53(s@, pos),
        well_placed(r, pos as int, s.len() as int),
{
    reveal(spec_AttDef_53);
    match multispace1(s, pos) {
        Err(f) => Err(f),
        Ok(m7) => match name(s, m7.rest) {
            Err(f) => Err(f),
            Ok(m8) => match multispace1(s, m8.rest) {
                Err(f) => Err(f),
                Ok(m9) => match AttType_54(s, m9.rest) {
                    Err(f) => Err(f),
                    Ok(m10) => match multispace1(s, m10.rest) {
                        Err(f) => Err(f),
                        Ok(m11) => match DefaultDecl_60(s, m11.rest) {
                            Err(f) => Err(f),
                            Ok(m12) => Ok(Matched { rest: m12.rest, start: pos, end: m12.rest }),
                        },
                    },
                },
            },
        },
    }
}

/// [60] DefaultDecl ::= '#REQUIRED' | '#IMPLIED' | (('#FIXED' S)? AttValue)
#[verifier::opaque]
pub open spec fn spec_DefaultDecl_60(s: Seq<u8>, pos: usize) -> Scanned
{
    recognize(pos, alt(spec_tag(s, pos, HASH_REQUIRED@), alt(spec_tag(s, pos, HASH_IMPLIED@), match opt(pos, match spec_tag(s, pos, HASH_FIXED@) {
        Err(f) => Err(f),
        Ok(m3) => match spec_multispace1(s, m3.rest) {
            Err(f) => Err(f),
            Ok(m4) => Ok(Matched { rest: m4.rest, start: pos, end: m4.rest }),
        },
    }) {
        Err(f) => Err(f),
        Ok(m1) => match spec_AttValue(s, m1.rest) {
            Err(f) => Err(f),
            Ok(m2) => Ok(Matched { rest: m2.rest, start: pos, end: m2.rest }),
        },
    })))
}

/// [60] DefaultDecl ::= '#REQUIRED' | '#IMPLIED' | (('#FIXED' S)? AttValue)
pub fn DefaultDecl_60(s: &[u8], pos: usize) -> (r: Scanned)
    requires
        pos <= s.len(),
    ensures
        r == spec_DefaultDecl_60(s@, pos),
        well_placed(r, pos as int, s.len() as int),
{
    reveal(spec_DefaultDecl_60);
    recognized(pos, { let r10 = tag(s, pos, &HASH_REQUIRED); if is_mismatch(&r10) { { let r9 = tag(s, pos, &HASH_IMPLIED); if is_mismatch(&r9) { match optional(pos, match tag(s, pos, &HASH_FIXED) {
        Err(f) => Err(f),
        Ok(m7) => match multispace1(s, m7.rest) {
            Err(f) => Err(f),
            Ok(m8) => Ok(Matched { rest: m8.rest, start: pos, end: m8.rest }),
        },
    }) {
        Err(f) => Err(f),
        Ok(m5) => match AttValue(s, m5.rest) {
            Err(f) => Err(f),
            Ok(m6) => Ok(Matched { rest: m6.rest, start: pos, end: m6.rest }),
        },
    } } else { r9 } } } else { r10 } })
}

/// [57] EnumeratedType ::= NotationType | Enumeration
#[verifier::opaque]
pub open spec fn spec_EnumeratedType_57(s: Seq<u8>, pos: usize) -> Scanned
{
    alt(spec_NotationType_58(s, pos), spec_Enumeration_59(s, pos))
}

/// [57] EnumeratedType ::= NotationType | Enumeration
pub fn EnumeratedType_57(s: &[u8], pos: usize) -> (r: Scanned)
    requires
        pos <= s.len(),
    ensures
        r == spec_EnumeratedType_57(s@, pos),
        well_placed(r, pos as int, s.len() as int),
{
    reveal(spec_EnumeratedType_57);
    { let r1 = NotationType_58(s, pos); if is_mismatch(&r1) { Enumeration_59(s, pos) } else { r1 } }
}

/// S? '|' S? Name S?
#[verifier::opaque]
pub open spec fn spec_notation_type_item(s: Seq<u8>, pos: usize) -> Scanned
{
    match spec_multispace0(s, pos) {
        Err(f) => Err(f),
        Ok(m1) => match spec_tag(s, m1.rest, BAR@) {
            Err(f) => Err(f),
            Ok(m2) => match spec_multispace0(s, m2.rest) {
                Err(f) => Err(f),
                Ok(m3) => match spec_name(s, m3.rest) {
                    Err(f) => Err(f),
                    Ok(m4) => match spec_multispace0(s, m4.rest) {
                        Err(f) => Err(f),
                        Ok(m5) => Ok(Matched { rest: m5.rest, start: pos, end: m5.rest }),
                    },
                },
            },
        },
    }
}

/// S? '|' S? Name S?
pub fn notation_type_item(s: &[u8], pos: usize) -> (r: Scanned)
    requires
        pos <= s.len(),
    ensures
        r == spec_notation_type_item(s@, pos),
        well_placed(r, pos as int, s.len() as int),
{
    reveal(spec_notation_type_item);
    match multispace0(s, pos) {
        Err(f) => Err(f),
        Ok(m6) => match tag(s, m6.rest, &BAR) {
            Err(f) => Err(f),
            Ok(m7) => match multispace0(s, m7.rest) {
                Err(f) => Err(f),
                Ok(m8) => match name(s, m8.rest) {
                    Err(f) => Err(f),
                    Ok(m9) => match multispace0(s, m9.rest) {
                        Err(f) => Err(f),
                        Ok(m10) => Ok(Matched { rest: m10.rest, start: pos, end: m10.rest }),
                    },
                },
            },
        },
    }
}

/// (S? '|' S? Name S?)*
pub open spec fn spec_many0_notation_type(s: Seq<u8>, pos: usize) -> Scanned
    decreases s.len() - pos,
{
    match spec_notation_type_item(s, pos) {
        Err(Fail::Error(_, _)) => covers(pos, pos),
        Err(f) => Err(f),
        Ok(m) => if pos < m.rest && m.rest <= s.len() {
            recognize(pos, spec_many0_notation_type(s, m.rest))
        } else {
            Err(Fail::Error(pos, ErrorKind::Many0))
        },
    }
}

/// (S? '|' S? Name S?)*
pub fn many0_notation_type(s: &[u8], pos: usize) -> (r: Scanned)
    requires
        pos <= s.len(),
    ensures
        r == spec_many0_notation_type(s@, pos),
        well_placed(r, pos as int, s.len() as int),
{
    let mut i = pos;
    loop
        invariant
            pos <= i <= s.len(),
            spec_many0_notation_type(s@, pos) == recognize(pos, spec_many0_notation_type(s@, i)),
        decreases s.len() - i,
    {
        let step = notation_type_item(s, i);
        match step {
            Err(Fail::Error(_, _)) => {
                return Ok(Matched { rest: i, start: pos, end: i });
            }
            Err(f) => {
                return Err(f);
            }
            Ok(m) => {
                if i < m.rest && m.rest <= s.len() {
                    i = m.rest;
                } else {
                    return Err(Fail::Error(i, ErrorKind::Many0));
                }
            }
        }
    }
}

/// [58] NotationType ::= 'NOTATION' S '(' S? Name (S? '|' S? Name)* S? ')'
#[verifier::opaque]
pub open spec fn spec_NotationType_58(s: Seq<u8>, pos: usize) -> Scanned
{
    match spec_tag(s, pos, NOTATION@) {
        Err(f) => Err(f),
        Ok(m1) => match spec_multispace1(s, m1.rest) {
            Err(f) => Err(f),
            Ok(m2) => match spec_tag(s, m2.rest, LPAREN@) {
                Err(f) => Err(f),
                Ok(m3) => match spec_multispace0(s, m3.rest) {
                    Err(f) => Err(f),
                    Ok(m4) => match spec_name(s, m4.rest) {
                        Err(f) => Err(f),
                        Ok(m5) => match spec_many0_notation_type(s, m5.rest) {
                            Err(f) => Err(f),
                            Ok(m6) => match spec_tag(s, m6.rest, RPAREN@) {
                                Err(f) => Err(f),
                                Ok(m7) => Ok(Matched { rest: m7.rest, start: pos, end: m7.rest }),
                            },
                        },
                    },
                },
            },
        },
    }
}

/// [58] NotationType ::= 'NOTATION' S '(' S? Name (S? '|' S? Name)* S? ')'
pub fn NotationType_58(s: &[u8], pos: usize) -> (r: Scanned)
    requires
        pos <= s.len(),
    ensures
        r == spec_NotationType_58(s@, pos),
        well_placed(r, pos as int, s.len() as int),
{
    reveal(spec_NotationType_58);
    match tag(s, pos, &NOTATION) {
        Err(f) => Err(f),
        Ok(m8) => match multispace1(s, m8.rest) {
            Err(f) => Err(f),
            Ok(m9) => match tag(s, m9.rest, &LPAREN) {
                Err(f) => Err(f),
                Ok(m10) => match multispace0(s, m10.rest) {
                    Err(f) => Err(f),
                    Ok(m11) => match name(s, m11.rest) {
                        Err(f) => Err(f),
                        Ok(m12) => match many0_notation_type(s, m12.rest) {
                            Err(f) => Err(f),
                            Ok(m13) => match tag(s, m13.rest, &RPAREN) {
                                Err(f) => Err(f),
                                Ok(m14) => Ok(Matched { rest: m14.rest, start: pos, end: m14.rest }),
                            },
                        },
                    },
                },
            },
        },
    }
}

/// S? '|' S? Nmtoken
#[verifier::opaque]
pub open spec fn spec_enumeration_item(s: Seq<u8>, pos: usize) -> Scanned
{
    match spec_multispace0(s, pos) {
        Err(f) => Err(f),
        Ok(m1) => match spec_tag(s, m1.rest, BAR@) {
            Err(f) => Err(f),
            Ok(m2) => match spec_multispace0(s, m2.rest) {
                Err(f) => Err(f),
                Ok(m3) => match spec_Nmtoken_7(s, m3.rest) {
                    Err(f) => Err(f),
                    Ok(m4) => Ok(Matched { rest: m4.rest, start: pos, end: m4.rest }),
                },
            },
        },
    }
}

/// S? '|' S? Nmtoken
pub fn enumeration_item(s: &[u8], pos: usize) -> (r: Scanned)
    requires
        pos <= s.len(),
    ensures
        r == spec_enumeration_item(s@, pos),
        well_placed(r, pos as int, s.len() as int),
{
    reveal(spec_enumeration_item);
    match multispace0(s, pos) {
        Err(f) => Err(f),
        Ok(m5) => match tag(s, m5.rest, &BAR) {
            Err(f) => Err(f),
            Ok(m6) => match multispace0(s, m6.rest) {
                Err(f) => Err(f),
                Ok(m7) => match Nmtoken_7(s, m7.rest) {
                    Err(f) => Err(f),
                    Ok(m8) => Ok(Matched { rest: m8.rest, start: pos, end: m8.rest }),
                },
            },
        },
    }
}

/// (S? '|' S? Nmtoken)*
pub open spec fn spec_many0_enumeration(s: Seq<u8>, pos: usize) -> Scanned
    decreases s.len() - pos,
{
    match spec_enumeration_item(s, pos) {
        Err(Fail::Error(_, _)) => covers(pos, pos),
        Err(f) => Err(f),
        Ok(m) => if pos < m.rest && m.rest <= s.len() {
            recognize(pos, spec_many0_enumeration(s, m.rest))
        } else {
            Err(Fail::Error(pos, ErrorKind::Many0))
        },
    }
}

/// (S? '|' S? Nmtoken)*
pub fn many0_enumeration(s: &[u8], pos: usize) -> (r: Scanned)
    requires
        pos <= s.len(),
    ensures
        r == spec_many0_enumeration(s@, pos),
        well_placed(r, pos as int, s.len() as int),
{
    let mut i = pos;
    loop
        invariant
            pos <= i <= s.len(),
            spec_many0_enumeration(s@, pos) == recognize(pos, spec_many0_enumeration(s@, i)),
        decreases s.len() - i,
    {
        let step = enumeration_item(s, i);
        match step {
            Err(Fail::Error(_, _)) => {
                return Ok(Matched { rest: i, start: pos, end: i });
            }
            Err(f) => {
                return Err(f);
            }
            Ok(m) => {
                if i < m.rest && m.rest <= s.len() {
                    i = m.rest;
                } else {
                    return Err(Fail::Error(i, ErrorKind::Many0));
                }
            }
        }
    }
}

/// [59] Enumeration ::= '(' S? Nmtoken (S? '|' S? Nmtoken)* S? ')'
#[verifier::opaque]
pub open spec fn spec_Enumeration_59(s: Seq<u8>, pos: usize) -> Scanned
{
    match spec_tag(s, pos, LPAREN@) {
        Err(f) => Err(f),
        Ok(m1) => match spec_multispace0(s, m1.rest) {
            Err(f) => Err(f),
            Ok(m2) => match spec_Nmtoken_7(s, m2.rest) {
                Err(f) => Err(f),
                Ok(m3) => match spec_many0_enumeration(s, m3.rest) {
                    Err(f) => Err(f),
                    Ok(m4) => match spec_multispace0(s, m4.rest) {
                        Err(f) => Err(f),
                        Ok(m5) => match spec_tag(s, m5.rest, RPAREN@) {
                            Err(f) => Err(f),
                            Ok(m6) => Ok(Matched { rest: m6.rest, start: pos, end: m6.rest }),
                        },
                    },
                },
            },
        },
    }
}

/// [59] Enumeration ::= '(' S? Nmtoken (S? '|' S? Nmtoken)* S? ')'
pub fn Enumeration_59(s: &[u8], pos: usize) -> (r: Scanned)
    requires
        pos <= s.len(),
    ensures
        r == spec_Enumeration_59(s@, pos),
        well_placed(r, pos as int, s.len() as int),
{
    reveal(spec_Enumeration_59);
    match tag(s, pos, &LPAREN) {
        Err(f) => Err(f),
        Ok(m7) => match multispace0(s, m7.rest) {
            Err(f) => Err(f),
            Ok(m8) => match Nmtoken_7(s, m8.rest) {
                Err(f) => Err(f),
                Ok(m9) => match many0_enumeration(s, m9.rest) {
                    Err(f) => Err(f),
                    Ok(m10) => match multispace0(s, m10.rest) {
                        Err(f) => Err(f),
                        Ok(m11) => match tag(s, m11.rest, &RPAREN) {
                            Err(f) => Err(f),
                            Ok(m12) => Ok(Matched { rest: m12.rest, start: pos, end: m12.rest }),
                        },
                    },
                },
            },
        },
    }
}

/// [54] AttType ::= StringType | TokenizedType | EnumeratedType
#[verifier::opaque]
pub open spec fn spec_AttType_54(s: Seq<u8>, pos: usize) -> Scanned
{
    alt(spec_StringType_55(s, pos), alt(spec_TokenizedType_56(s, pos), spec_EnumeratedType_57(s, pos)))
}

/// [54] AttType ::= StringType | TokenizedType | EnumeratedType
pub fn AttType_54(s: &[u8], pos: usize) -> (r: Scanned)
    requires
        pos <= s.len(),
    ensures
        r == spec_AttType_54(s@, pos),
        well_placed(r, pos as int, s.len() as int),
{
    reveal(spec_AttType_54);
    { let r2 = StringType_55(s, pos); if is_mismatch(&r2) { { let r1 = TokenizedType_56(s, pos); if is_mismatch(&r1) { EnumeratedType_57(s, pos) } else { r1 } } } else { r2 } }
}

/// [7] Nmtoken ::= (NameChar)+
#[verifier::opaque]
pub open spec fn spec_Nmtoken_7(s: Seq<u8>, pos: usize) -> Scanned
{
    match spec_one_char(s, pos, CharClass::Name) {
        Err(f) => Err(f),
        Ok(m1) => match spec_many0_namechar(s, m1.rest) {
            Err(f) => Err(f),
            Ok(m2) => Ok(Matched { rest: m2.rest, start: pos, end: m2.rest }),
        },
    }
}

/// [7] Nmtoken ::= (NameChar)+
pub fn Nmtoken_7(s: &[u8], pos: usize) -> (r: Scanned)
    requires
        pos <= s.len(),
    ensures
        r == spec_Nmtoken_7(s@, pos),
        well_placed(r, pos as int, s.len() as int),
{
    reveal(spec_Nmtoken_7);
    match one_char(s, pos, CharClass::Name) {
        Err(f) => Err(f),
        Ok(m3) => match many0_namechar(s, m3.rest) {
            Err(f) => Err(f),
            Ok(m4) => Ok(Matched { rest: m4.rest, start: pos, end: m4.rest }),
        },
    }
}

/// #x20 Nmtoken
#[verifier::opaque]
pub open spec fn spec_nmtokens_item(s: Seq<u8>, pos: usize) -> Scanned
{
    match spec_char(s, pos, 32u8) {
        Err(f) => Err(f),
        Ok(m1) => match spec_Nmtoken_7(s, m1.rest) {
            Err(f) => Err(f),
            Ok(m2) => Ok(Matched { rest: m2.rest, start: pos, end: m2.rest }),
        },
    }
}

/// #x20 Nmtoken
pub fn nmtokens_item(s: &[u8], pos: usize) -> (r: Scanned)
    requires
        pos <= s.len(),
    ensures
        r == spec_nmtokens_item(s@, pos),
        well_placed(r, pos as int, s.len() as int),
{
    reveal(spec_nmtokens_item);
    match char_(s, pos, 32u8) {
        Err(f) => Err(f),
        Ok(m3) => match Nmtoken_7(s, m3.rest) {
            Err(f) => Err(f),
            Ok(m4) => Ok(Matched { rest: m4.rest, start: pos, end: m4.rest }),
        },
    }
}

/// (#x20 Nmtoken)*
pub open spec fn spec_many0_nmtokens(s: Seq<u8>, pos: usize) -> Scanned
    decreases s.len() - pos,
{
    match spec_nmtokens_item(s, pos) {
        Err(Fail::Error(_, _)) => covers(pos, pos),
        Err(f) => Err(f),
        Ok(m) => if pos < m.rest && m.rest <= s.len() {
            recognize(pos, spec_many0_nmtokens(s, m.rest))
        } else {
            Err(Fail::Error(pos, ErrorKind::Many0))
        },
    }
}

/// (#x20 Nmtoken)*
pub fn many0_nmtokens(s: &[u8], pos: usize) -> (r: Scanned)
    requires
        pos <= s.len(),
    ensures
        r == spec_many0_nmtokens(s@, pos),
        well_placed(r, pos as int, s.len() as int),
{
    let mut i = pos;
    loop
        invariant
            pos <= i <= s.len(),
            spec_many0_nmtokens(s@, pos) == recognize(pos, spec_many0_nmtokens(s@, i)),
        decreases s.len() - i,
    {
        let step = nmtokens_item(s, i);
        match step {
            Err(Fail::Error(_, _)) => {
                return Ok(Matched { rest: i, start: pos, end: i });
            }
            Err(f) => {
                return Err(f);
            }
            Ok(m) => {
                if i < m.rest && m.rest <= s.len() {
                    i = m.rest;
                } else {
                    return Err(Fail::Error(i, ErrorKind::Many0));
                }
            }
        }
    }
}

/// [8] Nmtokens ::= Nmtoken (#x20 Nmtoken)*
#[verifier::opaque]
pub open spec fn spec_Nmtokens_8(s: Seq<u8>, pos: usize) -> Scanned
{
    match spec_Nmtoken_7(s, pos) {
        Err(f) => Err(f),
        Ok(m1) => match spec_many0_nmtokens(s, m1.rest) {
            Err(f) => Err(f),
            Ok(m2) => Ok(Matched { rest: m2.rest, start: pos, end: m2.rest }),
        },
    }
}

/// [8] Nmtokens ::= Nmtoken (#x20 Nmtoken)*
pub fn Nmtokens_8(s: &[u8], pos: usize) -> (r: Scanned)
    requires
        pos <= s.len(),
    ensures
        r == spec_Nmtokens_8(s@, pos),
        well_placed(r, pos as int, s.len() as int),
{
    reveal(spec_Nmtokens_8);
    match Nmtoken_7(s, pos) {
        Err(f) => Err(f),
        Ok(m3) => match many0_nmtokens(s, m3.rest) {
            Err(f) => Err(f),
            Ok(m4) => Ok(Matched { rest: m4.rest, start: pos, end: m4.rest }),
        },
    }
}

/// [55] StringType ::= 'CDATA'
#[verifier::opaque]
pub open spec fn spec_StringType_55(s: Seq<u8>, pos: usize) -> Scanned
{
    spec_tag(s, pos, CDATA@)
}

/// [55] StringType ::= 'CDATA'
pub fn StringType_55(s: &[u8], pos: usize) -> (r: Scanned)
    requires
        pos <= s.len(),
    ensures
        r == spec_StringType_55(s@, pos),
        well_placed(r, pos as int, s.len() as int),
{
    reveal(spec_StringType_55);
    tag(s, pos, &CDATA)
}

/// [56] TokenizedType ::= 'ID' | 'IDREF' | 'IDREFS' | 'ENTITY' | 'ENTITIES' | 'NMTOKEN' | 'NMTOKENS' (longer keywords tried first where one begins another)
#[verifier::opaque]
pub open spec fn spec_TokenizedType_56(s: Seq<u8>, pos: usize) -> Scanned
{
    recognize(pos, alt(spec_tag(s, pos, IDREFS@), alt(spec_tag(s, pos, IDREF@), alt(spec_tag(s, pos, ID@), alt(spec_tag(s, pos, ENTITY@), alt(spec_tag(s, pos, ENTITIES@), alt(spec_tag(s, pos, NMTOKENS@), spec_tag(s, pos, NMTOKEN@))))))))
}

/// [56] TokenizedType ::= 'ID' | 'IDREF' | 'IDREFS' | 'ENTITY' | 'ENTITIES' | 'NMTOKEN' | 'NMTOKENS' (longer keywords tried first where one begins another)
pub fn TokenizedType_56(s: &[u8], pos: usize) -> (r: Scanned)
    requires
        pos <= s.len(),
    ensures
        r == spec_TokenizedType_56(s@, pos),
        well_placed(r, pos as int, s.len() as int),
{
    reveal(spec_TokenizedType_56);
    recognized(pos, { let r6 = tag(s, pos, &IDREFS); if is_mismatch(&r6) { { let r5 = tag(s, pos, &IDREF); if is_mismatch(&r5) { { let r4 = tag(s, pos, &ID); if is_mismatch(&r4) { { let r3 = tag(s, pos, &ENTITY); if is_mismatch(&r3) { { let r2 = tag(s, pos, &ENTITIES); if is_mismatch(&r2) { { let r1 = tag(s, pos, &NMTOKENS); if is_mismatch(&r1) { tag(s, pos, &NMTOKEN) } else { r1 } } } else { r2 } } } else { r3 } } } else { r4 } } } else { r5 } } } else { r6 } })
}

/// [45] elementdecl ::= '<!ELEMENT' S Name S contentspec S? '>'
#[verifier::opaque]
pub open spec fn spec_elementdecl_45(s: Seq<u8>, pos: usize) -> Scanned
{
    match spec_tag(s, pos, LT_BANG_ELEMENT@) {
        Err(f) => Err(f),
        Ok(m1) => match spec_multispace1(s, m1.rest) {
            Err(f) => Err(f),
            Ok(m2) => match spec_name(s, m2.rest) {
                Err(f) => Err(f),
                Ok(m3) => match spec_multispace1(s, m3.rest) {
                    Err(f) => Err(f),
                    Ok(m4) => match spec_contentspec_46(s, m4.rest) {
                        Err(f) => Err(f),
                        Ok(m5) => match spec_multispace0(s, m5.rest) {
                            Err(f) => Err(f),
                            Ok(m6) => match spec_tag(s, m6.rest, GT@) {
                                Err(f) => Err(f),
                                Ok(m7) => Ok(Matched { rest: m7.rest, start: pos, end: m7.rest }),
                            },
                        },
                    },
                },
            },
        },
    }
}

/// [45] elementdecl ::= '<!ELEMENT' S Name S contentspec S? '>'
pub fn elementdecl_45(s: &[u8], pos: usize) -> (r: Scanned)
    requires
        pos <= s.len(),
    ensures
        r == spec_elementdecl_45(s@, pos),
        well_placed(r, pos as int, s.len() as int),
{
    reveal(spec_elementdecl_45);
    match tag(s, pos, &LT_BANG_ELEMENT) {
        Err(f) => Err(f),
        Ok(m8) => match multispace1(s, m8.rest) {
            Err(f) => Err(f),
            Ok(m9) => match name(s, m9.rest) {
                Err(f) => Err(f),
                Ok(m10) => match multispace1(s, m10.rest) {
                    Err(f) => Err(f),
                    Ok(m11) => match contentspec_46(s, m11.rest) {
                        Err(f) => Err(f),
                        Ok(m12) => match multispace0(s, m12.rest) {
                            Err(f) => Err(f),
                            Ok(m13) => match tag(s, m13.rest, &GT) {
                                Err(f) => Err(f),
                                Ok(m14) => Ok(Matched { rest: m14.rest, start: pos, end: m14.rest }),
                            },
                        },
                    },
                },
            },
        },
    }
}

/// [46] contentspec ::= 'EMPTY' | 'ANY' | Mixed | children
#[verifier::opaque]
pub open spec fn spec_contentspec_46(s: Seq<u8>, pos: usize) -> Scanned
{
    recognize(pos, alt(spec_tag(s, pos, EMPTY@), alt(spec_tag(s, pos, ANY@), alt(spec_Mixed_51(s, pos), spec_children_47(s, pos)))))
}

/// [46] contentspec ::= 'EMPTY' | 'ANY' | Mixed | children
pub fn contentspec_46(s: &[u8], pos: usize) -> (r: Scanned)
    requires
        pos <= s.len(),
    ensures
        r == spec_contentspec_46(s@, pos),
        well_placed(r, pos as int, s.len() as int),
{
    reveal(spec_contentspec_46);
    recognized(pos, { let r3 = tag(s, pos, &EMPTY); if is_mismatch(&r3) { { let r2 = tag(s, pos, &ANY); if is_mismatch(&r2) { { let r1 = Mixed_51(s, pos); if is_mismatch(&r1) { children_47(s, pos) } else { r1 } } } else { r2 } } } else { r3 } })
}

/// S? '|' S? Name
#[verifier::opaque]
pub open spec fn spec_mixed_item(s: Seq<u8>, pos: usize) -> Scanned
{
    match spec_multispace0(s, pos) {
        Err(f) => Err(f),
        Ok(m1) => match spec_tag(s, m1.rest, BAR@) {
            Err(f) => Err(f),
            Ok(m2) => match spec_multispace0(s, m2.rest) {
                Err(f) => Err(f),
                Ok(m3) => match spec_name(s, m3.rest) {
                    Err(f) => Err(f),
                    Ok(m4) => Ok(Matched { rest: m4.rest, start: pos, end: m4.rest }),
                },
            },
        },
    }
}

/// S? '|' S? Name
pub fn mixed_item(s: &[u8], pos: usize) -> (r: Scanned)
    requires
        pos <= s.len(),
    ensures
        r == spec_mixed_item(s@, pos),
        well_placed(r, pos as int, s.len() as int),
{
    reveal(spec_mixed_item);
    match multispace0(s, pos) {
        Err(f) => Err(f),
        Ok(m5) => match tag(s, m5.rest, &BAR) {
            Err(f) => Err(f),
            Ok(m6) => match multispace0(s, m6.rest) {
                Err(f) => Err(f),
                Ok(m7) => match name(s, m7.rest) {
                    Err(f) => Err(f),
                    Ok(m8) => Ok(Matched { rest: m8.rest, start: pos, end: m8.rest }),
                },
            },
        },
    }
}

/// (S? '|' S? Name)*
pub open spec fn spec_many0_mixed(s: Seq<u8>, pos: usize) -> Scanned
    decreases s.len() - pos,
{
    match spec_mixed_item(s, pos) {
        Err(Fail::Error(_, _)) => covers(pos, pos),
        Err(f) => Err(f),
        Ok(m) => if pos < m.rest && m.rest <= s.len() {
            recognize(pos, spec_many0_mixed(s, m.rest))
        } else {
            Err(Fail::Error(pos, ErrorKind::Many0))
        },
    }
}

/// (S? '|' S? Name)*
pub fn many0_mixed(s: &[u8], pos: usize) -> (r: Scanned)
    requires
        pos <= s.len(),
    ensures
        r == spec_many0_mixed(s@, pos),
        well_placed(r, pos as int, s.len() as int),
{
    let mut i = pos;
    loop
        invariant
            pos <= i <= s.len(),
            spec_many0_mixed(s@, pos) == recognize(pos, spec_many0_mixed(s@, i)),
        decreases s.len() - i,
    {
        let step = mixed_item(s, i);
        match step {
            Err(Fail::Error(_, _)) => {
                return Ok(Matched { rest: i, start: pos, end: i });
            }
            Err(f) => {
                return Err(f);
            }
            Ok(m) => {
                if i < m.rest && m.rest <= s.len() {
                    i = m.rest;
                } else {
                    return Err(Fail::Error(i, ErrorKind::Many0));
                }
            }
        }
    }
}

/// [51] Mixed ::= '(' S? '#PCDATA' (S? '|' S? Name)* S? ')*' | '(' S? '#PCDATA' S? ')'
#[verifier::opaque]
pub open spec fn spec_Mixed_51(s: Seq<u8>, pos: usize) -> Scanned
{
    recognize(pos, alt(match spec_tag(s, pos, LPAREN@) {
        Err(f) => Err(f),
        Ok(m1) => match spec_multispace0(s, m1.rest) {
            Err(f) => Err(f),
            Ok(m2) => match spec_tag(s, m2.rest, HASH_PCDATA@) {
                Err(f) => Err(f),
                Ok(m3) => match spec_many0_mixed(s, m3.rest) {
                    Err(f) => Err(f),
                    Ok(m4) => match spec_multispace0(s, m4.rest) {
                        Err(f) => Err(f),
                        Ok(m5) => match spec_tag(s, m5.rest, RPAREN_STAR@) {
                            Err(f) => Err(f),
                            Ok(m6) => Ok(Matched { rest: m6.rest, start: pos, end: m6.rest }),
                        },
                    },
                },
            },
        },
    }, match spec_tag(s, pos, LPAREN@) {
        Err(f) => Err(f),
        Ok(m7) => match spec_multispace0(s, m7.rest) {
            Err(f) => Err(f),
            Ok(m8) => match spec_tag(s, m8.rest, HASH_PCDATA@) {
                Err(f) => Err(f),
                Ok(m9) => match spec_multispace0(s, m9.rest) {
                    Err(f) => Err(f),
                    Ok(m10) => match spec_tag(s, m10.rest, RPAREN@) {
                        Err(f) => Err(f),
                        Ok(m11) => Ok(Matched { rest: m11.rest, start: pos, end: m11.rest }),
                    },
                },
            },
        },
    }))
}

/// [51] Mixed ::= '(' S? '#PCDATA' (S? '|' S? Name)* S? ')*' | '(' S? '#PCDATA' S? ')'
pub fn Mixed_51(s: &[u8], pos: usize) -> (r: Scanned)
    requires
        pos <= s.len(),
    ensures
        r == spec_Mixed_51(s@, pos),
        well_placed(r, pos as int, s.len() as int),
{
    reveal(spec_Mixed_51);
    recognized(pos, { let r23 = match tag(s, pos, &LPAREN) {
        Err(f) => Err(f),
        Ok(m12) => match multispace0(s, m12.rest) {
            Err(f) => Err(f),
            Ok(m13) => match tag(s, m13.rest, &HASH_PCDATA) {
                Err(f) => Err(f),
                Ok(m14) => match many0_mixed(s, m14.rest) {
                    Err(f) => Err(f),
                    Ok(m15) => match multispace0(s, m15.rest) {
                        Err(f) => Err(f),
                        Ok(m16) => match tag(s, m16.rest, &RPAREN_STAR) {
                            Err(f) => Err(f),
                            Ok(m17) => Ok(Matched { rest: m17.rest, start: pos, end: m17.rest }),
                        },
                    },
                },
            },
        },
    }; if is_mismatch(&r23) { match tag(s, pos, &LPAREN) {
        Err(f) => Err(f),
        Ok(m18) => match multispace0(s, m18.rest) {
            Err(f) => Err(f),
            Ok(m19) => match tag(s, m19.rest, &HASH_PCDATA) {
                Err(f) => Err(f),
                Ok(m20) => match multispace0(s, m20.rest) {
                    Err(f) => Err(f),
                    Ok(m21) => match tag(s, m21.rest, &RPAREN) {
                        Err(f) => Err(f),
                        Ok(m22) => Ok(Matched { rest: m22.rest, start: pos, end: m22.rest }),
                    },
                },
            },
        },
    } } else { r23 } })
}

/// [47] children ::= (choice | seq) ('?' | '*' | '+')?
#[verifier::opaque]
pub open spec fn spec_children_47(s: Seq<u8>, pos: usize) -> Scanned
{
    match alt(spec_choice_49(s, pos), spec_seq_50(s, pos)) {
        Err(f) => Err(f),
        Ok(m1) => match opt(m1.rest, alt(spec_char(s, m1.rest, 63u8), alt(spec_char(s, m1.rest, 42u8), spec_char(s, m1.rest, 43u8)))) {
            Err(f) => Err(f),
            Ok(m2) => Ok(Matched { rest: m2.rest, start: pos, end: m2.rest }),
        },
    }
}

/// [47] children ::= (choice | seq) ('?' | '*' | '+')?
pub fn children_47(s: &[u8], pos: usize) -> (r: Scanned)
    requires
        pos <= s.len(),
    ensures
        r == spec_children_47(s@, pos),
        well_placed(r, pos as int, s.len() as int),
{
    reveal(spec_children_47);
    match { let r5 = choice_49(s, pos); if is_mismatch(&r5) { seq_50(s, pos) } else { r5 } } {
        Err(f) => Err(f),
        Ok(m3) => match optional(m3.rest, { let r7 = char_(s, m3.rest, 63u8); if is_mismatch(&r7) { { let r6 = char_(s, m3.rest, 42u8); if is_mismatch(&r6) { char_(s, m3.rest, 43u8) } else { r6 } } } else { r7 } }) {
            Err(f) => Err(f),
            Ok(m4) => Ok(Matched { rest: m4.rest, start: pos, end: m4.rest }),
        },
    }
}

/// [48] cp ::= (Name | choice | seq) ('?' | '*' | '+')?
pub open spec fn spec_cp_48(s: Seq<u8>, pos: usize) -> Scanned
    decreases s.len() - pos, 3int,
{
    match alt(spec_name(s, pos), alt(spec_choice_49(s, pos), spec_seq_50(s, pos))) {
        Err(f) => Err(f),
        Ok(m1) => match opt(m1.rest, alt(spec_char(s, m1.rest, 63u8), alt(spec_char(s, m1.rest, 42u8), spec_char(s, m1.rest, 43u8)))) {
            Err(f) => Err(f),
            Ok(m2) => Ok(Matched { rest: m2.rest, start: pos, end: m2.rest }),
        },
    }
}

/// [48] cp ::= (Name | choice | seq) ('?' | '*' | '+')?
pub fn cp_48(s: &[u8], pos: usize) -> (r: Scanned)
    requires
        pos <= s.len(),
    ensures
        r == spec_cp_48(s@, pos),
        well_placed(r, pos as int, s.len() as int),
    decreases s@.len() - pos, 3int,
{
    match { let r6 = name(s, pos); if is_mismatch(&r6) { { let r5 = choice_49(s, pos); if is_mismatch(&r5) { seq_50(s, pos) } else { r5 } } } else { r6 } } {
        Err(f) => Err(f),
        Ok(m3) => match optional(m3.rest, { let r8 = char_(s, m3.rest, 63u8); if is_mismatch(&r8) { { let r7 = char_(s, m3.rest, 42u8); if is_mismatch(&r7) { char_(s, m3.rest, 43u8) } else { r7 } } } else { r8 } }) {
            Err(f) => Err(f),
            Ok(m4) => Ok(Matched { rest: m4.rest, start: pos, end: m4.rest }),
        },
    }
}

/// S? '|' S? cp
pub open spec fn spec_choice_item(s: Seq<u8>, pos: usize) -> Scanned
    decreases s.len() - pos, 0int,
{
    match spec_multispace0(s, pos) {
        Err(f) => Err(f),
        Ok(m1) => match spec_tag(s, m1.rest, BAR@) {
            Err(f) => Err(f),
            Ok(m2) => match spec_multispace0(s, m2.rest) {
                Err(f) => Err(f),
                Ok(m3) => match (if pos < m3.rest && m3.rest <= s.len() { spec_cp_48(s, m3.rest) } else { Err(Fail::Error(m3.rest, ErrorKind::Many0)) }) {
                    Err(f) => Err(f),
                    Ok(m4) => Ok(Matched { rest: m4.rest, start: pos, end: m4.rest }),
                },
            },
        },
    }
}

/// S? '|' S? cp
pub fn choice_item(s: &[u8], pos: usize) -> (r: Scanned)
    requires
        pos <= s.len(),
    ensures
        r == spec_choice_item(s@, pos),
        well_placed(r, pos as int, s.len() as int),
    decreases s@.len() - pos, 0int,
{
    match multispace0(s, pos) {
        Err(f) => Err(f),
        Ok(m5) => match tag(s, m5.rest, &BAR) {
            Err(f) => Err(f),
            Ok(m6) => match multispace0(s, m6.rest) {
                Err(f) => Err(f),
                Ok(m7) => match (if pos < m7.rest && m7.rest <= s.len() { cp_48(s, m7.rest) } else { Err(Fail::Error(m7.rest, ErrorKind::Many0)) }) {
                    Err(f) => Err(f),
                    Ok(m8) => Ok(Matched { rest: m8.rest, start: pos, end: m8.rest }),
                },
            },
        },
    }
}

/// ( S? '|' S? cp )*
pub open spec fn spec_many0_choice(s: Seq<u8>, pos: usize) -> Scanned
    decreases s.len() - pos, 1int,
{
    match spec_choice_item(s, pos) {
        Err(Fail::Error(_, _)) => covers(pos, pos),
        Err(f) => Err(f),
        Ok(m) => if pos < m.rest && m.rest <= s.len() {
            recognize(pos, spec_many0_choice(s, m.rest))
        } else {
            Err(Fail::Error(pos, ErrorKind::Many0))
        },
    }
}

/// ( S? '|' S? cp )*
pub fn many0_choice(s: &[u8], pos: usize) -> (r: Scanned)
    requires
        pos <= s.len(),
    ensures
        r == spec_many0_choice(s@, pos),
        well_placed(r, pos as int, s.len() as int),
    decreases s@.len() - pos, 1int,
{
    let mut i = pos;
    loop
        invariant
            pos <= i <= s.len(),
            spec_many0_choice(s@, pos) == recognize(pos, spec_many0_choice(s@, i)),
        decreases s.len() - i,
    {
        let step = choice_item(s, i);
        match step {
            Err(Fail::Error(_, _)) => {
                return Ok(Matched { rest: i, start: pos, end: i });
            }
            Err(f) => {
                return Err(f);
            }
            Ok(m) => {
                if i < m.rest && m.rest <= s.len() {
                    i = m.rest;
                } else {
                    return Err(Fail::Error(i, ErrorKind::Many0));
                }
            }
        }
    }
}

/// [49] choice ::= '(' S? cp ( S? '|' S? cp )+ S? ')'
pub open spec fn spec_choice_49(s: Seq<u8>, pos: usize) -> Scanned
    decreases s.len() - pos, 2int,
{
    match spec_tag(s, pos, LPAREN@) {
        Err(f) => Err(f),
        Ok(m1) => match spec_multispace0(s, m1.rest) {
            Err(f) => Err(f),
            Ok(m2) => match (if pos < m2.rest && m2.rest <= s.len() { spec_cp_48(s, m2.rest) } else { Err(Fail::Error(m2.rest, ErrorKind::Many0)) }) {
                Err(f) => Err(f),
                Ok(m3) => match spec_multispace0(s, m3.rest) {
                    Err(f) => Err(f),
                    Ok(m4) => match spec_tag(s, m4.rest, BAR@) {
                        Err(f) => Err(f),
                        Ok(m5) => match spec_multispace0(s, m5.rest) {
                            Err(f) => Err(f),
                            Ok(m6) => match (if pos < m6.rest && m6.rest <= s.len() { spec_cp_48(s, m6.rest) } else { Err(Fail::Error(m6.rest, ErrorKind::Many0)) }) {
                                Err(f) => Err(f),
                                Ok(m7) => match (if pos < m7.rest && m7.rest <= s.len() { spec_many0_choice(s, m7.rest) } else { Err(Fail::Error(m7.rest, ErrorKind::Many0)) }) {
                                    Err(f) => Err(f),
                                    Ok(m8) => match spec_multispace0(s, m8.rest) {
                                        Err(f) => Err(f),
                                        Ok(m9) => match spec_tag(s, m9.rest, RPAREN@) {
                                            Err(f) => Err(f),
                                            Ok(m10) => Ok(Matched { rest: m10.rest, start: pos, end: m10.rest }),
                                        },
                                    },
                                },
                            },
                        },
                    },
                },
            },
        },
    }
}

/// [49] choice ::= '(' S? cp ( S? '|' S? cp )+ S? ')'
pub fn choice_49(s: &[u8], pos: usize) -> (r: Scanned)
    requires
        pos <= s.len(),
    ensures
        r == spec_choice_49(s@, pos),
        well_placed(r, pos as int, s.len() as int),
    decreases s@.len() - pos, 2int,
{
    match tag(s, pos, &LPAREN) {
        Err(f) => Err(f),
        Ok(m11) => match multispace0(s, m11.rest) {
            Err(f) => Err(f),
            Ok(m12) => match (if pos < m12.rest && m12.rest <= s.len() { cp_48(s, m12.rest) } else { Err(Fail::Error(m12.rest, ErrorKind::Many0)) }) {
                Err(f) => Err(f),
                Ok(m13) => match multispace0(s, m13.rest) {
                    Err(f) => Err(f),
                    Ok(m14) => match tag(s, m14.rest, &BAR) {
                        Err(f) => Err(f),
                        Ok(m15) => match multispace0(s, m15.rest) {
                            Err(f) => Err(f),
                            Ok(m16) => match (if pos < m16.rest && m16.rest <= s.len() { cp_48(s, m16.rest) } else { Err(Fail::Error(m16.rest, ErrorKind::Many0)) }) {
                                Err(f) => Err(f),
                                Ok(m17) => match (if pos < m17.rest && m17.rest <= s.len() { many0_choice(s, m17.rest) } else { Err(Fail::Error(m17.rest, ErrorKind::Many0)) }) {
                                    Err(f) => Err(f),
                                    Ok(m18) => match multispace0(s, m18.rest) {
                                        Err(f) => Err(f),
                                        Ok(m19) => match tag(s, m19.rest, &RPAREN) {
                                            Err(f) => Err(f),
                                            Ok(m20) => Ok(Matched { rest: m20.rest, start: pos, end: m20.rest }),
                                        },
                                    },
                                },
                            },
                        },
                    },
                },
            },
        },
    }
}

/// S? ',' S? cp
pub open spec fn spec_seq_item(s: Seq<u8>, pos: usize) -> Scanned
    decreases s.len() - pos, 0int,
{
    match spec_multispace0(s, pos) {
        Err(f) => Err(f),
        Ok(m1) => match spec_tag(s, m1.rest, COMMA@) {
            Err(f) => Err(f),
            Ok(m2) => match spec_multispace0(s, m2.rest) {
                Err(f) => Err(f),
                Ok(m3) => match (if pos < m3.rest && m3.rest <= s.len() { spec_cp_48(s, m3.rest) } else { Err(Fail::Error(m3.rest, ErrorKind::Many0)) }) {
                    Err(f) => Err(f),
                    Ok(m4) => Ok(Matched { rest: m4.rest, start: pos, end: m4.rest }),
                },
            },
        },
    }
}

/// S? ',' S? cp
pub fn seq_item(s: &[u8], pos: usize) -> (r: Scanned)
    requires
        pos <= s.len(),
    ensures
        r == spec_seq_item(s@, pos),
        well_placed(r, pos as int, s.len() as int),
    decreases s@.len() - pos, 0int,
{
    match multispace0(s, pos) {
        Err(f) => Err(f),
        Ok(m5) => match tag(s, m5.rest, &COMMA) {
            Err(f) => Err(f),
            Ok(m6) => match multispace0(s, m6.rest) {
                Err(f) => Err(f),
                Ok(m7) => match (if pos < m7.rest && m7.rest <= s.len() { cp_48(s, m7.rest) } else { Err(Fail::Error(m7.rest, ErrorKind::Many0)) }) {
                    Err(f) => Err(f),
                    Ok(m8) => Ok(Matched { rest: m8.rest, start: pos, end: m8.rest }),
                },
            },
        },
    }
}

/// ( S? ',' S? cp )*
pub open spec fn spec_many0_seq(s: Seq<u8>, pos: usize) -> Scanned
    decreases s.len() - pos, 1int,
{
    match spec_seq_item(s, pos) {
        Err(Fail::Error(_, _)) => covers(pos, pos),
        Err(f) => Err(f),
        Ok(m) => if pos < m.rest && m.rest <= s.len() {
            recognize(pos, spec_many0_seq(s, m.rest))
        } else {
            Err(Fail::Error(pos, ErrorKind::Many0))
        },
    }
}

/// ( S? ',' S? cp )*
pub fn many0_seq(s: &[u8], pos: usize) -> (r: Scanned)
    requires
        pos <= s.len(),
    ensures
        r == spec_many0_seq(s@, pos),
        well_placed(r, pos as int, s.len() as int),
    decreases s@.len() - pos, 1int,
{
    let mut i = pos;
    loop
        invariant
            pos <= i <= s.len(),
            spec_many0_seq(s@, pos) == recognize(pos, spec_many0_seq(s@, i)),
        decreases s.len() - i,
    {
        let step = seq_item(s, i);
        match step {
            Err(Fail::Error(_, _)) => {
                return Ok(Matched { rest: i, start: pos, end: i });
            }
            Err(f) => {
                return Err(f);
            }
            Ok(m) => {
                if i < m.rest && m.rest <= s.len() {
                    i = m.rest;
                } else {
                    return Err(Fail::Error(i, ErrorKind::Many0));
                }
            }
        }
    }
}

/// [50] seq ::= '(' S? cp ( S? ',' S? cp )* S? ')'
pub open spec fn spec_seq_50(s: Seq<u8>, pos: usize) -> Scanned
    decreases s.len() - pos, 2int,
{
    match spec_tag(s, pos, LPAREN@) {
        Err(f) => Err(f),
        Ok(m1) => match spec_multispace0(s, m1.rest) {
            Err(f) => Err(f),
            Ok(m2) => match (if pos < m2.rest && m2.rest <= s.len() { spec_cp_48(s, m2.rest) } else { Err(Fail::Error(m2.rest, ErrorKind::Many0)) }) {
                Err(f) => Err(f),
                Ok(m3) => match (if pos < m3.rest && m3.rest <= s.len() { spec_many0_seq(s, m3.rest) } else { Err(Fail::Error(m3.rest, ErrorKind::Many0)) }) {
                    Err(f) => Err(f),
                    Ok(m4) => match spec_multispace0(s, m4.rest) {
                        Err(f) => Err(f),
                        Ok(m5) => match spec_tag(s, m5.rest, RPAREN@) {
                            Err(f) => Err(f),
                            Ok(m6) => Ok(Matched { rest: m6.rest, start: pos, end: m6.rest }),
                        },
                    },
                },
            },
        },
    }
}

/// [50] seq ::= '(' S? cp ( S? ',' S? cp )* S? ')'
pub fn seq_50(s: &[u8], pos: usize) -> (r: Scanned)
    requires
        pos <= s.len(),
    ensures
        r == spec_seq_50(s@, pos),
        well_placed(r, pos as int, s.len() as int),
    decreases s@.len() - pos, 2int,
{
    match tag(s, pos, &LPAREN) {
        Err(f) => Err(f),
        Ok(m7) => match multispace0(s, m7.rest) {
            Err(f) => Err(f),
            Ok(m8) => match (if pos < m8.rest && m8.rest <= s.len() { cp_48(s, m8.rest) } else { Err(Fail::Error(m8.rest, ErrorKind::Many0)) }) {
                Err(f) => Err(f),
                Ok(m9) => match (if pos < m9.rest && m9.rest <= s.len() { many0_seq(s, m9.rest) } else { Err(Fail::Error(m9.rest, ErrorKind::Many0)) }) {
                    Err(f) => Err(f),
                    Ok(m10) => match multispace0(s, m10.rest) {
                        Err(f) => Err(f),
                        Ok(m11) => match tag(s, m11.rest, &RPAREN) {
                            Err(f) => Err(f),
                            Ok(m12) => Ok(Matched { rest: m12.rest, start: pos, end: m12.rest }),
                        },
                    },
                },
            },
        },
    }
}

/// [29] markupdecl ::= elementdecl | AttlistDecl | EntityDecl | NotationDecl | PI | Comment
#[verifier::opaque]
pub open spec fn spec_markupdecl_29(s: Seq<u8>, pos: usize) -> Scanned
{
    recognize(pos, alt(spec_elementdecl_45(s, pos), alt(spec_AttlistDecl_52(s, pos), alt(spec_EntityDecl_70(s, pos), alt(spec_NotationDecl(s, pos), alt(spec_PI(s, pos), spec_Comment(s, pos)))))))
}

/// [29] markupdecl ::= elementdecl | AttlistDecl | EntityDecl | NotationDecl | PI | Comment
pub fn markupdecl_29(s: &[u8], pos: usize) -> (r: Scanned)
    requires
        pos <= s.len(),
    ensures
        r == spec_markupdecl_29(s@, pos),
        well_placed(r, pos as int, s.len() as int),
{
    reveal(spec_markupdecl_29);
    recognized(pos, { let r5 = elementdecl_45(s, pos); if is_mismatch(&r5) { { let r4 = AttlistDecl_52(s, pos); if is_mismatch(&r4) { { let r3 = EntityDecl_70(s, pos); if is_mismatch(&r3) { { let r2 = NotationDecl(s, pos); if is_mismatch(&r2) { { let r1 = PI(s, pos); if is_mismatch(&r1) { Comment(s, pos) } else { r1 } } } else { r2 } } } else { r3 } } } else { r4 } } } else { r5 } })
}

/// [28a] DeclSep ::= PEReference | S
#[verifier::opaque]
pub open spec fn spec_DeclSep_28a(s: Seq<u8>, pos: usize) -> Scanned
{
    recognize(pos, alt(spec_PEReference_69(s, pos), spec_multispace1(s, pos)))
}

/// [28a] DeclSep ::= PEReference | S
pub fn DeclSep_28a(s: &[u8], pos: usize) -> (r: Scanned)
    requires
        pos <= s.len(),
    ensures
        r == spec_DeclSep_28a(s@, pos),
        well_placed(r, pos as int, s.len() as int),
{
    reveal(spec_DeclSep_28a);
    recognized(pos, { let r1 = PEReference_69(s, pos); if is_mismatch(&r1) { multispace1(s, pos) } else { r1 } })
}

/// markupdecl | DeclSep
#[verifier::opaque]
pub open spec fn spec_int_subset_item(s: Seq<u8>, pos: usize) -> Scanned
{
    alt(spec_markupdecl_29(s, pos), spec_DeclSep_28a(s, pos))
}

/// markupdecl | DeclSep
pub fn int_subset_item(s: &[u8], pos: usize) -> (r: Scanned)
    requires
        pos <= s.len(),
    ensures
        r == spec_int_subset_item(s@, pos),
        well_placed(r, pos as int, s.len() as int),
{
    reveal(spec_int_subset_item);
    { let r1 = markupdecl_29(s, pos); if is_mismatch(&r1) { DeclSep_28a(s, pos) } else { r1 } }
}

/// (markupdecl | DeclSep)*
pub open spec fn spec_many0_int_subset(s: Seq<u8>, pos: usize) -> Scanned
    decreases s.len() - pos,
{
    match spec_int_subset_item(s, pos) {
        Err(Fail::Error(_, _)) => covers(pos, pos),
        Err(f) => Err(f),
        Ok(m) => if pos < m.rest && m.rest <= s.len() {
            recognize(pos, spec_many0_int_subset(s, m.rest))
        } else {
            Err(Fail::Error(pos, ErrorKind::Many0))
        },
    }
}

/// (markupdecl | DeclSep)*
pub fn many0_int_subset(s: &[u8], pos: usize) -> (r: Scanned)
    requires
        pos <= s.len(),
    ensures
        r == spec_many0_int_subset(s@, pos),
        well_placed(r, pos as int, s.len() as int),
{
    let mut i = pos;
    loop
        invariant
            pos <= i <= s.len(),
            spec_many0_int_subset(s@, pos) == recognize(pos, spec_many0_int_subset(s@, i)),
        decreases s.len() - i,
    {
        let step = int_subset_item(s, i);
        match step {
            Err(Fail::Error(_, _)) => {
                return Ok(Matched { rest: i, start: pos, end: i });
            }
            Err(f) => {
                return Err(f);
            }
            Ok(m) => {
                if i < m.rest && m.rest <= s.len() {
                    i = m.rest;
                } else {
                    return Err(Fail::Error(i, ErrorKind::Many0));
                }
            }
        }
    }
}

/// [28b] intSubset ::= (markupdecl | DeclSep)*
#[verifier::opaque]
pub open spec fn spec_intSubset_28b(s: Seq<u8>, pos: usize) -> Scanned
{
    spec_many0_int_subset(s, pos)
}

/// [28b] intSubset ::= (markupdecl | DeclSep)*
pub fn intSubset_28b(s: &[u8], pos: usize) -> (r: Scanned)
    requires
        pos <= s.len(),
    ensures
        r == spec_intSubset_28b(s@, pos),
        well_placed(r, pos as int, s.len() as int),
{
    reveal(spec_intSubset_28b);
    many0_int_subset(s, pos)
}

/// [28] doctypedecl ::= '<!DOCTYPE' S Name (S ExternalID)? S? ('[' intSubset ']' S?)? '>'
#[verifier::opaque]
pub open spec fn spec_doctypedecl(s: Seq<u8>, pos: usize) -> Scanned
{
    match spec_doctypedecl_start(s, pos) {
        Err(f) => Err(f),
        Ok(m1) => match spec_multispace1(s, m1.rest) {
            Err(f) => Err(f),
            Ok(m2) => match spec_name(s, m2.rest) {
                Err(f) => Err(f),
                Ok(m3) => match opt(m3.rest, match spec_multispace1(s, m3.rest) {
        Err(f) => Err(f),
        Ok(m8) => match spec_ExternalID_75(s, m8.rest) {
            Err(f) => Err(f),
            Ok(m9) => Ok(Matched { rest: m9.rest, start: m3.rest, end: m9.rest }),
        },
    }) {
                    Err(f) => Err(f),
                    Ok(m4) => match spec_multispace0(s, m4.rest) {
                        Err(f) => Err(f),
                        Ok(m5) => match opt(m5.rest, match spec_tag(s, m5.rest, LBRACKET@) {
        Err(f) => Err(f),
        Ok(m10) => match spec_intSubset_28b(s, m10.rest) {
            Err(f) => Err(f),
            Ok(m11) => match spec_tag(s, m11.rest, RBRACKET@) {
                Err(f) => Err(f),
                Ok(m12) => match spec_multispace0(s, m12.rest) {
                    Err(f) => Err(f),
                    Ok(m13) => Ok(Matched { rest: m13.rest, start: m5.rest, end: m13.rest }),
                },
            },
        },
    }) {
                            Err(f) => Err(f),
                            Ok(m6) => match spec_doctypedecl_end(s, m6.rest) {
                                Err(f) => Err(f),
                                Ok(m7) => Ok(Matched { rest: m7.rest, start: pos, end: m7.rest }),
                            },
                        },
                    },
                },
            },
        },
    }
}

/// [28] doctypedecl ::= '<!DOCTYPE' S Name (S ExternalID)? S? ('[' intSubset ']' S?)? '>'
pub fn doctypedecl(s: &[u8], pos: usize) -> (r: Scanned)
    requires
        pos <= s.len(),
    ensures
        r == spec_doctypedecl(s@, pos),
        well_placed(r, pos as int, s.len() as int),
{
    reveal(spec_doctypedecl);
    match doctypedecl_start(s, pos) {
        Err(f) => Err(f),
        Ok(m14) => match multispace1(s, m14.rest) {
            Err(f) => Err(f),
            Ok(m15) => match name(s, m15.rest) {
                Err(f) => Err(f),
                Ok(m16) => match optional(m16.rest, match multispace1(s, m16.rest) {
        Err(f) => Err(f),
        Ok(m21) => match ExternalID_75(s, m21.rest) {
            Err(f) => Err(f),
            Ok(m22) => Ok(Matched { rest: m22.rest, start: m16.rest, end: m22.rest }),
        },
    }) {
                    Err(f) => Err(f),
                    Ok(m17) => match multispace0(s, m17.rest) {
                        Err(f) => Err(f),
                        Ok(m18) => match optional(m18.rest, match tag(s, m18.rest, &LBRACKET) {
        Err(f) => Err(f),
        Ok(m23) => match intSubset_28b(s, m23.rest) {
            Err(f) => Err(f),
            Ok(m24) => match tag(s, m24.rest, &RBRACKET) {
                Err(f) => Err(f),
                Ok(m25) => match multispace0(s, m25.rest) {
                    Err(f) => Err(f),
                    Ok(m26) => Ok(Matched { rest: m26.rest, start: m18.rest, end: m26.rest }),
                },
            },
        },
    }) {
                            Err(f) => Err(f),
                            Ok(m19) => match doctypedecl_end(s, m19.rest) {
                                Err(f) => Err(f),
                                Ok(m20) => Ok(Matched { rest: m20.rest, start: pos, end: m20.rest }),
                            },
                        },
                    },
                },
            },
        },
    }
}


/* ---------------------------------------------------------------------- */
/* laws of system literals                                                  */

/// A run of bytes other than `q` that a `q` ends stops at that `q`.
proof fn lemma_run_to_quote(s: Seq<u8>, j: int, e: int, q: u8)
    requires
        0 <= j <= e < s.len(),
        s[e] == q,
        forall|k: int| j <= k < e ==> s[k] != q,
    ensures
        crate::sax::scan::run_end(s, j, None, seq![q], false) == e,
    decreases e - j,
{
    assert(seq![q].contains(s[e])) by {
        assert(seq![q][0] == s[e]);
    }
    if j < e {
        assert(!seq![q].contains(s[j])) by {
            if seq![q].contains(s[j]) {
                let k = choose|k: int| 0 <= k < 1 && seq![q][k] == s[j];
                assert(seq![q][k] == q);
            }
        }
        lemma_run_to_quote(s, j + 1, e, q);
    }
}

/// `[^']*` from `j` takes every byte up to the next `'`, at `e`.
proof fn lemma_many0_sq(s: Seq<u8>, j: usize, e: usize)
    requires
        j <= e < s.len(),
        s[e as int] == 39u8,
        forall|k: int| j <= k < e ==> s[k] != 39u8,
    ensures
        spec_many0_system_sq(s, j) == covers(j, e),
    decreases e - j,
{
    assert(NOT_IN_SYSTEM_SQ@ =~= seq![39u8]);
    lemma_run_to_quote(s, j as int, e as int, 39u8);
    if j == e {
        assert(crate::sax::scan::spec_run(s, j, None, NOT_IN_SYSTEM_SQ@, false, crate::sax::scan::RunMode::StreamingOne, ErrorKind::IsNot)
            == Err::<Matched, Fail>(Fail::Error(j, ErrorKind::IsNot)));
    } else {
        lemma_many0_sq(s, e, e);
        assert(spec_is_not(s, j, NOT_IN_SYSTEM_SQ@) == covers(j, e));
    }
}

/// `[^"]*` from `j` takes every byte up to the next `"`, at `e`.
proof fn lemma_many0_dq(s: Seq<u8>, j: usize, e: usize)
    requires
        j <= e < s.len(),
        s[e as int] == 34u8,
        forall|k: int| j <= k < e ==> s[k] != 34u8,
    ensures
        spec_many0_system_dq(s, j) == covers(j, e),
    decreases e - j,
{
    assert(NOT_IN_SYSTEM_DQ@ =~= seq![34u8]);
    lemma_run_to_quote(s, j as int, e as int, 34u8);
    if j == e {
        assert(crate::sax::scan::spec_run(s, j, None, NOT_IN_SYSTEM_DQ@, false, crate::sax::scan::RunMode::StreamingOne, ErrorKind::IsNot)
            == Err::<Matched, Fail>(Fail::Error(j, ErrorKind::IsNot)));
    } else {
        lemma_many0_dq(s, e, e);
        assert(spec_is_not(s, j, NOT_IN_SYSTEM_DQ@) == covers(j, e));
    }
}

/// A system literal may be quoted with `'`: for any bytes `w` without
/// `'`, the literal `'w'` is taken whole, and hands back `w`.
pub proof fn law_system_literal_single_quoted(w: Seq<u8>)
    requires
        forall|i: int| 0 <= i < w.len() ==> w[i] != 39u8,
        w.len() + 2 <= usize::MAX,
    ensures
        spec_SystemLiteral_11(seq![39u8] + w + seq![39u8], 0) == Ok::<Matched, Fail>(
            Matched { rest: (w.len() + 2) as usize, start: 1, end: (w.len() + 1) as usize },
        ),
{
    reveal(spec_SystemLiteral_11);
    let s = seq![39u8] + w + seq![39u8];
    let e = (w.len() + 1) as usize;
    assert(s[0] == 39u8);
    assert(s[e as int] == 39u8);
    assert forall|k: int| 1 <= k < e implies s[k] != 39u8 by {
        assert(s[k] == w[k - 1]);
    }
    lemma_many0_sq(s, 1, e);
}

/// A system literal may be quoted with `"`: for any bytes `w` without
/// `"`, the literal `"w"` is taken whole, and hands back `w`.
pub proof fn law_system_literal_double_quoted(w: Seq<u8>)
    requires
        forall|i: int| 0 <= i < w.len() ==> w[i] != 34u8,
        w.len() + 2 <= usize::MAX,
    ensures
        spec_SystemLiteral_11(seq![34u8] + w + seq![34u8], 0) == Ok::<Matched, Fail>(
            Matched { rest: (w.len() + 2) as usize, start: 1, end: (w.len() + 1) as usize },
        ),
{
    reveal(spec_SystemLiteral_11);
    let s = seq![34u8] + w + seq![34u8];
    let e = (w.len() + 1) as usize;
    assert(s[0] == 34u8);
    assert(s[e as int] == 34u8);
    assert forall|k: int| 1 <= k < e implies s[k] != 34u8 by {
        assert(s[k] == w[k - 1]);
    }
    lemma_many0_dq(s, 1, e);
}


/* ---------------------------------------------------------------------- */
/* laws of public identifier literals                                       */

/// The byte is an ASCII letter or digit.
pub open spec fn is_ascii_alphanumeric(b: u8) -> bool {
    (65 <= b <= 90) || (97 <= b <= 122) || (48 <= b <= 57)
}

/// A run of a class of bytes that a byte outside the class ends stops at
/// that byte.
proof fn lemma_run_to_class(s: Seq<u8>, j: int, e: int, c: Class)
    requires
        0 <= j <= e < s.len(),
        !crate::sax::scan::spec_in_class(c, s[e]),
        forall|k: int| j <= k < e ==> crate::sax::scan::spec_in_class(c, #[trigger] s[k]),
    ensures
        crate::sax::scan::run_end(s, j, Some(c), seq![], true) == e,
    decreases e - j,
{
    if j < e {
        lemma_run_to_class(s, j + 1, e, c);
    }
}

/// No byte of a set that lacks the quote `q` begins at the quote.
proof fn lemma_set_stops_at(s: Seq<u8>, e: int, set: Seq<u8>)
    requires
        0 <= e < s.len(),
        !set.contains(s[e]),
    ensures
        crate::sax::scan::run_end(s, e, None, set, true) == e,
{
}

proof fn lemma_many0_pubid(s: Seq<u8>, j: usize, e: usize, q: u8)
    requires
        q == 34u8 || q == 39u8,
        j <= e < s.len(),
        s[e as int] == q,
        forall|k: int| j <= k < e ==> is_ascii_alphanumeric(#[trigger] s[k]),
    ensures
        q == 34u8 ==> spec_many0_pubid(s, j) == covers(j, e),
        q == 39u8 ==> spec_many0_pubid_no_quote(s, j) == covers(j, e),
    decreases e - j,
{
    reveal(spec_pubid_item);
    reveal(spec_pubid_no_quote_item);
    assert(PUBID_PUNCTUATION@ =~= seq![45u8, 39u8, 40u8, 41u8, 43u8, 44u8, 46u8, 47u8, 58u8, 61u8, 63u8, 59u8, 33u8, 42u8, 35u8, 64u8, 36u8, 95u8, 37u8, 32u8, 13u8, 10u8]);
    assert(PUBID_PUNCTUATION_NO_APOS@ =~= seq![45u8, 40u8, 41u8, 43u8, 44u8, 46u8, 47u8, 58u8, 61u8, 63u8, 59u8, 33u8, 42u8, 35u8, 64u8, 36u8, 95u8, 37u8, 32u8, 13u8, 10u8]);
    if q == 34u8 {
        assert(!PUBID_PUNCTUATION@.contains(34u8)) by {
            if PUBID_PUNCTUATION@.contains(34u8) {
                let x = choose|x: int| 0 <= x < PUBID_PUNCTUATION@.len() && PUBID_PUNCTUATION@[x] == 34u8;
                assert(false);
            }
        }
        lemma_set_stops_at(s, e as int, PUBID_PUNCTUATION@);
    } else {
        assert(!PUBID_PUNCTUATION_NO_APOS@.contains(39u8)) by {
            if PUBID_PUNCTUATION_NO_APOS@.contains(39u8) {
                let x = choose|x: int|
                    0 <= x < PUBID_PUNCTUATION_NO_APOS@.len() && PUBID_PUNCTUATION_NO_APOS@[x] == 39u8;
                assert(false);
            }
        }
        lemma_set_stops_at(s, e as int, PUBID_PUNCTUATION_NO_APOS@);
    }
    lemma_run_to_class(s, j as int, e as int, Class::AlphaNum);
    lemma_run_to_class(s, e as int, e as int, Class::AlphaNum);
    if j < e {
        lemma_many0_pubid(s, e, e, q);
    }
}

/// A public identifier of letters and digits may be quoted with `"` or
/// `'`: for any such bytes `w`, the literal `"w"` (or `'w'`) is taken
/// whole, and hands back `w`.
pub proof fn law_pubid_literal_quoted(w: Seq<u8>, q: u8)
    requires
        q == 34u8 || q == 39u8,
        forall|i: int| 0 <= i < w.len() ==> is_ascii_alphanumeric(#[trigger] w[i]),
        w.len() + 2 <= usize::MAX,
    ensures
        spec_PubidLiteral_12(seq![q] + w + seq![q], 0) == Ok::<Matched, Fail>(
            Matched { rest: (w.len() + 2) as usize, start: 1, end: (w.len() + 1) as usize },
        ),
{
    reveal(spec_PubidLiteral_12);
    reveal(spec_PubidChar_13_many);
    reveal(spec_PubidChar_13_many_except_single_quote);
    let s = seq![q] + w + seq![q];
    let e = (w.len() + 1) as usize;
    assert(s[0] == q);
    assert(s[e as int] == q);
    assert forall|k: int| 1 <= k < e implies is_ascii_alphanumeric(#[trigger] s[k]) by {
        assert(s[k] == w[k - 1]);
    }
    lemma_many0_pubid(s, 1, e, q);
}

} // verus!
