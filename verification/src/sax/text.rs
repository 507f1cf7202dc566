//! Turning the bytes of the document into strings.
use vstd::prelude::*;
use vstd::string::{StrSliceExecFns, StringExecFns};
use vstd::utf8::{decode_utf8, is_scalar, valid_utf8};

verus! {

/// The characters the bytes encode, when they are valid UTF-8.
pub open spec fn text(b: Seq<u8>) -> Option<Seq<char>> {
    if valid_utf8(b) {
        Some(decode_utf8(b))
    } else {
        None
    }
}

/// The characters the bytes encode, or nothing when they are not valid UTF-8.
pub open spec fn text_or_empty(b: Seq<u8>) -> Seq<char> {
    if valid_utf8(b) {
        decode_utf8(b)
    } else {
        Seq::empty()
    }
}

/// What `String::from_utf8_lossy` makes of the bytes.
pub uninterp spec fn utf8_lossy(b: Seq<u8>) -> Seq<char>;

/// `String::from_utf8`: the string the bytes encode, when they are valid
/// UTF-8 (as the standard library documents, it refuses exactly the byte
/// sequences that are not).
#[verifier::external_body]
fn string_from_utf8(v: Vec<u8>) -> (r: Option<String>)
    ensures
        r is Some <==> valid_utf8(v@),
        r matches Some(s) ==> s@ == decode_utf8(v@),
{
    String::from_utf8(v).ok()
}

/// `String::from_utf8_lossy`: the bytes as a string, with each invalid
/// sequence replaced by U+FFFD; valid UTF-8 is decoded as it is. Which
/// replacement characters come out for invalid input is left unsaid here.
#[verifier::external_body]
fn string_from_utf8_lossy(v: &[u8]) -> (r: String)
    ensures
        r@ == utf8_lossy(v@),
        valid_utf8(v@) ==> r@ == decode_utf8(v@),
{
    String::from_utf8_lossy(v).into_owned()
}

/// `char::from_u32`: the character with the given code point, when the value
/// is a Unicode scalar value.
#[verifier::external_body]
fn char_from_u32(v: u32) -> (r: Option<char>)
    ensures
        r is Some <==> is_scalar(v),
        r matches Some(c) ==> c as u32 == v,
{
    char::from_u32(v)
}

/// `char::to_string`: the string of one character.
#[verifier::external_body]
fn string_of_char(c: char) -> (r: String)
    ensures
        r@ == seq![c],
{
    c.to_string()
}

/// The bytes `s[start..end]` as a new vector.
pub fn copy_bytes(s: &[u8], start: usize, end: usize) -> (r: Vec<u8>)
    requires
        start <= end <= s.len(),
    ensures
        r@ == s@.subrange(start as int, end as int),
{
    let mut v: Vec<u8> = Vec::with_capacity(end - start);
    let mut i = start;
    while i < end
        invariant
            start <= i <= end <= s.len(),
            v@ == s@.subrange(start as int, i as int),
        decreases end - i,
    {
        v.push(s[i]);
        i = i + 1;
        assert(v@ =~= s@.subrange(start as int, i as int));
    }
    v
}

/// The string `s[start..end]` encodes, when it is valid UTF-8.
pub fn utf8_string(s: &[u8], start: usize, end: usize) -> (r: Option<String>)
    requires
        start <= end <= s.len(),
    ensures
        r is Some <==> text(s@.subrange(start as int, end as int)) is Some,
        r matches Some(t) ==> Some(t@) == text(s@.subrange(start as int, end as int)),
{
    string_from_utf8(copy_bytes(s, start, end))
}

/// The string the bytes encode, or the empty string when they are not
/// valid UTF-8.
pub fn utf8_string_or_empty(s: &[u8]) -> (r: String)
    ensures
        r@ == text_or_empty(s@),
{
    match utf8_string(s, 0, s.len()) {
        Some(t) => {
            assert(s@.subrange(0, s@.len() as int) =~= s@);
            t
        },
        None => {
            assert(s@.subrange(0, s@.len() as int) =~= s@);
            String::new()
        },
    }
}

/// The string of the character with code point `v`, when there is one.
pub fn scalar_string(v: u32) -> (r: Option<String>)
    ensures
        r is Some <==> is_scalar(v),
        r matches Some(t) ==> t@ == seq![v as char],
{
    match char_from_u32(v) {
        Some(c) => {
            proof {
                vstd::utf8::char_u32_cast(c, v);
            }
            Some(string_of_char(c))
        },
        None => None,
    }
}

/// At most the first 50 characters of what `String::from_utf8_lossy` makes
/// of the bytes.
pub open spec fn lossy_preview(b: Seq<u8>) -> Seq<char> {
    let t = utf8_lossy(b);
    if t.len() <= 50 {
        t
    } else {
        t.subrange(0, 50)
    }
}

pub fn lossy_preview_string(s: &[u8]) -> (r: String)
    ensures
        r@ == lossy_preview(s@),
{
    let t = string_from_utf8_lossy(s);
    let n = t.as_str().unicode_len();
    if n <= 50 {
        t
    } else {
        let part = t.as_str().substring_char(0, 50);
        String::from_str(part)
    }
}

/// `a` followed by `b`.
pub fn join2(a: &str, b: &String) -> (r: String)
    ensures
        r@ == a@ + b@,
{
    let mut r = String::from_str(a);
    r.append(b.as_str());
    r
}

/// `a`, `b`, `c`, `d`, `e` and `f` one after another.
pub fn join6(a: &str, b: &String, c: &str, d: &String, e: &str, f: &String) -> (r: String)
    ensures
        r@ == a@ + b@ + c@ + d@ + e@ + f@,
{
    let mut r = String::from_str(a);
    r.append(b.as_str());
    r.append(c);
    r.append(d.as_str());
    r.append(e);
    r.append(f.as_str());
    r
}

/// `a`, `b`, `c` and `d` one after another.
pub fn join4(a: &str, b: &String, c: &str, d: &String) -> (r: String)
    ensures
        r@ == a@ + b@ + c@ + d@,
{
    let mut r = String::from_str(a);
    r.append(b.as_str());
    r.append(c);
    r.append(d.as_str());
    r
}

} // verus!
