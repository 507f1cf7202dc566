//! Streaming byte scanners: the building blocks of the XML grammar.
//!
//! Every scanner looks at the bytes `s[pos..]` of the data buffered so far and
//! answers in one of three ways: it matched and stops at some later position,
//! it does not match (an error at a position, with a kind), or the data ends
//! too early to decide (incomplete, possibly with the number of missing bytes).
use vstd::prelude::*;

verus! {

/// Why a scanner did not match.
#[derive(Debug, Clone, Copy, PartialEq, Eq, Structural)]
pub enum ErrorKind {
    Tag,
    Char,
    MultiSpace,
    IsNot,
    IsA,
    TakeWhile1,
    Alpha,
    AlphaNumeric,
    Digit,
    Eof,
    Many0,
    Many1,
}

/// How many more bytes a scanner needs before it can decide.
#[derive(Debug, Clone, Copy, PartialEq, Eq, Structural)]
pub enum Needed {
    Unknown,
    Size(usize),
}

/// A failed scan: a real mismatch at a position, or too little data.
#[derive(Debug, Clone, Copy, PartialEq, Eq, Structural)]
pub enum Fail {
    Error(usize, ErrorKind),
    Incomplete(Needed),
}

/// A successful scan: `rest` is where scanning stops, `start..end` is the
/// part of the input the scanner hands back.
#[derive(Debug, Clone, Copy, PartialEq, Eq, Structural)]
pub struct Matched {
    pub rest: usize,
    pub start: usize,
    pub end: usize,
}

pub type Scanned = Result<Matched, Fail>;

/// The match that covers exactly `pos..rest`.
pub open spec fn covers(pos: usize, rest: usize) -> Scanned {
    Ok(Matched { rest: rest, start: pos, end: rest })
}

pub fn covered(pos: usize, rest: usize) -> (r: Scanned)
    ensures
        r == covers(pos, rest),
{
    Ok(Matched { rest: rest, start: pos, end: rest })
}

/// The positions a scan result mentions all lie in `pos..=len`, in order.
pub open spec fn well_placed(r: Scanned, pos: int, len: int) -> bool {
    match r {
        Ok(m) => pos <= m.start <= m.end <= m.rest <= len,
        Err(Fail::Error(p, _)) => pos <= p <= len,
        Err(Fail::Incomplete(_)) => true,
    }
}

pub open spec fn is_error(r: Scanned) -> bool {
    r matches Err(Fail::Error(_, _))
}

/// The same result, with the handed-back part widened to everything consumed
/// since `pos`.
pub open spec fn recognize(pos: usize, r: Scanned) -> Scanned {
    match r {
        Ok(m) => covers(pos, m.rest),
        Err(f) => Err(f),
    }
}

/// Ordered choice: the second alternative is only consulted when the first
/// one is a real mismatch (not when it is incomplete).
pub open spec fn alt(a: Scanned, b: Scanned) -> Scanned {
    match a {
        Err(Fail::Error(_, _)) => b,
        _ => a,
    }
}

/// An optional part: a mismatch turns into an empty match at `pos`.
pub open spec fn opt(pos: usize, r: Scanned) -> Scanned {
    match r {
        Err(Fail::Error(_, _)) => covers(pos, pos),
        _ => r,
    }
}

/* ---------------------------------------------------------------------- */
/* literal byte strings                                                     */

/// Streaming literal: a mismatch within the available bytes is an error at
/// `pos`; a literal that runs past the data is incomplete.
pub open spec fn spec_tag(s: Seq<u8>, pos: usize, t: Seq<u8>) -> Scanned {
    let avail = s.len() - pos;
    if avail >= t.len() {
        if s.subrange(pos as int, pos + t.len()) == t {
            covers(pos, (pos + t.len()) as usize)
        } else {
            Err(Fail::Error(pos, ErrorKind::Tag))
        }
    } else {
        if s.subrange(pos as int, s.len() as int) == t.subrange(0, avail) {
            Err(Fail::Incomplete(Needed::Size((t.len() - avail) as usize)))
        } else {
            Err(Fail::Error(pos, ErrorKind::Tag))
        }
    }
}

pub fn tag(s: &[u8], pos: usize, t: &[u8]) -> (r: Scanned)
    requires
        pos <= s.len(),
    ensures
        r == spec_tag(s@, pos, t@),
        well_placed(r, pos as int, s.len() as int),
{
    let avail = s.len() - pos;
    let m = if avail < t.len() { avail } else { t.len() };
    let mut i: usize = 0;
    while i < m
        invariant
            i <= m,
            m <= avail,
            m <= t.len(),
            avail == s.len() - pos,
            forall|j: int| 0 <= j < i ==> s@[pos + j] == t@[j],
        decreases m - i,
    {
        if s[pos + i] != t[i] {
            proof {
                if avail >= t.len() {
                    assert(s@.subrange(pos as int, pos + t.len())[i as int] != t@[i as int]);
                } else {
                    assert(s@.subrange(pos as int, s.len() as int)[i as int] != t@.subrange(
                        0,
                        avail as int,
                    )[i as int]);
                }
            }
            return Err(Fail::Error(pos, ErrorKind::Tag));
        }
        i = i + 1;
    }
    if avail >= t.len() {
        assert(s@.subrange(pos as int, pos + t.len()) =~= t@);
        Ok(Matched { rest: pos + t.len(), start: pos, end: pos + t.len() })
    } else {
        assert(s@.subrange(pos as int, s.len() as int) =~= t@.subrange(0, avail as int));
        Err(Fail::Incomplete(Needed::Size(t.len() - avail)))
    }
}

/// One given byte (complete: the end of the data is a mismatch).
pub open spec fn spec_char(s: Seq<u8>, pos: usize, c: u8) -> Scanned {
    if pos < s.len() && s[pos as int] == c {
        covers(pos, (pos + 1) as usize)
    } else {
        Err(Fail::Error(pos, ErrorKind::Char))
    }
}

pub fn char_(s: &[u8], pos: usize, c: u8) -> (r: Scanned)
    requires
        pos <= s.len(),
    ensures
        r == spec_char(s@, pos, c),
        well_placed(r, pos as int, s.len() as int),
{
    if pos < s.len() && s[pos] == c {
        Ok(Matched { rest: pos + 1, start: pos, end: pos + 1 })
    } else {
        Err(Fail::Error(pos, ErrorKind::Char))
    }
}

/// The end of the data (complete).
pub open spec fn spec_eof(s: Seq<u8>, pos: usize) -> Scanned {
    if pos >= s.len() {
        covers(pos, pos)
    } else {
        Err(Fail::Error(pos, ErrorKind::Eof))
    }
}

pub fn eof(s: &[u8], pos: usize) -> (r: Scanned)
    requires
        pos <= s.len(),
    ensures
        r == spec_eof(s@, pos),
        well_placed(r, pos as int, s.len() as int),
{
    if pos >= s.len() {
        Ok(Matched { rest: pos, start: pos, end: pos })
    } else {
        Err(Fail::Error(pos, ErrorKind::Eof))
    }
}

/* ---------------------------------------------------------------------- */
/* runs of bytes of one class                                               */

/// The byte classes that runs are made of.
#[derive(Debug, Clone, Copy, PartialEq, Eq, Structural)]
pub enum Class {
    /// space, tab, carriage return, line feed
    Space,
    /// `0-9`
    Digit,
    /// `0-9`, `A-F`, `a-f`
    HexDigit,
    /// `A-Z`, `a-z`
    Alpha,
    /// `A-Z`, `a-z`, `0-9`
    AlphaNum,
}

pub open spec fn spec_is_alpha(b: u8) -> bool {
    (0x41 <= b <= 0x5A) || (0x61 <= b <= 0x7A)
}

pub open spec fn spec_is_digit(b: u8) -> bool {
    0x30 <= b <= 0x39
}

pub open spec fn spec_in_class(c: Class, b: u8) -> bool {
    match c {
        Class::Space => b == 0x20 || b == 0x09 || b == 0x0D || b == 0x0A,
        Class::Digit => spec_is_digit(b),
        Class::HexDigit => spec_is_digit(b) || (0x41 <= b <= 0x46) || (0x61 <= b <= 0x66),
        Class::Alpha => spec_is_alpha(b),
        Class::AlphaNum => spec_is_alpha(b) || spec_is_digit(b),
    }
}

pub fn in_class(c: Class, b: u8) -> (r: bool)
    ensures
        r == spec_in_class(c, b),
{
    match c {
        Class::Space => b == 0x20 || b == 0x09 || b == 0x0D || b == 0x0A,
        Class::Digit => 0x30 <= b && b <= 0x39,
        Class::HexDigit => (0x30 <= b && b <= 0x39) || (0x41 <= b && b <= 0x46) || (0x61 <= b
            && b <= 0x66),
        Class::Alpha => (0x41 <= b && b <= 0x5A) || (0x61 <= b && b <= 0x7A),
        Class::AlphaNum => (0x41 <= b && b <= 0x5A) || (0x61 <= b && b <= 0x7A) || (0x30 <= b
            && b <= 0x39),
    }
}

/// Membership of a byte in a run: bytes of class `c`, or (for sets) bytes
/// whose membership in `set` equals `inside`.
pub open spec fn run_member(b: u8, c: Option<Class>, set: Seq<u8>, inside: bool) -> bool {
    match c {
        Some(c) => spec_in_class(c, b),
        None => set.contains(b) == inside,
    }
}

/// The first position at or after `pos` whose byte does not belong to the
/// run (the length of the data if there is none).
pub open spec fn run_end(s: Seq<u8>, pos: int, c: Option<Class>, set: Seq<u8>, inside: bool) -> int
    decreases s.len() - pos,
{
    if pos < s.len() && run_member(s[pos], c, set, inside) {
        run_end(s, pos + 1, c, set, inside)
    } else {
        pos
    }
}

pub proof fn lemma_run_end(s: Seq<u8>, pos: int, c: Option<Class>, set: Seq<u8>, inside: bool)
    requires
        0 <= pos <= s.len(),
    ensures
        pos <= run_end(s, pos, c, set, inside) <= s.len(),
        forall|j: int|
            pos <= j < run_end(s, pos, c, set, inside) ==> run_member(s[j], c, set, inside),
        run_end(s, pos, c, set, inside) < s.len() ==> !run_member(
            s[run_end(s, pos, c, set, inside)],
            c,
            set,
            inside,
        ),
    decreases s.len() - pos,
{
    if pos < s.len() && run_member(s[pos], c, set, inside) {
        lemma_run_end(s, pos + 1, c, set, inside);
    }
}

fn set_contains(set: &[u8], b: u8) -> (r: bool)
    ensures
        r == set@.contains(b),
{
    let mut i: usize = 0;
    while i < set.len()
        invariant
            i <= set.len(),
            forall|j: int| 0 <= j < i ==> set@[j] != b,
        decreases set.len() - i,
    {
        if set[i] == b {
            assert(set@[i as int] == b);
            return true;
        }
        i = i + 1;
    }
    false
}

/// Finds the end of a run starting at `pos`.
pub fn find_run_end(s: &[u8], pos: usize, c: Option<Class>, set: &[u8], inside: bool) -> (r:
    usize)
    requires
        pos <= s.len(),
    ensures
        r == run_end(s@, pos as int, c, set@, inside),
        pos <= r <= s.len(),
{
    let mut i = pos;
    proof {
        lemma_run_end(s@, pos as int, c, set@, inside);
    }
    while i < s.len()
        invariant
            pos <= i <= s.len(),
            run_end(s@, i as int, c, set@, inside) == run_end(s@, pos as int, c, set@, inside),
        decreases s.len() - i,
    {
        let member = match c {
            Some(cl) => in_class(cl, s[i]),
            None => set_contains(set, s[i]) == inside,
        };
        if !member {
            return i;
        }
        i = i + 1;
    }
    i
}

/// How a run scanner treats the data.
#[derive(Debug, Clone, Copy, PartialEq, Eq, Structural)]
pub enum RunMode {
    /// zero or more; reaching the end of the data is incomplete
    StreamingZero,
    /// one or more; reaching the end of the data is incomplete
    StreamingOne,
    /// one or more; the end of the data ends the run
    CompleteOne,
}

pub open spec fn spec_run(
    s: Seq<u8>,
    pos: usize,
    c: Option<Class>,
    set: Seq<u8>,
    inside: bool,
    mode: RunMode,
    kind: ErrorKind,
) -> Scanned {
    let e = run_end(s, pos as int, c, set, inside);
    match mode {
        RunMode::StreamingZero => if e >= s.len() {
            Err(Fail::Incomplete(Needed::Size(1)))
        } else {
            covers(pos, e as usize)
        },
        RunMode::StreamingOne => if e >= s.len() {
            Err(Fail::Incomplete(Needed::Size(1)))
        } else if e == pos {
            Err(Fail::Error(pos, kind))
        } else {
            covers(pos, e as usize)
        },
        RunMode::CompleteOne => if e == pos {
            Err(Fail::Error(pos, kind))
        } else {
            covers(pos, e as usize)
        },
    }
}

pub fn run(
    s: &[u8],
    pos: usize,
    c: Option<Class>,
    set: &[u8],
    inside: bool,
    mode: RunMode,
    kind: ErrorKind,
) -> (r: Scanned)
    requires
        pos <= s.len(),
    ensures
        r == spec_run(s@, pos, c, set@, inside, mode, kind),
        well_placed(r, pos as int, s.len() as int),
{
    let e = find_run_end(s, pos, c, set, inside);
    match mode {
        RunMode::StreamingZero => if e >= s.len() {
            Err(Fail::Incomplete(Needed::Size(1)))
        } else {
            Ok(Matched { rest: e, start: pos, end: e })
        },
        RunMode::StreamingOne => if e >= s.len() {
            Err(Fail::Incomplete(Needed::Size(1)))
        } else if e == pos {
            Err(Fail::Error(pos, kind))
        } else {
            Ok(Matched { rest: e, start: pos, end: e })
        },
        RunMode::CompleteOne => if e == pos {
            Err(Fail::Error(pos, kind))
        } else {
            Ok(Matched { rest: e, start: pos, end: e })
        },
    }
}

/* The runs the grammar uses, by name. */

/// Optional white space; incomplete when the white space reaches the end of
/// the data.
pub open spec fn spec_multispace0(s: Seq<u8>, pos: usize) -> Scanned {
    spec_run(s, pos, Some(Class::Space), seq![], true, RunMode::StreamingZero, ErrorKind::MultiSpace)
}

pub fn multispace0(s: &[u8], pos: usize) -> (r: Scanned)
    requires
        pos <= s.len(),
    ensures
        r == spec_multispace0(s@, pos),
        well_placed(r, pos as int, s.len() as int),
{
    let no_set: [u8; 0] = [];
    assert(no_set@ =~= Seq::<u8>::empty());
    run(s, pos, Some(Class::Space), &no_set, true, RunMode::StreamingZero, ErrorKind::MultiSpace)
}

/// At least one white space byte; the end of the data ends it.
pub open spec fn spec_multispace1(s: Seq<u8>, pos: usize) -> Scanned {
    spec_run(s, pos, Some(Class::Space), seq![], true, RunMode::CompleteOne, ErrorKind::MultiSpace)
}

pub fn multispace1(s: &[u8], pos: usize) -> (r: Scanned)
    requires
        pos <= s.len(),
    ensures
        r == spec_multispace1(s@, pos),
        well_placed(r, pos as int, s.len() as int),
{
    let no_set: [u8; 0] = [];
    assert(no_set@ =~= Seq::<u8>::empty());
    run(s, pos, Some(Class::Space), &no_set, true, RunMode::CompleteOne, ErrorKind::MultiSpace)
}


/// Exec check of `is_error`.
pub fn is_mismatch(r: &Scanned) -> (b: bool)
    ensures
        b == is_error(*r),
{
    match r {
        Err(Fail::Error(_, _)) => true,
        _ => false,
    }
}

/// Exec version of `recognize`.
pub fn recognized(pos: usize, r: Scanned) -> (out: Scanned)
    ensures
        out == recognize(pos, r),
{
    match r {
        Ok(m) => Ok(Matched { rest: m.rest, start: pos, end: m.rest }),
        Err(f) => Err(f),
    }
}

/// Exec version of `opt`.
pub fn optional(pos: usize, r: Scanned) -> (out: Scanned)
    ensures
        out == opt(pos, r),
{
    match r {
        Err(Fail::Error(_, _)) => Ok(Matched { rest: pos, start: pos, end: pos }),
        _ => r,
    }
}

/// Streaming run of one or more bytes of a class (mismatch kind `kind`).
pub open spec fn spec_run1(s: Seq<u8>, pos: usize, c: Class, kind: ErrorKind) -> Scanned {
    spec_run(s, pos, Some(c), seq![], true, RunMode::StreamingOne, kind)
}

pub fn run1(s: &[u8], pos: usize, c: Class, kind: ErrorKind) -> (r: Scanned)
    requires
        pos <= s.len(),
    ensures
        r == spec_run1(s@, pos, c, kind),
        well_placed(r, pos as int, s.len() as int),
{
    let no_set: [u8; 0] = [];
    assert(no_set@ =~= Seq::<u8>::empty());
    run(s, pos, Some(c), &no_set, true, RunMode::StreamingOne, kind)
}

/// Run of one or more bytes of a class that the end of the data ends.
pub open spec fn spec_run1_complete(s: Seq<u8>, pos: usize, c: Class, kind: ErrorKind) -> Scanned {
    spec_run(s, pos, Some(c), seq![], true, RunMode::CompleteOne, kind)
}

pub fn run1_complete(s: &[u8], pos: usize, c: Class, kind: ErrorKind) -> (r: Scanned)
    requires
        pos <= s.len(),
    ensures
        r == spec_run1_complete(s@, pos, c, kind),
        well_placed(r, pos as int, s.len() as int),
{
    let no_set: [u8; 0] = [];
    assert(no_set@ =~= Seq::<u8>::empty());
    run(s, pos, Some(c), &no_set, true, RunMode::CompleteOne, kind)
}

/// Streaming run of one or more bytes outside `set`.
pub open spec fn spec_is_not(s: Seq<u8>, pos: usize, set: Seq<u8>) -> Scanned {
    spec_run(s, pos, None, set, false, RunMode::StreamingOne, ErrorKind::IsNot)
}

pub fn is_not(s: &[u8], pos: usize, set: &[u8]) -> (r: Scanned)
    requires
        pos <= s.len(),
    ensures
        r == spec_is_not(s@, pos, set@),
        well_placed(r, pos as int, s.len() as int),
{
    run(s, pos, None, set, false, RunMode::StreamingOne, ErrorKind::IsNot)
}

/// Run of one or more bytes from `set` that the end of the data ends.
pub open spec fn spec_is_a_complete(s: Seq<u8>, pos: usize, set: Seq<u8>) -> Scanned {
    spec_run(s, pos, None, set, true, RunMode::CompleteOne, ErrorKind::IsA)
}

pub fn is_a_complete(s: &[u8], pos: usize, set: &[u8]) -> (r: Scanned)
    requires
        pos <= s.len(),
    ensures
        r == spec_is_a_complete(s@, pos, set@),
        well_placed(r, pos as int, s.len() as int),
{
    run(s, pos, None, set, true, RunMode::CompleteOne, ErrorKind::IsA)
}

} // verus!
