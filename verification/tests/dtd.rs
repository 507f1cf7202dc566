//! The document type declaration grammar, with results written as nom
//! results.
use nom::error::{Error as NomError, ErrorKind as NomKind};
use nom::{Err as NomErr, IResult, Needed as NomNeeded};
use xml_oxide::sax::dtd::{
    doctypedecl, elementdecl_45, intSubset_28b, many0_att_defs, markupdecl_29, AttDef_53,
    AttlistDecl_52, EntityDecl_70, EntityDef_73, EntityValue, ExternalID_75, GEDecl_71,
    NotationDecl, PEDecl_72, PubidChar_13_many, PubidChar_13_many_except_single_quote,
    PubidLiteral_12, PublicID_83, SystemLiteral_11,
};
use xml_oxide::sax::scan::{ErrorKind, Fail, Needed, Scanned};

fn kind(k: ErrorKind) -> NomKind {
    match k {
        ErrorKind::Tag => NomKind::Tag,
        ErrorKind::Char => NomKind::Char,
        ErrorKind::MultiSpace => NomKind::MultiSpace,
        ErrorKind::IsNot => NomKind::IsNot,
        ErrorKind::IsA => NomKind::IsA,
        ErrorKind::TakeWhile1 => NomKind::TakeWhile1,
        ErrorKind::Alpha => NomKind::Alpha,
        ErrorKind::AlphaNumeric => NomKind::AlphaNumeric,
        ErrorKind::Digit => NomKind::Digit,
        ErrorKind::Eof => NomKind::Eof,
        ErrorKind::Many0 => NomKind::Many0,
        ErrorKind::Many1 => NomKind::Many1,
    }
}

fn fail(data: &[u8], f: Fail) -> IResult<&[u8], &[u8]> {
    match f {
        Fail::Error(p, k) => Err(NomErr::Error(NomError::new(&data[p..], kind(k)))),
        Fail::Incomplete(Needed::Unknown) => Err(NomErr::Incomplete(NomNeeded::Unknown)),
        Fail::Incomplete(Needed::Size(n)) => Err(NomErr::Incomplete(NomNeeded::new(n))),
    }
}

/// A scan from the start of `data`, as nom would report it.
fn nom(data: &[u8], f: fn(&[u8], usize) -> Scanned) -> IResult<&[u8], &[u8]> {
    match f(data, 0) {
        Ok(m) => Ok((&data[m.rest..], &data[m.start..m.end])),
        Err(e) => fail(data, e),
    }
}

/// A scan from the start of `data` that hands back all it consumed.
fn recognized(data: &[u8], f: fn(&[u8], usize) -> Scanned) -> IResult<&[u8], &[u8]> {
    match f(data, 0) {
        Ok(m) => Ok((&data[m.rest..], &data[..m.rest])),
        Err(e) => fail(data, e),
    }
}

#[test]
fn test_PubidLiteral_12() {
    assert_eq!(
        recognized(r#""a not very interesting file""#.as_bytes(), PubidLiteral_12),
        Ok((&b""[..], &br#""a not very interesting file""#[..]))
    );
    assert_eq!(
        recognized(r#"'whatever'"#.as_bytes(), PubidLiteral_12),
        Ok((&b""[..], &br#"'whatever'"#[..]))
    );
}

#[test]
fn test_PubidChar_13_many() {
    assert_eq!(
        nom(r#"a not very interesting file"#.as_bytes(), PubidChar_13_many),
        Ok((&b""[..], &br#"a not very interesting file"#[..]))
    );
}

#[test]
fn test_PubidChar_13_many_except_single_quote() {
    assert_eq!(
        nom(
            r#"a not very interesting' file"#.as_bytes(),
            PubidChar_13_many_except_single_quote
        ),
        Ok((&br#"' file"#[..], &br#"a not very interesting"#[..]))
    );
}

#[test]
fn test_SystemLiteral_11() {
    assert_eq!(
        recognized(r#""011.ent""#.as_bytes(), SystemLiteral_11),
        Ok((&b""[..], &br#""011.ent""#[..]))
    );
}

#[test]
fn test_ExternalID_75() {
    assert_eq!(
        nom(
            r#"PUBLIC "a not very interesting file" "011.ent""#.as_bytes(),
            ExternalID_75
        ),
        Ok((
            &b""[..],
            &br#"PUBLIC "a not very interesting file" "011.ent""#[..]
        ))
    );
    assert_eq!(
        nom(r#"PUBLIC 'whatever' "e.dtd""#.as_bytes(), ExternalID_75),
        Ok((&b""[..], &br#"PUBLIC 'whatever' "e.dtd""#[..]))
    );
}

#[test]
fn test_PublicID_83() {
    let data2 = r#"PUBLIC "whatever""#.as_bytes();
    assert_eq!(nom(data2, PublicID_83), Ok((&b""[..], &data2[..])));
}

#[test]
fn test_NotationDecl() {
    let data2 = r#"<!NOTATION n PUBLIC "whatever">]"#.as_bytes();
    assert_eq!(
        nom(data2, NotationDecl),
        Ok((&b"]"[..], &data2[0..data2.len() - 1]))
    );
}

#[test]
fn test_EntityDecl_70() {
    let data2 = r#"<!ENTITY % e PUBLIC 'whatever' "e.dtd">]"#.as_bytes();
    assert_eq!(
        nom(data2, EntityDecl_70),
        Ok((&b"]"[..], &data2[0..data2.len() - 1]))
    );
}

#[test]
fn test_GEDecl_71() {
    let data2 = r#"<!ENTITY e "&#60;foo></foo>">"#.as_bytes();
    assert_eq!(nom(data2, GEDecl_71), Ok((&b""[..], data2)));
}

#[test]
fn test_PEDecl_72() {
    let data2 = r#"<!ENTITY % e PUBLIC 'whatever' "e.dtd">]"#.as_bytes();
    assert_eq!(
        nom(data2, PEDecl_72),
        Ok((&b"]"[..], &data2[0..data2.len() - 1]))
    );
}

#[test]
fn test_EntityDef_73() {
    assert_eq!(
        nom(
            r#"PUBLIC "a not very interesting file" "011.ent""#.as_bytes(),
            EntityDef_73
        ),
        Ok((
            &b""[..],
            &br#"PUBLIC "a not very interesting file" "011.ent""#[..]
        ))
    );
    let data2 = r#""&#60;foo></foo>""#.as_bytes();
    assert_eq!(
        nom(data2, EntityDef_73),
        Ok((&b""[..], &br#"&#60;foo></foo>"#[..]))
    );
}

#[test]
fn test_EntityValue() {
    let data2 = r#""&#60;foo></foo>""#.as_bytes();
    assert_eq!(
        nom(data2, EntityValue),
        Ok((&b""[..], &data2[1..data2.len() - 1]))
    );
}

#[test]
fn test_AttlistDecl_52() {
    let data2 = r#"<!ATTLIST e
          a1 CDATA "a1 default"
          a2 NMTOKENS "a2 default"
        >"#
    .as_bytes();
    assert_eq!(nom(data2, AttlistDecl_52), Ok((&b""[..], data2)));
}

#[test]
fn test_AttDef_53() {
    let data2 = r#"
    a2 NMTOKENS "a2 default""#
        .as_bytes();
    assert_eq!(nom(data2, AttDef_53), Ok((&b""[..], data2)));

    let data2 = r#"
    a1 CDATA "a1 default""#
        .as_bytes();
    assert_eq!(nom(data2, AttDef_53), Ok((&b""[..], data2)));

    let data2 = r#" 
    a1 CDATA "a1 default"
    a2 NMTOKENS "a2 default"
   >"#
    .as_bytes();
    assert_eq!(
        recognized(data2, many0_att_defs),
        Ok((
            &br#"
   >"#[..],
            &br#" 
    a1 CDATA "a1 default"
    a2 NMTOKENS "a2 default""#[..]
        ))
    );
}

#[test]
fn test_elementdecl() {
    assert_eq!(
        nom("<!ELEMENT br EMPTY>a".as_bytes(), elementdecl_45),
        Ok((&b"a"[..], &b"<!ELEMENT br EMPTY>"[..]))
    );
    assert_eq!(
        nom("<!ELEMENT p (#PCDATA|emph)* >a".as_bytes(), elementdecl_45),
        Ok((&b"a"[..], &b"<!ELEMENT p (#PCDATA|emph)* >"[..]))
    );
    let data2 = r#"<!ELEMENT doc (e)>"#.as_bytes();
    assert_eq!(nom(data2, elementdecl_45), Ok((&b""[..], data2)));
    assert_eq!(
        nom("<!ELEMENT container ANY>a".as_bytes(), elementdecl_45),
        Ok((&b"a"[..], &b"<!ELEMENT container ANY>"[..]))
    );
}

#[test]
fn test_markupdecl_29() {
    let data2 = r#"<!ENTITY x SYSTEM "013.ent">"#.as_bytes();
    assert_eq!(nom(data2, markupdecl_29), Ok((&b""[..], data2)));
    let data2 = r#"<!ELEMENT doc (e)>"#.as_bytes();
    assert_eq!(nom(data2, markupdecl_29), Ok((&b""[..], data2)));
    let data2 = r#"<!ENTITY e "&#60;foo></foo>">"#.as_bytes();
    assert_eq!(nom(data2, markupdecl_29), Ok((&b""[..], data2)));
}

#[test]
fn test_intSubset_28b() {
    let data2 = r#"<!ELEMENT doc (e)>
        <!ELEMENT e (#PCDATA)>
        <!ATTLIST e
          a1 CDATA "a1 default"
          a2 NMTOKENS "a2 default"
        >
        <!ENTITY x SYSTEM "013.ent">
        ]"#
    .as_bytes();
    assert_eq!(
        nom(data2, intSubset_28b),
        Ok((&b"]"[..], &data2[0..data2.len() - 1]))
    );

    let data2 = r#"<!ELEMENT doc (foo)>
<!ELEMENT foo (#PCDATA)>
<!ENTITY e "&#60;foo></foo>">
    ]"#
    .as_bytes();
    assert_eq!(
        nom(data2, intSubset_28b),
        Ok((&b"]"[..], &data2[0..data2.len() - 1]))
    );

    let data2 = r#"<!ELEMENT doc (#PCDATA)>
    <!NOTATION n PUBLIC "whatever">
    ]"#
    .as_bytes();
    assert_eq!(
        nom(data2, intSubset_28b),
        Ok((&b"]"[..], &data2[0..data2.len() - 1]))
    );
}

#[test]
fn dtd_test_doctypedecl() {
    assert_eq!(
        nom(r#"<!DOCTYPE>a"#.as_bytes(), doctypedecl),
        Err(NomErr::Error(NomError::new(">a".as_bytes(), NomKind::MultiSpace)))
    );
    assert_eq!(
        nom(
            r#"<!DOCTYPE greeting SYSTEM "hello.dtd">a"#.as_bytes(),
            doctypedecl
        ),
        Ok((&b"a"[..], &br#"<!DOCTYPE greeting SYSTEM "hello.dtd">"#[..]))
    );
    let data = r#"<!DOCTYPE doc [
        <!ELEMENT doc (#PCDATA)>
        <!ENTITY e PUBLIC "a not very interesting file" "011.ent">
        ]>"#
    .as_bytes();
    assert_eq!(nom(data, doctypedecl), Ok((&b""[..], data)));

    let data2 = r#"<!DOCTYPE doc [
<!ELEMENT doc (e)>
<!ELEMENT e (#PCDATA)>
<!ATTLIST e
  a1 CDATA "a1 default"
  a2 NMTOKENS "a2 default"
>
<!ENTITY x SYSTEM "013.ent">
]>"#
    .as_bytes();
    assert_eq!(nom(data2, doctypedecl), Ok((&b""[..], data2)));

    let data2 = r#"<!DOCTYPE doc [
<!ENTITY % e PUBLIC 'whatever' "e.dtd">
<!ELEMENT doc (#PCDATA)>
]>
"#
    .as_bytes();
    assert_eq!(
        nom(data2, doctypedecl),
        Ok((&b"\n"[..], &data2[0..data2.len() - 1]))
    );
    assert_eq!(
        nom(r#"<!DOCTYPE dummy>"#.as_bytes(), doctypedecl),
        Ok((&b""[..], &br#"<!DOCTYPE dummy>"#[..]))
    );
    assert_eq!(
        nom(
            r#"<!DOCTYPE myhtml  [  <!-- -->  ] >dummy"#.as_bytes(),
            doctypedecl
        ),
        Ok((&b"dummy"[..], &br#"<!DOCTYPE myhtml  [  <!-- -->  ] >"#[..]))
    );
    assert_eq!(
        nom(r#"<!DOCTYPE test  [ ]>dummy"#.as_bytes(), doctypedecl),
        Ok((&b"dummy"[..], &br#"<!DOCTYPE test  [ ]>"#[..]))
    );
}

#[test]
fn internal_test_doctypedecl() {
    assert_eq!(
        nom(r#"<!DOCTYPE>a"#.as_bytes(), doctypedecl),
        Err(NomErr::Error(NomError::new(">a".as_bytes(), NomKind::MultiSpace)))
    );
    assert_eq!(
        nom(
            r#"<!DOCTYPE greeting SYSTEM "hello.dtd">a"#.as_bytes(),
            doctypedecl
        ),
        Ok((&b"a"[..], &br#"<!DOCTYPE greeting SYSTEM "hello.dtd">"#[..]))
    );
    assert_eq!(
        nom(r#"<!DOCTYPE dummy>"#.as_bytes(), doctypedecl),
        Ok((&b""[..], &br#"<!DOCTYPE dummy>"#[..]))
    );
    assert_eq!(
        nom(
            r#"<!DOCTYPE myhtml  [  <!-- -->  ] >dummy"#.as_bytes(),
            doctypedecl
        ),
        Ok((&b"dummy"[..], &br#"<!DOCTYPE myhtml  [  <!-- -->  ] >"#[..]))
    );
    assert_eq!(
        nom(r#"<!DOCTYPE test  [ ]>dummy"#.as_bytes(), doctypedecl),
        Ok((&b"dummy"[..], &br#"<!DOCTYPE test  [ ]>"#[..]))
    );
}
