//! The XML grammar scanners, with their results written as nom results.
use nom::error::{Error as NomError, ErrorKind as NomKind};
use nom::{Err as NomErr, IResult, Needed as NomNeeded};
use xml_oxide::sax::internal::{
    Attribute2, CDATASection, CharData, CharData_single, Comment, EncName, EncodingDecl, ETag,
    QName, SDDecl, STag, VersionInfo, VersionNum, XMLDecl, PI,
};
use xml_oxide::sax::scan::{tag, ErrorKind, Fail, Needed, Scanned};

fn kind(k: ErrorKind) -> NomKind {
    match k {
        ErrorKind::Tag => NomKind::Tag,
        ErrorKind::Char => NomKind::Char,
        ErrorKind::MultiSpace => NomKind::MultiSpace,
        ErrorKind::IsNot => NomKind::IsNot,
        ErrorKind::IsA => NomKind::IsA,
        ErrorKind::TakeWhile1 => NomKind::TakeWhile1,
        ErrorKind::Alpha => NomKind::Alpha,
        ErrorKind::AlphaNumeric => NomKind::AlphaNumeric,
        ErrorKind::Digit => NomKind::Digit,
        ErrorKind::Eof => NomKind::Eof,
        ErrorKind::Many0 => NomKind::Many0,
        ErrorKind::Many1 => NomKind::Many1,
    }
}

fn fail<'a, T>(data: &'a [u8], f: Fail) -> IResult<&'a [u8], T> {
    match f {
        Fail::Error(p, k) => Err(NomErr::Error(NomError::new(&data[p..], kind(k)))),
        Fail::Incomplete(Needed::Unknown) => Err(NomErr::Incomplete(NomNeeded::Unknown)),
        Fail::Incomplete(Needed::Size(n)) => Err(NomErr::Incomplete(NomNeeded::new(n))),
    }
}

/// A scan from the start of `data`, as nom would report it.
fn nom(data: &[u8], f: fn(&[u8], usize) -> Scanned) -> IResult<&[u8], &[u8]> {
    match f(data, 0) {
        Ok(m) => Ok((&data[m.rest..], &data[m.start..m.end])),
        Err(e) => fail(data, e),
    }
}

#[test]
fn test_attribute2() {
    let data = r#" a:b12='val2'"#.as_bytes();
    let range = Attribute2(data, 0).unwrap().1;
    assert_eq!("a:b12".as_bytes(), &data[range.name.clone()]);
    assert_eq!("val2".as_bytes(), &data[range.value.clone()]);
}

#[test]
fn internal_test_etag() {
    let data = r#"</A>"#.as_bytes();
    let (rest, e) = ETag(data, 0).unwrap();
    assert_eq!(rest, 4);
    assert_eq!(&data[e.name], b"A");
}

#[test]
fn internal_test_namestart_char_t() {
    let data = "<a.abc-ab1çroot><A/><B/><C/></root>".as_bytes();
    let (rest, e) = STag(data, 0).unwrap();
    assert_eq!(&data[e.name], "a.abc-ab1çroot".as_bytes());
    assert_eq!(&data[rest..], b"<A/><B/><C/></root>");
}

#[test]
fn internal_test_stag() {
    let data = r#"<A a="b"  c = "d"></A>"#.as_bytes();
    let (rest, e) = STag(data, 0).unwrap();
    assert_eq!(&data[rest..], b"</A>");
    assert_eq!(&data[e.name], b"A");
    assert_eq!(&data[e.attributes_chunk], br#" a="b"  c = "d""#);

    let data = r#"<A a='x'>"#.as_bytes();
    let (rest, e) = STag(data, 0).unwrap();
    assert_eq!(rest, data.len());
    assert_eq!(&data[e.attributes_chunk], b" a='x'");

    let data = r#"<B b="val" >"#.as_bytes();
    let (rest, e) = STag(data, 0).unwrap();
    assert_eq!(rest, data.len());
    assert_eq!(&data[e.attributes_chunk], br#" b="val""#);
}

#[test]
fn internal_test_chardata_single() {
    assert_eq!(
        nom("]".as_bytes(), CharData_single),
        Err(NomErr::Incomplete(NomNeeded::Unknown))
    );
    assert_eq!(
        nom("]]".as_bytes(), CharData_single),
        Err(NomErr::Incomplete(NomNeeded::Unknown))
    );
    assert_eq!(
        nom("]]>".as_bytes(), CharData_single),
        Err(NomErr::Error(NomError::new("]]>".as_bytes(), NomKind::Char)))
    );
    assert_eq!(
        nom("]]<".as_bytes(), CharData_single),
        Ok((&b"]<"[..], &b"]"[..]))
    );
    assert_eq!(
        nom("&".as_bytes(), CharData_single),
        Err(NomErr::Error(NomError::new("&".as_bytes(), NomKind::Char)))
    );
    assert_eq!(
        nom("<".as_bytes(), CharData_single),
        Err(NomErr::Error(NomError::new("<".as_bytes(), NomKind::Char)))
    );
    assert_eq!(
        nom("abc".as_bytes(), CharData_single),
        Ok((&b"bc"[..], &b"a"[..]))
    );
}

#[test]
fn internal_test_chardata() {
    assert_eq!(nom("abc]".as_bytes(), CharData), Ok((&b"]"[..], &b"abc"[..])));
    assert_eq!(
        nom("]]".as_bytes(), CharData),
        Err(NomErr::Incomplete(NomNeeded::Unknown))
    );
    assert_eq!(
        nom("]]>".as_bytes(), CharData),
        Err(NomErr::Error(NomError::new("]]>".as_bytes(), NomKind::Char)))
    );
    assert_eq!(nom("]]<".as_bytes(), CharData), Ok((&b"<"[..], &b"]]"[..])));
    assert_eq!(nom("a&".as_bytes(), CharData), Ok((&b"&"[..], &b"a"[..])));
    assert_eq!(nom("a<".as_bytes(), CharData), Ok((&b"<"[..], &b"a"[..])));
    assert_eq!(nom("abc".as_bytes(), CharData), Ok((&b""[..], &b"abc"[..])));

    let data: Vec<u8> = [
        65, 108, 99, 104, 101, 109, 121, 32, 40, 102, 114, 111, 109, 32, 65, 114, 97, 98, 105, 99,
        58, 32, 97, 108, 45, 107, 196, 171, 109, 105, 121, 196,
    ]
    .to_vec();
    let remainder: Vec<u8> = [196].to_vec();
    assert_eq!(
        nom(&data, CharData),
        Ok((
            &remainder[0..1],
            &"Alchemy (from Arabic: al-kīmiy".as_bytes()[..]
        ))
    );
}

#[test]
fn internal_test_xml3() {
    let data = "<root><A/><B/><C/></root>".as_bytes();
    let m = tag(data, 0, b"<root>").unwrap();
    assert_eq!(&data[m.start..m.end], b"<root>");
    assert_eq!(&data[m.rest..], b"<A/><B/><C/></root>");
}

#[test]
fn internal_test_VersionNum() {
    let data = r#"1.123 "#.as_bytes();
    assert_eq!(nom(data, VersionNum), Ok((&b" "[..], &b"1.123"[..])));
}

#[test]
fn internal_test_VersionInfo() {
    let data = r#"  version="1.0" "#.as_bytes();
    assert_eq!(
        nom(data, VersionInfo),
        Ok((&b" "[..], &br#"  version="1.0""#[..]))
    );
}

#[test]
fn internal_test_EncName() {
    let data = r#"UTF-8 "#.as_bytes();
    assert_eq!(nom(data, EncName), Ok((&b" "[..], &b"UTF-8"[..])));
}

#[test]
fn internal_test_EncodingDecl() {
    let data = r#" encoding='EUC-JP' "#.as_bytes();
    assert_eq!(
        nom(data, EncodingDecl),
        Ok((&b" "[..], &b" encoding='EUC-JP'"[..]))
    );
}

#[test]
fn internal_test_SDDecl() {
    let data = r#"  standalone='yes' "#.as_bytes();
    assert_eq!(
        nom(data, SDDecl),
        Ok((&b" "[..], &b"  standalone='yes'"[..]))
    );
}

#[test]
fn internal_test_XMLDecl() {
    let data = r#"<?xml version="1.0"  encoding="UTF-8" standalone='yes'?>"#.as_bytes();
    assert_eq!(nom(data, XMLDecl), Ok((&b""[..], data)));
}

#[test]
fn internal_test_comment() {
    assert_eq!(
        nom("<!-- comment -->a".as_bytes(), Comment),
        Ok((&b"a"[..], &b"<!-- comment -->"[..]))
    );
    assert_eq!(
        nom("<!---->cc".as_bytes(), Comment),
        Ok((&b"cc"[..], &b"<!---->"[..]))
    );
    assert_eq!(
        nom("<!-- comment --->a".as_bytes(), Comment),
        Err(NomErr::Error(NomError::new("--->a".as_bytes(), NomKind::Tag)))
    );
    assert_eq!(
        nom("<!-- com--ment -->a".as_bytes(), Comment),
        Err(NomErr::Error(NomError::new("--ment -->a".as_bytes(), NomKind::Tag)))
    );
    assert_eq!(
        nom("<!--ok-".as_bytes(), Comment),
        Err(NomErr::Incomplete(NomNeeded::new(2)))
    );
    assert_eq!(
        nom("<!--ok--".as_bytes(), Comment),
        Err(NomErr::Incomplete(NomNeeded::new(1)))
    );
}

#[test]
fn internal_test_cdata() {
    assert_eq!(
        nom("<![CDATA[abc]]>a".as_bytes(), CDATASection),
        Ok((&b"a"[..], &b"<![CDATA[abc]]>"[..]))
    );
    assert_eq!(
        nom("<![CDATA[]]>".as_bytes(), CDATASection),
        Ok((&b""[..], &b"<![CDATA[]]>"[..]))
    );
    assert_eq!(
        nom("<![CDATA[ ]]".as_bytes(), CDATASection),
        Err(NomErr::Incomplete(NomNeeded::new(1)))
    );
    assert_eq!(
        nom("<![CDATA[ ]".as_bytes(), CDATASection),
        Err(NomErr::Incomplete(NomNeeded::new(2)))
    );
}

#[test]
fn internal_test_pi() {
    assert_eq!(nom("<??>a".as_bytes(), PI), Ok((&b"a"[..], &b"<??>"[..])));
    assert_eq!(
        nom("<?dummmy?>".as_bytes(), PI),
        Ok((&b""[..], &b"<?dummmy?>"[..]))
    );
}

#[test]
fn test_qname() {
    let data = ":no".as_bytes();
    match QName(data, 0) {
        Err(f) => assert_eq!(
            fail::<()>(data, f),
            Err(NomErr::Error(NomError::new(":no".as_bytes(), NomKind::Char)))
        ),
        Ok(_) => panic!("accepted"),
    }

    let data = "a:b:".as_bytes();
    match QName(data, 0) {
        Err(f) => assert_eq!(
            fail::<()>(data, f),
            Err(NomErr::Error(NomError::new(":b:".as_bytes(), NomKind::Eof)))
        ),
        Ok(_) => panic!("accepted"),
    }

    let data = "a:b".as_bytes();
    let (rest, q) = QName(data, 0).unwrap();
    assert_eq!(rest, 3);
    assert_eq!(&data[q.prefix_range.clone()], b"a");
    assert_eq!(&data[q.local_name_range.clone()], b"b");
    assert_eq!(q.prefix_range, 0..1);
    assert_eq!(q.local_name_range, 2..3);

    let data = "a:123".as_bytes();
    match QName(data, 0) {
        Err(f) => assert_eq!(
            fail::<()>(data, f),
            Err(NomErr::Error(NomError::new(":123".as_bytes(), NomKind::Eof)))
        ),
        Ok(_) => panic!("accepted"),
    }
}
