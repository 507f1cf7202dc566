//! The older pull parser and the grammar it uses, with scanner results
//! written as nom results.
use nom::error::{Error as NomError, ErrorKind as NomKind};
use nom::{Err as NomErr, IResult, Needed as NomNeeded};
use xml_oxide::parser3::grammar::{
    doctypedecl, namechar, namestart_char, CDATASection, CharData, CharData_single,
    CharData_single_pure, Comment, ETag, EncName, EncodingDecl, SDDecl, STag, VersionInfo,
    VersionNum, XMLDecl, PI,
};
use xml_oxide::parser3::OxideParser;
use xml_oxide::sax::scan::{tag, ErrorKind, Fail, Needed, Scanned};
use xml_oxide::sax::Event;

fn kind(k: ErrorKind) -> NomKind {
    match k {
        ErrorKind::Tag => NomKind::Tag,
        ErrorKind::Char => NomKind::Char,
        ErrorKind::MultiSpace => NomKind::MultiSpace,
        ErrorKind::IsNot => NomKind::IsNot,
        ErrorKind::IsA => NomKind::IsA,
        ErrorKind::TakeWhile1 => NomKind::TakeWhile1,
        ErrorKind::Alpha => NomKind::Alpha,
        ErrorKind::AlphaNumeric => NomKind::AlphaNumeric,
        ErrorKind::Digit => NomKind::Digit,
        ErrorKind::Eof => NomKind::Eof,
        ErrorKind::Many0 => NomKind::Many0,
        ErrorKind::Many1 => NomKind::Many1,
    }
}

/// A scan from the start of `data`, as nom would report it.
fn nom(data: &[u8], f: fn(&[u8], usize) -> Scanned) -> IResult<&[u8], &[u8]> {
    match f(data, 0) {
        Ok(m) => Ok((&data[m.rest..], &data[m.start..m.end])),
        Err(Fail::Error(p, k)) => Err(NomErr::Error(NomError::new(&data[p..], kind(k)))),
        Err(Fail::Incomplete(Needed::Unknown)) => Err(NomErr::Incomplete(NomNeeded::Unknown)),
        Err(Fail::Incomplete(Needed::Size(n))) => Err(NomErr::Incomplete(NomNeeded::new(n))),
    }
}

/// All events of `data` after the start of the document, handed over in one
/// piece, up to the end of the document; `None` where the parser cannot go
/// on.
fn events(data: &[u8]) -> Vec<Option<Event>> {
    let mut p = OxideParser::start();
    p.read_data(data);
    assert_eq!(p.try_read_event(), Some(Event::StartDocument));
    let mut out = vec![];
    loop {
        let e = p.try_read_event();
        let stop = match &e {
            None | Some(Event::EndDocument) => true,
            _ => false,
        };
        out.push(e);
        if stop {
            return out;
        }
    }
}

fn start_name(e: &Option<Event>) -> (String, bool, Vec<(String, String)>) {
    match e {
        Some(Event::StartElement(el)) => (
            el.name.clone(),
            el.is_empty,
            el.attributes
                .iter()
                .map(|a| (a.name.clone(), a.value.clone()))
                .collect(),
        ),
        _ => panic!("not a start tag: {:?}", e),
    }
}

#[test]
fn parser3_test_etag() {
    let data = r#"</A>"#.as_bytes();
    let (rest, e) = ETag(data, 0).unwrap();
    assert_eq!(rest, 4);
    assert_eq!(&data[e.name], b"A");
}

#[test]
fn parser3_test_namestart_char_t() {
    let data = "<a.abc-ab1çroot><A/><B/><C/></root>".as_bytes();
    let (rest, e) = STag(data, 0).unwrap();
    assert_eq!(&data[e.name], "a.abc-ab1çroot".as_bytes());
    assert_eq!(&data[rest..], b"<A/><B/><C/></root>");
}

#[test]
fn parser3_test_stag() {
    let data = r#"<A a="b"  c = "d"></A>"#.as_bytes();
    let (rest, e) = STag(data, 0).unwrap();
    assert_eq!(&data[rest..], b"</A>");
    assert_eq!(&data[e.name], b"A");
    assert_eq!(&data[e.attributes_chunk], br#" a="b"  c = "d""#);

    let data = r#"<A a='x'>"#.as_bytes();
    let (rest, e) = STag(data, 0).unwrap();
    assert_eq!(rest, data.len());
    assert_eq!(&data[e.attributes_chunk], b" a='x'");

    let data = r#"<B b="val" >"#.as_bytes();
    let (rest, e) = STag(data, 0).unwrap();
    assert_eq!(rest, data.len());
    assert_eq!(&data[e.attributes_chunk], br#" b="val""#);
}

#[test]
fn parser3_test_chardata_single() {
    assert_eq!(
        nom("]".as_bytes(), CharData_single),
        Err(NomErr::Incomplete(NomNeeded::Unknown))
    );
    assert_eq!(
        nom("]]".as_bytes(), CharData_single),
        Err(NomErr::Incomplete(NomNeeded::Unknown))
    );
    assert_eq!(
        nom("]]>".as_bytes(), CharData_single),
        Err(NomErr::Error(NomError::new("]]>".as_bytes(), NomKind::Char)))
    );
    assert_eq!(
        nom("]]<".as_bytes(), CharData_single),
        Ok((&b"]<"[..], &b"]"[..]))
    );
    assert_eq!(
        nom("&".as_bytes(), CharData_single),
        Err(NomErr::Error(NomError::new("&".as_bytes(), NomKind::Char)))
    );
    assert_eq!(
        nom("<".as_bytes(), CharData_single),
        Err(NomErr::Error(NomError::new("<".as_bytes(), NomKind::Char)))
    );
    assert_eq!(
        nom("abc".as_bytes(), CharData_single),
        Ok((&b"bc"[..], &b"a"[..]))
    );
}

#[test]
fn parser3_test_chardata() {
    assert_eq!(nom("abc]".as_bytes(), CharData), Ok((&b"]"[..], &b"abc"[..])));
    assert_eq!(
        nom("]]".as_bytes(), CharData),
        Err(NomErr::Incomplete(NomNeeded::Unknown))
    );
    assert_eq!(
        nom("]]>".as_bytes(), CharData),
        Err(NomErr::Error(NomError::new("]]>".as_bytes(), NomKind::Char)))
    );
    assert_eq!(nom("]]<".as_bytes(), CharData), Ok((&b"<"[..], &b"]]"[..])));
    assert_eq!(nom("a&".as_bytes(), CharData), Ok((&b"&"[..], &b"a"[..])));
    assert_eq!(nom("a<".as_bytes(), CharData), Ok((&b"<"[..], &b"a"[..])));
    assert_eq!(nom("abc".as_bytes(), CharData), Ok((&b""[..], &b"abc"[..])));

    let data: Vec<u8> = [
        65, 108, 99, 104, 101, 109, 121, 32, 40, 102, 114, 111, 109, 32, 65, 114, 97, 98, 105, 99,
        58, 32, 97, 108, 45, 107, 196, 171, 109, 105, 121, 196,
    ]
    .to_vec();
    let remainder: Vec<u8> = [196].to_vec();
    assert_eq!(
        nom(&data, CharData),
        Ok((
            &remainder[0..1],
            &"Alchemy (from Arabic: al-kīmiy".as_bytes()[..]
        ))
    );
}

#[test]
fn parser3_test_xml3() {
    let data = "<root><A/><B/><C/></root>".as_bytes();
    let m = tag(data, 0, b"<root>").unwrap();
    assert_eq!(&data[m.start..m.end], b"<root>");
    assert_eq!(&data[m.rest..], b"<A/><B/><C/></root>");
}

#[test]
fn parser3_test_VersionNum() {
    let data = r#"1.123 "#.as_bytes();
    assert_eq!(nom(data, VersionNum), Ok((&b" "[..], &b"1.123"[..])));
}

#[test]
fn parser3_test_VersionInfo() {
    let data = r#"  version="1.0" "#.as_bytes();
    assert_eq!(
        nom(data, VersionInfo),
        Ok((&b" "[..], &br#"  version="1.0""#[..]))
    );
}

#[test]
fn parser3_test_EncName() {
    let data = r#"UTF-8 "#.as_bytes();
    assert_eq!(nom(data, EncName), Ok((&b" "[..], &b"UTF-8"[..])));
}

#[test]
fn parser3_test_EncodingDecl() {
    let data = r#" encoding='EUC-JP' "#.as_bytes();
    assert_eq!(
        nom(data, EncodingDecl),
        Ok((&b" "[..], &b" encoding='EUC-JP'"[..]))
    );
}

#[test]
fn parser3_test_SDDecl() {
    let data = r#"  standalone='yes' "#.as_bytes();
    assert_eq!(
        nom(data, SDDecl),
        Ok((&b" "[..], &b"  standalone='yes'"[..]))
    );
}

#[test]
fn parser3_test_XMLDecl() {
    let data = r#"<?xml version="1.0"  encoding="UTF-8" standalone='yes'?>"#.as_bytes();
    assert_eq!(nom(data, XMLDecl), Ok((&b""[..], data)));
}

#[test]
fn parser3_test_comment() {
    assert_eq!(
        nom("<!-- comment -->a".as_bytes(), Comment),
        Ok((&b"a"[..], &b"<!-- comment -->"[..]))
    );
    assert_eq!(
        nom("<!---->cc".as_bytes(), Comment),
        Ok((&b"cc"[..], &b"<!---->"[..]))
    );
    assert_eq!(
        nom("<!-- comment --->a".as_bytes(), Comment),
        Err(NomErr::Error(NomError::new("--->a".as_bytes(), NomKind::Tag)))
    );
    assert_eq!(
        nom("<!-- com--ment -->a".as_bytes(), Comment),
        Err(NomErr::Error(NomError::new("--ment -->a".as_bytes(), NomKind::Tag)))
    );
    assert_eq!(
        nom("<!--ok-".as_bytes(), Comment),
        Err(NomErr::Incomplete(NomNeeded::new(2)))
    );
    assert_eq!(
        nom("<!--ok--".as_bytes(), Comment),
        Err(NomErr::Incomplete(NomNeeded::new(1)))
    );
}

#[test]
fn parser3_test_cdata() {
    assert_eq!(
        nom("<![CDATA[abc]]>a".as_bytes(), CDATASection),
        Ok((&b"a"[..], &b"<![CDATA[abc]]>"[..]))
    );
    assert_eq!(
        nom("<![CDATA[]]>".as_bytes(), CDATASection),
        Ok((&b""[..], &b"<![CDATA[]]>"[..]))
    );
    assert_eq!(
        nom("<![CDATA[ ]]".as_bytes(), CDATASection),
        Err(NomErr::Incomplete(NomNeeded::new(1)))
    );
    assert_eq!(
        nom("<![CDATA[ ]".as_bytes(), CDATASection),
        Err(NomErr::Incomplete(NomNeeded::new(2)))
    );
}

#[test]
fn parser3_test_pi() {
    assert_eq!(nom("<??>a".as_bytes(), PI), Ok((&b"a"[..], &b"<??>"[..])));
    assert_eq!(
        nom("<?dummmy?>".as_bytes(), PI),
        Ok((&b""[..], &b"<?dummmy?>"[..]))
    );
}

#[test]
fn parser3_test_doctypedecl() {
    assert_eq!(
        nom(r#"<!DOCTYPE>a"#.as_bytes(), doctypedecl),
        Ok((&b"a"[..], &br#"<!DOCTYPE>"#[..]))
    );
    assert_eq!(
        nom(
            r#"<!DOCTYPE greeting SYSTEM "hello.dtd">a"#.as_bytes(),
            doctypedecl
        ),
        Ok((&b"a"[..], &br#"<!DOCTYPE greeting SYSTEM "hello.dtd">"#[..]))
    );
    assert_eq!(
        nom(r#"<!DOCTYPE dummy>"#.as_bytes(), doctypedecl),
        Ok((&b""[..], &br#"<!DOCTYPE dummy>"#[..]))
    );
    assert_eq!(
        nom(r#"<!DOCTYPE <!-- --> <[]>dummy>"#.as_bytes(), doctypedecl),
        Ok((&b""[..], &br#"<!DOCTYPE <!-- --> <[]>dummy>"#[..]))
    );
    assert_eq!(
        nom(r#"<!DOCTYPE <!-- > --> <[]>dummy>"#.as_bytes(), doctypedecl),
        Ok((&b""[..], &br#"<!DOCTYPE <!-- > --> <[]>dummy>"#[..]))
    );
}

#[test]
fn parser3_test_parser1() {
    let data = r#"<root><A a='x'>
    <B b="val" a:12='val2' ><C/></B></A></root>"#
        .as_bytes();

    let mut p = OxideParser::start();
    p.read_data(data);
    let mut names = vec![];
    loop {
        let res = p.read_event();
        match res {
            Event::StartDocument => {}
            Event::EndDocument => panic!("the document does not end here"),
            Event::StartElement(el) => {
                names.push(el.name.clone());
                if el.name == "C" {
                    break;
                }
            }
            Event::EndElement(_) => panic!("no end tag before C"),
            _ => {}
        }
    }
    assert_eq!(names, vec!["root", "A", "B", "C"]);
}

#[test]
fn parser3_single_characters() {
    assert_eq!(nom("ab".as_bytes(), namestart_char), Ok((&b"b"[..], &b"a"[..])));
    assert_eq!(
        nom("-a".as_bytes(), namestart_char),
        Err(NomErr::Error(NomError::new("-a".as_bytes(), NomKind::Char)))
    );
    assert_eq!(nom("-a".as_bytes(), namechar), Ok((&b"a"[..], &b"-"[..])));
    assert_eq!(
        nom("".as_bytes(), namechar),
        Err(NomErr::Incomplete(NomNeeded::new(1)))
    );
    assert_eq!(
        nom("&".as_bytes(), CharData_single_pure),
        Err(NomErr::Error(NomError::new("&".as_bytes(), NomKind::Char)))
    );
    assert_eq!(
        nom("çx".as_bytes(), CharData_single_pure),
        Ok((&b"x"[..], "ç".as_bytes()))
    );
}

#[test]
fn parser3_doctypedecl_incomplete_and_nested() {
    assert_eq!(
        nom(r#"<!DOCTYPE a <b <c>> d>x"#.as_bytes(), doctypedecl),
        Ok((&b"x"[..], &br#"<!DOCTYPE a <b <c>> d>"#[..]))
    );
    assert!(matches!(
        nom(r#"<!DOCTYPE a"#.as_bytes(), doctypedecl),
        Err(NomErr::Incomplete(_))
    ));
}

#[test]
fn parser3_events_of_a_document() {
    let data = r#"<?xml version="1.0"?> <!DOCTYPE r <!-- x -->><r a="1" b='&amp;'>x&lt;y<e/><![CDATA[c]]><!--k--></r>"#;
    let ev = events(data.as_bytes());
    assert_eq!(
        ev[0],
        Some(Event::XmlDeclaration(r#"<?xml version="1.0"?>"#.to_string()))
    );
    assert_eq!(ev[1], Some(Event::Whitespace(" ".to_string())));
    assert_eq!(
        ev[2],
        Some(Event::DocumentTypeDeclaration(
            "<!DOCTYPE r <!-- x -->>".to_string()
        ))
    );
    assert_eq!(
        start_name(&ev[3]),
        (
            "r".to_string(),
            false,
            vec![
                ("a".to_string(), "1".to_string()),
                ("b".to_string(), "&amp;".to_string())
            ]
        )
    );
    assert_eq!(ev[4], Some(Event::Characters("x".to_string())));
    match &ev[5] {
        Some(Event::Reference(r)) => {
            assert_eq!(r.raw, "&lt;");
            assert_eq!(r.resolved, Some("<".to_string()));
        }
        other => panic!("not a reference: {:?}", other),
    }
    assert_eq!(ev[6], Some(Event::Characters("y".to_string())));
    assert_eq!(start_name(&ev[7]), ("e".to_string(), true, vec![]));
    assert_eq!(ev[8], Some(Event::StartCdataSection));
    assert_eq!(ev[9], Some(Event::Characters("c".to_string())));
    assert_eq!(ev[10], Some(Event::EndCdataSection));
    assert_eq!(ev[11], Some(Event::StartComment));
    assert_eq!(ev[12], Some(Event::Characters("k".to_string())));
    assert_eq!(ev[13], Some(Event::EndComment));
    match &ev[14] {
        Some(Event::EndElement(e)) => assert_eq!(e.name, "r"),
        other => panic!("not an end tag: {:?}", other),
    }
    assert_eq!(ev[15], Some(Event::EndDocument));
    assert_eq!(ev.len(), 16);
}

#[test]
fn parser3_references() {
    let ev = events("<r>&gt;&quot;&apos;&#60;&x;</r>".as_bytes());
    let resolved: Vec<(String, Option<String>)> = ev
        .iter()
        .filter_map(|e| match e {
            Some(Event::Reference(r)) => Some((r.raw.clone(), r.resolved.clone())),
            _ => None,
        })
        .collect();
    assert_eq!(
        resolved,
        vec![
            ("&gt;".to_string(), Some(">".to_string())),
            ("&quot;".to_string(), Some("\"".to_string())),
            ("&apos;".to_string(), Some("'".to_string())),
            ("&#60;".to_string(), Some("&#60;".to_string())),
            ("&x;".to_string(), Some("&x;".to_string())),
        ]
    );
}

#[test]
fn parser3_cannot_go_on() {
    // a processing instruction is not content for this parser
    let ev = events("<r><?pi?></r>".as_bytes());
    assert_eq!(ev.len(), 2);
    assert_eq!(ev[1], None);

    // an unfinished tag after some data
    let ev = events("<r".as_bytes());
    assert_eq!(ev, vec![None]);

    // an unfinished comment
    let ev = events("<!--ab-".as_bytes());
    assert_eq!(ev[0], Some(Event::StartComment));
    assert_eq!(ev[1], Some(Event::Characters("ab".to_string())));
    assert_eq!(ev[2], None);
}

#[test]
fn parser3_data_in_pieces() {
    let mut p = OxideParser::start();
    assert_eq!(p.buffered_len(), 0);
    p.read_data(b"<a>te");
    assert_eq!(p.try_read_event(), Some(Event::StartDocument));
    assert_eq!(p.buffered_len(), 5);
    assert_eq!(start_name(&p.try_read_event()).0, "a");
    assert_eq!(p.buffered_len(), 2);
    assert_eq!(p.try_read_event(), Some(Event::Characters("te".to_string())));
    assert_eq!(p.buffered_len(), 0);
    p.read_data(b"xt</a>");
    assert_eq!(p.try_read_event(), Some(Event::Characters("xt".to_string())));
    match p.try_read_event() {
        Some(Event::EndElement(e)) => assert_eq!(e.name, "a"),
        other => panic!("not an end tag: {:?}", other),
    }
    assert_eq!(p.try_read_event(), Some(Event::EndDocument));
}

#[test]
fn parser3_no_data_ends_document() {
    assert_eq!(events(b""), vec![Some(Event::EndDocument)]);
    let mut p = OxideParser::start();
    p.read_data(b"<?xml version='1.0'?>");
    assert_eq!(p.try_read_event(), Some(Event::StartDocument));
    assert!(matches!(p.try_read_event(), Some(Event::XmlDeclaration(_))));
    assert_eq!(p.try_read_event(), Some(Event::EndDocument));
    assert_eq!(p.try_read_event(), Some(Event::EndDocument));
}

#[test]
fn parser3_comment_and_cdata_text_as_characters() {
    // the document of the comment and CDATA test, written out here
    let data = "<root><!-- This is a comment --><a><![CDATA[abc]]></a><b><![CDATA[<&>]]></b></root>";
    let ev = events(data.as_bytes());
    let mut comments = String::new();
    let mut cdatas = String::new();
    let mut inside_comment = false;
    let mut inside_cdata = false;
    for e in ev {
        match e.unwrap() {
            Event::StartComment => inside_comment = true,
            Event::EndComment => inside_comment = false,
            Event::StartCdataSection => inside_cdata = true,
            Event::EndCdataSection => inside_cdata = false,
            Event::Characters(c) => {
                if inside_comment {
                    comments.push_str(&c);
                    comments.push_str(",");
                }
                if inside_cdata {
                    cdatas.push_str(&c);
                    cdatas.push_str(",");
                }
            }
            _ => {}
        }
    }
    assert_eq!(comments, " This is a comment ,");
    assert_eq!(cdatas, "abc,<&>,");
}

#[test]
fn parser3_books_begin_with_the_start_of_the_document() {
    let data = "<fp:books xmlns:fp=\"http://github.com/fatihpense\">\r\n    <fp:book fp:archive=\"true\" fp:read=\"true\" fp:gifted=\"false\">\r\n        <fp:title_english>Madonna in a Fur Coat</fp:title_english>\r\n    </fp:book>\r\n</fp:books>\r\n";
    let mut p = OxideParser::start();
    p.read_data(data.as_bytes());
    assert_eq!(p.try_read_event(), Some(Event::StartDocument));
    match p.try_read_event() {
        Some(Event::StartElement(el)) => {
            assert_eq!(el.name, "fp:books");
            assert!(!el.is_empty);
            assert_eq!(el.attributes.len(), 1);
            assert_eq!(el.attributes[0].name, "xmlns:fp");
            assert_eq!(el.attributes[0].value, "http://github.com/fatihpense");
        }
        other => panic!("not a start tag: {:?}", other),
    }
    assert_eq!(p.try_read_event(), Some(Event::Characters("\r\n    ".to_string())));
    let mut last = vec![];
    loop {
        let e = p.try_read_event().unwrap();
        let end = e == Event::EndDocument;
        last.push(e);
        if end {
            break;
        }
    }
    let n = last.len();
    assert_eq!(last[n - 1], Event::EndDocument);
    assert_eq!(last[n - 2], Event::Characters("\r\n".to_string()));
    match &last[n - 3] {
        Event::EndElement(e) => assert_eq!(e.name, "fp:books"),
        other => panic!("not an end tag: {:?}", other),
    }
}
