//! The pull parser, fed in chunks as a reader would feed it.
use xml_oxide::sax::parser::{Error, Parser};
use xml_oxide::sax::Event;

/// Every event of the document, fed `chunk` bytes at a time, up to the end
/// of the document or the first error.
fn events(data: &[u8], chunk: usize) -> Vec<Result<Event, Error>> {
    let mut p = Parser::new();
    let mut pos = 0;
    let mut out = Vec::new();
    loop {
        if p.buffered_len() < chunk && pos < data.len() {
            let end = std::cmp::min(pos + chunk, data.len());
            p.read_data(&data[pos..end]);
            pos = end;
        }
        match p.read_event() {
            Ok(Event::EndDocument) => {
                out.push(Ok(Event::EndDocument));
                break;
            }
            Ok(e) => out.push(Ok(e)),
            Err(Error::UnexpectedEof) if pos < data.len() => {
                let end = std::cmp::min(pos + chunk, data.len());
                p.read_data(&data[pos..end]);
                pos = end;
            }
            Err(e) => {
                out.push(Err(e));
                break;
            }
        }
    }
    out
}

struct MyCollectorSaxHandler {
    start_counter: usize,
    end_counter: usize,
    start_el_name_vec: Vec<String>,
    end_el_name_vec: Vec<String>,
    characters_collected_vec: Vec<String>,
    characters_buf: String,
}

fn collect_with_parser(data: &[u8]) -> MyCollectorSaxHandler {
    let mut collected = MyCollectorSaxHandler {
        start_counter: 0,
        end_counter: 0,
        start_el_name_vec: Vec::new(),
        end_el_name_vec: Vec::new(),
        characters_collected_vec: Vec::new(),
        characters_buf: String::new(),
    };
    for res in events(data, 8 * 1024) {
        match res {
            Ok(event) => match event {
                Event::StartElement(el) => {
                    collected.start_counter += 1;
                    collected.start_el_name_vec.push(el.name.to_owned());
                    let mut attributes = el.attributes();
                    while let Some(_attr) = attributes.next() {}
                }
                Event::EndElement(el) => {
                    collected.end_counter += 1;
                    collected.end_el_name_vec.push(el.name.to_owned());
                }
                Event::Characters(chars) => {
                    collected.characters_buf.push_str(&chars);
                    collected.characters_collected_vec.push(chars.to_string());
                }
                Event::Cdata(chars) => {
                    collected.characters_buf.push_str(&chars);
                }
                Event::Reference(reference) => {
                    if let Some(resolved) = reference.resolved {
                        collected.characters_buf.push_str(&resolved);
                    }
                }
                _ => {}
            },
            Err(_err) => break,
        }
    }
    collected
}

#[test]
fn test_basic() {
    let s = String::from("<rootEl><value>5</value></rootEl>");
    let data = collect_with_parser(s.as_bytes());
    assert_eq!(data.start_counter, 2);
    assert_eq!(data.end_counter, 2);
    assert_eq!(data.start_el_name_vec.get(0).unwrap(), "rootEl");
    assert_eq!(data.end_el_name_vec.get(0).unwrap(), "value");
    assert_eq!(data.characters_collected_vec.get(0).unwrap(), "5");
}

#[test]
fn test_66_entity_ref() {
    let c = char::from_u32(60).unwrap();
    assert_eq!(c, '<');
    let c2 = char::from_u32(u32::from_str_radix("0003C", 16).unwrap()).unwrap();
    assert_eq!(c2, '<');

    let s = String::from("<rootEl><value>1&lt;2&#60;3&#x0003C;4</value></rootEl>");
    let data = collect_with_parser(s.as_bytes());
    assert_eq!(data.characters_buf, "1<2<3<4");
}

#[test]
fn test_18_cdata() {
    let s = String::from(
        "<rootEl>1&lt;2&#60;3&#x0003C;4<![CDATA[ \
         1&lt;2&#60;3&#x0003C;4]]><![CDATA[]]></rootEl>",
    );
    let data = collect_with_parser(s.as_bytes());
    assert_eq!(data.characters_buf, "1<2<3<4 1&lt;2&#60;3&#x0003C;4");
}

#[test]
fn test_15_comment_1() {
    let s = String::from("<rootEl>comments<!--are ignored--><!---->.</rootEl>");
    let data = collect_with_parser(s.as_bytes());
    assert_eq!(data.characters_buf, "comments.");
}

#[test]
#[should_panic]
fn test_15_comment_not_well_formed() {
    let s = String::from(
        "<rootEl>comments<!-- are not well formed with 3 \
         hyphen at the end unless it is empty---><!---->.</rootEl>",
    );
    let data = collect_with_parser(s.as_bytes());
    assert_eq!(data.characters_buf, "comments.");
}

#[test]
fn parser_test_parser1() {
    let data = r#"<root><A a='x'>
    <B b="val" a:b12='val2' ><C/></B> </A> </root>"#
        .as_bytes();
    for res in events(data, 8 * 1024) {
        match res {
            Ok(Event::EndDocument) => break,
            Ok(_) => {}
            Err(_) => break,
        }
    }
}

fn names(evs: &[Result<Event, Error>]) -> Vec<String> {
    evs.iter()
        .map(|e| match e {
            Ok(Event::StartDocument) => "StartDocument".to_string(),
            Ok(Event::EndDocument) => "EndDocument".to_string(),
            Ok(Event::StartElement(s)) => format!("<{}{}>", s.name, if s.is_empty { "/" } else { "" }),
            Ok(Event::EndElement(s)) => format!("</{}>", s.name),
            Ok(Event::Characters(t)) => format!("chars:{}", t),
            Ok(Event::Reference(r)) => format!("ref:{}={:?}", r.raw, r.resolved),
            Ok(Event::StartComment) => "StartComment".to_string(),
            Ok(Event::Comment(t)) => format!("comment:{}", t),
            Ok(Event::EndComment) => "EndComment".to_string(),
            Ok(Event::StartCdataSection) => "StartCdata".to_string(),
            Ok(Event::Cdata(t)) => format!("cdata:{}", t),
            Ok(Event::EndCdataSection) => "EndCdata".to_string(),
            Ok(Event::DocumentTypeDeclaration(t)) => format!("doctype:{}", t),
            Ok(Event::ProcessingInstruction(t)) => format!("pi:{}", t),
            Ok(Event::XmlDeclaration(t)) => format!("xmldecl:{}", t),
            Ok(Event::Whitespace(t)) => format!("ws:{:?}", t),
            Err(Error::Parsing(m)) => format!("error:{}", m),
            Err(Error::UnexpectedEof) => "eof".to_string(),
        })
        .collect()
}

#[test]
fn whole_document_events() {
    let doc = "<?xml version=\"1.0\"?>\n<!DOCTYPE d>\n<!--c--><d a='1'><?p x?>t<![CDATA[z]]></d>\n";
    let evs = events(doc.as_bytes(), 8 * 1024);
    assert_eq!(
        names(&evs),
        vec![
            "StartDocument",
            "xmldecl:<?xml version=\"1.0\"?>",
            "ws:\"\\n\"",
            "doctype:<!DOCTYPE d>",
            "ws:\"\\n\"",
            "StartComment",
            "comment:c",
            "EndComment",
            "<d>",
            "pi:<?p x?>",
            "chars:t",
            "StartCdata",
            "cdata:z",
            "EndCdata",
            "</d>",
            "ws:\"\\n\"",
            "EndDocument",
        ]
    );
}

#[test]
fn one_byte_chunks_give_the_same_structure() {
    let doc = "<r><x k=\"v\">ab&amp;c</x><y/></r>";
    let whole = names(&events(doc.as_bytes(), 8 * 1024));
    let mut bytewise = names(&events(doc.as_bytes(), 1));
    // character data may come in smaller pieces; join neighbouring pieces
    let mut joined: Vec<String> = Vec::new();
    for n in bytewise.drain(..) {
        if n.starts_with("chars:") {
            if let Some(last) = joined.last_mut() {
                if last.starts_with("chars:") {
                    last.push_str(&n["chars:".len()..]);
                    continue;
                }
            }
        }
        joined.push(n);
    }
    assert_eq!(whole, joined);
}

#[test]
fn unexpected_eof_leaves_the_parser_as_it_was() {
    let mut p = Parser::new();
    p.read_data(b"<roo");
    assert!(matches!(p.read_event(), Ok(Event::StartDocument)));
    assert!(matches!(p.read_event(), Err(Error::UnexpectedEof)));
    assert_eq!(p.buffered_len(), 4);
    assert!(matches!(p.read_event(), Err(Error::UnexpectedEof)));
    p.read_data(b"t/>");
    match p.read_event() {
        Ok(Event::StartElement(s)) => {
            assert_eq!(s.name, "root");
            assert!(s.is_empty);
        }
        other => panic!("{:?}", other),
    }
    assert!(matches!(p.read_event(), Ok(Event::EndDocument)));
    // the end of the document is answered again
    assert!(matches!(p.read_event(), Ok(Event::EndDocument)));
}

#[test]
fn end_tag_must_match() {
    let evs = names(&events(b"<a><b></a>", 64));
    assert_eq!(
        evs,
        vec!["StartDocument", "<a>", "<b>", "error:Expected closing tag: b ,found: a"]
    );
}

#[test]
fn end_tag_without_start_tag() {
    let evs = names(&events(b"x</a>", 64));
    assert_eq!(evs, vec!["StartDocument", "chars:x", "error:No starting tag for: a"]);
}

#[test]
fn content_after_the_root_is_refused() {
    let evs = names(&events(b"<a/>x", 64));
    assert_eq!(
        evs,
        vec![
            "StartDocument",
            "<a/>",
            "error:Unexpected entity/content at the end of the document."
        ]
    );
}

#[test]
fn content_that_is_no_content_is_refused() {
    let evs = names(&events(b"<a>]]>", 64));
    assert_eq!(evs[0], "StartDocument");
    assert_eq!(evs[1], "<a>");
    assert_eq!(
        evs[2],
        "error:Expected one of (CharData | element | Reference | CDSect | PI | Comment), found: ]]>"
    );
}

#[test]
fn namespaces_are_resolved() {
    let doc = r#"<root xmlns="urn:r" xmlns:a="http://a"><a:x a:k="1" b="2"><y/></a:x></root>"#;
    let evs = events(doc.as_bytes(), 64);
    let mut seen = Vec::new();
    for e in evs {
        match e {
            Ok(Event::StartElement(s)) => {
                seen.push(format!("{}|{}|{}|{}", s.name, s.prefix, s.local_name, s.namespace));
                let mut attributes = s.attributes();
                while let Some(a) = attributes.next() {
                    seen.push(format!(
                        "@{}|{}|{}|{}={}",
                        a.name, a.prefix, a.local_name, a.namespace, a.value
                    ));
                }
            }
            Ok(Event::EndElement(s)) => {
                seen.push(format!("/{}|{}|{}|{}", s.name, s.prefix, s.local_name, s.namespace))
            }
            Err(e) => panic!("{:?}", e),
            _ => {}
        }
    }
    assert_eq!(
        seen,
        vec![
            "root||root|urn:r",
            "@xmlns||xmlns|=urn:r",
            "@xmlns:a|xmlns|a|=http://a",
            "a:x|a|x|http://a",
            "@a:k|a|k|http://a=1",
            "@b||b|=2",
            "y||y|urn:r",
            "/a:x|a|x|http://a",
            "/root||root|urn:r",
        ]
    );
}

#[test]
fn namespace_errors() {
    assert_eq!(
        names(&events(b"<p:x/>", 64))[1],
        "error:Namespace prefix not found for element: p:x"
    );
    assert_eq!(
        names(&events(b"<x p:k='1'/>", 64))[1],
        "error:Namespace not found for prefix: p , attribute: p:k , element: x"
    );
    assert_eq!(
        names(&events(b"<a:b:c/>", 64))[1],
        "error:Element name does not conform to QName spec: a:b:c"
    );
    assert_eq!(
        names(&events(b"<x a:b:c='1'/>", 64))[1],
        "error:Attribute does not conform to QName spec: a:b:c"
    );
}

#[test]
fn references_are_resolved() {
    let evs = names(&events(
        b"<r>&#x3C;&#60;&amp;&lt;&gt;&quot;&apos;&other;&#x110000;&#99999999999;</r>",
        64,
    ));
    assert_eq!(
        evs,
        vec![
            "StartDocument",
            "<r>",
            "ref:&#x3C;=Some(\"<\")",
            "ref:&#60;=Some(\"<\")",
            "ref:&amp;=Some(\"&\")",
            "ref:&lt;=Some(\"<\")",
            "ref:&gt;=Some(\">\")",
            "ref:&quot;=Some(\"\\\"\")",
            "ref:&apos;=Some(\"'\")",
            "ref:&other;=None",
            "ref:&#x110000;=None",
            "ref:&#99999999999;=None",
            "</r>",
            "EndDocument",
        ]
    );
}

#[test]
fn attributes_come_in_order_then_run_out() {
    let evs = events(b"<r one='1' two=\"2\"/>", 64);
    match &evs[1] {
        Ok(Event::StartElement(s)) => {
            assert_eq!(s.attributes.len(), 2);
            let mut it = s.attributes();
            assert_eq!(it.next().unwrap().name, "one");
            assert_eq!(it.next().unwrap().value, "2");
            assert!(it.next().is_none());
            assert!(it.next().is_none());
        }
        other => panic!("{:?}", other),
    }
}

#[test]
fn attributes_that_do_not_parse_are_refused() {
    // a stray byte inside an attribute value that is not UTF-8
    let mut doc = b"<r a='".to_vec();
    doc.push(0xff);
    doc.extend_from_slice(b"'/>");
    let evs = names(&events(&doc, 64));
    assert_eq!(evs[1], "error:The document is not valid UTF-8.");
}

#[test]
fn a_declaration_does_not_reach_later_siblings() {
    let mut p = Parser::new();
    p.read_data(b"<r><a xmlns='urn:x'><c/></a><b/><d xmlns:q='urn:q'/><q:e/></r>");
    let mut starts = vec![];
    loop {
        match p.read_event() {
            Ok(Event::StartElement(el)) => starts.push((el.name.clone(), el.namespace.clone())),
            Ok(Event::EndDocument) => break,
            Ok(_) => {}
            Err(e) => {
                starts.push(("error".to_string(), format!("{:?}", e)));
                break;
            }
        }
    }
    assert_eq!(starts[0], ("r".to_string(), "".to_string()));
    assert_eq!(starts[1], ("a".to_string(), "urn:x".to_string()));
    assert_eq!(starts[2], ("c".to_string(), "urn:x".to_string()));
    assert_eq!(starts[3], ("b".to_string(), "".to_string()));
    assert_eq!(starts[4], ("d".to_string(), "".to_string()));
    // the prefix declared on the empty element `d` is out of scope for `q:e`
    assert_eq!(starts[5].0, "error");
}
