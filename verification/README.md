# xml_oxide

A streaming XML 1.0 pull parser with namespace support, written in Verus:
the grammar, the parser's state machine, namespace resolution and the
conversion of each piece of the document into an event carry contracts that
Verus proves.

## Layout

- `src/sax/scan.rs`: streaming byte scanners (tags, characters, runs of a
  character class) that answer a match, a mismatch at a position, or "the
  data ends too early".
- `src/sax/chars.rs`: UTF-8 decoding of single characters and the character
  classes of XML 1.0 and of Namespaces in XML.
- `src/sax/internal.rs`, `src/sax/dtd.rs`: the XML grammar (content, prolog,
  comments, CDATA, processing instructions, QNames, the document type
  declaration) as scanners, each with a spec function it equals.
- `src/sax/parser.rs`: the pull parser. It is handed the document in pieces
  (`read_data`) and hands out one event per `read_event`; `spec_read_event`
  says what each call returns and how the parser changes, and the laws
  (`law_*`) state what holds across calls.
- `src/sax/mod.rs`: the events.
- `src/parser3.rs`, `src/parser3/grammar.rs`: the older pull parser,
  `OxideParser`, with the grammar pieces it does not share (a document type
  declaration that is only skipped, content without processing
  instructions).
- `src/parser.rs`, `src/parsertidy.rs`: the XML grammar held as named rules,
  a run of a rule over characters (`parse_with_rule`), and the rewriting of
  the rules into alternatives and sequences.
- `src/tree.rs`: matching the rules one character at a time over a tree of
  rule nodes held in an `indextree` arena (`new_char`).
- `app/`: the parsers over any `std::io::Read`, the error type with
  `std::error::Error`, and the printing of a grammar.

## Use

```rust
use xml_oxide::sax::parser::{Error, Parser};
use xml_oxide::sax::Event;

let mut p = Parser::new();
p.read_data(b"<root a='1'>text</root>");
loop {
    match p.read_event() {
        Ok(Event::EndDocument) => break,
        Ok(event) => println!("{:?}", event),
        Err(Error::UnexpectedEof) => break, // hand it more data, or stop
        Err(e) => panic!("{:?}", e),
    }
}
```
