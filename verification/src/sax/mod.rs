//! The events a pull parser hands out, and the parser that makes them.
use vstd::prelude::*;

pub mod chars;
pub mod dtd;
pub mod internal;
pub mod parser;
pub mod scan;
pub mod text;

verus! {

/// An attribute of a start tag.
#[derive(Debug, Clone, PartialEq, Eq)]
pub struct Attribute {
    pub value: String,
    pub name: String,
    // namespace aware
    pub local_name: String,
    pub prefix: String,
    pub namespace: String,
}

/// What an attribute holds.
pub struct AttributeView {
    pub value: Seq<char>,
    pub name: Seq<char>,
    pub local_name: Seq<char>,
    pub prefix: Seq<char>,
    pub namespace: Seq<char>,
}

impl View for Attribute {
    type V = AttributeView;

    open spec fn view(&self) -> AttributeView {
        AttributeView {
            value: self.value@,
            name: self.name@,
            local_name: self.local_name@,
            prefix: self.prefix@,
            namespace: self.namespace@,
        }
    }
}

/// The attributes of a start tag, handed out one after another.
#[derive(Debug, Clone, PartialEq, Eq)]
pub struct Attributes {
    index: usize,
    list: Vec<Attribute>,
}

impl Attributes {
    /// The attributes not handed out yet.
    pub closed spec fn remaining(&self) -> Seq<AttributeView> {
        self.list@.map_values(|a: Attribute| a@).skip(self.index as int)
    }

    pub closed spec fn wf(&self) -> bool {
        self.index <= self.list.len()
    }

    /// The next attribute, or `None` when all have been handed out.
    pub fn next(&mut self) -> (r: Option<Attribute>)
        requires
            old(self).wf(),
        ensures
            final(self).wf(),
            old(self).remaining().len() == 0 ==> r is None && final(self).remaining() == old(
                self,
            ).remaining(),
            old(self).remaining().len() > 0 ==> (r matches Some(a) && a@ == old(
                self,
            ).remaining()[0] && final(self).remaining() == old(self).remaining().drop_first()),
    {
        if self.index < self.list.len() {
            let a = self.list[self.index].clone_attribute();
            self.index = self.index + 1;
            proof {
                assert(self.remaining() =~= old(self).remaining().drop_first());
            }
            Some(a)
        } else {
            None
        }
    }
}

impl Attribute {
    /// A copy of the attribute.
    pub fn clone_attribute(&self) -> (r: Attribute)
        ensures
            r@ == self@,
    {
        Attribute {
            value: self.value.clone(),
            name: self.name.clone(),
            local_name: self.local_name.clone(),
            prefix: self.prefix.clone(),
            namespace: self.namespace.clone(),
        }
    }
}

/// A copy of each attribute, in order.
fn copy_attributes(v: &Vec<Attribute>) -> (r: Vec<Attribute>)
    ensures
        r@.map_values(|a: Attribute| a@) == v@.map_values(|a: Attribute| a@),
{
    let mut r: Vec<Attribute> = Vec::new();
    let mut i: usize = 0;
    while i < v.len()
        invariant
            i <= v.len(),
            r.len() == i,
            forall|j: int| 0 <= j < i ==> #[trigger] r@[j]@ == v@[j]@,
        decreases v.len() - i,
    {
        r.push(v[i].clone_attribute());
        i = i + 1;
    }
    assert(r@.map_values(|a: Attribute| a@) =~= v@.map_values(|a: Attribute| a@));
    r
}

/// A start tag, or an empty-element tag (`is_empty`).
#[derive(Debug, Clone, PartialEq, Eq)]
pub struct StartElement {
    pub name: String,
    pub is_empty: bool,
    // namespace aware
    pub local_name: String,
    pub prefix: String,
    pub namespace: String,
    /// the attributes, in the order they were written
    pub attributes: Vec<Attribute>,
}

/// What a start tag holds.
pub struct StartElementView {
    pub name: Seq<char>,
    pub is_empty: bool,
    pub local_name: Seq<char>,
    pub prefix: Seq<char>,
    pub namespace: Seq<char>,
    pub attributes: Seq<AttributeView>,
}

impl View for StartElement {
    type V = StartElementView;

    open spec fn view(&self) -> StartElementView {
        StartElementView {
            name: self.name@,
            is_empty: self.is_empty,
            local_name: self.local_name@,
            prefix: self.prefix@,
            namespace: self.namespace@,
            attributes: self.attributes@.map_values(|a: Attribute| a@),
        }
    }
}

impl StartElement {
    /// A start tag with these parts.
    pub fn new(
        name: String,
        is_empty: bool,
        local_name: String,
        prefix: String,
        namespace: String,
        attributes: Vec<Attribute>,
    ) -> (r: StartElement)
        ensures
            r@ == (StartElementView {
                name: name@,
                is_empty,
                local_name: local_name@,
                prefix: prefix@,
                namespace: namespace@,
                attributes: attributes@.map_values(|a: Attribute| a@),
            }),
    {
        StartElement { name, is_empty, local_name, prefix, namespace, attributes }
    }

    /// The attributes of the tag, in the order they were written.
    pub fn attributes(&self) -> (r: Attributes)
        ensures
            r.wf(),
            r.remaining() == self@.attributes,
    {
        let r = Attributes { index: 0, list: copy_attributes(&self.attributes) };
        proof {
            assert(r.remaining() =~= self@.attributes);
        }
        r
    }
}

/// An end tag.
#[derive(Debug, Clone, PartialEq, Eq)]
pub struct EndElement {
    pub name: String,
    // namespace aware
    pub local_name: String,
    pub prefix: String,
    pub namespace: String,
}

/// What an end tag holds.
pub struct EndElementView {
    pub name: Seq<char>,
    pub local_name: Seq<char>,
    pub prefix: Seq<char>,
    pub namespace: Seq<char>,
}

impl View for EndElement {
    type V = EndElementView;

    open spec fn view(&self) -> EndElementView {
        EndElementView {
            name: self.name@,
            local_name: self.local_name@,
            prefix: self.prefix@,
            namespace: self.namespace@,
        }
    }
}

/// A character or entity reference as written (`raw`), and the text it
/// stands for when the parser knows it.
#[derive(Debug, Clone, PartialEq, Eq)]
pub struct Reference {
    pub raw: String,
    pub resolved: Option<String>,
}

/// What a reference holds.
pub struct ReferenceView {
    pub raw: Seq<char>,
    pub resolved: Option<Seq<char>>,
}

impl View for Reference {
    type V = ReferenceView;

    open spec fn view(&self) -> ReferenceView {
        ReferenceView {
            raw: self.raw@,
            resolved: match self.resolved {
                Some(s) => Some(s@),
                None => None,
            },
        }
    }
}

/// One event of the document.
#[derive(Debug, Clone, PartialEq, Eq)]
pub enum Event {
    StartDocument,
    EndDocument,
    StartElement(StartElement),
    EndElement(EndElement),
    Characters(String),
    Reference(Reference),
    StartComment,
    Comment(String),
    EndComment,
    StartCdataSection,
    Cdata(String),
    EndCdataSection,
    DocumentTypeDeclaration(String),
    ProcessingInstruction(String),
    XmlDeclaration(String),
    Whitespace(String),
}

/// What an event holds.
pub enum EventView {
    StartDocument,
    EndDocument,
    StartElement(StartElementView),
    EndElement(EndElementView),
    Characters(Seq<char>),
    Reference(ReferenceView),
    StartComment,
    Comment(Seq<char>),
    EndComment,
    StartCdataSection,
    Cdata(Seq<char>),
    EndCdataSection,
    DocumentTypeDeclaration(Seq<char>),
    ProcessingInstruction(Seq<char>),
    XmlDeclaration(Seq<char>),
    Whitespace(Seq<char>),
}

impl View for Event {
    type V = EventView;

    open spec fn view(&self) -> EventView {
        match self {
            Event::StartDocument => EventView::StartDocument,
            Event::EndDocument => EventView::EndDocument,
            Event::StartElement(e) => EventView::StartElement(e@),
            Event::EndElement(e) => EventView::EndElement(e@),
            Event::Characters(s) => EventView::Characters(s@),
            Event::Reference(r) => EventView::Reference(r@),
            Event::StartComment => EventView::StartComment,
            Event::Comment(s) => EventView::Comment(s@),
            Event::EndComment => EventView::EndComment,
            Event::StartCdataSection => EventView::StartCdataSection,
            Event::Cdata(s) => EventView::Cdata(s@),
            Event::EndCdataSection => EventView::EndCdataSection,
            Event::DocumentTypeDeclaration(s) => EventView::DocumentTypeDeclaration(s@),
            Event::ProcessingInstruction(s) => EventView::ProcessingInstruction(s@),
            Event::XmlDeclaration(s) => EventView::XmlDeclaration(s@),
            Event::Whitespace(s) => EventView::Whitespace(s@),
        }
    }
}

} // verus!
