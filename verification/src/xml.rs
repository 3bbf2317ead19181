//! The markup of a protocol description as a list of events. The splitting of
//! the text into events is the work of `txml`; this file states, without
//! proof, only that the events are a function of the text.

use vstd::prelude::*;

verus! {

/// One attribute of an opening tag. Entity references in the value are
/// resolved.
#[derive(Clone, Debug, PartialEq, Eq)]
pub struct Attribute {
    pub name: String,
    pub value: String,
}

/// An attribute as a value.
pub struct AttributeView {
    pub name: Seq<char>,
    pub value: Seq<char>,
}

impl DeepView for Attribute {
    type V = AttributeView;

    open spec fn deep_view(&self) -> AttributeView {
        AttributeView { name: self.name@, value: self.value@ }
    }
}

/// One event of the markup.
#[derive(Clone, Debug, PartialEq, Eq)]
pub enum XmlEvent {
    /// An opening tag with its attributes, in their order.
    Open(String, Vec<Attribute>),
    /// A closing tag; a self-closing tag gives both events.
    Close(String),
    /// Character data, with entity references resolved.
    Text(String),
    /// A comment, a processing instruction or a document type declaration.
    Other,
}

/// An event as a value.
pub enum XmlEventView {
    Open(Seq<char>, Seq<AttributeView>),
    Close(Seq<char>),
    Text(Seq<char>),
    Other,
}

impl DeepView for XmlEvent {
    type V = XmlEventView;

    open spec fn deep_view(&self) -> XmlEventView {
        match self {
            XmlEvent::Open(tag, attrs) => XmlEventView::Open(tag@, attrs.deep_view()),
            XmlEvent::Close(tag) => XmlEventView::Close(tag@),
            XmlEvent::Text(text) => XmlEventView::Text(text@),
            XmlEvent::Other => XmlEventView::Other,
        }
    }
}

/// The events that `txml` finds in a text.
pub uninterp spec fn xml_events(text: Seq<char>) -> Seq<XmlEventView>;

/// `txml::Parser`, run over the whole text, with each `txml::Event` turned
/// into an event of this library: attribute values and character data are
/// collected from `txml::Text`, which resolves the entity references. The
/// events depend on the text alone.
#[verifier::external_body]
pub(crate) fn tokenize(text: &str) -> (events: Vec<XmlEvent>)
    ensures
        events.deep_view() == xml_events(text@),
{
    let attribute = |(name, value): (&str, txml::Text)| Attribute { name: name.into(), value: value.collect() };
    let event = |event| match event {
        txml::Event::Open(tag, attrs) => XmlEvent::Open(tag.into(), attrs.map(attribute).collect()),
        txml::Event::Close(tag) => XmlEvent::Close(tag.into()),
        txml::Event::Text(text) => XmlEvent::Text(text.collect()),
        txml::Event::Doctype(..) => XmlEvent::Other,
        txml::Event::Pi(..) => XmlEvent::Other,
        txml::Event::Comment(..) => XmlEvent::Other,
    };
    txml::Parser::new(text).map(event).collect()
}

impl Attribute {
    /// A copy of the attribute.
    pub fn copy(&self) -> (copy: Attribute)
        ensures
            copy.deep_view() == self.deep_view(),
    {
        Attribute { name: self.name.clone(), value: self.value.clone() }
    }
}

impl XmlEvent {
    /// A copy of the event.
    pub fn copy(&self) -> (copy: XmlEvent)
        ensures
            copy.deep_view() == self.deep_view(),
    {
        match self {
            XmlEvent::Open(tag, attrs) => {
                let mut copies: Vec<Attribute> = Vec::new();
                let mut i: usize = 0;
                while i < attrs.len()
                    invariant
                        i <= attrs@.len(),
                        copies@.len() == i,
                        forall|k: int| 0 <= k < i ==> copies@[k].deep_view() == attrs@[k].deep_view(),
                    decreases attrs@.len() - i,
                {
                    copies.push(attrs[i].copy());
                    i += 1;
                }
                assert(copies.deep_view() =~= attrs.deep_view());
                XmlEvent::Open(tag.clone(), copies)
            },
            XmlEvent::Close(tag) => XmlEvent::Close(tag.clone()),
            XmlEvent::Text(text) => XmlEvent::Text(text.clone()),
            XmlEvent::Other => XmlEvent::Other,
        }
    }
}

} // verus!
