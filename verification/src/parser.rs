//! The reading of a protocol description: a descent through the events of its
//! markup, one function for each element.

use crate::protocol::{
    Arg, ArgKind, ArgView, ContextType, Description, DescriptionView, Entry, EntryView, Enum,
    EnumView, Interface, InterfaceView, Message, MessageView, Protocol, ProtocolView,
};
use crate::text::{flag, literal, number, parse_flag, parse_literal, parse_u32, same_text};
use crate::wire::Family;
use crate::xml::{tokenize, xml_events, Attribute, AttributeView, XmlEvent, XmlEventView};
use vstd::prelude::*;
use vstd::string::StringExecFns;
use vstd::utf8::encode_utf8;

verus! {

/// The elements that a description is made of.
#[derive(Clone, Copy, Debug, PartialEq, Eq, Structural)]
pub enum Tag {
    Protocol,
    Copyright,
    Description,
    Interface,
    Request,
    Event,
    Arg,
    Enum,
    Entry,
    /// Any other name.
    Unknown,
}

/// What the next event is, as far as the descent cares.
#[derive(Clone, Copy, Debug, PartialEq, Eq, Structural)]
pub enum Token {
    /// There is no next event.
    End,
    Open(Tag),
    Close(Tag),
    Text,
    Other,
}

/// The attributes that an element cannot do without.
#[derive(Clone, Copy, Debug, PartialEq, Eq, Structural)]
pub enum Attr {
    Name,
    Version,
    Type,
    Value,
    Summary,
}

/// What is wrong at a place of a description.
#[derive(Clone, Copy, Debug, PartialEq, Eq, Structural)]
pub enum ParseErrorKind {
    /// The element lacks an attribute.
    Missing(Attr),
    /// An attribute of the element has a value that it cannot have.
    Invalid(Attr),
    /// An element stands inside the element that has no place there.
    UnexpectedOpen(Tag),
    /// Another element ends inside the element.
    UnexpectedClose(Tag),
    /// The description ends inside the element.
    UnexpectedEnd,
}

/// Why a description is not well formed: what is wrong, in which element,
/// and after how many events of the markup it was found.
#[derive(Clone, Copy, Debug, PartialEq, Eq, Structural)]
pub struct ParseError {
    /// The element that was being read.
    pub element: Tag,
    /// The number of events that were read when the fault was found.
    pub position: usize,
    pub kind: ParseErrorKind,
}

/// The element that a tag's name stands for.
pub open spec fn tag_of(name: Seq<char>) -> Tag {
    if name == "protocol"@ {
        Tag::Protocol
    } else if name == "copyright"@ {
        Tag::Copyright
    } else if name == "description"@ {
        Tag::Description
    } else if name == "interface"@ {
        Tag::Interface
    } else if name == "request"@ {
        Tag::Request
    } else if name == "event"@ {
        Tag::Event
    } else if name == "arg"@ {
        Tag::Arg
    } else if name == "enum"@ {
        Tag::Enum
    } else if name == "entry"@ {
        Tag::Entry
    } else {
        Tag::Unknown
    }
}

/// What the event at `pos` is.
pub open spec fn token_at(events: Seq<XmlEventView>, pos: int) -> Token {
    if 0 <= pos < events.len() {
        match events[pos] {
            XmlEventView::Open(name, _) => Token::Open(tag_of(name)),
            XmlEventView::Close(name) => Token::Close(tag_of(name)),
            XmlEventView::Text(_) => Token::Text,
            XmlEventView::Other => Token::Other,
        }
    } else {
        Token::End
    }
}

/// The attributes of the opening tag at `pos`; none where no opening tag is.
pub open spec fn attrs_at(events: Seq<XmlEventView>, pos: int) -> Seq<AttributeView> {
    if 0 <= pos < events.len() {
        match events[pos] {
            XmlEventView::Open(_, attrs) => attrs,
            _ => Seq::empty(),
        }
    } else {
        Seq::empty()
    }
}

/// The character data at `pos`; none where no character data is.
pub open spec fn text_at(events: Seq<XmlEventView>, pos: int) -> Seq<char> {
    if 0 <= pos < events.len() {
        match events[pos] {
            XmlEventView::Text(text) => text,
            _ => Seq::empty(),
        }
    } else {
        Seq::empty()
    }
}

/// The value of the first attribute of that name.
pub open spec fn attr_of(attrs: Seq<AttributeView>, name: Seq<char>) -> Option<Seq<char>>
    decreases attrs.len(),
{
    if attrs.len() == 0 {
        None
    } else if attrs[0].name == name {
        Some(attrs[0].value)
    } else {
        attr_of(attrs.drop_first(), name)
    }
}

/// The number that the attribute of that name stands for, or `otherwise`
/// where there is none or it is no number.
pub open spec fn number_of(attrs: Seq<AttributeView>, name: Seq<char>, otherwise: u32) -> u32 {
    match attr_of(attrs, name) {
        Some(value) => match number(encode_utf8(value), 10) {
            Some(n) => n,
            None => otherwise,
        },
        None => otherwise,
    }
}

/// The flag that the attribute of that name stands for; `false` where there
/// is none or it is no flag.
pub open spec fn flag_of(attrs: Seq<AttributeView>, name: Seq<char>) -> bool {
    match attr_of(attrs, name) {
        Some(value) => flag(value) == Some(true),
        None => false,
    }
}

/// A fault of an element at a place.
pub open spec fn fault(element: Tag, pos: int, kind: ParseErrorKind) -> ParseError {
    ParseError { element, position: pos as usize, kind }
}

/// The fault that the event at `pos` is, where it has no place in an
/// element, or where there is no event at all.
pub open spec fn stray(element: Tag, events: Seq<XmlEventView>, pos: int) -> ParseError {
    match token_at(events, pos) {
        Token::Open(tag) => fault(element, pos + 1, ParseErrorKind::UnexpectedOpen(tag)),
        Token::Close(tag) => fault(element, pos + 1, ParseErrorKind::UnexpectedClose(tag)),
        Token::End => fault(element, pos, ParseErrorKind::UnexpectedEnd),
        _ => fault(element, pos + 1, ParseErrorKind::UnexpectedEnd),
    }
}

/// The side that the attribute `context-type` names, if it names one.
pub open spec fn context_of(attrs: Seq<AttributeView>) -> Option<ContextType> {
    match attr_of(attrs, "context-type"@) {
        Some(word) => ContextType::of(word),
        None => None,
    }
}

/// The rest of a `copyright` element from `pos` on: its character data is
/// the text; it has no elements inside.
pub open spec fn copyright_rest(events: Seq<XmlEventView>, pos: int, so_far: Seq<char>) -> Result<(Seq<char>, int), ParseError>
    decreases events.len() - pos,
{
    match token_at(events, pos) {
        Token::Text => copyright_rest(events, pos + 1, so_far + text_at(events, pos)),
        Token::Other => copyright_rest(events, pos + 1, so_far),
        Token::Close(Tag::Copyright) => Ok((so_far, pos + 1)),
        _ => Err(stray(Tag::Copyright, events, pos)),
    }
}

/// A `copyright` element whose content starts at `pos`.
pub open spec fn copyright_at(events: Seq<XmlEventView>, pos: int, attrs: Seq<AttributeView>) -> Result<(Seq<char>, int), ParseError> {
    copyright_rest(events, pos, Seq::empty())
}

/// The rest of a `description` element from `pos` on: its character data is
/// the body; it ends with its closing tag and has no elements inside.
pub open spec fn description_rest(events: Seq<XmlEventView>, pos: int, so_far: DescriptionView) -> Result<(DescriptionView, int), ParseError>
    decreases events.len() - pos,
{
    match token_at(events, pos) {
        Token::Text => description_rest(
            events,
            pos + 1,
            DescriptionView { body: so_far.body + text_at(events, pos), ..so_far },
        ),
        Token::Other => description_rest(events, pos + 1, so_far),
        Token::Close(Tag::Description) => Ok((so_far, pos + 1)),
        _ => Err(stray(Tag::Description, events, pos)),
    }
}

/// A `description` element whose opening tag had the attributes `attrs` and
/// whose content starts at `pos`, with the position behind it. It needs a
/// summary.
pub open spec fn description_at(events: Seq<XmlEventView>, pos: int, attrs: Seq<AttributeView>) -> Result<(DescriptionView, int), ParseError> {
    match attr_of(attrs, "summary"@) {
        Some(summary) => description_rest(
            events,
            pos,
            DescriptionView { summary, body: Seq::empty() },
        ),
        None => Err(fault(Tag::Description, pos, ParseErrorKind::Missing(Attr::Summary))),
    }
}

/// The `description` element whose opening tag is at `pos`, with the position
/// behind it.
pub open spec fn nested_description(events: Seq<XmlEventView>, pos: int) -> Result<(DescriptionView, int), ParseError> {
    match description_at(events, pos + 1, attrs_at(events, pos)) {
        Ok((item, next)) => if pos < next <= events.len() {
            Ok((item, next))
        } else {
            Err(fault(Tag::Description, next, ParseErrorKind::UnexpectedEnd))
        },
        Err(error) => Err(error),
    }
}

/// The rest of an `entry` element from `pos` on: it may hold descriptions,
/// of which the last one counts.
pub open spec fn entry_rest(events: Seq<XmlEventView>, pos: int, so_far: EntryView) -> Result<(EntryView, int), ParseError>
    decreases events.len() - pos,
{
    match token_at(events, pos) {
        Token::Open(Tag::Description) => match nested_description(events, pos) {
            Ok((item, next)) => entry_rest(events, next, EntryView { description: Some(item), ..so_far }),
            Err(error) => Err(error),
        },
        Token::Text | Token::Other => entry_rest(events, pos + 1, so_far),
        Token::Close(Tag::Entry) => Ok((so_far, pos + 1)),
        _ => Err(stray(Tag::Entry, events, pos)),
    }
}

/// An `entry` element. It needs a name and a value, which is a number in
/// decimal or, behind `0x`, in hexadecimal; its version is 1 unless it says
/// otherwise.
pub open spec fn entry_at(events: Seq<XmlEventView>, pos: int, attrs: Seq<AttributeView>) -> Result<(EntryView, int), ParseError> {
    match attr_of(attrs, "name"@) {
        None => Err(fault(Tag::Entry, pos, ParseErrorKind::Missing(Attr::Name))),
        Some(name) => match attr_of(attrs, "value"@) {
            None => Err(fault(Tag::Entry, pos, ParseErrorKind::Missing(Attr::Value))),
            Some(value) => match literal(encode_utf8(value)) {
                None => Err(fault(Tag::Entry, pos, ParseErrorKind::Invalid(Attr::Value))),
                Some(value) => entry_rest(
                    events,
                    pos,
                    EntryView {
                        name,
                        value,
                        summary: attr_of(attrs, "summary"@),
                        since: number_of(attrs, "since"@, 1),
                        description: None,
                    },
                ),
            },
        },
    }
}

/// The `entry` element whose opening tag is at `pos`, with the position
/// behind it.
pub open spec fn nested_entry(events: Seq<XmlEventView>, pos: int) -> Result<(EntryView, int), ParseError> {
    match entry_at(events, pos + 1, attrs_at(events, pos)) {
        Ok((item, next)) => if pos < next <= events.len() {
            Ok((item, next))
        } else {
            Err(fault(Tag::Entry, next, ParseErrorKind::UnexpectedEnd))
        },
        Err(error) => Err(error),
    }
}

/// The rest of an `enum` element from `pos` on.
pub open spec fn enum_rest(events: Seq<XmlEventView>, pos: int, so_far: EnumView) -> Result<(EnumView, int), ParseError>
    decreases events.len() - pos,
{
    match token_at(events, pos) {
        Token::Open(Tag::Description) => match nested_description(events, pos) {
            Ok((item, next)) => enum_rest(events, next, EnumView { description: Some(item), ..so_far }),
            Err(error) => Err(error),
        },
        Token::Open(Tag::Entry) => match nested_entry(events, pos) {
            Ok((item, next)) => enum_rest(events, next, EnumView { entries: so_far.entries.push(item), ..so_far }),
            Err(error) => Err(error),
        },
        Token::Text | Token::Other => enum_rest(events, pos + 1, so_far),
        Token::Close(Tag::Enum) => Ok((so_far, pos + 1)),
        _ => Err(stray(Tag::Enum, events, pos)),
    }
}

/// An `enum` element. It needs a name; its version is 1 and it is no
/// bitfield unless it says otherwise.
pub open spec fn enum_at(events: Seq<XmlEventView>, pos: int, attrs: Seq<AttributeView>) -> Result<(EnumView, int), ParseError> {
    match attr_of(attrs, "name"@) {
        Some(name) => enum_rest(
            events,
            pos,
            EnumView {
                name,
                since: number_of(attrs, "since"@, 1),
                bitfield: flag_of(attrs, "bitfield"@),
                description: None,
                entries: Seq::empty(),
            },
        ),
        None => Err(fault(Tag::Enum, pos, ParseErrorKind::Missing(Attr::Name))),
    }
}

/// The rest of an `arg` element from `pos` on.
pub open spec fn arg_rest(family: Family, events: Seq<XmlEventView>, pos: int, so_far: ArgView) -> Result<(ArgView, int), ParseError>
    decreases events.len() - pos,
{
    match token_at(events, pos) {
        Token::Open(Tag::Description) => match nested_description(events, pos) {
            Ok((item, next)) => arg_rest(family, events, next, ArgView { description: Some(item), ..so_far }),
            Err(error) => Err(error),
        },
        Token::Text | Token::Other => arg_rest(family, events, pos + 1, so_far),
        Token::Close(Tag::Arg) => Ok((so_far, pos + 1)),
        _ => Err(stray(Tag::Arg, events, pos)),
    }
}

/// An `arg` element. It needs a name and a type that the family knows.
pub open spec fn arg_at(family: Family, events: Seq<XmlEventView>, pos: int, attrs: Seq<AttributeView>) -> Result<(ArgView, int), ParseError> {
    match attr_of(attrs, "name"@) {
        None => Err(fault(Tag::Arg, pos, ParseErrorKind::Missing(Attr::Name))),
        Some(name) => match attr_of(attrs, "type"@) {
            None => Err(fault(Tag::Arg, pos, ParseErrorKind::Missing(Attr::Type))),
            Some(word) => match ArgKind::of(family, word) {
                None => Err(fault(Tag::Arg, pos, ParseErrorKind::Invalid(Attr::Type))),
                Some(kind) => arg_rest(
                    family,
                    events,
                    pos,
                    ArgView {
                        name,
                        kind,
                        summary: attr_of(attrs, "summary"@),
                        interface: attr_of(attrs, "interface"@),
                        allow_null: flag_of(attrs, "allow-null"@),
                        enumeration: attr_of(attrs, "enum"@),
                        description: None,
                    },
                ),
            },
        },
    }
}

/// The `arg` element whose opening tag is at `pos`, with the position
/// behind it.
pub open spec fn nested_arg(family: Family, events: Seq<XmlEventView>, pos: int) -> Result<(ArgView, int), ParseError> {
    match arg_at(family, events, pos + 1, attrs_at(events, pos)) {
        Ok((item, next)) => if pos < next <= events.len() {
            Ok((item, next))
        } else {
            Err(fault(Tag::Arg, next, ParseErrorKind::UnexpectedEnd))
        },
        Err(error) => Err(error),
    }
}

/// The rest of a `request` or `event` element from `pos` on. Either closing
/// tag ends it.
pub open spec fn message_rest(family: Family, events: Seq<XmlEventView>, pos: int, so_far: MessageView) -> Result<(MessageView, int), ParseError>
    decreases events.len() - pos,
{
    match token_at(events, pos) {
        Token::Open(Tag::Description) => match nested_description(events, pos) {
            Ok((item, next)) => message_rest(family, events, next, MessageView { description: Some(item), ..so_far }),
            Err(error) => Err(error),
        },
        Token::Open(Tag::Arg) => match nested_arg(family, events, pos) {
            Ok((item, next)) => message_rest(family, events, next, MessageView { args: so_far.args.push(item), ..so_far }),
            Err(error) => Err(error),
        },
        Token::Text | Token::Other => message_rest(family, events, pos + 1, so_far),
        Token::Close(Tag::Request) | Token::Close(Tag::Event) => Ok((so_far, pos + 1)),
        _ => Err(stray(Tag::Request, events, pos)),
    }
}

/// A `request` or `event` element. It needs a name; it is a destructor if
/// its type says so; its version is 1 unless it says otherwise.
pub open spec fn message_at(family: Family, events: Seq<XmlEventView>, pos: int, attrs: Seq<AttributeView>) -> Result<(MessageView, int), ParseError> {
    match attr_of(attrs, "name"@) {
        Some(name) => message_rest(
            family,
            events,
            pos,
            MessageView {
                name,
                destructor: attr_of(attrs, "type"@) == Some("destructor"@),
                since: number_of(attrs, "since"@, 1),
                description: None,
                args: Seq::empty(),
                context_type: context_of(attrs),
            },
        ),
        None => Err(fault(Tag::Request, pos, ParseErrorKind::Missing(Attr::Name))),
    }
}

/// The `request` or `event` element whose opening tag is at `pos`, with the position
/// behind it.
pub open spec fn nested_message(family: Family, events: Seq<XmlEventView>, pos: int) -> Result<(MessageView, int), ParseError> {
    match message_at(family, events, pos + 1, attrs_at(events, pos)) {
        Ok((item, next)) => if pos < next <= events.len() {
            Ok((item, next))
        } else {
            Err(fault(Tag::Request, next, ParseErrorKind::UnexpectedEnd))
        },
        Err(error) => Err(error),
    }
}

/// The `enum` element whose opening tag is at `pos`, with the position
/// behind it.
pub open spec fn nested_enum(events: Seq<XmlEventView>, pos: int) -> Result<(EnumView, int), ParseError> {
    match enum_at(events, pos + 1, attrs_at(events, pos)) {
        Ok((item, next)) => if pos < next <= events.len() {
            Ok((item, next))
        } else {
            Err(fault(Tag::Enum, next, ParseErrorKind::UnexpectedEnd))
        },
        Err(error) => Err(error),
    }
}

/// The rest of an `interface` element from `pos` on.
pub open spec fn interface_rest(family: Family, events: Seq<XmlEventView>, pos: int, so_far: InterfaceView) -> Result<(InterfaceView, int), ParseError>
    decreases events.len() - pos,
{
    match token_at(events, pos) {
        Token::Open(Tag::Description) => match nested_description(events, pos) {
            Ok((item, next)) => interface_rest(family, events, next, InterfaceView { description: Some(item), ..so_far }),
            Err(error) => Err(error),
        },
        Token::Open(Tag::Request) => match nested_message(family, events, pos) {
            Ok((item, next)) => interface_rest(family, events, next, InterfaceView { requests: so_far.requests.push(item), ..so_far }),
            Err(error) => Err(error),
        },
        Token::Open(Tag::Event) => match nested_message(family, events, pos) {
            Ok((item, next)) => interface_rest(family, events, next, InterfaceView { events: so_far.events.push(item), ..so_far }),
            Err(error) => Err(error),
        },
        Token::Open(Tag::Enum) => match nested_enum(events, pos) {
            Ok((item, next)) => interface_rest(family, events, next, InterfaceView { enums: so_far.enums.push(item), ..so_far }),
            Err(error) => Err(error),
        },
        Token::Text | Token::Other => interface_rest(family, events, pos + 1, so_far),
        Token::Close(Tag::Interface) => Ok((so_far, pos + 1)),
        _ => Err(stray(Tag::Interface, events, pos)),
    }
}

/// An `interface` element. It needs a name and a version.
pub open spec fn interface_at(family: Family, events: Seq<XmlEventView>, pos: int, attrs: Seq<AttributeView>) -> Result<(InterfaceView, int), ParseError> {
    match attr_of(attrs, "name"@) {
        None => Err(fault(Tag::Interface, pos, ParseErrorKind::Missing(Attr::Name))),
        Some(name) => match attr_of(attrs, "version"@) {
            None => Err(fault(Tag::Interface, pos, ParseErrorKind::Missing(Attr::Version))),
            Some(version) => match number(encode_utf8(version), 10) {
                None => Err(fault(Tag::Interface, pos, ParseErrorKind::Invalid(Attr::Version))),
                Some(version) => interface_rest(
                    family,
                    events,
                    pos,
                    InterfaceView {
                        name,
                        version,
                        description: None,
                        requests: Seq::empty(),
                        events: Seq::empty(),
                        enums: Seq::empty(),
                    },
                ),
            },
        },
    }
}

/// The `copyright` element whose opening tag is at `pos`, with the position
/// behind it.
pub open spec fn nested_copyright(events: Seq<XmlEventView>, pos: int) -> Result<(Seq<char>, int), ParseError> {
    match copyright_at(events, pos + 1, attrs_at(events, pos)) {
        Ok((item, next)) => if pos < next <= events.len() {
            Ok((item, next))
        } else {
            Err(fault(Tag::Copyright, next, ParseErrorKind::UnexpectedEnd))
        },
        Err(error) => Err(error),
    }
}

/// The `interface` element whose opening tag is at `pos`, with the position
/// behind it.
pub open spec fn nested_interface(family: Family, events: Seq<XmlEventView>, pos: int) -> Result<(InterfaceView, int), ParseError> {
    match interface_at(family, events, pos + 1, attrs_at(events, pos)) {
        Ok((item, next)) => if pos < next <= events.len() {
            Ok((item, next))
        } else {
            Err(fault(Tag::Interface, next, ParseErrorKind::UnexpectedEnd))
        },
        Err(error) => Err(error),
    }
}

/// The rest of a `protocol` element from `pos` on.
pub open spec fn protocol_rest(family: Family, events: Seq<XmlEventView>, pos: int, so_far: ProtocolView) -> Result<(ProtocolView, int), ParseError>
    decreases events.len() - pos,
{
    match token_at(events, pos) {
        Token::Open(Tag::Copyright) => match nested_copyright(events, pos) {
            Ok((item, next)) => protocol_rest(family, events, next, ProtocolView { copyright: item, ..so_far }),
            Err(error) => Err(error),
        },
        Token::Open(Tag::Description) => match nested_description(events, pos) {
            Ok((item, next)) => protocol_rest(family, events, next, ProtocolView { description: Some(item), ..so_far }),
            Err(error) => Err(error),
        },
        Token::Open(Tag::Interface) => match nested_interface(family, events, pos) {
            Ok((item, next)) => protocol_rest(family, events, next, ProtocolView { interfaces: so_far.interfaces.push(item), ..so_far }),
            Err(error) => Err(error),
        },
        Token::Text | Token::Other => protocol_rest(family, events, pos + 1, so_far),
        Token::Close(Tag::Protocol) => Ok((so_far, pos + 1)),
        _ => Err(stray(Tag::Protocol, events, pos)),
    }
}

/// A `protocol` element. It needs a name.
pub open spec fn protocol_at(family: Family, events: Seq<XmlEventView>, pos: int, attrs: Seq<AttributeView>) -> Result<(ProtocolView, int), ParseError> {
    match attr_of(attrs, "name"@) {
        Some(name) => protocol_rest(
            family,
            events,
            pos,
            ProtocolView {
                name,
                copyright: Seq::empty(),
                description: None,
                interfaces: Seq::empty(),
            },
        ),
        None => Err(fault(Tag::Protocol, pos, ParseErrorKind::Missing(Attr::Name))),
    }
}

/// The protocol that the events from `pos` on describe: whatever stands
/// before the first `protocol` tag is passed over.
pub open spec fn document_at(family: Family, events: Seq<XmlEventView>, pos: int) -> Result<(ProtocolView, int), ParseError>
    decreases events.len() - pos,
{
    match token_at(events, pos) {
        Token::End => Err(stray(Tag::Protocol, events, pos)),
        Token::Open(Tag::Protocol) => protocol_at(family, events, pos + 1, attrs_at(events, pos)),
        Token::Close(Tag::Protocol) => Err(stray(Tag::Protocol, events, pos)),
        _ => document_at(family, events, pos + 1),
    }
}

/// The protocol that a list of events describes, or why the list describes
/// none.
pub open spec fn document(family: Family, events: Seq<XmlEventView>) -> Result<ProtocolView, ParseError> {
    match document_at(family, events, 0) {
        Ok((protocol, _)) => Ok(protocol),
        Err(error) => Err(error),
    }
}

/// The element that a tag's name stands for.
pub fn classify(name: &str) -> (tag: Tag)
    ensures
        tag == tag_of(name@),
{
    if same_text(name, "protocol") {
        Tag::Protocol
    } else if same_text(name, "copyright") {
        Tag::Copyright
    } else if same_text(name, "description") {
        Tag::Description
    } else if same_text(name, "interface") {
        Tag::Interface
    } else if same_text(name, "request") {
        Tag::Request
    } else if same_text(name, "event") {
        Tag::Event
    } else if same_text(name, "arg") {
        Tag::Arg
    } else if same_text(name, "enum") {
        Tag::Enum
    } else if same_text(name, "entry") {
        Tag::Entry
    } else {
        Tag::Unknown
    }
}

/// The value of the first attribute of that name.
pub fn find_attr<'a>(attrs: &'a Vec<Attribute>, name: &str) -> (value: Option<&'a String>)
    ensures
        value.deep_view() == attr_of(attrs.deep_view(), name@),
{
    let ghost all = attrs.deep_view();
    assert(all.skip(0) =~= all);
    let mut i: usize = 0;
    while i < attrs.len()
        invariant
            i <= attrs@.len(),
            all == attrs.deep_view(),
            attr_of(all, name@) == attr_of(all.skip(i as int), name@),
        decreases attrs@.len() - i,
    {
        assert(all.skip(i as int)[0] == attrs@[i as int].deep_view());
        assert(all.skip(i as int).drop_first() =~= all.skip(i + 1));
        if same_text(attrs[i].name.as_str(), name) {
            return Some(&attrs[i].value);
        }
        i += 1;
    }
    None
}

/// A reader of one protocol description: the events of its markup, a
/// position among them, and the attributes of the opening tag that was read
/// last.
pub struct ParseContext {
    family: Family,
    events: Vec<XmlEvent>,
    pos: usize,
    attrs: Option<usize>,
}

impl ParseContext {
    /// The position is among the events, and so is the tag whose attributes
    /// are at hand.
    pub closed spec fn wf(&self) -> bool {
        &&& self.pos <= self.events@.len()
        &&& match self.attrs {
            Some(i) => i < self.events@.len(),
            None => true,
        }
    }

    /// The family in whose words the description is written.
    pub closed spec fn family(&self) -> Family {
        self.family
    }

    /// All events of the description.
    pub closed spec fn events(&self) -> Seq<XmlEventView> {
        self.events.deep_view()
    }

    /// The number of events that were read.
    pub closed spec fn position(&self) -> int {
        self.pos as int
    }

    /// The attributes of the opening tag that was read last.
    pub closed spec fn attributes(&self) -> Seq<AttributeView> {
        match self.attrs {
            Some(i) => attrs_at(self.events.deep_view(), i as int),
            None => Seq::empty(),
        }
    }

    /// The reader is over the same description as `before`, and has read no
    /// less of it.
    pub open spec fn follows(&self, before: &ParseContext) -> bool {
        &&& self.wf()
        &&& self.family() == before.family()
        &&& self.events() == before.events()
        &&& self.position() >= before.position()
        &&& self.position() <= self.events().len()
    }

    /// A reader at the start of the description that `text` holds.
    pub fn new(family: Family, text: &str) -> (reader: ParseContext)
        ensures
            reader.wf(),
            reader.family() == family,
            reader.events() == xml_events(text@),
            reader.position() == 0,
            reader.attributes().len() == 0,
    {
        ParseContext { family, events: tokenize(text), pos: 0, attrs: None }
    }

    /// A reader at the start of the given events.
    pub fn from_events(family: Family, events: Vec<XmlEvent>) -> (reader: ParseContext)
        ensures
            reader.wf(),
            reader.family() == family,
            reader.events() == events.deep_view(),
            reader.position() == 0,
            reader.attributes().len() == 0,
    {
        ParseContext { family, events, pos: 0, attrs: None }
    }

    /// Reads the next event and says what it is. An opening tag's attributes
    /// are at hand from then on.
    fn step(&mut self) -> (token: Token)
        requires
            old(self).wf(),
        ensures
            final(self).follows(old(self)),
            token == token_at(old(self).events(), old(self).position()),
            token is End ==> final(self).position() == old(self).position(),
            !(token is End) ==> final(self).position() == old(self).position() + 1
                && old(self).position() < old(self).events().len(),
            token is Open ==> final(self).attributes() == attrs_at(
                old(self).events(),
                old(self).position(),
            ),
            !(token is Open) ==> final(self).attributes() == old(self).attributes(),
    {
        if self.pos >= self.events.len() {
            return Token::End;
        }
        let at: usize = self.pos;
        let token = match &self.events[at] {
            XmlEvent::Open(name, _) => Token::Open(classify(name.as_str())),
            XmlEvent::Close(name) => Token::Close(classify(name.as_str())),
            XmlEvent::Text(_) => Token::Text,
            XmlEvent::Other => Token::Other,
        };
        self.pos = at + 1;
        match token {
            Token::Open(_) => {
                self.attrs = Some(at);
            },
            _ => {},
        }
        token
    }

    /// The character data of the event that was read last.
    fn last_text(&self) -> (text: &str)
        requires
            self.wf(),
            self.position() > 0,
        ensures
            text@ == text_at(self.events(), self.position() - 1),
    {
        proof {
            reveal_strlit("");
        }
        match &self.events[self.pos - 1] {
            XmlEvent::Text(text) => text.as_str(),
            _ => "",
        }
    }

    /// Reads the next event, if there is one. An opening tag's attributes are
    /// at hand from then on.
    pub fn next(&mut self) -> (event: Option<XmlEvent>)
        requires
            old(self).wf(),
        ensures
            final(self).follows(old(self)),
            old(self).position() < old(self).events().len() ==> event.deep_view() == Some(
                old(self).events()[old(self).position()],
            ) && final(self).position() == old(self).position() + 1,
            old(self).position() >= old(self).events().len() ==> event is None && final(self).position() == old(self).position(),
    {
        match self.step() {
            Token::End => None,
            _ => Some(self.events[self.pos - 1].copy()),
        }
    }

    /// The value of the attribute of that name.
    pub fn attr(&self, name: &str) -> (value: Option<String>)
        requires
            self.wf(),
        ensures
            value.deep_view() == attr_of(self.attributes(), name@),
    {
        match self.attrs {
            None => None,
            Some(at) => match &self.events[at] {
                XmlEvent::Open(_, attrs) => match find_attr(attrs, name) {
                    Some(value) => Some(value.clone()),
                    None => None,
                },
                _ => None,
            },
        }
    }

    /// The number that the attribute of that name stands for, or `otherwise`.
    fn attr_number(&self, name: &str, otherwise: u32) -> (value: u32)
        requires
            self.wf(),
        ensures
            value == number_of(self.attributes(), name@, otherwise),
    {
        match self.attr(name) {
            Some(text) => match parse_u32(text.as_str()) {
                Some(value) => value,
                None => otherwise,
            },
            None => otherwise,
        }
    }

    /// The flag that the attribute of that name stands for, or `false`.
    fn attr_flag(&self, name: &str) -> (value: bool)
        requires
            self.wf(),
        ensures
            value == flag_of(self.attributes(), name@),
    {
        match self.attr(name) {
            Some(text) => match parse_flag(text.as_str()) {
                Some(value) => value,
                None => false,
            },
            None => false,
        }
    }

    /// The side that the attribute `context-type` names, if it names one.
    fn attr_context(&self) -> (side: Option<ContextType>)
        requires
            self.wf(),
        ensures
            side == context_of(self.attributes()),
    {
        match self.attr("context-type") {
            Some(word) => ContextType::from_str(word.as_str()),
            None => None,
        }
    }

    /// A fault of an element at the place of the reader.
    fn fault(&self, element: Tag, kind: ParseErrorKind) -> (error: ParseError)
        ensures
            error == fault(element, self.position(), kind),
    {
        ParseError { element, position: self.pos, kind }
    }

    /// The fault that the event just read is, where it has no place in an
    /// element.
    fn stray(&self, element: Tag, token: Token, Ghost(at): Ghost<int>) -> (error: ParseError)
        requires
            self.wf(),
            token == token_at(self.events(), at),
            self.position() == if token is End {
                at
            } else {
                at + 1
            },
        ensures
            error == stray(element, self.events(), at),
    {
        let kind: ParseErrorKind = match token {
            Token::Open(tag) => ParseErrorKind::UnexpectedOpen(tag),
            Token::Close(tag) => ParseErrorKind::UnexpectedClose(tag),
            _ => ParseErrorKind::UnexpectedEnd,
        };
        ParseError { element, position: self.pos, kind }
    }

    /// Reads a `copyright` element whose opening tag was just read.
    pub fn copyright(&mut self) -> (result: Result<String, ParseError>)
        requires
            old(self).wf(),
        ensures
            final(self).follows(old(self)),
            match copyright_at(old(self).events(), old(self).position(), old(self).attributes()) {
                Ok((item, next)) => result is Ok && result.unwrap().deep_view() == item && final(self).position() == next,
                Err(error) => result == Err::<String, ParseError>(error),
            },
    {
        let ghost goal = copyright_rest(self.events(), self.position(), Seq::empty());
        let mut body: String = String::new();
        loop
            invariant
                self.follows(old(self)),
                goal == copyright_rest(old(self).events(), old(self).position(), Seq::empty()),
                goal == copyright_rest(self.events(), self.position(), body@),
            decreases self.events().len() - self.position(),
        {
            let ghost at = self.position();
            let token: Token = self.step();
            match token {
                Token::Text => {
                    body.append(self.last_text());
                },
                Token::Other => {},
                Token::Close(Tag::Copyright) => {
                    return Ok(body);
                },
                _ => {
                    return Err(self.stray(Tag::Copyright, token, Ghost(at)));
                },
            }
        }
    }

    /// Reads a `description` element whose opening tag was just read.
    pub fn description(&mut self) -> (result: Result<Description, ParseError>)
        requires
            old(self).wf(),
        ensures
            final(self).follows(old(self)),
            match description_at(
                old(self).events(),
                old(self).position(),
                old(self).attributes(),
            ) {
                Ok((item, next)) => result is Ok && result.unwrap().deep_view() == item && final(self).position() == next,
                Err(error) => result == Err::<Description, ParseError>(error),
            },
    {
        let ghost goal = description_at(self.events(), self.position(), self.attributes());
        let summary: String = match self.attr("summary") {
            Some(summary) => summary,
            None => {
                return Err(self.fault(Tag::Description, ParseErrorKind::Missing(Attr::Summary)));
            },
        };
        let mut body: String = String::new();
        loop
            invariant
                self.follows(old(self)),
                goal == description_at(
                    old(self).events(),
                    old(self).position(),
                    old(self).attributes(),
                ),
                goal == description_rest(
                    self.events(),
                    self.position(),
                    DescriptionView { summary: summary@, body: body@ },
                ),
            decreases self.events().len() - self.position(),
        {
            let ghost at = self.position();
            let token: Token = self.step();
            match token {
                Token::Text => {
                    body.append(self.last_text());
                },
                Token::Other => {},
                Token::Close(Tag::Description) => {
                    return Ok(Description { summary, body });
                },
                _ => {
                    return Err(self.stray(Tag::Description, token, Ghost(at)));
                },
            }
        }
    }

    /// Reads the `description` element whose opening tag, at `at`, was just read.
    fn nested_description(&mut self, Ghost(at): Ghost<int>) -> (result: Result<Description, ParseError>)
        requires
            old(self).wf(),
            old(self).position() == at + 1,
            old(self).attributes() == attrs_at(old(self).events(), at),
        ensures
            final(self).follows(old(self)),
            match nested_description(old(self).events(), at) {
                Ok((item, next)) => result is Ok && result.unwrap().deep_view() == item && final(self).position() == next,
                Err(error) => result == Err::<Description, ParseError>(error),
            },
    {
        self.description()
    }

    /// Reads an `entry` element whose opening tag was just read.
    pub fn entry(&mut self) -> (result: Result<Entry, ParseError>)
        requires
            old(self).wf(),
        ensures
            final(self).follows(old(self)),
            match entry_at(
                old(self).events(),
                old(self).position(),
                old(self).attributes(),
            ) {
                Ok((item, next)) => result is Ok && result.unwrap().deep_view() == item && final(self).position() == next,
                Err(error) => result == Err::<Entry, ParseError>(error),
            },
    {
        let ghost goal = entry_at(self.events(), self.position(), self.attributes());
        let name: String = match self.attr("name") {
            Some(name) => name,
            None => {
                return Err(self.fault(Tag::Entry, ParseErrorKind::Missing(Attr::Name)));
            },
        };
        let value: u32 = match self.attr("value") {
            Some(text) => match parse_literal(text.as_str()) {
                Some(value) => value,
                None => {
                    return Err(self.fault(Tag::Entry, ParseErrorKind::Invalid(Attr::Value)));
                },
            },
            None => {
                return Err(self.fault(Tag::Entry, ParseErrorKind::Missing(Attr::Value)));
            },
        };
        let summary: Option<String> = self.attr("summary");
        let since: u32 = self.attr_number("since", 1);
        let mut description: Option<Description> = None;
        loop
            invariant
                self.follows(old(self)),
                goal == entry_at(
                    old(self).events(),
                    old(self).position(),
                    old(self).attributes(),
                ),
                goal == entry_rest(
                    self.events(),
                    self.position(),
                    EntryView {
                        name: name@,
                        value,
                        summary: summary.deep_view(),
                        since,
                        description: description.deep_view(),
                    },
                ),
            decreases self.events().len() - self.position(),
        {
            let ghost at = self.position();
            let token: Token = self.step();
            match token {
                Token::Open(Tag::Description) => match self.nested_description(Ghost(at)) {
                    Ok(item) => {
                        description = Some(item);
                    },
                    Err(error) => {
                        return Err(error);
                    },
                },
                Token::Text | Token::Other => {},
                Token::Close(Tag::Entry) => {
                    return Ok(Entry { name, value, summary, since, description });
                },
                _ => {
                    return Err(self.stray(Tag::Entry, token, Ghost(at)));
                },
            }
        }
    }

    /// Reads the `entry` element whose opening tag, at `at`, was just read.
    fn nested_entry(&mut self, Ghost(at): Ghost<int>) -> (result: Result<Entry, ParseError>)
        requires
            old(self).wf(),
            old(self).position() == at + 1,
            old(self).attributes() == attrs_at(old(self).events(), at),
        ensures
            final(self).follows(old(self)),
            match nested_entry(old(self).events(), at) {
                Ok((item, next)) => result is Ok && result.unwrap().deep_view() == item && final(self).position() == next,
                Err(error) => result == Err::<Entry, ParseError>(error),
            },
    {
        self.entry()
    }

    /// Reads an `enum` element whose opening tag was just read.
    pub fn enumeration(&mut self) -> (result: Result<Enum, ParseError>)
        requires
            old(self).wf(),
        ensures
            final(self).follows(old(self)),
            match enum_at(
                old(self).events(),
                old(self).position(),
                old(self).attributes(),
            ) {
                Ok((item, next)) => result is Ok && result.unwrap().deep_view() == item && final(self).position() == next,
                Err(error) => result == Err::<Enum, ParseError>(error),
            },
    {
        let ghost goal = enum_at(self.events(), self.position(), self.attributes());
        let name: String = match self.attr("name") {
            Some(name) => name,
            None => {
                return Err(self.fault(Tag::Enum, ParseErrorKind::Missing(Attr::Name)));
            },
        };
        let since: u32 = self.attr_number("since", 1);
        let bitfield: bool = self.attr_flag("bitfield");
        let mut description: Option<Description> = None;
        let mut entries: Vec<Entry> = Vec::new();
        assert(entries.deep_view() =~= Seq::<EntryView>::empty());
        loop
            invariant
                self.follows(old(self)),
                goal == enum_at(
                    old(self).events(),
                    old(self).position(),
                    old(self).attributes(),
                ),
                goal == enum_rest(
                    self.events(),
                    self.position(),
                    EnumView {
                        name: name@,
                        since,
                        bitfield,
                        description: description.deep_view(),
                        entries: entries.deep_view(),
                    },
                ),
            decreases self.events().len() - self.position(),
        {
            let ghost at = self.position();
            let token: Token = self.step();
            match token {
                Token::Open(Tag::Description) => match self.nested_description(Ghost(at)) {
                    Ok(item) => {
                        description = Some(item);
                    },
                    Err(error) => {
                        return Err(error);
                    },
                },
                Token::Open(Tag::Entry) => match self.nested_entry(Ghost(at)) {
                    Ok(item) => {
                        let ghost before = entries.deep_view();
                        let ghost added = item.deep_view();
                        entries.push(item);
                        assert(entries.deep_view() =~= before.push(added));
                    },
                    Err(error) => {
                        return Err(error);
                    },
                },
                Token::Text | Token::Other => {},
                Token::Close(Tag::Enum) => {
                    return Ok(Enum { name, since, bitfield, description, entries });
                },
                _ => {
                    return Err(self.stray(Tag::Enum, token, Ghost(at)));
                },
            }
        }
    }

    /// Reads an `arg` element whose opening tag was just read.
    pub fn arg(&mut self) -> (result: Result<Arg, ParseError>)
        requires
            old(self).wf(),
        ensures
            final(self).follows(old(self)),
            match arg_at(
                old(self).family(),
                old(self).events(),
                old(self).position(),
                old(self).attributes(),
            ) {
                Ok((item, next)) => result is Ok && result.unwrap().deep_view() == item && final(self).position() == next,
                Err(error) => result == Err::<Arg, ParseError>(error),
            },
    {
        let ghost goal = arg_at(self.family(), self.events(), self.position(), self.attributes());
        let name: String = match self.attr("name") {
            Some(name) => name,
            None => {
                return Err(self.fault(Tag::Arg, ParseErrorKind::Missing(Attr::Name)));
            },
        };
        let kind: ArgKind = match self.attr("type") {
            Some(word) => match ArgKind::from_str(self.family, word.as_str()) {
                Some(kind) => kind,
                None => {
                    return Err(self.fault(Tag::Arg, ParseErrorKind::Invalid(Attr::Type)));
                },
            },
            None => {
                return Err(self.fault(Tag::Arg, ParseErrorKind::Missing(Attr::Type)));
            },
        };
        let summary: Option<String> = self.attr("summary");
        let interface: Option<String> = self.attr("interface");
        let allow_null: bool = self.attr_flag("allow-null");
        let enumeration: Option<String> = self.attr("enum");
        let mut description: Option<Description> = None;
        loop
            invariant
                self.follows(old(self)),
                goal == arg_at(
                    old(self).family(),
                    old(self).events(),
                    old(self).position(),
                    old(self).attributes(),
                ),
                goal == arg_rest(
                    self.family(),
                    self.events(),
                    self.position(),
                    ArgView {
                        name: name@,
                        kind,
                        summary: summary.deep_view(),
                        interface: interface.deep_view(),
                        allow_null,
                        enumeration: enumeration.deep_view(),
                        description: description.deep_view(),
                    },
                ),
            decreases self.events().len() - self.position(),
        {
            let ghost at = self.position();
            let token: Token = self.step();
            match token {
                Token::Open(Tag::Description) => match self.nested_description(Ghost(at)) {
                    Ok(item) => {
                        description = Some(item);
                    },
                    Err(error) => {
                        return Err(error);
                    },
                },
                Token::Text | Token::Other => {},
                Token::Close(Tag::Arg) => {
                    return Ok(Arg { name, kind, summary, interface, allow_null, enumeration, description });
                },
                _ => {
                    return Err(self.stray(Tag::Arg, token, Ghost(at)));
                },
            }
        }
    }

    /// Reads the `arg` element whose opening tag, at `at`, was just read.
    fn nested_arg(&mut self, Ghost(at): Ghost<int>) -> (result: Result<Arg, ParseError>)
        requires
            old(self).wf(),
            old(self).position() == at + 1,
            old(self).attributes() == attrs_at(old(self).events(), at),
        ensures
            final(self).follows(old(self)),
            match nested_arg(old(self).family(), old(self).events(), at) {
                Ok((item, next)) => result is Ok && result.unwrap().deep_view() == item && final(self).position() == next,
                Err(error) => result == Err::<Arg, ParseError>(error),
            },
    {
        self.arg()
    }

    /// Reads a `request` or `event` element whose opening tag was just read.
    pub fn message(&mut self) -> (result: Result<Message, ParseError>)
        requires
            old(self).wf(),
        ensures
            final(self).follows(old(self)),
            match message_at(
                old(self).family(),
                old(self).events(),
                old(self).position(),
                old(self).attributes(),
            ) {
                Ok((item, next)) => result is Ok && result.unwrap().deep_view() == item && final(self).position() == next,
                Err(error) => result == Err::<Message, ParseError>(error),
            },
    {
        let ghost goal = message_at(self.family(), self.events(), self.position(), self.attributes());
        let name: String = match self.attr("name") {
            Some(name) => name,
            None => {
                return Err(self.fault(Tag::Request, ParseErrorKind::Missing(Attr::Name)));
            },
        };
        let destructor: bool = match self.attr("type") {
            Some(word) => same_text(word.as_str(), "destructor"),
            None => false,
        };
        let since: u32 = self.attr_number("since", 1);
        let context_type: Option<ContextType> = self.attr_context();
        let mut description: Option<Description> = None;
        let mut args: Vec<Arg> = Vec::new();
        assert(args.deep_view() =~= Seq::<ArgView>::empty());
        loop
            invariant
                self.follows(old(self)),
                goal == message_at(
                    old(self).family(),
                    old(self).events(),
                    old(self).position(),
                    old(self).attributes(),
                ),
                goal == message_rest(
                    self.family(),
                    self.events(),
                    self.position(),
                    MessageView {
                        name: name@,
                        destructor,
                        since,
                        description: description.deep_view(),
                        args: args.deep_view(),
                        context_type,
                    },
                ),
            decreases self.events().len() - self.position(),
        {
            let ghost at = self.position();
            let token: Token = self.step();
            match token {
                Token::Open(Tag::Description) => match self.nested_description(Ghost(at)) {
                    Ok(item) => {
                        description = Some(item);
                    },
                    Err(error) => {
                        return Err(error);
                    },
                },
                Token::Open(Tag::Arg) => match self.nested_arg(Ghost(at)) {
                    Ok(item) => {
                        let ghost before = args.deep_view();
                        let ghost added = item.deep_view();
                        args.push(item);
                        assert(args.deep_view() =~= before.push(added));
                    },
                    Err(error) => {
                        return Err(error);
                    },
                },
                Token::Text | Token::Other => {},
                Token::Close(Tag::Request) | Token::Close(Tag::Event) => {
                    return Ok(Message { name, destructor, since, description, args, context_type });
                },
                _ => {
                    return Err(self.stray(Tag::Request, token, Ghost(at)));
                },
            }
        }
    }

    /// Reads the `request` or `event` element whose opening tag, at `at`, was just read.
    fn nested_message(&mut self, Ghost(at): Ghost<int>) -> (result: Result<Message, ParseError>)
        requires
            old(self).wf(),
            old(self).position() == at + 1,
            old(self).attributes() == attrs_at(old(self).events(), at),
        ensures
            final(self).follows(old(self)),
            match nested_message(old(self).family(), old(self).events(), at) {
                Ok((item, next)) => result is Ok && result.unwrap().deep_view() == item && final(self).position() == next,
                Err(error) => result == Err::<Message, ParseError>(error),
            },
    {
        self.message()
    }

    /// Reads the `enum` element whose opening tag, at `at`, was just read.
    fn nested_enum(&mut self, Ghost(at): Ghost<int>) -> (result: Result<Enum, ParseError>)
        requires
            old(self).wf(),
            old(self).position() == at + 1,
            old(self).attributes() == attrs_at(old(self).events(), at),
        ensures
            final(self).follows(old(self)),
            match nested_enum(old(self).events(), at) {
                Ok((item, next)) => result is Ok && result.unwrap().deep_view() == item && final(self).position() == next,
                Err(error) => result == Err::<Enum, ParseError>(error),
            },
    {
        self.enumeration()
    }

    /// Reads an `interface` element whose opening tag was just read.
    pub fn interface(&mut self) -> (result: Result<Interface, ParseError>)
        requires
            old(self).wf(),
        ensures
            final(self).follows(old(self)),
            match interface_at(
                old(self).family(),
                old(self).events(),
                old(self).position(),
                old(self).attributes(),
            ) {
                Ok((item, next)) => result is Ok && result.unwrap().deep_view() == item && final(self).position() == next,
                Err(error) => result == Err::<Interface, ParseError>(error),
            },
    {
        let ghost goal = interface_at(self.family(), self.events(), self.position(), self.attributes());
        let name: String = match self.attr("name") {
            Some(name) => name,
            None => {
                return Err(self.fault(Tag::Interface, ParseErrorKind::Missing(Attr::Name)));
            },
        };
        let version: u32 = match self.attr("version") {
            Some(text) => match parse_u32(text.as_str()) {
                Some(version) => version,
                None => {
                    return Err(self.fault(Tag::Interface, ParseErrorKind::Invalid(Attr::Version)));
                },
            },
            None => {
                return Err(self.fault(Tag::Interface, ParseErrorKind::Missing(Attr::Version)));
            },
        };
        let mut description: Option<Description> = None;
        let mut requests: Vec<Message> = Vec::new();
        let mut events: Vec<Message> = Vec::new();
        let mut enums: Vec<Enum> = Vec::new();
        assert(requests.deep_view() =~= Seq::<MessageView>::empty());
        assert(events.deep_view() =~= Seq::<MessageView>::empty());
        assert(enums.deep_view() =~= Seq::<EnumView>::empty());
        loop
            invariant
                self.follows(old(self)),
                goal == interface_at(
                    old(self).family(),
                    old(self).events(),
                    old(self).position(),
                    old(self).attributes(),
                ),
                goal == interface_rest(
                    self.family(),
                    self.events(),
                    self.position(),
                    InterfaceView {
                        name: name@,
                        version,
                        description: description.deep_view(),
                        requests: requests.deep_view(),
                        events: events.deep_view(),
                        enums: enums.deep_view(),
                    },
                ),
            decreases self.events().len() - self.position(),
        {
            let ghost at = self.position();
            let token: Token = self.step();
            match token {
                Token::Open(Tag::Description) => match self.nested_description(Ghost(at)) {
                    Ok(item) => {
                        description = Some(item);
                    },
                    Err(error) => {
                        return Err(error);
                    },
                },
                Token::Open(Tag::Request) => match self.nested_message(Ghost(at)) {
                    Ok(item) => {
                        let ghost before = requests.deep_view();
                        let ghost added = item.deep_view();
                        requests.push(item);
                        assert(requests.deep_view() =~= before.push(added));
                    },
                    Err(error) => {
                        return Err(error);
                    },
                },
                Token::Open(Tag::Event) => match self.nested_message(Ghost(at)) {
                    Ok(item) => {
                        let ghost before = events.deep_view();
                        let ghost added = item.deep_view();
                        events.push(item);
                        assert(events.deep_view() =~= before.push(added));
                    },
                    Err(error) => {
                        return Err(error);
                    },
                },
                Token::Open(Tag::Enum) => match self.nested_enum(Ghost(at)) {
                    Ok(item) => {
                        let ghost before = enums.deep_view();
                        let ghost added = item.deep_view();
                        enums.push(item);
                        assert(enums.deep_view() =~= before.push(added));
                    },
                    Err(error) => {
                        return Err(error);
                    },
                },
                Token::Text | Token::Other => {},
                Token::Close(Tag::Interface) => {
                    return Ok(Interface { name, version, description, requests, events, enums });
                },
                _ => {
                    return Err(self.stray(Tag::Interface, token, Ghost(at)));
                },
            }
        }
    }

    /// Reads the `copyright` element whose opening tag, at `at`, was just read.
    fn nested_copyright(&mut self, Ghost(at): Ghost<int>) -> (result: Result<String, ParseError>)
        requires
            old(self).wf(),
            old(self).position() == at + 1,
            old(self).attributes() == attrs_at(old(self).events(), at),
        ensures
            final(self).follows(old(self)),
            match nested_copyright(old(self).events(), at) {
                Ok((item, next)) => result is Ok && result.unwrap().deep_view() == item && final(self).position() == next,
                Err(error) => result == Err::<String, ParseError>(error),
            },
    {
        self.copyright()
    }

    /// Reads the `interface` element whose opening tag, at `at`, was just read.
    fn nested_interface(&mut self, Ghost(at): Ghost<int>) -> (result: Result<Interface, ParseError>)
        requires
            old(self).wf(),
            old(self).position() == at + 1,
            old(self).attributes() == attrs_at(old(self).events(), at),
        ensures
            final(self).follows(old(self)),
            match nested_interface(old(self).family(), old(self).events(), at) {
                Ok((item, next)) => result is Ok && result.unwrap().deep_view() == item && final(self).position() == next,
                Err(error) => result == Err::<Interface, ParseError>(error),
            },
    {
        self.interface()
    }

    /// Reads a `protocol` element whose opening tag was just read.
    pub fn protocol(&mut self) -> (result: Result<Protocol, ParseError>)
        requires
            old(self).wf(),
        ensures
            final(self).follows(old(self)),
            match protocol_at(
                old(self).family(),
                old(self).events(),
                old(self).position(),
                old(self).attributes(),
            ) {
                Ok((item, next)) => result is Ok && result.unwrap().deep_view() == item && final(self).position() == next,
                Err(error) => result == Err::<Protocol, ParseError>(error),
            },
    {
        let ghost goal = protocol_at(self.family(), self.events(), self.position(), self.attributes());
        let name: String = match self.attr("name") {
            Some(name) => name,
            None => {
                return Err(self.fault(Tag::Protocol, ParseErrorKind::Missing(Attr::Name)));
            },
        };
        let mut copyright: String = String::new();
        let mut description: Option<Description> = None;
        let mut interfaces: Vec<Interface> = Vec::new();
        assert(interfaces.deep_view() =~= Seq::<InterfaceView>::empty());
        loop
            invariant
                self.follows(old(self)),
                goal == protocol_at(
                    old(self).family(),
                    old(self).events(),
                    old(self).position(),
                    old(self).attributes(),
                ),
                goal == protocol_rest(
                    self.family(),
                    self.events(),
                    self.position(),
                    ProtocolView {
                        name: name@,
                        copyright: copyright@,
                        description: description.deep_view(),
                        interfaces: interfaces.deep_view(),
                    },
                ),
            decreases self.events().len() - self.position(),
        {
            let ghost at = self.position();
            let token: Token = self.step();
            match token {
                Token::Open(Tag::Copyright) => match self.nested_copyright(Ghost(at)) {
                    Ok(item) => {
                        copyright = item;
                    },
                    Err(error) => {
                        return Err(error);
                    },
                },
                Token::Open(Tag::Description) => match self.nested_description(Ghost(at)) {
                    Ok(item) => {
                        description = Some(item);
                    },
                    Err(error) => {
                        return Err(error);
                    },
                },
                Token::Open(Tag::Interface) => match self.nested_interface(Ghost(at)) {
                    Ok(item) => {
                        let ghost before = interfaces.deep_view();
                        let ghost added = item.deep_view();
                        interfaces.push(item);
                        assert(interfaces.deep_view() =~= before.push(added));
                    },
                    Err(error) => {
                        return Err(error);
                    },
                },
                Token::Text | Token::Other => {},
                Token::Close(Tag::Protocol) => {
                    return Ok(Protocol { name, copyright, description, interfaces });
                },
                _ => {
                    return Err(self.stray(Tag::Protocol, token, Ghost(at)));
                },
            }
        }
    }

    /// Reads on to the first `protocol` element and reads that.
    pub fn parse(&mut self) -> (result: Result<Protocol, ParseError>)
        requires
            old(self).wf(),
        ensures
            final(self).follows(old(self)),
            match document_at(old(self).family(), old(self).events(), old(self).position()) {
                Ok((item, next)) => result is Ok && result.unwrap().deep_view() == item && final(self).position() == next,
                Err(error) => result == Err::<Protocol, ParseError>(error),
            },
    {
        loop
            invariant
                self.follows(old(self)),
                document_at(old(self).family(), old(self).events(), old(self).position())
                    == document_at(self.family(), self.events(), self.position()),
            decreases self.events().len() - self.position(),
        {
            let ghost at = self.position();
            let token: Token = self.step();
            match token {
                Token::Open(Tag::Protocol) => {
                    return self.protocol();
                },
                Token::End | Token::Close(Tag::Protocol) => {
                    return Err(self.stray(Tag::Protocol, token, Ghost(at)));
                },
                _ => {},
            }
        }
    }
}

/// The protocol that a description holds, or why the description is not well
/// formed.
pub fn parse_protocol(family: Family, text: &str) -> (result: Result<Protocol, ParseError>)
    ensures
        match document(family, xml_events(text@)) {
            Ok(protocol) => result is Ok && result.unwrap().deep_view() == protocol,
            Err(error) => result == Err::<Protocol, ParseError>(error),
        },
{
    let mut reader = ParseContext::new(family, text);
    reader.parse()
}

/// The protocol that a list of events describes, or why the list describes
/// none.
pub fn parse_events(family: Family, events: Vec<XmlEvent>) -> (result: Result<Protocol, ParseError>)
    ensures
        match document(family, events.deep_view()) {
            Ok(protocol) => result is Ok && result.unwrap().deep_view() == protocol,
            Err(error) => result == Err::<Protocol, ParseError>(error),
        },
{
    let mut reader = ParseContext::from_events(family, events);
    reader.parse()
}

} // verus!
