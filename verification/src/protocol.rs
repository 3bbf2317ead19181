//! A protocol description in memory: protocols, their interfaces, the
//! requests, events and enumerations of each interface.

use crate::text::same_text;
use crate::wire::Family;
use vstd::prelude::*;

verus! {

/// The direction of a message.
#[derive(Clone, Copy, Debug, PartialEq, Eq, Structural)]
pub enum MessageKind {
    /// From the client to the server.
    Request,
    /// From the server to the client.
    Event,
}

impl MessageKind {
    /// The word for the direction, as the names of message types end in it.
    pub open spec fn spec_name(self) -> Seq<char> {
        match self {
            MessageKind::Request => "Request"@,
            MessageKind::Event => "Event"@,
        }
    }

    /// The word for the direction, as the names of message types end in it.
    pub fn name(self) -> (name: &'static str)
        ensures
            name@ == self.spec_name(),
    {
        match self {
            MessageKind::Request => "Request",
            MessageKind::Event => "Event",
        }
    }
}

/// Which side of a wide-family connection a message is meant for.
#[derive(Clone, Copy, Debug, PartialEq, Eq, Structural)]
pub enum ContextType {
    Receiver,
    Sender,
}

impl ContextType {
    /// The side that a word names.
    pub open spec fn of(word: Seq<char>) -> Option<ContextType> {
        if word == "sender"@ {
            Some(ContextType::Sender)
        } else if word == "receiver"@ {
            Some(ContextType::Receiver)
        } else {
            None
        }
    }

    /// The side that a word names: `sender` or `receiver`.
    pub fn from_str(word: &str) -> (side: Option<ContextType>)
        ensures
            side == ContextType::of(word@),
    {
        if same_text(word, "sender") {
            Some(ContextType::Sender)
        } else if same_text(word, "receiver") {
            Some(ContextType::Receiver)
        } else {
            None
        }
    }
}

impl Default for ContextType {
    fn default() -> (side: ContextType)
        ensures
            side == ContextType::Receiver,
    {
        ContextType::Receiver
    }
}

/// The kind of an argument.
#[derive(Clone, Copy, Debug, PartialEq, Eq, Structural)]
pub enum ArgKind {
    /// The handle of an object that the message creates.
    NewId,
    Int32,
    Uint32,
    /// Wide family only.
    Int64,
    /// Wide family only.
    Uint64,
    /// A fractional number: fixed-point in the narrow family, an IEEE 754
    /// single in the wide one.
    Float,
    String,
    /// The handle of an object that exists.
    ObjectId,
    Array,
    /// A file descriptor.
    Fd,
}

impl ArgKind {
    /// The kind that a word names in a family's descriptions.
    pub open spec fn of(family: Family, word: Seq<char>) -> Option<ArgKind> {
        if word == "new_id"@ {
            Some(ArgKind::NewId)
        } else if word == "string"@ {
            Some(ArgKind::String)
        } else if word == "array"@ {
            Some(ArgKind::Array)
        } else if word == "fd"@ {
            Some(ArgKind::Fd)
        } else {
            match family {
                Family::Narrow => if word == "int"@ {
                    Some(ArgKind::Int32)
                } else if word == "uint"@ {
                    Some(ArgKind::Uint32)
                } else if word == "fixed"@ {
                    Some(ArgKind::Float)
                } else if word == "object"@ {
                    Some(ArgKind::ObjectId)
                } else {
                    None
                },
                Family::Wide => if word == "int32"@ {
                    Some(ArgKind::Int32)
                } else if word == "uint32"@ {
                    Some(ArgKind::Uint32)
                } else if word == "int64"@ {
                    Some(ArgKind::Int64)
                } else if word == "uint64"@ {
                    Some(ArgKind::Uint64)
                } else if word == "float"@ {
                    Some(ArgKind::Float)
                } else if word == "object_id"@ {
                    Some(ArgKind::ObjectId)
                } else {
                    None
                },
            }
        }
    }

    /// The kind that a word names in a family's descriptions. The narrow
    /// family writes `int`, `uint`, `fixed` and `object`; the wide one writes
    /// `int32`, `uint32`, `int64`, `uint64`, `float` and `object_id`; both
    /// write `new_id`, `string`, `array` and `fd`.
    pub fn from_str(family: Family, word: &str) -> (kind: Option<ArgKind>)
        ensures
            kind == ArgKind::of(family, word@),
    {
        if same_text(word, "new_id") {
            Some(ArgKind::NewId)
        } else if same_text(word, "string") {
            Some(ArgKind::String)
        } else if same_text(word, "array") {
            Some(ArgKind::Array)
        } else if same_text(word, "fd") {
            Some(ArgKind::Fd)
        } else {
            match family {
                Family::Narrow => if same_text(word, "int") {
                    Some(ArgKind::Int32)
                } else if same_text(word, "uint") {
                    Some(ArgKind::Uint32)
                } else if same_text(word, "fixed") {
                    Some(ArgKind::Float)
                } else if same_text(word, "object") {
                    Some(ArgKind::ObjectId)
                } else {
                    None
                },
                Family::Wide => if same_text(word, "int32") {
                    Some(ArgKind::Int32)
                } else if same_text(word, "uint32") {
                    Some(ArgKind::Uint32)
                } else if same_text(word, "int64") {
                    Some(ArgKind::Int64)
                } else if same_text(word, "uint64") {
                    Some(ArgKind::Uint64)
                } else if same_text(word, "float") {
                    Some(ArgKind::Float)
                } else if same_text(word, "object_id") {
                    Some(ArgKind::ObjectId)
                } else {
                    None
                },
            }
        }
    }
}

impl Default for ArgKind {
    fn default() -> (kind: ArgKind)
        ensures
            kind == ArgKind::NewId,
    {
        ArgKind::NewId
    }
}

/// A description: one line and a body.
#[derive(Clone, Debug, PartialEq, Eq)]
pub struct Description {
    pub summary: String,
    pub body: String,
}

/// A description as a value.
pub struct DescriptionView {
    pub summary: Seq<char>,
    pub body: Seq<char>,
}

impl DeepView for Description {
    type V = DescriptionView;

    open spec fn deep_view(&self) -> DescriptionView {
        DescriptionView { summary: self.summary@, body: self.body@ }
    }
}

/// One named value of an enumeration.
#[derive(Clone, Debug, PartialEq, Eq)]
pub struct Entry {
    pub name: String,
    pub value: u32,
    pub summary: Option<String>,
    /// The first version of the interface that has the entry.
    pub since: u32,
    pub description: Option<Description>,
}

/// An entry as a value.
pub struct EntryView {
    pub name: Seq<char>,
    pub value: u32,
    pub summary: Option<Seq<char>>,
    pub since: u32,
    pub description: Option<DescriptionView>,
}

impl DeepView for Entry {
    type V = EntryView;

    open spec fn deep_view(&self) -> EntryView {
        EntryView {
            name: self.name@,
            value: self.value,
            summary: self.summary.deep_view(),
            since: self.since,
            description: self.description.deep_view(),
        }
    }
}

/// An enumeration of an interface.
#[derive(Clone, Debug, PartialEq, Eq)]
pub struct Enum {
    pub name: String,
    /// The first version of the interface that has the enumeration.
    pub since: u32,
    /// Whether the values are bits to be combined.
    pub bitfield: bool,
    pub description: Option<Description>,
    pub entries: Vec<Entry>,
}

/// An enumeration as a value.
pub struct EnumView {
    pub name: Seq<char>,
    pub since: u32,
    pub bitfield: bool,
    pub description: Option<DescriptionView>,
    pub entries: Seq<EntryView>,
}

impl DeepView for Enum {
    type V = EnumView;

    open spec fn deep_view(&self) -> EnumView {
        EnumView {
            name: self.name@,
            since: self.since,
            bitfield: self.bitfield,
            description: self.description.deep_view(),
            entries: self.entries.deep_view(),
        }
    }
}

/// One argument of a message.
#[derive(Clone, Debug, PartialEq, Eq)]
pub struct Arg {
    pub name: String,
    pub kind: ArgKind,
    pub summary: Option<String>,
    /// For a handle, the interface of the object, where the description
    /// names it.
    pub interface: Option<String>,
    /// Whether a string may be the null string.
    pub allow_null: bool,
    pub enumeration: Option<String>,
    pub description: Option<Description>,
}

/// An argument as a value.
pub struct ArgView {
    pub name: Seq<char>,
    pub kind: ArgKind,
    pub summary: Option<Seq<char>>,
    pub interface: Option<Seq<char>>,
    pub allow_null: bool,
    pub enumeration: Option<Seq<char>>,
    pub description: Option<DescriptionView>,
}

impl DeepView for Arg {
    type V = ArgView;

    open spec fn deep_view(&self) -> ArgView {
        ArgView {
            name: self.name@,
            kind: self.kind,
            summary: self.summary.deep_view(),
            interface: self.interface.deep_view(),
            allow_null: self.allow_null,
            enumeration: self.enumeration.deep_view(),
            description: self.description.deep_view(),
        }
    }
}

/// A request or an event of an interface.
#[derive(Clone, Debug, PartialEq, Eq)]
pub struct Message {
    pub name: String,
    /// Whether the message destroys the object that it is for.
    pub destructor: bool,
    /// The first version of the interface that has the message.
    pub since: u32,
    pub description: Option<Description>,
    pub args: Vec<Arg>,
    pub context_type: Option<ContextType>,
}

/// A message as a value.
pub struct MessageView {
    pub name: Seq<char>,
    pub destructor: bool,
    pub since: u32,
    pub description: Option<DescriptionView>,
    pub args: Seq<ArgView>,
    pub context_type: Option<ContextType>,
}

impl DeepView for Message {
    type V = MessageView;

    open spec fn deep_view(&self) -> MessageView {
        MessageView {
            name: self.name@,
            destructor: self.destructor,
            since: self.since,
            description: self.description.deep_view(),
            args: self.args.deep_view(),
            context_type: self.context_type,
        }
    }
}

/// A named, versioned kind of object with its messages.
#[derive(Clone, Debug, PartialEq, Eq)]
pub struct Interface {
    pub name: String,
    /// As parsed, the highest version that the description declares; after
    /// resolving, the version that was settled on.
    pub version: u32,
    pub description: Option<Description>,
    pub requests: Vec<Message>,
    pub events: Vec<Message>,
    pub enums: Vec<Enum>,
}

/// An interface as a value.
pub struct InterfaceView {
    pub name: Seq<char>,
    pub version: u32,
    pub description: Option<DescriptionView>,
    pub requests: Seq<MessageView>,
    pub events: Seq<MessageView>,
    pub enums: Seq<EnumView>,
}

impl DeepView for Interface {
    type V = InterfaceView;

    open spec fn deep_view(&self) -> InterfaceView {
        InterfaceView {
            name: self.name@,
            version: self.version,
            description: self.description.deep_view(),
            requests: self.requests.deep_view(),
            events: self.events.deep_view(),
            enums: self.enums.deep_view(),
        }
    }
}

/// A protocol: a named list of interfaces.
#[derive(Clone, Debug, PartialEq, Eq)]
pub struct Protocol {
    pub name: String,
    pub copyright: String,
    pub description: Option<Description>,
    pub interfaces: Vec<Interface>,
}

/// A protocol as a value.
pub struct ProtocolView {
    pub name: Seq<char>,
    pub copyright: Seq<char>,
    pub description: Option<DescriptionView>,
    pub interfaces: Seq<InterfaceView>,
}

impl DeepView for Protocol {
    type V = ProtocolView;

    open spec fn deep_view(&self) -> ProtocolView {
        ProtocolView {
            name: self.name@,
            copyright: self.copyright@,
            description: self.description.deep_view(),
            interfaces: self.interfaces.deep_view(),
        }
    }
}

/// A copy of a text that may be missing.
pub fn copy_text(text: &Option<String>) -> (copy: Option<String>)
    ensures
        copy.deep_view() == text.deep_view(),
{
    match text {
        Some(text) => Some(text.clone()),
        None => None,
    }
}

impl Description {
    /// A copy of the description.
    pub fn copy(&self) -> (copy: Description)
        ensures
            copy.deep_view() == self.deep_view(),
    {
        Description { summary: self.summary.clone(), body: self.body.clone() }
    }
}

/// A copy of a description that may be missing.
pub fn copy_description(description: &Option<Description>) -> (copy: Option<Description>)
    ensures
        copy.deep_view() == description.deep_view(),
{
    match description {
        Some(description) => Some(description.copy()),
        None => None,
    }
}

impl Entry {
    /// A copy of the entry.
    pub fn copy(&self) -> (copy: Entry)
        ensures
            copy.deep_view() == self.deep_view(),
    {
        Entry {
            name: self.name.clone(),
            value: self.value,
            summary: copy_text(&self.summary),
            since: self.since,
            description: copy_description(&self.description),
        }
    }
}

impl Arg {
    /// A copy of the argument.
    pub fn copy(&self) -> (copy: Arg)
        ensures
            copy.deep_view() == self.deep_view(),
    {
        Arg {
            name: self.name.clone(),
            kind: self.kind,
            summary: copy_text(&self.summary),
            interface: copy_text(&self.interface),
            allow_null: self.allow_null,
            enumeration: copy_text(&self.enumeration),
            description: copy_description(&self.description),
        }
    }
}

impl Message {
    /// A copy of the message.
    pub fn copy(&self) -> (copy: Message)
        ensures
            copy.deep_view() == self.deep_view(),
    {
        let mut args: Vec<Arg> = Vec::new();
        let mut i: usize = 0;
        while i < self.args.len()
            invariant
                i <= self.args@.len(),
                args@.len() == i,
                forall|k: int| 0 <= k < i ==> args@[k].deep_view() == self.args@[k].deep_view(),
            decreases self.args@.len() - i,
        {
            args.push(self.args[i].copy());
            i += 1;
        }
        assert(args.deep_view() =~= self.args.deep_view());
        Message {
            name: self.name.clone(),
            destructor: self.destructor,
            since: self.since,
            description: copy_description(&self.description),
            args,
            context_type: self.context_type,
        }
    }
}

} // verus!
