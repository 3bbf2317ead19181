//! The tables that the messages of the settled interfaces are written and
//! read by, made from their descriptions.

use crate::codec::{Field, FieldType, MessageEnum, Variant};
use crate::names::{
    shouty_snake_case, snake_case, to_shouty_snake_case, to_snake_case, to_upper_camel_case,
    upper_camel_case,
};
use crate::protocol::{
    copy_description, copy_text, Arg, ArgKind, ArgView, ContextType, Entry, Enum, EnumView,
    Interface, InterfaceView, Message, MessageKind, MessageView,
};
use crate::wire::Family;
use vstd::prelude::*;
use vstd::string::StringExecFns;

verus! {

/// Whether a message is meant for a side: it is, unless the side is given,
/// the message names a side, and the two differ.
pub open spec fn meant_for(side: Option<ContextType>, message: Option<ContextType>) -> bool {
    side is None || message is None || message == side
}

/// Whether a message is meant for a side.
pub fn is_meant_for(side: Option<ContextType>, message: Option<ContextType>) -> (meant: bool)
    ensures
        meant == meant_for(side, message),
{
    match (side, message) {
        (Some(side), Some(message)) => side == message,
        _ => true,
    }
}

/// Whether an argument is a string or an array: its value is borrowed.
pub open spec fn borrows(arg: ArgView) -> bool {
    arg.kind == ArgKind::String || arg.kind == ArgKind::Array
}

/// Whether a message meant for the side has a string or an array among its
/// arguments.
pub open spec fn needs_lifetime(messages: Seq<MessageView>, side: Option<ContextType>) -> bool {
    exists|m: int, a: int|
        0 <= m < messages.len() && 0 <= a < messages[m].args.len() && meant_for(
            side,
            messages[m].context_type,
        ) && borrows(#[trigger] messages[m].args[a])
}

/// Whether a message meant for the side has a string or an array among its
/// arguments, so that the type of the messages borrows.
pub fn message_type_needs_lifetime(messages: &Vec<Message>, side: Option<ContextType>) -> (needed: bool)
    ensures
        needed == needs_lifetime(messages.deep_view(), side),
{
    let ghost all = messages.deep_view();
    let mut m: usize = 0;
    while m < messages.len()
        invariant
            m <= messages@.len(),
            all == messages.deep_view(),
            forall|i: int, a: int|
                0 <= i < m && 0 <= a < all[i].args.len() ==> !(meant_for(side, all[i].context_type)
                    && borrows(#[trigger] all[i].args[a])),
        decreases messages@.len() - m,
    {
        let message: &Message = &messages[m];
        assert(all[m as int] == message.deep_view());
        if is_meant_for(side, message.context_type) {
            let mut a: usize = 0;
            while a < message.args.len()
                invariant
                    a <= message.args@.len(),
                    m < messages@.len(),
                    all == messages.deep_view(),
                    all[m as int] == message.deep_view(),
                    meant_for(side, message.context_type),
                    forall|k: int| 0 <= k < a ==> !borrows(#[trigger] all[m as int].args[k]),
                decreases message.args@.len() - a,
            {
                assert(all[m as int].args[a as int] == message.args@[a as int].deep_view());
                match message.args[a].kind {
                    ArgKind::String | ArgKind::Array => {
                        assert(borrows(all[m as int].args[a as int]));
                        return true;
                    },
                    _ => {},
                }
                a += 1;
            }
        }
        m += 1;
    }
    false
}

/// The type of the field that an argument becomes.
pub open spec fn field_type(family: Family, arg: ArgView) -> FieldType {
    match arg.kind {
        ArgKind::NewId | ArgKind::ObjectId => FieldType::Handle,
        ArgKind::Int32 => FieldType::Int32,
        ArgKind::Uint32 => FieldType::Uint32,
        ArgKind::Int64 => FieldType::Int64,
        ArgKind::Uint64 => FieldType::Uint64,
        ArgKind::Float => match family {
            Family::Narrow => FieldType::Fixed,
            Family::Wide => FieldType::Float,
        },
        ArgKind::String => if arg.allow_null {
            FieldType::OptString
        } else {
            FieldType::String
        },
        ArgKind::Array => FieldType::Array,
        ArgKind::Fd => FieldType::Fd,
    }
}

/// The type of the field that an argument becomes.
pub fn gen_arg_field_type(family: Family, arg: &Arg) -> (ty: FieldType)
    ensures
        ty == field_type(family, arg.deep_view()),
{
    match arg.kind {
        ArgKind::NewId | ArgKind::ObjectId => FieldType::Handle,
        ArgKind::Int32 => FieldType::Int32,
        ArgKind::Uint32 => FieldType::Uint32,
        ArgKind::Int64 => FieldType::Int64,
        ArgKind::Uint64 => FieldType::Uint64,
        ArgKind::Float => match family {
            Family::Narrow => FieldType::Fixed,
            Family::Wide => FieldType::Float,
        },
        ArgKind::String => if arg.allow_null {
            FieldType::OptString
        } else {
            FieldType::String
        },
        ArgKind::Array => FieldType::Array,
        ArgKind::Fd => FieldType::Fd,
    }
}

/// The name of the type of the handles of an interface, for a handle whose
/// interface is named.
pub open spec fn handle_type(family: Family, arg: ArgView) -> Option<Seq<char>> {
    match arg.interface {
        Some(interface) => if field_type(family, arg) == FieldType::Handle {
            Some(upper_camel_case(interface))
        } else {
            None
        },
        None => None,
    }
}

/// Whether a field is the one that an argument becomes: its name is the
/// argument's in snake case, its type is the argument's, and its words are
/// the argument's.
pub open spec fn field_for(family: Family, field: Field, arg: ArgView) -> bool {
    &&& field.name@ == snake_case(arg.name)
    &&& field.ty == field_type(family, arg)
    &&& field.interface.deep_view() == handle_type(family, arg)
    &&& field.summary.deep_view() == arg.summary
    &&& field.description.deep_view() == arg.description
}

/// The field that an argument becomes.
pub fn gen_message_enum_variant_field(family: Family, arg: &Arg) -> (field: Field)
    ensures
        field_for(family, field, arg.deep_view()),
{
    let ty: FieldType = gen_arg_field_type(family, arg);
    let interface: Option<String> = match (&arg.interface, ty) {
        (Some(interface), FieldType::Handle) => Some(to_upper_camel_case(interface.as_str())),
        _ => None,
    };
    Field {
        name: to_snake_case(arg.name.as_str()),
        ty,
        interface,
        summary: copy_text(&arg.summary),
        description: copy_description(&arg.description),
    }
}

/// Whether a message's table entry is the one that a message with an opcode
/// becomes: its name is the message's in upper camel case, and its fields
/// are those that the arguments become, in their order.
pub open spec fn variant_for(family: Family, variant: Variant, message: MessageView, opcode: int) -> bool {
    &&& variant.name@ == upper_camel_case(message.name)
    &&& variant.opcode == opcode
    &&& variant.description.deep_view() == message.description
    &&& variant.fields@.len() == message.args.len()
    &&& forall|i: int|
        0 <= i < message.args.len() ==> field_for(
            family,
            #[trigger] variant.fields@[i],
            message.args[i],
        )
}

/// The table entry that a message with an opcode becomes.
pub fn gen_message_enum_variant(family: Family, message: &Message, opcode: u32) -> (variant: Variant)
    ensures
        variant_for(family, variant, message.deep_view(), opcode as int),
{
    let ghost args = message.deep_view().args;
    let mut fields: Vec<Field> = Vec::new();
    let mut i: usize = 0;
    while i < message.args.len()
        invariant
            i <= message.args@.len(),
            args == message.deep_view().args,
            fields@.len() == i,
            forall|k: int| 0 <= k < i ==> field_for(family, #[trigger] fields@[k], args[k]),
        decreases message.args@.len() - i,
    {
        assert(args[i as int] == message.args@[i as int].deep_view());
        fields.push(gen_message_enum_variant_field(family, &message.args[i]));
        i += 1;
    }
    Variant {
        name: to_upper_camel_case(message.name.as_str()),
        opcode,
        fields,
        description: copy_description(&message.description),
    }
}

/// The places of the messages that are meant for a side, in their order.
pub open spec fn meant_places(messages: Seq<MessageView>, side: Option<ContextType>) -> Seq<int>
    decreases messages.len(),
{
    if messages.len() == 0 {
        Seq::empty()
    } else {
        let before = meant_places(messages.drop_last(), side);
        if meant_for(side, messages.last().context_type) {
            before.push(messages.len() - 1)
        } else {
            before
        }
    }
}

/// Whether a table is the one that the messages of an interface in one
/// direction become: it is named after the interface and the direction, and
/// it has an entry for each message that is meant for the side, in their
/// order, with the message's place among all the messages as its opcode.
pub open spec fn enum_for(family: Family, table: MessageEnum, interface: Seq<char>, messages: Seq<MessageView>, kind: MessageKind, side: Option<ContextType>) -> bool {
    let places = meant_places(messages, side);
    &&& table.name@ == upper_camel_case(interface) + kind.spec_name()
    &&& table.needs_lifetime == needs_lifetime(messages, side)
    &&& table.variants@.len() == places.len()
    &&& forall|j: int|
        0 <= j < places.len() ==> 0 <= places[j] < messages.len() && variant_for(
            family,
            #[trigger] table.variants@[j],
            messages[places[j]],
            places[j],
        )
}

/// The most messages that an interface can have in one direction: the opcode
/// of each is to fit 32 bits.
pub const MOST_MESSAGES: usize = 0xffff_ffff;

/// The table that the messages of an interface in one direction become.
pub fn gen_messages(family: Family, interface: &str, messages: &Vec<Message>, kind: MessageKind, side: Option<ContextType>) -> (table: MessageEnum)
    requires
        messages@.len() <= MOST_MESSAGES,
    ensures
        enum_for(family, table, interface@, messages.deep_view(), kind, side),
{
    let ghost all = messages.deep_view();
    let ghost mut places: Seq<int> = Seq::empty();
    let mut variants: Vec<Variant> = Vec::new();
    let mut i: usize = 0;
    assert(meant_places(all.take(0), side) =~= Seq::<int>::empty());
    while i < messages.len()
        invariant
            i <= messages@.len(),
            messages@.len() <= MOST_MESSAGES,
            all == messages.deep_view(),
            places == meant_places(all.take(i as int), side),
            variants@.len() == places.len(),
            forall|j: int|
                0 <= j < variants@.len() ==> 0 <= #[trigger] places[j] < i && variant_for(
                    family,
                    variants@[j],
                    all[places[j]],
                    places[j],
                ),
        decreases messages@.len() - i,
    {
        proof {
            assert(all.take(i + 1).drop_last() =~= all.take(i as int));
            assert(all.take(i + 1).last() == messages@[i as int].deep_view());
            assert(all[i as int] == messages@[i as int].deep_view());
        }
        if is_meant_for(side, messages[i].context_type) {
            let ghost before = variants@;
            assert forall|j: int| 0 <= j < before.len() implies 0 <= #[trigger] places[j] < i
                && variant_for(family, before[j], all[places[j]], places[j]) by {}
            let variant = gen_message_enum_variant(family, &messages[i], i as u32);
            let ghost made = variant;
            variants.push(variant);
            proof {
                let longer = places.push(i as int);
                assert(variants@[before.len() as int] == made);
                assert(variant_for(family, made, all[i as int], i as int));
                assert(meant_places(all.take(i + 1), side) == longer);
                assert forall|j: int| 0 <= j < variants@.len() implies 0 <= #[trigger] longer[j] < i
                    + 1 && variant_for(family, variants@[j], all[longer[j]], longer[j]) by {
                    if j < before.len() {
                        assert(variants@[j] == before[j]);
                        assert(longer[j] == places[j]);
                        assert(0 <= places[j] < i && variant_for(
                            family,
                            before[j],
                            all[places[j]],
                            places[j],
                        ));
                    }
                }
                places = longer;
            }
        } else {
            assert(meant_places(all.take(i + 1), side) == places);
        }
        i += 1;
    }
    assert(all.take(i as int) =~= all);
    assert forall|j: int| 0 <= j < places.len() implies 0 <= places[j] < all.len() && variant_for(
        family,
        #[trigger] variants@[j],
        all[places[j]],
        places[j],
    ) by {
        assert(0 <= places[j] < i);
    }
    MessageEnum {
        name: to_upper_camel_case(interface).concat(kind.name()),
        needs_lifetime: message_type_needs_lifetime(messages, side),
        variants,
    }
}

/// A named number that an entry of an enumeration becomes.
#[derive(Debug)]
pub struct Constant {
    pub name: String,
    pub value: u32,
    /// The first version of the interface that has the entry.
    pub since: u32,
    pub summary: Option<String>,
    pub description: Option<crate::protocol::Description>,
}

/// The named numbers that an enumeration becomes.
#[derive(Debug)]
pub struct Constants {
    /// The name that the numbers' names start with.
    pub prefix: String,
    /// The first version of the interface that has the enumeration.
    pub since: u32,
    pub description: Option<crate::protocol::Description>,
    pub entries: Vec<Constant>,
}

/// The name that the named numbers of an enumeration start with: the names
/// of the interface and of the enumeration in shouty snake case, with an
/// underscore between them.
pub open spec fn constant_prefix(interface: Seq<char>, enumeration: Seq<char>) -> Seq<char> {
    shouty_snake_case(interface) + "_"@ + shouty_snake_case(enumeration)
}

/// Whether the named numbers are those that an enumeration becomes: one for
/// each entry, in their order, named by the prefix, an underscore and the
/// entry's name in shouty snake case, with the entry's value.
pub open spec fn constants_for(constants: Constants, interface: Seq<char>, enumeration: EnumView) -> bool {
    &&& constants.prefix@ == constant_prefix(interface, enumeration.name)
    &&& constants.since == enumeration.since
    &&& constants.description.deep_view() == enumeration.description
    &&& constants.entries@.len() == enumeration.entries.len()
    &&& forall|i: int|
        0 <= i < enumeration.entries.len() ==> {
            let constant = #[trigger] constants.entries@[i];
            let entry = enumeration.entries[i];
            &&& constant.name@ == constant_prefix(interface, enumeration.name) + "_"@
                + shouty_snake_case(entry.name)
            &&& constant.value == entry.value
            &&& constant.since == entry.since
            &&& constant.summary.deep_view() == entry.summary
            &&& constant.description.deep_view() == entry.description
        }
}

/// The named numbers that an enumeration of an interface becomes.
pub fn gen_interface_enum(interface: &str, enumeration: &Enum) -> (constants: Constants)
    ensures
        constants_for(constants, interface@, enumeration.deep_view()),
{
    let ghost all = enumeration.deep_view().entries;
    let prefix: String = to_shouty_snake_case(interface).concat("_").concat(
        to_shouty_snake_case(enumeration.name.as_str()).as_str(),
    );
    let mut entries: Vec<Constant> = Vec::new();
    let mut i: usize = 0;
    while i < enumeration.entries.len()
        invariant
            i <= enumeration.entries@.len(),
            all == enumeration.deep_view().entries,
            prefix@ == constant_prefix(interface@, enumeration.name@),
            entries@.len() == i,
            forall|k: int|
                0 <= k < i ==> {
                    let constant = #[trigger] entries@[k];
                    let entry = all[k];
                    &&& constant.name@ == prefix@ + "_"@ + shouty_snake_case(entry.name)
                    &&& constant.value == entry.value
                    &&& constant.since == entry.since
                    &&& constant.summary.deep_view() == entry.summary
                    &&& constant.description.deep_view() == entry.description
                },
        decreases enumeration.entries@.len() - i,
    {
        let entry: &Entry = &enumeration.entries[i];
        assert(all[i as int] == entry.deep_view());
        entries.push(
            Constant {
                name: prefix.clone().concat("_").concat(
                    to_shouty_snake_case(entry.name.as_str()).as_str(),
                ),
                value: entry.value,
                since: entry.since,
                summary: copy_text(&entry.summary),
                description: copy_description(&entry.description),
            },
        );
        i += 1;
    }
    Constants {
        prefix,
        since: enumeration.since,
        description: copy_description(&enumeration.description),
        entries,
    }
}

/// All that is made for one interface.
#[derive(Debug)]
pub struct InterfaceCode {
    /// The interface's name on the wire.
    pub name: String,
    /// The version settled for the interface; zero for one that is known by
    /// name only.
    pub version: u32,
    /// The name of the type of its handles.
    pub ident: String,
    /// The name of the field that holds the handle of the object a message
    /// is for.
    pub field: String,
    pub description: Option<crate::protocol::Description>,
    pub requests: MessageEnum,
    pub events: MessageEnum,
    pub enums: Vec<Constants>,
}

/// Whether this is all that is made for an interface.
pub open spec fn code_for(family: Family, code: InterfaceCode, interface: InterfaceView, side: Option<ContextType>) -> bool {
    &&& code.name@ == interface.name
    &&& code.version == interface.version
    &&& code.ident@ == upper_camel_case(interface.name)
    &&& code.field@ == snake_case(interface.name)
    &&& code.description.deep_view() == interface.description
    &&& enum_for(
        family,
        code.requests,
        interface.name,
        interface.requests,
        MessageKind::Request,
        side,
    )
    &&& enum_for(family, code.events, interface.name, interface.events, MessageKind::Event, side)
    &&& code.enums@.len() == interface.enums.len()
    &&& forall|i: int|
        0 <= i < interface.enums.len() ==> constants_for(
            #[trigger] code.enums@[i],
            interface.name,
            interface.enums[i],
        )
}

/// Whether an interface has few enough messages in each direction for each
/// to have an opcode.
pub open spec fn countable(interface: InterfaceView) -> bool {
    interface.requests.len() <= MOST_MESSAGES && interface.events.len() <= MOST_MESSAGES
}

/// All that is made for one interface: the type of its handles, the tables
/// of its requests and of its events, and the named numbers of its
/// enumerations.
pub fn gen_interface(family: Family, interface: &Interface, side: Option<ContextType>) -> (code: InterfaceCode)
    requires
        countable(interface.deep_view()),
    ensures
        code_for(family, code, interface.deep_view(), side),
{
    let ghost all = interface.deep_view().enums;
    let name: &str = interface.name.as_str();
    let mut enums: Vec<Constants> = Vec::new();
    let mut i: usize = 0;
    while i < interface.enums.len()
        invariant
            i <= interface.enums@.len(),
            all == interface.deep_view().enums,
            name@ == interface.name@,
            enums@.len() == i,
            forall|k: int| 0 <= k < i ==> constants_for(#[trigger] enums@[k], name@, all[k]),
        decreases interface.enums@.len() - i,
    {
        assert(all[i as int] == interface.enums@[i as int].deep_view());
        enums.push(gen_interface_enum(name, &interface.enums[i]));
        i += 1;
    }
    InterfaceCode {
        name: interface.name.clone(),
        version: interface.version,
        ident: to_upper_camel_case(name),
        field: to_snake_case(name),
        description: copy_description(&interface.description),
        requests: gen_messages(family, name, &interface.requests, MessageKind::Request, side),
        events: gen_messages(family, name, &interface.events, MessageKind::Event, side),
        enums,
    }
}

/// One interface among all that are made: the name of the type of its
/// handles, its name on the wire, and the version settled for it.
#[derive(Debug)]
pub struct InterfaceTag {
    pub ident: String,
    pub name: String,
    pub version: u32,
}

/// Whether the tags are those of the interfaces, one for one.
pub open spec fn tags_for(tags: Seq<InterfaceTag>, interfaces: Seq<InterfaceView>) -> bool {
    &&& tags.len() == interfaces.len()
    &&& forall|i: int|
        0 <= i < interfaces.len() ==> {
            &&& (#[trigger] tags[i]).ident@ == upper_camel_case(interfaces[i].name)
            &&& tags[i].name@ == interfaces[i].name
            &&& tags[i].version == interfaces[i].version
        }
}

/// The tags of the interfaces: the place of an interface among them is the
/// number by which it is told from the others.
pub fn gen_global_interface_enum(interfaces: &Vec<Interface>) -> (tags: Vec<InterfaceTag>)
    ensures
        tags_for(tags@, interfaces.deep_view()),
{
    let ghost all = interfaces.deep_view();
    let mut tags: Vec<InterfaceTag> = Vec::new();
    let mut i: usize = 0;
    while i < interfaces.len()
        invariant
            i <= interfaces@.len(),
            all == interfaces.deep_view(),
            tags@.len() == i,
            forall|k: int|
                0 <= k < i ==> {
                    &&& (#[trigger] tags@[k]).ident@ == upper_camel_case(all[k].name)
                    &&& tags@[k].name@ == all[k].name
                    &&& tags@[k].version == all[k].version
                },
        decreases interfaces@.len() - i,
    {
        let interface: &Interface = &interfaces[i];
        assert(all[i as int] == interface.deep_view());
        tags.push(
            InterfaceTag {
                ident: to_upper_camel_case(interface.name.as_str()),
                name: interface.name.clone(),
                version: interface.version,
            },
        );
        i = i + 1;
    }
    tags
}

/// The messages of all interfaces in one direction.
#[derive(Debug)]
pub struct GlobalEnum {
    /// The word for the direction.
    pub name: String,
    /// Whether a message of an interface in that direction holds a string or
    /// an array.
    pub needs_lifetime: bool,
    /// The places of the interfaces that have a version: their messages can
    /// be written and read.
    pub enabled: Vec<usize>,
    /// The places of the interfaces of version zero, which are known by name
    /// only: no message of theirs can be written or read.
    pub disabled: Vec<usize>,
}

/// The messages of an interface in a direction.
pub open spec fn messages_of(interface: InterfaceView, kind: MessageKind) -> Seq<MessageView> {
    match kind {
        MessageKind::Request => interface.requests,
        MessageKind::Event => interface.events,
    }
}

/// Whether a message of any interface that has a version, in a direction and
/// meant for the side, has a string or an array among its arguments.
pub open spec fn any_needs_lifetime(interfaces: Seq<InterfaceView>, kind: MessageKind, side: Option<ContextType>) -> bool {
    exists|i: int|
        0 <= i < interfaces.len() && (#[trigger] interfaces[i]).version != 0 && needs_lifetime(
            messages_of(interfaces[i], kind),
            side,
        )
}

/// The places of the interfaces that have a version, or of those that have
/// none, in their order.
pub open spec fn places_by_version(interfaces: Seq<InterfaceView>, zero: bool) -> Seq<usize>
    decreases interfaces.len(),
{
    if interfaces.len() == 0 {
        Seq::empty()
    } else {
        let before = places_by_version(interfaces.drop_last(), zero);
        if (interfaces.last().version == 0) == zero {
            before.push((interfaces.len() - 1) as usize)
        } else {
            before
        }
    }
}

/// Whether this is what is made for the messages of all interfaces in a
/// direction.
pub open spec fn global_for(table: GlobalEnum, interfaces: Seq<InterfaceView>, kind: MessageKind, side: Option<ContextType>) -> bool {
    &&& table.name@ == kind.spec_name()
    &&& table.needs_lifetime == any_needs_lifetime(interfaces, kind, side)
    &&& table.enabled@ == places_by_version(interfaces, false)
    &&& table.disabled@ == places_by_version(interfaces, true)
}

/// What is made for the messages of all interfaces in a direction.
pub fn gen_global_message_enum(interfaces: &Vec<Interface>, kind: MessageKind, side: Option<ContextType>) -> (table: GlobalEnum)
    ensures
        global_for(table, interfaces.deep_view(), kind, side),
{
    let ghost all = interfaces.deep_view();
    let mut enabled: Vec<usize> = Vec::new();
    let mut disabled: Vec<usize> = Vec::new();
    let mut needed: bool = false;
    let mut i: usize = 0;
    assert(enabled@ =~= places_by_version(all.take(0), false));
    assert(disabled@ =~= places_by_version(all.take(0), true));
    while i < interfaces.len()
        invariant
            i <= interfaces@.len(),
            all == interfaces.deep_view(),
            enabled@ == places_by_version(all.take(i as int), false),
            disabled@ == places_by_version(all.take(i as int), true),
            needed == any_needs_lifetime(all.take(i as int), kind, side),
        decreases interfaces@.len() - i,
    {
        let interface: &Interface = &interfaces[i];
        let ghost before = all.take(i as int);
        let ghost after = all.take(i + 1);
        proof {
            assert(all[i as int] == interface.deep_view());
            assert(after.drop_last() =~= before);
            assert(after.last() == all[i as int]);
            assert(after[i as int] == all[i as int]);
        }
        let here: bool = interface.version != 0 && match kind {
            MessageKind::Request => message_type_needs_lifetime(&interface.requests, side),
            MessageKind::Event => message_type_needs_lifetime(&interface.events, side),
        };
        proof {
            if any_needs_lifetime(before, kind, side) {
                let k = choose|k: int|
                    0 <= k < before.len() && (#[trigger] before[k]).version != 0 && needs_lifetime(
                        messages_of(before[k], kind),
                        side,
                    );
                assert(after[k] == before[k]);
            }
            if any_needs_lifetime(after, kind, side) {
                let k = choose|k: int|
                    0 <= k < after.len() && (#[trigger] after[k]).version != 0 && needs_lifetime(
                        messages_of(after[k], kind),
                        side,
                    );
                if k < i {
                    assert(before[k] == after[k]);
                }
            }
        }
        needed = needed || here;
        if interface.version != 0 {
            enabled.push(i);
        } else {
            disabled.push(i);
        }
        i = i + 1;
    }
    assert(all.take(i as int) =~= all);
    GlobalEnum { name: String::from_str(kind.name()), needs_lifetime: needed, enabled, disabled }
}

/// All that is made for a set of settled interfaces.
#[derive(Debug)]
pub struct Generated {
    pub family: Family,
    /// The tags of the interfaces.
    pub interface_enum: Vec<InterfaceTag>,
    /// The requests of all interfaces.
    pub request_enum: GlobalEnum,
    /// The events of all interfaces.
    pub event_enum: GlobalEnum,
    /// What is made for each interface, in their order.
    pub interfaces: Vec<InterfaceCode>,
}

/// Whether this is all that is made for the interfaces.
pub open spec fn generated_for(generated: Generated, family: Family, interfaces: Seq<InterfaceView>, side: Option<ContextType>) -> bool {
    &&& generated.family == family
    &&& tags_for(generated.interface_enum@, interfaces)
    &&& global_for(generated.request_enum, interfaces, MessageKind::Request, side)
    &&& global_for(generated.event_enum, interfaces, MessageKind::Event, side)
    &&& generated.interfaces@.len() == interfaces.len()
    &&& forall|i: int|
        0 <= i < interfaces.len() ==> code_for(
            family,
            #[trigger] generated.interfaces@[i],
            interfaces[i],
            side,
        )
}

/// All that is made for a set of settled interfaces: the tags of the
/// interfaces, what is made for the requests and for the events of them all,
/// and what is made for each, in their order.
pub fn gen(family: Family, interfaces: &Vec<Interface>, side: Option<ContextType>) -> (generated: Generated)
    requires
        forall|i: int| 0 <= i < interfaces@.len() ==> countable(#[trigger] interfaces.deep_view()[i]),
    ensures
        generated_for(generated, family, interfaces.deep_view(), side),
{
    let ghost all = interfaces.deep_view();
    let mut codes: Vec<InterfaceCode> = Vec::new();
    let mut i: usize = 0;
    while i < interfaces.len()
        invariant
            i <= interfaces@.len(),
            all == interfaces.deep_view(),
            forall|k: int| 0 <= k < all.len() ==> countable(#[trigger] all[k]),
            codes@.len() == i,
            forall|k: int| 0 <= k < i ==> code_for(family, #[trigger] codes@[k], all[k], side),
        decreases interfaces@.len() - i,
    {
        assert(all[i as int] == interfaces@[i as int].deep_view());
        codes.push(gen_interface(family, &interfaces[i], side));
        i = i + 1;
    }
    Generated {
        family,
        interface_enum: gen_global_interface_enum(interfaces),
        request_enum: gen_global_message_enum(interfaces, MessageKind::Request, side),
        event_enum: gen_global_message_enum(interfaces, MessageKind::Event, side),
        interfaces: codes,
    }
}

} // verus!
