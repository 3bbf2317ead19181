//! What is left of the described interfaces at the versions settled for them.

use crate::protocol::{
    copy_description, ArgKind, ArgView, Arg, Entry, EntryView, Enum, EnumView, Interface,
    InterfaceView, Message, MessageView, Protocol,
};
use crate::versions::{find_version, lookup, InterfaceVersion, InterfaceVersionView};
use vstd::prelude::*;

verus! {

/// Whether something that an interface has since the version `since` is there
/// in the version `version`. Nothing is there in version zero.
pub open spec fn kept(since: u32, version: u32) -> bool {
    version > 0 && since <= version
}

/// The messages that are there in a version, in their order.
pub open spec fn pruned_messages(messages: Seq<MessageView>, version: u32) -> Seq<MessageView> {
    messages.filter(|m: MessageView| kept(m.since, version))
}

/// The entries that are there in a version, in their order.
pub open spec fn pruned_entries(entries: Seq<EntryView>, version: u32) -> Seq<EntryView> {
    entries.filter(|e: EntryView| kept(e.since, version))
}

/// An enumeration with the entries that are there in a version.
pub open spec fn pruned_enum(enumeration: EnumView, version: u32) -> EnumView {
    EnumView { entries: pruned_entries(enumeration.entries, version), ..enumeration }
}

/// The enumerations that are there in a version, each with the entries that
/// are there.
pub open spec fn pruned_enums(enums: Seq<EnumView>, version: u32) -> Seq<EnumView> {
    enums.filter(|e: EnumView| kept(e.since, version)).map_values(
        |e: EnumView| pruned_enum(e, version),
    )
}

/// An interface in a version: it has that version, and of its requests,
/// events and enumerations those that are there in it.
pub open spec fn pruned_interface(interface: InterfaceView, version: u32) -> InterfaceView {
    InterfaceView {
        version,
        requests: pruned_messages(interface.requests, version),
        events: pruned_messages(interface.events, version),
        enums: pruned_enums(interface.enums, version),
        ..interface
    }
}

/// Of the interfaces, in their order, those for which a version is settled,
/// each in that version.
pub open spec fn pruned(interfaces: Seq<InterfaceView>, versions: Seq<InterfaceVersionView>) -> Seq<InterfaceView> {
    interfaces.filter_map(
        |i: InterfaceView|
            match lookup(versions, i.name) {
                Some(version) => Some(pruned_interface(i, version)),
                None => None,
            },
    )
}

/// Of the interfaces, in their order, those for which a version is chosen,
/// each in that version.
pub open spec fn pruned_by(interfaces: Seq<InterfaceView>, chosen: spec_fn(Seq<char>) -> Option<u32>) -> Seq<InterfaceView> {
    interfaces.filter_map(
        |i: InterfaceView|
            match chosen(i.name) {
                Some(version) => Some(pruned_interface(i, version)),
                None => None,
            },
    )
}

/// What is left of the interfaces depends on the versions settled alone, not
/// on how they are listed.
pub proof fn lemma_pruned_by(interfaces: Seq<InterfaceView>, versions: Seq<InterfaceVersionView>, chosen: spec_fn(Seq<char>) -> Option<u32>)
    requires
        forall|name: Seq<char>| #[trigger] lookup(versions, name) == chosen(name),
    ensures
        pruned(interfaces, versions) == pruned_by(interfaces, chosen),
    decreases interfaces.len(),
{
    if interfaces.len() > 0 {
        lemma_pruned_by(interfaces.drop_last(), versions, chosen);
        assert(lookup(versions, interfaces.last().name) == chosen(interfaces.last().name));
    }
}

/// Filtering one more item keeps what was kept, and the item if it passes.
pub proof fn lemma_filter_push<A>(items: Seq<A>, item: A, pred: spec_fn(A) -> bool)
    ensures
        items.push(item).filter(pred) == if pred(item) {
            items.filter(pred).push(item)
        } else {
            items.filter(pred)
        },
{
    reveal(Seq::filter);
    assert(items.push(item).drop_last() =~= items);
}

/// The messages that are there in a version.
pub fn prune_messages(messages: &Vec<Message>, version: u32) -> (left: Vec<Message>)
    ensures
        left.deep_view() == pruned_messages(messages.deep_view(), version),
{
    let ghost all = messages.deep_view();
    let ghost pred = |m: MessageView| kept(m.since, version);
    let mut left: Vec<Message> = Vec::new();
    let mut i: usize = 0;
    proof {
        reveal(Seq::filter);
        assert(all.take(0).filter(pred) =~= Seq::<MessageView>::empty());
        assert(left.deep_view() =~= Seq::<MessageView>::empty());
    }
    while i < messages.len()
        invariant
            i <= messages@.len(),
            all == messages.deep_view(),
            pred == (|m: MessageView| kept(m.since, version)),
            left.deep_view() == all.take(i as int).filter(pred),
        decreases messages@.len() - i,
    {
        proof {
            assert(all.take(i + 1) =~= all.take(i as int).push(all[i as int]));
            lemma_filter_push(all.take(i as int), all[i as int], pred);
        }
        if version > 0 && messages[i].since <= version {
            let ghost before = left.deep_view();
            let copy = messages[i].copy();
            left.push(copy);
            assert(left.deep_view() =~= before.push(all[i as int]));
        }
        i += 1;
    }
    assert(all.take(i as int) =~= all);
    left
}

/// The entries that are there in a version.
pub fn prune_entries(entries: &Vec<Entry>, version: u32) -> (left: Vec<Entry>)
    ensures
        left.deep_view() == pruned_entries(entries.deep_view(), version),
{
    let ghost all = entries.deep_view();
    let ghost pred = |e: EntryView| kept(e.since, version);
    let mut left: Vec<Entry> = Vec::new();
    let mut i: usize = 0;
    proof {
        reveal(Seq::filter);
        assert(all.take(0).filter(pred) =~= Seq::<EntryView>::empty());
        assert(left.deep_view() =~= Seq::<EntryView>::empty());
    }
    while i < entries.len()
        invariant
            i <= entries@.len(),
            all == entries.deep_view(),
            pred == (|e: EntryView| kept(e.since, version)),
            left.deep_view() == all.take(i as int).filter(pred),
        decreases entries@.len() - i,
    {
        proof {
            assert(all.take(i + 1) =~= all.take(i as int).push(all[i as int]));
            lemma_filter_push(all.take(i as int), all[i as int], pred);
        }
        if version > 0 && entries[i].since <= version {
            let ghost before = left.deep_view();
            let copy = entries[i].copy();
            left.push(copy);
            assert(left.deep_view() =~= before.push(all[i as int]));
        }
        i += 1;
    }
    assert(all.take(i as int) =~= all);
    left
}

/// The enumerations that are there in a version, each with the entries that
/// are there.
pub fn prune_enums(enums: &Vec<Enum>, version: u32) -> (left: Vec<Enum>)
    ensures
        left.deep_view() == pruned_enums(enums.deep_view(), version),
{
    let ghost all = enums.deep_view();
    let ghost pred = |e: EnumView| kept(e.since, version);
    let ghost trim = |e: EnumView| pruned_enum(e, version);
    let mut left: Vec<Enum> = Vec::new();
    let mut i: usize = 0;
    proof {
        reveal(Seq::filter);
        assert(all.take(0).filter(pred).map_values(trim) =~= Seq::<EnumView>::empty());
        assert(left.deep_view() =~= Seq::<EnumView>::empty());
    }
    while i < enums.len()
        invariant
            i <= enums@.len(),
            all == enums.deep_view(),
            pred == (|e: EnumView| kept(e.since, version)),
            trim == (|e: EnumView| pruned_enum(e, version)),
            left.deep_view() == all.take(i as int).filter(pred).map_values(trim),
        decreases enums@.len() - i,
    {
        proof {
            assert(all.take(i + 1) =~= all.take(i as int).push(all[i as int]));
            lemma_filter_push(all.take(i as int), all[i as int], pred);
        }
        let item: &Enum = &enums[i];
        if version > 0 && item.since <= version {
            let ghost before = left.deep_view();
            let copy = Enum {
                name: item.name.clone(),
                since: item.since,
                bitfield: item.bitfield,
                description: copy_description(&item.description),
                entries: prune_entries(&item.entries, version),
            };
            assert(copy.deep_view() == pruned_enum(all[i as int], version));
            left.push(copy);
            assert(left.deep_view() =~= before.push(pruned_enum(all[i as int], version)));
            assert(all.take(i as int).filter(pred).push(all[i as int]).map_values(trim)
                =~= all.take(i as int).filter(pred).map_values(trim).push(trim(all[i as int])));
        }
        i += 1;
    }
    assert(all.take(i as int) =~= all);
    left
}

/// What is left of the interfaces at the versions settled for them: of the
/// interfaces, in their order, those for which a version is settled, each
/// with that version, and with the requests, events, enumerations and entries
/// that it has in that version. An interface of version zero is left with
/// none: it is only a name for handles. The interfaces given are not changed.
pub fn preprocess_interfaces(interfaces: &Vec<Interface>, versions: &Vec<InterfaceVersion>) -> (left: Vec<Interface>)
    ensures
        left.deep_view() == pruned(interfaces.deep_view(), versions.deep_view()),
{
    let ghost all = interfaces.deep_view();
    let ghost map = versions.deep_view();
    let ghost pick = |i: InterfaceView|
        match lookup(map, i.name) {
            Some(version) => Some(pruned_interface(i, version)),
            None => None,
        };
    let mut left: Vec<Interface> = Vec::new();
    let mut i: usize = 0;
    assert(left.deep_view() =~= all.take(0).filter_map(pick));
    while i < interfaces.len()
        invariant
            i <= interfaces@.len(),
            all == interfaces.deep_view(),
            map == versions.deep_view(),
            pick == (|i: InterfaceView|
                match lookup(map, i.name) {
                    Some(version) => Some(pruned_interface(i, version)),
                    None => None,
                }),
            left.deep_view() == all.take(i as int).filter_map(pick),
        decreases interfaces@.len() - i,
    {
        let item: &Interface = &interfaces[i];
        proof {
            assert(all.take(i + 1).drop_last() =~= all.take(i as int));
            assert(all.take(i + 1).last() == item.deep_view());
        }
        match find_version(versions, item.name.as_str()) {
            Some(version) => {
                let ghost before = left.deep_view();
                let copy = Interface {
                    name: item.name.clone(),
                    version,
                    description: copy_description(&item.description),
                    requests: prune_messages(&item.requests, version),
                    events: prune_messages(&item.events, version),
                    enums: prune_enums(&item.enums, version),
                };
                assert(copy.deep_view() == pruned_interface(item.deep_view(), version));
                left.push(copy);
                assert(left.deep_view() =~= before + seq![
                    pruned_interface(item.deep_view(), version),
                ]);
            },
            None => {},
        }
        i += 1;
    }
    assert(all.take(i as int) =~= all);
    left
}

/// The arguments of a message as they go on the wire: the handle of a new
/// object whose interface the description does not name has the interface's
/// name and a version before it.
pub open spec fn rewritten_args(args: Seq<ArgView>) -> Seq<ArgView>
    decreases args.len(),
{
    if args.len() == 0 {
        Seq::empty()
    } else {
        let last = args.last();
        if last.kind == ArgKind::NewId && last.interface is None {
            rewritten_args(args.drop_last()) + seq![
                ArgView {
                    name: "interface"@,
                    kind: ArgKind::String,
                    summary: None,
                    interface: None,
                    allow_null: false,
                    enumeration: None,
                    description: None,
                },
                ArgView {
                    name: "version"@,
                    kind: ArgKind::Uint32,
                    summary: None,
                    interface: None,
                    allow_null: false,
                    enumeration: None,
                    description: None,
                },
                last,
            ]
        } else {
            rewritten_args(args.drop_last()).push(last)
        }
    }
}

/// A message with its arguments as they go on the wire.
pub open spec fn rewritten_message(message: MessageView) -> MessageView {
    MessageView { args: rewritten_args(message.args), ..message }
}

/// An interface with the arguments of its messages as they go on the wire.
pub open spec fn rewritten_interface(interface: InterfaceView) -> InterfaceView {
    InterfaceView {
        requests: interface.requests.map_values(|m: MessageView| rewritten_message(m)),
        events: interface.events.map_values(|m: MessageView| rewritten_message(m)),
        ..interface
    }
}

/// Puts the inline interface name and version before each handle of a new
/// object whose interface the description does not name.
pub fn rewrite_args(args: &Vec<Arg>) -> (out: Vec<Arg>)
    ensures
        out.deep_view() == rewritten_args(args.deep_view()),
{
    let ghost all = args.deep_view();
    let mut out: Vec<Arg> = Vec::new();
    let mut i: usize = 0;
    assert(out.deep_view() =~= rewritten_args(all.take(0)));
    while i < args.len()
        invariant
            i <= args@.len(),
            all == args.deep_view(),
            out.deep_view() == rewritten_args(all.take(i as int)),
        decreases args@.len() - i,
    {
        let arg: &Arg = &args[i];
        let ghost before = out.deep_view();
        proof {
            assert(all.take(i + 1).drop_last() =~= all.take(i as int));
            assert(all.take(i + 1).last() == arg.deep_view());
        }
        let untyped: bool = match (arg.kind, &arg.interface) {
            (ArgKind::NewId, None) => true,
            _ => false,
        };
        if untyped {
            let name = Arg {
                name: "interface".to_owned(),
                kind: ArgKind::String,
                summary: None,
                interface: None,
                allow_null: false,
                enumeration: None,
                description: None,
            };
            let version = Arg {
                name: "version".to_owned(),
                kind: ArgKind::Uint32,
                summary: None,
                interface: None,
                allow_null: false,
                enumeration: None,
                description: None,
            };
            let ghost name_view = name.deep_view();
            let ghost version_view = version.deep_view();
            out.push(name);
            out.push(version);
            out.push(arg.copy());
            assert(out.deep_view() =~= before + seq![name_view, version_view, arg.deep_view()]);
        } else {
            out.push(arg.copy());
            assert(out.deep_view() =~= before.push(arg.deep_view()));
        }
        i += 1;
    }
    assert(all.take(i as int) =~= all);
    out
}

/// Rewrites the arguments of each message.
pub fn rewrite_messages(messages: &Vec<Message>) -> (out: Vec<Message>)
    ensures
        out.deep_view() == messages.deep_view().map_values(|m: MessageView| rewritten_message(m)),
{
    let ghost all = messages.deep_view();
    let mut out: Vec<Message> = Vec::new();
    let mut i: usize = 0;
    while i < messages.len()
        invariant
            i <= messages@.len(),
            all == messages.deep_view(),
            out@.len() == i,
            forall|k: int| 0 <= k < i ==> #[trigger] out@[k].deep_view() == rewritten_message(all[k]),
        decreases messages@.len() - i,
    {
        let item: &Message = &messages[i];
        assert(all[i as int] == item.deep_view());
        out.push(
            Message {
                name: item.name.clone(),
                destructor: item.destructor,
                since: item.since,
                description: copy_description(&item.description),
                args: rewrite_args(&item.args),
                context_type: item.context_type,
            },
        );
        i += 1;
    }
    assert(out.deep_view() =~= all.map_values(|m: MessageView| rewritten_message(m)));
    out
}

/// A copy of an enumeration.
pub fn copy_enum(item: &Enum) -> (copy: Enum)
    ensures
        copy.deep_view() == item.deep_view(),
{
    let mut entries: Vec<Entry> = Vec::new();
    let mut i: usize = 0;
    while i < item.entries.len()
        invariant
            i <= item.entries@.len(),
            entries@.len() == i,
            forall|k: int| 0 <= k < i ==> entries@[k].deep_view() == item.entries@[k].deep_view(),
        decreases item.entries@.len() - i,
    {
        entries.push(item.entries[i].copy());
        i += 1;
    }
    assert(entries.deep_view() =~= item.entries.deep_view());
    Enum {
        name: item.name.clone(),
        since: item.since,
        bitfield: item.bitfield,
        description: copy_description(&item.description),
        entries,
    }
}

/// A protocol with the arguments of all its messages as they go on the wire:
/// the handle of a new object whose interface the description does not name
/// has the interface's name and a version before it.
pub fn preprocess_protocol(protocol: Protocol) -> (out: Protocol)
    ensures
        out.deep_view().name == protocol.deep_view().name,
        out.deep_view().copyright == protocol.deep_view().copyright,
        out.deep_view().description == protocol.deep_view().description,
        out.deep_view().interfaces == protocol.deep_view().interfaces.map_values(
            |i: InterfaceView| rewritten_interface(i),
        ),
{
    let ghost all = protocol.deep_view().interfaces;
    let mut interfaces: Vec<Interface> = Vec::new();
    let mut i: usize = 0;
    while i < protocol.interfaces.len()
        invariant
            i <= protocol.interfaces@.len(),
            all == protocol.deep_view().interfaces,
            interfaces@.len() == i,
            forall|k: int|
                0 <= k < i ==> #[trigger] interfaces@[k].deep_view() == rewritten_interface(all[k]),
        decreases protocol.interfaces@.len() - i,
    {
        let item: &Interface = &protocol.interfaces[i];
        assert(all[i as int] == item.deep_view());
        let mut enums: Vec<Enum> = Vec::new();
        let mut k: usize = 0;
        while k < item.enums.len()
            invariant
                k <= item.enums@.len(),
                enums@.len() == k,
                forall|j: int| 0 <= j < k ==> enums@[j].deep_view() == item.enums@[j].deep_view(),
            decreases item.enums@.len() - k,
        {
            enums.push(copy_enum(&item.enums[k]));
            k += 1;
        }
        assert(enums.deep_view() =~= item.enums.deep_view());
        interfaces.push(
            Interface {
                name: item.name.clone(),
                version: item.version,
                description: copy_description(&item.description),
                requests: rewrite_messages(&item.requests),
                events: rewrite_messages(&item.events),
                enums,
            },
        );
        i += 1;
    }
    assert(interfaces.deep_view() =~= all.map_values(|i: InterfaceView| rewritten_interface(i)));
    Protocol {
        name: protocol.name,
        copyright: protocol.copyright,
        description: protocol.description,
        interfaces,
    }
}

/// An interface in version zero has no messages and no enumerations.
pub proof fn lemma_version_zero_is_empty(interface: InterfaceView)
    ensures
        pruned_interface(interface, 0).requests.len() == 0,
        pruned_interface(interface, 0).events.len() == 0,
        pruned_interface(interface, 0).enums.len() == 0,
{
    lemma_nothing_kept(interface.requests, |m: MessageView| kept(m.since, 0));
    lemma_nothing_kept(interface.events, |m: MessageView| kept(m.since, 0));
    lemma_nothing_kept(interface.enums, |e: EnumView| kept(e.since, 0));
}

/// Where no item passes, none is kept.
proof fn lemma_nothing_kept<A>(items: Seq<A>, pred: spec_fn(A) -> bool)
    requires
        forall|item: A| !#[trigger] pred(item),
    ensures
        items.filter(pred).len() == 0,
    decreases items.len(),
{
    reveal(Seq::filter);
    if items.len() > 0 {
        lemma_nothing_kept(items.drop_last(), pred);
    }
}

/// What is left of a list of messages in a version are the messages that are
/// there in it, in the order in which they were described.
pub proof fn lemma_pruned_in_order(messages: Seq<MessageView>, version: u32, i: int, j: int)
    requires
        0 <= i < j < pruned_messages(messages, version).len(),
    ensures
        kept(pruned_messages(messages, version)[i].since, version),
        exists|a: int, b: int|
            0 <= a < b < messages.len() && messages[a] == pruned_messages(messages, version)[i]
                && messages[b] == pruned_messages(messages, version)[j],
    decreases messages.len(),
{
    reveal(Seq::filter);
    let pred = |m: MessageView| kept(m.since, version);
    let left = messages.filter(pred);
    let shorter = messages.drop_last();
    let before = shorter.filter(pred);
    messages.lemma_filter_pred(pred, i);
    if pred(messages.last()) && j == left.len() - 1 {
        assert(left == before.push(messages.last()));
        assert(left[i] == before[i]);
        shorter.lemma_filter_contains_rev(pred, before[i]);
        let a = choose|a: int| 0 <= a < shorter.len() && shorter[a] == before[i];
        assert(messages[a] == left[i] && messages[messages.len() - 1] == left[j]);
    } else {
        assert(left[i] == before[i] && left[j] == before[j]);
        lemma_pruned_in_order(shorter, version, i, j);
        let (a, b) = choose|a: int, b: int|
            0 <= a < b < shorter.len() && shorter[a] == before[i] && shorter[b] == before[j];
        assert(messages[a] == left[i] && messages[b] == left[j]);
    }
}

/// Whether later messages are never older than earlier ones: the list grew
/// at its end alone.
pub open spec fn append_only(messages: Seq<MessageView>) -> bool {
    forall|i: int, j: int|
        0 <= i < j < messages.len() ==> (#[trigger] messages[i]).since <= (
        #[trigger] messages[j]).since
}

/// Whether later messages are never older than earlier ones.
pub fn is_append_only(messages: &Vec<Message>) -> (grown: bool)
    ensures
        grown == append_only(messages.deep_view()),
{
    let ghost all = messages.deep_view();
    let mut i: usize = 1;
    while i < messages.len()
        invariant
            1 <= i,
            all == messages.deep_view(),
            forall|a: int, b: int|
                0 <= a < b < i && b < all.len() ==> (#[trigger] all[a]).since <= (
                #[trigger] all[b]).since,
        decreases messages@.len() - i,
    {
        assert(all[i as int] == messages@[i as int].deep_view());
        assert(all[i - 1] == messages@[i - 1].deep_view());
        if messages[i - 1].since > messages[i].since {
            return false;
        }
        proof {
            assert forall|a: int, b: int| 0 <= a < b < i + 1 && b < all.len() implies (
            #[trigger] all[a]).since <= (#[trigger] all[b]).since by {
                if b == i && a < i - 1 {
                    assert(all[a].since <= all[i - 1].since);
                }
            }
        }
        i = i + 1;
    }
    true
}

/// Where every item passes, all are kept.
proof fn lemma_all_kept<A>(items: Seq<A>, pred: spec_fn(A) -> bool)
    requires
        forall|i: int| 0 <= i < items.len() ==> pred(#[trigger] items[i]),
    ensures
        items.filter(pred) == items,
    decreases items.len(),
{
    reveal(Seq::filter);
    if items.len() > 0 {
        assert forall|i: int| 0 <= i < items.drop_last().len() implies pred(
            #[trigger] items.drop_last()[i],
        ) by {
            assert(items.drop_last()[i] == items[i]);
        }
        lemma_all_kept(items.drop_last(), pred);
        assert(items.drop_last().push(items.last()) =~= items);
    }
}

/// Opcodes are stable where a list of messages grew at its end alone: the
/// messages that are there in a version are the first so many of the list, so
/// that the place of each among them is its place in the list.
pub proof fn lemma_opcodes_stable(messages: Seq<MessageView>, version: u32)
    requires
        append_only(messages),
    ensures
        pruned_messages(messages, version).len() <= messages.len(),
        pruned_messages(messages, version) == messages.take(
            pruned_messages(messages, version).len() as int,
        ),
    decreases messages.len(),
{
    reveal(Seq::filter);
    let pred = |m: MessageView| kept(m.since, version);
    if messages.len() == 0 {
        assert(messages.take(0) =~= messages.filter(pred));
    } else {
        let shorter = messages.drop_last();
        assert forall|i: int, j: int| 0 <= i < j < shorter.len() implies (
        #[trigger] shorter[i]).since <= (#[trigger] shorter[j]).since by {
            assert(shorter[i] == messages[i] && shorter[j] == messages[j]);
        }
        if pred(messages.last()) {
            assert forall|i: int| 0 <= i < messages.len() implies pred(#[trigger] messages[i]) by {
                if i < messages.len() - 1 {
                    assert(messages[i].since <= messages[messages.len() - 1].since);
                }
            }
            lemma_all_kept(messages, pred);
            assert(messages.take(messages.len() as int) =~= messages);
        } else {
            lemma_opcodes_stable(shorter, version);
            let k = shorter.filter(pred).len() as int;
            assert(shorter.take(k) =~= messages.take(k));
        }
    }
}

} // verus!
