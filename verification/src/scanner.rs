//! The whole way from protocol descriptions and a set of requested
//! interfaces to the tables of their messages.

use crate::gen::{countable, gen, generated_for, Generated, MOST_MESSAGES};
use crate::parser::{document, parse_protocol, ParseError};
use crate::protocol::{ContextType, Interface, InterfaceView, Protocol};
use crate::prune::{preprocess_interfaces, preprocess_protocol, rewritten_interface};
use crate::resolve::all_deps;
use crate::versions::{
    first_fault, required, resolve, unconfirmed, version_of, InterfaceVersion,
    InterfaceVersionView, ResolveError,
};
use crate::wire::Family;
use crate::xml::xml_events;
use vstd::prelude::*;

verus! {

/// The place of the first interface of that name.
pub open spec fn place_of(list: Seq<InterfaceView>, name: Seq<char>) -> Option<int>
    decreases list.len(),
{
    if list.len() == 0 {
        None
    } else if list[0].name == name {
        Some(0)
    } else {
        match place_of(list.drop_first(), name) {
            Some(place) => Some(place + 1),
            None => None,
        }
    }
}

/// A list of interfaces with one more: it takes the place of the first of
/// its name, or the place behind the last if none has its name.
pub open spec fn put(list: Seq<InterfaceView>, item: InterfaceView) -> Seq<InterfaceView> {
    match place_of(list, item.name) {
        Some(place) => if 0 <= place < list.len() {
            list.update(place, item)
        } else {
            list
        },
        None => list.push(item),
    }
}

/// A list of interfaces with more, one after another.
pub open spec fn put_all(list: Seq<InterfaceView>, items: Seq<InterfaceView>) -> Seq<InterfaceView>
    decreases items.len(),
{
    if items.len() == 0 {
        list
    } else {
        put_all(put(list, items[0]), items.drop_first())
    }
}

/// The protocol that a text describes, with the arguments of its messages
/// as they go on the wire.
pub open spec fn described(family: Family, text: Seq<char>) -> Result<Seq<InterfaceView>, ParseError> {
    match document(family, xml_events(text)) {
        Ok(protocol) => Ok(
            protocol.interfaces.map_values(|i: InterfaceView| rewritten_interface(i)),
        ),
        Err(error) => Err(error),
    }
}

/// The place of the first text that describes no protocol, and what is
/// wrong with it.
pub open spec fn first_malformed(family: Family, texts: Seq<Seq<char>>) -> Option<(int, ParseError)>
    decreases texts.len(),
{
    if texts.len() == 0 {
        None
    } else {
        match first_malformed(family, texts.drop_last()) {
            Some(found) => Some(found),
            None => match described(family, texts.last()) {
                Err(error) => Some((texts.len() - 1, error)),
                Ok(_) => None,
            },
        }
    }
}

/// The interfaces that the texts describe, each name once: where an
/// interface of the same name is described again, the last description
/// counts.
pub open spec fn declared_interfaces(family: Family, texts: Seq<Seq<char>>) -> Seq<InterfaceView>
    decreases texts.len(),
{
    if texts.len() == 0 {
        Seq::empty()
    } else {
        let before = declared_interfaces(family, texts.drop_last());
        match described(family, texts.last()) {
            Ok(interfaces) => put_all(before, interfaces),
            Err(_) => before,
        }
    }
}

/// The version settled for an interface; none for an interface that no
/// requested one leads to.
pub open spec fn settled(family: Family, interfaces: Seq<InterfaceView>, roots: Seq<InterfaceVersionView>) -> spec_fn(Seq<char>) -> Option<u32> {
    |name: Seq<char>|
        if required(all_deps(interfaces), roots, name) {
            Some(version_of(family, interfaces, roots, name))
        } else {
            None
        }
}

/// The interfaces that tables are made for: the described ones that a
/// requested one leads to, each as it is in the version settled for it.
pub open spec fn settled_interfaces(family: Family, interfaces: Seq<InterfaceView>, roots: Seq<InterfaceVersionView>) -> Seq<InterfaceView> {
    crate::prune::pruned_by(interfaces, settled(family, interfaces, roots))
}

/// Puts an interface into a list: in the place of the first of its name, or
/// behind the last if none has its name.
pub fn put_interface(list: &mut Vec<Interface>, item: Interface)
    ensures
        final(list).deep_view() == put(old(list).deep_view(), item.deep_view()),
{
    let ghost before = list.deep_view();
    let ghost added = item.deep_view();
    let mut i: usize = 0;
    assert(before.skip(0) =~= before);
    while i < list.len()
        invariant
            i <= list@.len(),
            *list == *old(list),
            before == list.deep_view(),
            added == item.deep_view(),
            place_of(before, added.name) == match place_of(before.skip(i as int), added.name) {
                Some(place) => Some(place + i),
                None => None,
            },
        decreases list@.len() - i,
    {
        assert(before.skip(i as int)[0] == list@[i as int].deep_view());
        assert(before.skip(i as int).drop_first() =~= before.skip(i + 1));
        if crate::text::same_text(list[i].name.as_str(), item.name.as_str()) {
            list.set(i, item);
            assert(list.deep_view() =~= before.update(i as int, added));
            return ;
        }
        i += 1;
    }
    list.push(item);
    assert(list.deep_view() =~= before.push(added));
}

/// Why the tables could not be made.
#[derive(Clone, Debug, PartialEq, Eq)]
pub enum GenerateError {
    /// The description at this place among the descriptions is not well
    /// formed.
    Malformed { protocol: usize, error: ParseError },
    /// The requested interfaces cannot be had.
    Unresolved(ResolveError),
    /// An interface has more messages than there are opcodes.
    TooManyMessages { interface: String },
}

/// What to make tables for: protocol descriptions, and the interfaces that
/// are requested of them, each with a version.
#[derive(Clone, Debug)]
pub struct Config {
    pub family: Family,
    /// Wide family: the side for which the tables are made.
    pub context_type: Option<ContextType>,
    /// The texts of the protocol descriptions.
    pub protocols: Vec<String>,
    /// The requested interfaces.
    pub interfaces: Vec<InterfaceVersion>,
}

impl Config {
    /// Nothing yet, for a family.
    pub fn new(family: Family) -> (config: Config)
        ensures
            config.family == family,
            config.context_type is None,
            config.protocols@.len() == 0,
            config.interfaces@.len() == 0,
    {
        Config { family, context_type: None, protocols: Vec::new(), interfaces: Vec::new() }
    }

    /// Sets the side for which the tables are made.
    pub fn context_type(&mut self, context_type: ContextType)
        ensures
            final(self).context_type == Some(context_type),
            final(self).family == old(self).family,
            final(self).protocols == old(self).protocols,
            final(self).interfaces == old(self).interfaces,
    {
        self.context_type = Some(context_type);
    }

    /// Adds a protocol description.
    pub fn protocol(&mut self, text: &str)
        ensures
            final(self).protocols.deep_view() == old(self).protocols.deep_view().push(text@),
            final(self).family == old(self).family,
            final(self).context_type == old(self).context_type,
            final(self).interfaces == old(self).interfaces,
    {
        let ghost before = self.protocols.deep_view();
        self.protocols.push(text.to_owned());
        assert(self.protocols.deep_view() =~= before.push(text@));
    }

    /// Requests an interface in a version.
    pub fn interface(&mut self, name: &str, version: u32)
        ensures
            final(self).interfaces.deep_view() == old(self).interfaces.deep_view().push(
                InterfaceVersionView { name: name@, version },
            ),
            final(self).family == old(self).family,
            final(self).context_type == old(self).context_type,
            final(self).protocols == old(self).protocols,
    {
        let ghost before = self.interfaces.deep_view();
        self.interfaces.push(InterfaceVersion { name: name.to_owned(), version });
        assert(self.interfaces.deep_view() =~= before.push(
            InterfaceVersionView { name: name@, version },
        ));
    }

    /// Requests an interface in a version, under the name that the narrow
    /// family has for it.
    pub fn global(&mut self, name: &str, version: u32)
        ensures
            final(self).interfaces.deep_view() == old(self).interfaces.deep_view().push(
                InterfaceVersionView { name: name@, version },
            ),
            final(self).family == old(self).family,
            final(self).context_type == old(self).context_type,
            final(self).protocols == old(self).protocols,
    {
        self.interface(name, version)
    }
}

/// Puts interfaces into a list, one after another.
pub fn put_interfaces(list: &mut Vec<Interface>, items: Vec<Interface>)
    ensures
        final(list).deep_view() == put_all(old(list).deep_view(), items.deep_view()),
{
    let ghost all = items.deep_view();
    let mut queue = items;
    assert(queue.deep_view().skip(0) =~= all);
    while queue.len() > 0
        invariant
            all == items.deep_view(),
            put_all(old(list).deep_view(), all) == put_all(list.deep_view(), queue.deep_view()),
        decreases queue@.len(),
    {
        let ghost before = queue.deep_view();
        let item: Interface = queue.remove(0);
        assert(item.deep_view() == before[0]);
        assert(queue.deep_view() =~= before.drop_first());
        put_interface(list, item);
    }
}

/// The first interface that has more messages in a direction than there are
/// opcodes.
fn first_uncountable(interfaces: &Vec<Interface>) -> (place: Option<usize>)
    ensures
        match place {
            Some(at) => at < interfaces@.len() && !countable(interfaces.deep_view()[at as int]),
            None => forall|i: int|
                0 <= i < interfaces@.len() ==> countable(#[trigger] interfaces.deep_view()[i]),
        },
{
    let mut i: usize = 0;
    while i < interfaces.len()
        invariant
            i <= interfaces@.len(),
            forall|k: int| 0 <= k < i ==> countable(#[trigger] interfaces.deep_view()[k]),
        decreases interfaces@.len() - i,
    {
        assert(interfaces.deep_view()[i as int] == interfaces@[i as int].deep_view());
        if interfaces[i].requests.len() > MOST_MESSAGES || interfaces[i].events.len()
            > MOST_MESSAGES {
            return Some(i);
        }
        i += 1;
    }
    None
}

impl Config {
    /// Reads the descriptions and puts their interfaces together; the place
    /// of the first description that is not well formed, and what is wrong
    /// with it, if one is not.
    pub fn declared(&self) -> (result: Result<Vec<Interface>, (usize, ParseError)>)
        ensures
            match result {
                Ok(interfaces) => first_malformed(self.family, self.protocols.deep_view()) is None
                    && interfaces.deep_view() == declared_interfaces(
                    self.family,
                    self.protocols.deep_view(),
                ),
                Err((place, error)) => first_malformed(self.family, self.protocols.deep_view())
                    == Some((place as int, error)),
            },
    {
        let ghost texts = self.protocols.deep_view();
        let mut interfaces: Vec<Interface> = Vec::new();
        let mut k: usize = 0;
        assert(interfaces.deep_view() =~= declared_interfaces(self.family, texts.take(0)));
        while k < self.protocols.len()
            invariant
                k <= self.protocols@.len(),
                texts == self.protocols.deep_view(),
                first_malformed(self.family, texts.take(k as int)) is None,
                interfaces.deep_view() == declared_interfaces(self.family, texts.take(k as int)),
            decreases self.protocols@.len() - k,
        {
            proof {
                assert(texts.take(k + 1).drop_last() =~= texts.take(k as int));
                assert(texts.take(k + 1).last() == self.protocols@[k as int]@);
                lemma_malformed_stays(self.family, texts, k + 1);
            }
            match parse_protocol(self.family, self.protocols[k].as_str()) {
                Err(error) => {
                    return Err((k, error));
                },
                Ok(protocol) => {
                    let rewritten: Protocol = preprocess_protocol(protocol);
                    put_interfaces(&mut interfaces, rewritten.interfaces);
                },
            }
            k += 1;
        }
        assert(texts.take(k as int) =~= texts);
        Ok(interfaces)
    }

    /// Makes the tables: reads the descriptions, settles the versions of the
    /// interfaces that the requested ones lead to, leaves of each what it has
    /// in its version, and makes the tables of what is left.
    ///
    /// It fails if a description is not well formed, if the requested
    /// interfaces cannot be had (see [`resolve`]), or if an interface has
    /// more messages than there are opcodes.
    pub fn generate(&self) -> (result: Result<Generated, GenerateError>)
        ensures
            ({
                let texts = self.protocols.deep_view();
                let roots = self.interfaces.deep_view();
                let interfaces = declared_interfaces(self.family, texts);
                let left = settled_interfaces(self.family, interfaces, roots);
                match result {
                    Err(GenerateError::Malformed { protocol, error }) => first_malformed(
                        self.family,
                        texts,
                    ) == Some((protocol as int, error)),
                    Err(GenerateError::Unresolved(error)) => {
                        &&& first_malformed(self.family, texts) is None
                        &&& match first_fault(interfaces, roots) {
                            Some(fault) => error.deep_view() == fault,
                            None => {
                                &&& self.family == Family::Wide
                                &&& error is Unconfirmed
                                &&& unconfirmed(interfaces, roots, error->Unconfirmed_name@)
                            },
                        }
                    },
                    Err(GenerateError::TooManyMessages { interface }) => {
                        &&& first_malformed(self.family, texts) is None
                        &&& first_fault(interfaces, roots) is None
                        &&& exists|i: int|
                            0 <= i < left.len() && !countable(#[trigger] left[i]) && left[i].name
                                == interface@
                    },
                    Ok(generated) => {
                        &&& first_malformed(self.family, texts) is None
                        &&& first_fault(interfaces, roots) is None
                        &&& self.family == Family::Wide ==> forall|name: Seq<char>|
                            !#[trigger] unconfirmed(interfaces, roots, name)
                        &&& forall|i: int| 0 <= i < left.len() ==> countable(#[trigger] left[i])
                        &&& generated_for(generated, self.family, left, self.context_type)
                    },
                }
            }),
    {
        let interfaces: Vec<Interface> = match self.declared() {
            Ok(interfaces) => interfaces,
            Err((place, error)) => {
                return Err(GenerateError::Malformed { protocol: place, error });
            },
        };
        let versions: Vec<InterfaceVersion> = match resolve(
            self.family,
            &interfaces,
            &self.interfaces,
        ) {
            Ok(versions) => versions,
            Err(error) => {
                return Err(GenerateError::Unresolved(error));
            },
        };
        let left: Vec<Interface> = preprocess_interfaces(&interfaces, &versions);
        proof {
            crate::prune::lemma_pruned_by(
                interfaces.deep_view(),
                versions.deep_view(),
                settled(self.family, interfaces.deep_view(), self.interfaces.deep_view()),
            );
        }
        let ghost wanted = settled_interfaces(
            self.family,
            interfaces.deep_view(),
            self.interfaces.deep_view(),
        );
        assert(left.deep_view() == wanted);
        match first_uncountable(&left) {
            Some(at) => {
                assert(left.deep_view()[at as int].name == left@[at as int].name@);
                assert(0 <= at < wanted.len() && !countable(wanted[at as int]));
                Err(GenerateError::TooManyMessages { interface: left[at].name.clone() })
            },
            None => {
                let generated = gen(self.family, &left, self.context_type);
                assert(generated_for(generated, self.family, wanted, self.context_type));
                Ok(generated)
            },
        }
    }
}

/// The first malformed text among some of the texts is the first among all.
proof fn lemma_malformed_stays(family: Family, texts: Seq<Seq<char>>, k: int)
    requires
        0 <= k <= texts.len(),
    ensures
        first_malformed(family, texts.take(k)) is Some ==> first_malformed(family, texts)
            == first_malformed(family, texts.take(k)),
    decreases texts.len() - k,
{
    if k == texts.len() {
        assert(texts.take(k) =~= texts);
    } else {
        assert(texts.drop_last().take(k) =~= texts.take(k));
        lemma_malformed_stays(family, texts.drop_last(), k);
    }
}

} // verus!
