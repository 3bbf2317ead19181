//! The reading of the messages of any interface by the tables that were
//! made for them.

use crate::codec::{read_fields, variant_of, views, Decoded, MessageEnum};
use crate::connection::Connection;
use crate::gen::{Generated, InterfaceCode};
use crate::message::Message;
use crate::protocol::MessageKind;
use vstd::prelude::*;

verus! {

/// Why a message of an interface was not read.
#[derive(Clone, Copy, Debug, PartialEq, Eq, Structural)]
pub enum DecodeError {
    /// No interface has this tag.
    UnknownInterface,
    /// The interface is known by name only.
    Disabled,
    /// The interface has no message with the opcode, or the values of the
    /// message's fields are not all there.
    Unreadable,
}

impl Generated {
    /// The table of the messages of the interface at a place, in a
    /// direction.
    pub open spec fn table(&self, kind: MessageKind, tag: int) -> MessageEnum {
        match kind {
            MessageKind::Request => self.interfaces@[tag].requests,
            MessageKind::Event => self.interfaces@[tag].events,
        }
    }

    /// The tag of the interface with a name on the wire.
    pub fn find(&self, name: &str) -> (tag: Option<usize>)
        ensures
            match tag {
                Some(tag) => tag < self.interfaces@.len() && self.interfaces@[tag as int].name@
                    == name@,
                None => forall|i: int|
                    0 <= i < self.interfaces@.len() ==> (#[trigger] self.interfaces@[i]).name@
                        != name@,
            },
    {
        let mut i: usize = 0;
        while i < self.interfaces.len()
            invariant
                i <= self.interfaces@.len(),
                forall|k: int| 0 <= k < i ==> (#[trigger] self.interfaces@[k]).name@ != name@,
            decreases self.interfaces@.len() - i,
        {
            if crate::text::same_text(self.interfaces[i].name.as_str(), name) {
                return Some(i);
            }
            i = i + 1;
        }
        None
    }

    /// Reads a message for an object of the interface with a tag: by the
    /// table of that interface for the direction. An interface that is known
    /// by name only has no messages to read.
    pub fn unmarshal<F>(&self, kind: MessageKind, tag: usize, msg: Message, conn: &mut Connection<F>) -> (result: Result<Decoded<F>, DecodeError>)
        requires
            old(conn).wf(),
        ensures
            final(conn).wf(),
            final(conn).same_sending(old(conn)),
            final(conn).family() == old(conn).family(),
            final(conn).order() == old(conn).order(),
            final(conn).incoming() == old(conn).incoming(),
            tag >= self.interfaces@.len() ==> result == Err::<Decoded<F>, DecodeError>(
                DecodeError::UnknownInterface,
            ) && final(conn).incoming_fds() == old(conn).incoming_fds(),
            tag < self.interfaces@.len() && self.interfaces@[tag as int].version == 0 ==> result
                == Err::<Decoded<F>, DecodeError>(DecodeError::Disabled) && final(conn).incoming_fds() == old(conn).incoming_fds(),
            tag < self.interfaces@.len() && self.interfaces@[tag as int].version != 0
                ==> match variant_of(self.table(kind, tag as int).variants@, msg.spec_opcode()) {
                None => result == Err::<Decoded<F>, DecodeError>(DecodeError::Unreadable),
                Some(at) => match read_fields(
                    old(conn).family(),
                    msg.spec_order(),
                    self.table(kind, tag as int).variants@[at].types(),
                    msg.remaining(),
                    old(conn).incoming_fds(),
                ) {
                    Some((found, left, unclaimed)) => {
                        &&& result is Ok
                        &&& result.unwrap().variant == at
                        &&& result.unwrap().object == msg.spec_object()
                        &&& views(result.unwrap().values@) == found
                        &&& final(conn).incoming_fds() == unclaimed
                    },
                    None => result == Err::<Decoded<F>, DecodeError>(DecodeError::Unreadable),
                },
            },
    {
        if tag >= self.interfaces.len() {
            return Err(DecodeError::UnknownInterface);
        }
        let code: &InterfaceCode = &self.interfaces[tag];
        if code.version == 0 {
            return Err(DecodeError::Disabled);
        }
        let decoded: Option<Decoded<F>> = match kind {
            MessageKind::Request => code.requests.unmarshal(msg, conn),
            MessageKind::Event => code.events.unmarshal(msg, conn),
        };
        match decoded {
            Some(decoded) => Ok(decoded),
            None => Err(DecodeError::Unreadable),
        }
    }
}

} // verus!
