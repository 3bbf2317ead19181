//! One end of a connection: the bytes and file descriptors that wait to be
//! sent, and those that were received and wait to be read as messages.
//!
//! Nothing here touches a socket. Whoever owns the socket sends what
//! [`Connection::pending`] shows and reports how that went, and reports what it
//! received; the connection keeps the queues in step with those reports.

use crate::endian::{
    bytes32, bytes64, get_u32, get_u64, lemma_bytes32_roundtrip, lemma_bytes64_roundtrip,
    value32, value64, ByteOrder,
};
use crate::message::{Message, SplitSlice};
use crate::ring::{
    ring_advance, ring_avail, ring_bytes, ring_grow, ring_is_empty, ring_len, ring_new,
    ring_peek, ring_room, ring_spans, ring_write, SAFE_ROOM,
};
use crate::wire::{
    args_bytes, args_len, encode_frame, frame_bytes, frame_fits, header_bytes, lemma_args_len,
    values_of, Arg, ArgValue, Family,
};
use circbuf::CircBuf;
use std::collections::VecDeque;
use vstd::prelude::*;

verus! {

/// Why one attempt to send or to receive moved nothing.
#[derive(Debug)]
pub enum IoError<E> {
    /// The socket was not ready: try again when it is.
    WouldBlock,
    /// The socket failed with the error inside.
    Failed(E),
    /// The bytes received could not be kept: the buffer cannot grow further.
    Full,
}

/// What a blocking send or receive does next.
#[derive(Debug)]
pub enum Step<E> {
    /// It is over. The flag is that of the last attempt.
    Done(bool),
    /// Try again at once.
    Retry,
    /// Wait until the socket is ready, or hung up, or in error, then try
    /// again.
    Wait,
    /// It is over: the socket failed.
    Failed(E),
}

/// A message whose header declares a length shorter than the header itself.
#[derive(Clone, Copy, Debug, PartialEq, Eq, Structural)]
pub struct BadFrame {
    pub declared: u32,
}

/// What stands at the front of received bytes.
pub enum Frame {
    /// Not yet a whole message.
    Incomplete,
    /// A header that declares a length shorter than itself.
    Malformed { declared: u32 },
    /// A whole message of `size` bytes, header included.
    Complete { object: u64, opcode: u32, size: u32 },
}

/// The fields of the header at the front of `b`: handle, declared length and
/// opcode.
pub open spec fn header_fields(family: Family, order: ByteOrder, b: Seq<u8>) -> (u64, u32, u32)
    recommends
        b.len() >= family.spec_header_len(),
{
    match family {
        Family::Narrow => {
            let word = value32(order, b.subrange(4, 8));
            (value32(order, b.subrange(0, 4)) as u64, word / 65536, word % 65536)
        },
        Family::Wide => (
            value64(order, b.subrange(0, 8)),
            value32(order, b.subrange(8, 12)),
            value32(order, b.subrange(12, 16)),
        ),
    }
}

/// What stands at the front of the received bytes `b`.
pub open spec fn next_frame(family: Family, order: ByteOrder, b: Seq<u8>) -> Frame {
    if b.len() < family.spec_header_len() {
        Frame::Incomplete
    } else {
        let (object, size, opcode) = header_fields(family, order, b);
        if size < family.spec_header_len() {
            Frame::Malformed { declared: size }
        } else if b.len() < size {
            Frame::Incomplete
        } else {
            Frame::Complete { object, opcode, size }
        }
    }
}

/// Moves all of `fds` to the back of `queue`, in their order.
pub fn queue_all<F>(queue: &mut VecDeque<F>, fds: Vec<F>)
    ensures
        final(queue)@ == old(queue)@ + fds@,
{
    let mut fds = fds;
    let ghost all = fds@;
    while fds.len() > 0
        invariant
            queue@ + fds@ == old(queue)@ + all,
        decreases fds@.len(),
    {
        let ghost before_queue = queue@;
        let ghost before_fds = fds@;
        let fd = fds.remove(0);
        queue.push_back(fd);
        assert(queue@ + fds@ =~= before_queue + before_fds);
    }
    assert(queue@ + fds@ =~= queue@);
}

/// One end of a connection of one protocol family. `F` is the type of the file
/// descriptors that travel with the messages.
pub struct Connection<F> {
    family: Family,
    order: ByteOrder,
    read_buf: CircBuf,
    write_buf: CircBuf,
    read_fds: VecDeque<F>,
    write_fds: VecDeque<F>,
}

impl<F> Connection<F> {
    /// Both buffers have storage. Every connection that this module hands out
    /// is so, and stays so.
    pub closed spec fn wf(&self) -> bool {
        ring_room(self.read_buf) > 0 && ring_room(self.write_buf) > 0
    }

    /// The protocol family.
    pub closed spec fn family(&self) -> Family {
        self.family
    }

    /// The byte order of the numbers in the messages.
    pub closed spec fn order(&self) -> ByteOrder {
        self.order
    }

    /// The bytes received and not yet read as messages, oldest first.
    pub closed spec fn incoming(&self) -> Seq<u8> {
        ring_bytes(self.read_buf)
    }

    /// The bytes queued and not yet sent, oldest first.
    pub closed spec fn outgoing(&self) -> Seq<u8> {
        ring_bytes(self.write_buf)
    }

    /// The file descriptors received and not yet claimed, oldest first.
    pub closed spec fn incoming_fds(&self) -> Seq<F> {
        self.read_fds@
    }

    /// The file descriptors queued for the next send, oldest first.
    pub closed spec fn outgoing_fds(&self) -> Seq<F> {
        self.write_fds@
    }

    /// The sending side is as in `before`.
    pub open spec fn same_sending(&self, before: &Connection<F>) -> bool {
        &&& self.family() == before.family()
        &&& self.order() == before.order()
        &&& self.outgoing() == before.outgoing()
        &&& self.outgoing_fds() == before.outgoing_fds()
    }

    /// The receiving side is as in `before`.
    pub open spec fn same_receiving(&self, before: &Connection<F>) -> bool {
        &&& self.family() == before.family()
        &&& self.order() == before.order()
        &&& self.incoming() == before.incoming()
        &&& self.incoming_fds() == before.incoming_fds()
    }

    /// A connection with nothing queued, in this machine's byte order.
    pub fn new(family: Family) -> (connection: Connection<F>)
        ensures
            connection.wf(),
            connection.family() == family,
            connection.incoming().len() == 0,
            connection.outgoing().len() == 0,
            connection.incoming_fds().len() == 0,
            connection.outgoing_fds().len() == 0,
    {
        Connection::with_order(family, ByteOrder::native())
    }

    /// A connection with nothing queued, in the given byte order.
    pub fn with_order(family: Family, order: ByteOrder) -> (connection: Connection<F>)
        ensures
            connection.wf(),
            connection.family() == family,
            connection.order() == order,
            connection.incoming().len() == 0,
            connection.outgoing().len() == 0,
            connection.incoming_fds().len() == 0,
            connection.outgoing_fds().len() == 0,
    {
        Connection {
            family,
            order,
            read_buf: ring_new(),
            write_buf: ring_new(),
            read_fds: VecDeque::new(),
            write_fds: VecDeque::new(),
        }
    }

    /// The protocol family.
    pub fn kind(&self) -> (family: Family)
        ensures
            family == self.family(),
    {
        self.family
    }

    /// The byte order of the numbers in the messages.
    pub fn byte_order(&self) -> (order: ByteOrder)
        ensures
            order == self.order(),
    {
        self.order
    }

    /// The number of bytes queued and not yet sent.
    pub fn unsent(&self) -> (n: usize)
        ensures
            n == self.outgoing().len(),
    {
        ring_len(&self.write_buf)
    }

    /// The number of bytes received and not yet read as messages.
    pub fn unread(&self) -> (n: usize)
        ensures
            n == self.incoming().len(),
    {
        ring_len(&self.read_buf)
    }

    /// Queues a message for `object`: its header and arguments behind the
    /// bytes already queued, its file descriptors behind those already queued.
    /// Nothing is sent. The message is not queued only if the buffer would
    /// have to grow beyond what a `usize` can count; `SAFE_ROOM` bytes are
    /// always within that.
    pub fn write_message(&mut self, object: u64, opcode: u32, args: &[Arg], fds: Vec<F>) -> (queued: bool)
        requires
            old(self).wf(),
            frame_fits(old(self).family(), values_of(args@)),
            old(self).family().holds_object(object),
            old(self).family().holds_opcode(opcode),
        ensures
            final(self).wf(),
            final(self).same_receiving(old(self)),
            queued ==> final(self).outgoing() == old(self).outgoing() + frame_bytes(
                old(self).family(),
                old(self).order(),
                object,
                opcode,
                values_of(args@),
            ) && final(self).outgoing_fds() == old(self).outgoing_fds() + fds@,
            !queued ==> final(self).same_sending(old(self)),
            old(self).outgoing().len() + old(self).family().spec_header_len() + args_len(values_of(args@))
                < SAFE_ROOM ==> queued,
    {
        let frame: Vec<u8> = encode_frame(self.family, self.order, object, opcode, args);
        if !make_room(&mut self.write_buf, frame.len()) {
            return false;
        }
        ring_write(&mut self.write_buf, frame.as_slice());
        queue_all(&mut self.write_fds, fds);
        true
    }

    /// Whether any bytes wait to be sent. Where none do there is nothing to
    /// flush, and no send is to be attempted.
    pub fn wants_flush(&self) -> (wanted: bool)
        ensures
            wanted == (self.outgoing().len() > 0),
    {
        !ring_is_empty(&self.write_buf)
    }

    /// The bytes that wait to be sent, in up to two pieces: the second follows
    /// the first.
    pub fn pending(&self) -> (spans: (&[u8], &[u8]))
        requires
            self.wf(),
        ensures
            spans.0@ + spans.1@ == self.outgoing(),
    {
        let n: usize = ring_len(&self.write_buf);
        let spans = ring_spans(&self.write_buf, n);
        assert(self.outgoing().subrange(0, n as int) =~= self.outgoing());
        spans
    }

    /// The file descriptors that go out with the next send.
    pub fn pending_fds(&self) -> (fds: &VecDeque<F>)
        ensures
            fds@ == self.outgoing_fds(),
    {
        &self.write_fds
    }

    /// Takes note of one attempt to send all of [`Connection::pending`] with
    /// all of [`Connection::pending_fds`]. With nothing to send the report is
    /// ignored and the result is `Ok(true)`. After a send that took `n` bytes
    /// those are no longer queued, nor is any file descriptor, and the result
    /// says whether `n` is positive. After a failed attempt all stays queued
    /// and the error is handed back.
    pub fn flush_nonblocking<E>(&mut self, sent: Result<usize, IoError<E>>) -> (result: Result<bool, IoError<E>>)
        requires
            old(self).wf(),
        ensures
            final(self).wf(),
            final(self).same_receiving(old(self)),
            final(self).family() == old(self).family(),
            final(self).order() == old(self).order(),
            old(self).outgoing().len() == 0 ==> result == Ok::<bool, IoError<E>>(true)
                && final(self).same_sending(old(self)),
            old(self).outgoing().len() > 0 ==> match sent {
                Ok(n) => {
                    &&& result == Ok::<bool, IoError<E>>(n > 0)
                    &&& final(self).outgoing() == old(self).outgoing().skip(
                        if n <= old(self).outgoing().len() {
                            n as int
                        } else {
                            old(self).outgoing().len() as int
                        },
                    )
                    &&& final(self).outgoing_fds().len() == 0
                },
                Err(e) => result == Err::<bool, IoError<E>>(e) && final(self).same_sending(old(self)),
            },
    {
        if ring_is_empty(&self.write_buf) {
            return Ok(true);
        }
        match sent {
            Ok(n) => {
                let held: usize = ring_len(&self.write_buf);
                let taken: usize = if n <= held {
                    n
                } else {
                    held
                };
                ring_advance(&mut self.write_buf, taken);
                self.write_fds.clear();
                assert(self.outgoing() =~= old(self).outgoing().skip(taken as int));
                Ok(n > 0)
            },
            Err(e) => Err(e),
        }
    }

    /// One round of a blocking flush: takes note of one attempt to send, as
    /// [`Connection::flush_nonblocking`] does, and says how to go on. The flush
    /// is done when nothing is left to send; it fails when the socket failed;
    /// else another attempt is due, after waiting for the socket where this
    /// one moved nothing.
    pub fn flush_blocking<E>(&mut self, sent: Result<usize, IoError<E>>) -> (step: Step<E>)
        requires
            old(self).wf(),
        ensures
            final(self).wf(),
            final(self).same_receiving(old(self)),
            final(self).family() == old(self).family(),
            final(self).order() == old(self).order(),
            old(self).outgoing().len() == 0 ==> step == Step::<E>::Done(true) && final(self).same_sending(old(self)),
            old(self).outgoing().len() > 0 ==> match sent {
                Ok(n) => {
                    &&& final(self).outgoing() == old(self).outgoing().skip(
                        if n <= old(self).outgoing().len() {
                            n as int
                        } else {
                            old(self).outgoing().len() as int
                        },
                    )
                    &&& final(self).outgoing_fds().len() == 0
                    &&& step == if final(self).outgoing().len() == 0 {
                        Step::<E>::Done(true)
                    } else if n > 0 {
                        Step::<E>::Retry
                    } else {
                        Step::<E>::Wait
                    }
                },
                Err(IoError::Failed(e)) => step == Step::<E>::Failed(e) && final(self).same_sending(old(self)),
                Err(_) => step == Step::<E>::Wait && final(self).same_sending(old(self)),
            },
    {
        match self.flush_nonblocking(sent) {
            Ok(moved) => {
                if !self.wants_flush() {
                    Step::Done(true)
                } else if moved {
                    Step::Retry
                } else {
                    Step::Wait
                }
            },
            Err(IoError::Failed(e)) => Step::Failed(e),
            Err(_) => Step::Wait,
        }
    }

    /// Takes note of one attempt to receive. What was received is kept behind
    /// what is already there, bytes and file descriptors each in the order in
    /// which they came, and the result says whether any bytes came. After a
    /// failed attempt nothing changes and the error is handed back. The
    /// bytes are not kept, and `Full` comes back, only if the buffer would
    /// have to grow beyond what a `usize` can count.
    pub fn read_nonblocking<E>(&mut self, received: Result<&[u8], IoError<E>>, fds: Vec<F>) -> (result: Result<bool, IoError<E>>)
        requires
            old(self).wf(),
        ensures
            final(self).wf(),
            final(self).same_sending(old(self)),
            match received {
                Ok(bytes) => match result {
                    Ok(any) => {
                        &&& any == (bytes@.len() > 0)
                        &&& final(self).incoming() == old(self).incoming() + bytes@
                        &&& final(self).incoming_fds() == old(self).incoming_fds() + fds@
                    },
                    Err(e) => {
                        &&& e is Full
                        &&& old(self).incoming().len() + bytes@.len() >= SAFE_ROOM
                        &&& final(self).same_receiving(old(self))
                    },
                },
                Err(e) => result == Err::<bool, IoError<E>>(e) && final(self).same_receiving(
                    old(self),
                ),
            },
    {
        match received {
            Ok(bytes) => {
                if !make_room(&mut self.read_buf, bytes.len()) {
                    return Err(IoError::Full);
                }
                ring_write(&mut self.read_buf, bytes);
                queue_all(&mut self.read_fds, fds);
                Ok(bytes.len() > 0)
            },
            Err(e) => Err(e),
        }
    }

    /// One round of a blocking receive: takes note of one attempt, as
    /// [`Connection::read_nonblocking`] does, and says how to go on. It is done
    /// after any attempt that did not fail, it fails when the socket failed or
    /// the buffer is full, and after an attempt on a socket that was not
    /// ready it waits for the socket and tries again.
    pub fn read_blocking<E>(&mut self, received: Result<&[u8], IoError<E>>, fds: Vec<F>) -> (step: Result<Step<E>, IoError<E>>)
        requires
            old(self).wf(),
        ensures
            final(self).wf(),
            final(self).same_sending(old(self)),
            match received {
                Ok(bytes) => match step {
                    Ok(next) => {
                        &&& next == Step::<E>::Done(bytes@.len() > 0)
                        &&& final(self).incoming() == old(self).incoming() + bytes@
                        &&& final(self).incoming_fds() == old(self).incoming_fds() + fds@
                    },
                    Err(e) => {
                        &&& e is Full
                        &&& old(self).incoming().len() + bytes@.len() >= SAFE_ROOM
                        &&& final(self).same_receiving(old(self))
                    },
                },
                Err(IoError::WouldBlock) => step == Ok::<Step<E>, IoError<E>>(Step::Wait)
                    && final(self).same_receiving(old(self)),
                Err(e) => step == Err::<Step<E>, IoError<E>>(e) && final(self).same_receiving(
                    old(self),
                ),
            },
    {
        match self.read_nonblocking(received, fds) {
            Ok(any) => Ok(Step::Done(any)),
            Err(IoError::WouldBlock) => Ok(Step::Wait),
            Err(e) => Err(e),
        }
    }

    /// Takes the oldest received file descriptor, if there is one: file
    /// descriptors are claimed in the order in which they came.
    pub fn claim_fd(&mut self) -> (fd: Option<F>)
        requires
            old(self).wf(),
        ensures
            final(self).wf(),
            final(self).same_sending(old(self)),
            final(self).family() == old(self).family(),
            final(self).order() == old(self).order(),
            final(self).incoming() == old(self).incoming(),
            old(self).incoming_fds().len() == 0 ==> fd is None && final(self).incoming_fds()
                == old(self).incoming_fds(),
            old(self).incoming_fds().len() > 0 ==> fd == Some(old(self).incoming_fds()[0])
                && final(self).incoming_fds() == old(self).incoming_fds().skip(1),
    {
        let fd = self.read_fds.pop_front();
        assert(old(self).incoming_fds().len() > 0 ==> self.incoming_fds() =~= old(self).incoming_fds().skip(1));
        fd
    }

    /// Takes the next whole message off the received bytes. While the header
    /// or the bytes that it declares are not all there, there is no message
    /// yet and nothing is taken. A header that declares less than its own
    /// length is an error, and nothing is taken either.
    pub fn read_message(&mut self) -> (result: Result<Option<Message>, BadFrame>)
        requires
            old(self).wf(),
        ensures
            final(self).wf(),
            final(self).same_sending(old(self)),
            final(self).family() == old(self).family(),
            final(self).order() == old(self).order(),
            final(self).incoming_fds() == old(self).incoming_fds(),
            match next_frame(old(self).family(), old(self).order(), old(self).incoming()) {
                Frame::Incomplete => result == Ok::<Option<Message>, BadFrame>(None)
                    && final(self).incoming() == old(self).incoming(),
                Frame::Malformed { declared } => result == Err::<Option<Message>, BadFrame>(
                    BadFrame { declared },
                ) && final(self).incoming() == old(self).incoming(),
                Frame::Complete { object, opcode, size } => {
                    &&& result is Ok
                    &&& result.unwrap() is Some
                    &&& result.unwrap().unwrap().spec_object() == object
                    &&& result.unwrap().unwrap().spec_opcode() == opcode
                    &&& result.unwrap().unwrap().spec_order() == old(self).order()
                    &&& result.unwrap().unwrap().remaining() == old(self).incoming().subrange(
                        old(self).family().spec_header_len() as int,
                        size as int,
                    )
                    &&& final(self).incoming() == old(self).incoming().skip(size as int)
                },
            },
    {
        let header_len: usize = self.family.header_len();
        let held: usize = ring_len(&self.read_buf);
        if held < header_len {
            return Ok(None);
        }
        let head: Vec<u8> = ring_peek(&self.read_buf, header_len);
        let ghost b = self.incoming();
        let object: u64;
        let size: u32;
        let opcode: u32;
        match self.family {
            Family::Narrow => {
                assert(head@.subrange(0, 4) =~= b.subrange(0, 4));
                assert(head@.subrange(4, 8) =~= b.subrange(4, 8));
                let word: u32 = get_u32(head.as_slice(), 4, self.order);
                object = get_u32(head.as_slice(), 0, self.order) as u64;
                size = word / 65536;
                opcode = word % 65536;
            },
            Family::Wide => {
                assert(head@.subrange(0, 8) =~= b.subrange(0, 8));
                assert(head@.subrange(8, 12) =~= b.subrange(8, 12));
                assert(head@.subrange(12, 16) =~= b.subrange(12, 16));
                object = get_u64(head.as_slice(), 0, self.order);
                size = get_u32(head.as_slice(), 8, self.order);
                opcode = get_u32(head.as_slice(), 12, self.order);
            },
        }
        if (size as usize) < header_len {
            return Err(BadFrame { declared: size });
        }
        if held < size as usize {
            return Ok(None);
        }
        let spans = ring_spans(&self.read_buf, size as usize);
        let mut data = SplitSlice { first: spans.0, second: spans.1 };
        data.advance(header_len);
        let payload: Vec<u8> = data.read(size as usize - header_len);
        assert(payload@ =~= b.subrange(header_len as int, size as int));
        let message = Message::new(object, opcode, self.order, payload);
        ring_advance(&mut self.read_buf, size as usize);
        assert(self.incoming() =~= b.skip(size as int));
        Ok(Some(message))
    }
}

/// Grows `ring` until `n` more bytes fit. It fails, leaving the bytes as they
/// are, only if the ring cannot grow further.
fn make_room(ring: &mut CircBuf, n: usize) -> (enough: bool)
    requires
        ring_room(*old(ring)) > 0,
    ensures
        ring_bytes(*final(ring)) == ring_bytes(*old(ring)),
        ring_room(*final(ring)) > 0,
        enough ==> ring_bytes(*final(ring)).len() + n + 1 <= ring_room(*final(ring)),
        ring_bytes(*old(ring)).len() + n < SAFE_ROOM ==> enough,
{
    let mut avail: usize = ring_avail(ring);
    loop
        invariant
            ring_bytes(*ring) == ring_bytes(*old(ring)),
            ring_room(*ring) > 0,
            ring_bytes(*ring).len() + avail + 1 == ring_room(*ring),
        decreases
                (if avail < n {
                    n - avail
                } else {
                    0
                }),
    {
        if avail >= n {
            return true;
        }
        if !ring_grow(ring) {
            return false;
        }
        avail = ring_avail(ring);
    }
}

/// The header of a message gives back the handle, the length and the opcode
/// that went into it.
pub proof fn lemma_header_fields(family: Family, order: ByteOrder, object: u64, size: u32, opcode: u32, rest: Seq<u8>)
    requires
        family.holds_object(object),
        family.holds_opcode(opcode),
        size < family.spec_limit(),
    ensures
        header_bytes(family, order, object, size, opcode).len() == family.spec_header_len(),
        header_fields(family, order, header_bytes(family, order, object, size, opcode) + rest) == (
            object,
            size,
            opcode,
        ),
{
    let header = header_bytes(family, order, object, size, opcode);
    let b = header + rest;
    match family {
        Family::Narrow => {
            let word = (size as int * 65536 + opcode as int) as u32;
            lemma_bytes32_roundtrip(order, object as u32);
            lemma_bytes32_roundtrip(order, word);
            assert(b.subrange(0, 4) =~= bytes32(order, object as u32));
            assert(b.subrange(4, 8) =~= bytes32(order, word));
        },
        Family::Wide => {
            lemma_bytes64_roundtrip(order, object);
            lemma_bytes32_roundtrip(order, size);
            lemma_bytes32_roundtrip(order, opcode);
            assert(b.subrange(0, 8) =~= bytes64(order, object));
            assert(b.subrange(8, 12) =~= bytes32(order, size));
            assert(b.subrange(12, 16) =~= bytes32(order, opcode));
        },
    }
}

/// A whole message at the front of the received bytes is found as such, with
/// the handle and opcode it was written with, and its argument bytes are
/// those behind the header.
pub proof fn lemma_whole_frame(family: Family, order: ByteOrder, object: u64, opcode: u32, args: Seq<ArgValue>, rest: Seq<u8>)
    requires
        frame_fits(family, args),
        family.holds_object(object),
        family.holds_opcode(opcode),
    ensures
        frame_bytes(family, order, object, opcode, args).len() == family.spec_header_len()
            + args_len(args),
        next_frame(family, order, frame_bytes(family, order, object, opcode, args) + rest)
            == (Frame::Complete {
            object,
            opcode,
            size: (family.spec_header_len() + args_len(args)) as u32,
        }),
        (frame_bytes(family, order, object, opcode, args) + rest).subrange(
            family.spec_header_len() as int,
            family.spec_header_len() + args_len(args),
        ) == args_bytes(order, args),
{
    let size = (family.spec_header_len() + args_len(args)) as u32;
    let header = header_bytes(family, order, object, size, opcode);
    let body = args_bytes(order, args);
    lemma_args_len(order, args);
    lemma_header_fields(family, order, object, size, opcode, body + rest);
    let all = frame_bytes(family, order, object, opcode, args) + rest;
    assert(all =~= header + (body + rest));
    assert(all.subrange(family.spec_header_len() as int, family.spec_header_len() + args_len(args))
        =~= body);
}

/// While any byte of a message is still missing there is no whole message:
/// every proper prefix of a message is incomplete.
pub proof fn lemma_partial_frame(family: Family, order: ByteOrder, object: u64, opcode: u32, args: Seq<ArgValue>, k: int)
    requires
        frame_fits(family, args),
        family.holds_object(object),
        family.holds_opcode(opcode),
        0 <= k < family.spec_header_len() + args_len(args),
    ensures
        next_frame(family, order, frame_bytes(family, order, object, opcode, args).take(k))
            == Frame::Incomplete,
{
    let size = (family.spec_header_len() + args_len(args)) as u32;
    let header = header_bytes(family, order, object, size, opcode);
    let body = args_bytes(order, args);
    lemma_args_len(order, args);
    lemma_header_fields(family, order, object, size, opcode, body + Seq::<u8>::empty());
    let frame = frame_bytes(family, order, object, opcode, args);
    if k >= family.spec_header_len() {
        let cut = frame.take(k);
        let tail = cut.skip(family.spec_header_len() as int);
        assert(cut =~= header + tail);
        lemma_header_fields(family, order, object, size, opcode, tail);
    }
}

} // verus!
