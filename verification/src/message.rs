//! A received message and the reading of its arguments, one after another.

use crate::endian::{
    bits_of_i32, bits_of_i64, bytes32, bytes64, get_u32, get_u64, i32_from_bits, i32_of_bits, i64_from_bits,
    i64_of_bits, lemma_bytes32_roundtrip, lemma_bytes64_roundtrip, lemma_signed_roundtrip,
    round_up_4, value32, value64, ByteOrder,
};
use crate::connection::Connection;
use crate::wire::{array_bytes, string_bytes, zeros, ArgValue, Fixed};
use vstd::prelude::*;
use vstd::slice::slice_subrange;
use vstd::utf8::{decode_utf8, encode_utf8, valid_utf8};

verus! {

/// `String::from_utf8`: the text that the bytes encode, if they are valid
/// UTF-8, and nothing if they are not.
#[verifier::external_body]
pub(crate) fn string_from_utf8(bytes: Vec<u8>) -> (text: Option<String>)
    ensures
        text is Some <==> valid_utf8(bytes@),
        text is Some ==> text.unwrap()@ == decode_utf8(bytes@),
{
    String::from_utf8(bytes).ok()
}

/// Bytes that lie in up to two pieces, as a ring buffer hands them out.
#[derive(Debug)]
pub struct SplitSlice<'a> {
    pub first: &'a [u8],
    pub second: &'a [u8],
}

impl<'a> View for SplitSlice<'a> {
    type V = Seq<u8>;

    open spec fn view(&self) -> Seq<u8> {
        self.first@ + self.second@
    }
}

impl<'a> SplitSlice<'a> {
    /// The number of bytes in both pieces, capped at what a `usize` holds.
    pub fn len(&self) -> (n: usize)
        ensures
            self@.len() <= usize::MAX ==> n == self@.len(),
            self@.len() > usize::MAX ==> n == usize::MAX,
    {
        self.first.len().saturating_add(self.second.len())
    }

    /// Drops the first `n` bytes.
    pub fn advance(&mut self, n: usize)
        requires
            n <= old(self)@.len(),
        ensures
            final(self)@ == old(self)@.skip(n as int),
    {
        let first_len: usize = self.first.len();
        if n > first_len {
            self.second = slice_subrange(self.second, n - first_len, self.second.len());
            self.first = slice_subrange(self.first, first_len, first_len);
        } else {
            self.first = slice_subrange(self.first, n, first_len);
        }
        assert(self@ =~= old(self)@.skip(n as int));
    }

    /// Takes the first `n` bytes out, or all of them if there are fewer.
    pub fn read(&mut self, n: usize) -> (taken: Vec<u8>)
        ensures
            n <= old(self)@.len() ==> taken@ == old(self)@.take(n as int) && final(self)@ == old(self)@.skip(n as int),
            n > old(self)@.len() ==> taken@ == old(self)@ && final(self)@.len() == 0,
    {
        let first_len: usize = self.first.len();
        let second_len: usize = self.second.len();
        let mut taken: Vec<u8> = Vec::new();
        if n <= first_len {
            crate::wire::put_bytes(&mut taken, slice_subrange(self.first, 0, n));
            self.first = slice_subrange(self.first, n, first_len);
            assert(taken@ =~= old(self)@.take(n as int));
            assert(self@ =~= old(self)@.skip(n as int));
        } else {
            let rest: usize = if n - first_len < second_len {
                n - first_len
            } else {
                second_len
            };
            crate::wire::put_bytes(&mut taken, self.first);
            crate::wire::put_bytes(&mut taken, slice_subrange(self.second, 0, rest));
            self.first = slice_subrange(self.first, first_len, first_len);
            self.second = slice_subrange(self.second, rest, second_len);
            proof {
                if n <= old(self)@.len() {
                    assert(taken@ =~= old(self)@.take(n as int));
                    assert(self@ =~= old(self)@.skip(n as int));
                } else {
                    assert(taken@ =~= old(self)@);
                }
            }
        }
        taken
    }
}

/// The 32-bit number at the front of `b`, if four bytes are there.
pub open spec fn take32(order: ByteOrder, b: Seq<u8>) -> Option<u32> {
    if b.len() >= 4 {
        Some(value32(order, b.subrange(0, 4)))
    } else {
        None
    }
}

/// The 64-bit number at the front of `b`, if eight bytes are there.
pub open spec fn take64(order: ByteOrder, b: Seq<u8>) -> Option<u64> {
    if b.len() >= 8 {
        Some(value64(order, b.subrange(0, 8)))
    } else {
        None
    }
}

/// The byte array at the front of `b` and the number of bytes that it takes
/// there, padding included; nothing if `b` is shorter than it declares.
pub open spec fn take_array(order: ByteOrder, b: Seq<u8>) -> Option<(Seq<u8>, int)> {
    match take32(order, b) {
        None => None,
        Some(n) => if b.len() < 4 + round_up_4(n as int) {
            None
        } else {
            Some((b.subrange(4, 4 + n), 4 + round_up_4(n as int)))
        },
    }
}

/// The string at the front of `b` and the number of bytes that it takes there,
/// padding included. The declared length counts one byte that ends the text;
/// the length zero is the null string. Nothing if `b` is shorter than it
/// declares, or if the text is not valid UTF-8.
pub open spec fn take_string(order: ByteOrder, b: Seq<u8>) -> Option<(Option<Seq<char>>, int)> {
    match take32(order, b) {
        None => None,
        Some(n) => if n == 0 {
            Some((None, 4))
        } else if b.len() < 4 + round_up_4(n as int) {
            None
        } else if !valid_utf8(b.subrange(4, 4 + n - 1)) {
            None
        } else {
            Some((Some(decode_utf8(b.subrange(4, 4 + n - 1))), 4 + round_up_4(n as int)))
        },
    }
}

/// A message taken off the wire: the handle of the object it is for, its
/// opcode, and the bytes of its arguments, of which a front part may have been
/// read already.
#[derive(Debug)]
pub struct Message {
    object: u64,
    opcode: u32,
    order: ByteOrder,
    data: Vec<u8>,
    at: usize,
}

impl Message {
    #[verifier::type_invariant]
    spec fn read_position_is_inside(self) -> bool {
        self.at <= self.data@.len()
    }

    /// The argument bytes that were not read yet.
    pub closed spec fn remaining(&self) -> Seq<u8> {
        self.data@.skip(self.at as int)
    }

    /// The handle of the object that the message is for.
    pub closed spec fn spec_object(&self) -> u64 {
        self.object
    }

    /// The opcode of the message.
    pub closed spec fn spec_opcode(&self) -> u32 {
        self.opcode
    }

    /// The byte order of the numbers among the arguments.
    pub closed spec fn spec_order(&self) -> ByteOrder {
        self.order
    }

    /// The message after `n` more bytes were read: all else is as before.
    pub open spec fn is_after(&self, before: &Message, n: int) -> bool {
        &&& self.spec_object() == before.spec_object()
        &&& self.spec_opcode() == before.spec_opcode()
        &&& self.spec_order() == before.spec_order()
        &&& 0 <= n <= before.remaining().len()
        &&& self.remaining() == before.remaining().skip(n)
    }

    /// A message for `object` with the argument bytes `data`, none read yet.
    pub fn new(object: u64, opcode: u32, order: ByteOrder, data: Vec<u8>) -> (message: Message)
        ensures
            message.spec_object() == object,
            message.spec_opcode() == opcode,
            message.spec_order() == order,
            message.remaining() == data@,
    {
        Message { object, opcode, order, data, at: 0 }
    }

    /// The handle of the object that the message is for.
    pub fn object(&self) -> (object: u64)
        ensures
            object == self.spec_object(),
    {
        self.object
    }

    /// The opcode of the message.
    pub fn opcode(&self) -> (opcode: u32)
        ensures
            opcode == self.spec_opcode(),
    {
        self.opcode
    }

    /// The number of argument bytes that were not read yet.
    pub fn unread(&self) -> (n: usize)
        ensures
            n == self.remaining().len(),
    {
        proof {
            use_type_invariant(self);
        }
        self.data.len() - self.at
    }

    /// Reads an unsigned 32-bit number. With fewer than four bytes left it
    /// reads nothing.
    pub fn read_uint32(&mut self) -> (value: Option<u32>)
        ensures
            value == take32(old(self).spec_order(), old(self).remaining()),
            value is Some ==> final(self).is_after(old(self), 4),
            value is None ==> final(self).is_after(old(self), 0),
    {
        proof {
            use_type_invariant(&*self);
        }
        let total: usize = self.data.len();
        if self.unread() < 4 {
            assert(self.remaining().skip(0) =~= self.remaining());
            return None;
        }
        assert(self.remaining().subrange(0, 4) =~= self.data@.subrange(
            self.at as int,
            self.at + 4,
        ));
        let value: u32 = get_u32(self.data.as_slice(), self.at, self.order);
        self.at = self.at + 4;
        assert(self.remaining() =~= old(self).remaining().skip(4));
        Some(value)
    }

    /// Reads an unsigned 64-bit number. With fewer than eight bytes left it
    /// reads nothing.
    pub fn read_uint64(&mut self) -> (value: Option<u64>)
        ensures
            value == take64(old(self).spec_order(), old(self).remaining()),
            value is Some ==> final(self).is_after(old(self), 8),
            value is None ==> final(self).is_after(old(self), 0),
    {
        proof {
            use_type_invariant(&*self);
        }
        let total: usize = self.data.len();
        if self.unread() < 8 {
            assert(self.remaining().skip(0) =~= self.remaining());
            return None;
        }
        assert(self.remaining().subrange(0, 8) =~= self.data@.subrange(
            self.at as int,
            self.at + 8,
        ));
        let value: u64 = get_u64(self.data.as_slice(), self.at, self.order);
        self.at = self.at + 8;
        assert(self.remaining() =~= old(self).remaining().skip(8));
        Some(value)
    }

    /// Reads a signed 32-bit number.
    pub fn read_int32(&mut self) -> (value: Option<i32>)
        ensures
            value == match take32(old(self).spec_order(), old(self).remaining()) {
                Some(bits) => Some(i32_of_bits(bits)),
                None => None,
            },
            value is Some ==> final(self).is_after(old(self), 4),
            value is None ==> final(self).is_after(old(self), 0),
    {
        match self.read_uint32() {
            Some(bits) => Some(i32_from_bits(bits)),
            None => None,
        }
    }

    /// Reads a signed 64-bit number.
    pub fn read_int64(&mut self) -> (value: Option<i64>)
        ensures
            value == match take64(old(self).spec_order(), old(self).remaining()) {
                Some(bits) => Some(i64_of_bits(bits)),
                None => None,
            },
            value is Some ==> final(self).is_after(old(self), 8),
            value is None ==> final(self).is_after(old(self), 0),
    {
        match self.read_uint64() {
            Some(bits) => Some(i64_from_bits(bits)),
            None => None,
        }
    }

    /// Reads an unsigned 32-bit number, under the name that the narrow family
    /// has for it.
    pub fn read_uint(&mut self) -> (value: Option<u32>)
        ensures
            value == take32(old(self).spec_order(), old(self).remaining()),
            value is Some ==> final(self).is_after(old(self), 4),
            value is None ==> final(self).is_after(old(self), 0),
    {
        self.read_uint32()
    }

    /// Reads a signed 32-bit number, under the name that the narrow family has
    /// for it.
    pub fn read_int(&mut self) -> (value: Option<i32>)
        ensures
            value == match take32(old(self).spec_order(), old(self).remaining()) {
                Some(bits) => Some(i32_of_bits(bits)),
                None => None,
            },
            value is Some ==> final(self).is_after(old(self), 4),
            value is None ==> final(self).is_after(old(self), 0),
    {
        self.read_int32()
    }

    /// Reads the bits of an IEEE 754 single.
    pub fn read_float(&mut self) -> (bits: Option<u32>)
        ensures
            bits == take32(old(self).spec_order(), old(self).remaining()),
            bits is Some ==> final(self).is_after(old(self), 4),
            bits is None ==> final(self).is_after(old(self), 0),
    {
        self.read_uint32()
    }

    /// Reads a fixed-point number.
    pub fn read_fixed(&mut self) -> (value: Option<Fixed>)
        ensures
            value == match take32(old(self).spec_order(), old(self).remaining()) {
                Some(bits) => Some(Fixed(i32_of_bits(bits))),
                None => None,
            },
            value is Some ==> final(self).is_after(old(self), 4),
            value is None ==> final(self).is_after(old(self), 0),
    {
        match self.read_int32() {
            Some(raw) => Some(Fixed(raw)),
            None => None,
        }
    }

    /// Copies `n` bytes from `from` bytes behind the read position.
    fn copy_out(&self, from: usize, n: usize) -> (bytes: Vec<u8>)
        requires
            from + n <= self.remaining().len(),
        ensures
            bytes@ == self.remaining().subrange(from as int, from + n),
    {
        proof {
            use_type_invariant(self);
        }
        let total: usize = self.data.len();
        let mut bytes: Vec<u8> = Vec::new();
        crate::wire::put_bytes(
            &mut bytes,
            slice_subrange(self.data.as_slice(), self.at + from, self.at + from + n),
        );
        assert(bytes@ =~= self.remaining().subrange(from as int, from + n));
        bytes
    }

    /// Reads a byte array. Where the message is shorter than the array says it
    /// is, nothing is read.
    pub fn read_array(&mut self) -> (array: Option<Vec<u8>>)
        ensures
            match take_array(old(self).spec_order(), old(self).remaining()) {
                Some((content, used)) => array is Some && array.unwrap()@ == content && final(self).is_after(old(self), used),
                None => array is None && final(self).is_after(old(self), 0),
            },
    {
        proof {
            use_type_invariant(&*self);
        }
        let total: usize = self.data.len();
        assert(self.remaining().skip(0) =~= self.remaining());
        let left: usize = self.unread();
        if left < 4 {
            return None;
        }
        assert(self.remaining().subrange(0, 4) =~= self.data@.subrange(
            self.at as int,
            self.at + 4,
        ));
        let n: u32 = get_u32(self.data.as_slice(), self.at, self.order);
        let padded: u64 = (n as u64 + 3) / 4 * 4;
        if ((left - 4) as u64) < padded {
            return None;
        }
        let content: Vec<u8> = self.copy_out(4, n as usize);
        self.at = self.at + 4 + padded as usize;
        assert(self.remaining() =~= old(self).remaining().skip(4 + padded));
        Some(content)
    }

    /// Takes the file descriptor that belongs to the next argument of the
    /// message: the oldest one that came on the connection and was not
    /// claimed. File descriptors come in the order of the messages that carry
    /// them, and within a message in the order of its arguments, so reading
    /// the messages in their order claims each where it belongs.
    pub fn read_fd<F>(&mut self, conn: &mut Connection<F>) -> (fd: Option<F>)
        requires
            old(conn).wf(),
        ensures
            final(self).is_after(old(self), 0),
            final(conn).wf(),
            final(conn).same_sending(old(conn)),
            final(conn).family() == old(conn).family(),
            final(conn).order() == old(conn).order(),
            final(conn).incoming() == old(conn).incoming(),
            old(conn).incoming_fds().len() == 0 ==> fd is None && final(conn).incoming_fds()
                == old(conn).incoming_fds(),
            old(conn).incoming_fds().len() > 0 ==> fd == Some(old(conn).incoming_fds()[0])
                && final(conn).incoming_fds() == old(conn).incoming_fds().skip(1),
    {
        assert(self.remaining().skip(0) =~= self.remaining());
        conn.claim_fd()
    }

    /// Whether a null string is next: four bytes that are the number zero.
    pub fn peek_string_is_null(&self) -> (null: bool)
        ensures
            null == (take_string(self.spec_order(), self.remaining()) matches Some((None, _))),
    {
        proof {
            use_type_invariant(self);
        }
        let total: usize = self.data.len();
        if self.unread() < 4 {
            return false;
        }
        assert(self.remaining().subrange(0, 4) =~= self.data@.subrange(
            self.at as int,
            self.at + 4,
        ));
        get_u32(self.data.as_slice(), self.at, self.order) == 0
    }

    /// Reads a string; the inner `None` is the null string. Where the message
    /// is shorter than the string says it is, or the text is not UTF-8,
    /// nothing is read.
    pub fn read_string(&mut self) -> (text: Option<Option<String>>)
        ensures
            match take_string(old(self).spec_order(), old(self).remaining()) {
                Some((Some(chars), used)) => text is Some && text.unwrap() is Some
                    && text.unwrap().unwrap()@ == chars && final(self).is_after(old(self), used),
                Some((None, used)) => text == Some(None::<String>) && final(self).is_after(
                    old(self),
                    used,
                ),
                None => text is None && final(self).is_after(old(self), 0),
            },
    {
        proof {
            use_type_invariant(&*self);
        }
        let total: usize = self.data.len();
        assert(self.remaining().skip(0) =~= self.remaining());
        let left: usize = self.unread();
        if left < 4 {
            return None;
        }
        assert(self.remaining().subrange(0, 4) =~= self.data@.subrange(
            self.at as int,
            self.at + 4,
        ));
        let n: u32 = get_u32(self.data.as_slice(), self.at, self.order);
        if n == 0 {
            self.at = self.at + 4;
            assert(self.remaining() =~= old(self).remaining().skip(4));
            return Some(None);
        }
        let padded: u64 = (n as u64 + 3) / 4 * 4;
        if ((left - 4) as u64) < padded {
            return None;
        }
        let raw: Vec<u8> = self.copy_out(4, (n - 1) as usize);
        match string_from_utf8(raw) {
            None => None,
            Some(text) => {
                self.at = self.at + 4 + padded as usize;
                assert(self.remaining() =~= old(self).remaining().skip(4 + padded));
                Some(Some(text))
            },
        }
    }
}

/// Reading back a 32-bit number gives the number that was written, whatever
/// follows it.
pub proof fn lemma_read_back_32(order: ByteOrder, value: u32, rest: Seq<u8>)
    ensures
        take32(order, bytes32(order, value) + rest) == Some(value),
        bytes32(order, value).len() == 4,
{
    lemma_bytes32_roundtrip(order, value);
    assert((bytes32(order, value) + rest).subrange(0, 4) =~= bytes32(order, value));
}

/// Reading back a 64-bit number gives the number that was written, whatever
/// follows it.
pub proof fn lemma_read_back_64(order: ByteOrder, value: u64, rest: Seq<u8>)
    ensures
        take64(order, bytes64(order, value) + rest) == Some(value),
        bytes64(order, value).len() == 8,
{
    lemma_bytes64_roundtrip(order, value);
    assert((bytes64(order, value) + rest).subrange(0, 8) =~= bytes64(order, value));
}

/// A byte array of `n` bytes takes `4 + round_up_4(n)` bytes on the wire, and
/// reading it back uses up exactly those and gives the same bytes.
pub proof fn lemma_read_back_array(order: ByteOrder, content: Seq<u8>, rest: Seq<u8>)
    requires
        content.len() <= u32::MAX,
    ensures
        array_bytes(order, content).len() == 4 + round_up_4(content.len() as int),
        take_array(order, array_bytes(order, content) + rest) == Some(
            (content, 4 + round_up_4(content.len() as int)),
        ),
{
    let n = content.len() as u32;
    let pad = zeros(round_up_4(content.len() as int) - content.len());
    let all = array_bytes(order, content) + rest;
    lemma_bytes32_roundtrip(order, n);
    assert(all =~= bytes32(order, n) + (content + pad + rest));
    lemma_read_back_32(order, n, content + pad + rest);
    assert(all.subrange(4, 4 + n) =~= content);
}

/// A string of `n` UTF-8 bytes takes `4 + round_up_4(n + 1)` bytes on the
/// wire, the null string takes four, and reading either back uses up exactly
/// those and gives the same string.
pub proof fn lemma_read_back_string(order: ByteOrder, text: Option<Seq<char>>, rest: Seq<u8>)
    requires
        text is Some ==> encode_utf8(text.unwrap()).len() < u32::MAX,
    ensures
        string_bytes(order, text).len() == match text {
            Some(chars) => 4 + round_up_4(encode_utf8(chars).len() as int + 1),
            None => 4,
        },
        take_string(order, string_bytes(order, text) + rest) == Some(
            (text, string_bytes(order, text).len() as int),
        ),
{
    match text {
        None => {
            lemma_read_back_32(order, 0, rest);
        },
        Some(chars) => {
            let raw = encode_utf8(chars);
            let n = (raw.len() + 1) as u32;
            let pad = zeros(round_up_4(raw.len() as int + 1) - raw.len());
            let all = string_bytes(order, text) + rest;
            lemma_bytes32_roundtrip(order, n);
            assert(all =~= bytes32(order, n) + (raw + pad + rest));
            lemma_read_back_32(order, n, raw + pad + rest);
            assert(all.subrange(4, 4 + n - 1) =~= raw);
            vstd::utf8::encode_utf8_valid_utf8(chars);
            vstd::utf8::encode_utf8_decode_utf8(chars);
        },
    }
}

/// What reading an argument of the same kind as `arg` finds at the front of
/// `b`: the argument read and the number of bytes used.
pub open spec fn take_like(order: ByteOrder, arg: ArgValue, b: Seq<u8>) -> Option<(ArgValue, int)> {
    match arg {
        ArgValue::Int32(_) => match take32(order, b) {
            Some(bits) => Some((ArgValue::Int32(i32_of_bits(bits)), 4)),
            None => None,
        },
        ArgValue::Uint32(_) => match take32(order, b) {
            Some(bits) => Some((ArgValue::Uint32(bits), 4)),
            None => None,
        },
        ArgValue::Int64(_) => match take64(order, b) {
            Some(bits) => Some((ArgValue::Int64(i64_of_bits(bits)), 8)),
            None => None,
        },
        ArgValue::Uint64(_) => match take64(order, b) {
            Some(bits) => Some((ArgValue::Uint64(bits), 8)),
            None => None,
        },
        ArgValue::Float(_) => match take32(order, b) {
            Some(bits) => Some((ArgValue::Float(bits), 4)),
            None => None,
        },
        ArgValue::Fixed(_) => match take32(order, b) {
            Some(bits) => Some((ArgValue::Fixed(Fixed(i32_of_bits(bits))), 4)),
            None => None,
        },
        ArgValue::Array(_) => match take_array(order, b) {
            Some((content, used)) => Some((ArgValue::Array(content), used)),
            None => None,
        },
        ArgValue::String(_) => match take_string(order, b) {
            Some((text, used)) => Some((ArgValue::String(text), used)),
            None => None,
        },
    }
}

/// Every argument that fits its length word reads back as itself: reading an
/// argument of its kind from its bytes, whatever follows them, gives what it
/// holds and uses up exactly its bytes.
pub proof fn lemma_read_back_arg(order: ByteOrder, arg: ArgValue, rest: Seq<u8>)
    requires
        arg.fits(),
    ensures
        take_like(order, arg, arg.bytes(order) + rest) == Some((arg, arg.wire_len())),
        arg.bytes(order).len() == arg.wire_len(),
{
    crate::wire::lemma_value_len(order, arg);
    match arg {
        ArgValue::Int32(v) => {
            lemma_read_back_32(order, bits_of_i32(v), rest);
            lemma_signed_roundtrip(v, 0);
        },
        ArgValue::Uint32(v) => lemma_read_back_32(order, v, rest),
        ArgValue::Int64(v) => {
            lemma_read_back_64(order, bits_of_i64(v), rest);
            lemma_signed_roundtrip(0, v);
        },
        ArgValue::Uint64(v) => lemma_read_back_64(order, v, rest),
        ArgValue::Float(bits) => lemma_read_back_32(order, bits, rest),
        ArgValue::Fixed(f) => {
            lemma_read_back_32(order, bits_of_i32(f.0), rest);
            lemma_signed_roundtrip(f.0, 0);
        },
        ArgValue::Array(a) => lemma_read_back_array(order, a, rest),
        ArgValue::String(text) => lemma_read_back_string(order, text, rest),
    }
}

} // verus!
