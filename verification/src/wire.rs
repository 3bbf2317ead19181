//! The wire layout of a message: a header, then the arguments one after
//! another, each a multiple of four bytes long.

use crate::endian::{
    bits_of_i32, bits_of_i64, bytes32, bytes64, i32_to_bits, i64_to_bits,
    lemma_bytes32_roundtrip, lemma_bytes64_roundtrip, put_u32, put_u64, round_up_4, ByteOrder,
};
use vstd::prelude::*;

verus! {

/// The two protocol families. They share the argument layout and differ in the
/// width of object handles and of the header fields.
#[derive(Clone, Copy, Debug, PartialEq, Eq, Structural)]
pub enum Family {
    /// 32-bit handles; length and opcode share one header word.
    Narrow,
    /// 64-bit handles; length and opcode have a word each.
    Wide,
}

/// The first total length that a narrow message cannot have.
pub const NARROW_LIMIT: usize = 0xffff;

/// The first total length that a wide message cannot have.
pub const WIDE_LIMIT: usize = 0xffff_ffff;

impl Family {
    /// The number of bytes of the header.
    pub open spec fn spec_header_len(self) -> nat {
        match self {
            Family::Narrow => 8,
            Family::Wide => 16,
        }
    }

    /// The number of bytes of the header.
    pub fn header_len(self) -> (n: usize)
        ensures
            n == self.spec_header_len(),
    {
        match self {
            Family::Narrow => 8,
            Family::Wide => 16,
        }
    }

    /// The first total length, header included, that a message cannot have.
    pub open spec fn spec_limit(self) -> nat {
        match self {
            Family::Narrow => NARROW_LIMIT as nat,
            Family::Wide => WIDE_LIMIT as nat,
        }
    }

    /// Whether a handle fits the family's handle width.
    pub open spec fn holds_object(self, object: u64) -> bool {
        self == Family::Narrow ==> object <= u32::MAX
    }

    /// Whether an opcode fits the family's opcode width.
    pub open spec fn holds_opcode(self, opcode: u32) -> bool {
        self == Family::Narrow ==> opcode <= u16::MAX
    }
}

/// A signed fixed-point number with eight fractional bits: the number is the
/// field divided by 256.
#[derive(Clone, Copy, Debug, PartialEq, Eq, Structural)]
pub struct Fixed(pub i32);

impl Fixed {
    /// Whether a whole number has a fixed-point number: 256 times it is
    /// still an `i32`.
    pub open spec fn accepts(value: i32) -> bool {
        i32::MIN <= value * 256 <= i32::MAX
    }

    /// The fixed-point number that stands for a whole number.
    pub fn from_int(value: i32) -> (fixed: Fixed)
        requires
            Fixed::accepts(value),
        ensures
            fixed.0 == value * 256,
    {
        Fixed(value * 256)
    }

    /// The whole part of the number, rounded down.
    pub fn floor(self) -> (whole: i32)
        ensures
            whole * 256 <= self.0 < (whole + 1) * 256,
    {
        if self.0 >= 0 {
            self.0 / 256
        } else {
            -((-(self.0 as i64) + 255) / 256) as i32
        }
    }
}

/// One argument of a message as it goes on the wire. File descriptors are not
/// among them: they travel beside the bytes.
#[derive(Clone, Copy, Debug)]
pub enum Arg<'a> {
    Int32(i32),
    Uint32(u32),
    Int64(i64),
    Uint64(u64),
    /// The bits of an IEEE 754 single.
    Float(u32),
    Fixed(Fixed),
    Array(&'a [u8]),
    /// `None` is the null string.
    String(Option<&'a str>),
}

/// `n` zero bytes.
pub open spec fn zeros(n: int) -> Seq<u8> {
    Seq::new(if n >= 0 { n as nat } else { 0 }, |i: int| 0u8)
}

/// The layout of a byte array: its length, the bytes, and zeros up to the next
/// multiple of four.
pub open spec fn array_bytes(order: ByteOrder, content: Seq<u8>) -> Seq<u8> {
    bytes32(order, content.len() as u32) + content + zeros(
        round_up_4(content.len() as int) - content.len(),
    )
}

/// The layout of a string: the null string is the length zero alone; any other
/// is its UTF-8 length plus one, the UTF-8 bytes, a zero that ends them, and
/// zeros up to the next multiple of four.
pub open spec fn string_bytes(order: ByteOrder, text: Option<Seq<char>>) -> Seq<u8> {
    match text {
        None => bytes32(order, 0),
        Some(chars) => {
            let raw = vstd::utf8::encode_utf8(chars);
            bytes32(order, (raw.len() + 1) as u32) + raw + zeros(
                round_up_4(raw.len() as int + 1) - raw.len(),
            )
        },
    }
}

/// The number of bytes that a byte array of `n` bytes takes on the wire.
pub open spec fn array_len(n: int) -> int {
    4 + round_up_4(n)
}

/// The number of bytes that a string takes on the wire, by its UTF-8 length.
pub open spec fn string_len(n: Option<int>) -> int {
    match n {
        None => 4,
        Some(n) => 4 + round_up_4(n + 1),
    }
}

/// What an argument holds, apart from where its bytes are stored.
pub enum ArgValue {
    Int32(i32),
    Uint32(u32),
    Int64(i64),
    Uint64(u64),
    Float(u32),
    Fixed(Fixed),
    Array(Seq<u8>),
    String(Option<Seq<char>>),
}

impl ArgValue {
    /// The bytes of the argument on the wire.
    pub open spec fn bytes(self, order: ByteOrder) -> Seq<u8> {
        match self {
            ArgValue::Int32(v) => bytes32(order, bits_of_i32(v)),
            ArgValue::Uint32(v) => bytes32(order, v),
            ArgValue::Int64(v) => bytes64(order, bits_of_i64(v)),
            ArgValue::Uint64(v) => bytes64(order, v),
            ArgValue::Float(bits) => bytes32(order, bits),
            ArgValue::Fixed(f) => bytes32(order, bits_of_i32(f.0)),
            ArgValue::Array(a) => array_bytes(order, a),
            ArgValue::String(text) => string_bytes(order, text),
        }
    }

    /// The number of bytes of the argument on the wire.
    pub open spec fn wire_len(self) -> int {
        match self {
            ArgValue::Int32(_) | ArgValue::Uint32(_) | ArgValue::Float(_) | ArgValue::Fixed(_) => 4,
            ArgValue::Int64(_) | ArgValue::Uint64(_) => 8,
            ArgValue::Array(a) => array_len(a.len() as int),
            ArgValue::String(None) => string_len(None),
            ArgValue::String(Some(s)) => string_len(Some(vstd::utf8::encode_utf8(s).len() as int)),
        }
    }

    /// Whether the length word of the argument can hold its length.
    pub open spec fn fits(self) -> bool {
        self.wire_len() <= u32::MAX
    }
}

impl<'a> Arg<'a> {
    /// What the argument holds.
    pub open spec fn value(self) -> ArgValue {
        match self {
            Arg::Int32(v) => ArgValue::Int32(v),
            Arg::Uint32(v) => ArgValue::Uint32(v),
            Arg::Int64(v) => ArgValue::Int64(v),
            Arg::Uint64(v) => ArgValue::Uint64(v),
            Arg::Float(bits) => ArgValue::Float(bits),
            Arg::Fixed(f) => ArgValue::Fixed(f),
            Arg::Array(a) => ArgValue::Array(a@),
            Arg::String(None) => ArgValue::String(None),
            Arg::String(Some(s)) => ArgValue::String(Some(s@)),
        }
    }

    /// The bytes of the argument on the wire.
    pub open spec fn bytes(self, order: ByteOrder) -> Seq<u8> {
        self.value().bytes(order)
    }

    /// The number of bytes of the argument on the wire.
    pub open spec fn wire_len(self) -> int {
        self.value().wire_len()
    }

    /// Whether the length word of the argument can hold its length.
    pub open spec fn fits(self) -> bool {
        self.value().fits()
    }
}

/// What a list of arguments holds.
pub open spec fn values_of(args: Seq<Arg>) -> Seq<ArgValue> {
    args.map_values(|a: Arg| a.value())
}

/// The arguments' bytes, one argument after another.
pub open spec fn args_bytes(order: ByteOrder, args: Seq<ArgValue>) -> Seq<u8>
    decreases args.len(),
{
    if args.len() == 0 {
        Seq::empty()
    } else {
        args_bytes(order, args.drop_last()) + args.last().bytes(order)
    }
}

/// The number of bytes that the arguments take on the wire.
pub open spec fn args_len(args: Seq<ArgValue>) -> int
    decreases args.len(),
{
    if args.len() == 0 {
        0
    } else {
        args_len(args.drop_last()) + args.last().wire_len()
    }
}

/// The header: the object's handle, the length of the whole message and the
/// opcode. The narrow family packs the length into the high half and the
/// opcode into the low half of one word.
pub open spec fn header_bytes(family: Family, order: ByteOrder, object: u64, size: u32, opcode: u32) -> Seq<u8> {
    match family {
        Family::Narrow => bytes32(order, object as u32) + bytes32(
            order,
            (size as int % 65536 * 65536 + opcode as int % 65536) as u32,
        ),
        Family::Wide => bytes64(order, object) + bytes32(order, size) + bytes32(order, opcode),
    }
}

/// A whole message: the header, which counts itself in the length, and the
/// arguments.
pub open spec fn frame_bytes(family: Family, order: ByteOrder, object: u64, opcode: u32, args: Seq<ArgValue>) -> Seq<u8> {
    header_bytes(family, order, object, (family.spec_header_len() + args_len(args)) as u32, opcode)
        + args_bytes(order, args)
}

/// Whether a message with these arguments is short enough for the family.
pub open spec fn frame_fits(family: Family, args: Seq<ArgValue>) -> bool {
    family.spec_header_len() + args_len(args) < family.spec_limit()
}

/// An argument takes a multiple of four bytes, at least four, and `wire_len`
/// is their number.
pub proof fn lemma_value_len(order: ByteOrder, arg: ArgValue)
    ensures
        arg.bytes(order).len() == arg.wire_len(),
        arg.wire_len() >= 4,
        arg.wire_len() % 4 == 0,
{
    lemma_bytes32_roundtrip(order, 0);
    match arg {
        ArgValue::Int32(v) => lemma_bytes32_roundtrip(order, bits_of_i32(v)),
        ArgValue::Uint32(v) => lemma_bytes32_roundtrip(order, v),
        ArgValue::Int64(v) => lemma_bytes64_roundtrip(order, bits_of_i64(v)),
        ArgValue::Uint64(v) => lemma_bytes64_roundtrip(order, v),
        ArgValue::Float(bits) => lemma_bytes32_roundtrip(order, bits),
        ArgValue::Fixed(f) => lemma_bytes32_roundtrip(order, bits_of_i32(f.0)),
        ArgValue::Array(a) => lemma_bytes32_roundtrip(order, a.len() as u32),
        ArgValue::String(None) => {},
        ArgValue::String(Some(s)) => lemma_bytes32_roundtrip(
            order,
            (vstd::utf8::encode_utf8(s).len() + 1) as u32,
        ),
    }
}

/// An argument takes a multiple of four bytes, at least four, and `wire_len`
/// is their number.
pub proof fn lemma_arg_len(order: ByteOrder, arg: Arg)
    ensures
        arg.bytes(order).len() == arg.wire_len(),
        arg.wire_len() >= 4,
        arg.wire_len() % 4 == 0,
{
    lemma_value_len(order, arg.value());
}

/// The arguments take `args_len` bytes, a multiple of four.
pub proof fn lemma_args_len(order: ByteOrder, args: Seq<ArgValue>)
    ensures
        args_bytes(order, args).len() == args_len(args),
        args_len(args) >= 0,
        args_len(args) % 4 == 0,
    decreases args.len(),
{
    if args.len() > 0 {
        lemma_args_len(order, args.drop_last());
        lemma_value_len(order, args.last());
    }
}

/// Appends a copy of `data` to `out`.
pub fn put_bytes(out: &mut Vec<u8>, data: &[u8])
    ensures
        final(out)@ == old(out)@ + data@,
{
    let n: usize = data.len();
    let mut i: usize = 0;
    while i < n
        invariant
            n == data@.len(),
            i <= n,
            out@ == old(out)@ + data@.subrange(0, i as int),
        decreases n - i,
    {
        out.push(data[i]);
        i += 1;
        assert(out@ =~= old(out)@ + data@.subrange(0, i as int));
    }
    assert(data@.subrange(0, n as int) =~= data@);
}

/// Appends `n` zero bytes to `out`.
pub fn put_zeros(out: &mut Vec<u8>, n: usize)
    ensures
        final(out)@ == old(out)@ + zeros(n as int),
{
    let mut i: usize = 0;
    while i < n
        invariant
            i <= n,
            out@ == old(out)@ + zeros(i as int),
        decreases n - i,
    {
        out.push(0u8);
        i += 1;
        assert(out@ =~= old(out)@ + zeros(i as int));
    }
}

/// Appends the wire form of one argument to `out`.
pub fn put_arg(out: &mut Vec<u8>, order: ByteOrder, arg: &Arg)
    requires
        arg.fits(),
    ensures
        final(out)@ == old(out)@ + arg.bytes(order),
{
    match *arg {
        Arg::Int32(v) => put_u32(out, order, i32_to_bits(v)),
        Arg::Uint32(v) => put_u32(out, order, v),
        Arg::Int64(v) => put_u64(out, order, i64_to_bits(v)),
        Arg::Uint64(v) => put_u64(out, order, v),
        Arg::Float(bits) => put_u32(out, order, bits),
        Arg::Fixed(f) => put_u32(out, order, i32_to_bits(f.0)),
        Arg::Array(a) => {
            let n: usize = a.len();
            let padded: usize = (n + 3) / 4 * 4;
            put_u32(out, order, n as u32);
            put_bytes(out, a);
            put_zeros(out, padded - n);
            assert(out@ =~= old(out)@ + array_bytes(order, a@));
        },
        Arg::String(None) => put_u32(out, order, 0),
        Arg::String(Some(s)) => {
            let raw: &[u8] = s.as_bytes();
            let n: usize = raw.len();
            let padded: usize = (n + 4) / 4 * 4;
            put_u32(out, order, (n + 1) as u32);
            put_bytes(out, raw);
            put_zeros(out, padded - n);
            assert(out@ =~= old(out)@ + string_bytes(order, Some(s@)));
        },
    }
}

/// The number of bytes that one argument takes on the wire, if a `usize` can
/// hold it.
pub fn arg_wire_len(arg: &Arg) -> (n: Option<usize>)
    ensures
        match n {
            Some(n) => n == arg.wire_len(),
            None => arg.wire_len() > usize::MAX,
        },
{
    match *arg {
        Arg::Int32(_) | Arg::Uint32(_) | Arg::Float(_) | Arg::Fixed(_) => Some(4),
        Arg::Int64(_) | Arg::Uint64(_) => Some(8),
        Arg::Array(a) => {
            let n: usize = a.len();
            if n > usize::MAX - 7 {
                None
            } else {
                Some(4 + (n + 3) / 4 * 4)
            }
        },
        Arg::String(None) => Some(4),
        Arg::String(Some(s)) => {
            let n: usize = s.as_bytes().len();
            if n > usize::MAX - 8 {
                None
            } else {
                Some(4 + (n + 4) / 4 * 4)
            }
        },
    }
}

/// Whether a message with these arguments is short enough for the family.
pub fn message_fits(family: Family, args: &[Arg]) -> (fits: bool)
    ensures
        fits == frame_fits(family, values_of(args@)),
{
    let limit: usize = match family {
        Family::Narrow => NARROW_LIMIT,
        Family::Wide => WIDE_LIMIT,
    };
    let ghost values = values_of(args@);
    let mut total: usize = family.header_len();
    let mut i: usize = 0;
    while i < args.len()
        invariant
            i <= args@.len(),
            limit == family.spec_limit(),
            values == values_of(args@),
            total == family.spec_header_len() + args_len(values.subrange(0, i as int)),
            total < limit,
        decreases args@.len() - i,
    {
        proof {
            let upto = values.subrange(0, i + 1);
            assert(upto.drop_last() =~= values.subrange(0, i as int));
            assert(upto.last() == args@[i as int].value());
            lemma_tail_len(values, i + 1);
            lemma_arg_len(ByteOrder::Little, args@[i as int]);
        }
        match arg_wire_len(&args[i]) {
            None => {
                return false;
            },
            Some(n) => {
                if n >= limit - total {
                    return false;
                }
                total = total + n;
            },
        }
        i += 1;
    }
    assert(values.subrange(0, i as int) =~= values);
    true
}

/// The length of a prefix of the arguments is at most the length of them all.
pub proof fn lemma_tail_len(args: Seq<ArgValue>, k: int)
    requires
        0 <= k <= args.len(),
    ensures
        args_len(args.subrange(0, k)) <= args_len(args),
    decreases args.len() - k,
{
    if k < args.len() {
        lemma_tail_len(args, k + 1);
        let upto = args.subrange(0, k + 1);
        assert(upto.drop_last() =~= args.subrange(0, k));
        lemma_value_len(ByteOrder::Little, upto.last());
    } else {
        assert(args.subrange(0, k) =~= args);
    }
}

/// A fitting message has arguments that each fit their length word.
pub proof fn lemma_fits_each(family: Family, args: Seq<ArgValue>, i: int)
    requires
        frame_fits(family, args),
        0 <= i < args.len(),
    ensures
        args[i].fits(),
{
    lemma_tail_len(args, i + 1);
    let upto = args.subrange(0, i + 1);
    assert(upto.last() == args[i]);
    lemma_args_len(ByteOrder::Little, upto.drop_last());
}

/// The bytes of a whole message.
pub fn encode_frame(family: Family, order: ByteOrder, object: u64, opcode: u32, args: &[Arg]) -> (frame: Vec<u8>)
    requires
        frame_fits(family, values_of(args@)),
        family.holds_object(object),
        family.holds_opcode(opcode),
    ensures
        frame@ == frame_bytes(family, order, object, opcode, values_of(args@)),
        frame@.len() == family.spec_header_len() + args_len(values_of(args@)),
{
    let ghost values = values_of(args@);
    let mut body: Vec<u8> = Vec::new();
    let mut i: usize = 0;
    while i < args.len()
        invariant
            i <= args@.len(),
            values == values_of(args@),
            frame_fits(family, values),
            body@ == args_bytes(order, values.subrange(0, i as int)),
        decreases args@.len() - i,
    {
        proof {
            let upto = values.subrange(0, i + 1);
            assert(upto.drop_last() =~= values.subrange(0, i as int));
            assert(upto.last() == args@[i as int].value());
            lemma_fits_each(family, values, i as int);
        }
        put_arg(&mut body, order, &args[i]);
        i += 1;
    }
    proof {
        assert(values.subrange(0, i as int) =~= values);
        lemma_args_len(order, values);
    }
    let size: u32 = (family.header_len() + body.len()) as u32;
    let mut frame: Vec<u8> = Vec::new();
    match family {
        Family::Narrow => {
            put_u32(&mut frame, order, object as u32);
            put_u32(&mut frame, order, size * 65536 + opcode);
        },
        Family::Wide => {
            put_u64(&mut frame, order, object);
            put_u32(&mut frame, order, size);
            put_u32(&mut frame, order, opcode);
        },
    }
    proof {
        lemma_bytes32_roundtrip(order, object as u32);
        lemma_bytes32_roundtrip(order, (size * 65536 + opcode) as u32);
        lemma_bytes64_roundtrip(order, object);
        lemma_bytes32_roundtrip(order, size);
        lemma_bytes32_roundtrip(order, opcode);
        assert(frame@ =~= header_bytes(family, order, object, size, opcode));
    }
    put_bytes(&mut frame, body.as_slice());
    frame
}

/// The bytes of arguments after arguments are the bytes of the first ones,
/// then those of the others.
pub proof fn lemma_args_bytes_add(order: ByteOrder, first: Seq<ArgValue>, others: Seq<ArgValue>)
    ensures
        args_bytes(order, first + others) == args_bytes(order, first) + args_bytes(order, others),
        args_len(first + others) == args_len(first) + args_len(others),
    decreases others.len(),
{
    if others.len() == 0 {
        assert(first + others =~= first);
        assert(args_bytes(order, first) + args_bytes(order, others) =~= args_bytes(order, first));
    } else {
        assert((first + others).drop_last() =~= first + others.drop_last());
        lemma_args_bytes_add(order, first, others.drop_last());
        assert(args_bytes(order, first + others) =~= args_bytes(order, first) + args_bytes(
            order,
            others,
        ));
    }
}

} // verus!
