//! The messages of an interface as tables, and the turning of a message's
//! values into arguments and file descriptors and back by those tables.

use crate::connection::{lemma_whole_frame, next_frame, Connection, Frame};
use crate::endian::{i32_of_bits, i64_of_bits, ByteOrder};
use crate::message::{lemma_read_back_arg, take32, take64, take_array, take_string, Message};
use crate::protocol::Description;
use crate::ring::SAFE_ROOM;
use crate::wire::{
    args_bytes, args_len, frame_bytes, frame_fits, lemma_args_bytes_add, message_fits, values_of,
    Arg, ArgValue, Family, Fixed,
};
use vstd::prelude::*;

verus! {

/// What a field of a message holds.
#[derive(Clone, Copy, Debug, PartialEq, Eq, Structural)]
pub enum FieldType {
    /// The handle of an object, new or existing: 32 bits in the narrow
    /// family, 64 in the wide one.
    Handle,
    Int32,
    Uint32,
    Int64,
    Uint64,
    /// The bits of an IEEE 754 single.
    Float,
    /// A fixed-point number.
    Fixed,
    /// A string that may be the null string.
    OptString,
    /// A string that is not the null string.
    String,
    Array,
    /// A file descriptor, which travels beside the bytes.
    Fd,
}

/// One field of a message.
#[derive(Debug)]
pub struct Field {
    pub name: String,
    pub ty: FieldType,
    /// For a handle, the name of the type of the handles of its interface,
    /// where the interface is known.
    pub interface: Option<String>,
    pub summary: Option<String>,
    pub description: Option<Description>,
}

/// One message of an interface in one direction.
#[derive(Debug)]
pub struct Variant {
    pub name: String,
    /// The message's place among the messages of its interface and direction
    /// that are there in the version settled for the interface.
    pub opcode: u32,
    pub fields: Vec<Field>,
    pub description: Option<Description>,
}

/// The messages of an interface in one direction.
#[derive(Debug)]
pub struct MessageEnum {
    pub name: String,
    /// Whether a message among them holds a string or an array.
    pub needs_lifetime: bool,
    pub variants: Vec<Variant>,
}

/// The value of one field of a message. `F` is the type of file descriptors.
#[derive(Debug, PartialEq, Eq)]
pub enum Value<F> {
    Handle(u64),
    Int32(i32),
    Uint32(u32),
    Int64(i64),
    Uint64(u64),
    Float(u32),
    Fixed(Fixed),
    String(Option<String>),
    Array(Vec<u8>),
    Fd(F),
}

/// The value of a field, as a value.
pub enum ValueView<F> {
    Handle(u64),
    Int32(i32),
    Uint32(u32),
    Int64(i64),
    Uint64(u64),
    Float(u32),
    Fixed(Fixed),
    String(Option<Seq<char>>),
    Array(Seq<u8>),
    Fd(F),
}

impl<F> View for Value<F> {
    type V = ValueView<F>;

    open spec fn view(&self) -> ValueView<F> {
        match self {
            Value::Handle(id) => ValueView::Handle(*id),
            Value::Int32(v) => ValueView::Int32(*v),
            Value::Uint32(v) => ValueView::Uint32(*v),
            Value::Int64(v) => ValueView::Int64(*v),
            Value::Uint64(v) => ValueView::Uint64(*v),
            Value::Float(bits) => ValueView::Float(*bits),
            Value::Fixed(f) => ValueView::Fixed(*f),
            Value::String(None) => ValueView::String(None),
            Value::String(Some(text)) => ValueView::String(Some(text@)),
            Value::Array(bytes) => ValueView::Array(bytes@),
            Value::Fd(fd) => ValueView::Fd(*fd),
        }
    }
}

/// The values of a list of fields.
pub open spec fn views<F>(values: Seq<Value<F>>) -> Seq<ValueView<F>> {
    values.map_values(|v: Value<F>| v@)
}

/// The types of a list of fields.
pub open spec fn types_of(fields: Seq<Field>) -> Seq<FieldType> {
    fields.map_values(|f: Field| f.ty)
}

/// The argument that a value of a field is on the wire, if the value is of
/// the field's type and that has bytes on the wire.
pub open spec fn wire_value<F>(family: Family, ty: FieldType, value: ValueView<F>) -> Option<ArgValue> {
    match (ty, value) {
        (FieldType::Handle, ValueView::Handle(id)) => match family {
            Family::Narrow => if id <= u32::MAX {
                Some(ArgValue::Uint32(id as u32))
            } else {
                None
            },
            Family::Wide => Some(ArgValue::Uint64(id)),
        },
        (FieldType::Int32, ValueView::Int32(v)) => Some(ArgValue::Int32(v)),
        (FieldType::Uint32, ValueView::Uint32(v)) => Some(ArgValue::Uint32(v)),
        (FieldType::Int64, ValueView::Int64(v)) => Some(ArgValue::Int64(v)),
        (FieldType::Uint64, ValueView::Uint64(v)) => Some(ArgValue::Uint64(v)),
        (FieldType::Float, ValueView::Float(bits)) => Some(ArgValue::Float(bits)),
        (FieldType::Fixed, ValueView::Fixed(f)) => Some(ArgValue::Fixed(f)),
        (FieldType::OptString, ValueView::String(text)) => Some(ArgValue::String(text)),
        (FieldType::String, ValueView::String(Some(text))) => Some(ArgValue::String(Some(text))),
        (FieldType::Array, ValueView::Array(bytes)) => Some(ArgValue::Array(bytes)),
        _ => None,
    }
}

/// Whether a value can be the value of a field of that type: it is of the
/// type, a handle fits the family's handles, and a string or an array is
/// short enough for its length word.
pub open spec fn conforms<F>(family: Family, ty: FieldType, value: ValueView<F>) -> bool {
    match (ty, value) {
        (FieldType::Fd, ValueView::Fd(_)) => true,
        _ => match wire_value(family, ty, value) {
            Some(arg) => arg.fits(),
            None => false,
        },
    }
}

/// Whether the values can be the values of the fields, one for one.
pub open spec fn all_conform<F>(family: Family, types: Seq<FieldType>, values: Seq<ValueView<F>>) -> bool {
    &&& types.len() == values.len()
    &&& forall|i: int| 0 <= i < types.len() ==> conforms(family, #[trigger] types[i], values[i])
}

/// The arguments that the values are on the wire, in their order. A file
/// descriptor is none.
pub open spec fn wire_args<F>(family: Family, types: Seq<FieldType>, values: Seq<ValueView<F>>) -> Seq<ArgValue>
    decreases types.len(),
{
    if types.len() == 0 || values.len() != types.len() {
        Seq::empty()
    } else {
        wire_args(family, types.drop_last(), values.drop_last()) + match wire_value(
            family,
            types.last(),
            values.last(),
        ) {
            Some(arg) => seq![arg],
            None => Seq::empty(),
        }
    }
}

/// The file descriptors among the values, in their order.
pub open spec fn wire_fds<F>(values: Seq<ValueView<F>>) -> Seq<F>
    decreases values.len(),
{
    if values.len() == 0 {
        Seq::empty()
    } else {
        wire_fds(values.drop_last()) + match values.last() {
            ValueView::Fd(fd) => seq![fd],
            _ => Seq::empty(),
        }
    }
}

/// What reading a field of a type finds at the front of the bytes and of the
/// file descriptors: the value, and how many bytes and file descriptors it
/// takes.
#[verifier::opaque]
pub open spec fn read_field<F>(family: Family, order: ByteOrder, ty: FieldType, bytes: Seq<u8>, fds: Seq<F>) -> Option<(ValueView<F>, int, int)> {
    match ty {
        FieldType::Fd => if fds.len() > 0 {
            Some((ValueView::Fd(fds[0]), 0, 1))
        } else {
            None
        },
        FieldType::Handle => match family {
            Family::Narrow => match take32(order, bytes) {
                Some(id) => Some((ValueView::Handle(id as u64), 4, 0)),
                None => None,
            },
            Family::Wide => match take64(order, bytes) {
                Some(id) => Some((ValueView::Handle(id), 8, 0)),
                None => None,
            },
        },
        FieldType::Int32 => match take32(order, bytes) {
            Some(bits) => Some((ValueView::Int32(i32_of_bits(bits)), 4, 0)),
            None => None,
        },
        FieldType::Uint32 => match take32(order, bytes) {
            Some(bits) => Some((ValueView::Uint32(bits), 4, 0)),
            None => None,
        },
        FieldType::Int64 => match take64(order, bytes) {
            Some(bits) => Some((ValueView::Int64(i64_of_bits(bits)), 8, 0)),
            None => None,
        },
        FieldType::Uint64 => match take64(order, bytes) {
            Some(bits) => Some((ValueView::Uint64(bits), 8, 0)),
            None => None,
        },
        FieldType::Float => match take32(order, bytes) {
            Some(bits) => Some((ValueView::Float(bits), 4, 0)),
            None => None,
        },
        FieldType::Fixed => match take32(order, bytes) {
            Some(bits) => Some((ValueView::Fixed(Fixed(i32_of_bits(bits))), 4, 0)),
            None => None,
        },
        FieldType::OptString => match take_string(order, bytes) {
            Some((text, used)) => Some((ValueView::String(text), used, 0)),
            None => None,
        },
        FieldType::String => match take_string(order, bytes) {
            Some((Some(text), used)) => Some((ValueView::String(Some(text)), used, 0)),
            _ => None,
        },
        FieldType::Array => match take_array(order, bytes) {
            Some((content, used)) => Some((ValueView::Array(content), used, 0)),
            None => None,
        },
    }
}

/// What reading fields of the types, one after another, finds at the front of
/// the bytes and of the file descriptors: the values, and the bytes and file
/// descriptors that are left.
pub open spec fn read_fields<F>(family: Family, order: ByteOrder, types: Seq<FieldType>, bytes: Seq<u8>, fds: Seq<F>) -> Option<(Seq<ValueView<F>>, Seq<u8>, Seq<F>)>
    decreases types.len(),
{
    if types.len() == 0 {
        Some((Seq::empty(), bytes, fds))
    } else {
        match read_field(family, order, types[0], bytes, fds) {
            None => None,
            Some((value, used, claimed)) => if 0 <= used <= bytes.len() && 0 <= claimed
                <= fds.len() {
                match read_fields(
                    family,
                    order,
                    types.drop_first(),
                    bytes.skip(used),
                    fds.skip(claimed),
                ) {
                    Some((values, left, unclaimed)) => Some(
                        (seq![value] + values, left, unclaimed),
                    ),
                    None => None,
                }
            } else {
                None
            },
        }
    }
}

/// One field reads back: from the bytes and the file descriptor that a
/// conforming value made, whatever follows them, the value is read, and what
/// follows is left.
pub proof fn lemma_field_round_trip<F>(family: Family, order: ByteOrder, ty: FieldType, value: ValueView<F>, rest: Seq<u8>, more: Seq<F>)
    requires
        conforms(family, ty, value),
    ensures
        read_field(
            family,
            order,
            ty,
            args_bytes(order, wire_args(family, seq![ty], seq![value])) + rest,
            wire_fds(seq![value]) + more,
        ) == Some(
            (
                value,
                args_bytes(order, wire_args(family, seq![ty], seq![value])).len() as int,
                wire_fds(seq![value]).len() as int,
            ),
        ),
{
    reveal(read_field);
    let types = seq![ty];
    let values = seq![value];
    assert(types.drop_last() =~= Seq::<FieldType>::empty());
    assert(values.drop_last() =~= Seq::<ValueView<F>>::empty());
    assert(wire_args(family, types.drop_last(), values.drop_last()) =~= Seq::<ArgValue>::empty());
    assert(wire_fds(values.drop_last()) =~= Seq::<F>::empty());
    match wire_value(family, ty, value) {
        Some(arg) => {
            assert(wire_args(family, types, values) =~= seq![arg]);
            assert(seq![arg].drop_last() =~= Seq::<ArgValue>::empty());
            assert(seq![arg].last() == arg);
            assert(args_bytes(order, Seq::<ArgValue>::empty()) =~= Seq::<u8>::empty());
            assert(args_bytes(order, seq![arg].drop_last()) =~= Seq::<u8>::empty());
            assert(args_bytes(order, seq![arg]) =~= arg.bytes(order));
            assert(wire_fds(values) =~= Seq::<F>::empty());
            lemma_read_back_arg(order, arg, rest);
            crate::endian::lemma_signed_roundtrip(0, 0);
        },
        None => {
            assert(wire_args(family, types, values) =~= Seq::<ArgValue>::empty());
            assert(args_bytes(order, Seq::<ArgValue>::empty()) + rest =~= rest);
            let fd = value->Fd_0;
            assert(wire_fds(values) =~= seq![fd]);
            assert((seq![fd] + more)[0] == fd);
        },
    }
}

/// The arguments and file descriptors of fields after fields are those of the
/// first ones, then those of the others.
pub proof fn lemma_wire_add<F>(family: Family, types: Seq<FieldType>, values: Seq<ValueView<F>>, more_types: Seq<FieldType>, more_values: Seq<ValueView<F>>)
    requires
        types.len() == values.len(),
        more_types.len() == more_values.len(),
    ensures
        wire_args(family, types + more_types, values + more_values) == wire_args(
            family,
            types,
            values,
        ) + wire_args(family, more_types, more_values),
        wire_fds(values + more_values) == wire_fds(values) + wire_fds(more_values),
    decreases more_types.len(),
{
    if more_types.len() == 0 {
        assert(types + more_types =~= types);
        assert(values + more_values =~= values);
        assert(wire_args(family, types, values) + wire_args(family, more_types, more_values)
            =~= wire_args(family, types, values));
        assert(wire_fds(values) + wire_fds(more_values) =~= wire_fds(values));
    } else {
        assert((types + more_types).drop_last() =~= types + more_types.drop_last());
        assert((values + more_values).drop_last() =~= values + more_values.drop_last());
        lemma_wire_add(family, types, values, more_types.drop_last(), more_values.drop_last());
        assert(wire_args(family, types + more_types, values + more_values) =~= wire_args(
            family,
            types,
            values,
        ) + wire_args(family, more_types, more_values));
        assert(wire_fds(values + more_values) =~= wire_fds(values) + wire_fds(more_values));
    }
}

/// A message reads back: from the bytes and the file descriptors that
/// conforming values made, whatever follows them, the same values are read,
/// and what follows is left.
pub proof fn lemma_fields_round_trip<F>(family: Family, order: ByteOrder, types: Seq<FieldType>, values: Seq<ValueView<F>>, rest: Seq<u8>, more: Seq<F>)
    requires
        all_conform(family, types, values),
    ensures
        read_fields(
            family,
            order,
            types,
            args_bytes(order, wire_args(family, types, values)) + rest,
            wire_fds(values) + more,
        ) == Some((values, rest, more)),
    decreases types.len(),
{
    if types.len() == 0 {
        assert(wire_fds(values) + more =~= more);
        assert(args_bytes(order, wire_args(family, types, values)) + rest =~= rest);
        assert(values =~= Seq::<ValueView<F>>::empty());
    } else {
        let ty = types[0];
        let value = values[0];
        let later_types = types.drop_first();
        let later_values = values.drop_first();
        assert(types =~= seq![ty] + later_types);
        assert(values =~= seq![value] + later_values);
        lemma_wire_add(family, seq![ty], seq![value], later_types, later_values);
        let first_args = wire_args(family, seq![ty], seq![value]);
        let later_args = wire_args(family, later_types, later_values);
        let first_fds = wire_fds(seq![value]);
        let later_fds = wire_fds(later_values);
        lemma_args_bytes_add(order, first_args, later_args);
        let first_bytes = args_bytes(order, first_args);
        let later_bytes = args_bytes(order, later_args);
        let bytes = args_bytes(order, wire_args(family, types, values)) + rest;
        let fds = wire_fds(values) + more;
        assert(bytes =~= first_bytes + (later_bytes + rest));
        assert(fds =~= first_fds + (later_fds + more));
        assert(conforms(family, types[0], values[0]));
        lemma_field_round_trip(family, order, ty, value, later_bytes + rest, later_fds + more);
        assert(bytes.skip(first_bytes.len() as int) =~= later_bytes + rest);
        assert(fds.skip(first_fds.len() as int) =~= later_fds + more);
        assert(all_conform(family, later_types, later_values)) by {
            assert forall|i: int| 0 <= i < later_types.len() implies conforms(
                family,
                #[trigger] later_types[i],
                later_values[i],
            ) by {
                assert(conforms(family, types[i + 1], values[i + 1]));
            }
        }
        lemma_fields_round_trip(family, order, later_types, later_values, rest, more);
    }
}

/// An argument that owns its bytes.
#[derive(Debug)]
pub enum OwnedArg {
    Int32(i32),
    Uint32(u32),
    Int64(i64),
    Uint64(u64),
    Float(u32),
    Fixed(Fixed),
    Array(Vec<u8>),
    String(Option<String>),
}

impl View for OwnedArg {
    type V = ArgValue;

    open spec fn view(&self) -> ArgValue {
        match self {
            OwnedArg::Int32(v) => ArgValue::Int32(*v),
            OwnedArg::Uint32(v) => ArgValue::Uint32(*v),
            OwnedArg::Int64(v) => ArgValue::Int64(*v),
            OwnedArg::Uint64(v) => ArgValue::Uint64(*v),
            OwnedArg::Float(bits) => ArgValue::Float(*bits),
            OwnedArg::Fixed(f) => ArgValue::Fixed(*f),
            OwnedArg::Array(bytes) => ArgValue::Array(bytes@),
            OwnedArg::String(None) => ArgValue::String(None),
            OwnedArg::String(Some(text)) => ArgValue::String(Some(text@)),
        }
    }
}

/// What a list of owned arguments holds.
pub open spec fn owned_values(args: Seq<OwnedArg>) -> Seq<ArgValue> {
    args.map_values(|a: OwnedArg| a@)
}

impl OwnedArg {
    /// The argument, with its bytes borrowed.
    pub fn borrow(&self) -> (arg: Arg<'_>)
        ensures
            arg.value() == self@,
    {
        match self {
            OwnedArg::Int32(v) => Arg::Int32(*v),
            OwnedArg::Uint32(v) => Arg::Uint32(*v),
            OwnedArg::Int64(v) => Arg::Int64(*v),
            OwnedArg::Uint64(v) => Arg::Uint64(*v),
            OwnedArg::Float(bits) => Arg::Float(*bits),
            OwnedArg::Fixed(f) => Arg::Fixed(*f),
            OwnedArg::Array(bytes) => Arg::Array(bytes.as_slice()),
            OwnedArg::String(None) => Arg::String(None),
            OwnedArg::String(Some(text)) => Arg::String(Some(text.as_str())),
        }
    }
}

/// The arguments, with their bytes borrowed.
pub fn borrow_all(owned: &Vec<OwnedArg>) -> (args: Vec<Arg<'_>>)
    ensures
        values_of(args@) == owned_values(owned@),
{
    let mut args: Vec<Arg<'_>> = Vec::new();
    let mut i: usize = 0;
    while i < owned.len()
        invariant
            i <= owned@.len(),
            args@.len() == i,
            forall|k: int| 0 <= k < i ==> (#[trigger] args@[k]).value() == owned@[k]@,
        decreases owned@.len() - i,
    {
        args.push(owned[i].borrow());
        i += 1;
    }
    assert(values_of(args@) =~= owned_values(owned@));
    args
}

/// What a value of a field becomes for the wire.
pub enum Lowered<F> {
    /// An argument.
    Arg(OwnedArg),
    /// A file descriptor.
    Fd(F),
    /// Nothing: the value is not one of the field's type.
    Mismatch,
}

/// The length in bytes of the longest string that has a place on the wire.
pub const LONGEST_STRING: usize = 0xffff_fff7;

/// The length of the longest array that has a place on the wire.
pub const LONGEST_ARRAY: usize = 0xffff_fff8;

/// Turns the value of a field into an argument or a file descriptor.
pub fn lower<F>(family: Family, ty: FieldType, value: Value<F>) -> (lowered: Lowered<F>)
    ensures
        match lowered {
            Lowered::Arg(arg) => conforms(family, ty, value@) && wire_value(family, ty, value@)
                == Some(arg@),
            Lowered::Fd(fd) => ty == FieldType::Fd && value@ == ValueView::Fd(fd),
            Lowered::Mismatch => !conforms(family, ty, value@),
        },
{
    match (ty, value) {
        (FieldType::Fd, Value::Fd(fd)) => Lowered::Fd(fd),
        (FieldType::Handle, Value::Handle(id)) => match family {
            Family::Narrow => if id <= u32::MAX as u64 {
                Lowered::Arg(OwnedArg::Uint32(id as u32))
            } else {
                Lowered::Mismatch
            },
            Family::Wide => Lowered::Arg(OwnedArg::Uint64(id)),
        },
        (FieldType::Int32, Value::Int32(v)) => Lowered::Arg(OwnedArg::Int32(v)),
        (FieldType::Uint32, Value::Uint32(v)) => Lowered::Arg(OwnedArg::Uint32(v)),
        (FieldType::Int64, Value::Int64(v)) => Lowered::Arg(OwnedArg::Int64(v)),
        (FieldType::Uint64, Value::Uint64(v)) => Lowered::Arg(OwnedArg::Uint64(v)),
        (FieldType::Float, Value::Float(bits)) => Lowered::Arg(OwnedArg::Float(bits)),
        (FieldType::Fixed, Value::Fixed(f)) => Lowered::Arg(OwnedArg::Fixed(f)),
        (FieldType::OptString, Value::String(None)) => Lowered::Arg(OwnedArg::String(None)),
        (FieldType::OptString, Value::String(Some(text))) => {
            if text.as_str().as_bytes().len() <= LONGEST_STRING {
                Lowered::Arg(OwnedArg::String(Some(text)))
            } else {
                Lowered::Mismatch
            }
        },
        (FieldType::String, Value::String(Some(text))) => {
            if text.as_str().as_bytes().len() <= LONGEST_STRING {
                Lowered::Arg(OwnedArg::String(Some(text)))
            } else {
                Lowered::Mismatch
            }
        },
        (FieldType::Array, Value::Array(bytes)) => {
            if bytes.len() <= LONGEST_ARRAY {
                Lowered::Arg(OwnedArg::Array(bytes))
            } else {
                Lowered::Mismatch
            }
        },
        _ => Lowered::Mismatch,
    }
}

/// Turns the values of the fields of a message into its arguments and its
/// file descriptors, each in their order; nothing if the values are not
/// values of the fields, one for one.
pub fn lower_all<F>(family: Family, fields: &Vec<Field>, values: Vec<Value<F>>) -> (lowered: Option<(Vec<OwnedArg>, Vec<F>)>)
    ensures
        match lowered {
            Some((args, fds)) => {
                &&& all_conform(family, types_of(fields@), views(values@))
                &&& owned_values(args@) == wire_args(family, types_of(fields@), views(values@))
                &&& fds@ == wire_fds(views(values@))
            },
            None => !all_conform(family, types_of(fields@), views(values@)),
        },
{
    let ghost types = types_of(fields@);
    let ghost all = views(values@);
    if fields.len() != values.len() {
        return None;
    }
    let n: usize = fields.len();
    let mut queue = values;
    let mut args: Vec<OwnedArg> = Vec::new();
    let mut fds: Vec<F> = Vec::new();
    let mut i: usize = 0;
    proof {
        assert(views(queue@).skip(0) =~= all);
        assert(owned_values(args@) =~= wire_args(family, types.take(0), all.take(0)));
        assert(fds@ =~= wire_fds(all.take(0)));
    }
    while i < n
        invariant
            i <= n,
            n == fields@.len(),
            types == types_of(fields@),
            all.len() == n,
            all == views(values@),
            queue@.len() == n - i,
            views(queue@) == all.skip(i as int),
            forall|k: int| 0 <= k < i ==> conforms(family, #[trigger] types[k], all[k]),
            owned_values(args@) == wire_args(family, types.take(i as int), all.take(i as int)),
            fds@ == wire_fds(all.take(i as int)),
        decreases n - i,
    {
        let ghost before_values = queue@;
        let ghost before_args = owned_values(args@);
        let value: Value<F> = queue.remove(0);
        proof {
            assert(value@ == views(before_values)[0]);
            assert(value@ == all[i as int]);
            assert(queue@ =~= before_values.skip(1));
            assert forall|k: int| 0 <= k < queue@.len() implies views(queue@)[k] == all.skip(
                i + 1,
            )[k] by {
                assert(queue@[k] == before_values[k + 1]);
                assert(views(before_values)[k + 1] == all.skip(i as int)[k + 1]);
            }
            assert(views(queue@) =~= all.skip(i + 1));
            assert(types.take(i + 1).drop_last() =~= types.take(i as int));
            assert(all.take(i + 1).drop_last() =~= all.take(i as int));
            assert(types.take(i + 1).last() == types[i as int]);
            assert(all.take(i + 1).last() == all[i as int]);
            assert(types[i as int] == fields@[i as int].ty);
        }
        match lower(family, fields[i].ty, value) {
            Lowered::Arg(arg) => {
                let ghost added = arg@;
                args.push(arg);
                assert(owned_values(args@) =~= before_args + seq![added]);
            },
            Lowered::Fd(fd) => {
                fds.push(fd);
                assert(wire_value(family, types[i as int], all[i as int]) is None);
                assert(owned_values(args@) + Seq::<ArgValue>::empty() =~= owned_values(args@));
            },
            Lowered::Mismatch => {
                return None;
            },
        }
        proof {
            if !(all[i as int] is Fd) {
                assert(fds@ + Seq::<F>::empty() =~= fds@);
            }
        }
        i += 1;
    }
    proof {
        assert(types.take(n as int) =~= types);
        assert(all.take(n as int) =~= all);
    }
    Some((args, fds))
}

/// Why a message was not queued.
#[derive(Clone, Copy, Debug, PartialEq, Eq, Structural)]
pub enum MarshalError {
    /// The values are not values of the message's fields, or the handle or
    /// the opcode does not fit the family.
    Mismatch,
    /// The message is longer than the family allows.
    TooLong,
    /// The buffer cannot grow further.
    Full,
}

impl Variant {
    /// The types of the fields of the message.
    pub open spec fn types(&self) -> Seq<FieldType> {
        types_of(self.fields@)
    }

    /// Queues the message for `object` with the given values on a
    /// connection: its arguments as bytes, its file descriptors beside them.
    pub fn marshal<F>(&self, conn: &mut Connection<F>, object: u64, values: Vec<Value<F>>) -> (result: Result<(), MarshalError>)
        requires
            old(conn).wf(),
        ensures
            final(conn).wf(),
            final(conn).same_receiving(old(conn)),
            final(conn).family() == old(conn).family(),
            final(conn).order() == old(conn).order(),
            result is Err ==> final(conn).same_sending(old(conn)),
            result == Err::<(), MarshalError>(MarshalError::Mismatch) <==> !(all_conform(
                old(conn).family(),
                self.types(),
                views(values@),
            ) && old(conn).family().holds_object(object) && old(conn).family().holds_opcode(
                self.opcode,
            )),
            !(result == Err::<(), MarshalError>(MarshalError::Mismatch)) ==> {
                let args = wire_args(old(conn).family(), self.types(), views(values@));
                &&& result == Err::<(), MarshalError>(MarshalError::TooLong) <==> !frame_fits(
                    old(conn).family(),
                    args,
                )
                &&& result is Ok ==> final(conn).outgoing() == old(conn).outgoing() + frame_bytes(
                    old(conn).family(),
                    old(conn).order(),
                    object,
                    self.opcode,
                    args,
                ) && final(conn).outgoing_fds() == old(conn).outgoing_fds() + wire_fds(
                    views(values@),
                )
                &&& old(conn).outgoing().len() + old(conn).family().spec_header_len() + args_len(
                    args,
                ) < SAFE_ROOM ==> !(result == Err::<(), MarshalError>(MarshalError::Full))
            },
    {
        let family: Family = conn.kind();
        let fits_family: bool = match family {
            Family::Narrow => object <= u32::MAX as u64 && self.opcode <= u16::MAX as u32,
            Family::Wide => true,
        };
        match lower_all(family, &self.fields, values) {
            None => Err(MarshalError::Mismatch),
            Some((owned, fds)) => {
                if !fits_family {
                    return Err(MarshalError::Mismatch);
                }
                let args: Vec<Arg<'_>> = borrow_all(&owned);
                if !message_fits(family, args.as_slice()) {
                    return Err(MarshalError::TooLong);
                }
                if conn.write_message(object, self.opcode, args.as_slice(), fds) {
                    Ok(())
                } else {
                    Err(MarshalError::Full)
                }
            },
        }
    }
}

/// Reads the value of one field: its bytes from the message, or, for a file
/// descriptor, the oldest one received on the connection. Where the value is
/// not there, nothing is read.
pub fn read_one<F>(family: Family, ty: FieldType, msg: &mut Message, conn: &mut Connection<F>) -> (value: Option<Value<F>>)
    requires
        old(conn).wf(),
    ensures
        final(conn).wf(),
        final(conn).same_sending(old(conn)),
        final(conn).family() == old(conn).family(),
        final(conn).order() == old(conn).order(),
        final(conn).incoming() == old(conn).incoming(),
        match read_field(
            family,
            old(msg).spec_order(),
            ty,
            old(msg).remaining(),
            old(conn).incoming_fds(),
        ) {
            Some((found, used, claimed)) => {
                &&& value is Some
                &&& value.unwrap()@ == found
                &&& final(msg).is_after(old(msg), used)
                &&& 0 <= claimed <= old(conn).incoming_fds().len()
                &&& final(conn).incoming_fds() == old(conn).incoming_fds().skip(claimed)
            },
            None => {
                &&& value is None
                &&& final(msg).is_after(old(msg), 0)
                &&& final(conn).incoming_fds() == old(conn).incoming_fds()
            },
        },
{
    proof {
        reveal(read_field);
        assert(old(conn).incoming_fds().skip(0) =~= old(conn).incoming_fds());
        assert(old(msg).remaining().skip(0) =~= old(msg).remaining());
    }
    match ty {
        FieldType::Fd => match conn.claim_fd() {
            Some(fd) => Some(Value::Fd(fd)),
            None => None,
        },
        FieldType::Handle => match family {
            Family::Narrow => match msg.read_uint32() {
                Some(id) => Some(Value::Handle(id as u64)),
                None => None,
            },
            Family::Wide => match msg.read_uint64() {
                Some(id) => Some(Value::Handle(id)),
                None => None,
            },
        },
        FieldType::Int32 => match msg.read_int32() {
            Some(v) => Some(Value::Int32(v)),
            None => None,
        },
        FieldType::Uint32 => match msg.read_uint32() {
            Some(v) => Some(Value::Uint32(v)),
            None => None,
        },
        FieldType::Int64 => match msg.read_int64() {
            Some(v) => Some(Value::Int64(v)),
            None => None,
        },
        FieldType::Uint64 => match msg.read_uint64() {
            Some(v) => Some(Value::Uint64(v)),
            None => None,
        },
        FieldType::Float => match msg.read_float() {
            Some(bits) => Some(Value::Float(bits)),
            None => None,
        },
        FieldType::Fixed => match msg.read_fixed() {
            Some(f) => Some(Value::Fixed(f)),
            None => None,
        },
        FieldType::OptString => match msg.read_string() {
            Some(text) => Some(Value::String(text)),
            None => None,
        },
        FieldType::String => {
            match msg.peek_string_is_null() {
                true => None,
                false => match msg.read_string() {
                    Some(text) => Some(Value::String(text)),
                    None => None,
                },
            }
        },
        FieldType::Array => match msg.read_array() {
            Some(bytes) => Some(Value::Array(bytes)),
            None => None,
        },
    }
}

/// Reads the values of the fields of a message, one after another; nothing
/// if one of them is not there.
pub fn read_all<F>(family: Family, fields: &Vec<Field>, msg: &mut Message, conn: &mut Connection<F>) -> (values: Option<Vec<Value<F>>>)
    requires
        old(conn).wf(),
    ensures
        final(conn).wf(),
        final(conn).same_sending(old(conn)),
        final(conn).family() == old(conn).family(),
        final(conn).order() == old(conn).order(),
        final(conn).incoming() == old(conn).incoming(),
        match read_fields(
            family,
            old(msg).spec_order(),
            types_of(fields@),
            old(msg).remaining(),
            old(conn).incoming_fds(),
        ) {
            Some((found, left, unclaimed)) => {
                &&& values is Some
                &&& views(values.unwrap()@) == found
                &&& final(msg).remaining() == left
                &&& final(conn).incoming_fds() == unclaimed
            },
            None => values is None,
        },
{
    let ghost types = types_of(fields@);
    let ghost order = msg.spec_order();
    let ghost goal = read_fields(family, order, types, msg.remaining(), conn.incoming_fds());
    let mut values: Vec<Value<F>> = Vec::new();
    let mut i: usize = 0;
    proof {
        assert(types.skip(0) =~= types);
        assert(views(values@) =~= Seq::<ValueView<F>>::empty());
        match goal {
            Some((found, left, unclaimed)) => {
                assert(views(values@) + found =~= found);
            },
            None => {},
        }
    }
    while i < fields.len()
        invariant
            i <= fields@.len(),
            types == types_of(fields@),
            conn.wf(),
            conn.same_sending(old(conn)),
            conn.family() == old(conn).family(),
            conn.order() == old(conn).order(),
            conn.incoming() == old(conn).incoming(),
            msg.spec_order() == order,
            goal == match read_fields(
                family,
                order,
                types.skip(i as int),
                msg.remaining(),
                conn.incoming_fds(),
            ) {
                Some((found, left, unclaimed)) => Some((views(values@) + found, left, unclaimed)),
                None => None,
            },
            goal == read_fields(
                family,
                old(msg).spec_order(),
                types_of(fields@),
                old(msg).remaining(),
                old(conn).incoming_fds(),
            ),
        decreases fields@.len() - i,
    {
        let ghost before = views(values@);
        let ghost later = types.skip(i as int);
        proof {
            assert(later[0] == fields@[i as int].ty);
            assert(later.drop_first() =~= types.skip(i + 1));
        }
        match read_one(family, fields[i].ty, msg, conn) {
            Some(value) => {
                let ghost found = value@;
                values.push(value);
                proof {
                    assert(views(values@) =~= before.push(found));
                    match read_fields(
                        family,
                        order,
                        types.skip(i + 1),
                        msg.remaining(),
                        conn.incoming_fds(),
                    ) {
                        Some((rest, left, unclaimed)) => {
                            assert(before + (seq![found] + rest) =~= views(values@) + rest);
                        },
                        None => {},
                    }
                }
            },
            None => {
                return None;
            },
        }
        i += 1;
    }
    proof {
        assert(types.skip(i as int) =~= Seq::<FieldType>::empty());
        assert(views(values@) + Seq::<ValueView<F>>::empty() =~= views(values@));
    }
    Some(values)
}

/// A message that was read: which message of its interface it is, the handle
/// of the object that it is for, and the values of its fields.
#[derive(Debug)]
pub struct Decoded<F> {
    /// The place of the message among the messages of its interface and
    /// direction.
    pub variant: usize,
    pub object: u64,
    pub values: Vec<Value<F>>,
}

/// The place of the first message with an opcode.
pub open spec fn variant_of(variants: Seq<Variant>, opcode: u32) -> Option<int>
    decreases variants.len(),
{
    if variants.len() == 0 {
        None
    } else if variants[0].opcode == opcode {
        Some(0)
    } else {
        match variant_of(variants.drop_first(), opcode) {
            Some(place) => Some(place + 1),
            None => None,
        }
    }
}

impl MessageEnum {
    /// The place of the message with an opcode, if there is one.
    pub fn find(&self, opcode: u32) -> (place: Option<usize>)
        ensures
            match place {
                Some(at) => variant_of(self.variants@, opcode) == Some(at as int) && at
                    < self.variants@.len() && self.variants@[at as int].opcode == opcode,
                None => variant_of(self.variants@, opcode) is None,
            },
    {
        let ghost all = self.variants@;
        let mut i: usize = 0;
        assert(all.skip(0) =~= all);
        while i < self.variants.len()
            invariant
                i <= self.variants@.len(),
                all == self.variants@,
                variant_of(all, opcode) == match variant_of(all.skip(i as int), opcode) {
                    Some(place) => Some(place + i),
                    None => None,
                },
            decreases self.variants@.len() - i,
        {
            assert(all.skip(i as int)[0] == all[i as int]);
            assert(all.skip(i as int).drop_first() =~= all.skip(i + 1));
            if self.variants[i].opcode == opcode {
                return Some(i);
            }
            i += 1;
        }
        None
    }

    /// Reads a message of this interface and direction: the message with the
    /// opcode that `msg` has, with the values of its fields from the bytes of
    /// `msg` and, for file descriptors, from those received on the
    /// connection. Nothing comes back if no message has that opcode, or if
    /// the values are not all there.
    pub fn unmarshal<F>(&self, msg: Message, conn: &mut Connection<F>) -> (decoded: Option<Decoded<F>>)
        requires
            old(conn).wf(),
        ensures
            final(conn).wf(),
            final(conn).same_sending(old(conn)),
            final(conn).family() == old(conn).family(),
            final(conn).order() == old(conn).order(),
            final(conn).incoming() == old(conn).incoming(),
            match variant_of(self.variants@, msg.spec_opcode()) {
                None => decoded is None && final(conn).incoming_fds() == old(conn).incoming_fds(),
                Some(at) => match read_fields(
                    old(conn).family(),
                    msg.spec_order(),
                    self.variants@[at].types(),
                    msg.remaining(),
                    old(conn).incoming_fds(),
                ) {
                    Some((found, left, unclaimed)) => {
                        &&& decoded is Some
                        &&& decoded.unwrap().variant == at
                        &&& decoded.unwrap().object == msg.spec_object()
                        &&& views(decoded.unwrap().values@) == found
                        &&& final(conn).incoming_fds() == unclaimed
                    },
                    None => decoded is None,
                },
            },
    {
        let mut reading = msg;
        match self.find(reading.opcode()) {
            None => None,
            Some(at) => {
                let family: Family = conn.kind();
                let object: u64 = reading.object();
                match read_all(family, &self.variants[at].fields, &mut reading, conn) {
                    Some(values) => Some(Decoded { variant: at, object, values }),
                    None => None,
                }
            },
        }
    }
}

/// A message that is queued whole is read back whole: the bytes that
/// conforming values of a message's fields make for an object are found as
/// one message for that object with that opcode, and from its bytes and the
/// message's file descriptors the same values are read.
pub proof fn lemma_message_round_trip<F>(family: Family, order: ByteOrder, object: u64, opcode: u32, types: Seq<FieldType>, values: Seq<ValueView<F>>, rest: Seq<u8>, more: Seq<F>)
    requires
        all_conform(family, types, values),
        frame_fits(family, wire_args(family, types, values)),
        family.holds_object(object),
        family.holds_opcode(opcode),
    ensures
        ({
            let args = wire_args(family, types, values);
            let frame = frame_bytes(family, order, object, opcode, args);
            let size = family.spec_header_len() + args_len(args);
            &&& frame.len() == size
            &&& next_frame(family, order, frame + rest) == (Frame::Complete {
                object,
                opcode,
                size: size as u32,
            })
            &&& read_fields(
                family,
                order,
                types,
                (frame + rest).subrange(family.spec_header_len() as int, size),
                wire_fds(values) + more,
            ) == Some((values, Seq::<u8>::empty(), more))
        }),
{
    let args = wire_args(family, types, values);
    lemma_whole_frame(family, order, object, opcode, args, rest);
    lemma_fields_round_trip(family, order, types, values, Seq::<u8>::empty(), more);
    assert(args_bytes(order, args) + Seq::<u8>::empty() =~= args_bytes(order, args));
}

/// File descriptors go to the messages that carry them: where the bytes of
/// two messages follow each other and their file descriptors are queued in
/// the same order, reading the first message claims exactly its own file
/// descriptors, and reading the second one claims exactly those of the
/// second.
pub proof fn lemma_fds_follow_messages<F>(family: Family, order: ByteOrder, first_types: Seq<FieldType>, first: Seq<ValueView<F>>, second_types: Seq<FieldType>, second: Seq<ValueView<F>>, rest: Seq<u8>, more: Seq<F>)
    requires
        all_conform(family, first_types, first),
        all_conform(family, second_types, second),
    ensures
        ({
            let second_bytes = args_bytes(order, wire_args(family, second_types, second));
            let second_fds = wire_fds(second);
            &&& read_fields(
                family,
                order,
                first_types,
                args_bytes(order, wire_args(family, first_types, first)) + (second_bytes + rest),
                wire_fds(first) + (second_fds + more),
            ) == Some((first, second_bytes + rest, second_fds + more))
            &&& read_fields(family, order, second_types, second_bytes + rest, second_fds + more)
                == Some((second, rest, more))
        }),
{
    let second_bytes = args_bytes(order, wire_args(family, second_types, second));
    lemma_fields_round_trip(
        family,
        order,
        first_types,
        first,
        second_bytes + rest,
        wire_fds(second) + more,
    );
    lemma_fields_round_trip(family, order, second_types, second, rest, more);
}

} // verus!
