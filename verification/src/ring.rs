//! The byte ring buffer that both directions of a connection queue their
//! bytes in. The buffer itself is `circbuf::CircBuf`; this file states, without
//! proof, what its methods do to the bytes it holds.

use circbuf::CircBuf;
use std::io::Read;
use std::io::Write;
use vstd::prelude::*;

verus! {

#[verifier::external_type_specification]
#[verifier::external_body]
pub struct ExCircBuf(circbuf::CircBuf);

/// The bytes that the ring holds and that were not read yet, oldest first.
pub uninterp spec fn ring_bytes(ring: CircBuf) -> Seq<u8>;

/// The size of the ring's storage. One byte of it always stays unused, so the
/// ring holds at most `ring_room(ring) - 1` bytes.
pub uninterp spec fn ring_room(ring: CircBuf) -> nat;

/// The size of the storage of a ring made by `CircBuf::new`.
pub const DEFAULT_ROOM: usize = 4096;

/// Up to this size of storage, doubling it cannot overflow a `usize`.
pub const SAFE_ROOM: usize = 0x4000_0000;

/// `CircBuf::new`: an empty ring over 4096 bytes of storage.
#[verifier::external_body]
pub(crate) fn ring_new() -> (ring: CircBuf)
    ensures
        ring_bytes(ring) == Seq::<u8>::empty(),
        ring_room(ring) == DEFAULT_ROOM,
{
    CircBuf::new()
}

/// `CircBuf::len`: the number of bytes held, which the two cursors give.
#[verifier::external_body]
pub(crate) fn ring_len(ring: &CircBuf) -> (n: usize)
    ensures
        n == ring_bytes(*ring).len(),
{
    ring.len()
}

/// `CircBuf::avail`: the storage size, less the one unused byte, less the
/// bytes held. It subtracts from the storage size and so needs it positive.
#[verifier::external_body]
pub(crate) fn ring_avail(ring: &CircBuf) -> (n: usize)
    requires
        ring_room(*ring) > 0,
    ensures
        ring_bytes(*ring).len() + n + 1 == ring_room(*ring),
{
    ring.avail()
}

/// `CircBuf::is_empty`: whether the two cursors meet, that is whether no byte
/// is held.
#[verifier::external_body]
pub(crate) fn ring_is_empty(ring: &CircBuf) -> (b: bool)
    ensures
        b == (ring_bytes(*ring).len() == 0),
{
    ring.is_empty()
}

/// `CircBuf::grow`: moves the bytes held into storage of the next power of two
/// that is at least twice the old size. It fails, changing nothing, only when
/// that size does not fit a `usize`.
#[verifier::external_body]
pub(crate) fn ring_grow(ring: &mut CircBuf) -> (grown: bool)
    requires
        ring_room(*old(ring)) > 0,
    ensures
        ring_bytes(*final(ring)) == ring_bytes(*old(ring)),
        grown ==> ring_room(*final(ring)) >= 2 * ring_room(*old(ring)),
        !grown ==> ring_room(*final(ring)) == ring_room(*old(ring)),
        ring_room(*old(ring)) <= SAFE_ROOM ==> grown,
{
    ring.grow().is_ok()
}

/// `Write::write_all` on a `CircBuf`: with room for all of `data`, one call of
/// `write` copies it in behind the bytes held and moves the write cursor.
#[verifier::external_body]
pub(crate) fn ring_write(ring: &mut CircBuf, data: &[u8])
    requires
        ring_bytes(*old(ring)).len() + data@.len() + 1 <= ring_room(*old(ring)),
    ensures
        ring_bytes(*final(ring)) == ring_bytes(*old(ring)) + data@,
        ring_room(*final(ring)) == ring_room(*old(ring)),
{
    let _ = ring.write_all(data);
}

/// `CircBuf::reader_peek` and `Read::read_exact` on it: a copy of the first `n`
/// bytes held, which stay in the ring.
#[verifier::external_body]
pub(crate) fn ring_peek(ring: &CircBuf, n: usize) -> (head: Vec<u8>)
    requires
        n <= ring_bytes(*ring).len(),
    ensures
        head@ == ring_bytes(*ring).subrange(0, n as int),
{
    let mut head = vec![0u8; n];
    let _ = ring.reader_peek().read_exact(&mut head);
    head
}

/// `CircBuf::get_bytes_upto_size`: the first `n` bytes held, or all of them if
/// there are fewer, as two slices of the storage; the second one is empty
/// unless those bytes wrap around its end.
#[verifier::external_body]
pub(crate) fn ring_spans<'a>(ring: &'a CircBuf, n: usize) -> (spans: (&'a [u8], &'a [u8]))
    requires
        ring_room(*ring) > 0,
    ensures
        n <= ring_bytes(*ring).len() ==> spans.0@ + spans.1@ == ring_bytes(*ring).subrange(
            0,
            n as int,
        ),
        n > ring_bytes(*ring).len() ==> spans.0@ + spans.1@ == ring_bytes(*ring),
{
    let [first, second] = ring.get_bytes_upto_size(n);
    (first, second)
}

/// `CircBuf::advance_read_raw`: moves the read cursor past the first `n` bytes
/// held. The method checks nothing, so no more than are held may be skipped.
#[verifier::external_body]
pub(crate) fn ring_advance(ring: &mut CircBuf, n: usize)
    requires
        ring_room(*old(ring)) > 0,
        n <= ring_bytes(*old(ring)).len(),
    ensures
        ring_bytes(*final(ring)) == ring_bytes(*old(ring)).subrange(
            n as int,
            ring_bytes(*old(ring)).len() as int,
        ),
        ring_room(*final(ring)) == ring_room(*old(ring)),
{
    ring.advance_read_raw(n);
}

} // verus!
