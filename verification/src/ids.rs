//! Object handles: the numbers that name objects on a connection, and what
//! the owner of a connection remembers about each.

use vstd::prelude::*;

verus! {

/// A typed object handle. Each interface of a protocol has a type of its own
/// for the handles of its objects; `I` is the type that tells the
/// interfaces apart.
pub trait Object<I>: Copy {
    /// The number of the handle.
    spec fn spec_id(self) -> u64;

    /// The interface that the handles of this type belong to.
    const INTERFACE: I;

    /// The handle with the given number.
    fn new(id: u64) -> (object: Self)
        ensures
            object.spec_id() == id,
    ;

    /// The number of the handle.
    fn id(self) -> (id: u64)
        ensures
            id == self.spec_id(),
    ;

    /// Whether this is the null handle, which names no object.
    fn is_null(self) -> (null: bool)
        ensures
            null == (self.spec_id() == 0),
    {
        self.id() == 0
    }
}

/// The handle of an object of whatever interface.
#[derive(Clone, Copy, Debug, Default, PartialEq, Eq, Hash)]
pub struct AnyObject(pub u64);

impl Object<()> for AnyObject {
    const INTERFACE: () = ();

    open spec fn spec_id(self) -> u64 {
        self.0
    }

    fn new(id: u64) -> (object: AnyObject) {
        AnyObject(id)
    }

    fn id(self) -> (id: u64) {
        self.0
    }
}

/// Hands out the numbers of a narrow-family connection, from 1 on, and keeps
/// a datum for each. A number that was released is handed out again before a
/// new one is made.
#[derive(Debug)]
pub struct IdAllocator<I> {
    next: u32,
    free: Vec<u32>,
    data: Vec<I>,
}

impl<I> IdAllocator<I> {
    /// The data of the numbers made so far: that of number `n` is at `n - 1`.
    pub closed spec fn data(&self) -> Seq<I> {
        self.data@
    }

    /// The numbers released and not handed out again; the last one is next.
    pub closed spec fn released(&self) -> Seq<u32> {
        self.free@
    }

    /// The numbers made so far are 1 up to the count of the data, and each
    /// released number is among them.
    pub closed spec fn wf(&self) -> bool {
        &&& self.next == self.data@.len() + 1
        &&& forall|k: int| 0 <= k < self.free@.len() ==> 1 <= #[trigger] self.free@[k] <= self.data@.len()
    }

    /// Whether `id` was made and is not released.
    pub open spec fn in_use(&self, id: u32) -> bool {
        1 <= id <= self.data().len() && !self.released().contains(id)
    }

    /// Whether a number can still be handed out: one is released, or a new
    /// one still fits 32 bits.
    pub open spec fn has_room(&self) -> bool {
        self.released().len() > 0 || self.data().len() + 1 < u32::MAX
    }

    /// An allocator that has made no number yet.
    pub fn new() -> (ids: IdAllocator<I>)
        ensures
            ids.wf(),
            ids.data().len() == 0,
            ids.released().len() == 0,
    {
        IdAllocator { next: 1, free: Vec::new(), data: Vec::new() }
    }

    /// Whether a number can still be handed out.
    pub fn can_allocate(&self) -> (room: bool)
        requires
            self.wf(),
        ensures
            room == self.has_room(),
    {
        self.free.len() > 0 || self.next < u32::MAX
    }

    /// Hands out a number for `datum`: the one released last, if any is
    /// released, and else the next new one. The number was not in use.
    pub fn allocate(&mut self, datum: I) -> (id: u32)
        requires
            old(self).wf(),
            old(self).has_room(),
        ensures
            final(self).wf(),
            !old(self).in_use(id),
            old(self).released().len() > 0 ==> {
                &&& id == old(self).released().last()
                &&& final(self).released() == old(self).released().drop_last()
                &&& final(self).data() == old(self).data().update(id - 1, datum)
            },
            old(self).released().len() == 0 ==> {
                &&& id == old(self).data().len() + 1
                &&& final(self).released() == old(self).released()
                &&& final(self).data() == old(self).data().push(datum)
            },
    {
        match self.free.pop() {
            Some(id) => {
                assert(old(self).released().last() == id);
                assert(old(self).released()[old(self).released().len() - 1] == id);
                self.data[id as usize - 1] = datum;
                id
            },
            None => {
                let id: u32 = self.next;
                self.next = id + 1;
                self.data.push(datum);
                id
            },
        }
    }

    /// Whether `id` was made: it is at least 1 and at most the count of the
    /// numbers made.
    pub fn knows(&self, id: u32) -> (known: bool)
        ensures
            known == (1 <= id <= self.data().len()),
    {
        id >= 1 && id as usize <= self.data.len()
    }

    /// Takes note that `id` is no longer in use.
    pub fn release(&mut self, id: u32)
        requires
            old(self).wf(),
            1 <= id <= old(self).data().len(),
        ensures
            final(self).wf(),
            final(self).released() == old(self).released().push(id),
            final(self).data() == old(self).data(),
    {
        self.free.push(id);
    }

    /// The datum of the number `id`.
    pub fn data_for(&self, id: u32) -> (datum: &I)
        requires
            1 <= id <= self.data().len(),
        ensures
            *datum == self.data()[id - 1],
    {
        &self.data[id as usize - 1]
    }
}

/// Hands out the numbers of a wide-family connection, from 0 on, one after
/// another, and keeps a datum for each.
#[derive(Debug)]
pub struct Sequence<I> {
    data: Vec<I>,
}

impl<I> Sequence<I> {
    /// The data of the numbers made so far: that of number `n` is at `n`.
    pub closed spec fn data(&self) -> Seq<I> {
        self.data@
    }

    /// A sequence that has made no number yet.
    pub fn new() -> (ids: Sequence<I>)
        ensures
            ids.data().len() == 0,
    {
        Sequence { data: Vec::new() }
    }

    /// Hands out the next number, for `datum`.
    pub fn create(&mut self, datum: I) -> (id: u64)
        requires
            old(self).data().len() < u64::MAX,
        ensures
            id == old(self).data().len(),
            final(self).data() == old(self).data().push(datum),
    {
        let id: u64 = self.data.len() as u64;
        self.data.push(datum);
        id
    }

    /// The datum of the number `id`, if the number was made.
    pub fn data_for(&self, id: u64) -> (datum: Option<&I>)
        ensures
            match datum {
                Some(datum) => id < self.data().len() && *datum == self.data()[id as int],
                None => id >= self.data().len(),
            },
    {
        if id < self.data.len() as u64 {
            Some(&self.data[id as usize])
        } else {
            None
        }
    }
}

/// An interface that a display server offers: the number under which it
/// offers it, and the highest version of it that it speaks.
#[derive(Clone, Copy, Debug, PartialEq, Eq, Structural)]
pub struct Global {
    pub name: u32,
    pub version: u32,
}

/// The place of the first offer of at least a version.
pub open spec fn first_offer(offers: Seq<Global>, lowest: u32) -> Option<int>
    decreases offers.len(),
{
    if offers.len() == 0 {
        None
    } else if offers[0].version >= lowest {
        Some(0)
    } else {
        match first_offer(offers.drop_first(), lowest) {
            Some(place) => Some(place + 1),
            None => None,
        }
    }
}

/// Which offer of an interface to take, and in which version: the first one
/// of at least the lowest version that will do, in the version offered, but
/// no higher than the highest that is of use.
pub fn bind_global(offers: &Vec<Global>, lowest: u32, highest: u32) -> (bound: Option<Global>)
    ensures
        match first_offer(offers@, lowest) {
            Some(place) => 0 <= place < offers@.len() && bound == Some(
                Global {
                    name: offers@[place].name,
                    version: if offers@[place].version < highest {
                        offers@[place].version
                    } else {
                        highest
                    },
                },
            ),
            None => bound is None,
        },
{
    let mut i: usize = 0;
    assert(offers@.skip(0) =~= offers@);
    while i < offers.len()
        invariant
            i <= offers@.len(),
            first_offer(offers@, lowest) == match first_offer(offers@.skip(i as int), lowest) {
                Some(place) => Some(place + i),
                None => None,
            },
        decreases offers@.len() - i,
    {
        assert(offers@.skip(i as int)[0] == offers@[i as int]);
        assert(offers@.skip(i as int).drop_first() =~= offers@.skip(i + 1));
        let offer: Global = offers[i];
        if offer.version >= lowest {
            let version: u32 = if offer.version < highest {
                offer.version
            } else {
                highest
            };
            return Some(Global { name: offer.name, version });
        }
        i = i + 1;
    }
    None
}

} // verus!
