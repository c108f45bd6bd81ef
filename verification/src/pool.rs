//! The resource pool: live resources behind stable handles.
//!
//! Each open connection or listener is exactly one [`Resource`].  Handles are
//! slot indices that are handed out in increasing order and never recycled: a
//! removed resource leaves its slot empty forever, so a new connection can
//! never be mistaken for an old one.  Removal is idempotent, because a local
//! close and a peer-driven failure can race to remove the same resource.

use vstd::prelude::*;
use crate::addr::NetAddr;
use crate::frame::FrameDecoder;
use crate::frame::views_of;
use crate::transport::Transport;

verus! {

/// What a resource stands for.
#[derive(Clone, Copy, PartialEq, Eq, Debug, Structural)]
pub enum ResourceKind {
    /// A bound socket accepting peers or receiving datagrams.
    Listener,
    /// One connection to one peer.
    Connection,
}

/// Progress of a connection-oriented resource.
#[derive(Clone, Copy, PartialEq, Eq, Debug, Structural)]
pub enum ConnStatus {
    /// The non-blocking connect was issued; completion will be signalled by
    /// write readiness.
    PendingConnect,
    /// The connection is usable.
    Established,
}

/// The concatenation of the queued outbound units: the byte stream still
/// owed to the wire, in send order.
pub open spec fn spec_out_stream(q: Seq<Seq<u8>>) -> Seq<u8>
    decreases q.len(),
{
    if q.len() == 0 {
        Seq::empty()
    } else {
        q[0] + spec_out_stream(q.skip(1))
    }
}

/// Appending a unit appends its bytes to the outbound stream.
pub proof fn lemma_out_stream_push(q: Seq<Seq<u8>>, u: Seq<u8>)
    ensures
        spec_out_stream(q.push(u)) == spec_out_stream(q) + u,
    decreases q.len(),
{
    if q.len() == 0 {
        assert(q.push(u).skip(1) =~= Seq::<Seq<u8>>::empty());
        assert(spec_out_stream(q.push(u).skip(1)) == Seq::<u8>::empty());
        assert(q.push(u)[0] == u);
        assert(spec_out_stream(q.push(u)) == u + Seq::<u8>::empty());
        assert(u + Seq::<u8>::empty() =~= spec_out_stream(q) + u);
    } else {
        assert(q.push(u).skip(1) =~= q.skip(1).push(u));
        lemma_out_stream_push(q.skip(1), u);
        assert(q.push(u)[0] == q[0]);
        assert(spec_out_stream(q.push(u)) == q[0] + (spec_out_stream(q.skip(1)) + u));
        assert(q[0] + (spec_out_stream(q.skip(1)) + u) =~= (q[0] + spec_out_stream(q.skip(1)))
            + u);
    }
}

/// Flushing `k` bytes of the front unit drops exactly the first `k` bytes of
/// the outbound stream, keeping every later unit intact.
pub proof fn lemma_out_stream_flush_front(q: Seq<Seq<u8>>, k: int)
    requires
        q.len() > 0,
        0 <= k <= q[0].len(),
    ensures
        k < q[0].len() ==> spec_out_stream(q.update(0, q[0].skip(k))) == spec_out_stream(
            q,
        ).skip(k),
        k == q[0].len() ==> spec_out_stream(q.skip(1)) == spec_out_stream(q).skip(k),
{
    assert((q[0] + spec_out_stream(q.skip(1))).skip(k) =~= q[0].skip(k) + spec_out_stream(
        q.skip(1),
    ));
    if k < q[0].len() {
        let q2 = q.update(0, q[0].skip(k));
        assert(q2.skip(1) =~= q.skip(1));
        assert(spec_out_stream(q2) == q[0].skip(k) + spec_out_stream(q.skip(1)));
    } else {
        assert(q[0].skip(k) =~= Seq::<u8>::empty());
        assert(q[0].skip(k) + spec_out_stream(q.skip(1)) =~= spec_out_stream(q.skip(1)));
    }
}

/// A live OS-level socket together with its adapter-private read and write
/// state.
pub struct Resource {
    /// The transport whose adapter drives this resource; never changes after
    /// creation.
    pub transport: Transport,
    /// Listener or connection.
    pub kind: ResourceKind,
    /// Connection progress; meaningful for connection-oriented connections.
    pub status: ConnStatus,
    /// Partial-frame state of the framing codec; drives FramedTcp reads.
    pub decoder: FrameDecoder,
    /// Outbound units not yet flushed to the wire, in send order.  Stream
    /// transports flush them as one contiguous byte stream.
    pub outbox: Vec<Vec<u8>>,
    /// Total bytes queued in `outbox`; the backpressure measure.
    pub buffered: usize,
    /// Whether this datagram listener joined a multicast group.
    pub multicast: bool,
    /// The peer (or bound) address the resource was created with.
    pub peer: NetAddr,
}

impl Resource {
    /// The outbound units as byte sequences.
    pub open spec fn out_units(self) -> Seq<Seq<u8>> {
        views_of(self.outbox@)
    }

    /// The byte stream still owed to the wire for this resource.
    pub open spec fn out_stream(self) -> Seq<u8> {
        spec_out_stream(self.out_units())
    }

    /// The decoder is sound and the byte accounting matches the queue.
    pub open spec fn wf(self) -> bool {
        &&& self.decoder.wf()
        &&& self.buffered == self.out_stream().len()
    }
}

/// The pool of live resources, indexed by handle.
///
/// Slots are only ever appended; removal empties a slot without ever reusing
/// it, so a handle stays bound to at most one resource over the whole life
/// of the pool.
pub struct ResourcePool {
    slots: Vec<Option<Resource>>,
}

impl View for ResourcePool {
    type V = Seq<Option<Resource>>;

    closed spec fn view(&self) -> Seq<Option<Resource>> {
        self.slots@
    }
}

impl ResourcePool {
    /// Whether handle `id` currently addresses a resource.
    pub open spec fn live(self, id: int) -> bool {
        0 <= id < self@.len() && self@[id] is Some
    }

    /// The resource behind a live handle.
    pub open spec fn res(self, id: int) -> Resource
        recommends
            self.live(id),
    {
        self@[id]->0
    }

    /// An empty pool.
    pub fn new() -> (r: ResourcePool)
        ensures
            r@ == Seq::<Option<Resource>>::empty(),
    {
        ResourcePool { slots: Vec::new() }
    }

    /// Number of slots ever handed out.
    pub fn slot_count(&self) -> (r: usize)
        ensures
            r == self@.len(),
    {
        self.slots.len()
    }

    /// Adds a resource and returns its handle: always the next slot, never
    /// one that was used before.
    pub fn add(&mut self, r: Resource) -> (id: usize)
        ensures
            id == old(self)@.len(),
            final(self)@ == old(self)@.push(Some(r)),
    {
        let id = self.slots.len();
        self.slots.push(Some(r));
        id
    }

    /// Whether handle `id` addresses a live resource.
    pub fn contains(&self, id: usize) -> (r: bool)
        ensures
            r == self.live(id as int),
    {
        id < self.slots.len() && self.slots[id].is_some()
    }

    /// Borrows the resource behind `id`, if it is live.
    pub fn borrow_res(&self, id: usize) -> (r: Option<&Resource>)
        ensures
            r is Some <==> self.live(id as int),
            r is Some ==> *r->0 == self.res(id as int),
    {
        if id < self.slots.len() {
            self.slots[id].as_ref()
        } else {
            None
        }
    }

    /// Takes the resource behind `id` out of the pool, leaving the slot
    /// empty; returns nothing if the slot is already empty or was never
    /// handed out.
    pub fn take(&mut self, id: usize) -> (r: Option<Resource>)
        ensures
            old(self).live(id as int) ==> r == Some(old(self).res(id as int)) && final(self)@
                == old(self)@.update(id as int, None),
            !old(self).live(id as int) ==> r is None && final(self)@ == old(self)@,
    {
        if id < self.slots.len() {
            let mut taken: Option<Resource> = None;
            let slot = &mut self.slots[id];
            core::mem::swap(slot, &mut taken);
            proof {
                if old(self).live(id as int) {
                    assert(final(self)@ =~= old(self)@.update(id as int, None));
                } else {
                    assert(final(self)@ =~= old(self)@);
                }
            }
            taken
        } else {
            None
        }
    }

    /// Puts a resource back into its (empty) slot.
    pub fn put(&mut self, id: usize, r: Resource)
        requires
            (id as int) < old(self)@.len(),
        ensures
            final(self)@ == old(self)@.update(id as int, Some(r)),
    {
        let slot = &mut self.slots[id];
        *slot = Some(r);
    }

    /// Removes the resource behind `id`.  Idempotent: removing an empty or
    /// never-issued handle changes nothing and is not an error.
    pub fn remove(&mut self, id: usize)
        ensures
            old(self).live(id as int) ==> final(self)@ == old(self)@.update(id as int, None),
            !old(self).live(id as int) ==> final(self)@ == old(self)@,
    {
        let _ = self.take(id);
    }
}

/// Handle non-reuse: every handle that addresses, or ever addressed, a
/// resource lies below the pool's slot count, while `add` returns exactly
/// the slot count and only appends — so the handle of a new resource differs
/// from every handle the pool ever issued, and an endpoint can never be
/// reassigned to a new resource.
pub proof fn lemma_handle_non_reuse(p: ResourcePool, id: int)
    requires
        p.live(id),
    ensures
        0 <= id < p@.len(),
{
}

} // verus!
