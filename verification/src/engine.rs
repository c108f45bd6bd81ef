//! The event engine: turns readiness into ordered events and drives sends.
//!
//! One engine instance owns one registry, one resource pool and one FIFO
//! event queue, and is driven by a single cooperative readiness loop.  The
//! loop performs the OS-level waiting, reading and writing and reports each
//! outcome here; every decision — what to buffer, what to emit, what to
//! reject, when a resource dies — is taken by the functions of this module,
//! which never block.

use vstd::prelude::*;
use vstd::pervasive::VecAdditionalExecFns;
use crate::addr::NetAddr;
use crate::frame::FrameDecoder;
use crate::frame::MAX_FRAMED_TCP_PAYLOAD_LEN;
use crate::frame::encode_frame;
use crate::frame::spec_encode;
use crate::frame::spec_frames;
use crate::frame::spec_residue;
use crate::frame::spec_violation;
use crate::frame::views_of;
use crate::pool::ConnStatus;
use crate::pool::Resource;
use crate::pool::ResourceKind;
use crate::pool::ResourcePool;
use crate::pool::lemma_out_stream_flush_front;
use crate::pool::lemma_out_stream_push;
use crate::pool::spec_out_stream;
use crate::registry::AdapterLauncher;
use crate::transport::MAX_UDP_PAYLOAD_LEN;
use crate::transport::MAX_WS_PAYLOAD_LEN;
use crate::transport::TCP_INPUT_BUFFER_LEN;
use crate::transport::Transport;

verus! {

/// Once a resource's buffered unsent bytes exceed this watermark, further
/// sends on it fail with a recoverable busy condition instead of growing the
/// buffer without bound.
pub const SEND_BUFFER_WATERMARK: usize = 1048576;

/// Bound on the readiness poll's wait, in milliseconds, so the loop
/// periodically yields control even with no socket activity.
pub const POLL_WAIT_MILLIS: u64 = 100;

/// Why a resource was destroyed.
#[derive(Clone, Copy, PartialEq, Eq, Debug, Structural)]
pub enum DisconnectReason {
    /// The peer or the application closed the connection in an orderly way.
    GracefulClose,
    /// The peer reset the connection.
    PeerReset,
    /// The peer broke the wire contract, e.g. declared an oversize frame.
    ProtocolViolation,
    /// An unrecoverable I/O error on this resource alone.
    IoError,
}

/// A stable handle addressing one live resource — plus, for datagram
/// traffic, the ephemeral address of the sending peer, valid for replying
/// only.
///
/// A handle is never reassigned to a new resource: the pool hands slots out
/// in increasing order and never recycles one.
#[derive(Clone, Copy, PartialEq, Eq, Hash, Debug, Structural)]
pub struct Endpoint {
    /// The pool slot of the resource.
    pub resource_id: usize,
    /// The peer (or bound) address the handle speaks for.
    pub peer: NetAddr,
}

/// An event produced by the engine, consumed by the application in FIFO
/// order.
pub enum Event {
    /// A pending connect completed; the endpoint is usable.
    Connected(Endpoint),
    /// A listener accepted a new connection: the new endpoint, then the
    /// listener's.
    Accepted(Endpoint, Endpoint),
    /// One received payload.
    Message(Endpoint, Vec<u8>),
    /// The resource was destroyed; exactly one such event per
    /// connection-oriented connection.
    Disconnected(Endpoint, DisconnectReason),
}

/// The mathematical value of an event: as [`Event`], with the payload as a
/// byte sequence.
pub enum EventView {
    /// A pending connect completed.
    Connected(Endpoint),
    /// A new connection and its listener.
    Accepted(Endpoint, Endpoint),
    /// One received payload.
    Message(Endpoint, Seq<u8>),
    /// The resource was destroyed.
    Disconnected(Endpoint, DisconnectReason),
}

impl View for Event {
    type V = EventView;

    open spec fn view(&self) -> EventView {
        match self {
            Event::Connected(e) => EventView::Connected(*e),
            Event::Accepted(e, l) => EventView::Accepted(*e, *l),
            Event::Message(e, m) => EventView::Message(*e, m@),
            Event::Disconnected(e, r) => EventView::Disconnected(*e, *r),
        }
    }
}

/// Why a send was refused.
#[derive(Clone, Copy, PartialEq, Eq, Debug, Structural)]
pub enum SendError {
    /// The endpoint addresses no live resource.
    ResourceNotFound,
    /// The payload exceeds the transport's ceiling; nothing was written.
    Oversized,
    /// Buffered unsent bytes exceed the watermark; retry later.
    Busy,
}

/// The views of a queue of events.
pub open spec fn spec_event_views(evs: Seq<Event>) -> Seq<EventView> {
    evs.map_values(|ev: Event| ev@)
}

/// One Message event per payload, in order, all for the same endpoint.
pub open spec fn spec_message_events(e: Endpoint, ms: Seq<Seq<u8>>) -> Seq<EventView> {
    ms.map_values(|m: Seq<u8>| EventView::Message(e, m))
}

/// The unit that one send puts on the endpoint's outbound queue: the framed
/// encoding for the length-framed transport, the raw payload otherwise.
pub open spec fn spec_send_unit(t: Transport, data: Seq<u8>) -> Seq<u8> {
    if t == Transport::FramedTcp {
        spec_encode(data)
    } else {
        data
    }
}

/// All slots but `id` agree between two pool states of equal size.
pub open spec fn same_other_slots(
    pre: Seq<Option<Resource>>,
    post: Seq<Option<Resource>>,
    id: int,
) -> bool {
    &&& post.len() == pre.len()
    &&& forall|i: int| 0 <= i < pre.len() && i != id ==> post[i] == pre[i]
}

/// A resource freshly created by connect, listen or accept: empty buffers, a
/// fresh decoder, and the identity it will keep for its whole life.
pub open spec fn spec_fresh_resource(
    r: Resource,
    t: Transport,
    kind: ResourceKind,
    status: ConnStatus,
    mcast: bool,
    peer: NetAddr,
) -> bool {
    &&& r.transport == t
    &&& r.kind == kind
    &&& r.status == status
    &&& r.decoder@ == Seq::<u8>::empty()
    &&& r.outbox@ == Seq::<Vec<u8>>::empty()
    &&& r.buffered == 0
    &&& r.multicast == mcast
    &&& r.peer == peer
    &&& r.wf()
}

/// Copies a payload into an owned buffer.
fn copy_bytes(src: &Vec<u8>) -> (r: Vec<u8>)
    ensures
        r@ == src@,
{
    let mut out: Vec<u8> = Vec::new();
    let mut i: usize = 0;
    while i < src.len()
        invariant
            i <= src@.len(),
            out@ == src@.take(i as int),
        decreases src@.len() - i,
    {
        out.push(src[i]);
        i += 1;
        assert(out@ =~= src@.take(i as int));
    }
    assert(out@ =~= src@);
    out
}

/// The fields a resource keeps unchanged for its whole life.
pub open spec fn same_identity(a: Resource, b: Resource) -> bool {
    &&& b.transport == a.transport
    &&& b.kind == a.kind
    &&& b.multicast == a.multicast
    &&& b.peer == a.peer
}

/// One engine instance: registry, resource pool and ordered event queue.
pub struct EventEngine {
    /// The adapters mounted before the engine started; immutable afterward.
    pub launcher: AdapterLauncher,
    /// The live resources, behind never-recycled handles.
    pub pool: ResourcePool,
    /// Events not yet consumed by the application, oldest first.
    pub events: Vec<Event>,
}

impl EventEngine {
    /// Whether `e` addresses a live resource.
    pub open spec fn live(self, e: Endpoint) -> bool {
        self.pool.live(e.resource_id as int)
    }

    /// The resource behind a live endpoint.
    pub open spec fn res(self, e: Endpoint) -> Resource
        recommends
            self.live(e),
    {
        self.pool.res(e.resource_id as int)
    }

    /// The values of the queued events, oldest first.
    pub open spec fn events_view(self) -> Seq<EventView> {
        spec_event_views(self.events@)
    }

    /// Well-formedness: a valid registry and every live resource sound.
    pub open spec fn wf(self) -> bool {
        &&& self.launcher.wf()
        &&& forall|i: int| #[trigger] self.pool.live(i) ==> self.pool.res(i).wf()
    }

    /// A new engine around a populated registry, with no resources and no
    /// events.
    pub fn new(launcher: AdapterLauncher) -> (r: EventEngine)
        requires
            launcher.wf(),
        ensures
            r.wf(),
            r.launcher == launcher,
            r.pool@ == Seq::<Option<Resource>>::empty(),
            r.events@ == Seq::<Event>::empty(),
    {
        EventEngine { launcher, pool: ResourcePool::new(), events: Vec::new() }
    }

    /// Opens a connection towards `peer` on `transport` and returns its
    /// endpoint at once; for a connection-oriented transport the resource
    /// stays pending until the readiness loop reports the connect complete,
    /// which is then signalled by a Connected event.
    ///
    /// Requires the transport's adapter to be mounted: using an unmounted
    /// transport is a programming error caught at startup validation.
    pub fn connect(&mut self, transport: Transport, peer: NetAddr) -> (e: Endpoint)
        requires
            old(self).wf(),
            old(self).launcher.spec_mounted(transport),
        ensures
            final(self).wf(),
            e.resource_id == old(self).pool@.len(),
            e.peer == peer,
            final(self).live(e),
            spec_fresh_resource(
                final(self).res(e),
                transport,
                ResourceKind::Connection,
                if transport.spec_is_connection_oriented() {
                    ConnStatus::PendingConnect
                } else {
                    ConnStatus::Established
                },
                false,
                peer,
            ),
            final(self).pool@ == old(self).pool@.push(final(self).pool@.last()),
            final(self).events@ == old(self).events@,
            final(self).launcher == old(self).launcher,
    {
        let status = if transport.is_connection_oriented() {
            ConnStatus::PendingConnect
        } else {
            ConnStatus::Established
        };
        let r = Resource {
            transport,
            kind: ResourceKind::Connection,
            status,
            decoder: FrameDecoder::new(),
            outbox: Vec::new(),
            buffered: 0,
            multicast: false,
            peer,
        };
        proof {
            assert(views_of(r.outbox@) =~= Seq::<Seq<u8>>::empty());
            assert(r.out_stream() == Seq::<u8>::empty());
        }
        let id = self.pool.add(r);
        let e = Endpoint { resource_id: id, peer };
        proof {
            assert forall|i: int| #[trigger] self.pool.live(i) implies self.pool.res(i).wf() by {
                if i < old(self).pool@.len() {
                    assert(old(self).pool.live(i));
                }
            }
        }
        e
    }

    /// Binds a listener on `transport` at `addr` and returns its endpoint.
    ///
    /// A datagram listener bound to a multicast IPv4 address additionally
    /// joins that group (with address and port reuse, so several listeners
    /// may share it); every other listener is a plain socket.
    pub fn listen(&mut self, transport: Transport, addr: NetAddr) -> (e: Endpoint)
        requires
            old(self).wf(),
            old(self).launcher.spec_mounted(transport),
        ensures
            final(self).wf(),
            e.resource_id == old(self).pool@.len(),
            e.peer == addr,
            final(self).live(e),
            spec_fresh_resource(
                final(self).res(e),
                transport,
                ResourceKind::Listener,
                ConnStatus::Established,
                transport == Transport::Udp && addr.ip.spec_is_multicast(),
                addr,
            ),
            final(self).pool@ == old(self).pool@.push(final(self).pool@.last()),
            final(self).events@ == old(self).events@,
            final(self).launcher == old(self).launcher,
    {
        let mcast = match transport {
            Transport::Udp => addr.ip.is_multicast(),
            _ => false,
        };
        let r = Resource {
            transport,
            kind: ResourceKind::Listener,
            status: ConnStatus::Established,
            decoder: FrameDecoder::new(),
            outbox: Vec::new(),
            buffered: 0,
            multicast: mcast,
            peer: addr,
        };
        proof {
            assert(views_of(r.outbox@) =~= Seq::<Seq<u8>>::empty());
            assert(r.out_stream() == Seq::<u8>::empty());
        }
        let id = self.pool.add(r);
        let e = Endpoint { resource_id: id, peer: addr };
        proof {
            assert forall|i: int| #[trigger] self.pool.live(i) implies self.pool.res(i).wf() by {
                if i < old(self).pool@.len() {
                    assert(old(self).pool.live(i));
                }
            }
        }
        e
    }

    /// Closes the resource behind `e` for the given reason: removes it from
    /// the pool and emits exactly one Disconnected event if the resource was
    /// a connection of a connection-oriented transport — datagram endpoints
    /// produce no Disconnected events.  Idempotent: closing a dead endpoint
    /// changes nothing, since a local close and a peer-driven failure may
    /// race.
    pub fn close(&mut self, e: Endpoint, reason: DisconnectReason)
        requires
            old(self).wf(),
        ensures
            final(self).wf(),
            final(self).launcher == old(self).launcher,
            !old(self).live(e) ==> final(self).pool@ == old(self).pool@ && final(self).events@
                == old(self).events@,
            old(self).live(e) ==> {
                &&& final(self).pool@ == old(self).pool@.update(e.resource_id as int, None)
                &&& if old(self).res(e).kind == ResourceKind::Connection && old(
                    self,
                ).res(e).transport.spec_is_connection_oriented() {
                    final(self).events_view() == old(self).events_view().push(
                        EventView::Disconnected(e, reason),
                    )
                } else {
                    final(self).events@ == old(self).events@
                }
            },
    {
        let taken = self.pool.take(e.resource_id);
        match taken {
            None => {},
            Some(r) => {
                let emit = match r.kind {
                    ResourceKind::Connection => r.transport.is_connection_oriented(),
                    ResourceKind::Listener => false,
                };
                if emit {
                    let ghost pre: Seq<Event> = self.events@;
                    self.events.push(Event::Disconnected(e, reason));
                    proof {
                        assert(spec_event_views(self.events@) =~= spec_event_views(pre).push(
                            EventView::Disconnected(e, reason),
                        ));
                    }
                }
            },
        }
        proof {
            assert forall|i: int| #[trigger] self.pool.live(i) implies self.pool.res(i).wf() by {
                assert(old(self).pool.live(i));
            }
        }
    }

    /// The readiness loop reports that a pending non-blocking connect
    /// completed (detected by write readiness): the resource becomes
    /// established and exactly one Connected event is emitted.
    pub fn handle_connect_ready(&mut self, e: Endpoint)
        requires
            old(self).wf(),
            old(self).live(e),
            old(self).res(e).kind == ResourceKind::Connection,
            old(self).res(e).status == ConnStatus::PendingConnect,
        ensures
            final(self).wf(),
            final(self).launcher == old(self).launcher,
            same_other_slots(old(self).pool@, final(self).pool@, e.resource_id as int),
            final(self).live(e),
            final(self).res(e).status == ConnStatus::Established,
            same_identity(old(self).res(e), final(self).res(e)),
            final(self).res(e).decoder == old(self).res(e).decoder,
            final(self).res(e).outbox == old(self).res(e).outbox,
            final(self).res(e).buffered == old(self).res(e).buffered,
            final(self).events_view() == old(self).events_view().push(EventView::Connected(e)),
    {
        let rid = e.resource_id;
        let taken = self.pool.take(rid);
        let mut res = match taken {
            Some(r) => r,
            None => unreached(),
        };
        res.status = ConnStatus::Established;
        assert(res.wf());
        self.pool.put(rid, res);
        let ghost pre: Seq<Event> = self.events@;
        self.events.push(Event::Connected(e));
        proof {
            assert(spec_event_views(self.events@) =~= spec_event_views(pre).push(
                EventView::Connected(e),
            ));
            assert forall|i: int| #[trigger] self.pool.live(i) implies self.pool.res(i).wf() by {
                if i != rid as int {
                    assert(old(self).pool.live(i));
                }
            }
        }
    }

    /// The readiness loop reports that a listener accepted one new
    /// connection from `peer`: the connection joins the pool under a fresh
    /// handle — never one used before — and one Accepted event referencing
    /// both the new endpoint and its listener is emitted.  A listener wake
    /// may accept several connections; the loop calls this once per
    /// connection so none of a burst is missed.
    pub fn handle_accepted(&mut self, listener: Endpoint, peer: NetAddr) -> (e: Endpoint)
        requires
            old(self).wf(),
            old(self).live(listener),
            old(self).res(listener).kind == ResourceKind::Listener,
            old(self).res(listener).transport.spec_is_connection_oriented(),
        ensures
            final(self).wf(),
            final(self).launcher == old(self).launcher,
            e.resource_id == old(self).pool@.len(),
            e.peer == peer,
            final(self).live(e),
            spec_fresh_resource(
                final(self).res(e),
                old(self).res(listener).transport,
                ResourceKind::Connection,
                ConnStatus::Established,
                false,
                peer,
            ),
            final(self).pool@.len() == old(self).pool@.len() + 1,
            forall|i: int| 0 <= i < old(self).pool@.len() ==> final(self).pool@[i] == old(
                self,
            ).pool@[i],
            final(self).events_view() == old(self).events_view().push(
                EventView::Accepted(e, listener),
            ),
    {
        let taken = self.pool.take(listener.resource_id);
        let lres = match taken {
            Some(r) => r,
            None => unreached(),
        };
        let transport = lres.transport;
        self.pool.put(listener.resource_id, lres);
        proof {
            assert(self.pool@ =~= old(self).pool@);
        }
        let r = Resource {
            transport,
            kind: ResourceKind::Connection,
            status: ConnStatus::Established,
            decoder: FrameDecoder::new(),
            outbox: Vec::new(),
            buffered: 0,
            multicast: false,
            peer,
        };
        proof {
            assert(views_of(r.outbox@) =~= Seq::<Seq<u8>>::empty());
            assert(r.out_stream() == Seq::<u8>::empty());
        }
        let id = self.pool.add(r);
        let e = Endpoint { resource_id: id, peer };
        let ghost pre: Seq<Event> = self.events@;
        self.events.push(Event::Accepted(e, listener));
        proof {
            assert(spec_event_views(self.events@) =~= spec_event_views(pre).push(
                EventView::Accepted(e, listener),
            ));
            assert forall|i: int| #[trigger] self.pool.live(i) implies self.pool.res(i).wf() by {
                if i < old(self).pool@.len() {
                    assert(old(self).pool.live(i));
                }
            }
        }
        e
    }

    /// Queues one payload for `e`.  Fails fast — before any byte is staged
    /// for the wire — when the endpoint is dead, when the payload exceeds
    /// the transport's ceiling, or, recoverably, when the resource's
    /// buffered unsent bytes exceed the watermark; each failure leaves the
    /// engine exactly as it was.  On success the payload (framed, for the
    /// length-framed transport) is appended as one unit to the endpoint's
    /// outbound queue, behind everything sent before it.
    pub fn send(&mut self, e: Endpoint, data: &Vec<u8>) -> (r: Result<(), SendError>)
        requires
            old(self).wf(),
        ensures
            final(self).wf(),
            final(self).launcher == old(self).launcher,
            final(self).events@ == old(self).events@,
            !old(self).live(e) ==> r == Err::<(), SendError>(SendError::ResourceNotFound)
                && final(self).pool@ == old(self).pool@,
            old(self).live(e) && data@.len() > old(self).res(e).transport.spec_max_message_size()
                ==> r == Err::<(), SendError>(SendError::Oversized) && final(self).pool@ == old(
                self,
            ).pool@,
            old(self).live(e) && data@.len() <= old(self).res(e).transport.spec_max_message_size()
                && old(self).res(e).buffered > SEND_BUFFER_WATERMARK ==> r == Err::<
                (),
                SendError,
            >(SendError::Busy) && final(self).pool@ == old(self).pool@,
            old(self).live(e) && data@.len() <= old(self).res(e).transport.spec_max_message_size()
                && old(self).res(e).buffered <= SEND_BUFFER_WATERMARK ==> {
                &&& r == Ok::<(), SendError>(())
                &&& same_other_slots(old(self).pool@, final(self).pool@, e.resource_id as int)
                &&& final(self).live(e)
                &&& final(self).res(e).out_units() == old(self).res(e).out_units().push(
                    spec_send_unit(old(self).res(e).transport, data@),
                )
                &&& final(self).res(e).out_stream() == old(self).res(e).out_stream()
                    + spec_send_unit(old(self).res(e).transport, data@)
                &&& same_identity(old(self).res(e), final(self).res(e))
                &&& final(self).res(e).status == old(self).res(e).status
                &&& final(self).res(e).decoder == old(self).res(e).decoder
            },
    {
        let rid = e.resource_id;
        let taken = self.pool.take(rid);
        match taken {
            None => {
                proof {
                    assert(self.pool@ =~= old(self).pool@);
                    assert forall|i: int| #[trigger] self.pool.live(i) implies self.pool.res(
                        i,
                    ).wf() by {
                        assert(old(self).pool.live(i));
                    }
                }
                Err(SendError::ResourceNotFound)
            },
            Some(res) => {
                if data.len() > res.transport.max_message_size() {
                    self.pool.put(rid, res);
                    proof {
                        assert(self.pool@ =~= old(self).pool@);
                        assert forall|i: int| #[trigger] self.pool.live(i) implies self.pool.res(
                            i,
                        ).wf() by {
                            assert(old(self).pool.live(i));
                        }
                    }
                    Err(SendError::Oversized)
                } else if res.buffered > SEND_BUFFER_WATERMARK {
                    self.pool.put(rid, res);
                    proof {
                        assert(self.pool@ =~= old(self).pool@);
                        assert forall|i: int| #[trigger] self.pool.live(i) implies self.pool.res(
                            i,
                        ).wf() by {
                            assert(old(self).pool.live(i));
                        }
                    }
                    Err(SendError::Busy)
                } else {
                    let mut res = res;
                    let is_framed = match res.transport {
                        Transport::FramedTcp => true,
                        _ => false,
                    };
                    let unit: Vec<u8> = if is_framed {
                        match encode_frame(data) {
                            Ok(u) => u,
                            Err(_) => unreached(),
                        }
                    } else {
                        copy_bytes(data)
                    };
                    assert(unit@ == spec_send_unit(res.transport, data@));
                    let ghost units_pre = res.out_units();
                    proof {
                        lemma_out_stream_push(units_pre, unit@);
                    }
                    res.buffered = res.buffered + unit.len();
                    res.outbox.push(unit);
                    proof {
                        assert(res.out_units() =~= units_pre.push(
                            spec_send_unit(res.transport, data@),
                        ));
                    }
                    assert(res.wf());
                    self.pool.put(rid, res);
                    proof {
                        assert forall|i: int| #[trigger] self.pool.live(i) implies self.pool.res(
                            i,
                        ).wf() by {
                            if i != rid as int {
                                assert(old(self).pool.live(i));
                            }
                        }
                    }
                    Ok(())
                }
            },
        }
    }

    /// The readiness loop reports that the OS accepted `written` bytes of
    /// the front outbound unit of `e`.  The flushed bytes leave the front of
    /// the resource's outbound stream — never the middle — so the wire sees
    /// buffered remainders before any later send, preserving per-endpoint
    /// send order across any number of partial writes.
    pub fn handle_write_ready(&mut self, e: Endpoint, written: usize)
        requires
            old(self).wf(),
            old(self).live(e),
            old(self).res(e).out_units().len() > 0,
            written <= old(self).res(e).out_units()[0].len(),
        ensures
            final(self).wf(),
            final(self).launcher == old(self).launcher,
            final(self).events@ == old(self).events@,
            same_other_slots(old(self).pool@, final(self).pool@, e.resource_id as int),
            final(self).live(e),
            final(self).res(e).out_stream() == old(self).res(e).out_stream().skip(written as int),
            (written as int) < old(self).res(e).out_units()[0].len() ==> final(self).res(
                e,
            ).out_units() == old(self).res(e).out_units().update(
                0,
                old(self).res(e).out_units()[0].skip(written as int),
            ),
            (written as int) == old(self).res(e).out_units()[0].len() ==> final(self).res(
                e,
            ).out_units() == old(self).res(e).out_units().skip(1),
            final(self).res(e).buffered == old(self).res(e).buffered - written,
            same_identity(old(self).res(e), final(self).res(e)),
            final(self).res(e).status == old(self).res(e).status,
            final(self).res(e).decoder == old(self).res(e).decoder,
    {
        let rid = e.resource_id;
        let taken = self.pool.take(rid);
        let mut res = match taken {
            Some(r) => r,
            None => unreached(),
        };
        let ghost units_pre = res.out_units();
        proof {
            assert(spec_out_stream(units_pre) == units_pre[0] + spec_out_stream(
                units_pre.skip(1),
            ));
            lemma_out_stream_flush_front(units_pre, written as int);
        }
        let front_len = res.outbox[0].len();
        if written == front_len {
            let _ = res.outbox.remove(0);
            proof {
                assert(res.out_units() =~= units_pre.skip(1));
            }
            res.buffered = res.buffered - written;
        } else {
            let mut nf: Vec<u8> = Vec::new();
            let mut k: usize = written;
            assert(nf@ =~= units_pre[0].subrange(written as int, k as int));
            while k < front_len
                invariant
                    written <= k <= front_len,
                    res.out_units() == units_pre,
                    units_pre.len() > 0,
                    front_len == units_pre[0].len(),
                    nf@ == units_pre[0].subrange(written as int, k as int),
                decreases front_len - k,
            {
                let b = res.outbox[0][k];
                assert(b == units_pre[0][k as int]);
                nf.push(b);
                k += 1;
                assert(nf@ =~= units_pre[0].subrange(written as int, k as int));
            }
            assert(nf@ =~= units_pre[0].skip(written as int));
            res.outbox.set(0, nf);
            proof {
                assert(res.out_units() =~= units_pre.update(
                    0,
                    units_pre[0].skip(written as int),
                ));
            }
            res.buffered = res.buffered - written;
        }
        assert(res.wf());
        self.pool.put(rid, res);
        proof {
            assert forall|i: int| #[trigger] self.pool.live(i) implies self.pool.res(i).wf() by {
                if i != rid as int {
                    assert(old(self).pool.live(i));
                }
            }
        }
    }

    /// A read on a plain stream connection produced one chunk of bytes: it
    /// is emitted directly as one Message, since the raw stream preserves no
    /// message boundaries — reconstructing them is the caller's
    /// responsibility.  An empty read is end of stream and is reported by
    /// closing the endpoint instead.
    pub fn handle_stream_chunk(&mut self, e: Endpoint, chunk: &Vec<u8>)
        requires
            old(self).wf(),
            old(self).live(e),
            old(self).res(e).kind == ResourceKind::Connection,
            old(self).res(e).transport == Transport::Tcp,
            old(self).res(e).status == ConnStatus::Established,
            0 < chunk@.len() <= TCP_INPUT_BUFFER_LEN,
        ensures
            final(self).wf(),
            final(self).pool@ == old(self).pool@,
            final(self).launcher == old(self).launcher,
            final(self).events_view() == old(self).events_view().push(
                EventView::Message(e, chunk@),
            ),
    {
        let m = copy_bytes(chunk);
        let ghost pre: Seq<Event> = self.events@;
        self.events.push(Event::Message(e, m));
        proof {
            assert(spec_event_views(self.events@) =~= spec_event_views(pre).push(
                EventView::Message(e, chunk@),
            ));
        }
    }

    /// A datagram listener received one datagram from `from`: exactly one
    /// Message is emitted, tagged with an ephemeral endpoint derived from
    /// the sender's address — valid for replying, not for tracking
    /// connection state.  No Connected or Disconnected event is ever
    /// produced for datagram traffic.
    pub fn handle_datagram(&mut self, listener: Endpoint, from: NetAddr, data: &Vec<u8>) -> (e:
        Endpoint)
        requires
            old(self).wf(),
            old(self).live(listener),
            old(self).res(listener).kind == ResourceKind::Listener,
            old(self).res(listener).transport == Transport::Udp,
            data@.len() <= MAX_UDP_PAYLOAD_LEN,
        ensures
            final(self).wf(),
            final(self).pool@ == old(self).pool@,
            final(self).launcher == old(self).launcher,
            e == (Endpoint { resource_id: listener.resource_id, peer: from }),
            final(self).events_view() == old(self).events_view().push(
                EventView::Message(e, data@),
            ),
    {
        let e = Endpoint { resource_id: listener.resource_id, peer: from };
        let m = copy_bytes(data);
        let ghost pre: Seq<Event> = self.events@;
        self.events.push(Event::Message(e, m));
        proof {
            assert(spec_event_views(self.events@) =~= spec_event_views(pre).push(
                EventView::Message(e, data@),
            ));
        }
        e
    }

    /// A message-framed, connection-oriented transport delivered one
    /// complete message unit (its own framing is done below this engine):
    /// exactly one Message is emitted.
    pub fn handle_packet(&mut self, e: Endpoint, data: &Vec<u8>)
        requires
            old(self).wf(),
            old(self).live(e),
            old(self).res(e).kind == ResourceKind::Connection,
            old(self).res(e).transport == Transport::Ws,
            old(self).res(e).status == ConnStatus::Established,
            data@.len() <= MAX_WS_PAYLOAD_LEN,
        ensures
            final(self).wf(),
            final(self).pool@ == old(self).pool@,
            final(self).launcher == old(self).launcher,
            final(self).events_view() == old(self).events_view().push(
                EventView::Message(e, data@),
            ),
    {
        let m = copy_bytes(data);
        let ghost pre: Seq<Event> = self.events@;
        self.events.push(Event::Message(e, m));
        proof {
            assert(spec_event_views(self.events@) =~= spec_event_views(pre).push(
                EventView::Message(e, data@),
            ));
        }
    }

    /// A read on a length-framed stream connection produced one chunk of
    /// bytes of arbitrary size: the framing codec consumes it, and exactly
    /// the newly completed frames are emitted as Message events, in stream
    /// order, however the stream was cut into chunks.  A partial header or
    /// body stays pending and emits nothing.  If the stream reaches a
    /// header declaring a payload beyond the ceiling, the connection cannot
    /// be resynchronized: the resource is removed and exactly one
    /// Disconnected event with a protocol-violation reason follows the
    /// completed messages — no Message is emitted for the offending frame.
    #[verifier::loop_isolation(false)]
    pub fn handle_framed_chunk(&mut self, e: Endpoint, chunk: &Vec<u8>)
        requires
            old(self).wf(),
            old(self).live(e),
            old(self).res(e).kind == ResourceKind::Connection,
            old(self).res(e).transport == Transport::FramedTcp,
            old(self).res(e).status == ConnStatus::Established,
        ensures
            final(self).wf(),
            final(self).launcher == old(self).launcher,
            !spec_violation(old(self).res(e).decoder@ + chunk@) ==> {
                &&& same_other_slots(old(self).pool@, final(self).pool@, e.resource_id as int)
                &&& final(self).live(e)
                &&& final(self).res(e).decoder@ == spec_residue(
                    old(self).res(e).decoder@ + chunk@,
                )
                &&& same_identity(old(self).res(e), final(self).res(e))
                &&& final(self).res(e).status == old(self).res(e).status
                &&& final(self).res(e).outbox == old(self).res(e).outbox
                &&& final(self).res(e).buffered == old(self).res(e).buffered
                &&& final(self).events_view() == old(self).events_view() + spec_message_events(
                    e,
                    spec_frames(old(self).res(e).decoder@ + chunk@),
                )
            },
            spec_violation(old(self).res(e).decoder@ + chunk@) ==> {
                &&& final(self).pool@ == old(self).pool@.update(e.resource_id as int, None)
                &&& final(self).events_view() == (old(self).events_view() + spec_message_events(
                    e,
                    spec_frames(old(self).res(e).decoder@ + chunk@),
                )).push(EventView::Disconnected(e, DisconnectReason::ProtocolViolation))
            },
    {
        let rid = e.resource_id;
        let taken = self.pool.take(rid);
        let mut res = match taken {
            Some(r) => r,
            None => unreached(),
        };
        proof {
            assert(old(self).pool.live(rid as int));
        }
        let ghost s: Seq<u8> = res.decoder@ + chunk@;
        let ghost frames: Seq<Seq<u8>> = spec_frames(s);
        let (mut msgs, status) = res.decoder.decode_chunk(chunk);
        let ghost base: Seq<Event> = self.events@;
        let mut done_n: usize = 0;
        proof {
            assert(frames.skip(0) =~= frames);
            assert(spec_event_views(self.events@) =~= spec_event_views(base)
                + spec_message_events(e, frames.take(0)));
        }
        let msg_count: usize = msgs.len();
        assert(frames.len() == msg_count as int);
        assert(frames.len() <= usize::MAX as int);
        while msgs.len() > 0
            invariant
                frames.len() <= usize::MAX as int,
                self.pool@ == old(self).pool@.update(rid as int, None),
                self.launcher == old(self).launcher,
                done_n as int + msgs@.len() == frames.len(),
                views_of(msgs@) == frames.skip(done_n as int),
                spec_event_views(self.events@) == spec_event_views(base) + spec_message_events(
                    e,
                    frames.take(done_n as int),
                ),
            decreases msgs@.len(),
        {
            let ghost msgs_pre: Seq<Vec<u8>> = msgs@;
            let ghost evs_pre: Seq<Event> = self.events@;
            let m = msgs.remove(0);
            proof {
                assert(views_of(msgs_pre)[0] == msgs_pre[0]@);
                assert(m@ == frames[done_n as int]);
                assert(views_of(msgs@) =~= views_of(msgs_pre).skip(1));
                assert(views_of(msgs@) =~= frames.skip(done_n as int + 1));
            }
            self.events.push(Event::Message(e, m));
            done_n += 1;
            proof {
                assert(spec_event_views(self.events@) =~= spec_event_views(evs_pre).push(
                    EventView::Message(e, frames[done_n as int - 1]),
                ));
                assert(spec_message_events(e, frames.take(done_n as int)) =~= spec_message_events(
                    e,
                    frames.take(done_n as int - 1),
                ).push(EventView::Message(e, frames[done_n as int - 1])));
                assert(spec_event_views(self.events@) =~= spec_event_views(base)
                    + spec_message_events(e, frames.take(done_n as int)));
            }
        }
        proof {
            assert(frames.take(done_n as int) =~= frames);
        }
        match status {
            Ok(_) => {
                assert(res.wf());
                self.pool.put(rid, res);
                proof {
                    assert forall|i: int| #[trigger] self.pool.live(i) implies self.pool.res(
                        i,
                    ).wf() by {
                        if i != rid as int {
                            assert(old(self).pool.live(i));
                        }
                    }
                }
            },
            Err(_) => {
                let ghost evs_pre: Seq<Event> = self.events@;
                self.events.push(
                    Event::Disconnected(e, DisconnectReason::ProtocolViolation),
                );
                proof {
                    assert(spec_event_views(self.events@) =~= spec_event_views(evs_pre).push(
                        EventView::Disconnected(e, DisconnectReason::ProtocolViolation),
                    ));
                    assert forall|i: int| #[trigger] self.pool.live(i) implies self.pool.res(
                        i,
                    ).wf() by {
                        assert(old(self).pool.live(i));
                        assert(i != rid as int);
                    }
                }
            },
        }
    }

    /// Whether `e` addresses a live resource.
    pub fn is_live(&self, e: Endpoint) -> (r: bool)
        ensures
            r == self.live(e),
    {
        self.pool.contains(e.resource_id)
    }

    /// The front outbound unit of `e`: the bytes the readiness loop must
    /// write next for this endpoint, before anything sent later.
    pub fn front_outbound(&self, e: Endpoint) -> (r: Option<Vec<u8>>)
        ensures
            r is Some <==> self.live(e) && self.res(e).out_units().len() > 0,
            r is Some ==> r->0@ == self.res(e).out_units()[0],
    {
        match self.pool.borrow_res(e.resource_id) {
            None => None,
            Some(res) => {
                if res.outbox.len() > 0 {
                    Some(copy_bytes(&res.outbox[0]))
                } else {
                    None
                }
            },
        }
    }

    /// Bytes queued and not yet flushed for `e`; zero for a dead endpoint.
    pub fn buffered_len(&self, e: Endpoint) -> (r: usize)
        ensures
            self.live(e) ==> r == self.res(e).buffered,
            !self.live(e) ==> r == 0,
    {
        match self.pool.borrow_res(e.resource_id) {
            None => 0,
            Some(res) => res.buffered,
        }
    }

    /// Whether `e` is a datagram listener that joined a multicast group;
    /// the readiness loop performs the group join it reports.
    pub fn is_multicast_listener(&self, e: Endpoint) -> (r: bool)
        ensures
            r == (self.live(e) && self.res(e).multicast),
    {
        match self.pool.borrow_res(e.resource_id) {
            None => false,
            Some(res) => res.multicast,
        }
    }

    /// Number of events waiting to be consumed.
    pub fn pending_events(&self) -> (r: usize)
        ensures
            r == self.events@.len(),
    {
        self.events.len()
    }

    /// Takes the oldest event, if any: events come out in exactly the order
    /// the engine produced them.
    pub fn next_event(&mut self) -> (r: Option<Event>)
        ensures
            final(self).pool@ == old(self).pool@,
            final(self).launcher == old(self).launcher,
            old(self).events@.len() == 0 ==> r is None && final(self).events@ == old(
                self,
            ).events@,
            old(self).events@.len() > 0 ==> {
                &&& r == Some(old(self).events@[0])
                &&& final(self).events@ == old(self).events@.skip(1)
            },
    {
        if self.events.len() == 0 {
            None
        } else {
            let ev = self.events.remove(0);
            proof {
                assert(self.events@ =~= old(self).events@.skip(1));
            }
            Some(ev)
        }
    }
}

/// Ordering under partial writes: a resource's outbound stream is consumed
/// strictly front first, so while any byte of an earlier send is still
/// unflushed, no byte of a later send has reached the wire — the peer
/// observes the whole first payload before any byte of the second.
pub proof fn lemma_ordering_under_partial_writes(a: Seq<u8>, b: Seq<u8>, k: int)
    requires
        0 <= k <= a.len(),
    ensures
        (a + b).take(k) == a.take(k),
{
    assert((a + b).take(k) =~= a.take(k));
}

} // verus!
