//! The capability descriptor: a closed set of transports, each carrying its
//! guarantees and limits as pure functions of the variant.
//!
//! The descriptor classifies every transport by a stable small integer id
//! (assigned by declaration order, used only as an internal routing key), a
//! hard ceiling on a single logical payload, and two capability flags: whether
//! the transport is connection oriented and whether it is packet based.

use vstd::prelude::*;
use crate::frame::MAX_FRAMED_TCP_PAYLOAD_LEN;
use crate::registry::AdapterLauncher;

verus! {

/// Maximum number of bytes a single read event can carry on a plain stream
/// transport, where message boundaries are not preserved.
pub const TCP_INPUT_BUFFER_LEN: usize = 65536;

/// Hard ceiling on a single datagram payload: the classical IPv4 limit of
/// 65535 bytes minus the 20-byte IP header and the 8-byte UDP header.
pub const MAX_UDP_PAYLOAD_LEN: usize = 65507;

/// Ceiling the engine enforces on a single web-socket message, chosen locally
/// to bound memory use even where the underlying protocol permits more.
pub const MAX_WS_PAYLOAD_LEN: usize = 16777215;

/// The closed set of transports the engine can drive.
///
/// Adding a variant forces every dispatch site to be updated: all
/// per-transport behaviour is selected by exhaustive `match`.
#[derive(Clone, Copy, PartialEq, Eq, Hash, Debug, Structural)]
pub enum Transport {
    /// Raw stream transport: a read event does not respect message
    /// boundaries; reconstructing them is the caller's responsibility.
    Tcp,
    /// Stream transport with a slim length-prefixed frame layer giving it
    /// packet semantics: one send, one received message.
    FramedTcp,
    /// Connectionless datagram transport; a listener bound to a multicast
    /// IPv4 address additionally joins that group.
    Udp,
    /// Message-framed web socket: packet based and connection oriented after
    /// its opening handshake (performed outside this core).
    Ws,
}

impl Transport {
    /// The stable id of the variant: its position in declaration order.
    pub open spec fn spec_id(self) -> u8 {
        match self {
            Transport::Tcp => 0,
            Transport::FramedTcp => 1,
            Transport::Udp => 2,
            Transport::Ws => 3,
        }
    }

    /// Ceiling on a single logical payload for the variant.
    pub open spec fn spec_max_message_size(self) -> usize {
        match self {
            Transport::Tcp => TCP_INPUT_BUFFER_LEN,
            Transport::FramedTcp => MAX_FRAMED_TCP_PAYLOAD_LEN,
            Transport::Udp => MAX_UDP_PAYLOAD_LEN,
            Transport::Ws => MAX_WS_PAYLOAD_LEN,
        }
    }

    /// Whether Connected and Disconnected events are meaningful.
    pub open spec fn spec_is_connection_oriented(self) -> bool {
        match self {
            Transport::Tcp => true,
            Transport::FramedTcp => true,
            Transport::Udp => false,
            Transport::Ws => true,
        }
    }

    /// Whether one send corresponds to exactly one received message.
    pub open spec fn spec_is_packet_based(self) -> bool {
        match self {
            Transport::Tcp => false,
            Transport::FramedTcp => true,
            Transport::Udp => true,
            Transport::Ws => true,
        }
    }

    /// Mounts the adapter for this transport under the transport's own id.
    pub fn mount_adapter(self, launcher: &mut AdapterLauncher)
        requires
            old(launcher).wf(),
        ensures
            final(launcher).wf(),
            final(launcher)@ == old(launcher)@.update(self.spec_id() as int, Some(self)),
            final(launcher).spec_mounted(self),
    {
        launcher.mount(self.id(), self);
    }

    /// Max packet payload size available for each transport.
    /// If the protocol is not packet-based (e.g. TCP, that is a stream),
    /// the returned value corresponds to the maximum bytes that can produce a
    /// read event.
    pub fn max_message_size(self) -> (r: usize)
        ensures
            r == self.spec_max_message_size(),
    {
        match self {
            Transport::Tcp => TCP_INPUT_BUFFER_LEN,
            Transport::FramedTcp => MAX_FRAMED_TCP_PAYLOAD_LEN,
            Transport::Udp => MAX_UDP_PAYLOAD_LEN,
            Transport::Ws => MAX_WS_PAYLOAD_LEN,
        }
    }

    /// Tells whether the transport protocol is connection oriented.
    /// If it is, Connected and Disconnected events will be generated.
    pub fn is_connection_oriented(self) -> (r: bool)
        ensures
            r == self.spec_is_connection_oriented(),
    {
        match self {
            Transport::Tcp => true,
            Transport::FramedTcp => true,
            Transport::Udp => false,
            Transport::Ws => true,
        }
    }

    /// Tells whether the transport protocol is packet based: any send call
    /// corresponds to one data message event on the peer.  The opposite is a
    /// stream based transport, where reading a data message event does not
    /// imply reading the entire message sent.
    pub fn is_packet_based(self) -> (r: bool)
        ensures
            r == self.spec_is_packet_based(),
    {
        match self {
            Transport::Tcp => false,
            Transport::FramedTcp => true,
            Transport::Udp => true,
            Transport::Ws => true,
        }
    }

    /// Returns the adapter id used for this transport: the position of the
    /// variant in declaration order, starting at 0.
    pub fn id(self) -> (r: u8)
        ensures
            r == self.spec_id(),
    {
        match self {
            Transport::Tcp => 0,
            Transport::FramedTcp => 1,
            Transport::Udp => 2,
            Transport::Ws => 3,
        }
    }

    /// The characters of the variant's printable name.
    pub open spec fn spec_name(self) -> Seq<char> {
        match self {
            Transport::Tcp => "Tcp"@,
            Transport::FramedTcp => "FramedTcp"@,
            Transport::Udp => "Udp"@,
            Transport::Ws => "Ws"@,
        }
    }

    /// A short printable name for the variant.
    pub fn name(self) -> (r: &'static str)
        ensures
            r@ == self.spec_name(),
    {
        match self {
            Transport::Tcp => "Tcp",
            Transport::FramedTcp => "FramedTcp",
            Transport::Udp => "Udp",
            Transport::Ws => "Ws",
        }
    }
}

/// Stable ids: every transport's id lies in 0..=3, and two transports share
/// an id only if they are the same variant, so the four ids are pairwise
/// distinct and consistent with declaration order for the process lifetime.
pub proof fn lemma_stable_ids(a: Transport, b: Transport)
    ensures
        a.spec_id() <= 3,
        (a.spec_id() == b.spec_id()) <==> a == b,
{
}

} // verus!
