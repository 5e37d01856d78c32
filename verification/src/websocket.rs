//! Routing of packets that the virtual interface hands in: each goes to the
//! peer that holds its destination address, or nowhere.

use crate::handshake::from_octets;
use crate::network::{parsed_cidr, ConfiguredNetwork, NetworkError};
use crate::registry::{PeerHandle, PeerRegistry, RegistryModel};
use vstd::prelude::*;

verus! {

/// Length of an IPv4 header without options.
pub const MIN_HEADER_LEN: usize = 20;

/// Whether the bytes begin with a complete IPv4 header: version 4, a header
/// length of at least five words, and at least as many bytes as that length.
pub open spec fn has_ipv4_header(bytes: Seq<u8>) -> bool {
    &&& bytes.len() >= MIN_HEADER_LEN
    &&& bytes[0] / 16 == 4
    &&& bytes[0] % 16 >= 5
    &&& bytes.len() >= (bytes[0] % 16) * 4
}

/// The destination address of a packet, where it begins with an IPv4 header.
pub open spec fn header_destination(bytes: Seq<u8>) -> Option<u32> {
    if has_ipv4_header(bytes) {
        Some(from_octets(bytes[16], bytes[17], bytes[18], bytes[19]))
    } else {
        None
    }
}

/// Has `etherparse::Ipv4HeaderSlice::from_slice` check the header and reads
/// the destination with `destination_addr`. The contract states the checks of
/// `from_slice` (length, version, header length) and that the destination is
/// made of the bytes 16 to 19, the first most significant; none of it is
/// proved here.
#[verifier::external_body]
fn ipv4_destination(packet: &[u8]) -> (r: Option<u32>)
    ensures
        r == header_destination(packet@),
{
    match etherparse::Ipv4HeaderSlice::from_slice(packet) {
        Ok(header) => Some(u32::from(header.destination_addr())),
        Err(_) => None,
    }
}

/// Where a packet from the interface goes.
#[derive(Debug, PartialEq, Eq)]
pub enum Route {
    /// To the peer that holds the destination, as it is.
    Forward { peer: PeerHandle, packet: Vec<u8> },
    /// Nowhere: no peer holds the destination. Worth a warning.
    NoPeer { destination: u32 },
    /// Nowhere: the bytes hold no IPv4 header. Dropped in silence.
    Malformed,
}

/// A route with its packet as a value.
pub enum RouteView {
    Forward { peer: PeerHandle, packet: Seq<u8> },
    NoPeer { destination: u32 },
    Malformed,
}

impl View for Route {
    type V = RouteView;

    open spec fn view(&self) -> RouteView {
        match self {
            Route::Forward { peer, packet } => RouteView::Forward { peer: *peer, packet: packet@ },
            Route::NoPeer { destination } => RouteView::NoPeer { destination: *destination },
            Route::Malformed => RouteView::Malformed,
        }
    }
}

/// The route of a packet whose header was read as `destination`: forwarded
/// exactly when a peer holds that address.
pub open spec fn route_of(destination: Option<u32>, peers: RegistryModel, packet: Seq<u8>)
    -> RouteView {
    match destination {
        Some(address) => match peers.occupant(address) {
            Some(peer) => RouteView::Forward { peer, packet },
            None => RouteView::NoPeer { destination: address },
        },
        None => RouteView::Malformed,
    }
}

/// Decides the route of a packet from what its header named as destination.
pub fn route(destination: Option<u32>, peers: &PeerRegistry, packet: Vec<u8>) -> (r: Route)
    ensures
        r@ == route_of(destination, peers@, packet@),
{
    match destination {
        Some(address) => match peers.lookup(address) {
            Some(peer) => Route::Forward { peer, packet },
            None => Route::NoPeer { destination: address },
        },
        None => Route::Malformed,
    }
}

/// The router with the registry it shares with the sessions.
pub struct WebSocket {
    pub clients: PeerRegistry,
}

impl WebSocket {
    /// The router of a server over the given block, or of a client where
    /// there is none.
    pub fn with_network(network: Option<ConfiguredNetwork>) -> (r: WebSocket)
        ensures
            r.clients.wf(),
            r.clients@ == match network {
                Some(n) => RegistryModel::initial(n),
                None => RegistryModel::empty(),
            },
    {
        match network {
            Some(n) => WebSocket { clients: PeerRegistry::initialize(n) },
            None => WebSocket { clients: PeerRegistry::new() },
        }
    }

    /// The router of a server over the block written in `cidr`, or of a
    /// client where there is none. A text that is no block is refused.
    pub fn new(cidr: Option<&str>) -> (r: Result<WebSocket, NetworkError>)
        ensures
            match cidr {
                None => r matches Ok(router) && router.clients.wf() && router.clients@
                    == RegistryModel::empty(),
                Some(text) => match parsed_cidr(text@) {
                    Some((addr, prefix)) => {
                        &&& r matches Ok(router)
                        &&& router.clients.wf()
                        &&& router.clients@.network matches Some(n)
                        &&& n.spec_ip() == addr && n.spec_prefix() == prefix
                        &&& router.clients@ == RegistryModel::initial(n)
                    },
                    None => r matches Err(e) && e == NetworkError::InvalidCidr,
                },
            },
    {
        match cidr {
            None => Ok(WebSocket::with_network(None)),
            Some(text) => match ConfiguredNetwork::parse(text) {
                Ok(network) => Ok(WebSocket::with_network(Some(network))),
                Err(e) => Err(e),
            },
        }
    }

    /// Routes a packet that the interface handed in. A packet is forwarded,
    /// unchanged, to the one peer that holds its destination address; a
    /// packet for an address that nobody holds, or without an IPv4 header,
    /// is forwarded to nobody.
    pub fn recv(&self, packet: Vec<u8>) -> (r: Route)
        ensures
            r@ == route_of(header_destination(packet@), self.clients@, packet@),
    {
        let destination = ipv4_destination(packet.as_slice());
        route(destination, &self.clients, packet)
    }
}

/// A packet is forwarded exactly when its header names an address that a peer
/// holds, then to that peer and byte for byte. A packet for an address that
/// nobody holds is answered with that address and forwarded to nobody.
pub proof fn lemma_forward_to_holder_only(packet: Seq<u8>, peers: RegistryModel)
    ensures
        route_of(header_destination(packet), peers, packet) is Forward <==> has_ipv4_header(packet)
            && peers.occupant(header_destination(packet)->Some_0) is Some,
        route_of(header_destination(packet), peers, packet) matches RouteView::Forward {
            peer,
            packet: sent,
        } ==> sent == packet && peers.occupant(header_destination(packet)->Some_0) == Some(peer),
        has_ipv4_header(packet) && peers.occupant(header_destination(packet)->Some_0) is None
            ==> route_of(header_destination(packet), peers, packet) == (RouteView::NoPeer {
            destination: header_destination(packet)->Some_0,
        }),
{
}

/// Bytes without an IPv4 header are forwarded to nobody, whatever the
/// registry holds.
pub proof fn lemma_malformed_is_dropped(packet: Seq<u8>, peers: RegistryModel)
    requires
        !has_ipv4_header(packet),
    ensures
        route_of(header_destination(packet), peers, packet) == RouteView::Malformed,
{
}

} // verus!
