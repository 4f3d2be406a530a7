//! Per-peer connection values: network addresses as plain bytes, the
//! events a reader produces and the responses a writer consumes, and the
//! length-prefix framing of the byte stream.

use vstd::prelude::*;
use vstd::slice::slice_to_vec;

verus! {

/// An IPv4 address as plain octets.
#[derive(PartialEq, Eq, Structural, Clone, Copy, Debug)]
pub struct IpOctets {
    pub o0: u8,
    pub o1: u8,
    pub o2: u8,
    pub o3: u8,
}

impl IpOctets {
    pub fn new(o0: u8, o1: u8, o2: u8, o3: u8) -> (r: Self)
        ensures
            r == (IpOctets { o0, o1, o2, o3 }),
    {
        IpOctets { o0, o1, o2, o3 }
    }
}

/// An IPv4 peer address: four octets and a port.
#[derive(PartialEq, Eq, Structural, Clone, Copy, Debug, Hash)]
pub struct NetAddress {
    pub ip0: u8,
    pub ip1: u8,
    pub ip2: u8,
    pub ip3: u8,
    pub port: u16,
}

impl NetAddress {
    pub fn new(ip0: u8, ip1: u8, ip2: u8, ip3: u8, port: u16) -> (r: Self)
        ensures
            r == (NetAddress { ip0, ip1, ip2, ip3, port }),
    {
        NetAddress { ip0, ip1, ip2, ip3, port }
    }
}

/// What a peer connection carries: a close, or one framed message.
pub enum ConnectionType {
    Close,
    Message(Vec<u8>),
}

pub enum ConnectionTypeV {
    Close,
    Message(Seq<u8>),
}

impl View for ConnectionType {
    type V = ConnectionTypeV;

    open spec fn view(&self) -> ConnectionTypeV {
        match self {
            ConnectionType::Close => ConnectionTypeV::Close,
            ConnectionType::Message(m) => ConnectionTypeV::Message(m@),
        }
    }
}

/// An inbound event, tagged with the peer it came from.
pub struct ConnectionEvent {
    pub network_address: NetAddress,
    pub event: ConnectionType,
}

#[verifier::ext_equal]
pub struct ConnectionEventV {
    pub network_address: NetAddress,
    pub event: ConnectionTypeV,
}

impl View for ConnectionEvent {
    type V = ConnectionEventV;

    open spec fn view(&self) -> ConnectionEventV {
        ConnectionEventV { network_address: self.network_address, event: self.event@ }
    }
}

impl ConnectionEvent {
    pub fn close(network_address: NetAddress) -> (r: Self)
        ensures
            r@ == (ConnectionEventV { network_address, event: ConnectionTypeV::Close }),
    {
        ConnectionEvent { network_address, event: ConnectionType::Close }
    }

    pub fn message(network_address: NetAddress, msg: Vec<u8>) -> (r: Self)
        ensures
            r@ == (ConnectionEventV { network_address, event: ConnectionTypeV::Message(msg@) }),
    {
        ConnectionEvent { network_address, event: ConnectionType::Message(msg) }
    }
}

/// An outbound instruction for one peer's writer.
pub struct ConnectionResponse {
    pub response: ConnectionType,
}

impl View for ConnectionResponse {
    type V = ConnectionTypeV;

    open spec fn view(&self) -> ConnectionTypeV {
        self.response@
    }
}

impl ConnectionResponse {
    pub fn close() -> (r: Self)
        ensures
            r@ == ConnectionTypeV::Close,
    {
        ConnectionResponse { response: ConnectionType::Close }
    }

    pub fn message(msg: Vec<u8>) -> (r: Self)
        ensures
            r@ == ConnectionTypeV::Message(msg@),
    {
        ConnectionResponse { response: ConnectionType::Message(msg) }
    }
}

/// A frame: the payload length as four big-endian bytes, then the payload.
pub open spec fn spec_frame_header(len: u32) -> Seq<u8> {
    seq![
        ((len >> 24) & 0xFF) as u8,
        ((len >> 16) & 0xFF) as u8,
        ((len >> 8) & 0xFF) as u8,
        (len & 0xFF) as u8,
    ]
}

pub open spec fn spec_frame(payload: Seq<u8>) -> Seq<u8> {
    spec_frame_header(payload.len() as u32) + payload
}

/// Frame a message for the wire.
pub fn encode_frame(payload: &Vec<u8>) -> (r: Vec<u8>)
    requires
        payload@.len() <= 0xFFFF_FFFF,
    ensures
        r@ == spec_frame(payload@),
{
    let len = payload.len() as u32;
    let mut out: Vec<u8> = Vec::new();
    out.push(((len >> 24) & 0xFF) as u8);
    out.push(((len >> 16) & 0xFF) as u8);
    out.push(((len >> 8) & 0xFF) as u8);
    out.push((len & 0xFF) as u8);
    let mut body = payload.clone();
    assert(body@ =~= payload@);
    out.append(&mut body);
    assert(out@ =~= spec_frame(payload@));
    out
}

/// The 32-bit word four header bytes spell, big-endian.
pub open spec fn spec_header_word(b0: u8, b1: u8, b2: u8, b3: u8) -> u32 {
    ((b0 as u32) << 24) | ((b1 as u32) << 16) | ((b2 as u32) << 8) | (b3 as u32)
}

/// Read the length out of a four-byte frame header.
pub fn decode_frame_len(header: &[u8]) -> (r: u32)
    requires
        header@.len() == 4,
    ensures
        r == spec_header_word(header@[0], header@[1], header@[2], header@[3]),
{
    ((header[0] as u32) << 24) | ((header[1] as u32) << 16) | ((header[2] as u32) << 8)
        | (header[3] as u32)
}

/// Framing inverts: the header of a frame announces the payload's length,
/// and the rest of the frame is the payload.
pub proof fn lemma_frame_round_trip(payload: Seq<u8>)
    requires
        payload.len() <= 0xFFFF_FFFF,
    ensures
        spec_frame(payload).len() == payload.len() + 4,
        spec_header_word(
            spec_frame(payload)[0],
            spec_frame(payload)[1],
            spec_frame(payload)[2],
            spec_frame(payload)[3],
        ) == payload.len(),
        spec_frame(payload).skip(4) == payload,
{
    let f = spec_frame(payload);
    assert(f.skip(4) =~= payload);
    let len = payload.len() as u32;
    assert(f[0] == ((len >> 24) & 0xFF) as u8);
    assert(f[1] == ((len >> 16) & 0xFF) as u8);
    assert(f[2] == ((len >> 8) & 0xFF) as u8);
    assert(f[3] == (len & 0xFF) as u8);
    assert(((((len >> 24) & 0xFF) as u8) as u32) << 24
        | ((((len >> 16) & 0xFF) as u8) as u32) << 16
        | ((((len >> 8) & 0xFF) as u8) as u32) << 8
        | (((len & 0xFF) as u8) as u32) == len) by (bit_vector);
}

} // verus!
