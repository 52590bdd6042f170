//! From a captured Ethernet frame to the payload of a quote datagram.
//!
//! The headers are taken apart by the `pnet` crate; which frames carry a
//! quote is decided here.

use vstd::prelude::*;
use pnet::packet::ethernet::EthernetPacket;
use pnet::packet::ipv4::Ipv4Packet;
use pnet::packet::udp::UdpPacket;
use pnet::packet::Packet;

verus! {

/// The EtherType of IPv4.
pub const ETHERTYPE_IPV4: u16 = 0x0800;

/// The IP protocol number of UDP.
pub const IP_PROTOCOL_UDP: u8 = 17;

/// The first of the two UDP ports to which quotes are sent.
pub const QUOTE_PORT_LOW: u16 = 15515;

/// The second of the two UDP ports to which quotes are sent.
pub const QUOTE_PORT_HIGH: u16 = 15516;

/// Length of an Ethernet header.
pub const ETHERNET_HEADER_LEN: usize = 14;

/// Length of an IPv4 header without options.
pub const IPV4_HEADER_LEN: usize = 20;

/// Length of a UDP header.
pub const UDP_HEADER_LEN: usize = 8;

/// The number that two bytes spell, the high byte first.
pub open spec fn big_endian_16(high: u8, low: u8) -> u16 {
    (high as int * 256 + low as int) as u16
}

/// The EtherType of an Ethernet frame: its thirteenth and fourteenth byte.
pub open spec fn ethernet_ethertype(frame: Seq<u8>) -> u16
    recommends
        frame.len() >= ETHERNET_HEADER_LEN,
{
    big_endian_16(frame[12], frame[13])
}

/// What an Ethernet frame carries: all that follows its header.
pub open spec fn ethernet_payload(frame: Seq<u8>) -> Seq<u8>
    recommends
        frame.len() >= ETHERNET_HEADER_LEN,
{
    frame.skip(ETHERNET_HEADER_LEN as int)
}

/// The protocol number of an IPv4 packet: its tenth byte.
pub open spec fn ipv4_protocol(packet: Seq<u8>) -> u8
    recommends
        packet.len() >= IPV4_HEADER_LEN,
{
    packet[9]
}

/// The header length that an IPv4 packet declares, in bytes: four times the
/// low half of its first byte.
pub open spec fn ipv4_declared_header_len(packet: Seq<u8>) -> int
    recommends
        packet.len() >= IPV4_HEADER_LEN,
{
    (packet[0] as int % 16) * 4
}

/// The total length that an IPv4 packet declares: its third and fourth
/// byte.
pub open spec fn ipv4_declared_total_len(packet: Seq<u8>) -> int
    recommends
        packet.len() >= IPV4_HEADER_LEN,
{
    big_endian_16(packet[2], packet[3]) as int
}

/// Where the payload of an IPv4 packet starts: behind the header of the
/// declared length, and never before the twentieth byte.
pub open spec fn ipv4_payload_start(packet: Seq<u8>) -> int
    recommends
        packet.len() >= IPV4_HEADER_LEN,
{
    if ipv4_declared_header_len(packet) > IPV4_HEADER_LEN {
        ipv4_declared_header_len(packet)
    } else {
        IPV4_HEADER_LEN as int
    }
}

/// Where the payload of an IPv4 packet ends: as many bytes behind its start
/// as the declared total length exceeds the declared header length, and at
/// the end of the packet if that lies beyond it.
pub open spec fn ipv4_payload_end(packet: Seq<u8>) -> int
    recommends
        packet.len() >= IPV4_HEADER_LEN,
{
    let declared = if ipv4_declared_total_len(packet) > ipv4_declared_header_len(packet) {
        ipv4_declared_total_len(packet) - ipv4_declared_header_len(packet)
    } else {
        0
    };
    if ipv4_payload_start(packet) + declared < packet.len() {
        ipv4_payload_start(packet) + declared
    } else {
        packet.len() as int
    }
}

/// What an IPv4 packet carries: the bytes between the start and the end of
/// its payload; nothing when the packet ends at or before the start.
pub open spec fn ipv4_payload(packet: Seq<u8>) -> Seq<u8>
    recommends
        packet.len() >= IPV4_HEADER_LEN,
{
    if packet.len() <= ipv4_payload_start(packet) {
        Seq::empty()
    } else {
        packet.subrange(ipv4_payload_start(packet), ipv4_payload_end(packet))
    }
}

/// The destination port of a UDP datagram: its third and fourth byte.
pub open spec fn udp_destination(datagram: Seq<u8>) -> u16
    recommends
        datagram.len() >= UDP_HEADER_LEN,
{
    big_endian_16(datagram[2], datagram[3])
}

/// What a UDP datagram carries: all that follows its header.
pub open spec fn udp_payload(datagram: Seq<u8>) -> Seq<u8>
    recommends
        datagram.len() >= UDP_HEADER_LEN,
{
    datagram.skip(UDP_HEADER_LEN as int)
}

/// Whether quotes are sent to a UDP port.
pub open spec fn is_quote_port_spec(port: u16) -> bool {
    port == QUOTE_PORT_LOW || port == QUOTE_PORT_HIGH
}

/// The quote payload that a captured frame carries, if it carries one: the
/// frame is an Ethernet frame with an IPv4 packet in it, the packet holds a
/// UDP datagram, and the datagram goes to one of the two quote ports.
pub open spec fn carried_payload(frame: Seq<u8>) -> Option<Seq<u8>> {
    if frame.len() >= ETHERNET_HEADER_LEN && ethernet_ethertype(frame) == ETHERTYPE_IPV4 {
        let packet = ethernet_payload(frame);
        if packet.len() >= IPV4_HEADER_LEN && ipv4_protocol(packet) == IP_PROTOCOL_UDP {
            let datagram = ipv4_payload(packet);
            if datagram.len() >= UDP_HEADER_LEN && is_quote_port_spec(udp_destination(datagram)) {
                Some(udp_payload(datagram))
            } else {
                None
            }
        } else {
            None
        }
    } else {
        None
    }
}

/// What is read of an Ethernet frame.
struct EthernetFrame {
    ethertype: u16,
    payload: Vec<u8>,
}

/// What is read of an IPv4 packet.
struct Ipv4Datagram {
    protocol: u8,
    payload: Vec<u8>,
}

/// What is read of a UDP datagram.
struct UdpDatagram {
    destination: u16,
    payload: Vec<u8>,
}

/// Takes an Ethernet frame apart with `pnet`: `EthernetPacket::new`, then
/// `get_ethertype` and `Packet::payload` of the packet.
///
/// Trusted of `pnet`: `new` gives a packet exactly when the buffer has the
/// fourteen bytes of the header; the EtherType is read from bytes 12 and
/// 13, the high byte first; the payload is every byte behind the header.
#[verifier::external_body]
fn read_ethernet(frame: &[u8]) -> (r: Option<EthernetFrame>)
    ensures
        r is Some <==> frame@.len() >= ETHERNET_HEADER_LEN,
        r is Some ==> r->0.ethertype == ethernet_ethertype(frame@),
        r is Some ==> r->0.payload@ == ethernet_payload(frame@),
{
    match EthernetPacket::new(frame) {
        Some(packet) => Some(
            EthernetFrame {
                ethertype: packet.get_ethertype().0,
                payload: packet.payload().to_vec(),
            },
        ),
        None => None,
    }
}

/// Takes an IPv4 packet apart with `pnet`: `Ipv4Packet::new`, then
/// `get_next_level_protocol` and `Packet::payload` of the packet.
///
/// Trusted of `pnet`: `new` gives a packet exactly when the buffer has the
/// twenty bytes of a header without options; the protocol number is byte
/// 9; the payload starts behind the options, whose length is the declared
/// header length less twenty bytes and not below zero, and is as long as
/// the declared total length exceeds the declared header length, cut off
/// at the end of the buffer, and empty when the buffer ends at or before
/// its start.
#[verifier::external_body]
fn read_ipv4(packet: &[u8]) -> (r: Option<Ipv4Datagram>)
    ensures
        r is Some <==> packet@.len() >= IPV4_HEADER_LEN,
        r is Some ==> r->0.protocol == ipv4_protocol(packet@),
        r is Some ==> r->0.payload@ == ipv4_payload(packet@),
{
    match Ipv4Packet::new(packet) {
        Some(ip) => Some(
            Ipv4Datagram {
                protocol: ip.get_next_level_protocol().0,
                payload: ip.payload().to_vec(),
            },
        ),
        None => None,
    }
}

/// Takes a UDP datagram apart with `pnet`: `UdpPacket::new`, then
/// `get_destination` and `Packet::payload` of the packet.
///
/// Trusted of `pnet`: `new` gives a packet exactly when the buffer has the
/// eight bytes of the header; the destination port is read from bytes 2
/// and 3, the high byte first; the payload is every byte behind the
/// header, whatever length the header declares.
#[verifier::external_body]
fn read_udp(datagram: &[u8]) -> (r: Option<UdpDatagram>)
    ensures
        r is Some <==> datagram@.len() >= UDP_HEADER_LEN,
        r is Some ==> r->0.destination == udp_destination(datagram@),
        r is Some ==> r->0.payload@ == udp_payload(datagram@),
{
    match UdpPacket::new(datagram) {
        Some(udp) => Some(
            UdpDatagram { destination: udp.get_destination(), payload: udp.payload().to_vec() },
        ),
        None => None,
    }
}

/// Whether quotes are sent to a UDP port: to port 15515 or 15516.
#[verifier::when_used_as_spec(is_quote_port_spec)]
pub fn is_quote_port(port: u16) -> (r: bool)
    ensures
        r == is_quote_port_spec(port),
{
    port == QUOTE_PORT_LOW || port == QUOTE_PORT_HIGH
}

/// The quote payload that a captured Ethernet frame carries, or nothing
/// when the frame is too short for its headers, is not IPv4, is not UDP, or
/// goes to another port.
pub fn quote_payload(frame: &[u8]) -> (r: Option<Vec<u8>>)
    ensures
        match r {
            Some(payload) => carried_payload(frame@) == Some(payload@),
            None => carried_payload(frame@) is None,
        },
{
    let ethernet = match read_ethernet(frame) {
        Some(ethernet) => ethernet,
        None => {
            return None;
        },
    };
    if ethernet.ethertype != ETHERTYPE_IPV4 {
        return None;
    }
    let ip = match read_ipv4(ethernet.payload.as_slice()) {
        Some(ip) => ip,
        None => {
            return None;
        },
    };
    if ip.protocol != IP_PROTOCOL_UDP {
        return None;
    }
    let udp = match read_udp(ip.payload.as_slice()) {
        Some(udp) => udp,
        None => {
            return None;
        },
    };
    if !is_quote_port(udp.destination) {
        return None;
    }
    Some(udp.payload)
}

} // verus!
