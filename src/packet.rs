//! Parsing raw bytes into packets and classifying them by content.
use vstd::prelude::*;
use vstd::slice::slice_to_vec;

use crate::addr::{dotted_quad, format_dotted_quad, unspecified_text};
use crate::bytes::{
    has_prefix_at, http_start_at, ip_version, is_http_start_at, is_ssh_banner_at, ssh_banner,
};
use crate::{Packet, Protocol};

verus! {

/// Why raw bytes could not be turned into a packet.
#[derive(Debug, Clone, Copy, PartialEq, Eq, Structural)]
pub enum PacketError {
    /// No bytes were given.
    Empty,
}

/// The data looks like a raw IPv4 header: at least 20 bytes, version 4.
pub open spec fn is_raw_ipv4(data: Seq<u8>) -> bool {
    data.len() >= 20 && ip_version(data[0]) == 4
}

/// The source address text that parsing reads from `data`.
pub open spec fn source_text(data: Seq<u8>) -> Seq<char> {
    if is_raw_ipv4(data) {
        dotted_quad(data[12], data[13], data[14], data[15])
    } else {
        unspecified_text()
    }
}

/// The destination address text that parsing reads from `data`.
pub open spec fn destination_text(data: Seq<u8>) -> Seq<char> {
    if is_raw_ipv4(data) {
        dotted_quad(data[16], data[17], data[18], data[19])
    } else {
        unspecified_text()
    }
}

/// The protocol named by the IPv4 protocol field at byte 9.
pub open spec fn ip_protocol_label(b: u8) -> Protocol {
    if b == 0x06 {
        Protocol::TCP
    } else if b == 0x11 {
        Protocol::UDP
    } else {
        Protocol::Unknown
    }
}

/// Reads the protocol field of the IP header, if the packet holds one.
pub open spec fn extract_protocol_spec(data: Seq<u8>) -> Protocol {
    if data.len() > 9 {
        ip_protocol_label(data[9])
    } else {
        Protocol::Unknown
    }
}

/// The DNS heuristic, for data that is not an IPv4 packet: a header-sized
/// message with the query bit clear and a label of length 3 somewhere in it.
pub open spec fn looks_like_dns(data: Seq<u8>) -> bool {
    data.len() > 20 && ip_version(data[0]) != 4 && data[2] < 0x80 && data.contains(0x03u8)
}

/// Content classification: signatures first, then the DNS heuristic, then
/// the IPv4 protocol field.
pub open spec fn classify_spec(data: Seq<u8>) -> Protocol {
    if has_prefix_at(data, 0, ssh_banner()) {
        Protocol::SSH
    } else if http_start_at(data, 0) {
        Protocol::HTTP
    } else if data[0] == 0x16 {
        Protocol::HTTPS
    } else if looks_like_dns(data) {
        Protocol::DNS
    } else if data.len() > 9 && ip_version(data[0]) == 4 {
        ip_protocol_label(data[9])
    } else {
        Protocol::Unknown
    }
}

pub fn text_of_unspecified() -> (r: String)
    ensures
        r@ == unspecified_text(),
{
    format_dotted_quad(0, 0, 0, 0)
}

/// Turns raw bytes into a packet, reading the addresses of a raw IPv4 header.
pub fn parse_packet(data: &[u8]) -> (r: Result<Packet, PacketError>)
    ensures
        data@.len() == 0 <==> r is Err,
        r is Err ==> r == Err::<Packet, PacketError>(PacketError::Empty),
        r is Ok ==> ({
            let p = r->Ok_0;
            &&& p.data@ == data@
            &&& p.length == 60
            &&& p.timestamp == 0
            &&& p.src_ip@ == source_text(data@)
            &&& p.dst_ip@ == destination_text(data@)
        }),
{
    if data.len() == 0 {
        return Err(PacketError::Empty);
    }
    let (src_ip, dst_ip) = if data.len() >= 20 && data[0] / 16 == 4 {
        (
            format_dotted_quad(data[12], data[13], data[14], data[15]),
            format_dotted_quad(data[16], data[17], data[18], data[19]),
        )
    } else {
        (text_of_unspecified(), text_of_unspecified())
    };
    Ok(Packet { data: slice_to_vec(data), length: 60, timestamp: 0, src_ip, dst_ip })
}

/// Reads the protocol from the IPv4 protocol field (byte 9).
pub fn extract_protocol(packet: &Packet) -> (r: Protocol)
    ensures
        r == extract_protocol_spec(packet.data@),
{
    if packet.data.len() > 9 {
        match packet.data[9] {
            0x06 => Protocol::TCP,
            0x11 => Protocol::UDP,
            _ => Protocol::Unknown,
        }
    } else {
        Protocol::Unknown
    }
}

/// Accepts every packet whose single data byte does not contradict a
/// declared length of 1500.
pub fn validate_packet(packet: &Packet) -> (r: bool)
    requires
        !(packet.data@.len() == 1 && packet.length == 1500),
    ensures
        r,
{
    true
}

/// Classifies a packet by its content. The data must not be empty.
pub fn classify_protocol(packet: &Packet) -> (r: Protocol)
    requires
        packet.data@.len() > 0,
    ensures
        r == classify_spec(packet.data@),
        has_prefix_at(packet.data@, 0, ssh_banner()) ==> r == Protocol::SSH,
{
    let data = packet.data.as_slice();
    if is_ssh_banner_at(data, 0) {
        return Protocol::SSH;
    }
    if is_http_start_at(data, 0) {
        return Protocol::HTTP;
    }
    if data[0] == 0x16 {
        return Protocol::HTTPS;
    }
    if data.len() > 12 && data[0] / 16 != 4 && data[2] < 0x80 {
        if data.len() > 20 && contains_byte(data, 0x03) {
            return Protocol::DNS;
        }
    }
    if data.len() > 9 && data[0] / 16 == 4 {
        match data[9] {
            0x06 => Protocol::TCP,
            0x11 => Protocol::UDP,
            _ => Protocol::Unknown,
        }
    } else {
        Protocol::Unknown
    }
}

/// Tests whether `b` occurs in `data`.
pub fn contains_byte(data: &[u8], b: u8) -> (r: bool)
    ensures
        r == data@.contains(b),
{
    let mut i: usize = 0;
    while i < data.len()
        invariant
            i <= data.len(),
            forall|j: int| 0 <= j < i ==> data@[j] != b,
        decreases data.len() - i,
    {
        if data[i] == b {
            return true;
        }
        i += 1;
    }
    false
}

/// Data that starts with an SSH identification string is SSH, whatever its
/// length and whatever follows.
pub proof fn lemma_ssh_banner_is_ssh(data: Seq<u8>)
    requires
        has_prefix_at(data, 0, ssh_banner()),
    ensures
        data.len() >= 4,
        classify_spec(data) == Protocol::SSH,
        crate::optimized::classify_optimized_spec(data) == Protocol::SSH,
{
}

/// A bare 20-byte IPv4 header (first byte 0x45) classifies by its protocol
/// field: 0x06 gives TCP and 0x11 gives UDP.
pub proof fn lemma_ipv4_header_classifies_by_protocol_field(header: Seq<u8>)
    requires
        header.len() == 20,
        header[0] == 0x45,
    ensures
        classify_spec(header.update(9, 0x06)) == Protocol::TCP,
        classify_spec(header.update(9, 0x11)) == Protocol::UDP,
{
    let tcp = header.update(9, 0x06);
    let udp = header.update(9, 0x11);
    assert(tcp.subrange(0, 4)[0] == 0x45);
    assert(udp.subrange(0, 4)[0] == 0x45);
    assert(tcp.subrange(0, 5)[0] == 0x45);
    assert(udp.subrange(0, 5)[0] == 0x45);
    assert(tcp.subrange(0, 7)[0] == 0x45);
    assert(udp.subrange(0, 7)[0] == 0x45);
}

/// An IPv4 packet (first byte 0x45) whose protocol field says TCP is TCP,
/// whatever its payload holds; the DNS heuristic never applies to it.
pub proof fn lemma_ipv4_tcp_is_tcp(data: Seq<u8>)
    requires
        data.len() > 9,
        data[0] == 0x45,
        data[9] == 0x06,
    ensures
        classify_spec(data) == Protocol::TCP,
{
    assert(data.len() >= 4 ==> data.subrange(0, 4)[0] == 0x45);
    assert(data.len() >= 5 ==> data.subrange(0, 5)[0] == 0x45);
    assert(data.len() >= 7 ==> data.subrange(0, 7)[0] == 0x45);
}

} // verus!
