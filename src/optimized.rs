//! Allocation-light variants of parsing and classification, a pool of rain
//! characters and a classification cache.
use vstd::prelude::*;
use vstd::slice::slice_to_vec;

use crate::addr::{dotted_quad, format_dotted_quad, unspecified_text};
use crate::bytes::{
    be16_at, has_prefix_at, http_start_at, ip_version, is_http_start_at, is_ssh_banner_at,
    read_be16, ssh_banner, get_method, post_method, put_method, delete_method, http_version,
};
use crate::packet::{destination_text, source_text, text_of_unspecified, PacketError};
use crate::matrix_rain::{
    charset_chars, charset_glyph, trail_profile, CharacterSet, MatrixChar,
};
use crate::random::random_in;
use crate::{Packet, Protocol};

verus! {

/// The signature fast path: a label when the first bytes decide it.
pub open spec fn signature_label(d: Seq<u8>) -> Option<Protocol> {
    if has_prefix_at(d, 0, ssh_banner()) {
        Some(Protocol::SSH)
    } else if has_prefix_at(d, 0, get_method()) {
        Some(Protocol::HTTP)
    } else if d.len() >= 5 && (has_prefix_at(d, 0, post_method()) || has_prefix_at(
        d,
        0,
        put_method(),
    )) {
        Some(Protocol::HTTP)
    } else if has_prefix_at(d, 0, delete_method()) || has_prefix_at(d, 0, http_version()) {
        Some(Protocol::HTTP)
    } else if d[0] == 0x16 {
        Some(Protocol::HTTPS)
    } else {
        None
    }
}

/// Where the IPv4 header starts: after an Ethernet header whose EtherType is
/// IPv4, or at the start of a raw IPv4 packet; none otherwise.
pub open spec fn ip_header_offset(d: Seq<u8>) -> Option<int> {
    if d.len() > 14 && d[12] == 0x08 && d[13] == 0x00 {
        Some(14)
    } else if ip_version(d[0]) == 4 {
        Some(0)
    } else {
        None
    }
}

/// Where the TCP payload starts, from the data-offset field of a TCP header
/// at `off + 20`.
pub open spec fn tcp_payload_start(d: Seq<u8>, off: int) -> int {
    off + 20 + (d[off + 32] as int / 16) * 4
}

/// The label of the application data at `start`, if its first bytes decide it.
pub open spec fn payload_label(d: Seq<u8>, start: int) -> Option<Protocol> {
    if http_start_at(d, start) {
        Some(Protocol::HTTP)
    } else if has_prefix_at(d, start, ssh_banner()) {
        Some(Protocol::SSH)
    } else if start < d.len() && d[start] == 0x16 {
        Some(Protocol::HTTPS)
    } else {
        None
    }
}

/// Either port of the transport header at `off + 20` equals `port`.
pub open spec fn either_port(d: Seq<u8>, off: int, port: int) -> bool {
    be16_at(d, off + 20) == port || be16_at(d, off + 22) == port
}

/// TCP: well-known ports first (22, 443, 80), then the payload signature,
/// else plain TCP.
pub open spec fn tcp_label(d: Seq<u8>, off: int) -> Protocol {
    if d.len() > off + 23 {
        if either_port(d, off, 22) {
            Protocol::SSH
        } else if either_port(d, off, 443) {
            Protocol::HTTPS
        } else if either_port(d, off, 80) {
            Protocol::HTTP
        } else if d.len() > off + 40 && tcp_payload_start(d, off) < d.len() && payload_label(
            d,
            tcp_payload_start(d, off),
        ) is Some {
            payload_label(d, tcp_payload_start(d, off))->Some_0
        } else {
            Protocol::TCP
        }
    } else {
        Protocol::TCP
    }
}

/// UDP: port 53 on either side is DNS.
pub open spec fn udp_label(d: Seq<u8>, off: int) -> Protocol {
    if d.len() > off + 28 && either_port(d, off, 53) {
        Protocol::DNS
    } else {
        Protocol::UDP
    }
}

/// The full classification: signatures, then framing, then the IP protocol
/// field and the transport ports and payload.
pub open spec fn classify_optimized_spec(d: Seq<u8>) -> Protocol {
    if signature_label(d) is Some {
        signature_label(d)->Some_0
    } else if ip_header_offset(d) is None {
        Protocol::Unknown
    } else {
        let off = ip_header_offset(d)->Some_0;
        if d.len() <= off + 9 {
            Protocol::Unknown
        } else if d[off + 9] == 0x06 {
            tcp_label(d, off)
        } else if d[off + 9] == 0x11 {
            udp_label(d, off)
        } else {
            Protocol::Unknown
        }
    }
}

fn signature_label_of(data: &[u8]) -> (r: Option<Protocol>)
    requires
        data@.len() > 0,
    ensures
        r == signature_label(data@),
{
    let len = data.len();
    if is_ssh_banner_at(data, 0) {
        return Some(Protocol::SSH);
    }
    if crate::bytes::starts_with_at(data, 0, &[0x47u8, 0x45, 0x54, 0x20]) {
        return Some(Protocol::HTTP);
    }
    if len >= 5 {
        if crate::bytes::starts_with_at(data, 0, &[0x50u8, 0x4F, 0x53, 0x54, 0x20]) {
            return Some(Protocol::HTTP);
        }
        if crate::bytes::starts_with_at(data, 0, &[0x50u8, 0x55, 0x54, 0x20]) {
            return Some(Protocol::HTTP);
        }
    }
    if crate::bytes::starts_with_at(data, 0, &[0x44u8, 0x45, 0x4C, 0x45, 0x54, 0x45, 0x20]) {
        return Some(Protocol::HTTP);
    }
    if crate::bytes::starts_with_at(data, 0, &[0x48u8, 0x54, 0x54, 0x50, 0x2F]) {
        return Some(Protocol::HTTP);
    }
    if data[0] == 0x16 {
        return Some(Protocol::HTTPS);
    }
    None
}

fn tcp_label_of(data: &[u8], off: usize) -> (r: Protocol)
    requires
        off == 0 || off == 14,
        data@.len() > off + 9,
    ensures
        r == tcp_label(data@, off as int),
{
    let len = data.len();
    if len > off + 23 {
        let src_port = read_be16(data, off + 20);
        let dst_port = read_be16(data, off + 22);
        if src_port == 22 || dst_port == 22 {
            return Protocol::SSH;
        }
        if src_port == 443 || dst_port == 443 {
            return Protocol::HTTPS;
        }
        if src_port == 80 || dst_port == 80 {
            return Protocol::HTTP;
        }
        if len > off + 40 {
            let start = off + 20 + ((data[off + 32] / 16) as usize) * 4;
            if start < len {
                if is_http_start_at(data, start) {
                    return Protocol::HTTP;
                }
                if is_ssh_banner_at(data, start) {
                    return Protocol::SSH;
                }
                if data[start] == 0x16 {
                    return Protocol::HTTPS;
                }
            }
        }
    }
    Protocol::TCP
}

fn udp_label_of(data: &[u8], off: usize) -> (r: Protocol)
    requires
        off == 0 || off == 14,
        data@.len() > off + 9,
    ensures
        r == udp_label(data@, off as int),
{
    if data.len() > off + 28 {
        let src_port = read_be16(data, off + 20);
        let dst_port = read_be16(data, off + 22);
        if src_port == 53 || dst_port == 53 {
            return Protocol::DNS;
        }
    }
    Protocol::UDP
}

/// Classifies a packet: content signatures first, then Ethernet or raw IPv4
/// framing, then TCP ports and payload or UDP's DNS port. The data must not
/// be empty.
pub fn classify_protocol_optimized(packet: &Packet) -> (r: Protocol)
    requires
        packet.data@.len() > 0,
    ensures
        r == classify_optimized_spec(packet.data@),
        has_prefix_at(packet.data@, 0, ssh_banner()) ==> r == Protocol::SSH,
{
    let data = packet.data.as_slice();
    let len = data.len();
    match signature_label_of(data) {
        Some(p) => {
            return p;
        },
        None => {},
    }
    let off: usize = if len > 14 && data[12] == 0x08 && data[13] == 0x00 {
        14
    } else if data[0] / 16 == 4 {
        0
    } else {
        return Protocol::Unknown;
    };
    if len <= off + 9 {
        return Protocol::Unknown;
    }
    match data[off + 9] {
        0x06 => tcp_label_of(data, off),
        0x11 => udp_label_of(data, off),
        _ => Protocol::Unknown,
    }
}

/// Where parsing finds the addresses: a raw IPv4 header at 0, an IPv4
/// header behind an Ethernet header at 14, or nowhere.
pub open spec fn address_offset(d: Seq<u8>) -> Option<int> {
    if d.len() >= 20 && ip_version(d[0]) == 4 {
        Some(0)
    } else if d.len() >= 34 && d[12] == 0x08 && d[13] == 0x00 && ip_version(d[14]) == 4 {
        Some(14)
    } else {
        None
    }
}

/// The address text found at `at` (four bytes), or the unspecified address.
pub open spec fn framed_address_text(d: Seq<u8>, at: Option<int>) -> Seq<char> {
    match at {
        Some(i) => dotted_quad(d[i], d[i + 1], d[i + 2], d[i + 3]),
        None => unspecified_text(),
    }
}

/// The text of the first four bytes as an IPv4 address; the unspecified
/// address when there are fewer.
pub open spec fn ipv4_text_of(bytes: Seq<u8>) -> Seq<char> {
    if bytes.len() >= 4 {
        dotted_quad(bytes[0], bytes[1], bytes[2], bytes[3])
    } else {
        unspecified_text()
    }
}

/// Formats the first four bytes as dotted-quad text.
pub fn format_ipv4_inline(bytes: &[u8]) -> (r: String)
    ensures
        r@ == ipv4_text_of(bytes@),
{
    if bytes.len() >= 4 {
        format_dotted_quad(bytes[0], bytes[1], bytes[2], bytes[3])
    } else {
        text_of_unspecified()
    }
}

fn address_text_at(data: &[u8], at: usize) -> (r: String)
    requires
        at + 4 <= data@.len(),
    ensures
        r@ == dotted_quad(data@[at as int], data@[at + 1], data@[at + 2], data@[at + 3]),
{
    format_dotted_quad(data[at], data[at + 1], data[at + 2], data[at + 3])
}

/// Parses raw IPv4 packets and Ethernet frames carrying IPv4; the length is
/// the number of bytes given.
pub fn parse_packet_optimized(data: &[u8]) -> (r: Result<Packet, PacketError>)
    ensures
        data@.len() == 0 <==> r is Err,
        r is Err ==> r == Err::<Packet, PacketError>(PacketError::Empty),
        r is Ok ==> ({
            let p = r->Ok_0;
            let at = address_offset(data@);
            let src_at = match at {
                Some(i) => Some(i + 12),
                None => None,
            };
            let dst_at = match at {
                Some(i) => Some(i + 16),
                None => None,
            };
            &&& p.data@ == data@
            &&& p.length == data@.len()
            &&& p.timestamp == 0
            &&& p.src_ip@ == framed_address_text(data@, src_at)
            &&& p.dst_ip@ == framed_address_text(data@, dst_at)
        }),
{
    if data.len() == 0 {
        return Err(PacketError::Empty);
    }
    let (src_ip, dst_ip) = if data.len() >= 20 && data[0] / 16 == 4 {
        (address_text_at(data, 12), address_text_at(data, 16))
    } else if data.len() >= 34 && data[12] == 0x08 && data[13] == 0x00 && data[14] / 16 == 4 {
        (address_text_at(data, 26), address_text_at(data, 30))
    } else {
        (text_of_unspecified(), text_of_unspecified())
    };
    Ok(Packet { data: slice_to_vec(data), length: data.len(), timestamp: 0, src_ip, dst_ip })
}

/// As `parse_packet`, but builds the packet's data in `reuse_vec` and moves
/// it out, leaving `reuse_vec` empty. Empty input leaves it untouched.
pub fn parse_packet_ultra_optimized(data: &[u8], reuse_vec: &mut Vec<u8>) -> (r: Result<
    Packet,
    PacketError,
>)
    ensures
        data@.len() == 0 <==> r is Err,
        r is Err ==> r == Err::<Packet, PacketError>(PacketError::Empty) && final(reuse_vec)@
            == old(reuse_vec)@,
        r is Ok ==> ({
            let p = r->Ok_0;
            &&& p.data@ == data@
            &&& p.length == 60
            &&& p.timestamp == 0
            &&& p.src_ip@ == source_text(data@)
            &&& p.dst_ip@ == destination_text(data@)
            &&& final(reuse_vec)@.len() == 0
        }),
{
    if data.len() == 0 {
        return Err(PacketError::Empty);
    }
    reuse_vec.clear();
    reuse_vec.extend_from_slice(data);
    assert(reuse_vec@ =~= data@);
    let (src_ip, dst_ip) = if data.len() >= 20 && data[0] / 16 == 4 {
        (address_text_at(data, 12), address_text_at(data, 16))
    } else {
        (text_of_unspecified(), text_of_unspecified())
    };
    let mut taken: Vec<u8> = Vec::new();
    std::mem::swap(reuse_vec, &mut taken);
    Ok(Packet { data: taken, length: 60, timestamp: 0, src_ip, dst_ip })
}

/// A parsed packet that borrows its data and keeps addresses as bytes.
pub struct PacketRef<'a> {
    pub data: &'a [u8],
    pub length: usize,
    pub timestamp: u64,
    pub src_ip: [u8; 4],
    pub dst_ip: [u8; 4],
}

impl<'a> PacketRef<'a> {
    /// An owned packet with the same data and the addresses as text.
    pub fn to_owned(&self) -> (r: Packet)
        ensures
            r.data@ == self.data@,
            r.length == self.length,
            r.timestamp == self.timestamp,
            r.src_ip@ == dotted_quad(self.src_ip[0], self.src_ip[1], self.src_ip[2], self.src_ip[3]),
            r.dst_ip@ == dotted_quad(self.dst_ip[0], self.dst_ip[1], self.dst_ip[2], self.dst_ip[3]),
    {
        Packet {
            data: slice_to_vec(self.data),
            length: self.length,
            timestamp: self.timestamp,
            src_ip: format_dotted_quad(self.src_ip[0], self.src_ip[1], self.src_ip[2], self.src_ip[3]),
            dst_ip: format_dotted_quad(self.dst_ip[0], self.dst_ip[1], self.dst_ip[2], self.dst_ip[3]),
        }
    }
}

/// The four address bytes at `at` of a raw IPv4 packet, else zeros.
pub open spec fn raw_address_bytes(d: Seq<u8>, at: int) -> Seq<u8> {
    if d.len() >= 20 && ip_version(d[0]) == 4 {
        d.subrange(at, at + 4)
    } else {
        seq![0u8, 0, 0, 0]
    }
}

/// Parses without copying: the result borrows `data` and holds the
/// addresses of a raw IPv4 header as bytes.
pub fn parse_packet_zero_alloc<'a>(data: &'a [u8]) -> (r: Result<PacketRef<'a>, PacketError>)
    ensures
        data@.len() == 0 <==> r is Err,
        r is Err ==> r == Err::<PacketRef<'a>, PacketError>(PacketError::Empty),
        r is Ok ==> ({
            let p = r->Ok_0;
            &&& p.data@ == data@
            &&& p.length == 60
            &&& p.timestamp == 0
            &&& p.src_ip@ == raw_address_bytes(data@, 12)
            &&& p.dst_ip@ == raw_address_bytes(data@, 16)
        }),
{
    if data.len() == 0 {
        return Err(PacketError::Empty);
    }
    let (src_ip, dst_ip) = if data.len() >= 20 && data[0] / 16 == 4 {
        (
            [data[12], data[13], data[14], data[15]],
            [data[16], data[17], data[18], data[19]],
        )
    } else {
        ([0u8, 0, 0, 0], [0u8, 0, 0, 0])
    };
    proof {
        if data@.len() >= 20 && ip_version(data@[0]) == 4 {
            assert(src_ip@ =~= data@.subrange(12, 16));
            assert(dst_ip@ =~= data@.subrange(16, 20));
        } else {
            assert(src_ip@ =~= seq![0u8, 0, 0, 0]);
            assert(dst_ip@ =~= seq![0u8, 0, 0, 0]);
        }
    }
    Ok(PacketRef { data, length: 60, timestamp: 0, src_ip, dst_ip })
}

/// A random glyph of a character set.
pub fn random_matrix_char_optimized(char_set: CharacterSet) -> (r: char)
    ensures
        charset_chars(char_set).len() > 0 ==> charset_chars(char_set).contains(r),
        charset_chars(char_set).len() == 0 ==> r == '?',
{
    let n = random_in(0, usize::MAX as u64) as usize;
    let r = charset_glyph(char_set, n);
    proof {
        let s = charset_chars(char_set);
        if s.len() > 0 {
            assert(s[n as int % s.len() as int] == r);
        }
    }
    r
}

/// A free list of rain glyphs, so that spent glyphs can be reused.
pub struct MatrixCharPool {
    pool: Vec<MatrixChar>,
    capacity: usize,
}

impl MatrixCharPool {
    /// The glyphs held for reuse.
    pub closed spec fn held(&self) -> Seq<MatrixChar> {
        self.pool@
    }

    /// How many glyphs the pool keeps at most.
    pub closed spec fn capacity_view(&self) -> usize {
        self.capacity
    }

    /// An empty pool that keeps at most `capacity` glyphs.
    pub fn new(capacity: usize) -> (r: MatrixCharPool)
        ensures
            r.held().len() == 0,
            r.capacity_view() == capacity,
    {
        MatrixCharPool { pool: Vec::with_capacity(capacity), capacity }
    }

    /// A glyph showing `value` at height `y`, at full intensity with a fresh
    /// trail: a held one reset, or a new one when none is held.
    pub fn acquire(&mut self, value: char, y: u64) -> (r: MatrixChar)
        ensures
            r.value == value,
            r.y == y,
            r.intensity == 1000,
            r.glitch_timer == 0,
            r.color_override is None,
            r.trail_intensity@.len() >= 5,
            r.trail_intensity@.subrange(0, 5) == trail_profile(),
            final(self).capacity_view() == old(self).capacity_view(),
            old(self).held().len() > 0 ==> final(self).held() == old(self).held().drop_last(),
            old(self).held().len() == 0 ==> final(self).held() == old(self).held(),
    {
        match self.pool.pop() {
            Some(mut c) => {
                c.value = value;
                c.y = y;
                c.intensity = 1000;
                c.glitch_timer = 0;
                c.color_override = None;
                if c.trail_intensity.len() >= 5 {
                    c.trail_intensity.set(0, 900);
                    c.trail_intensity.set(1, 700);
                    c.trail_intensity.set(2, 500);
                    c.trail_intensity.set(3, 300);
                    c.trail_intensity.set(4, 150);
                } else {
                    c.trail_intensity = vec![900u64, 700, 500, 300, 150];
                }
                assert(c.trail_intensity@.subrange(0, 5) =~= trail_profile());
                c
            },
            None => {
                let c = MatrixChar::new(value, y);
                assert(c.trail_intensity@.subrange(0, 5) =~= trail_profile());
                c
            },
        }
    }

    /// Keeps a spent glyph for reuse, unless the pool is full.
    pub fn release(&mut self, c: MatrixChar)
        ensures
            final(self).capacity_view() == old(self).capacity_view(),
            final(self).held() == (if old(self).held().len() < old(self).capacity_view() {
                old(self).held().push(c)
            } else {
                old(self).held()
            }),
    {
        if self.pool.len() < self.capacity {
            self.pool.push(c);
        }
    }
}

/// Byte `i` of the data, or zero past its end.
pub open spec fn padded_byte(d: Seq<u8>, i: int) -> int {
    if 0 <= i < d.len() {
        d[i] as int
    } else {
        0
    }
}

/// The little-endian value of bytes `8 - n .. 8` of the zero-padded data.
pub open spec fn key_from(d: Seq<u8>, n: nat) -> int
    decreases n,
{
    if n == 0 {
        0
    } else {
        padded_byte(d, 8 - n) + 256 * key_from(d, (n - 1) as nat)
    }
}

/// The cache key of a packet: its first eight bytes (zero-padded) read as
/// a little-endian number.
pub open spec fn cache_key(d: Seq<u8>) -> int {
    key_from(d, 8)
}

/// The key below 256 to the power `n`.
proof fn lemma_key_bound(d: Seq<u8>, n: nat)
    ensures
        0 <= key_from(d, n) < pow256(n),
    decreases n,
{
    if n > 0 {
        lemma_key_bound(d, (n - 1) as nat);
        let k = key_from(d, (n - 1) as nat);
        let b = padded_byte(d, 8 - n);
        let p = pow256((n - 1) as nat);
        assert(b + 256 * k < 256 * p) by (nonlinear_arith)
            requires
                0 <= b < 256,
                0 <= k < p,
        ;
        assert(0 <= b + 256 * k) by (nonlinear_arith)
            requires
                0 <= b,
                0 <= k,
        ;
    }
}

pub open spec fn pow256(n: nat) -> int
    decreases n,
{
    if n == 0 {
        1
    } else {
        256 * pow256((n - 1) as nat)
    }
}

fn packet_key(data: &[u8]) -> (r: u64)
    ensures
        r == cache_key(data@),
{
    proof {
        lemma_key_bound(data@, 8);
        reveal_with_fuel(pow256, 9);
        assert(pow256(8) == 0x1_0000_0000_0000_0000);
    }
    let mut acc: u64 = 0;
    let mut n: usize = 0;
    while n < 8
        invariant
            n <= 8,
            acc == key_from(data@, n as nat),
        decreases 8 - n,
    {
        let i = 7 - n;
        let b: u64 = if i < data.len() {
            data[i] as u64
        } else {
            0
        };
        proof {
            lemma_key_bound(data@, (n + 1) as nat);
            lemma_key_bound(data@, n as nat);
            assert(pow256((n + 1) as nat) <= pow256(8)) by {
                lemma_pow256_mono((n + 1) as nat, 8);
            }
            reveal_with_fuel(pow256, 9);
        assert(pow256(8) == 0x1_0000_0000_0000_0000);
        }
        acc = b + 256 * acc;
        n += 1;
    }
    acc
}

proof fn lemma_pow256_mono(a: nat, b: nat)
    requires
        a <= b,
    ensures
        pow256(a) <= pow256(b),
    decreases b,
{
    if a < b {
        lemma_pow256_mono(a, (b - 1) as nat);
        lemma_pow256_pos((b - 1) as nat);
    }
}

proof fn lemma_pow256_pos(n: nat)
    ensures
        pow256(n) >= 1,
    decreases n,
{
    if n > 0 {
        lemma_pow256_pos((n - 1) as nat);
    }
}

/// The protocol stored under `key`, if any.
pub open spec fn cached(entries: Seq<(u64, Protocol)>, key: int) -> Option<Protocol>
    decreases entries.len(),
{
    if entries.len() == 0 {
        None
    } else if entries.last().0 == key {
        Some(entries.last().1)
    } else {
        cached(entries.drop_last(), key)
    }
}

/// A bounded memo of classifications, keyed by a packet's first bytes. When
/// full, the oldest entry makes room.
pub struct ProtocolCache {
    entries: Vec<(u64, Protocol)>,
    capacity: usize,
}

impl ProtocolCache {
    /// The stored entries, oldest first.
    pub closed spec fn entries_view(&self) -> Seq<(u64, Protocol)> {
        self.entries@
    }

    pub closed spec fn capacity_view(&self) -> usize {
        self.capacity
    }

    /// The cache never holds more than its capacity (or one entry when the
    /// capacity is zero).
    pub open spec fn wf(&self) -> bool {
        self.entries_view().len() <= (if self.capacity_view() > 0 {
            self.capacity_view() as int
        } else {
            1
        })
    }

    /// An empty cache for at most `capacity` entries.
    pub fn new(capacity: usize) -> (r: ProtocolCache)
        ensures
            r.wf(),
            r.entries_view().len() == 0,
            r.capacity_view() == capacity,
    {
        ProtocolCache { entries: Vec::with_capacity(capacity), capacity }
    }

    /// The cached protocol of a packet with the same first bytes, or the
    /// result of `classify_fn`, which is then cached.
    pub fn get_or_classify<F: FnOnce(&Packet) -> Protocol>(
        &mut self,
        packet: &Packet,
        classify_fn: F,
    ) -> (r: Protocol)
        requires
            old(self).wf(),
            classify_fn.requires((packet,)),
        ensures
            final(self).wf(),
            final(self).capacity_view() == old(self).capacity_view(),
            cached(old(self).entries_view(), cache_key(packet.data@)) is Some ==> {
                &&& r == cached(old(self).entries_view(), cache_key(packet.data@))->Some_0
                &&& final(self).entries_view() == old(self).entries_view()
            },
            cached(old(self).entries_view(), cache_key(packet.data@)) is None ==> {
                &&& classify_fn.ensures((packet,), r)
                &&& cached(final(self).entries_view(), cache_key(packet.data@)) == Some(r)
            },
    {
        let key = packet_key(packet.data.as_slice());
        let mut i: usize = self.entries.len();
        assert(self.entries@.subrange(0, i as int) =~= self.entries@);
        while i > 0
            invariant
                i <= self.entries@.len(),
                self.entries@ == old(self).entries@,
                self.capacity == old(self).capacity,
                self.wf(),
                key == cache_key(packet.data@),
                cached(self.entries@, key as int) == cached(self.entries@.subrange(0, i as int), key as int),
            decreases i,
        {
            proof {
                assert(self.entries@.subrange(0, i as int).drop_last() =~= self.entries@.subrange(
                    0,
                    i - 1,
                ));
            }
            if self.entries[i - 1].0 == key {
                return self.entries[i - 1].1;
            }
            i -= 1;
        }
        assert(self.entries@.subrange(0, 0) =~= Seq::<(u64, Protocol)>::empty());
        let protocol = classify_fn(packet);
        if self.entries.len() > 0 && self.entries.len() >= self.capacity {
            self.entries.remove(0);
        }
        self.entries.push((key, protocol));
        protocol
    }
}

} // verus!
