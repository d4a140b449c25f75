//! Network packet classification, heuristic threat detection and a
//! traffic-driven "matrix rain" animation model.
use vstd::prelude::*;

pub mod addr;
pub mod bytes;
pub mod clock;
pub mod display;
pub mod matrix_rain;
pub mod optimized;
pub mod packet;
pub mod perf;
pub mod protocol_activity;
mod random;
pub mod render;
pub mod simple_matrix;
pub mod threat_detection;

pub use packet::{classify_protocol, extract_protocol, parse_packet, validate_packet};
pub use threat_detection::{ThreatConfig, ThreatDetector};

verus! {

/// The coarse protocol label given to a packet.
#[derive(Debug, Clone, Copy, PartialEq, Eq, Hash, Structural)]
pub enum Protocol {
    TCP,
    UDP,
    HTTP,
    HTTPS,
    DNS,
    SSH,
    Unknown,
}

/// A captured packet as handed to the classifier and the detector.
#[derive(Debug, Clone)]
pub struct Packet {
    pub data: Vec<u8>,
    pub length: usize,
    pub timestamp: u64,
    pub src_ip: String,
    pub dst_ip: String,
}

} // verus!

verus! {

/// The kind of attack the detector last recognised.
#[derive(Debug, Clone, Copy, PartialEq, Eq, Structural)]
pub enum ThreatType {
    SynFlood,
    PortScan,
    Unknown,
}

/// How serious a single-packet anomaly is.
#[derive(Debug, Clone, Copy, PartialEq, Eq, Structural)]
pub enum Severity {
    Low,
    Medium,
    High,
}

/// A single-packet heuristic finding.
#[derive(Debug, Clone, Copy, PartialEq, Eq, Structural)]
pub struct Anomaly {
    pub severity: Severity,
}

/// A flag asserted by a caller, counted towards the threat level.
#[derive(Debug, Clone, Copy, PartialEq, Eq, Structural)]
pub enum ThreatIndicator {
    PortScan,
    HighTrafficRate,
    SuspiciousPayload,
}

/// Overall threat level, derived from the number of indicators.
#[derive(Debug, Clone, Copy, PartialEq, Eq, Structural)]
pub enum ThreatLevel {
    Low,
    Medium,
    High,
    Critical,
}

} // verus!

verus! {

/// Packet and byte counts per protocol.
pub struct ProtocolStats {
    counts: Vec<usize>,
    bytes: Vec<usize>,
}

/// The slot of a protocol in per-protocol tables.
pub open spec fn protocol_index(p: Protocol) -> int {
    match p {
        Protocol::TCP => 0,
        Protocol::UDP => 1,
        Protocol::HTTP => 2,
        Protocol::HTTPS => 3,
        Protocol::DNS => 4,
        Protocol::SSH => 5,
        Protocol::Unknown => 6,
    }
}

fn protocol_slot(p: Protocol) -> (r: usize)
    ensures
        r == protocol_index(p),
        r < 7,
{
    match p {
        Protocol::TCP => 0,
        Protocol::UDP => 1,
        Protocol::HTTP => 2,
        Protocol::HTTPS => 3,
        Protocol::DNS => 4,
        Protocol::SSH => 5,
        Protocol::Unknown => 6,
    }
}

/// `a + b`, held at the largest `usize`.
pub open spec fn sat_add(a: usize, b: usize) -> usize {
    if a + b <= usize::MAX {
        (a + b) as usize
    } else {
        usize::MAX
    }
}

impl ProtocolStats {
    /// Packets counted for `p`.
    pub closed spec fn count(&self, p: Protocol) -> usize {
        self.counts@[protocol_index(p)]
    }

    /// Bytes counted for `p`.
    pub closed spec fn total_bytes(&self, p: Protocol) -> usize {
        self.bytes@[protocol_index(p)]
    }

    /// Packet counts in slot order.
    pub open spec fn counts_in_order(&self) -> Seq<usize> {
        seq![
            self.count(Protocol::TCP),
            self.count(Protocol::UDP),
            self.count(Protocol::HTTP),
            self.count(Protocol::HTTPS),
            self.count(Protocol::DNS),
            self.count(Protocol::SSH),
            self.count(Protocol::Unknown),
        ]
    }

    pub closed spec fn wf(&self) -> bool {
        self.counts@.len() == 7 && self.bytes@.len() == 7
    }

    /// Stats with nothing counted.
    pub fn new() -> (r: ProtocolStats)
        ensures
            r.wf(),
            forall|p: Protocol| r.count(p) == 0 && r.total_bytes(p) == 0,
    {
        ProtocolStats { counts: vec![0usize; 7], bytes: vec![0usize; 7] }
    }

    /// Counts one packet of `protocol` carrying `packet_bytes` bytes.
    pub fn add_packet(&mut self, protocol: Protocol, packet_bytes: usize)
        requires
            old(self).wf(),
        ensures
            final(self).wf(),
            final(self).count(protocol) == sat_add(old(self).count(protocol), 1),
            final(self).total_bytes(protocol) == sat_add(
                old(self).total_bytes(protocol),
                packet_bytes,
            ),
            forall|q: Protocol|
                q != protocol ==> final(self).count(q) == old(self).count(q)
                    && final(self).total_bytes(q) == old(self).total_bytes(q),
    {
        let i = protocol_slot(protocol);
        let c = self.counts[i].saturating_add(1);
        self.counts.set(i, c);
        let b = self.bytes[i].saturating_add(packet_bytes);
        self.bytes.set(i, b);
        assert forall|q: Protocol| q != protocol implies protocol_index(q) != protocol_index(
            protocol,
        ) by {}
    }

    /// Packets counted for `protocol`.
    pub fn get_count(&self, protocol: Protocol) -> (r: usize)
        requires
            self.wf(),
        ensures
            r == self.count(protocol),
    {
        self.counts[protocol_slot(protocol)]
    }

    /// Bytes counted for `protocol`.
    pub fn get_total_bytes(&self, protocol: Protocol) -> (r: usize)
        requires
            self.wf(),
        ensures
            r == self.total_bytes(protocol),
    {
        self.bytes[protocol_slot(protocol)]
    }

    /// Packets counted over all protocols, held at the largest `usize`.
    pub fn get_total_count(&self) -> (r: usize)
        requires
            self.wf(),
        ensures
            r as int == sum_capped(self.counts_in_order(), 7),
    {
        assert(self.counts@ =~= self.counts_in_order());
        let mut total: usize = 0;
        let mut i: usize = 0;
        while i < 7
            invariant
                i <= 7,
                self.counts@.len() == 7,
                total as int == sum_capped(self.counts@, i as int),
            decreases 7 - i,
        {
            total = total.saturating_add(self.counts[i]);
            i += 1;
        }
        total
    }
}

/// The sum of the first `n` counts, held at the largest `usize` at each step.
pub open spec fn sum_capped(counts: Seq<usize>, n: int) -> int
    decreases n,
{
    if n <= 0 {
        0
    } else {
        let s = sum_capped(counts, n - 1) + counts[n - 1];
        if s > usize::MAX {
            usize::MAX as int
        } else {
            s
        }
    }
}

/// Tracks which rain columns are lit and which have faded.
pub struct RainManager {
    width: usize,
    height: usize,
    columns: Vec<usize>,
    faded_columns: Vec<usize>,
}

impl RainManager {
    pub closed spec fn width_view(&self) -> usize {
        self.width
    }

    pub closed spec fn height_view(&self) -> usize {
        self.height
    }

    /// Lit columns, in the order added.
    pub closed spec fn columns_view(&self) -> Seq<usize> {
        self.columns@
    }

    /// Faded columns, in the order added.
    pub closed spec fn faded_view(&self) -> Seq<usize> {
        self.faded_columns@
    }

    /// A manager for a `width` by `height` area with no columns.
    pub fn new(width: usize, height: usize) -> (r: RainManager)
        ensures
            r.width_view() == width,
            r.height_view() == height,
            r.columns_view().len() == 0,
            r.faded_view().len() == 0,
    {
        RainManager { width, height, columns: Vec::new(), faded_columns: Vec::new() }
    }

    /// Lights column `x`; positions outside the width are ignored.
    pub fn add_column(&mut self, x: usize)
        ensures
            final(self).columns_view() == (if x < old(self).width_view() {
                old(self).columns_view().push(x)
            } else {
                old(self).columns_view()
            }),
            final(self).faded_view() == old(self).faded_view(),
            final(self).width_view() == old(self).width_view(),
            final(self).height_view() == old(self).height_view(),
    {
        if x < self.width {
            self.columns.push(x);
        }
    }

    /// Marks column `x` as faded; positions outside the width are ignored.
    pub fn add_faded_column(&mut self, x: usize)
        ensures
            final(self).faded_view() == (if x < old(self).width_view() {
                old(self).faded_view().push(x)
            } else {
                old(self).faded_view()
            }),
            final(self).columns_view() == old(self).columns_view(),
            final(self).width_view() == old(self).width_view(),
            final(self).height_view() == old(self).height_view(),
    {
        if x < self.width {
            self.faded_columns.push(x);
        }
    }

    /// Forgets every faded column.
    pub fn remove_faded_columns(&mut self)
        ensures
            final(self).faded_view().len() == 0,
            final(self).columns_view() == old(self).columns_view(),
            final(self).width_view() == old(self).width_view(),
            final(self).height_view() == old(self).height_view(),
    {
        self.faded_columns.clear();
    }

    /// The number of lit columns.
    pub fn active_columns(&self) -> (r: usize)
        ensures
            r == self.columns_view().len(),
    {
        self.columns.len()
    }
}

/// The HTTP method that starts the data, if any.
pub open spec fn http_method_name(d: Seq<u8>) -> Option<Seq<char>> {
    if crate::bytes::has_prefix_at(d, 0, crate::bytes::get_method()) {
        Some("GET"@)
    } else if crate::bytes::has_prefix_at(d, 0, crate::bytes::post_method()) {
        Some("POST"@)
    } else if crate::bytes::has_prefix_at(d, 0, crate::bytes::put_method()) {
        Some("PUT"@)
    } else if crate::bytes::has_prefix_at(d, 0, crate::bytes::delete_method()) {
        Some("DELETE"@)
    } else {
        None
    }
}

/// The HTTP request method that starts the packet, if any.
pub fn get_http_method(packet: &Packet) -> (r: Option<&'static str>)
    ensures
        r is Some <==> http_method_name(packet.data@) is Some,
        r is Some ==> r->Some_0@ == http_method_name(packet.data@)->Some_0,
{
    let d = packet.data.as_slice();
    if crate::bytes::starts_with_at(d, 0, &[0x47u8, 0x45, 0x54, 0x20]) {
        Some("GET")
    } else if crate::bytes::starts_with_at(d, 0, &[0x50u8, 0x4F, 0x53, 0x54, 0x20]) {
        Some("POST")
    } else if crate::bytes::starts_with_at(d, 0, &[0x50u8, 0x55, 0x54, 0x20]) {
        Some("PUT")
    } else if crate::bytes::starts_with_at(d, 0, &[0x44u8, 0x45, 0x4C, 0x45, 0x54, 0x45, 0x20]) {
        Some("DELETE")
    } else {
        None
    }
}

/// The packet starts with a TLS handshake record (type 0x16).
pub fn is_tls_handshake(packet: &Packet) -> (r: bool)
    ensures
        r == (packet.data@.len() > 0 && packet.data@[0] == 0x16),
{
    packet.data.len() > 0 && packet.data[0] == 0x16
}

/// The query name of a DNS packet. This heuristic does not read the packet
/// and always answers "example.com".
pub fn extract_dns_query(packet: &Packet) -> (r: Option<&'static str>)
    ensures
        r is Some,
        r->Some_0@ == "example.com"@,
{
    Some("example.com")
}

} // verus!

verus! {

/// A column of glyphs for the simple speed model; speed and intensity are
/// in thousandths.
pub struct RainColumn {
    pub x: usize,
    pub chars: Vec<char>,
    pub speed: u32,
    pub intensity: u32,
}

/// A glyph that fades with age; intensity is in thousandths.
pub struct MatrixChar {
    pub value: char,
    pub intensity: u32,
    pub age: u32,
}

/// Fall speed in thousandths of a row per tick: speed scaled by intensity,
/// tripled when the column carries a threat mark ('!'), else doubled and
/// held within [0.1, 2.0].
pub open spec fn fall_speed_spec(speed: u32, intensity: u32, chars: Seq<char>) -> int {
    let base = speed as int * intensity as int / 1000;
    if chars.contains('!') {
        base * 3
    } else if base * 2 > 2000 {
        2000
    } else if base * 2 < 100 {
        100
    } else {
        base * 2
    }
}

/// The fall speed of a column, in thousandths.
pub fn calculate_fall_speed(column: &RainColumn) -> (r: u64)
    ensures
        r as int == fall_speed_spec(column.speed, column.intensity, column.chars@),
{
    let speed = column.speed;
    let intensity = column.intensity;
    assert(speed as int * intensity as int <= u32::MAX as int * u32::MAX as int)
        by (nonlinear_arith)
        requires
            speed <= u32::MAX,
            intensity <= u32::MAX,
    ;
    let base: u64 = speed as u64 * intensity as u64 / 1000;
    let mut threat = false;
    let mut i: usize = 0;
    while i < column.chars.len()
        invariant
            i <= column.chars@.len(),
            threat == (exists|j: int| 0 <= j < i && column.chars@[j] == '!'),
        decreases column.chars@.len() - i,
    {
        if column.chars[i] == '!' {
            threat = true;
        }
        i += 1;
    }
    assert(threat == column.chars@.contains('!'));
    if threat {
        base * 3
    } else if base * 2 > 2000 {
        2000
    } else if base * 2 < 100 {
        100
    } else {
        base * 2
    }
}

/// Dims a glyph by 0.1 (down to zero) and ages it by one tick.
pub fn fade_character(c: &mut MatrixChar)
    ensures
        final(c).intensity == (if old(c).intensity >= 100 {
            old(c).intensity - 100
        } else {
            0
        }),
        final(c).age == (if old(c).age < u32::MAX {
            old(c).age + 1
        } else {
            u32::MAX as int
        }),
        final(c).value == old(c).value,
{
    c.intensity = c.intensity.saturating_sub(100);
    c.age = c.age.saturating_add(1);
}

/// Rain density in thousandths for a traffic rate in packets per second:
/// proportional up to 10000 packets per second, then full.
pub open spec fn rain_density_spec(traffic_rate: u64) -> int {
    if traffic_rate >= 10000 {
        1000
    } else {
        traffic_rate as int / 10
    }
}

/// Maps a traffic rate to a rain density in thousandths.
pub fn calculate_rain_density(traffic_rate: u64) -> (r: u64)
    ensures
        r as int == rain_density_spec(traffic_rate),
        r <= 1000,
{
    if traffic_rate >= 10000 {
        1000
    } else {
        traffic_rate / 10
    }
}

} // verus!
