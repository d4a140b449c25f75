//! Sliding-window threat detection: port scans, packet floods, single-packet
//! anomalies and an accumulate-only threat level.
//!
//! Time is counted in whole milliseconds since the detector was created. Each
//! time-dependent operation comes in two forms: one that reads the clock, and
//! one (`*_at`) that takes the reading as an argument and is specified exactly.
use vstd::prelude::*;
use std::collections::HashSet;

use crate::addr::IpAddr;
use crate::bytes::be16_at;
use crate::clock::millis_since;
use crate::{Anomaly, Packet, Severity, ThreatIndicator, ThreatLevel, ThreatType};

verus! {

broadcast use vstd::std_specs::hash::group_hash_axioms;

/// Thresholds of the detector. Windows are in milliseconds.
pub struct ThreatConfig {
    /// How far back distinct ports count towards a port scan.
    pub port_scan_window: u64,
    /// Distinct ports from one source that make a port scan.
    pub port_scan_threshold: usize,
    /// Length of the packet-rate window.
    pub ddos_window: u64,
    /// Packets per second above which a flood is reported.
    pub ddos_packet_rate_threshold: u64,
    /// SYN packets in one window that make a SYN flood.
    pub syn_flood_threshold: usize,
    /// How long connection records are kept.
    pub connection_window: u64,
}

impl ThreatConfig {
    pub open spec fn is_default(&self) -> bool {
        &&& self.port_scan_window == 60_000
        &&& self.port_scan_threshold == 20
        &&& self.ddos_window == 10_000
        &&& self.ddos_packet_rate_threshold == 999
        &&& self.syn_flood_threshold == 100
        &&& self.connection_window == 300_000
    }
}

impl Default for ThreatConfig {
    fn default() -> (r: ThreatConfig)
        ensures
            r.is_default(),
    {
        ThreatConfig {
            port_scan_window: 60_000,
            port_scan_threshold: 20,
            ddos_window: 10_000,
            ddos_packet_rate_threshold: 999,
            syn_flood_threshold: 100,
            connection_window: 300_000,
        }
    }
}

/// One observed connection attempt.
#[derive(Debug, Clone, Copy, PartialEq, Eq, Structural)]
pub struct ConnectionRecord {
    pub source_ip: IpAddr,
    pub port: u16,
    pub timestamp: u64,
}

/// Counters of the current packet-rate window.
#[derive(Debug, Clone, Copy, PartialEq, Eq, Structural)]
pub struct PacketStats {
    pub packet_count: usize,
    pub syn_count: usize,
    pub window_start: u64,
}

/// Time from `then` to `now`; zero when `then` is later.
pub open spec fn age(now: u64, then: u64) -> int {
    if now >= then {
        now - then
    } else {
        0
    }
}

/// `records` without those older than `window` at `now`, order kept.
pub open spec fn keep_recent(records: Seq<ConnectionRecord>, now: u64, window: u64) -> Seq<
    ConnectionRecord,
>
    decreases records.len(),
{
    if records.len() == 0 {
        Seq::empty()
    } else {
        let rest = keep_recent(records.drop_last(), now, window);
        if age(now, records.last().timestamp) <= window {
            rest.push(records.last())
        } else {
            rest
        }
    }
}

/// The distinct ports that `ip` used within `window` of `now`.
pub open spec fn recent_ports(records: Seq<ConnectionRecord>, ip: IpAddr, now: u64, window: u64) -> Set<
    u16,
>
    decreases records.len(),
{
    if records.len() == 0 {
        Set::empty()
    } else {
        let rest = recent_ports(records.drop_last(), ip, now, window);
        let r = records.last();
        if r.source_ip == ip && age(now, r.timestamp) <= window {
            rest.insert(r.port)
        } else {
            rest
        }
    }
}

/// The simplified SYN test: a header-sized packet whose IP protocol is TCP.
pub open spec fn is_syn_spec(data: Seq<u8>) -> bool {
    data.len() >= 20 && data[9] == 0x06
}

/// `n + 1`, held at the largest `usize`.
pub open spec fn bump(n: usize) -> usize {
    if n < usize::MAX {
        (n + 1) as usize
    } else {
        n
    }
}

/// The packet-rate counters after one more packet at `now`.
pub open spec fn stats_after(s: PacketStats, ddos_window: u64, data: Seq<u8>, now: u64) -> PacketStats {
    let base = if age(now, s.window_start) > ddos_window {
        PacketStats { packet_count: 0, syn_count: 0, window_start: now }
    } else {
        s
    };
    PacketStats {
        packet_count: bump(base.packet_count),
        syn_count: if is_syn_spec(data) {
            bump(base.syn_count)
        } else {
            base.syn_count
        },
        window_start: base.window_start,
    }
}

/// The packet rate of the window exceeds `threshold` packets per second; the
/// elapsed time counts as at least one second.
pub open spec fn rate_exceeds(packet_count: int, elapsed_ms: int, threshold: int) -> bool {
    let span = if elapsed_ms > 1000 {
        elapsed_ms
    } else {
        1000
    };
    packet_count * 1000 > threshold * span
}

/// The anomaly heuristic: a short packet, the backdoor port 31337 at bytes
/// 22-23, or a payload of nothing but 0xFF.
pub open spec fn anomaly_spec(data: Seq<u8>) -> Option<Severity> {
    if data.len() < 20 {
        Some(Severity::High)
    } else if data.len() >= 24 && be16_at(data, 22) == 31337 {
        Some(Severity::Medium)
    } else if forall|i: int| 0 <= i < data.len() ==> data[i] == 0xFF {
        Some(Severity::High)
    } else {
        None
    }
}

/// The threat level for a number of indicators.
pub open spec fn level_of(n: nat) -> ThreatLevel {
    if n == 0 {
        ThreatLevel::Low
    } else if n == 1 {
        ThreatLevel::Medium
    } else if n == 2 {
        ThreatLevel::High
    } else {
        ThreatLevel::Critical
    }
}

/// The rolling-statistics store of the detector.
pub struct ThreatDetector {
    config: ThreatConfig,
    connections: Vec<ConnectionRecord>,
    packet_stats: PacketStats,
    current_threat_type: ThreatType,
    threat_indicators: Vec<ThreatIndicator>,
    clock: std::time::Instant,
}

impl ThreatDetector {
    pub closed spec fn config(&self) -> ThreatConfig {
        self.config
    }

    /// The stored connection records, oldest first.
    pub closed spec fn records(&self) -> Seq<ConnectionRecord> {
        self.connections@
    }

    pub closed spec fn stats(&self) -> PacketStats {
        self.packet_stats
    }

    pub closed spec fn threat_type(&self) -> ThreatType {
        self.current_threat_type
    }

    pub closed spec fn indicators(&self) -> Seq<ThreatIndicator> {
        self.threat_indicators@
    }

    /// A detector with the default thresholds and nothing recorded; its
    /// clock starts now.
    pub fn new() -> (r: ThreatDetector)
        ensures
            r.config().is_default(),
            r.records().len() == 0,
            r.stats() == (PacketStats { packet_count: 0, syn_count: 0, window_start: 0 }),
            r.threat_type() == ThreatType::Unknown,
            r.indicators().len() == 0,
    {
        ThreatDetector::with_config(ThreatConfig::default())
    }

    /// A detector with the given thresholds and nothing recorded.
    pub fn with_config(config: ThreatConfig) -> (r: ThreatDetector)
        ensures
            r.config() == config,
            r.records().len() == 0,
            r.stats() == (PacketStats { packet_count: 0, syn_count: 0, window_start: 0 }),
            r.threat_type() == ThreatType::Unknown,
            r.indicators().len() == 0,
    {
        ThreatDetector {
            config,
            connections: Vec::new(),
            packet_stats: PacketStats { packet_count: 0, syn_count: 0, window_start: 0 },
            current_threat_type: ThreatType::Unknown,
            threat_indicators: Vec::new(),
            clock: std::time::Instant::now(),
        }
    }

    /// Milliseconds since the detector was created.
    pub fn now(&self) -> u64 {
        millis_since(&self.clock)
    }

    /// Records a connection from `ip` to `port`, stamped with the clock.
    pub fn add_connection(&mut self, ip: IpAddr, port: u16)
        ensures
            exists|now: u64|
                final(self).records() == keep_recent(
                    old(self).records().push(ConnectionRecord { source_ip: ip, port, timestamp: now }),
                    now,
                    old(self).config().connection_window,
                ),
            final(self).config() == old(self).config(),
            final(self).stats() == old(self).stats(),
            final(self).threat_type() == old(self).threat_type(),
            final(self).indicators() == old(self).indicators(),
    {
        let now = self.now();
        self.add_connection_at(ip, port, now);
    }

    /// Records a connection from `ip` to `port` at time `now`, then drops
    /// every record older than the connection window.
    pub fn add_connection_at(&mut self, ip: IpAddr, port: u16, now: u64)
        ensures
            final(self).records() == keep_recent(
                old(self).records().push(ConnectionRecord { source_ip: ip, port, timestamp: now }),
                now,
                old(self).config().connection_window,
            ),
            final(self).config() == old(self).config(),
            final(self).stats() == old(self).stats(),
            final(self).threat_type() == old(self).threat_type(),
            final(self).indicators() == old(self).indicators(),
    {
        self.connections.push(ConnectionRecord { source_ip: ip, port, timestamp: now });
        self.clean_old_connections(now);
    }

    fn clean_old_connections(&mut self, now: u64)
        ensures
            final(self).connections@ == keep_recent(
                old(self).connections@,
                now,
                old(self).config.connection_window,
            ),
            final(self).config == old(self).config,
            final(self).packet_stats == old(self).packet_stats,
            final(self).current_threat_type == old(self).current_threat_type,
            final(self).threat_indicators == old(self).threat_indicators,
    {
        let window = self.config.connection_window;
        let mut kept: Vec<ConnectionRecord> = Vec::new();
        let mut i: usize = 0;
        while i < self.connections.len()
            invariant
                i <= self.connections.len(),
                kept@ == keep_recent(self.connections@.subrange(0, i as int), now, window),
            decreases self.connections.len() - i,
        {
            let r = self.connections[i];
            proof {
                assert(self.connections@.subrange(0, i + 1).drop_last()
                    =~= self.connections@.subrange(0, i as int));
            }
            let fresh = if now >= r.timestamp {
                now - r.timestamp <= window
            } else {
                true
            };
            if fresh {
                kept.push(r);
            }
            i += 1;
        }
        assert(self.connections@.subrange(0, i as int) =~= self.connections@);
        self.connections = kept;
    }

    /// Whether `ip` contacted at least the threshold number of distinct
    /// ports within the port-scan window, read against the clock.
    pub fn is_port_scan(&self, ip: IpAddr) -> (r: bool)
        ensures
            exists|now: u64|
                r == (recent_ports(self.records(), ip, now, self.config().port_scan_window).len()
                    >= self.config().port_scan_threshold),
    {
        let now = self.now();
        self.is_port_scan_at(ip, now)
    }

    /// Whether `ip` contacted at least the threshold number of distinct
    /// ports within the port-scan window before `now`. Does not prune.
    pub fn is_port_scan_at(&self, ip: IpAddr, now: u64) -> (r: bool)
        ensures
            r == (recent_ports(self.records(), ip, now, self.config().port_scan_window).len()
                >= self.config().port_scan_threshold),
    {
        let window = self.config.port_scan_window;
        let mut ports: HashSet<u16> = HashSet::new();
        let mut i: usize = 0;
        while i < self.connections.len()
            invariant
                i <= self.connections.len(),
                ports@ == recent_ports(self.connections@.subrange(0, i as int), ip, now, window),
            decreases self.connections.len() - i,
        {
            let r = self.connections[i];
            proof {
                assert(self.connections@.subrange(0, i + 1).drop_last()
                    =~= self.connections@.subrange(0, i as int));
            }
            let fresh = if now >= r.timestamp {
                now - r.timestamp <= window
            } else {
                true
            };
            if r.source_ip == ip && fresh {
                ports.insert(r.port);
            }
            i += 1;
        }
        assert(self.connections@.subrange(0, i as int) =~= self.connections@);
        ports.len() >= self.config.port_scan_threshold
    }

    /// Counts a packet in the packet-rate window, stamped with the clock.
    pub fn analyze_packet(&mut self, packet: &Packet)
        ensures
            exists|now: u64|
                final(self).stats() == stats_after(
                    old(self).stats(),
                    old(self).config().ddos_window,
                    packet.data@,
                    now,
                ),
            final(self).threat_type() == (if final(self).stats().syn_count
                >= old(self).config().syn_flood_threshold {
                ThreatType::SynFlood
            } else {
                old(self).threat_type()
            }),
            final(self).config() == old(self).config(),
            final(self).records() == old(self).records(),
            final(self).indicators() == old(self).indicators(),
    {
        let now = self.now();
        self.analyze_packet_at(packet, now);
    }

    /// Counts a packet at time `now`: the window restarts first if it has
    /// run longer than the DDoS window; a SYN packet also counts as SYN; once
    /// the SYN count reaches the threshold the threat type is SYN flood.
    pub fn analyze_packet_at(&mut self, packet: &Packet, now: u64)
        ensures
            final(self).stats() == stats_after(
                old(self).stats(),
                old(self).config().ddos_window,
                packet.data@,
                now,
            ),
            final(self).threat_type() == (if final(self).stats().syn_count
                >= old(self).config().syn_flood_threshold {
                ThreatType::SynFlood
            } else {
                old(self).threat_type()
            }),
            final(self).config() == old(self).config(),
            final(self).records() == old(self).records(),
            final(self).indicators() == old(self).indicators(),
    {
        let expired = if now >= self.packet_stats.window_start {
            now - self.packet_stats.window_start > self.config.ddos_window
        } else {
            false
        };
        if expired {
            self.packet_stats = PacketStats { packet_count: 0, syn_count: 0, window_start: now };
        }
        self.packet_stats.packet_count = self.packet_stats.packet_count.saturating_add(1);
        if is_syn_packet(packet) {
            self.packet_stats.syn_count = self.packet_stats.syn_count.saturating_add(1);
        }
        if self.packet_stats.syn_count >= self.config.syn_flood_threshold {
            self.current_threat_type = ThreatType::SynFlood;
        }
    }

    /// Whether the packet rate of the current window, read against the
    /// clock, exceeds the DDoS threshold.
    pub fn is_ddos_active(&self) -> (r: bool)
        ensures
            exists|now: u64|
                r == rate_exceeds(
                    self.stats().packet_count as int,
                    age(now, self.stats().window_start),
                    self.config().ddos_packet_rate_threshold as int,
                ),
    {
        let now = self.now();
        self.is_ddos_active_at(now)
    }

    /// Whether the packet rate of the current window at `now` exceeds the
    /// DDoS threshold. The elapsed time counts as at least one second, so
    /// that a fresh window does not report a spike.
    pub fn is_ddos_active_at(&self, now: u64) -> (r: bool)
        ensures
            r == rate_exceeds(
                self.stats().packet_count as int,
                age(now, self.stats().window_start),
                self.config().ddos_packet_rate_threshold as int,
            ),
    {
        let elapsed: u64 = if now >= self.packet_stats.window_start {
            now - self.packet_stats.window_start
        } else {
            0
        };
        let span: u64 = if elapsed > 1000 {
            elapsed
        } else {
            1000
        };
        let threshold: u64 = self.config.ddos_packet_rate_threshold;
        assert(threshold as int * span as int <= u64::MAX as int * u64::MAX as int)
            by (nonlinear_arith)
            requires
                threshold <= u64::MAX,
                span <= u64::MAX,
        ;
        let lhs: u128 = self.packet_stats.packet_count as u128 * 1000;
        let rhs: u128 = threshold as u128 * span as u128;
        lhs > rhs
    }

    /// The last recognised threat type.
    pub fn get_threat_type(&self) -> (r: ThreatType)
        ensures
            r == self.threat_type(),
    {
        self.current_threat_type
    }

    /// Scores a single packet against the anomaly heuristic.
    pub fn detect_anomaly(&self, packet: &Packet) -> (r: Option<Anomaly>)
        ensures
            r == (match anomaly_spec(packet.data@) {
                Some(s) => Some(Anomaly { severity: s }),
                None => None,
            }),
    {
        if packet.data.len() < 20 {
            return Some(Anomaly { severity: Severity::High });
        }
        match extract_destination_port(packet) {
            Some(port) => {
                if port == 31337 {
                    return Some(Anomaly { severity: Severity::Medium });
                }
            },
            None => {},
        }
        assert(packet.data@.len() >= 24 ==> be16_at(packet.data@, 22) != 31337);
        let mut i: usize = 0;
        while i < packet.data.len()
            invariant
                i <= packet.data.len(),
                forall|j: int| 0 <= j < i ==> packet.data@[j] == 0xFF,
                packet.data@.len() >= 20,
                packet.data@.len() >= 24 ==> be16_at(packet.data@, 22) != 31337,
            decreases packet.data.len() - i,
        {
            if packet.data[i] != 0xFF {
                assert(packet.data@[i as int] != 0xFF);
                return None;
            }
            i += 1;
        }
        Some(Anomaly { severity: Severity::High })
    }

    /// Adds an indicator; indicators are never removed.
    pub fn add_threat_indicator(&mut self, indicator: ThreatIndicator)
        ensures
            final(self).indicators() == old(self).indicators().push(indicator),
            final(self).config() == old(self).config(),
            final(self).records() == old(self).records(),
            final(self).stats() == old(self).stats(),
            final(self).threat_type() == old(self).threat_type(),
    {
        self.threat_indicators.push(indicator);
    }

    /// The threat level for the number of indicators added so far.
    pub fn get_threat_level(&self) -> (r: ThreatLevel)
        ensures
            r == level_of(self.indicators().len()),
    {
        match self.threat_indicators.len() {
            0 => ThreatLevel::Low,
            1 => ThreatLevel::Medium,
            2 => ThreatLevel::High,
            _ => ThreatLevel::Critical,
        }
    }
}

/// The simplified SYN test.
pub fn is_syn_packet(packet: &Packet) -> (r: bool)
    ensures
        r == is_syn_spec(packet.data@),
{
    packet.data.len() >= 20 && packet.data[9] == 0x06
}

/// The destination port, read at bytes 22-23 as if behind a 20-byte IPv4
/// header.
pub fn extract_destination_port(packet: &Packet) -> (r: Option<u16>)
    ensures
        packet.data@.len() >= 24 ==> r == Some(be16_at(packet.data@, 22) as u16),
        packet.data@.len() < 24 ==> r is None,
{
    if packet.data.len() >= 24 {
        Some(crate::bytes::read_be16(packet.data.as_slice(), 22))
    } else {
        None
    }
}

/// The ports that `ip` used within the window are exactly those of its
/// records there, and there are finitely many.
pub proof fn lemma_recent_ports_members(
    records: Seq<ConnectionRecord>,
    ip: IpAddr,
    now: u64,
    window: u64,
)
    ensures
        recent_ports(records, ip, now, window).finite(),
        forall|p: u16|
            recent_ports(records, ip, now, window).contains(p) <==> exists|i: int|
                0 <= i < records.len() && #[trigger] records[i].port == p && records[i].source_ip
                    == ip && age(now, records[i].timestamp) <= window,
    decreases records.len(),
{
    if records.len() > 0 {
        let rest = records.drop_last();
        lemma_recent_ports_members(rest, ip, now, window);
        assert forall|p: u16|
            recent_ports(records, ip, now, window).contains(p) <==> exists|i: int|
                0 <= i < records.len() && #[trigger] records[i].port == p && records[i].source_ip
                    == ip && age(now, records[i].timestamp) <= window by {
            if recent_ports(records, ip, now, window).contains(p) {
                if recent_ports(rest, ip, now, window).contains(p) {
                    let i = choose|i: int|
                        0 <= i < rest.len() && #[trigger] rest[i].port == p && rest[i].source_ip
                            == ip && age(now, rest[i].timestamp) <= window;
                    assert(records[i] == rest[i]);
                } else {
                    assert(records[records.len() - 1].port == p);
                }
            }
            if exists|i: int|
                0 <= i < records.len() && #[trigger] records[i].port == p && records[i].source_ip
                    == ip && age(now, records[i].timestamp) <= window {
                let i = choose|i: int|
                    0 <= i < records.len() && #[trigger] records[i].port == p
                        && records[i].source_ip == ip && age(now, records[i].timestamp) <= window;
                if i < records.len() - 1 {
                    assert(rest[i] == records[i]);
                }
            }
        }
    }
}

/// The port-scan test counts distinct ports, not connections: when every
/// record of `ip` names the same port, at most one port counts, so no
/// threshold above one is reached however often that port repeats.
pub proof fn lemma_repeated_port_is_not_a_scan(
    records: Seq<ConnectionRecord>,
    ip: IpAddr,
    port: u16,
    now: u64,
    window: u64,
    threshold: usize,
)
    requires
        forall|i: int| 0 <= i < records.len() && records[i].source_ip == ip ==> records[i].port
            == port,
        threshold > 1,
    ensures
        recent_ports(records, ip, now, window).len() <= 1,
        !(recent_ports(records, ip, now, window).len() >= threshold),
{
    lemma_recent_ports_members(records, ip, now, window);
    let found = recent_ports(records, ip, now, window);
    assert(found.subset_of(set![port]));
    vstd::set_lib::lemma_len_subset(found, set![port]);
}

/// Below the threshold is no scan; a set of distinct ports of at least the
/// threshold, each used by `ip` within the window, is one.
pub proof fn lemma_port_scan_threshold(
    records: Seq<ConnectionRecord>,
    ip: IpAddr,
    ports: Set<u16>,
    now: u64,
    window: u64,
    threshold: usize,
)
    requires
        ports.finite(),
        ports.len() >= threshold,
        forall|p: u16|
            ports.contains(p) ==> exists|i: int|
                0 <= i < records.len() && #[trigger] records[i].port == p && records[i].source_ip
                    == ip && age(now, records[i].timestamp) <= window,
    ensures
        recent_ports(records, ip, now, window).len() >= threshold,
{
    lemma_recent_ports_members(records, ip, now, window);
    let found = recent_ports(records, ip, now, window);
    assert(ports.subset_of(found));
    vstd::set_lib::lemma_len_subset(ports, found);
}

/// The threat level depends on how many indicators were added, not on which
/// ones or in what order.
pub proof fn lemma_threat_level_order_free(a: Seq<ThreatIndicator>, b: Seq<ThreatIndicator>)
    requires
        a.to_multiset() =~= b.to_multiset(),
    ensures
        level_of(a.len()) == level_of(b.len()),
{
    a.to_multiset_ensures();
    b.to_multiset_ensures();
}

/// Adding indicators never lowers the threat level.
pub proof fn lemma_threat_level_ratchets(n: nat, m: nat)
    requires
        n <= m,
    ensures
        level_rank(level_of(n)) <= level_rank(level_of(m)),
{
}

/// The order of the levels, lowest first.
pub open spec fn level_rank(l: ThreatLevel) -> int {
    match l {
        ThreatLevel::Low => 0,
        ThreatLevel::Medium => 1,
        ThreatLevel::High => 2,
        ThreatLevel::Critical => 3,
    }
}

} // verus!
