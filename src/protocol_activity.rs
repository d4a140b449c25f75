//! Per-tick protocol counters kept in a fixed-size history, for sparklines.
use vstd::prelude::*;
use std::collections::VecDeque;

use crate::Protocol;

verus! {

/// Number of past ticks kept.
pub const HISTORY_SIZE: usize = 60;

/// Number of values a sparkline shows.
pub const SPARKLINE_LEN: usize = 20;

/// Packet counts of one tick, per protocol and in total.
#[derive(Debug, Clone, Copy, PartialEq, Eq, Structural)]
pub struct ProtocolSnapshot {
    pub tcp: u64,
    pub udp: u64,
    pub http: u64,
    pub https: u64,
    pub dns: u64,
    pub ssh: u64,
    pub unknown: u64,
    pub total: u64,
}

/// The counter of `p` in `s`.
pub open spec fn count_of(s: ProtocolSnapshot, p: Protocol) -> u64 {
    match p {
        Protocol::TCP => s.tcp,
        Protocol::UDP => s.udp,
        Protocol::HTTP => s.http,
        Protocol::HTTPS => s.https,
        Protocol::DNS => s.dns,
        Protocol::SSH => s.ssh,
        Protocol::Unknown => s.unknown,
    }
}

/// `n + 1`, held at the largest `u64`.
pub open spec fn inc(n: u64) -> u64 {
    if n < u64::MAX {
        (n + 1) as u64
    } else {
        n
    }
}

/// `s` with one more packet of `p`.
pub open spec fn snapshot_with(s: ProtocolSnapshot, p: Protocol) -> ProtocolSnapshot {
    let t = inc(s.total);
    match p {
        Protocol::TCP => ProtocolSnapshot { tcp: inc(s.tcp), total: t, ..s },
        Protocol::UDP => ProtocolSnapshot { udp: inc(s.udp), total: t, ..s },
        Protocol::HTTP => ProtocolSnapshot { http: inc(s.http), total: t, ..s },
        Protocol::HTTPS => ProtocolSnapshot { https: inc(s.https), total: t, ..s },
        Protocol::DNS => ProtocolSnapshot { dns: inc(s.dns), total: t, ..s },
        Protocol::SSH => ProtocolSnapshot { ssh: inc(s.ssh), total: t, ..s },
        Protocol::Unknown => ProtocolSnapshot { unknown: inc(s.unknown), total: t, ..s },
    }
}

pub open spec fn empty_snapshot() -> ProtocolSnapshot {
    ProtocolSnapshot { tcp: 0, udp: 0, http: 0, https: 0, dns: 0, ssh: 0, unknown: 0, total: 0 }
}

/// The last `SPARKLINE_LEN` counts of `p`: the history, oldest first, then
/// the current tick.
pub open spec fn sparkline(
    history: Seq<ProtocolSnapshot>,
    current: ProtocolSnapshot,
    p: Protocol,
) -> Seq<u64> {
    let all = history.map_values(|s: ProtocolSnapshot| count_of(s, p)).push(count_of(current, p));
    if all.len() > SPARKLINE_LEN {
        all.subrange(all.len() - SPARKLINE_LEN, all.len() as int)
    } else {
        all
    }
}

/// The largest total of the history and the current tick, at least 1.
pub open spec fn max_total(history: Seq<ProtocolSnapshot>, current: ProtocolSnapshot) -> u64
    decreases history.len(),
{
    if history.len() == 0 {
        if current.total > 1 {
            current.total
        } else {
            1
        }
    } else {
        let rest = max_total(history.drop_last(), current);
        if history.last().total > rest {
            history.last().total
        } else {
            rest
        }
    }
}

impl ProtocolSnapshot {
    /// A snapshot with every counter at zero.
    pub fn new() -> (r: ProtocolSnapshot)
        ensures
            r == empty_snapshot(),
    {
        ProtocolSnapshot { tcp: 0, udp: 0, http: 0, https: 0, dns: 0, ssh: 0, unknown: 0, total: 0 }
    }
}

/// A ring of the last `HISTORY_SIZE` ticks plus the tick being counted.
pub struct ProtocolActivityTracker {
    history: VecDeque<ProtocolSnapshot>,
    current: ProtocolSnapshot,
}

impl ProtocolActivityTracker {
    /// Past ticks, oldest first.
    pub closed spec fn history_view(&self) -> Seq<ProtocolSnapshot> {
        self.history@
    }

    /// The tick being counted.
    pub closed spec fn current_view(&self) -> ProtocolSnapshot {
        self.current
    }

    /// The history always holds exactly `HISTORY_SIZE` ticks.
    pub open spec fn wf(&self) -> bool {
        self.history_view().len() == HISTORY_SIZE
    }

    /// A tracker whose history is `HISTORY_SIZE` empty ticks.
    pub fn new() -> (r: ProtocolActivityTracker)
        ensures
            r.wf(),
            forall|i: int| 0 <= i < HISTORY_SIZE ==> r.history_view()[i] == empty_snapshot(),
            r.current_view() == empty_snapshot(),
    {
        let mut history: VecDeque<ProtocolSnapshot> = VecDeque::with_capacity(HISTORY_SIZE);
        let mut i: usize = 0;
        while i < HISTORY_SIZE
            invariant
                i <= HISTORY_SIZE,
                history@.len() == i,
                forall|j: int| 0 <= j < i ==> history@[j] == empty_snapshot(),
            decreases HISTORY_SIZE - i,
        {
            history.push_back(ProtocolSnapshot::new());
            i += 1;
        }
        ProtocolActivityTracker { history, current: ProtocolSnapshot::new() }
    }

    /// Counts one packet of `protocol` in the current tick.
    pub fn record_packet(&mut self, protocol: Protocol)
        ensures
            final(self).current_view() == snapshot_with(old(self).current_view(), protocol),
            final(self).history_view() == old(self).history_view(),
    {
        match protocol {
            Protocol::TCP => self.current.tcp = self.current.tcp.saturating_add(1),
            Protocol::UDP => self.current.udp = self.current.udp.saturating_add(1),
            Protocol::HTTP => self.current.http = self.current.http.saturating_add(1),
            Protocol::HTTPS => self.current.https = self.current.https.saturating_add(1),
            Protocol::DNS => self.current.dns = self.current.dns.saturating_add(1),
            Protocol::SSH => self.current.ssh = self.current.ssh.saturating_add(1),
            Protocol::Unknown => self.current.unknown = self.current.unknown.saturating_add(1),
        }
        self.current.total = self.current.total.saturating_add(1);
    }

    /// Ends the current tick: it joins the history, the oldest tick leaves,
    /// and counting starts again from zero.
    pub fn tick(&mut self)
        requires
            old(self).wf(),
        ensures
            final(self).wf(),
            final(self).history_view() == old(self).history_view().push(
                old(self).current_view(),
            ).skip(1),
            final(self).current_view() == empty_snapshot(),
    {
        let ghost before = self.history@;
        self.history.push_back(self.current);
        if self.history.len() > HISTORY_SIZE {
            self.history.pop_front();
        }
        assert(self.history@ =~= before.push(self.current).skip(1));
        self.current = ProtocolSnapshot::new();
    }

    /// The past ticks, oldest first.
    pub fn get_history(&self) -> (r: &VecDeque<ProtocolSnapshot>)
        ensures
            r@ == self.history_view(),
    {
        &self.history
    }

    /// The last `SPARKLINE_LEN` counts of `protocol`, oldest first, ending
    /// with the tick being counted.
    pub fn get_sparkline_data(&self, protocol: Protocol) -> (r: Vec<u64>)
        ensures
            r@ == sparkline(self.history_view(), self.current_view(), protocol),
    {
        let ghost all = self.history@.map_values(|s: ProtocolSnapshot| count_of(s, protocol)).push(
            count_of(self.current, protocol),
        );
        let n = self.history.len();
        let start: usize = if n >= SPARKLINE_LEN {
            n - (SPARKLINE_LEN - 1)
        } else {
            0
        };
        let mut data: Vec<u64> = Vec::new();
        let mut i: usize = start;
        while i < n
            invariant
                start <= i <= n,
                n == self.history@.len(),
                all == self.history@.map_values(|s: ProtocolSnapshot| count_of(s, protocol)).push(
                    count_of(self.current, protocol),
                ),
                data@ == all.subrange(start as int, i as int),
            decreases n - i,
        {
            data.push(snapshot_count(&self.history[i], protocol));
            assert(data@ =~= all.subrange(start as int, i + 1));
            i += 1;
        }
        data.push(snapshot_count(&self.current, protocol));
        assert(data@ =~= all.subrange(start as int, all.len() as int));
        assert(all.subrange(0, all.len() as int) =~= all);
        data
    }

    /// The largest total over the history and the current tick, at least 1.
    pub fn get_max_value(&self) -> (r: u64)
        ensures
            r == max_total(self.history_view(), self.current_view()),
    {
        let mut best: u64 = if self.current.total > 1 {
            self.current.total
        } else {
            1
        };
        let mut i: usize = 0;
        while i < self.history.len()
            invariant
                i <= self.history@.len(),
                best == max_total(self.history@.subrange(0, i as int), self.current),
            decreases self.history@.len() - i,
        {
            proof {
                assert(self.history@.subrange(0, i + 1).drop_last() =~= self.history@.subrange(
                    0,
                    i as int,
                ));
            }
            if self.history[i].total > best {
                best = self.history[i].total;
            }
            i += 1;
        }
        assert(self.history@.subrange(0, i as int) =~= self.history@);
        best
    }
}

/// The counter of `protocol` in `s`.
pub fn snapshot_count(s: &ProtocolSnapshot, protocol: Protocol) -> (r: u64)
    ensures
        r == count_of(*s, protocol),
{
    match protocol {
        Protocol::TCP => s.tcp,
        Protocol::UDP => s.udp,
        Protocol::HTTP => s.http,
        Protocol::HTTPS => s.https,
        Protocol::DNS => s.dns,
        Protocol::SSH => s.ssh,
        Protocol::Unknown => s.unknown,
    }
}

} // verus!
