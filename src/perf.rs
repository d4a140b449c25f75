//! Frame-rate and packet-rate bookkeeping for the status bar.
use vstd::prelude::*;
use std::collections::VecDeque;

use crate::clock::millis_since;

verus! {

/// Frames averaged for the frame rate.
pub const FRAME_WINDOW: usize = 60;

/// Frames needed before a frame rate is reported.
pub const MIN_FRAMES: usize = 10;

/// The sum of the frame times.
pub open spec fn total_of(times: Seq<u64>) -> int
    decreases times.len(),
{
    if times.len() == 0 {
        0
    } else {
        total_of(times.drop_last()) + times.last()
    }
}

/// Frames per second for an average frame time in microseconds (at least
/// one microsecond).
pub open spec fn fps_for(times: Seq<u64>) -> int {
    let avg = total_of(times) / times.len() as int;
    (1_000_000 as int) / (if avg > 1 {
        avg
    } else {
        1
    })
}

proof fn lemma_total_bound(times: Seq<u64>)
    ensures
        0 <= total_of(times) <= times.len() * u64::MAX,
    decreases times.len(),
{
    if times.len() > 0 {
        lemma_total_bound(times.drop_last());
    }
}

/// Frame times, frame rate and packet rate.
pub struct PerformanceMonitor {
    frame_times: VecDeque<u64>,
    fps: u64,
    packet_count: u64,
    packet_rate: u64,
    last_packet_reset: u64,
    memory_usage: usize,
    clock: std::time::Instant,
}

impl PerformanceMonitor {
    /// The recent frame times in microseconds, oldest first.
    pub closed spec fn frames(&self) -> Seq<u64> {
        self.frame_times@
    }

    pub closed spec fn fps_view(&self) -> u64 {
        self.fps
    }

    pub closed spec fn count_view(&self) -> u64 {
        self.packet_count
    }

    pub closed spec fn rate_view(&self) -> u64 {
        self.packet_rate
    }

    pub closed spec fn reset_view(&self) -> u64 {
        self.last_packet_reset
    }

    pub closed spec fn memory_view(&self) -> usize {
        self.memory_usage
    }

    /// A monitor with nothing recorded; its clock starts now.
    pub fn new() -> (r: PerformanceMonitor)
        ensures
            r.frames().len() == 0,
            r.fps_view() == 0,
            r.count_view() == 0,
            r.rate_view() == 0,
            r.reset_view() == 0,
            r.memory_view() == 0,
    {
        PerformanceMonitor {
            frame_times: VecDeque::with_capacity(FRAME_WINDOW),
            fps: 0,
            packet_count: 0,
            packet_rate: 0,
            last_packet_reset: 0,
            memory_usage: 0,
            clock: std::time::Instant::now(),
        }
    }

    /// Records a frame time in microseconds. Only the last 60 are kept;
    /// from 10 on, the frame rate is one second over their average.
    pub fn record_frame(&mut self, frame_micros: u64)
        ensures
            ({
                let all = old(self).frames().push(frame_micros);
                let kept = if all.len() > FRAME_WINDOW {
                    all.subrange(all.len() - FRAME_WINDOW, all.len() as int)
                } else {
                    all
                };
                &&& final(self).frames() == kept
                &&& final(self).fps_view() == (if kept.len() >= MIN_FRAMES {
                    fps_for(kept) as u64
                } else {
                    old(self).fps_view()
                })
            }),
            final(self).frames().len() <= FRAME_WINDOW,
            final(self).count_view() == old(self).count_view(),
            final(self).rate_view() == old(self).rate_view(),
            final(self).reset_view() == old(self).reset_view(),
            final(self).memory_view() == old(self).memory_view(),
    {
        let ghost all = self.frame_times@.push(frame_micros);
        self.frame_times.push_back(frame_micros);
        let ghost mut dropped: int = 0;
        while self.frame_times.len() > FRAME_WINDOW
            invariant
                0 <= dropped <= all.len(),
                self.frame_times@ == all.subrange(dropped, all.len() as int),
                dropped > 0 ==> self.frame_times@.len() >= FRAME_WINDOW,
                self.packet_count == old(self).packet_count,
                self.packet_rate == old(self).packet_rate,
                self.last_packet_reset == old(self).last_packet_reset,
                self.memory_usage == old(self).memory_usage,
                self.fps == old(self).fps,
            decreases self.frame_times@.len(),
        {
            self.frame_times.pop_front();
            proof {
                dropped = dropped + 1;
            }
            assert(self.frame_times@ =~= all.subrange(dropped, all.len() as int));
        }
        proof {
            if all.len() > FRAME_WINDOW {
                assert(dropped == all.len() - FRAME_WINDOW);
            } else {
                assert(dropped == 0);
                assert(self.frame_times@ =~= all);
            }
        }
        let n = self.frame_times.len();
        if n >= MIN_FRAMES {
            let mut total: u128 = 0;
            let mut i: usize = 0;
            while i < n
                invariant
                    i <= n,
                    n == self.frame_times@.len(),
                    n <= FRAME_WINDOW,
                    total == total_of(self.frame_times@.subrange(0, i as int)),
                decreases n - i,
            {
                proof {
                    assert(self.frame_times@.subrange(0, i + 1).drop_last()
                        =~= self.frame_times@.subrange(0, i as int));
                    lemma_total_bound(self.frame_times@.subrange(0, i as int));
                }
                total = total + self.frame_times[i] as u128;
                i += 1;
            }
            assert(self.frame_times@.subrange(0, n as int) =~= self.frame_times@);
            proof {
                lemma_total_bound(self.frame_times@);
            }
            let avg = total / n as u128;
            let floor: u128 = if avg > 1 {
                avg
            } else {
                1
            };
            self.fps = (1_000_000 / floor) as u64;
        }
    }

    /// Counts a packet against the clock.
    pub fn increment_packet(&mut self)
        ensures
            final(self).count_view() == 0 || final(self).count_view() == (if old(self).count_view()
                < u64::MAX {
                (old(self).count_view() + 1) as u64
            } else {
                u64::MAX
            }),
            final(self).frames() == old(self).frames(),
            final(self).fps_view() == old(self).fps_view(),
            final(self).memory_view() == old(self).memory_view(),
    {
        let now = millis_since(&self.clock);
        self.increment_packet_at(now);
    }

    /// Counts a packet at `now` (milliseconds). Once a second has passed
    /// since the last reset, the count becomes the packet rate and starts
    /// again from zero.
    pub fn increment_packet_at(&mut self, now: u64)
        ensures
            ({
                let count = if old(self).count_view() < u64::MAX {
                    (old(self).count_view() + 1) as u64
                } else {
                    u64::MAX
                };
                if now >= old(self).reset_view() && now - old(self).reset_view() >= 1000 {
                    &&& final(self).rate_view() == count
                    &&& final(self).count_view() == 0
                    &&& final(self).reset_view() == now
                } else {
                    &&& final(self).rate_view() == old(self).rate_view()
                    &&& final(self).count_view() == count
                    &&& final(self).reset_view() == old(self).reset_view()
                }
            }),
            final(self).frames() == old(self).frames(),
            final(self).fps_view() == old(self).fps_view(),
            final(self).memory_view() == old(self).memory_view(),
    {
        self.packet_count = self.packet_count.saturating_add(1);
        if now >= self.last_packet_reset && now - self.last_packet_reset >= 1000 {
            self.packet_rate = self.packet_count;
            self.packet_count = 0;
            self.last_packet_reset = now;
        }
    }

    /// Records the memory estimate, a fixed 1024 KB.
    pub fn update_memory_usage(&mut self)
        ensures
            final(self).memory_view() == 1024,
            final(self).frames() == old(self).frames(),
            final(self).fps_view() == old(self).fps_view(),
            final(self).count_view() == old(self).count_view(),
            final(self).rate_view() == old(self).rate_view(),
            final(self).reset_view() == old(self).reset_view(),
    {
        self.memory_usage = 1024;
    }

    /// The last computed frame rate.
    pub fn get_fps(&self) -> (r: u64)
        ensures
            r == self.fps_view(),
    {
        self.fps
    }

    /// Packets counted in the last whole second.
    pub fn get_packet_rate(&self) -> (r: u64)
        ensures
            r == self.rate_view(),
    {
        self.packet_rate
    }

    /// The memory estimate in KB.
    pub fn get_memory_kb(&self) -> (r: usize)
        ensures
            r == self.memory_view(),
    {
        self.memory_usage
    }
}

} // verus!
