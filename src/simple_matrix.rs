//! A lighter rain effect: columns of random characters that scroll one row
//! per step at their own pace, plus a short list of the busiest addresses.
use vstd::prelude::*;
use vstd::string::*;

use crate::random::{random_chance, random_in};

verus! {

/// Most addresses kept in the activity list.
pub const MAX_ACTIVE_IPS: usize = 5;

/// One scrolling column: rows `tail..=head` are lit.
pub struct Column {
    pub x: u16,
    pub head: i16,
    pub tail: i16,
    pub speed: u8,
    pub chars: Vec<char>,
}

/// A random digit, capital or small letter, in the ratio 4 : 3 : 3.
fn random_glyph() -> (r: char)
    ensures
        ('0' <= r <= '9') || ('A' <= r <= 'Z') || ('a' <= r <= 'z'),
{
    let bucket = random_in(0, 10);
    if bucket <= 3 {
        let d = random_in(0, 10) as u8;
        (48u8 + d) as char
    } else if bucket <= 6 {
        let d = random_in(0, 26) as u8;
        (65u8 + d) as char
    } else {
        let d = random_in(0, 26) as u8;
        (97u8 + d) as char
    }
}

impl Column {
    /// Steps run at least every third tick and the glyph ring is not empty.
    pub open spec fn wf(&self) -> bool {
        1 <= self.speed <= 3 && self.chars@.len() > 0
    }

    /// A column at `x` with a random pace (every 1 to 3 ticks), a random
    /// length of 5 to 19 rows that starts above the top, and `height + 20`
    /// random glyphs.
    pub fn new(x: u16, height: u16) -> (r: Column)
        ensures
            r.wf(),
            r.x == x,
            r.chars@.len() == height + 20,
            -19 <= r.head <= 0,
            -19 <= r.tail <= -5,
    {
        let speed = random_in(1, 4) as u8;
        let length = random_in(5, 20) as i16;
        let n: usize = height as usize + 20;
        let mut chars: Vec<char> = Vec::new();
        let mut i: usize = 0;
        while i < n
            invariant
                i <= n,
                chars@.len() == i,
            decreases n - i,
        {
            chars.push(random_glyph());
            i += 1;
        }
        let head = -(random_in(0, 20) as i16);
        Column { x, head, tail: -length, speed, chars }
    }

    /// Scrolls the column down one row.
    pub fn update(&mut self)
        ensures
            final(self).head == (if old(self).speed > 0 && old(self).head < i16::MAX {
                old(self).head + 1
            } else {
                old(self).head as int
            }),
            final(self).tail == (if old(self).speed > 0 && old(self).tail < i16::MAX {
                old(self).tail + 1
            } else {
                old(self).tail as int
            }),
            final(self).x == old(self).x,
            final(self).speed == old(self).speed,
            final(self).chars == old(self).chars,
    {
        if self.speed > 0 {
            if self.head < i16::MAX {
                self.head = self.head + 1;
            }
            if self.tail < i16::MAX {
                self.tail = self.tail + 1;
            }
        }
    }

    /// The whole column has scrolled past the bottom.
    pub fn should_reset(&self, height: u16) -> (r: bool)
        ensures
            r == (self.tail > height),
    {
        self.tail as i32 > height as i32
    }
}

/// `entries` is ordered by count, largest first.
pub open spec fn sorted_by_count(entries: Seq<(String, u32)>) -> bool {
    forall|i: int, j: int| 0 <= i < j < entries.len() ==> entries[i].1 >= entries[j].1
}

/// The position at which `count` joins a list ordered by count, largest
/// first, after every entry with at least that count.
fn insertion_point(entries: &Vec<(String, u32)>, count: u32) -> (r: usize)
    requires
        sorted_by_count(entries@),
    ensures
        r <= entries@.len(),
        forall|i: int| 0 <= i < r ==> entries@[i].1 >= count,
        forall|i: int| r <= i < entries@.len() ==> entries@[i].1 < count,
{
    let mut k: usize = 0;
    while k < entries.len() && entries[k].1 >= count
        invariant
            k <= entries@.len(),
            forall|i: int| 0 <= i < k ==> entries@[i].1 >= count,
        decreases entries@.len() - k,
    {
        k += 1;
    }
    k
}

/// Orders entries by count, largest first; entries with equal counts keep
/// their order.
pub fn sort_by_count(entries: Vec<(String, u32)>) -> (r: Vec<(String, u32)>)
    ensures
        sorted_by_count(r@),
        r@.len() == entries@.len(),
        forall|i: int| 0 <= i < r@.len() ==> entries@.contains(#[trigger] r@[i]),
{
    let ghost input = entries@;
    let mut rest = entries;
    let mut out: Vec<(String, u32)> = Vec::new();
    let mut done: usize = 0;
    let n0 = rest.len();
    assert(input.len() == n0);
    while rest.len() > 0
        invariant
            done <= input.len(),
            input.len() <= usize::MAX,
            rest@ == input.subrange(done as int, input.len() as int),
            out@.len() == done,
            sorted_by_count(out@),
            forall|i: int| 0 <= i < out@.len() ==> input.contains(#[trigger] out@[i]),
        decreases rest@.len(),
    {
        let e = rest.remove(0);
        assert(e == input[done as int]);
        let k = insertion_point(&out, e.1);
        let ghost before = out@;
        out.insert(k, e);
        proof {
            assert(out@ =~= before.insert(k as int, e));
            assert forall|i: int, j: int| 0 <= i < j < out@.len() implies out@[i].1 >= out@[j].1 by {
                if j < k {
                    assert(out@[i] == before[i] && out@[j] == before[j]);
                } else if j == k {
                    assert(out@[i] == before[i]);
                } else if i < k {
                    assert(out@[i] == before[i] && out@[j] == before[j - 1]);
                } else if i == k {
                    assert(out@[j] == before[j - 1]);
                } else {
                    assert(out@[i] == before[i - 1] && out@[j] == before[j - 1]);
                }
            }
            assert forall|i: int| 0 <= i < out@.len() implies input.contains(#[trigger] out@[i]) by {
                if i < k {
                    assert(out@[i] == before[i]);
                } else if i == k {
                    assert(input[done as int] == e);
                } else {
                    assert(out@[i] == before[i - 1]);
                }
            }
        }
        done += 1;
        assert(rest@ =~= input.subrange(done as int, input.len() as int));
    }
    out
}

/// The address list as text and counts.
pub open spec fn entries_view(list: Seq<(String, u32)>) -> Seq<(Seq<char>, u32)> {
    list.map_values(|e: (String, u32)| (e.0@, e.1))
}

/// The first place at or after `i` where `ip` is listed.
pub open spec fn listed_from(list: Seq<(Seq<char>, u32)>, ip: Seq<char>, i: int) -> Option<int>
    decreases list.len() - i,
{
    if i < 0 || i >= list.len() {
        None
    } else if list[i].0 == ip {
        Some(i)
    } else {
        listed_from(list, ip, i + 1)
    }
}

/// The address list after one packet for `ip`.
pub open spec fn noted(list: Seq<(Seq<char>, u32)>, ip: Seq<char>) -> Seq<(Seq<char>, u32)> {
    match listed_from(list, ip, 0) {
        Some(i) => list.update(
            i,
            (
                ip,
                if list[i].1 < u32::MAX {
                    (list[i].1 + 1) as u32
                } else {
                    list[i].1
                },
            ),
        ),
        None => if list.len() < MAX_ACTIVE_IPS {
            list.push((ip, 1u32))
        } else {
            seq![(ip, 1u32)] + list.drop_last()
        },
    }
}

/// The positions of a sequence of columns.
pub open spec fn column_positions(cols: Seq<Column>) -> Seq<u16> {
    cols.map_values(|c: Column| c.x)
}

/// The simple rain: scrolling columns keyed by position and the busiest
/// addresses with their packet counts.
pub struct SimpleMatrixRain {
    columns: Vec<Column>,
    width: u16,
    height: u16,
    tick: u64,
    active_ips: Vec<(String, u32)>,
}

impl SimpleMatrixRain {
    pub closed spec fn columns_view(&self) -> Seq<Column> {
        self.columns@
    }

    pub closed spec fn width_view(&self) -> u16 {
        self.width
    }

    pub closed spec fn height_view(&self) -> u16 {
        self.height
    }

    pub closed spec fn tick_view(&self) -> u64 {
        self.tick
    }

    /// The address list, busiest first.
    pub closed spec fn active_view(&self) -> Seq<(String, u32)> {
        self.active_ips@
    }

    /// The occupied positions.
    pub open spec fn xs(&self) -> Seq<u16> {
        column_positions(self.columns_view())
    }

    /// Columns lie within the width, one per position, each well formed;
    /// at most five addresses are listed.
    pub open spec fn wf(&self) -> bool {
        &&& forall|i: int| 0 <= i < self.xs().len() ==> self.xs()[i] < self.width_view()
        &&& self.xs().no_duplicates()
        &&& forall|i: int| 0 <= i < self.columns_view().len() ==> (#[trigger] self.columns_view()[i]).wf()
        &&& self.active_view().len() <= MAX_ACTIVE_IPS
    }

    /// Whether a column stands at `x`.
    pub fn has_column(&self, x: u16) -> (r: bool)
        ensures
            r == self.xs().contains(x),
    {
        let mut i: usize = 0;
        while i < self.columns.len()
            invariant
                i <= self.columns@.len(),
                forall|j: int| 0 <= j < i ==> self.columns@[j].x != x,
            decreases self.columns@.len() - i,
        {
            if self.columns[i].x == x {
                assert(self.xs()[i as int] == x);
                return true;
            }
            i += 1;
        }
        assert(!self.xs().contains(x)) by {
            if self.xs().contains(x) {
                let j = choose|j: int| 0 <= j < self.xs().len() && self.xs()[j] == x;
                assert(self.columns@[j].x == x);
            }
        }
        false
    }

    fn insert_column(&mut self, x: u16)
        requires
            old(self).wf(),
            x < old(self).width_view(),
            !old(self).xs().contains(x),
        ensures
            final(self).wf(),
            final(self).xs() == old(self).xs().push(x),
            final(self).columns_view().drop_last() == old(self).columns_view(),
            final(self).width_view() == old(self).width_view(),
            final(self).height_view() == old(self).height_view(),
            final(self).tick_view() == old(self).tick_view(),
            final(self).active_view() == old(self).active_view(),
    {
        let c = Column::new(x, self.height);
        let ghost before = self.columns@;
        self.columns.push(c);
        assert(self.columns@.drop_last() =~= before);
        assert(self.xs() =~= column_positions(before).push(x));
    }

    /// A `width` by `height` rain seeded with up to `width / 3` columns at
    /// random positions.
    pub fn new(width: u16, height: u16) -> (r: SimpleMatrixRain)
        ensures
            r.wf(),
            r.width_view() == width,
            r.height_view() == height,
            r.tick_view() == 0,
            r.xs().len() <= width / 3,
            r.active_view().len() == 0,
    {
        let mut r = SimpleMatrixRain {
            columns: Vec::new(),
            width,
            height,
            tick: 0,
            active_ips: Vec::new(),
        };
        assert(r.xs() =~= Seq::<u16>::empty());
        let n = width / 3;
        let mut k: u16 = 0;
        while k < n
            invariant
                k <= n,
                n == width / 3,
                r.wf(),
                r.width_view() == width,
                r.height_view() == height,
                r.tick_view() == 0,
                r.active_view().len() == 0,
                r.xs().len() <= k,
            decreases n - k,
        {
            let x = random_in(0, width as u64) as u16;
            if !r.has_column(x) {
                r.insert_column(x);
            }
            k += 1;
        }
        r
    }

    /// Adds a column at `x` unless `x` is outside the width or taken.
    pub fn add_column(&mut self, x: u16)
        requires
            old(self).wf(),
        ensures
            final(self).wf(),
            final(self).xs() == (if x < old(self).width_view() && !old(self).xs().contains(x) {
                old(self).xs().push(x)
            } else {
                old(self).xs()
            }),
            x < old(self).width_view() && !old(self).xs().contains(x)
                ==> final(self).columns_view().drop_last() == old(self).columns_view(),
            !(x < old(self).width_view() && !old(self).xs().contains(x))
                ==> final(self).columns_view() == old(self).columns_view(),
            final(self).width_view() == old(self).width_view(),
            final(self).height_view() == old(self).height_view(),
            final(self).tick_view() == old(self).tick_view(),
            final(self).active_view() == old(self).active_view(),
    {
        if x < self.width && !self.has_column(x) {
            self.insert_column(x);
        }
    }

    /// One animation step: columns whose pace divides the tick scroll, and
    /// those that scrolled out are removed; now and then (one step in ten) a
    /// column is added at a random free position while fewer than two
    /// thirds of the positions are taken.
    pub fn update(&mut self)
        requires
            old(self).wf(),
        ensures
            final(self).wf(),
            final(self).tick_view() == (if old(self).tick_view() < u64::MAX {
                old(self).tick_view() + 1
            } else {
                old(self).tick_view() as int
            }),
            final(self).width_view() == old(self).width_view(),
            final(self).height_view() == old(self).height_view(),
            final(self).active_view() == old(self).active_view(),
            final(self).xs().len() <= old(self).xs().len() + 1,
    {
        if self.tick < u64::MAX {
            self.tick = self.tick + 1;
        }
        let tick = self.tick;
        let height = self.height;
        let width = self.width;
        let mut rest: Vec<Column> = Vec::new();
        std::mem::swap(&mut rest, &mut self.columns);
        let ghost before = rest@;
        let n0 = rest.len();
        let mut kept: Vec<Column> = Vec::new();
        let mut i: usize = 0;
        while rest.len() > 0
            invariant
                i <= before.len(),
                before.len() == n0,
                rest@ == before.subrange(i as int, before.len() as int),
                column_positions(before).no_duplicates(),
                forall|j: int| 0 <= j < before.len() ==> column_positions(before)[j] < width,
                forall|j: int| 0 <= j < before.len() ==> (#[trigger] before[j]).wf(),
                kept@.len() <= i,
                column_positions(kept@).no_duplicates(),
                forall|k: int|
                    0 <= k < kept@.len() ==> (#[trigger] kept@[k]).x < width && kept@[k].wf()
                        && kept@[k].tail <= height && exists|j: int|
                        0 <= j < i && before[j].x == kept@[k].x,
            decreases rest@.len(),
        {
            let ghost kept_before = kept@;
            let mut c = rest.remove(0);
            assert(c == before[i as int]);
            assert(column_positions(before)[i as int] == c.x);
            if tick % (c.speed as u64) == 0 {
                c.update();
            }
            if !c.should_reset(height) {
                let cx = c.x;
                proof {
                    assert forall|k: int| 0 <= k < kept_before.len() implies kept_before[k].x
                        != cx by {
                        let j = choose|j: int| 0 <= j < i && before[j].x == kept_before[k].x;
                        assert(column_positions(before)[j] == kept_before[k].x);
                    }
                }
                kept.push(c);
                proof {
                    assert(column_positions(kept@) =~= column_positions(kept_before).push(cx));
                    assert forall|a: int, b: int|
                        0 <= a < column_positions(kept@).len() && 0 <= b < column_positions(
                            kept@,
                        ).len() && a != b implies column_positions(kept@)[a] != column_positions(
                        kept@,
                    )[b] by {
                        if a < kept_before.len() && b < kept_before.len() {
                            assert(column_positions(kept_before)[a] == column_positions(kept@)[a]);
                            assert(column_positions(kept_before)[b] == column_positions(kept@)[b]);
                        } else if a < kept_before.len() {
                            assert(column_positions(kept@)[a] == kept_before[a].x);
                        } else {
                            assert(column_positions(kept@)[b] == kept_before[b].x);
                        }
                    }
                    assert forall|k: int| 0 <= k < kept@.len() implies (#[trigger] kept@[k]).x
                        < width && kept@[k].wf() && kept@[k].tail <= height && exists|j: int|
                        0 <= j < i + 1 && before[j].x == kept@[k].x by {
                        if k < kept_before.len() {
                            assert(kept@[k] == kept_before[k]);
                        } else {
                            assert(before[i as int].x == kept@[k].x);
                        }
                    }
                }
            }
            i += 1;
            assert(rest@ =~= before.subrange(i as int, before.len() as int));
        }
        self.columns = kept;
        assert forall|j: int| 0 <= j < self.xs().len() implies self.xs()[j] < self.width by {
            assert(self.columns@[j].x < width);
        }
        assert forall|j: int| 0 <= j < self.columns_view().len() implies (
        #[trigger] self.columns_view()[j]).wf() by {
            assert(kept@[j].wf());
        }
        if random_chance(1, 10) && (self.columns.len() as u64) < (self.width as u64) * 2 / 3 {
            let x = random_in(0, self.width as u64) as u16;
            if !self.has_column(x) {
                self.insert_column(x);
            }
        }
    }

    /// Counts a packet for its source and destination addresses, keeps the
    /// five busiest (busiest first), and may light a random free column
    /// while fewer than half the positions are taken.
    pub fn track_ip_packet(&mut self, src_ip: &str, dst_ip: &str, protocol: &str)
        requires
            old(self).wf(),
        ensures
            final(self).wf(),
            sorted_by_count(final(self).active_view()),
            ({
                let counted = noted(noted(entries_view(old(self).active_view()), src_ip@), dst_ip@);
                &&& final(self).active_view().len() == (if counted.len() > MAX_ACTIVE_IPS {
                    MAX_ACTIVE_IPS as int
                } else {
                    counted.len() as int
                })
                &&& forall|i: int|
                    0 <= i < final(self).active_view().len() ==> counted.contains(
                        (#[trigger] entries_view(final(self).active_view())[i]),
                    )
            }),
            final(self).width_view() == old(self).width_view(),
            final(self).height_view() == old(self).height_view(),
            final(self).tick_view() == old(self).tick_view(),
            final(self).xs().subrange(0, old(self).xs().len() as int) == old(self).xs(),
            final(self).xs().len() <= old(self).xs().len() + 1,
    {
        self.note_ip(src_ip);
        self.note_ip(dst_ip);
        let mut entries: Vec<(String, u32)> = Vec::new();
        std::mem::swap(&mut entries, &mut self.active_ips);
        let ghost counted = entries_view(entries@);
        let mut sorted = sort_by_count(entries);
        sorted.truncate(MAX_ACTIVE_IPS);
        proof {
            assert forall|i: int| 0 <= i < sorted@.len() implies counted.contains(
                (#[trigger] entries_view(sorted@)[i]),
            ) by {
                let e = sorted@[i];
                assert(entries@.contains(e));
                let j = choose|j: int| 0 <= j < entries@.len() && entries@[j] == e;
                assert(counted[j] == entries_view(sorted@)[i]);
            }
        }
        self.active_ips = sorted;
        let ghost mid = *self;
        if self.width > 0 {
            let x = random_in(0, self.width as u64) as u16;
            if !self.has_column(x) && (self.columns.len() as u64) < (self.width as u64) / 2 {
                self.add_column(x);
            }
        }
        assert(self.xs().subrange(0, mid.xs().len() as int) =~= mid.xs());
    }

    /// Counts one packet for `ip`: a listed address gains one; a new one
    /// joins with a count of one, at the back while fewer than five are
    /// listed, otherwise at the front in place of the last.
    fn note_ip(&mut self, ip: &str)
        requires
            old(self).wf(),
        ensures
            final(self).wf(),
            entries_view(final(self).active_view()) == noted(
                entries_view(old(self).active_view()),
                ip@,
            ),
            final(self).columns_view() == old(self).columns_view(),
            final(self).width_view() == old(self).width_view(),
            final(self).height_view() == old(self).height_view(),
            final(self).tick_view() == old(self).tick_view(),
    {
        let name = String::from_str(ip);
        let mut i: usize = 0;
        while i < self.active_ips.len()
            invariant
                i <= self.active_ips@.len(),
                self.active_ips@ == old(self).active_ips@,
                self.columns@ == old(self).columns@,
                self.width == old(self).width,
                self.height == old(self).height,
                self.tick == old(self).tick,
                self.wf(),
                name@ == ip@,
                listed_from(entries_view(self.active_ips@), ip@, 0) == listed_from(
                    entries_view(self.active_ips@),
                    ip@,
                    i as int,
                ),
            decreases self.active_ips@.len() - i,
        {
            let ghost before = entries_view(self.active_ips@);
            if self.active_ips[i].0 == name {
                let count = self.active_ips[i].1;
                if count < u32::MAX {
                    self.active_ips[i].1 = count + 1;
                }
                assert(entries_view(self.active_ips@) =~= noted(before, ip@));
                return;
            }
            i += 1;
        }
        let ghost before = entries_view(self.active_ips@);
        if self.active_ips.len() < MAX_ACTIVE_IPS {
            self.active_ips.push((name, 1));
            assert(entries_view(self.active_ips@) =~= noted(before, ip@));
        } else {
            self.active_ips.pop();
            self.active_ips.insert(0, (name, 1));
            assert(entries_view(self.active_ips@) =~= noted(before, ip@));
        }
    }

    /// The listed addresses and their counts, busiest first.
    pub fn get_active_ips(&self) -> (r: Vec<(String, u32)>)
        ensures
            r@.len() == self.active_view().len(),
            forall|i: int|
                0 <= i < r@.len() ==> (#[trigger] r@[i]).0@ == self.active_view()[i].0@ && r@[i].1
                    == self.active_view()[i].1,
    {
        let mut out: Vec<(String, u32)> = Vec::new();
        let mut i: usize = 0;
        while i < self.active_ips.len()
            invariant
                i <= self.active_ips@.len(),
                out@.len() == i,
                forall|k: int|
                    0 <= k < i ==> (#[trigger] out@[k]).0@ == self.active_ips@[k].0@ && out@[k].1
                        == self.active_ips@[k].1,
            decreases self.active_ips@.len() - i,
        {
            let name = self.active_ips[i].0.clone();
            out.push((name, self.active_ips[i].1));
            i += 1;
        }
        out
    }

    /// The columns, for drawing.
    pub fn columns(&self) -> (r: &Vec<Column>)
        ensures
            r@ == self.columns_view(),
    {
        &self.columns
    }
}

} // verus!
