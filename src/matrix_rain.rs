//! The traffic-reactive rain animation, in fixed point.
//!
//! Units: time in milliseconds; positions in thousandths of a row; speeds in
//! thousandths of a row per second; intensities, depths and other fractions
//! in thousandths; phases in thousandths of a radian; traffic in packets per
//! second.
use vstd::prelude::*;
use vstd::string::*;

use crate::random::{random_chance, random_in};

verus! {

pub const ASCII_CHARS: &'static str = "ABCDEFGHIJKLMNOPQRSTUVWXYZabcdefghijklmnopqrstuvwxyz0123456789!@#$%^&*()[]{}|\\/<>?+=~`";
pub const KATAKANA_CHARS: &'static str = "ｱｲｳｴｵｶｷｸｹｺｻｼｽｾｿﾀﾁﾂﾃﾄﾅﾆﾇﾈﾉﾊﾋﾌﾍﾎﾏﾐﾑﾒﾓﾔﾕﾖﾗﾘﾙﾚﾛﾜﾝ";
pub const SYMBOLS_CHARS: &'static str = "☆★○●◎◇◆□■△▲▽▼※〒→←↑↓〓∈∋⊆⊇⊂⊃∪∩∧∨¬⇒⇔∀∃∠⊥⌒∂∇≡≒≪≫√∽∝∵∫∬";
pub const BINARY_CHARS: &'static str = "01";
pub const HEX_CHARS: &'static str = "0123456789ABCDEF";

/// The glyph alphabet of a column.
#[derive(Debug, Clone, Copy, PartialEq, Eq, Structural)]
pub enum CharacterSet {
    ASCII,
    Katakana,
    Symbols,
    Binary,
    Hex,
    Mixed,
}

/// The colour scheme of the whole rain.
#[derive(Debug, Clone, Copy, PartialEq, Eq, Structural)]
pub enum VisualMode {
    Normal,
    Rainbow,
    Glitch,
    Pulse,
    Matrix,
}

/// The glyphs of a character set; the mixed set joins the first four.
pub open spec fn charset_chars(set: CharacterSet) -> Seq<char> {
    match set {
        CharacterSet::ASCII => ASCII_CHARS@,
        CharacterSet::Katakana => KATAKANA_CHARS@,
        CharacterSet::Symbols => SYMBOLS_CHARS@,
        CharacterSet::Binary => BINARY_CHARS@,
        CharacterSet::Hex => HEX_CHARS@,
        CharacterSet::Mixed => ASCII_CHARS@ + KATAKANA_CHARS@ + SYMBOLS_CHARS@ + BINARY_CHARS@,
    }
}

/// The glyph `n` of `s`, counting round; '?' when `s` is empty.
pub open spec fn glyph_at(s: Seq<char>, n: int) -> char {
    if s.len() == 0 {
        '?'
    } else {
        s[n % s.len() as int]
    }
}

fn glyph_of(s: &str, n: usize) -> (r: char)
    ensures
        r == glyph_at(s@, n as int),
{
    let len = s.unicode_len();
    if len == 0 {
        '?'
    } else {
        s.get_char(n % len)
    }
}

/// Glyph `n` (counting round) of a character set.
pub fn charset_glyph(set: CharacterSet, n: usize) -> (r: char)
    ensures
        r == glyph_at(charset_chars(set), n as int),
{
    match set {
        CharacterSet::ASCII => glyph_of(ASCII_CHARS, n),
        CharacterSet::Katakana => glyph_of(KATAKANA_CHARS, n),
        CharacterSet::Symbols => glyph_of(SYMBOLS_CHARS, n),
        CharacterSet::Binary => glyph_of(BINARY_CHARS, n),
        CharacterSet::Hex => glyph_of(HEX_CHARS, n),
        CharacterSet::Mixed => {
            let a = ASCII_CHARS.unicode_len();
            let k = KATAKANA_CHARS.unicode_len();
            let s = SYMBOLS_CHARS.unicode_len();
            let b = BINARY_CHARS.unicode_len();
            let ghost all = ASCII_CHARS@ + KATAKANA_CHARS@ + SYMBOLS_CHARS@ + BINARY_CHARS@;
            let total: u128 = a as u128 + k as u128 + s as u128 + b as u128;
            if total == 0 {
                return '?';
            }
            let i: u128 = n as u128 % total;
            proof {
                assert(all.len() == total);
            }
            if i < a as u128 {
                ASCII_CHARS.get_char(i as usize)
            } else if i < a as u128 + k as u128 {
                KATAKANA_CHARS.get_char((i - a as u128) as usize)
            } else if i < a as u128 + k as u128 + s as u128 {
                SYMBOLS_CHARS.get_char((i - a as u128 - k as u128) as usize)
            } else {
                BINARY_CHARS.get_char((i - a as u128 - k as u128 - s as u128) as usize)
            }
        },
    }
}

/// A random glyph of a character set.
pub fn random_matrix_char(char_set: CharacterSet) -> (r: char)
    ensures
        charset_chars(char_set).len() > 0 ==> charset_chars(char_set).contains(r),
        charset_chars(char_set).len() == 0 ==> r == '?',
{
    let n = random_in(0, usize::MAX as u64) as usize;
    let r = charset_glyph(char_set, n);
    proof {
        let s = charset_chars(char_set);
        if s.len() > 0 {
            assert(s[n as int % s.len() as int] == r);
        }
    }
    r
}

/// A colour as red, green and blue levels.
#[derive(Debug, Clone, Copy, PartialEq, Eq, Structural)]
pub struct Rgb(pub u8, pub u8, pub u8);

/// The starting trail intensities, nearest level first.
pub open spec fn trail_profile() -> Seq<u64> {
    seq![900u64, 700, 500, 300, 150]
}

/// One falling glyph with its trail.
#[derive(Debug, Clone)]
pub struct MatrixChar {
    pub value: char,
    pub intensity: u64,
    pub y: u64,
    pub trail_intensity: Vec<u64>,
    pub color_override: Option<Rgb>,
    pub glitch_timer: u64,
}

impl MatrixChar {
    /// A glyph at full intensity at height `y`, with a fresh trail.
    pub fn new(value: char, y: u64) -> (r: MatrixChar)
        ensures
            r.value == value,
            r.y == y,
            r.intensity == 1000,
            r.trail_intensity@ == trail_profile(),
            r.color_override is None,
            r.glitch_timer == 0,
    {
        let trail_intensity = vec![900u64, 700, 500, 300, 150];
        MatrixChar { value, intensity: 1000, y, trail_intensity, color_override: None, glitch_timer: 0 }
    }
}

/// One vertical stream of glyphs, newest first.
#[derive(Debug, Clone)]
pub struct RainColumn {
    pub x: usize,
    pub chars: Vec<MatrixChar>,
    pub fall_speed: u64,
    pub z_depth: u64,
    pub character_set: CharacterSet,
    pub pulse_timer: u64,
    pub particle_timer: u64,
}

impl RainColumn {
    /// A column at `x` with a random depth in [0.3, 1.0) and one glyph at
    /// the top; nearer columns fall faster.
    pub fn new(x: usize, height: usize, character_set: CharacterSet) -> (r: RainColumn)
        ensures
            r.x == x,
            r.character_set == character_set,
            300 <= r.z_depth < 1000,
            r.fall_speed == 500 + 2 * r.z_depth,
            r.chars@.len() == 1,
            r.chars@[0].y == 0,
            r.chars@[0].intensity == 1000,
            r.chars@[0].trail_intensity@ == trail_profile(),
            r.pulse_timer == 0,
            r.particle_timer == 0,
    {
        let z_depth = random_in(300, 1000);
        let chars = vec![MatrixChar::new(random_matrix_char(character_set), 0)];
        RainColumn {
            x,
            chars,
            fall_speed: 500 + z_depth * 2,
            z_depth,
            character_set,
            pulse_timer: 0,
            particle_timer: 0,
        }
    }
}

/// A short-lived spark. Positions are in millionths of a cell, velocities
/// in thousandths of a cell per second, the lifetime in milliseconds.
#[derive(Debug, Clone)]
pub struct Particle {
    pub x: i64,
    pub y: i64,
    pub vx: i64,
    pub vy: i64,
    pub lifetime: i64,
    pub char: char,
    pub color: Rgb,
}

/// Fall speed for a traffic rate: from 0.5 rows per second at no traffic
/// up to 5.0 at 1000 packets per second and above.
pub open spec fn fall_speed_from_traffic(rate: u64) -> int {
    let r = if rate > 1000 {
        1000
    } else {
        rate as int
    };
    500 + r * 4500 / 1000
}

/// Fall speed of a column of depth `z` (at most 1.0) under a traffic rate.
pub open spec fn column_fall_speed(rate: u64, z: u64) -> int {
    let d = if z > 1000 {
        1000
    } else {
        z as int
    };
    fall_speed_from_traffic(rate) * d / 1000
}

/// A column just added: one glyph at the top at full intensity with a fresh
/// trail, a depth in [0.3, 1.0), and the fall speed for the traffic rate.
pub open spec fn fresh_column(c: RainColumn, rate: u64) -> bool {
    &&& c.chars@.len() == 1
    &&& c.chars@[0].y == 0
    &&& c.chars@[0].intensity == 1000
    &&& c.chars@[0].trail_intensity@ == trail_profile()
    &&& 300 <= c.z_depth < 1000
    &&& c.fall_speed == column_fall_speed(rate, c.z_depth)
}

/// The number of columns a traffic rate asks for: none without traffic,
/// otherwise the width scaled by rate / 1000 (capped at 1), at least one.
pub open spec fn target_columns(rate: u64, width: usize) -> int {
    if rate == 0 {
        0
    } else {
        let r = if rate > 1000 {
            1000
        } else {
            rate as int
        };
        let c = r * width / 1000;
        if c < 1 {
            1
        } else {
            c
        }
    }
}

fn calculate_fall_speed_from_traffic(rate: u64) -> (r: u64)
    ensures
        r == fall_speed_from_traffic(rate),
        r <= 5000,
{
    let capped = if rate > 1000 {
        1000
    } else {
        rate
    };
    500 + capped * 4500 / 1000
}

fn speed_for_depth(rate: u64, z: u64) -> (r: u64)
    ensures
        r == column_fall_speed(rate, z),
{
    let base = calculate_fall_speed_from_traffic(rate);
    let d: u64 = if z > 1000 {
        1000
    } else {
        z
    };
    assert(base as int * d as int <= 5000 * 1000) by (nonlinear_arith)
        requires
            base <= 5000,
            d <= 1000,
    ;
    base * d / 1000
}

/// The column count for a traffic rate and a width.
pub fn calculate_column_count_from_traffic(rate: u64, width: usize) -> (r: usize)
    ensures
        r == target_columns(rate, width),
{
    if rate == 0 {
        0
    } else {
        let capped: u128 = if rate > 1000 {
            1000
        } else {
            rate as u128
        };
        assert(capped * width as int <= 1000 * usize::MAX as int) by (nonlinear_arith)
            requires
                capped <= 1000,
                width <= usize::MAX,
        ;
        let c: u128 = capped * width as u128 / 1000;
        assert(c <= width) by (nonlinear_arith)
            requires
                c == capped * width as int / 1000,
                capped <= 1000,
        ;
        if c < 1 {
            1
        } else {
            c as usize
        }
    }
}

/// The positions of a sequence of columns.
pub open spec fn positions(cols: Seq<RainColumn>) -> Seq<usize> {
    cols.map_values(|c: RainColumn| c.x)
}

/// `xs` after adding a column at `x`: only an in-range, free position is
/// taken.
pub open spec fn with_column(xs: Seq<usize>, x: usize, width: usize) -> Seq<usize> {
    if x < width && !xs.contains(x) {
        xs.push(x)
    } else {
        xs
    }
}

/// `xs` without the value `x`, order kept.
pub open spec fn without(xs: Seq<usize>, x: usize) -> Seq<usize>
    decreases xs.len(),
{
    if xs.len() == 0 {
        xs
    } else if xs.last() == x {
        without(xs.drop_last(), x)
    } else {
        without(xs.drop_last(), x).push(xs.last())
    }
}

/// Removing a value keeps exactly the other values, and no value twice.
pub proof fn lemma_without(xs: Seq<usize>, x: usize)
    ensures
        forall|y: usize| without(xs, x).contains(y) <==> (xs.contains(y) && y != x),
        xs.no_duplicates() ==> without(xs, x).no_duplicates(),
        without(xs, x).len() <= xs.len(),
        xs.contains(x) && xs.no_duplicates() ==> without(xs, x).len() == xs.len() - 1,
        !xs.contains(x) ==> without(xs, x) == xs,
    decreases xs.len(),
{
    if xs.len() > 0 {
        let rest = xs.drop_last();
        lemma_without(rest, x);
        assert(xs.last() == x ==> without(xs, x) == without(rest, x));
        assert(xs.last() != x ==> without(xs, x) == without(rest, x).push(xs.last()));
        assert forall|y: usize| without(xs, x).contains(y) <==> (xs.contains(y) && y != x) by {
            if xs.contains(y) && y != x {
                let i = choose|i: int| 0 <= i < xs.len() && xs[i] == y;
                if i < xs.len() - 1 {
                    assert(rest[i] == y);
                    assert(rest.contains(y));
                    assert(without(rest, x).contains(y));
                    let k = choose|k: int| 0 <= k < without(rest, x).len() && without(rest, x)[k] == y;
                    if xs.last() != x {
                        assert(without(xs, x)[k] == y);
                    }
                } else {
                    assert(xs.last() == y);
                    assert(without(xs, x)[without(xs, x).len() - 1] == y);
                }
            }
            if without(xs, x).contains(y) {
                let k = choose|k: int| 0 <= k < without(xs, x).len() && without(xs, x)[k] == y;
                if xs.last() != x && k == without(xs, x).len() - 1 {
                    assert(xs[xs.len() - 1] == y);
                } else {
                    assert(without(rest, x)[k] == y);
                    assert(without(rest, x).contains(y));
                    assert(rest.contains(y) && y != x);
                    let i = choose|i: int| 0 <= i < rest.len() && rest[i] == y;
                    assert(xs[i] == y);
                }
            }
        }
        if xs.no_duplicates() {
            assert(rest.no_duplicates());
            if xs.last() != x {
                assert(!rest.contains(xs.last()));
            }
        }
        if xs.contains(x) && xs.no_duplicates() {
            if xs.last() != x {
                let i = choose|i: int| 0 <= i < xs.len() && xs[i] == x;
                assert(rest[i] == x);
            } else {
                assert(!rest.contains(x));
            }
        }
        if !xs.contains(x) {
            assert(!rest.contains(x)) by {
                if rest.contains(x) {
                    let i = choose|i: int| 0 <= i < rest.len() && rest[i] == x;
                    assert(xs[i] == x);
                }
            }
            assert(xs.last() != x);
            assert(xs == rest.push(xs.last()));
        }
    }
}

/// The column count after density regulation from `count` towards
/// `target`: growth stops at the width, shrinking reaches the target.
pub open spec fn density_count(count: int, target: int, width: int) -> int {
    if target > count {
        if target < width {
            target
        } else {
            width
        }
    } else {
        target
    }
}

/// Density regulation from the columns `before` to `after`: growth keeps
/// every column and adds fresh ones after them; shrinking drops the oldest
/// columns and keeps the rest as they were.
pub open spec fn density_applied(
    before: Seq<RainColumn>,
    after: Seq<RainColumn>,
    target: int,
    width: usize,
    rate: u64,
) -> bool {
    let c0 = before.len() as int;
    &&& after.len() == density_count(c0, target, width as int)
    &&& target > c0 ==> {
        &&& after.subrange(0, c0) == before
        &&& forall|i: int| c0 <= i < after.len() ==> fresh_column(#[trigger] after[i], rate)
    }
    &&& target <= c0 ==> after == before.subrange(c0 - target, c0)
}

/// The position probed `t` steps after `start`, wrapping at `width`.
pub open spec fn probe_position(start: int, t: int, width: int) -> int {
    if start + t < width {
        start + t
    } else {
        start + t - width
    }
}

/// A sequence without repeats that holds every position below `w` has at
/// least `w` elements.
pub proof fn lemma_all_positions_taken(xs: Seq<usize>, w: usize)
    requires
        xs.no_duplicates(),
        forall|p: usize| p < w ==> xs.contains(p),
    ensures
        xs.len() >= w,
    decreases w,
{
    if w > 0 {
        let last = (w - 1) as usize;
        lemma_without(xs, last);
        let ys = without(xs, last);
        assert forall|p: usize| p < last implies ys.contains(p) by {
            assert(xs.contains(p));
        }
        lemma_all_positions_taken(ys, last);
    }
}

/// A sequence without repeats of positions below `w` has at most `w`
/// elements.
pub proof fn lemma_positions_bounded(xs: Seq<usize>, w: usize)
    requires
        xs.no_duplicates(),
        forall|i: int| 0 <= i < xs.len() ==> xs[i] < w,
    ensures
        xs.len() <= w,
    decreases w,
{
    if w == 0 {
        if xs.len() > 0 {
            assert(xs[0] < w);
        }
    } else {
        let last = (w - 1) as usize;
        lemma_without(xs, last);
        let ys = without(xs, last);
        assert forall|i: int| 0 <= i < ys.len() implies ys[i] < last by {
            assert(ys.contains(ys[i]));
            assert(xs.contains(ys[i]));
        }
        lemma_positions_bounded(ys, last);
    }
}

/// A triangle wave in place of a sine: `phase` in thousandths of a radian,
/// the result in thousandths, rising from 0 to 1 at a quarter turn, down to
/// -1 at three quarters and back to 0.
pub open spec fn wave_spec(phase: u64) -> int {
    let q = (phase % 6283) as int;
    if q < 1571 {
        q * 1000 / 1571
    } else if q < 4712 {
        1000 - (q - 1571) * 2000 / 3141
    } else {
        (q - 4712) * 1000 / 1571 - 1000
    }
}

/// The triangle wave at `phase`.
pub fn wave(phase: u64) -> (r: i64)
    ensures
        r == wave_spec(phase),
        -1000 <= r <= 1000,
{
    let q = phase % 6283;
    if q < 1571 {
        (q * 1000 / 1571) as i64
    } else if q < 4712 {
        1000 - ((q - 1571) * 2000 / 3141) as i64
    } else {
        ((q - 4712) * 1000 / 1571) as i64 - 1000
    }
}

/// The fall-speed factor in thousandths: 1 normally, swinging between 0.7
/// and 1.3 with the column's pulse in the pulse look.
pub open spec fn speed_modifier(mode: VisualMode, pulse_timer: u64) -> int {
    if mode == VisualMode::Pulse {
        (1_000_000 + 300 * wave_spec(pulse_timer)) / 1000
    } else {
        1000
    }
}

fn speed_modifier_of(mode: VisualMode, pulse_timer: u64) -> (r: u64)
    ensures
        r == speed_modifier(mode, pulse_timer),
        r <= 1300,
{
    if mode == VisualMode::Pulse {
        let w = wave(pulse_timer);
        ((1_000_000 + 300 * w) as u64) / 1000
    } else {
        1000
    }
}

/// `a - b`, held at zero.
pub open spec fn sub_floor(a: u64, b: int) -> u64 {
    if a >= b {
        (a - b) as u64
    } else {
        0
    }
}

/// How far a glyph falls in `dt` milliseconds, in thousandths of a row.
pub open spec fn fall_distance(fall_speed: u64, dt: u32, modifier: u64) -> int {
    fall_speed as int * dt as int * modifier as int / 1_000_000
}

/// How much trail level `j` fades in `dt` milliseconds: 0.3 per second for
/// the nearest level, 0.1 more for each level behind it.
pub open spec fn trail_fade(j: int, dt: u32) -> int {
    (300 + 100 * j) * dt as int / 1000
}

/// Moves a glyph down and fades it and its trail.
pub fn advance_char(c: &mut MatrixChar, fall_speed: u64, modifier: u64, dt: u32)
    requires
        modifier <= 1300,
    ensures
        final(c).y as int == (if old(c).y as int + fall_distance(fall_speed, dt, modifier)
            > u64::MAX {
            u64::MAX as int
        } else {
            old(c).y as int + fall_distance(fall_speed, dt, modifier)
        }),
        final(c).intensity == sub_floor(old(c).intensity, dt as int / 2),
        final(c).trail_intensity@.len() == old(c).trail_intensity@.len(),
        forall|j: int|
            0 <= j < final(c).trail_intensity@.len() ==> #[trigger] final(c).trail_intensity@[j]
                == sub_floor(old(c).trail_intensity@[j], trail_fade(j, dt)),
        final(c).value == old(c).value,
        final(c).glitch_timer == old(c).glitch_timer,
        final(c).color_override == old(c).color_override,
{
    assert(fall_speed as int * dt as int <= u64::MAX as int * u32::MAX as int)
        by (nonlinear_arith)
        requires
            fall_speed <= u64::MAX,
            dt <= u32::MAX,
    ;
    let moved: u128 = fall_speed as u128 * dt as u128;
    assert(moved as int * modifier as int <= u64::MAX as int * u32::MAX as int * 1300)
        by (nonlinear_arith)
        requires
            moved == fall_speed as int * dt as int,
            fall_speed <= u64::MAX,
            dt <= u32::MAX,
            modifier <= 1300,
    ;
    let step: u128 = moved * modifier as u128 / 1_000_000;
    let y: u128 = c.y as u128 + step;
    c.y = if y > u64::MAX as u128 {
        u64::MAX
    } else {
        y as u64
    };
    c.intensity = c.intensity.saturating_sub(dt as u64 / 2);
    let mut trail: Vec<u64> = Vec::new();
    std::mem::swap(&mut trail, &mut c.trail_intensity);
    let ghost before = trail@;
    let mut j: usize = 0;
    while j < trail.len()
        invariant
            j <= trail@.len(),
            trail@.len() == before.len(),
            forall|k: int|
                0 <= k < j ==> #[trigger] trail@[k] == sub_floor(before[k], trail_fade(k, dt)),
            forall|k: int| j <= k < before.len() ==> trail@[k] == before[k],
        decreases trail@.len() - j,
    {
        assert((300 + 100 * j as int) * dt as int <= (300 + 100 * u64::MAX as int) * u32::MAX as int)
            by (nonlinear_arith)
            requires
                j <= u64::MAX,
                dt <= u32::MAX,
        ;
        let fade: u128 = (300 + 100 * j as u128) * dt as u128 / 1000;
        let old_level = trail[j];
        let t: u64 = if fade > old_level as u128 {
            0
        } else {
            old_level - fade as u64
        };
        trail.set(j, t);
        j += 1;
    }
    c.trail_intensity = trail;
}

/// A glyph's height and intensity.
pub open spec fn glyph_state(c: MatrixChar) -> (u64, u64) {
    (c.y, c.intensity)
}

/// The heights and intensities of a column's glyphs, head first.
pub open spec fn glyph_states(cs: Seq<MatrixChar>) -> Seq<(u64, u64)> {
    cs.map_values(|c: MatrixChar| glyph_state(c))
}

/// A glyph's height and intensity after `dt` milliseconds of falling and
/// fading.
pub open spec fn stepped_glyph(g: (u64, u64), fall_speed: u64, dt: u32, modifier: u64) -> (u64, u64) {
    let y = g.0 as int + fall_distance(fall_speed, dt, modifier);
    (if y > u64::MAX {
        u64::MAX
    } else {
        y as u64
    }, sub_floor(g.1, dt as int / 2))
}

/// A column's glyphs after falling and fading, with a fresh head glyph at
/// the top (height 0, full intensity) once the head has fallen past 1.5
/// rows.
pub open spec fn stepped_column(
    gs: Seq<(u64, u64)>,
    fall_speed: u64,
    dt: u32,
    modifier: u64,
) -> Seq<(u64, u64)> {
    let moved = gs.map_values(|g: (u64, u64)| stepped_glyph(g, fall_speed, dt, modifier));
    if moved.len() > 0 && moved[0].0 > 1500 {
        seq![(0u64, 1000u64)] + moved
    } else {
        moved
    }
}

/// The glyphs still inside an area `height` rows tall and not faded out,
/// order kept.
pub open spec fn visible(gs: Seq<(u64, u64)>, height: usize) -> Seq<(u64, u64)>
    decreases gs.len(),
{
    if gs.len() == 0 {
        gs
    } else {
        let rest = visible(gs.drop_last(), height);
        if gs.last().0 < height as int * 1000 && gs.last().1 > 0 {
            rest.push(gs.last())
        } else {
            rest
        }
    }
}

/// Every trail level of the glyph is at most full (1.0).
pub open spec fn trail_bounded(c: MatrixChar) -> bool {
    forall|j: int| 0 <= j < c.trail_intensity@.len() ==> #[trigger] c.trail_intensity@[j] <= 1000
}

/// Every glyph's trail levels are at most full.
pub open spec fn trails_bounded(cs: Seq<MatrixChar>) -> bool {
    forall|i: int| 0 <= i < cs.len() ==> trail_bounded(#[trigger] cs[i])
}

/// One animation step of a column, in an area `height` rows tall: the
/// column keeps its position, speed, depth and character set; its pulse
/// phase turns; its glyphs fall and fade, a fresh head enters once the head
/// has fallen 1.5 rows, and glyphs that left the area or faded out are
/// dropped; trails stay at most full.
pub open spec fn steps_to(
    before: RainColumn,
    after: RainColumn,
    dt: u32,
    mode: VisualMode,
    height: usize,
) -> bool {
    &&& after.x == before.x
    &&& after.fall_speed == before.fall_speed
    &&& after.z_depth == before.z_depth
    &&& after.character_set == before.character_set
    &&& after.pulse_timer == (before.pulse_timer as int + 4 * dt as int) % 6283
    &&& glyph_states(after.chars@) == visible(
        stepped_column(
            glyph_states(before.chars@),
            before.fall_speed,
            dt,
            speed_modifier(mode, after.pulse_timer) as u64,
        ),
        height,
    )
    &&& trails_bounded(before.chars@) ==> trails_bounded(after.chars@)
}

/// Advances one column by `dt` milliseconds: its pulse phase turns, every
/// glyph falls and fades (and may change while a glitch is active), a new
/// glyph enters at the top once the head glyph has fallen 1.5 rows, and
/// glyphs that left the area or faded out are dropped.
pub fn advance_column(
    col: &mut RainColumn,
    dt: u32,
    mode: VisualMode,
    glitch_active: bool,
    height: usize,
)
    ensures
        final(col).x == old(col).x,
        final(col).fall_speed == old(col).fall_speed,
        final(col).z_depth == old(col).z_depth,
        final(col).character_set == old(col).character_set,
        final(col).pulse_timer == (old(col).pulse_timer as int + 4 * dt as int) % 6283,
        final(col).chars@.len() <= old(col).chars@.len() + 1,
        forall|i: int|
            0 <= i < final(col).chars@.len() ==> (#[trigger] final(col).chars@[i]).y
                < height as int * 1000 && final(col).chars@[i].intensity > 0,
        glyph_states(final(col).chars@) == visible(
            stepped_column(
                glyph_states(old(col).chars@),
                old(col).fall_speed,
                dt,
                speed_modifier(mode, final(col).pulse_timer) as u64,
            ),
            height,
        ),
        steps_to(*old(col), *final(col), dt, mode, height),
{
    col.pulse_timer = ((col.pulse_timer as u128 + 4 * dt as u128) % 6283) as u64;
    let modifier = speed_modifier_of(mode, col.pulse_timer);
    let set = col.character_set;
    let speed = col.fall_speed;
    let mut chars: Vec<MatrixChar> = Vec::new();
    std::mem::swap(&mut chars, &mut col.chars);
    let ghost before = chars@;
    let ghost n0 = chars@.len();
    let mut i: usize = 0;
    while i < chars.len()
        invariant
            i <= chars@.len(),
            chars@.len() == n0,
            before.len() == n0,
            modifier <= 1300,
            modifier == speed_modifier(mode, col.pulse_timer),
            forall|k: int|
                0 <= k < i ==> #[trigger] glyph_state(chars@[k]) == stepped_glyph(
                    glyph_state(before[k]),
                    speed,
                    dt,
                    modifier,
                ),
            forall|k: int| i <= k < n0 ==> chars@[k] == before[k],
            trails_bounded(before) ==> forall|k: int|
                0 <= k < i ==> trail_bounded(#[trigger] chars@[k]),
        decreases chars@.len() - i,
    {
        proof {
            if trails_bounded(before) {
                assert(trail_bounded(before[i as int]));
            }
        }
        let c = &mut chars[i];
        advance_char(c, speed, modifier, dt);
        if glitch_active || c.glitch_timer > 0 {
            if random_chance(1, 10) {
                c.value = random_matrix_char(set);
                c.glitch_timer = 200;
            }
        }
        c.glitch_timer = c.glitch_timer.saturating_sub(dt as u64);
        i += 1;
    }
    let ghost moved = glyph_states(before).map_values(
        |g: (u64, u64)| stepped_glyph(g, speed, dt, modifier),
    );
    assert(glyph_states(chars@) =~= moved);
    assert(trails_bounded(before) ==> trails_bounded(chars@));
    let n = chars.len();
    if n > 0 && chars[0].y > 1500 {
        let ghost unspawned = chars@;
        let head = MatrixChar::new(random_matrix_char(set), 0);
        assert(trail_bounded(head)) by {
            assert(head.trail_intensity@ == trail_profile());
        }
        chars.insert(0, head);
        assert(glyph_states(chars@) =~= seq![(0u64, 1000u64)] + moved);
        assert(trails_bounded(before) ==> trails_bounded(chars@)) by {
            if trails_bounded(before) {
                assert forall|k: int| 0 <= k < chars@.len() implies trail_bounded(
                    #[trigger] chars@[k],
                ) by {
                    if k > 0 {
                        assert(chars@[k] == unspawned[k - 1]);
                    }
                }
            }
        }
    }
    assert(glyph_states(chars@) == stepped_column(glyph_states(before), speed, dt, modifier));
    let limit: u128 = height as u128 * 1000;
    let mut kept: Vec<MatrixChar> = Vec::new();
    let ghost all = chars@;
    let ghost n1 = chars@.len();
    let total = chars.len();
    assert(n1 == total);
    let mut done: usize = 0;
    while chars.len() > 0
        invariant
            n1 == all.len(),
            n1 <= usize::MAX,
            done <= n1,
            chars@ == all.subrange(done as int, n1 as int),
            kept@.len() <= done,
            glyph_states(kept@) == visible(glyph_states(all.subrange(0, done as int)), height),
            forall|k: int|
                0 <= k < kept@.len() ==> (#[trigger] kept@[k]).y < height as int * 1000
                    && kept@[k].intensity > 0,
            limit == height as int * 1000,
            trails_bounded(all) ==> trails_bounded(kept@),
        decreases chars@.len(),
    {
        let ghost kept_before = kept@;
        let c = chars.remove(0);
        assert(c == all[done as int]);
        proof {
            let part = glyph_states(all.subrange(0, done + 1));
            assert(part.drop_last() =~= glyph_states(all.subrange(0, done as int)));
            assert(part.last() == glyph_state(c));
        }
        if (c.y as u128) < limit && c.intensity > 0 {
            kept.push(c);
            assert(glyph_states(kept@) =~= glyph_states(kept_before).push(glyph_state(c)));
            assert(trails_bounded(all) ==> trails_bounded(kept@)) by {
                if trails_bounded(all) {
                    assert(trail_bounded(all[done as int]));
                    assert forall|k: int| 0 <= k < kept@.len() implies trail_bounded(
                        #[trigger] kept@[k],
                    ) by {
                        if k < kept_before.len() {
                            assert(kept@[k] == kept_before[k]);
                        }
                    }
                }
            }
        }
        proof {
            assert(glyph_states(kept@) =~= visible(glyph_states(all.subrange(0, done + 1)), height));
        }
        done += 1;
        assert(chars@ =~= all.subrange(done as int, n1 as int));
    }
    assert(all.subrange(0, done as int) =~= all);
    col.chars = kept;
}

/// A particle after `dt` milliseconds: it moves, gravity pulls it down at
/// 5 cells per second squared, and its lifetime runs down; positions and
/// speeds are held within `i64`.
pub open spec fn clamp_i64(v: int) -> i64 {
    if v > i64::MAX {
        i64::MAX
    } else if v < i64::MIN {
        i64::MIN
    } else {
        v as i64
    }
}

fn clamp_to_i64(v: i128) -> (r: i64)
    ensures
        r == clamp_i64(v as int),
{
    if v > i64::MAX as i128 {
        i64::MAX
    } else if v < i64::MIN as i128 {
        i64::MIN
    } else {
        v as i64
    }
}

/// Moves a particle forward by `dt` milliseconds.
pub fn advance_particle(p: &mut Particle, dt: u32)
    ensures
        final(p).x == clamp_i64(old(p).x + old(p).vx * dt),
        final(p).y == clamp_i64(old(p).y + old(p).vy * dt),
        final(p).vy == clamp_i64(old(p).vy + 5 * dt),
        final(p).vx == old(p).vx,
        final(p).lifetime == clamp_i64(old(p).lifetime - dt),
        final(p).char == old(p).char,
        final(p).color == old(p).color,
        *final(p) == stepped_particle(*old(p), dt),
{
    assert(-0x8000_0000_0000_0000 * 0x1_0000_0000 <= p.vx as int * dt as int
        <= 0x8000_0000_0000_0000 * 0x1_0000_0000) by (nonlinear_arith)
        requires
            i64::MIN <= p.vx <= i64::MAX,
            0 <= dt <= u32::MAX,
    ;
    assert(-0x8000_0000_0000_0000 * 0x1_0000_0000 <= p.vy as int * dt as int
        <= 0x8000_0000_0000_0000 * 0x1_0000_0000) by (nonlinear_arith)
        requires
            i64::MIN <= p.vy <= i64::MAX,
            0 <= dt <= u32::MAX,
    ;
    p.x = clamp_to_i64(p.x as i128 + p.vx as i128 * dt as i128);
    p.y = clamp_to_i64(p.y as i128 + p.vy as i128 * dt as i128);
    p.vy = clamp_to_i64(p.vy as i128 + 5 * dt as i128);
    p.lifetime = clamp_to_i64(p.lifetime as i128 - dt as i128);
}

/// The demo generator's traffic rate at `timer` milliseconds into the demo:
/// a 20-second cycle of low (0-5 s), medium (6-10 s), high (11-15 s) and
/// threat (16-19 s) traffic, each wobbling with the wave.
pub open spec fn demo_traffic(timer: u64) -> u64 {
    let sec = (timer % 20000) / 1000;
    let w = wave_spec(((timer % 6283) * 20) as u64);
    if sec <= 5 {
        ((100_000 + 50 * w) / 1000) as u64
    } else if sec <= 10 {
        ((500_000 + 200 * w) / 1000) as u64
    } else if sec <= 15 {
        ((1_000_000 + 300 * w) / 1000) as u64
    } else {
        2000
    }
}

/// The columns with each fall speed set for a traffic rate.
pub open spec fn respeeded(cols: Seq<RainColumn>, rate: u64) -> Seq<RainColumn> {
    cols.map_values(
        |c: RainColumn| RainColumn { fall_speed: column_fall_speed(rate, c.z_depth) as u64, ..c },
    )
}

/// The columns an update steps: in demo mode the generator first sets the
/// traffic rate, and with it every fall speed.
pub open spec fn columns_before_step(cols: Seq<RainColumn>, demo: bool, rate: u64) -> Seq<
    RainColumn,
> {
    if demo {
        respeeded(cols, rate)
    } else {
        cols
    }
}

/// The columns that still hold glyphs, order kept.
pub open spec fn nonempty_columns(cols: Seq<RainColumn>) -> Seq<RainColumn>
    decreases cols.len(),
{
    if cols.len() == 0 {
        cols
    } else {
        let rest = nonempty_columns(cols.drop_last());
        if cols.last().chars@.len() > 0 {
            rest.push(cols.last())
        } else {
            rest
        }
    }
}

/// Each column of `after` is the matching column of `before` after one
/// animation step.
pub open spec fn columns_stepped(
    before: Seq<RainColumn>,
    after: Seq<RainColumn>,
    dt: u32,
    mode: VisualMode,
    height: usize,
) -> bool {
    &&& after.len() == before.len()
    &&& forall|i: int| 0 <= i < before.len() ==> steps_to(before[i], #[trigger] after[i], dt, mode, height)
}

/// A particle after `dt` milliseconds.
pub open spec fn stepped_particle(p: Particle, dt: u32) -> Particle {
    Particle {
        x: clamp_i64(p.x + p.vx * dt),
        y: clamp_i64(p.y + p.vy * dt),
        vx: p.vx,
        vy: clamp_i64(p.vy + 5 * dt),
        lifetime: clamp_i64(p.lifetime - dt),
        char: p.char,
        color: p.color,
    }
}

/// The particles after `dt` milliseconds, without those whose lifetime ran
/// out, order kept.
pub open spec fn live_particles(ps: Seq<Particle>, dt: u32) -> Seq<Particle>
    decreases ps.len(),
{
    if ps.len() == 0 {
        ps
    } else {
        let rest = live_particles(ps.drop_last(), dt);
        let p = stepped_particle(ps.last(), dt);
        if p.lifetime > 0 {
            rest.push(p)
        } else {
            rest
        }
    }
}

/// The animation state: a set of columns keyed by position, effect timers,
/// particles and the traffic signals that drive them.
pub struct MatrixRain {
    width: usize,
    height: usize,
    columns: Vec<RainColumn>,
    traffic_rate: u64,
    threat_active: bool,
    threat_pulse: u64,
    visual_mode: VisualMode,
    particles: Vec<Particle>,
    screen_flash: u64,
    global_glitch_timer: u64,
    demo_mode: bool,
    demo_timer: u64,
    rainbow_offset: u64,
}

impl MatrixRain {
    pub closed spec fn width_view(&self) -> usize {
        self.width
    }

    pub closed spec fn height_view(&self) -> usize {
        self.height
    }

    /// The columns, in the order they were added.
    pub closed spec fn columns_view(&self) -> Seq<RainColumn> {
        self.columns@
    }

    pub closed spec fn particles_view(&self) -> Seq<Particle> {
        self.particles@
    }

    pub closed spec fn traffic_rate_view(&self) -> u64 {
        self.traffic_rate
    }

    pub closed spec fn threat_active_view(&self) -> bool {
        self.threat_active
    }

    pub closed spec fn threat_pulse_view(&self) -> u64 {
        self.threat_pulse
    }

    pub closed spec fn visual_mode_view(&self) -> VisualMode {
        self.visual_mode
    }

    pub closed spec fn screen_flash_view(&self) -> u64 {
        self.screen_flash
    }

    pub closed spec fn glitch_timer_view(&self) -> u64 {
        self.global_glitch_timer
    }

    pub closed spec fn demo_mode_view(&self) -> bool {
        self.demo_mode
    }

    pub closed spec fn demo_timer_view(&self) -> u64 {
        self.demo_timer
    }

    pub closed spec fn rainbow_offset_view(&self) -> u64 {
        self.rainbow_offset
    }

    /// The occupied positions, in the order they were taken.
    pub open spec fn xs(&self) -> Seq<usize> {
        positions(self.columns_view())
    }

    /// Every column lies within the width, one column per position.
    pub open spec fn wf(&self) -> bool {
        &&& forall|i: int| 0 <= i < self.xs().len() ==> self.xs()[i] < self.width_view()
        &&& self.xs().no_duplicates()
    }

    /// An empty rain for a `width` by `height` area, in the Matrix look.
    pub fn new(width: usize, height: usize) -> (r: MatrixRain)
        ensures
            r.wf(),
            r.width_view() == width,
            r.height_view() == height,
            r.xs().len() == 0,
            r.particles_view().len() == 0,
            r.traffic_rate_view() == 0,
            !r.threat_active_view(),
            r.threat_pulse_view() == 0,
            r.visual_mode_view() == VisualMode::Matrix,
            r.screen_flash_view() == 0,
            r.glitch_timer_view() == 0,
            !r.demo_mode_view(),
            r.demo_timer_view() == 0,
            r.rainbow_offset_view() == 0,
    {
        let r = MatrixRain {
            width,
            height,
            columns: Vec::new(),
            traffic_rate: 0,
            threat_active: false,
            threat_pulse: 0,
            visual_mode: VisualMode::Matrix,
            particles: Vec::new(),
            screen_flash: 0,
            global_glitch_timer: 0,
            demo_mode: false,
            demo_timer: 0,
            rainbow_offset: 0,
        };
        assert(r.xs() =~= Seq::<usize>::empty());
        r
    }

    /// Sets the traffic rate: every column's fall speed follows it, and a
    /// rate above 800 starts a half-second glitch.
    pub fn set_traffic_rate(&mut self, rate: u64)
        ensures
            final(self).traffic_rate_view() == rate,
            final(self).glitch_timer_view() == (if rate > 800 {
                500
            } else {
                old(self).glitch_timer_view()
            }),
            final(self).columns_view().len() == old(self).columns_view().len(),
            forall|i: int|
                0 <= i < final(self).columns_view().len() ==> {
                    let c = #[trigger] final(self).columns_view()[i];
                    let o = old(self).columns_view()[i];
                    &&& c.fall_speed == column_fall_speed(rate, o.z_depth)
                    &&& c == (RainColumn { fall_speed: c.fall_speed, ..o })
                },
            final(self).xs() == old(self).xs(),
            final(self).width_view() == old(self).width_view(),
            final(self).height_view() == old(self).height_view(),
            final(self).particles_view() == old(self).particles_view(),
            final(self).threat_active_view() == old(self).threat_active_view(),
            final(self).threat_pulse_view() == old(self).threat_pulse_view(),
            final(self).visual_mode_view() == old(self).visual_mode_view(),
            final(self).screen_flash_view() == old(self).screen_flash_view(),
            final(self).demo_mode_view() == old(self).demo_mode_view(),
            final(self).demo_timer_view() == old(self).demo_timer_view(),
            final(self).rainbow_offset_view() == old(self).rainbow_offset_view(),
    {
        self.traffic_rate = rate;
        if rate > 800 {
            self.global_glitch_timer = 500;
        }
        let mut cols: Vec<RainColumn> = Vec::new();
        std::mem::swap(&mut cols, &mut self.columns);
        let ghost before = cols@;
        let mut i: usize = 0;
        while i < cols.len()
            invariant
                i <= cols@.len(),
                cols@.len() == before.len(),
                forall|j: int|
                    0 <= j < i ==> {
                        let c = #[trigger] cols@[j];
                        &&& c.fall_speed == column_fall_speed(rate, before[j].z_depth)
                        &&& c == (RainColumn { fall_speed: c.fall_speed, ..before[j] })
                    },
                forall|j: int| i <= j < cols@.len() ==> cols@[j] == before[j],
            decreases cols@.len() - i,
        {
            let speed = speed_for_depth(rate, cols[i].z_depth);
            cols[i].fall_speed = speed;
            i += 1;
        }
        self.columns = cols;
        assert(positions(self.columns@) =~= positions(before));
    }

    /// Switches the threat look: on starts the rainbow cycle with a full
    /// pulse and screen flash; off returns to the Matrix look.
    pub fn set_threat_active(&mut self, active: bool)
        ensures
            final(self).threat_active_view() == active,
            final(self).visual_mode_view() == (if active {
                VisualMode::Rainbow
            } else {
                VisualMode::Matrix
            }),
            final(self).threat_pulse_view() == (if active {
                1000
            } else {
                old(self).threat_pulse_view()
            }),
            final(self).screen_flash_view() == (if active {
                1000
            } else {
                old(self).screen_flash_view()
            }),
            final(self).columns_view() == old(self).columns_view(),
            final(self).width_view() == old(self).width_view(),
            final(self).height_view() == old(self).height_view(),
            final(self).particles_view() == old(self).particles_view(),
            final(self).traffic_rate_view() == old(self).traffic_rate_view(),
            final(self).glitch_timer_view() == old(self).glitch_timer_view(),
            final(self).demo_mode_view() == old(self).demo_mode_view(),
            final(self).demo_timer_view() == old(self).demo_timer_view(),
            final(self).rainbow_offset_view() == old(self).rainbow_offset_view(),
    {
        self.threat_active = active;
        if active {
            self.threat_pulse = 1000;
            self.screen_flash = 1000;
            self.visual_mode = VisualMode::Rainbow;
        } else {
            self.visual_mode = VisualMode::Matrix;
        }
    }

    /// Starts the built-in traffic generator.
    pub fn enable_demo_mode(&mut self)
        ensures
            final(self).demo_mode_view(),
            final(self).columns_view() == old(self).columns_view(),
            final(self).width_view() == old(self).width_view(),
            final(self).height_view() == old(self).height_view(),
            final(self).traffic_rate_view() == old(self).traffic_rate_view(),
            final(self).demo_timer_view() == old(self).demo_timer_view(),
    {
        self.demo_mode = true;
    }

    /// Whether a column stands at `x`.
    pub fn has_column(&self, x: usize) -> (r: bool)
        ensures
            r == self.xs().contains(x),
    {
        let mut i: usize = 0;
        while i < self.columns.len()
            invariant
                i <= self.columns@.len(),
                forall|j: int| 0 <= j < i ==> self.columns@[j].x != x,
            decreases self.columns@.len() - i,
        {
            if self.columns[i].x == x {
                assert(self.xs()[i as int] == x);
                return true;
            }
            i += 1;
        }
        assert(!self.xs().contains(x)) by {
            if self.xs().contains(x) {
                let j = choose|j: int| 0 <= j < self.xs().len() && self.xs()[j] == x;
                assert(self.columns@[j].x == x);
            }
        }
        false
    }

    /// Adds a column at `x` unless `x` is outside the width or taken. The
    /// new column gets a random character set (binary in the glitch look),
    /// a fall speed for the current traffic, and a burst of particles.
    pub fn add_column(&mut self, x: usize)
        requires
            old(self).wf(),
        ensures
            final(self).wf(),
            final(self).xs() == with_column(old(self).xs(), x, old(self).width_view()),
            final(self).columns_view().subrange(0, old(self).columns_view().len() as int)
                == old(self).columns_view(),
            final(self).particles_view().len() >= old(self).particles_view().len(),
            final(self).particles_view().subrange(0, old(self).particles_view().len() as int)
                == old(self).particles_view(),
            final(self).xs().len() > old(self).xs().len() ==> ({
                let c = final(self).columns_view().last();
                &&& c.x == x
                &&& fresh_column(c, old(self).traffic_rate_view())
                &&& old(self).visual_mode_view() == VisualMode::Glitch ==> c.character_set
                    == CharacterSet::Binary
                &&& final(self).particles_view().len() == old(self).particles_view().len() + 5
            }),
            final(self).xs().len() == old(self).xs().len() ==> final(self).particles_view()
                == old(self).particles_view(),
            final(self).width_view() == old(self).width_view(),
            final(self).height_view() == old(self).height_view(),
            final(self).traffic_rate_view() == old(self).traffic_rate_view(),
            final(self).threat_active_view() == old(self).threat_active_view(),
            final(self).threat_pulse_view() == old(self).threat_pulse_view(),
            final(self).visual_mode_view() == old(self).visual_mode_view(),
            final(self).screen_flash_view() == old(self).screen_flash_view(),
            final(self).glitch_timer_view() == old(self).glitch_timer_view(),
            final(self).demo_mode_view() == old(self).demo_mode_view(),
            final(self).demo_timer_view() == old(self).demo_timer_view(),
            final(self).rainbow_offset_view() == old(self).rainbow_offset_view(),
    {
        if x < self.width && !self.has_column(x) {
            let char_set = if self.visual_mode == VisualMode::Glitch {
                CharacterSet::Binary
            } else {
                match random_in(0, 6) {
                    0 => CharacterSet::ASCII,
                    1 => CharacterSet::Katakana,
                    2 => CharacterSet::Symbols,
                    3 => CharacterSet::Binary,
                    4 => CharacterSet::Hex,
                    _ => CharacterSet::Mixed,
                }
            };
            let mut column = RainColumn::new(x, self.height, char_set);
            column.fall_speed = speed_for_depth(self.traffic_rate, column.z_depth);
            self.add_particle_burst(x);
            let ghost before = self.columns@;
            self.columns.push(column);
            assert(self.columns@.last() == column);
            assert(self.xs() =~= positions(before).push(x));
            assert(self.columns@.subrange(0, before.len() as int) =~= before);
        } else {
            assert(self.columns@.subrange(0, self.columns@.len() as int) =~= self.columns@);
            assert(self.particles@.subrange(0, self.particles@.len() as int) =~= self.particles@);
        }
    }

    /// Five sparks at the top of column `x`, in random directions.
    fn add_particle_burst(&mut self, x: usize)
        ensures
            final(self).particles@.len() == old(self).particles@.len() + 5,
            final(self).particles@.subrange(0, old(self).particles@.len() as int)
                == old(self).particles@,
            final(self).columns == old(self).columns,
            final(self).width_view() == old(self).width_view(),
            final(self).height_view() == old(self).height_view(),
            final(self).traffic_rate == old(self).traffic_rate,
            final(self).threat_active == old(self).threat_active,
            final(self).threat_pulse == old(self).threat_pulse,
            final(self).visual_mode == old(self).visual_mode,
            final(self).screen_flash == old(self).screen_flash,
            final(self).global_glitch_timer == old(self).global_glitch_timer,
            final(self).demo_mode == old(self).demo_mode,
            final(self).demo_timer == old(self).demo_timer,
            final(self).rainbow_offset == old(self).rainbow_offset,
    {
        let px: i64 = if x as u64 > 9_000_000_000_000 {
            9_000_000_000_000_000
        } else {
            x as i64 * 1_000_000
        };
        let mut sparks: Vec<Particle> = Vec::new();
        std::mem::swap(&mut sparks, &mut self.particles);
        let mut k: usize = 0;
        let ghost n0 = sparks@.len();
        let ghost initial = sparks@;
        while k < 5
            invariant
                k <= 5,
                sparks@.len() == n0 + k,
                n0 == initial.len(),
                sparks@.subrange(0, n0 as int) == initial,
            decreases 5 - k,
        {
            let vx = random_in(0, 4000) as i64 - 2000;
            let vy = random_in(0, 4000) as i64 - 1000;
            sparks.push(
                Particle {
                    x: px,
                    y: 0,
                    vx,
                    vy,
                    lifetime: 1000,
                    char: random_matrix_char(CharacterSet::Symbols),
                    color: Rgb(100, 255, 100),
                },
            );
            assert(sparks@.subrange(0, n0 as int) =~= initial);
            k += 1;
        }
        self.particles = sparks;
    }

    /// The column at `x`, if any.
    pub fn get_column(&self, x: usize) -> (r: Option<&RainColumn>)
        requires
            self.wf(),
        ensures
            r is Some <==> self.xs().contains(x),
            r is Some ==> r->Some_0.x == x && self.columns_view().contains(*r->Some_0),
    {
        let mut i: usize = 0;
        while i < self.columns.len()
            invariant
                i <= self.columns@.len(),
                forall|j: int| 0 <= j < i ==> self.columns@[j].x != x,
            decreases self.columns@.len() - i,
        {
            if self.columns[i].x == x {
                assert(self.xs()[i as int] == x);
                return Some(&self.columns[i]);
            }
            i += 1;
        }
        assert(!self.xs().contains(x)) by {
            if self.xs().contains(x) {
                let j = choose|j: int| 0 <= j < self.xs().len() && self.xs()[j] == x;
                assert(self.columns@[j].x == x);
            }
        }
        None
    }

    /// The columns, in the order they were added.
    pub fn columns(&self) -> (r: &Vec<RainColumn>)
        ensures
            r@ == self.columns_view(),
    {
        &self.columns
    }

    /// The live particles.
    pub fn particles(&self) -> (r: &Vec<Particle>)
        ensures
            r@ == self.particles_view(),
    {
        &self.particles
    }

    /// The width of the area, in cells.
    pub fn width(&self) -> (r: usize)
        ensures
            r == self.width_view(),
    {
        self.width
    }

    /// The height of the area, in cells.
    pub fn height(&self) -> (r: usize)
        ensures
            r == self.height_view(),
    {
        self.height
    }

    /// The current look.
    pub fn visual_mode(&self) -> (r: VisualMode)
        ensures
            r == self.visual_mode_view(),
    {
        self.visual_mode
    }

    /// Strength of the screen flash, in thousandths.
    pub fn screen_flash(&self) -> (r: u64)
        ensures
            r == self.screen_flash_view(),
    {
        self.screen_flash
    }

    /// Strength of the threat pulse, in thousandths.
    pub fn threat_pulse(&self) -> (r: u64)
        ensures
            r == self.threat_pulse_view(),
    {
        self.threat_pulse
    }

    /// Phase of the rainbow cycle, in thousandths of a degree.
    pub fn rainbow_offset(&self) -> (r: u64)
        ensures
            r == self.rainbow_offset_view(),
    {
        self.rainbow_offset
    }

    /// The traffic rate, in packets per second.
    pub fn traffic_rate(&self) -> (r: u64)
        ensures
            r == self.traffic_rate_view(),
    {
        self.traffic_rate
    }

    /// The number of columns.
    pub fn column_count(&self) -> (r: usize)
        ensures
            r == self.xs().len(),
    {
        self.columns.len()
    }

    /// Everything but the columns and particles agrees with `o`.
    pub open spec fn same_signals(&self, o: &MatrixRain) -> bool {
        &&& self.width_view() == o.width_view()
        &&& self.height_view() == o.height_view()
        &&& self.traffic_rate_view() == o.traffic_rate_view()
        &&& self.threat_active_view() == o.threat_active_view()
        &&& self.threat_pulse_view() == o.threat_pulse_view()
        &&& self.visual_mode_view() == o.visual_mode_view()
        &&& self.screen_flash_view() == o.screen_flash_view()
        &&& self.glitch_timer_view() == o.glitch_timer_view()
        &&& self.demo_mode_view() == o.demo_mode_view()
        &&& self.demo_timer_view() == o.demo_timer_view()
        &&& self.rainbow_offset_view() == o.rainbow_offset_view()
    }

    /// Finds a free position by probing from `start`, wrapping round; none
    /// when every position is taken.
    fn free_position_from(&self, start: usize) -> (r: Option<usize>)
        requires
            self.wf(),
            start < self.width_view(),
        ensures
            r is Some ==> r->Some_0 < self.width_view() && !self.xs().contains(r->Some_0),
            r is None ==> self.xs().len() >= self.width_view(),
    {
        let w = self.width;
        let mut x = start;
        let mut attempts: usize = 0;
        while self.has_column(x) && attempts < w
            invariant
                attempts <= w,
                w == self.width_view(),
                start < w,
                x == probe_position(start as int, attempts as int, w as int),
                forall|t: int|
                    0 <= t < attempts ==> self.xs().contains(
                        probe_position(start as int, t, w as int) as usize,
                    ),
            decreases w - attempts,
        {
            x = if x + 1 == w {
                0
            } else {
                x + 1
            };
            attempts += 1;
        }
        if self.has_column(x) {
            proof {
                assert forall|p: usize| p < w implies self.xs().contains(p) by {
                    let t: int = if p >= start {
                        p - start
                    } else {
                        p + w - start
                    };
                    assert(probe_position(start as int, t, w as int) == p);
                }
                lemma_all_positions_taken(self.xs(), w);
            }
            None
        } else {
            Some(x)
        }
    }

    /// Moves the column count towards what the traffic rate asks for:
    /// missing columns are added at random free positions, surplus columns
    /// are removed oldest first.
    pub fn update_density(&mut self)
        requires
            old(self).wf(),
        ensures
            final(self).wf(),
            final(self).same_signals(old(self)),
            ({
                let t = target_columns(old(self).traffic_rate_view(), old(self).width_view());
                let c0 = old(self).xs().len() as int;
                &&& final(self).xs().len() == density_count(c0, t, old(self).width_view() as int)
                &&& t > c0 ==> final(self).xs().subrange(0, c0) == old(self).xs()
                &&& t <= c0 ==> final(self).xs() == old(self).xs().subrange(c0 - t, c0)
                &&& density_applied(
                    old(self).columns_view(),
                    final(self).columns_view(),
                    t,
                    old(self).width_view(),
                    old(self).traffic_rate_view(),
                )
            }),
            final(self).particles_view().len() >= old(self).particles_view().len(),
            final(self).particles_view().subrange(0, old(self).particles_view().len() as int)
                == old(self).particles_view(),
    {
        let desired = calculate_column_count_from_traffic(self.traffic_rate, self.width);
        let current = self.columns.len();
        let ghost start = *self;
        proof {
            lemma_positions_bounded(self.xs(), self.width);
        }
        if desired > current {
            if self.width > 0 {
                let to_add = desired - current;
                let mut k: usize = 0;
                while k < to_add
                    invariant
                        k <= to_add,
                        to_add == desired - current,
                        current == start.xs().len(),
                        current <= self.width_view(),
                        self.wf(),
                        self.same_signals(&start),
                        self.width_view() > 0,
                        self.xs().subrange(0, current as int) == start.xs(),
                        self.columns_view().len() == self.xs().len(),
                        self.columns_view().subrange(0, current as int) == start.columns_view(),
                        forall|i: int|
                            current <= i < self.columns_view().len() ==> fresh_column(
                                #[trigger] self.columns_view()[i],
                                start.traffic_rate_view(),
                            ),
                        self.particles_view().len() >= start.particles_view().len(),
                        self.particles_view().subrange(0, start.particles_view().len() as int)
                            == start.particles_view(),
                        self.xs().len() == (if current + k < self.width_view() {
                            current + k
                        } else {
                            self.width_view() as int
                        }),
                    decreases to_add - k,
                {
                    let x0 = random_in(0, self.width as u64) as usize;
                    proof {
                        lemma_positions_bounded(self.xs(), self.width);
                    }
                    match self.free_position_from(x0) {
                        Some(x) => {
                            let ghost before = *self;
                            self.add_column(x);
                            proof {
                                lemma_positions_bounded(self.xs(), self.width);
                            }
                            assert(self.xs() == before.xs().push(x));
                            assert(self.xs().subrange(0, current as int) =~= before.xs().subrange(
                                0,
                                current as int,
                            ));
                            let ghost bc = before.columns_view();
                            assert(self.columns_view().subrange(0, current as int)
                                =~= bc.subrange(0, current as int));
                            assert forall|i: int|
                                current <= i < self.columns_view().len() implies fresh_column(
                                #[trigger] self.columns_view()[i],
                                start.traffic_rate_view(),
                            ) by {
                                if i < bc.len() {
                                    assert(self.columns_view().subrange(0, bc.len() as int)[i]
                                        == bc[i]);
                                }
                            }
                            let ghost bp = before.particles_view();
                            assert(self.particles_view().subrange(
                                0,
                                start.particles_view().len() as int,
                            ) =~= bp.subrange(0, start.particles_view().len() as int));
                        },
                        None => {},
                    }
                    k += 1;
                }
            } else {
                assert(self.columns_view().subrange(0, current as int) =~= self.columns_view());
                assert(self.xs().subrange(0, current as int) =~= self.xs());
            }
            assert(self.particles_view().subrange(0, start.particles_view().len() as int)
                =~= start.particles_view());
        } else if desired < current {
            let surplus = current - desired;
            let ghost before = self.columns@;
            let kept = self.columns.split_off(surplus);
            self.columns = kept;
            proof {
                assert(self.columns_view() =~= before.subrange(surplus as int, current as int));
                assert(self.particles_view().subrange(0, self.particles_view().len() as int)
                    =~= self.particles_view());
                assert(self.xs() =~= start.xs().subrange(surplus as int, current as int));
                assert forall|i: int, j: int|
                    0 <= i < self.xs().len() && 0 <= j < self.xs().len() && i != j implies self.xs()[i]
                    != self.xs()[j] by {
                    assert(self.xs()[i] == start.xs()[i + surplus]);
                    assert(self.xs()[j] == start.xs()[j + surplus]);
                }
            }
        } else {
            assert(self.xs().subrange(0, current as int) =~= self.xs());
            assert(self.columns_view().subrange(0, current as int) =~= self.columns_view());
            assert(self.columns_view().subrange(0, current as int) =~= self.columns_view());
            assert(self.particles_view().subrange(0, self.particles_view().len() as int)
                =~= self.particles_view());
        }
    }

    /// Advances the demo generator: it drives the traffic rate round its
    /// 20-second cycle and holds the threat look during the threat phase.
    fn update_demo(&mut self, dt: u32)
        requires
            old(self).wf(),
        ensures
            final(self).wf(),
            final(self).demo_timer_view() == (if old(self).demo_timer_view() as int + dt as int
                > u64::MAX {
                u64::MAX
            } else {
                (old(self).demo_timer_view() + dt) as u64
            }),
            final(self).traffic_rate_view() == demo_traffic(final(self).demo_timer_view()),
            final(self).threat_active_view() == (final(self).demo_timer_view() % 20000 >= 16000),
            final(self).xs() == old(self).xs(),
            final(self).columns_view() == respeeded(
                old(self).columns_view(),
                final(self).traffic_rate_view(),
            ),
            final(self).particles_view() == old(self).particles_view(),
            final(self).width_view() == old(self).width_view(),
            final(self).height_view() == old(self).height_view(),
            final(self).demo_mode_view() == old(self).demo_mode_view(),
    {
        let ghost cols0 = self.columns@;
        self.demo_timer = self.demo_timer.saturating_add(dt as u64);
        let t = self.demo_timer;
        let sec = (t % 20000) / 1000;
        let w = wave((t % 6283) * 20);
        let traffic: u64 = if sec <= 5 {
            ((100_000 + 50 * w) as u64) / 1000
        } else if sec <= 10 {
            ((500_000 + 200 * w) as u64) / 1000
        } else if sec <= 15 {
            ((1_000_000 + 300 * w) as u64) / 1000
        } else {
            self.set_threat_active(true);
            2000
        };
        self.set_traffic_rate(traffic);
        assert(self.columns@ =~= respeeded(cols0, traffic));
        if t % 20000 < 16000 {
            self.set_threat_active(false);
        }
    }

    /// Advances the animation by `dt` milliseconds: the demo generator (if
    /// on), the effect timers, every column (columns left without glyphs
    /// are removed), the particles, and then the column density.
    pub fn update(&mut self, dt: u32)
        requires
            old(self).wf(),
        ensures
            final(self).wf(),
            final(self).width_view() == old(self).width_view(),
            final(self).height_view() == old(self).height_view(),
            final(self).demo_mode_view() == old(self).demo_mode_view(),
            !old(self).demo_mode_view() ==> {
                &&& final(self).traffic_rate_view() == old(self).traffic_rate_view()
                &&& final(self).threat_active_view() == old(self).threat_active_view()
                &&& final(self).visual_mode_view() == old(self).visual_mode_view()
                &&& final(self).threat_pulse_view() == sub_floor(
                    old(self).threat_pulse_view(),
                    2 * dt,
                )
                &&& final(self).screen_flash_view() == sub_floor(
                    old(self).screen_flash_view(),
                    3 * dt,
                )
                &&& final(self).glitch_timer_view() == sub_floor(
                    old(self).glitch_timer_view(),
                    dt as int,
                )
                &&& final(self).rainbow_offset_view() == (old(self).rainbow_offset_view() as int
                    + 50 * dt) % 360_000
            },
            exists|k: int|
                0 <= k <= old(self).xs().len() && final(self).xs().len() == density_count(
                    k,
                    target_columns(final(self).traffic_rate_view(), final(self).width_view()),
                    final(self).width_view() as int,
                ),
            ({
                let pre = columns_before_step(
                    old(self).columns_view(),
                    old(self).demo_mode_view(),
                    final(self).traffic_rate_view(),
                );
                exists|mid: Seq<RainColumn>|
                    #[trigger] columns_stepped(
                        pre,
                        mid,
                        dt,
                        final(self).visual_mode_view(),
                        old(self).height_view(),
                    ) && density_applied(
                        nonempty_columns(mid),
                        final(self).columns_view(),
                        target_columns(final(self).traffic_rate_view(), final(self).width_view()),
                        final(self).width_view(),
                        final(self).traffic_rate_view(),
                    )
            }),
            ({
                let live = live_particles(old(self).particles_view(), dt);
                &&& final(self).particles_view().len() >= live.len()
                &&& final(self).particles_view().subrange(0, live.len() as int) == live
            }),
    {
        let ghost old_particles = self.particles@;
        if self.demo_mode {
            self.update_demo(dt);
        }
        let ghost pre = self.columns@;
        assert(pre == columns_before_step(
            old(self).columns_view(),
            old(self).demo_mode_view(),
            self.traffic_rate,
        ));
        self.threat_pulse = self.threat_pulse.saturating_sub(2 * dt as u64);
        self.screen_flash = self.screen_flash.saturating_sub(3 * dt as u64);
        self.global_glitch_timer = self.global_glitch_timer.saturating_sub(dt as u64);
        self.rainbow_offset = ((self.rainbow_offset as u128 + 50 * dt as u128) % 360_000) as u64;
        let glitch_active = self.global_glitch_timer > 0;
        let mode = self.visual_mode;
        assert(self.particles@ == old_particles);
        let height = self.height;
        let width = self.width;
        let mut rest: Vec<RainColumn> = Vec::new();
        std::mem::swap(&mut rest, &mut self.columns);
        let ghost before = rest@;
        let n0 = rest.len();
        let mut kept: Vec<RainColumn> = Vec::new();
        let mut i: usize = 0;
        let ghost mut mid: Seq<RainColumn> = Seq::empty();
        while rest.len() > 0
            invariant
                i <= before.len(),
                before.len() == n0,
                mid.len() == i,
                forall|k: int| 0 <= k < i ==> steps_to(before[k], #[trigger] mid[k], dt, mode, height),
                kept@ == nonempty_columns(mid),
                rest@ == before.subrange(i as int, before.len() as int),
                positions(before).no_duplicates(),
                forall|j: int| 0 <= j < before.len() ==> positions(before)[j] < width,
                kept@.len() <= i,
                positions(kept@).no_duplicates(),
                forall|k: int|
                    0 <= k < kept@.len() ==> (#[trigger] kept@[k]).x < width && exists|j: int|
                        0 <= j < i && before[j].x == kept@[k].x,
            decreases rest@.len(),
        {
            let ghost kept_before = kept@;
            let mut c = rest.remove(0);
            assert(c == before[i as int]);
            assert(positions(before)[i as int] == c.x);
            advance_column(&mut c, dt, mode, glitch_active, height);
            let ghost mid_before = mid;
            proof {
                mid = mid.push(c);
                assert(mid.drop_last() =~= mid_before);
            }
            if c.chars.len() > 0 {
                let cx = c.x;
                proof {
                    assert forall|k: int| 0 <= k < kept_before.len() implies kept_before[k].x
                        != cx by {
                        let j = choose|j: int| 0 <= j < i && before[j].x == kept_before[k].x;
                        assert(positions(before)[j] == kept_before[k].x);
                    }
                }
                kept.push(c);
                proof {
                    assert(kept@ =~= nonempty_columns(mid));
                    assert(positions(kept@) =~= positions(kept_before).push(cx));
                    assert forall|a: int, b: int|
                        0 <= a < positions(kept@).len() && 0 <= b < positions(kept@).len() && a
                            != b implies positions(kept@)[a] != positions(kept@)[b] by {
                        if a < kept_before.len() && b < kept_before.len() {
                            assert(positions(kept_before)[a] == positions(kept@)[a]);
                            assert(positions(kept_before)[b] == positions(kept@)[b]);
                        } else if a < kept_before.len() {
                            assert(positions(kept@)[a] == kept_before[a].x);
                        } else {
                            assert(positions(kept@)[b] == kept_before[b].x);
                        }
                    }
                    assert forall|k: int| 0 <= k < kept@.len() implies (#[trigger] kept@[k]).x
                        < width && exists|j: int| 0 <= j < i + 1 && before[j].x == kept@[k].x by {
                        if k < kept_before.len() {
                            assert(kept@[k] == kept_before[k]);
                        } else {
                            assert(before[i as int].x == kept@[k].x);
                        }
                    }
                }
            }
            proof {
                assert forall|k: int| 0 <= k < i + 1 implies steps_to(
                    before[k],
                    #[trigger] mid[k],
                    dt,
                    mode,
                    height,
                ) by {
                    if k < i {
                        assert(mid[k] == mid_before[k]);
                    }
                }
            }
            i += 1;
            assert(rest@ =~= before.subrange(i as int, before.len() as int));
        }
        assert(columns_stepped(before, mid, dt, mode, height));
        self.columns = kept;
        assert forall|j: int| 0 <= j < self.xs().len() implies self.xs()[j] < self.width by {
            assert(self.columns@[j].x < width);
        }
        let mut sparks: Vec<Particle> = Vec::new();
        std::mem::swap(&mut sparks, &mut self.particles);
        let ghost all = sparks@;
        let np = sparks.len();
        let mut live: Vec<Particle> = Vec::new();
        let mut done: usize = 0;
        while sparks.len() > 0
            invariant
                np == all.len(),
                done <= np,
                sparks@ == all.subrange(done as int, np as int),
                live@ == live_particles(all.subrange(0, done as int), dt),
            decreases sparks@.len(),
        {
            let mut p = sparks.remove(0);
            assert(p == all[done as int]);
            advance_particle(&mut p, dt);
            proof {
                let part = all.subrange(0, done + 1);
                assert(part.drop_last() =~= all.subrange(0, done as int));
                assert(part.last() == all[done as int]);
            }
            if p.lifetime > 0 {
                live.push(p);
            }
            done += 1;
            assert(sparks@ =~= all.subrange(done as int, np as int));
        }
        assert(all.subrange(0, done as int) =~= all);
        self.particles = live;
        let ghost live_view = self.particles@;
        let ghost stepped_cols = self.columns@;
        self.update_density();
        proof {
            assert(self.particles@.subrange(0, live_view.len() as int) == live_view);
            assert(density_applied(
                stepped_cols,
                self.columns@,
                target_columns(self.traffic_rate, self.width),
                self.width,
                self.traffic_rate,
            ));
            assert(columns_stepped(before, mid, dt, self.visual_mode, self.height));
            assert(before == pre);
            assert(stepped_cols == nonempty_columns(mid));
            assert(columns_stepped(pre, mid, dt, self.visual_mode_view(), old(self).height_view())
                && density_applied(
                nonempty_columns(mid),
                self.columns_view(),
                target_columns(self.traffic_rate_view(), self.width_view()),
                self.width_view(),
                self.traffic_rate_view(),
            ));
        }
    }

    /// Removes the column at `x`, if there is one.
    pub fn remove_column(&mut self, x: usize)
        requires
            old(self).wf(),
        ensures
            final(self).wf(),
            final(self).xs() == without(old(self).xs(), x),
            final(self).width_view() == old(self).width_view(),
            final(self).height_view() == old(self).height_view(),
            final(self).traffic_rate_view() == old(self).traffic_rate_view(),
            final(self).particles_view() == old(self).particles_view(),
    {
        let mut rest: Vec<RainColumn> = Vec::new();
        std::mem::swap(&mut rest, &mut self.columns);
        let ghost before = rest@;
        let n0 = rest.len();
        assert(before.len() == n0);
        let mut kept: Vec<RainColumn> = Vec::new();
        let mut i: usize = 0;
        while rest.len() > 0
            invariant
                i <= before.len(),
                before.len() <= usize::MAX,
                rest@ == before.subrange(i as int, before.len() as int),
                positions(kept@) == without(positions(before.subrange(0, i as int)), x),
            decreases rest@.len(),
        {
            let ghost kept_before = kept@;
            let c = rest.remove(0);
            assert(c == before[i as int]);
            let cx = c.x;
            if cx != x {
                kept.push(c);
                assert(positions(kept@) =~= positions(kept_before).push(cx));
            }
            proof {
                let cur = positions(before.subrange(0, i + 1));
                assert(cur.last() == cx);
                assert(cur.drop_last() =~= positions(before.subrange(0, i as int)));
                assert(without(cur, x) == if cur.last() == x {
                    without(cur.drop_last(), x)
                } else {
                    without(cur.drop_last(), x).push(cur.last())
                });
                assert(positions(kept@) =~= without(cur, x));
            }
            i += 1;
            assert(rest@ =~= before.subrange(i as int, before.len() as int));
        }
        proof {
            assert(before.subrange(0, i as int) =~= before);
            lemma_without(positions(before), x);
            let ys = without(positions(before), x);
            assert forall|j: int| 0 <= j < ys.len() implies ys[j] < self.width by {
                assert(ys.contains(ys[j]));
                assert(positions(before).contains(ys[j]));
            }
        }
        self.columns = kept;
    }
}

/// Positions after adding columns at each of `adds` in turn.
pub open spec fn with_columns(xs: Seq<usize>, adds: Seq<usize>, width: usize) -> Seq<usize>
    decreases adds.len(),
{
    if adds.len() == 0 {
        xs
    } else {
        with_column(with_columns(xs, adds.drop_last(), width), adds.last(), width)
    }
}

/// Adding a column twice at one position is the same as adding it once.
pub proof fn lemma_add_column_idempotent(xs: Seq<usize>, x: usize, width: usize)
    ensures
        with_column(with_column(xs, x, width), x, width) == with_column(xs, x, width),
{
    if x < width && !xs.contains(x) {
        assert(xs.push(x)[xs.len() as int] == x);
    }
}

/// Adding a column at or beyond the width changes nothing.
pub proof fn lemma_add_column_out_of_range(xs: Seq<usize>, x: usize, width: usize)
    requires
        x >= width,
    ensures
        with_column(xs, x, width) == xs,
{
}

/// Adding columns at distinct, free, in-range positions adds one column
/// each.
pub proof fn lemma_distinct_adds_count(xs: Seq<usize>, adds: Seq<usize>, width: usize)
    requires
        adds.no_duplicates(),
        forall|i: int| 0 <= i < adds.len() ==> adds[i] < width && !xs.contains(adds[i]),
    ensures
        with_columns(xs, adds, width).len() == xs.len() + adds.len(),
        forall|y: usize|
            with_columns(xs, adds, width).contains(y) <==> (xs.contains(y) || adds.contains(y)),
    decreases adds.len(),
{
    if adds.len() > 0 {
        let front = adds.drop_last();
        assert forall|i: int| 0 <= i < front.len() implies front[i] < width && !xs.contains(
            front[i],
        ) by {
            assert(front[i] == adds[i]);
        }
        assert(front.no_duplicates());
        lemma_distinct_adds_count(xs, front, width);
        let x = adds.last();
        assert(!front.contains(x));
        let prev = with_columns(xs, front, width);
        assert(!prev.contains(x));
        assert(with_columns(xs, adds, width) == prev.push(x));
        assert forall|y: usize|
            with_columns(xs, adds, width).contains(y) <==> (xs.contains(y) || adds.contains(
                y,
            )) by {
            let now = prev.push(x);
            if now.contains(y) {
                let i = choose|i: int| 0 <= i < now.len() && now[i] == y;
                if i < prev.len() {
                    assert(prev[i] == y);
                    assert(prev.contains(y));
                    if front.contains(y) {
                        let j = choose|j: int| 0 <= j < front.len() && front[j] == y;
                        assert(adds[j] == y);
                    }
                } else {
                    assert(adds[adds.len() - 1] == y);
                }
            }
            if xs.contains(y) || adds.contains(y) {
                if adds.contains(y) && !xs.contains(y) {
                    let i = choose|i: int| 0 <= i < adds.len() && adds[i] == y;
                    if i < adds.len() - 1 {
                        assert(front[i] == y);
                        assert(prev.contains(y));
                        let j = choose|j: int| 0 <= j < prev.len() && prev[j] == y;
                        assert(now[j] == y);
                    } else {
                        assert(now[prev.len() as int] == y);
                    }
                } else {
                    assert(prev.contains(y));
                    let j = choose|j: int| 0 <= j < prev.len() && prev[j] == y;
                    assert(now[j] == y);
                }
            }
        }
    }
}

/// A larger traffic rate never asks for fewer columns.
pub proof fn lemma_target_monotone(r1: u64, r2: u64, width: usize)
    requires
        r1 <= r2,
    ensures
        target_columns(r1, width) <= target_columns(r2, width),
{
    let a: int = if r1 > 1000 {
        1000
    } else {
        r1 as int
    };
    let b: int = if r2 > 1000 {
        1000
    } else {
        r2 as int
    };
    let w = width as int;
    assert(a * w <= b * w) by (nonlinear_arith)
        requires
            0 <= a <= b,
            0 <= w,
    ;
    assert(a * w / 1000 <= b * w / 1000) by (nonlinear_arith)
        requires
            0 <= a * w <= b * w,
    ;
}

/// Density regulation never leaves more columns than the width, and after
/// the traffic rate rises a second regulation never lowers the count.
pub proof fn lemma_density_never_drops(count: usize, width: usize, r1: u64, r2: u64)
    requires
        count <= width,
        r1 <= r2,
    ensures
        ({
            let c1 = density_count(count as int, target_columns(r1, width), width as int);
            let c2 = density_count(c1, target_columns(r2, width), width as int);
            &&& c1 <= width
            &&& c2 <= width
            &&& c1 <= c2
        }),
{
    lemma_target_monotone(r1, r2, width);
    let t1 = target_columns(r1, width);
    let t2 = target_columns(r2, width);
    assert(t2 <= width || width == 0) by {
        let b: int = if r2 > 1000 {
            1000
        } else {
            r2 as int
        };
        assert(b * width <= 1000 * width) by (nonlinear_arith)
            requires
                b <= 1000,
                width >= 0,
        ;
    }
    assert(t1 <= width || width == 0) by {
        let a: int = if r1 > 1000 {
            1000
        } else {
            r1 as int
        };
        assert(a * width <= 1000 * width) by (nonlinear_arith)
            requires
                a <= 1000,
                width >= 0,
        ;
    }
}

/// A well-formed rain never has more columns than its width.
pub proof fn lemma_count_within_width(rain: &MatrixRain)
    requires
        rain.wf(),
    ensures
        rain.xs().len() <= rain.width_view(),
{
    lemma_positions_bounded(rain.xs(), rain.width_view());
}

/// The glyphs kept by `visible` are glyphs of its input that lie inside the
/// area and have not faded out.
pub proof fn lemma_visible_members(gs: Seq<(u64, u64)>, height: usize)
    ensures
        visible(gs, height).len() <= gs.len(),
        forall|i: int|
            0 <= i < visible(gs, height).len() ==> gs.contains(#[trigger] visible(gs, height)[i])
                && visible(gs, height)[i].0 < height as int * 1000 && visible(gs, height)[i].1
                > 0,
    decreases gs.len(),
{
    if gs.len() > 0 {
        let rest = gs.drop_last();
        lemma_visible_members(rest, height);
        assert forall|i: int| 0 <= i < visible(gs, height).len() implies gs.contains(
            #[trigger] visible(gs, height)[i],
        ) && visible(gs, height)[i].0 < height as int * 1000 && visible(gs, height)[i].1 > 0 by {
            let v = visible(gs, height)[i];
            if i < visible(rest, height).len() {
                assert(v == visible(rest, height)[i]);
                assert(rest.contains(v));
                let k = choose|k: int| 0 <= k < rest.len() && rest[k] == v;
                assert(gs[k] == v);
            } else {
                assert(v == gs.last());
                assert(gs[gs.len() - 1] == v);
            }
        }
    }
}

/// After one step every glyph of a column lies inside the area and is lit
/// at most fully, provided the glyphs before the step were lit at most
/// fully: fading never brightens and a new head starts at full intensity.
pub proof fn lemma_step_keeps_glyphs_in_range(
    before: RainColumn,
    after: RainColumn,
    dt: u32,
    mode: VisualMode,
    height: usize,
)
    requires
        steps_to(before, after, dt, mode, height),
        forall|j: int| 0 <= j < before.chars@.len() ==> (#[trigger] before.chars@[j]).intensity <= 1000,
        trails_bounded(before.chars@),
    ensures
        after.chars@.len() <= before.chars@.len() + 1,
        forall|j: int|
            0 <= j < after.chars@.len() ==> {
                &&& (#[trigger] after.chars@[j]).y < height as int * 1000
                &&& 0 < after.chars@[j].intensity <= 1000
                &&& trail_bounded(after.chars@[j])
            },
{
    let m = speed_modifier(mode, after.pulse_timer) as u64;
    let gs = glyph_states(before.chars@);
    let stepped = stepped_column(gs, before.fall_speed, dt, m);
    let moved = gs.map_values(|g: (u64, u64)| stepped_glyph(g, before.fall_speed, dt, m));
    lemma_visible_members(stepped, height);
    assert(glyph_states(after.chars@).len() == after.chars@.len());
    assert forall|j: int| 0 <= j < after.chars@.len() implies {
        &&& (#[trigger] after.chars@[j]).y < height as int * 1000
        &&& 0 < after.chars@[j].intensity <= 1000
        &&& trail_bounded(after.chars@[j])
    } by {
        let v = visible(stepped, height)[j];
        assert(glyph_states(after.chars@)[j] == v);
        assert(stepped.contains(v));
        let k = choose|k: int| 0 <= k < stepped.len() && stepped[k] == v;
        if moved.len() > 0 && moved[0].0 > 1500 {
            if k > 0 {
                assert(v == moved[k - 1]);
                assert(before.chars@[k - 1].intensity <= 1000);
            }
        } else {
            assert(v == moved[k]);
            assert(before.chars@[k].intensity <= 1000);
        }
    }
}

} // verus!
