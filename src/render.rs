//! The renderer: a pure mapping from the rain's state to terminal cell
//! writes, in drawing order.
use vstd::prelude::*;

use crate::matrix_rain::{
    random_matrix_char, wave, wave_spec, MatrixChar, MatrixRain, Particle, RainColumn, Rgb,
    VisualMode,
};
use crate::random::random_chance;

verus! {

/// One cell to draw: a glyph in a colour.
#[derive(Debug, Clone, Copy, PartialEq, Eq, Structural)]
pub struct CellWrite {
    pub x: u16,
    pub y: u16,
    pub glyph: char,
    pub color: Rgb,
}

/// `v` in thousandths scaled to a colour level, `v * 255 / 1000`, held at 255.
pub open spec fn level(v: int) -> u8 {
    if v <= 0 {
        0
    } else if v * 255 / 1000 > 255 {
        255
    } else {
        (v * 255 / 1000) as u8
    }
}

fn level_of(v: u64) -> (r: u8)
    ensures
        r == level(v as int),
{
    if v == 0 {
        0
    } else if v >= 1000 {
        assert(v as int * 255 / 1000 >= 255) by (nonlinear_arith)
            requires
                v >= 1000,
        ;
        255
    } else {
        assert(v as int * 255 / 1000 <= 255) by (nonlinear_arith)
            requires
                v < 1000,
        ;
        (v * 255 / 1000) as u8
    }
}

/// HSV to RGB with hue, saturation and value in thousandths (hue a
/// fraction of the full circle).
pub open spec fn hsv_spec(h: u64, s: u64, v: u64) -> Rgb {
    let hh = if h >= 1000 {
        999
    } else {
        h as int
    };
    let ss = if s > 1000 {
        1000
    } else {
        s as int
    };
    let vv = if v > 1000 {
        1000
    } else {
        v as int
    };
    let c = vv * ss / 1000;
    let h6 = hh * 6;
    let t = h6 % 2000;
    let dist = if t >= 1000 {
        t - 1000
    } else {
        1000 - t
    };
    let x = c * (1000 - dist) / 1000;
    let m = vv - c;
    let sector = h6 / 1000;
    let (r, g, b) = if sector == 0 {
        (c, x, 0)
    } else if sector == 1 {
        (x, c, 0)
    } else if sector == 2 {
        (0, c, x)
    } else if sector == 3 {
        (0, x, c)
    } else if sector == 4 {
        (x, 0, c)
    } else {
        (c, 0, x)
    };
    Rgb(level(r + m), level(g + m), level(b + m))
}

/// Converts a colour from hue, saturation and value to red, green, blue.
pub fn hsv_to_rgb(h: u64, s: u64, v: u64) -> (r: Rgb)
    ensures
        r == hsv_spec(h, s, v),
{
    let hh: u64 = if h >= 1000 {
        999
    } else {
        h
    };
    let ss: u64 = if s > 1000 {
        1000
    } else {
        s
    };
    let vv: u64 = if v > 1000 {
        1000
    } else {
        v
    };
    assert(vv * ss <= 1_000_000) by (nonlinear_arith)
        requires
            vv <= 1000,
            ss <= 1000,
    ;
    let c = vv * ss / 1000;
    assert(c <= vv) by (nonlinear_arith)
        requires
            c == vv * ss / 1000,
            ss <= 1000,
    ;
    let h6 = hh * 6;
    let t = h6 % 2000;
    let dist = if t >= 1000 {
        t - 1000
    } else {
        1000 - t
    };
    assert(c * (1000 - dist) <= 1_000_000) by (nonlinear_arith)
        requires
            c <= 1000,
            dist <= 1000,
    ;
    let x = c * (1000 - dist) / 1000;
    let m = vv - c;
    let sector = h6 / 1000;
    let (r, g, b): (u64, u64, u64) = if sector == 0 {
        (c, x, 0)
    } else if sector == 1 {
        (x, c, 0)
    } else if sector == 2 {
        (0, c, x)
    } else if sector == 3 {
        (0, x, c)
    } else if sector == 4 {
        (x, 0, c)
    } else {
        (c, 0, x)
    };
    Rgb(level_of(r + m), level_of(g + m), level_of(b + m))
}

/// The hue (thousandths of a turn) for a phase in thousandths of a degree.
pub open spec fn hue_of(phase: u64) -> u64 {
    ((phase % 360_000) / 360) as u64
}

/// The colour of a head glyph, for the looks that do not draw at random.
pub open spec fn character_color_spec(
    intensity: u64,
    z_depth: u64,
    mode: VisualMode,
    phase: u64,
    pulse_timer: u64,
) -> Rgb {
    let z = if z_depth > 1000 {
        1000
    } else {
        z_depth as int
    };
    let i = if intensity > 1000 {
        1000
    } else {
        intensity as int
    };
    if mode == VisualMode::Rainbow {
        hsv_spec(hue_of(phase), 1000, intensity)
    } else if mode == VisualMode::Pulse {
        let pulse = (wave_spec(pulse_timer) + 1000) / 2;
        Rgb(0, (100 + 155 * i * pulse / 1_000_000) as u8, 0)
    } else {
        let green_base = 200 * (500 + z / 2) / 1000;
        if intensity > 900 {
            Rgb(220, 255, 220)
        } else if intensity > 700 {
            Rgb(150, 255, 150)
        } else if intensity > 400 {
            Rgb(0, (green_base + 55) as u8, 0)
        } else {
            Rgb(0, green_base as u8, 0)
        }
    }
}

/// The colour of a head glyph: a green ramp by intensity and depth in the
/// Matrix and normal looks, a hue cycle in the rainbow look, a sinusoidal
/// green in the pulse look, and random magenta, cyan or green glitches.
pub fn calculate_character_color(
    intensity: u64,
    z_depth: u64,
    mode: VisualMode,
    phase: u64,
    pulse_timer: u64,
) -> (r: Rgb)
    ensures
        mode != VisualMode::Glitch ==> r == character_color_spec(
            intensity,
            z_depth,
            mode,
            phase,
            pulse_timer,
        ),
        mode == VisualMode::Glitch ==> r == Rgb(255, 0, 255) || r == Rgb(0, 255, 255) || r == Rgb(
            0,
            255,
            0,
        ),
{
    let z: u64 = if z_depth > 1000 {
        1000
    } else {
        z_depth
    };
    let i: u64 = if intensity > 1000 {
        1000
    } else {
        intensity
    };
    match mode {
        VisualMode::Rainbow => hsv_to_rgb((phase % 360_000) / 360, 1000, intensity),
        VisualMode::Glitch => {
            if random_chance(1, 10) {
                Rgb(255, 0, 255)
            } else if random_chance(1, 10) {
                Rgb(0, 255, 255)
            } else {
                Rgb(0, 255, 0)
            }
        },
        VisualMode::Pulse => {
            let w = wave(pulse_timer);
            let pulse = ((w + 1000) / 2) as u64;
            assert(155 * i * pulse <= 155 * 1_000_000) by (nonlinear_arith)
                requires
                    i <= 1000,
                    pulse <= 1000,
            ;
            Rgb(0, (100 + 155 * i * pulse / 1_000_000) as u8, 0)
        },
        _ => {
            let green_base = 200 * (500 + z / 2) / 1000;
            if intensity > 900 {
                Rgb(220, 255, 220)
            } else if intensity > 700 {
                Rgb(150, 255, 150)
            } else if intensity > 400 {
                Rgb(0, (green_base + 55) as u8, 0)
            } else {
                Rgb(0, green_base as u8, 0)
            }
        },
    }
}

/// The colour of a trail cell: a dim green by intensity and depth in the
/// Matrix and normal looks, a paler hue cycle in the rainbow look, a plain
/// dim green otherwise.
pub open spec fn trail_color_spec(intensity: u64, z_depth: u64, mode: VisualMode, phase: u64) -> Rgb {
    let z = if z_depth > 1000 {
        1000
    } else {
        z_depth as int
    };
    let i = if intensity > 1000 {
        1000
    } else {
        intensity as int
    };
    if mode == VisualMode::Normal || mode == VisualMode::Matrix {
        Rgb(0, (80 * i * (300 + z * 7 / 10) / 1_000_000) as u8, 0)
    } else if mode == VisualMode::Rainbow {
        hsv_spec(hue_of(phase), 800, (i / 2) as u64)
    } else {
        Rgb(0, (50 * i / 1000) as u8, 0)
    }
}

/// The colour of a trail cell.
pub fn calculate_trail_color(intensity: u64, z_depth: u64, mode: VisualMode, phase: u64) -> (r: Rgb)
    ensures
        r == trail_color_spec(intensity, z_depth, mode, phase),
{
    let z: u64 = if z_depth > 1000 {
        1000
    } else {
        z_depth
    };
    let i: u64 = if intensity > 1000 {
        1000
    } else {
        intensity
    };
    match mode {
        VisualMode::Normal | VisualMode::Matrix => {
            assert(80 * i * (300 + z * 7 / 10) <= 80 * 1000 * 1000) by (nonlinear_arith)
                requires
                    i <= 1000,
                    z <= 1000,
            ;
            Rgb(0, (80 * i * (300 + z * 7 / 10) / 1_000_000) as u8, 0)
        },
        VisualMode::Rainbow => hsv_to_rgb((phase % 360_000) / 360, 800, i / 2),
        _ => Rgb(0, (50 * i / 1000) as u8, 0),
    }
}

/// The whole cell for a position in thousandths, held within `u16`.
pub open spec fn cell_of(milli: u64) -> u16 {
    if milli / 1000 > u16::MAX as int {
        u16::MAX
    } else {
        (milli / 1000) as u16
    }
}

fn cell_of_exec(milli: u64) -> (r: u16)
    ensures
        r == cell_of(milli),
{
    if milli / 1000 > u16::MAX as u64 {
        u16::MAX
    } else {
        (milli / 1000) as u16
    }
}

/// The whole cell for a particle coordinate in millionths; negative
/// coordinates give cell 0.
pub open spec fn particle_cell_of(micro: i64) -> u16 {
    if micro <= 0 {
        0
    } else if micro / 1_000_000 > u16::MAX as int {
        u16::MAX
    } else {
        (micro / 1_000_000) as u16
    }
}

fn particle_cell_exec(micro: i64) -> (r: u16)
    ensures
        r == particle_cell_of(micro),
{
    if micro <= 0 {
        0
    } else {
        let m = micro as u64 / 1_000_000;
        if m > u16::MAX as u64 {
            u16::MAX
        } else {
            m as u16
        }
    }
}

/// A colour dimmed to `alpha` thousandths (at most full).
pub open spec fn dimmed(c: Rgb, alpha: i64) -> Rgb {
    let a = if alpha > 1000 {
        1000
    } else if alpha < 0 {
        0
    } else {
        alpha as int
    };
    Rgb((c.0 * a / 1000) as u8, (c.1 * a / 1000) as u8, (c.2 * a / 1000) as u8)
}

/// The cell a particle draws, if it lies within a `width` by `height` area:
/// its glyph in its colour dimmed by its remaining lifetime.
pub open spec fn particle_cell_spec(p: Particle, width: u16, height: u16) -> Option<CellWrite> {
    let x = particle_cell_of(p.x);
    let y = particle_cell_of(p.y);
    if x < width && y < height {
        Some(CellWrite { x, y, glyph: p.char, color: dimmed(p.color, p.lifetime) })
    } else {
        None
    }
}

/// The cell a particle draws, if any.
pub fn particle_cell(p: &Particle, width: u16, height: u16) -> (r: Option<CellWrite>)
    ensures
        r == particle_cell_spec(*p, width, height),
{
    let x = particle_cell_exec(p.x);
    let y = particle_cell_exec(p.y);
    if x < width && y < height {
        let a: u64 = if p.lifetime > 1000 {
            1000
        } else if p.lifetime < 0 {
            0
        } else {
            p.lifetime as u64
        };
        let c = p.color;
        assert(c.0 as int * a as int / 1000 <= 255) by (nonlinear_arith)
            requires
                c.0 <= 255,
                a <= 1000,
        ;
        assert(c.1 as int * a as int / 1000 <= 255) by (nonlinear_arith)
            requires
                c.1 <= 255,
                a <= 1000,
        ;
        assert(c.2 as int * a as int / 1000 <= 255) by (nonlinear_arith)
            requires
                c.2 <= 255,
                a <= 1000,
        ;
        let color = Rgb(
            (c.0 as u64 * a / 1000) as u8,
            (c.1 as u64 * a / 1000) as u8,
            (c.2 as u64 * a / 1000) as u8,
        );
        Some(CellWrite { x, y, glyph: p.char, color })
    } else {
        None
    }
}

/// The colour phase of a cell: the rainbow offset shifted along x and y.
pub open spec fn cell_phase(rainbow_offset: u64, x: u16, y: u16) -> u64 {
    (rainbow_offset % 360_000 + x * 10_000 + y * 5_000) as u64
}

fn cell_phase_exec(rainbow_offset: u64, x: u16, y: u16) -> (r: u64)
    ensures
        r == cell_phase(rainbow_offset, x, y),
{
    rainbow_offset % 360_000 + x as u64 * 10_000 + y as u64 * 5_000
}

/// The indices of `cols` ordered by depth, farthest first; columns of equal
/// depth keep their order.
pub fn depth_order(cols: &Vec<RainColumn>) -> (r: Vec<usize>)
    ensures
        r@.len() == cols@.len(),
        forall|i: int| 0 <= i < r@.len() ==> (#[trigger] r@[i]) < cols@.len(),
        forall|i: int, j: int|
            0 <= i < j < r@.len() ==> cols@[r@[i] as int].z_depth <= cols@[r@[j] as int].z_depth,
        r@.no_duplicates(),
{
    let mut out: Vec<usize> = Vec::new();
    let mut n: usize = 0;
    while n < cols.len()
        invariant
            n <= cols@.len(),
            out@.len() == n,
            forall|i: int| 0 <= i < out@.len() ==> (#[trigger] out@[i]) < n,
            forall|i: int, j: int|
                0 <= i < j < out@.len() ==> cols@[out@[i] as int].z_depth <= cols@[out@[
                    j
                ] as int].z_depth,
            out@.no_duplicates(),
        decreases cols@.len() - n,
    {
        let z = cols[n].z_depth;
        let mut k: usize = 0;
        while k < out.len() && cols[out[k]].z_depth <= z
            invariant
                k <= out@.len(),
                forall|i: int| 0 <= i < out@.len() ==> (#[trigger] out@[i]) < n,
                n < cols@.len(),
                z == cols@[n as int].z_depth,
                forall|i: int| 0 <= i < k ==> cols@[out@[i] as int].z_depth <= z,
            decreases out@.len() - k,
        {
            k += 1;
        }
        proof {
            assert forall|i: int| k <= i < out@.len() implies cols@[out@[i] as int].z_depth > z by {
                if k < out@.len() {
                    assert(cols@[out@[k as int] as int].z_depth > z);
                    if i > k {
                        assert(cols@[out@[k as int] as int].z_depth <= cols@[out@[i] as int].z_depth);
                    }
                }
            }
        }
        let ghost before = out@;
        out.insert(k, n);
        proof {
            assert(out@ =~= before.insert(k as int, n));
            assert forall|i: int, j: int| 0 <= i < j < out@.len() implies cols@[out@[i] as int].z_depth
                <= cols@[out@[j] as int].z_depth by {
                if j < k {
                    assert(out@[i] == before[i] && out@[j] == before[j]);
                } else if j == k {
                    assert(out@[i] == before[i]);
                } else if i < k {
                    assert(out@[i] == before[i] && out@[j] == before[j - 1]);
                } else if i == k {
                    assert(out@[j] == before[j - 1]);
                } else {
                    assert(out@[i] == before[i - 1] && out@[j] == before[j - 1]);
                }
            }
            assert forall|i: int| 0 <= i < out@.len() implies (#[trigger] out@[i]) < n + 1 by {
                if i < k {
                    assert(out@[i] == before[i]);
                } else if i > k {
                    assert(out@[i] == before[i - 1]);
                }
            }
            assert forall|a: int, b: int| 0 <= a < b < out@.len() implies out@[a] != out@[b] by {
                if a < k && b < k {
                    assert(out@[a] == before[a] && out@[b] == before[b]);
                } else if a < k && b == k {
                    assert(out@[a] == before[a]);
                } else if a < k {
                    assert(out@[a] == before[a] && out@[b] == before[b - 1]);
                } else if a == k {
                    assert(out@[b] == before[b - 1]);
                } else {
                    assert(out@[a] == before[a - 1] && out@[b] == before[b - 1]);
                }
            }
        }
        n += 1;
    }
    out
}

impl MatrixRain {
    /// The background tint of the screen flash: red, fading from white as
    /// the flash ends; none once it has ended.
    pub fn flash_color(&self) -> (r: Option<Rgb>)
        ensures
            self.screen_flash_view() == 0 ==> r is None,
            self.screen_flash_view() > 0 ==> r == Some(
                Rgb(
                    255,
                    level(1000 - (if self.screen_flash_view() > 1000 {
                        1000
                    } else {
                        self.screen_flash_view() as int
                    })),
                    level(1000 - (if self.screen_flash_view() > 1000 {
                        1000
                    } else {
                        self.screen_flash_view() as int
                    })),
                ),
            ),
    {
        let f = self.screen_flash();
        if f == 0 {
            None
        } else {
            let capped: u64 = if f > 1000 {
                1000
            } else {
                f
            };
            let g = level_of(1000 - capped);
            Some(Rgb(255, g, g))
        }
    }

    /// The cells to draw in a `width` by `height` area, in drawing order:
    /// particles, then the columns from far to near, each glyph's trail
    /// from its far end and then the glyph itself. Every cell lies within
    /// the area, the particle cells come first, and every glyph whose cell
    /// lies within the area is drawn there.
    pub fn render_cells(&self, width: u16, height: u16) -> (r: Vec<CellWrite>)
        ensures
            forall|i: int| 0 <= i < r@.len() ==> (#[trigger] r@[i]).x < width && r@[i].y < height,
            ({
                let pc = particle_cells(self.particles_view(), width, height);
                r@.len() >= pc.len() && r@.subrange(0, pc.len() as int) == pc
            }),
            forall|q: int, j: int|
                0 <= q < self.columns_view().len() && 0 <= j < self.columns_view()[q].chars@.len()
                    && self.columns_view()[q].x < width && cell_of(
                    self.columns_view()[q].chars@[j].y,
                ) < height ==> #[trigger] shows(
                    r@,
                    self.columns_view()[q].x as u16,
                    cell_of(self.columns_view()[q].chars@[j].y),
                    self.columns_view()[q].chars@[j].value,
                    head_color(self.columns_view()[q], self.columns_view()[q].chars@[j], self.visual_mode_view(), self.rainbow_offset_view()),
                ),
    {
        let mut cells: Vec<CellWrite> = Vec::new();
        let particles = self.particles();
        let mut i: usize = 0;
        while i < particles.len()
            invariant
                i <= particles@.len(),
                cells@ == particle_cells(particles@.subrange(0, i as int), width, height),
                forall|k: int| 0 <= k < cells@.len() ==> (#[trigger] cells@[k]).x < width && cells@[k].y
                    < height,
            decreases particles@.len() - i,
        {
            proof {
                assert(particles@.subrange(0, i + 1).drop_last() =~= particles@.subrange(0, i as int));
            }
            match particle_cell(&particles[i], width, height) {
                Some(c) => cells.push(c),
                None => {},
            }
            i += 1;
        }
        assert(particles@.subrange(0, i as int) =~= particles@);
        let ghost pc = cells@;
        let cols = self.columns();
        let order = depth_order(cols);
        let ncols = cols.len();
        proof {
            lemma_covers_all(order@, ncols);
        }
        let mode = self.visual_mode();
        let offset = self.rainbow_offset();
        let mut n: usize = 0;
        while n < order.len()
            invariant
                n <= order@.len(),
                order@.len() == cols@.len(),
                forall|k: int| 0 <= k < order@.len() ==> (#[trigger] order@[k]) < cols@.len(),
                forall|k: int| 0 <= k < cells@.len() ==> (#[trigger] cells@[k]).x < width && cells@[k].y
                    < height,
                cells@.len() >= pc.len(),
                cells@.subrange(0, pc.len() as int) == pc,
                forall|m: int, j: int|
                    0 <= m < n && 0 <= j < cols@[order@[m] as int].chars@.len() && cols@[order@[
                        m
                    ] as int].x < width && cell_of(cols@[order@[m] as int].chars@[j].y) < height
                        ==> #[trigger] shows(
                        cells@,
                        cols@[order@[m] as int].x as u16,
                        cell_of(cols@[order@[m] as int].chars@[j].y),
                        cols@[order@[m] as int].chars@[j].value,
                        head_color(cols@[order@[m] as int], cols@[order@[m] as int].chars@[j], mode, offset),
                    ),
            decreases order@.len() - n,
        {
            let col = &cols[order[n]];
            let ghost before = cells@;
            self.draw_column(col, width, height, mode, offset, &mut cells);
            proof {
                assert(cells@.subrange(0, pc.len() as int) =~= before.subrange(0, pc.len() as int));
                assert forall|m: int, j: int|
                    0 <= m < n + 1 && 0 <= j < cols@[order@[m] as int].chars@.len() && cols@[order@[
                        m
                    ] as int].x < width && cell_of(cols@[order@[m] as int].chars@[j].y) < height
                        implies #[trigger] shows(
                        cells@,
                        cols@[order@[m] as int].x as u16,
                        cell_of(cols@[order@[m] as int].chars@[j].y),
                        cols@[order@[m] as int].chars@[j].value,
                        head_color(cols@[order@[m] as int], cols@[order@[m] as int].chars@[j], mode, offset),
                    ) by {
                    if m < n {
                        lemma_shows_grows(
                            before,
                            cells@,
                            cols@[order@[m] as int].x as u16,
                            cell_of(cols@[order@[m] as int].chars@[j].y),
                            cols@[order@[m] as int].chars@[j].value,
                            head_color(cols@[order@[m] as int], cols@[order@[m] as int].chars@[j], mode, offset),
                        );
                    }
                }
            }
            n += 1;
        }
        proof {
            assert forall|q: int, j: int|
                0 <= q < cols@.len() && 0 <= j < cols@[q].chars@.len() && cols@[q].x < width
                    && cell_of(cols@[q].chars@[j].y) < height implies #[trigger] shows(
                cells@,
                cols@[q].x as u16,
                cell_of(cols@[q].chars@[j].y),
                cols@[q].chars@[j].value,
                head_color(cols@[q], cols@[q].chars@[j], mode, offset),
            ) by {
                assert(order@.contains(q as usize));
                let m = choose|m: int| 0 <= m < order@.len() && order@[m] == q as usize;
                assert(cols@[order@[m] as int] == cols@[q]);
            }
        }
        cells
    }

    fn draw_column(
        &self,
        col: &RainColumn,
        width: u16,
        height: u16,
        mode: VisualMode,
        offset: u64,
        cells: &mut Vec<CellWrite>,
    )
        requires
            forall|k: int| 0 <= k < old(cells)@.len() ==> (#[trigger] old(cells)@[k]).x < width
                && old(cells)@[k].y < height,
        ensures
            forall|k: int| 0 <= k < final(cells)@.len() ==> (#[trigger] final(cells)@[k]).x < width
                && final(cells)@[k].y < height,
            final(cells)@.len() >= old(cells)@.len(),
            final(cells)@.subrange(0, old(cells)@.len() as int) == old(cells)@,
            forall|j: int|
                0 <= j < col.chars@.len() && col.x < width && cell_of(col.chars@[j].y) < height
                    ==> #[trigger] shows(
                    final(cells)@,
                    col.x as u16,
                    cell_of(col.chars@[j].y),
                    col.chars@[j].value,
                    head_color(*col, col.chars@[j], mode, offset),
                ),
    {
        let ghost start = cells@;
        if col.x >= width as usize {
            assert(cells@.subrange(0, start.len() as int) =~= start);
            return;
        }
        let x = col.x as u16;
        let mut c: usize = 0;
        while c < col.chars.len()
            invariant
                c <= col.chars@.len(),
                x < width,
                x == col.x,
                forall|k: int| 0 <= k < cells@.len() ==> (#[trigger] cells@[k]).x < width && cells@[k].y
                    < height,
                cells@.len() >= start.len(),
                cells@.subrange(0, start.len() as int) == start,
                forall|j: int|
                    0 <= j < c && cell_of(col.chars@[j].y) < height ==> #[trigger] shows(
                        cells@,
                        x,
                        cell_of(col.chars@[j].y),
                        col.chars@[j].value,
                        head_color(*col, col.chars@[j], mode, offset),
                    ),
            decreases col.chars@.len() - c,
        {
            let ch = &col.chars[c];
            let base_y = cell_of_exec(ch.y);
            let ghost at_glyph = cells@;
            let mut t: usize = 0;
            while t < ch.trail_intensity.len()
                invariant
                    t <= ch.trail_intensity@.len(),
                    x < width,
                    forall|k: int| 0 <= k < cells@.len() ==> (#[trigger] cells@[k]).x < width
                        && cells@[k].y < height,
                    cells@.len() >= at_glyph.len(),
                    cells@.subrange(0, at_glyph.len() as int) == at_glyph,
                decreases ch.trail_intensity@.len() - t,
            {
                let back: u16 = if t >= 65535 {
                    65535
                } else {
                    (t + 1) as u16
                };
                let trail_y = if base_y >= back {
                    base_y - back
                } else {
                    0
                };
                let strength = ch.trail_intensity[t];
                if trail_y < height && strength > 0 {
                    let glyph = if t == 0 {
                        ch.value
                    } else if random_chance(3, 10) {
                        random_matrix_char(col.character_set)
                    } else {
                        ch.value
                    };
                    let color = calculate_trail_color(
                        strength,
                        col.z_depth,
                        mode,
                        cell_phase_exec(offset, x, trail_y),
                    );
                    let ghost prev = cells@;
                    cells.push(CellWrite { x, y: trail_y, glyph, color });
                    assert(cells@.subrange(0, at_glyph.len() as int) =~= prev.subrange(
                        0,
                        at_glyph.len() as int,
                    ));
                }
                t += 1;
            }
            let ghost before_head = cells@;
            if base_y < height {
                let color = match ch.color_override {
                    Some(o) => o,
                    None => calculate_character_color(
                        ch.intensity,
                        col.z_depth,
                        mode,
                        cell_phase_exec(offset, x, base_y),
                        col.pulse_timer,
                    ),
                };
                cells.push(CellWrite { x, y: base_y, glyph: ch.value, color });
                assert(cells@[cells@.len() - 1].glyph == ch.value);
            }
            proof {
                assert(before_head.subrange(0, at_glyph.len() as int) == at_glyph);
                assert(cells@.subrange(0, at_glyph.len() as int) =~= before_head.subrange(
                    0,
                    at_glyph.len() as int,
                ));
                assert(cells@.subrange(0, start.len() as int) =~= before_head.subrange(
                    0,
                    start.len() as int,
                ));
                assert(before_head.subrange(0, start.len() as int) =~= at_glyph.subrange(
                    0,
                    start.len() as int,
                ));
                assert forall|j: int|
                    0 <= j < c + 1 && cell_of(col.chars@[j].y) < height implies #[trigger] shows(
                        cells@,
                        x,
                        cell_of(col.chars@[j].y),
                        col.chars@[j].value,
                        head_color(*col, col.chars@[j], mode, offset),
                    ) by {
                    if j < c {
                        lemma_shows_grows(
                            at_glyph,
                            cells@,
                            x,
                            cell_of(col.chars@[j].y),
                            col.chars@[j].value,
                            head_color(*col, col.chars@[j], mode, offset),
                        );
                    } else {
                        assert(cells@[cells@.len() - 1].x == x);
                        assert(cells@[cells@.len() - 1].y == cell_of(col.chars@[j].y));
                    }
                }
            }
            c += 1;
        }
    }
}

/// The cells the particles draw, in order.
pub open spec fn particle_cells(ps: Seq<Particle>, width: u16, height: u16) -> Seq<CellWrite>
    decreases ps.len(),
{
    if ps.len() == 0 {
        Seq::empty()
    } else {
        let rest = particle_cells(ps.drop_last(), width, height);
        match particle_cell_spec(ps.last(), width, height) {
            Some(c) => rest.push(c),
            None => rest,
        }
    }
}

/// The colour a head glyph is drawn in: its own colour if it has one, else
/// the head colour of the look; none is fixed in the glitch look, which
/// draws at random.
pub open spec fn head_color(col: RainColumn, g: MatrixChar, mode: VisualMode, offset: u64) -> Option<
    Rgb,
> {
    match g.color_override {
        Some(o) => Some(o),
        None => if mode == VisualMode::Glitch {
            None
        } else {
            Some(
                character_color_spec(
                    g.intensity,
                    col.z_depth,
                    mode,
                    cell_phase(offset, col.x as u16, cell_of(g.y)),
                    col.pulse_timer,
                ),
            )
        },
    }
}

/// Some cell draws `glyph` at column `x`, row `y`, in `color` when one is
/// given.
pub open spec fn shows(cells: Seq<CellWrite>, x: u16, y: u16, glyph: char, color: Option<Rgb>) -> bool {
    exists|k: int|
        0 <= k < cells.len() && cells[k].x == x && cells[k].y == y && cells[k].glyph == glyph
            && (color is Some ==> cells[k].color == color->Some_0)
}

/// A drawn cell stays drawn when more cells follow.
pub proof fn lemma_shows_grows(
    a: Seq<CellWrite>,
    b: Seq<CellWrite>,
    x: u16,
    y: u16,
    glyph: char,
    color: Option<Rgb>,
)
    requires
        b.len() >= a.len(),
        b.subrange(0, a.len() as int) == a,
        shows(a, x, y, glyph, color),
    ensures
        shows(b, x, y, glyph, color),
{
    let k = choose|k: int|
        0 <= k < a.len() && a[k].x == x && a[k].y == y && a[k].glyph == glyph && (color is Some
            ==> a[k].color == color->Some_0);
    assert(b.subrange(0, a.len() as int)[k] == b[k]);
}

/// `n` distinct indices below `n` take every index below `n`.
pub proof fn lemma_covers_all(xs: Seq<usize>, n: usize)
    requires
        xs.len() == n,
        xs.no_duplicates(),
        forall|i: int| 0 <= i < xs.len() ==> xs[i] < n,
    ensures
        forall|p: usize| p < n ==> xs.contains(p),
{
    assert forall|p: usize| p < n implies xs.contains(p) by {
        if !xs.contains(p) {
            let ys = xs.map_values(|v: usize| if v > p {
                (v - 1) as usize
            } else {
                v
            });
            assert forall|i: int| 0 <= i < ys.len() implies ys[i] < n - 1 by {
                assert(xs[i] != p);
            }
            assert forall|i: int, j: int| 0 <= i < j < ys.len() implies ys[i] != ys[j] by {
                assert(xs[i] != p && xs[j] != p);
                assert(xs[i] != xs[j]);
            }
            assert(ys.no_duplicates());
            crate::matrix_rain::lemma_positions_bounded(ys, (n - 1) as usize);
        }
    }
}

} // verus!
