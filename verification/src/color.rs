use vstd::prelude::*;

verus! {

/// A color, stored either as RGB or as HSV.
///
/// Components are fixed point: red, green, blue, saturation and value are in
/// thousandths of full intensity (`0..=1000` when well formed); hue is in
/// thousandths of a degree (`0..360_000` when well formed).
#[derive(Clone, Copy, Debug, PartialEq, Eq, Structural)]
pub enum Color {
    Rgb(i64, i64, i64),
    Hsv(i64, i64, i64),
}

/// How blending combines the current color with an incoming one.
/// The factor is in thousandths: `Blend(1000)` replaces the color outright.
#[derive(Clone, Copy, Debug, PartialEq, Eq, Structural)]
pub enum ColorOp {
    Blend(i64),
    Add(i64),
    Sub(i64),
}

/// Clamps a component into the unit range `[0, 1000]`.
pub open spec fn clamp_unit(x: int) -> int {
    if x < 0 {
        0
    } else if x > 1000 {
        1000
    } else {
        x
    }
}

/// Linear interpolation from `a` to `b` with a factor in thousandths.
pub open spec fn lerp(a: int, b: int, f: int) -> int {
    (a * (1000 - f) + b * f) / 1000
}

/// Wraps a hue in thousandths of a degree into `[0, 360_000)`.
pub open spec fn wrap_hue(h: int) -> int {
    let m = h % 360000;
    if m < 0 {
        m + 360000
    } else {
        m
    }
}

/// The RGB triple of one sector of the hue circle, before the value offset.
pub open spec fn hue_sector_rgb(h: int, c: int, x: int) -> (int, int, int) {
    if h < 60000 {
        (c, x, 0)
    } else if h < 120000 {
        (x, c, 0)
    } else if h < 180000 {
        (0, c, x)
    } else if h < 240000 {
        (0, x, c)
    } else if h < 300000 {
        (x, 0, c)
    } else {
        (c, 0, x)
    }
}

/// The RGB view of a color: the stored triple for an RGB color, the standard
/// sector decomposition for an HSV one.
pub open spec fn rgb_of(c: Color) -> (int, int, int) {
    match c {
        Color::Rgb(r, g, b) => (r as int, g as int, b as int),
        Color::Hsv(h, s, v) => {
            let hh = h as int;
            let chroma = (v as int) * (s as int) / 1000;
            let sector_pos = (hh / 60) % 2000;
            let dist = if sector_pos >= 1000 {
                sector_pos - 1000
            } else {
                1000 - sector_pos
            };
            let x = chroma * (1000 - dist) / 1000;
            let m = (v as int) - chroma;
            let t = hue_sector_rgb(hh, chroma, x);
            (clamp_unit(t.0 + m), clamp_unit(t.1 + m), clamp_unit(t.2 + m))
        },
    }
}

/// The HSV view of a color: the stored triple for an HSV color, the
/// max/min-channel derivation for an RGB one. Hue is 0 when the color is
/// black or gray (value or saturation zero), and is wrapped into
/// `[0, 360_000)` otherwise.
pub open spec fn hsv_of(c: Color) -> (int, int, int) {
    match c {
        Color::Hsv(h, s, v) => (h as int, s as int, v as int),
        Color::Rgb(r, g, b) => {
            let rr = r as int;
            let gg = g as int;
            let bb = b as int;
            let mx = if rr >= gg && rr >= bb {
                rr
            } else if gg >= bb {
                gg
            } else {
                bb
            };
            let mn = if rr <= gg && rr <= bb {
                rr
            } else if gg <= bb {
                gg
            } else {
                bb
            };
            if mx == 0 {
                (0, 0, mx)
            } else {
                let s = (mx - mn) * 1000 / mx;
                if s == 0 {
                    (0, 0, mx)
                } else {
                    let d = mx - mn;
                    let h = if mx == rr {
                        if gg >= bb {
                            60000 * (gg - bb) / d
                        } else {
                            360000 - 60000 * (bb - gg) / d
                        }
                    } else if mx == gg {
                        if bb >= rr {
                            120000 + 60000 * (bb - rr) / d
                        } else {
                            120000 - 60000 * (rr - bb) / d
                        }
                    } else {
                        if rr >= gg {
                            240000 + 60000 * (rr - gg) / d
                        } else {
                            240000 - 60000 * (gg - rr) / d
                        }
                    };
                    (h, s, mx)
                }
            }
        },
    }
}

/// What `blend` returns: the colorspace of the arithmetic is chosen by
/// `other`'s variant; `a` is first converted into that space. `Blend` is a
/// linear interpolation; `Add` increments with an upper clamp at full
/// intensity; `Sub` decrements but bounds the result from below by full
/// intensity, a deliberate quirk this crate keeps for compatibility with
/// the devices it drives. Hue is wrapped into `[0, 360_000)`.
pub open spec fn blend_model(a: Color, other: Color, op: ColorOp) -> Color {
    match (other, op) {
        (Color::Rgb(r2, g2, b2), ColorOp::Blend(f)) => {
            let s = rgb_of(a);
            Color::Rgb(
                lerp(s.0, r2 as int, f as int) as i64,
                lerp(s.1, g2 as int, f as int) as i64,
                lerp(s.2, b2 as int, f as int) as i64,
            )
        },
        (Color::Hsv(h2, s2, v2), ColorOp::Blend(f)) => {
            let s = hsv_of(a);
            Color::Hsv(
                wrap_hue(lerp(s.0, h2 as int, f as int)) as i64,
                lerp(s.1, s2 as int, f as int) as i64,
                lerp(s.2, v2 as int, f as int) as i64,
            )
        },
        (Color::Rgb(r2, g2, b2), ColorOp::Add(f)) => {
            let s = rgb_of(a);
            Color::Rgb(
                min_unit(s.0 + (r2 as int) * (f as int) / 1000) as i64,
                min_unit(s.1 + (g2 as int) * (f as int) / 1000) as i64,
                min_unit(s.2 + (b2 as int) * (f as int) / 1000) as i64,
            )
        },
        (Color::Hsv(h2, s2, v2), ColorOp::Add(f)) => {
            let s = hsv_of(a);
            Color::Hsv(
                wrap_hue(s.0 + (h2 as int) * (f as int) / 1000) as i64,
                min_unit(s.1 + (s2 as int) * (f as int) / 1000) as i64,
                min_unit(s.2 + (v2 as int) * (f as int) / 1000) as i64,
            )
        },
        (Color::Rgb(r2, g2, b2), ColorOp::Sub(f)) => {
            let s = rgb_of(a);
            Color::Rgb(
                floor_unit(s.0 - (r2 as int) * (f as int) / 1000) as i64,
                floor_unit(s.1 - (g2 as int) * (f as int) / 1000) as i64,
                floor_unit(s.2 - (b2 as int) * (f as int) / 1000) as i64,
            )
        },
        (Color::Hsv(h2, s2, v2), ColorOp::Sub(f)) => {
            let s = hsv_of(a);
            Color::Hsv(
                wrap_hue(s.0 - (h2 as int) * (f as int) / 1000) as i64,
                floor_unit(s.1 - (s2 as int) * (f as int) / 1000) as i64,
                floor_unit(s.2 - (v2 as int) * (f as int) / 1000) as i64,
            )
        },
    }
}

/// Upper clamp at full intensity, with no lower bound.
pub open spec fn min_unit(x: int) -> int {
    if x > 1000 {
        1000
    } else {
        x
    }
}

/// Lower bound at full intensity: `Sub` bounds the decremented component
/// from below by 1000, a deliberate quirk kept for compatibility.
pub open spec fn floor_unit(x: int) -> int {
    if x >= 1000 {
        x
    } else {
        1000
    }
}

/// A product of unit-range factors divided by 1000 stays within the range
/// of the first factor's bound.
pub proof fn lemma_scaled_product(a: int, b: int)
    by (nonlinear_arith)
    requires
        0 <= a <= 1000,
        0 <= b <= 1000,
    ensures
        0 <= a * b <= 1000000,
        0 <= a * b / 1000 <= a,
        a * b / 1000 <= 1000,
{
}

/// Bounds of the two-sided interpolation numerator and its quotient.
pub proof fn lemma_lerp_unit(a: int, b: int, f: int)
    by (nonlinear_arith)
    requires
        0 <= a <= 1000,
        0 <= b <= 1000,
        0 <= f <= 1000,
    ensures
        0 <= a * (1000 - f) <= 1000000,
        0 <= b * f <= 1000000,
        0 <= lerp(a, b, f) <= 1000,
{
}

/// Hue interpolation stays within one turn when both hues do.
pub proof fn lemma_lerp_hue(a: int, b: int, f: int)
    by (nonlinear_arith)
    requires
        0 <= a < 360000,
        0 <= b < 360000,
        0 <= f <= 1000,
    ensures
        0 <= a * (1000 - f) <= 360000000,
        0 <= b * f <= 360000000,
        0 <= lerp(a, b, f) < 360000,
{
}

/// A component or hue scaled by a clamp-side factor stays within machine
/// bounds.
pub proof fn lemma_scaled_wide(b: int, f: int)
    by (nonlinear_arith)
    requires
        0 <= b <= 360000,
        0 <= f <= 1000000000,
    ensures
        0 <= b * f <= 360000000000000,
        0 <= b * f / 1000 <= 360000000000,
{
}

/// A ratio of a part to a positive whole, scaled by 1000, is a unit value.
pub proof fn lemma_ratio_unit(n: int, d: int)
    by (nonlinear_arith)
    requires
        0 <= n <= d,
        d > 0,
    ensures
        0 <= n * 1000 / d <= 1000,
{
}

/// A ratio of a part to a positive whole, scaled to degrees, stays within
/// one sector.
pub proof fn lemma_sector_ratio(n: int, d: int)
    by (nonlinear_arith)
    requires
        0 <= n <= d,
        d > 0,
    ensures
        0 <= 60000 * n / d <= 60000,
{
}

/// A positive part of a whole no larger than 1000 maps to at least 60
/// thousandths of a degree.
pub proof fn lemma_sector_ratio_pos(n: int, d: int)
    by (nonlinear_arith)
    requires
        1 <= n <= d,
        0 < d <= 1000,
    ensures
        60 <= 60000 * n / d <= 60000,
{
}

/// Wrapping is unchanged by whole turns and is the identity within a turn.
pub proof fn lemma_wrap_hue_basics(h: int)
    ensures
        wrap_hue(h + 360000) == wrap_hue(h),
        wrap_hue(h - 360000) == wrap_hue(h),
        0 <= h < 360000 ==> wrap_hue(h) == h,
{
    assert((h + 360000) % 360000 == h % 360000) by (nonlinear_arith);
    assert((h - 360000) % 360000 == h % 360000) by (nonlinear_arith);
    if 0 <= h < 360000 {
        assert(h % 360000 == h) by (nonlinear_arith)
            requires 0 <= h < 360000;
    }
}

/// `a` converted into the colorspace of `other`'s variant, without blending.
pub open spec fn converted(a: Color, other: Color) -> Color {
    match other {
        Color::Rgb(_, _, _) => {
            let t = rgb_of(a);
            Color::Rgb(t.0 as i64, t.1 as i64, t.2 as i64)
        },
        Color::Hsv(_, _, _) => {
            let t = hsv_of(a);
            Color::Hsv(t.0 as i64, t.1 as i64, t.2 as i64)
        },
    }
}

/// The RGB view of a well-formed color has unit-range components.
pub proof fn lemma_rgb_of_wf(c: Color)
    requires
        c.wf(),
    ensures
        0 <= rgb_of(c).0 <= 1000,
        0 <= rgb_of(c).1 <= 1000,
        0 <= rgb_of(c).2 <= 1000,
{
}

/// The HSV view of a well-formed color has a hue within one turn and
/// unit-range saturation and value.
pub proof fn lemma_hsv_of_wf(c: Color)
    requires
        c.wf(),
    ensures
        0 <= hsv_of(c).0 < 360000,
        0 <= hsv_of(c).1 <= 1000,
        0 <= hsv_of(c).2 <= 1000,
{
    match c {
        Color::Hsv(_, _, _) => {},
        Color::Rgb(r, g, b) => {
            let rr = r as int;
            let gg = g as int;
            let bb = b as int;
            let mx = if rr >= gg && rr >= bb {
                rr
            } else if gg >= bb {
                gg
            } else {
                bb
            };
            let mn = if rr <= gg && rr <= bb {
                rr
            } else if gg <= bb {
                gg
            } else {
                bb
            };
            if mx != 0 {
                lemma_ratio_unit(mx - mn, mx);
                let s = (mx - mn) * 1000 / mx;
                if s != 0 {
                    assert(mx != mn);
                    let d = mx - mn;
                    if mx == rr {
                        if gg >= bb {
                            lemma_sector_ratio(gg - bb, d);
                        } else {
                            lemma_sector_ratio_pos(bb - gg, d);
                        }
                    } else if mx == gg {
                        if bb >= rr {
                            lemma_sector_ratio(bb - rr, d);
                        } else {
                            lemma_sector_ratio(rr - bb, d);
                        }
                    } else {
                        if rr >= gg {
                            lemma_sector_ratio(rr - gg, d);
                        } else {
                            lemma_sector_ratio(gg - rr, d);
                        }
                    }
                }
            }
        },
    }
}

/// Law: blending at the extreme factors. `Blend(1000)` returns exactly
/// `other`'s color, and `Blend(0)` returns `self` unchanged apart from
/// conversion into `other`'s colorspace, for any well-formed colors.
pub proof fn lemma_blend_extremes(a: Color, other: Color)
    requires
        a.wf(),
        other.wf(),
    ensures
        blend_model(a, other, ColorOp::Blend(1000i64)) == other,
        blend_model(a, other, ColorOp::Blend(0i64)) == converted(a, other),
{
    lemma_rgb_of_wf(a);
    lemma_hsv_of_wf(a);
    assert forall|x: int, y: int| 0 <= x <= 360000 && 0 <= y <= 360000 implies lerp(x, y, 1000)
        == y && lerp(x, y, 0) == x by {
        assert(x * (1000 - 1000) + y * 1000 == 1000 * y) by (nonlinear_arith);
        assert(1000 * y / 1000 == y) by (nonlinear_arith)
            requires 0 <= y;
        assert(x * (1000 - 0) + y * 0 == 1000 * x) by (nonlinear_arith);
        assert(1000 * x / 1000 == x) by (nonlinear_arith)
            requires 0 <= x;
    }
    match other {
        Color::Rgb(_, _, _) => {},
        Color::Hsv(h2, _, _) => {
            lemma_wrap_hue_basics(h2 as int);
            lemma_wrap_hue_basics(hsv_of(a).0);
        },
    }
}

/// Law (one exact part of the round-trip property): converting a
/// non-degenerate HSV color to RGB and back preserves the value component
/// exactly. Hue and saturation return only up to integer rounding, which is
/// not bounded here.
pub proof fn lemma_round_trip_preserves_value(h: i64, s: i64, v: i64)
    requires
        Color::Hsv(h, s, v).wf(),
        s > 0,
        v > 0,
    ensures
        ({
            let t = rgb_of(Color::Hsv(h, s, v));
            hsv_of(Color::Rgb(t.0 as i64, t.1 as i64, t.2 as i64)).2 == v
        }),
{
    let hh = h as int;
    let chroma = (v as int) * (s as int) / 1000;
    lemma_scaled_product(v as int, s as int);
    let sector_pos = (hh / 60) % 2000;
    assert(0 <= sector_pos < 2000) by (nonlinear_arith)
        requires 0 <= hh, sector_pos == (hh / 60) % 2000;
    let dist = if sector_pos >= 1000 {
        sector_pos - 1000
    } else {
        1000 - sector_pos
    };
    lemma_scaled_product(chroma, 1000 - dist);
    let x = chroma * (1000 - dist) / 1000;
    let m = (v as int) - chroma;
    let t = rgb_of(Color::Hsv(h, s, v));
    assert(chroma * (s as int) >= 0) by (nonlinear_arith)
        requires s >= 0, chroma >= 0;
    assert(chroma <= v) by (nonlinear_arith)
        requires 0 <= s <= 1000, 0 <= v, chroma == (v as int) * (s as int) / 1000;
    assert(x <= chroma);
    assert(0 <= t.0 <= 1000 && 0 <= t.1 <= 1000 && 0 <= t.2 <= 1000);
    assert(t.0 == v || t.1 == v || t.2 == v);
    assert(t.0 <= v && t.1 <= v && t.2 <= v);
}

/// Law (a bounded part of the round-trip property): converting a
/// non-degenerate HSV color to RGB and back never raises the saturation,
/// and lowers it by less than `1000 / v + 2` — at most 3 thousandths at
/// full value. The hue error is not bounded here.
pub proof fn lemma_round_trip_saturation_close(h: i64, s: i64, v: i64)
    requires
        Color::Hsv(h, s, v).wf(),
        s > 0,
        v > 0,
    ensures
        ({
            let t = rgb_of(Color::Hsv(h, s, v));
            let s2 = hsv_of(Color::Rgb(t.0 as i64, t.1 as i64, t.2 as i64)).1;
            s2 <= s && (s - s2) * (v as int) <= 1000 + 2 * (v as int)
        }),
{
    let vv = v as int;
    let ss = s as int;
    let hh = h as int;
    let chroma = vv * ss / 1000;
    lemma_scaled_product(vv, ss);
    let sector_pos = (hh / 60) % 2000;
    assert(0 <= sector_pos < 2000) by (nonlinear_arith)
        requires 0 <= hh, sector_pos == (hh / 60) % 2000;
    let dist = if sector_pos >= 1000 {
        sector_pos - 1000
    } else {
        1000 - sector_pos
    };
    lemma_scaled_product(chroma, 1000 - dist);
    let x = chroma * (1000 - dist) / 1000;
    let m = vv - chroma;
    assert(chroma <= vv) by (nonlinear_arith)
        requires 0 <= ss <= 1000, 0 <= vv, chroma == vv * ss / 1000;
    let t = rgb_of(Color::Hsv(h, s, v));
    assert(0 <= t.0 <= 1000 && 0 <= t.1 <= 1000 && 0 <= t.2 <= 1000);
    let back = Color::Rgb(t.0 as i64, t.1 as i64, t.2 as i64);
    // the maximum channel is the value, the minimum is the value offset
    assert(t.0 == vv || t.1 == vv || t.2 == vv);
    assert(t.0 <= vv && t.1 <= vv && t.2 <= vv);
    assert(t.0 == m || t.1 == m || t.2 == m);
    assert(t.0 >= m && t.1 >= m && t.2 >= m);
    let s2 = (vv - m) * 1000 / vv;
    assert(vv - m == chroma);
    assert(hsv_of(back).1 == s2);
    // the saturation never rises ...
    assert(1000 * chroma <= vv * ss) by (nonlinear_arith)
        requires chroma == vv * ss / 1000;
    assert(chroma * 1000 / vv <= ss) by (nonlinear_arith)
        requires 1000 * chroma <= vv * ss, vv > 0;
    // ... and drops by less than one unit of the quantization error
    assert(1000 * chroma >= vv * ss - 999) by (nonlinear_arith)
        requires chroma == vv * ss / 1000;
    assert(vv * s2 >= 1000 * chroma - vv + 1) by (nonlinear_arith)
        requires s2 == chroma * 1000 / vv, vv > 0;
    assert(vv * (ss - s2) <= 1000 + 2 * vv) by (nonlinear_arith)
        requires
            vv * s2 >= 1000 * chroma - vv + 1,
            1000 * chroma >= vv * ss - 999,
            vv > 0,
    ;
}

impl Color {
    /// The stored components are within their documented ranges.
    pub open spec fn wf(self) -> bool {
        match self {
            Color::Rgb(r, g, b) => 0 <= r <= 1000 && 0 <= g <= 1000 && 0 <= b <= 1000,
            Color::Hsv(h, s, v) => 0 <= h < 360000 && 0 <= s <= 1000 && 0 <= v <= 1000,
        }
    }

    /// The RGB view of this color, computed on demand.
    pub fn rgb(&self) -> (res: (i64, i64, i64))
        requires
            self.wf(),
        ensures
            (res.0 as int, res.1 as int, res.2 as int) == rgb_of(*self),
            0 <= res.0 <= 1000 && 0 <= res.1 <= 1000 && 0 <= res.2 <= 1000,
    {
        match *self {
            Color::Rgb(r, g, b) => (r, g, b),
            Color::Hsv(h, s, v) => {
                proof {
                    lemma_scaled_product(v as int, s as int);
                }
                let chroma: i64 = v * s / 1000;
                let sector_pos: i64 = (h / 60) % 2000;
                let dist: i64 = if sector_pos >= 1000 {
                    sector_pos - 1000
                } else {
                    1000 - sector_pos
                };
                proof {
                    lemma_scaled_product(chroma as int, (1000 - dist) as int);
                }
                let x: i64 = chroma * (1000 - dist) / 1000;
                let m: i64 = v - chroma;
                let (r, g, b): (i64, i64, i64) = if h < 60000 {
                    (chroma, x, 0)
                } else if h < 120000 {
                    (x, chroma, 0)
                } else if h < 180000 {
                    (0, chroma, x)
                } else if h < 240000 {
                    (0, x, chroma)
                } else if h < 300000 {
                    (x, 0, chroma)
                } else {
                    (chroma, 0, x)
                };
                (clamp_unit_exec(r + m), clamp_unit_exec(g + m), clamp_unit_exec(b + m))
            },
        }
    }

    /// The HSV view of this color, computed on demand.
    pub fn hsv(&self) -> (res: (i64, i64, i64))
        requires
            self.wf(),
        ensures
            (res.0 as int, res.1 as int, res.2 as int) == hsv_of(*self),
            0 <= res.0 < 360000 && 0 <= res.1 <= 1000 && 0 <= res.2 <= 1000,
    {
        match *self {
            Color::Hsv(h, s, v) => (h, s, v),
            Color::Rgb(r, g, b) => {
                let mx: i64 = if r >= g && r >= b {
                    r
                } else if g >= b {
                    g
                } else {
                    b
                };
                let mn: i64 = if r <= g && r <= b {
                    r
                } else if g <= b {
                    g
                } else {
                    b
                };
                if mx == 0 {
                    return (0, 0, mx);
                }
                proof {
                    lemma_ratio_unit((mx - mn) as int, mx as int);
                }
                let s: i64 = (mx - mn) * 1000 / mx;
                if s == 0 {
                    return (0, 0, mx);
                }
                proof {
                    if mx == mn {
                        assert((mx - mn) * 1000 == 0);
                        assert(s == 0);
                    }
                }
                let d: i64 = mx - mn;
                let h: i64 = if mx == r {
                    if g >= b {
                        proof {
                            lemma_sector_ratio((g - b) as int, d as int);
                        }
                        60000 * (g - b) / d
                    } else {
                        proof {
                            lemma_sector_ratio_pos((b - g) as int, d as int);
                        }
                        360000 - 60000 * (b - g) / d
                    }
                } else if mx == g {
                    if b >= r {
                        proof {
                            lemma_sector_ratio((b - r) as int, d as int);
                        }
                        120000 + 60000 * (b - r) / d
                    } else {
                        proof {
                            lemma_sector_ratio((r - b) as int, d as int);
                        }
                        120000 - 60000 * (r - b) / d
                    }
                } else {
                    if r >= g {
                        proof {
                            lemma_sector_ratio((r - g) as int, d as int);
                        }
                        240000 + 60000 * (r - g) / d
                    } else {
                        proof {
                            lemma_sector_ratio((g - r) as int, d as int);
                        }
                        240000 - 60000 * (g - r) / d
                    }
                };
                (h, s, mx)
            },
        }
    }

    /// Combines this color with `other` under `op`, in `other`'s colorspace.
    pub fn blend(&self, other: &Color, op: &ColorOp) -> (res: Color)
        requires
            self.wf(),
            other.wf(),
            op.wf(),
        ensures
            res == blend_model(*self, *other, *op),
            res.wf(),
    {
        match (*other, *op) {
            (Color::Rgb(r2, g2, b2), ColorOp::Blend(f)) => {
                let rgb = self.rgb();
                let aa: i64 = 1000 - f;
                proof {
                    lemma_lerp_unit(rgb.0 as int, r2 as int, f as int);
                    lemma_lerp_unit(rgb.1 as int, g2 as int, f as int);
                    lemma_lerp_unit(rgb.2 as int, b2 as int, f as int);
                }
                let r: i64 = (rgb.0 * aa + r2 * f) / 1000;
                let g: i64 = (rgb.1 * aa + g2 * f) / 1000;
                let b: i64 = (rgb.2 * aa + b2 * f) / 1000;
                Color::Rgb(r, g, b)
            },
            (Color::Hsv(h2, s2, v2), ColorOp::Blend(f)) => {
                let hsv = self.hsv();
                let aa: i64 = 1000 - f;
                proof {
                    lemma_lerp_hue(hsv.0 as int, h2 as int, f as int);
                    lemma_lerp_unit(hsv.1 as int, s2 as int, f as int);
                    lemma_lerp_unit(hsv.2 as int, v2 as int, f as int);
                }
                let mut h: i64 = (hsv.0 * aa + h2 * f) / 1000;
                let s: i64 = (hsv.1 * aa + s2 * f) / 1000;
                let v: i64 = (hsv.2 * aa + v2 * f) / 1000;
                while h < 0
                    invariant
                        wrap_hue(h as int) == wrap_hue(lerp(hsv.0 as int, h2 as int, f as int)),
                        h < 360000,
                    decreases 360000 - h,
                {
                    proof {
                        lemma_wrap_hue_basics(h as int);
                    }
                    h = h + 360000;
                }
                while h >= 360000
                    invariant
                        wrap_hue(h as int) == wrap_hue(lerp(hsv.0 as int, h2 as int, f as int)),
                        h >= 0,
                    decreases h,
                {
                    proof {
                        lemma_wrap_hue_basics((h - 360000) as int);
                    }
                    h = h - 360000;
                }
                proof {
                    lemma_wrap_hue_basics(h as int);
                }
                Color::Hsv(h, s, v)
            },
            (Color::Rgb(r2, g2, b2), ColorOp::Add(f)) => {
                let rgb = self.rgb();
                proof {
                    lemma_scaled_wide(r2 as int, f as int);
                    lemma_scaled_wide(g2 as int, f as int);
                    lemma_scaled_wide(b2 as int, f as int);
                }
                let r: i64 = rgb.0 + r2 * f / 1000;
                let g: i64 = rgb.1 + g2 * f / 1000;
                let b: i64 = rgb.2 + b2 * f / 1000;
                Color::Rgb(min_unit_exec(r), min_unit_exec(g), min_unit_exec(b))
            },
            (Color::Hsv(h2, s2, v2), ColorOp::Add(f)) => {
                let hsv = self.hsv();
                proof {
                    lemma_scaled_wide(h2 as int, f as int);
                    lemma_scaled_wide(s2 as int, f as int);
                    lemma_scaled_wide(v2 as int, f as int);
                }
                let mut h: i64 = hsv.0 + h2 * f / 1000;
                let s: i64 = hsv.1 + s2 * f / 1000;
                let v: i64 = hsv.2 + v2 * f / 1000;
                while h >= 360000
                    invariant
                        wrap_hue(h as int) == wrap_hue(hsv.0 + (h2 as int) * (f as int) / 1000),
                        h >= 0,
                    decreases h,
                {
                    proof {
                        lemma_wrap_hue_basics((h - 360000) as int);
                    }
                    h = h - 360000;
                }
                proof {
                    lemma_wrap_hue_basics(h as int);
                }
                Color::Hsv(h, min_unit_exec(s), min_unit_exec(v))
            },
            (Color::Rgb(r2, g2, b2), ColorOp::Sub(f)) => {
                let rgb = self.rgb();
                proof {
                    lemma_scaled_wide(r2 as int, f as int);
                    lemma_scaled_wide(g2 as int, f as int);
                    lemma_scaled_wide(b2 as int, f as int);
                }
                let r: i64 = rgb.0 - r2 * f / 1000;
                let g: i64 = rgb.1 - g2 * f / 1000;
                let b: i64 = rgb.2 - b2 * f / 1000;
                Color::Rgb(floor_unit_exec(r), floor_unit_exec(g), floor_unit_exec(b))
            },
            (Color::Hsv(h2, s2, v2), ColorOp::Sub(f)) => {
                let hsv = self.hsv();
                proof {
                    lemma_scaled_wide(h2 as int, f as int);
                    lemma_scaled_wide(s2 as int, f as int);
                    lemma_scaled_wide(v2 as int, f as int);
                }
                let mut h: i64 = hsv.0 - h2 * f / 1000;
                let s: i64 = hsv.1 - s2 * f / 1000;
                let v: i64 = hsv.2 - v2 * f / 1000;
                while h < 0
                    invariant
                        wrap_hue(h as int) == wrap_hue(hsv.0 - (h2 as int) * (f as int) / 1000),
                        h < 360000,
                    decreases 360000 - h,
                {
                    proof {
                        lemma_wrap_hue_basics(h as int);
                    }
                    h = h + 360000;
                }
                proof {
                    lemma_wrap_hue_basics(h as int);
                }
                Color::Hsv(h, floor_unit_exec(s), floor_unit_exec(v))
            },
        }
    }
}

impl ColorOp {
    /// The scalar factor of the operation, in thousandths.
    pub open spec fn factor(self) -> int {
        match self {
            ColorOp::Blend(f) => f as int,
            ColorOp::Add(f) => f as int,
            ColorOp::Sub(f) => f as int,
        }
    }

    /// The supported factor domain. A `Blend` factor must lie in the unit
    /// range: components are documented to stay in their unit ranges, and
    /// only unit factors keep the interpolation closed over them. `Add` and
    /// `Sub` clamp their results, so any non-negative factor keeps colors
    /// well formed; a generous machine limit bounds the multiplication.
    pub open spec fn wf(self) -> bool {
        match self {
            ColorOp::Blend(f) => 0 <= f <= 1000,
            ColorOp::Add(f) => 0 <= f <= 1000000000,
            ColorOp::Sub(f) => 0 <= f <= 1000000000,
        }
    }
}

impl Default for ColorOp {
    /// The default operation replaces the color outright.
    fn default() -> (res: ColorOp)
        ensures
            res == ColorOp::Blend(1000i64),
    {
        ColorOp::Blend(1000)
    }
}

fn clamp_unit_exec(x: i64) -> (res: i64)
    ensures
        res as int == clamp_unit(x as int),
{
    if x < 0 {
        0
    } else if x > 1000 {
        1000
    } else {
        x
    }
}

fn min_unit_exec(x: i64) -> (res: i64)
    ensures
        res as int == min_unit(x as int),
{
    if x > 1000 {
        1000
    } else {
        x
    }
}

fn floor_unit_exec(x: i64) -> (res: i64)
    ensures
        res as int == floor_unit(x as int),
{
    if x >= 1000 {
        x
    } else {
        1000
    }
}

} // verus!
