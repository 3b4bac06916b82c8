use vstd::prelude::*;
use crate::color::{blend_model, lemma_ratio_unit, Color, ColorOp};
use crate::device::Strip;

verus! {

/// Relies on rand::random: draws an arbitrary value; nothing is promised of
/// the result, so callers must hold for every outcome.
pub assume_specification<T>[ rand::random::<T> ]() -> (r: T)
    where
        rand::distributions::Standard: rand::distributions::Distribution<T>,
;

/// A declarative animation over the LEDs selected by an index list.
///
/// Temperatures are in hundredths of a degree; color components are in
/// thousandths, as in [`Color`].
#[derive(Clone, Debug)]
#[verifier::ext_equal]
pub enum Effect {
    Static {
        color: Color,
        op: ColorOp,
    },
    Gradient {
        from: Color,
        to: Color,
        op: ColorOp,
    },
    Noise(ColorOp),
    Temperature {
        sensor: usize,
        min_temperature: i64,
        max_temperature: i64,
        min_color: Color,
        max_color: Color,
        op: ColorOp,
    },
    Wave {
        frames_per_led: usize,
        length: usize,
        colors: Vec<Color>,
        op: ColorOp,
    },
    Rotation {
        duration: usize,
        colors: Vec<Color>,
        reverse: bool,
        op: ColorOp,
    },
    Pattern {
        frames_per_led: Option<usize>,
        colors: Vec<Color>,
        reverse: bool,
        op: ColorOp,
    },
}

/// The color new strip slots are filled with.
pub open spec fn black() -> Color {
    Color::Rgb(0, 0, 0)
}

/// One more than the largest index in the list; 0 when the list is empty.
pub open spec fn req_len(indices: Seq<usize>) -> int
    decreases indices.len(),
{
    if indices.len() == 0 {
        0
    } else {
        let rest = req_len(indices.drop_last());
        let cand = indices.last() + 1;
        if cand > rest {
            cand
        } else {
            rest
        }
    }
}

/// The strip contents after growing (never shrinking) to length `n`.
pub open spec fn grown(colors: Seq<Color>, n: int) -> Seq<Color> {
    if colors.len() >= n {
        colors
    } else {
        colors + Seq::new((n - colors.len()) as nat, |i: int| black())
    }
}

/// One blend applied at one LED; out-of-range steps leave the strip as is.
pub open spec fn blend_at(colors: Seq<Color>, led: int, target: Color, op: ColorOp) -> Seq<
    Color,
> {
    if 0 <= led < colors.len() {
        colors.update(led, blend_model(colors[led], target, op))
    } else {
        colors
    }
}

/// The strip contents after blending each step's target onto its LED, in
/// step order.
pub open spec fn paint(colors: Seq<Color>, steps: Seq<(usize, Color)>, op: ColorOp) -> Seq<
    Color,
>
    decreases steps.len(),
{
    if steps.len() == 0 {
        colors
    } else {
        paint(blend_at(colors, steps[0].0 as int, steps[0].1, op), steps.drop_first(), op)
    }
}

/// Painting one more step at the end paints the step onto the painted strip.
pub proof fn lemma_paint_snoc(colors: Seq<Color>, steps: Seq<(usize, Color)>, step: (usize, Color), op: ColorOp)
    ensures
        paint(colors, steps.push(step), op) == blend_at(
            paint(colors, steps, op),
            step.0 as int,
            step.1,
            op,
        ),
    decreases steps.len(),
{
    if steps.len() == 0 {
        assert(steps.push(step)[0] == step);
        assert(steps.push(step).drop_first() =~= Seq::<(usize, Color)>::empty());
        assert(paint(colors, steps.push(step), op) == paint(
            blend_at(colors, step.0 as int, step.1, op),
            Seq::<(usize, Color)>::empty(),
            op,
        ));
    } else {
        let head = steps[0];
        let c1 = blend_at(colors, head.0 as int, head.1, op);
        assert(steps.push(step)[0] == head);
        assert(steps.push(step).drop_first() =~= steps.drop_first().push(step));
        assert(paint(colors, steps.push(step), op) == paint(
            c1,
            steps.drop_first().push(step),
            op,
        ));
        lemma_paint_snoc(c1, steps.drop_first(), step, op);
        assert(paint(colors, steps, op) == paint(c1, steps.drop_first(), op));
    }
}

/// The position fraction along a gradient, in thousandths; a single LED sits
/// at the start.
pub open spec fn gradient_factor(i: int, n: int) -> int {
    if n <= 1 {
        0
    } else {
        i * 1000 / (n - 1)
    }
}

/// The temperature the effect reads: the probe's value, or the hottest bound
/// when the probe is missing or has no reading.
pub open spec fn temp_value(probes: Seq<Option<i64>>, sensor: int, max_temperature: int) -> int {
    if 0 <= sensor < probes.len() {
        match probes[sensor] {
            Some(t) => t as int,
            None => max_temperature,
        }
    } else {
        max_temperature
    }
}

/// The blend position of a temperature within `[mint, maxt]`, in
/// thousandths, clamped below at the cold end.
pub open spec fn temp_factor(t: int, mint: int, maxt: int) -> int {
    let capped = if t < maxt {
        t
    } else {
        maxt
    };
    let above = if capped - mint > 0 {
        capped - mint
    } else {
        0
    };
    above * 1000 / (maxt - mint)
}

/// The fraction of the rotation cycle completed at `frame`, in thousandths;
/// `reverse` runs the cycle backwards.
pub open spec fn rotation_progress(duration: int, reverse: bool, frame: int) -> int {
    if reverse {
        (duration - frame % duration) * 1000 / duration
    } else {
        (frame % duration) * 1000 / duration
    }
}

/// The palette color at milli-position `xm` of a rotating gradient, indices
/// taken modulo the palette length.
pub open spec fn palette_mix_mod(colors: Seq<Color>, xm: int) -> Color {
    let clen = colors.len() as int;
    let lower = (xm / 1000) % clen;
    let upper = ((xm + 999) / 1000) % clen;
    blend_model(colors[lower], colors[upper], ColorOp::Blend((xm % 1000) as i64))
}

/// The palette color at milli-position `xm` of a comet body, indices capped
/// at the last palette entry.
pub open spec fn palette_mix_cap(colors: Seq<Color>, xm: int) -> Color {
    let clen = colors.len() as int;
    let lower = if xm / 1000 < clen - 1 {
        xm / 1000
    } else {
        clen - 1
    };
    let upper = if (xm + 999) / 1000 < clen - 1 {
        (xm + 999) / 1000
    } else {
        clen - 1
    };
    blend_model(colors[lower], colors[upper], ColorOp::Blend((xm % 1000) as i64))
}

/// The milli-position of rotation step `i` of `n`, at `frame`.
pub open spec fn rotation_pos(duration: int, reverse: bool, frame: int, i: int, n: int, clen: int) -> int {
    ((rotation_progress(duration, reverse, frame) + i * 1000 / n) % 1000) * (clen - 1)
}

/// The palette step the pattern shows first at `frame`; without a cadence
/// the pattern never advances.
pub open spec fn pattern_progress(frames_per_led: Option<usize>, frame: int, clen: int) -> int {
    match frames_per_led {
        Some(fpl) => (frame / fpl as int) % clen,
        None => 0,
    }
}

/// The steps of the comet for positions `0..i`: each position currently over
/// the index list contributes one step.
pub open spec fn wave_steps_upto(
    colors: Seq<Color>,
    fpl: int,
    length: int,
    indices: Seq<usize>,
    frame: int,
    i: int,
) -> Seq<(usize, Color)>
    decreases i,
{
    if i <= 0 {
        Seq::empty()
    } else {
        let rest = wave_steps_upto(colors, fpl, length, indices, frame, i - 1);
        let progress = (frame / fpl) % (indices.len() + 2 * length);
        let j = i - 1;
        if progress + j >= length && progress + j - length < indices.len() {
            rest.push(
                (indices[progress + j - length], palette_mix_cap(colors, j * 1000 * colors.len() / length)),
            )
        } else {
            rest
        }
    }
}

/// Bounds of a product of bounded non-negative factors.
pub proof fn lemma_mul_bounds(a: int, b: int, am: int, bm: int)
    by (nonlinear_arith)
    requires
        0 <= a <= am,
        0 <= b <= bm,
    ensures
        0 <= a * b <= am * bm,
{
}

/// Every index in the list is below the required strip length.
pub proof fn lemma_req_len_covers(indices: Seq<usize>, k: int)
    requires
        0 <= k < indices.len(),
    ensures
        indices[k] < req_len(indices),
        req_len(indices) >= 0,
    decreases indices.len(),
{
    if k == indices.len() - 1 {
        assert(indices.last() == indices[k]);
        if indices.len() > 1 {
            lemma_req_len_covers(indices.drop_last(), 0);
        }
    } else {
        lemma_req_len_covers(indices.drop_last(), k);
        assert(indices.drop_last()[k] == indices[k]);
    }
}

/// The required length is never negative.
pub proof fn lemma_req_len_nonneg(indices: Seq<usize>)
    ensures
        req_len(indices) >= 0,
    decreases indices.len(),
{
    if indices.len() > 0 {
        lemma_req_len_nonneg(indices.drop_last());
    }
}

/// An index list the renderer can address: bounded in length, every index
/// leaving room for one-past-the-end growth.
pub open spec fn indices_ok(s: Seq<usize>) -> bool {
    s.len() <= 100000000 && forall|k: int| 0 <= k < s.len() ==> (#[trigger] s[k]) < usize::MAX
}

/// A probe reading within the range the effects can do arithmetic on.
pub open spec fn probe_ok(o: Option<i64>) -> bool {
    match o {
        Some(t) => -1000000000 <= t <= 1000000000,
        None => true,
    }
}

/// A noise draw: an HSV color whose components were all drawn uniformly in
/// `[0, 1000)` thousandths — hue included, so noise hues deliberately span
/// only the first degree of the circle.
pub open spec fn small_hsv(c: Color) -> bool {
    match c {
        Color::Hsv(h, s, v) => 0 <= h < 1000 && 0 <= s < 1000 && 0 <= v < 1000,
        Color::Rgb(_, _, _) => false,
    }
}

/// A draw list fit to stand for what a noise effect drew over `n` indexed
/// LEDs: one small HSV color per LED. Deterministic effects ignore the
/// draws, so such a list exists for every rendering.
pub open spec fn small_draws(draws: Seq<Color>, n: int) -> bool {
    draws.len() == n && forall|k: int| 0 <= k < draws.len() ==> small_hsv(#[trigger] draws[k])
}

/// The steps an effect paints at `frame` over `indices`, reading `probes`;
/// `draws` supplies the colors a noise effect drew and is ignored otherwise.
pub open spec fn effect_steps(
    e: Effect,
    indices: Seq<usize>,
    probes: Seq<Option<i64>>,
    frame: int,
    draws: Seq<Color>,
) -> Seq<(usize, Color)> {
    let n = indices.len() as int;
    match e {
        Effect::Static { color, .. } => Seq::new(n as nat, |i: int| (indices[i], color)),
        Effect::Gradient { from, to, .. } => Seq::new(
            n as nat,
            |i: int|
                (
                    indices[i],
                    blend_model(from, to, ColorOp::Blend(gradient_factor(i, n) as i64)),
                ),
        ),
        Effect::Noise(_) => Seq::new(n as nat, |i: int| (indices[i], draws[i])),
        Effect::Temperature {
            sensor,
            min_temperature,
            max_temperature,
            min_color,
            max_color,
            ..
        } => {
            let t = temp_value(probes, sensor as int, max_temperature as int);
            let f = temp_factor(t, min_temperature as int, max_temperature as int);
            let target = blend_model(min_color, max_color, ColorOp::Blend(f as i64));
            Seq::new(n as nat, |i: int| (indices[i], target))
        },
        Effect::Wave { frames_per_led, length, colors, .. } => wave_steps_upto(
            colors@,
            frames_per_led as int,
            length as int,
            indices,
            frame,
            length as int,
        ),
        Effect::Rotation { duration, colors, reverse, .. } => Seq::new(
            n as nat,
            |i: int|
                (
                    indices[i],
                    palette_mix_mod(
                        colors@,
                        rotation_pos(duration as int, reverse, frame, i, n, colors@.len() as int),
                    ),
                ),
        ),
        Effect::Pattern { frames_per_led, colors, reverse, .. } => {
            let clen = colors@.len() as int;
            let progress = pattern_progress(frames_per_led, frame, clen);
            Seq::new(
                n as nat,
                |i: int|
                    (
                        if reverse {
                            indices[i]
                        } else {
                            indices[n - 1 - i]
                        },
                        colors@[(progress + i) % clen],
                    ),
            )
        },
    }
}

/// Law: a pattern without a cadence never advances. With `frames_per_led`
/// absent, the steps a pattern paints are the same at every frame, so its
/// rendering never changes across ticks.
pub proof fn lemma_pattern_without_cadence_is_static(
    e: Effect,
    indices: Seq<usize>,
    probes: Seq<Option<i64>>,
    f1: int,
    f2: int,
    draws: Seq<Color>,
)
    requires
        e matches Effect::Pattern { frames_per_led: None, .. },
    ensures
        effect_steps(e, indices, probes, f1, draws) == effect_steps(e, indices, probes, f2, draws),
{
    assert(effect_steps(e, indices, probes, f1, draws) =~= effect_steps(
        e,
        indices,
        probes,
        f2,
        draws,
    ));
}

/// Blends each step's target onto its LED, in step order.
fn paint_exec(colors: &mut Vec<Color>, steps: &Vec<(usize, Color)>, op: &ColorOp)
    requires
        op.wf(),
        forall|k: int| 0 <= k < steps@.len() ==> (#[trigger] steps@[k]).0 < old(colors)@.len(),
        forall|k: int| 0 <= k < steps@.len() ==> (#[trigger] steps@[k]).1.wf(),
        forall|k: int| 0 <= k < old(colors)@.len() ==> (#[trigger] old(colors)@[k]).wf(),
    ensures
        final(colors)@ == paint(old(colors)@, steps@, *op),
        final(colors)@.len() == old(colors)@.len(),
        forall|k: int| 0 <= k < final(colors)@.len() ==> (#[trigger] final(colors)@[k]).wf(),
{
    let ghost base = colors@;
    let n = steps.len();
    let mut i: usize = 0;
    while i < n
        invariant
            i <= n,
            n == steps@.len(),
            op.wf(),
            forall|k: int| 0 <= k < steps@.len() ==> (#[trigger] steps@[k]).0 < base.len(),
            forall|k: int| 0 <= k < steps@.len() ==> (#[trigger] steps@[k]).1.wf(),
            colors@.len() == base.len(),
            forall|k: int| 0 <= k < colors@.len() ==> (#[trigger] colors@[k]).wf(),
            colors@ == paint(base, steps@.take(i as int), *op),
        decreases n - i,
    {
        let (led, target) = steps[i];
        let cur = colors[led];
        let newc = cur.blend(&target, op);
        colors.set(led, newc);
        proof {
            lemma_paint_snoc(base, steps@.take(i as int), steps@[i as int], *op);
            assert(steps@.take(i as int + 1) =~= steps@.take(i as int).push(steps@[i as int]));
        }
        i += 1;
    }
    proof {
        assert(steps@.take(n as int) =~= steps@);
    }
}

impl Effect {
    /// The blend operation the effect writes with.
    pub open spec fn op_spec(self) -> ColorOp {
        match self {
            Effect::Static { op, .. } => op,
            Effect::Gradient { op, .. } => op,
            Effect::Noise(op) => op,
            Effect::Temperature { op, .. } => op,
            Effect::Wave { op, .. } => op,
            Effect::Rotation { op, .. } => op,
            Effect::Pattern { op, .. } => op,
        }
    }

    /// The effect's parameters are within their documented ranges, and its
    /// sizes within machine limits.
    pub open spec fn wf(self) -> bool {
        match self {
            Effect::Static { color, op } => color.wf() && op.wf(),
            Effect::Gradient { from, to, op } => from.wf() && to.wf() && op.wf(),
            Effect::Noise(op) => op.wf(),
            Effect::Temperature { min_temperature, max_temperature, min_color, max_color, op, .. } => min_color.wf()
                && max_color.wf() && op.wf() && -1000000 <= min_temperature
                && min_temperature < max_temperature <= 1000000,
            Effect::Wave { frames_per_led, length, colors, op } => op.wf() && 1 <= frames_per_led
                && 1 <= length <= 100000 && 1 <= colors@.len() <= 10000 && (forall|i: int|
                0 <= i < colors@.len() ==> (#[trigger] colors@[i]).wf()),
            Effect::Rotation { duration, colors, op, .. } => op.wf() && 1 <= duration <= 1000000
                && 1 <= colors@.len() <= 10000 && (forall|i: int|
                0 <= i < colors@.len() ==> (#[trigger] colors@[i]).wf()),
            Effect::Pattern { frames_per_led, colors, op, .. } => op.wf() && (match frames_per_led {
                Some(fpl) => fpl >= 1,
                None => true,
            }) && 1 <= colors@.len() <= 10000 && (forall|i: int|
                0 <= i < colors@.len() ==> (#[trigger] colors@[i]).wf()),
        }
    }

    /// Whether the effect's output can change from tick to tick.
    pub open spec fn animated(self) -> bool {
        match self {
            Effect::Noise(_) => true,
            Effect::Temperature { .. } => true,
            Effect::Wave { .. } => true,
            Effect::Rotation { .. } => true,
            _ => false,
        }
    }

    /// Whether the effect's output can change from tick to tick.
    pub fn is_animated(&self) -> (res: bool)
        ensures
            res == self.animated(),
    {
        match self {
            Effect::Noise(_) => true,
            Effect::Temperature { .. } => true,
            Effect::Wave { .. } => true,
            Effect::Rotation { .. } => true,
            _ => false,
        }
    }

    /// Renders one tick of the effect onto `strip`: the strip is first grown
    /// so that every listed index is addressable, then the effect's per-LED
    /// target colors are blended onto the indexed LEDs in list order.
    pub fn apply(
        &self,
        strip: &mut Strip,
        probes: &Vec<Option<i64>>,
        indices: &Vec<usize>,
        frame: usize,
    )
        requires
            self.wf(),
            old(strip).wf(),
            forall|k: int| 0 <= k < probes@.len() ==> probe_ok(#[trigger] probes@[k]),
            forall|k: int| 0 <= k < indices@.len() ==> (#[trigger] indices@[k]) < usize::MAX,
            indices@.len() <= 100000000,
        ensures
            final(strip).wf(),
            final(strip).colors@.len() == grown(old(strip).colors@, req_len(indices@)).len(),
            (*self matches Effect::Noise(_)) ==> exists|draws: Seq<Color>|
                draws.len() == indices@.len() && (forall|k: int|
                    0 <= k < draws.len() ==> small_hsv(#[trigger] draws[k]))
                    && final(strip).colors@ == paint(
                    grown(old(strip).colors@, req_len(indices@)),
                    effect_steps(*self, indices@, probes@, frame as int, draws),
                    self.op_spec(),
                ),
            !(*self matches Effect::Noise(_)) ==> final(strip).colors@ == paint(
                grown(old(strip).colors@, req_len(indices@)),
                effect_steps(*self, indices@, probes@, frame as int, Seq::empty()),
                self.op_spec(),
            ),
    {
        let ghost orig = strip.colors@;
        let mut required: usize = 0;
        let mut k: usize = 0;
        while k < indices.len()
            invariant
                k <= indices@.len(),
                forall|j: int| 0 <= j < indices@.len() ==> (#[trigger] indices@[j]) < usize::MAX,
                required as int == req_len(indices@.take(k as int)),
            decreases indices@.len() - k,
        {
            let idx = indices[k];
            proof {
                assert(indices@.take(k as int + 1).drop_last() =~= indices@.take(k as int));
            }
            if idx + 1 > required {
                required = idx + 1;
            }
            k += 1;
        }
        proof {
            assert(indices@.take(indices@.len() as int) =~= indices@);
            lemma_req_len_nonneg(indices@);
        }
        while strip.colors.len() < required
            invariant
                orig.len() <= strip.colors@.len(),
                strip.colors@.len() == orig.len() || strip.colors@.len() <= required as int,
                strip.colors@ == orig + Seq::new(
                    (strip.colors@.len() - orig.len()) as nat,
                    |j: int| black(),
                ),
                forall|j: int| 0 <= j < orig.len() ==> (#[trigger] orig[j]).wf(),
            decreases required as int - strip.colors@.len(),
        {
            strip.colors.push(Color::Rgb(0, 0, 0));
            proof {
                assert(strip.colors@ =~= orig + Seq::new(
                    (strip.colors@.len() - orig.len()) as nat,
                    |j: int| black(),
                ));
            }
        }
        let ghost base = strip.colors@;
        proof {
            if orig.len() >= req_len(indices@) {
                assert(base =~= grown(orig, req_len(indices@)));
            } else {
                assert(base =~= grown(orig, req_len(indices@)));
            }
            assert forall|j: int| 0 <= j < base.len() implies (#[trigger] base[j]).wf() by {
                if j >= orig.len() {
                    assert(base[j] == black());
                }
            }
            assert forall|j: int| 0 <= j < indices@.len() implies (#[trigger] indices@[j])
                < base.len() by {
                lemma_req_len_covers(indices@, j);
            }
        }
        match self {
            Effect::Static { color, op } => {
                let n = indices.len();
                let mut steps: Vec<(usize, Color)> = Vec::new();
                let mut i: usize = 0;
                while i < n
                    invariant
                        i <= n,
                        n == indices@.len(),
                        color.wf(),
                        steps@ == Seq::new(i as nat, |j: int| (indices@[j], *color)),
                    decreases n - i,
                {
                    steps.push((indices[i], *color));
                    proof {
                        assert(steps@ =~= Seq::new((i + 1) as nat, |j: int| (indices@[j], *color)));
                    }
                    i += 1;
                }
                proof {
                    assert(steps@ =~= effect_steps(
                        *self,
                        indices@,
                        probes@,
                        frame as int,
                        Seq::empty(),
                    ));
                }
                paint_exec(&mut strip.colors, &steps, op);
            },
            Effect::Gradient { from, to, op } => {
                let n = indices.len();
                let mut steps: Vec<(usize, Color)> = Vec::new();
                let mut i: usize = 0;
                while i < n
                    invariant
                        i <= n,
                        n == indices@.len(),
                        indices@.len() <= 100000000,
                        from.wf(),
                        to.wf(),
                        steps@ == Seq::new(
                            i as nat,
                            |j: int|
                                (
                                    indices@[j],
                                    blend_model(
                                        *from,
                                        *to,
                                        ColorOp::Blend(gradient_factor(j, n as int) as i64),
                                    ),
                                ),
                        ),
                        forall|j: int| 0 <= j < steps@.len() ==> (#[trigger] steps@[j]).1.wf(),
                    decreases n - i,
                {
                    let t: u64 = if n <= 1 {
                        0
                    } else {
                        proof {
                            lemma_ratio_unit(i as int, (n - 1) as int);
                        }
                        (i as u64) * 1000 / ((n - 1) as u64)
                    };
                    let c = from.blend(to, &ColorOp::Blend(t as i64));
                    steps.push((indices[i], c));
                    proof {
                        assert(steps@ =~= Seq::new(
                            (i + 1) as nat,
                            |j: int|
                                (
                                    indices@[j],
                                    blend_model(
                                        *from,
                                        *to,
                                        ColorOp::Blend(gradient_factor(j, n as int) as i64),
                                    ),
                                ),
                        ));
                    }
                    i += 1;
                }
                proof {
                    assert(steps@ =~= effect_steps(
                        *self,
                        indices@,
                        probes@,
                        frame as int,
                        Seq::empty(),
                    ));
                }
                paint_exec(&mut strip.colors, &steps, op);
            },
            Effect::Noise(op) => {
                let n = indices.len();
                let mut steps: Vec<(usize, Color)> = Vec::new();
                let ghost mut draws: Seq<Color> = Seq::empty();
                let mut i: usize = 0;
                while i < n
                    invariant
                        i <= n,
                        n == indices@.len(),
                        draws.len() == i as int,
                        forall|j: int| 0 <= j < draws.len() ==> small_hsv(#[trigger] draws[j]),
                        steps@ == Seq::new(i as nat, |j: int| (indices@[j], draws[j])),
                        forall|j: int| 0 <= j < steps@.len() ==> (#[trigger] steps@[j]).1.wf(),
                    decreases n - i,
                {
                    let hr: u64 = rand::random::<u64>();
                    let sr: u64 = rand::random::<u64>();
                    let vr: u64 = rand::random::<u64>();
                    let c = Color::Hsv((hr % 1000) as i64, (sr % 1000) as i64, (vr % 1000) as i64);
                    steps.push((indices[i], c));
                    proof {
                        draws = draws.push(c);
                        assert(steps@ =~= Seq::new(
                            (i + 1) as nat,
                            |j: int| (indices@[j], draws[j]),
                        ));
                    }
                    i += 1;
                }
                proof {
                    assert(steps@ =~= effect_steps(*self, indices@, probes@, frame as int, draws));
                }
                paint_exec(&mut strip.colors, &steps, op);
                proof {
                    assert(effect_steps(*self, indices@, probes@, frame as int, draws)
                        == steps@);
                    assert(exists|dd: Seq<Color>|
                        dd.len() == indices@.len() && (forall|k2: int|
                            0 <= k2 < dd.len() ==> small_hsv(#[trigger] dd[k2]))
                            && strip.colors@ == paint(
                            grown(orig, req_len(indices@)),
                            effect_steps(*self, indices@, probes@, frame as int, dd),
                            self.op_spec(),
                        )) by {
                        assert(draws.len() == indices@.len() && (forall|k2: int|
                            0 <= k2 < draws.len() ==> small_hsv(#[trigger] draws[k2]))
                            && strip.colors@ == paint(
                            grown(orig, req_len(indices@)),
                            effect_steps(*self, indices@, probes@, frame as int, draws),
                            self.op_spec(),
                        ));
                    }
                }
            },
            Effect::Temperature {
                sensor,
                min_temperature,
                max_temperature,
                min_color,
                max_color,
                op,
            } => {
                let sv = *sensor;
                let t: i64 = if sv < probes.len() {
                    match probes[sv] {
                        Some(tv) => tv,
                        None => *max_temperature,
                    }
                } else {
                    *max_temperature
                };
                let capped: i64 = if t < *max_temperature {
                    t
                } else {
                    *max_temperature
                };
                let mut above: i64 = capped - *min_temperature;
                if above < 0 {
                    above = 0;
                }
                proof {
                    lemma_ratio_unit(above as int, (*max_temperature - *min_temperature) as int);
                }
                let f: i64 = above * 1000 / (*max_temperature - *min_temperature);
                let target = min_color.blend(max_color, &ColorOp::Blend(f));
                let n = indices.len();
                let mut steps: Vec<(usize, Color)> = Vec::new();
                let mut i: usize = 0;
                while i < n
                    invariant
                        i <= n,
                        n == indices@.len(),
                        target.wf(),
                        steps@ == Seq::new(i as nat, |j: int| (indices@[j], target)),
                        forall|j: int| 0 <= j < steps@.len() ==> (#[trigger] steps@[j]).1.wf(),
                    decreases n - i,
                {
                    steps.push((indices[i], target));
                    proof {
                        assert(steps@ =~= Seq::new((i + 1) as nat, |j: int| (indices@[j], target)));
                    }
                    i += 1;
                }
                proof {
                    assert(steps@ =~= effect_steps(
                        *self,
                        indices@,
                        probes@,
                        frame as int,
                        Seq::empty(),
                    ));
                }
                paint_exec(&mut strip.colors, &steps, op);
            },
            Effect::Wave { frames_per_led, length, colors, op } => {
                let fpl = *frames_per_led;
                let len = *length;
                let clen = colors.len();
                let n = indices.len();
                let cycle = n + 2 * len;
                let progress = (frame / fpl) % cycle;
                let mut steps: Vec<(usize, Color)> = Vec::new();
                let mut i: usize = 0;
                while i < len
                    invariant
                        i <= len,
                        n == indices@.len(),
                        indices@.len() <= 100000000,
                        1 <= len <= 100000,
                        clen == colors@.len(),
                        1 <= clen <= 10000,
                        fpl >= 1,
                        forall|j: int| 0 <= j < colors@.len() ==> (#[trigger] colors@[j]).wf(),
                        forall|j: int| 0 <= j < indices@.len() ==> (#[trigger] indices@[j])
                            < base.len(),
                        cycle == n + 2 * len,
                        progress == ((frame as int) / (fpl as int)) % (cycle as int),
                        progress < cycle,
                        steps@ == wave_steps_upto(
                            colors@,
                            fpl as int,
                            len as int,
                            indices@,
                            frame as int,
                            i as int,
                        ),
                        forall|j: int| 0 <= j < steps@.len() ==> (#[trigger] steps@[j]).0
                            < base.len(),
                        forall|j: int| 0 <= j < steps@.len() ==> (#[trigger] steps@[j]).1.wf(),
                    decreases len - i,
                {
                    if progress + i >= len && progress + i - len < n {
                        let pos = progress + i - len;
                        proof {
                            lemma_mul_bounds((i as int) * 1000, clen as int, 100000000, 10000);
                        }
                        let xm: u64 = (i as u64) * 1000 * (clen as u64) / (len as u64);
                        let lower: usize = if xm / 1000 < (clen - 1) as u64 {
                            (xm / 1000) as usize
                        } else {
                            clen - 1
                        };
                        let upper: usize = if (xm + 999) / 1000 < (clen - 1) as u64 {
                            ((xm + 999) / 1000) as usize
                        } else {
                            clen - 1
                        };
                        let fr: i64 = (xm % 1000) as i64;
                        let c = colors[lower].blend(&colors[upper], &ColorOp::Blend(fr));
                        steps.push((indices[pos], c));
                    }
                    i += 1;
                }
                proof {
                    assert(steps@ =~= effect_steps(
                        *self,
                        indices@,
                        probes@,
                        frame as int,
                        Seq::empty(),
                    ));
                }
                paint_exec(&mut strip.colors, &steps, op);
            },
            Effect::Rotation { duration, colors, reverse, op } => {
                let d = *duration;
                let clen = colors.len();
                let n = indices.len();
                let progress: usize = if *reverse {
                    proof {
                        lemma_ratio_unit((d - frame % d) as int, d as int);
                    }
                    (d - frame % d) * 1000 / d
                } else {
                    proof {
                        lemma_ratio_unit((frame % d) as int, d as int);
                    }
                    (frame % d) * 1000 / d
                };
                let mut steps: Vec<(usize, Color)> = Vec::new();
                let mut i: usize = 0;
                while i < n
                    invariant
                        i <= n,
                        n == indices@.len(),
                        indices@.len() <= 100000000,
                        1 <= d <= 1000000,
                        clen == colors@.len(),
                        1 <= clen <= 10000,
                        forall|j: int| 0 <= j < colors@.len() ==> (#[trigger] colors@[j]).wf(),
                        progress == rotation_progress(d as int, *reverse, frame as int),
                        progress <= 1000,
                        steps@ == Seq::new(
                            i as nat,
                            |j: int|
                                (
                                    indices@[j],
                                    palette_mix_mod(
                                        colors@,
                                        rotation_pos(
                                            d as int,
                                            *reverse,
                                            frame as int,
                                            j,
                                            n as int,
                                            clen as int,
                                        ),
                                    ),
                                ),
                        ),
                        forall|j: int| 0 <= j < steps@.len() ==> (#[trigger] steps@[j]).1.wf(),
                    decreases n - i,
                {
                    let a: u64 = ((progress as u64) + (i as u64) * 1000 / (n as u64)) % 1000;
                    proof {
                        lemma_mul_bounds(a as int, (clen - 1) as int, 999, 9999);
                    }
                    let xm: u64 = a * ((clen - 1) as u64);
                    let lower: usize = ((xm / 1000) % (clen as u64)) as usize;
                    let upper: usize = (((xm + 999) / 1000) % (clen as u64)) as usize;
                    let fr: i64 = (xm % 1000) as i64;
                    let c = colors[lower].blend(&colors[upper], &ColorOp::Blend(fr));
                    steps.push((indices[i], c));
                    proof {
                        assert(steps@ =~= Seq::new(
                            (i + 1) as nat,
                            |j: int|
                                (
                                    indices@[j],
                                    palette_mix_mod(
                                        colors@,
                                        rotation_pos(
                                            d as int,
                                            *reverse,
                                            frame as int,
                                            j,
                                            n as int,
                                            clen as int,
                                        ),
                                    ),
                                ),
                        ));
                    }
                    i += 1;
                }
                proof {
                    assert(steps@ =~= effect_steps(
                        *self,
                        indices@,
                        probes@,
                        frame as int,
                        Seq::empty(),
                    ));
                }
                paint_exec(&mut strip.colors, &steps, op);
            },
            Effect::Pattern { frames_per_led, colors, reverse, op } => {
                let clen = colors.len();
                let n = indices.len();
                let progress: usize = match *frames_per_led {
                    Some(fpl) => (frame / fpl) % clen,
                    None => 0,
                };
                let mut steps: Vec<(usize, Color)> = Vec::new();
                let mut i: usize = 0;
                while i < n
                    invariant
                        i <= n,
                        n == indices@.len(),
                        indices@.len() <= 100000000,
                        clen == colors@.len(),
                        1 <= clen <= 10000,
                        forall|j: int| 0 <= j < colors@.len() ==> (#[trigger] colors@[j]).wf(),
                        progress == pattern_progress(*frames_per_led, frame as int, clen as int),
                        progress < clen,
                        steps@ == Seq::new(
                            i as nat,
                            |j: int|
                                (
                                    if *reverse {
                                        indices@[j]
                                    } else {
                                        indices@[n - 1 - j]
                                    },
                                    colors@[(progress + j) % (clen as int)],
                                ),
                        ),
                        forall|j: int| 0 <= j < steps@.len() ==> (#[trigger] steps@[j]).1.wf(),
                    decreases n - i,
                {
                    let led = if *reverse {
                        indices[i]
                    } else {
                        indices[n - 1 - i]
                    };
                    let c = colors[(progress + i) % clen];
                    steps.push((led, c));
                    proof {
                        assert(steps@ =~= Seq::new(
                            (i + 1) as nat,
                            |j: int|
                                (
                                    if *reverse {
                                        indices@[j]
                                    } else {
                                        indices@[n - 1 - j]
                                    },
                                    colors@[(progress + j) % (clen as int)],
                                ),
                        ));
                    }
                    i += 1;
                }
                proof {
                    assert(steps@ =~= effect_steps(
                        *self,
                        indices@,
                        probes@,
                        frame as int,
                        Seq::empty(),
                    ));
                }
                paint_exec(&mut strip.colors, &steps, op);
            },
        }
    }
}

} // verus!
