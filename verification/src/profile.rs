use vstd::prelude::*;
use crate::device::{Fan, Strip};
use crate::effect::{grown, indices_ok, paint, probe_ok, req_len, Effect};

verus! {

/// The loaded configuration: the lighting profiles and the fan profiles, in
/// their evaluation order.
#[derive(Clone, Debug)]
#[verifier::ext_equal]
pub struct Config {
    pub color_profiles: Vec<ColorProfile>,
    pub fan_profiles: Vec<FanProfile>,
}

/// A named, trigger-gated bundle of lighting bindings. A transient profile
/// is applied as an overlay only while a trigger holds and never becomes the
/// current profile.
#[derive(Clone, Debug)]
#[verifier::ext_equal]
pub struct ColorProfile {
    pub name: String,
    pub triggers: Vec<Trigger>,
    pub transient: bool,
    pub strip_profiles: Vec<StripConfig>,
}

/// A named, trigger-gated bundle of fan bindings.
#[derive(Clone, Debug)]
#[verifier::ext_equal]
pub struct FanProfile {
    pub name: String,
    pub triggers: Vec<Trigger>,
    pub fans: Vec<FanConfig>,
}

/// One fan binding: which device and channel, and the behavior to set.
#[derive(Clone, Debug)]
#[verifier::ext_equal]
pub struct FanConfig {
    pub device: String,
    pub channel: usize,
    pub config: Fan,
}

/// One lighting binding: which device and channel, the LEDs it covers, and
/// the effect to render onto them.
#[derive(Clone, Debug)]
#[verifier::ext_equal]
pub struct StripConfig {
    pub device: String,
    pub channel: usize,
    pub indices: Indices,
    pub effect: Effect,
}

/// The LEDs a binding covers. Ranges exclude their upper bound. A value must
/// be normalized to `Specific` once, by `initialize`, before it is read.
#[derive(Clone, Debug)]
#[verifier::ext_equal]
pub enum Indices {
    Range(usize, usize),
    Ranges(Vec<(usize, usize)>),
    Specific(Vec<usize>),
}

/// A condition evaluated against the flattened probe snapshot. Temperatures
/// are in hundredths of a degree. `ProcessRunning` is a stub collaborator
/// and never fires.
#[derive(Clone, Debug)]
#[verifier::ext_equal]
pub enum Trigger {
    SensorAbove { sensor: usize, temperature: i64 },
    SensorBelow { sensor: usize, temperature: i64 },
    ProcessRunning { name: String },
}

/// The consecutive indices `lo..hi`.
pub open spec fn range_seq(lo: int, hi: int) -> Seq<usize> {
    Seq::new(if hi >= lo { (hi - lo) as nat } else { 0 }, |k: int| (lo + k) as usize)
}

/// The concatenation of the given ranges, each excluding its upper bound.
pub open spec fn flat_ranges(rs: Seq<(usize, usize)>) -> Seq<usize>
    decreases rs.len(),
{
    if rs.len() == 0 {
        Seq::empty()
    } else {
        flat_ranges(rs.drop_last()) + range_seq(rs.last().0 as int, rs.last().1 as int)
    }
}

impl Indices {
    /// Ranges do not run backwards, so flattening them needs no more memory
    /// than their span.
    pub open spec fn wf(self) -> bool {
        match self {
            Indices::Range(lo, hi) => lo <= hi,
            Indices::Ranges(rs) => forall|i: int|
                0 <= i < rs@.len() ==> (#[trigger] rs@[i]).0 <= rs@[i].1,
            Indices::Specific(_) => true,
        }
    }

    /// The index list this value denotes once flattened.
    pub open spec fn flat(self) -> Seq<usize> {
        match self {
            Indices::Range(lo, hi) => range_seq(lo as int, hi as int),
            Indices::Ranges(rs) => flat_ranges(rs@),
            Indices::Specific(v) => v@,
        }
    }

    /// Flattens ranges into an explicit index list. Must be called once per
    /// loaded configuration before `indices` is read.
    pub fn initialize(&mut self)
        requires
            old(self).wf(),
        ensures
            *final(self) matches Indices::Specific(v) && v@ == old(self).flat(),
    {
        match self {
            Indices::Specific(_) => {},
            Indices::Range(from, to) => {
                let lo = *from;
                let hi = *to;
                let mut result: Vec<usize> = Vec::new();
                let mut i = lo;
                while i < hi
                    invariant
                        lo <= i <= hi,
                        result@ == range_seq(lo as int, i as int),
                    decreases hi - i,
                {
                    result.push(i);
                    proof {
                        assert(result@ =~= range_seq(lo as int, i as int + 1));
                    }
                    i = i + 1;
                }
                *self = Indices::Specific(result);
            },
            Indices::Ranges(ranges) => {
                let n = ranges.len();
                let mut result: Vec<usize> = Vec::new();
                let mut r: usize = 0;
                while r < n
                    invariant
                        r <= n,
                        n == ranges@.len(),
                        forall|j: int| 0 <= j < ranges@.len() ==> (#[trigger] ranges@[j]).0
                            <= ranges@[j].1,
                        result@ == flat_ranges(ranges@.take(r as int)),
                    decreases n - r,
                {
                    let (lo, hi) = ranges[r];
                    let ghost sofar = result@;
                    let mut i = lo;
                    while i < hi
                        invariant
                            lo <= i <= hi,
                            result@ == sofar + range_seq(lo as int, i as int),
                        decreases hi - i,
                    {
                        result.push(i);
                        proof {
                            assert(result@ =~= sofar + range_seq(lo as int, i as int + 1));
                        }
                        i = i + 1;
                    }
                    proof {
                        assert(ranges@.take(r as int + 1).drop_last() =~= ranges@.take(r as int));
                        if lo >= hi {
                            assert(result@ =~= sofar + range_seq(lo as int, hi as int));
                        }
                        assert(result@ == flat_ranges(ranges@.take(r as int + 1)));
                    }
                    r = r + 1;
                }
                proof {
                    assert(ranges@.take(n as int) =~= ranges@);
                }
                *self = Indices::Specific(result);
            },
        }
    }

    /// The flattened index list. Reading an un-normalized value is a
    /// contract violation, so normalization is a precondition.
    pub fn indices(&self) -> (res: &Vec<usize>)
        requires
            *self matches Indices::Specific(_),
        ensures
            res@ == self.flat(),
    {
        match self {
            Indices::Specific(v) => v,
            _ => vstd::pervasive::unreached(),
        }
    }
}

impl Trigger {
    /// Whether the condition holds of the probe snapshot: a sensor
    /// comparison is false when the index is out of range or the probe has
    /// no reading, and a process trigger never fires.
    pub open spec fn fires(self, probes: Seq<Option<i64>>) -> bool {
        match self {
            Trigger::SensorAbove { sensor, temperature } => 0 <= sensor < probes.len()
                && match probes[sensor as int] {
                Some(v) => v > temperature,
                None => false,
            },
            Trigger::SensorBelow { sensor, temperature } => 0 <= sensor < probes.len()
                && match probes[sensor as int] {
                Some(v) => v < temperature,
                None => false,
            },
            Trigger::ProcessRunning { .. } => false,
        }
    }

    /// Evaluates the condition against the probe snapshot.
    pub fn check(&self, probes: &Vec<Option<i64>>) -> (res: bool)
        ensures
            res == self.fires(probes@),
    {
        match self {
            Trigger::SensorAbove { sensor, temperature } => {
                if *sensor < probes.len() {
                    match probes[*sensor] {
                        Some(v) => v > *temperature,
                        None => false,
                    }
                } else {
                    false
                }
            },
            Trigger::SensorBelow { sensor, temperature } => {
                if *sensor < probes.len() {
                    match probes[*sensor] {
                        Some(v) => v < *temperature,
                        None => false,
                    }
                } else {
                    false
                }
            },
            Trigger::ProcessRunning { .. } => false,
        }
    }
}

impl StripConfig {
    /// The binding can be rendered: its effect is well formed and its index
    /// list is normalized and within machine limits.
    pub open spec fn wf(self) -> bool {
        &&& self.effect.wf()
        &&& self.indices matches Indices::Specific(_)
        &&& indices_ok(self.indices.flat())
    }

    /// Renders the binding's effect onto `strip` for this tick.
    pub fn apply(&self, strip: &mut Strip, probes: &Vec<Option<i64>>, frame: usize)
        requires
            self.wf(),
            old(strip).wf(),
            forall|k: int| 0 <= k < probes@.len() ==> probe_ok(#[trigger] probes@[k]),
        ensures
            final(strip).wf(),
            final(strip).colors@.len() == grown(
                old(strip).colors@,
                req_len(self.indices.flat()),
            ).len(),
            exists|draws: Seq<crate::color::Color>|
                crate::effect::small_draws(draws, self.indices.flat().len() as int) && final(strip).colors@ == paint(
                    grown(old(strip).colors@, req_len(self.indices.flat())),
                    crate::effect::effect_steps(
                        self.effect,
                        self.indices.flat(),
                        probes@,
                        frame as int,
                        draws,
                    ),
                    self.effect.op_spec(),
                ),
    {
        self.effect.apply(strip, probes, self.indices.indices(), frame);
        proof {
            let idx = self.indices.flat();
            let base = grown(old(strip).colors@, req_len(idx));
            if self.effect is Noise {
                let d = choose|d: Seq<crate::color::Color>|
                    d.len() == idx.len() && (forall|k: int|
                        0 <= k < d.len() ==> crate::effect::small_hsv(#[trigger] d[k]))
                        && strip.colors@ == paint(
                        base,
                        crate::effect::effect_steps(self.effect, idx, probes@, frame as int, d),
                        self.effect.op_spec(),
                    );
                assert(crate::effect::small_draws(d, idx.len() as int));
            } else {
                let d0 = Seq::new(idx.len(), |k: int| crate::color::Color::Hsv(0, 0, 0));
                assert(crate::effect::small_draws(d0, idx.len() as int));
                assert(crate::effect::effect_steps(self.effect, idx, probes@, frame as int, d0)
                    =~= crate::effect::effect_steps(
                    self.effect,
                    idx,
                    probes@,
                    frame as int,
                    Seq::<crate::color::Color>::empty(),
                ));
            }
        }
    }
}

impl ColorProfile {
    /// Every binding of the profile is ready to render.
    pub open spec fn wf(self) -> bool {
        forall|i: int| 0 <= i < self.strip_profiles@.len() ==> (#[trigger] self.strip_profiles@[
            i
        ]).wf()
    }

    /// Whether any binding's effect can change from tick to tick.
    pub open spec fn animated(self) -> bool {
        exists|i: int| 0 <= i < self.strip_profiles@.len() && (#[trigger] self.strip_profiles@[
            i
        ]).effect.animated()
    }

    /// Normalizes the index lists of every binding. Must be called once per
    /// loaded configuration before the profile is used.
    pub fn initialize(&mut self)
        requires
            forall|i: int| 0 <= i < old(self).strip_profiles@.len() ==> (
            #[trigger] old(self).strip_profiles@[i]).indices.wf(),
        ensures
            final(self).name == old(self).name,
            final(self).triggers == old(self).triggers,
            final(self).transient == old(self).transient,
            final(self).strip_profiles@.len() == old(self).strip_profiles@.len(),
            forall|i: int| 0 <= i < final(self).strip_profiles@.len() ==> {
                let new_sp = #[trigger] final(self).strip_profiles@[i];
                let old_sp = old(self).strip_profiles@[i];
                &&& new_sp.device == old_sp.device
                &&& new_sp.channel == old_sp.channel
                &&& new_sp.effect == old_sp.effect
                &&& new_sp.indices matches Indices::Specific(v) && v@ == old_sp.indices.flat()
            },
    {
        let ghost orig = self.strip_profiles@;
        let ghost oself = *self;
        let n = self.strip_profiles.len();
        let mut out: Vec<StripConfig> = Vec::new();
        let mut i: usize = 0;
        while i < n
            invariant
                i <= n,
                n == orig.len(),
                self.name == oself.name,
                self.triggers == oself.triggers,
                self.transient == oself.transient,
                self.strip_profiles@ == orig.skip(i as int),
                forall|j: int| 0 <= j < orig.len() ==> (#[trigger] orig[j]).indices.wf(),
                out@.len() == i as int,
                forall|j: int| 0 <= j < i as int ==> {
                    let new_sp = #[trigger] out@[j];
                    let old_sp = orig[j];
                    &&& new_sp.device == old_sp.device
                    &&& new_sp.channel == old_sp.channel
                    &&& new_sp.effect == old_sp.effect
                    &&& new_sp.indices matches Indices::Specific(v) && v@ == old_sp.indices.flat()
                },
            decreases n - i,
        {
            proof {
                assert(self.strip_profiles@[0] == orig[i as int]);
            }
            let mut sp = self.strip_profiles.remove(0);
            sp.indices.initialize();
            out.push(sp);
            proof {
                assert(self.strip_profiles@ =~= orig.skip(i as int + 1));
            }
            i += 1;
        }
        self.strip_profiles = out;
    }

    /// Whether any binding's effect can change from tick to tick.
    pub fn is_animated(&self) -> (res: bool)
        ensures
            res == self.animated(),
    {
        let n = self.strip_profiles.len();
        let mut i: usize = 0;
        while i < n
            invariant
                i <= n,
                n == self.strip_profiles@.len(),
                forall|j: int| 0 <= j < i as int ==> !(#[trigger] self.strip_profiles@[
                    j
                ]).effect.animated(),
            decreases n - i,
        {
            if self.strip_profiles[i].effect.is_animated() {
                return true;
            }
            i += 1;
        }
        false
    }
}

} // verus!
