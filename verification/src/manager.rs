use vstd::prelude::*;
use crate::corsair::{fan_ok, CorsairLighting};
use crate::effect::{probe_ok, req_len};
use crate::device::{Fan, Strip};
use crate::profile::{ColorProfile, Config, FanConfig, FanProfile, Indices, StripConfig, Trigger};

verus! {

/// What one tick decided, for the caller to act on: which profiles are
/// selected, whether each changed (a change is what gets logged), whether
/// the lighting was re-rendered, and whether a stall was detected and every
/// device must be reinitialized.
#[derive(Clone, Copy, Debug, PartialEq, Eq, Structural)]
pub struct TickActions {
    pub color_profile: usize,
    pub color_changed: bool,
    pub rendered: bool,
    pub fan_profile: usize,
    pub fan_changed: bool,
    pub reinitialize: bool,
}

/// Whether a color profile's triggers select it this tick: transient
/// profiles never take part in selection.
pub open spec fn profile_matches(p: ColorProfile, probes: Seq<Option<i64>>) -> bool {
    !p.transient && exists|t: int|
        0 <= t < p.triggers@.len() && (#[trigger] p.triggers@[t]).fires(probes)
}

/// Whether a fan profile's triggers select it this tick.
pub open spec fn fan_profile_matches(p: FanProfile, probes: Seq<Option<i64>>) -> bool {
    exists|t: int| 0 <= t < p.triggers@.len() && (#[trigger] p.triggers@[t]).fires(probes)
}

/// The color-profile selection scanned from position `i` with `acc` as the
/// best candidate so far: the last matching profile wins.
pub open spec fn select_color_from(
    ps: Seq<ColorProfile>,
    probes: Seq<Option<i64>>,
    acc: usize,
    i: int,
) -> usize
    decreases ps.len() - i,
{
    if i < 0 || i >= ps.len() {
        acc
    } else {
        select_color_from(
            ps,
            probes,
            if profile_matches(ps[i], probes) {
                i as usize
            } else {
                acc
            },
            i + 1,
        )
    }
}

/// The selected color profile for a tick: the last profile in list order
/// whose triggers match, else the current one, else the first.
pub open spec fn select_color(
    ps: Seq<ColorProfile>,
    probes: Seq<Option<i64>>,
    current: Option<usize>,
) -> usize {
    select_color_from(
        ps,
        probes,
        match current {
            Some(c) => c,
            None => 0,
        },
        0,
    )
}

/// The fan-profile selection scanned from position `i`.
pub open spec fn select_fan_from(
    ps: Seq<FanProfile>,
    probes: Seq<Option<i64>>,
    acc: usize,
    i: int,
) -> usize
    decreases ps.len() - i,
{
    if i < 0 || i >= ps.len() {
        acc
    } else {
        select_fan_from(
            ps,
            probes,
            if fan_profile_matches(ps[i], probes) {
                i as usize
            } else {
                acc
            },
            i + 1,
        )
    }
}

/// The selected fan profile for a tick, by the same last-match rule.
pub open spec fn select_fan(
    ps: Seq<FanProfile>,
    probes: Seq<Option<i64>>,
    current: Option<usize>,
) -> usize {
    select_fan_from(
        ps,
        probes,
        match current {
            Some(c) => c,
            None => 0,
        },
        0,
    )
}

/// Whether any transient profile's triggers fire this tick.
pub open spec fn any_transient_fires(ps: Seq<ColorProfile>, probes: Seq<Option<i64>>) -> bool {
    exists|i: int|
        0 <= i < ps.len() && (#[trigger] ps[i]).transient && (exists|t: int|
            0 <= t < ps[i].triggers@.len() && (#[trigger] ps[i].triggers@[t]).fires(probes))
}

/// A tick later than two seconds after the previous one means the process
/// or host was suspended.
pub open spec fn stall_detected(last_ms: u64, now_ms: u64) -> bool {
    now_ms > last_ms + 2000
}

/// A lighting binding the manager can hand to a device: well formed and
/// fitting the device's 250-LED address space.
pub open spec fn sc_ok(sc: StripConfig) -> bool {
    sc.wf() && req_len(sc.indices.flat()) <= 250
}

/// A color profile whose bindings are all renderable.
pub open spec fn cp_ok(p: ColorProfile) -> bool {
    forall|j: int| 0 <= j < p.strip_profiles@.len() ==> sc_ok(#[trigger] p.strip_profiles@[j])
}

/// A fan profile whose bindings all fit the wire format.
pub open spec fn fp_ok(p: FanProfile) -> bool {
    forall|j: int| 0 <= j < p.fans@.len() ==> fan_ok((#[trigger] p.fans@[j]).config)
}

/// When nothing at or after position `i` matches, the scan keeps `acc`.
pub proof fn lemma_select_color_keeps_acc(
    ps: Seq<ColorProfile>,
    probes: Seq<Option<i64>>,
    acc: usize,
    i: int,
)
    requires
        forall|k: int| i <= k < ps.len() ==> !profile_matches(#[trigger] ps[k], probes),
    ensures
        select_color_from(ps, probes, acc, i) == acc,
    decreases ps.len() - i,
{
    if 0 <= i < ps.len() {
        lemma_select_color_keeps_acc(ps, probes, acc, i + 1);
    }
}

/// Law: the last matching profile wins the tie-break. If profiles `a` and
/// `b` both match this tick, `a` comes before `b`, and nothing after `b`
/// matches, then the selection is exactly `b`, whatever profile was current.
pub proof fn lemma_profile_tie_break(
    ps: Seq<ColorProfile>,
    probes: Seq<Option<i64>>,
    current: Option<usize>,
    a: int,
    b: int,
)
    requires
        0 <= a < b < ps.len(),
        b <= usize::MAX,
        profile_matches(ps[a], probes),
        profile_matches(ps[b], probes),
        forall|k: int| b < k < ps.len() ==> !profile_matches(#[trigger] ps[k], probes),
    ensures
        select_color(ps, probes, current) == b,
{
    lemma_select_color_last_match(
        ps,
        probes,
        match current {
            Some(c) => c,
            None => 0,
        },
        0,
        b,
    );
}

/// When position `b` matches and nothing after it does, the scan from any
/// earlier position returns `b`.
pub proof fn lemma_select_color_last_match(
    ps: Seq<ColorProfile>,
    probes: Seq<Option<i64>>,
    acc: usize,
    i: int,
    b: int,
)
    requires
        0 <= i <= b < ps.len(),
        b <= usize::MAX,
        profile_matches(ps[b], probes),
        forall|k: int| b < k < ps.len() ==> !profile_matches(#[trigger] ps[k], probes),
    ensures
        select_color_from(ps, probes, acc, i) == b,
    decreases ps.len() - i,
{
    if i == b {
        lemma_select_color_keeps_acc(ps, probes, b as usize, i + 1);
    } else {
        if profile_matches(ps[i], probes) {
            lemma_select_color_last_match(ps, probes, i as usize, i + 1, b);
        } else {
            lemma_select_color_last_match(ps, probes, acc, i + 1, b);
        }
    }
}

/// Law: a transient profile is invisible to selection. Its triggers never
/// make it match, and replacing its trigger list with any other changes no
/// selection: the reported current profile is decided by non-transient
/// profiles alone.
pub proof fn lemma_transient_overlay_invisible(
    ps1: Seq<ColorProfile>,
    ps2: Seq<ColorProfile>,
    probes: Seq<Option<i64>>,
    current: Option<usize>,
    i: int,
)
    requires
        0 <= i < ps1.len(),
        ps1[i].transient,
        ps2.len() == ps1.len(),
        ps2[i].transient,
        forall|k: int| 0 <= k < ps1.len() && k != i ==> #[trigger] ps2[k] == ps1[k],
    ensures
        !profile_matches(ps1[i], probes),
        select_color(ps1, probes, current) == select_color(ps2, probes, current),
{
    lemma_select_transient_congruent(
        ps1,
        ps2,
        probes,
        match current {
            Some(c) => c,
            None => 0,
        },
        0,
        i,
    );
}

/// The selection scan never reads the trigger list of a transient profile.
pub proof fn lemma_select_transient_congruent(
    ps1: Seq<ColorProfile>,
    ps2: Seq<ColorProfile>,
    probes: Seq<Option<i64>>,
    acc: usize,
    k: int,
    i: int,
)
    requires
        0 <= i < ps1.len(),
        ps1[i].transient,
        ps2.len() == ps1.len(),
        ps2[i].transient,
        forall|m: int| 0 <= m < ps1.len() && m != i ==> #[trigger] ps2[m] == ps1[m],
    ensures
        select_color_from(ps1, probes, acc, k) == select_color_from(ps2, probes, acc, k),
    decreases ps1.len() - k,
{
    if 0 <= k < ps1.len() {
        if k == i {
            assert(!profile_matches(ps1[k], probes));
            assert(!profile_matches(ps2[k], probes));
        }
        if profile_matches(ps1[k], probes) {
            lemma_select_transient_congruent(ps1, ps2, probes, k as usize, k + 1, i);
        } else {
            lemma_select_transient_congruent(ps1, ps2, probes, acc, k + 1, i);
        }
    }
}

/// Whether any trigger of the list fires against the snapshot.
fn any_trigger_fires(triggers: &Vec<Trigger>, probes: &Vec<Option<i64>>) -> (res: bool)
    ensures
        res == (exists|t: int|
            0 <= t < triggers@.len() && (#[trigger] triggers@[t]).fires(probes@)),
{
    let n = triggers.len();
    let mut i: usize = 0;
    while i < n
        invariant
            i <= n,
            n == triggers@.len(),
            forall|k: int| 0 <= k < i as int ==> !(#[trigger] triggers@[k]).fires(probes@),
        decreases n - i,
    {
        if triggers[i].check(probes) {
            return true;
        }
        i += 1;
    }
    false
}

/// Whether two strings hold the same characters.
fn string_eq(a: &String, b: &String) -> (res: bool)
    ensures
        res == (a@ == b@),
{
    a.eq(b)
}

/// Whether any trigger of the list fires against the snapshot.
pub open spec fn triggers_fire(ts: Seq<Trigger>, probes: Seq<Option<i64>>) -> bool {
    exists|t: int| 0 <= t < ts.len() && (#[trigger] ts[t]).fires(probes)
}

/// The two device lists agree on all LED state: same length, and pointwise
/// the same strips and strip-dirty flags.
pub open spec fn strips_unchanged(a: Seq<CorsairLighting>, b: Seq<CorsairLighting>) -> bool {
    b.len() == a.len() && forall|d: int|
        0 <= d < a.len() ==> (#[trigger] b[d]).strips == a[d].strips && b[d].strips_dirty
            == a[d].strips_dirty
}

/// One binding rendered onto one device's strips: the addressed channel, if
/// it exists, was grown and painted with the effect's steps at `frame` (for
/// some noise draws), every other strip is untouched; a channel beyond the
/// device leaves the strips as they were.
pub open spec fn strip_rendered(
    pre: Seq<Strip>,
    post: Seq<Strip>,
    sc: StripConfig,
    probes: Seq<Option<i64>>,
    frame: int,
) -> bool {
    &&& post.len() == pre.len()
    &&& sc.channel < pre.len() ==> {
        &&& forall|j: int| 0 <= j < pre.len() && j != sc.channel ==> post[j] == pre[j]
        &&& exists|draws: Seq<crate::color::Color>|
            crate::effect::small_draws(draws, sc.indices.flat().len() as int) && post[
                sc.channel as int
            ].colors@ == crate::effect::paint(
                crate::effect::grown(
                    pre[sc.channel as int].colors@,
                    req_len(sc.indices.flat()),
                ),
                crate::effect::effect_steps(
                    sc.effect,
                    sc.indices.flat(),
                    probes,
                    frame,
                    draws,
                ),
                sc.effect.op_spec(),
            )
    }
    &&& sc.channel >= pre.len() ==> post == pre
}

/// One lighting binding applied across the device list: every device the
/// binding names has its strips rendered and its LED state marked dirty;
/// every other device's LED state is untouched.
pub open spec fn device_binding_applied(
    pre: CorsairLighting,
    post: CorsairLighting,
    sc: StripConfig,
    probes: Seq<Option<i64>>,
    frame: int,
) -> bool {
    if pre.name@ == sc.device@ {
        strip_rendered(pre.strips@, post.strips@, sc, probes, frame) && post.strips_dirty
    } else {
        post.strips == pre.strips && post.strips_dirty == pre.strips_dirty
    }
}

/// One lighting binding applied to the whole device list.
pub open spec fn binding_applied(
    pre: Seq<CorsairLighting>,
    post: Seq<CorsairLighting>,
    sc: StripConfig,
    probes: Seq<Option<i64>>,
    frame: int,
) -> bool {
    post.len() == pre.len() && forall|d: int|
        0 <= d < pre.len() ==> device_binding_applied(pre[d], #[trigger] post[d], sc, probes, frame)
}

/// A chain of device-list states that applies each binding of a profile in
/// order: state `k+1` is state `k` with binding `k` applied.
pub open spec fn lighting_chain(
    sts: Seq<Seq<CorsairLighting>>,
    pre: Seq<CorsairLighting>,
    scs: Seq<StripConfig>,
    probes: Seq<Option<i64>>,
    frame: int,
) -> bool {
    &&& sts.len() == scs.len() + 1
    &&& sts[0] == pre
    &&& forall|k: int|
        0 <= k < scs.len() ==> binding_applied(sts[k], sts[k + 1], #[trigger] scs[k], probes, frame)
}

/// A whole color profile rendered onto the device list: its bindings
/// applied in order, each from the state the previous one left; the LED
/// state of the result is that of the chain's end.
pub open spec fn profile_overlaid(
    pre: Seq<CorsairLighting>,
    post: Seq<CorsairLighting>,
    p: ColorProfile,
    probes: Seq<Option<i64>>,
    frame: int,
) -> bool {
    exists|sts: Seq<Seq<CorsairLighting>>|
        #[trigger] lighting_chain(sts, pre, p.strip_profiles@, probes, frame) && strips_unchanged(
            sts[p.strip_profiles@.len() as int],
            post,
        )
}

/// A chain of device-list states that processes the transient profiles in
/// list order: each one whose triggers fire is overlaid, every other
/// profile leaves the LED state untouched.
pub open spec fn overlay_chain(
    sts: Seq<Seq<CorsairLighting>>,
    pre: Seq<CorsairLighting>,
    profiles: Seq<ColorProfile>,
    probes: Seq<Option<i64>>,
    frame: int,
) -> bool {
    &&& sts.len() == profiles.len() + 1
    &&& sts[0] == pre
    &&& forall|k: int|
        0 <= k < profiles.len() ==> (if (#[trigger] profiles[k]).transient && triggers_fire(
            profiles[k].triggers@,
            probes,
        ) {
            profile_overlaid(sts[k], sts[k + 1], profiles[k], probes, frame)
        } else {
            strips_unchanged(sts[k], sts[k + 1])
        })
}

/// Every firing transient profile overlaid onto the device list in order;
/// the LED state of the result is that of the chain's end.
pub open spec fn transients_applied(
    pre: Seq<CorsairLighting>,
    post: Seq<CorsairLighting>,
    profiles: Seq<ColorProfile>,
    probes: Seq<Option<i64>>,
    frame: int,
) -> bool {
    exists|sts: Seq<Seq<CorsairLighting>>|
        #[trigger] overlay_chain(sts, pre, profiles, probes, frame) && strips_unchanged(
            sts[profiles.len() as int],
            post,
        )
}

/// What a whole tick does to the LED state: the selected profile is
/// rendered when the tick re-renders, and every firing transient profile is
/// overlaid afterwards, all at the tick's frame.
pub open spec fn tick_lighting_applied(
    pre: Seq<CorsairLighting>,
    post: Seq<CorsairLighting>,
    profiles: Seq<ColorProfile>,
    sel: int,
    rendered: bool,
    probes: Seq<Option<i64>>,
    frame: int,
) -> bool {
    exists|mid: Seq<CorsairLighting>|
        (if rendered {
            profile_overlaid(pre, mid, profiles[sel], probes, frame)
        } else {
            strips_unchanged(pre, mid)
        }) && #[trigger] transients_applied(mid, post, profiles, probes, frame)
}

/// One fan binding applied to one device's fan state: a matching name sets/// One fan binding applied to one device's fan state: a matching name sets
/// the addressed channel (if it exists) and marks the state dirty; any
/// other device is untouched.
pub open spec fn fans_after_binding(
    fans: Seq<Fan>,
    dirty: bool,
    name: Seq<char>,
    fc: FanConfig,
) -> (Seq<Fan>, bool) {
    if name == fc.device@ {
        (
            if fc.channel < fans.len() {
                fans.update(fc.channel as int, fc.config)
            } else {
                fans
            },
            true,
        )
    } else {
        (fans, dirty)
    }
}

/// The first `j` fan bindings of a profile applied in order to one device's
/// fan state.
pub open spec fn fans_after_bindings(
    fans: Seq<Fan>,
    dirty: bool,
    name: Seq<char>,
    fcs: Seq<FanConfig>,
    j: int,
) -> (Seq<Fan>, bool)
    decreases j,
{
    if j <= 0 {
        (fans, dirty)
    } else {
        let prev = fans_after_bindings(fans, dirty, name, fcs, j - 1);
        fans_after_binding(prev.0, prev.1, name, fcs[j - 1])
    }
}

/// The flattened probe snapshot of the devices before index `k`, in device
/// order, each device's probes in their own order.
pub open spec fn probes_concat(devices: Seq<CorsairLighting>, k: int) -> Seq<Option<i64>>
    decreases k,
{
    if k <= 0 {
        Seq::empty()
    } else {
        probes_concat(devices, k - 1) + devices[k - 1].probes@
    }
}

/// The control loop's owned state: the devices, the profile definitions,
/// the current selections, the global frame counter and the aggregated
/// probe snapshot, plus the two timers in milliseconds.
pub struct ProfileManager {
    pub devices: Vec<CorsairLighting>,
    pub color_profiles: Vec<ColorProfile>,
    pub color_profile_current: Option<usize>,
    pub fan_profiles: Vec<FanProfile>,
    pub fan_profile_current: Option<usize>,
    pub frame: usize,
    pub probes: Vec<Option<i64>>,
    pub last_update_ms: u64,
    pub last_log_ms: u64,
}

impl ProfileManager {
    /// Devices and profiles are well formed, at least one profile of each
    /// kind exists, the current selections are in range, and the snapshot
    /// holds readings the effects can compute with.
    pub open spec fn wf(self) -> bool {
        &&& forall|d: int| 0 <= d < self.devices@.len() ==> (#[trigger] self.devices@[d]).wf()
        &&& self.color_profiles@.len() >= 1
        &&& self.fan_profiles@.len() >= 1
        &&& forall|i: int| 0 <= i < self.color_profiles@.len() ==> cp_ok(
            #[trigger] self.color_profiles@[i],
        )
        &&& forall|i: int| 0 <= i < self.fan_profiles@.len() ==> fp_ok(
            #[trigger] self.fan_profiles@[i],
        )
        &&& match self.color_profile_current {
            Some(c) => c < self.color_profiles@.len(),
            None => true,
        }
        &&& match self.fan_profile_current {
            Some(c) => c < self.fan_profiles@.len(),
            None => true,
        }
        &&& forall|i: int| 0 <= i < self.probes@.len() ==> probe_ok(#[trigger] self.probes@[i])
    }

    /// Builds the manager: normalizes every color profile's index lists and
    /// starts with no profile current, frame zero and an empty snapshot.
    pub fn new(devices: Vec<CorsairLighting>, config: Config, now_ms: u64) -> (mgr:
        ProfileManager)
        requires
            forall|d: int| 0 <= d < devices@.len() ==> (#[trigger] devices@[d]).wf(),
            config.color_profiles@.len() >= 1,
            config.fan_profiles@.len() >= 1,
            forall|i: int, j: int|
                0 <= i < config.color_profiles@.len() && 0 <= j < (
                #[trigger] config.color_profiles@[i]).strip_profiles@.len() ==> {
                    let sc = #[trigger] config.color_profiles@[i].strip_profiles@[j];
                    sc.effect.wf() && sc.indices.wf() && crate::effect::indices_ok(
                        sc.indices.flat(),
                    ) && req_len(sc.indices.flat()) <= 250
                },
            forall|i: int| 0 <= i < config.fan_profiles@.len() ==> fp_ok(
                #[trigger] config.fan_profiles@[i],
            ),
        ensures
            mgr.wf(),
            mgr.devices@.len() == devices@.len(),
            mgr.color_profile_current is None,
            mgr.fan_profile_current is None,
            mgr.frame == 0,
            mgr.probes@.len() == 0,
            mgr.last_update_ms == now_ms,
            mgr.last_log_ms == now_ms,
            mgr.color_profiles@.len() == config.color_profiles@.len(),
            mgr.fan_profiles == config.fan_profiles,
            mgr.devices == devices,
            forall|i: int| 0 <= i < mgr.color_profiles@.len() ==> {
                let newp = #[trigger] mgr.color_profiles@[i];
                let oldp = config.color_profiles@[i];
                &&& newp.name == oldp.name
                &&& newp.triggers == oldp.triggers
                &&& newp.transient == oldp.transient
                &&& newp.strip_profiles@.len() == oldp.strip_profiles@.len()
                &&& forall|j: int| 0 <= j < newp.strip_profiles@.len() ==> {
                    let nsc = #[trigger] newp.strip_profiles@[j];
                    let osc = oldp.strip_profiles@[j];
                    &&& nsc.device == osc.device
                    &&& nsc.channel == osc.channel
                    &&& nsc.effect == osc.effect
                    &&& nsc.indices matches Indices::Specific(v) && v@ == osc.indices.flat()
                }
            },
    {
        let Config { color_profiles, fan_profiles } = config;
        let ghost orig = color_profiles@;
        let mut color_profiles = color_profiles;
        let n = color_profiles.len();
        let mut out: Vec<ColorProfile> = Vec::new();
        let mut i: usize = 0;
        while i < n
            invariant
                i <= n,
                n == orig.len(),
                color_profiles@ == orig.skip(i as int),
                forall|a: int, j: int|
                    0 <= a < orig.len() && 0 <= j < (#[trigger] orig[a]).strip_profiles@.len()
                        ==> {
                        let sc = #[trigger] orig[a].strip_profiles@[j];
                        sc.effect.wf() && sc.indices.wf() && crate::effect::indices_ok(
                            sc.indices.flat(),
                        ) && req_len(sc.indices.flat()) <= 250
                    },
                out@.len() == i as int,
                forall|a: int| 0 <= a < i as int ==> cp_ok(#[trigger] out@[a]),
                forall|a: int| 0 <= a < i as int ==> {
                    let newp = #[trigger] out@[a];
                    let oldp = orig[a];
                    &&& newp.name == oldp.name
                    &&& newp.triggers == oldp.triggers
                    &&& newp.transient == oldp.transient
                    &&& newp.strip_profiles@.len() == oldp.strip_profiles@.len()
                    &&& forall|j: int| 0 <= j < newp.strip_profiles@.len() ==> {
                        let nsc = #[trigger] newp.strip_profiles@[j];
                        let osc = oldp.strip_profiles@[j];
                        &&& nsc.device == osc.device
                        &&& nsc.channel == osc.channel
                        &&& nsc.effect == osc.effect
                        &&& nsc.indices matches Indices::Specific(v) && v@ == osc.indices.flat()
                    }
                },
            decreases n - i,
        {
            proof {
                assert(color_profiles@[0] == orig[i as int]);
            }
            let mut p = color_profiles.remove(0);
            p.initialize();
            proof {
                assert forall|j: int| 0 <= j < p.strip_profiles@.len() implies sc_ok(
                    #[trigger] p.strip_profiles@[j],
                ) by {
                    let sc = p.strip_profiles@[j];
                    let osc = orig[i as int].strip_profiles@[j];
                    assert(sc.indices.flat() == osc.indices.flat());
                }
            }
            out.push(p);
            proof {
                assert(color_profiles@ =~= orig.skip(i as int + 1));
            }
            i += 1;
        }
        ProfileManager {
            devices,
            color_profiles: out,
            color_profile_current: None,
            fan_profiles,
            fan_profile_current: None,
            frame: 0,
            probes: Vec::new(),
            last_update_ms: now_ms,
            last_log_ms: now_ms,
        }
    }

    /// Renders every binding of one color profile onto the devices whose
    /// name it addresses. Only the devices' LED state can change.
    fn render_profile(&mut self, pi: usize)
        requires
            pi < old(self).color_profiles@.len(),
            cp_ok(old(self).color_profiles@[pi as int]),
            forall|d: int| 0 <= d < old(self).devices@.len() ==> (
            #[trigger] old(self).devices@[d]).wf(),
            forall|i: int| 0 <= i < old(self).probes@.len() ==> probe_ok(
                #[trigger] old(self).probes@[i],
            ),
        ensures
            final(self).devices@.len() == old(self).devices@.len(),
            forall|d: int| 0 <= d < final(self).devices@.len() ==> (
            #[trigger] final(self).devices@[d]).wf(),
            forall|d: int| 0 <= d < final(self).devices@.len() ==> #[trigger] final(self).devices@[d] == (CorsairLighting {
                strips: final(self).devices@[d].strips,
                strips_dirty: final(self).devices@[d].strips_dirty,
                ..old(self).devices@[d]
            }),
            *final(self) == (ProfileManager { devices: final(self).devices, ..*old(self) }),
            profile_overlaid(
                old(self).devices@,
                final(self).devices@,
                old(self).color_profiles@[pi as int],
                old(self).probes@,
                old(self).frame as int,
            ),
    {
        let ghost om = *old(self);
        let ghost scs = om.color_profiles@[pi as int].strip_profiles@;
        let ghost mut sts: Seq<Seq<CorsairLighting>> = seq![om.devices@];
        let nb = self.color_profiles[pi].strip_profiles.len();
        let mut j: usize = 0;
        while j < nb
            invariant
                j <= nb,
                pi < om.color_profiles@.len(),
                cp_ok(om.color_profiles@[pi as int]),
                nb == om.color_profiles@[pi as int].strip_profiles@.len(),
                scs == om.color_profiles@[pi as int].strip_profiles@,
                sts.len() == j as int + 1,
                sts[j as int] == self.devices@,
                lighting_chain(sts, om.devices@, scs.take(j as int), om.probes@, om.frame as int),
                forall|i: int| 0 <= i < om.probes@.len() ==> probe_ok(#[trigger] om.probes@[i]),
                self.devices@.len() == om.devices@.len(),
                forall|d: int| 0 <= d < self.devices@.len() ==> (
                #[trigger] self.devices@[d]).wf(),
                forall|d: int| 0 <= d < self.devices@.len() ==> #[trigger] self.devices@[d]
                    == (CorsairLighting {
                    strips: self.devices@[d].strips,
                    strips_dirty: self.devices@[d].strips_dirty,
                    ..om.devices@[d]
                }),
                *self == (ProfileManager { devices: self.devices, ..om }),
            decreases nb - j,
        {
            let ghost base = self.devices@;
            let ndev = self.devices.len();
            let mut d: usize = 0;
            while d < ndev
                invariant
                    j < nb,
                    d <= ndev,
                    pi < om.color_profiles@.len(),
                    cp_ok(om.color_profiles@[pi as int]),
                    nb == om.color_profiles@[pi as int].strip_profiles@.len(),
                    scs == om.color_profiles@[pi as int].strip_profiles@,
                    base.len() == self.devices@.len(),
                    forall|dd: int|
                        0 <= dd < d as int ==> device_binding_applied(
                            base[dd],
                            #[trigger] self.devices@[dd],
                            scs[j as int],
                            om.probes@,
                            om.frame as int,
                        ),
                    forall|dd: int| d as int <= dd < base.len() ==> #[trigger] self.devices@[dd]
                        == base[dd],
                    forall|i: int| 0 <= i < om.probes@.len() ==> probe_ok(
                        #[trigger] om.probes@[i],
                    ),
                    ndev == self.devices@.len(),
                    self.devices@.len() == om.devices@.len(),
                    forall|dd: int| 0 <= dd < self.devices@.len() ==> (
                    #[trigger] self.devices@[dd]).wf(),
                    forall|dd: int| 0 <= dd < self.devices@.len() ==> #[trigger] self.devices@[
                        dd
                    ] == (CorsairLighting {
                        strips: self.devices@[dd].strips,
                        strips_dirty: self.devices@[dd].strips_dirty,
                        ..om.devices@[dd]
                    }),
                    *self == (ProfileManager { devices: self.devices, ..om }),
                decreases ndev - d,
            {
                let name_matches = string_eq(
                    &self.devices[d].name,
                    &self.color_profiles[pi].strip_profiles[j].device,
                );
                if name_matches {
                    let ghost before = self.devices@;
                    let mut dev = self.devices.remove(d);
                    dev.render(
                        &self.color_profiles[pi].strip_profiles[j],
                        &self.probes,
                        self.frame,
                    );
                    self.devices.insert(d, dev);
                    proof {
                        assert(self.devices@ =~= before.update(d as int, dev));
                        assert(device_binding_applied(
                            base[d as int],
                            self.devices@[d as int],
                            scs[j as int],
                            om.probes@,
                            om.frame as int,
                        ));
                    }
                } else {
                    proof {
                        assert(device_binding_applied(
                            base[d as int],
                            self.devices@[d as int],
                            scs[j as int],
                            om.probes@,
                            om.frame as int,
                        ));
                    }
                }
                d += 1;
            }
            proof {
                assert(binding_applied(base, self.devices@, scs[j as int], om.probes@, om.frame as int));
                sts = sts.push(self.devices@);
                assert(scs.take(j as int + 1) =~= scs.take(j as int).push(scs[j as int]));
                assert(lighting_chain(
                    sts,
                    om.devices@,
                    scs.take(j as int + 1),
                    om.probes@,
                    om.frame as int,
                ));
            }
            j += 1;
        }
        proof {
            assert(scs.take(nb as int) =~= scs);
            assert(strips_unchanged(sts[nb as int], self.devices@));
            assert(lighting_chain(sts, om.devices@, scs, om.probes@, om.frame as int));
        }
    }

    /// Applies every fan binding of one fan profile to the devices whose
    /// name it addresses, in binding order. Only the devices' fan state can
    /// change, and it changes exactly as the bindings say.
    fn apply_fan_profile(&mut self, pi: usize)
        requires
            pi < old(self).fan_profiles@.len(),
            fp_ok(old(self).fan_profiles@[pi as int]),
            forall|d: int| 0 <= d < old(self).devices@.len() ==> (
            #[trigger] old(self).devices@[d]).wf(),
        ensures
            final(self).devices@.len() == old(self).devices@.len(),
            forall|d: int| 0 <= d < final(self).devices@.len() ==> (
            #[trigger] final(self).devices@[d]).wf(),
            forall|d: int| 0 <= d < final(self).devices@.len() ==> #[trigger] final(self).devices@[d] == (CorsairLighting {
                fans: final(self).devices@[d].fans,
                fans_dirty: final(self).devices@[d].fans_dirty,
                ..old(self).devices@[d]
            }),
            forall|d: int| 0 <= d < final(self).devices@.len() ==> {
                let after = fans_after_bindings(
                    old(self).devices@[d].fans@,
                    old(self).devices@[d].fans_dirty,
                    old(self).devices@[d].name@,
                    old(self).fan_profiles@[pi as int].fans@,
                    old(self).fan_profiles@[pi as int].fans@.len() as int,
                );
                (#[trigger] final(self).devices@[d]).fans@ == after.0 && final(self).devices@[d].fans_dirty == after.1
            },
            *final(self) == (ProfileManager { devices: final(self).devices, ..*old(self) }),
    {
        let ghost om = *old(self);
        let ghost fcs = om.fan_profiles@[pi as int].fans@;
        let nb = self.fan_profiles[pi].fans.len();
        let mut j: usize = 0;
        while j < nb
            invariant
                j <= nb,
                pi < om.fan_profiles@.len(),
                fp_ok(om.fan_profiles@[pi as int]),
                fcs == om.fan_profiles@[pi as int].fans@,
                nb == fcs.len(),
                self.devices@.len() == om.devices@.len(),
                forall|d: int| 0 <= d < self.devices@.len() ==> (
                #[trigger] self.devices@[d]).wf(),
                forall|d: int| 0 <= d < self.devices@.len() ==> #[trigger] self.devices@[d]
                    == (CorsairLighting {
                    fans: self.devices@[d].fans,
                    fans_dirty: self.devices@[d].fans_dirty,
                    ..om.devices@[d]
                }),
                forall|d: int| 0 <= d < self.devices@.len() ==> {
                    let after = fans_after_bindings(
                        om.devices@[d].fans@,
                        om.devices@[d].fans_dirty,
                        om.devices@[d].name@,
                        fcs,
                        j as int,
                    );
                    (#[trigger] self.devices@[d]).fans@ == after.0 && self.devices@[d].fans_dirty == after.1
                },
                *self == (ProfileManager { devices: self.devices, ..om }),
            decreases nb - j,
        {
            let ndev = self.devices.len();
            let mut d: usize = 0;
            while d < ndev
                invariant
                    j < nb,
                    d <= ndev,
                    pi < om.fan_profiles@.len(),
                    fp_ok(om.fan_profiles@[pi as int]),
                    fcs == om.fan_profiles@[pi as int].fans@,
                    nb == fcs.len(),
                    ndev == self.devices@.len(),
                    self.devices@.len() == om.devices@.len(),
                    forall|dd: int| 0 <= dd < self.devices@.len() ==> (
                    #[trigger] self.devices@[dd]).wf(),
                    forall|dd: int| 0 <= dd < self.devices@.len() ==> #[trigger] self.devices@[
                        dd
                    ] == (CorsairLighting {
                        fans: self.devices@[dd].fans,
                        fans_dirty: self.devices@[dd].fans_dirty,
                        ..om.devices@[dd]
                    }),
                    forall|dd: int| 0 <= dd < self.devices@.len() ==> {
                        let upto = if dd < d as int {
                            j as int + 1
                        } else {
                            j as int
                        };
                        let after = fans_after_bindings(
                            om.devices@[dd].fans@,
                            om.devices@[dd].fans_dirty,
                            om.devices@[dd].name@,
                            fcs,
                            upto,
                        );
                        (#[trigger] self.devices@[dd]).fans@ == after.0 && self.devices@[dd].fans_dirty == after.1
                    },
                    *self == (ProfileManager { devices: self.devices, ..om }),
                decreases ndev - d,
            {
                let ghost prev = fans_after_bindings(
                    om.devices@[d as int].fans@,
                    om.devices@[d as int].fans_dirty,
                    om.devices@[d as int].name@,
                    fcs,
                    j as int,
                );
                let name_matches = string_eq(
                    &self.devices[d].name,
                    &self.fan_profiles[pi].fans[j].device,
                );
                if name_matches {
                    let ghost before = self.devices@;
                    let channel = self.fan_profiles[pi].fans[j].channel;
                    let config = self.fan_profiles[pi].fans[j].config;
                    let mut dev = self.devices.remove(d);
                    dev.set_fan(channel, config);
                    self.devices.insert(d, dev);
                    proof {
                        assert(self.devices@ =~= before.update(d as int, dev));
                    }
                }
                proof {
                    assert(fans_after_bindings(
                        om.devices@[d as int].fans@,
                        om.devices@[d as int].fans_dirty,
                        om.devices@[d as int].name@,
                        fcs,
                        j as int + 1,
                    ) == fans_after_binding(prev.0, prev.1, om.devices@[d as int].name@, fcs[j as int]));
                }
                d += 1;
            }
            j += 1;
        }
    }

    /// One control-loop tick: selects the color and fan profiles from the
    /// latest snapshot (the last matching profile wins), re-renders the
    /// lighting when the selection changed or the current profile is
    /// animated, overlays every firing transient profile, applies the fan
    /// profile on a change, and detects a stall of more than two seconds
    /// since the previous tick. The caller performs the transport work the
    /// returned actions call for.
    pub fn update(&mut self, now_ms: u64) -> (acts: TickActions)
        requires
            old(self).wf(),
            old(self).frame < usize::MAX,
        ensures
            final(self).wf(),
            acts.color_profile == select_color(
                old(self).color_profiles@,
                old(self).probes@,
                old(self).color_profile_current,
            ),
            acts.color_changed == (old(self).color_profile_current != Some(
                acts.color_profile,
            )),
            acts.rendered == (acts.color_changed || old(self).color_profiles@[
                acts.color_profile as int
            ].animated()),
            acts.fan_profile == select_fan(
                old(self).fan_profiles@,
                old(self).probes@,
                old(self).fan_profile_current,
            ),
            acts.fan_changed == (old(self).fan_profile_current != Some(acts.fan_profile)),
            acts.reinitialize == stall_detected(old(self).last_update_ms, now_ms),
            final(self).color_profile_current == Some(acts.color_profile),
            final(self).fan_profile_current == Some(acts.fan_profile),
            final(self).frame == old(self).frame + 1,
            final(self).last_update_ms == now_ms,
            final(self).last_log_ms == old(self).last_log_ms,
            final(self).color_profiles == old(self).color_profiles,
            final(self).fan_profiles == old(self).fan_profiles,
            final(self).probes == old(self).probes,
            final(self).devices@.len() == old(self).devices@.len(),
            forall|d: int| 0 <= d < final(self).devices@.len() ==> #[trigger] final(self).devices@[d] == (CorsairLighting {
                fans: final(self).devices@[d].fans,
                fans_dirty: final(self).devices@[d].fans_dirty,
                strips: final(self).devices@[d].strips,
                strips_dirty: final(self).devices@[d].strips_dirty,
                ..old(self).devices@[d]
            }),
            !acts.fan_changed ==> forall|d: int| 0 <= d < final(self).devices@.len() ==> (
            #[trigger] final(self).devices@[d]).fans == old(self).devices@[d].fans && final(self).devices@[d].fans_dirty == old(self).devices@[d].fans_dirty,
            acts.fan_changed ==> forall|d: int| 0 <= d < final(self).devices@.len() ==> {
                let after = fans_after_bindings(
                    old(self).devices@[d].fans@,
                    old(self).devices@[d].fans_dirty,
                    old(self).devices@[d].name@,
                    old(self).fan_profiles@[acts.fan_profile as int].fans@,
                    old(self).fan_profiles@[acts.fan_profile as int].fans@.len() as int,
                );
                (#[trigger] final(self).devices@[d]).fans@ == after.0 && final(self).devices@[
                    d
                ].fans_dirty == after.1
            },
            (!acts.rendered && !any_transient_fires(old(self).color_profiles@, old(self).probes@))
                ==> forall|d: int| 0 <= d < final(self).devices@.len() ==> (#[trigger] final(self).devices@[d]).strips == old(self).devices@[d].strips && final(self).devices@[
                d
            ].strips_dirty == old(self).devices@[d].strips_dirty,
            tick_lighting_applied(
                old(self).devices@,
                final(self).devices@,
                old(self).color_profiles@,
                acts.color_profile as int,
                acts.rendered,
                old(self).probes@,
                old(self).frame + 1,
            ),
    {
        let ghost om = *old(self);
        self.frame = self.frame + 1;
        let mut next: usize = match self.color_profile_current {
            Some(c) => c,
            None => 0,
        };
        let ncp = self.color_profiles.len();
        let mut i: usize = 0;
        while i < ncp
            invariant
                i <= ncp,
                om.wf(),
                ncp == om.color_profiles@.len(),
                next < ncp,
                self.frame == om.frame + 1,
                *self == (ProfileManager { frame: self.frame, ..om }),
                select_color(om.color_profiles@, om.probes@, om.color_profile_current)
                    == select_color_from(om.color_profiles@, om.probes@, next, i as int),
            decreases ncp - i,
        {
            let transient = self.color_profiles[i].transient;
            let fired = if transient {
                false
            } else {
                any_trigger_fires(&self.color_profiles[i].triggers, &self.probes)
            };
            proof {
                assert(fired == profile_matches(om.color_profiles@[i as int], om.probes@));
            }
            if fired {
                next = i;
            }
            i += 1;
        }
        let sel = next;
        let changed = match self.color_profile_current {
            Some(c) => c != sel,
            None => true,
        };
        self.color_profile_current = Some(sel);
        let animated = self.color_profiles[sel].is_animated();
        let rendered = changed || animated;
        if rendered {
            self.render_profile(sel);
        }
        let ghost after_render = *self;
        let ghost mut osts: Seq<Seq<CorsairLighting>> = seq![after_render.devices@];
        let ncp2 = self.color_profiles.len();
        let mut ti: usize = 0;
        while ti < ncp2
            invariant
                ti <= ncp2,
                om.wf(),
                ncp2 == om.color_profiles@.len(),
                osts.len() == ti as int + 1,
                osts[ti as int] == self.devices@,
                osts[0] == after_render.devices@,
                forall|k: int|
                    0 <= k < ti as int ==> (if (#[trigger] om.color_profiles@[k]).transient
                        && triggers_fire(om.color_profiles@[k].triggers@, om.probes@) {
                        profile_overlaid(
                            osts[k],
                            osts[k + 1],
                            om.color_profiles@[k],
                            om.probes@,
                            om.frame + 1,
                        )
                    } else {
                        strips_unchanged(osts[k], osts[k + 1])
                    }),
                self.color_profiles == om.color_profiles,
                self.fan_profiles == om.fan_profiles,
                self.probes == om.probes,
                self.last_update_ms == om.last_update_ms,
                self.last_log_ms == om.last_log_ms,
                self.frame == om.frame + 1,
                self.color_profile_current == Some(sel),
                self.fan_profile_current == om.fan_profile_current,
                self.devices@.len() == om.devices@.len(),
                forall|d: int| 0 <= d < self.devices@.len() ==> (
                #[trigger] self.devices@[d]).wf(),
                forall|d: int| 0 <= d < self.devices@.len() ==> #[trigger] self.devices@[d]
                    == (CorsairLighting {
                    strips: self.devices@[d].strips,
                    strips_dirty: self.devices@[d].strips_dirty,
                    ..om.devices@[d]
                }),
                !any_transient_fires(om.color_profiles@, om.probes@) ==> self.devices
                    == after_render.devices,
            decreases ncp2 - ti,
        {
            let transient = self.color_profiles[ti].transient;
            let fired = if transient {
                any_trigger_fires(&self.color_profiles[ti].triggers, &self.probes)
            } else {
                false
            };
            proof {
                if fired {
                    assert(om.color_profiles@[ti as int].transient && (exists|t: int|
                        0 <= t < om.color_profiles@[ti as int].triggers@.len() && (
                        #[trigger] om.color_profiles@[ti as int].triggers@[t]).fires(om.probes@)));
                    assert(any_transient_fires(om.color_profiles@, om.probes@));
                }
            }
            let ghost pre_iter = self.devices@;
            if fired {
                self.render_profile(ti);
            }
            proof {
                assert(fired == (om.color_profiles@[ti as int].transient && triggers_fire(
                    om.color_profiles@[ti as int].triggers@,
                    om.probes@,
                )));
                if !fired {
                    assert(strips_unchanged(pre_iter, self.devices@));
                }
                osts = osts.push(self.devices@);
            }
            ti += 1;
        }
        let ghost before_fans = self.devices@;
        proof {
            assert(overlay_chain(
                osts,
                after_render.devices@,
                om.color_profiles@,
                om.probes@,
                om.frame + 1,
            ));
        }
        let mut fnext: usize = match self.fan_profile_current {
            Some(c) => c,
            None => 0,
        };
        let nfp = self.fan_profiles.len();
        let mut fi: usize = 0;
        while fi < nfp
            invariant
                fi <= nfp,
                om.wf(),
                nfp == om.fan_profiles@.len(),
                fnext < nfp,
                self.fan_profiles == om.fan_profiles,
                self.probes == om.probes,
                self.fan_profile_current == om.fan_profile_current,
                select_fan(om.fan_profiles@, om.probes@, om.fan_profile_current)
                    == select_fan_from(om.fan_profiles@, om.probes@, fnext, fi as int),
            decreases nfp - fi,
        {
            let fired = any_trigger_fires(&self.fan_profiles[fi].triggers, &self.probes);
            proof {
                assert(fired == fan_profile_matches(om.fan_profiles@[fi as int], om.probes@));
            }
            if fired {
                fnext = fi;
            }
            fi += 1;
        }
        let fsel = fnext;
        let fan_changed = match self.fan_profile_current {
            Some(c) => c != fsel,
            None => true,
        };
        self.fan_profile_current = Some(fsel);
        if fan_changed {
            self.apply_fan_profile(fsel);
        }
        let reinit = now_ms > 2000 && now_ms - 2000 > self.last_update_ms;
        self.last_update_ms = now_ms;
        proof {
            assert(strips_unchanged(before_fans, self.devices@));
            assert(strips_unchanged(osts[om.color_profiles@.len() as int], self.devices@));
            assert(transients_applied(
                after_render.devices@,
                self.devices@,
                om.color_profiles@,
                om.probes@,
                om.frame + 1,
            ));
            if rendered {
                assert(profile_overlaid(
                    om.devices@,
                    after_render.devices@,
                    om.color_profiles@[sel as int],
                    om.probes@,
                    om.frame + 1,
                ));
            } else {
                assert(strips_unchanged(om.devices@, after_render.devices@));
            }
            assert(tick_lighting_applied(
                om.devices@,
                self.devices@,
                om.color_profiles@,
                sel as int,
                rendered,
                om.probes@,
                om.frame + 1,
            ));
        }
        TickActions {
            color_profile: sel,
            color_changed: changed,
            rendered,
            fan_profile: fsel,
            fan_changed,
            reinitialize: reinit,
        }
    }

    /// Resets the tick timer after a stall recovery.
    pub fn recovered(&mut self, now_ms: u64)
        ensures
            *final(self) == (ProfileManager { last_update_ms: now_ms, ..*old(self) }),
    {
        self.last_update_ms = now_ms;
    }

    /// Whether the periodic status log is due; if so, the log timer resets.
    pub fn status_due(&mut self, now_ms: u64) -> (res: bool)
        ensures
            res == (now_ms > old(self).last_log_ms + 10000),
            *final(self) == (ProfileManager {
                last_log_ms: if res {
                    now_ms
                } else {
                    old(self).last_log_ms
                },
                ..*old(self)
            }),
    {
        if now_ms > 10000 && now_ms - 10000 > self.last_log_ms {
            self.last_log_ms = now_ms;
            true
        } else {
            false
        }
    }

    /// Rebuilds the aggregated probe snapshot by concatenating every
    /// device's probes in device order.
    pub fn rebuild_probes(&mut self)
        requires
            old(self).wf(),
        ensures
            final(self).wf(),
            final(self).probes@ == probes_concat(old(self).devices@, old(self).devices@.len() as int),
            *final(self) == (ProfileManager { probes: final(self).probes, ..*old(self) }),
    {
        let ghost oself = *old(self);
        let mut snapshot: Vec<Option<i64>> = Vec::new();
        let n = self.devices.len();
        let mut d: usize = 0;
        proof {
            assert(snapshot@ =~= probes_concat(self.devices@, 0));
        }
        while d < n
            invariant
                d <= n,
                *self == oself,
                oself.wf(),
                n == self.devices@.len(),
                snapshot@ == probes_concat(self.devices@, d as int),
                forall|i: int| 0 <= i < snapshot@.len() ==> probe_ok(#[trigger] snapshot@[i]),
            decreases n - d,
        {
            let dev_probes = self.devices[d].probes();
            let m = dev_probes.len();
            let mut j: usize = 0;
            while j < m
                invariant
                    j <= m,
                    *self == oself,
                    oself.wf(),
                    d < n,
                    n == self.devices@.len(),
                    m == self.devices@[d as int].probes@.len(),
                    snapshot@ == probes_concat(self.devices@, d as int) + self.devices@[
                        d as int
                    ].probes@.take(j as int),
                    forall|i: int| 0 <= i < snapshot@.len() ==> probe_ok(
                        #[trigger] snapshot@[i],
                    ),
                decreases m - j,
            {
                snapshot.push(self.devices[d].probes[j]);
                proof {
                    assert(snapshot@ =~= probes_concat(self.devices@, d as int) + self.devices@[
                        d as int
                    ].probes@.take(j as int + 1));
                }
                j += 1;
            }
            proof {
                assert(self.devices@[d as int].probes@.take(m as int) =~= self.devices@[
                    d as int
                ].probes@);
                assert(snapshot@ =~= probes_concat(self.devices@, d as int + 1));
            }
            d += 1;
        }
        self.probes = snapshot;
    }
}

/// Law: a stall is recovered exactly once. A tick more than two seconds
/// after the previous one detects the stall; once the timer is reset to the
/// recovery time, the next tick on a normal cadence does not detect it
/// again.
pub proof fn lemma_stall_recovery_once(last_ms: u64, t1: u64, t2: u64)
    requires
        t1 > last_ms + 2000,
        t2 <= t1 + 2000,
    ensures
        stall_detected(last_ms, t1),
        !stall_detected(t1, t2),
{
}

} // verus!
