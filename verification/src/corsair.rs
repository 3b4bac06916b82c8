use vstd::prelude::*;
use crate::color::{rgb_of, Color};
use crate::device::{Fan, Strip, TempRpm};
use crate::effect::{effect_steps, grown, paint, probe_ok, req_len};
use crate::profile::StripConfig;

verus! {

broadcast use vstd::seq_lib::group_seq_properties;

/// Outbound reports are 64 bytes: a reserved byte, the command byte, then
/// the payload. Inbound reports are 16 bytes.
pub const REPORT_LENGTH: usize = 64;

pub const RESPONSE_LENGTH: usize = 16;

pub const CMD_GET_FIRMWARE: u8 = 0x02;

pub const CMD_GET_BOOTLOADER: u8 = 0x06;

pub const CMD_GET_TEMP_CONFIG: u8 = 0x10;

pub const CMD_GET_TEMP: u8 = 0x11;

pub const CMD_GET_FAN_MODES: u8 = 0x20;

pub const CMD_GET_FAN_RPM: u8 = 0x21;

pub const CMD_SET_FAN_DUTY: u8 = 0x23;

pub const CMD_SET_FAN_PROFILE: u8 = 0x25;

pub const CMD_RESET_LED_CHANNEL: u8 = 0x37;

pub const CMD_BEGIN_LED_EFFECT: u8 = 0x34;

pub const CMD_SET_LED_CHANNEL_STATE: u8 = 0x38;

pub const CMD_LED_EFFECT: u8 = 0x35;

pub const CMD_LED_COMMIT: u8 = 0x33;

pub const CMD_LED_DIRECT: u8 = 0x32;

pub const LED_PORT_STATE_HARDWARE: u8 = 0x01;

pub const LED_PORT_STATE_SOFTWARE: u8 = 0x02;

pub const FAN_MODE_DISCONNECTED: u8 = 0x00;

pub const FAN_MODE_DC: u8 = 0x01;

pub const FAN_MODE_PWM: u8 = 0x02;

/// How a fan channel was classified when the device was initialized.
#[derive(Clone, Copy, Debug, PartialEq, Eq, Structural)]
pub enum FanMode {
    Off,
    Dc,
    Pwm,
}

/// A full outbound report: reserved zero byte, the command byte, the
/// payload, zero-padded to 64 bytes.
pub open spec fn frame_spec(command: u8, data: Seq<u8>) -> Seq<u8> {
    Seq::new(
        64,
        |i: int|
            if i == 0 {
                0u8
            } else if i == 1 {
                command
            } else if i < 2 + data.len() {
                data[i - 2]
            } else {
                0u8
            },
    )
}

/// The duty byte sent for a PWM fan: the duty in thousandths mapped to
/// 0..=100 percent, clamped at both ends.
pub open spec fn duty_byte(d: int) -> u8 {
    if d <= 0 {
        0u8
    } else if d >= 1000 {
        100u8
    } else {
        (d / 10) as u8
    }
}

/// The high byte of a 16-bit value, sent first.
pub open spec fn byte_hi(v: int) -> u8 {
    (v / 256) as u8
}

/// The low byte of a 16-bit value, sent second.
pub open spec fn byte_lo(v: int) -> u8 {
    (v % 256) as u8
}

/// The fan-curve payload: the fan index, the sensor index, the six
/// breakpoint temperatures in hundredths of a degree split into bytes, then
/// the six breakpoint speeds split the same way.
pub open spec fn curve_payload(fan: int, sensor: int, bps: Seq<TempRpm>) -> Seq<u8> {
    seq![
        fan as u8,
        sensor as u8,
        byte_hi(bps[0].temp as int),
        byte_lo(bps[0].temp as int),
        byte_hi(bps[1].temp as int),
        byte_lo(bps[1].temp as int),
        byte_hi(bps[2].temp as int),
        byte_lo(bps[2].temp as int),
        byte_hi(bps[3].temp as int),
        byte_lo(bps[3].temp as int),
        byte_hi(bps[4].temp as int),
        byte_lo(bps[4].temp as int),
        byte_hi(bps[5].temp as int),
        byte_lo(bps[5].temp as int),
        byte_hi(bps[0].rpm as int),
        byte_lo(bps[0].rpm as int),
        byte_hi(bps[1].rpm as int),
        byte_lo(bps[1].rpm as int),
        byte_hi(bps[2].rpm as int),
        byte_lo(bps[2].rpm as int),
        byte_hi(bps[3].rpm as int),
        byte_lo(bps[3].rpm as int),
        byte_hi(bps[4].rpm as int),
        byte_lo(bps[4].rpm as int),
        byte_hi(bps[5].rpm as int),
        byte_lo(bps[5].rpm as int),
    ]
}

/// A fixed-speed target is sent as a degenerate curve: sensor 0, every
/// breakpoint at temperature 0 with the same speed.
pub open spec fn rpm_payload(fan: int, rpm: u16) -> Seq<u8> {
    curve_payload(fan, 0, Seq::new(6, |j: int| TempRpm { temp: 0u16, rpm: rpm }))
}

/// The full report that configures one fan channel.
pub open spec fn fan_frame(fan: int, f: Fan) -> Seq<u8> {
    match f {
        Fan::Pwm(d) => frame_spec(0x23u8, seq![fan as u8, duty_byte(d as int)]),
        Fan::Rpm(r) => frame_spec(0x25u8, rpm_payload(fan, r)),
        Fan::Curve(sensor, bps) => frame_spec(0x25u8, curve_payload(fan, sensor as int, bps@)),
    }
}

/// One color component of the strip, `0..=255`, one byte per LED.
pub open spec fn channel_bytes(colors: Seq<Color>, ci: int) -> Seq<u8> {
    Seq::new(
        colors.len(),
        |j: int|
            {
                let t = rgb_of(colors[j]);
                let comp = if ci == 0 {
                    t.0
                } else if ci == 1 {
                    t.1
                } else {
                    t.2
                };
                (comp * 255 / 1000) as u8
            },
    )
}

/// The direct-color reports for the chunk of up to 50 LEDs starting at
/// `start`, one report per color channel, followed by those of the later
/// chunks.
pub open spec fn chunk_frames(channel: int, colors: Seq<Color>, start: int) -> Seq<Seq<u8>>
    decreases colors.len() - start,
{
    if start < 0 || start >= colors.len() {
        Seq::empty()
    } else {
        let cnt = if colors.len() - start < 50 {
            colors.len() - start
        } else {
            50
        };
        let chunk = colors.subrange(start, start + cnt);
        Seq::new(
            3,
            |ci: int|
                frame_spec(
                    0x32u8,
                    seq![channel as u8, start as u8, cnt as u8, ci as u8] + channel_bytes(
                        chunk,
                        ci,
                    ),
                ),
        ) + if start + 50 < colors.len() {
            chunk_frames(channel, colors, start + 50)
        } else {
            Seq::empty()
        }
    }
}

/// All reports that push one strip: switch the channel to software control,
/// upload every chunk, then commit. An empty strip sends nothing.
pub open spec fn strip_frames(channel: int, colors: Seq<Color>) -> Seq<Seq<u8>> {
    if colors.len() == 0 {
        Seq::empty()
    } else {
        seq![frame_spec(0x38u8, seq![channel as u8, 0x02u8])] + chunk_frames(channel, colors, 0)
            + seq![frame_spec(0x33u8, seq![channel as u8])]
    }
}

/// The reports that push the strips up to index `k`, in channel order.
pub open spec fn strips_frames_upto(strips: Seq<Strip>, k: int) -> Seq<Seq<u8>>
    decreases k,
{
    if k <= 0 {
        Seq::empty()
    } else {
        strips_frames_upto(strips, k - 1) + strip_frames(k - 1, strips[k - 1].colors@)
    }
}

/// The classification of a fan-mode byte; unknown codes count as
/// disconnected.
pub open spec fn classify_mode(b: u8) -> FanMode {
    if b == 1 {
        FanMode::Dc
    } else if b == 2 {
        FanMode::Pwm
    } else {
        FanMode::Off
    }
}

/// Builds a full outbound report around a command byte and its payload.
pub fn frame64(command: u8, data: &Vec<u8>) -> (res: Vec<u8>)
    requires
        data@.len() <= 62,
    ensures
        res@ == frame_spec(command, data@),
{
    let mut buf: Vec<u8> = Vec::new();
    buf.push(0);
    buf.push(command);
    let mut i: usize = 0;
    while i < data.len()
        invariant
            i <= data@.len(),
            buf@ == seq![0u8, command] + data@.take(i as int),
        decreases data@.len() - i,
    {
        buf.push(data[i]);
        proof {
            assert(buf@ =~= seq![0u8, command] + data@.take(i as int + 1));
        }
        i += 1;
    }
    proof {
        assert(data@.take(data@.len() as int) =~= data@);
    }
    while buf.len() < 64
        invariant
            2 + data@.len() <= buf@.len() <= 64,
            buf@ == seq![0u8, command] + data@ + Seq::new(
                (buf@.len() - 2 - data@.len()) as nat,
                |j: int| 0u8,
            ),
        decreases 64 - buf@.len(),
    {
        buf.push(0);
        proof {
            assert(buf@ =~= seq![0u8, command] + data@ + Seq::new(
                (buf@.len() - 2 - data@.len()) as nat,
                |j: int| 0u8,
            ));
        }
    }
    proof {
        assert(buf@ =~= frame_spec(command, data@));
    }
    buf
}

/// Decodes a temperature response into hundredths of a degree.
pub fn decode_temp(hi: u8, lo: u8) -> (t: i64)
    ensures
        t == (hi as int) * 256 + lo as int,
        0 <= t <= 65535,
{
    (hi as i64) * 256 + (lo as i64)
}

/// Decodes a tachometer response into revolutions per minute.
pub fn decode_rpm(hi: u8, lo: u8) -> (r: u16)
    ensures
        r == (hi as int) * 256 + lo as int,
{
    (hi as u16) * 256 + (lo as u16)
}

/// Classifies a fan-mode byte from the mode-query response.
pub fn classify_fan_mode(b: u8) -> (m: FanMode)
    ensures
        m == classify_mode(b),
{
    if b == FAN_MODE_DC {
        FanMode::Dc
    } else if b == FAN_MODE_PWM {
        FanMode::Pwm
    } else {
        FanMode::Off
    }
}

/// A curve fan keeps its sensor index within one byte, as the wire format
/// requires.
pub open spec fn fan_ok(f: Fan) -> bool {
    match f {
        Fan::Curve(sensor, _) => sensor < 256,
        _ => true,
    }
}

/// The telemetry slots eligible for sampling among the probes from index `i`
/// on: every probe that was classified present at initialization.
pub open spec fn probes_eligible_from(ps: Seq<Option<i64>>, i: int) -> Seq<(bool, usize)>
    decreases ps.len() - i,
{
    if i < 0 || i >= ps.len() {
        Seq::empty()
    } else {
        (if ps[i] is Some {
            seq![(true, i as usize)]
        } else {
            Seq::empty()
        }) + probes_eligible_from(ps, i + 1)
    }
}

/// The telemetry slots eligible for sampling among the fans from index `i`
/// on: every fan whose mode query found a connected fan.
pub open spec fn fans_eligible_from(ms: Seq<FanMode>, i: int) -> Seq<(bool, usize)>
    decreases ms.len() - i,
{
    if i < 0 || i >= ms.len() {
        Seq::empty()
    } else {
        (if ms[i] is Off {
            Seq::empty()
        } else {
            seq![(false, i as usize)]
        }) + fans_eligible_from(ms, i + 1)
    }
}

/// The byte sequences of a list of reports.
pub open spec fn views_of(s: Seq<Vec<u8>>) -> Seq<Seq<u8>> {
    Seq::new(s.len(), |i: int| s[i]@)
}

/// The reports that reset one lighting channel to its hardware-driven
/// default animation at initialization, before software takes over: reset,
/// begin an effect, switch to hardware control, set the default effect
/// parameters, and commit.
pub open spec fn init_channel_frames_spec(c: u8) -> Seq<Seq<u8>> {
    seq![
        frame_spec(0x37u8, seq![c]),
        frame_spec(0x34u8, seq![c]),
        frame_spec(0x38u8, seq![c, 0x01u8]),
        frame_spec(0x35u8, seq![c, 0u8, 204u8, 0x06u8, 0x01u8, 0x01u8, 0x01u8, 0xffu8]),
        frame_spec(0x33u8, seq![c]),
    ]
}

/// Builds the channel-reset reports sent for one lighting channel at
/// initialization.
pub fn init_channel_frames(channel: u8) -> (res: Vec<Vec<u8>>)
    ensures
        views_of(res@) == init_channel_frames_spec(channel),
{
    let mut frames: Vec<Vec<u8>> = Vec::new();
    let mut p: Vec<u8> = Vec::new();
    p.push(channel);
    frames.push(frame64(CMD_RESET_LED_CHANNEL, &p));
    let mut p1: Vec<u8> = Vec::new();
    p1.push(channel);
    frames.push(frame64(CMD_BEGIN_LED_EFFECT, &p1));
    let mut p2: Vec<u8> = Vec::new();
    p2.push(channel);
    p2.push(LED_PORT_STATE_HARDWARE);
    frames.push(frame64(CMD_SET_LED_CHANNEL_STATE, &p2));
    let mut p3: Vec<u8> = Vec::new();
    p3.push(channel);
    p3.push(0);
    p3.push(204);
    p3.push(0x06);
    p3.push(0x01);
    p3.push(0x01);
    p3.push(0x01);
    p3.push(0xff);
    frames.push(frame64(CMD_LED_EFFECT, &p3));
    let mut p4: Vec<u8> = Vec::new();
    p4.push(channel);
    frames.push(frame64(CMD_LED_COMMIT, &p4));
    proof {
        assert(p@ =~= seq![channel]);
        assert(p1@ =~= seq![channel]);
        assert(p2@ =~= seq![channel, 0x01u8]);
        assert(p3@ =~= seq![channel, 0u8, 204u8, 0x06u8, 0x01u8, 0x01u8, 0x01u8, 0xffu8]);
        assert(p4@ =~= seq![channel]);
        assert(views_of(frames@) =~= init_channel_frames_spec(channel));
    }
    frames
}

/// The direct-color payload for one chunk and one color channel: the
/// channel, the first LED, the LED count, the color channel index, then one
/// byte per LED.
fn chunk_payload(strip: &Strip, ch: u8, start: usize, cnt: usize, ci: u8) -> (res: Vec<u8>)
    requires
        strip.wf(),
        start + cnt <= strip.colors@.len(),
        start <= 255,
        cnt <= 50,
        ci <= 2,
    ensures
        res@ == seq![ch, (start as u8), (cnt as u8), ci] + channel_bytes(
            strip.colors@.subrange(start as int, start as int + cnt as int),
            ci as int,
        ),
{
    let ghost chunk = strip.colors@.subrange(start as int, start as int + cnt as int);
    let mut p: Vec<u8> = Vec::new();
    p.push(ch);
    p.push(start as u8);
    p.push(cnt as u8);
    p.push(ci);
    let mut j: usize = 0;
    while j < cnt
        invariant
            j <= cnt,
            strip.wf(),
            start <= 255,
            cnt <= 50,
            start + cnt <= strip.colors@.len(),
            chunk == strip.colors@.subrange(start as int, start as int + cnt as int),
            p@ == seq![ch, (start as u8), (cnt as u8), ci] + channel_bytes(chunk, ci as int).take(
                j as int,
            ),
        decreases cnt - j,
    {
        let col = strip.colors[start + j];
        let t = col.rgb();
        let comp: i64 = if ci == 0 {
            t.0
        } else if ci == 1 {
            t.1
        } else {
            t.2
        };
        p.push((comp * 255 / 1000) as u8);
        proof {
            assert(chunk[j as int] == strip.colors@[start as int + j as int]);
            assert(p@ =~= seq![ch, (start as u8), (cnt as u8), ci] + channel_bytes(
                chunk,
                ci as int,
            ).take(j as int + 1));
        }
        j += 1;
    }
    proof {
        assert(channel_bytes(chunk, ci as int).take(cnt as int) =~= channel_bytes(
            chunk,
            ci as int,
        ));
    }
    p
}

/// No more slots are eligible among the probes than there are probes.
pub proof fn lemma_probes_eligible_len(ps: Seq<Option<i64>>, i: int)
    ensures
        probes_eligible_from(ps, i).len() <= ps.len(),
        i >= 0 ==> probes_eligible_from(ps, i).len() + i <= ps.len() || ps.len() <= i,
    decreases ps.len() - i,
{
    if 0 <= i < ps.len() {
        lemma_probes_eligible_len(ps, i + 1);
    }
}

/// No more slots are eligible among the fans than there are fans.
pub proof fn lemma_fans_eligible_len(ms: Seq<FanMode>, i: int)
    ensures
        fans_eligible_from(ms, i).len() <= ms.len(),
        i >= 0 ==> fans_eligible_from(ms, i).len() + i <= ms.len() || ms.len() <= i,
    decreases ms.len() - i,
{
    if 0 <= i < ms.len() {
        lemma_fans_eligible_len(ms, i + 1);
    }
}

/// The in-memory state of one lighting/fan controller behind the transport:
/// its desired fan and LED state with dirty flags, and the latest telemetry.
/// `true` in an eligible-slot pair means a temperature probe, `false` a fan
/// tachometer; the second element is the per-device index.
pub struct CorsairLighting {
    pub name: String,
    pub fans: Vec<Fan>,
    pub fans_dirty: bool,
    pub strips: Vec<Strip>,
    pub strips_dirty: bool,
    pub probes: Vec<Option<i64>>,
    pub fan_modes: Vec<FanMode>,
    pub rpms: Vec<u16>,
    pub next_sample: usize,
}

impl CorsairLighting {
    /// The parallel per-fan lists agree, and every stored value fits the
    /// wire format: at most 6 fans, 4 probes and 2 strips of at most 250
    /// LEDs, probe readings within a 16-bit temperature.
    pub open spec fn wf(self) -> bool {
        &&& self.fans@.len() == self.fan_modes@.len()
        &&& self.fans@.len() == self.rpms@.len()
        &&& self.fans@.len() <= 6
        &&& self.next_sample <= 10
        &&& self.probes@.len() <= 4
        &&& self.strips@.len() <= 2
        &&& forall|i: int| 0 <= i < self.fans@.len() ==> fan_ok(#[trigger] self.fans@[i])
        &&& forall|i: int|
            0 <= i < self.strips@.len() ==> (#[trigger] self.strips@[i]).wf()
                && self.strips@[i].colors@.len() <= 250
        &&& forall|i: int|
            0 <= i < self.probes@.len() ==> match #[trigger] self.probes@[i] {
                Some(t) => 0 <= t <= 65535,
                None => true,
            }
    }

    /// The round-robin order of the telemetry slots: present probes first,
    /// then connected fans.
    pub open spec fn eligible(self) -> Seq<(bool, usize)> {
        probes_eligible_from(self.probes@, 0) + fans_eligible_from(self.fan_modes@, 0)
    }

    /// A Commander PRO: six fan channels, four probe headers, two lighting
    /// channels, everything marked dirty so the first update pushes it.
    pub fn new_commander_pro() -> (d: CorsairLighting)
        ensures
            d.wf(),
            d.name@ == "Commander PRO"@,
            d.fans@ == Seq::new(6, |i: int| Fan::Pwm(250i64)),
            d.fans_dirty,
            d.strips@.len() == 2,
            forall|i: int| 0 <= i < 2 ==> (#[trigger] d.strips@[i]).colors@.len() == 0,
            d.strips_dirty,
            d.probes@ == Seq::new(4, |i: int| None::<i64>),
            d.fan_modes@ == Seq::new(6, |i: int| FanMode::Off),
            d.rpms@ == Seq::new(6, |i: int| 0u16),
            d.next_sample == 0,
    {
        let fans = vec![
            Fan::Pwm(250),
            Fan::Pwm(250),
            Fan::Pwm(250),
            Fan::Pwm(250),
            Fan::Pwm(250),
            Fan::Pwm(250),
        ];
        let strips = vec![Strip { colors: Vec::new() }, Strip { colors: Vec::new() }];
        let probes = vec![None, None, None, None];
        let fan_modes = vec![
            FanMode::Off,
            FanMode::Off,
            FanMode::Off,
            FanMode::Off,
            FanMode::Off,
            FanMode::Off,
        ];
        let rpms = vec![0u16, 0, 0, 0, 0, 0];
        proof {
            assert(fans@ =~= Seq::new(6, |i: int| Fan::Pwm(250i64)));
            assert(probes@ =~= Seq::new(4, |i: int| None::<i64>));
            assert(fan_modes@ =~= Seq::new(6, |i: int| FanMode::Off));
            assert(rpms@ =~= Seq::new(6, |i: int| 0u16));
        }
        CorsairLighting {
            name: new_strlit_commander(),
            fans,
            fans_dirty: true,
            strips,
            strips_dirty: true,
            probes,
            fan_modes,
            rpms,
            next_sample: 0,
        }
    }

    /// A Lighting Node CORE: one lighting channel, no fans and no probes.
    pub fn new_lighting_node_core() -> (d: CorsairLighting)
        ensures
            d.wf(),
            d.name@ == "Lighting Node CORE"@,
            d.fans@.len() == 0,
            d.fans_dirty,
            d.strips@.len() == 1,
            forall|i: int| 0 <= i < 1 ==> (#[trigger] d.strips@[i]).colors@.len() == 0,
            d.strips_dirty,
            d.probes@.len() == 0,
            d.fan_modes@.len() == 0,
            d.rpms@.len() == 0,
            d.next_sample == 0,
    {
        CorsairLighting {
            name: new_strlit_core(),
            fans: Vec::new(),
            fans_dirty: true,
            strips: vec![Strip { colors: Vec::new() }],
            strips_dirty: true,
            probes: Vec::new(),
            fan_modes: Vec::new(),
            rpms: Vec::new(),
            next_sample: 0,
        }
    }

    /// A device with no fans and no probes carries no telemetry.
    pub fn is_led_only(&self) -> (res: bool)
        ensures
            res == (self.fans@.len() == 0 && self.probes@.len() == 0),
    {
        self.fans.is_empty() && self.probes.is_empty()
    }

    /// The device's display name.
    pub fn name(&self) -> (res: &String)
        ensures
            res@ == self.name@,
    {
        &self.name
    }

    /// The latest telemetry snapshot, in hundredths of a degree.
    pub fn probes(&self) -> (res: &Vec<Option<i64>>)
        ensures
            res@ == self.probes@,
    {
        &self.probes
    }

    /// The latest fan speeds, for diagnostics.
    pub fn rpms(&self) -> (res: &Vec<u16>)
        ensures
            res@ == self.rpms@,
    {
        &self.rpms
    }

    /// Whether the fan state must be pushed on the next update.
    pub fn fans_are_dirty(&self) -> (res: bool)
        ensures
            res == self.fans_dirty,
    {
        self.fans_dirty
    }

    /// Whether the LED state must be pushed on the next update.
    pub fn strips_are_dirty(&self) -> (res: bool)
        ensures
            res == self.strips_dirty,
    {
        self.strips_dirty
    }

    /// Mutable access to the fan list. Any access is treated as a potential
    /// mutation and marks the fan state dirty for the next flush.
    pub fn fans(&mut self) -> (res: &mut Vec<Fan>)
        ensures
            *res == old(self).fans,
            final(self).fans == *final(res),
            *final(self) == (CorsairLighting {
                fans: final(self).fans,
                fans_dirty: true,
                ..*old(self)
            }),
    {
        self.fans_dirty = true;
        &mut self.fans
    }

    /// Mutable access to the strips. Any access is treated as a potential
    /// mutation and marks the LED state dirty for the next flush.
    pub fn strips(&mut self) -> (res: &mut Vec<Strip>)
        ensures
            *res == old(self).strips,
            final(self).strips == *final(res),
            *final(self) == (CorsairLighting {
                strips: final(self).strips,
                strips_dirty: true,
                ..*old(self)
            }),
    {
        self.strips_dirty = true;
        &mut self.strips
    }

    /// Records a successful push of the fan state.
    pub fn mark_fans_clean(&mut self)
        ensures
            *final(self) == (CorsairLighting { fans_dirty: false, ..*old(self) }),
    {
        self.fans_dirty = false;
    }

    /// Records a successful push of the LED state.
    pub fn mark_strips_clean(&mut self)
        ensures
            *final(self) == (CorsairLighting { strips_dirty: false, ..*old(self) }),
    {
        self.strips_dirty = false;
    }

    /// Sets one fan binding; any touch of the fan state marks it dirty, even
    /// when the channel does not exist.
    pub fn set_fan(&mut self, channel: usize, f: Fan)
        requires
            fan_ok(f),
        ensures
            final(self).fans@ == if channel < old(self).fans@.len() {
                old(self).fans@.update(channel as int, f)
            } else {
                old(self).fans@
            },
            final(self).fans_dirty,
            *final(self) == (CorsairLighting {
                fans: final(self).fans,
                fans_dirty: true,
                ..*old(self)
            }),
            old(self).wf() ==> final(self).wf(),
    {
        self.fans_dirty = true;
        if channel < self.fans.len() {
            self.fans.set(channel, f);
        }
    }
    /// Renders one lighting binding onto the addressed strip; any touch of
    /// the LED state marks it dirty, even when the channel does not exist.
    pub fn render(&mut self, sc: &StripConfig, probes: &Vec<Option<i64>>, frame: usize)
        requires
            old(self).wf(),
            sc.wf(),
            req_len(sc.indices.flat()) <= 250,
            forall|k: int| 0 <= k < probes@.len() ==> probe_ok(#[trigger] probes@[k]),
        ensures
            final(self).wf(),
            final(self).strips_dirty,
            final(self).strips@.len() == old(self).strips@.len(),
            *final(self) == (CorsairLighting {
                strips: final(self).strips,
                strips_dirty: true,
                ..*old(self)
            }),
            sc.channel >= old(self).strips@.len() ==> final(self).strips@ == old(self).strips@,
            sc.channel < old(self).strips@.len() ==> {
                &&& forall|j: int|
                    0 <= j < old(self).strips@.len() && j != sc.channel ==> final(self).strips@[j]
                        == old(self).strips@[j]
                &&& exists|draws: Seq<Color>|
                    crate::effect::small_draws(draws, sc.indices.flat().len() as int) && final(self).strips@[sc.channel as int].colors@ == paint(
                        grown(
                            old(self).strips@[sc.channel as int].colors@,
                            req_len(sc.indices.flat()),
                        ),
                        effect_steps(
                            sc.effect,
                            sc.indices.flat(),
                            probes@,
                            frame as int,
                            draws,
                        ),
                        sc.effect.op_spec(),
                    )
            },
    {
        self.strips_dirty = true;
        if sc.channel < self.strips.len() {
            let mut st = self.strips.remove(sc.channel);
            sc.apply(&mut st, probes, frame);
            proof {
                crate::effect::lemma_req_len_nonneg(sc.indices.flat());
            }
            self.strips.insert(sc.channel, st);
            proof {
                assert(self.strips@ =~= old(self).strips@.update(sc.channel as int, st));
            }
        }
    }

    /// The telemetry slot the next update samples: the eligible slot the
    /// rotating pointer names, if the pointer is in range.
    pub fn sample_target(&self) -> (res: Option<(bool, usize)>)
        ensures
            res == if self.next_sample < self.eligible().len() {
                Some(self.eligible()[self.next_sample as int])
            } else {
                None::<(bool, usize)>
            },
    {
        let ghost el = self.eligible();
        proof {
            assert(el.skip(0) =~= el);
        }
        let mut current: usize = 0;
        let mut i: usize = 0;
        while i < self.probes.len()
            invariant
                i <= self.probes@.len(),
                current <= self.next_sample,
                el == self.eligible(),
                current <= el.len(),
                el.skip(current as int) == probes_eligible_from(self.probes@, i as int)
                    + fans_eligible_from(self.fan_modes@, 0),
            decreases self.probes@.len() - i,
        {
            let ghost rest = probes_eligible_from(self.probes@, i as int + 1) + fans_eligible_from(
                self.fan_modes@,
                0,
            );
            if self.probes[i].is_some() {
                proof {
                    assert(el.skip(current as int) =~= seq![(true, i as usize)] + rest);
                    assert(el.skip(current as int).len() >= 1);
                    assert(el.skip(current as int)[0] == (true, i as usize));
                    assert(el[current as int] == el.skip(current as int)[0]);
                }
                if current == self.next_sample {
                    return Some((true, i));
                }
                proof {
                    assert(el.skip(current as int).drop_first() =~= el.skip(current as int + 1));
                    assert(el.skip(current as int + 1) =~= rest);
                }
                current += 1;
            } else {
                proof {
                    assert(el.skip(current as int) =~= rest);
                }
            }
            i += 1;
        }
        let mut j: usize = 0;
        while j < self.fan_modes.len()
            invariant
                j <= self.fan_modes@.len(),
                current <= self.next_sample,
                el == self.eligible(),
                current <= el.len(),
                el.skip(current as int) == fans_eligible_from(self.fan_modes@, j as int),
            decreases self.fan_modes@.len() - j,
        {
            let sampled = match self.fan_modes[j] {
                FanMode::Pwm => true,
                FanMode::Dc => true,
                FanMode::Off => false,
            };
            let ghost rest = fans_eligible_from(self.fan_modes@, j as int + 1);
            if sampled {
                proof {
                    assert(el.skip(current as int) =~= seq![(false, j as usize)] + rest);
                    assert(el.skip(current as int).len() >= 1);
                    assert(el.skip(current as int)[0] == (false, j as usize));
                    assert(el[current as int] == el.skip(current as int)[0]);
                }
                if current == self.next_sample {
                    return Some((false, j));
                }
                proof {
                    assert(el.skip(current as int).drop_first() =~= el.skip(current as int + 1));
                    assert(el.skip(current as int + 1) =~= rest);
                }
                current += 1;
            } else {
                proof {
                    assert(el.skip(current as int) =~= rest);
                }
            }
            j += 1;
        }
        proof {
            assert(el.skip(current as int) =~= Seq::empty());
            assert(current == el.len());
        }
        None
    }

    /// Records a sampled temperature. A reading of zero or below is a sensor
    /// fault and is replaced by a saturating 100 degrees.
    pub fn record_temp_sample(&mut self, i: usize, hi: u8, lo: u8)
        requires
            i < old(self).probes@.len(),
        ensures
            final(self).probes@ == old(self).probes@.update(
                i as int,
                Some(
                    if (hi as int) * 256 + lo as int > 0 {
                        ((hi as int) * 256 + lo as int) as i64
                    } else {
                        10000i64
                    },
                ),
            ),
            *final(self) == (CorsairLighting { probes: final(self).probes, ..*old(self) }),
            old(self).wf() ==> final(self).wf(),
    {
        let t = decode_temp(hi, lo);
        if t > 0 {
            self.probes.set(i, Some(t));
        } else {
            self.probes.set(i, Some(10000));
        }
    }

    /// Records a sampled fan speed.
    pub fn record_rpm_sample(&mut self, i: usize, hi: u8, lo: u8)
        requires
            i < old(self).rpms@.len(),
        ensures
            final(self).rpms@ == old(self).rpms@.update(
                i as int,
                ((hi as int) * 256 + lo as int) as u16,
            ),
            *final(self) == (CorsairLighting { rpms: final(self).rpms, ..*old(self) }),
            old(self).wf() ==> final(self).wf(),
    {
        let r = decode_rpm(hi, lo);
        self.rpms.set(i, r);
    }

    /// Records the first reading of a probe found configured at
    /// initialization; no fault substitution applies here.
    pub fn record_initial_temp(&mut self, i: usize, hi: u8, lo: u8)
        requires
            i < old(self).probes@.len(),
        ensures
            final(self).probes@ == old(self).probes@.update(
                i as int,
                Some(((hi as int) * 256 + lo as int) as i64),
            ),
            *final(self) == (CorsairLighting { probes: final(self).probes, ..*old(self) }),
            old(self).wf() ==> final(self).wf(),
    {
        let t = decode_temp(hi, lo);
        self.probes.set(i, Some(t));
    }

    /// Whether the temperature-config response reports probe `i` as
    /// connected.
    pub fn probe_configured(cfg: &Vec<u8>, i: usize) -> (res: bool)
        requires
            i < 15,
            cfg@.len() >= 16,
        ensures
            res == (cfg@[i as int + 1] > 0),
    {
        cfg[i + 1] > 0
    }

    /// Classifies every fan channel from the mode-query response, as done
    /// once at initialization.
    pub fn apply_fan_modes(&mut self, resp: &Vec<u8>)
        requires
            resp@.len() >= 16,
            old(self).fans@.len() <= 6,
        ensures
            final(self).fan_modes@ == Seq::new(
                old(self).fans@.len(),
                |i: int| classify_mode(resp@[i + 1]),
            ),
            *final(self) == (CorsairLighting { fan_modes: final(self).fan_modes, ..*old(self) }),
            old(self).wf() ==> final(self).wf(),
    {
        let n = self.fans.len();
        let mut modes: Vec<FanMode> = Vec::new();
        let mut i: usize = 0;
        while i < n
            invariant
                i <= n,
                n == self.fans@.len(),
                n <= 6,
                resp@.len() >= 16,
                modes@ == Seq::new(i as nat, |k: int| classify_mode(resp@[k + 1])),
            decreases n - i,
        {
            modes.push(classify_fan_mode(resp[i + 1]));
            proof {
                assert(modes@ =~= Seq::new((i + 1) as nat, |k: int| classify_mode(resp@[k + 1])));
            }
            i += 1;
        }
        self.fan_modes = modes;
    }

    /// Finishes one sampling round: fans that were classified disconnected
    /// read zero speed, and the rotating pointer advances by one over the
    /// eligible slots.
    pub fn finish_sampling(&mut self)
        requires
            old(self).wf(),
        ensures
            final(self).wf(),
            final(self).rpms@.len() == old(self).rpms@.len(),
            forall|i: int| 0 <= i < old(self).rpms@.len() ==> final(self).rpms@[i] == (
            if old(self).fan_modes@[i] is Off {
                0u16
            } else {
                old(self).rpms@[i]
            }),
            final(self).next_sample == (if old(self).eligible().len() > 0 {
                ((old(self).next_sample + 1) as int % old(self).eligible().len() as int) as usize
            } else {
                old(self).next_sample
            }),
            *final(self) == (CorsairLighting {
                rpms: final(self).rpms,
                next_sample: final(self).next_sample,
                ..*old(self)
            }),
    {
        let ghost oself = *old(self);
        let ghost el = self.eligible();
        proof {
            assert(el.skip(0) =~= el);
            lemma_probes_eligible_len(self.probes@, 0);
            lemma_fans_eligible_len(self.fan_modes@, 0);
        }
        let mut count: usize = 0;
        let mut i: usize = 0;
        while i < self.probes.len()
            invariant
                i <= self.probes@.len(),
                *self == oself,
                oself.wf(),
                el == self.eligible(),
                count <= el.len(),
                el.len() <= 10,
                el.skip(count as int) == probes_eligible_from(self.probes@, i as int)
                    + fans_eligible_from(self.fan_modes@, 0),
            decreases self.probes@.len() - i,
        {
            let ghost rest = probes_eligible_from(self.probes@, i as int + 1) + fans_eligible_from(
                self.fan_modes@,
                0,
            );
            if self.probes[i].is_some() {
                proof {
                    assert(el.skip(count as int) =~= seq![(true, i as usize)] + rest);
                    assert(el.skip(count as int).drop_first() =~= el.skip(count as int + 1));
                    assert(el.skip(count as int + 1) =~= rest);
                }
                count += 1;
            } else {
                proof {
                    assert(el.skip(count as int) =~= rest);
                }
            }
            i += 1;
        }
        let mut j: usize = 0;
        while j < self.fan_modes.len()
            invariant
                j <= self.fan_modes@.len(),
                *self == oself,
                oself.wf(),
                el == self.eligible(),
                count <= el.len(),
                el.len() <= 10,
                el.skip(count as int) == fans_eligible_from(self.fan_modes@, j as int),
            decreases self.fan_modes@.len() - j,
        {
            let ghost rest = fans_eligible_from(self.fan_modes@, j as int + 1);
            let sampled = match self.fan_modes[j] {
                FanMode::Pwm => true,
                FanMode::Dc => true,
                FanMode::Off => false,
            };
            if sampled {
                proof {
                    assert(el.skip(count as int) =~= seq![(false, j as usize)] + rest);
                    assert(el.skip(count as int).drop_first() =~= el.skip(count as int + 1));
                    assert(el.skip(count as int + 1) =~= rest);
                }
                count += 1;
            } else {
                proof {
                    assert(el.skip(count as int) =~= rest);
                }
            }
            j += 1;
        }
        proof {
            assert(el.skip(count as int) =~= Seq::empty());
            assert(count == el.len());
            lemma_probes_eligible_len(self.probes@, 0);
            lemma_fans_eligible_len(self.fan_modes@, 0);
        }
        let mut k: usize = 0;
        while k < self.rpms.len()
            invariant
                k <= self.rpms@.len(),
                oself.wf(),
                count <= 10,
                self.rpms@.len() == oself.rpms@.len(),
                *self == (CorsairLighting { rpms: self.rpms, ..oself }),
                forall|m: int| 0 <= m < k as int ==> self.rpms@[m] == (if oself.fan_modes@[m]
                    is Off {
                    0u16
                } else {
                    oself.rpms@[m]
                }),
                forall|m: int| k as int <= m < self.rpms@.len() ==> self.rpms@[m]
                    == oself.rpms@[m],
            decreases self.rpms@.len() - k,
        {
            let is_off = match self.fan_modes[k] {
                FanMode::Off => true,
                _ => false,
            };
            if is_off {
                self.rpms.set(k, 0);
            }
            k += 1;
        }
        if count > 0 {
            self.next_sample = (self.next_sample + 1) % count;
        }
    }

    /// The reports that push the whole desired fan state, one per channel,
    /// sent when the fan state is dirty.
    pub fn update_fans_frames(&self) -> (res: Vec<Vec<u8>>)
        requires
            self.wf(),
        ensures
            res@.len() == self.fans@.len(),
            forall|i: int| 0 <= i < res@.len() ==> (#[trigger] res@[i])@ == fan_frame(
                i,
                self.fans@[i],
            ),
    {
        let mut frames: Vec<Vec<u8>> = Vec::new();
        let n = self.fans.len();
        let mut i: usize = 0;
        while i < n
            invariant
                i <= n,
                n == self.fans@.len(),
                self.wf(),
                frames@.len() == i as int,
                forall|k: int| 0 <= k < i as int ==> (#[trigger] frames@[k])@ == fan_frame(
                    k,
                    self.fans@[k],
                ),
            decreases n - i,
        {
            let f = self.fans[i];
            let fr = match f {
                Fan::Pwm(d) => {
                    let db: u8 = if d <= 0 {
                        0
                    } else if d >= 1000 {
                        100
                    } else {
                        (d / 10) as u8
                    };
                    let mut p: Vec<u8> = Vec::new();
                    p.push(i as u8);
                    p.push(db);
                    proof {
                        assert(p@ =~= seq![(i as u8), duty_byte(d as int)]);
                    }
                    frame64(CMD_SET_FAN_DUTY, &p)
                },
                Fan::Rpm(r) => {
                    let hi = (r / 256) as u8;
                    let lo = (r % 256) as u8;
                    let mut p: Vec<u8> = Vec::new();
                    p.push(i as u8);
                    p.push(0);
                    p.push(0);
                    p.push(0);
                    p.push(0);
                    p.push(0);
                    p.push(0);
                    p.push(0);
                    p.push(0);
                    p.push(0);
                    p.push(0);
                    p.push(0);
                    p.push(0);
                    p.push(0);
                    p.push(hi);
                    p.push(lo);
                    p.push(hi);
                    p.push(lo);
                    p.push(hi);
                    p.push(lo);
                    p.push(hi);
                    p.push(lo);
                    p.push(hi);
                    p.push(lo);
                    p.push(hi);
                    p.push(lo);
                    proof {
                        assert(p@ =~= rpm_payload(i as int, r));
                    }
                    frame64(CMD_SET_FAN_PROFILE, &p)
                },
                Fan::Curve(sensor, bps) => {
                    let mut p: Vec<u8> = Vec::new();
                    p.push(i as u8);
                    p.push(sensor as u8);
                    p.push((bps[0].temp / 256) as u8);
                    p.push((bps[0].temp % 256) as u8);
                    p.push((bps[1].temp / 256) as u8);
                    p.push((bps[1].temp % 256) as u8);
                    p.push((bps[2].temp / 256) as u8);
                    p.push((bps[2].temp % 256) as u8);
                    p.push((bps[3].temp / 256) as u8);
                    p.push((bps[3].temp % 256) as u8);
                    p.push((bps[4].temp / 256) as u8);
                    p.push((bps[4].temp % 256) as u8);
                    p.push((bps[5].temp / 256) as u8);
                    p.push((bps[5].temp % 256) as u8);
                    p.push((bps[0].rpm / 256) as u8);
                    p.push((bps[0].rpm % 256) as u8);
                    p.push((bps[1].rpm / 256) as u8);
                    p.push((bps[1].rpm % 256) as u8);
                    p.push((bps[2].rpm / 256) as u8);
                    p.push((bps[2].rpm % 256) as u8);
                    p.push((bps[3].rpm / 256) as u8);
                    p.push((bps[3].rpm % 256) as u8);
                    p.push((bps[4].rpm / 256) as u8);
                    p.push((bps[4].rpm % 256) as u8);
                    p.push((bps[5].rpm / 256) as u8);
                    p.push((bps[5].rpm % 256) as u8);
                    proof {
                        assert(p@ =~= curve_payload(i as int, sensor as int, bps@));
                    }
                    frame64(CMD_SET_FAN_PROFILE, &p)
                },
            };
            frames.push(fr);
            i += 1;
        }
        frames
    }

    /// The reports that push the whole desired LED state: for each
    /// non-empty strip, a software-mode switch, the colors in chunks of 50
    /// LEDs with one report per color channel, and a commit.
    pub fn update_strips_frames(&self) -> (res: Vec<Vec<u8>>)
        requires
            self.wf(),
        ensures
            views_of(res@) == strips_frames_upto(self.strips@, self.strips@.len() as int),
    {
        let mut frames: Vec<Vec<u8>> = Vec::new();
        let n = self.strips.len();
        let mut c: usize = 0;
        proof {
            assert(views_of(frames@) =~= strips_frames_upto(self.strips@, 0));
        }
        while c < n
            invariant
                c <= n,
                n == self.strips@.len(),
                self.wf(),
                views_of(frames@) == strips_frames_upto(self.strips@, c as int),
            decreases n - c,
        {
            let ghost gbase = views_of(frames@);
            let len = self.strips[c].colors.len();
            if len == 0 {
                proof {
                    assert(strips_frames_upto(self.strips@, c as int + 1) =~= gbase);
                }
            } else {
                let mut p0: Vec<u8> = Vec::new();
                p0.push(c as u8);
                p0.push(LED_PORT_STATE_SOFTWARE);
                let f0 = frame64(CMD_SET_LED_CHANNEL_STATE, &p0);
                frames.push(f0);
                proof {
                    assert(p0@ =~= seq![(c as u8), 0x02u8]);
                    assert(views_of(frames@) =~= gbase + seq![
                        frame_spec(0x38u8, seq![(c as u8), 0x02u8]),
                    ]);
                }
                let ghost colors = self.strips@[c as int].colors@;
                let ghost ghead = views_of(frames@);
                let ghost mut emitted: Seq<Seq<u8>> = Seq::empty();
                let mut start: usize = 0;
                proof {
                    assert(views_of(frames@) =~= ghead + emitted);
                }
                while start < len
                    invariant
                        start <= len,
                        c < n,
                        n == self.strips@.len(),
                        self.wf(),
                        len == self.strips@[c as int].colors@.len(),
                        colors == self.strips@[c as int].colors@,
                        views_of(frames@) == ghead + emitted,
                        chunk_frames(c as int, colors, 0) == emitted + (if start < len {
                            chunk_frames(c as int, colors, start as int)
                        } else {
                            Seq::empty()
                        }),
                    decreases len - start,
                {
                    let remaining = len - start;
                    let cnt = if remaining < 50 {
                        remaining
                    } else {
                        50
                    };
                    let ghost chunk = colors.subrange(start as int, start as int + cnt as int);
                    let ghost gmid = views_of(frames@);
                    let pa = chunk_payload(&self.strips[c], c as u8, start, cnt, 0);
                    let fa = frame64(CMD_LED_DIRECT, &pa);
                    frames.push(fa);
                    let pb = chunk_payload(&self.strips[c], c as u8, start, cnt, 1);
                    let fb = frame64(CMD_LED_DIRECT, &pb);
                    frames.push(fb);
                    let pc = chunk_payload(&self.strips[c], c as u8, start, cnt, 2);
                    let fc = frame64(CMD_LED_DIRECT, &pc);
                    frames.push(fc);
                    proof {
                        let three = Seq::new(
                            3,
                            |m: int|
                                frame_spec(
                                    0x32u8,
                                    seq![(c as u8), (start as u8), (cnt as u8), (m as u8)]
                                        + channel_bytes(chunk, m),
                                ),
                        );
                        assert(three =~= seq![fa@, fb@, fc@]);
                        assert(views_of(frames@) =~= gmid + three);
                        assert(chunk_frames(c as int, colors, start as int) == three + (if start
                            as int + 50 < colors.len() {
                            chunk_frames(c as int, colors, start as int + 50)
                        } else {
                            Seq::empty()
                        }));
                        emitted = emitted + three;
                        if start as int + 50 < colors.len() {
                            assert(chunk_frames(c as int, colors, 0) =~= emitted + chunk_frames(
                                c as int,
                                colors,
                                start as int + 50,
                            ));
                        } else {
                            assert(chunk_frames(c as int, colors, 0) =~= emitted);
                            assert(chunk_frames(c as int, colors, 0) =~= emitted
                                + Seq::<Seq<u8>>::empty());
                        }
                    }
                    start += cnt;
                }
                proof {
                    assert(emitted =~= chunk_frames(c as int, colors, 0));
                }
                let mut p1: Vec<u8> = Vec::new();
                p1.push(c as u8);
                let f1 = frame64(CMD_LED_COMMIT, &p1);
                frames.push(f1);
                proof {
                    assert(p1@ =~= seq![(c as u8)]);
                    assert(views_of(frames@) =~= ghead + emitted + seq![
                        frame_spec(0x33u8, seq![(c as u8)]),
                    ]);
                    assert(views_of(frames@) =~= gbase + strip_frames(c as int, colors));
                    assert(strips_frames_upto(self.strips@, c as int + 1) =~= views_of(frames@));
                }
            }
            c += 1;
        }
        frames
    }

    /// Marks everything dirty after a (re)initialization, so the next update
    /// pushes the full software state.
    pub fn finish_initialize(&mut self)
        ensures
            *final(self) == (CorsairLighting {
                fans_dirty: true,
                strips_dirty: true,
                ..*old(self)
            }),
    {
        self.fans_dirty = true;
        self.strips_dirty = true;
    }
}

/// How many of the ticks `0..n` sample slot `k`, when the rotating pointer
/// starts at `s0` and advances by one modulo `m` each tick, as `sample_target`
/// and `finish_sampling` make it do.
pub open spec fn hits(s0: int, k: int, m: int, n: int) -> int
    decreases n,
{
    if n <= 0 {
        0
    } else {
        hits(s0, k, m, n - 1) + if (s0 + (n - 1)) % m == k {
            1int
        } else {
            0int
        }
    }
}

/// The exact sample count of one slot over a window of `n` ticks: the whole
/// rounds, plus one more when the leftover ticks reach the slot.
pub proof fn lemma_round_robin_exact(s0: int, k: int, m: int, n: int)
    requires
        0 <= s0 < m,
        0 <= k < m,
        0 <= n,
    ensures
        hits(s0, k, m, n) == n / m + if (k - s0) % m < n % m {
            1int
        } else {
            0int
        },
    decreases n,
{
    let off = (k - s0) % m;
    assert(0 <= off < m) by (nonlinear_arith)
        requires 0 < m, off == (k - s0) % m;
    if n == 0 {
        assert(0int / m == 0 && 0int % m == 0) by (nonlinear_arith)
            requires 0 < m;
    } else {
        lemma_round_robin_exact(s0, k, m, n - 1);
        let q1 = (n - 1) / m;
        let r1 = (n - 1) % m;
        assert(n - 1 == q1 * m + r1 && 0 <= r1 < m) by (nonlinear_arith)
            requires 0 < m, q1 == (n - 1) / m, r1 == (n - 1) % m;
        vstd::arithmetic::div_mod::lemma_mod_multiples_vanish(q1, s0 + r1, m);
        assert(s0 + (n - 1) == m * q1 + (s0 + r1)) by (nonlinear_arith)
            requires n - 1 == q1 * m + r1;
        assert((s0 + (n - 1)) % m == (s0 + r1) % m);
        assert(((s0 + r1) % m == k) <==> (r1 == off)) by (nonlinear_arith)
            requires 0 < m, 0 <= s0 < m, 0 <= k < m, 0 <= r1 < m, off == (k - s0) % m;
        if r1 == m - 1 {
            assert(n == (q1 + 1) * m) by (nonlinear_arith)
                requires n - 1 == q1 * m + r1, r1 == m - 1;
            assert(n / m == q1 + 1 && n % m == 0) by (nonlinear_arith)
                requires 0 < m, n == (q1 + 1) * m;
        } else {
            assert(n == q1 * m + (r1 + 1));
            assert(n / m == q1 && n % m == r1 + 1) by (nonlinear_arith)
                requires 0 < m, n == q1 * m + (r1 + 1), 0 <= r1 + 1 < m;
        }
    }
}

/// Law: round-robin sampling is fair. Across any `n` consecutive ticks with
/// `m` eligible telemetry slots, every slot is sampled at least `n / m`
/// times and at most `(n + m - 1) / m` times — the floor and ceiling of
/// `n / m`.
pub proof fn lemma_round_robin_fair(s0: int, k: int, m: int, n: int)
    requires
        0 <= s0 < m,
        0 <= k < m,
        0 <= n,
    ensures
        n / m <= hits(s0, k, m, n),
        hits(s0, k, m, n) <= (n + m - 1) / m,
{
    lemma_round_robin_exact(s0, k, m, n);
    let off = (k - s0) % m;
    if off < n % m {
        assert(n / m + 1 <= (n + m - 1) / m) by (nonlinear_arith)
            requires 0 < m, n % m >= 1, n >= 0;
    } else {
        assert(n / m <= (n + m - 1) / m) by (nonlinear_arith)
            requires 0 < m, n >= 0;
    }
}

/// The name of the six-channel controller.
fn new_strlit_commander() -> (res: String)
    ensures
        res@ == "Commander PRO"@,
{
    "Commander PRO".to_string()
}

/// The name of the LED-only controller.
fn new_strlit_core() -> (res: String)
    ensures
        res@ == "Lighting Node CORE"@,
{
    "Lighting Node CORE".to_string()
}

} // verus!
