use corsair_control::color::Color;
use corsair_control::corsair::{
    decode_rpm, decode_temp, frame64, CorsairLighting, FanMode,
};
use corsair_control::device::{Fan, TempRpm};

#[test]
fn temperature_decodes_to_hundredths() {
    // 0x012C == 300 hundredths == 3 degrees
    assert_eq!(decode_temp(1, 44), 300);
    assert_eq!(decode_temp(0, 0), 0);
    assert_eq!(decode_temp(255, 255), 65535);
}

#[test]
fn rpm_decodes_big_endian() {
    assert_eq!(decode_rpm(5, 220), 1500);
}

#[test]
fn frame_layout_is_reserved_command_payload() {
    let f = frame64(0x11, &vec![3]);
    assert_eq!(f.len(), 64);
    assert_eq!(f[0], 0);
    assert_eq!(f[1], 0x11);
    assert_eq!(f[2], 3);
    for i in 3..64 {
        assert_eq!(f[i], 0);
    }
}

#[test]
fn commander_pro_starts_dirty_with_six_fans() {
    let d = CorsairLighting::new_commander_pro();
    assert_eq!(d.fans.len(), 6);
    assert_eq!(d.strips.len(), 2);
    assert_eq!(d.probes.len(), 4);
    assert!(d.fans_dirty);
    assert!(d.strips_dirty);
    assert!(!d.is_led_only());
    assert_eq!(*d.name(), "Commander PRO".to_string());
}

#[test]
fn lighting_node_core_is_led_only() {
    let d = CorsairLighting::new_lighting_node_core();
    assert!(d.is_led_only());
    assert_eq!(d.strips.len(), 1);
}

#[test]
fn pwm_fan_frame_carries_clamped_duty() {
    let d = CorsairLighting::new_commander_pro();
    // constructor duty is 250 thousandths == 25 percent
    let frames = d.update_fans_frames();
    assert_eq!(frames.len(), 6);
    assert_eq!(frames[0][1], 0x23);
    assert_eq!(frames[0][2], 0);
    assert_eq!(frames[0][3], 25);
    assert_eq!(frames[5][2], 5);
}

#[test]
fn pwm_duty_clamps_at_both_ends() {
    let mut d = CorsairLighting::new_commander_pro();
    d.set_fan(0, Fan::Pwm(-50));
    d.set_fan(1, Fan::Pwm(5000));
    let frames = d.update_fans_frames();
    assert_eq!(frames[0][3], 0);
    assert_eq!(frames[1][3], 100);
}

#[test]
fn rpm_fan_frame_is_a_degenerate_curve() {
    let mut d = CorsairLighting::new_commander_pro();
    d.set_fan(0, Fan::Rpm(1500));
    let frames = d.update_fans_frames();
    let f = &frames[0];
    assert_eq!(f[1], 0x25);
    assert_eq!(f[2], 0); // fan index
    assert_eq!(f[3], 0); // sensor forced to 0
    for i in 4..16 {
        assert_eq!(f[i], 0); // all six temperatures are zero
    }
    for j in 0..6 {
        assert_eq!(f[16 + 2 * j], 5); // 1500 == 0x05DC
        assert_eq!(f[17 + 2 * j], 220);
    }
}

#[test]
fn curve_fan_frame_packs_breakpoints() {
    let mut d = CorsairLighting::new_commander_pro();
    let bp = |temp: u16, rpm: u16| TempRpm { temp, rpm };
    d.set_fan(
        2,
        Fan::Curve(
            1,
            [bp(2000, 600), bp(3000, 800), bp(4000, 1000), bp(5000, 1200), bp(6000, 1400), bp(
                7000, 1600,
            )],
        ),
    );
    let frames = d.update_fans_frames();
    let f = &frames[2];
    assert_eq!(f[1], 0x25);
    assert_eq!(f[2], 2); // fan index
    assert_eq!(f[3], 1); // sensor index
    // first breakpoint: 2000 hundredths == 0x07D0, 600 rpm == 0x0258
    assert_eq!(f[4], 0x07);
    assert_eq!(f[5], 0xD0);
    assert_eq!(f[16], 0x02);
    assert_eq!(f[17], 0x58);
    // last breakpoint: 7000 == 0x1B58, 1600 == 0x0640
    assert_eq!(f[14], 0x1B);
    assert_eq!(f[15], 0x58);
    assert_eq!(f[26], 0x06);
    assert_eq!(f[27], 0x40);
}

#[test]
fn strip_frames_chunk_and_commit() {
    let mut d = CorsairLighting::new_lighting_node_core();
    d.strips[0].colors = vec![Color::Rgb(1000, 0, 0), Color::Rgb(0, 1000, 0)];
    let frames = d.update_strips_frames();
    assert_eq!(frames.len(), 5);
    // software-mode switch
    assert_eq!(frames[0][1], 0x38);
    assert_eq!(frames[0][2], 0);
    assert_eq!(frames[0][3], 0x02);
    // red channel of the chunk
    assert_eq!(frames[1][1], 0x32);
    assert_eq!(frames[1][2], 0); // channel
    assert_eq!(frames[1][3], 0); // start LED
    assert_eq!(frames[1][4], 2); // LED count
    assert_eq!(frames[1][5], 0); // color channel
    assert_eq!(frames[1][6], 255);
    assert_eq!(frames[1][7], 0);
    // green channel
    assert_eq!(frames[2][5], 1);
    assert_eq!(frames[2][6], 0);
    assert_eq!(frames[2][7], 255);
    // blue channel
    assert_eq!(frames[3][5], 2);
    assert_eq!(frames[3][6], 0);
    assert_eq!(frames[3][7], 0);
    // commit
    assert_eq!(frames[4][1], 0x33);
    assert_eq!(frames[4][2], 0);
}

#[test]
fn empty_strips_send_nothing() {
    let d = CorsairLighting::new_lighting_node_core();
    assert_eq!(d.update_strips_frames().len(), 0);
}

#[test]
fn init_channel_frames_reset_to_hardware_default() {
    let frames = corsair_control::corsair::init_channel_frames(1);
    assert_eq!(frames.len(), 5);
    assert_eq!(frames[0][1], 0x37);
    assert_eq!(frames[1][1], 0x34);
    assert_eq!(frames[2][1], 0x38);
    assert_eq!(frames[2][3], 0x01); // hardware mode
    assert_eq!(frames[3][1], 0x35);
    assert_eq!(frames[3][4], 204);
    assert_eq!(frames[4][1], 0x33);
    for f in frames.iter() {
        assert_eq!(f[2], 1); // all address channel 1
    }
}

#[test]
fn fan_modes_classify_from_response() {
    let mut d = CorsairLighting::new_commander_pro();
    let mut resp = vec![0u8; 16];
    resp[1] = 1; // DC
    resp[2] = 2; // PWM
    resp[3] = 0; // disconnected
    resp[4] = 9; // unknown counts as disconnected
    d.apply_fan_modes(&resp);
    assert_eq!(d.fan_modes[0], FanMode::Dc);
    assert_eq!(d.fan_modes[1], FanMode::Pwm);
    assert_eq!(d.fan_modes[2], FanMode::Off);
    assert_eq!(d.fan_modes[3], FanMode::Off);
}

#[test]
fn probe_config_marks_connected_probes() {
    let mut cfg = vec![0u8; 16];
    cfg[1] = 1;
    cfg[3] = 0;
    assert!(CorsairLighting::probe_configured(&cfg, 0));
    assert!(!CorsairLighting::probe_configured(&cfg, 2));
}

#[test]
fn faulted_temperature_reads_saturate_high() {
    let mut d = CorsairLighting::new_commander_pro();
    d.record_temp_sample(0, 0, 0);
    assert_eq!(d.probes[0], Some(10000));
    d.record_temp_sample(1, 1, 44);
    assert_eq!(d.probes[1], Some(300));
}

#[test]
fn round_robin_samples_every_metric_fairly() {
    let mut d = CorsairLighting::new_commander_pro();
    // two present probes and one enabled fan
    d.record_initial_temp(0, 1, 0);
    d.record_initial_temp(2, 1, 0);
    let mut resp = vec![0u8; 16];
    resp[2] = 2; // fan 1 is PWM
    d.apply_fan_modes(&resp);

    let n = 7;
    let m = 3;
    let mut counts = std::collections::BTreeMap::new();
    for _ in 0..n {
        let target = d.sample_target().expect("a metric is always eligible");
        *counts.entry(target).or_insert(0usize) += 1;
        match target {
            (true, i) => d.record_temp_sample(i, 1, 10),
            (false, i) => d.record_rpm_sample(i, 3, 0),
        }
        d.finish_sampling();
    }
    assert_eq!(counts.len(), m);
    for (_, &c) in counts.iter() {
        assert!(c >= n / m, "sampled {} times, expected at least {}", c, n / m);
        assert!(c <= n / m + 1, "sampled {} times, expected at most {}", c, n / m + 1);
    }
    assert!(counts.contains_key(&(true, 0)));
    assert!(counts.contains_key(&(true, 2)));
    assert!(counts.contains_key(&(false, 1)));
}

#[test]
fn off_fans_read_zero_speed() {
    let mut d = CorsairLighting::new_commander_pro();
    d.record_rpm_sample(3, 3, 0);
    assert_eq!(d.rpms[3], 768);
    // all fans are Off until a mode query says otherwise
    d.finish_sampling();
    assert_eq!(d.rpms[3], 0);
}
