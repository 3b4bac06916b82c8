use corsair_control::color::{Color, ColorOp};
use corsair_control::device::Strip;
use corsair_control::effect::Effect;

fn full() -> ColorOp {
    ColorOp::Blend(1000)
}

#[test]
fn static_full_blend_overwrites_prior_contents() {
    let mut strip = Strip {
        colors: vec![Color::Hsv(200000, 900, 900), Color::Rgb(1, 2, 3), Color::Rgb(999, 999, 0)],
    };
    let effect = Effect::Static { color: Color::Rgb(1000, 0, 0), op: full() };
    effect.apply(&mut strip, &vec![], &vec![0, 1, 2], 0);
    assert_eq!(
        strip.colors,
        vec![Color::Rgb(1000, 0, 0), Color::Rgb(1000, 0, 0), Color::Rgb(1000, 0, 0)]
    );
}

#[test]
fn apply_grows_strip_with_black_slots() {
    let mut strip = Strip { colors: Vec::new() };
    let effect = Effect::Static { color: Color::Rgb(100, 200, 300), op: full() };
    effect.apply(&mut strip, &vec![], &vec![4], 7);
    assert_eq!(strip.colors.len(), 5);
    for i in 0..4 {
        assert_eq!(strip.colors[i], Color::Rgb(0, 0, 0));
    }
    assert_eq!(strip.colors[4], Color::Rgb(100, 200, 300));
}

#[test]
fn pattern_without_cadence_never_advances() {
    let a = Color::Rgb(1000, 0, 0);
    let b = Color::Rgb(0, 0, 1000);
    let effect = Effect::Pattern {
        frames_per_led: None,
        colors: vec![a, b],
        reverse: false,
        op: full(),
    };
    let mut early = Strip { colors: Vec::new() };
    let mut late = Strip { colors: Vec::new() };
    effect.apply(&mut early, &vec![], &vec![0, 1], 3);
    effect.apply(&mut late, &vec![], &vec![0, 1], 1700);
    assert_eq!(early.colors, late.colors);
}

#[test]
fn pattern_with_cadence_steps_each_period() {
    let a = Color::Rgb(1000, 0, 0);
    let b = Color::Rgb(0, 0, 1000);
    let effect = Effect::Pattern {
        frames_per_led: Some(10),
        colors: vec![a, b],
        reverse: true,
        op: full(),
    };
    let mut at0 = Strip { colors: Vec::new() };
    let mut at10 = Strip { colors: Vec::new() };
    effect.apply(&mut at0, &vec![], &vec![0, 1], 0);
    effect.apply(&mut at10, &vec![], &vec![0, 1], 10);
    // one step of the cadence rotates the palette by one entry
    assert_eq!(at0.colors, vec![a, b]);
    assert_eq!(at10.colors, vec![b, a]);
}

#[test]
fn gradient_interpolates_across_the_index_list() {
    let effect = Effect::Gradient {
        from: Color::Rgb(0, 0, 0),
        to: Color::Rgb(1000, 1000, 1000),
        op: full(),
    };
    let mut strip = Strip { colors: Vec::new() };
    effect.apply(&mut strip, &vec![], &vec![0, 1, 2], 0);
    assert_eq!(
        strip.colors,
        vec![Color::Rgb(0, 0, 0), Color::Rgb(500, 500, 500), Color::Rgb(1000, 1000, 1000)]
    );
}

#[test]
fn gradient_with_a_single_index_sits_at_the_start() {
    let effect = Effect::Gradient {
        from: Color::Rgb(1000, 0, 0),
        to: Color::Rgb(0, 0, 1000),
        op: full(),
    };
    let mut strip = Strip { colors: Vec::new() };
    effect.apply(&mut strip, &vec![], &vec![0], 0);
    assert_eq!(strip.colors, vec![Color::Rgb(1000, 0, 0)]);
}

#[test]
fn apply_with_no_indices_changes_nothing() {
    let effect = Effect::Static { color: Color::Rgb(1000, 0, 0), op: full() };
    let mut strip = Strip { colors: vec![Color::Rgb(1, 2, 3)] };
    effect.apply(&mut strip, &vec![], &vec![], 0);
    assert_eq!(strip.colors, vec![Color::Rgb(1, 2, 3)]);
}

#[test]
fn temperature_reads_probe_and_interpolates() {
    let effect = Effect::Temperature {
        sensor: 0,
        min_temperature: 2000,
        max_temperature: 8000,
        min_color: Color::Rgb(0, 0, 0),
        max_color: Color::Rgb(1000, 1000, 1000),
        op: full(),
    };
    let mut strip = Strip { colors: Vec::new() };
    effect.apply(&mut strip, &vec![Some(5000)], &vec![0], 0);
    assert_eq!(strip.colors, vec![Color::Rgb(500, 500, 500)]);
}

#[test]
fn temperature_missing_probe_falls_back_to_hottest() {
    let effect = Effect::Temperature {
        sensor: 3,
        min_temperature: 2000,
        max_temperature: 8000,
        min_color: Color::Rgb(0, 0, 0),
        max_color: Color::Rgb(1000, 0, 0),
        op: full(),
    };
    let mut strip = Strip { colors: Vec::new() };
    effect.apply(&mut strip, &vec![None], &vec![0], 0);
    assert_eq!(strip.colors, vec![Color::Rgb(1000, 0, 0)]);
}

#[test]
fn rotation_starts_on_the_first_palette_entry() {
    let effect = Effect::Rotation {
        duration: 4,
        colors: vec![Color::Rgb(0, 0, 0), Color::Rgb(1000, 1000, 1000)],
        reverse: false,
        op: full(),
    };
    let mut strip = Strip { colors: Vec::new() };
    effect.apply(&mut strip, &vec![], &vec![0], 0);
    assert_eq!(strip.colors, vec![Color::Rgb(0, 0, 0)]);
}

#[test]
fn noise_draws_small_hsv_colors() {
    let effect = Effect::Noise(full());
    let mut strip = Strip { colors: Vec::new() };
    effect.apply(&mut strip, &vec![], &vec![0, 1, 2, 3], 0);
    for c in strip.colors.iter() {
        match *c {
            Color::Hsv(h, s, v) => {
                assert!(0 <= h && h < 1000);
                assert!(0 <= s && s < 1000);
                assert!(0 <= v && v < 1000);
            }
            Color::Rgb(_, _, _) => panic!("noise draws HSV colors"),
        }
    }
}

#[test]
fn is_animated_marks_time_dependent_effects() {
    assert!(Effect::Noise(full()).is_animated());
    assert!(
        Effect::Rotation { duration: 1, colors: vec![], reverse: false, op: full() }.is_animated()
    );
    assert!(
        !Effect::Static { color: Color::Rgb(0, 0, 0), op: full() }.is_animated()
    );
    assert!(
        !Effect::Pattern { frames_per_led: None, colors: vec![], reverse: false, op: full() }
            .is_animated()
    );
}

#[test]
fn wave_touches_only_covered_leds() {
    let effect = Effect::Wave {
        frames_per_led: 1,
        length: 2,
        colors: vec![Color::Rgb(1000, 1000, 1000)],
        op: full(),
    };
    let mut strip = Strip { colors: vec![Color::Rgb(0, 0, 0); 4] };
    // at frame 0 the comet has not yet entered the strip
    effect.apply(&mut strip, &vec![], &vec![0, 1, 2, 3], 0);
    assert_eq!(strip.colors, vec![Color::Rgb(0, 0, 0); 4]);
    // two frames later its head has entered
    effect.apply(&mut strip, &vec![], &vec![0, 1, 2, 3], 2);
    assert_ne!(strip.colors, vec![Color::Rgb(0, 0, 0); 4]);
}
