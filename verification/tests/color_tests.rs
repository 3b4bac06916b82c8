use corsair_control::color::{Color, ColorOp};

#[test]
fn blend_full_factor_returns_other_rgb() {
    let a = Color::Hsv(120000, 800, 600);
    let other = Color::Rgb(1000, 0, 250);
    let res = a.blend(&other, &ColorOp::Blend(1000));
    assert_eq!(res, Color::Rgb(1000, 0, 250));
}

#[test]
fn blend_full_factor_returns_other_hsv() {
    let a = Color::Rgb(100, 200, 300);
    let other = Color::Hsv(350000, 900, 1000);
    let res = a.blend(&other, &ColorOp::Blend(1000));
    assert_eq!(res, Color::Hsv(350000, 900, 1000));
}

#[test]
fn blend_zero_factor_keeps_self_converted() {
    let a = Color::Rgb(1000, 0, 0);
    let other = Color::Hsv(200000, 500, 500);
    let res = a.blend(&other, &ColorOp::Blend(0));
    // `a` unchanged, but expressed in `other`'s colorspace
    let hsv = a.hsv();
    assert_eq!(res, Color::Hsv(hsv.0, hsv.1, hsv.2));
    assert_eq!(res, Color::Hsv(0, 1000, 1000));
}

#[test]
fn blend_zero_factor_keeps_self_rgb_space() {
    let a = Color::Rgb(123, 456, 789);
    let other = Color::Rgb(0, 0, 0);
    let res = a.blend(&other, &ColorOp::Blend(0));
    assert_eq!(res, Color::Rgb(123, 456, 789));
}

#[test]
fn hue_blend_is_linear_interpolation() {
    // blending hue 350 degrees toward 10 degrees at half strength lands at
    // the linear midpoint, wrapped into one turn
    let a = Color::Hsv(350000, 1000, 1000);
    let other = Color::Hsv(10000, 1000, 1000);
    let res = a.blend(&other, &ColorOp::Blend(500));
    assert_eq!(res, Color::Hsv(180000, 1000, 1000));
}

#[test]
fn rgb_view_of_primary_hues() {
    assert_eq!(Color::Hsv(0, 1000, 1000).rgb(), (1000, 0, 0));
    assert_eq!(Color::Hsv(120000, 1000, 1000).rgb(), (0, 1000, 0));
    assert_eq!(Color::Hsv(240000, 1000, 1000).rgb(), (0, 0, 1000));
}

#[test]
fn hsv_view_of_primary_channels() {
    assert_eq!(Color::Rgb(1000, 0, 0).hsv(), (0, 1000, 1000));
    assert_eq!(Color::Rgb(0, 1000, 0).hsv(), (120000, 1000, 1000));
    assert_eq!(Color::Rgb(0, 0, 1000).hsv(), (240000, 1000, 1000));
}

#[test]
fn hsv_view_degenerate_cases() {
    // black: value 0, hue reported as 0
    assert_eq!(Color::Rgb(0, 0, 0).hsv(), (0, 0, 0));
    // gray: saturation 0, hue reported as 0
    assert_eq!(Color::Rgb(500, 500, 500).hsv(), (0, 0, 500));
}

#[test]
fn rgb_hsv_round_trip_within_tolerance() {
    let cases = [
        (700i64, 300i64, 100i64),
        (1000, 0, 0),
        (10, 900, 500),
        (250, 750, 1000),
        (999, 1, 500),
    ];
    for &(r, g, b) in cases.iter() {
        let hsv = Color::Rgb(r, g, b).hsv();
        let back = Color::Hsv(hsv.0, hsv.1, hsv.2).rgb();
        assert!((back.0 - r).abs() <= 3, "r {} vs {}", back.0, r);
        assert!((back.1 - g).abs() <= 3, "g {} vs {}", back.1, g);
        assert!((back.2 - b).abs() <= 3, "b {} vs {}", back.2, b);
    }
}

#[test]
fn hsv_rgb_round_trip_within_tolerance() {
    let cases = [(20000i64, 857i64, 700i64), (300000, 1000, 1000), (45000, 400, 800)];
    for &(h, s, v) in cases.iter() {
        let rgb = Color::Hsv(h, s, v).rgb();
        let back = Color::Rgb(rgb.0, rgb.1, rgb.2).hsv();
        assert!((back.0 - h).abs() <= 300, "h {} vs {}", back.0, h);
        assert!((back.1 - s).abs() <= 5, "s {} vs {}", back.1, s);
        assert!((back.2 - v).abs() <= 5, "v {} vs {}", back.2, v);
    }
}

#[test]
fn add_clamps_only_at_the_top() {
    let a = Color::Rgb(900, 100, 0);
    let other = Color::Rgb(500, 100, 0);
    let res = a.blend(&other, &ColorOp::Add(1000));
    assert_eq!(res, Color::Rgb(1000, 200, 0));
}

#[test]
fn sub_bounds_components_below_by_full_intensity() {
    // Sub bounds subtracted components below by full intensity, so a
    // subtraction from a unit-range color lands at 1000
    let a = Color::Rgb(500, 300, 800);
    let other = Color::Rgb(200, 0, 100);
    let res = a.blend(&other, &ColorOp::Sub(1000));
    assert_eq!(res, Color::Rgb(1000, 1000, 1000));
}

#[test]
fn add_accepts_factors_above_one() {
    // the add factor is not limited to the unit range; the upper clamp
    // still bounds the result
    let a = Color::Rgb(100, 50, 0);
    let other = Color::Rgb(300, 100, 0);
    let res = a.blend(&other, &ColorOp::Add(2000));
    assert_eq!(res, Color::Rgb(700, 250, 0));
}

#[test]
fn default_op_replaces_outright() {
    assert_eq!(ColorOp::default(), ColorOp::Blend(1000));
}
