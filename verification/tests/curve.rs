use meca_hid::curve::{Curve, Point, MAX_VALUE};

#[test]
fn linear_curve_is_correct() {
    let c = Curve::linear();

    assert_eq!(c.interpolate(0), 0);
    assert_eq!(c.interpolate(2048), 2048);
    assert_eq!(c.interpolate(4096), 4096);
}

#[test]
fn deadzone_clamps_bottom() {
    let mut c = Curve::linear();
    c.set_bottom_dz(10);
    let boundary = c.points()[1].x;

    assert_eq!(c.interpolate(0), 0);
    assert!(c.interpolate(boundary) <= 1);
    assert!(c.interpolate(2048) > 0);
}

#[test]
fn deadzone_clamps_top() {
    let mut c = Curve::linear();
    c.set_top_dz(90);
    let top = c.points()[7].x;

    assert_eq!(c.interpolate(4096), MAX_VALUE);
    assert_eq!(c.interpolate(top), MAX_VALUE);
}

#[test]
fn calibration_sets_bottom_and_top() {
    let c = Curve::with_calibration(100, 800);

    assert_eq!(c.bottom(), 100);
    assert_eq!(c.top(), 800);
    assert_eq!(c.points()[0].x, 100);
    assert_eq!(c.points()[8].x, 800);
}

#[test]
fn middle_points_evenly_spaced() {
    let c = Curve::linear();
    let p = c.points();
    let start = p[1].x as u32;
    let span = (p[7].x - p[1].x) as u32;

    for i in 0..5 {
        let expected = start + (span * (i as u32 + 1)) / 6;
        assert_eq!(p[i + 2].x, expected as u16);
    }
}

#[test]
fn identical_report() {
    let c = Curve::with_calibration(113, 803);
    let report = c.to_report(0xF102);
    assert_eq!(report[0], 0xF102);

    let decoded = Curve::from_report(&report).unwrap();
    assert_eq!(c, decoded);
}

#[test]
fn set_middle_y_enforces_monotonic() {
    let mut c = Curve::linear();
    c.set_middle_y(&[3000, 2000, 1000, 500, 100]);
    let p = c.points();

    for i in 3..=6 {
        assert!(p[i].y >= p[i - 1].y);
    }
}

#[test]
fn brake_real_data() {
    // Actual brake feature report captured from the device
    let data: [u16; 32] = [
        61698, 113, 0, 140, 0, 251, 682, 361, 1365, 471, 2048, 582, 2730, 692, 3413, 803, 4096,
        803, 4096, 0, 0, 0, 0, 0, 0, 0, 0, 0, 0, 0, 0, 0,
    ];
    let c = Curve::from_report(&data).unwrap();

    assert_eq!(c.bottom(), 113);
    assert_eq!(c.top(), 803);
    assert_eq!(c.interpolate(113), 0);
    assert_eq!(c.interpolate(803), MAX_VALUE);
}

#[test]
fn linear_curve_is_identity_everywhere() {
    let c = Curve::linear();
    for v in [1u16, 5, 681, 682, 683, 1000, 2047, 2049, 3000, 3413, 4095, 4096, 5000, 65535] {
        assert_eq!(c.interpolate(v), v.min(MAX_VALUE));
    }
}

#[test]
fn interpolation_is_monotone_on_a_shaped_curve() {
    let mut c = Curve::with_calibration(200, 3900);
    c.set_bottom_dz(5);
    c.set_top_dz(7);
    c.set_middle_y(&[100, 900, 900, 3000, 4000]);
    assert!(c.is_well_formed());
    let mut prev = 0;
    for v in (0u16..=4200).step_by(7) {
        let out = c.interpolate(v);
        assert!(out >= prev);
        assert!(out <= MAX_VALUE);
        prev = out;
    }
}

#[test]
fn interpolation_exact_values() {
    // Segment from point 1 (0, 0) to point 2 (682, 682) of the linear curve after a middle
    // change: point 2 now outputs 1000.
    let mut c = Curve::linear();
    c.set_middle_y(&[1000, 1365, 2048, 2730, 3413]);
    // 0 + (341 * 1000) / 682 = 500
    assert_eq!(c.interpolate(341), 500);
    // 1000 + ((1000 - 682) * 365) / 683 = 1169
    assert_eq!(c.interpolate(1000), 1169);
}

#[test]
fn set_middle_y_clamps_and_runs_maximum() {
    let mut c = Curve::linear();
    c.set_middle_y(&[5000, 100, 4096, 0, 65535]);
    let ys: Vec<u16> = c.points()[2..7].iter().map(|p| p.y).collect();
    assert_eq!(ys, vec![4096, 4096, 4096, 4096, 4096]);

    c.set_middle_y(&[10, 5, 20, 15, 30]);
    let ys: Vec<u16> = c.points()[2..7].iter().map(|p| p.y).collect();
    assert_eq!(ys, vec![10, 10, 20, 20, 30]);
}

#[test]
fn deadzone_percentages() {
    let mut c = Curve::linear();
    assert_eq!(c.bottom_dz_percentage(), 0);
    assert_eq!(c.top_dz_percentage(), 100);

    c.set_bottom_dz(10);
    // offset 4096 * 10 / 100 = 409; 409 * 100 / 4096 = 9
    assert_eq!(c.points()[1].x, 409);
    assert_eq!(c.bottom_dz_percentage(), 9);

    c.set_top_dz(90);
    // offset 4096 * 90 / 100 = 3686; point 7 at 4096 - 3686 = 410
    assert_eq!(c.points()[7].x, 410);
    assert_eq!(c.top_dz_percentage(), 11);

    // Deadzone above 100 % is treated as 100 %: point 1 stops at point 7
    c.set_bottom_dz(250);
    assert_eq!(c.points()[1].x, 410);
}

#[test]
fn zero_range_percentages() {
    let c = Curve::with_calibration(500, 500);
    assert_eq!(c.bottom_dz_percentage(), 100);
    assert_eq!(c.top_dz_percentage(), 0);
    for p in &c.points()[0..9] {
        assert_eq!(p.x, 500);
    }
}

#[test]
fn calibration_clamps_extremes() {
    let c = Curve::with_calibration(5000, 6000);
    assert_eq!(c.bottom(), 4096);
    assert_eq!(c.top(), 4096);

    let c = Curve::with_calibration(900, 300);
    assert_eq!(c.bottom(), 900);
    assert_eq!(c.top(), 900);
}

#[test]
fn set_extremes_resets_deadzones() {
    let mut c = Curve::linear();
    c.set_bottom_dz(20);
    c.set_top_dz(20);
    c.set_extremes(0, 600);
    let p = c.points();
    assert_eq!(p[0], Point { x: 0, y: 0 });
    assert_eq!(p[1], Point { x: 0, y: 0 });
    assert_eq!(p[7], Point { x: 600, y: MAX_VALUE });
    assert_eq!(p[8], Point { x: 600, y: MAX_VALUE });
    let xs: Vec<u16> = p[2..7].iter().map(|p| p.x).collect();
    assert_eq!(xs, vec![100, 200, 300, 400, 500]);
}

#[test]
fn default_is_linear() {
    assert_eq!(Curve::default(), Curve::linear());
}

#[test]
fn from_report_rejects_short_payload() {
    assert!(Curve::from_report(&[0u16; 18]).is_none());
    assert!(Curve::from_report(&[]).is_none());
    assert!(Curve::from_report(&[0u16; 19]).is_some());
}

#[test]
fn report_layout() {
    let c = Curve::with_calibration(113, 803);
    let r = c.to_report(0xF103);
    assert_eq!(r[0], 0xF103);
    assert_eq!(&r[1..5], &[113, 0, 113, 0]);
    assert_eq!(&r[15..19], &[803, 4096, 803, 4096]);
    assert!(r[19..].iter().all(|&w| w == 0));
}

#[test]
fn well_formedness_check() {
    assert!(Curve::linear().is_well_formed());
    let mut data = [0u16; 32];
    data[17] = 100;
    data[18] = 4096;
    data[15] = 200;
    data[16] = 4096;
    assert!(!Curve::from_report(&data).unwrap().is_well_formed());
}
