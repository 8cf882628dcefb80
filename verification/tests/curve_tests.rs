use gpuctl::curve::{compute_pwm, CurvePoint};

fn default_curve() -> Vec<CurvePoint> {
    vec![
        CurvePoint { temp: 20, duty: 0 },
        CurvePoint { temp: 40, duty: 0 },
        CurvePoint { temp: 60, duty: 50_000 },
        CurvePoint { temp: 80, duty: 80_000 },
        CurvePoint { temp: 100, duty: 100_000 },
    ]
}

#[test]
fn interpolation_at_seventy_degrees() {
    // percent = 50 + (80 - 50) * (70 - 60) / (80 - 60) = 65.0
    // pwm = round(255 * 0.65) = round(165.75) = 166
    assert_eq!(compute_pwm(&default_curve(), 70), Some(166));
}

#[test]
fn no_write_at_or_above_last_key() {
    assert_eq!(compute_pwm(&default_curve(), 100), None);
    assert_eq!(compute_pwm(&default_curve(), 150), None);
}

#[test]
fn no_write_below_first_key() {
    assert_eq!(compute_pwm(&default_curve(), 10), None);
    assert_eq!(compute_pwm(&default_curve(), 19), None);
}

#[test]
fn pwm_monotone_over_the_domain() {
    let curve = default_curve();
    let mut last: u8 = 0;
    let mut t: i64 = 20;
    while t < 100 {
        let pwm = compute_pwm(&curve, t).expect("temperature inside the domain");
        assert!(pwm >= last, "pwm dropped at {} C", t);
        last = pwm;
        t += 1;
    }
}

#[test]
fn segment_end_values() {
    // 40 C sits in the flat 0% segment.
    assert_eq!(compute_pwm(&default_curve(), 40), Some(0));
    // 60 C starts the 50% segment: round(255 * 0.5) = round(127.5) = 128.
    assert_eq!(compute_pwm(&default_curve(), 60), Some(128));
    // 80 C starts the 80% segment: 255 * 0.8 = 204 exactly.
    assert_eq!(compute_pwm(&default_curve(), 80), Some(204));
}

#[test]
fn fractional_duty_values_interpolate() {
    // 12.5% at 30 C on a 0..25% ramp from 20 C to 40 C:
    // round(255 * 0.125) = round(31.875) = 32.
    let curve = vec![
        CurvePoint { temp: 20, duty: 0 },
        CurvePoint { temp: 40, duty: 25_000 },
    ];
    assert_eq!(compute_pwm(&curve, 30), Some(32));
}

#[test]
fn short_curve_never_writes() {
    let curve = vec![CurvePoint { temp: 50, duty: 50_000 }];
    assert_eq!(compute_pwm(&curve, 50), None);
    let empty: Vec<CurvePoint> = vec![];
    assert_eq!(compute_pwm(&empty, 50), None);
}
