use donut::trig::{Trig, ONE};

#[test]
fn one_is_two_to_the_twentieth() {
    assert_eq!(ONE, 1 << 20);
}

#[test]
fn pairs_about_as_long_as_a_unit_vector_are_accepted() {
    for (cos, sin) in [
        (ONE, 0),
        (0, ONE),
        (-ONE, 0),
        (0, -ONE),
        (566548, 882346),
        (-1048574, 1670),
        (741455, 741455),
        (-741455, -741455),
        (ONE - 1, 0),
        (ONE - 2, 0),
        (0, 2 - ONE),
        (741454, 741454),
    ] {
        let t = Trig::new(cos, sin).unwrap();
        assert_eq!(t.cos(), cos);
        assert_eq!(t.sin(), sin);
    }
}

#[test]
fn longer_pairs_are_refused() {
    for (cos, sin) in [
        (ONE, 1),
        (1, ONE),
        (ONE + 1, 0),
        (0, -ONE - 1),
        (741456, 741456),
        (ONE, ONE),
        (i64::MAX, 0),
        (i64::MIN, i64::MIN),
        (i64::MAX, i64::MAX),
    ] {
        assert!(Trig::new(cos, sin).is_none());
    }
}

#[test]
fn shorter_pairs_are_refused() {
    for (cos, sin) in [(0, 0), (ONE - 3, 0), (0, 3 - ONE), (ONE / 2, ONE / 2), (741453, 741453), (1, 1)] {
        assert!(Trig::new(cos, sin).is_none());
    }
}

#[test]
fn the_angle_zero_has_cosine_one_and_sine_zero() {
    let t = Trig::zero();
    assert_eq!(t.cos(), ONE);
    assert_eq!(t.sin(), 0);
}

#[test]
fn cosines_and_sines_rounded_towards_zero_are_accepted() {
    for hundredths in 0..=2000u64 {
        let angle = hundredths as f64 / 100.0;
        let cos = (angle.cos() * ONE as f64) as i64;
        let sin = (angle.sin() * ONE as f64) as i64;
        let t = Trig::new(cos, sin).unwrap();
        assert!((t.cos() as f64 / ONE as f64 - angle.cos()).abs() < 1.0 / ONE as f64);
        assert!((t.sin() as f64 / ONE as f64 - angle.sin()).abs() < 1.0 / ONE as f64);
    }
}
