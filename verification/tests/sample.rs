use donut::palette::shade;
use donut::projection::Projection;
use donut::sample::{sample, Sample, DEPTH_ONE, DEPTH_UNIT};
use donut::surface::UNIT;
use donut::trig::{Trig, ONE};

fn pair(cos: i64, sin: i64) -> Trig {
    Trig::new(cos, sin).unwrap()
}

fn hundredths(angle: u64) -> Trig {
    let x = angle as f64 / 100.0;
    Trig::new((x.cos() * ONE as f64) as i64, (x.sin() * ONE as f64) as i64).unwrap()
}

#[test]
fn the_depth_unit_is_the_depth_of_one_times_the_unit() {
    assert_eq!(DEPTH_ONE, 1 << 40);
    assert_eq!(DEPTH_UNIT, DEPTH_ONE as i128 * UNIT);
}

#[test]
fn the_outer_edge_at_rest_is_three_eighths_of_the_width_from_the_middle() {
    let p = Projection::standard();
    let rest = Trig::zero();
    // 15 + 18.75 * 3 / 5 = 26.25
    assert_eq!(
        sample(&p, 30, 30, &rest, &rest, &rest, &rest),
        Sample { row: 15, col: 26, inverse_depth: 219902325555, luminance: 0 }
    );
    // 15.5 + 19.375 * 3 / 5 = 27.125
    assert_eq!(
        sample(&p, 31, 31, &rest, &rest, &rest, &rest),
        Sample { row: 15, col: 27, inverse_depth: 219902325555, luminance: 0 }
    );
}

#[test]
fn rows_count_downwards() {
    let p = Projection::standard();
    let rest = Trig::zero();
    let quarter = Trig::new(0, ONE).unwrap();
    // the top of the tube: 15 - 18.75 * 1 / 5 = 11.25, 15 + 18.75 * 2 / 5 = 22.5
    assert_eq!(
        sample(&p, 30, 30, &rest, &rest, &quarter, &rest),
        Sample { row: 11, col: 22, inverse_depth: 219902325555, luminance: UNIT }
    );
    // the outer edge turned to the top: 15 - 18.75 * 3 / 5 = 3.75
    assert_eq!(
        sample(&p, 30, 30, &rest, &quarter, &rest, &rest),
        Sample { row: 3, col: 15, inverse_depth: 219902325555, luminance: UNIT }
    );
}

#[test]
fn the_nearer_sample_has_the_greater_inverse_depth() {
    let p = Projection::standard();
    let rest = Trig::zero();
    let far = sample(&p, 30, 30, &rest, &rest, &rest, &Trig::new(0, ONE).unwrap());
    let near = sample(&p, 30, 30, &rest, &rest, &rest, &Trig::new(0, -ONE).unwrap());
    assert_eq!(far, Sample { row: 15, col: 15, inverse_depth: 137438953472, luminance: -UNIT });
    assert_eq!(near, Sample { row: 15, col: 15, inverse_depth: 549755813888, luminance: UNIT });
    assert_eq!(far.inverse_depth, DEPTH_ONE / 8);
    assert_eq!(near.inverse_depth, DEPTH_ONE / 2);
}

#[test]
fn samples_of_the_turned_torus() {
    let p = Projection::standard();
    let turn = pair(566548, 882346);
    assert_eq!(
        sample(&p, 30, 30, &turn, &turn, &pair(1048576, 0), &pair(1048576, 0)),
        Sample { row: 5, col: 21, inverse_depth: 219902325555, luminance: 1017275677903833001885696 }
    );
    assert_eq!(
        sample(&p, 30, 30, &turn, &turn, &pair(1046008, 73340), &pair(1048366, 20970)),
        Sample { row: 5, col: 21, inverse_depth: 215961296717, luminance: 944118468902275593182848 }
    );
    assert_eq!(
        sample(&p, 30, 30, &turn, &turn, &pair(835, 1048575), &pair(-1048574, 1670)),
        Sample { row: 19, col: 10, inverse_depth: 188169702618, luminance: -665169099377702816455440 }
    );
    assert_eq!(
        sample(&p, 30, 30, &turn, &turn, &pair(1047093, -55742), &pair(1048570, -3340)),
        Sample { row: 5, col: 21, inverse_depth: 222118757029, luminance: 1054974117519827977592544 }
    );
    assert_eq!(
        sample(&p, 30, 30, &turn, &turn, &pair(-1048538, -8815), &pair(566548, 882346)),
        Sample { row: 14, col: 18, inverse_depth: 201834464358, luminance: 468071164798730538738464 }
    );
}

#[test]
fn samples_of_other_scenes() {
    let turn = pair(566548, 882346);
    assert_eq!(
        sample(&Projection::new(2, 3, 7).unwrap(), 80, 24, &turn, &turn, &pair(-1048538, -8815), &turn),
        Sample { row: 11, col: 45, inverse_depth: 147773222257, luminance: 468071164798730538738464 }
    );
    let rest = Trig::zero();
    // a ring without a tube, its near side one unit before the viewer
    assert_eq!(
        sample(&Projection::new(0, 1, 2).unwrap(), 9, 7, &rest, &rest, &rest, &Trig::new(0, -ONE).unwrap()),
        Sample { row: 3, col: 4, inverse_depth: DEPTH_ONE, luminance: UNIT }
    );
}

#[test]
fn every_lit_sample_has_a_glyph() {
    let p = Projection::standard();
    let mut seen = [false; 12];
    for tick in [0u64, 100, 107, 355, 800] {
        let a = hundredths(tick);
        let b = hundredths(tick / 2 + 3);
        for theta in (0..=628).step_by(7) {
            for phi in (0..=628).step_by(2) {
                let s = sample(&p, 30, 30, &a, &b, &hundredths(theta), &hundredths(phi));
                assert!(s.inverse_depth >= 1);
                let index = 8 * s.luminance / UNIT;
                if s.luminance > 0 {
                    assert!((0..=11).contains(&index));
                    let glyph = shade(s.luminance).unwrap();
                    assert_eq!(".,-~:;=!*#$@".chars().nth(index as usize), Some(glyph));
                    seen[index as usize] = true;
                } else {
                    assert_eq!(shade(s.luminance), None);
                }
            }
        }
    }
    assert_eq!(seen, [true; 12]);
}
