use donut::frame::{Cell, Frame};
use donut::sample::Sample;
use donut::surface::UNIT;

const BLANK: Cell = Cell { glyph: ' ', inverse_depth: 0 };

fn lit(row: i64, col: i64, inverse_depth: u64) -> Sample {
    Sample { row, col, inverse_depth, luminance: UNIT }
}

fn shown(frame: &Frame) -> Vec<String> {
    let mut out = Vec::new();
    for row in 0..frame.height() as usize {
        let mut line = String::new();
        for col in 0..frame.width() as usize {
            line.push(frame.cell(row, col).unwrap().glyph);
        }
        out.push(line);
    }
    out
}

#[test]
fn a_new_frame_is_blank() {
    let frame = Frame::new(4, 3);
    assert_eq!(frame.width(), 4);
    assert_eq!(frame.height(), 3);
    for row in 0..3 {
        for col in 0..4 {
            assert_eq!(frame.cell(row, col), Some(BLANK));
        }
    }
    assert_eq!(frame.cell(3, 0), None);
    assert_eq!(frame.cell(0, 4), None);
    assert_eq!(frame.cell(usize::MAX, usize::MAX), None);
}

#[test]
fn a_lit_sample_is_drawn_on_its_cell() {
    let mut frame = Frame::new(4, 3);
    assert!(frame.plot(&Sample { row: 1, col: 2, inverse_depth: 7, luminance: UNIT / 2 }));
    assert_eq!(frame.cell(1, 2), Some(Cell { glyph: ':', inverse_depth: 7 }));
    assert_eq!(shown(&frame), ["    ", "  : ", "    "]);
}

#[test]
fn a_sample_that_is_not_lit_is_not_drawn() {
    let mut frame = Frame::new(4, 3);
    assert!(!frame.plot(&Sample { row: 1, col: 2, inverse_depth: 7, luminance: 0 }));
    assert!(!frame.plot(&Sample { row: 1, col: 2, inverse_depth: 7, luminance: -1 }));
    assert!(!frame.plot(&Sample { row: 1, col: 2, inverse_depth: 7, luminance: -UNIT }));
    assert!(!frame.plot(&Sample { row: 1, col: 2, inverse_depth: 7, luminance: i128::MIN }));
    assert_eq!(shown(&frame), ["    ", "    ", "    "]);
    assert_eq!(frame.cell(1, 2), Some(BLANK));
}

#[test]
fn a_sample_brighter_than_the_palette_is_not_drawn() {
    let mut frame = Frame::new(4, 3);
    assert!(!frame.plot(&Sample { row: 1, col: 2, inverse_depth: 7, luminance: 12 * (UNIT / 8) }));
    assert!(!frame.plot(&Sample { row: 1, col: 2, inverse_depth: 7, luminance: i128::MAX }));
    assert_eq!(frame.cell(1, 2), Some(BLANK));
    assert!(frame.plot(&Sample { row: 1, col: 2, inverse_depth: 7, luminance: 12 * (UNIT / 8) - 1 }));
    assert_eq!(frame.cell(1, 2), Some(Cell { glyph: '@', inverse_depth: 7 }));
}

#[test]
fn the_nearer_sample_wins_whatever_the_order() {
    let near = Sample { row: 0, col: 0, inverse_depth: 9, luminance: UNIT };
    let far = Sample { row: 0, col: 0, inverse_depth: 4, luminance: UNIT / 2 };
    let mut frame = Frame::new(2, 2);
    assert!(frame.plot(&far));
    assert!(frame.plot(&near));
    assert_eq!(frame.cell(0, 0), Some(Cell { glyph: '*', inverse_depth: 9 }));
    let mut frame = Frame::new(2, 2);
    assert!(frame.plot(&near));
    assert!(!frame.plot(&far));
    assert_eq!(frame.cell(0, 0), Some(Cell { glyph: '*', inverse_depth: 9 }));
}

#[test]
fn of_two_samples_equally_near_the_first_stays() {
    let mut frame = Frame::new(2, 2);
    assert!(frame.plot(&Sample { row: 1, col: 1, inverse_depth: 5, luminance: UNIT / 8 }));
    assert!(!frame.plot(&Sample { row: 1, col: 1, inverse_depth: 5, luminance: UNIT }));
    assert_eq!(frame.cell(1, 1), Some(Cell { glyph: ',', inverse_depth: 5 }));
}

#[test]
fn a_sample_at_no_depth_is_not_drawn() {
    let mut frame = Frame::new(2, 2);
    assert!(!frame.plot(&lit(0, 0, 0)));
    assert_eq!(frame.cell(0, 0), Some(BLANK));
}

#[test]
fn the_last_row_and_the_last_column_are_on_the_screen() {
    let mut frame = Frame::new(4, 3);
    assert!(frame.plot(&lit(2, 0, 1)));
    assert!(frame.plot(&lit(0, 3, 1)));
    assert!(frame.plot(&lit(2, 3, 1)));
    assert!(frame.plot(&lit(0, 0, 1)));
    assert_eq!(shown(&frame), ["*  *", "    ", "*  *"]);
}

#[test]
fn one_cell_beyond_the_screen_is_off_the_screen() {
    let mut frame = Frame::new(4, 3);
    for (row, col) in [(3, 0), (3, 3), (0, 4), (2, 4), (-1, 0), (0, -1), (-1, -1), (3, 4), (1, 4), (1, -1)] {
        assert!(!frame.plot(&lit(row, col, 1)));
    }
    for (row, col) in [(i64::MAX, 0), (0, i64::MAX), (i64::MIN, 0), (0, i64::MIN), (0, 65536), (65536, 0), (1 << 32, 1)] {
        assert!(!frame.plot(&lit(row, col, u64::MAX)));
    }
    assert_eq!(shown(&frame), ["    ", "    ", "    "]);
    for row in 0..3 {
        for col in 0..4 {
            assert_eq!(frame.cell(row, col), Some(BLANK));
        }
    }
}

#[test]
fn a_sample_changes_no_cell_but_its_own() {
    let mut frame = Frame::new(3, 3);
    for row in 0..3 {
        for col in 0..3 {
            frame.plot(&Sample { row, col, inverse_depth: 2, luminance: UNIT / 8 });
        }
    }
    assert!(frame.plot(&lit(1, 1, 3)));
    assert_eq!(shown(&frame), [",,,", ",*,", ",,,"]);
    for row in 0..3 {
        for col in 0..3 {
            let depth = if (row, col) == (1, 1) { 3 } else { 2 };
            assert_eq!(frame.cell(row, col).unwrap().inverse_depth, depth);
        }
    }
}

#[test]
fn a_wiped_frame_is_blank_and_takes_far_samples_again() {
    let mut frame = Frame::new(4, 3);
    frame.plot(&lit(1, 1, 100));
    frame.plot(&lit(2, 3, 100));
    frame.clear_state();
    assert_eq!(frame.width(), 4);
    assert_eq!(frame.height(), 3);
    for row in 0..3 {
        for col in 0..4 {
            assert_eq!(frame.cell(row, col), Some(BLANK));
        }
    }
    assert!(frame.plot(&lit(1, 1, 1)));
    assert_eq!(frame.cell(1, 1), Some(Cell { glyph: '*', inverse_depth: 1 }));
}

#[test]
fn the_frame_is_written_row_by_row_from_the_home_position() {
    let mut frame = Frame::new(3, 2);
    frame.plot(&Sample { row: 0, col: 1, inverse_depth: 1, luminance: UNIT / 2 });
    frame.plot(&Sample { row: 1, col: 2, inverse_depth: 1, luminance: UNIT + UNIT / 4 });
    assert_eq!(frame.encode(), b"\r\x1b[H\n : \n  $\n");
    frame.clear_state();
    assert_eq!(frame.encode(), b"\r\x1b[H\n   \n   \n");
}

#[test]
fn frames_without_cells_are_written_too() {
    assert_eq!(Frame::new(0, 0).encode(), b"\r\x1b[H\n");
    assert_eq!(Frame::new(3, 0).encode(), b"\r\x1b[H\n");
    assert_eq!(Frame::new(0, 2).encode(), b"\r\x1b[H\n\n\n");
    let mut frame = Frame::new(0, 2);
    assert!(!frame.plot(&lit(0, 0, 1)));
    assert_eq!(frame.cell(0, 0), None);
}

#[test]
fn every_glyph_is_written_as_itself() {
    let mut frame = Frame::new(12, 1);
    for col in 0..12 {
        assert!(frame.plot(&Sample { row: 0, col, inverse_depth: 1, luminance: col as i128 * (UNIT / 8) + 1 }));
    }
    assert_eq!(frame.encode(), b"\r\x1b[H\n.,-~:;=!*#$@\n");
}

#[test]
fn the_greatest_screen() {
    let mut frame = Frame::new(65535, 2);
    assert!(frame.plot(&lit(1, 65534, 1)));
    assert!(!frame.plot(&lit(1, 65535, 1)));
    assert_eq!(frame.cell(1, 65534), Some(Cell { glyph: '*', inverse_depth: 1 }));
    assert_eq!(frame.cell(0, 65534), Some(BLANK));
    let bytes = frame.encode();
    assert_eq!(bytes.len(), 5 + 2 * 65536);
    assert_eq!(bytes[5 + 65536 + 65534], b'*');
    assert_eq!(bytes[5 + 65535], b'\n');
}
