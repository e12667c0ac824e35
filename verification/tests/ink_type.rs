use armrest_editor::ink::{Ink, Point, Stroke};
use armrest_editor::extents::Extents;
use armrest_editor::ink_type::{is_erase, InkType};
use armrest_editor::tokenizer::{sorted_tokens, Token};
use std::collections::HashMap;
use armrest_editor::metrics::Metrics;

fn grid() -> Metrics {
    // Cells 20 pixels wide and 40 pixels high.
    Metrics::new(40, 20, 30)
}

/// A stroke as the input layer hands it in: its centre is measured as the
/// mean of its samples.
fn stroke(points: &[(i32, i32, i32)], length: u32) -> Stroke {
    let sum: i64 = points.iter().map(|p| p.0 as i64).sum();
    let centre = if points.is_empty() {
        0
    } else {
        sum.div_euclid(points.len() as i64) as i32
    };
    Stroke {
        points: points.iter().map(|&(x, y, t)| Point { x, y, t }).collect(),
        length,
        centre,
    }
}

fn ink(strokes: Vec<Stroke>) -> Ink {
    Ink { strokes }
}

fn xs(ink: &Ink) -> Vec<Vec<i32>> {
    ink.strokes
        .iter()
        .map(|s| s.points.iter().map(|p| p.x).collect())
        .collect()
}

#[test]
fn empty_ink_is_junk() {
    assert!(matches!(InkType::classify(&grid(), Ink::new()), InkType::Junk));
    let no_samples = ink(vec![stroke(&[], 10)]);
    assert!(matches!(InkType::classify(&grid(), no_samples), InkType::Junk));
}

#[test]
fn extents_are_the_box_around_the_samples() {
    let i = ink(vec![
        stroke(&[(5, 7, 0), (-3, 9, 1)], 8),
        stroke(&[], 0),
        stroke(&[(4, -2, 2)], 0),
    ]);
    assert_eq!(
        i.extents(),
        Some(Extents { x_min: -3, x_max: 5, y_min: -2, y_max: 9 })
    );
    assert_eq!(Ink::new().extents(), None);
    assert_eq!(i.len(), 3);
    assert_eq!(i.ink_len(), 8);
}

#[test]
fn long_flat_stroke_is_a_strikethrough() {
    let i = ink(vec![stroke(&[(20, 20, 0), (40, 21, 1), (60, 20, 2)], 41)]);
    match InkType::classify(&grid(), i) {
        InkType::Strikethrough { start, end } => assert_eq!((start, end), (1, 3)),
        other => panic!("{:?}", other),
    }
}

#[test]
fn strikethrough_ends_round_to_the_nearest_boundary() {
    // From 0.45 to 2.5 cells: 0.45 rounds down, 2.5 rounds up.
    let i = ink(vec![stroke(&[(9, 20, 0), (50, 20, 1)], 41)]);
    match InkType::classify(&grid(), i) {
        InkType::Strikethrough { start, end } => assert_eq!((start, end), (0, 3)),
        other => panic!("{:?}", other),
    }
    // A start left of the row counts as column 0.
    let i = ink(vec![stroke(&[(-30, 20, 0), (30, 20, 1)], 60)]);
    match InkType::classify(&grid(), i) {
        InkType::Strikethrough { start, end } => assert_eq!((start, end), (0, 2)),
        other => panic!("{:?}", other),
    }
}

#[test]
fn long_winding_stroke_is_junk() {
    // 40 pixels wide, 48 long: the ratio is exactly 1.2, which is not below it.
    let i = ink(vec![stroke(&[(20, 20, 0), (60, 20, 1)], 48)]);
    assert!(matches!(InkType::classify(&grid(), i), InkType::Junk));
    // One pixel shorter is a strikethrough.
    let i = ink(vec![stroke(&[(20, 20, 0), (60, 20, 1)], 47)]);
    assert!(matches!(
        InkType::classify(&grid(), i),
        InkType::Strikethrough { start: 1, end: 3 }
    ));
}

#[test]
fn exactly_one_and_a_half_cells_is_no_strikethrough() {
    // 30 pixels wide is not more than 1.5 cells.
    let i = ink(vec![stroke(&[(20, 20, 0), (50, 20, 1)], 30)]);
    assert!(!matches!(
        InkType::classify(&grid(), i),
        InkType::Strikethrough { .. }
    ));
}

#[test]
fn upright_line_on_a_boundary_is_a_carat() {
    let i = ink(vec![stroke(&[(61, 2, 0), (59, 20, 1), (60, 38, 2)], 36)]);
    match InkType::classify(&grid(), i) {
        InkType::Carat { col, ink } => {
            assert_eq!(col, 3);
            assert_eq!(xs(&ink), vec![vec![1, -1, 0]]);
            assert_eq!(ink.strokes[0].points[2].y, 38);
            assert_eq!(ink.strokes[0].points[2].t, 2);
            assert_eq!(ink.strokes[0].length, 36);
        }
        other => panic!("{:?}", other),
    }
}

#[test]
fn carat_just_left_of_the_row_is_at_column_zero() {
    let i = ink(vec![stroke(&[(-3, 2, 0), (-1, 38, 1)], 36)]);
    match InkType::classify(&grid(), i) {
        InkType::Carat { col, ink } => {
            assert_eq!(col, 0);
            assert_eq!(xs(&ink), vec![vec![-3, -1]]);
        }
        other => panic!("{:?}", other),
    }
}

#[test]
fn upright_line_in_mid_cell_is_no_carat() {
    // Centre at 2.5 cells: half a cell from the nearest boundary.
    let i = ink(vec![stroke(&[(50, 2, 0), (50, 38, 1)], 36)]);
    assert!(!matches!(InkType::classify(&grid(), i), InkType::Carat { .. }));
    // Too short: less than nine tenths of the height of a cell.
    let i = ink(vec![stroke(&[(60, 2, 0), (60, 37, 1)], 35)]);
    assert!(!matches!(InkType::classify(&grid(), i), InkType::Carat { .. }));
    // Too wide: three tenths of the width of a cell.
    let i = ink(vec![stroke(&[(57, 2, 0), (63, 38, 1)], 36)]);
    assert!(!matches!(InkType::classify(&grid(), i), InkType::Carat { .. }));
}

#[test]
fn carat_is_nine_tenths_of_a_cell_high() {
    let i = ink(vec![stroke(&[(60, 0, 0), (60, 36, 1)], 36)]);
    assert!(matches!(InkType::classify(&grid(), i), InkType::Carat { col: 3, .. }));
    let i = ink(vec![stroke(&[(60, 4, 0), (60, 40, 1)], 36)]);
    assert!(matches!(InkType::classify(&grid(), i), InkType::Carat { col: 3, .. }));
    // Up to three tenths of a cell off the boundary, on either side.
    let i = ink(vec![stroke(&[(65, 0, 0), (65, 36, 1)], 36)]);
    assert!(matches!(InkType::classify(&grid(), i), InkType::Carat { col: 3, .. }));
    let i = ink(vec![stroke(&[(55, 0, 0), (55, 36, 1)], 36)]);
    assert!(matches!(InkType::classify(&grid(), i), InkType::Carat { col: 3, .. }));
    let i = ink(vec![stroke(&[(66, 0, 0), (66, 36, 1)], 36)]);
    assert!(!matches!(InkType::classify(&grid(), i), InkType::Carat { .. }));
    let i = ink(vec![stroke(&[(54, 0, 0), (54, 36, 1)], 36)]);
    assert!(!matches!(InkType::classify(&grid(), i), InkType::Carat { .. }));
}

#[test]
fn ink_left_of_the_row_is_junk() {
    let i = ink(vec![stroke(&[(-30, 10, 0), (-20, 20, 1)], 14)]);
    assert!(matches!(InkType::classify(&grid(), i), InkType::Junk));
}

#[test]
fn dense_ink_is_a_scratch() {
    // A box of 10 by 10 pixels counts as 500 square pixels: 100 pixels of ink
    // are exactly a fifth of that.
    let i = ink(vec![stroke(&[(45, 10, 0), (55, 20, 1)], 100)]);
    match InkType::classify(&grid(), i) {
        InkType::Scratch { col } => assert_eq!(col, 2),
        other => panic!("{:?}", other),
    }
    let i = ink(vec![stroke(&[(45, 10, 0), (55, 20, 1)], 99)]);
    assert!(matches!(InkType::classify(&grid(), i), InkType::Glyphs { .. }));
}

#[test]
fn dense_ink_over_a_large_box() {
    // 30 by 30 pixels: 900 square pixels, so 180 pixels of ink are needed.
    let i = ink(vec![
        stroke(&[(20, 5, 0), (50, 35, 1)], 90),
        stroke(&[(50, 5, 2), (20, 35, 3)], 90),
    ]);
    match InkType::classify(&grid(), i) {
        InkType::Scratch { col } => assert_eq!(col, 1),
        other => panic!("{:?}", other),
    }
    let i = ink(vec![
        stroke(&[(20, 5, 0), (50, 35, 1)], 90),
        stroke(&[(50, 5, 2), (20, 35, 3)], 89),
    ]);
    assert!(matches!(InkType::classify(&grid(), i), InkType::Glyphs { .. }));
}

#[test]
fn glyphs_are_dealt_out_by_column() {
    let i = ink(vec![
        stroke(&[(5, 10, 0), (15, 30, 1)], 20),
        stroke(&[(28, 10, 2), (32, 30, 3)], 20),
        stroke(&[(8, 12, 4), (12, 14, 5)], 5),
    ]);
    match InkType::classify(&grid(), i) {
        InkType::Glyphs { tokens } => {
            let mut cols: Vec<usize> = tokens.keys().copied().collect();
            cols.sort();
            assert_eq!(cols, vec![0, 1]);
            assert_eq!(xs(&tokens[&1]), vec![vec![8, 12]]);
            let tokens = sorted_tokens(tokens);
            assert_eq!(tokens.len(), 2);
            assert_eq!(tokens[0].col, 0);
            assert_eq!(xs(&tokens[0].ink), vec![vec![5, 15], vec![8, 12]]);
            assert_eq!(tokens[1].col, 1);
            assert_eq!(xs(&tokens[1].ink), vec![vec![8, 12]]);
            assert_eq!(tokens[1].ink.strokes[0].length, 20);
        }
        other => panic!("{:?}", other),
    }
}

#[test]
fn tokens_come_in_column_order() {
    let i = ink(vec![
        stroke(&[(90, 10, 0)], 0),
        stroke(&[(10, 10, 1)], 0),
        stroke(&[(50, 10, 2)], 0),
    ]);
    let tokens = sorted_tokens(InkType::tokenize(&grid(), &i));
    let cols: Vec<usize> = tokens.iter().map(|t| t.col).collect();
    assert_eq!(cols, vec![0, 2, 4]);
    assert_eq!(xs(&tokens[2].ink), vec![vec![10]]);
}

#[test]
fn settled_stroke_goes_to_the_column_of_its_centre() {
    // Centre at 25 pixels: a quarter of a cell behind the boundary at 20.
    let i = ink(vec![stroke(&[(24, 10, 0), (26, 10, 1)], 2)]);
    let tokens = sorted_tokens(InkType::tokenize(&grid(), &i));
    assert_eq!(tokens.len(), 1);
    assert_eq!(tokens[0].col, 1);
    // Centre at 35 pixels: a quarter of a cell in front of the boundary at 40.
    let i = ink(vec![stroke(&[(35, 10, 0)], 0)]);
    let tokens = sorted_tokens(InkType::tokenize(&grid(), &i));
    assert_eq!(tokens[0].col, 1);
}

#[test]
fn stroke_on_a_boundary_goes_by_time() {
    // Settled strokes in columns 0 and 1, written at times 0..10 and 50..60.
    // The stroke on the boundary at 20 pixels was written at 12..14: close
    // behind the left one.
    let i = ink(vec![
        stroke(&[(10, 10, 0), (10, 20, 10)], 10),
        stroke(&[(30, 10, 50), (30, 20, 60)], 10),
        stroke(&[(21, 10, 12), (21, 12, 14)], 2),
    ]);
    let tokens = sorted_tokens(InkType::tokenize(&grid(), &i));
    assert_eq!(tokens.len(), 2);
    assert_eq!(xs(&tokens[0].ink), vec![vec![10, 10], vec![21, 21]]);
    assert_eq!(xs(&tokens[1].ink), vec![vec![10, 10]]);
    // Written at 46..48 it is close in front of the right one.
    let i = ink(vec![
        stroke(&[(10, 10, 0), (10, 20, 10)], 10),
        stroke(&[(30, 10, 50), (30, 20, 60)], 10),
        stroke(&[(19, 10, 46), (19, 12, 48)], 2),
    ]);
    let tokens = sorted_tokens(InkType::tokenize(&grid(), &i));
    assert_eq!(xs(&tokens[0].ink), vec![vec![10, 10]]);
    assert_eq!(xs(&tokens[1].ink), vec![vec![10, 10], vec![-1, -1]]);
}

#[test]
fn equal_gaps_go_to_the_right() {
    let i = ink(vec![
        stroke(&[(10, 10, 0), (10, 20, 10)], 10),
        stroke(&[(30, 10, 50), (30, 20, 60)], 10),
        stroke(&[(20, 10, 29), (20, 12, 31)], 2),
    ]);
    let tokens = sorted_tokens(InkType::tokenize(&grid(), &i));
    assert_eq!(tokens[0].ink.strokes.len(), 1);
    assert_eq!(tokens[1].ink.strokes.len(), 2);
}

#[test]
fn stroke_on_a_boundary_with_one_neighbour() {
    // Only column 1 has a settled stroke: the stroke on the boundary at 40
    // joins it.
    let i = ink(vec![
        stroke(&[(30, 10, 0)], 0),
        stroke(&[(41, 10, 5)], 0),
    ]);
    let tokens = sorted_tokens(InkType::tokenize(&grid(), &i));
    assert_eq!(tokens.len(), 1);
    assert_eq!(tokens[0].col, 1);
    // Only column 2 has one: the stroke on the boundary at 40 joins that.
    let i = ink(vec![
        stroke(&[(50, 10, 0)], 0),
        stroke(&[(39, 10, 5)], 0),
    ]);
    let tokens = sorted_tokens(InkType::tokenize(&grid(), &i));
    assert_eq!(tokens.len(), 1);
    assert_eq!(tokens[0].col, 2);
}

#[test]
fn stroke_on_a_boundary_without_neighbours_goes_right() {
    // Nothing settled on either side of the boundary at 40 pixels: the
    // stroke belongs to the column right of it, from whichever side it
    // leans on the boundary.
    let i = ink(vec![stroke(&[(41, 10, 5)], 0)]);
    let tokens = sorted_tokens(InkType::tokenize(&grid(), &i));
    assert_eq!(tokens[0].col, 2);
    assert_eq!(xs(&tokens[0].ink), vec![vec![1]]);
    let i = ink(vec![stroke(&[(39, 10, 5)], 0)]);
    let tokens = sorted_tokens(InkType::tokenize(&grid(), &i));
    assert_eq!(tokens[0].col, 2);
    assert_eq!(xs(&tokens[0].ink), vec![vec![-1]]);
}

#[test]
fn stroke_at_the_left_edge_goes_to_column_zero() {
    let i = ink(vec![
        stroke(&[(2, 10, 5)], 0),
        stroke(&[(-40, 10, 6)], 0),
        stroke(&[], 0),
    ]);
    let tokens = sorted_tokens(InkType::tokenize(&grid(), &i));
    assert_eq!(tokens.len(), 1);
    assert_eq!(tokens[0].col, 0);
    assert_eq!(tokens[0].ink.strokes.len(), 3);
}

#[test]
fn classify_is_a_function_of_its_input() {
    let make = || {
        ink(vec![
            stroke(&[(5, 10, 0), (15, 30, 1)], 20),
            stroke(&[(21, 10, 2), (21, 30, 3)], 20),
        ])
    };
    let a = InkType::classify(&grid(), make());
    let b = InkType::classify(&grid(), make());
    assert_eq!(format!("{:?}", a), format!("{:?}", b));
}

#[test]
fn stroke_measures() {
    let s = Stroke {
        points: vec![Point { x: 10, y: 0, t: 7 }, Point { x: 21, y: 0, t: 3 }, Point { x: 30, y: 0, t: 9 }],
        length: 0,
        centre: 23,
    };
    assert_eq!(s.centre(), 23);
    assert_eq!(s.t_range(), (3, 9));
    let left = Stroke { points: vec![], length: 0, centre: -4 };
    assert_eq!(left.centre(), 0);
    assert_eq!(left.t_range(), (0, 0));
}

#[test]
fn the_centre_places_the_stroke_not_its_samples() {
    // The samples lie in column 0, the centre that was measured in column 3.
    let s = Stroke { points: vec![Point { x: 5, y: 0, t: 0 }], length: 0, centre: 70 };
    let tokens = sorted_tokens(InkType::tokenize(&grid(), &ink(vec![s])));
    assert_eq!(tokens.len(), 1);
    assert_eq!(tokens[0].col, 3);
    assert_eq!(xs(&tokens[0].ink), vec![vec![-55]]);
    assert_eq!(tokens[0].ink.strokes[0].centre, 10);
}

#[test]
fn translate_moves_left_and_stops_at_the_edge() {
    let s = stroke(&[(10, 1, 2), (i32::MIN + 1, 3, 4)], 9);
    let moved = s.translate(5);
    assert_eq!(moved.points[0], Point { x: 5, y: 1, t: 2 });
    assert_eq!(moved.points[1], Point { x: i32::MIN, y: 3, t: 4 });
    assert_eq!(moved.length, 9);
    assert_eq!(moved.centre, s.centre - 5);
    let back = s.translate(-7);
    assert_eq!(back.points[0].x, 17);
    assert_eq!(back.centre, s.centre + 7);
    let edge = Stroke { points: vec![], length: 0, centre: i32::MAX - 1 };
    assert_eq!(edge.translate(-5).centre, i32::MAX);
}

#[test]
fn metrics_count_the_cells_on_the_screen() {
    let m = Metrics::new(40, 20, 30);
    assert_eq!(m.height(), 40);
    assert_eq!(m.width(), 20);
    assert_eq!(m.baseline(), 31);
    assert_eq!(m.rows(), 41);
    assert_eq!(m.cols(), 60);
}

#[test]
fn erase_goes_by_density() {
    assert!(is_erase(&ink(vec![stroke(&[(45, 10, 0), (55, 20, 1)], 100)])));
    assert!(!is_erase(&ink(vec![stroke(&[(45, 10, 0), (55, 20, 1)], 99)])));
    assert!(is_erase(&ink(vec![stroke(&[(0, 0, 0), (100, 100, 1)], 2000)])));
    assert!(!is_erase(&ink(vec![stroke(&[(0, 0, 0), (100, 100, 1)], 1999)])));
    assert!(!is_erase(&Ink::new()));
    assert!(!is_erase(&ink(vec![stroke(&[], 5000)])));
}

#[test]
fn sorted_tokens_come_by_column() {
    let map: HashMap<usize, Ink> = HashMap::from([
        (7, ink(vec![stroke(&[(7, 0, 0)], 0)])),
        (0, ink(vec![stroke(&[(0, 0, 0)], 0)])),
        (usize::MAX, ink(vec![stroke(&[(9, 0, 0)], 0)])),
        (3, ink(vec![stroke(&[(3, 0, 0)], 0), stroke(&[(4, 0, 0)], 0)])),
    ]);
    let tokens: Vec<Token> = sorted_tokens(map);
    let cols: Vec<usize> = tokens.iter().map(|t| t.col).collect();
    assert_eq!(cols, vec![0, 3, 7, usize::MAX]);
    assert_eq!(xs(&tokens[1].ink), vec![vec![3], vec![4]]);
    assert_eq!(xs(&tokens[3].ink), vec![vec![9]]);
    assert!(sorted_tokens(HashMap::new()).is_empty());
}

#[test]
fn right_margin_is_what_the_columns_leave() {
    assert_eq!(Metrics::new(40, 20, 30).right_margin(), 1404 - 100 - 60 * 20);
    assert_eq!(Metrics::new(40, 23, 30).right_margin(), 1404 - 100 - 52 * 23);
    assert_eq!(Metrics::new(40, 5000, 30).right_margin(), 1304);
}
