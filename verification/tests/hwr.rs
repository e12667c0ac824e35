use armrest_editor::hwr::{
    select_gestures, CharRecognizer, CharTemplates, Forms, Points, Template,
};
use armrest_editor::ink::{Ink, Point, Stroke};
use armrest_editor::history::Recognition;
use armrest_editor::ink_type::InkType;
use armrest_editor::metrics::Metrics;
use armrest_editor::text_buffer::TextBuffer;
use armrest_editor::text_stuff::TextStuff;
use armrest_editor::text_window::TextWindow;
use std::collections::HashMap;

fn shape(points: &[(i32, i32)]) -> Points {
    Points { points: points.to_vec() }
}

fn dot(x: i32) -> Ink {
    Ink {
        strokes: vec![Stroke { points: vec![Point { x, y: 0, t: 0 }], length: 0, centre: x }],
    }
}

fn first_xs(ink: &Ink) -> Vec<i32> {
    ink.strokes.iter().map(|s| s.points[0].x).collect()
}

fn entry(ch: char, inks: Vec<Ink>) -> CharTemplates {
    CharTemplates {
        ch,
        templates: inks.into_iter().map(Template::from_ink).collect(),
    }
}

#[test]
fn distance_adds_up_the_gaps() {
    let a = shape(&[(0, 0), (10, 10), (-5, 3)]);
    let b = shape(&[(1, -2), (10, 10), (5, 0)]);
    assert_eq!(a.distance(&b), Some(3 + 0 + 13));
    assert_eq!(b.distance(&a), Some(16));
    assert_eq!(a.distance(&a), Some(0));
    assert_eq!(a.distance(&shape(&[(0, 0)])), None);
    let far = shape(&[(i32::MIN, i32::MIN)]);
    let away = shape(&[(i32::MAX, i32::MAX)]);
    assert_eq!(far.distance(&away), Some(2 * (u32::MAX as u128)));
}

#[test]
fn best_match_names_the_nearest_shape() {
    let r = CharRecognizer::new(vec![
        (shape(&[(0, 0), (10, 0)]), 'a'),
        (shape(&[(0, 0), (0, 10)]), 'b'),
        (shape(&[(5, 5), (5, 5)]), 'c'),
    ]);
    assert_eq!(r.best_match(&shape(&[(0, 0), (9, 1)]), u128::MAX), Some('a'));
    assert_eq!(r.best_match(&shape(&[(1, 0), (0, 8)]), u128::MAX), Some('b'));
    assert_eq!(r.best_match(&shape(&[(4, 4), (6, 6)]), u128::MAX), Some('c'));
}

#[test]
fn best_match_keeps_to_the_threshold() {
    let r = CharRecognizer::new(vec![(shape(&[(0, 0)]), 'a')]);
    assert_eq!(r.best_match(&shape(&[(3, 4)]), 7), Some('a'));
    assert_eq!(r.best_match(&shape(&[(3, 4)]), 6), None);
    assert_eq!(r.best_match(&shape(&[(0, 0)]), 0), Some('a'));
}

#[test]
fn best_match_without_a_candidate() {
    let empty = CharRecognizer::new(vec![]);
    assert_eq!(empty.best_match(&shape(&[(0, 0)]), u128::MAX), None);
    let r = CharRecognizer::new(vec![(shape(&[(0, 0), (1, 1)]), 'a')]);
    assert_eq!(r.best_match(&shape(&[(0, 0)]), u128::MAX), None);
}

#[test]
fn best_match_takes_the_first_of_equals() {
    let r = CharRecognizer::new(vec![
        (shape(&[(0, 9)]), 'z'),
        (shape(&[(2, 0)]), 'a'),
        (shape(&[(0, 2)]), 'b'),
    ]);
    assert_eq!(r.best_match(&shape(&[(0, 0)]), u128::MAX), Some('a'));
}

#[test]
fn only_command_shapes_make_the_command_matcher() {
    let picked = select_gestures(vec![
        (shape(&[(1, 1)]), 'a'),
        (shape(&[(2, 2)]), 'X'),
        (shape(&[(3, 3)]), 'x'),
        (shape(&[(4, 4)]), 'S'),
        (shape(&[(5, 5)]), 'C'),
        (shape(&[(6, 6)]), 'V'),
        (shape(&[(7, 7)]), 'X'),
    ]);
    let labels: Vec<char> = picked.iter().map(|p| p.1).collect();
    assert_eq!(labels, vec!['X', 'S', 'C', 'V', 'X']);
    assert_eq!(picked[4].0.points, vec![(7, 7)]);
}

#[test]
fn init_recognizer_builds_both_matchers_from_the_store() {
    let mut stuff = TextStuff::new();
    stuff.templates = vec![
        entry('a', vec![dot(0), dot(0)]),
        entry('X', vec![dot(0)]),
        entry('b', vec![]),
    ];
    let form = |cell: i32, free: i32| Forms { cell: shape(&[(cell, 0)]), free: shape(&[(free, 0)]) };
    let ok = stuff.init_recognizer(vec![
        vec![form(0, 100), form(10, 110)],
        vec![form(20, 120)],
        vec![],
    ]);
    assert!(ok);
    let labels: Vec<char> = stuff.char_recognizer.templates.iter().map(|t| t.1).collect();
    assert_eq!(labels, vec!['a', 'a', 'X']);
    assert_eq!(stuff.char_recognizer.templates[1].0.points, vec![(10, 0)]);
    assert_eq!(stuff.char_recognizer.best_match(&shape(&[(9, 0)]), u128::MAX), Some('a'));
    assert_eq!(stuff.char_recognizer.best_match(&shape(&[(19, 0)]), u128::MAX), Some('X'));
    let labels: Vec<char> = stuff.big_recognizer.templates.iter().map(|t| t.1).collect();
    assert_eq!(labels, vec!['X']);
    assert_eq!(stuff.big_recognizer.templates[0].0.points, vec![(120, 0)]);
    assert_eq!(stuff.big_recognizer.best_match(&shape(&[(0, 0)]), u128::MAX), Some('X'));
}

#[test]
fn init_recognizer_wants_forms_that_fit_the_store() {
    let mut stuff = TextStuff::new();
    stuff.templates = vec![entry('a', vec![dot(0)])];
    let form = || Forms { cell: shape(&[(0, 0)]), free: shape(&[(0, 0)]) };
    assert!(!stuff.fits(&vec![]));
    assert!(!stuff.fits(&vec![vec![]]));
    assert!(!stuff.fits(&vec![vec![form()], vec![]]));
    assert!(stuff.fits(&vec![vec![form()]]));
    assert!(!stuff.init_recognizer(vec![vec![form(), form()]]));
    assert_eq!(stuff.char_recognizer.templates.len(), 0);
    assert!(stuff.init_recognizer(vec![vec![form()]]));
    assert_eq!(stuff.char_recognizer.templates.len(), 1);
    assert_eq!(stuff.big_recognizer.templates.len(), 0);
    assert!(TextStuff::new().init_recognizer(vec![]));
}

#[test]
fn learn_adds_a_template_for_an_overwritten_record() {
    let mut stuff = TextStuff::new();
    stuff.templates = vec![entry('a', vec![]), entry('b', vec![dot(1)]), entry('b', vec![])];
    assert!(stuff.learn(Recognition { coord: (0, 0), ink: dot(7), best_char: 'b', overwrites: 2 }));
    assert_eq!(stuff.templates[0].templates.len(), 0);
    assert_eq!(stuff.templates[1].templates.len(), 2);
    assert_eq!(first_xs(&stuff.templates[1].templates[1].ink), vec![7]);
    assert_eq!(stuff.templates[2].templates.len(), 0);
}

#[test]
fn learn_ignores_a_record_that_was_never_overwritten() {
    let mut stuff = TextStuff::new();
    stuff.templates = vec![entry('a', vec![])];
    assert!(!stuff.learn(Recognition { coord: (0, 0), ink: dot(7), best_char: 'a', overwrites: 0 }));
    assert_eq!(stuff.templates[0].templates.len(), 0);
}

#[test]
fn learn_ignores_a_character_without_an_entry() {
    let mut stuff = TextStuff::new();
    stuff.templates = vec![entry('a', vec![])];
    assert!(!stuff.learn(Recognition { coord: (0, 0), ink: dot(7), best_char: 'q', overwrites: 3 }));
    assert_eq!(stuff.templates.len(), 1);
    assert_eq!(stuff.templates[0].templates.len(), 0);
}

#[test]
fn erase_range_empties_examples_in_place() {
    let mut e = entry('a', vec![dot(1), dot(2), dot(3), dot(4)]);
    e.erase_range(1, 3);
    let counts: Vec<usize> = e.templates.iter().map(|t| t.ink.strokes.len()).collect();
    assert_eq!(counts, vec![1, 0, 0, 1]);
    e.erase_range(3, 100);
    e.erase_range(2, 1);
    let counts: Vec<usize> = e.templates.iter().map(|t| t.ink.strokes.len()).collect();
    assert_eq!(counts, vec![1, 0, 0, 0]);
    e.erase(0);
    e.erase(17);
    assert_eq!(e.templates.len(), 4);
    assert_eq!(e.templates[0].ink.strokes.len(), 0);
}

#[test]
fn add_ink_extends_an_example_or_the_row() {
    let mut e = entry('a', vec![dot(1)]);
    e.add_ink(0, dot(2));
    assert_eq!(first_xs(&e.templates[0].ink), vec![1, 2]);
    e.add_ink(3, dot(9));
    assert_eq!(e.templates.len(), 4);
    assert_eq!(e.templates[1].ink.strokes.len(), 0);
    assert_eq!(e.templates[2].ink.strokes.len(), 0);
    assert_eq!(first_xs(&e.templates[3].ink), vec![9]);
}

#[test]
fn edit_templates_follows_the_ink() {
    let mut stuff = TextStuff::new();
    stuff.templates = vec![entry('a', vec![dot(1), dot(2), dot(3)]), entry('b', vec![dot(4)])];
    stuff.edit_templates(0, InkType::Strikethrough { start: 0, end: 2 });
    let counts: Vec<usize> = stuff.templates[0].templates.iter().map(|t| t.ink.strokes.len()).collect();
    assert_eq!(counts, vec![0, 0, 1]);
    stuff.edit_templates(1, InkType::Scratch { col: 0 });
    assert_eq!(stuff.templates[1].templates[0].ink.strokes.len(), 0);
    stuff.edit_templates(
        1,
        InkType::Glyphs {
            tokens: HashMap::from([(2, dot(6)), (0, dot(5))]),
        },
    );
    assert_eq!(stuff.templates[1].templates.len(), 3);
    assert_eq!(first_xs(&stuff.templates[1].templates[0].ink), vec![5]);
    assert_eq!(stuff.templates[1].templates[1].ink.strokes.len(), 0);
    assert_eq!(first_xs(&stuff.templates[1].templates[2].ink), vec![6]);
    stuff.edit_templates(0, InkType::Junk);
    stuff.edit_templates(0, InkType::Carat { col: 0, ink: dot(1) });
    stuff.edit_templates(9, InkType::Scratch { col: 0 });
    assert_eq!(stuff.templates.len(), 2);
    assert_eq!(stuff.templates[0].templates.len(), 3);
}

#[test]
fn recording_learns_from_what_leaves_the_history() {
    let mut window = TextWindow::new(TextBuffer::empty(), Metrics::new(40, 20, 30), (4, 4));
    let mut stuff = TextStuff::new();
    stuff.templates = vec![entry('a', vec![]), entry('b', vec![])];
    stuff.record_recognition(&mut window, (0, 0), dot(1), 'a');
    stuff.record_recognition(&mut window, (0, 0), dot(2), 'b');
    for col in 1..15 {
        stuff.record_recognition(&mut window, (0, col), dot(3), 'a');
    }
    assert_eq!(window.recognition_count(), 16);
    assert_eq!(stuff.templates[1].templates.len(), 0);
    assert!(stuff.record_recognition(&mut window, (0, 15), dot(3), 'a'));
    assert_eq!(window.recognition_count(), 16);
    assert_eq!(stuff.templates[0].templates.len(), 0);
    assert_eq!(stuff.templates[1].templates.len(), 1);
    assert_eq!(first_xs(&stuff.templates[1].templates[0].ink), vec![1]);
    assert!(!stuff.record_recognition(&mut window, (0, 16), dot(3), 'a'));
    assert_eq!(stuff.templates[0].templates.len(), 0);
    assert_eq!(stuff.templates[1].templates.len(), 1);
}

#[test]
fn clones_hold_the_same() {
    let ink = Ink {
        strokes: vec![
            Stroke {
                points: vec![Point { x: 1, y: 2, t: 3 }, Point { x: 4, y: 5, t: 6 }],
                length: 7,
                centre: 2,
            },
            Stroke { points: vec![], length: 0, centre: 0 },
        ],
    };
    let copy = ink.clone();
    assert_eq!(copy.strokes.len(), 2);
    assert_eq!(copy.strokes[0].points, ink.strokes[0].points);
    assert_eq!(copy.strokes[0].length, 7);
    assert_eq!(copy.strokes[0].centre, 2);
    let s = shape(&[(1, 2), (3, 4)]);
    assert_eq!(s.clone().points, vec![(1, 2), (3, 4)]);
    let t = Template::from_ink(dot(9)).clone();
    assert_eq!(first_xs(&t.ink), vec![9]);
}
