use armrest_editor::coord::{add_coord, diff_coord, le_coord, lt_coord};
use armrest_editor::text_buffer::{Replace, TextBuffer};

#[test]
fn from_string_and_back() {
    let buffer = TextBuffer::from_string("hello\nworld");
    assert_eq!(buffer.line_count(), 2);
    assert_eq!(buffer.get((1, 0)), Some('w'));
    assert_eq!(buffer.get((1, 5)), None);
    assert_eq!(buffer.get((2, 0)), None);
    assert_eq!(buffer.content_string(), "hello\nworld");
}

#[test]
fn empty_string_is_one_empty_line() {
    let buffer = TextBuffer::from_string("");
    assert_eq!(buffer.line_count(), 1);
    assert_eq!(buffer.line_len(0), Some(0));
    assert_eq!(buffer.line_len(1), None);
    assert_eq!(buffer.end(), (0, 0));
    assert_eq!(buffer.content_string(), "");
    assert_eq!(TextBuffer::empty().content_string(), "");
}

#[test]
fn trailing_line_feed_opens_a_line() {
    let buffer = TextBuffer::from_string("a\n");
    assert_eq!(buffer.line_count(), 2);
    assert_eq!(buffer.end(), (1, 0));
    assert_eq!(buffer.content_string(), "a\n");
}

#[test]
fn out_of_range_reads_are_absent() {
    let buffer = TextBuffer::from_string("ab\nc");
    assert_eq!(buffer.get((0, 1)), Some('b'));
    assert_eq!(buffer.get((0, 2)), None);
    assert_eq!(buffer.get((0, 100)), None);
    assert_eq!(buffer.get((7, 0)), None);
    assert_eq!(buffer.get((usize::MAX, usize::MAX)), None);
}

#[test]
fn clamp_holds_coordinates_to_the_text() {
    let buffer = TextBuffer::from_string("ab\ncde");
    assert_eq!(buffer.clamp((0, 1)), (0, 1));
    assert_eq!(buffer.clamp((0, 9)), (0, 2));
    assert_eq!(buffer.clamp((5, 0)), (1, 3));
}

#[test]
fn write_sets_a_cell() {
    let mut buffer = TextBuffer::from_string("hello");
    buffer.write((0, 1), 'a');
    assert_eq!(buffer.content_string(), "hallo");
    buffer.write((0, 5), '!');
    assert_eq!(buffer.content_string(), "hallo!");
}

#[test]
fn write_pads_with_lines_and_spaces() {
    let mut buffer = TextBuffer::from_string("ab");
    buffer.write((2, 3), 'x');
    assert_eq!(buffer.content_string(), "ab\n\n   x");
    buffer.write((0, 4), 'y');
    assert_eq!(buffer.content_string(), "ab  y\n\n   x");
}

#[test]
fn pad_widens_only_where_needed() {
    let mut buffer = TextBuffer::from_string("abc\nd");
    buffer.pad(0, 2);
    assert_eq!(buffer.content_string(), "abc\nd");
    buffer.pad(1, 3);
    assert_eq!(buffer.content_string(), "abc\nd  ");
    buffer.pad(3, 0);
    assert_eq!(buffer.content_string(), "abc\nd  \n\n");
}

#[test]
fn padding_has_the_given_shape() {
    assert_eq!(TextBuffer::padding((0, 3)).content_string(), "   ");
    assert_eq!(TextBuffer::padding((2, 1)).content_string(), "\n\n ");
    assert_eq!(TextBuffer::padding((0, 0)).content_string(), "");
    assert_eq!(TextBuffer::padding((2, 1)).end(), (2, 1));
}

#[test]
fn copy_takes_a_range_in_row_major_order() {
    let buffer = TextBuffer::from_string("hello\nbig\nworld");
    assert_eq!(buffer.copy((0, 1), (0, 3)).content_string(), "el");
    assert_eq!(buffer.copy((0, 3), (2, 2)).content_string(), "lo\nbig\nwo");
    assert_eq!(buffer.copy((0, 5), (1, 0)).content_string(), "\n");
    assert_eq!(buffer.copy((1, 1), (1, 1)).content_string(), "");
    assert_eq!(buffer.copy((2, 2), (0, 0)).content_string(), "");
    assert_eq!(buffer.copy((0, 0), (9, 9)).content_string(), "hello\nbig\nworld");
}

#[test]
fn remove_joins_what_is_left() {
    let mut buffer = TextBuffer::from_string("hello\nbig\nworld");
    buffer.remove((0, 3), (2, 2));
    assert_eq!(buffer.content_string(), "helrld");
    buffer.remove((0, 4), (0, 2));
    assert_eq!(buffer.content_string(), "helrld");
    buffer.remove((0, 4), (0, 99));
    assert_eq!(buffer.content_string(), "helr");
}

#[test]
fn splice_inserts_lines() {
    let mut buffer = TextBuffer::from_string("abef");
    buffer.splice((0, 2), TextBuffer::from_string("cd"));
    assert_eq!(buffer.content_string(), "abcdef");
    buffer.splice((0, 3), TextBuffer::from_string("1\n2"));
    assert_eq!(buffer.content_string(), "abc1\n2def");
    buffer.splice((2, 1), TextBuffer::from_string("z"));
    assert_eq!(buffer.content_string(), "abc1\n2def\n z");
}

#[test]
fn append_runs_the_last_line_on() {
    let mut buffer = TextBuffer::from_string("ab\ncd");
    buffer.append(TextBuffer::from_string("ef\ngh"));
    assert_eq!(buffer.content_string(), "ab\ncdef\ngh");
}

#[test]
fn split_off_cuts_in_two() {
    let mut buffer = TextBuffer::from_string("ab\ncd");
    let tail = buffer.split_off((0, 1));
    assert_eq!(buffer.content_string(), "a");
    assert_eq!(tail.content_string(), "b\ncd");
}

#[test]
fn replace_returns_its_inverse() {
    let mut buffer = TextBuffer::from_string("hello");
    let undo = buffer.replace(Replace::remove((0, 1), (0, 3)));
    assert_eq!(buffer.content_string(), "hlo");
    assert_eq!(undo.from, (0, 1));
    assert_eq!(undo.until, (0, 1));
    assert_eq!(undo.content.content_string(), "el");
    let redo = buffer.replace(undo);
    assert_eq!(buffer.content_string(), "hello");
    assert_eq!(redo.from, (0, 1));
    assert_eq!(redo.until, (0, 3));
    assert_eq!(redo.content.content_string(), "");
}

#[test]
fn replace_round_trip_over_lines() {
    let before = "one\ntwo\nthree\nfour";
    let mut buffer = TextBuffer::from_string(before);
    let edit = Replace {
        from: (0, 2),
        until: (2, 3),
        content: TextBuffer::from_string("X\nY\nZ\nW"),
    };
    let undo = buffer.replace(edit);
    assert_eq!(buffer.content_string(), "onX\nY\nZ\nWee\nfour");
    assert_eq!(undo.from, (0, 2));
    assert_eq!(undo.until, (3, 1));
    assert_eq!(undo.content.content_string(), "e\ntwo\nthr");
    let redo = buffer.replace(undo);
    assert_eq!(buffer.content_string(), before);
    assert_eq!(redo.from, (0, 2));
    assert_eq!(redo.until, (2, 3));
    assert_eq!(redo.content.content_string(), "X\nY\nZ\nW");
}

#[test]
fn replace_write_is_a_single_cell() {
    let edit = Replace::write((3, 4), 'q');
    assert_eq!(edit.from, (3, 4));
    assert_eq!(edit.until, (3, 5));
    assert_eq!(edit.content.content_string(), "q");
    let mut buffer = TextBuffer::from_string("abc");
    let undo = buffer.replace(Replace::write((0, 1), 'X'));
    assert_eq!(buffer.content_string(), "aXc");
    assert_eq!(undo.content.content_string(), "b");
    assert_eq!(undo.until, (0, 2));
}

#[test]
fn replace_splice_and_remove_name_their_ranges() {
    let splice = Replace::splice((1, 2), TextBuffer::from_string("xy"));
    assert_eq!((splice.from, splice.until), ((1, 2), (1, 2)));
    assert_eq!(splice.content.content_string(), "xy");
    let remove = Replace::remove((0, 1), (2, 0));
    assert_eq!((remove.from, remove.until), ((0, 1), (2, 0)));
    assert_eq!(remove.content.content_string(), "");
}

#[test]
fn clone_keeps_the_text() {
    let buffer = TextBuffer::from_string("a\nbc");
    let copy = buffer.clone();
    assert_eq!(copy.content_string(), "a\nbc");
    let edit = Replace::write((0, 0), 'z');
    let same = edit.clone();
    assert_eq!(same.from, (0, 0));
    assert_eq!(same.content.content_string(), "z");
}

#[test]
fn coordinates_order_by_row_then_column() {
    assert!(lt_coord((0, 9), (1, 0)));
    assert!(lt_coord((1, 2), (1, 3)));
    assert!(!lt_coord((1, 3), (1, 3)));
    assert!(le_coord((1, 3), (1, 3)));
    assert!(!le_coord((2, 0), (1, 9)));
}

#[test]
fn diff_and_add_are_inverse() {
    assert_eq!(diff_coord((1, 2), (1, 7)), (0, 5));
    assert_eq!(diff_coord((1, 2), (4, 1)), (3, 1));
    assert_eq!(add_coord((1, 2), (0, 5)), (1, 7));
    assert_eq!(add_coord((1, 2), (3, 1)), (4, 1));
    assert_eq!(add_coord((1, usize::MAX), (0, 5)), (1, usize::MAX));
}
