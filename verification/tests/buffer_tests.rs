use editor_core::buffer::Buffer;
use editor_core::handler::Mode;
use editor_core::motion::{Action, Cmd, Dest, Dir, Motion};

fn chars(s: &str) -> Vec<char> {
    s.chars().collect()
}

fn buffer_of(lines: &[&str]) -> Buffer {
    let rows: Vec<Vec<char>> = lines.iter().map(|l| chars(l)).collect();
    Buffer::_from_lines(rows)
}

fn row_string(b: &Buffer, n: usize) -> String {
    b.nth(n).iter().collect()
}

fn motion(verb: Action, count: usize, dir: Dir) -> Motion {
    Motion::from([Cmd::Verb(verb), Cmd::By(count), Cmd::ToDir(dir)])
}

fn dest_motion(verb: Action, dest: Dest) -> Motion {
    Motion::from([Cmd::Verb(verb), Cmd::ToDest(dest), Cmd::Unset])
}

#[test]
fn scenario_move_right_three_in_edit_mode() {
    let mut b = buffer_of(&["hello", "world"]);
    b.apply_motion(motion(Action::Move, 3, Dir::R), Mode::Edit);
    assert_eq!(b.row(), 0);
    assert_eq!(b.char_idx(), 3);
}

#[test]
fn scenario_move_right_at_end_clamps_in_edit_mode() {
    let mut b = buffer_of(&["hello"]);
    b.apply_motion(motion(Action::Move, 4, Dir::R), Mode::Edit);
    assert_eq!(b.char_idx(), 4);
    b.apply_motion(motion(Action::Move, 1, Dir::R), Mode::Edit);
    assert_eq!(b.char_idx(), 4);
}

#[test]
fn scenario_move_right_at_end_advances_in_insert_mode() {
    let mut b = buffer_of(&["hello"]);
    b.apply_motion(motion(Action::Move, 4, Dir::R), Mode::Insert);
    assert_eq!(b.char_idx(), 4);
    b.apply_motion(motion(Action::Move, 1, Dir::R), Mode::Insert);
    assert_eq!(b.char_idx(), 5);
}

#[test]
fn scenario_cut_right_removes_first_character() {
    let mut b = buffer_of(&["hello"]);
    b.apply_motion(motion(Action::Cut, 1, Dir::R), Mode::Edit);
    assert_eq!(row_string(&b, 0), "ello");
    assert_eq!(b.row(), 0);
    assert_eq!(b.char_idx(), 0);
}

#[test]
fn scenario_backspace_joins_lines_in_insert_mode() {
    let mut b = buffer_of(&["hello", "world"]);
    b.apply_motion(motion(Action::Move, 1, Dir::D), Mode::Insert);
    assert_eq!(b.row(), 1);
    assert_eq!(b.char_idx(), 0);
    b.apply_motion(motion(Action::Cut, 1, Dir::L), Mode::Insert);
    assert_eq!(b.height(), 1);
    assert_eq!(row_string(&b, 0), "helloworld");
    assert_eq!(b.row(), 0);
    assert_eq!(b.char_idx(), 5);
}

#[test]
fn scenario_deleting_the_only_line_clears_it() {
    let mut b = buffer_of(&["abc"]);
    b.apply_motion(dest_motion(Action::Cut, Dest::Line), Mode::Edit);
    assert_eq!(b.height(), 1);
    assert_eq!(row_string(&b, 0), "");
    assert_eq!(b.row(), 0);
    assert_eq!(b.char_idx(), 0);
}

#[test]
fn scenario_deleting_the_only_line_clears_it_directly() {
    let mut b = buffer_of(&["abc"]);
    b.delete_lines_down(1);
    assert_eq!(b.height(), 1);
    assert_eq!(row_string(&b, 0), "");
    assert_eq!(b.row(), 0);
    assert_eq!(b.char_idx(), 0);
}

#[test]
fn direct_move_round_trip_restores_cursor_and_byte() {
    let mut b = buffer_of(&["äbcdef"]);
    b.move_cursor(1, Dir::R);
    let (row, chr, byte) = (b.row(), b.char_idx(), b.byte_offset());
    b.move_cursor(3, Dir::R);
    b.move_cursor(3, Dir::L);
    assert_eq!((b.row(), b.char_idx(), b.byte_offset()), (row, chr, byte));
}

#[test]
fn direct_insert_then_remove_left_restores_row() {
    let mut b = buffer_of(&["hello"]);
    b.move_cursor(2, Dir::R);
    b.insert_at_cursor(&chars("xy"));
    b.remove_at_cursor(2, Dir::L, Mode::Insert);
    assert_eq!(row_string(&b, 0), "hello");
    assert_eq!(b.char_idx(), 2);
    assert_eq!(b.byte_offset(), 2);
}

#[test]
fn row_count_stays_positive_under_repeated_line_deletes() {
    let mut b = buffer_of(&["a", "b", "c"]);
    for _ in 0..10 {
        b.apply_motion(dest_motion(Action::Cut, Dest::Line), Mode::Edit);
        assert!(b.height() >= 1);
    }
    assert_eq!(b.height(), 1);
    assert_eq!(row_string(&b, 0), "");
}

#[test]
fn cut_with_count_deletes_rows_downward() {
    let mut b = buffer_of(&["a", "b", "c", "d"]);
    b.apply_motion(motion(Action::Cut, 2, Dir::D), Mode::Edit);
    assert_eq!(b.height(), 2);
    assert_eq!(row_string(&b, 0), "c");
    assert_eq!(row_string(&b, 1), "d");
}

#[test]
fn oversized_line_delete_count_never_touches_rows_above() {
    // From the middle row, a count beyond the rows below clamps: the rows
    // above the cursor survive untouched.
    let mut b = buffer_of(&["a", "b", "c"]);
    b.apply_motion(motion(Action::Move, 1, Dir::D), Mode::Edit);
    assert_eq!(b.row(), 1);
    b.apply_motion(motion(Action::Cut, 5, Dir::D), Mode::Edit);
    assert_eq!(b.height(), 1);
    assert_eq!(row_string(&b, 0), "a");
    assert_eq!(b.row(), 0);
    assert_eq!(b.char_idx(), 0);
}

#[test]
fn oversized_line_delete_from_the_top_clears_the_last_row() {
    let mut b = buffer_of(&["a", "b"]);
    b.apply_motion(motion(Action::Cut, 9, Dir::D), Mode::Edit);
    assert_eq!(b.height(), 1);
    assert_eq!(row_string(&b, 0), "");
    assert_eq!(b.row(), 0);
    assert_eq!(b.char_idx(), 0);
}

#[test]
fn line_delete_count_of_zero_changes_nothing() {
    let mut b = buffer_of(&["ab", "cd"]);
    b.apply_motion(motion(Action::Move, 1, Dir::R), Mode::Edit);
    b.apply_motion(motion(Action::Cut, 0, Dir::D), Mode::Edit);
    assert_eq!(b.height(), 2);
    assert_eq!(row_string(&b, 0), "ab");
    assert_eq!(row_string(&b, 1), "cd");
    assert_eq!(b.row(), 0);
    assert_eq!(b.char_idx(), 1);
}

#[test]
fn move_round_trip_returns_to_start() {
    let mut b = buffer_of(&["abcdefgh"]);
    b.apply_motion(motion(Action::Move, 2, Dir::R), Mode::Edit);
    let row = b.row();
    let chr = b.char_idx();
    b.apply_motion(motion(Action::Move, 3, Dir::R), Mode::Edit);
    b.apply_motion(motion(Action::Move, 3, Dir::L), Mode::Edit);
    assert_eq!(b.row(), row);
    assert_eq!(b.char_idx(), chr);
}

#[test]
fn insert_then_cut_left_restores_row() {
    let mut b = buffer_of(&["hello"]);
    b.apply_motion(motion(Action::Move, 2, Dir::R), Mode::Insert);
    b.insert_at_cursor(&chars("xyz"));
    assert_eq!(row_string(&b, 0), "hexyzllo");
    assert_eq!(b.char_idx(), 5);
    b.apply_motion(motion(Action::Cut, 3, Dir::L), Mode::Insert);
    assert_eq!(row_string(&b, 0), "hello");
    assert_eq!(b.char_idx(), 2);
}

#[test]
fn byte_offset_tracks_multibyte_characters() {
    // "äöü" encodes two bytes per character.
    let mut b = buffer_of(&["äöü"]);
    assert_eq!(b.byte_offset(), 0);
    b.apply_motion(motion(Action::Move, 1, Dir::R), Mode::Edit);
    assert_eq!(b.char_idx(), 1);
    assert_eq!(b.byte_offset(), 2);
    b.apply_motion(motion(Action::Move, 1, Dir::R), Mode::Edit);
    assert_eq!(b.char_idx(), 2);
    assert_eq!(b.byte_offset(), 4);
    b.apply_motion(motion(Action::Move, 1, Dir::L), Mode::Edit);
    assert_eq!(b.byte_offset(), 2);
}

#[test]
fn byte_offset_is_a_boundary_after_mixed_edits() {
    let mut b = buffer_of(&["aé😀b"]);
    b.apply_motion(motion(Action::Move, 2, Dir::R), Mode::Insert);
    // 'a' is 1 byte, 'é' is 2: the cursor sits before the emoji.
    assert_eq!(b.char_idx(), 2);
    assert_eq!(b.byte_offset(), 3);
    b.insert_at_cursor(&chars("ü"));
    assert_eq!(b.char_idx(), 3);
    assert_eq!(b.byte_offset(), 5);
    let text: String = b.nth(0).iter().collect();
    assert!(text.is_char_boundary(b.byte_offset()));
}

#[test]
fn edit_mode_clamps_cursor_inside_row() {
    let mut b = buffer_of(&["ab", "xyz"]);
    b.apply_motion(dest_motion(Action::Move, Dest::Endl), Mode::Edit);
    // End-of-line lands one past the end and Edit mode pulls it back.
    assert_eq!(b.char_idx(), 1);
    b.apply_motion(dest_motion(Action::Move, Dest::Endl), Mode::Insert);
    assert_eq!(b.char_idx(), 2);
}

#[test]
fn move_to_text_start_skips_indent() {
    let mut b = buffer_of(&["   abc"]);
    b.apply_motion(dest_motion(Action::Move, Dest::Endl), Mode::Edit);
    b.apply_motion(dest_motion(Action::Move, Dest::TxtStart), Mode::Edit);
    assert_eq!(b.char_idx(), 3);
}

#[test]
fn cut_to_end_of_line_truncates_row() {
    let mut b = buffer_of(&["hello world"]);
    let mut m = buffer_of(&["hello world"]);
    m.apply_motion(motion(Action::Move, 5, Dir::R), Mode::Edit);
    m.apply_motion(dest_motion(Action::Cut, Dest::Endl), Mode::Edit);
    assert_eq!(row_string(&m, 0), "hello");
    assert_eq!(m.char_idx(), 4);
    // Cutting everything from the start empties the row.
    b.apply_motion(dest_motion(Action::Cut, Dest::Endl), Mode::Edit);
    assert_eq!(row_string(&b, 0), "");
    assert_eq!(b.char_idx(), 0);
}

#[test]
fn vertical_moves_clamp_column_to_shorter_row() {
    let mut b = buffer_of(&["abcdef", "xy", "longer line"]);
    b.apply_motion(motion(Action::Move, 5, Dir::R), Mode::Insert);
    assert_eq!(b.char_idx(), 5);
    b.apply_motion(motion(Action::Move, 1, Dir::D), Mode::Insert);
    assert_eq!(b.row(), 1);
    assert_eq!(b.char_idx(), 2);
    b.apply_motion(motion(Action::Move, 1, Dir::D), Mode::Insert);
    assert_eq!(b.row(), 2);
    assert_eq!(b.char_idx(), 2);
    b.apply_motion(motion(Action::Move, 10, Dir::U), Mode::Insert);
    assert_eq!(b.row(), 0);
}

#[test]
fn vertical_moves_clamp_to_last_row() {
    let mut b = buffer_of(&["a", "b"]);
    b.apply_motion(motion(Action::Move, 9, Dir::D), Mode::Edit);
    assert_eq!(b.row(), 1);
}

#[test]
fn cut_left_stops_at_row_start() {
    let mut b = buffer_of(&["abc"]);
    b.apply_motion(motion(Action::Move, 2, Dir::R), Mode::Insert);
    b.apply_motion(motion(Action::Cut, 5, Dir::L), Mode::Insert);
    assert_eq!(row_string(&b, 0), "c");
    assert_eq!(b.char_idx(), 0);
}

#[test]
fn cut_right_exhausting_row_clamps_to_last_character() {
    let mut b = buffer_of(&["hello"]);
    b.apply_motion(motion(Action::Move, 4, Dir::R), Mode::Insert);
    b.apply_motion(motion(Action::Cut, 3, Dir::R), Mode::Insert);
    assert_eq!(row_string(&b, 0), "hell");
    assert_eq!(b.char_idx(), 3);
}

#[test]
fn newline_below_with_split_carries_indent_and_tail() {
    let mut b = buffer_of(&["  hello"]);
    b.apply_motion(motion(Action::Move, 4, Dir::R), Mode::Insert);
    assert_eq!(b.char_idx(), 4);
    b.insert_newline(Dir::D, true);
    assert_eq!(b.height(), 2);
    assert_eq!(row_string(&b, 0), "  he");
    assert_eq!(row_string(&b, 1), "  llo");
    assert_eq!(b.row(), 1);
    assert_eq!(b.char_idx(), 2);
}

#[test]
fn newline_below_without_split_opens_indent_only_row() {
    let mut b = buffer_of(&["  ab", "cd"]);
    b.insert_newline(Dir::D, false);
    assert_eq!(b.height(), 3);
    assert_eq!(row_string(&b, 0), "  ab");
    assert_eq!(row_string(&b, 1), "  ");
    assert_eq!(row_string(&b, 2), "cd");
    assert_eq!(b.row(), 1);
    assert_eq!(b.char_idx(), 2);
}

#[test]
fn newline_above_keeps_cursor_on_new_row() {
    let mut b = buffer_of(&[" x", "y"]);
    b.insert_newline(Dir::U, false);
    assert_eq!(b.height(), 3);
    assert_eq!(row_string(&b, 0), " ");
    assert_eq!(row_string(&b, 1), " x");
    assert_eq!(b.row(), 0);
    assert_eq!(b.char_idx(), 1);
}

#[test]
fn empty_buffer_has_one_empty_row() {
    let b = Buffer::empty();
    assert_eq!(b.height(), 1);
    assert!(!b.is_empty());
    assert_eq!(row_string(&b, 0), "");
    assert_eq!(b.row(), 0);
    assert_eq!(b.char_idx(), 0);
    assert_eq!(b.byte_offset(), 0);
}

#[test]
fn set_replaces_buffer_state() {
    let mut b = Buffer::empty();
    let other = buffer_of(&["content"]);
    b.set(other);
    assert_eq!(row_string(&b, 0), "content");
}

#[test]
fn insert_at_cursor_on_empty_row() {
    let mut b = Buffer::empty();
    b.insert_at_cursor(&chars("hi"));
    assert_eq!(row_string(&b, 0), "hi");
    assert_eq!(b.char_idx(), 2);
    assert_eq!(b.byte_offset(), 2);
}

#[test]
fn jump_back_if_end_pulls_cursor_onto_last_character() {
    let mut b = buffer_of(&["abc"]);
    b.apply_motion(dest_motion(Action::Move, Dest::Endl), Mode::Insert);
    assert_eq!(b.char_idx(), 3);
    b.jump_back_if_end();
    assert_eq!(b.char_idx(), 2);
    b.jump_back_if_end();
    assert_eq!(b.char_idx(), 2);
}
