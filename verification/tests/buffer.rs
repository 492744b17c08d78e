use vfs_shell::buffer::GapBuffer;

#[test]
fn new_buffer_is_one_empty_row_at_origin() {
    let b = GapBuffer::new();
    assert_eq!(b.data.len(), 1);
    assert!(b.data[0].is_empty());
    assert_eq!(b.line_index, 0);
    assert_eq!(b.col_index, 0);
    assert_eq!(b.to_string(), "");
}

#[test]
fn push_inserts_at_the_cursor() {
    let mut b = GapBuffer::new();
    b.push('a');
    b.push('c');
    b.move_left();
    b.push('b');
    assert_eq!(b.to_string(), "abc");
    assert_eq!(b.col_index, 2);
}

#[test]
fn serialize_after_split_and_insert() {
    // content "ab", a line split at its end, then "c": serializes to
    // exactly "ab\nc"
    let mut b = GapBuffer::new();
    b.push('a');
    b.push('b');
    b.push_line();
    b.push('c');
    assert_eq!(b.to_string(), "ab\nc");
}

#[test]
fn split_keeps_text_right_of_the_cursor_on_the_old_row() {
    let mut b = GapBuffer::new();
    b.push('a');
    b.push('b');
    b.move_left();
    b.push_line();
    assert_eq!(b.to_string(), "ab\n");
    assert_eq!(b.line_index, 1);
    assert_eq!(b.col_index, 0);
}

#[test]
fn inserts_then_equally_many_deletes_empty_the_buffer() {
    let mut b = GapBuffer::new();
    for c in ['x', 'y', 'z'] {
        b.push(c);
    }
    for _ in 0..3 {
        b.remove();
    }
    assert_eq!(b.to_string(), "");
    assert_eq!(b.line_index, 0);
    assert_eq!(b.col_index, 0);
    assert_eq!(b.data.len(), 1);
}

#[test]
fn delete_at_origin_is_a_no_op() {
    let mut b = GapBuffer::new();
    b.remove();
    assert_eq!(b.to_string(), "");
    assert_eq!((b.line_index, b.col_index), (0, 0));
}

#[test]
fn delete_at_row_start_merges_into_previous_row() {
    let mut b = GapBuffer::new();
    b.push('a');
    b.push('b');
    b.push_line();
    b.push('c');
    b.move_left();
    assert_eq!((b.line_index, b.col_index), (1, 0));
    b.remove();
    assert_eq!(b.to_string(), "abc");
    assert_eq!((b.line_index, b.col_index), (0, 2));
}

#[test]
fn move_left_then_right_returns_to_the_same_position() {
    let mut b = GapBuffer::new();
    b.push('a');
    b.push('b');
    b.push('c');
    b.move_left();
    let before = (b.line_index, b.col_index);
    b.move_left();
    b.move_right();
    assert_eq!((b.line_index, b.col_index), before);
}

#[test]
fn move_left_then_right_round_trips_across_a_row_boundary() {
    let mut b = GapBuffer::new();
    b.push('a');
    b.push('b');
    b.push_line();
    assert_eq!((b.line_index, b.col_index), (1, 0));
    b.move_left();
    assert_eq!((b.line_index, b.col_index), (0, 2));
    b.move_right();
    assert_eq!((b.line_index, b.col_index), (1, 0));
}

#[test]
fn moves_clamp_at_the_buffer_edges() {
    let mut b = GapBuffer::new();
    b.move_left();
    b.move_up();
    b.move_down();
    assert_eq!((b.line_index, b.col_index), (0, 0));
    b.push('a');
    b.move_right();
    assert_eq!((b.line_index, b.col_index), (0, 1));
}

#[test]
fn vertical_moves_clamp_the_column_to_the_target_row() {
    let mut b = GapBuffer::new();
    b.push('a');
    b.push('b');
    b.push('c');
    b.push_line();
    b.push('x');
    // cursor on row 1 at column 1; the row above is longer, so the column
    // is kept on the way up
    b.move_up();
    assert_eq!((b.line_index, b.col_index), (0, 1));
    b.move_right();
    b.move_right();
    assert_eq!((b.line_index, b.col_index), (0, 3));
    // the row below is shorter, so the column clamps on the way down
    b.move_down();
    assert_eq!((b.line_index, b.col_index), (1, 1));
}

#[test]
fn serialize_joins_empty_rows_with_newlines() {
    let mut b = GapBuffer::new();
    b.push_line();
    assert_eq!(b.to_string(), "\n");
    b.push_line();
    assert_eq!(b.to_string(), "\n\n");
}

#[test]
fn buffer_clone_copies_rows_and_cursor() {
    let mut b = GapBuffer::new();
    b.push('h');
    b.push('i');
    b.push_line();
    b.push('!');
    let c = b.clone();
    assert_eq!(c.to_string(), "hi\n!");
    assert_eq!((c.line_index, c.col_index), (b.line_index, b.col_index));
    b.remove();
    assert_eq!(c.to_string(), "hi\n!");
}
