use tesse_rs::cursor::Cursor;

#[test]
fn new_cursor_starts_at_origin() {
    let c = Cursor::new(5, 10);
    assert_eq!(c.get_position(), (0, 0));
}

#[test]
fn default_cursor_is_at_origin_of_empty_area() {
    let c = Cursor::default();
    assert_eq!(c.get_position(), (0, 0));
    assert!(c.last_row_avail());
    assert!(c.last_col_avail());
    assert_eq!(c, Cursor::new(0, 0));
}

#[test]
fn advance_stops_at_last_column_and_row() {
    let mut c = Cursor::new(3, 4);
    c.advance_n_cols(2);
    assert_eq!(c.get_position(), (0, 2));
    c.advance_n_cols(100);
    assert_eq!(c.get_position(), (0, 3));
    c.advance_n_cols(usize::MAX);
    assert_eq!(c.get_position(), (0, 3));
    c.advance_n_rows(usize::MAX);
    assert_eq!(c.get_position(), (2, 3));
    assert!(c.last_row_avail());
    assert!(c.last_col_avail());
}

#[test]
fn recede_stops_at_zero() {
    let mut c = Cursor::new(3, 4);
    c.set_position(2, 3);
    c.recede_n_cols(1);
    assert_eq!(c.get_position(), (2, 2));
    c.recede_n_cols(10);
    c.recede_n_rows(10);
    assert_eq!(c.get_position(), (0, 0));
}

#[test]
fn recede_undoes_advance_with_room() {
    let mut c = Cursor::new(10, 10);
    c.set_position(2, 3);
    c.advance_n_cols(4);
    c.recede_n_cols(4);
    c.advance_n_rows(5);
    c.recede_n_rows(5);
    assert_eq!(c.get_position(), (2, 3));
}

#[test]
fn resets_move_to_origin() {
    let mut c = Cursor::new(5, 5);
    c.set_position(3, 4);
    c.reset_col();
    assert_eq!(c.get_position(), (3, 0));
    c.set_col(2);
    c.reset_row();
    assert_eq!(c.get_position(), (0, 2));
    c.set_position(4, 4);
    c.reset();
    assert_eq!(c.get_position(), (0, 0));
}

#[test]
fn set_position_round_trips_inside_and_clamps_outside() {
    let mut c = Cursor::new(5, 10);
    c.set_position(2, 4);
    assert_eq!(c.get_position(), (2, 4));
    c.set_position(50, 50);
    assert_eq!(c.get_position(), (4, 9));
    c.set_row(1);
    assert_eq!(c.get_position(), (1, 9));
}

#[test]
fn clamp_pulls_position_into_new_area() {
    let mut c = Cursor::new(10, 10);
    c.set_position(8, 7);
    c.clamp(5, 20);
    assert_eq!(c.get_position(), (4, 7));
    c.clamp(5, 20);
    assert_eq!(c.get_position(), (4, 7));
    c.advance_n_cols(100);
    assert_eq!(c.get_position(), (4, 19));
    c.clamp(0, 0);
    assert_eq!(c.get_position(), (0, 0));
}
