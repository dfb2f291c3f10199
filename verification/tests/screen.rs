use tesse_rs::screen::{Cell, Screen};

#[test]
fn test_put_and_to_lines() {
    let mut s = Screen::new(2, 5);
    s.char_in_grid('H', (0, 0));
    s.char_in_grid('i', (0, 1));
    let lines = s.to_lines();
    assert_eq!(lines, vec!["Hi   ".to_string(), "     ".to_string()]);
}

#[test]
fn test_line_feed_and_scroll() {
    let mut s = Screen::new(2, 3);
    s.char_in_grid('A', (0, 0));
    s.char_in_grid('B', (1, 0));
    s.char_in_grid('C', (1, 1));
    let lines = s.to_lines();
    assert_eq!(lines, vec!["A  ".to_string(), "BC ".to_string()]);
}

#[test]
fn test_clear() {
    let mut s = Screen::new(2, 2);
    s.char_in_grid('A', (0, 0));
    s.char_in_grid('B', (1, 0));
    s.clear();
    let lines = s.to_lines();
    assert_eq!(lines, vec!["  ".to_string(), "  ".to_string()]);
}

#[test]
fn test_resize() {
    let mut s = Screen::new(2, 2);
    s.char_in_grid('1', (0, 0));
    s.char_in_grid('2', (1, 0));
    s.resize(3, 3);
    let lines = s.to_lines();
    assert_eq!(
        lines,
        vec!["1  ".to_string(), "2  ".to_string(), "   ".to_string()]
    );
}

#[test]
fn test_resize_shrink() {
    let mut s = Screen::new(2, 3);
    s.char_in_grid('1', (0, 0));
    s.char_in_grid('1', (0, 1));
    s.char_in_grid('1', (0, 2));
    s.resize(2, 2);
    let lines = s.to_lines();
    assert_eq!(lines, vec!["11".to_string(), "1 ".to_string(),]);
}

#[test]
fn new_screen_is_blank_and_sized() {
    let s = Screen::new(3, 4);
    assert_eq!(s.rows, 3);
    assert_eq!(s.cols, 4);
    assert_eq!(s.to_lines(), vec!["    ".to_string(); 3]);
}

#[test]
fn empty_screen_has_no_lines() {
    let s = Screen::new(0, 4);
    assert!(s.to_lines().is_empty());
    let s = Screen::new(2, 0);
    assert_eq!(s.to_lines(), vec![String::new(), String::new()]);
}

#[test]
fn default_cell_is_a_space() {
    assert_eq!(Cell::default(), Cell { ch: ' ' });
}

#[test]
fn char_in_grid_overwrites_one_cell() {
    let mut s = Screen::new(2, 3);
    s.char_in_grid('x', (1, 2));
    s.char_in_grid('y', (1, 2));
    assert_eq!(s.to_lines(), vec!["   ".to_string(), "  y".to_string()]);
}

#[test]
fn scroll_up_drops_top_line_and_adds_blank() {
    let mut s = Screen::new(3, 2);
    s.char_in_grid('a', (0, 0));
    s.char_in_grid('b', (1, 0));
    s.char_in_grid('c', (2, 1));
    s.scroll_up();
    assert_eq!(
        s.to_lines(),
        vec!["b ".to_string(), " c".to_string(), "  ".to_string()]
    );
}

#[test]
fn clear_twice_equals_clear_once() {
    let mut s = Screen::new(2, 2);
    s.char_in_grid('q', (0, 1));
    s.clear();
    let once = s.to_lines();
    s.clear();
    assert_eq!(s.to_lines(), once);
}

#[test]
fn resize_widen_keeps_text_as_prefix() {
    let mut s = Screen::new(2, 2);
    s.char_in_grid('a', (0, 0));
    s.char_in_grid('b', (0, 1));
    s.char_in_grid('c', (1, 1));
    s.resize(2, 4);
    assert_eq!(s.to_lines(), vec!["ab  ".to_string(), " c  ".to_string()]);
    assert_eq!(s.cols, 4);
}

#[test]
fn resize_shrink_rows_drops_top_lines() {
    let mut s = Screen::new(3, 2);
    s.char_in_grid('a', (0, 0));
    s.char_in_grid('b', (1, 0));
    s.char_in_grid('c', (2, 0));
    s.resize(1, 2);
    assert_eq!(s.to_lines(), vec!["c ".to_string()]);
    assert_eq!(s.rows, 1);
}

#[test]
fn resize_grow_rows_sets_line_count_to_new_cols() {
    // The row step of a grow sets the number of lines to the new column count.
    let mut s = Screen::new(2, 2);
    s.resize(3, 4);
    assert_eq!(s.to_lines().len(), 4);
    let mut s = Screen::new(2, 2);
    s.resize(5, 2);
    assert_eq!(s.to_lines().len(), 2);
}

#[test]
fn resize_narrow_reflows_in_reading_order() {
    let mut s = Screen::new(3, 3);
    for (i, c) in "abcdefghi".chars().enumerate() {
        s.char_in_grid(c, (i / 3, i % 3));
    }
    s.resize(3, 2);
    // "abc" -> "ab" carries "c"; "c"+"def" -> "cd" carries "ef";
    // "ef"+"ghi" -> "ef", "ghi" is lost.
    assert_eq!(
        s.to_lines(),
        vec!["ab".to_string(), "cd".to_string(), "ef".to_string()]
    );
    let joined: String = s.to_lines().concat();
    assert!("abcdefghi".starts_with(&joined));
}

#[test]
fn resize_to_same_size_changes_nothing() {
    let mut s = Screen::new(2, 3);
    s.char_in_grid('k', (1, 2));
    let before = s.to_lines();
    s.resize(s.rows, s.cols);
    assert_eq!(s.to_lines(), before);
    assert_eq!((s.rows, s.cols), (2, 3));
}

#[test]
fn scrolling_rows_times_blanks_the_screen() {
    let mut s = Screen::new(3, 2);
    s.char_in_grid('a', (0, 0));
    s.char_in_grid('b', (2, 1));
    for _ in 0..3 {
        s.scroll_up();
    }
    assert_eq!(s.to_lines(), Screen::new(3, 2).to_lines());
}

#[test]
fn reachable_screens_keep_rows_lines_of_cols_chars() {
    let mut s = Screen::new(3, 4);
    s.char_in_grid('x', (2, 3));
    s.scroll_up();
    s.clear();
    s.char_in_grid('y', (0, 0));
    let lines = s.to_lines();
    assert_eq!(lines.len(), s.rows);
    assert!(lines.iter().all(|l| l.chars().count() == s.cols));
    assert_eq!(s.to_lines(), lines);
}
