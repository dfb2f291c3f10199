use tesse_rs::cursor::Cursor;
use tesse_rs::performer::TerminalPerformer;
use tesse_rs::screen::Screen;
use vte::{Params, Parser, Perform};

/// Hands the parser's callbacks to the performer.
struct Harness {
    perf: TerminalPerformer,
}

impl Perform for Harness {
    fn print(&mut self, c: char) {
        self.perf.print(c);
    }

    fn execute(&mut self, byte: u8) {
        self.perf.execute(byte);
    }

    fn csi_dispatch(&mut self, params: &Params, intermediates: &[u8], ignore: bool, action: char) {
        let params: Vec<Vec<u16>> = params.iter().map(|p| p.to_vec()).collect();
        self.perf.csi_dispatch(&params, intermediates, ignore, action);
    }
}

fn setup_performer(rows: usize, cols: usize) -> Harness {
    let screen = Screen::new(rows, cols);
    let curs = Cursor::new(rows, cols);
    Harness { perf: TerminalPerformer::new(screen, curs) }
}

#[test]
fn test_print_single_char() {
    let mut perf = setup_performer(5, 10);
    let mut parser = Parser::new();

    parser.advance(&mut perf, b"A");

    let screen_lock = perf.perf.screen;
    assert_eq!(screen_lock.to_lines()[0], "A         ");
    assert_eq!(perf.perf.curs.get_position(), (0, 1));
}

#[test]
fn test_print_line_wrap() {
    let mut perf = setup_performer(2, 5);
    let mut parser = Parser::new();

    parser.advance(&mut perf, b"ABCDEFG");

    let screen_lock = perf.perf.screen;
    assert_eq!(
        screen_lock.to_lines(),
        vec!["ABCDE".to_string(), "FG   ".to_string()]
    );

    assert_eq!(perf.perf.curs.get_position(), (1, 2));
}

#[test]
fn test_execute_line_feed_scrolling() {
    let mut perf = setup_performer(2, 3);
    let mut parser = Parser::new();

    parser.advance(&mut perf, b"ABC\nDEF\nGHI");

    let screen_lock = perf.perf.screen;
    assert_eq!(
        screen_lock.to_lines(),
        vec!["DEF".to_string(), "GHI".to_string()]
    );

    assert_eq!(perf.perf.curs.get_position(), (1, 2));
}

#[test]
fn test_csi_cursor_position() {
    let mut perf = setup_performer(5, 10);
    let mut parser = Parser::new();

    parser.advance(&mut perf, b"\x1B[3;5H");
    assert_eq!(perf.perf.curs.get_position(), (2, 4));
}

#[test]
fn test_csi_clear_screen() {
    let mut perf = setup_performer(5, 10);
    let mut parser = Parser::new();

    parser.advance(&mut perf, b"Hello, world!\n");
    parser.advance(&mut perf, b"\x1B[3;5H");
    parser.advance(&mut perf, b"X");
    parser.advance(&mut perf, b"\x1B[2J");

    let screen_lock = perf.perf.screen;
    for line in screen_lock.to_lines() {
        assert_eq!(line, "          ");
    }

    assert_eq!(perf.perf.curs.get_position(), (0, 0));
}

#[test]
fn test_csi_cursor_up_clamping() {
    let mut perf = setup_performer(5, 10);
    let mut parser = Parser::new();

    parser.advance(&mut perf, b"\x1B[100A");

    assert_eq!(perf.perf.curs.get_position(), (0, 0));
}

#[test]
fn test_csi_cursor_down_clamping() {
    let mut perf = setup_performer(5, 10);
    let mut parser = Parser::new();

    parser.advance(&mut perf, b"\x1B[100B");

    assert_eq!(perf.perf.curs.get_position(), (4, 0));
}

#[test]
fn cursor_moves_default_and_zero_count_to_one() {
    let mut perf = setup_performer(5, 10);
    let mut parser = Parser::new();
    parser.advance(&mut perf, b"\x1B[B");
    assert_eq!(perf.perf.curs.get_position(), (1, 0));
    parser.advance(&mut perf, b"\x1B[0B");
    assert_eq!(perf.perf.curs.get_position(), (2, 0));
    parser.advance(&mut perf, b"\x1B[2A");
    assert_eq!(perf.perf.curs.get_position(), (0, 0));
    parser.advance(&mut perf, b"\x1B[4;4f");
    assert_eq!(perf.perf.curs.get_position(), (3, 3));
    parser.advance(&mut perf, b"\x1B[H");
    assert_eq!(perf.perf.curs.get_position(), (0, 0));
}

#[test]
fn carriage_return_and_form_feed() {
    let mut perf = setup_performer(3, 4);
    let mut parser = Parser::new();
    parser.advance(&mut perf, b"ab\rX");
    assert_eq!(perf.perf.screen.to_lines()[0], "Xb  ");
    assert_eq!(perf.perf.curs.get_position(), (0, 1));
    parser.advance(&mut perf, b"\x0c");
    assert_eq!(perf.perf.screen.to_lines(), vec!["    ".to_string(); 3]);
    assert_eq!(perf.perf.curs.get_position(), (0, 0));
}

#[test]
fn erase_display_other_than_two_is_ignored() {
    let mut perf = setup_performer(2, 3);
    let mut parser = Parser::new();
    parser.advance(&mut perf, b"ab\x1B[J\x1B[1J\x1B[5Z");
    assert_eq!(perf.perf.screen.to_lines()[0], "ab ");
    assert_eq!(perf.perf.curs.get_position(), (0, 2));
}

#[test]
fn printing_into_last_column_waits_to_wrap() {
    let mut perf = setup_performer(2, 3);
    let mut parser = Parser::new();
    parser.advance(&mut perf, b"abc");
    assert!(perf.perf.wrap_pending);
    assert_eq!(perf.perf.curs.get_position(), (0, 2));
    parser.advance(&mut perf, b"d");
    assert!(!perf.perf.wrap_pending);
    assert_eq!(perf.perf.screen.to_lines(), vec!["abc".to_string(), "d  ".to_string()]);
    assert_eq!(perf.perf.curs.get_position(), (1, 1));
}

#[test]
fn direct_calls_without_parser() {
    let mut perf = TerminalPerformer::new(Screen::new(2, 2), Cursor::new(2, 2));
    assert!(perf.osc_buffer.is_empty());
    perf.put_char('a');
    perf.line_feed();
    perf.put_char('b');
    assert_eq!(perf.screen.to_lines(), vec!["a ".to_string(), "b ".to_string()]);
    perf.line_feed();
    assert_eq!(perf.screen.to_lines(), vec!["b ".to_string(), "  ".to_string()]);
    perf.csi_dispatch(&vec![vec![2]], &[], false, 'J');
    assert_eq!(perf.curs.get_position(), (0, 0));
    perf.put_char('z');
    perf.resize(2, 3);
    assert_eq!(perf.screen.to_lines(), vec!["z  ".to_string(), "   ".to_string()]);
    perf.clear();
    assert_eq!(perf.screen.to_lines(), vec!["   ".to_string(); 2]);
}

#[test]
fn pending_wrap_is_dropped_when_the_cursor_moves_away() {
    let mut perf = TerminalPerformer::new(Screen::new(2, 3), Cursor::new(2, 3));
    perf.put_char('a');
    perf.put_char('b');
    perf.put_char('c');
    assert!(perf.wrap_pending);
    perf.curs.set_position(0, 0);
    perf.put_char('z');
    assert_eq!(perf.screen.to_lines(), vec!["zbc".to_string(), "   ".to_string()]);
    assert_eq!(perf.curs.get_position(), (0, 1));
    assert!(!perf.wrap_pending);
}

#[test]
fn zero_width_screen_prints_by_feeding_lines() {
    let mut perf = TerminalPerformer::new(Screen::new(2, 0), Cursor::new(2, 0));
    perf.put_char('a');
    assert_eq!(perf.curs.get_position(), (1, 0));
    perf.put_char('b');
    assert_eq!(perf.curs.get_position(), (1, 0));
    assert_eq!(perf.screen.to_lines(), vec![String::new(), String::new()]);
}

#[test]
fn clear_and_cursor_moves_never_need_a_screen() {
    let mut perf = TerminalPerformer::new(Screen::new(0, 0), Cursor::new(0, 0));
    perf.clear();
    perf.csi_dispatch(&vec![vec![3], vec![4]], &[], false, 'H');
    perf.csi_dispatch(&vec![vec![2]], &[], false, 'J');
    perf.execute(b'\r');
    perf.execute(0x0c);
    perf.execute(b'x');
    assert_eq!(perf.curs.get_position(), (0, 0));
    assert!(perf.screen.to_lines().is_empty());
}
