use editbuf::editing_widget::EditingWidget;
use editbuf::input_field::Input;
use editbuf::keys::KeyEvent;
use editbuf::viewport::Viewport;

#[test]
fn single_line_types_two_chars() {
    let mut w = EditingWidget::single_line();
    w.handle_key(KeyEvent::Char('h'));
    w.handle_key(KeyEvent::Char('i'));
    assert_eq!(*w.get_content(), b"hi".to_vec());
    assert_eq!(w.cursor(), 2);
}

#[test]
fn move_up_equal_width_lines() {
    let mut b = Input::multi_line();
    b.set_content(b"ab\ncd".to_vec());
    for _ in 0..5 {
        b.move_right();
    }
    assert_eq!(b.cursor(), 5);
    b.move_up();
    // byte-width scan: width 3, upper width 2, previous line starts the
    // buffer, so one is taken off the capped landing offset
    assert_eq!(b.cursor(), 1);
}

#[test]
fn move_up_between_middle_lines() {
    let mut b = Input::multi_line();
    b.set_content(b"x\nabc\ndef".to_vec());
    for _ in 0..8 {
        b.move_right();
    }
    b.move_up();
    assert_eq!(b.cursor(), 4);
}

#[test]
fn move_up_on_first_line_is_noop() {
    let mut b = Input::multi_line();
    b.set_content(b"abc".to_vec());
    for _ in 0..3 {
        b.move_right();
    }
    b.move_up();
    assert_eq!(b.cursor(), 3);
}

#[test]
fn move_down_keeps_byte_offset() {
    let mut b = Input::multi_line();
    b.set_content(b"ab\ncd\nef".to_vec());
    b.move_right();
    assert_eq!(b.cursor(), 1);
    b.move_down();
    assert_eq!(b.cursor(), 4);
    b.move_down();
    assert_eq!(b.cursor(), 7);
}

#[test]
fn move_down_from_line_start() {
    let mut b = Input::multi_line();
    b.set_content(b"ab\ncd\nef".to_vec());
    for _ in 0..3 {
        b.move_right();
    }
    assert_eq!(b.cursor(), 3);
    b.move_down();
    assert_eq!(b.cursor(), 6);
}

#[test]
fn move_down_on_last_line_is_noop() {
    let mut b = Input::multi_line();
    b.set_content(b"ab\ncd".to_vec());
    for _ in 0..4 {
        b.move_right();
    }
    b.move_down();
    assert_eq!(b.cursor(), 4);
}

#[test]
fn move_down_clamps_to_last_byte() {
    let mut b = Input::multi_line();
    b.set_content(b"ab\ncd".to_vec());
    b.move_right();
    b.move_right();
    assert_eq!(b.cursor(), 2);
    b.move_down();
    assert_eq!(b.cursor(), 4);
}

#[test]
fn move_down_into_trailing_blank_line() {
    let mut b = Input::multi_line();
    b.set_content(b"ab\n".to_vec());
    b.move_right();
    assert_eq!(b.cursor(), 1);
    b.move_down();
    assert_eq!(b.cursor(), 2);
}

#[test]
fn delete_backward_at_start_is_noop() {
    let mut b = Input::multi_line();
    b.set_content(b"x".to_vec());
    assert_eq!(b.cursor(), 0);
    b.delete_backward();
    assert_eq!(*b.get_content(), b"x".to_vec());
    assert_eq!(b.cursor(), 0);
}

#[test]
fn page_down_refused_at_last_line() {
    let mut v = Viewport::new();
    v.end(3);
    assert_eq!(v.scroll(), 2);
    v.page_down(3);
    assert_eq!(v.scroll(), 2);
}

#[test]
fn page_down_moves_one_line() {
    let mut v = Viewport::new();
    v.page_down(3);
    assert_eq!(v.scroll(), 1);
    v.page_down(3);
    assert_eq!(v.scroll(), 2);
    v.page_down(3);
    assert_eq!(v.scroll(), 2);
}

#[test]
fn page_up_and_home() {
    let mut v = Viewport::new();
    v.page_up();
    assert_eq!(v.scroll(), 0);
    v.end(5);
    v.page_up();
    assert_eq!(v.scroll(), 3);
    v.home();
    assert_eq!(v.scroll(), 0);
}

#[test]
fn total_lines_is_line_feed_count_plus_one() {
    let mut b = Input::multi_line();
    assert_eq!(b.total_lines(), 1);
    b.set_content(b"a\nb".to_vec());
    assert_eq!(b.total_lines(), 2);
    b.set_content(b"a\n".to_vec());
    assert_eq!(b.total_lines(), 2);
    b.set_content(b"\n\n".to_vec());
    assert_eq!(b.total_lines(), 3);
}

#[test]
fn set_content_round_trip() {
    let mut b = Input::multi_line();
    let text = "h\u{e9}llo\nw\u{f6}rld".as_bytes().to_vec();
    b.set_content(text.clone());
    assert_eq!(*b.get_content(), text);
    assert_eq!(b.cursor(), 0);
}

#[test]
fn left_then_right_round_trip() {
    let mut b = Input::multi_line();
    b.set_content("a\u{e9}".as_bytes().to_vec());
    b.move_right();
    b.move_right();
    assert_eq!(b.cursor(), 3);
    b.move_left();
    assert_eq!(b.cursor(), 1);
    b.move_right();
    assert_eq!(b.cursor(), 3);
    b.move_left();
    b.move_left();
    assert_eq!(b.cursor(), 0);
    b.move_left();
    assert_eq!(b.cursor(), 0);
}

#[test]
fn single_line_never_holds_line_feed() {
    let mut w = EditingWidget::single_line();
    w.handle_key(KeyEvent::Char('a'));
    w.handle_key(KeyEvent::Char('\n'));
    w.handle_key(KeyEvent::Char('\r'));
    w.handle_key(KeyEvent::Char('b'));
    assert_eq!(*w.get_content(), b"ab".to_vec());
    assert!(!w.get_content().contains(&0x0a));
}

#[test]
fn tab_expands_to_four_spaces() {
    let mut b = Input::multi_line();
    b.put_char(KeyEvent::Char('\t'));
    assert_eq!(*b.get_content(), b"    ".to_vec());
    assert_eq!(b.cursor(), 4);
}

#[test]
fn carriage_return_becomes_line_feed() {
    let mut b = Input::multi_line();
    b.put_char(KeyEvent::Char('\r'));
    assert_eq!(*b.get_content(), b"\n".to_vec());
    assert_eq!(b.cursor(), 1);
}

#[test]
fn insert_multibyte_advances_by_byte_length() {
    let mut b = Input::multi_line();
    b.insert_char('\u{e9}');
    assert_eq!(*b.get_content(), "\u{e9}".as_bytes().to_vec());
    assert_eq!(b.cursor(), 2);
    b.insert_char('\u{21b5}');
    assert_eq!(b.cursor(), 5);
    b.insert_char('\u{1f600}');
    assert_eq!(b.cursor(), 9);
}

#[test]
fn delete_forward_removes_whole_character() {
    let mut b = Input::multi_line();
    b.set_content("\u{e9}x".as_bytes().to_vec());
    b.delete_forward();
    assert_eq!(*b.get_content(), b"x".to_vec());
    assert_eq!(b.cursor(), 0);
    b.move_right();
    b.delete_forward();
    assert_eq!(*b.get_content(), b"x".to_vec());
}

#[test]
fn delete_backward_removes_whole_character() {
    let mut b = Input::multi_line();
    b.set_content("x\u{e9}".as_bytes().to_vec());
    b.move_right();
    b.move_right();
    assert_eq!(b.cursor(), 3);
    b.delete_backward();
    assert_eq!(*b.get_content(), b"x".to_vec());
    assert_eq!(b.cursor(), 1);
}

#[test]
fn widget_keys_drive_viewport() {
    let mut w = EditingWidget::multi_line();
    w.set_content(b"a\nb\nc".to_vec());
    w.handle_key(KeyEvent::End);
    assert_eq!(w.scroll(), 2);
    w.handle_key(KeyEvent::PageDown);
    assert_eq!(w.scroll(), 2);
    w.handle_key(KeyEvent::PageUp);
    assert_eq!(w.scroll(), 1);
    w.handle_key(KeyEvent::Home);
    assert_eq!(w.scroll(), 0);
}

#[test]
fn deleting_a_line_clamps_scroll() {
    let mut w = EditingWidget::multi_line();
    w.set_content(b"a\nb".to_vec());
    w.handle_key(KeyEvent::End);
    assert_eq!(w.scroll(), 1);
    w.handle_key(KeyEvent::Right);
    w.handle_key(KeyEvent::Right);
    w.handle_key(KeyEvent::Right);
    assert_eq!(w.cursor(), 3);
    w.handle_key(KeyEvent::Backspace);
    assert_eq!(*w.get_content(), b"a\n".to_vec());
    assert_eq!(w.scroll(), 1);
    w.handle_key(KeyEvent::Backspace);
    assert_eq!(*w.get_content(), b"a".to_vec());
    assert_eq!(w.scroll(), 0);
}

#[test]
fn set_content_clamps_scroll() {
    let mut w = EditingWidget::multi_line();
    w.set_content(b"a\nb\nc".to_vec());
    w.handle_key(KeyEvent::End);
    assert_eq!(w.scroll(), 2);
    w.set_content(b"a".to_vec());
    assert_eq!(w.scroll(), 0);
}

#[test]
fn vertical_move_can_leave_boundary() {
    let mut b = Input::multi_line();
    b.set_content("\u{e9}\nab".as_bytes().to_vec());
    for _ in 0..3 {
        b.move_right();
    }
    assert_eq!(b.cursor(), 4);
    assert!(b.cursor_at_boundary());
    b.move_up();
    assert_eq!(b.cursor(), 1);
    assert!(!b.cursor_at_boundary());
    b.move_left();
    assert_eq!(b.cursor(), 0);
    assert!(b.cursor_at_boundary());
}

#[test]
fn escape_is_ignored_by_the_buffer() {
    let mut w = EditingWidget::multi_line();
    w.set_content(b"a".to_vec());
    w.handle_key(KeyEvent::Esc);
    assert_eq!(*w.get_content(), b"a".to_vec());
    assert_eq!(w.cursor(), 0);
    assert_eq!(w.scroll(), 0);
}

#[test]
fn widget_title_and_focus() {
    let mut w = EditingWidget::single_line();
    assert!(w.get_focused());
    w.set_focused(false);
    assert!(!w.get_focused());
    w.set_title("Name");
    assert_eq!(w.get_title().as_str(), "Name");
}
