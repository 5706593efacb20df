use editbuf::editing_widget::EditingWidget;
use editbuf::input_field::Input;
use editbuf::render::{DisplayLine, SpanStyle};
use editbuf::global::Global;

fn flat(line: &DisplayLine) -> Vec<(Vec<u8>, SpanStyle)> {
    line.spans.iter().map(|s| (s.text.clone(), s.style)).collect()
}

#[test]
fn empty_multi_line_renders_gutter_and_cursor_cell() {
    let w = EditingWidget::multi_line();
    let lines = w.get_text(0);
    assert_eq!(lines.len(), 1);
    assert_eq!(
        flat(&lines[0]),
        vec![
            (b"1  ".to_vec(), SpanStyle::Dim),
            (b" ".to_vec(), SpanStyle::Cursor { inverted: false }),
        ]
    );
}

#[test]
fn empty_single_line_has_no_gutter() {
    let w = EditingWidget::single_line();
    let lines = w.get_text(700);
    assert_eq!(lines.len(), 1);
    assert_eq!(
        flat(&lines[0]),
        vec![(b" ".to_vec(), SpanStyle::Cursor { inverted: false })]
    );
}

#[test]
fn cursor_splits_its_line() {
    let mut b = Input::multi_line();
    b.set_content(b"ab\ncd".to_vec());
    b.move_right();
    let lines = b.get_element(600);
    assert_eq!(lines.len(), 2);
    assert_eq!(
        flat(&lines[0]),
        vec![
            (b"1  ".to_vec(), SpanStyle::Dim),
            (b"a".to_vec(), SpanStyle::Plain),
            (b"b".to_vec(), SpanStyle::Cursor { inverted: true }),
            (b"".to_vec(), SpanStyle::Plain),
        ]
    );
    assert_eq!(
        flat(&lines[1]),
        vec![
            (b"2  ".to_vec(), SpanStyle::Dim),
            (b"cd".to_vec(), SpanStyle::Plain),
        ]
    );
}

#[test]
fn cursor_on_line_feed_shows_break_glyph() {
    let mut b = Input::multi_line();
    b.set_content(b"ab\ncd".to_vec());
    b.move_right();
    b.move_right();
    assert_eq!(b.cursor(), 2);
    let lines = b.get_element(0);
    assert_eq!(
        flat(&lines[0]),
        vec![
            (b"1  ".to_vec(), SpanStyle::Dim),
            (b"ab".to_vec(), SpanStyle::Plain),
            ("\u{21b5}".as_bytes().to_vec(), SpanStyle::Cursor { inverted: false }),
        ]
    );
}

#[test]
fn cursor_at_buffer_end_shows_space_cell() {
    let mut b = Input::multi_line();
    b.set_content(b"ab".to_vec());
    b.move_right();
    b.move_right();
    let lines = b.get_element(0);
    assert_eq!(lines.len(), 1);
    assert_eq!(
        flat(&lines[0]),
        vec![
            (b"1  ".to_vec(), SpanStyle::Dim),
            (b"ab".to_vec(), SpanStyle::Plain),
            (b" ".to_vec(), SpanStyle::Cursor { inverted: false }),
        ]
    );
}

#[test]
fn multibyte_cursor_cell_holds_whole_character() {
    let mut b = Input::multi_line();
    b.set_content("a\u{e9}b".as_bytes().to_vec());
    b.move_right();
    assert_eq!(b.cursor(), 1);
    let lines = b.get_element(0);
    assert_eq!(
        flat(&lines[0]),
        vec![
            (b"1  ".to_vec(), SpanStyle::Dim),
            (b"a".to_vec(), SpanStyle::Plain),
            ("\u{e9}".as_bytes().to_vec(), SpanStyle::Cursor { inverted: false }),
            (b"b".to_vec(), SpanStyle::Plain),
        ]
    );
}

#[test]
fn trailing_line_feed_renders_blank_final_line() {
    let mut b = Input::multi_line();
    b.set_content(b"a\n".to_vec());
    let lines = b.get_element(0);
    assert_eq!(lines.len(), 2);
    assert_eq!(
        flat(&lines[1]),
        vec![
            (b"2  ".to_vec(), SpanStyle::Dim),
            (b"".to_vec(), SpanStyle::Plain),
        ]
    );
}

#[test]
fn gutter_zero_pads_to_total_width() {
    let mut b = Input::multi_line();
    b.set_content(vec![0x0a; 10]);
    let lines = b.get_element(0);
    assert_eq!(lines.len(), 11);
    assert_eq!(lines[0].spans[0].text, b"01  ".to_vec());
    assert_eq!(lines[0].spans[0].style, SpanStyle::Dim);
    assert_eq!(lines[9].spans[0].text, b"10  ".to_vec());
    assert_eq!(lines[10].spans[0].text, b"11  ".to_vec());
}

#[test]
fn blink_phase_follows_wall_clock() {
    let mut b = Input::multi_line();
    b.set_content(b"a".to_vec());
    let early = b.get_element(499);
    assert_eq!(early[0].spans[2].style, SpanStyle::Cursor { inverted: false });
    let late = b.get_element(500);
    assert_eq!(late[0].spans[2].style, SpanStyle::Cursor { inverted: true });
    let wrapped = b.get_element(2250);
    assert_eq!(wrapped[0].spans[2].style, SpanStyle::Cursor { inverted: false });
}

#[test]
fn unfocused_widget_never_inverts() {
    let mut w = EditingWidget::multi_line();
    w.set_content(b"a".to_vec());
    w.set_focused(false);
    let lines = w.get_text(600);
    assert_eq!(lines[0].spans[2].style, SpanStyle::Cursor { inverted: false });
}

#[test]
fn single_line_field_never_inverts() {
    let mut w = EditingWidget::single_line();
    w.set_content(b"a".to_vec());
    let lines = w.get_text(600);
    assert_eq!(
        flat(&lines[0]),
        vec![
            (b"".to_vec(), SpanStyle::Plain),
            (b"a".to_vec(), SpanStyle::Cursor { inverted: false }),
            (b"".to_vec(), SpanStyle::Plain),
        ]
    );
}

#[test]
fn global_state_starts_clean_and_shuts_down() {
    let mut g = Global::new();
    assert_eq!(g.current_file(), "");
    assert!(!g.shutdown());
    g.set_shutdown();
    assert!(g.shutdown());
    assert_eq!(g.current_file(), "");
}
