use vtree::app::App;
use vtree::item::TreeItem;
use vtree::model::TreeModel;
use vtree::rich::{Color, RichLine};

fn app() -> App {
    App::new(TreeModel::new(TreeItem::new("t".to_string())))
}

fn typing(text: &str) -> App {
    let mut app = app();
    app.set_buffer(text.to_string());
    app
}

fn shown(line: &RichLine) -> Vec<(String, Option<Color>, Option<Color>)> {
    line.texts.iter().map(|t| (t.text.clone(), t.style.fg, t.style.bg)).collect()
}

const CARET: Option<Color> = Some(Color::Rgb(108, 108, 108));
const SELECTED: Option<Color> = Some(Color::Rgb(128, 128, 128));

#[test]
fn a_new_session_is_empty() {
    let app = app();
    assert_eq!(app.buffer, "");
    assert_eq!(app.cursor.selection(), (0, 0));
    assert_eq!(app.lines.len(), 0);
    assert_eq!(app.lines.max, 1000);
    assert_eq!(app.history.len(), 0);
    assert_eq!(app.history.max, 500);
    assert_eq!(app.scroll_pos, 0);
}

#[test]
fn set_buffer_puts_the_caret_behind() {
    let app = typing("h\u{e9}llo");
    assert_eq!(app.cursor.selection(), (5, 5));
    let mut app = app;
    app.clear_buffer();
    assert_eq!(app.buffer, "");
    assert_eq!(app.cursor.selection(), (0, 0));
}

#[test]
fn typing_goes_in_at_the_caret() {
    let mut app = app();
    for c in "cd x".chars() {
        app.text_add_char(c);
    }
    assert_eq!(app.buffer, "cd x");
    assert_eq!(app.cursor.pos, 4);
    app.cursor.move_to(2);
    app.text_add_char('!');
    assert_eq!(app.buffer, "cd! x");
    assert_eq!(app.cursor.selection(), (3, 3));
    app.insert_text("abc".to_string());
    assert_eq!(app.buffer, "cd!abc x");
    assert_eq!(app.cursor.selection(), (6, 6));
}

#[test]
fn typing_replaces_the_selection() {
    let mut app = typing("hello world");
    app.cursor.set_selection(9, 6);
    assert_eq!(app.text_selected(), "wor");
    app.text_add_char('X');
    assert_eq!(app.buffer, "hello Xld");
    assert_eq!(app.cursor.selection(), (7, 7));
}

#[test]
fn backspace_and_delete() {
    let mut app = typing("abcd");
    app.text_backspace_event();
    assert_eq!(app.buffer, "abc");
    assert_eq!(app.cursor.pos, 3);
    app.text_delete_event();
    assert_eq!(app.buffer, "abc");
    app.cursor.move_to(1);
    app.text_delete_event();
    assert_eq!(app.buffer, "ac");
    assert_eq!(app.cursor.pos, 1);
    app.text_backspace_event();
    assert_eq!(app.buffer, "c");
    assert_eq!(app.cursor.pos, 0);
    app.text_backspace_event();
    assert_eq!(app.buffer, "c");
    app.set_buffer("a selection".to_string());
    app.cursor.set_selection(1, 7);
    app.text_backspace_event();
    assert_eq!(app.buffer, "ation");
    assert_eq!(app.cursor.selection(), (1, 1));
    app.cursor.set_selection(5, 3);
    app.text_delete_event();
    assert_eq!(app.buffer, "ati");
    assert_eq!(app.cursor.selection(), (3, 3));
}

#[test]
fn the_caret_moves_within_the_line() {
    let mut app = typing("abc");
    app.text_move_cursor(1, false);
    assert_eq!(app.cursor.selection(), (3, 3));
    app.text_move_cursor(-1, false);
    assert_eq!(app.cursor.selection(), (2, 2));
    app.text_move_cursor(-1, true);
    assert_eq!(app.cursor.selection(), (1, 2));
    assert_eq!(app.cursor.pos, 1);
    app.text_move_cursor(-2, true);
    assert_eq!(app.cursor.selection(), (1, 1));
    app.text_move_cursor(2, true);
    assert_eq!(app.cursor.selection(), (1, 3));
    app.text_move_cursor(i16::MAX, true);
    assert_eq!(app.cursor.selection(), (3, 3));
    app.text_move_cursor(i16::MIN, false);
    assert_eq!(app.cursor.selection(), (3, 3));
    app.text_move_cursor(-3, false);
    assert_eq!(app.cursor.selection(), (0, 0));
}

#[test]
fn the_caret_moves_by_words() {
    let mut app = typing("cd  dir name");
    app.cursor.move_to(0);
    app.text_move_cursor_to_next_word(false);
    assert_eq!(app.cursor.pos, 4);
    app.text_move_cursor_to_next_word(true);
    assert_eq!(app.cursor.selection(), (4, 8));
    app.text_move_cursor_to_next_word(false);
    assert_eq!(app.cursor.pos, 12);
    app.text_move_cursor_to_next_word(false);
    assert_eq!(app.cursor.pos, 12);
    app.text_move_cursor_to_prev_word(false);
    assert_eq!(app.cursor.pos, 8);
    app.text_move_cursor_to_prev_word(false);
    assert_eq!(app.cursor.pos, 4);
    app.cursor.move_to(3);
    app.text_move_cursor_to_prev_word(true);
    assert_eq!(app.cursor.selection(), (0, 3));
    app.text_move_cursor_to_prev_word(false);
    assert_eq!(app.cursor.pos, 0);
}

#[test]
fn the_empty_line_shows_the_caret_alone() {
    let app = app();
    assert_eq!(shown(&app.rich_buffer()), vec![(" ".to_string(), Some(Color::Black), CARET)]);
}

#[test]
fn the_typed_line_is_shown_in_colours() {
    let app = typing("cd \"dir name\" x");
    assert_eq!(
        shown(&app.rich_buffer()),
        vec![
            ("cd".to_string(), Some(Color::Yellow), None),
            (" ".to_string(), Some(Color::White), None),
            ("\"dir name\"".to_string(), Some(Color::Blue), None),
            (" ".to_string(), Some(Color::White), None),
            ("x".to_string(), Some(Color::White), None),
            ("".to_string(), Some(Color::Black), None),
            (" ".to_string(), Some(Color::Black), CARET),
            ("".to_string(), Some(Color::Black), None),
        ]
    );
    assert_eq!(app.rich_buffer().raw_text(), "cd \"dir name\" x ");
}

#[test]
fn the_selection_and_the_caret_are_set_off() {
    let mut app = typing("abcdef");
    app.cursor.set_selection(1, 4);
    assert_eq!(
        shown(&app.rich_buffer()),
        vec![
            ("a".to_string(), Some(Color::Yellow), None),
            ("bcd".to_string(), Some(Color::Black), SELECTED),
            ("".to_string(), Some(Color::Yellow), None),
            ("e".to_string(), Some(Color::Black), CARET),
            ("f".to_string(), Some(Color::Yellow), None),
        ]
    );
}

#[test]
fn printing_makes_a_line_for_each_line() {
    let mut app = app();
    app.scroll_pos = 3;
    app.print_text("one\ntwo".to_string());
    app.print_error("bad".to_string());
    assert_eq!(app.scroll_pos, 0);
    let lines: Vec<(String, Option<Color>)> = app
        .lines
        .iter()
        .map(|l| (l.raw_text(), l.texts[0].style.fg))
        .collect();
    assert_eq!(
        lines,
        vec![
            ("one".to_string(), Some(Color::White)),
            ("two".to_string(), Some(Color::White)),
            ("bad".to_string(), Some(Color::Red)),
        ]
    );
    app.print_text("".to_string());
    assert_eq!(app.lines.len(), 4);
}

#[test]
fn entering_a_line_records_and_shows_it() {
    let mut app = app();
    app.print_text("/[t]/ > ".to_string());
    app.set_buffer("ls".to_string());
    app.run_buffer();
    assert_eq!(app.buffer, "");
    assert_eq!(app.cursor.selection(), (0, 0));
    assert_eq!(app.history.iter().cloned().collect::<Vec<String>>(), vec!["ls"]);
    assert_eq!(app.lines.len(), 1);
    assert_eq!(app.lines.iter().next().unwrap().raw_text(), "/[t]/ > ls ");
    app.set_buffer("x".to_string());
    app.flush_buffer();
    assert_eq!(app.lines.iter().next().unwrap().raw_text(), "/[t]/ > ls x ");
    assert_eq!(app.history.len(), 1);
}

#[test]
fn the_screen_shows_the_last_lines() {
    let mut app = app();
    app.print_text("1\n2\n3\n4".to_string());
    app.set_buffer("t".to_string());
    let raw = |lines: Vec<RichLine>| lines.iter().map(|l| l.raw_text()).collect::<Vec<String>>();
    assert_eq!(raw(app.get_text(2)), vec!["3", "4t "]);
    assert_eq!(raw(app.get_text(10)), vec!["1", "2", "3", "4t "]);
    assert_eq!(raw(app.get_text(1)), vec!["4t "]);
    assert_eq!(raw(app.get_text(0)), Vec::<String>::new());
    app.scroll_pos = 1;
    assert_eq!(raw(app.get_text(2)), vec!["2", "3t "]);
    app.scroll_pos = 3;
    assert_eq!(raw(app.get_text(2)), vec!["1t "]);
    app.scroll_pos = 4;
    assert_eq!(raw(app.get_text(2)), Vec::<String>::new());
}
