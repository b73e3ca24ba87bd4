use vtree::rich::{Color, RichLine, RichText, Style};

#[test]
fn test_rich_text() {
    let text = RichText::new("Hello World".to_string(), Color::White);
    assert_eq!(text.len(), 11);
    assert_eq!(text.text, "Hello World");
    assert_eq!(text.style.fg, Some(Color::White));
    assert_eq!(text.style.bg, None);
    assert_eq!(text.style.add_modifier, 0);
    assert_eq!(text.style.sub_modifier, 0);
}

#[test]
fn test_rich_text_split_at() {
    let text = RichText::new("Hello World".to_string(), Color::White);
    let (left, right) = text.split_at(5);
    assert_eq!(left.text, "Hello");
    assert_eq!(right.text, " World");
}

#[test]
fn test_rich_text_split3_at() {
    let text = RichText::new("Hello World".to_string(), Color::White);
    let (left, middle, right) = text.split3_at(5, 7);
    assert_eq!(left.text, "Hello");
    assert_eq!(middle.text, " W");
    assert_eq!(right.text, "orld");
}

#[test]
fn test_rich_text_restyled() {
    let text = RichText::new("Hello World".to_string(), Color::White);
    let text = text.restyled(Style::default().fg(Color::Red));
    assert_eq!(text.text, "Hello World");
    assert_eq!(text.style.fg, Some(Color::Red));
    assert_eq!(text.style.bg, None);
    assert_eq!(text.style.add_modifier, 0);
    assert_eq!(text.style.sub_modifier, 0);
}

#[test]
fn test_rich_line() {
    let line = RichLine::new();
    assert_eq!(line.texts.len(), 0);
}

#[test]
fn test_rich_line_push() {
    let mut line = RichLine::new();
    line.push(RichText::new("Hello World".to_string(), Color::White));
    assert_eq!(line.texts.len(), 1);
    assert_eq!(line.texts[0].text, "Hello World");
    assert_eq!(line.texts[0].style.fg, Some(Color::White));
}

#[test]
fn test_rich_line_restyled_raw_text() {
    let line = RichLine::from_strings(vec!["Hello ".to_string(), "World".to_string()]);
    assert_eq!(line.raw_text(), "Hello World");
    assert_eq!(line.restyled(1, 3, Style::default().fg(Color::Red)).raw_text(), "Hello World");
    assert_eq!(line.restyled(1, 8, Style::default().fg(Color::Red)).raw_text(), "Hello World");
    assert_eq!(line.restyled(7, 8, Style::default().fg(Color::Red)).raw_text(), "Hello World");
}

fn pieces(line: &RichLine) -> Vec<(String, Option<Color>)> {
    line.texts.iter().map(|t| (t.text.clone(), t.style.fg)).collect()
}

fn piece(text: &str, color: Color) -> (String, Option<Color>) {
    (text.to_string(), Some(color))
}

#[test]
fn restyled_within_one_run_cuts_it_in_three() {
    let line = RichLine::from_strings(vec!["Hello ".to_string(), "World".to_string()]);
    let red = Style::default().fg(Color::Red);
    assert_eq!(
        pieces(&line.restyled(1, 3, red)),
        vec![
            piece("H", Color::White),
            piece("el", Color::Red),
            piece("lo ", Color::White),
            piece("World", Color::White)
        ]
    );
    assert_eq!(
        pieces(&line.restyled(7, 8, red)),
        vec![
            piece("Hello ", Color::White),
            piece("W", Color::White),
            piece("o", Color::Red),
            piece("rld", Color::White)
        ]
    );
    assert_eq!(
        pieces(&line.restyled(0, 6, red)),
        vec![
            piece("", Color::White),
            piece("Hello ", Color::Red),
            piece("", Color::White),
            piece("World", Color::White)
        ]
    );
}

#[test]
fn restyled_over_several_runs_cuts_the_first_and_the_last() {
    let line = RichLine::from_strings(vec!["ab".to_string(), "cd".to_string(), "ef".to_string()]);
    let red = Style::default().fg(Color::Red);
    assert_eq!(
        pieces(&line.restyled(1, 5, red)),
        vec![
            piece("a", Color::White),
            piece("b", Color::Red),
            piece("cd", Color::Red),
            piece("e", Color::Red),
            piece("f", Color::White)
        ]
    );
    assert_eq!(
        pieces(&line.restyled(1, 4, red)),
        vec![
            piece("a", Color::White),
            piece("b", Color::Red),
            piece("cd", Color::Red),
            piece("", Color::White),
            piece("ef", Color::White)
        ]
    );
}

#[test]
fn restyled_behind_the_line_changes_nothing() {
    let line = RichLine::from_strings(vec!["ab".to_string(), "cd".to_string()]);
    let red = Style::default().fg(Color::Red);
    assert_eq!(
        pieces(&line.restyled(4, 9, red)),
        vec![piece("ab", Color::White), piece("cd", Color::White)]
    );
    assert_eq!(
        pieces(&line.restyled(3, 9, red)),
        vec![piece("ab", Color::White), piece("c", Color::White), piece("d", Color::Red)]
    );
    assert_eq!(pieces(&RichLine::new().restyled(0, 1, red)), vec![]);
}

#[test]
fn overlay_keeps_what_is_not_set() {
    let base = Style::default().fg(Color::White).bg(Color::Blue).add_modifier(0b0101);
    let over = Style::default().bg(Color::Red);
    let s = base.overlay(over);
    assert_eq!(s.fg, Some(Color::White));
    assert_eq!(s.bg, Some(Color::Red));
    assert_eq!(s.add_modifier, 0b0101);
    let base = Style { fg: None, bg: None, add_modifier: 0b0001, sub_modifier: 0b0110 };
    let s = base.overlay(Style::default().add_modifier(0b0100));
    assert_eq!(s.add_modifier, 0b0101);
    assert_eq!(s.sub_modifier, 0b0010);
    assert_eq!(Style::new(), Style::default());
}

#[test]
fn subtext_counts_characters() {
    let text = RichText::new("h\u{e9}llo".to_string(), Color::Green);
    assert_eq!(text.len(), 5);
    let sub = text.subtext(1, 3);
    assert_eq!(sub.text, "\u{e9}l");
    assert_eq!(sub.style.fg, Some(Color::Green));
    assert_eq!(text.subtext(2, 2).text, "");
    assert_eq!(text.clone().text, text.text);
}

#[test]
fn lines_join_and_extend() {
    let a = RichLine::from_strings(vec!["a".to_string()]);
    let b = RichLine::from_texts(vec![RichText::new("b".to_string(), Color::Red)]);
    let joined = a.join(b.clone());
    assert_eq!(pieces(&joined), vec![piece("a", Color::White), piece("b", Color::Red)]);
    let mut c = a.clone();
    c.extend(joined);
    assert_eq!(c.raw_text(), "aab");
    assert_eq!(c.iter_texts().len(), 3);
    assert_eq!(a.raw_text(), "a");
}
