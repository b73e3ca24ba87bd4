use vtree::completer::{starts_with, TabCompleter};
use vtree::cursor::Cursor;
use vtree::error::{ErrorKind, TreeError, VTreeError};
use vtree::history::History;
use vtree::input::{Input, InputCommand};

fn strings(v: &[&str]) -> Vec<String> {
    v.iter().map(|s| s.to_string()).collect()
}

#[test]
fn cursor_starts_at_zero() {
    let c = Cursor::new();
    assert_eq!(c.selection(), (0, 0));
    assert_eq!(c.selection_size(), 0);
}

#[test]
fn cursor_selection_is_ordered() {
    let mut c = Cursor::new();
    c.move_to(5);
    assert_eq!(c.selection(), (5, 5));
    c.select_to(2);
    assert_eq!(c.selection(), (2, 5));
    assert_eq!(c.selection_size(), 3);
    c.select_to(9);
    assert_eq!(c.selection(), (5, 9));
    assert_eq!(c.selection_size(), 4);
    c.clear_selection();
    assert_eq!(c.selection(), (9, 9));
    c.set_selection(7, 3);
    assert_eq!(c.selection(), (3, 7));
    assert_eq!(c.pos, 3);
    assert_eq!(c.start, 7);
    c.set_selection(0, usize::MAX);
    assert_eq!(c.selection_size(), usize::MAX);
}

#[test]
fn history_keeps_the_newest_entries() {
    let mut h: History<u32> = History::new(3);
    assert_eq!(h.len(), 0);
    for v in 1..=5 {
        h.add(v);
    }
    assert_eq!(h.len(), 3);
    assert_eq!(h.iter().copied().collect::<Vec<u32>>(), vec![3, 4, 5]);
    assert_eq!(h.index, 3);
    h.clear();
    assert_eq!(h.len(), 0);
    assert_eq!(h.index, 0);
}

#[test]
fn history_with_no_room_keeps_nothing() {
    let mut h: History<u32> = History::new(0);
    h.add(1);
    assert_eq!(h.len(), 0);
    assert_eq!(h.index, 0);
    assert_eq!(h.prev(), None);
    assert_eq!(h.next(), None);
}

#[test]
fn history_walks_back_and_forth() {
    let mut h: History<String> = History::new(10);
    assert_eq!(h.prev(), None);
    assert_eq!(h.next(), None);
    h.add("a".to_string());
    h.add("b".to_string());
    h.add("c".to_string());
    assert_eq!(h.next(), None);
    assert_eq!(h.prev(), Some("c".to_string()));
    assert_eq!(h.prev(), Some("b".to_string()));
    assert_eq!(h.prev(), Some("a".to_string()));
    assert_eq!(h.prev(), None);
    assert_eq!(h.index, 0);
    assert_eq!(h.next(), Some("a".to_string()));
    assert_eq!(h.next(), Some("b".to_string()));
    assert_eq!(h.next(), Some("c".to_string()));
    // The walk does not step past the newest entry.
    assert_eq!(h.next(), Some("c".to_string()));
    assert_eq!(h.index, 2);
}

#[test]
fn completer_keeps_what_begins_with_the_seed() {
    let mut t = TabCompleter::new();
    assert_eq!(t.candidates(), Vec::<String>::new());
    t.set_seed(&"di".to_string());
    t.candidates_from(strings(&["dir-A", "file", "dir-B", "di", "d", "Dir"]));
    assert_eq!(t.candidates(), strings(&["dir-A", "dir-B", "di"]));
    assert_eq!(t.prev(), None);
    assert_eq!(t.next(), Some("dir-A".to_string()));
    assert_eq!(t.next(), Some("dir-B".to_string()));
    assert_eq!(t.next(), Some("di".to_string()));
    assert_eq!(t.next(), Some("di".to_string()));
    assert_eq!(t.prev(), Some("dir-B".to_string()));
}

#[test]
fn completer_seed_change_rewinds() {
    let mut t = TabCompleter::new();
    t.candidates_from(strings(&["a", "b", "c"]));
    assert_eq!(t.next(), Some("a".to_string()));
    assert_eq!(t.next(), Some("b".to_string()));
    t.set_seed(&"".to_string());
    assert_eq!(t.next(), Some("c".to_string()));
    t.set_seed(&"x".to_string());
    assert_eq!(t.next(), Some("a".to_string()));
    assert_eq!(t.candidates(), strings(&["a", "b", "c"]));
}

#[test]
fn completer_keeps_the_last_hundred() {
    let mut t = TabCompleter::new();
    let list: Vec<String> = (0..150).map(|k| format!("w{}", k)).collect();
    t.candidates_from(list);
    let kept = t.candidates();
    assert_eq!(kept.len(), 100);
    assert_eq!(kept[0], "w50");
    assert_eq!(kept[99], "w149");
}

#[test]
fn starts_with_compares_characters() {
    assert!(starts_with(&"dir-A".to_string(), &"dir".to_string()));
    assert!(starts_with(&"dir".to_string(), &"dir".to_string()));
    assert!(starts_with(&"dir".to_string(), &"".to_string()));
    assert!(!starts_with(&"di".to_string(), &"dir".to_string()));
    assert!(!starts_with(&"dar".to_string(), &"dir".to_string()));
    assert!(starts_with(&"\u{e9}t\u{e9}".to_string(), &"\u{e9}".to_string()));
}

#[test]
fn input_command_reads_and_shows_verbs() {
    assert_eq!(InputCommand::from_str("cd"), Ok(InputCommand::Cd));
    assert_eq!(InputCommand::from_str("tree"), Ok(InputCommand::Tree));
    assert_eq!(InputCommand::from_str("exit"), Ok(InputCommand::Exit));
    assert_eq!(InputCommand::from_str("ls"), Err(()));
    assert_eq!(InputCommand::from_str(""), Err(()));
    assert_eq!(InputCommand::from_str("CD"), Err(()));
    assert_eq!(InputCommand::Cd.to_string(), "cd");
    assert_eq!(InputCommand::Tree.to_string(), "tree");
    assert_eq!(InputCommand::Ls.to_string(), "ls");
    assert_eq!(InputCommand::Exit.to_string(), "exit");
}

#[test]
fn input_shows_verb_and_arguments() {
    let input = Input { cmd: InputCommand::Cd, args: strings(&["a", "b c"]) };
    assert_eq!(input.to_string(), "cd a b c");
    let input = Input { cmd: InputCommand::Exit, args: vec![] };
    assert_eq!(input.to_string(), "exit");
}

#[test]
fn errors_carry_their_message() {
    let e = TreeError::new("disk full".to_string());
    assert_eq!(e.kind, ErrorKind::Io);
    assert_eq!(e.to_string(), "disk full");
    let e = TreeError::about(ErrorKind::NotFound, "No such file or directory: ", "x");
    assert_eq!(e.kind, ErrorKind::NotFound);
    assert_eq!(e.to_string(), "No such file or directory: x");
    assert_eq!(VTreeError::new("not initialized").to_string(), "not initialized");
}
