use vtree::disk::Disk;
use vtree::error::ErrorKind;
use vtree::item::TreeItem;

fn named(name: &str) -> TreeItem {
    TreeItem::new(name.to_string())
}

fn file(name: &str, path: &str) -> TreeItem {
    TreeItem::new_file(name.to_string(), path.to_string())
}

// root
//   ├─ NAME (file at /real/a)
//   ├─ NAME
//   │   └─ inner
//   ├─ other
//   └─ NAME (file at /real/b)
fn duplicates() -> TreeItem {
    let mut dir = named("NAME");
    dir.add_item(named("inner")).unwrap();
    let mut root = named("root");
    root.add_item(file("NAME", "/real/a")).unwrap();
    root.add_item(dir).unwrap();
    root.add_item(named("other")).unwrap();
    root.add_item(file("NAME", "/real/b")).unwrap();
    root
}

fn disk_ab() -> Disk {
    let mut disk = Disk::new();
    disk.add_file("/real/a".to_string());
    disk.add_file("/real/b".to_string());
    disk
}

#[test]
fn new_items_are_empty() {
    let item = named("x");
    assert_eq!(item.name, "x");
    assert_eq!(item.child_count(), 0);
    assert!(item.desc.is_none());
    assert!(item.entity.is_none());
    let item = file("y", "./p");
    assert_eq!(item.name, "y");
    assert_eq!(item.entity_path(), Some("./p"));
    assert_eq!(item.label(), "y");
    assert_eq!(item.description(), None);
}

#[test]
fn is_file_follows_the_disk() {
    let item = file("a", "/real/a");
    let mut disk = Disk::new();
    assert!(!item.is_file(&disk));
    assert!(item.is_dir(&disk));
    disk.add_other("/real/a".to_string());
    assert!(!item.is_file(&disk));
    disk.add_file("/real/a".to_string());
    assert!(item.is_file(&disk));
    assert!(!item.is_dir(&disk));
    // The file is gone again: a fresh look at the disk finds nothing.
    let disk = Disk::new();
    assert!(item.is_dir(&disk));
}

#[test]
fn a_node_without_entity_is_a_directory() {
    let item = named("d");
    assert!(item.is_dir(&disk_ab()));
    assert!(!item.is_file(&disk_ab()));
}

#[test]
fn a_file_with_children_is_still_a_file() {
    let mut item = file("a", "/real/a");
    item.add_item(named("below")).unwrap();
    assert!(item.is_file(&disk_ab()));
}

#[test]
fn has_is_an_exact_match() {
    let root = duplicates();
    assert!(root.has(&"NAME".to_string()));
    assert!(root.has(&"other".to_string()));
    assert!(!root.has(&"NAME#1".to_string()));
    assert!(!root.has(&"name".to_string()));
    assert!(!root.has(&"inner".to_string()));
}

#[test]
fn has_dir_needs_a_directory() {
    let root = duplicates();
    assert!(root.has_dir(&"NAME".to_string(), &disk_ab()));
    assert!(root.has_dir(&"other".to_string(), &disk_ab()));
    let mut only_file = named("r");
    only_file.add_item(file("f", "/real/a")).unwrap();
    assert!(!only_file.has_dir(&"f".to_string(), &disk_ab()));
    assert!(only_file.has_dir(&"f".to_string(), &Disk::new()));
}

#[test]
fn get_child_takes_the_first_match() {
    let root = duplicates();
    let c = root.get_child(&"NAME".to_string()).unwrap();
    assert_eq!(c.entity_path(), Some("/real/a"));
}

#[test]
fn get_child_with_suffix_selects_by_order() {
    let root = duplicates();
    assert_eq!(root.get_child(&"NAME#0".to_string()).unwrap().entity_path(), Some("/real/a"));
    let second = root.get_child(&"NAME#1".to_string()).unwrap();
    assert_eq!(second.entity_path(), None);
    assert_eq!(second.children_names(), vec!["inner"]);
    assert_eq!(root.get_child(&"NAME#2".to_string()).unwrap().entity_path(), Some("/real/b"));
}

#[test]
fn get_child_reports_how_many_there_are() {
    let root = duplicates();
    let err = root.get_child(&"NAME#3".to_string()).unwrap_err();
    assert_eq!(err.kind, ErrorKind::Ambiguous(3));
    assert_eq!(err.to_string(), "There are only 3 items with name NAME");
    let err = root.get_child(&"other#1".to_string()).unwrap_err();
    assert_eq!(err.kind, ErrorKind::Ambiguous(1));
}

#[test]
fn get_child_of_missing_name_is_not_found() {
    let root = duplicates();
    let err = root.get_child(&"nope".to_string()).unwrap_err();
    assert_eq!(err.kind, ErrorKind::NotFound);
    assert_eq!(err.to_string(), "No such file or directory: nope");
    let err = root.get_child(&"nope#0".to_string()).unwrap_err();
    assert_eq!(err.kind, ErrorKind::NotFound);
}

#[test]
fn get_child_dir_skips_files() {
    let root = duplicates();
    let dir = root.get_child_dir(&"NAME".to_string(), &disk_ab()).unwrap();
    assert_eq!(dir.children_names(), vec!["inner"]);
    // Without the files on the disk the first node of the name is a directory.
    let first = root.get_child_dir(&"NAME".to_string(), &Disk::new()).unwrap();
    assert_eq!(first.entity_path(), Some("/real/a"));
}

#[test]
fn get_child_dir_of_a_file_is_not_found() {
    let mut root = named("r");
    root.add_item(file("f", "/real/a")).unwrap();
    let err = root.get_child_dir(&"f".to_string(), &disk_ab()).unwrap_err();
    assert_eq!(err.kind, ErrorKind::NotFound);
    assert_eq!(err.to_string(), "No directory named f under r");
}

#[test]
fn get_child_mut_changes_the_child_in_place() {
    let mut root = duplicates();
    root.get_child_mut(&"NAME#1".to_string()).unwrap().add_item(named("added")).unwrap();
    let dir = root.get_child(&"NAME#1".to_string()).unwrap();
    assert_eq!(dir.children_names(), vec!["inner", "added"]);
    assert_eq!(root.children_names(), vec!["NAME", "NAME", "other", "NAME"]);
    assert!(root.get_child_mut(&"nope".to_string()).is_err());
}

#[test]
fn get_child_dir_mut_changes_the_directory() {
    let mut root = duplicates();
    let disk = disk_ab();
    root.get_child_dir_mut(&"NAME".to_string(), &disk).unwrap().desc = Some("d".to_string());
    assert_eq!(root.child(1).description(), Some("d"));
    assert_eq!(root.child(0).description(), None);
}

#[test]
fn make_directory_appends_an_empty_node() {
    let mut root = named("r");
    root.make_directory(&"d".to_string(), &Disk::new()).unwrap();
    assert_eq!(root.children_names(), vec!["d"]);
    let d = root.child(0);
    assert_eq!(d.child_count(), 0);
    assert!(d.entity.is_none());
    assert!(d.desc.is_none());
}

#[test]
fn make_directory_rejects_a_directory_of_the_name() {
    let mut root = named("r");
    root.make_directory(&"d".to_string(), &Disk::new()).unwrap();
    let err = root.make_directory(&"d".to_string(), &Disk::new()).unwrap_err();
    assert_eq!(err.kind, ErrorKind::AlreadyExists);
    assert_eq!(err.to_string(), "Directory d already exists.");
    assert_eq!(root.children_names(), vec!["d"]);
}

#[test]
fn make_directory_beside_a_file_of_the_name() {
    let mut root = named("r");
    root.add_item(file("x", "/real/a")).unwrap();
    root.make_directory(&"x".to_string(), &disk_ab()).unwrap();
    assert_eq!(root.children_names(), vec!["x", "x"]);
}

#[test]
fn make_directory_rejects_reserved_characters() {
    let mut root = named("r");
    for name in ["a/b", "a\\b", "a#1", "a|b", "a\"b", "a*", "a?", "<a", "a>", "a:b"] {
        let err = root.make_directory(&name.to_string(), &Disk::new()).unwrap_err();
        assert_eq!(err.kind, ErrorKind::InvalidName, "{}", name);
    }
    assert_eq!(root.child_count(), 0);
}

#[test]
fn remove_child_removes_the_first_of_the_name() {
    let mut root = duplicates();
    root.remove_child(&"NAME".to_string()).unwrap();
    assert_eq!(root.children_names(), vec!["NAME", "other", "NAME"]);
    assert_eq!(root.child(0).entity_path(), None);
    root.remove_child(&"NAME".to_string()).unwrap();
    assert_eq!(root.children_names(), vec!["other", "NAME"]);
    assert_eq!(root.child(1).entity_path(), Some("/real/b"));
}

#[test]
fn remove_child_does_not_read_a_suffix() {
    let mut root = duplicates();
    let err = root.remove_child(&"NAME#1".to_string()).unwrap_err();
    assert_eq!(err.kind, ErrorKind::NotFound);
    assert_eq!(root.child_count(), 4);
}

#[test]
fn add_item_keeps_duplicates_and_order() {
    let mut root = named("r");
    root.add_item(named("a")).unwrap();
    root.add_new_child(&"a".to_string(), "/p".to_string()).unwrap();
    root.add_item(named("b")).unwrap();
    assert_eq!(root.children_names(), vec!["a", "a", "b"]);
    assert_eq!(root.child(1).entity_path(), Some("/p"));
    let names: Vec<String> = root.iter_children_names().into_iter().cloned().collect();
    assert_eq!(names, vec!["a", "a", "b"]);
    assert_eq!(root.iter_children().len(), 3);
}

#[test]
fn entities_lists_files_in_tree_order() {
    // r
    //   ├─ d1
    //   │   ├─ f1 (/1)
    //   │   └─ d2
    //   │       └─ f2 (/2)
    //   ├─ f3 (/3)
    //   │   └─ hidden (/4)
    //   └─ d3
    let mut d2 = named("d2");
    d2.add_item(file("f2", "/2")).unwrap();
    let mut d1 = named("d1");
    d1.add_item(file("f1", "/1")).unwrap();
    d1.add_item(d2).unwrap();
    let mut f3 = file("f3", "/3");
    f3.add_item(file("hidden", "/4")).unwrap();
    let mut root = file("r", "/root");
    root.add_item(d1).unwrap();
    root.add_item(f3).unwrap();
    root.add_item(named("d3")).unwrap();
    let found: Vec<&str> = root.entities().iter().map(|t| t.entity_path().unwrap()).collect();
    assert_eq!(found, vec!["/1", "/2", "/3"]);
    assert_eq!(named("empty").entities().len(), 0);
}

#[test]
fn clone_copies_the_whole_subtree() {
    let root = duplicates();
    let copy = root.clone();
    assert_eq!(copy.to_string(), root.to_string());
    assert_eq!(copy.child(3).entity_path(), Some("/real/b"));
}

#[test]
fn as_mut_is_the_node_itself() {
    let mut root = named("r");
    root.as_mut().name = "s".to_string();
    assert_eq!(root.name, "s");
}

#[test]
fn outline_draws_order_and_depth() {
    let mut d2 = named("d2");
    d2.add_item(named("leaf")).unwrap();
    let mut d1 = named("d1");
    d1.add_item(named("f1")).unwrap();
    d1.add_item(d2).unwrap();
    let mut root = named("r");
    root.add_item(d1).unwrap();
    root.add_item(named("last")).unwrap();
    let expected = "r\n\
        \u{20}\u{20}\u{251c}\u{2500} d1\n\
        \u{20}\u{20}\u{2502}  \u{251c}\u{2500} f1\n\
        \u{20}\u{20}\u{2502}  \u{2514}\u{2500} d2\n\
        \u{20}\u{20}\u{2502}  \u{2502}  \u{2514}\u{2500} leaf\n\
        \u{20}\u{20}\u{2514}\u{2500} last\n";
    assert_eq!(root.to_string(), expected);
}

#[test]
fn outline_of_a_leaf_is_its_name() {
    assert_eq!(named("alone").to_string(), "alone\n");
}

#[test]
fn probe_entities_learns_only_of_mentioned_paths() {
    let mut root = named("r");
    root.add_item(file("gone", "/surely/not/there/vtree-test-file")).unwrap();
    let mut disk = Disk::new();
    disk.add_file("/kept".to_string());
    root.probe_entities(&mut disk);
    assert!(disk.is_file(&"/kept".to_string()));
    assert!(!disk.is_present(&"/surely/not/there/vtree-test-file".to_string()));
    assert!(!disk.is_present(&"/other".to_string()));
}

#[test]
fn get_offspring_walks_down_a_path() {
    let root = duplicates();
    assert_eq!(root.get_offspring(&"NAME#1/inner".to_string()).unwrap().name, "inner");
    assert_eq!(root.get_offspring(&"NAME#1\\inner".to_string()).unwrap().name, "inner");
    assert_eq!(root.get_offspring(&"other".to_string()).unwrap().name, "other");
    let err = root.get_offspring(&"NAME/inner".to_string()).unwrap_err();
    assert_eq!(err.kind, ErrorKind::NotFound);
    let err = root.get_offspring(&"other/..".to_string()).unwrap_err();
    assert_eq!(err.kind, ErrorKind::NotFound);
    let err = root.get_offspring(&"/other".to_string()).unwrap_err();
    assert_eq!(err.kind, ErrorKind::NotFound);
    let err = root.get_offspring(&"NAME#7/inner".to_string()).unwrap_err();
    assert_eq!(err.kind, ErrorKind::Ambiguous(3));
}

#[test]
fn descend_takes_segments() {
    let root = duplicates();
    let segs = vec!["NAME#1".to_string(), "inner".to_string()];
    assert_eq!(root.descend(&segs).unwrap().name, "inner");
    assert_eq!(root.descend(&vec![]).unwrap().name, "root");
    let disk = disk_ab();
    let segs = vec!["NAME".to_string(), "inner".to_string()];
    assert_eq!(root.descend_dirs(&segs, &disk).unwrap().name, "inner");
    let mut root = root;
    root.descend_mut(&vec!["NAME#1".to_string()]).unwrap().name = "renamed".to_string();
    assert_eq!(root.children_names(), vec!["NAME", "renamed", "other", "NAME"]);
    root.descend_dirs_mut(&vec!["renamed".to_string(), "inner".to_string()], &disk)
        .unwrap()
        .desc = Some("deep".to_string());
    assert_eq!(root.get_offspring(&"renamed/inner".to_string()).unwrap().description(), Some("deep"));
}

#[test]
fn set_desc_gives_and_takes_the_description() {
    let mut item = named("x");
    item.set_desc(Some("about x".to_string()));
    assert_eq!(item.description(), Some("about x"));
    item.set_desc(None);
    assert_eq!(item.description(), None);
}

#[test]
fn look_knows_only_the_entities() {
    let mut root = named("r");
    root.add_item(file("gone", "/surely/not/there/vtree-test-file")).unwrap();
    root.add_item(file("top", "/")).unwrap();
    let disk = root.look();
    assert!(disk.is_present(&"/".to_string()));
    assert!(!disk.is_file(&"/".to_string()));
    assert!(!disk.is_present(&"/surely/not/there/vtree-test-file".to_string()));
    assert!(root.child(0).is_dir(&disk));
    assert!(root.child(1).is_dir(&disk));
}
