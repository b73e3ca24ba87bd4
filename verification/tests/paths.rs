use vtree::path::PathVector;
use vtree::realpath::{get_json_path, join_paths, resolve_path, unique_backing_path};
use vtree::disk::Disk;

fn strings(v: &[&str]) -> Vec<String> {
    v.iter().map(|s| s.to_string()).collect()
}

#[test]
fn path_from_string_splits_on_both_separators() {
    assert_eq!(PathVector::from_string("a/b\\c".to_string()).path, strings(&["a", "b", "c"]));
    assert_eq!(PathVector::from_string("".to_string()).path, strings(&[""]));
    assert_eq!(PathVector::from_string("/a//b/".to_string()).path, strings(&["", "a", "", "b", ""]));
    assert_eq!(PathVector::from_string("../x".to_string()).path, strings(&["..", "x"]));
}

#[test]
fn path_to_string_joins_with_slashes() {
    assert_eq!(PathVector::new().to_string(), "");
    assert_eq!(PathVector::from_vec(strings(&["a"])).to_string(), "a");
    assert_eq!(PathVector::from_vec(strings(&["a", "b", "c"])).to_string(), "a/b/c");
    assert_eq!(PathVector::from_string("a\\b".to_string()).to_string(), "a/b");
}

#[test]
fn path_join_appends() {
    let a = PathVector::from_vec(strings(&["a"]));
    let p = a.join_str("b".to_string());
    assert_eq!(p.path, strings(&["a", "b"]));
    assert_eq!(a.path, strings(&["a"]));
    let q = p.join_path(&PathVector::from_vec(strings(&["c", "d"])));
    assert_eq!(q.path, strings(&["a", "b", "c", "d"]));
    assert_eq!(p.path, strings(&["a", "b"]));
    assert_eq!(p.clone().path, p.path);
}

#[test]
fn path_pops_clamps_at_the_root() {
    let mut p = PathVector::from_vec(strings(&["a", "b", "c"]));
    p.pops(0);
    assert_eq!(p.path, strings(&["a", "b", "c"]));
    p.pops(2);
    assert_eq!(p.path, strings(&["a"]));
    p.pops(5);
    assert_eq!(p.path, Vec::<String>::new());
    p.pops(usize::MAX);
    assert_eq!(p.path, Vec::<String>::new());
}

#[test]
fn resolve_path_joins_relative_paths_to_the_working_directory() {
    assert_eq!(resolve_path("./a/b.txt", "/home/u"), "/home/u/a/b.txt");
    assert_eq!(resolve_path("/a/b.txt", "/home/u"), "/home/u/a/b.txt");
    assert_eq!(resolve_path("./a", "/home/u/"), "/home/u/a");
    assert_eq!(resolve_path(".hidden", "/home/u"), "/home/u/.hidden");
    assert_eq!(resolve_path("../a", "/home/u"), "/home/u/../a");
    assert_eq!(resolve_path(".", "/home/u"), "/home/u/.");
    assert_eq!(resolve_path("./", "/home/u"), "/home/u/");
    assert_eq!(resolve_path("//a", "/home/u"), "/a");
}

#[test]
fn resolve_path_leaves_other_paths_alone() {
    assert_eq!(resolve_path("a/b.txt", "/home/u"), "a/b.txt");
    assert_eq!(resolve_path("C:/x", "/home/u"), "C:/x");
    assert_eq!(resolve_path("", "/home/u"), "");
    assert_eq!(resolve_path("ls", "/home/u"), "ls");
}

#[test]
fn join_paths_puts_one_slash_between() {
    assert_eq!(join_paths("/a", "b"), "/a/b");
    assert_eq!(join_paths("/a/", "b"), "/a/b");
    assert_eq!(join_paths("", "b"), "b");
    assert_eq!(join_paths("/a", "/b"), "/b");
    assert_eq!(join_paths("/a", ""), "/a/");
}

#[test]
fn json_path_lies_under_trees() {
    assert_eq!(get_json_path("/w/.vtree", &"default".to_string()), "/w/.vtree/trees/default.json");
    assert_eq!(get_json_path("./.vtree/", &"x".to_string()), "./.vtree/trees/x.json");
}

#[test]
fn unique_backing_path_counts_from_zero() {
    let candidate = "./.vtree/virtual-files/new.txt".to_string();
    let mut disk = Disk::new();
    let first = unique_backing_path(&candidate, &disk).unwrap();
    assert_eq!(first, "./.vtree/virtual-files/new-0.txt");
    disk.add_file(first);
    let second = unique_backing_path(&candidate, &disk).unwrap();
    assert_eq!(second, "./.vtree/virtual-files/new-1.txt");
    disk.add_other(second);
    let third = unique_backing_path(&candidate, &disk).unwrap();
    assert_eq!(third, "./.vtree/virtual-files/new-2.txt");
}

#[test]
fn unique_backing_path_takes_the_first_gap() {
    let candidate = "d/new.txt".to_string();
    let mut disk = Disk::new();
    disk.add_file("d/new-0.txt".to_string());
    disk.add_file("d/new-2.txt".to_string());
    assert_eq!(unique_backing_path(&candidate, &disk).unwrap(), "d/new-1.txt");
}

#[test]
fn unique_backing_path_counts_past_nine() {
    let candidate = "n.txt".to_string();
    let mut disk = Disk::new();
    for k in 0..12 {
        disk.add_file(format!("n-{}.txt", k));
    }
    assert_eq!(unique_backing_path(&candidate, &disk).unwrap(), "n-12.txt");
}

#[test]
fn unique_backing_path_finds_stem_and_extension() {
    let disk = Disk::new();
    assert_eq!(unique_backing_path(&"a/b.tar.gz".to_string(), &disk).unwrap(), "a/b.tar-0.gz");
    assert_eq!(unique_backing_path(&"a/noext".to_string(), &disk).unwrap(), "a/noext-0");
    assert_eq!(unique_backing_path(&"a/.hidden".to_string(), &disk).unwrap(), "a/.hidden-0");
    assert_eq!(unique_backing_path(&"a.b/c".to_string(), &disk).unwrap(), "a.b/c-0");
    assert_eq!(unique_backing_path(&"plain.md".to_string(), &disk).unwrap(), "plain-0.md");
    assert_eq!(unique_backing_path(&"a\\b.txt".to_string(), &disk).unwrap(), "a\\b-0.txt");
    assert_eq!(unique_backing_path(&"dir/".to_string(), &disk).unwrap(), "dir/-0");
    assert_eq!(unique_backing_path(&"end.".to_string(), &disk).unwrap(), "end-0.");
}

#[test]
fn disk_records_files_and_other_things() {
    let mut disk = Disk::new();
    assert!(!disk.is_present(&"/a".to_string()));
    disk.add_other("/a".to_string());
    assert!(disk.is_present(&"/a".to_string()));
    assert!(!disk.is_file(&"/a".to_string()));
    disk.add_file("/b".to_string());
    assert!(disk.is_present(&"/b".to_string()));
    assert!(disk.is_file(&"/b".to_string()));
    assert!(!disk.is_file(&"/b/".to_string()));
}

#[test]
fn disk_probe_of_a_missing_path_records_nothing() {
    let mut disk = Disk::new();
    disk.probe(&"/surely/not/there/vtree-test-path".to_string());
    assert!(!disk.is_present(&"/surely/not/there/vtree-test-path".to_string()));
}

#[test]
fn disk_probe_finds_the_root_directory() {
    let mut disk = Disk::new();
    disk.probe(&"/".to_string());
    assert!(disk.is_present(&"/".to_string()));
    assert!(!disk.is_file(&"/".to_string()));
}

#[test]
fn disk_record_keeps_each_answer_apart() {
    let mut disk = Disk::new();
    disk.record("/nothing".to_string(), false, false);
    assert!(!disk.is_present(&"/nothing".to_string()));
    disk.record("/dir".to_string(), false, true);
    assert!(disk.is_present(&"/dir".to_string()));
    assert!(!disk.is_file(&"/dir".to_string()));
    disk.record("/file".to_string(), true, true);
    assert!(disk.is_present(&"/file".to_string()));
    assert!(disk.is_file(&"/file".to_string()));
    // A regular file is there, whatever the second answer says.
    disk.record("/odd".to_string(), true, false);
    assert!(disk.is_present(&"/odd".to_string()));
    assert!(disk.is_file(&"/odd".to_string()));
    // What was recorded before stays.
    disk.record("/file".to_string(), false, false);
    assert!(disk.is_file(&"/file".to_string()));
}
