use mini_shell::listing::{
    hidden_name, list, name_not_after, parse_flags, reversed, select_visible, sort_by_name,
    ListOptions,
};
use mini_shell::metadata::{FileInfo, FileMeta};

fn plain_meta(is_dir: bool) -> FileMeta {
    FileMeta { is_dir, mode: 0o644, nlink: 1, uid: 0, gid: 0, size: 0, modified: 0 }
}

fn file(name: &str) -> FileInfo {
    FileInfo::new(name.to_string(), plain_meta(false))
}

fn sized(name: &str, size: u64) -> FileInfo {
    let mut meta = plain_meta(false);
    meta.size = size;
    FileInfo::new(name.to_string(), meta)
}

fn names(entries: &Vec<FileInfo>) -> Vec<String> {
    entries.iter().map(|e| e.name.clone()).collect()
}

fn flags(words: &[&str]) -> ListOptions {
    parse_flags(&words.iter().map(|w| w.to_string()).collect())
}

fn snapshot() -> Vec<FileInfo> {
    vec![file("b.txt"), file(".hidden"), file("a.txt"), file("Zeta"), file("dir"), file("-x")]
}

fn pseudo() -> Option<(FileMeta, FileMeta)> {
    Some((plain_meta(true), plain_meta(true)))
}

#[test]
fn parse_flags_reads_each_flag() {
    assert_eq!(flags(&[]), ListOptions { show_hidden: false, reverse: false, long_format: false });
    assert_eq!(flags(&["-a"]), ListOptions { show_hidden: true, reverse: false, long_format: false });
    assert_eq!(flags(&["-r"]), ListOptions { show_hidden: false, reverse: true, long_format: false });
    assert_eq!(flags(&["-l"]), ListOptions { show_hidden: false, reverse: false, long_format: true });
}

#[test]
fn parse_flags_takes_any_order_and_passes_over_the_rest() {
    let all = ListOptions { show_hidden: true, reverse: true, long_format: true };
    assert_eq!(flags(&["-l", "-a", "-r"]), all);
    assert_eq!(flags(&["-r", "--color", "-l", "x", "-a", "-a"]), all);
    assert_eq!(flags(&["-al", "-x", "a", "-A"]), ListOptions { show_hidden: false, reverse: false, long_format: false });
}

#[test]
fn hidden_names_begin_with_a_dot() {
    assert!(hidden_name(".git"));
    assert!(hidden_name("."));
    assert!(!hidden_name("a.b"));
    assert!(!hidden_name(""));
}

#[test]
fn select_visible_keeps_the_order() {
    assert_eq!(names(&select_visible(&snapshot(), false)), vec!["b.txt", "a.txt", "Zeta", "dir", "-x"]);
    assert_eq!(names(&select_visible(&snapshot(), true)), vec!["b.txt", ".hidden", "a.txt", "Zeta", "dir", "-x"]);
}

#[test]
fn names_are_ordered_by_code_point() {
    assert!(name_not_after("a", "b"));
    assert!(!name_not_after("b", "a"));
    assert!(name_not_after("a", "a"));
    assert!(name_not_after("a", "ab"));
    assert!(!name_not_after("ab", "a"));
    assert!(name_not_after("", "a"));
    assert!(name_not_after("Z", "a"));
    assert!(name_not_after("-x", "."));
    assert!(name_not_after("z", "é"));
    assert!(name_not_after("é", "中"));
}

#[test]
fn name_order_agrees_with_std() {
    let pool = ["", "a", "A", "ab", "b", ".", "..", "-x", "é", "中", "😀", "\u{FFFF}", "a b"];
    for x in pool {
        for y in pool {
            assert_eq!(name_not_after(x, y), x <= y, "{:?} {:?}", x, y);
        }
    }
}

#[test]
fn sort_by_name_is_ascending() {
    assert_eq!(names(&sort_by_name(&snapshot())), vec!["-x", ".hidden", "Zeta", "a.txt", "b.txt", "dir"]);
    assert_eq!(names(&sort_by_name(&vec![])), Vec::<String>::new());
}

#[test]
fn sort_by_name_keeps_equal_names_in_their_order() {
    let sorted = sort_by_name(&vec![sized("b", 1), sized("a", 2), sized("b", 3), sized("a", 4)]);
    let got: Vec<(String, u64)> = sorted.iter().map(|e| (e.name.clone(), e.metadata.size)).collect();
    assert_eq!(got, vec![("a".to_string(), 2), ("a".to_string(), 4), ("b".to_string(), 1), ("b".to_string(), 3)]);
}

#[test]
fn reversed_turns_the_entries_round() {
    assert_eq!(names(&reversed(&vec![file("a"), file("b"), file("c")])), vec!["c", "b", "a"]);
}

#[test]
fn list_without_hidden_shows_no_dot_names() {
    let shown = list(&flags(&[]), &snapshot(), &None);
    assert_eq!(names(&shown), vec!["-x", "Zeta", "a.txt", "b.txt", "dir"]);
    assert!(shown.iter().all(|e| !e.name.starts_with('.')));
}

#[test]
fn list_with_hidden_begins_with_the_pseudo_entries() {
    let shown = list(&flags(&["-a"]), &snapshot(), &pseudo());
    assert_eq!(names(&shown), vec![".", "..", "-x", ".hidden", "Zeta", "a.txt", "b.txt", "dir"]);
    assert!(shown[0].metadata.is_dir && shown[1].metadata.is_dir);
}

#[test]
fn list_takes_the_pseudo_metadata_as_given() {
    let mut here = plain_meta(true);
    here.size = 11;
    let mut parent = plain_meta(true);
    parent.size = 22;
    let shown = list(&flags(&["-a"]), &vec![], &Some((here, parent)));
    assert_eq!(names(&shown), vec![".", ".."]);
    assert_eq!(shown[0].metadata.size, 11);
    assert_eq!(shown[1].metadata.size, 22);
}

#[test]
fn list_reversed_is_the_listing_turned_round() {
    for words in [vec![], vec!["-a"], vec!["-l"], vec!["-a", "-l"]] {
        let mut forward = list(&flags(&words), &snapshot(), &pseudo());
        let mut with_r = words.clone();
        with_r.push("-r");
        let backward = list(&flags(&with_r), &snapshot(), &pseudo());
        forward.reverse();
        assert_eq!(backward, forward);
    }
}

#[test]
fn list_reversed_with_hidden_ends_with_the_pseudo_entries() {
    let shown = list(&flags(&["-a", "-r"]), &snapshot(), &pseudo());
    assert_eq!(names(&shown), vec!["dir", "b.txt", "a.txt", "Zeta", ".hidden", "-x", "..", "."]);
}

#[test]
fn list_of_an_empty_directory() {
    assert_eq!(list(&flags(&[]), &vec![], &None), vec![]);
    assert_eq!(list(&flags(&["-r"]), &vec![], &None), vec![]);
}

#[test]
fn list_passes_over_pseudo_metadata_without_hidden() {
    assert_eq!(names(&list(&flags(&[]), &vec![file("a")], &pseudo())), vec!["a"]);
}
