use myshell::helper::{MyHelper, Scan};

fn strings(v: &[&str]) -> Vec<String> {
    v.iter().map(|s| s.to_string()).collect()
}

fn helper() -> MyHelper {
    MyHelper::new(strings(&["exit", "echo", "type", "pwd", "cd", "history", "help"]))
}

#[test]
fn matches_are_sorted_and_unique() {
    let h = helper();
    let execs = strings(&["ech", "hexdump", "echo", "zip", "head"]);
    assert_eq!(h.find_matches("e", &execs), strings(&["ech", "echo", "exit"]));
    assert_eq!(h.find_matches("h", &execs), strings(&["head", "help", "hexdump", "history"]));
    assert_eq!(h.find_matches("q", &execs), strings(&[]));
}

#[test]
fn single_match_completes_with_space() {
    let mut h = helper();
    assert!(matches!(h.what_to_scan("hi"), Scan::Executables));
    let c = h.complete("hi", &strings(&["ls"]));
    assert_eq!(c.candidates, strings(&["history "]));
    assert_eq!(c.display, "");
}

#[test]
fn no_match_offers_nothing() {
    let mut h = helper();
    let c = h.complete("zz", &strings(&["ls"]));
    assert!(c.candidates.is_empty());
    assert_eq!(c.display, "");
}

#[test]
fn shared_prefix_is_offered() {
    let mut h = helper();
    let c = h.complete("hi", &strings(&["histogram"]));
    assert_eq!(c.candidates, strings(&["histo"]));
    assert_eq!(c.display, "");
}

#[test]
fn ambiguous_prefix_rings_then_lists() {
    let mut h = helper();
    let c = h.complete("e", &strings(&[]));
    assert!(c.candidates.is_empty());
    assert_eq!(c.display, "\u{7}");
    assert!(matches!(h.what_to_scan("e"), Scan::Nothing));
    let c = h.complete("e", &strings(&[]));
    assert!(c.candidates.is_empty());
    assert_eq!(c.display, "\necho  exit\n$ e");
    let c = h.complete("e", &strings(&[]));
    assert_eq!(c.display, "\necho  exit\n$ e");
    // A new prefix starts the count again.
    let c = h.complete("h", &strings(&[]));
    assert!(c.candidates.is_empty());
    assert_eq!(c.display, "\u{7}");
}

#[test]
fn empty_line_at_start_offers_nothing() {
    let mut h = helper();
    assert!(matches!(h.what_to_scan(""), Scan::Nothing));
    let c = h.complete("", &strings(&["ls"]));
    assert!(c.candidates.is_empty());
    assert_eq!(c.display, "");
}

fn scan_dir(h: &MyHelper, prefix: &str) -> Option<String> {
    match h.what_to_scan(prefix) {
        Scan::Directory(d) => Some(d),
        _ => None,
    }
}

#[test]
fn what_to_scan_for_paths() {
    let h = helper();
    assert_eq!(scan_dir(&h, "cat REA"), Some(".".to_string()));
    assert_eq!(scan_dir(&h, "cat src/ma"), Some("src/".to_string()));
    assert_eq!(scan_dir(&h, "ls /usr/lo"), Some("/usr/".to_string()));
    assert_eq!(scan_dir(&h, "./scr"), Some("./".to_string()));
    assert!(matches!(h.what_to_scan("ls | gr"), Scan::Executables));
    assert!(matches!(h.what_to_scan("ls|gr"), Scan::Executables));
    assert!(matches!(h.what_to_scan("  ec"), Scan::Executables));
}

#[test]
fn path_completes_current_word() {
    let mut h = helper();
    let c = h.complete("cat REA", &strings(&["README.md", "src/", "Cargo.toml"]));
    assert_eq!(c.candidates, strings(&["cat README.md "]));
    assert_eq!(c.display, "");
    let c = h.complete("cat s", &strings(&["README.md", "src/", "Cargo.toml"]));
    assert_eq!(c.candidates, strings(&["cat src/"]));
    let c = h.complete("cat src/ma", &strings(&["main.rs", "lib.rs"]));
    assert_eq!(c.candidates, strings(&["cat src/main.rs "]));
    // A builtin name is no path: `cat ec` does not offer `echo`.
    let c = h.complete("cat ec", &strings(&["file"]));
    assert!(c.candidates.is_empty());
}

#[test]
fn path_shared_prefix_and_listing() {
    let mut h = helper();
    let entries = strings(&["notes_a.txt", "notes_b.txt", "other"]);
    let c = h.complete("cat no", &entries);
    assert_eq!(c.candidates, strings(&["cat notes_"]));
    let c = h.complete("cat notes_", &entries);
    assert!(c.candidates.is_empty());
    assert_eq!(c.display, "\u{7}");
    let c = h.complete("cat notes_", &strings(&[]));
    assert_eq!(c.display, "\nnotes_a.txt  notes_b.txt\n$ cat notes_");
}

#[test]
fn command_after_bar_completes() {
    let mut h = helper();
    let c = h.complete("ls | hi", &strings(&["ls"]));
    assert_eq!(c.candidates, strings(&["ls | history "]));
}

#[test]
fn repeated_builtin_names_count_once() {
    let mut h = MyHelper::new(strings(&["echo", "exit", "echo"]));
    let c = h.complete("ech", &strings(&[]));
    assert_eq!(c.candidates, strings(&["echo "]));
    assert_eq!(h.find_matches("e", &strings(&["echo"])), strings(&["echo", "exit"]));
}
