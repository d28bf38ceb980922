use myshell::external::{candidates, command_not_found, first_found, join_dir, path_dirs};
use myshell::text::parse_usize;

#[test]
fn parse_like_std() {
    for s in ["0", "42", "+7", "007", "", "+", "-1", "1a", " 1", "18446744073709551615", "18446744073709551616", "99999999999999999999999"] {
        assert_eq!(parse_usize(s), s.parse::<usize>().ok(), "{}", s);
    }
}

#[test]
fn path_pieces() {
    assert_eq!(path_dirs("/bin:/usr/bin"), vec!["/bin", "/usr/bin"]);
    assert_eq!(path_dirs(""), vec![""]);
    assert_eq!(path_dirs("a::b:"), vec!["a", "", "b", ""]);
}

#[test]
fn joined_paths_like_std() {
    for (d, n) in [("/bin", "ls"), ("/bin/", "ls"), ("", "ls"), ("/bin", "/usr/bin/env"), ("/bin", "")] {
        let expect = std::path::Path::new(d).join(n).display().to_string();
        assert_eq!(join_dir(d, n), expect, "{} {}", d, n);
    }
}

#[test]
fn candidate_paths() {
    assert_eq!(candidates("/bin:/usr/bin/:", "ls"), vec!["/bin/ls", "/usr/bin/ls", "ls"]);
    assert_eq!(command_not_found("frob"), "frob: command not found\n");
}

#[test]
fn path_pieces_join_back() {
    for p in ["/bin:/usr/bin", "", ":", "a::b:", "/only"] {
        assert_eq!(path_dirs(p).join(":"), p);
    }
}

#[test]
fn joined_words() {
    let v: Vec<String> = vec!["a".into(), "bc".into(), "".into()];
    assert_eq!(myshell::text::join(&v, ", "), "a, bc, ");
    assert_eq!(myshell::text::join(&Vec::new(), ", "), "");
}

#[test]
fn first_found_takes_first_flagged() {
    let paths: Vec<String> = ["/a/ls", "/b/ls", "/c/ls"].iter().map(|s| s.to_string()).collect();
    assert_eq!(first_found(&paths, &vec![false, true, true]), Some("/b/ls".to_string()));
    assert_eq!(first_found(&paths, &vec![true, true, false]), Some("/a/ls".to_string()));
    assert_eq!(first_found(&paths, &vec![false, false, false]), None);
    assert_eq!(first_found(&Vec::new(), &Vec::new()), None);
}
