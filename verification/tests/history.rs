use myshell::history_helper::History;

#[test]
fn listing_numbers_entries() {
    let mut h = History::new();
    h.add_command("ls".to_string());
    h.add_command("pwd".to_string());
    h.add_command("echo hi".to_string());
    assert_eq!(h.print(None), "\t1  ls\n\t2  pwd\n\t3  echo hi\n");
    assert_eq!(h.print(Some(2)), "\t2  pwd\n\t3  echo hi\n");
    assert_eq!(h.print(Some(10)), "\t1  ls\n\t2  pwd\n\t3  echo hi\n");
    assert_eq!(h.print(Some(0)), "");
}

#[test]
fn listing_numbers_past_nine() {
    let mut h = History::new();
    for i in 0..12 {
        h.add_command(format!("c{}", i));
    }
    assert_eq!(h.print(Some(2)), "\t11  c10\n\t12  c11\n");
}

#[test]
fn write_then_read_back() {
    let mut h = History::new();
    h.add_command("ls -l".to_string());
    h.add_command("".to_string());
    h.add_command("echo 'x'".to_string());
    let text = h.write_all();
    assert_eq!(text, "ls -l\n\necho 'x'\n");
    let mut g = History::new();
    g.read_from_file(&text);
    assert_eq!(g.write_all(), text);
}

#[test]
fn read_handles_crlf_and_missing_final_newline() {
    let mut h = History::new();
    h.read_from_file("a\r\nb\n\nc\r");
    assert_eq!(h.print(None), "\t1  a\n\t2  b\n\t3  \n\t4  c\r\n");
    let mut e = History::new();
    e.read_from_file("");
    assert_eq!(e.print(None), "");
}

#[test]
fn read_lines_are_not_new() {
    let mut h = History::new();
    h.read_from_file("old\n");
    h.add_command("new".to_string());
    assert_eq!(h.append_new(), "new\n");
    assert_eq!(h.append_new(), "");
    assert_eq!(h.write_all(), "old\nnew\n");
}

#[test]
fn appending_in_pieces_equals_writing_once() {
    let mut h = History::new();
    h.add_command("a".to_string());
    let first = h.append_new();
    h.add_command("b".to_string());
    h.add_command("c".to_string());
    let second = h.append_new();
    assert_eq!(format!("{}{}", first, second), h.write_all());
}
