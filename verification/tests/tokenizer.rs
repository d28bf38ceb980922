use myshell::tokenizer::{longest_common_prefix, split_commands, tokenize_input};

fn strings(v: &[&str]) -> Vec<String> {
    v.iter().map(|s| s.to_string()).collect()
}

#[test]
fn tokenize_plain_words() {
    assert_eq!(tokenize_input("echo hello   world".to_string()), strings(&["echo", "hello", "world"]));
}

#[test]
fn tokenize_empty_and_spaces() {
    assert!(tokenize_input(String::new()).is_empty());
    assert!(tokenize_input("    ".to_string()).is_empty());
}

#[test]
fn tokenize_single_quotes_keep_everything() {
    assert_eq!(
        tokenize_input("echo 'a  b\\n \"c\"'".to_string()),
        strings(&["echo", "a  b\\n \"c\""])
    );
}

#[test]
fn tokenize_double_quotes_and_escapes() {
    // Inside double quotes a backslash only escapes `\` and `"`.
    assert_eq!(
        tokenize_input("echo \"a \\\"b\\\" \\n\"".to_string()),
        strings(&["echo", "a \"b\" \\n"])
    );
    // Outside quotes a backslash escapes any character.
    assert_eq!(tokenize_input("a\\ b c\\\\d".to_string()), strings(&["a b", "c\\d"]));
}

#[test]
fn tokenize_adjacent_quotes_join() {
    assert_eq!(tokenize_input("'hello''world' \"x\"'y'".to_string()), strings(&["helloworld", "xy"]));
}

#[test]
fn tokenize_empty_quotes_give_no_word() {
    assert_eq!(tokenize_input("a '' b".to_string()), strings(&["a", "b"]));
}

#[test]
fn tokenize_trailing_backslash_is_dropped() {
    assert_eq!(tokenize_input("ab\\".to_string()), strings(&["ab"]));
}

#[test]
fn tokenize_joined_plain_words_roundtrip() {
    let words = strings(&["ls", "-la", "/tmp"]);
    assert_eq!(tokenize_input(words.join(" ")), words);
}

#[test]
fn split_on_bars() {
    let out = split_commands(strings(&["ls", "-l", "|", "wc", "-l"]));
    assert_eq!(out, vec![strings(&["ls", "-l"]), strings(&["wc", "-l"])]);
}

#[test]
fn split_keeps_empty_inner_stage_drops_empty_last() {
    let out = split_commands(strings(&["|", "a", "|", "|", "b", "|"]));
    assert_eq!(out, vec![strings(&[]), strings(&["a"]), strings(&[]), strings(&["b"])]);
    assert!(split_commands(Vec::new()).is_empty());
}

#[test]
fn split_quoted_bar_still_separates() {
    // Quoting does not mark a word: a quoted `|` separates stages too.
    let out = split_commands(tokenize_input("echo '|' | cat".to_string()));
    assert_eq!(out, vec![strings(&["echo"]), strings(&[]), strings(&["cat"])]);
}

#[test]
fn common_prefix_of_words() {
    assert_eq!(longest_common_prefix(&strings(&["history", "help", "hello"])), "h");
    assert_eq!(longest_common_prefix(&strings(&["echo", "echoes"])), "echo");
    assert_eq!(longest_common_prefix(&strings(&["cd", "pwd"])), "");
    assert_eq!(longest_common_prefix(&strings(&["only"])), "only");
    assert_eq!(longest_common_prefix(&[]), "");
}

#[test]
fn common_prefix_of_multibyte_words() {
    assert_eq!(longest_common_prefix(&strings(&["héllo", "hélp"])), "hél");
}

#[test]
fn unquoted_bar_is_a_word() {
    assert_eq!(tokenize_input("ls|wc -l".to_string()), strings(&["ls", "|", "wc", "-l"]));
    assert_eq!(tokenize_input("a|b|c".to_string()), strings(&["a", "|", "b", "|", "c"]));
    assert_eq!(tokenize_input("echo 'a|b'".to_string()), strings(&["echo", "a|b"]));
    assert_eq!(tokenize_input("echo \"x|y\"".to_string()), strings(&["echo", "x|y"]));
    assert_eq!(
        split_commands(tokenize_input("ls|wc -l".to_string())),
        vec![strings(&["ls"]), strings(&["wc", "-l"])]
    );
}
