use tish::tokenizer::Tokenizer;

fn all(t: &mut Tokenizer) -> Vec<String> {
    let mut v = Vec::new();
    while let Some(w) = t.next() {
        v.push(w);
    }
    v
}

#[test]
fn quoted_spans_are_single_words() {
    let mut t = Tokenizer::new("\"hello  world\" 'a b c'");
    assert_eq!(all(&mut t), vec!["\"hello  world\"".to_string(), "'a b c'".to_string()]);
}

#[test]
fn plain_words_split_on_runs_of_spaces() {
    let mut t = Tokenizer::new("  ls   -la\t/tmp  ");
    assert_eq!(all(&mut t), vec!["ls", "-la", "/tmp"]);
    assert!(t.is_empty());
}

#[test]
fn unterminated_quote_runs_to_end() {
    let mut t = Tokenizer::new("echo \"a b c");
    assert_eq!(all(&mut t), vec!["echo", "\"a b c"]);
}

#[test]
fn peek_does_not_consume() {
    let mut t = Tokenizer::new("one two");
    assert_eq!(t.peek(), "one");
    assert_eq!(t.peek(), "one");
    assert_eq!(t.next(), Some("one".to_string()));
    assert_eq!(t.peek(), "two");
    t.next();
    assert_eq!(t.peek(), "");
    assert!(t.is_empty());
    assert_eq!(t.next(), None);
}

#[test]
fn get_args_stops_at_and_separator() {
    let mut t = Tokenizer::new("a b && c d");
    assert_eq!(t.get_args(), vec!["a", "b"]);
    assert_eq!(t.get_args(), vec!["c", "d"]);
    assert!(t.is_empty());
}

#[test]
fn redirection_detected_only_as_own_word() {
    assert!(Tokenizer::new("cmd > out").has_redirection());
    assert!(Tokenizer::new("cmd < in").has_redirection());
    assert!(Tokenizer::new("cmd >> out").has_redirection());
    assert!(!Tokenizer::new("cmd a>b").has_redirection());
    assert!(!Tokenizer::new("cmd '>' b").has_redirection());
}

#[test]
fn args_before_redirection_leaves_operator() {
    let mut t = Tokenizer::new("cmd -x a > out.txt");
    assert_eq!(t.args_before_redirection(), vec!["cmd", "-x", "a"]);
    assert_eq!(t.peek(), ">");
}

#[test]
fn args_before_redirection_without_operator_is_get_args() {
    let mut t = Tokenizer::new("a b && c");
    assert_eq!(t.args_before_redirection(), vec!["a", "b"]);
    assert_eq!(t.peek(), "c");
}

#[test]
fn empty_line_has_no_words() {
    let t = Tokenizer::new("   ");
    assert!(t.is_empty());
    assert_eq!(t.peek(), "");
}

#[test]
fn unicode_whitespace_separates_words() {
    let mut t = Tokenizer::new("a\u{0C}b\u{A0}c\u{3000}d");
    assert_eq!(all(&mut t), vec!["a", "b", "c", "d"]);
}

#[test]
fn line_of_quoted_spans_gives_one_word_each() {
    let mut t = Tokenizer::new("\"a  b\" 'c\td' \"e f g\"");
    assert_eq!(all(&mut t), vec!["\"a  b\"", "'c\td'", "\"e f g\""]);
}
