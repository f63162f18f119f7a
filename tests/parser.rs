use tish::command::TishCommand;
use tish::env::Environment;

fn env() -> Environment {
    Environment {
        vars: vec![("HOME".to_string(), "/home/me".to_string()), ("NAME".to_string(), "world".to_string())],
        home: Some("/home/me".to_string()),
        user_homes: vec![("bob".to_string(), "/home/bob".to_string())],
    }
}

fn stages(c: &TishCommand) -> Vec<&TishCommand> {
    let mut v = vec![c];
    let mut cur = c;
    while let Some(next) = &cur.pipe_to {
        v.push(next);
        cur = next;
    }
    v
}

#[test]
fn redirect_out_round_trip() {
    let r = TishCommand::parse("cmd -x a > out.txt", &env());
    assert_eq!(r.len(), 1);
    assert_eq!(r[0].program, "cmd");
    assert_eq!(r[0].args(), &vec!["-x".to_string(), "a".to_string()]);
    assert_eq!(r[0].redirect_out, Some(("out.txt".to_string(), false)));
    assert_eq!(r[0].redirect_in, None);
}

#[test]
fn redirect_append() {
    let r = TishCommand::parse("cmd >> out.txt", &env());
    assert_eq!(r[0].program, "cmd");
    assert!(r[0].args().is_empty());
    assert_eq!(r[0].redirect_out, Some(("out.txt".to_string(), true)));
}

#[test]
fn redirect_in_and_out() {
    let r = TishCommand::parse("sort < in.txt > out.txt", &env());
    assert_eq!(r[0].program, "sort");
    assert_eq!(r[0].redirect_in, Some("in.txt".to_string()));
    assert_eq!(r[0].redirect_out, Some(("out.txt".to_string(), false)));
}

#[test]
fn pipeline_stage_count() {
    let r = TishCommand::parse("cat f | grep x | wc -l", &env());
    assert_eq!(r.len(), 1);
    let s = stages(&r[0]);
    assert_eq!(s.len(), 3);
    assert_eq!(s[0].program, "cat");
    assert_eq!(s[1].program, "grep");
    assert_eq!(s[2].program, "wc");
    assert_eq!(s[2].args(), &vec!["-l".to_string()]);
}

#[test]
fn quoted_pipe_does_not_split() {
    let r = TishCommand::parse("echo 'a|b' | cat", &env());
    assert_eq!(stages(&r[0]).len(), 2);
    assert_eq!(r[0].args(), &vec!["'a|b'".to_string()]);
}

#[test]
fn trailing_ampersand_sets_background() {
    let r = TishCommand::parse("sleep 5 &", &env());
    assert!(r[0].is_background());
    assert_eq!(r[0].program, "sleep");
    assert_eq!(r[0].args(), &vec!["5".to_string()]);
}

#[test]
fn trailing_ampersand_on_last_stage_marks_head() {
    let r = TishCommand::parse("yes | head -n 1 &", &env());
    let s = stages(&r[0]);
    assert!(r[0].is_background());
    assert!(!s[1].is_background());
    assert_eq!(s[1].args(), &vec!["-n".to_string(), "1".to_string()]);
}

#[test]
fn ampersand_mid_line_is_an_argument() {
    let r = TishCommand::parse("echo & done", &env());
    assert!(!r[0].is_background());
    assert_eq!(r[0].args(), &vec!["&".to_string(), "done".to_string()]);
}

#[test]
fn and_statements_are_independent() {
    let r = TishCommand::parse("false && echo unreachable", &env());
    assert_eq!(r.len(), 2);
    assert_eq!(r[0].program, "false");
    assert_eq!(r[1].program, "echo");
    assert_eq!(r[1].args(), &vec!["unreachable".to_string()]);
}

#[test]
fn blank_statements_dropped() {
    assert!(TishCommand::parse("   ", &env()).is_empty());
    assert_eq!(TishCommand::parse("&& ls &&  && pwd", &env()).len(), 2);
}

#[test]
fn blank_pipeline_is_empty_command() {
    let r = TishCommand::parse("|", &env());
    assert_eq!(r.len(), 1);
    assert_eq!(r[0].program, "");
    assert!(r[0].args().is_empty());
}

#[test]
fn variables_and_home_expand() {
    let r = TishCommand::parse("echo $NAME ${NAME}! ~/src ~bob $MISSING", &env());
    assert_eq!(
        r[0].args(),
        &vec!["world".to_string(), "world!".to_string(), "/home/me/src".to_string(), "/home/bob/".to_string()]
    );
}

#[test]
fn blank_statement_of_form_feed_dropped() {
    assert_eq!(TishCommand::parse("a && \u{0C}", &env()).len(), 1);
}

#[test]
fn output_redirection_only_on_last_stage() {
    let r = TishCommand::parse("a > f | b > g", &env());
    let s = stages(&r[0]);
    assert_eq!(s.len(), 2);
    assert_eq!(s[0].redirect_out, None);
    assert_eq!(s[1].redirect_out, Some(("g".to_string(), false)));
    let r2 = TishCommand::parse("a < in | b", &env());
    assert_eq!(r2[0].redirect_in, Some("in".to_string()));
}

#[test]
fn plain_statement_trailing_ampersand() {
    let r = TishCommand::parse("run a b &", &env());
    assert_eq!(r.len(), 1);
    assert!(r[0].pipe_to.is_none());
    assert_eq!(r[0].program, "run");
    assert!(r[0].is_background());
    assert_eq!(r[0].args(), &vec!["a".to_string(), "b".to_string()]);
    let r2 = TishCommand::parse("run a b", &env());
    assert!(!r2[0].is_background());
    assert_eq!(r2[0].args(), &vec!["a".to_string(), "b".to_string()]);
}
