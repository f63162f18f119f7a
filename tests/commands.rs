use tish::alias::resolve_command;
use tish::builtins::{exit_code_of, line_status, BuiltinError, Dispatch, ExternalPlan};
use tish::command::TishCommand;
use tish::env::{EnvManager, Environment};
use tish::models::{Command, InternalCommand};
use tish::tty::get_tty_name_or_default;

fn s(x: &str) -> String {
    x.to_string()
}

fn no_env() -> Environment {
    Environment { vars: vec![], home: None, user_homes: vec![] }
}

fn one(line: &str) -> TishCommand {
    TishCommand::parse(line, &no_env()).remove(0)
}

#[test]
fn command_names() {
    assert_eq!(Command::from_str("fg", &[]), Command::Fg);
    assert_eq!(Command::from_str("cd", &[]), Command::Cd);
    assert_eq!(Command::from_str("ls", &[]), Command::Ls);
    assert_eq!(Command::from_str("exit", &[]), Command::Exit);
    assert_eq!(Command::from_str("jobs", &[]), Command::Jobs);
    assert_eq!(Command::from_str("source", &[]), Command::Source);
    assert_eq!(Command::from_str("?", &[]), Command::Help);
    assert_eq!(Command::from_str("x.lua", &[]), Command::Script);
    assert_eq!(Command::from_str("y.tish", &[]), Command::Script);
    assert_eq!(Command::from_str("grep", &[]), Command::External);
    assert_eq!(Command::from_str("tish", &[]), Command::External);
    assert_eq!(Command::from_str("tish", &[s("jobs")]), Command::Jobs);
    assert_eq!(Command::from_str("tish", &[s("a"), s("b"), s("c")]), Command::Help);
}

#[test]
fn internal_command_names() {
    assert_eq!(InternalCommand::from_str("pid", &[]), InternalCommand::Pid);
    assert_eq!(InternalCommand::from_str("kill", &[]), InternalCommand::Kill);
    assert_eq!(InternalCommand::from_str("tish", &[s("kill"), s("12")]), InternalCommand::Kill);
    assert_eq!(InternalCommand::from_str("tish", &[s("fg")]), InternalCommand::Fg);
    assert_eq!(InternalCommand::from_str("help", &[]), InternalCommand::Help);
    assert_eq!(InternalCommand::from_str("a.lua", &[]), InternalCommand::Script);
    assert_eq!(InternalCommand::from_str("cd", &[]), InternalCommand::External);
}

#[test]
fn alias_resolution_chains_and_keeps_args() {
    let aliases = vec![(s("ll"), s("ls -l")), (s("la"), s("ll -a"))];
    assert_eq!(resolve_command(s("la /tmp"), &aliases), "ls -l -a /tmp");
    assert_eq!(resolve_command(s("ll"), &aliases), "ls -l");
    assert_eq!(resolve_command(s("echo hi"), &aliases), "echo hi");
    assert_eq!(resolve_command(s("   "), &aliases), "");
}

#[test]
fn alias_cycles_terminate() {
    let self_alias = vec![(s("ls"), s("ls"))];
    assert_eq!(resolve_command(s("ls"), &self_alias), "ls");
    let with_flag = vec![(s("ls"), s("ls --color"))];
    assert_eq!(resolve_command(s("ls x"), &with_flag), "ls --color x");
    let cycle = vec![(s("a"), s("b")), (s("b"), s("a"))];
    assert_eq!(resolve_command(s("a"), &cycle), "a");
}

#[test]
fn dispatch_routes_tish_subcommands() {
    assert_eq!(one("tish jobs").dispatch(), Dispatch::Tish(InternalCommand::Jobs));
    assert_eq!(one("jobs").dispatch(), Dispatch::Shell(Command::Jobs));
    assert_eq!(one("tish").dispatch(), Dispatch::Shell(Command::External));
}

#[test]
fn fg_job_id_argument() {
    assert_eq!(one("fg 2").fg_job_id(), Some(2));
    assert_eq!(one("tish fg 3").fg_job_id(), Some(3));
    assert_eq!(one("fg").fg_job_id(), None);
    assert_eq!(one("fg x1").fg_job_id(), None);
    assert_eq!(one("fg +4").fg_job_id(), Some(4));
    assert_eq!(one("fg 99999999999999999999999").fg_job_id(), None);
}

#[test]
fn kill_target_errors() {
    assert_eq!(one("tish kill 1234").kill_target(), Ok(1234));
    assert_eq!(one("tish").kill_target(), Err(BuiltinError::NoCommand));
    assert_eq!(one("tish stop 1").kill_target(), Err(BuiltinError::InvalidCommand));
    assert_eq!(one("tish kill").kill_target(), Err(BuiltinError::NoProcessId));
    assert_eq!(one("tish kill abc").kill_target(), Err(BuiltinError::InvalidProcessId));
    assert_eq!(one("tish kill 4294967296").kill_target(), Err(BuiltinError::InvalidProcessId));
    assert_eq!(one("tish kill 4294967295").kill_target(), Ok(4294967295));
}

#[test]
fn cd_target_defaults_to_home() {
    assert_eq!(one("cd /tmp").cd_target(Some(s("/home/u"))), Ok(s("/tmp")));
    assert_eq!(one("cd").cd_target(Some(s("/home/u"))), Ok(s("/home/u")));
    assert_eq!(one("cd").cd_target(None), Err(BuiltinError::NoHomeDirectory));
}

#[test]
fn program_path_expands_home() {
    assert_eq!(one("~/bin/tool").program_path(&Some(s("/home/u"))), "/home/u/bin/tool");
    assert_eq!(one("~/bin/tool").program_path(&Some(s("/"))), "/bin/tool");
    assert_eq!(one("~/bin/tool").program_path(&None), "~/bin/tool");
    assert_eq!(one("tool").program_path(&Some(s("/home/u"))), "tool");
}

#[test]
fn external_plans() {
    assert_eq!(one("src").external_plan(true, true), ExternalPlan::ChangeDirectory);
    assert_eq!(one("sleep 1 &").external_plan(false, true), ExternalPlan::Background);
    assert_eq!(one("sleep 1").external_plan(true, false), ExternalPlan::Foreground);
}

#[test]
fn foreground_argv_uses_alias() {
    let aliases = vec![(s("ll"), s("ls -l"))];
    let c = one("ll /tmp");
    let resolved = c.resolve_command(&aliases, &no_env());
    assert_eq!(resolved.len(), 1);
    let (prog, args) = c.argv_for(&resolved);
    assert_eq!(prog, "ls");
    assert_eq!(args, vec![s("-l"), s("/tmp")]);
    let (prog2, args2) = c.argv_for(&vec![]);
    assert_eq!(prog2, "ll");
    assert_eq!(args2, vec![s("/tmp")]);
}

#[test]
fn exit_codes() {
    assert_eq!(exit_code_of(None), 0);
    assert_eq!(exit_code_of(Some(0)), 0);
    assert_eq!(exit_code_of(Some(1)), 1);
    assert_eq!(exit_code_of(Some(256)), 0);
    assert_eq!(exit_code_of(Some(-1)), 255);
    assert_eq!(exit_code_of(Some(-256)), 0);
}

#[test]
fn env_manager_expansions() {
    let env = Environment {
        vars: vec![(s("X"), s("1")), (s("X"), s("2"))],
        home: Some(s("/h")),
        user_homes: vec![],
    };
    assert_eq!(EnvManager::new("a $X '$X' ~ ~/d \"~\"").expand(&env), "a 1 '1' /h /h/d \"/h\"");
    assert_eq!(EnvManager::new("$").expand_variable(&env), "$");
    assert_eq!(EnvManager::new("${X}y").expand_variable(&env), "1y");
    assert_eq!(EnvManager::new("~nobody/x").expand_home(&env), "~nobody/x");
    assert_eq!(EnvManager::new("plain").get_self(), "plain");
}

#[test]
fn pretty_dir_forms() {
    let me = Some(s("me"));
    assert_eq!(EnvManager::new("/").pretty_dir(&me), "/");
    assert_eq!(EnvManager::new("/home/me").pretty_dir(&me), "~");
    assert_eq!(EnvManager::new("/home/me/src/").pretty_dir(&me), "src");
    assert_eq!(EnvManager::new("/a/b/.").pretty_dir(&None), "b");
    assert_eq!(EnvManager::new("/a/..").pretty_dir(&None), "/a/..");
}

#[test]
fn tty_names() {
    assert_eq!(get_tty_name_or_default(Some(s("/dev/pts/3"))), "3");
    assert_eq!(get_tty_name_or_default(None), "ttys000");
}

#[test]
fn line_status_rule() {
    assert_eq!(line_status(&vec![]), 0);
    assert_eq!(line_status(&vec![Some(0), Some(0)]), 0);
    assert_eq!(line_status(&vec![None, Some(0)]), 1);
    assert_eq!(line_status(&vec![Some(3), Some(0), Some(2), Some(0)]), 2);
    assert_eq!(line_status(&vec![Some(4), None]), 1);
}
