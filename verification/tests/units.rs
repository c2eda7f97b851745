//! Unit tests of the stores, word expansion, the PATH search, the error
//! kinds and the session state.

use rush::ast::{Command, Word};
use rush::context::ExecutionContext;
use rush::error::ErrorKind;
use rush::jobs::{condition_met, Jid};
use rush::ast::ConditionOperator;
use rush::shell::Shell;
use rush::store::{Functions, Variables};
use std::rc::Rc;

#[test]
fn variables_define_and_read() {
    let mut v = Variables::new();
    assert_eq!(v.value(&b"X".to_vec()), b"".to_vec());
    v.define(b"X".to_vec(), b"1".to_vec());
    assert_eq!(v.value(&b"X".to_vec()), b"1".to_vec());
    v.define(b"Y".to_vec(), b"2".to_vec());
    assert_eq!(v.value(&b"X".to_vec()), b"1".to_vec());
    assert_eq!(v.value(&b"Y".to_vec()), b"2".to_vec());
}

#[test]
fn variables_later_binding_shadows() {
    let mut v = Variables::new();
    v.define(b"X".to_vec(), b"old".to_vec());
    v.define(b"X".to_vec(), b"new".to_vec());
    assert_eq!(v.value(&b"X".to_vec()), b"new".to_vec());
}

#[test]
fn variables_duplicate_is_deep() {
    let mut v = Variables::new();
    v.define(b"X".to_vec(), b"1".to_vec());
    let mut c = v.duplicate();
    c.define(b"X".to_vec(), b"2".to_vec());
    assert_eq!(v.value(&b"X".to_vec()), b"1".to_vec());
    assert_eq!(c.value(&b"X".to_vec()), b"2".to_vec());
}

#[test]
fn functions_store_and_look_up() {
    let mut f = Functions::new();
    assert!(f.value(&b"g".to_vec()).is_none());
    f.insert(b"g".to_vec(), Rc::new(Command::Comment(b"x".to_vec())));
    let got = f.value(&b"g".to_vec()).unwrap();
    assert!(matches!(*got, Command::Comment(_)));
}

#[test]
fn word_literal_compiles_to_itself() {
    let v = Variables::new();
    let w = Word::Literal(b"hello".to_vec());
    assert_eq!(w.compile(&v), b"hello".to_vec());
}

#[test]
fn word_variable_compiles_to_binding() {
    let mut v = Variables::new();
    v.define(b"NAME".to_vec(), b"world".to_vec());
    assert_eq!(Word::Var(b"NAME".to_vec()).compile(&v), b"world".to_vec());
    assert_eq!(Word::Var(b"OTHER".to_vec()).compile(&v), b"".to_vec());
}

#[test]
fn find_executable_joins_path_entries() {
    let mut ec = ExecutionContext::new();
    ec.vars.define(b"PATH".to_vec(), b"/bin".to_vec());
    let p = ec.find_executable(&b"ls".to_vec()).unwrap();
    assert_eq!(p, b"/bin/ls".to_vec());
}

#[test]
fn find_executable_searches_left_to_right() {
    let mut ec = ExecutionContext::new();
    ec.vars
        .define(b"PATH".to_vec(), b"/nonexistent_dir_xyz:/usr/bin:/bin".to_vec());
    let p = ec.find_executable(&b"ls".to_vec()).unwrap();
    assert_eq!(p, b"/usr/bin/ls".to_vec());
}

#[test]
fn find_executable_verbatim_with_separator() {
    let ec = ExecutionContext::new();
    assert_eq!(
        ec.find_executable(&b"./local".to_vec()).unwrap(),
        b"./local".to_vec()
    );
    assert_eq!(
        ec.find_executable(&b"/usr/bin/env".to_vec()).unwrap(),
        b"/usr/bin/env".to_vec()
    );
}

#[test]
fn find_executable_reports_missing_name() {
    let mut ec = ExecutionContext::new();
    ec.vars.define(b"PATH".to_vec(), b"/usr/bin:/bin".to_vec());
    assert_eq!(
        ec.find_executable(&b"no_such_tool_abc".to_vec()),
        Err(ErrorKind::MissingExecutable(b"no_such_tool_abc".to_vec()))
    );
}

#[test]
fn context_duplicate_isolates_stores() {
    let mut ec = ExecutionContext::new();
    ec.vars.define(b"A".to_vec(), b"1".to_vec());
    let mut sub = ec.duplicate();
    sub.vars.define(b"A".to_vec(), b"2".to_vec());
    sub.funcs
        .insert(b"f".to_vec(), Rc::new(Command::Comment(Vec::new())));
    assert_eq!(ec.vars.value(&b"A".to_vec()), b"1".to_vec());
    assert!(ec.funcs.value(&b"f".to_vec()).is_none());
}

#[test]
fn condition_met_matches_shell_semantics() {
    assert!(condition_met(ConditionOperator::AndIf, 0));
    assert!(!condition_met(ConditionOperator::AndIf, 1));
    assert!(!condition_met(ConditionOperator::OrIf, 0));
    assert!(condition_met(ConditionOperator::OrIf, 7));
}

#[test]
fn error_kinds_have_messages() {
    assert!(!ErrorKind::ExecFailed(None).message().is_empty());
    assert!(!ErrorKind::PipelineCreationFailed(None).message().is_empty());
    assert!(!ErrorKind::WaitFailed(Some(1)).message().is_empty());
    assert!(!ErrorKind::MissingExecutable(b"x".to_vec()).message().is_empty());
    assert!(!ErrorKind::InvalidJobId(Jid(3)).message().is_empty());
    assert!(!ErrorKind::NotImplemented.message().is_empty());
}

#[test]
fn prompt_command_prefers_configured_prefix() {
    assert_eq!(rush::shell::prompt_command("echo hi".to_string()), "echo hi");
    assert_eq!(
        rush::shell::prompt_command(String::new()),
        "printf 'rush-%s$ ' \"$RUSH_VERSION\""
    );
}

#[test]
fn shell_state_tracks_history_and_exit() {
    let mut sh = Shell::new();
    assert!(!sh.exit_requested());
    assert_eq!(sh.history_len(), 0);
    sh.push_history("ls".to_string());
    sh.push_history("pwd".to_string());
    assert_eq!(sh.history_len(), 2);
    assert_eq!(sh.history_at(0).unwrap(), "ls");
    assert_eq!(sh.history_at(1).unwrap(), "pwd");
    assert!(sh.history_at(2).is_none());
    sh.request_exit();
    assert!(sh.exit_requested());
}

#[test]
fn simple_from_line_splits_fields() {
    let c = Command::simple_from_line(&b"  echo  hello world ".to_vec());
    match c {
        Command::SimpleCommand(ws) => {
            let texts: Vec<Vec<u8>> = ws
                .iter()
                .map(|w| match w {
                    Word::Literal(b) => b.clone(),
                    Word::Var(_) => panic!("unexpected variable word"),
                })
                .collect();
            assert_eq!(texts, vec![b"echo".to_vec(), b"hello".to_vec(), b"world".to_vec()]);
        }
        _ => panic!("expected a simple command"),
    }
}
