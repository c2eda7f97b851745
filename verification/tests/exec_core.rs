//! End-to-end tests of the execution core: real children are forked,
//! piped, short-circuited and reaped.

use rush::ast::{Command, ConditionOperator, Word};
use rush::context::ExecutionContext;
use rush::error::ErrorKind;
use rush::jobs::{Jid, JobManager, JobStatus};
use std::rc::Rc;

fn ctx() -> ExecutionContext {
    let mut ec = ExecutionContext::new();
    ec.vars.define(b"PATH".to_vec(), b"/usr/bin:/bin".to_vec());
    ec
}

fn lit(s: &str) -> Word {
    Word::Literal(s.as_bytes().to_vec())
}

fn simple(args: &[&str]) -> Command {
    Command::SimpleCommand(args.iter().map(|a| lit(a)).collect())
}

fn pipe(from: Command, to: Command) -> Command {
    Command::Pipeline(Box::new(from), Box::new(to))
}

#[test]
fn run_true_returns_zero() {
    let mut ec = ctx();
    let mut jm = JobManager::new();
    let st = jm.run(&mut ec, simple(&["true"])).unwrap();
    assert_eq!(st.exit_code, 0);
    assert_eq!(st.signal, None);
    assert!(!st.core_dumped);
}

#[test]
fn run_false_returns_nonzero() {
    let mut ec = ctx();
    let mut jm = JobManager::new();
    let st = jm.run(&mut ec, simple(&["false"])).unwrap();
    assert_eq!(st.exit_code, 1);
    assert_eq!(st.signal, None);
}

#[test]
fn pipeline_echo_wc_counts_six() {
    // `echo hello | wc -c` prints `6\n`; grep -qx 6 exits 0 exactly then.
    let mut ec = ctx();
    let mut jm = JobManager::new();
    let tree = pipe(
        pipe(simple(&["echo", "hello"]), simple(&["wc", "-c"])),
        simple(&["grep", "-qx", "6"]),
    );
    let st = jm.run(&mut ec, tree).unwrap();
    assert_eq!(st.exit_code, 0);

    // The same pipeline expecting the wrong count fails.
    let tree = pipe(
        pipe(simple(&["echo", "hello"]), simple(&["wc", "-c"])),
        simple(&["grep", "-qx", "7"]),
    );
    let st = jm.run(&mut ec, tree).unwrap();
    assert!(st.exit_code != 0);
}

#[test]
fn pipeline_two_stages_both_reaped() {
    let mut ec = ctx();
    let mut jm = JobManager::new();
    let st = jm
        .run(&mut ec, pipe(simple(&["echo", "hello"]), simple(&["wc", "-c"])))
        .unwrap();
    assert_eq!(st.exit_code, 0);
    // Exactly two jobs were issued and both ended in the completed table.
    assert!(matches!(jm.stat(Jid(0)), Ok(JobStatus::Complete(_))));
    assert!(matches!(jm.stat(Jid(1)), Ok(JobStatus::Complete(_))));
    assert_eq!(jm.stat(Jid(2)), Err(ErrorKind::InvalidJobId(Jid(2))));
}

#[test]
fn pipeline_four_stages() {
    // An intermediate stage must not inherit a sibling's pipe end; a
    // long chain would wedge if the close-descriptor discipline broke.
    let mut ec = ctx();
    let mut jm = JobManager::new();
    let tree = pipe(
        pipe(
            pipe(simple(&["echo", "hello"]), simple(&["cat"])),
            simple(&["wc", "-c"]),
        ),
        simple(&["grep", "-qx", "6"]),
    );
    let st = jm.run(&mut ec, tree).unwrap();
    assert_eq!(st.exit_code, 0);
}

#[test]
fn pipeline_writer_exits_before_reader() {
    // The writer spawns and exits without writing; the reader sees EOF
    // instead of wedging.
    let mut ec = ctx();
    let mut jm = JobManager::new();
    let st = jm.run(&mut ec, pipe(simple(&["true"]), simple(&["cat"]))).unwrap();
    assert_eq!(st.exit_code, 0);
}

#[test]
fn andif_runs_right_only_on_success() {
    let mut ec = ctx();
    let mut jm = JobManager::new();
    // Left fails: the whole pair reports the left code.
    let tree = Command::ConditionalPair(
        Box::new(simple(&["false"])),
        Box::new(simple(&["true"])),
        ConditionOperator::AndIf,
    );
    let st = jm.run(&mut ec, tree).unwrap();
    assert!(st.exit_code != 0);
    // Left succeeds: the pair reports the right code.
    let tree = Command::ConditionalPair(
        Box::new(simple(&["true"])),
        Box::new(simple(&["false"])),
        ConditionOperator::AndIf,
    );
    let st = jm.run(&mut ec, tree).unwrap();
    assert_eq!(st.exit_code, 1);
}

#[test]
fn andif_skipped_command_never_executes() {
    let marker = "/tmp/rush_test_marker_andif";
    let mut ec = ctx();
    let mut jm = JobManager::new();
    jm.run(&mut ec, simple(&["rm", "-f", marker])).unwrap();
    let tree = Command::ConditionalPair(
        Box::new(simple(&["false"])),
        Box::new(simple(&["touch", marker])),
        ConditionOperator::AndIf,
    );
    let st = jm.run(&mut ec, tree).unwrap();
    assert!(st.exit_code != 0);
    let probe = jm.run(&mut ec, simple(&["test", "-e", marker])).unwrap();
    assert!(probe.exit_code != 0, "skipped command ran");
}

#[test]
fn orif_runs_right_only_on_failure() {
    let marker = "/tmp/rush_test_marker_orif";
    let mut ec = ctx();
    let mut jm = JobManager::new();
    jm.run(&mut ec, simple(&["rm", "-f", marker])).unwrap();
    // Left succeeds: right must not run, final code 0.
    let tree = Command::ConditionalPair(
        Box::new(simple(&["true"])),
        Box::new(simple(&["touch", marker])),
        ConditionOperator::OrIf,
    );
    let st = jm.run(&mut ec, tree).unwrap();
    assert_eq!(st.exit_code, 0);
    let probe = jm.run(&mut ec, simple(&["test", "-e", marker])).unwrap();
    assert!(probe.exit_code != 0, "skipped command ran");
    // Left fails: right runs.
    let tree = Command::ConditionalPair(
        Box::new(simple(&["false"])),
        Box::new(simple(&["touch", marker])),
        ConditionOperator::OrIf,
    );
    let st = jm.run(&mut ec, tree).unwrap();
    assert_eq!(st.exit_code, 0);
    let probe = jm.run(&mut ec, simple(&["test", "-e", marker])).unwrap();
    assert_eq!(probe.exit_code, 0, "right side did not run");
    jm.run(&mut ec, simple(&["rm", "-f", marker])).unwrap();
}

#[test]
fn missing_executable_is_reported() {
    let mut ec = ctx();
    let mut jm = JobManager::new();
    let r = jm.run(&mut ec, simple(&["nonexistent_cmd_xyz"]));
    assert_eq!(
        r,
        Err(ErrorKind::MissingExecutable(b"nonexistent_cmd_xyz".to_vec()))
    );
}

#[test]
fn await_all_empty_is_noop() {
    // With no children at all, waiting on nothing must not block or err.
    let mut jm = JobManager::new();
    assert_eq!(jm.await_all(&Vec::new()), Ok(()));
}

#[test]
fn group_keeps_function_definitions() {
    let mut ec = ctx();
    let mut jm = JobManager::new();
    let tree = Command::Group(vec![
        Command::Function(lit("greet"), Rc::new(simple(&["true"]))),
        simple(&["true"]),
    ]);
    let st = jm.run(&mut ec, tree).unwrap();
    assert_eq!(st.exit_code, 0);
    assert!(ec.funcs.value(&b"greet".to_vec()).is_some());
}

#[test]
fn brace_group_does_not_leak_definitions() {
    let mut ec = ctx();
    let mut jm = JobManager::new();
    let tree = Command::BraceGroup(vec![
        Command::Function(lit("hidden"), Rc::new(simple(&["true"]))),
        simple(&["true"]),
    ]);
    let st = jm.run(&mut ec, tree).unwrap();
    assert_eq!(st.exit_code, 0);
    assert!(ec.funcs.value(&b"hidden".to_vec()).is_none());
}

#[test]
fn function_invocation_spawns_body() {
    let mut ec = ctx();
    let mut jm = JobManager::new();
    jm.run(
        &mut ec,
        Command::Function(lit("fail"), Rc::new(simple(&["false"]))),
    )
    .unwrap();
    let st = jm.run(&mut ec, simple(&["fail"])).unwrap();
    assert_eq!(st.exit_code, 1);
}

#[test]
fn nested_function_installs_on_invocation() {
    let mut ec = ctx();
    let mut jm = JobManager::new();
    let inner = Command::Function(lit("inner"), Rc::new(simple(&["true"])));
    let outer = Command::Function(lit("outer"), Rc::new(inner));
    let st = jm.run(&mut ec, outer).unwrap();
    assert_eq!(st.exit_code, 0);
    assert!(ec.funcs.value(&b"outer".to_vec()).is_some());
    assert!(ec.funcs.value(&b"inner".to_vec()).is_none());
    jm.run(&mut ec, simple(&["outer"])).unwrap();
    assert!(ec.funcs.value(&b"inner".to_vec()).is_some());
}

#[test]
fn variable_expansion_reaches_children() {
    let mut ec = ctx();
    ec.vars.define(b"MSG".to_vec(), b"hello".to_vec());
    let mut jm = JobManager::new();
    let tree = pipe(
        Command::SimpleCommand(vec![lit("echo"), Word::Var(b"MSG".to_vec())]),
        simple(&["grep", "-qx", "hello"]),
    );
    let st = jm.run(&mut ec, tree).unwrap();
    assert_eq!(st.exit_code, 0);
}

#[test]
fn statuses_are_stable_across_later_runs() {
    let mut ec = ctx();
    let mut jm = JobManager::new();
    let st0 = jm.run(&mut ec, simple(&["false"])).unwrap();
    let recorded = match jm.stat(Jid(0)).unwrap() {
        JobStatus::Complete(s) => s,
        JobStatus::Running => panic!("job not reaped"),
    };
    assert_eq!(recorded, st0);
    // Other awaits in between do not disturb the record.
    jm.run(&mut ec, simple(&["true"])).unwrap();
    jm.run(&mut ec, simple(&["true"])).unwrap();
    let again = match jm.stat(Jid(0)).unwrap() {
        JobStatus::Complete(s) => s,
        JobStatus::Running => panic!("job not reaped"),
    };
    assert_eq!(again, st0);
}

#[test]
fn await_job_answers_from_record() {
    let mut ec = ctx();
    let mut jm = JobManager::new();
    let st = jm.run(&mut ec, simple(&["false"])).unwrap();
    // The job is long reaped; awaiting it again returns the record.
    assert_eq!(jm.await_job(Jid(0)), Ok(st));
}

#[test]
fn jids_count_up_per_manager() {
    let mut ec = ctx();
    let mut jm = JobManager::new();
    jm.run(&mut ec, simple(&["true"])).unwrap();
    jm.run(&mut ec, simple(&["true"])).unwrap();
    jm.run(&mut ec, simple(&["true"])).unwrap();
    assert!(matches!(jm.stat(Jid(0)), Ok(JobStatus::Complete(_))));
    assert!(matches!(jm.stat(Jid(1)), Ok(JobStatus::Complete(_))));
    assert!(matches!(jm.stat(Jid(2)), Ok(JobStatus::Complete(_))));
    assert!(matches!(jm.stat(Jid(3)), Err(ErrorKind::InvalidJobId(_))));
    assert!(Jid(0) < Jid(1) && Jid(1) < Jid(2));
}

#[test]
fn group_sequences_like_separate_runs() {
    // A group of three commands has the same observable effect on the
    // context as running them one after the other.
    let marker = "/tmp/rush_test_marker_group";
    let mut ec = ctx();
    let mut jm = JobManager::new();
    let tree = Command::Group(vec![
        simple(&["rm", "-f", marker]),
        simple(&["touch", marker]),
        Command::Function(lit("seen"), Rc::new(simple(&["true"]))),
    ]);
    jm.run(&mut ec, tree).unwrap();
    let grouped_probe = jm.run(&mut ec, simple(&["test", "-e", marker])).unwrap();
    let grouped_funcs = ec.funcs.value(&b"seen".to_vec()).is_some();

    let mut ec2 = ctx();
    let mut jm2 = JobManager::new();
    jm2.run(&mut ec2, simple(&["rm", "-f", marker])).unwrap();
    jm2.run(&mut ec2, simple(&["touch", marker])).unwrap();
    jm2.run(
        &mut ec2,
        Command::Function(lit("seen"), Rc::new(simple(&["true"]))),
    )
    .unwrap();
    let seq_probe = jm2.run(&mut ec2, simple(&["test", "-e", marker])).unwrap();
    let seq_funcs = ec2.funcs.value(&b"seen".to_vec()).is_some();

    assert_eq!(grouped_probe.exit_code, seq_probe.exit_code);
    assert_eq!(grouped_funcs, seq_funcs);
    jm.run(&mut ec, simple(&["rm", "-f", marker])).unwrap();
}

#[test]
fn comment_yields_synthetic_success() {
    let mut ec = ctx();
    let mut jm = JobManager::new();
    let st = jm.run(&mut ec, Command::Comment(b"# nothing".to_vec())).unwrap();
    assert_eq!(st.exit_code, 0);
    assert_eq!(st.signal, None);
}

#[test]
fn empty_simple_command_fails_to_exec() {
    let mut ec = ctx();
    let mut jm = JobManager::new();
    let r = jm.run(&mut ec, Command::SimpleCommand(Vec::new()));
    assert_eq!(r, Err(ErrorKind::ExecFailed(None)));
}

#[test]
fn argument_with_nul_byte_fails_to_exec() {
    let mut ec = ctx();
    let mut jm = JobManager::new();
    let tree = Command::SimpleCommand(vec![
        lit("echo"),
        Word::Literal(b"a\0b".to_vec()),
    ]);
    assert_eq!(jm.run(&mut ec, tree), Err(ErrorKind::ExecFailed(None)));
}

#[test]
fn awaiting_unknown_job_with_no_children_fails() {
    let mut jm = JobManager::new();
    assert!(matches!(jm.await_job(Jid(5)), Err(ErrorKind::WaitFailed(Some(_)))));
}

#[test]
fn verbatim_path_bypasses_search() {
    // A name holding a separator is used verbatim, with no PATH at all.
    let mut ec = ExecutionContext::new();
    let mut jm = JobManager::new();
    let st = jm.run(&mut ec, simple(&["/usr/bin/true"])).unwrap();
    assert_eq!(st.exit_code, 0);
}
