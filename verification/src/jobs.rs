//! The job manager and the tree evaluator: allocating job identifiers,
//! tracking running and completed children, waiting for arbitrary
//! subsets in arbitrary completion order, and realizing a command tree
//! as processes, pipelines, groups, conditionals and functions.

use vstd::prelude::*;
use std::collections::HashMap;
use crate::ast::{Command, ConditionOperator, word_compiled};
use crate::bytes::{bytes_dup, bytes_eq, contains_byte, find_byte};
use crate::context::ExecutionContext;
use crate::error::ErrorKind;
use crate::store::Variables;
use crate::sys::{c_bytes, no_nul, rc_command_dup, sys_close, sys_getpid, sys_pipe, sys_spawn,
    sys_spawn_env, sys_wait, WaitEvent};

verus! {

broadcast use vstd::std_specs::hash::group_hash_axioms, vstd::map_lib::lemma_submap_of_trans;

/// Identifier of one job: an opaque, monotonically increasing counter
/// value, unique within one job manager's lifetime.
#[derive(Debug, Copy, Clone, Eq, Ord, PartialEq, PartialOrd, Structural)]
pub struct Jid(pub u32);

/// How a child terminated. If a signal is present the exit code is -1
/// and a core may have been dumped; otherwise the exit code is the raw
/// code and no core was dumped.
#[derive(Debug, Copy, Clone, PartialEq, Eq)]
pub struct ExitStatus {
    /// The child's OS process id.
    pub pid: i32,
    /// The raw exit code, or -1 when the child was signaled.
    pub exit_code: i32,
    /// Whether the termination dumped core.
    pub core_dumped: bool,
    /// The terminating signal's number, if the child was signaled.
    pub signal: Option<i32>,
}

impl ExitStatus {
    /// The record invariant tying the fields together: a signaled child
    /// records code -1; a normally exited child records one raw byte of
    /// exit code and no core dump.
    pub open spec fn wf(self) -> bool {
        &&& self.signal is Some ==> self.exit_code == -1
        &&& self.signal is None ==> !self.core_dumped && 0 <= self.exit_code <= 255
    }
}

/// What `stat` reports of a job.
#[derive(Debug, Copy, Clone, PartialEq, Eq)]
pub enum JobStatus {
    /// The job was forked and has not been reaped yet.
    Running,
    /// The job was reaped with this status.
    Complete(ExitStatus),
}

/// The spawn bundle handed down the tree: descriptors the child must
/// close before exec, environment entries to append over the inherited
/// environment, and optional descriptors for stdin and stdout.
#[derive(Debug)]
pub struct ProcOptions {
    /// Pipe ends belonging to other pipeline stages; closed in the child.
    pub close_fds: Vec<i32>,
    /// Environment entries appended on top of the inherited environment;
    /// empty means inherit unchanged. An entry overrides an inherited
    /// variable of the same name.
    pub env: Vec<(Vec<u8>, Vec<u8>)>,
    /// Descriptor to duplicate onto fd 0, if any.
    pub stdin: Option<i32>,
    /// Descriptor to duplicate onto fd 1, if any.
    pub stdout: Option<i32>,
}

/// An owned copy of a descriptor list.
fn fds_dup(v: &Vec<i32>) -> (r: Vec<i32>)
    ensures
        r@ == v@,
{
    let mut r: Vec<i32> = Vec::new();
    let n = v.len();
    let mut i: usize = 0;
    while i < n
        invariant
            n == v@.len(),
            0 <= i <= n,
            r@ == v@.subrange(0, i as int),
        decreases n - i,
    {
        r.push(v[i]);
        assert(r@ =~= v@.subrange(0, i + 1 as int));
        i += 1;
    }
    proof {
        assert(r@ =~= v@);
    }
    r
}

/// An owned copy of an environment-augmentation list.
fn pairs_dup(v: &Vec<(Vec<u8>, Vec<u8>)>) -> (r: Vec<(Vec<u8>, Vec<u8>)>)
    ensures
        r@.len() == v@.len(),
        forall|i: int| 0 <= i < v@.len() ==> #[trigger] r@[i].0@ == v@[i].0@ && r@[i].1@ == v@[i].1@,
{
    let mut r: Vec<(Vec<u8>, Vec<u8>)> = Vec::new();
    let n = v.len();
    let mut i: usize = 0;
    while i < n
        invariant
            n == v@.len(),
            0 <= i <= n,
            r@.len() == i,
            forall|j: int| 0 <= j < i ==> #[trigger] r@[j].0@ == v@[j].0@ && r@[j].1@ == v@[j].1@,
        decreases n - i,
    {
        let k = bytes_dup(&v[i].0);
        let val = bytes_dup(&v[i].1);
        r.push((k, val));
        i += 1;
    }
    r
}

/// The equals-sign byte of an environment entry.
pub const EQ: u8 = 61;

/// The bytes of one `NAME=value` exec environment entry, NUL-terminated.
pub open spec fn env_entry_of(k: Seq<u8>, v: Seq<u8>) -> Seq<u8> {
    k + seq![EQ] + v + seq![0u8]
}

/// Whether a binding can form an environment entry: no NUL anywhere and
/// no equals sign in the name.
pub open spec fn env_clean(k: Seq<u8>, v: Seq<u8>) -> bool {
    !contains_byte(k, 0) && !contains_byte(k, EQ) && !contains_byte(v, 0)
}

/// Whether the augmentation list binds this name.
pub open spec fn extras_have(extra: Seq<(Vec<u8>, Vec<u8>)>, k: Seq<u8>) -> bool {
    exists|i: int| 0 <= i < extra.len() && (#[trigger] extra[i]).0@ == k
}

/// One `NAME=value` environment entry, NUL-terminated.
fn env_entry(k: &Vec<u8>, v: &Vec<u8>) -> (r: Vec<u8>)
    requires
        no_nul(k@),
        no_nul(v@),
    ensures
        c_bytes(r@),
        r@ == env_entry_of(k@, v@),
{
    let mut r = bytes_dup(k);
    r.push(EQ);
    let n = v.len();
    let mut i: usize = 0;
    while i < n
        invariant
            n == v@.len(),
            0 <= i <= n,
            r@ == k@ + seq![EQ] + v@.subrange(0, i as int),
        decreases n - i,
    {
        r.push(v[i]);
        assert(r@ =~= k@ + seq![EQ] + v@.subrange(0, i + 1 as int));
        i += 1;
    }
    r.push(0);
    proof {
        assert(v@.subrange(0, n as int) =~= v@);
        assert(r@ =~= k@ + seq![EQ] + v@ + seq![0u8]);
        assert forall|j: int| 0 <= j < r@.len() - 1 implies r@[j] != 0 by {
            if j < k@.len() {
                assert(r@[j] == k@[j]);
            } else if j == k@.len() {
                assert(r@[j] == EQ);
            } else {
                assert(r@[j] == v@[j - k@.len() - 1]);
            }
        }
    }
    r
}

/// Whether `extra` holds an entry whose name is `k`.
fn has_env_key(extra: &Vec<(Vec<u8>, Vec<u8>)>, k: &Vec<u8>) -> (r: bool)
    ensures
        r == extras_have(extra@, k@),
{
    let n = extra.len();
    let mut i: usize = 0;
    while i < n
        invariant
            n == extra@.len(),
            0 <= i <= n,
            forall|t: int| 0 <= t < i ==> (#[trigger] extra@[t]).0@ != k@,
        decreases n - i,
    {
        if bytes_eq(&extra[i].0, k) {
            return true;
        }
        i += 1;
    }
    false
}

/// The full exec environment when augmentation entries are present: the
/// variable bindings as `NAME=value`, those overridden by an
/// augmentation entry left out, then the augmentation entries. Names
/// holding `=` or NUL, and values holding NUL, cannot form an entry and
/// are skipped.
#[verifier::loop_isolation(false)]
fn build_env(vars: &Variables, extra: &Vec<(Vec<u8>, Vec<u8>)>) -> (r: Vec<Vec<u8>>)
    ensures
        forall|i: int| 0 <= i < r@.len() ==> c_bytes(#[trigger] r@[i]@),
        forall|i: int|
            0 <= i < vars.entries@.len() && env_clean(
                (#[trigger] vars.entries@[i]).0@,
                vars.entries@[i].1@,
            ) && !extras_have(extra@, vars.entries@[i].0@) ==> exists|j: int|
                0 <= j < r@.len() && (#[trigger] r@[j])@ == env_entry_of(
                    vars.entries@[i].0@,
                    vars.entries@[i].1@,
                ),
        forall|i: int|
            0 <= i < extra@.len() && env_clean((#[trigger] extra@[i]).0@, extra@[i].1@)
                ==> exists|j: int|
                0 <= j < r@.len() && (#[trigger] r@[j])@ == env_entry_of(
                    extra@[i].0@,
                    extra@[i].1@,
                ),
{
    let mut out: Vec<Vec<u8>> = Vec::new();
    let n = vars.entries.len();
    let mut i: usize = 0;
    while i < n
        invariant
            0 <= i <= n,
            forall|j: int| 0 <= j < out@.len() ==> c_bytes(#[trigger] out@[j]@),
            forall|t: int|
                0 <= t < i && env_clean(
                    (#[trigger] vars.entries@[t]).0@,
                    vars.entries@[t].1@,
                ) && !extras_have(extra@, vars.entries@[t].0@) ==> exists|j: int|
                    0 <= j < out@.len() && (#[trigger] out@[j])@ == env_entry_of(
                        vars.entries@[t].0@,
                        vars.entries@[t].1@,
                    ),
        decreases n - i,
    {
        let k = &vars.entries[i].0;
        let v = &vars.entries[i].1;
        if !find_byte(k, 0) && !find_byte(k, EQ) && !find_byte(v, 0) && !has_env_key(extra, k) {
            let ghost o0 = out@;
            out.push(env_entry(k, v));
            proof {
                assert forall|j2: int| 0 <= j2 < out@.len() implies #[trigger] out@[j2] == (if j2
                    < o0.len() {
                    o0[j2]
                } else {
                    out@[out@.len() - 1]
                }) by {
                    assert(out@[j2] == o0.push(out@[out@.len() - 1])[j2]);
                }
                assert forall|t: int|
                    0 <= t <= i && env_clean(
                        (#[trigger] vars.entries@[t]).0@,
                        vars.entries@[t].1@,
                    ) && !extras_have(extra@, vars.entries@[t].0@) implies exists|j2: int|
                        0 <= j2 < out@.len() && (#[trigger] out@[j2])@ == env_entry_of(
                            vars.entries@[t].0@,
                            vars.entries@[t].1@,
                        ) by {
                    if t < i {
                        let j2 = choose|j2: int|
                            0 <= j2 < o0.len() && (#[trigger] o0[j2])@ == env_entry_of(
                                vars.entries@[t].0@,
                                vars.entries@[t].1@,
                            );
                        assert(out@[j2]@ == env_entry_of(
                            vars.entries@[t].0@,
                            vars.entries@[t].1@,
                        ));
                    } else {
                        assert(out@[out@.len() - 1]@ == env_entry_of(
                            vars.entries@[t].0@,
                            vars.entries@[t].1@,
                        ));
                    }
                }
            }
        }
        i += 1;
    }
    let m = extra.len();
    let mut j: usize = 0;
    while j < m
        invariant
            0 <= j <= m,
            forall|t: int| 0 <= t < out@.len() ==> c_bytes(#[trigger] out@[t]@),
            forall|t: int|
                0 <= t < n && env_clean(
                    (#[trigger] vars.entries@[t]).0@,
                    vars.entries@[t].1@,
                ) && !extras_have(extra@, vars.entries@[t].0@) ==> exists|j2: int|
                    0 <= j2 < out@.len() && (#[trigger] out@[j2])@ == env_entry_of(
                        vars.entries@[t].0@,
                        vars.entries@[t].1@,
                    ),
            forall|t: int|
                0 <= t < j && env_clean((#[trigger] extra@[t]).0@, extra@[t].1@)
                    ==> exists|j2: int|
                    0 <= j2 < out@.len() && (#[trigger] out@[j2])@ == env_entry_of(
                        extra@[t].0@,
                        extra@[t].1@,
                    ),
        decreases m - j,
    {
        let k = &extra[j].0;
        let v = &extra[j].1;
        if !find_byte(k, 0) && !find_byte(k, EQ) && !find_byte(v, 0) {
            let ghost o0 = out@;
            out.push(env_entry(k, v));
            proof {
                assert forall|j2: int| 0 <= j2 < out@.len() implies #[trigger] out@[j2] == (if j2
                    < o0.len() {
                    o0[j2]
                } else {
                    out@[out@.len() - 1]
                }) by {
                    assert(out@[j2] == o0.push(out@[out@.len() - 1])[j2]);
                }
                assert forall|t: int|
                    0 <= t < n && env_clean(
                        (#[trigger] vars.entries@[t]).0@,
                        vars.entries@[t].1@,
                    ) && !extras_have(extra@, vars.entries@[t].0@) implies exists|j2: int|
                        0 <= j2 < out@.len() && (#[trigger] out@[j2])@ == env_entry_of(
                            vars.entries@[t].0@,
                            vars.entries@[t].1@,
                        ) by {
                    let j2 = choose|j2: int|
                        0 <= j2 < o0.len() && (#[trigger] o0[j2])@ == env_entry_of(
                            vars.entries@[t].0@,
                            vars.entries@[t].1@,
                        );
                    assert(out@[j2]@ == env_entry_of(vars.entries@[t].0@, vars.entries@[t].1@));
                }
                assert forall|t: int|
                    0 <= t <= j && env_clean((#[trigger] extra@[t]).0@, extra@[t].1@)
                        implies exists|j2: int|
                        0 <= j2 < out@.len() && (#[trigger] out@[j2])@ == env_entry_of(
                            extra@[t].0@,
                            extra@[t].1@,
                        ) by {
                    if t < j {
                        let j2 = choose|j2: int|
                            0 <= j2 < o0.len() && (#[trigger] o0[j2])@ == env_entry_of(
                                extra@[t].0@,
                                extra@[t].1@,
                            );
                        assert(out@[j2]@ == env_entry_of(extra@[t].0@, extra@[t].1@));
                    } else {
                        assert(out@[out@.len() - 1]@ == env_entry_of(extra@[t].0@, extra@[t].1@));
                    }
                }
            }
        }
        j += 1;
    }
    out
}

/// A NUL-terminated copy of `v`, or nothing if `v` holds a NUL and so
/// cannot be handed to exec.
fn make_c_bytes(v: &Vec<u8>) -> (r: Option<Vec<u8>>)
    ensures
        match r {
            Some(c) => !contains_byte(v@, 0) && c_bytes(c@) && c@ == v@.push(0u8),
            None => contains_byte(v@, 0),
        },
{
    if find_byte(v, 0) {
        None
    } else {
        let mut c = bytes_dup(v);
        c.push(0);
        proof {
            assert(c@.last() == 0);
            assert forall|i: int| 0 <= i < c@.len() - 1 implies c@[i] != 0 by {
                assert(c@[i] == v@[i]);
            }
        }
        Some(c)
    }
}

/// Whether a conditional pair runs its right side, given the operator
/// and the left side's last exit code: `&&` runs it exactly on zero,
/// `||` exactly on nonzero.
pub open spec fn cond_spec(op: ConditionOperator, exit_code: i32) -> bool {
    (exit_code == 0 && op == ConditionOperator::AndIf) || (exit_code != 0
        && op == ConditionOperator::OrIf)
}

/// The recorded exit code of a construct's last job: zero if it
/// produced none.
pub open spec fn last_code_of(m: JobManager, jids: Seq<Jid>) -> i32 {
    if jids.len() == 0 {
        0
    } else {
        m.status_of(jids.last()).exit_code
    }
}

/// Every identifier issued between two manager states is accounted
/// for: it has a recorded status, or it is among the given identifiers.
pub open spec fn jids_cover(pre: JobManager, post: JobManager, jids: Seq<Jid>) -> bool {
    forall|c: u32|
        pre.counter() <= c < post.counter() ==> (post.has_completed(Jid(c)) || exists|k: int|
            0 <= k < jids.len() && jids[k] == Jid(c))
}

/// Executable decision for `cond_spec`.
pub fn condition_met(op: ConditionOperator, exit_code: i32) -> (r: bool)
    ensures
        r == cond_spec(op, exit_code),
{
    match op {
        ConditionOperator::AndIf => exit_code == 0,
        ConditionOperator::OrIf => exit_code != 0,
    }
}

/// What one wait report reaps, exactly as the core fixes it: a normal
/// exit keeps its pid and code; a termination by signal records code -1
/// with the signal and the core-dump flag; any other report reaps
/// nothing.
fn wait_event_status(ev: WaitEvent) -> (r: Option<(i32, ExitStatus)>)
    ensures
        match ev {
            WaitEvent::Exited(p, c) => r == Some(
                (p, (ExitStatus { pid: p, exit_code: c, core_dumped: false, signal: None })),
            ),
            WaitEvent::Signaled(p, s, d) => r == Some(
                (p, (ExitStatus { pid: p, exit_code: -1i32, core_dumped: d, signal: Some(s) })),
            ),
            _ => r is None,
        },
{
    match ev {
        WaitEvent::Exited(p, c) => Some(
            (p, ExitStatus { pid: p, exit_code: c, core_dumped: false, signal: None }),
        ),
        WaitEvent::Signaled(p, s, d) => Some(
            (p, ExitStatus { pid: p, exit_code: -1, core_dumped: d, signal: Some(s) }),
        ),
        WaitEvent::Other => None,
        WaitEvent::Interrupted => None,
        WaitEvent::Failed(_) => None,
    }
}

/// The index of the most recent running-table entry for this pid.
fn find_pid(v: &Vec<(i32, Jid)>, pid: i32) -> (r: Option<usize>)
    ensures
        match r {
            Some(i) => i < v@.len() && v@[i as int].0 == pid,
            None => forall|k: int| 0 <= k < v@.len() ==> v@[k].0 != pid,
        },
{
    let n = v.len();
    let mut i: usize = n;
    while i > 0
        invariant
            n == v@.len(),
            0 <= i <= n,
            forall|k: int| i <= k < n ==> v@[k].0 != pid,
        decreases i,
    {
        i -= 1;
        if v[i].0 == pid {
            return Some(i);
        }
    }
    None
}

/// Allocates job identifiers and tracks children: an entry lives in the
/// running table from fork success until a wait reaps its pid, at which
/// point its identifier moves to the completed table, where its status
/// stays for the manager's lifetime.
pub struct JobManager {
    next_jid: u32,
    running_jobs: Vec<(i32, Jid)>,
    completed_jobs: HashMap<u32, ExitStatus>,
    issued: Ghost<Seq<Jid>>,
}

impl JobManager {
    /// The counter the next job identifier comes from.
    pub closed spec fn counter(self) -> u32 {
        self.next_jid
    }

    /// The running table: pid, identifier pairs, oldest first.
    pub closed spec fn running(self) -> Seq<(i32, Jid)> {
        self.running_jobs@
    }

    /// The completed table: status by raw identifier.
    pub closed spec fn completed(self) -> Map<u32, ExitStatus> {
        self.completed_jobs@
    }

    /// Every identifier this manager ever issued, in issue order.
    pub closed spec fn issued(self) -> Seq<Jid> {
        self.issued@
    }

    /// Whether `j` is in the running table.
    pub open spec fn is_running(self, j: Jid) -> bool {
        exists|i: int| 0 <= i < self.running().len() && self.running()[i].1 == j
    }

    /// Whether `j` has a recorded status.
    pub open spec fn has_completed(self, j: Jid) -> bool {
        self.completed().contains_key(j.0)
    }

    /// The recorded status of `j`.
    pub open spec fn status_of(self, j: Jid) -> ExitStatus {
        self.completed()[j.0]
    }

    /// The manager's invariant: identifiers in either table were issued
    /// and the tables are disjoint; recorded statuses respect the exit
    /// status invariant; issued identifiers are exactly the counter
    /// values in order, so they are strictly increasing.
    pub open spec fn wf(self) -> bool {
        &&& forall|i: int| 0 <= i < self.running().len() ==> (#[trigger] self.running()[i]).1.0
            < self.counter()
        &&& forall|i: int| 0 <= i < self.running().len() ==> !self.completed().contains_key(
            (#[trigger] self.running()[i]).1.0,
        )
        &&& forall|i: int, j: int| 0 <= i < j < self.running().len()
            ==> (#[trigger] self.running()[i]).1 != (#[trigger] self.running()[j]).1
        &&& forall|k: u32| #[trigger] self.completed().contains_key(k) ==> k < self.counter()
        &&& forall|k: u32| #[trigger] self.completed().contains_key(k)
            ==> self.completed()[k].wf()
        &&& self.issued().len() == self.counter() as int
        &&& forall|k: int| 0 <= k < self.issued().len() ==> #[trigger] self.issued()[k] == Jid(
            k as u32,
        )
        &&& forall|c: u32| c < self.counter() ==> (#[trigger] self.is_running(Jid(c))
            || self.completed().contains_key(c))
    }

    /// A manager with no jobs and the counter at zero.
    pub fn new() -> (r: JobManager)
        ensures
            r.wf(),
            r.counter() == 0,
            r.running().len() == 0,
            r.completed() == Map::<u32, ExitStatus>::empty(),
            r.issued().len() == 0,
    {
        JobManager {
            next_jid: 0,
            running_jobs: Vec::new(),
            completed_jobs: HashMap::new(),
            issued: Ghost(Seq::empty()),
        }
    }

    /// Register a freshly forked pid and issue the next identifier.
    fn add_job(&mut self, pid: i32) -> (j: Jid)
        requires
            old(self).wf(),
            old(self).counter() < u32::MAX,
        ensures
            final(self).wf(),
            j == Jid(old(self).counter()),
            final(self).counter() == old(self).counter() + 1,
            final(self).issued() == old(self).issued().push(j),
            final(self).completed() == old(self).completed(),
            final(self).running() == old(self).running().push((pid, j)),
            final(self).is_running(j),
            forall|j2: Jid| final(self).is_running(j2) ==> j2 == j || old(self).is_running(j2),
    {
        let jid = Jid(self.next_jid);
        self.running_jobs.push((pid, jid));
        self.next_jid = self.next_jid + 1;
        self.issued = Ghost(self.issued@.push(jid));
        proof {
            let r0 = old(self).running();
            let r = self.running();
            let e = (pid, jid);
            assert forall|i: int| 0 <= i < r.len() implies #[trigger] r[i] == (if i < r0.len() {
                r0[i]
            } else {
                e
            }) by {
                assert(r[i] == r0.push(e)[i]);
            }
            let s0 = old(self).issued();
            let s = self.issued();
            assert forall|k: int| 0 <= k < s.len() implies #[trigger] s[k] == (if k < s0.len() {
                s0[k]
            } else {
                jid
            }) by {
                assert(s[k] == s0.push(jid)[k]);
            }
            assert(r == r0.push(e));
            assert(r.len() == r0.len() + 1);
            assert(self.running()[r0.len() as int] == e);
            assert(self.running()[r.len() - 1].1 == jid);
            assert(self.is_running(jid));
            assert(self.completed() == old(self).completed());
            assert forall|k: u32| #[trigger] self.completed().contains_key(k) implies k
                < self.counter() && self.completed()[k].wf() by {
                assert(old(self).completed().contains_key(k));
            }
            assert forall|i: int| 0 <= i < r.len() implies !self.completed().contains_key(
                (#[trigger] r[i]).1.0,
            ) by {
                if i < r0.len() {
                    assert(!old(self).completed().contains_key(r0[i].1.0));
                } else {
                    assert(r[i].1.0 == old(self).counter());
                    if self.completed().contains_key(jid.0) {
                        assert(old(self).completed().contains_key(jid.0));
                    }
                }
            }
            assert forall|c: u32| c < self.counter() implies (self.is_running(Jid(c))
                || self.completed().contains_key(c)) by {
                if c < old(self).counter() {
                    assert(old(self).is_running(Jid(c)) || old(self).completed().contains_key(c));
                    if old(self).is_running(Jid(c)) {
                        let i = choose|i: int| 0 <= i < r0.len() && r0[i].1 == Jid(c);
                        assert(r[i].1 == Jid(c));
                    }
                } else {
                    assert(Jid(c) == jid);
                }
            }
            assert(self.wf());
            assert forall|j2: Jid| self.is_running(j2) implies j2 == jid || old(self).is_running(j2) by {
                let i = choose|i: int| 0 <= i < r.len() && r[i].1 == j2;
                if i < r0.len() {
                    assert(r0[i].1 == j2);
                }
            }
        }
        jid
    }

    /// Reap one child: block in wait until some tracked pid terminates,
    /// move its identifier from the running to the completed table and
    /// return the identifier with the recorded status. State changes the
    /// core ignores, interrupted waits and reaped pids that are not in
    /// the running table retry the wait; a pathological unending stream
    /// of such events is given up on as a wait failure.
    #[verifier::loop_isolation(false)]
    fn next(&mut self) -> (r: Result<(Jid, ExitStatus), ErrorKind>)
        requires
            old(self).wf(),
        ensures
            final(self).wf(),
            final(self).counter() == old(self).counter(),
            final(self).issued() == old(self).issued(),
            match r {
                Ok((j, st)) => {
                    &&& old(self).is_running(j)
                    &&& !old(self).has_completed(j)
                    &&& st.wf()
                    &&& exists|i: int| 0 <= i < old(self).running().len() && old(self).running()[i]
                        == (st.pid, j)
                    &&& final(self).completed() == old(self).completed().insert(j.0, st)
                    &&& final(self).running().len() == old(self).running().len() - 1
                    &&& !final(self).is_running(j)
                    &&& forall|j2: Jid| j2 != j ==> (final(self).is_running(j2) <==> old(self).is_running(j2))
                },
                Err(e) => {
                    &&& e matches ErrorKind::WaitFailed(_)
                    &&& final(self).completed() == old(self).completed()
                    &&& final(self).running() == old(self).running()
                },
            },
    {
        let mut attempts: u64 = u64::MAX;
        while attempts > 0
            invariant
                self.wf(),
                self.counter() == old(self).counter(),
                self.issued() == old(self).issued(),
                self.completed() == old(self).completed(),
                self.running() == old(self).running(),
            decreases attempts,
        {
            attempts = attempts - 1;
            let ev = sys_wait();
            if let WaitEvent::Failed(cause) = ev {
                return Err(ErrorKind::WaitFailed(Some(cause)));
            }
            let reaped = wait_event_status(ev);
            if let Some((pid, st)) = reaped {
                if let Some(idx) = find_pid(&self.running_jobs, pid) {
                    let ghost r0 = self.running_jobs@;
                    let jid = self.running_jobs[idx].1;
                    self.running_jobs.remove(idx);
                    self.completed_jobs.insert(jid.0, st);
                    proof {
                        let r1 = self.running_jobs@;
                        assert(r1 =~= r0.subrange(0, idx as int) + r0.subrange(
                            idx + 1,
                            r0.len() as int,
                        ));
                        assert forall|i: int| 0 <= i < r1.len() implies r1[i] == (if i < idx {
                            r0[i]
                        } else {
                            r0[i + 1]
                        }) by {}
                        assert(r0[idx as int].1 == jid);
                        assert forall|j2: Jid|
                            j2 != jid && self.is_running(j2) implies old(self).is_running(
                            j2,
                        ) by {
                            let i = choose|i: int|
                                0 <= i < r1.len() && r1[i].1 == j2;
                            if i < idx {
                                assert(r0[i].1 == j2);
                            } else {
                                assert(r0[i + 1].1 == j2);
                            }
                        }
                        assert forall|j2: Jid|
                            j2 != jid && old(self).is_running(j2) implies self.is_running(
                            j2,
                        ) by {
                            let i = choose|i: int|
                                0 <= i < r0.len() && r0[i].1 == j2;
                            if i < idx {
                                assert(r1[i].1 == j2);
                            } else {
                                assert(i != idx);
                                assert(r1[i - 1].1 == j2);
                            }
                        }
                        assert forall|i: int| 0 <= i < r1.len() implies r1[i].1 != jid by {
                            if i < idx {
                                assert(r0[i].1 != r0[idx as int].1);
                            } else {
                                assert(r0[i + 1].1 != r0[idx as int].1);
                            }
                        }
                        assert(r0[idx as int].0 == pid && st.pid == pid);
                        assert(old(self).running()[idx as int] == (st.pid, jid));
                        assert forall|c: u32| c < self.counter() implies (self.is_running(Jid(c))
                            || self.completed().contains_key(c)) by {
                            assert(old(self).is_running(Jid(c)) || old(self).completed().contains_key(c));
                            if !old(self).completed().contains_key(c) {
                                if Jid(c) == jid {
                                    assert(self.completed().contains_key(jid.0));
                                } else {
                                    assert(self.is_running(Jid(c)) <==> old(self).is_running(
                                        Jid(c),
                                    ));
                                }
                            }
                        }
                    }
                    return Ok((jid, st));
                }
            }
        }
        Err(ErrorKind::WaitFailed(None))
    }

    /// Wait for a specific job. A job already in the completed table
    /// answers from the record; otherwise children are reaped, each
    /// recorded status retained, until the target is reaped. Statuses
    /// are stable: what was recorded is what is returned, whatever was
    /// reaped in between.
    pub fn await_job(&mut self, jid: Jid) -> (r: Result<ExitStatus, ErrorKind>)
        requires
            old(self).wf(),
        ensures
            final(self).wf(),
            final(self).counter() == old(self).counter(),
            final(self).issued() == old(self).issued(),
            old(self).completed().submap_of(final(self).completed()),
            old(self).has_completed(jid) ==> r is Ok
                && final(self).completed() == old(self).completed()
                && final(self).running() == old(self).running(),
            match r {
                Ok(st) => {
                    &&& final(self).has_completed(jid)
                    &&& st == final(self).status_of(jid)
                    &&& st.wf()
                    &&& old(self).has_completed(jid) ==> st == old(self).status_of(jid)
                },
                Err(e) => e matches ErrorKind::WaitFailed(_),
            },
    {
        if let Some(st) = self.completed_jobs.get(&jid.0) {
            return Ok(*st);
        }
        loop
            invariant
                self.wf(),
                self.counter() == old(self).counter(),
                self.issued() == old(self).issued(),
                old(self).completed().submap_of(self.completed()),
                !old(self).has_completed(jid),
            decreases self.running().len(),
        {
            let ghost prev = self.completed();
            match self.next() {
                Err(e) => {
                    return Err(e);
                },
                Ok((j, st)) => {
                    proof {
                        assert forall|k: u32| #[trigger] prev.contains_key(k) implies self
                            .completed().contains_key(k) && self.completed()[k] == prev[k] by {}
                        assert(prev.submap_of(self.completed()));
                    }
                    if j.0 == jid.0 {
                        return Ok(st);
                    }
                },
            }
        }
    }

    /// Wait for several jobs. Every status reaped on the way is retained
    /// in the completed table, whether or not it was asked about. An
    /// empty list is a no-op returning success.
    pub fn await_all(&mut self, jids: &Vec<Jid>) -> (r: Result<(), ErrorKind>)
        requires
            old(self).wf(),
        ensures
            final(self).wf(),
            final(self).counter() == old(self).counter(),
            final(self).issued() == old(self).issued(),
            old(self).completed().submap_of(final(self).completed()),
            jids@.len() == 0 ==> r is Ok && final(self).completed() == old(self).completed()
                && final(self).running() == old(self).running(),
            (forall|k: int| 0 <= k < jids@.len() ==> old(self).has_completed(#[trigger] jids@[k]))
                ==> r is Ok && final(self).completed() == old(self).completed()
                && final(self).running() == old(self).running(),
            match r {
                Ok(_) => forall|k: int| 0 <= k < jids@.len() ==> final(self).has_completed(
                    #[trigger] jids@[k],
                ),
                Err(e) => e matches ErrorKind::WaitFailed(_),
            },
    {
        let n = jids.len();
        let mut i: usize = 0;
        while i < n
            invariant
                n == jids@.len(),
                0 <= i <= n,
                self.wf(),
                self.counter() == old(self).counter(),
                self.issued() == old(self).issued(),
                old(self).completed().submap_of(self.completed()),
                forall|k: int| 0 <= k < i ==> self.has_completed(#[trigger] jids@[k]),
                n == 0 ==> self.completed() == old(self).completed() && self.running() == old(self).running(),
                (forall|k: int| 0 <= k < n ==> old(self).has_completed(#[trigger] jids@[k]))
                    ==> self.completed() == old(self).completed() && self.running() == old(self).running(),
            decreases n - i,
        {
            let ghost mid = self.completed();
            match self.await_job(jids[i]) {
                Err(e) => {
                    return Err(e);
                },
                Ok(_) => {},
            }
            proof {
                assert forall|k: int| 0 <= k < i implies self.has_completed(
                    #[trigger] jids@[k],
                ) by {
                    assert(mid.contains_key(jids@[k].0));
                    assert(mid.submap_of(self.completed()));
                }
            }
            i += 1;
        }
        Ok(())
    }

    /// What is known of a job: its recorded status if reaped, else that
    /// it is running, else that this manager never issued it or lost
    /// track of it.
    pub fn stat(&mut self, jid: Jid) -> (r: Result<JobStatus, ErrorKind>)
        requires
            old(self).wf(),
        ensures
            final(self).wf(),
            final(self).counter() == old(self).counter(),
            final(self).issued() == old(self).issued(),
            final(self).completed() == old(self).completed(),
            final(self).running() == old(self).running(),
            match r {
                Ok(js) => match js {
                    JobStatus::Complete(st) => old(self).has_completed(jid) && st == old(self).status_of(jid),
                    JobStatus::Running => old(self).is_running(jid) && !old(self).has_completed(
                        jid,
                    ),
                },
                Err(e) => {
                    &&& e == ErrorKind::InvalidJobId(jid)
                    &&& !old(self).is_running(jid)
                    &&& !old(self).has_completed(jid)
                    &&& jid.0 >= old(self).counter()
                },
            },
    {
        if let Some(st) = self.completed_jobs.get(&jid.0) {
            return Ok(JobStatus::Complete(*st));
        }
        let n = self.running_jobs.len();
        let mut i: usize = 0;
        while i < n
            invariant
                n == self.running().len(),
                0 <= i <= n,
                forall|k: int| 0 <= k < i ==> self.running()[k].1 != jid,
                self.wf(),
                self.counter() == old(self).counter(),
                self.issued() == old(self).issued(),
                self.completed() == old(self).completed(),
                self.running() == old(self).running(),
            decreases n - i,
        {
            if self.running_jobs[i].1 == jid {
                return Ok(JobStatus::Running);
            }
            i += 1;
        }
        proof {
            assert(jid == Jid(jid.0));
            if jid.0 < self.counter() {
                assert(self.is_running(Jid(jid.0)) || self.completed().contains_key(jid.0));
                assert(false);
            }
        }
        Err(ErrorKind::InvalidJobId(jid))
    }

    /// Fork one child for `exe` with `args` in directory `cwd`, with the
    /// spawn bundle applied, and register it under a fresh identifier.
    /// This is the only place where a fork is requested.
    fn spawn_proc(
        &mut self,
        exe: &Vec<u8>,
        args: &Vec<Vec<u8>>,
        cwd: &Vec<u8>,
        opts: &ProcOptions,
        vars: &Variables,
    ) -> (r: Result<Jid, ErrorKind>)
        requires
            old(self).wf(),
            c_bytes(exe@),
            forall|i: int| 0 <= i < args@.len() ==> c_bytes(#[trigger] args@[i]@),
            no_nul(cwd@),
        ensures
            final(self).wf(),
            final(self).completed() == old(self).completed(),
            match r {
                Ok(j) => {
                    &&& j == Jid(old(self).counter())
                    &&& final(self).counter() == old(self).counter() + 1
                    &&& final(self).issued() == old(self).issued().push(j)
                    &&& final(self).is_running(j)
                },
                Err(e) => {
                    &&& e matches ErrorKind::ExecFailed(_)
                    &&& final(self).counter() == old(self).counter()
                    &&& final(self).issued() == old(self).issued()
                    &&& final(self).running() == old(self).running()
                },
            },
    {
        if self.next_jid == u32::MAX {
            return Err(ErrorKind::ExecFailed(None));
        }
        let pid_opt = if opts.env.len() == 0 {
            sys_spawn(exe, args, cwd, &opts.close_fds, opts.stdin, opts.stdout)
        } else {
            let nargs = args.len();
            let mut all: Vec<Vec<u8>> = Vec::new();
            let mut i: usize = 0;
            while i < nargs
                invariant
                    0 <= i <= nargs,
                    nargs == args@.len(),
                    all@.len() == i,
                    forall|t: int| 0 <= t < all@.len() ==> c_bytes(#[trigger] all@[t]@),
                    forall|t: int| 0 <= t < args@.len() ==> c_bytes(#[trigger] args@[t]@),
                decreases nargs - i,
            {
                all.push(bytes_dup(&args[i]));
                i += 1;
            }
            let envz = build_env(vars, &opts.env);
            let m = envz.len();
            let mut j: usize = 0;
            while j < m
                invariant
                    0 <= j <= m,
                    m == envz@.len(),
                    all@.len() == nargs + j,
                    forall|t: int| 0 <= t < all@.len() ==> c_bytes(#[trigger] all@[t]@),
                    forall|t: int| 0 <= t < envz@.len() ==> c_bytes(#[trigger] envz@[t]@),
                decreases m - j,
            {
                all.push(bytes_dup(&envz[j]));
                j += 1;
            }
            sys_spawn_env(exe, &all, nargs, cwd, &opts.close_fds, opts.stdin, opts.stdout)
        };
        match pid_opt {
            Err(cause) => Err(ErrorKind::ExecFailed(Some(cause))),
            Ok(pid) => Ok(self.add_job(pid)),
        }
    }

    /// Spawn zero or more processes for a command tree in a given
    /// context. The returned identifiers are in spawn order; the last
    /// one stands for the whole construct. `fuel` bounds how deep
    /// function calls may expand; the driver passes the largest bound.
    #[verifier::loop_isolation(false)]
    #[verifier::rlimit(100)]
    #[verifier::spinoff_prover]
    fn spawn_procs_from_ast(
        &mut self,
        opts: &ProcOptions,
        ec: &mut ExecutionContext,
        command: &Command,
        fuel: u64,
    ) -> (r: Result<Vec<Jid>, ErrorKind>)
        requires
            old(self).wf(),
        ensures
            final(self).wf(),
            final(self).counter() >= old(self).counter(),
            old(self).completed().submap_of(final(self).completed()),
            final(ec).cwd@ == old(ec).cwd@,
            final(ec).vars.as_map() == old(ec).vars.as_map(),
            command matches Command::BraceGroup(_) ==> final(ec).funcs.as_map() == old(ec).funcs.as_map(),
            command matches Command::Comment(_) ==> final(ec).funcs.as_map() == old(ec).funcs.as_map(),
            command matches Command::Comment(_) ==> (fuel >= 1 ==> r is Ok),
            command matches Command::Function(_, _) ==> (fuel >= 1 ==> r is Ok),
            command matches Command::SimpleCommand(ws) ==> (fuel >= 1 && ws@.len() == 0 ==> r
                == Err::<Vec<Jid>, ErrorKind>(ErrorKind::ExecFailed(None))),
            r matches Ok(jids) ==> forall|k: int| 0 <= k < jids@.len() ==> old(self).counter()
                <= (#[trigger] jids@[k]).0 < final(self).counter(),
            r matches Ok(jids) ==> jids_cover(*old(self), *final(self), jids@),
            r matches Ok(jids) ==> forall|k1: int, k2: int|
                0 <= k1 < k2 < jids@.len() ==> (#[trigger] jids@[k1]).0 < (#[trigger] jids@[k2]).0,
            r matches Ok(jids) ==> (command matches Command::BraceGroup(_) ==> jids@.len() == 0),
            r matches Ok(jids) ==> (command matches Command::Group(_) ==> jids@.len() == 0),
            r matches Ok(jids) ==> (command matches Command::Comment(_) ==> jids@.len() == 0),
            r matches Ok(jids) ==> (command matches Command::ConditionalPair(_, _, _)
                ==> forall|k: int|
                0 <= k < jids@.len() ==> final(self).has_completed(#[trigger] jids@[k])),
            r matches Ok(jids) ==> (command matches Command::SimpleCommand(ws) ==> (ws@.len() > 0
                && !old(ec).funcs.as_map().contains_key(
                    word_compiled(ws@[0]@, old(ec).vars.as_map()),
                ) ==> jids@ == seq![Jid(old(self).counter())] && final(self).counter() == old(self).counter() + 1)),
            r matches Ok(jids) ==> (command matches Command::SimpleCommand(ws) ==> (ws@.len() > 0
                && !old(ec).funcs.as_map().contains_key(
                    word_compiled(ws@[0]@, old(ec).vars.as_map()),
                ) ==> forall|t: int|
                0 <= t < ws@.len() ==> !contains_byte(
                    word_compiled((#[trigger] ws@[t])@, old(ec).vars.as_map()),
                    0,
                ))),
            r matches Ok(jids) ==> (command matches Command::SimpleCommand(ws) ==> (ws@.len() > 0
                && old(ec).funcs.as_map().contains_key(
                    word_compiled(ws@[0]@, old(ec).vars.as_map()),
                ) ==> (old(ec).funcs.as_map()[word_compiled(ws@[0]@, old(ec).vars.as_map())]
                matches Command::Function(n2, b2) ==> jids@.len() == 0 && final(ec).funcs.as_map()
                == old(ec).funcs.as_map().insert(
                    word_compiled(n2@, old(ec).vars.as_map()),
                    *b2,
                )))),
            r matches Ok(jids) ==> (command matches Command::Function(name, body) ==> jids@.len()
                == 0 && final(ec).funcs.as_map() == old(ec).funcs.as_map().insert(
                word_compiled(name@, old(ec).vars.as_map()),
                **body,
            )),
        decreases fuel, 1int,
    {
        if fuel == 0 {
            return Err(ErrorKind::ExecFailed(None));
        }
        match command {
            Command::SimpleCommand(words) => {
                if words.len() == 0 {
                    return Err(ErrorKind::ExecFailed(None));
                }
                let mut args: Vec<Vec<u8>> = Vec::new();
                let n = words.len();
                let mut i: usize = 0;
                while i < n
                    invariant
                        0 <= i <= n,
                        n == words@.len(),
                        args@.len() == i,
                        forall|t: int| 0 <= t < i ==> (#[trigger] args@[t])@ == word_compiled(
                            words@[t]@,
                            ec.vars.as_map(),
                        ),
                    decreases n - i,
                {
                    args.push(words[i].compile(&ec.vars));
                    i += 1;
                }
                let argv0 = bytes_dup(&args[0]);
                let func = ec.funcs.value(&argv0);
                match func {
                    Some(body) => {
                        proof {
                            assert(argv0@ == word_compiled(words@[0]@, old(ec).vars.as_map()));
                            assert(old(ec).funcs.as_map().contains_key(argv0@));
                        }
                        let res = self.spawn_procs_from_ast(opts, ec, &*body, fuel - 1);
                        proof {
                            if res is Ok {
                                assert(jids_cover(*old(self), *self, res->Ok_0@));
                            }
                        }
                        res
                    },
                    None => {
                        let exe = ec.find_executable(&argv0)?;
                        let c_exe = match make_c_bytes(&exe) {
                            Some(c) => c,
                            None => {
                                return Err(ErrorKind::ExecFailed(None));
                            },
                        };
                        let mut c_args: Vec<Vec<u8>> = Vec::new();
                        let mut k: usize = 0;
                        while k < n
                            invariant
                                0 <= k <= n,
                                n == args@.len(),
                                c_args@.len() == k,
                                forall|t: int| 0 <= t < c_args@.len() ==> c_bytes(
                                    #[trigger] c_args@[t]@,
                                ),
                                forall|t: int| 0 <= t < k ==> !contains_byte(
                                    (#[trigger] args@[t])@,
                                    0,
                                ),
                            decreases n - k,
                        {
                            match make_c_bytes(&args[k]) {
                                Some(c) => c_args.push(c),
                                None => {
                                    return Err(ErrorKind::ExecFailed(None));
                                },
                            }
                            k += 1;
                        }
                        if find_byte(&ec.cwd, 0) {
                            return Err(ErrorKind::ExecFailed(None));
                        }
                        let j = self.spawn_proc(&c_exe, &c_args, &ec.cwd, opts, &ec.vars)?;
                        let mut out: Vec<Jid> = Vec::new();
                        out.push(j);
                        proof {
                            assert(out@ =~= seq![Jid(old(self).counter())]);
                            assert forall|c: u32|
                                old(self).counter() <= c < self.counter() implies (self
                                .has_completed(Jid(c)) || exists|k2: int|
                                0 <= k2 < out@.len() && out@[k2] == Jid(c)) by {
                                assert(out@[0] == Jid(c));
                            }
                            assert(jids_cover(*old(self), *self, out@));
                            assert forall|t: int| 0 <= t < words@.len() implies !contains_byte(
                                word_compiled((#[trigger] words@[t])@, old(ec).vars.as_map()),
                                0,
                            ) by {
                                assert(!contains_byte(args@[t]@, 0));
                            }
                        }
                        Ok(out)
                    },
                }
            },
            Command::Pipeline(from, to) => {
                let (rd, wr) = match sys_pipe() {
                    Err(cause) => {
                        return Err(ErrorKind::PipelineCreationFailed(Some(cause)));
                    },
                    Ok(p) => p,
                };
                let mut close_from = fds_dup(&opts.close_fds);
                close_from.push(rd);
                if let Some(po) = opts.stdout {
                    close_from.push(po);
                }
                let mut close_to = fds_dup(&opts.close_fds);
                close_to.push(wr);
                if let Some(pi) = opts.stdin {
                    close_to.push(pi);
                }
                let from_opts = ProcOptions {
                    close_fds: close_from,
                    env: pairs_dup(&opts.env),
                    stdin: opts.stdin,
                    stdout: Some(wr),
                };
                let to_opts = ProcOptions {
                    close_fds: close_to,
                    env: pairs_dup(&opts.env),
                    stdin: Some(rd),
                    stdout: opts.stdout,
                };
                let mut jids = self.spawn_procs_from_ast(&from_opts, ec, &**from, fuel - 1)?;
                let ghost c1 = self.counter();
                let ghost left = jids@;
                let ghost m_a = *self;
                let mut rest = self.spawn_procs_from_ast(&to_opts, ec, &**to, fuel - 1)?;
                let ghost rights = rest@;
                jids.append(&mut rest);
                sys_close(rd);
                sys_close(wr);
                proof {
                    assert forall|k: int| 0 <= k < jids@.len() implies old(self).counter()
                        <= (#[trigger] jids@[k]).0 < self.counter() by {
                        if k < left.len() {
                            assert(jids@[k] == left[k]);
                        }
                    }
                    assert forall|c: u32| old(self).counter() <= c < self.counter() implies (self
                        .has_completed(Jid(c)) || exists|k: int|
                        0 <= k < jids@.len() && jids@[k] == Jid(c)) by {
                        if c < c1 {
                            assert(m_a.has_completed(Jid(c)) || exists|k: int|
                                0 <= k < left.len() && left[k] == Jid(c));
                            if m_a.has_completed(Jid(c)) {
                                assert(m_a.completed().submap_of(self.completed()));
                                assert(m_a.completed().dom().contains(c));
                                assert(self.has_completed(Jid(c)));
                            } else {
                                let k = choose|k: int| 0 <= k < left.len() && left[k] == Jid(c);
                                assert(jids@[k] == Jid(c));
                            }
                        } else {
                            assert(self.has_completed(Jid(c)) || exists|k: int|
                                0 <= k < rights.len() && rights[k] == Jid(c));
                            if !self.has_completed(Jid(c)) {
                                let k = choose|k: int| 0 <= k < rights.len() && rights[k] == Jid(c);
                                assert(jids@[left.len() + k] == Jid(c));
                            }
                        }
                    }
                    assert(jids_cover(*old(self), *self, jids@));
                    assert forall|k1: int, k2: int|
                        0 <= k1 < k2 < jids@.len() implies (#[trigger] jids@[k1]).0
                        < (#[trigger] jids@[k2]).0 by {
                        if k2 < left.len() {
                            assert(jids@[k1] == left[k1] && jids@[k2] == left[k2]);
                        } else if k1 >= left.len() {
                            assert(jids@[k1] == rights[k1 - left.len()] && jids@[k2] == rights[k2
                                - left.len()]);
                        } else {
                            assert(jids@[k1] == left[k1]);
                            assert(jids@[k2] == rights[k2 - left.len()]);
                            assert(left[k1].0 < c1);
                            assert(rights[k2 - left.len()].0 >= c1);
                        }
                    }
                }
                Ok(jids)
            },
            Command::BraceGroup(cmds) => {
                let mut sub = ec.duplicate();
                let n = cmds.len();
                let mut i: usize = 0;
                while i < n
                    invariant
                        0 <= i <= n,
                        n == cmds@.len(),
                        self.wf(),
                        old(self).counter() <= self.counter(),
                        old(self).completed().submap_of(self.completed()),
                        forall|c: u32| old(self).counter() <= c < self.counter()
                            ==> self.has_completed(Jid(c)),
                    decreases n - i,
                {
                    let ghost m0 = *self;
                    let jids = self.spawn_procs_from_ast(opts, &mut sub, &cmds[i], fuel - 1)?;
                    let ghost m_a = *self;
                    let ghost js = jids@;
                    match self.await_all(&jids) {
                        Err(e) => {
                            return Err(e);
                        },
                        Ok(_) => {},
                    }
                    proof {
                        assert forall|c: u32|
                            old(self).counter() <= c < self.counter() implies self.has_completed(
                            Jid(c),
                        ) by {
                            if c < m0.counter() {
                                assert(m0.has_completed(Jid(c)));
                                assert(m0.completed().submap_of(m_a.completed()));
                                assert(m_a.completed().submap_of(self.completed()));
                                assert(m0.completed().dom().contains(c));
                            } else {
                                assert(m_a.has_completed(Jid(c)) || exists|k: int|
                                    0 <= k < js.len() && js[k] == Jid(c));
                                if m_a.has_completed(Jid(c)) {
                                    assert(m_a.completed().submap_of(self.completed()));
                                    assert(m_a.completed().dom().contains(c));
                                } else {
                                    let k = choose|k: int| 0 <= k < js.len() && js[k] == Jid(c);
                                    assert(self.has_completed(js[k]));
                                }
                            }
                        }
                    }
                    i += 1;
                }
                proof {
                    assert(jids_cover(*old(self), *self, Seq::<Jid>::empty()));
                }
                Ok(Vec::new())
            },
            Command::Group(cmds) => {
                let n = cmds.len();
                let mut i: usize = 0;
                while i < n
                    invariant
                        0 <= i <= n,
                        n == cmds@.len(),
                        self.wf(),
                        old(self).counter() <= self.counter(),
                        old(self).completed().submap_of(self.completed()),
                        ec.cwd@ == old(ec).cwd@,
                        ec.vars.as_map() == old(ec).vars.as_map(),
                        forall|c: u32| old(self).counter() <= c < self.counter()
                            ==> self.has_completed(Jid(c)),
                    decreases n - i,
                {
                    let ghost m0 = *self;
                    let jids = self.spawn_procs_from_ast(opts, ec, &cmds[i], fuel - 1)?;
                    let ghost m_a = *self;
                    let ghost js = jids@;
                    match self.await_all(&jids) {
                        Err(e) => {
                            return Err(e);
                        },
                        Ok(_) => {},
                    }
                    proof {
                        assert forall|c: u32|
                            old(self).counter() <= c < self.counter() implies self.has_completed(
                            Jid(c),
                        ) by {
                            if c < m0.counter() {
                                assert(m0.has_completed(Jid(c)));
                                assert(m0.completed().submap_of(m_a.completed()));
                                assert(m_a.completed().submap_of(self.completed()));
                                assert(m0.completed().dom().contains(c));
                            } else {
                                assert(m_a.has_completed(Jid(c)) || exists|k: int|
                                    0 <= k < js.len() && js[k] == Jid(c));
                                if m_a.has_completed(Jid(c)) {
                                    assert(m_a.completed().submap_of(self.completed()));
                                    assert(m_a.completed().dom().contains(c));
                                } else {
                                    let k = choose|k: int| 0 <= k < js.len() && js[k] == Jid(c);
                                    assert(self.has_completed(js[k]));
                                }
                            }
                        }
                    }
                    i += 1;
                }
                proof {
                    assert(jids_cover(*old(self), *self, Seq::<Jid>::empty()));
                }
                Ok(Vec::new())
            },
            Command::ConditionalPair(left, right, op) => {
                let ghost m0 = *self;
                let jl = self.spawn_procs_from_ast(opts, ec, &**left, fuel - 1)?;
                let ghost m_a = *self;
                let ghost js = jl@;
                match self.await_all(&jl) {
                    Err(e) => {
                        return Err(e);
                    },
                    Ok(_) => {},
                }
                let ghost m_b = *self;
                proof {
                    assert forall|c: u32|
                        m0.counter() <= c < m_b.counter() implies m_b.has_completed(Jid(c)) by {
                        assert(m_a.has_completed(Jid(c)) || exists|k: int|
                            0 <= k < js.len() && js[k] == Jid(c));
                        if m_a.has_completed(Jid(c)) {
                            assert(m_a.completed().submap_of(m_b.completed()));
                            assert(m_a.completed().dom().contains(c));
                        } else {
                            let k = choose|k: int| 0 <= k < js.len() && js[k] == Jid(c);
                            assert(m_b.has_completed(js[k]));
                        }
                    }
                }
                let res = self.conditional_tail(opts, ec, &**right, *op, jl, fuel);
                proof {
                    if res is Ok {
                        assert forall|c: u32|
                            old(self).counter() <= c < self.counter() implies (self.has_completed(
                            Jid(c),
                        ) || exists|k: int|
                            0 <= k < res->Ok_0@.len() && res->Ok_0@[k] == Jid(c)) by {
                            if c < m_b.counter() {
                                assert(m_b.has_completed(Jid(c)));
                                assert(m_b.completed().submap_of(self.completed()));
                                assert(m_b.completed().dom().contains(c));
                            } else {
                                assert(self.has_completed(Jid(c)));
                            }
                        }
                        assert(jids_cover(*old(self), *self, res->Ok_0@));
                    }
                }
                res
            },
            Command::Function(name, body) => {
                let str_name = name.compile(&ec.vars);
                let rc = rc_command_dup(body);
                ec.funcs.insert(str_name, rc);
                proof {
                    assert(jids_cover(*old(self), *self, Seq::<Jid>::empty()));
                }
                Ok(Vec::new())
            },
            Command::Comment(_) => {
                proof {
                    assert(jids_cover(*old(self), *self, Seq::<Jid>::empty()));
                }
                Ok(Vec::new())
            },
        }
    }

    /// Decide and run the right side of a conditional pair, after the
    /// left side's jobs have settled: the right side is evaluated
    /// exactly when the operator says so of the recorded exit code of
    /// the left side's last job (zero if it produced none); otherwise
    /// nothing at all is done and the left side's identifiers are the
    /// result.
    #[verifier::loop_isolation(false)]
    fn conditional_tail(
        &mut self,
        opts: &ProcOptions,
        ec: &mut ExecutionContext,
        right: &Command,
        op: ConditionOperator,
        left: Vec<Jid>,
        fuel: u64,
    ) -> (r: Result<Vec<Jid>, ErrorKind>)
        requires
            old(self).wf(),
            fuel >= 1,
            forall|k: int| 0 <= k < left@.len() ==> old(self).has_completed(#[trigger] left@[k]),
            forall|k: int| 0 <= k < left@.len() ==> (#[trigger] left@[k]).0 < old(self).counter(),
            forall|k1: int, k2: int|
                0 <= k1 < k2 < left@.len() ==> (#[trigger] left@[k1]).0 < (#[trigger] left@[k2]).0,
        ensures
            final(self).wf(),
            final(self).counter() >= old(self).counter(),
            old(self).completed().submap_of(final(self).completed()),
            final(ec).cwd@ == old(ec).cwd@,
            final(ec).vars.as_map() == old(ec).vars.as_map(),
            match r {
                Ok(jids) => {
                    &&& !cond_spec(op, last_code_of(*old(self), left@)) ==> jids@ == left@
                        && *final(self) == *old(self) && *final(ec) == *old(ec)
                    &&& cond_spec(op, last_code_of(*old(self), left@)) ==> forall|k: int|
                        0 <= k < jids@.len() ==> old(self).counter() <= (#[trigger] jids@[k]).0
                            < final(self).counter()
                    &&& forall|k: int| 0 <= k < jids@.len() ==> final(self).has_completed(
                        #[trigger] jids@[k],
                    )
                    &&& forall|k: int| 0 <= k < jids@.len() ==> (#[trigger] jids@[k]).0 < final(self).counter()
                    &&& forall|c: u32| old(self).counter() <= c < final(self).counter() ==> final(self).has_completed(Jid(c))
                    &&& forall|k1: int, k2: int|
                        0 <= k1 < k2 < jids@.len() ==> (#[trigger] jids@[k1]).0
                            < (#[trigger] jids@[k2]).0
                },
                Err(_) => true,
            },
        decreases fuel, 0int,
    {
        let code: i32 = if left.len() > 0 {
            let last = left[left.len() - 1];
            match self.completed_jobs.get(&last.0) {
                Some(st) => st.exit_code,
                None => 0,
            }
        } else {
            0
        };
        proof {
            assert(code == last_code_of(*old(self), left@));
        }
        if condition_met(op, code) {
            let jr = self.spawn_procs_from_ast(opts, ec, right, fuel - 1)?;
            let ghost m_a = *self;
            let ghost jrs = jr@;
            match self.await_all(&jr) {
                Err(e) => {
                    return Err(e);
                },
                Ok(_) => {},
            }
            proof {
                assert forall|c: u32| old(self).counter() <= c < self.counter() implies self
                    .has_completed(Jid(c)) by {
                    assert(m_a.has_completed(Jid(c)) || exists|k: int|
                        0 <= k < jrs.len() && jrs[k] == Jid(c));
                    if m_a.has_completed(Jid(c)) {
                        assert(m_a.completed().submap_of(self.completed()));
                        assert(m_a.completed().dom().contains(c));
                    } else {
                        let k = choose|k: int| 0 <= k < jrs.len() && jrs[k] == Jid(c);
                        assert(self.has_completed(jrs[k]));
                    }
                }
            }
            Ok(jr)
        } else {
            Ok(left)
        }
    }

    /// The top-level evaluator entry: realize a command tree with no
    /// redirections and no environment augmentation, await every spawned
    /// job, and report the status of the last one — or a synthetic
    /// zero status carrying this process's pid if the tree produced no
    /// job, as a function definition, a comment or a group does.
    pub fn run(&mut self, ec: &mut ExecutionContext, command: Command) -> (r: Result<
        ExitStatus,
        ErrorKind,
    >)
        requires
            old(self).wf(),
        ensures
            final(self).wf(),
            old(self).completed().submap_of(final(self).completed()),
            final(ec).cwd@ == old(ec).cwd@,
            final(ec).vars.as_map() == old(ec).vars.as_map(),
            command matches Command::BraceGroup(_) ==> final(ec).funcs.as_map() == old(ec).funcs.as_map(),
            match r {
                Ok(st) => {
                    &&& st.wf()
                    &&& (command matches Command::BraceGroup(_) || command
                        matches Command::Group(_) || command matches Command::Function(_, _)
                        || command matches Command::Comment(_)) ==> st.exit_code == 0
                        && st.signal is None
                },
                Err(_) => true,
            },
            command matches Command::Function(name, body) ==> (r is Ok
                ==> final(ec).funcs.as_map() == old(ec).funcs.as_map().insert(
                word_compiled(name@, old(ec).vars.as_map()),
                *body,
            )),
            command matches Command::Comment(_) ==> r is Ok,
            command matches Command::Function(_, _) ==> r is Ok,
            command matches Command::SimpleCommand(ws) ==> (ws@.len() == 0 ==> r
                == Err::<ExitStatus, ErrorKind>(ErrorKind::ExecFailed(None))),
            command matches Command::SimpleCommand(ws) ==> (r matches Ok(st) ==> (ws@.len() > 0
                && !old(ec).funcs.as_map().contains_key(
                    word_compiled(ws@[0]@, old(ec).vars.as_map()),
                ) ==> final(self).counter() == old(self).counter() + 1 && final(self).has_completed(Jid(old(self).counter())) && st == final(self).status_of(
                    Jid(old(self).counter()),
                ))),
            command matches Command::SimpleCommand(ws) ==> (ws@.len() > 0 && !old(ec).funcs.as_map().contains_key(word_compiled(ws@[0]@, old(ec).vars.as_map()))
                && (exists|t: int|
                0 <= t < ws@.len() && contains_byte(
                    word_compiled((#[trigger] ws@[t])@, old(ec).vars.as_map()),
                    0,
                )) ==> r is Err),
            r is Ok ==> forall|c: u32|
                old(self).counter() <= c < final(self).counter() ==> final(self).has_completed(
                    Jid(c),
                ),
            r is Ok ==> forall|i: int|
                0 <= i < final(self).running().len() ==> (#[trigger] final(self).running()[i]).1.0 < old(self).counter(),
    {
        let opts = ProcOptions {
            close_fds: Vec::new(),
            env: Vec::new(),
            stdin: None,
            stdout: None,
        };
        let jids = self.spawn_procs_from_ast(&opts, ec, &command, u64::MAX)?;
        let ghost m_a = *self;
        let ghost js = jids@;
        match self.await_all(&jids) {
            Err(e) => {
                return Err(e);
            },
            Ok(_) => {},
        }
        proof {
            assert forall|c: u32|
                old(self).counter() <= c < self.counter() implies self.has_completed(Jid(c)) by {
                assert(m_a.has_completed(Jid(c)) || exists|k: int|
                    0 <= k < js.len() && js[k] == Jid(c));
                if m_a.has_completed(Jid(c)) {
                    assert(m_a.completed().submap_of(self.completed()));
                    assert(m_a.completed().dom().contains(c));
                } else {
                    let k = choose|k: int| 0 <= k < js.len() && js[k] == Jid(c);
                    assert(self.has_completed(js[k]));
                }
            }
            assert forall|i: int|
                0 <= i < self.running().len() implies (#[trigger] self.running()[i]).1.0 < old(self).counter() by {
                let j2 = self.running()[i].1;
                assert(j2.0 < self.counter());
                assert(!self.completed().contains_key(j2.0));
                if j2.0 >= old(self).counter() {
                    assert(self.has_completed(Jid(j2.0)));
                    assert(Jid(j2.0) == j2);
                }
            }
        }
        if jids.len() == 0 {
            Ok(ExitStatus { pid: sys_getpid(), exit_code: 0, core_dumped: false, signal: None })
        } else {
            let last = jids[jids.len() - 1];
            match self.completed_jobs.get(&last.0) {
                Some(st) => Ok(*st),
                None => Err(ErrorKind::WaitFailed(None)),
            }
        }
    }
}

} // verus!
