//! The command tree the evaluator consumes, as the external parser hands
//! it over: simple commands, pipelines, groups, conditionals, function
//! definitions and comments. A word is opaque to the core but for one
//! operation: compiling it to a byte string against the variable store.

use vstd::prelude::*;
use std::rc::Rc;
use crate::bytes::bytes_dup;
use crate::store::Variables;

verus! {

/// The operator of a conditional pair: `&&` or `||`.
#[derive(Debug, Clone, Copy, PartialEq, Eq, Structural)]
pub enum ConditionOperator {
    AndIf,
    OrIf,
}

/// A word of the source, either literal bytes or a variable reference
/// that expands against the variable store.
#[derive(Debug)]
pub enum Word {
    Literal(Vec<u8>),
    Var(Vec<u8>),
}

/// The mathematical value of a `Word`.
pub enum WordV {
    Literal(Seq<u8>),
    Var(Seq<u8>),
}

impl View for Word {
    type V = WordV;

    open spec fn view(&self) -> WordV {
        match self {
            Word::Literal(b) => WordV::Literal(b@),
            Word::Var(b) => WordV::Var(b@),
        }
    }
}

/// What a word compiles to against a given variable binding: literal
/// bytes stand for themselves; a variable expands to its value, or to
/// the empty byte string when unset.
pub open spec fn word_compiled(w: WordV, vars: Map<Seq<u8>, Seq<u8>>) -> Seq<u8> {
    match w {
        WordV::Literal(b) => b,
        WordV::Var(n) => if vars.contains_key(n) {
            vars[n]
        } else {
            Seq::<u8>::empty()
        },
    }
}

impl Word {
    /// Expand this word to a byte string against `vars`.
    pub fn compile(&self, vars: &Variables) -> (r: Vec<u8>)
        ensures
            r@ == word_compiled(self@, vars.as_map()),
    {
        match self {
            Word::Literal(b) => bytes_dup(b),
            Word::Var(n) => vars.value(n),
        }
    }
}

/// One node of the command tree.
#[derive(Debug)]
pub enum Command {
    /// A program invocation; word expansion of the arguments yields argv.
    SimpleCommand(Vec<Word>),
    /// Two commands whose stdout/stdin are connected by a pipe.
    Pipeline(Box<Command>, Box<Command>),
    /// Sequential execution in a cloned context.
    BraceGroup(Vec<Command>),
    /// Sequential execution sharing the caller's context.
    Group(Vec<Command>),
    /// Short-circuit pair based on the left side's last exit code.
    ConditionalPair(Box<Command>, Box<Command>, ConditionOperator),
    /// A function definition: installs name -> body in the function store.
    Function(Word, Rc<Command>),
    /// A no-op.
    Comment(Vec<u8>),
}

/// Whether a byte separates fields of a source line: space or tab.
pub open spec fn blank(b: u8) -> bool {
    b == 32 || b == 9
}

impl Command {
    /// A simple command built from one line of source: its fields,
    /// split on blanks, as literal words. A minimal stand-in for the
    /// external parser, which is not part of this core.
    #[verifier::loop_isolation(false)]
    pub fn simple_from_line(line: &Vec<u8>) -> (r: Command)
        ensures
            r matches Command::SimpleCommand(ws) ==> forall|i: int|
                0 <= i < ws@.len() ==> ((#[trigger] ws@[i])@ matches WordV::Literal(b) && b.len()
                    > 0 && forall|k: int| 0 <= k < b.len() ==> !blank(b[k])),
            r is SimpleCommand,
    {
        let mut ws: Vec<Word> = Vec::new();
        let mut cur: Vec<u8> = Vec::new();
        let n = line.len();
        let mut i: usize = 0;
        while i < n
            invariant
                0 <= i <= n,
                n == line@.len(),
                forall|t: int| 0 <= t < ws@.len() ==> ((#[trigger] ws@[t])@
                    matches WordV::Literal(b) && b.len() > 0 && forall|k: int|
                    0 <= k < b.len() ==> !blank(b[k])),
                forall|k: int| 0 <= k < cur@.len() ==> !blank(cur@[k]),
            decreases n - i,
        {
            let b = line[i];
            if b == 32 || b == 9 {
                if cur.len() > 0 {
                    let ghost w0 = ws@;
                    let w = Word::Literal(cur);
                    ws.push(w);
                    proof {
                        assert forall|t: int| 0 <= t < ws@.len() implies #[trigger] ws@[t]
                            == (if t < w0.len() {
                            w0[t]
                        } else {
                            w
                        }) by {
                            assert(ws@[t] == w0.push(w)[t]);
                        }
                    }
                    cur = Vec::new();
                }
            } else {
                cur.push(b);
            }
            i += 1;
        }
        if cur.len() > 0 {
            let ghost w0 = ws@;
            let w = Word::Literal(cur);
            ws.push(w);
            proof {
                assert forall|t: int| 0 <= t < ws@.len() implies #[trigger] ws@[t] == (if t
                    < w0.len() {
                    w0[t]
                } else {
                    w
                }) by {
                    assert(ws@[t] == w0.push(w)[t]);
                }
            }
        }
        Command::SimpleCommand(ws)
    }
}

} // verus!
