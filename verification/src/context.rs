//! The execution context threaded through evaluation: current working
//! directory, variable store and function store, and the PATH search
//! for executables.

use vstd::prelude::*;
use crate::ast::Command;
use crate::bytes::{bytes_dup, contains_byte, find_byte};
use crate::error::ErrorKind;
use crate::store::{Functions, Variables};
use crate::sys::sys_path_exists;

verus! {

/// The path separator byte `/`.
pub const SEP: u8 = 47;

/// The PATH list delimiter byte `:`.
pub const DELIM: u8 = 58;

/// Whether a program name holds a path separator, in which case it
/// names its executable verbatim and no PATH search happens.
pub open spec fn has_sep(s: Seq<u8>) -> bool {
    contains_byte(s, SEP)
}

/// A maximal, nonempty, delimiter-free segment `[i, j)` of a PATH value.
pub open spec fn path_entry_at(pv: Seq<u8>, i: int, j: int) -> bool {
    &&& 0 <= i < j <= pv.len()
    &&& forall|k: int| i <= k < j ==> pv[k] != DELIM
    &&& i == 0 || pv[i - 1] == DELIM
    &&& j == pv.len() || pv[j] == DELIM
}

/// A directory joined with a program name: `dir`, one separator, `prog`.
pub open spec fn joined(dir: Seq<u8>, prog: Seq<u8>) -> Seq<u8> {
    dir + seq![SEP] + prog
}

/// The variable name `PATH`.
pub open spec fn path_key() -> Seq<u8> {
    seq![80u8, 65u8, 84u8, 72u8]
}

/// The mutable environment of evaluation: working directory, variables
/// and functions. A brace group clones it; everything else shares it.
#[derive(Debug)]
pub struct ExecutionContext {
    /// Current working directory, as the bytes of a filesystem path.
    pub cwd: Vec<u8>,
    /// The variable store.
    pub vars: Variables,
    /// The function store.
    pub funcs: Functions,
}

/// `joined(pv.subrange(i, j), prog)` as an executable computation.
fn build_candidate(pv: &Vec<u8>, start: usize, end: usize, prog: &Vec<u8>) -> (r: Vec<u8>)
    requires
        start <= end <= pv@.len(),
    ensures
        r@ == joined(pv@.subrange(start as int, end as int), prog@),
{
    let mut r: Vec<u8> = Vec::new();
    let mut k: usize = start;
    while k < end
        invariant
            start <= k <= end <= pv@.len(),
            r@ == pv@.subrange(start as int, k as int),
        decreases end - k,
    {
        r.push(pv[k]);
        assert(r@ =~= pv@.subrange(start as int, k + 1 as int));
        k += 1;
    }
    r.push(SEP);
    let n = prog.len();
    let mut m: usize = 0;
    while m < n
        invariant
            0 <= m <= n,
            n == prog@.len(),
            r@ == pv@.subrange(start as int, end as int) + seq![SEP] + prog@.subrange(0, m as int),
        decreases n - m,
    {
        r.push(prog[m]);
        assert(r@ =~= pv@.subrange(start as int, end as int) + seq![SEP] + prog@.subrange(
            0,
            m + 1 as int,
        ));
        m += 1;
    }
    proof {
        assert(prog@.subrange(0, n as int) =~= prog@);
    }
    r
}

impl ExecutionContext {
    /// An empty context: no variables, no functions, and the current
    /// directory as working directory.
    pub fn new() -> (r: ExecutionContext)
        ensures
            r.vars.as_map() == Map::<Seq<u8>, Seq<u8>>::empty(),
            r.funcs.as_map() == Map::<Seq<u8>, Command>::empty(),
            r.cwd@ == seq![46u8],
    {
        ExecutionContext { cwd: vec![46u8], vars: Variables::new(), funcs: Functions::new() }
    }

    /// Read access to the variable store.
    pub fn variables(&self) -> (r: &Variables)
        ensures
            *r == self.vars,
    {
        &self.vars
    }

    /// Mutable access to the variable store.
    pub fn variables_mut(&mut self) -> (r: &mut Variables)
    {
        &mut self.vars
    }

    /// Read access to the function store.
    pub fn functions(&self) -> (r: &Functions)
        ensures
            *r == self.funcs,
    {
        &self.funcs
    }

    /// Mutable access to the function store.
    pub fn functions_mut(&mut self) -> (r: &mut Functions)
    {
        &mut self.funcs
    }

    /// The PATH value this context's variables denote: the value bound
    /// to `PATH`, or the empty byte string when unset.
    pub open spec fn path_list(self) -> Seq<u8> {
        if self.vars.as_map().contains_key(path_key()) {
            self.vars.as_map()[path_key()]
        } else {
            Seq::<u8>::empty()
        }
    }

    /// Resolve a program name to an executable path. A name holding a
    /// path separator is used verbatim; otherwise the PATH value is
    /// split on the list delimiter and the first entry under which a
    /// directory entry for the name resolves wins, left to right.
    pub fn find_executable(&self, prog: &Vec<u8>) -> (r: Result<Vec<u8>, ErrorKind>)
        ensures
            match r {
                Ok(p) => {
                    if has_sep(prog@) {
                        p@ == prog@
                    } else {
                        exists|i: int, j: int|
                            path_entry_at(self.path_list(), i, j) && p@ == joined(
                                self.path_list().subrange(i, j),
                                prog@,
                            )
                    }
                },
                Err(e) => {
                    &&& e matches ErrorKind::MissingExecutable(n) && n@ == prog@
                    &&& !has_sep(prog@)
                },
            },
    {
        if find_byte(prog, SEP) {
            return Ok(bytes_dup(prog));
        }
        let path_name: Vec<u8> = vec![80u8, 65u8, 84u8, 72u8];
        proof {
            assert(path_name@ =~= path_key());
        }
        let pv = self.vars.value(&path_name);
        let n = pv.len();
        let mut start: usize = 0;
        let mut k: usize = 0;
        while k < n
            invariant
                0 <= start <= k <= n,
                n == pv@.len(),
                pv@ == self.path_list(),
                !has_sep(prog@),
                forall|m: int| start <= m < k ==> pv@[m] != DELIM,
                start == 0 || pv@[start - 1] == DELIM,
            decreases n - k,
        {
            if pv[k] == DELIM {
                if start < k {
                    let cand = build_candidate(&pv, start, k, prog);
                    if sys_path_exists(&cand) {
                        proof {
                            assert(path_entry_at(pv@, start as int, k as int));
                        }
                        return Ok(cand);
                    }
                }
                start = k + 1;
            }
            k += 1;
        }
        if start < n {
            let cand = build_candidate(&pv, start, n, prog);
            if sys_path_exists(&cand) {
                proof {
                    assert(path_entry_at(pv@, start as int, n as int));
                }
                return Ok(cand);
            }
        }
        Err(ErrorKind::MissingExecutable(bytes_dup(prog)))
    }

    /// A deep copy of this context: same working directory and the same
    /// variable and function bindings, with mutations of the copy
    /// invisible to the original.
    pub fn duplicate(&self) -> (r: ExecutionContext)
        ensures
            r.cwd@ == self.cwd@,
            r.vars.as_map() == self.vars.as_map(),
            r.funcs.as_map() == self.funcs.as_map(),
    {
        ExecutionContext {
            cwd: bytes_dup(&self.cwd),
            vars: self.vars.duplicate(),
            funcs: self.funcs.duplicate(),
        }
    }
}

} // verus!
