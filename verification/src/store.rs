//! The variable and function stores of an execution context. The core
//! treats both as key/value maps with read, write and lookup; they are
//! kept as association vectors in which a later binding shadows an
//! earlier one of the same name.

use vstd::prelude::*;
use std::rc::Rc;
use crate::ast::Command;
use crate::bytes::{bytes_dup, bytes_eq};
use crate::sys::rc_command_dup;

verus! {

/// The binding a variable association vector denotes: later entries win.
pub open spec fn vmap_of(s: Seq<(Vec<u8>, Vec<u8>)>) -> Map<Seq<u8>, Seq<u8>>
    decreases s.len(),
{
    if s.len() == 0 {
        Map::empty()
    } else {
        vmap_of(s.drop_last()).insert(s.last().0@, s.last().1@)
    }
}

proof fn vmap_absent(s: Seq<(Vec<u8>, Vec<u8>)>, k: Seq<u8>)
    requires
        forall|i: int| 0 <= i < s.len() ==> s[i].0@ != k,
    ensures
        !vmap_of(s).contains_key(k),
    decreases s.len(),
{
    if s.len() > 0 {
        vmap_absent(s.drop_last(), k);
    }
}

proof fn vmap_found(s: Seq<(Vec<u8>, Vec<u8>)>, i: int)
    requires
        0 <= i < s.len(),
        forall|j: int| i < j < s.len() ==> s[j].0@ != s[i].0@,
    ensures
        vmap_of(s).contains_key(s[i].0@),
        vmap_of(s)[s[i].0@] == s[i].1@,
    decreases s.len(),
{
    if i < s.len() - 1 {
        assert forall|j: int| i < j < s.drop_last().len() implies s.drop_last()[j].0@
            != s.drop_last()[i].0@ by {
            assert(s.drop_last()[j] == s[j]);
        }
        vmap_found(s.drop_last(), i);
        assert(s.last().0@ != s[i].0@);
    }
}

/// The variable store: byte-string names bound to byte-string values.
#[derive(Debug)]
pub struct Variables {
    pub entries: Vec<(Vec<u8>, Vec<u8>)>,
}

impl Variables {
    /// The binding this store denotes.
    pub open spec fn as_map(self) -> Map<Seq<u8>, Seq<u8>> {
        vmap_of(self.entries@)
    }

    /// An empty store.
    pub fn new() -> (r: Variables)
        ensures
            r.as_map() == Map::<Seq<u8>, Seq<u8>>::empty(),
    {
        Variables { entries: Vec::new() }
    }

    /// The value bound to `name`, or the empty byte string when unset.
    pub fn value(&self, name: &Vec<u8>) -> (r: Vec<u8>)
        ensures
            self.as_map().contains_key(name@) ==> r@ == self.as_map()[name@],
            !self.as_map().contains_key(name@) ==> r@ == Seq::<u8>::empty(),
    {
        let n = self.entries.len();
        let mut i: usize = n;
        while i > 0
            invariant
                n == self.entries@.len(),
                0 <= i <= n,
                forall|j: int| i <= j < n ==> self.entries@[j].0@ != name@,
            decreases i,
        {
            i -= 1;
            if bytes_eq(&self.entries[i].0, name) {
                proof {
                    vmap_found(self.entries@, i as int);
                }
                return bytes_dup(&self.entries[i].1);
            }
        }
        proof {
            vmap_absent(self.entries@, name@);
        }
        Vec::new()
    }

    /// Bind `name` to `val`, shadowing any earlier binding.
    pub fn define(&mut self, name: Vec<u8>, val: Vec<u8>)
        ensures
            final(self).as_map() == old(self).as_map().insert(name@, val@),
    {
        let ghost s0 = self.entries@;
        self.entries.push((name, val));
        proof {
            assert(self.entries@.drop_last() =~= s0);
        }
    }

    /// A deep copy, denoting the same binding; mutations of the copy are
    /// invisible to the original.
    pub fn duplicate(&self) -> (r: Variables)
        ensures
            r.as_map() == self.as_map(),
    {
        let n = self.entries.len();
        let mut out: Vec<(Vec<u8>, Vec<u8>)> = Vec::new();
        let mut i: usize = 0;
        while i < n
            invariant
                n == self.entries@.len(),
                0 <= i <= n,
                vmap_of(out@) == vmap_of(self.entries@.subrange(0, i as int)),
                out@.len() == i,
            decreases n - i,
        {
            let ghost o0 = out@;
            let k = bytes_dup(&self.entries[i].0);
            let v = bytes_dup(&self.entries[i].1);
            out.push((k, v));
            proof {
                assert(out@.drop_last() =~= o0);
                assert(self.entries@.subrange(0, i + 1 as int).drop_last() =~= self.entries@
                    .subrange(0, i as int));
                assert(self.entries@.subrange(0, i + 1 as int).last() == self.entries@[i as int]);
            }
            i += 1;
        }
        proof {
            assert(self.entries@.subrange(0, n as int) =~= self.entries@);
        }
        Variables { entries: out }
    }
}

/// The function-map association vector's binding: later entries win.
pub open spec fn fmap_of(s: Seq<(Vec<u8>, Rc<Command>)>) -> Map<Seq<u8>, Command>
    decreases s.len(),
{
    if s.len() == 0 {
        Map::empty()
    } else {
        fmap_of(s.drop_last()).insert(s.last().0@, *s.last().1)
    }
}

proof fn fmap_absent(s: Seq<(Vec<u8>, Rc<Command>)>, k: Seq<u8>)
    requires
        forall|i: int| 0 <= i < s.len() ==> s[i].0@ != k,
    ensures
        !fmap_of(s).contains_key(k),
    decreases s.len(),
{
    if s.len() > 0 {
        fmap_absent(s.drop_last(), k);
    }
}

proof fn fmap_found(s: Seq<(Vec<u8>, Rc<Command>)>, i: int)
    requires
        0 <= i < s.len(),
        forall|j: int| i < j < s.len() ==> s[j].0@ != s[i].0@,
    ensures
        fmap_of(s).contains_key(s[i].0@),
        fmap_of(s)[s[i].0@] == *s[i].1,
    decreases s.len(),
{
    if i < s.len() - 1 {
        assert forall|j: int| i < j < s.drop_last().len() implies s.drop_last()[j].0@
            != s.drop_last()[i].0@ by {
            assert(s.drop_last()[j] == s[j]);
        }
        fmap_found(s.drop_last(), i);
        assert(s.last().0@ != s[i].0@);
    }
}

/// The function store: byte-string names bound to command-tree bodies.
#[derive(Debug)]
pub struct Functions {
    pub entries: Vec<(Vec<u8>, Rc<Command>)>,
}

impl Functions {
    /// The binding this store denotes.
    pub open spec fn as_map(self) -> Map<Seq<u8>, Command> {
        fmap_of(self.entries@)
    }

    /// An empty store.
    pub fn new() -> (r: Functions)
        ensures
            r.as_map() == Map::<Seq<u8>, Command>::empty(),
    {
        Functions { entries: Vec::new() }
    }

    /// The body bound to `name`, if any.
    pub fn value(&self, name: &Vec<u8>) -> (r: Option<Rc<Command>>)
        ensures
            match r {
                Some(c) => self.as_map().contains_key(name@) && *c == self.as_map()[name@],
                None => !self.as_map().contains_key(name@),
            },
    {
        let n = self.entries.len();
        let mut i: usize = n;
        while i > 0
            invariant
                n == self.entries@.len(),
                0 <= i <= n,
                forall|j: int| i <= j < n ==> self.entries@[j].0@ != name@,
            decreases i,
        {
            i -= 1;
            if bytes_eq(&self.entries[i].0, name) {
                proof {
                    fmap_found(self.entries@, i as int);
                }
                return Some(rc_command_dup(&self.entries[i].1));
            }
        }
        proof {
            fmap_absent(self.entries@, name@);
        }
        None
    }

    /// Bind `name` to `body`, shadowing any earlier binding.
    pub fn insert(&mut self, name: Vec<u8>, body: Rc<Command>)
        ensures
            final(self).as_map() == old(self).as_map().insert(name@, *body),
    {
        let ghost s0 = self.entries@;
        self.entries.push((name, body));
        proof {
            assert(self.entries@.drop_last() =~= s0);
        }
    }

    /// A deep copy of the store's spine; bodies are shared subtrees.
    pub fn duplicate(&self) -> (r: Functions)
        ensures
            r.as_map() == self.as_map(),
    {
        let n = self.entries.len();
        let mut out: Vec<(Vec<u8>, Rc<Command>)> = Vec::new();
        let mut i: usize = 0;
        while i < n
            invariant
                n == self.entries@.len(),
                0 <= i <= n,
                fmap_of(out@) == fmap_of(self.entries@.subrange(0, i as int)),
                out@.len() == i,
            decreases n - i,
        {
            let ghost o0 = out@;
            let k = bytes_dup(&self.entries[i].0);
            let v = rc_command_dup(&self.entries[i].1);
            out.push((k, v));
            proof {
                assert(out@.drop_last() =~= o0);
                assert(self.entries@.subrange(0, i + 1 as int).drop_last() =~= self.entries@
                    .subrange(0, i as int));
                assert(self.entries@.subrange(0, i + 1 as int).last() == self.entries@[i as int]);
            }
            i += 1;
        }
        proof {
            assert(self.entries@.subrange(0, n as int) =~= self.entries@);
        }
        Functions { entries: out }
    }
}

} // verus!
