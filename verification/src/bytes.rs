//! Small executable helpers on byte strings. Argument words, variable
//! names and paths are byte strings throughout the core.

use vstd::prelude::*;

verus! {

/// Structural equality of two byte vectors.
pub fn bytes_eq(a: &Vec<u8>, b: &Vec<u8>) -> (r: bool)
    ensures
        r <==> a@ == b@,
{
    if a.len() != b.len() {
        assert(a@ != b@) by {
            assert(a@.len() != b@.len());
        }
        return false;
    }
    let n = a.len();
    let mut i: usize = 0;
    while i < n
        invariant
            n == a@.len() && n == b@.len(),
            0 <= i <= n,
            forall|j: int| 0 <= j < i ==> a@[j] == b@[j],
        decreases n - i,
    {
        if a[i] != b[i] {
            return false;
        }
        i += 1;
    }
    proof {
        assert(a@ =~= b@);
    }
    true
}

/// An owned copy of a byte vector.
pub fn bytes_dup(a: &Vec<u8>) -> (r: Vec<u8>)
    ensures
        r@ == a@,
{
    let mut r: Vec<u8> = Vec::new();
    let n = a.len();
    let mut i: usize = 0;
    while i < n
        invariant
            n == a@.len(),
            0 <= i <= n,
            r@ == a@.subrange(0, i as int),
        decreases n - i,
    {
        r.push(a[i]);
        assert(r@ =~= a@.subrange(0, i + 1 as int));
        i += 1;
    }
    proof {
        assert(r@ =~= a@);
    }
    r
}

/// Whether the byte `x` occurs in `s`.
pub open spec fn contains_byte(s: Seq<u8>, x: u8) -> bool {
    exists|i: int| 0 <= i < s.len() && s[i] == x
}

/// Executable check for `contains_byte`.
pub fn find_byte(a: &Vec<u8>, x: u8) -> (r: bool)
    ensures
        r <==> contains_byte(a@, x),
{
    let n = a.len();
    let mut i: usize = 0;
    while i < n
        invariant
            n == a@.len(),
            0 <= i <= n,
            forall|j: int| 0 <= j < i ==> a@[j] != x,
        decreases n - i,
    {
        if a[i] == x {
            return true;
        }
        i += 1;
    }
    false
}

} // verus!
