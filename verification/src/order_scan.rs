//! The search for the first place in which two byte strings differ.
use crate::order::{differ_at, one_starts_other};
use vstd::prelude::*;

verus! {

/// The length of a sequence, as a number.
pub open spec fn length<T>(a: Seq<T>) -> int {
    a.len() as int
}

/// The whole of a sequence is the sequence.
pub proof fn lemma_take_all<T>(a: Seq<T>)
    ensures
        a.take(a.len() as int) == a,
{
    assert(a.take(a.len() as int) =~= a);
}

/// The place of the first byte in which the two strings differ, if they differ in a place
/// that both have.
pub fn first_difference(a: &[u8], b: &[u8]) -> (r: Option<usize>)
    ensures
        match r {
            Some(i) => differ_at(a@, b@, i),
            None => one_starts_other(a@, b@),
        },
{
    let n = if a.len() <= b.len() {
        a.len()
    } else {
        b.len()
    };
    let mut i: usize = 0;
    while i < n
        invariant
            i <= n,
            n <= a@.len(),
            n <= b@.len(),
            n == a@.len() || n == b@.len(),
            a@.take(i as int) == b@.take(i as int),
        decreases n - i,
    {
        if a[i] != b[i] {
            return Some(i);
        }
        assert(a@.take(i + 1) =~= a@.take(i as int).push(a@[i as int]));
        assert(b@.take(i + 1) =~= b@.take(i as int).push(b@[i as int]));
        i += 1;
    }
    proof {
        lemma_take_all(a@);
        lemma_take_all(b@);
    }
    None
}

} // verus!
