//! Helpers on byte vectors: explicit copies and byte-for-byte equality.

use vstd::prelude::*;

verus! {

/// An explicit copy of a byte vector.
pub fn copy_bytes(s: &Vec<u8>) -> (t: Vec<u8>)
    ensures
        t@ == s@,
{
    let mut t: Vec<u8> = Vec::new();
    let mut i: usize = 0;
    while i < s.len()
        invariant
            i <= s.len(),
            t@ == s@.subrange(0, i as int),
        decreases s.len() - i,
    {
        t.push(s[i]);
        i = i + 1;
    }
    proof {
        assert(t@ =~= s@);
    }
    t
}

/// Byte-for-byte equality of two byte vectors.
pub fn bytes_eq(a: &Vec<u8>, b: &Vec<u8>) -> (r: bool)
    ensures
        r == (a@ == b@),
{
    if a.len() != b.len() {
        return false;
    }
    let mut i: usize = 0;
    while i < a.len()
        invariant
            i <= a.len(),
            a@.len() == b@.len(),
            forall|j: int| 0 <= j < i ==> a@[j] == b@[j],
        decreases a.len() - i,
    {
        if a[i] != b[i] {
            return false;
        }
        i = i + 1;
    }
    proof {
        assert(a@ =~= b@);
    }
    true
}

} // verus!
