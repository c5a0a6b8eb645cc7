//! Small helpers on byte strings, which stand in for text throughout the
//! library: text columns are interleaved through their binary form.

use vstd::prelude::*;

verus! {

/// A fresh copy of a byte string.
pub fn clone_bytes(v: &Vec<u8>) -> (r: Vec<u8>)
    ensures
        r@ == v@,
{
    let mut out: Vec<u8> = Vec::new();
    let mut i: usize = 0;
    while i < v.len()
        invariant
            i <= v@.len(),
            out@ =~= v@.take(i as int),
        decreases v@.len() - i,
    {
        out.push(v[i]);
        i += 1;
    }
    proof {
        assert(v@.take(v@.len() as int) =~= v@);
    }
    out
}

/// Whether two byte strings hold the same bytes.
pub fn bytes_eq(u: &Vec<u8>, v: &Vec<u8>) -> (r: bool)
    ensures
        r == (u@ == v@),
{
    if u.len() != v.len() {
        proof {
            assert(u@ != v@);
        }
        return false;
    }
    let mut i: usize = 0;
    while i < u.len()
        invariant
            i <= u@.len(),
            u@.len() == v@.len(),
            forall|j: int| 0 <= j < i ==> u@[j] == v@[j],
        decreases u@.len() - i,
    {
        if u[i] != v[i] {
            return false;
        }
        i += 1;
    }
    proof {
        assert(u@ =~= v@);
    }
    true
}

} // verus!
