//! Functions of the kind a program exports across the boundary, whose
//! declarations the header carries.
use vstd::prelude::*;

verus! {

/// The largest of `ints`, or nothing for an empty slice.
pub fn max(ints: &[i32]) -> (r: Option<i32>)
    ensures
        r is None <==> ints@.len() == 0,
        r is Some ==> exists|i: int| 0 <= i < ints@.len() && ints@[i] == r->0,
        r is Some ==> forall|i: int| 0 <= i < ints@.len() ==> ints@[i] <= r->0,
{
    if ints.len() == 0 {
        return None;
    }
    let mut best: i32 = ints[0];
    let mut i: usize = 1;
    while i < ints.len()
        invariant
            1 <= i <= ints@.len(),
            exists|k: int| 0 <= k < i && ints@[k] == best,
            forall|k: int| 0 <= k < i ==> ints@[k] <= best,
        decreases ints@.len() - i,
    {
        if ints[i] > best {
            best = ints[i];
        }
        i = i + 1;
    }
    Some(best)
}

/// `fst` followed by `snd`.
pub fn concat_str(fst: &str, snd: &str) -> (r: String)
    ensures
        r@ == fst@ + snd@,
{
    let mut s = fst.to_owned();
    s.append(snd);
    s
}

} // verus!
