//! Tables of optional entries indexed by small integers, as a process keeps them
//! for its files, mutexes, semaphores and condition variables.
use vstd::prelude::*;

verus! {

/// `i` is the first free index of `s`: every entry before it is taken,
/// and it is either an empty entry or one past the end.
pub open spec fn is_free_slot<T>(s: Seq<Option<T>>, i: int) -> bool {
    &&& 0 <= i <= s.len()
    &&& forall|j: int| 0 <= j < i ==> #[trigger] s[j] is Some
    &&& i < s.len() ==> s[i] is None
}

/// `s` with `x` placed at index `i`, which is either inside `s` or one past its end.
pub open spec fn placed<T>(s: Seq<Option<T>>, i: int, x: T) -> Seq<Option<T>> {
    if i < s.len() {
        s.update(i, Some(x))
    } else {
        s.push(Some(x))
    }
}

/// `s`, lengthened with empty entries to at least `n` entries.
pub open spec fn padded_none<T>(s: Seq<Option<T>>, n: int) -> Seq<Option<T>> {
    if s.len() >= n {
        s
    } else {
        s + Seq::new((n - s.len()) as nat, |k: int| None::<T>)
    }
}

/// There is only one first free index.
pub proof fn lemma_free_slot_unique<T>(s: Seq<Option<T>>, i: int, j: int)
    requires
        is_free_slot(s, i),
        is_free_slot(s, j),
    ensures
        i == j,
{
    if i < j {
        assert(s[i] is Some);
    } else if j < i {
        assert(s[j] is Some);
    }
}

/// Finds the first empty entry of `v`, or its length when every entry is taken.
pub fn free_slot<T>(v: &Vec<Option<T>>) -> (r: usize)
    ensures
        is_free_slot(v@, r as int),
{
    let mut i: usize = 0;
    while i < v.len()
        invariant
            i <= v@.len(),
            forall|j: int| 0 <= j < i ==> #[trigger] v@[j] is Some,
        decreases v@.len() - i,
    {
        if v[i].is_none() {
            return i;
        }
        i = i + 1;
    }
    i
}

/// Lengthens `v` with empty entries until it has at least `n` of them.
pub fn pad_with_none<T>(v: &mut Vec<Option<T>>, n: usize)
    ensures
        final(v)@ == padded_none(old(v)@, n as int),
{
    let ghost s = v@;
    while v.len() < n
        invariant
            s.len() <= v@.len() || v@ == s,
            v@.len() <= s.len() ==> v@ == s,
            v@.len() > s.len() ==> v@.len() <= n && v@ == s + Seq::new((v@.len() - s.len()) as nat, |k: int| None::<T>),
        decreases n - v@.len(),
    {
        let ghost before = v@;
        v.push(None);
        proof {
            if before.len() <= s.len() {
                assert(before == s);
            }
            assert(v@ =~= s + Seq::new((v@.len() - s.len()) as nat, |k: int| None::<T>));
        }
    }
    proof {
        if v@.len() > s.len() {
            assert(v@ =~= padded_none(s, n as int));
        }
    }
}

} // verus!
