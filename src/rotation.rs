//! Whether one sequence is a cyclic rotation of another.

use vstd::prelude::*;

pub mod cyclic;
pub mod doubled;

verus! {

/// `needle` stands in `hay` starting at position `k`.
pub open spec fn occurs_at<A>(hay: Seq<A>, needle: Seq<A>, k: int) -> bool {
    &&& 0 <= k
    &&& k + needle.len() <= hay.len()
    &&& hay.subrange(k, k + needle.len()) == needle
}

/// `needle` is a contiguous part of `hay`.
pub open spec fn occurs_in<A>(hay: Seq<A>, needle: Seq<A>) -> bool {
    exists|k: int| #[trigger] occurs_at(hay, needle, k)
}

/// `goal` has the length of `s` and is a contiguous part of `s` written twice.
pub open spec fn is_rotation<A>(s: Seq<A>, goal: Seq<A>) -> bool {
    s.len() == goal.len() && occurs_in(s + s, goal)
}

/// `s` with its first `k` elements moved to its end.
pub open spec fn rotate<A>(s: Seq<A>, k: int) -> Seq<A> {
    s.subrange(k, s.len() as int) + s.subrange(0, k)
}

/// The part of `s + s` of length `len s` that starts at `k` is `s` rotated by `k`.
pub proof fn lemma_window_is_rotate<A>(s: Seq<A>, k: int)
    requires
        0 <= k <= s.len(),
    ensures
        (s + s).subrange(k, k + s.len()) == rotate(s, k),
{
    assert((s + s).subrange(k, k + s.len()) =~= rotate(s, k));
}

/// Moving any number of leading elements, fewer than the length, to the end
/// gives a rotation.
pub proof fn lemma_rotate_is_rotation<A>(s: Seq<A>, k: int)
    requires
        0 <= k < s.len(),
    ensures
        is_rotation(s, rotate(s, k)),
{
    lemma_window_is_rotate(s, k);
    assert(occurs_at(s + s, rotate(s, k), k));
}

/// If `goal` is a rotation of `s`, then `s` is a rotation of `goal`.
pub proof fn lemma_rotation_symmetric<A>(s: Seq<A>, goal: Seq<A>)
    requires
        is_rotation(s, goal),
    ensures
        is_rotation(goal, s),
{
    let n = s.len() as int;
    let k = choose|k: int| #[trigger] occurs_at(s + s, goal, k);
    lemma_window_is_rotate(s, k);
    assert(goal == rotate(s, k));
    lemma_window_is_rotate(goal, n - k);
    assert(rotate(goal, n - k) =~= s);
    assert(occurs_at(goal + goal, s, n - k));
}

} // verus!
