//! Rotation check that reads `s` around the end back to its start, with no
//! doubled copy.

use crate::rotation::{is_rotation, lemma_window_is_rotate, occurs_at, rotate};
use vstd::prelude::*;
use vstd::utf8::encode_utf8;

verus! {

/// Whether `g` equals `s` read cyclically from position `k`.
fn matches_from(s: &[u8], g: &[u8], k: usize) -> (r: bool)
    requires
        s@.len() == g@.len(),
        k < s@.len(),
    ensures
        r == occurs_at(s@ + s@, g@, k as int),
{
    let n = s.len();
    let tail = n - k;
    proof {
        lemma_window_is_rotate(s@, k as int);
    }
    let ghost w = rotate(s@, k as int);
    let mut i: usize = 0;
    while i < n
        invariant
            n == s@.len(),
            n == g@.len(),
            k < n,
            tail == n - k,
            w == rotate(s@, k as int),
            i <= n,
            forall|t: int| 0 <= t < i ==> #[trigger] g@[t] == w[t],
        decreases n - i,
    {
        let at = if i < tail {
            k + i
        } else {
            i - tail
        };
        assert(w[i as int] == s@[at as int]);
        if s[at] != g[i] {
            return false;
        }
        i += 1;
    }
    assert(w =~= g@);
    true
}

/// Whether `goal` is a rotation of `s`, over their bytes: equal lengths, and
/// `goal` equal to `s` read cyclically from some position.
pub fn rotate_string(s: &str, goal: &str) -> (r: bool)
    ensures
        r == is_rotation(encode_utf8(s@), encode_utf8(goal@)),
{
    let sb = s.as_bytes();
    let gb = goal.as_bytes();
    let n = sb.len();
    if n != gb.len() {
        return false;
    }
    if n == 0 {
        assert((sb@ + sb@).subrange(0, 0) =~= gb@);
        assert(occurs_at(sb@ + sb@, gb@, 0));
        return true;
    }
    let mut k: usize = 0;
    while k < n
        invariant
            sb@ == encode_utf8(s@),
            gb@ == encode_utf8(goal@),
            n == sb@.len(),
            n == gb@.len(),
            0 < n,
            k <= n,
            forall|j: int| 0 <= j < k ==> !#[trigger] occurs_at(sb@ + sb@, gb@, j),
        decreases n - k,
    {
        if matches_from(sb, gb, k) {
            return true;
        }
        k += 1;
    }
    proof {
        lemma_window_is_rotate(sb@, 0);
        lemma_window_is_rotate(sb@, n as int);
        assert(rotate(sb@, 0) =~= rotate(sb@, n as int));
        assert(!occurs_at(sb@ + sb@, gb@, 0));
        assert forall|j: int| !#[trigger] occurs_at(sb@ + sb@, gb@, j) by {
            if j == n {
                assert(!occurs_at(sb@ + sb@, gb@, 0));
            }
        }
    }
    false
}

} // verus!
