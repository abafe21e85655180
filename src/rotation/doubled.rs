//! Rotation check that searches the doubled string for the goal.

use crate::rotation::{is_rotation, occurs_at, occurs_in};
use vstd::prelude::*;
use vstd::utf8::encode_utf8;

verus! {

/// The bytes of `b` written twice, one copy after the other.
fn twice(b: &[u8]) -> (r: Vec<u8>)
    ensures
        r@ == b@ + b@,
{
    let n = b.len();
    let mut r: Vec<u8> = Vec::new();
    let mut round: usize = 0;
    while round < 2
        invariant
            n == b@.len(),
            round <= 2,
            round == 0 ==> r@ == Seq::<u8>::empty(),
            round == 1 ==> r@ == b@,
            round == 2 ==> r@ == b@ + b@,
        decreases 2 - round,
    {
        let ghost before = r@;
        let mut i: usize = 0;
        while i < n
            invariant
                n == b@.len(),
                i <= n,
                r@ == before + b@.subrange(0, i as int),
            decreases n - i,
        {
            r.push(b[i]);
            proof {
                assert(b@.subrange(0, i + 1) == b@.subrange(0, i as int).push(b@[i as int]));
            }
            i += 1;
        }
        assert(b@.subrange(0, n as int) == b@);
        round += 1;
    }
    r
}

/// Whether `needle` equals the bytes of `hay` from `k` on.
fn matches_at(hay: &[u8], needle: &[u8], k: usize) -> (r: bool)
    requires
        k + needle@.len() <= hay@.len(),
    ensures
        r == occurs_at(hay@, needle@, k as int),
{
    let len = needle.len();
    let hay_len = hay.len();
    let mut i: usize = 0;
    while i < len
        invariant
            len == needle@.len(),
            hay_len == hay@.len(),
            k + len <= hay@.len(),
            i <= len,
            forall|t: int| 0 <= t < i ==> #[trigger] needle@[t] == hay@[k + t],
        decreases len - i,
    {
        if hay[k + i] != needle[i] {
            assert(hay@.subrange(k as int, k + len)[i as int] != needle@[i as int]);
            return false;
        }
        i += 1;
    }
    assert(hay@.subrange(k as int, k + len) =~= needle@);
    true
}

/// Whether `needle` is a contiguous part of `hay`.
fn find(hay: &[u8], needle: &[u8]) -> (r: bool)
    ensures
        r == occurs_in(hay@, needle@),
{
    if needle.len() > hay.len() {
        assert(forall|k: int| !#[trigger] occurs_at(hay@, needle@, k));
        return false;
    }
    let last = hay.len() - needle.len();
    let mut k: usize = 0;
    loop
        invariant
            last == hay@.len() - needle@.len(),
            k <= last,
            forall|j: int| 0 <= j < k ==> !#[trigger] occurs_at(hay@, needle@, j),
        decreases last - k,
    {
        if matches_at(hay, needle, k) {
            return true;
        }
        if k == last {
            assert(forall|j: int| !#[trigger] occurs_at(hay@, needle@, j));
            return false;
        }
        k += 1;
    }
}

/// Whether `goal` is a rotation of `s`, over their bytes: equal lengths, and
/// `goal` found within `s` written twice.
pub fn rotate_string(s: String, goal: String) -> (r: bool)
    ensures
        r == is_rotation(encode_utf8(s@), encode_utf8(goal@)),
{
    let sb = s.as_str().as_bytes();
    let gb = goal.as_str().as_bytes();
    let doubled = twice(sb);
    find(doubled.as_slice(), gb) && sb.len() == gb.len()
}

} // verus!
