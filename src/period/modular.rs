//! Repeated-pattern detection that checks each byte against its offset in the
//! leading block.

use crate::period::{is_repeated_pattern, lemma_tiling_is_periodicity, periodic_below, tiles_with};
use vstd::arithmetic::div_mod::lemma_mod_bound;
use vstd::prelude::*;
use vstd::utf8::encode_utf8;

verus! {

/// Whether every byte equals the byte at its offset within the first `p` bytes.
fn repeats_every(b: &[u8], p: usize) -> (r: bool)
    requires
        1 <= p <= b@.len(),
    ensures
        r == periodic_below(b@, p as int, b@.len() as int),
{
    let n = b.len();
    let mut i: usize = 0;
    while i < n
        invariant
            n == b@.len(),
            1 <= p <= n,
            i <= n,
            periodic_below(b@, p as int, i as int),
        decreases n - i,
    {
        proof {
            lemma_mod_bound(i as int, p as int);
        }
        if b[i] != b[i % p] {
            return false;
        }
        i += 1;
    }
    true
}

/// Whether `s` is one block of its bytes written out two or more times.
pub fn repeated_substring_pattern(s: String) -> (r: bool)
    ensures
        r == is_repeated_pattern(encode_utf8(s@)),
{
    let b = s.as_str().as_bytes();
    let n = b.len();
    if n < 2 {
        return false;
    }
    let mut len: usize = 1;
    while len <= n / 2
        invariant
            b@ == encode_utf8(s@),
            n == b@.len(),
            1 <= len <= n / 2 + 1,
            forall|q: int| 1 <= q < len ==> !#[trigger] tiles_with(b@, q),
        decreases n / 2 + 1 - len,
    {
        if n % len == 0 {
            proof {
                lemma_tiling_is_periodicity(b@, len as int);
            }
            if repeats_every(b, len) {
                assert(tiles_with(b@, len as int));
                return true;
            }
        }
        len += 1;
    }
    false
}

} // verus!
