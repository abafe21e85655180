//! Repeated-pattern detection that compares whole blocks against the first.

use crate::period::{
    is_repeated_pattern, lemma_block_offset, lemma_exact_quotient, lemma_tiling_is_periodicity,
    periodic_below, tiles_with,
};
use vstd::prelude::*;
use vstd::utf8::encode_utf8;

verus! {

/// Whether the `len` bytes from `start` on equal the first `len` bytes.
fn block_matches_prefix(b: &[u8], start: usize, len: usize) -> (r: bool)
    requires
        start + len <= b@.len(),
    ensures
        r == (forall|t: int| 0 <= t < len ==> #[trigger] b@[start + t] == b@[t]),
{
    let n = b.len();
    let mut t: usize = 0;
    while t < len
        invariant
            n == b@.len(),
            t <= len,
            start + len <= b@.len(),
            forall|u: int| 0 <= u < t ==> #[trigger] b@[start + u] == b@[u],
        decreases len - t,
    {
        if b[start + t] != b[t] {
            return false;
        }
        t += 1;
    }
    true
}

/// The block that starts at `j * p` ends within a length that `p` divides.
proof fn lemma_next_block_fits(j: int, p: int, n: int)
    requires
        0 <= j,
        0 < p,
        0 <= n,
        n % p == 0,
        j * p < n,
    ensures
        j * p + p <= n,
{
    lemma_exact_quotient(n, p);
    let q = n / p;
    assert(j * p + p <= n) by (nonlinear_arith)
        requires
            q * p == n,
            j * p < n,
            0 < p,
    ;
}

/// Whether every block of length `p` equals the first, where `p` divides the length.
fn tiled_by_prefix(b: &[u8], p: usize) -> (r: bool)
    requires
        1 <= p <= b@.len(),
        (b@.len() as int) % (p as int) == 0,
    ensures
        r == periodic_below(b@, p as int, b@.len() as int),
{
    let n = b.len();
    let mut start: usize = p;
    let ghost mut j: int = 1;
    assert forall|i: int| 0 <= i < p implies #[trigger] b@[i] == b@[i % (p as int)] by {
        lemma_block_offset(0, p as int, i);
    }
    while start < n
        invariant
            n == b@.len(),
            1 <= p <= n,
            (n as int) % (p as int) == 0,
            1 <= j,
            start == j * p,
            start <= n,
            periodic_below(b@, p as int, start as int),
        decreases n - start,
    {
        proof {
            lemma_next_block_fits(j, p as int, n as int);
        }
        if !block_matches_prefix(b, start, p) {
            proof {
                let t = choose|t: int| 0 <= t < p && !(#[trigger] b@[start + t] == b@[t]);
                lemma_block_offset(j, p as int, t);
            }
            return false;
        }
        proof {
            assert forall|i: int| 0 <= i < start + p implies #[trigger] b@[i] == b@[i
                % (p as int)] by {
                if i >= start {
                    lemma_block_offset(j, p as int, i - start);
                    assert(b@[start + (i - start)] == b@[i - start]);
                }
            }
            assert(start + p == (j + 1) * p) by (nonlinear_arith)
                requires
                    start == j * p,
            ;
            j = j + 1;
        }
        start = start + p;
    }
    true
}

/// Whether `s` is one block of its bytes written out two or more times.
pub fn repeated_substring_pattern(s: String) -> (r: bool)
    ensures
        r == is_repeated_pattern(encode_utf8(s@)),
{
    let b = s.as_str().as_bytes();
    let n = b.len();
    let mut p: usize = 1;
    while p <= n / 2
        invariant
            b@ == encode_utf8(s@),
            n == b@.len(),
            1 <= p <= n / 2 + 1,
            forall|q: int| 1 <= q < p ==> !#[trigger] tiles_with(b@, q),
        decreases n / 2 + 1 - p,
    {
        if n % p == 0 {
            let tiled = tiled_by_prefix(b, p);
            proof {
                lemma_tiling_is_periodicity(b@, p as int);
            }
            if tiled {
                assert(tiles_with(b@, p as int));
                return true;
            }
        }
        p += 1;
    }
    false
}

} // verus!
