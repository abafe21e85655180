//! Whether a sequence is one block written out two or more times.

use vstd::arithmetic::div_mod::{
    lemma_fundamental_div_mod, lemma_fundamental_div_mod_converse, lemma_mod_bound,
};
use vstd::prelude::*;

pub mod blockwise;
pub mod modular;

verus! {

/// `t` written out `k` times, one copy after the other.
pub open spec fn repeat<A>(t: Seq<A>, k: nat) -> Seq<A>
    decreases k,
{
    if k == 0 {
        Seq::empty()
    } else {
        repeat(t, (k - 1) as nat) + t
    }
}

/// `s` is its prefix of length `p` written out `len / p` times, and that is at
/// least two copies.
pub open spec fn tiles_with<A>(s: Seq<A>, p: int) -> bool {
    &&& 1 <= p <= (s.len() as int) / 2
    &&& (s.len() as int) % p == 0
    &&& s == repeat(s.subrange(0, p), ((s.len() as int) / p) as nat)
}

/// `s` consists of one block repeated two or more times, with no remainder.
pub open spec fn is_repeated_pattern<A>(s: Seq<A>) -> bool {
    exists|p: int| tiles_with(s, p)
}

/// Each of the first `m` elements of `s` equals the one at its offset within
/// the leading block of length `p`.
pub open spec fn periodic_below<A>(s: Seq<A>, p: int, m: int) -> bool {
    forall|i: int| 0 <= i < m ==> #[trigger] s[i] == s[i % p]
}

/// Shifting `s` by `p` places leaves it matching itself on the overlap.
pub open spec fn matches_shifted<A>(s: Seq<A>, p: int) -> bool {
    forall|i: int| p <= i < s.len() ==> #[trigger] s[i] == s[i - p]
}

/// Some shift `p` with `0 < p < len` leaves `s` matching itself on the overlap.
pub open spec fn has_internal_period<A>(s: Seq<A>) -> bool {
    exists|p: int| 1 <= p < s.len() && #[trigger] matches_shifted(s, p)
}

pub proof fn lemma_repeat_len<A>(t: Seq<A>, k: nat)
    ensures
        repeat(t, k).len() == k * t.len(),
    decreases k,
{
    let len = t.len() as int;
    if k > 0 {
        lemma_repeat_len(t, (k - 1) as nat);
        assert((k - 1) * len + len == k * len) by (nonlinear_arith);
    } else {
        assert(k * len == 0) by (nonlinear_arith)
            requires
                k == 0,
        ;
    }
}

pub proof fn lemma_repeat_index<A>(t: Seq<A>, k: nat, i: int)
    requires
        t.len() > 0,
        0 <= i < k * t.len(),
    ensures
        repeat(t, k)[i] == t[i % t.len() as int],
    decreases k,
{
    let len = t.len() as int;
    assert(k > 0) by (nonlinear_arith)
        requires
            0 <= i < k * len,
    ;
    let m = (k - 1) * len;
    assert(m + len == k * len) by (nonlinear_arith)
        requires
            m == (k - 1) * len,
    ;
    lemma_repeat_len(t, (k - 1) as nat);
    if i < m {
        lemma_repeat_index(t, (k - 1) as nat, i);
    } else {
        lemma_fundamental_div_mod_converse(i, len, k - 1, i - m);
    }
}

/// Position `q * p + r` of a sequence lies at offset `r` of its block.
pub proof fn lemma_block_offset(q: int, p: int, r: int)
    requires
        p > 0,
        0 <= r < p,
    ensures
        (q * p + r) % p == r,
        (q * p + r) / p == q,
{
    lemma_fundamental_div_mod_converse(q * p + r, p, q, r);
}

/// The quotient of an exact division, multiplied back, gives the dividend.
pub proof fn lemma_exact_quotient(n: int, p: int)
    requires
        0 <= n,
        0 < p,
        n % p == 0,
    ensures
        0 <= n / p,
        (n / p) * p == n,
{
    lemma_fundamental_div_mod(n, p);
    vstd::arithmetic::div_mod::lemma_div_pos_is_pos(n, p);
    vstd::arithmetic::mul::lemma_mul_is_commutative(p, n / p);
}

/// When `p` divides the length, `s` is its first block repeated exactly when
/// every element equals the one at its offset within that block.
pub proof fn lemma_tiling_is_periodicity<A>(s: Seq<A>, p: int)
    requires
        1 <= p <= s.len(),
        (s.len() as int) % p == 0,
    ensures
        s == repeat(s.subrange(0, p), ((s.len() as int) / p) as nat) <==> periodic_below(
            s,
            p,
            s.len() as int,
        ),
{
    let n = s.len() as int;
    let t = s.subrange(0, p);
    let q = n / p;
    lemma_exact_quotient(n, p);
    lemma_repeat_len(t, q as nat);
    let r = repeat(t, q as nat);
    assert(r.len() == n);
    assert forall|i: int| 0 <= i < n implies #[trigger] r[i] == s[i % p] by {
        lemma_repeat_index(t, q as nat, i);
        lemma_mod_bound(i, p);
    }
    if s == r {
        assert(periodic_below(s, p, n));
    }
    if periodic_below(s, p, n) {
        assert(s =~= r);
    }
}

/// A non-empty block written out two or more times is a repeated pattern.
pub proof fn lemma_repeat_is_repeated_pattern<A>(t: Seq<A>, k: nat)
    requires
        t.len() >= 1,
        k >= 2,
    ensures
        is_repeated_pattern(repeat(t, k)),
{
    let p = t.len() as int;
    let s = repeat(t, k);
    lemma_repeat_len(t, k);
    assert(k * p >= 2 * p) by (nonlinear_arith)
        requires
            k >= 2,
            p >= 1,
    ;
    lemma_block_offset(k as int, p, 0);
    assert(s.subrange(0, p) =~= t) by {
        assert forall|i: int| 0 <= i < p implies #[trigger] s[i] == t[i] by {
            lemma_repeat_index(t, k, i);
            lemma_block_offset(0, p, i);
        }
    }
    assert(tiles_with(s, p));
}

/// A sequence that matches no proper shift of itself, such as one of length
/// zero or one, is not a repeated pattern.
pub proof fn lemma_no_internal_period<A>(s: Seq<A>)
    requires
        !has_internal_period(s),
    ensures
        !is_repeated_pattern(s),
{
    if is_repeated_pattern(s) {
        let p = choose|p: int| tiles_with(s, p);
        lemma_tiling_is_periodicity(s, p);
        assert forall|i: int| p <= i < s.len() implies #[trigger] s[i] == s[i - p] by {
            lemma_fundamental_div_mod(i, p);
            lemma_mod_bound(i, p);
            lemma_block_offset(i / p - 1, p, i % p);
            assert((i / p - 1) * p + i % p == i - p) by (nonlinear_arith)
                requires
                    i == p * (i / p) + i % p,
            ;
        }
        assert(matches_shifted(s, p));
        assert(has_internal_period(s));
    }
}

} // verus!
