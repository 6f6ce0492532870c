//! Order on logits, stated over the IEEE-754 bit pattern of each `f32` logit.
//!
//! Samplers that only compare and mask logits can be written over the bit
//! patterns exactly: [`total_key`] orders them as `f32::total_cmp` does, and
//! [`ieee_lt`] is the `<` of IEEE-754 arithmetic (false as soon as a NaN is
//! involved, and `-0.0 < +0.0` is false).
use vstd::prelude::*;

verus! {

/// Bit pattern of `f32::NEG_INFINITY`.
pub const NEG_INFINITY_BITS: u32 = 0xff80_0000;

/// The bit pattern without its sign bit.
pub open spec fn magnitude(b: u32) -> int {
    if b >= 0x8000_0000 { b - 0x8000_0000 } else { b as int }
}

/// The bit pattern encodes a NaN.
pub open spec fn is_nan(b: u32) -> bool {
    magnitude(b) > 0x7f80_0000
}

/// The key by which `f32::total_cmp` orders bit patterns: the pattern read as
/// an `i32`, with the magnitude bits flipped when the sign bit is set.
pub open spec fn total_key(b: u32) -> int {
    if b < 0x8000_0000 { b as int } else { 0x7fff_ffff - b }
}

/// The key by which IEEE-754 comparison orders non-NaN bit patterns: as
/// [`total_key`], except that both zeros compare equal.
pub open spec fn ieee_key(b: u32) -> int {
    if magnitude(b) == 0 { 0 } else { total_key(b) }
}

/// IEEE-754 `a < b` on the numbers the bit patterns encode.
pub open spec fn ieee_lt(a: u32, b: u32) -> bool {
    !is_nan(a) && !is_nan(b) && ieee_key(a) < ieee_key(b)
}

/// `total_key` tells bit patterns apart.
pub proof fn lemma_total_key_injective(a: u32, b: u32)
    ensures
        total_key(a) == total_key(b) <==> a == b,
{
}

/// `f32::total_cmp` order key of a bit pattern.
pub fn total_key_of(b: u32) -> (r: i64)
    ensures
        r == total_key(b),
{
    if b < 0x8000_0000 {
        b as i64
    } else {
        0x7fff_ffff - (b as i64)
    }
}

/// IEEE-754 `a < b` on the numbers two bit patterns encode.
pub fn lt(a: u32, b: u32) -> (r: bool)
    ensures
        r == ieee_lt(a, b),
{
    let ma: u32 = if a >= 0x8000_0000 { a - 0x8000_0000 } else { a };
    let mb: u32 = if b >= 0x8000_0000 { b - 0x8000_0000 } else { b };
    if ma > 0x7f80_0000 || mb > 0x7f80_0000 {
        return false;
    }
    let ka: i64 = if ma == 0 { 0 } else { total_key_of(a) };
    let kb: i64 = if mb == 0 { 0 } else { total_key_of(b) };
    ka < kb
}

/// Number of entries of `s` that satisfy `p`.
pub open spec fn count_where(s: Seq<u32>, p: spec_fn(u32) -> bool) -> nat
    decreases s.len(),
{
    if s.len() == 0 {
        0
    } else {
        count_where(s.drop_last(), p) + (if p(s.last()) { 1nat } else { 0nat })
    }
}

/// The predicate "ordered at or above `v` by `f32::total_cmp`".
pub open spec fn at_least(v: u32) -> spec_fn(u32) -> bool {
    |x: u32| total_key(x) >= total_key(v)
}

/// The predicate "ordered strictly above `v` by `f32::total_cmp`".
pub open spec fn above(v: u32) -> spec_fn(u32) -> bool {
    |x: u32| total_key(x) > total_key(v)
}

/// The predicate "not IEEE-below `t`": the entries a threshold mask keeps.
pub open spec fn kept_by(t: u32) -> spec_fn(u32) -> bool {
    |x: u32| !ieee_lt(x, t)
}

/// `v` is the `k`-th largest entry of `s` (counting from 1) in the order of
/// `f32::total_cmp`: fewer than `k` entries lie above it, and at least `k`
/// lie at or above it.
pub open spec fn is_kth_largest(s: Seq<u32>, k: int, v: u32) -> bool {
    &&& s.contains(v)
    &&& count_where(s, above(v)) < k
    &&& k <= count_where(s, at_least(v))
}

/// The `k`-th largest entry of `s` in the order of `f32::total_cmp`.
pub open spec fn kth_largest(s: Seq<u32>, k: int) -> u32 {
    choose|v: u32| is_kth_largest(s, k, v)
}

proof fn lemma_count_step(s: Seq<u32>, i: int, p: spec_fn(u32) -> bool)
    requires
        0 <= i < s.len(),
    ensures
        count_where(s.subrange(0, i + 1), p) == count_where(s.subrange(0, i), p) + (if p(s[i]) {
            1nat
        } else {
            0nat
        }),
{
    assert(s.subrange(0, i + 1).drop_last() == s.subrange(0, i));
}

pub proof fn lemma_count_mono(s: Seq<u32>, p: spec_fn(u32) -> bool, q: spec_fn(u32) -> bool)
    requires
        forall|i: int| 0 <= i < s.len() && #[trigger] p(s[i]) ==> q(s[i]),
    ensures
        count_where(s, p) <= count_where(s, q),
    decreases s.len(),
{
    if s.len() > 0 {
        let t = s.drop_last();
        assert forall|i: int| 0 <= i < t.len() && #[trigger] p(t[i]) implies q(t[i]) by {
            assert(t[i] == s[i]);
        }
        lemma_count_mono(t, p, q);
        assert(p(s[s.len() - 1]) ==> q(s[s.len() - 1]));
    }
}

proof fn lemma_count_ext(s: Seq<u32>, p: spec_fn(u32) -> bool, q: spec_fn(u32) -> bool)
    requires
        forall|i: int| 0 <= i < s.len() ==> #[trigger] p(s[i]) == q(s[i]),
    ensures
        count_where(s, p) == count_where(s, q),
{
    lemma_count_mono(s, p, q);
    lemma_count_mono(s, q, p);
}

proof fn lemma_count_all(s: Seq<u32>, p: spec_fn(u32) -> bool)
    requires
        forall|i: int| 0 <= i < s.len() ==> #[trigger] p(s[i]),
    ensures
        count_where(s, p) == s.len(),
    decreases s.len(),
{
    if s.len() > 0 {
        let t = s.drop_last();
        assert forall|i: int| 0 <= i < t.len() implies #[trigger] p(t[i]) by {
            assert(t[i] == s[i]);
        }
        lemma_count_all(t, p);
        assert(p(s[s.len() - 1]));
    }
}

proof fn lemma_count_witness(s: Seq<u32>, p: spec_fn(u32) -> bool)
    requires
        count_where(s, p) > 0,
    ensures
        exists|i: int| 0 <= i < s.len() && #[trigger] p(s[i]),
    decreases s.len(),
{
    if s.len() > 0 {
        let t = s.drop_last();
        if p(s[s.len() - 1]) {
        } else {
            lemma_count_witness(t, p);
            let i = choose|i: int| 0 <= i < t.len() && #[trigger] p(t[i]);
            assert(s[i] == t[i]);
        }
    }
}

/// Among the entries of `s` whose key exceeds `lo`, if there is any, one has
/// the smallest key; its index is returned.
proof fn lemma_least_above(s: Seq<u32>, lo: int) -> (z: int)
    requires
        exists|i: int| 0 <= i < s.len() && total_key(#[trigger] s[i]) > lo,
    ensures
        0 <= z < s.len(),
        total_key(s[z]) > lo,
        forall|i: int|
            0 <= i < s.len() && total_key(#[trigger] s[i]) > lo ==> total_key(s[i]) >= total_key(
                s[z],
            ),
    decreases s.len(),
{
    let t = s.drop_last();
    let n = s.len() - 1;
    if exists|i: int| 0 <= i < t.len() && total_key(#[trigger] t[i]) > lo {
        let zt = lemma_least_above(t, lo);
        assert(t[zt] == s[zt]);
        if total_key(s[n]) > lo && total_key(s[n]) < total_key(s[zt]) {
            assert forall|i: int|
                0 <= i < s.len() && total_key(#[trigger] s[i]) > lo implies total_key(s[i])
                >= total_key(s[n]) by {
                if i < n {
                    assert(t[i] == s[i]);
                }
            }
            n
        } else {
            assert forall|i: int|
                0 <= i < s.len() && total_key(#[trigger] s[i]) > lo implies total_key(s[i])
                >= total_key(s[zt]) by {
                if i < n {
                    assert(t[i] == s[i]);
                }
            }
            zt
        }
    } else {
        let w = choose|i: int| 0 <= i < s.len() && total_key(#[trigger] s[i]) > lo;
        if w < n {
            assert(t[w] == s[w]);
        }
        assert forall|i: int|
            0 <= i < s.len() && total_key(#[trigger] s[i]) > lo implies total_key(s[i])
            >= total_key(s[n]) by {
            if i < n {
                assert(t[i] == s[i]);
            }
        }
        n
    }
}

/// Among the entries of `s` that satisfy `p`, if there is any, one has the
/// greatest key; its index is returned.
proof fn lemma_greatest_where(s: Seq<u32>, p: spec_fn(u32) -> bool) -> (z: int)
    requires
        exists|i: int| 0 <= i < s.len() && #[trigger] p(s[i]),
    ensures
        0 <= z < s.len(),
        p(s[z]),
        forall|i: int| 0 <= i < s.len() && #[trigger] p(s[i]) ==> total_key(s[i]) <= total_key(s[z]),
    decreases s.len(),
{
    let t = s.drop_last();
    let n = s.len() - 1;
    if exists|i: int| 0 <= i < t.len() && #[trigger] p(t[i]) {
        let zt = lemma_greatest_where(t, p);
        assert(t[zt] == s[zt]);
        if p(s[n]) && total_key(s[n]) > total_key(s[zt]) {
            assert forall|i: int| 0 <= i < s.len() && #[trigger] p(s[i]) implies total_key(s[i])
                <= total_key(s[n]) by {
                if i < n {
                    assert(t[i] == s[i]);
                }
            }
            n
        } else {
            assert forall|i: int| 0 <= i < s.len() && #[trigger] p(s[i]) implies total_key(s[i])
                <= total_key(s[zt]) by {
                if i < n {
                    assert(t[i] == s[i]);
                }
            }
            zt
        }
    } else {
        let w = choose|i: int| 0 <= i < s.len() && #[trigger] p(s[i]);
        if w < n {
            assert(t[w] == s[w]);
        }
        assert forall|i: int| 0 <= i < s.len() && #[trigger] p(s[i]) implies total_key(s[i])
            <= total_key(s[n]) by {
            if i < n {
                assert(t[i] == s[i]);
            }
        }
        n
    }
}

/// The predicate "at least `k` entries of `s` lie at or above it".
pub open spec fn has_k_at_or_above(s: Seq<u32>, k: int) -> spec_fn(u32) -> bool {
    |x: u32| k <= count_where(s, at_least(x))
}

/// An entry satisfying [`has_k_at_or_above`] with the greatest key is the
/// `k`-th largest.
proof fn lemma_greatest_is_kth(s: Seq<u32>, k: int, b: u32)
    requires
        1 <= k,
        s.contains(b),
        k <= count_where(s, at_least(b)),
        forall|i: int|
            0 <= i < s.len() && #[trigger] has_k_at_or_above(s, k)(s[i]) ==> total_key(s[i])
                <= total_key(b),
    ensures
        is_kth_largest(s, k, b),
{
    if count_where(s, above(b)) >= k {
        lemma_count_witness(s, above(b));
        let w = choose|i: int| 0 <= i < s.len() && #[trigger] above(b)(s[i]);
        assert(total_key(s[w]) > total_key(b));
        let y = lemma_least_above(s, total_key(b));
        assert forall|i: int| 0 <= i < s.len() implies #[trigger] at_least(s[y])(s[i]) == above(
            b,
        )(s[i]) by {}
        lemma_count_ext(s, at_least(s[y]), above(b));
        assert(has_k_at_or_above(s, k)(s[y]));
        assert(false);
    }
}

/// For `1 <= k <= s.len()` the `k`-th largest entry exists.
pub proof fn lemma_kth_largest_exists(s: Seq<u32>, k: int)
    requires
        1 <= k <= s.len(),
    ensures
        is_kth_largest(s, k, kth_largest(s, k)),
{
    let lo: int = -0x1_0000_0000;
    assert(total_key(s[0]) > lo);
    let m = lemma_least_above(s, lo);
    assert forall|i: int| 0 <= i < s.len() implies #[trigger] at_least(s[m])(s[i]) by {
        assert(total_key(s[i]) > lo);
    }
    lemma_count_all(s, at_least(s[m]));
    assert(has_k_at_or_above(s, k)(s[m]));
    let z = lemma_greatest_where(s, has_k_at_or_above(s, k));
    assert(s.contains(s[z]));
    lemma_greatest_is_kth(s, k, s[z]);
}

/// There is exactly one `k`-th largest entry when `1 <= k <= s.len()`.
pub proof fn lemma_kth_largest_unique(s: Seq<u32>, k: int, a: u32, b: u32)
    requires
        is_kth_largest(s, k, a),
        is_kth_largest(s, k, b),
    ensures
        a == b,
{
    if total_key(a) < total_key(b) {
        assert forall|i: int| 0 <= i < s.len() && #[trigger] at_least(b)(s[i]) implies above(a)(
            s[i],
        ) by {}
        lemma_count_mono(s, at_least(b), above(a));
    } else if total_key(b) < total_key(a) {
        assert forall|i: int| 0 <= i < s.len() && #[trigger] at_least(a)(s[i]) implies above(b)(
            s[i],
        ) by {}
        lemma_count_mono(s, at_least(a), above(b));
    }
    lemma_total_key_injective(a, b);
}

/// Number of entries of `s` ordered at or above `v` by `f32::total_cmp`.
pub fn count_at_least(s: &[u32], v: u32) -> (r: usize)
    ensures
        r == count_where(s@, at_least(v)),
{
    let kv = total_key_of(v);
    let mut c: usize = 0;
    let mut i: usize = 0;
    while i < s.len()
        invariant
            i <= s@.len(),
            kv == total_key(v),
            c == count_where(s@.subrange(0, i as int), at_least(v)),
            c <= i,
        decreases s@.len() - i,
    {
        proof {
            lemma_count_step(s@, i as int, at_least(v));
        }
        if total_key_of(s[i]) >= kv {
            c = c + 1;
        }
        i = i + 1;
    }
    assert(s@.subrange(0, s@.len() as int) == s@);
    c
}

/// The predicate "`f32::total_cmp` key at least `t`".
pub open spec fn key_at_least(t: int) -> spec_fn(u32) -> bool {
    |x: u32| total_key(x) >= t
}

/// Number of entries of `s` whose `f32::total_cmp` key is at least `t`.
fn count_key_at_least(s: &[u32], t: i64) -> (r: usize)
    ensures
        r == count_where(s@, key_at_least(t as int)),
{
    let mut c: usize = 0;
    let mut i: usize = 0;
    while i < s.len()
        invariant
            i <= s@.len(),
            c == count_where(s@.subrange(0, i as int), key_at_least(t as int)),
            c <= i,
        decreases s@.len() - i,
    {
        proof {
            lemma_count_step(s@, i as int, key_at_least(t as int));
        }
        if total_key_of(s[i]) >= t {
            c = c + 1;
        }
        i = i + 1;
    }
    assert(s@.subrange(0, s@.len() as int) == s@);
    c
}

/// The `k`-th largest logit (counting from 1) in the order of
/// `f32::total_cmp`, which is the value a `select_nth_unstable_by(k - 1, ..)`
/// with that order, descending, leaves at index `k - 1`.
///
/// A bisection over the 32-bit key range finds the greatest key `t` with at
/// least `k` entries at or above it; the entry with that key is the answer.
/// Each step counts once over the logits, so the work is linear in their
/// number.
pub fn kth_largest_of(s: &[u32], k: usize) -> (r: u32)
    requires
        1 <= k <= s@.len(),
    ensures
        is_kth_largest(s@, k as int, r),
        r == kth_largest(s@, k as int),
{
    let mut lo: i64 = -0x8000_0000;
    let mut hi: i64 = 0x8000_0000;
    proof {
        assert forall|i: int| 0 <= i < s@.len() implies #[trigger] key_at_least(lo as int)(s@[i]) by {}
        lemma_count_all(s@, key_at_least(lo as int));
        assert forall|i: int| 0 <= i < s@.len() && #[trigger] key_at_least(hi as int)(s@[i]) implies false
            by {}
        if count_where(s@, key_at_least(hi as int)) > 0 {
            lemma_count_witness(s@, key_at_least(hi as int));
        }
    }
    while hi - lo > 1
        invariant
            1 <= k <= s@.len(),
            -0x8000_0000 <= lo < hi <= 0x8000_0000,
            k <= count_where(s@, key_at_least(lo as int)),
            count_where(s@, key_at_least(hi as int)) < k,
        decreases hi - lo,
    {
        let mid = lo + (hi - lo) / 2;
        if count_key_at_least(s, mid) >= k {
            lo = mid;
        } else {
            hi = mid;
        }
    }
    let ghost t: int = lo as int;
    proof {
        if forall|i: int| 0 <= i < s@.len() ==> total_key(#[trigger] s@[i]) != t {
            assert forall|i: int| 0 <= i < s@.len() implies #[trigger] key_at_least(t)(s@[i]) == key_at_least(
                t + 1,
            )(s@[i]) by {}
            lemma_count_ext(s@, key_at_least(t), key_at_least(t + 1));
            assert(false);
        }
    }
    let mut i: usize = 0;
    while total_key_of(s[i]) != lo
        invariant
            i < s@.len(),
            t == lo,
            exists|j: int| i <= j < s@.len() && total_key(#[trigger] s@[j]) == t,
        decreases s@.len() - i,
    {
        i = i + 1;
        proof {
            let j = choose|j: int| i - 1 <= j < s@.len() && total_key(#[trigger] s@[j]) == t;
            assert(j != i - 1);
        }
    }
    let r = s[i];
    proof {
        assert(s@.contains(r)) by {
            assert(s@[i as int] == r);
        }
        assert forall|j: int| 0 <= j < s@.len() implies #[trigger] at_least(r)(s@[j]) == key_at_least(t)(
            s@[j],
        ) by {}
        lemma_count_ext(s@, at_least(r), key_at_least(t));
        assert forall|j: int| 0 <= j < s@.len() implies #[trigger] above(r)(s@[j]) == key_at_least(t + 1)(
            s@[j],
        ) by {}
        lemma_count_ext(s@, above(r), key_at_least(t + 1));
        lemma_kth_largest_exists(s@, k as int);
        lemma_kth_largest_unique(s@, k as int, r, kth_largest(s@, k as int));
    }
    r
}

/// Index `a` comes before index `b` when the entries of `s` are ordered by
/// `f32::total_cmp` (descending when `descending`, ascending otherwise), equal
/// entries keeping their index order, as a stable sort leaves them.
pub open spec fn comes_before(s: Seq<u32>, descending: bool, a: int, b: int) -> bool {
    ||| (descending && total_key(s[a]) > total_key(s[b]))
    ||| (!descending && total_key(s[a]) < total_key(s[b]))
    ||| (total_key(s[a]) == total_key(s[b]) && a < b)
}

/// `order` lists every index of `s` exactly once, in the order a stable sort
/// by `f32::total_cmp` leaves them.
pub open spec fn is_stable_order(s: Seq<u32>, descending: bool, order: Seq<usize>) -> bool {
    &&& order.len() == s.len()
    &&& forall|i: int| 0 <= i < order.len() ==> #[trigger] order[i] < s.len()
    &&& forall|i: int, j: int| 0 <= i < j < order.len() ==> order[i] != order[j]
    &&& forall|i: int, j: int|
        0 <= i < j < order.len() ==> comes_before(s, descending, #[trigger] order[i] as int, #[trigger] order[j] as int)
}

/// `keys` holds the `f32::total_cmp` key of each entry of `s`.
spec fn keys_of(s: Seq<u32>, keys: Seq<i64>) -> bool {
    &&& keys.len() == s.len()
    &&& forall|i: int| 0 <= i < s.len() ==> #[trigger] keys[i] == total_key(s[i])
}

/// `run` holds indices in `[lo, hi)`, each one coming before every index
/// that follows it.
spec fn sorted_run(s: Seq<u32>, descending: bool, run: Seq<usize>, lo: int, hi: int) -> bool {
    &&& forall|i: int| 0 <= i < run.len() ==> lo <= #[trigger] run[i] < hi
    &&& forall|i: int, j: int|
        0 <= i < j < run.len() ==> comes_before(s, descending, #[trigger] run[i] as int, #[trigger] run[j] as int)
}

proof fn lemma_comes_before_transitive(s: Seq<u32>, descending: bool, a: int, b: int, c: int)
    requires
        comes_before(s, descending, a, b),
        comes_before(s, descending, b, c),
    ensures
        comes_before(s, descending, a, c),
{
}

/// Whether index `a` comes before index `b`.
fn precedes(logits: &[u32], keys: &[i64], descending: bool, a: usize, b: usize) -> (r: bool)
    requires
        keys_of(logits@, keys@),
        a < logits@.len(),
        b < logits@.len(),
    ensures
        r == comes_before(logits@, descending, a as int, b as int),
{
    let ka = keys[a];
    let kb = keys[b];
    if descending {
        ka > kb || (ka == kb && a < b)
    } else {
        ka < kb || (ka == kb && a < b)
    }
}

/// Merge a sorted run of indices in `[lo, mid)` with one in `[mid, hi)`.
fn merge_runs(
    logits: &[u32],
    keys: &[i64],
    descending: bool,
    left: Vec<usize>,
    right: Vec<usize>,
    lo: usize,
    mid: usize,
    hi: usize,
) -> (out: Vec<usize>)
    requires
        keys_of(logits@, keys@),
        lo <= mid <= hi <= logits@.len(),
        sorted_run(logits@, descending, left@, lo as int, mid as int),
        sorted_run(logits@, descending, right@, mid as int, hi as int),
    ensures
        out@.len() == left@.len() + right@.len(),
        sorted_run(logits@, descending, out@, lo as int, hi as int),
{
    let ghost s = logits@;
    let mut out: Vec<usize> = Vec::new();
    let mut i: usize = 0;
    let mut j: usize = 0;
    while i < left.len() || j < right.len()
        invariant
            s == logits@,
            keys_of(s, keys@),
            lo <= mid <= hi <= s.len(),
            sorted_run(s, descending, left@, lo as int, mid as int),
            sorted_run(s, descending, right@, mid as int, hi as int),
            i <= left@.len(),
            j <= right@.len(),
            out@.len() == i + j,
            sorted_run(s, descending, out@, lo as int, hi as int),
            forall|q: int, r: int|
                0 <= q < out@.len() && i <= r < left@.len() ==> comes_before(
                    s,
                    descending,
                    #[trigger] out@[q] as int,
                    #[trigger] left@[r] as int,
                ),
            forall|q: int, r: int|
                0 <= q < out@.len() && j <= r < right@.len() ==> comes_before(
                    s,
                    descending,
                    #[trigger] out@[q] as int,
                    #[trigger] right@[r] as int,
                ),
        decreases left@.len() + right@.len() - i - j,
    {
        let ghost old_out = out@;
        if j == right.len() || (i < left.len() && precedes(logits, keys, descending, left[i], right[j])) {
            let x = left[i];
            out.push(x);
            proof {
                assert forall|r: int| i < r < left@.len() implies comes_before(s, descending, x as int, #[trigger] left@[r] as int) by {
                    assert(comes_before(s, descending, left@[i as int] as int, left@[r] as int));
                }
                assert forall|r: int| j <= r < right@.len() implies comes_before(s, descending, x as int, #[trigger] right@[r] as int) by {
                    if r > j {
                        assert(comes_before(s, descending, right@[j as int] as int, right@[r] as int));
                        lemma_comes_before_transitive(s, descending, x as int, right@[j as int] as int, right@[r] as int);
                    }
                }
                assert forall|q: int| 0 <= q < old_out.len() implies comes_before(s, descending, #[trigger] old_out[q] as int, x as int) by {
                    assert(comes_before(s, descending, old_out[q] as int, left@[i as int] as int));
                }
                assert(out@ == old_out.push(x));
            }
            i = i + 1;
        } else {
            let y = right[j];
            out.push(y);
            proof {
                if i < left@.len() {
                    assert(left@[i as int] < mid <= right@[j as int]);
                    assert(comes_before(s, descending, y as int, left@[i as int] as int));
                }
                assert forall|r: int| i <= r < left@.len() implies comes_before(s, descending, y as int, #[trigger] left@[r] as int) by {
                    if r > i {
                        assert(comes_before(s, descending, left@[i as int] as int, left@[r] as int));
                        lemma_comes_before_transitive(s, descending, y as int, left@[i as int] as int, left@[r] as int);
                    }
                }
                assert forall|r: int| j < r < right@.len() implies comes_before(s, descending, y as int, #[trigger] right@[r] as int) by {
                    assert(comes_before(s, descending, right@[j as int] as int, right@[r] as int));
                }
                assert forall|q: int| 0 <= q < old_out.len() implies comes_before(s, descending, #[trigger] old_out[q] as int, y as int) by {
                    assert(comes_before(s, descending, old_out[q] as int, right@[j as int] as int));
                }
                assert(out@ == old_out.push(y));
            }
            j = j + 1;
        }
    }
    out
}

/// The indices `[lo, hi)` of `logits`, sorted by merging halves.
fn sort_range(logits: &[u32], keys: &[i64], descending: bool, lo: usize, hi: usize) -> (run: Vec<usize>)
    requires
        keys_of(logits@, keys@),
        lo <= hi <= logits@.len(),
    ensures
        run@.len() == hi - lo,
        sorted_run(logits@, descending, run@, lo as int, hi as int),
    decreases hi - lo,
{
    if hi - lo <= 1 {
        let mut run: Vec<usize> = Vec::new();
        if hi > lo {
            run.push(lo);
        }
        run
    } else {
        let mid = lo + (hi - lo) / 2;
        let left = sort_range(logits, keys, descending, lo, mid);
        let right = sort_range(logits, keys, descending, mid, hi);
        merge_runs(logits, keys, descending, left, right, lo, mid, hi)
    }
}

/// The indices of `logits` in the order that `sort_by` with
/// `f32::total_cmp` (reversed when `descending`) leaves them: a stable sort,
/// so equal logits keep their index order. A merge sort over the indices,
/// taking `O(n log n)` comparisons.
pub fn stable_order(logits: &[u32], descending: bool) -> (order: Vec<usize>)
    ensures
        is_stable_order(logits@, descending, order@),
{
    let n = logits.len();
    let mut keys: Vec<i64> = Vec::new();
    let mut i: usize = 0;
    while i < n
        invariant
            n == logits@.len(),
            i <= n,
            keys@.len() == i,
            forall|j: int| 0 <= j < i ==> #[trigger] keys@[j] == total_key(logits@[j]),
        decreases n - i,
    {
        keys.push(total_key_of(logits[i]));
        i = i + 1;
    }
    let order = sort_range(logits, keys.as_slice(), descending, 0, n);
    proof {
        assert forall|a: int, b: int| 0 <= a < b < order@.len() implies order@[a] != order@[b] by {
            assert(comes_before(logits@, descending, order@[a] as int, order@[b] as int));
        }
    }
    order
}

} // verus!
