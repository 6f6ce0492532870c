//! Samplers that only compare and mask logits, written over the IEEE-754 bit
//! pattern of each `f32` logit (see [`crate::logit`]). The index of a logit is
//! its token id; masking writes the pattern of `f32::NEG_INFINITY`.
use vstd::prelude::*;

use crate::logit::{
    is_stable_order, total_key_of,
    at_least, count_where, ieee_key, ieee_lt, is_kth_largest, is_nan, kept_by, kth_largest,
    kth_largest_of, lemma_count_mono, lemma_kth_largest_exists, lt, NEG_INFINITY_BITS,
};
use crate::Token;

verus! {

/// `s` with every entry that is IEEE-below `t` replaced by negative infinity.
pub open spec fn mask_below(s: Seq<u32>, t: u32) -> Seq<u32> {
    Seq::new(s.len(), |i: int| if ieee_lt(s[i], t) { NEG_INFINITY_BITS } else { s[i] })
}

/// The logits after Top-K: unchanged when `k <= 0` or `k >= s.len()`, and
/// otherwise every logit below the `k`-th largest masked.
pub open spec fn spec_top_k(s: Seq<u32>, k: int) -> Seq<u32> {
    if k <= 0 || k >= s.len() {
        s
    } else {
        mask_below(s, kth_largest(s, k))
    }
}

/// `i` is the index the greedy choice picks: no logit is IEEE-above it, and
/// every later logit is strictly below it (ties go to the last index).
pub open spec fn is_argmax(s: Seq<u32>, i: int) -> bool {
    &&& 0 <= i < s.len()
    &&& forall|j: int| 0 <= j < s.len() ==> !ieee_lt(#[trigger] s[i], s[j])
    &&& forall|j: int| i < j < s.len() ==> ieee_lt(#[trigger] s[j], s[i])
}

/// The greedy choice can be made: the slice is non-empty, its indices fit a
/// token id, and no comparison meets a NaN.
pub open spec fn argmax_defined(s: Seq<u32>) -> bool {
    &&& 0 < s.len() <= i32::MAX
    &&& s.len() == 1 || forall|j: int| 0 <= j < s.len() ==> !is_nan(#[trigger] s[j])
}

/// Pick the index of the largest logit, breaking ties towards the last.
pub fn argmax(logits: &[u32]) -> (r: Token)
    requires
        argmax_defined(logits@),
    ensures
        is_argmax(logits@, r as int),
{
    let n = logits.len();
    let mut best: usize = 0;
    let mut i: usize = 1;
    while i < n
        invariant
            n == logits@.len(),
            argmax_defined(logits@),
            1 <= i <= n,
            best < i,
            forall|j: int| 0 <= j < i ==> !ieee_lt(#[trigger] logits@[best as int], logits@[j]),
            forall|j: int| best < j < i ==> ieee_lt(#[trigger] logits@[j], logits@[best as int]),
        decreases n - i,
    {
        if !lt(logits[i], logits[best]) {
            best = i;
        }
        i = i + 1;
    }
    best as Token
}

/// Greedy / argmax selection. A pure token selector: `apply_mut` is a no-op.
pub struct Greedy;

impl Greedy {
    pub fn new() -> (r: Self) {
        Greedy
    }

    /// Leaves the logits as they are.
    pub fn apply_mut(&self, logits: &mut [u32])
        ensures
            final(logits)@ == old(logits)@,
    {
    }

    /// The index of the largest logit, ties going to the last.
    pub fn sample(&self, logits: &[u32]) -> (r: Token)
        requires
            argmax_defined(logits@),
        ensures
            is_argmax(logits@, r as int),
    {
        argmax(logits)
    }
}

/// Top-K sampling: keep only the `k` highest logits, masking the rest to
/// negative infinity. Logits tied at the threshold are kept, so more than `k`
/// may survive. A non-positive `k` leaves the logits untouched.
pub struct TopK {
    pub k: i32,
}

impl TopK {
    pub fn new(k: i32) -> (r: Self)
        ensures
            r.k == k,
    {
        TopK { k }
    }

    /// Mask every logit IEEE-below the `k`-th largest (in the order of
    /// `f32::total_cmp`) to negative infinity.
    pub fn apply_mut(&self, logits: &mut [u32])
        ensures
            final(logits)@ == spec_top_k(old(logits)@, self.k as int),
    {
        if self.k <= 0 {
            return;
        }
        let n = logits.len();
        let k: usize = if (self.k as usize) < n { self.k as usize } else { n };
        if k >= n {
            return;
        }
        let thresh = kth_largest_of(logits, k);
        let ghost orig = logits@;
        let mut i: usize = 0;
        while i < n
            invariant
                n == logits@.len(),
                orig.len() == n,
                forall|j: int| 0 <= j < i ==> #[trigger] logits@[j] == mask_below(orig, thresh)[j],
                forall|j: int| i <= j < n ==> #[trigger] logits@[j] == orig[j],
            decreases n - i,
        {
            if lt(logits[i], thresh) {
                logits[i] = NEG_INFINITY_BITS;
            }
            i = i + 1;
        }
        assert(logits@ == mask_below(orig, thresh));
    }
}

/// Top-K keeps at least `k` logits when it acts: every logit ordered at or
/// above the threshold survives unchanged, and there are at least `k` of them.
pub proof fn lemma_top_k_keeps_k(s: Seq<u32>, k: int)
    requires
        0 < k < s.len(),
    ensures
        count_where(s, kept_by(kth_largest(s, k))) >= k,
        forall|i: int|
            0 <= i < s.len() && #[trigger] kept_by(kth_largest(s, k))(s[i]) ==> spec_top_k(s, k)[i]
                == s[i],
{
    let t = kth_largest(s, k);
    lemma_kth_largest_exists(s, k);
    assert forall|i: int| 0 <= i < s.len() && #[trigger] at_least(t)(s[i]) implies kept_by(t)(
        s[i],
    ) by {}
    lemma_count_mono(s, at_least(t), kept_by(t));
}

/// Top-K with `0 < k < s.len()` masks exactly the logits that are IEEE-below
/// the `k`-th largest and leaves every other logit as it was; with any other
/// `k` it changes nothing.
pub proof fn lemma_top_k_masks_below_kth(s: Seq<u32>, k: int)
    ensures
        spec_top_k(s, k).len() == s.len(),
        0 < k < s.len() ==> is_kth_largest(s, k, kth_largest(s, k)),
        forall|i: int|
            0 <= i < s.len() ==> #[trigger] spec_top_k(s, k)[i] == (if 0 < k < s.len() && ieee_lt(
                s[i],
                kth_largest(s, k),
            ) {
                NEG_INFINITY_BITS
            } else {
                s[i]
            }),
{
    if 0 < k < s.len() {
        lemma_kth_largest_exists(s, k);
    }
}

/// IEEE-754 `a >= b` on the numbers the bit patterns encode.
pub open spec fn ieee_ge(a: u32, b: u32) -> bool {
    !is_nan(a) && !is_nan(b) && ieee_key(a) >= ieee_key(b)
}

fn ge(a: u32, b: u32) -> (r: bool)
    ensures
        r == ieee_ge(a, b),
{
    let ma: u32 = if a >= 0x8000_0000 { a - 0x8000_0000 } else { a };
    let mb: u32 = if b >= 0x8000_0000 { b - 0x8000_0000 } else { b };
    if ma > 0x7f80_0000 || mb > 0x7f80_0000 {
        return false;
    }
    let ka: i64 = if ma == 0 { 0 } else { total_key_of(a) };
    let kb: i64 = if mb == 0 { 0 } else { total_key_of(b) };
    ka >= kb
}

/// The first `m` ranks of `order` all have a probability at or above
/// `threshold`.
pub open spec fn leading_at_least(order: Seq<usize>, probs: Seq<u32>, threshold: u32, m: int) -> bool {
    forall|r: int| 0 <= r < m ==> ieee_ge(probs[#[trigger] order[r] as int], threshold)
}

/// Exactly the first `m` ranks of `order` have a probability at or above
/// `threshold` before the first one that does not.
pub open spec fn is_lead(order: Seq<usize>, probs: Seq<u32>, threshold: u32, m: int) -> bool {
    &&& 0 <= m <= order.len()
    &&& leading_at_least(order, probs, threshold, m)
    &&& (m == order.len() || !ieee_ge(probs[order[m] as int], threshold))
}

/// How many of the most probable tokens XTC removes: with `lead` the number
/// of top-ranked tokens (consecutive from the top) whose probability is at or
/// above `threshold`, all of them, provided at least two clear the threshold
/// and at least `min_keep` tokens survive; otherwise none.
pub open spec fn spec_xtc_cut(n: int, lead: int, min_keep: int) -> int {
    if lead >= 2 && n - lead >= min_keep {
        lead
    } else {
        0
    }
}

/// Number of top-ranked tokens XTC removes, given the ranking of the logits
/// (most probable first), the softmax probabilities of the tokens, the
/// threshold and the minimum number of survivors (probabilities and threshold
/// as IEEE-754 bit patterns).
pub fn xtc_cut(order: &[usize], probs: &[u32], threshold: u32, min_keep: usize) -> (r: usize)
    requires
        order@.len() == probs@.len(),
        forall|i: int| 0 <= i < order@.len() ==> #[trigger] order@[i] < probs@.len(),
    ensures
        exists|lead: int|
            #[trigger] is_lead(order@, probs@, threshold, lead) && r == spec_xtc_cut(
                order@.len() as int,
                lead,
                min_keep as int,
            ),
{
    let n = order.len();
    let mut lead: usize = 0;
    while lead < n && ge(probs[order[lead]], threshold)
        invariant
            n == order@.len(),
            order@.len() == probs@.len(),
            forall|i: int| 0 <= i < order@.len() ==> #[trigger] order@[i] < probs@.len(),
            lead <= n,
            leading_at_least(order@, probs@, threshold, lead as int),
        decreases n - lead,
    {
        lead = lead + 1;
    }
    assert(is_lead(order@, probs@, threshold, lead as int));
    if lead >= 2 && n - lead >= min_keep {
        lead
    } else {
        0
    }
}

/// Mask the logits of the first `count` tokens of `order` to negative
/// infinity.
pub fn mask_ranked(logits: &mut [u32], order: &[usize], count: usize)
    requires
        count <= order@.len(),
        forall|i: int| 0 <= i < order@.len() ==> #[trigger] order@[i] < old(logits)@.len(),
    ensures
        final(logits)@.len() == old(logits)@.len(),
        forall|i: int|
            0 <= i < old(logits)@.len() ==> #[trigger] final(logits)@[i] == (if exists|r: int|
                0 <= r < count && order@[r] == i {
                NEG_INFINITY_BITS
            } else {
                old(logits)@[i]
            }),
{
    let ghost orig = logits@;
    let mut r: usize = 0;
    while r < count
        invariant
            count <= order@.len(),
            forall|i: int| 0 <= i < order@.len() ==> #[trigger] order@[i] < orig.len(),
            r <= count,
            logits@.len() == orig.len(),
            forall|i: int|
                0 <= i < orig.len() ==> #[trigger] logits@[i] == (if exists|q: int|
                    0 <= q < r && order@[q] == i {
                    NEG_INFINITY_BITS
                } else {
                    orig[i]
                }),
        decreases count - r,
    {
        let target = order[r];
        logits[target] = NEG_INFINITY_BITS;
        proof {
            assert forall|i: int| 0 <= i < orig.len() implies #[trigger] logits@[i] == (if exists|q: int|
                0 <= q < r + 1 && order@[q] == i {
                NEG_INFINITY_BITS
            } else {
                orig[i]
            }) by {
                if i == target as int {
                    assert(order@[r as int] == i);
                } else {
                    if exists|q: int| 0 <= q < r + 1 && order@[q] == i {
                        let q = choose|q: int| 0 <= q < r + 1 && order@[q] == i;
                        assert(q < r);
                    }
                }
            }
        }
        r = r + 1;
    }
}

} // verus!
