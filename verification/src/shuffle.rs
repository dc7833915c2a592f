//! The Fisher-Yates shuffle as a function of its draws, and what makes it
//! a fair shuffle: from the last position down to the second, position `k`
//! is exchanged with a position `d[k]` drawn between 0 and `k`. Every
//! order of the items comes from exactly one sequence of draws, so draws
//! taken uniformly give every order with the same chance.

use vstd::prelude::*;

verus! {

broadcast use vstd::seq_lib::group_to_multiset_ensures;

/// `s` with the items at `a` and `b` exchanged.
pub open spec fn swap_at<A>(s: Seq<A>, a: int, b: int) -> Seq<A> {
    s.update(a, s[b]).update(b, s[a])
}

/// `d` is a sequence of draws for shuffling `n` items: one draw `d[k]`
/// between 0 and `k` for each position `k` from 1 to `n - 1` (`d[0]`, which
/// no step uses, is 0).
pub open spec fn fy_draws(d: Seq<int>, n: int) -> bool {
    &&& d.len() == n
    &&& (n > 0 ==> d[0] == 0)
    &&& forall|k: int| 1 <= k < n ==> 0 <= #[trigger] d[k] <= k
}

/// The steps `hi - 1` down to `lo` of the shuffle applied to `s`, in that
/// order: step `k` exchanges positions `k` and `d[k]`.
pub open spec fn fy_steps<A>(s: Seq<A>, d: Seq<int>, hi: int, lo: int) -> Seq<A>
    decreases hi - lo,
{
    if hi <= lo {
        s
    } else {
        swap_at(fy_steps(s, d, hi, lo + 1), lo, d[lo])
    }
}

/// The Fisher-Yates shuffle of `s` with the draws `d`.
pub open spec fn fy_shuffle<A>(s: Seq<A>, d: Seq<int>) -> Seq<A> {
    fy_steps(s, d, s.len() as int, 1)
}

/// Draws that fit the steps `lo..hi`.
pub open spec fn draws_fit(d: Seq<int>, hi: int, lo: int) -> bool {
    forall|k: int| lo <= k < hi ==> 0 <= #[trigger] d[k] <= k
}

proof fn lemma_swap_multiset<A>(s: Seq<A>, a: int, b: int)
    requires
        0 <= a < s.len(),
        0 <= b < s.len(),
    ensures
        swap_at(s, a, b).to_multiset() == s.to_multiset(),
        swap_at(s, a, b).len() == s.len(),
{
    broadcast use vstd::multiset::group_multiset_axioms;
    vstd::seq_lib::to_multiset_update(s, a, s[b]);
    let s1 = s.update(a, s[b]);
    vstd::seq_lib::to_multiset_update(s1, b, s[a]);
    assert(s1[b] == s[b] || a == b);
    assert(s.to_multiset().insert(s[b]).remove(s[a]).insert(s[a]).remove(s1[b]) =~= s.to_multiset());
}

/// The steps keep the length of the sequence.
proof fn lemma_fy_steps_len<A>(s: Seq<A>, d: Seq<int>, hi: int, lo: int)
    requires
        0 <= lo,
        hi <= s.len(),
        draws_fit(d, hi, lo),
    ensures
        fy_steps(s, d, hi, lo).len() == s.len(),
    decreases hi - lo,
{
    if hi > lo {
        lemma_fy_steps_len(s, d, hi, lo + 1);
        assert(0 <= d[lo] <= lo);
    }
}

/// The steps `lo..hi` leave the positions from `hi` on alone.
proof fn lemma_fy_steps_above<A>(s: Seq<A>, d: Seq<int>, hi: int, lo: int, m: int)
    requires
        0 <= lo,
        hi <= m < s.len(),
        draws_fit(d, hi, lo),
    ensures
        fy_steps(s, d, hi, lo)[m] == s[m],
    decreases hi - lo,
{
    if hi > lo {
        lemma_fy_steps_above(s, d, hi, lo + 1, m);
        lemma_fy_steps_len(s, d, hi, lo + 1);
        assert(0 <= d[lo] <= lo);
    }
}

/// The steps only look at the draws they use.
pub(crate) proof fn lemma_fy_steps_agree<A>(s: Seq<A>, d: Seq<int>, e: Seq<int>, hi: int, lo: int)
    requires
        forall|k: int| lo <= k < hi ==> d[k] == e[k],
    ensures
        fy_steps(s, d, hi, lo) == fy_steps(s, e, hi, lo),
    decreases hi - lo,
{
    if hi > lo {
        lemma_fy_steps_agree(s, d, e, hi, lo + 1);
    }
}

/// The first step taken is the one at the top: the steps `lo..hi` are the
/// exchange at `hi - 1` followed by the steps `lo..hi - 1`.
proof fn lemma_fy_steps_top<A>(s: Seq<A>, d: Seq<int>, hi: int, lo: int)
    requires
        lo < hi,
    ensures
        fy_steps(s, d, hi, lo) == fy_steps(swap_at(s, hi - 1, d[hi - 1]), d, hi - 1, lo),
    decreases hi - lo,
{
    let s1 = swap_at(s, hi - 1, d[hi - 1]);
    if lo < hi - 1 {
        lemma_fy_steps_top(s, d, hi, lo + 1);
        assert(fy_steps(s, d, hi, lo) == swap_at(fy_steps(s, d, hi, lo + 1), lo, d[lo]));
        assert(fy_steps(s1, d, hi - 1, lo) == swap_at(fy_steps(s1, d, hi - 1, lo + 1), lo, d[lo]));
    } else {
        assert(fy_steps(s, d, hi, hi) == s);
        assert(fy_steps(s, d, hi, lo) == swap_at(fy_steps(s, d, hi, lo + 1), lo, d[lo]));
        assert(fy_steps(s1, d, hi - 1, lo) == s1);
    }
}

/// Each step exchanges two items, so the steps rearrange the items.
proof fn lemma_fy_steps_multiset<A>(s: Seq<A>, d: Seq<int>, hi: int, lo: int)
    requires
        0 <= lo,
        hi <= s.len(),
        draws_fit(d, hi, lo),
    ensures
        fy_steps(s, d, hi, lo).to_multiset() == s.to_multiset(),
    decreases hi - lo,
{
    if hi > lo {
        lemma_fy_steps_multiset(s, d, hi, lo + 1);
        lemma_fy_steps_len(s, d, hi, lo + 1);
        assert(0 <= d[lo] <= lo);
        lemma_swap_multiset(fy_steps(s, d, hi, lo + 1), lo, d[lo]);
    }
}

/// The shuffle only rearranges: it gives the same items, each as often,
/// whatever the draws.
pub proof fn lemma_fy_shuffle_rearranges<A>(s: Seq<A>, d: Seq<int>)
    requires
        fy_draws(d, s.len() as int),
    ensures
        fy_shuffle(s, d).len() == s.len(),
        fy_shuffle(s, d).to_multiset() == s.to_multiset(),
{
    lemma_fy_steps_len(s, d, s.len() as int, 1);
    lemma_fy_steps_multiset(s, d, s.len() as int, 1);
}

proof fn lemma_unique_up_to<A>(s: Seq<A>, d1: Seq<int>, d2: Seq<int>, hi: int)
    requires
        s.no_duplicates(),
        1 <= hi <= s.len(),
        draws_fit(d1, hi, 1),
        draws_fit(d2, hi, 1),
        fy_steps(s, d1, hi, 1) == fy_steps(s, d2, hi, 1),
    ensures
        forall|k: int| 1 <= k < hi ==> d1[k] == d2[k],
    decreases hi,
{
    if hi > 1 {
        let a = d1[hi - 1];
        let b = d2[hi - 1];
        assert(0 <= a <= hi - 1 && 0 <= b <= hi - 1);
        let s1 = swap_at(s, hi - 1, a);
        let s2 = swap_at(s, hi - 1, b);
        lemma_fy_steps_top(s, d1, hi, 1);
        lemma_fy_steps_top(s, d2, hi, 1);
        lemma_fy_steps_above(s1, d1, hi - 1, 1, hi - 1);
        lemma_fy_steps_above(s2, d2, hi - 1, 1, hi - 1);
        assert(s1[hi - 1] == s[a]);
        assert(s2[hi - 1] == s[b]);
        assert(a == b);
        assert(s1.no_duplicates()) by {
            assert forall|i: int, j: int| 0 <= i < s1.len() && 0 <= j < s1.len() && i != j implies s1[i]
                != s1[j] by {
                let pi = if i == hi - 1 { a } else if i == a { hi - 1 } else { i };
                let pj = if j == hi - 1 { a } else if j == a { hi - 1 } else { j };
                assert(s1[i] == s[pi]);
                assert(s1[j] == s[pj]);
            }
        }
        lemma_unique_up_to(s1, d1, d2, hi - 1);
    }
}

/// Every order comes from one sequence of draws only: for items that are
/// pairwise different, two sequences of draws that give the same order
/// are the same.
pub proof fn lemma_fy_draws_unique<A>(s: Seq<A>, d1: Seq<int>, d2: Seq<int>)
    requires
        s.no_duplicates(),
        fy_draws(d1, s.len() as int),
        fy_draws(d2, s.len() as int),
        fy_shuffle(s, d1) == fy_shuffle(s, d2),
    ensures
        d1 == d2,
{
    if s.len() > 0 {
        lemma_unique_up_to(s, d1, d2, s.len() as int);
        assert(d1 =~= d2) by {
            assert(d1[0] == d2[0]);
        }
    } else {
        assert(d1 =~= d2);
    }
}

proof fn lemma_take_push<A>(s: Seq<A>, i: int)
    requires
        0 <= i < s.len(),
    ensures
        s.take(i + 1).to_multiset() == s.take(i).to_multiset().insert(s[i]),
{
    assert(s.take(i + 1) =~= s.take(i).push(s[i]));
}

proof fn lemma_reach_up_to<A>(s: Seq<A>, t: Seq<A>, d: Seq<int>, hi: int) -> (e: Seq<int>)
    requires
        0 <= hi <= s.len(),
        t.len() == s.len(),
        d.len() == s.len(),
        t.take(hi).to_multiset() == s.take(hi).to_multiset(),
        forall|m: int| hi <= m < s.len() ==> t[m] == s[m],
    ensures
        e.len() == s.len(),
        forall|k: int| hi <= k < s.len() ==> e[k] == d[k],
        e.len() > 0 ==> e[0] == d[0],
        draws_fit(e, hi, 1),
        fy_steps(s, e, hi, 1) == t,
    decreases hi,
{
    broadcast use vstd::multiset::group_multiset_axioms;
    if hi <= 1 {
        if hi == 1 {
            assert(s.take(1) =~= seq![s[0]]);
            assert(t.take(1) =~= seq![t[0]]);
            assert(t.take(1).to_multiset().contains(t[0]));
            assert(s.take(1).contains(t[0]));
        }
        assert(t =~= s);
        d
    } else {
        let top = hi - 1;
        lemma_take_push(t, top);
        assert(t.take(hi).to_multiset().contains(t[top]));
        assert(s.take(hi).to_multiset().contains(t[top]));
        assert(s.take(hi).contains(t[top]));
        let j = choose|j: int| 0 <= j < hi && s.take(hi)[j] == t[top];
        assert(s[j] == t[top]);
        let s1 = swap_at(s, top, j);
        lemma_swap_multiset(s.take(hi), top, j);
        assert(swap_at(s.take(hi), top, j) =~= s1.take(hi));
        lemma_take_push(s1, top);
        assert(s1[top] == t[top]);
        assert(s1.take(top).to_multiset() =~= t.take(top).to_multiset()) by {
            assert(s1.take(top).to_multiset().insert(t[top]) == t.take(top).to_multiset().insert(t[top]));
            assert(s1.take(top).to_multiset() == s1.take(top).to_multiset().insert(t[top]).remove(t[top]));
            assert(t.take(top).to_multiset() == t.take(top).to_multiset().insert(t[top]).remove(t[top]));
        }
        let d1 = d.update(top, j);
        let e1 = lemma_reach_up_to(s1, t, d1, top);
        assert(e1[top] == j);
        lemma_fy_steps_top(s, e1, hi, 1);
        assert(draws_fit(e1, hi, 1));
        e1
    }
}

/// Every order can come out: for any rearrangement `t` of `s` there are
/// draws that shuffle `s` into `t`.
pub proof fn lemma_fy_reaches_every_order<A>(s: Seq<A>, t: Seq<A>) -> (d: Seq<int>)
    requires
        t.to_multiset() == s.to_multiset(),
    ensures
        fy_draws(d, s.len() as int),
        fy_shuffle(s, d) == t,
{
    let n = s.len() as int;
    assert(t.len() == s.len()) by {
        t.to_multiset_ensures();
        s.to_multiset_ensures();
    }
    assert(t.take(n) =~= t);
    assert(s.take(n) =~= s);
    let zero = Seq::new(n as nat, |k: int| 0int);
    let e = lemma_reach_up_to(s, t, zero, n);
    assert(fy_draws(e, n)) by {
        if n > 0 {
            assert(e[0] == zero[0]);
        }
    }
    e
}

} // verus!
