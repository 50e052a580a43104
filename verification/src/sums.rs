//! Sums over sequences, used by the contracts that speak of totals.
use vstd::prelude::*;

verus! {

/// Sum of `f` over the elements of `s`.
pub open spec fn seq_sum<A>(s: Seq<A>, f: spec_fn(A) -> int) -> int
    decreases s.len(),
{
    if s.len() == 0 {
        0
    } else {
        seq_sum(s.drop_last(), f) + f(s.last())
    }
}

pub proof fn lemma_seq_sum_push<A>(s: Seq<A>, x: A, f: spec_fn(A) -> int)
    ensures
        seq_sum(s.push(x), f) == seq_sum(s, f) + f(x),
{
    assert(s.push(x).drop_last() =~= s);
}

pub proof fn lemma_seq_sum_update<A>(s: Seq<A>, k: int, x: A, f: spec_fn(A) -> int)
    requires
        0 <= k < s.len(),
    ensures
        seq_sum(s.update(k, x), f) == seq_sum(s, f) - f(s[k]) + f(x),
    decreases s.len(),
{
    if k == s.len() - 1 {
        assert(s.update(k, x).drop_last() =~= s.drop_last());
    } else {
        lemma_seq_sum_update(s.drop_last(), k, x, f);
        assert(s.update(k, x).drop_last() =~= s.drop_last().update(k, x));
    }
}

pub proof fn lemma_seq_sum_nonneg<A>(s: Seq<A>, f: spec_fn(A) -> int)
    requires
        forall|i: int| 0 <= i < s.len() ==> f(#[trigger] s[i]) >= 0,
    ensures
        seq_sum(s, f) >= 0,
    decreases s.len(),
{
    if s.len() > 0 {
        lemma_seq_sum_nonneg(s.drop_last(), f);
    }
}

pub proof fn lemma_seq_sum_elem_le<A>(s: Seq<A>, k: int, f: spec_fn(A) -> int)
    requires
        0 <= k < s.len(),
        forall|i: int| 0 <= i < s.len() ==> f(#[trigger] s[i]) >= 0,
    ensures
        f(s[k]) <= seq_sum(s, f),
    decreases s.len(),
{
    if k < s.len() - 1 {
        lemma_seq_sum_elem_le(s.drop_last(), k, f);
        lemma_seq_sum_nonneg(s.drop_last(), f);
        assert(f(s.last()) >= 0);
    } else {
        lemma_seq_sum_nonneg(s.drop_last(), f);
    }
}

pub proof fn lemma_seq_sum_take_le<A>(s: Seq<A>, k: int, f: spec_fn(A) -> int)
    requires
        0 <= k <= s.len(),
        forall|i: int| 0 <= i < s.len() ==> f(#[trigger] s[i]) >= 0,
    ensures
        seq_sum(s.take(k), f) <= seq_sum(s, f),
    decreases s.len() - k,
{
    if k < s.len() {
        lemma_seq_sum_take_le(s, k + 1, f);
        assert(s.take(k + 1).drop_last() =~= s.take(k));
        assert(f(s[k]) >= 0);
    } else {
        assert(s.take(k) =~= s);
    }
}


pub proof fn lemma_seq_sum_concat<A>(s: Seq<A>, t: Seq<A>, f: spec_fn(A) -> int)
    ensures
        seq_sum(s + t, f) == seq_sum(s, f) + seq_sum(t, f),
    decreases t.len(),
{
    if t.len() == 0 {
        assert(s + t =~= s);
    } else {
        lemma_seq_sum_concat(s, t.drop_last(), f);
        assert((s + t).drop_last() =~= s + t.drop_last());
        assert((s + t).last() == t.last());
    }
}

pub proof fn lemma_seq_sum_map<A, B>(s: Seq<A>, g: spec_fn(A) -> B, f: spec_fn(B) -> int, h: spec_fn(A) -> int)
    requires
        forall|x: A| #[trigger] f(g(x)) == h(x),
    ensures
        seq_sum(s.map_values(g), f) == seq_sum(s, h),
    decreases s.len(),
{
    if s.len() > 0 {
        lemma_seq_sum_map(s.drop_last(), g, f, h);
        assert(s.map_values(g).drop_last() =~= s.drop_last().map_values(g));
        assert(s.map_values(g).last() == g(s.last()));
    }
}

} // verus!
