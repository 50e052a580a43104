//! Ordering records by a timestamp, as the ledger's listings do.
use vstd::prelude::*;

verus! {

/// `a` may come before `b`: not later in ascending order, not earlier in descending order.
pub open spec fn precedes(a: i64, b: i64, desc: bool) -> bool {
    if desc {
        a >= b
    } else {
        a <= b
    }
}

fn goes_before(a: i64, b: i64, desc: bool) -> (r: bool)
    ensures
        r == precedes(a, b, desc),
{
    if desc {
        a >= b
    } else {
        a <= b
    }
}

/// `s` lists positions of `keys` in the order of their keys; equal keys keep the order of
/// their positions.
pub open spec fn sorted_by(keys: Seq<i64>, s: Seq<usize>, desc: bool) -> bool {
    forall|i: int, j: int|
        0 <= i < j < s.len() ==> precedes(keys[#[trigger] s[i] as int], keys[#[trigger] s[j] as int], desc)
            && (keys[s[i] as int] == keys[s[j] as int] ==> s[i] < s[j])
}

/// `s` lists each position below `n` once.
pub open spec fn index_perm(s: Seq<usize>, n: nat) -> bool {
    &&& s.len() == n
    &&& forall|i: int| 0 <= i < s.len() ==> #[trigger] s[i] < n
    &&& forall|i: int, j: int| 0 <= i < j < s.len() ==> #[trigger] s[i] != #[trigger] s[j]
}

/// The positions of `keys`, ordered by key (ascending, or descending where `desc`), equal keys
/// in the order of their positions.
pub fn order_by_key(keys: &Vec<i64>, desc: bool) -> (r: Vec<usize>)
    ensures
        index_perm(r@, keys@.len()),
        sorted_by(keys@, r@, desc),
{
    let mut out: Vec<usize> = Vec::new();
    let mut i: usize = 0;
    while i < keys.len()
        invariant
            0 <= i <= keys.len(),
            out@.len() == i,
            forall|a: int| 0 <= a < out@.len() ==> #[trigger] out@[a] < i,
            forall|a: int, b: int| 0 <= a < b < out@.len() ==> #[trigger] out@[a] != #[trigger] out@[b],
            sorted_by(keys@, out@, desc),
        decreases keys.len() - i,
    {
        let k = keys[i];
        let mut q: usize = 0;
        while q < out.len() && goes_before(keys[out[q]], k, desc)
            invariant
                0 <= q <= out@.len(),
                out@.len() == i,
                i < keys@.len(),
                k == keys@[i as int],
                forall|a: int| 0 <= a < out@.len() ==> #[trigger] out@[a] < i,
                forall|t: int| 0 <= t < q ==> precedes(keys@[#[trigger] out@[t] as int], k, desc),
            decreases out@.len() - q,
        {
            q = q + 1;
        }
        let ghost old_out = out@;
        proof {
            assert forall|t: int| q <= t < old_out.len() implies !precedes(
                keys@[#[trigger] old_out[t] as int],
                k,
                desc,
            ) by {
                if t > q {
                    assert(precedes(keys@[old_out[q as int] as int], keys@[old_out[t] as int], desc));
                }
            }
        }
        out.insert(q, i);
        proof {
            let n = out@;
            assert(n =~= old_out.insert(q as int, i));
            assert forall|a: int, b: int| 0 <= a < b < n.len() implies precedes(
                keys@[#[trigger] n[a] as int],
                keys@[#[trigger] n[b] as int],
                desc,
            ) && (keys@[n[a] as int] == keys@[n[b] as int] ==> n[a] < n[b]) by {
                if b < q {
                    assert(n[a] == old_out[a] && n[b] == old_out[b]);
                } else if b == q {
                    assert(n[a] == old_out[a]);
                } else if a < q {
                    assert(n[a] == old_out[a] && n[b] == old_out[b - 1]);
                } else if a == q {
                    assert(n[b] == old_out[b - 1]);
                    assert(!precedes(keys@[old_out[b - 1] as int], k, desc));
                } else {
                    assert(n[a] == old_out[a - 1] && n[b] == old_out[b - 1]);
                }
            }
            assert forall|a: int| 0 <= a < n.len() implies #[trigger] n[a] < i + 1 by {
                if a < q {
                    assert(n[a] == old_out[a]);
                } else if a > q {
                    assert(n[a] == old_out[a - 1]);
                }
            }
            assert forall|a: int, b: int| 0 <= a < b < n.len() implies #[trigger] n[a]
                != #[trigger] n[b] by {
                if b < q {
                    assert(n[a] == old_out[a] && n[b] == old_out[b]);
                } else if b == q {
                    assert(n[a] == old_out[a]);
                } else if a < q {
                    assert(n[a] == old_out[a] && n[b] == old_out[b - 1]);
                } else if a == q {
                    assert(n[b] == old_out[b - 1]);
                } else {
                    assert(n[a] == old_out[a - 1] && n[b] == old_out[b - 1]);
                }
            }
        }
        i = i + 1;
    }
    out
}

/// The first `max_items` of `s`, or all of it where there is no limit.
pub open spec fn limit<A>(s: Seq<A>, max_items: Option<u32>) -> Seq<A> {
    match max_items {
        Some(m) => if (m as int) < s.len() {
            s.take(m as int)
        } else {
            s
        },
        None => s,
    }
}

/// The items of `s` at the positions that `perm` lists, in that order.
pub open spec fn permuted<A>(s: Seq<A>, perm: Seq<usize>) -> Seq<A> {
    perm.map_values(|i: usize| s[i as int])
}

} // verus!
