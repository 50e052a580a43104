//! Cutting a text at every occurrence of one character.
use vstd::prelude::*;

verus! {

/// The pieces of `s` between occurrences of `c`, as `str::split` yields them: one piece
/// more than `c` occurs, empty pieces included.
pub open spec fn split_on(s: Seq<char>, c: char) -> Seq<Seq<char>>
    decreases s.len(),
{
    if s.len() == 0 {
        seq![Seq::<char>::empty()]
    } else {
        let rest = split_on(s.drop_last(), c);
        if s.last() == c {
            rest.push(Seq::<char>::empty())
        } else {
            rest.update(rest.len() - 1, rest.last().push(s.last()))
        }
    }
}

pub proof fn lemma_split_on_nonempty(s: Seq<char>, c: char)
    ensures
        split_on(s, c).len() >= 1,
    decreases s.len(),
{
    if s.len() > 0 {
        lemma_split_on_nonempty(s.drop_last(), c);
    }
}

pub open spec fn views(v: Seq<String>) -> Seq<Seq<char>> {
    v.map_values(|x: String| x@)
}

/// Splits `s` at every `c`, keeping empty pieces.
pub fn split_text(s: &str, c: char) -> (r: Vec<String>)
    ensures
        views(r@) == split_on(s@, c),
{
    let n = s.unicode_len();
    let mut done: Vec<String> = Vec::new();
    let mut cur = String::new();
    let mut i: usize = 0;
    while i < n
        invariant
            n == s@.len(),
            0 <= i <= n,
            views(done@).push(cur@) == split_on(s@.take(i as int), c),
        decreases n - i,
    {
        let ch = s.get_char(i);
        proof {
            assert(s@.take(i + 1).drop_last() =~= s@.take(i as int));
            assert(s@.take(i + 1).last() == ch);
        }
        if ch == c {
            proof {
                assert(views(done@.push(cur)) =~= views(done@).push(cur@));
            }
            done.push(cur);
            cur = String::new();
        } else {
            let piece = s.substring_char(i, i + 1);
            proof {
                assert(piece@ =~= seq![ch]);
            }
            let ghost old_cur = cur@;
            cur.append(piece);
            proof {
                let old_parts = split_on(s@.take(i as int), c);
                assert(old_parts.last() == old_cur);
                assert(cur@ =~= old_cur.push(ch));
                assert(views(done@).push(cur@) =~= old_parts.update(
                    old_parts.len() - 1,
                    old_parts.last().push(ch),
                ));
            }
        }
        i = i + 1;
    }
    proof {
        assert(s@.take(n as int) =~= s@);
        assert(views(done@.push(cur)) =~= views(done@).push(cur@));
    }
    done.push(cur);
    done
}

} // verus!

verus! {

/// `s` does not hold `c`.
pub open spec fn free_of(s: Seq<char>, c: char) -> bool {
    forall|i: int| 0 <= i < s.len() ==> s[i] != c
}

/// Text without `c` added to the end joins the last piece.
pub proof fn lemma_split_extend(a: Seq<char>, b: Seq<char>, c: char)
    requires
        free_of(b, c),
    ensures
        split_on(a + b, c) == split_on(a, c).update(
            split_on(a, c).len() - 1,
            split_on(a, c).last() + b,
        ),
    decreases b.len(),
{
    lemma_split_on_nonempty(a, c);
    if b.len() == 0 {
        assert(a + b =~= a);
        assert(split_on(a, c).last() + b =~= split_on(a, c).last());
        assert(split_on(a, c).update(split_on(a, c).len() - 1, split_on(a, c).last()) =~= split_on(a, c));
    } else {
        let b0 = b.drop_last();
        lemma_split_extend(a, b0, c);
        assert((a + b).drop_last() =~= a + b0);
        assert((a + b).last() == b.last());
        assert(b.last() != c);
        let p = split_on(a, c);
        let q = split_on(a + b0, c);
        assert(q.len() == p.len());
        assert(q.last() == p.last() + b0);
        assert(p.last() + b0 + seq![b.last()] =~= p.last() + b);
        assert((p.last() + b0).push(b.last()) =~= p.last() + b);
        assert(q.last().push(b.last()) == p.last() + b);
        assert(q.update(q.len() - 1, q.last().push(b.last())) =~= p.update(p.len() - 1, p.last() + b));
    }
}

/// `c` added to the end starts a new, empty piece.
pub proof fn lemma_split_sep(a: Seq<char>, c: char)
    ensures
        split_on(a.push(c), c) == split_on(a, c).push(Seq::<char>::empty()),
{
    assert(a.push(c).drop_last() =~= a);
}

/// Three pieces free of `c`, joined by `c`, split back into themselves.
pub proof fn lemma_split_three(x: Seq<char>, y: Seq<char>, z: Seq<char>, c: char)
    requires
        free_of(x, c),
        free_of(y, c),
        free_of(z, c),
    ensures
        split_on(x + seq![c] + y + seq![c] + z, c) == seq![x, y, z],
{
    let e = Seq::<char>::empty();
    lemma_split_extend(e, x, c);
    assert(e + x =~= x);
    assert(split_on(e, c) == seq![e]);
    assert(split_on(x, c) =~= seq![x]) by {
        assert(seq![e].update(0, e + x) =~= seq![x]);
    }
    lemma_split_sep(x, c);
    assert(x + seq![c] =~= x.push(c));
    lemma_split_extend(x.push(c), y, c);
    let s2 = x.push(c) + y;
    assert(split_on(s2, c) =~= seq![x, y]) by {
        assert(seq![x].push(e).update(1, e + y) =~= seq![x, y]);
        assert(e + y =~= y);
    }
    lemma_split_sep(s2, c);
    lemma_split_extend(s2.push(c), z, c);
    assert(split_on(s2.push(c) + z, c) =~= seq![x, y, z]) by {
        assert(seq![x, y].push(e).update(2, e + z) =~= seq![x, y, z]);
        assert(e + z =~= z);
    }
    assert(x + seq![c] + y + seq![c] + z =~= s2.push(c) + z);
}

} // verus!
