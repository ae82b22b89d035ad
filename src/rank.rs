use vstd::prelude::*;

use crate::wall::Wall;

verus! {

/// Lengths never increase along `s`.
pub open spec fn sorted_by_length(s: Seq<Wall>) -> bool {
    forall|i: int, j: int|
        0 <= i < j < s.len() ==> #[trigger] s[i].spec_length() >= #[trigger] s[j].spec_length()
}

/// The walls of `s` whose length is `l`, in their order in `s`.
pub open spec fn of_length(s: Seq<Wall>, l: int) -> Seq<Wall>
    decreases s.len(),
{
    if s.len() == 0 {
        Seq::empty()
    } else if s.last().spec_length() == l {
        of_length(s.drop_last(), l).push(s.last())
    } else {
        of_length(s.drop_last(), l)
    }
}

/// `out` is `inp` stably sorted by descending length: sorted, and for each length the
/// walls of that length appear in both in the same order.
pub open spec fn is_ranking(out: Seq<Wall>, inp: Seq<Wall>) -> bool {
    sorted_by_length(out) && forall|l: int| #[trigger] of_length(out, l) == of_length(inp, l)
}

proof fn lemma_of_length_add(a: Seq<Wall>, b: Seq<Wall>, l: int)
    ensures
        of_length(a + b, l) == of_length(a, l) + of_length(b, l),
    decreases b.len(),
{
    if b.len() == 0 {
        assert(a + b =~= a);
        assert(of_length(a, l) + of_length(b, l) =~= of_length(a, l));
    } else {
        lemma_of_length_add(a, b.drop_last(), l);
        assert((a + b).drop_last() =~= a + b.drop_last());
        assert((a + b).last() == b.last());
        if b.last().spec_length() == l {
            assert(of_length(a, l) + of_length(b, l) =~= (of_length(a, l) + of_length(
                b.drop_last(),
                l,
            )).push(b.last()));
        }
    }
}

proof fn lemma_of_length_none(s: Seq<Wall>, l: int)
    requires
        forall|i: int| 0 <= i < s.len() ==> (#[trigger] s[i]).spec_length() != l,
    ensures
        of_length(s, l) == Seq::<Wall>::empty(),
    decreases s.len(),
{
    if s.len() > 0 {
        lemma_of_length_none(s.drop_last(), l);
    }
}

proof fn lemma_of_length_single(w: Wall, l: int)
    ensures
        of_length(seq![w], l) == (if w.spec_length() == l {
            seq![w]
        } else {
            Seq::<Wall>::empty()
        }),
{
    let s = seq![w];
    assert(s.drop_last() =~= Seq::<Wall>::empty());
    assert(s.last() == w);
    assert(of_length(s.drop_last(), l) == Seq::<Wall>::empty());
    assert(Seq::<Wall>::empty().push(w) =~= seq![w]);
}

proof fn lemma_of_length_contains(s: Seq<Wall>, l: int, w: Wall)
    ensures
        of_length(s, l).contains(w) <==> s.contains(w) && w.spec_length() == l,
    decreases s.len(),
{
    if s.len() == 0 {
        assert(!s.contains(w));
        assert(of_length(s, l) =~= Seq::<Wall>::empty());
    } else {
        let d = s.drop_last();
        let k = of_length(d, l);
        let o = of_length(s, l);
        lemma_of_length_contains(d, l, w);
        if s.contains(w) && w.spec_length() == l {
            let j = choose|j: int| 0 <= j < s.len() && s[j] == w;
            if j < s.len() - 1 {
                assert(d[j] == w);
                assert(d.contains(w));
                let q = choose|q: int| 0 <= q < k.len() && k[q] == w;
                assert(o[q] == w);
            } else {
                assert(o == k.push(w));
                assert(o[k.len() as int] == w);
            }
        }
        if o.contains(w) {
            let q = choose|q: int| 0 <= q < o.len() && o[q] == w;
            if q < k.len() {
                assert(k[q] == w);
                assert(k.contains(w));
                let j = choose|j: int| 0 <= j < d.len() && d[j] == w;
                assert(s[j] == w);
            } else {
                assert(s.last().spec_length() == l);
                assert(o == k.push(s.last()));
                assert(s[s.len() - 1] == w);
            }
        }
    }
}

/// Inserting `w` where the lengths drop below its own keeps a ranking a ranking.
proof fn lemma_insert_ranking(before: Seq<Wall>, done: Seq<Wall>, w: Wall, p: int)
    requires
        is_ranking(before, done),
        0 <= p <= before.len(),
        forall|k: int| 0 <= k < p ==> (#[trigger] before[k]).spec_length() >= w.spec_length(),
        forall|k: int| p <= k < before.len() ==> (#[trigger] before[k]).spec_length() < w.spec_length(),
    ensures
        is_ranking(before.insert(p, w), done.push(w)),
{
    let out = before.insert(p, w);
    let l = w.spec_length();
    let a = before.subrange(0, p);
    let b = before.subrange(p, before.len() as int);
    assert(before =~= a + b);
    assert(out =~= a + seq![w] + b);
    assert(done.push(w).drop_last() =~= done);
    assert(done.push(w).last() == w);
    assert forall|k: int| 0 <= k < b.len() implies (#[trigger] b[k]).spec_length() != l by {
        assert(b[k] == before[p + k]);
    }
    lemma_of_length_none(b, l);
    assert forall|m: int| #[trigger] of_length(out, m) == of_length(done.push(w), m) by {
        lemma_of_length_add(a + seq![w], b, m);
        lemma_of_length_add(a, seq![w], m);
        lemma_of_length_add(a, b, m);
        lemma_of_length_single(w, m);
        assert(of_length(before, m) == of_length(done, m));
        if m == l {
            assert(of_length(out, m) =~= of_length(before, m).push(w));
        } else {
            assert(of_length(out, m) =~= of_length(before, m));
        }
    }
    assert forall|j: int, k: int| 0 <= j < k < out.len() implies #[trigger] out[j].spec_length()
        >= #[trigger] out[k].spec_length() by {
        if k < p {
            assert(out[j] == before[j] && out[k] == before[k]);
        } else if k == p {
            assert(out[j] == before[j]);
        } else if j < p {
            assert(out[k] == before[k - 1]);
            assert(out[j] == before[j]);
        } else if j == p {
            assert(out[k] == before[k - 1]);
        } else {
            assert(out[k] == before[k - 1]);
            assert(out[j] == before[j - 1]);
        }
    }
}

/// A ranking holds exactly the walls of its input.
pub proof fn lemma_ranking_members(out: Seq<Wall>, inp: Seq<Wall>)
    requires
        is_ranking(out, inp),
    ensures
        forall|w: Wall| #[trigger] out.contains(w) <==> inp.contains(w),
{
    assert forall|w: Wall| #[trigger] out.contains(w) <==> inp.contains(w) by {
        let l = w.spec_length();
        assert(of_length(out, l) == of_length(inp, l));
        lemma_of_length_contains(out, l, w);
        lemma_of_length_contains(inp, l, w);
    }
}

proof fn lemma_last_is_shortest(s: Seq<Wall>)
    requires
        sorted_by_length(s),
        s.len() > 0,
    ensures
        forall|i: int| 0 <= i < s.len() ==> (#[trigger] s[i]).spec_length() >= s.last().spec_length(),
{
    assert forall|i: int| 0 <= i < s.len() implies (#[trigger] s[i]).spec_length() >= s.last().spec_length() by {
        if i < s.len() - 1 {
            assert(s[i].spec_length() >= s[s.len() - 1].spec_length());
        }
    }
}

/// Two sequences that are both sorted by descending length and agree, length by length,
/// on the walls they hold and their order, are the same sequence.
proof fn lemma_same_groups_equal(a: Seq<Wall>, b: Seq<Wall>)
    requires
        sorted_by_length(a),
        sorted_by_length(b),
        forall|l: int| #[trigger] of_length(a, l) == of_length(b, l),
    ensures
        a == b,
    decreases a.len(),
{
    if a.len() == 0 || b.len() == 0 {
        if a.len() > 0 {
            assert(of_length(a, a.last().spec_length()).len() > 0);
            lemma_of_length_none(b, a.last().spec_length());
        }
        if b.len() > 0 {
            assert(of_length(b, b.last().spec_length()).len() > 0);
            lemma_of_length_none(a, b.last().spec_length());
        }
        assert(a =~= b);
    } else {
        let la = a.last().spec_length();
        let lb = b.last().spec_length();
        lemma_last_is_shortest(a);
        lemma_last_is_shortest(b);
        let ka = of_length(a, la);
        assert(ka.len() > 0 && ka.last() == a.last());
        assert(of_length(b, la).contains(ka.last()));
        lemma_of_length_contains(b, la, ka.last());
        let kb = of_length(b, lb);
        assert(kb.len() > 0 && kb.last() == b.last());
        assert(of_length(a, lb).contains(kb.last()));
        lemma_of_length_contains(a, lb, kb.last());
        assert(la == lb);
        let a1 = a.drop_last();
        let b1 = b.drop_last();
        assert(a.last() == b.last());
        assert(sorted_by_length(a1));
        assert(sorted_by_length(b1));
        assert forall|m: int| #[trigger] of_length(a1, m) == of_length(b1, m) by {
            assert(of_length(a, m) == of_length(b, m));
            if m == la {
                assert(of_length(a1, m) =~= of_length(a, m).drop_last());
                assert(of_length(b1, m) =~= of_length(b, m).drop_last());
            }
        }
        lemma_same_groups_equal(a1, b1);
        assert(a =~= a1.push(a.last()));
        assert(b =~= b1.push(b.last()));
    }
}

/// A wall list has exactly one ranking: the stable descending sort is determined.
pub proof fn lemma_ranking_unique(a: Seq<Wall>, b: Seq<Wall>, inp: Seq<Wall>)
    requires
        is_ranking(a, inp),
        is_ranking(b, inp),
    ensures
        a == b,
{
    assert forall|l: int| #[trigger] of_length(a, l) == of_length(b, l) by {
        assert(of_length(a, l) == of_length(inp, l));
        assert(of_length(b, l) == of_length(inp, l));
    }
    lemma_same_groups_equal(a, b);
}

/// Sorts walls by descending length; walls of equal length keep their relative order.
pub fn rank_walls(walls: Vec<Wall>) -> (r: Vec<Wall>)
    requires
        forall|i: int| 0 <= i < walls@.len() ==> (#[trigger] walls@[i]).wf(),
    ensures
        is_ranking(r@, walls@),
{
    let mut out: Vec<Wall> = Vec::new();
    let mut i: usize = 0;
    while i < walls.len()
        invariant
            0 <= i <= walls@.len(),
            forall|k: int| 0 <= k < walls@.len() ==> (#[trigger] walls@[k]).wf(),
            forall|k: int| 0 <= k < out@.len() ==> (#[trigger] out@[k]).wf(),
            is_ranking(out@, walls@.subrange(0, i as int)),
        decreases walls@.len() - i,
    {
        let w = walls[i];
        let l = w.length();
        let mut p: usize = 0;
        while p < out.len() && out[p].length() >= l
            invariant
                0 <= p <= out@.len(),
                forall|k: int| 0 <= k < out@.len() ==> (#[trigger] out@[k]).wf(),
                forall|k: int| 0 <= k < p ==> (#[trigger] out@[k]).spec_length() >= l,
            decreases out@.len() - p,
        {
            p = p + 1;
        }
        let ghost before = out@;
        proof {
            assert(walls@.subrange(0, i + 1) =~= walls@.subrange(0, i as int).push(w));
            assert forall|k: int| p <= k < before.len() implies (#[trigger] before[k]).spec_length()
                < l by {
                if p < before.len() {
                    assert(before[p as int].spec_length() < l);
                    if k > p {
                        assert(before[p as int].spec_length() >= before[k].spec_length());
                    }
                }
            }
            lemma_insert_ranking(before, walls@.subrange(0, i as int), w, p as int);
        }
        out.insert(p, w);
        i = i + 1;
    }
    assert(walls@.subrange(0, walls@.len() as int) =~= walls@);
    out
}

} // verus!
