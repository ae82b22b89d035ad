use vstd::prelude::*;

use crate::wall::{check_if_point_is_wall, covered_by, Wall};

verus! {

/// The horizontal walls that survive: every multi-cell one, and each single cell that
/// lies outside the bounding box of every wall of `v`; their order is kept.
pub open spec fn kept(h: Seq<Wall>, v: Seq<Wall>) -> Seq<Wall>
    decreases h.len(),
{
    if h.len() == 0 {
        Seq::empty()
    } else if h.last().end is Some || !covered_by(v, h.last().start.x as int, h.last().start.y as int) {
        kept(h.drop_last(), v).push(h.last())
    } else {
        kept(h.drop_last(), v)
    }
}

/// The surviving horizontal walls followed by all vertical walls.
pub open spec fn reconciled(h: Seq<Wall>, v: Seq<Wall>) -> Seq<Wall> {
    kept(h, v) + v
}

/// Every surviving wall is one of `h`, and a single cell among them is not covered by `v`.
pub proof fn lemma_kept_members(h: Seq<Wall>, v: Seq<Wall>)
    ensures
        forall|w: Wall| #[trigger] kept(h, v).contains(w) ==> h.contains(w) && (w.end is Some
            || !covered_by(v, w.start.x as int, w.start.y as int)),
    decreases h.len(),
{
    if h.len() > 0 {
        lemma_kept_members(h.drop_last(), v);
        assert forall|w: Wall| #[trigger] kept(h, v).contains(w) implies h.contains(w) && (
        w.end is Some || !covered_by(v, w.start.x as int, w.start.y as int)) by {
            let k = kept(h.drop_last(), v);
            if k.contains(w) {
                let j = choose|j: int| 0 <= j < h.drop_last().len() && h.drop_last()[j] == w;
                assert(h[j] == w);
            } else {
                assert(h[h.len() - 1] == w);
            }
        }
    }
}

/// Drops each single-cell horizontal wall that lies inside a vertical wall's bounding
/// box, then appends the vertical walls.
pub fn reconcile(horizontal: Vec<Wall>, vertical: Vec<Wall>) -> (r: Vec<Wall>)
    ensures
        r@ == reconciled(horizontal@, vertical@),
{
    let mut vertical = vertical;
    let ghost v = vertical@;
    let mut out: Vec<Wall> = Vec::new();
    let mut i: usize = 0;
    while i < horizontal.len()
        invariant
            0 <= i <= horizontal@.len(),
            vertical@ == v,
            out@ == kept(horizontal@.subrange(0, i as int), v),
        decreases horizontal@.len() - i,
    {
        let w = horizontal[i];
        proof {
            assert(horizontal@.subrange(0, i + 1).drop_last() =~= horizontal@.subrange(0, i as int));
        }
        if w.end.is_some() || !check_if_point_is_wall(w.start.x, w.start.y, vertical.as_slice()) {
            out.push(w);
        }
        i = i + 1;
    }
    assert(horizontal@.subrange(0, horizontal@.len() as int) =~= horizontal@);
    out.append(&mut vertical);
    out
}

} // verus!
