//! The engine's global guarantees, stated and proved over the same spec
//! functions that the mutation methods' contracts use.

use vstd::prelude::*;
use crate::rect::{Rect, lemma_union_comm, lemma_union_assoc, lemma_union_wf, lemma_covers_trans};
use crate::node::{Node, VisitInfo, cascade_visits, subtree_ids, subtree_ids_seq,
    is_visible, propagates_layout};
use crate::writer::{layers_after, paragraphs_after, dirty_after, union_opt, dirty_wf};

verus! {

/// Every area of the map is well formed; what a well-formed layout tree hands
/// the cascade.
pub open spec fn wf_areas(m: Map<u64, Rect>) -> bool {
    forall|id: u64| #[trigger] m.contains_key(id) ==> m[id].wf()
}

/// One step of the dirty-rectangle fold.
pub open spec fn dirty_step(d: Option<Rect>, areas: Map<u64, Rect>, inf: VisitInfo)
    -> Option<Rect> {
    if areas.contains_key(inf.id) {
        union_opt(d, areas[inf.id])
    } else {
        d
    }
}

proof fn lemma_layers_after_absent(m: Map<u64, i64>, infos: Seq<VisitInfo>, i: int)
    requires
        0 <= i < infos.len(),
    ensures
        !(layers_after(m, infos).contains_key(infos[i].id)
            && layers_after(m, infos)[infos[i].id] == infos[i].layer),
    decreases infos.len(),
{
    if i < infos.len() - 1 {
        lemma_layers_after_absent(m, infos.drop_last(), i);
    }
}

proof fn lemma_paras_after_absent(m: Map<u64, u64>, infos: Seq<VisitInfo>, i: int)
    requires
        0 <= i < infos.len(),
        infos[i].cursor is Some,
    ensures
        !(paragraphs_after(m, infos).contains_key(infos[i].id)
            && paragraphs_after(m, infos)[infos[i].id] == infos[i].cursor->Some_0),
    decreases infos.len(),
{
    if i < infos.len() - 1 {
        lemma_paras_after_absent(m, infos.drop_last(), i);
    }
}

/// Removal completeness: after the cascade over the subtree of `n`, no node it
/// visits keeps its paint-layer membership or its paragraph registration, and
/// no node of the subtree — visited or pruned — keeps a layout entry.
pub proof fn lemma_removal_completeness(layers: Map<u64, i64>, paras: Map<u64, u64>,
    areas: Map<u64, Rect>, n: Node, i: int)
    requires
        0 <= i < cascade_visits(n).len(),
    ensures
        ({
            let inf = cascade_visits(n)[i];
            let l2 = layers_after(layers, cascade_visits(n));
            let p2 = paragraphs_after(paras, cascade_visits(n));
            &&& !(l2.contains_key(inf.id) && l2[inf.id] == inf.layer)
            &&& (inf.cursor is Some
                ==> !(p2.contains_key(inf.id) && p2[inf.id] == inf.cursor->Some_0))
        }),
        forall|j: int| 0 <= j < subtree_ids(n).len()
            ==> !areas.remove_keys(subtree_ids(n).to_set())
                .contains_key(#[trigger] subtree_ids(n)[j]),
{
    lemma_layers_after_absent(layers, cascade_visits(n), i);
    if cascade_visits(n)[i].cursor is Some {
        lemma_paras_after_absent(paras, cascade_visits(n), i);
    }
    assert forall|j: int| 0 <= j < subtree_ids(n).len()
        implies !areas.remove_keys(subtree_ids(n).to_set())
            .contains_key(#[trigger] subtree_ids(n)[j]) by {
        assert(subtree_ids(n).contains(subtree_ids(n)[j]));
        assert(subtree_ids(n).to_set().contains(subtree_ids(n)[j]));
    }
}

proof fn lemma_dirty_step_wf(d: Option<Rect>, areas: Map<u64, Rect>, inf: VisitInfo)
    requires
        dirty_wf(d),
        wf_areas(areas),
    ensures
        dirty_wf(dirty_step(d, areas, inf)),
{
    if areas.contains_key(inf.id) {
        match d {
            Some(dr) => lemma_union_wf(dr, areas[inf.id]),
            None => {},
        }
    }
}

proof fn lemma_dirty_after_wf(d: Option<Rect>, areas: Map<u64, Rect>, s: Seq<VisitInfo>)
    requires
        dirty_wf(d),
        wf_areas(areas),
    ensures
        dirty_wf(dirty_after(d, areas, s)),
    decreases s.len(),
{
    if s.len() > 0 {
        lemma_dirty_after_wf(d, areas, s.drop_last());
        lemma_dirty_step_wf(dirty_after(d, areas, s.drop_last()), areas, s.last());
        assert(dirty_after(d, areas, s) == dirty_step(dirty_after(d, areas, s.drop_last()), areas, s.last()));
    }
}

proof fn lemma_union_opt_comm2(d: Option<Rect>, a: Rect, b: Rect)
    requires
        dirty_wf(d),
        a.wf(),
        b.wf(),
    ensures
        union_opt(union_opt(d, a), b) == union_opt(union_opt(d, b), a),
{
    lemma_union_comm(a, b);
    match d {
        None => {},
        Some(dr) => {
            lemma_union_assoc(dr, a, b);
            lemma_union_assoc(dr, b, a);
            lemma_union_comm(dr.union_spec(a), b);
        },
    }
}

proof fn lemma_dirty_after_comm1(d: Option<Rect>, areas: Map<u64, Rect>, inf: VisitInfo,
    s: Seq<VisitInfo>)
    requires
        dirty_wf(d),
        wf_areas(areas),
    ensures
        dirty_after(dirty_step(d, areas, inf), areas, s)
            == dirty_step(dirty_after(d, areas, s), areas, inf),
    decreases s.len(),
{
    if s.len() > 0 {
        lemma_dirty_after_comm1(d, areas, inf, s.drop_last());
        lemma_dirty_after_wf(d, areas, s.drop_last());
        let prev = dirty_after(d, areas, s.drop_last());
        if areas.contains_key(inf.id) && areas.contains_key(s.last().id) {
            lemma_union_opt_comm2(prev, areas[inf.id], areas[s.last().id]);
        }
    }
}

/// Dirty-rect order independence: removing two groups of subtrees in either
/// order accumulates the same dirty rectangle, because rectangle union is
/// commutative and associative.
pub proof fn lemma_dirty_order_independent(d: Option<Rect>, areas: Map<u64, Rect>,
    s1: Seq<VisitInfo>, s2: Seq<VisitInfo>)
    requires
        dirty_wf(d),
        wf_areas(areas),
    ensures
        dirty_after(dirty_after(d, areas, s1), areas, s2)
            == dirty_after(dirty_after(d, areas, s2), areas, s1),
    decreases s2.len(),
{
    if s2.len() == 0 {
    } else {
        let t = s2.drop_last();
        let x = s2.last();
        lemma_dirty_order_independent(d, areas, s1, t);
        lemma_dirty_after_wf(d, areas, t);
        lemma_dirty_after_wf(d, areas, s1);
        lemma_dirty_after_comm1(dirty_after(d, areas, t), areas, x, s1);
        assert(dirty_after(d, areas, s2) == dirty_step(dirty_after(d, areas, t), areas, x));
        assert(dirty_after(dirty_after(d, areas, s1), areas, s2)
            == dirty_step(dirty_after(dirty_after(d, areas, s1), areas, t), areas, x));
    }
}

/// Dirty-rect monotonicity: the accumulated rectangle covers what was already
/// accumulated, and the pre-removal area of every visited node that had one.
pub proof fn lemma_dirty_after_covers(d: Option<Rect>, areas: Map<u64, Rect>,
    s: Seq<VisitInfo>, i: int)
    requires
        dirty_wf(d),
        wf_areas(areas),
        0 <= i < s.len(),
        areas.contains_key(s[i].id),
    ensures
        dirty_after(d, areas, s) is Some,
        dirty_after(d, areas, s)->Some_0.covers(areas[s[i].id]),
        d is Some ==> dirty_after(d, areas, s)->Some_0.covers(d->Some_0),
    decreases s.len(),
{
    let prev = dirty_after(d, areas, s.drop_last());
    lemma_dirty_after_wf(d, areas, s.drop_last());
    if i == s.len() - 1 {
        if d is Some {
            lemma_dirty_prefix_covers(d, areas, s.drop_last());
        }
        match prev {
            None => {},
            Some(pr) => {
                lemma_union_wf(pr, areas[s[i].id]);
                if d is Some {
                    lemma_covers_trans(prev->Some_0.union_spec(areas[s[i].id]), prev->Some_0,
                        d->Some_0);
                }
            },
        }
    } else {
        lemma_dirty_after_covers(d, areas, s.drop_last(), i);
        let x = s.last();
        if areas.contains_key(x.id) {
            lemma_union_wf(prev->Some_0, areas[x.id]);
            lemma_covers_trans(prev->Some_0.union_spec(areas[x.id]), prev->Some_0,
                areas[s[i].id]);
            if d is Some {
                lemma_covers_trans(prev->Some_0.union_spec(areas[x.id]), prev->Some_0,
                    d->Some_0);
            }
        }
    }
}

/// The accumulated rectangle never shrinks: whatever was dirty before a fold
/// stays covered after it.
pub proof fn lemma_dirty_prefix_covers(d: Option<Rect>, areas: Map<u64, Rect>,
    s: Seq<VisitInfo>)
    requires
        dirty_wf(d),
        wf_areas(areas),
        d is Some,
    ensures
        dirty_after(d, areas, s) is Some,
        dirty_after(d, areas, s)->Some_0.covers(d->Some_0),
    decreases s.len(),
{
    if s.len() > 0 {
        lemma_dirty_prefix_covers(d, areas, s.drop_last());
        lemma_dirty_after_wf(d, areas, s.drop_last());
        let prev = dirty_after(d, areas, s.drop_last());
        let x = s.last();
        if areas.contains_key(x.id) {
            lemma_union_wf(prev->Some_0, areas[x.id]);
            lemma_covers_trans(prev->Some_0.union_spec(areas[x.id]), prev->Some_0, d->Some_0);
        }
    }
}

/// Pruning correctness: a visible node with derived state whose tag kind does
/// not propagate intrinsic layout is the only node its cascade visits — its
/// private children are not individually processed — while the identifiers
/// handed to the layout tree's structural removal still cover the whole
/// subtree.
pub proof fn lemma_pruning_opaque(n: Node)
    requires
        is_visible(n.kind),
        !propagates_layout(n.kind),
        n.state is Some,
    ensures
        cascade_visits(n) =~= seq![VisitInfo {
            id: n.id,
            layer: n.state->Some_0.layer,
            cursor: n.state->Some_0.cursor,
        }],
        subtree_ids(n) == seq![n.id] + subtree_ids_seq(n.children@),
{
}

/// Skip on incomplete state: a node created and removed within the same batch
/// carries no derived state yet, so the cascade visits nothing under it and
/// every registry and the dirty rectangle stay exactly as they were.
pub proof fn lemma_skip_incomplete(n: Node, layers: Map<u64, i64>, paras: Map<u64, u64>,
    d: Option<Rect>, areas: Map<u64, Rect>)
    requires
        is_visible(n.kind),
        n.state is None,
    ensures
        cascade_visits(n) =~= Seq::<VisitInfo>::empty(),
        layers_after(layers, cascade_visits(n)) == layers,
        paragraphs_after(paras, cascade_visits(n)) == paras,
        dirty_after(d, areas, cascade_visits(n)) == d,
{
}

} // verus!
