//! The render tree's nodes and the removal-cascade traversal.
//!
//! A node owns its children, so a subtree is a value and the cascade can be
//! specified by structural recursion.  The executable traversal nevertheless
//! uses an explicit work stack, never call-stack recursion over author-deep
//! trees, and is proved equal to the recursive specification.

use vstd::prelude::*;

verus! {

/// Whether an element's tag participates in intrinsic-layout propagation to
/// its children.  An atomic leaf widget's internal structure is private to its
/// element renderer and is not descended into by the outer traversal.
#[derive(Clone, Copy, PartialEq, Eq, Structural, Debug)]
pub enum TagKind {
    Composite,
    AtomicLeaf,
}

#[derive(Clone, Copy, PartialEq, Eq, Structural, Debug)]
pub enum NodeKind {
    Element(TagKind),
    Text,
    Placeholder,
}

/// Per-node derived state: the assigned paint layer and, when the node renders
/// text, the shaping identity of its cursor reference.  A node created this
/// frame transiently lacks this state and is absent from every registry.
#[derive(Clone, Copy, Debug)]
pub struct DerivedState {
    pub layer: i64,
    pub cursor: Option<u64>,
}

/// One node of the retained render tree.
pub struct Node {
    pub id: u64,
    pub kind: NodeKind,
    pub state: Option<DerivedState>,
    pub text: Option<String>,
    pub attrs: Vec<(u64, u64)>,
    pub listeners: Vec<u64>,
    pub children: Vec<Node>,
}

/// What the cascade processes for one visited node: its identifier, assigned
/// layer, and cursor reference if it carries one.
#[derive(Clone, Copy, Debug)]
pub struct VisitInfo {
    pub id: u64,
    pub layer: i64,
    pub cursor: Option<u64>,
}

pub open spec fn is_visible(k: NodeKind) -> bool {
    k is Element
}

pub open spec fn propagates_layout(k: NodeKind) -> bool {
    k == NodeKind::Element(TagKind::Composite)
}

pub fn kind_is_visible(k: &NodeKind) -> (r: bool)
    ensures
        r == is_visible(*k),
{
    match k {
        NodeKind::Element(_) => true,
        _ => false,
    }
}

pub fn kind_propagates_layout(k: &NodeKind) -> (r: bool)
    ensures
        r == propagates_layout(*k),
{
    match k {
        NodeKind::Element(TagKind::Composite) => true,
        _ => false,
    }
}

/// The nodes the removal cascade processes under `n`, in document order:
/// a non-visible node is skipped but traversed through; a visible node without
/// derived state was never registered and is skipped entirely; a visible node
/// with state is processed, and its children are visited only when its tag
/// kind propagates intrinsic layout to them.
pub open spec fn cascade_visits(n: Node) -> Seq<VisitInfo>
    decreases n, 1int,
{
    if !is_visible(n.kind) {
        cascade_seq(n.children@)
    } else {
        match n.state {
            None => Seq::empty(),
            Some(st) => seq![VisitInfo { id: n.id, layer: st.layer, cursor: st.cursor }]
                + if propagates_layout(n.kind) {
                    cascade_seq(n.children@)
                } else {
                    Seq::empty()
                },
        }
    }
}

pub open spec fn cascade_seq(s: Seq<Node>) -> Seq<VisitInfo>
    decreases s, 0int,
{
    if s.len() == 0 {
        Seq::empty()
    } else {
        cascade_visits(s[0]) + cascade_seq(s.drop_first())
    }
}

/// Every identifier of the subtree rooted at `n`, in document order.  The
/// layout tree forgets all of them on removal: structural deletion cascades
/// even where the registry traversal was pruned.
pub open spec fn subtree_ids(n: Node) -> Seq<u64>
    decreases n, 1int,
{
    seq![n.id] + subtree_ids_seq(n.children@)
}

pub open spec fn subtree_ids_seq(s: Seq<Node>) -> Seq<u64>
    decreases s, 0int,
{
    if s.len() == 0 {
        Seq::empty()
    } else {
        subtree_ids(s[0]) + subtree_ids_seq(s.drop_first())
    }
}

/// Number of nodes in the subtree rooted at `n`; the traversal's measure.
pub open spec fn size(n: Node) -> nat
    decreases n, 1int,
{
    1 + size_seq(n.children@)
}

pub open spec fn size_seq(s: Seq<Node>) -> nat
    decreases s, 0int,
{
    if s.len() == 0 {
        0
    } else {
        size(s[0]) + size_seq(s.drop_first())
    }
}

/// First node with identifier `id` in the subtree rooted at `n`, depth-first.
pub open spec fn find_node(n: Node, id: u64) -> Option<Node>
    decreases n, 1int,
{
    if n.id == id {
        Some(n)
    } else {
        find_in_seq_spec(n.children@, id)
    }
}

pub open spec fn find_in_seq_spec(s: Seq<Node>, id: u64) -> Option<Node>
    decreases s, 0int,
{
    if s.len() == 0 {
        None
    } else {
        match find_node(s[0], id) {
            Some(m) => Some(m),
            None => find_in_seq_spec(s.drop_first(), id),
        }
    }
}

pub proof fn lemma_size_seq_concat(a: Seq<Node>, b: Seq<Node>)
    ensures
        size_seq(a + b) == size_seq(a) + size_seq(b),
    decreases a.len(),
{
    if a.len() == 0 {
        assert(a + b =~= b);
    } else {
        assert((a + b).drop_first() =~= a.drop_first() + b);
        lemma_size_seq_concat(a.drop_first(), b);
    }
}

pub proof fn lemma_size_seq_elem(s: Seq<Node>, i: int)
    requires
        0 <= i < s.len(),
    ensures
        size(s[i]) <= size_seq(s),
    decreases s.len(),
{
    if i == 0 {
    } else {
        lemma_size_seq_elem(s.drop_first(), i - 1);
    }
}

pub proof fn lemma_size_singleton(n: Node)
    ensures
        size_seq(seq![n]) == size(n),
{
    assert(seq![n].drop_first() =~= Seq::<Node>::empty());
    assert(size_seq(seq![n]) == size(seq![n][0]) + size_seq(seq![n].drop_first()));
}

pub proof fn lemma_size_seq_reverse(s: Seq<Node>)
    ensures
        size_seq(s.reverse()) == size_seq(s),
    decreases s.len(),
{
    if s.len() == 0 {
        assert(s.reverse() =~= s);
    } else {
        assert(s.reverse()[0] == s.last());
        assert(s.reverse().drop_first() =~= s.drop_last().reverse());
        lemma_size_seq_reverse(s.drop_last());
        assert(s =~= s.drop_last() + seq![s.last()]);
        lemma_size_seq_concat(s.drop_last(), seq![s.last()]);
        lemma_size_singleton(s.last());
    }
}

/// What remains for the cascade to process, given the work stack: the node on
/// top (popped first) contributes its visits first.
pub open spec fn casc_stack(s: Seq<Node>) -> Seq<VisitInfo>
    decreases s.len(),
{
    if s.len() == 0 {
        Seq::empty()
    } else {
        cascade_visits(s.last()) + casc_stack(s.drop_last())
    }
}

/// Likewise for the full structural traversal that collects subtree ids.
pub open spec fn ids_stack(s: Seq<Node>) -> Seq<u64>
    decreases s.len(),
{
    if s.len() == 0 {
        Seq::empty()
    } else {
        subtree_ids(s.last()) + ids_stack(s.drop_last())
    }
}

/// Pushing a node's children in reverse order onto the stack schedules exactly
/// their left-to-right cascade before the rest of the stack.
pub proof fn lemma_casc_stack_append_rev(t: Seq<Node>, cs: Seq<Node>)
    ensures
        casc_stack(t + cs.reverse()) == cascade_seq(cs) + casc_stack(t),
    decreases cs.len(),
{
    if cs.len() == 0 {
        assert(t + cs.reverse() =~= t);
        assert(cascade_seq(cs) + casc_stack(t) =~= casc_stack(t));
    } else {
        let u = t + cs.reverse();
        assert(u.last() == cs[0]);
        assert(u.drop_last() =~= t + cs.drop_first().reverse());
        lemma_casc_stack_append_rev(t, cs.drop_first());
        assert(cascade_visits(cs[0]) + (cascade_seq(cs.drop_first()) + casc_stack(t))
            =~= cascade_seq(cs) + casc_stack(t));
    }
}

pub proof fn lemma_ids_stack_append_rev(t: Seq<Node>, cs: Seq<Node>)
    ensures
        ids_stack(t + cs.reverse()) == subtree_ids_seq(cs) + ids_stack(t),
    decreases cs.len(),
{
    if cs.len() == 0 {
        assert(t + cs.reverse() =~= t);
        assert(subtree_ids_seq(cs) + ids_stack(t) =~= ids_stack(t));
    } else {
        let u = t + cs.reverse();
        assert(u.last() == cs[0]);
        assert(u.drop_last() =~= t + cs.drop_first().reverse());
        lemma_ids_stack_append_rev(t, cs.drop_first());
        assert(subtree_ids(cs[0]) + (subtree_ids_seq(cs.drop_first()) + ids_stack(t))
            =~= subtree_ids_seq(cs) + ids_stack(t));
    }
}

/// The nodes a borrowed work stack stands for.
pub open spec fn deref_seq(s: Seq<&Node>) -> Seq<Node> {
    s.map_values(|r: &Node| *r)
}

pub proof fn lemma_casc_stack_singleton(n: Node)
    ensures
        casc_stack(seq![n]) == cascade_visits(n),
{
    assert(seq![n].drop_last() =~= Seq::<Node>::empty());
    assert(casc_stack(seq![n]) == cascade_visits(seq![n].last()) + casc_stack(seq![n].drop_last()));
    assert(cascade_visits(n) + Seq::<VisitInfo>::empty() =~= cascade_visits(n));
}

pub proof fn lemma_ids_stack_singleton(n: Node)
    ensures
        ids_stack(seq![n]) == subtree_ids(n),
{
    assert(seq![n].drop_last() =~= Seq::<Node>::empty());
    assert(ids_stack(seq![n]) == subtree_ids(seq![n].last()) + ids_stack(seq![n].drop_last()));
    assert(subtree_ids(n) + Seq::<u64>::empty() =~= subtree_ids(n));
}

/// Depth-first traversal of the subtree under `root` with an explicit stack,
/// collecting exactly what the removal cascade processes, in document order.
pub fn collect_cascade(root: &Node) -> (out: Vec<VisitInfo>)
    ensures
        out@ == cascade_visits(*root),
{
    let mut out: Vec<VisitInfo> = Vec::new();
    let mut stack: Vec<&Node> = Vec::new();
    stack.push(root);
    proof {
        assert(deref_seq(stack@) =~= seq![*root]);
        lemma_casc_stack_singleton(*root);
        assert(out@ + casc_stack(deref_seq(stack@)) =~= cascade_visits(*root));
    }
    while stack.len() > 0
        invariant
            cascade_visits(*root) == out@ + casc_stack(deref_seq(stack@)),
        decreases size_seq(deref_seq(stack@)),
    {
        let ghost pre = deref_seq(stack@);
        let ghost out0 = out@;
        let n = stack.pop().unwrap();
        let ghost base = deref_seq(stack@);
        proof {
            assert(pre.last() == *n);
            assert(pre.drop_last() =~= base);
            assert(pre =~= base + seq![*n]);
            lemma_size_seq_concat(base, seq![*n]);
            lemma_size_singleton(*n);
            assert(casc_stack(pre) == cascade_visits(*n) + casc_stack(base));
        }
        let visible = kind_is_visible(&n.kind);
        let descend: bool;
        let ghost mut pushed: Seq<VisitInfo> = Seq::empty();
        if !visible {
            descend = true;
        } else {
            match &n.state {
                None => {
                    descend = false;
                },
                Some(st) => {
                    let info = VisitInfo { id: n.id, layer: st.layer, cursor: st.cursor };
                    out.push(info);
                    proof {
                        pushed = seq![info];
                    }
                    descend = kind_propagates_layout(&n.kind);
                },
            }
        }
        proof {
            assert(out@ =~= out0 + pushed);
        }
        if descend {
            let mut j = n.children.len();
            while j > 0
                invariant
                    j <= n.children.len(),
                    deref_seq(stack@) =~= base + n.children@.skip(j as int).reverse(),
                decreases j,
            {
                j -= 1;
                let ghost before = deref_seq(stack@);
                stack.push(&n.children[j]);
                proof {
                    assert(deref_seq(stack@) =~= before.push(n.children@[j as int]));
                    assert(n.children@.skip(j as int).reverse()
                        =~= n.children@.skip(j as int + 1).reverse().push(n.children@[j as int]));
                    assert(deref_seq(stack@) =~= base + n.children@.skip(j as int).reverse());
                }
            }
            proof {
                assert(n.children@.skip(0) =~= n.children@);
                assert(deref_seq(stack@) =~= base + n.children@.reverse());
                lemma_casc_stack_append_rev(base, n.children@);
                lemma_size_seq_concat(base, n.children@.reverse());
                lemma_size_seq_reverse(n.children@);
                assert(cascade_visits(*n) =~= pushed + cascade_seq(n.children@));
                assert(out@ + casc_stack(deref_seq(stack@))
                    =~= out0 + (pushed + cascade_seq(n.children@)) + casc_stack(base));
                assert(out0 + (pushed + cascade_seq(n.children@)) + casc_stack(base)
                    =~= out0 + cascade_visits(*n) + casc_stack(base));
                assert(out0 + cascade_visits(*n) + casc_stack(base)
                    =~= out0 + casc_stack(pre));
                assert(size_seq(deref_seq(stack@)) < size_seq(pre));
            }
        } else {
            proof {
                assert(cascade_visits(*n) =~= pushed);
                assert(out@ + casc_stack(base) =~= out0 + casc_stack(pre));
                assert(size_seq(base) < size_seq(pre));
            }
        }
    }
    proof {
        assert(deref_seq(stack@) =~= Seq::<Node>::empty());
        assert(out@ =~= cascade_visits(*root));
    }
    out
}

/// Full structural traversal of the subtree under `root` with an explicit
/// stack, collecting every node identifier in document order.
pub fn collect_subtree_ids(root: &Node) -> (out: Vec<u64>)
    ensures
        out@ == subtree_ids(*root),
{
    let mut out: Vec<u64> = Vec::new();
    let mut stack: Vec<&Node> = Vec::new();
    stack.push(root);
    proof {
        assert(deref_seq(stack@) =~= seq![*root]);
        lemma_ids_stack_singleton(*root);
        assert(out@ + ids_stack(deref_seq(stack@)) =~= subtree_ids(*root));
    }
    while stack.len() > 0
        invariant
            subtree_ids(*root) == out@ + ids_stack(deref_seq(stack@)),
        decreases size_seq(deref_seq(stack@)),
    {
        let ghost pre = deref_seq(stack@);
        let ghost out0 = out@;
        let n = stack.pop().unwrap();
        let ghost base = deref_seq(stack@);
        proof {
            assert(pre.last() == *n);
            assert(pre.drop_last() =~= base);
            assert(pre =~= base + seq![*n]);
            lemma_size_seq_concat(base, seq![*n]);
            lemma_size_singleton(*n);
            assert(ids_stack(pre) == subtree_ids(*n) + ids_stack(base));
        }
        out.push(n.id);
        let mut j = n.children.len();
        while j > 0
            invariant
                j <= n.children.len(),
                deref_seq(stack@) =~= base + n.children@.skip(j as int).reverse(),
            decreases j,
        {
            j -= 1;
            let ghost before = deref_seq(stack@);
            stack.push(&n.children[j]);
            proof {
                assert(deref_seq(stack@) =~= before.push(n.children@[j as int]));
                assert(n.children@.skip(j as int).reverse()
                    =~= n.children@.skip(j as int + 1).reverse().push(n.children@[j as int]));
                assert(deref_seq(stack@) =~= base + n.children@.skip(j as int).reverse());
            }
        }
        proof {
            assert(n.children@.skip(0) =~= n.children@);
            assert(deref_seq(stack@) =~= base + n.children@.reverse());
            lemma_ids_stack_append_rev(base, n.children@);
            lemma_size_seq_concat(base, n.children@.reverse());
            lemma_size_seq_reverse(n.children@);
            assert(out@ =~= out0 + seq![n.id]);
            assert(out@ + ids_stack(deref_seq(stack@))
                =~= out0 + (seq![n.id] + subtree_ids_seq(n.children@)) + ids_stack(base));
            assert(out0 + (seq![n.id] + subtree_ids_seq(n.children@)) + ids_stack(base)
                =~= out0 + subtree_ids(*n) + ids_stack(base));
            assert(out0 + subtree_ids(*n) + ids_stack(base) =~= out0 + ids_stack(pre));
            assert(size_seq(deref_seq(stack@)) < size_seq(pre));
        }
    }
    proof {
        assert(deref_seq(stack@) =~= Seq::<Node>::empty());
        assert(out@ =~= subtree_ids(*root));
    }
    out
}

/// First node with identifier `id` among `nodes` and their descendants,
/// depth-first in document order.
pub fn find_in_vec<'a>(nodes: &'a Vec<Node>, id: u64) -> (r: Option<&'a Node>)
    ensures
        match r {
            Some(p) => find_in_seq_spec(nodes@, id) == Some(*p),
            None => find_in_seq_spec(nodes@, id) is None,
        },
    decreases size_seq(nodes@),
{
    let mut i: usize = 0;
    proof {
        assert(nodes@.skip(0) =~= nodes@);
    }
    while i < nodes.len()
        invariant
            i <= nodes.len(),
            find_in_seq_spec(nodes@, id) == find_in_seq_spec(nodes@.skip(i as int), id),
        decreases nodes.len() - i,
    {
        proof {
            assert(nodes@.skip(i as int).len() > 0);
            assert(nodes@.skip(i as int)[0] == nodes@[i as int]);
            assert(nodes@.skip(i as int).drop_first() =~= nodes@.skip(i as int + 1));
        }
        if nodes[i].id == id {
            proof {
                assert(find_node(nodes@[i as int], id) == Some(nodes@[i as int]));
                assert(find_in_seq_spec(nodes@.skip(i as int), id) == Some(nodes@[i as int]));
            }
            return Some(&nodes[i]);
        }
        proof {
            lemma_size_seq_elem(nodes@, i as int);
        }
        let r = find_in_vec(&nodes[i].children, id);
        match r {
            Some(p) => {
                proof {
                    assert(find_node(nodes@[i as int], id) == Some(*p));
                    assert(find_in_seq_spec(nodes@.skip(i as int), id) == Some(*p));
                }
                return Some(p);
            },
            None => {},
        }
        proof {
            assert(find_node(nodes@[i as int], id) is None);
            assert(find_in_seq_spec(nodes@.skip(i as int), id)
                == find_in_seq_spec(nodes@.skip(i as int + 1), id));
        }
        i += 1;
    }
    proof {
        assert(nodes@.skip(i as int) =~= Seq::<Node>::empty());
    }
    None
}

} // verus!
