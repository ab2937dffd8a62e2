//! Between the window's pane tree and the layout that a session daemon keeps: local pane ids on
//! one side, the daemon's on the other.

use crate::proto::LayoutNode;
use crate::workspace;
use crate::workspace::{Node, PaneId, Split};
use vstd::prelude::*;

verus! {

/// The local pane that stands for a daemon pane: the last one listed.
pub open spec fn local_of(panes: Seq<(u64, PaneId)>, remote: u64) -> Option<PaneId>
    decreases panes.len(),
{
    if panes.len() == 0 {
        None
    } else if panes.last().0 == remote {
        Some(panes.last().1)
    } else {
        local_of(panes.drop_last(), remote)
    }
}

/// How many splits a layout has.
pub open spec fn splits(ln: LayoutNode) -> nat
    decreases ln,
{
    match ln {
        LayoutNode::Leaf { .. } => 0,
        LayoutNode::Split { a, b, .. } => 1 + splits(*a) + splits(*b),
    }
}

/// What is left of `room` once every split of a layout has an id, if that is enough.
pub fn room_left(ln: &LayoutNode, room: u64) -> (r: Option<u64>)
    ensures
        match r {
            Some(n) => splits(*ln) <= room && n == room - splits(*ln),
            None => splits(*ln) > room,
        },
    decreases ln,
{
    match ln {
        LayoutNode::Leaf { .. } => Some(room),
        LayoutNode::Split { a, b, .. } => {
            if room == 0 {
                return None;
            }
            match room_left(a, room - 1) {
                Some(n) => room_left(b, n),
                None => None,
            }
        },
    }
}

/// The daemon panes of a layout, in reading order.
pub open spec fn layout_panes(ln: LayoutNode) -> Seq<u64>
    decreases ln,
{
    match ln {
        LayoutNode::Leaf { pane } => seq![pane],
        LayoutNode::Split { a, b, .. } => layout_panes(*a) + layout_panes(*b),
    }
}

/// The local panes that stand for daemon panes, those without one left out.
pub open spec fn locals(remotes: Seq<u64>, panes: Seq<(u64, PaneId)>) -> Seq<PaneId>
    decreases remotes.len(),
{
    if remotes.len() == 0 {
        seq![]
    } else {
        match local_of(panes, remotes.last()) {
            Some(local) => locals(remotes.drop_last(), panes).push(local),
            None => locals(remotes.drop_last(), panes),
        }
    }
}

pub open spec fn orientation(cols: bool) -> Split {
    if cols {
        Split::Cols
    } else {
        Split::Rows
    }
}

/// The tree that a layout describes, with the local panes that stand for its daemon panes. A leaf
/// whose pane is gone collapses its split into the surviving side. Fresh branch ids count from
/// `next`; the second value is the next one.
pub open spec fn built(ln: LayoutNode, panes: Seq<(u64, PaneId)>, next: u64) -> (Option<Node>, u64)
    decreases ln,
{
    match ln {
        LayoutNode::Leaf { pane } => match local_of(panes, pane) {
            Some(local) => (Some(Node::Leaf(local)), next),
            None => (None, next),
        },
        LayoutNode::Split { cols, ratio, a, b } => {
            let (left, n1) = built(*a, panes, next);
            let (right, n2) = built(*b, panes, n1);
            match (left, right) {
                (Some(a), Some(b)) => (
                    Some(
                        Node::Branch {
                            id: n2,
                            split: orientation(cols),
                            ratio,
                            a: Box::new(a),
                            b: Box::new(b),
                        },
                    ),
                    (n2 + 1) as u64,
                ),
                (Some(n), None) => (Some(n), n2),
                (None, Some(n)) => (Some(n), n2),
                (None, None) => (None, n2),
            }
        },
    }
}

/// The layout of a tree whose panes `remote` maps to daemon panes; `None` if it misses one.
pub open spec fn described(n: Node, remote: spec_fn(PaneId) -> Option<u64>) -> Option<LayoutNode>
    decreases n,
{
    match n {
        Node::Leaf(local) => match remote(local) {
            Some(pane) => Some(LayoutNode::Leaf { pane }),
            None => None,
        },
        Node::Branch { split, ratio, a, b, .. } => {
            match (described(*a, remote), described(*b, remote)) {
                (Some(a), Some(b)) => Some(
                    LayoutNode::Split {
                        cols: split == Split::Cols,
                        ratio,
                        a: Box::new(a),
                        b: Box::new(b),
                    },
                ),
                _ => None,
            }
        },
    }
}

/// Two trees that differ in nothing but the ids of their branches.
pub open spec fn same_shape(m: Node, n: Node) -> bool
    decreases m,
{
    match (m, n) {
        (Node::Leaf(p), Node::Leaf(q)) => p == q,
        (
            Node::Branch { split: s, ratio: r, a, b, .. },
            Node::Branch { split: t, ratio: q, a: c, b: d, .. },
        ) => s == t && r == q && same_shape(*a, *c) && same_shape(*b, *d),
        _ => false,
    }
}

/// Find the local pane that stands for a daemon pane.
pub fn find_local(panes: &[(u64, PaneId)], remote: u64) -> (r: Option<PaneId>)
    ensures
        r == local_of(panes@, remote),
{
    let mut i: usize = panes.len();
    assert(panes@.take(i as int) =~= panes@);
    while i > 0
        invariant
            i <= panes@.len(),
            local_of(panes@, remote) == local_of(panes@.take(i as int), remote),
        decreases i,
    {
        assert(panes@.take(i as int).drop_last() =~= panes@.take(i - 1));
        let (r, local) = panes[i - 1];
        if r == remote {
            return Some(local);
        }
        i = i - 1;
    }
    None
}

/// The ids that building a layout hands out are within its number of splits.
pub proof fn lemma_built_ids(ln: LayoutNode, panes: Seq<(u64, PaneId)>, next: u64)
    requires
        next + splits(ln) <= u64::MAX,
    ensures
        next <= built(ln, panes, next).1 <= next + splits(ln),
    decreases ln,
{
    match ln {
        LayoutNode::Leaf { .. } => {},
        LayoutNode::Split { a, b, .. } => {
            lemma_built_ids(*a, panes, next);
            lemma_built_ids(*b, panes, built(*a, panes, next).1);
        },
    }
}

/// A rebuilt tree uses no id beyond the next one.
pub proof fn lemma_built_below(ln: LayoutNode, panes: Seq<(u64, PaneId)>, next: u64)
    requires
        next + splits(ln) <= u64::MAX,
        forall|i: int| 0 <= i < panes.len() ==> (#[trigger] panes[i]).1 < next,
    ensures
        built(ln, panes, next).0 matches Some(n) ==> workspace::ids_below(
            n,
            built(ln, panes, next).1,
        ),
    decreases ln,
{
    match ln {
        LayoutNode::Leaf { pane } => {
            lemma_local_listed(panes, pane);
        },
        LayoutNode::Split { a, b, .. } => {
            let (left, n1) = built(*a, panes, next);
            let (right, n2) = built(*b, panes, n1);
            lemma_built_ids(*a, panes, next);
            lemma_built_ids(*b, panes, n1);
            lemma_built_below(*a, panes, next);
            lemma_built_below(*b, panes, n1);
            let top = built(ln, panes, next).1;
            if let Some(m) = left {
                workspace::lemma_ids_grow(m, n1, top);
            }
            if let Some(m) = right {
                workspace::lemma_ids_grow(m, n2, top);
            }
            if let Some(n) = built(ln, panes, next).0 {
                workspace::lemma_branch_ids(n, top);
            }
        },
    }
}

/// The local pane that stands for a daemon pane is a listed one.
pub proof fn lemma_local_listed(panes: Seq<(u64, PaneId)>, remote: u64)
    ensures
        local_of(panes, remote) matches Some(local) ==> exists|i: int|
            0 <= i < panes.len() && #[trigger] panes[i] == (remote, local),
    decreases panes.len(),
{
    if panes.len() > 0 {
        let p = panes.drop_last();
        lemma_local_listed(p, remote);
        assert(panes.last() == panes[panes.len() - 1]);
        if panes.last().0 != remote {
            if let Some(local) = local_of(p, remote) {
                let k = choose|k: int| 0 <= k < p.len() && #[trigger] p[k] == (remote, local);
                assert(panes[k] == (remote, local));
            }
        }
    }
}

/// Rebuild a tree from a layout, taking branch ids from `next`.
pub fn build_node(ln: &LayoutNode, panes: &[(u64, PaneId)], next: &mut u64) -> (r: Option<Node>)
    requires
        *old(next) + splits(*ln) <= u64::MAX,
    ensures
        (r, *final(next)) == built(*ln, panes@, *old(next)),
        *old(next) <= *final(next) <= *old(next) + splits(*ln),
    decreases ln,
{
    match ln {
        LayoutNode::Leaf { pane } => match find_local(panes, *pane) {
            Some(local) => Some(Node::Leaf(local)),
            None => None,
        },
        LayoutNode::Split { cols, ratio, a, b } => {
            let left = build_node(a, panes, next);
            let right = build_node(b, panes, next);
            match (left, right) {
                (Some(a), Some(b)) => {
                    let id: u64 = *next;
                    *next = id + 1;
                    let split = if *cols {
                        Split::Cols
                    } else {
                        Split::Rows
                    };
                    Some(
                        Node::Branch { id, split, ratio: *ratio, a: Box::new(a), b: Box::new(b) },
                    )
                },
                (Some(n), None) => Some(n),
                (None, Some(n)) => Some(n),
                (None, None) => None,
            }
        },
    }
}

proof fn lemma_locals_append(s: Seq<u64>, t: Seq<u64>, panes: Seq<(u64, PaneId)>)
    ensures
        locals(s + t, panes) == locals(s, panes) + locals(t, panes),
    decreases t.len(),
{
    if t.len() == 0 {
        assert(s + t =~= s);
        assert(locals(s, panes) + seq![] =~= locals(s, panes));
    } else {
        lemma_locals_append(s, t.drop_last(), panes);
        assert((s + t).drop_last() =~= s + t.drop_last());
        assert(locals(s + t, panes) =~= locals(s, panes) + locals(t, panes));
    }
}

/// A rebuilt tree holds exactly the panes of the layout that are still alive, in the layout's
/// order; and there is no tree exactly when none is.
pub proof fn rebuilding_keeps_the_living_panes(
    ln: LayoutNode,
    panes: Seq<(u64, PaneId)>,
    next: u64,
)
    ensures
        match built(ln, panes, next).0 {
            Some(n) => workspace::leaves(n) == locals(layout_panes(ln), panes),
            None => locals(layout_panes(ln), panes).len() == 0,
        },
    decreases ln,
{
    match ln {
        LayoutNode::Leaf { pane } => {
            reveal_with_fuel(locals, 2);
            assert(layout_panes(ln).drop_last() =~= seq![]);
            if let Some(local) = local_of(panes, pane) {
                assert(locals(layout_panes(ln), panes) =~= seq![local]);
            }
        },
        LayoutNode::Split { a, b, .. } => {
            let n1 = built(*a, panes, next).1;
            rebuilding_keeps_the_living_panes(*a, panes, next);
            rebuilding_keeps_the_living_panes(*b, panes, n1);
            lemma_locals_append(layout_panes(*a), layout_panes(*b), panes);
            let both = locals(layout_panes(*a), panes) + locals(layout_panes(*b), panes);
            if let Some(n) = built(ln, panes, next).0 {
                assert(workspace::leaves(n) =~= both);
            }
        },
    }
}

/// What a client describes to the daemon is what it rebuilds on reattach: the same splits, shares
/// and panes, where the daemon panes lead back to the local panes they stand for.
pub proof fn reattaching_restores_the_tree(
    n: Node,
    remote: spec_fn(PaneId) -> Option<u64>,
    panes: Seq<(u64, PaneId)>,
    next: u64,
)
    requires
        forall|i: int|
            0 <= i < workspace::leaves(n).len() ==> (remote(#[trigger] workspace::leaves(n)[i])
                matches Some(r) && local_of(panes, r) == Some(workspace::leaves(n)[i])),
    ensures
        described(n, remote) matches Some(ln) && (built(ln, panes, next).0 matches Some(m)
            && same_shape(m, n)),
    decreases n,
{
    match n {
        Node::Leaf(local) => {
            assert(workspace::leaves(n)[0] == local);
        },
        Node::Branch { split, a, b, .. } => {
            let (la, lb) = (workspace::leaves(*a), workspace::leaves(*b));
            assert forall|i: int| 0 <= i < la.len() implies (remote(#[trigger] la[i])
                matches Some(r) && local_of(panes, r) == Some(la[i])) by {
                assert(workspace::leaves(n)[i] == la[i]);
            }
            assert forall|i: int| 0 <= i < lb.len() implies (remote(#[trigger] lb[i])
                matches Some(r) && local_of(panes, r) == Some(lb[i])) by {
                assert(workspace::leaves(n)[la.len() + i] == lb[i]);
            }
            reattaching_restores_the_tree(*a, remote, panes, next);
            let left = described(*a, remote)->0;
            let n1 = built(left, panes, next).1;
            reattaching_restores_the_tree(*b, remote, panes, n1);
        },
    }
}

} // verus!
