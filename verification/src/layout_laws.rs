//! What a layout says of a tree, and what is rebuilt from it.

use crate::layout::{built, described, layout_panes, local_of, locals};
use crate::proto::LayoutNode;
use crate::workspace;
use crate::workspace::{Node, PaneId, Split};
use vstd::prelude::*;

verus! {

/// A layout says of each split whether it is side by side, and its share; of each pane the daemon's
/// number; and the first child before the second.
pub proof fn layouts_say_how_panes_are_split(n: Node, remote: spec_fn(PaneId) -> Option<u64>)
    requires
        described(n, remote) is Some,
    ensures
        n matches Node::Leaf(p) ==> remote(p) is Some && described(n, remote) == Some(
            LayoutNode::Leaf { pane: remote(p)->0 },
        ),
        n matches Node::Branch { split, ratio, a, b, .. } ==> {
            &&& described(n, remote)->0 matches LayoutNode::Split { cols, ratio: r, a: c, b: d } && r
                == ratio && (cols <==> split is Cols) && (!cols <==> split is Rows) && described(
                *a,
                remote,
            ) == Some(*c) && described(*b, remote) == Some(*d)
        },
{
}

/// A split whose two sides live is rebuilt as it was said to be: side by side or stacked, with its
/// share, and the sides in order. A side that is gone leaves its place to the other.
pub proof fn splits_are_rebuilt_as_said(
    cols: bool,
    ratio: u32,
    a: LayoutNode,
    b: LayoutNode,
    panes: Seq<(u64, PaneId)>,
    next: u64,
)
    ensures
        ({
            let ln = LayoutNode::Split { cols, ratio, a: Box::new(a), b: Box::new(b) };
            let (l, n1) = built(a, panes, next);
            let r = built(b, panes, n1).0;
            let t = built(ln, panes, next).0;
            &&& l is Some && r is Some ==> (t matches Some(Node::Branch {
                split,
                ratio: k,
                a: c,
                b: d,
                ..
            }) && k == ratio && (cols <==> split is Cols) && *c == l->0 && *d == r->0)
            &&& l is Some && r is None ==> t == l
            &&& l is None && r is Some ==> t == r
            &&& l is None && r is None ==> t is None
        }),
{
}

/// A pane of the daemon is the local one that is listed last for it; one that is not listed is
/// gone.
pub proof fn daemon_panes_are_looked_up(panes: Seq<(u64, PaneId)>, remote: u64, local: PaneId, r: u64)
    ensures
        local_of(panes.push((remote, local)), remote) == Some(local),
        r != remote ==> local_of(panes.push((remote, local)), r) == local_of(panes, r),
        local_of(Seq::<(u64, PaneId)>::empty(), r) is None,
{
    assert(panes.push((remote, local)).drop_last() =~= panes);
}

/// The panes of a layout are those of its first side and then those of its second.
pub proof fn layouts_are_read_in_order(cols: bool, ratio: u32, a: LayoutNode, b: LayoutNode, p: u64)
    ensures
        layout_panes(LayoutNode::Leaf { pane: p }) == seq![p],
        layout_panes(LayoutNode::Split { cols, ratio, a: Box::new(a), b: Box::new(b) }).take(
            layout_panes(a).len() as int,
        ) == layout_panes(a),
        layout_panes(LayoutNode::Split { cols, ratio, a: Box::new(a), b: Box::new(b) }).skip(
            layout_panes(a).len() as int,
        ) == layout_panes(b),
{
    let s = layout_panes(LayoutNode::Split { cols, ratio, a: Box::new(a), b: Box::new(b) });
    assert(s.take(layout_panes(a).len() as int) =~= layout_panes(a));
    assert(s.skip(layout_panes(a).len() as int) =~= layout_panes(b));
}

/// The living panes are taken in order, each as its local one.
pub proof fn living_panes_are_taken_in_order(
    remotes: Seq<u64>,
    r: u64,
    panes: Seq<(u64, PaneId)>,
)
    ensures
        local_of(panes, r) is Some ==> locals(remotes.push(r), panes) == locals(remotes, panes).push(
            local_of(panes, r)->0,
        ),
        local_of(panes, r) is None ==> locals(remotes.push(r), panes) == locals(remotes, panes),
{
    assert(remotes.push(r).drop_last() =~= remotes);
}

/// A rebuilt tree takes one number for each of its splits, in a row, and a layout without living
/// panes takes none.
pub proof fn rebuilt_splits_are_numbered_in_a_row(
    ln: LayoutNode,
    panes: Seq<(u64, PaneId)>,
    next: u64,
)
    requires
        next + layout_panes(ln).len() <= u64::MAX,
    ensures
        built(ln, panes, next).0 matches Some(n) ==> built(ln, panes, next).1 == next
            + workspace::branches(n).len() && workspace::branches(n).len() < layout_panes(ln).len(),
        built(ln, panes, next).0 is None ==> built(ln, panes, next).1 == next,
        layout_panes(ln).len() > 0,
    decreases ln,
{
    if let LayoutNode::Split { a, b, .. } = ln {
        rebuilt_splits_are_numbered_in_a_row(*a, panes, next);
        rebuilt_splits_are_numbered_in_a_row(*b, panes, built(*a, panes, next).1);
    }
}

} // verus!
