//! Tabs and the pane tree: the model that the menu manipulates.
//!
//! This is structure only: every leaf is a pane id, and the window keeps one live terminal per
//! leaf. The model never starts or ends terminals itself.

use crate::bits;
use crate::seqs;
use crate::text;
use crate::text::push_number;
use vstd::prelude::*;

verus! {

pub type PaneId = u64;

/// How a pane is split. `Cols` puts children side by side (a vertical divider); `Rows` stacks them
/// (a horizontal divider).
#[derive(Debug, Clone, Copy, PartialEq, Eq, Structural)]
pub enum Split {
    Cols,
    Rows,
}

/// The first child's share of a split, as the bits of a single-precision number.
pub type Ratio = bits::Single;

/// One half.
pub const HALF: Ratio = 0x3f00_0000;

/// 0.05: the least share either child keeps.
pub const MIN_RATIO: Ratio = 0x3d4c_cccd;

/// 0.95: the largest share the first child takes.
pub const MAX_RATIO: Ratio = 0x3f73_3333;

/// A binary layout tree. Leaves are panes; internal nodes are splits. Each branch carries a stable
/// id so that the divider between its children can be addressed for drag-to-resize.
#[derive(Debug, PartialEq, Eq)]
pub enum Node {
    Leaf(PaneId),
    Branch { id: u64, split: Split, ratio: Ratio, a: Box<Node>, b: Box<Node> },
}

/// A draggable split divider: which branch it belongs to, the gap strip to draw and grab, the
/// branch's full area, and the split orientation.
#[derive(Debug, PartialEq, Eq)]
pub struct Divider<R> {
    pub id: u64,
    pub rect: R,
    pub area: R,
    pub split: Split,
}

/// A share brought into the allowed range.
pub open spec fn clamped(r: Ratio) -> Ratio {
    bits::clamped(r, MIN_RATIO, MAX_RATIO)
}

/// The panes of a tree, in reading order.
pub open spec fn leaves(n: Node) -> Seq<PaneId>
    decreases n,
{
    match n {
        Node::Leaf(id) => seq![id],
        Node::Branch { a, b, .. } => leaves(*a) + leaves(*b),
    }
}

/// The ids of the branches of a tree.
pub open spec fn branches(n: Node) -> Seq<u64>
    decreases n,
{
    match n {
        Node::Leaf(_) => seq![],
        Node::Branch { id, a, b, .. } => seq![id] + branches(*a) + branches(*b),
    }
}

/// The tree with its first leaf `target` replaced by a split of itself and a fresh pane.
pub open spec fn with_split(
    n: Node,
    target: PaneId,
    split: Split,
    new_id: PaneId,
    branch_id: u64,
) -> Node
    decreases n,
{
    match n {
        Node::Leaf(id) => {
            if id == target {
                Node::Branch {
                    id: branch_id,
                    split,
                    ratio: HALF,
                    a: Box::new(Node::Leaf(id)),
                    b: Box::new(Node::Leaf(new_id)),
                }
            } else {
                n
            }
        },
        Node::Branch { id, split: s, ratio, a, b } => {
            if leaves(*a).contains(target) {
                Node::Branch {
                    id,
                    split: s,
                    ratio,
                    a: Box::new(with_split(*a, target, split, new_id, branch_id)),
                    b,
                }
            } else {
                Node::Branch {
                    id,
                    split: s,
                    ratio,
                    a,
                    b: Box::new(with_split(*b, target, split, new_id, branch_id)),
                }
            }
        },
    }
}

/// The tree without its leaves `target`, every split that lost a child collapsed into the other;
/// `None` if nothing is left.
pub open spec fn without(n: Node, target: PaneId) -> Option<Node>
    decreases n,
{
    match n {
        Node::Leaf(id) => if id == target {
            None
        } else {
            Some(n)
        },
        Node::Branch { id, split, ratio, a, b } => {
            match (without(*a, target), without(*b, target)) {
                (Some(a), Some(b)) => Some(
                    Node::Branch { id, split, ratio, a: Box::new(a), b: Box::new(b) },
                ),
                (Some(m), None) => Some(m),
                (None, Some(m)) => Some(m),
                (None, None) => None,
            }
        },
    }
}

/// The tree with the share of its first branch `id` set.
pub open spec fn with_ratio(n: Node, id: u64, r: Ratio) -> Node
    decreases n,
{
    match n {
        Node::Leaf(_) => n,
        Node::Branch { id: own, split, ratio, a, b } => {
            if own == id {
                Node::Branch { id: own, split, ratio: clamped(r), a, b }
            } else if branches(*a).contains(id) {
                Node::Branch { id: own, split, ratio, a: Box::new(with_ratio(*a, id, r)), b }
            } else {
                Node::Branch { id: own, split, ratio, a, b: Box::new(with_ratio(*b, id, r)) }
            }
        },
    }
}

proof fn lemma_in_either<A>(s: Seq<A>, t: Seq<A>, x: A)
    ensures
        (s + t).contains(x) <==> s.contains(x) || t.contains(x),
{
    if s.contains(x) {
        let k = choose|k: int| 0 <= k < s.len() && s[k] == x;
        assert((s + t)[k] == x);
    }
    if t.contains(x) {
        let k = choose|k: int| 0 <= k < t.len() && t[k] == x;
        assert((s + t)[s.len() + k] == x);
    }
    if (s + t).contains(x) {
        let k = choose|k: int| 0 <= k < (s + t).len() && (s + t)[k] == x;
        if k < s.len() {
            assert(s[k] == x);
        } else {
            assert(t[k - s.len()] == x);
        }
    }
}

proof fn lemma_has_leaf(n: Node)
    ensures
        leaves(n).len() > 0,
    decreases n,
{
    match n {
        Node::Leaf(_) => {},
        Node::Branch { a, b, .. } => {
            lemma_has_leaf(*a);
        },
    }
}

impl Node {
    /// The pane that comes first in reading order.
    pub fn first_leaf(&self) -> (id: PaneId)
        ensures
            leaves(*self).len() > 0,
            id == leaves(*self)[0],
        decreases self,
    {
        proof {
            lemma_has_leaf(*self);
        }
        match self {
            Node::Leaf(id) => *id,
            Node::Branch { a, .. } => {
                a.first_leaf()
            },
        }
    }

    /// Whether the pane is in the tree.
    pub fn contains(&self, id: PaneId) -> (b: bool)
        ensures
            b == leaves(*self).contains(id),
        decreases self,
    {
        match self {
            Node::Leaf(i) => {
                assert(leaves(*self)[0] == *i);
                *i == id
            },
            Node::Branch { a, b, .. } => {
                proof {
                    lemma_in_either(leaves(**a), leaves(**b), id);
                }
                a.contains(id) || b.contains(id)
            },
        }
    }

    /// Append the panes in reading order.
    pub fn collect_leaves(&self, out: &mut Vec<PaneId>)
        ensures
            final(out)@ == old(out)@ + leaves(*self),
        decreases self,
    {
        match self {
            Node::Leaf(id) => {
                out.push(*id);
                assert(out@ =~= old(out)@ + leaves(*self));
            },
            Node::Branch { a, b, .. } => {
                a.collect_leaves(out);
                b.collect_leaves(out);
                assert(out@ =~= old(out)@ + leaves(*self));
            },
        }
    }

    /// Replace leaf `target` with a split of itself and a fresh pane.
    pub fn split_leaf(
        &mut self,
        target: PaneId,
        split: Split,
        new_id: PaneId,
        branch_id: u64,
    ) -> (done: bool)
        ensures
            done == leaves(*old(self)).contains(target),
            *final(self) == with_split(*old(self), target, split, new_id, branch_id),
        decreases *old(self),
    {
        match self {
            Node::Leaf(id) => {
                let own: PaneId = *id;
                assert(leaves(*old(self))[0] == own);
                if own == target {
                    *self = Node::Branch {
                        id: branch_id,
                        split,
                        ratio: HALF,
                        a: Box::new(Node::Leaf(own)),
                        b: Box::new(Node::Leaf(new_id)),
                    };
                    true
                } else {
                    false
                }
            },
            Node::Branch { a, b, .. } => {
                proof {
                    lemma_in_either(leaves(**a), leaves(**b), target);
                    lemma_split_absent(**a, target, split, new_id, branch_id);
                }
                if a.split_leaf(target, split, new_id, branch_id) {
                    true
                } else {
                    b.split_leaf(target, split, new_id, branch_id)
                }
            },
        }
    }

    /// Drop `target`, collapsing its parent into the surviving sibling. Returns `None` if the
    /// whole tree was the target.
    pub fn without(self, target: PaneId) -> (r: Option<Node>)
        ensures
            r == without(self, target),
        decreases self,
    {
        match self {
            Node::Leaf(id) => {
                if id == target {
                    None
                } else {
                    Some(Node::Leaf(id))
                }
            },
            Node::Branch { id, split, ratio, a, b } => {
                let left = (*a).without(target);
                let right = (*b).without(target);
                match (left, right) {
                    (Some(a), Some(b)) => Some(
                        Node::Branch { id, split, ratio, a: Box::new(a), b: Box::new(b) },
                    ),
                    (Some(m), None) => Some(m),
                    (None, Some(m)) => Some(m),
                    (None, None) => None,
                }
            },
        }
    }

    /// Set the share of the branch with `id` (nothing happens if there is none). Clamped to keep
    /// both panes usable.
    pub fn set_ratio(&mut self, id: u64, ratio: Ratio) -> (done: bool)
        ensures
            done == branches(*old(self)).contains(id),
            *final(self) == with_ratio(*old(self), id, ratio),
        decreases *old(self),
    {
        match self {
            Node::Leaf(_) => false,
            Node::Branch { id: own, ratio: r, a, b, .. } => {
                proof {
                    let bs = branches(*old(self));
                    assert(bs[0] == *own);
                    lemma_in_either(seq![*own] + branches(**a), branches(**b), id);
                    lemma_in_either(seq![*own], branches(**a), id);
                    lemma_ratio_absent(**a, id, ratio);
                }
                if *own == id {
                    *r = bits::clamp(ratio, MIN_RATIO, MAX_RATIO);
                    true
                } else if a.set_ratio(id, ratio) {
                    true
                } else {
                    b.set_ratio(id, ratio)
                }
            },
        }
    }

    /// Where each pane goes: `area` is cut in two at every split, as `cut` says.
    pub fn leaf_rects<R: Copy, F: Fn(R, Split, Ratio) -> (R, R)>(
        &self,
        area: R,
        cut: &F,
        out: &mut Vec<(PaneId, R)>,
    )
        requires
            forall|r: R, s: Split, k: Ratio| #[trigger] cut.requires((r, s, k)),
        ensures
            exists|rects: Seq<(PaneId, R)>|
                final(out)@ == old(out)@ + rects && #[trigger] placed(*self, area, *cut, rects),
        decreases self,
    {
        match self {
            Node::Leaf(id) => {
                out.push((*id, area));
                assert(placed(*self, area, *cut, seq![(*id, area)]));
                assert(out@ =~= old(out)@ + seq![(*id, area)]);
            },
            Node::Branch { split, ratio, a, b, .. } => {
                let (ra, rb) = cut(area, *split, *ratio);
                a.leaf_rects(ra, cut, out);
                let ghost first = choose|rects: Seq<(PaneId, R)>|
                    out@ == old(out)@ + rects && #[trigger] placed(**a, ra, *cut, rects);
                let ghost mid = out@;
                b.leaf_rects(rb, cut, out);
                let ghost second = choose|rects: Seq<(PaneId, R)>|
                    out@ == mid + rects && #[trigger] placed(**b, rb, *cut, rects);
                proof {
                    let both = first + second;
                    lemma_placed(**a, ra, *cut, first);
                    assert(both.take(first.len() as int) =~= first);
                    assert(both.skip(first.len() as int) =~= second);
                    assert(halves(area, *split, *ratio, *cut, ra, rb));
                    assert(placed(*self, area, *cut, both));
                    assert(out@ =~= old(out)@ + both);
                }
            },
        }
    }

    /// The divider of every split, with the strip between the two parts that `cut` makes, as
    /// `strip` says.
    pub fn dividers<R: Copy, F: Fn(R, Split, Ratio) -> (R, R), G: Fn(R, Split, R, R) -> R>(
        &self,
        area: R,
        cut: &F,
        strip: &G,
        out: &mut Vec<Divider<R>>,
    )
        requires
            forall|r: R, s: Split, k: Ratio| #[trigger] cut.requires((r, s, k)),
            forall|r: R, s: Split, a: R, b: R| #[trigger] strip.requires((r, s, a, b)),
        ensures
            exists|ds: Seq<Divider<R>>|
                final(out)@ == old(out)@ + ds && #[trigger] divided(*self, area, *cut, *strip, ds),
        decreases self,
    {
        match self {
            Node::Leaf(_) => {
                assert(divided(*self, area, *cut, *strip, Seq::<Divider<R>>::empty()));
                assert(out@ =~= old(out)@ + Seq::<Divider<R>>::empty());
            },
            Node::Branch { id, split, ratio, a, b } => {
                let (ra, rb) = cut(area, *split, *ratio);
                let rect = strip(area, *split, ra, rb);
                let own = Divider { id: *id, rect, area, split: *split };
                out.push(own);
                let ghost one = out@;
                a.dividers(ra, cut, strip, out);
                let ghost first = choose|ds: Seq<Divider<R>>|
                    out@ == one + ds && #[trigger] divided(**a, ra, *cut, *strip, ds);
                let ghost mid = out@;
                b.dividers(rb, cut, strip, out);
                let ghost second = choose|ds: Seq<Divider<R>>|
                    out@ == mid + ds && #[trigger] divided(**b, rb, *cut, *strip, ds);
                proof {
                    let all = seq![own] + first + second;
                    lemma_divided(**a, ra, *cut, *strip, first);
                    assert(all.subrange(1, (1 + first.len()) as int) =~= first);
                    assert(all.skip((1 + first.len()) as int) =~= second);
                    assert(halves(area, *split, *ratio, *cut, ra, rb));
                    assert(divided(*self, area, *cut, *strip, all));
                    assert(out@ =~= old(out)@ + all);
                }
            },
        }
    }
}

/// `cut` may cut `area` into `ra` and `rb`.
pub open spec fn halves<R, F: Fn(R, Split, Ratio) -> (R, R)>(
    area: R,
    split: Split,
    ratio: Ratio,
    cut: F,
    ra: R,
    rb: R,
) -> bool {
    cut.ensures((area, split, ratio), (ra, rb))
}

/// `rects` gives every pane of the tree its part of `area`, in reading order.
pub open spec fn placed<R, F: Fn(R, Split, Ratio) -> (R, R)>(
    n: Node,
    area: R,
    cut: F,
    rects: Seq<(PaneId, R)>,
) -> bool
    decreases n,
{
    match n {
        Node::Leaf(id) => rects == seq![(id, area)],
        Node::Branch { split, ratio, a, b, .. } => {
            let k = leaves(*a).len() as int;
            k <= rects.len() && exists|ra: R, rb: R| #[trigger]
                halves(area, split, ratio, cut, ra, rb) && placed(*a, ra, cut, rects.take(k))
                    && placed(*b, rb, cut, rects.skip(k))
        },
    }
}

/// `ds` holds the divider of every split of the tree, each before those of its children.
pub open spec fn divided<R, F: Fn(R, Split, Ratio) -> (R, R), G: Fn(R, Split, R, R) -> R>(
    n: Node,
    area: R,
    cut: F,
    strip: G,
    ds: Seq<Divider<R>>,
) -> bool
    decreases n,
{
    match n {
        Node::Leaf(_) => ds.len() == 0,
        Node::Branch { id, split, ratio, a, b } => {
            let k = branches(*a).len() as int;
            ds.len() > k && ds[0].id == id && ds[0].split == split && ds[0].area == area && exists|
                ra: R,
                rb: R,
            | #[trigger]
                halves(area, split, ratio, cut, ra, rb) && strip.ensures(
                    (area, split, ra, rb),
                    ds[0].rect,
                ) && divided(*a, ra, cut, strip, ds.subrange(1, 1 + k)) && divided(
                    *b,
                    rb,
                    cut,
                    strip,
                    ds.skip(1 + k),
                )
        },
    }
}

/// Every pane gets a place, and exactly one for each time it occurs, in reading order.
pub proof fn lemma_placed<R, F: Fn(R, Split, Ratio) -> (R, R)>(
    n: Node,
    area: R,
    cut: F,
    rects: Seq<(PaneId, R)>,
)
    requires
        placed(n, area, cut, rects),
    ensures
        rects.map_values(|p: (PaneId, R)| p.0) == leaves(n),
        rects.len() == leaves(n).len(),
    decreases n,
{
    let ids = rects.map_values(|p: (PaneId, R)| p.0);
    match n {
        Node::Leaf(id) => {
            assert(ids =~= seq![id]);
        },
        Node::Branch { split, ratio, a, b, .. } => {
            let k = leaves(*a).len() as int;
            let (ra, rb) = choose|ra: R, rb: R| #[trigger]
                halves(area, split, ratio, cut, ra, rb) && placed(*a, ra, cut, rects.take(k))
                    && placed(*b, rb, cut, rects.skip(k));
            lemma_placed(*a, ra, cut, rects.take(k));
            lemma_placed(*b, rb, cut, rects.skip(k));
            assert(ids =~= rects.take(k).map_values(|p: (PaneId, R)| p.0) + rects.skip(
                k,
            ).map_values(|p: (PaneId, R)| p.0));
        },
    }
}

/// Every split has one divider.
pub proof fn lemma_divided<R, F: Fn(R, Split, Ratio) -> (R, R), G: Fn(R, Split, R, R) -> R>(
    n: Node,
    area: R,
    cut: F,
    strip: G,
    ds: Seq<Divider<R>>,
)
    requires
        divided(n, area, cut, strip, ds),
    ensures
        ds.map_values(|d: Divider<R>| d.id) == branches(n),
        ds.len() == branches(n).len(),
    decreases n,
{
    let ids = ds.map_values(|d: Divider<R>| d.id);
    match n {
        Node::Leaf(_) => {
            assert(ids =~= seq![]);
        },
        Node::Branch { id, split, ratio, a, b } => {
            let k = branches(*a).len() as int;
            let (ra, rb) = choose|ra: R, rb: R| #[trigger]
                halves(area, split, ratio, cut, ra, rb) && strip.ensures(
                    (area, split, ra, rb),
                    ds[0].rect,
                ) && divided(*a, ra, cut, strip, ds.subrange(1, 1 + k)) && divided(
                    *b,
                    rb,
                    cut,
                    strip,
                    ds.skip(1 + k),
                );
            lemma_divided(*a, ra, cut, strip, ds.subrange(1, 1 + k));
            lemma_divided(*b, rb, cut, strip, ds.skip(1 + k));
            assert(ids =~= seq![id] + ds.subrange(1, 1 + k).map_values(|d: Divider<R>| d.id)
                + ds.skip(1 + k).map_values(|d: Divider<R>| d.id));
        },
    }
}

proof fn lemma_ratio_absent(n: Node, id: u64, r: Ratio)
    ensures
        !branches(n).contains(id) ==> with_ratio(n, id, r) == n,
    decreases n,
{
    match n {
        Node::Leaf(_) => {},
        Node::Branch { id: own, a, b, .. } => {
            assert(branches(n)[0] == own);
            lemma_in_either(seq![own] + branches(*a), branches(*b), id);
            lemma_in_either(seq![own], branches(*a), id);
            lemma_ratio_absent(*b, id, r);
        },
    }
}

proof fn lemma_split_absent(n: Node, target: PaneId, split: Split, new_id: PaneId, branch_id: u64)
    ensures
        !leaves(n).contains(target) ==> with_split(n, target, split, new_id, branch_id) == n,
    decreases n,
{
    match n {
        Node::Leaf(id) => {
            assert(leaves(n)[0] == id);
        },
        Node::Branch { a, b, .. } => {
            lemma_in_either(leaves(*a), leaves(*b), target);
            lemma_split_absent(*b, target, split, new_id, branch_id);
        },
    }
}

/// One tab: a tree of panes, and the pane that has the keyboard.
#[derive(Debug, PartialEq, Eq)]
pub struct Tab {
    pub title: String,
    pub layout: Node,
    pub focus: PaneId,
}

/// The tabs of a window.
#[derive(Debug, PartialEq, Eq)]
pub struct Workspace {
    pub tabs: Vec<Tab>,
    pub active: usize,
    pub next_id: PaneId,
}

#[verifier::ext_equal]
pub struct TabView {
    pub title: Seq<char>,
    pub layout: Node,
    pub focus: PaneId,
}

#[verifier::ext_equal]
pub struct WorkspaceView {
    pub tabs: Seq<TabView>,
    pub active: usize,
    pub next_id: PaneId,
}

impl View for Tab {
    type V = TabView;

    open spec fn view(&self) -> TabView {
        TabView { title: self.title@, layout: self.layout, focus: self.focus }
    }
}

impl View for Workspace {
    type V = WorkspaceView;

    open spec fn view(&self) -> WorkspaceView {
        WorkspaceView {
            tabs: self.tabs@.map_values(|t: Tab| t@),
            active: self.active,
            next_id: self.next_id,
        }
    }
}

/// Every id in the tree was handed out before `next`.
pub open spec fn ids_below(n: Node, next: u64) -> bool {
    &&& forall|i: int| 0 <= i < leaves(n).len() ==> #[trigger] leaves(n)[i] < next
    &&& forall|i: int| 0 <= i < branches(n).len() ==> #[trigger] branches(n)[i] < next
}

/// A tab of its own for one pane.
pub open spec fn single(title: Seq<char>, pane: PaneId) -> TabView {
    TabView { title, layout: Node::Leaf(pane), focus: pane }
}

/// The panes of several tabs, in order.
pub open spec fn tabs_leaves(tabs: Seq<TabView>) -> Seq<PaneId>
    decreases tabs.len(),
{
    if tabs.len() == 0 {
        seq![]
    } else {
        tabs_leaves(tabs.drop_last()) + leaves(tabs.last().layout)
    }
}

/// The first tab that holds a pane.
pub open spec fn tab_index(tabs: Seq<TabView>, pane: PaneId) -> Option<int>
    decreases tabs.len(),
{
    if tabs.len() == 0 {
        None
    } else {
        match tab_index(tabs.drop_last(), pane) {
            Some(i) => Some(i),
            None => if leaves(tabs.last().layout).contains(pane) {
                Some(tabs.len() - 1)
            } else {
                None
            },
        }
    }
}

/// `tab_index` is the first tab that holds the pane, and there is none if no tab holds it.
pub proof fn lemma_tab_index(tabs: Seq<TabView>, pane: PaneId)
    ensures
        match tab_index(tabs, pane) {
            Some(i) => 0 <= i < tabs.len() && leaves(tabs[i].layout).contains(pane) && forall|k: int|
                0 <= k < i ==> !leaves((#[trigger] tabs[k]).layout).contains(pane),
            None => forall|k: int|
                0 <= k < tabs.len() ==> !leaves((#[trigger] tabs[k]).layout).contains(pane),
        },
    decreases tabs.len(),
{
    if tabs.len() > 0 {
        let front = tabs.drop_last();
        lemma_tab_index(front, pane);
        assert(tabs.last() == tabs[tabs.len() - 1]);
        assert forall|k: int| 0 <= k < front.len() implies front[k] == #[trigger] tabs[k] by {}
    }
}

impl WorkspaceView {
    /// The workspace's invariant: the active tab exists if any does, and no id is handed out twice.
    pub open spec fn wf(self) -> bool {
        &&& self.active < self.tabs.len() || (self.tabs.len() == 0 && self.active == 0)
        &&& forall|i: int|
            0 <= i < self.tabs.len() ==> ids_below((#[trigger] self.tabs[i]).layout, self.next_id)
    }

    pub open spec fn tab(self) -> TabView {
        self.tabs[self.active as int]
    }

    /// The workspace with another tab in place of the active one.
    pub open spec fn with_tab(self, tab: TabView) -> WorkspaceView {
        WorkspaceView { tabs: self.tabs.update(self.active as int, tab), ..self }
    }

    /// The workspace without one of its tabs; the active one moves up if it was beyond the end.
    pub open spec fn less_tab(self, i: int) -> WorkspaceView {
        let tabs = self.tabs.remove(i);
        WorkspaceView {
            tabs,
            active: if self.active < tabs.len() {
                self.active
            } else if tabs.len() == 0 {
                0
            } else {
                (tabs.len() - 1) as usize
            },
            ..self
        }
    }

    /// The workspace with one more tab, which is active.
    pub open spec fn more_tab(self, tab: TabView) -> WorkspaceView {
        WorkspaceView { tabs: self.tabs.push(tab), active: self.tabs.len() as usize, ..self }
    }

    pub open spec fn closed_tab(self, i: int) -> WorkspaceView {
        if self.tabs.len() <= 1 {
            self
        } else {
            self.less_tab(i)
        }
    }

    /// The workspace without a pane in the first tab that holds it.
    pub open spec fn removed_pane(self, pane: PaneId) -> WorkspaceView {
        match tab_index(self.tabs, pane) {
            Some(i) => {
                let tab = self.tabs[i];
                match without(tab.layout, pane) {
                    Some(rest) => WorkspaceView {
                        tabs: self.tabs.update(
                            i,
                            TabView {
                                title: tab.title,
                                layout: rest,
                                focus: if tab.focus == pane {
                                    leaves(rest)[0]
                                } else {
                                    tab.focus
                                },
                            },
                        ),
                        ..self
                    },
                    None => self.less_tab(i),
                }
            },
            None => self,
        }
    }

    /// The workspace with the tab that holds a pane selected and the pane focused there.
    pub open spec fn showing(self, pane: PaneId) -> WorkspaceView {
        match tab_index(self.tabs, pane) {
            Some(i) => WorkspaceView {
                tabs: self.tabs.update(i, TabView { focus: pane, ..self.tabs[i] }),
                active: i as usize,
                ..self
            },
            None => self,
        }
    }

    /// The workspace with a fresh tab of one pane.
    pub open spec fn new_tab(self) -> WorkspaceView {
        (WorkspaceView { next_id: (self.next_id + 1) as u64, ..self }).more_tab(
            single(text::ascii(text::decimal(self.tabs.len() + 1)), self.next_id),
        )
    }

    pub open spec fn closed_focused(self) -> WorkspaceView {
        let tab = self.tab();
        match without(tab.layout, tab.focus) {
            Some(rest) => self.with_tab(
                TabView { title: tab.title, layout: rest, focus: leaves(rest)[0] },
            ),
            None => self.with_tab(single(tab.title, tab.focus)).closed_tab(self.active as int),
        }
    }

    pub open spec fn splitted(self, split: Split) -> WorkspaceView {
        let tab = self.tab();
        let pane = self.next_id;
        let branch = (self.next_id + 1) as u64;
        let next = WorkspaceView { next_id: (self.next_id + 2) as u64, ..self };
        if leaves(tab.layout).contains(tab.focus) {
            next.with_tab(
                TabView {
                    title: tab.title,
                    layout: with_split(tab.layout, tab.focus, split, pane, branch),
                    focus: pane,
                },
            )
        } else {
            next
        }
    }
}

proof fn lemma_without_ids(n: Node, target: PaneId, next: u64)
    requires
        ids_below(n, next),
    ensures
        without(n, target) matches Some(m) ==> ids_below(m, next),
    decreases n,
{
    match n {
        Node::Leaf(_) => {},
        Node::Branch { id, split, ratio, a, b } => {
            assert(branches(n)[0] == id);
            lemma_children_ids(n, next);
            lemma_without_ids(*a, target, next);
            lemma_without_ids(*b, target, next);
            if let Some(m) = without(n, target) {
                lemma_branch_ids(m, next);
            }
        },
    }
}

proof fn lemma_children_ids(n: Node, next: u64)
    requires
        ids_below(n, next),
    ensures
        n matches Node::Branch { a, b, .. } ==> ids_below(*a, next) && ids_below(*b, next),
{
    if let Node::Branch { id, a, b, .. } = n {
        assert forall|i: int| 0 <= i < leaves(*a).len() implies #[trigger] leaves(*a)[i] < next by {
            assert(leaves(n)[i] == leaves(*a)[i]);
        }
        assert forall|i: int| 0 <= i < leaves(*b).len() implies #[trigger] leaves(*b)[i] < next by {
            assert(leaves(n)[leaves(*a).len() + i] == leaves(*b)[i]);
        }
        assert forall|i: int| 0 <= i < branches(*a).len() implies #[trigger] branches(*a)[i]
            < next by {
            assert(branches(n)[1 + i] == branches(*a)[i]);
        }
        assert forall|i: int| 0 <= i < branches(*b).len() implies #[trigger] branches(*b)[i]
            < next by {
            assert(branches(n)[1 + branches(*a).len() + i] == branches(*b)[i]);
        }
    }
}

/// A branch whose id and children are below is below.
pub proof fn lemma_branch_ids(n: Node, next: u64)
    ensures
        n matches Node::Branch { id, a, b, .. } ==> (id < next && ids_below(*a, next) && ids_below(
            *b,
            next,
        ) ==> ids_below(n, next)),
{
    if let Node::Branch { id, a, b, .. } = n {
        if id < next && ids_below(*a, next) && ids_below(*b, next) {
            let (la, ba) = (leaves(*a), branches(*a));
            assert forall|i: int| 0 <= i < leaves(n).len() implies #[trigger] leaves(n)[i]
                < next by {
                if i < la.len() {
                    assert(leaves(n)[i] == leaves(*a)[i]);
                } else {
                    assert(leaves(n)[i] == leaves(*b)[i - la.len()]);
                }
            }
            assert forall|i: int| 0 <= i < branches(n).len() implies #[trigger] branches(n)[i]
                < next by {
                if i == 0 {
                    assert(branches(n)[0] == id);
                } else if i < 1 + ba.len() {
                    assert(branches(n)[i] == branches(*a)[i - 1]);
                } else {
                    assert(branches(n)[i] == branches(*b)[i - 1 - ba.len()]);
                }
            }
        }
    }
}

proof fn lemma_split_ids(
    n: Node,
    target: PaneId,
    split: Split,
    new_id: PaneId,
    branch_id: u64,
    next: u64,
)
    requires
        ids_below(n, next),
        new_id < next,
        branch_id < next,
    ensures
        ids_below(with_split(n, target, split, new_id, branch_id), next),
    decreases n,
{
    let m = with_split(n, target, split, new_id, branch_id);
    match n {
        Node::Leaf(id) => {
            assert(leaves(n)[0] == id);
            if id == target {
                lemma_branch_ids(m, next);
            }
        },
        Node::Branch { id, a, b, .. } => {
            assert(branches(n)[0] == id);
            lemma_children_ids(n, next);
            lemma_split_ids(*a, target, split, new_id, branch_id, next);
            lemma_split_ids(*b, target, split, new_id, branch_id, next);
            lemma_branch_ids(m, next);
        },
    }
}

proof fn lemma_ratio_shape(n: Node, id: u64, r: Ratio)
    ensures
        leaves(with_ratio(n, id, r)) == leaves(n),
        branches(with_ratio(n, id, r)) == branches(n),
    decreases n,
{
    match n {
        Node::Leaf(_) => {},
        Node::Branch { a, b, .. } => {
            lemma_ratio_shape(*a, id, r);
            lemma_ratio_shape(*b, id, r);
        },
    }
}

/// Ids below a bound are below every larger one.
pub proof fn lemma_ids_grow(n: Node, low: u64, high: u64)
    requires
        ids_below(n, low),
        low <= high,
    ensures
        ids_below(n, high),
{
}

impl Workspace {
    /// One tab with one pane.
    pub fn new() -> (w: Workspace)
        ensures
            w@ == (WorkspaceView { tabs: seq![single("1"@, 0)], active: 0, next_id: 1 }),
            w@.wf(),
    {
        let mut tabs: Vec<Tab> = Vec::new();
        tabs.push(Tab { title: "1".to_owned(), layout: Node::Leaf(0), focus: 0 });
        let w = Workspace { tabs, active: 0, next_id: 1 };
        assert(w@.tabs =~= seq![single("1"@, 0)]);
        w
    }

    /// Hand out a fresh id.
    pub fn alloc_pane(&mut self) -> (id: PaneId)
        requires
            old(self)@.wf(),
            old(self)@.next_id < u64::MAX,
        ensures
            id == old(self)@.next_id,
            final(self)@ == (WorkspaceView { next_id: (id + 1) as u64, ..old(self)@ }),
            final(self)@.wf(),
    {
        let id: PaneId = self.next_id;
        self.next_id = id + 1;
        proof {
            assert(self@.tabs =~= old(self)@.tabs);
            assert forall|i: int| 0 <= i < self@.tabs.len() implies ids_below(
                (#[trigger] self@.tabs[i]).layout,
                self@.next_id,
            ) by {
                lemma_ids_grow(old(self)@.tabs[i].layout, id, self@.next_id);
            }
        }
        id
    }

    pub fn active_tab(&self) -> (t: &Tab)
        requires
            self@.active < self@.tabs.len(),
        ensures
            t@ == self@.tab(),
    {
        &self.tabs[self.active]
    }

    /// Where each pane of the active tab goes.
    pub fn leaf_rects<R: Copy, F: Fn(R, Split, Ratio) -> (R, R)>(&self, area: R, cut: &F) -> (
        rects: Vec<(PaneId, R)>)
        requires
            self@.active < self@.tabs.len(),
            forall|r: R, s: Split, k: Ratio| #[trigger] cut.requires((r, s, k)),
        ensures
            placed(self@.tab().layout, area, *cut, rects@),
    {
        let mut out: Vec<(PaneId, R)> = Vec::new();
        let n = &self.tabs[self.active].layout;
        n.leaf_rects(area, cut, &mut out);
        proof {
            let rects = choose|rects: Seq<(PaneId, R)>|
                out@ == Seq::<(PaneId, R)>::empty() + rects && #[trigger] placed(
                    *n,
                    area,
                    *cut,
                    rects,
                );
            assert(out@ =~= rects);
        }
        out
    }

    /// The active tab's draggable split dividers.
    pub fn dividers<R: Copy, F: Fn(R, Split, Ratio) -> (R, R), G: Fn(R, Split, R, R) -> R>(
        &self,
        area: R,
        cut: &F,
        strip: &G,
    ) -> (ds: Vec<Divider<R>>)
        requires
            self@.active < self@.tabs.len(),
            forall|r: R, s: Split, k: Ratio| #[trigger] cut.requires((r, s, k)),
            forall|r: R, s: Split, a: R, b: R| #[trigger] strip.requires((r, s, a, b)),
        ensures
            divided(self@.tab().layout, area, *cut, *strip, ds@),
    {
        let mut out: Vec<Divider<R>> = Vec::new();
        let n = &self.tabs[self.active].layout;
        n.dividers(area, cut, strip, &mut out);
        proof {
            let ds = choose|ds: Seq<Divider<R>>|
                out@ == Seq::<Divider<R>>::empty() + ds && #[trigger] divided(
                    *n,
                    area,
                    *cut,
                    *strip,
                    ds,
                );
            assert(out@ =~= ds);
        }
        out
    }

    /// Every pane id across all tabs.
    pub fn all_leaves(&self) -> (ids: Vec<PaneId>)
        ensures
            ids@ == tabs_leaves(self@.tabs),
    {
        let mut out: Vec<PaneId> = Vec::new();
        let mut i: usize = 0;
        assert(self@.tabs.take(0) =~= seq![]);
        while i < self.tabs.len()
            invariant
                i <= self.tabs.len(),
                out@ == tabs_leaves(self@.tabs.take(i as int)),
            decreases self.tabs.len() - i,
        {
            self.tabs[i].layout.collect_leaves(&mut out);
            i = i + 1;
            proof {
                let ts = self@.tabs.take(i as int);
                assert(ts.drop_last() =~= self@.tabs.take(i - 1));
                assert(ts.last() == self.tabs@[i - 1]@);
            }
        }
        assert(self@.tabs.take(i as int) =~= self@.tabs);
        out
    }

    /// The first tab that holds a pane.
    pub fn tab_of(&self, pane: PaneId) -> (r: Option<usize>)
        ensures
            match r {
                Some(i) => tab_index(self@.tabs, pane) == Some(i as int) && i < self@.tabs.len(),
                None => tab_index(self@.tabs, pane) is None,
            },
    {
        proof {
            lemma_tab_index(self@.tabs, pane);
        }
        let mut i: usize = 0;
        while i < self.tabs.len()
            invariant
                i <= self.tabs.len(),
                forall|k: int|
                    0 <= k < i ==> !leaves((#[trigger] self@.tabs[k]).layout).contains(pane),
            decreases self.tabs.len() - i,
        {
            assert(self@.tabs[i as int] == self.tabs@[i as int]@);
            if self.tabs[i].layout.contains(pane) {
                proof {
                    lemma_tab_index(self@.tabs, pane);
                }
                return Some(i);
            }
            i = i + 1;
        }
        None
    }

    /// Resize a split by setting its share (drag-to-resize).
    pub fn set_ratio(&mut self, id: u64, ratio: Ratio)
        requires
            old(self)@.wf(),
            old(self)@.active < old(self)@.tabs.len(),
        ensures
            final(self)@ == old(self)@.with_tab(
                TabView {
                    layout: with_ratio(old(self)@.tab().layout, id, ratio),
                    ..old(self)@.tab()
                },
            ),
            final(self)@.wf(),
    {
        let i: usize = self.active;
        let mut tab = self.tabs.remove(i);
        tab.layout.set_ratio(id, ratio);
        self.tabs.insert(i, tab);
        proof {
            let was = old(self)@;
            lemma_ratio_shape(was.tab().layout, id, ratio);
            assert(self@.tabs =~= was.with_tab(
                TabView { layout: with_ratio(was.tab().layout, id, ratio), ..was.tab() },
            ).tabs);
        }
    }

    /// Give the keyboard to a pane of the active tab.
    pub fn focus(&mut self, pane: PaneId)
        requires
            old(self)@.wf(),
            old(self)@.active < old(self)@.tabs.len(),
        ensures
            final(self)@ == old(self)@.with_tab(TabView { focus: pane, ..old(self)@.tab() }),
            final(self)@.wf(),
    {
        let i: usize = self.active;
        self.focus_in(i, pane);
    }

    fn focus_in(&mut self, i: usize, pane: PaneId)
        requires
            old(self)@.wf(),
            i < old(self)@.tabs.len(),
        ensures
            final(self)@ == (WorkspaceView {
                tabs: old(self)@.tabs.update(
                    i as int,
                    TabView { focus: pane, ..old(self)@.tabs[i as int] },
                ),
                ..old(self)@
            }),
            final(self)@.wf(),
    {
        let mut tab = self.tabs.remove(i);
        tab.focus = pane;
        self.tabs.insert(i, tab);
        assert(self@.tabs =~= old(self)@.tabs.update(
            i as int,
            TabView { focus: pane, ..old(self)@.tabs[i as int] },
        ));
    }

    /// Select the tab that holds a pane and give the pane the keyboard. Nothing happens if no tab
    /// holds it.
    pub fn show(&mut self, pane: PaneId) -> (found: bool)
        requires
            old(self)@.wf(),
        ensures
            found == (tab_index(old(self)@.tabs, pane) is Some),
            final(self)@ == old(self)@.showing(pane),
            final(self)@.wf(),
    {
        match self.tab_of(pane) {
            Some(i) => {
                self.focus_in(i, pane);
                self.active = i;
                assert(self@.tabs =~= old(self)@.tabs.update(
                    i as int,
                    TabView { focus: pane, ..old(self)@.tabs[i as int] },
                ));
                true
            },
            None => false,
        }
    }

    /// Drop a pane wherever it lives (its shell exited), collapsing its parent into the sibling
    /// and removing the tab if it was the last pane. Emptying the workspace is allowed. Nothing
    /// happens if the pane is unknown.
    pub fn remove_pane(&mut self, id: PaneId)
        requires
            old(self)@.wf(),
        ensures
            final(self)@ == old(self)@.removed_pane(id),
            final(self)@.wf(),
    {
        let ghost was = self@;
        match self.tab_of(id) {
            Some(i) => {
                let tab = self.tabs.remove(i);
                assert(self@.tabs =~= was.tabs.remove(i as int));
                let Tab { title, layout, focus } = tab;
                let ghost whole = layout;
                proof {
                    assert(was.tabs[i as int].layout == whole);
                    lemma_without_ids(whole, id, was.next_id);
                }
                match layout.without(id) {
                    Some(rest) => {
                        let focus: PaneId = if focus == id {
                            rest.first_leaf()
                        } else {
                            focus
                        };
                        self.tabs.insert(i, Tab { title, layout: rest, focus });
                        assert(self@.tabs =~= was.removed_pane(id).tabs);
                    },
                    None => {
                        if self.active >= self.tabs.len() {
                            self.active = if self.tabs.len() == 0 {
                                0
                            } else {
                                self.tabs.len() - 1
                            };
                        }
                        assert(self@.tabs =~= was.less_tab(i as int).tabs);
                    },
                }
            },
            None => {},
        }
    }

    /// Split the focused pane. The new pane gets the keyboard, so that repeated splits chain.
    pub fn split(&mut self, split: Split)
        requires
            old(self)@.wf(),
            old(self)@.active < old(self)@.tabs.len(),
            old(self)@.next_id < u64::MAX - 1,
        ensures
            final(self)@ == old(self)@.splitted(split),
            final(self)@.wf(),
    {
        let ghost was = self@;
        let id: PaneId = self.alloc_pane();
        let branch: u64 = self.alloc_pane();
        let i: usize = self.active;
        let mut tab = self.tabs.remove(i);
        let target: PaneId = tab.focus;
        if tab.layout.split_leaf(target, split, id, branch) {
            tab.focus = id;
        } else {
            proof {
                lemma_split_absent(was.tab().layout, target, split, id, branch);
            }
        }
        self.tabs.insert(i, tab);
        proof {
            lemma_ids_grow(was.tab().layout, was.next_id, self.next_id);
            lemma_split_ids(was.tab().layout, target, split, id, branch, self.next_id);
            assert(self@.tabs =~= was.splitted(split).tabs);
            assert forall|k: int| 0 <= k < self@.tabs.len() implies ids_below(
                (#[trigger] self@.tabs[k]).layout,
                self@.next_id,
            ) by {
                if k != i {
                    lemma_ids_grow(was.tabs[k].layout, was.next_id, self.next_id);
                }
            }
        }
    }

    /// Close the focused pane, and with the last pane of a tab the tab; one tab always stays.
    pub fn close_focused(&mut self)
        requires
            old(self)@.wf(),
            old(self)@.active < old(self)@.tabs.len(),
        ensures
            final(self)@ == old(self)@.closed_focused(),
            final(self)@.wf(),
    {
        let ghost was = self@;
        let i: usize = self.active;
        let tab = self.tabs.remove(i);
        let Tab { title, layout, focus } = tab;
        proof {
            assert(was.tabs[i as int].layout == layout);
            lemma_without_ids(layout, focus, was.next_id);
            lemma_focus_below(layout, focus, was.next_id);
        }
        match layout.without(focus) {
            Some(rest) => {
                let first: PaneId = rest.first_leaf();
                self.tabs.insert(i, Tab { title, layout: rest, focus: first });
                assert(self@.tabs =~= was.closed_focused().tabs);
            },
            None => {
                self.tabs.insert(i, Tab { title, layout: Node::Leaf(focus), focus });
                assert(self@.tabs =~= was.with_tab(single(title@, focus)).tabs);
                self.close_tab(i);
            },
        }
    }

    /// A new tab with one pane, which is active.
    pub fn new_tab(&mut self)
        requires
            old(self)@.wf(),
            old(self)@.next_id < u64::MAX,
        ensures
            final(self)@ == old(self)@.new_tab(),
            final(self)@.wf(),
    {
        let id: PaneId = self.alloc_pane();
        let mut title = String::new();
        push_number(&mut title, self.tabs.len() as u128 + 1);
        assert(title@ =~= text::ascii(text::decimal(old(self)@.tabs.len() + 1)));
        self.push_tab(title, Node::Leaf(id), id);
    }

    /// One more tab, which is active.
    pub fn push_tab(&mut self, title: String, layout: Node, focus: PaneId)
        requires
            old(self)@.wf(),
            ids_below(layout, old(self)@.next_id),
        ensures
            final(self)@ == old(self)@.more_tab(TabView { title: title@, layout, focus }),
            final(self)@.wf(),
    {
        let ghost was = self@;
        let n: usize = self.tabs.len();
        self.tabs.push(Tab { title, layout, focus });
        self.active = n;
        assert(self@.tabs =~= was.tabs.push(TabView { title: title@, layout, focus }));
    }

    /// Close a tab; one tab always stays.
    pub fn close_tab(&mut self, idx: usize)
        requires
            old(self)@.wf(),
            old(self)@.tabs.len() > 1 ==> idx < old(self)@.tabs.len(),
        ensures
            final(self)@ == old(self)@.closed_tab(idx as int),
            final(self)@.wf(),
    {
        if self.tabs.len() <= 1 {
            return;
        }
        let ghost was = self@;
        self.tabs.remove(idx);
        if self.active >= self.tabs.len() {
            self.active = self.tabs.len() - 1;
        }
        assert(self@.tabs =~= was.tabs.remove(idx as int));
    }
}

proof fn lemma_focus_below(n: Node, focus: PaneId, next: u64)
    requires
        ids_below(n, next),
    ensures
        without(n, focus) is None ==> focus < next,
    decreases n,
{
    match n {
        Node::Leaf(id) => {
            assert(leaves(n)[0] == id);
        },
        Node::Branch { a, b, .. } => {
            lemma_children_ids(n, next);
            lemma_focus_below(*a, focus, next);
        },
    }
}

proof fn lemma_drop_append<A>(s: Seq<A>, t: Seq<A>, gone: spec_fn(A) -> bool)
    ensures
        seqs::drop_where(s + t, gone) == seqs::drop_where(s, gone) + seqs::drop_where(t, gone),
    decreases t.len(),
{
    if t.len() == 0 {
        assert(s + t =~= s);
        assert(seqs::drop_where(s, gone) + seq![] =~= seqs::drop_where(s, gone));
    } else {
        lemma_drop_append(s, t.drop_last(), gone);
        assert((s + t).drop_last() =~= s + t.drop_last());
        assert(seqs::drop_where(s + t, gone) =~= seqs::drop_where(s, gone) + seqs::drop_where(
            t,
            gone,
        ));
    }
}

/// Dropping a pane takes exactly that pane out of the reading order, and nothing is left exactly
/// when the tree held nothing else.
pub proof fn without_drops_the_pane(n: Node, target: PaneId)
    ensures
        match without(n, target) {
            Some(m) => leaves(m) == seqs::drop_where(leaves(n), |id: PaneId| id == target),
            None => seqs::drop_where(leaves(n), |id: PaneId| id == target).len() == 0,
        },
    decreases n,
{
    let gone = |id: PaneId| id == target;
    match n {
        Node::Leaf(id) => {
            reveal_with_fuel(seqs::drop_where, 2);
            assert(leaves(n).drop_last() =~= seq![]);
            assert(seqs::drop_where(leaves(n), gone) =~= if id == target {
                seq![]
            } else {
                seq![id]
            });
        },
        Node::Branch { a, b, .. } => {
            without_drops_the_pane(*a, target);
            without_drops_the_pane(*b, target);
            lemma_drop_append(leaves(*a), leaves(*b), gone);
            let both = seqs::drop_where(leaves(*a), gone) + seqs::drop_where(leaves(*b), gone);
            match without(n, target) {
                Some(m) => {
                    assert(leaves(m) =~= both);
                },
                None => {},
            }
        },
    }
}

/// Dropping a pane that is not in the tree changes nothing.
pub proof fn without_absent_pane(n: Node, target: PaneId)
    requires
        !leaves(n).contains(target),
    ensures
        without(n, target) == Some(n),
    decreases n,
{
    match n {
        Node::Leaf(id) => {
            assert(leaves(n)[0] == id);
        },
        Node::Branch { a, b, .. } => {
            lemma_in_either(leaves(*a), leaves(*b), target);
            without_absent_pane(*a, target);
            without_absent_pane(*b, target);
        },
    }
}

/// A split puts the new pane right behind the one that was split, and moves no other.
pub proof fn split_inserts_the_pane(
    n: Node,
    target: PaneId,
    split: Split,
    new_id: PaneId,
    branch_id: u64,
)
    requires
        leaves(n).contains(target),
    ensures
        exists|i: int|
            0 <= i < leaves(n).len() && leaves(n)[i] == target && !(#[trigger] leaves(n).take(
                i,
            )).contains(target) && leaves(with_split(n, target, split, new_id, branch_id)) == leaves(
                n,
            ).insert(i + 1, new_id),
    decreases n,
{
    let m = with_split(n, target, split, new_id, branch_id);
    match n {
        Node::Leaf(id) => {
            assert(leaves(n)[0] == id);
            reveal_with_fuel(leaves, 2);
            assert(leaves(m) =~= leaves(n).insert(1, new_id));
            assert(leaves(n).take(0) =~= seq![]);
            assert(!leaves(n).take(0).contains(target));
        },
        Node::Branch { a, b, .. } => {
            let (la, lb) = (leaves(*a), leaves(*b));
            lemma_in_either(la, lb, target);
            if la.contains(target) {
                split_inserts_the_pane(*a, target, split, new_id, branch_id);
                let i = choose|i: int|
                    0 <= i < la.len() && la[i] == target && !(#[trigger] la.take(i)).contains(
                        target,
                    ) && leaves(with_split(*a, target, split, new_id, branch_id)) == la.insert(
                        i + 1,
                        new_id,
                    );
                assert(leaves(n).take(i) =~= la.take(i));
                assert(leaves(m) =~= leaves(n).insert(i + 1, new_id));
                assert(leaves(n)[i] == target && !leaves(n).take(i).contains(target));
            } else {
                split_inserts_the_pane(*b, target, split, new_id, branch_id);
                let i = choose|i: int|
                    0 <= i < lb.len() && lb[i] == target && !(#[trigger] lb.take(i)).contains(
                        target,
                    ) && leaves(with_split(*b, target, split, new_id, branch_id)) == lb.insert(
                        i + 1,
                        new_id,
                    );
                let k = la.len() + i;
                assert(leaves(n).take(k) =~= la + lb.take(i));
                lemma_in_either(la, lb.take(i), target);
                assert(leaves(m) =~= leaves(n).insert(k + 1, new_id));
                assert(leaves(n)[k] == target && !leaves(n).take(k).contains(target));
            }
        },
    }
}

/// Closing the pane that a split made gives back the tree as it was.
pub proof fn closing_undoes_splitting(
    n: Node,
    target: PaneId,
    split: Split,
    new_id: PaneId,
    branch_id: u64,
)
    requires
        !leaves(n).contains(new_id),
    ensures
        without(with_split(n, target, split, new_id, branch_id), new_id) == Some(n),
    decreases n,
{
    match n {
        Node::Leaf(id) => {
            assert(leaves(n)[0] == id);
            reveal_with_fuel(without, 2);
        },
        Node::Branch { a, b, .. } => {
            lemma_in_either(leaves(*a), leaves(*b), new_id);
            closing_undoes_splitting(*a, target, split, new_id, branch_id);
            closing_undoes_splitting(*b, target, split, new_id, branch_id);
            without_absent_pane(*a, new_id);
            without_absent_pane(*b, new_id);
        },
    }
}

/// Dragging a divider moves no pane, and a divider that is not there changes nothing.
pub proof fn resizing_keeps_the_panes(n: Node, id: u64, r: Ratio)
    ensures
        leaves(with_ratio(n, id, r)) == leaves(n),
        branches(with_ratio(n, id, r)) == branches(n),
        !branches(n).contains(id) ==> with_ratio(n, id, r) == n,
{
    lemma_ratio_shape(n, id, r);
    lemma_ratio_absent(n, id, r);
}

/// A share that is a number ends up between the two bounds.
pub proof fn shares_stay_in_range(r: Ratio)
    requires
        !bits::is_nan(r),
    ensures
        MIN_RATIO <= clamped(r) <= MAX_RATIO,
        MIN_RATIO <= r <= MAX_RATIO ==> clamped(r) == r,
{
}

} // verus!
