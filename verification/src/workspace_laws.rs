//! What splitting, closing, resizing and selecting do to the panes and tabs.

use crate::text;
use crate::workspace::{
    branches, clamped, halves, leaves, placed, tab_index, tabs_leaves, with_ratio, with_split,
    without, Node, PaneId, Ratio, Split, TabView, Workspace, WorkspaceView,
};
use crate::workspace;
use vstd::prelude::*;

verus! {

/// The splits of a tree, each with its id, its orientation and its share, parents first.
pub open spec fn splits(n: Node) -> Seq<(u64, Split, Ratio)>
    decreases n,
{
    match n {
        Node::Leaf(_) => seq![],
        Node::Branch { id, split, ratio, a, b } => seq![(id, split, ratio)] + splits(*a) + splits(
            *b,
        ),
    }
}

/// Whether a tree occurs in another.
pub open spec fn part_of(m: Node, n: Node) -> bool
    decreases n,
{
    m == n || (n matches Node::Branch { a, b, .. } && (part_of(m, *a) || part_of(m, *b)))
}

/// What comes first in a tree is read first: the panes of the first child, then those of the
/// second.
pub proof fn the_first_child_is_read_first(n: Node)
    ensures
        n matches Node::Leaf(id) ==> leaves(n) == seq![id],
        n matches Node::Branch { a, b, .. } ==> leaves(n).len() == leaves(*a).len() + leaves(
            *b,
        ).len() && leaves(n).take(leaves(*a).len() as int) == leaves(*a) && leaves(n).skip(
            leaves(*a).len() as int,
        ) == leaves(*b),
{
    if let Node::Branch { a, b, .. } = n {
        assert(leaves(n).take(leaves(*a).len() as int) =~= leaves(*a));
        assert(leaves(n).skip(leaves(*a).len() as int) =~= leaves(*b));
    }
}

/// A tree has a split less than it has panes, and a split for each of its ids.
pub proof fn splits_are_counted(n: Node)
    ensures
        splits(n).len() + 1 == leaves(n).len(),
        splits(n).len() == branches(n).len(),
        forall|i: int| 0 <= i < splits(n).len() ==> #[trigger] splits(n)[i].0 == branches(n)[i],
    decreases n,
{
    if let Node::Branch { id, split, ratio, a, b } = n {
        splits_are_counted(*a);
        splits_are_counted(*b);
        let (sa, sb) = (splits(*a), splits(*b));
        assert forall|i: int| 0 <= i < splits(n).len() implies #[trigger] splits(n)[i].0 == branches(
            n,
        )[i] by {
            if 1 <= i < 1 + sa.len() {
                assert(splits(n)[i] == sa[i - 1]);
            } else if i > 0 {
                assert(splits(n)[i] == sb[i - 1 - sa.len()]);
            }
        }
    }
}

/// Splitting a pane puts a split with the orientation that was asked for in its place, cut in half,
/// with the pane first and the new one second. Every other split keeps its place, its orientation
/// and its share.
pub proof fn a_split_is_made_as_asked(
    n: Node,
    target: PaneId,
    split: Split,
    new_id: PaneId,
    branch_id: u64,
)
    requires
        leaves(n).contains(target),
    ensures
        part_of(
            Node::Branch {
                id: branch_id,
                split,
                ratio: 0x3f00_0000,
                a: Box::new(Node::Leaf(target)),
                b: Box::new(Node::Leaf(new_id)),
            },
            with_split(n, target, split, new_id, branch_id),
        ),
        exists|i: int|
            0 <= i <= splits(n).len() && splits(with_split(n, target, split, new_id, branch_id))
                == #[trigger] splits(n).insert(i, (branch_id, split, 0x3f00_0000)),
    decreases n,
{
    let m = with_split(n, target, split, new_id, branch_id);
    let made = Node::Branch {
        id: branch_id,
        split,
        ratio: 0x3f00_0000,
        a: Box::new(Node::Leaf(target)),
        b: Box::new(Node::Leaf(new_id)),
    };
    let own = (branch_id, split, 0x3f00_0000u32);
    match n {
        Node::Leaf(id) => {
            assert(leaves(n)[0] == id);
            reveal_with_fuel(splits, 2);
            assert(m == made);
            assert(splits(m) =~= splits(n).insert(0, own));
        },
        Node::Branch { id, split: s, ratio, a, b } => {
            let (sa, sb) = (splits(*a), splits(*b));
            let k = choose|k: int| 0 <= k < leaves(n).len() && leaves(n)[k] == target;
            if leaves(*a).contains(target) {
                a_split_is_made_as_asked(*a, target, split, new_id, branch_id);
                let c = with_split(*a, target, split, new_id, branch_id);
                let i = choose|i: int|
                    0 <= i <= sa.len() && splits(c) == #[trigger] sa.insert(i, own);
                assert(splits(m) =~= splits(n).insert(1 + i, own));
            } else {
                if k < leaves(*a).len() {
                    assert(leaves(*a)[k] == target);
                } else {
                    assert(leaves(*b)[k - leaves(*a).len()] == target);
                }
                a_split_is_made_as_asked(*b, target, split, new_id, branch_id);
                let c = with_split(*b, target, split, new_id, branch_id);
                let i = choose|i: int|
                    0 <= i <= sb.len() && splits(c) == #[trigger] sb.insert(i, own);
                assert(splits(m) =~= splits(n).insert(1 + sa.len() + i, own));
            }
        },
    }
}

/// `Split Down` and `Split Right` are different.
pub proof fn orientations_are_told_apart(n: Node, target: PaneId, new_id: PaneId, branch_id: u64)
    requires
        leaves(n).contains(target),
    ensures
        with_split(n, target, Split::Rows, new_id, branch_id) != with_split(
            n,
            target,
            Split::Cols,
            new_id,
            branch_id,
        ),
    decreases n,
{
    if let Node::Branch { a, b, .. } = n {
        let k = choose|k: int| 0 <= k < leaves(n).len() && leaves(n)[k] == target;
        if leaves(*a).contains(target) {
            orientations_are_told_apart(*a, target, new_id, branch_id);
        } else {
            if k < leaves(*a).len() {
                assert(leaves(*a)[k] == target);
            } else {
                assert(leaves(*b)[k - leaves(*a).len()] == target);
            }
            orientations_are_told_apart(*b, target, new_id, branch_id);
        }
    } else {
        assert(leaves(n)[0] == n->Leaf_0);
    }
}

/// Closing a pane lets the other half of its split take the place of the split. All other splits
/// stay as they are, in their order.
pub proof fn the_other_half_takes_over(n: Node, target: PaneId)
    ensures
        n matches Node::Branch { id, split, ratio, a, b } ==> {
            &&& *a == Node::Leaf(target) ==> without(n, target) == without(*b, target)
            &&& *b == Node::Leaf(target) ==> without(n, target) == without(*a, target)
            &&& without(*a, target) is Some && without(*b, target) is Some ==> without(n, target)
                == Some(
                Node::Branch {
                    id,
                    split,
                    ratio,
                    a: Box::new(without(*a, target)->0),
                    b: Box::new(without(*b, target)->0),
                },
            )
        },
        without(n, target) matches Some(m) ==> splits_kept(splits(m), splits(n)),
        without(n, target) matches Some(m) ==> !leaves(m).contains(target),
    decreases n,
{
    reveal_with_fuel(without, 2);
    match n {
        Node::Leaf(id) => {
            if id != target {
                assert(splits_kept(splits(n), splits(n)));
                assert(leaves(n) =~= seq![id]);
            }
        },
        Node::Branch { id, split, ratio, a, b } => {
            the_other_half_takes_over(*a, target);
            the_other_half_takes_over(*b, target);
            let (sa, sb) = (splits(*a), splits(*b));
            match (without(*a, target), without(*b, target)) {
                (Some(l), Some(r)) => {
                    let m = without(n, target)->0;
                    lemma_kept_both(splits(l), sa, splits(r), sb);
                    lemma_kept_front((id, split, ratio), splits(l) + splits(r), sa + sb, true);
                    assert(splits(m) =~= seq![(id, split, ratio)] + (splits(l) + splits(r)));
                    assert(splits(n) =~= seq![(id, split, ratio)] + (sa + sb));
                    assert forall|k: int| 0 <= k < leaves(m).len() implies leaves(m)[k] != target by {
                        if k < leaves(l).len() {
                            assert(leaves(m)[k] == leaves(l)[k]);
                        } else {
                            assert(leaves(m)[k] == leaves(r)[k - leaves(l).len()]);
                        }
                    }
                },
                (Some(l), None) => {
                    lemma_kept_both(splits(l), sa, seq![], sb);
                    lemma_kept_front((id, split, ratio), splits(l), sa + sb, false);
                    assert(splits(l) + Seq::<(u64, Split, Ratio)>::empty() =~= splits(l));
                    assert(splits(n) =~= seq![(id, split, ratio)] + (sa + sb));
                },
                (None, Some(r)) => {
                    lemma_kept_both(seq![], sa, splits(r), sb);
                    lemma_kept_front((id, split, ratio), splits(r), sa + sb, false);
                    assert(Seq::<(u64, Split, Ratio)>::empty() + splits(r) =~= splits(r));
                    assert(splits(n) =~= seq![(id, split, ratio)] + (sa + sb));
                },
                (None, None) => {},
            }
        },
    }
}

/// A list made of another by leaving some out.
pub open spec fn splits_kept(
    s: Seq<(u64, Split, Ratio)>,
    t: Seq<(u64, Split, Ratio)>,
) -> bool
    decreases t.len(),
{
    if t.len() == 0 {
        s.len() == 0
    } else {
        s.len() > 0 && s[0] == t[0] && splits_kept(s.skip(1), t.skip(1)) || splits_kept(
            s,
            t.skip(1),
        )
    }
}

proof fn lemma_kept_front(
    x: (u64, Split, Ratio),
    s: Seq<(u64, Split, Ratio)>,
    t: Seq<(u64, Split, Ratio)>,
    with: bool,
)
    requires
        splits_kept(s, t),
    ensures
        with ==> splits_kept(seq![x] + s, seq![x] + t),
        splits_kept(s, seq![x] + t),
{
    assert((seq![x] + t).skip(1) =~= t);
    assert((seq![x] + s).skip(1) =~= s);
}

proof fn lemma_none_kept(t: Seq<(u64, Split, Ratio)>)
    ensures
        splits_kept(seq![], t),
    decreases t.len(),
{
    if t.len() > 0 {
        lemma_none_kept(t.skip(1));
    }
}

proof fn lemma_kept_both(
    s: Seq<(u64, Split, Ratio)>,
    t: Seq<(u64, Split, Ratio)>,
    s2: Seq<(u64, Split, Ratio)>,
    t2: Seq<(u64, Split, Ratio)>,
)
    requires
        splits_kept(s, t) || s.len() == 0,
        splits_kept(s2, t2) || s2.len() == 0,
    ensures
        splits_kept(s + s2, t + t2),
    decreases t.len(),
{
    if s.len() == 0 {
        assert(s =~= seq![]);
        lemma_none_kept(t);
    }
    if s2.len() == 0 {
        assert(s2 =~= seq![]);
        lemma_none_kept(t2);
    }
    if t.len() == 0 {
        assert(s + s2 =~= s2);
        assert(t + t2 =~= t2);
    } else {
        assert((t + t2).skip(1) =~= t.skip(1) + t2);
        if s.len() > 0 && s[0] == t[0] && splits_kept(s.skip(1), t.skip(1)) {
            lemma_kept_both(s.skip(1), t.skip(1), s2, t2);
            assert((s + s2).skip(1) =~= s.skip(1) + s2);
        } else {
            lemma_kept_both(s, t.skip(1), s2, t2);
        }
    }
}

/// Dragging a divider gives its split the share that was asked for, as far as both panes stay
/// usable, and changes nothing else: no other split, no orientation, no pane.
pub proof fn a_divider_moves_its_split(n: Node, id: u64, r: Ratio, k: int)
    requires
        0 <= k < splits(n).len(),
        splits(n)[k].0 == id,
        forall|j: int| 0 <= j < splits(n).len() && j != k ==> (#[trigger] splits(n)[j]).0 != id,
    ensures
        splits(with_ratio(n, id, r)) == splits(n).update(k, (id, splits(n)[k].1, clamped(r))),
        leaves(with_ratio(n, id, r)) == leaves(n),
    decreases n,
{
    let m = with_ratio(n, id, r);
    workspace::resizing_keeps_the_panes(n, id, r);
    if let Node::Branch { id: own, split, ratio, a, b } = n {
        let (sa, sb) = (splits(*a), splits(*b));
        let s = splits(n);
        splits_are_counted(*a);
        splits_are_counted(*b);
        assert(s[0] == (own, split, ratio));
        assert forall|j: int| 0 <= j < sa.len() implies s[1 + j] == #[trigger] sa[j] by {}
        assert forall|j: int| 0 <= j < sb.len() implies s[1 + sa.len() + j]
            == #[trigger] sb[j] by {}
        if k == 0 {
            assert(splits(m) =~= s.update(0, (id, split, clamped(r))));
        } else if k < 1 + sa.len() {
            assert(sa[k - 1].0 == branches(*a)[k - 1]);
            assert(branches(*a).contains(id));
            assert forall|j: int| 0 <= j < sa.len() && j != k - 1 implies (#[trigger] sa[j]).0
                != id by {
                assert(s[1 + j] == sa[j]);
            }
            a_divider_moves_its_split(*a, id, r, k - 1);
            assert(splits(m) =~= s.update(k, (id, s[k].1, clamped(r))));
        } else {
            let q = k - 1 - sa.len();
            assert(!branches(*a).contains(id)) by {
                if branches(*a).contains(id) {
                    let j = choose|j: int| 0 <= j < branches(*a).len() && branches(*a)[j] == id;
                    assert(sa[j].0 == id);
                    assert(s[1 + j] == sa[j]);
                }
            }
            assert(s[k] == sb[q]);
            assert forall|j: int| 0 <= j < sb.len() && j != q implies (#[trigger] sb[j]).0
                != id by {
                assert(s[1 + sa.len() + j] == sb[j]);
            }
            a_divider_moves_its_split(*b, id, r, q);
            assert(splits(m) =~= s.update(k, (id, s[k].1, clamped(r))));
        }
    }
}

/// Shares lie between 0.05 and 0.95: one in between is taken as it is, a smaller or a negative one
/// becomes the least, and a larger one the largest.
pub proof fn shares_are_brought_into_range(r: Ratio)
    ensures
        0x3d4c_cccd <= r <= 0x3f73_3333 ==> clamped(r) == r,
        r < 0x3d4c_cccd || 0x8000_0000 <= r <= 0xff80_0000 ==> clamped(r) == 0x3d4c_cccd,
        0x3f73_3333 < r <= 0x7f80_0000 ==> clamped(r) == 0x3f73_3333,
{
}

/// A pane goes to the part of the area that the cut of its split gives it: the first part to the
/// first child and the second to the second.
pub proof fn parts_go_to_their_children<R, F: Fn(R, Split, Ratio) -> (R, R)>(
    n: Node,
    area: R,
    cut: F,
    rects: Seq<(PaneId, R)>,
)
    requires
        placed(n, area, cut, rects),
    ensures
        n matches Node::Leaf(id) ==> rects == seq![(id, area)],
        n matches Node::Branch { split, ratio, a, b, .. } ==> exists|ra: R, rb: R|
            #![trigger cut.ensures((area, split, ratio), (ra, rb))]
            cut.ensures((area, split, ratio), (ra, rb)) && placed(
                *a,
                ra,
                cut,
                rects.take(leaves(*a).len() as int),
            ) && placed(*b, rb, cut, rects.skip(leaves(*a).len() as int)),
{
    if let Node::Branch { split, ratio, a, b, .. } = n {
        let k = leaves(*a).len() as int;
        let (ra, rb) = choose|ra: R, rb: R| #[trigger]
            halves(area, split, ratio, cut, ra, rb) && placed(*a, ra, cut, rects.take(k)) && placed(
                *b,
                rb,
                cut,
                rects.skip(k),
            );
        assert(cut.ensures((area, split, ratio), (ra, rb)));
    }
}

/// Splitting the focused pane: the new pane is fresh, stands in the active tab beside the old one,
/// split as asked, and has the keyboard. The other tabs, the titles and the active tab stay.
pub proof fn splitting_adds_a_pane(w: WorkspaceView, split: Split)
    requires
        w.wf(),
        w.active < w.tabs.len(),
        w.next_id < u64::MAX - 1,
        leaves(w.tab().layout).contains(w.tab().focus),
    ensures
        ({
            let v = w.splitted(split);
            let pane = v.tab().focus;
            &&& v.active == w.active
            &&& v.tabs.len() == w.tabs.len()
            &&& forall|i: int| 0 <= i < w.tabs.len() && i != w.active ==> v.tabs[i] == w.tabs[i]
            &&& v.tab().title == w.tab().title
            &&& !leaves(w.tab().layout).contains(pane)
            &&& leaves(v.tab().layout).len() == leaves(w.tab().layout).len() + 1
            &&& exists|branch: u64|
                !branches(w.tab().layout).contains(branch) && branch != pane && #[trigger] part_of(
                    Node::Branch {
                        id: branch,
                        split,
                        ratio: 0x3f00_0000,
                        a: Box::new(Node::Leaf(w.tab().focus)),
                        b: Box::new(Node::Leaf(pane)),
                    },
                    v.tab().layout,
                )
            &&& w.next_id <= pane < v.next_id
            &&& without(v.tab().layout, pane) == Some(w.tab().layout)
        }),
{
    let v = w.splitted(split);
    let n = w.tab().layout;
    let (pane, branch) = (w.next_id, (w.next_id + 1) as u64);
    assert(w.tabs[w.active as int].layout == n);
    assert(!leaves(n).contains(pane));
    assert(!branches(n).contains(branch));
    a_split_is_made_as_asked(n, w.tab().focus, split, pane, branch);
    workspace::split_inserts_the_pane(n, w.tab().focus, split, pane, branch);
    workspace::closing_undoes_splitting(n, w.tab().focus, split, pane, branch);
}

/// A new tab comes behind the others with one fresh pane, which has the keyboard; it is selected,
/// and its title is its number.
pub proof fn a_new_tab_comes_last(w: WorkspaceView)
    requires
        w.wf(),
        w.next_id < u64::MAX,
        w.tabs.len() < usize::MAX,
    ensures
        ({
            let v = w.new_tab();
            let t = v.tabs.last();
            &&& v.tabs.drop_last() == w.tabs
            &&& v.active == w.tabs.len()
            &&& leaves(t.layout) == seq![t.focus]
            &&& w.next_id <= t.focus < v.next_id
            &&& text::digits_value(t.title) == w.tabs.len() + 1
            &&& text::all_digits(t.title)
        }),
{
    text::decimal_round_trips(w.tabs.len() + 1);
    assert(w.new_tab().tabs.drop_last() =~= w.tabs);
}

/// What is done to the active tab touches no other; one more tab comes behind the others and is
/// selected.
pub proof fn other_tabs_stay(w: WorkspaceView, t: TabView)
    requires
        w.wf(),
        w.active < w.tabs.len(),
        w.tabs.len() < usize::MAX,
    ensures
        w.with_tab(t).tab() == t,
        w.with_tab(t).active == w.active,
        w.with_tab(t).next_id == w.next_id,
        w.with_tab(t).tabs.len() == w.tabs.len(),
        forall|k: int| 0 <= k < w.tabs.len() && k != w.active ==> w.with_tab(t).tabs[k] == w.tabs[k],
        w.more_tab(t).tab() == t,
        w.more_tab(t).tabs.drop_last() == w.tabs,
        w.more_tab(t).next_id == w.next_id,
        w.tab() == w.tabs[w.active as int],
{
    assert(w.more_tab(t).tabs.drop_last() =~= w.tabs);
}

/// A window begins with one tab of one pane.
pub proof fn a_window_begins_with_one_pane(w: Workspace)
    requires
        call_ensures(Workspace::new, (), w),
    ensures
        w@.tabs.len() == 1,
        w@.active == 0,
        leaves(w@.tabs[0].layout) == seq![w@.tabs[0].focus],
        w@.tabs[0].focus < w@.next_id,
        w@.tabs[0].title == seq!['1'],
{
    reveal_strlit("1");
    assert("1"@ =~= seq!['1']);
}

/// Closing a tab takes that tab out and no other; the last one stays. The same place stays
/// selected, or the last tab where there is no such place any more.
pub proof fn closing_takes_one_tab(w: WorkspaceView, i: int)
    requires
        w.wf(),
        0 <= i < w.tabs.len(),
    ensures
        ({
            let v = w.closed_tab(i);
            &&& w.tabs.len() == 1 ==> v == w
            &&& w.tabs.len() > 1 ==> v.tabs == w.tabs.remove(i)
            &&& w.tabs.len() > 1 && w.active < w.tabs.len() - 1 ==> v.active == w.active
            &&& w.tabs.len() > 1 && w.active == w.tabs.len() - 1 ==> v.active == w.active - 1
            &&& v.next_id == w.next_id
        }),
{
}

/// A pane that is gone is in no place of its tab any more; the rest of the tab stays, and of the
/// other tabs all. A tab that held nothing else goes with it. The keyboard is where it was, or with
/// the first pane that is left.
pub proof fn removing_takes_one_pane(w: WorkspaceView, pane: PaneId)
    requires
        w.wf(),
    ensures
        ({
            let v = w.removed_pane(pane);
            match tab_index(w.tabs, pane) {
                None => v == w,
                Some(i) => match without(w.tabs[i].layout, pane) {
                    Some(rest) => {
                        &&& v.tabs.len() == w.tabs.len()
                        &&& v.active == w.active
                        &&& forall|k: int|
                            0 <= k < w.tabs.len() && k != i ==> v.tabs[k] == w.tabs[k]
                        &&& v.tabs[i].layout == rest
                        &&& v.tabs[i].title == w.tabs[i].title
                        &&& w.tabs[i].focus != pane ==> v.tabs[i].focus == w.tabs[i].focus
                        &&& w.tabs[i].focus == pane ==> v.tabs[i].focus == leaves(rest)[0]
                    },
                    None => {
                        &&& v.tabs == w.tabs.remove(i)
                        &&& v.tabs.len() > 0 ==> v.active < v.tabs.len()
                        &&& w.active < w.tabs.len() - 1 ==> v.active == w.active
                        &&& v.tabs.len() > 0 && w.active >= w.tabs.len() - 1 ==> v.active
                            == v.tabs.len() - 1
                        &&& v.tabs.len() == 0 ==> v.active == 0
                    },
                },
            }
        }),
        tab_index(w.tabs, pane) is Some <==> exists|k: int|
            0 <= k < w.tabs.len() && leaves((#[trigger] w.tabs[k]).layout).contains(pane),
{
    workspace::lemma_tab_index(w.tabs, pane);
}

/// Showing a pane selects the tab that holds it and gives it the keyboard there; nothing moves, and
/// the other tabs keep theirs.
pub proof fn showing_selects_the_tab(w: WorkspaceView, pane: PaneId, k: int)
    requires
        w.wf(),
        w.tabs.len() <= usize::MAX,
        0 <= k < w.tabs.len(),
        leaves(w.tabs[k].layout).contains(pane),
        forall|j: int| 0 <= j < k ==> !leaves((#[trigger] w.tabs[j]).layout).contains(pane),
    ensures
        ({
            let v = w.showing(pane);
            &&& v.active == k
            &&& v.tabs.len() == w.tabs.len()
            &&& v.tab().focus == pane
            &&& v.tab().layout == w.tabs[k].layout
            &&& v.tab().title == w.tabs[k].title
            &&& forall|j: int| 0 <= j < w.tabs.len() && j != k ==> v.tabs[j] == w.tabs[j]
            &&& v.next_id == w.next_id
        }),
{
    workspace::lemma_tab_index(w.tabs, pane);
}

/// Closing the focused pane takes it out of its tab and gives the keyboard to the first one left;
/// a tab of one pane is closed unless it is the only one.
pub proof fn closing_takes_the_focused_pane(w: WorkspaceView)
    requires
        w.wf(),
        w.active < w.tabs.len(),
    ensures
        ({
            let v = w.closed_focused();
            match without(w.tab().layout, w.tab().focus) {
                Some(rest) => {
                    &&& v.tabs.len() == w.tabs.len()
                    &&& v.active == w.active
                    &&& v.tab().layout == rest
                    &&& v.tab().focus == leaves(rest)[0]
                    &&& v.tab().title == w.tab().title
                    &&& forall|k: int|
                        0 <= k < w.tabs.len() && k != w.active ==> v.tabs[k] == w.tabs[k]
                },
                None => {
                    &&& w.tabs.len() > 1 ==> v.tabs == w.tabs.remove(w.active as int)
                    &&& w.tabs.len() == 1 ==> leaves(v.tab().layout) == seq![w.tab().focus]
                        && v.tab().focus == w.tab().focus && v.tabs.len() == 1 && v.tab().title
                        == w.tab().title
                },
            }
        }),
{
    if without(w.tab().layout, w.tab().focus) is None && w.tabs.len() > 1 {
        assert(w.closed_focused().tabs =~= w.tabs.remove(w.active as int));
    }
}

/// The panes of a window are those of its tabs, tab by tab.
pub proof fn panes_are_listed_tab_by_tab(tabs: Seq<TabView>, t: TabView)
    ensures
        tabs_leaves(tabs.push(t)) == tabs_leaves(tabs) + leaves(t.layout),
        tabs_leaves(seq![t]) == leaves(t.layout),
{
    assert(tabs.push(t).drop_last() =~= tabs);
    assert(seq![t].drop_last() =~= Seq::<TabView>::empty());
    reveal_with_fuel(tabs_leaves, 2);
    assert(tabs_leaves(seq![t]) =~= leaves(t.layout));
}

/// New panes get numbers that were never given out, in a row.
pub proof fn numbers_are_given_out_once(w: &mut Workspace, id: PaneId)
    requires
        call_ensures(Workspace::alloc_pane, (w,), id),
        old(w)@.wf(),
        old(w)@.next_id < u64::MAX,
    ensures
        id == old(w)@.next_id,
        final(w)@.next_id == id + 1,
        final(w)@.tabs == old(w)@.tabs,
        final(w)@.active == old(w)@.active,
{
}

} // verus!
