//! Damage tracking: which panes have to be built again before the next frame.

use crate::bits;
use crate::bits::{same_number, Single};
use crate::proto::PaneId;
use std::collections::{HashMap, HashSet};
use vstd::prelude::*;

verus! {

broadcast use vstd::std_specs::hash::group_hash_axioms;

/// A pane's rectangle on the surface.
#[derive(Debug, Clone, Copy, PartialEq, Eq, Structural)]
pub struct PaneRect {
    pub x: Single,
    pub y: Single,
    pub w: Single,
    pub h: Single,
}

/// The same rectangle.
pub open spec fn same_rect(a: PaneRect, b: PaneRect) -> bool {
    bits::equal_numbers(a.x, b.x) && bits::equal_numbers(a.y, b.y) && bits::equal_numbers(a.w, b.w)
        && bits::equal_numbers(a.h, b.h)
}

/// Which panes are stale, which are on screen, and where each was last built.
#[derive(Debug)]
pub struct Damage {
    dirty: HashSet<PaneId>,
    visible: HashSet<PaneId>,
    rects: HashMap<PaneId, PaneRect>,
}

#[verifier::ext_equal]
pub struct DamageView {
    pub dirty: Set<PaneId>,
    pub visible: Set<PaneId>,
    pub rects: Map<PaneId, PaneRect>,
}

impl View for Damage {
    type V = DamageView;

    closed spec fn view(&self) -> DamageView {
        DamageView { dirty: self.dirty@, visible: self.visible@, rects: self.rects@ }
    }
}

/// The panes of an arrangement.
pub open spec fn ids(leaves: Seq<(PaneId, PaneRect)>) -> Set<PaneId>
    decreases leaves.len(),
{
    if leaves.len() == 0 {
        Set::empty()
    } else {
        ids(leaves.drop_last()).insert(leaves.last().0)
    }
}

impl DamageView {
    /// Finitely many panes are on screen.
    pub open spec fn wf(self) -> bool {
        self.visible.finite()
    }

    /// Whether a pane was last built for another place.
    pub open spec fn moved(self, pane: PaneId, r: PaneRect) -> bool {
        !(self.rects.contains_key(pane) && same_rect(self.rects[pane], r))
    }

    /// A pane's rectangle, looked at: a pane that moved is stale.
    pub open spec fn placed(self, pane: PaneId, r: PaneRect) -> DamageView {
        if self.moved(pane, r) {
            DamageView {
                dirty: self.dirty.insert(pane),
                rects: self.rects.insert(pane, r),
                ..self
            }
        } else {
            self
        }
    }

    /// All rectangles, looked at.
    pub open spec fn placed_all(self, leaves: Seq<(PaneId, PaneRect)>) -> DamageView
        decreases leaves.len(),
    {
        if leaves.len() == 0 {
            self
        } else {
            self.placed_all(leaves.drop_last()).placed(leaves.last().0, leaves.last().1)
        }
    }

    /// The panes of a frame. Another set of panes means that they were rearranged: all of them are
    /// stale. Otherwise those are that moved.
    pub open spec fn arranged(self, leaves: Seq<(PaneId, PaneRect)>) -> DamageView {
        DamageView {
            dirty: if ids(leaves) == self.visible {
                self.dirty
            } else {
                self.dirty + ids(leaves)
            },
            visible: ids(leaves),
            rects: self.rects,
        }.placed_all(leaves)
    }
}

impl Damage {
    /// Nothing is on screen.
    pub fn new() -> (d: Damage)
        ensures
            d@.wf(),
            d@ == (DamageView { dirty: Set::empty(), visible: Set::empty(), rects: Map::empty() }),
    {
        Damage { dirty: HashSet::new(), visible: HashSet::new(), rects: HashMap::new() }
    }

    /// A pane's content changed. Says whether a frame is needed for it: not for one that is in the
    /// background.
    pub fn touch(&mut self, pane: PaneId) -> (redraw: bool)
        ensures
            final(self)@ == (DamageView { dirty: old(self)@.dirty.insert(pane), ..old(self)@ }),
            redraw == old(self)@.visible.contains(pane),
    {
        self.dirty.insert(pane);
        self.visible.contains(&pane)
    }

    /// Every given pane changed: the palette, the font or the window did.
    pub fn touch_all(&mut self, panes: &Vec<PaneId>)
        ensures
            final(self)@ == (DamageView {
                dirty: old(self)@.dirty + panes@.to_set(),
                ..old(self)@
            }),
    {
        let ghost was = self@;
        for i in 0..panes.len()
            invariant
                self@ == (DamageView {
                    dirty: was.dirty + panes@.take(i as int).to_set(),
                    ..was
                }),
        {
            self.dirty.insert(panes[i]);
            proof {
                let t = panes@.take(i as int);
                let u = panes@.take(i + 1);
                assert forall|p: PaneId| u.to_set().contains(p) <==> t.to_set().contains(p) || p
                    == panes@[i as int] by {
                    if t.contains(p) {
                        let k = choose|k: int| 0 <= k < t.len() && t[k] == p;
                        assert(u[k] == p);
                    }
                    if p == panes@[i as int] {
                        assert(u[i as int] == p);
                    }
                    if u.contains(p) && p != panes@[i as int] {
                        let k = choose|k: int| 0 <= k < u.len() && u[k] == p;
                        assert(t[k] == p);
                    }
                }
                assert(self@.dirty =~= was.dirty + u.to_set());
            }
        }
        assert(panes@.take(panes.len() as int) =~= panes@);
    }

    /// A pane is gone.
    pub fn forget(&mut self, pane: PaneId)
        ensures
            final(self)@ == (DamageView {
                dirty: old(self)@.dirty.remove(pane),
                visible: old(self)@.visible,
                rects: old(self)@.rects.remove(pane),
            }),
    {
        self.dirty.remove(&pane);
        self.rects.remove(&pane);
        assert(self@.dirty =~= old(self)@.dirty.remove(pane));
        assert(self@.rects =~= old(self)@.rects.remove(pane));
    }

    /// Whether a pane has to be built now; afterwards it is not stale any more.
    pub fn take(&mut self, pane: PaneId) -> (stale: bool)
        ensures
            stale == old(self)@.dirty.contains(pane),
            final(self)@ == (DamageView { dirty: old(self)@.dirty.remove(pane), ..old(self)@ }),
    {
        let stale: bool = self.dirty.remove(&pane);
        assert(self@.dirty =~= old(self)@.dirty.remove(pane));
        stale
    }

    /// The panes of this frame, and where they are.
    pub fn arrange(&mut self, leaves: &Vec<(PaneId, PaneRect)>)
        requires
            old(self)@.wf(),
        ensures
            final(self)@.wf(),
            final(self)@ == old(self)@.arranged(leaves@),
    {
        let ghost was = self@;
        let mut now: HashSet<PaneId> = HashSet::new();
        let mut inside: bool = true;
        assert(leaves@.take(0) =~= seq![]);
        for i in 0..leaves.len()
            invariant
                self@ == was,
                now@ == ids(leaves@.take(i as int)),
                now@.finite(),
                inside == now@.subset_of(was.visible),
        {
            assert(leaves@.take(i + 1).drop_last() =~= leaves@.take(i as int));
            if !self.visible.contains(&leaves[i].0) {
                inside = false;
            }
            now.insert(leaves[i].0);
            assert(now@.contains(leaves@[i as int].0));
        }
        assert(leaves@.take(leaves.len() as int) =~= leaves@);
        let same: bool = inside && now.len() == self.visible.len();
        proof {
            if same {
                vstd::set_lib::lemma_subset_equality(now@, was.visible);
            }
        }
        if !same {
            for i in 0..leaves.len()
                invariant
                    self@ == (DamageView {
                        dirty: was.dirty + ids(leaves@.take(i as int)),
                        ..was
                    }),
            {
                assert(leaves@.take(i + 1).drop_last() =~= leaves@.take(i as int));
                self.dirty.insert(leaves[i].0);
                assert(self@.dirty =~= was.dirty + ids(leaves@.take(i + 1)));
            }
        }
        self.visible = now;
        let ghost mid = self@;
        assert(mid == (DamageView {
            dirty: if ids(leaves@) == was.visible {
                was.dirty
            } else {
                was.dirty + ids(leaves@)
            },
            visible: ids(leaves@),
            rects: was.rects,
        }));
        for i in 0..leaves.len()
            invariant
                self@ == mid.placed_all(leaves@.take(i as int)),
                self@.wf(),
        {
            assert(leaves@.take(i + 1).drop_last() =~= leaves@.take(i as int));
            self.look(leaves[i].0, leaves[i].1);
        }
    }

    fn look(&mut self, pane: PaneId, r: PaneRect)
        ensures
            final(self)@ == old(self)@.placed(pane, r),
    {
        let same: bool = match self.rects.get(&pane) {
            Some(q) => same_number(q.x, r.x) && same_number(q.y, r.y) && same_number(q.w, r.w)
                && same_number(q.h, r.h),
            None => false,
        };
        if !same {
            self.dirty.insert(pane);
            self.rects.insert(pane, r);
        }
    }
}

/// A frame that shows the panes of the last one at their old places builds none of them again.
pub proof fn still_panes_are_not_rebuilt(d: DamageView, leaves: Seq<(PaneId, PaneRect)>)
    requires
        ids(leaves) == d.visible,
        forall|i: int|
            0 <= i < leaves.len() ==> !d.moved((#[trigger] leaves[i]).0, leaves[i].1),
    ensures
        d.arranged(leaves) == d,
    decreases leaves.len(),
{
    lemma_still(d, leaves);
}

proof fn lemma_still(d: DamageView, leaves: Seq<(PaneId, PaneRect)>)
    requires
        forall|i: int|
            0 <= i < leaves.len() ==> !d.moved((#[trigger] leaves[i]).0, leaves[i].1),
    ensures
        d.placed_all(leaves) == d,
    decreases leaves.len(),
{
    if leaves.len() > 0 {
        let p = leaves.drop_last();
        assert forall|i: int| 0 <= i < p.len() implies !d.moved((#[trigger] p[i]).0, p[i].1) by {
            assert(p[i] == leaves[i]);
        }
        lemma_still(d, p);
        assert(leaves.last() == leaves[leaves.len() - 1]);
    }
}

/// A pane that was not on screen, or that moved, is built before the frame; and one that was stale
/// stays so.
pub proof fn changed_panes_are_rebuilt(d: DamageView, leaves: Seq<(PaneId, PaneRect)>, i: int)
    requires
        0 <= i < leaves.len(),
        forall|a: int, b: int|
            0 <= a < b < leaves.len() ==> (#[trigger] leaves[a]).0 != (#[trigger] leaves[b]).0,
    ensures
        !d.visible.contains(leaves[i].0) || d.moved(leaves[i].0, leaves[i].1) ==> d.arranged(
            leaves,
        ).dirty.contains(leaves[i].0),
        d.dirty.subset_of(d.arranged(leaves).dirty),
{
    let m = DamageView {
        dirty: if ids(leaves) == d.visible {
            d.dirty
        } else {
            d.dirty + ids(leaves)
        },
        visible: ids(leaves),
        rects: d.rects,
    };
    lemma_ids(leaves, i);
    lemma_grows(m, leaves);
    if d.moved(leaves[i].0, leaves[i].1) {
        lemma_moved(m, leaves, i);
    }
}

proof fn lemma_ids(leaves: Seq<(PaneId, PaneRect)>, i: int)
    requires
        0 <= i < leaves.len(),
    ensures
        ids(leaves).contains(leaves[i].0),
    decreases leaves.len(),
{
    if i < leaves.len() - 1 {
        lemma_ids(leaves.drop_last(), i);
    }
}

proof fn lemma_grows(d: DamageView, leaves: Seq<(PaneId, PaneRect)>)
    ensures
        d.dirty.subset_of(d.placed_all(leaves).dirty),
    decreases leaves.len(),
{
    if leaves.len() > 0 {
        lemma_grows(d, leaves.drop_last());
    }
}

proof fn lemma_moved(d: DamageView, leaves: Seq<(PaneId, PaneRect)>, i: int)
    requires
        0 <= i < leaves.len(),
        d.moved(leaves[i].0, leaves[i].1),
        forall|a: int, b: int|
            0 <= a < b < leaves.len() ==> (#[trigger] leaves[a]).0 != (#[trigger] leaves[b]).0,
    ensures
        d.placed_all(leaves).dirty.contains(leaves[i].0),
    decreases leaves.len(),
{
    let p = leaves.drop_last();
    if i < p.len() {
        assert forall|a: int, b: int| 0 <= a < b < p.len() implies (#[trigger] p[a]).0 != (
        #[trigger] p[b]).0 by {
            assert(p[a] == leaves[a] && p[b] == leaves[b]);
        }
        lemma_moved(d, p, i);
    } else {
        assert forall|k: int| 0 <= k < p.len() implies (#[trigger] p[k]).0 != leaves[i].0 by {
            assert(p[k] == leaves[k]);
        }
        lemma_others(d, p, leaves[i].0);
    }
}

proof fn lemma_others(d: DamageView, leaves: Seq<(PaneId, PaneRect)>, pane: PaneId)
    requires
        forall|k: int| 0 <= k < leaves.len() ==> (#[trigger] leaves[k]).0 != pane,
    ensures
        d.placed_all(leaves).rects.contains_key(pane) == d.rects.contains_key(pane),
        d.rects.contains_key(pane) ==> d.placed_all(leaves).rects[pane] == d.rects[pane],
    decreases leaves.len(),
{
    if leaves.len() > 0 {
        let p = leaves.drop_last();
        assert forall|k: int| 0 <= k < p.len() implies (#[trigger] p[k]).0 != pane by {
            assert(p[k] == leaves[k]);
        }
        lemma_others(d, p, pane);
        assert(leaves.last() == leaves[leaves.len() - 1]);
    }
}

} // verus!
