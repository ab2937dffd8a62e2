//! Which panes are built again, and when the cursor blinks.

use crate::blink::{cursor_blinks, shows_cursor, Blink, Tick};
use crate::damage::{ids, same_rect, Damage, DamageView, PaneRect};
use crate::proto::PaneId;
use vstd::prelude::*;

verus! {

/// A pane that changed is stale, and no other becomes so; a frame is wanted for it exactly where it
/// is on screen.
pub proof fn touched_panes_are_stale(d: &mut Damage, pane: PaneId, redraw: bool, other: PaneId)
    requires
        call_ensures(Damage::touch, (d, pane), redraw),
    ensures
        final(d)@.dirty.contains(pane),
        other != pane ==> (final(d)@.dirty.contains(other) <==> old(d)@.dirty.contains(other)),
        redraw <==> old(d)@.visible.contains(pane),
        final(d)@.visible == old(d)@.visible,
        final(d)@.rects == old(d)@.rects,
{
}

/// A stale pane is built once: taking it says that it is stale, and it is not so any more. The
/// others stay as they are.
pub proof fn stale_panes_are_built_once(d: &mut Damage, pane: PaneId, stale: bool, other: PaneId)
    requires
        call_ensures(Damage::take, (d, pane), stale),
    ensures
        stale <==> old(d)@.dirty.contains(pane),
        !final(d)@.dirty.contains(pane),
        other != pane ==> (final(d)@.dirty.contains(other) <==> old(d)@.dirty.contains(other)),
        final(d)@.visible == old(d)@.visible,
        final(d)@.rects == old(d)@.rects,
{
}

/// A pane that is gone is not stale, and if it comes back it counts as moved.
pub proof fn gone_panes_are_forgotten(d: &mut Damage, pane: PaneId, out: (), other: PaneId, r: PaneRect)
    requires
        call_ensures(Damage::forget, (d, pane), out),
    ensures
        !final(d)@.dirty.contains(pane),
        final(d)@.moved(pane, r),
        other != pane ==> (final(d)@.dirty.contains(other) <==> old(d)@.dirty.contains(other))
            && final(d)@.moved(other, r) == old(d)@.moved(other, r),
{
}

/// After a change of the palette, the font or the window every pane is stale that is named.
pub proof fn all_named_panes_are_stale(d: &mut Damage, panes: Vec<PaneId>, out: (), i: int)
    requires
        call_ensures(Damage::touch_all, (d, &panes), out),
        0 <= i < panes@.len(),
    ensures
        final(d)@.dirty.contains(panes@[i]),
        old(d)@.dirty.subset_of(final(d)@.dirty),
        final(d)@.visible == old(d)@.visible,
{
    assert(panes@.to_set().contains(panes@[i]));
}

/// The panes of an arrangement are those that are listed.
pub proof fn arrangements_list_their_panes(leaves: Seq<(PaneId, PaneRect)>, pane: PaneId)
    ensures
        ids(leaves).contains(pane) <==> exists|i: int|
            0 <= i < leaves.len() && (#[trigger] leaves[i]).0 == pane,
    decreases leaves.len(),
{
    if leaves.len() > 0 {
        let front = leaves.drop_last();
        arrangements_list_their_panes(front, pane);
        if ids(front).contains(pane) {
            let i = choose|i: int| 0 <= i < front.len() && (#[trigger] front[i]).0 == pane;
            assert(leaves[i].0 == pane);
        }
        if leaves.last().0 == pane {
            assert(leaves[leaves.len() - 1].0 == pane);
        }
        if exists|i: int| 0 <= i < leaves.len() && (#[trigger] leaves[i]).0 == pane {
            let i = choose|i: int| 0 <= i < leaves.len() && (#[trigger] leaves[i]).0 == pane;
            if i < front.len() {
                assert(front[i].0 == pane);
            }
        }
    }
}

/// A pane that stays where it is, among the same panes, and did not change is not built again;
/// whatever the others do.
pub proof fn unchanged_panes_stay_built(d: DamageView, leaves: Seq<(PaneId, PaneRect)>, pane: PaneId)
    requires
        ids(leaves) == d.visible,
        !d.dirty.contains(pane),
        forall|i: int|
            0 <= i < leaves.len() && (#[trigger] leaves[i]).0 == pane ==> !d.moved(
                pane,
                leaves[i].1,
            ),
    ensures
        !d.arranged(leaves).dirty.contains(pane),
        d.arranged(leaves).visible == ids(leaves),
{
    lemma_unmoved(
        DamageView { dirty: d.dirty, visible: ids(leaves), rects: d.rects },
        leaves,
        pane,
    );
}

proof fn lemma_unmoved(d: DamageView, leaves: Seq<(PaneId, PaneRect)>, pane: PaneId)
    requires
        !d.dirty.contains(pane),
        forall|i: int|
            0 <= i < leaves.len() && (#[trigger] leaves[i]).0 == pane ==> !d.moved(
                pane,
                leaves[i].1,
            ),
    ensures
        !d.placed_all(leaves).dirty.contains(pane),
        d.placed_all(leaves).visible == d.visible,
        d.placed_all(leaves).rects.contains_key(pane) == d.rects.contains_key(pane),
        d.rects.contains_key(pane) ==> d.placed_all(leaves).rects[pane] == d.rects[pane],
    decreases leaves.len(),
{
    if leaves.len() > 0 {
        let front = leaves.drop_last();
        assert forall|i: int| 0 <= i < front.len() && (#[trigger] front[i]).0 == pane implies !d.moved(
            pane,
            front[i].1,
        ) by {
            assert(leaves[i] == front[i]);
        }
        lemma_unmoved(d, front, pane);
        assert(leaves.last() == leaves[leaves.len() - 1]);
    }
}

/// A rectangle is another one as soon as one of its sides is.
pub proof fn rectangles_are_compared_by_their_sides(a: PaneRect, b: PaneRect)
    ensures
        same_rect(a, b) ==> crate::bits::equal_numbers(a.x, b.x) && crate::bits::equal_numbers(
            a.y,
            b.y,
        ) && crate::bits::equal_numbers(a.w, b.w) && crate::bits::equal_numbers(a.h, b.h),
        a == b && !crate::bits::is_nan(a.x) && !crate::bits::is_nan(a.y) && !crate::bits::is_nan(a.w)
            && !crate::bits::is_nan(a.h) ==> same_rect(a, b),
{
}

/// A blinking cursor whose clock stands still is shown or hidden as it was, and changes half a
/// second later.
pub proof fn blinks_last_half_a_second(b: Blink, now: u64, later: u64)
    requires
        b.next is None,
        now + 500_000_000 <= later,
        later + 500_000_000 <= u64::MAX,
    ensures
        b.ticked(true, now).on == b.on,
        b.ticked(true, now).next == Some((now + 500_000_000) as u64),
        b.ticked(true, now).ticked(true, later).on == !b.on,
        b.ticked(true, now).ticked(true, later).next == Some((later + 500_000_000) as u64),
{
}

/// A look at the clock says whether to draw, and when to look again; typing shows the cursor.
pub proof fn looks_at_the_clock_are_told(b: &mut Blink, blinks: bool, now: u64, t: Tick)
    requires
        call_ensures(Blink::tick, (b, blinks, now), t),
    ensures
        t.redraw <==> final(b).on != old(b).on,
        t.until == final(b).next,
        !blinks ==> final(b).on && final(b).next is None,
{
}

/// Typing shows the cursor and starts the cycle again.
pub proof fn typing_shows_the_cursor(b: &mut Blink, out: ())
    requires
        call_ensures(Blink::reset, (b,), out),
    ensures
        final(b).on,
        final(b).next is None,
{
}

/// Only a visible cursor blinks, and only the focused pane's is ever hidden by it.
pub proof fn only_the_focused_cursor_goes_dark(
    blinking: bool,
    visible: bool,
    focused: bool,
    on: bool,
    b: bool,
    s: bool,
)
    requires
        call_ensures(cursor_blinks, (blinking, visible), b),
        call_ensures(shows_cursor, (focused, on), s),
    ensures
        b <==> blinking && visible,
        !s <==> focused && !on,
{
}

} // verus!
