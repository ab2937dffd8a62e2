//! What holds of the client's operations taken together.

use crate::client;
use crate::client::{Backend, ClientView, ConnId, ConnView, EffectView, TermView};
use crate::layout;
use crate::proto::{ControlView, LayoutTab};
use crate::seqs;
use crate::workspace;
use crate::workspace::{PaneId, Split, TabView, WorkspaceView};
use vstd::prelude::*;

verus! {

/// A pane has a terminal.
pub open spec fn has_term(terms: Seq<TermView>, pane: PaneId) -> bool {
    client::term_of(terms, pane) is Some
}

proof fn lemma_has_term(terms: Seq<TermView>, pane: PaneId)
    ensures
        has_term(terms, pane) <==> exists|i: int|
            0 <= i < terms.len() && (#[trigger] terms[i]).pane == pane,
{
    seqs::lemma_found(terms, |t: TermView| t.pane == pane);
    if let Some(t) = client::term_of(terms, pane) {
        let k = choose|k: int| 0 <= k < terms.len() && terms[k] == t;
        assert(terms[k].pane == pane);
    }
}

proof fn lemma_pushed_term(terms: Seq<TermView>, t: TermView, pane: PaneId)
    ensures
        has_term(terms.push(t), pane) <==> has_term(terms, pane) || t.pane == pane,
        t.pane == pane ==> client::term_of(terms.push(t), pane) == Some(t),
{
    assert(terms.push(t).drop_last() =~= terms);
}

proof fn lemma_dropped_term(terms: Seq<TermView>, gone: PaneId, pane: PaneId)
    ensures
        has_term(client::drop_term(terms, gone), pane) <==> has_term(terms, pane) && pane != gone,
{
    let left = client::drop_term(terms, gone);
    seqs::lemma_drop_keeps(terms, |t: TermView| t.pane == gone);
    lemma_has_term(terms, pane);
    lemma_has_term(left, pane);
    if has_term(left, pane) {
        let i = choose|i: int| 0 <= i < left.len() && (#[trigger] left[i]).pane == pane;
        assert(terms.contains(left[i]));
        let k = choose|k: int| 0 <= k < terms.len() && terms[k] == left[i];
        assert(terms[k].pane == pane);
    }
    if has_term(terms, pane) && pane != gone {
        let k = choose|k: int| 0 <= k < terms.len() && (#[trigger] terms[k]).pane == pane;
        assert(terms.contains(terms[k]));
        assert(left.contains(terms[k]));
        let i = choose|i: int| 0 <= i < left.len() && left[i] == terms[k];
        assert(left[i].pane == pane);
    }
}

proof fn lemma_with_missing(
    terms: Seq<TermView>,
    live: Seq<PaneId>,
    title: Seq<char>,
    pane: PaneId,
)
    ensures
        has_term(client::with_missing(terms, live, title).0, pane) <==> has_term(terms, pane)
            || live.contains(pane),
    decreases live.len(),
{
    if live.len() > 0 {
        let front = live.drop_last();
        lemma_with_missing(terms, front, title, pane);
        let (ts, _) = client::with_missing(terms, front, title);
        lemma_pushed_term(ts, client::local_term(live.last(), title), pane);
        assert(live =~= front.push(live.last()));
        if front.contains(pane) {
            let k = choose|k: int| 0 <= k < front.len() && front[k] == pane;
            assert(live[k] == pane);
        }
        if live.contains(pane) {
            let k = choose|k: int| 0 <= k < live.len() && live[k] == pane;
            if k < front.len() {
                assert(front[k] == pane);
            }
        }
        assert(live[live.len() - 1] == live.last());
    }
}

proof fn lemma_dead(terms: Seq<TermView>, live: Seq<PaneId>, pane: PaneId)
    ensures
        client::dead(terms, live).contains(pane) <==> has_term(terms, pane) && !live.contains(pane),
    decreases terms.len(),
{
    if terms.len() > 0 {
        let front = terms.drop_last();
        let t = terms.last();
        lemma_dead(front, live, pane);
        lemma_pushed_term(front, t, pane);
        assert(front.push(t) =~= terms);
        let d = client::dead(front, live);
        let e = client::dead(terms, live);
        if d.contains(pane) {
            let k = choose|k: int| 0 <= k < d.len() && d[k] == pane;
            assert(e[k] == pane);
        }
        if e.contains(pane) {
            let k = choose|k: int| 0 <= k < e.len() && e[k] == pane;
            if k < d.len() {
                assert(d[k] == pane);
            }
        }
        if t.pane == pane && !live.contains(pane) {
            assert(e[e.len() - 1] == pane);
        }
    }
}

proof fn lemma_retired_all(s: ClientView, panes: Seq<PaneId>, pane: PaneId)
    ensures
        s.retired_all(panes).0.ws == s.ws,
        has_term(s.retired_all(panes).0.terms, pane) <==> has_term(s.terms, pane)
            && !panes.contains(pane),
    decreases panes.len(),
{
    if panes.len() > 0 {
        let front = panes.drop_last();
        lemma_retired_all(s, front, pane);
        let t = s.retired_all(front).0;
        lemma_dropped_term(t.terms, panes.last(), pane);
        if front.contains(pane) {
            let k = choose|k: int| 0 <= k < front.len() && front[k] == pane;
            assert(panes[k] == pane);
        }
        if panes.contains(pane) {
            let k = choose|k: int| 0 <= k < panes.len() && panes[k] == pane;
            if k < front.len() {
                assert(front[k] == pane);
            }
        }
        assert(panes[panes.len() - 1] == panes.last());
    }
}

/// After reconciling there is a terminal for every pane of the tree, and besides only for panes
/// that had one and wait for their place; the tree itself is left alone.
pub proof fn reconciling_matches_the_tree(s: ClientView, title: Seq<char>, pane: PaneId)
    ensures
        s.reconciled(title).0.ws == s.ws,
        has_term(s.reconciled(title).0.terms, pane) <==> workspace::tabs_leaves(
            s.ws.tabs,
        ).contains(pane) || has_term(s.terms, pane) && client::waiting(s.conns).contains(pane),
{
    let live = workspace::tabs_leaves(s.ws.tabs);
    let waits = client::waiting(s.conns);
    let (terms, _) = client::with_missing(s.terms, live, title);
    let t = ClientView { terms, ..s };
    lemma_with_missing(s.terms, live, title, pane);
    lemma_in_append(live, waits, pane);
    lemma_dead(terms, live + waits, pane);
    lemma_retired_all(t, client::dead(terms, live + waits), pane);
}

proof fn lemma_kept_term(terms: Seq<TermView>, gone: PaneId, pane: PaneId)
    requires
        pane != gone,
    ensures
        client::term_of(client::drop_term(terms, gone), pane) == client::term_of(terms, pane),
    decreases terms.len(),
{
    if terms.len() > 0 {
        let front = terms.drop_last();
        lemma_kept_term(front, gone, pane);
        let left = client::drop_term(front, gone);
        assert(left.push(terms.last()).drop_last() =~= left);
    }
}

proof fn lemma_missing_keeps(
    terms: Seq<TermView>,
    live: Seq<PaneId>,
    title: Seq<char>,
    pane: PaneId,
)
    ensures
        has_term(terms, pane) ==> client::term_of(
            client::with_missing(terms, live, title).0,
            pane,
        ) == client::term_of(terms, pane),
        client::backend_of(client::with_missing(terms, live, title).0, pane)
            == client::backend_of(terms, pane),
        forall|i: int|
            0 <= i < client::with_missing(terms, live, title).1.len() ==> (
            #[trigger] client::with_missing(terms, live, title).1[i]) is Spawn,
    decreases live.len(),
{
    if live.len() > 0 {
        let front = live.drop_last();
        lemma_missing_keeps(terms, front, title, pane);
        let (ts, _) = client::with_missing(terms, front, title);
        let t = client::local_term(live.last(), title);
        assert(ts.push(t).drop_last() =~= ts);
    }
}

/// What is closed or dropped while panes are retired is one of these panes.
proof fn lemma_retired_effects(s: ClientView, panes: Seq<PaneId>, pane: PaneId, e: EffectView)
    requires
        !panes.contains(pane),
        s.retired_all(panes).1.contains(e),
    ensures
        client::term_of(s.retired_all(panes).0.terms, pane) == client::term_of(s.terms, pane),
        e != (EffectView::Drop { pane }),
        e matches EffectView::Send { conn, message: ControlView::Close { pane: remote } } ==> (
        exists|l: PaneId| #[trigger]
            panes.contains(l) && client::backend_of(s.terms, l) == Some(
                Backend { conn, remote_id: remote },
            )),
    decreases panes.len(),
{
    if panes.len() > 0 {
        let front = panes.drop_last();
        let last = panes.last();
        assert(panes[panes.len() - 1] == last);
        assert(panes.contains(last));
        assert forall|l: PaneId| #[trigger] front.contains(l) implies panes.contains(l) by {
            let k = choose|k: int| 0 <= k < front.len() && front[k] == l;
            assert(panes[k] == l);
        }
        let (t, es) = s.retired_all(front);
        let fs = t.retired(last).1;
        let all = s.retired_all(panes).1;
        let k = choose|k: int| 0 <= k < all.len() && all[k] == e;
        lemma_retired_terms(s, front, pane);
        lemma_retired_terms(s, front, last);
        lemma_kept_term(t.terms, last, pane);
        if k < es.len() {
            assert(es[k] == e);
            lemma_retired_effects(s, front, pane, e);
            if let EffectView::Send { conn, message: ControlView::Close { pane: remote } } = e {
                let l = choose|l: PaneId| #[trigger]
                    front.contains(l) && client::backend_of(s.terms, l) == Some(
                        Backend { conn, remote_id: remote },
                    );
                assert(panes.contains(l));
            }
        } else {
            assert(fs[k - es.len()] == e);
        }
    }
}

proof fn lemma_retired_terms(s: ClientView, panes: Seq<PaneId>, pane: PaneId)
    ensures
        client::term_of(s.retired_all(panes).0.terms, pane) == (if panes.contains(pane) {
            None
        } else {
            client::term_of(s.terms, pane)
        }),
    decreases panes.len(),
{
    lemma_retired_all(s, panes, pane);
    if panes.len() > 0 {
        let front = panes.drop_last();
        lemma_retired_terms(s, front, pane);
        let t = s.retired_all(front).0;
        assert(panes[panes.len() - 1] == panes.last());
        if !panes.contains(pane) {
            assert(panes.last() != pane);
            if front.contains(pane) {
                let k = choose|k: int| 0 <= k < front.len() && front[k] == pane;
                assert(panes[k] == pane);
            }
            lemma_kept_term(t.terms, panes.last(), pane);
        }
    }
}

/// A pane that a daemon announced and that waits for its place is left alone by reconciling: its
/// terminal stays as it is, and its shell is not closed at the daemon.
pub proof fn waiting_panes_are_kept(s: ClientView, title: Seq<char>, pane: PaneId)
    requires
        client::waiting(s.conns).contains(pane),
        has_term(s.terms, pane),
    ensures
        client::term_of(s.reconciled(title).0.terms, pane) == client::term_of(s.terms, pane),
        !s.reconciled(title).1.contains(EffectView::Drop { pane }),
        client::backend_of(s.terms, pane) matches Some(b) ==> (forall|l: PaneId|
            client::backend_of(s.terms, l) == Some(b) ==> l == pane) ==> !s.reconciled(
            title,
        ).1.contains(
            EffectView::Send {
                conn: b.conn,
                message: ControlView::Close { pane: b.remote_id },
            },
        ),
{
    let live = workspace::tabs_leaves(s.ws.tabs);
    let waits = client::waiting(s.conns);
    let (terms, es) = client::with_missing(s.terms, live, title);
    let t = ClientView { terms, ..s };
    let gone = client::dead(terms, live + waits);
    let (u, fs) = t.retired_all(gone);
    lemma_missing_keeps(s.terms, live, title, pane);
    lemma_in_append(live, waits, pane);
    lemma_dead(terms, live + waits, pane);
    lemma_retired_terms(t, gone, pane);
    let all = s.reconciled(title).1;
    assert(all == es + fs);
    assert forall|e: EffectView| all.contains(e) && !(e is Spawn) implies fs.contains(e) by {
        let k = choose|k: int| 0 <= k < all.len() && all[k] == e;
        if k < es.len() {
            assert(es[k] == e);
        } else {
            assert(fs[k - es.len()] == e);
        }
    }
    let drop = EffectView::Drop { pane };
    if all.contains(drop) {
        lemma_retired_effects(t, gone, pane, drop);
    }
    if let Some(b) = client::backend_of(s.terms, pane) {
        let close = EffectView::Send {
            conn: b.conn,
            message: ControlView::Close { pane: b.remote_id },
        };
        if all.contains(close) {
            lemma_retired_effects(t, gone, pane, close);
            let l = choose|l: PaneId| #[trigger]
                gone.contains(l) && client::backend_of(t.terms, l) == Some(
                    Backend { conn: b.conn, remote_id: b.remote_id },
                );
            lemma_missing_keeps(s.terms, live, title, l);
            assert(client::backend_of(s.terms, l) == Some(b));
        }
    }
}

/// A pane of a ready session follows another client exactly where that one, and not this, drives
/// it; what this client drives keeps this window's size.
pub proof fn only_the_driver_chooses_the_size(s: ClientView, pane: PaneId)
    requires
        client::backend_of(s.terms, pane) matches Some(b) && s.conn(b.conn) matches Some(c)
            && c.ready && !c.ephemeral && c.owner != 0,
    ensures
        s.follows(pane) == !s.drives(client::backend_of(s.terms, pane)->0.conn),
{
}

/// A pane is in one of the tabs.
pub open spec fn in_tabs(tabs: Seq<TabView>, pane: PaneId) -> bool {
    workspace::tab_index(tabs, pane) is Some
}

proof fn lemma_pushed_tab(tabs: Seq<TabView>, tab: TabView, pane: PaneId)
    ensures
        in_tabs(tabs.push(tab), pane) <==> in_tabs(tabs, pane) || workspace::leaves(
            tab.layout,
        ).contains(pane),
{
    assert(tabs.push(tab).drop_last() =~= tabs);
}

proof fn lemma_in_append(s: Seq<PaneId>, t: Seq<PaneId>, x: PaneId)
    ensures
        (s + t).contains(x) <==> s.contains(x) || t.contains(x),
{
    if s.contains(x) {
        let k = choose|k: int| 0 <= k < s.len() && s[k] == x;
        assert((s + t)[k] == x);
    }
    if t.contains(x) {
        let k = choose|k: int| 0 <= k < t.len() && t[k] == x;
        assert((s + t)[s.len() + k] == x);
    }
    if (s + t).contains(x) {
        let k = choose|k: int| 0 <= k < (s + t).len() && (s + t)[k] == x;
        if k < s.len() {
            assert(s[k] == x);
        } else {
            assert(t[k - s.len()] == x);
        }
    }
}

proof fn lemma_place_tabs(
    ws: WorkspaceView,
    label: Seq<char>,
    tabs: Seq<LayoutTab>,
    panes: Seq<(u64, PaneId)>,
    pane: PaneId,
)
    ensures
        in_tabs(client::place_tabs(ws, label, tabs, panes).tabs, pane) <==> in_tabs(ws.tabs, pane)
            || client::placed_by(tabs, panes).contains(pane),
    decreases tabs.len(),
{
    if tabs.len() > 0 {
        let front = tabs.drop_last();
        lemma_place_tabs(ws, label, front, panes, pane);
        let w = client::place_tabs(ws, label, front, panes);
        let tab = tabs.last();
        let own = layout::locals(layout::layout_panes(tab.root), panes);
        layout::rebuilding_keeps_the_living_panes(tab.root, panes, w.next_id);
        lemma_in_append(client::placed_by(front, panes), own, pane);
        match layout::built(tab.root, panes, w.next_id).0 {
            Some(n) => {
                lemma_pushed_tab(
                    w.tabs,
                    TabView {
                        title: label,
                        layout: n,
                        focus: client::restored_focus(tab, panes, n),
                    },
                    pane,
                );
            },
            None => {
                assert(!own.contains(pane));
            },
        }
    }
}

proof fn lemma_place_rest(
    ws: WorkspaceView,
    label: Seq<char>,
    panes: Seq<(u64, PaneId)>,
    placed: Seq<PaneId>,
    pane: PaneId,
)
    ensures
        in_tabs(client::place_rest(ws, label, panes, placed).tabs, pane) <==> in_tabs(ws.tabs, pane)
            || (!placed.contains(pane) && exists|j: int|
            0 <= j < panes.len() && (#[trigger] panes[j]).1 == pane),
    decreases panes.len(),
{
    if panes.len() > 0 {
        let front = panes.drop_last();
        lemma_place_rest(ws, label, front, placed, pane);
        let w = client::place_rest(ws, label, front, placed);
        let last = panes.last();
        lemma_pushed_tab(w.tabs, workspace::single(label, last.1), pane);
        assert(workspace::leaves(workspace::single(label, last.1).layout)[0] == last.1);
        assert(panes[panes.len() - 1] == last);
        assert forall|j: int| 0 <= j < front.len() implies (#[trigger] panes[j]) == front[j] by {}
        if exists|j: int| 0 <= j < front.len() && (#[trigger] front[j]).1 == pane {
            let j = choose|j: int| 0 <= j < front.len() && (#[trigger] front[j]).1 == pane;
            assert(panes[j].1 == pane);
        }
        if exists|j: int| 0 <= j < panes.len() && (#[trigger] panes[j]).1 == pane {
            let j = choose|j: int| 0 <= j < panes.len() && (#[trigger] panes[j]).1 == pane;
            if j < front.len() {
                assert(front[j].1 == pane);
            }
        }
    }
}

/// Every pane that a reattach brings back ends up in a tab, whatever the stored layout says, and
/// no pane that was in a tab loses it.
pub proof fn restored_panes_get_a_tab(s: ClientView, id: ConnId, pane: PaneId)
    requires
        s.conn(id) is Some,
        s.conn(id)->0.restore_panes.len() > 0,
    ensures
        in_tabs(s.restored(id).ws.tabs, pane) <==> in_tabs(s.ws.tabs, pane) || exists|j: int|
            0 <= j < s.conn(id)->0.restore_panes.len() && (
            #[trigger] s.conn(id)->0.restore_panes[j]).1 == pane,
{
    let c = s.conn(id)->0;
    let tabs = match c.restore_layout {
        Some(tabs) => tabs,
        None => seq![],
    };
    let label = client::conn_label(c);
    let placed = client::placed_by(tabs, c.restore_panes);
    let w = client::place_tabs(s.ws, label, tabs, c.restore_panes);
    lemma_place_tabs(s.ws, label, tabs, c.restore_panes, pane);
    lemma_place_rest(w, label, c.restore_panes, placed, pane);
    lemma_placed_listed(tabs, c.restore_panes, pane);
}

proof fn lemma_placed_listed(tabs: Seq<LayoutTab>, panes: Seq<(u64, PaneId)>, pane: PaneId)
    ensures
        client::placed_by(tabs, panes).contains(pane) ==> exists|j: int|
            0 <= j < panes.len() && (#[trigger] panes[j]).1 == pane,
    decreases tabs.len(),
{
    if tabs.len() > 0 {
        let own = layout::locals(layout::layout_panes(tabs.last().root), panes);
        lemma_placed_listed(tabs.drop_last(), panes, pane);
        lemma_in_append(client::placed_by(tabs.drop_last(), panes), own, pane);
        lemma_locals_listed(layout::layout_panes(tabs.last().root), panes, pane);
    }
}

proof fn lemma_locals_listed(remotes: Seq<u64>, panes: Seq<(u64, PaneId)>, pane: PaneId)
    ensures
        layout::locals(remotes, panes).contains(pane) ==> exists|j: int|
            0 <= j < panes.len() && (#[trigger] panes[j]).1 == pane,
    decreases remotes.len(),
{
    if remotes.len() > 0 {
        lemma_locals_listed(remotes.drop_last(), panes, pane);
        let before = layout::locals(remotes.drop_last(), panes);
        let all = layout::locals(remotes, panes);
        layout::lemma_local_listed(panes, remotes.last());
        if all.contains(pane) {
            let k = choose|k: int| 0 <= k < all.len() && all[k] == pane;
            if k < before.len() {
                assert(before[k] == pane);
            }
        }
    }
}

proof fn lemma_let_go(s: ClientView, routes: Seq<(u64, PaneId)>)
    ensures
        forall|k: int|
            0 <= k < s.let_go(routes).1.len() ==> #[trigger] s.let_go(routes).1[k] is Drop,
        s.let_go(routes).0.conns == s.conns,
        s.let_go(routes).0.progress == s.progress,
        forall|j: int|
            0 <= j < routes.len() ==> !has_term(
                s.let_go(routes).0.terms,
                (#[trigger] routes[j]).1,
            ),
    decreases routes.len(),
{
    if routes.len() > 0 {
        let front = routes.drop_last();
        lemma_let_go(s, front);
        let t = s.let_go(front).0;
        assert forall|j: int| 0 <= j < routes.len() implies !has_term(
            s.let_go(routes).0.terms,
            (#[trigger] routes[j]).1,
        ) by {
            lemma_dropped_term(t.terms, routes.last().1, routes[j].1);
            if j < front.len() {
                assert(front[j] == routes[j]);
            }
        }
    }
}

/// Detaching says nothing to the daemon, so its shells go on; it drops the connection and every
/// terminal that it fed, and leaves at least one tab.
pub proof fn detaching_leaves_the_shells_running(s: ClientView, id: ConnId)
    ensures
        forall|k: int|
            0 <= k < s.detached(id).1.len() ==> !(#[trigger] s.detached(id).1[k] is Send),
        s.detached(id).0.conn(id) is None,
        s.detached(id).0.ws.tabs.len() > 0,
        s.conn(id) matches Some(c) ==> forall|j: int|
            0 <= j < c.routes.len() ==> !has_term(
                s.detached(id).0.terms,
                (#[trigger] c.routes[j]).1,
            ),
{
    let routes = match s.conn(id) {
        Some(c) => c.routes,
        None => seq![],
    };
    lemma_let_go(s, routes);
    let (t, es) = s.let_go(routes);
    seqs::lemma_drop_keeps(t.conns, |c: ConnView| c.id == id);
    seqs::lemma_found(s.detached(id).0.conns, |c: ConnView| c.id == id);
    assert forall|k: int| 0 <= k < s.detached(id).1.len() implies !(#[trigger] s.detached(
        id,
    ).1[k] is Send) by {
        if k < es.len() {
            assert(s.detached(id).1[k] == es[k]);
        }
    }
}

/// Once a persistent connection is ready it owns at least one tab.
pub proof fn ready_connections_have_a_tab(s: ClientView, id: ConnId)
    requires
        s.wf(),
        s.conn(id) matches Some(c) && !c.ephemeral,
        s.restored(id).ws.tabs.len() < usize::MAX,
    ensures
        s.got_ready(id).0.owns_tab(id),
{
    let c = s.conn(id)->0;
    seqs::lemma_found(s.conns, |x: ConnView| x.id == id);
    let k = choose|k: int| 0 <= k < s.conns.len() && s.conns[k] == c;
    let r = s.restored(id);
    let taken = ConnView { restore_panes: seq![], restore_layout: None, ..c };
    lemma_set_conn(s.conns, taken, k);
    let ready = ConnView { ready: true, remembered: true, ..taken };
    lemma_set_conn(r.conns, ready, k);
    let t = ClientView {
        conns: client::set_conn(r.conns, ready),
        progress: client::drop_progress(r.progress, id),
        ..r
    };
    assert(t.conn(id) == Some(ready));
    if !t.owns_tab(id) {
        let w = ClientView { ws: t.ws.new_tab(), ..t };
        let local = t.ws.next_id;
        let n = t.ws.tabs.len() as int;
        assert(w.ws.tabs[n].layout == workspace::Node::Leaf(local));
        assert(w.ws.tab().focus == local);
        assert(w.conn(id) == Some(ready));
        let u = w.added(id, local).0;
        let term = TermView {
            pane: local,
            remote: Some(Backend { conn: id, remote_id: ready.next_remote_id }),
            label: client::conn_label(ready),
            title: "shell"@,
            default_title: "shell"@,
        };
        lemma_pushed_term(client::drop_term(w.terms, local), term, local);
        assert(client::term_of(u.terms, local) == Some(term));
        assert(u.ws.tabs[n] == w.ws.tabs[n]);
        assert(workspace::leaves(u.ws.tabs[n].layout)[0] == local);
        assert(u.tab_on(u.ws.tabs[n], id));
        assert(u.owns_tab(id));
        assert(s.got_ready(id).0 == u);
    }
}

proof fn lemma_set_conn(conns: Seq<ConnView>, c: ConnView, k: int)
    requires
        0 <= k < conns.len(),
        conns[k].id == c.id,
        forall|i: int, j: int|
            0 <= i < j < conns.len() ==> (#[trigger] conns[i]).id != (#[trigger] conns[j]).id,
    ensures
        client::conn_of(client::set_conn(conns, c), c.id) == Some(c),
        client::set_conn(conns, c)[k] == c,
        forall|i: int, j: int|
            0 <= i < j < client::set_conn(conns, c).len() ==> (#[trigger] client::set_conn(
                conns,
                c,
            )[i]).id != (#[trigger] client::set_conn(conns, c)[j]).id,
{
    let set = client::set_conn(conns, c);
    seqs::lemma_find_one(set, |x: ConnView| x.id == c.id, k);
}

/// A split of a remote pane opens its new pane on the same connection.
pub proof fn splitting_stays_on_the_connection(s: ClientView, split: Split)
    requires
        s.wf(),
        s.ws.active < s.ws.tabs.len(),
        s.ws.next_id < u64::MAX - 1,
        workspace::leaves(s.ws.tab().layout).contains(s.ws.tab().focus),
        s.focused_conn() matches Some(id) && s.conn(id) is Some,
    ensures
        ({
            let w = ClientView { ws: s.ws.splitted(split), ..s };
            let after = w.on_same_conn(s.focused_conn()).0;
            after.ws.tab().focus == s.ws.next_id && after.focused_conn() == s.focused_conn()
        }),
{
    let w = ClientView { ws: s.ws.splitted(split), ..s };
    let id = s.focused_conn()->0;
    let c = s.conn(id)->0;
    let local = s.ws.next_id;
    assert(w.ws.tab().focus == local);
    assert(w.conn(id) == Some(c));
    let term = TermView {
        pane: local,
        remote: Some(Backend { conn: id, remote_id: c.next_remote_id }),
        label: client::conn_label(c),
        title: "shell"@,
        default_title: "shell"@,
    };
    lemma_pushed_term(client::drop_term(w.terms, local), term, local);
}

/// The same layout is not sent twice in a row.
pub proof fn layouts_are_sent_once(s: ClientView, id: ConnId, json: Seq<char>)
    requires
        s.wf(),
    ensures
        s.pushed(id, json).0.pushed(id, json).1 == Seq::<EffectView>::empty(),
{
    if let Some(c) = s.conn(id) {
        seqs::lemma_found(s.conns, |x: ConnView| x.id == id);
        let k = choose|k: int| 0 <= k < s.conns.len() && s.conns[k] == c;
        lemma_set_conn(s.conns, ConnView { pushed_layout: Some(json), ..c }, k);
    }
}

} // verus!
