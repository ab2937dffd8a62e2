//! What a window does with what it hears from its connections, and what it says to them.

use crate::client;
use crate::client::{
    backend_of, conn_of, drop_conn, set_conn, target_label, term_of, Backend, Client, ClientView,
    ConnId, ConnView, EffectView, Existing, IncomingView, ProgressView, TargetView, TermView,
};
use crate::layout;
use crate::proto::{ControlView, LayoutTab};
use crate::seqs;
use crate::text;
use crate::workspace;
use crate::workspace::{PaneId, TabView, WorkspaceView};
use vstd::prelude::*;

verus! {

/// A connection is found by its id.
proof fn lemma_conn(s: ClientView, id: ConnId) -> (i: int)
    requires
        s.conn(id) is Some,
    ensures
        0 <= i < s.conns.len(),
        s.conns[i] == s.conn(id)->0,
        s.conns[i].id == id,
{
    seqs::lemma_found(s.conns, |c: ConnView| c.id == id);
    choose|i: int| 0 <= i < s.conns.len() && s.conns[i] == s.conn(id)->0
}

/// A changed connection is found as it was changed, and the others as they were.
pub proof fn changed_connections_are_found(s: ClientView, c: ConnView, other: ConnId)
    requires
        s.wf(),
        s.conn(c.id) is Some,
    ensures
        (ClientView { conns: set_conn(s.conns, c), ..s }).conn(c.id) == Some(c),
        other != c.id ==> (ClientView { conns: set_conn(s.conns, c), ..s }).conn(other) == s.conn(
            other,
        ),
        set_conn(s.conns, c).len() == s.conns.len(),
{
    let t = set_conn(s.conns, c);
    let id = c.id;
    let i = lemma_conn(s, id);
    assert(t[i] == c);
    assert forall|k: int| i < k < t.len() implies !(|x: ConnView| x.id == id)(#[trigger] t[k]) by {
        assert(s.conns[k].id != s.conns[i].id);
        assert(t[k] == s.conns[k]);
    }
    seqs::lemma_find_one(t, |x: ConnView| x.id == id, i);
    if other != c.id {
        lemma_others(s.conns, c, other);
    }
}

proof fn lemma_others(conns: Seq<ConnView>, c: ConnView, id: ConnId)
    requires
        id != c.id,
    ensures
        conn_of(set_conn(conns, c), id) == conn_of(conns, id),
    decreases conns.len(),
{
    let t = set_conn(conns, c);
    if conns.len() > 0 {
        lemma_others(conns.drop_last(), c, id);
        assert(t.drop_last() =~= set_conn(conns.drop_last(), c));
        assert(t.last() == if conns.last().id == c.id {
            c
        } else {
            conns.last()
        });
    }
}

/// Output is shown on the pane that stands for the daemon's, all of it and nothing else, and the
/// pane is drawn again. Output for a pane that nobody knows is dropped.
pub proof fn output_is_shown_on_its_pane(s: ClientView, id: ConnId, pane: u64, bytes: Seq<u8>)
    ensures
        ({
            let (t, es) = s.heard(id, IncomingView::Data { pane, bytes });
            &&& t == s
            &&& s.route(id, pane) is None ==> es.len() == 0
            &&& s.route(id, pane) matches Some(local) ==> es.last() == (EffectView::Touch {
                pane: local,
            }) && (backend_of(s.terms, local) is Some ==> es.len() == 2 && es[0] == (
            EffectView::Paint { pane: local, bytes })) && (backend_of(s.terms, local) is None
                ==> es.len() == 1)
        }),
{
}

/// A new size is taken over as it is.
pub proof fn sizes_are_taken_over(s: ClientView, id: ConnId, pane: u64, cols: u16, rows: u16)
    ensures
        ({
            let (t, es) = s.heard(
                id,
                IncomingView::Control(ControlView::Resize { pane, cols, rows }),
            );
            &&& t == s
            &&& s.route(id, pane) is None ==> es.len() == 0
            &&& s.route(id, pane) matches Some(local) ==> es == seq![
                EffectView::Conform { pane: local, cols, rows },
            ]
        }),
{
}

/// A welcome says who this client is, and a change of focus who drives; each is kept for that
/// connection, and nothing else changes.
pub proof fn roles_are_kept(s: ClientView, id: ConnId, version: u32, client: u64, owner: u64)
    requires
        s.wf(),
        s.conn(id) is Some,
    ensures
        ({
            let c = s.conn(id)->0;
            let (t, es) = s.heard(
                id,
                IncomingView::Control(ControlView::Welcome { version, client }),
            );
            let (u, fs) = s.heard(id, IncomingView::Control(ControlView::Focus { owner }));
            &&& t.conn(id) == Some(ConnView { client, ..c }) && es.len() == 0
            &&& u.conn(id) == Some(ConnView { owner, ..c }) && fs.len() == 0
            &&& t.ws == s.ws && t.terms == s.terms && t.progress == s.progress
            &&& u.ws == s.ws && u.terms == s.terms && u.progress == s.progress
        }),
{
    let c = s.conn(id)->0;
    lemma_conn(s, id);
    changed_connections_are_found(s, ConnView { client, ..c }, id);
    changed_connections_are_found(s, ConnView { owner, ..c }, id);
}

/// A client drives a session when it is ready, kept by a daemon, and has the focus; a pane follows
/// when another client has it.
pub proof fn the_focus_decides_who_drives(s: ClientView, id: ConnId, pane: PaneId)
    ensures
        s.drives(id) <==> s.conn(id) is Some && s.conn(id)->0.ready && !s.conn(id)->0.ephemeral
            && s.conn(id)->0.client == s.conn(id)->0.owner,
        s.follows(pane) ==> backend_of(s.terms, pane) is Some,
        (backend_of(s.terms, pane) matches Some(b) && s.conn(b.conn) is Some) ==> (s.follows(pane)
            <==> !s.conn(backend_of(s.terms, pane)->0.conn)->0.ephemeral && s.conn(
            backend_of(s.terms, pane)->0.conn,
        )->0.owner != 0 && s.conn(backend_of(s.terms, pane)->0.conn)->0.owner != s.conn(
            backend_of(s.terms, pane)->0.conn,
        )->0.client),
{
}

proof fn lemma_new_term(terms: Seq<TermView>, t: TermView)
    ensures
        term_of(client::drop_term(terms, t.pane).push(t), t.pane) == Some(t),
{
    let d = client::drop_term(terms, t.pane).push(t);
    assert(d.last() == t);
}

/// A pane of a daemon that is wired is reached by its route, its terminal says where it lives, and
/// the next pane that is asked for has another number. A daemon that does not have it yet is asked
/// for it, in this window's size; one that has it is not.
pub proof fn wired_panes_are_reached(
    s: ClientView,
    id: ConnId,
    remote: u64,
    local: PaneId,
    open: bool,
)
    requires
        s.wf(),
        s.conn(id) is Some,
        remote < u64::MAX,
    ensures
        ({
            let (t, es) = s.wired(id, remote, local, open);
            &&& t.route(id, remote) == Some(local)
            &&& backend_of(t.terms, local) == Some(Backend { conn: id, remote_id: remote })
            &&& t.conn(id)->0.next_remote_id > remote
            &&& t.conn(id)->0.next_remote_id >= s.conn(id)->0.next_remote_id
            &&& es[0] == (EffectView::Adopt { pane: local })
            &&& !open ==> es.len() == 1
            &&& open ==> es.len() == 2 && es[1] == (EffectView::Send {
                conn: id,
                message: ControlView::Open {
                    pane: remote,
                    cols: s.cols,
                    rows: s.rows,
                    cwd_from: None,
                },
            })
            &&& t.ws == s.ws
        }),
{
    let c = s.conn(id)->0;
    lemma_conn(s, id);
    let (t, es) = s.wired(id, remote, local, open);
    let next = if c.next_remote_id > remote {
        c.next_remote_id
    } else {
        (remote + 1) as u64
    };
    let w = ConnView {
        routes: client::drop_route(c.routes, remote).push((remote, local)),
        next_remote_id: next,
        ..c
    };
    changed_connections_are_found(s, w, id);
    assert(t.conn(id) == Some(w));
    assert(w.routes.last() == (remote, local));
    let term = TermView {
        pane: local,
        remote: Some(Backend { conn: id, remote_id: remote }),
        label: client::conn_label(c),
        title: "shell"@,
        default_title: "shell"@,
    };
    lemma_new_term(s.terms, term);
}

/// A new pane on a connection takes the next number there and is asked for.
pub proof fn new_panes_are_asked_for(s: ClientView, id: ConnId, local: PaneId)
    requires
        s.wf(),
        s.conn(id) is Some,
        s.conn(id)->0.next_remote_id < u64::MAX,
    ensures
        ({
            let (t, es) = s.added(id, local);
            let n = s.conn(id)->0.next_remote_id;
            &&& t.route(id, n) == Some(local)
            &&& es == seq![
                EffectView::Adopt { pane: local },
                EffectView::Send {
                    conn: id,
                    message: ControlView::Open {
                        pane: n,
                        cols: s.cols,
                        rows: s.rows,
                        cwd_from: None,
                    },
                },
            ]
            &&& t.conn(id)->0.next_remote_id > n
        }),
{
    let n = s.conn(id)->0.next_remote_id;
    wired_panes_are_reached(s, id, n, local, true);
    assert(s.added(id, local).1 =~= seq![
        EffectView::Adopt { pane: local },
        EffectView::Send {
            conn: id,
            message: ControlView::Open { pane: n, cols: s.cols, rows: s.rows, cwd_from: None },
        },
    ]);
}

/// A pane that a daemon announces gets a fresh local one, which stands for it and waits for its
/// place; the daemon is not asked to open it.
pub proof fn announced_panes_are_adopted(s: ClientView, id: ConnId, pane: u64)
    requires
        s.wf(),
        s.conn(id) is Some,
        pane < u64::MAX,
        s.ws.next_id < u64::MAX,
    ensures
        ({
            let (t, es) = s.heard(id, IncomingView::Control(ControlView::Restore { pane }));
            let local = s.ws.next_id;
            &&& t.route(id, pane) == Some(local)
            &&& backend_of(t.terms, local) == Some(Backend { conn: id, remote_id: pane })
            &&& es == seq![EffectView::Adopt { pane: local }]
            &&& t.conn(id)->0.restore_panes == s.conn(id)->0.restore_panes.push((pane, local))
            &&& t.ws.tabs == s.ws.tabs && t.ws.active == s.ws.active && t.ws.next_id > local
        }),
{
    let local = s.ws.next_id;
    let v = ClientView { ws: WorkspaceView { next_id: (local + 1) as u64, ..s.ws }, ..s };
    assert(v.conn(id) == s.conn(id));
    assert(v.wf()) by {
        assert forall|i: int| 0 <= i < v.ws.tabs.len() implies workspace::ids_below(
            (#[trigger] v.ws.tabs[i]).layout,
            v.ws.next_id,
        ) by {
            workspace::lemma_ids_grow(s.ws.tabs[i].layout, s.ws.next_id, v.ws.next_id);
        }
    }
    wired_panes_are_reached(v, id, pane, local, false);
    let (t, es) = v.wired(id, pane, local, false);
    assert(es =~= seq![EffectView::Adopt { pane: local }]);
    let c = t.conn(id)->0;
    lemma_conn(v, id);
    let j = lemma_conn(t, id);
    assert(c.restore_panes == s.conn(id)->0.restore_panes) by {
        let o = v.conn(id)->0;
        let next = if o.next_remote_id > pane {
            o.next_remote_id
        } else {
            (pane + 1) as u64
        };
        changed_connections_are_found(
            v,
            ConnView {
                routes: client::drop_route(o.routes, pane).push((pane, local)),
                next_remote_id: next,
                ..o
            },
            id,
        );
    }
    let n = ConnView { restore_panes: c.restore_panes.push((pane, local)), ..c };
    lemma_set_again(t, n, j);
}

proof fn lemma_set_again(s: ClientView, c: ConnView, i: int)
    requires
        0 <= i < s.conns.len(),
        s.conn(c.id) == Some(s.conns[i]),
        s.conns[i].id == c.id,
    ensures
        (ClientView { conns: set_conn(s.conns, c), ..s }).conn(c.id) == Some(c),
{
    let t = set_conn(s.conns, c);
    let id = c.id;
    assert(t[i] == c);
    seqs::lemma_found(t, |x: ConnView| x.id == id);
    let f = conn_of(t, id);
    if f is None {
        assert((|x: ConnView| x.id == id)(t[i]));
        assert(false);
    }
    let k = choose|k: int| 0 <= k < t.len() && t[k] == f->0;
    assert(t[k].id == id);
    assert(s.conns[k].id == id || t[k] == c);
}

/// A layout that arrives during the restore burst waits for its end.
pub proof fn layouts_wait_for_the_end_of_the_burst(s: ClientView, id: ConnId, tabs: Seq<LayoutTab>)
    requires
        s.wf(),
        s.conn(id) is Some,
        !s.conn(id)->0.ready,
    ensures
        ({
            let (t, es) = s.heard(id, IncomingView::Layout(tabs));
            &&& t.conn(id) == Some(ConnView { restore_layout: Some(tabs), ..s.conn(id)->0 })
            &&& t.ws == s.ws && t.terms == s.terms
            &&& es.len() == 0
        }),
{
    lemma_conn(s, id);
    changed_connections_are_found(
        s,
        ConnView { restore_layout: Some(tabs), ..s.conn(id)->0 },
        id,
    );
}

/// A shell that is gone closes its pane: its terminal and its place in the tree go, and the window
/// with the last terminal.
pub proof fn a_gone_shell_closes_its_pane(s: ClientView, pane: PaneId)
    ensures
        ({
            let (t, es) = s.closed(pane);
            &&& term_of(t.terms, pane) is None
            &&& t.ws == s.ws.removed_pane(pane)
            &&& es.len() >= 2
            &&& es[es.len() - 2] == (EffectView::Drop { pane })
            &&& es.last() == if t.terms.len() == 0 {
                EffectView::Exit
            } else {
                EffectView::Redraw
            }
            &&& forall|k: int| 0 <= k < es.len() ==> !(#[trigger] es[k] is Send)
        }),
{
    let (t, es) = s.closed(pane);
    let gone = s.unrouted(pane).0;
    seqs::lemma_drop_keeps(gone.terms, |x: TermView| x.pane == pane);
    seqs::lemma_find_none(t.terms, |x: TermView| x.pane == pane);
}

/// A pane that is closed here is closed at its daemon, under the daemon's number, and nothing is
/// said of any other; a local pane is only dropped.
pub proof fn retired_panes_are_closed_at_the_daemon(s: ClientView, pane: PaneId)
    ensures
        ({
            let (t, es) = s.retired(pane);
            &&& es.last() == (EffectView::Drop { pane })
            &&& backend_of(s.terms, pane) matches Some(b) ==> es[0] == (EffectView::Send {
                conn: b.conn,
                message: ControlView::Close { pane: b.remote_id },
            }) && forall|k: int| 1 <= k < es.len() ==> !(#[trigger] es[k] is Send)
            &&& backend_of(s.terms, pane) is None ==> es.len() == 1
            &&& term_of(t.terms, pane) is None
            &&& t.ws == s.ws
        }),
{
    let (t, es) = s.retired(pane);
    let gone = s.unrouted(pane).0;
    seqs::lemma_drop_keeps(gone.terms, |x: TermView| x.pane == pane);
    seqs::lemma_find_none(t.terms, |x: TermView| x.pane == pane);
}

/// A connection goes with its last pane and not before.
pub proof fn connections_go_with_their_last_pane(s: ClientView, pane: PaneId)
    requires
        s.wf(),
        backend_of(s.terms, pane) is Some,
        s.conn(backend_of(s.terms, pane)->0.conn) is Some,
    ensures
        ({
            let b = backend_of(s.terms, pane)->0;
            let c = s.conn(b.conn)->0;
            let rest = client::drop_route(c.routes, b.remote_id);
            let (t, es) = s.unrouted(pane);
            &&& rest.len() == 0 ==> t.conn(b.conn) is None && es == seq![
                EffectView::Disconnect { conn: b.conn },
            ]
            &&& rest.len() > 0 ==> t.conn(b.conn) == Some(ConnView { routes: rest, ..c })
                && es.len() == 0
            &&& forall|r: (u64, PaneId)| #[trigger]
                rest.contains(r) <==> c.routes.contains(r) && r.0 != b.remote_id
        }),
{
    let b = backend_of(s.terms, pane)->0;
    let c = s.conn(b.conn)->0;
    lemma_conn(s, b.conn);
    let rest = client::drop_route(c.routes, b.remote_id);
    let id = b.conn;
    lemma_routes(c.routes, b.remote_id);
    seqs::lemma_drop_keeps(s.conns, |x: ConnView| x.id == id);
    let d = drop_conn(s.conns, id);
    seqs::lemma_find_none(d, |x: ConnView| x.id == id);
    changed_connections_are_found(s, ConnView { routes: rest, ..c }, id);
}

proof fn lemma_routes(routes: Seq<(u64, PaneId)>, remote: u64)
    ensures
        forall|r: (u64, PaneId)| #[trigger]
            client::drop_route(routes, remote).contains(r) <==> routes.contains(r) && r.0 != remote,
    decreases routes.len(),
{
    let d = client::drop_route(routes, remote);
    if routes.len() > 0 {
        let front = routes.drop_last();
        let last = routes.last();
        lemma_routes(front, remote);
        let e = client::drop_route(front, remote);
        assert(d == if last.0 == remote {
            e
        } else {
            e.push(last)
        });
        assert(routes =~= front.push(last));
        assert forall|r: (u64, PaneId)| #[trigger] d.contains(r) <==> routes.contains(r) && r.0
            != remote by {
            if routes.contains(r) && r.0 != remote {
                let k = choose|k: int| 0 <= k < routes.len() && routes[k] == r;
                if k < front.len() {
                    assert(front[k] == r);
                    assert(e.contains(r));
                    let j = choose|j: int| 0 <= j < e.len() && e[j] == r;
                    assert(d[j] == r);
                } else {
                    assert(d[e.len() as int] == r);
                }
            }
            if d.contains(r) {
                let k = choose|k: int| 0 <= k < d.len() && d[k] == r;
                if k < e.len() {
                    assert(e[k] == r);
                    assert(e.contains(r));
                    let j = choose|j: int| 0 <= j < front.len() && front[j] == r;
                    assert(routes[j] == r);
                } else {
                    assert(routes[routes.len() - 1] == r);
                }
            }
        }
    }
}

/// A connection that is made greets the daemon in version 2, knows nothing of it yet, and is not
/// ready.
pub proof fn connections_begin_with_a_greeting(
    s: ClientView,
    id: ConnId,
    target: TargetView,
    name: Option<Seq<char>>,
    ephemeral: bool,
)
    ensures
        ({
            let (t, es) = s.connected(id, target, name, ephemeral);
            let c = t.conn(id)->0;
            &&& t.conn(id) is Some
            &&& c.id == id && c.target == target && c.display_name == name && c.ephemeral
                == ephemeral
            &&& !c.ready && !c.remembered && c.routes.len() == 0 && c.restore_panes.len() == 0
            &&& c.client == 0 && c.owner == 0 && c.next_remote_id == 1 && c.pushed_layout is None
            &&& es == seq![
                EffectView::Send { conn: id, message: ControlView::Hello { version: 2 } },
            ]
            &&& t.ws == s.ws && t.terms == s.terms
        }),
{
    let t = s.connected(id, target, name, ephemeral).0;
    assert(t.conns.last().id == id);
}

/// An attempt is noted under a number of its own, with its target and when it began, under the name
/// given or else as one would type it.
pub proof fn attempts_are_noted(s: ClientView, target: TargetView, name: Option<Seq<char>>, now: u64)
    requires
        s.wf(),
        s.next_conn < u64::MAX,
    ensures
        ({
            let t = s.connecting(target, name, now);
            let p = t.progress.last();
            &&& t.progress.drop_last() == s.progress
            &&& p.target == target && p.started == now && s.conn(p.conn) is None
            &&& name is Some ==> p.label == name->0
            &&& name is None ==> p.label == target_label(target.user, target.host, target.port)
            &&& t.next_conn > p.conn
            &&& forall|i: int|
                0 <= i < s.progress.len() ==> (#[trigger] s.progress[i]).conn != p.conn
            &&& t.ws == s.ws && t.terms == s.terms && t.conns == s.conns
        }),
{
    let t = s.connecting(target, name, now);
    assert(t.progress.drop_last() =~= s.progress);
    let id = s.next_conn;
    seqs::lemma_find_none(s.conns, |c: ConnView| c.id == id);
}

/// A target is written as one types it: a user and `@` where there is one, the host, and `:` and the
/// port unless it is 22.
pub proof fn targets_are_written_as_typed(user: Seq<char>, host: Seq<char>, port: u16)
    ensures
        target_label(Seq::<char>::empty(), host, 22) == host,
        user.len() > 0 ==> target_label(user, host, 22) == user + seq!['@'] + host,
        user.len() > 0 && port != 22 ==> {
            let l = target_label(user, host, port);
            let n = (user.len() + 1 + host.len()) as int;
            l.take(n) == user + seq!['@'] + host && l[n] == ':' && text::all_digits(l.skip(n + 1))
                && text::digits_value(l.skip(n + 1)) == port
        },
{
    reveal_strlit("@");
    reveal_strlit(":");
    assert("@"@ =~= seq!['@']);
    assert(":"@ =~= seq![':']);
    assert(target_label(Seq::<char>::empty(), host, 22) =~= host);
    assert(target_label(user, host, 22) =~= if user.len() > 0 {
        user + seq!['@'] + host
    } else {
        host
    });
    if user.len() > 0 && port != 22 {
        let l = target_label(user, host, port);
        let n = (user.len() + 1 + host.len()) as int;
        text::decimal_round_trips(port as nat);
        assert(l.take(n) =~= user + seq!['@'] + host);
        assert(l.skip(n + 1) =~= text::ascii(text::decimal(port as nat)));
    }
}

/// A second attempt is refused while one is under way, a session that is there is shown in place of
/// a new connection, and otherwise a new one is made.
pub proof fn targets_are_connected_once(s: ClientView, target: TargetView)
    ensures
        ({
            let (t, e) = s.asked_again(target);
            let trying = exists|i: int|
                0 <= i < s.progress.len() && (#[trigger] s.progress[i]).target == target;
            let there = exists|i: int|
                0 <= i < s.conns.len() && !(#[trigger] s.conns[i]).ephemeral && s.conns[i].target
                    == target;
            &&& trying ==> e == Existing::Connecting && t == s
            &&& !trying && !there ==> e == Existing::New && t == s
            &&& !trying && there ==> e != Existing::New
            &&& t.terms == s.terms && t.conns == s.conns && t.progress == s.progress
        }),
{
    let f = |p: ProgressView| p.target == target;
    let g = |c: ConnView| !c.ephemeral && c.target == target;
    seqs::lemma_found(s.progress, f);
    seqs::lemma_found(s.conns, g);
    if seqs::find_where(s.progress, f) is Some {
        let p = seqs::find_where(s.progress, f)->0;
        let i = choose|i: int| 0 <= i < s.progress.len() && s.progress[i] == p;
        assert(s.progress[i].target == target);
    } else {
        assert forall|i: int| 0 <= i < s.progress.len() implies (#[trigger] s.progress[i]).target
            != target by {
            assert(!f(s.progress[i]));
        }
        if seqs::find_where(s.conns, g) is Some {
            let c = seqs::find_where(s.conns, g)->0;
            let i = choose|i: int| 0 <= i < s.conns.len() && s.conns[i] == c;
            assert(!s.conns[i].ephemeral && s.conns[i].target == target);
        } else {
            assert forall|i: int| 0 <= i < s.conns.len() implies (#[trigger] s.conns[i]).ephemeral
                || s.conns[i].target != target by {
                assert(!g(s.conns[i]));
            }
        }
    }
}

/// A layout is sent to the daemon that keeps it, by the client that drives, when it is another one
/// than was sent last; otherwise nothing is said.
pub proof fn layouts_are_sent_by_the_driver(s: ClientView, id: ConnId, json: Seq<char>)
    requires
        s.wf(),
        s.conn(id) is Some,
    ensures
        ({
            let (t, es) = s.pushed(id, json);
            let c = s.conn(id)->0;
            let due = c.ready && !c.ephemeral && c.client == c.owner && c.pushed_layout != Some(
                json,
            );
            &&& due ==> es == seq![
                EffectView::Send { conn: id, message: ControlView::LayoutTree { json } },
            ] && t.conn(id) == Some(ConnView { pushed_layout: Some(json), ..c })
            &&& !due ==> es.len() == 0 && t == s
        }),
{
    lemma_conn(s, id);
    changed_connections_are_found(s, ConnView { pushed_layout: Some(json), ..s.conn(id)->0 }, id);
}

/// A failed attempt is no longer under way, and lets go of a connection that never got a pane; the
/// panes of any other stay.
pub proof fn failed_attempts_are_over(s: ClientView, id: ConnId)
    ensures
        ({
            let (t, es) = s.failed(id);
            &&& forall|i: int|
                0 <= i < t.progress.len() ==> (#[trigger] t.progress[i]).conn != id
            &&& forall|p: ProgressView|
                p.conn != id ==> (s.progress.contains(p) ==> #[trigger] t.progress.contains(p))
            &&& t.terms == s.terms && t.ws == s.ws
            &&& (s.conn(id) is Some && s.conn(id)->0.routes.len() == 0) ==> es == seq![
                EffectView::Disconnect { conn: id },
            ]
            &&& (s.conn(id) is None || s.conn(id)->0.routes.len() > 0) ==> es.len() == 0 && t.conns
                == s.conns
        }),
{
    seqs::lemma_drop_keeps(s.progress, |p: ProgressView| p.conn == id);
    let d = client::drop_progress(s.progress, id);
    let v = ClientView { progress: d, ..s };
    assert(v.conn(id) == s.conn(id));
}

/// When the restore burst is over the connection is ready, no longer under way, and remembered
/// once.
pub proof fn bursts_end_in_readiness(s: ClientView, id: ConnId)
    requires
        s.wf(),
        s.conn(id) is Some,
        s.conn(id)->0.ephemeral,
    ensures
        ({
            let (t, es) = s.got_ready(id);
            &&& t.conn(id) is Some && t.conn(id)->0.ready && t.conn(id)->0.remembered
            &&& t.conn(id)->0.restore_panes.len() == 0
            &&& es.last() == EffectView::Redraw
            &&& es.contains(EffectView::Remember { conn: id }) <==> !s.conn(id)->0.remembered
            &&& forall|i: int|
                0 <= i < t.progress.len() ==> (#[trigger] t.progress[i]).conn != id
        }),
{
    let c = s.conn(id)->0;
    let i = lemma_conn(s, id);
    let taken = ConnView { restore_panes: seq![], restore_layout: None, ..c };
    changed_connections_are_found(s, taken, id);
    let r = s.restored(id);
    assert(r.conn(id) == Some(taken));
    let j = lemma_conn(r, id);
    let done = ConnView { ready: true, remembered: true, ..taken };
    lemma_set_again(r, done, j);
    let u = ClientView {
        conns: set_conn(r.conns, done),
        progress: client::drop_progress(r.progress, id),
        ..r
    };
    assert(u.conn(id) == Some(done));
    let (t, es) = s.got_ready(id);
    assert(t == u);
    seqs::lemma_drop_keeps(r.progress, |p: ProgressView| p.conn == id);
    let own = if c.remembered {
        Seq::<EffectView>::empty()
    } else {
        seq![EffectView::Remember { conn: id }]
    };
    assert(es =~= own + Seq::<EffectView>::empty() + seq![EffectView::Redraw]);
    if !c.remembered {
        assert(es[0] == (EffectView::Remember { conn: id }));
    }
}

proof fn lemma_missing(terms: Seq<TermView>, live: Seq<PaneId>, title: Seq<char>, pane: PaneId)
    ensures
        ({
            let (ts, es) = client::with_missing(terms, live, title);
            &&& term_of(terms, pane) is Some ==> term_of(ts, pane) == term_of(terms, pane)
                && !es.contains(EffectView::Spawn { pane })
            &&& term_of(terms, pane) is None && live.contains(pane) ==> term_of(ts, pane) == Some(
                client::local_term(pane, title),
            ) && es.contains(EffectView::Spawn { pane })
            &&& term_of(terms, pane) is None && !live.contains(pane) ==> term_of(ts, pane) is None
                && !es.contains(EffectView::Spawn { pane })
            &&& forall|k: int| 0 <= k < es.len() ==> #[trigger] es[k] is Spawn
        }),
    decreases live.len(),
{
    let (ts, es) = client::with_missing(terms, live, title);
    if live.len() > 0 {
        let front = live.drop_last();
        let last = live.last();
        lemma_missing(terms, front, title, pane);
        let (us, fs) = client::with_missing(terms, front, title);
        assert(live =~= front.push(last));
        if pane != last {
            if live.contains(pane) {
                let k = choose|k: int| 0 <= k < live.len() && live[k] == pane;
                assert(front[k] == pane);
            }
            if front.contains(pane) {
                let k = choose|k: int| 0 <= k < front.len() && front[k] == pane;
                assert(live[k] == pane);
            }
        } else {
            assert(live[live.len() - 1] == pane);
        }
        if term_of(us, last) is None {
            let t = client::local_term(last, title);
            assert(ts == us.push(t));
            assert(ts.drop_last() =~= us);
            assert(es == fs.push(EffectView::Spawn { pane: last }));
            let sp = EffectView::Spawn { pane };
            if fs.contains(sp) {
                let k = choose|k: int| 0 <= k < fs.len() && fs[k] == sp;
                assert(es[k] == sp);
            }
            if es.contains(sp) {
                let k = choose|k: int| 0 <= k < es.len() && es[k] == sp;
                if k < fs.len() {
                    assert(fs[k] == sp);
                }
            }
            if pane == last {
                assert(es[fs.len() as int] == sp);
            }
        }
    }
}

/// A shell is started for exactly those panes of the tree that have no terminal, and such a terminal
/// is a local one with the title given.
pub proof fn missing_shells_are_started(s: ClientView, title: Seq<char>, pane: PaneId)
    ensures
        ({
            let live = workspace::tabs_leaves(s.ws.tabs);
            let (ts, es) = client::with_missing(s.terms, live, title);
            &&& es.contains(EffectView::Spawn { pane }) <==> live.contains(pane) && term_of(
                s.terms,
                pane,
            ) is None
            &&& live.contains(pane) && term_of(s.terms, pane) is None ==> (term_of(ts, pane) matches Some(
                t,
            ) && t.remote is None && t.title == title && t.pane == pane)
            &&& forall|k: int|
                0 <= k < es.len() ==> s.reconciled(title).1[k] == #[trigger] es[k]
        }),
{
    let live = workspace::tabs_leaves(s.ws.tabs);
    lemma_missing(s.terms, live, title, pane);
}

/// What is stored of a window at a daemon is its tabs there, each as its tree says.
pub proof fn tabs_are_described_for_their_daemon(s: ClientView, tabs: Seq<TabView>, t: TabView, id: ConnId)
    ensures
        s.tab_on(t, id) && layout::described(t.layout, client::remote_of(s.terms)) is Some
            ==> client::layout_tabs(s, tabs.push(t), id) == client::layout_tabs(s, tabs, id).push(
            LayoutTab {
                root: layout::described(t.layout, client::remote_of(s.terms))->0,
                focus: match backend_of(s.terms, t.focus) {
                    Some(b) => Some(b.remote_id),
                    None => None,
                },
            },
        ),
        !s.tab_on(t, id) ==> client::layout_tabs(s, tabs.push(t), id) == client::layout_tabs(
            s,
            tabs,
            id,
        ),
        s.tab_on(t, id) <==> backend_of(s.terms, workspace::leaves(t.layout)[0]) is Some
            && backend_of(s.terms, workspace::leaves(t.layout)[0])->0.conn == id,
{
    assert(tabs.push(t).drop_last() =~= tabs);
}

/// A pane without a place in the layout gets a tab of its own under the connection's name, which is
/// its own name or its host; a pane that has a place gets none.
pub proof fn panes_without_a_place_get_a_tab(
    ws: WorkspaceView,
    label: Seq<char>,
    panes: Seq<(u64, PaneId)>,
    p: (u64, PaneId),
    placed: Seq<PaneId>,
    c: ConnView,
)
    ensures
        placed.contains(p.1) ==> client::place_rest(ws, label, panes.push(p), placed)
            == client::place_rest(ws, label, panes, placed),
        !placed.contains(p.1) ==> client::place_rest(ws, label, panes.push(p), placed).tabs
            == client::place_rest(ws, label, panes, placed).tabs.push(
            TabView { title: label, layout: workspace::Node::Leaf(p.1), focus: p.1 },
        ),
        c.display_name is Some ==> client::conn_label(c) == c.display_name->0,
        c.display_name is None ==> client::conn_label(c) == c.target.host,
{
    assert(panes.push(p).drop_last() =~= panes);
}

/// In a restored tab the keyboard is where it was, if that pane is still there, and else with the
/// first.
pub proof fn restored_tabs_keep_their_focus(
    tab: LayoutTab,
    panes: Seq<(u64, PaneId)>,
    n: workspace::Node,
)
    ensures
        tab.focus is Some && layout::local_of(panes, tab.focus->0) is Some ==> client::restored_focus(
            tab,
            panes,
            n,
        ) == layout::local_of(panes, tab.focus->0)->0,
        tab.focus is None || layout::local_of(panes, tab.focus->0) is None ==> client::restored_focus(
            tab,
            panes,
            n,
        ) == workspace::leaves(n)[0],
{
}

/// A window begins with one tab, nothing running and no connection.
pub proof fn windows_begin_empty(cols: u16, rows: u16, c: Client)
    requires
        call_ensures(Client::new, (cols, rows), c),
    ensures
        c@.ws.tabs.len() == 1,
        c@.terms.len() == 0,
        c@.conns.len() == 0,
        c@.progress.len() == 0,
        c@.cols == cols,
        c@.rows == rows,
{
}

/// A terminal takes the title that its program sets and goes back to its first one; no other
/// terminal is touched.
pub proof fn titles_are_set(
    c: &mut Client,
    pane: PaneId,
    title: Option<String>,
    out: (),
    i: int,
)
    requires
        call_ensures(Client::set_title, (c, pane, title), out),
        0 <= i < old(c)@.terms.len(),
    ensures
        final(c)@.terms.len() == old(c)@.terms.len(),
        old(c)@.terms[i].pane != pane ==> final(c)@.terms[i] == old(c)@.terms[i],
        old(c)@.terms[i].pane == pane ==> {
            &&& title matches Some(t) ==> final(c)@.terms[i].title == t@
            &&& title is None ==> final(c)@.terms[i].title == old(c)@.terms[i].default_title
            &&& final(c)@.terms[i].pane == pane
            &&& final(c)@.terms[i].remote == old(c)@.terms[i].remote
            &&& final(c)@.terms[i].label == old(c)@.terms[i].label
        },
        final(c)@.ws == old(c)@.ws,
        final(c)@.conns == old(c)@.conns,
{
}

proof fn lemma_shown(ws: WorkspaceView, routes: Seq<(u64, PaneId)>) -> (k: int)
    requires
        client::shown_route(ws, routes) is Some,
    ensures
        0 <= k < routes.len(),
        client::shown_route(ws, routes) == Some(ws.showing(routes[k].1)),
        workspace::tab_index(ws.tabs, routes[k].1) is Some,
        forall|j: int| 0 <= j < k ==> workspace::tab_index(ws.tabs, (#[trigger] routes[j]).1) is None,
    decreases routes.len(),
{
    let front = routes.drop_last();
    if client::shown_route(ws, front) is Some {
        let k = lemma_shown(ws, front);
        assert forall|j: int| 0 <= j < k implies workspace::tab_index(
            ws.tabs,
            (#[trigger] routes[j]).1,
        ) is None by {
            assert(routes[j] == front[j]);
        }
        k
    } else {
        lemma_unshown(ws, front);
        assert forall|j: int| 0 <= j < routes.len() - 1 implies workspace::tab_index(
            ws.tabs,
            (#[trigger] routes[j]).1,
        ) is None by {
            assert(routes[j] == front[j]);
        }
        routes.len() - 1
    }
}

proof fn lemma_unshown(ws: WorkspaceView, routes: Seq<(u64, PaneId)>)
    requires
        client::shown_route(ws, routes) is None,
    ensures
        forall|j: int|
            0 <= j < routes.len() ==> workspace::tab_index(ws.tabs, (#[trigger] routes[j]).1) is None,
    decreases routes.len(),
{
    if routes.len() > 0 {
        let front = routes.drop_last();
        lemma_unshown(ws, front);
        assert forall|j: int| 0 <= j < routes.len() implies workspace::tab_index(
            ws.tabs,
            (#[trigger] routes[j]).1,
        ) is None by {
            if j < front.len() {
                assert(routes[j] == front[j]);
            } else {
                assert(routes[j] == routes.last());
            }
        }
    }
}

/// Going to a connection shows the first of its panes that is in a tab, and gives it the keyboard;
/// where it has none nothing changes.
pub proof fn connections_are_shown(c: &mut Client, id: ConnId, found: bool)
    requires
        call_ensures(Client::focus_connection, (c, id), found),
        old(c)@.wf(),
    ensures
        final(c)@.conns == old(c)@.conns,
        final(c)@.terms == old(c)@.terms,
        !found ==> final(c)@ == old(c)@,
        found ==> old(c)@.conn(id) is Some && exists|k: int|
            0 <= k < old(c)@.conn(id)->0.routes.len() && final(c)@.ws == old(c)@.ws.showing(
                (#[trigger] old(c)@.conn(id)->0.routes[k]).1,
            ) && workspace::tab_index(old(c)@.ws.tabs, old(c)@.conn(id)->0.routes[k].1) is Some
                && forall|j: int|
                0 <= j < k ==> workspace::tab_index(
                    old(c)@.ws.tabs,
                    (#[trigger] old(c)@.conn(id)->0.routes[j]).1,
                ) is None,
        !found && old(c)@.conn(id) is Some ==> forall|j: int|
            0 <= j < old(c)@.conn(id)->0.routes.len() ==> workspace::tab_index(
                old(c)@.ws.tabs,
                (#[trigger] old(c)@.conn(id)->0.routes[j]).1,
            ) is None,
{
    if old(c)@.conn(id) is Some {
        let routes = old(c)@.conn(id)->0.routes;
        if found {
            lemma_shown(old(c)@.ws, routes);
        } else {
            lemma_unshown(old(c)@.ws, routes);
        }
    }
}

/// The layout that a daemon is sent is made of all tabs of the window.
pub proof fn layouts_are_of_all_tabs(c: Client, id: ConnId, l: crate::proto::Layout)
    requires
        call_ensures(Client::layout_for, (&c, id), l),
    ensures
        l.tabs@ == client::layout_tabs(c@, c@.ws.tabs, id),
{
}

} // verus!
