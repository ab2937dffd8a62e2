//! What clients see of a session, and what becomes of it.

use crate::notify::{Kind, Note};
use crate::proto::{ControlView, PaneId};
use crate::seqs;
use crate::session;
use crate::session::{
    announce, attached, broadcast, data, detached, drop_pane, greeted, note_replay, noted, received,
    record_output, restores, spawned, tell, views, Action, ActionView, ClientView, PacketView,
    PaneView, Session, SessionView,
};
use vstd::prelude::*;

verus! {

/// Where the replay of a pane begins.
spec fn start(panes: Seq<PaneView>, client: u64, i: int) -> int {
    restores(panes.take(i), client).len() as int
}

proof fn lemma_replayed(panes: Seq<PaneView>, client: u64, i: int)
    requires
        0 <= i < panes.len(),
    ensures
        ({
            let all = restores(panes, client);
            let o = start(panes, client, i);
            let p = panes[i];
            &&& 0 <= o
            &&& o + 2 <= all.len()
            &&& all[o] == tell(client, ControlView::Restore { pane: p.id })
            &&& all[o + 1] == tell(
                client,
                ControlView::Resize { pane: p.id, cols: p.cols, rows: p.rows },
            )
            &&& p.buffer.len() > 0 ==> o + 2 < all.len() && all[o + 2] == (ActionView::Send {
                client,
                packet: PacketView::Data { pane: p.id, bytes: p.buffer },
            })
        }),
    decreases panes.len(),
{
    let front = panes.drop_last();
    let before = restores(front, client);
    let all = restores(panes, client);
    assert(all.take(before.len() as int) =~= before);
    if i < front.len() {
        lemma_replayed(front, client, i);
        assert(front.take(i) =~= panes.take(i));
        assert(front[i] == panes[i]);
        let o = start(panes, client, i);
        assert(all[o] == before[o]);
        assert(all[o + 1] == before[o + 1]);
        if panes[i].buffer.len() > 0 {
            assert(all[o + 2] == before[o + 2]);
        }
    } else {
        assert(panes.take(i) =~= front);
    }
}

proof fn lemma_replays_only(panes: Seq<PaneView>, client: u64, k: int) -> (i: int)
    requires
        0 <= k < restores(panes, client).len(),
    ensures
        0 <= i < panes.len(),
        ({
            let a = restores(panes, client)[k];
            let o = start(panes, client, i);
            let p = panes[i];
            ||| k == o && a == tell(client, ControlView::Restore { pane: p.id })
            ||| k == o + 1 && a == tell(
                client,
                ControlView::Resize { pane: p.id, cols: p.cols, rows: p.rows },
            )
            ||| k == o + 2 && p.buffer.len() > 0 && a == (ActionView::Send {
                client,
                packet: PacketView::Data { pane: p.id, bytes: p.buffer },
            })
        }),
    decreases panes.len(),
{
    let front = panes.drop_last();
    let before = restores(front, client);
    let all = restores(panes, client);
    assert(all.take(before.len() as int) =~= before);
    if k < before.len() {
        let i = lemma_replays_only(front, client, k);
        assert(front.take(i) =~= panes.take(i));
        assert(all[k] == before[k]);
        i
    } else {
        let n = panes.len() - 1;
        assert(panes.take(n) =~= front);
        n
    }
}

/// Where the replay of the panes begins in a greeting.
spec fn first(s: SessionView, client: u64) -> int {
    1 + broadcast(
        s.clients,
        PacketView::Control(ControlView::Focus { owner: greeted(s, client).0.focus }),
        None,
    ).len() as int
}

proof fn lemma_greeting(s: SessionView, client: u64)
    requires
        s.wf(),
    ensures
        ({
            let all = greeted(s, client).1;
            let n = first(s, client);
            let owner = if s.focus == 0 {
                client
            } else {
                s.focus
            };
            let layout: Seq<ActionView> = match s.layout {
                Some(json) => seq![tell(client, ControlView::LayoutTree { json })],
                None => seq![],
            };
            let r = restores(s.panes, client);
            let notes = note_replay(s.notes, client);
            &&& greeted(s, client).0.focus == owner
            &&& all.len() == n + r.len() + layout.len() + notes.len() + 1
            &&& all[0] == tell(client, ControlView::Welcome { version: 2, client })
            &&& forall|k: int|
                1 <= k < n ==> (#[trigger] all[k] matches ActionView::Send { client: c, packet }
                    && packet == PacketView::Control(ControlView::Focus { owner }))
            &&& forall|k: int| 0 <= k < r.len() ==> all[n + k] == #[trigger] r[k]
            &&& forall|k: int|
                0 <= k < layout.len() ==> all[n + r.len() + k] == #[trigger] layout[k]
            &&& forall|k: int|
                0 <= k < notes.len() ==> all[n + r.len() + layout.len() + k] == #[trigger] notes[k]
            &&& all.last() == tell(client, ControlView::Ready)
        }),
{
    let all = greeted(s, client).1;
    let owner = greeted(s, client).0.focus;
    let focus = broadcast(s.clients, PacketView::Control(ControlView::Focus { owner }), None);
    session::broadcast_reaches_everyone(
        s.clients,
        PacketView::Control(ControlView::Focus { owner }),
        None,
    );
    assert forall|k: int| 1 <= k < first(s, client) implies (#[trigger] all[k]
        matches ActionView::Send { client: c, packet } && packet == PacketView::Control(
        ControlView::Focus { owner },
    )) by {
        assert(all[k] == focus[k - 1]);
        assert(focus.contains(all[k]));
    }
}

/// A client that attaches gets the whole kept output of every pane, right behind the pane's
/// announcement and its size.
pub proof fn every_screen_is_replayed(s: SessionView, client: u64, i: int)
    requires
        s.wf(),
        s.has_client(client),
        0 <= i < s.panes.len(),
    ensures
        exists|k: int|
            0 <= k && k + 1 < greeted(s, client).1.len() && #[trigger] greeted(s, client).1[k]
                == tell(client, ControlView::Restore { pane: s.panes[i].id }) && greeted(
                s,
                client,
            ).1[k + 1] == tell(
                client,
                ControlView::Resize {
                    pane: s.panes[i].id,
                    cols: s.panes[i].cols,
                    rows: s.panes[i].rows,
                },
            ) && (s.panes[i].buffer.len() > 0 ==> k + 2 < greeted(s, client).1.len() && greeted(
                s,
                client,
            ).1[k + 2] == (ActionView::Send {
                client,
                packet: PacketView::Data { pane: s.panes[i].id, bytes: s.panes[i].buffer },
            })),
        s.panes[i].buffer.len() > 0 ==> greeted(s, client).1.contains(
            ActionView::Send {
                client,
                packet: PacketView::Data { pane: s.panes[i].id, bytes: s.panes[i].buffer },
            },
        ),
{
    let all = greeted(s, client).1;
    let r = restores(s.panes, client);
    lemma_greeting(s, client);
    lemma_replayed(s.panes, client, i);
    let o = start(s.panes, client, i);
    let k = first(s, client) + o;
    assert(all[k] == r[o]);
    assert(all[k + 1] == r[o + 1]);
    if s.panes[i].buffer.len() > 0 {
        assert(all[k + 2] == r[o + 2]);
    }
}

/// No output is replayed but a pane's own, and each only once.
pub proof fn screens_are_replayed_once(
    s: SessionView,
    client: u64,
    k: int,
    l: int,
    pane: PaneId,
    bytes: Seq<u8>,
    other: Seq<u8>,
)
    requires
        s.wf(),
        s.has_client(client),
        0 <= k < greeted(s, client).1.len(),
        0 <= l < greeted(s, client).1.len(),
        greeted(s, client).1[k] == (ActionView::Send { client, packet: data(pane, bytes) }),
        greeted(s, client).1[l] == (ActionView::Send { client, packet: data(pane, other) }),
    ensures
        exists|i: int|
            0 <= i < s.panes.len() && (#[trigger] s.panes[i]).id == pane && s.panes[i].buffer
                == bytes && bytes.len() > 0,
        k == l,
{
    let i = lemma_own_output(s, client, k, pane, bytes);
    let j = lemma_own_output(s, client, l, pane, other);
    assert(s.panes[i].id == pane && s.panes[j].id == pane);
}

proof fn lemma_own_output(
    s: SessionView,
    client: u64,
    k: int,
    pane: PaneId,
    bytes: Seq<u8>,
) -> (i: int)
    requires
        s.wf(),
        0 <= k < greeted(s, client).1.len(),
        greeted(s, client).1[k] == (ActionView::Send { client, packet: data(pane, bytes) }),
    ensures
        0 <= i < s.panes.len(),
        s.panes[i].id == pane,
        s.panes[i].buffer == bytes,
        bytes.len() > 0,
        k == first(s, client) + start(s.panes, client, i) + 2,
{
    let all = greeted(s, client).1;
    let n = first(s, client);
    let r = restores(s.panes, client);
    let notes = note_replay(s.notes, client);
    lemma_greeting(s, client);
    let layout: Seq<ActionView> = match s.layout {
        Some(json) => seq![tell(client, ControlView::LayoutTree { json })],
        None => seq![],
    };
    if n <= k < n + r.len() {
        assert(all[k] == r[k - n]);
        lemma_replays_only(s.panes, client, k - n)
    } else {
        if k >= n + r.len() {
            if k < n + r.len() + layout.len() {
                assert(all[k] == layout[k - n - r.len()]);
            } else if k < all.len() - 1 {
                let j = k - n - r.len() - layout.len();
                assert(all[k] == notes[j]);
                assert(notes[j] == (ActionView::Send {
                    client,
                    packet: PacketView::Note(s.notes[j]),
                }));
            }
        } else if k >= 1 {
            assert(all[k] matches ActionView::Send { client: c, packet } && packet is Control);
        }
        assert(false);
        0
    }
}

/// A greeting begins with the welcome, by version and by the client's own number, and ends by
/// saying that the replay is over. The layout is sent if there is one, and it is the one that was
/// pushed; every kept note is sent. Everyone hears who holds the focus: whoever held it, or the
/// newcomer where nobody did.
pub proof fn greetings_are_complete(s: SessionView, client: u64)
    requires
        s.wf(),
        s.has_client(client),
    ensures
        ({
            let (after, all) = greeted(s, client);
            &&& all[0] == tell(client, ControlView::Welcome { version: 2, client })
            &&& all.last() == tell(client, ControlView::Ready)
            &&& s.layout matches Some(json) ==> all.contains(
                tell(client, ControlView::LayoutTree { json }),
            )
            &&& forall|j: int|
                0 <= j < s.notes.len() ==> all.contains(
                    ActionView::Send { client, packet: PacketView::Note(#[trigger] s.notes[j]) },
                )
            &&& forall|j: int|
                0 <= j < s.clients.len() ==> all.contains(
                    tell((#[trigger] s.clients[j]).id, ControlView::Focus { owner: after.focus }),
                )
            &&& s.focus == 0 ==> after.focus == client
            &&& s.focus != 0 ==> after.focus == s.focus
        }),
{
    let (after, all) = greeted(s, client);
    let n = first(s, client);
    let r = restores(s.panes, client);
    let notes = note_replay(s.notes, client);
    lemma_greeting(s, client);
    let m: int = if s.layout is Some {
        1
    } else {
        0
    };
    if let Some(json) = s.layout {
        let t = tell(client, ControlView::LayoutTree { json });
        let layout = seq![t];
        assert(layout[0] == t);
        assert(all[n + r.len() + 0] == t);
    }
    assert forall|j: int| 0 <= j < s.notes.len() implies all.contains(
        ActionView::Send { client, packet: PacketView::Note(#[trigger] s.notes[j]) },
    ) by {
        assert(notes[j] == (ActionView::Send { client, packet: PacketView::Note(s.notes[j]) }));
        assert(all[n + r.len() + m + j] == notes[j]);
    }
    let packet = PacketView::Control(ControlView::Focus { owner: after.focus });
    let focus = broadcast(s.clients, packet, None);
    session::broadcast_reaches_everyone(s.clients, packet, None);
    assert forall|j: int| 0 <= j < s.clients.len() implies all.contains(
        tell((#[trigger] s.clients[j]).id, ControlView::Focus { owner: after.focus }),
    ) by {
        let t = tell(s.clients[j].id, ControlView::Focus { owner: after.focus });
        assert(focus.contains(t));
        let k = choose|k: int| 0 <= k < focus.len() && focus[k] == t;
        assert(all[1 + k] == t);
    }
}

/// A greeted client knows every pane, so that it hears all further output; the others know what
/// they knew.
pub proof fn a_greeted_client_knows_every_pane(s: SessionView, client: u64, i: int, c: int)
    requires
        s.wf(),
        0 <= i < s.panes.len(),
        0 <= c < s.clients.len(),
    ensures
        greeted(s, client).0.clients.len() == s.clients.len(),
        greeted(s, client).0.clients[c].id == s.clients[c].id,
        s.clients[c].id == client ==> greeted(s, client).0.clients[c].announced.contains(
            s.panes[i].id,
        ),
        s.clients[c].id != client ==> greeted(s, client).0.clients[c] == s.clients[c],
{
    let ids = session::pane_ids(s.panes);
    assert(ids[i] == s.panes[i].id);
    assert(ids.to_set().contains(s.panes[i].id));
}

/// Notes that only told of something cleared are replayed once; raised ones stay.
pub proof fn replayed_notes_stay_if_raised(s: SessionView, client: u64, n: Note)
    ensures
        greeted(s, client).0.notes.contains(n) <==> s.notes.contains(n) && n.kind == Kind::Raise,
{
    seqs::lemma_drop_keeps(s.notes, |x: Note| x.kind != Kind::Raise);
    let kept = greeted(s, client).0.notes;
    if kept.contains(n) {
        let k = choose|k: int| 0 <= k < kept.len() && kept[k] == n;
        assert(kept[k] == n);
    }
}

/// A broadcast without exception says the same to each client once, in their order.
pub proof fn broadcasts_go_round_once(clients: Seq<ClientView>, packet: PacketView)
    ensures
        broadcast(clients, packet, None) == clients.map_values(
            |c: ClientView| ActionView::Send { client: c.id, packet },
        ),
    decreases clients.len(),
{
    let f = |c: ClientView| ActionView::Send { client: c.id, packet };
    if clients.len() > 0 {
        broadcasts_go_round_once(clients.drop_last(), packet);
        assert(clients.map_values(f) =~= clients.drop_last().map_values(f).push(f(clients.last())));
        assert(broadcast(clients, packet, None) =~= clients.map_values(f));
    } else {
        assert(broadcast(clients, packet, None) =~= clients.map_values(f));
    }
}

/// The focus changed, or stayed.
proof fn lemma_focus(s: SessionView, client: u64, a: ActionView)
    ensures
        s.focus_change(client).contains(a) ==> s.focus != client && (a matches ActionView::Send {
            client: c,
            packet,
        } && packet == PacketView::Control(ControlView::Focus { owner: client })),
        s.focus == client ==> s.focus_change(client).len() == 0,
        s.focus != client ==> forall|j: int|
            0 <= j < s.clients.len() ==> s.focus_change(client).contains(
                tell((#[trigger] s.clients[j]).id, ControlView::Focus { owner: client }),
            ),
{
    session::broadcast_reaches_everyone(
        s.clients,
        PacketView::Control(ControlView::Focus { owner: client }),
        None,
    );
}

/// Input reaches the terminal of the pane that it is for, as it was typed, and no other; for a pane
/// that is not there it reaches none. Nothing else changes but the focus, of which everyone hears
/// when it moves.
pub proof fn input_reaches_its_pane(s: SessionView, client: u64, pane: PaneId, bytes: Seq<u8>)
    ensures
        ({
            let (after, all) = received(s, client, PacketView::Data { pane, bytes });
            &&& s.has_pane(pane) ==> all.last() == (ActionView::Write { pane, bytes })
                && all.len() > 0
            &&& forall|a: ActionView| #[trigger]
                all.contains(a) && a is Write ==> a == (ActionView::Write { pane, bytes })
                    && s.has_pane(pane)
            &&& after.panes == s.panes && after.layout == s.layout && after.notes == s.notes
                && after.clients == s.clients
            &&& s.focus != client ==> forall|j: int|
                0 <= j < s.clients.len() ==> all.contains(
                    tell((#[trigger] s.clients[j]).id, ControlView::Focus { owner: client }),
                )
            &&& s.focus == client ==> all.len() <= 1
        }),
{
    let (after, all) = received(s, client, PacketView::Data { pane, bytes });
    let told = s.focus_change(client);
    lemma_focus(s, client, all[0]);
    assert forall|a: ActionView| #[trigger] all.contains(a) && a is Write implies a == (
    ActionView::Write { pane, bytes }) && s.has_pane(pane) by {
        lemma_in_front(told, all, a);
        lemma_focus(s, client, a);
    }
    if s.focus != client {
        assert forall|j: int| 0 <= j < s.clients.len() implies all.contains(
            tell((#[trigger] s.clients[j]).id, ControlView::Focus { owner: client }),
        ) by {
            lemma_carried(told, all, tell(s.clients[j].id, ControlView::Focus { owner: client }));
        }
    }
}

proof fn lemma_in_front(told: Seq<ActionView>, all: Seq<ActionView>, a: ActionView)
    requires
        all.len() >= told.len(),
        all.take(told.len() as int) =~= told,
        all.contains(a),
    ensures
        told.contains(a) || exists|k: int| told.len() <= k < all.len() && #[trigger] all[k] == a,
{
    let k = choose|k: int| 0 <= k < all.len() && all[k] == a;
    if k < told.len() {
        assert(all.take(told.len() as int)[k] == all[k]);
        assert(told[k] == a);
    }
}

proof fn lemma_carried(told: Seq<ActionView>, all: Seq<ActionView>, a: ActionView)
    requires
        all.len() >= told.len(),
        all.take(told.len() as int) =~= told,
        told.contains(a),
    ensures
        all.contains(a),
{
    let k = choose|k: int| 0 <= k < told.len() && told[k] == a;
    assert(all.take(told.len() as int)[k] == all[k]);
    assert(all[k] == a);
}

/// Opening a pane that is not there starts a shell of the size asked for, in the directory of the
/// pane named, if that is there. Opening one that is there starts nothing.
pub proof fn opening_starts_one_shell(
    s: SessionView,
    client: u64,
    pane: PaneId,
    cols: u16,
    rows: u16,
    from: Option<PaneId>,
)
    ensures
        ({
            let (after, all) = received(
                s,
                client,
                PacketView::Control(ControlView::Open { pane, cols, rows, cwd_from: from }),
            );
            &&& forall|a: ActionView| #[trigger]
                all.contains(a) && a is Spawn ==> !s.has_pane(pane) && a == all.last()
            &&& !s.has_pane(pane) ==> all.len() > 0 && (all.last() matches ActionView::Spawn {
                opener,
                pane: p,
                cols: c,
                rows: r,
                cwd_from,
            } && opener == client && p == pane && c == cols && r == rows && (cwd_from is Some
                ==> cwd_from == from && s.has_pane(cwd_from->0)) && (from is Some && s.has_pane(
                from->0,
            ) ==> cwd_from == from))
            &&& after.panes == s.panes && after.layout == s.layout && after.notes == s.notes
                && after.clients == s.clients
        }),
{
    let (after, all) = received(
        s,
        client,
        PacketView::Control(ControlView::Open { pane, cols, rows, cwd_from: from }),
    );
    let told = s.focus_change(client);
    assert forall|a: ActionView| #[trigger] all.contains(a) && a is Spawn implies !s.has_pane(pane)
        && a == all.last() by {
        lemma_in_front(told, all, a);
        lemma_focus(s, client, a);
    }
}

/// Closing a pane kills its shell and takes the pane out; every other pane stays as it is. Closing
/// one that is not there kills nothing.
pub proof fn closing_kills_one_shell(s: SessionView, client: u64, pane: PaneId)
    ensures
        ({
            let (after, all) = received(
                s,
                client,
                PacketView::Control(ControlView::Close { pane }),
            );
            &&& !after.has_pane(pane)
            &&& forall|p: PaneView| #[trigger]
                after.panes.contains(p) <==> s.panes.contains(p) && p.id != pane
            &&& forall|a: ActionView| #[trigger]
                all.contains(a) && a is Kill ==> a == (ActionView::Kill { pane }) && s.has_pane(pane)
            &&& s.has_pane(pane) ==> all.len() > 0 && all.last() == (ActionView::Kill { pane })
            &&& after.layout == s.layout && after.notes == s.notes && after.clients == s.clients
        }),
{
    let (after, all) = received(s, client, PacketView::Control(ControlView::Close { pane }));
    let told = s.focus_change(client);
    lemma_dropped(s.panes, pane);
    assert forall|a: ActionView| #[trigger] all.contains(a) && a is Kill implies a == (
    ActionView::Kill { pane }) && s.has_pane(pane) by {
        lemma_in_front(told, all, a);
        lemma_focus(s, client, a);
    }
    if after.has_pane(pane) {
        let i = choose|i: int| 0 <= i < after.panes.len() && #[trigger] after.panes[i].id == pane;
        assert(drop_pane(s.panes, pane)[i].id == pane);
    }
}

proof fn lemma_dropped(panes: Seq<PaneView>, pane: PaneId)
    ensures
        forall|p: PaneView| #[trigger]
            drop_pane(panes, pane).contains(p) <==> panes.contains(p) && p.id != pane,
        forall|i: int|
            0 <= i < drop_pane(panes, pane).len() ==> (#[trigger] drop_pane(panes, pane)[i]).id
                != pane,
{
    seqs::lemma_drop_keeps(panes, |p: PaneView| p.id == pane);
    let d = drop_pane(panes, pane);
    assert forall|p: PaneView| #[trigger] d.contains(p) implies panes.contains(p) && p.id
        != pane by {
        let k = choose|k: int| 0 <= k < d.len() && d[k] == p;
        assert(d[k] == p);
    }
}

/// The focused client's resize gives its pane that size and no other pane anything; the terminal is
/// resized alike.
pub proof fn the_driver_resizes_its_pane(
    s: SessionView,
    client: u64,
    pane: PaneId,
    cols: u16,
    rows: u16,
    i: int,
)
    requires
        s.focus == client,
        0 <= i < s.panes.len(),
    ensures
        ({
            let (after, all) = received(
                s,
                client,
                PacketView::Control(ControlView::Resize { pane, cols, rows }),
            );
            &&& after.panes.len() == s.panes.len()
            &&& s.panes[i].id != pane ==> after.panes[i] == s.panes[i]
            &&& s.panes[i].id == pane ==> after.panes[i] == (PaneView {
                id: pane,
                buffer: s.panes[i].buffer,
                cols,
                rows,
            })
            &&& s.has_pane(pane) ==> all == seq![ActionView::Resize { client, pane, cols, rows }]
            &&& !s.has_pane(pane) ==> all.len() == 0
            &&& after.focus == s.focus && after.layout == s.layout && after.notes == s.notes
                && after.clients == s.clients
        }),
{
    assert(s.panes[i].id == pane ==> s.has_pane(pane));
}

/// The focused client's layout is kept and goes to everyone else.
pub proof fn the_driver_pushes_its_layout(s: SessionView, client: u64, json: Seq<char>)
    requires
        s.focus == client,
    ensures
        ({
            let (after, all) = received(
                s,
                client,
                PacketView::Control(ControlView::LayoutTree { json }),
            );
            &&& after.layout == Some(json)
            &&& after.panes == s.panes && after.focus == s.focus && after.notes == s.notes
                && after.clients == s.clients
            &&& forall|a: ActionView| #[trigger]
                all.contains(a) <==> exists|j: int|
                    0 <= j < s.clients.len() && (#[trigger] s.clients[j]).id != client && a == tell(
                        s.clients[j].id,
                        ControlView::LayoutTree { json },
                    )
        }),
{
    let packet = PacketView::Control(ControlView::LayoutTree { json });
    session::broadcast_reaches_everyone(s.clients, packet, Some(client));
    let all = received(s, client, packet).1;
    assert(all == broadcast(s.clients, packet, Some(client)));
    assert forall|a: ActionView| #[trigger] all.contains(a) implies exists|j: int|
        0 <= j < s.clients.len() && (#[trigger] s.clients[j]).id != client && a == tell(
            s.clients[j].id,
            ControlView::LayoutTree { json },
        ) by {
        let j = choose|j: int|
            0 <= j < s.clients.len() && Some(client) != Some((#[trigger] s.clients[j]).id) && a == (
            ActionView::Send { client: s.clients[j].id, packet });
        assert(s.clients[j].id != client);
    }
    assert forall|a: ActionView|
        (exists|j: int|
            0 <= j < s.clients.len() && (#[trigger] s.clients[j]).id != client && a == tell(
                s.clients[j].id,
                ControlView::LayoutTree { json },
            )) implies #[trigger] all.contains(a) by {
        let j = choose|j: int|
            0 <= j < s.clients.len() && (#[trigger] s.clients[j]).id != client && a == tell(
                s.clients[j].id,
                ControlView::LayoutTree { json },
            );
        assert(Some(client) != Some(s.clients[j].id));
    }
}

/// A shell that runs is a pane of the size asked for, with nothing printed yet, beside all other
/// panes. Its opener learns that it is live, all others adopt it with its size, and all know it.
pub proof fn a_started_shell_is_a_pane(
    s: SessionView,
    opener: u64,
    pane: PaneId,
    cols: u16,
    rows: u16,
)
    ensures
        ({
            let (after, all) = spawned(s, opener, pane, cols, rows);
            &&& after.panes.last() == (PaneView { id: pane, buffer: seq![], cols, rows })
            &&& forall|p: PaneView|
                p.id != pane ==> (#[trigger] after.panes.contains(p) <==> s.panes.contains(p))
            &&& after.clients.len() == s.clients.len()
            &&& forall|j: int|
                0 <= j < s.clients.len() ==> (#[trigger] after.clients[j]).id == s.clients[j].id
                    && after.clients[j].announced == s.clients[j].announced.insert(pane)
            &&& forall|j: int|
                0 <= j < s.clients.len() ==> if (#[trigger] s.clients[j]).id == opener {
                    all.contains(tell(opener, ControlView::Opened { pane }))
                } else {
                    all.contains(tell(s.clients[j].id, ControlView::Restore { pane }))
                        && all.contains(
                        tell(s.clients[j].id, ControlView::Resize { pane, cols, rows }),
                    )
                }
            &&& forall|k: int|
                0 <= k < all.len() ==> (#[trigger] all[k] matches ActionView::Send {
                    client: c,
                    packet: PacketView::Control(m),
                } && (c == opener ==> m == ControlView::Opened { pane }) && (c != opener ==> m == (
                ControlView::Restore { pane }) || m == (ControlView::Resize { pane, cols, rows })))
            &&& after.focus == s.focus && after.layout == s.layout && after.notes == s.notes
        }),
{
    let (after, all) = spawned(s, opener, pane, cols, rows);
    lemma_dropped(s.panes, pane);
    let rest = drop_pane(s.panes, pane);
    assert forall|p: PaneView| p.id != pane implies (#[trigger] after.panes.contains(p)
        <==> s.panes.contains(p)) by {
        if after.panes.contains(p) {
            let k = choose|k: int| 0 <= k < after.panes.len() && after.panes[k] == p;
            assert(rest[k] == p);
            assert(rest.contains(p));
        }
        if s.panes.contains(p) {
            assert(rest.contains(p));
            let k = choose|k: int| 0 <= k < rest.len() && rest[k] == p;
            assert(after.panes[k] == p);
        }
    }
    lemma_announced(s.clients, opener, pane, cols, rows);
}

proof fn lemma_announced(
    clients: Seq<ClientView>,
    opener: u64,
    pane: PaneId,
    cols: u16,
    rows: u16,
)
    ensures
        forall|j: int|
            0 <= j < clients.len() ==> if (#[trigger] clients[j]).id == opener {
                announce(clients, opener, pane, cols, rows).contains(
                    tell(opener, ControlView::Opened { pane }),
                )
            } else {
                announce(clients, opener, pane, cols, rows).contains(
                    tell(clients[j].id, ControlView::Restore { pane }),
                ) && announce(clients, opener, pane, cols, rows).contains(
                    tell(clients[j].id, ControlView::Resize { pane, cols, rows }),
                )
            },
        forall|k: int|
            0 <= k < announce(clients, opener, pane, cols, rows).len() ==> (#[trigger] announce(
                clients,
                opener,
                pane,
                cols,
                rows,
            )[k] matches ActionView::Send { client: c, packet: PacketView::Control(m) } && (c
                == opener ==> m == ControlView::Opened { pane }) && (c != opener ==> m == (
            ControlView::Restore { pane }) || m == (ControlView::Resize { pane, cols, rows }))),
    decreases clients.len(),
{
    let all = announce(clients, opener, pane, cols, rows);
    if clients.len() > 0 {
        let front = clients.drop_last();
        lemma_announced(front, opener, pane, cols, rows);
        let before = announce(front, opener, pane, cols, rows);
        let n = before.len() as int;
        let c = clients.last();
        assert(all.take(n) =~= before);
        assert forall|j: int| 0 <= j < clients.len() implies if (#[trigger] clients[j]).id
            == opener {
            all.contains(tell(opener, ControlView::Opened { pane }))
        } else {
            all.contains(tell(clients[j].id, ControlView::Restore { pane })) && all.contains(
                tell(clients[j].id, ControlView::Resize { pane, cols, rows }),
            )
        } by {
            if j < front.len() {
                assert(front[j] == clients[j]);
                if clients[j].id == opener {
                    lemma_carried(before, all, tell(opener, ControlView::Opened { pane }));
                } else {
                    lemma_carried(
                        before,
                        all,
                        tell(clients[j].id, ControlView::Restore { pane }),
                    );
                    lemma_carried(
                        before,
                        all,
                        tell(clients[j].id, ControlView::Resize { pane, cols, rows }),
                    );
                }
            } else if c.id == opener {
                assert(all[n] == tell(opener, ControlView::Opened { pane }));
            } else {
                assert(all[n] == tell(c.id, ControlView::Restore { pane }));
                assert(all[n + 1] == tell(c.id, ControlView::Resize { pane, cols, rows }));
            }
        }
        assert forall|k: int| 0 <= k < all.len() implies (#[trigger] all[k]
            matches ActionView::Send { client: c, packet: PacketView::Control(m) } && (c == opener
            ==> m == ControlView::Opened { pane }) && (c != opener ==> m == (ControlView::Restore {
            pane,
        }) || m == (ControlView::Resize { pane, cols, rows }))) by {
            if k < n {
                assert(all[k] == before[k]);
            }
        }
    } else {
        assert(all =~= seq![]);
    }
}

/// What a pane prints is kept: all of it behind what was kept before, as long as that is no more
/// than 256 KiB, and else the last 256 KiB of the two. The other panes keep what they had.
pub proof fn output_is_kept(panes: Seq<PaneView>, pane: PaneId, bytes: Seq<u8>, i: int)
    requires
        0 <= i < panes.len(),
    ensures
        ({
            let after = record_output(panes, pane, bytes);
            let whole = panes[i].buffer + bytes;
            let kept = after[i].buffer;
            &&& after.len() == panes.len()
            &&& after[i].id == panes[i].id && after[i].cols == panes[i].cols && after[i].rows
                == panes[i].rows
            &&& panes[i].id != pane ==> after[i] == panes[i]
            &&& panes[i].id == pane && whole.len() <= 262144 ==> kept == whole
            &&& panes[i].id == pane && whole.len() > 262144 ==> kept.len() == 262144 && forall|k:
                int|
                0 <= k < 262144 ==> kept[k] == whole[whole.len() - 262144 + k]
        }),
{
}

/// A pane that exited is gone, everyone hears of it, and the others stay. The daemon ends when
/// nothing is left and nobody is attached.
pub proof fn exited_panes_are_gone(s: SessionView, pane: PaneId)
    ensures
        !s.without_pane(pane).has_pane(pane),
        forall|p: PaneView| #[trigger]
            s.without_pane(pane).panes.contains(p) <==> s.panes.contains(p) && p.id != pane,
        s.without_pane(pane).clients == s.clients,
        s.without_pane(pane).focus == s.focus,
        s.without_pane(pane).layout == s.layout,
        s.without_pane(pane).notes == s.notes,
        s.exit_if_idle().contains(ActionView::Exit) <==> s.panes.len() == 0 && s.clients.len() == 0,
{
    lemma_dropped(s.panes, pane);
    if s.without_pane(pane).has_pane(pane) {
        let v = s.without_pane(pane);
        let i = choose|i: int| 0 <= i < v.panes.len() && #[trigger] v.panes[i].id == pane;
        assert(drop_pane(s.panes, pane)[i].id == pane);
    }
    if s.panes.len() == 0 && s.clients.len() == 0 {
        assert(s.exit_if_idle()[0] == ActionView::Exit);
    }
}

/// A client that attaches is one more, with a number that nobody had, and knows nothing yet.
pub proof fn attaching_adds_a_client(s: SessionView)
    requires
        s.wf(),
        s.next_client < u64::MAX,
    ensures
        ({
            let after = attached(s);
            let c = after.clients.last();
            &&& after.clients.drop_last() == s.clients
            &&& !s.has_client(c.id)
            &&& c.id != 0
            &&& c.announced == Set::<PaneId>::empty()
            &&& after.next_client > s.next_client
            &&& after.panes == s.panes && after.focus == s.focus && after.layout == s.layout
                && after.notes == s.notes
        }),
{
    assert(attached(s).clients.drop_last() =~= s.clients);
}

/// A client that leaves is gone and no other; a focus that it held is nobody's, of which the others
/// hear, and any other focus stays.
pub proof fn leaving_takes_one_client(s: SessionView, client: u64)
    ensures
        ({
            let (after, all) = detached(s, client);
            &&& forall|c: ClientView| #[trigger]
                after.clients.contains(c) <==> s.clients.contains(c) && c.id != client
            &&& s.focus == client ==> after.focus == 0 && forall|j: int|
                0 <= j < after.clients.len() ==> all.contains(
                    tell((#[trigger] after.clients[j]).id, ControlView::Focus { owner: 0 }),
                )
            &&& s.focus != client ==> after.focus == s.focus && forall|a: ActionView| #[trigger]
                all.contains(a) ==> a is Exit
        }),
{
    let (after, all) = detached(s, client);
    seqs::lemma_drop_keeps(s.clients, |c: ClientView| c.id == client);
    assert forall|c: ClientView| #[trigger] after.clients.contains(c) implies s.clients.contains(c)
        && c.id != client by {
        let k = choose|k: int| 0 <= k < after.clients.len() && after.clients[k] == c;
        assert(session::drop_client(s.clients, client)[k] == c);
    }
    let packet = PacketView::Control(ControlView::Focus { owner: 0 });
    session::broadcast_reaches_everyone(after.clients, packet, None);
    if s.focus == client {
        let told = broadcast(after.clients, packet, None);
        assert forall|j: int| 0 <= j < after.clients.len() implies all.contains(
            tell((#[trigger] after.clients[j]).id, ControlView::Focus { owner: 0 }),
        ) by {
            let t = tell(after.clients[j].id, ControlView::Focus { owner: 0 });
            assert(told.contains(t));
            lemma_carried(told, all, t);
        }
    }
}

/// A note goes to every client. A raised one takes the place of what was kept about its session, a
/// clearing one takes that away, and what is kept about other sessions stays. Notes of another
/// version are ignored.
pub proof fn notes_replace_their_own(s: SessionView, n: Note)
    ensures
        ({
            let (after, all) = noted(s, n);
            &&& n.v != 1 ==> after == s && all.len() == 0
            &&& n.v == 1 ==> forall|m: Note|
                m.key() != n.key() ==> (#[trigger] after.notes.contains(m) <==> s.notes.contains(m))
            &&& n.v == 1 ==> forall|j: int|
                0 <= j < s.clients.len() ==> all.contains(
                    ActionView::Send {
                        client: (#[trigger] s.clients[j]).id,
                        packet: PacketView::Note(n),
                    },
                )
            &&& n.v == 1 && n.kind == Kind::Raise ==> after.notes.len() > 0 && after.notes.last()
                == n
            &&& n.v == 1 ==> forall|m: Note|
                m.key() == n.key() && #[trigger] after.notes.contains(m) ==> m == n && (n.kind
                    == Kind::Raise || s.clients.len() == 0)
            &&& n.v == 1 && s.clients.len() == 0 ==> after.notes.contains(n)
            &&& after.panes == s.panes && after.clients == s.clients && after.focus == s.focus
                && after.layout == s.layout
        }),
{
    let (after, all) = noted(s, n);
    let rest = session::drop_note(s.notes, n.key());
    seqs::lemma_drop_keeps(s.notes, |m: Note| m.key() == n.key());
    session::broadcast_reaches_everyone(s.clients, PacketView::Note(n), None);
    if n.v == 1 {
        assert forall|m: Note| m.key() != n.key() implies (#[trigger] after.notes.contains(m)
            <==> s.notes.contains(m)) by {
            if after.notes.contains(m) {
                let k = choose|k: int| 0 <= k < after.notes.len() && after.notes[k] == m;
                assert(rest[k] == m);
                assert(s.notes.contains(rest[k]));
            }
            if s.notes.contains(m) {
                assert(rest.contains(m));
                let k = choose|k: int| 0 <= k < rest.len() && rest[k] == m;
                assert(after.notes[k] == m);
            }
        }
        assert forall|m: Note| m.key() == n.key() && #[trigger] after.notes.contains(m) implies m
            == n && (n.kind == Kind::Raise || s.clients.len() == 0) by {
            let k = choose|k: int| 0 <= k < after.notes.len() && after.notes[k] == m;
            if k < rest.len() {
                assert(rest[k] == m);
            }
        }
        if s.clients.len() == 0 {
            assert(after.notes[rest.len() as int] == n);
        }
    }
}

/// What the daemon tells is what its parts say: a shell that could not start is told to its opener
/// alone, and a new size to everyone but who asked for it.
pub proof fn answers_go_where_they_belong(
    s: Session,
    client: u64,
    pane: PaneId,
    cols: u16,
    rows: u16,
    failed: Vec<Action>,
    sized: Vec<Action>,
)
    requires
        call_ensures(Session::spawn_failed, (&s, client, pane), failed),
        call_ensures(Session::resized, (&s, client, pane, cols, rows, true), sized),
    ensures
        s@.has_client(client) ==> views(failed@) == seq![
            tell(client, ControlView::Exited { pane }),
        ],
        !s@.has_client(client) ==> failed@.len() == 0,
        forall|a: ActionView| #[trigger]
            views(sized@).contains(a) <==> exists|j: int|
                0 <= j < s@.clients.len() && Some(client) != Some((#[trigger] s@.clients[j]).id) && a
                    == tell(s@.clients[j].id, ControlView::Resize { pane, cols, rows }),
{
    let packet = PacketView::Control(ControlView::Resize { pane, cols, rows });
    session::broadcast_reaches_everyone(s@.clients, packet, Some(client));
    assert(views(failed@).len() == failed@.len());
}

} // verus!
