//! The session daemon: panes that outlive any client connection, and the clients attached to them.
//!
//! Any number of clients may be attached at once. Pane output is broadcast to all of them, and
//! focus follows input: whoever last typed, opened or closed a pane drives the layout and the pane
//! sizes. The daemon is a machine from events to actions; sockets and pseudo-terminals are driven
//! by the program around it, which performs the actions in order and reports back what came of
//! them.

use crate::notify::{Kind, Note, SCHEMA_VERSION};
use crate::proto::{Control, ControlView, PaneId, PROTOCOL_VERSION};
use crate::seqs;
use crate::text::push_bytes;
use vstd::prelude::*;
use vstd::slice::*;
use vstd::string::*;

verus! {

/// How much recent output to keep per pane for replay on reattach: enough for the current screen
/// plus some scrollback, bounded so that a chatty pane cannot grow without limit.
pub const REPLAY_CAP: usize = 256 * 1024;

/// What travels to a client or comes from one.
#[derive(Debug, PartialEq, Eq)]
pub enum Packet {
    Control(Control),
    Data { pane: PaneId, bytes: Vec<u8> },
    /// A feed note, on the wire as the JSON of a `Notify` message.
    Note(Note),
}

/// What the daemon asks of the program around it.
#[derive(Debug, PartialEq, Eq)]
pub enum Action {
    Send { client: u64, packet: Packet },
    /// Start a shell for a new pane, in the directory of pane `cwd_from` if one is named. Answered
    /// by `spawned` or `spawn_failed`.
    Spawn { opener: u64, pane: PaneId, cols: u16, rows: u16, cwd_from: Option<PaneId> },
    /// Resize a pane's terminal. Answered by `resized`.
    Resize { client: u64, pane: PaneId, cols: u16, rows: u16 },
    /// Kill the shell of a closed pane.
    Kill { pane: PaneId },
    /// Write input to a pane's terminal.
    Write { pane: PaneId, bytes: Vec<u8> },
    /// Nothing is left to persist and nobody is attached: remove the sockets and exit.
    Exit,
}

struct Pane {
    id: PaneId,
    /// Recent raw output, at most `REPLAY_CAP` bytes.
    buffer: Vec<u8>,
    cols: u16,
    rows: u16,
}

struct Client {
    id: u64,
    /// Panes this client has been told about.
    announced: Vec<PaneId>,
}

/// The state of the daemon.
pub struct Session {
    panes: Vec<Pane>,
    clients: Vec<Client>,
    next_client: u64,
    /// The client whose layout pushes and resizes are authoritative; 0 is nobody.
    focus: u64,
    /// The focused client's last-pushed tab and pane tree.
    layout: Option<String>,
    /// Attention notes to replay on the next attach.
    notes: Vec<Note>,
}

#[verifier::ext_equal]
pub enum PacketView {
    Control(ControlView),
    Data { pane: PaneId, bytes: Seq<u8> },
    Note(Note),
}

#[verifier::ext_equal]
pub enum ActionView {
    Send { client: u64, packet: PacketView },
    Spawn { opener: u64, pane: PaneId, cols: u16, rows: u16, cwd_from: Option<PaneId> },
    Resize { client: u64, pane: PaneId, cols: u16, rows: u16 },
    Kill { pane: PaneId },
    Write { pane: PaneId, bytes: Seq<u8> },
    Exit,
}

#[verifier::ext_equal]
pub struct PaneView {
    pub id: PaneId,
    pub buffer: Seq<u8>,
    pub cols: u16,
    pub rows: u16,
}

#[verifier::ext_equal]
pub struct ClientView {
    pub id: u64,
    pub announced: Set<PaneId>,
}

#[verifier::ext_equal]
pub struct SessionView {
    pub panes: Seq<PaneView>,
    pub clients: Seq<ClientView>,
    pub next_client: u64,
    pub focus: u64,
    pub layout: Option<Seq<char>>,
    pub notes: Seq<Note>,
}

impl View for Packet {
    type V = PacketView;

    open spec fn view(&self) -> PacketView {
        match *self {
            Packet::Control(c) => PacketView::Control(c@),
            Packet::Data { pane, bytes } => PacketView::Data { pane, bytes: bytes@ },
            Packet::Note(n) => PacketView::Note(n),
        }
    }
}

impl View for Action {
    type V = ActionView;

    open spec fn view(&self) -> ActionView {
        match *self {
            Action::Send { client, packet } => ActionView::Send { client, packet: packet@ },
            Action::Spawn { opener, pane, cols, rows, cwd_from } => ActionView::Spawn {
                opener,
                pane,
                cols,
                rows,
                cwd_from,
            },
            Action::Resize { client, pane, cols, rows } => ActionView::Resize {
                client,
                pane,
                cols,
                rows,
            },
            Action::Kill { pane } => ActionView::Kill { pane },
            Action::Write { pane, bytes } => ActionView::Write { pane, bytes: bytes@ },
            Action::Exit => ActionView::Exit,
        }
    }
}

impl View for Pane {
    type V = PaneView;

    closed spec fn view(&self) -> PaneView {
        PaneView { id: self.id, buffer: self.buffer@, cols: self.cols, rows: self.rows }
    }
}

impl View for Client {
    type V = ClientView;

    closed spec fn view(&self) -> ClientView {
        ClientView { id: self.id, announced: self.announced@.to_set() }
    }
}

impl View for Session {
    type V = SessionView;

    closed spec fn view(&self) -> SessionView {
        SessionView {
            panes: self.panes@.map_values(|p: Pane| p@),
            clients: self.clients@.map_values(|c: Client| c@),
            next_client: self.next_client,
            focus: self.focus,
            layout: match self.layout {
                Some(json) => Some(json@),
                None => None,
            },
            notes: self.notes@,
        }
    }
}

/// A list of actions as what they say.
pub open spec fn views(actions: Seq<Action>) -> Seq<ActionView> {
    actions.map_values(|a: Action| a@)
}

/// A message to one client.
pub open spec fn tell(client: u64, c: ControlView) -> ActionView {
    ActionView::Send { client, packet: PacketView::Control(c) }
}

/// The actions that each client calls for, in the order of the clients.
pub open spec fn each_client(
    clients: Seq<ClientView>,
    f: spec_fn(ClientView) -> Seq<ActionView>,
) -> Seq<ActionView>
    decreases clients.len(),
{
    if clients.len() == 0 {
        seq![]
    } else {
        each_client(clients.drop_last(), f) + f(clients.last())
    }
}

/// A packet to every attached client except one (the originator, if any).
pub open spec fn broadcast(
    clients: Seq<ClientView>,
    packet: PacketView,
    except: Option<u64>,
) -> Seq<ActionView> {
    each_client(
        clients,
        |c: ClientView|
            if except == Some(c.id) {
                seq![]
            } else {
                seq![ActionView::Send { client: c.id, packet }]
            },
    )
}

/// Pane output, to the clients that know the pane only: a client never sees output of a pane
/// before the announcement that carries the replay.
pub open spec fn broadcast_data(
    clients: Seq<ClientView>,
    pane: PaneId,
    bytes: Seq<u8>,
) -> Seq<ActionView> {
    each_client(
        clients,
        |c: ClientView|
            if c.announced.contains(pane) {
                seq![ActionView::Send { client: c.id, packet: PacketView::Data { pane, bytes } }]
            } else {
                seq![]
            },
    )
}

/// A new pane: its opener learns that it is live, everyone else adopts it with its size.
pub open spec fn announce(
    clients: Seq<ClientView>,
    opener: u64,
    pane: PaneId,
    cols: u16,
    rows: u16,
) -> Seq<ActionView> {
    each_client(
        clients,
        |c: ClientView|
            if c.id == opener {
                seq![tell(c.id, ControlView::Opened { pane })]
            } else {
                seq![
                    tell(c.id, ControlView::Restore { pane }),
                    tell(c.id, ControlView::Resize { pane, cols, rows }),
                ]
            },
    )
}

/// The replay of existing panes to a client that attaches: for each the announcement, its size and
/// what is on its screen.
pub open spec fn restores(panes: Seq<PaneView>, client: u64) -> Seq<ActionView>
    decreases panes.len(),
{
    if panes.len() == 0 {
        seq![]
    } else {
        let p = panes.last();
        restores(panes.drop_last(), client) + seq![
            tell(client, ControlView::Restore { pane: p.id }),
            tell(client, ControlView::Resize { pane: p.id, cols: p.cols, rows: p.rows }),
        ] + if p.buffer.len() == 0 {
            seq![]
        } else {
            seq![
                ActionView::Send {
                    client,
                    packet: PacketView::Data { pane: p.id, bytes: p.buffer },
                },
            ]
        }
    }
}

/// Every note, to one client.
pub open spec fn note_replay(notes: Seq<Note>, client: u64) -> Seq<ActionView> {
    notes.map_values(|n: Note| ActionView::Send { client, packet: PacketView::Note(n) })
}

/// The notes that raise attention.
pub open spec fn raised(notes: Seq<Note>) -> Seq<Note> {
    seqs::drop_where(notes, |n: Note| n.kind != Kind::Raise)
}

impl SessionView {
    pub open spec fn has_client(self, client: u64) -> bool {
        exists|i: int| 0 <= i < self.clients.len() && #[trigger] self.clients[i].id == client
    }

    pub open spec fn has_pane(self, pane: PaneId) -> bool {
        exists|i: int| 0 <= i < self.panes.len() && #[trigger] self.panes[i].id == pane
    }

    /// The daemon's invariant: no client, pane or note occurs twice, ids were handed out before,
    /// focus is with an attached client or with nobody, and replay buffers are bounded.
    pub open spec fn wf(self) -> bool {
        &&& forall|i: int, j: int|
            0 <= i < j < self.clients.len() ==> (#[trigger] self.clients[i]).id != (
            #[trigger] self.clients[j]).id
        &&& forall|i: int|
            0 <= i < self.clients.len() ==> 0 < (#[trigger] self.clients[i]).id < self.next_client
        &&& forall|i: int, j: int|
            0 <= i < j < self.panes.len() ==> (#[trigger] self.panes[i]).id != (
            #[trigger] self.panes[j]).id
        &&& forall|i: int|
            0 <= i < self.panes.len() ==> (#[trigger] self.panes[i]).buffer.len() <= REPLAY_CAP
        &&& forall|i: int, j: int|
            0 <= i < j < self.notes.len() ==> (#[trigger] self.notes[i]).key() != (
            #[trigger] self.notes[j]).key()
        &&& self.focus == 0 || self.has_client(self.focus)
        &&& self.next_client > 0
    }

    /// Nothing to persist and nobody attached.
    pub open spec fn idle(self) -> bool {
        self.panes.len() == 0 && self.clients.len() == 0
    }

    pub open spec fn exit_if_idle(self) -> Seq<ActionView> {
        if self.idle() {
            seq![ActionView::Exit]
        } else {
            seq![]
        }
    }

    /// The state without the given pane.
    pub open spec fn without_pane(self, pane: PaneId) -> SessionView {
        SessionView { panes: drop_pane(self.panes, pane), ..self }
    }

    /// `client` typed, opened or closed something: it holds the focus now.
    pub open spec fn with_focus(self, client: u64) -> SessionView {
        SessionView { focus: client, ..self }
    }

    /// Everyone learns of a change of focus.
    pub open spec fn focus_change(self, client: u64) -> Seq<ActionView> {
        if self.focus == client {
            seq![]
        } else {
            broadcast(
                self.clients,
                PacketView::Control(ControlView::Focus { owner: client }),
                None,
            )
        }
    }

    /// Every client knows the pane now.
    pub open spec fn all_know(self, pane: PaneId) -> Seq<ClientView> {
        self.clients.map_values(
            |c: ClientView| ClientView { id: c.id, announced: c.announced.insert(pane) },
        )
    }

    /// One client knows every existing pane now.
    pub open spec fn knows_all(self, client: u64) -> Seq<ClientView> {
        self.clients.map_values(
            |c: ClientView|
                if c.id == client {
                    ClientView {
                        id: c.id,
                        announced: c.announced.union(pane_ids(self.panes).to_set()),
                    }
                } else {
                    c
                },
        )
    }
}

/// A pane with the given size.
pub open spec fn resize_pane(
    panes: Seq<PaneView>,
    pane: PaneId,
    cols: u16,
    rows: u16,
) -> Seq<PaneView> {
    panes.map_values(
        |p: PaneView|
            if p.id == pane {
                PaneView { cols, rows, ..p }
            } else {
                p
            },
    )
}

/// Output of a pane, kept for replay.
pub open spec fn record_output(
    panes: Seq<PaneView>,
    pane: PaneId,
    bytes: Seq<u8>,
) -> Seq<PaneView> {
    panes.map_values(
        |p: PaneView|
            if p.id == pane {
                PaneView { buffer: seqs::tail(p.buffer + bytes, REPLAY_CAP as nat), ..p }
            } else {
                p
            },
    )
}

/// A connection is accepted: the next id is its own.
pub open spec fn attached(s: SessionView) -> SessionView {
    SessionView {
        clients: s.clients.push(ClientView { id: s.next_client, announced: Set::empty() }),
        next_client: (s.next_client + 1) as u64,
        ..s
    }
}

/// A connection is gone. If it held the focus, nobody owns the layout until the next input.
pub open spec fn detached(s: SessionView, client: u64) -> (SessionView, Seq<ActionView>) {
    let left = SessionView { clients: drop_client(s.clients, client), ..s };
    let after = SessionView {
        focus: if s.focus == client {
            0
        } else {
            s.focus
        },
        ..left
    };
    (
        after,
        if s.focus == client {
            broadcast(
                left.clients,
                PacketView::Control(ControlView::Focus { owner: 0 }),
                None,
            )
        } else {
            seq![]
        } + after.exit_if_idle(),
    )
}

/// The attach handshake: greet, tell who holds the focus (the newcomer claims it if nobody does),
/// replay every existing pane, the stored layout and the notes, and say that the replay is over.
pub open spec fn greeted(s: SessionView, client: u64) -> (SessionView, Seq<ActionView>) {
    let owner = if s.focus == 0 {
        client
    } else {
        s.focus
    };
    (
        SessionView {
            focus: owner,
            clients: s.knows_all(client),
            notes: raised(s.notes),
            ..s
        },
        seq![tell(client, ControlView::Welcome { version: PROTOCOL_VERSION, client })] + broadcast(
            s.clients,
            PacketView::Control(ControlView::Focus { owner }),
            None,
        ) + restores(s.panes, client) + match s.layout {
            Some(json) => seq![tell(client, ControlView::LayoutTree { json })],
            None => seq![],
        } + note_replay(s.notes, client) + seq![tell(client, ControlView::Ready)],
    )
}

/// What a packet from an attached client does.
///
/// Input, opening and closing give the sender the focus. Layout pushes and resizes are honoured
/// from the focused client only: from a follower they are stale echoes of another window's size.
pub open spec fn received(s: SessionView, client: u64, packet: PacketView) -> (
    SessionView,
    Seq<ActionView>,
) {
    let claimed = s.with_focus(client);
    match packet {
        PacketView::Control(ControlView::Hello { .. }) => greeted(s, client),
        PacketView::Control(ControlView::LayoutTree { json }) => {
            if s.focus == client {
                (
                    SessionView { layout: Some(json), ..s },
                    broadcast(
                        s.clients,
                        PacketView::Control(ControlView::LayoutTree { json }),
                        Some(client),
                    ),
                )
            } else {
                (s, seq![])
            }
        },
        PacketView::Control(ControlView::Open { pane, cols, rows, cwd_from }) => (
            claimed,
            s.focus_change(client) + if s.has_pane(pane) {
                seq![]
            } else {
                seq![
                    ActionView::Spawn {
                        opener: client,
                        pane,
                        cols,
                        rows,
                        cwd_from: match cwd_from {
                            Some(from) if s.has_pane(from) => Some(from),
                            _ => None,
                        },
                    },
                ]
            },
        ),
        PacketView::Control(ControlView::Resize { pane, cols, rows }) => {
            if s.focus == client && s.has_pane(pane) {
                (
                    SessionView { panes: resize_pane(s.panes, pane, cols, rows), ..s },
                    seq![ActionView::Resize { client, pane, cols, rows }],
                )
            } else {
                (s, seq![])
            }
        },
        PacketView::Control(ControlView::Close { pane }) => (
            claimed.without_pane(pane),
            s.focus_change(client) + if s.has_pane(pane) {
                seq![ActionView::Kill { pane }]
            } else {
                seq![]
            },
        ),
        PacketView::Data { pane, bytes } => (
            claimed,
            s.focus_change(client) + if s.has_pane(pane) {
                seq![ActionView::Write { pane, bytes }]
            } else {
                seq![]
            },
        ),
        PacketView::Note(n) => {
            if n.v == SCHEMA_VERSION && n.kind == Kind::Clear {
                (SessionView { notes: drop_note(s.notes, n.key()), ..s }, seq![])
            } else {
                (s, seq![])
            }
        },
        PacketView::Control(_) => (s, seq![]),
    }
}

/// A pane's shell is running: everyone learns of the pane before its first output.
pub open spec fn spawned(
    s: SessionView,
    opener: u64,
    pane: PaneId,
    cols: u16,
    rows: u16,
) -> (SessionView, Seq<ActionView>) {
    (
        SessionView {
            panes: drop_pane(s.panes, pane).push(
                PaneView { id: pane, buffer: seq![], cols, rows },
            ),
            clients: s.all_know(pane),
            ..s
        },
        announce(s.clients, opener, pane, cols, rows),
    )
}

/// A note arrives from a local helper. It goes to every client. A raised one is kept for those who
/// attach later; one that clears takes the kept one away, or, with nobody attached, takes its
/// place, so that the next client learns of it.
pub open spec fn noted(s: SessionView, n: Note) -> (SessionView, Seq<ActionView>) {
    if n.v != SCHEMA_VERSION {
        (s, seq![])
    } else {
        let rest = drop_note(s.notes, n.key());
        (
            SessionView {
                notes: if n.kind == Kind::Raise || s.clients.len() == 0 {
                    rest.push(n)
                } else {
                    rest
                },
                ..s
            },
            broadcast(s.clients, PacketView::Note(n), None),
        )
    }
}

pub open spec fn pane_ids(panes: Seq<PaneView>) -> Seq<PaneId> {
    panes.map_values(|p: PaneView| p.id)
}

/// The panes other than the given one.
pub open spec fn drop_pane(panes: Seq<PaneView>, pane: PaneId) -> Seq<PaneView> {
    seqs::drop_where(panes, |p: PaneView| p.id == pane)
}

/// The clients other than the given one.
pub open spec fn drop_client(clients: Seq<ClientView>, client: u64) -> Seq<ClientView> {
    seqs::drop_where(clients, |c: ClientView| c.id == client)
}

/// The notes about sessions other than the given one.
pub open spec fn drop_note(notes: Seq<Note>, key: (Seq<char>, Seq<char>)) -> Seq<Note> {
    seqs::drop_where(notes, |n: Note| n.key() == key)
}

impl Packet {
    fn copy(&self) -> (p: Packet)
        ensures
            p@ == self@,
    {
        match self {
            Packet::Control(c) => Packet::Control(c.clone()),
            Packet::Data { pane, bytes } => Packet::Data {
                pane: *pane,
                bytes: slice_to_vec(bytes.as_slice()),
            },
            Packet::Note(n) => Packet::Note(n.clone()),
        }
    }
}

fn send(out: &mut Vec<Action>, client: u64, c: Control)
    ensures
        views(final(out)@) == views(old(out)@).push(tell(client, c@)),
{
    out.push(Action::Send { client, packet: Packet::Control(c) });
    assert(views(out@) =~= views(old(out)@).push(tell(client, c@)));
}

impl Client {
    fn knows(&self, pane: PaneId) -> (b: bool)
        ensures
            b == self@.announced.contains(pane),
    {
        let mut i: usize = 0;
        while i < self.announced.len()
            invariant
                i <= self.announced.len(),
                forall|k: int| 0 <= k < i ==> self.announced@[k] != pane,
            decreases self.announced.len() - i,
        {
            if self.announced[i] == pane {
                assert(self.announced@.contains(pane));
                return true;
            }
            i = i + 1;
        }
        assert(!self.announced@.contains(pane));
        false
    }

    fn learn(&mut self, pane: PaneId)
        ensures
            final(self)@ == (ClientView {
                id: old(self)@.id,
                announced: old(self)@.announced.insert(pane),
            }),
    {
        if !self.knows(pane) {
            let ghost before = self.announced@;
            self.announced.push(pane);
            assert(self.announced@.to_set() =~= before.to_set().insert(pane)) by {
                assert forall|x: PaneId| before.contains(x) || x == pane implies
                    self.announced@.contains(x) by {
                    if x == pane {
                        assert(self.announced@[before.len() as int] == x);
                    } else {
                        let k = choose|k: int| 0 <= k < before.len() && before[k] == x;
                        assert(self.announced@[k] == x);
                    }
                }
            }
        } else {
            assert(self@.announced.insert(pane) =~= self@.announced);
        }
    }
}

impl Session {
    /// A daemon with no panes and no clients.
    pub fn new() -> (s: Session)
        ensures
            s@ == (SessionView {
                panes: seq![],
                clients: seq![],
                next_client: 1,
                focus: 0,
                layout: None,
                notes: seq![],
            }),
            s@.wf(),
    {
        let s = Session {
            panes: Vec::new(),
            clients: Vec::new(),
            next_client: 1,
            focus: 0,
            layout: None,
            notes: Vec::new(),
        };
        assert(s@.panes =~= seq![]);
        assert(s@.clients =~= seq![]);
        assert(s@.notes =~= seq![]);
        s
    }

    fn broadcast(&self, out: &mut Vec<Action>, packet: &Packet, except: Option<u64>)
        ensures
            views(final(out)@) == views(old(out)@) + broadcast(self@.clients, packet@, except),
    {
        let mut i: usize = 0;
        assert(self@.clients.take(0) =~= seq![]);
        assert(views(out@) + Seq::<ActionView>::empty() =~= views(out@));
        while i < self.clients.len()
            invariant
                i <= self.clients.len(),
                views(out@) == views(old(out)@) + broadcast(
                    self@.clients.take(i as int),
                    packet@,
                    except,
                ),
            decreases self.clients.len() - i,
        {
            let ghost before = out@;
            let id: u64 = self.clients[i].id;
            let skip: bool = match except {
                Some(e) => e == id,
                None => false,
            };
            if !skip {
                out.push(Action::Send { client: id, packet: packet.copy() });
                assert(views(out@) =~= views(before).push(
                    ActionView::Send { client: id, packet: packet@ },
                ));
            }
            i = i + 1;
            proof {
                let cs = self@.clients.take(i as int);
                assert(cs.drop_last() =~= self@.clients.take(i - 1));
                assert(cs.last() == self.clients@[i - 1]@);
                assert(views(out@) =~= views(old(out)@) + broadcast(cs, packet@, except));
            }
        }
        assert(self@.clients.take(i as int) =~= self@.clients);
    }

    fn client_at(&self, client: u64) -> (r: Option<usize>)
        ensures
            match r {
                Some(i) => i < self@.clients.len() && self@.clients[i as int].id == client,
                None => !self@.has_client(client),
            },
    {
        let mut i: usize = 0;
        while i < self.clients.len()
            invariant
                i <= self.clients.len(),
                forall|k: int| 0 <= k < i ==> (#[trigger] self@.clients[k]).id != client,
            decreases self.clients.len() - i,
        {
            if self.clients[i].id == client {
                return Some(i);
            }
            assert(self@.clients[i as int] == self.clients@[i as int]@);
            i = i + 1;
        }
        None
    }

    fn pane_at(&self, pane: PaneId) -> (r: Option<usize>)
        ensures
            match r {
                Some(i) => i < self@.panes.len() && self@.panes[i as int].id == pane,
                None => !self@.has_pane(pane),
            },
    {
        let mut i: usize = 0;
        while i < self.panes.len()
            invariant
                i <= self.panes.len(),
                forall|k: int| 0 <= k < i ==> (#[trigger] self@.panes[k]).id != pane,
            decreases self.panes.len() - i,
        {
            if self.panes[i].id == pane {
                return Some(i);
            }
            assert(self@.panes[i as int] == self.panes@[i as int]@);
            i = i + 1;
        }
        None
    }

    fn remove_pane(&mut self, pane: PaneId)
        requires
            old(self)@.wf(),
        ensures
            final(self)@ == old(self)@.without_pane(pane),
            final(self)@.wf(),
            !final(self)@.has_pane(pane),
    {
        match self.pane_at(pane) {
            Some(i) => {
                let ghost before = self@;
                self.panes.remove(i);
                assert(self@.panes =~= before.panes.remove(i as int));
                proof {
                    seqs::lemma_drop_one(before.panes, |p: PaneView| p.id == pane, i as int);
                    assert(self@.clients =~= before.clients);
                    assert(self@.focus == 0 || self@.has_client(self@.focus)) by {
                        if self@.focus != 0 {
                            let k = choose|k: int|
                                0 <= k < before.clients.len() && (
                                #[trigger] before.clients[k]).id == before.focus;
                            assert(self@.clients[k].id == self@.focus);
                        }
                    }
                }
            },
            None => {
                proof {
                    seqs::lemma_drop_absent(self@.panes, |p: PaneView| p.id == pane);
                }
            },
        }
    }

    fn forget_note(&mut self, note: &Note)
        requires
            old(self)@.wf(),
        ensures
            final(self)@ == (SessionView {
                notes: drop_note(old(self)@.notes, note.key()),
                ..old(self)@
            }),
            final(self)@.wf(),
            forall|i: int|
                0 <= i < final(self)@.notes.len() ==> (#[trigger] final(self)@.notes[i]).key()
                    != note.key(),
    {
        let ghost before = self@;
        let mut i: usize = 0;
        while i < self.notes.len() && !self.notes[i].is_about(&note.host, &note.session)
            invariant
                i <= self.notes.len(),
                self@ == before,
                forall|k: int| 0 <= k < i ==> (#[trigger] self@.notes[k]).key() != note.key(),
            decreases self.notes.len() - i,
        {
            i = i + 1;
        }
        if i < self.notes.len() {
            self.notes.remove(i);
            proof {
                assert(before.notes[i as int].key() == note.key());
                seqs::lemma_drop_one(before.notes, |n: Note| n.key() == note.key(), i as int);
                assert(self@.panes =~= before.panes);
                assert(self@.clients =~= before.clients);
                assert(self@.notes =~= before.notes.remove(i as int));
                lemma_notes_unique(before.notes, i as int);
            }
        } else {
            proof {
                seqs::lemma_drop_absent(before.notes, |n: Note| n.key() == note.key());
            }
        }
    }

    fn take_focus(&mut self, out: &mut Vec<Action>, client: u64)
        requires
            old(self)@.wf(),
            old(self)@.has_client(client),
        ensures
            final(self)@ == old(self)@.with_focus(client),
            final(self)@.wf(),
            views(final(out)@) == views(old(out)@) + old(self)@.focus_change(client),
    {
        if self.focus != client {
            self.focus = client;
            assert(self@ =~= old(self)@.with_focus(client));
            let packet = Packet::Control(Control::Focus { owner: client });
            self.broadcast(out, &packet, None);
        } else {
            assert(views(out@) + Seq::<ActionView>::empty() =~= views(out@));
        }
    }

    /// Whether one more client can be numbered.
    pub fn can_attach(&self) -> (b: bool)
        ensures
            b == (self@.next_client < u64::MAX),
    {
        self.next_client < u64::MAX
    }

    /// Whether a client is attached.
    pub fn is_attached(&self, client: u64) -> (b: bool)
        ensures
            b == self@.has_client(client),
    {
        self.client_at(client).is_some()
    }

    /// A connection is accepted. Returns the id it is known by from now on.
    pub fn attach(&mut self) -> (id: u64)
        requires
            old(self)@.wf(),
            old(self)@.next_client < u64::MAX,
        ensures
            id == old(self)@.next_client,
            final(self)@ == attached(old(self)@),
            final(self)@.wf(),
            final(self)@.has_client(id),
    {
        let id: u64 = self.next_client;
        self.next_client = id + 1;
        let ghost before = self@;
        let client = Client { id, announced: Vec::new() };
        assert(client@.announced =~= Set::empty());
        self.clients.push(client);
        proof {
            assert(self@.clients =~= before.clients.push(client@));
            assert(self@.clients[before.clients.len() as int].id == id);
            lemma_clients_carry_focus(before.clients, self@.clients, self@);
        }
        id
    }

    /// A connection is gone.
    pub fn detach(&mut self, client: u64) -> (out: Vec<Action>)
        requires
            old(self)@.wf(),
            old(self)@.has_client(client),
        ensures
            (final(self)@, views(out@)) == detached(old(self)@, client),
            final(self)@.wf(),
    {
        let mut out: Vec<Action> = Vec::new();
        let ghost before = self@;
        assert(views(out@) =~= seq![]);
        match self.client_at(client) {
            Some(i) => {
                self.clients.remove(i);
                proof {
                    assert(self@.clients =~= before.clients.remove(i as int));
                    seqs::lemma_drop_one(before.clients, |c: ClientView| c.id == client, i as int);
                }
            },
            None => {},
        }
        let ghost left = self@;
        assert(left.panes =~= before.panes);
        if self.focus == client {
            self.focus = 0;
            assert(self@.clients =~= left.clients);
            let packet = Packet::Control(Control::Focus { owner: 0 });
            self.broadcast(&mut out, &packet, None);
        } else {
            proof {
                if self@.focus != 0 {
                    let k = choose|k: int|
                        0 <= k < before.clients.len() && (#[trigger] before.clients[k]).id
                            == before.focus;
                    seqs::lemma_drop_keeps(before.clients, |c: ClientView| c.id == client);
                    assert(before.clients.contains(before.clients[k]));
                    assert(left.clients.contains(before.clients[k]));
                }
            }
        }
        self.exit_if_idle(&mut out);
        assert(views(out@) =~= detached(before, client).1);
        out
    }

    fn exit_if_idle(&self, out: &mut Vec<Action>)
        ensures
            views(final(out)@) == views(old(out)@) + self@.exit_if_idle(),
    {
        if self.panes.len() == 0 && self.clients.len() == 0 {
            out.push(Action::Exit);
        }
        assert(views(out@) =~= views(old(out)@) + self@.exit_if_idle());
    }

    fn restore_to(&self, out: &mut Vec<Action>, client: u64)
        ensures
            views(final(out)@) == views(old(out)@) + restores(self@.panes, client),
    {
        let mut i: usize = 0;
        assert(self@.panes.take(0) =~= seq![]);
        assert(views(out@) + Seq::<ActionView>::empty() =~= views(out@));
        while i < self.panes.len()
            invariant
                i <= self.panes.len(),
                views(out@) == views(old(out)@) + restores(self@.panes.take(i as int), client),
            decreases self.panes.len() - i,
        {
            let ghost before = views(out@);
            let p = &self.panes[i];
            send(out, client, Control::Restore { pane: p.id });
            send(out, client, Control::Resize { pane: p.id, cols: p.cols, rows: p.rows });
            if p.buffer.len() > 0 {
                let ghost two = views(out@);
                let bytes = slice_to_vec(p.buffer.as_slice());
                out.push(Action::Send { client, packet: Packet::Data { pane: p.id, bytes } });
                assert(views(out@) =~= two.push(
                    ActionView::Send {
                        client,
                        packet: PacketView::Data { pane: p@.id, bytes: p@.buffer },
                    },
                ));
            }
            i = i + 1;
            proof {
                let ps = self@.panes.take(i as int);
                assert(ps.drop_last() =~= self@.panes.take(i - 1));
                assert(ps.last() == self.panes@[i - 1]@);
                assert(views(out@) =~= views(old(out)@) + restores(ps, client));
            }
        }
        assert(self@.panes.take(i as int) =~= self@.panes);
    }

    fn replay_notes(&mut self, out: &mut Vec<Action>, client: u64)
        requires
            old(self)@.wf(),
        ensures
            final(self)@ == (SessionView { notes: raised(old(self)@.notes), ..old(self)@ }),
            final(self)@.wf(),
            views(final(out)@) == views(old(out)@) + note_replay(old(self)@.notes, client),
    {
        let ghost before = self@;
        let mut kept: Vec<Note> = Vec::new();
        let mut i: usize = 0;
        assert(before.notes.take(0) =~= seq![]);
        assert(views(out@) =~= views(old(out)@) + note_replay(before.notes.take(0), client));
        while i < self.notes.len()
            invariant
                self@ == before,
                before.wf(),
                i <= self.notes.len(),
                views(out@) == views(old(out)@) + note_replay(before.notes.take(i as int), client),
                kept@ == raised(before.notes.take(i as int)),
                forall|a: int, b: int|
                    0 <= a < b < kept@.len() ==> (#[trigger] kept@[a]).key() != (
                    #[trigger] kept@[b]).key(),
                forall|a: int, b: int|
                    0 <= a < kept@.len() && i <= b < before.notes.len() ==> (
                    #[trigger] kept@[a]).key() != (#[trigger] before.notes[b]).key(),
            decreases self.notes.len() - i,
        {
            let ghost sent = views(out@);
            let n = &self.notes[i];
            out.push(Action::Send { client, packet: Packet::Note(n.clone()) });
            if n.kind == Kind::Raise {
                kept.push(n.clone());
            }
            i = i + 1;
            proof {
                let ns = before.notes.take(i as int);
                let last = before.notes[i - 1];
                let copy = ActionView::Send { client, packet: PacketView::Note(last) };
                assert(ns.drop_last() =~= before.notes.take(i - 1));
                assert(views(out@) =~= sent.push(copy));
                assert(note_replay(ns, client) =~= note_replay(ns.drop_last(), client).push(copy));
                assert(views(out@) =~= views(old(out)@) + note_replay(ns, client));
            }
        }
        assert(before.notes.take(i as int) =~= before.notes);
        self.notes = kept;
        proof {
            assert(self@.panes =~= before.panes);
            assert(self@.clients =~= before.clients);
        }
    }

    fn greet(&mut self, out: &mut Vec<Action>, client: u64)
        requires
            old(self)@.wf(),
            old(self)@.has_client(client),
            old(out)@.len() == 0,
        ensures
            (final(self)@, views(final(out)@)) == greeted(old(self)@, client),
            final(self)@.wf(),
    {
        let ghost before = self@;
        send(out, client, Control::Welcome { version: PROTOCOL_VERSION, client });
        if self.focus == 0 {
            self.focus = client;
        }
        assert(self@.clients =~= before.clients);
        assert(self@.panes =~= before.panes);
        let packet = Packet::Control(Control::Focus { owner: self.focus });
        self.broadcast(out, &packet, None);
        self.restore_to(out, client);
        match &self.layout {
            Some(json) => {
                send(out, client, Control::LayoutTree { json: json.clone() });
            },
            None => {},
        }
        self.announce_all(client);
        self.replay_notes(out, client);
        send(out, client, Control::Ready);
        assert(views(out@) =~= greeted(before, client).1);
    }

    fn announce_all(&mut self, client: u64)
        requires
            old(self)@.wf(),
        ensures
            final(self)@ == (SessionView { clients: old(self)@.knows_all(client), ..old(self)@ }),
            final(self)@.wf(),
    {
        let ghost before = self@;
        match self.client_at(client) {
            Some(c) => {
                let mut i: usize = 0;
                assert(pane_ids(before.panes.take(0)).to_set() =~= Set::empty());
                while i < self.panes.len()
                    invariant
                        before.wf(),
                        c < self.clients.len(),
                        i <= self.panes.len(),
                        self@.panes == before.panes,
                        self@.notes == before.notes,
                        self@.layout == before.layout,
                        self@.focus == before.focus,
                        self@.next_client == before.next_client,
                        self@.clients.len() == before.clients.len(),
                        before.clients[c as int].id == client,
                        forall|k: int|
                            0 <= k < before.clients.len() && k != c ==> #[trigger] self@.clients[k]
                                == before.clients[k],
                        self@.clients[c as int].id == client,
                        self@.clients[c as int].announced == before.clients[c as int].announced.union(
                            pane_ids(before.panes.take(i as int)).to_set(),
                        ),
                    decreases self.panes.len() - i,
                {
                    let id: PaneId = self.panes[i].id;
                    let ghost was = self@;
                    let ghost seen = pane_ids(before.panes.take(i as int));
                    let ghost listed = self.clients@;
                    self.clients[c].learn(id);
                    i = i + 1;
                    proof {
                        assert(self@.panes =~= was.panes);
                        assert forall|k: int|
                            0 <= k < before.clients.len() && k != c implies #[trigger] self@.clients[k]
                            == before.clients[k] by {
                            assert(self.clients@[k] == listed[k]);
                            assert(was.clients[k] == listed[k]@);
                        }
                        let now = pane_ids(before.panes.take(i as int));
                        assert(now =~= seen.push(id));
                        assert(now.to_set() =~= seen.to_set().insert(id)) by {
                            assert forall|x: PaneId| seen.contains(x) || x == id implies
                                now.contains(x) by {
                                if x == id {
                                    assert(now[seen.len() as int] == x);
                                } else {
                                    let k = choose|k: int| 0 <= k < seen.len() && seen[k] == x;
                                    assert(now[k] == x);
                                }
                            }
                        }
                        assert(self@.clients[c as int].announced
                            =~= before.clients[c as int].announced.union(now.to_set()));
                    }
                }
                proof {
                    assert(before.panes.take(i as int) =~= before.panes);
                    assert(self@.clients =~= before.knows_all(client));
                    lemma_clients_carry_focus(before.clients, self@.clients, self@);
                }
            },
            None => {
                assert(self@.clients =~= before.knows_all(client)) by {
                    assert forall|k: int| 0 <= k < before.clients.len() implies (
                    #[trigger] before.clients[k]).id != client by {}
                }
            },
        }
    }

    /// A packet arrived from an attached client.
    pub fn receive(&mut self, client: u64, packet: Packet) -> (out: Vec<Action>)
        requires
            old(self)@.wf(),
            old(self)@.has_client(client),
        ensures
            (final(self)@, views(out@)) == received(old(self)@, client, packet@),
            final(self)@.wf(),
    {
        let mut out: Vec<Action> = Vec::new();
        let ghost before = self@;
        assert(views(out@) =~= seq![]);
        match packet {
            Packet::Control(Control::Hello { .. }) => {
                self.greet(&mut out, client);
            },
            Packet::Control(Control::LayoutTree { json }) => {
                if self.focus == client {
                    self.layout = Some(json.clone());
                    assert(self@.clients =~= before.clients);
                    assert(self@.panes =~= before.panes);
                    let mirror = Packet::Control(Control::LayoutTree { json });
                    self.broadcast(&mut out, &mirror, Some(client));
                    proof {
                        assert(views(out@) =~= received(before, client, packet@).1);
                        lemma_clients_carry_focus(before.clients, self@.clients, self@);
                    }
                }
            },
            Packet::Control(Control::Open { pane, cols, rows, cwd_from }) => {
                self.take_focus(&mut out, client);
                let ghost told = views(out@);
                assert(told =~= before.focus_change(client));
                assert(self@.panes == before.panes);
                if self.pane_at(pane).is_none() {
                    let from: Option<PaneId> = match cwd_from {
                        Some(f) => if self.pane_at(f).is_some() {
                            Some(f)
                        } else {
                            None
                        },
                        None => None,
                    };
                    out.push(Action::Spawn { opener: client, pane, cols, rows, cwd_from: from });
                    assert(views(out@) =~= told.push(
                        ActionView::Spawn { opener: client, pane, cols, rows, cwd_from: from },
                    ));
                }
                assert(views(out@) =~= received(before, client, packet@).1);
            },
            Packet::Control(Control::Resize { pane, cols, rows }) => {
                if self.focus == client {
                    match self.pane_at(pane) {
                        Some(i) => {
                            let ghost listed = self.panes@;
                            let mut p = self.panes.remove(i);
                            p.cols = cols;
                            p.rows = rows;
                            self.panes.insert(i, p);
                            out.push(Action::Resize { client, pane, cols, rows });
                            proof {
                                assert(before.panes[i as int].id == pane);
                                assert(self@.panes =~= resize_pane(before.panes, pane, cols, rows));
                                assert(self@.clients =~= before.clients);
                                assert(views(out@) =~= received(before, client, packet@).1);
                                lemma_clients_carry_focus(before.clients, self@.clients, self@);
                            }
                        },
                        None => {},
                    }
                }
            },
            Packet::Control(Control::Close { pane }) => {
                self.take_focus(&mut out, client);
                let ghost told = views(out@);
                assert(told =~= before.focus_change(client));
                assert(self@.panes == before.panes);
                if self.pane_at(pane).is_some() {
                    out.push(Action::Kill { pane });
                    assert(views(out@) =~= told.push(ActionView::Kill { pane }));
                }
                self.remove_pane(pane);
                assert(views(out@) =~= received(before, client, packet@).1);
            },
            Packet::Data { pane, bytes } => {
                self.take_focus(&mut out, client);
                let ghost told = views(out@);
                assert(told =~= before.focus_change(client));
                assert(self@.panes == before.panes);
                if self.pane_at(pane).is_some() {
                    let ghost typed = bytes@;
                    out.push(Action::Write { pane, bytes });
                    assert(views(out@) =~= told.push(ActionView::Write { pane, bytes: typed }));
                }
                assert(views(out@) =~= received(before, client, packet@).1);
            },
            Packet::Note(note) => {
                if note.v == SCHEMA_VERSION && note.kind == Kind::Clear {
                    self.forget_note(&note);
                }
            },
            Packet::Control(_) => {},
        }
        out
    }

    /// The shell that a `Spawn` asked for is running.
    pub fn spawned(&mut self, opener: u64, pane: PaneId, cols: u16, rows: u16) -> (out: Vec<Action>)
        requires
            old(self)@.wf(),
        ensures
            (final(self)@, views(out@)) == spawned(old(self)@, opener, pane, cols, rows),
            final(self)@.wf(),
    {
        let ghost before = self@;
        self.remove_pane(pane);
        let ghost mid = self@;
        let fresh = Pane { id: pane, buffer: Vec::new(), cols, rows };
        assert(fresh@.buffer =~= seq![]);
        self.panes.push(fresh);
        proof {
            assert(self@.panes =~= mid.panes.push(fresh@));
            assert(self@.clients =~= before.clients);
            lemma_clients_carry_focus(before.clients, self@.clients, self@);
        }
        let ghost placed = self@;
        let mut out: Vec<Action> = Vec::new();
        assert(views(out@) =~= seq![]);
        let mut i: usize = 0;
        assert(before.clients.take(0) =~= seq![]);
        while i < self.clients.len()
            invariant
                i <= self.clients.len(),
                self.clients.len() == before.clients.len(),
                placed.wf(),
                placed.clients == before.clients,
                self@.panes == placed.panes,
                self@.notes == placed.notes,
                self@.layout == placed.layout,
                self@.focus == placed.focus,
                self@.next_client == placed.next_client,
                forall|k: int|
                    0 <= k < i ==> #[trigger] self@.clients[k] == (ClientView {
                        id: before.clients[k].id,
                        announced: before.clients[k].announced.insert(pane),
                    }),
                forall|k: int|
                    i <= k < before.clients.len() ==> #[trigger] self@.clients[k]
                        == before.clients[k],
                views(out@) == announce(before.clients.take(i as int), opener, pane, cols, rows),
            decreases self.clients.len() - i,
        {
            let ghost was = self@;
            let ghost listed = self.clients@;
            let ghost told = views(out@);
            let id: u64 = self.clients[i].id;
            assert(was.clients[i as int] == listed[i as int]@);
            self.clients[i].learn(pane);
            if id == opener {
                send(&mut out, id, Control::Opened { pane });
            } else {
                send(&mut out, id, Control::Restore { pane });
                send(&mut out, id, Control::Resize { pane, cols, rows });
            }
            i = i + 1;
            proof {
                assert(self@.panes =~= was.panes);
                assert forall|k: int| 0 <= k < before.clients.len() && k != i - 1 implies
                    #[trigger] self@.clients[k] == was.clients[k] by {
                    assert(self.clients@[k] == listed[k]);
                }
                let cs = before.clients.take(i as int);
                assert(cs.drop_last() =~= before.clients.take(i - 1));
                assert(cs.last() == before.clients[i - 1]);
                assert(views(out@) =~= announce(cs, opener, pane, cols, rows));
            }
        }
        proof {
            assert(before.clients.take(i as int) =~= before.clients);
            assert(self@.clients =~= before.all_know(pane));
            lemma_clients_carry_focus(before.clients, self@.clients, self@);
        }
        out
    }

    /// The shell that a `Spawn` asked for could not be started.
    pub fn spawn_failed(&self, opener: u64, pane: PaneId) -> (out: Vec<Action>)
        ensures
            views(out@) == if self@.has_client(opener) {
                seq![tell(opener, ControlView::Exited { pane })]
            } else {
                seq![]
            },
    {
        let mut out: Vec<Action> = Vec::new();
        assert(views(out@) =~= seq![]);
        match self.client_at(opener) {
            Some(i) => {
                assert(self@.clients[i as int].id == opener);
                send(&mut out, opener, Control::Exited { pane });
                assert(views(out@) =~= seq![tell(opener, ControlView::Exited { pane })]);
            },
            None => {},
        }
        out
    }

    /// The answer to a `Resize`: the terminal took the new size, or did not.
    pub fn resized(&self, client: u64, pane: PaneId, cols: u16, rows: u16, ok: bool) -> (out: Vec<
        Action,
    >)
        ensures
            views(out@) == if ok {
                broadcast(
                    self@.clients,
                    PacketView::Control(ControlView::Resize { pane, cols, rows }),
                    Some(client),
                )
            } else {
                seq![]
            },
    {
        let mut out: Vec<Action> = Vec::new();
        assert(views(out@) =~= seq![]);
        if ok {
            let packet = Packet::Control(Control::Resize { pane, cols, rows });
            self.broadcast(&mut out, &packet, Some(client));
            assert(views(out@) =~= broadcast(self@.clients, packet@, Some(client)));
        }
        out
    }

    /// A pane produced output: keep its tail for replay, and show it to everyone who knows the
    /// pane. The shell keeps running while nobody is attached.
    pub fn output(&mut self, pane: PaneId, bytes: &[u8]) -> (out: Vec<Action>)
        requires
            old(self)@.wf(),
        ensures
            final(self)@ == (SessionView {
                panes: record_output(old(self)@.panes, pane, bytes@),
                ..old(self)@
            }),
            final(self)@.wf(),
            views(out@) == broadcast_data(old(self)@.clients, pane, bytes@),
    {
        let ghost before = self@;
        match self.pane_at(pane) {
            Some(i) => {
                let mut p = self.panes.remove(i);
                let ghost all = p.buffer@ + bytes@;
                push_bytes(&mut p.buffer, bytes);
                if p.buffer.len() > REPLAY_CAP {
                    let excess: usize = p.buffer.len() - REPLAY_CAP;
                    let rest = slice_to_vec(
                        slice_subrange(p.buffer.as_slice(), excess, p.buffer.len()),
                    );
                    assert(rest@ =~= all.skip(excess as int));
                    p.buffer = rest;
                }
                assert(p@.buffer == seqs::tail(all, REPLAY_CAP as nat));
                self.panes.insert(i, p);
                proof {
                    assert(before.panes[i as int].id == pane);
                    assert(self@.panes =~= record_output(before.panes, pane, bytes@));
                    assert(self@.clients =~= before.clients);
                    lemma_clients_carry_focus(before.clients, self@.clients, self@);
                }
            },
            None => {
                assert(self@.panes =~= record_output(before.panes, pane, bytes@)) by {
                    assert forall|k: int| 0 <= k < before.panes.len() implies (
                    #[trigger] before.panes[k]).id != pane by {}
                }
            },
        }
        let mut out: Vec<Action> = Vec::new();
        assert(views(out@) =~= seq![]);
        let mut i: usize = 0;
        assert(self@.clients.take(0) =~= seq![]);
        while i < self.clients.len()
            invariant
                i <= self.clients.len(),
                views(out@) == broadcast_data(self@.clients.take(i as int), pane, bytes@),
            decreases self.clients.len() - i,
        {
            let ghost told = views(out@);
            let c = &self.clients[i];
            if c.knows(pane) {
                let copy = slice_to_vec(bytes);
                out.push(Action::Send { client: c.id, packet: Packet::Data { pane, bytes: copy } });
                assert(views(out@) =~= told.push(
                    ActionView::Send {
                        client: c@.id,
                        packet: PacketView::Data { pane, bytes: bytes@ },
                    },
                ));
            }
            i = i + 1;
            proof {
                let cs = self@.clients.take(i as int);
                assert(cs.drop_last() =~= self@.clients.take(i - 1));
                assert(cs.last() == self.clients@[i - 1]@);
                assert(views(out@) =~= broadcast_data(cs, pane, bytes@));
            }
        }
        assert(self@.clients.take(i as int) =~= self@.clients);
        out
    }

    /// A pane's shell exited.
    pub fn exited(&mut self, pane: PaneId) -> (out: Vec<Action>)
        requires
            old(self)@.wf(),
        ensures
            final(self)@ == old(self)@.without_pane(pane),
            final(self)@.wf(),
            views(out@) == broadcast(
                old(self)@.clients,
                PacketView::Control(ControlView::Exited { pane }),
                None,
            ) + final(self)@.exit_if_idle(),
    {
        let mut out: Vec<Action> = Vec::new();
        assert(views(out@) =~= seq![]);
        let packet = Packet::Control(Control::Exited { pane });
        self.broadcast(&mut out, &packet, None);
        self.remove_pane(pane);
        let ghost told = views(out@);
        self.exit_if_idle(&mut out);
        assert(views(out@) =~= broadcast(old(self)@.clients, packet@, None)
            + self@.exit_if_idle());
        out
    }

    /// A note arrived from a local helper.
    pub fn note(&mut self, note: Note) -> (out: Vec<Action>)
        requires
            old(self)@.wf(),
        ensures
            (final(self)@, views(out@)) == noted(old(self)@, note),
            final(self)@.wf(),
    {
        let mut out: Vec<Action> = Vec::new();
        assert(views(out@) =~= seq![]);
        if note.v != SCHEMA_VERSION {
            return out;
        }
        let ghost before = self@;
        self.forget_note(&note);
        let packet = Packet::Note(note.clone());
        self.broadcast(&mut out, &packet, None);
        assert(views(out@) =~= noted(before, note).1);
        if note.kind == Kind::Raise || self.clients.len() == 0 {
            let ghost mid = self@;
            self.notes.push(note);
            proof {
                assert(self@.panes =~= mid.panes);
                assert(self@.clients =~= mid.clients);
                assert(self@.notes =~= mid.notes.push(note));
                lemma_clients_carry_focus(mid.clients, self@.clients, self@);
            }
        }
        out
    }
}

proof fn lemma_notes_unique(notes: Seq<Note>, k: int)
    requires
        0 <= k < notes.len(),
        forall|i: int, j: int|
            0 <= i < j < notes.len() ==> (#[trigger] notes[i]).key() != (#[trigger] notes[j]).key(),
    ensures
        forall|i: int, j: int|
            0 <= i < j < notes.remove(k).len() ==> (#[trigger] notes.remove(k)[i]).key() != (
            #[trigger] notes.remove(k)[j]).key(),
        forall|i: int|
            0 <= i < notes.remove(k).len() ==> (#[trigger] notes.remove(k)[i]).key()
                != notes[k].key(),
{
}

proof fn lemma_clients_carry_focus(
    before: Seq<ClientView>,
    after: Seq<ClientView>,
    s: SessionView,
)
    requires
        s.clients == after,
        before.len() <= after.len(),
        forall|i: int| 0 <= i < before.len() ==> (#[trigger] after[i]).id == before[i].id,
        s.focus == 0 || exists|i: int|
            0 <= i < before.len() && (#[trigger] before[i]).id == s.focus,
    ensures
        s.focus == 0 || s.has_client(s.focus),
{
    if s.focus != 0 {
        let k = choose|k: int| 0 <= k < before.len() && (#[trigger] before[k]).id == s.focus;
        assert(s.clients[k].id == s.focus);
    }
}

/// The clients' actions are those of the single clients, and nothing else.
proof fn lemma_each_client(clients: Seq<ClientView>, f: spec_fn(ClientView) -> Seq<ActionView>)
    ensures
        forall|a: ActionView| #[trigger]
            each_client(clients, f).contains(a) <==> exists|i: int|
                0 <= i < clients.len() && (#[trigger] f(clients[i])).contains(a),
    decreases clients.len(),
{
    let all = each_client(clients, f);
    if clients.len() > 0 {
        let front = clients.drop_last();
        lemma_each_client(front, f);
        let before = each_client(front, f);
        let n = clients.len() - 1;
        assert forall|a: ActionView| #[trigger] all.contains(a) implies exists|i: int|
            0 <= i < clients.len() && (#[trigger] f(clients[i])).contains(a) by {
            let k = choose|k: int| 0 <= k < all.len() && all[k] == a;
            if k < before.len() {
                assert(before[k] == a);
                assert(before.contains(a));
                let i = choose|i: int| 0 <= i < front.len() && (#[trigger] f(front[i])).contains(a);
                assert(front[i] == clients[i]);
                assert(f(clients[i]).contains(a));
            } else {
                assert(f(clients[n])[k - before.len()] == a);
                assert(f(clients[n]).contains(a));
            }
        }
        assert forall|a: ActionView|
            (exists|i: int| 0 <= i < clients.len() && (#[trigger] f(clients[i])).contains(
                a,
            )) implies #[trigger] all.contains(a) by {
            let i = choose|i: int|
                0 <= i < clients.len() && (#[trigger] f(clients[i])).contains(a);
            if i < n {
                assert(front[i] == clients[i]);
                assert(f(front[i]).contains(a));
                assert(before.contains(a));
                let k = choose|k: int| 0 <= k < before.len() && before[k] == a;
                assert(all[k] == a);
            } else {
                let own = f(clients[n]);
                let k = choose|k: int| 0 <= k < own.len() && own[k] == a;
                assert(all[before.len() + k] == a);
            }
        }
    } else {
        assert(all =~= seq![]);
    }
}

/// A broadcast is that packet, to every attached client but the excepted one.
pub proof fn broadcast_reaches_everyone(
    clients: Seq<ClientView>,
    packet: PacketView,
    except: Option<u64>,
)
    ensures
        forall|a: ActionView| #[trigger]
            broadcast(clients, packet, except).contains(a) <==> exists|i: int|
                0 <= i < clients.len() && except != Some((#[trigger] clients[i]).id) && a
                    == (ActionView::Send { client: clients[i].id, packet }),
{
    let f = |c: ClientView|
        if except == Some(c.id) {
            seq![]
        } else {
            seq![ActionView::Send { client: c.id, packet }]
        };
    lemma_each_client(clients, f);
    let all = broadcast(clients, packet, except);
    assert(all == each_client(clients, f));
    assert forall|a: ActionView| #[trigger] all.contains(a) implies exists|i: int|
        0 <= i < clients.len() && except != Some((#[trigger] clients[i]).id) && a == (
        ActionView::Send { client: clients[i].id, packet }) by {
        let i = choose|i: int| 0 <= i < clients.len() && (#[trigger] f(clients[i])).contains(a);
        assert(clients[i] == clients[i]);
    }
    assert forall|a: ActionView|
        (exists|i: int|
            0 <= i < clients.len() && except != Some((#[trigger] clients[i]).id) && a == (
            ActionView::Send { client: clients[i].id, packet })) implies #[trigger] all.contains(
        a,
    ) by {
        let i = choose|i: int|
            0 <= i < clients.len() && except != Some((#[trigger] clients[i]).id) && a == (
            ActionView::Send { client: clients[i].id, packet });
        assert(f(clients[i])[0] == a);
        assert(f(clients[i]).contains(a));
    }
}

/// Output goes to exactly the clients that were told of the pane.
pub proof fn output_reaches_who_knows_the_pane(
    clients: Seq<ClientView>,
    pane: PaneId,
    bytes: Seq<u8>,
)
    ensures
        forall|a: ActionView| #[trigger]
            broadcast_data(clients, pane, bytes).contains(a) <==> exists|i: int|
                0 <= i < clients.len() && (#[trigger] clients[i]).announced.contains(pane) && a
                    == (ActionView::Send {
                    client: clients[i].id,
                    packet: PacketView::Data { pane, bytes },
                }),
{
    let f = |c: ClientView|
        if c.announced.contains(pane) {
            seq![ActionView::Send { client: c.id, packet: PacketView::Data { pane, bytes } }]
        } else {
            seq![]
        };
    lemma_each_client(clients, f);
    let all = broadcast_data(clients, pane, bytes);
    assert(all == each_client(clients, f));
    assert forall|a: ActionView| #[trigger] all.contains(a) implies exists|i: int|
        0 <= i < clients.len() && (#[trigger] clients[i]).announced.contains(pane) && a == (
        ActionView::Send { client: clients[i].id, packet: PacketView::Data { pane, bytes } }) by {
        let i = choose|i: int| 0 <= i < clients.len() && (#[trigger] f(clients[i])).contains(a);
        assert(clients[i] == clients[i]);
    }
    assert forall|a: ActionView|
        (exists|i: int|
            0 <= i < clients.len() && (#[trigger] clients[i]).announced.contains(pane) && a == (
            ActionView::Send {
                client: clients[i].id,
                packet: PacketView::Data { pane, bytes },
            })) implies #[trigger] all.contains(a) by {
        let i = choose|i: int|
            0 <= i < clients.len() && (#[trigger] clients[i]).announced.contains(pane) && a == (
            ActionView::Send { client: clients[i].id, packet: PacketView::Data { pane, bytes } });
        assert(f(clients[i])[0] == a);
        assert(f(clients[i]).contains(a));
    }
}

proof fn lemma_restores(panes: Seq<PaneView>, client: u64)
    ensures
        forall|i: int|
            0 <= i < panes.len() ==> restores(panes, client).contains(
                tell(client, ControlView::Restore { pane: (#[trigger] panes[i]).id }),
            ),
        forall|k: int|
            0 <= k < restores(panes, client).len() ==> (#[trigger] restores(panes, client)[k]
                matches ActionView::Send { client: c, packet } && c == client && (packet
                matches PacketView::Data { pane, bytes } ==> exists|j: int|
                0 <= j < k && #[trigger] restores(panes, client)[j] == tell(
                    client,
                    ControlView::Restore { pane },
                ))),
    decreases panes.len(),
{
    let all = restores(panes, client);
    if panes.len() > 0 {
        let front = panes.drop_last();
        lemma_restores(front, client);
        let before = restores(front, client);
        let n = before.len() as int;
        assert(all.take(n) =~= before);
        assert forall|i: int| 0 <= i < panes.len() implies all.contains(
            tell(client, ControlView::Restore { pane: (#[trigger] panes[i]).id }),
        ) by {
            let t = tell(client, ControlView::Restore { pane: panes[i].id });
            if i < front.len() {
                assert(front[i] == panes[i]);
                assert(before.contains(t));
                let k = choose|k: int| 0 <= k < before.len() && before[k] == t;
                assert(all[k] == t);
            } else {
                assert(all[n] == t);
            }
        }
        assert forall|k: int| 0 <= k < all.len() implies (#[trigger] all[k]
            matches ActionView::Send { client: c, packet } && c == client && (packet
            matches PacketView::Data { pane, bytes } ==> exists|j: int|
            0 <= j < k && #[trigger] all[j] == tell(client, ControlView::Restore { pane }))) by {
            if k < n {
                assert(all[k] == before[k]);
                let a = before[k];
                if let ActionView::Send { client: c, packet } = a {
                    if let PacketView::Data { pane, bytes } = packet {
                        let j = choose|j: int|
                            0 <= j < k && #[trigger] before[j] == tell(
                                client,
                                ControlView::Restore { pane },
                            );
                        assert(all[j] == before[j]);
                    }
                }
            } else {
                assert(all[n] == tell(client, ControlView::Restore { pane: panes.last().id }));
            }
        }
    }
}

/// A client that attaches learns of every existing pane, and of each before it sees its screen.
pub proof fn attaching_restores_every_pane(s: SessionView, client: u64)
    requires
        s.wf(),
        s.has_client(client),
    ensures
        forall|i: int|
            0 <= i < s.panes.len() ==> greeted(s, client).1.contains(
                tell(client, ControlView::Restore { pane: (#[trigger] s.panes[i]).id }),
            ),
        forall|k: int, pane: PaneId, bytes: Seq<u8>|
            0 <= k < greeted(s, client).1.len() && #[trigger] greeted(s, client).1[k]
                == (ActionView::Send { client, packet: #[trigger] data(pane, bytes) })
                ==> exists|j: int|
                0 <= j < k && #[trigger] greeted(s, client).1[j] == tell(
                    client,
                    ControlView::Restore { pane },
                ),
{
    let all = greeted(s, client).1;
    let owner = greeted(s, client).0.focus;
    let welcome = seq![tell(client, ControlView::Welcome { version: PROTOCOL_VERSION, client })];
    let focus = broadcast(s.clients, PacketView::Control(ControlView::Focus { owner }), None);
    let panes = restores(s.panes, client);
    let n = (welcome.len() + focus.len()) as int;
    lemma_restores(s.panes, client);
    broadcast_reaches_everyone(
        s.clients,
        PacketView::Control(ControlView::Focus { owner }),
        None,
    );
    assert(all.subrange(n, n + panes.len()) =~= panes);
    assert forall|i: int| 0 <= i < s.panes.len() implies all.contains(
        tell(client, ControlView::Restore { pane: (#[trigger] s.panes[i]).id }),
    ) by {
        let t = tell(client, ControlView::Restore { pane: s.panes[i].id });
        assert(panes.contains(t));
        let k = choose|k: int| 0 <= k < panes.len() && panes[k] == t;
        assert(all[n + k] == t);
    }
    assert forall|k: int, pane: PaneId, bytes: Seq<u8>|
        0 <= k < all.len() && #[trigger] all[k] == (ActionView::Send {
            client,
            packet: #[trigger] data(pane, bytes),
        }) implies exists|j: int|
        0 <= j < k && #[trigger] all[j] == tell(client, ControlView::Restore { pane }) by {
        if k < n {
            if k >= 1 {
                assert(all[k] == focus[k - 1]);
                assert(focus.contains(all[k]));
            }
        } else if k < n + panes.len() {
            assert(all[k] == panes[k - n]);
            let j = choose|j: int|
                0 <= j < k - n && #[trigger] panes[j] == tell(
                    client,
                    ControlView::Restore { pane },
                );
            assert(all[n + j] == panes[j]);
        }
    }
}

/// Terminal output as a packet.
pub open spec fn data(pane: PaneId, bytes: Seq<u8>) -> PacketView {
    PacketView::Data { pane, bytes }
}

/// Attaching neither disturbs nor evicts the other clients: they stay as they are and hear at most
/// who holds the focus, and the panes, the layout and a focus that is held stay too.
pub proof fn attaching_disturbs_nobody(s: SessionView, client: u64)
    requires
        s.wf(),
        s.has_client(client),
    ensures
        ({
            let (after, actions) = greeted(s, client);
            &&& after.panes == s.panes
            &&& after.layout == s.layout
            &&& after.clients.len() == s.clients.len()
            &&& forall|i: int|
                0 <= i < s.clients.len() && (#[trigger] s.clients[i]).id != client
                    ==> after.clients[i] == s.clients[i]
            &&& s.focus != 0 ==> after.focus == s.focus
            &&& forall|k: int|
                0 <= k < actions.len() ==> (#[trigger] actions[k]
                    matches ActionView::Send { client: c, packet } && (c != client ==> packet
                    == PacketView::Control(ControlView::Focus { owner: after.focus })))
        }),
{
    let (after, all) = greeted(s, client);
    let owner = after.focus;
    let focus = broadcast(s.clients, PacketView::Control(ControlView::Focus { owner }), None);
    let panes = restores(s.panes, client);
    let n = (1 + focus.len()) as int;
    lemma_restores(s.panes, client);
    broadcast_reaches_everyone(
        s.clients,
        PacketView::Control(ControlView::Focus { owner }),
        None,
    );
    assert forall|k: int| 0 <= k < all.len() implies (#[trigger] all[k]
        matches ActionView::Send { client: c, packet } && (c != client ==> packet
        == PacketView::Control(ControlView::Focus { owner: after.focus }))) by {
        if 1 <= k < n {
            assert(all[k] == focus[k - 1]);
            assert(focus.contains(all[k]));
        } else if n <= k < n + panes.len() {
            assert(all[k] == panes[k - n]);
        }
    }
}

/// Whoever types, opens or closes a pane holds the focus afterwards.
pub proof fn focus_follows_input(s: SessionView, client: u64, packet: PacketView)
    requires
        packet is Data || (packet matches PacketView::Control(c) && (c is Open || c is Close)),
    ensures
        received(s, client, packet).0.focus == client,
{
}

/// A follower's resizes and layout pushes change nothing and reach nobody.
pub proof fn followers_do_not_drive(s: SessionView, client: u64, packet: PacketView)
    requires
        s.focus != client,
        packet matches PacketView::Control(c) && (c is Resize || c is LayoutTree),
    ensures
        received(s, client, packet) == (s, Seq::<ActionView>::empty()),
{
}

/// The replay of a pane is the end of all it ever printed.
pub proof fn replay_is_the_end_of_the_output(
    panes: Seq<PaneView>,
    pane: PaneId,
    a: Seq<u8>,
    b: Seq<u8>,
)
    ensures
        record_output(record_output(panes, pane, a), pane, b) == record_output(panes, pane, a + b),
{
    let twice = record_output(record_output(panes, pane, a), pane, b);
    let once = record_output(panes, pane, a + b);
    assert forall|i: int| 0 <= i < panes.len() implies twice[i] == once[i] by {
        let p = panes[i];
        if p.id == pane {
            seqs::lemma_tail_of_tail(p.buffer + a, b, REPLAY_CAP as nat);
            assert((p.buffer + a) + b =~= p.buffer + (a + b));
        }
    }
    assert(twice =~= once);
}

/// What the daemon holds survives a client that leaves.
pub proof fn detaching_keeps_the_session(s: SessionView, client: u64)
    ensures
        detached(s, client).0.panes == s.panes,
        detached(s, client).0.layout == s.layout,
        detached(s, client).0.notes == s.notes,
        detached(s, client).1.contains(ActionView::Exit) <==> detached(s, client).0.idle(),
{
    let (after, all) = detached(s, client);
    broadcast_reaches_everyone(
        after.clients,
        PacketView::Control(ControlView::Focus { owner: 0 }),
        None,
    );
    if after.idle() {
        assert(all.last() == ActionView::Exit);
    } else if all.contains(ActionView::Exit) {
        let k = choose|k: int| 0 <= k < all.len() && all[k] == ActionView::Exit;
        let told = broadcast(
            after.clients,
            PacketView::Control(ControlView::Focus { owner: 0 }),
            None,
        );
        assert(told[k] == ActionView::Exit);
        assert(told.contains(ActionView::Exit));
    }
}

/// A raised note reaches whoever attaches next, also if nobody was attached when it came.
pub proof fn raised_notes_wait_for_the_next_client(s: SessionView, note: Note, client: u64)
    requires
        note.v == SCHEMA_VERSION,
        note.kind == Kind::Raise || s.clients.len() == 0,
    ensures
        greeted(attached(noted(s, note).0), client).1.contains(
            ActionView::Send { client, packet: PacketView::Note(note) },
        ),
        note.kind == Kind::Raise ==> greeted(
            attached(noted(s, note).0),
            client,
        ).0.notes.contains(note),
{
    let t = attached(noted(s, note).0);
    let (after, all) = greeted(t, client);
    let notes = note_replay(t.notes, client);
    let n = t.notes.len() - 1;
    let sent = ActionView::Send { client, packet: PacketView::Note(note) };
    assert(t.notes[n] == note);
    assert(notes[n] == sent);
    let m = all.len() - 1 - notes.len();
    assert(all[m + n] == sent);
    seqs::lemma_drop_keeps(t.notes, |x: Note| x.kind != Kind::Raise);
    assert(t.notes.contains(note));
}

/// A note that was cleared while someone was attached, or by a client, is not replayed again.
pub proof fn cleared_notes_are_not_replayed(s: SessionView, note: Note, client: u64)
    requires
        note.v == SCHEMA_VERSION,
        note.kind == Kind::Clear,
    ensures
        s.clients.len() > 0 ==> forall|i: int|
            0 <= i < noted(s, note).0.notes.len() ==> (#[trigger] noted(s, note).0.notes[i]).key()
                != note.key(),
        forall|i: int|
            0 <= i < received(s, client, PacketView::Note(note)).0.notes.len() ==> (
            #[trigger] received(s, client, PacketView::Note(note)).0.notes[i]).key() != note.key(),
{
    seqs::lemma_drop_keeps(s.notes, |n: Note| n.key() == note.key());
}

} // verus!
