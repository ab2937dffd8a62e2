//! The window's bookkeeping of terminals and remote connections: which pane is fed by what, and
//! what has to be started, dropped or said to a daemon when panes come and go.
//!
//! The state here holds no sockets and no screens. Every operation returns what the program around
//! it has to do, in order.

use crate::layout;
use crate::layout::{build_node, find_local};
use crate::proto::{Control, ControlView, Layout, LayoutNode, LayoutTab, PROTOCOL_VERSION};
use crate::seqs;
use crate::text;
use crate::text::push_number;
use crate::workspace;
use crate::workspace::{Node, PaneId, Split, TabView, Workspace, WorkspaceView};
use vstd::prelude::*;
use vstd::slice::*;
use vstd::string::*;

verus! {

/// One connection to a host. Frames are tagged with it: the daemons' pane ids are not unique
/// across connections.
pub type ConnId = u64;

/// Where a remote pane lives: its connection, and its id in the daemon's namespace.
#[derive(Debug, Clone, Copy, PartialEq, Eq, Structural)]
pub struct Backend {
    pub conn: ConnId,
    pub remote_id: u64,
}

/// One live terminal.
#[derive(Debug, PartialEq, Eq)]
pub struct Term {
    pub pane: PaneId,
    /// `None` is a local shell.
    pub remote: Option<Backend>,
    /// Profile name or host of a remote pane, put before its title in the tab.
    pub label: String,
    pub title: String,
    /// What the title goes back to when the program resets it.
    pub default_title: String,
}

/// The host and program that a connection is made to.
#[derive(Debug, PartialEq, Eq)]
pub struct RemoteTarget {
    pub user: String,
    pub host: String,
    pub port: u16,
    pub command: String,
}

/// What the window knows of one connection.
#[derive(Debug, PartialEq, Eq)]
pub struct Connection {
    pub id: ConnId,
    pub target: RemoteTarget,
    pub display_name: Option<String>,
    /// The next daemon pane id to ask for.
    pub next_remote_id: u64,
    /// From the daemon's pane ids to local ones.
    pub routes: Vec<(u64, PaneId)>,
    /// A plain shell without a daemon: it cannot be detached, and stores no layout.
    pub ephemeral: bool,
    /// The attach handshake is over. Layouts are pushed only from here on, so that a push cannot
    /// overwrite the stored layout that is being restored.
    pub ready: bool,
    /// This client's id at the daemon, and the one that holds the focus there.
    pub client: u64,
    pub owner: u64,
    /// Panes adopted but not placed in a tab yet.
    pub restore_panes: Vec<(u64, PaneId)>,
    pub restore_layout: Option<Layout>,
    /// The last layout pushed to the daemon.
    pub pushed_layout: Option<String>,
    /// The connection has been written to the profiles.
    pub remembered: bool,
}

/// A connection attempt that has not got through the handshake yet.
#[derive(Debug, PartialEq, Eq)]
pub struct Progress {
    pub conn: ConnId,
    pub target: RemoteTarget,
    pub label: String,
    pub detail: String,
    /// When it was started, in milliseconds.
    pub started: u64,
}

/// What the program around the client has to do.
#[derive(Debug, PartialEq, Eq)]
pub enum Effect {
    /// Start a local shell for a pane.
    Spawn { pane: PaneId },
    /// Make a terminal for a pane that is fed from a connection.
    Adopt { pane: PaneId },
    /// Forget everything about a pane's terminal.
    Drop { pane: PaneId },
    Send { conn: ConnId, message: Control },
    /// Let go of a connection: the remote end sees the stream end.
    Disconnect { conn: ConnId },
    /// Show output on a pane's terminal.
    Paint { pane: PaneId, bytes: Vec<u8> },
    /// A pane changed: draw it again if it is on screen.
    Touch { pane: PaneId },
    /// Give a pane's grid the size that the focused client chose.
    Conform { pane: PaneId, cols: u16, rows: u16 },
    /// The handshake got through: remember the connection as a profile.
    Remember { conn: ConnId },
    Redraw,
    Exit,
}

/// What arrives from a connection.
#[derive(Debug, PartialEq, Eq)]
pub enum Incoming {
    Data { pane: u64, bytes: Vec<u8> },
    Control(Control),
    /// A layout, read from its JSON.
    Layout(Layout),
}

/// What a piece of traffic says.
pub enum IncomingView {
    Data { pane: u64, bytes: Seq<u8> },
    Control(ControlView),
    Layout(Seq<LayoutTab>),
}

impl View for Incoming {
    type V = IncomingView;

    open spec fn view(&self) -> IncomingView {
        match *self {
            Incoming::Data { pane, bytes } => IncomingView::Data { pane, bytes: bytes@ },
            Incoming::Control(c) => IncomingView::Control(c@),
            Incoming::Layout(l) => IncomingView::Layout(l.tabs@),
        }
    }
}

/// The terminals and connections of a window.
#[derive(Debug, PartialEq, Eq)]
pub struct Client {
    pub workspace: Workspace,
    pub terms: Vec<Term>,
    pub conns: Vec<Connection>,
    pub progress: Vec<Progress>,
    pub next_conn: ConnId,
    /// The size that new panes start at.
    pub cols: u16,
    pub rows: u16,
}

#[verifier::ext_equal]
pub struct TermView {
    pub pane: PaneId,
    pub remote: Option<Backend>,
    pub label: Seq<char>,
    pub title: Seq<char>,
    pub default_title: Seq<char>,
}

#[verifier::ext_equal]
pub struct TargetView {
    pub user: Seq<char>,
    pub host: Seq<char>,
    pub port: u16,
    pub command: Seq<char>,
}

#[verifier::ext_equal]
pub struct ConnView {
    pub id: ConnId,
    pub target: TargetView,
    pub display_name: Option<Seq<char>>,
    pub next_remote_id: u64,
    pub routes: Seq<(u64, PaneId)>,
    pub ephemeral: bool,
    pub ready: bool,
    pub client: u64,
    pub owner: u64,
    pub restore_panes: Seq<(u64, PaneId)>,
    pub restore_layout: Option<Seq<LayoutTab>>,
    pub pushed_layout: Option<Seq<char>>,
    pub remembered: bool,
}

#[verifier::ext_equal]
pub struct ProgressView {
    pub conn: ConnId,
    pub target: TargetView,
    pub label: Seq<char>,
    pub detail: Seq<char>,
    pub started: u64,
}

#[verifier::ext_equal]
pub enum EffectView {
    Spawn { pane: PaneId },
    Adopt { pane: PaneId },
    Drop { pane: PaneId },
    Send { conn: ConnId, message: ControlView },
    Disconnect { conn: ConnId },
    Paint { pane: PaneId, bytes: Seq<u8> },
    Touch { pane: PaneId },
    Conform { pane: PaneId, cols: u16, rows: u16 },
    Remember { conn: ConnId },
    Redraw,
    Exit,
}

#[verifier::ext_equal]
pub struct ClientView {
    pub ws: WorkspaceView,
    pub terms: Seq<TermView>,
    pub conns: Seq<ConnView>,
    pub progress: Seq<ProgressView>,
    pub next_conn: ConnId,
    pub cols: u16,
    pub rows: u16,
}

/// The view of an optional text.
pub open spec fn opt(s: Option<String>) -> Option<Seq<char>> {
    match s {
        Some(t) => Some(t@),
        None => None,
    }
}

impl View for Term {
    type V = TermView;

    open spec fn view(&self) -> TermView {
        TermView {
            pane: self.pane,
            remote: self.remote,
            label: self.label@,
            title: self.title@,
            default_title: self.default_title@,
        }
    }
}

impl View for RemoteTarget {
    type V = TargetView;

    open spec fn view(&self) -> TargetView {
        TargetView {
            user: self.user@,
            host: self.host@,
            port: self.port,
            command: self.command@,
        }
    }
}

impl View for Connection {
    type V = ConnView;

    open spec fn view(&self) -> ConnView {
        ConnView {
            id: self.id,
            target: self.target@,
            display_name: opt(self.display_name),
            next_remote_id: self.next_remote_id,
            routes: self.routes@,
            ephemeral: self.ephemeral,
            ready: self.ready,
            client: self.client,
            owner: self.owner,
            restore_panes: self.restore_panes@,
            restore_layout: match self.restore_layout {
                Some(l) => Some(l.tabs@),
                None => None,
            },
            pushed_layout: opt(self.pushed_layout),
            remembered: self.remembered,
        }
    }
}

impl View for Progress {
    type V = ProgressView;

    open spec fn view(&self) -> ProgressView {
        ProgressView {
            conn: self.conn,
            target: self.target@,
            label: self.label@,
            detail: self.detail@,
            started: self.started,
        }
    }
}

impl View for Effect {
    type V = EffectView;

    open spec fn view(&self) -> EffectView {
        match *self {
            Effect::Spawn { pane } => EffectView::Spawn { pane },
            Effect::Adopt { pane } => EffectView::Adopt { pane },
            Effect::Drop { pane } => EffectView::Drop { pane },
            Effect::Send { conn, message } => EffectView::Send { conn, message: message@ },
            Effect::Disconnect { conn } => EffectView::Disconnect { conn },
            Effect::Paint { pane, bytes } => EffectView::Paint { pane, bytes: bytes@ },
            Effect::Touch { pane } => EffectView::Touch { pane },
            Effect::Conform { pane, cols, rows } => EffectView::Conform { pane, cols, rows },
            Effect::Remember { conn } => EffectView::Remember { conn },
            Effect::Redraw => EffectView::Redraw,
            Effect::Exit => EffectView::Exit,
        }
    }
}

impl View for Client {
    type V = ClientView;

    open spec fn view(&self) -> ClientView {
        ClientView {
            ws: self.workspace@,
            terms: self.terms@.map_values(|t: Term| t@),
            conns: self.conns@.map_values(|c: Connection| c@),
            progress: self.progress@.map_values(|p: Progress| p@),
            next_conn: self.next_conn,
            cols: self.cols,
            rows: self.rows,
        }
    }
}

/// A list of effects as what they say.
pub open spec fn effects(es: Seq<Effect>) -> Seq<EffectView> {
    es.map_values(|e: Effect| e@)
}

/// The name that a connection's tabs carry: the display name, or the host.
pub open spec fn conn_label(c: ConnView) -> Seq<char> {
    match c.display_name {
        Some(n) => n,
        None => c.target.host,
    }
}

/// A target as the user would type it.
pub open spec fn target_label(user: Seq<char>, host: Seq<char>, port: u16) -> Seq<char> {
    (if user.len() == 0 {
        seq![]
    } else {
        user + "@"@
    }) + host + (if port == 22 {
        seq![]
    } else {
        ":"@ + text::ascii(text::decimal(port as nat))
    })
}

pub open spec fn term_of(terms: Seq<TermView>, pane: PaneId) -> Option<TermView> {
    seqs::find_where(terms, |t: TermView| t.pane == pane)
}

/// Where a pane lives, if it is a live remote one.
pub open spec fn backend_of(terms: Seq<TermView>, pane: PaneId) -> Option<Backend> {
    match term_of(terms, pane) {
        Some(t) => t.remote,
        None => None,
    }
}

/// The daemon pane that a local pane stands for.
pub open spec fn remote_of(terms: Seq<TermView>) -> spec_fn(PaneId) -> Option<u64> {
    |pane: PaneId|
        match backend_of(terms, pane) {
            Some(b) => Some(b.remote_id),
            None => None,
        }
}

pub open spec fn drop_term(terms: Seq<TermView>, pane: PaneId) -> Seq<TermView> {
    seqs::drop_where(terms, |t: TermView| t.pane == pane)
}

pub open spec fn conn_of(conns: Seq<ConnView>, id: ConnId) -> Option<ConnView> {
    seqs::find_where(conns, |c: ConnView| c.id == id)
}

pub open spec fn drop_conn(conns: Seq<ConnView>, id: ConnId) -> Seq<ConnView> {
    seqs::drop_where(conns, |c: ConnView| c.id == id)
}

/// The connections with one of them changed.
pub open spec fn set_conn(conns: Seq<ConnView>, c: ConnView) -> Seq<ConnView> {
    conns.map_values(
        |x: ConnView|
            if x.id == c.id {
                c
            } else {
                x
            },
    )
}

pub open spec fn drop_progress(progress: Seq<ProgressView>, conn: ConnId) -> Seq<ProgressView> {
    seqs::drop_where(progress, |p: ProgressView| p.conn == conn)
}

pub open spec fn drop_route(routes: Seq<(u64, PaneId)>, remote: u64) -> Seq<(u64, PaneId)> {
    seqs::drop_where(routes, |r: (u64, PaneId)| r.0 == remote)
}

/// A connection that has just been made.
pub open spec fn fresh_conn(
    id: ConnId,
    target: TargetView,
    name: Option<Seq<char>>,
    ephemeral: bool,
) -> ConnView {
    ConnView {
        id,
        target,
        display_name: name,
        next_remote_id: 1,
        routes: seq![],
        ephemeral,
        ready: false,
        client: 0,
        owner: 0,
        restore_panes: seq![],
        restore_layout: None,
        pushed_layout: None,
        remembered: false,
    }
}

/// How many splits the tabs of a layout have.
pub open spec fn layout_splits(tabs: Seq<LayoutTab>) -> nat
    decreases tabs.len(),
{
    if tabs.len() == 0 {
        0
    } else {
        layout_splits(tabs.drop_last()) + layout::splits(tabs.last().root)
    }
}

/// The pane that has the keyboard in a restored tab: the recorded one if it is still there, else
/// the first.
pub open spec fn restored_focus(tab: LayoutTab, panes: Seq<(u64, PaneId)>, n: Node) -> PaneId {
    match tab.focus {
        Some(r) => match layout::local_of(panes, r) {
            Some(local) => local,
            None => workspace::leaves(n)[0],
        },
        None => workspace::leaves(n)[0],
    }
}

/// The tabs of a layout, as far as their panes are still there.
pub open spec fn place_tabs(
    ws: WorkspaceView,
    label: Seq<char>,
    tabs: Seq<LayoutTab>,
    panes: Seq<(u64, PaneId)>,
) -> WorkspaceView
    decreases tabs.len(),
{
    if tabs.len() == 0 {
        ws
    } else {
        let w = place_tabs(ws, label, tabs.drop_last(), panes);
        let tab = tabs.last();
        let (node, next) = layout::built(tab.root, panes, w.next_id);
        let w = WorkspaceView { next_id: next, ..w };
        match node {
            Some(n) => w.more_tab(
                TabView { title: label, layout: n, focus: restored_focus(tab, panes, n) },
            ),
            None => w,
        }
    }
}

/// The panes that a layout places.
pub open spec fn placed_by(tabs: Seq<LayoutTab>, panes: Seq<(u64, PaneId)>) -> Seq<PaneId>
    decreases tabs.len(),
{
    if tabs.len() == 0 {
        seq![]
    } else {
        placed_by(tabs.drop_last(), panes) + layout::locals(
            layout::layout_panes(tabs.last().root),
            panes,
        )
    }
}

/// A tab of its own for every pane that is not placed.
pub open spec fn place_rest(
    ws: WorkspaceView,
    label: Seq<char>,
    panes: Seq<(u64, PaneId)>,
    placed: Seq<PaneId>,
) -> WorkspaceView
    decreases panes.len(),
{
    if panes.len() == 0 {
        ws
    } else {
        let w = place_rest(ws, label, panes.drop_last(), placed);
        if placed.contains(panes.last().1) {
            w
        } else {
            w.more_tab(workspace::single(label, panes.last().1))
        }
    }
}

/// What asking for a target that may be connected already comes to.
#[derive(Debug, Clone, Copy, PartialEq, Eq, Structural)]
pub enum Existing {
    /// There is none: connect.
    New,
    /// It is there, and is on screen now.
    Shown,
    /// An attempt is under way.
    Connecting,
}

/// The workspace showing the first listed pane that is in a tab.
pub open spec fn shown_route(ws: WorkspaceView, routes: Seq<(u64, PaneId)>) -> Option<
    WorkspaceView,
>
    decreases routes.len(),
{
    if routes.len() == 0 {
        None
    } else {
        match shown_route(ws, routes.drop_last()) {
            Some(w) => Some(w),
            None => if workspace::tab_index(ws.tabs, routes.last().1) is Some {
                Some(ws.showing(routes.last().1))
            } else {
                None
            },
        }
    }
}

/// The layout of those tabs that start with a pane of the connection.
pub open spec fn layout_tabs(s: ClientView, tabs: Seq<TabView>, id: ConnId) -> Seq<LayoutTab>
    decreases tabs.len(),
{
    if tabs.len() == 0 {
        seq![]
    } else {
        let before = layout_tabs(s, tabs.drop_last(), id);
        let tab = tabs.last();
        if s.tab_on(tab, id) {
            match layout::described(tab.layout, remote_of(s.terms)) {
                Some(root) => before.push(
                    LayoutTab { root, focus: remote_of(s.terms)(tab.focus) },
                ),
                None => before,
            }
        } else {
            before
        }
    }
}

/// The terminals with a local one for every pane that has none.
pub open spec fn with_missing(
    terms: Seq<TermView>,
    live: Seq<PaneId>,
    title: Seq<char>,
) -> (Seq<TermView>, Seq<EffectView>)
    decreases live.len(),
{
    if live.len() == 0 {
        (terms, seq![])
    } else {
        let (ts, es) = with_missing(terms, live.drop_last(), title);
        let pane = live.last();
        if term_of(ts, pane) is Some {
            (ts, es)
        } else {
            (ts.push(local_term(pane, title)), es.push(EffectView::Spawn { pane }))
        }
    }
}

/// A local terminal that has just been started.
pub open spec fn local_term(pane: PaneId, title: Seq<char>) -> TermView {
    TermView { pane, remote: None, label: seq![], title, default_title: title }
}

/// The panes of terminals that are not in the tree.
pub open spec fn dead(terms: Seq<TermView>, live: Seq<PaneId>) -> Seq<PaneId>
    decreases terms.len(),
{
    if terms.len() == 0 {
        seq![]
    } else if live.contains(terms.last().pane) {
        dead(terms.drop_last(), live)
    } else {
        dead(terms.drop_last(), live).push(terms.last().pane)
    }
}

/// The panes that came from a daemon and wait for their place, which the next layout brings.
pub open spec fn waiting(conns: Seq<ConnView>) -> Seq<PaneId>
    decreases conns.len(),
{
    if conns.len() == 0 {
        seq![]
    } else {
        waiting(conns.drop_last()) + conns.last().restore_panes.map_values(
            |p: (u64, PaneId)| p.1,
        )
    }
}

/// Every connection can number one more pane.
pub open spec fn conns_room(conns: Seq<ConnView>) -> bool {
    forall|i: int| 0 <= i < conns.len() ==> (#[trigger] conns[i]).next_remote_id < u64::MAX
}

impl ClientView {
    /// The client's invariant: no terminal and no connection occurs twice, ids were handed out
    /// before, and panes that wait for their tab have ids of their own.
    pub open spec fn wf(self) -> bool {
        &&& self.ws.wf()
        &&& forall|i: int, j: int|
            0 <= i < j < self.terms.len() ==> (#[trigger] self.terms[i]).pane != (
            #[trigger] self.terms[j]).pane
        &&& forall|i: int, j: int|
            0 <= i < j < self.conns.len() ==> (#[trigger] self.conns[i]).id != (
            #[trigger] self.conns[j]).id
        &&& forall|i: int| 0 <= i < self.conns.len() ==> (#[trigger] self.conns[i]).id
            < self.next_conn
        &&& forall|i: int, j: int|
            0 <= i < self.conns.len() && 0 <= j < self.conns[i].restore_panes.len()
                ==> (#[trigger] self.conns[i].restore_panes[j]).1 < self.ws.next_id
        &&& forall|i: int, j: int|
            0 <= i < j < self.progress.len() ==> (#[trigger] self.progress[i]).conn != (
            #[trigger] self.progress[j]).conn
        &&& forall|i: int| 0 <= i < self.progress.len() ==> (#[trigger] self.progress[i]).conn
            < self.next_conn
    }

    /// No counter is about to run out: far beyond what a window can hand out.
    pub open spec fn has_room(self) -> bool {
        &&& self.ws.next_id < u64::MAX - 1
        &&& self.next_conn < u64::MAX
        &&& conns_room(self.conns)
    }

    pub open spec fn conn(self, id: ConnId) -> Option<ConnView> {
        conn_of(self.conns, id)
    }

    /// The local pane that stands for a daemon pane of a connection.
    pub open spec fn route(self, id: ConnId, remote: u64) -> Option<PaneId> {
        match self.conn(id) {
            Some(c) => layout::local_of(c.routes, remote),
            None => None,
        }
    }

    /// A remote pane is no longer reached through its connection; the connection goes with its
    /// last pane.
    pub open spec fn unrouted(self, pane: PaneId) -> (ClientView, Seq<EffectView>) {
        match backend_of(self.terms, pane) {
            Some(b) => match self.conn(b.conn) {
                Some(c) => {
                    let routes = drop_route(c.routes, b.remote_id);
                    if routes.len() == 0 {
                        (
                            ClientView { conns: drop_conn(self.conns, b.conn), ..self },
                            seq![EffectView::Disconnect { conn: b.conn }],
                        )
                    } else {
                        (
                            ClientView {
                                conns: set_conn(self.conns, ConnView { routes, ..c }),
                                ..self
                            },
                            seq![],
                        )
                    }
                },
                None => (self, seq![]),
            },
            None => (self, seq![]),
        }
    }

    /// A pane's terminal is gone, with its route.
    pub open spec fn forgotten(self, pane: PaneId) -> (ClientView, Seq<EffectView>) {
        let (s, es) = self.unrouted(pane);
        (
            ClientView { terms: drop_term(s.terms, pane), ..s },
            es.push(EffectView::Drop { pane }),
        )
    }

    /// A pane is closed because its shell is gone. The window goes with its last terminal.
    pub open spec fn closed(self, pane: PaneId) -> (ClientView, Seq<EffectView>) {
        let (s, es) = self.forgotten(pane);
        (
            ClientView { ws: s.ws.removed_pane(pane), ..s },
            es.push(
                if s.terms.len() == 0 {
                    EffectView::Exit
                } else {
                    EffectView::Redraw
                },
            ),
        )
    }

    /// A local pane stands for a daemon pane of a connection from now on. With `open` the daemon
    /// does not have the pane yet and is asked for it.
    pub open spec fn wired(self, conn: ConnId, remote_id: u64, local: PaneId, open: bool) -> (
        ClientView,
        Seq<EffectView>,
    ) {
        match self.conn(conn) {
            Some(c) => {
                let next = if c.next_remote_id > remote_id {
                    c.next_remote_id
                } else {
                    (remote_id + 1) as u64
                };
                let wired = ConnView {
                    routes: drop_route(c.routes, remote_id).push((remote_id, local)),
                    next_remote_id: next,
                    ..c
                };
                let term = TermView {
                    pane: local,
                    remote: Some(Backend { conn, remote_id }),
                    label: conn_label(c),
                    title: "shell"@,
                    default_title: "shell"@,
                };
                (
                    ClientView {
                        conns: set_conn(self.conns, wired),
                        terms: drop_term(self.terms, local).push(term),
                        ..self
                    },
                    seq![EffectView::Adopt { pane: local }] + if open {
                        seq![
                            EffectView::Send {
                                conn,
                                message: ControlView::Open {
                                    pane: remote_id,
                                    cols: self.cols,
                                    rows: self.rows,
                                    cwd_from: None,
                                },
                            },
                        ]
                    } else {
                        seq![]
                    },
                )
            },
            None => (self, seq![]),
        }
    }

    /// A new pane on a connection.
    pub open spec fn added(self, conn: ConnId, local: PaneId) -> (ClientView, Seq<EffectView>) {
        match self.conn(conn) {
            Some(c) => self.wired(conn, c.next_remote_id, local, true),
            None => (self, seq![]),
        }
    }

    /// The connection of the focused pane, if it is remote.
    pub open spec fn focused_conn(self) -> Option<ConnId> {
        match backend_of(self.terms, self.ws.tab().focus) {
            Some(b) => Some(b.conn),
            None => None,
        }
    }

    /// A pane is gone from the tree: a remote shell is killed, and the terminal forgotten.
    pub open spec fn retired(self, pane: PaneId) -> (ClientView, Seq<EffectView>) {
        let (s, es) = self.forgotten(pane);
        (
            s,
            match backend_of(self.terms, pane) {
                Some(b) => seq![
                    EffectView::Send {
                        conn: b.conn,
                        message: ControlView::Close { pane: b.remote_id },
                    },
                ],
                None => seq![],
            } + es,
        )
    }

    pub open spec fn retired_all(self, panes: Seq<PaneId>) -> (ClientView, Seq<EffectView>)
        decreases panes.len(),
    {
        if panes.len() == 0 {
            (self, seq![])
        } else {
            let (s, es) = self.retired_all(panes.drop_last());
            let (t, fs) = s.retired(panes.last());
            (t, es + fs)
        }
    }

    /// The terminals brought in step with the pane tree: one is started for every pane without
    /// one, and those of panes that are gone are dropped. A pane that waits for its place is not
    /// gone.
    pub open spec fn reconciled(self, title: Seq<char>) -> (ClientView, Seq<EffectView>) {
        let live = workspace::tabs_leaves(self.ws.tabs);
        let (terms, es) = with_missing(self.terms, live, title);
        let s = ClientView { terms, ..self };
        let (t, fs) = s.retired_all(dead(terms, live + waiting(self.conns)));
        (t, es + fs)
    }

    /// Panes are dropped here, while their shells go on at the daemon.
    pub open spec fn let_go(self, routes: Seq<(u64, PaneId)>) -> (ClientView, Seq<EffectView>)
        decreases routes.len(),
    {
        if routes.len() == 0 {
            (self, seq![])
        } else {
            let (s, es) = self.let_go(routes.drop_last());
            let pane = routes.last().1;
            (
                ClientView {
                    terms: drop_term(s.terms, pane),
                    ws: s.ws.removed_pane(pane),
                    ..s
                },
                es.push(EffectView::Drop { pane }),
            )
        }
    }

    /// A connection is given up without closing its panes at the daemon, so that the session can
    /// be attached again later. The window stays open with a fresh local tab if nothing is left.
    pub open spec fn detached(self, id: ConnId) -> (ClientView, Seq<EffectView>) {
        let (s, es) = self.let_go(
            match self.conn(id) {
                Some(c) => c.routes,
                None => seq![],
            },
        );
        (
            ClientView {
                conns: drop_conn(s.conns, id),
                progress: drop_progress(s.progress, id),
                ws: if s.ws.tabs.len() == 0 {
                    s.ws.new_tab()
                } else {
                    s.ws
                },
                ..s
            },
            es + (if self.conn(id) is Some {
                seq![EffectView::Disconnect { conn: id }]
            } else {
                seq![]
            }) + seq![EffectView::Redraw],
        )
    }

    /// A connection attempt begins.
    pub open spec fn connecting(
        self,
        target: TargetView,
        name: Option<Seq<char>>,
        now: u64,
    ) -> ClientView {
        let full = target_label(target.user, target.host, target.port);
        ClientView {
            progress: self.progress.push(
                ProgressView {
                    conn: self.next_conn,
                    target,
                    label: match name {
                        Some(n) => n,
                        None => full,
                    },
                    detail: "Connecting to "@ + full + " over SSH"@,
                    started: now,
                },
            ),
            next_conn: (self.next_conn + 1) as u64,
            ..self
        }
    }

    /// A connection is made: the daemon is greeted, and its restore burst awaited.
    pub open spec fn connected(
        self,
        id: ConnId,
        target: TargetView,
        name: Option<Seq<char>>,
        ephemeral: bool,
    ) -> (ClientView, Seq<EffectView>) {
        let detail = if ephemeral {
            "Opening remote shell"@
        } else {
            "Restoring potty-session"@
        };
        (
            ClientView {
                progress: self.progress.map_values(
                    |p: ProgressView|
                        if p.conn == id {
                            ProgressView { detail, ..p }
                        } else {
                            p
                        },
                ),
                conns: drop_conn(self.conns, id).push(fresh_conn(id, target, name, ephemeral)),
                ..self
            },
            seq![
                EffectView::Send {
                    conn: id,
                    message: ControlView::Hello { version: PROTOCOL_VERSION },
                },
            ],
        )
    }

    /// The panes that wait for their tab get one: the layout's trees where it covers them, and a
    /// tab of their own where it does not.
    pub open spec fn restored(self, id: ConnId) -> ClientView {
        match self.conn(id) {
            Some(c) => {
                let taken = ConnView { restore_panes: seq![], restore_layout: None, ..c };
                ClientView {
                    conns: set_conn(self.conns, taken),
                    ws: if c.restore_panes.len() == 0 {
                        self.ws
                    } else {
                        let tabs = match c.restore_layout {
                            Some(tabs) => tabs,
                            None => seq![],
                        };
                        place_rest(
                            place_tabs(self.ws, conn_label(c), tabs, c.restore_panes),
                            conn_label(c),
                            c.restore_panes,
                            placed_by(tabs, c.restore_panes),
                        )
                    },
                    ..self
                }
            },
            None => self,
        }
    }

    /// Whether a tab starts with a pane of a connection.
    pub open spec fn tab_on(self, tab: TabView, id: ConnId) -> bool {
        backend_of(self.terms, workspace::leaves(tab.layout)[0]) matches Some(b) && b.conn == id
    }

    pub open spec fn owns_tab(self, id: ConnId) -> bool {
        exists|i: int| 0 <= i < self.ws.tabs.len() && self.tab_on(#[trigger] self.ws.tabs[i], id)
    }

    /// A persistent connection that is ready has at least one tab: if none is left, it gets a
    /// fresh pane in a new one.
    pub open spec fn with_tab_for(self, id: ConnId) -> (ClientView, Seq<EffectView>) {
        match self.conn(id) {
            Some(c) => {
                if c.ephemeral || !c.ready || self.owns_tab(id) {
                    (self, seq![])
                } else {
                    let s = ClientView { ws: self.ws.new_tab(), ..self };
                    s.added(id, s.ws.tab().focus)
                }
            },
            None => (self, seq![]),
        }
    }

    /// The restore burst is over.
    pub open spec fn got_ready(self, id: ConnId) -> (ClientView, Seq<EffectView>) {
        let s = self.restored(id);
        let (t, es) = match s.conn(id) {
            Some(c) => (
                ClientView {
                    conns: set_conn(s.conns, ConnView { ready: true, remembered: true, ..c }),
                    progress: drop_progress(s.progress, id),
                    ..s
                },
                if c.remembered {
                    seq![]
                } else {
                    seq![EffectView::Remember { conn: id }]
                },
            ),
            None => (ClientView { progress: drop_progress(s.progress, id), ..s }, seq![]),
        };
        let (u, fs) = t.with_tab_for(id);
        (u, es + fs + seq![EffectView::Redraw])
    }

    /// A message or output arrives from a connection.
    pub open spec fn heard(self, id: ConnId, what: IncomingView) -> (ClientView, Seq<EffectView>) {
        match what {
            IncomingView::Data { pane, bytes } => match self.route(id, pane) {
                Some(local) => (
                    self,
                    (if backend_of(self.terms, local) is Some {
                        seq![EffectView::Paint { pane: local, bytes }]
                    } else {
                        seq![]
                    }).push(EffectView::Touch { pane: local }),
                ),
                None => (self, seq![]),
            },
            IncomingView::Layout(tabs) => match self.conn(id) {
                Some(c) => {
                    let s = ClientView {
                        conns: set_conn(self.conns, ConnView { restore_layout: Some(tabs), ..c }),
                        ..self
                    };
                    if c.ready {
                        (s.restored(id), seq![EffectView::Redraw])
                    } else {
                        (s, seq![])
                    }
                },
                None => (self, seq![]),
            },
            IncomingView::Control(ControlView::Restore { pane }) => {
                let local = self.ws.next_id;
                let s = ClientView {
                    ws: WorkspaceView { next_id: (local + 1) as u64, ..self.ws },
                    ..self
                };
                let (t, es) = s.wired(id, pane, local, false);
                match t.conn(id) {
                    Some(c) => (
                        ClientView {
                            conns: set_conn(
                                t.conns,
                                ConnView { restore_panes: c.restore_panes.push((pane, local)), ..c },
                            ),
                            ..t
                        },
                        es,
                    ),
                    None => (t, es),
                }
            },
            IncomingView::Control(ControlView::Ready) => self.got_ready(id),
            IncomingView::Control(ControlView::Exited { pane }) => match self.route(id, pane) {
                Some(local) => self.closed(local),
                None => (self, seq![]),
            },
            IncomingView::Control(ControlView::Resize { pane, cols, rows }) => match self.route(
                id,
                pane,
            ) {
                Some(local) => (self, seq![EffectView::Conform { pane: local, cols, rows }]),
                None => (self, seq![]),
            },
            IncomingView::Control(ControlView::Welcome { client, .. }) => match self.conn(id) {
                Some(c) => (
                    ClientView { conns: set_conn(self.conns, ConnView { client, ..c }), ..self },
                    seq![],
                ),
                None => (self, seq![]),
            },
            IncomingView::Control(ControlView::Focus { owner }) => match self.conn(id) {
                Some(c) => (
                    ClientView { conns: set_conn(self.conns, ConnView { owner, ..c }), ..self },
                    seq![],
                ),
                None => (self, seq![]),
            },
            IncomingView::Control(_) => (self, seq![]),
        }
    }

    /// There are ids enough for whatever arrives.
    pub open spec fn room_to_hear(self, id: ConnId, what: IncomingView) -> bool {
        &&& self.has_room()
        &&& what matches IncomingView::Control(ControlView::Restore { pane }) ==> pane < u64::MAX
        &&& what matches IncomingView::Layout(tabs) ==> self.ws.next_id + layout_splits(tabs)
            < u64::MAX
        &&& self.conn(id) matches Some(c) ==> (c.restore_layout matches Some(tabs)
            ==> self.ws.next_id + layout_splits(tabs) < u64::MAX)
    }

    /// The window showing the first of a connection's panes that is in a tab.
    pub open spec fn showing_conn(self, id: ConnId) -> Option<ClientView> {
        match self.conn(id) {
            Some(c) => match shown_route(self.ws, c.routes) {
                Some(ws) => Some(ClientView { ws, ..self }),
                None => None,
            },
            None => None,
        }
    }

    /// What asking for a target again comes to: a second attempt is refused while the first is
    /// under way, and a persistent connection that is there is shown in place of a new one.
    pub open spec fn asked_again(self, target: TargetView) -> (ClientView, Existing) {
        if seqs::find_where(self.progress, |p: ProgressView| p.target == target) is Some {
            (self, Existing::Connecting)
        } else {
            match seqs::find_where(
                self.conns,
                |c: ConnView| !c.ephemeral && c.target == target,
            ) {
                Some(c) => match self.showing_conn(c.id) {
                    Some(s) => (s, Existing::Shown),
                    None => (self, Existing::Connecting),
                },
                None => (self, Existing::New),
            }
        }
    }

    /// The tabs of a connection, as the layout to store at its daemon.
    pub open spec fn layout_for(self, id: ConnId) -> Seq<LayoutTab> {
        layout_tabs(self, self.ws.tabs, id)
    }

    /// Whether this client's layout is the one to store: the handshake is over, there is a daemon
    /// to store it, and this client holds the focus there.
    pub open spec fn drives(self, id: ConnId) -> bool {
        self.conn(id) matches Some(c) && c.ready && !c.ephemeral && c.client == c.owner
    }

    /// Whether a pane follows another client: that one holds the focus at the daemon, and its
    /// geometry is the pane's.
    pub open spec fn follows(self, pane: PaneId) -> bool {
        &&& backend_of(self.terms, pane) matches Some(b)
        &&& self.conn(b.conn) matches Some(c)
        &&& !c.ephemeral
        &&& c.owner != 0
        &&& c.owner != c.client
    }

    /// A layout is sent if it is not the one that was sent last.
    pub open spec fn pushed(self, id: ConnId, json: Seq<char>) -> (ClientView, Seq<EffectView>) {
        match self.conn(id) {
            Some(c) => {
                if self.drives(id) && c.pushed_layout != Some(json) {
                    (
                        ClientView {
                            conns: set_conn(self.conns, ConnView { pushed_layout: Some(json), ..c }),
                            ..self
                        },
                        seq![
                            EffectView::Send {
                                conn: id,
                                message: ControlView::LayoutTree { json },
                            },
                        ],
                    )
                } else {
                    (self, seq![])
                }
            },
            None => (self, seq![]),
        }
    }

    /// The stream of a connection ended.
    pub open spec fn disconnected(self, id: ConnId) -> (ClientView, Seq<EffectView>) {
        let s = ClientView { progress: drop_progress(self.progress, id), ..self };
        if self.conn(id) is Some {
            s.detached(id)
        } else {
            (s, seq![])
        }
    }

    /// A connection attempt failed. One that never got a pane is dropped.
    pub open spec fn failed(self, id: ConnId) -> (ClientView, Seq<EffectView>) {
        let s = ClientView { progress: drop_progress(self.progress, id), ..self };
        match s.conn(id) {
            Some(c) => if c.routes.len() == 0 {
                (
                    ClientView { conns: drop_conn(s.conns, id), ..s },
                    seq![EffectView::Disconnect { conn: id }],
                )
            } else {
                (s, seq![])
            },
            None => (s, seq![]),
        }
    }

    /// After a change of the workspace, the focused pane becomes one of the given connection.
    pub open spec fn on_same_conn(self, conn: Option<ConnId>) -> (ClientView, Seq<EffectView>) {
        match conn {
            Some(c) => self.added(c, self.ws.tab().focus),
            None => (self, seq![]),
        }
    }
}

impl RemoteTarget {
    pub fn copy(&self) -> (t: RemoteTarget)
        ensures
            t == *self,
    {
        RemoteTarget {
            user: self.user.clone(),
            host: self.host.clone(),
            port: self.port,
            command: self.command.clone(),
        }
    }

    /// Whether two targets are the same.
    pub fn same(&self, other: &RemoteTarget) -> (b: bool)
        ensures
            b == (self@ == other@),
    {
        self.user == other.user && self.host == other.host && self.port == other.port
            && self.command == other.command
    }

    /// The target as the user would type it: `[user@]host[:port]`.
    pub fn label(&self) -> (s: String)
        ensures
            s@ == target_label(self@.user, self@.host, self@.port),
    {
        host_label(&self.user, &self.host, self.port)
    }
}

/// `[user@]host[:port]`, the port left out where it is the usual one.
pub fn host_label(user: &String, host: &String, port: u16) -> (s: String)
    ensures
        s@ == target_label(user@, host@, port),
{
    let mut s = String::new();
    if !user.as_str().is_empty() {
        s.append(user.as_str());
        s.append("@");
        assert(s@ =~= user@ + "@"@);
    } else {
        assert(s@ =~= seq![]);
    }
    let ghost head = s@;
    s.append(host.as_str());
    if port != 22 {
        s.append(":");
        push_number(&mut s, port as u128);
    }
    assert(s@ =~= target_label(user@, host@, port));
    s
}

fn push_effect(out: &mut Vec<Effect>, e: Effect)
    ensures
        effects(final(out)@) == effects(old(out)@).push(e@),
{
    out.push(e);
    assert(effects(out@) =~= effects(old(out)@).push(e@));
}

proof fn lemma_conn_unique(conns: Seq<ConnView>, k: int)
    requires
        0 <= k < conns.len(),
        forall|i: int, j: int|
            0 <= i < j < conns.len() ==> (#[trigger] conns[i]).id != (#[trigger] conns[j]).id,
    ensures
        conn_of(conns, conns[k].id) == Some(conns[k]),
        drop_conn(conns, conns[k].id) == conns.remove(k),
        forall|c: ConnView| c.id == conns[k].id ==> #[trigger] set_conn(conns, c) == conns.update(
            k,
            c,
        ),
{
    let id = conns[k].id;
    seqs::lemma_find_one(conns, |c: ConnView| c.id == id, k);
    seqs::lemma_drop_one(conns, |c: ConnView| c.id == id, k);
    assert forall|c: ConnView| c.id == id implies #[trigger] set_conn(conns, c) == conns.update(
        k,
        c,
    ) by {
        assert(set_conn(conns, c) =~= conns.update(k, c));
    }
}

impl Client {
    /// A window with one tab, and nothing running in it yet.
    pub fn new(cols: u16, rows: u16) -> (c: Client)
        ensures
            c@.wf(),
            c@ == (ClientView {
                ws: WorkspaceView {
                    tabs: seq![workspace::single("1"@, 0)],
                    active: 0,
                    next_id: 1,
                },
                terms: seq![],
                conns: seq![],
                progress: seq![],
                next_conn: 0,
                cols,
                rows,
            }),
    {
        let c = Client {
            workspace: Workspace::new(),
            terms: Vec::new(),
            conns: Vec::new(),
            progress: Vec::new(),
            next_conn: 0,
            cols,
            rows,
        };
        assert(c@.terms =~= seq![]);
        assert(c@.conns =~= seq![]);
        assert(c@.progress =~= seq![]);
        c
    }

    /// Where the terminal of a pane is, if there is one.
    pub fn term_at(&self, pane: PaneId) -> (r: Option<usize>)
        ensures
            match r {
                Some(i) => i < self@.terms.len() && self@.terms[i as int].pane == pane && term_of(
                    self@.terms,
                    pane,
                ) == Some(self@.terms[i as int]),
                None => term_of(self@.terms, pane) is None,
            },
    {
        let mut i: usize = self.terms.len();
        assert(self@.terms.take(i as int) =~= self@.terms);
        while i > 0
            invariant
                i <= self.terms@.len(),
                term_of(self@.terms, pane) == term_of(self@.terms.take(i as int), pane),
            decreases i,
        {
            assert(self@.terms.take(i as int).drop_last() =~= self@.terms.take(i - 1));
            assert(self@.terms[i - 1] == self.terms@[i - 1]@);
            if self.terms[i - 1].pane == pane {
                return Some(i - 1);
            }
            i = i - 1;
        }
        None
    }

    /// Whether there are numbers left for new panes and connections.
    pub fn can_grow(&self) -> (b: bool)
        ensures
            b == self@.has_room(),
    {
        if self.workspace.next_id >= u64::MAX - 1 || self.next_conn == u64::MAX {
            return false;
        }
        for i in 0..self.conns.len()
            invariant
                forall|k: int|
                    0 <= k < i ==> (#[trigger] self@.conns[k]).next_remote_id < u64::MAX,
        {
            assert(self@.conns[i as int] == self.conns@[i as int]@);
            if self.conns[i].next_remote_id == u64::MAX {
                return false;
            }
        }
        true
    }

    fn tabs_fit(&self, tabs: &Vec<LayoutTab>) -> (b: bool)
        requires
            self@.has_room(),
        ensures
            b == (self@.ws.next_id + layout_splits(tabs@) < u64::MAX),
    {
        let mut room: u64 = u64::MAX - 1 - self.workspace.next_id;
        let ghost all = room;
        let mut i: usize = 0;
        assert(tabs@.take(0) =~= seq![]);
        while i < tabs.len()
            invariant
                i <= tabs@.len(),
                all == u64::MAX - 1 - self@.ws.next_id,
                layout_splits(tabs@.take(i as int)) <= all,
                room == all - layout_splits(tabs@.take(i as int)),
            decreases tabs.len() - i,
        {
            proof {
                let t = tabs@.take(i + 1);
                assert(t.drop_last() =~= tabs@.take(i as int));
                lemma_splits_grow(tabs@, i + 1);
            }
            match layout::room_left(&tabs[i].root, room) {
                Some(n) => {
                    room = n;
                },
                None => {
                    return false;
                },
            }
            i = i + 1;
        }
        assert(tabs@.take(i as int) =~= tabs@);
        true
    }

    /// Whether there are numbers enough for whatever arrives from a connection.
    pub fn can_hear(&self, id: ConnId, what: &Incoming) -> (b: bool)
        ensures
            b == self@.room_to_hear(id, what@),
    {
        if !self.can_grow() {
            return false;
        }
        match what {
            Incoming::Control(Control::Restore { pane }) => {
                if *pane == u64::MAX {
                    return false;
                }
            },
            Incoming::Layout(l) => {
                if !self.tabs_fit(&l.tabs) {
                    return false;
                }
            },
            _ => {},
        }
        match self.conn_at(id) {
            Some(i) => match &self.conns[i].restore_layout {
                Some(l) => {
                    assert(self@.conns[i as int] == self.conns@[i as int]@);
                    self.tabs_fit(&l.tabs)
                },
                None => {
                    assert(self@.conns[i as int] == self.conns@[i as int]@);
                    true
                },
            },
            None => true,
        }
    }

    /// Where a connection is, if there is one of that id.
    pub fn conn_at(&self, id: ConnId) -> (r: Option<usize>)
        ensures
            match r {
                Some(i) => i < self@.conns.len() && self@.conns[i as int].id == id && self@.conn(id)
                    == Some(self@.conns[i as int]),
                None => self@.conn(id) is None,
            },
    {
        let mut i: usize = self.conns.len();
        assert(self@.conns.take(i as int) =~= self@.conns);
        while i > 0
            invariant
                i <= self.conns@.len(),
                self@.conn(id) == conn_of(self@.conns.take(i as int), id),
            decreases i,
        {
            assert(self@.conns.take(i as int).drop_last() =~= self@.conns.take(i - 1));
            assert(self@.conns[i - 1] == self.conns@[i - 1]@);
            if self.conns[i - 1].id == id {
                return Some(i - 1);
            }
            i = i - 1;
        }
        None
    }

    /// Where a pane lives, if it is a live remote one.
    pub fn backend(&self, pane: PaneId) -> (r: Option<Backend>)
        ensures
            r == backend_of(self@.terms, pane),
    {
        match self.term_at(pane) {
            Some(i) => self.terms[i].remote,
            None => None,
        }
    }

    fn remove_term(&mut self, pane: PaneId)
        requires
            old(self)@.wf(),
        ensures
            final(self)@ == (ClientView { terms: drop_term(old(self)@.terms, pane), ..old(self)@ }),
            final(self)@.wf(),
            forall|i: int|
                0 <= i < final(self)@.terms.len() ==> (#[trigger] final(self)@.terms[i]).pane
                    != pane,
    {
        let ghost was = self@;
        match self.term_at(pane) {
            Some(i) => {
                self.terms.remove(i);
                proof {
                    seqs::lemma_drop_one(was.terms, |t: TermView| t.pane == pane, i as int);
                    assert(self@.terms =~= was.terms.remove(i as int));
                }
            },
            None => {
                proof {
                    seqs::lemma_found(was.terms, |t: TermView| t.pane == pane);
                    seqs::lemma_drop_absent(was.terms, |t: TermView| t.pane == pane);
                }
            },
        }
    }

    fn remove_conn(&mut self, id: ConnId)
        requires
            old(self)@.wf(),
        ensures
            final(self)@ == (ClientView { conns: drop_conn(old(self)@.conns, id), ..old(self)@ }),
            final(self)@.wf(),
    {
        let ghost was = self@;
        match self.conn_at(id) {
            Some(i) => {
                self.conns.remove(i);
                proof {
                    lemma_conn_unique(was.conns, i as int);
                    lemma_removed_conn(was, i as int);
                    assert(self@.conns =~= was.conns.remove(i as int));
                }
            },
            None => {
                proof {
                    seqs::lemma_found(was.conns, |c: ConnView| c.id == id);
                    seqs::lemma_drop_absent(was.conns, |c: ConnView| c.id == id);
                }
            },
        }
    }

    fn remove_progress(&mut self, conn: ConnId)
        requires
            old(self)@.wf(),
        ensures
            final(self)@ == (ClientView {
                progress: drop_progress(old(self)@.progress, conn),
                ..old(self)@
            }),
            final(self)@.wf(),
    {
        let ghost was = self@;
        let mut i: usize = 0;
        while i < self.progress.len() && self.progress[i].conn != conn
            invariant
                i <= self.progress@.len(),
                self@ == was,
                forall|k: int| 0 <= k < i ==> (#[trigger] was.progress[k]).conn != conn,
            decreases self.progress.len() - i,
        {
            assert(was.progress[i as int] == self.progress@[i as int]@);
            i = i + 1;
        }
        if i < self.progress.len() {
            assert(was.progress[i as int] == self.progress@[i as int]@);
            self.progress.remove(i);
            proof {
                seqs::lemma_drop_one(was.progress, |p: ProgressView| p.conn == conn, i as int);
                assert(self@.progress =~= was.progress.remove(i as int));
                assert(self@.terms =~= was.terms);
                assert(self@.conns =~= was.conns);
            }
        } else {
            proof {
                seqs::lemma_drop_absent(was.progress, |p: ProgressView| p.conn == conn);
            }
        }
    }

    /// Put a changed connection back in its place.
    fn put_conn(&mut self, i: usize, c: Connection)
        requires
            i <= old(self)@.conns.len(),
        ensures
            final(self)@ == (ClientView {
                conns: old(self)@.conns.insert(i as int, c@),
                ..old(self)@
            }),
    {
        self.conns.insert(i, c);
        assert(self@.conns =~= old(self)@.conns.insert(i as int, c@));
        assert(self@.terms =~= old(self)@.terms);
        assert(self@.progress =~= old(self)@.progress);
    }

    /// Take a connection out to change it.
    fn take_conn(&mut self, i: usize) -> (c: Connection)
        requires
            i < old(self)@.conns.len(),
        ensures
            c@ == old(self)@.conns[i as int],
            final(self)@ == (ClientView {
                conns: old(self)@.conns.remove(i as int),
                ..old(self)@
            }),
    {
        let c = self.conns.remove(i);
        assert(self@.conns =~= old(self)@.conns.remove(i as int));
        assert(self@.terms =~= old(self)@.terms);
        assert(self@.progress =~= old(self)@.progress);
        c
    }

    fn drop_remote_route(&mut self, out: &mut Vec<Effect>, pane: PaneId)
        requires
            old(self)@.wf(),
        ensures
            final(self)@ == old(self)@.unrouted(pane).0,
            final(self)@.wf(),
            effects(final(out)@) == effects(old(out)@) + old(self)@.unrouted(pane).1,
    {
        let ghost was = self@;
        assert(effects(out@) + Seq::<EffectView>::empty() =~= effects(out@));
        let b = match self.backend(pane) {
            Some(b) => b,
            None => {
                return;
            },
        };
        match self.conn_at(b.conn) {
            Some(i) => {
                let mut c = self.take_conn(i);
                let routes = without_route(&c.routes, b.remote_id);
                let empty: bool = routes.len() == 0;
                if empty {
                    push_effect(out, Effect::Disconnect { conn: b.conn });
                    assert(effects(out@) =~= effects(old(out)@) + was.unrouted(pane).1);
                    proof {
                        lemma_conn_unique(was.conns, i as int);
                        lemma_removed_conn(was, i as int);
                    }
                } else {
                    c.routes = routes;
                    proof {
                        let k = i as int;
                        assert forall|j: int| 0 <= j < c@.restore_panes.len() implies (
                        #[trigger] c@.restore_panes[j]).1 < was.ws.next_id by {
                            assert(was.conns[k].restore_panes[j].1 < was.ws.next_id);
                        }
                        lemma_changed_conn(was, k, c@);
                    }
                    self.put_conn(i, c);
                }
            },
            None => {},
        }
    }

    fn forget(&mut self, out: &mut Vec<Effect>, pane: PaneId)
        requires
            old(self)@.wf(),
        ensures
            final(self)@ == old(self)@.forgotten(pane).0,
            final(self)@.wf(),
            effects(final(out)@) == effects(old(out)@) + old(self)@.forgotten(pane).1,
            forall|i: int|
                0 <= i < final(self)@.terms.len() ==> (#[trigger] final(self)@.terms[i]).pane
                    != pane,
    {
        self.drop_remote_route(out, pane);
        self.remove_term(pane);
        push_effect(out, Effect::Drop { pane });
        assert(effects(out@) =~= effects(old(out)@) + old(self)@.forgotten(pane).1);
    }

    /// Remove a pane whose shell is gone.
    pub fn close_pane(&mut self, pane: PaneId) -> (out: Vec<Effect>)
        requires
            old(self)@.wf(),
        ensures
            (final(self)@, effects(out@)) == old(self)@.closed(pane),
            final(self)@.wf(),
    {
        let mut out: Vec<Effect> = Vec::new();
        assert(effects(out@) =~= seq![]);
        self.forget(&mut out, pane);
        self.workspace.remove_pane(pane);
        if self.terms.len() == 0 {
            push_effect(&mut out, Effect::Exit);
        } else {
            push_effect(&mut out, Effect::Redraw);
        }
        assert(effects(out@) =~= old(self)@.closed(pane).1);
        out
    }

    fn wire_remote_pane(
        &mut self,
        out: &mut Vec<Effect>,
        conn: ConnId,
        remote_id: u64,
        local: PaneId,
        open: bool,
    )
        requires
            old(self)@.wf(),
            remote_id < u64::MAX,
        ensures
            final(self)@ == old(self)@.wired(conn, remote_id, local, open).0,
            final(self)@.wf(),
            effects(final(out)@) == effects(old(out)@) + old(self)@.wired(
                conn,
                remote_id,
                local,
                open,
            ).1,
    {
        let ghost was = self@;
        match self.conn_at(conn) {
            Some(i) => {
                let mut c = self.take_conn(i);
                let ghost before = c@;
                let label = match &c.display_name {
                    Some(n) => n.clone(),
                    None => c.target.host.clone(),
                };
                assert(label@ == conn_label(before));
                let mut routes = without_route(&c.routes, remote_id);
                routes.push((remote_id, local));
                c.routes = routes;
                if c.next_remote_id <= remote_id {
                    c.next_remote_id = remote_id + 1;
                }
                proof {
                    let k = i as int;
                    assert forall|j: int| 0 <= j < c@.restore_panes.len() implies (
                    #[trigger] c@.restore_panes[j]).1 < was.ws.next_id by {
                        assert(was.conns[k].restore_panes[j].1 < was.ws.next_id);
                    }
                    lemma_changed_conn(was, k, c@);
                }
                self.put_conn(i, c);
                self.remove_term(local);
                let ghost mid = self@;
                let term = Term {
                    pane: local,
                    remote: Some(Backend { conn, remote_id }),
                    label,
                    title: "shell".to_owned(),
                    default_title: "shell".to_owned(),
                };
                self.terms.push(term);
                assert(self@.terms =~= mid.terms.push(term@));
                push_effect(out, Effect::Adopt { pane: local });
                if open {
                    let message = Control::Open {
                        pane: remote_id,
                        cols: self.cols,
                        rows: self.rows,
                        cwd_from: None,
                    };
                    push_effect(out, Effect::Send { conn, message });
                }
                assert(effects(out@) =~= effects(old(out)@) + was.wired(
                    conn,
                    remote_id,
                    local,
                    open,
                ).1);
            },
            None => {
                assert(effects(out@) + Seq::<EffectView>::empty() =~= effects(out@));
            },
        }
    }

    fn add_remote_pane(&mut self, out: &mut Vec<Effect>, conn: ConnId, local: PaneId)
        requires
            old(self)@.wf(),
            conns_room(old(self)@.conns),
        ensures
            final(self)@ == old(self)@.added(conn, local).0,
            final(self)@.wf(),
            effects(final(out)@) == effects(old(out)@) + old(self)@.added(conn, local).1,
    {
        match self.conn_at(conn) {
            Some(i) => {
                let next: u64 = self.conns[i].next_remote_id;
                assert(self@.conns[i as int] == self.conns@[i as int]@);
                self.wire_remote_pane(out, conn, next, local, true);
            },
            None => {
                assert(effects(out@) + Seq::<EffectView>::empty() =~= effects(out@));
            },
        }
    }

    /// Split the focused pane. From a remote pane the new one is another shell on the *same*
    /// connection; from a local pane it is a local one.
    pub fn split_pane(&mut self, split: Split) -> (out: Vec<Effect>)
        requires
            old(self)@.wf(),
            old(self)@.has_room(),
            old(self)@.ws.active < old(self)@.ws.tabs.len(),
        ensures
            (final(self)@, effects(out@)) == (ClientView {
                ws: old(self)@.ws.splitted(split),
                ..old(self)@
            }).on_same_conn(old(self)@.focused_conn()),
            final(self)@.wf(),
    {
        let conn: Option<ConnId> = match self.backend(self.workspace.active_tab().focus) {
            Some(b) => Some(b.conn),
            None => None,
        };
        self.workspace.split(split);
        proof {
            lemma_later_ids(old(self)@, self@);
        }
        self.claim_focused(conn)
    }

    /// A new tab. From a remote pane it is one on the same connection; otherwise a local one.
    pub fn new_tab(&mut self) -> (out: Vec<Effect>)
        requires
            old(self)@.wf(),
            old(self)@.has_room(),
            old(self)@.ws.active < old(self)@.ws.tabs.len(),
        ensures
            (final(self)@, effects(out@)) == (ClientView {
                ws: old(self)@.ws.new_tab(),
                ..old(self)@
            }).on_same_conn(old(self)@.focused_conn()),
            final(self)@.wf(),
    {
        let conn: Option<ConnId> = match self.backend(self.workspace.active_tab().focus) {
            Some(b) => Some(b.conn),
            None => None,
        };
        self.workspace.new_tab();
        proof {
            lemma_later_ids(old(self)@, self@);
        }
        self.claim_focused(conn)
    }

    fn claim_focused(&mut self, conn: Option<ConnId>) -> (out: Vec<Effect>)
        requires
            old(self)@.wf(),
            old(self)@.ws.active < old(self)@.ws.tabs.len(),
            conns_room(old(self)@.conns),
        ensures
            (final(self)@, effects(out@)) == old(self)@.on_same_conn(conn),
            final(self)@.wf(),
    {
        let mut out: Vec<Effect> = Vec::new();
        assert(effects(out@) =~= seq![]);
        match conn {
            Some(id) => {
                let local: PaneId = self.workspace.active_tab().focus;
                self.add_remote_pane(&mut out, id, local);
                assert(effects(out@) =~= old(self)@.added(id, local).1);
            },
            None => {},
        }
        out
    }

    fn retire(&mut self, out: &mut Vec<Effect>, pane: PaneId)
        requires
            old(self)@.wf(),
        ensures
            final(self)@ == old(self)@.retired(pane).0,
            final(self)@.wf(),
            final(self)@.ws == old(self)@.ws,
            effects(final(out)@) == effects(old(out)@) + old(self)@.retired(pane).1,
    {
        match self.backend(pane) {
            Some(b) => {
                let message = Control::Close { pane: b.remote_id };
                push_effect(out, Effect::Send { conn: b.conn, message });
            },
            None => {},
        }
        self.forget(out, pane);
        assert(effects(out@) =~= effects(old(out)@) + old(self)@.retired(pane).1);
    }

    /// Keep the live terminals in step with the pane tree. Called after any action that changes
    /// the tree. `title` is what a local shell's title starts as.
    pub fn reconcile_terms(&mut self, title: &String) -> (out: Vec<Effect>)
        requires
            old(self)@.wf(),
        ensures
            (final(self)@, effects(out@)) == old(self)@.reconciled(title@),
            final(self)@.wf(),
    {
        let ghost was = self@;
        let live = self.workspace.all_leaves();
        let mut out: Vec<Effect> = Vec::new();
        assert(effects(out@) =~= seq![]);
        let mut i: usize = 0;
        assert(live@.take(0) =~= seq![]);
        while i < live.len()
            invariant
                i <= live@.len(),
                self@.wf(),
                self@ == (ClientView { terms: self@.terms, ..was }),
                (self@.terms, effects(out@)) == with_missing(
                    was.terms,
                    live@.take(i as int),
                    title@,
                ),
            decreases live.len() - i,
        {
            let pane: PaneId = live[i];
            let ghost before = self@;
            if self.term_at(pane).is_none() {
                let t = Term {
                    pane,
                    remote: None,
                    label: String::new(),
                    title: title.clone(),
                    default_title: title.clone(),
                };
                assert(t@ =~= local_term(pane, title@));
                self.terms.push(t);
                push_effect(&mut out, Effect::Spawn { pane });
                proof {
                    assert(self@.terms =~= before.terms.push(t@));
                    seqs::lemma_found(before.terms, |t: TermView| t.pane == pane);
                    assert forall|a: int, b: int| 0 <= a < b < self@.terms.len() implies (
                    #[trigger] self@.terms[a]).pane != (#[trigger] self@.terms[b]).pane by {
                        assert(before.terms[a].pane != pane);
                        if b < before.terms.len() {
                            assert(self@.terms[b] == before.terms[b]);
                        }
                    }
                    assert(self@ == (ClientView { terms: self@.terms, ..before }));
                    lemma_other_terms(before, self@.terms);
                }
            }
            i = i + 1;
            assert(live@.take(i as int).drop_last() =~= live@.take(i - 1));
        }
        assert(live@.take(i as int) =~= live@);
        let ghost spawned = self@;
        let ghost es = effects(out@);
        let mut kept = live;
        let mut waits = self.waiting_panes();
        kept.append(&mut waits);
        let gone = self.dead_panes(&kept);
        let mut k: usize = 0;
        assert(gone@.take(0) =~= seq![]);
        assert(effects(out@) =~= es + Seq::<EffectView>::empty());
        while k < gone.len()
            invariant
                k <= gone@.len(),
                self@.wf(),
                self@ == spawned.retired_all(gone@.take(k as int)).0,
                effects(out@) == es + spawned.retired_all(gone@.take(k as int)).1,
            decreases gone.len() - k,
        {
            self.retire(&mut out, gone[k]);
            k = k + 1;
            proof {
                assert(gone@.take(k as int).drop_last() =~= gone@.take(k - 1));
                assert(effects(out@) =~= es + spawned.retired_all(gone@.take(k as int)).1);
            }
        }
        assert(gone@.take(k as int) =~= gone@);
        out
    }

    /// Whether a pane follows another client, so that its size is not this window's to choose.
    pub fn follows(&self, pane: PaneId) -> (b: bool)
        ensures
            b == self@.follows(pane),
    {
        match self.backend(pane) {
            Some(b) => match self.conn_at(b.conn) {
                Some(i) => {
                    let c = &self.conns[i];
                    assert(self@.conns[i as int] == c@);
                    !c.ephemeral && c.owner != 0 && c.owner != c.client
                },
                None => false,
            },
            None => false,
        }
    }

    fn waiting_panes(&self) -> (r: Vec<PaneId>)
        ensures
            r@ == waiting(self@.conns),
    {
        let mut r: Vec<PaneId> = Vec::new();
        let mut i: usize = 0;
        assert(self@.conns.take(0) =~= seq![]);
        while i < self.conns.len()
            invariant
                i <= self.conns@.len(),
                r@ == waiting(self@.conns.take(i as int)),
            decreases self.conns.len() - i,
        {
            let ghost before = r@;
            let panes = &self.conns[i].restore_panes;
            let ghost own = panes@.map_values(|p: (u64, PaneId)| p.1);
            let mut j: usize = 0;
            assert(before =~= before + own.take(0));
            while j < panes.len()
                invariant
                    j <= panes@.len(),
                    own == panes@.map_values(|p: (u64, PaneId)| p.1),
                    r@ == before + own.take(j as int),
                decreases panes.len() - j,
            {
                r.push(panes[j].1);
                j = j + 1;
                assert(before + own.take(j as int) =~= (before + own.take(j - 1)).push(
                    own[j - 1],
                ));
            }
            i = i + 1;
            proof {
                let cs = self@.conns.take(i as int);
                assert(cs.drop_last() =~= self@.conns.take(i - 1));
                assert(cs.last() == self.conns@[i - 1]@);
                assert(own.take(j as int) =~= own);
            }
        }
        assert(self@.conns.take(i as int) =~= self@.conns);
        r
    }

    fn dead_panes(&self, live: &Vec<PaneId>) -> (gone: Vec<PaneId>)
        ensures
            gone@ == dead(self@.terms, live@),
    {
        let mut gone: Vec<PaneId> = Vec::new();
        let mut i: usize = 0;
        assert(self@.terms.take(0) =~= seq![]);
        while i < self.terms.len()
            invariant
                i <= self.terms@.len(),
                gone@ == dead(self@.terms.take(i as int), live@),
            decreases self.terms.len() - i,
        {
            let pane: PaneId = self.terms[i].pane;
            if !listed(live, pane) {
                gone.push(pane);
            }
            i = i + 1;
            proof {
                let ts = self@.terms.take(i as int);
                assert(ts.drop_last() =~= self@.terms.take(i - 1));
                assert(ts.last() == self.terms@[i - 1]@);
            }
        }
        assert(self@.terms.take(i as int) =~= self@.terms);
        gone
    }

    /// Give up a connection locally *without* killing its remote shells.
    pub fn detach_connection(&mut self, id: ConnId) -> (out: Vec<Effect>)
        requires
            old(self)@.wf(),
            old(self)@.has_room(),
        ensures
            (final(self)@, effects(out@)) == old(self)@.detached(id),
            final(self)@.wf(),
    {
        let ghost was = self@;
        let mut out: Vec<Effect> = Vec::new();
        assert(effects(out@) =~= seq![]);
        let (known, routes): (bool, Vec<(u64, PaneId)>) = match self.conn_at(id) {
            Some(i) => {
                assert(self@.conns[i as int] == self.conns@[i as int]@);
                (true, slice_to_vec(self.conns[i].routes.as_slice()))
            },
            None => (false, Vec::new()),
        };
        assert(routes@ =~= match was.conn(id) {
            Some(c) => c.routes,
            None => seq![],
        });
        let mut i: usize = 0;
        assert(routes@.take(0) =~= seq![]);
        while i < routes.len()
            invariant
                i <= routes@.len(),
                self@.wf(),
                (self@, effects(out@)) == was.let_go(routes@.take(i as int)),
                self@.ws.next_id == was.ws.next_id,
            decreases routes.len() - i,
        {
            let pane: PaneId = routes[i].1;
            self.remove_term(pane);
            self.workspace.remove_pane(pane);
            push_effect(&mut out, Effect::Drop { pane });
            i = i + 1;
            assert(routes@.take(i as int).drop_last() =~= routes@.take(i - 1));
        }
        assert(routes@.take(i as int) =~= routes@);
        self.remove_conn(id);
        self.remove_progress(id);
        if known {
            push_effect(&mut out, Effect::Disconnect { conn: id });
        }
        if self.workspace.tabs.len() == 0 {
            let ghost before = self@;
            self.workspace.new_tab();
            proof {
                lemma_later_ids(before, self@);
            }
        }
        push_effect(&mut out, Effect::Redraw);
        assert(effects(out@) =~= was.detached(id).1);
        out
    }

    /// Detach the focused pane's remote session, if it is one.
    pub fn detach_focused_session(&mut self) -> (out: Vec<Effect>)
        requires
            old(self)@.wf(),
            old(self)@.has_room(),
            old(self)@.ws.active < old(self)@.ws.tabs.len(),
        ensures
            (final(self)@, effects(out@)) == match old(self)@.focused_conn() {
                Some(id) => old(self)@.detached(id),
                None => (old(self)@, Seq::<EffectView>::empty()),
            },
            final(self)@.wf(),
    {
        match self.backend(self.workspace.active_tab().focus) {
            Some(b) => self.detach_connection(b.conn),
            None => {
                let out: Vec<Effect> = Vec::new();
                assert(effects(out@) =~= seq![]);
                out
            },
        }
    }

    /// Begin a connection attempt. Returns the id it goes by.
    pub fn begin_connect(
        &mut self,
        target: RemoteTarget,
        display_name: Option<String>,
        now: u64,
    ) -> (id: ConnId)
        requires
            old(self)@.wf(),
            old(self)@.has_room(),
        ensures
            id == old(self)@.next_conn,
            final(self)@ == old(self)@.connecting(target@, opt(display_name), now),
            final(self)@.wf(),
    {
        let ghost was = self@;
        let id: ConnId = self.next_conn;
        self.next_conn = id + 1;
        let full = target.label();
        let mut detail = "Connecting to ".to_owned();
        detail.append(full.as_str());
        detail.append(" over SSH");
        let label = match display_name {
            Some(n) => n,
            None => full,
        };
        let p = Progress { conn: id, target, label, detail, started: now };
        self.progress.push(p);
        proof {
            assert(self@.progress =~= was.progress.push(p@));
            assert(self@.terms =~= was.terms);
            assert(self@.conns =~= was.conns);
            assert forall|i: int, j: int|
                0 <= i < self@.conns.len() && 0 <= j < self@.conns[i].restore_panes.len() implies (
            #[trigger] self@.conns[i].restore_panes[j]).1 < self@.ws.next_id by {
                assert(was.conns[i].restore_panes[j].1 < was.ws.next_id);
            }
        }
        id
    }

    /// A connection authenticated: greet the daemon and wait for its restore burst.
    pub fn on_remote_connected(
        &mut self,
        id: ConnId,
        target: RemoteTarget,
        display_name: Option<String>,
        ephemeral: bool,
    ) -> (out: Vec<Effect>)
        requires
            old(self)@.wf(),
            id < old(self)@.next_conn,
        ensures
            (final(self)@, effects(out@)) == old(self)@.connected(
                id,
                target@,
                opt(display_name),
                ephemeral,
            ),
            final(self)@.wf(),
    {
        let ghost was = self@;
        let mut out: Vec<Effect> = Vec::new();
        assert(effects(out@) =~= seq![]);
        let message = Control::Hello { version: PROTOCOL_VERSION };
        push_effect(&mut out, Effect::Send { conn: id, message });
        assert(effects(out@) =~= seq![
            EffectView::Send {
                conn: id,
                message: ControlView::Hello { version: PROTOCOL_VERSION },
            },
        ]);
        let detail = if ephemeral {
            "Opening remote shell".to_owned()
        } else {
            "Restoring potty-session".to_owned()
        };
        self.remove_conn(id);
        let ghost mid = self@;
        let c = Connection {
            id,
            target,
            display_name,
            next_remote_id: 1,
            routes: Vec::new(),
            ephemeral,
            ready: false,
            client: 0,
            owner: 0,
            restore_panes: Vec::new(),
            restore_layout: None,
            pushed_layout: None,
            remembered: false,
        };
        assert(c@ =~= fresh_conn(id, target@, opt(display_name), ephemeral));
        self.conns.push(c);
        proof {
            assert(self@.conns =~= mid.conns.push(c@));
            seqs::lemma_drop_keeps(was.conns, |c: ConnView| c.id == id);
            assert forall|i: int| 0 <= i < mid.conns.len() implies (#[trigger] mid.conns[i]).id
                != id by {}
            assert forall|i: int, j: int|
                0 <= i < self@.conns.len() && 0 <= j < self@.conns[i].restore_panes.len() implies (
            #[trigger] self@.conns[i].restore_panes[j]).1 < self@.ws.next_id by {
                assert(self@.conns[i] == mid.conns[i]);
                assert(mid.conns[i].restore_panes[j].1 < mid.ws.next_id);
            }
        }
        self.set_progress_detail(id, detail);
        out
    }

    fn set_progress_detail(&mut self, conn: ConnId, detail: String)
        requires
            old(self)@.wf(),
        ensures
            final(self)@ == (ClientView {
                progress: old(self)@.progress.map_values(
                    |p: ProgressView|
                        if p.conn == conn {
                            ProgressView { detail: detail@, ..p }
                        } else {
                            p
                        },
                ),
                ..old(self)@
            }),
            final(self)@.wf(),
    {
        let ghost was = self@;
        let ghost want = was.progress.map_values(
            |p: ProgressView|
                if p.conn == conn {
                    ProgressView { detail: detail@, ..p }
                } else {
                    p
                },
        );
        let mut i: usize = 0;
        while i < self.progress.len() && self.progress[i].conn != conn
            invariant
                i <= self.progress@.len(),
                self@ == was,
                forall|k: int| 0 <= k < i ==> (#[trigger] was.progress[k]).conn != conn,
            decreases self.progress.len() - i,
        {
            assert(was.progress[i as int] == self.progress@[i as int]@);
            i = i + 1;
        }
        if i < self.progress.len() {
            assert(was.progress[i as int] == self.progress@[i as int]@);
            let mut p = self.progress.remove(i);
            p.detail = detail;
            self.progress.insert(i, p);
        }
        proof {
            assert(self@.progress =~= want);
            assert(self@.terms =~= was.terms);
            assert(self@.conns =~= was.conns);
            assert forall|a: int, b: int|
                0 <= a < self@.conns.len() && 0 <= b < self@.conns[a].restore_panes.len() implies (
            #[trigger] self@.conns[a].restore_panes[b]).1 < self@.ws.next_id by {
                assert(was.conns[a].restore_panes[b].1 < was.ws.next_id);
            }
        }
    }

    /// Place the panes adopted during the restore burst into tabs.
    fn finish_restore(&mut self, id: ConnId)
        requires
            old(self)@.wf(),
            old(self)@.conn(id) matches Some(c) ==> (c.restore_layout matches Some(tabs)
                ==> old(self)@.ws.next_id + layout_splits(tabs) < u64::MAX),
        ensures
            final(self)@ == old(self)@.restored(id),
            final(self)@.wf(),
            old(self)@.ws.next_id <= final(self)@.ws.next_id,
            old(self)@.ws.next_id < u64::MAX ==> final(self)@.ws.next_id < u64::MAX,
            conns_room(old(self)@.conns) ==> conns_room(final(self)@.conns),
    {
        let ghost was = self@;
        let i: usize = match self.conn_at(id) {
            Some(i) => i,
            None => {
                return;
            },
        };
        let mut c = self.take_conn(i);
        let ghost before = c@;
        let mut panes: Vec<(u64, PaneId)> = Vec::new();
        core::mem::swap(&mut c.restore_panes, &mut panes);
        let stored = c.restore_layout.take();
        let label = match &c.display_name {
            Some(n) => n.clone(),
            None => c.target.host.clone(),
        };
        proof {
            assert(c@ == (ConnView { restore_panes: seq![], restore_layout: None, ..before }));
            lemma_changed_conn(was, i as int, c@);
        }
        self.put_conn(i, c);
        let ghost taken = self@;
        proof {
            assert(taken == (ClientView { conns: set_conn(was.conns, c@), ..was }));
        }
        if panes.len() == 0 {
            return;
        }
        let tabs: Vec<LayoutTab> = match stored {
            Some(l) => l.tabs,
            None => Vec::new(),
        };
        let ghost seen = match before.restore_layout {
            Some(tabs) => tabs,
            None => seq![],
        };
        assert(tabs@ =~= seen);
        assert forall|j: int| 0 <= j < panes@.len() implies (#[trigger] panes@[j]).1
            < was.ws.next_id by {
            assert(was.conns[i as int].restore_panes[j].1 < was.ws.next_id);
        }
        let mut placed: Vec<PaneId> = Vec::new();
        self.place_layout(&label, &tabs, &panes, &mut placed);
        self.place_others(&label, &panes, &placed);
        proof {
            lemma_later_ids(taken, self@);
        }
    }

    fn place_layout(
        &mut self,
        label: &String,
        tabs: &Vec<LayoutTab>,
        panes: &Vec<(u64, PaneId)>,
        placed: &mut Vec<PaneId>,
    )
        requires
            old(self)@.ws.wf(),
            old(self)@.ws.next_id + layout_splits(tabs@) <= u64::MAX,
            old(placed)@.len() == 0,
            forall|j: int| 0 <= j < panes@.len() ==> (#[trigger] panes@[j]).1
                < old(self)@.ws.next_id,
        ensures
            final(self)@ == (ClientView {
                ws: place_tabs(old(self)@.ws, label@, tabs@, panes@),
                ..old(self)@
            }),
            final(self)@.ws.wf(),
            old(self)@.ws.next_id <= final(self)@.ws.next_id <= old(self)@.ws.next_id
                + layout_splits(tabs@),
            final(placed)@ == placed_by(tabs@, panes@),
    {
        let ghost was = self@;
        let mut i: usize = 0;
        assert(tabs@.take(0) =~= seq![]);
        assert(placed@ =~= seq![]);
        assert(tabs@.take(tabs@.len() as int) =~= tabs@);
        while i < tabs.len()
            invariant
                i <= tabs@.len(),
                self@ == (ClientView {
                    ws: place_tabs(was.ws, label@, tabs@.take(i as int), panes@),
                    ..was
                }),
                self@.ws.wf(),
                was.ws.next_id <= self@.ws.next_id <= was.ws.next_id + layout_splits(
                    tabs@.take(i as int),
                ),
                was.ws.next_id + layout_splits(tabs@) <= u64::MAX,
                placed@ == placed_by(tabs@.take(i as int), panes@),
                forall|j: int| 0 <= j < panes@.len() ==> (#[trigger] panes@[j]).1
                    < was.ws.next_id,
            decreases tabs.len() - i,
        {
            let tab = &tabs[i];
            let ghost w = self@.ws;
            proof {
                assert(tabs@.take(i + 1).drop_last() =~= tabs@.take(i as int));
                lemma_splits_grow(tabs@, i + 1);
                layout::lemma_built_ids(tab.root, panes@, w.next_id);
                layout::lemma_built_below(tab.root, panes@, w.next_id);
                layout::rebuilding_keeps_the_living_panes(tab.root, panes@, w.next_id);
            }
            let mut next: u64 = self.workspace.next_id;
            let node = build_node(&tab.root, panes.as_slice(), &mut next);
            self.workspace.next_id = next;
            proof {
                assert(self@.ws.tabs =~= w.tabs);
                assert forall|k: int| 0 <= k < self@.ws.tabs.len() implies workspace::ids_below(
                    (#[trigger] self@.ws.tabs[k]).layout,
                    next,
                ) by {
                    workspace::lemma_ids_grow(w.tabs[k].layout, w.next_id, next);
                }
            }
            match node {
                Some(n) => {
                    let first: PaneId = n.first_leaf();
                    let focus: PaneId = match tab.focus {
                        Some(r) => match find_local(panes.as_slice(), r) {
                            Some(local) => local,
                            None => first,
                        },
                        None => first,
                    };
                    n.collect_leaves(placed);
                    self.workspace.push_tab(label.clone(), n, focus);
                },
                None => {
                    assert(placed@ =~= placed@ + layout::locals(
                        layout::layout_panes(tab.root),
                        panes@,
                    ));
                },
            }
            i = i + 1;
        }
        assert(tabs@.take(i as int) =~= tabs@);
    }

    fn place_others(
        &mut self,
        label: &String,
        panes: &Vec<(u64, PaneId)>,
        placed: &Vec<PaneId>,
    )
        requires
            old(self)@.ws.wf(),
            forall|j: int| 0 <= j < panes@.len() ==> (#[trigger] panes@[j]).1
                < old(self)@.ws.next_id,
        ensures
            final(self)@ == (ClientView {
                ws: place_rest(old(self)@.ws, label@, panes@, placed@),
                ..old(self)@
            }),
            final(self)@.ws.wf(),
            final(self)@.ws.next_id == old(self)@.ws.next_id,
    {
        let ghost was = self@;
        let mut i: usize = 0;
        assert(panes@.take(0) =~= seq![]);
        while i < panes.len()
            invariant
                i <= panes@.len(),
                self@ == (ClientView {
                    ws: place_rest(was.ws, label@, panes@.take(i as int), placed@),
                    ..was
                }),
                self@.ws.wf(),
                self@.ws.next_id == was.ws.next_id,
                forall|j: int| 0 <= j < panes@.len() ==> (#[trigger] panes@[j]).1
                    < was.ws.next_id,
            decreases panes.len() - i,
        {
            let local: PaneId = panes[i].1;
            assert(panes@.take(i + 1).drop_last() =~= panes@.take(i as int));
            if !listed(placed, local) {
                self.workspace.push_tab(label.clone(), Node::Leaf(local), local);
            }
            i = i + 1;
        }
        assert(panes@.take(i as int) =~= panes@);
    }

    fn owns_tab(&self, id: ConnId) -> (b: bool)
        ensures
            b == self@.owns_tab(id),
    {
        let mut i: usize = 0;
        while i < self.workspace.tabs.len()
            invariant
                i <= self.workspace.tabs@.len(),
                forall|k: int| 0 <= k < i ==> !self@.tab_on(#[trigger] self@.ws.tabs[k], id),
            decreases self.workspace.tabs.len() - i,
        {
            assert(self@.ws.tabs[i as int] == self.workspace.tabs@[i as int]@);
            if self.tab_belongs(i, id) {
                return true;
            }
            i = i + 1;
        }
        false
    }

    fn tab_belongs(&self, i: usize, id: ConnId) -> (b: bool)
        requires
            i < self@.ws.tabs.len(),
        ensures
            b == self@.tab_on(self@.ws.tabs[i as int], id),
    {
        match self.backend(self.workspace.tabs[i].layout.first_leaf()) {
            Some(b) => b.conn == id,
            None => false,
        }
    }

    fn ensure_remote_connection_has_tab(&mut self, out: &mut Vec<Effect>, id: ConnId)
        requires
            old(self)@.wf(),
            old(self)@.ws.next_id < u64::MAX,
            conns_room(old(self)@.conns),
        ensures
            final(self)@ == old(self)@.with_tab_for(id).0,
            final(self)@.wf(),
            effects(final(out)@) == effects(old(out)@) + old(self)@.with_tab_for(id).1,
    {
        let ghost was = self@;
        assert(effects(out@) + Seq::<EffectView>::empty() =~= effects(out@));
        match self.conn_at(id) {
            Some(i) => {
                assert(self@.conns[i as int] == self.conns@[i as int]@);
                if self.conns[i].ephemeral || !self.conns[i].ready || self.owns_tab(id) {
                    return;
                }
            },
            None => {
                return;
            },
        }
        self.workspace.new_tab();
        proof {
            lemma_later_ids(was, self@);
        }
        let local: PaneId = self.workspace.active_tab().focus;
        self.add_remote_pane(out, id, local);
    }

    fn ready(&mut self, out: &mut Vec<Effect>, id: ConnId)
        requires
            old(self)@.wf(),
            old(self)@.has_room(),
            old(out)@.len() == 0,
            old(self)@.conn(id) matches Some(c) ==> (c.restore_layout matches Some(tabs)
                ==> old(self)@.ws.next_id + layout_splits(tabs) < u64::MAX),
        ensures
            (final(self)@, effects(final(out)@)) == old(self)@.got_ready(id),
            final(self)@.wf(),
    {
        let ghost was = self@;
        assert(effects(out@) =~= seq![]);
        self.finish_restore(id);
        let ghost s = self@;
        match self.conn_at(id) {
            Some(i) => {
                let mut c = self.take_conn(i);
                let known: bool = c.remembered;
                c.ready = true;
                c.remembered = true;
                proof {
                    let k = i as int;
                    assert forall|j: int| 0 <= j < c@.restore_panes.len() implies (
                    #[trigger] c@.restore_panes[j]).1 < s.ws.next_id by {
                        assert(s.conns[k].restore_panes[j].1 < s.ws.next_id);
                    }
                    lemma_changed_conn(s, k, c@);
                }
                self.put_conn(i, c);
                if !known {
                    push_effect(out, Effect::Remember { conn: id });
                }
                assert(effects(out@) =~= if known {
                    seq![]
                } else {
                    seq![EffectView::Remember { conn: id }]
                });
            },
            None => {},
        }
        self.remove_progress(id);
        let ghost t = self@;
        let ghost es = effects(out@);
        assert(conns_room(t.conns));
        self.ensure_remote_connection_has_tab(out, id);
        push_effect(out, Effect::Redraw);
        assert(effects(out@) =~= was.got_ready(id).1);
    }

    /// The local pane that shows a daemon pane of a connection.
    pub fn route(&self, id: ConnId, remote: u64) -> (r: Option<PaneId>)
        ensures
            r == self@.route(id, remote),
    {
        match self.conn_at(id) {
            Some(i) => {
                assert(self@.conns[i as int] == self.conns@[i as int]@);
                find_local(self.conns[i].routes.as_slice(), remote)
            },
            None => None,
        }
    }

    /// Output or a message arrived from a connection.
    pub fn on_remote_frame(&mut self, id: ConnId, what: Incoming) -> (out: Vec<Effect>)
        requires
            old(self)@.wf(),
            old(self)@.room_to_hear(id, what@),
        ensures
            (final(self)@, effects(out@)) == old(self)@.heard(id, what@),
            final(self)@.wf(),
    {
        let ghost was = self@;
        let mut out: Vec<Effect> = Vec::new();
        assert(effects(out@) =~= seq![]);
        match what {
            Incoming::Data { pane, bytes } => {
                match self.route(id, pane) {
                    Some(local) => {
                        if self.backend(local).is_some() {
                            push_effect(&mut out, Effect::Paint { pane: local, bytes });
                        }
                        push_effect(&mut out, Effect::Touch { pane: local });
                        assert(effects(out@) =~= was.heard(id, what@).1);
                    },
                    None => {},
                }
            },
            Incoming::Layout(layout) => {
                match self.conn_at(id) {
                    Some(i) => {
                        let mut c = self.take_conn(i);
                        c.restore_layout = Some(layout);
                        let ready: bool = c.ready;
                        proof {
                            let k = i as int;
                            assert forall|j: int| 0 <= j < c@.restore_panes.len() implies (
                            #[trigger] c@.restore_panes[j]).1 < was.ws.next_id by {
                                assert(was.conns[k].restore_panes[j].1 < was.ws.next_id);
                            }
                            lemma_changed_conn(was, k, c@);
                        }
                        self.put_conn(i, c);
                        if ready {
                            self.finish_restore(id);
                            push_effect(&mut out, Effect::Redraw);
                            assert(effects(out@) =~= was.heard(id, what@).1);
                        }
                    },
                    None => {},
                }
            },
            Incoming::Control(Control::Restore { pane }) => {
                let local: PaneId = self.workspace.alloc_pane();
                let ghost s = self@;
                proof {
                    lemma_later_ids(was, s);
                }
                self.wire_remote_pane(&mut out, id, pane, local, false);
                assert(effects(out@) =~= s.wired(id, pane, local, false).1);
                let ghost t = self@;
                match self.conn_at(id) {
                    Some(i) => {
                        let mut c = self.take_conn(i);
                        c.restore_panes.push((pane, local));
                        proof {
                            let k = i as int;
                            assert forall|j: int| 0 <= j < c@.restore_panes.len() implies (
                            #[trigger] c@.restore_panes[j]).1 < t.ws.next_id by {
                                if j < t.conns[k].restore_panes.len() {
                                    assert(t.conns[k].restore_panes[j].1 < t.ws.next_id);
                                }
                            }
                            lemma_changed_conn(t, k, c@);
                        }
                        self.put_conn(i, c);
                    },
                    None => {},
                }
            },
            Incoming::Control(Control::Ready) => {
                self.ready(&mut out, id);
            },
            Incoming::Control(Control::Exited { pane }) => {
                match self.route(id, pane) {
                    Some(local) => {
                        out = self.close_pane(local);
                    },
                    None => {},
                }
            },
            Incoming::Control(Control::Resize { pane, cols, rows }) => {
                match self.route(id, pane) {
                    Some(local) => {
                        push_effect(&mut out, Effect::Conform { pane: local, cols, rows });
                        assert(effects(out@) =~= was.heard(id, what@).1);
                    },
                    None => {},
                }
            },
            Incoming::Control(Control::Welcome { client, .. }) => {
                self.note_focus(id, Some(client), None);
            },
            Incoming::Control(Control::Focus { owner }) => {
                self.note_focus(id, None, Some(owner));
            },
            Incoming::Control(_) => {},
        }
        out
    }

    fn note_focus(&mut self, id: ConnId, client: Option<u64>, owner: Option<u64>)
        requires
            old(self)@.wf(),
        ensures
            final(self)@ == match old(self)@.conn(id) {
                Some(c) => ClientView {
                    conns: set_conn(
                        old(self)@.conns,
                        ConnView {
                            client: match client {
                                Some(n) => n,
                                None => c.client,
                            },
                            owner: match owner {
                                Some(n) => n,
                                None => c.owner,
                            },
                            ..c
                        },
                    ),
                    ..old(self)@
                },
                None => old(self)@,
            },
            final(self)@.wf(),
    {
        let ghost was = self@;
        match self.conn_at(id) {
            Some(i) => {
                let mut c = self.take_conn(i);
                c.client = client.unwrap_or(c.client);
                c.owner = owner.unwrap_or(c.owner);
                proof {
                    let k = i as int;
                    assert forall|j: int| 0 <= j < c@.restore_panes.len() implies (
                    #[trigger] c@.restore_panes[j]).1 < was.ws.next_id by {
                        assert(was.conns[k].restore_panes[j].1 < was.ws.next_id);
                    }
                    lemma_changed_conn(was, k, c@);
                }
                self.put_conn(i, c);
            },
            None => {},
        }
    }

    /// Show a connection that is there: the first of its panes that is in a tab.
    pub fn focus_connection(&mut self, id: ConnId) -> (found: bool)
        requires
            old(self)@.wf(),
        ensures
            found == (old(self)@.showing_conn(id) is Some),
            final(self)@ == match old(self)@.showing_conn(id) {
                Some(s) => s,
                None => old(self)@,
            },
            final(self)@.wf(),
    {
        let ghost was = self@;
        let i: usize = match self.conn_at(id) {
            Some(i) => i,
            None => {
                return false;
            },
        };
        assert(self@.conns[i as int] == self.conns@[i as int]@);
        let routes = slice_to_vec(self.conns[i].routes.as_slice());
        let mut k: usize = 0;
        assert(routes@.take(0) =~= seq![]);
        while k < routes.len()
            invariant
                k <= routes@.len(),
                self@ == was,
                was == old(self)@,
                was.wf(),
                was.conn(id) matches Some(c) && c.routes == routes@,
                shown_route(was.ws, routes@.take(k as int)) is None,
            decreases routes.len() - k,
        {
            let local: PaneId = routes[k].1;
            assert(routes@.take(k + 1).drop_last() =~= routes@.take(k as int));
            if self.workspace.show(local) {
                proof {
                    lemma_later_ids(was, self@);
                    lemma_shown_stays(was.ws, routes@, k + 1);
                }
                return true;
            }
            k = k + 1;
        }
        assert(routes@.take(k as int) =~= routes@);
        false
    }

    /// Before connecting to a target with a persistent session: is it there already?
    pub fn focus_existing_persistent_target(&mut self, target: &RemoteTarget) -> (r: Existing)
        requires
            old(self)@.wf(),
        ensures
            (final(self)@, r) == old(self)@.asked_again(target@),
            final(self)@.wf(),
    {
        let ghost was = self@;
        let mut i: usize = self.progress.len();
        assert(was.progress.take(i as int) =~= was.progress);
        while i > 0
            invariant
                i <= self.progress@.len(),
                self@ == was,
                was == old(self)@,
                was.wf(),
                seqs::find_where(was.progress, |p: ProgressView| p.target == target@)
                    == seqs::find_where(
                    was.progress.take(i as int),
                    |p: ProgressView| p.target == target@,
                ),
            decreases i,
        {
            assert(was.progress.take(i as int).drop_last() =~= was.progress.take(i - 1));
            assert(was.progress[i - 1] == self.progress@[i - 1]@);
            if self.progress[i - 1].target.same(target) {
                return Existing::Connecting;
            }
            i = i - 1;
        }
        let mut k: usize = self.conns.len();
        assert(was.conns.take(k as int) =~= was.conns);
        while k > 0
            invariant
                k <= self.conns@.len(),
                self@ == was,
                was == old(self)@,
                was.wf(),
                seqs::find_where(was.progress, |p: ProgressView| p.target == target@) is None,
                seqs::find_where(
                    was.conns,
                    |c: ConnView| !c.ephemeral && c.target == target@,
                ) == seqs::find_where(
                    was.conns.take(k as int),
                    |c: ConnView| !c.ephemeral && c.target == target@,
                ),
            decreases k,
        {
            assert(was.conns.take(k as int).drop_last() =~= was.conns.take(k - 1));
            assert(was.conns[k - 1] == self.conns@[k - 1]@);
            if !self.conns[k - 1].ephemeral && self.conns[k - 1].target.same(target) {
                let id: ConnId = self.conns[k - 1].id;
                if self.focus_connection(id) {
                    return Existing::Shown;
                }
                return Existing::Connecting;
            }
            k = k - 1;
        }
        Existing::New
    }

    /// Convert a tree of local panes into one of daemon panes. `None` if a pane is not remote.
    fn node_to_layout(&self, node: &Node) -> (r: Option<LayoutNode>)
        ensures
            r == layout::described(*node, remote_of(self@.terms)),
        decreases node,
    {
        match node {
            Node::Leaf(local) => match self.backend(*local) {
                Some(b) => Some(LayoutNode::Leaf { pane: b.remote_id }),
                None => None,
            },
            Node::Branch { split, ratio, a, b, .. } => {
                let left = self.node_to_layout(a);
                let right = self.node_to_layout(b);
                match (left, right) {
                    (Some(a), Some(b)) => Some(
                        LayoutNode::Split {
                            cols: *split == Split::Cols,
                            ratio: *ratio,
                            a: Box::new(a),
                            b: Box::new(b),
                        },
                    ),
                    _ => None,
                }
            },
        }
    }

    /// The layout of a connection's tabs.
    pub fn layout_for(&self, id: ConnId) -> (l: Layout)
        ensures
            l.tabs@ == self@.layout_for(id),
    {
        let mut tabs: Vec<LayoutTab> = Vec::new();
        let mut i: usize = 0;
        assert(self@.ws.tabs.take(0) =~= seq![]);
        while i < self.workspace.tabs.len()
            invariant
                i <= self.workspace.tabs@.len(),
                tabs@ == layout_tabs(self@, self@.ws.tabs.take(i as int), id),
            decreases self.workspace.tabs.len() - i,
        {
            assert(self@.ws.tabs[i as int] == self.workspace.tabs@[i as int]@);
            if self.tab_belongs(i, id) {
                let tab = &self.workspace.tabs[i];
                match self.node_to_layout(&tab.layout) {
                    Some(root) => {
                        let focus: Option<u64> = match self.backend(tab.focus) {
                            Some(b) => Some(b.remote_id),
                            None => None,
                        };
                        tabs.push(LayoutTab { root, focus });
                    },
                    None => {},
                }
            }
            i = i + 1;
            assert(self@.ws.tabs.take(i as int).drop_last() =~= self@.ws.tabs.take(i - 1));
        }
        assert(self@.ws.tabs.take(i as int) =~= self@.ws.tabs);
        Layout { tabs }
    }

    /// Send a connection's layout to its daemon, unless it is the one that was sent last.
    pub fn push_layout(&mut self, id: ConnId, json: String) -> (out: Vec<Effect>)
        requires
            old(self)@.wf(),
        ensures
            (final(self)@, effects(out@)) == old(self)@.pushed(id, json@),
            final(self)@.wf(),
    {
        let ghost was = self@;
        let mut out: Vec<Effect> = Vec::new();
        assert(effects(out@) =~= seq![]);
        match self.conn_at(id) {
            Some(i) => {
                assert(self@.conns[i as int] == self.conns@[i as int]@);
                let sent: bool = match &self.conns[i].pushed_layout {
                    Some(last) => *last == json,
                    None => false,
                };
                if self.conns[i].ready && !self.conns[i].ephemeral && self.conns[i].client
                    == self.conns[i].owner && !sent {
                    let mut c = self.take_conn(i);
                    c.pushed_layout = Some(json.clone());
                    proof {
                        let k = i as int;
                        assert forall|j: int| 0 <= j < c@.restore_panes.len() implies (
                        #[trigger] c@.restore_panes[j]).1 < was.ws.next_id by {
                            assert(was.conns[k].restore_panes[j].1 < was.ws.next_id);
                        }
                        lemma_changed_conn(was, k, c@);
                    }
                    self.put_conn(i, c);
                    let message = Control::LayoutTree { json };
                    push_effect(&mut out, Effect::Send { conn: id, message });
                    assert(effects(out@) =~= was.pushed(id, json@).1);
                }
            },
            None => {},
        }
        out
    }

    /// A stream that had been greeted ended.
    pub fn on_remote_disconnected(&mut self, id: ConnId) -> (out: Vec<Effect>)
        requires
            old(self)@.wf(),
            old(self)@.has_room(),
        ensures
            (final(self)@, effects(out@)) == old(self)@.disconnected(id),
            final(self)@.wf(),
    {
        let known: bool = self.conn_at(id).is_some();
        self.remove_progress(id);
        if known {
            self.detach_connection(id)
        } else {
            let out: Vec<Effect> = Vec::new();
            assert(effects(out@) =~= seq![]);
            out
        }
    }

    /// A connection attempt failed.
    pub fn on_remote_error(&mut self, id: ConnId) -> (out: Vec<Effect>)
        requires
            old(self)@.wf(),
        ensures
            (final(self)@, effects(out@)) == old(self)@.failed(id),
            final(self)@.wf(),
    {
        let mut out: Vec<Effect> = Vec::new();
        assert(effects(out@) =~= seq![]);
        self.remove_progress(id);
        let ghost s = self@;
        let empty: bool = match self.conn_at(id) {
            Some(i) => {
                assert(self@.conns[i as int] == self.conns@[i as int]@);
                self.conns[i].routes.len() == 0
            },
            None => false,
        };
        if empty {
            self.remove_conn(id);
            push_effect(&mut out, Effect::Disconnect { conn: id });
            assert(effects(out@) =~= seq![EffectView::Disconnect { conn: id }]);
        }
        out
    }

    /// A pane's program set its title, or reset it to the default.
    pub fn set_title(&mut self, pane: PaneId, title: Option<String>)
        requires
            old(self)@.wf(),
        ensures
            final(self)@ == (ClientView {
                terms: old(self)@.terms.map_values(
                    |t: TermView|
                        if t.pane == pane {
                            TermView {
                                title: match opt(title) {
                                    Some(s) => s,
                                    None => t.default_title,
                                },
                                ..t
                            }
                        } else {
                            t
                        },
                ),
                ..old(self)@
            }),
            final(self)@.wf(),
    {
        let ghost was = self@;
        let ghost want = was.terms.map_values(
            |t: TermView|
                if t.pane == pane {
                    TermView {
                        title: match opt(title) {
                            Some(s) => s,
                            None => t.default_title,
                        },
                        ..t
                    }
                } else {
                    t
                },
        );
        match self.term_at(pane) {
            Some(i) => {
                let mut t = self.terms.remove(i);
                t.title = match title {
                    Some(s) => s,
                    None => t.default_title.clone(),
                };
                self.terms.insert(i, t);
                proof {
                    assert(self@.terms =~= want);
                    assert(self@ == (ClientView { terms: want, ..was }));
                    lemma_other_terms(was, want);
                }
            },
            None => {
                proof {
                    seqs::lemma_found(was.terms, |t: TermView| t.pane == pane);
                    assert(self@.terms =~= want);
                }
            },
        }
    }
}

proof fn lemma_shown_stays(ws: WorkspaceView, routes: Seq<(u64, PaneId)>, k: int)
    requires
        0 <= k <= routes.len(),
        shown_route(ws, routes.take(k)) is Some,
    ensures
        shown_route(ws, routes) == shown_route(ws, routes.take(k)),
    decreases routes.len(),
{
    if k == routes.len() {
        assert(routes.take(k) =~= routes);
    } else {
        assert(routes.drop_last().take(k) =~= routes.take(k));
        lemma_shown_stays(ws, routes.drop_last(), k);
    }
}

/// The first tabs of a layout have no more splits than all of them.
proof fn lemma_splits_grow(tabs: Seq<LayoutTab>, k: int)
    requires
        0 <= k <= tabs.len(),
    ensures
        layout_splits(tabs.take(k)) <= layout_splits(tabs),
    decreases tabs.len(),
{
    if k == tabs.len() {
        assert(tabs.take(k) =~= tabs);
    } else {
        lemma_splits_grow(tabs.drop_last(), k);
        assert(tabs.drop_last().take(k) =~= tabs.take(k));
    }
}

fn listed(live: &Vec<PaneId>, pane: PaneId) -> (b: bool)
    ensures
        b == live@.contains(pane),
{
    let mut i: usize = 0;
    while i < live.len()
        invariant
            i <= live@.len(),
            forall|k: int| 0 <= k < i ==> live@[k] != pane,
        decreases live.len() - i,
    {
        if live[i] == pane {
            return true;
        }
        i = i + 1;
    }
    false
}

proof fn lemma_other_terms(s: ClientView, terms: Seq<TermView>)
    requires
        s.wf(),
        forall|i: int, j: int|
            0 <= i < j < terms.len() ==> (#[trigger] terms[i]).pane != (#[trigger] terms[j]).pane,
    ensures
        (ClientView { terms, ..s }).wf(),
{
    let t = ClientView { terms, ..s };
    assert forall|i: int, j: int|
        0 <= i < t.conns.len() && 0 <= j < t.conns[i].restore_panes.len() implies (
    #[trigger] t.conns[i].restore_panes[j]).1 < t.ws.next_id by {
        assert(s.conns[i].restore_panes[j].1 < s.ws.next_id);
    }
}

/// A client whose workspace handed out more ids is in order.
pub proof fn lemma_later_ids(s: ClientView, t: ClientView)
    requires
        s.wf(),
        t == (ClientView { ws: t.ws, ..s }),
        t.ws.wf(),
        s.ws.next_id <= t.ws.next_id,
    ensures
        t.wf(),
        forall|id: ConnId| #[trigger] t.conn(id) == s.conn(id),
{
    assert forall|i: int, j: int|
        0 <= i < t.conns.len() && 0 <= j < t.conns[i].restore_panes.len() implies (
    #[trigger] t.conns[i].restore_panes[j]).1 < t.ws.next_id by {
        assert(s.conns[i].restore_panes[j].1 < s.ws.next_id);
    }
}

proof fn lemma_removed_conn(s: ClientView, k: int)
    requires
        s.wf(),
        0 <= k < s.conns.len(),
    ensures
        (ClientView { conns: s.conns.remove(k), ..s }).wf(),
{
    let t = ClientView { conns: s.conns.remove(k), ..s };
    assert forall|a: int, b: int|
        0 <= a < t.conns.len() && 0 <= b < t.conns[a].restore_panes.len() implies (
    #[trigger] t.conns[a].restore_panes[b]).1 < t.ws.next_id by {
        let i = if a < k {
            a
        } else {
            a + 1
        };
        assert(t.conns[a] == s.conns[i]);
        assert(s.conns[i].restore_panes[b].1 < s.ws.next_id);
    }
}

fn without_route(routes: &Vec<(u64, PaneId)>, remote: u64) -> (r: Vec<(u64, PaneId)>)
    ensures
        r@ == drop_route(routes@, remote),
{
    let mut r: Vec<(u64, PaneId)> = Vec::new();
    let mut i: usize = 0;
    assert(routes@.take(0) =~= seq![]);
    while i < routes.len()
        invariant
            i <= routes@.len(),
            r@ == drop_route(routes@.take(i as int), remote),
        decreases routes.len() - i,
    {
        let (id, local) = routes[i];
        if id != remote {
            r.push((id, local));
        }
        i = i + 1;
        assert(routes@.take(i as int).drop_last() =~= routes@.take(i - 1));
    }
    assert(routes@.take(i as int) =~= routes@);
    r
}

/// Changing a connection without touching its id, and with waiting panes that have ids of their
/// own, keeps the invariant.
proof fn lemma_changed_conn(s: ClientView, k: int, c: ConnView)
    requires
        s.wf(),
        0 <= k < s.conns.len(),
        c.id == s.conns[k].id,
        forall|j: int| 0 <= j < c.restore_panes.len() ==> (#[trigger] c.restore_panes[j]).1
            < s.ws.next_id,
    ensures
        s.conns.remove(k).insert(k, c) == set_conn(s.conns, c),
        (ClientView { conns: set_conn(s.conns, c), ..s }).wf(),
        conn_of(set_conn(s.conns, c), c.id) == Some(c),
{
    lemma_conn_unique(s.conns, k);
    let t = ClientView { conns: set_conn(s.conns, c), ..s };
    assert(s.conns.remove(k).insert(k, c) =~= s.conns.update(k, c));
    assert forall|i: int, j: int|
        0 <= i < t.conns.len() && 0 <= j < t.conns[i].restore_panes.len() implies (
    #[trigger] t.conns[i].restore_panes[j]).1 < t.ws.next_id by {
        if i != k {
            assert(s.conns[i].restore_panes[j].1 < s.ws.next_id);
        }
    }
    lemma_conn_unique(t.conns, k);
}

} // verus!
