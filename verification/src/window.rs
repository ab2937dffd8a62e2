//! The window as a whole: what its actions and events do to the panes, the connections, the feed and
//! the dialogs.

use crate::bits::Single;
use crate::chrome::{Action, ActionView};
use crate::client;
use crate::client::{
    effects, opt, Client, ClientView, ConnId, ConnView, Effect, EffectView, Existing, RemoteTarget,
    TargetView, Term,
};
use crate::config::ConnectionProfile;
use crate::dialogs;
use crate::dialogs::{Dialogs, DialogsView};
use crate::feed;
use crate::feed::{Feed, FeedView};
use crate::notify::{Kind, Note};
use crate::profiles;
use crate::profiles::{clean_profile_name, parse_host};
use crate::proto::{Control, ControlView, PaneId};
use crate::seqs;
use crate::text;
use crate::workspace;
use crate::workspace::{TabView, WorkspaceView};
use vstd::prelude::*;
use vstd::string::*;

verus! {

/// The window's state.
#[derive(Debug, PartialEq, Eq)]
pub struct Window {
    pub client: Client,
    pub feed: Feed,
    pub dialogs: Dialogs,
}

#[verifier::ext_equal]
pub struct WindowView {
    pub client: ClientView,
    pub feed: FeedView,
    pub dialogs: DialogsView,
}

impl View for Window {
    type V = WindowView;

    open spec fn view(&self) -> WindowView {
        WindowView { client: self.client@, feed: self.feed@, dialogs: self.dialogs@ }
    }
}

/// What the program around the window has to do.
#[derive(Debug, PartialEq, Eq)]
pub enum Task {
    Client(Effect),
    /// Save the family in the configuration and load it.
    SetFontFamily(Option<String>),
    SetFontSize(Single),
    /// Answer who asked about a host key.
    ReplyHostKey { reply: u64, accept: bool },
    /// Answer who asked for texts.
    ReplyText { reply: u64, answers: Option<Vec<String>> },
    /// Start a connection attempt.
    Connect { conn: ConnId, target: RemoteTarget, name: Option<String>, use_session: bool },
    /// Tell a connection's daemon that the user has dismissed a session's note.
    ClearNote { conn: ConnId, host: String, session: String },
    Redraw,
}

#[verifier::ext_equal]
pub enum TaskView {
    Client(EffectView),
    SetFontFamily(Option<Seq<char>>),
    SetFontSize(Single),
    ReplyHostKey { reply: u64, accept: bool },
    ReplyText { reply: u64, answers: Option<Seq<Seq<char>>> },
    Connect { conn: ConnId, target: TargetView, name: Option<Seq<char>>, use_session: bool },
    ClearNote { conn: ConnId, host: Seq<char>, session: Seq<char> },
    Redraw,
}

impl View for Task {
    type V = TaskView;

    open spec fn view(&self) -> TaskView {
        match *self {
            Task::Client(e) => TaskView::Client(e@),
            Task::SetFontFamily(f) => TaskView::SetFontFamily(opt(f)),
            Task::SetFontSize(s) => TaskView::SetFontSize(s),
            Task::ReplyHostKey { reply, accept } => TaskView::ReplyHostKey { reply, accept },
            Task::ReplyText { reply, answers } => TaskView::ReplyText {
                reply,
                answers: match answers {
                    Some(a) => Some(dialogs::texts(a@)),
                    None => None,
                },
            },
            Task::Connect { conn, target, name, use_session } => TaskView::Connect {
                conn,
                target: target@,
                name: opt(name),
                use_session,
            },
            Task::ClearNote { conn, host, session } => TaskView::ClearNote {
                conn,
                host: host@,
                session: session@,
            },
            Task::Redraw => TaskView::Redraw,
        }
    }
}

/// The daemons that may hold a note of a session are told that it was dismissed: those of the
/// persistent connections whose handshake is over.
pub open spec fn clears(conns: Seq<ConnView>, host: Seq<char>, session: Seq<char>) -> Seq<TaskView>
    decreases conns.len(),
{
    if conns.len() == 0 {
        seq![]
    } else {
        let before = clears(conns.drop_last(), host, session);
        let c = conns.last();
        if c.ready && !c.ephemeral {
            before.push(TaskView::ClearNote { conn: c.id, host, session })
        } else {
            before
        }
    }
}

/// A note as this window knows it: the daemon's pane is the local pane that shows it.
pub open spec fn localised(note: Note, pane: Option<PaneId>) -> Note {
    Note { pane, ..note }
}

/// The views of a list of tasks.
pub open spec fn tasks(ts: Seq<Task>) -> Seq<TaskView> {
    ts.map_values(|t: Task| t@)
}

/// A client's effects as tasks.
pub open spec fn as_tasks(es: Seq<EffectView>) -> Seq<TaskView> {
    es.map_values(|e: EffectView| TaskView::Client(e))
}

fn client_tasks(es: Vec<Effect>) -> (ts: Vec<Task>)
    ensures
        tasks(ts@) == as_tasks(effects(es@)),
{
    let ghost all = effects(es@);
    let mut ts: Vec<Task> = Vec::new();
    for e in it: es
        invariant
            ts@.len() == it.index(),
            it.seq() == es@,
            all == effects(es@),
            forall|k: int| 0 <= k < it.index() ==> #[trigger] ts@[k]@ == TaskView::Client(all[k]),
    {
        ts.push(Task::Client(e));
    }
    assert(tasks(ts@) =~= as_tasks(all));
    ts
}

/// What the user, the configuration and the clock say.
#[derive(Debug, PartialEq, Eq)]
pub struct Surroundings {
    pub default_user: String,
    /// The program to run for a persistent session.
    pub remote_command: String,
    /// Milliseconds.
    pub now: u64,
}

pub struct SurroundingsView {
    pub default_user: Seq<char>,
    pub remote_command: Seq<char>,
    pub now: u64,
}

impl View for Surroundings {
    type V = SurroundingsView;

    open spec fn view(&self) -> SurroundingsView {
        SurroundingsView {
            default_user: self.default_user@,
            remote_command: self.remote_command@,
            now: self.now,
        }
    }
}

/// What is said of a target that is being connected to already.
pub open spec fn already_text(t: TargetView) -> Seq<char> {
    "Already connecting to "@ + client::target_label(t.user, t.host, t.port) + "."@
}

/// A tab selected by its index; one beyond the end is the last.
pub open spec fn selected(ws: WorkspaceView, i: int) -> WorkspaceView {
    WorkspaceView {
        active: if i < ws.tabs.len() {
            i as usize
        } else {
            (ws.tabs.len() - 1) as usize
        },
        ..ws
    }
}

impl WindowView {
    /// The parts are in order.
    pub open spec fn wf(self) -> bool {
        self.client.wf() && self.feed.wf()
    }

    /// There are panes, and counters to number more.
    pub open spec fn ready(self) -> bool {
        &&& self.wf()
        &&& self.client.has_room()
        &&& self.client.ws.active < self.client.ws.tabs.len()
    }

    /// The window with another workspace.
    pub open spec fn with_ws(self, ws: WorkspaceView) -> WindowView {
        WindowView { client: ClientView { ws, ..self.client }, ..self }
    }

    /// A pane shown from the feed, which forgets what it raised.
    pub open spec fn jumped(self, pane: PaneId) -> (WindowView, Seq<TaskView>) {
        if workspace::tab_index(self.client.ws.tabs, pane) is Some {
            (
                WindowView {
                    feed: self.feed.visited(pane),
                    ..self.with_ws(self.client.ws.showing(pane))
                },
                seq![TaskView::Redraw],
            )
        } else {
            (self, seq![])
        }
    }

    /// The target that the connect dialog asks for.
    pub open spec fn wanted(self, input: Seq<char>, s: SurroundingsView) -> TargetView {
        let (user, host, port) = profiles::typed_target(input, s.default_user);
        TargetView { user, host, port: port as u16, command: s.remote_command }
    }

    /// A connection asked for. Without a host nothing happens. A persistent session that is there
    /// already is shown; one that is under way is not started twice.
    pub open spec fn connected_to(
        self,
        input: Seq<char>,
        name: Seq<char>,
        s: SurroundingsView,
    ) -> (WindowView, Seq<TaskView>) {
        let target = self.wanted(input, s);
        let shown = if text::trim(name).len() == 0 {
            None
        } else {
            Some(text::trim(name))
        };
        let again = if self.dialogs.use_session {
            self.client.asked_again(target)
        } else {
            (self.client, Existing::New)
        };
        if target.host.len() == 0 {
            (self, seq![])
        } else if again.1 == Existing::Connecting {
            (
                WindowView {
                    dialogs: DialogsView {
                        error: Some(already_text(target)),
                        ..self.dialogs.connect_done()
                    },
                    ..self
                },
                seq![TaskView::Redraw],
            )
        } else if again.1 == Existing::Shown {
            (
                WindowView { client: again.0, dialogs: self.dialogs.connect_done(), ..self },
                seq![TaskView::Redraw],
            )
        } else {
            (
                WindowView {
                    client: self.client.connecting(target, shown, s.now),
                    dialogs: self.dialogs.connect_done(),
                    ..self
                },
                seq![
                    TaskView::Connect {
                        conn: self.client.next_conn,
                        target,
                        name: shown,
                        use_session: self.dialogs.use_session,
                    },
                    TaskView::Redraw,
                ],
            )
        }
    }

    /// Whether an action can be performed: a tab that is to be closed has to be there.
    pub open spec fn can(self, a: ActionView) -> bool {
        match a {
            ActionView::CloseTab(i) => self.client.ws.tabs.len() > 1 ==> i
                < self.client.ws.tabs.len(),
            _ => true,
        }
    }

    /// What an action does.
    pub open spec fn performed(
        self,
        a: ActionView,
        ps: Seq<ConnectionProfile>,
        s: SurroundingsView,
    ) -> (WindowView, Seq<TaskView>) {
        let ws = self.client.ws;
        match a {
            ActionView::SelectTab(i) => (self.with_ws(selected(ws, i)), seq![]),
            ActionView::NewTab => {
                let (c, es) = (ClientView { ws: ws.new_tab(), ..self.client }).on_same_conn(
                    self.client.focused_conn(),
                );
                (WindowView { client: c, ..self }, as_tasks(es))
            },
            ActionView::Split(split) => {
                let (c, es) = (ClientView { ws: ws.splitted(split), ..self.client }).on_same_conn(
                    self.client.focused_conn(),
                );
                (WindowView { client: c, ..self }, as_tasks(es))
            },
            ActionView::ClosePane => (self.with_ws(ws.closed_focused()), seq![]),
            ActionView::CloseTab(i) => (self.with_ws(ws.closed_tab(i)), seq![]),
            ActionView::Focus(pane) => (
                self.with_ws(ws.with_tab(TabView { focus: pane, ..ws.tab() })),
                seq![],
            ),
            ActionView::SetRatio(id, ratio) => (
                self.with_ws(
                    ws.with_tab(
                        TabView {
                            layout: workspace::with_ratio(ws.tab().layout, id, ratio),
                            ..ws.tab()
                        },
                    ),
                ),
                seq![],
            ),
            ActionView::SetFontFamily(f) => (self, seq![TaskView::SetFontFamily(f)]),
            ActionView::SetFontSize(n) => (self, seq![TaskView::SetFontSize(n)]),
            ActionView::ShowFontSettings => (
                WindowView {
                    dialogs: DialogsView { show_font_settings: true, ..self.dialogs },
                    ..self
                },
                seq![],
            ),
            ActionView::JumpToPane(pane) => self.jumped(pane),
            ActionView::DismissNote(host, session) => (
                WindowView {
                    feed: self.feed.left_with(
                        feed::drop_entry(self.feed.pending, (host, session)),
                    ),
                    ..self
                },
                clears(self.client.conns, host, session) + seq![TaskView::Redraw],
            ),
            ActionView::ShowFeed(open) => (
                WindowView { feed: FeedView { open, ..self.feed }, ..self },
                seq![TaskView::Redraw],
            ),
            ActionView::DismissFeed => (
                WindowView {
                    feed: FeedView { open: false, latched: false, ..self.feed },
                    ..self
                },
                seq![TaskView::Redraw],
            ),
            ActionView::AuthAnswer(accept) => {
                let d = self.dialogs;
                match (d.prompts.len() > 0, d.prompts[0]) {
                    (true, dialogs::PromptView::HostKey { reply, .. }) => (
                        WindowView { dialogs: d.answered(), ..self },
                        seq![TaskView::ReplyHostKey { reply, accept }, TaskView::Redraw],
                    ),
                    _ => (self, seq![]),
                }
            },
            ActionView::AuthText(submit) => {
                let d = self.dialogs;
                match (d.prompts.len() > 0, d.prompts[0]) {
                    (true, dialogs::PromptView::Text { reply, .. }) => (
                        WindowView {
                            dialogs: DialogsView { inputs: seq![], ..d.answered() },
                            ..self
                        },
                        seq![
                            TaskView::ReplyText {
                                reply,
                                answers: if submit {
                                    Some(d.inputs)
                                } else {
                                    None
                                },
                            },
                            TaskView::Redraw,
                        ],
                    ),
                    _ => (self, seq![]),
                }
            },
            ActionView::OpenConnect => (
                WindowView {
                    dialogs: DialogsView { show_connect: true, ..self.dialogs },
                    ..self
                },
                seq![TaskView::Redraw],
            ),
            ActionView::CloseConnect => (
                WindowView {
                    dialogs: DialogsView { show_connect: false, ..self.dialogs },
                    ..self
                },
                seq![TaskView::Redraw],
            ),
            ActionView::Connect(host, name) => self.connected_to(host, name, s),
            ActionView::UseProfile(i) => if i < ps.len() {
                (
                    WindowView {
                        dialogs: DialogsView {
                            connect_host: client::target_label(
                                ps[i].user@,
                                ps[i].host@,
                                ps[i].port,
                            ),
                            connect_name: match opt(ps[i].name) {
                                Some(n) => n,
                                None => seq![],
                            },
                            use_session: ps[i].use_potty_session,
                            ..self.dialogs
                        },
                        ..self
                    },
                    seq![TaskView::Redraw],
                )
            } else {
                (self, seq![])
            },
            ActionView::DismissError => (
                WindowView { dialogs: DialogsView { error: None, ..self.dialogs }, ..self },
                seq![TaskView::Redraw],
            ),
            ActionView::DetachSession => match self.client.focused_conn() {
                Some(id) => (
                    WindowView { client: self.client.detached(id).0, ..self },
                    as_tasks(self.client.detached(id).1),
                ),
                None => (self, seq![]),
            },
        }
    }

    /// A connection's stream ended after it had been greeted: what was shown of it goes, and the
    /// user is told, unless the connection had been let go before.
    pub open spec fn lost(self, id: ConnId, message: Seq<char>) -> (WindowView, Seq<TaskView>) {
        let (c, es) = self.client.disconnected(id);
        (
            WindowView {
                client: c,
                dialogs: if self.client.conn(id) is Some {
                    DialogsView { error: Some(message), ..self.dialogs }
                } else {
                    self.dialogs
                },
                ..self
            },
            as_tasks(es) + (if self.client.conn(id) is Some {
                seq![TaskView::Redraw]
            } else {
                seq![]
            }),
        )
    }

    /// An attempt failed: it is forgotten, and the user is told.
    pub open spec fn failed(self, id: Option<ConnId>, message: Seq<char>) -> (
        WindowView,
        Seq<TaskView>,
    ) {
        let (c, es) = match id {
            Some(k) => self.client.failed(k),
            None => (self.client, seq![]),
        };
        (
            WindowView {
                client: c,
                dialogs: DialogsView { error: Some(message), ..self.dialogs },
                ..self
            },
            as_tasks(es).push(TaskView::Redraw),
        )
    }
}

fn redraw() -> (ts: Vec<Task>)
    ensures
        tasks(ts@) == seq![TaskView::Redraw],
{
    let mut ts: Vec<Task> = Vec::new();
    ts.push(Task::Redraw);
    assert(tasks(ts@) =~= seq![TaskView::Redraw]);
    ts
}

fn nothing() -> (ts: Vec<Task>)
    ensures
        tasks(ts@) == Seq::<TaskView>::empty(),
{
    let ts: Vec<Task> = Vec::new();
    assert(tasks(ts@) =~= Seq::<TaskView>::empty());
    ts
}

impl Window {
    /// One tab with one pane, and nothing else.
    pub fn new(cols: u16, rows: u16) -> (w: Window)
        ensures
            w@.ready(),
            w@.client.cols == cols,
            w@.client.rows == rows,
            w@.client.terms.len() == 0,
            w@.client.conns.len() == 0,
            w@.client.progress.len() == 0,
            w@.client.ws == (WorkspaceView {
                tabs: seq![workspace::single("1"@, 0)],
                active: 0,
                next_id: 1,
            }),
            w@.feed == (FeedView { pending: seq![], open: false, latched: false }),
            w@.dialogs.prompts.len() == 0,
            !w@.dialogs.takes_text(),
            w@.dialogs.error is None,
    {
        Window { client: Client::new(cols, rows), feed: Feed::new(), dialogs: Dialogs::new() }
    }

    fn jump_to_pane(&mut self, pane: PaneId) -> (ts: Vec<Task>)
        requires
            old(self)@.wf(),
        ensures
            (final(self)@, tasks(ts@)) == old(self)@.jumped(pane),
            final(self)@.wf(),
    {
        let ghost was = self@;
        if self.client.workspace.show(pane) {
            proof {
                client::lemma_later_ids(was.client, self@.client);
            }
            self.feed.clear_pending_for_pane(pane);
            assert(self@ =~= was.jumped(pane).0);
            redraw()
        } else {
            assert(self@ =~= was);
            nothing()
        }
    }

    fn clear_notes(&self, host: &String, session: &String) -> (ts: Vec<Task>)
        ensures
            tasks(ts@) == clears(self@.client.conns, host@, session@),
    {
        let ghost conns = self@.client.conns;
        let mut ts: Vec<Task> = Vec::new();
        let mut i: usize = 0;
        assert(conns.take(0) =~= seq![]);
        assert(tasks(ts@) =~= clears(conns.take(0), host@, session@));
        while i < self.client.conns.len()
            invariant
                i <= self.client.conns@.len(),
                conns == self@.client.conns,
                tasks(ts@) == clears(conns.take(i as int), host@, session@),
            decreases self.client.conns.len() - i,
        {
            let c = &self.client.conns[i];
            assert(conns[i as int] == c@);
            if c.ready && !c.ephemeral {
                ts.push(
                    Task::ClearNote { conn: c.id, host: host.clone(), session: session.clone() },
                );
            }
            i = i + 1;
            proof {
                let t = conns.take(i as int);
                assert(t.drop_last() =~= conns.take(i - 1));
                assert(t.last() == c@);
                assert(tasks(ts@) =~= clears(t, host@, session@));
            }
        }
        assert(conns.take(i as int) =~= conns);
        ts
    }

    fn start_connect(&mut self, input: &String, name: &String, s: &Surroundings) -> (ts: Vec<Task>)
        requires
            old(self)@.ready(),
        ensures
            (final(self)@, tasks(ts@)) == old(self)@.connected_to(input@, name@, s@),
            final(self)@.wf(),
    {
        let ghost was = self@;
        let (user, host, port) = parse_host(input.as_str(), s.default_user.as_str());
        let target = RemoteTarget { user, host, port, command: s.remote_command.clone() };
        assert(target@ =~= was.wanted(input@, s@));
        if target.host.as_str().is_empty() {
            return nothing();
        }
        let shown = clean_profile_name(name.as_str());
        let again = if self.dialogs.use_session {
            self.client.focus_existing_persistent_target(&target)
        } else {
            Existing::New
        };
        match again {
            Existing::Connecting => {
                let mut m = "Already connecting to ".to_owned();
                m.append(target.label().as_str());
                m.append(".");
                self.dialogs.finish_connect();
                self.dialogs.set_error(Some(m));
                assert(self@ =~= was.connected_to(input@, name@, s@).0);
                redraw()
            },
            Existing::Shown => {
                self.dialogs.finish_connect();
                assert(self@ =~= was.connected_to(input@, name@, s@).0);
                redraw()
            },
            Existing::New => {
                let use_session: bool = self.dialogs.use_session;
                let attempt = target.copy();
                let label = match &shown {
                    Some(n) => Some(n.clone()),
                    None => None,
                };
                let conn: ConnId = self.client.begin_connect(attempt, label, s.now);
                self.dialogs.finish_connect();
                let mut ts: Vec<Task> = Vec::new();
                ts.push(Task::Connect { conn, target, name: shown, use_session });
                ts.push(Task::Redraw);
                assert(self@ =~= was.connected_to(input@, name@, s@).0);
                assert(tasks(ts@) =~= was.connected_to(input@, name@, s@).1);
                ts
            },
        }
    }

    fn rearrange(&mut self, a: &Action)
        requires
            old(self)@.ready(),
            old(self)@.can(a@),
            a@ is SelectTab || a@ is ClosePane || a@ is CloseTab || a@ is Focus || a@ is SetRatio,
        ensures
            forall|ps: Seq<ConnectionProfile>, s: SurroundingsView|
                (final(self)@, Seq::<TaskView>::empty()) == #[trigger] old(self)@.performed(
                    a@,
                    ps,
                    s,
                ),
            final(self)@.wf(),
    {
        let ghost was = self@;
        match a {
            Action::SelectTab(i) => {
                let n: usize = self.client.workspace.tabs.len();
                if *i < n {
                    self.client.workspace.active = *i;
                } else {
                    self.client.workspace.active = n - 1;
                }
            },
            Action::ClosePane => {
                self.client.workspace.close_focused();
            },
            Action::CloseTab(i) => {
                self.client.workspace.close_tab(*i);
            },
            Action::Focus(pane) => {
                self.client.workspace.focus(*pane);
            },
            Action::SetRatio(id, ratio) => {
                self.client.workspace.set_ratio(*id, *ratio);
            },
            _ => {},
        }
        proof {
            client::lemma_later_ids(was.client, self@.client);
            assert forall|ps: Seq<ConnectionProfile>, s: SurroundingsView|
                (self@, Seq::<TaskView>::empty()) == #[trigger] was.performed(a@, ps, s) by {
                assert(self@ =~= was.performed(a@, ps, s).0);
                assert(was.performed(a@, ps, s).1 =~= Seq::<TaskView>::empty());
            }
        }
    }

    /// Perform an action. Returns what the program has to do for it.
    pub fn perform(
        &mut self,
        a: Action,
        profiles: &Vec<ConnectionProfile>,
        s: &Surroundings,
    ) -> (ts: Vec<Task>)
        requires
            old(self)@.ready(),
            old(self)@.can(a@),
        ensures
            (final(self)@, tasks(ts@)) == old(self)@.performed(a@, profiles@, s@),
            final(self)@.wf(),
    {
        let ghost was = self@;
        let ghost asked = a@;
        let ts: Vec<Task> = match a {
            Action::NewTab => client_tasks(self.client.new_tab()),
            Action::Split(split) => client_tasks(self.client.split_pane(split)),
            Action::SetFontFamily(f) => {
                let mut ts: Vec<Task> = Vec::new();
                ts.push(Task::SetFontFamily(f));
                ts
            },
            Action::SetFontSize(n) => {
                let mut ts: Vec<Task> = Vec::new();
                ts.push(Task::SetFontSize(n));
                ts
            },
            Action::ShowFontSettings => {
                self.dialogs.show_fonts();
                nothing()
            },
            Action::JumpToPane(pane) => self.jump_to_pane(pane),
            Action::DismissNote(host, session) => {
                self.feed.dismiss(&host, &session);
                let mut ts = self.clear_notes(&host, &session);
                ts.push(Task::Redraw);
                ts
            },
            Action::ShowFeed(open) => {
                self.feed.show(open);
                redraw()
            },
            Action::DismissFeed => {
                self.feed.put_away();
                redraw()
            },
            Action::AuthAnswer(accept) => {
                match self.dialogs.answer_auth(accept) {
                    Some((reply, accept)) => {
                        let mut ts: Vec<Task> = Vec::new();
                        ts.push(Task::ReplyHostKey { reply, accept });
                        ts.push(Task::Redraw);
                        ts
                    },
                    None => nothing(),
                }
            },
            Action::AuthText(submit) => {
                match self.dialogs.answer_auth_text(submit) {
                    Some((reply, answers)) => {
                        let mut ts: Vec<Task> = Vec::new();
                        ts.push(Task::ReplyText { reply, answers });
                        ts.push(Task::Redraw);
                        ts
                    },
                    None => nothing(),
                }
            },
            Action::OpenConnect => {
                self.dialogs.set_connect(true);
                redraw()
            },
            Action::CloseConnect => {
                self.dialogs.set_connect(false);
                redraw()
            },
            Action::Connect(host, name) => self.start_connect(&host, &name, s),
            Action::UseProfile(i) => {
                self.dialogs.use_connect_profile(profiles, i);
                if i < profiles.len() {
                    redraw()
                } else {
                    nothing()
                }
            },
            Action::DismissError => {
                self.dialogs.set_error(None);
                redraw()
            },
            Action::DetachSession => client_tasks(self.client.detach_focused_session()),
            Action::SelectTab(_) => {
                self.rearrange(&a);
                nothing()
            },
            Action::ClosePane => {
                self.rearrange(&a);
                nothing()
            },
            Action::CloseTab(_) => {
                self.rearrange(&a);
                nothing()
            },
            Action::Focus(_) => {
                self.rearrange(&a);
                nothing()
            },
            Action::SetRatio(_, _) => {
                self.rearrange(&a);
                nothing()
            },
        };
        assert(self@ =~= was.performed(asked, profiles@, s@).0);
        assert(tasks(ts@) =~= was.performed(asked, profiles@, s@).1);
        ts
    }

    /// A note of the attention feed arrived.
    pub fn on_note(&mut self, note: Note, now: u64) -> (ts: Vec<Task>)
        requires
            old(self)@.wf(),
        ensures
            final(self)@ == (WindowView { feed: old(self)@.feed.noted(note, now), ..old(self)@ }),
            tasks(ts@) == seq![TaskView::Redraw],
            final(self)@.wf(),
    {
        self.feed.on_note(note, now);
        redraw()
    }

    /// A note arrived from a connection's daemon. The pane that it names is one of the daemon's:
    /// the window keeps it as the local pane that shows it, for jumping to it and for clearing it.
    pub fn on_remote_note(&mut self, id: ConnId, note: Note, now: u64) -> (ts: Vec<Task>)
        requires
            old(self)@.wf(),
        ensures
            final(self)@ == (WindowView {
                feed: old(self)@.feed.noted(
                    localised(
                        note,
                        match note.pane {
                            Some(p) => old(self)@.client.route(id, p),
                            None => None,
                        },
                    ),
                    now,
                ),
                ..old(self)@
            }),
            tasks(ts@) == seq![TaskView::Redraw],
            final(self)@.wf(),
    {
        let pane = match note.pane {
            Some(p) => self.client.route(id, p),
            None => None,
        };
        self.feed.on_note(Note { pane, ..note }, now);
        redraw()
    }

    /// A connection's stream ended after it had been greeted.
    pub fn on_remote_disconnected(&mut self, id: ConnId, message: String) -> (ts: Vec<Task>)
        requires
            old(self)@.wf(),
            old(self)@.client.has_room(),
        ensures
            (final(self)@, tasks(ts@)) == old(self)@.lost(id, message@),
            final(self)@.wf(),
    {
        let ghost was = self@;
        let known: bool = self.client.conn_at(id).is_some();
        let mut ts = client_tasks(self.client.on_remote_disconnected(id));
        if known {
            self.dialogs.set_error(Some(message));
            ts.push(Task::Redraw);
        }
        assert(self@ =~= was.lost(id, message@).0);
        assert(tasks(ts@) =~= was.lost(id, message@).1);
        ts
    }

    /// A connection attempt failed.
    pub fn on_remote_error(&mut self, id: Option<ConnId>, message: String) -> (ts: Vec<Task>)
        requires
            old(self)@.wf(),
        ensures
            (final(self)@, tasks(ts@)) == old(self)@.failed(id, message@),
            final(self)@.wf(),
    {
        let ghost was = self@;
        let mut ts = match id {
            Some(k) => client_tasks(self.client.on_remote_error(k)),
            None => nothing(),
        };
        self.dialogs.set_error(Some(message));
        assert(as_tasks(seq![]) =~= seq![]);
        let ghost before = tasks(ts@);
        ts.push(Task::Redraw);
        assert(self@ =~= was.failed(id, message@).0);
        assert(tasks(ts@) =~= before.push(TaskView::Redraw));
        ts
    }

    /// The title of the window: that of the focused pane, before the program's name.
    pub fn title(&self) -> (t: String)
        requires
            self@.client.ws.active < self@.client.ws.tabs.len(),
        ensures
            t@ == window_title(self@.client),
    {
        let focus: PaneId = self.client.workspace.active_tab().focus;
        match self.client.term_at(focus) {
            Some(i) => {
                let title = &self.client.terms[i].title;
                if title.as_str().is_empty() {
                    "potty".to_owned()
                } else {
                    let mut t = title.clone();
                    t.append(" — potty");
                    t
                }
            },
            None => "potty".to_owned(),
        }
    }

    /// The titles of the tabs.
    pub fn tab_titles(&self) -> (ts: Vec<String>)
        ensures
            dialogs::texts(ts@) == self@.client.ws.tabs.map_values(
                |t: TabView| tab_title(self@.client, t),
            ),
    {
        let mut ts: Vec<String> = Vec::new();
        let n: usize = self.client.workspace.tabs.len();
        for i in 0..n
            invariant
                n == self.client.workspace.tabs.len(),
                ts@.len() == i,
                forall|k: int|
                    0 <= k < i ==> #[trigger] ts@[k]@ == tab_title(
                        self@.client,
                        self@.client.ws.tabs[k],
                    ),
        {
            let tab = &self.client.workspace.tabs[i];
            assert(self@.client.ws.tabs[i as int] == tab@);
            let t = match self.client.term_at(tab.focus) {
                Some(k) => titled(&self.client.terms[k], &tab.title),
                None => tab.title.clone(),
            };
            ts.push(t);
        }
        assert(dialogs::texts(ts@) =~= self@.client.ws.tabs.map_values(
            |t: TabView| tab_title(self@.client, t),
        ));
        ts
    }

    /// Whether a pane's session can be detached: its connection has a daemon.
    pub fn detachable(&self, pane: PaneId) -> (b: bool)
        ensures
            b == can_detach(self@.client, pane),
    {
        let n: usize = self.client.conns.len();
        for i in 0..n
            invariant
                n == self.client.conns.len(),
                forall|k: int|
                    0 <= k < i ==> !serves(#[trigger] self@.client.conns[k], pane),
        {
            let c = &self.client.conns[i];
            assert(self@.client.conns[i as int] == c@);
            if !c.ephemeral {
                let m: usize = c.routes.len();
                for j in 0..m
                    invariant
                        m == c.routes.len(),
                        i < n,
                        n == self.client.conns.len(),
                        self@.client.conns[i as int] == c@,
                        !c.ephemeral,
                        forall|k: int| 0 <= k < j ==> (#[trigger] c.routes@[k]).1 != pane,
                {
                    if c.routes[j].1 == pane {
                        assert(c@.routes[j as int].1 == pane);
                        assert(serves(self@.client.conns[i as int], pane));
                        return true;
                    }
                }
            }
        }
        false
    }
}

/// A persistent connection that feeds a pane.
pub open spec fn serves(c: client::ConnView, pane: PaneId) -> bool {
    !c.ephemeral && exists|j: int| 0 <= j < c.routes.len() && (#[trigger] c.routes[j]).1 == pane
}

/// Whether a pane's session can be detached.
pub open spec fn can_detach(c: ClientView, pane: PaneId) -> bool {
    exists|i: int| 0 <= i < c.conns.len() && serves(#[trigger] c.conns[i], pane)
}

/// The window's title.
pub open spec fn window_title(c: ClientView) -> Seq<char> {
    let title = match client::term_of(c.terms, c.ws.tab().focus) {
        Some(t) => t.title,
        None => seq![],
    };
    if title.len() == 0 {
        "potty"@
    } else {
        title + " — potty"@
    }
}

/// A tab's title: that of its focused pane, or its own where the pane has none. A remote pane's has
/// the host before it.
pub open spec fn tab_title(c: ClientView, tab: TabView) -> Seq<char> {
    match client::term_of(c.terms, tab.focus) {
        Some(t) => {
            let title = if t.title.len() == 0 {
                tab.title
            } else {
                t.title
            };
            if t.remote is Some {
                t.label + ": "@ + title
            } else {
                title
            }
        },
        None => tab.title,
    }
}

fn titled(t: &Term, own: &String) -> (s: String)
    ensures
        s@ == ({
            let title = if t@.title.len() == 0 {
                own@
            } else {
                t@.title
            };
            if t@.remote is Some {
                t@.label + ": "@ + title
            } else {
                title
            }
        }),
{
    let title = if t.title.as_str().is_empty() {
        own
    } else {
        &t.title
    };
    match t.remote {
        Some(_) => {
            let mut s = t.label.clone();
            s.append(": ");
            s.append(title.as_str());
            s
        },
        None => title.clone(),
    }
}

/// The size of a pane's grid.
#[derive(Debug, Clone, Copy, PartialEq, Eq, Structural)]
pub struct Dims {
    pub cols: u32,
    pub rows: u32,
}

/// How a resize reaches a pane's shell.
#[derive(Debug, PartialEq, Eq)]
pub enum Fit {
    /// Its pseudo-terminal is resized.
    Local { cols: u16, rows: u16 },
    /// Its daemon is told.
    Remote { conn: ConnId, message: Control },
}

pub enum FitView {
    Local { cols: u16, rows: u16 },
    Remote { conn: ConnId, message: ControlView },
}

impl View for Fit {
    type V = FitView;

    open spec fn view(&self) -> FitView {
        match *self {
            Fit::Local { cols, rows } => FitView::Local { cols, rows },
            Fit::Remote { conn, message } => FitView::Remote { conn, message: message@ },
        }
    }
}

impl Window {
    /// Fit a pane's terminal to a size. Nothing happens if it has that size already, or if the
    /// pane follows another client.
    pub fn fit_terminal(&self, pane: PaneId, has: Dims, wants: Dims) -> (f: Option<Fit>)
        ensures
            f is Some == (has != wants && !self@.client.follows(pane)),
            f matches Some(x) ==> x@ == (match client::backend_of(self@.client.terms, pane) {
                Some(b) => FitView::Remote {
                    conn: b.conn,
                    message: ControlView::Resize {
                        pane: b.remote_id,
                        cols: wants.cols as u16,
                        rows: wants.rows as u16,
                    },
                },
                None => FitView::Local { cols: wants.cols as u16, rows: wants.rows as u16 },
            }),
    {
        if has == wants || self.client.follows(pane) {
            return None;
        }
        let cols: u16 = #[verifier::truncate]
        (wants.cols as u16);
        let rows: u16 = #[verifier::truncate]
        (wants.rows as u16);
        match self.client.backend(pane) {
            Some(b) => Some(
                Fit::Remote {
                    conn: b.conn,
                    message: Control::Resize { pane: b.remote_id, cols, rows },
                },
            ),
            None => Some(Fit::Local { cols, rows }),
        }
    }
}

/// A question that nobody answers stays; an answer to another kind of question changes nothing.
pub proof fn answers_fit_their_question(
    w: WindowView,
    yes: bool,
    ps: Seq<ConnectionProfile>,
    s: SurroundingsView,
)
    requires
        w.dialogs.prompts.len() > 0,
    ensures
        w.dialogs.prompts[0] is Text ==> w.performed(ActionView::AuthAnswer(yes), ps, s).0 == w,
        w.dialogs.prompts[0] is HostKey ==> w.performed(ActionView::AuthText(yes), ps, s).0 == w,
{
}

/// A note that a daemon raised of one of its panes can be jumped to: it is kept under the local
/// pane, and landing there clears it.
pub proof fn remote_notes_lead_to_their_pane(w: WindowView, id: ConnId, note: Note, now: u64)
    requires
        note.kind == Kind::Raise,
        note.pane matches Some(p) && w.client.route(id, p) is Some,
    ensures
        ({
            let local = w.client.route(id, note.pane->0);
            let f = w.feed.noted(localised(note, local), now);
            &&& f.pending.last().pane == local
            &&& f.pending.last().key() == note.key()
            &&& forall|i: int|
                0 <= i < f.visited(local->0).pending.len() ==> (
                #[trigger] f.visited(local->0).pending[i]).pane != local
        }),
{
    let local = w.client.route(id, note.pane->0);
    let n = localised(note, local);
    let f = w.feed.noted(n, now);
    assert(f.pending.last() == feed::entry(n, now));
    feed::visiting_clears(f, local->0);
}

/// A target whose attempt is under way is not connected to a second time, and the user is told.
pub proof fn no_second_attempt(
    w: WindowView,
    input: Seq<char>,
    name: Seq<char>,
    s: SurroundingsView,
)
    requires
        w.dialogs.use_session,
        w.wanted(input, s).host.len() > 0,
        exists|i: int|
            0 <= i < w.client.progress.len() && (#[trigger] w.client.progress[i]).target
                == w.wanted(input, s),
    ensures
        w.connected_to(input, name, s).0.client == w.client,
        w.connected_to(input, name, s).0.dialogs.error == Some(already_text(w.wanted(input, s))),
        w.connected_to(input, name, s).1 == seq![TaskView::Redraw],
{
    seqs::lemma_found(
        w.client.progress,
        |p: client::ProgressView| p.target == w.wanted(input, s),
    );
}

} // verus!
