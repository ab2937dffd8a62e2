//! What the user sees of the window and what their actions do.

use crate::chrome;
use crate::chrome::{
    action_views, auth_text_actions, bell, connect_actions, entry_action, entry_text, feed_rows,
    full_menu, host_key_text, pane_border, profile_row, progress_text, shows_tab_bar, tab_labels,
    Action, ActionView, Bell, Border, FeedRow, HostKeyText, MenuEntry, ProfileRow, TabLabel,
};
use crate::client;
use crate::client::{ClientView, ConnId, ConnView, Existing};
use crate::config::ConnectionProfile;
use crate::dialogs;
use crate::dialogs::{single_answer, Dialogs, DialogsView, Prompt, PromptView};
use crate::feed::FeedItem;
use crate::notify::ToolNames;
use crate::profiles::ConnectProfileView;
use crate::proto::{ControlView, PaneId};
use crate::remote::HostKeyStatus;
use crate::text;
use crate::window;
use crate::window::{
    can_detach, clears, localised, selected, serves, tab_title, window_title, Dims, Fit, FitView,
    SurroundingsView, TaskView, Window, WindowView,
};
use crate::workspace;
use crate::workspace::{Split, TabView, WorkspaceView};
use vstd::prelude::*;

verus! {

/// `Split right` puts panes side by side and `Split down` stacks them, and every entry of the menu
/// does what it reads.
pub proof fn menu_entries_do_what_they_read(e: MenuEntry)
    ensures
        entry_text(e) == "Split right"@ ==> entry_action(e) == ActionView::Split(Split::Cols),
        entry_text(e) == "Split down"@ ==> entry_action(e) == ActionView::Split(Split::Rows),
        entry_text(e) == "Close pane"@ ==> entry_action(e) is ClosePane,
        entry_text(e) == "New tab"@ ==> entry_action(e) is NewTab,
        entry_text(e) == "Detach session"@ ==> entry_action(e) is DetachSession,
        entry_action(e) is OpenConnect ==> entry_text(e) == "Connect to host…"@,
        entry_action(e) is ShowFontSettings ==> entry_text(e) == "Font settings…"@,
{
    reveal_strlit("Split right");
    reveal_strlit("Split down");
    reveal_strlit("Close pane");
    reveal_strlit("New tab");
    reveal_strlit("Detach session");
    reveal_strlit("Connect to host…");
    reveal_strlit("Font settings…");
    assert("Split right"@.len() == 11 && "Split down"@.len() == 10 && "Close pane"@.len() == 10
        && "New tab"@.len() == 7 && "Detach session"@.len() == 14);
    assert("Split down"@[0] == 'S' && "Close pane"@[0] == 'C');
    assert("Connect to host…"@.len() == 16);
    assert("Font settings…"@.len() == 14 && "Font settings…"@[0] == 'F' && "Detach session"@[0]
        == 'D');
}

/// A pane's own menu focuses the pane before it acts on it; the tab bar's acts where the focus is.
pub proof fn menus_act_where_they_were_opened(e: MenuEntry, pane: Option<PaneId>, a: Vec<Action>)
    requires
        call_ensures(full_menu, (e, pane), a),
    ensures
        action_views(a@).last() == entry_action(e),
        pane is None ==> a@.len() == 1,
        (pane is Some && (e == MenuEntry::SplitRight || e == MenuEntry::SplitDown || e
            == MenuEntry::ClosePane || e == MenuEntry::Detach)) ==> a@.len() == 2 && action_views(
            a@,
        )[0] == ActionView::Focus(pane->0),
        !(e == MenuEntry::SplitRight || e == MenuEntry::SplitDown || e == MenuEntry::ClosePane || e
            == MenuEntry::Detach) ==> a@.len() == 1,
{
    assert(action_views(a@).len() == a@.len());
}

/// A tab bar is there with more than one tab, or once the feed asked for it.
pub proof fn tab_bars_are_shown_when_needed(tabs: usize, latched: bool, b: bool)
    requires
        call_ensures(shows_tab_bar, (tabs, latched), b),
    ensures
        b <==> tabs >= 2 || latched,
{
}

/// Each tab has its label, of 24 characters at most, and one of them is marked as active.
pub proof fn tabs_are_labelled(titles: Vec<String>, active: usize, r: Vec<TabLabel>, i: int)
    requires
        call_ensures(tab_labels, (&titles, active), r),
        0 <= i < r@.len(),
    ensures
        r@.len() == titles@.len(),
        r@[i].active <==> i == active,
        titles@[i]@.len() <= 24 ==> r@[i].title@ == titles@[i]@,
        titles@[i]@.len() > 24 ==> r@[i].title@ == titles@[i]@.take(23).push('…'),
{
}

/// The bell is there once the feed latched the bar; it counts who waits, and toggles the feed, or
/// puts it away where nobody waits.
pub proof fn the_bell_counts(latched: bool, waiting: usize, open: bool, b: Option<Bell>)
    requires
        call_ensures(bell, (latched, waiting, open), b),
    ensures
        b is Some <==> latched,
        b matches Some(x) ==> (waiting == 0 ==> x.click@ is DismissFeed && x.label@ == seq![
            '\u{1F514}',
        ]),
        b matches Some(x) ==> (waiting > 0 ==> x.click@ == ActionView::ShowFeed(!open)
            && x.label@.take(2) == seq!['\u{1F514}', ' '] && text::digits_value(x.label@.skip(2))
            == waiting),
{
    text::decimal_round_trips(waiting as nat);
    if let Some(x) = b {
        if waiting > 0 {
            let d = text::ascii(text::decimal(waiting as nat));
            assert(x.label@ == seq!['\u{1F514}', ' '] + d);
            assert(x.label@.take(2) =~= seq!['\u{1F514}', ' ']);
            assert(x.label@.skip(2) =~= d);
        }
    }
}

/// A lone pane has no border; of several the focused one is marked.
pub proof fn the_focused_pane_is_marked(panes: usize, pane: PaneId, focus: PaneId, b: Border)
    requires
        call_ensures(pane_border, (panes, pane, focus), b),
    ensures
        panes == 1 ==> b == Border::Bare,
        panes != 1 && pane == focus ==> b == Border::Focused,
        panes != 1 && pane != focus ==> b == Border::Plain,
{
}

/// A row of the feed says who waits, where and since when, leads to its pane, and is dismissed by
/// its own host and session.
pub proof fn feed_rows_lead_to_their_pane(
    items: Vec<FeedItem>,
    names: ToolNames,
    rows: Vec<FeedRow>,
    i: int,
)
    requires
        call_ensures(feed_rows, (&items, &names), rows),
        0 <= i < rows@.len(),
    ensures
        rows@.len() == items@.len(),
        rows@[i].jump == items@[i].pane,
        rows@[i].dismiss@ == ActionView::DismissNote(items@[i].host@, items@[i].session@),
        rows@[i].head@ == names.spelled(items@[i].tool) + " · "@ + items@[i].label@ + " · "@
            + items@[i].age@,
        items@[i].message@.len() == 0 ==> rows@[i].message is None,
        0 < items@[i].message@.len() <= 64 ==> rows@[i].message is Some && rows@[i].message->0@
            == items@[i].message@,
        items@[i].message@.len() > 64 ==> rows@[i].message is Some && rows@[i].message->0@
            == items@[i].message@.take(63).push('…'),
{
    assert(chrome::row_shows(rows@[i], items@[i], names));
}

/// The question about a host key names the host and says whether the key is new or has changed; a
/// changed one comes with a warning.
pub proof fn changed_keys_are_warned_of(host: String, status: HostKeyStatus, t: HostKeyText)
    requires
        call_ensures(host_key_text, (&host, status), t),
    ensures
        t.warning is Some <==> status == HostKeyStatus::Changed,
        text::occurs(t.question@, host@),
        status == HostKeyStatus::Changed ==> text::occurs(t.question@, "HAS CHANGED"@),
        status == HostKeyStatus::Unknown ==> text::occurs(
            t.question@,
            "is not in your known_hosts yet"@,
        ),
{
    let a = "The host key for "@;
    let b = " "@;
    let n = "is not in your known_hosts yet"@;
    let c = "HAS CHANGED since you last connected"@;
    let e = ":"@;
    let q = t.question@;
    let m = match status {
        HostKeyStatus::Unknown => n,
        HostKeyStatus::Changed => c,
    };
    assert(q =~= a + host@ + (b + m + e));
    crate::text_laws::parts_occur_between(a, host@, b + m + e);
    assert(q =~= (a + host@ + b) + m + e);
    crate::text_laws::parts_occur_between(a + host@ + b, m, e);
    reveal_strlit("HAS CHANGED since you last connected");
    reveal_strlit("HAS CHANGED");
    if status == HostKeyStatus::Changed {
        let h = "HAS CHANGED"@;
        let k = (a + host@ + b).len() as int;
        assert(q.subrange(k, k + h.len()) =~= h);
        assert(text::occurs_at(q, h, k));
    }
}

/// Enter submits a text prompt and Cancel drops it; a host is connected to only if one was typed.
pub proof fn dialogs_ask_for_what_was_pressed(
    yes: bool,
    no: bool,
    host: String,
    name: String,
    a: Vec<Action>,
    b: Vec<Action>,
)
    requires
        call_ensures(auth_text_actions, (yes, no), a),
        call_ensures(connect_actions, (yes, no, &host, &name), b),
    ensures
        yes ==> action_views(a@).contains(ActionView::AuthText(true)),
        no ==> action_views(a@).contains(ActionView::AuthText(false)),
        !yes && !no ==> a@.len() == 0 && b@.len() == 0,
        yes && text::trim(host@).len() > 0 ==> action_views(b@)[0] == ActionView::Connect(
            host@,
            name@,
        ) && b@.len() >= 1,
        yes && text::trim(host@).len() == 0 && !no ==> b@.len() == 0,
        no ==> b@.len() >= 1 && action_views(b@).last() is CloseConnect,
{
    let v = action_views(a@);
    let w = action_views(b@);
    assert(v.len() == a@.len() && w.len() == b@.len());
    if yes {
        assert(v.last() == ActionView::AuthText(true));
        assert(v[v.len() - 1] == ActionView::AuthText(true));
    }
    if no {
        assert(v[0] == ActionView::AuthText(false));
    }
}

/// A row of the connect dialog says whether the session is kept, and takes its own profile.
pub proof fn profile_rows_take_their_profile(p: ConnectProfileView, r: ProfileRow)
    requires
        call_ensures(profile_row, (&p,), r),
    ensures
        r.click@ == ActionView::UseProfile(p.index as int),
        p.use_potty_session ==> r.kind@ == "persist"@,
        !p.use_potty_session ==> r.kind@ == "plain"@,
        p.label@.len() <= 28 ==> r.label@ == p.label@,
        p.label@.len() > 28 ==> r.label@ == p.label@.take(27).push('…'),
        p.detail@.len() <= 44 ==> r.detail@ == p.detail@,
        p.detail@.len() > 44 ==> r.detail@ == p.detail@.take(43).push('…'),
{
}

/// An attempt says how far it is and for how many whole seconds it has lasted.
pub proof fn attempts_say_how_long(detail: Seq<char>, started: u64, now: u64)
    requires
        started <= now,
    ensures
        ({
            let t = progress_text(detail, started, now);
            let n = detail.len() as int;
            &&& t.take(n) == detail
            &&& t.last() == 's'
            &&& text::digits_value(t.subrange(n + 3, t.len() - 1)) * 1000 <= now - started
            &&& now - started < (text::digits_value(t.subrange(n + 3, t.len() - 1)) + 1) * 1000
        }),
{
    reveal_strlit(" - ");
    reveal_strlit("s");
    let k = ((now - started) / 1000) as nat;
    text::decimal_round_trips(k);
    let t = progress_text(detail, started, now);
    let n = detail.len() as int;
    assert(" - "@.len() == 3 && "s"@.len() == 1);
    assert(t.take(n) =~= detail);
    assert(t.subrange(n + 3, t.len() - 1) =~= text::ascii(text::decimal(k)));
}

/// Selecting a tab selects that one, and the last where there is no such one; nothing else changes.
pub proof fn tabs_are_selected(ws: WorkspaceView, i: int)
    requires
        0 <= i,
        0 < ws.tabs.len() <= usize::MAX,
    ensures
        i < ws.tabs.len() ==> selected(ws, i).active == i,
        i >= ws.tabs.len() ==> selected(ws, i).active == ws.tabs.len() - 1,
        selected(ws, i).tabs == ws.tabs,
        selected(ws, i).next_id == ws.next_id,
{
}

/// What is done to the panes: each action does its own thing to the tree, and leaves the feed and
/// the dialogs alone.
pub proof fn actions_change_the_tree(
    w: WindowView,
    i: int,
    split: Split,
    pane: PaneId,
    id: u64,
    r: workspace::Ratio,
    ps: Seq<ConnectionProfile>,
    s: SurroundingsView,
)
    requires
        w.ready(),
        0 <= i < w.client.ws.tabs.len() <= usize::MAX,
    ensures
        w.performed(ActionView::SelectTab(i), ps, s).0.client.ws.active == i,
        w.performed(ActionView::NewTab, ps, s).0.client.ws == w.client.ws.new_tab(),
        w.performed(ActionView::Split(split), ps, s).0.client.ws == w.client.ws.splitted(split),
        w.performed(ActionView::ClosePane, ps, s).0.client.ws == w.client.ws.closed_focused(),
        w.performed(ActionView::CloseTab(i), ps, s).0.client.ws == w.client.ws.closed_tab(i),
        w.performed(ActionView::Focus(pane), ps, s).0.client.ws.tab().focus == pane,
        w.performed(ActionView::Focus(pane), ps, s).0.client.ws.tab().layout
            == w.client.ws.tab().layout,
        w.performed(ActionView::SetRatio(id, r), ps, s).0.client.ws.tab().layout
            == workspace::with_ratio(w.client.ws.tab().layout, id, r),
        forall|a: ActionView|
            a is SelectTab || a is NewTab || a is Split || a is ClosePane || a is CloseTab
                || a is Focus || a is SetRatio ==> (#[trigger] w.performed(a, ps, s)).0.feed
                == w.feed && w.performed(a, ps, s).0.dialogs == w.dialogs,
{
}

/// Going to a pane from the feed selects its tab, gives it the keyboard, and takes what it raised
/// out of the feed; a pane that is not there changes nothing.
pub proof fn jumping_shows_the_pane(w: WindowView, pane: PaneId)
    requires
        w.wf(),
        w.client.ws.tabs.len() <= usize::MAX,
    ensures
        workspace::tab_index(w.client.ws.tabs, pane) is None ==> w.jumped(pane).0 == w && w.jumped(
            pane,
        ).1.len() == 0,
        workspace::tab_index(w.client.ws.tabs, pane) is Some ==> {
            let v = w.jumped(pane).0;
            &&& v.client.ws.tab().focus == pane
            &&& workspace::leaves(v.client.ws.tab().layout).contains(pane)
            &&& v.feed == w.feed.visited(pane)
            &&& w.jumped(pane).1.contains(TaskView::Redraw)
        },
{
    workspace::lemma_tab_index(w.client.ws.tabs, pane);
    if workspace::tab_index(w.client.ws.tabs, pane) is Some {
        assert(w.jumped(pane).1[0] == TaskView::Redraw);
    }
}

/// Dismissing a note takes it out of the feed and tells every daemon that may hold it, and only
/// those: the ready ones of persistent connections.
pub proof fn dismissals_reach_the_daemons(
    conns: Seq<ConnView>,
    host: Seq<char>,
    session: Seq<char>,
    t: TaskView,
)
    ensures
        clears(conns, host, session).contains(t) <==> exists|i: int|
            0 <= i < conns.len() && (#[trigger] conns[i]).ready && !conns[i].ephemeral && t == (
            TaskView::ClearNote { conn: conns[i].id, host, session }),
    decreases conns.len(),
{
    let all = clears(conns, host, session);
    if conns.len() > 0 {
        let front = conns.drop_last();
        let before = clears(front, host, session);
        let c = conns.last();
        dismissals_reach_the_daemons(front, host, session, t);
        assert(c == conns[conns.len() - 1]);
        if all.contains(t) {
            let k = choose|k: int| 0 <= k < all.len() && all[k] == t;
            if k < before.len() {
                assert(before[k] == t);
                assert(before.contains(t));
                let i = choose|i: int|
                    0 <= i < front.len() && (#[trigger] front[i]).ready && !front[i].ephemeral && t
                        == (TaskView::ClearNote { conn: front[i].id, host, session });
                assert(conns[i] == front[i]);
            }
        }
        if exists|i: int|
            0 <= i < conns.len() && (#[trigger] conns[i]).ready && !conns[i].ephemeral && t == (
            TaskView::ClearNote { conn: conns[i].id, host, session }) {
            let i = choose|i: int|
                0 <= i < conns.len() && (#[trigger] conns[i]).ready && !conns[i].ephemeral && t == (
                TaskView::ClearNote { conn: conns[i].id, host, session });
            if i < front.len() {
                assert(front[i] == conns[i]);
                assert(before.contains(t));
                let k = choose|k: int| 0 <= k < before.len() && before[k] == t;
                assert(all[k] == t);
            } else {
                assert(all[before.len() as int] == t);
            }
        }
    }
}

/// What is typed into the connect dialog is connected to, under the name given, as a session or as
/// a plain shell; without a host nothing happens. The dialog is put away.
pub proof fn typed_targets_are_connected_to(
    w: WindowView,
    input: Seq<char>,
    name: Seq<char>,
    s: SurroundingsView,
)
    requires
        !w.dialogs.use_session,
    ensures
        ({
            let (user, host, port) = crate::profiles::typed_target(input, s.default_user);
            let (v, ts) = w.connected_to(input, name, s);
            &&& host.len() == 0 ==> v == w && ts.len() == 0
            &&& host.len() > 0 ==> (ts[0] matches TaskView::Connect {
                conn,
                target,
                name: n,
                use_session,
            } && conn == w.client.next_conn && target.user == user && target.host == host
                && target.port == port as u16 && target.command == s.remote_command && !use_session
                && (text::trim(name).len() == 0 ==> n is None) && (text::trim(name).len() > 0 ==> n
                == Some(text::trim(name))))
            &&& host.len() > 0 ==> !v.dialogs.show_connect && v.dialogs.connect_host.len() == 0
                && v.client.progress.len() == w.client.progress.len() + 1
        }),
{
}

/// A session that is being connected to already is not started again; the user is told so.
pub proof fn sessions_are_not_started_twice(
    w: WindowView,
    input: Seq<char>,
    name: Seq<char>,
    s: SurroundingsView,
)
    requires
        w.dialogs.use_session,
        w.wanted(input, s).host.len() > 0,
    ensures
        ({
            let t = w.wanted(input, s);
            let e = w.client.asked_again(t).1;
            let (v, ts) = w.connected_to(input, name, s);
            &&& e == Existing::New <==> exists|k: int|
                0 <= k < ts.len() && #[trigger] ts[k] is Connect
            &&& e == Existing::New ==> (ts[0] matches TaskView::Connect {
                conn,
                target,
                name: n,
                use_session,
            } && conn == w.client.next_conn && target == t && use_session && (text::trim(name).len()
                == 0 ==> n is None) && (text::trim(name).len() > 0 ==> n == Some(text::trim(name))))
            &&& !v.dialogs.show_connect && v.dialogs.connect_host.len() == 0
            &&& e == Existing::Connecting ==> v.dialogs.error == Some(
                "Already connecting to "@ + client::target_label(t.user, t.host, t.port) + "."@,
            ) && v.client == w.client
            &&& e == Existing::Shown ==> v.client == w.client.asked_again(t).0 && v.dialogs.error
                == w.dialogs.error
        }),
{
    let ts = w.connected_to(input, name, s).1;
    if w.client.asked_again(w.wanted(input, s)).1 == Existing::New {
        assert(ts[0] is Connect);
    }
}

/// An answer goes to who asked, as it was given, and the question is gone.
pub proof fn answers_go_to_who_asked(
    w: WindowView,
    yes: bool,
    ps: Seq<ConnectionProfile>,
    s: SurroundingsView,
)
    requires
        w.dialogs.prompts.len() > 0,
    ensures
        w.dialogs.prompts[0] matches PromptView::HostKey { reply, .. } ==> w.performed(
            ActionView::AuthAnswer(yes),
            ps,
            s,
        ).1[0] == (TaskView::ReplyHostKey { reply, accept: yes }) && w.performed(
            ActionView::AuthAnswer(yes),
            ps,
            s,
        ).0.dialogs.prompts == w.dialogs.prompts.skip(1),
        w.dialogs.prompts[0] matches PromptView::Text { reply, .. } ==> w.performed(
            ActionView::AuthText(yes),
            ps,
            s,
        ).1[0] == (TaskView::ReplyText {
            reply,
            answers: if yes {
                Some(w.dialogs.inputs)
            } else {
                None
            },
        }) && w.performed(ActionView::AuthText(yes), ps, s).0.dialogs.prompts
            == w.dialogs.prompts.skip(1) && w.performed(
            ActionView::AuthText(yes),
            ps,
            s,
        ).0.dialogs.inputs.len() == 0,
{
}

/// The dialogs open and close as asked, the feed too, and an error goes when it is dismissed.
pub proof fn dialogs_open_and_close(
    w: WindowView,
    open: bool,
    n: crate::bits::Single,
    f: Option<Seq<char>>,
    ps: Seq<ConnectionProfile>,
    s: SurroundingsView,
)
    ensures
        w.performed(ActionView::OpenConnect, ps, s).0.dialogs.show_connect,
        !w.performed(ActionView::CloseConnect, ps, s).0.dialogs.show_connect,
        w.performed(ActionView::CloseConnect, ps, s).0.dialogs.connect_host == w.dialogs.connect_host,
        w.performed(ActionView::DismissError, ps, s).0.dialogs.error is None,
        w.performed(ActionView::ShowFeed(open), ps, s).0.feed.open == open,
        w.performed(ActionView::ShowFeed(open), ps, s).0.feed.pending == w.feed.pending,
        !w.performed(ActionView::DismissFeed, ps, s).0.feed.open,
        !w.performed(ActionView::DismissFeed, ps, s).0.feed.latched,
        w.performed(ActionView::ShowFontSettings, ps, s).0.dialogs.show_font_settings,
        w.performed(ActionView::SetFontSize(n), ps, s).1 == seq![TaskView::SetFontSize(n)],
        w.performed(ActionView::SetFontFamily(f), ps, s).1 == seq![TaskView::SetFontFamily(f)],
{
}

/// A profile fills the dialog with its target, its name, and whether it keeps its session.
pub proof fn profiles_fill_the_dialog(
    w: WindowView,
    i: int,
    ps: Seq<ConnectionProfile>,
    s: SurroundingsView,
)
    requires
        0 <= i,
    ensures
        i >= ps.len() ==> w.performed(ActionView::UseProfile(i), ps, s).0 == w,
        i < ps.len() ==> {
            let d = w.performed(ActionView::UseProfile(i), ps, s).0.dialogs;
            &&& d.connect_host == client::target_label(ps[i].user@, ps[i].host@, ps[i].port)
            &&& ps[i].name is Some ==> d.connect_name == ps[i].name->0@
            &&& ps[i].name is None ==> d.connect_name.len() == 0
            &&& d.use_session == ps[i].use_potty_session
            &&& d.show_connect == w.dialogs.show_connect
        },
{
}

/// Detaching lets go of the connection of the focused pane; a local pane has none.
pub proof fn the_focused_session_is_detached(
    w: WindowView,
    ps: Seq<ConnectionProfile>,
    s: SurroundingsView,
)
    ensures
        w.client.focused_conn() matches Some(id) ==> w.performed(
            ActionView::DetachSession,
            ps,
            s,
        ).0.client == w.client.detached(id).0,
        w.client.focused_conn() is None ==> w.performed(ActionView::DetachSession, ps, s).0 == w
            && w.performed(ActionView::DetachSession, ps, s).1.len() == 0,
{
}

/// The user hears of a session that broke off, unless it had been let go, and of every attempt that
/// failed.
pub proof fn losses_are_told(w: WindowView, id: ConnId, m: Seq<char>)
    ensures
        w.client.conn(id) is Some ==> w.lost(id, m).0.dialogs.error == Some(m) && w.lost(
            id,
            m,
        ).0.client.conn(id) is None,
        w.client.conn(id) is None ==> w.lost(id, m).0.dialogs == w.dialogs,
        w.failed(Some(id), m).0.dialogs.error == Some(m),
        w.failed(None, m).0.dialogs.error == Some(m),
        w.failed(None, m).0.client == w.client,
        w.failed(Some(id), m).1.last() == TaskView::Redraw,
{
    let c = ClientView { progress: client::drop_progress(w.client.progress, id), ..w.client };
    crate::client_laws::detaching_leaves_the_shells_running(c, id);
}

/// The window is titled after the focused pane, and a tab after its own; a remote one says where it
/// is.
pub proof fn titles_say_what_runs(c: ClientView, tab: TabView, t: client::TermView)
    requires
        client::term_of(c.terms, tab.focus) == Some(t),
        c.ws.tab() == tab,
    ensures
        t.title.len() > 0 ==> window_title(c) == t.title + " — potty"@,
        t.title.len() == 0 ==> window_title(c) == "potty"@,
        t.title.len() > 0 && t.remote is None ==> tab_title(c, tab) == t.title,
        t.title.len() > 0 && t.remote is Some ==> tab_title(c, tab) == t.label + ": "@ + t.title,
        t.title.len() == 0 && t.remote is None ==> tab_title(c, tab) == tab.title,
        t.title.len() == 0 && t.remote is Some ==> tab_title(c, tab) == t.label + ": "@ + tab.title,
{
}

/// Without a terminal in focus the window is titled by its own name, and the tab by its own.
pub proof fn titles_without_a_terminal(c: ClientView, tab: TabView)
    ensures
        client::term_of(c.terms, c.ws.tab().focus) is None ==> window_title(c) == "potty"@,
        client::term_of(c.terms, tab.focus) is None ==> tab_title(c, tab) == tab.title,
{
}

/// A pane can be detached where a persistent connection feeds it.
pub proof fn fed_panes_can_be_detached(c: ClientView, pane: PaneId)
    ensures
        can_detach(c, pane) <==> exists|i: int, j: int|
            #![trigger c.conns[i].routes[j]]
            0 <= i < c.conns.len() && !c.conns[i].ephemeral && 0 <= j < c.conns[i].routes.len()
                && c.conns[i].routes[j].1 == pane,
{
    if can_detach(c, pane) {
        let i = choose|i: int| 0 <= i < c.conns.len() && serves(#[trigger] c.conns[i], pane);
        let j = choose|j: int|
            0 <= j < c.conns[i].routes.len() && (#[trigger] c.conns[i].routes[j]).1 == pane;
        assert(c.conns[i].routes[j].1 == pane);
    }
    if exists|i: int, j: int|
        #![trigger c.conns[i].routes[j]]
        0 <= i < c.conns.len() && !c.conns[i].ephemeral && 0 <= j < c.conns[i].routes.len()
            && c.conns[i].routes[j].1 == pane {
        let (i, j) = choose|i: int, j: int|
            #![trigger c.conns[i].routes[j]]
            0 <= i < c.conns.len() && !c.conns[i].ephemeral && 0 <= j < c.conns[i].routes.len()
                && c.conns[i].routes[j].1 == pane;
        assert(serves(c.conns[i], pane));
    }
}

/// A terminal is fitted when its size is another one and this window chooses it: a local shell by
/// its own terminal, a remote one through its daemon, under the daemon's number.
pub proof fn terminals_are_fitted(w: Window, pane: PaneId, has: Dims, wants: Dims, f: Option<Fit>)
    requires
        call_ensures(Window::fit_terminal, (&w, pane, has, wants), f),
        wants.cols <= 0xffff,
        wants.rows <= 0xffff,
    ensures
        f is None <==> has == wants || w@.client.follows(pane),
        f is Some && client::backend_of(w@.client.terms, pane) is None ==> f->0@ == (
        FitView::Local { cols: wants.cols as u16, rows: wants.rows as u16 }),
        f is Some && client::backend_of(w@.client.terms, pane) is Some ==> (f->0@ matches FitView::Remote {
            conn,
            message: ControlView::Resize { pane: p, cols, rows },
        } && conn == client::backend_of(w@.client.terms, pane)->0.conn && p == client::backend_of(
            w@.client.terms,
            pane,
        )->0.remote_id && cols == wants.cols && rows == wants.rows),
{
}

/// A question joins those that wait, behind them.
pub proof fn questions_wait_in_line(d: &mut Dialogs, p: Prompt, out: ())
    requires
        call_ensures(Dialogs::ask, (d, p), out),
    ensures
        final(d)@.prompts.drop_last() == old(d)@.prompts,
        final(d)@.prompts.last() == p@,
        final(d)@.inputs == old(d)@.inputs,
        final(d)@.error == old(d)@.error,
{
    assert(final(d)@.prompts.drop_last() =~= old(d)@.prompts);
}

/// Every field of a question has an input: what was typed into it so far, or nothing.
pub proof fn fields_have_their_inputs(d: DialogsView, i: int)
    requires
        d.prompts.len() > 0,
        d.prompts[0] is Text,
        0 <= i < d.prompts[0]->fields.len(),
    ensures
        d.fitted().inputs.len() == d.prompts[0]->fields.len(),
        i < d.inputs.len() ==> d.fitted().inputs[i] == d.inputs[i],
        i >= d.inputs.len() ==> d.fitted().inputs[i].len() == 0,
        d.fitted().prompts == d.prompts,
{
}

/// Text fields have the keyboard while the connect dialog is open or a text is asked for.
pub proof fn text_fields_have_the_keyboard(d: Dialogs, b: bool)
    requires
        call_ensures(Dialogs::text_input_active, (&d,), b),
    ensures
        d@.show_connect ==> b,
        d@.prompts.len() > 0 && d@.prompts[0] is Text ==> b,
        b ==> d@.show_connect || d@.prompts.len() > 0 && d@.prompts[0] is Text,
{
}

/// The chrome has the mouse while anything of it is over the panes.
pub proof fn the_chrome_has_the_mouse(d: Dialogs, popup: bool, feed: bool, progress: bool, b: bool)
    requires
        call_ensures(Dialogs::menu_open, (&d, popup, feed, progress), b),
    ensures
        popup || feed || progress ==> b,
        d@.prompts.len() > 0 || d@.show_connect || d@.error is Some ==> b,
        !popup && !feed && !progress && d@.prompts.len() == 0 && !d@.show_connect && d@.error is None
            ==> !b,
{
}

/// The questions for secrets say what they are for and echo nothing.
pub proof fn secrets_are_not_echoed(
    path: &str,
    user: &str,
    host: &str,
    reply: u64,
    a: Prompt,
    b: Prompt,
)
    requires
        call_ensures(dialogs::passphrase_prompt, (path, reply), a),
        call_ensures(dialogs::password_prompt, (user, host, reply), b),
    ensures
        a@ matches PromptView::Text { title, fields, reply: r } && title == "Passphrase for "@
            + path@ && fields.len() == 1 && !fields[0].1 && r == reply,
        b@ matches PromptView::Text { title, fields, reply: r } && title == "Password for "@ + user@
            + "@"@ + host@ && fields.len() == 1 && !fields[0].1 && r == reply,
{
}

/// A server's questions are asked under their name, else under their instructions, each as the
/// server says it and echoed as the server says.
pub proof fn servers_questions_are_passed_on(
    name: &str,
    instructions: &str,
    prompts: &[crate::remote::PromptInfo],
    reply: u64,
    p: Prompt,
)
    requires
        call_ensures(dialogs::challenge_prompt, (name, instructions, prompts, reply), p),
    ensures
        p@ is Text,
        p@->fields.len() == prompts@.len(),
        forall|i: int|
            0 <= i < prompts@.len() ==> (#[trigger] p@->fields[i]).0 == prompts@[i].prompt@
                && p@->fields[i].1 == prompts@[i].echo,
        name@.len() > 0 ==> p@->title == name@,
        name@.len() == 0 && instructions@.len() > 0 ==> p@->title == instructions@,
        name@.len() == 0 && instructions@.len() == 0 ==> p@->title == "Authentication"@,
{
}

/// The answer to a single question is what was typed.
pub proof fn single_answers_are_passed_on(answers: Option<Vec<String>>, r: Option<String>)
    requires
        call_ensures(single_answer, (answers,), r),
    ensures
        answers is None <==> r is None,
        answers matches Some(a) ==> (a@.len() == 1 ==> r->0@ == a@[0]@),
{
}

/// A daemon's note is kept as it is but for its pane, which becomes the local one.
pub proof fn notes_are_localised(n: crate::notify::Note, pane: Option<PaneId>)
    ensures
        localised(n, pane).pane == pane,
        localised(n, pane).host == n.host,
        localised(n, pane).session == n.session,
        localised(n, pane).message == n.message,
        localised(n, pane).kind == n.kind,
        localised(n, pane).tool == n.tool,
        localised(n, pane).cwd == n.cwd,
{
}

/// Attempts are listed from the oldest to the newest, each under its label and with how far it is,
/// and each once.
pub proof fn attempts_are_listed_oldest_first(
    ps: Vec<client::Progress>,
    now: u64,
    rows: Vec<chrome::ProgressRow>,
    i: int,
    j: int,
)
    requires
        call_ensures(chrome::connect_progress_views, (&ps, now), rows),
        0 <= i <= j < rows@.len(),
    ensures
        rows@.len() == ps@.len(),
        chrome::oldest_first(chrome::progress_views(ps@)).to_multiset()
            == chrome::progress_views(ps@).to_multiset(),
        ({
            let o = chrome::oldest_first(chrome::progress_views(ps@));
            &&& o[i].started <= o[j].started
            &&& o[i].label.len() <= 36 ==> rows@[i].label@ == o[i].label
            &&& o[i].label.len() > 36 ==> rows@[i].label@ == o[i].label.take(35).push('…')
            &&& rows@[i].detail@.take(o[i].detail.len() as int) == o[i].detail
        }),
{
    let v = chrome::progress_views(ps@);
    let key = |p: client::ProgressView| -(p.started as int);
    crate::seqs::sorting_orders(v, key);
    let o = chrome::oldest_first(v);
    assert(o == crate::seqs::falling(v, key));
    assert(key(o[i]) >= key(o[j]));
    assert(chrome::progress_shows(rows@[i], o[i], now));
    assert(rows@[i].detail@.take(o[i].detail.len() as int) =~= o[i].detail);
}

/// The dialogs open and close, an error is kept until it is taken back, and a connection that is
/// on its way puts the dialog away with what was typed.
pub proof fn dialogs_change_one_thing(
    a: &mut Dialogs,
    b: &mut Dialogs,
    c: &mut Dialogs,
    d: &mut Dialogs,
    open: bool,
    message: Option<String>,
    out: (),
)
    requires
        call_ensures(Dialogs::set_connect, (a, open), out),
        call_ensures(Dialogs::set_error, (b, message), out),
        call_ensures(Dialogs::show_fonts, (c,), out),
        call_ensures(Dialogs::finish_connect, (d,), out),
    ensures
        final(a)@.show_connect == open,
        final(a)@.connect_host == old(a)@.connect_host,
        final(a)@.prompts == old(a)@.prompts,
        final(a)@.error == old(a)@.error,
        message matches Some(m) ==> final(b)@.error == Some(m@),
        message is None ==> final(b)@.error is None,
        final(b)@.prompts == old(b)@.prompts,
        final(b)@.show_connect == old(b)@.show_connect,
        final(c)@.show_font_settings,
        final(c)@.show_connect == old(c)@.show_connect,
        !final(d)@.show_connect,
        final(d)@.connect_host.len() == 0,
        final(d)@.connect_name.len() == 0,
        final(d)@.use_session == old(d)@.use_session,
        final(d)@.prompts == old(d)@.prompts,
{
}

/// The menu has its entries in a fixed order: what is done to the pane, then a new tab, a
/// connection, the detaching where there is something to detach, and the settings.
pub proof fn menus_have_their_order(can_detach: bool, m: Vec<MenuEntry>)
    requires
        call_ensures(chrome::menu_entries, (can_detach,), m),
    ensures
        m@.len() == if can_detach {
            7nat
        } else {
            6nat
        },
        m@[0] == MenuEntry::SplitRight,
        m@[1] == MenuEntry::SplitDown,
        m@[2] == MenuEntry::ClosePane,
        m@[3] == MenuEntry::NewTab,
        m@[4] == MenuEntry::Connect,
        can_detach ==> m@[5] == MenuEntry::Detach,
        m@.last() == MenuEntry::FontSettings,
{
}

/// Whatever a typed target leads to, the window is drawn again.
pub proof fn connecting_redraws(
    w: WindowView,
    input: Seq<char>,
    name: Seq<char>,
    s: SurroundingsView,
)
    requires
        w.wanted(input, s).host.len() > 0,
    ensures
        w.connected_to(input, name, s).1.last() == TaskView::Redraw,
        w.connected_to(input, name, s).1.len() <= 2,
{
}

/// What changes the dialogs or the feed has the window drawn again; what changes nothing does not.
pub proof fn changes_are_drawn(
    w: WindowView,
    a: ActionView,
    ps: Seq<ConnectionProfile>,
    s: SurroundingsView,
)
    ensures
        a is ShowFeed || a is DismissFeed || a is DismissNote || a is OpenConnect
            || a is CloseConnect || a is DismissError ==> w.performed(a, ps, s).1.last()
            == TaskView::Redraw,
        a matches ActionView::UseProfile(i) ==> (i < ps.len() ==> w.performed(a, ps, s).1 == seq![
            TaskView::Redraw,
        ]) && (i >= ps.len() ==> w.performed(a, ps, s).1.len() == 0),
        a is AuthAnswer && w.dialogs.prompts.len() > 0 && w.dialogs.prompts[0] is HostKey
            ==> w.performed(a, ps, s).1.last() == TaskView::Redraw,
        a is AuthText && w.dialogs.prompts.len() > 0 && w.dialogs.prompts[0] is Text
            ==> w.performed(a, ps, s).1.last() == TaskView::Redraw,
        a is AuthAnswer && (w.dialogs.prompts.len() == 0 || !(w.dialogs.prompts[0] is HostKey))
            ==> w.performed(a, ps, s).0 == w && w.performed(a, ps, s).1.len() == 0,
        a is AuthText && (w.dialogs.prompts.len() == 0 || !(w.dialogs.prompts[0] is Text))
            ==> w.performed(a, ps, s).0 == w && w.performed(a, ps, s).1.len() == 0,
{
}

/// A session that broke off has the window drawn again.
pub proof fn losses_are_drawn(w: WindowView, id: ConnId, m: Seq<char>)
    requires
        w.client.conn(id) is Some,
    ensures
        w.lost(id, m).1.last() == TaskView::Redraw,
{
}

/// A host that was entered is connected to under the name entered with it, a click on a row of the
/// feed goes to its pane, and a dismissed note leaves the feed.
pub proof fn entered_hosts_are_connected_to(
    w: WindowView,
    host: Seq<char>,
    name: Seq<char>,
    pane: PaneId,
    ps: Seq<ConnectionProfile>,
    s: SurroundingsView,
    i: int,
)
    ensures
        w.performed(ActionView::Connect(host, name), ps, s) == w.connected_to(host, name, s),
        w.performed(ActionView::JumpToPane(pane), ps, s) == w.jumped(pane),
        ({
            let left = w.performed(ActionView::DismissNote(host, name), ps, s).0.feed.pending;
            0 <= i < left.len() ==> left[i].key() != (host, name) && w.feed.pending.contains(
                left[i],
            )
        }),
        w.performed(ActionView::DismissNote(host, name), ps, s).1.drop_last() == clears(
            w.client.conns,
            host,
            name,
        ),
{
    let c = clears(w.client.conns, host, name);
    assert((c + seq![TaskView::Redraw]).drop_last() =~= c);
    crate::seqs::lemma_drop_keeps(
        w.feed.pending,
        |p: crate::feed::Pending| p.key() == (host, name),
    );
}

} // verus!
