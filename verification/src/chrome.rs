//! The chrome around the panes: what the tab bar, the menus, the feed overlay and the dialogs say,
//! and which action each of their controls stands for.

use crate::bits::Single;
use crate::client::{Progress, ProgressView};
use crate::feed::FeedItem;
use crate::notify::ToolNames;
use crate::profiles::ConnectProfileView;
use crate::proto::PaneId;
use crate::remote::HostKeyStatus;
use crate::seqs;
use crate::text;
use crate::text::{elide, push_number, trim_str};
use crate::workspace::{Ratio, Split};
use vstd::prelude::*;
use vstd::string::*;

verus! {

/// Something that a control asks for.
#[derive(Debug, PartialEq, Eq)]
pub enum Action {
    SelectTab(usize),
    NewTab,
    Split(Split),
    ClosePane,
    CloseTab(usize),
    Focus(PaneId),
    SetRatio(u64, Ratio),
    SetFontFamily(Option<String>),
    SetFontSize(Single),
    ShowFontSettings,
    /// Go to a pane from the attention feed.
    JumpToPane(PaneId),
    /// Dismiss a feed entry, by host and session.
    DismissNote(String, String),
    ShowFeed(bool),
    /// Dismiss the feed entirely: the tab bar is no longer latched on.
    DismissFeed,
    /// Answer the current host-key prompt.
    AuthAnswer(bool),
    /// Submit (true) or cancel (false) the current text prompt.
    AuthText(bool),
    OpenConnect,
    CloseConnect,
    /// Connect to the given `[user@]host[:port]`, under a name.
    Connect(String, String),
    /// Fill the connect dialog from a saved profile.
    UseProfile(usize),
    DismissError,
    /// Leave the focused pane's remote session running and disconnect.
    DetachSession,
}

pub enum ActionView {
    SelectTab(int),
    NewTab,
    Split(Split),
    ClosePane,
    CloseTab(int),
    Focus(PaneId),
    SetRatio(u64, Ratio),
    SetFontFamily(Option<Seq<char>>),
    SetFontSize(Single),
    ShowFontSettings,
    JumpToPane(PaneId),
    DismissNote(Seq<char>, Seq<char>),
    ShowFeed(bool),
    DismissFeed,
    AuthAnswer(bool),
    AuthText(bool),
    OpenConnect,
    CloseConnect,
    Connect(Seq<char>, Seq<char>),
    UseProfile(int),
    DismissError,
    DetachSession,
}

impl View for Action {
    type V = ActionView;

    open spec fn view(&self) -> ActionView {
        match *self {
            Action::SelectTab(i) => ActionView::SelectTab(i as int),
            Action::NewTab => ActionView::NewTab,
            Action::Split(s) => ActionView::Split(s),
            Action::ClosePane => ActionView::ClosePane,
            Action::CloseTab(i) => ActionView::CloseTab(i as int),
            Action::Focus(p) => ActionView::Focus(p),
            Action::SetRatio(id, r) => ActionView::SetRatio(id, r),
            Action::SetFontFamily(f) => ActionView::SetFontFamily(crate::client::opt(f)),
            Action::SetFontSize(s) => ActionView::SetFontSize(s),
            Action::ShowFontSettings => ActionView::ShowFontSettings,
            Action::JumpToPane(p) => ActionView::JumpToPane(p),
            Action::DismissNote(h, s) => ActionView::DismissNote(h@, s@),
            Action::ShowFeed(b) => ActionView::ShowFeed(b),
            Action::DismissFeed => ActionView::DismissFeed,
            Action::AuthAnswer(b) => ActionView::AuthAnswer(b),
            Action::AuthText(b) => ActionView::AuthText(b),
            Action::OpenConnect => ActionView::OpenConnect,
            Action::CloseConnect => ActionView::CloseConnect,
            Action::Connect(h, n) => ActionView::Connect(h@, n@),
            Action::UseProfile(i) => ActionView::UseProfile(i as int),
            Action::DismissError => ActionView::DismissError,
            Action::DetachSession => ActionView::DetachSession,
        }
    }
}

/// The view of a list of actions.
pub open spec fn action_views(a: Seq<Action>) -> Seq<ActionView> {
    a.map_values(|x: Action| x@)
}

/// An entry of the pane menu.
#[derive(Debug, Clone, Copy, PartialEq, Eq, Structural)]
pub enum MenuEntry {
    SplitRight,
    SplitDown,
    ClosePane,
    NewTab,
    Connect,
    Detach,
    FontSettings,
}

/// The entries of the menu. Only a pane with a persistent remote session can be detached.
pub open spec fn entries(can_detach: bool) -> Seq<MenuEntry> {
    seq![
        MenuEntry::SplitRight,
        MenuEntry::SplitDown,
        MenuEntry::ClosePane,
        MenuEntry::NewTab,
        MenuEntry::Connect,
    ] + (if can_detach {
        seq![MenuEntry::Detach]
    } else {
        seq![]
    }) + seq![MenuEntry::FontSettings]
}

/// The entries of the one pane and tab menu.
pub fn menu_entries(can_detach: bool) -> (m: Vec<MenuEntry>)
    ensures
        m@ == entries(can_detach),
{
    let mut m = vec![
        MenuEntry::SplitRight,
        MenuEntry::SplitDown,
        MenuEntry::ClosePane,
        MenuEntry::NewTab,
        MenuEntry::Connect,
    ];
    if can_detach {
        m.push(MenuEntry::Detach);
    }
    m.push(MenuEntry::FontSettings);
    assert(m@ =~= entries(can_detach));
    m
}

/// What a menu entry reads.
pub open spec fn entry_text(e: MenuEntry) -> Seq<char> {
    match e {
        MenuEntry::SplitRight => "Split right"@,
        MenuEntry::SplitDown => "Split down"@,
        MenuEntry::ClosePane => "Close pane"@,
        MenuEntry::NewTab => "New tab"@,
        MenuEntry::Connect => "Connect to host…"@,
        MenuEntry::Detach => "Detach session"@,
        MenuEntry::FontSettings => "Font settings…"@,
    }
}

/// What a menu entry reads.
pub fn entry_label(e: MenuEntry) -> (s: &'static str)
    ensures
        s@ == entry_text(e),
{
    match e {
        MenuEntry::SplitRight => "Split right",
        MenuEntry::SplitDown => "Split down",
        MenuEntry::ClosePane => "Close pane",
        MenuEntry::NewTab => "New tab",
        MenuEntry::Connect => "Connect to host…",
        MenuEntry::Detach => "Detach session",
        MenuEntry::FontSettings => "Font settings…",
    }
}

/// Whether an entry acts on the pane that the menu was opened for.
pub open spec fn on_pane(e: MenuEntry) -> bool {
    e == MenuEntry::SplitRight || e == MenuEntry::SplitDown || e == MenuEntry::ClosePane || e
        == MenuEntry::Detach
}

/// What an entry stands for by itself.
pub open spec fn entry_action(e: MenuEntry) -> ActionView {
    match e {
        MenuEntry::SplitRight => ActionView::Split(Split::Cols),
        MenuEntry::SplitDown => ActionView::Split(Split::Rows),
        MenuEntry::ClosePane => ActionView::ClosePane,
        MenuEntry::NewTab => ActionView::NewTab,
        MenuEntry::Connect => ActionView::OpenConnect,
        MenuEntry::Detach => ActionView::DetachSession,
        MenuEntry::FontSettings => ActionView::ShowFontSettings,
    }
}

/// What choosing a menu entry does. A pane's own menu first focuses the pane, so that the entry acts
/// on it; the tab bar's acts on the focused pane.
pub fn full_menu(e: MenuEntry, for_pane: Option<PaneId>) -> (a: Vec<Action>)
    ensures
        action_views(a@) == (match for_pane {
            Some(p) => if on_pane(e) {
                seq![ActionView::Focus(p), entry_action(e)]
            } else {
                seq![entry_action(e)]
            },
            None => seq![entry_action(e)],
        }),
{
    let mut a: Vec<Action> = Vec::new();
    let focus: bool = match e {
        MenuEntry::SplitRight => true,
        MenuEntry::SplitDown => true,
        MenuEntry::ClosePane => true,
        MenuEntry::Detach => true,
        _ => false,
    };
    match for_pane {
        Some(p) => {
            if focus {
                a.push(Action::Focus(p));
            }
        },
        None => {},
    }
    a.push(
        match e {
            MenuEntry::SplitRight => Action::Split(Split::Cols),
            MenuEntry::SplitDown => Action::Split(Split::Rows),
            MenuEntry::ClosePane => Action::ClosePane,
            MenuEntry::NewTab => Action::NewTab,
            MenuEntry::Connect => Action::OpenConnect,
            MenuEntry::Detach => Action::DetachSession,
            MenuEntry::FontSettings => Action::ShowFontSettings,
        },
    );
    assert(action_views(a@) =~= (match for_pane {
        Some(p) => if on_pane(e) {
            seq![ActionView::Focus(p), entry_action(e)]
        } else {
            seq![entry_action(e)]
        },
        None => seq![entry_action(e)],
    }));
    a
}

/// Whether there is a tab bar: with more than one tab, or once the feed has latched it on.
pub fn shows_tab_bar(tabs: usize, latched: bool) -> (b: bool)
    ensures
        b == (tabs > 1 || latched),
{
    tabs > 1 || latched
}

/// A tab in the bar.
#[derive(Debug, PartialEq, Eq)]
pub struct TabLabel {
    pub title: String,
    pub active: bool,
}

/// The labels of the tab bar: the titles, shortened to 24 characters, and which is the active one.
pub fn tab_labels(titles: &Vec<String>, active: usize) -> (r: Vec<TabLabel>)
    ensures
        r@.len() == titles@.len(),
        forall|i: int|
            0 <= i < r@.len() ==> (#[trigger] r@[i]).title@ == text::elided(titles@[i]@, 24)
                && r@[i].active == (i == active),
{
    let mut r: Vec<TabLabel> = Vec::new();
    for i in 0..titles.len()
        invariant
            r@.len() == i,
            forall|k: int|
                0 <= k < i ==> (#[trigger] r@[k]).title@ == text::elided(titles@[k]@, 24)
                    && r@[k].active == (k == active),
    {
        r.push(TabLabel { title: elide(titles[i].as_str(), 24), active: i == active });
    }
    r
}

/// The bell in the tab bar.
#[derive(Debug, PartialEq, Eq)]
pub struct Bell {
    pub label: String,
    pub hover: String,
    /// What a click does.
    pub click: Action,
}

/// What the bell reads: a bell, and how many sessions wait.
pub open spec fn bell_text(waiting: nat) -> Seq<char> {
    if waiting == 0 {
        seq!['\u{1F514}']
    } else {
        seq!['\u{1F514}', ' '] + text::ascii(text::decimal(waiting))
    }
}

/// The bell is there once the feed has latched the bar on. It shows how many sessions wait and
/// toggles the overlay; with nothing waiting a click dismisses the feed.
pub fn bell(latched: bool, waiting: usize, feed_open: bool) -> (b: Option<Bell>)
    ensures
        b is Some == latched,
        b matches Some(x) ==> {
            &&& x.label@ == bell_text(waiting as nat)
            &&& x.hover@ == (if waiting == 0 {
                "Nothing waiting — click to dismiss"@
            } else {
                "Sessions waiting for you"@
            })
            &&& x.click@ == (if waiting == 0 {
                ActionView::DismissFeed
            } else {
                ActionView::ShowFeed(!feed_open)
            })
        },
{
    if !latched {
        return None;
    }
    let mut label = String::new();
    label.push('\u{1F514}');
    if waiting > 0 {
        label.push(' ');
        push_number(&mut label, waiting as u128);
    }
    assert(label@ =~= bell_text(waiting as nat));
    let hover = if waiting == 0 {
        "Nothing waiting — click to dismiss".to_owned()
    } else {
        "Sessions waiting for you".to_owned()
    };
    let click = if waiting == 0 {
        Action::DismissFeed
    } else {
        Action::ShowFeed(!feed_open)
    };
    Some(Bell { label, hover, click })
}

/// The border of a pane.
#[derive(Debug, Clone, Copy, PartialEq, Eq, Structural)]
pub enum Border {
    /// A lone pane has none and fills its area.
    Bare,
    Plain,
    Focused,
}

/// The border of a pane among several.
pub open spec fn border_of(panes: nat, pane: PaneId, focus: PaneId) -> Border {
    if panes == 1 {
        Border::Bare
    } else if pane == focus {
        Border::Focused
    } else {
        Border::Plain
    }
}

/// The border that a pane is drawn with. One with a border is inset by the padding.
pub fn pane_border(panes: usize, pane: PaneId, focus: PaneId) -> (b: Border)
    ensures
        b == border_of(panes as nat, pane, focus),
{
    if panes == 1 {
        Border::Bare
    } else if pane == focus {
        Border::Focused
    } else {
        Border::Plain
    }
}

/// A row of the feed overlay.
#[derive(Debug, PartialEq, Eq)]
pub struct FeedRow {
    pub head: String,
    /// The message, shortened to 64 characters, where there is one.
    pub message: Option<String>,
    /// What a click on the row does, where the pane is known.
    pub jump: Option<PaneId>,
    /// What its cross does.
    pub dismiss: Action,
}

/// What a row's first line reads: the tool, where, and since when.
pub open spec fn head_text(tool: Seq<char>, label: Seq<char>, age: Seq<char>) -> Seq<char> {
    tool + " · "@ + label + " · "@ + age
}

/// A row shows an item.
pub open spec fn row_shows(r: FeedRow, i: FeedItem, names: ToolNames) -> bool {
    &&& r.head@ == head_text(names.spelled(i.tool), i.label@, i.age@)
    &&& r.message is Some == (i.message@.len() > 0)
    &&& r.message matches Some(m) ==> m@ == text::elided(i.message@, 64)
    &&& r.jump == i.pane
    &&& r.dismiss@ == ActionView::DismissNote(i.host@, i.session@)
}

/// The rows of the feed overlay.
pub fn feed_rows(items: &Vec<FeedItem>, names: &ToolNames) -> (rows: Vec<FeedRow>)
    ensures
        rows@.len() == items@.len(),
        forall|i: int| 0 <= i < rows@.len() ==> row_shows(#[trigger] rows@[i], items@[i], *names),
{
    let mut rows: Vec<FeedRow> = Vec::new();
    for i in 0..items.len()
        invariant
            rows@.len() == i,
            forall|k: int| 0 <= k < i ==> row_shows(#[trigger] rows@[k], items@[k], *names),
    {
        let item = &items[i];
        let mut head = names.name(item.tool);
        head.append(" · ");
        head.append(item.label.as_str());
        head.append(" · ");
        head.append(item.age.as_str());
        let message = if item.message.as_str().is_empty() {
            None
        } else {
            Some(elide(item.message.as_str(), 64))
        };
        let dismiss = Action::DismissNote(item.host.clone(), item.session.clone());
        rows.push(FeedRow { head, message, jump: item.pane, dismiss });
        assert(row_shows(rows@[i as int], items@[i as int], *names));
    }
    rows
}

/// The overlay's heading: how many sessions wait.
pub fn waiting_label(n: usize) -> (s: String)
    ensures
        s@ == text::ascii(text::decimal(n as nat)) + " waiting"@,
{
    let mut s = String::new();
    push_number(&mut s, n as u128);
    s.append(" waiting");
    assert(s@ =~= text::ascii(text::decimal(n as nat)) + " waiting"@);
    s
}

/// What the host-key dialog says.
#[derive(Debug, PartialEq, Eq)]
pub struct HostKeyText {
    pub question: String,
    /// Said of a key that changed.
    pub warning: Option<&'static str>,
}

/// The question about a host key.
pub open spec fn host_key_question(host: Seq<char>, status: HostKeyStatus) -> Seq<char> {
    "The host key for "@ + host + " "@ + (match status {
        HostKeyStatus::Unknown => "is not in your known_hosts yet"@,
        HostKeyStatus::Changed => "HAS CHANGED since you last connected"@,
    }) + ":"@
}

/// What the dialog for a host key says: a changed one comes with a warning.
pub fn host_key_text(host: &String, status: HostKeyStatus) -> (t: HostKeyText)
    ensures
        t.question@ == host_key_question(host@, status),
        t.warning is Some == (status == HostKeyStatus::Changed),
        t.warning matches Some(w) ==> w@
            == "If you didn't change it, this could be a man-in-the-middle attack."@,
{
    let mut question = "The host key for ".to_owned();
    question.append(host.as_str());
    question.append(" ");
    match status {
        HostKeyStatus::Unknown => {
            question.append("is not in your known_hosts yet");
        },
        HostKeyStatus::Changed => {
            question.append("HAS CHANGED since you last connected");
        },
    }
    question.append(":");
    let warning = match status {
        HostKeyStatus::Unknown => None,
        HostKeyStatus::Changed => Some(
            "If you didn't change it, this could be a man-in-the-middle attack.",
        ),
    };
    HostKeyText { question, warning }
}

/// What the controls of a text prompt ask for: Cancel first, then Ok or Enter.
pub fn auth_text_actions(submit: bool, cancel: bool) -> (a: Vec<Action>)
    ensures
        action_views(a@) == (if cancel {
            seq![ActionView::AuthText(false)]
        } else {
            seq![]
        }) + (if submit {
            seq![ActionView::AuthText(true)]
        } else {
            seq![]
        }),
{
    let mut a: Vec<Action> = Vec::new();
    if cancel {
        a.push(Action::AuthText(false));
    }
    if submit {
        a.push(Action::AuthText(true));
    }
    assert(action_views(a@) =~= (if cancel {
        seq![ActionView::AuthText(false)]
    } else {
        seq![]
    }) + (if submit {
        seq![ActionView::AuthText(true)]
    } else {
        seq![]
    }));
    a
}

/// What the controls of the connect dialog ask for. Nothing is connected to without a host.
pub fn connect_actions(connect: bool, cancel: bool, host: &String, name: &String) -> (a: Vec<Action>)
    ensures
        action_views(a@) == (if connect && text::trim(host@).len() > 0 {
            seq![ActionView::Connect(host@, name@)]
        } else {
            seq![]
        }) + (if cancel {
            seq![ActionView::CloseConnect]
        } else {
            seq![]
        }),
{
    let mut a: Vec<Action> = Vec::new();
    if connect && !trim_str(host.as_str()).as_str().is_empty() {
        a.push(Action::Connect(host.clone(), name.clone()));
    }
    if cancel {
        a.push(Action::CloseConnect);
    }
    assert(action_views(a@) =~= (if connect && text::trim(host@).len() > 0 {
        seq![ActionView::Connect(host@, name@)]
    } else {
        seq![]
    }) + (if cancel {
        seq![ActionView::CloseConnect]
    } else {
        seq![]
    }));
    a
}

/// A row of the connect dialog's list.
#[derive(Debug, PartialEq, Eq)]
pub struct ProfileRow {
    pub label: String,
    pub kind: &'static str,
    pub detail: String,
    /// What a click on it does.
    pub click: Action,
}

/// A row of the connect dialog shows a profile: its label and its target, shortened, and whether
/// it keeps its session.
pub fn profile_row(p: &ConnectProfileView) -> (r: ProfileRow)
    ensures
        r.label@ == text::elided(p.label@, 28),
        r.detail@ == text::elided(p.detail@, 44),
        r.kind@ == (if p.use_potty_session {
            "persist"@
        } else {
            "plain"@
        }),
        r.click@ == ActionView::UseProfile(p.index as int),
{
    ProfileRow {
        label: elide(p.label.as_str(), 28),
        kind: if p.use_potty_session {
            "persist"
        } else {
            "plain"
        },
        detail: elide(p.detail.as_str(), 44),
        click: Action::UseProfile(p.index),
    }
}

/// A row of the progress overlay.
#[derive(Debug, PartialEq, Eq)]
pub struct ProgressRow {
    pub label: String,
    pub detail: String,
}

/// What a progress row says of how far an attempt is.
pub open spec fn progress_text(detail: Seq<char>, started: u64, now: u64) -> Seq<char> {
    detail + " - "@ + text::ascii(
        text::decimal(
            if now >= started {
                ((now - started) / 1000) as nat
            } else {
                0
            },
        ),
    ) + "s"@
}

/// A row shows an attempt as of `now`.
pub open spec fn progress_shows(r: ProgressRow, p: ProgressView, now: u64) -> bool {
    &&& r.label@ == text::elided(p.label, 36)
    &&& r.detail@ == progress_text(p.detail, p.started, now)
}

/// The attempts in the order they were started.
pub open spec fn oldest_first(ps: Seq<ProgressView>) -> Seq<ProgressView> {
    seqs::falling(ps, |p: ProgressView| -(p.started as int))
}

/// The attempts at the given places.
spec fn at_places(ps: Seq<ProgressView>, order: Seq<usize>) -> Seq<ProgressView> {
    order.map_values(|i: usize| ps[i as int])
}

/// The views of the attempts.
pub open spec fn progress_views(ps: Seq<Progress>) -> Seq<ProgressView> {
    ps.map_values(|p: Progress| p@)
}

fn start_order(ps: &Vec<Progress>) -> (order: Vec<usize>)
    ensures
        order@.len() == ps@.len(),
        forall|i: int| 0 <= i < order@.len() ==> #[trigger] order@[i] < ps@.len(),
        at_places(progress_views(ps@), order@) == oldest_first(progress_views(ps@)),
{
    let ghost all = progress_views(ps@);
    let ghost key = |p: ProgressView| -(p.started as int);
    let mut order: Vec<usize> = Vec::new();
    let mut n: usize = 0;
    assert(at_places(all, order@) =~= oldest_first(all.take(0)));
    while n < ps.len()
        invariant
            n <= ps@.len(),
            all == progress_views(ps@),
            order@.len() == n,
            forall|i: int| 0 <= i < order@.len() ==> #[trigger] order@[i] < n,
            at_places(all, order@) == oldest_first(all.take(n as int)),
            key == (|p: ProgressView| -(p.started as int)),
        decreases ps.len() - n,
    {
        let ghost sofar = at_places(all, order@);
        let mut k: usize = order.len();
        while k > 0 && ps[order[k - 1]].started > ps[n].started
            invariant
                n < ps@.len(),
                k <= order@.len(),
                order@.len() == n,
                all == progress_views(ps@),
                forall|i: int| 0 <= i < order@.len() ==> #[trigger] order@[i] < n,
                sofar == at_places(all, order@),
                forall|i: int|
                    k <= i < order@.len() ==> (#[trigger] sofar[i]).started > all[n as int].started,
            decreases k,
        {
            assert(sofar[k - 1] == all[order@[k - 1] as int]);
            k = k - 1;
        }
        proof {
            let x = all[n as int];
            if k > 0 {
                assert(sofar[k - 1] == all[order@[k - 1] as int]);
            }
            seqs::lemma_insert_at(sofar, x, key, k as int);
            assert(all.take(n + 1).drop_last() =~= all.take(n as int));
        }
        order.insert(k, n);
        n = n + 1;
        assert(at_places(all, order@) =~= sofar.insert(k as int, all[n - 1]));
    }
    assert(all.take(n as int) =~= all);
    order
}

/// The rows of the progress overlay, oldest attempt first.
pub fn connect_progress_views(ps: &Vec<Progress>, now: u64) -> (rows: Vec<ProgressRow>)
    ensures
        rows@.len() == ps@.len(),
        forall|i: int|
            0 <= i < rows@.len() ==> progress_shows(
                #[trigger] rows@[i],
                oldest_first(progress_views(ps@))[i],
                now,
            ),
{
    let ghost all = progress_views(ps@);
    let order = start_order(ps);
    let mut rows: Vec<ProgressRow> = Vec::new();
    for i in 0..order.len()
        invariant
            rows@.len() == i,
            order@.len() == ps@.len(),
            all == progress_views(ps@),
            forall|k: int| 0 <= k < order@.len() ==> #[trigger] order@[k] < ps@.len(),
            at_places(all, order@) == oldest_first(all),
            forall|k: int|
                0 <= k < i ==> progress_shows(#[trigger] rows@[k], oldest_first(all)[k], now),
    {
        let p = &ps[order[i]];
        let secs: u64 = if now >= p.started {
            (now - p.started) / 1000
        } else {
            0
        };
        let mut detail = p.detail.clone();
        detail.append(" - ");
        push_number(&mut detail, secs as u128);
        detail.append("s");
        assert(at_places(all, order@)[i as int] == p@);
        assert(detail@ =~= progress_text(p.detail@, p.started, now));
        rows.push(ProgressRow { label: elide(p.label.as_str(), 36), detail });
    }
    rows
}

/// The entries that act on a pane are those that split, close or detach it; the others are in
/// every menu.
pub proof fn menus_act_on_their_pane(e: MenuEntry)
    ensures
        on_pane(e) <==> entry_action(e) is Split || entry_action(e) is ClosePane || entry_action(
            e,
        ) is DetachSession,
        !on_pane(e) ==> entries(false).contains(e) && entries(true).contains(e),
{
    assert(entries(false)[3] == MenuEntry::NewTab);
    assert(entries(false)[4] == MenuEntry::Connect);
    assert(entries(false)[5] == MenuEntry::FontSettings);
    assert(entries(true)[3] == MenuEntry::NewTab);
    assert(entries(true)[4] == MenuEntry::Connect);
    assert(entries(true)[6] == MenuEntry::FontSettings);
}

/// A session is detached from the menu only where that can be done.
pub proof fn only_sessions_are_detached(can_detach: bool)
    ensures
        entries(can_detach).contains(MenuEntry::Detach) == can_detach,
{
    let m = entries(can_detach);
    if can_detach {
        assert(m[5] == MenuEntry::Detach);
    } else {
        assert(m.len() == 6);
    }
}

} // verus!
