use potty::client::{Incoming, RemoteTarget};
use potty::chrome::{
    bell, connect_actions, entry_label, full_menu, host_key_text, menu_entries, pane_border,
    shows_tab_bar, tab_labels, waiting_label, Action, Border, MenuEntry,
};
use potty::config::ConnectionProfile;
use potty::damage::{Damage, PaneRect};
use potty::dialogs::{
    challenge_prompt, passphrase_prompt, password_prompt, single_answer, Dialogs, Prompt,
};
use potty::notify::{Kind, Note, Tool, SCHEMA_VERSION};
use potty::proto::Control;
use potty::remote::{HostKeyStatus, PromptInfo};
use potty::window::{Dims, Fit, Surroundings, Task, Window};
use potty::workspace::Split;

fn around() -> Surroundings {
    Surroundings {
        default_user: "me".to_string(),
        remote_command: "potty-session".to_string(),
        now: 0,
    }
}

fn window() -> Window {
    let mut w = Window::new(80, 24);
    w.client.reconcile_terms(&"bash".to_string());
    w
}

#[test]
fn menus_name_what_they_do() {
    assert_eq!(menu_entries(false).len() + 1, menu_entries(true).len());
    assert!(menu_entries(true).contains(&MenuEntry::Detach));
    assert!(!entry_label(MenuEntry::NewTab).is_empty());
    assert_eq!(
        full_menu(MenuEntry::SplitRight, Some(4)),
        [Action::Focus(4), Action::Split(Split::Cols)]
    );
    assert_eq!(full_menu(MenuEntry::NewTab, Some(4)), [Action::NewTab]);
}

#[test]
fn the_bar_shows_tabs_and_the_bell() {
    assert!(!shows_tab_bar(1, false) && shows_tab_bar(2, false) && shows_tab_bar(1, true));
    let labels = tab_labels(&vec!["a".to_string(), "b".to_string()], 1);
    assert!(!labels[0].active && labels[1].active);
    assert_eq!(bell(false, 3, false), None);
    let b = bell(true, 3, false).unwrap();
    assert_eq!((b.label.as_str(), b.click), ("\u{1F514} 3", Action::ShowFeed(true)));
    assert_eq!(bell(true, 0, false).unwrap().click, Action::DismissFeed);
    assert_eq!(waiting_label(2), "2 waiting");
    assert_eq!(pane_border(1, 5, 5), Border::Bare);
    assert_eq!(pane_border(2, 5, 5), Border::Focused);
    assert_eq!(pane_border(2, 5, 6), Border::Plain);
}

#[test]
fn a_changed_host_key_is_warned_of() {
    let host = "h".to_string();
    assert!(host_key_text(&host, HostKeyStatus::Unknown).warning.is_none());
    assert!(host_key_text(&host, HostKeyStatus::Changed).warning.is_some());
    assert_eq!(
        connect_actions(true, false, &"h".to_string(), &"n".to_string()),
        [Action::Connect("h".to_string(), "n".to_string())]
    );
}

#[test]
fn tabs_and_splits_follow_the_actions() {
    let mut w = window();
    let ps: Vec<ConnectionProfile> = Vec::new();
    w.perform(Action::Split(Split::Cols), &ps, &around());
    w.client.reconcile_terms(&"bash".to_string());
    assert_eq!(w.client.workspace.all_leaves().len(), 2);
    w.perform(Action::NewTab, &ps, &around());
    w.client.reconcile_terms(&"bash".to_string());
    assert_eq!(w.client.workspace.tabs.len(), 2);
    assert_eq!(w.tab_titles().len(), 2);
    w.perform(Action::SelectTab(0), &ps, &around());
    assert_eq!(w.client.workspace.active, 0);
    assert!(w.title().contains("bash"));
}

#[test]
fn connecting_starts_one_attempt() {
    let mut w = window();
    let ps: Vec<ConnectionProfile> = Vec::new();
    w.perform(Action::OpenConnect, &ps, &around());
    assert!(w.dialogs.show_connect);
    w.dialogs.use_session = true;
    let go = || Action::Connect("u@h".to_string(), String::new());
    let ts = w.perform(go(), &ps, &around());
    assert!(ts.iter().any(|t| matches!(t, Task::Connect { target, .. } if target.host == "h")));
    w.perform(Action::OpenConnect, &ps, &around());
    w.dialogs.use_session = true;
    let again = w.perform(go(), &ps, &around());
    assert!(!again.iter().any(|t| matches!(t, Task::Connect { .. })));
}

#[test]
fn questions_are_answered_in_turn() {
    let mut d = Dialogs::new();
    d.ask(password_prompt("u", "h", 7));
    d.ask(Prompt::HostKey {
        host: "h".to_string(),
        fingerprint: "f".to_string(),
        status: HostKeyStatus::Unknown,
        reply: 8,
    });
    d.fit_inputs();
    assert!(d.text_input_active());
    assert_eq!(d.answer_auth(true), None);
    d.inputs[0] = "secret".to_string();
    assert_eq!(d.answer_auth_text(true), Some((7, Some(vec!["secret".to_string()]))));
    assert_eq!(d.answer_auth(false), Some((8, false)));
    assert_eq!(d.answer_auth(false), None);
}

#[test]
fn prompts_ask_what_the_server_asks() {
    let p = passphrase_prompt("/k", 1);
    assert!(matches!(&p, Prompt::Text { fields, .. } if fields.len() == 1 && !fields[0].1));
    let info = PromptInfo { prompt: "Code:".to_string(), echo: true };
    let q = challenge_prompt("two", "factor", &[info], 2);
    assert!(matches!(&q, Prompt::Text { fields, .. } if fields[0] == ("Code:".to_string(), true)));
    assert_eq!(single_answer(Some(vec!["a".to_string()])), Some("a".to_string()));
    assert_eq!(single_answer(None), None);
}

fn rect(x: f32) -> PaneRect {
    PaneRect { x: x.to_bits(), y: 0, w: 50.0f32.to_bits(), h: 20.0f32.to_bits() }
}

#[test]
fn only_changed_panes_are_built_again() {
    let mut d = Damage::new();
    d.arrange(&vec![(1, rect(0.0)), (2, rect(50.0))]);
    assert!(d.take(1) && d.take(2));
    assert!(!d.take(1));
    d.arrange(&vec![(1, rect(0.0)), (2, rect(50.0))]);
    assert!(!d.take(1) && !d.take(2));
    d.arrange(&vec![(1, rect(0.0)), (2, rect(60.0))]);
    assert!(!d.take(1) && d.take(2));
    assert!(d.touch(1));
    assert!(!d.touch(9));
    assert!(d.take(1));
    d.touch_all(&vec![1, 2]);
    d.forget(1);
    assert!(!d.take(1) && d.take(2));
}

#[test]
fn a_terminal_is_fitted_when_its_size_changes() {
    let d = |cols, rows| Dims { cols, rows };
    let w = window();
    assert_eq!(w.fit_terminal(0, d(80, 24), d(80, 24)), None);
    assert_eq!(
        w.fit_terminal(0, d(80, 24), d(100, 30)),
        Some(Fit::Local { cols: 100, rows: 30 })
    );
}

#[test]
fn a_pane_that_follows_another_client_keeps_its_size() {
    let d = |cols, rows| Dims { cols, rows };
    let mut w = window();
    let target = RemoteTarget {
        user: "u".to_string(),
        host: "h".to_string(),
        port: 22,
        command: "potty-session".to_string(),
    };
    let id = w.client.begin_connect(target.copy(), None, 0);
    w.client.on_remote_connected(id, target, None, false);
    let hear = |w: &mut Window, c| w.client.on_remote_frame(id, Incoming::Control(c));
    hear(&mut w, Control::Welcome { version: 2, client: 5 });
    hear(&mut w, Control::Focus { owner: 5 });
    hear(&mut w, Control::Ready);
    let pane = w.client.workspace.active_tab().focus;
    let remote = w.client.backend(pane).unwrap().remote_id;
    let message = Control::Resize { pane: remote, cols: 100, rows: 30 };
    assert!(!w.client.follows(pane));
    assert_eq!(
        w.fit_terminal(pane, d(80, 24), d(100, 30)),
        Some(Fit::Remote { conn: id, message })
    );
    hear(&mut w, Control::Focus { owner: 6 });
    assert!(w.client.follows(pane));
    assert_eq!(w.fit_terminal(pane, d(80, 24), d(100, 30)), None);
    hear(&mut w, Control::Focus { owner: 0 });
    assert!(!w.client.follows(pane));
}

#[test]
fn a_note_of_a_daemon_leads_to_its_pane_and_is_dismissed_there() {
    let mut w = window();
    let target = RemoteTarget {
        user: "u".to_string(),
        host: "h".to_string(),
        port: 22,
        command: "potty-session".to_string(),
    };
    let id = w.client.begin_connect(target.copy(), None, 0);
    w.client.on_remote_connected(id, target, None, false);
    w.client.on_remote_frame(id, Incoming::Control(Control::Ready));
    let pane = w.client.workspace.active_tab().focus;
    let remote = w.client.backend(pane).unwrap().remote_id;
    let note = Note {
        v: SCHEMA_VERSION,
        tool: Tool::Codex,
        kind: Kind::Raise,
        session: "s".to_string(),
        message: String::new(),
        cwd: String::new(),
        host: "h".to_string(),
        pid: None,
        pane: Some(remote),
        instance: None,
        zellij: None,
        ts: 0,
    };
    assert_eq!(w.on_remote_note(id, note, 5), [Task::Redraw]);
    assert_eq!(w.feed.pending[0].pane, Some(pane));
    let ps: Vec<ConnectionProfile> = Vec::new();
    let gone = Action::DismissNote("h".to_string(), "s".to_string());
    let clear =
        Task::ClearNote { conn: id, host: "h".to_string(), session: "s".to_string() };
    assert_eq!(w.perform(gone, &ps, &around()), [clear, Task::Redraw]);
    assert!(w.feed.pending.is_empty());
}
