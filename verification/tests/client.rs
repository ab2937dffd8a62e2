use potty::client::{Client, Effect, Existing, Incoming, RemoteTarget};
use potty::proto::{Control, Layout, LayoutNode, LayoutTab};
use potty::workspace::Split;

fn target() -> RemoteTarget {
    RemoteTarget {
        user: "u".to_string(),
        host: "h".to_string(),
        port: 22,
        command: "potty-session".to_string(),
    }
}

fn local() -> Client {
    let mut c = Client::new(80, 24);
    let out = c.reconcile_terms(&"bash".to_string());
    assert!(out.iter().any(|e| matches!(e, Effect::Spawn { .. })));
    c
}

fn ready() -> (Client, u64) {
    let mut c = local();
    let id = c.begin_connect(target(), Some("box".to_string()), 0);
    c.on_remote_connected(id, target(), Some("box".to_string()), false);
    c.on_remote_frame(id, Incoming::Control(Control::Welcome { version: 2, client: 5 }));
    c.on_remote_frame(id, Incoming::Control(Control::Ready));
    (c, id)
}

#[test]
fn a_fresh_client_starts_a_shell_for_its_pane() {
    let c = local();
    assert_eq!(c.terms.len(), 1);
    let pane = c.workspace.all_leaves()[0];
    assert_eq!(c.terms[0].pane, pane);
    assert_eq!(c.terms[0].title, "bash");
    assert_eq!(c.backend(pane), None);
    assert_eq!(c.term_at(pane), Some(0));
}

#[test]
fn a_ready_connection_has_a_tab_of_its_own() {
    let (c, id) = ready();
    assert_eq!(c.workspace.tabs.len(), 2);
    let pane = c.workspace.active_tab().focus;
    assert_eq!(c.backend(pane).unwrap().conn, id);
    assert!(c.conns[c.conn_at(id).unwrap()].ready);
}

#[test]
fn a_split_of_a_remote_pane_opens_on_its_connection() {
    let (mut c, id) = ready();
    let out = c.split_pane(Split::Cols);
    let pane = c.workspace.active_tab().focus;
    let remote = c.backend(pane).unwrap();
    assert_eq!(remote.conn, id);
    assert!(out.iter().any(|e| matches!(e,
        Effect::Send { conn, message: Control::Open { pane: p, .. } }
            if *conn == id && *p == remote.remote_id)));
}

#[test]
fn output_is_painted_on_the_pane_it_is_routed_to() {
    let (mut c, id) = ready();
    let pane = c.workspace.active_tab().focus;
    let remote = c.backend(pane).unwrap().remote_id;
    let out = c.on_remote_frame(id, Incoming::Data { pane: remote, bytes: b"x".to_vec() });
    assert!(out.contains(&Effect::Paint { pane, bytes: b"x".to_vec() }));
    let none = c.on_remote_frame(id, Incoming::Data { pane: 999, bytes: b"x".to_vec() });
    assert!(!none.iter().any(|e| matches!(e, Effect::Paint { .. })));
}

#[test]
fn restored_panes_come_back_in_their_layout() {
    let mut c = local();
    let id = c.begin_connect(target(), None, 0);
    c.on_remote_connected(id, target(), None, false);
    c.on_remote_frame(id, Incoming::Control(Control::Welcome { version: 2, client: 5 }));
    c.on_remote_frame(id, Incoming::Control(Control::Restore { pane: 4 }));
    c.on_remote_frame(id, Incoming::Control(Control::Restore { pane: 7 }));
    let root = LayoutNode::Split {
        cols: true,
        ratio: 0.5f32.to_bits(),
        a: Box::new(LayoutNode::Leaf { pane: 7 }),
        b: Box::new(LayoutNode::Leaf { pane: 4 }),
    };
    let layout = Layout { tabs: vec![LayoutTab { root, focus: Some(4) }] };
    c.on_remote_frame(id, Incoming::Layout(layout));
    c.on_remote_frame(id, Incoming::Control(Control::Ready));
    let mut order = Vec::new();
    c.workspace.active_tab().layout.collect_leaves(&mut order);
    let remote: Vec<u64> = order.iter().map(|p| c.backend(*p).unwrap().remote_id).collect();
    assert_eq!(remote, [7, 4]);
    assert_eq!(c.backend(c.workspace.active_tab().focus).unwrap().remote_id, 4);
    let back = c.layout_for(id);
    assert_eq!(back.tabs.len(), 1);
    assert_eq!(back.tabs[0].focus, Some(4));
}

#[test]
fn detaching_tells_the_daemon_nothing_and_leaves_a_tab() {
    let (mut c, id) = ready();
    let pane = c.workspace.active_tab().focus;
    let out = c.detach_connection(id);
    assert!(!out.iter().any(|e| matches!(e, Effect::Send { message: Control::Close { .. }, .. })));
    assert!(out.contains(&Effect::Disconnect { conn: id }));
    assert!(out.contains(&Effect::Drop { pane }));
    assert_eq!(c.conn_at(id), None);
    assert_eq!(c.workspace.tabs.len(), 1);
}

#[test]
fn closing_a_remote_pane_closes_it_at_the_daemon() {
    let (mut c, id) = ready();
    c.split_pane(Split::Rows);
    let pane = c.workspace.active_tab().focus;
    let remote = c.backend(pane).unwrap().remote_id;
    c.workspace.close_focused();
    let out = c.reconcile_terms(&"bash".to_string());
    assert!(out.contains(&Effect::Send { conn: id, message: Control::Close { pane: remote } }));
    assert!(out.contains(&Effect::Drop { pane }));
}

#[test]
fn a_shell_that_ended_takes_its_pane_and_the_last_one_the_program() {
    let mut c = local();
    c.new_tab();
    c.reconcile_terms(&"bash".to_string());
    let ids = c.workspace.all_leaves();
    assert!(c.close_pane(ids[1]).contains(&Effect::Redraw));
    assert_eq!(c.workspace.tabs.len(), 1);
    assert!(c.close_pane(ids[0]).contains(&Effect::Exit));
}

#[test]
fn the_same_layout_is_pushed_once() {
    let (mut c, id) = ready();
    c.on_remote_frame(id, Incoming::Control(Control::Focus { owner: 5 }));
    let first = c.push_layout(id, "{}".to_string());
    assert!(first.contains(&Effect::Send {
        conn: id,
        message: Control::LayoutTree { json: "{}".to_string() },
    }));
    assert!(c.push_layout(id, "{}".to_string()).is_empty());
}

#[test]
fn a_target_is_not_connected_twice() {
    let (mut c, _) = ready();
    assert_eq!(c.focus_existing_persistent_target(&target()), Existing::Shown);
    let mut fresh = local();
    assert_eq!(fresh.focus_existing_persistent_target(&target()), Existing::New);
    fresh.begin_connect(target(), None, 0);
    assert_eq!(fresh.focus_existing_persistent_target(&target()), Existing::Connecting);
}

#[test]
fn labels_leave_out_the_usual_port() {
    assert_eq!(target().label(), "u@h");
    let other = RemoteTarget { port: 2222, ..target() };
    assert_eq!(other.label(), "u@h:2222");
    assert!(target().same(&target().copy()));
    assert!(!target().same(&other));
}

#[test]
fn a_title_is_set_and_reset() {
    let mut c = local();
    let pane = c.terms[0].pane;
    c.set_title(pane, Some("vim".to_string()));
    assert_eq!(c.terms[0].title, "vim");
    c.set_title(pane, None);
    assert_eq!(c.terms[0].title, "bash");
}

#[test]
fn numbers_that_run_out_are_noticed() {
    let (mut c, id) = ready();
    assert!(c.can_grow());
    let leaf = |pane| Box::new(LayoutNode::Leaf { pane });
    let root = LayoutNode::Split { cols: true, ratio: 0, a: leaf(1), b: leaf(2) };
    let what = Incoming::Layout(Layout { tabs: vec![LayoutTab { root, focus: None }] });
    assert!(c.can_hear(id, &what));
    assert!(!c.can_hear(id, &Incoming::Control(Control::Restore { pane: u64::MAX })));
    c.workspace.next_id = u64::MAX - 2;
    assert!(c.can_grow() && c.can_hear(id, &Incoming::Control(Control::Ready)));
    let leaf = |pane| Box::new(LayoutNode::Leaf { pane });
    let two = LayoutNode::Split {
        cols: true,
        ratio: 0,
        a: leaf(1),
        b: Box::new(LayoutNode::Split { cols: true, ratio: 0, a: leaf(2), b: leaf(3) }),
    };
    let more = Incoming::Layout(Layout { tabs: vec![LayoutTab { root: two, focus: None }] });
    assert!(!c.can_hear(id, &more));
    c.workspace.next_id = u64::MAX - 1;
    assert!(!c.can_grow());
}

#[test]
fn daemon_panes_lead_to_local_ones() {
    let (c, id) = ready();
    let pane = c.workspace.active_tab().focus;
    let remote = c.backend(pane).unwrap().remote_id;
    assert_eq!(c.route(id, remote), Some(pane));
    assert_eq!(c.route(id, remote + 1), None);
    assert_eq!(c.route(id + 1, remote), None);
}

#[test]
fn a_pane_that_waits_for_its_place_is_not_closed() {
    let (mut c, id) = ready();
    c.on_remote_frame(id, Incoming::Control(Control::Restore { pane: 9 }));
    let pane = c.route(id, 9).unwrap();
    let out = c.reconcile_terms(&"bash".to_string());
    assert!(!out.iter().any(|e| matches!(e, Effect::Send { .. } | Effect::Drop { .. })));
    assert_eq!(c.backend(pane).unwrap().remote_id, 9);
    let mine = c.backend(c.workspace.active_tab().focus).unwrap().remote_id;
    let tab = |pane| LayoutTab { root: LayoutNode::Leaf { pane }, focus: Some(pane) };
    let layout = Layout { tabs: vec![tab(mine), tab(9)] };
    c.on_remote_frame(id, Incoming::Layout(layout));
    assert!(c.workspace.all_leaves().contains(&pane));
    c.reconcile_terms(&"bash".to_string());
    assert!(c.backend(pane).is_some());
}
