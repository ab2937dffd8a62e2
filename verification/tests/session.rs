use potty::notify::{Kind, Note, Tool, SCHEMA_VERSION};
use potty::proto::{Control, PROTOCOL_VERSION};
use potty::session::{Action, Packet, Session, REPLAY_CAP};

fn hello() -> Packet {
    Packet::Control(Control::Hello { version: PROTOCOL_VERSION })
}

fn open(pane: u64) -> Packet {
    Packet::Control(Control::Open { pane, cols: 80, rows: 24, cwd_from: None })
}

fn sent(out: &[Action], to: u64) -> Vec<&Packet> {
    out.iter()
        .filter_map(|a| match a {
            Action::Send { client, packet } if *client == to => Some(packet),
            _ => None,
        })
        .collect()
}

/// A session with one client and pane 1 open.
fn running() -> (Session, u64) {
    let mut s = Session::new();
    let c = s.attach();
    s.receive(c, hello());
    let out = s.receive(c, open(1));
    assert!(out.iter().any(|a| matches!(a, Action::Spawn { pane: 1, cols: 80, rows: 24, .. })));
    let out = s.spawned(c, 1, 80, 24);
    assert!(sent(&out, c).contains(&&Packet::Control(Control::Opened { pane: 1 })));
    (s, c)
}

fn note(session: &str, kind: Kind) -> Note {
    Note {
        v: SCHEMA_VERSION,
        tool: Tool::Codex,
        kind,
        session: session.to_string(),
        message: "m".to_string(),
        cwd: "/".to_string(),
        host: "h".to_string(),
        pid: None,
        pane: None,
        instance: None,
        zellij: None,
        ts: 1,
    }
}

#[test]
fn a_client_is_welcomed_and_made_ready() {
    let mut s = Session::new();
    let c = s.attach();
    let out = s.receive(c, hello());
    let mine = sent(&out, c);
    assert_eq!(
        mine[0],
        &Packet::Control(Control::Welcome { version: PROTOCOL_VERSION, client: c })
    );
    assert!(mine.contains(&&Packet::Control(Control::Ready)));
}

#[test]
fn output_reaches_the_clients_that_know_the_pane() {
    let (mut s, c) = running();
    let late = s.attach();
    let out = s.output(1, b"hi");
    assert_eq!(sent(&out, c), [&Packet::Data { pane: 1, bytes: b"hi".to_vec() }]);
    assert!(sent(&out, late).is_empty());
    assert!(s.output(9, b"x").is_empty());
}

#[test]
fn an_attaching_client_gets_every_screen_after_its_announcement() {
    let (mut s, _) = running();
    s.output(1, b"$ ls\r\n");
    let late = s.attach();
    let out = s.receive(late, hello());
    let mine = sent(&out, late);
    let restore = mine
        .iter()
        .position(|p| **p == Packet::Control(Control::Restore { pane: 1 }))
        .unwrap();
    let data = mine.iter().position(|p| matches!(p, Packet::Data { pane: 1, .. })).unwrap();
    let ready = mine.iter().position(|p| **p == Packet::Control(Control::Ready)).unwrap();
    assert!(restore < data && data < ready);
}

#[test]
fn the_replay_is_the_end_of_the_output() {
    let (mut s, _) = running();
    s.output(1, &vec![b'a'; REPLAY_CAP]);
    s.output(1, b"tail");
    let late = s.attach();
    let out = s.receive(late, hello());
    let bytes = sent(&out, late)
        .into_iter()
        .find_map(|p| match p {
            Packet::Data { bytes, .. } => Some(bytes.clone()),
            _ => None,
        })
        .unwrap();
    assert_eq!(bytes.len(), REPLAY_CAP);
    assert!(bytes.ends_with(b"aaaatail"));
}

#[test]
fn focus_follows_whoever_types() {
    let (mut s, c) = running();
    let other = s.attach();
    s.receive(other, hello());
    let resize = || Packet::Control(Control::Resize { pane: 1, cols: 100, rows: 30 });
    assert!(s.receive(other, resize()).is_empty());
    let out = s.receive(other, Packet::Data { pane: 1, bytes: b"x".to_vec() });
    assert!(out.contains(&Action::Write { pane: 1, bytes: b"x".to_vec() }));
    let told = Packet::Control(Control::Focus { owner: other });
    assert!(sent(&out, c).contains(&&told));
    assert!(s
        .receive(other, resize())
        .contains(&Action::Resize { client: other, pane: 1, cols: 100, rows: 30 }));
    assert!(s.receive(c, resize()).is_empty());
}

#[test]
fn a_pushed_layout_is_replayed() {
    let (mut s, c) = running();
    let layout = || Packet::Control(Control::LayoutTree { json: "{\"tabs\":[]}".to_string() });
    s.receive(c, layout());
    let late = s.attach();
    let out = s.receive(late, hello());
    assert!(sent(&out, late).contains(&&layout()));
}

#[test]
fn the_daemon_ends_with_its_last_pane_and_client() {
    let (mut s, c) = running();
    assert!(!s.detach(c).contains(&Action::Exit));
    let (mut s, c) = running();
    let out = s.receive(c, Packet::Control(Control::Close { pane: 1 }));
    assert!(out.contains(&Action::Kill { pane: 1 }));
    let mut ended = out.contains(&Action::Exit);
    ended |= s.exited(1).contains(&Action::Exit);
    ended |= s.detach(c).contains(&Action::Exit);
    assert!(ended);
}

#[test]
fn an_exit_is_told_to_everyone_who_knows() {
    let (mut s, c) = running();
    let out = s.exited(1);
    assert!(sent(&out, c).contains(&&Packet::Control(Control::Exited { pane: 1 })));
}

#[test]
fn a_pane_that_cannot_start_is_over() {
    let mut s = Session::new();
    let c = s.attach();
    s.receive(c, open(3));
    let out = s.spawn_failed(c, 3);
    assert_eq!(sent(&out, c), [&Packet::Control(Control::Exited { pane: 3 })]);
}

#[test]
fn notes_reach_clients_and_wait_for_the_next() {
    let (mut s, c) = running();
    let out = s.note(note("a", Kind::Raise));
    assert_eq!(sent(&out, c), [&Packet::Note(note("a", Kind::Raise))]);
    s.detach(c);
    s.note(note("b", Kind::Raise));
    let late = s.attach();
    let out = s.receive(late, hello());
    assert!(sent(&out, late).contains(&&Packet::Note(note("b", Kind::Raise))));
}

#[test]
fn a_note_cleared_with_nobody_there_is_cleared_on_the_next_attach() {
    let (mut s, c) = running();
    s.note(note("a", Kind::Raise));
    s.detach(c);
    s.note(note("a", Kind::Clear));
    let late = s.attach();
    let out = s.receive(late, hello());
    let mine = sent(&out, late);
    assert!(!mine.contains(&&Packet::Note(note("a", Kind::Raise))));
    assert!(mine.contains(&&Packet::Note(note("a", Kind::Clear))));
}

#[test]
fn clients_come_and_go() {
    let mut s = Session::new();
    assert!(s.can_attach());
    let a = s.attach();
    let b = s.attach();
    assert_ne!(a, b);
    assert!(s.is_attached(a) && s.is_attached(b));
    s.detach(a);
    assert!(!s.is_attached(a) && s.is_attached(b));
}

#[test]
fn a_dismissed_note_is_forgotten_by_the_daemon() {
    let (mut s, c) = running();
    s.note(note("a", Kind::Raise));
    s.receive(c, Packet::Note(note("a", Kind::Clear)));
    let late = s.attach();
    let out = s.receive(late, hello());
    assert!(!sent(&out, late).iter().any(|p| matches!(p, Packet::Note(_))));
}
