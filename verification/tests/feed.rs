use potty::chrome::feed_rows;
use potty::feed::{base_of, feed_label, human_age, Feed};
use potty::notify::{Kind, Note, Tool, ToolNames, ZellijLoc, SCHEMA_VERSION};

fn note(session: &str, kind: Kind, pane: Option<u64>) -> Note {
    Note {
        v: SCHEMA_VERSION,
        tool: Tool::Codex,
        kind,
        session: session.to_string(),
        message: "approve?".to_string(),
        cwd: "/home/u/src/".to_string(),
        host: "box".to_string(),
        pid: Some(1),
        pane,
        instance: None,
        zellij: None,
        ts: 5,
    }
}

#[test]
fn ages_are_compact() {
    assert_eq!(human_age(0), "0s");
    assert_eq!(human_age(59), "59s");
    assert_eq!(human_age(60), "1m");
    assert_eq!(human_age(3599), "59m");
    assert_eq!(human_age(3600), "1h");
    assert_eq!(human_age(90000), "25h");
}

#[test]
fn a_label_names_host_and_directory() {
    let z = ZellijLoc { session: Some("main".to_string()), pane: None };
    let text = |s: &str| s.to_string();
    assert_eq!(feed_label(&text("box"), &text("/home/u/src/"), &None), "box:src");
    assert_eq!(feed_label(&text("localhost"), &text("/home/u"), &None), "u");
    assert_eq!(feed_label(&text(""), &text("/"), &None), "/");
    assert_eq!(feed_label(&text("b"), &text("/x"), &Some(z)), "b:x · zellij:main");
    assert_eq!(base_of("/a/b//"), "b");
}

#[test]
fn raising_twice_keeps_one_entry_and_clearing_removes_it() {
    let mut f = Feed::new();
    f.on_note(note("s", Kind::Raise, None), 10);
    f.on_note(note("s", Kind::Raise, Some(3)), 20);
    assert_eq!(f.pending.len(), 1);
    assert_eq!(f.pending[0].pane, Some(3));
    assert!(f.latched);
    f.on_note(note("s", Kind::Clear, None), 30);
    assert!(f.pending.is_empty());
    assert!(f.latched);
}

#[test]
fn entries_go_by_session_and_by_pane() {
    let mut f = Feed::new();
    f.on_note(note("a", Kind::Raise, Some(1)), 1);
    f.on_note(note("b", Kind::Raise, Some(2)), 2);
    assert!(f.clear_pending_for_pane(1));
    assert!(!f.clear_pending_for_pane(1));
    f.show(true);
    f.dismiss(&"box".to_string(), &"b".to_string());
    assert!(f.pending.is_empty() && !f.open);
    f.put_away();
    assert!(!f.latched);
}

#[test]
fn rows_are_newest_first_and_say_who_waits() {
    let mut f = Feed::new();
    f.on_note(note("a", Kind::Raise, Some(1)), 0);
    f.on_note(note("b", Kind::Raise, None), 90_000);
    let items = f.items(100_500);
    let order: Vec<&str> = items.iter().map(|i| i.session.as_str()).collect();
    assert_eq!(order, ["b", "a"]);
    assert_eq!(items[0].age, "10s");
    let names = ToolNames { claude: "c".to_string(), codex: "codex".to_string() };
    let rows = feed_rows(&items, &names);
    assert_eq!(rows[1].head, "codex · box:src · 1m");
    assert_eq!(rows[1].message, Some("approve?".to_string()));
    assert_eq!((rows[0].jump, rows[1].jump), (None, Some(1)));
}

#[test]
fn the_clock_may_run_back() {
    let mut f = Feed::new();
    f.on_note(note("a", Kind::Raise, None), 50);
    assert_eq!(f.items(10)[0].age, "0s");
}

#[test]
fn names_and_tools_match() {
    let names = ToolNames { claude: "c".to_string(), codex: "x".to_string() };
    assert_eq!(names.tool(&Some("c".to_string())), Tool::Claude);
    assert_eq!(names.tool(&Some("x".to_string())), Tool::Codex);
    assert_eq!(names.tool(&Some("y".to_string())), Tool::Other);
    assert_eq!(names.tool(&None), Tool::Other);
    assert_eq!(names.name(Tool::Other), "tool");
}
