use potty::codex::{ensure_codex_command_hook, install_codex, table_has_potty_hook, CodexHook, NotifySetting};
use potty::helper::{
    event_name_eq, hostname, message_from_payload, non_empty, note_from, pane_from, payload_str,
    print_ssh_config, unknown_target_text, zellij_loc, Arg, Job, Options, Stamp,
};
use potty::hooks::{install_claude, HookError};
use potty::notify::{Kind, Tool, ToolNames, ZellijLoc, SCHEMA_VERSION};
use serde_json::Value;

/// A tool is called by its variant's name in small letters.
fn name(t: Tool) -> String {
    format!("{t:?}").to_lowercase()
}

fn names() -> ToolNames {
    ToolNames { claude: name(Tool::Claude), codex: name(Tool::Codex) }
}

fn object(members: &[(&str, &str)]) -> Value {
    let mut map = serde_json::Map::new();
    for (k, v) in members {
        map.insert(k.to_string(), Value::String(v.to_string()));
    }
    Value::Object(map)
}

#[test]
fn codex_permission_request_message_mentions_tool() {
    let payload = object(&[("hook_event_name", "PermissionRequest"), ("tool_name", "Bash")]);

    assert_eq!(message_from_payload(&payload), "Bash approval needed");
}

#[test]
fn codex_permission_request_message_has_generic_fallback() {
    let payload = object(&[("event", "permission-request")]);

    assert_eq!(message_from_payload(&payload), "approval needed");
}

#[test]
fn codex_hook_install_is_idempotent() {
    let mut doc: toml_edit::DocumentMut = r#"
model = "gpt-5"
"#
    .parse()
    .unwrap();
    let hook = CodexHook {
        event: "PermissionRequest",
        matcher: Some("*"),
        command: "/usr/bin/potty-notify --tool codex".to_string(),
    };

    assert!(ensure_codex_command_hook(&mut doc, &hook).unwrap());
    assert!(!ensure_codex_command_hook(&mut doc, &hook).unwrap());

    let groups = doc["hooks"]["PermissionRequest"].as_array_of_tables().unwrap();
    assert_eq!(groups.iter().filter(|group| table_has_potty_hook(group)).count(), 1);

    let rendered = doc.to_string();
    assert!(rendered.contains("[[hooks.PermissionRequest]]"));
    assert!(rendered.contains("matcher = \"*\""));
    assert!(rendered.contains("[[hooks.PermissionRequest.hooks]]"));
    assert!(rendered.contains("command = \"/usr/bin/potty-notify --tool codex\""));
}

#[test]
fn the_first_text_of_a_payload_is_taken() {
    let v = object(&[("b", "two"), ("c", "three")]);
    assert_eq!(payload_str(&v, &["a", "b", "c"]), Some("two"));
    assert_eq!(payload_str(&v, &["a"]), None);
    assert_eq!(payload_str(&Value::Null, &["a"]), None);
}

#[test]
fn event_names_ignore_case_and_marks() {
    assert!(event_name_eq("permission-request", "PermissionRequest"));
    assert!(event_name_eq("Permission_Request", "permissionrequest"));
    assert!(event_name_eq("STRASSE", "strasse"));
    assert!(!event_name_eq("permission", "PermissionRequest"));
}

fn stamp() -> Stamp {
    Stamp {
        tool: Tool::Codex,
        kind: Kind::Raise,
        host: "box".to_string(),
        pid: 7,
        pane: None,
        dir: Some("/work".to_string()),
        zellij: None,
        ts: 99,
    }
}

#[test]
fn a_note_is_read_from_a_payload() {
    let n = note_from(r#"{"session_id":"s1","message":"hi","cwd":"/src"}"#, stamp());
    assert_eq!(n.session, "s1");
    assert_eq!(n.message, "hi");
    assert_eq!(n.cwd, "/src");
    assert_eq!((n.v, n.ts, n.pid, n.tool), (SCHEMA_VERSION, 99, Some(7), Tool::Codex));
}

#[test]
fn a_payload_that_is_no_json_still_makes_a_note() {
    let n = note_from("not json", stamp());
    assert_eq!(n.cwd, "/work");
    assert_eq!(n.host, "box");
    assert!(!n.session.is_empty());
    let m = note_from("not json", Stamp { pane: Some(4), ..stamp() });
    assert!(m.session.contains('4'));
}

#[test]
fn the_environment_is_read_as_it_says() {
    assert_eq!(pane_from("12"), Some(12));
    assert_eq!(pane_from("x"), None);
    assert_eq!(hostname(Some("a".to_string()), Some("b\n".to_string())), "a");
    assert_eq!(hostname(None, Some("b\n".to_string())), "b");
    assert_eq!(non_empty(Some(String::new())), None);
    assert_eq!(non_empty(Some("x".to_string())), Some("x".to_string()));
    assert_eq!(zellij_loc(false, Some("s".to_string()), None), None);
    assert_eq!(
        zellij_loc(true, Some("s".to_string()), Some(String::new())),
        Some(ZellijLoc { session: Some("s".to_string()), pane: None })
    );
}

#[test]
fn arguments_choose_the_job() {
    let mut o = Options::new();
    o.take(Arg::Tool(Some("codex".to_string())), &names());
    o.take(Arg::Clear, &names());
    o.take(Arg::Value(Some("{}".to_string())), &names());
    assert_eq!((o.tool, o.kind), (Tool::Codex, Kind::Clear));
    assert_eq!(o.job(&names()), Job::Send { payload: Some("{}".to_string()) });
    let mut o = Options::new();
    o.take(Arg::Install(Some(name(Tool::Claude))), &names());
    assert_eq!(o.job(&names()), Job::InstallClaude);
    let mut o = Options::new();
    o.take(Arg::Install(Some("vim".to_string())), &names());
    assert_eq!(o.job(&names()), Job::UnknownTarget("vim".to_string()));
    assert!(unknown_target_text(&"vim".to_string(), &names()).contains("vim"));
}

#[test]
fn the_ssh_snippet_names_host_and_socket() {
    let s = print_ssh_config(&Some("dev".to_string()), "/run/user/1/potty-notify.sock");
    assert!(s.contains("Host dev"));
    assert!(s.contains("RemoteForward /tmp/potty-notify.sock /run/user/1/potty-notify.sock"));
}

#[test]
fn claude_hooks_are_installed_once_beside_what_is_there() {
    let settings = r#"{"model":"m","hooks":{"Notification":[{"hooks":[]}],"Stop":[1]}}"#;
    let first = install_claude(Some(settings), "/usr/bin/potty-notify", "t").unwrap();
    assert!(first.raise_added && first.clear_added);
    let text = first.contents.unwrap();
    let v: Value = serde_json::from_str(&text).unwrap();
    assert_eq!(v["model"], Value::String("m".to_string()));
    assert_eq!(v["hooks"]["Stop"][0], Value::from(1));
    assert_eq!(v["hooks"]["Notification"].as_array().unwrap().len(), 2);
    let second = install_claude(Some(&text), "/usr/bin/potty-notify", "t").unwrap();
    assert!(!second.raise_added && !second.clear_added);
    assert_eq!(second.contents, None);
}

#[test]
fn settings_of_another_shape_are_refused() {
    assert!(matches!(install_claude(Some("{"), "potty-notify", "t"), Err(HookError::NotJson(_))));
    assert_eq!(install_claude(Some("[]"), "potty-notify", "t").unwrap_err(), HookError::NotAnObject);
    assert_eq!(
        install_claude(Some(r#"{"hooks":1}"#), "potty-notify", "t").unwrap_err(),
        HookError::HooksNotAnObject
    );
    assert_eq!(
        install_claude(Some(r#"{"hooks":{"Notification":1}}"#), "potty-notify", "t").unwrap_err(),
        HookError::EventNotAList("Notification")
    );
    assert!(install_claude(None, "potty-notify", "t").unwrap().contents.is_some());
    assert!(HookError::NotAnObject.message("/x/settings.json").contains("/x/settings.json"));
}

#[test]
fn codex_is_wired_once_and_keeps_a_foreign_program() {
    let first = install_codex("model = \"x\"\n", "/usr/bin/potty-notify").unwrap();
    assert_eq!(first.notify, NotifySetting::Added);
    let text = first.contents.unwrap();
    assert!(text.contains("model = \"x\""));
    let second = install_codex(&text, "/usr/bin/potty-notify").unwrap();
    assert_eq!(second.notify, NotifySetting::Wired);
    assert!(!second.raise_added && !second.clear_added);
    let foreign = install_codex("notify = [\"mine\"]\n", "/usr/bin/potty-notify").unwrap();
    assert!(matches!(foreign.notify, NotifySetting::Foreign(_)));
    assert!(foreign.contents.unwrap().contains("notify = [\"mine\"]"));
}

#[test]
fn codex_settings_keep_their_comments_and_their_order() {
    let before = "# top\nzeta = 1 # last letter\n  # indented\nalpha = 2\n\n# mine\n[hooks] # kept\n\n# a group\n[[hooks.Stop]]\nmatcher = \"x\" # why\n\n[other]\nk = 1\n# end\n";
    let text = install_codex(before, "/usr/bin/potty-notify").unwrap().contents.unwrap();
    let mut rest = text.as_str();
    for line in before.lines().filter(|l| !l.is_empty()) {
        let at = rest.find(line).unwrap();
        rest = &rest[at + line.len()..];
    }
    let notify = text.find("notify = [\"/usr/bin/potty-notify\", \"--tool\", \"codex\"]").unwrap();
    assert!(text.find("alpha = 2").unwrap() < notify && notify < text.find("[hooks]").unwrap());
    assert!(
        text.find("[[hooks.Stop]]").unwrap() < text.find("[[hooks.PermissionRequest]]").unwrap()
    );
}

#[test]
fn a_hook_that_is_there_leaves_the_settings_untouched() {
    let text = "# mine\n[[hooks.Stop]] # a\n[[hooks.Stop.hooks]]\ncommand = \"potty-notify\" # b\n";
    let mut doc: toml_edit::DocumentMut = text.parse().unwrap();
    let hook = CodexHook { event: "Stop", matcher: None, command: "potty-notify".to_string() };
    assert!(!ensure_codex_command_hook(&mut doc, &hook).unwrap());
    assert_eq!(doc.to_string(), text);
}

#[test]
fn codex_settings_of_another_shape_are_refused() {
    assert!(matches!(install_codex("= 1", "potty-notify"), Err(HookError::NotToml(_))));
    assert_eq!(
        install_codex("hooks = 1\n", "potty-notify").unwrap_err(),
        HookError::HooksNotATable
    );
    assert_eq!(
        install_codex("[hooks]\nPermissionRequest = 1\n", "potty-notify").unwrap_err(),
        HookError::EventNotTables("PermissionRequest")
    );
}
