use potty::notify::{
    default_socket_path, instance_socket_dir, instance_socket_path, instance_socket_paths, Kind,
    Note, Tool, SCHEMA_VERSION,
};
use potty::paths::{
    config_path, default_keys, default_shell, default_title, is_socket_name, join, session_role,
    socket_path, Role,
};
use potty::term_env::defaults;
use potty::text::{contains, elide, read_i32, read_u16, trim_str};

#[test]
fn paths_are_joined_as_paths_are() {
    assert_eq!(join(b"/a", b"b"), b"/a/b");
    assert_eq!(join(b"/a/", b"b"), b"/a/b");
    assert_eq!(join(b"/a", b"/b"), b"/b");
    assert_eq!(join(b"", b"b"), b"b");
    assert!(is_socket_name(b"x.sock"));
    assert!(!is_socket_name(b".sock"));
    assert!(!is_socket_name(b"x.sockets"));
}

#[test]
fn a_terminal_is_named_after_its_shell() {
    assert_eq!(default_title("/bin/bash"), "bash");
    assert_eq!(default_title("fish"), "fish");
    assert_eq!(default_title("/usr/bin/zsh/"), "zsh");
    assert_eq!(default_title("/"), "shell");
    assert_eq!(default_title(".."), "shell");
    assert_eq!(default_shell(&None, None), "/bin/bash");
    assert_eq!(default_shell(&None, Some("/bin/zsh".to_string())), "/bin/zsh");
    assert_eq!(default_shell(&Some("fish".to_string()), Some("x".to_string())), "fish");
}

#[test]
fn the_configuration_is_found_in_its_places() {
    let some = |s: &[u8]| Some(s.to_vec());
    assert_eq!(config_path(some(b"/c"), some(b"/h")), b"/c/potty/potty.toml");
    assert_eq!(config_path(None, some(b"/h")), b"/h/.config/potty/potty.toml");
    assert_eq!(config_path(None, None), b"./potty/potty.toml");
    assert_eq!(default_keys(some(b"/h"))[0], b"/h/.ssh/id_ed25519");
    assert!(default_keys(None).is_empty());
}

#[test]
fn sockets_lie_below_the_runtime_directory() {
    assert_eq!(default_socket_path(b"/run/u"), b"/run/u/potty/notify.sock");
    let dir = instance_socket_dir(b"/run/u");
    assert!(dir.starts_with(b"/run/u/"));
    let own = instance_socket_path(b"/run/u", "1-2");
    assert_eq!(own, join(&dir, b"1-2.sock"));
    let names = vec![b"b.sock".to_vec(), b"x.txt".to_vec(), b"a.sock".to_vec()];
    let found = instance_socket_paths(b"/run/u", &names);
    assert_eq!(found.len(), 2);
    let named = socket_path(Some(b"/s".to_vec()), None, None, b"/tmp");
    assert_eq!(named, b"/s");
}

#[test]
fn the_session_program_chooses_its_role() {
    assert_eq!(session_role(None, None, false), Role::Attach);
    assert_eq!(session_role(None, None, true), Role::Inline);
    assert_eq!(
        session_role(Some("--daemon"), Some(b"/s".to_vec()), false),
        Role::Daemon(Some(b"/s".to_vec()))
    );
}

#[test]
fn shells_are_told_their_terminal() {
    let vars = defaults();
    assert_eq!(vars[0], ("COLORTERM".to_string(), "truecolor".to_string()));
    assert_eq!(vars[1], ("TERM".to_string(), "xterm-256color".to_string()));
}

#[test]
fn notes_of_another_version_are_not_read() {
    let mut n = Note {
        v: SCHEMA_VERSION,
        tool: Tool::Other,
        kind: Kind::Raise,
        session: "s".to_string(),
        message: String::new(),
        cwd: String::new(),
        host: "h".to_string(),
        pid: None,
        pane: None,
        instance: None,
        zellij: None,
        ts: 0,
    };
    assert!(n.readable());
    assert!(n.is_about(&"h".to_string(), &"s".to_string()));
    assert!(!n.is_about(&"h".to_string(), &"t".to_string()));
    n.v = SCHEMA_VERSION + 1;
    assert!(!n.readable());
}

#[test]
fn text_is_cut_and_read() {
    assert_eq!(elide("abc", 3), "abc");
    assert_eq!(elide("abcd", 3), "ab…");
    assert_eq!(trim_str("\u{a0} x\n"), "x");
    assert!(contains("potty-notify --tool", "potty-notify"));
    assert!(!contains("potty", "potty-notify"));
    assert_eq!(read_u16(&['6', '5', '5', '3', '6']), None);
    assert_eq!(read_u16(&['+', '7']), Some(7));
    assert_eq!(read_i32(&['-', '7']), Some(-7));
}
