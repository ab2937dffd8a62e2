use potty::proto::{Control, PROTOCOL_VERSION};
use potty::remote::{
    capture, check_server_key, ending, greeted_by, host_key_status, judge_host_key, stderr_text,
    Authenticator, ConnectEnv, Ending, HostKeyStatus, KnownHost, Ladder, Outcome, ShellAction,
    ShellFrame, Shells, SshConfig, Step, Verdict, STDERR_CAP,
};

struct Silent;

impl Authenticator for Silent {}

struct Trusting;

impl Authenticator for Trusting {
    fn accept_host_key(&self, _host: &str, _fingerprint: &str, _status: HostKeyStatus) -> bool {
        true
    }
}

#[test]
fn nobody_to_ask_means_no() {
    assert!(!Silent.accept_host_key("h", "f", HostKeyStatus::Unknown));
    assert_eq!(Silent.password("u", "h"), None);
    assert_eq!(Silent.key_passphrase("k"), None);
    assert_eq!(Silent.answer("n", "i", &[]), None);
}

#[test]
fn host_keys_are_judged() {
    assert_eq!(check_server_key(&Silent, "h", "f", KnownHost::Matches), Verdict::Trusted);
    assert_eq!(check_server_key(&Silent, "h", "f", KnownHost::Absent), Verdict::Refused);
    assert_eq!(check_server_key(&Trusting, "h", "f", KnownHost::Absent), Verdict::Learn);
    assert_eq!(host_key_status(KnownHost::Changed), Some(HostKeyStatus::Changed));
    assert_eq!(host_key_status(KnownHost::Matches), None);
    assert_eq!(judge_host_key(KnownHost::Absent, true), Verdict::Learn);
    assert_eq!(judge_host_key(KnownHost::Changed, false), Verdict::Refused);
}

#[test]
fn the_methods_are_tried_in_their_order() {
    let mut l = Ladder::new(true, 1);
    assert_eq!(l.step, Step::Agent);
    l.next(Outcome::Failed);
    let mut seen = vec![l.step];
    for _ in 0..20 {
        if matches!(l.step, Step::Accepted | Step::Exhausted | Step::Unreachable) {
            break;
        }
        let connecting = matches!(
            l.step,
            Step::KeysConnect
                | Step::InteractiveConnect
                | Step::PasswordConnect
                | Step::PasswordAsk
                | Step::KeyLoad { .. }
        );
        l.next(if connecting { Outcome::Done } else { Outcome::Failed });
        seen.push(l.step);
    }
    assert_eq!(*seen.last().unwrap(), Step::Exhausted);
    let at = |s: Step| seen.iter().position(|x| *x == s).unwrap();
    assert!(at(Step::KeysConnect) < at(Step::InteractiveConnect));
    assert!(at(Step::InteractiveConnect) < at(Step::PasswordConnect));
}

#[test]
fn an_accepted_key_lets_in() {
    let mut l = Ladder::new(false, 1);
    for _ in 0..10 {
        if l.step == (Step::KeyOffer { key: 0 }) {
            break;
        }
        l.next(Outcome::Done);
    }
    l.next(Outcome::Done);
    assert_eq!(l.step, Step::Accepted);
}

#[test]
fn shells_speak_the_session_protocol() {
    let mut s = Shells::new();
    let out = s.receive(ShellFrame::Control(Control::Hello { version: PROTOCOL_VERSION }));
    assert!(out.iter().any(|a| matches!(a, ShellAction::Reply(Control::Welcome { .. }))));
    let open = Control::Open { pane: 1, cols: 80, rows: 24, cwd_from: None };
    assert_eq!(
        s.receive(ShellFrame::Control(open)),
        [ShellAction::Open { pane: 1, cols: 80, rows: 24 }]
    );
    assert_eq!(s.opened(1, true), Control::Opened { pane: 1 });
    let data = |pane| ShellFrame::Data { pane, bytes: vec![b'x'] };
    assert_eq!(s.receive(data(1)), [ShellAction::Write { pane: 1, bytes: vec![b'x'] }]);
    assert!(s.receive(data(2)).is_empty());
    s.receive(ShellFrame::Control(Control::Close { pane: 1 }));
    assert!(s.receive(data(1)).is_empty());
    assert_eq!(s.opened(5, false), Control::Exited { pane: 5 });
    assert_eq!(s.ended(1), Control::Exited { pane: 1 });
}

#[test]
fn error_output_is_kept_up_to_a_limit() {
    let mut kept = Vec::new();
    capture(&mut kept, &vec![b'a'; STDERR_CAP - 1]);
    capture(&mut kept, b"bcd");
    assert_eq!(kept.len(), STDERR_CAP);
    assert_eq!(kept.last(), Some(&b'b'));
    capture(&mut kept, b"e");
    assert_eq!(kept.len(), STDERR_CAP);
    assert_eq!(stderr_text(&b" not \xff found\n".to_vec()), "not \u{fffd} found");
}

#[test]
fn an_ending_depends_on_the_greeting() {
    let host = "h".to_string();
    let failed = ending(&host, false, &"sh: not found".to_string());
    assert!(matches!(&failed, Ending::Failed(m) if m.contains("sh: not found")));
    assert!(matches!(ending(&host, true, &String::new()), Ending::Disconnected(_)));
    assert!(greeted_by(false, &Control::Welcome { version: 1, client: 0 }));
    assert!(!greeted_by(false, &Control::Ready));
    assert!(greeted_by(true, &Control::Ready));
}

#[test]
fn a_connection_can_come_from_the_environment() {
    let env = ConnectEnv {
        host: "h".to_string(),
        port: Some("2200".to_string()),
        user: None,
        key: Some(b"/k".to_vec()),
        known_hosts: None,
        use_agent: false,
    };
    let c = SshConfig::from_env(env);
    assert_eq!((c.port, c.user.as_str(), c.use_agent), (2200, "", false));
    assert_eq!(c.keys, [b"/k".to_vec()]);
    let odd = ConnectEnv {
        host: "h".to_string(),
        port: Some("70000".to_string()),
        user: Some("u".to_string()),
        key: None,
        known_hosts: None,
        use_agent: true,
    };
    assert_eq!(SshConfig::from_env(odd).port, 22);
}
