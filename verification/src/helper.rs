//! The notification helper: from a tool's event to a note, and the texts it prints.

use crate::json;
use crate::json::{field, null_value, parse_json, Json};
use crate::notify::{Kind, Note, Tool, ToolNames, ZellijLoc, SCHEMA_VERSION};
use crate::text;
use crate::text::{chars_of, push_number, read_u64, trim_str};
use vstd::prelude::*;
use vstd::slice::*;
use vstd::string::*;

verus! {

/// A text that is there and not empty.
pub open spec fn filled(t: Option<Seq<char>>) -> Option<Seq<char>> {
    match t {
        Some(s) => if s.len() > 0 {
            Some(s)
        } else {
            None
        },
        None => None,
    }
}

/// The text of an event's member, if it has one that is not empty.
pub open spec fn member_text(j: Json, key: Seq<char>) -> Option<Seq<char>> {
    match json::json_field(j, key) {
        Some(Json::Text(s)) => filled(Some(s)),
        _ => None,
    }
}

/// The first of several members with a text.
pub open spec fn payload_text(j: Json, keys: Seq<Seq<char>>) -> Option<Seq<char>>
    decreases keys.len(),
{
    if keys.len() == 0 {
        None
    } else {
        match member_text(j, keys[0]) {
            Some(s) => Some(s),
            None => payload_text(j, keys.skip(1)),
        }
    }
}

/// The texts of a list of literals.
pub open spec fn literals(keys: Seq<&str>) -> Seq<Seq<char>> {
    keys.map_values(|k: &str| k@)
}

/// The first of several members of an event that has a text.
pub fn payload_str<'a>(v: &'a serde_json::Value, keys: &[&str]) -> (r: Option<&'a str>)
    ensures
        (match r {
            Some(s) => Some(s@),
            None => None,
        }) == payload_text(json::json_of(*v), literals(keys@)),
{
    let ghost all = literals(keys@);
    let mut i: usize = 0;
    assert(all.skip(0) =~= all);
    while i < keys.len()
        invariant
            i <= keys.len(),
            all == literals(keys@),
            payload_text(json::json_of(*v), all) == payload_text(
                json::json_of(*v),
                all.skip(i as int),
            ),
        decreases keys.len() - i,
    {
        assert(all.skip(i as int)[0] == keys@[i as int]@);
        assert(all.skip(i as int).skip(1) =~= all.skip(i + 1));
        match field(v, keys[i]) {
            Some(f) => {
                match f.as_str() {
                    Some(s) => {
                        if !s.is_empty() {
                            return Some(s);
                        }
                    },
                    None => {},
                }
            },
            None => {},
        }
        i = i + 1;
    }
    None
}

/// The lower-case form of a character.
pub uninterp spec fn lower_of(c: char) -> Seq<char>;

/// The lower-case form of an ASCII character.
pub open spec fn ascii_lower_of(c: char) -> char {
    if 'A' <= c <= 'Z' {
        (c as u32 + 32) as char
    } else {
        c
    }
}

/// `char::to_lowercase` of the standard library: the lower-case form of a character, which may be
/// several. ASCII capitals become the small letters, and other ASCII characters stay.
#[verifier::external_body]
fn lower(c: char) -> (r: Vec<char>)
    ensures
        r@ == lower_of(c),
        (c as u32) < 128 ==> r@ == seq![ascii_lower_of(c)],
{
    c.to_lowercase().collect()
}

/// A character in lower case.
pub open spec fn lowered(c: char) -> Seq<char> {
    if (c as u32) < 128 {
        seq![ascii_lower_of(c)]
    } else {
        lower_of(c)
    }
}

/// An event's name without dashes and underscores, in lower case.
pub open spec fn normalized(s: Seq<char>) -> Seq<char>
    decreases s.len(),
{
    if s.len() == 0 {
        seq![]
    } else if s.last() == '-' || s.last() == '_' {
        normalized(s.drop_last())
    } else {
        normalized(s.drop_last()) + lowered(s.last())
    }
}

fn normalize(s: &str) -> (r: Vec<char>)
    ensures
        r@ == normalized(s@),
{
    let cs = chars_of(s);
    let mut r: Vec<char> = Vec::new();
    assert(cs@.take(0) =~= seq![]);
    for i in 0..cs.len()
        invariant
            r@ == normalized(cs@.take(i as int)),
    {
        assert(cs@.take(i + 1).drop_last() =~= cs@.take(i as int));
        if cs[i] != '-' && cs[i] != '_' {
            let mut l = lower(cs[i]);
            r.append(&mut l);
        }
    }
    assert(cs@.take(cs.len() as int) =~= cs@);
    r
}

/// Whether two names of events mean the same one, however they are written.
pub fn event_name_eq(actual: &str, expected: &str) -> (b: bool)
    ensures
        b == (normalized(actual@) == normalized(expected@)),
{
    let a = normalize(actual);
    let e = normalize(expected);
    if a.len() != e.len() {
        return false;
    }
    for i in 0..a.len()
        invariant
            a.len() == e.len(),
            a@ == normalized(actual@),
            e@ == normalized(expected@),
            forall|k: int| 0 <= k < i ==> a@[k] == e@[k],
    {
        if a[i] != e[i] {
            return false;
        }
    }
    assert(a@ =~= e@);
    true
}

proof fn lemma_normalized_both(a: Seq<char>, b: Seq<char>)
    ensures
        normalized(a + b) == normalized(a) + normalized(b),
    decreases b.len(),
{
    if b.len() == 0 {
        assert(a + b =~= a);
        assert(normalized(a) + normalized(b) =~= normalized(a));
    } else {
        assert((a + b).drop_last() =~= a + b.drop_last());
        lemma_normalized_both(a, b.drop_last());
        assert(normalized(a + b) =~= normalized(a) + normalized(b));
    }
}

/// How an event's name is written does not matter: neither the case of its ASCII letters nor a
/// dash or an underscore anywhere in it.
pub proof fn spelling_does_not_matter(a: Seq<char>, mark: char, b: Seq<char>)
    requires
        mark == '-' || mark == '_',
    ensures
        normalized(text::ascii_lowered(a)) == normalized(a),
        normalized(a + seq![mark] + b) == normalized(a + b),
    decreases a.len(),
{
    let m = seq![mark];
    assert(m.drop_last() =~= seq![]);
    reveal_with_fuel(normalized, 2);
    assert(normalized(m) =~= seq![]);
    lemma_normalized_both(a, m);
    lemma_normalized_both(a + m, b);
    lemma_normalized_both(a, b);
    assert(normalized(a) + normalized(m) =~= normalized(a));
    let low = text::ascii_lowered(a);
    if a.len() > 0 {
        assert(low.drop_last() =~= text::ascii_lowered(a.drop_last()));
        spelling_does_not_matter(a.drop_last(), mark, b);
    } else {
        assert(low =~= a);
    }
}

/// The members that say which event it is.
pub open spec fn event_keys() -> Seq<Seq<char>> {
    seq![
        "hook_event_name"@,
        "hookEventName"@,
        "event_name"@,
        "eventName"@,
        "event"@,
        "type"@,
    ]
}

/// Whether an event is the one of a name.
pub open spec fn is_event(j: Json, name: Seq<char>) -> bool {
    payload_text(j, event_keys()) matches Some(e) && normalized(e) == normalized(name)
}

/// What a note says of an event: its own message; for a request of permission, the tool that
/// wants it; for a prompt, that it was submitted; and otherwise its type.
pub open spec fn event_message(j: Json) -> Seq<char> {
    match payload_text(j, seq!["message"@, "title"@, "notification_type"@]) {
        Some(m) => m,
        None => if is_event(j, "PermissionRequest"@) {
            match payload_text(j, seq!["tool_name"@, "toolName"@, "tool"@]) {
                Some(t) => t + " approval needed"@,
                None => "approval needed"@,
            }
        } else if is_event(j, "UserPromptSubmit"@) {
            "prompt submitted"@
        } else {
            match payload_text(j, seq!["type"@]) {
                Some(t) => t,
                None => "waiting for you"@,
            }
        },
    }
}

/// The message of an event.
pub fn message_from_payload(v: &serde_json::Value) -> (m: String)
    ensures
        m@ == event_message(json::json_of(*v)),
{
    let ghost j = json::json_of(*v);
    assert(literals(seq!["message", "title", "notification_type"]) =~= seq![
        "message"@,
        "title"@,
        "notification_type"@,
    ]);
    let keys: [&str; 3] = ["message", "title", "notification_type"];
    assert(keys@ =~= seq!["message", "title", "notification_type"]);
    match payload_str(v, &keys) {
        Some(m) => {
            return m.to_owned();
        },
        None => {},
    }
    let names: [&str; 6] = [
        "hook_event_name",
        "hookEventName",
        "event_name",
        "eventName",
        "event",
        "type",
    ];
    assert(literals(names@) =~= event_keys());
    let event = payload_str(v, &names);
    let permission: bool = match event {
        Some(e) => event_name_eq(e, "PermissionRequest"),
        None => false,
    };
    if permission {
        let tools: [&str; 3] = ["tool_name", "toolName", "tool"];
        assert(literals(tools@) =~= seq!["tool_name"@, "toolName"@, "tool"@]);
        return match payload_str(v, &tools) {
            Some(t) => {
                let mut m = t.to_owned();
                m.append(" approval needed");
                m
            },
            None => "approval needed".to_owned(),
        };
    }
    let prompt: bool = match event {
        Some(e) => event_name_eq(e, "UserPromptSubmit"),
        None => false,
    };
    if prompt {
        return "prompt submitted".to_owned();
    }
    let types: [&str; 1] = ["type"];
    assert(literals(types@) =~= seq!["type"@]);
    match payload_str(v, &types) {
        Some(t) => t.to_owned(),
        None => "waiting for you".to_owned(),
    }
}

/// The session that an event belongs to: its own id, or a stable key made up for it, so that its
/// notes still group.
pub open spec fn event_session(j: Json, pane: Option<u64>, host: Seq<char>) -> Seq<char> {
    match payload_text(j, seq!["session_id"@, "session"@, "id"@]) {
        Some(s) => s,
        None => match pane {
            Some(p) => "pane-"@ + text::ascii(text::decimal(p as nat)),
            None => host + "-unknown"@,
        },
    }
}

fn session_from_payload(v: &serde_json::Value, pane: Option<u64>, host: &String) -> (s: String)
    ensures
        s@ == event_session(json::json_of(*v), pane, host@),
{
    let keys: [&str; 3] = ["session_id", "session", "id"];
    assert(literals(keys@) =~= seq!["session_id"@, "session"@, "id"@]);
    match payload_str(v, &keys) {
        Some(s) => s.to_owned(),
        None => match pane {
            Some(p) => {
                let mut s = "pane-".to_owned();
                push_number(&mut s, p as u128);
                s
            },
            None => {
                let mut s = host.clone();
                s.append("-unknown");
                s
            },
        },
    }
}

/// What the helper knows of itself.
#[derive(Debug, PartialEq, Eq)]
pub struct Stamp {
    pub tool: Tool,
    pub kind: Kind,
    pub host: String,
    pub pid: u32,
    pub pane: Option<u64>,
    /// The helper's own directory.
    pub dir: Option<String>,
    pub zellij: Option<ZellijLoc>,
    /// Unix seconds.
    pub ts: u64,
}

/// The event in a payload; a payload that is no JSON is no event.
pub open spec fn event_of(payload: Seq<char>) -> Json {
    match json::json_read(text::trim(payload)) {
        Ok(j) => j,
        Err(_) => Json::Null,
    }
}

/// A note says what an event and a stamp do.
pub open spec fn tells(n: Note, j: Json, s: Stamp) -> bool {
    &&& n.v == SCHEMA_VERSION
    &&& n.tool == s.tool
    &&& n.kind == s.kind
    &&& n.session@ == event_session(j, s.pane, s.host@)
    &&& n.message@ == event_message(j)
    &&& n.cwd@ == (match payload_text(j, seq!["cwd"@]) {
        Some(d) => d,
        None => match s.dir {
            Some(d) => d@,
            None => seq![],
        },
    })
    &&& n.host@ == s.host@
    &&& n.pid == Some(s.pid)
    &&& n.pane == s.pane
    &&& n.instance is None
    &&& n.zellij == s.zellij
    &&& n.ts == s.ts
}

/// Make the note for an event.
pub fn note_of(v: &serde_json::Value, s: Stamp) -> (n: Note)
    ensures
        tells(n, json::json_of(*v), s),
{
    let session = session_from_payload(v, s.pane, &s.host);
    let message = message_from_payload(v);
    let keys: [&str; 1] = ["cwd"];
    assert(literals(keys@) =~= seq!["cwd"@]);
    let Stamp { tool, kind, host, pid, pane, dir, zellij, ts } = s;
    let cwd = match payload_str(v, &keys) {
        Some(d) => d.to_owned(),
        None => match dir {
            Some(d) => d,
            None => {
                let e = String::new();
                assert(e@ =~= seq![]);
                e
            },
        },
    };
    Note {
        v: SCHEMA_VERSION,
        tool,
        kind,
        session,
        message,
        cwd,
        host,
        pid: Some(pid),
        pane,
        instance: None,
        zellij,
        ts,
    }
}

/// Make the note for a payload. One that cannot be read still makes a well-formed note.
pub fn note_from(payload: &str, s: Stamp) -> (n: Note)
    ensures
        tells(n, event_of(payload@), s),
{
    let t = trim_str(payload);
    let v = match parse_json(t.as_str()) {
        Ok(v) => v,
        Err(_) => null_value(),
    };
    note_of(&v, s)
}

/// The pane that the environment names, if it is a number.
pub fn pane_from(value: &str) -> (p: Option<u64>)
    ensures
        (match p {
            Some(n) => Some(n as nat),
            None => None,
        }) == text::parse_u64(value@),
{
    let cs = chars_of(value);
    read_u64(cs.as_slice())
}

/// The host's name: what the environment says, else what the system's file says, else this one.
pub open spec fn host_name(env: Option<Seq<char>>, file: Option<Seq<char>>) -> Seq<char> {
    match filled(env) {
        Some(h) => h,
        None => match file {
            Some(f) => if text::trim(f).len() > 0 {
                text::trim(f)
            } else {
                "localhost"@
            },
            None => "localhost"@,
        },
    }
}

/// The host's name, from the environment and from the system's file.
pub fn hostname(env: Option<String>, file: Option<String>) -> (h: String)
    ensures
        h@ == host_name(crate::client::opt(env), crate::client::opt(file)),
{
    match env {
        Some(h) => {
            if !h.as_str().is_empty() {
                return h;
            }
        },
        None => {},
    }
    match file {
        Some(f) => {
            let t = trim_str(f.as_str());
            if t.as_str().is_empty() {
                "localhost".to_owned()
            } else {
                t
            }
        },
        None => "localhost".to_owned(),
    }
}

/// A text, unless it is empty.
pub fn non_empty(s: Option<String>) -> (r: Option<String>)
    ensures
        crate::client::opt(r) == filled(crate::client::opt(s)),
{
    match s {
        Some(t) => {
            if t.as_str().is_empty() {
                None
            } else {
                Some(t)
            }
        },
        None => None,
    }
}

/// The place inside the multiplexer, where the helper runs in one.
pub fn zellij_loc(inside: bool, session: Option<String>, pane: Option<String>) -> (z: Option<
    ZellijLoc,
>)
    ensures
        z is Some == inside,
        z matches Some(l) ==> crate::client::opt(l.session) == filled(
            crate::client::opt(session),
        ) && crate::client::opt(l.pane) == filled(crate::client::opt(pane)),
{
    if inside {
        Some(ZellijLoc { session: non_empty(session), pane: non_empty(pane) })
    } else {
        None
    }
}

/// One argument of the helper.
#[derive(Debug, PartialEq, Eq)]
pub enum Arg {
    /// `--tool`, with its value where that is a text.
    Tool(Option<String>),
    Clear,
    Install(Option<String>),
    PrintSshConfig,
    PrintSshWrapper,
    Help,
    /// An argument by itself.
    Value(Option<String>),
    /// A flag that is not known.
    Unknown,
}

/// What the arguments ask for.
#[derive(Debug, PartialEq, Eq)]
pub struct Options {
    pub tool: Tool,
    pub kind: Kind,
    pub positional: Option<String>,
    pub install: Option<String>,
    pub print_ssh: bool,
    pub print_wrapper: bool,
    pub help: bool,
}

/// What the helper does.
#[derive(Debug, PartialEq, Eq)]
pub enum Job {
    Help,
    PrintSshConfig { host: Option<String> },
    PrintSshWrapper,
    InstallClaude,
    InstallCodex,
    /// Nothing is known of such a tool.
    UnknownTarget(String),
    /// Send a note; the payload is in the argument, or on the input.
    Send { payload: Option<String> },
}

impl Options {
    /// The options behind one more argument. Help ends the reading.
    pub open spec fn taken(self, a: Arg, names: ToolNames) -> Options {
        match a {
            Arg::Tool(n) => Options { tool: names.called(crate::client::opt(n)), ..self },
            Arg::Clear => Options { kind: Kind::Clear, ..self },
            Arg::Install(t) => Options { install: t, ..self },
            Arg::PrintSshConfig => Options { print_ssh: true, ..self },
            Arg::PrintSshWrapper => Options { print_wrapper: true, ..self },
            Arg::Help => Options { help: true, ..self },
            Arg::Value(v) => Options { positional: v, ..self },
            Arg::Unknown => self,
        }
    }

    /// Without arguments: raise a note.
    pub fn new() -> (o: Options)
        ensures
            o.tool == Tool::Other,
            o.kind == Kind::Raise,
            o.positional is None,
            o.install is None,
            !o.print_ssh,
            !o.print_wrapper,
            !o.help,
    {
        Options {
            tool: Tool::Other,
            kind: Kind::Raise,
            positional: None,
            install: None,
            print_ssh: false,
            print_wrapper: false,
            help: false,
        }
    }

    /// One more argument. Flags that are not known are ignored: a helper must not get in the way
    /// of the tool that calls it.
    pub fn take(&mut self, a: Arg, names: &ToolNames)
        ensures
            *final(self) == old(self).taken(a, *names),
    {
        match a {
            Arg::Tool(n) => {
                self.tool = names.tool(&n);
            },
            Arg::Clear => {
                self.kind = Kind::Clear;
            },
            Arg::Install(t) => {
                self.install = t;
            },
            Arg::PrintSshConfig => {
                self.print_ssh = true;
            },
            Arg::PrintSshWrapper => {
                self.print_wrapper = true;
            },
            Arg::Help => {
                self.help = true;
            },
            Arg::Value(v) => {
                self.positional = v;
            },
            Arg::Unknown => {},
        }
    }

    /// What to do. Help and printing come before installing, and installing before sending.
    pub fn job(self, names: &ToolNames) -> (j: Job)
        ensures
            self.help ==> j is Help,
            !self.help && self.print_ssh ==> j == (Job::PrintSshConfig { host: self.positional }),
            !self.help && !self.print_ssh && self.print_wrapper ==> j is PrintSshWrapper,
            !self.help && !self.print_ssh && !self.print_wrapper ==> match self.install {
                Some(t) => if t@ == names.claude@ {
                    j is InstallClaude
                } else if t@ == names.codex@ {
                    j is InstallCodex
                } else {
                    j == Job::UnknownTarget(t)
                },
                None => j == (Job::Send { payload: self.positional }),
            },
    {
        if self.help {
            return Job::Help;
        }
        if self.print_ssh {
            return Job::PrintSshConfig { host: self.positional };
        }
        if self.print_wrapper {
            return Job::PrintSshWrapper;
        }
        match self.install {
            Some(t) => {
                if t == names.claude {
                    Job::InstallClaude
                } else if t == names.codex {
                    Job::InstallCodex
                } else {
                    Job::UnknownTarget(t)
                }
            },
            None => Job::Send { payload: self.positional },
        }
    }
}

/// What is said of a tool that hooks cannot be installed for.
pub fn unknown_target_text(target: &String, names: &ToolNames) -> (s: String)
    ensures
        s@ == "potty-notify: unknown --install-hook target '"@ + target@ + "' (use "@
            + names.claude@ + "|"@ + names.codex@ + ")"@,
{
    let mut s = "potty-notify: unknown --install-hook target '".to_owned();
    s.append(target.as_str());
    s.append("' (use ");
    s.append(names.claude.as_str());
    s.append("|");
    s.append(names.codex.as_str());
    s.append(")");
    s
}

/// The remote end of the forwarded socket.
pub const REMOTE_SOCKET: &'static str = "/tmp/potty-notify.sock";

/// The block for an SSH client's configuration that forwards the feed's socket, and what the
/// remote host has to allow.
pub open spec fn ssh_config_text(host: Option<Seq<char>>, local: Seq<char>) -> Seq<char> {
    let name = match host {
        Some(h) => h,
        None => "your-remote-host"@,
    };
    let remote = REMOTE_SOCKET@;
    "# ~/.ssh/config — forward potty's attention feed over SSH\nHost "@ + name
        + "\n    RemoteForward "@ + remote + " "@ + local + "\n    SetEnv POTTY_NOTIFY="@ + remote
        + "\n    SendEnv POTTY_PANE\n\n# On the REMOTE host, allow those through in sshd_config (or a drop-in), then\n# restart sshd:\n#     AcceptEnv POTTY_NOTIFY POTTY_PANE\n#     StreamLocalBindUnlink yes\n#\n# Without AcceptEnv POTTY_PANE a remote session still shows in the feed — it just\n# can't be clicked-to-jump. If you can't edit sshd_config, drop the SetEnv line and\n# instead add to the remote shell rc:\n#     [ -S "@
        + remote + " ] && export POTTY_NOTIFY="@ + remote
        + "\n#\n# NOTE: this fixed remote path collides if you open two sessions to "@ + name
        + " at once.\n# For that, use the per-pane wrapper instead:  potty-notify --print-ssh-wrapper\n"@
}

/// The block to paste into an SSH client's configuration.
pub fn print_ssh_config(host: &Option<String>, local: &str) -> (s: String)
    ensures
        s@ == ssh_config_text(crate::client::opt(*host), local@),
{
    let name = match host {
        Some(h) => h.clone(),
        None => "your-remote-host".to_owned(),
    };
    let mut s = "# ~/.ssh/config — forward potty's attention feed over SSH\nHost ".to_owned();
    s.append(name.as_str());
    s.append("\n    RemoteForward ");
    s.append(REMOTE_SOCKET);
    s.append(" ");
    s.append(local);
    s.append("\n    SetEnv POTTY_NOTIFY=");
    s.append(REMOTE_SOCKET);
    s.append(
        "\n    SendEnv POTTY_PANE\n\n# On the REMOTE host, allow those through in sshd_config (or a drop-in), then\n# restart sshd:\n#     AcceptEnv POTTY_NOTIFY POTTY_PANE\n#     StreamLocalBindUnlink yes\n#\n# Without AcceptEnv POTTY_PANE a remote session still shows in the feed — it just\n# can't be clicked-to-jump. If you can't edit sshd_config, drop the SetEnv line and\n# instead add to the remote shell rc:\n#     [ -S ",
    );
    s.append(REMOTE_SOCKET);
    s.append(" ] && export POTTY_NOTIFY=");
    s.append(REMOTE_SOCKET);
    s.append("\n#\n# NOTE: this fixed remote path collides if you open two sessions to ");
    s.append(name.as_str());
    s.append(
        " at once.\n# For that, use the per-pane wrapper instead:  potty-notify --print-ssh-wrapper\n",
    );
    s
}

/// A shell function around `ssh` that forwards the feed's socket under a path of the pane's own.
pub const SSH_WRAPPER: &'static str =
    "# potty attention feed over SSH — add to ~/.bashrc or ~/.zshrc.\n# Forwards the notify socket on every ssh, with a PER-PANE remote path so two\n# sessions to the same host don't collide. Outside potty (no $POTTY_PANE) it's plain ssh.\nssh() {\n  if [ -n \"$POTTY_PANE\" ] && [ -S \"$POTTY_NOTIFY\" ]; then\n    command ssh -R \"/tmp/potty-notify-$POTTY_PANE.sock:$POTTY_NOTIFY\" \\\n      -o \"SetEnv POTTY_NOTIFY=/tmp/potty-notify-$POTTY_PANE.sock\" -o \"SendEnv POTTY_PANE\" \"$@\"\n  else\n    command ssh \"$@\"\n  fi\n}\n\n# On each REMOTE host, in sshd_config (or a drop-in), then restart sshd:\n#     AcceptEnv POTTY_NOTIFY POTTY_PANE\n#     StreamLocalBindUnlink yes\n";

/// Every payload makes a note with a session: an event without one gets a key of its pane's, or
/// of its host's.
pub proof fn every_note_has_a_session(j: Json, pane: Option<u64>, host: Seq<char>)
    ensures
        event_session(j, pane, host).len() > 0,
{
    reveal_strlit("pane-");
    reveal_strlit("-unknown");
    lemma_filled(j, seq!["session_id"@, "session"@, "id"@]);
}

proof fn lemma_filled(j: Json, keys: Seq<Seq<char>>)
    ensures
        payload_text(j, keys) matches Some(s) ==> s.len() > 0,
    decreases keys.len(),
{
    if keys.len() > 0 {
        lemma_filled(j, keys.skip(1));
    }
}

} // verus!
