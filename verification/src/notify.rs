//! Shared contract for the **attention feed**, the cross-machine list of agentic command-line
//! sessions waiting for you: the note, the socket it travels over, and the environment variables
//! that child shells find.

use crate::paths;
use crate::paths::join;
use vstd::prelude::*;
use vstd::string::*;

verus! {

/// Wire schema version. The listener drops notes it cannot read.
pub const SCHEMA_VERSION: u32 = 1;

/// Environment variable naming the listener's socket.
pub const ENV_SOCK: &'static str = "POTTY_NOTIFY";

/// Environment variable naming the pane a child shell lives in.
pub const ENV_PANE: &'static str = "POTTY_PANE";

/// Environment variable naming the window that owns the child shell: pane ids are only its own.
pub const ENV_INSTANCE: &'static str = "POTTY_INSTANCE";

/// Which agentic tool raised the note.
#[derive(Debug, Clone, Copy, PartialEq, Eq, Structural)]
pub enum Tool {
    Claude,
    Codex,
    Other,
}

/// A note either *raises* attention (the session now wants you) or *clears* it.
#[derive(Debug, Clone, Copy, PartialEq, Eq, Structural)]
pub enum Kind {
    Raise,
    Clear,
}

/// Where a session sits inside a terminal multiplexer, when it does.
#[derive(Debug, PartialEq, Eq)]
pub struct ZellijLoc {
    pub session: Option<String>,
    pub pane: Option<String>,
}

/// One attention note: one JSON object per socket connection, newline-terminated.
#[derive(Debug, PartialEq, Eq)]
pub struct Note {
    /// Schema version (`SCHEMA_VERSION`).
    pub v: u32,
    pub tool: Tool,
    pub kind: Kind,
    /// The tool's session id: the identity key, paired with `host`.
    pub session: String,
    pub message: String,
    pub cwd: String,
    pub host: String,
    pub pid: Option<u32>,
    /// The pane this session lives in (local only).
    pub pane: Option<u64>,
    /// The window that owns `pane`, if known.
    pub instance: Option<String>,
    pub zellij: Option<ZellijLoc>,
    /// Unix seconds, stamped by the helper.
    pub ts: u64,
}

/// What the tools are called: on command lines, in hooks and in the feed.
#[derive(Debug, PartialEq, Eq)]
pub struct ToolNames {
    pub claude: String,
    pub codex: String,
}

impl ToolNames {
    /// The name that a tool goes by.
    pub open spec fn spelled(self, t: Tool) -> Seq<char> {
        match t {
            Tool::Claude => self.claude@,
            Tool::Codex => self.codex@,
            Tool::Other => "tool"@,
        }
    }

    /// The tool of a name.
    pub open spec fn called(self, name: Option<Seq<char>>) -> Tool {
        match name {
            Some(n) => if n == self.claude@ {
                Tool::Claude
            } else if n == self.codex@ {
                Tool::Codex
            } else {
                Tool::Other
            },
            None => Tool::Other,
        }
    }

    /// What a tool is called.
    pub fn name(&self, t: Tool) -> (s: String)
        ensures
            s@ == self.spelled(t),
    {
        match t {
            Tool::Claude => self.claude.clone(),
            Tool::Codex => self.codex.clone(),
            Tool::Other => "tool".to_owned(),
        }
    }

    /// The tool that is called so.
    pub fn tool(&self, name: &Option<String>) -> (t: Tool)
        ensures
            t == self.called(
                match name {
                    Some(n) => Some(n@),
                    None => None,
                },
            ),
    {
        match name {
            Some(n) => {
                if *n == self.claude {
                    Tool::Claude
                } else if *n == self.codex {
                    Tool::Codex
                } else {
                    Tool::Other
                }
            },
            None => Tool::Other,
        }
    }
}

/// The same optional text.
pub fn copy_text(s: &Option<String>) -> (r: Option<String>)
    ensures
        r == *s,
{
    match s {
        Some(t) => Some(t.clone()),
        None => None,
    }
}

impl Clone for ZellijLoc {
    fn clone(&self) -> (r: ZellijLoc)
        ensures
            r == *self,
    {
        ZellijLoc { session: copy_text(&self.session), pane: copy_text(&self.pane) }
    }
}

impl Clone for Note {
    fn clone(&self) -> (r: Note)
        ensures
            r == *self,
    {
        Note {
            v: self.v,
            tool: self.tool,
            kind: self.kind,
            session: self.session.clone(),
            message: self.message.clone(),
            cwd: self.cwd.clone(),
            host: self.host.clone(),
            pid: self.pid,
            pane: self.pane,
            instance: copy_text(&self.instance),
            zellij: match &self.zellij {
                Some(z) => Some(z.clone()),
                None => None,
            },
            ts: self.ts,
        }
    }
}

impl Note {
    /// What two notes about the same session have in common: its host and its id.
    pub open spec fn key(&self) -> (Seq<char>, Seq<char>) {
        (self.host@, self.session@)
    }

    /// Whether the note is about the given session.
    pub fn is_about(&self, host: &String, session: &String) -> (b: bool)
        ensures
            b == (self.key() == (host@, session@)),
    {
        self.host == *host && self.session == *session
    }
}

/// Messages between the windows of one user: notes fan out to all of them, and a click in one may
/// have to be acted on in another.
#[derive(Debug, PartialEq, Eq)]
pub enum InstanceMessage {
    Note { note: Note },
    Focus { instance: Option<String>, host: String, session: String, pane: Option<u64> },
    Dismiss { instance: Option<String>, host: String, session: String },
}

/// The directory of sockets below the runtime directory.
pub open spec fn runtime_dir(base: Seq<u8>) -> Seq<u8> {
    paths::joined(base, paths::ascii_bytes("potty"@))
}

/// The listener's socket below the runtime directory.
pub fn default_socket_path(base: &[u8]) -> (p: Vec<u8>)
    ensures
        p@ == paths::joined(runtime_dir(base@), paths::ascii_bytes("notify.sock"@)),
{
    let dir = join(base, "potty".as_bytes());
    join(dir.as_slice(), "notify.sock".as_bytes())
}

/// The directory of the windows' sockets: beside the listener's.
pub fn instance_socket_dir(base: &[u8]) -> (p: Vec<u8>)
    ensures
        p@ == paths::joined(runtime_dir(base@), paths::ascii_bytes("instances"@)),
{
    let dir = join(base, "potty".as_bytes());
    join(dir.as_slice(), "instances".as_bytes())
}

/// The socket of one window.
pub fn instance_socket_path(base: &[u8], instance: &str) -> (p: Vec<u8>)
    ensures
        p@ == paths::joined(
            paths::joined(runtime_dir(base@), paths::ascii_bytes("instances"@)),
            paths::ascii_bytes(instance@ + ".sock"@),
        ),
{
    let dir = instance_socket_dir(base);
    let mut name = instance.to_owned();
    name.append(".sock");
    join(dir.as_slice(), name.as_str().as_bytes())
}

/// Of the names in the sockets' directory, the paths of those that are sockets.
pub fn instance_socket_paths(base: &[u8], names: &Vec<Vec<u8>>) -> (ps: Vec<Vec<u8>>)
    ensures
        ps@.map_values(|p: Vec<u8>| p@) == socket_paths(
            paths::joined(runtime_dir(base@), paths::ascii_bytes("instances"@)),
            names@.map_values(|n: Vec<u8>| n@),
        ),
{
    let dir = instance_socket_dir(base);
    let ghost all = names@.map_values(|n: Vec<u8>| n@);
    let mut ps: Vec<Vec<u8>> = Vec::new();
    assert(ps@.map_values(|p: Vec<u8>| p@) =~= socket_paths(dir@, all.take(0)));
    for i in 0..names.len()
        invariant
            all == names@.map_values(|n: Vec<u8>| n@),
            ps@.map_values(|p: Vec<u8>| p@) == socket_paths(dir@, all.take(i as int)),
    {
        assert(all.take(i + 1).drop_last() =~= all.take(i as int));
        if paths::is_socket_name(names[i].as_slice()) {
            let ghost was = ps@.map_values(|p: Vec<u8>| p@);
            let p = join(dir.as_slice(), names[i].as_slice());
            ps.push(p);
            assert(ps@.map_values(|p: Vec<u8>| p@) =~= was.push(p@));
        }
    }
    assert(all.take(names.len() as int) =~= all);
    ps
}

/// The paths of those names that are sockets.
pub open spec fn socket_paths(dir: Seq<u8>, names: Seq<Seq<u8>>) -> Seq<Seq<u8>>
    decreases names.len(),
{
    if names.len() == 0 {
        seq![]
    } else if paths::socket_name(names.last()) {
        socket_paths(dir, names.drop_last()).push(paths::joined(dir, names.last()))
    } else {
        socket_paths(dir, names.drop_last())
    }
}

impl Note {
    /// Whether a note that arrived can be read: it is of this schema.
    pub fn readable(&self) -> (b: bool)
        ensures
            b == (self.v == SCHEMA_VERSION),
    {
        self.v == SCHEMA_VERSION
    }
}

/// A window's own socket is among those that are found in the directory, whatever its name.
pub proof fn own_socket_is_found(instance: Seq<char>)
    requires
        instance.len() > 0,
    ensures
        paths::socket_name(paths::ascii_bytes(instance + ".sock"@)),
{
    reveal_strlit(".sock");
    let b = vstd::utf8::encode_utf8(instance);
    let e = vstd::utf8::encode_utf8(".sock"@);
    crate::text::lemma_encode_both(instance, ".sock"@);
    vstd::utf8::is_ascii_chars_encode_utf8(".sock"@);
    assert(e =~= seq![0x2eu8, 0x73, 0x6f, 0x63, 0x6b]);
    assert(b.len() > 0);
    assert((b + e).skip((b + e).len() - 5) =~= e);
}

} // verus!
