//! Remote connections: trust in host keys, the ladder of authentication methods, and plain shells
//! that speak the session protocol.
//!
//! The network is outside. Each machine here says what to do next and is told what came of it.

use crate::proto::{Control, ControlView, PaneId, PROTOCOL_VERSION};
use crate::seqs;
use crate::text;
use vstd::prelude::*;
use vstd::string::*;
use vstd::utf8::*;

verus! {

/// A server host key is either unrecognised, or differs from a recorded one.
#[derive(Debug, Clone, Copy, PartialEq, Eq, Structural)]
pub enum HostKeyStatus {
    Unknown,
    Changed,
}

/// One keyboard-interactive prompt from the server.
#[derive(Debug, PartialEq, Eq)]
pub struct PromptInfo {
    pub prompt: String,
    /// Whether the typed response should be echoed (false for passwords).
    pub echo: bool,
}

/// Supplies the interactive parts of authentication. Defaults decline, so an implementation only
/// overrides what it handles.
pub trait Authenticator: Send + Sync {
    /// Trust a server host key that isn't recorded (or that changed)? Default: no.
    fn accept_host_key(&self, host: &str, fingerprint: &str, status: HostKeyStatus) -> (b: bool)
        default_ensures
            !b,
    {
        false
    }

    /// Passphrase to decrypt an encrypted key file (`None` skips it).
    fn key_passphrase(&self, path: &str) -> (p: Option<String>)
        default_ensures
            p is None,
    {
        None
    }

    /// Answer a keyboard-interactive challenge, one response per prompt (`None` abandons the
    /// method).
    fn answer(&self, name: &str, instructions: &str, prompts: &[PromptInfo]) -> (a: Option<
        Vec<String>,
    >)
        default_ensures
            a is None,
    {
        None
    }

    /// Password for the plain password method (`None` skips it).
    fn password(&self, user: &str, host: &str) -> (p: Option<String>)
        default_ensures
            p is None,
    {
        None
    }
}

/// Where and how to connect. Paths are bytes.
#[derive(Debug, PartialEq, Eq)]
pub struct SshConfig {
    pub host: String,
    pub port: u16,
    pub user: String,
    /// Private key files to try, in order, after the agent.
    pub keys: Vec<Vec<u8>>,
    /// File of known hosts; `None` is the default one.
    pub known_hosts: Option<Vec<u8>>,
    /// Try the agent first.
    pub use_agent: bool,
    /// Explicit agent socket; `None` is the environment's.
    pub agent_sock: Option<Vec<u8>>,
}

/// What the environment says of a connection to make at the start.
#[derive(Debug, PartialEq, Eq)]
pub struct ConnectEnv {
    pub host: String,
    pub port: Option<String>,
    pub user: Option<String>,
    pub key: Option<Vec<u8>>,
    pub known_hosts: Option<Vec<u8>>,
    pub use_agent: bool,
}

/// A port as written, or the usual one if it is not written or not a port.
pub open spec fn port_of(s: Option<Seq<char>>) -> nat {
    match s {
        Some(t) => match text::parse_u16(t) {
            Some(n) => n,
            None => 22,
        },
        None => 22,
    }
}

impl SshConfig {
    /// The connection that the environment asks for. The agent is left alone unless it is asked
    /// for too.
    pub fn from_env(e: ConnectEnv) -> (c: SshConfig)
        ensures
            c.host == e.host,
            c.port == port_of(
                match e.port {
                    Some(p) => Some(p@),
                    None => None,
                },
            ),
            c.user@ == (match e.user {
                Some(u) => u@,
                None => seq![],
            }),
            c.keys@ == (match e.key {
                Some(k) => seq![k],
                None => seq![],
            }),
            c.known_hosts == e.known_hosts,
            c.use_agent == e.use_agent,
            c.agent_sock is None,
    {
        let port: u16 = match &e.port {
            Some(p) => match text::read_u16(text::chars_of(p.as_str()).as_slice()) {
                Some(n) => n,
                None => 22,
            },
            None => 22,
        };
        let user: String = match e.user {
            Some(u) => u,
            None => String::new(),
        };
        let mut keys: Vec<Vec<u8>> = Vec::new();
        if let Some(k) = e.key {
            keys.push(k);
        }
        assert(user@ =~= (match e.user {
            Some(u) => u@,
            None => seq![],
        }));
        SshConfig {
            host: e.host,
            port,
            user,
            keys,
            known_hosts: e.known_hosts,
            use_agent: e.use_agent,
            agent_sock: None,
        }
    }
}

/// What the file of known hosts says of a server's key.
#[derive(Debug, Clone, Copy, PartialEq, Eq, Structural)]
pub enum KnownHost {
    /// Recorded, and the same.
    Matches,
    Absent,
    /// Recorded, and another one.
    Changed,
    /// The file is missing or cannot be read.
    Unreadable,
}

/// What becomes of a server's key.
#[derive(Debug, Clone, Copy, PartialEq, Eq, Structural)]
pub enum Verdict {
    Trusted,
    /// Trusted by the user: record it, so that nobody is asked again.
    Learn,
    Refused,
}

/// What the user is asked about a key; nothing of one that is known.
pub open spec fn question(known: KnownHost) -> Option<HostKeyStatus> {
    match known {
        KnownHost::Matches => None,
        KnownHost::Changed => Some(HostKeyStatus::Changed),
        _ => Some(HostKeyStatus::Unknown),
    }
}

/// The verdict on a key, given the user's answer.
pub open spec fn verdict(known: KnownHost, accepted: bool) -> Verdict {
    if question(known) is None {
        Verdict::Trusted
    } else if accepted {
        Verdict::Learn
    } else {
        Verdict::Refused
    }
}

/// What to ask about a key.
pub fn host_key_status(known: KnownHost) -> (s: Option<HostKeyStatus>)
    ensures
        s == question(known),
{
    match known {
        KnownHost::Matches => None,
        KnownHost::Changed => Some(HostKeyStatus::Changed),
        _ => Some(HostKeyStatus::Unknown),
    }
}

/// What becomes of a key once the question, if there was one, has been answered.
pub fn judge_host_key(known: KnownHost, accepted: bool) -> (v: Verdict)
    ensures
        v == verdict(known, accepted),
{
    match known {
        KnownHost::Matches => Verdict::Trusted,
        _ => {
            if accepted {
                Verdict::Learn
            } else {
                Verdict::Refused
            }
        },
    }
}

/// Check a server's key: one that is known passes, and the authenticator decides on any other. The
/// verdict is the one for some answer of the authenticator.
pub fn check_server_key<A: Authenticator>(
    auth: &A,
    host: &str,
    fingerprint: &str,
    known: KnownHost,
) -> (v: Verdict)
    ensures
        known == KnownHost::Matches ==> v == Verdict::Trusted,
        known != KnownHost::Matches ==> exists|b: bool|
            #![auto]
            v == verdict(known, b) && call_ensures(
                A::accept_host_key,
                (auth, host, fingerprint, question(known)->0),
                b,
            ),
{
    match host_key_status(known) {
        None => Verdict::Trusted,
        Some(status) => {
            let accepted = auth.accept_host_key(host, fingerprint, status);
            judge_host_key(known, accepted)
        },
    }
}

/// Where the authentication stands: each state waits for the result of one action.
///
/// Every group of methods has a connection of its own: a server that caps attempts would otherwise
/// hang up on the rejected keys of a full agent before a later method is reached.
#[derive(Debug, Clone, Copy, PartialEq, Eq, Structural)]
pub enum Step {
    /// Reach the agent.
    Agent,
    /// Connect to the server for the agent's keys.
    AgentConnect,
    /// List the agent's identities.
    AgentList,
    /// Offer the identity of this index.
    AgentOffer { id: usize },
    /// Connect to the server for the key files.
    KeysConnect,
    /// Read the key file of this index without a passphrase.
    KeyLoad { key: usize },
    /// Ask for its passphrase.
    KeyAsk { key: usize },
    /// Read it with the passphrase.
    KeyUnlock { key: usize },
    /// Offer the key.
    KeyOffer { key: usize },
    /// Connect to the server for questions and answers.
    InteractiveConnect,
    /// Start the exchange, or send the answers.
    Interactive,
    /// Have the questions answered.
    InteractiveAnswer,
    /// Ask for the password.
    PasswordAsk,
    /// Connect to the server for it.
    PasswordConnect,
    /// Try it.
    PasswordTry,
    /// Authenticated, on the connection of the group that got through.
    Accepted,
    /// No method got through.
    Exhausted,
    /// A connection could not be made.
    Unreachable,
}

/// What came of an action.
#[derive(Debug, PartialEq, Eq)]
pub enum Outcome {
    /// It worked: the agent or the server was reached, the file was read, the answer or the
    /// offered key was accepted.
    Done,
    /// It did not.
    Failed,
    /// The file is there but could not be read as it is.
    Locked,
    /// The identities that the agent holds: whether each is a plain key.
    Identities(Vec<bool>),
    /// The server has questions.
    Questions,
    /// The session is gone.
    Lost,
}

pub enum OutcomeView {
    Done,
    Failed,
    Locked,
    Identities(Seq<bool>),
    Questions,
    Lost,
}

impl View for Outcome {
    type V = OutcomeView;

    open spec fn view(&self) -> OutcomeView {
        match *self {
            Outcome::Done => OutcomeView::Done,
            Outcome::Failed => OutcomeView::Failed,
            Outcome::Locked => OutcomeView::Locked,
            Outcome::Identities(ids) => OutcomeView::Identities(ids@),
            Outcome::Questions => OutcomeView::Questions,
            Outcome::Lost => OutcomeView::Lost,
        }
    }
}

/// The authentication of one connection.
#[derive(Debug, PartialEq, Eq)]
pub struct Ladder {
    pub step: Step,
    /// How many key files there are.
    pub keys: usize,
    /// The agent's identities.
    pub ids: Vec<bool>,
}

pub struct LadderView {
    pub step: Step,
    pub keys: usize,
    pub ids: Seq<bool>,
}

impl View for Ladder {
    type V = LadderView;

    open spec fn view(&self) -> LadderView {
        LadderView { step: self.step, keys: self.keys, ids: self.ids@ }
    }
}

/// The first plain key at an index or behind it.
pub open spec fn plain_from(ids: Seq<bool>, i: int) -> Option<int>
    decreases ids.len() - i,
{
    if i >= ids.len() {
        None
    } else if ids[i] {
        Some(i)
    } else {
        plain_from(ids, i + 1)
    }
}

impl LadderView {
    /// Begin with the key files, where there are any.
    pub open spec fn keys_from(self, i: int) -> Step {
        if i >= self.keys {
            Step::InteractiveConnect
        } else {
            Step::KeyLoad { key: i as usize }
        }
    }

    /// The step for the key files' connection.
    pub open spec fn keys_begin(self) -> Step {
        if self.keys == 0 {
            Step::InteractiveConnect
        } else {
            Step::KeysConnect
        }
    }

    /// Offer the agent's keys from an index on; when none is left, go on to the key files.
    pub open spec fn offer_from(self, i: int) -> Step {
        match plain_from(self.ids, i) {
            Some(k) => Step::AgentOffer { id: k as usize },
            None => self.keys_begin(),
        }
    }

    /// The step behind an outcome.
    pub open spec fn after(self, o: OutcomeView) -> Step {
        match self.step {
            Step::Agent => if o is Done {
                Step::AgentConnect
            } else {
                self.keys_begin()
            },
            Step::AgentConnect => if o is Done {
                Step::AgentList
            } else {
                Step::Unreachable
            },
            Step::AgentList => match o {
                OutcomeView::Identities(ids) => LadderView { ids, ..self }.offer_from(0),
                _ => self.keys_begin(),
            },
            Step::AgentOffer { id } => match o {
                OutcomeView::Done => Step::Accepted,
                OutcomeView::Lost => self.keys_begin(),
                _ => self.offer_from(id + 1),
            },
            Step::KeysConnect => if o is Done {
                self.keys_from(0)
            } else {
                Step::Unreachable
            },
            Step::KeyLoad { key } => match o {
                OutcomeView::Done => Step::KeyOffer { key },
                OutcomeView::Locked => Step::KeyAsk { key },
                _ => self.keys_from(key + 1),
            },
            Step::KeyAsk { key } => if o is Done {
                Step::KeyUnlock { key }
            } else {
                self.keys_from(key + 1)
            },
            Step::KeyUnlock { key } => if o is Done {
                Step::KeyOffer { key }
            } else {
                self.keys_from(key + 1)
            },
            Step::KeyOffer { key } => if o is Done {
                Step::Accepted
            } else {
                self.keys_from(key + 1)
            },
            Step::InteractiveConnect => if o is Done {
                Step::Interactive
            } else {
                Step::Unreachable
            },
            Step::Interactive => match o {
                OutcomeView::Done => Step::Accepted,
                OutcomeView::Questions => Step::InteractiveAnswer,
                _ => Step::PasswordAsk,
            },
            Step::InteractiveAnswer => if o is Done {
                Step::Interactive
            } else {
                Step::PasswordAsk
            },
            Step::PasswordAsk => if o is Done {
                Step::PasswordConnect
            } else {
                Step::Exhausted
            },
            Step::PasswordConnect => if o is Done {
                Step::PasswordTry
            } else {
                Step::Unreachable
            },
            Step::PasswordTry => if o is Done {
                Step::Accepted
            } else {
                Step::Exhausted
            },
            Step::Accepted => Step::Accepted,
            Step::Exhausted => Step::Exhausted,
            Step::Unreachable => Step::Unreachable,
        }
    }

    /// The state behind an outcome.
    pub open spec fn stepped(self, o: OutcomeView) -> LadderView {
        LadderView {
            step: self.after(o),
            keys: self.keys,
            ids: match (self.step, o) {
                (Step::AgentList, OutcomeView::Identities(ids)) => ids,
                _ => self.ids,
            },
        }
    }

    /// Indices are those of keys and identities that there are.
    pub open spec fn wf(self) -> bool {
        &&& self.ids.len() <= usize::MAX
        &&& self.step_in_range()
    }

    pub open spec fn step_in_range(self) -> bool {
        match self.step {
            Step::AgentOffer { id } => id < self.ids.len(),
            Step::KeyLoad { key } => key < self.keys,
            Step::KeyAsk { key } => key < self.keys,
            Step::KeyUnlock { key } => key < self.keys,
            Step::KeyOffer { key } => key < self.keys,
            _ => true,
        }
    }
}

fn first_plain(ids: &Vec<bool>, from: usize) -> (r: Option<usize>)
    requires
        from <= ids.len(),
    ensures
        r matches Some(i) ==> i < ids.len(),
        plain_from(ids@, from as int) == (match r {
            Some(i) => Some(i as int),
            None => None,
        }),
{
    let mut i: usize = from;
    while i < ids.len() && !ids[i]
        invariant
            from <= i <= ids.len(),
            plain_from(ids@, from as int) == plain_from(ids@, i as int),
        decreases ids.len() - i,
    {
        i = i + 1;
    }
    if i < ids.len() {
        Some(i)
    } else {
        None
    }
}

impl Ladder {
    /// At the foot: the agent where it is to be used, else the key files.
    pub fn new(use_agent: bool, keys: usize) -> (l: Ladder)
        ensures
            l@.wf(),
            l@.keys == keys,
            l@.ids == Seq::<bool>::empty(),
            l@.step == (if use_agent {
                Step::Agent
            } else {
                l@.keys_begin()
            }),
    {
        let step = if use_agent {
            Step::Agent
        } else if keys == 0 {
            Step::InteractiveConnect
        } else {
            Step::KeysConnect
        };
        Ladder { step, keys, ids: Vec::new() }
    }

    fn keys_at(&self, i: usize) -> (s: Step)
        ensures
            s == self@.keys_from(i as int),
    {
        if i >= self.keys {
            Step::InteractiveConnect
        } else {
            Step::KeyLoad { key: i }
        }
    }

    fn files(&self) -> (s: Step)
        ensures
            s == self@.keys_begin(),
    {
        if self.keys == 0 {
            Step::InteractiveConnect
        } else {
            Step::KeysConnect
        }
    }

    fn offer(&self, from: usize) -> (s: Step)
        requires
            from <= self.ids.len(),
        ensures
            s == self@.offer_from(from as int),
            s matches Step::AgentOffer { id } ==> id < self.ids.len(),
    {
        match first_plain(&self.ids, from) {
            Some(id) => Step::AgentOffer { id },
            None => self.files(),
        }
    }

    /// Go on, given what came of the step's action.
    pub fn next(&mut self, o: Outcome)
        requires
            old(self)@.wf(),
        ensures
            final(self)@.wf(),
            final(self)@ == old(self)@.stepped(o@),
    {
        let ghost was = self@;
        assert(self.ids.len() == self.ids@.len());
        match self.step {
            Step::Agent => {
                self.step = match o {
                    Outcome::Done => Step::AgentConnect,
                    _ => self.files(),
                };
            },
            Step::AgentConnect => {
                self.step = match o {
                    Outcome::Done => Step::AgentList,
                    _ => Step::Unreachable,
                };
            },
            Step::AgentList => {
                match o {
                    Outcome::Identities(ids) => {
                        self.ids = ids;
                        assert(self.ids.len() == self.ids@.len());
                        self.step = self.offer(0);
                    },
                    _ => {
                        self.step = self.files();
                    },
                }
            },
            Step::AgentOffer { id } => {
                self.step = match o {
                    Outcome::Done => Step::Accepted,
                    Outcome::Lost => self.files(),
                    _ => self.offer(id + 1),
                };
            },
            Step::KeysConnect => {
                self.step = match o {
                    Outcome::Done => self.keys_at(0),
                    _ => Step::Unreachable,
                };
            },
            Step::KeyLoad { key } => {
                self.step = match o {
                    Outcome::Done => Step::KeyOffer { key },
                    Outcome::Locked => Step::KeyAsk { key },
                    _ => self.keys_at(key + 1),
                };
            },
            Step::KeyAsk { key } => {
                self.step = match o {
                    Outcome::Done => Step::KeyUnlock { key },
                    _ => self.keys_at(key + 1),
                };
            },
            Step::KeyUnlock { key } => {
                self.step = match o {
                    Outcome::Done => Step::KeyOffer { key },
                    _ => self.keys_at(key + 1),
                };
            },
            Step::KeyOffer { key } => {
                self.step = match o {
                    Outcome::Done => Step::Accepted,
                    _ => self.keys_at(key + 1),
                };
            },
            Step::InteractiveConnect => {
                self.step = match o {
                    Outcome::Done => Step::Interactive,
                    _ => Step::Unreachable,
                };
            },
            Step::Interactive => {
                self.step = match o {
                    Outcome::Done => Step::Accepted,
                    Outcome::Questions => Step::InteractiveAnswer,
                    _ => Step::PasswordAsk,
                };
            },
            Step::InteractiveAnswer => {
                self.step = match o {
                    Outcome::Done => Step::Interactive,
                    _ => Step::PasswordAsk,
                };
            },
            Step::PasswordAsk => {
                self.step = match o {
                    Outcome::Done => Step::PasswordConnect,
                    _ => Step::Exhausted,
                };
            },
            Step::PasswordConnect => {
                self.step = match o {
                    Outcome::Done => Step::PasswordTry,
                    _ => Step::Unreachable,
                };
            },
            Step::PasswordTry => {
                self.step = match o {
                    Outcome::Done => Step::Accepted,
                    _ => Step::Exhausted,
                };
            },
            Step::Accepted => {},
            Step::Exhausted => {},
            Step::Unreachable => {},
        }
        assert(self@.ids =~= was.stepped(o@).ids);
    }
}

/// Which group of methods a step belongs to: the agent, the key files, questions and answers, the
/// password, or the end.
pub open spec fn rung(s: Step) -> int {
    match s {
        Step::Agent => 0,
        Step::AgentConnect => 0,
        Step::AgentList => 0,
        Step::AgentOffer { .. } => 0,
        Step::KeysConnect => 1,
        Step::KeyLoad { .. } => 1,
        Step::KeyAsk { .. } => 1,
        Step::KeyUnlock { .. } => 1,
        Step::KeyOffer { .. } => 1,
        Step::InteractiveConnect => 2,
        Step::Interactive => 2,
        Step::InteractiveAnswer => 2,
        Step::PasswordAsk => 3,
        Step::PasswordConnect => 3,
        Step::PasswordTry => 3,
        Step::Accepted => 4,
        Step::Exhausted => 4,
        Step::Unreachable => 4,
    }
}

/// A step that makes a connection for its group.
pub open spec fn connects(s: Step) -> bool {
    s == Step::AgentConnect || s == Step::KeysConnect || s == Step::InteractiveConnect || s
        == Step::PasswordConnect
}

/// A step that uses its group's connection.
pub open spec fn uses_connection(s: Step) -> bool {
    s is AgentList || s is AgentOffer || s is KeyLoad || s is KeyAsk || s is KeyUnlock
        || s is KeyOffer || s is Interactive || s is InteractiveAnswer || s is PasswordTry
}

/// The groups come in their order: a ladder never goes back to an earlier one, and leaves out none
/// that could still get through (only the key files, where there are none).
pub proof fn the_order_is_kept(l: LadderView, o: OutcomeView)
    ensures
        rung(l.step) <= rung(l.after(o)),
        rung(l.after(o)) == 4 || rung(l.after(o)) <= rung(l.step) + 1 || (rung(l.step) == 0 && rung(
            l.after(o),
        ) == 2 && l.keys == 0),
{
}

/// Every group of methods works on a connection of its own: a step that uses one follows a step
/// of the same group that used or made it.
pub proof fn each_group_has_its_own_connection(l: LadderView, o: OutcomeView)
    ensures
        uses_connection(l.after(o)) ==> rung(l.after(o)) == rung(l.step) && (uses_connection(l.step)
            || connects(l.step)),
        connects(l.step) && uses_connection(l.after(o)) ==> o is Done,
{
}

/// Nobody is let in unless the server accepted something just now, and the ladder gives up only
/// when the last group has been tried or no connection can be made.
pub proof fn the_end_is_earned(l: LadderView, o: OutcomeView)
    requires
        rung(l.step) < 4,
    ensures
        l.after(o) == Step::Accepted ==> o is Done && (l.step is AgentOffer || l.step is KeyOffer
            || l.step is Interactive || l.step is PasswordTry),
        l.after(o) == Step::Exhausted ==> rung(l.step) == 3 && !(o is Done),
        l.after(o) == Step::Unreachable ==> connects(l.step) && !(o is Done),
{
}

/// How far a ladder is from its end, but for the questions that the server keeps asking.
pub open spec fn left(l: LadderView) -> int {
    match l.step {
        Step::Agent => 4 * l.keys + 20 + l.ids.len() + 8,
        Step::AgentConnect => 4 * l.keys + 20 + l.ids.len() + 7,
        Step::AgentList => 4 * l.keys + 20 + l.ids.len() + 6,
        Step::AgentOffer { id } => 4 * l.keys + 20 + l.ids.len() - id,
        Step::KeysConnect => 4 * l.keys + 15,
        Step::KeyLoad { key } => 4 * (l.keys - key) + 10,
        Step::KeyAsk { key } => 4 * (l.keys - key) + 9,
        Step::KeyUnlock { key } => 4 * (l.keys - key) + 8,
        Step::KeyOffer { key } => 4 * (l.keys - key) + 7,
        Step::InteractiveConnect => 8,
        Step::Interactive => 7,
        Step::InteractiveAnswer => 6,
        Step::PasswordAsk => 3,
        Step::PasswordConnect => 2,
        Step::PasswordTry => 1,
        _ => 0,
    }
}

proof fn lemma_plain(ids: Seq<bool>, i: int)
    requires
        0 <= i,
    ensures
        plain_from(ids, i) matches Some(k) ==> i <= k < ids.len() && ids[k],
    decreases ids.len() - i,
{
    if i < ids.len() && !ids[i] {
        lemma_plain(ids, i + 1);
    }
}

/// A ladder comes to an end: every step takes it closer, but for answered questions and the moment
/// when the agent says how many identities it holds.
pub proof fn a_ladder_ends(l: LadderView, o: OutcomeView)
    requires
        l.wf(),
        rung(l.step) < 4,
        !(l.step is InteractiveAnswer),
        !(l.step is AgentList && o is Identities),
    ensures
        0 <= left(l.stepped(o)) < left(l),
{
    if let Step::AgentOffer { id } = l.step {
        lemma_plain(l.ids, id + 1);
    }
}

/// A certificate of the agent is never offered, and of its plain keys none is passed over.
pub proof fn plain_keys_are_offered_in_turn(l: LadderView, o: OutcomeView, k: int)
    requires
        l.wf(),
        l.step matches Step::AgentOffer { id } && id < k < l.ids.len() && l.ids[k],
        !(o is Done),
        !(o is Lost),
    ensures
        l.after(o) matches Step::AgentOffer { id } && id <= k && l.ids[id as int],
{
    let id = l.step->id;
    lemma_plain(l.ids, id + 1);
    lemma_reach(l.ids, id + 1, k);
}

proof fn lemma_reach(ids: Seq<bool>, i: int, k: int)
    requires
        0 <= i <= k < ids.len(),
        ids[k],
    ensures
        plain_from(ids, i) matches Some(j) && j <= k,
    decreases k - i,
{
    if i < k && !ids[i] {
        lemma_reach(ids, i + 1, k);
    }
}

/// Plain shells over one connection, each on a channel of its own, behind the session protocol.
#[derive(Debug, PartialEq, Eq)]
pub struct Shells {
    /// The panes with a channel.
    pub panes: Vec<PaneId>,
}

/// What comes in from the window.
#[derive(Debug, PartialEq, Eq)]
pub enum ShellFrame {
    Control(Control),
    Data { pane: PaneId, bytes: Vec<u8> },
}

/// What to do for it.
#[derive(Debug, PartialEq, Eq)]
pub enum ShellAction {
    /// Say something to the window.
    Reply(Control),
    /// Open a channel with a shell of this size.
    Open { pane: PaneId, cols: u16, rows: u16 },
    Write { pane: PaneId, bytes: Vec<u8> },
    Resize { pane: PaneId, cols: u16, rows: u16 },
    /// End a channel.
    Close { pane: PaneId },
}

pub enum ShellActionView {
    Reply(ControlView),
    Open { pane: PaneId, cols: u16, rows: u16 },
    Write { pane: PaneId, bytes: Seq<u8> },
    Resize { pane: PaneId, cols: u16, rows: u16 },
    Close { pane: PaneId },
}

impl View for ShellAction {
    type V = ShellActionView;

    open spec fn view(&self) -> ShellActionView {
        match *self {
            ShellAction::Reply(c) => ShellActionView::Reply(c@),
            ShellAction::Open { pane, cols, rows } => ShellActionView::Open { pane, cols, rows },
            ShellAction::Write { pane, bytes } => ShellActionView::Write { pane, bytes: bytes@ },
            ShellAction::Resize { pane, cols, rows } => ShellActionView::Resize {
                pane,
                cols,
                rows,
            },
            ShellAction::Close { pane } => ShellActionView::Close { pane },
        }
    }
}

/// The panes without one.
pub open spec fn without(panes: Seq<PaneId>, pane: PaneId) -> Seq<PaneId> {
    seqs::drop_where(panes, |p: PaneId| p == pane)
}

/// What to do for a frame. A greeting is answered as a daemon with nothing to restore answers it.
/// Frames for panes without a channel are dropped, and what only a daemon keeps is ignored.
pub open spec fn shell_actions(panes: Seq<PaneId>, f: ShellFrame) -> Seq<ShellActionView> {
    match f {
        ShellFrame::Control(c) => match c@ {
            ControlView::Hello { .. } => seq![
                ShellActionView::Reply(
                    ControlView::Welcome { version: PROTOCOL_VERSION, client: 0 },
                ),
                ShellActionView::Reply(ControlView::Ready),
            ],
            ControlView::Open { pane, cols, rows, .. } => seq![
                ShellActionView::Open { pane, cols, rows },
            ],
            ControlView::Resize { pane, cols, rows } => if panes.contains(pane) {
                seq![ShellActionView::Resize { pane, cols, rows }]
            } else {
                seq![]
            },
            ControlView::Close { pane } => if panes.contains(pane) {
                seq![ShellActionView::Close { pane }]
            } else {
                seq![]
            },
            _ => seq![],
        },
        ShellFrame::Data { pane, bytes } => if panes.contains(pane) {
            seq![ShellActionView::Write { pane, bytes: bytes@ }]
        } else {
            seq![]
        },
    }
}

/// The panes with a channel after a frame.
pub open spec fn shells_after(panes: Seq<PaneId>, f: ShellFrame) -> Seq<PaneId> {
    match f {
        ShellFrame::Control(c) => match c@ {
            ControlView::Close { pane } => without(panes, pane),
            _ => panes,
        },
        _ => panes,
    }
}

/// The view of a list of actions.
pub open spec fn shell_views(a: Seq<ShellAction>) -> Seq<ShellActionView> {
    a.map_values(|x: ShellAction| x@)
}

impl Shells {
    /// No channels yet.
    pub fn new() -> (s: Shells)
        ensures
            s.panes@ == Seq::<PaneId>::empty(),
    {
        Shells { panes: Vec::new() }
    }

    fn has(&self, pane: PaneId) -> (b: bool)
        ensures
            b == self.panes@.contains(pane),
    {
        for i in 0..self.panes.len()
            invariant
                forall|k: int| 0 <= k < i ==> self.panes@[k] != pane,
        {
            if self.panes[i] == pane {
                return true;
            }
        }
        false
    }

    fn forget(&mut self, pane: PaneId)
        ensures
            final(self).panes@ == without(old(self).panes@, pane),
    {
        let mut kept: Vec<PaneId> = Vec::new();
        let n: usize = self.panes.len();
        for i in 0..n
            invariant
                n == self.panes.len(),
                *self == *old(self),
                kept@ == without(self.panes@.take(i as int), pane),
        {
            assert(self.panes@.take(i + 1).drop_last() =~= self.panes@.take(i as int));
            if self.panes[i] != pane {
                kept.push(self.panes[i]);
            }
        }
        assert(self.panes@.take(n as int) =~= self.panes@);
        self.panes = kept;
    }

    /// A frame from the window.
    pub fn receive(&mut self, f: ShellFrame) -> (out: Vec<ShellAction>)
        ensures
            shell_views(out@) == shell_actions(old(self).panes@, f),
            final(self).panes@ == shells_after(old(self).panes@, f),
    {
        let ghost was = self.panes@;
        let ghost frame = f;
        let mut out: Vec<ShellAction> = Vec::new();
        match f {
            ShellFrame::Control(c) => match c {
                Control::Hello { .. } => {
                    out.push(
                        ShellAction::Reply(
                            Control::Welcome { version: PROTOCOL_VERSION, client: 0 },
                        ),
                    );
                    out.push(ShellAction::Reply(Control::Ready));
                },
                Control::Open { pane, cols, rows, .. } => {
                    out.push(ShellAction::Open { pane, cols, rows });
                },
                Control::Resize { pane, cols, rows } => {
                    if self.has(pane) {
                        out.push(ShellAction::Resize { pane, cols, rows });
                    }
                },
                Control::Close { pane } => {
                    if self.has(pane) {
                        out.push(ShellAction::Close { pane });
                    }
                    self.forget(pane);
                },
                _ => {},
            },
            ShellFrame::Data { pane, bytes } => {
                if self.has(pane) {
                    out.push(ShellAction::Write { pane, bytes });
                }
            },
        }
        assert(shell_views(out@) =~= shell_actions(was, frame));
        out
    }

    /// A channel was opened, or could not be.
    pub fn opened(&mut self, pane: PaneId, ok: bool) -> (reply: Control)
        ensures
            reply@ == (if ok {
                ControlView::Opened { pane }
            } else {
                ControlView::Exited { pane }
            }),
            final(self).panes@ == (if ok {
                without(old(self).panes@, pane).push(pane)
            } else {
                old(self).panes@
            }),
    {
        if ok {
            self.forget(pane);
            self.panes.push(pane);
            Control::Opened { pane }
        } else {
            Control::Exited { pane }
        }
    }

    /// A channel's output ended: its shell is gone.
    pub fn ended(&self, pane: PaneId) -> (reply: Control)
        ensures
            reply@ == (ControlView::Exited { pane }),
    {
        Control::Exited { pane }
    }
}

/// How much of a remote program's complaints is kept.
pub const STDERR_CAP: usize = 4096;

/// Keep a remote program's complaints, up to the cap.
pub fn capture(kept: &mut Vec<u8>, data: &[u8])
    ensures
        final(kept)@ == old(kept)@ + data@.take(
            if old(kept)@.len() >= STDERR_CAP {
                0
            } else if data@.len() <= STDERR_CAP - old(kept)@.len() {
                data@.len() as int
            } else {
                STDERR_CAP - old(kept)@.len()
            },
        ),
{
    let ghost was = kept@;
    let room: usize = if kept.len() >= STDERR_CAP {
        0
    } else {
        STDERR_CAP - kept.len()
    };
    let n: usize = if data.len() <= room {
        data.len()
    } else {
        room
    };
    for i in 0..n
        invariant
            n <= data.len(),
            kept@ == was + data@.take(i as int),
    {
        kept.push(data[i]);
        assert(data@.take(i + 1) =~= data@.take(i as int).push(data@[i as int]));
    }
}

/// What the kept complaints say: bytes that are no text become replacement characters.
pub uninterp spec fn lossy_text(bytes: Seq<u8>) -> Seq<char>;

/// `String::from_utf8_lossy` of the standard library: the text of the bytes, with replacement
/// characters where they are no UTF-8. Valid UTF-8 is kept as it is.
#[verifier::external_body]
fn read_lossy(bytes: &[u8]) -> (s: String)
    ensures
        s@ == lossy_text(bytes@),
        valid_utf8(bytes@) ==> s@ == decode_utf8(bytes@),
{
    String::from_utf8_lossy(bytes).into_owned()
}

/// The kept complaints as a text, without white space around it.
pub fn stderr_text(kept: &Vec<u8>) -> (s: String)
    ensures
        s@ == text::trim(lossy_text(kept@)),
        valid_utf8(kept@) ==> s@ == text::trim(decode_utf8(kept@)),
{
    let all = read_lossy(kept.as_slice());
    text::trim_str(all.as_str())
}

/// How a connection's stream ended.
#[derive(Debug, PartialEq, Eq)]
pub enum Ending {
    /// It never got as far as a greeting.
    Failed(String),
    /// It had been greeted.
    Disconnected(String),
}

impl Ending {
    /// What is said of it.
    pub open spec fn message(self) -> Seq<char> {
        match self {
            Ending::Failed(m) => m@,
            Ending::Disconnected(m) => m@,
        }
    }
}

/// What is said of a host whose session ended before it began, with nothing to explain it.
pub open spec fn never_started(host: Seq<char>) -> Seq<char> {
    host
        + ": the session ended before it started — is `potty-session` installed and on PATH on the host? (set `remote_command` in the config to its path if so)"@
}

/// What is said of a stream that ended.
pub open spec fn ending_text(host: Seq<char>, greeted: bool, detail: Seq<char>) -> Seq<char> {
    if greeted {
        host + ": remote session disconnected"@
    } else if detail.len() == 0 {
        never_started(host)
    } else {
        host + ": could not start the remote session — "@ + detail
    }
}

/// Explain why a stream ended.
pub fn ending(host: &String, greeted: bool, detail: &String) -> (e: Ending)
    ensures
        e is Disconnected == greeted,
        e.message() == ending_text(host@, greeted, detail@),
{
    let mut m = host.clone();
    if greeted {
        m.append(": remote session disconnected");
        Ending::Disconnected(m)
    } else if detail.as_str().is_empty() {
        m.append(
            ": the session ended before it started — is `potty-session` installed and on PATH on the host? (set `remote_command` in the config to its path if so)",
        );
        Ending::Failed(m)
    } else {
        m.append(": could not start the remote session — ");
        m.append(detail.as_str());
        Ending::Failed(m)
    }
}

/// Whether a stream has been greeted, one message further.
pub fn greeted_by(greeted: bool, message: &Control) -> (b: bool)
    ensures
        b == (greeted || message@ is Welcome),
{
    match message {
        Control::Welcome { .. } => true,
        _ => greeted,
    }
}

/// A shell that was opened and not closed gets the input for its pane; one that was closed gets
/// nothing more.
pub proof fn input_reaches_open_shells(panes: Seq<PaneId>, f: ShellFrame, g: ShellFrame)
    requires
        f matches ShellFrame::Control(c) && (c@ matches ControlView::Close { pane } && (
        g matches ShellFrame::Data { pane: p, .. } && p == pane)),
    ensures
        panes.contains(g->Data_pane) ==> shell_actions(panes, g) == seq![
            ShellActionView::Write { pane: g->Data_pane, bytes: g->Data_bytes@ },
        ],
        shell_actions(shells_after(panes, f), g) == Seq::<ShellActionView>::empty(),
{
    let pane = g->Data_pane;
    lemma_gone(panes, pane);
}

proof fn lemma_gone(panes: Seq<PaneId>, pane: PaneId)
    ensures
        !without(panes, pane).contains(pane),
    decreases panes.len(),
{
    if panes.len() > 0 {
        lemma_gone(panes.drop_last(), pane);
    }
}

} // verus!
