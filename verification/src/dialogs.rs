//! The dialogs over the panes: questions of the authentication, the connect dialog, and errors.

use crate::client;
use crate::client::opt;
use crate::config::ConnectionProfile;
use crate::profiles::profile_target;
use crate::remote::{HostKeyStatus, PromptInfo};
use vstd::prelude::*;
use vstd::string::*;

verus! {

/// A question of a connection's authentication. `reply` says who waits for the answer.
#[derive(Debug, PartialEq, Eq)]
pub enum Prompt {
    HostKey { host: String, fingerprint: String, status: HostKeyStatus, reply: u64 },
    /// One or more text fields, each with a label and whether it is echoed.
    Text { title: String, fields: Vec<(String, bool)>, reply: u64 },
}

#[verifier::ext_equal]
pub enum PromptView {
    HostKey { host: Seq<char>, fingerprint: Seq<char>, status: HostKeyStatus, reply: u64 },
    Text { title: Seq<char>, fields: Seq<(Seq<char>, bool)>, reply: u64 },
}

/// The views of a prompt's fields.
pub open spec fn field_views(fields: Seq<(String, bool)>) -> Seq<(Seq<char>, bool)> {
    fields.map_values(|f: (String, bool)| (f.0@, f.1))
}

impl View for Prompt {
    type V = PromptView;

    open spec fn view(&self) -> PromptView {
        match *self {
            Prompt::HostKey { host, fingerprint, status, reply } => PromptView::HostKey {
                host: host@,
                fingerprint: fingerprint@,
                status,
                reply,
            },
            Prompt::Text { title, fields, reply } => PromptView::Text {
                title: title@,
                fields: field_views(fields@),
                reply,
            },
        }
    }
}

fn one_field(label: &str) -> (f: Vec<(String, bool)>)
    ensures
        field_views(f@) == seq![(label@, false)],
{
    let mut f: Vec<(String, bool)> = Vec::new();
    f.push((label.to_owned(), false));
    assert(field_views(f@) =~= seq![(label@, false)]);
    f
}

/// The question for a key file's passphrase.
pub fn passphrase_prompt(path: &str, reply: u64) -> (p: Prompt)
    ensures
        p@ == (PromptView::Text {
            title: "Passphrase for "@ + path@,
            fields: seq![("Passphrase"@, false)],
            reply,
        }),
{
    let mut title = "Passphrase for ".to_owned();
    title.append(path);
    Prompt::Text { title, fields: one_field("Passphrase"), reply }
}

/// The question for a password.
pub fn password_prompt(user: &str, host: &str, reply: u64) -> (p: Prompt)
    ensures
        p@ == (PromptView::Text {
            title: "Password for "@ + user@ + "@"@ + host@,
            fields: seq![("Password"@, false)],
            reply,
        }),
{
    let mut title = "Password for ".to_owned();
    title.append(user);
    title.append("@");
    title.append(host);
    Prompt::Text { title, fields: one_field("Password"), reply }
}

/// The title of a server's questions: their name, else their instructions, else a general one.
pub open spec fn challenge_title(name: Seq<char>, instructions: Seq<char>) -> Seq<char> {
    if name.len() > 0 {
        name
    } else if instructions.len() > 0 {
        instructions
    } else {
        "Authentication"@
    }
}

/// The questions that a server asks.
pub fn challenge_prompt(
    name: &str,
    instructions: &str,
    prompts: &[PromptInfo],
    reply: u64,
) -> (p: Prompt)
    ensures
        p@ == (PromptView::Text {
            title: challenge_title(name@, instructions@),
            fields: prompts@.map_values(|i: PromptInfo| (i.prompt@, i.echo)),
            reply,
        }),
{
    let title = if !name.is_empty() {
        name.to_owned()
    } else if !instructions.is_empty() {
        instructions.to_owned()
    } else {
        "Authentication".to_owned()
    };
    let mut fields: Vec<(String, bool)> = Vec::new();
    for i in 0..prompts.len()
        invariant
            fields@.len() == i,
            forall|k: int|
                0 <= k < i ==> (#[trigger] fields@[k]).0@ == prompts@[k].prompt@ && fields@[k].1
                    == prompts@[k].echo,
    {
        fields.push((prompts[i].prompt.clone(), prompts[i].echo));
    }
    assert(field_views(fields@) =~= prompts@.map_values(|i: PromptInfo| (i.prompt@, i.echo)));
    Prompt::Text { title, fields, reply }
}

/// The one answer to a question with one field.
pub fn single_answer(answers: Option<Vec<String>>) -> (r: Option<String>)
    ensures
        r is Some == answers is Some,
        answers matches Some(a) ==> r->0@ == (if a@.len() == 0 {
            seq![]
        } else {
            a@.last()@
        }),
{
    match answers {
        Some(a) => {
            let mut a = a;
            match a.pop() {
                Some(s) => Some(s),
                None => {
                    let s = String::new();
                    assert(s@ =~= seq![]);
                    Some(s)
                },
            }
        },
        None => None,
    }
}

/// The dialogs' state.
#[derive(Debug, PartialEq, Eq)]
pub struct Dialogs {
    /// Questions that wait for the user; the first is on screen.
    pub prompts: Vec<Prompt>,
    /// What was typed into the first question's fields.
    pub inputs: Vec<String>,
    pub show_connect: bool,
    pub connect_host: String,
    pub connect_name: String,
    /// Ask for a persistent session, in place of a plain shell.
    pub use_session: bool,
    pub error: Option<String>,
    pub show_font_settings: bool,
}

#[verifier::ext_equal]
pub struct DialogsView {
    pub prompts: Seq<PromptView>,
    pub inputs: Seq<Seq<char>>,
    pub show_connect: bool,
    pub connect_host: Seq<char>,
    pub connect_name: Seq<char>,
    pub use_session: bool,
    pub error: Option<Seq<char>>,
    pub show_font_settings: bool,
}

/// The views of a list of texts.
pub open spec fn texts(t: Seq<String>) -> Seq<Seq<char>> {
    t.map_values(|s: String| s@)
}

impl View for Dialogs {
    type V = DialogsView;

    open spec fn view(&self) -> DialogsView {
        DialogsView {
            prompts: self.prompts@.map_values(|p: Prompt| p@),
            inputs: texts(self.inputs@),
            show_connect: self.show_connect,
            connect_host: self.connect_host@,
            connect_name: self.connect_name@,
            use_session: self.use_session,
            error: opt(self.error),
            show_font_settings: self.show_font_settings,
        }
    }
}

impl DialogsView {
    /// Whether a text field has the keyboard.
    pub open spec fn takes_text(self) -> bool {
        self.show_connect || (self.prompts.len() > 0 && self.prompts[0] is Text)
    }

    /// The connect dialog, closed and empty.
    pub open spec fn connect_done(self) -> DialogsView {
        DialogsView {
            show_connect: false,
            connect_host: seq![],
            connect_name: seq![],
            ..self
        }
    }

    /// The first question answered.
    pub open spec fn answered(self) -> DialogsView {
        DialogsView { prompts: self.prompts.skip(1), ..self }
    }

    /// The inputs, one for each field of the first question.
    pub open spec fn fitted(self) -> DialogsView {
        if self.prompts.len() > 0 && self.prompts[0] is Text {
            let n = self.prompts[0]->fields.len();
            DialogsView {
                inputs: Seq::new(
                    n,
                    |i: int|
                        if i < self.inputs.len() {
                            self.inputs[i]
                        } else {
                            seq![]
                        },
                ),
                ..self
            }
        } else {
            self
        }
    }
}

impl Dialogs {
    /// No dialog is open.
    pub fn new() -> (d: Dialogs)
        ensures
            d@ == (DialogsView {
                prompts: seq![],
                inputs: seq![],
                show_connect: false,
                connect_host: seq![],
                connect_name: seq![],
                use_session: false,
                error: None,
                show_font_settings: false,
            }),
    {
        let d = Dialogs {
            prompts: Vec::new(),
            inputs: Vec::new(),
            show_connect: false,
            connect_host: String::new(),
            connect_name: String::new(),
            use_session: false,
            error: None,
            show_font_settings: false,
        };
        assert(d@.prompts =~= seq![]);
        assert(d@.inputs =~= seq![]);
        assert(d@.connect_host =~= seq![]);
        assert(d@.connect_name =~= seq![]);
        d
    }

    /// Whether a text field of a dialog has the keyboard; the panes do not get the keys then.
    pub fn text_input_active(&self) -> (b: bool)
        ensures
            b == self@.takes_text(),
    {
        let asked: bool = if self.prompts.len() > 0 {
            assert(self@.prompts[0] == self.prompts@[0]@);
            match &self.prompts[0] {
                Prompt::Text { .. } => true,
                _ => false,
            }
        } else {
            false
        };
        self.show_connect || asked
    }

    /// Whether the mouse is for the chrome: a menu is open, the pointer is over an overlay, or a
    /// dialog is up.
    pub fn menu_open(&self, popup: bool, over_feed: bool, over_progress: bool) -> (b: bool)
        ensures
            b == (popup || over_feed || over_progress || self@.prompts.len() > 0
                || self@.show_connect || self@.error is Some),
    {
        popup || over_feed || over_progress || self.prompts.len() > 0 || self.show_connect
            || self.error.is_some()
    }

    /// A connection has a question.
    pub fn ask(&mut self, p: Prompt)
        ensures
            final(self)@ == (DialogsView {
                prompts: old(self)@.prompts.push(p@),
                ..old(self)@
            }),
    {
        let ghost was = self@;
        self.prompts.push(p);
        assert(self@.prompts =~= was.prompts.push(p@));
    }

    /// Give the first question's fields an input each.
    pub fn fit_inputs(&mut self)
        ensures
            final(self)@ == old(self)@.fitted(),
    {
        let ghost was = self@;
        if self.prompts.len() == 0 {
            return;
        }
        assert(self@.prompts[0] == self.prompts@[0]@);
        let n: usize = match &self.prompts[0] {
            Prompt::Text { fields, .. } => fields.len(),
            _ => {
                return;
            },
        };
        if self.inputs.len() > n {
            self.inputs.truncate(n);
        }
        while self.inputs.len() < n
            invariant
                n == was.prompts[0]->fields.len(),
                self.inputs@.len() <= n,
                self@ == (DialogsView { inputs: self@.inputs, ..was }),
                forall|i: int|
                    0 <= i < self.inputs@.len() ==> #[trigger] self@.inputs[i] == (if i
                        < was.inputs.len() {
                        was.inputs[i]
                    } else {
                        seq![]
                    }),
                self.inputs@.len() < n ==> self.inputs@.len() >= was.inputs.len(),
            decreases n - self.inputs.len(),
        {
            let ghost before = self@;
            let empty = String::new();
            assert(empty@ =~= seq![]);
            self.inputs.push(empty);
            assert(self@.inputs =~= before.inputs.push(seq![]));
        }
        assert(self@.inputs =~= was.fitted().inputs);
    }

    /// Answer the host-key question on screen. Returns who gets the answer.
    pub fn answer_auth(&mut self, accept: bool) -> (r: Option<(u64, bool)>)
        ensures
            match (old(self)@.prompts.len() > 0, old(self)@.prompts[0]) {
                (true, PromptView::HostKey { reply, .. }) => {
                    r == Some((reply, accept)) && final(self)@ == old(self)@.answered()
                },
                _ => r is None && final(self)@ == old(self)@,
            },
    {
        if self.prompts.len() == 0 {
            return None;
        }
        assert(self@.prompts[0] == self.prompts@[0]@);
        let to: u64 = match &self.prompts[0] {
            Prompt::HostKey { reply, .. } => *reply,
            _ => {
                return None;
            },
        };
        self.prompts.remove(0);
        assert(self@.prompts =~= old(self)@.prompts.skip(1));
        Some((to, accept))
    }

    /// Answer the text question on screen: with what was typed, or not at all. Returns who gets the
    /// answer.
    pub fn answer_auth_text(&mut self, submit: bool) -> (r: Option<(u64, Option<Vec<String>>)>)
        ensures
            match (old(self)@.prompts.len() > 0, old(self)@.prompts[0]) {
                (true, PromptView::Text { reply, .. }) => {
                    &&& r matches Some((to, answers)) && to == reply && (answers is Some == submit)
                        && (answers matches Some(a) ==> texts(a@) == old(self)@.inputs)
                    &&& final(self)@ == (DialogsView { inputs: seq![], ..old(self)@.answered() })
                },
                _ => r is None && final(self)@ == old(self)@,
            },
    {
        if self.prompts.len() == 0 {
            return None;
        }
        assert(self@.prompts[0] == self.prompts@[0]@);
        let to: u64 = match &self.prompts[0] {
            Prompt::Text { reply, .. } => *reply,
            _ => {
                return None;
            },
        };
        self.prompts.remove(0);
        let mut typed: Vec<String> = Vec::new();
        core::mem::swap(&mut typed, &mut self.inputs);
        assert(self@.inputs =~= seq![]);
        assert(self@.prompts =~= old(self)@.prompts.skip(1));
        if submit {
            Some((to, Some(typed)))
        } else {
            Some((to, None))
        }
    }

    /// Fill the connect dialog from a profile, if there is one of that index.
    pub fn use_connect_profile(&mut self, ps: &Vec<ConnectionProfile>, index: usize)
        ensures
            final(self)@ == (if index < ps@.len() {
                DialogsView {
                    connect_host: client::target_label(
                        ps@[index as int].user@,
                        ps@[index as int].host@,
                        ps@[index as int].port,
                    ),
                    connect_name: match opt(ps@[index as int].name) {
                        Some(n) => n,
                        None => seq![],
                    },
                    use_session: ps@[index as int].use_potty_session,
                    ..old(self)@
                }
            } else {
                old(self)@
            }),
    {
        if index < ps.len() {
            let p = &ps[index];
            self.connect_host = profile_target(p);
            self.connect_name = match &p.name {
                Some(n) => n.clone(),
                None => {
                    let s = String::new();
                    assert(s@ =~= seq![]);
                    s
                },
            };
            self.use_session = p.use_potty_session;
        }
    }

    /// Close the connect dialog and empty it.
    pub fn finish_connect(&mut self)
        ensures
            final(self)@ == old(self)@.connect_done(),
    {
        self.show_connect = false;
        self.connect_host = String::new();
        self.connect_name = String::new();
        assert(self@.connect_host =~= seq![]);
        assert(self@.connect_name =~= seq![]);
    }

    /// Open or close the connect dialog; what was typed stays.
    pub fn set_connect(&mut self, open: bool)
        ensures
            final(self)@ == (DialogsView { show_connect: open, ..old(self)@ }),
    {
        self.show_connect = open;
    }

    /// Show an error, or none.
    pub fn set_error(&mut self, message: Option<String>)
        ensures
            final(self)@ == (DialogsView { error: opt(message), ..old(self)@ }),
    {
        self.error = message;
    }

    /// Open the font settings.
    pub fn show_fonts(&mut self)
        ensures
            final(self)@ == (DialogsView { show_font_settings: true, ..old(self)@ }),
    {
        self.show_font_settings = true;
    }
}

/// Every question is answered once, in the order they were asked, and each answer goes to who asked.
pub proof fn questions_are_answered_in_turn(d: DialogsView, p: PromptView)
    requires
        d.prompts.len() > 0,
    ensures
        (DialogsView { prompts: d.prompts.push(p), ..d }).answered().prompts
            == d.answered().prompts.push(p),
        d.answered().prompts.len() == d.prompts.len() - 1,
{
    assert(d.prompts.push(p).skip(1) =~= d.prompts.skip(1).push(p));
}

} // verus!
