//! Hooks for agentic tools: wiring the notification helper into their settings, without touching
//! what else is there, and without wiring it twice.

use crate::json;
use crate::json::{
    field, list_value, member_or, object_value, parse_json, pretty_json, text_value, Json,
};
use crate::text;
use crate::text::{contains, trim_str};
use vstd::prelude::*;
use vstd::string::*;

verus! {

/// Why hooks could not be installed.
#[derive(Debug, PartialEq, Eq)]
pub enum HookError {
    /// The settings are no JSON; the reason is `serde_json`'s.
    NotJson(String),
    NotAnObject,
    HooksNotAnObject,
    /// The hooks of this event are no list.
    EventNotAList(&'static str),
    /// The settings are no TOML; the reason is `toml_edit`'s.
    NotToml(String),
    HooksNotATable,
    /// The hooks of this event are no array of tables.
    EventNotTables(&'static str),
    /// The settings could not be written out.
    NotWritten,
}

pub enum HookErrorView {
    NotJson(Seq<char>),
    NotAnObject,
    HooksNotAnObject,
    EventNotAList(Seq<char>),
    NotToml(Seq<char>),
    HooksNotATable,
    EventNotTables(Seq<char>),
    NotWritten,
}

impl View for HookError {
    type V = HookErrorView;

    open spec fn view(&self) -> HookErrorView {
        match *self {
            HookError::NotJson(m) => HookErrorView::NotJson(m@),
            HookError::NotAnObject => HookErrorView::NotAnObject,
            HookError::HooksNotAnObject => HookErrorView::HooksNotAnObject,
            HookError::EventNotAList(e) => HookErrorView::EventNotAList(e@),
            HookError::NotToml(m) => HookErrorView::NotToml(m@),
            HookError::HooksNotATable => HookErrorView::HooksNotATable,
            HookError::EventNotTables(e) => HookErrorView::EventNotTables(e@),
            HookError::NotWritten => HookErrorView::NotWritten,
        }
    }
}

/// What is said of an error with the settings at a path.
pub open spec fn error_text(e: HookErrorView, path: Seq<char>) -> Seq<char> {
    match e {
        HookErrorView::NotJson(m) => path + " is not valid JSON: "@ + m,
        HookErrorView::NotAnObject => path + " is not a JSON object"@,
        HookErrorView::HooksNotAnObject => "`hooks` in settings.json is not an object"@,
        HookErrorView::EventNotAList(n) => "`hooks."@ + n + "` is not an array"@,
        HookErrorView::NotToml(m) => path + " is not valid TOML: "@ + m,
        HookErrorView::HooksNotATable => "`hooks` in config.toml is not a table"@,
        HookErrorView::EventNotTables(n) => "`hooks."@ + n
            + "` in config.toml is not an array of tables"@,
        HookErrorView::NotWritten => path + " could not be written out"@,
    }
}

impl HookError {
    /// What is said of the error.
    pub fn message(&self, path: &str) -> (s: String)
        ensures
            s@ == error_text(self@, path@),
    {
        let mut s = path.to_owned();
        match self {
            HookError::NotJson(m) => {
                s.append(" is not valid JSON: ");
                s.append(m.as_str());
            },
            HookError::NotAnObject => {
                s.append(" is not a JSON object");
            },
            HookError::HooksNotAnObject => {
                s = "`hooks` in settings.json is not an object".to_owned();
            },
            HookError::EventNotAList(n) => {
                s = "`hooks.".to_owned();
                s.append(n);
                s.append("` is not an array");
            },
            HookError::NotToml(m) => {
                s.append(" is not valid TOML: ");
                s.append(m.as_str());
            },
            HookError::HooksNotATable => {
                s = "`hooks` in config.toml is not a table".to_owned();
            },
            HookError::EventNotTables(n) => {
                s = "`hooks.".to_owned();
                s.append(n);
                s.append("` in config.toml is not an array of tables");
            },
            HookError::NotWritten => {
                s.append(" could not be written out");
            },
        }
        s
    }
}

/// A command of the helper.
pub open spec fn is_ours(command: Seq<char>) -> bool {
    text::occurs(command, "potty-notify"@)
}

/// A handler that runs the helper.
pub open spec fn handler_wired(h: Json) -> bool {
    json::json_field(h, "command"@) matches Some(Json::Text(c)) && is_ours(c)
}

/// A group of handlers with one that runs the helper.
pub open spec fn group_wired(g: Json) -> bool {
    match json::json_field(g, "hooks"@) {
        Some(Json::List(hs)) => any_wired(hs),
        _ => false,
    }
}

/// Handlers with one that runs the helper.
pub open spec fn any_wired(hs: Seq<Json>) -> bool {
    exists|i: int| 0 <= i < hs.len() && handler_wired(#[trigger] hs[i])
}

/// An event's groups with one that runs the helper.
pub open spec fn event_wired(groups: Seq<Json>) -> bool {
    exists|i: int| 0 <= i < groups.len() && group_wired(#[trigger] groups[i])
}

/// The group that runs a command.
pub open spec fn new_group(command: Seq<char>) -> Json {
    Json::Object(
        Map::empty().insert(
            "hooks"@,
            Json::List(
                seq![
                    Json::Object(
                        Map::empty().insert("type"@, Json::Text("command"@)).insert(
                            "command"@,
                            Json::Text(command),
                        ),
                    ),
                ],
            ),
        ),
    )
}

/// The hooks of an event among all hooks; nothing where they are no list.
pub open spec fn event_groups(hooks: Map<Seq<char>, Json>, event: Seq<char>) -> Option<Seq<Json>> {
    if hooks.contains_key(event) {
        match hooks[event] {
            Json::List(gs) => Some(gs),
            _ => None,
        }
    } else {
        Some(seq![])
    }
}

/// An event's groups with one that runs the command, unless one runs the helper already.
pub open spec fn with_group(groups: Seq<Json>, command: Seq<char>) -> Seq<Json> {
    if event_wired(groups) {
        groups
    } else {
        groups.push(new_group(command))
    }
}

/// All hooks with an event wired; an error where the event's are no list.
pub open spec fn with_event(
    hooks: Map<Seq<char>, Json>,
    event: Seq<char>,
    command: Seq<char>,
) -> Option<Map<Seq<char>, Json>> {
    match event_groups(hooks, event) {
        Some(gs) => Some(hooks.insert(event, Json::List(with_group(gs, command)))),
        None => None,
    }
}

pub const NOTIFICATION: &'static str = "Notification";

pub const PROMPT_SUBMIT: &'static str = "UserPromptSubmit";

/// The command that raises a note.
pub open spec fn raise_command(exe: Seq<char>, tool: Seq<char>) -> Seq<char> {
    exe + " --tool "@ + tool
}

/// The command that clears it.
pub open spec fn clear_command(exe: Seq<char>, tool: Seq<char>) -> Seq<char> {
    exe + " --tool "@ + tool + " --clear"@
}

/// The hooks of the settings: none where the settings have none.
pub open spec fn settings_hooks(root: Map<Seq<char>, Json>) -> Option<Map<Seq<char>, Json>> {
    if root.contains_key("hooks"@) {
        match root["hooks"@] {
            Json::Object(h) => Some(h),
            _ => None,
        }
    } else {
        Some(Map::empty())
    }
}

/// The settings with both events wired, and which of them were added.
pub open spec fn claude_wired(root: Json, exe: Seq<char>, tool: Seq<char>) -> Result<
    (Json, bool, bool),
    HookErrorView,
> {
    match root {
        Json::Object(m) => match settings_hooks(m) {
            Some(h) => match with_event(h, NOTIFICATION@, raise_command(exe, tool)) {
                Some(h1) => match with_event(h1, PROMPT_SUBMIT@, clear_command(exe, tool)) {
                    Some(h2) => Ok(
                        (
                            Json::Object(m.insert("hooks"@, Json::Object(h2))),
                            !event_wired(event_groups(h, NOTIFICATION@)->0),
                            !event_wired(event_groups(h1, PROMPT_SUBMIT@)->0),
                        ),
                    ),
                    None => Err(HookErrorView::EventNotAList(PROMPT_SUBMIT@)),
                },
                None => Err(HookErrorView::EventNotAList(NOTIFICATION@)),
            },
            None => Err(HookErrorView::HooksNotAnObject),
        },
        _ => Err(HookErrorView::NotAnObject),
    }
}

/// What installing did.
#[derive(Debug, PartialEq, Eq)]
pub struct Installed {
    /// The settings to write, where they changed.
    pub contents: Option<String>,
    /// Whether the hook that raises was added; it was there otherwise.
    pub raise_added: bool,
    /// Whether the hook that clears was.
    pub clear_added: bool,
}

/// The settings that are there, read; an empty file is an empty object.
pub open spec fn settings_of(t: Option<Seq<char>>) -> Result<Json, Seq<char>> {
    match t {
        Some(s) => if text::trim(s).len() == 0 {
            Ok(Json::Object(Map::empty()))
        } else {
            json::json_read(s)
        },
        None => Ok(Json::Object(Map::empty())),
    }
}

fn handler_runs_us(h: &serde_json::Value) -> (b: bool)
    ensures
        b == handler_wired(json::json_of(*h)),
{
    match field(h, "command") {
        Some(c) => match c.as_str() {
            Some(s) => contains(s, "potty-notify"),
            None => false,
        },
        None => false,
    }
}

fn group_runs_us(g: &serde_json::Value) -> (b: bool)
    ensures
        b == group_wired(json::json_of(*g)),
{
    match field(g, "hooks") {
        Some(hs) => match hs.as_array() {
            Some(a) => {
                let ghost all = json::json_list(a@);
                for i in 0..a.len()
                    invariant
                        all == json::json_list(a@),
                        json::json_field(json::json_of(*g), "hooks"@) == Some(Json::List(all)),
                        forall|k: int| 0 <= k < i ==> !handler_wired(#[trigger] all[k]),
                {
                    assert(all[i as int] == json::json_of(a@[i as int]));
                    if handler_runs_us(&a[i]) {
                        assert(any_wired(all));
                        return true;
                    }
                }
                false
            },
            None => false,
        },
        None => false,
    }
}

fn any_group_runs_us(a: &Vec<serde_json::Value>) -> (b: bool)
    ensures
        b == event_wired(json::json_list(a@)),
{
    let ghost all = json::json_list(a@);
    for i in 0..a.len()
        invariant
            all == json::json_list(a@),
            forall|k: int| 0 <= k < i ==> !group_wired(#[trigger] all[k]),
    {
        assert(all[i as int] == json::json_of(a@[i as int]));
        if group_runs_us(&a[i]) {
            return true;
        }
    }
    false
}

fn make_group(command: String) -> (g: serde_json::Value)
    ensures
        json::json_of(g) == new_group(command@),
{
    let mut fields: Vec<(String, serde_json::Value)> = Vec::new();
    fields.push(("type".to_owned(), text_value("command".to_owned())));
    fields.push(("command".to_owned(), text_value(command)));
    let ghost fs = fields@;
    let handler = object_value(fields);
    proof {
        reveal_with_fuel(json::json_fields, 3);
        assert(fs.drop_last().drop_last() =~= seq![]);
        assert(json::json_of(handler) == Json::Object(
            Map::empty().insert("type"@, Json::Text("command"@)).insert(
                "command"@,
                Json::Text(command@),
            ),
        ));
    }
    let mut handlers: Vec<serde_json::Value> = Vec::new();
    handlers.push(handler);
    assert(json::json_list(handlers@) =~= seq![json::json_of(handler)]);
    let mut outer: Vec<(String, serde_json::Value)> = Vec::new();
    outer.push(("hooks".to_owned(), list_value(handlers)));
    let ghost os = outer@;
    proof {
        reveal_with_fuel(json::json_fields, 2);
        assert(os.drop_last() =~= seq![]);
    }
    object_value(outer)
}

fn empty_object() -> (v: serde_json::Value)
    ensures
        json::json_of(v) == Json::Object(Map::empty()),
{
    let v: Vec<(String, serde_json::Value)> = Vec::new();
    object_value(v)
}

fn wire_event(hooks: &mut serde_json::Value, event: &'static str, command: String) -> (r: Result<
    bool,
    HookError,
>)
    ensures
        match json::json_of(*old(hooks)) {
            Json::Object(was) => match with_event(was, event@, command@) {
                Some(h) => {
                    &&& r == Ok::<bool, HookError>(!event_wired(event_groups(was, event@)->0))
                    &&& json::json_of(*final(hooks)) == Json::Object(h)
                },
                None => r matches Err(e) && e@ == HookErrorView::EventNotAList(event@),
            },
            _ => r matches Err(e) && e@ == HookErrorView::HooksNotAnObject,
        },
{
    let none: Vec<serde_json::Value> = Vec::new();
    let default = list_value(none);
    assert(json::json_list(none@) =~= seq![]);
    match member_or(hooks, event, default) {
        Some(m) => {
            match m.as_array_mut() {
                Some(a) => {
                    let ghost before = json::json_list(a@);
                    if any_group_runs_us(a) {
                        Ok(false)
                    } else {
                        let g = make_group(command);
                        a.push(g);
                        assert(json::json_list(a@) =~= before.push(json::json_of(g)));
                        Ok(true)
                    }
                },
                None => Err(HookError::EventNotAList(event)),
            }
        },
        None => Err(HookError::HooksNotAnObject),
    }
}

fn wire_claude(root: &mut serde_json::Value, exe: &str, tool: &str) -> (r: Result<
    (bool, bool),
    HookError,
>)
    ensures
        match claude_wired(json::json_of(*old(root)), exe@, tool@) {
            Ok((j, a, b)) => r == Ok::<(bool, bool), HookError>((a, b)) && json::json_of(
                *final(root),
            ) == j,
            Err(e) => r matches Err(x) && x@ == e,
        },
{
    let mut raise = exe.to_owned();
    raise.append(" --tool ");
    raise.append(tool);
    let mut clear = exe.to_owned();
    clear.append(" --tool ");
    clear.append(tool);
    clear.append(" --clear");
    match member_or(root, "hooks", empty_object()) {
        Some(hooks) => {
            let a = match wire_event(hooks, NOTIFICATION, raise) {
                Ok(a) => a,
                Err(e) => {
                    return Err(e);
                },
            };
            match wire_event(hooks, PROMPT_SUBMIT, clear) {
                Ok(b) => Ok((a, b)),
                Err(e) => Err(e),
            }
        },
        None => Err(HookError::NotAnObject),
    }
}

/// What installing into settings comes to, given what they hold.
pub open spec fn claude_result(
    settings: Result<Json, Seq<char>>,
    exe: Seq<char>,
    tool: Seq<char>,
) -> Result<
    (Option<Seq<char>>, bool, bool),
    HookErrorView,
> {
    match settings {
        Ok(j) => match claude_wired(j, exe, tool) {
            Ok((k, a, b)) => if a || b {
                match json::json_pretty(k) {
                    Some(s) => Ok((Some(s + "\n"@), a, b)),
                    None => Err(HookErrorView::NotWritten),
                }
            } else {
                Ok((None, a, b))
            },
            Err(e) => Err(e),
        },
        Err(m) => Err(HookErrorView::NotJson(m)),
    }
}

/// The view of what installing did.
pub open spec fn installed_view(r: Result<Installed, HookError>) -> Result<
    (Option<Seq<char>>, bool, bool),
    HookErrorView,
> {
    match r {
        Ok(i) => Ok((crate::client::opt(i.contents), i.raise_added, i.clear_added)),
        Err(e) => Err(e@),
    }
}

/// Wire the helper into settings that have been read: a hook that raises a note, and one that
/// clears it. Existing hooks stay; an event that runs the helper already is left as it is.
pub fn install_into(root: serde_json::Value, exe: &str, tool: &str) -> (r: Result<
    Installed,
    HookError,
>)
    ensures
        installed_view(r) == claude_result(Ok(json::json_of(root)), exe@, tool@),
{
    let mut root = root;
    match wire_claude(&mut root, exe, tool) {
        Ok((a, b)) => {
            if a || b {
                match pretty_json(&root) {
                    Some(s) => {
                        let mut s = s;
                        s.append("\n");
                        Ok(Installed { contents: Some(s), raise_added: a, clear_added: b })
                    },
                    None => Err(HookError::NotWritten),
                }
            } else {
                Ok(Installed { contents: None, raise_added: a, clear_added: b })
            }
        },
        Err(e) => Err(e),
    }
}

/// Wire the helper into the settings of the tool that keeps them as JSON, given the file's text
/// where there is a file, and the name by which the hooks say that tool.
pub fn install_claude(settings: Option<&str>, exe: &str, tool: &str) -> (r: Result<
    Installed,
    HookError,
>)
    ensures
        installed_view(r) == claude_result(
            settings_of(
                match settings {
                    Some(s) => Some(s@),
                    None => None,
                },
            ),
            exe@,
            tool@,
        ),
{
    match settings {
        Some(s) => {
            if trim_str(s).as_str().is_empty() {
                install_into(empty_object(), exe, tool)
            } else {
                match parse_json(s) {
                    Ok(root) => install_into(root, exe, tool),
                    Err(m) => Err(HookError::NotJson(m)),
                }
            }
        },
        None => install_into(empty_object(), exe, tool),
    }
}

proof fn lemma_ours_behind(exe: Seq<char>, rest: Seq<char>)
    requires
        is_ours(exe),
    ensures
        is_ours(exe + rest),
{
    let part = "potty-notify"@;
    let i = choose|i: int| #[trigger] text::occurs_at(exe, part, i);
    assert((exe + rest).subrange(i, i + part.len()) =~= exe.subrange(i, i + part.len()));
    assert(text::occurs_at(exe + rest, part, i));
}

proof fn lemma_new_group_wired(command: Seq<char>)
    requires
        is_ours(command),
    ensures
        group_wired(new_group(command)),
{
    reveal_strlit("type");
    reveal_strlit("command");
    let handler = Json::Object(
        Map::empty().insert("type"@, Json::Text("command"@)).insert(
            "command"@,
            Json::Text(command),
        ),
    );
    assert(handler_wired(handler));
    let hs = seq![handler];
    assert(hs[0] == handler);
    assert(any_wired(hs));
    assert(json::json_field(new_group(command), "hooks"@) == Some(Json::List(hs)));
}

proof fn lemma_event_wired(groups: Seq<Json>, command: Seq<char>)
    requires
        is_ours(command),
    ensures
        event_wired(with_group(groups, command)),
{
    if !event_wired(groups) {
        lemma_new_group_wired(command);
        let g = with_group(groups, command);
        assert(g[groups.len() as int] == new_group(command));
    }
}

/// Installing twice is installing once: the second time nothing is added and nothing changes. It
/// holds of a helper whose path says its name, by which its hooks are known again.
pub proof fn installing_twice_changes_nothing(root: Json, exe: Seq<char>, tool: Seq<char>)
    requires
        is_ours(exe),
        claude_wired(root, exe, tool) is Ok,
    ensures
        ({
            let once = claude_wired(root, exe, tool)->Ok_0.0;
            claude_wired(once, exe, tool) == Ok::<(Json, bool, bool), HookErrorView>(
                (once, false, false),
            )
        }),
{
    reveal_strlit("Notification");
    reveal_strlit("UserPromptSubmit");
    let (raise, clear) = (raise_command(exe, tool), clear_command(exe, tool));
    lemma_ours_behind(exe, " --tool "@ + tool);
    assert(raise =~= exe + (" --tool "@ + tool));
    lemma_ours_behind(raise, " --clear"@);
    assert(clear =~= raise + " --clear"@);
    let m = root->Object_0;
    let h = settings_hooks(m)->0;
    let h1 = with_event(h, NOTIFICATION@, raise)->0;
    let h2 = with_event(h1, PROMPT_SUBMIT@, clear)->0;
    lemma_event_wired(event_groups(h, NOTIFICATION@)->0, raise);
    lemma_event_wired(event_groups(h1, PROMPT_SUBMIT@)->0, clear);
    let once = m.insert("hooks"@, Json::Object(h2));
    assert(NOTIFICATION@.len() != PROMPT_SUBMIT@.len());
    assert(settings_hooks(once) == Some(h2));
    assert(event_groups(h2, NOTIFICATION@) == event_groups(h1, NOTIFICATION@));
    assert(with_event(h2, NOTIFICATION@, raise)->0 =~= h2);
    assert(with_event(h2, PROMPT_SUBMIT@, clear)->0 =~= h2);
    assert(once.insert("hooks"@, Json::Object(h2)) =~= once);
}

/// Installing is not destructive: every other member of the settings and every other hook stays,
/// and an event's groups keep their places before the one that is added.
pub proof fn installing_keeps_what_is_there(
    root: Json,
    exe: Seq<char>,
    tool: Seq<char>,
    key: Seq<char>,
)
    requires
        claude_wired(root, exe, tool) is Ok,
    ensures
        ({
            let after = claude_wired(root, exe, tool)->Ok_0.0;
            let (h, h2) = (
                settings_hooks(root->Object_0)->0,
                settings_hooks(after->Object_0)->0,
            );
            &&& key != "hooks"@ ==> json::json_field(after, key) == json::json_field(root, key)
            &&& key != NOTIFICATION@ && key != PROMPT_SUBMIT@ ==> h2.contains_key(key)
                == h.contains_key(key) && (h.contains_key(key) ==> h2[key] == h[key])
            &&& event_groups(h, NOTIFICATION@)->0.is_prefix_of(
                event_groups(h2, NOTIFICATION@)->0,
            )
            &&& event_groups(h, PROMPT_SUBMIT@)->0.is_prefix_of(
                event_groups(h2, PROMPT_SUBMIT@)->0,
            )
        }),
{
    reveal_strlit("Notification");
    reveal_strlit("UserPromptSubmit");
    assert(NOTIFICATION@.len() != PROMPT_SUBMIT@.len());
    let h = settings_hooks(root->Object_0)->0;
    let h1 = with_event(h, NOTIFICATION@, raise_command(exe, tool))->0;
    assert(event_groups(h1, PROMPT_SUBMIT@) == event_groups(h, PROMPT_SUBMIT@));
    let g = event_groups(h, NOTIFICATION@)->0;
    let p = event_groups(h, PROMPT_SUBMIT@)->0;
    assert(g.push(new_group(raise_command(exe, tool))).take(g.len() as int) =~= g);
    assert(p.push(new_group(clear_command(exe, tool))).take(p.len() as int) =~= p);
    assert(g.take(g.len() as int) =~= g);
    assert(p.take(p.len() as int) =~= p);
}

} // verus!
