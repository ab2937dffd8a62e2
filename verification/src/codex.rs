//! Wiring the notification helper into Codex's configuration.

use crate::hooks;
use crate::hooks::{HookError, HookErrorView};
use crate::text::contains;
use crate::toml_doc;
use crate::toml_doc::{
    item_or, parse_toml, toml_integer, toml_text, toml_texts, write_doc, write_item, Toml,
};
use toml_edit::{ArrayOfTables, DocumentMut, Item, Table};
use vstd::prelude::*;
use vstd::string::*;

verus! {

/// A hook to install.
#[derive(Debug, PartialEq, Eq)]
pub struct CodexHook {
    pub event: &'static str,
    pub matcher: Option<&'static str>,
    pub command: String,
}

/// The view of an optional literal.
pub open spec fn literal(s: Option<&'static str>) -> Option<Seq<char>> {
    match s {
        Some(t) => Some(t@),
        None => None,
    }
}

/// An item that is a text.
pub open spec fn is_text(i: Option<Item>, s: Seq<char>) -> bool {
    i matches Some(Item::Value(v)) && toml_doc::toml_value(v) == Toml::Text(s)
}

/// A handler that runs the helper.
pub open spec fn handler_wired(t: Table) -> bool {
    match toml_doc::item_at(toml_doc::table_of(t), "command"@) {
        Some(Item::Value(v)) => match toml_doc::toml_value(v) {
            Toml::Text(c) => hooks::is_ours(c),
            _ => false,
        },
        _ => false,
    }
}

/// Handlers with one that runs the helper.
pub open spec fn any_handler_wired(hs: Seq<Item>) -> bool {
    exists|i: int|
        0 <= i < hs.len() && (#[trigger] hs[i]) is Table && handler_wired(toml_doc::table_in(hs[i])->0)
}

/// A group with such a handler.
pub open spec fn group_wired(t: Table) -> bool {
    match toml_doc::item_at(toml_doc::table_of(t), "hooks"@) {
        Some(Item::ArrayOfTables(a)) => any_handler_wired(toml_doc::tables_of(a)),
        _ => false,
    }
}

/// Groups with such a one.
pub open spec fn any_group_wired(gs: Seq<Item>) -> bool {
    exists|i: int| 0 <= i < gs.len() && (#[trigger] gs[i]) is Table && group_wired(
        toml_doc::table_in(gs[i])->0,
    )
}

/// The hooks of a configuration; nothing where they are no table.
pub open spec fn hooks_of(root: Map<Seq<char>, Item>) -> Option<Map<Seq<char>, Item>> {
    if root.contains_key("hooks"@) {
        match root["hooks"@] {
            Item::Table(t) => Some(toml_doc::table_of(t)),
            _ => None,
        }
    } else {
        Some(toml_doc::no_items())
    }
}

/// An event's groups among the hooks; nothing where they are no array of tables.
pub open spec fn groups_of(hs: Map<Seq<char>, Item>, event: Seq<char>) -> Option<Seq<Item>> {
    if hs.contains_key(event) {
        match hs[event] {
            Item::ArrayOfTables(a) => Some(toml_doc::tables_of(a)),
            _ => None,
        }
    } else {
        Some(toml_doc::no_tables())
    }
}

/// The handler that a hook becomes.
pub open spec fn is_handler(t: Table, command: Seq<char>) -> bool {
    let m = toml_doc::table_of(t);
    &&& m.dom() == set!["type"@, "command"@, "timeout"@]
    &&& is_text(toml_doc::item_at(m, "type"@), "command"@)
    &&& is_text(toml_doc::item_at(m, "command"@), command)
    &&& toml_doc::item_at(m, "timeout"@) matches Some(Item::Value(v)) && toml_doc::toml_value(v)
        == Toml::Integer(10)
}

/// The group that a hook becomes: what it matches, where it says so, and its handler.
pub open spec fn is_group(t: Table, matcher: Option<Seq<char>>, command: Seq<char>) -> bool {
    let m = toml_doc::table_of(t);
    &&& m.dom() == (if matcher is Some {
        set!["matcher"@, "hooks"@]
    } else {
        set!["hooks"@]
    })
    &&& matcher matches Some(x) ==> is_text(toml_doc::item_at(m, "matcher"@), x)
    &&& toml_doc::item_at(m, "hooks"@) matches Some(Item::ArrayOfTables(a)) && {
        let hs = toml_doc::tables_of(a);
        &&& hs.len() == 1
        &&& hs[0] is Table
        &&& is_handler(toml_doc::table_in(hs[0])->0, command)
    }
}

/// What keeps a hook from being installed.
pub open spec fn trouble(root: Map<Seq<char>, Item>, event: Seq<char>) -> Option<HookErrorView> {
    match hooks_of(root) {
        Some(hs) => match groups_of(hs, event) {
            Some(_) => None,
            None => Some(HookErrorView::EventNotTables(event)),
        },
        None => Some(HookErrorView::HooksNotATable),
    }
}

/// An event's groups in a configuration.
pub open spec fn event_groups(root: Map<Seq<char>, Item>, event: Seq<char>) -> Seq<Item> {
    groups_of(hooks_of(root)->0, event)->0
}

/// From one configuration to the next by installing a hook: everything else stays, the event's
/// groups too, and one for the hook is put behind them unless one runs the helper already.
pub open spec fn hook_step(
    before: Map<Seq<char>, Item>,
    after: Map<Seq<char>, Item>,
    event: Seq<char>,
    matcher: Option<Seq<char>>,
    command: Seq<char>,
    added: bool,
) -> bool {
    let (gs, gs2) = (event_groups(before, event), event_groups(after, event));
    &&& trouble(before, event) is None
    &&& trouble(after, event) is None
    &&& after.remove("hooks"@) == before.remove("hooks"@)
    &&& hooks_of(after)->0.remove(event) == hooks_of(before)->0.remove(event)
    &&& added == !any_group_wired(gs)
    &&& if added {
        gs2.len() == gs.len() + 1 && gs2.drop_last() == gs && gs2.last() is Table && is_group(
            toml_doc::table_in(gs2.last())->0,
            matcher,
            command,
        )
    } else {
        gs2 == gs
    }
}

/// A table that gained a name at most, behind the others: what stood in it stands where it did and
/// is named as it was, and what stood round it is the same.
pub open spec fn laid_out(before: Table, after: Table, key: Seq<char>) -> bool {
    &&& toml_doc::table_frame(after) == toml_doc::table_frame(before)
    &&& toml_doc::led_to(before, after, key)
}

/// The table of the hooks; an empty one where there is none.
pub open spec fn is_hooks_table(root: Table, t: Table) -> bool {
    if toml_doc::table_of(root).contains_key("hooks"@) {
        toml_doc::table_of(root)["hooks"@] == Item::Table(t)
    } else {
        &&& toml_doc::table_of(t) == toml_doc::no_items()
        &&& toml_doc::table_layout(t) == toml_doc::no_names()
        &&& toml_doc::table_frame(t) == toml_doc::no_frame()
    }
}

/// The layout of a configuration after a hook: untouched where nothing was added, and otherwise as
/// it was but for the names that lead to the hook, which come last where they are new.
pub open spec fn hook_layout(before: Table, after: Table, event: Seq<char>, added: bool) -> bool {
    if added {
        &&& laid_out(before, after, "hooks"@)
        &&& exists|t: Table, u: Table|
            #![trigger is_hooks_table(before, t), is_hooks_table(after, u)]
            is_hooks_table(before, t) && is_hooks_table(after, u) && laid_out(t, u, event)
    } else {
        after == before
    }
}

/// Whether an event's groups among the hooks have one that runs the helper already.
fn already_wired(root: &Table, event: &str) -> (b: bool)
    ensures
        b ==> trouble(toml_doc::table_of(*root), event@) is None,
        trouble(toml_doc::table_of(*root), event@) is None ==> b == any_group_wired(
            event_groups(toml_doc::table_of(*root), event@),
        ),
{
    match root.get("hooks") {
        Some(i) => match i {
            Item::Table(hooks) => match hooks.get(event) {
                Some(j) => match j {
                    Item::ArrayOfTables(a) => any_group_has_potty_hook(a),
                    _ => false,
                },
                None => false,
            },
            _ => false,
        },
        None => false,
    }
}

/// Whether a handler runs the helper.
pub fn handler_is_potty_hook(handler: &Table) -> (b: bool)
    ensures
        b == handler_wired(*handler),
{
    match handler.get("command") {
        Some(i) => match i {
            Item::Value(v) => match v.as_str() {
                Some(s) => contains(s, "potty-notify"),
                None => false,
            },
            _ => false,
        },
        None => false,
    }
}

/// Whether a group has a handler that runs the helper.
pub fn table_has_potty_hook(table: &Table) -> (b: bool)
    ensures
        b == group_wired(*table),
{
    match table.get("hooks") {
        Some(i) => match i {
            Item::ArrayOfTables(a) => {
                let n: usize = a.len();
                for k in 0..n
                    invariant
                        n == toml_doc::tables_of(*a).len(),
                        toml_doc::item_at(toml_doc::table_of(*table), "hooks"@) == Some(
                            Item::ArrayOfTables(*a),
                        ),
                        forall|j: int|
                            0 <= j < k ==> !((#[trigger] toml_doc::tables_of(*a)[j]) is Table
                                && handler_wired(toml_doc::table_in(toml_doc::tables_of(*a)[j])->0)),
                {
                    match a.get(k) {
                        Some(h) => {
                            if handler_is_potty_hook(h) {
                                assert(toml_doc::tables_of(*a)[k as int] is Table);
                                assert(any_handler_wired(toml_doc::tables_of(*a)));
                                return true;
                            }
                        },
                        None => {},
                    }
                }
                false
            },
            _ => false,
        },
        None => false,
    }
}

fn any_group_has_potty_hook(a: &ArrayOfTables) -> (b: bool)
    ensures
        b == any_group_wired(toml_doc::tables_of(*a)),
{
    let n: usize = a.len();
    for k in 0..n
        invariant
            n == toml_doc::tables_of(*a).len(),
            forall|j: int|
                0 <= j < k ==> !((#[trigger] toml_doc::tables_of(*a)[j]) is Table && group_wired(
                    toml_doc::table_in(toml_doc::tables_of(*a)[j])->0,
                )),
    {
        match a.get(k) {
            Some(t) => {
                if table_has_potty_hook(t) {
                    assert(toml_doc::tables_of(*a)[k as int] is Table);
                    return true;
                }
            },
            None => {},
        }
    }
    false
}

fn make_handler(command: &str) -> (t: Table)
    ensures
        is_handler(t, command@),
{
    proof {
        reveal_strlit("type");
        reveal_strlit("command");
        reveal_strlit("timeout");
    }
    let mut t = Table::new();
    t.insert("type", Item::Value(toml_text("command")));
    t.insert("command", Item::Value(toml_text(command)));
    t.insert("timeout", Item::Value(toml_integer(10)));
    assert("type"@.len() == 4 && "command"@.len() == 7 && "timeout"@.len() == 7);
    assert("command"@[0] == 'c' && "timeout"@[0] == 't');
    assert(toml_doc::table_of(t).dom() =~= set!["type"@, "command"@, "timeout"@]);
    t
}

fn make_group(matcher: Option<&'static str>, command: &str) -> (t: Table)
    ensures
        is_group(t, literal(matcher), command@),
{
    proof {
        reveal_strlit("matcher");
        reveal_strlit("hooks");
    }
    assert("matcher"@.len() == 7 && "hooks"@.len() == 5);
    let mut t = Table::new();
    match matcher {
        Some(m) => {
            t.insert("matcher", Item::Value(toml_text(m)));
        },
        None => {},
    }
    let mut handlers = ArrayOfTables::new();
    handlers.push(make_handler(command));
    t.insert("hooks", Item::ArrayOfTables(handlers));
    assert(toml_doc::table_of(t).dom() =~= if matcher is Some {
        set!["matcher"@, "hooks"@]
    } else {
        set!["hooks"@]
    });
    t
}

/// Install a hook that runs a command, unless its event runs the helper already, in which case
/// nothing is touched. Says whether it was added.
pub fn ensure_codex_command_hook(root: &mut Table, hook: &CodexHook) -> (r: Result<bool, HookError>)
    ensures
        match trouble(toml_doc::table_of(*old(root)), hook.event@) {
            Some(e) => r matches Err(x) && x@ == e,
            None => r matches Ok(added) && hook_step(
                toml_doc::table_of(*old(root)),
                toml_doc::table_of(*final(root)),
                hook.event@,
                literal(hook.matcher),
                hook.command@,
                added,
            ) && hook_layout(*old(root), *final(root), hook.event@, added),
        },
        r == Ok::<bool, HookError>(false) ==> *final(root) == *old(root),
{
    if already_wired(root, hook.event) {
        return Ok(false);
    }
    let ghost before = toml_doc::table_of(*root);
    let ghost mut gs: Seq<Item> = toml_doc::no_tables();
    let ghost mut was: Option<Table> = None;
    let r = match item_or(root, "hooks", Item::Table(Table::new())) {
        Item::Table(hooks) => {
            proof {
                was = Some(*hooks);
            }
            match item_or(hooks, hook.event, Item::ArrayOfTables(ArrayOfTables::new())) {
                Item::ArrayOfTables(groups) => {
                    proof {
                        gs = toml_doc::tables_of(*groups);
                    }
                    groups.push(make_group(hook.matcher, hook.command.as_str()));
                    Ok(true)
                },
                _ => Err(HookError::EventNotTables(hook.event)),
            }
        },
        _ => Err(HookError::HooksNotATable),
    };
    proof {
        if r is Ok {
            let after = toml_doc::table_of(*root);
            let (hs, hs2) = (hooks_of(before)->0, hooks_of(after)->0);
            assert(after.remove("hooks"@) =~= before.remove("hooks"@));
            assert(hs2.remove(hook.event@) =~= hs.remove(hook.event@));
            assert(event_groups(before, hook.event@) == gs);
            assert(event_groups(after, hook.event@).drop_last() =~= gs);
            let now = toml_doc::table_in(after["hooks"@])->0;
            assert(is_hooks_table(*old(root), was->0));
            assert(is_hooks_table(*root, now));
            assert(laid_out(was->0, now, hook.event@));
            assert(laid_out(*old(root), *root, "hooks"@));
        }
    }
    r
}

/// What became of the setting that reports finished turns.
#[derive(Debug, PartialEq, Eq)]
pub enum NotifySetting {
    Added,
    /// It runs the helper already.
    Wired,
    /// It is set to something else, which stays. It reads like this.
    Foreign(String),
}

/// What installing did.
#[derive(Debug, PartialEq, Eq)]
pub struct CodexInstalled {
    /// The configuration to write, where it changed.
    pub contents: Option<String>,
    pub notify: NotifySetting,
    pub raise_added: bool,
    pub clear_added: bool,
}

pub const PERMISSION_REQUEST: &'static str = "PermissionRequest";

/// From one configuration to the next by setting what is run when a turn is finished: a setting
/// that is there stays.
pub open spec fn notify_step(
    before: Map<Seq<char>, Item>,
    after: Map<Seq<char>, Item>,
    exe: Seq<char>,
    s: NotifySetting,
) -> bool {
    match toml_doc::item_at(before, "notify"@) {
        Some(i) => {
            &&& after == before
            &&& if hooks::is_ours(toml_doc::item_written(i)) {
                s is Wired
            } else {
                s matches NotifySetting::Foreign(t) && t@ == toml_doc::item_written(i)
            }
        },
        None => {
            &&& s is Added
            &&& after.remove("notify"@) == before.remove("notify"@)
            &&& toml_doc::item_at(after, "notify"@) matches Some(Item::Value(v))
                && toml_doc::toml_value(v) == Toml::Texts(seq![exe, "--tool"@, "codex"@])
        },
    }
}

/// What keeps the helper from being wired.
pub open spec fn codex_trouble(m: Map<Seq<char>, Item>) -> Option<HookErrorView> {
    match trouble(m, PERMISSION_REQUEST@) {
        Some(e) => Some(e),
        None => trouble(m, hooks::PROMPT_SUBMIT@),
    }
}

/// What installing did, and the configurations on the way.
pub open spec fn codex_steps(
    m: Map<Seq<char>, Item>,
    m1: Map<Seq<char>, Item>,
    m2: Map<Seq<char>, Item>,
    m3: Map<Seq<char>, Item>,
    exe: Seq<char>,
    i: CodexInstalled,
) -> bool {
    &&& notify_step(m, m1, exe, i.notify)
    &&& hook_step(
        m1,
        m2,
        PERMISSION_REQUEST@,
        Some("*"@),
        hooks::raise_command(exe, "codex"@),
        i.raise_added,
    )
    &&& hook_step(
        m2,
        m3,
        hooks::PROMPT_SUBMIT@,
        None,
        hooks::clear_command(exe, "codex"@),
        i.clear_added,
    )
}

/// Whether anything was added.
pub open spec fn changed(i: CodexInstalled) -> bool {
    i.notify is Added || i.raise_added || i.clear_added
}

/// The layout after the setting that reports finished turns.
pub open spec fn notify_layout(before: Table, after: Table, s: NotifySetting) -> bool {
    if s is Added {
        &&& toml_doc::table_frame(after) == toml_doc::table_frame(before)
        &&& toml_doc::put_in(before, after, "notify"@)
    } else {
        after == before
    }
}

/// The layouts on the way.
pub open spec fn codex_layouts(
    t: Table,
    t1: Table,
    t2: Table,
    t3: Table,
    i: CodexInstalled,
) -> bool {
    &&& notify_layout(t, t1, i.notify)
    &&& hook_layout(t1, t2, PERMISSION_REQUEST@, i.raise_added)
    &&& hook_layout(t2, t3, hooks::PROMPT_SUBMIT@, i.clear_added)
}

/// The helper has been wired into a configuration: what is to be written, where anything was added,
/// is a document with the items that the steps lead to, laid out as the configuration was.
pub open spec fn codex_wired(d: DocumentMut, exe: Seq<char>, i: CodexInstalled) -> bool {
    exists|t1: Table, t2: Table, e: DocumentMut|
        #[trigger] codex_layouts(toml_doc::root_of(d), t1, t2, toml_doc::root_of(e), i)
            && codex_steps(
            toml_doc::doc_items(d),
            toml_doc::table_of(t1),
            toml_doc::table_of(t2),
            toml_doc::doc_items(e),
            exe,
            i,
        ) && toml_doc::doc_trailing(e) == toml_doc::doc_trailing(d) && (match i.contents {
            Some(t) => changed(i) && t@ == toml_doc::doc_written(e),
            None => !changed(i),
        })
}

fn wire_notify(root: &mut Table, exe: &str) -> (s: NotifySetting)
    ensures
        notify_step(toml_doc::table_of(*old(root)), toml_doc::table_of(*final(root)), exe@, s),
        notify_layout(*old(root), *final(root), s),
{
    let ghost before = toml_doc::table_of(*root);
    match root.get("notify") {
        Some(i) => {
            let written = write_item(i);
            if contains(written.as_str(), "potty-notify") {
                NotifySetting::Wired
            } else {
                NotifySetting::Foreign(written)
            }
        },
        None => {
            let words: [&str; 3] = [exe, "--tool", "codex"];
            assert(toml_doc::each_text(words@) =~= seq![exe@, "--tool"@, "codex"@]);
            root.insert("notify", Item::Value(toml_texts(&words)));
            assert(toml_doc::table_of(*root).remove("notify"@) =~= before.remove("notify"@));
            NotifySetting::Added
        },
    }
}

proof fn lemma_no_more_trouble(
    before: Map<Seq<char>, Item>,
    after: Map<Seq<char>, Item>,
    event: Seq<char>,
)
    requires
        "hooks"@ != "notify"@,
        after == before || after.remove("notify"@) == before.remove("notify"@),
    ensures
        trouble(after, event) == trouble(before, event),
{
    if after != before {
        assert(after.contains_key("hooks"@) == after.remove("notify"@).contains_key("hooks"@));
        assert(before.contains_key("hooks"@) == before.remove("notify"@).contains_key("hooks"@));
        if after.contains_key("hooks"@) {
            assert(after.remove("notify"@)["hooks"@] == after["hooks"@]);
            assert(before.remove("notify"@)["hooks"@] == before["hooks"@]);
        }
    }
}

proof fn lemma_other_event(
    before: Map<Seq<char>, Item>,
    after: Map<Seq<char>, Item>,
    event: Seq<char>,
    other: Seq<char>,
    matcher: Option<Seq<char>>,
    command: Seq<char>,
    added: bool,
)
    requires
        hook_step(before, after, event, matcher, command, added),
        event != other,
    ensures
        trouble(after, other) == trouble(before, other),
        event_groups(after, other) == event_groups(before, other),
{
    let (h, h2) = (hooks_of(before)->0, hooks_of(after)->0);
    assert(h2.contains_key(other) == h2.remove(event).contains_key(other));
    assert(h.contains_key(other) == h.remove(event).contains_key(other));
    if h2.contains_key(other) {
        assert(h2.remove(event)[other] == h2[other]);
        assert(h.remove(event)[other] == h[other]);
    }
}

/// Wire the helper into Codex's configuration: what is run when a turn is finished, a hook that
/// raises a note when permission is asked for, and one that clears it. Everything else stays in its
/// place, the comments and spaces round it too. How a document is written from that is up to
/// `toml_edit`.
pub fn install_codex(config: &str, exe: &str) -> (r: Result<CodexInstalled, HookError>)
    ensures
        match toml_doc::toml_read(config@) {
            Err(m) => r matches Err(e) && e@ == HookErrorView::NotToml(m),
            Ok(d) => match codex_trouble(toml_doc::doc_items(d)) {
                Some(e) => r matches Err(x) && x@ == e,
                None => r matches Ok(i) && codex_wired(d, exe@, i),
            },
        },
{
    let mut doc = match parse_toml(config) {
        Ok(d) => d,
        Err(m) => {
            return Err(HookError::NotToml(m));
        },
    };
    let ghost read = doc;
    let ghost m = toml_doc::doc_items(doc);
    let notify = wire_notify(doc.as_table_mut(), exe);
    let ghost t1 = toml_doc::root_of(doc);
    let ghost m1 = toml_doc::doc_items(doc);
    let mut command = exe.to_owned();
    command.append(" --tool ");
    command.append("codex");
    let raise = CodexHook { event: PERMISSION_REQUEST, matcher: Some("*"), command };
    let mut command = exe.to_owned();
    command.append(" --tool ");
    command.append("codex");
    command.append(" --clear");
    let clear = CodexHook { event: hooks::PROMPT_SUBMIT, matcher: None, command };
    proof {
        reveal_strlit("hooks");
        reveal_strlit("notify");
        reveal_strlit("PermissionRequest");
        reveal_strlit("UserPromptSubmit");
        assert("hooks"@.len() != "notify"@.len());
        assert(PERMISSION_REQUEST@.len() != hooks::PROMPT_SUBMIT@.len());
        lemma_no_more_trouble(m, m1, PERMISSION_REQUEST@);
        lemma_no_more_trouble(m, m1, hooks::PROMPT_SUBMIT@);
    }
    let raise_added: bool = match ensure_codex_command_hook(doc.as_table_mut(), &raise) {
        Ok(b) => b,
        Err(e) => {
            return Err(e);
        },
    };
    let ghost t2 = toml_doc::root_of(doc);
    let ghost m2 = toml_doc::doc_items(doc);
    proof {
        lemma_other_event(
            m1,
            m2,
            PERMISSION_REQUEST@,
            hooks::PROMPT_SUBMIT@,
            Some("*"@),
            hooks::raise_command(exe@, "codex"@),
            raise_added,
        );
    }
    let clear_added: bool = match ensure_codex_command_hook(doc.as_table_mut(), &clear) {
        Ok(b) => b,
        Err(e) => {
            return Err(e);
        },
    };
    let added: bool = match notify {
        NotifySetting::Added => true,
        _ => raise_added || clear_added,
    };
    let contents = if added {
        Some(write_doc(&doc))
    } else {
        None
    };
    let i = CodexInstalled { contents, notify, raise_added, clear_added };
    assert(codex_steps(m, m1, m2, toml_doc::doc_items(doc), exe@, i));
    assert(codex_layouts(toml_doc::root_of(read), t1, t2, toml_doc::root_of(doc), i));
    Ok(i)
}

proof fn lemma_group_runs_us(t: Table, matcher: Option<Seq<char>>, command: Seq<char>)
    requires
        is_group(t, matcher, command),
        hooks::is_ours(command),
    ensures
        group_wired(t),
{
    let m = toml_doc::table_of(t);
    if let Some(Item::ArrayOfTables(a)) = toml_doc::item_at(m, "hooks"@) {
        let hs = toml_doc::tables_of(a);
        assert(hs[0] is Table && handler_wired(toml_doc::table_in(hs[0])->0));
        assert(any_handler_wired(hs));
    }
}

/// A hook is installed once: after a step its event runs the helper, so that a second step for the
/// event adds nothing. It holds of a command that says the helper's name.
pub proof fn a_hook_is_installed_once(
    m: Map<Seq<char>, Item>,
    m1: Map<Seq<char>, Item>,
    m2: Map<Seq<char>, Item>,
    event: Seq<char>,
    matcher: Option<Seq<char>>,
    command: Seq<char>,
    first: bool,
    second: bool,
)
    requires
        hooks::is_ours(command),
        hook_step(m, m1, event, matcher, command, first),
        hook_step(m1, m2, event, matcher, command, second),
    ensures
        any_group_wired(event_groups(m1, event)),
        !second,
        event_groups(m2, event) == event_groups(m1, event),
{
    if first {
        let gs = event_groups(m1, event);
        lemma_group_runs_us(toml_doc::table_in(gs.last())->0, matcher, command);
        assert(gs[gs.len() - 1] == gs.last());
        assert(any_group_wired(gs));
    }
}

/// A setting of the user's own is never overwritten.
pub proof fn a_foreign_setting_stays(
    m: Map<Seq<char>, Item>,
    m1: Map<Seq<char>, Item>,
    exe: Seq<char>,
    s: NotifySetting,
)
    requires
        notify_step(m, m1, exe, s),
        toml_doc::item_at(m, "notify"@) is Some,
    ensures
        m1 == m,
        !(s is Added),
{
}

} // verus!
