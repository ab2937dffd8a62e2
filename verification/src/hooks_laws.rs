//! What the tools' settings hold once the helper is wired into them.

use crate::codex;
use crate::hooks;
use crate::hooks::{claude_result, claude_wired, clear_command, error_text, raise_command, HookErrorView};
use crate::json;
use crate::json::Json;
use crate::text;
use crate::toml_doc;
use crate::toml_doc::Toml;
use toml_edit::Item;
use vstd::prelude::*;

verus! {

/// The handlers of a group.
pub open spec fn handlers(g: Json) -> Option<Seq<Json>> {
    match json::json_field(g, "hooks"@) {
        Some(Json::List(hs)) => Some(hs),
        _ => None,
    }
}

/// A group that does one thing: run a command.
pub open spec fn runs_alone(g: Json, command: Seq<char>) -> bool {
    &&& handlers(g) matches Some(hs) && hs.len() == 1 && json::json_field(hs[0], "type"@) == Some(
        Json::Text("command"@),
    ) && json::json_field(hs[0], "command"@) == Some(Json::Text(command))
}

/// The groups of an event in the settings.
pub open spec fn groups_in(root: Json, event: Seq<char>) -> Option<Seq<Json>> {
    match json::json_field(root, "hooks"@) {
        Some(h) => match json::json_field(h, event) {
            Some(Json::List(gs)) => Some(gs),
            _ => None,
        },
        None => None,
    }
}

/// The commands are the helper's path, the tool's name behind `--tool`, and `--clear` for the one
/// that clears.
pub proof fn commands_are_spelled_out(exe: Seq<char>, tool: Seq<char>)
    ensures
        raise_command(exe, tool) == exe + " --tool "@ + tool,
        clear_command(exe, tool) == raise_command(exe, tool) + " --clear"@,
        raise_command(exe, tool) != clear_command(exe, tool),
{
    reveal_strlit(" --clear");
    assert(" --clear"@.len() == 8);
    assert(clear_command(exe, tool).len() == raise_command(exe, tool).len() + 8);
}

/// Installing adds, behind what is there, a group that raises a note on `Notification` and one that
/// clears it on `UserPromptSubmit`, each unless one runs the helper already. All other settings and
/// all other events stay.
pub proof fn installing_adds_what_is_missing(root: Json, exe: Seq<char>, tool: Seq<char>)
    requires
        claude_wired(root, exe, tool) is Ok,
    ensures
        ({
            let (after, raise, clear) = claude_wired(root, exe, tool)->Ok_0;
            let was = |e: Seq<char>|
                match groups_in(root, e) {
                    Some(gs) => gs,
                    None => Seq::<Json>::empty(),
                };
            &&& root is Object && after is Object
            &&& forall|k: Seq<char>|
                k != "hooks"@ ==> json::json_field(after, k) == #[trigger] json::json_field(root, k)
            &&& groups_in(after, "Notification"@) matches Some(gs) && if raise {
                gs.len() == was("Notification"@).len() + 1 && gs.drop_last() == was(
                    "Notification"@,
                ) && runs_alone(gs.last(), exe + " --tool "@ + tool)
            } else {
                gs == was("Notification"@)
            }
            &&& groups_in(after, "UserPromptSubmit"@) matches Some(gs) && if clear {
                gs.len() == was("UserPromptSubmit"@).len() + 1 && gs.drop_last() == was(
                    "UserPromptSubmit"@,
                ) && runs_alone(gs.last(), exe + " --tool "@ + tool + " --clear"@)
            } else {
                gs == was("UserPromptSubmit"@)
            }
            &&& raise == !hooks::event_wired(was("Notification"@))
            &&& clear == !hooks::event_wired(was("UserPromptSubmit"@))
        }),
{
    reveal_strlit("Notification");
    reveal_strlit("UserPromptSubmit");
    reveal_strlit("hooks");
    reveal_strlit("type");
    reveal_strlit("command");
    assert("type"@.len() == 4 && "command"@.len() == 7);
    assert("Notification"@.len() == 12 && "UserPromptSubmit"@.len() == 16);
    let m = root->Object_0;
    let h = hooks::settings_hooks(m)->0;
    let (raise, clear) = (raise_command(exe, tool), clear_command(exe, tool));
    let h1 = hooks::with_event(h, "Notification"@, raise)->0;
    let h2 = hooks::with_event(h1, "UserPromptSubmit"@, clear)->0;
    let a = hooks::event_groups(h, "Notification"@)->0;
    let b = hooks::event_groups(h, "UserPromptSubmit"@)->0;
    assert(hooks::event_groups(h1, "UserPromptSubmit"@) == Some(b));
    assert(h2["Notification"@] == Json::List(hooks::with_group(a, raise)));
    assert(a.push(hooks::new_group(raise)).drop_last() =~= a);
    assert(b.push(hooks::new_group(clear)).drop_last() =~= b);
    lemma_new_group(raise);
    lemma_new_group(clear);
    assert(m.contains_key("hooks"@) || a =~= Seq::<Json>::empty());
    assert(m.contains_key("hooks"@) || b =~= Seq::<Json>::empty());
}

proof fn lemma_new_group(command: Seq<char>)
    ensures
        runs_alone(hooks::new_group(command), command),
{
    reveal_strlit("type");
    reveal_strlit("command");
    assert("type"@.len() == 4 && "command"@.len() == 7);
}

/// Settings of another shape are refused, each by what is wrong with it; all others are accepted.
pub proof fn other_shapes_are_refused(root: Json, exe: Seq<char>, tool: Seq<char>)
    ensures
        ({
            let r = claude_wired(root, exe, tool);
            let h = json::json_field(root, "hooks"@);
            let bad = |e: Seq<char>|
                h matches Some(Json::Object(m)) && m.contains_key(e) && !(m[e] is List);
            &&& !(root is Object) ==> r == Err::<(Json, bool, bool), HookErrorView>(
                HookErrorView::NotAnObject,
            )
            &&& root is Object && h is Some && !(h->0 is Object) ==> r == Err::<
                (Json, bool, bool),
                HookErrorView,
            >(HookErrorView::HooksNotAnObject)
            &&& bad("Notification"@) ==> r == Err::<(Json, bool, bool), HookErrorView>(
                HookErrorView::EventNotAList("Notification"@),
            )
            &&& !bad("Notification"@) && bad("UserPromptSubmit"@) ==> r == Err::<
                (Json, bool, bool),
                HookErrorView,
            >(HookErrorView::EventNotAList("UserPromptSubmit"@))
            &&& root is Object && (h is None || h->0 is Object) && !bad("Notification"@) && !bad(
                "UserPromptSubmit"@,
            ) ==> r is Ok
        }),
{
    reveal_strlit("Notification");
    reveal_strlit("UserPromptSubmit");
    assert("Notification"@.len() == 12 && "UserPromptSubmit"@.len() == 16);
}

/// Settings are written exactly when something was added, with a line break at the end; a file that
/// is empty or missing counts as settings without anything.
pub proof fn settings_are_written_when_they_change(j: Json, exe: Seq<char>, tool: Seq<char>, t: Seq<char>)
    requires
        claude_wired(j, exe, tool) is Ok,
        json::json_pretty((claude_wired(j, exe, tool)->Ok_0).0) is Some,
    ensures
        ({
            let (after, raise, clear) = claude_wired(j, exe, tool)->Ok_0;
            let r = claude_result(Ok(j), exe, tool);
            &&& r is Ok
            &&& (r->Ok_0).1 == raise && (r->Ok_0).2 == clear
            &&& (r->Ok_0).0 is Some <==> raise || clear
            &&& (r->Ok_0).0 is Some ==> ((r->Ok_0).0->0).last() == '\n' && ((r->Ok_0).0->0).drop_last()
                == json::json_pretty(after)->0
        }),
        hooks::settings_of(None) == Ok::<Json, Seq<char>>(Json::Object(Map::empty())),
        text::trim(t).len() == 0 ==> hooks::settings_of(Some(t)) == hooks::settings_of(None),
        text::trim(t).len() > 0 ==> hooks::settings_of(Some(t)) == json::json_read(t),
{
    reveal_strlit("\n");
    let (after, raise, clear) = claude_wired(j, exe, tool)->Ok_0;
    let p = json::json_pretty(after)->0;
    assert((p + "\n"@).drop_last() =~= p);
    assert((p + "\n"@).last() == '\n');
}

/// The helper is known by its name anywhere in a command.
pub proof fn the_helper_is_known_by_its_name(a: Seq<char>, b: Seq<char>)
    ensures
        hooks::is_ours(a + "potty-notify"@ + b),
        hooks::is_ours(a) ==> exists|i: int|
            0 <= i && i + 12 <= a.len() && #[trigger] a.subrange(i, i + 12) == "potty-notify"@,
{
    reveal_strlit("potty-notify");
    let n = "potty-notify"@;
    assert(n.len() == 12);
    let s = a + n + b;
    assert(s.subrange(a.len() as int, (a.len() + n.len()) as int) =~= n);
    assert(text::occurs_at(s, n, a.len() as int));
    if hooks::is_ours(a) {
        let i = choose|i: int| #[trigger] text::occurs_at(a, n, i);
        assert(a.subrange(i, i + 12) == n);
    }
}

/// The group that is added to the other tool's configuration matches what was asked for and runs
/// the command, with ten seconds to do so.
pub proof fn added_groups_run_the_command(
    t: toml_edit::Table,
    matcher: Option<Seq<char>>,
    command: Seq<char>,
)
    requires
        codex::is_group(t, matcher, command),
    ensures
        ({
            let m = toml_doc::table_of(t);
            &&& matcher is Some ==> m.contains_key("matcher"@) && (m["matcher"@] matches Item::Value(
                v,
            ) && toml_doc::toml_value(v) == Toml::Text(matcher->0))
            &&& matcher is None ==> !m.contains_key("matcher"@)
            &&& m.contains_key("hooks"@) && (m["hooks"@] matches Item::ArrayOfTables(a)
                && toml_doc::tables_of(a).len() == 1 && (toml_doc::tables_of(a)[0] matches Item::Table(
                h,
            ) && {
                let k = toml_doc::table_of(h);
                &&& k["type"@] matches Item::Value(v) && toml_doc::toml_value(v) == Toml::Text(
                    "command"@,
                )
                &&& k["command"@] matches Item::Value(v) && toml_doc::toml_value(v) == Toml::Text(
                    command,
                )
                &&& k["timeout"@] matches Item::Value(v) && toml_doc::toml_value(v)
                    == Toml::Integer(10)
            }))
        }),
{
    reveal_strlit("matcher");
    reveal_strlit("hooks");
    assert("matcher"@.len() == 7 && "hooks"@.len() == 5);
}

/// What is run when a turn is finished is the helper, told of the tool; it is set only where nothing
/// is set.
pub proof fn finished_turns_run_the_helper(
    m: Map<Seq<char>, Item>,
    m1: Map<Seq<char>, Item>,
    exe: Seq<char>,
    s: codex::NotifySetting,
)
    requires
        codex::notify_step(m, m1, exe, s),
    ensures
        toml_doc::item_at(m, "notify"@) is None ==> m1.contains_key("notify"@) && (m1["notify"@]
            matches Item::Value(v) && toml_doc::toml_value(v) == Toml::Texts(
            seq![exe, "--tool"@, "codex"@],
        )),
        toml_doc::item_at(m, "notify"@) is Some ==> m1 == m,
        forall|k: Seq<char>|
            k != "notify"@ ==> (#[trigger] m1.contains_key(k) == m.contains_key(k)) && (
            m.contains_key(k) ==> m1[k] == m[k]),
{
    assert forall|k: Seq<char>| k != "notify"@ implies (#[trigger] m1.contains_key(k)
        == m.contains_key(k)) && (m.contains_key(k) ==> m1[k] == m[k]) by {
        if toml_doc::item_at(m, "notify"@) is None {
            assert(m1.remove("notify"@).contains_key(k) == m1.contains_key(k));
            assert(m.remove("notify"@).contains_key(k) == m.contains_key(k));
            if m.contains_key(k) {
                assert(m1.remove("notify"@)[k] == m1[k]);
                assert(m.remove("notify"@)[k] == m[k]);
            }
        }
    }
}

/// Wiring asks for permission to be noted on every tool, and for prompts to clear it.
pub proof fn both_events_are_wired(
    m: Map<Seq<char>, Item>,
    m1: Map<Seq<char>, Item>,
    m2: Map<Seq<char>, Item>,
    m3: Map<Seq<char>, Item>,
    exe: Seq<char>,
    i: codex::CodexInstalled,
)
    requires
        codex::codex_steps(m, m1, m2, m3, exe, i),
    ensures
        i.raise_added ==> (codex::event_groups(m2, "PermissionRequest"@).last() matches Item::Table(
            t,
        ) && codex::is_group(t, Some("*"@), exe + " --tool "@ + "codex"@)),
        i.clear_added ==> (codex::event_groups(m3, "UserPromptSubmit"@).last() matches Item::Table(
            t,
        ) && codex::is_group(t, None, exe + " --tool "@ + "codex"@ + " --clear"@)),
        !i.raise_added ==> codex::any_group_wired(codex::event_groups(m2, "PermissionRequest"@)),
        !i.clear_added ==> codex::any_group_wired(codex::event_groups(m3, "UserPromptSubmit"@)),
        codex::changed(i) <==> i.notify is Added || i.raise_added || i.clear_added,
{
}

/// Every error names what it is about.
pub proof fn errors_name_what_is_wrong(path: Seq<char>, m: Seq<char>)
    ensures
        error_text(HookErrorView::NotJson(m), path) == path + " is not valid JSON: "@ + m,
        error_text(HookErrorView::NotToml(m), path) == path + " is not valid TOML: "@ + m,
        error_text(HookErrorView::NotAnObject, path) == path + " is not a JSON object"@,
        error_text(HookErrorView::EventNotAList(m), path) == "`hooks."@ + m + "` is not an array"@,
        error_text(HookErrorView::EventNotTables(m), path) == "`hooks."@ + m
            + "` in config.toml is not an array of tables"@,
{
}

/// A group that lists a handler with a command of the helper.
pub open spec fn lists_helper(g: Json) -> bool {
    json::json_field(g, "hooks"@) matches Some(Json::List(hs)) && exists|j: int|
        0 <= j < hs.len() && (json::json_field(#[trigger] hs[j], "command"@) matches Some(
            Json::Text(c),
        ) && text::occurs(c, "potty-notify"@))
}

/// An event runs the helper where one of its groups lists a handler with a command of the helper;
/// a group without handlers, or with those of others, does not count.
pub proof fn wired_events_run_the_helper(groups: Seq<Json>)
    ensures
        hooks::event_wired(groups) <==> exists|i: int|
            0 <= i < groups.len() && lists_helper(#[trigger] groups[i]),
{
    assert forall|i: int| 0 <= i < groups.len() implies hooks::group_wired(#[trigger] groups[i])
        == lists_helper(groups[i]) by {
        if let Some(Json::List(hs)) = json::json_field(groups[i], "hooks"@) {
            if hooks::any_wired(hs) {
                let j = choose|j: int| 0 <= j < hs.len() && hooks::handler_wired(#[trigger] hs[j]);
                assert(json::json_field(hs[j], "command"@) is Some);
            }
            if lists_helper(groups[i]) {
                let j = choose|j: int|
                    0 <= j < hs.len() && (json::json_field(#[trigger] hs[j], "command"@)
                        matches Some(Json::Text(c)) && text::occurs(c, "potty-notify"@));
                assert(hooks::handler_wired(hs[j]));
            }
        }
    }
}

/// A group of a configuration runs the helper where its tables of handlers have one whose command
/// is of the helper.
pub proof fn wired_tables_run_the_helper(t: toml_edit::Table)
    ensures
        codex::group_wired(t) ==> {
            let m = toml_doc::table_of(t);
            m.contains_key("hooks"@) && (m["hooks"@] matches Item::ArrayOfTables(a) && exists|i: int|
                0 <= i < toml_doc::tables_of(a).len() && (#[trigger] toml_doc::tables_of(a)[i]
                    matches Item::Table(h) && helper_runs(h)))
        },
        toml_doc::table_of(t).contains_key("hooks"@) && (toml_doc::table_of(t)["hooks"@]
            matches Item::ArrayOfTables(a) && exists|i: int|
            0 <= i < toml_doc::tables_of(a).len() && (#[trigger] toml_doc::tables_of(a)[i]
                matches Item::Table(h) && helper_runs(h))) ==> codex::group_wired(t),
{
    let m = toml_doc::table_of(t);
    if m.contains_key("hooks"@) {
        if let Item::ArrayOfTables(a) = m["hooks"@] {
            let hs = toml_doc::tables_of(a);
            if codex::group_wired(t) {
                let i = choose|i: int|
                    0 <= i < hs.len() && (#[trigger] hs[i]) is Table && codex::handler_wired(
                        toml_doc::table_in(hs[i])->0,
                    );
                assert(helper_runs(toml_doc::table_in(hs[i])->0));
                assert(toml_doc::tables_of(a)[i] == hs[i]);
            }
            if exists|i: int|
                0 <= i < hs.len() && (#[trigger] hs[i] matches Item::Table(h) && helper_runs(h)) {
                let i = choose|i: int|
                    0 <= i < hs.len() && (#[trigger] hs[i] matches Item::Table(h) && helper_runs(
                        h,
                    ));
                assert(codex::handler_wired(toml_doc::table_in(hs[i])->0));
                assert(codex::any_handler_wired(hs));
            }
        }
    }
}

/// A handler of a configuration whose command names the helper.
pub open spec fn helper_runs(h: toml_edit::Table) -> bool {
    let k = toml_doc::table_of(h);
    k.contains_key("command"@) && (k["command"@] matches Item::Value(v) && toml_doc::toml_value(v)
        is Text && text::occurs(toml_doc::toml_value(v)->Text_0, "potty-notify"@))
}

/// Installing leaves what stands in a configuration where it stands, named as it is named: a table
/// gains one name at most, behind the others, and where no hook was added nothing changes.
pub proof fn installing_keeps_the_layout(
    before: toml_edit::Table,
    after: toml_edit::Table,
    event: Seq<char>,
    added: bool,
    t: toml_edit::Table,
    u: toml_edit::Table,
)
    requires
        codex::hook_layout(before, after, event, added),
        toml_doc::table_of(before).contains_key("hooks"@),
        toml_doc::table_of(before)["hooks"@] == Item::Table(t),
        toml_doc::table_of(after).contains_key("hooks"@),
        toml_doc::table_of(after)["hooks"@] == Item::Table(u),
    ensures
        !added ==> after == before,
        toml_doc::table_frame(after) == toml_doc::table_frame(before),
        toml_doc::table_layout(after) == toml_doc::table_layout(before),
        toml_doc::table_frame(u) == toml_doc::table_frame(t),
        toml_doc::table_of(t).contains_key(event) ==> toml_doc::table_layout(u)
            == toml_doc::table_layout(t),
        added && !toml_doc::table_of(t).contains_key(event) ==> toml_doc::table_layout(u).len()
            == toml_doc::table_layout(t).len() + 1 && toml_doc::table_layout(u).drop_last()
            == toml_doc::table_layout(t) && toml_doc::table_layout(u).last().0 == event,
{
}

/// A configuration that is no TOML, or whose hooks have another shape, is refused with what is
/// wrong; every other one is wired up, and written out where that changed it.
pub proof fn configurations_are_wired_or_refused(
    config: &str,
    exe: &str,
    r: Result<codex::CodexInstalled, hooks::HookError>,
)
    requires
        call_ensures(codex::install_codex, (config, exe), r),
    ensures
        toml_doc::toml_read(config@) matches Err(m) ==> (r matches Err(e) && e@
            == HookErrorView::NotToml(m)),
        toml_doc::toml_read(config@) matches Ok(d) ==> {
            let m = toml_doc::doc_items(d);
            let shaped = |k: Seq<char>|
                m.contains_key("hooks"@) && m["hooks"@] is Table && (toml_doc::table_of(
                    toml_doc::table_in(m["hooks"@])->0,
                ).contains_key(k) ==> toml_doc::table_of(
                    toml_doc::table_in(m["hooks"@])->0,
                )[k] is ArrayOfTables);
            &&& m.contains_key("hooks"@) && !(m["hooks"@] is Table) ==> (r matches Err(e) && e@
                == HookErrorView::HooksNotATable)
            &&& !m.contains_key("hooks"@) ==> r is Ok
            &&& shaped("PermissionRequest"@) && shaped("UserPromptSubmit"@) ==> r is Ok
            &&& r matches Ok(i) ==> (i.contents is Some <==> i.notify is Added || i.raise_added
                || i.clear_added)
        },
{
}

/// The setting that reports finished turns comes behind the others where it is new; nothing else is
/// written otherwise.
pub proof fn the_setting_comes_last(
    before: toml_edit::Table,
    after: toml_edit::Table,
    s: codex::NotifySetting,
    i: int,
)
    requires
        codex::notify_layout(before, after, s),
        0 <= i < toml_doc::table_layout(before).len(),
    ensures
        !(s is Added) ==> after == before,
        toml_doc::table_frame(after) == toml_doc::table_frame(before),
        toml_doc::table_layout(before)[i].0 != "notify"@ ==> toml_doc::table_layout(after)[i]
            == toml_doc::table_layout(before)[i],
        toml_doc::table_layout(after)[i].0 == toml_doc::table_layout(before)[i].0,
        s is Added && !toml_doc::table_of(before).contains_key("notify"@)
            ==> toml_doc::table_layout(after).len() == toml_doc::table_layout(before).len() + 1
            && toml_doc::table_layout(after).last().0 == "notify"@,
{
    let (b, a) = (toml_doc::table_layout(before), toml_doc::table_layout(after));
    if s is Added && !toml_doc::table_of(before).contains_key("notify"@) {
        assert(a.drop_last()[i] == b[i]);
    }
}

} // verus!
