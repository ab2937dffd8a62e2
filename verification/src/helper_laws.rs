//! What the helper tells of an event.

use crate::helper;
use crate::helper::{
    event_message, event_name_eq, event_session, host_name, member_text, normalized, payload_text,
    ssh_config_text, tells, Arg, Job, Options, Stamp,
};
use crate::json::Json;
use crate::notify::{Kind, Note, Tool, ToolNames};
use crate::text;
use vstd::prelude::*;

verus! {

/// A member's text counts where it is not empty.
pub proof fn members_with_text_count(m: Map<Seq<char>, Json>, key: Seq<char>, s: Seq<char>)
    requires
        m.contains_key(key),
        m[key] == Json::Text(s),
    ensures
        s.len() > 0 ==> member_text(Json::Object(m), key) == Some(s),
        s.len() == 0 ==> member_text(Json::Object(m), key) is None,
{
}

/// Of several members the first with a text is taken.
pub proof fn the_first_text_is_taken(j: Json, keys: Seq<Seq<char>>, i: int)
    requires
        0 <= i < keys.len(),
        member_text(j, keys[i]) is Some,
        forall|k: int| 0 <= k < i ==> member_text(j, #[trigger] keys[k]) is None,
    ensures
        payload_text(j, keys) == member_text(j, keys[i]),
    decreases keys.len(),
{
    if i > 0 {
        let rest = keys.skip(1);
        assert(rest[i - 1] == keys[i]);
        assert forall|k: int| 0 <= k < i - 1 implies member_text(j, #[trigger] rest[k]) is None by {
            assert(rest[k] == keys[k + 1]);
        }
        assert(member_text(j, keys[0]) is None);
        the_first_text_is_taken(j, rest, i - 1);
    }
}

/// Where no member has a text there is none.
pub proof fn no_text_is_made_up(j: Json, keys: Seq<Seq<char>>)
    requires
        forall|k: int| 0 <= k < keys.len() ==> member_text(j, #[trigger] keys[k]) is None,
    ensures
        payload_text(j, keys) is None,
    decreases keys.len(),
{
    if keys.len() > 0 {
        let rest = keys.skip(1);
        assert forall|k: int| 0 <= k < rest.len() implies member_text(
            j,
            #[trigger] rest[k],
        ) is None by {
            assert(rest[k] == keys[k + 1]);
        }
        assert(member_text(j, keys[0]) is None);
        no_text_is_made_up(j, rest);
    }
}

/// A note says the event's own message where it has one, else its title, else its kind of
/// notification.
pub proof fn messages_are_the_events_own(j: Json)
    ensures
        member_text(j, "message"@) is Some ==> event_message(j) == member_text(j, "message"@)->0,
        member_text(j, "message"@) is None && member_text(j, "title"@) is Some ==> event_message(j)
            == member_text(j, "title"@)->0,
        member_text(j, "message"@) is None && member_text(j, "title"@) is None && member_text(
            j,
            "notification_type"@,
        ) is Some ==> event_message(j) == member_text(j, "notification_type"@)->0,
{
    let keys = seq!["message"@, "title"@, "notification_type"@];
    if member_text(j, "message"@) is Some {
        the_first_text_is_taken(j, keys, 0);
    } else if member_text(j, "title"@) is Some {
        the_first_text_is_taken(j, keys, 1);
    } else if member_text(j, "notification_type"@) is Some {
        the_first_text_is_taken(j, keys, 2);
    }
}

/// An event without a message of its own: a request of permission says which tool needs approval, a
/// prompt that it was submitted, and any other its type, or that someone waits.
pub proof fn other_messages_are_made(j: Json, name: Seq<char>)
    requires
        member_text(j, "message"@) is None,
        member_text(j, "title"@) is None,
        member_text(j, "notification_type"@) is None,
        payload_text(j, helper::event_keys()) == Some(name),
    ensures
        normalized(name) == normalized("PermissionRequest"@) && member_text(j, "tool_name"@) is Some
            ==> event_message(j) == member_text(j, "tool_name"@)->0 + " approval needed"@,
        normalized(name) == normalized("PermissionRequest"@) && member_text(j, "tool_name"@) is None
            && member_text(j, "toolName"@) is None && member_text(j, "tool"@) is None
            ==> event_message(j) == "approval needed"@,
        normalized(name) == normalized("UserPromptSubmit"@) && normalized(name) != normalized(
            "PermissionRequest"@,
        ) ==> event_message(j) == "prompt submitted"@,
        normalized(name) != normalized("UserPromptSubmit"@) && normalized(name) != normalized(
            "PermissionRequest"@,
        ) && member_text(j, "type"@) is Some ==> event_message(j) == member_text(j, "type"@)->0,
        normalized(name) != normalized("UserPromptSubmit"@) && normalized(name) != normalized(
            "PermissionRequest"@,
        ) && member_text(j, "type"@) is None ==> event_message(j) == "waiting for you"@,
{
    let own = seq!["message"@, "title"@, "notification_type"@];
    assert forall|k: int| 0 <= k < own.len() implies member_text(j, #[trigger] own[k]) is None by {
        assert(k == 0 || k == 1 || k == 2);
    }
    no_text_is_made_up(j, own);
    let tools = seq!["tool_name"@, "toolName"@, "tool"@];
    if member_text(j, "tool_name"@) is Some {
        the_first_text_is_taken(j, tools, 0);
    } else if member_text(j, "toolName"@) is None && member_text(j, "tool"@) is None {
        assert forall|k: int| 0 <= k < tools.len() implies member_text(
            j,
            #[trigger] tools[k],
        ) is None by {
            assert(k == 0 || k == 1 || k == 2);
        }
        no_text_is_made_up(j, tools);
    }
    let kinds = seq!["type"@];
    if member_text(j, "type"@) is Some {
        the_first_text_is_taken(j, kinds, 0);
    } else {
        assert forall|k: int| 0 <= k < kinds.len() implies member_text(
            j,
            #[trigger] kinds[k],
        ) is None by {
            assert(k == 0);
        }
        no_text_is_made_up(j, kinds);
    }
}

/// A name in small ASCII letters is compared as it is, so that different names are different
/// events.
pub proof fn small_names_are_compared_as_they_are(s: Seq<char>)
    requires
        forall|i: int| 0 <= i < s.len() ==> 0x61 <= (#[trigger] s[i]) as u32 <= 0x7a,
    ensures
        normalized(s) == s,
    decreases s.len(),
{
    if s.len() > 0 {
        let p = s.drop_last();
        assert forall|i: int| 0 <= i < p.len() implies 0x61 <= (#[trigger] p[i]) as u32 <= 0x7a by {
            assert(p[i] == s[i]);
        }
        small_names_are_compared_as_they_are(p);
        assert(s.last() == s[s.len() - 1]);
        assert(helper::lowered(s.last()) == seq![s.last()]);
        assert(normalized(s) =~= s);
    } else {
        assert(normalized(s) =~= s);
    }
}

/// Two names are one event's exactly when they are alike but for their spelling.
pub proof fn names_are_compared_by_their_spelling(a: &str, b: &str, same: bool)
    requires
        call_ensures(event_name_eq, (a, b), same),
    ensures
        same <==> normalized(a@) == normalized(b@),
{
}

/// A session is known by the id that the event says; without one by its pane, and without a pane by
/// its host.
pub proof fn sessions_are_known_by_their_id(j: Json, pane: Option<u64>, host: Seq<char>)
    ensures
        member_text(j, "session_id"@) is Some ==> event_session(j, pane, host) == member_text(
            j,
            "session_id"@,
        )->0,
        member_text(j, "session_id"@) is None && member_text(j, "session"@) is Some
            ==> event_session(j, pane, host) == member_text(j, "session"@)->0,
        member_text(j, "session_id"@) is None && member_text(j, "session"@) is None && member_text(
            j,
            "id"@,
        ) is None ==> {
            &&& pane is Some ==> event_session(j, pane, host).take(5) == seq!['p', 'a', 'n', 'e', '-']
                && text::digits_value(event_session(j, pane, host).skip(5)) == pane->0
                && text::all_digits(event_session(j, pane, host).skip(5))
            &&& pane is None ==> event_session(j, pane, host) == host + "-unknown"@
        },
{
    let keys = seq!["session_id"@, "session"@, "id"@];
    if member_text(j, "session_id"@) is Some {
        the_first_text_is_taken(j, keys, 0);
    } else if member_text(j, "session"@) is Some {
        the_first_text_is_taken(j, keys, 1);
    } else if member_text(j, "id"@) is None {
        assert forall|k: int| 0 <= k < keys.len() implies member_text(
            j,
            #[trigger] keys[k],
        ) is None by {
            assert(k == 0 || k == 1 || k == 2);
        }
        no_text_is_made_up(j, keys);
        if let Some(p) = pane {
            reveal_strlit("pane-");
            let s = event_session(j, pane, host);
            text::decimal_round_trips(p as nat);
            assert(s.take(5) =~= seq!['p', 'a', 'n', 'e', '-']);
            assert(s.skip(5) =~= text::ascii(text::decimal(p as nat)));
        }
    }
}

/// A note carries what the helper knows of itself, in the first version of the schema; the
/// directory is the event's where it says one.
pub proof fn notes_carry_their_stamp(n: Note, j: Json, s: Stamp)
    requires
        tells(n, j, s),
    ensures
        n.v == 1,
        n.tool == s.tool,
        n.kind == s.kind,
        n.host@ == s.host@,
        n.pid == Some(s.pid),
        n.pane == s.pane,
        n.zellij == s.zellij,
        n.ts == s.ts,
        n.message@ == event_message(j),
        n.session@ == event_session(j, s.pane, s.host@),
        member_text(j, "cwd"@) is Some ==> n.cwd@ == member_text(j, "cwd"@)->0,
        member_text(j, "cwd"@) is None && s.dir is Some ==> n.cwd@ == s.dir->0@,
{
    let keys = seq!["cwd"@];
    if member_text(j, "cwd"@) is Some {
        the_first_text_is_taken(j, keys, 0);
    } else {
        assert forall|k: int| 0 <= k < keys.len() implies member_text(
            j,
            #[trigger] keys[k],
        ) is None by {
            assert(k == 0);
        }
        no_text_is_made_up(j, keys);
    }
}

/// The host is called as the environment says, else as the system's file does, else `localhost`.
pub proof fn hosts_are_called_by_the_environment(env: Seq<char>, file: Seq<char>)
    ensures
        env.len() > 0 ==> host_name(Some(env), Some(file)) == env && host_name(Some(env), None)
            == env,
        text::trim(file).len() > 0 ==> host_name(None, Some(file)) == text::trim(file) && host_name(
            Some(seq![]),
            Some(file),
        ) == text::trim(file),
        text::trim(file).len() == 0 ==> host_name(None, Some(file)) == "localhost"@,
        host_name(None, None) == "localhost"@,
{
}

/// A tool is known by the name that it goes by.
pub proof fn tools_are_known_by_their_names(names: ToolNames)
    requires
        names.claude@ != names.codex@,
    ensures
        names.called(Some(names.spelled(Tool::Claude))) == Tool::Claude,
        names.called(Some(names.spelled(Tool::Codex))) == Tool::Codex,
        names.called(None) == Tool::Other,
        forall|n: Seq<char>|
            n != names.claude@ && n != names.codex@ ==> #[trigger] names.called(Some(n))
                == Tool::Other,
{
}

/// An argument changes what it is about and nothing else.
pub proof fn arguments_say_one_thing(o: Options, names: ToolNames, t: Option<String>)
    ensures
        ({
            let c = o.taken(Arg::Clear, names);
            &&& c.kind == Kind::Clear
            &&& c == (Options { kind: c.kind, ..o })
        }),
        ({
            let c = o.taken(Arg::Tool(t), names);
            &&& t is Some && t->0@ == names.claude@ ==> c.tool == Tool::Claude
            &&& t is Some && t->0@ == names.codex@ && names.codex@ != names.claude@ ==> c.tool
                == Tool::Codex
            &&& c == (Options { tool: c.tool, ..o })
        }),
        o.taken(Arg::Install(t), names) == (Options { install: t, ..o }),
        o.taken(Arg::Value(t), names) == (Options { positional: t, ..o }),
        o.taken(Arg::Help, names).help,
        o.taken(Arg::PrintSshConfig, names).print_ssh,
        o.taken(Arg::PrintSshWrapper, names).print_wrapper,
        o.taken(Arg::Unknown, names) == o,
        o.taken(Arg::Help, names).kind == o.kind,
{
}

/// Without arguments a note is raised; help comes before all else, printing before installing, and
/// installing before sending.
pub proof fn jobs_come_in_order(o: Options, names: ToolNames, j: Job)
    requires
        call_ensures(Options::job, (o, &names), j),
    ensures
        o.help <==> j is Help,
        j is PrintSshConfig <==> !o.help && o.print_ssh,
        j is PrintSshWrapper <==> !o.help && !o.print_ssh && o.print_wrapper,
        j is Send <==> !o.help && !o.print_ssh && !o.print_wrapper && o.install is None,
        j matches Job::Send { payload } ==> payload == o.positional,
        j is InstallClaude ==> o.install is Some && o.install->0@ == names.claude@,
        j is InstallCodex ==> o.install is Some && o.install->0@ == names.codex@,
{
}

/// A helper without arguments raises.
pub proof fn helpers_raise_by_default(o: Options)
    requires
        call_ensures(Options::new, (), o),
    ensures
        o.kind == Kind::Raise,
        o.tool == Tool::Other,
        o.install is None,
        !o.help && !o.print_ssh && !o.print_wrapper,
{
}

/// The block to paste names the host, forwards the remote socket to the local one, and tells remote
/// shells of it.
pub proof fn blocks_forward_the_socket(host: Seq<char>, local: Seq<char>)
    ensures
        text::occurs(ssh_config_text(Some(host), local), "\nHost "@ + host + "\n    RemoteForward "@),
        text::occurs(
            ssh_config_text(Some(host), local),
            "\n    RemoteForward "@ + "/tmp/potty-notify.sock"@ + " "@ + local
                + "\n    SetEnv POTTY_NOTIFY="@ + "/tmp/potty-notify.sock"@,
        ),
{
    let t = ssh_config_text(Some(host), local);
    let head = "# ~/.ssh/config — forward potty's attention feed over SSH\nHost "@;
    reveal_strlit("# ~/.ssh/config — forward potty's attention feed over SSH\nHost ");
    reveal_strlit("\nHost ");
    let r = "/tmp/potty-notify.sock"@;
    let fwd = "\n    RemoteForward "@;
    let env = "\n    SetEnv POTTY_NOTIFY="@;
    let a = "\nHost "@ + host + fwd;
    let n = head.len() - 6;
    assert("\nHost "@.len() == 6);
    assert(head.subrange(n, n + 6) =~= "\nHost "@);
    assert(t.subrange(n, n + a.len()) =~= a) by {
        assert forall|k: int| 0 <= k < a.len() implies t.subrange(n, n + a.len())[k] == a[k] by {
            if k < 6 {
                assert(head.subrange(n, n + 6)[k] == a[k]);
            }
        }
    }
    assert(text::occurs_at(t, a, n));
    let b = fwd + r + " "@ + local + env + r;
    let m = (head.len() + host.len()) as int;
    assert(t.subrange(m, m + b.len()) =~= b);
    assert(text::occurs_at(t, b, m));
}

/// An event is called by the first of its members that may name it.
pub proof fn events_are_named_by_their_members(j: Json, i: int, name: Seq<char>)
    requires
        0 <= i < 6,
        ({
            let keys = seq![
                "hook_event_name"@,
                "hookEventName"@,
                "event_name"@,
                "eventName"@,
                "event"@,
                "type"@,
            ];
            &&& helper::member_text(j, keys[i]) is Some
            &&& forall|k: int| 0 <= k < i ==> helper::member_text(j, #[trigger] keys[k]) is None
        }),
    ensures
        ({
            let keys = seq![
                "hook_event_name"@,
                "hookEventName"@,
                "event_name"@,
                "eventName"@,
                "event"@,
                "type"@,
            ];
            helper::is_event(j, name) <==> helper::normalized(
                helper::member_text(j, keys[i])->0,
            ) == helper::normalized(name)
        }),
{
    let keys = seq![
        "hook_event_name"@,
        "hookEventName"@,
        "event_name"@,
        "eventName"@,
        "event"@,
        "type"@,
    ];
    assert(helper::event_keys() =~= keys);
    the_first_text_is_taken(j, keys, i);
}

/// The block names a host even where none is given, says how a remote shell finds the socket, and
/// warns of two sessions to the host.
pub proof fn blocks_say_what_the_host_needs(host: Seq<char>, local: Seq<char>)
    ensures
        ssh_config_text(None, local) == ssh_config_text(Some("your-remote-host"@), local),
        text::occurs(
            ssh_config_text(Some(host), local),
            "/tmp/potty-notify.sock"@ + " ] && export POTTY_NOTIFY="@ + "/tmp/potty-notify.sock"@
                + "\n#\n# NOTE: this fixed remote path collides if you open two sessions to "@
                + host,
        ),
{
    let t = ssh_config_text(Some(host), local);
    let r = "/tmp/potty-notify.sock"@;
    let part = r + " ] && export POTTY_NOTIFY="@ + r
        + "\n#\n# NOTE: this fixed remote path collides if you open two sessions to "@ + host;
    let end = " at once.\n# For that, use the per-pane wrapper instead:  potty-notify --print-ssh-wrapper\n"@;
    let n = t.len() - end.len() - part.len();
    assert(t.subrange(n, n + part.len()) =~= part);
    assert(text::occurs_at(t, part, n));
}

/// A target that is not known is named, with those that are.
pub proof fn unknown_targets_are_named(target: String, names: ToolNames, s: String)
    requires
        call_ensures(helper::unknown_target_text, (&target, &names), s),
    ensures
        text::occurs(s@, "'"@ + target@ + "' (use "@ + names.claude@ + "|"@ + names.codex@ + ")"@),
{
    reveal_strlit("potty-notify: unknown --install-hook target '");
    reveal_strlit("'");
    let part = "'"@ + target@ + "' (use "@ + names.claude@ + "|"@ + names.codex@ + ")"@;
    let n = s@.len() - part.len();
    assert(s@.subrange(n, n + part.len()) =~= part);
    assert(text::occurs_at(s@, part, n));
}

} // verus!
