//! Whom a connection trusts, what it tries in turn, and what plain shells are told.

use crate::proto::{ControlView, PaneId};
use crate::remote;
use crate::remote::{
    ending_text, greeted_by, host_key_status, judge_host_key, plain_from, port_of, question,
    shell_actions, shells_after, verdict, ConnectEnv, HostKeyStatus, KnownHost, Ladder, LadderView,
    OutcomeView, ShellActionView, ShellFrame, SshConfig, Step, Verdict,
};
use crate::text;
use vstd::prelude::*;

verus! {

/// A key that is recorded is trusted without a question. Any other is trusted only if the user
/// says so, who hears whether it is new or another one than before; it is then recorded.
pub proof fn unknown_keys_need_the_users_word(known: KnownHost)
    ensures
        verdict(KnownHost::Matches, true) == Verdict::Trusted,
        verdict(KnownHost::Matches, false) == Verdict::Trusted,
        known != KnownHost::Matches ==> verdict(known, false) == Verdict::Refused,
        known != KnownHost::Matches ==> verdict(known, true) == Verdict::Learn,
        question(known) is None <==> known == KnownHost::Matches,
        question(known) == Some(HostKeyStatus::Changed) <==> known == KnownHost::Changed,
{
}

/// The questions and verdicts that are given are these.
pub proof fn verdicts_are_given(known: KnownHost, accepted: bool, s: Option<HostKeyStatus>, v: Verdict)
    requires
        call_ensures(host_key_status, (known,), s),
        call_ensures(judge_host_key, (known, accepted), v),
    ensures
        s is None <==> known == KnownHost::Matches,
        v == Verdict::Refused <==> known != KnownHost::Matches && !accepted,
        v == Verdict::Learn <==> known != KnownHost::Matches && accepted,
{
}

/// A port is read as it is written, and is 22 where none is written or it is none.
pub proof fn ports_are_read(s: Seq<char>)
    ensures
        s.len() > 0 && text::all_digits(s) && text::digits_value(s) <= 65535 && s[0] != '+'
            ==> port_of(Some(s)) == text::digits_value(s),
        text::all_digits(s) && text::digits_value(s) > 65535 && (s.len() == 0 || s[0] != '+')
            ==> port_of(Some(s)) == 22,
        port_of(Some(Seq::<char>::empty())) == 22,
        port_of(None) == 22,
{
}

/// The connection that the environment asks for is the one that is made.
pub proof fn the_environment_is_followed(e: ConnectEnv, c: SshConfig)
    requires
        call_ensures(SshConfig::from_env, (e,), c),
    ensures
        c.host@ == e.host@,
        e.user is Some ==> c.user@ == e.user->0@,
        e.port is None ==> c.port == 22,
        e.key is Some ==> c.keys@ == seq![e.key->0],
        e.key is None ==> c.keys@.len() == 0,
        c.known_hosts == e.known_hosts,
        c.use_agent == e.use_agent,
{
}

/// A ladder begins with the agent where that is wanted, else with the key files, else with
/// questions and answers.
pub proof fn ladders_begin_at_their_foot(agent: bool, keys: usize, l: Ladder)
    requires
        call_ensures(Ladder::new, (agent, keys), l),
    ensures
        agent ==> l@.step == Step::Agent,
        !agent && keys > 0 ==> l@.step == Step::KeysConnect,
        !agent && keys == 0 ==> l@.step == Step::InteractiveConnect,
        l@.keys == keys,
{
}

/// Key files are tried in their order: one that can be read is offered, one that is locked is
/// unlocked with its own passphrase and then offered, and one that does not get through is followed
/// by the next, or behind the last by questions and answers.
pub proof fn key_files_are_tried_in_turn(l: LadderView, key: usize, o: OutcomeView)
    requires
        key < l.keys,
    ensures
        ({
            let at = |s: Step| LadderView { step: s, ..l };
            let next = if key + 1 < l.keys {
                Step::KeyLoad { key: (key + 1) as usize }
            } else {
                Step::InteractiveConnect
            };
            &&& at(Step::KeysConnect).after(OutcomeView::Done) == Step::KeyLoad { key: 0 }
            &&& at(Step::KeyLoad { key }).after(OutcomeView::Done) == Step::KeyOffer { key }
            &&& at(Step::KeyLoad { key }).after(OutcomeView::Locked) == Step::KeyAsk { key }
            &&& at(Step::KeyLoad { key }).after(OutcomeView::Failed) == next
            &&& at(Step::KeyAsk { key }).after(OutcomeView::Done) == Step::KeyUnlock { key }
            &&& at(Step::KeyAsk { key }).after(OutcomeView::Failed) == next
            &&& at(Step::KeyUnlock { key }).after(OutcomeView::Done) == Step::KeyOffer { key }
            &&& at(Step::KeyUnlock { key }).after(OutcomeView::Failed) == next
            &&& at(Step::KeyOffer { key }).after(OutcomeView::Done) == Step::Accepted
            &&& !(o is Done) ==> at(Step::KeyOffer { key }).after(o) == next
        }),
{
}

/// The agent's plain keys are offered from the first on; what the agent cannot do is left for the
/// key files.
pub proof fn the_agent_is_asked_first(l: LadderView, ids: Seq<bool>, k: int)
    requires
        ids.len() <= usize::MAX,
        0 <= k < ids.len(),
        ids[k],
        forall|j: int| 0 <= j < k ==> !#[trigger] ids[j],
    ensures
        ({
            let at = |s: Step| LadderView { step: s, ..l };
            let files = if l.keys > 0 {
                Step::KeysConnect
            } else {
                Step::InteractiveConnect
            };
            &&& at(Step::Agent).after(OutcomeView::Done) == Step::AgentConnect
            &&& at(Step::Agent).after(OutcomeView::Failed) == files
            &&& at(Step::AgentConnect).after(OutcomeView::Done) == Step::AgentList
            &&& at(Step::AgentConnect).after(OutcomeView::Failed) == Step::Unreachable
            &&& at(Step::AgentList).after(OutcomeView::Identities(ids)) == Step::AgentOffer {
                id: k as usize,
            }
            &&& at(Step::AgentList).stepped(OutcomeView::Identities(ids)).ids == ids
            &&& at(Step::AgentList).after(OutcomeView::Failed) == files
            &&& at(Step::AgentOffer { id: k as usize }).after(OutcomeView::Done) == Step::Accepted
            &&& at(Step::AgentOffer { id: k as usize }).after(OutcomeView::Lost) == files
        }),
{
    lemma_plain(ids, 0, k);
}

proof fn lemma_plain(ids: Seq<bool>, i: int, k: int)
    requires
        0 <= i <= k < ids.len(),
        ids[k],
        forall|j: int| i <= j < k ==> !#[trigger] ids[j],
    ensures
        plain_from(ids, i) == Some(k),
    decreases k - i,
{
    if i < k {
        assert(!ids[i]);
        lemma_plain(ids, i + 1, k);
    }
}

/// Questions are answered until the server is content or gives up; then the password is tried, once.
pub proof fn questions_come_before_the_password(l: LadderView, o: OutcomeView)
    ensures
        ({
            let at = |s: Step| LadderView { step: s, ..l };
            &&& at(Step::InteractiveConnect).after(OutcomeView::Done) == Step::Interactive
            &&& at(Step::Interactive).after(OutcomeView::Questions) == Step::InteractiveAnswer
            &&& at(Step::InteractiveAnswer).after(OutcomeView::Done) == Step::Interactive
            &&& at(Step::Interactive).after(OutcomeView::Done) == Step::Accepted
            &&& at(Step::Interactive).after(OutcomeView::Failed) == Step::PasswordAsk
            &&& at(Step::InteractiveAnswer).after(OutcomeView::Failed) == Step::PasswordAsk
            &&& at(Step::PasswordAsk).after(OutcomeView::Done) == Step::PasswordConnect
            &&& at(Step::PasswordConnect).after(OutcomeView::Done) == Step::PasswordTry
            &&& at(Step::PasswordTry).after(OutcomeView::Done) == Step::Accepted
            &&& !(o is Done) ==> at(Step::PasswordTry).after(o) == Step::Exhausted && at(
                Step::PasswordAsk,
            ).after(o) == Step::Exhausted
            &&& at(Step::Accepted).after(o) == Step::Accepted
            &&& at(Step::Exhausted).after(o) == Step::Exhausted
            &&& at(Step::Unreachable).after(o) == Step::Unreachable
        }),
{
}

/// A plain shell is opened in the size asked for; a greeting is answered by a daemon without panes.
/// Input, sizes and ends go to the pane that they are for, if it has a shell, and to no other.
pub proof fn frames_reach_their_shell(panes: Seq<PaneId>, f: ShellFrame, pane: PaneId)
    ensures
        ({
            let a = shell_actions(panes, f);
            match f {
                ShellFrame::Data { pane: p, bytes } => if panes.contains(p) {
                    a == seq![ShellActionView::Write { pane: p, bytes: bytes@ }]
                } else {
                    a.len() == 0
                },
                ShellFrame::Control(c) => match c@ {
                    ControlView::Hello { .. } => a == seq![
                        ShellActionView::Reply(ControlView::Welcome { version: 2, client: 0 }),
                        ShellActionView::Reply(ControlView::Ready),
                    ],
                    ControlView::Open { pane: p, cols, rows, .. } => a == seq![
                        ShellActionView::Open { pane: p, cols, rows },
                    ],
                    ControlView::Resize { pane: p, cols, rows } => if panes.contains(p) {
                        a == seq![ShellActionView::Resize { pane: p, cols, rows }]
                    } else {
                        a.len() == 0
                    },
                    ControlView::Close { pane: p } => if panes.contains(p) {
                        a == seq![ShellActionView::Close { pane: p }]
                    } else {
                        a.len() == 0
                    },
                    _ => a.len() == 0,
                },
            }
        }),
        shells_after(panes, f).contains(pane) <==> panes.contains(pane) && !(f
            matches ShellFrame::Control(c) && c@ == (ControlView::Close { pane })),
{
    if let ShellFrame::Control(c) = f {
        if let ControlView::Close { pane: p } = c@ {
            lemma_without(panes, p);
        }
    }
}

proof fn lemma_without(panes: Seq<PaneId>, pane: PaneId)
    ensures
        forall|x: PaneId| #[trigger]
            remote::without(panes, pane).contains(x) <==> panes.contains(x) && x != pane,
    decreases panes.len(),
{
    let d = remote::without(panes, pane);
    if panes.len() > 0 {
        let front = panes.drop_last();
        let last = panes.last();
        lemma_without(front, pane);
        let e = remote::without(front, pane);
        assert(d == if last == pane {
            e
        } else {
            e.push(last)
        });
        assert(panes =~= front.push(last));
        assert forall|x: PaneId| #[trigger] d.contains(x) <==> panes.contains(x) && x != pane by {
            if panes.contains(x) && x != pane {
                let k = choose|k: int| 0 <= k < panes.len() && panes[k] == x;
                if k < front.len() {
                    assert(front[k] == x);
                    assert(e.contains(x));
                    let j = choose|j: int| 0 <= j < e.len() && e[j] == x;
                    assert(d[j] == x);
                } else {
                    assert(d[e.len() as int] == x);
                }
            }
            if d.contains(x) {
                let k = choose|k: int| 0 <= k < d.len() && d[k] == x;
                if k < e.len() {
                    assert(e[k] == x);
                    assert(e.contains(x));
                    let j = choose|j: int| 0 <= j < front.len() && front[j] == x;
                    assert(panes[j] == x);
                } else {
                    assert(panes[panes.len() - 1] == x);
                }
            }
        }
    }
}

/// What is said of a stream that ended begins with its host, and ends with what the remote program
/// said of it where it never got as far as a greeting.
pub proof fn endings_say_why(host: Seq<char>, detail: Seq<char>)
    ensures
        ending_text(host, true, detail) == host + ": remote session disconnected"@,
        detail.len() > 0 ==> ending_text(host, false, detail).take(host.len() as int) == host
            && ending_text(host, false, detail).skip(
            ending_text(host, false, detail).len() - detail.len(),
        ) == detail,
        ending_text(host, false, Seq::<char>::empty()).take(host.len() as int) == host,
        ending_text(host, false, detail) != ending_text(host, true, detail) || detail.len() > 0,
{
    let t = ending_text(host, false, detail);
    assert(t.take(host.len() as int) =~= host);
    if detail.len() > 0 {
        assert(t.skip(t.len() - detail.len()) =~= detail);
    }
    assert(ending_text(host, false, Seq::<char>::empty()).take(host.len() as int) =~= host);
    if detail.len() == 0 {
        reveal_strlit(": remote session disconnected");
        reveal_strlit(
            ": the session ended before it started — is `potty-session` installed and on PATH on the host? (set `remote_command` in the config to its path if so)",
        );
        let a = ": remote session disconnected"@;
        let b =
            ": the session ended before it started — is `potty-session` installed and on PATH on the host? (set `remote_command` in the config to its path if so)"@;
        assert(a.len() != b.len());
        assert(t.len() == host.len() + b.len());
    }
}

/// A stream is greeted by a welcome, and stays so.
pub proof fn greetings_last(greeted: bool, m: crate::proto::Control, b: bool)
    requires
        call_ensures(greeted_by, (greeted, &m), b),
    ensures
        greeted ==> b,
        m@ is Welcome ==> b,
        !greeted && !(m@ is Welcome) ==> !b,
{
}

/// The end of a shell is told under its own number.
pub proof fn ended_shells_are_told(s: remote::Shells, pane: PaneId, reply: crate::proto::Control)
    requires
        call_ensures(remote::Shells::ended, (&s, pane), reply),
    ensures
        reply matches crate::proto::Control::Exited { pane: p } && p == pane,
{
}

/// Complaints are kept from the first on, in their order, and no more than the cap in all.
pub proof fn complaints_are_kept_up_to_the_cap(kept: &mut Vec<u8>, data: &[u8], out: ())
    requires
        call_ensures(remote::capture, (kept, data), out),
        old(kept)@.len() <= 4096,
    ensures
        old(kept)@.len() + data@.len() <= 4096 ==> final(kept)@ == old(kept)@ + data@,
        old(kept)@.len() + data@.len() > 4096 ==> final(kept)@.len() == 4096 && final(kept)@
            == (old(kept)@ + data@).take(4096),
{
    assert(data@.take(data@.len() as int) =~= data@);
    if old(kept)@.len() + data@.len() > 4096 {
        assert(final(kept)@ =~= (old(kept)@ + data@).take(4096));
    }
}

/// A plain key is found where there is one, the first from the index on, and else none is.
pub proof fn plain_keys_are_found(ids: Seq<bool>, i: int)
    requires
        0 <= i <= ids.len(),
    ensures
        plain_from(ids, i) is None <==> forall|j: int| i <= j < ids.len() ==> !#[trigger] ids[j],
        plain_from(ids, i) matches Some(k) ==> i <= k < ids.len() && ids[k] && forall|j: int|
            i <= j < k ==> !#[trigger] ids[j],
    decreases ids.len() - i,
{
    if i < ids.len() && !ids[i] {
        plain_keys_are_found(ids, i + 1);
    }
}

} // verus!
