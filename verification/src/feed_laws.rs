//! What the feed shows of the notes that came.

use crate::feed;
use crate::feed::{age_label, base_name, drop_entry, trim_back, where_label, Feed, FeedItem, FeedView, Pending};
use crate::notify::{Kind, Note};
use crate::seqs;
use crate::text;
use vstd::prelude::*;

verus! {

proof fn lemma_dropped(pending: Seq<Pending>, key: (Seq<char>, Seq<char>))
    ensures
        forall|p: Pending| #[trigger]
            drop_entry(pending, key).contains(p) <==> pending.contains(p) && p.key() != key,
{
    seqs::lemma_drop_keeps(pending, |p: Pending| p.key() == key);
    let d = drop_entry(pending, key);
    assert forall|p: Pending| #[trigger] d.contains(p) implies pending.contains(p) && p.key()
        != key by {
        let k = choose|k: int| 0 <= k < d.len() && d[k] == p;
        assert(d[k] == p);
    }
}

/// A raised note stands in the feed as it came, with the time of its arrival; what waits of other
/// sessions keeps waiting, and an older note of its own session is gone. The feed opens if nothing
/// waited, and stays as it was otherwise.
pub proof fn raised_notes_stand_in_the_feed(f: FeedView, n: Note, now: u64)
    requires
        n.kind == Kind::Raise,
    ensures
        ({
            let g = f.noted(n, now);
            let e = g.pending.last();
            &&& g.pending.len() > 0
            &&& e.host@ == n.host@ && e.session@ == n.session@ && e.tool == n.tool
            &&& e.message@ == n.message@ && e.cwd@ == n.cwd@ && e.pane == n.pane
            &&& e.zellij == n.zellij && e.since == now
            &&& forall|p: Pending|
                p.key() != n.key() ==> (#[trigger] g.pending.contains(p) <==> f.pending.contains(p))
            &&& forall|p: Pending|
                p.key() == n.key() && #[trigger] g.pending.contains(p) ==> p == e
            &&& f.pending.len() == 0 ==> g.open
            &&& f.pending.len() > 0 ==> g.open == f.open
            &&& g.latched
        }),
{
    let g = f.noted(n, now);
    let rest = drop_entry(f.pending, n.key());
    lemma_dropped(f.pending, n.key());
    assert forall|p: Pending| p.key() != n.key() implies (#[trigger] g.pending.contains(p)
        <==> f.pending.contains(p)) by {
        if g.pending.contains(p) {
            let k = choose|k: int| 0 <= k < g.pending.len() && g.pending[k] == p;
            assert(rest[k] == p);
            assert(rest.contains(p));
        }
        if f.pending.contains(p) {
            assert(rest.contains(p));
            let k = choose|k: int| 0 <= k < rest.len() && rest[k] == p;
            assert(g.pending[k] == p);
        }
    }
    assert forall|p: Pending| p.key() == n.key() && #[trigger] g.pending.contains(p) implies p
        == g.pending.last() by {
        let k = choose|k: int| 0 <= k < g.pending.len() && g.pending[k] == p;
        if k < rest.len() {
            assert(rest[k] == p);
            assert(rest.contains(p));
        }
    }
}

/// A clearing note takes its session out and no other. The feed closes with the last.
pub proof fn clearing_takes_one_session(f: FeedView, n: Note, now: u64)
    requires
        n.kind == Kind::Clear,
    ensures
        forall|p: Pending| #[trigger]
            f.noted(n, now).pending.contains(p) <==> f.pending.contains(p) && p.key() != n.key(),
        f.noted(n, now).open <==> f.open && f.noted(n, now).pending.len() > 0,
        f.noted(n, now).latched == f.latched,
{
    lemma_dropped(f.pending, n.key());
}

/// Landing on a pane takes out what it raised and nothing else; where it raised nothing, nothing
/// changes.
pub proof fn visiting_takes_what_the_pane_raised(f: FeedView, pane: u64)
    ensures
        forall|p: Pending| #[trigger]
            f.visited(pane).pending.contains(p) <==> f.pending.contains(p) && p.pane != Some(pane),
        (forall|i: int| 0 <= i < f.pending.len() ==> (#[trigger] f.pending[i]).pane != Some(pane))
            ==> f.visited(pane) == f,
        f.visited(pane).open ==> f.open && f.visited(pane).pending.len() > 0 || f.visited(pane) == f,
        f.visited(pane).latched == f.latched,
{
    let gone = |p: Pending| p.pane == Some(pane);
    seqs::lemma_drop_keeps(f.pending, gone);
    let d = feed::drop_pane(f.pending, pane);
    if forall|i: int| 0 <= i < f.pending.len() ==> (#[trigger] f.pending[i]).pane != Some(pane) {
        seqs::lemma_drop_absent(f.pending, gone);
    }
    if d.len() == f.pending.len() {
        assert forall|i: int| 0 <= i < f.pending.len() implies (#[trigger] f.pending[i]).pane
            != Some(pane) by {
            if gone(f.pending[i]) {
                seqs::lemma_drop_shrinks(f.pending, gone, i);
            }
        }
        seqs::lemma_drop_absent(f.pending, gone);
    }
    assert forall|p: Pending| #[trigger] f.visited(pane).pending.contains(p) implies f.pending.contains(
        p,
    ) && p.pane != Some(pane) by {
        let k = choose|k: int| 0 <= k < d.len() && d[k] == p;
        assert(d[k] == p);
    }
}

/// A directory is called by the last part of its path, whether slashes follow it or not.
pub proof fn directories_go_by_their_last_part(dir: Seq<char>, name: Seq<char>)
    requires
        name.len() > 0,
        !name.contains('/'),
    ensures
        base_name(dir + seq!['/'] + name) == name,
        base_name(dir + seq!['/'] + name + seq!['/']) == name,
        base_name(name) == name,
{
    let p = dir + seq!['/'] + name;
    assert(name.contains(name.last()));
    assert(p.last() == name.last());
    assert(trim_back(p, '/') == p);
    assert(p =~= dir.push('/') + name);
    text::lemma_last_before(dir, '/', name);
    assert(p.skip(dir.len() as int + 1) =~= name);
    let q = p + seq!['/'];
    assert(q.drop_last() =~= p);
    reveal_with_fuel(trim_back, 2);
    assert(trim_back(q, '/') == p);
    text::lemma_no_last(name, '/');
    assert(trim_back(name, '/') == name);
}

/// A row says the host only where it is another one, then the directory, then the multiplexer's
/// session where there is one.
pub proof fn rows_say_where(host: Seq<char>, cwd: Seq<char>, session: Seq<char>)
    ensures
        where_label(seq![], cwd, None) == base_name(cwd),
        where_label("localhost"@, cwd, None) == base_name(cwd),
        host.len() > 0 && host != "localhost"@ ==> where_label(host, cwd, None) == host + seq![':']
            + base_name(cwd),
        session.len() > 0 ==> where_label(host, cwd, Some(session)) == where_label(host, cwd, None)
            + " · zellij:"@ + session,
        where_label(host, cwd, Some(seq![])) == where_label(host, cwd, None),
{
    reveal_strlit(":");
    assert(":"@ =~= seq![':']);
    assert(where_label(seq![], cwd, None) =~= base_name(cwd));
    assert(where_label("localhost"@, cwd, None) =~= base_name(cwd));
    let own = if host.len() == 0 || host == "localhost"@ {
        base_name(cwd)
    } else {
        host + ":"@ + base_name(cwd)
    };
    assert(where_label(host, cwd, None) =~= own);
    assert(where_label(host, cwd, Some(seq![])) =~= own);
    if session.len() > 0 {
        assert(where_label(host, cwd, Some(session)) =~= own + " · zellij:"@ + session);
    }
}

/// An age is given in whole seconds below a minute, in whole minutes below an hour, and in whole
/// hours from then on.
pub proof fn ages_are_whole(secs: nat)
    ensures
        ({
            let a = age_label(secs);
            let n = text::digits_value(a.drop_last());
            &&& a.len() > 1
            &&& text::all_digits(a.drop_last())
            &&& secs < 60 ==> a.last() == 's' && n == secs
            &&& 60 <= secs < 3600 ==> a.last() == 'm' && 60 * n <= secs < 60 * (n + 1)
            &&& secs >= 3600 ==> a.last() == 'h' && 3600 * n <= secs < 3600 * (n + 1)
        }),
{
    let m = if secs < 60 {
        secs
    } else if secs < 3600 {
        secs / 60
    } else {
        secs / 3600
    };
    text::decimal_round_trips(m);
    assert(age_label(secs).drop_last() =~= text::ascii(text::decimal(m)));
}

/// The rows are one for each entry, and each says what its entry does; its age is counted from when
/// it was raised.
pub proof fn rows_show_the_entries(f: Feed, now: u64, items: Vec<FeedItem>, i: int)
    requires
        call_ensures(Feed::items, (&f, now), items),
        0 <= i < items@.len(),
    ensures
        items@.len() == f@.pending.len(),
        ({
            let p = feed::newest_first(f@.pending)[i];
            let r = items@[i];
            &&& f@.pending.contains(p)
            &&& r.host@ == p.host@ && r.session@ == p.session@ && r.tool == p.tool && r.message@
                == p.message@ && r.pane == p.pane
            &&& now >= p.since ==> r.age@ == age_label(((now - p.since) / 1000) as nat)
        }),
{
    let n = feed::newest_first(f@.pending);
    feed::rows_are_newest_first(f@.pending);
    seqs::sorting_orders(f@.pending, |p: Pending| p.since as int);
    assert(feed::shows(items@[i], n[i], now));
    broadcast use vstd::seq_lib::group_to_multiset_ensures;

    assert(n.contains(n[i]));
    assert(n.to_multiset().count(n[i]) > 0);
    assert(f@.pending.to_multiset().count(n[i]) > 0);
}

/// A window begins with nothing waiting.
pub proof fn nothing_waits_at_first(f: Feed)
    requires
        call_ensures(Feed::new, (), f),
    ensures
        f@.pending.len() == 0,
        !f@.open,
        !f@.latched,
{
}

/// The feed opens and closes as asked, and is put away with its bar; who waits goes on waiting.
pub proof fn the_feed_opens_and_closes(f: &mut Feed, g: &mut Feed, open: bool, out: ())
    requires
        call_ensures(Feed::show, (f, open), out),
        call_ensures(Feed::put_away, (g,), out),
    ensures
        final(f)@.open == open,
        final(f)@.latched == old(f)@.latched,
        final(f)@.pending == old(f)@.pending,
        !final(g)@.open,
        !final(g)@.latched,
        final(g)@.pending == old(g)@.pending,
{
}

} // verus!
