//! The attention feed: the sessions that wait for the user, and what the window shows of them.

use crate::notify::{Kind, Note, Tool, ZellijLoc};
use crate::seqs;
use crate::text;
use crate::text::{chars_of, find_last, push_number, string_of};
use vstd::prelude::*;
use vstd::slice::*;
use vstd::string::*;

verus! {

/// A session that waits for the user.
#[derive(Debug, PartialEq, Eq)]
pub struct Pending {
    pub host: String,
    pub session: String,
    pub tool: Tool,
    pub message: String,
    pub cwd: String,
    /// The pane it lives in, for an exact jump.
    pub pane: Option<u64>,
    pub zellij: Option<ZellijLoc>,
    /// When it was last raised, in milliseconds.
    pub since: u64,
}

/// The feed of one window.
#[derive(Debug, PartialEq, Eq)]
pub struct Feed {
    pub pending: Vec<Pending>,
    /// The overlay is shown.
    pub open: bool,
    /// A note has arrived: the tab bar, which hosts the bell, stays on.
    pub latched: bool,
}

/// A display-ready row of the feed.
#[derive(Debug, PartialEq, Eq)]
pub struct FeedItem {
    pub host: String,
    pub session: String,
    pub tool: Tool,
    /// Where: host (if remote), directory and multiplexer.
    pub label: String,
    pub message: String,
    /// For instance "12s", "4m", "2h".
    pub age: String,
    pub pane: Option<u64>,
}

impl Pending {
    pub open spec fn key(&self) -> (Seq<char>, Seq<char>) {
        (self.host@, self.session@)
    }
}

/// The entry that a note makes.
pub open spec fn entry(note: Note, now: u64) -> Pending {
    Pending {
        host: note.host,
        session: note.session,
        tool: note.tool,
        message: note.message,
        cwd: note.cwd,
        pane: note.pane,
        zellij: note.zellij,
        since: now,
    }
}

/// The entries about other sessions.
pub open spec fn drop_entry(pending: Seq<Pending>, key: (Seq<char>, Seq<char>)) -> Seq<Pending> {
    seqs::drop_where(pending, |p: Pending| p.key() == key)
}

/// The entries that other panes own.
pub open spec fn drop_pane(pending: Seq<Pending>, pane: u64) -> Seq<Pending> {
    seqs::drop_where(pending, |p: Pending| p.pane == Some(pane))
}

#[verifier::ext_equal]
pub struct FeedView {
    pub pending: Seq<Pending>,
    pub open: bool,
    pub latched: bool,
}

impl View for Feed {
    type V = FeedView;

    open spec fn view(&self) -> FeedView {
        FeedView { pending: self.pending@, open: self.open, latched: self.latched }
    }
}

impl FeedView {
    /// No session occurs twice.
    pub open spec fn wf(self) -> bool {
        forall|i: int, j: int|
            0 <= i < j < self.pending.len() ==> (#[trigger] self.pending[i]).key() != (
            #[trigger] self.pending[j]).key()
    }

    /// The feed with other entries. It closes when the last one goes.
    pub open spec fn left_with(self, pending: Seq<Pending>) -> FeedView {
        FeedView { pending, open: self.open && pending.len() > 0, latched: self.latched }
    }

    /// A note arrives. A fresh wave (nothing was waiting) opens the feed; later notes of a wave do
    /// not reopen it if the user has hidden it. A session raised again is updated in place of its
    /// old entry.
    pub open spec fn noted(self, note: Note, now: u64) -> FeedView {
        let rest = drop_entry(self.pending, note.key());
        match note.kind {
            Kind::Raise => FeedView {
                pending: rest.push(entry(note, now)),
                open: self.open || self.pending.len() == 0,
                latched: true,
            },
            Kind::Clear => self.left_with(rest),
        }
    }

    /// The user landed on a pane: what it raised no longer needs flagging.
    pub open spec fn visited(self, pane: u64) -> FeedView {
        let rest = drop_pane(self.pending, pane);
        if rest.len() == self.pending.len() {
            self
        } else {
            self.left_with(rest)
        }
    }
}

/// A text without the given character at its back.
pub open spec fn trim_back(s: Seq<char>, c: char) -> Seq<char>
    decreases s.len(),
{
    if s.len() > 0 && s.last() == c {
        trim_back(s.drop_last(), c)
    } else {
        s
    }
}

/// The last component of a path, or the path itself where it has none.
pub open spec fn base_name(path: Seq<char>) -> Seq<char> {
    let t = trim_back(path, '/');
    let base = match text::index_last(t, '/') {
        Some(i) => t.skip(i + 1),
        None => t,
    };
    if base.len() == 0 {
        path
    } else {
        base
    }
}

/// The "where" of a row: the host unless it is this one, the directory, and the multiplexer
/// session.
pub open spec fn where_label(
    host: Seq<char>,
    cwd: Seq<char>,
    session: Option<Seq<char>>,
) -> Seq<char> {
    (if host.len() == 0 || host == "localhost"@ {
        base_name(cwd)
    } else {
        host + ":"@ + base_name(cwd)
    }) + (match session {
        Some(s) => if s.len() == 0 {
            seq![]
        } else {
            " · zellij:"@ + s
        },
        None => seq![],
    })
}

/// A compact age: seconds under a minute, then minutes, then hours.
pub open spec fn age_label(secs: nat) -> Seq<char> {
    if secs < 60 {
        text::ascii(text::decimal(secs)).push('s')
    } else if secs < 3600 {
        text::ascii(text::decimal(secs / 60)).push('m')
    } else {
        text::ascii(text::decimal(secs / 3600)).push('h')
    }
}

/// The multiplexer session of an entry, if it has one.
pub open spec fn zellij_session(z: Option<ZellijLoc>) -> Option<Seq<char>> {
    match z {
        Some(loc) => match loc.session {
            Some(s) => Some(s@),
            None => None,
        },
        None => None,
    }
}

/// A row shows an entry as of `now`.
pub open spec fn shows(item: FeedItem, p: Pending, now: u64) -> bool {
    &&& item.host@ == p.host@
    &&& item.session@ == p.session@
    &&& item.tool == p.tool
    &&& item.label@ == where_label(p.host@, p.cwd@, zellij_session(p.zellij))
    &&& item.message@ == p.message@
    &&& item.age@ == age_label(
        if now >= p.since {
            ((now - p.since) / 1000) as nat
        } else {
            0
        },
    )
    &&& item.pane == p.pane
}

/// The entries, the last raised first.
pub open spec fn newest_first(pending: Seq<Pending>) -> Seq<Pending> {
    seqs::falling(pending, |p: Pending| p.since as int)
}

/// The last component of a path.
pub fn base_of(path: &str) -> (r: String)
    ensures
        r@ == base_name(path@),
{
    let cs = chars_of(path);
    let mut end: usize = cs.len();
    assert(cs@.take(end as int) =~= cs@);
    while end > 0 && cs[end - 1] == '/'
        invariant
            end <= cs@.len(),
            trim_back(cs@, '/') == trim_back(cs@.take(end as int), '/'),
        decreases end,
    {
        assert(cs@.take(end as int).drop_last() =~= cs@.take(end - 1));
        end = end - 1;
    }
    let t = slice_subrange(cs.as_slice(), 0, end);
    assert(t@ =~= trim_back(cs@, '/'));
    let base = match find_last(t, '/') {
        Some(i) => slice_subrange(t, i + 1, t.len()),
        None => t,
    };
    if base.len() == 0 {
        path.to_owned()
    } else {
        string_of(base)
    }
}

/// "Where" label for a feed row.
pub fn feed_label(host: &String, cwd: &String, zellij: &Option<ZellijLoc>) -> (s: String)
    ensures
        s@ == where_label(host@, cwd@, zellij_session(*zellij)),
{
    let dir = base_of(cwd.as_str());
    let local: bool = host.as_str().is_empty() || *host == "localhost".to_owned();
    let mut s = if local {
        dir
    } else {
        let mut t = host.clone();
        t.append(":");
        t.append(dir.as_str());
        t
    };
    let ghost place = s@;
    match zellij {
        Some(z) => match &z.session {
            Some(sess) => {
                if !sess.as_str().is_empty() {
                    s.append(" · zellij:");
                    s.append(sess.as_str());
                }
            },
            None => {},
        },
        None => {},
    }
    assert(s@ =~= where_label(host@, cwd@, zellij_session(*zellij)));
    s
}

/// Compact age label.
pub fn human_age(secs: u64) -> (s: String)
    ensures
        s@ == age_label(secs as nat),
{
    let mut s = String::new();
    if secs < 60 {
        push_number(&mut s, secs as u128);
        s.push('s');
    } else if secs < 3600 {
        push_number(&mut s, (secs / 60) as u128);
        s.push('m');
    } else {
        push_number(&mut s, (secs / 3600) as u128);
        s.push('h');
    }
    assert(s@ =~= age_label(secs as nat));
    s
}

impl Feed {
    /// Nothing waits, and the bar is not latched on.
    pub fn new() -> (f: Feed)
        ensures
            f@ == (FeedView { pending: seq![], open: false, latched: false }),
            f@.wf(),
    {
        Feed { pending: Vec::new(), open: false, latched: false }
    }

    fn forget(&mut self, host: &String, session: &String)
        requires
            old(self)@.wf(),
        ensures
            final(self)@ == (FeedView {
                pending: drop_entry(old(self)@.pending, (host@, session@)),
                ..old(self)@
            }),
            final(self)@.wf(),
            forall|i: int|
                0 <= i < final(self)@.pending.len() ==> (#[trigger] final(self)@.pending[i]).key()
                    != (host@, session@),
    {
        let ghost was = self@;
        let ghost key = (host@, session@);
        let mut i: usize = 0;
        while i < self.pending.len() && !(self.pending[i].host == *host && self.pending[i].session
            == *session)
            invariant
                i <= self.pending@.len(),
                self@ == was,
                key == (host@, session@),
                forall|k: int| 0 <= k < i ==> (#[trigger] was.pending[k]).key() != key,
            decreases self.pending.len() - i,
        {
            i = i + 1;
        }
        if i < self.pending.len() {
            self.pending.remove(i);
            proof {
                assert(was.pending[i as int].key() == key);
                seqs::lemma_drop_one(was.pending, |p: Pending| p.key() == key, i as int);
                assert(self@.pending =~= was.pending.remove(i as int));
            }
        } else {
            proof {
                seqs::lemma_drop_absent(was.pending, |p: Pending| p.key() == key);
            }
        }
    }

    /// Fold a note into the feed.
    pub fn on_note(&mut self, note: Note, now: u64)
        requires
            old(self)@.wf(),
        ensures
            final(self)@ == old(self)@.noted(note, now),
            final(self)@.wf(),
    {
        let was_empty: bool = self.pending.len() == 0;
        self.forget(&note.host, &note.session);
        match note.kind {
            Kind::Raise => {
                let ghost mid = self@;
                let Note { tool, session, message, cwd, host, pane, zellij, .. } = note;
                let p = Pending { host, session, tool, message, cwd, pane, zellij, since: now };
                self.pending.push(p);
                self.latched = true;
                if was_empty {
                    self.open = true;
                }
                assert(self@.pending =~= mid.pending.push(entry(note, now)));
            },
            Kind::Clear => {
                if self.pending.len() == 0 {
                    self.open = false;
                }
            },
        }
    }

    /// Dismiss one entry.
    pub fn dismiss(&mut self, host: &String, session: &String)
        requires
            old(self)@.wf(),
        ensures
            final(self)@ == old(self)@.left_with(
                drop_entry(old(self)@.pending, (host@, session@)),
            ),
            final(self)@.wf(),
    {
        self.forget(host, session);
        if self.pending.len() == 0 {
            self.open = false;
        }
    }

    /// Drop the entries that a pane owns. Returns whether there were any.
    pub fn clear_pending_for_pane(&mut self, pane: u64) -> (changed: bool)
        requires
            old(self)@.wf(),
        ensures
            final(self)@ == old(self)@.visited(pane),
            final(self)@.wf(),
            changed == (drop_pane(old(self)@.pending, pane).len() != old(self)@.pending.len()),
    {
        let ghost was = self@;
        let before: usize = self.pending.len();
        let mut i: usize = 0;
        let ghost mut k: int = 0;
        assert(was.pending.take(0) =~= seq![]);
        assert(self.pending@.skip(0) =~= was.pending.skip(0));
        assert(self.pending@.take(0) =~= drop_pane(was.pending.take(0), pane));
        while i < self.pending.len()
            invariant
                i <= self.pending@.len(),
                0 <= k <= was.pending.len(),
                self.open == was.open,
                self.latched == was.latched,
                self.pending@.len() - i == was.pending.len() - k,
                self.pending@.take(i as int) == drop_pane(was.pending.take(k), pane),
                self.pending@.skip(i as int) == was.pending.skip(k),
            decreases self.pending.len() - i,
        {
            let mine: bool = match self.pending[i].pane {
                Some(p) => p == pane,
                None => false,
            };
            let ghost now = self.pending@;
            proof {
                assert(now[i as int] == now.skip(i as int)[0]);
                assert(was.pending.skip(k)[0] == was.pending[k]);
                assert(was.pending.take(k + 1).drop_last() =~= was.pending.take(k));
                assert(was.pending.skip(k).skip(1) =~= was.pending.skip(k + 1));
                assert(now.skip(i as int).skip(1) =~= now.skip(i + 1));
            }
            if mine {
                self.pending.remove(i);
                assert(self.pending@.take(i as int) =~= now.take(i as int));
                assert(self.pending@.skip(i as int) =~= now.skip(i + 1));
            } else {
                i = i + 1;
                assert(self.pending@.take(i as int) =~= now.take(i - 1).push(now[i - 1]));
            }
            proof {
                k = k + 1;
            }
        }
        assert(self.pending@.take(i as int) =~= self.pending@);
        assert(was.pending.take(k) =~= was.pending);
        let changed: bool = self.pending.len() != before;
        proof {
            lemma_subset_unique(was.pending, pane);
            if !changed {
                lemma_none_dropped(was.pending, pane);
            }
        }
        if changed && self.pending.len() == 0 {
            self.open = false;
        }
        changed
    }

    /// Show or hide the overlay.
    pub fn show(&mut self, open: bool)
        ensures
            final(self)@ == (FeedView { open, ..old(self)@ }),
    {
        self.open = open;
    }

    /// Put the feed away: the tab bar is no longer latched on.
    pub fn put_away(&mut self)
        ensures
            final(self)@ == (FeedView { open: false, latched: false, ..old(self)@ }),
    {
        self.open = false;
        self.latched = false;
    }

    /// The display-ready rows, newest first.
    pub fn items(&self, now: u64) -> (items: Vec<FeedItem>)
        ensures
            items@.len() == self@.pending.len(),
            forall|i: int|
                0 <= i < items@.len() ==> shows(
                    #[trigger] items@[i],
                    newest_first(self@.pending)[i],
                    now,
                ),
    {
        let ghost key = |p: Pending| p.since as int;
        let mut order: Vec<usize> = Vec::new();
        let mut n: usize = 0;
        assert(self.pending@.take(0) =~= seq![]);
        assert(picked(self.pending@, order@) =~= newest_first(self.pending@.take(0)));
        while n < self.pending.len()
            invariant
                n <= self.pending@.len(),
                order@.len() == n,
                forall|i: int| 0 <= i < order@.len() ==> #[trigger] order@[i] < n,
                picked(self.pending@, order@) == newest_first(self.pending@.take(n as int)),
                key == (|p: Pending| p.since as int),
            decreases self.pending.len() - n,
        {
            let ghost sofar = picked(self.pending@, order@);
            let mut k: usize = order.len();
            while k > 0 && self.pending[order[k - 1]].since < self.pending[n].since
                invariant
                    n < self.pending@.len(),
                    k <= order@.len(),
                    order@.len() == n,
                    forall|i: int| 0 <= i < order@.len() ==> #[trigger] order@[i] < n,
                    sofar == picked(self.pending@, order@),
                    forall|i: int|
                        k <= i < order@.len() ==> (#[trigger] sofar[i]).since
                            < self.pending@[n as int].since,
                decreases k,
            {
                assert(sofar[k - 1] == self.pending@[order@[k - 1] as int]);
                k = k - 1;
            }
            proof {
                let x = self.pending@[n as int];
                if k > 0 {
                    assert(sofar[k - 1] == self.pending@[order@[k - 1] as int]);
                }
                seqs::lemma_insert_at(sofar, x, key, k as int);
                assert(self.pending@.take(n + 1).drop_last() =~= self.pending@.take(n as int));
            }
            let ghost was = order@;
            order.insert(k, n);
            n = n + 1;
            assert(picked(self.pending@, order@) =~= sofar.insert(
                k as int,
                self.pending@[n - 1],
            ));
        }
        assert(self.pending@.take(n as int) =~= self.pending@);
        let mut items: Vec<FeedItem> = Vec::new();
        let mut i: usize = 0;
        while i < order.len()
            invariant
                i <= order@.len(),
                items@.len() == i,
                order@.len() == self.pending@.len(),
                forall|j: int| 0 <= j < order@.len() ==> #[trigger] order@[j] < self.pending@.len(),
                picked(self.pending@, order@) == newest_first(self.pending@),
                forall|j: int|
                    0 <= j < items@.len() ==> shows(
                        #[trigger] items@[j],
                        newest_first(self@.pending)[j],
                        now,
                    ),
            decreases order.len() - i,
        {
            let p = &self.pending[order[i]];
            let secs: u64 = if now >= p.since {
                (now - p.since) / 1000
            } else {
                0
            };
            assert(picked(self.pending@, order@)[i as int] == *p);
            items.push(
                FeedItem {
                    host: p.host.clone(),
                    session: p.session.clone(),
                    tool: p.tool,
                    label: feed_label(&p.host, &p.cwd, &p.zellij),
                    message: p.message.clone(),
                    age: human_age(secs),
                    pane: p.pane,
                },
            );
            i = i + 1;
        }
        items
    }
}

/// The entries at the given places.
spec fn picked(pending: Seq<Pending>, order: Seq<usize>) -> Seq<Pending> {
    order.map_values(|i: usize| pending[i as int])
}

proof fn lemma_subset_unique(pending: Seq<Pending>, pane: u64)
    requires
        forall|i: int, j: int|
            0 <= i < j < pending.len() ==> (#[trigger] pending[i]).key() != (
            #[trigger] pending[j]).key(),
    ensures
        forall|i: int, j: int|
            0 <= i < j < drop_pane(pending, pane).len() ==> (#[trigger] drop_pane(
                pending,
                pane,
            )[i]).key() != (#[trigger] drop_pane(pending, pane)[j]).key(),
    decreases pending.len(),
{
    if pending.len() > 0 {
        let front = pending.drop_last();
        let last = pending.last();
        assert(last == pending[pending.len() - 1]);
        assert forall|i: int, j: int| 0 <= i < j < front.len() implies (#[trigger] front[i]).key()
            != (#[trigger] front[j]).key() by {
            assert(front[i] == pending[i] && front[j] == pending[j]);
        }
        lemma_subset_unique(front, pane);
        let d = drop_pane(front, pane);
        seqs::lemma_drop_keeps(front, |p: Pending| p.pane == Some(pane));
        assert forall|i: int| 0 <= i < d.len() implies (#[trigger] d[i]).key() != last.key() by {
            assert(front.contains(d[i]));
            let k = choose|k: int| 0 <= k < front.len() && front[k] == d[i];
            assert(pending[k] == d[i]);
        }
    }
}

proof fn lemma_none_dropped(pending: Seq<Pending>, pane: u64)
    requires
        drop_pane(pending, pane).len() == pending.len(),
    ensures
        drop_pane(pending, pane) == pending,
    decreases pending.len(),
{
    seqs::lemma_drop_keeps(pending, |p: Pending| p.pane == Some(pane));
    if pending.len() > 0 {
        let front = pending.drop_last();
        seqs::lemma_drop_keeps(front, |p: Pending| p.pane == Some(pane));
        lemma_none_dropped(front, pane);
        assert(front.push(pending.last()) =~= pending);
    } else {
        assert(pending =~= seq![]);
    }
}

/// A note that clears takes its session out of the feed, and one that raises puts it there once.
pub proof fn clearing_undoes_raising(f: FeedView, raise: Note, clear: Note, now: u64)
    requires
        f.wf(),
        raise.kind == Kind::Raise,
        clear.kind == Kind::Clear,
        raise.key() == clear.key(),
    ensures
        f.noted(raise, now).noted(clear, now).pending == drop_entry(f.pending, raise.key()),
        f.noted(raise, now).pending.last().key() == raise.key(),
        f.noted(raise, now).latched,
{
    let rest = drop_entry(f.pending, raise.key());
    seqs::lemma_drop_keeps(f.pending, |p: Pending| p.key() == raise.key());
    let raised = f.noted(raise, now).pending;
    assert(raised.drop_last() =~= rest);
    seqs::lemma_drop_absent(rest, |p: Pending| p.key() == clear.key());
}

/// After landing on a pane nothing is left of what it raised.
pub proof fn visiting_clears(f: FeedView, pane: u64)
    ensures
        forall|i: int|
            0 <= i < f.visited(pane).pending.len() ==> (
            #[trigger] f.visited(pane).pending[i]).pane != Some(pane),
{
    let gone = |p: Pending| p.pane == Some(pane);
    assert(drop_pane(f.pending, pane) == seqs::drop_where(f.pending, gone));
    seqs::lemma_drop_keeps(f.pending, gone);
    if drop_pane(f.pending, pane).len() == f.pending.len() {
        assert forall|i: int| 0 <= i < f.pending.len() implies (#[trigger] f.pending[i]).pane
            != Some(pane) by {
            if gone(f.pending[i]) {
                seqs::lemma_drop_shrinks(f.pending, gone, i);
            }
        }
    }
}

/// An empty feed is not shown after entries went.
pub proof fn empty_feed_closes(f: FeedView, rest: Seq<Pending>)
    ensures
        rest.len() == 0 ==> !f.left_with(rest).open,
        rest.len() > 0 ==> f.left_with(rest).open == f.open,
{
}

/// The rows are ordered by when they were raised, and every waiting session has exactly one.
pub proof fn rows_are_newest_first(pending: Seq<Pending>)
    ensures
        newest_first(pending).to_multiset() == pending.to_multiset(),
        forall|i: int, j: int|
            0 <= i <= j < newest_first(pending).len() ==> (#[trigger] newest_first(
                pending,
            )[i]).since >= (#[trigger] newest_first(pending)[j]).since,
{
    let key = |p: Pending| p.since as int;
    seqs::sorting_orders(pending, key);
    let sorted = newest_first(pending);
    assert forall|i: int, j: int| 0 <= i <= j < sorted.len() implies (#[trigger] sorted[i]).since
        >= (#[trigger] sorted[j]).since by {
        assert(key(sorted[i]) >= key(sorted[j]));
    }
}

} // verus!
