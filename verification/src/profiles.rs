//! Connection targets as the user types them, and the list of remembered ones.

use crate::client;
use crate::client::{host_label, opt};
use crate::config::ConnectionProfile;
use crate::seqs;
use crate::text;
use crate::text::{chars_of, find_first, find_last, read_u16, string_of, trim_str, trimmed};
use vstd::prelude::*;
use vstd::slice::*;
use vstd::string::*;

verus! {

/// How many profiles are kept.
pub const MAX_PROFILES: usize = 32;

/// The usual port of an SSH server.
pub const SSH_PORT: u16 = 22;

/// The user, host and port of a target typed as `[user@]host[:port]`. A missing user is the given
/// one; a missing or unreadable port is the usual one.
pub open spec fn typed_target(input: Seq<char>, default_user: Seq<char>) -> (
    Seq<char>,
    Seq<char>,
    nat,
) {
    let t = text::trim(input);
    let (user, rest) = match text::index_first(t, '@') {
        Some(i) => (t.take(i), t.skip(i + 1)),
        None => (default_user, t),
    };
    match text::index_last(rest, ':') {
        Some(i) => (
            user,
            rest.take(i),
            match text::parse_u16(rest.skip(i + 1)) {
                Some(n) => n,
                None => SSH_PORT as nat,
            },
        ),
        None => (user, rest, SSH_PORT as nat),
    }
}

/// Read a target typed as `[user@]host[:port]`.
pub fn parse_host(input: &str, default_user: &str) -> (r: (String, String, u16))
    ensures
        (r.0@, r.1@, r.2 as nat) == typed_target(input@, default_user@),
{
    let cs = chars_of(input);
    let t = trimmed(cs.as_slice());
    let (user, rest): (String, &[char]) = match find_first(t, '@') {
        Some(i) => {
            let n: usize = t.len();
            let head = slice_subrange(t, 0, i);
            let tail = slice_subrange(t, i + 1, n);
            assert(head@ =~= t@.take(i as int));
            assert(tail@ =~= t@.skip(i + 1));
            (string_of(head), tail)
        },
        None => (default_user.to_owned(), t),
    };
    match find_last(rest, ':') {
        Some(i) => {
            let n: usize = rest.len();
            let head = slice_subrange(rest, 0, i);
            let tail = slice_subrange(rest, i + 1, n);
            assert(head@ =~= rest@.take(i as int));
            assert(tail@ =~= rest@.skip(i + 1));
            let port: u16 = match read_u16(tail) {
                Some(n) => n,
                None => SSH_PORT,
            };
            (user, string_of(head), port)
        },
        None => (user, string_of(rest), SSH_PORT),
    }
}

/// A profile's name as typed: nothing if it is blank.
pub fn clean_profile_name(name: &str) -> (r: Option<String>)
    ensures
        opt(r) == if text::trim(name@).len() == 0 {
            None
        } else {
            Some(text::trim(name@))
        },
{
    let t = trim_str(name);
    if t.as_str().is_empty() {
        None
    } else {
        Some(t)
    }
}

/// A profile's target as the user would type it.
pub fn profile_target(p: &ConnectionProfile) -> (s: String)
    ensures
        s@ == client::target_label(p.user@, p.host@, p.port),
{
    host_label(&p.user, &p.host, p.port)
}

#[verifier::ext_equal]
pub struct ProfileView {
    pub name: Option<Seq<char>>,
    pub user: Seq<char>,
    pub host: Seq<char>,
    pub port: u16,
    pub use_potty_session: bool,
    pub env: Seq<(String, String)>,
    pub last_connected: Option<u64>,
}

impl View for ConnectionProfile {
    type V = ProfileView;

    open spec fn view(&self) -> ProfileView {
        ProfileView {
            name: opt(self.name),
            user: self.user@,
            host: self.host@,
            port: self.port,
            use_potty_session: self.use_potty_session,
            env: self.env@,
            last_connected: self.last_connected,
        }
    }
}

pub open spec fn profile_views(ps: Seq<ConnectionProfile>) -> Seq<ProfileView> {
    ps.map_values(|p: ConnectionProfile| p@)
}

/// When a profile was last used; never is the beginning of time.
pub open spec fn last_used(p: ProfileView) -> int {
    match p.last_connected {
        Some(t) => t as int,
        None => 0,
    }
}

/// A connection that got through, as it is remembered.
pub struct Made {
    pub name: Option<Seq<char>>,
    pub user: Seq<char>,
    pub host: Seq<char>,
    pub port: u16,
    pub use_potty_session: bool,
    pub now: u64,
}

pub open spec fn is_target(p: ProfileView, m: Made) -> bool {
    p.user == m.user && p.host == m.host && p.port == m.port
}

/// The first profile of a target.
pub open spec fn first_of(ps: Seq<ProfileView>, m: Made) -> Option<int>
    decreases ps.len(),
{
    if ps.len() == 0 {
        None
    } else {
        match first_of(ps.drop_last(), m) {
            Some(i) => Some(i),
            None => if is_target(ps.last(), m) {
                Some(ps.len() - 1)
            } else {
                None
            },
        }
    }
}

/// The profiles with a connection noted: in the profile of its target, which keeps its name where
/// none is given, or in a new one.
pub open spec fn noted(ps: Seq<ProfileView>, m: Made) -> Seq<ProfileView> {
    match first_of(ps, m) {
        Some(i) => ps.update(
            i,
            ProfileView {
                name: if m.name is Some {
                    m.name
                } else {
                    ps[i].name
                },
                use_potty_session: m.use_potty_session,
                last_connected: Some(m.now),
                ..ps[i]
            },
        ),
        None => ps.push(
            ProfileView {
                name: m.name,
                user: m.user,
                host: m.host,
                port: m.port,
                use_potty_session: m.use_potty_session,
                env: seq![],
                last_connected: Some(m.now),
            },
        ),
    }
}

/// The profiles, the last used first.
pub open spec fn by_use(ps: Seq<ProfileView>) -> Seq<ProfileView> {
    seqs::falling(ps, |p: ProfileView| last_used(p))
}

/// The profiles after a connection got through: it is noted, the last used come first, and the
/// oldest beyond the limit are forgotten.
pub open spec fn remembered(ps: Seq<ProfileView>, m: Made) -> Seq<ProfileView> {
    let all = by_use(noted(ps, m));
    if all.len() > MAX_PROFILES {
        all.take(MAX_PROFILES as int)
    } else {
        all
    }
}

fn used_at(p: &ConnectionProfile) -> (t: u64)
    ensures
        t == last_used(p@),
{
    match p.last_connected {
        Some(t) => t,
        None => 0,
    }
}

fn sort_by_use(ps: &mut Vec<ConnectionProfile>)
    ensures
        profile_views(final(ps)@) == by_use(profile_views(old(ps)@)),
{
    let ghost all = profile_views(ps@);
    let ghost key = |p: ProfileView| last_used(p);
    let mut sorted: Vec<ConnectionProfile> = Vec::new();
    let ghost mut n: int = 0;
    assert(all.take(0) =~= seq![]);
    assert(profile_views(sorted@) =~= seq![]);
    assert(profile_views(ps@) =~= all.skip(0));
    while ps.len() > 0
        invariant
            0 <= n <= all.len(),
            ps@.len() == all.len() - n,
            profile_views(ps@) == all.skip(n),
            profile_views(sorted@) == by_use(all.take(n)),
            key == (|p: ProfileView| last_used(p)),
        decreases ps.len(),
    {
        let ghost before = ps@;
        let ghost sofar = profile_views(sorted@);
        let p = ps.remove(0);
        proof {
            assert(profile_views(before)[0] == p@);
            assert(all.skip(n)[0] == all[n]);
            assert(profile_views(ps@) =~= all.skip(n + 1)) by {
                assert(profile_views(ps@) =~= profile_views(before).skip(1));
                assert(all.skip(n).skip(1) =~= all.skip(n + 1));
            }
            assert(all.take(n + 1).drop_last() =~= all.take(n));
        }
        let t: u64 = used_at(&p);
        let mut k: usize = sorted.len();
        while k > 0 && used_at(&sorted[k - 1]) < t
            invariant
                k <= sorted@.len(),
                sofar == profile_views(sorted@),
                t == last_used(p@),
                forall|i: int| k <= i < sorted@.len() ==> last_used(#[trigger] sofar[i]) < t,
            decreases k,
        {
            k = k - 1;
        }
        proof {
            seqs::lemma_insert_at(sofar, p@, key, k as int);
            n = n + 1;
        }
        sorted.insert(k, p);
        assert(profile_views(sorted@) =~= sofar.insert(k as int, p@));
    }
    assert(all.take(n) =~= all);
    core::mem::swap(ps, &mut sorted);
}

/// Remember a connection that got through.
pub fn remember(
    ps: &mut Vec<ConnectionProfile>,
    name: Option<String>,
    user: &String,
    host: &String,
    port: u16,
    use_potty_session: bool,
    now: u64,
)
    ensures
        profile_views(final(ps)@) == remembered(
            profile_views(old(ps)@),
            (Made { name: opt(name), user: user@, host: host@, port, use_potty_session, now }),
        ),
{
    let ghost m = Made { name: opt(name), user: user@, host: host@, port, use_potty_session, now };
    let ghost was = profile_views(ps@);
    let mut i: usize = 0;
    assert(was.take(0) =~= seq![]);
    while i < ps.len() && !(ps[i].user == *user && ps[i].host == *host && ps[i].port == port)
        invariant
            i <= ps@.len(),
            was == profile_views(ps@),
            m == (Made { name: opt(name), user: user@, host: host@, port, use_potty_session, now }),
            first_of(was.take(i as int), m) is None,
        decreases ps.len() - i,
    {
        assert(was.take(i + 1).drop_last() =~= was.take(i as int));
        assert(was[i as int] == ps@[i as int]@);
        i = i + 1;
    }
    if i < ps.len() {
        proof {
            assert(was[i as int] == ps@[i as int]@);
            assert(was.take(i + 1).drop_last() =~= was.take(i as int));
            assert(first_of(was.take(i + 1), m) == Some(i as int));
            lemma_first_stays(was, m, i + 1);
        }
        let mut p = ps.remove(i);
        if name.is_some() {
            p.name = name;
        }
        p.use_potty_session = use_potty_session;
        p.last_connected = Some(now);
        ps.insert(i, p);
        assert(profile_views(ps@) =~= noted(was, m));
    } else {
        assert(was.take(i as int) =~= was);
        let env: Vec<(String, String)> = Vec::new();
        let p = ConnectionProfile {
            name,
            user: user.clone(),
            host: host.clone(),
            port,
            use_potty_session,
            env,
            last_connected: Some(now),
        };
        assert(p@.env =~= seq![]);
        ps.push(p);
        assert(profile_views(ps@) =~= noted(was, m));
    }
    sort_by_use(ps);
    let ghost all = profile_views(ps@);
    if ps.len() > MAX_PROFILES {
        ps.truncate(MAX_PROFILES);
        assert(profile_views(ps@) =~= all.take(MAX_PROFILES as int));
    }
}

proof fn lemma_first_stays(ps: Seq<ProfileView>, m: Made, k: int)
    requires
        0 <= k <= ps.len(),
        first_of(ps.take(k), m) is Some,
    ensures
        first_of(ps, m) == first_of(ps.take(k), m),
    decreases ps.len(),
{
    if k == ps.len() {
        assert(ps.take(k) =~= ps);
    } else {
        assert(ps.drop_last().take(k) =~= ps.take(k));
        lemma_first_stays(ps.drop_last(), m, k);
    }
}

/// A row of the list to connect from.
#[derive(Debug, PartialEq, Eq)]
pub struct ConnectProfileView {
    /// Where the profile is in the list.
    pub index: usize,
    pub label: String,
    pub detail: String,
    pub use_potty_session: bool,
    /// When it was last used.
    pub used: u64,
}

#[verifier::ext_equal]
pub struct RowView {
    pub index: nat,
    pub label: Seq<char>,
    pub detail: Seq<char>,
    pub use_potty_session: bool,
    pub used: u64,
}

impl View for ConnectProfileView {
    type V = RowView;

    open spec fn view(&self) -> RowView {
        RowView {
            index: self.index as nat,
            label: self.label@,
            detail: self.detail@,
            use_potty_session: self.use_potty_session,
            used: self.used,
        }
    }
}

pub open spec fn row_views(rows: Seq<ConnectProfileView>) -> Seq<RowView> {
    rows.map_values(|r: ConnectProfileView| r@)
}

/// A profile as a row: under its name where it has one, else under its target.
pub open spec fn row_of(p: ProfileView, index: nat) -> RowView {
    let detail = client::target_label(p.user, p.host, p.port);
    RowView {
        index,
        label: match p.name {
            Some(n) => if text::trim(n).len() == 0 {
                detail
            } else {
                n
            },
            None => detail,
        },
        detail,
        use_potty_session: p.use_potty_session,
        used: last_used(p) as u64,
    }
}

/// The rows of the profiles that have a host.
pub open spec fn rows(ps: Seq<ProfileView>) -> Seq<RowView>
    decreases ps.len(),
{
    if ps.len() == 0 {
        seq![]
    } else if text::trim(ps.last().host).len() == 0 {
        rows(ps.drop_last())
    } else {
        rows(ps.drop_last()).push(row_of(ps.last(), (ps.len() - 1) as nat))
    }
}

/// The list to connect from, the last used first.
pub fn connect_profile_views(ps: &Vec<ConnectionProfile>) -> (list: Vec<ConnectProfileView>)
    ensures
        row_views(list@) == seqs::falling(rows(profile_views(ps@)), |r: RowView| r.used as int),
{
    let ghost all = profile_views(ps@);
    let ghost key = |r: RowView| r.used as int;
    let mut list: Vec<ConnectProfileView> = Vec::new();
    let mut i: usize = 0;
    assert(all.take(0) =~= seq![]);
    assert(row_views(list@) =~= seq![]);
    while i < ps.len()
        invariant
            i <= ps@.len(),
            all == profile_views(ps@),
            key == (|r: RowView| r.used as int),
            row_views(list@) == seqs::falling(rows(all.take(i as int)), key),
        decreases ps.len() - i,
    {
        let p = &ps[i];
        let ghost sofar = row_views(list@);
        proof {
            assert(all.take(i + 1).drop_last() =~= all.take(i as int));
            assert(all[i as int] == p@);
        }
        if !trim_str(p.host.as_str()).as_str().is_empty() {
            let detail = profile_target(p);
            let label = match &p.name {
                Some(n) => if trim_str(n.as_str()).as_str().is_empty() {
                    detail.clone()
                } else {
                    n.clone()
                },
                None => detail.clone(),
            };
            let row = ConnectProfileView {
                index: i,
                label,
                detail,
                use_potty_session: p.use_potty_session,
                used: used_at(p),
            };
            let t: u64 = row.used;
            let mut k: usize = list.len();
            while k > 0 && list[k - 1].used < t
                invariant
                    k <= list@.len(),
                    sofar == row_views(list@),
                    forall|j: int| k <= j < list@.len() ==> (#[trigger] sofar[j]).used < t,
                decreases k,
            {
                assert(sofar[k - 1] == list@[k - 1]@);
                k = k - 1;
            }
            proof {
                if k > 0 {
                    assert(sofar[k - 1] == list@[k - 1]@);
                }
                seqs::lemma_insert_at(sofar, row@, key, k as int);
                let before = rows(all.take(i as int));
                assert(before.push(row@).drop_last() =~= before);
            }
            list.insert(k, row);
            assert(row_views(list@) =~= sofar.insert(k as int, row@));
        }
        i = i + 1;
    }
    assert(all.take(i as int) =~= all);
    list
}

/// What a remembered connection comes to: it is among the profiles, first unless another was used
/// later, and there are never more than the limit.
pub proof fn remembering_keeps_the_connection(ps: Seq<ProfileView>, m: Made)
    requires
        forall|i: int| 0 <= i < ps.len() ==> last_used(#[trigger] ps[i]) <= m.now,
        ps.len() <= MAX_PROFILES,
        first_of(ps, m) is None ==> forall|i: int|
            0 <= i < ps.len() ==> last_used(#[trigger] ps[i]) < m.now,
    ensures
        remembered(ps, m).len() <= MAX_PROFILES,
        exists|i: int|
            0 <= i < remembered(ps, m).len() && is_target(#[trigger] remembered(ps, m)[i], m)
                && remembered(ps, m)[i].last_connected == Some(m.now),
{
    let all = noted(ps, m);
    let key = |p: ProfileView| last_used(p);
    seqs::sorting_orders(all, key);
    lemma_first_is_target(ps, m);
    let k = match first_of(ps, m) {
        Some(i) => i,
        None => ps.len() as int,
    };
    let p = all[k];
    let sorted = by_use(all);
    broadcast use vstd::seq_lib::group_to_multiset_ensures;

    assert(all.contains(p));
    assert(sorted.to_multiset().count(p) > 0);
    assert(sorted.contains(p));
    let j = choose|j: int| 0 <= j < sorted.len() && sorted[j] == p;
    if all.len() > MAX_PROFILES && j >= MAX_PROFILES {
        assert(first_of(ps, m) is None);
        assert(sorted.to_multiset().count(sorted[0]) > 0);
        assert(all.contains(sorted[0]));
        let i = choose|i: int| 0 <= i < all.len() && all[i] == sorted[0];
        assert(key(sorted[0]) >= key(sorted[j]));
        if i < ps.len() {
            assert(last_used(ps[i]) < m.now);
        }
        assert(sorted[0] == p);
        assert(remembered(ps, m)[0] == p);
        assert(is_target(remembered(ps, m)[0], m));
    } else {
        assert(remembered(ps, m)[j] == p);
        assert(is_target(remembered(ps, m)[j], m));
    }
}

proof fn lemma_first_is_target(ps: Seq<ProfileView>, m: Made)
    ensures
        first_of(ps, m) matches Some(i) ==> 0 <= i < ps.len() && is_target(ps[i], m),
    decreases ps.len(),
{
    if ps.len() > 0 {
        lemma_first_is_target(ps.drop_last(), m);
    }
}

/// A target written out and read again is the same target, unless its parts hold the marks that
/// separate them: a profile taken over into the dialog connects to where it says.
pub proof fn targets_round_trip(
    user: Seq<char>,
    host: Seq<char>,
    port: u16,
    default_user: Seq<char>,
)
    requires
        user.len() > 0,
        !user.contains('@'),
        !text::is_white(user[0]),
        port == SSH_PORT ==> !host.contains(':') && (host.len() > 0 ==> !text::is_white(
            host.last(),
        )),
    ensures
        typed_target(client::target_label(user, host, port), default_user) == (
            user,
            host,
            port as nat,
        ),
{
    reveal_strlit("@");
    reveal_strlit(":");
    let digits = text::ascii(text::decimal(port as nat));
    text::decimal_round_trips(port as nat);
    let rest = if port == 22 {
        host
    } else {
        host.push(':') + digits
    };
    let s = client::target_label(user, host, port);
    assert(s =~= user.push('@') + rest);
    assert(s[0] == user[0]);
    assert(text::trim_start(s) == s);
    if rest.len() == 0 {
        assert(s.last() == '@');
    } else {
        assert(s.last() == rest.last());
        if port != 22 {
            assert(rest.last() == digits.last());
            assert(text::is_digit(digits[digits.len() - 1]));
        }
    }
    assert(text::trim(s) == s);
    text::lemma_first_behind(user, '@', rest);
    assert(s.take(user.len() as int) =~= user);
    assert(s.skip((user.len() + 1) as int) =~= rest);
    if port == 22 {
        text::lemma_no_last(host, ':');
    } else {
        assert forall|i: int| 0 <= i < digits.len() implies digits[i] != ':' by {
            assert(text::is_digit(digits[i]));
        }
        text::lemma_last_before(host, ':', digits);
        assert(rest.take(host.len() as int) =~= host);
        assert(rest.skip((host.len() + 1) as int) =~= digits);
        assert(text::is_digit(digits[0]));
    }
}

} // verus!
