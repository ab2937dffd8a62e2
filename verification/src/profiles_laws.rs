//! Where typed targets lead, and which connections are remembered.

use crate::client;
use crate::profiles;
use crate::profiles::{
    by_use, first_of, is_target, last_used, noted, remembered, row_of, rows, typed_target, Made,
    ProfileView,
};
use crate::seqs;
use crate::text;
use vstd::prelude::*;

verus! {

/// No white space at either end.
pub open spec fn tight(s: Seq<char>) -> bool {
    s.len() > 0 && !text::is_white(s[0]) && !text::is_white(s.last())
}

/// A target is a user before the first `@`, a port behind the last `:`, and a host between them;
/// without a user it is the given one, and without a port it is 22.
pub proof fn targets_are_read(user: Seq<char>, host: Seq<char>, port: Seq<char>, default: Seq<char>)
    requires
        tight(user),
        tight(host),
        !user.contains('@'),
        !host.contains('@'),
        !host.contains(':'),
        port.len() > 0,
        text::all_digits(port),
        text::digits_value(port) <= 65535,
    ensures
        typed_target(user + seq!['@'] + host + seq![':'] + port, default) == (
            user,
            host,
            text::digits_value(port),
        ),
        typed_target(user + seq!['@'] + host, default) == (user, host, 22nat),
        typed_target(host + seq![':'] + port, default) == (default, host, text::digits_value(port)),
        typed_target(host, default) == (default, host, 22nat),
{
    lemma_ports(host, port);
    lemma_users(user, host, default);
    let hp = host + seq![':'] + port;
    assert(hp[0] == host[0]);
    assert(hp.last() == port.last());
    lemma_users(user, hp, default);
    assert(user + seq!['@'] + host + seq![':'] + port =~= user + seq!['@'] + hp);
    lemma_hosts(host, default);
    lemma_hosts(hp, default);
}

/// The host and the port of what is behind the user.
spec fn behind_user(rest: Seq<char>) -> (Seq<char>, nat) {
    let t = typed_target(rest, seq![]);
    (t.1, t.2)
}

proof fn lemma_hosts(rest: Seq<char>, default: Seq<char>)
    requires
        tight(rest),
        !rest.contains('@'),
    ensures
        typed_target(rest, default) == (default, behind_user(rest).0, behind_user(rest).1),
{
    assert(text::trim(rest) == rest);
    lemma_none(rest, '@');
}

proof fn lemma_users(user: Seq<char>, rest: Seq<char>, default: Seq<char>)
    requires
        tight(user),
        tight(rest),
        !user.contains('@'),
        !rest.contains('@'),
    ensures
        typed_target(user + seq!['@'] + rest, default) == (
            user,
            behind_user(rest).0,
            behind_user(rest).1,
        ),
{
    let full = user + seq!['@'] + rest;
    assert(full =~= user.push('@') + rest);
    text::lemma_first_behind(user, '@', rest);
    assert(full.take(user.len() as int) =~= user);
    assert(full.skip(user.len() as int + 1) =~= rest);
    assert(full[0] == user[0]);
    assert(full.last() == rest.last());
    assert(text::trim(full) == full);
    assert(text::trim(rest) == rest);
    lemma_none(rest, '@');
}

proof fn lemma_ports(host: Seq<char>, port: Seq<char>)
    requires
        tight(host),
        !host.contains('@'),
        !host.contains(':'),
        port.len() > 0,
        text::all_digits(port),
        text::digits_value(port) <= 65535,
    ensures
        tight(host + seq![':'] + port),
        !(host + seq![':'] + port).contains('@'),
        behind_user(host + seq![':'] + port) == (host, text::digits_value(port)),
        behind_user(host) == (host, 22nat),
{
    assert(text::is_digit(port[0]));
    assert(text::is_digit(port[port.len() - 1]));
    assert(!text::is_white(port.last()));
    assert forall|i: int| 0 <= i < port.len() implies port[i] != '@' && port[i] != ':' by {
        assert(text::is_digit(port[i]));
    }
    let hp = host + seq![':'] + port;
    assert forall|i: int| 0 <= i < hp.len() implies hp[i] != '@' by {
        if i < host.len() {
            assert(hp[i] == host[i]);
        } else if i > host.len() {
            assert(hp[i] == port[i - host.len() - 1]);
        }
    }
    assert(hp =~= host.push(':') + port);
    text::lemma_last_before(host, ':', port);
    assert(hp.take(host.len() as int) =~= host);
    assert(hp.skip(host.len() as int + 1) =~= port);
    text::lemma_no_last(host, ':');
    assert(hp[0] == host[0]);
    assert(hp.last() == port.last());
    assert(text::trim(hp) == hp);
    assert(text::trim(host) == host);
    lemma_none(hp, '@');
    lemma_none(host, '@');
}

proof fn lemma_none(a: Seq<char>, c: char)
    requires
        !a.contains(c),
    ensures
        text::index_first(a, c) is None,
    decreases a.len(),
{
    if a.len() > 0 {
        let p = a.drop_last();
        assert(a.last() == a[a.len() - 1]);
        assert forall|i: int| 0 <= i < p.len() implies p[i] != c by {
            assert(p[i] == a[i]);
        }
        lemma_none(p, c);
    }
}

/// A port that cannot be read is the usual one.
pub proof fn bad_ports_are_the_usual_one(host: Seq<char>, port: Seq<char>, default: Seq<char>)
    requires
        tight(host),
        tight(port),
        !host.contains('@'),
        !port.contains('@'),
        !port.contains(':'),
        !text::is_digit(port[0]),
        port[0] != '+',
    ensures
        typed_target(host + seq![':'] + port, default) == (default, host, 22nat),
{
    let hp = host + seq![':'] + port;
    assert(hp =~= host.push(':') + port);
    text::lemma_last_before(host, ':', port);
    assert(hp.take(host.len() as int) =~= host);
    assert(hp.skip(host.len() as int + 1) =~= port);
    assert(text::trim(hp) == hp) by {
        assert(hp[0] == host[0]);
        assert(hp.last() == port.last());
    }
    assert forall|i: int| 0 <= i < hp.len() implies hp[i] != '@' by {
        if i < host.len() {
            assert(hp[i] == host[i]);
        } else if i > host.len() {
            assert(hp[i] == port[i - host.len() - 1]);
        }
    }
    lemma_none(hp, '@');
}

proof fn lemma_first(ps: Seq<ProfileView>, m: Made)
    ensures
        match first_of(ps, m) {
            Some(i) => 0 <= i < ps.len() && is_target(ps[i], m) && forall|k: int|
                0 <= k < i ==> !is_target(#[trigger] ps[k], m),
            None => forall|k: int| 0 <= k < ps.len() ==> !is_target(#[trigger] ps[k], m),
        },
    decreases ps.len(),
{
    if ps.len() > 0 {
        let front = ps.drop_last();
        lemma_first(front, m);
        assert forall|k: int| 0 <= k < front.len() implies front[k] == #[trigger] ps[k] by {}
        assert(ps.last() == ps[ps.len() - 1]);
    }
}

/// A connection that got through is noted in the profile of its user, host and port, with the time;
/// that one keeps its variables, and its name unless a new one is given. Where there is none it
/// becomes a new one. No other profile changes.
pub proof fn connections_are_noted(ps: Seq<ProfileView>, m: Made)
    ensures
        ({
            let after = noted(ps, m);
            match first_of(ps, m) {
                Some(i) => {
                    &&& 0 <= i < ps.len()
                    &&& ps[i].user == m.user && ps[i].host == m.host && ps[i].port == m.port
                    &&& after.len() == ps.len()
                    &&& forall|k: int| 0 <= k < ps.len() && k != i ==> after[k] == ps[k]
                    &&& after[i].user == m.user && after[i].host == m.host && after[i].port == m.port
                    &&& after[i].last_connected == Some(m.now)
                    &&& after[i].use_potty_session == m.use_potty_session
                    &&& after[i].env == ps[i].env
                    &&& m.name is Some ==> after[i].name == m.name
                    &&& m.name is None ==> after[i].name == ps[i].name
                },
                None => {
                    &&& after.drop_last() == ps
                    &&& after.last().user == m.user && after.last().host == m.host
                        && after.last().port == m.port && after.last().name == m.name
                    &&& after.last().last_connected == Some(m.now)
                    &&& after.last().use_potty_session == m.use_potty_session
                    &&& after.last().env.len() == 0
                    &&& forall|k: int|
                        0 <= k < ps.len() ==> !((#[trigger] ps[k]).user == m.user && ps[k].host
                            == m.host && ps[k].port == m.port)
                },
            }
        }),
{
    lemma_first(ps, m);
    if first_of(ps, m) is None {
        assert(noted(ps, m).drop_last() =~= ps);
        assert forall|k: int| 0 <= k < ps.len() implies !((#[trigger] ps[k]).user == m.user
            && ps[k].host == m.host && ps[k].port == m.port) by {
            assert(!is_target(ps[k], m));
        }
    }
}

/// Of the profiles at most 32 are kept, the last used first, and only such as there were.
pub proof fn the_last_used_are_kept(ps: Seq<ProfileView>, m: Made)
    ensures
        remembered(ps, m).len() <= 32,
        noted(ps, m).len() <= 32 ==> remembered(ps, m).to_multiset() == noted(ps, m).to_multiset(),
        noted(ps, m).len() > 32 ==> remembered(ps, m).len() == 32,
        forall|i: int, j: int|
            0 <= i <= j < remembered(ps, m).len() ==> last_used(#[trigger] remembered(ps, m)[i])
                >= last_used(#[trigger] remembered(ps, m)[j]),
        forall|p: ProfileView|
            p.last_connected is Some ==> #[trigger] last_used(p) == p.last_connected->0,
        forall|p: ProfileView| p.last_connected is None ==> #[trigger] last_used(p) == 0,
{
    let key = |p: ProfileView| last_used(p);
    let all = by_use(noted(ps, m));
    seqs::sorting_orders(noted(ps, m), key);
    assert forall|i: int, j: int| 0 <= i <= j < remembered(ps, m).len() implies last_used(
        #[trigger] remembered(ps, m)[i],
    ) >= last_used(#[trigger] remembered(ps, m)[j]) by {
        assert(remembered(ps, m)[i] == all[i] && remembered(ps, m)[j] == all[j]);
        assert(key(all[i]) >= key(all[j]));
    }
}

/// A row is called by its profile's name, or by its target where that is blank; it says the target
/// and leads to the profile.
pub proof fn rows_lead_to_their_profile(p: ProfileView, index: nat)
    ensures
        row_of(p, index).index == index,
        row_of(p, index).detail == client::target_label(p.user, p.host, p.port),
        p.name is Some && text::trim(p.name->0).len() > 0 ==> row_of(p, index).label == p.name->0,
        p.name is None ==> row_of(p, index).label == row_of(p, index).detail,
        p.name is Some && text::trim(p.name->0).len() == 0 ==> row_of(p, index).label == row_of(
            p,
            index,
        ).detail,
        row_of(p, index).use_potty_session == p.use_potty_session,
        p.last_connected is Some ==> row_of(p, index).used == p.last_connected->0,
{
}

/// Every profile with a host has a row, and no other has.
pub proof fn profiles_with_a_host_have_a_row(ps: Seq<ProfileView>, i: int)
    requires
        0 <= i < ps.len(),
    ensures
        text::trim(ps[i].host).len() > 0 ==> rows(ps).contains(row_of(ps[i], i as nat)),
        forall|k: int|
            0 <= k < rows(ps).len() ==> (#[trigger] rows(ps)[k]).index < ps.len() && rows(ps)[k]
                == row_of(ps[rows(ps)[k].index as int], rows(ps)[k].index) && text::trim(
                ps[rows(ps)[k].index as int].host,
            ).len() > 0,
    decreases ps.len(),
{
    let front = ps.drop_last();
    let before = rows(front);
    let all = rows(ps);
    lemma_rows(ps);
    if i < front.len() {
        profiles_with_a_host_have_a_row(front, i);
        assert(front[i] == ps[i]);
        if text::trim(ps[i].host).len() > 0 {
            let r = row_of(ps[i], i as nat);
            let k = choose|k: int| 0 <= k < before.len() && before[k] == r;
            assert(all[k] == r);
        }
    } else if text::trim(ps[i].host).len() > 0 {
        assert(all.last() == row_of(ps[i], i as nat));
        assert(all[all.len() - 1] == row_of(ps[i], i as nat));
    }
}

proof fn lemma_rows(ps: Seq<ProfileView>)
    ensures
        forall|k: int|
            0 <= k < rows(ps).len() ==> (#[trigger] rows(ps)[k]).index < ps.len() && rows(ps)[k]
                == row_of(ps[rows(ps)[k].index as int], rows(ps)[k].index) && text::trim(
                ps[rows(ps)[k].index as int].host,
            ).len() > 0,
    decreases ps.len(),
{
    if ps.len() > 0 {
        let front = ps.drop_last();
        lemma_rows(front);
        let before = rows(front);
        let all = rows(ps);
        assert forall|k: int| 0 <= k < all.len() implies (#[trigger] all[k]).index < ps.len()
            && all[k] == row_of(ps[all[k].index as int], all[k].index) && text::trim(
            ps[all[k].index as int].host,
        ).len() > 0 by {
            if k < before.len() {
                assert(all[k] == before[k]);
                assert(front[before[k].index as int] == ps[before[k].index as int]);
            } else {
                assert(ps.last() == ps[ps.len() - 1]);
            }
        }
    }
}

/// The list to connect from has the last used first, and every row once.
pub proof fn rows_are_listed_by_use(
    ps: Vec<crate::config::ConnectionProfile>,
    list: Vec<profiles::ConnectProfileView>,
    i: int,
    j: int,
)
    requires
        call_ensures(profiles::connect_profile_views, (&ps,), list),
        0 <= i <= j < list@.len(),
    ensures
        profiles::row_views(list@)[i].used >= profiles::row_views(list@)[j].used,
        profiles::row_views(list@).to_multiset() == rows(
            profiles::profile_views(ps@),
        ).to_multiset(),
{
    let key = |r: profiles::RowView| r.used as int;
    let all = rows(profiles::profile_views(ps@));
    crate::seqs::sorting_orders(all, key);
    let v = profiles::row_views(list@);
    assert(v == crate::seqs::falling(all, key));
    assert(key(v[i]) >= key(v[j]));
}

} // verus!
