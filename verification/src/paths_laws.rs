//! Where the files are.

use crate::notify;
use crate::notify::{socket_paths, Note};
use crate::paths::{
    config_path, default_keys, default_shell, default_title, join, joined, last_part, socket_name,
    socket_path, SLASH,
};
use crate::term_env;
use vstd::prelude::*;
use vstd::utf8::*;

verus! {

/// A part stands behind a path with one slash between them, whether or not the path ends in one;
/// an absolute part stands alone.
pub proof fn parts_are_put_behind(base: &[u8], part: &[u8], p: Vec<u8>)
    requires
        call_ensures(join, (base, part), p),
    ensures
        part@.len() > 0 && part@[0] == 0x2f ==> p@ == part@,
        (part@.len() == 0 || part@[0] != 0x2f) && base@.len() > 0 && base@.last() != 0x2f ==> p@
            == base@ + seq![0x2fu8] + part@,
        (part@.len() == 0 || part@[0] != 0x2f) && base@.len() > 0 && base@.last() == 0x2f ==> p@
            == base@ + part@,
        (part@.len() == 0 || part@[0] != 0x2f) && base@.len() == 0 ==> p@ == part@,
{
    assert(base@ + seq![0x2fu8] + part@ =~= base@.push(0x2f) + part@);
    assert(Seq::<u8>::empty() + part@ =~= part@);
}

/// A name that a path can end in: ASCII, not empty, without a slash at either end.
pub open spec fn plain(name: Seq<char>) -> bool {
    name.len() > 0 && is_ascii_chars(name) && name[0] != '/' && name.last() != '/'
}

/// A directory as the system names it: not empty, without a slash at its end.
pub open spec fn directory(d: Seq<u8>) -> bool {
    d.len() > 0 && d.last() != 0x2f
}

proof fn lemma_below(dir: Seq<u8>, name: Seq<char>)
    requires
        directory(dir),
        plain(name),
    ensures
        joined(dir, encode_utf8(name)) == dir + encode_utf8("/"@ + name),
        directory(joined(dir, encode_utf8(name))),
{
    reveal_strlit("/");
    crate::text::lemma_encode_both("/"@, name);
    is_ascii_chars_encode_utf8("/"@);
    is_ascii_chars_encode_utf8(name);
    assert(encode_utf8("/"@) =~= seq![0x2fu8]);
    let e = encode_utf8(name);
    assert(name[0] as u8 == e[0]);
    assert(name[name.len() - 1] as u8 == e[e.len() - 1]);
    assert(name.last() as nat != 0x2f);
    assert(dir + (seq![0x2fu8] + e) =~= dir.push(SLASH) + e);
    assert((dir.push(SLASH) + e).last() == e.last());
}

proof fn lemma_two(dir: Seq<u8>, a: Seq<char>, b: Seq<char>)
    requires
        directory(dir),
        plain(a),
        plain(b),
    ensures
        joined(joined(dir, encode_utf8(a)), encode_utf8(b)) == dir + encode_utf8(
            "/"@ + a + "/"@ + b,
        ),
        directory(joined(joined(dir, encode_utf8(a)), encode_utf8(b))),
{
    lemma_below(dir, a);
    lemma_below(joined(dir, encode_utf8(a)), b);
    crate::text::lemma_encode_both("/"@ + a, "/"@ + b);
    assert("/"@ + a + ("/"@ + b) =~= "/"@ + a + "/"@ + b);
    assert(dir + encode_utf8("/"@ + a) + encode_utf8("/"@ + b) =~= dir + (encode_utf8("/"@ + a)
        + encode_utf8("/"@ + b)));
}

/// The configuration is `potty/potty.toml` in the user's directory for configurations, and that is
/// `.config` in the home directory where none is named.
pub proof fn the_configuration_has_its_place(
    config_home: Option<Vec<u8>>,
    home: Option<Vec<u8>>,
    p: Vec<u8>,
)
    requires
        call_ensures(config_path, (config_home, home), p),
    ensures
        config_home matches Some(d) ==> (directory(d@) ==> p@ == d@ + encode_utf8(
            "/potty/potty.toml"@,
        )),
        config_home is None ==> (home matches Some(h) ==> (directory(h@) ==> p@ == h@ + encode_utf8(
            "/.config/potty/potty.toml"@,
        ))),
        config_home is None && home is None ==> p@ == encode_utf8("./potty/potty.toml"@),
{
    reveal_strlit("/");
    reveal_strlit(".");
    reveal_strlit("potty");
    reveal_strlit("potty.toml");
    reveal_strlit(".config");
    reveal_strlit("/potty/potty.toml");
    reveal_strlit("/.config/potty/potty.toml");
    reveal_strlit("./potty/potty.toml");
    let tail = "/"@ + "potty"@ + "/"@ + "potty.toml"@;
    assert("/potty/potty.toml"@ =~= tail);
    match config_home {
        Some(d) => {
            if directory(d@) {
                lemma_two(d@, "potty"@, "potty.toml"@);
            }
        },
        None => match home {
            Some(h) => {
                if directory(h@) {
                    let c = joined(h@, encode_utf8(".config"@));
                    lemma_below(h@, ".config"@);
                    lemma_two(c, "potty"@, "potty.toml"@);
                    crate::text::lemma_encode_both("/"@ + ".config"@, tail);
                    assert("/"@ + ".config"@ + tail =~= "/.config/potty/potty.toml"@);
                    assert(h@ + encode_utf8("/"@ + ".config"@) + encode_utf8(tail) =~= h@ + (
                    encode_utf8("/"@ + ".config"@) + encode_utf8(tail)));
                }
            },
            None => {
                is_ascii_chars_encode_utf8("."@);
                assert(encode_utf8("."@) =~= seq![0x2eu8]);
                lemma_two(encode_utf8("."@), "potty"@, "potty.toml"@);
                crate::text::lemma_encode_both("."@, tail);
                assert("."@ + tail =~= "./potty/potty.toml"@);
            },
        },
    }
}

/// The session daemon listens where it is told to, else in the runtime directory, else in the
/// temporary one, at a socket of the user's own.
pub proof fn the_daemon_has_its_socket(
    named: Option<Vec<u8>>,
    runtime: Option<Vec<u8>>,
    user: Option<String>,
    temp: &[u8],
    p: Vec<u8>,
)
    requires
        call_ensures(socket_path, (named, runtime, user, temp), p),
        directory(temp@),
        user matches Some(u) ==> is_ascii_chars(u@),
    ensures
        named matches Some(s) ==> p@ == s@,
        named is None ==> (runtime matches Some(d) ==> (directory(d@) ==> p@ == d@ + encode_utf8(
            "/potty-session.sock"@,
        ))),
        named is None && runtime is None ==> (user matches Some(u) ==> p@ == temp@ + encode_utf8(
            "/potty-session-"@ + u@ + ".sock"@,
        )),
        named is None && runtime is None && user is None ==> p@ == temp@ + encode_utf8(
            "/potty-session-user.sock"@,
        ),
{
    reveal_strlit("/");
    reveal_strlit("potty-session.sock");
    reveal_strlit("/potty-session.sock");
    reveal_strlit("potty-session-");
    reveal_strlit("/potty-session-");
    reveal_strlit(".sock");
    reveal_strlit("user");
    reveal_strlit("/potty-session-user.sock");
    assert("/"@ + "potty-session.sock"@ =~= "/potty-session.sock"@);
    if named is None {
        match runtime {
            Some(d) => {
                if directory(d@) {
                    lemma_below(d@, "potty-session.sock"@);
                }
            },
            None => {
                let u = match user {
                    Some(u) => u@,
                    None => "user"@,
                };
                let name = "potty-session-"@ + u + ".sock"@;
                assert(name.last() == ".sock"@[4]);
                assert(is_ascii_chars(name));
                lemma_below(temp@, name);
                assert("/"@ + name =~= "/potty-session-"@ + u + ".sock"@);
                if user is None {
                    assert("/"@ + name =~= "/potty-session-user.sock"@);
                }
            },
        }
    }
}

/// The keys that are tried: of the kinds in the order of preference, all below `.ssh` in the home
/// directory; without one there are none.
pub proof fn keys_are_below_home(home: Option<Vec<u8>>, ks: Vec<Vec<u8>>)
    requires
        call_ensures(default_keys, (home,), ks),
    ensures
        home is None ==> ks@.len() == 0,
        home matches Some(h) ==> (directory(h@) ==> ks@.len() == 3 && ks@[0]@ == h@ + encode_utf8(
            "/.ssh/id_ed25519"@,
        ) && ks@[1]@ == h@ + encode_utf8("/.ssh/id_ecdsa"@) && ks@[2]@ == h@ + encode_utf8(
            "/.ssh/id_rsa"@,
        )),
{
    reveal_strlit("/");
    reveal_strlit(".ssh");
    reveal_strlit("id_ed25519");
    reveal_strlit("id_ecdsa");
    reveal_strlit("id_rsa");
    reveal_strlit("/.ssh/id_ed25519");
    reveal_strlit("/.ssh/id_ecdsa");
    reveal_strlit("/.ssh/id_rsa");
    let v = ks@.map_values(|k: Vec<u8>| k@);
    assert(v.len() == ks@.len());
    if let Some(h) = home {
        if directory(h@) {
            lemma_two(h@, ".ssh"@, "id_ed25519"@);
            lemma_two(h@, ".ssh"@, "id_ecdsa"@);
            lemma_two(h@, ".ssh"@, "id_rsa"@);
            assert("/"@ + ".ssh"@ + "/"@ + "id_ed25519"@ =~= "/.ssh/id_ed25519"@);
            assert("/"@ + ".ssh"@ + "/"@ + "id_ecdsa"@ =~= "/.ssh/id_ecdsa"@);
            assert("/"@ + ".ssh"@ + "/"@ + "id_rsa"@ =~= "/.ssh/id_rsa"@);
            assert(v[0] == ks@[0]@ && v[1] == ks@[1]@ && v[2] == ks@[2]@);
        }
    }
}

/// The sockets of the feed are below `potty` in the runtime directory: the listener's, and one for
/// each window.
pub proof fn the_feed_has_its_sockets(
    base: &[u8],
    instance: &str,
    listener: Vec<u8>,
    dir: Vec<u8>,
    own: Vec<u8>,
)
    requires
        call_ensures(notify::default_socket_path, (base,), listener),
        call_ensures(notify::instance_socket_dir, (base,), dir),
        call_ensures(notify::instance_socket_path, (base, instance), own),
        directory(base@),
        is_ascii_chars(instance@),
        instance@.len() > 0,
        instance@[0] != '/',
    ensures
        listener@ == base@ + encode_utf8("/potty/notify.sock"@),
        dir@ == base@ + encode_utf8("/potty/instances"@),
        own@ == dir@ + encode_utf8("/"@ + instance@ + ".sock"@),
        own@ != listener@,
{
    reveal_strlit("/");
    reveal_strlit("potty");
    reveal_strlit("notify.sock");
    reveal_strlit("instances");
    reveal_strlit(".sock");
    reveal_strlit("/potty/notify.sock");
    reveal_strlit("/potty/instances");
    lemma_two(base@, "potty"@, "notify.sock"@);
    lemma_two(base@, "potty"@, "instances"@);
    assert("/"@ + "potty"@ + "/"@ + "notify.sock"@ =~= "/potty/notify.sock"@);
    assert("/"@ + "potty"@ + "/"@ + "instances"@ =~= "/potty/instances"@);
    let name = instance@ + ".sock"@;
    assert(name.last() == ".sock"@[4]);
    lemma_below(dir@, name);
    assert("/"@ + name =~= "/"@ + instance@ + ".sock"@);
    is_ascii_chars_encode_utf8("/potty/notify.sock"@);
    is_ascii_chars_encode_utf8("/potty/instances"@);
    let n = base@.len() as int;
    let i = "/potty/instances"@;
    let l = "/potty/notify.sock"@;
    assert(l[7] as u8 == encode_utf8(l)[7]);
    assert(i[7] as u8 == encode_utf8(i)[7]);
    assert(listener@[n + 7] == encode_utf8(l)[7]);
    assert(dir@[n + 7] == encode_utf8(i)[7]);
    assert(own@[n + 7] == dir@[n + 7]);
}

/// Every socket in the directory is found, in its order, and nothing else is.
pub proof fn sockets_are_found(dir: Seq<u8>, names: Seq<Seq<u8>>, p: Seq<u8>)
    ensures
        socket_paths(dir, names).contains(p) <==> exists|i: int|
            0 <= i < names.len() && socket_name(#[trigger] names[i]) && p == joined(dir, names[i]),
    decreases names.len(),
{
    let all = socket_paths(dir, names);
    if names.len() > 0 {
        let front = names.drop_last();
        let before = socket_paths(dir, front);
        sockets_are_found(dir, front, p);
        assert(names.last() == names[names.len() - 1]);
        if all.contains(p) {
            let k = choose|k: int| 0 <= k < all.len() && all[k] == p;
            if k < before.len() {
                assert(before[k] == p);
                let i = choose|i: int|
                    0 <= i < front.len() && socket_name(#[trigger] front[i]) && p == joined(
                        dir,
                        front[i],
                    );
                assert(names[i] == front[i]);
            }
        }
        if exists|i: int|
            0 <= i < names.len() && socket_name(#[trigger] names[i]) && p == joined(
                dir,
                names[i],
            ) {
            let i = choose|i: int|
                0 <= i < names.len() && socket_name(#[trigger] names[i]) && p == joined(
                    dir,
                    names[i],
                );
            if i < front.len() {
                assert(front[i] == names[i]);
                let k = choose|k: int| 0 <= k < before.len() && before[k] == p;
                assert(all[k] == p);
            } else {
                assert(all[before.len() as int] == p);
            }
        }
    }
}

/// A socket's name ends in `.sock`, with something in front.
pub proof fn sockets_end_in_their_suffix(stem: Seq<u8>, name: Seq<u8>)
    ensures
        stem.len() > 0 ==> socket_name(stem + encode_utf8(".sock"@)),
        socket_name(name) ==> name.len() > 5 && name == name.take(name.len() - 5) + encode_utf8(
            ".sock"@,
        ),
{
    reveal_strlit(".sock");
    is_ascii_chars_encode_utf8(".sock"@);
    let e = encode_utf8(".sock"@);
    assert(e =~= seq![0x2eu8, 0x73, 0x6f, 0x63, 0x6b]);
    assert((stem + e).skip((stem + e).len() - 5) =~= e);
    if socket_name(name) {
        assert(name.take(name.len() - 5) + name.skip(name.len() - 5) =~= name);
    }
}

proof fn lemma_last_part(dir: Seq<char>, name: Seq<char>)
    requires
        !name.contains('/'),
    ensures
        last_part(dir + seq!['/'] + name) == name,
    decreases name.len(),
{
    let s = dir + seq!['/'] + name;
    if name.len() > 0 {
        let front = name.drop_last();
        assert(name.last() == name[name.len() - 1]);
        assert forall|i: int| 0 <= i < front.len() implies front[i] != '/' by {
            assert(name[i] == front[i]);
        }
        lemma_last_part(dir, front);
        assert(s.drop_last() =~= dir + seq!['/'] + front);
        assert(s.last() == name.last());
        assert(front.push(name.last()) =~= name);
    } else {
        assert(s.last() == '/');
    }
}

/// A terminal is titled after its shell's file, whatever directory it is in.
pub proof fn terminals_are_titled_after_the_shell(
    dir: Seq<char>,
    name: Seq<char>,
    shell: &str,
    t: String,
)
    requires
        call_ensures(default_title, (shell,), t),
        shell@ == dir + seq!['/'] + name,
        name.len() > 0,
        !name.contains('/'),
        name != seq!['.'],
        name != seq!['.', '.'],
    ensures
        t@ == name,
{
    lemma_last_part(dir, name);
    assert(shell@.last() == name.last());
    assert(name.last() == name[name.len() - 1]);
}

/// The shell is the configured one, else the environment's, else Bash.
pub proof fn the_shell_is_chosen(configured: Option<String>, env: Option<String>, s: String)
    requires
        call_ensures(default_shell, (&configured, env), s),
    ensures
        configured matches Some(c) ==> s@ == c@,
        configured is None ==> (env matches Some(e) ==> s@ == e@),
        configured is None && env is None ==> s@ == "/bin/bash"@,
{
}

/// Programs find their terminal's name and that it shows all colours.
pub proof fn programs_find_their_terminal(vs: Vec<(String, String)>)
    requires
        call_ensures(term_env::defaults, (), vs),
    ensures
        vs@.len() == 2,
        vs@[0].0@ == "COLORTERM"@,
        vs@[0].1@ == "truecolor"@,
        vs@[1].0@ == "TERM"@,
        vs@[1].1@ == "xterm-256color"@,
{
    let v = term_env::variables(vs@);
    assert(v.len() == vs@.len());
    assert(v[0] == (vs@[0].0@, vs@[0].1@));
    assert(v[1] == (vs@[1].0@, vs@[1].1@));
}

/// Notes of this schema are read, and a note is about the session whose host and id it bears.
pub proof fn notes_are_known(n: Note, host: String, session: String, r: bool, a: bool)
    requires
        call_ensures(Note::readable, (&n,), r),
        call_ensures(Note::is_about, (&n, &host, &session), a),
    ensures
        r <==> n.v == 1,
        a <==> n.host@ == host@ && n.session@ == session@,
{
}

proof fn lemma_bare(name: Seq<char>)
    requires
        !name.contains('/'),
    ensures
        last_part(name) == name,
    decreases name.len(),
{
    if name.len() > 0 {
        let front = name.drop_last();
        assert(name.last() == name[name.len() - 1]);
        assert forall|i: int| 0 <= i < front.len() implies front[i] != '/' by {
            assert(name[i] == front[i]);
        }
        lemma_bare(front);
        assert(front.push(name.last()) =~= name);
    }
}

/// A shell that is named without a directory titles its terminal by that name, and one that names
/// no file leaves it to a plain word.
pub proof fn bare_shells_title_their_terminal(shell: &str, t: String)
    requires
        call_ensures(default_title, (shell,), t),
        !shell@.contains('/'),
    ensures
        shell@.len() > 0 && shell@ != seq!['.'] && shell@ != seq!['.', '.'] ==> t@ == shell@,
        shell@.len() == 0 || shell@ == seq!['.'] || shell@ == seq!['.', '.'] ==> t@ == "shell"@,
{
    lemma_bare(shell@);
    if shell@.len() > 0 {
        assert(shell@.last() == shell@[shell@.len() - 1]);
    }
}

/// Slashes behind a shell's path change nothing.
pub proof fn trailing_slashes_are_dropped(s: Seq<char>)
    ensures
        crate::paths::shell_title(s.push('/')) == crate::paths::shell_title(s),
{
    assert(s.push('/').drop_last() =~= s);
    assert(s.push('/').last() == '/');
}

/// The flag makes a daemon, on the socket that is given with it; without it the environment decides
/// between one client and the relay.
pub proof fn roles_are_asked_for(
    first: Option<&str>,
    second: Option<Vec<u8>>,
    no_daemon: bool,
    r: crate::paths::Role,
)
    requires
        call_ensures(crate::paths::session_role, (first, second, no_daemon), r),
    ensures
        (first is Some && first->0@ == "--daemon"@) ==> r == crate::paths::Role::Daemon(second),
        !(first is Some && first->0@ == "--daemon"@) && no_daemon ==> r is Inline,
        !(first is Some && first->0@ == "--daemon"@) && !no_daemon ==> r is Attach,
{
}

} // verus!
