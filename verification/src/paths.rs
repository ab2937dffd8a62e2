//! File paths, as the bytes that the system knows them by.

use crate::text::{chars_of, push_bytes, string_of};
use vstd::prelude::*;
use vstd::slice::*;
use vstd::string::*;
use vstd::utf8::*;

verus! {

pub const SLASH: u8 = 0x2f;

/// A path with one more part: an absolute part takes its place.
pub open spec fn joined(base: Seq<u8>, part: Seq<u8>) -> Seq<u8> {
    if part.len() > 0 && part[0] == SLASH {
        part
    } else if base.len() == 0 || base.last() == SLASH {
        base + part
    } else {
        base.push(SLASH) + part
    }
}

/// Put a part behind a path.
pub fn join(base: &[u8], part: &[u8]) -> (p: Vec<u8>)
    ensures
        p@ == joined(base@, part@),
{
    if part.len() > 0 && part[0] == SLASH {
        return slice_to_vec(part);
    }
    let mut p = slice_to_vec(base);
    if base.len() > 0 && base[base.len() - 1] != SLASH {
        p.push(SLASH);
    }
    push_bytes(&mut p, part);
    assert(p@ =~= joined(base@, part@));
    p
}

/// The name of a socket among the files of a directory: something, a dot, and `sock`.
pub open spec fn socket_name(name: Seq<u8>) -> bool {
    name.len() > 5 && name.skip(name.len() - 5) == seq![0x2eu8, 0x73, 0x6f, 0x63, 0x6b]
}

/// Whether a file of the directory is a socket by its name.
pub fn is_socket_name(name: &[u8]) -> (b: bool)
    ensures
        b == socket_name(name@),
{
    let n: usize = name.len();
    if n <= 5 {
        return false;
    }
    let b: bool = name[n - 5] == 0x2e && name[n - 4] == 0x73 && name[n - 3] == 0x6f && name[n - 2]
        == 0x63 && name[n - 1] == 0x6b;
    proof {
        let t = name@.skip(n - 5);
        let s = seq![0x2eu8, 0x73, 0x6f, 0x63, 0x6b];
        if b {
            assert(t =~= s);
        } else if t == s {
            assert(t[0] == 0x2e && t[1] == 0x73 && t[2] == 0x6f && t[3] == 0x63 && t[4] == 0x6b);
        }
    }
    b
}

/// The text behind the last slash.
pub open spec fn last_part(s: Seq<char>) -> Seq<char>
    decreases s.len(),
{
    if s.len() == 0 || s.last() == '/' {
        seq![]
    } else {
        last_part(s.drop_last()).push(s.last())
    }
}

/// The file that a path names: its last component, past slashes and dots that name the place
/// itself. There is none for a path that ends in two dots or names no file.
pub open spec fn file_name(s: Seq<char>) -> Option<Seq<char>>
    decreases s.len(),
{
    let part = last_part(s);
    if s.len() == 0 {
        None
    } else if s.last() == '/' {
        file_name(s.drop_last())
    } else if part == seq!['.'] {
        if s.len() == 1 {
            None
        } else {
            file_name(s.drop_last())
        }
    } else if part == seq!['.', '.'] {
        None
    } else {
        Some(part)
    }
}

/// The title of a terminal before its program sets one: the shell's file name.
pub open spec fn shell_title(shell: Seq<char>) -> Seq<char> {
    match file_name(shell) {
        Some(n) => n,
        None => "shell"@,
    }
}

/// The title that a shell's terminal starts with.
pub fn default_title(shell: &str) -> (t: String)
    ensures
        t@ == shell_title(shell@),
{
    let cs = chars_of(shell);
    let mut n: usize = cs.len();
    assert(cs@.take(n as int) =~= cs@);
    while n > 0
        invariant
            n <= cs.len(),
            cs@ == shell@,
            file_name(shell@) == file_name(cs@.take(n as int)),
        decreases n,
    {
        let ghost s = cs@.take(n as int);
        assert(s.drop_last() =~= cs@.take(n - 1));
        if cs[n - 1] == '/' {
            n = n - 1;
        } else {
            let mut k: usize = n;
            assert(cs@.subrange(n as int, n as int) =~= seq![]);
            proof {
                lemma_last_part(s, n as int);
            }
            while k > 0 && cs[k - 1] != '/'
                invariant
                    k <= n <= cs.len(),
                    s == cs@.take(n as int),
                    forall|i: int| k <= i < n ==> cs@[i] != '/',
                decreases k,
            {
                k = k - 1;
            }
            let part = slice_subrange(cs.as_slice(), k, n);
            proof {
                lemma_last_part(s, k as int);
                assert(part@ =~= s.skip(k as int));
                assert(last_part(s) == part@);
            }
            if part.len() == 1 && part[0] == '.' {
                assert(part@ =~= seq!['.']);
                if n == 1 {
                    return "shell".to_owned();
                }
                n = n - 1;
            } else if part.len() == 2 && part[0] == '.' && part[1] == '.' {
                assert(part@ =~= seq!['.', '.']);
                assert(part@ != seq!['.']) by {
                    assert(seq!['.'].len() == 1);
                }
                return "shell".to_owned();
            } else {
                assert(part@ != seq!['.']) by {
                    assert(seq!['.'].len() == 1 && seq!['.'][0] == '.');
                }
                assert(part@ != seq!['.', '.']) by {
                    assert(seq!['.', '.'].len() == 2 && seq!['.', '.'][0] == '.' && seq![
                        '.',
                        '.',
                    ][1] == '.');
                }
                return string_of(part);
            }
        }
    }
    "shell".to_owned()
}

proof fn lemma_last_part(s: Seq<char>, k: int)
    requires
        0 <= k <= s.len(),
        forall|i: int| k <= i < s.len() ==> s[i] != '/',
        k == 0 || s[k - 1] == '/' || k == s.len(),
    ensures
        k == 0 || s[k - 1] == '/' ==> last_part(s) == s.skip(k),
    decreases s.len(),
{
    if s.len() > k {
        lemma_last_part(s.drop_last(), k);
        assert(s.skip(k) =~= s.drop_last().skip(k).push(s.last()));
    } else {
        assert(s.skip(k) =~= seq![]);
    }
}

/// Where the configuration is: below the given directory of the user's configuration, else below
/// the home directory, else here.
pub open spec fn config_file(config_home: Option<Seq<u8>>, home: Option<Seq<u8>>) -> Seq<u8> {
    let base = match config_home {
        Some(d) => d,
        None => match home {
            Some(h) => joined(h, ascii_bytes(".config"@)),
            None => ascii_bytes("."@),
        },
    };
    joined(joined(base, ascii_bytes("potty"@)), ascii_bytes("potty.toml"@))
}

/// The bytes of a text.
pub open spec fn ascii_bytes(s: Seq<char>) -> Seq<u8> {
    vstd::utf8::encode_utf8(s)
}

/// Where the configuration file is, given what the environment says.
pub fn config_path(config_home: Option<Vec<u8>>, home: Option<Vec<u8>>) -> (p: Vec<u8>)
    ensures
        p@ == config_file(
            match config_home {
                Some(d) => Some(d@),
                None => None,
            },
            match home {
                Some(d) => Some(d@),
                None => None,
            },
        ),
{
    let base: Vec<u8> = match config_home {
        Some(d) => d,
        None => match home {
            Some(h) => join(h.as_slice(), ".config".as_bytes()),
            None => slice_to_vec(".".as_bytes()),
        },
    };
    let dir = join(base.as_slice(), "potty".as_bytes());
    join(dir.as_slice(), "potty.toml".as_bytes())
}

/// Where the session daemon listens: where the environment says, else in the runtime directory, else
/// in the temporary one under the user's name.
pub open spec fn session_socket(
    named: Option<Seq<u8>>,
    runtime: Option<Seq<u8>>,
    user: Option<Seq<char>>,
    temp: Seq<u8>,
) -> Seq<u8> {
    match named {
        Some(p) => p,
        None => match runtime {
            Some(d) => joined(d, ascii_bytes("potty-session.sock"@)),
            None => joined(
                temp,
                ascii_bytes(
                    "potty-session-"@ + (match user {
                        Some(u) => u,
                        None => "user"@,
                    }) + ".sock"@,
                ),
            ),
        },
    }
}

/// The session daemon's socket, given what the environment says.
pub fn socket_path(
    named: Option<Vec<u8>>,
    runtime: Option<Vec<u8>>,
    user: Option<String>,
    temp: &[u8],
) -> (p: Vec<u8>)
    ensures
        p@ == session_socket(
            match named {
                Some(d) => Some(d@),
                None => None,
            },
            match runtime {
                Some(d) => Some(d@),
                None => None,
            },
            match user {
                Some(u) => Some(u@),
                None => None,
            },
            temp@,
        ),
{
    match named {
        Some(p) => p,
        None => match runtime {
            Some(d) => join(d.as_slice(), "potty-session.sock".as_bytes()),
            None => {
                let mut name = "potty-session-".to_owned();
                match user {
                    Some(u) => {
                        name.append(u.as_str());
                    },
                    None => {
                        name.append("user");
                    },
                }
                name.append(".sock");
                join(temp, name.as_str().as_bytes())
            },
        },
    }
}

/// What the session program runs as.
#[derive(Debug, PartialEq, Eq)]
pub enum Role {
    /// The daemon, on a socket where one is given.
    Daemon(Option<Vec<u8>>),
    /// One client over the standard streams.
    Inline,
    /// The relay between the standard streams and the daemon.
    Attach,
}

/// The role that the arguments ask for: the daemon by its flag, and otherwise the relay, unless
/// the environment asks for neither.
pub fn session_role(first: Option<&str>, second: Option<Vec<u8>>, no_daemon: bool) -> (r: Role)
    ensures
        ({
            let daemon = first matches Some(a) && a@ == "--daemon"@;
            &&& daemon ==> r == Role::Daemon(second)
            &&& !daemon && no_daemon ==> r is Inline
            &&& !daemon && !no_daemon ==> r is Attach
        }),
{
    let daemon: bool = match first {
        Some(a) => a.to_owned() == "--daemon".to_owned(),
        None => false,
    };
    if daemon {
        Role::Daemon(second)
    } else if no_daemon {
        Role::Inline
    } else {
        Role::Attach
    }
}

/// Where the files of known names lie below a directory, put together part by part: an absolute
/// directory stays the beginning.
pub proof fn joining_keeps_the_base(base: Seq<u8>, part: Seq<u8>)
    requires
        part.len() > 0,
        part[0] != SLASH,
    ensures
        joined(base, part).len() >= base.len() + part.len(),
        joined(base, part).take(base.len() as int) == base,
        joined(base, part).skip(joined(base, part).len() - part.len()) == part,
{
    assert(joined(base, part).take(base.len() as int) =~= base);
    assert(joined(base, part).skip(joined(base, part).len() - part.len()) =~= part);
}

/// The shell to start: the configured one, else the environment's, else a usual one.
pub open spec fn shell_of(configured: Option<Seq<char>>, env: Option<Seq<char>>) -> Seq<char> {
    match configured {
        Some(s) => s,
        None => match env {
            Some(s) => s,
            None => "/bin/bash"@,
        },
    }
}

/// Choose the shell.
pub fn default_shell(configured: &Option<String>, env: Option<String>) -> (s: String)
    ensures
        s@ == shell_of(
            match configured {
                Some(s) => Some(s@),
                None => None,
            },
            match env {
                Some(s) => Some(s@),
                None => None,
            },
        ),
{
    match configured {
        Some(s) => s.clone(),
        None => match env {
            Some(s) => s,
            None => "/bin/bash".to_owned(),
        },
    }
}

/// The private keys that a user usually has, in the order in which they are tried.
pub open spec fn key_files(home: Option<Seq<u8>>) -> Seq<Seq<u8>> {
    match home {
        Some(h) => {
            let ssh = joined(h, encode_utf8(".ssh"@));
            seq![
                joined(ssh, encode_utf8("id_ed25519"@)),
                joined(ssh, encode_utf8("id_ecdsa"@)),
                joined(ssh, encode_utf8("id_rsa"@)),
            ]
        },
        None => seq![],
    }
}

/// The key files to look for; those that exist are tried.
pub fn default_keys(home: Option<Vec<u8>>) -> (ks: Vec<Vec<u8>>)
    ensures
        ks@.map_values(|k: Vec<u8>| k@) == key_files(
            match home {
                Some(h) => Some(h@),
                None => None,
            },
        ),
{
    let mut ks: Vec<Vec<u8>> = Vec::new();
    if let Some(h) = &home {
        let ssh = join(h.as_slice(), ".ssh".as_bytes());
        ks.push(join(ssh.as_slice(), "id_ed25519".as_bytes()));
        ks.push(join(ssh.as_slice(), "id_ecdsa".as_bytes()));
        ks.push(join(ssh.as_slice(), "id_rsa".as_bytes()));
    }
    proof {
        let h = match home {
            Some(h) => Some(h@),
            None => None,
        };
        assert(ks@.map_values(|k: Vec<u8>| k@) =~= key_files(h));
    }
    ks
}

} // verus!
