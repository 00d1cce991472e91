//! Remote-session building blocks that are pure computation: shell-string
//! escaping, the temp-file naming discipline, and the exact command lines
//! the session runs. Executing them over the wire happens outside the
//! core.

use vstd::prelude::*;

use crate::episode::last_index_of;

verus! {

/// How a session authenticates.
pub enum Auth {
    Password(String),
    Privkey(String),
}

/// A failure while driving the remote session.
#[derive(Debug)]
pub enum ClientError {
    /// A transport-level failure, with its message.
    Ssh(String),
    /// A local I/O failure, with its message.
    Io(String),
    /// The target path has no parent directory to create.
    EnsureDirError,
    /// A path could not be read as text.
    PlatformError,
    /// The transfer thread could not be joined.
    Thread,
}

/// Pick how to authenticate: a private key wins over a password.
pub fn select_auth(privkey: &Option<String>, password: &Option<String>) -> (r: Auth)
    requires
        privkey is Some || password is Some,
    ensures
        privkey matches Some(k) ==> r matches Auth::Privkey(f) && f@ == k@,
        privkey is None ==> (password matches Some(p) ==> r matches Auth::Password(f) && f@
            == p@),
{
    match privkey {
        Some(k) => Auth::Privkey(k.clone()),
        None => {
            match password {
                Some(p) => Auth::Password(p.clone()),
                None => Auth::Password(String::new()),
            }
        },
    }
}

/// The marker prefix of in-flight uploads: files wearing it are partial
/// and may be deleted at the start of any run.
pub open spec fn temp_prefix_spec() -> Seq<char> {
    ".rusttv.tmp"@
}

/// The marker prefix, as a string.
pub fn temp_prefix() -> (r: &'static str)
    ensures
        r@ == temp_prefix_spec(),
{
    ".rusttv.tmp"
}

/// The temporary path of a target path: same directory, the filename
/// prefixed with the temp marker and a dot. Nothing if the path has no
/// filename.
pub open spec fn temp_path_spec(p: Seq<char>) -> Option<Seq<char>> {
    let d = last_index_of(p, '/');
    let name = p.skip(d + 1);
    if name.len() == 0 {
        None
    } else {
        Some(p.take(d + 1) + temp_prefix_spec() + seq!['.'] + name)
    }
}

/// Compute the temporary upload path for a target path, so a partial
/// write never appears under its real name.
#[verifier::loop_isolation(false)]
pub fn temp_path(p: &str) -> (r: Option<String>)
    ensures
        r is Some <==> temp_path_spec(p@) is Some,
        r matches Some(t) ==> t@ == temp_path_spec(p@)->Some_0,
{
    let n = p.unicode_len();
    proof {
        crate::episode::lemma_last_index_of(p@, '/');
    }
    let mut k = n;
    let mut d_found: Option<usize> = None;
    while k > 0 && d_found.is_none()
        invariant
            k <= n,
            n == p@.len(),
            d_found is None ==> forall|j: int| k <= j < n ==> p@[j] != '/',
            d_found matches Some(dd) ==> dd < n && p@[dd as int] == '/' && (forall|j: int|
                dd < j < n ==> p@[j] != '/'),
        decreases k,
    {
        k = k - 1;
        if p.get_char(k) == '/' {
            d_found = Some(k);
        }
    }
    let start: usize = match d_found {
        Some(d) => {
            proof {
                assert(last_index_of(p@, '/') == d) by {
                    assert(p@.contains('/'));
                    if last_index_of(p@, '/') > d {
                        assert(p@[last_index_of(p@, '/')] == '/');
                    }
                    if last_index_of(p@, '/') < d {
                        assert(p@[d as int] == '/');
                    }
                }
            }
            d + 1
        },
        None => {
            proof {
                assert(!p@.contains('/')) by {
                    if p@.contains('/') {
                        let w = choose|w: int| 0 <= w < p@.len() && p@[w] == '/';
                        assert(p@[w] != '/');
                    }
                }
                assert(last_index_of(p@, '/') == -1);
            }
            0
        },
    };
    if start >= n {
        proof {
            assert(p@.skip(start as int).len() == 0);
        }
        return None;
    }
    proof {
        reveal_strlit(".");
    }
    let dir = p.substring_char(0, start);
    let name = p.substring_char(start, n);
    let mut out = dir.to_owned();
    out.append(temp_prefix());
    out.append(".");
    out.append(name);
    proof {
        assert(p@.take(start as int) =~= p@.subrange(0, start as int));
        assert(p@.skip(start as int) =~= p@.subrange(start as int, n as int));
        assert(out@ =~= temp_path_spec(p@)->Some_0);
    }
    Some(out)
}

/// A string escaped for interpolation into a double-quoted shell word:
/// every embedded double quote gains a backslash; everything else passes
/// through.
pub open spec fn escape_quotes(s: Seq<char>) -> Seq<char>
    decreases s.len(),
{
    if s.len() == 0 {
        Seq::empty()
    } else {
        escape_quotes(s.drop_last()) + (if s.last() == '"' {
            seq!['\\', '"']
        } else {
            seq![s.last()]
        })
    }
}

/// Escape a path for interpolation into a double-quoted shell string.
#[verifier::loop_isolation(false)]
pub fn sanitise_shell_path(p: &str) -> (r: String)
    ensures
        r@ == escape_quotes(p@),
{
    let n = p.unicode_len();
    let mut out = String::new();
    let mut i: usize = 0;
    proof {
        reveal_strlit("\\\"");
        assert(p@.take(0) =~= Seq::<char>::empty());
        assert(out@ =~= escape_quotes(p@.take(0)));
    }
    while i < n
        invariant
            i <= n,
            n == p@.len(),
            out@ == escape_quotes(p@.take(i as int)),
        decreases n - i,
    {
        let c = p.get_char(i);
        if c == '"' {
            out.append("\\\"");
        } else {
            out.append(p.substring_char(i, i + 1));
        }
        i = i + 1;
        proof {
            assert(p@.take(i as int).drop_last() =~= p@.take(i as int - 1));
            assert(p@.take(i as int).last() == p@[i as int - 1]);
            assert(out@ =~= escape_quotes(p@.take(i as int)));
        }
    }
    proof {
        assert(p@.take(n as int) =~= p@);
    }
    out
}

/// The command that creates a directory and its parents, idempotently.
pub open spec fn mkdir_cmd_spec(dir: Seq<char>) -> Seq<char> {
    "mkdir -p \""@ + escape_quotes(dir) + "\""@
}

/// Build the idempotent recursive directory-creation command.
pub fn mkdir_cmd(dir: &str) -> (r: String)
    ensures
        r@ == mkdir_cmd_spec(dir@),
{
    proof {
        reveal_strlit("mkdir -p \"");
        reveal_strlit("\"");
    }
    let mut s = "mkdir -p \"".to_owned();
    s.append(sanitise_shell_path(dir).as_str());
    s.append("\"");
    proof {
        assert(s@ =~= mkdir_cmd_spec(dir@));
    }
    s
}

/// The command that atomically moves one remote path to another.
pub open spec fn mv_cmd_spec(src: Seq<char>, dst: Seq<char>) -> Seq<char> {
    "mv \""@ + escape_quotes(src) + "\" \""@ + escape_quotes(dst) + "\""@
}

/// Build the atomic move command: a single remote rename, never a copy.
pub fn mv_cmd(src: &str, dst: &str) -> (r: String)
    ensures
        r@ == mv_cmd_spec(src@, dst@),
{
    proof {
        reveal_strlit("mv \"");
        reveal_strlit("\" \"");
        reveal_strlit("\"");
    }
    let mut s = "mv \"".to_owned();
    s.append(sanitise_shell_path(src).as_str());
    s.append("\" \"");
    s.append(sanitise_shell_path(dst).as_str());
    s.append("\"");
    proof {
        assert(s@ =~= mv_cmd_spec(src@, dst@));
    }
    s
}

/// The command that deletes every leftover temp file under the root.
pub open spec fn wipe_cmd_spec(root: Seq<char>) -> Seq<char> {
    "find \""@ + escape_quotes(root) + "\" -type f -name \""@ + temp_prefix_spec() + ".*\" -delete"@
}

/// Build the startup cleanup command: it removes every file wearing the
/// temp marker anywhere under the library root, recovering from a
/// previous run that crashed mid-transfer.
pub fn wipe_cmd(root: &str) -> (r: String)
    ensures
        r@ == wipe_cmd_spec(root@),
{
    proof {
        reveal_strlit("find \"");
        reveal_strlit("\" -type f -name \"");
        reveal_strlit(".*\" -delete");
    }
    let mut s = "find \"".to_owned();
    s.append(sanitise_shell_path(root).as_str());
    s.append("\" -type f -name \"");
    s.append(temp_prefix());
    s.append(".*\" -delete");
    proof {
        assert(s@ =~= wipe_cmd_spec(root@));
    }
    s
}

/// The command that lists a directory, one entry per line.
pub open spec fn ls_cmd_spec(path: Seq<char>) -> Seq<char> {
    "ls -1 \""@ + escape_quotes(path) + "\""@
}

/// Build the one-entry-per-line listing command.
pub fn ls_cmd(path: &str) -> (r: String)
    ensures
        r@ == ls_cmd_spec(path@),
{
    proof {
        reveal_strlit("ls -1 \"");
        reveal_strlit("\"");
    }
    let mut s = "ls -1 \"".to_owned();
    s.append(sanitise_shell_path(path).as_str());
    s.append("\"");
    proof {
        assert(s@ =~= ls_cmd_spec(path@));
    }
    s
}

/// The parent directory of a path: what stands before its last slash.
/// Nothing if the path has no slash.
pub open spec fn parent_dir_spec(p: Seq<char>) -> Option<Seq<char>> {
    let d = last_index_of(p, '/');
    if d < 0 {
        None
    } else {
        Some(p.take(d))
    }
}

/// The parent directory of a remote path, for directory creation.
#[verifier::loop_isolation(false)]
pub fn parent_dir(p: &str) -> (r: Option<String>)
    ensures
        r is Some <==> parent_dir_spec(p@) is Some,
        r matches Some(t) ==> t@ == parent_dir_spec(p@)->Some_0,
{
    let n = p.unicode_len();
    proof {
        crate::episode::lemma_last_index_of(p@, '/');
    }
    let mut k = n;
    let mut d_found: Option<usize> = None;
    while k > 0 && d_found.is_none()
        invariant
            k <= n,
            n == p@.len(),
            d_found is None ==> forall|j: int| k <= j < n ==> p@[j] != '/',
            d_found matches Some(dd) ==> dd < n && p@[dd as int] == '/' && (forall|j: int|
                dd < j < n ==> p@[j] != '/'),
        decreases k,
    {
        k = k - 1;
        if p.get_char(k) == '/' {
            d_found = Some(k);
        }
    }
    match d_found {
        Some(d) => {
            proof {
                assert(last_index_of(p@, '/') == d) by {
                    assert(p@.contains('/'));
                    if last_index_of(p@, '/') > d {
                        assert(p@[last_index_of(p@, '/')] == '/');
                    }
                    if last_index_of(p@, '/') < d {
                        assert(p@[d as int] == '/');
                    }
                }
            }
            let dir = p.substring_char(0, d);
            proof {
                assert(p@.take(d as int) =~= p@.subrange(0, d as int));
            }
            Some(dir.to_owned())
        },
        None => {
            proof {
                assert(!p@.contains('/')) by {
                    if p@.contains('/') {
                        let w = choose|w: int| 0 <= w < p@.len() && p@[w] == '/';
                        assert(p@[w] != '/');
                    }
                }
                assert(last_index_of(p@, '/') == -1);
            }
            None
        },
    }
}

} // verus!
