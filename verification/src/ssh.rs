//! The argument lists handed to `ssh`, `scp`, `ssh-copy-id` and `ssh-keygen`,
//! and the remote shell commands that edit `authorized_keys`.
use vstd::prelude::*;
use crate::model::{Server, KeyInfo, Named, opt_view};
use crate::registry::{pos_of, lemma_pos_of, resolve_key, lookup_key, position_by_name};
use crate::text::{concat, owned, decimal, decimal_string, to_chars, from_chars, find_char, index_of,
    sub_chars, tokens, nth_token, trim, trim_str, push_char, lemma_find_char, all_ascii, ascii_alnum};
use crate::args::{push_arg, push_lit};
use crate::paths::{join_checked, has_suffix, get_sockets_dir, joinable, verbatim, is_join, sockets_dir_shape,
    needs_sep, ends_in_component, lemma_component_needs_sep};

verus! {

// ---------------------------------------------------------------------------
// Pieces
// ---------------------------------------------------------------------------

/// `user@host` of a server.
pub open spec fn destination(s: Server) -> Seq<char> {
    s.user@ + "@"@ + s.host@
}

/// `user@host` of a server.
pub fn destination_of(s: &Server) -> (r: String)
    ensures
        r@ == destination(*s),
{
    let a = concat(s.user.as_str(), "@");
    concat(a.as_str(), s.host.as_str())
}

/// The key name that the lookups for `exec`, `ping`, `copy` and `config`
/// search: the server's key, or `default` where it has none.
pub open spec fn key_query_of(key_name: Option<String>) -> Seq<char> {
    match key_name {
        Some(k) => k@,
        None => "default"@,
    }
}

/// The path of the key that `key_query_of` finds, if any.
pub open spec fn resolved_key_path(keys: Seq<KeyInfo>, key_name: Option<String>) -> Option<Seq<char>> {
    let p = pos_of(keys, key_query_of(key_name));
    if p >= 0 {
        Some(keys[p].path@)
    } else {
        None
    }
}

/// The path of the server's key, or of the `default` key where the server names none.
pub fn resolve_key_path(keys: &[KeyInfo], key_name: &Option<String>) -> (r: Option<String>)
    ensures
        opt_view(r) == resolved_key_path(keys@, *key_name),
{
    let found = match key_name {
        Some(k) => resolve_key(keys, Some(k.as_str())),
        None => resolve_key(keys, None),
    };
    match found {
        Some(k) => Some(k.path),
        None => None,
    }
}

/// The options that select one identity file and no other.
pub open spec fn identity_opts(path: Option<Seq<char>>) -> Seq<Seq<char>> {
    match path {
        Some(p) => seq!["-i"@, p, "-o"@, "IdentitiesOnly=yes"@],
        None => Seq::empty(),
    }
}

fn push_identity(v: &mut Vec<String>, path: &Option<String>)
    ensures
        final(v).deep_view() == old(v).deep_view() + identity_opts(opt_view(*path)),
{
    let ghost before = v.deep_view();
    match path {
        Some(p) => {
            push_lit(v, "-i");
            push_arg(v, p.clone());
            push_lit(v, "-o");
            push_lit(v, "IdentitiesOnly=yes");
            assert(v.deep_view() =~= before + identity_opts(opt_view(*path)));
        },
        None => {
            assert(v.deep_view() =~= before + identity_opts(opt_view(*path)));
        },
    }
}

fn push_port_and_destination(v: &mut Vec<String>, s: &Server)
    ensures
        final(v).deep_view() == old(v).deep_view() + seq!["-p"@, decimal(s.port as nat), destination(*s)],
{
    let ghost before = v.deep_view();
    push_lit(v, "-p");
    push_arg(v, decimal_string(s.port as u64));
    push_arg(v, destination_of(s));
    assert(v.deep_view() =~= before + seq!["-p"@, decimal(s.port as nat), destination(*s)]);
}

// ---------------------------------------------------------------------------
// Connection sharing
// ---------------------------------------------------------------------------

/// Whether `c` is alphabetic or numeric in Unicode (`char::is_alphanumeric`).
pub uninterp spec fn unicode_alphanumeric(c: char) -> bool;

/// `char::is_alphanumeric`. Trusted: the result is the named property; for an
/// ASCII character it is being a letter or a digit.
#[verifier::external_body]
fn is_alphanumeric(c: char) -> (b: bool)
    ensures
        b == unicode_alphanumeric(c),
        (c as u32) < 128 ==> b == (('a' <= c && c <= 'z') || ('A' <= c && c <= 'Z') || ('0' <= c
            && c <= '9')),
{
    c.is_alphanumeric()
}

/// A character kept in a socket file name.
pub open spec fn socket_safe(c: char) -> bool {
    unicode_alphanumeric(c) || c == '-' || c == '_'
}

/// `s` without the characters that are not `socket_safe`.
pub open spec fn keep_safe(s: Seq<char>) -> Seq<char>
    decreases s.len(),
{
    if s.len() == 0 {
        Seq::empty()
    } else if socket_safe(s.last()) {
        keep_safe(s.drop_last()).push(s.last())
    } else {
        keep_safe(s.drop_last())
    }
}

/// `s` without the characters other than ASCII letters, digits, `-` and `_`.
pub open spec fn keep_ascii_safe(s: Seq<char>) -> Seq<char>
    decreases s.len(),
{
    if s.len() == 0 {
        Seq::empty()
    } else if ascii_alnum(s.last()) || s.last() == '-' || s.last() == '_' {
        keep_ascii_safe(s.drop_last()).push(s.last())
    } else {
        keep_ascii_safe(s.drop_last())
    }
}

/// The server name reduced to the characters allowed in a socket file name;
/// for an ASCII name, its ASCII letters, digits, `-` and `_`.
pub fn safe_socket_name(name: &str) -> (r: String)
    ensures
        r@ == keep_safe(name@),
        all_ascii(name@) ==> r@ == keep_ascii_safe(name@),
        forall|i: int| 0 <= i < r@.len() ==> #[trigger] r@[i] != '/' && r@[i] != '\\' && r@[i] != ':',
{
    let cs = to_chars(name);
    let n = cs.len();
    let mut r = String::new();
    for i in 0..n
        invariant
            n == cs@.len(),
            cs@ == name@,
            r@ == keep_safe(name@.take(i as int)),
            all_ascii(name@) ==> r@ == keep_ascii_safe(name@.take(i as int)),
            forall|j: int| 0 <= j < r@.len() ==> #[trigger] r@[j] != '/' && r@[j] != '\\' && r@[j] != ':',
    {
        assert(name@.take(i + 1).drop_last() =~= name@.take(i as int));
        let c = cs[i];
        assert(all_ascii(name@) ==> (name@[i as int] as u32) < 128);
        if is_alphanumeric(c) || c == '-' || c == '_' {
            push_char(&mut r, c);
        }
    }
    assert(name@.take(n as int) =~= name@);
    r
}

/// The socket file of the server named `name`: its safe name and `.sock`.
pub open spec fn socket_file(name: Seq<char>) -> Seq<char> {
    keep_safe(name) + ".sock"@
}

/// The connection-sharing options around the socket path `path`.
pub open spec fn mux_opts(path: Seq<char>) -> Seq<Seq<char>> {
    seq!["-o"@, "ControlMaster=auto"@, "-o"@, "ControlPath="@ + path, "-o"@, "ControlPersist=10m"@]
}

/// `p` is the socket of the server named `name` in the directory `dir`: the
/// socket file joined onto `dir` (where `dir` has no verbatim prefix; with one,
/// `p` keeps it).
pub open spec fn socket_path_in(dir: Seq<char>, name: Seq<char>, p: Seq<char>) -> bool {
    &&& has_suffix(p, socket_file(name))
    &&& !verbatim(dir) ==> is_join(dir, socket_file(name), p)
    &&& verbatim(dir) ==> verbatim(p)
    &&& needs_sep(dir) ==> ends_in_component(p, socket_file(name))
}

/// The socket path inside the connection-sharing options `opts`.
pub open spec fn control_path(opts: Seq<Seq<char>>) -> Seq<char> {
    opts[3].skip(12)
}

/// The options that share one connection per server through a socket named
/// after it in `sockets_dir`: the socket path is `sockets_dir` joined with the
/// safe name and `.sock`.
pub fn multiplexing_opts_in(sockets_dir: &str, server_name: &str) -> (r: Vec<String>)
    ensures
        r.deep_view() == mux_opts(control_path(r.deep_view())),
        socket_path_in(sockets_dir@, server_name@, control_path(r.deep_view())),
        all_ascii(server_name@) ==> has_suffix(
            control_path(r.deep_view()),
            keep_ascii_safe(server_name@) + ".sock"@,
        ),
{
    let safe = safe_socket_name(server_name);
    let file = concat(safe.as_str(), ".sock");
    proof {
        reveal_strlit(".sock");
        reveal_strlit("ControlPath=");
        let f = socket_file(server_name@);
        assert(f == file@);
        assert forall|i: int| 0 <= i < f.len() implies #[trigger] f[i] != '/' && f[i] != '\\' && f[i] != ':' by {
            if i < safe@.len() {
                assert(f[i] == safe@[i]);
            }
        }
        assert(f.len() != seq!['.'].len() && f.len() != seq!['.', '.'].len());
        assert(joinable(f));
    }
    let path = join_checked(sockets_dir, file.as_str());
    let opt = concat("ControlPath=", path.as_str());
    let mut r: Vec<String> = Vec::new();
    push_lit(&mut r, "-o");
    push_lit(&mut r, "ControlMaster=auto");
    push_lit(&mut r, "-o");
    push_arg(&mut r, opt);
    push_lit(&mut r, "-o");
    push_lit(&mut r, "ControlPersist=10m");
    proof {
        assert(opt@.skip(12) =~= path@);
        assert(control_path(r.deep_view()) == path@);
        assert(r.deep_view() =~= mux_opts(path@));
    }
    r
}

/// The connection-sharing options for `server_name`, with its socket in the
/// sockets directory.
pub fn multiplexing_opts(server_name: &str) -> (r: Vec<String>)
    ensures
        r.deep_view() == mux_opts(control_path(r.deep_view())),
        ends_in_component(control_path(r.deep_view()), socket_file(server_name@)),
        !verbatim(control_path(r.deep_view())) ==> exists|d: Seq<char>| sockets_dir_shape(d)
            && #[trigger] is_join(d, socket_file(server_name@), control_path(r.deep_view())),
        all_ascii(server_name@) ==> has_suffix(
            control_path(r.deep_view()),
            keep_ascii_safe(server_name@) + ".sock"@,
        ),
{
    let dir = get_sockets_dir();
    proof {
        reveal_strlit("sockets");
        assert(joinable("sockets"@)) by {
            assert("sockets"@.len() != seq!['.'].len() && "sockets"@.len() != seq!['.', '.'].len());
        }
        lemma_component_needs_sep(dir@, "sockets"@);
    }
    let r = multiplexing_opts_in(dir.as_str(), server_name);
    proof {
        let p = control_path(r.deep_view());
        if !verbatim(p) {
            assert(!verbatim(dir@));
            assert(is_join(dir@, socket_file(server_name@), p));
            assert(sockets_dir_shape(dir@));
        }
    }
    r
}

// ---------------------------------------------------------------------------
// ssh
// ---------------------------------------------------------------------------

/// The path of the key a server names, where the inventory has it (no
/// fallback to `default`).
pub open spec fn named_key_path(keys: Seq<KeyInfo>, key_name: Option<String>) -> Option<Seq<char>> {
    match key_name {
        Some(k) => if pos_of(keys, k@) >= 0 {
            Some(keys[pos_of(keys, k@)].path@)
        } else {
            None
        },
        None => None,
    }
}

/// The arguments of `ssh` for an interactive session on `server`.
pub open spec fn connect_args_spec(keys: Seq<KeyInfo>, s: Server) -> Seq<Seq<char>> {
    (match named_key_path(keys, s.key_name) {
        Some(p) => seq!["-i"@, p],
        None => Seq::empty(),
    }) + seq!["-p"@, decimal(s.port as nat), destination(s)]
}

/// The arguments of `ssh` for an interactive session on `server`: its key
/// where the inventory holds it, its port and `user@host`.
pub fn connect_args(server: &Server, keys: &[KeyInfo]) -> (r: Vec<String>)
    ensures
        r.deep_view() == connect_args_spec(keys@, *server),
{
    let mut r: Vec<String> = Vec::new();
    match &server.key_name {
        Some(k) => {
            match lookup_key(keys, k.as_str()) {
                Ok(key) => {
                    push_lit(&mut r, "-i");
                    push_arg(&mut r, key.path);
                },
                Err(_) => {},
            }
        },
        None => {},
    }
    push_port_and_destination(&mut r, server);
    assert(r.deep_view() =~= connect_args_spec(keys@, *server));
    r
}

/// The arguments of `ssh` that run `remote_cmd` on `server`.
pub open spec fn exec_args_spec(
    keys: Seq<KeyInfo>,
    s: Server,
    remote_cmd: Seq<char>,
) -> Seq<Seq<char>> {
    identity_opts(resolved_key_path(keys, s.key_name)) + seq![
        "-p"@,
        decimal(s.port as nat),
        destination(s),
        remote_cmd,
    ]
}

/// The arguments of `ssh`, after the connection-sharing options, that run
/// `remote_cmd` on `server`: the resolved key, port, `user@host` and the command.
pub fn exec_args(server: &Server, keys: &[KeyInfo], remote_cmd: &str) -> (r: Vec<String>)
    ensures
        r.deep_view() == exec_args_spec(keys@, *server, remote_cmd@),
{
    let mut r: Vec<String> = Vec::new();
    let kp = resolve_key_path(keys, &server.key_name);
    push_identity(&mut r, &kp);
    push_port_and_destination(&mut r, server);
    push_lit(&mut r, remote_cmd);
    assert(r.deep_view() =~= exec_args_spec(keys@, *server, remote_cmd@));
    r
}

/// The arguments of `ssh` that test a login on `server` without prompting.
pub open spec fn ping_args_spec(keys: Seq<KeyInfo>, s: Server) -> Seq<Seq<char>> {
    identity_opts(resolved_key_path(keys, s.key_name)) + seq![
        "-o"@,
        "ConnectTimeout=5"@,
        "-o"@,
        "BatchMode=yes"@,
        "-p"@,
        decimal(s.port as nat),
        destination(s),
        "exit"@,
    ]
}

/// The arguments of `ssh`, after the connection-sharing options, that log in
/// to `server` with a five second timeout, without prompting, and leave at once.
pub fn ping_args(server: &Server, keys: &[KeyInfo]) -> (r: Vec<String>)
    ensures
        r.deep_view() == ping_args_spec(keys@, *server),
{
    let mut r: Vec<String> = Vec::new();
    let kp = resolve_key_path(keys, &server.key_name);
    push_identity(&mut r, &kp);
    push_lit(&mut r, "-o");
    push_lit(&mut r, "ConnectTimeout=5");
    push_lit(&mut r, "-o");
    push_lit(&mut r, "BatchMode=yes");
    push_port_and_destination(&mut r, server);
    push_lit(&mut r, "exit");
    assert(r.deep_view() =~= ping_args_spec(keys@, *server));
    r
}

/// The arguments of `ssh` that run `remote_cmd` on `server` with the key at
/// `identity` where one is given (and no `IdentitiesOnly`).
pub open spec fn remote_command_args_spec(
    s: Server,
    identity: Option<Seq<char>>,
    remote_cmd: Seq<char>,
) -> Seq<Seq<char>> {
    (match identity {
        Some(p) => seq!["-i"@, p],
        None => Seq::empty(),
    }) + seq!["-p"@, decimal(s.port as nat), destination(s), remote_cmd]
}

/// The arguments of `ssh` that run `remote_cmd` on `server`, with the key at
/// `identity` where one is given.
pub fn remote_command_args(server: &Server, identity: &Option<String>, remote_cmd: &str) -> (r: Vec<String>)
    ensures
        r.deep_view() == remote_command_args_spec(*server, opt_view(*identity), remote_cmd@),
{
    let mut r: Vec<String> = Vec::new();
    match identity {
        Some(p) => {
            push_lit(&mut r, "-i");
            push_arg(&mut r, p.clone());
        },
        None => {},
    }
    push_port_and_destination(&mut r, server);
    push_lit(&mut r, remote_cmd);
    assert(r.deep_view() =~= remote_command_args_spec(*server, opt_view(*identity), remote_cmd@));
    r
}

/// The arguments of `ssh` that check that the key at `key_path` logs in to
/// `server`: the remote side answers `OK`.
pub open spec fn verify_login_args_spec(s: Server, key_path: Seq<char>) -> Seq<Seq<char>> {
    seq![
        "-i"@,
        key_path,
        "-o"@,
        "BatchMode=yes"@,
        "-o"@,
        "ConnectTimeout=5"@,
        "-p"@,
        decimal(s.port as nat),
        destination(s),
        "echo OK"@,
    ]
}

/// The arguments of `ssh` that check that the key at `key_path` logs in to `server`.
pub fn verify_login_args(server: &Server, key_path: &str) -> (r: Vec<String>)
    ensures
        r.deep_view() == verify_login_args_spec(*server, key_path@),
{
    let mut r: Vec<String> = Vec::new();
    push_lit(&mut r, "-i");
    push_lit(&mut r, key_path);
    push_lit(&mut r, "-o");
    push_lit(&mut r, "BatchMode=yes");
    push_lit(&mut r, "-o");
    push_lit(&mut r, "ConnectTimeout=5");
    push_port_and_destination(&mut r, server);
    push_lit(&mut r, "echo OK");
    assert(r.deep_view() =~= verify_login_args_spec(*server, key_path@));
    r
}

/// The arguments of `ssh-copy-id` that install the public key at `pub_path` on `server`.
pub fn copy_id_args(server: &Server, pub_path: &str) -> (r: Vec<String>)
    ensures
        r.deep_view() == seq!["-i"@, pub_path@, "-p"@, decimal(server.port as nat), destination(*server)],
{
    let mut r: Vec<String> = Vec::new();
    push_lit(&mut r, "-i");
    push_lit(&mut r, pub_path);
    push_port_and_destination(&mut r, server);
    assert(r.deep_view() =~= seq![
        "-i"@,
        pub_path@,
        "-p"@,
        decimal(server.port as nat),
        destination(*server),
    ]);
    r
}

/// The arguments of `ssh-keygen` that create an Ed25519 key without
/// passphrase at `path`.
pub fn keygen_args(path: &str) -> (r: Vec<String>)
    ensures
        r.deep_view() == seq!["-t"@, "ed25519"@, "-N"@, ""@, "-f"@, path@],
{
    let mut r: Vec<String> = Vec::new();
    push_lit(&mut r, "-t");
    push_lit(&mut r, "ed25519");
    push_lit(&mut r, "-N");
    push_lit(&mut r, "");
    push_lit(&mut r, "-f");
    push_lit(&mut r, path);
    assert(r.deep_view() =~= seq!["-t"@, "ed25519"@, "-N"@, ""@, "-f"@, path@]);
    r
}

// ---------------------------------------------------------------------------
// Remote edits of authorized_keys
// ---------------------------------------------------------------------------

/// The remote shell command that appends a public key to `authorized_keys`,
/// creating `~/.ssh` with the modes OpenSSH expects.
pub open spec fn append_key_command_spec(pub_key: Seq<char>) -> Seq<char> {
    "mkdir -p ~/.ssh && chmod 700 ~/.ssh && echo '"@ + trim(pub_key)
        + "' >> ~/.ssh/authorized_keys && chmod 600 ~/.ssh/authorized_keys"@
}

/// The remote command that appends the public key `pub_key_content` (without
/// surrounding white space) to `authorized_keys`.
pub fn append_key_command(pub_key_content: &str) -> (r: String)
    ensures
        r@ == append_key_command_spec(pub_key_content@),
{
    let key = trim_str(pub_key_content);
    let a = concat("mkdir -p ~/.ssh && chmod 700 ~/.ssh && echo '", key.as_str());
    concat(
        a.as_str(),
        "' >> ~/.ssh/authorized_keys && chmod 600 ~/.ssh/authorized_keys",
    )
}

/// The remote shell command that drops every `authorized_keys` line holding `key_body`.
pub open spec fn remove_key_command_spec(key_body: Seq<char>) -> Seq<char> {
    "grep -v '"@ + key_body
        + "' ~/.ssh/authorized_keys > ~/.ssh/authorized_keys.tmp && mv ~/.ssh/authorized_keys.tmp ~/.ssh/authorized_keys && chmod 600 ~/.ssh/authorized_keys"@
}

/// The remote command that removes an old public key from `authorized_keys`,
/// found by its second word (the base64 body); `None` where the public key
/// file holds fewer than two words.
pub fn remove_key_command(old_pub_content: &str) -> (r: Option<String>)
    ensures
        tokens(old_pub_content@).len() >= 2 ==> r is Some && r->0@ == remove_key_command_spec(
            tokens(old_pub_content@)[1],
        ),
        tokens(old_pub_content@).len() < 2 ==> r is None,
{
    let cs = to_chars(old_pub_content);
    match nth_token(cs.as_slice(), 1) {
        Some(body) => {
            let b = from_chars(body.as_slice());
            let a = concat("grep -v '", b.as_str());
            Some(
                concat(
                    a.as_str(),
                    "' ~/.ssh/authorized_keys > ~/.ssh/authorized_keys.tmp && mv ~/.ssh/authorized_keys.tmp ~/.ssh/authorized_keys && chmod 600 ~/.ssh/authorized_keys",
                ),
            )
        },
        None => None,
    }
}

// ---------------------------------------------------------------------------
// Fingerprints
// ---------------------------------------------------------------------------

/// The file whose fingerprint is read: the public half where it exists, else
/// the private key itself.
pub fn fingerprint_source(private_key_path: &str, pub_exists: bool) -> (r: String)
    ensures
        pub_exists ==> r@ == private_key_path@ + ".pub"@,
        !pub_exists ==> r@ == private_key_path@,
{
    if pub_exists {
        concat(private_key_path, ".pub")
    } else {
        owned(private_key_path)
    }
}

/// The fingerprint in the output of `ssh-keygen -lf`
/// (`256 SHA256:... comment (ED25519)`): its second word, or the whole
/// output without surrounding white space where it has fewer than two words.
pub open spec fn fingerprint_of(output: Seq<char>) -> Seq<char> {
    if tokens(output).len() >= 2 {
        tokens(output)[1]
    } else {
        trim(output)
    }
}

/// The fingerprint in the output of `ssh-keygen -lf`.
pub fn parse_fingerprint(output: &str) -> (r: String)
    ensures
        r@ == fingerprint_of(output@),
{
    let cs = to_chars(output);
    match nth_token(cs.as_slice(), 1) {
        Some(w) => from_chars(w.as_slice()),
        None => trim_str(output),
    }
}

// ---------------------------------------------------------------------------
// scp
// ---------------------------------------------------------------------------

/// What `parse_scp_arg` makes of an argument of `copy`: where the text before
/// the first `:` names a server, the argument becomes `user@host:path` with
/// that server's port, resolved key path and name; any other argument is a
/// local path, passed on unchanged.
pub open spec fn scp_arg_spec(arg: Seq<char>, servers: Seq<Server>, keys: Seq<KeyInfo>) -> (
    Seq<char>,
    Option<u16>,
    Option<Seq<char>>,
    Option<Seq<char>>,
) {
    let k = find_char(arg, ':');
    let p = pos_of(servers, arg.take(k as int));
    if k < arg.len() && p >= 0 {
        let s = servers[p];
        (
            destination(s) + ":"@ + arg.skip(k + 1 as int),
            Some(s.port),
            resolved_key_path(keys, s.key_name),
            Some(s.name@),
        )
    } else {
        (arg, None, None, None)
    }
}

/// Reads one argument of `copy`: `server:path` for a registered server, or a
/// local path. Gives the argument for `scp`, the server's port, the path of
/// its key and its name.
pub fn parse_scp_arg(arg: &str, servers: &[Server], keys: &[KeyInfo]) -> (r: (
    String,
    Option<u16>,
    Option<String>,
    Option<String>,
))
    ensures
        (r.0@, r.1, opt_view(r.2), opt_view(r.3)) == scp_arg_spec(arg@, servers@, keys@),
{
    let cs = to_chars(arg);
    let k = index_of(cs.as_slice(), ':');
    proof {
        lemma_find_char(arg@, ':');
    }
    if k < cs.len() {
        let name_chars = sub_chars(cs.as_slice(), 0, k);
        let name = from_chars(name_chars.as_slice());
        let path_chars = sub_chars(cs.as_slice(), k + 1, cs.len());
        let path = from_chars(path_chars.as_slice());
        assert(arg@.subrange(0, k as int) =~= arg@.take(k as int));
        assert(arg@.subrange(k + 1, arg@.len() as int) =~= arg@.skip(k + 1));
        match position_by_name(servers, name.as_str()) {
            Some(p) => {
                proof {
                    crate::registry::lemma_pos_of(servers@, name@);
                }
                let s = &servers[p];
                let d = destination_of(s);
                let d2 = concat(d.as_str(), ":");
                let target = concat(d2.as_str(), path.as_str());
                let key_path = resolve_key_path(keys, &s.key_name);
                return (target, Some(s.port), key_path, Some(s.name.clone()));
            },
            None => {},
        }
    }
    (owned(arg), None, None, None)
}

/// How `copy` runs `scp`: source and destination arguments, and the port, key
/// and server taken from the source where it names a server, else from the
/// destination.
pub struct CopyPlan {
    pub source: String,
    pub destination: String,
    pub port: Option<u16>,
    pub key_path: Option<String>,
    pub server: Option<String>,
}

/// `a`, or `b` where `a` is `None`.
pub open spec fn or_else<T>(a: Option<T>, b: Option<T>) -> Option<T> {
    if a is Some {
        a
    } else {
        b
    }
}

fn first_of_str(a: Option<String>, b: Option<String>) -> (r: Option<String>)
    ensures
        r == or_else(a, b),
{
    match a {
        Some(x) => Some(x),
        None => b,
    }
}

/// The plan of a `copy` from `src` to `dest`.
pub fn copy_plan(src: &str, dest: &str, servers: &[Server], keys: &[KeyInfo]) -> (r: CopyPlan)
    ensures
        ({
            let s = scp_arg_spec(src@, servers@, keys@);
            let d = scp_arg_spec(dest@, servers@, keys@);
            &&& r.source@ == s.0
            &&& r.destination@ == d.0
            &&& r.port == or_else(s.1, d.1)
            &&& opt_view(r.key_path) == or_else(s.2, d.2)
            &&& opt_view(r.server) == or_else(s.3, d.3)
        }),
{
    let (rs, sp, sk, ss) = parse_scp_arg(src, servers, keys);
    let (rd, dp, dk, ds) = parse_scp_arg(dest, servers, keys);
    let port = match sp {
        Some(p) => Some(p),
        None => dp,
    };
    CopyPlan {
        source: rs,
        destination: rd,
        port,
        key_path: first_of_str(sk, dk),
        server: first_of_str(ss, ds),
    }
}

/// The arguments of `scp` for a plan, after the connection-sharing options:
/// the port (`-P`), the key, then source and destination.
pub open spec fn scp_args_spec(
    port: Option<u16>,
    key_path: Option<Seq<char>>,
    source: Seq<char>,
    destination: Seq<char>,
) -> Seq<Seq<char>> {
    (match port {
        Some(p) => seq!["-P"@, decimal(p as nat)],
        None => Seq::empty(),
    }) + identity_opts(key_path) + seq![source, destination]
}

/// The arguments of `scp` for a plan, after the connection-sharing options.
pub fn scp_args(plan: &CopyPlan) -> (r: Vec<String>)
    ensures
        r.deep_view() == scp_args_spec(
            plan.port,
            opt_view(plan.key_path),
            plan.source@,
            plan.destination@,
        ),
{
    let mut r: Vec<String> = Vec::new();
    match plan.port {
        Some(p) => {
            push_lit(&mut r, "-P");
            push_arg(&mut r, decimal_string(p as u64));
        },
        None => {},
    }
    push_identity(&mut r, &plan.key_path);
    push_arg(&mut r, plan.source.clone());
    push_arg(&mut r, plan.destination.clone());
    assert(r.deep_view() =~= scp_args_spec(
        plan.port,
        opt_view(plan.key_path),
        plan.source@,
        plan.destination@,
    ));
    r
}

// ---------------------------------------------------------------------------
// Laws
// ---------------------------------------------------------------------------

/// `a` gives the option `flag` the value `value` right before the argument `target`.
pub open spec fn option_before(a: Seq<Seq<char>>, flag: Seq<char>, value: Seq<char>, target: Seq<char>) -> bool {
    exists|i: int| 0 <= i && i + 2 < a.len() && #[trigger] a[i] == flag && a[i + 1] == value && a[i + 2] == target
}

/// Law: the login check of a rotation logs in with the new key and reaches
/// the server at `user@host` on the server's own port, then runs `echo OK`.
pub proof fn lemma_verify_login_reaches_port(s: Server, key_path: Seq<char>)
    ensures
        option_before(verify_login_args_spec(s, key_path), "-p"@, decimal(s.port as nat), destination(s)),
        verify_login_args_spec(s, key_path)[0] == "-i"@,
        verify_login_args_spec(s, key_path)[1] == key_path,
        verify_login_args_spec(s, key_path).last() == "echo OK"@,
{
    let a = verify_login_args_spec(s, key_path);
    assert(a[6] == "-p"@ && a[7] == decimal(s.port as nat) && a[8] == destination(s));
}

/// Law: a remote command (as the installation of a key runs it) reaches the
/// server at `user@host` on the server's own port, and is the last argument.
pub proof fn lemma_remote_command_reaches_port(s: Server, identity: Option<Seq<char>>, cmd: Seq<char>)
    ensures
        option_before(remote_command_args_spec(s, identity, cmd), "-p"@, decimal(s.port as nat), destination(s)),
        remote_command_args_spec(s, identity, cmd).last() == cmd,
{
    let a = remote_command_args_spec(s, identity, cmd);
    let k: int = if identity is Some { 2 } else { 0 };
    assert(a[k] == "-p"@ && a[k + 1] == decimal(s.port as nat) && a[k + 2] == destination(s));
}

/// Law: `exec` sends the command to the server at `user@host` on the
/// server's own port, and the command is the last argument.
pub proof fn lemma_exec_reaches_port(keys: Seq<KeyInfo>, s: Server, cmd: Seq<char>)
    ensures
        option_before(exec_args_spec(keys, s, cmd), "-p"@, decimal(s.port as nat), destination(s)),
        exec_args_spec(keys, s, cmd).last() == cmd,
{
    let a = exec_args_spec(keys, s, cmd);
    let k: int = if resolved_key_path(keys, s.key_name) is Some { 4 } else { 0 };
    assert(a[k] == "-p"@ && a[k + 1] == decimal(s.port as nat) && a[k + 2] == destination(s));
}

/// Law: `connect` passes `-i` exactly where the inventory holds a key of the
/// server's key name, and then with the path of the first key of that name;
/// it reaches the server at `user@host` on its own port.
pub proof fn lemma_connect_identity(keys: Seq<KeyInfo>, s: Server)
    ensures
        ({
            let a = connect_args_spec(keys, s);
            match s.key_name {
                Some(k) => if exists|j: int| 0 <= j < keys.len() && #[trigger] keys[j].name@ == k@ {
                    exists|j: int|
                        0 <= j < keys.len() && #[trigger] keys[j].name@ == k@ && (forall|i: int|
                            0 <= i < j ==> keys[i].name@ != k@) && a == seq![
                            "-i"@,
                            keys[j].path@,
                            "-p"@,
                            decimal(s.port as nat),
                            destination(s),
                        ]
                } else {
                    a == seq!["-p"@, decimal(s.port as nat), destination(s)]
                },
                None => a == seq!["-p"@, decimal(s.port as nat), destination(s)],
            }
        }),
{
    let a = connect_args_spec(keys, s);
    if let Some(k) = s.key_name {
        lemma_pos_of(keys, k@);
        let p = pos_of(keys, k@);
        if exists|j: int| 0 <= j < keys.len() && #[trigger] keys[j].name@ == k@ {
            let j = choose|j: int| 0 <= j < keys.len() && #[trigger] keys[j].name@ == k@;
            assert(keys[j].name_view() == k@);
            assert(p >= 0);
            assert forall|i: int| 0 <= i < p implies keys[i].name@ != k@ by {
                assert(keys[i].name_view() != k@);
            }
            assert(keys[p].name_view() == k@);
            assert(a =~= seq!["-i"@, keys[p].path@, "-p"@, decimal(s.port as nat), destination(s)]);
        } else {
            if p >= 0 {
                assert(keys[p].name_view() == k@);
            }
            assert(a =~= seq!["-p"@, decimal(s.port as nat), destination(s)]);
        }
    } else {
        assert(a =~= seq!["-p"@, decimal(s.port as nat), destination(s)]);
    }
}

/// Law: copying a local file (an argument without `:`) to `name:path`, where
/// `servers[j]` is the first server named `name`, uploads to `user@host:path`
/// of that server with its port, the path of its key and its name: the plan
/// takes each of them from the destination where the source names no server.
pub proof fn lemma_copy_to_server(
    src: Seq<char>,
    name: Seq<char>,
    path: Seq<char>,
    servers: Seq<Server>,
    keys: Seq<KeyInfo>,
    j: int,
)
    requires
        forall|i: int| 0 <= i < src.len() ==> src[i] != ':',
        forall|i: int| 0 <= i < name.len() ==> name[i] != ':',
        0 <= j < servers.len(),
        servers[j].name@ == name,
        forall|i: int| 0 <= i < j ==> servers[i].name@ != name,
    ensures
        ({
            let sp = scp_arg_spec(src, servers, keys);
            let dp = scp_arg_spec(name + ":"@ + path, servers, keys);
            &&& sp.0 == src
            &&& dp.0 == servers[j].user@ + "@"@ + servers[j].host@ + ":"@ + path
            &&& or_else(sp.1, dp.1) == Some(servers[j].port)
            &&& or_else(sp.2, dp.2) == resolved_key_path(keys, servers[j].key_name)
            &&& or_else(sp.3, dp.3) == Some(name)
        }),
{
    reveal_strlit(":");
    let dest = name + ":"@ + path;
    crate::text::lemma_find_char_unique(src, ':', src.len());
    assert forall|i: int| 0 <= i < name.len() implies dest[i] != ':' by {
        assert(dest[i] == name[i]);
    }
    assert(dest[name.len() as int] == ':');
    crate::text::lemma_find_char_unique(dest, ':', name.len());
    assert(dest.take(name.len() as int) =~= name);
    assert(dest.skip(name.len() + 1 as int) =~= path);
    assert forall|i: int| 0 <= i < j implies #[trigger] servers[i].name_view() != name by {
        assert(servers[i].name_view() == servers[i].name@);
    }
    assert(servers[j].name_view() == name);
    crate::registry::lemma_pos_of_unique(servers, name, j);
}

/// Law: `ping` logs in to the server at `user@host` on its own port and
/// leaves at once.
pub proof fn lemma_ping_reaches_port(keys: Seq<KeyInfo>, s: Server)
    ensures
        option_before(ping_args_spec(keys, s), "-p"@, decimal(s.port as nat), destination(s)),
        ping_args_spec(keys, s).last() == "exit"@,
{
    let a = ping_args_spec(keys, s);
    let k: int = if resolved_key_path(keys, s.key_name) is Some { 8 } else { 4 };
    assert(a[k] == "-p"@ && a[k + 1] == decimal(s.port as nat) && a[k + 2] == destination(s));
}

/// Law: `scp` is given the plan's port with `-P` first where the plan has
/// one and the key with `-i` where it has one, and it ends with the source
/// and the destination.
pub proof fn lemma_scp_args_shape(
    port: Option<u16>,
    key_path: Option<Seq<char>>,
    source: Seq<char>,
    destination: Seq<char>,
)
    ensures
        ({
            let a = scp_args_spec(port, key_path, source, destination);
            &&& a.len() >= 2 && a[a.len() - 2] == source && a[a.len() - 1] == destination
            &&& port matches Some(p) ==> a[0] == "-P"@ && a[1] == decimal(p as nat)
            &&& key_path matches Some(k) ==> exists|i: int| 0 <= i && i + 1 < a.len() && #[trigger] a[i] == "-i"@ && a[i + 1] == k
        }),
{
    let a = scp_args_spec(port, key_path, source, destination);
    let b: int = if port is Some { 2 } else { 0 };
    if let Some(k) = key_path {
        assert(a[b] == "-i"@ && a[b + 1] == k);
    }
}

} // verus!
