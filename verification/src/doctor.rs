//! The verdicts of `doctor`: which of the facts it gathers count as problems.
use vstd::prelude::*;
use crate::model::{Server, KeyInfo, Named};
use crate::registry::{has_name, name_taken};
use crate::text::{to_chars, from_chars, contains, contains_seq, trim, trim_chars, tokens, split_tokens,
    has_prefix, starts_with, str_eq, decimal, decimal_string};
use crate::args::{push_arg, push_lit};

verus! {

/// The permission bits of a file mode.
pub open spec fn perm_bits(mode: u32) -> u32 {
    mode & 0o777u32
}

/// Whether the configuration directory's mode is the expected `700`.
pub fn config_dir_mode_ok(mode: u32) -> (b: bool)
    ensures
        b == (perm_bits(mode) == 0o700u32),
{
    mode & 0o777u32 == 0o700u32
}

/// Whether a private key file's mode is the expected `600`.
pub fn private_key_mode_ok(mode: u32) -> (b: bool)
    ensures
        b == (perm_bits(mode) == 0o600u32),
{
    mode & 0o777u32 == 0o600u32
}

/// What `doctor` found on disk about one key of the inventory.
#[derive(Debug, Clone, Copy)]
pub struct KeyFileCheck {
    /// The private key file exists.
    pub private_exists: bool,
    /// Its mode, where it could be read (only on Unix).
    pub private_mode: Option<u32>,
    /// The public key file exists.
    pub public_exists: bool,
}

/// How `ssh-agent -s` answered.
#[derive(Debug)]
pub enum AgentProbe {
    /// It ran and succeeded.
    Available,
    /// It ran and failed, with this error output.
    Failed(String),
    /// It could not be run.
    Missing,
}

/// The problems found with one key: a missing private file, or else one
/// whose mode is not `600`; and a missing public file.
pub open spec fn key_issues(c: KeyFileCheck) -> nat {
    (if !c.private_exists {
        1nat
    } else if c.private_mode matches Some(m) && perm_bits(m) != 0o600u32 {
        1nat
    } else {
        0nat
    }) + if !c.public_exists {
        1nat
    } else {
        0nat
    }
}

/// The server names a key that the inventory does not hold.
pub open spec fn dangling_key(s: Server, keys: Seq<KeyInfo>) -> bool {
    s.key_name matches Some(k) && !has_name(keys, k@)
}

/// Whether the server names a key that the inventory does not hold.
pub fn has_dangling_key(s: &Server, keys: &[KeyInfo]) -> (b: bool)
    ensures
        b == dangling_key(*s, keys@),
{
    match &s.key_name {
        Some(k) => !name_taken(keys, k.as_str()),
        None => false,
    }
}

/// Law: a server's key counts as missing exactly when it names a key and no
/// key at any index of the inventory carries that name.
pub proof fn lemma_dangling_key_means_absent(s: Server, keys: Seq<KeyInfo>)
    ensures
        dangling_key(s, keys) <==> (s.key_name matches Some(k) && forall|i: int|
            0 <= i < keys.len() ==> #[trigger] keys[i].name@ != k@),
{
    if let Some(k) = s.key_name {
        if has_name(keys, k@) {
            let i = choose|i: int| 0 <= i < keys.len() && #[trigger] keys[i].name_view() == k@;
            assert(keys[i].name@ == k@);
        } else {
            assert forall|i: int| 0 <= i < keys.len() implies #[trigger] keys[i].name@ != k@ by {
                assert(keys[i].name_view() == keys[i].name@);
            }
        }
    }
}

/// The problems found with one server: a dangling key, an unreachable port,
/// and a host key whose fingerprint has changed.
pub open spec fn server_issues(s: Server, keys: Seq<KeyInfo>, reachable: bool, changed: bool) -> nat {
    (if dangling_key(s, keys) {
        1nat
    } else {
        0nat
    }) + (if !reachable {
        1nat
    } else {
        0nat
    }) + if changed {
        1nat
    } else {
        0nat
    }
}

/// The problems found with the keys, summed.
pub open spec fn keys_issues(cs: Seq<KeyFileCheck>) -> nat
    decreases cs.len(),
{
    if cs.len() == 0 {
        0
    } else {
        keys_issues(cs.drop_last()) + key_issues(cs.last())
    }
}

/// The problems found with the servers, summed.
pub open spec fn servers_issues(
    ss: Seq<Server>,
    keys: Seq<KeyInfo>,
    reachable: Seq<bool>,
    changed: Seq<bool>,
) -> nat
    decreases ss.len(),
{
    if ss.len() == 0 {
        0
    } else {
        servers_issues(ss.drop_last(), keys, reachable, changed) + server_issues(
            ss.last(),
            keys,
            reachable[ss.len() - 1],
            changed[ss.len() - 1],
        )
    }
}

/// What `doctor` found of the two inventory files: each is `true` where the
/// file exists but does not parse.
#[derive(Debug, Clone, Copy)]
pub struct ConfigFiles {
    /// The servers file is invalid.
    pub servers_invalid: bool,
    /// The keys file is invalid.
    pub keys_invalid: bool,
}

/// The problems found with the inventory files: one for each invalid file.
pub open spec fn config_issues(f: ConfigFiles) -> nat {
    (if f.servers_invalid {
        1nat
    } else {
        0nat
    }) + if f.keys_invalid {
        1nat
    } else {
        0nat
    }
}

/// All problems `doctor` reports: a configuration directory whose mode is
/// not `700`, an invalid inventory file, those of the keys and of the
/// servers, and an agent that could not be started.
pub open spec fn total_issues(
    dir_mode: Option<u32>,
    files: ConfigFiles,
    key_checks: Seq<KeyFileCheck>,
    servers: Seq<Server>,
    keys: Seq<KeyInfo>,
    reachable: Seq<bool>,
    changed: Seq<bool>,
    agent: AgentProbe,
) -> nat {
    (if dir_mode matches Some(m) && perm_bits(m) != 0o700u32 {
        1nat
    } else {
        0nat
    }) + config_issues(files) + keys_issues(key_checks) + servers_issues(servers, keys, reachable, changed)
        + if agent is Available {
        0nat
    } else {
        1nat
    }
}

/// The number of problems in the key checks.
pub fn count_key_issues(c: &KeyFileCheck) -> (n: usize)
    ensures
        n == key_issues(*c),
{
    let mut n: usize = 0;
    if !c.private_exists {
        n = 1;
    } else {
        match c.private_mode {
            Some(m) => {
                if !private_key_mode_ok(m) {
                    n = 1;
                }
            },
            None => {},
        }
    }
    if !c.public_exists {
        n = n + 1;
    }
    n
}

/// The number of problems `doctor` reports for the facts it gathered:
/// `reachable[i]` tells whether the port of `servers[i]` answered, and
/// `changed[i]` whether its host key fingerprint changed.
pub fn count_issues(
    dir_mode: Option<u32>,
    files: ConfigFiles,
    key_checks: &[KeyFileCheck],
    servers: &[Server],
    keys: &[KeyInfo],
    reachable: &[bool],
    changed: &[bool],
    agent: &AgentProbe,
) -> (n: usize)
    requires
        reachable@.len() == servers@.len(),
        changed@.len() == servers@.len(),
        2 * key_checks@.len() + 3 * servers@.len() + 4 <= usize::MAX,
    ensures
        n == total_issues(dir_mode, files, key_checks@, servers@, keys@, reachable@, changed@, *agent),
{
    let mut n: usize = 0;
    match dir_mode {
        Some(m) => {
            if !config_dir_mode_ok(m) {
                n = 1;
            }
        },
        None => {},
    }
    if files.servers_invalid {
        n = n + 1;
    }
    if files.keys_invalid {
        n = n + 1;
    }
    let ghost base = n;
    let kn = key_checks.len();
    for i in 0..kn
        invariant
            kn == key_checks@.len(),
            base <= 3,
            2 * key_checks@.len() + 3 * servers@.len() + 4 <= usize::MAX,
            n == base + keys_issues(key_checks@.take(i as int)),
            keys_issues(key_checks@.take(i as int)) <= 2 * i,
    {
        assert(key_checks@.take(i + 1).drop_last() =~= key_checks@.take(i as int));
        n = n + count_key_issues(&key_checks[i]);
    }
    assert(key_checks@.take(kn as int) =~= key_checks@);
    let ghost mid = n;
    let sn = servers.len();
    for i in 0..sn
        invariant
            sn == servers@.len(),
            reachable@.len() == sn,
            changed@.len() == sn,
            mid <= 3 + 2 * key_checks@.len(),
            2 * key_checks@.len() + 3 * servers@.len() + 4 <= usize::MAX,
            n == mid + servers_issues(servers@.take(i as int), keys@, reachable@, changed@),
            servers_issues(servers@.take(i as int), keys@, reachable@, changed@) <= 3 * i,
    {
        assert(servers@.take(i + 1).drop_last() =~= servers@.take(i as int));
        if has_dangling_key(&servers[i], keys) {
            n = n + 1;
        }
        if !reachable[i] {
            n = n + 1;
        }
        if changed[i] {
            n = n + 1;
        }
    }
    assert(servers@.take(sn as int) =~= servers@);
    match agent {
        AgentProbe::Available => {},
        _ => {
            n = n + 1;
        },
    }
    n
}

// ---------------------------------------------------------------------------
// Host key fingerprints
// ---------------------------------------------------------------------------

/// The words of `ws` that are SHA256 fingerprints (they start with
/// `SHA256:`), in order.
pub open spec fn sha256_words(ws: Seq<Seq<char>>) -> Seq<Seq<char>>
    decreases ws.len(),
{
    if ws.len() == 0 {
        Seq::empty()
    } else if has_prefix(ws.last(), "SHA256:"@) {
        sha256_words(ws.drop_last()).push(ws.last())
    } else {
        sha256_words(ws.drop_last())
    }
}

/// The host key fingerprints listed in an output of `ssh-keygen -l`.
pub open spec fn listed_fingerprints(output: Seq<char>) -> Seq<Seq<char>> {
    sha256_words(tokens(output))
}

/// The host key fingerprints listed in an output of `ssh-keygen -l`, such as
/// `example.com ED25519 SHA256:...` or `256 SHA256:... example.com (ED25519)`.
pub fn parse_fingerprints(output: &str) -> (r: Vec<String>)
    ensures
        r.deep_view() == listed_fingerprints(output@),
{
    let cs = to_chars(output);
    let ws = split_tokens(cs.as_slice());
    let prefix = to_chars("SHA256:");
    let mut r: Vec<String> = Vec::new();
    let n = ws.len();
    for i in 0..n
        invariant
            n == ws.deep_view().len(),
            ws.deep_view() == tokens(output@),
            prefix@ == "SHA256:"@,
            r.deep_view() == sha256_words(ws.deep_view().take(i as int)),
    {
        assert(ws.deep_view().take(i + 1).drop_last() =~= ws.deep_view().take(i as int));
        assert(ws@[i as int]@ == ws.deep_view()[i as int]);
        if starts_with(ws[i].as_slice(), prefix.as_slice()) {
            push_arg(&mut r, from_chars(ws[i].as_slice()));
        }
    }
    assert(ws.deep_view().take(n as int) =~= ws.deep_view());
    r
}

/// The host key changed: the known hosts file holds fingerprints for the
/// host, the host offers some, and none of those it offers was known.
pub open spec fn key_changed(known: Seq<Seq<char>>, offered: Seq<Seq<char>>) -> bool {
    &&& known.len() > 0
    &&& offered.len() > 0
    &&& forall|i: int, j: int|
        0 <= i < known.len() && 0 <= j < offered.len() ==> #[trigger] known[i] != #[trigger] offered[j]
}

/// Whether the host key changed, given the fingerprints that the known hosts
/// file holds for the host and those that the host offers now.
pub fn host_key_changed(known: &[String], offered: &[String]) -> (b: bool)
    ensures
        b == key_changed(known.deep_view(), offered.deep_view()),
{
    if known.len() == 0 || offered.len() == 0 {
        return false;
    }
    let kn = known.len();
    let on = offered.len();
    for i in 0..kn
        invariant
            kn == known.deep_view().len(),
            on == offered.deep_view().len(),
            forall|a: int, c: int|
                0 <= a < i && 0 <= c < on ==> #[trigger] known.deep_view()[a]
                    != #[trigger] offered.deep_view()[c],
    {
        for j in 0..on
            invariant
                kn == known.deep_view().len(),
                on == offered.deep_view().len(),
                i < kn,
                forall|a: int, c: int|
                    0 <= a < i && 0 <= c < on ==> #[trigger] known.deep_view()[a]
                        != #[trigger] offered.deep_view()[c],
                forall|c: int| 0 <= c < j ==> known.deep_view()[i as int] != #[trigger] offered.deep_view()[c],
        {
            assert(known@[i as int]@ == known.deep_view()[i as int]);
            assert(offered@[j as int]@ == offered.deep_view()[j as int]);
            if str_eq(known[i].as_str(), offered[j].as_str()) {
                return false;
            }
        }
    }
    true
}

/// The host name under which the known hosts file lists a server: the host
/// itself on port 22, else `[host]:port`.
pub open spec fn known_host_name(s: Server) -> Seq<char> {
    if s.port == 22 {
        s.host@
    } else {
        "["@ + s.host@ + "]:"@ + decimal(s.port as nat)
    }
}

/// The arguments of `ssh-keygen` that list the fingerprints the known hosts
/// file holds for a server.
pub fn known_host_args(s: &Server) -> (r: Vec<String>)
    ensures
        r.deep_view() == seq!["-l"@, "-F"@, known_host_name(*s)],
{
    let name = if s.port == 22 {
        s.host.clone()
    } else {
        let a = crate::text::concat("[", s.host.as_str());
        let b = crate::text::concat(a.as_str(), "]:");
        crate::text::concat(b.as_str(), decimal_string(s.port as u64).as_str())
    };
    let mut r: Vec<String> = Vec::new();
    push_lit(&mut r, "-l");
    push_lit(&mut r, "-F");
    push_arg(&mut r, name);
    r
}

/// The arguments of `ssh-keyscan` that fetch the host keys a server offers.
pub fn keyscan_args(s: &Server) -> (r: Vec<String>)
    ensures
        r.deep_view() == seq!["-p"@, decimal(s.port as nat), s.host@],
{
    let mut r: Vec<String> = Vec::new();
    push_lit(&mut r, "-p");
    push_arg(&mut r, decimal_string(s.port as u64));
    push_arg(&mut r, s.host.clone());
    r
}

/// Whether a failing agent's error output is Windows' "service disabled"
/// error (code 1058), for which `doctor` adds a hint.
pub fn agent_service_disabled(stderr: &str) -> (b: bool)
    ensures
        b == contains_seq(trim(stderr@), "1058"@),
{
    let cs = to_chars(stderr);
    let t = trim_chars(cs.as_slice());
    let code = to_chars("1058");
    contains(t.as_slice(), code.as_slice())
}

} // verus!
