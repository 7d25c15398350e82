//! The SSH agent: reading the environment that `ssh-agent -s` prints,
//! printing it back for a shell, and reading the answers of `ssh-add`.
use vstd::prelude::*;
use crate::model::{AgentEnv, KeyInfo};
use crate::registry::{pos_of, lookup_key, InventoryError};
use crate::text::{has_prefix, strip_all_prefix, find_char, lines, parse_u32_spec, to_chars, from_chars,
    split_lines, starts_with, index_of, sub_chars, trim_start_matches, parse_u32, contains,
    contains_seq, trim, trim_str, concat, owned, decimal, decimal_string};
use crate::args::{push_arg, push_lit};

verus! {

/// The prefix of the line that sets the agent's socket.
pub open spec fn sock_var() -> Seq<char> {
    "SSH_AUTH_SOCK="@
}

/// The prefix of the line that sets the agent's process id.
pub open spec fn pid_var() -> Seq<char> {
    "SSH_AGENT_PID="@
}

/// The part of a line before its first `;` (all of it where it has none).
pub open spec fn before_semicolon(line: Seq<char>) -> Seq<char> {
    line.take(find_char(line, ';') as int)
}

/// The socket and process id known after reading one more line of the
/// output of `ssh-agent -s`: a socket line sets the socket, a process id line
/// with a valid number sets the process id, any other line changes nothing.
pub open spec fn agent_step(state: (Seq<char>, u32), line: Seq<char>) -> (Seq<char>, u32) {
    if has_prefix(line, sock_var()) {
        (strip_all_prefix(before_semicolon(line), sock_var()), state.1)
    } else if has_prefix(line, pid_var()) {
        match parse_u32_spec(strip_all_prefix(before_semicolon(line), pid_var())) {
            Some(p) => (state.0, p),
            None => state,
        }
    } else {
        state
    }
}

/// The socket and process id after reading `ls` in order, starting from an
/// empty socket and process id 0.
pub open spec fn agent_scan(ls: Seq<Seq<char>>) -> (Seq<char>, u32)
    decreases ls.len(),
{
    if ls.len() == 0 {
        (Seq::empty(), 0u32)
    } else {
        agent_step(agent_scan(ls.drop_last()), ls.last())
    }
}

/// The agent that the output of `ssh-agent -s` describes: `None` where it
/// leaves the socket empty or the process id 0.
pub open spec fn agent_env_spec(output: Seq<char>) -> Option<(Seq<char>, u32)> {
    let st = agent_scan(lines(output));
    if st.0.len() == 0 || st.1 == 0 {
        None
    } else {
        Some(st)
    }
}

/// Why the output of `ssh-agent -s` was refused.
#[derive(Debug, PartialEq, Eq, Clone, Copy)]
pub enum AgentError {
    /// The output does not set both the socket and a non-zero process id.
    MissingVariables,
}

/// Reads the agent's socket and process id from the output of `ssh-agent -s`.
pub fn parse_agent_output(output: &str) -> (r: Result<AgentEnv, AgentError>)
    ensures
        match r {
            Ok(env) => agent_env_spec(output@) == Some((env.socket@, env.pid)),
            Err(e) => agent_env_spec(output@) is None && e == AgentError::MissingVariables,
        },
{
    let cs = to_chars(output);
    let ls = split_lines(cs.as_slice());
    let sock_prefix = to_chars("SSH_AUTH_SOCK=");
    let pid_prefix = to_chars("SSH_AGENT_PID=");
    let mut socket: Vec<char> = Vec::new();
    let mut pid: u32 = 0;
    let n = ls.len();
    for i in 0..n
        invariant
            n == ls@.len(),
            ls.deep_view() == lines(output@),
            sock_prefix@ == sock_var(),
            pid_prefix@ == pid_var(),
            (socket@, pid) == agent_scan(ls.deep_view().take(i as int)),
    {
        let line = &ls[i];
        assert(ls.deep_view()[i as int] == line@);
        assert(ls.deep_view().take(i + 1).drop_last() =~= ls.deep_view().take(i as int));
        assert(ls.deep_view().take(i + 1).last() == line@);
        if starts_with(line.as_slice(), sock_prefix.as_slice()) {
            let k = index_of(line.as_slice(), ';');
            proof {
                crate::text::lemma_find_char(line@, ';');
            }
            let head = sub_chars(line.as_slice(), 0, k);
            assert(head@ =~= before_semicolon(line@));
            socket = trim_start_matches(head.as_slice(), sock_prefix.as_slice());
        } else if starts_with(line.as_slice(), pid_prefix.as_slice()) {
            let k = index_of(line.as_slice(), ';');
            proof {
                crate::text::lemma_find_char(line@, ';');
            }
            let head = sub_chars(line.as_slice(), 0, k);
            assert(head@ =~= before_semicolon(line@));
            let digits = trim_start_matches(head.as_slice(), pid_prefix.as_slice());
            match parse_u32(digits.as_slice()) {
                Some(p) => {
                    pid = p;
                },
                None => {},
            }
        }
    }
    assert(ls.deep_view().take(n as int) =~= ls.deep_view());
    if socket.len() == 0 || pid == 0 {
        return Err(AgentError::MissingVariables);
    }
    Ok(AgentEnv { socket: from_chars(socket.as_slice()), pid })
}

/// The lines that `agent start` prints for `eval` in a shell.
pub open spec fn export_lines_spec(socket: Seq<char>, pid: u32) -> Seq<Seq<char>> {
    seq![
        sock_var() + socket + "; export SSH_AUTH_SOCK;"@,
        pid_var() + decimal(pid as nat) + "; export SSH_AGENT_PID;"@,
        "echo Agent pid "@ + decimal(pid as nat) + ";"@,
    ]
}

/// The lines that `agent start` prints, in the form of `ssh-agent -s`.
pub fn export_lines(env: &AgentEnv) -> (r: Vec<String>)
    ensures
        r.deep_view() == export_lines_spec(env.socket@, env.pid),
{
    let pid = decimal_string(env.pid as u64);
    let a = concat("SSH_AUTH_SOCK=", env.socket.as_str());
    let l1 = concat(a.as_str(), "; export SSH_AUTH_SOCK;");
    let b = concat("SSH_AGENT_PID=", pid.as_str());
    let l2 = concat(b.as_str(), "; export SSH_AGENT_PID;");
    let c = concat("echo Agent pid ", pid.as_str());
    let l3 = concat(c.as_str(), ";");
    let mut r: Vec<String> = Vec::new();
    push_arg(&mut r, l1);
    push_arg(&mut r, l2);
    push_arg(&mut r, l3);
    assert(r.deep_view() =~= export_lines_spec(env.socket@, env.pid));
    r
}

/// The variables that a child command gets so that it reaches the agent:
/// none where the shell already has a socket, else those of the saved agent.
pub open spec fn agent_vars_spec(shell_has_socket: bool, saved: Option<AgentEnv>) -> Seq<(Seq<char>, Seq<char>)> {
    if shell_has_socket {
        Seq::empty()
    } else {
        match saved {
            Some(e) => seq![("SSH_AUTH_SOCK"@, e.socket@), ("SSH_AGENT_PID"@, decimal(e.pid as nat))],
            None => Seq::empty(),
        }
    }
}

/// The environment variables that connect a child command to the agent.
pub fn agent_vars(shell_has_socket: bool, saved: &Option<AgentEnv>) -> (r: Vec<(String, String)>)
    ensures
        r@.len() == agent_vars_spec(shell_has_socket, *saved).len(),
        forall|i: int| 0 <= i < r@.len() ==> (#[trigger] r@[i].0@, r@[i].1@) == agent_vars_spec(
            shell_has_socket,
            *saved,
        )[i],
{
    let mut r: Vec<(String, String)> = Vec::new();
    if shell_has_socket {
        return r;
    }
    match saved {
        Some(e) => {
            r.push((owned("SSH_AUTH_SOCK"), e.socket.clone()));
            r.push((owned("SSH_AGENT_PID"), decimal_string(e.pid as u64)));
        },
        None => {},
    }
    r
}

/// What `agent list` reports.
#[derive(Debug, PartialEq, Eq)]
pub enum AgentListing {
    /// `ssh-add -l` succeeded: its output lists the keys.
    Keys(String),
    /// The agent holds no key.
    NoKeys,
    /// `ssh-add -l` failed for another reason, given without surrounding white space.
    Failed(String),
}

/// The answer of `ssh-add -l` when the agent holds no identity.
pub open spec fn no_identities() -> Seq<char> {
    "The agent has no identities"@
}

/// Reads the result of `ssh-add -l`.
pub fn agent_listing(success: bool, stdout: &str, stderr: &str) -> (r: AgentListing)
    ensures
        success ==> (r matches AgentListing::Keys(s) && s@ == stdout@),
        !success && (contains_seq(stderr@, no_identities()) || stdout@.len() == 0) ==> r
            == AgentListing::NoKeys,
        !success && !(contains_seq(stderr@, no_identities()) || stdout@.len() == 0) ==> (r matches AgentListing::Failed(m)
            && m@ == trim(stderr@)),
{
    if success {
        return AgentListing::Keys(owned(stdout));
    }
    let err = to_chars(stderr);
    let needle = to_chars("The agent has no identities");
    if contains(err.as_slice(), needle.as_slice()) || stdout.unicode_len() == 0 {
        AgentListing::NoKeys
    } else {
        AgentListing::Failed(trim_str(stderr))
    }
}

/// The arguments of `ssh-add` that load the key named `key_name`.
pub fn agent_add_args(keys: &[KeyInfo], key_name: &str) -> (r: Result<Vec<String>, InventoryError>)
    ensures
        pos_of(keys@, key_name@) >= 0 ==> (r matches Ok(v) && v.deep_view() == seq![
            keys@[pos_of(keys@, key_name@)].path@,
        ]),
        pos_of(keys@, key_name@) < 0 ==> r == Err::<Vec<String>, InventoryError>(
            InventoryError::NotFound,
        ),
{
    match lookup_key(keys, key_name) {
        Ok(k) => {
            let mut v: Vec<String> = Vec::new();
            push_arg(&mut v, k.path);
            assert(v.deep_view() =~= seq![keys@[pos_of(keys@, key_name@)].path@]);
            Ok(v)
        },
        Err(e) => Err(e),
    }
}

/// The arguments of `ssh-add` that unload the key named `key_name`.
pub fn agent_remove_args(keys: &[KeyInfo], key_name: &str) -> (r: Result<Vec<String>, InventoryError>)
    ensures
        pos_of(keys@, key_name@) >= 0 ==> (r matches Ok(v) && v.deep_view() == seq![
            "-d"@,
            keys@[pos_of(keys@, key_name@)].path@,
        ]),
        pos_of(keys@, key_name@) < 0 ==> r == Err::<Vec<String>, InventoryError>(
            InventoryError::NotFound,
        ),
{
    match lookup_key(keys, key_name) {
        Ok(k) => {
            let mut v: Vec<String> = Vec::new();
            push_lit(&mut v, "-d");
            push_arg(&mut v, k.path);
            assert(v.deep_view() =~= seq!["-d"@, keys@[pos_of(keys@, key_name@)].path@]);
            Ok(v)
        },
        Err(e) => Err(e),
    }
}

/// The text that `agent start` prints: its lines, each ended by a line feed.
pub open spec fn export_text(socket: Seq<char>, pid: u32) -> Seq<char> {
    let ls = export_lines_spec(socket, pid);
    ls[0] + seq!['\n'] + (ls[1] + seq!['\n'] + (ls[2] + seq!['\n'] + Seq::empty()))
}

proof fn lemma_no_char_concat(a: Seq<char>, b: Seq<char>, c: char)
    requires
        forall|i: int| 0 <= i < a.len() ==> a[i] != c,
        forall|i: int| 0 <= i < b.len() ==> b[i] != c,
    ensures
        forall|i: int| 0 <= i < (a + b).len() ==> (a + b)[i] != c,
{
    assert forall|i: int| 0 <= i < (a + b).len() implies (a + b)[i] != c by {
        if i < a.len() {
            assert((a + b)[i] == a[i]);
        } else {
            assert((a + b)[i] == b[i - a.len()]);
        }
    }
}

proof fn lemma_digits_have_no(s: Seq<char>, c: char)
    requires
        crate::text::all_digits(s),
        !('0' <= c && c <= '9'),
    ensures
        forall|i: int| 0 <= i < s.len() ==> s[i] != c,
{
    assert forall|i: int| 0 <= i < s.len() implies s[i] != c by {
        assert(crate::text::is_digit(s[i]));
    }
}

/// Reading a line `prefix + value + tail` where neither `prefix` nor `value`
/// holds `;`, `tail` starts with `;`, and `value` does not start with
/// `prefix`, gives `value`.
proof fn lemma_value_of_line(prefix: Seq<char>, value: Seq<char>, tail: Seq<char>)
    requires
        prefix.len() > 0,
        forall|i: int| 0 <= i < prefix.len() ==> prefix[i] != ';',
        forall|i: int| 0 <= i < value.len() ==> value[i] != ';',
        tail.len() > 0 && tail[0] == ';',
        !has_prefix(value, prefix),
    ensures
        has_prefix(prefix + value + tail, prefix),
        strip_all_prefix(before_semicolon(prefix + value + tail), prefix) == value,
{
    let l = prefix + value + tail;
    assert(l.take(prefix.len() as int) =~= prefix);
    lemma_no_char_concat(prefix, value, ';');
    assert forall|j: int| 0 <= j < (prefix + value).len() implies l[j] != ';' by {
        assert(l[j] == (prefix + value)[j]);
    }
    assert(l[(prefix + value).len() as int] == tail[0]);
    crate::text::lemma_find_char_unique(l, ';', (prefix + value).len());
    let h = before_semicolon(l);
    assert(h =~= prefix + value);
    assert(h.take(prefix.len() as int) =~= prefix);
    assert(h.skip(prefix.len() as int) =~= value);
    assert(has_prefix(h, prefix));
    assert(strip_all_prefix(h, prefix) == strip_all_prefix(h.skip(prefix.len() as int), prefix));
    assert(strip_all_prefix(value, prefix) == value);
}

/// Law: reading back what `agent start` prints, the way the output of
/// `ssh-agent -s` is read, gives the agent it printed, for a socket path that
/// is not empty, holds no `;` or line feed and does not itself start with
/// `SSH_AUTH_SOCK=`, and a non-zero process id.
pub proof fn lemma_export_roundtrip(socket: Seq<char>, pid: u32)
    requires
        socket.len() > 0,
        pid != 0,
        forall|i: int| 0 <= i < socket.len() ==> socket[i] != ';' && socket[i] != '\n',
        !has_prefix(socket, sock_var()),
    ensures
        agent_env_spec(export_text(socket, pid)) == Some((socket, pid)),
{
    reveal_strlit("SSH_AUTH_SOCK=");
    reveal_strlit("SSH_AGENT_PID=");
    reveal_strlit("; export SSH_AUTH_SOCK;");
    reveal_strlit("; export SSH_AGENT_PID;");
    reveal_strlit("echo Agent pid ");
    reveal_strlit(";");
    let p = sock_var();
    let q = pid_var();
    let dec = decimal(pid as nat);
    crate::text::lemma_decimal_digits(pid as nat);
    crate::text::lemma_parse_decimal(pid);
    lemma_digits_have_no(dec, ';');
    lemma_digits_have_no(dec, '\n');
    let t1 = "; export SSH_AUTH_SOCK;"@;
    let t2 = "; export SSH_AGENT_PID;"@;
    let l1 = p + socket + t1;
    let l2 = q + dec + t2;
    let l3 = "echo Agent pid "@ + dec + ";"@;
    // no line feeds inside the lines
    lemma_no_char_concat(p, socket, '\n');
    lemma_no_char_concat(p + socket, t1, '\n');
    lemma_no_char_concat(q, dec, '\n');
    lemma_no_char_concat(q + dec, t2, '\n');
    lemma_no_char_concat("echo Agent pid "@, dec, '\n');
    lemma_no_char_concat("echo Agent pid "@ + dec, ";"@, '\n');
    crate::text::lemma_lines_cons(l3, Seq::empty());
    crate::text::lemma_lines_cons(l2, l3 + seq!['\n'] + Seq::empty());
    crate::text::lemma_lines_cons(l1, l2 + seq!['\n'] + (l3 + seq!['\n'] + Seq::empty()));
    assert(lines(Seq::<char>::empty()) =~= Seq::<Seq<char>>::empty());
    assert(crate::text::strip_cr(l1) == l1);
    assert(crate::text::strip_cr(l2) == l2);
    assert(crate::text::strip_cr(l3) == l3);
    let ls = lines(export_text(socket, pid));
    assert(ls =~= seq![l1, l2, l3]);
    // the first line sets the socket
    lemma_value_of_line(p, socket, t1);
    // the second line sets the process id
    assert(!has_prefix(dec, q)) by {
        assert(crate::text::is_digit(dec[0]));
        if has_prefix(dec, q) {
            assert(dec.take(q.len() as int)[0] == q[0]);
        }
    }
    lemma_value_of_line(q, dec, t2);
    assert(!has_prefix(l2, p)) by {
        if has_prefix(l2, p) {
            assert(l2.take(p.len() as int)[5] == p[5]);
            assert(l2[5] == q[5]);
        }
    }
    // the third line changes nothing
    assert(!has_prefix(l3, p)) by {
        if has_prefix(l3, p) {
            assert(l3.take(p.len() as int)[0] == p[0]);
        }
    }
    assert(!has_prefix(l3, q)) by {
        if has_prefix(l3, q) {
            assert(l3.take(q.len() as int)[0] == q[0]);
        }
    }
    assert(ls.drop_last() =~= seq![l1, l2]);
    assert(ls.drop_last().drop_last() =~= seq![l1]);
    assert(ls.drop_last().drop_last().drop_last() =~= Seq::<Seq<char>>::empty());
    let s0 = agent_scan(Seq::<Seq<char>>::empty());
    assert(agent_scan(seq![l1]) == agent_step(s0, l1));
    assert(agent_step(s0, l1) == (socket, 0u32));
    assert(agent_scan(seq![l1, l2]) == agent_step(agent_scan(seq![l1]), l2));
    assert(agent_step((socket, 0u32), l2) == (socket, pid));
    assert(agent_scan(ls) == agent_step(agent_scan(seq![l1, l2]), l3));
}

} // verus!
