//! What the listings and `config` show.
use vstd::prelude::*;
use crate::model::{Server, KeyInfo, opt_view};
use crate::registry::{count_servers_using, count_users, lookup_key};
use crate::ssh::{resolve_key_path, resolved_key_path, named_key_path};
use crate::text::{concat, owned, decimal, decimal_string};
use crate::args::{push_arg};

verus! {

/// `o`, or the text `default` where it is `None`.
pub open spec fn or_text(o: Option<Seq<char>>, default: Seq<char>) -> Seq<char> {
    match o {
        Some(s) => s,
        None => default,
    }
}

fn text_or(o: &Option<String>, default: &str) -> (r: String)
    ensures
        r@ == or_text(opt_view(*o), default@),
{
    match o {
        Some(s) => s.clone(),
        None => owned(default),
    }
}

/// One row of the server listing.
#[derive(Debug)]
pub struct ServerRow {
    pub name: String,
    pub host: String,
    pub user: String,
    pub port: u16,
    pub key: String,
    pub environment: String,
    pub last_connected: String,
}

/// The listing row of a server: its key or `Padrão`, its environment or `-`,
/// its last connection or `Nunca`.
pub fn server_row(s: &Server) -> (r: ServerRow)
    ensures
        r.name == s.name,
        r.host == s.host,
        r.user == s.user,
        r.port == s.port,
        r.key@ == or_text(opt_view(s.key_name), "Padrão"@),
        r.environment@ == or_text(opt_view(s.environment), "-"@),
        r.last_connected@ == or_text(opt_view(s.last_connected), "Nunca"@),
{
    ServerRow {
        name: s.name.clone(),
        host: s.host.clone(),
        user: s.user.clone(),
        port: s.port,
        key: text_or(&s.key_name, "Padrão"),
        environment: text_or(&s.environment, "-"),
        last_connected: text_or(&s.last_connected, "Nunca"),
    }
}

/// One row of the key listing.
#[derive(Debug)]
pub struct KeyRow {
    pub name: String,
    pub key_type: String,
    pub fingerprint: String,
    pub path: String,
    pub servers_count: usize,
}

/// The listing row of a key: its fingerprint or `Não disponível`, and how
/// many servers use it.
pub fn key_row(key: &KeyInfo, servers: &[Server], fingerprint: Option<String>) -> (r: KeyRow)
    ensures
        r.name == key.name,
        r.key_type == key.key_type,
        r.path == key.path,
        r.fingerprint@ == or_text(opt_view(fingerprint), "Não disponível"@),
        r.servers_count == count_users(servers@, key.name@),
{
    KeyRow {
        name: key.name.clone(),
        key_type: key.key_type.clone(),
        fingerprint: text_or(&fingerprint, "Não disponível"),
        path: key.path.clone(),
        servers_count: count_servers_using(servers, key.name.as_str()),
    }
}

/// The path of the key a server names, where the inventory holds it (no
/// fallback to `default`): what `info` and `connect` use.
pub fn named_key_path_of(keys: &[KeyInfo], key_name: &Option<String>) -> (r: Option<String>)
    ensures
        opt_view(r) == named_key_path(keys@, *key_name),
{
    match key_name {
        Some(k) => match lookup_key(keys, k.as_str()) {
            Ok(key) => Some(key.path),
            Err(_) => None,
        },
        None => None,
    }
}

/// The `~/.ssh/config` block equivalent to a server.
pub open spec fn config_block_spec(s: Server, keys: Seq<KeyInfo>) -> Seq<Seq<char>> {
    seq![
        "Host "@ + s.name@,
        "    HostName "@ + s.host@,
        "    User "@ + s.user@,
        "    Port "@ + decimal(s.port as nat),
    ] + match resolved_key_path(keys, s.key_name) {
        Some(p) => seq!["    IdentityFile "@ + p, "    IdentitiesOnly yes"@],
        None => Seq::empty(),
    }
}

/// The lines of the `~/.ssh/config` block equivalent to a server, with the
/// resolved key where there is one.
pub fn config_block(server: &Server, keys: &[KeyInfo]) -> (r: Vec<String>)
    ensures
        r.deep_view() == config_block_spec(*server, keys@),
{
    let mut r: Vec<String> = Vec::new();
    push_arg(&mut r, concat("Host ", server.name.as_str()));
    push_arg(&mut r, concat("    HostName ", server.host.as_str()));
    push_arg(&mut r, concat("    User ", server.user.as_str()));
    let port = decimal_string(server.port as u64);
    push_arg(&mut r, concat("    Port ", port.as_str()));
    match resolve_key_path(keys, &server.key_name) {
        Some(p) => {
            push_arg(&mut r, concat("    IdentityFile ", p.as_str()));
            push_arg(&mut r, owned("    IdentitiesOnly yes"));
        },
        None => {},
    }
    assert(r.deep_view() =~= config_block_spec(*server, keys@));
    r
}

} // verus!
