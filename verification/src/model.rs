//! The records of the inventory: servers, keys, connection history and the agent.
use vstd::prelude::*;

verus! {

/// A registered server: how to reach it and which key of the inventory it uses.
#[derive(Debug, Clone, PartialEq, Eq)]
pub struct Server {
    pub name: String,
    pub host: String,
    pub user: String,
    pub port: u16,
    pub key_name: Option<String>,
    pub environment: Option<String>,
    pub created_at: String,
    pub last_connected: Option<String>,
}

/// A key of the inventory: its name, its algorithm and the path of its private half.
#[derive(Debug, Clone, PartialEq, Eq)]
pub struct KeyInfo {
    pub name: String,
    pub key_type: String,
    pub path: String,
}

/// One recorded connection.
#[derive(Debug, Clone, PartialEq, Eq)]
pub struct HistoryEntry {
    pub timestamp: String,
    pub server_name: String,
}

/// The socket and process id of the SSH agent that this tool started.
#[derive(Debug, Clone, PartialEq, Eq)]
pub struct AgentEnv {
    pub socket: String,
    pub pid: u32,
}

/// The characters of an optional string.
pub open spec fn opt_view(o: Option<String>) -> Option<Seq<char>> {
    match o {
        Some(s) => Some(s@),
        None => None,
    }
}

/// A copy of an optional string.
pub fn copy_opt(o: &Option<String>) -> (r: Option<String>)
    ensures
        r == *o,
{
    match o {
        Some(s) => Some(s.clone()),
        None => None,
    }
}

/// Records that carry a name by which the inventory finds them.
pub trait Named {
    /// The name, as characters.
    spec fn name_view(&self) -> Seq<char>;

    /// The name.
    fn name_str(&self) -> (r: &str)
        ensures
            r@ == self.name_view(),
    ;
}

impl Named for Server {
    open spec fn name_view(&self) -> Seq<char> {
        self.name@
    }

    fn name_str(&self) -> (r: &str) {
        self.name.as_str()
    }
}

impl Named for KeyInfo {
    open spec fn name_view(&self) -> Seq<char> {
        self.name@
    }

    fn name_str(&self) -> (r: &str) {
        self.name.as_str()
    }
}

impl Server {
    /// A field-by-field copy.
    pub fn duplicate(&self) -> (r: Server)
        ensures
            r == *self,
    {
        Server {
            name: self.name.clone(),
            host: self.host.clone(),
            user: self.user.clone(),
            port: self.port,
            key_name: copy_opt(&self.key_name),
            environment: copy_opt(&self.environment),
            created_at: self.created_at.clone(),
            last_connected: copy_opt(&self.last_connected),
        }
    }
}

impl KeyInfo {
    /// A field-by-field copy.
    pub fn duplicate(&self) -> (r: KeyInfo)
        ensures
            r == *self,
    {
        KeyInfo { name: self.name.clone(), key_type: self.key_type.clone(), path: self.path.clone() }
    }
}

} // verus!
