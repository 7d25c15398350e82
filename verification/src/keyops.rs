//! Installing a server's key on the server, and rotating it.
use vstd::prelude::*;
use crate::model::{Server, KeyInfo, Named, opt_view};
use crate::registry::{pos_of, has_name, name_taken, lookup_server, lookup_key, assign_key, key_in_use, uses_key};
use crate::ssh::{remote_command_args, remote_command_args_spec, verify_login_args, verify_login_args_spec,
    append_key_command, append_key_command_spec, remove_key_command, remove_key_command_spec,
    named_key_path, option_before, destination, lemma_remote_command_reaches_port,
    lemma_verify_login_reaches_port};
use crate::display::named_key_path_of;
use crate::text::{tokens, trim, trim_str, str_eq, decimal};

verus! {

// ---------------------------------------------------------------------------
// Installation
// ---------------------------------------------------------------------------

/// Why a key cannot be installed on a server.
#[derive(Debug, PartialEq, Eq)]
pub enum InstallError {
    /// No server has the name.
    ServerNotFound,
    /// The server has no key assigned.
    NoKeyAssigned,
    /// The server's key, with this name, is not in the inventory.
    KeyNotFound(String),
}

/// The server named `server_name` and the key it uses, as `install-key` needs them.
pub fn install_target(servers: &[Server], keys: &[KeyInfo], server_name: &str) -> (r: Result<
    (Server, KeyInfo),
    InstallError,
>)
    ensures
        pos_of(servers@, server_name@) < 0 ==> r == Err::<(Server, KeyInfo), InstallError>(
            InstallError::ServerNotFound,
        ),
        pos_of(servers@, server_name@) >= 0 ==> {
            let s = servers@[pos_of(servers@, server_name@)];
            match s.key_name {
                None => r == Err::<(Server, KeyInfo), InstallError>(InstallError::NoKeyAssigned),
                Some(k) => if pos_of(keys@, k@) >= 0 {
                    r == Ok::<(Server, KeyInfo), InstallError>((s, keys@[pos_of(keys@, k@)]))
                } else {
                    r matches Err(InstallError::KeyNotFound(n)) && n == k
                },
            }
        },
{
    let s = match lookup_server(servers, server_name) {
        Ok(s) => s,
        Err(_) => {
            return Err(InstallError::ServerNotFound);
        },
    };
    let k = match &s.key_name {
        Some(k) => k.clone(),
        None => {
            return Err(InstallError::NoKeyAssigned);
        },
    };
    match lookup_key(keys, k.as_str()) {
        Ok(key) => Ok((s, key)),
        Err(_) => Err(InstallError::KeyNotFound(k)),
    }
}

// ---------------------------------------------------------------------------
// Rotation
// ---------------------------------------------------------------------------

/// Where a rotation stands.
#[derive(Debug, PartialEq, Eq, Clone, Copy)]
pub enum RotationStage {
    /// The new public key is being appended on the server, logging in with the old key.
    Installing,
    /// A login with the new key is being tried.
    Verifying,
    /// The old public key is being removed from the server.
    RemovingOld,
    /// The server's record is to be switched to the new key.
    Committing,
    /// The rotation was abandoned and the new key is to be deleted.
    Aborted,
}

/// Why a rotation was abandoned.
#[derive(Debug, PartialEq, Eq, Clone, Copy)]
pub enum RotationFailure {
    /// The new public key could not be appended on the server.
    InstallFailed,
    /// The new key did not log in.
    VerificationFailed,
}

/// What the caller is to do next.
#[derive(Debug)]
pub enum RotationAction {
    /// Run `ssh` with these arguments (authenticating with the old key) and
    /// report `Installed` with whether it succeeded.
    Install(Vec<String>),
    /// Run `ssh` with these arguments and report `Verified` with its outcome.
    Verify(Vec<String>),
    /// Run `ssh` with these arguments, whatever its outcome, and report `OldRemoved`.
    RemoveOld(Vec<String>),
    /// Switch the server to the new key (`commit_rotation`) and save.
    Commit,
    /// Delete the key of this name from the inventory and fail.
    Abort { delete_key: String, failure: RotationFailure },
}

/// What happened when the caller did what it was asked.
#[derive(Debug)]
pub enum RotationEvent {
    /// The new public key was (or was not) appended on the server.
    Installed(bool),
    /// The login with the new key ran: whether it succeeded, what it printed,
    /// and the contents of the old public key file where it could be read.
    Verified { success: bool, stdout: String, old_public_key: Option<String> },
    /// The removal of the old key ran.
    OldRemoved,
}

/// A rotation of a server's key in progress.
#[derive(Debug)]
pub struct Rotation {
    pub server: Server,
    pub new_key_name: String,
    pub new_key_path: String,
    pub old_key_path: Option<String>,
    pub stage: RotationStage,
}

/// A login check succeeded: the command succeeded and printed `OK`.
pub open spec fn login_verified(success: bool, stdout: Seq<char>) -> bool {
    success && trim(stdout) == "OK"@
}

/// The event answers the action of the stage.
pub open spec fn event_fits(stage: RotationStage, event: RotationEvent) -> bool {
    match stage {
        RotationStage::Installing => event is Installed,
        RotationStage::Verifying => event is Verified,
        RotationStage::RemovingOld => event is OldRemoved,
        _ => false,
    }
}

/// Starts the rotation of `server`'s key to the new key `new_key_name`
/// stored at `new_key_path`, whose public half is `new_public_key`: the first
/// step appends the new public key on the server, logging in with the old key
/// where the inventory holds it.
pub fn begin_rotation(
    server: &Server,
    keys: &[KeyInfo],
    new_key_name: String,
    new_key_path: String,
    new_public_key: &str,
) -> (r: (Rotation, RotationAction))
    ensures
        r.0.server == *server,
        r.0.new_key_name == new_key_name,
        r.0.new_key_path == new_key_path,
        opt_view(r.0.old_key_path) == named_key_path(keys@, server.key_name),
        r.0.stage == RotationStage::Installing,
        r.1 matches RotationAction::Install(a) && a.deep_view() == remote_command_args_spec(
            *server,
            named_key_path(keys@, server.key_name),
            append_key_command_spec(new_public_key@),
        ),
{
    let old_key_path = named_key_path_of(keys, &server.key_name);
    let cmd = append_key_command(new_public_key);
    let args = remote_command_args(server, &old_key_path, cmd.as_str());
    let rot = Rotation {
        server: server.duplicate(),
        new_key_name,
        new_key_path,
        old_key_path,
        stage: RotationStage::Installing,
    };
    (rot, RotationAction::Install(args))
}

/// The command that removes the old key, where the old key is known and its
/// public file held a key body.
pub open spec fn removal_command(old_key_path: Option<String>, old_public_key: Option<String>) -> Option<Seq<char>> {
    match (old_key_path, old_public_key) {
        (Some(_), Some(c)) => if tokens(c@).len() >= 2 {
            Some(remove_key_command_spec(tokens(c@)[1]))
        } else {
            None
        },
        _ => None,
    }
}

impl Rotation {
    /// Advances the rotation by the outcome of the last action:
    /// a failed installation or login check abandons it, deleting the new key;
    /// a verified login goes on to remove the old key from the server where
    /// it can, and then to switching the server to the new key.
    pub fn step(&mut self, event: RotationEvent) -> (action: RotationAction)
        requires
            event_fits(old(self).stage, event),
        ensures
            final(self).server == old(self).server,
            final(self).new_key_name == old(self).new_key_name,
            final(self).new_key_path == old(self).new_key_path,
            final(self).old_key_path == old(self).old_key_path,
            final(self).stage == next_stage(old(self).stage, event, old(self).old_key_path),
            match event {
                RotationEvent::Installed(ok) => if ok {
                    &&& final(self).stage == RotationStage::Verifying
                    &&& action matches RotationAction::Verify(a) && a.deep_view()
                        == verify_login_args_spec(old(self).server, old(self).new_key_path@)
                } else {
                    &&& final(self).stage == RotationStage::Aborted
                    &&& action matches RotationAction::Abort { delete_key, failure } && delete_key
                        == old(self).new_key_name && failure == RotationFailure::InstallFailed
                },
                RotationEvent::Verified { success, stdout, old_public_key } => if !login_verified(
                    success,
                    stdout@,
                ) {
                    &&& final(self).stage == RotationStage::Aborted
                    &&& action matches RotationAction::Abort { delete_key, failure } && delete_key
                        == old(self).new_key_name && failure == RotationFailure::VerificationFailed
                } else {
                    match removal_command(old(self).old_key_path, old_public_key) {
                        Some(cmd) => {
                            &&& final(self).stage == RotationStage::RemovingOld
                            &&& action matches RotationAction::RemoveOld(a) && a.deep_view()
                                == remote_command_args_spec(
                                old(self).server,
                                Some(old(self).new_key_path@),
                                cmd,
                            )
                        },
                        None => {
                            &&& final(self).stage == RotationStage::Committing
                            &&& action is Commit
                        },
                    }
                },
                RotationEvent::OldRemoved => {
                    &&& final(self).stage == RotationStage::Committing
                    &&& action is Commit
                },
            },
    {
        match event {
            RotationEvent::Installed(ok) => {
                if ok {
                    self.stage = RotationStage::Verifying;
                    RotationAction::Verify(
                        verify_login_args(&self.server, self.new_key_path.as_str()),
                    )
                } else {
                    self.stage = RotationStage::Aborted;
                    RotationAction::Abort {
                        delete_key: self.new_key_name.clone(),
                        failure: RotationFailure::InstallFailed,
                    }
                }
            },
            RotationEvent::Verified { success, stdout, old_public_key } => {
                let out = trim_str(stdout.as_str());
                if !(success && str_eq(out.as_str(), "OK")) {
                    self.stage = RotationStage::Aborted;
                    return RotationAction::Abort {
                        delete_key: self.new_key_name.clone(),
                        failure: RotationFailure::VerificationFailed,
                    };
                }
                let cmd = match (&self.old_key_path, &old_public_key) {
                    (Some(_), Some(c)) => remove_key_command(c.as_str()),
                    _ => None,
                };
                match cmd {
                    Some(c) => {
                        self.stage = RotationStage::RemovingOld;
                        let id = Some(self.new_key_path.clone());
                        RotationAction::RemoveOld(remote_command_args(&self.server, &id, c.as_str()))
                    },
                    None => {
                        self.stage = RotationStage::Committing;
                        RotationAction::Commit
                    },
                }
            },
            RotationEvent::OldRemoved => {
                self.stage = RotationStage::Committing;
                RotationAction::Commit
            },
        }
    }
}

/// Switches the server at `index` to the key `new_key_name`, and names the
/// old key where no server uses it any more: the key to drop from the inventory.
pub fn commit_rotation(
    servers: &mut Vec<Server>,
    index: usize,
    new_key_name: String,
    old_key_name: &Option<String>,
) -> (to_delete: Option<String>)
    requires
        index < old(servers)@.len(),
    ensures
        final(servers)@ == old(servers)@.update(
            index as int,
            Server { key_name: Some(new_key_name), ..old(servers)@[index as int] },
        ),
        match old_key_name {
            Some(o) => if exists|i: int| 0 <= i < final(servers)@.len() && uses_key(#[trigger] final(servers)@[i], o@) {
                to_delete is None
            } else {
                to_delete == Some(*o)
            },
            None => to_delete is None,
        },
{
    assign_key(servers, index, new_key_name);
    match old_key_name {
        Some(o) => {
            if key_in_use(servers.as_slice(), o.as_str()) {
                None
            } else {
                Some(o.clone())
            }
        },
        None => None,
    }
}

/// The stage that follows `stage` on `event`, for a rotation whose old key
/// was found at `old_key_path`.
pub open spec fn next_stage(
    stage: RotationStage,
    event: RotationEvent,
    old_key_path: Option<String>,
) -> RotationStage {
    match (stage, event) {
        (RotationStage::Installing, RotationEvent::Installed(ok)) => if ok {
            RotationStage::Verifying
        } else {
            RotationStage::Aborted
        },
        (RotationStage::Verifying, RotationEvent::Verified { success, stdout, old_public_key }) => {
            if !login_verified(success, stdout@) {
                RotationStage::Aborted
            } else if removal_command(old_key_path, old_public_key) is Some {
                RotationStage::RemovingOld
            } else {
                RotationStage::Committing
            }
        },
        (RotationStage::RemovingOld, RotationEvent::OldRemoved) => RotationStage::Committing,
        _ => stage,
    }
}

/// The stage after the events `events`, in order.
pub open spec fn run_stages(
    stage: RotationStage,
    events: Seq<RotationEvent>,
    old_key_path: Option<String>,
) -> RotationStage
    decreases events.len(),
{
    if events.len() == 0 {
        stage
    } else {
        next_stage(run_stages(stage, events.drop_last(), old_key_path), events.last(), old_key_path)
    }
}

/// Some event reports a verified login with the new key.
pub open spec fn login_seen(events: Seq<RotationEvent>) -> bool {
    exists|i: int|
        0 <= i < events.len() && (#[trigger] events[i] matches RotationEvent::Verified {
            success,
            stdout,
            ..
        } && login_verified(success, stdout@))
}

/// Law: a rotation reaches the switch of the server to the new key (or the
/// removal of the old key that precedes it) only after a login with the new
/// key was verified.
pub proof fn lemma_commit_needs_verified_login(
    events: Seq<RotationEvent>,
    old_key_path: Option<String>,
)
    requires
        run_stages(RotationStage::Installing, events, old_key_path) == RotationStage::Committing
            || run_stages(RotationStage::Installing, events, old_key_path)
            == RotationStage::RemovingOld,
    ensures
        login_seen(events),
    decreases events.len(),
{
    if events.len() > 0 {
        let init = events.drop_last();
        let t = run_stages(RotationStage::Installing, init, old_key_path);
        if t == RotationStage::Committing || t == RotationStage::RemovingOld {
            lemma_commit_needs_verified_login(init, old_key_path);
            let i = choose|i: int|
                0 <= i < init.len() && (#[trigger] init[i] matches RotationEvent::Verified {
                    success,
                    stdout,
                    ..
                } && login_verified(success, stdout@));
            assert(events[i] == init[i]);
        } else {
            assert(events[events.len() - 1] == events.last());
        }
    }
}

// ---------------------------------------------------------------------------
// The key of a new server
// ---------------------------------------------------------------------------

/// What `add` does about a new server's key.
#[derive(Debug, PartialEq, Eq, Clone, Copy)]
pub enum KeyPlan {
    /// Create a new key for it.
    CreateKey,
    /// Let the user pick one of the keys in the inventory.
    ChooseExisting,
    /// Give it no key of its own.
    NoKey,
}

/// The plan for the entry `selection` of the key menu (create, use an
/// existing one, none), where the inventory holds `existing_keys` keys:
/// asking for an existing key with none there creates one instead.
pub open spec fn key_plan(selection: usize, existing_keys: usize) -> KeyPlan {
    if selection == 0 {
        KeyPlan::CreateKey
    } else if selection == 1 {
        if existing_keys == 0 {
            KeyPlan::CreateKey
        } else {
            KeyPlan::ChooseExisting
        }
    } else {
        KeyPlan::NoKey
    }
}

/// The plan for the entry `selection` of the key menu.
pub fn plan_key(selection: usize, existing_keys: usize) -> (p: KeyPlan)
    ensures
        p == key_plan(selection, existing_keys),
{
    if selection == 0 {
        KeyPlan::CreateKey
    } else if selection == 1 {
        if existing_keys == 0 {
            KeyPlan::CreateKey
        } else {
            KeyPlan::ChooseExisting
        }
    } else {
        KeyPlan::NoKey
    }
}

/// The key a new server is registered with, given the inventory `keys` as it
/// stands once the plan was carried out: the new key where its creation
/// succeeded and registered it, the key picked by its index in the
/// inventory, or none.
pub open spec fn planned_key_name(
    plan: KeyPlan,
    keys: Seq<KeyInfo>,
    new_key: Seq<char>,
    created: bool,
    picked: Option<usize>,
) -> Option<Seq<char>> {
    match plan {
        KeyPlan::CreateKey => if created && has_name(keys, new_key) {
            Some(new_key)
        } else {
            None
        },
        KeyPlan::ChooseExisting => match picked {
            Some(i) => if i < keys.len() {
                Some(keys[i as int].name@)
            } else {
                None
            },
            None => None,
        },
        KeyPlan::NoKey => None,
    }
}

/// The key a new server is registered with, once the plan was carried out:
/// `created` tells whether creating `new_key` succeeded, `picked` is the
/// index of the key chosen from the inventory `keys` (read after any
/// creation). A failed creation leaves the server without a key;
/// registration goes on either way.
pub fn key_for_new_server(
    plan: KeyPlan,
    keys: &[KeyInfo],
    new_key: String,
    created: bool,
    picked: Option<usize>,
) -> (r: Option<String>)
    ensures
        opt_view(r) == planned_key_name(plan, keys@, new_key@, created, picked),
        r matches Some(k) ==> has_name(keys@, k@),
{
    proof {
        lemma_new_server_key_known(plan, keys@, new_key@, created, picked);
    }
    match plan {
        KeyPlan::CreateKey => if created && name_taken(keys, new_key.as_str()) {
            Some(new_key)
        } else {
            None
        },
        KeyPlan::ChooseExisting => match picked {
            Some(i) => if i < keys.len() {
                Some(keys[i].name.clone())
            } else {
                None
            },
            None => None,
        },
        KeyPlan::NoKey => None,
    }
}

/// Law: a new server is registered either without a key or with one that the
/// inventory holds.
pub proof fn lemma_new_server_key_known(
    plan: KeyPlan,
    keys: Seq<KeyInfo>,
    new_key: Seq<char>,
    created: bool,
    picked: Option<usize>,
)
    ensures
        planned_key_name(plan, keys, new_key, created, picked) matches Some(k) ==> has_name(keys, k),
{
    if let KeyPlan::ChooseExisting = plan {
        if let Some(i) = picked {
            if i < keys.len() {
                assert(keys[i as int].name_view() == keys[i as int].name@);
            }
        }
    }
}

/// Law: both logins of a rotation reach the server at `user@host` on its own
/// port: the installation with the old key and the check with the new key.
pub proof fn lemma_rotation_logins_reach_port(
    server: Server,
    keys: Seq<KeyInfo>,
    new_public_key: Seq<char>,
    new_key_path: Seq<char>,
)
    ensures
        option_before(
            remote_command_args_spec(server, named_key_path(keys, server.key_name), append_key_command_spec(new_public_key)),
            "-p"@,
            decimal(server.port as nat),
            destination(server),
        ),
        option_before(verify_login_args_spec(server, new_key_path), "-p"@, decimal(server.port as nat), destination(server)),
{
    lemma_remote_command_reaches_port(
        server,
        named_key_path(keys, server.key_name),
        append_key_command_spec(new_public_key),
    );
    lemma_verify_login_reaches_port(server, new_key_path);
}

} // verus!
