use sshx::model::{KeyInfo, Server};
use sshx::ssh::{
    append_key_command, connect_args, copy_id_args, copy_plan, exec_args, fingerprint_source,
    keygen_args, multiplexing_opts, multiplexing_opts_in, parse_fingerprint, parse_scp_arg,
    ping_args, remote_command_args, remove_key_command, safe_socket_name, scp_args,
    verify_login_args,
};
use sshx::display::{config_block, key_row, server_row};
use sshx::paths::{config_dir_from, get_config_dir, get_keys_dir, get_sockets_dir, key_path_in, keys_dir_in, new_key_path, public_key_path, sockets_dir_in};
use sshx::keyops::{install_target, InstallError};

fn server(name: &str, host: &str, port: u16, key: Option<&str>) -> Server {
    Server {
        name: name.to_string(),
        host: host.to_string(),
        user: "deploy".to_string(),
        port,
        key_name: key.map(|k| k.to_string()),
        environment: None,
        created_at: "t".to_string(),
        last_connected: None,
    }
}

fn key(name: &str, path: &str) -> KeyInfo {
    KeyInfo { name: name.to_string(), key_type: "Ed25519".to_string(), path: path.to_string() }
}

fn strs(v: &[String]) -> Vec<&str> {
    v.iter().map(|s| s.as_str()).collect()
}

#[test]
fn scp_argument_for_a_server() {
    let servers = vec![server("producao", "10.0.0.5", 2222, Some("prod"))];
    let keys = vec![key("prod", "/keys/prod")];
    let (a, port, k, name) = parse_scp_arg("producao:/opt/app", &servers, &keys);
    assert_eq!(a, "deploy@10.0.0.5:/opt/app");
    assert_eq!(port, Some(2222));
    assert_eq!(k.as_deref(), Some("/keys/prod"));
    assert_eq!(name.as_deref(), Some("producao"));
}

#[test]
fn scp_argument_local_or_unknown() {
    let servers = vec![server("producao", "10.0.0.5", 22, None)];
    let keys: Vec<KeyInfo> = vec![];
    assert_eq!(parse_scp_arg("arquivo.zip", &servers, &keys), ("arquivo.zip".to_string(), None, None, None));
    assert_eq!(parse_scp_arg("outro:/tmp", &servers, &keys), ("outro:/tmp".to_string(), None, None, None));
    let (a, port, k, _) = parse_scp_arg("producao:", &servers, &keys);
    assert_eq!(a, "deploy@10.0.0.5:");
    assert_eq!(port, Some(22));
    assert_eq!(k, None);
}

#[test]
fn scp_argument_uses_default_key() {
    let servers = vec![server("s", "h", 22, None)];
    let keys = vec![key("default", "/keys/default")];
    let (_, _, k, _) = parse_scp_arg("s:/x", &servers, &keys);
    assert_eq!(k.as_deref(), Some("/keys/default"));
}

#[test]
fn copy_plan_and_scp_args() {
    let servers = vec![server("producao", "10.0.0.5", 2222, Some("prod"))];
    let keys = vec![key("prod", "/keys/prod")];
    let plan = copy_plan("producao:/var/log/app.log", ".", &servers, &keys);
    assert_eq!(plan.source, "deploy@10.0.0.5:/var/log/app.log");
    assert_eq!(plan.destination, ".");
    assert_eq!(plan.server.as_deref(), Some("producao"));
    let args = scp_args(&plan);
    assert_eq!(strs(&args), vec!["-P", "2222", "-i", "/keys/prod", "-o", "IdentitiesOnly=yes", "deploy@10.0.0.5:/var/log/app.log", "."]);
    let local = copy_plan("a", "b", &servers, &keys);
    assert_eq!(strs(&scp_args(&local)), vec!["a", "b"]);
}

#[test]
fn exec_and_ping_arguments() {
    let s = server("web", "example.org", 22, Some("k"));
    let keys = vec![key("k", "/keys/k")];
    assert_eq!(strs(&exec_args(&s, &keys, "docker ps")), vec!["-i", "/keys/k", "-o", "IdentitiesOnly=yes", "-p", "22", "deploy@example.org", "docker ps"]);
    let no_key = server("web", "example.org", 65535, None);
    assert_eq!(strs(&ping_args(&no_key, &keys)), vec!["-o", "ConnectTimeout=5", "-o", "BatchMode=yes", "-p", "65535", "deploy@example.org", "exit"]);
}

#[test]
fn connect_arguments_use_only_the_named_key() {
    let keys = vec![key("k", "/keys/k"), key("default", "/keys/default")];
    assert_eq!(strs(&connect_args(&server("a", "h", 2200, Some("k")), &keys)), vec!["-i", "/keys/k", "-p", "2200", "deploy@h"]);
    assert_eq!(strs(&connect_args(&server("a", "h", 22, None), &keys)), vec!["-p", "22", "deploy@h"]);
    assert_eq!(strs(&connect_args(&server("a", "h", 22, Some("gone")), &keys)), vec!["-p", "22", "deploy@h"]);
}

#[test]
fn key_installation_commands() {
    let s = server("a", "h", 22, Some("k"));
    assert_eq!(strs(&copy_id_args(&s, "/keys/k.pub")), vec!["-i", "/keys/k.pub", "-p", "22", "deploy@h"]);
    assert_eq!(
        append_key_command("ssh-ed25519 AAAA user@host\n"),
        "mkdir -p ~/.ssh && chmod 700 ~/.ssh && echo 'ssh-ed25519 AAAA user@host' >> ~/.ssh/authorized_keys && chmod 600 ~/.ssh/authorized_keys"
    );
    assert_eq!(
        remove_key_command("ssh-ed25519 AAAABBBB user@host\n").unwrap(),
        "grep -v 'AAAABBBB' ~/.ssh/authorized_keys > ~/.ssh/authorized_keys.tmp && mv ~/.ssh/authorized_keys.tmp ~/.ssh/authorized_keys && chmod 600 ~/.ssh/authorized_keys"
    );
    assert!(remove_key_command("onlyoneword").is_none());
    assert_eq!(strs(&remote_command_args(&s, &Some("/old".into()), "cmd")), vec!["-i", "/old", "-p", "22", "deploy@h", "cmd"]);
    assert_eq!(strs(&remote_command_args(&s, &None, "cmd")), vec!["-p", "22", "deploy@h", "cmd"]);
    assert_eq!(strs(&verify_login_args(&s, "/new")), vec!["-i", "/new", "-o", "BatchMode=yes", "-o", "ConnectTimeout=5", "-p", "22", "deploy@h", "echo OK"]);
    assert_eq!(strs(&keygen_args("/keys/x")), vec!["-t", "ed25519", "-N", "", "-f", "/keys/x"]);
}

#[test]
fn fingerprints() {
    assert_eq!(parse_fingerprint("256 SHA256:abcdef user@host (ED25519)\n"), "SHA256:abcdef");
    assert_eq!(parse_fingerprint("  single  \n"), "single");
    assert_eq!(parse_fingerprint(""), "");
    assert_eq!(fingerprint_source("/k/a", true), "/k/a.pub");
    assert_eq!(fingerprint_source("/k/a", false), "/k/a");
    assert_eq!(public_key_path("/k/a"), "/k/a.pub");
}

#[test]
fn socket_names() {
    assert_eq!(safe_socket_name("prod/db 01:x_y-z!"), "proddb01x_y-z");
    assert_eq!(safe_socket_name("ação"), "ação");
    let opts = multiplexing_opts_in("/tmp/sockets", "web 1");
    assert_eq!(strs(&opts), vec!["-o", "ControlMaster=auto", "-o", "ControlPath=/tmp/sockets/web1.sock", "-o", "ControlPersist=10m"]);
    let opts = multiplexing_opts_in("/c/sockets", "web.prod");
    assert_eq!(strs(&opts), vec!["-o", "ControlMaster=auto", "-o", "ControlPath=/c/sockets/webprod.sock", "-o", "ControlPersist=10m"]);
    let opts = multiplexing_opts("db");
    let expected = format!("ControlPath={}/db.sock", get_sockets_dir());
    assert_eq!(strs(&opts), vec!["-o", "ControlMaster=auto", "-o", expected.as_str(), "-o", "ControlPersist=10m"]);
}

#[test]
fn directories() {
    let config = get_config_dir();
    assert!(config.ends_with(".config/sshx"));
    assert_eq!(get_keys_dir(), format!("{}/keys", config));
    assert_eq!(get_sockets_dir(), format!("{}/sockets", config));
    assert_eq!(new_key_path("github"), format!("{}/keys/github", config));
    assert_eq!(new_key_path("web.prod_rot_20240102030405"), format!("{}/keys/web.prod_rot_20240102030405", config));
}

#[test]
fn directories_from_a_home() {
    assert_eq!(config_dir_from(Some("/home/ana")), "/home/ana/.config/sshx");
    assert_eq!(config_dir_from(Some("/home/ana/")), "/home/ana/.config/sshx");
    assert_eq!(config_dir_from(None), "./sshx");
    assert_eq!(keys_dir_in("/home/ana/.config/sshx"), "/home/ana/.config/sshx/keys");
    assert_eq!(sockets_dir_in("/home/ana/.config/sshx"), "/home/ana/.config/sshx/sockets");
    assert_eq!(key_path_in("/k", "github"), "/k/github");
    assert_eq!(key_path_in("", "github"), "github");
    assert_eq!(key_path_in("/k", "team/github"), "/k/team/github");
    assert_eq!(key_path_in("/k/", "github"), "/k/github");
    assert_eq!(public_key_path("/k/web.prod_rot_1"), "/k/web.prod_rot_1.pub");
}

#[test]
fn config_block_lines() {
    let keys = vec![key("default", "/keys/default")];
    let s = server("producao", "10.0.0.5", 2222, None);
    assert_eq!(strs(&config_block(&s, &keys)), vec!["Host producao", "    HostName 10.0.0.5", "    User deploy", "    Port 2222", "    IdentityFile /keys/default", "    IdentitiesOnly yes"]);
    assert_eq!(config_block(&s, &[]).len(), 4);
}

#[test]
fn listing_rows() {
    let mut s = server("a", "h", 22, None);
    let r = server_row(&s);
    assert_eq!((r.key.as_str(), r.environment.as_str(), r.last_connected.as_str()), ("Padrão", "-", "Nunca"));
    s.key_name = Some("k".into());
    s.environment = Some("Produção".into());
    s.last_connected = Some("ontem".into());
    let r = server_row(&s);
    assert_eq!((r.key.as_str(), r.environment.as_str(), r.last_connected.as_str()), ("k", "Produção", "ontem"));
    let servers = vec![s];
    let row = key_row(&key("k", "/p"), &servers, None);
    assert_eq!(row.fingerprint, "Não disponível");
    assert_eq!(row.servers_count, 1);
    assert_eq!(key_row(&key("k", "/p"), &servers, Some("SHA256:x".into())).fingerprint, "SHA256:x");
}

#[test]
fn install_targets() {
    let servers = vec![server("a", "h", 22, Some("k")), server("b", "h", 22, None), server("c", "h", 22, Some("gone"))];
    let keys = vec![key("k", "/keys/k")];
    let (s, k) = install_target(&servers, &keys, "a").unwrap();
    assert_eq!((s.name.as_str(), k.path.as_str()), ("a", "/keys/k"));
    assert_eq!(install_target(&servers, &keys, "b").unwrap_err(), InstallError::NoKeyAssigned);
    assert_eq!(install_target(&servers, &keys, "c").unwrap_err(), InstallError::KeyNotFound("gone".into()));
    assert_eq!(install_target(&servers, &keys, "z").unwrap_err(), InstallError::ServerNotFound);
}
