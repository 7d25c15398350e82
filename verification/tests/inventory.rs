use sshx::model::{HistoryEntry, KeyInfo, Server};
use sshx::registry::{
    count_servers_using, key_in_use, lookup_server, mark_connected, merge_by_name,
    position_by_name, register_key, register_server, remove_key_entry, remove_server_entry,
    rename_server_entry, resolve_key, servers_to_sync, InventoryError,
};
use sshx::clock::{append_history, build_server, new_server, record_connection, rotation_key_name, rotation_key_name_at, touch_server, HISTORY_LIMIT};

fn server(name: &str, host: &str, key: Option<&str>) -> Server {
    Server {
        name: name.to_string(),
        host: host.to_string(),
        user: "root".to_string(),
        port: 22,
        key_name: key.map(|k| k.to_string()),
        environment: None,
        created_at: "2024-01-01T00:00:00+00:00".to_string(),
        last_connected: None,
    }
}

fn key(name: &str, path: &str) -> KeyInfo {
    KeyInfo { name: name.to_string(), key_type: "Ed25519".to_string(), path: path.to_string() }
}

#[test]
fn resolve_key_falls_back_to_default() {
    let keys = vec![key("github", "/k/github"), key("default", "/k/default")];
    assert_eq!(resolve_key(&keys, Some("github")).unwrap().path, "/k/github");
    assert_eq!(resolve_key(&keys, None).unwrap().path, "/k/default");
    assert!(resolve_key(&keys, Some("missing")).is_none());
    let no_default = vec![key("github", "/k/github")];
    assert!(resolve_key(&no_default, None).is_none());
}

#[test]
fn resolve_key_takes_the_first_match() {
    let keys = vec![key("a", "/first"), key("a", "/second")];
    assert_eq!(resolve_key(&keys, Some("a")).unwrap().path, "/first");
}

#[test]
fn register_refuses_duplicate_names() {
    let mut servers = vec![server("producao", "10.0.0.1", None)];
    assert_eq!(register_server(&mut servers, server("producao", "10.0.0.2", None)), Err(InventoryError::AlreadyExists));
    assert_eq!(servers.len(), 1);
    assert_eq!(servers[0].host, "10.0.0.1");
    assert_eq!(register_server(&mut servers, server("staging", "10.0.0.3", None)), Ok(()));
    assert_eq!(servers.len(), 2);
    assert_eq!(position_by_name(&servers, "staging"), Some(1));
}

#[test]
fn remove_forgets_the_server() {
    let mut servers = vec![server("a", "h1", None), server("b", "h2", None)];
    let removed = remove_server_entry(&mut servers, "a").unwrap();
    assert_eq!(removed.host, "h1");
    assert_eq!(servers.len(), 1);
    assert!(lookup_server(&servers, "a").is_err());
    assert_eq!(remove_server_entry(&mut servers, "zzz").unwrap_err(), InventoryError::NotFound);
    assert_eq!(servers.len(), 1);
}

#[test]
fn rename_moves_the_record() {
    let mut servers = vec![server("prod", "h1", Some("k")), server("other", "h2", None)];
    assert_eq!(rename_server_entry(&mut servers, "prod", "producao"), Ok(()));
    let s = lookup_server(&servers, "producao").unwrap();
    assert_eq!(s.host, "h1");
    assert_eq!(s.key_name.as_deref(), Some("k"));
    assert_eq!(lookup_server(&servers, "prod").unwrap_err(), InventoryError::NotFound);
}

#[test]
fn rename_errors() {
    let mut servers = vec![server("a", "h1", None), server("b", "h2", None)];
    assert_eq!(rename_server_entry(&mut servers, "a", "b"), Err(InventoryError::AlreadyExists));
    assert_eq!(rename_server_entry(&mut servers, "a", "a"), Err(InventoryError::AlreadyExists));
    assert_eq!(rename_server_entry(&mut servers, "zzz", "c"), Err(InventoryError::NotFound));
    assert_eq!(servers[0].name, "a");
    assert_eq!(servers[1].name, "b");
}

#[test]
fn mark_connected_sets_only_last_connected() {
    let mut servers = vec![server("a", "h1", None)];
    let s = mark_connected(&mut servers, "a", "2025-05-05T10:00:00+00:00".to_string()).unwrap();
    assert_eq!(s.last_connected.as_deref(), Some("2025-05-05T10:00:00+00:00"));
    assert_eq!(servers[0].last_connected.as_deref(), Some("2025-05-05T10:00:00+00:00"));
    assert_eq!(servers[0].host, "h1");
    assert!(mark_connected(&mut servers, "b", "x".to_string()).is_err());
}

fn is_rfc3339(t: &str) -> bool {
    let c: Vec<char> = t.chars().collect();
    let n = c.len();
    n >= 25
        && c[4] == '-' && c[7] == '-' && c[10] == 'T' && c[13] == ':' && c[16] == ':'
        && (c[n - 6] == '+' || c[n - 6] == '-') && c[n - 3] == ':'
        && c[..4].iter().all(|d| d.is_ascii_digit())
}

#[test]
fn touch_server_records_a_time() {
    let mut servers = vec![server("a", "h1", None)];
    let s = touch_server(&mut servers, "a").unwrap();
    let t = s.last_connected.unwrap();
    assert!(is_rfc3339(&t));
    assert_eq!(servers[0].last_connected.as_deref(), Some(t.as_str()));
}

#[test]
fn import_upserts_by_name() {
    let mut servers = vec![server("a", "old-a", None), server("b", "old-b", None)];
    let imported = vec![server("b", "new-b", None), server("c", "new-c", None)];
    merge_by_name(&mut servers, imported);
    let hosts: Vec<&str> = servers.iter().map(|s| s.host.as_str()).collect();
    assert_eq!(hosts, vec!["old-a", "new-b", "new-c"]);
}

#[test]
fn import_keeps_the_last_of_repeated_names() {
    let mut servers = vec![server("a", "old-a", None)];
    let imported = vec![server("x", "x1", None), server("a", "a1", None), server("x", "x2", None)];
    merge_by_name(&mut servers, imported);
    let hosts: Vec<&str> = servers.iter().map(|s| s.host.as_str()).collect();
    assert_eq!(hosts, vec!["a1", "x2"]);
}

#[test]
fn import_twice_changes_nothing() {
    let mut once = vec![server("a", "old-a", None)];
    let imported = || vec![server("x", "x1", None), server("a", "a1", None), server("x", "x2", None)];
    merge_by_name(&mut once, imported());
    let mut twice: Vec<Server> = once.clone();
    merge_by_name(&mut twice, imported());
    assert_eq!(once, twice);
}

#[test]
fn key_registry() {
    let mut keys = vec![key("a", "/a")];
    register_key(&mut keys, "novo", "/keys/novo");
    assert_eq!(keys.len(), 2);
    assert_eq!(keys[1], KeyInfo { name: "novo".into(), key_type: "Ed25519".into(), path: "/keys/novo".into() });
    let removed = remove_key_entry(&mut keys, "a").unwrap();
    assert_eq!(removed.path, "/a");
    assert_eq!(keys.len(), 1);
    assert_eq!(remove_key_entry(&mut keys, "a").unwrap_err(), InventoryError::NotFound);
}

#[test]
fn key_usage() {
    let servers = vec![server("a", "h", Some("k")), server("b", "h", None), server("c", "h", Some("k")), server("d", "h", Some("j"))];
    assert_eq!(count_servers_using(&servers, "k"), 2);
    assert_eq!(count_servers_using(&servers, "j"), 1);
    assert_eq!(count_servers_using(&servers, "z"), 0);
    assert!(key_in_use(&servers, "j"));
    assert!(!key_in_use(&servers, "z"));
    assert_eq!(servers_to_sync(&servers), vec!["a".to_string(), "c".to_string(), "d".to_string()]);
}

#[test]
fn history_is_capped() {
    let mut history: Vec<HistoryEntry> = Vec::new();
    for i in 0..HISTORY_LIMIT {
        append_history(&mut history, HistoryEntry { timestamp: i.to_string(), server_name: "s".into() });
    }
    assert_eq!(history.len(), 1000);
    append_history(&mut history, HistoryEntry { timestamp: "last".into(), server_name: "s".into() });
    assert_eq!(history.len(), 1000);
    assert_eq!(history[0].timestamp, "1");
    assert_eq!(history[999].timestamp, "last");
}

#[test]
fn record_connection_appends() {
    let mut history: Vec<HistoryEntry> = Vec::new();
    record_connection(&mut history, "producao");
    assert_eq!(history.len(), 1);
    assert_eq!(history[0].server_name, "producao");
    assert!(is_rfc3339(&history[0].timestamp));
}

#[test]
fn new_server_records() {
    let s = build_server("web", "1.2.3.4".into(), "ubuntu".into(), 2222, Some("k".into()), "  Homelab \n", "t0".into());
    assert_eq!(s.environment.as_deref(), Some("Homelab"));
    assert_eq!(s.created_at, "t0");
    assert!(s.last_connected.is_none());
    let blank = build_server("web", "h".into(), "u".into(), 22, None, "   ", "t0".into());
    assert!(blank.environment.is_none());
    let now = new_server("db", "h".into(), "u".into(), 22, None, "");
    assert!(is_rfc3339(&now.created_at));
    assert!(now.last_connected.is_none());
}

#[test]
fn rotation_names() {
    assert_eq!(rotation_key_name_at("producao", "20240102030405"), "producao_rot_20240102030405");
    let n = rotation_key_name("web");
    assert!(n.starts_with("web_rot_"));
    let stamp = &n["web_rot_".len()..];
    assert_eq!(stamp.len(), 14);
    assert!(stamp.chars().all(|c| c.is_ascii_digit()));
}

#[test]
fn reimporting_an_export_changes_nothing() {
    let mut servers = vec![server("a", "h1", Some("k")), server("b", "h2", None)];
    let export = servers.clone();
    merge_by_name(&mut servers, export.clone());
    assert_eq!(servers, export);
}
