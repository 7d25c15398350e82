use sshx::agent::{agent_add_args, agent_listing, agent_remove_args, agent_vars, export_lines, parse_agent_output, AgentError, AgentListing};
use sshx::cli::{export_format, import_format, preprocess_args, ConfigFormat};
use sshx::doctor::{agent_service_disabled, config_dir_mode_ok, count_issues, host_key_changed, keyscan_args, known_host_args, parse_fingerprints, private_key_mode_ok, AgentProbe, ConfigFiles, KeyFileCheck};
use sshx::keyops::{begin_rotation, commit_rotation, key_for_new_server, plan_key, KeyPlan, RotationAction, RotationEvent, RotationFailure, RotationStage};
use sshx::model::{AgentEnv, KeyInfo, Server};
use sshx::text::{parse_u32, to_chars, trim_str, decimal_string};

fn server(name: &str, key: Option<&str>) -> Server {
    Server {
        name: name.to_string(),
        host: "h".to_string(),
        user: "u".to_string(),
        port: 22,
        key_name: key.map(|k| k.to_string()),
        environment: None,
        created_at: "t".to_string(),
        last_connected: None,
    }
}

fn key(name: &str, path: &str) -> KeyInfo {
    KeyInfo { name: name.to_string(), key_type: "Ed25519".to_string(), path: path.to_string() }
}

fn args(v: &[&str]) -> Vec<String> {
    v.iter().map(|s| s.to_string()).collect()
}

#[test]
fn agent_output_is_parsed() {
    let out = "SSH_AUTH_SOCK=/tmp/ssh-XXXX/agent.123; export SSH_AUTH_SOCK;\nSSH_AGENT_PID=124; export SSH_AGENT_PID;\necho Agent pid 124;\n";
    let env = parse_agent_output(out).unwrap();
    assert_eq!(env.socket, "/tmp/ssh-XXXX/agent.123");
    assert_eq!(env.pid, 124);
}

#[test]
fn agent_output_errors() {
    assert_eq!(parse_agent_output("").unwrap_err(), AgentError::MissingVariables);
    assert_eq!(parse_agent_output("SSH_AUTH_SOCK=/s; export SSH_AUTH_SOCK;\n").unwrap_err(), AgentError::MissingVariables);
    assert_eq!(parse_agent_output("SSH_AUTH_SOCK=/s;\nSSH_AGENT_PID=abc;\n").unwrap_err(), AgentError::MissingVariables);
    assert_eq!(parse_agent_output("SSH_AUTH_SOCK=/s;\nSSH_AGENT_PID=0;\n").unwrap_err(), AgentError::MissingVariables);
    assert_eq!(parse_agent_output("SSH_AGENT_PID=5;\nSSH_AUTH_SOCK=;\n").unwrap_err(), AgentError::MissingVariables);
}

#[test]
fn agent_output_later_lines_win() {
    let env = parse_agent_output("SSH_AUTH_SOCK=/a;\r\nSSH_AGENT_PID=7\nSSH_AUTH_SOCK=SSH_AUTH_SOCK=/b;x\nSSH_AGENT_PID=99999999999;\n").unwrap();
    assert_eq!(env.socket, "/b");
    assert_eq!(env.pid, 7);
}

#[test]
fn agent_exports_round_trip() {
    let env = AgentEnv { socket: "/tmp/agent.1".into(), pid: 4242 };
    let lines = export_lines(&env);
    assert_eq!(lines, args(&["SSH_AUTH_SOCK=/tmp/agent.1; export SSH_AUTH_SOCK;", "SSH_AGENT_PID=4242; export SSH_AGENT_PID;", "echo Agent pid 4242;"]));
    let text: String = lines.iter().map(|l| format!("{}\n", l)).collect();
    let back = parse_agent_output(&text).unwrap();
    assert_eq!(back, env);
}

#[test]
fn agent_variables() {
    let saved = Some(AgentEnv { socket: "/s".into(), pid: 12 });
    assert!(agent_vars(true, &saved).is_empty());
    assert_eq!(agent_vars(false, &saved), vec![("SSH_AUTH_SOCK".to_string(), "/s".to_string()), ("SSH_AGENT_PID".to_string(), "12".to_string())]);
    assert!(agent_vars(false, &None).is_empty());
}

#[test]
fn agent_listings() {
    assert_eq!(agent_listing(true, "256 SHA256:x k (ED25519)\n", ""), AgentListing::Keys("256 SHA256:x k (ED25519)\n".into()));
    assert_eq!(agent_listing(false, "", "whatever"), AgentListing::NoKeys);
    assert_eq!(agent_listing(false, "x", "The agent has no identities.\n"), AgentListing::NoKeys);
    assert_eq!(agent_listing(false, "x", "  Could not open a connection\n"), AgentListing::Failed("Could not open a connection".into()));
}

#[test]
fn agent_key_arguments() {
    let keys = vec![key("github", "/keys/github")];
    assert_eq!(agent_add_args(&keys, "github").unwrap(), args(&["/keys/github"]));
    assert_eq!(agent_remove_args(&keys, "github").unwrap(), args(&["-d", "/keys/github"]));
    assert!(agent_add_args(&keys, "x").is_err());
    assert!(agent_remove_args(&keys, "x").is_err());
}

#[test]
fn bare_names_mean_connect() {
    assert_eq!(preprocess_args(args(&["sshx", "producao"])), args(&["sshx", "connect", "producao"]));
    assert_eq!(preprocess_args(args(&["sshx", "list"])), args(&["sshx", "list"]));
    assert_eq!(preprocess_args(args(&["sshx", "--help"])), args(&["sshx", "--help"]));
    assert_eq!(preprocess_args(args(&["sshx"])), args(&["sshx"]));
    let once = preprocess_args(args(&["sshx", "web", "-v"]));
    assert_eq!(preprocess_args(once.clone()), once);
}

#[test]
fn formats() {
    assert_eq!(export_format("json"), ConfigFormat::Json);
    assert_eq!(export_format("JSON"), ConfigFormat::Json);
    assert_eq!(export_format("Toml"), ConfigFormat::Toml);
    assert_eq!(export_format("yaml"), ConfigFormat::Yaml);
    assert_eq!(export_format("xml"), ConfigFormat::Yaml);
    assert_eq!(import_format(Some("JSON")), ConfigFormat::Json);
    assert_eq!(import_format(None), ConfigFormat::Yaml);
    assert_eq!(import_format(Some("TOML")), ConfigFormat::Toml);
    assert_eq!(import_format(Some("yml")), ConfigFormat::Yaml);
}

#[test]
fn doctor_verdicts() {
    assert!(config_dir_mode_ok(0o40700));
    assert!(!config_dir_mode_ok(0o40755));
    assert!(private_key_mode_ok(0o100600));
    assert!(!private_key_mode_ok(0o100644));
    let servers = vec![server("a", Some("k")), server("b", Some("gone")), server("c", None)];
    let keys = vec![key("k", "/k")];
    let checks = vec![
        KeyFileCheck { private_exists: true, private_mode: Some(0o600), public_exists: true },
    ];
    let fine = ConfigFiles { servers_invalid: false, keys_invalid: false };
    let none = [false, false, false];
    assert_eq!(count_issues(Some(0o700), fine, &checks, &servers, &keys, &[true, true, true], &none, &AgentProbe::Available), 1);
    let bad = vec![
        KeyFileCheck { private_exists: false, private_mode: None, public_exists: false },
        KeyFileCheck { private_exists: true, private_mode: Some(0o644), public_exists: true },
    ];
    assert_eq!(count_issues(Some(0o755), fine, &bad, &servers, &keys, &[false, true, true], &none, &AgentProbe::Missing), 1 + 3 + 2 + 1);
    assert_eq!(count_issues(None, fine, &[], &[], &keys, &[], &[], &AgentProbe::Failed("e".into())), 1);
    let broken = ConfigFiles { servers_invalid: true, keys_invalid: true };
    assert_eq!(count_issues(None, broken, &[], &[], &keys, &[], &[], &AgentProbe::Available), 2);
    let one_broken = ConfigFiles { servers_invalid: false, keys_invalid: true };
    assert_eq!(count_issues(None, one_broken, &checks, &servers, &keys, &[true, true, true], &[false, true, true], &AgentProbe::Available), 1 + 1 + 2);
    assert!(agent_service_disabled("  unable to start ssh-agent service, error :1058\n"));
    assert!(!agent_service_disabled("error 1057"));
    assert!(!agent_service_disabled("other"));
}

#[test]
fn rotation_success_removes_old_key() {
    let s = server("web", Some("old"));
    let keys = vec![key("old", "/keys/old")];
    let (mut rot, first) = begin_rotation(&s, &keys, "web_rot_1".into(), "/keys/web_rot_1".into(), "ssh-ed25519 NEW c\n");
    match first {
        RotationAction::Install(a) => assert_eq!(a, args(&["-i", "/keys/old", "-p", "22", "u@h", "mkdir -p ~/.ssh && chmod 700 ~/.ssh && echo 'ssh-ed25519 NEW c' >> ~/.ssh/authorized_keys && chmod 600 ~/.ssh/authorized_keys"])),
        other => panic!("unexpected {:?}", other),
    }
    match rot.step(RotationEvent::Installed(true)) {
        RotationAction::Verify(a) => assert_eq!(a[0..2], args(&["-i", "/keys/web_rot_1"])[..]),
        other => panic!("unexpected {:?}", other),
    }
    match rot.step(RotationEvent::Verified { success: true, stdout: "OK\n".into(), old_public_key: Some("ssh-ed25519 OLDKEY c".into()) }) {
        RotationAction::RemoveOld(a) => assert!(a.last().unwrap().starts_with("grep -v 'OLDKEY'")),
        other => panic!("unexpected {:?}", other),
    }
    assert_eq!(rot.stage, RotationStage::RemovingOld);
    assert!(matches!(rot.step(RotationEvent::OldRemoved), RotationAction::Commit));
    let mut servers = vec![s.clone(), server("other", Some("shared"))];
    let dropped = commit_rotation(&mut servers, 0, "web_rot_1".into(), &Some("old".into()));
    assert_eq!(servers[0].key_name.as_deref(), Some("web_rot_1"));
    assert_eq!(dropped.as_deref(), Some("old"));
}

#[test]
fn rotation_failures_delete_the_new_key() {
    let s = server("web", None);
    let (mut rot, _) = begin_rotation(&s, &[], "new".into(), "/new".into(), "pub");
    assert!(rot.old_key_path.is_none());
    match rot.step(RotationEvent::Installed(false)) {
        RotationAction::Abort { delete_key, failure } => {
            assert_eq!(delete_key, "new");
            assert_eq!(failure, RotationFailure::InstallFailed);
        }
        other => panic!("unexpected {:?}", other),
    }
    let (mut rot, _) = begin_rotation(&s, &[], "new".into(), "/new".into(), "pub");
    rot.step(RotationEvent::Installed(true));
    match rot.step(RotationEvent::Verified { success: true, stdout: "NOPE".into(), old_public_key: None }) {
        RotationAction::Abort { delete_key, failure } => {
            assert_eq!(delete_key, "new");
            assert_eq!(failure, RotationFailure::VerificationFailed);
        }
        other => panic!("unexpected {:?}", other),
    }
    let (mut rot, _) = begin_rotation(&s, &[], "new".into(), "/new".into(), "pub");
    rot.step(RotationEvent::Installed(true));
    assert!(matches!(rot.step(RotationEvent::Verified { success: true, stdout: " OK ".into(), old_public_key: None }), RotationAction::Commit));
}

#[test]
fn rotation_keeps_a_shared_old_key() {
    let mut servers = vec![server("a", Some("shared")), server("b", Some("shared"))];
    assert_eq!(commit_rotation(&mut servers, 0, "new".into(), &Some("shared".into())), None);
    assert_eq!(commit_rotation(&mut servers, 1, "new2".into(), &None), None);
}

#[test]
fn text_helpers() {
    assert_eq!(parse_u32(&to_chars("+42")), Some(42));
    assert_eq!(parse_u32(&to_chars("4294967295")), Some(u32::MAX));
    assert_eq!(parse_u32(&to_chars("4294967296")), None);
    assert_eq!(parse_u32(&to_chars("")), None);
    assert_eq!(parse_u32(&to_chars("+")), None);
    assert_eq!(parse_u32(&to_chars("-1")), None);
    assert_eq!(parse_u32(&to_chars(" 1")), None);
    assert_eq!(trim_str("\u{3000} a b\t\n"), "a b");
    assert_eq!(decimal_string(0), "0");
    assert_eq!(decimal_string(1234567890123), "1234567890123");
}

#[test]
fn host_key_fingerprints() {
    let known = parse_fingerprints("# Host example.com found: line 3 \nexample.com ED25519 SHA256:abcDEF123\n");
    assert_eq!(known, vec!["SHA256:abcDEF123".to_string()]);
    let offered = parse_fingerprints("256 SHA256:xyz987 example.com (ED25519)\n3072 SHA256:abcDEF123 example.com (RSA)\n");
    assert_eq!(offered, vec!["SHA256:xyz987".to_string(), "SHA256:abcDEF123".to_string()]);
    assert!(parse_fingerprints("").is_empty());
    assert!(!host_key_changed(&known, &offered));
    let other = vec!["SHA256:zzz".to_string()];
    assert!(host_key_changed(&known, &other));
    assert!(!host_key_changed(&[], &other));
    assert!(!host_key_changed(&known, &[]));
}

#[test]
fn host_key_lookup_arguments() {
    let mut s = server("a", None);
    s.host = "example.com".into();
    s.port = 22;
    assert_eq!(known_host_args(&s), vec!["-l".to_string(), "-F".to_string(), "example.com".to_string()]);
    assert_eq!(keyscan_args(&s), vec!["-p".to_string(), "22".to_string(), "example.com".to_string()]);
    s.port = 2222;
    assert_eq!(known_host_args(&s), vec!["-l".to_string(), "-F".to_string(), "[example.com]:2222".to_string()]);
}

#[test]
fn key_plan_of_a_new_server() {
    assert_eq!(plan_key(0, 0), KeyPlan::CreateKey);
    assert_eq!(plan_key(0, 3), KeyPlan::CreateKey);
    assert_eq!(plan_key(1, 0), KeyPlan::CreateKey);
    assert_eq!(plan_key(1, 2), KeyPlan::ChooseExisting);
    assert_eq!(plan_key(2, 2), KeyPlan::NoKey);
    let keys = vec![key("k", "/k"), key("web", "/keys/web")];
    assert_eq!(key_for_new_server(KeyPlan::CreateKey, &keys, "web".into(), true, None), Some("web".to_string()));
    assert_eq!(key_for_new_server(KeyPlan::CreateKey, &keys, "web".into(), false, None), None);
    assert_eq!(key_for_new_server(KeyPlan::CreateKey, &keys, "other".into(), true, None), None);
    assert_eq!(key_for_new_server(KeyPlan::ChooseExisting, &keys, String::new(), false, Some(1)), Some("web".to_string()));
    assert_eq!(key_for_new_server(KeyPlan::ChooseExisting, &keys, String::new(), false, Some(2)), None);
    assert_eq!(key_for_new_server(KeyPlan::NoKey, &keys, "web".into(), true, None), None);
}
