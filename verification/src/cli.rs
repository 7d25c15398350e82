//! The command line: bare server names as a shortcut for `connect`, and the
//! formats of export and import.
use vstd::prelude::*;
use crate::text::{owned, str_eq, to_chars, all_ascii, ascii_lower};

verus! {

/// The subcommands of the tool.
pub open spec fn known_subcommand(s: Seq<char>) -> bool {
    ||| s == "add"@
    ||| s == "connect"@
    ||| s == "list"@
    ||| s == "ls"@
    ||| s == "info"@
    ||| s == "remove"@
    ||| s == "rename"@
    ||| s == "copy"@
    ||| s == "exec"@
    ||| s == "shell"@
    ||| s == "install-key"@
    ||| s == "keys"@
    ||| s == "key"@
    ||| s == "sync"@
    ||| s == "doctor"@
    ||| s == "ping"@
    ||| s == "config"@
    ||| s == "export"@
    ||| s == "import"@
    ||| s == "agent"@
}

/// Whether `s` is a subcommand of the tool.
pub fn is_known_subcommand(s: &str) -> (b: bool)
    ensures
        b == known_subcommand(s@),
{
    str_eq(s, "add") || str_eq(s, "connect") || str_eq(s, "list") || str_eq(s, "ls") || str_eq(
        s,
        "info",
    ) || str_eq(s, "remove") || str_eq(s, "rename") || str_eq(s, "copy") || str_eq(s, "exec")
        || str_eq(s, "shell") || str_eq(s, "install-key") || str_eq(s, "keys") || str_eq(s, "key")
        || str_eq(s, "sync") || str_eq(s, "doctor") || str_eq(s, "ping") || str_eq(s, "config")
        || str_eq(s, "export") || str_eq(s, "import") || str_eq(s, "agent")
}

/// The command line with `connect` inserted before a first argument that is
/// neither a subcommand nor an option, so that `sshx producao` means
/// `sshx connect producao`.
pub open spec fn expand_args(args: Seq<Seq<char>>) -> Seq<Seq<char>> {
    if args.len() > 1 && !known_subcommand(args[1]) && !(args[1].len() > 0 && args[1][0] == '-') {
        args.insert(1, "connect"@)
    } else {
        args
    }
}

/// Expands a bare server name into `connect <name>`.
pub fn preprocess_args(args: Vec<String>) -> (r: Vec<String>)
    ensures
        r.deep_view() == expand_args(args.deep_view()),
{
    let mut args = args;
    if args.len() > 1 {
        let first = args[1].as_str();
        let cs = to_chars(first);
        let is_option = cs.len() > 0 && cs[0] == '-';
        if !is_known_subcommand(first) && !is_option {
            let ghost before = args.deep_view();
            let ghost old_args = args@;
            args.insert(1, owned("connect"));
            assert(args.deep_view() =~= before.insert(1, "connect"@)) by {
                assert forall|k: int| 0 <= k < args@.len() implies args.deep_view()[k] == before.insert(
                    1,
                    "connect"@,
                )[k] by {
                    if k < 1 {
                        assert(args@[k] == old_args[k]);
                    } else if k > 1 {
                        assert(args@[k] == old_args[k - 1]);
                    }
                }
            }
        }
    }
    args
}

/// Law: expanding an expanded command line changes nothing more.
pub proof fn lemma_expand_idempotent(args: Seq<Seq<char>>)
    ensures
        expand_args(expand_args(args)) == expand_args(args),
{
    let e = expand_args(args);
    if e != args {
        assert(e[1] == "connect"@);
        assert(known_subcommand(e[1]));
    }
}

/// Law: a command line that starts with a subcommand or an option is left as it is.
pub proof fn lemma_expand_keeps_commands(args: Seq<Seq<char>>)
    requires
        args.len() > 1,
        known_subcommand(args[1]) || (args[1].len() > 0 && args[1][0] == '-'),
    ensures
        expand_args(args) == args,
{
}

/// The formats of export and import.
#[derive(Debug, PartialEq, Eq, Clone, Copy)]
pub enum ConfigFormat {
    Yaml,
    Json,
    Toml,
}

/// The lowercase of `s` as Unicode defines it (`str::to_lowercase`).
pub uninterp spec fn unicode_lowercase(s: Seq<char>) -> Seq<char>;

/// `str::to_lowercase`. Trusted: the result is the named lowercase of `s`;
/// for ASCII text it is the text with its capital letters made small.
#[verifier::external_body]
fn to_lowercase(s: &str) -> (r: String)
    ensures
        r@ == unicode_lowercase(s@),
        all_ascii(s@) ==> r@ == ascii_lower(s@),
{
    s.to_lowercase()
}

/// The format that a lowercase format name selects: `json`, `toml`, and YAML
/// for anything else.
pub open spec fn format_named(lower: Seq<char>) -> ConfigFormat {
    if lower == "json"@ {
        ConfigFormat::Json
    } else if lower == "toml"@ {
        ConfigFormat::Toml
    } else {
        ConfigFormat::Yaml
    }
}

/// The format that a lowercase format name selects.
pub fn format_from_lowercase(lower: &str) -> (f: ConfigFormat)
    ensures
        f == format_named(lower@),
{
    if str_eq(lower, "json") {
        ConfigFormat::Json
    } else if str_eq(lower, "toml") {
        ConfigFormat::Toml
    } else {
        ConfigFormat::Yaml
    }
}

/// The format that `export --format <name>` writes, the name read without regard to case.
pub fn export_format(name: &str) -> (f: ConfigFormat)
    ensures
        f == format_named(unicode_lowercase(name@)),
        all_ascii(name@) ==> f == format_named(ascii_lower(name@)),
{
    let lower = to_lowercase(name);
    format_from_lowercase(lower.as_str())
}

/// The format that `import` reads a file in, by its extension (`yaml` where
/// it has none), read without regard to case.
pub fn import_format(extension: Option<&str>) -> (f: ConfigFormat)
    ensures
        f == format_named(unicode_lowercase(
            match extension {
                Some(e) => e@,
                None => "yaml"@,
            },
        )),
        match extension {
            Some(e) => all_ascii(e@) ==> f == format_named(ascii_lower(e@)),
            None => f == ConfigFormat::Yaml,
        },
{
    match extension {
        Some(e) => export_format(e),
        None => {
            proof {
                reveal_strlit("yaml");
                reveal_strlit("json");
                reveal_strlit("toml");
                assert(all_ascii("yaml"@));
                assert(ascii_lower("yaml"@) =~= "yaml"@);
                assert("yaml"@ != "json"@ && "yaml"@ != "toml"@) by {
                    assert("yaml"@[0] != "json"@[0] && "yaml"@[0] != "toml"@[0]);
                }
            }
            export_format("yaml")
        },
    }
}

} // verus!
