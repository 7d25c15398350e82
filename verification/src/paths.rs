//! Where the configuration, the keys and the connection sockets live:
//! `.config/sshx` under the user's home directory, with `keys` and `sockets`
//! inside it.
use vstd::prelude::*;
use crate::text::{concat, has_prefix};

verus! {

/// The user's home directory (`dirs::home_dir`), as text. Trusted, and
/// nothing is claimed of it: it depends on the platform and the environment
/// (`None` where none is known). A home directory whose name is not valid
/// UTF-8 is converted lossily (`to_string_lossy`): the library holds paths as text.
#[verifier::external_body]
fn home_dir_text() -> Option<String> {
    dirs::home_dir().map(|p| p.to_string_lossy().into_owned())
}

/// `part` is a single plain path component: not empty, and free of `/`,
/// `\` and `:`, the characters that make a component absolute or prefixed.
pub open spec fn plain_component(part: Seq<char>) -> bool {
    &&& part.len() > 0
    &&& forall|i: int| 0 <= i < part.len() ==> #[trigger] part[i] != '/' && part[i] != '\\' && part[i] != ':'
}

/// `part` can be joined as a new last component: a plain component other
/// than `.` and `..`.
pub open spec fn joinable(part: Seq<char>) -> bool {
    plain_component(part) && part != seq!['.'] && part != seq!['.', '.']
}

/// `s` starts with the Windows verbatim prefix `\\?\`, under which joining
/// rewrites the whole path.
pub open spec fn verbatim(s: Seq<char>) -> bool {
    has_prefix(s, seq!['\\', '\\', '?', '\\'])
}

/// `s` ends with `suffix`.
pub open spec fn has_suffix(s: Seq<char>, suffix: Seq<char>) -> bool {
    suffix.len() <= s.len() && s.skip(s.len() - suffix.len()) == suffix
}

/// A separator that joining may put after `base`: none, `/` or `\`; none only
/// where `base` is empty, ends in a separator or is a bare drive (`C:`), and
/// never after an empty base or one ending in `/`.
pub open spec fn join_sep(base: Seq<char>, sep: Seq<char>) -> bool {
    &&& (sep == Seq::<char>::empty() || sep == seq!['/'] || sep == seq!['\\'])
    &&& sep.len() == 0 ==> (base.len() == 0 || base.last() == '/' || base.last() == '\\' || (
    base.len() == 2 && base[1] == ':'))
    &&& sep.len() > 0 ==> (base.len() > 0 && base.last() != '/')
}

/// `r` is `base`, a separator that `join_sep` allows, and `part`.
pub open spec fn is_join(base: Seq<char>, part: Seq<char>, r: Seq<char>) -> bool {
    exists|sep: Seq<char>| #[trigger] join_sep(base, sep) && r == base + sep + part
}

/// `part` is a relative path that joining appends: not empty, not starting
/// with `/` or `\`, and holding no `:` (which could make it a drive prefix).
pub open spec fn relative_part(part: Seq<char>) -> bool {
    &&& part.len() > 0
    &&& part[0] != '/' && part[0] != '\\'
    &&& forall|i: int| 0 <= i < part.len() ==> #[trigger] part[i] != ':'
}

/// `base` takes a separator before an appended part: it is not empty, does
/// not end in a separator and is not a bare drive.
pub open spec fn needs_sep(base: Seq<char>) -> bool {
    &&& base.len() > 0
    &&& base.last() != '/' && base.last() != '\\'
    &&& !(base.len() == 2 && base[1] == ':')
}

/// `part` is the last component of `r`: `r` ends with a separator and `part`.
pub open spec fn ends_in_component(r: Seq<char>, part: Seq<char>) -> bool {
    &&& has_suffix(r, part)
    &&& r.len() > part.len()
    &&& (r[r.len() - part.len() - 1] == '/' || r[r.len() - part.len() - 1] == '\\')
}

/// `base` joined with `part` (`Path::join`), as text. Trusted: where `part`
/// is a relative path in the sense of `relative_part`, the result is `base`,
/// the separator that the platform needs and `part` where `base` has no
/// verbatim prefix, and keeps the prefix where it has one. Under a verbatim
/// prefix Windows rewrites the path; a single plain component (`joinable`)
/// then still ends it, after a separator. Which of `/` and `\` separates is
/// left unsaid: it is the platform's.
#[verifier::external_body]
pub(crate) fn path_join(base: &str, part: &str) -> (r: String)
    ensures
        relative_part(part@) && !verbatim(base@) ==> is_join(base@, part@, r@),
        relative_part(part@) && verbatim(base@) ==> verbatim(r@),
        joinable(part@) ==> has_suffix(r@, part@),
        joinable(part@) && verbatim(base@) ==> ends_in_component(r@, part@),
{
    std::path::Path::new(base).join(part).to_string_lossy().into_owned()
}

/// A single plain component is a relative path.
proof fn lemma_joinable_relative(part: Seq<char>)
    requires
        joinable(part),
    ensures
        relative_part(part),
{
    assert(part[0] != '/' && part[0] != '\\' && part[0] != ':');
}

/// A join ends with the part, and after a separator where the base needs one.
proof fn lemma_join_end(base: Seq<char>, part: Seq<char>, r: Seq<char>)
    requires
        is_join(base, part, r),
    ensures
        has_suffix(r, part),
        needs_sep(base) ==> ends_in_component(r, part),
{
    let sep = choose|sep: Seq<char>| #[trigger] join_sep(base, sep) && r == base + sep + part;
    assert(r.skip(r.len() - part.len()) =~= part);
    if needs_sep(base) {
        assert(sep.len() == 1);
        assert(r[r.len() - part.len() - 1] == sep[0]);
    }
}

/// Where the last component of `r` is a plain one, `r` takes a separator
/// before a further part.
pub(crate) proof fn lemma_component_needs_sep(r: Seq<char>, part: Seq<char>)
    requires
        joinable(part),
        ends_in_component(r, part),
    ensures
        needs_sep(r),
{
    assert(r.last() == r.skip(r.len() - part.len())[part.len() - 1]);
    assert(part[part.len() - 1] != '/' && part[part.len() - 1] != '\\' && part[part.len() - 1] != ':');
}

/// `base` joined with the plain component `part`.
pub(crate) fn join_checked(base: &str, part: &str) -> (r: String)
    requires
        joinable(part@),
    ensures
        has_suffix(r@, part@),
        !verbatim(base@) ==> is_join(base@, part@, r@),
        verbatim(base@) ==> verbatim(r@),
        needs_sep(base@) ==> ends_in_component(r@, part@),
{
    proof {
        lemma_joinable_relative(part@);
    }
    let r = path_join(base, part);
    proof {
        if !verbatim(base@) {
            lemma_join_end(base@, part@, r@);
        }
    }
    r
}

proof fn lemma_literals()
    ensures
        joinable(".config"@),
        joinable("sshx"@),
        joinable("keys"@),
        joinable("sockets"@),
        needs_sep("."@),
        !verbatim("."@),
        ".config"@.len() == 7,
{
    reveal_strlit(".config");
    reveal_strlit("sshx");
    reveal_strlit("keys");
    reveal_strlit("sockets");
    reveal_strlit(".");
    assert(".config"@.len() != seq!['.'].len());
    assert(".config"@.len() != seq!['.', '.'].len());
}

/// A configuration directory: `.config` then `sshx` joined onto some home
/// directory, or `sshx` joined onto `.`.
pub open spec fn config_dir_shape(r: Seq<char>) -> bool {
    ||| exists|h: Seq<char>, c: Seq<char>| #[trigger] is_join(h, ".config"@, c) && #[trigger] is_join(c, "sshx"@, r)
    ||| is_join("."@, "sshx"@, r)
}

/// `h` does not start with `\`, as no Unix path does: then nothing joined
/// onto it has a verbatim prefix.
pub open spec fn plain_start(h: Seq<char>) -> bool {
    h.len() == 0 || h[0] != '\\'
}

/// Joining onto a base that does not start with `\` gives no verbatim prefix.
proof fn lemma_plain_start_join(base: Seq<char>, part: Seq<char>, r: Seq<char>)
    requires
        plain_start(base),
        joinable(part),
        is_join(base, part, r),
    ensures
        plain_start(r),
        !verbatim(r),
{
    let sep = choose|sep: Seq<char>| #[trigger] join_sep(base, sep) && r == base + sep + part;
    if base.len() > 0 {
        assert(r[0] == base[0]);
    } else {
        assert(sep.len() == 0);
        assert(r[0] == part[0]);
    }
    if verbatim(r) {
        assert(r.take(4)[0] == r[0]);
        assert(seq!['\\', '\\', '?', '\\'][0] == '\\');
    }
}

/// The configuration directory for the home directory `home`:
/// `home/.config/sshx`, or `./sshx` where no home directory is known.
pub fn config_dir_from(home: Option<&str>) -> (r: String)
    ensures
        ends_in_component(r@, "sshx"@),
        match home {
            Some(h) => {
                &&& plain_start(h@) ==> exists|c: Seq<char>| #[trigger] is_join(h@, ".config"@, c)
                    && is_join(c, "sshx"@, r@)
                &&& !verbatim(h@) ==> exists|c: Seq<char>| #[trigger] is_join(h@, ".config"@, c)
                    && (!verbatim(c) ==> is_join(c, "sshx"@, r@))
                &&& verbatim(h@) ==> verbatim(r@)
                &&& !verbatim(r@) ==> exists|c: Seq<char>| #[trigger] is_join(h@, ".config"@, c)
                    && is_join(c, "sshx"@, r@)
            },
            None => is_join("."@, "sshx"@, r@),
        },
{
    proof {
        lemma_literals();
    }
    match home {
        Some(h) => {
            let c = join_checked(h, ".config");
            proof {
                lemma_component_needs_sep_suffix(c@, ".config"@);
            }
            let r = join_checked(c.as_str(), "sshx");
            proof {
                if !verbatim(h@) {
                    assert(is_join(h@, ".config"@, c@));
                    assert(exists|w: Seq<char>| #[trigger] is_join(h@, ".config"@, w) && (!verbatim(w)
                        ==> is_join(w, "sshx"@, r@)));
                }
                if plain_start(h@) {
                    assert(!verbatim(h@)) by {
                        if verbatim(h@) {
                            assert(h@.take(4)[0] == h@[0]);
                            assert(seq!['\\', '\\', '?', '\\'][0] == '\\');
                        }
                    }
                    lemma_plain_start_join(h@, ".config"@, c@);
                    assert(is_join(c@, "sshx"@, r@));
                    assert(exists|w: Seq<char>| #[trigger] is_join(h@, ".config"@, w) && is_join(w, "sshx"@, r@));
                }
                if !verbatim(r@) {
                    assert(!verbatim(c@));
                    assert(!verbatim(h@));
                    assert(exists|w: Seq<char>| #[trigger] is_join(h@, ".config"@, w) && is_join(w, "sshx"@, r@));
                }
            }
            r
        },
        None => {
            join_checked(".", "sshx")
        },
    }
}

/// A base that ends with a plain name of more than two characters takes a
/// separator before a further part.
proof fn lemma_component_needs_sep_suffix(r: Seq<char>, name: Seq<char>)
    requires
        joinable(name),
        name.len() > 2,
        has_suffix(r, name),
    ensures
        needs_sep(r),
{
    assert(r.last() == r.skip(r.len() - name.len())[name.len() - 1]);
    assert(name[name.len() - 1] != '/' && name[name.len() - 1] != '\\');
}

/// The directory of this tool's configuration: `.config/sshx` under the
/// user's home directory, or `./sshx` where none is known.
pub fn get_config_dir() -> (r: String)
    ensures
        ends_in_component(r@, "sshx"@),
        !verbatim(r@) ==> config_dir_shape(r@),
{
    let home = home_dir_text();
    match home {
        Some(h) => config_dir_from(Some(h.as_str())),
        None => config_dir_from(None),
    }
}

/// The keys directory inside the configuration directory `config`.
pub fn keys_dir_in(config: &str) -> (r: String)
    ensures
        has_suffix(r@, "keys"@),
        !verbatim(config@) ==> is_join(config@, "keys"@, r@),
        verbatim(config@) ==> verbatim(r@),
        needs_sep(config@) ==> ends_in_component(r@, "keys"@),
{
    proof {
        lemma_literals();
    }
    join_checked(config, "keys")
}

/// The sockets directory inside the configuration directory `config`.
pub fn sockets_dir_in(config: &str) -> (r: String)
    ensures
        has_suffix(r@, "sockets"@),
        !verbatim(config@) ==> is_join(config@, "sockets"@, r@),
        verbatim(config@) ==> verbatim(r@),
        needs_sep(config@) ==> ends_in_component(r@, "sockets"@),
{
    proof {
        lemma_literals();
    }
    join_checked(config, "sockets")
}

/// A keys directory: `keys` joined onto a configuration directory.
pub open spec fn keys_dir_shape(k: Seq<char>) -> bool {
    exists|c: Seq<char>| config_dir_shape(c) && #[trigger] is_join(c, "keys"@, k)
}

/// A sockets directory: `sockets` joined onto a configuration directory.
pub open spec fn sockets_dir_shape(s: Seq<char>) -> bool {
    exists|c: Seq<char>| config_dir_shape(c) && #[trigger] is_join(c, "sockets"@, s)
}

/// The directory that holds the keys: `keys` inside the configuration directory.
pub fn get_keys_dir() -> (r: String)
    ensures
        ends_in_component(r@, "keys"@),
        !verbatim(r@) ==> keys_dir_shape(r@),
{
    let c = get_config_dir();
    proof {
        lemma_literals();
        lemma_component_needs_sep(c@, "sshx"@);
    }
    let r = keys_dir_in(c.as_str());
    assert(!verbatim(r@) ==> is_join(c@, "keys"@, r@));
    r
}

/// The directory that holds the connection-sharing sockets: `sockets` inside
/// the configuration directory.
pub fn get_sockets_dir() -> (r: String)
    ensures
        ends_in_component(r@, "sockets"@),
        !verbatim(r@) ==> sockets_dir_shape(r@),
{
    let c = get_config_dir();
    proof {
        lemma_literals();
        lemma_component_needs_sep(c@, "sshx"@);
    }
    let r = sockets_dir_in(c.as_str());
    assert(!verbatim(r@) ==> is_join(c@, "sockets"@, r@));
    r
}

/// The path of the public half of the private key at `private_path`: the
/// same path with `.pub` appended.
pub fn public_key_path(private_path: &str) -> (r: String)
    ensures
        r@ == private_path@ + ".pub"@,
{
    concat(private_path, ".pub")
}

/// Where the key named `name` is stored in the keys directory `keys_dir`:
/// `name` appended to it, where `name` is a relative path.
pub fn key_path_in(keys_dir: &str, name: &str) -> (r: String)
    ensures
        relative_part(name@) && !verbatim(keys_dir@) ==> is_join(keys_dir@, name@, r@),
        relative_part(name@) && verbatim(keys_dir@) ==> verbatim(r@),
        joinable(name@) ==> has_suffix(r@, name@),
        joinable(name@) && needs_sep(keys_dir@) ==> ends_in_component(r@, name@),
{
    let r = path_join(keys_dir, name);
    proof {
        if joinable(name@) {
            lemma_joinable_relative(name@);
            if !verbatim(keys_dir@) {
                lemma_join_end(keys_dir@, name@, r@);
            }
        }
    }
    r
}

/// Where a new key named `name` is stored: `name` inside the keys directory.
pub fn new_key_path(name: &str) -> (r: String)
    ensures
        joinable(name@) ==> ends_in_component(r@, name@),
        relative_part(name@) && !verbatim(r@) ==> exists|k: Seq<char>| keys_dir_shape(k) && #[trigger] is_join(k, name@, r@),
{
    let dir = get_keys_dir();
    proof {
        lemma_literals();
        lemma_component_needs_sep(dir@, "keys"@);
    }
    let r = key_path_in(dir.as_str(), name);
    assert(relative_part(name@) && !verbatim(r@) ==> is_join(dir@, name@, r@));
    r
}

} // verus!
