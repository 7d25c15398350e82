//! The points where the library reads the wall clock, and what it does with
//! the time it read.
use vstd::prelude::*;
use crate::model::{Server, HistoryEntry};
use crate::registry::{pos_of, mark_connected, InventoryError};
use crate::text::{concat, trim_str, trim, all_digits, is_digit};
use crate::paths::{plain_component, joinable};

verus! {

/// A year as chrono writes it: four digits for the years 0 to 9999, else a
/// sign and at least four digits.
pub open spec fn year_text(y: Seq<char>) -> bool {
    ||| y.len() == 4 && all_digits(y)
    ||| y.len() >= 5 && (y[0] == '+' || y[0] == '-') && all_digits(y.skip(1))
}

/// `-MM-DDTHH:MM:SS`: month, day, hour, minute and second in two digits each.
pub open spec fn clock_text(t: Seq<char>) -> bool {
    &&& t.len() == 15
    &&& t[0] == '-' && t[3] == '-' && t[6] == 'T' && t[9] == ':' && t[12] == ':'
    &&& is_digit(t[1]) && is_digit(t[2]) && is_digit(t[4]) && is_digit(t[5])
    &&& is_digit(t[7]) && is_digit(t[8]) && is_digit(t[10]) && is_digit(t[11])
    &&& is_digit(t[13]) && is_digit(t[14])
}

/// The fraction of a second: none, or a point and three, six or nine digits.
pub open spec fn fraction_text(f: Seq<char>) -> bool {
    ||| f.len() == 0
    ||| (f.len() == 4 || f.len() == 7 || f.len() == 10) && f[0] == '.' && all_digits(f.skip(1))
}

/// The offset from UTC: a sign, two digits of hours, `:` and two digits of minutes.
pub open spec fn offset_text(o: Seq<char>) -> bool {
    &&& o.len() == 6
    &&& o[0] == '+' || o[0] == '-'
    &&& is_digit(o[1]) && is_digit(o[2]) && o[3] == ':' && is_digit(o[4]) && is_digit(o[5])
}

/// An RFC 3339 date and time as `DateTime::to_rfc3339` writes it, such as
/// `1996-12-19T16:39:57-08:00`.
pub open spec fn rfc3339_text(s: Seq<char>) -> bool {
    exists|y: Seq<char>, t: Seq<char>, f: Seq<char>, o: Seq<char>|
        year_text(y) && clock_text(t) && fraction_text(f) && offset_text(o) && #[trigger] (y + t + f + o) == s
}

/// The current local time in RFC 3339 form (`chrono::Local::now()` then
/// `DateTime::to_rfc3339`). Trusted: the text has the shape that
/// `write_rfc3339` gives it (year, `-MM-DDTHH:MM:SS`, a fraction of a second
/// where it is not zero, and the offset as `+HH:MM`). Which time it names is
/// the clock's and the time zone's, and is left unsaid.
#[verifier::external_body]
fn local_now_rfc3339() -> (r: String)
    ensures
        rfc3339_text(r@),
{
    chrono::Local::now().to_rfc3339()
}

/// The pattern of the time stamp in a rotated key's name: year, month, day,
/// hour, minute and second, with no separators.
pub const STAMP_PATTERN: &'static str = "%Y%m%d%H%M%S";

/// A stamp written by `STAMP_PATTERN`: fourteen digits; or, for a year
/// outside 0 to 9999, a sign and then at least fourteen digits.
pub open spec fn compact_stamp(s: Seq<char>) -> bool {
    ||| s.len() == 14 && all_digits(s)
    ||| s.len() >= 15 && (s[0] == '+' || s[0] == '-') && all_digits(s.skip(1))
}

/// The current local time written with the pattern `pattern`, which is
/// `STAMP_PATTERN` (`chrono::Local::now()` then `DateTime::format`).
/// Trusted: the text is the year (four digits, zero-padded, for the years 0
/// to 9999; else a sign and at least four digits), then the month, the day,
/// the hour, the minute and the second in two digits each. Which time it
/// names is the clock's and the time zone's, and is left unsaid.
#[verifier::external_body]
fn local_now_formatted(pattern: &str) -> (r: String)
    requires
        pattern@ == STAMP_PATTERN@,
    ensures
        compact_stamp(r@),
{
    chrono::Local::now().format(pattern).to_string()
}

/// Records a connection to the first server named `name` at the current time
/// and returns that server as updated. Only `last_connected` changes, and it
/// holds some time afterwards.
pub fn touch_server(servers: &mut Vec<Server>, name: &str) -> (r: Result<Server, InventoryError>)
    ensures
        pos_of(old(servers)@, name@) < 0 ==> r == Err::<Server, InventoryError>(
            InventoryError::NotFound,
        ) && final(servers)@ == old(servers)@,
        pos_of(old(servers)@, name@) >= 0 ==> {
            let p = pos_of(old(servers)@, name@);
            &&& r matches Ok(s) && s.last_connected matches Some(t) && rfc3339_text(t@)
            &&& r == Ok::<Server, InventoryError>(
                Server { last_connected: r->Ok_0.last_connected, ..old(servers)@[p] },
            )
            &&& final(servers)@ == old(servers)@.update(p, r->Ok_0)
        },
{
    let now = local_now_rfc3339();
    mark_connected(servers, name, now)
}

/// The name given to the key that replaces a server's key at rotation:
/// the server's name, `_rot_` and the time stamp.
pub open spec fn rotation_name(server_name: Seq<char>, stamp: Seq<char>) -> Seq<char> {
    server_name + "_rot_"@ + stamp
}

/// The name for a rotated key of `server_name` with the time stamp `stamp`.
pub fn rotation_key_name_at(server_name: &str, stamp: &str) -> (r: String)
    ensures
        r@ == rotation_name(server_name@, stamp@),
{
    let a = concat(server_name, "_rot_");
    concat(a.as_str(), stamp)
}

/// The name for a rotated key of `server_name`, stamped with the current time.
pub fn rotation_key_name(server_name: &str) -> (r: String)
    ensures
        exists|stamp: Seq<char>| compact_stamp(stamp) && #[trigger] rotation_name(server_name@, stamp) == r@,
        plain_component(server_name@) ==> joinable(r@),
{
    let stamp = local_now_formatted(STAMP_PATTERN);
    let r = rotation_key_name_at(server_name, stamp.as_str());
    proof {
        reveal_strlit("_rot_");
        if plain_component(server_name@) {
            let n = server_name@.len();
            assert forall|i: int| 0 <= i < r@.len() implies #[trigger] r@[i] != '/' && r@[i] != '\\'
                && r@[i] != ':' by {
                if i < n {
                    assert(r@[i] == server_name@[i]);
                } else if i >= n + 5 {
                    let k = i - n - 5;
                    assert(r@[i] == stamp@[k]);
                    if stamp@.len() == 14 {
                        assert(is_digit(stamp@[k]));
                    } else if k > 0 {
                        assert(stamp@.skip(1)[k - 1] == stamp@[k]);
                        assert(is_digit(stamp@.skip(1)[k - 1]));
                    }
                }
            }
            assert(r@.len() != seq!['.'].len() && r@.len() != seq!['.', '.'].len());
        }
    }
    r
}

/// The environment label typed at registration: `None` where it is blank,
/// else the text without surrounding white space.
pub open spec fn environment_label(input: Seq<char>) -> Option<Seq<char>> {
    if trim(input).len() == 0 {
        None
    } else {
        Some(trim(input))
    }
}

/// A new server record created at `created_at`, never connected to.
pub fn build_server(
    name: &str,
    host: String,
    user: String,
    port: u16,
    key_name: Option<String>,
    environment_input: &str,
    created_at: String,
) -> (r: Server)
    ensures
        r.name@ == name@,
        r.host == host,
        r.user == user,
        r.port == port,
        r.key_name == key_name,
        crate::model::opt_view(r.environment) == environment_label(environment_input@),
        r.created_at == created_at,
        r.last_connected is None,
{
    let t = trim_str(environment_input);
    let environment = if t.as_str().unicode_len() == 0 {
        None
    } else {
        Some(t)
    };
    Server {
        name: crate::text::owned(name),
        host,
        user,
        port,
        key_name,
        environment,
        created_at,
        last_connected: None,
    }
}

/// A new server record created now, never connected to.
pub fn new_server(
    name: &str,
    host: String,
    user: String,
    port: u16,
    key_name: Option<String>,
    environment_input: &str,
) -> (r: Server)
    ensures
        r.name@ == name@,
        r.host == host,
        r.user == user,
        r.port == port,
        r.key_name == key_name,
        crate::model::opt_view(r.environment) == environment_label(environment_input@),
        rfc3339_text(r.created_at@),
        r.last_connected is None,
{
    let now = local_now_rfc3339();
    build_server(name, host, user, port, key_name, environment_input, now)
}

/// The most entries the connection history keeps.
pub const HISTORY_LIMIT: usize = 1000;

/// `history` with `entry` appended, and its oldest entry dropped where that
/// makes it longer than the limit.
pub open spec fn capped_push(history: Seq<HistoryEntry>, entry: HistoryEntry) -> Seq<HistoryEntry> {
    let t = history.push(entry);
    if t.len() > HISTORY_LIMIT {
        t.drop_first()
    } else {
        t
    }
}

/// Appends `entry` to the history, dropping the oldest entry where the
/// history would exceed the limit.
pub fn append_history(history: &mut Vec<HistoryEntry>, entry: HistoryEntry)
    ensures
        final(history)@ == capped_push(old(history)@, entry),
{
    history.push(entry);
    if history.len() > HISTORY_LIMIT {
        history.remove(0);
        assert(history@ =~= old(history)@.push(entry).drop_first());
    }
}

/// Records a connection to `server_name` at the current time.
pub fn record_connection(history: &mut Vec<HistoryEntry>, server_name: &str)
    ensures
        exists|e: HistoryEntry|
            e.server_name@ == server_name@ && rfc3339_text(e.timestamp@) && final(history)@ == capped_push(
                old(history)@,
                e,
            ),
{
    let entry = HistoryEntry {
        timestamp: local_now_rfc3339(),
        server_name: crate::text::owned(server_name),
    };
    append_history(history, entry);
}

/// Law: a history within the limit stays within it, ends with the entry just
/// recorded, and keeps the most recent of the older entries in order.
pub proof fn lemma_history_capped(history: Seq<HistoryEntry>, entry: HistoryEntry)
    requires
        history.len() <= HISTORY_LIMIT,
    ensures
        capped_push(history, entry).len() <= HISTORY_LIMIT,
        capped_push(history, entry).last() == entry,
        capped_push(history, entry).drop_last() == history.skip(
            history.len() + 1 - capped_push(history, entry).len(),
        ),
{
    let t = history.push(entry);
    if t.len() > HISTORY_LIMIT {
        assert(t.drop_first().drop_last() =~= history.skip(1));
    } else {
        assert(t.drop_last() =~= history.skip(0));
    }
}

} // verus!
