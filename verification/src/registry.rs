//! The server and key inventories: lookup by name, insertion, removal,
//! renaming and the merge that an import performs.
use vstd::prelude::*;
use crate::model::{Named, Server, KeyInfo};
use crate::text::str_eq;

verus! {

// ---------------------------------------------------------------------------
// Lookup by name
// ---------------------------------------------------------------------------

/// The index of the first record named `n`, or -1 where there is none.
pub open spec fn pos_of<T: Named>(s: Seq<T>, n: Seq<char>) -> int
    decreases s.len(),
{
    if s.len() == 0 {
        -1
    } else {
        let p = pos_of(s.drop_last(), n);
        if p >= 0 {
            p
        } else if s.last().name_view() == n {
            s.len() - 1
        } else {
            -1
        }
    }
}

/// Some record is named `n`.
pub open spec fn has_name<T: Named>(s: Seq<T>, n: Seq<char>) -> bool {
    exists|i: int| 0 <= i < s.len() && #[trigger] s[i].name_view() == n
}

/// No two records share a name.
pub open spec fn names_unique<T: Named>(s: Seq<T>) -> bool {
    forall|i: int, j: int|
        0 <= i < s.len() && 0 <= j < s.len() && i != j ==> #[trigger] s[i].name_view()
            != #[trigger] s[j].name_view()
}

/// `pos_of` is the first index holding the name, and -1 exactly when none does.
pub proof fn lemma_pos_of<T: Named>(s: Seq<T>, n: Seq<char>)
    ensures
        -1 <= pos_of(s, n) < s.len(),
        pos_of(s, n) >= 0 ==> s[pos_of(s, n)].name_view() == n,
        forall|j: int| 0 <= j < s.len() && (pos_of(s, n) < 0 || j < pos_of(s, n)) ==> #[trigger] s[j].name_view() != n,
        pos_of(s, n) >= 0 <==> has_name(s, n),
    decreases s.len(),
{
    if s.len() > 0 {
        let t = s.drop_last();
        lemma_pos_of(t, n);
        assert forall|j: int| 0 <= j < t.len() implies #[trigger] t[j] == s[j] by {}
        if pos_of(s, n) >= 0 {
            let p = pos_of(s, n);
            assert(s[p].name_view() == n);
            assert forall|j: int| 0 <= j < p implies #[trigger] s[j].name_view() != n by {
                assert(t[j] == s[j]);
            }
        } else {
            assert forall|j: int| 0 <= j < s.len() implies #[trigger] s[j].name_view() != n by {
                if j < t.len() {
                    assert(t[j] == s[j]);
                }
            }
        }
    }
}

/// The first index holding the name is determined by the two properties it has.
pub proof fn lemma_pos_of_unique<T: Named>(s: Seq<T>, n: Seq<char>, k: int)
    requires
        0 <= k <= s.len(),
        forall|j: int| 0 <= j < k ==> #[trigger] s[j].name_view() != n,
        k < s.len() ==> s[k].name_view() == n,
    ensures
        pos_of(s, n) == (if k < s.len() { k } else { -1 }),
{
    lemma_pos_of(s, n);
    let p = pos_of(s, n);
    if k < s.len() {
        if p < 0 {
            assert(s[k].name_view() != n);
        } else if p < k {
            assert(s[p].name_view() != n);
        } else if k < p {
            assert(s[k].name_view() != n);
        }
    } else if p >= 0 {
        assert(s[p].name_view() != n);
    }
}

/// Two inventories whose records carry the same names, index by index, find
/// every name at the same index.
pub proof fn lemma_pos_of_same_names<T: Named>(s: Seq<T>, t: Seq<T>, n: Seq<char>)
    requires
        s.len() == t.len(),
        forall|i: int| 0 <= i < s.len() ==> #[trigger] s[i].name_view() == t[i].name_view(),
    ensures
        pos_of(s, n) == pos_of(t, n),
{
    lemma_pos_of(s, n);
    let p = pos_of(s, n);
    if p >= 0 {
        assert(t[p].name_view() == s[p].name_view());
        assert forall|j: int| 0 <= j < p implies #[trigger] t[j].name_view() != n by {
            assert(s[j].name_view() == t[j].name_view());
        }
        lemma_pos_of_unique(t, n, p);
    } else {
        assert forall|j: int| 0 <= j < t.len() implies #[trigger] t[j].name_view() != n by {
            assert(s[j].name_view() == t[j].name_view());
        }
        lemma_pos_of_unique(t, n, t.len() as int);
    }
}

/// The index of the first record named `name`, if there is one.
pub fn position_by_name<T: Named>(items: &[T], name: &str) -> (r: Option<usize>)
    ensures
        match r {
            Some(i) => pos_of(items@, name@) == i as int,
            None => pos_of(items@, name@) == -1,
        },
{
    let n = items.len();
    let mut i: usize = 0;
    while i < n
        invariant
            n == items@.len(),
            i <= n,
            forall|j: int| 0 <= j < i ==> #[trigger] items@[j].name_view() != name@,
        decreases n - i,
    {
        if str_eq(items[i].name_str(), name) {
            proof {
                lemma_pos_of_unique(items@, name@, i as int);
            }
            return Some(i);
        }
        i = i + 1;
    }
    proof {
        lemma_pos_of_unique(items@, name@, n as int);
    }
    None
}

// ---------------------------------------------------------------------------
// Insert-or-replace and the merge of an import
// ---------------------------------------------------------------------------

/// `s` with `x` in place of the first record of the same name, or with `x`
/// appended where there is none.
pub open spec fn upsert<T: Named>(s: Seq<T>, x: T) -> Seq<T> {
    let p = pos_of(s, x.name_view());
    if p >= 0 {
        s.update(p, x)
    } else {
        s.push(x)
    }
}

/// `s` after upserting each record of `imported`, in order.
pub open spec fn merge<T: Named>(s: Seq<T>, imported: Seq<T>) -> Seq<T>
    decreases imported.len(),
{
    if imported.len() == 0 {
        s
    } else {
        upsert(merge(s, imported.drop_last()), imported.last())
    }
}

/// The last record of `s` named `n`, if any.
pub open spec fn last_named<T: Named>(s: Seq<T>, n: Seq<char>) -> Option<T>
    decreases s.len(),
{
    if s.len() == 0 {
        None
    } else if s.last().name_view() == n {
        Some(s.last())
    } else {
        last_named(s.drop_last(), n)
    }
}

/// Replaces the first record named like `item`, or appends `item` where there is none.
pub fn upsert_by_name<T: Named>(items: &mut Vec<T>, item: T)
    ensures
        final(items)@ == upsert(old(items)@, item),
{
    match position_by_name(items.as_slice(), item.name_str()) {
        Some(p) => {
            proof {
                lemma_pos_of(items@, item.name_view());
            }
            items.set(p, item);
        },
        None => {
            items.push(item);
        },
    }
}

/// Upserts each record of `imported`, in order.
pub fn merge_by_name<T: Named>(items: &mut Vec<T>, imported: Vec<T>)
    ensures
        final(items)@ == merge(old(items)@, imported@),
{
    let ghost start = items@;
    let ghost all = imported@;
    let mut rest = imported;
    let n = rest.len();
    let mut k: usize = 0;
    assert(all.take(0) =~= Seq::<T>::empty());
    assert(all.skip(0) =~= all);
    while k < n
        invariant
            n == all.len(),
            k <= n,
            rest@ == all.skip(k as int),
            items@ == merge(start, all.take(k as int)),
        decreases n - k,
    {
        let x = rest.remove(0);
        assert(x == all[k as int]);
        assert(all.take(k + 1).drop_last() =~= all.take(k as int));
        assert(rest@ =~= all.skip(k + 1));
        upsert_by_name(items, x);
        k = k + 1;
    }
    assert(all.take(n as int) =~= all);
}

/// Upserting keeps the name found at every index, or appends one record.
pub proof fn lemma_upsert_names<T: Named>(s: Seq<T>, x: T)
    ensures
        upsert(s, x).len() == s.len() || upsert(s, x).len() == s.len() + 1,
        forall|i: int| 0 <= i < s.len() ==> #[trigger] upsert(s, x)[i].name_view() == s[i].name_view(),
        upsert(s, x).len() == s.len() + 1 ==> upsert(s, x).last() == x && !has_name(s, x.name_view()),
        upsert(s, x).len() == s.len() ==> has_name(s, x.name_view()),
{
    lemma_pos_of(s, x.name_view());
}

/// Upserting `x` makes `x` the record found under its name.
pub proof fn lemma_upsert_finds<T: Named>(s: Seq<T>, x: T)
    ensures
        pos_of(upsert(s, x), x.name_view()) >= 0,
        upsert(s, x)[pos_of(upsert(s, x), x.name_view())] == x,
{
    let n = x.name_view();
    lemma_pos_of(s, n);
    let u = upsert(s, x);
    let p = pos_of(s, n);
    if p >= 0 {
        assert forall|j: int| 0 <= j < p implies #[trigger] u[j].name_view() != n by {
            assert(u[j] == s[j]);
        }
        lemma_pos_of_unique(u, n, p);
    } else {
        assert forall|j: int| 0 <= j < s.len() implies #[trigger] u[j].name_view() != n by {
            assert(u[j] == s[j]);
        }
        lemma_pos_of_unique(u, n, s.len() as int);
    }
}

/// Upserting `x` leaves every other name where it was found, with the same record.
pub proof fn lemma_upsert_keeps_others<T: Named>(s: Seq<T>, x: T, n: Seq<char>)
    requires
        n != x.name_view(),
    ensures
        pos_of(upsert(s, x), n) == pos_of(s, n),
        pos_of(s, n) >= 0 ==> upsert(s, x)[pos_of(s, n)] == s[pos_of(s, n)],
{
    lemma_pos_of(s, n);
    lemma_pos_of(s, x.name_view());
    let u = upsert(s, x);
    let q = pos_of(s, n);
    lemma_upsert_names(s, x);
    if q >= 0 {
        assert forall|j: int| 0 <= j < q implies #[trigger] u[j].name_view() != n by {
            assert(u[j].name_view() == s[j].name_view());
        }
        lemma_pos_of_unique(u, n, q);
    } else {
        assert forall|j: int| 0 <= j < u.len() implies #[trigger] u[j].name_view() != n by {
            if j < s.len() {
                assert(u[j].name_view() == s[j].name_view());
            } else {
                assert(u[j] == x);
            }
        }
        lemma_pos_of_unique(u, n, u.len() as int);
    }
}

/// Law: after an import, every imported name is found, and the record found
/// under it is the last imported record of that name.
pub proof fn lemma_merge_finds_last<T: Named>(s: Seq<T>, imported: Seq<T>, n: Seq<char>)
    requires
        last_named(imported, n) is Some,
    ensures
        pos_of(merge(s, imported), n) >= 0,
        merge(s, imported)[pos_of(merge(s, imported), n)] == last_named(imported, n)->0,
    decreases imported.len(),
{
    let init = imported.drop_last();
    let x = imported.last();
    let m = merge(s, init);
    if x.name_view() == n {
        lemma_upsert_finds(m, x);
    } else {
        lemma_merge_finds_last(s, init, n);
        lemma_upsert_keeps_others(m, x, n);
    }
}

/// Law: an import leaves every record whose name it does not hold in place.
pub proof fn lemma_merge_keeps_others<T: Named>(s: Seq<T>, imported: Seq<T>, i: int)
    requires
        0 <= i < s.len(),
        last_named(imported, s[i].name_view()) is None,
    ensures
        merge(s, imported).len() >= s.len(),
        merge(s, imported)[i] == s[i],
    decreases imported.len(),
{
    if imported.len() > 0 {
        let init = imported.drop_last();
        let x = imported.last();
        lemma_merge_keeps_others(s, init, i);
        let m = merge(s, init);
        lemma_upsert_names(m, x);
        lemma_pos_of(m, x.name_view());
        let p = pos_of(m, x.name_view());
        if p == i {
            assert(m[i].name_view() == x.name_view());
        }
    }
}

/// Law: an import keeps the names of an inventory distinct.
pub proof fn lemma_merge_unique<T: Named>(s: Seq<T>, imported: Seq<T>)
    requires
        names_unique(s),
    ensures
        names_unique(merge(s, imported)),
    decreases imported.len(),
{
    if imported.len() > 0 {
        let init = imported.drop_last();
        let x = imported.last();
        lemma_merge_unique(s, init);
        let m = merge(s, init);
        lemma_upsert_names(m, x);
        lemma_pos_of(m, x.name_view());
        let u = upsert(m, x);
        assert forall|i: int, j: int|
            0 <= i < u.len() && 0 <= j < u.len() && i != j implies #[trigger] u[i].name_view()
            != #[trigger] u[j].name_view() by {
            if i < m.len() && j < m.len() {
                assert(u[i].name_view() == m[i].name_view());
                assert(u[j].name_view() == m[j].name_view());
            } else if i < m.len() {
                assert(u[i].name_view() == m[i].name_view());
                assert(m[i].name_view() != x.name_view());
            } else {
                assert(u[j].name_view() == m[j].name_view());
                assert(m[j].name_view() != x.name_view());
            }
        }
    }
}

/// Every record of `s` whose name occurs in `imported`, at the first index of
/// its name, replaced by the last imported record of that name.
pub open spec fn overwrite<T: Named>(s: Seq<T>, imported: Seq<T>) -> Seq<T> {
    Seq::new(
        s.len(),
        |i: int|
            if i == pos_of(s, s[i].name_view()) && last_named(imported, s[i].name_view()) is Some {
                last_named(imported, s[i].name_view())->0
            } else {
                s[i]
            },
    )
}

proof fn lemma_last_named_name<T: Named>(s: Seq<T>, n: Seq<char>)
    ensures
        last_named(s, n) is Some ==> last_named(s, n)->0.name_view() == n,
    decreases s.len(),
{
    if s.len() > 0 && s.last().name_view() != n {
        lemma_last_named_name(s.drop_last(), n);
    }
}

/// Importing into an inventory that already holds every imported name only
/// overwrites records in place.
proof fn lemma_merge_overwrites<T: Named>(s: Seq<T>, imported: Seq<T>)
    requires
        forall|i: int| 0 <= i < imported.len() ==> has_name(s, #[trigger] imported[i].name_view()),
    ensures
        merge(s, imported) == overwrite(s, imported),
    decreases imported.len(),
{
    if imported.len() == 0 {
        assert(overwrite(s, imported) =~= s);
    } else {
        let init = imported.drop_last();
        let x = imported.last();
        assert forall|i: int| 0 <= i < init.len() implies has_name(s, #[trigger] init[i].name_view()) by {
            assert(init[i] == imported[i]);
        }
        lemma_merge_overwrites(s, init);
        let o = overwrite(s, init);
        assert forall|i: int| 0 <= i < s.len() implies #[trigger] o[i].name_view() == s[i].name_view() by {
            lemma_last_named_name(init, s[i].name_view());
        }
        lemma_pos_of_same_names(s, o, x.name_view());
        assert(has_name(s, imported[imported.len() - 1].name_view()));
        lemma_pos_of(s, x.name_view());
        let p = pos_of(s, x.name_view());
        assert(merge(s, imported) == o.update(p, x));
        assert forall|i: int| 0 <= i < s.len() implies #[trigger] o.update(p, x)[i] == overwrite(s, imported)[i] by {
            let k = s[i].name_view();
            if i == p {
                assert(last_named(imported, k) == Some(x));
            } else if k == x.name_view() {
                assert(i != pos_of(s, k));
            } else {
                assert(last_named(imported, k) == last_named(init, k));
            }
        }
        assert(o.update(p, x) =~= overwrite(s, imported));
    }
}

proof fn lemma_merge_has_imported<T: Named>(s: Seq<T>, imported: Seq<T>, i: int)
    requires
        0 <= i < imported.len(),
    ensures
        has_name(merge(s, imported), imported[i].name_view()),
    decreases imported.len(),
{
    let n = imported[i].name_view();
    lemma_last_named_some(imported, i);
    lemma_merge_finds_last(s, imported, n);
    lemma_pos_of(merge(s, imported), n);
}

proof fn lemma_last_named_some<T: Named>(s: Seq<T>, i: int)
    requires
        0 <= i < s.len(),
    ensures
        last_named(s, s[i].name_view()) is Some,
    decreases s.len(),
{
    if s.last().name_view() != s[i].name_view() {
        assert(i < s.len() - 1);
        assert(s.drop_last()[i] == s[i]);
        lemma_last_named_some(s.drop_last(), i);
    }
}

/// In an inventory of distinct names, each record is the first and the last of its name.
proof fn lemma_unique_positions<T: Named>(s: Seq<T>, i: int)
    requires
        names_unique(s),
        0 <= i < s.len(),
    ensures
        pos_of(s, s[i].name_view()) == i,
        last_named(s, s[i].name_view()) == Some(s[i]),
    decreases s.len(),
{
    assert forall|j: int| 0 <= j < i implies #[trigger] s[j].name_view() != s[i].name_view() by {}
    lemma_pos_of_unique(s, s[i].name_view(), i);
    if i < s.len() - 1 {
        let t = s.drop_last();
        assert(t[i] == s[i]);
        assert(s.last().name_view() != s[i].name_view()) by {
            assert(s.last() == s[s.len() - 1]);
        }
        assert forall|a: int, b: int|
            0 <= a < t.len() && 0 <= b < t.len() && a != b implies #[trigger] t[a].name_view()
            != #[trigger] t[b].name_view() by {
            assert(t[a] == s[a] && t[b] == s[b]);
        }
        lemma_unique_positions(t, i);
    }
}

/// Law: importing an inventory of distinct names into itself (re-importing
/// one's own export) changes nothing.
pub proof fn lemma_merge_self<T: Named>(s: Seq<T>)
    requires
        names_unique(s),
    ensures
        merge(s, s) == s,
{
    assert forall|i: int| 0 <= i < s.len() implies has_name(s, #[trigger] s[i].name_view()) by {}
    lemma_merge_overwrites(s, s);
    assert forall|i: int| 0 <= i < s.len() implies #[trigger] overwrite(s, s)[i] == s[i] by {
        lemma_unique_positions(s, i);
    }
    assert(overwrite(s, s) =~= s);
}

/// Law: importing the same records a second time changes nothing.
pub proof fn lemma_merge_idempotent<T: Named>(s: Seq<T>, imported: Seq<T>)
    ensures
        merge(merge(s, imported), imported) == merge(s, imported),
{
    let m = merge(s, imported);
    assert forall|i: int| 0 <= i < imported.len() implies has_name(m, #[trigger] imported[i].name_view()) by {
        lemma_merge_has_imported(s, imported, i);
    }
    lemma_merge_overwrites(m, imported);
    assert forall|i: int| 0 <= i < m.len() implies #[trigger] overwrite(m, imported)[i] == m[i] by {
        let k = m[i].name_view();
        if i == pos_of(m, k) && last_named(imported, k) is Some {
            lemma_merge_finds_last(s, imported, k);
        }
    }
    assert(overwrite(m, imported) =~= m);
}

// ---------------------------------------------------------------------------
// The server inventory
// ---------------------------------------------------------------------------

/// Why an inventory operation was refused.
#[derive(Debug, PartialEq, Eq, Clone, Copy)]
pub enum InventoryError {
    /// No record has the name asked for.
    NotFound,
    /// A record already has the name asked for.
    AlreadyExists,
}

/// The name that a key lookup searches: the given one, or `default`.
pub open spec fn key_query(key_name: Option<&str>) -> Seq<char> {
    match key_name {
        Some(k) => k@,
        None => "default"@,
    }
}

/// The first key named `key_name` (or `default` where none is given), if any.
pub fn resolve_key(keys: &[KeyInfo], key_name: Option<&str>) -> (r: Option<KeyInfo>)
    ensures
        pos_of(keys@, key_query(key_name)) >= 0 ==> r == Some(keys@[pos_of(keys@, key_query(key_name))]),
        pos_of(keys@, key_query(key_name)) < 0 ==> r is None,
{
    let name = match key_name {
        Some(k) => k,
        None => "default",
    };
    match position_by_name(keys, name) {
        Some(p) => {
            proof {
                lemma_pos_of(keys@, name@);
            }
            Some(keys[p].duplicate())
        },
        None => None,
    }
}

/// A copy of the first server named `name`.
pub fn lookup_server(servers: &[Server], name: &str) -> (r: Result<Server, InventoryError>)
    ensures
        pos_of(servers@, name@) >= 0 ==> r == Ok::<Server, InventoryError>(
            servers@[pos_of(servers@, name@)],
        ),
        pos_of(servers@, name@) < 0 ==> r == Err::<Server, InventoryError>(InventoryError::NotFound),
{
    match position_by_name(servers, name) {
        Some(p) => {
            proof {
                lemma_pos_of(servers@, name@);
            }
            Ok(servers[p].duplicate())
        },
        None => Err(InventoryError::NotFound),
    }
}

/// A copy of the first key named `name`.
pub fn lookup_key(keys: &[KeyInfo], name: &str) -> (r: Result<KeyInfo, InventoryError>)
    ensures
        pos_of(keys@, name@) >= 0 ==> r == Ok::<KeyInfo, InventoryError>(keys@[pos_of(keys@, name@)]),
        pos_of(keys@, name@) < 0 ==> r == Err::<KeyInfo, InventoryError>(InventoryError::NotFound),
{
    match position_by_name(keys, name) {
        Some(p) => {
            proof {
                lemma_pos_of(keys@, name@);
            }
            Ok(keys[p].duplicate())
        },
        None => Err(InventoryError::NotFound),
    }
}

/// Whether some record is named `name`.
pub fn name_taken<T: Named>(items: &[T], name: &str) -> (b: bool)
    ensures
        b == has_name(items@, name@),
{
    let r = position_by_name(items, name);
    proof {
        lemma_pos_of(items@, name@);
    }
    r.is_some()
}

/// Adds `server`, unless a server of that name is registered already.
pub fn register_server(servers: &mut Vec<Server>, server: Server) -> (r: Result<(), InventoryError>)
    ensures
        has_name(old(servers)@, server.name@) ==> r == Err::<(), InventoryError>(
            InventoryError::AlreadyExists,
        ) && final(servers)@ == old(servers)@,
        !has_name(old(servers)@, server.name@) ==> r is Ok && final(servers)@ == old(servers)@.push(
            server,
        ),
{
    if name_taken(servers.as_slice(), server.name.as_str()) {
        return Err(InventoryError::AlreadyExists);
    }
    servers.push(server);
    Ok(())
}

/// `after` is `before` without the first record named `name`.
pub open spec fn is_removal<T: Named>(before: Seq<T>, after: Seq<T>, name: Seq<char>) -> bool {
    pos_of(before, name) >= 0 && after == before.remove(pos_of(before, name))
}

/// Removes the first server named `name` and returns it.
pub fn remove_server_entry(servers: &mut Vec<Server>, name: &str) -> (r: Result<Server, InventoryError>)
    ensures
        pos_of(old(servers)@, name@) >= 0 ==> r == Ok::<Server, InventoryError>(
            old(servers)@[pos_of(old(servers)@, name@)],
        ) && is_removal(old(servers)@, final(servers)@, name@),
        pos_of(old(servers)@, name@) < 0 ==> r == Err::<Server, InventoryError>(
            InventoryError::NotFound,
        ) && final(servers)@ == old(servers)@,
{
    match position_by_name(servers.as_slice(), name) {
        Some(p) => {
            proof {
                lemma_pos_of(servers@, name@);
            }
            Ok(servers.remove(p))
        },
        None => Err(InventoryError::NotFound),
    }
}

/// Removes the first key named `name` and returns it.
pub fn remove_key_entry(keys: &mut Vec<KeyInfo>, name: &str) -> (r: Result<KeyInfo, InventoryError>)
    ensures
        pos_of(old(keys)@, name@) >= 0 ==> r == Ok::<KeyInfo, InventoryError>(
            old(keys)@[pos_of(old(keys)@, name@)],
        ) && is_removal(old(keys)@, final(keys)@, name@),
        pos_of(old(keys)@, name@) < 0 ==> r == Err::<KeyInfo, InventoryError>(
            InventoryError::NotFound,
        ) && final(keys)@ == old(keys)@,
{
    match position_by_name(keys.as_slice(), name) {
        Some(p) => {
            proof {
                lemma_pos_of(keys@, name@);
            }
            Ok(keys.remove(p))
        },
        None => Err(InventoryError::NotFound),
    }
}

/// `after` is `before` with the first server named `old_name` renamed to
/// `new_name`, every other field and every other server unchanged.
pub open spec fn is_rename(
    before: Seq<Server>,
    after: Seq<Server>,
    old_name: Seq<char>,
    new_name: Seq<char>,
) -> bool {
    let p = pos_of(before, old_name);
    &&& p >= 0
    &&& after.len() == before.len()
    &&& forall|i: int| 0 <= i < before.len() && i != p ==> #[trigger] after[i] == before[i]
    &&& after[p].name@ == new_name
    &&& after[p] == Server { name: after[p].name, ..before[p] }
}

/// Renames the first server named `old_name` to `new_name`, unless a server
/// is named `new_name` already.
pub fn rename_server_entry(servers: &mut Vec<Server>, old_name: &str, new_name: &str) -> (r: Result<(), InventoryError>)
    ensures
        has_name(old(servers)@, new_name@) ==> r == Err::<(), InventoryError>(
            InventoryError::AlreadyExists,
        ) && final(servers)@ == old(servers)@,
        !has_name(old(servers)@, new_name@) && pos_of(old(servers)@, old_name@) < 0 ==> r == Err::<
            (),
            InventoryError,
        >(InventoryError::NotFound) && final(servers)@ == old(servers)@,
        !has_name(old(servers)@, new_name@) && pos_of(old(servers)@, old_name@) >= 0 ==> r is Ok
            && is_rename(old(servers)@, final(servers)@, old_name@, new_name@),
{
    if name_taken(servers.as_slice(), new_name) {
        return Err(InventoryError::AlreadyExists);
    }
    match position_by_name(servers.as_slice(), old_name) {
        Some(p) => {
            proof {
                lemma_pos_of(servers@, old_name@);
            }
            let mut s = servers[p].duplicate();
            s.name = crate::text::owned(new_name);
            servers.set(p, s);
            Ok(())
        },
        None => Err(InventoryError::NotFound),
    }
}

/// Records `timestamp` as the last connection to the first server named
/// `name`, and returns that server as updated.
pub fn mark_connected(servers: &mut Vec<Server>, name: &str, timestamp: String) -> (r: Result<Server, InventoryError>)
    ensures
        pos_of(old(servers)@, name@) < 0 ==> r == Err::<Server, InventoryError>(
            InventoryError::NotFound,
        ) && final(servers)@ == old(servers)@,
        pos_of(old(servers)@, name@) >= 0 ==> {
            let p = pos_of(old(servers)@, name@);
            let updated = Server { last_connected: Some(timestamp), ..old(servers)@[p] };
            &&& r == Ok::<Server, InventoryError>(updated)
            &&& final(servers)@ == old(servers)@.update(p, updated)
        },
{
    match position_by_name(servers.as_slice(), name) {
        Some(p) => {
            proof {
                lemma_pos_of(servers@, name@);
            }
            let mut s = servers[p].duplicate();
            s.last_connected = Some(timestamp);
            let copy = s.duplicate();
            servers.set(p, s);
            Ok(copy)
        },
        None => Err(InventoryError::NotFound),
    }
}

/// Makes the server at `index` use the key named `key_name`.
pub fn assign_key(servers: &mut Vec<Server>, index: usize, key_name: String)
    requires
        index < old(servers)@.len(),
    ensures
        final(servers)@ == old(servers)@.update(
            index as int,
            Server { key_name: Some(key_name), ..old(servers)@[index as int] },
        ),
{
    let mut s = servers[index].duplicate();
    s.key_name = Some(key_name);
    servers.set(index, s);
}

/// Adds a key to the inventory under `name`, of type `Ed25519`, stored at `path`.
pub fn register_key(keys: &mut Vec<KeyInfo>, name: &str, path: &str)
    ensures
        final(keys)@.len() == old(keys)@.len() + 1,
        final(keys)@.drop_last() == old(keys)@,
        final(keys)@.last().name@ == name@,
        final(keys)@.last().key_type@ == "Ed25519"@,
        final(keys)@.last().path@ == path@,
{
    let k = KeyInfo {
        name: crate::text::owned(name),
        key_type: crate::text::owned("Ed25519"),
        path: crate::text::owned(path),
    };
    keys.push(k);
    assert(keys@.drop_last() =~= old(keys)@);
}

// ---------------------------------------------------------------------------
// Which servers use which key
// ---------------------------------------------------------------------------

/// The server uses the key named `key_name`.
pub open spec fn uses_key(s: Server, key_name: Seq<char>) -> bool {
    s.key_name matches Some(k) && k@ == key_name
}

/// The number of servers among `s` that use the key named `key_name`.
pub open spec fn count_users(s: Seq<Server>, key_name: Seq<char>) -> nat
    decreases s.len(),
{
    if s.len() == 0 {
        0
    } else {
        count_users(s.drop_last(), key_name) + if uses_key(s.last(), key_name) {
            1nat
        } else {
            0nat
        }
    }
}

fn opt_str_is(o: &Option<String>, name: &str) -> (b: bool)
    ensures
        b == (o matches Some(k) && k@ == name@),
{
    match o {
        Some(k) => str_eq(k.as_str(), name),
        None => false,
    }
}

/// How many servers use the key named `key_name`.
pub fn count_servers_using(servers: &[Server], key_name: &str) -> (c: usize)
    ensures
        c == count_users(servers@, key_name@),
{
    let n = servers.len();
    let mut c: usize = 0;
    for i in 0..n
        invariant
            n == servers@.len(),
            c == count_users(servers@.take(i as int), key_name@),
            c <= i,
    {
        assert(servers@.take(i + 1).drop_last() =~= servers@.take(i as int));
        if opt_str_is(&servers[i].key_name, key_name) {
            c = c + 1;
        }
    }
    assert(servers@.take(n as int) =~= servers@);
    c
}

/// Whether some server uses the key named `key_name`.
pub fn key_in_use(servers: &[Server], key_name: &str) -> (b: bool)
    ensures
        b == exists|i: int| 0 <= i < servers@.len() && uses_key(#[trigger] servers@[i], key_name@),
{
    let n = servers.len();
    for i in 0..n
        invariant
            n == servers@.len(),
            forall|j: int| 0 <= j < i ==> !uses_key(#[trigger] servers@[j], key_name@),
    {
        if opt_str_is(&servers[i].key_name, key_name) {
            return true;
        }
    }
    false
}

/// The names of the servers of `s` that have a key assigned, in inventory order.
pub open spec fn keyed_names(s: Seq<Server>) -> Seq<Seq<char>>
    decreases s.len(),
{
    if s.len() == 0 {
        Seq::empty()
    } else if s.last().key_name is Some {
        keyed_names(s.drop_last()).push(s.last().name@)
    } else {
        keyed_names(s.drop_last())
    }
}

/// The names of the servers that have a key assigned, in inventory order:
/// the servers that a synchronisation installs keys on.
pub fn servers_to_sync(servers: &[Server]) -> (r: Vec<String>)
    ensures
        r.deep_view() == keyed_names(servers@),
{
    let n = servers.len();
    let mut r: Vec<String> = Vec::new();
    assert(r.deep_view() =~= Seq::<Seq<char>>::empty());
    for i in 0..n
        invariant
            n == servers@.len(),
            r.deep_view() == keyed_names(servers@.take(i as int)),
    {
        let ghost before = r.deep_view();
        let ghost old_r = r@;
        assert(servers@.take(i + 1).drop_last() =~= servers@.take(i as int));
        if servers[i].key_name.is_some() {
            r.push(servers[i].name.clone());
            assert(r.deep_view() =~= before.push(servers@[i as int].name@)) by {
                assert forall|k: int| 0 <= k < r@.len() implies r.deep_view()[k] == before.push(
                    servers@[i as int].name@,
                )[k] by {
                    if k < old_r.len() {
                        assert(r@[k] == old_r[k]);
                    }
                }
            }
        }
    }
    assert(servers@.take(n as int) =~= servers@);
    r
}

// ---------------------------------------------------------------------------
// Laws of the inventory operations
// ---------------------------------------------------------------------------

/// Law: a record registered under a free name is found under that name, and
/// the names stay distinct.
pub proof fn lemma_register_finds<T: Named>(s: Seq<T>, x: T)
    requires
        !has_name(s, x.name_view()),
    ensures
        pos_of(s.push(x), x.name_view()) == s.len(),
        names_unique(s) ==> names_unique(s.push(x)),
{
    let t = s.push(x);
    assert forall|j: int| 0 <= j < s.len() implies #[trigger] t[j].name_view() != x.name_view() by {
        assert(t[j] == s[j]);
    }
    lemma_pos_of_unique(t, x.name_view(), s.len() as int);
    assert forall|i: int, j: int|
        names_unique(s) && 0 <= i < t.len() && 0 <= j < t.len() && i != j implies #[trigger] t[i].name_view()
        != #[trigger] t[j].name_view() by {
        if i < s.len() && j < s.len() {
            assert(t[i] == s[i] && t[j] == s[j]);
        } else if i < s.len() {
            assert(t[i] == s[i]);
        } else {
            assert(t[j] == s[j]);
        }
    }
}

/// Law: once a name is removed from an inventory of distinct names, it is no
/// longer found, and the names stay distinct.
pub proof fn lemma_removal_forgets<T: Named>(before: Seq<T>, after: Seq<T>, name: Seq<char>)
    requires
        is_removal(before, after, name),
        names_unique(before),
    ensures
        !has_name(after, name),
        names_unique(after),
{
    lemma_pos_of(before, name);
    let p = pos_of(before, name);
    assert forall|j: int| 0 <= j < after.len() implies #[trigger] after[j].name_view() != name by {
        if j < p {
            assert(after[j] == before[j]);
        } else {
            assert(after[j] == before[j + 1]);
        }
    }
    assert forall|i: int, j: int|
        0 <= i < after.len() && 0 <= j < after.len() && i != j implies #[trigger] after[i].name_view()
        != #[trigger] after[j].name_view() by {
        let bi = if i < p { i } else { i + 1 };
        let bj = if j < p { j } else { j + 1 };
        assert(after[i] == before[bi]);
        assert(after[j] == before[bj]);
    }
}

/// Law: a rename to a free name moves the record found under the old name to
/// the new name, the old name is no longer found, and the names stay distinct.
pub proof fn lemma_rename_moves(
    before: Seq<Server>,
    after: Seq<Server>,
    old_name: Seq<char>,
    new_name: Seq<char>,
)
    requires
        is_rename(before, after, old_name, new_name),
        !has_name(before, new_name),
        names_unique(before),
    ensures
        pos_of(after, new_name) == pos_of(before, old_name),
        !has_name(after, old_name),
        names_unique(after),
        after[pos_of(after, new_name)] == (Server {
            name: after[pos_of(after, new_name)].name,
            ..before[pos_of(before, old_name)]
        }),
{
    lemma_pos_of(before, old_name);
    let p = pos_of(before, old_name);
    assert forall|j: int| 0 <= j < p implies #[trigger] after[j].name_view() != new_name by {
        assert(after[j] == before[j]);
    }
    lemma_pos_of_unique(after, new_name, p);
    assert(old_name != new_name);
    assert forall|j: int| 0 <= j < after.len() implies #[trigger] after[j].name_view() != old_name by {
        if j != p {
            assert(after[j] == before[j]);
        }
    }
    assert forall|i: int, j: int|
        0 <= i < after.len() && 0 <= j < after.len() && i != j implies #[trigger] after[i].name_view()
        != #[trigger] after[j].name_view() by {
        if i != p && j != p {
            assert(after[i] == before[i] && after[j] == before[j]);
        } else if i == p {
            assert(after[j] == before[j]);
        } else {
            assert(after[i] == before[i]);
        }
    }
}

} // verus!
