//! Launch counters. They are persisted to SQLite around the library and
//! mirrored here in memory, so the query path never touches the database.

use crate::config::{join_path, join_paths};
use crate::sorted::{insert_sorted, keys_sorted, pairs_map};
use crate::text::{chars_eq, chars_of};
use vstd::prelude::*;

verus! {

/// Seconds since the Unix epoch, as the system clock tells them (0 when the
/// clock is before the epoch). It depends on the time, so nothing is stated
/// of it.
#[verifier::external_body]
pub fn now_unix() -> i64 {
    std::time::SystemTime::now()
        .duration_since(std::time::UNIX_EPOCH)
        .map(|d| d.as_secs() as i64)
        .unwrap_or(0)
}

/// The user's data directory, as `dirs::data_dir` finds it (from
/// `$XDG_DATA_HOME` or `~/.local/share`), made a string. It depends on the
/// environment, so nothing is stated of it.
#[verifier::external_body]
fn data_dir_base() -> Option<String> {
    dirs::data_dir().map(|d| d.to_string_lossy().into_owned())
}

/// Where the store lives for the data directory `base` (`/tmp` without one).
pub open spec fn data_dir_spec(base: Option<Seq<char>>) -> Seq<char> {
    match base {
        Some(b) => join_path(b, "omarchycast"@),
        None => join_path("/tmp"@, "omarchycast"@),
    }
}

pub fn data_dir() -> (r: String)
    ensures
        exists|base: Option<Seq<char>>| r@ == data_dir_spec(base),
{
    let base = data_dir_base();
    let ghost b = crate::text::opt_view(base);
    let r = match base {
        Some(b) => join_paths(b.as_str(), "omarchycast"),
        None => join_paths("/tmp", "omarchycast"),
    };
    assert(r@ == data_dir_spec(b));
    r
}

/// How often, and when last, something was launched.
#[derive(Clone, Copy, Debug)]
pub struct Usage {
    pub launches: u32,
    pub last_used: i64,
}

impl Default for Usage {
    fn default() -> (r: Self)
        ensures
            r.launches == 0,
            r.last_used == 0,
    {
        Usage { launches: 0, last_used: 0 }
    }
}

/// Usage by key; a key never launched has no usage yet.
pub open spec fn usage_of(m: Map<Seq<char>, Usage>, key: Seq<char>) -> Usage {
    if m.contains_key(key) {
        m[key]
    } else {
        Usage { launches: 0, last_used: 0 }
    }
}

/// One more launch of `key` at `now`. The count stops at `u32::MAX`.
pub open spec fn launched(m: Map<Seq<char>, Usage>, key: Seq<char>, now: i64) -> Map<Seq<char>, Usage> {
    let u = usage_of(m, key);
    m.insert(
        key,
        Usage {
            launches: if u.launches < u32::MAX { (u.launches + 1) as u32 } else { u32::MAX },
            last_used: now,
        },
    )
}

/// The in-memory launch counters.
pub struct UsageCache {
    entries: Vec<(String, Usage)>,
}

impl UsageCache {
    pub closed spec fn map(&self) -> Map<Seq<char>, Usage> {
        pairs_map(self.entries@.map_values(|p: (String, Usage)| (p.0@, p.1)))
    }

    pub closed spec fn well_formed(&self) -> bool {
        keys_sorted(self.entries@.map_values(|p: (String, Usage)| (p.0@, p.1)))
    }

    /// The counters read back from the database, a later row for a key
    /// overriding an earlier one.
    pub fn from_rows(rows: Vec<(String, Usage)>) -> (r: Self)
        ensures
            r.well_formed(),
            r.map() == pairs_map(rows@.map_values(|p: (String, Usage)| (p.0@, p.1))),
    {
        let ghost all = rows@.map_values(|p: (String, Usage)| (p.0@, p.1));
        let total = rows.len();
        let mut rows = rows;
        let mut entries: Vec<(String, Usage)> = Vec::new();
        let mut k: usize = 0;
        assert(entries@.map_values(|p: (String, Usage)| (p.0@, p.1)) =~= Seq::<(Seq<char>, Usage)>::empty());
        assert(all.take(0) =~= Seq::<(Seq<char>, Usage)>::empty());
        while rows.len() > 0
            invariant
                k + rows@.len() == all.len(),
                all.len() == total,
                rows@.map_values(|p: (String, Usage)| (p.0@, p.1)) == all.skip(k as int),
                keys_sorted(entries@.map_values(|p: (String, Usage)| (p.0@, p.1))),
                pairs_map(entries@.map_values(|p: (String, Usage)| (p.0@, p.1))) == pairs_map(all.take(k as int)),
            decreases rows.len(),
        {
            let ghost cur = rows@;
            let (key, usage) = rows.remove(0);
            assert(cur.map_values(|p: (String, Usage)| (p.0@, p.1))[0] == (key@, usage));
            assert(all.skip(k as int)[0] == all[k as int]);
            assert(all.take(k + 1).drop_last() =~= all.take(k as int));
            assert(all.take(k + 1).last() == (key@, usage));
            insert_sorted(&mut entries, key, usage);
            assert(rows@ =~= cur.drop_first());
            assert(cur.drop_first().map_values(|p: (String, Usage)| (p.0@, p.1)) =~= cur.map_values(
                |p: (String, Usage)| (p.0@, p.1),
            ).drop_first());
            assert(all.skip(k as int).drop_first() =~= all.skip(k + 1));
            assert(rows@.map_values(|p: (String, Usage)| (p.0@, p.1)) =~= all.skip(k + 1));
            k += 1;
        }
        assert(all.take(k as int) =~= all);
        UsageCache { entries }
    }

    /// In-memory read used on every keystroke.
    pub fn usage(&self, key: &str) -> (u: Usage)
        ensures
            u == usage_of(self.map(), key@),
    {
        let ghost pv = self.entries@.map_values(|p: (String, Usage)| (p.0@, p.1));
        let k = chars_of(key);
        let mut i = self.entries.len();
        assert(pv.take(i as int) =~= pv);
        while i > 0
            invariant
                i <= self.entries.len(),
                pv == self.entries@.map_values(|p: (String, Usage)| (p.0@, p.1)),
                k@ == key@,
                pairs_map(pv).contains_key(key@) == pairs_map(pv.take(i as int)).contains_key(key@),
                pairs_map(pv).contains_key(key@) ==> pairs_map(pv)[key@] == pairs_map(pv.take(i as int))[key@],
            decreases i,
        {
            assert(pv.take(i as int).drop_last() =~= pv.take(i - 1));
            assert(pv.take(i as int).last() == pv[i - 1]);
            let name = chars_of(self.entries[i - 1].0.as_str());
            if chars_eq(&name, &k) {
                return self.entries[i - 1].1;
            }
            i -= 1;
        }
        assert(pv.take(0) =~= Seq::<(Seq<char>, Usage)>::empty());
        Usage { launches: 0, last_used: 0 }
    }

    /// Counts a launch of `key` at `now`.
    pub fn record(&mut self, key: &str, now: i64)
        requires
            old(self).well_formed(),
        ensures
            final(self).well_formed(),
            final(self).map() == launched(old(self).map(), key@, now),
    {
        let u = self.usage(key);
        let launches = if u.launches < u32::MAX {
            u.launches + 1
        } else {
            u32::MAX
        };
        insert_sorted(&mut self.entries, crate::text::copy_str(key), Usage { launches, last_used: now });
    }

    pub fn new() -> (r: Self)
        ensures
            r.well_formed(),
            r.map() == Map::<Seq<char>, Usage>::empty(),
    {
        let r = UsageCache { entries: Vec::new() };
        assert(r.entries@.map_values(|p: (String, Usage)| (p.0@, p.1)) =~= Seq::<(Seq<char>, Usage)>::empty());
        r
    }
}

/// A launch is counted: right after it, the key's usage is one more launch
/// than before, last used at that time, and no other key's usage changes.
pub proof fn lemma_launch_is_counted(m: Map<Seq<char>, Usage>, key: Seq<char>, other: Seq<char>, now: i64)
    ensures
        usage_of(launched(m, key, now), key).launches == (if usage_of(m, key).launches < u32::MAX {
            usage_of(m, key).launches + 1
        } else {
            u32::MAX as int
        }),
        usage_of(launched(m, key, now), key).last_used == now,
        other != key ==> usage_of(launched(m, key, now), other) == usage_of(m, other),
{
}

} // verus!
