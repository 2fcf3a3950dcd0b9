//! Caches kept in the settings database: the tab runtime cache, whose
//! entries expire and are evicted to a byte budget, and the schema cache.

use vstd::prelude::*;
use crate::text::{chars_lt, chars_of, lemma_seq_lt_transitive, seq_lt, string_of, string_views, strings_contain};

verus! {

/// A cached result of a tab.
#[derive(Debug, Clone, PartialEq, Eq)]
pub struct TabRuntimeCacheEntry {
    pub key: String,
    pub payload: Vec<u8>,
    pub row_count: i64,
    pub column_count: i64,
    pub byte_size: i64,
    pub updated_at: String,
    pub created_at: i64,
    pub last_accessed_at: i64,
    pub owner_id: Option<String>,
}

/// A cached result of a tab, without its payload.
#[derive(Debug, Clone, PartialEq, Eq)]
pub struct TabRuntimeCacheMetadata {
    pub key: String,
    pub row_count: i64,
    pub column_count: i64,
    pub byte_size: i64,
    pub updated_at: String,
    pub created_at: i64,
    pub last_accessed_at: i64,
    pub owner_id: Option<String>,
}

/// What a prune of the tab runtime cache removed and left.
#[derive(Debug, Clone, PartialEq, Eq)]
pub struct TabRuntimeCachePruneResult {
    pub deleted_entries: usize,
    pub deleted_bytes: i64,
    pub orphan_deletions: usize,
    pub remaining_entries: usize,
    pub remaining_bytes: i64,
}

/// A cache entry as the prune reads it: key, byte size, creation time and
/// last access time (milliseconds).
pub type EntryView = (Seq<char>, i64, i64, i64);

pub open spec fn entry_views(v: Seq<(String, i64, i64, i64)>) -> Seq<EntryView> {
    v.map_values(|e: (String, i64, i64, i64)| (e.0@, e.1, e.2, e.3))
}

/// `a - b`, saturated to the `i64` range.
pub open spec fn sat_sub(a: i64, b: i64) -> i64 {
    if a - b > i64::MAX {
        i64::MAX
    } else if a - b < i64::MIN {
        i64::MIN
    } else {
        (a - b) as i64
    }
}

/// A limit, with negative limits read as zero.
pub open spec fn at_least_zero(x: i64) -> i64 {
    if x < 0 {
        0
    } else {
        x
    }
}

/// An entry no tab claims any more is deleted once older than the grace.
pub open spec fn orphan_expired(now: i64, e: EntryView, grace: i64) -> bool {
    sat_sub(now, e.2) >= at_least_zero(grace)
}

/// With a maximum age, an entry not read for that long is deleted.
pub open spec fn age_expired(now: i64, e: EntryView, max_age: Option<i64>) -> bool {
    max_age matches Some(m) && sat_sub(now, e.3) >= at_least_zero(m)
}

/// The prune's running state: keys deleted, bytes left, orphans deleted.
pub struct PruneState {
    pub deleted: Set<Seq<char>>,
    pub total: i64,
    pub orphans: nat,
}

/// The expiry pass over entries, oldest access first: entries of live tabs
/// stay; others go when expired.
pub open spec fn expiry_pass(rest: Seq<EntryView>, live: Seq<Seq<char>>, now: i64, grace: i64, max_age: Option<i64>, s: PruneState) -> PruneState
    decreases rest.len(),
{
    if rest.len() == 0 {
        s
    } else {
        let e = rest[0];
        let next = if live.contains(e.0) {
            s
        } else if orphan_expired(now, e, grace) || age_expired(now, e, max_age) {
            PruneState {
                deleted: s.deleted.insert(e.0),
                total: sat_sub(s.total, e.1),
                orphans: s.orphans + if orphan_expired(now, e, grace) {
                    1nat
                } else {
                    0nat
                },
            }
        } else {
            s
        };
        expiry_pass(rest.drop_first(), live, now, grace, max_age, next)
    }
}

/// The budget pass, oldest access first: while the bytes exceed the limit,
/// entries of tabs no longer live and not yet deleted are evicted.
pub open spec fn budget_pass(rest: Seq<EntryView>, live: Seq<Seq<char>>, limit: i64, s: PruneState) -> PruneState
    decreases rest.len(),
{
    if rest.len() == 0 || s.total <= limit {
        s
    } else {
        let e = rest[0];
        let next = if live.contains(e.0) || s.deleted.contains(e.0) {
            s
        } else {
            PruneState { deleted: s.deleted.insert(e.0), total: sat_sub(s.total, e.1), orphans: s.orphans }
        };
        budget_pass(rest.drop_first(), live, limit, next)
    }
}

/// The bytes of all entries.
pub open spec fn total_bytes(es: Seq<EntryView>) -> int
    decreases es.len(),
{
    if es.len() == 0 {
        0
    } else {
        total_bytes(es.drop_last()) + es.last().1
    }
}

/// The bytes of the entries whose key is in `keys`.
pub open spec fn bytes_of_keys(es: Seq<EntryView>, keys: Set<Seq<char>>) -> int
    decreases es.len(),
{
    if es.len() == 0 {
        0
    } else {
        bytes_of_keys(es.drop_last(), keys) + if keys.contains(es.last().0) {
            es.last().1
        } else {
            0
        }
    }
}

/// The absolute byte sizes added up.
pub open spec fn abs_bytes(es: Seq<EntryView>) -> int
    decreases es.len(),
{
    if es.len() == 0 {
        0
    } else {
        abs_bytes(es.drop_last()) + if es.last().1 < 0 {
            -es.last().1
        } else {
            es.last().1 as int
        }
    }
}

/// The outcome of a prune: the state after both passes.
pub open spec fn prune_outcome(
    es: Seq<EntryView>,
    live: Seq<Seq<char>>,
    max_bytes: i64,
    grace: i64,
    max_age: Option<i64>,
    now: i64,
) -> PruneState {
    let start = PruneState { deleted: Set::empty(), total: total_bytes(es) as i64, orphans: 0 };
    let expired = expiry_pass(es, live, now, grace, max_age, start);
    budget_pass(es, live, at_least_zero(max_bytes), expired)
}

fn sat_sub_exec(a: i64, b: i64) -> (r: i64)
    ensures
        r == sat_sub(a, b),
{
    let d = a as i128 - b as i128;
    if d > i64::MAX as i128 {
        i64::MAX
    } else if d < i64::MIN as i128 {
        i64::MIN
    } else {
        d as i64
    }
}

proof fn lemma_abs_prefix(es: Seq<EntryView>, i: int)
    requires
        0 <= i <= es.len(),
    ensures
        abs_bytes(es.take(i)) <= abs_bytes(es),
        -abs_bytes(es.take(i)) <= total_bytes(es.take(i)) <= abs_bytes(es.take(i)),
    decreases es.len() - i,
{
    if i < es.len() {
        lemma_abs_prefix(es, i + 1);
        assert(es.take(i + 1).drop_last() =~= es.take(i));
    } else {
        assert(es.take(i) =~= es);
    }
    lemma_total_abs(es.take(i));
}

proof fn lemma_total_abs(es: Seq<EntryView>)
    ensures
        -abs_bytes(es) <= total_bytes(es) <= abs_bytes(es),
        0 <= abs_bytes(es),
    decreases es.len(),
{
    if es.len() > 0 {
        lemma_total_abs(es.drop_last());
    }
}

proof fn lemma_keys_bytes_abs(es: Seq<EntryView>, keys: Set<Seq<char>>)
    ensures
        -abs_bytes(es) <= bytes_of_keys(es, keys) <= abs_bytes(es),
    decreases es.len(),
{
    if es.len() > 0 {
        lemma_keys_bytes_abs(es.drop_last(), keys);
    }
}

proof fn lemma_push_to_set(s: Seq<Seq<char>>, x: Seq<char>)
    ensures
        s.push(x).to_set() == s.to_set().insert(x),
{
    assert forall|y: Seq<char>| s.push(x).to_set().contains(y) <==> s.to_set().insert(x).contains(y) by {
        if s.push(x).to_set().contains(y) {
            let k = choose|k: int| 0 <= k < s.push(x).len() && s.push(x)[k] == y;
            if k < s.len() {
                assert(s[k] == y);
            }
        }
        if s.to_set().contains(y) {
            let k = choose|k: int| 0 <= k < s.len() && s[k] == y;
            assert(s.push(x)[k] == y);
        }
        if y == x {
            assert(s.push(x)[s.len() as int] == y);
        }
    }
    assert(s.push(x).to_set() =~= s.to_set().insert(x));
}

fn keys_contain(v: &Vec<String>, k: &String) -> (r: bool)
    ensures
        r == string_views(v@).contains(k@),
{
    strings_contain(v.as_slice(), k)
}

/// Entries in the order in which a prune evicts them: by last access, then
/// by key, each strictly after the one before (so no (access time, key)
/// pair occurs twice; one key may still come with two access times).
pub open spec fn eviction_ordered(es: Seq<EntryView>) -> bool {
    forall|i: int, j: int|
        0 <= i < j < es.len() ==> (#[trigger] es[i]).3 < (#[trigger] es[j]).3 || (es[i].3 == es[j].3 && seq_lt(
            es[i].0,
            es[j].0,
        ))
}

/// Whether entries `(key, byte size, created, last accessed)` come in
/// eviction order, as the cache query that feeds a prune returns them.
pub fn entries_in_eviction_order(entries: &Vec<(String, i64, i64, i64)>) -> (r: bool)
    ensures
        r == eviction_ordered(entry_views(entries@)),
{
    let ghost es = entry_views(entries@);
    if entries.len() == 0 {
        return true;
    }
    let mut i: usize = 1;
    while i < entries.len()
        invariant
            1 <= i <= entries.len(),
            es == entry_views(entries@),
            eviction_ordered(es.take(i as int)),
        decreases entries.len() - i,
    {
        let a = &entries[i - 1];
        let b = &entries[i];
        let ka = chars_of(a.0.as_str());
        let kb = chars_of(b.0.as_str());
        let step = a.3 < b.3 || (a.3 == b.3 && chars_lt(ka.as_slice(), kb.as_slice()));
        assert(es[i - 1] == (a.0@, a.1, a.2, a.3) && es[i as int] == (b.0@, b.1, b.2, b.3));
        if !step {
            assert(!eviction_ordered(es)) by {
                assert(es[i - 1].3 >= es[i as int].3);
            }
            return false;
        }
        proof {
            let t = es.take(i + 1);
            assert forall|x: int, y: int| 0 <= x < y < t.len() implies (#[trigger] t[x]).3 < (#[trigger] t[y]).3 || (t[x].3
                == t[y].3 && seq_lt(t[x].0, t[y].0)) by {
                assert(t[x] == es[x] && t[y] == es[y]);
                if y < i {
                    assert(es.take(i as int)[x] == es[x] && es.take(i as int)[y] == es[y]);
                } else if x < i - 1 {
                    assert(es.take(i as int)[x] == es[x] && es.take(i as int)[i - 1] == es[i - 1]);
                    if es[x].3 == es[i - 1].3 && es[i - 1].3 == es[y].3 {
                        lemma_seq_lt_transitive(es[x].0, es[i - 1].0, es[y].0);
                    }
                }
            }
        }
        i = i + 1;
    }
    assert(es.take(entries.len() as int) =~= es);
    true
}

/// Decides a prune of the tab runtime cache. `entries` are read oldest
/// access first. Entries of live tabs are never removed; an entry of a tab
/// that is gone is removed once older than the orphan grace, or, with a
/// maximum age, once unread for that long; then, while the cache exceeds
/// `max_bytes`, the least recently read remaining entries are evicted.
/// Returns the keys to delete and the prune's summary.
pub fn plan_tab_runtime_cache_prune(
    entries: &Vec<(String, i64, i64, i64)>,
    live_keys: &Vec<String>,
    max_bytes: i64,
    orphan_grace_ms: i64,
    max_age_ms: Option<i64>,
    now: i64,
) -> (r: (Vec<String>, TabRuntimeCachePruneResult))
    requires
        abs_bytes(entry_views(entries@)) <= i64::MAX,
        eviction_ordered(entry_views(entries@)),
    ensures
        ({
            let es = entry_views(entries@);
            let out = prune_outcome(es, string_views(live_keys@), max_bytes, orphan_grace_ms, max_age_ms, now);
            &&& string_views(r.0@).no_duplicates()
            &&& string_views(r.0@).to_set() == out.deleted
            &&& r.1.deleted_entries == out.deleted.len()
            &&& r.1.deleted_bytes == bytes_of_keys(es, out.deleted)
            &&& r.1.orphan_deletions == out.orphans
            &&& r.1.remaining_entries == if entries@.len() >= out.deleted.len() {
                (entries@.len() - out.deleted.len()) as nat
            } else {
                0
            }
            &&& r.1.remaining_bytes == out.total
        }),
{
    let ghost es = entry_views(entries@);
    let ghost live = string_views(live_keys@);
    let n = entries.len();
    let mut total: i64 = 0;
    let mut i: usize = 0;
    assert(es.take(0) =~= Seq::<EntryView>::empty());
    while i < n
        invariant
            n == entries@.len(),
            es == entry_views(entries@),
            abs_bytes(es) <= i64::MAX,
            i <= n,
            total == total_bytes(es.take(i as int)),
        decreases n - i,
    {
        proof {
            lemma_abs_prefix(es, i + 1);
            assert(es.take(i + 1).drop_last() =~= es.take(i as int));
        }
        total = total + entries[i].1;
        i = i + 1;
    }
    assert(es.take(n as int) =~= es);
    let ghost start = PruneState { deleted: Set::empty(), total: total_bytes(es) as i64, orphans: 0 };
    let ghost expired = expiry_pass(es, live, now, orphan_grace_ms, max_age_ms, start);
    let grace = if orphan_grace_ms < 0 {
        0
    } else {
        orphan_grace_ms
    };
    let mut deleted: Vec<String> = Vec::new();
    let mut orphans: usize = 0;
    let mut i: usize = 0;
    assert(es.subrange(0, n as int) =~= es);
    assert(string_views(deleted@).to_set() =~= Set::<Seq<char>>::empty());
    assert(string_views(deleted@).no_duplicates());
    while i < n
        invariant
            n == entries@.len(),
            es == entry_views(entries@),
            live == string_views(live_keys@),
            i <= n,
            grace == at_least_zero(orphan_grace_ms),
            orphans <= i,
            string_views(deleted@).no_duplicates(),
            expiry_pass(
                es.subrange(i as int, n as int),
                live,
                now,
                orphan_grace_ms,
                max_age_ms,
                PruneState { deleted: string_views(deleted@).to_set(), total, orphans: orphans as nat },
            ) == expired,
        decreases n - i,
    {
        let ghost rest = es.subrange(i as int, n as int);
        assert(rest[0] == es[i as int]);
        assert(rest.drop_first() =~= es.subrange(i + 1, n as int));
        let key = &entries[i].0;
        if !keys_contain(live_keys, key) {
            let oe = sat_sub_exec(now, entries[i].2) >= grace;
            let ae = match max_age_ms {
                Some(m) => sat_sub_exec(now, entries[i].3) >= if m < 0 {
                    0
                } else {
                    m
                },
                None => false,
            };
            if oe || ae {
                let ghost dv = string_views(deleted@);
                if !keys_contain(&deleted, key) {
                    deleted.push(key.clone());
                    proof {
                        assert(string_views(deleted@) =~= dv.push(key@));
                        lemma_push_to_set(dv, key@);
                        assert forall|a: int, b: int| 0 <= a < b < string_views(deleted@).len() implies string_views(
                            deleted@,
                        )[a] != string_views(deleted@)[b] by {
                            if b == dv.len() {
                                assert(dv[a] == string_views(deleted@)[a]);
                            }
                        }
                    }
                } else {
                    assert(dv.to_set().insert(key@) =~= dv.to_set());
                }
                total = sat_sub_exec(total, entries[i].1);
                if oe {
                    orphans = orphans + 1;
                }
            }
        }
        i = i + 1;
    }
    let ghost after1 = PruneState { deleted: string_views(deleted@).to_set(), total, orphans: orphans as nat };
    assert(es.subrange(n as int, n as int) =~= Seq::<EntryView>::empty());
    assert(after1 == expired);
    let limit = if max_bytes < 0 {
        0
    } else {
        max_bytes
    };
    let ghost outcome = budget_pass(es, live, limit, expired);
    let mut i: usize = 0;
    while i < n
        invariant_except_break
            i <= n,
        invariant
            n == entries@.len(),
            es == entry_views(entries@),
            live == string_views(live_keys@),
            orphans as nat == expired.orphans,
            string_views(deleted@).no_duplicates(),
            budget_pass(
                es.subrange(i as int, n as int),
                live,
                limit,
                PruneState { deleted: string_views(deleted@).to_set(), total, orphans: orphans as nat },
            ) == outcome,
        ensures
            outcome == (PruneState { deleted: string_views(deleted@).to_set(), total, orphans: orphans as nat }),
            string_views(deleted@).no_duplicates(),
            orphans as nat == expired.orphans,
        decreases n - i,
    {
        let ghost rest = es.subrange(i as int, n as int);
        assert(rest[0] == es[i as int]);
        assert(rest.drop_first() =~= es.subrange(i + 1, n as int));
        if total <= limit {
            break;
        }
        assert(rest.len() > 0);
        let key = &entries[i].0;
        if !keys_contain(live_keys, key) && !keys_contain(&deleted, key) {
            let ghost dv = string_views(deleted@);
            deleted.push(key.clone());
            proof {
                assert(string_views(deleted@) =~= dv.push(key@));
                lemma_push_to_set(dv, key@);
                assert forall|a: int, b: int| 0 <= a < b < string_views(deleted@).len() implies string_views(deleted@)[a]
                    != string_views(deleted@)[b] by {
                    if b == dv.len() {
                        assert(dv[a] == string_views(deleted@)[a]);
                    }
                }
            }
            total = sat_sub_exec(total, entries[i].1);
        }
        i = i + 1;
    }
    let ghost dset = string_views(deleted@).to_set();
    assert(dset == outcome.deleted);
    let mut deleted_bytes: i64 = 0;
    let mut j: usize = 0;
    assert(es.take(0) =~= Seq::<EntryView>::empty());
    while j < n
        invariant
            n == entries@.len(),
            es == entry_views(entries@),
            abs_bytes(es) <= i64::MAX,
            j <= n,
            dset == string_views(deleted@).to_set(),
            deleted_bytes == bytes_of_keys(es.take(j as int), dset),
        decreases n - j,
    {
        proof {
            assert(es.take(j + 1).drop_last() =~= es.take(j as int));
            lemma_abs_prefix(es, j + 1);
            lemma_keys_bytes_abs(es.take(j + 1), dset);
        }
        if keys_contain(&deleted, &entries[j].0) {
            deleted_bytes = deleted_bytes + entries[j].1;
        }
        j = j + 1;
    }
    assert(es.take(n as int) =~= es);
    proof {
        string_views(deleted@).unique_seq_to_set();
    }
    let count = deleted.len();
    let remaining = if n >= count {
        n - count
    } else {
        0
    };
    let result = TabRuntimeCachePruneResult {
        deleted_entries: count,
        deleted_bytes,
        orphan_deletions: orphans,
        remaining_entries: remaining,
        remaining_bytes: total,
    };
    (deleted, result)
}

/// Whether `k` is the first `:` of `s`.
pub open spec fn is_first_colon(s: Seq<char>, k: int) -> bool {
    0 <= k < s.len() && s[k] == ':' && forall|j: int| 0 <= j < k ==> s[j] != ':'
}

/// The text before the first `:` (all of it without one).
pub open spec fn head_field(s: Seq<char>) -> Seq<char> {
    if exists|k: int| is_first_colon(s, k) {
        s.take(choose|k: int| is_first_colon(s, k))
    } else {
        s
    }
}

/// The text after the first `:`, if there is one.
pub open spec fn tail_fields(s: Seq<char>) -> Option<Seq<char>> {
    if exists|k: int| is_first_colon(s, k) {
        Some(s.skip((choose|k: int| is_first_colon(s, k)) + 1))
    } else {
        None
    }
}

fn split_field(s: &[char]) -> (r: (Vec<char>, Option<Vec<char>>))
    ensures
        r.0@ == head_field(s@),
        match r.1 {
            Some(t) => tail_fields(s@) == Some(t@),
            None => tail_fields(s@) is None,
        },
{
    let mut k: usize = 0;
    while k < s.len()
        invariant
            k <= s.len(),
            forall|j: int| 0 <= j < k ==> s@[j] != ':',
        decreases s.len() - k,
    {
        if s[k] == ':' {
            assert(is_first_colon(s@, k as int));
            let ghost c = choose|c: int| is_first_colon(s@, c);
            assert(c == k) by {
                if c < k {
                    assert(s@[c] != ':');
                } else if c > k {
                    assert(s@[k as int] != ':');
                }
            }
            let mut head: Vec<char> = Vec::new();
            let mut i: usize = 0;
            while i < k
                invariant
                    i <= k < s.len(),
                    head@ == s@.take(i as int),
                decreases k - i,
            {
                head.push(s[i]);
                i = i + 1;
                assert(head@ =~= s@.take(i as int));
            }
            let mut tail: Vec<char> = Vec::new();
            let mut j: usize = k + 1;
            while j < s.len()
                invariant
                    k + 1 <= j <= s.len(),
                    tail@ == s@.subrange(k + 1, j as int),
                decreases s.len() - j,
            {
                tail.push(s[j]);
                j = j + 1;
                assert(tail@ =~= s@.subrange(k + 1, j as int));
            }
            assert(tail@ =~= s@.skip(k + 1));
            return (head, Some(tail));
        }
        k = k + 1;
    }
    let mut all: Vec<char> = Vec::new();
    let mut i: usize = 0;
    while i < s.len()
        invariant
            i <= s.len(),
            all@ == s@.take(i as int),
        decreases s.len() - i,
    {
        all.push(s[i]);
        i = i + 1;
        assert(all@ =~= s@.take(i as int));
    }
    assert(all@ =~= s@);
    (all, None)
}

/// The connection a schema cache key belongs to: the third `:`-separated
/// field of an `object-ddl:v1:` or `object-meta:v1:` key, otherwise empty.
pub open spec fn cache_key_owner(key: Seq<char>) -> Seq<char> {
    match tail_fields(key) {
        Some(r1) => if (head_field(key) == "object-ddl"@ || head_field(key) == "object-meta"@) && head_field(r1)
            == "v1"@ {
            match tail_fields(r1) {
                Some(r2) => head_field(r2),
                None => Seq::empty(),
            }
        } else {
            Seq::empty()
        },
        None => Seq::empty(),
    }
}

/// The connection a schema cache key belongs to.
pub fn schema_cache_owner(cache_key: &str) -> (r: String)
    ensures
        r@ == cache_key_owner(cache_key@),
{
    let c = chars_of(cache_key);
    let (f1, rest1) = split_field(c.as_slice());
    let empty: Vec<char> = Vec::new();
    match rest1 {
        Some(r1) => {
            let first = string_of(f1.as_slice());
            let (f2, rest2) = split_field(r1.as_slice());
            let second = string_of(f2.as_slice());
            if (crate::text::str_eq(first.as_str(), "object-ddl") || crate::text::str_eq(first.as_str(), "object-meta"))
                && crate::text::str_eq(second.as_str(), "v1") {
                match rest2 {
                    Some(r2) => {
                        let (f3, _) = split_field(r2.as_slice());
                        string_of(f3.as_slice())
                    },
                    None => string_of(empty.as_slice()),
                }
            } else {
                string_of(empty.as_slice())
            }
        },
        None => string_of(empty.as_slice()),
    }
}

/// The limits of the schema cache.
#[derive(Debug, Clone, Copy, PartialEq, Eq)]
pub struct SchemaCachePolicy {
    pub max_total_bytes: i64,
    pub max_connection_bytes: i64,
    pub max_entries: usize,
    pub max_age_millis: i64,
}

impl SchemaCachePolicy {
    /// 256 MiB in all, 64 MiB per connection, 50 000 entries, one day.
    pub fn defaults() -> (r: Self)
        ensures
            r.max_total_bytes == 256 * 1024 * 1024,
            r.max_connection_bytes == 64 * 1024 * 1024,
            r.max_entries == 50000,
            r.max_age_millis == 24 * 60 * 60 * 1000,
    {
        SchemaCachePolicy {
            max_total_bytes: 268435456,
            max_connection_bytes: 67108864,
            max_entries: 50000,
            max_age_millis: 86400000,
        }
    }

    /// Entries updated at or before this time have expired.
    pub fn expires_before(&self, now_ms: i64) -> (r: i64)
        ensures
            r == sat_sub(now_ms, at_least_zero(self.max_age_millis)),
    {
        let age = if self.max_age_millis < 0 {
            0
        } else {
            self.max_age_millis
        };
        sat_sub_exec(now_ms, age)
    }

    /// Whether the cache as a whole is within its limits.
    pub fn within_limits(&self, entry_count: i64, total_bytes: i64) -> (r: bool)
        ensures
            r == (entry_count <= self.max_entries && total_bytes <= at_least_zero(self.max_total_bytes)),
    {
        let max_total = if self.max_total_bytes < 0 {
            0
        } else {
            self.max_total_bytes
        };
        (entry_count as i128) <= (self.max_entries as i128) && total_bytes <= max_total
    }

    /// The byte limit of one connection's entries.
    pub fn connection_byte_limit(&self) -> (r: i64)
        ensures
            r == at_least_zero(self.max_connection_bytes),
    {
        if self.max_connection_bytes < 0 {
            0
        } else {
            self.max_connection_bytes
        }
    }
}

/// What a compare-and-swap of a state value does.
#[derive(Debug, Clone, Copy, PartialEq, Eq)]
pub enum StateSwap {
    /// No value yet and none expected: insert at version 1.
    Insert,
    /// The expected version is current: replace the value and bump the
    /// version (when the row still has that version).
    Update(u64),
    /// Anything else: leave the value and report failure.
    Reject,
}

/// Decides a compare-and-swap from the current and the expected version.
pub fn decide_state_swap(current: Option<u64>, expected: Option<u64>) -> (r: StateSwap)
    ensures
        r == match (current, expected) {
            (None, None) => StateSwap::Insert,
            (Some(v), Some(e)) => if v == e {
                StateSwap::Update(e)
            } else {
                StateSwap::Reject
            },
            _ => StateSwap::Reject,
        },
{
    match (current, expected) {
        (None, None) => StateSwap::Insert,
        (Some(v), Some(e)) => if v == e {
            StateSwap::Update(e)
        } else {
            StateSwap::Reject
        },
        _ => StateSwap::Reject,
    }
}

proof fn lemma_expiry_spares_live(
    rest: Seq<EntryView>,
    live: Seq<Seq<char>>,
    now: i64,
    grace: i64,
    max_age: Option<i64>,
    s: PruneState,
)
    requires
        forall|k: Seq<char>| s.deleted.contains(k) ==> !live.contains(k),
    ensures
        forall|k: Seq<char>| expiry_pass(rest, live, now, grace, max_age, s).deleted.contains(k) ==> !live.contains(k),
    decreases rest.len(),
{
    if rest.len() > 0 {
        let e = rest[0];
        let next = if live.contains(e.0) {
            s
        } else if orphan_expired(now, e, grace) || age_expired(now, e, max_age) {
            PruneState {
                deleted: s.deleted.insert(e.0),
                total: sat_sub(s.total, e.1),
                orphans: s.orphans + if orphan_expired(now, e, grace) {
                    1nat
                } else {
                    0nat
                },
            }
        } else {
            s
        };
        lemma_expiry_spares_live(rest.drop_first(), live, now, grace, max_age, next);
    }
}

proof fn lemma_budget_spares_live(rest: Seq<EntryView>, live: Seq<Seq<char>>, limit: i64, s: PruneState)
    requires
        forall|k: Seq<char>| s.deleted.contains(k) ==> !live.contains(k),
    ensures
        forall|k: Seq<char>| budget_pass(rest, live, limit, s).deleted.contains(k) ==> !live.contains(k),
    decreases rest.len(),
{
    if rest.len() > 0 && s.total > limit {
        let e = rest[0];
        let next = if live.contains(e.0) || s.deleted.contains(e.0) {
            s
        } else {
            PruneState { deleted: s.deleted.insert(e.0), total: sat_sub(s.total, e.1), orphans: s.orphans }
        };
        lemma_budget_spares_live(rest.drop_first(), live, limit, next);
    }
}

/// A prune never deletes the entry of a live tab.
pub proof fn lemma_prune_spares_live(
    es: Seq<EntryView>,
    live: Seq<Seq<char>>,
    max_bytes: i64,
    grace: i64,
    max_age: Option<i64>,
    now: i64,
)
    ensures
        forall|k: Seq<char>| prune_outcome(es, live, max_bytes, grace, max_age, now).deleted.contains(k) ==> !live.contains(k),
{
    let start = PruneState { deleted: Set::empty(), total: total_bytes(es) as i64, orphans: 0 };
    lemma_expiry_spares_live(es, live, now, grace, max_age, start);
    let expired = expiry_pass(es, live, now, grace, max_age, start);
    lemma_budget_spares_live(es, live, at_least_zero(max_bytes), expired);
}

} // verus!
