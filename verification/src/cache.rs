//! The in-memory level of the hybrid font cache: a recency-ordered store
//! with pinning, access counting, auto-promotion and quota-bounded
//! eviction.  The on-disk level is plain file I/O and lives with the
//! embedding program; its eviction decisions are computed here.
//!
//! Quota invariant: memory use never exceeds the configured limit at
//! completion of any operation.

use vstd::prelude::*;

use crate::outside::now_unix_secs;
use crate::text::{append_lit, chars_string, str_chars, string_chars, eq_vec};
use crate::types::{CacheStats, FontDescriptor, FontDescriptorV};
use crate::FontError;
use crate::FontResult;

verus! {

/// Thirty days in seconds.
pub const DAYS_30: u64 = 2592000;

/// Seven days in seconds.
pub const DAYS_7: u64 = 604800;

pub struct CacheEntryV {
    pub font: FontDescriptorV,
    pub access_count: u32,
    pub last_accessed: u64,
    pub created_at: u64,
    pub is_pinned: bool,
    pub estimated_size_kb: usize,
}

/// One cached face with its bookkeeping.  Timestamps are seconds since
/// the Unix epoch.
#[derive(Debug, Clone)]
pub struct CacheEntry {
    pub font: FontDescriptor,
    pub access_count: u32,
    pub last_accessed: u64,
    pub created_at: u64,
    pub is_pinned: bool,
    pub estimated_size_kb: usize,
}

impl View for CacheEntry {
    type V = CacheEntryV;

    open spec fn view(&self) -> CacheEntryV {
        CacheEntryV {
            font: self.font@,
            access_count: self.access_count,
            last_accessed: self.last_accessed,
            created_at: self.created_at,
            is_pinned: self.is_pinned,
            estimated_size_kb: self.estimated_size_kb,
        }
    }
}

impl CacheEntry {
    pub fn duplicate(&self) -> (r: CacheEntry)
        ensures
            r@ == self@,
    {
        CacheEntry {
            font: self.font.duplicate(),
            access_count: self.access_count,
            last_accessed: self.last_accessed,
            created_at: self.created_at,
            is_pinned: self.is_pinned,
            estimated_size_kb: self.estimated_size_kb,
        }
    }
}

pub struct CacheV {
    pub entries: Seq<(Seq<char>, CacheEntryV)>,
    pub pinned: Seq<Seq<char>>,
    pub access_counts: Seq<(Seq<char>, u32)>,
    pub memory_limit_bytes: usize,
    pub disk_limit_bytes: usize,
    pub auto_pin_threshold: u32,
}

// ----- spec functions over the cache state ---------------------------------

pub open spec fn mem_lookup(es: Seq<(Seq<char>, CacheEntryV)>, name: Seq<char>) -> Option<
    CacheEntryV,
>
    decreases es.len(),
{
    if es.len() == 0 {
        None
    } else if es[0].0 == name {
        Some(es[0].1)
    } else {
        mem_lookup(es.drop_first(), name)
    }
}

pub open spec fn remove_key(es: Seq<(Seq<char>, CacheEntryV)>, name: Seq<char>) -> Seq<
    (Seq<char>, CacheEntryV),
>
    decreases es.len(),
{
    if es.len() == 0 {
        Seq::empty()
    } else if es[0].0 == name {
        remove_key(es.drop_first(), name)
    } else {
        seq![es[0]] + remove_key(es.drop_first(), name)
    }
}

/// Total estimated memory use, in bytes.
pub open spec fn mem_usage(es: Seq<(Seq<char>, CacheEntryV)>) -> int
    decreases es.len(),
{
    if es.len() == 0 {
        0
    } else {
        es[0].1.estimated_size_kb * 1024 + mem_usage(es.drop_first())
    }
}

/// Estimated memory use of the first `n` entries, in kilobytes.
pub open spec fn mem_usage_kb_capped(es: Seq<(Seq<char>, CacheEntryV)>, n: int) -> int
    decreases es.len(),
{
    if es.len() == 0 || n <= 0 {
        0
    } else {
        es[0].1.estimated_size_kb + mem_usage_kb_capped(es.drop_first(), n - 1)
    }
}

pub open spec fn pinned_has(ps: Seq<Seq<char>>, name: Seq<char>) -> bool {
    exists|i: int| 0 <= i < ps.len() && ps[i] == name
}

pub open spec fn remove_name(ps: Seq<Seq<char>>, name: Seq<char>) -> Seq<Seq<char>>
    decreases ps.len(),
{
    if ps.len() == 0 {
        Seq::empty()
    } else if ps[0] == name {
        remove_name(ps.drop_first(), name)
    } else {
        seq![ps[0]] + remove_name(ps.drop_first(), name)
    }
}

pub open spec fn ac_get(acs: Seq<(Seq<char>, u32)>, name: Seq<char>) -> Option<u32>
    decreases acs.len(),
{
    if acs.len() == 0 {
        None
    } else if acs[0].0 == name {
        Some(acs[0].1)
    } else {
        ac_get(acs.drop_first(), name)
    }
}

/// Access count after one more use, saturating.
pub open spec fn bumped(c: Option<u32>) -> u32 {
    match c {
        Some(n) => if n < 0xffff_ffff {
            (n + 1) as u32
        } else {
            n
        },
        None => 1,
    }
}

pub open spec fn ac_bump(acs: Seq<(Seq<char>, u32)>, name: Seq<char>) -> Seq<(Seq<char>, u32)>
    decreases acs.len(),
{
    if acs.len() == 0 {
        seq![(name, 1u32)]
    } else if acs[0].0 == name {
        seq![(name, bumped(Some(acs[0].1)))] + acs.drop_first()
    } else {
        seq![acs[0]] + ac_bump(acs.drop_first(), name)
    }
}

pub open spec fn ac_remove(acs: Seq<(Seq<char>, u32)>, name: Seq<char>) -> Seq<(Seq<char>, u32)>
    decreases acs.len(),
{
    if acs.len() == 0 {
        Seq::empty()
    } else if acs[0].0 == name {
        ac_remove(acs.drop_first(), name)
    } else {
        seq![acs[0]] + ac_remove(acs.drop_first(), name)
    }
}

pub open spec fn set_pin_flag(es: Seq<(Seq<char>, CacheEntryV)>, name: Seq<char>,
    v: bool) -> Seq<(Seq<char>, CacheEntryV)> {
    es.map_values(
        |p: (Seq<char>, CacheEntryV)|
            if p.0 == name {
                (p.0, CacheEntryV { is_pinned: v, ..p.1 })
            } else {
                p
            },
    )
}

/// Size estimate of a cached face: 50 KB base, 100 KB more if variable,
/// 20 KB more when metrics are present.
pub open spec fn estimate_kb(f: FontDescriptorV) -> usize {
    (50 + (if f.variable {
        100int
    } else {
        0int
    }) + (if f.metrics is Some {
        20int
    } else {
        0int
    })) as usize
}

// ----- state transformers ---------------------------------------------------

pub open spec fn pin_spec(c: CacheV, name: Seq<char>) -> CacheV {
    CacheV {
        entries: set_pin_flag(c.entries, name, true),
        pinned: if pinned_has(c.pinned, name) {
            c.pinned
        } else {
            c.pinned.push(name)
        },
        ..c
    }
}

pub open spec fn unpin_spec(c: CacheV, name: Seq<char>) -> CacheV {
    CacheV {
        entries: set_pin_flag(c.entries, name, false),
        pinned: remove_name(c.pinned, name),
        ..c
    }
}

/// The state after a `get`: the access count is bumped, the auto-pin rule
/// applies, and a hit refreshes the entry's timestamp and recency.
pub open spec fn get_spec(c: CacheV, name: Seq<char>, now: u64) -> (CacheV, Option<
    FontDescriptorV,
>) {
    let cnt = bumped(ac_get(c.access_counts, name));
    let c1 = CacheV { access_counts: ac_bump(c.access_counts, name), ..c };
    let c2 = if c.auto_pin_threshold > 0 && cnt >= c.auto_pin_threshold && !pinned_has(
        c.pinned,
        name,
    ) {
        pin_spec(c1, name)
    } else {
        c1
    };
    match mem_lookup(c2.entries, name) {
        Some(e) => {
            let e2 = CacheEntryV { last_accessed: now, ..e };
            (
                CacheV { entries: remove_key(c2.entries, name).push((name, e2)), ..c2 },
                Some(e.font),
            )
        },
        None => (c2, None),
    }
}

/// Does a `put` of a face of this size breach the memory quota?
pub open spec fn put_over_memory(c: CacheV, f: FontDescriptorV) -> bool {
    mem_usage(c.entries) + estimate_kb(f) * 1024 > c.memory_limit_bytes
}

/// Does it breach the disk quota?  Disk use is proxied by the number of
/// memory entries at 100 KB each, never by a filesystem walk.
pub open spec fn put_over_disk(c: CacheV, f: FontDescriptorV) -> bool {
    c.entries.len() * 102400 + estimate_kb(f) * 1024 > c.disk_limit_bytes
}

pub open spec fn put_entry(c: CacheV, f: FontDescriptorV, name: Seq<char>,
    now: u64) -> CacheEntryV {
    CacheEntryV {
        font: f,
        access_count: 1,
        last_accessed: now,
        created_at: now,
        is_pinned: pinned_has(c.pinned, name),
        estimated_size_kb: estimate_kb(f),
    }
}

pub open spec fn put_ok_state(c: CacheV, name: Seq<char>, f: FontDescriptorV, now: u64) -> CacheV {
    CacheV { entries: remove_key(c.entries, name).push((name, put_entry(c, f, name, now))), ..c }
}

/// Is an unpinned entry evicted by `cleanup`?  Aggressive cleanup takes
/// entries used exactly once; normal cleanup takes entries idle for
/// thirty days.
pub open spec fn evicts(e: CacheEntryV, aggressive: bool, now: u64) -> bool {
    !e.is_pinned && (if aggressive {
        e.access_count == 1
    } else {
        now > e.last_accessed && now - e.last_accessed > DAYS_30
    })
}

pub open spec fn cleanup_entries(es: Seq<(Seq<char>, CacheEntryV)>, aggressive: bool,
    now: u64) -> Seq<(Seq<char>, CacheEntryV)>
    decreases es.len(),
{
    if es.len() == 0 {
        Seq::empty()
    } else if evicts(es[0].1, aggressive, now) {
        cleanup_entries(es.drop_first(), aggressive, now)
    } else {
        seq![es[0]] + cleanup_entries(es.drop_first(), aggressive, now)
    }
}

/// Messages suggested for memory-level cleanup.
pub open spec fn suggest_msgs(es: Seq<(Seq<char>, CacheEntryV)>, now: u64) -> Seq<Seq<char>>
    decreases es.len(),
{
    if es.len() == 0 {
        Seq::empty()
    } else {
        let head = es[0];
        let rest = suggest_msgs(es.drop_first(), now);
        if !head.1.is_pinned && head.1.access_count == 1 {
            seq!["Memory: "@ + head.0 + " (used only once)"@] + rest
        } else if !head.1.is_pinned && now > head.1.last_accessed && now - head.1.last_accessed
            > DAYS_7 {
            seq!["Memory: "@ + head.0 + " (not used in 7 days)"@] + rest
        } else {
            rest
        }
    }
}

/// Unique keys in every internal container, and memory use within quota.
pub open spec fn cache_wf(c: CacheV) -> bool {
    &&& forall|i: int, j: int|
        0 <= i < j < c.entries.len() ==> (#[trigger] c.entries[i]).0 != (#[trigger] c.entries[j]).0
    &&& forall|i: int, j: int|
        0 <= i < j < c.pinned.len() ==> (#[trigger] c.pinned[i]) != (#[trigger] c.pinned[j])
    &&& forall|i: int, j: int|
        0 <= i < j < c.access_counts.len() ==> (#[trigger] c.access_counts[i]).0
            != (#[trigger] c.access_counts[j]).0
    &&& mem_usage(c.entries) <= c.memory_limit_bytes
}

// ----- the cache ------------------------------------------------------------

/// The memory level of the hybrid cache, with its quotas.
pub struct HybridFontCache {
    entries: Vec<(String, CacheEntry)>,
    pinned: Vec<String>,
    access_counts: Vec<(String, u32)>,
    memory_limit_bytes: usize,
    disk_limit_bytes: usize,
    auto_pin_threshold: u32,
}

pub open spec fn entries_view(s: Seq<(String, CacheEntry)>) -> Seq<(Seq<char>, CacheEntryV)> {
    s.map_values(|p: (String, CacheEntry)| (p.0@, p.1@))
}

pub open spec fn names_view(s: Seq<String>) -> Seq<Seq<char>> {
    s.map_values(|n: String| n@)
}

pub open spec fn counts_view(s: Seq<(String, u32)>) -> Seq<(Seq<char>, u32)> {
    s.map_values(|p: (String, u32)| (p.0@, p.1))
}

impl View for HybridFontCache {
    type V = CacheV;

    closed spec fn view(&self) -> CacheV {
        CacheV {
            entries: entries_view(self.entries@),
            pinned: names_view(self.pinned@),
            access_counts: counts_view(self.access_counts@),
            memory_limit_bytes: self.memory_limit_bytes,
            disk_limit_bytes: self.disk_limit_bytes,
            auto_pin_threshold: self.auto_pin_threshold,
        }
    }
}

fn str_eq(a: &str, b: &str) -> (r: bool)
    ensures
        r == (a@ == b@),
{
    let av = str_chars(a);
    let bv = str_chars(b);
    eq_vec(&av, &bv)
}

// ----- helper lemmas --------------------------------------------------------

proof fn lemma_lookup_skip(es: Seq<(Seq<char>, CacheEntryV)>, name: Seq<char>, i: int)
    requires
        0 <= i <= es.len(),
        forall|j: int| 0 <= j < i ==> (#[trigger] es[j]).0 != name,
    ensures
        mem_lookup(es, name) == mem_lookup(es.skip(i), name),
    decreases i,
{
    if i > 0 {
        assert(es.drop_first() =~= es.skip(1));
        lemma_lookup_skip_step(es, name);
        assert(forall|j: int| 0 <= j < i - 1 ==> (#[trigger] es.skip(1)[j]).0 != name);
        lemma_lookup_skip(es.skip(1), name, i - 1);
        assert(es.skip(1).skip(i - 1) =~= es.skip(i));
    } else {
        assert(es.skip(0) =~= es);
    }
}

proof fn lemma_lookup_skip_step(es: Seq<(Seq<char>, CacheEntryV)>, name: Seq<char>)
    requires
        es.len() > 0,
        es[0].0 != name,
    ensures
        mem_lookup(es, name) == mem_lookup(es.skip(1), name),
{
    assert(es.drop_first() =~= es.skip(1));
}

/// Memory use only shrinks when a key is removed.
proof fn lemma_remove_key_usage(es: Seq<(Seq<char>, CacheEntryV)>, name: Seq<char>)
    ensures
        mem_usage(remove_key(es, name)) <= mem_usage(es),
        mem_usage(es) >= 0,
        remove_key(es, name).len() <= es.len(),
    decreases es.len(),
{
    if es.len() > 0 {
        lemma_remove_key_usage(es.drop_first(), name);
        if es[0].0 == name {
        } else {
            let rest = remove_key(es.drop_first(), name);
            assert((seq![es[0]] + rest).drop_first() =~= rest);
        }
    }
}

/// After removal the key is gone.
proof fn lemma_remove_key_absent(es: Seq<(Seq<char>, CacheEntryV)>, name: Seq<char>)
    ensures
        forall|j: int| 0 <= j < remove_key(es, name).len() ==> (#[trigger] remove_key(es, name)[j]).0
            != name,
    decreases es.len(),
{
    if es.len() > 0 {
        lemma_remove_key_absent(es.drop_first(), name);
        if es[0].0 != name {
            let rest = remove_key(es.drop_first(), name);
            let whole = remove_key(es, name);
            assert(whole == seq![es[0]] + rest);
            assert forall|j: int| 0 <= j < whole.len() implies (#[trigger] whole[j]).0 != name by {
                if j > 0 {
                    assert(whole[j] == rest[j - 1]);
                }
            }
        } else {
            let rest = remove_key(es.drop_first(), name);
            let whole = remove_key(es, name);
            assert(whole == rest);
            assert forall|j: int| 0 <= j < whole.len() implies (#[trigger] whole[j]).0 != name by {
                assert(whole[j] == rest[j]);
            }
        }
    }
}

/// Removal keeps the other keys and their order.
proof fn lemma_remove_key_others(es: Seq<(Seq<char>, CacheEntryV)>, name: Seq<char>,
    other: Seq<char>)
    requires
        other != name,
    ensures
        mem_lookup(remove_key(es, name), other) == mem_lookup(es, other),
    decreases es.len(),
{
    if es.len() > 0 {
        lemma_remove_key_others(es.drop_first(), name, other);
        if es[0].0 == name {
        } else {
            let rest = remove_key(es.drop_first(), name);
            assert((seq![es[0]] + rest).drop_first() =~= rest);
        }
    }
}

/// Looking up a key just pushed on a key-free list finds it.
proof fn lemma_lookup_pushed(es: Seq<(Seq<char>, CacheEntryV)>, name: Seq<char>, e: CacheEntryV)
    requires
        forall|j: int| 0 <= j < es.len() ==> (#[trigger] es[j]).0 != name,
    ensures
        mem_lookup(es.push((name, e)), name) == Some(e),
    decreases es.len(),
{
    if es.len() == 0 {
        assert(es.push((name, e))[0] == (name, e));
    } else {
        assert(es.push((name, e)).drop_first() =~= es.drop_first().push((name, e)));
        assert(forall|j: int|
            0 <= j < es.drop_first().len() ==> (#[trigger] es.drop_first()[j]).0 != name);
        lemma_lookup_pushed(es.drop_first(), name, e);
    }
}

/// Unique keys survive a remove-then-push.
proof fn lemma_remove_push_unique(es: Seq<(Seq<char>, CacheEntryV)>, name: Seq<char>,
    e: CacheEntryV)
    requires
        forall|i: int, j: int|
            0 <= i < j < es.len() ==> (#[trigger] es[i]).0 != (#[trigger] es[j]).0,
    ensures
        ({
            let r = remove_key(es, name).push((name, e));
            forall|i: int, j: int| 0 <= i < j < r.len() ==> (#[trigger] r[i]).0 != (#[trigger] r[j]).0
        }),
{
    lemma_remove_key_absent(es, name);
    lemma_remove_key_unique(es, name);
    let base = remove_key(es, name);
    let r = base.push((name, e));
    assert forall|i: int, j: int| 0 <= i < j < r.len() implies (#[trigger] r[i]).0
        != (#[trigger] r[j]).0 by {
        if j < r.len() - 1 {
            assert(r[i] == base[i] && r[j] == base[j]);
        } else {
            assert(r[j].0 == name);
            assert(r[i] == base[i]);
        }
    }
}

/// Removal of a key preserves key uniqueness.
proof fn lemma_remove_key_unique(es: Seq<(Seq<char>, CacheEntryV)>, name: Seq<char>)
    requires
        forall|i: int, j: int|
            0 <= i < j < es.len() ==> (#[trigger] es[i]).0 != (#[trigger] es[j]).0,
    ensures
        ({
            let r = remove_key(es, name);
            forall|i: int, j: int| 0 <= i < j < r.len() ==> (#[trigger] r[i]).0 != (#[trigger] r[j]).0
        }),
    decreases es.len(),
{
    if es.len() > 0 {
        let d = es.drop_first();
        assert(forall|i: int, j: int|
            0 <= i < j < d.len() ==> (#[trigger] d[i]).0 != (#[trigger] d[j]).0);
        lemma_remove_key_unique(d, name);
        if es[0].0 != name {
            let rest = remove_key(d, name);
            let whole = seq![es[0]] + rest;
            lemma_remove_sub(d, name);
            assert forall|i: int, j: int| 0 <= i < j < whole.len() implies (#[trigger] whole[i]).0
                != (#[trigger] whole[j]).0 by {
                if i == 0 {
                    assert(whole[j] == rest[j - 1]);
                    let k = choose|k: int| 0 <= k < d.len() && d[k] == rest[j - 1];
                    assert(es[0].0 != d[k].0);
                } else {
                    assert(whole[i] == rest[i - 1] && whole[j] == rest[j - 1]);
                }
            }
        }
    }
}

/// Setting a pin flag never changes which faces are resident nor the
/// face an entry holds.
pub proof fn lemma_lookup_set_flag(es: Seq<(Seq<char>, CacheEntryV)>, n: Seq<char>, v: bool,
    name: Seq<char>)
    ensures
        match mem_lookup(es, name) {
            Some(e) => mem_lookup(set_pin_flag(es, n, v), name) == Some(
                if name == n {
                    CacheEntryV { is_pinned: v, ..e }
                } else {
                    e
                },
            ),
            None => mem_lookup(set_pin_flag(es, n, v), name) is None,
        },
    decreases es.len(),
{
    if es.len() > 0 {
        let d = es.drop_first();
        let m = set_pin_flag(es, n, v);
        assert(m.drop_first() =~= set_pin_flag(d, n, v));
        if es[0].0 == name {
        } else {
            lemma_lookup_set_flag(d, n, v, name);
        }
    } else {
        assert(set_pin_flag(es, n, v) =~= Seq::<(Seq<char>, CacheEntryV)>::empty());
    }
}

/// Removing an absent key changes nothing.
proof fn lemma_remove_key_noop(es: Seq<(Seq<char>, CacheEntryV)>, name: Seq<char>)
    requires
        forall|j: int| 0 <= j < es.len() ==> (#[trigger] es[j]).0 != name,
    ensures
        remove_key(es, name) == es,
    decreases es.len(),
{
    if es.len() > 0 {
        let d = es.drop_first();
        assert(forall|j: int| 0 <= j < d.len() ==> (#[trigger] d[j]).0 != name);
        lemma_remove_key_noop(d, name);
        assert(remove_key(es, name) =~= es);
    }
}

/// With unique keys, removing by key is removing the found index.
proof fn lemma_remove_key_is_remove_idx(es: Seq<(Seq<char>, CacheEntryV)>, name: Seq<char>, i: int)
    requires
        0 <= i < es.len(),
        es[i].0 == name,
        forall|j: int| 0 <= j < es.len() && j != i ==> (#[trigger] es[j]).0 != name,
    ensures
        remove_key(es, name) == es.remove(i),
    decreases i,
{
    if i == 0 {
        let d = es.drop_first();
        assert(forall|j: int| 0 <= j < d.len() ==> (#[trigger] d[j]).0 != name);
        lemma_remove_key_noop(d, name);
        assert(es.remove(0) =~= d);
    } else {
        let d = es.drop_first();
        assert(d[i - 1].0 == name);
        assert(forall|j: int| 0 <= j < d.len() && j != i - 1 ==> (#[trigger] d[j]).0 != name);
        lemma_remove_key_is_remove_idx(d, name, i - 1);
        assert(es.remove(i) =~= seq![es[0]] + d.remove(i - 1));
    }
}

/// Memory use is additive over removal of one index and over push.
proof fn lemma_usage_remove_idx(es: Seq<(Seq<char>, CacheEntryV)>, i: int)
    requires
        0 <= i < es.len(),
    ensures
        mem_usage(es.remove(i)) == mem_usage(es) - es[i].1.estimated_size_kb * 1024,
    decreases i,
{
    if i == 0 {
        assert(es.remove(0) =~= es.drop_first());
    } else {
        let d = es.drop_first();
        lemma_usage_remove_idx(d, i - 1);
        assert(es.remove(i) =~= seq![es[0]] + d.remove(i - 1));
        assert((seq![es[0]] + d.remove(i - 1)).drop_first() =~= d.remove(i - 1));
    }
}

proof fn lemma_usage_push(es: Seq<(Seq<char>, CacheEntryV)>, p: (Seq<char>, CacheEntryV))
    ensures
        mem_usage(es.push(p)) == mem_usage(es) + p.1.estimated_size_kb * 1024,
    decreases es.len(),
{
    if es.len() == 0 {
        assert(es.push(p)[0] == p);
        assert(es.push(p).drop_first() =~= Seq::<(Seq<char>, CacheEntryV)>::empty());
        assert(mem_usage(Seq::<(Seq<char>, CacheEntryV)>::empty()) == 0);
        assert(mem_usage(es.push(p)) == p.1.estimated_size_kb * 1024 + mem_usage(
            es.push(p).drop_first(),
        ));
    } else {
        lemma_usage_push(es.drop_first(), p);
        assert(es.push(p).drop_first() =~= es.drop_first().push(p));
        assert(es.push(p)[0] == es[0]);
        assert(mem_usage(es.push(p)) == es[0].1.estimated_size_kb * 1024 + mem_usage(
            es.drop_first().push(p),
        ));
    }
}

proof fn lemma_usage_nonneg(es: Seq<(Seq<char>, CacheEntryV)>)
    ensures
        mem_usage(es) >= 0,
    decreases es.len(),
{
    if es.len() > 0 {
        lemma_usage_nonneg(es.drop_first());
    }
}

/// Partial sums from the front never exceed the total.
proof fn lemma_usage_split(es: Seq<(Seq<char>, CacheEntryV)>, i: int)
    requires
        0 <= i <= es.len(),
    ensures
        mem_usage(es) == mem_usage(es.take(i)) + mem_usage(es.skip(i)),
    decreases i,
{
    if i == 0 {
        assert(es.take(0) =~= Seq::<(Seq<char>, CacheEntryV)>::empty());
        assert(es.skip(0) =~= es);
    } else {
        let d = es.drop_first();
        lemma_usage_split(d, i - 1);
        assert(es.take(i).drop_first() =~= d.take(i - 1));
        assert(es.take(i)[0] == es[0]);
        assert(es.skip(i) =~= d.skip(i - 1));
    }
}

/// The capped kilobyte sum is bounded by the full usage.
proof fn lemma_capped_kb_bound(es: Seq<(Seq<char>, CacheEntryV)>, n: int)
    ensures
        0 <= mem_usage_kb_capped(es, n) * 1024 <= mem_usage(es),
    decreases es.len(),
{
    if es.len() > 0 {
        lemma_capped_kb_bound(es.drop_first(), n - 1);
        lemma_usage_nonneg(es.drop_first());
        if n <= 0 {
            lemma_usage_nonneg(es);
        }
    }
}

/// Cleanup only removes entries; what stays keeps its order and value.
proof fn lemma_cleanup_sub(es: Seq<(Seq<char>, CacheEntryV)>, aggressive: bool, now: u64)
    ensures
        forall|j: int|
            0 <= j < cleanup_entries(es, aggressive, now).len() ==> exists|k: int|
                0 <= k < es.len() && es[k] == #[trigger] cleanup_entries(es, aggressive, now)[j],
        mem_usage(cleanup_entries(es, aggressive, now)) <= mem_usage(es),
        cleanup_entries(es, aggressive, now).len() <= es.len(),
    decreases es.len(),
{
    let r = cleanup_entries(es, aggressive, now);
    if es.len() > 0 {
        let d = es.drop_first();
        lemma_cleanup_sub(d, aggressive, now);
        let rest = cleanup_entries(d, aggressive, now);
        if evicts(es[0].1, aggressive, now) {
            lemma_usage_nonneg(es);
            assert forall|j: int| 0 <= j < r.len() implies exists|k: int|
                0 <= k < es.len() && es[k] == #[trigger] r[j] by {
                assert(r == rest);
                let k = choose|k: int| 0 <= k < d.len() && d[k] == rest[j];
                assert(es[k + 1] == r[j]);
            }
        } else {
            assert(r == seq![es[0]] + rest);
            assert(r.drop_first() =~= rest);
            assert forall|j: int| 0 <= j < r.len() implies exists|k: int|
                0 <= k < es.len() && es[k] == #[trigger] r[j] by {
                if j == 0 {
                    assert(es[0] == r[0]);
                } else {
                    assert(r[j] == rest[j - 1]);
                    let k = choose|k: int| 0 <= k < d.len() && d[k] == rest[j - 1];
                    assert(es[k + 1] == r[j]);
                }
            }
        }
    }
}

/// Entries that survive an aggressive cleanup are never evictable again.
proof fn lemma_cleanup_keeps_settled(es: Seq<(Seq<char>, CacheEntryV)>, now: u64)
    ensures
        forall|j: int, n2: u64|
            0 <= j < cleanup_entries(es, true, now).len() ==> !(#[trigger] evicts(
                cleanup_entries(es, true, now)[j].1,
                true,
                n2,
            )),
    decreases es.len(),
{
    let r = cleanup_entries(es, true, now);
    if es.len() > 0 {
        let d = es.drop_first();
        lemma_cleanup_keeps_settled(d, now);
        let rest = cleanup_entries(d, true, now);
        if !evicts(es[0].1, true, now) {
            assert(r == seq![es[0]] + rest);
            assert forall|j: int, n2: u64| 0 <= j < r.len() implies !(#[trigger] evicts(
                r[j].1,
                true,
                n2,
            )) by {
                if j > 0 {
                    assert(r[j] == rest[j - 1]);
                }
            }
        }
    }
}

/// Cleaning a list with no evictable entry changes nothing.
proof fn lemma_cleanup_noop(es: Seq<(Seq<char>, CacheEntryV)>, aggressive: bool, now: u64)
    requires
        forall|j: int| 0 <= j < es.len() ==> !evicts((#[trigger] es[j]).1, aggressive, now),
    ensures
        cleanup_entries(es, aggressive, now) == es,
    decreases es.len(),
{
    if es.len() > 0 {
        let d = es.drop_first();
        assert(forall|j: int| 0 <= j < d.len() ==> !evicts((#[trigger] d[j]).1, aggressive, now));
        lemma_cleanup_noop(d, aggressive, now);
        assert(cleanup_entries(es, aggressive, now) =~= es);
    }
}

/// Aggressive cleanup is idempotent: a second pass, at any later time,
/// removes nothing.
pub proof fn lemma_cleanup_idempotent(es: Seq<(Seq<char>, CacheEntryV)>, now: u64, now2: u64)
    ensures
        cleanup_entries(cleanup_entries(es, true, now), true, now2) == cleanup_entries(
            es,
            true,
            now,
        ),
{
    lemma_cleanup_keeps_settled(es, now);
    lemma_cleanup_noop(cleanup_entries(es, true, now), true, now2);
}

/// A face whose every occurrence is pinned survives any cleanup with its
/// entry unchanged.
proof fn lemma_cleanup_lookup_pinned(es: Seq<(Seq<char>, CacheEntryV)>, name: Seq<char>,
    aggressive: bool, now: u64)
    requires
        forall|j: int| 0 <= j < es.len() && (#[trigger] es[j]).0 == name ==> es[j].1.is_pinned,
    ensures
        mem_lookup(cleanup_entries(es, aggressive, now), name) == mem_lookup(es, name),
    decreases es.len(),
{
    if es.len() > 0 {
        let d = es.drop_first();
        assert(forall|j: int|
            0 <= j < d.len() && (#[trigger] d[j]).0 == name ==> d[j].1.is_pinned);
        lemma_cleanup_lookup_pinned(d, name, aggressive, now);
        let rest = cleanup_entries(d, aggressive, now);
        if evicts(es[0].1, aggressive, now) {
            assert(es[0].0 != name);
        } else {
            assert((seq![es[0]] + rest).drop_first() =~= rest);
        }
    }
}

/// After `pin(name)`, no cleanup removes `name`: the name stays pinned
/// and its cache entry is untouched by eviction.
pub proof fn lemma_pin_survives_cleanup(c: CacheV, name: Seq<char>, aggressive: bool, now: u64)
    ensures
        pinned_has(pin_spec(c, name).pinned, name),
        mem_lookup(
            cleanup_entries(pin_spec(c, name).entries, aggressive, now),
            name,
        ) == mem_lookup(pin_spec(c, name).entries, name),
{
    let c1 = pin_spec(c, name);
    if !pinned_has(c.pinned, name) {
        assert(c1.pinned[c1.pinned.len() - 1] == name);
    }
    assert(forall|j: int|
        0 <= j < c1.entries.len() && (#[trigger] c1.entries[j]).0 == name
            ==> c1.entries[j].1.is_pinned);
    lemma_cleanup_lookup_pinned(c1.entries, name, aggressive, now);
}

/// After a successful `put`, a lookup returns exactly the stored face.
pub proof fn lemma_put_then_lookup(c: CacheV, name: Seq<char>, f: FontDescriptorV, now: u64)
    ensures
        mem_lookup(put_ok_state(c, name, f, now).entries, name) == Some(
            put_entry(c, f, name, now),
        ),
        put_entry(c, f, name, now).font == f,
{
    lemma_remove_key_absent(c.entries, name);
    lemma_lookup_pushed(remove_key(c.entries, name), name, put_entry(c, f, name, now));
}

// ----- executable helpers ---------------------------------------------------

/// First index holding `name`, with the facts a caller needs.
#[verifier::loop_isolation(false)]
fn find_idx(entries: &Vec<(String, CacheEntry)>, name: &str) -> (r: Option<usize>)
    ensures
        match r {
            Some(i) => {
                &&& i < entries@.len()
                &&& entries_view(entries@)[i as int].0 == name@
                &&& forall|j: int|
                    0 <= j < i ==> (#[trigger] entries_view(entries@)[j]).0 != name@
                &&& mem_lookup(entries_view(entries@), name@) == Some(
                    entries_view(entries@)[i as int].1,
                )
            },
            None => {
                &&& forall|j: int|
                    0 <= j < entries@.len() ==> (#[trigger] entries_view(entries@)[j]).0 != name@
                &&& mem_lookup(entries_view(entries@), name@) is None
            },
        },
{
    let ghost ev = entries_view(entries@);
    let mut i: usize = 0;
    while i < entries.len()
        invariant
            forall|j: int| 0 <= j < i ==> (#[trigger] ev[j]).0 != name@,
        decreases ev.len() - i,
    {
        if str_eq(entries[i].0.as_str(), name) {
            proof {
                lemma_lookup_skip(ev, name@, i as int);
                assert(ev.skip(i as int)[0] == ev[i as int]);
            }
            return Some(i);
        }
        i += 1;
    }
    proof {
        lemma_lookup_skip(ev, name@, ev.len() as int);
        assert(ev.skip(ev.len() as int) =~= Seq::<(Seq<char>, CacheEntryV)>::empty());
    }
    None
}

proof fn lemma_ac_skip(acs: Seq<(Seq<char>, u32)>, name: Seq<char>, i: int)
    requires
        0 <= i <= acs.len(),
        forall|j: int| 0 <= j < i ==> (#[trigger] acs[j]).0 != name,
    ensures
        ac_get(acs, name) == ac_get(acs.skip(i), name),
    decreases i,
{
    if i > 0 {
        assert(acs.drop_first() =~= acs.skip(1));
        assert(forall|j: int| 0 <= j < i - 1 ==> (#[trigger] acs.skip(1)[j]).0 != name);
        lemma_ac_skip(acs.skip(1), name, i - 1);
        assert(acs.skip(1).skip(i - 1) =~= acs.skip(i));
    } else {
        assert(acs.skip(0) =~= acs);
    }
}

// ----- the cache methods ----------------------------------------------------

impl HybridFontCache {
    /// An empty cache with the given quotas.  A zero auto-pin threshold
    /// disables auto-pinning.
    pub fn new(memory_limit_mb: usize, disk_limit_mb: usize, auto_pin_threshold: u32) -> (r:
        FontResult<HybridFontCache>)
        requires
            memory_limit_mb * 1024 * 1024 <= usize::MAX,
            disk_limit_mb * 1024 * 1024 <= usize::MAX,
        ensures
            r matches Ok(c) ==> {
                &&& c@.entries =~= Seq::<(Seq<char>, CacheEntryV)>::empty()
                &&& c@.pinned =~= Seq::<Seq<char>>::empty()
                &&& c@.access_counts =~= Seq::<(Seq<char>, u32)>::empty()
                &&& c@.memory_limit_bytes == memory_limit_mb * 1024 * 1024
                &&& c@.disk_limit_bytes == disk_limit_mb * 1024 * 1024
                &&& c@.auto_pin_threshold == auto_pin_threshold
                &&& cache_wf(c@)
            },
            r is Ok,
    {
        let c = HybridFontCache {
            entries: Vec::new(),
            pinned: Vec::new(),
            access_counts: Vec::new(),
            memory_limit_bytes: memory_limit_mb * 1024 * 1024,
            disk_limit_bytes: disk_limit_mb * 1024 * 1024,
            auto_pin_threshold,
        };
        proof {
            assert(entries_view(c.entries@) =~= Seq::<(Seq<char>, CacheEntryV)>::empty());
            assert(names_view(c.pinned@) =~= Seq::<Seq<char>>::empty());
            assert(counts_view(c.access_counts@) =~= Seq::<(Seq<char>, u32)>::empty());
        }
        Ok(c)
    }

    pub fn is_pinned(&self, font_name: &str) -> (r: bool)
        ensures
            r == pinned_has(self@.pinned, font_name@),
    {
        let ghost pv = names_view(self.pinned@);
        let mut i: usize = 0;
        while i < self.pinned.len()
            invariant
                pv == names_view(self.pinned@),
                i <= pv.len(),
                forall|j: int| 0 <= j < i ==> (#[trigger] pv[j]) != font_name@,
            decreases pv.len() - i,
        {
            if str_eq(self.pinned[i].as_str(), font_name) {
                proof {
                    assert(pv[i as int] == font_name@);
                }
                return true;
            }
            i += 1;
        }
        false
    }

    /// Marks the name pinned: it joins the pinned set and a resident
    /// entry's pin flag is raised.
    #[verifier::loop_isolation(false)]
    pub fn pin_font(&mut self, font_name: &str)
        requires
            cache_wf(old(self)@),
        ensures
            final(self)@ == pin_spec(old(self)@, font_name@),
            cache_wf(final(self)@),
    {
        let ghost oldv = self@;
        let already = self.is_pinned(font_name);
        if !already {
            self.pinned.push(font_name.to_owned());
            proof {
                assert(names_view(self.pinned@) =~= oldv.pinned.push(font_name@));
            }
        }
        let n = self.entries.len();
        let ghost ev0 = entries_view(self.entries@);
        let ghost target = set_pin_flag(ev0, font_name@, true);
        let mut rebuilt: Vec<(String, CacheEntry)> = Vec::new();
        let mut i: usize = 0;
        while i < n
            invariant
                self.entries@.len() == n,
                i <= n,
                entries_view(rebuilt@) == target.subrange(0, i as int),
            decreases n - i,
        {
            let p = &self.entries[i];
            let ghost rb0 = entries_view(rebuilt@);
            if str_eq(p.0.as_str(), font_name) {
                let mut e = p.1.duplicate();
                e.is_pinned = true;
                rebuilt.push((p.0.clone(), e));
            } else {
                rebuilt.push((p.0.clone(), p.1.duplicate()));
            }
            proof {
                assert(entries_view(rebuilt@) =~= rb0.push(target[i as int]));
                assert(entries_view(rebuilt@) =~= target.subrange(0, i + 1));
            }
            i += 1;
        }
        self.entries = rebuilt;
        proof {
            assert(entries_view(self.entries@) =~= target);
            assert(self@ == pin_spec(oldv, font_name@));
            lemma_set_flag_wf(oldv, self@, font_name@, true);
        }
    }

    /// Removes the name from the pinned set and lowers a resident
    /// entry's pin flag.
    #[verifier::loop_isolation(false)]
    pub fn unpin_font(&mut self, font_name: &str)
        requires
            cache_wf(old(self)@),
        ensures
            final(self)@ == unpin_spec(old(self)@, font_name@),
            cache_wf(final(self)@),
    {
        let ghost oldv = self@;
        let mut kept: Vec<String> = Vec::new();
        proof {
            assert(names_view(self.pinned@).skip(0) =~= names_view(self.pinned@));
            assert(names_view(kept@) =~= Seq::<Seq<char>>::empty());
            assert(names_view(kept@) + remove_name(names_view(self.pinned@), font_name@)
                =~= remove_name(oldv.pinned, font_name@));
        }
        let mut i: usize = 0;
        while i < self.pinned.len()
            invariant
                i <= self.pinned@.len(),
                remove_name(oldv.pinned, font_name@) == names_view(kept@) + remove_name(
                    names_view(self.pinned@).skip(i as int),
                    font_name@,
                ),
                self@ == oldv,
                forall|j: int|
                    0 <= j < kept@.len() ==> exists|k: int|
                        0 <= k < oldv.pinned.len() && oldv.pinned[k] == (#[trigger] names_view(
                            kept@,
                        )[j]),
            decreases self.pinned@.len() - i,
        {
            let ghost pv = names_view(self.pinned@);
            proof {
                assert(pv.skip(i as int)[0] == pv[i as int]);
                assert(pv.skip(i as int).drop_first() =~= pv.skip(i + 1));
            }
            if str_eq(self.pinned[i].as_str(), font_name) {
            } else {
                let ghost keptv0 = names_view(kept@);
                kept.push(self.pinned[i].clone());
                proof {
                    assert(names_view(kept@) =~= keptv0.push(pv[i as int]));
                    assert(names_view(kept@) + remove_name(pv.skip(i + 1), font_name@)
                        =~= keptv0 + remove_name(pv.skip(i as int), font_name@));
                }
            }
            i += 1;
        }
        proof {
            let ghost pv = names_view(self.pinned@);
            assert(pv.skip(pv.len() as int) =~= Seq::<Seq<char>>::empty());
            assert(names_view(kept@) =~= remove_name(oldv.pinned, font_name@));
        }
        self.pinned = kept;
        let n = self.entries.len();
        let ghost ev0 = entries_view(self.entries@);
        let ghost target = set_pin_flag(ev0, font_name@, false);
        let mut rebuilt: Vec<(String, CacheEntry)> = Vec::new();
        let mut i: usize = 0;
        while i < n
            invariant
                self.entries@.len() == n,
                i <= n,
                entries_view(rebuilt@) == target.subrange(0, i as int),
            decreases n - i,
        {
            let p = &self.entries[i];
            let ghost rb0 = entries_view(rebuilt@);
            if str_eq(p.0.as_str(), font_name) {
                let mut e = p.1.duplicate();
                e.is_pinned = false;
                rebuilt.push((p.0.clone(), e));
            } else {
                rebuilt.push((p.0.clone(), p.1.duplicate()));
            }
            proof {
                assert(entries_view(rebuilt@) =~= rb0.push(target[i as int]));
                assert(entries_view(rebuilt@) =~= target.subrange(0, i + 1));
            }
            i += 1;
        }
        self.entries = rebuilt;
        proof {
            assert(entries_view(self.entries@) =~= target);
            assert(self@ == unpin_spec(oldv, font_name@));
            lemma_set_flag_wf_unpin(oldv, self@, font_name@);
        }
    }

    pub fn list_pinned(&self) -> (r: Vec<String>)
        ensures
            names_view(r@) == self@.pinned,
    {
        let mut r: Vec<String> = Vec::new();
        let mut i: usize = 0;
        while i < self.pinned.len()
            invariant
                i <= self.pinned@.len(),
                names_view(r@) == names_view(self.pinned@).subrange(0, i as int),
            decreases self.pinned@.len() - i,
        {
            let ghost rv = names_view(r@);
            r.push(self.pinned[i].clone());
            proof {
                assert(names_view(r@) =~= rv.push(names_view(self.pinned@)[i as int]));
                assert(names_view(r@) =~= names_view(self.pinned@).subrange(0, i + 1));
            }
            i += 1;
        }
        proof {
            assert(names_view(self.pinned@).subrange(0, self.pinned@.len() as int) =~= names_view(
                self.pinned@,
            ));
        }
        r
    }

    /// Estimated memory use in bytes; within quota by the invariant.
    #[verifier::loop_isolation(false)]
    fn current_memory_usage(&self) -> (r: usize)
        requires
            cache_wf(self@),
        ensures
            r == mem_usage(self@.entries),
    {
        let ghost ev = entries_view(self.entries@);
        proof {
            lemma_usage_split(ev, 0);
        }
        let mut acc: usize = 0;
        let mut i: usize = 0;
        while i < self.entries.len()
            invariant
                ev == entries_view(self.entries@),
                i <= ev.len(),
                acc + mem_usage(ev.skip(i as int)) == mem_usage(ev),
                acc <= self@.memory_limit_bytes,
            decreases ev.len() - i,
        {
            proof {
                assert(ev.skip(i as int)[0] == ev[i as int]);
                assert(ev.skip(i as int).drop_first() =~= ev.skip(i + 1));
                lemma_usage_nonneg(ev.skip(i + 1));
                assert(ev[i as int].1.estimated_size_kb * 1024 + acc <= self@.memory_limit_bytes);
            }
            acc = acc + self.entries[i].1.estimated_size_kb * 1024;
            i += 1;
        }
        proof {
            assert(ev.skip(ev.len() as int) =~= Seq::<(Seq<char>, CacheEntryV)>::empty());
        }
        acc
    }
}

/// Pin-flag updates keep the well-formedness invariant.
proof fn lemma_set_flag_wf(oldc: CacheV, newc: CacheV, name: Seq<char>, v: bool)
    requires
        cache_wf(oldc),
        newc == pin_spec(oldc, name),
    ensures
        cache_wf(newc),
{
    let es = oldc.entries;
    let r = newc.entries;
    assert(r == set_pin_flag(es, name, true));
    assert(forall|j: int| 0 <= j < r.len() ==> (#[trigger] r[j]).0 == es[j].0);
    lemma_usage_flag_eq(es, r);
    if !pinned_has(oldc.pinned, name) {
        let p = newc.pinned;
        assert forall|i: int, j: int| 0 <= i < j < p.len() implies (#[trigger] p[i])
            != (#[trigger] p[j]) by {
            if j == p.len() - 1 {
                assert(p[j] == name);
                assert(p[i] == oldc.pinned[i]);
                assert(!(oldc.pinned[i] == name));
            }
        }
    }
}

proof fn lemma_set_flag_wf_unpin(oldc: CacheV, newc: CacheV, name: Seq<char>)
    requires
        cache_wf(oldc),
        newc == unpin_spec(oldc, name),
    ensures
        cache_wf(newc),
{
    let es = oldc.entries;
    let r = newc.entries;
    assert(forall|j: int| 0 <= j < r.len() ==> (#[trigger] r[j]).0 == es[j].0);
    lemma_usage_flag_eq(es, r);
    lemma_remove_name_unique(oldc.pinned, name);
}

/// Two entry lists of equal length and sizes have equal memory use.
proof fn lemma_usage_flag_eq(a: Seq<(Seq<char>, CacheEntryV)>, b: Seq<(Seq<char>, CacheEntryV)>)
    requires
        a.len() == b.len(),
        forall|j: int|
            0 <= j < a.len() ==> (#[trigger] b[j]).1.estimated_size_kb
                == a[j].1.estimated_size_kb,
    ensures
        mem_usage(b) == mem_usage(a),
    decreases a.len(),
{
    if a.len() > 0 {
        let da = a.drop_first();
        let db = b.drop_first();
        assert(forall|j: int|
            0 <= j < da.len() ==> (#[trigger] db[j]).1.estimated_size_kb
                == da[j].1.estimated_size_kb);
        lemma_usage_flag_eq(da, db);
    }
}

proof fn lemma_remove_name_unique(ps: Seq<Seq<char>>, name: Seq<char>)
    requires
        forall|i: int, j: int| 0 <= i < j < ps.len() ==> (#[trigger] ps[i]) != (#[trigger] ps[j]),
    ensures
        ({
            let r = remove_name(ps, name);
            forall|i: int, j: int| 0 <= i < j < r.len() ==> (#[trigger] r[i]) != (#[trigger] r[j])
        }),
    decreases ps.len(),
{
    if ps.len() > 0 {
        let d = ps.drop_first();
        assert(forall|i: int, j: int|
            0 <= i < j < d.len() ==> (#[trigger] d[i]) != (#[trigger] d[j]));
        lemma_remove_name_unique(d, name);
        if ps[0] != name {
            let rest = remove_name(d, name);
            let whole = seq![ps[0]] + rest;
            lemma_remove_name_sub(d, name);
            assert forall|i: int, j: int| 0 <= i < j < whole.len() implies (#[trigger] whole[i])
                != (#[trigger] whole[j]) by {
                if i == 0 {
                    assert(whole[j] == rest[j - 1]);
                    let k = choose|k: int| 0 <= k < d.len() && d[k] == rest[j - 1];
                    assert(ps[0] != d[k]);
                } else {
                    assert(whole[i] == rest[i - 1] && whole[j] == rest[j - 1]);
                }
            }
        }
    }
}

proof fn lemma_remove_name_sub(ps: Seq<Seq<char>>, name: Seq<char>)
    ensures
        forall|j: int|
            0 <= j < remove_name(ps, name).len() ==> exists|k: int|
                0 <= k < ps.len() && ps[k] == #[trigger] remove_name(ps, name)[j],
    decreases ps.len(),
{
    if ps.len() > 0 {
        let d = ps.drop_first();
        lemma_remove_name_sub(d, name);
        let rest = remove_name(d, name);
        if ps[0] != name {
            let whole = remove_name(ps, name);
            assert(whole == seq![ps[0]] + rest);
            assert forall|j: int| 0 <= j < whole.len() implies exists|k: int|
                0 <= k < ps.len() && ps[k] == #[trigger] whole[j] by {
                if j == 0 {
                    assert(ps[0] == whole[0]);
                } else {
                    assert(whole[j] == rest[j - 1]);
                    let k = choose|k: int| 0 <= k < d.len() && d[k] == rest[j - 1];
                    assert(ps[k + 1] == whole[j]);
                }
            }
        } else {
            assert forall|j: int| 0 <= j < remove_name(ps, name).len() implies exists|k: int|
                0 <= k < ps.len() && ps[k] == #[trigger] remove_name(ps, name)[j] by {
                assert(remove_name(ps, name) == rest);
                let k = choose|k: int| 0 <= k < d.len() && d[k] == rest[j];
                assert(ps[k + 1] == rest[j]);
            }
        }
    }
}

// ----- access-count lemmas --------------------------------------------------

proof fn lemma_ac_bump_keysub(acs: Seq<(Seq<char>, u32)>, name: Seq<char>)
    ensures
        forall|j: int|
            0 <= j < ac_bump(acs, name).len() ==> ((#[trigger] ac_bump(acs, name)[j]).0 == name
                || exists|k: int| 0 <= k < acs.len() && acs[k].0 == ac_bump(acs, name)[j].0),
    decreases acs.len(),
{
    let r = ac_bump(acs, name);
    if acs.len() == 0 {
        assert(r[0].0 == name);
    } else if acs[0].0 == name {
        assert forall|j: int| 0 <= j < r.len() implies ((#[trigger] r[j]).0 == name || exists|
            k: int,
        | 0 <= k < acs.len() && acs[k].0 == r[j].0) by {
            if j > 0 {
                assert(r[j] == acs.drop_first()[j - 1]);
                assert(acs[j] == r[j]);
            }
        }
    } else {
        let d = acs.drop_first();
        lemma_ac_bump_keysub(d, name);
        let rest = ac_bump(d, name);
        assert(r == seq![acs[0]] + rest);
        assert forall|j: int| 0 <= j < r.len() implies ((#[trigger] r[j]).0 == name || exists|
            k: int,
        | 0 <= k < acs.len() && acs[k].0 == r[j].0) by {
            if j == 0 {
                assert(acs[0].0 == r[0].0);
            } else {
                assert(r[j] == rest[j - 1]);
                if rest[j - 1].0 != name {
                    let k = choose|k: int| 0 <= k < d.len() && d[k].0 == rest[j - 1].0;
                    assert(acs[k + 1].0 == r[j].0);
                }
            }
        }
    }
}

proof fn lemma_ac_bump_unique(acs: Seq<(Seq<char>, u32)>, name: Seq<char>)
    requires
        forall|i: int, j: int|
            0 <= i < j < acs.len() ==> (#[trigger] acs[i]).0 != (#[trigger] acs[j]).0,
    ensures
        ({
            let r = ac_bump(acs, name);
            forall|i: int, j: int| 0 <= i < j < r.len() ==> (#[trigger] r[i]).0 != (#[trigger] r[j]).0
        }),
    decreases acs.len(),
{
    let r = ac_bump(acs, name);
    if acs.len() == 0 {
    } else if acs[0].0 == name {
        assert forall|i: int, j: int| 0 <= i < j < r.len() implies (#[trigger] r[i]).0
            != (#[trigger] r[j]).0 by {
            if i == 0 {
                assert(r[j] == acs.drop_first()[j - 1]);
                assert(acs[j].0 != acs[0].0);
            } else {
                assert(r[i] == acs[i] && r[j] == acs[j]);
            }
        }
    } else {
        let d = acs.drop_first();
        assert(forall|i: int, j: int|
            0 <= i < j < d.len() ==> (#[trigger] d[i]).0 != (#[trigger] d[j]).0);
        lemma_ac_bump_unique(d, name);
        lemma_ac_bump_keysub(d, name);
        let rest = ac_bump(d, name);
        assert(r == seq![acs[0]] + rest);
        assert forall|i: int, j: int| 0 <= i < j < r.len() implies (#[trigger] r[i]).0
            != (#[trigger] r[j]).0 by {
            if i == 0 {
                assert(r[j] == rest[j - 1]);
                if rest[j - 1].0 == name {
                    assert(acs[0].0 != name);
                } else {
                    let k = choose|k: int| 0 <= k < d.len() && d[k].0 == rest[j - 1].0;
                    assert(acs[0].0 != d[k].0);
                }
            } else {
                assert(r[i] == rest[i - 1] && r[j] == rest[j - 1]);
            }
        }
    }
}

proof fn lemma_ac_remove_unique(acs: Seq<(Seq<char>, u32)>, name: Seq<char>)
    requires
        forall|i: int, j: int|
            0 <= i < j < acs.len() ==> (#[trigger] acs[i]).0 != (#[trigger] acs[j]).0,
    ensures
        ({
            let r = ac_remove(acs, name);
            forall|i: int, j: int| 0 <= i < j < r.len() ==> (#[trigger] r[i]).0 != (#[trigger] r[j]).0
        }),
    decreases acs.len(),
{
    if acs.len() > 0 {
        let d = acs.drop_first();
        assert(forall|i: int, j: int|
            0 <= i < j < d.len() ==> (#[trigger] d[i]).0 != (#[trigger] d[j]).0);
        lemma_ac_remove_unique(d, name);
        if acs[0].0 != name {
            let rest = ac_remove(d, name);
            let whole = seq![acs[0]] + rest;
            lemma_ac_remove_sub(d, name);
            assert forall|i: int, j: int| 0 <= i < j < whole.len() implies (#[trigger] whole[i]).0
                != (#[trigger] whole[j]).0 by {
                if i == 0 {
                    assert(whole[j] == rest[j - 1]);
                    let k = choose|k: int| 0 <= k < d.len() && d[k] == rest[j - 1];
                    assert(acs[0].0 != d[k].0);
                } else {
                    assert(whole[i] == rest[i - 1] && whole[j] == rest[j - 1]);
                }
            }
        }
    }
}

proof fn lemma_ac_remove_sub(acs: Seq<(Seq<char>, u32)>, name: Seq<char>)
    ensures
        forall|j: int|
            0 <= j < ac_remove(acs, name).len() ==> exists|k: int|
                0 <= k < acs.len() && acs[k] == #[trigger] ac_remove(acs, name)[j],
    decreases acs.len(),
{
    if acs.len() > 0 {
        let d = acs.drop_first();
        lemma_ac_remove_sub(d, name);
        let rest = ac_remove(d, name);
        if acs[0].0 != name {
            let whole = ac_remove(acs, name);
            assert(whole == seq![acs[0]] + rest);
            assert forall|j: int| 0 <= j < whole.len() implies exists|k: int|
                0 <= k < acs.len() && acs[k] == #[trigger] whole[j] by {
                if j == 0 {
                    assert(acs[0] == whole[0]);
                } else {
                    assert(whole[j] == rest[j - 1]);
                    let k = choose|k: int| 0 <= k < d.len() && d[k] == rest[j - 1];
                    assert(acs[k + 1] == whole[j]);
                }
            }
        } else {
            assert forall|j: int| 0 <= j < ac_remove(acs, name).len() implies exists|k: int|
                0 <= k < acs.len() && acs[k] == #[trigger] ac_remove(acs, name)[j] by {
                assert(ac_remove(acs, name) == rest);
                let k = choose|k: int| 0 <= k < d.len() && d[k] == rest[j];
                assert(acs[k + 1] == rest[j]);
            }
        }
    }
}

proof fn lemma_cleanup_unique(es: Seq<(Seq<char>, CacheEntryV)>, aggressive: bool, now: u64)
    requires
        forall|i: int, j: int|
            0 <= i < j < es.len() ==> (#[trigger] es[i]).0 != (#[trigger] es[j]).0,
    ensures
        ({
            let r = cleanup_entries(es, aggressive, now);
            forall|i: int, j: int| 0 <= i < j < r.len() ==> (#[trigger] r[i]).0 != (#[trigger] r[j]).0
        }),
    decreases es.len(),
{
    if es.len() > 0 {
        let d = es.drop_first();
        assert(forall|i: int, j: int|
            0 <= i < j < d.len() ==> (#[trigger] d[i]).0 != (#[trigger] d[j]).0);
        lemma_cleanup_unique(d, aggressive, now);
        if !evicts(es[0].1, aggressive, now) {
            let rest = cleanup_entries(d, aggressive, now);
            let whole = seq![es[0]] + rest;
            lemma_cleanup_sub(d, aggressive, now);
            assert forall|i: int, j: int| 0 <= i < j < whole.len() implies (#[trigger] whole[i]).0
                != (#[trigger] whole[j]).0 by {
                if i == 0 {
                    assert(whole[j] == rest[j - 1]);
                    let k = choose|k: int| 0 <= k < d.len() && d[k] == rest[j - 1];
                    assert(es[0].0 != d[k].0);
                } else {
                    assert(whole[i] == rest[i - 1] && whole[j] == rest[j - 1]);
                }
            }
        }
    }
}

/// Clips a mathematical size to the machine word.
pub open spec fn cap_usize(x: int) -> usize {
    if x > usize::MAX {
        usize::MAX
    } else if x < 0 {
        0
    } else {
        x as usize
    }
}

// ----- the time-dependent operations ---------------------------------------

impl HybridFontCache {
    /// Bumps the access count of `font_name`, saturating, and reports
    /// the new count.
    #[verifier::loop_isolation(false)]
    fn bump_access_count(&mut self, font_name: &str) -> (cnt: u32)
        requires
            cache_wf(old(self)@),
        ensures
            final(self)@ == (CacheV {
                access_counts: ac_bump(old(self)@.access_counts, font_name@),
                ..old(self)@
            }),
            cnt == bumped(ac_get(old(self)@.access_counts, font_name@)),
            cache_wf(final(self)@),
    {
        let ghost oldv = self@;
        let ghost av = counts_view(self.access_counts@);
        let mut out: Vec<(String, u32)> = Vec::new();
        let mut found = false;
        let mut cnt: u32 = 1;
        proof {
            assert(av.skip(0) =~= av);
            assert(counts_view(out@) =~= Seq::<(Seq<char>, u32)>::empty());
            assert(counts_view(out@) + ac_bump(av, font_name@) =~= ac_bump(av, font_name@));
        }
        let mut i: usize = 0;
        while i < self.access_counts.len()
            invariant
                i <= av.len(),
                av == counts_view(self.access_counts@),
                !found ==> counts_view(out@) + ac_bump(av.skip(i as int), font_name@) == ac_bump(
                    av,
                    font_name@,
                ) && (forall|j: int| 0 <= j < i ==> (#[trigger] av[j]).0 != font_name@),
                found ==> counts_view(out@) + av.skip(i as int) == ac_bump(av, font_name@) && cnt
                    == bumped(ac_get(av, font_name@)),
            decreases av.len() - i,
        {
            proof {
                assert(av.skip(i as int)[0] == av[i as int]);
                assert(av.skip(i as int).drop_first() =~= av.skip(i + 1));
            }
            let p_key_matches = !found && str_eq(self.access_counts[i].0.as_str(), font_name);
            let ghost out0 = counts_view(out@);
            if p_key_matches {
                let c = self.access_counts[i].1;
                cnt = if c < 0xffff_ffff {
                    c + 1
                } else {
                    c
                };
                out.push((self.access_counts[i].0.clone(), cnt));
                found = true;
                proof {
                    lemma_ac_skip(av, font_name@, i as int);
                    assert(ac_get(av, font_name@) == Some(av[i as int].1));
                    assert(counts_view(out@) =~= out0.push((font_name@, cnt)));
                    assert(ac_bump(av.skip(i as int), font_name@) =~= seq![
                        (font_name@, bumped(Some(av[i as int].1))),
                    ] + av.skip(i + 1));
                    assert(counts_view(out@) + av.skip(i + 1) =~= out0 + ac_bump(
                        av.skip(i as int),
                        font_name@,
                    ));
                }
            } else {
                out.push((self.access_counts[i].0.clone(), self.access_counts[i].1));
                proof {
                    assert(counts_view(out@) =~= out0.push(av[i as int]));
                    if found {
                        assert(counts_view(out@) + av.skip(i + 1) =~= out0 + av.skip(i as int));
                    } else {
                        assert(av[i as int].0 != font_name@);
                        assert(ac_bump(av.skip(i as int), font_name@) =~= seq![av[i as int]]
                            + ac_bump(av.skip(i + 1), font_name@));
                        assert(counts_view(out@) + ac_bump(av.skip(i + 1), font_name@) =~= out0
                            + ac_bump(av.skip(i as int), font_name@));
                    }
                }
            }
            i += 1;
        }
        proof {
            assert(av.skip(av.len() as int) =~= Seq::<(Seq<char>, u32)>::empty());
        }
        if !found {
            let ghost out0 = counts_view(out@);
            out.push((font_name.to_owned(), 1));
            cnt = 1;
            proof {
                lemma_ac_skip(av, font_name@, av.len() as int);
                assert(ac_get(av, font_name@) is None);
                assert(ac_bump(Seq::<(Seq<char>, u32)>::empty(), font_name@) =~= seq![
                    (font_name@, 1u32),
                ]);
                assert(counts_view(out@) =~= out0.push((font_name@, 1u32)));
                assert(counts_view(out@) =~= ac_bump(av, font_name@));
            }
        } else {
            proof {
                assert(counts_view(out@) =~= ac_bump(av, font_name@));
            }
        }
        self.access_counts = out;
        proof {
            lemma_ac_bump_unique(av, font_name@);
        }
        cnt
    }

    /// `get` at an explicit time: bumps the count, applies the auto-pin
    /// rule, and on a hit refreshes the entry's timestamp and recency.
    pub fn get_at(&mut self, font_name: &str, now: u64) -> (r: Option<FontDescriptor>)
        requires
            cache_wf(old(self)@),
        ensures
            final(self)@ == get_spec(old(self)@, font_name@, now).0,
            match r {
                Some(f) => get_spec(old(self)@, font_name@, now).1 == Some(f@),
                None => get_spec(old(self)@, font_name@, now).1 is None,
            },
            cache_wf(final(self)@),
    {
        let ghost oldv = self@;
        let cnt = self.bump_access_count(font_name);
        let ghost c1 = self@;
        if self.auto_pin_threshold > 0 && cnt >= self.auto_pin_threshold && !self.is_pinned(
            font_name,
        ) {
            self.pin_font(font_name);
        }
        let ghost c2 = self@;
        match find_idx(&self.entries, font_name) {
            Some(i) => {
                let ghost ev = entries_view(self.entries@);
                proof {
                    assert(forall|j: int, k: int|
                        0 <= j < k < ev.len() ==> (#[trigger] ev[j]).0 != (#[trigger] ev[k]).0);
                    assert(forall|j: int|
                        0 <= j < ev.len() && j != i ==> (#[trigger] ev[j]).0 != font_name@);
                    lemma_remove_key_is_remove_idx(ev, font_name@, i as int);
                    lemma_usage_remove_idx(ev, i as int);
                }
                let pair = self.entries.remove(i);
                let result = pair.1.font.duplicate();
                let mut e = pair.1;
                e.last_accessed = now;
                proof {
                    assert(entries_view(self.entries@) =~= ev.remove(i as int));
                }
                let ghost ev_removed = entries_view(self.entries@);
                self.entries.push((pair.0, e));
                proof {
                    assert(entries_view(self.entries@) =~= ev_removed.push(
                        (font_name@, CacheEntryV { last_accessed: now, ..ev[i as int].1 }),
                    ));
                    lemma_usage_push(
                        ev_removed,
                        (font_name@, CacheEntryV { last_accessed: now, ..ev[i as int].1 }),
                    );
                    lemma_remove_key_absent(ev, font_name@);
                    lemma_remove_push_unique(ev, font_name@, CacheEntryV {
                        last_accessed: now,
                        ..ev[i as int].1
                    });
                }
                Some(result)
            },
            None => {
                None
            },
        }
    }

    /// `get` against the wall clock.
    pub fn get(&mut self, font_name: &str) -> (r: Option<FontDescriptor>)
        requires
            cache_wf(old(self)@),
        ensures
            exists|now: u64|
                final(self)@ == get_spec(old(self)@, font_name@, now).0 && (match r {
                    Some(f) => get_spec(old(self)@, font_name@, now).1 == Some(f@),
                    None => get_spec(old(self)@, font_name@, now).1 is None,
                }),
            cache_wf(final(self)@),
    {
        let now = now_unix_secs();
        let r = self.get_at(font_name, now);
        proof {
            assert(final(self)@ == get_spec(old(self)@, font_name@, now).0);
        }
        r
    }

    /// `put` at an explicit time.  Fails exactly when the projected
    /// memory or disk use would exceed the configured quota; otherwise
    /// the face is stored as the most recent entry.
    pub fn put_at(&mut self, font_name: &str, font: FontDescriptor, now: u64) -> (r: FontResult<
        (),
    >)
        requires
            cache_wf(old(self)@),
        ensures
            put_over_memory(old(self)@, font@) ==> ({
                &&& final(self)@ == old(self)@
                &&& r matches Err(FontError::MemoryLimitExceeded(a, b))
                &&& a == mem_usage(old(self)@.entries) / 1024 + estimate_kb(font@)
                &&& b == old(self)@.memory_limit_bytes / 1048576
            }),
            !put_over_memory(old(self)@, font@) && put_over_disk(old(self)@, font@) ==> ({
                &&& final(self)@ == old(self)@
                &&& r matches Err(FontError::DiskLimitExceeded(a, b))
                &&& a == cap_usize(old(self)@.entries.len() * 100 + estimate_kb(font@))
                &&& b == old(self)@.disk_limit_bytes / 1048576
            }),
            !put_over_memory(old(self)@, font@) && !put_over_disk(old(self)@, font@) ==> r is Ok
                && final(self)@ == put_ok_state(old(self)@, font_name@, font@, now),
            cache_wf(final(self)@),
    {
        let ghost oldv = self@;
        let kb: usize = 50 + (if font.variable {
            100
        } else {
            0
        }) + (if font.metrics.is_some() {
            20
        } else {
            0
        });
        proof {
            assert(kb == estimate_kb(font@));
        }
        let usage = self.current_memory_usage();
        let needed = kb * 1024;
        if needed > self.memory_limit_bytes - usage {
            return Err(
                FontError::MemoryLimitExceeded(usage / 1024 + kb, self.memory_limit_bytes / 1048576),
            );
        }
        let disk_est: u128 = (self.entries.len() as u128) * 102400 + (needed as u128);
        if disk_est > self.disk_limit_bytes as u128 {
            let a128: u128 = (self.entries.len() as u128) * 100 + (kb as u128);
            let a: usize = if a128 > usize::MAX as u128 {
                usize::MAX
            } else {
                a128 as usize
            };
            return Err(FontError::DiskLimitExceeded(a, self.disk_limit_bytes / 1048576));
        }
        let pinned = self.is_pinned(font_name);
        let entry = CacheEntry {
            font,
            access_count: 1,
            last_accessed: now,
            created_at: now,
            is_pinned: pinned,
            estimated_size_kb: kb,
        };
        let ghost ev = entries_view(self.entries@);
        match find_idx(&self.entries, font_name) {
            Some(i) => {
                proof {
                    assert(forall|j: int|
                        0 <= j < ev.len() && j != i ==> (#[trigger] ev[j]).0 != font_name@);
                    lemma_remove_key_is_remove_idx(ev, font_name@, i as int);
                    lemma_usage_remove_idx(ev, i as int);
                    lemma_usage_nonneg(ev.remove(i as int));
                }
                let _ = self.entries.remove(i);
                proof {
                    assert(entries_view(self.entries@) =~= ev.remove(i as int));
                }
            },
            None => {
                proof {
                    lemma_remove_key_noop(ev, font_name@);
                }
            },
        }
        let ghost ev_removed = entries_view(self.entries@);
        let ghost fview = entry.font@;
        self.entries.push((font_name.to_owned(), entry));
        proof {
            let newe = put_entry(oldv, fview, font_name@, now);
            assert(entries_view(self.entries@) =~= ev_removed.push((font_name@, newe)));
            lemma_usage_push(ev_removed, (font_name@, newe));
            lemma_remove_key_usage(ev, font_name@);
            lemma_remove_push_unique(ev, font_name@, newe);
            assert(mem_usage(ev_removed) <= mem_usage(ev));
            assert(mem_usage(entries_view(self.entries@)) <= self@.memory_limit_bytes);
            assert(self@ == put_ok_state(oldv, font_name@, fview, now));
            assert(cache_wf(self@));
        }
        Ok(())
    }

    /// `put` against the wall clock.
    pub fn put(&mut self, font_name: &str, font: FontDescriptor) -> (r: FontResult<()>)
        requires
            cache_wf(old(self)@),
        ensures
            put_over_memory(old(self)@, font@) ==> (final(self)@ == old(self)@ && r is Err
                && r->Err_0 is MemoryLimitExceeded),
            !put_over_memory(old(self)@, font@) && put_over_disk(old(self)@, font@) ==> (
            final(self)@ == old(self)@ && r is Err && r->Err_0 is DiskLimitExceeded),
            !put_over_memory(old(self)@, font@) && !put_over_disk(old(self)@, font@) ==> r is Ok
                && (exists|now: u64|
                final(self)@ == put_ok_state(old(self)@, font_name@, font@, now)),
            cache_wf(final(self)@),
    {
        let now = now_unix_secs();
        let ghost f = font@;
        let r = self.put_at(font_name, font, now);
        r
    }

    /// Inserts an entry loaded from the disk level, if the quota allows.
    pub fn insert_loaded(&mut self, font_name: &str, entry: CacheEntry) -> (r: bool)
        requires
            cache_wf(old(self)@),
            entry.estimated_size_kb * 1024 <= usize::MAX,
        ensures
            mem_usage(old(self)@.entries) + entry@.estimated_size_kb * 1024 <= old(
                self,
            )@.memory_limit_bytes ==> (r && final(self)@ == (CacheV {
                entries: remove_key(old(self)@.entries, font_name@).push((font_name@, entry@)),
                ..old(self)@
            })),
            mem_usage(old(self)@.entries) + entry@.estimated_size_kb * 1024 > old(
                self,
            )@.memory_limit_bytes ==> (!r && final(self)@ == old(self)@),
            cache_wf(final(self)@),
    {
        let ghost oldv = self@;
        let usage = self.current_memory_usage();
        let needed = entry.estimated_size_kb * 1024;
        if needed > self.memory_limit_bytes - usage {
            return false;
        }
        let ghost ev = entries_view(self.entries@);
        match find_idx(&self.entries, font_name) {
            Some(i) => {
                proof {
                    assert(forall|j: int|
                        0 <= j < ev.len() && j != i ==> (#[trigger] ev[j]).0 != font_name@);
                    lemma_remove_key_is_remove_idx(ev, font_name@, i as int);
                    lemma_usage_remove_idx(ev, i as int);
                    lemma_usage_nonneg(ev.remove(i as int));
                }
                let _ = self.entries.remove(i);
                proof {
                    assert(entries_view(self.entries@) =~= ev.remove(i as int));
                }
            },
            None => {
                proof {
                    lemma_remove_key_noop(ev, font_name@);
                }
            },
        }
        let ghost ev_removed = entries_view(self.entries@);
        let ghost entv = entry@;
        self.entries.push((font_name.to_owned(), entry));
        proof {
            assert(entries_view(self.entries@) =~= ev_removed.push((font_name@, entv)));
            lemma_usage_push(ev_removed, (font_name@, entv));
            lemma_remove_key_usage(ev, font_name@);
            lemma_remove_push_unique(ev, font_name@, entv);
        }
        true
    }

    /// Eviction at an explicit time: unpinned entries used only once
    /// (aggressive) or idle for thirty days (normal) leave the memory
    /// level.  The count of removed entries is returned.
    #[verifier::loop_isolation(false)]
    pub fn cleanup_at(&mut self, aggressive: bool, now: u64) -> (r: FontResult<usize>)
        requires
            cache_wf(old(self)@),
        ensures
            final(self)@ == (CacheV {
                entries: cleanup_entries(old(self)@.entries, aggressive, now),
                ..old(self)@
            }),
            r matches Ok(n) && n == old(self)@.entries.len() - cleanup_entries(
                old(self)@.entries,
                aggressive,
                now,
            ).len(),
            cache_wf(final(self)@),
    {
        let ghost oldv = self@;
        let ghost ev = entries_view(self.entries@);
        let mut kept: Vec<(String, CacheEntry)> = Vec::new();
        proof {
            assert(ev.skip(0) =~= ev);
            assert(entries_view(kept@) =~= Seq::<(Seq<char>, CacheEntryV)>::empty());
            assert(entries_view(kept@) + cleanup_entries(ev, aggressive, now) =~= cleanup_entries(
                ev,
                aggressive,
                now,
            ));
        }
        let mut i: usize = 0;
        while i < self.entries.len()
            invariant
                i <= ev.len(),
                ev == entries_view(self.entries@),
                cleanup_entries(ev, aggressive, now) == entries_view(kept@) + cleanup_entries(
                    ev.skip(i as int),
                    aggressive,
                    now,
                ),
            decreases ev.len() - i,
        {
            proof {
                assert(ev.skip(i as int)[0] == ev[i as int]);
                assert(ev.skip(i as int).drop_first() =~= ev.skip(i + 1));
            }
            let p = &self.entries[i];
            let evict = !p.1.is_pinned && (if aggressive {
                p.1.access_count == 1
            } else {
                now > p.1.last_accessed && now - p.1.last_accessed > DAYS_30
            });
            if !evict {
                let ghost k0 = entries_view(kept@);
                kept.push((p.0.clone(), p.1.duplicate()));
                proof {
                    assert(entries_view(kept@) =~= k0.push(ev[i as int]));
                    assert(entries_view(kept@) + cleanup_entries(ev.skip(i + 1), aggressive, now)
                        =~= k0 + cleanup_entries(ev.skip(i as int), aggressive, now));
                }
            }
            i += 1;
        }
        proof {
            assert(ev.skip(ev.len() as int) =~= Seq::<(Seq<char>, CacheEntryV)>::empty());
            assert(entries_view(kept@) =~= cleanup_entries(ev, aggressive, now));
            lemma_cleanup_sub(ev, aggressive, now);
            lemma_cleanup_unique(ev, aggressive, now);
        }
        let removed = self.entries.len() - kept.len();
        self.entries = kept;
        Ok(removed)
    }

    /// Eviction against the wall clock.
    pub fn cleanup(&mut self, aggressive: bool) -> (r: FontResult<usize>)
        requires
            cache_wf(old(self)@),
        ensures
            exists|now: u64|
                final(self)@ == (CacheV {
                    entries: #[trigger] cleanup_entries(old(self)@.entries, aggressive, now),
                    ..old(self)@
                }) && (r matches Ok(n) && n == old(self)@.entries.len() - cleanup_entries(
                    old(self)@.entries,
                    aggressive,
                    now,
                ).len()),
            cache_wf(final(self)@),
    {
        let now = now_unix_secs();
        let r = self.cleanup_at(aggressive, now);
        r
    }
}

/// The state and count after removing a batch of names, in order.
pub open spec fn remove_many_spec(c: CacheV, names: Seq<Seq<char>>, i: int) -> (CacheV, int)
    decreases names.len() - i,
{
    if i < 0 || i >= names.len() {
        (c, 0)
    } else {
        let found = mem_lookup(c.entries, names[i]) is Some;
        let c1 = CacheV {
            entries: remove_key(c.entries, names[i]),
            access_counts: ac_remove(c.access_counts, names[i]),
            ..c
        };
        let rec = remove_many_spec(c1, names, i + 1);
        (
            rec.0,
            rec.1 + if found {
                1int
            } else {
                0int
            },
        )
    }
}

proof fn lemma_remove_many_count(c: CacheV, names: Seq<Seq<char>>, i: int)
    requires
        0 <= i <= names.len(),
    ensures
        0 <= remove_many_spec(c, names, i).1 <= names.len() - i,
    decreases names.len() - i,
{
    if i < names.len() {
        let c1 = CacheV {
            entries: remove_key(c.entries, names[i]),
            access_counts: ac_remove(c.access_counts, names[i]),
            ..c
        };
        lemma_remove_many_count(c1, names, i + 1);
    }
}

impl HybridFontCache {
    /// Drops one face from the memory level and its access count.
    /// Reports whether it was resident.
    pub fn remove_entry(&mut self, font_name: &str) -> (r: FontResult<bool>)
        requires
            cache_wf(old(self)@),
        ensures
            final(self)@ == (CacheV {
                entries: remove_key(old(self)@.entries, font_name@),
                access_counts: ac_remove(old(self)@.access_counts, font_name@),
                ..old(self)@
            }),
            r matches Ok(found) && found == (mem_lookup(old(self)@.entries, font_name@) is Some),
            cache_wf(final(self)@),
    {
        let ghost oldv = self@;
        let ghost ev = entries_view(self.entries@);
        let mut found = false;
        match find_idx(&self.entries, font_name) {
            Some(i) => {
                proof {
                    assert(forall|j: int|
                        0 <= j < ev.len() && j != i ==> (#[trigger] ev[j]).0 != font_name@);
                    lemma_remove_key_is_remove_idx(ev, font_name@, i as int);
                    lemma_usage_remove_idx(ev, i as int);
                }
                let _ = self.entries.remove(i);
                found = true;
                proof {
                    assert(entries_view(self.entries@) =~= ev.remove(i as int));
                }
            },
            None => {
                proof {
                    lemma_remove_key_noop(ev, font_name@);
                }
            },
        }
        let ghost av = counts_view(self.access_counts@);
        let mut kept: Vec<(String, u32)> = Vec::new();
        proof {
            assert(av.skip(0) =~= av);
            assert(counts_view(kept@) =~= Seq::<(Seq<char>, u32)>::empty());
            assert(counts_view(kept@) + ac_remove(av, font_name@) =~= ac_remove(av, font_name@));
        }
        let mut i: usize = 0;
        #[verifier::loop_isolation(false)]
        while i < self.access_counts.len()
            invariant
                i <= av.len(),
                av == counts_view(self.access_counts@),
                ac_remove(av, font_name@) == counts_view(kept@) + ac_remove(
                    av.skip(i as int),
                    font_name@,
                ),
            decreases av.len() - i,
        {
            proof {
                assert(av.skip(i as int)[0] == av[i as int]);
                assert(av.skip(i as int).drop_first() =~= av.skip(i + 1));
            }
            let p = &self.access_counts[i];
            if str_eq(p.0.as_str(), font_name) {
            } else {
                let ghost k0 = counts_view(kept@);
                kept.push((p.0.clone(), p.1));
                proof {
                    assert(counts_view(kept@) =~= k0.push(av[i as int]));
                    assert(counts_view(kept@) + ac_remove(av.skip(i + 1), font_name@) =~= k0
                        + ac_remove(av.skip(i as int), font_name@));
                }
            }
            i += 1;
        }
        proof {
            assert(av.skip(av.len() as int) =~= Seq::<(Seq<char>, u32)>::empty());
            assert(counts_view(kept@) =~= ac_remove(av, font_name@));
        }
        self.access_counts = kept;
        proof {
            lemma_remove_key_unique(oldv.entries, font_name@);
            lemma_remove_key_usage(oldv.entries, font_name@);
            lemma_ac_remove_unique(av, font_name@);
        }
        Ok(found)
    }

    /// Removes several faces; reports how many were resident.
    #[verifier::loop_isolation(false)]
    pub fn remove_entries(&mut self, font_names: &Vec<String>) -> (r: FontResult<usize>)
        requires
            cache_wf(old(self)@),
        ensures
            final(self)@ == remove_many_spec(old(self)@, names_view(font_names@), 0).0,
            r matches Ok(n) && n == remove_many_spec(old(self)@, names_view(font_names@), 0).1,
            cache_wf(final(self)@),
    {
        let ghost oldv = self@;
        let ghost nv = names_view(font_names@);
        let mut count: usize = 0;
        let mut i: usize = 0;
        proof {
            lemma_remove_many_count(oldv, nv, 0);
        }
        while i < font_names.len()
            invariant
                i <= nv.len(),
                count <= i,
                cache_wf(self@),
                remove_many_spec(oldv, nv, 0).0 == remove_many_spec(self@, nv, i as int).0,
                remove_many_spec(oldv, nv, 0).1 == count + remove_many_spec(self@, nv, i as int).1,
            decreases nv.len() - i,
        {
            proof {
                lemma_remove_many_count(self@, nv, i + 1);
            }
            let found = match self.remove_entry(font_names[i].as_str()) {
                Ok(b) => b,
                Err(_) => false,
            };
            if found {
                count += 1;
            }
            i += 1;
        }
        Ok(count)
    }

    /// A snapshot of the cache's shape.  This reads plain fields and a
    /// bounded prefix sum only: it never blocks, touches no lock and
    /// never walks the filesystem, so it returns in bounded time.  Disk
    /// figures are reported as zero by design.
    #[verifier::loop_isolation(false)]
    pub fn stats(&self) -> (r: FontResult<CacheStats>)
        requires
            cache_wf(self@),
        ensures
            r matches Ok(s) && s == (CacheStats {
                memory_entries: self@.entries.len() as usize,
                disk_entries: 0usize,
                pinned_fonts: self@.pinned.len() as usize,
                memory_usage_kb: mem_usage_kb_capped(self@.entries, 1000) as usize,
                disk_usage_kb: 0usize,
            }),
    {
        let ghost ev = entries_view(self.entries@);
        proof {
            lemma_capped_kb_bound(ev, 1000);
            assert(ev.skip(0) =~= ev);
        }
        let mut acc: usize = 0;
        let mut i: usize = 0;
        let cap = if self.entries.len() < 1000 {
            self.entries.len()
        } else {
            1000
        };
        while i < cap
            invariant
                cap <= ev.len(),
                cap <= 1000,
                i <= cap,
                mem_usage_kb_capped(ev, 1000) == acc + mem_usage_kb_capped(
                    ev.skip(i as int),
                    1000 - i,
                ),
                acc * 1024 <= self@.memory_limit_bytes,
            decreases cap - i,
        {
            proof {
                assert(ev.skip(i as int)[0] == ev[i as int]);
                assert(ev.skip(i as int).drop_first() =~= ev.skip(i + 1));
                lemma_capped_kb_bound(ev.skip(i + 1), 1000 - i - 1);
                lemma_capped_kb_bound(ev, 1000);
                lemma_usage_split(ev, 0);
                assert((acc + ev[i as int].1.estimated_size_kb) * 1024 <= self@.memory_limit_bytes)
                    by {
                    assert(acc + ev[i as int].1.estimated_size_kb <= mem_usage_kb_capped(ev, 1000));
                    assert(mem_usage_kb_capped(ev, 1000) * 1024 <= mem_usage(ev));
                }
            }
            acc = acc + self.entries[i].1.estimated_size_kb;
            i += 1;
        }
        proof {
            if cap == 1000 {
                assert(mem_usage_kb_capped(ev.skip(cap as int), 1000 - cap) == 0);
            } else {
                assert(ev.skip(cap as int) =~= Seq::<(Seq<char>, CacheEntryV)>::empty());
            }
        }
        Ok(
            CacheStats {
                memory_entries: self.entries.len(),
                disk_entries: 0,
                pinned_fonts: self.pinned.len(),
                memory_usage_kb: acc,
                disk_usage_kb: 0,
            },
        )
    }

    /// Names the memory entries a cleanup would consider, at an explicit
    /// time: unpinned faces used once or idle for a week.
    #[verifier::loop_isolation(false)]
    pub fn suggest_cleanup_at(&self, now: u64) -> (r: FontResult<Vec<String>>)
        ensures
            r matches Ok(v) && names_view(v@) == suggest_msgs(self@.entries, now),
    {
        let ghost ev = entries_view(self.entries@);
        let mut out: Vec<String> = Vec::new();
        proof {
            assert(ev.skip(0) =~= ev);
            assert(names_view(out@) =~= Seq::<Seq<char>>::empty());
            assert(names_view(out@) + suggest_msgs(ev, now) =~= suggest_msgs(ev, now));
        }
        let mut i: usize = 0;
        while i < self.entries.len()
            invariant
                i <= ev.len(),
                ev == entries_view(self.entries@),
                suggest_msgs(ev, now) == names_view(out@) + suggest_msgs(ev.skip(i as int), now),
            decreases ev.len() - i,
        {
            proof {
                assert(ev.skip(i as int)[0] == ev[i as int]);
                assert(ev.skip(i as int).drop_first() =~= ev.skip(i + 1));
            }
            let p = &self.entries[i];
            let ghost o0 = names_view(out@);
            if !p.1.is_pinned && p.1.access_count == 1 {
                let mut msg: Vec<char> = Vec::new();
                append_lit(&mut msg, "Memory: ");
                let key = string_chars(&p.0);
                crate::text::append_chars(&mut msg, &key);
                append_lit(&mut msg, " (used only once)");
                out.push(chars_string(&msg));
                proof {
                    assert(names_view(out@) =~= o0.push(
                        "Memory: "@ + ev[i as int].0 + " (used only once)"@,
                    ));
                    assert(names_view(out@) + suggest_msgs(ev.skip(i + 1), now) =~= o0
                        + suggest_msgs(ev.skip(i as int), now));
                }
            } else if !p.1.is_pinned && now > p.1.last_accessed && now - p.1.last_accessed
                > DAYS_7 {
                let mut msg: Vec<char> = Vec::new();
                append_lit(&mut msg, "Memory: ");
                let key = string_chars(&p.0);
                crate::text::append_chars(&mut msg, &key);
                append_lit(&mut msg, " (not used in 7 days)");
                out.push(chars_string(&msg));
                proof {
                    assert(names_view(out@) =~= o0.push(
                        "Memory: "@ + ev[i as int].0 + " (not used in 7 days)"@,
                    ));
                    assert(names_view(out@) + suggest_msgs(ev.skip(i + 1), now) =~= o0
                        + suggest_msgs(ev.skip(i as int), now));
                }
            }
            i += 1;
        }
        proof {
            assert(ev.skip(ev.len() as int) =~= Seq::<(Seq<char>, CacheEntryV)>::empty());
            assert(names_view(out@) =~= suggest_msgs(ev, now));
        }
        Ok(out)
    }

    /// Cleanup suggestions against the wall clock.
    pub fn suggest_cleanup(&self) -> (r: FontResult<Vec<String>>)
        ensures
            exists|now: u64|
                r matches Ok(v) && names_view(v@) == #[trigger] suggest_msgs(self@.entries, now),
    {
        let now = now_unix_secs();
        self.suggest_cleanup_at(now)
    }

    /// The access counts, for the embedding program to persist.
    pub fn list_access_counts(&self) -> (r: Vec<(String, u32)>)
        ensures
            counts_view(r@) == self@.access_counts,
    {
        let mut r: Vec<(String, u32)> = Vec::new();
        let mut i: usize = 0;
        while i < self.access_counts.len()
            invariant
                i <= self.access_counts@.len(),
                counts_view(r@) == counts_view(self.access_counts@).subrange(0, i as int),
            decreases self.access_counts@.len() - i,
        {
            let ghost rv = counts_view(r@);
            let p = &self.access_counts[i];
            r.push((p.0.clone(), p.1));
            proof {
                assert(counts_view(r@) =~= rv.push(counts_view(self.access_counts@)[i as int]));
                assert(counts_view(r@) =~= counts_view(self.access_counts@).subrange(0, i + 1));
            }
            i += 1;
        }
        proof {
            assert(counts_view(self.access_counts@).subrange(
                0,
                self.access_counts@.len() as int,
            ) =~= counts_view(self.access_counts@));
        }
        r
    }
}

/// Every element of the removal result comes from the original list.
proof fn lemma_remove_sub(es: Seq<(Seq<char>, CacheEntryV)>, name: Seq<char>)
    ensures
        forall|j: int|
            0 <= j < remove_key(es, name).len() ==> exists|k: int|
                0 <= k < es.len() && es[k] == #[trigger] remove_key(es, name)[j],
    decreases es.len(),
{
    if es.len() > 0 {
        let d = es.drop_first();
        lemma_remove_sub(d, name);
        let rest = remove_key(d, name);
        if es[0].0 != name {
            let whole = remove_key(es, name);
            assert(whole == seq![es[0]] + rest);
            assert forall|j: int| 0 <= j < whole.len() implies exists|k: int|
                0 <= k < es.len() && es[k] == #[trigger] whole[j] by {
                if j == 0 {
                    assert(es[0] == whole[0]);
                } else {
                    assert(whole[j] == rest[j - 1]);
                    let k = choose|k: int| 0 <= k < d.len() && d[k] == rest[j - 1];
                    assert(es[k + 1] == whole[j]);
                }
            }
        } else {
            assert forall|j: int| 0 <= j < remove_key(es, name).len() implies exists|k: int|
                0 <= k < es.len() && es[k] == #[trigger] remove_key(es, name)[j] by {
                assert(remove_key(es, name) == rest);
                let k = choose|k: int| 0 <= k < d.len() && d[k] == rest[j];
                assert(es[k + 1] == rest[j]);
            }
        }
    }
}

} // verus!
