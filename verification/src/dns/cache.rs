//! A bounded cache of DNS responses with expiry and least-recently-used eviction.

use std::collections::VecDeque;

use vstd::prelude::*;

use crate::text::{
    clone_bytes, join, joined, law_join_concatenates, law_split_undoes_join, same_text, texts,
};
use crate::time::{Clock, Duration, Instant, STD_DURATION_LIMIT_NANOS};

verus! {

/// What a cached response answers: a name, a record type and the servers that were candidates.
#[derive(Debug, PartialEq, Eq, Hash)]
pub struct DnsCacheKey {
    pub query_name: String,
    pub query_type: u16,
    pub selection_scope: String,
}

/// A cache key as mathematical values.
#[verifier::ext_equal]
pub struct KeyView {
    pub query_name: Seq<char>,
    pub query_type: u16,
    pub selection_scope: Seq<char>,
}

impl View for DnsCacheKey {
    type V = KeyView;

    open spec fn view(&self) -> KeyView {
        KeyView {
            query_name: self.query_name@,
            query_type: self.query_type,
            selection_scope: self.selection_scope@,
        }
    }
}

impl Clone for DnsCacheKey {
    fn clone(&self) -> (r: Self)
        ensures
            r@ == self@,
    {
        DnsCacheKey {
            query_name: self.query_name.clone(),
            query_type: self.query_type,
            selection_scope: self.selection_scope.clone(),
        }
    }
}

/// The key of a query for `name` and `query_type` among the candidates `servers`.
pub open spec fn cache_key(name: Seq<char>, query_type: u16, servers: Seq<Seq<char>>) -> KeyView {
    KeyView {
        query_name: name,
        query_type,
        selection_scope: joined(servers, seq![',']),
    }
}

impl DnsCacheKey {
    /// The key of a query among candidate servers. The scope is the server tags joined by commas.
    pub fn new(query_name: String, query_type: u16, candidate_server_tags: &Vec<String>) -> (r: Self)
        ensures
            r@ == cache_key(query_name@, query_type, texts(candidate_server_tags@)),
    {
        proof {
            reveal_strlit(",");
            assert(","@ =~= seq![',']);
        }
        DnsCacheKey {
            query_name,
            query_type,
            selection_scope: join(candidate_server_tags, ","),
        }
    }

    fn same(&self, other: &DnsCacheKey) -> (r: bool)
        ensures
            r == (self@ == other@),
    {
        self.query_type == other.query_type && same_text(
            self.query_name.as_str(),
            other.query_name.as_str(),
        ) && same_text(self.selection_scope.as_str(), other.selection_scope.as_str())
    }
}

/// A cached response.
#[derive(Debug, PartialEq, Eq)]
pub struct DnsCacheValue {
    pub raw_message: Vec<u8>,
    pub stored_server_tag: String,
    pub ttl: Duration,
}

/// A cached response as mathematical values.
#[verifier::ext_equal]
pub struct ValueView {
    pub raw_message: Seq<u8>,
    pub stored_server_tag: Seq<char>,
    pub ttl: Duration,
}

impl View for DnsCacheValue {
    type V = ValueView;

    open spec fn view(&self) -> ValueView {
        ValueView {
            raw_message: self.raw_message@,
            stored_server_tag: self.stored_server_tag@,
            ttl: self.ttl,
        }
    }
}

impl Clone for DnsCacheValue {
    fn clone(&self) -> (r: Self)
        ensures
            r@ == self@,
    {
        DnsCacheValue {
            raw_message: clone_bytes(self.raw_message.as_slice()),
            stored_server_tag: self.stored_server_tag.clone(),
            ttl: self.ttl,
        }
    }
}

/// The outcome of a lookup.
#[derive(Debug, PartialEq, Eq)]
pub enum DnsCacheLookup {
    Hit(DnsCacheValue),
    Miss,
    Expired,
}

/// The outcome of a lookup as mathematical values.
#[verifier::ext_equal]
pub enum LookupView {
    Hit(ValueView),
    Miss,
    Expired,
}

impl View for DnsCacheLookup {
    type V = LookupView;

    open spec fn view(&self) -> LookupView {
        match self {
            DnsCacheLookup::Hit(value) => LookupView::Hit(value@),
            DnsCacheLookup::Miss => LookupView::Miss,
            DnsCacheLookup::Expired => LookupView::Expired,
        }
    }
}

#[derive(Debug)]
struct DnsCacheEntry {
    key: DnsCacheKey,
    value: DnsCacheValue,
    expires_at: Instant,
    lru_tick: u64,
}

/// One entry: the response, when it expires and when it was last used.
#[verifier::ext_equal]
pub struct EntryView {
    pub value: ValueView,
    pub expires_at: Instant,
    pub lru_tick: u64,
}

impl DnsCacheEntry {
    spec fn entry(&self) -> EntryView {
        EntryView { value: self.value@, expires_at: self.expires_at, lru_tick: self.lru_tick }
    }
}

/// The bounded cache.
///
/// Every use of an entry stamps it with a fresh tick and appends the key and the tick to the use
/// record, so the record lists uses from the oldest to the newest and an entry is current in it
/// where the tick is the entry's own.
#[derive(Debug)]
pub struct DnsCache {
    capacity: usize,
    next_tick: u64,
    entries: Vec<DnsCacheEntry>,
    lru: VecDeque<(DnsCacheKey, u64)>,
    clock: Clock,
}

/// The cache as mathematical values.
#[verifier::ext_equal]
pub struct CacheView {
    pub capacity: nat,
    pub next_tick: u64,
    pub entries: Map<KeyView, EntryView>,
    pub lru: Seq<(KeyView, u64)>,
}

spec fn entry_map(entries: Seq<DnsCacheEntry>) -> Map<KeyView, EntryView>
    decreases entries.len(),
{
    if entries.len() == 0 {
        Map::empty()
    } else {
        entry_map(entries.drop_last()).insert(entries.last().key@, entries.last().entry())
    }
}

spec fn distinct_keys(entries: Seq<DnsCacheEntry>) -> bool {
    forall|i: int, j: int|
        0 <= i < j < entries.len() ==> (#[trigger] entries[i]).key@ != (#[trigger] entries[j]).key@
}

spec fn use_record(lru: Seq<(DnsCacheKey, u64)>) -> Seq<(KeyView, u64)> {
    lru.map_values(|p: (DnsCacheKey, u64)| (p.0@, p.1))
}

proof fn lemma_entry_map(entries: Seq<DnsCacheEntry>)
    requires
        distinct_keys(entries),
    ensures
        entry_map(entries).dom().finite(),
        entry_map(entries).len() == entries.len(),
        forall|k: KeyView| #[trigger]
            entry_map(entries).contains_key(k) <==> exists|i: int|
                0 <= i < entries.len() && (#[trigger] entries[i]).key@ == k,
        forall|i: int|
            0 <= i < entries.len() ==> entry_map(entries)[(#[trigger] entries[i]).key@]
                == entries[i].entry(),
    decreases entries.len(),
{
    if entries.len() > 0 {
        let front = entries.drop_last();
        assert(distinct_keys(front)) by {
            assert forall|i: int, j: int| 0 <= i < j < front.len() implies (
            #[trigger] front[i]).key@ != (#[trigger] front[j]).key@ by {
                assert(front[i] == entries[i] && front[j] == entries[j]);
            }
        }
        lemma_entry_map(front);
        let last = entries.last();
        assert forall|i: int| 0 <= i < front.len() implies (#[trigger] entries[i]).key@
            != last.key@ by {
            assert(entries[entries.len() - 1] == last);
        }
        assert(!entry_map(front).contains_key(last.key@)) by {
            if entry_map(front).contains_key(last.key@) {
                let i = choose|i: int|
                    0 <= i < front.len() && (#[trigger] front[i]).key@ == last.key@;
                assert(entries[i] == front[i]);
            }
        }
        assert forall|k: KeyView| #[trigger] entry_map(entries).contains_key(k) <==> exists|
            i: int,
        | 0 <= i < entries.len() && (#[trigger] entries[i]).key@ == k by {
            if entry_map(entries).contains_key(k) {
                if k == last.key@ {
                    assert(entries[entries.len() - 1].key@ == k);
                } else {
                    let i = choose|i: int| 0 <= i < front.len() && (#[trigger] front[i]).key@ == k;
                    assert(entries[i].key@ == k);
                }
            }
            if exists|i: int| 0 <= i < entries.len() && (#[trigger] entries[i]).key@ == k {
                let i = choose|i: int|
                    0 <= i < entries.len() && (#[trigger] entries[i]).key@ == k;
                if i < front.len() {
                    assert(front[i].key@ == k);
                }
            }
        }
        assert forall|i: int| 0 <= i < entries.len() implies entry_map(entries)[(
        #[trigger] entries[i]).key@] == entries[i].entry() by {
            if i < front.len() {
                assert(front[i] == entries[i]);
            }
        }
    }
}

/// Two lists of entries with distinct keys that hold the same entries have the same map.
proof fn lemma_entry_map_is(entries: Seq<DnsCacheEntry>, m: Map<KeyView, EntryView>)
    requires
        distinct_keys(entries),
        forall|i: int|
            0 <= i < entries.len() ==> m.contains_key((#[trigger] entries[i]).key@)
                && m[entries[i].key@] == entries[i].entry(),
        forall|k: KeyView| #[trigger]
            m.contains_key(k) ==> exists|i: int|
                0 <= i < entries.len() && (#[trigger] entries[i]).key@ == k,
    ensures
        entry_map(entries) == m,
{
    lemma_entry_map(entries);
    let e = entry_map(entries);
    assert forall|k: KeyView| e.contains_key(k) == m.contains_key(k) && (e.contains_key(k) ==> e[k]
        == m[k]) by {
        if m.contains_key(k) {
            let i = choose|i: int| 0 <= i < entries.len() && (#[trigger] entries[i]).key@ == k;
            assert(entries[i].key@ == k);
        }
        if e.contains_key(k) {
            let i = choose|i: int| 0 <= i < entries.len() && (#[trigger] entries[i]).key@ == k;
            assert(m.contains_key(entries[i].key@));
        }
    }
    assert(e =~= m);
}

impl View for DnsCache {
    type V = CacheView;

    closed spec fn view(&self) -> CacheView {
        CacheView {
            capacity: self.capacity as nat,
            next_tick: self.next_tick,
            entries: entry_map(self.entries@),
            lru: use_record(self.lru@),
        }
    }
}

impl CacheView {
    /// The invariant of the cache: it holds no more entries than its capacity, the ticks of the use
    /// record increase until the counter is spent, and each entry's last use is on record.
    pub open spec fn valid(self) -> bool {
        &&& self.entries.dom().finite()
        &&& self.entries.len() <= self.capacity
        &&& self.recorded()
    }

    /// The part of the invariant that holds while an insertion is under way.
    pub open spec fn recorded(self) -> bool {
        &&& forall|i: int, j: int|
            0 <= i < j < self.lru.len() ==> (#[trigger] self.lru[i]).1 < (#[trigger] self.lru[j]).1
                || self.lru[j].1 == u64::MAX
        &&& forall|i: int|
            0 <= i < self.lru.len() ==> (#[trigger] self.lru[i]).1 < self.next_tick
                || self.next_tick == u64::MAX
        &&& forall|k: KeyView| #[trigger]
            self.entries.contains_key(k) ==> self.lru.contains((k, self.entries[k].lru_tick))
    }

    /// A tick is spent: the counter stops at its maximum.
    pub open spec fn ticked(self) -> CacheView {
        CacheView {
            next_tick: if self.next_tick == u64::MAX {
                u64::MAX
            } else {
                (self.next_tick + 1) as u64
            },
            ..self
        }
    }

    /// The outcome of looking `key` up at `now`.
    pub open spec fn found(self, key: KeyView, now: Instant) -> LookupView {
        if !self.entries.contains_key(key) {
            LookupView::Miss
        } else if self.entries[key].expires_at.nanos <= now.nanos {
            LookupView::Expired
        } else {
            LookupView::Hit(self.entries[key].value)
        }
    }

    /// The cache after looking `key` up at `now`: an expired entry is gone, a live one is marked as
    /// used.
    pub open spec fn after_lookup(self, key: KeyView, now: Instant) -> CacheView {
        match self.found(key, now) {
            LookupView::Miss => self,
            LookupView::Expired => CacheView { entries: self.entries.remove(key), ..self },
            LookupView::Hit(_) => CacheView {
                entries: self.entries.insert(
                    key,
                    EntryView { lru_tick: self.next_tick, ..self.entries[key] },
                ),
                lru: self.lru.push((key, self.next_tick)),
                ..self.ticked()
            },
        }
    }

    /// The cache with uses dropped from the front of the record, and the entries whose last use
    /// they are, until it fits its capacity.
    pub open spec fn evicted(self) -> CacheView
        decreases self.lru.len(),
    {
        if self.entries.len() <= self.capacity || self.lru.len() == 0 {
            self
        } else {
            self.without_oldest_use().evicted()
        }
    }

    /// The cache with the oldest use dropped from the record, and with it the entry whose last use
    /// it is.
    pub open spec fn without_oldest_use(self) -> CacheView {
        let (key, tick) = self.lru[0];
        CacheView {
            entries: if self.entries.contains_key(key) && self.entries[key].lru_tick == tick {
                self.entries.remove(key)
            } else {
                self.entries
            },
            lru: self.lru.drop_first(),
            ..self
        }
    }

    /// The cache with `value` put under `key`, before any eviction.
    pub open spec fn inserted(self, key: KeyView, value: ValueView, expires_at: Instant) -> CacheView {
        CacheView {
            entries: self.entries.insert(
                key,
                EntryView { value, expires_at, lru_tick: self.next_tick },
            ),
            lru: self.lru.push((key, self.next_tick)),
            ..self.ticked()
        }
    }

    /// The cache after storing `value` under `key` at `now`. A response without a lifetime is not
    /// stored.
    pub open spec fn after_store(self, key: KeyView, value: ValueView, now: Instant) -> CacheView {
        if value.ttl.nanos == 0 {
            self
        } else {
            self.inserted(
                key,
                value,
                Instant { nanos: (now.nanos + value.ttl.nanos) as u128 },
            ).evicted()
        }
    }
}

proof fn lemma_over_capacity_is_recorded(c: CacheView)
    requires
        c.recorded(),
        c.entries.dom().finite(),
        c.entries.len() > 0,
    ensures
        c.lru.len() > 0,
{
    let k = c.entries.dom().choose();
    assert(c.entries.contains_key(k));
    assert(c.lru.contains((k, c.entries[k].lru_tick)));
}

proof fn lemma_drop_keeps_recorded(c: CacheView)
    requires
        c.recorded(),
        c.lru.len() > 0,
    ensures
        c.without_oldest_use().recorded(),
{
    let d = c.without_oldest_use();
    assert forall|k: KeyView| #[trigger] d.entries.contains_key(k) implies d.lru.contains(
        (k, d.entries[k].lru_tick),
    ) by {
        let pair = (k, c.entries[k].lru_tick);
        assert(c.entries.contains_key(k));
        let i = choose|i: int| 0 <= i < c.lru.len() && c.lru[i] == pair;
        assert(i != 0);
        assert(d.lru[i - 1] == pair);
    }
}

/// A use with a fresh tick keeps the record in order and complete.
proof fn lemma_use_keeps_recorded(c: CacheView, key: KeyView, value: ValueView, expires_at: Instant)
    requires
        c.recorded(),
    ensures
        c.inserted(key, value, expires_at).recorded(),
{
    let d = c.inserted(key, value, expires_at);
    assert forall|k: KeyView| #[trigger] d.entries.contains_key(k) implies d.lru.contains(
        (k, d.entries[k].lru_tick),
    ) by {
        if k == key {
            assert(d.lru[c.lru.len() as int] == (key, c.next_tick));
        } else {
            assert(c.entries.contains_key(k));
            let pair = (k, c.entries[k].lru_tick);
            let i = choose|i: int| 0 <= i < c.lru.len() && c.lru[i] == pair;
            assert(d.lru[i] == pair);
        }
    }
}

impl DnsCache {
    /// Whether the cache is well formed.
    pub closed spec fn wf(&self) -> bool {
        distinct_keys(self.entries@) && self@.valid()
    }

    /// An empty cache for at most `capacity` responses.
    pub fn new(capacity: usize) -> (r: Self)
        ensures
            r.wf(),
            r@ == (CacheView {
                capacity: capacity as nat,
                next_tick: 1,
                entries: Map::empty(),
                lru: Seq::empty(),
            }),
    {
        let r = DnsCache {
            capacity,
            next_tick: 1,
            entries: Vec::new(),
            lru: VecDeque::new(),
            clock: Clock::start(),
        };
        assert(r@.lru =~= Seq::empty());
        r
    }

    /// Looks `key` up at the present moment.
    pub fn lookup(&mut self, key: &DnsCacheKey) -> (r: DnsCacheLookup)
        requires
            old(self).wf(),
        ensures
            final(self).wf(),
            exists|now: Instant|
                now.nanos < STD_DURATION_LIMIT_NANOS && r@ == #[trigger] old(self)@.found(key@, now)
                    && final(self)@ == old(self)@.after_lookup(key@, now),
    {
        let now = self.clock.now();
        let r = self.lookup_at(key, now);
        assert(r@ == old(self)@.found(key@, now));
        r
    }

    /// Looks `key` up at `now`. A hit counts as a use; an expired entry is dropped.
    pub fn lookup_at(&mut self, key: &DnsCacheKey, now: Instant) -> (r: DnsCacheLookup)
        requires
            old(self).wf(),
        ensures
            final(self).wf(),
            r@ == old(self)@.found(key@, now),
            final(self)@ == old(self)@.after_lookup(key@, now),
    {
        let ghost before = self@;
        let ghost slots = self.entries@;
        proof {
            lemma_entry_map(self.entries@);
        }
        let index = match self.position(key) {
            Some(index) => index,
            None => {
                return DnsCacheLookup::Miss;
            },
        };
        if self.entries[index].expires_at.nanos <= now.nanos {
            self.remove_entry(index);
            return DnsCacheLookup::Expired;
        }
        let tick = self.bump_tick();
        let value = self.entries[index].value.clone();
        self.entries[index].lru_tick = tick;
        self.lru.push_back((key.clone(), tick));
        proof {
            let after = before.after_lookup(key@, now);
            assert forall|i: int| 0 <= i < self.entries@.len() implies after.entries.contains_key(
                (#[trigger] self.entries@[i]).key@,
            ) && after.entries[self.entries@[i].key@] == self.entries@[i].entry() by {
                assert(self.entries@[i].key@ == slots[i].key@);
            }
            assert(distinct_keys(self.entries@)) by {
                assert forall|i: int, j: int| 0 <= i < j < self.entries@.len() implies (
                #[trigger] self.entries@[i]).key@ != (#[trigger] self.entries@[j]).key@ by {
                    assert(slots[i].key@ != slots[j].key@);
                }
            }
            assert forall|k: KeyView| #[trigger] after.entries.contains_key(k) implies exists|
                i: int,
            | 0 <= i < self.entries@.len() && (#[trigger] self.entries@[i]).key@ == k by {
                let i = choose|i: int| 0 <= i < slots.len() && (#[trigger] slots[i]).key@ == k;
                assert(self.entries@[i].key@ == k);
            }
            lemma_entry_map_is(self.entries@, after.entries);
            assert(use_record(self.lru@) =~= after.lru);
            lemma_use_keeps_recorded(
                before,
                key@,
                before.entries[key@].value,
                before.entries[key@].expires_at,
            );
            assert(after.entries.len() == before.entries.len());
            assert(self@ == after);
        }
        DnsCacheLookup::Hit(value)
    }

    /// Stores a response at the present moment.
    pub fn store(
        &mut self,
        key: DnsCacheKey,
        raw_message: Vec<u8>,
        ttl: Duration,
        stored_server_tag: String,
    )
        requires
            old(self).wf(),
            ttl.nanos < STD_DURATION_LIMIT_NANOS,
        ensures
            final(self).wf(),
            exists|now: Instant|
                #![trigger old(self)@.after_store(
                    key@,
                    ValueView { raw_message: raw_message@, stored_server_tag: stored_server_tag@, ttl },
                    now,
                )]
                now.nanos < STD_DURATION_LIMIT_NANOS && final(self)@ == old(self)@.after_store(
                    key@,
                    ValueView { raw_message: raw_message@, stored_server_tag: stored_server_tag@, ttl },
                    now,
                ),
    {
        let now = self.clock.now();
        self.store_at(key, raw_message, ttl, stored_server_tag, now);
    }

    /// Stores a response at `now`; it expires `ttl` later.
    pub fn store_at(
        &mut self,
        key: DnsCacheKey,
        raw_message: Vec<u8>,
        ttl: Duration,
        stored_server_tag: String,
        now: Instant,
    )
        requires
            old(self).wf(),
            now.nanos + ttl.nanos <= u128::MAX,
        ensures
            final(self).wf(),
            final(self)@ == old(self)@.after_store(
                key@,
                ValueView { raw_message: raw_message@, stored_server_tag: stored_server_tag@, ttl },
                now,
            ),
    {
        if ttl.is_zero() {
            return;
        }
        let ghost before = self@;
        let ghost slots = self.entries@;
        proof {
            lemma_entry_map(self.entries@);
        }
        let tick = self.bump_tick();
        let expires_at = now.plus(ttl);
        let value = DnsCacheValue { raw_message, stored_server_tag, ttl };
        let ghost after = before.inserted(key@, value@, expires_at);
        let ghost put = EntryView { value: value@, expires_at, lru_tick: tick };
        match self.position(&key) {
            Some(index) => {
                let entry = DnsCacheEntry { key: key.clone(), value, expires_at, lru_tick: tick };
                self.entries[index] = entry;
                proof {
                    assert(distinct_keys(self.entries@)) by {
                        assert forall|i: int, j: int| 0 <= i < j < self.entries@.len() implies (
                        #[trigger] self.entries@[i]).key@ != (#[trigger] self.entries@[j]).key@ by {
                            assert(slots[i].key@ != slots[j].key@);
                        }
                    }
                    assert forall|i: int| 0 <= i < self.entries@.len() implies
                        after.entries.contains_key((#[trigger] self.entries@[i]).key@)
                        && after.entries[self.entries@[i].key@] == self.entries@[i].entry() by {
                        assert(self.entries@[i].key@ == slots[i].key@);
                    }
                    assert forall|k: KeyView| #[trigger] after.entries.contains_key(k) implies
                        exists|i: int|
                        0 <= i < self.entries@.len() && (#[trigger] self.entries@[i]).key@ == k by {
                        let i = choose|i: int|
                            0 <= i < slots.len() && (#[trigger] slots[i]).key@ == k;
                        assert(self.entries@[i].key@ == k);
                    }
                }
            },
            None => {
                let entry = DnsCacheEntry { key: key.clone(), value, expires_at, lru_tick: tick };
                self.entries.push(entry);
                proof {
                    assert(self.entries@[slots.len() as int].key@ == key@);
                    assert(distinct_keys(self.entries@)) by {
                        assert forall|i: int, j: int| 0 <= i < j < self.entries@.len() implies (
                        #[trigger] self.entries@[i]).key@ != (#[trigger] self.entries@[j]).key@ by {
                            assert(self.entries@[i] == slots[i]);
                            if j < slots.len() {
                                assert(self.entries@[j] == slots[j]);
                            }
                        }
                    }
                    assert forall|i: int| 0 <= i < self.entries@.len() implies
                        after.entries.contains_key((#[trigger] self.entries@[i]).key@)
                        && after.entries[self.entries@[i].key@] == self.entries@[i].entry() by {
                        if i < slots.len() {
                            assert(self.entries@[i] == slots[i]);
                        }
                    }
                    assert forall|k: KeyView| #[trigger] after.entries.contains_key(k) implies
                        exists|i: int|
                        0 <= i < self.entries@.len() && (#[trigger] self.entries@[i]).key@ == k by {
                        if k != key@ {
                            let i = choose|i: int|
                                0 <= i < slots.len() && (#[trigger] slots[i]).key@ == k;
                            assert(self.entries@[i].key@ == k);
                        }
                    }
                }
            },
        }
        self.lru.push_back((key, tick));
        proof {
            lemma_entry_map_is(self.entries@, after.entries);
            assert(use_record(self.lru@) =~= after.lru);
            lemma_use_keeps_recorded(before, after.lru.last().0, put.value, put.expires_at);
            assert(self@ == after);
        }
        self.evict_if_needed();
    }

    /// The index of the entry under `key`.
    fn position(&self, key: &DnsCacheKey) -> (r: Option<usize>)
        requires
            distinct_keys(self.entries@),
        ensures
            match r {
                Some(i) => i < self.entries@.len() && self.entries@[i as int].key@ == key@
                    && self@.entries.contains_key(key@) && self@.entries[key@]
                    == self.entries@[i as int].entry(),
                None => !self@.entries.contains_key(key@) && forall|i: int|
                    0 <= i < self.entries@.len() ==> (#[trigger] self.entries@[i]).key@ != key@,
            },
    {
        proof {
            lemma_entry_map(self.entries@);
        }
        let mut i: usize = 0;
        while i < self.entries.len()
            invariant
                i <= self.entries@.len(),
                forall|j: int| 0 <= j < i ==> (#[trigger] self.entries@[j]).key@ != key@,
                forall|j: int|
                    0 <= j < self.entries@.len() ==> entry_map(self.entries@)[(
                    #[trigger] self.entries@[j]).key@] == self.entries@[j].entry(),
                forall|k: KeyView| #[trigger]
                    entry_map(self.entries@).contains_key(k) <==> exists|i: int|
                        0 <= i < self.entries@.len() && (#[trigger] self.entries@[i]).key@ == k,
            decreases self.entries@.len() - i,
        {
            if self.entries[i].key.same(key) {
                return Some(i);
            }
            i += 1;
        }
        None
    }

    /// Drops the entry at `index`.
    fn remove_entry(&mut self, index: usize)
        requires
            distinct_keys(old(self).entries@),
            index < old(self).entries@.len(),
        ensures
            distinct_keys(final(self).entries@),
            final(self).lru == old(self).lru,
            final(self)@ == (CacheView {
                entries: old(self)@.entries.remove(old(self).entries@[index as int].key@),
                ..old(self)@
            }),
    {
        let ghost slots = self.entries@;
        let ghost key = slots[index as int].key@;
        let ghost m = self@.entries;
        proof {
            lemma_entry_map(slots);
        }
        self.entries.swap_remove(index);
        proof {
            let now = self.entries@;
            let last = slots.len() - 1;
            assert forall|i: int| 0 <= i < now.len() implies #[trigger] now[i] == slots[if i == index {
                last
            } else {
                i
            }] by {}
            assert(distinct_keys(now)) by {
                assert forall|i: int, j: int| 0 <= i < j < now.len() implies (#[trigger] now[i]).key@
                    != (#[trigger] now[j]).key@ by {
                    let a = if i == index { last } else { i };
                    let b = if j == index { last } else { j };
                    assert(slots[a].key@ != slots[b].key@);
                }
            }
            let rest = m.remove(key);
            assert forall|i: int| 0 <= i < now.len() implies rest.contains_key(
                (#[trigger] now[i]).key@,
            ) && rest[now[i].key@] == now[i].entry() by {
                let a = if i == index { last } else { i };
                assert(slots[a].key@ != slots[index as int].key@);
            }
            assert forall|k: KeyView| #[trigger] rest.contains_key(k) implies exists|i: int|
                0 <= i < now.len() && (#[trigger] now[i]).key@ == k by {
                let i = choose|i: int| 0 <= i < slots.len() && (#[trigger] slots[i]).key@ == k;
                let b = if i == last { index as int } else { i };
                assert(now[b].key@ == k);
            }
            lemma_entry_map_is(now, rest);
        }
    }

    /// Takes the next tick.
    fn bump_tick(&mut self) -> (tick: u64)
        ensures
            tick == old(self).next_tick,
            final(self)@ == old(self)@.ticked(),
            final(self).entries == old(self).entries,
            final(self).lru == old(self).lru,
            final(self).capacity == old(self).capacity,
    {
        let tick = self.next_tick;
        self.next_tick = self.next_tick.saturating_add(1);
        tick
    }

    /// Drops the oldest uses until the cache fits its capacity.
    fn evict_if_needed(&mut self)
        requires
            distinct_keys(old(self).entries@),
            old(self)@.recorded(),
        ensures
            final(self).wf(),
            final(self)@ == old(self)@.evicted(),
    {
        let ghost target = self@.evicted();
        proof {
            lemma_entry_map(self.entries@);
        }
        while self.entries.len() > self.capacity
            invariant
                distinct_keys(self.entries@),
                self@.recorded(),
                self@.evicted() == target,
                self@.entries.dom().finite(),
                self@.entries.len() == self.entries@.len(),
            decreases self.lru@.len(),
        {
            let ghost before = self@;
            let ghost slots = self.entries@;
            proof {
                lemma_over_capacity_is_recorded(before);
                assert(before.lru.len() == self.lru@.len());
            }
            let oldest = self.lru.pop_front();
            let (candidate, tick) = oldest.unwrap();
            proof {
                assert(before.lru[0] == (candidate@, tick));
                assert(use_record(self.lru@) =~= before.lru.drop_first());
                lemma_entry_map(self.entries@);
            }
            let position = self.position(&candidate);
            if let Some(index) = position {
                if self.entries[index].lru_tick == tick {
                    self.remove_entry(index);
                }
            }
            proof {
                assert(self@ == before.without_oldest_use());
                lemma_drop_keeps_recorded(before);
            }
            proof {
                lemma_entry_map(self.entries@);
            }
        }
    }
}

/// A well-formed cache never holds more responses than its capacity.
pub proof fn law_bounded_by_capacity(cache: &DnsCache)
    requires
        cache.wf(),
    ensures
        cache@.valid(),
        cache@.entries.len() <= cache@.capacity,
{
}

proof fn lemma_eviction_keeps_newest(c: CacheView, key: KeyView)
    requires
        c.recorded(),
        c.entries.dom().finite(),
        1 <= c.capacity,
        c.entries.len() <= c.capacity + 1,
        c.entries.contains_key(key),
        c.lru.len() > 0,
        c.lru.last() == (key, c.entries[key].lru_tick),
        forall|i: int| 0 <= i < c.lru.len() - 1 ==> (#[trigger] c.lru[i]).1 < c.lru.last().1,
    ensures
        c.evicted().entries.contains_key(key),
        c.evicted().entries[key] == c.entries[key],
    decreases c.lru.len(),
{
    if c.entries.len() > c.capacity {
        let others = c.entries.dom().remove(key);
        assert(others.len() >= 1);
        let other = others.choose();
        assert(others.contains(other));
        assert(c.entries.contains_key(other));
        let pair = (other, c.entries[other].lru_tick);
        let i = choose|i: int| 0 <= i < c.lru.len() && c.lru[i] == pair;
        assert(i < c.lru.len() - 1);
        assert(c.lru[0].1 < c.lru.last().1);
        lemma_drop_keeps_recorded(c);
        let d = c.without_oldest_use();
        assert forall|j: int| 0 <= j < d.lru.len() - 1 implies (#[trigger] d.lru[j]).1
            < d.lru.last().1 by {
            assert(d.lru[j] == c.lru[j + 1]);
        }
        lemma_eviction_keeps_newest(d, key);
    }
}

/// What was stored is found until it expires: a lookup before that moment is a hit with the stored
/// response. Once the tick counter is spent, uses can no longer be told apart, so the law speaks of
/// a counter that is not.
pub proof fn law_lookup_after_store(
    c: CacheView,
    key: KeyView,
    value: ValueView,
    now: Instant,
    later: Instant,
)
    requires
        c.valid(),
        1 <= c.capacity,
        c.next_tick < u64::MAX,
        0 < value.ttl.nanos,
        now.nanos + value.ttl.nanos <= u128::MAX,
    ensures
        later.nanos < now.nanos + value.ttl.nanos ==> c.after_store(key, value, now).found(key, later)
            == LookupView::Hit(value),
        later.nanos >= now.nanos + value.ttl.nanos ==> c.after_store(key, value, now).found(
            key,
            later,
        ) == LookupView::Expired,
{
    let expires_at = Instant { nanos: (now.nanos + value.ttl.nanos) as u128 };
    let d = c.inserted(key, value, expires_at);
    lemma_use_keeps_recorded(c, key, value, expires_at);
    assert forall|i: int| 0 <= i < d.lru.len() - 1 implies (#[trigger] d.lru[i]).1 < d.lru.last().1 by {
        assert(d.lru[i] == c.lru[i]);
    }
    lemma_eviction_keeps_newest(d, key);
}

/// A response without a lifetime is not stored.
pub proof fn law_zero_ttl_is_not_stored(c: CacheView, key: KeyView, value: ValueView, now: Instant)
    requires
        value.ttl.nanos == 0,
    ensures
        c.after_store(key, value, now) == c,
{
}

/// An expired entry is reported once and is then gone.
pub proof fn law_expired_entry_is_dropped(c: CacheView, key: KeyView, now: Instant, later: Instant)
    requires
        c.found(key, now) is Expired,
    ensures
        c.after_lookup(key, now).found(key, later) is Miss,
{
}

/// Looking one key up does not change what is found under another.
pub proof fn law_lookup_keeps_others(
    c: CacheView,
    key: KeyView,
    now: Instant,
    other: KeyView,
    later: Instant,
)
    requires
        other != key,
    ensures
        c.after_lookup(key, now).found(other, later) == c.found(other, later),
{
}

proof fn lemma_evicts_least_tick(c: CacheView, victim: KeyView)
    requires
        c.recorded(),
        c.entries.dom().finite(),
        c.entries.len() == c.capacity + 1,
        c.entries.contains_key(victim),
        forall|k: KeyView| #[trigger]
            c.entries.contains_key(k) && k != victim ==> c.entries[victim].lru_tick
                < c.entries[k].lru_tick,
    ensures
        c.evicted().entries == c.entries.remove(victim),
    decreases c.lru.len(),
{
    lemma_over_capacity_is_recorded(c);
    lemma_drop_keeps_recorded(c);
    let (key, tick) = c.lru[0];
    let d = c.without_oldest_use();
    if c.entries.contains_key(key) && c.entries[key].lru_tick == tick {
        if key != victim {
            let pair = (victim, c.entries[victim].lru_tick);
            let i = choose|i: int| 0 <= i < c.lru.len() && c.lru[i] == pair;
            assert(c.lru[0].1 <= c.lru[i].1);
        }
        assert(d.evicted() == d);
    } else {
        lemma_evicts_least_tick(d, victim);
    }
}

/// A new response that does not fit pushes out the entry whose last use lies furthest back, and no
/// other. Once the tick counter is spent, uses can no longer be told apart, so the law speaks of a
/// counter that is not.
pub proof fn law_evicts_least_recently_used(
    c: CacheView,
    key: KeyView,
    value: ValueView,
    now: Instant,
    victim: KeyView,
)
    requires
        c.valid(),
        c.next_tick < u64::MAX,
        c.entries.len() == c.capacity,
        !c.entries.contains_key(key),
        0 < value.ttl.nanos,
        now.nanos + value.ttl.nanos <= u128::MAX,
        c.entries.contains_key(victim),
        forall|k: KeyView| #[trigger]
            c.entries.contains_key(k) ==> c.entries[victim].lru_tick <= c.entries[k].lru_tick,
    ensures
        forall|k: KeyView| #[trigger]
            c.after_store(key, value, now).entries.contains_key(k) <==> k == key || (
            c.entries.contains_key(k) && k != victim),
        forall|k: KeyView|
            c.entries.contains_key(k) && k != victim ==> #[trigger] c.after_store(
                key,
                value,
                now,
            ).entries[k] == c.entries[k],
{
    let expires_at = Instant { nanos: (now.nanos + value.ttl.nanos) as u128 };
    let d = c.inserted(key, value, expires_at);
    lemma_use_keeps_recorded(c, key, value, expires_at);
    assert forall|k: KeyView| #[trigger]
        d.entries.contains_key(k) && k != victim implies d.entries[victim].lru_tick
        < d.entries[k].lru_tick by {
        assert(c.entries.contains_key(victim));
        let v = choose|i: int|
            0 <= i < c.lru.len() && c.lru[i] == (victim, c.entries[victim].lru_tick);
        if k != key {
            assert(c.entries.contains_key(k));
            let w = choose|i: int| 0 <= i < c.lru.len() && c.lru[i] == (k, c.entries[k].lru_tick);
            assert(v != w);
            assert(c.lru[v].1 != c.lru[w].1);
        }
    }
    lemma_evicts_least_tick(d, victim);
    assert(d.evicted().entries == d.entries.remove(victim));
}

/// Cache keys tell questions apart: equal keys are keys of the same name and the same record type,
/// and of the same candidates in the same order where no tag holds a comma.
pub proof fn law_keys_tell_questions_apart(
    first_name: Seq<char>,
    first_type: u16,
    first_servers: Seq<Seq<char>>,
    second_name: Seq<char>,
    second_type: u16,
    second_servers: Seq<Seq<char>>,
)
    requires
        cache_key(first_name, first_type, first_servers) == cache_key(
            second_name,
            second_type,
            second_servers,
        ),
    ensures
        first_name == second_name,
        first_type == second_type,
        first_servers.len() > 0 && second_servers.len() > 0 && (forall|i: int|
            0 <= i < first_servers.len() ==> !(#[trigger] first_servers[i]).contains(',')) && (
        forall|i: int|
            0 <= i < second_servers.len() ==> !(#[trigger] second_servers[i]).contains(','))
            ==> first_servers == second_servers,
{
    if first_servers.len() > 0 && second_servers.len() > 0 && (forall|i: int|
        0 <= i < first_servers.len() ==> !(#[trigger] first_servers[i]).contains(',')) && (forall|
        i: int,
    |
        0 <= i < second_servers.len() ==> !(#[trigger] second_servers[i]).contains(',')) {
        law_split_undoes_join(first_servers, ',');
        law_split_undoes_join(second_servers, ',');
    }
}

/// What a key was made of can be read off it: the name and the record type as they are, and the tags
/// with a comma between neighbours.
pub proof fn law_key_holds_the_question(
    name: Seq<char>,
    query_type: u16,
    first: Seq<Seq<char>>,
    second: Seq<Seq<char>>,
)
    ensures
        cache_key(name, query_type, first).query_name == name,
        cache_key(name, query_type, first).query_type == query_type,
        first.len() == 1 ==> cache_key(name, query_type, first).selection_scope == first[0],
        first.len() > 0 && second.len() > 0 ==> cache_key(
            name,
            query_type,
            first + second,
        ).selection_scope == cache_key(name, query_type, first).selection_scope + seq![',']
            + cache_key(name, query_type, second).selection_scope,
{
    law_join_concatenates(first, second, name, seq![',']);
}

/// Storing under one key where there is room changes nothing under another key, and what is stored
/// is due exactly its lifetime after the moment of storing.
pub proof fn law_store_with_room_keeps_others(
    c: CacheView,
    key: KeyView,
    value: ValueView,
    now: Instant,
    other: KeyView,
    later: Instant,
)
    requires
        c.valid(),
        c.entries.contains_key(key) || c.entries.len() < c.capacity,
        0 < value.ttl.nanos,
        now.nanos + value.ttl.nanos <= u128::MAX,
    ensures
        other != key ==> c.after_store(key, value, now).found(other, later) == c.found(other, later),
        c.after_store(key, value, now).found(key, later) == if later.nanos < now.nanos
            + value.ttl.nanos {
            LookupView::Hit(value)
        } else {
            LookupView::Expired
        },
        c.after_store(key, value, now).capacity == c.capacity,
        c.after_store(key, value, now).entries.len() == if c.entries.contains_key(key) {
            c.entries.len()
        } else {
            c.entries.len() + 1
        },
{
    let d = c.inserted(key, value, Instant { nanos: (now.nanos + value.ttl.nanos) as u128 });
    assert(d.entries.len() <= d.capacity);
    assert(d.evicted() == d);
}

/// Nothing is found that was not stored: an empty cache misses every key, and after one response
/// was stored in it every other key is still missed.
pub proof fn law_nothing_is_found_unstored(
    c: CacheView,
    key: KeyView,
    value: ValueView,
    now: Instant,
    other: KeyView,
    later: Instant,
)
    requires
        c.entries == Map::<KeyView, EntryView>::empty(),
        other != key,
    ensures
        c.found(other, later) is Miss,
        c.after_store(key, value, now).found(other, later) is Miss,
{
    let d = c.inserted(key, value, Instant { nanos: (now.nanos + value.ttl.nanos) as u128 });
    lemma_eviction_adds_nothing(d, other);
}

/// Eviction adds no entry and changes none that it keeps.
proof fn lemma_eviction_adds_nothing(c: CacheView, key: KeyView)
    ensures
        c.evicted().entries.contains_key(key) ==> c.entries.contains_key(key)
            && c.evicted().entries[key] == c.entries[key],
        c.evicted().capacity == c.capacity,
        c.evicted().next_tick == c.next_tick,
    decreases c.lru.len(),
{
    if c.entries.len() > c.capacity && c.lru.len() > 0 {
        lemma_eviction_adds_nothing(c.without_oldest_use(), key);
    }
}

/// Whatever is found under another key after a response was stored was found there before, with the
/// same response: storing can push an entry out but cannot put one in its place.
pub proof fn law_store_puts_nothing_elsewhere(
    c: CacheView,
    key: KeyView,
    value: ValueView,
    now: Instant,
    other: KeyView,
    later: Instant,
)
    requires
        other != key,
    ensures
        !(c.after_store(key, value, now).found(other, later) is Miss) ==> c.after_store(
            key,
            value,
            now,
        ).found(other, later) == c.found(other, later),
        c.after_store(key, value, now).capacity == c.capacity,
{
    let d = c.inserted(key, value, Instant { nanos: (now.nanos + value.ttl.nanos) as u128 });
    lemma_eviction_adds_nothing(d, other);
}

/// A hit makes its entry the one that was used last, and changes neither the response nor when it
/// expires. Once the tick counter is spent, uses can no longer be told apart, so the law speaks of a
/// counter that is not.
pub proof fn law_hit_counts_as_the_last_use(
    c: CacheView,
    key: KeyView,
    now: Instant,
    other: KeyView,
    later: Instant,
)
    requires
        c.valid(),
        c.next_tick < u64::MAX,
        c.found(key, now) is Hit,
    ensures
        c.after_lookup(key, now).found(key, later) == c.found(key, later),
        c.after_lookup(key, now).entries.len() == c.entries.len(),
        other != key && c.entries.contains_key(other) ==> c.after_lookup(
            key,
            now,
        ).entries[other].lru_tick < c.after_lookup(key, now).entries[key].lru_tick,
{
    if other != key && c.entries.contains_key(other) {
        let pair = (other, c.entries[other].lru_tick);
        let i = choose|i: int| 0 <= i < c.lru.len() && c.lru[i] == pair;
        assert(c.lru[i].1 < c.next_tick);
    }
}

/// A response is live until the moment it expires and is not live at that moment.
pub proof fn law_expiry_is_exact(c: CacheView, key: KeyView, now: Instant)
    ensures
        c.entries.contains_key(key) && now.nanos < c.entries[key].expires_at.nanos ==> c.found(
            key,
            now,
        ) == LookupView::Hit(c.entries[key].value),
        c.entries.contains_key(key) && now.nanos >= c.entries[key].expires_at.nanos ==> c.found(
            key,
            now,
        ) is Expired && !c.after_lookup(key, now).entries.contains_key(key),
        !c.entries.contains_key(key) ==> c.found(key, now) is Miss && c.after_lookup(key, now) == c,
{
}

/// A cache without room holds nothing, whatever is stored.
pub proof fn law_cache_without_room_stays_empty(
    c: CacheView,
    key: KeyView,
    value: ValueView,
    now: Instant,
)
    requires
        c.valid(),
        c.capacity == 0,
    ensures
        c.after_store(key, value, now).entries == Map::<KeyView, EntryView>::empty(),
{
    assert(c.entries.dom() =~= Set::empty());
    assert(c.entries =~= Map::<KeyView, EntryView>::empty());
    if value.ttl.nanos != 0 {
        let at = Instant { nanos: (now.nanos + value.ttl.nanos) as u128 };
        let d = c.inserted(key, value, at);
        lemma_use_keeps_recorded(c, key, value, at);
        lemma_evicts_least_tick(d, key);
        assert(d.entries.remove(key) =~= Map::<KeyView, EntryView>::empty());
    }
}

/// A view shows every field of its value.
pub proof fn law_cache_views_show_everything(
    key: DnsCacheKey,
    value: DnsCacheValue,
    lookup: DnsCacheLookup,
)
    ensures
        key@.query_name == key.query_name@,
        key@.query_type == key.query_type,
        key@.selection_scope == key.selection_scope@,
        value@.raw_message == value.raw_message@,
        value@.stored_server_tag == value.stored_server_tag@,
        value@.ttl == value.ttl,
        match lookup {
            DnsCacheLookup::Hit(found) => lookup@ == LookupView::Hit(found@),
            DnsCacheLookup::Miss => lookup@ is Miss,
            DnsCacheLookup::Expired => lookup@ is Expired,
        },
{
}

} // verus!
