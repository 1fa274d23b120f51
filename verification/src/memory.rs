//! The shared memory pool: a global tier and one tier per agent, both
//! TTL-bound key/value maps with explicit capacity limits. Expiry is judged
//! against `created_at`, never `updated_at`, and against an explicit `now`.

use vstd::prelude::*;
use vstd::pervasive::VecAdditionalExecFns;

use crate::clock::current_epoch_secs;
use crate::context::{MemoryPoolConfig, MemoryPoolStats};
use crate::errors::{AgentError, AgentErrorView};
use crate::json::{JsonValue, JsonView};
use crate::message::opt_u64_view;
use crate::types::AccessLevel;

verus! {

/// One stored fact.
#[derive(Debug)]
pub struct MemoryEntry {
    pub key: String,
    pub value: JsonValue,
    pub created_by: String,
    pub created_at: u64,
    pub updated_at: u64,
    pub access_level: AccessLevel,
    pub ttl: Option<u64>,
    pub metadata: JsonValue,
}

/// Ghost form of [`MemoryEntry`].
pub struct MemoryEntryView {
    pub key: Seq<char>,
    pub value: JsonView,
    pub created_by: Seq<char>,
    pub created_at: int,
    pub updated_at: int,
    pub access_level: AccessLevel,
    pub ttl: Option<int>,
    pub metadata: JsonView,
}

impl View for MemoryEntry {
    type V = MemoryEntryView;

    open spec fn view(&self) -> MemoryEntryView {
        MemoryEntryView {
            key: self.key@,
            value: self.value@,
            created_by: self.created_by@,
            created_at: self.created_at as int,
            updated_at: self.updated_at as int,
            access_level: self.access_level,
            ttl: opt_u64_view(self.ttl),
            metadata: self.metadata@,
        }
    }
}

impl DeepView for MemoryEntry {
    type V = MemoryEntryView;

    open spec fn deep_view(&self) -> MemoryEntryView {
        self.view()
    }
}

impl MemoryEntryView {
    /// An entry is expired when more than its TTL has elapsed since its
    /// creation.
    pub open spec fn expired_at(self, now: int) -> bool {
        match self.ttl {
            Some(t) => now - self.created_at > t,
            None => false,
        }
    }
}

impl MemoryEntry {
    /// A fresh entry with no TTL and empty-object metadata; both timestamps
    /// come from the clock.
    pub fn new(key: String, value: JsonValue, created_by: String, access_level: AccessLevel)
        -> (r: MemoryEntry)
        ensures
            r@.key == key@,
            r@.value == value@,
            r@.created_by == created_by@,
            r@.access_level == access_level,
            r@.ttl is None,
            r@.metadata == JsonView::Obj(Seq::<(Seq<char>, JsonView)>::empty()),
    {
        let now = current_epoch_secs();
        MemoryEntry {
            key,
            value,
            created_by,
            created_at: now,
            updated_at: now,
            access_level,
            ttl: None,
            metadata: JsonValue::empty_object(),
        }
    }

    /// The same entry with a TTL in seconds.
    pub fn with_ttl(self, ttl_secs: u64) -> (r: MemoryEntry)
        ensures
            r@ == (MemoryEntryView { ttl: Some(ttl_secs as int), ..self@ }),
    {
        MemoryEntry { ttl: Some(ttl_secs), ..self }
    }

    /// The same entry with other metadata.
    pub fn with_metadata(self, metadata: JsonValue) -> (r: MemoryEntry)
        ensures
            r@ == (MemoryEntryView { metadata: metadata@, ..self@ }),
    {
        MemoryEntry { metadata, ..self }
    }

    /// Whether the entry is expired at time `now`.
    pub fn is_expired(&self, now: u64) -> (r: bool)
        ensures
            r == self@.expired_at(now as int),
    {
        match self.ttl {
            Some(t) => {
                if now >= self.created_at {
                    now - self.created_at > t
                } else {
                    false
                }
            },
            None => false,
        }
    }

    /// Replaces the value and refreshes the update time; the creation time,
    /// and with it the expiry, stays.
    pub fn update(&mut self, value: JsonValue, now: u64)
        ensures
            final(self)@ == (MemoryEntryView {
                value: value@,
                updated_at: now as int,
                ..old(self)@
            }),
    {
        self.value = value;
        self.updated_at = now;
    }

    /// Value-preserving copy.
    pub fn duplicate(&self) -> (r: MemoryEntry)
        ensures
            r@ == self@,
    {
        MemoryEntry {
            key: self.key.clone(),
            value: self.value.duplicate(),
            created_by: self.created_by.clone(),
            created_at: self.created_at,
            updated_at: self.updated_at,
            access_level: self.access_level,
            ttl: self.ttl,
            metadata: self.metadata.duplicate(),
        }
    }
}

/// Whether a tier holds an entry under `key`.
pub open spec fn has_key(s: Seq<MemoryEntryView>, key: Seq<char>) -> bool {
    exists|i: int| 0 <= i < s.len() && s[i].key == key
}

/// The entries that are not expired at `now`, in order.
pub open spec fn fresh_entries(s: Seq<MemoryEntryView>, now: int) -> Seq<MemoryEntryView>
    decreases s.len(),
{
    if s.len() == 0 {
        Seq::empty()
    } else if !s.last().expired_at(now) {
        fresh_entries(s.drop_last(), now).push(s.last())
    } else {
        fresh_entries(s.drop_last(), now)
    }
}

/// A TTL sweep keeps distinct keys distinct, and every survivor was there.
pub proof fn lemma_fresh_subset(s: Seq<MemoryEntryView>, now: int)
    ensures
        forall|k: int|
            0 <= k < fresh_entries(s, now).len() ==> exists|j: int|
                0 <= j < s.len() && #[trigger] fresh_entries(s, now)[k] == s[j],
        fresh_entries(s, now).len() <= s.len(),
        (forall|i: int, j: int|
            0 <= i < j < s.len() ==> s[i].key != s[j].key) ==> (forall|i: int, j: int|
            0 <= i < j < fresh_entries(s, now).len() ==> (#[trigger] fresh_entries(s, now)[
            i]).key != (#[trigger] fresh_entries(s, now)[j]).key),
    decreases s.len(),
{
    if s.len() > 0 {
        lemma_fresh_subset(s.drop_last(), now);
        assert(forall|j: int| 0 <= j < s.len() - 1 ==> s.drop_last()[j] == s[j]);
    }
}

/// Saturating usize addition.
fn sat_add(a: usize, b: usize) -> (r: usize)
    ensures
        a + b <= usize::MAX ==> r == a + b,
        a + b > usize::MAX ==> r == usize::MAX,
{
    if a <= usize::MAX - b {
        a + b
    } else {
        usize::MAX
    }
}

/// Length of one agent tier.
fn bucket_len(pools: &Vec<(String, Vec<MemoryEntry>)>, p: usize) -> (r: usize)
    requires
        p < pools@.len(),
    ensures
        r == pools@[p as int].1.len(),
{
    pools[p].1.len()
}

/// The position of the entry under `key`, if any.
#[verifier::loop_isolation(false)]
fn find_entry(entries: &Vec<MemoryEntry>, key: &str) -> (r: Option<usize>)
    ensures
        match r {
            Some(j) => j < entries.deep_view().len() && entries.deep_view()[j as int].key
                == key@,
            None => !has_key(entries.deep_view(), key@),
        },
{
    let key_owned = key.to_owned();
    let mut k: usize = 0;
    while k < entries.len()
        invariant
            k <= entries.len(),
            forall|j: int| 0 <= j < k ==> entries.deep_view()[j].key != key@,
        decreases entries.len() - k,
    {
        if entries[k].key == key_owned {
            return Some(k);
        }
        k += 1;
    }
    None
}

/// Keeps only the unexpired entries of one tier; returns how many fell away.
#[verifier::loop_isolation(false)]
fn sweep_tier(entries: &mut Vec<MemoryEntry>, now: u64) -> (r: usize)
    ensures
        final(entries).deep_view() =~= fresh_entries(old(entries).deep_view(), now as int),
        r == old(entries).deep_view().len() - final(entries).deep_view().len(),
{
    let ghost dv = old(entries).deep_view();
    let mut out: Vec<MemoryEntry> = Vec::new();
    let mut k: usize = 0;
    while k < entries.len()
        invariant
            k <= entries.len(),
            entries.deep_view() == dv,
            out.deep_view() =~= fresh_entries(dv.take(k as int), now as int),
            out.len() <= k,
        decreases entries.len() - k,
    {
        proof {
            assert(dv.take(k as int + 1).drop_last() =~= dv.take(k as int));
            assert(dv.take(k as int + 1).last() == dv[k as int]);
        }
        if !entries[k].is_expired(now) {
            let ghost osnap = out.deep_view();
            out.push(entries[k].duplicate());
            proof {
                assert(forall|i: int|
                    0 <= i < osnap.len() ==> (#[trigger] out.deep_view()[i]) == osnap[i]);
                assert(out.deep_view() =~= fresh_entries(dv.take(k as int + 1), now as int));
            }
        }
        k += 1;
    }
    proof {
        assert(dv.take(dv.len() as int) =~= dv);
        lemma_fresh_subset(dv, now as int);
    }
    let removed = entries.len() - out.len();
    *entries = out;
    removed
}

/// The two-tier pool.
pub struct MemoryPool {
    global: Vec<MemoryEntry>,
    agent: Vec<(String, Vec<MemoryEntry>)>,
    config: MemoryPoolConfig,
}

/// Ghost form of the per-agent tiers.
pub open spec fn pools_view(s: Seq<(String, Vec<MemoryEntry>)>) -> Seq<(
    Seq<char>,
    Seq<MemoryEntryView>,
)> {
    Seq::new(
        s.len(),
        |i: int|
            if 0 <= i < s.len() {
                (s[i].0@, s[i].1.deep_view())
            } else {
                (Seq::<char>::empty(), Seq::<MemoryEntryView>::empty())
            },
    )
}

impl MemoryPool {
    /// Ghost form of the global tier.
    pub closed spec fn global_v(&self) -> Seq<MemoryEntryView> {
        self.global.deep_view()
    }

    /// Ghost form of the per-agent tiers.
    pub closed spec fn agent_v(&self) -> Seq<(Seq<char>, Seq<MemoryEntryView>)> {
        pools_view(self.agent@)
    }

    /// The configuration.
    pub closed spec fn config_v(&self) -> MemoryPoolConfig {
        self.config
    }

    /// The position of the tier owned by `agent_id`.
    pub open spec fn pool_index_of(&self, agent_id: Seq<char>) -> int {
        choose|i: int| 0 <= i < self.agent_v().len() && self.agent_v()[i].0 == agent_id
    }

    /// Whether `agent_id` owns a tier.
    pub open spec fn has_pool(&self, agent_id: Seq<char>) -> bool {
        exists|i: int| 0 <= i < self.agent_v().len() && self.agent_v()[i].0 == agent_id
    }

    /// The tier owned by `agent_id` (meaningful when `has_pool`).
    pub open spec fn pool_of(&self, agent_id: Seq<char>) -> Seq<MemoryEntryView> {
        self.agent_v()[self.pool_index_of(agent_id)].1
    }

    /// Well-formedness: distinct keys in the global tier, distinct owners,
    /// and distinct keys within each agent tier.
    pub open spec fn wf(&self) -> bool {
        &&& forall|i: int, j: int|
            0 <= i < j < self.global_v().len() ==> self.global_v()[i].key
                != self.global_v()[j].key
        &&& forall|i: int, j: int|
            0 <= i < j < self.agent_v().len() ==> self.agent_v()[i].0 != self.agent_v()[j].0
        &&& forall|p: int, i: int, j: int|
            0 <= p < self.agent_v().len() && 0 <= i < j < self.agent_v()[p].1.len()
                ==> (#[trigger] self.agent_v()[p].1[i]).key != (#[trigger] self.agent_v()[
                p].1[j]).key
    }

    /// A fresh empty pool.
    pub fn new(config: MemoryPoolConfig) -> (r: MemoryPool)
        ensures
            r.wf(),
            r.global_v() =~= Seq::<MemoryEntryView>::empty(),
            r.agent_v() =~= Seq::<(Seq<char>, Seq<MemoryEntryView>)>::empty(),
            r.config_v() == config,
    {
        let r = MemoryPool { global: Vec::new(), agent: Vec::new(), config };
        proof {
            assert(r.global_v() =~= Seq::<MemoryEntryView>::empty());
            assert(r.agent_v() =~= Seq::<(Seq<char>, Seq<MemoryEntryView>)>::empty());
        }
        r
    }

    /// The global entry under `key`, unless it is absent or expired at
    /// `now`.
    pub fn get_global(&self, key: &str, now: u64) -> (r: Option<MemoryEntry>)
        requires
            self.wf(),
        ensures
            match r {
                Some(e) => exists|i: int|
                    0 <= i < self.global_v().len() && (#[trigger] self.global_v()[i]).key
                        == key@ && !self.global_v()[i].expired_at(now as int) && e@
                        == self.global_v()[i],
                None => forall|i: int|
                    0 <= i < self.global_v().len() && (#[trigger] self.global_v()[i]).key
                        == key@ ==> self.global_v()[i].expired_at(now as int),
            },
    {
        match find_entry(&self.global, key) {
            None => None,
            Some(j) => {
                if self.global[j].is_expired(now) {
                    proof {
                        assert forall|i: int|
                            0 <= i < self.global_v().len() && (#[trigger] self.global_v()[
                            i]).key == key@ implies self.global_v()[i].expired_at(
                            now as int,
                        ) by {
                            if i < j {
                                assert(self.global_v()[i].key != self.global_v()[j as int].key);
                            }
                            if j < i {
                                assert(self.global_v()[j as int].key != self.global_v()[i].key);
                            }
                        }
                    }
                    None
                } else {
                    Some(self.global[j].duplicate())
                }
            },
        }
    }

    /// Stores `entry` in the global tier: an existing key is replaced in
    /// place and is always allowed; a new key needs room, else
    /// `ResourceExhausted` and nothing changes.
    pub fn set_global(&mut self, entry: MemoryEntry) -> (r: Result<(), AgentError>)
        requires
            old(self).wf(),
        ensures
            final(self).wf(),
            final(self).config_v() == old(self).config_v(),
            final(self).agent_v() == old(self).agent_v(),
            match r {
                Ok(()) => if has_key(old(self).global_v(), entry@.key) {
                    exists|i: int|
                        0 <= i < old(self).global_v().len() && (#[trigger] old(self).global_v()[
                        i]).key == entry@.key && final(self).global_v() =~= old(self).global_v().update(i, entry@)
                } else {
                    old(self).global_v().len() < old(self).config_v().max_global_entries
                        && final(self).global_v() =~= old(self).global_v().push(entry@)
                },
                Err(e) => ({
                    &&& !has_key(old(self).global_v(), entry@.key)
                    &&& old(self).global_v().len() >= old(self).config_v().max_global_entries
                    &&& e@ is ResourceExhausted
                    &&& final(self).global_v() == old(self).global_v()
                }),
            },
    {
        let ghost pre = self.global_v();
        match find_entry(&self.global, entry.key.as_str()) {
            Some(j) => {
                self.global.set(j, entry);
                proof {
                    assert(self.global_v() =~= pre.update(j as int, entry@));
                    assert(forall|k: int|
                        0 <= k < self.global_v().len() ==> (#[trigger] self.global_v()[k]).key
                            == pre[k].key);
                }
                Ok(())
            },
            None => {
                if self.global.len() >= self.config.max_global_entries {
                    return Err(
                        AgentError::ResourceExhausted("global memory tier is full".to_owned()),
                    );
                }
                self.global.push(entry);
                proof {
                    assert(self.global_v() =~= pre.push(entry@));
                }
                Ok(())
            },
        }
    }

    /// Removes the global entry under `key`, if any; removing an absent key
    /// is not an error.
    pub fn delete_global(&mut self, key: &str) -> (r: Result<(), AgentError>)
        requires
            old(self).wf(),
        ensures
            final(self).wf(),
            final(self).config_v() == old(self).config_v(),
            final(self).agent_v() == old(self).agent_v(),
            r is Ok,
            !has_key(final(self).global_v(), key@),
            if has_key(old(self).global_v(), key@) {
                exists|i: int|
                    0 <= i < old(self).global_v().len() && (#[trigger] old(self).global_v()[
                    i]).key == key@ && final(self).global_v() =~= old(self).global_v().remove(i)
            } else {
                final(self).global_v() == old(self).global_v()
            },
    {
        let ghost pre = self.global_v();
        match find_entry(&self.global, key) {
            None => Ok(()),
            Some(j) => {
                self.global.remove(j);
                proof {
                    assert(self.global_v() =~= pre.remove(j as int));
                    assert(forall|k: int|
                        0 <= k < self.global_v().len() ==> (#[trigger] self.global_v()[k])
                            == if k < j {
                            pre[k]
                        } else {
                            pre[k + 1]
                        });
                    if has_key(self.global_v(), key@) {
                        let i0 = choose|i0: int|
                            0 <= i0 < self.global_v().len() && self.global_v()[i0].key == key@;
                        let oi: int = if i0 < j {
                            i0
                        } else {
                            i0 + 1
                        };
                        assert(pre[oi].key == pre[j as int].key);
                        assert(false);
                    }
                }
                Ok(())
            },
        }
    }

    /// The keys of the global tier, in storage order.
    #[verifier::loop_isolation(false)]
    pub fn list_global_keys(&self) -> (r: Vec<String>)
        ensures
            r.deep_view().len() == self.global_v().len(),
            forall|i: int|
                0 <= i < self.global_v().len() ==> r.deep_view()[i] == (
                #[trigger] self.global_v()[i]).key,
    {
        let mut out: Vec<String> = Vec::new();
        let mut k: usize = 0;
        while k < self.global.len()
            invariant
                k <= self.global.len(),
                out.len() == k,
                forall|i: int| 0 <= i < k ==> out.deep_view()[i] == self.global_v()[i].key,
            decreases self.global.len() - k,
        {
            let ghost osnap = out.deep_view();
            out.push(self.global[k].key.clone());
            proof {
                assert(forall|i: int|
                    0 <= i < k ==> (#[trigger] out.deep_view()[i]) == osnap[i]);
            }
            k += 1;
        }
        out
    }

    /// Reaps every expired entry in both tiers at `now` and counts them.
    pub fn cleanup_expired(&mut self, now: u64) -> (r: usize)
        requires
            old(self).wf(),
        ensures
            final(self).wf(),
            final(self).config_v() == old(self).config_v(),
            final(self).global_v() =~= fresh_entries(old(self).global_v(), now as int),
            final(self).agent_v().len() == old(self).agent_v().len(),
            forall|p: int|
                0 <= p < old(self).agent_v().len() ==> (#[trigger] final(self).agent_v()[p]).0
                    == old(self).agent_v()[p].0 && final(self).agent_v()[p].1 =~= fresh_entries(
                    old(self).agent_v()[p].1,
                    now as int,
                ),
            r >= old(self).global_v().len() - fresh_entries(
                old(self).global_v(),
                now as int,
            ).len(),
    {
        let ghost gpre = self.global_v();
        let ghost apre = self.agent_v();
        let mut count = sweep_tier(&mut self.global, now);
        proof {
            lemma_fresh_subset(gpre, now as int);
            assert(self.agent_v() == apre);
        }
        let mut p: usize = 0;
        while p < self.agent.len()
            invariant
                p <= self.agent.len(),
                self.global_v() =~= fresh_entries(gpre, now as int),
                self.config_v() == old(self).config_v(),
                count >= gpre.len() - fresh_entries(gpre, now as int).len(),
                self.agent_v().len() == apre.len(),
                forall|q: int|
                    0 <= q < p ==> (#[trigger] self.agent_v()[q]).0 == apre[q].0
                        && self.agent_v()[q].1 =~= fresh_entries(apre[q].1, now as int),
                forall|q: int|
                    p <= q < apre.len() ==> (#[trigger] self.agent_v()[q]) == apre[q],
                self.wf(),
            decreases self.agent.len() - p,
        {
            let ghost snap = self.agent_v();
            let removed = sweep_tier(&mut self.agent[p].1, now);
            count = sat_add(count, removed);
            proof {
                assert(self.agent_v()[p as int].0 == snap[p as int].0);
                assert(self.agent_v()[p as int].1 =~= fresh_entries(apre[p as int].1, now as int));
                assert(forall|q: int|
                    0 <= q < apre.len() && q != p ==> (#[trigger] self.agent_v()[q]) == snap[q]);
                lemma_fresh_subset(apre[p as int].1, now as int);
            }
            p += 1;
        }
        count
    }

    /// Counts over both tiers and the configured bounds.
    #[verifier::loop_isolation(false)]
    pub fn get_stats(&self) -> (r: MemoryPoolStats)
        ensures
            r.global_entries == self.global_v().len(),
            r.agent_pools == self.agent_v().len(),
            r.max_global_entries == self.config_v().max_global_entries,
            r.max_agent_entries == self.config_v().max_agent_entries,
    {
        let mut agent_entries: usize = 0;
        let mut p: usize = 0;
        while p < self.agent.len()
            invariant
                p <= self.agent.len(),
            decreases self.agent.len() - p,
        {
            agent_entries = sat_add(agent_entries, bucket_len(&self.agent, p));
            p += 1;
        }
        MemoryPoolStats {
            global_entries: self.global.len(),
            agent_entries,
            agent_pools: self.agent.len(),
            max_global_entries: self.config.max_global_entries,
            max_agent_entries: self.config.max_agent_entries,
        }
    }
}

/// The position of the tier owned by `agent_id`, if any.
#[verifier::loop_isolation(false)]
fn find_pool(pools: &Vec<(String, Vec<MemoryEntry>)>, agent_id: &str) -> (r: Option<usize>)
    ensures
        match r {
            Some(p) => p < pools_view(pools@).len() && pools_view(pools@)[p as int].0
                == agent_id@,
            None => forall|i: int|
                0 <= i < pools_view(pools@).len() ==> (#[trigger] pools_view(pools@)[i]).0
                    != agent_id@,
        },
{
    let id_owned = agent_id.to_owned();
    let mut k: usize = 0;
    while k < pools.len()
        invariant
            k <= pools.len(),
            forall|j: int| 0 <= j < k ==> (#[trigger] pools_view(pools@)[j]).0 != agent_id@,
        decreases pools.len() - k,
    {
        proof {
            assert(pools_view(pools@)[k as int].0 == pools@[k as int].0@);
        }
        if pools[k].0 == id_owned {
            return Some(k);
        }
        k += 1;
    }
    None
}

impl MemoryPool {
    /// The entry under `key` in the tier of `agent_id`, unless the tier or
    /// the key is absent or the entry is expired at `now`.
    pub fn get_agent(&self, agent_id: &str, key: &str, now: u64) -> (r: Option<MemoryEntry>)
        requires
            self.wf(),
        ensures
            match r {
                Some(e) => self.has_pool(agent_id@) && exists|i: int|
                    0 <= i < self.pool_of(agent_id@).len() && (#[trigger] self.pool_of(
                        agent_id@,
                    )[i]).key == key@ && !self.pool_of(agent_id@)[i].expired_at(now as int)
                        && e@ == self.pool_of(agent_id@)[i],
                None => !self.has_pool(agent_id@) || (forall|i: int|
                    0 <= i < self.pool_of(agent_id@).len() && (#[trigger] self.pool_of(
                        agent_id@,
                    )[i]).key == key@ ==> self.pool_of(agent_id@)[i].expired_at(now as int)),
            },
    {
        let p = match find_pool(&self.agent, agent_id) {
            None => {
                return None;
            },
            Some(p) => p,
        };
        proof {
            assert(self.pool_index_of(agent_id@) == p as int) by {
                let pp = self.pool_index_of(agent_id@);
                assert(0 <= pp < self.agent_v().len() && self.agent_v()[pp].0 == agent_id@);
            }
        }
        match find_entry(&self.agent[p].1, key) {
            None => {
                proof {
                    assert(self.agent_v()[p as int].1 == self.agent[p as int].1.deep_view());
                }
                None
            },
            Some(j) => {
                proof {
                    assert(self.agent_v()[p as int].1 == self.agent[p as int].1.deep_view());
                }
                if self.agent[p].1[j].is_expired(now) {
                    proof {
                        assert forall|i: int|
                            0 <= i < self.pool_of(agent_id@).len() && (#[trigger] self.pool_of(
                                agent_id@,
                            )[i]).key == key@ implies self.pool_of(agent_id@)[i].expired_at(
                            now as int,
                        ) by {
                            if i < j {
                                assert(self.agent_v()[p as int].1[i].key != self.agent_v()[
                                    p as int].1[j as int].key);
                            }
                            if j < i {
                                assert(self.agent_v()[p as int].1[j as int].key
                                    != self.agent_v()[p as int].1[i].key);
                            }
                        }
                    }
                    None
                } else {
                    Some(self.agent[p].1[j].duplicate())
                }
            },
        }
    }

    /// Stores `entry` in the tier of `agent_id`, creating the tier on first
    /// use. An existing key is replaced and always allowed; a new key needs
    /// room in that tier, else `ResourceExhausted` and nothing changes.
    #[verifier::loop_isolation(false)]
    pub fn set_agent(&mut self, agent_id: &str, entry: MemoryEntry) -> (r: Result<
        (),
        AgentError,
    >)
        requires
            old(self).wf(),
        ensures
            final(self).wf(),
            final(self).config_v() == old(self).config_v(),
            final(self).global_v() == old(self).global_v(),
            match r {
                Ok(()) => if old(self).has_pool(agent_id@) {
                    ({
                        let p = old(self).pool_index_of(agent_id@);
                        &&& final(self).agent_v().len() == old(self).agent_v().len()
                        &&& forall|q: int|
                            0 <= q < old(self).agent_v().len() && q != p ==> (#[trigger] final(self).agent_v()[q]) == old(self).agent_v()[q]
                        &&& final(self).agent_v()[p].0 == agent_id@
                        &&& if has_key(old(self).pool_of(agent_id@), entry@.key) {
                            exists|i: int|
                                0 <= i < old(self).pool_of(agent_id@).len() && (#[trigger] old(self).pool_of(agent_id@)[i]).key == entry@.key && final(self).agent_v()[p].1
                                    =~= old(self).pool_of(agent_id@).update(i, entry@)
                        } else {
                            old(self).pool_of(agent_id@).len() < old(self).config_v().max_agent_entries && final(self).agent_v()[p].1 =~= old(self).pool_of(
                                agent_id@,
                            ).push(entry@)
                        }
                    })
                } else {
                    0 < old(self).config_v().max_agent_entries && final(self).agent_v()
                        =~= old(self).agent_v().push((agent_id@, seq![entry@]))
                },
                Err(e) => ({
                    &&& e@ is ResourceExhausted
                    &&& final(self).agent_v() == old(self).agent_v()
                    &&& if old(self).has_pool(agent_id@) {
                        !has_key(old(self).pool_of(agent_id@), entry@.key) && old(self).pool_of(
                            agent_id@,
                        ).len() >= old(self).config_v().max_agent_entries
                    } else {
                        old(self).config_v().max_agent_entries == 0
                    }
                }),
            },
    {
        let ghost apre = self.agent_v();
        let p = match find_pool(&self.agent, agent_id) {
            None => {
                if self.config.max_agent_entries == 0 {
                    return Err(
                        AgentError::ResourceExhausted("agent memory tier is full".to_owned()),
                    );
                }
                let mut tier: Vec<MemoryEntry> = Vec::new();
                let ghost ev = entry@;
                tier.push(entry);
                self.agent.push((agent_id.to_owned(), tier));
                proof {
                    assert(self.agent_v()[apre.len() as int].1 =~= seq![ev]);
                    assert(self.agent_v() =~= apre.push((agent_id@, seq![ev])));
                }
                return Ok(());
            },
            Some(p) => p,
        };
        proof {
            assert(self.pool_index_of(agent_id@) == p as int) by {
                let pp = self.pool_index_of(agent_id@);
                assert(0 <= pp < self.agent_v().len() && self.agent_v()[pp].0 == agent_id@);
            }
            assert(self.agent_v()[p as int].1 == self.agent@[p as int].1.deep_view());
        }
        let ghost tier0 = self.agent_v()[p as int].1;
        match find_entry(&self.agent[p].1, entry.key.as_str()) {
            Some(j) => {
                let ghost ev = entry@;
                self.agent[p].1.set(j, entry);
                proof {
                    assert(self.agent_v()[p as int].1 =~= tier0.update(j as int, ev));
                    assert(forall|q: int|
                        0 <= q < apre.len() && q != p ==> (#[trigger] self.agent_v()[q])
                            == apre[q]);
                    assert(self.agent_v()[p as int].0 == agent_id@);
                    assert(forall|k: int|
                        0 <= k < self.agent_v()[p as int].1.len()
                            ==> (#[trigger] self.agent_v()[p as int].1[k]).key == tier0[k].key);
                }
                Ok(())
            },
            None => {
                if self.agent[p].1.len() >= self.config.max_agent_entries {
                    return Err(
                        AgentError::ResourceExhausted("agent memory tier is full".to_owned()),
                    );
                }
                let ghost ev = entry@;
                self.agent[p].1.push(entry);
                proof {
                    assert(self.agent_v()[p as int].1 =~= tier0.push(ev));
                    assert(forall|q: int|
                        0 <= q < apre.len() && q != p ==> (#[trigger] self.agent_v()[q])
                            == apre[q]);
                    assert(self.agent_v()[p as int].0 == agent_id@);
                }
                Ok(())
            },
        }
    }

    /// Removes the entry under `key` from the tier of `agent_id`; a missing
    /// tier or key is not an error.
    pub fn delete_agent(&mut self, agent_id: &str, key: &str) -> (r: Result<(), AgentError>)
        requires
            old(self).wf(),
        ensures
            final(self).wf(),
            final(self).config_v() == old(self).config_v(),
            final(self).global_v() == old(self).global_v(),
            r is Ok,
            final(self).agent_v().len() == old(self).agent_v().len(),
            forall|q: int|
                0 <= q < old(self).agent_v().len() ==> (#[trigger] final(self).agent_v()[q]).0
                    == old(self).agent_v()[q].0,
            old(self).has_pool(agent_id@) ==> !has_key(
                final(self).pool_of(agent_id@),
                key@,
            ),
    {
        let p = match find_pool(&self.agent, agent_id) {
            None => {
                return Ok(());
            },
            Some(p) => p,
        };
        proof {
            assert(self.pool_index_of(agent_id@) == p as int) by {
                let pp = self.pool_index_of(agent_id@);
                assert(0 <= pp < self.agent_v().len() && self.agent_v()[pp].0 == agent_id@);
            }
            assert(self.agent_v()[p as int].1 == self.agent@[p as int].1.deep_view());
        }
        let ghost apre = self.agent_v();
        let ghost tier0 = self.agent_v()[p as int].1;
        match find_entry(&self.agent[p].1, key) {
            None => {
                proof {
                    assert(final(self).pool_index_of(agent_id@) == p as int) by {
                        let pp = self.pool_index_of(agent_id@);
                        assert(0 <= pp < self.agent_v().len() && self.agent_v()[pp].0
                            == agent_id@);
                    }
                }
                Ok(())
            },
            Some(j) => {
                self.agent[p].1.remove(j);
                proof {
                    assert(self.agent_v()[p as int].1 =~= tier0.remove(j as int));
                    assert(forall|q: int|
                        0 <= q < apre.len() && q != p ==> (#[trigger] self.agent_v()[q])
                            == apre[q]);
                    assert(self.agent_v()[p as int].0 == agent_id@);
                    assert(forall|k: int|
                        0 <= k < self.agent_v()[p as int].1.len()
                            ==> (#[trigger] self.agent_v()[p as int].1[k]) == if k < j {
                            tier0[k]
                        } else {
                            tier0[k + 1]
                        });
                    assert(self.pool_index_of(agent_id@) == p as int) by {
                        let pp = self.pool_index_of(agent_id@);
                        assert(0 <= pp < self.agent_v().len() && self.agent_v()[pp].0
                            == agent_id@);
                    }
                    if has_key(self.pool_of(agent_id@), key@) {
                        let i0 = choose|i0: int|
                            0 <= i0 < self.pool_of(agent_id@).len() && self.pool_of(agent_id@)[
                                i0].key == key@;
                        let oi: int = if i0 < j {
                            i0
                        } else {
                            i0 + 1
                        };
                        assert(tier0[oi].key == tier0[j as int].key);
                        assert(false);
                    }
                }
                Ok(())
            },
        }
    }

    /// Drops the whole tier of `agent_id`; a missing tier is not an error.
    pub fn clear_agent(&mut self, agent_id: &str) -> (r: Result<(), AgentError>)
        requires
            old(self).wf(),
        ensures
            final(self).wf(),
            final(self).config_v() == old(self).config_v(),
            final(self).global_v() == old(self).global_v(),
            r is Ok,
            !final(self).has_pool(agent_id@),
            if old(self).has_pool(agent_id@) {
                exists|p: int|
                    0 <= p < old(self).agent_v().len() && (#[trigger] old(self).agent_v()[
                    p]).0 == agent_id@ && final(self).agent_v() =~= old(self).agent_v().remove(
                        p,
                    )
            } else {
                final(self).agent_v() == old(self).agent_v()
            },
    {
        let ghost apre = self.agent_v();
        match find_pool(&self.agent, agent_id) {
            None => Ok(()),
            Some(p) => {
                self.agent.remove(p);
                proof {
                    assert(self.agent_v() =~= apre.remove(p as int));
                    assert(forall|q: int|
                        0 <= q < self.agent_v().len() ==> (#[trigger] self.agent_v()[q])
                            == if q < p {
                            apre[q]
                        } else {
                            apre[q + 1]
                        });
                    if self.has_pool(agent_id@) {
                        let q0 = choose|q0: int|
                            0 <= q0 < self.agent_v().len() && self.agent_v()[q0].0 == agent_id@;
                        let oq: int = if q0 < p {
                            q0
                        } else {
                            q0 + 1
                        };
                        assert(apre[oq].0 == apre[p as int].0);
                        assert(false);
                    }
                }
                Ok(())
            },
        }
    }

    /// The keys of the tier of `agent_id`, in storage order; an absent tier
    /// lists nothing.
    #[verifier::loop_isolation(false)]
    pub fn list_agent_keys(&self, agent_id: &str) -> (r: Vec<String>)
        requires
            self.wf(),
        ensures
            if self.has_pool(agent_id@) {
                r.deep_view().len() == self.pool_of(agent_id@).len() && (forall|i: int|
                    0 <= i < self.pool_of(agent_id@).len() ==> r.deep_view()[i] == (
                    #[trigger] self.pool_of(agent_id@)[i]).key)
            } else {
                r.deep_view().len() == 0
            },
    {
        let p = match find_pool(&self.agent, agent_id) {
            None => {
                let out: Vec<String> = Vec::new();
                return out;
            },
            Some(p) => p,
        };
        proof {
            assert(self.pool_index_of(agent_id@) == p as int) by {
                let pp = self.pool_index_of(agent_id@);
                assert(0 <= pp < self.agent_v().len() && self.agent_v()[pp].0 == agent_id@);
            }
            assert(self.agent_v()[p as int].1 == self.agent@[p as int].1.deep_view());
        }
        let mut out: Vec<String> = Vec::new();
        let mut k: usize = 0;
        while k < bucket_len(&self.agent, p)
            invariant
                p < self.agent@.len(),
                k <= self.agent@[p as int].1.len(),
                out.len() == k,
                forall|i: int|
                    0 <= i < k ==> out.deep_view()[i] == (#[trigger] self.pool_of(agent_id@)[
                    i]).key,
                self.pool_of(agent_id@) == self.agent@[p as int].1.deep_view(),
            decreases self.agent@[p as int].1.len() - k,
        {
            let ghost osnap = out.deep_view();
            out.push(self.agent[p].1[k].key.clone());
            proof {
                assert(forall|i: int|
                    0 <= i < k ==> (#[trigger] out.deep_view()[i]) == osnap[i]);
            }
            k += 1;
        }
        out
    }
}


} // verus!
