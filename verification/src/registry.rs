//! The agent registry: the authoritative directory of live agents, two
//! secondary indices (by capability and by type), and heartbeat liveness.
//!
//! The indices are kept consistent with the primary rows by construction:
//! well-formedness says every index entry points at a registered row with
//! that capability or type, and every row is indexed under each of its
//! capabilities and under its type.

use vstd::prelude::*;

use crate::clock::current_epoch_secs;
use crate::errors::{AgentError, AgentErrorView};
use crate::json::{JsonValue, JsonView};
use crate::types::{
    AgentCapability, AgentStatus, AgentType, AgentTypeView, CapabilityView,
    duplicate_capabilities,
};

verus! {

/// One registry row.
#[derive(Debug)]
pub struct AgentInfo {
    pub id: String,
    pub agent_type: AgentType,
    pub capabilities: Vec<AgentCapability>,
    pub status: AgentStatus,
    pub last_heartbeat: u64,
    pub metadata: JsonValue,
}

/// Ghost form of [`AgentInfo`].
pub struct AgentInfoView {
    pub id: Seq<char>,
    pub agent_type: AgentTypeView,
    pub capabilities: Seq<CapabilityView>,
    pub status: AgentStatus,
    pub last_heartbeat: int,
    pub metadata: JsonView,
}

impl View for AgentInfo {
    type V = AgentInfoView;

    open spec fn view(&self) -> AgentInfoView {
        AgentInfoView {
            id: self.id@,
            agent_type: self.agent_type@,
            capabilities: self.capabilities.deep_view(),
            status: self.status,
            last_heartbeat: self.last_heartbeat as int,
            metadata: self.metadata@,
        }
    }
}

impl DeepView for AgentInfo {
    type V = AgentInfoView;

    open spec fn deep_view(&self) -> AgentInfoView {
        self.view()
    }
}

/// A row is alive when its heartbeat is younger than the timeout.
pub open spec fn alive_at(last_heartbeat: int, timeout_secs: int, now: int) -> bool {
    now - last_heartbeat < timeout_secs
}

impl AgentInfo {
    /// A fresh row: `Active`, heartbeat read from the clock, empty metadata.
    pub fn new(id: String, agent_type: AgentType, capabilities: Vec<AgentCapability>) -> (r:
        AgentInfo)
        ensures
            r@.id == id@,
            r@.agent_type == agent_type@,
            r@.capabilities == capabilities.deep_view(),
            r@.status == AgentStatus::Active,
            r@.metadata == JsonView::Obj(Seq::<(Seq<char>, JsonView)>::empty()),
    {
        AgentInfo {
            id,
            agent_type,
            capabilities,
            status: AgentStatus::Active,
            last_heartbeat: current_epoch_secs(),
            metadata: JsonValue::empty_object(),
        }
    }

    /// Refreshes the heartbeat to `now`.
    pub fn update_heartbeat(&mut self, now: u64)
        ensures
            final(self)@ == (AgentInfoView { last_heartbeat: now as int, ..old(self)@ }),
    {
        self.last_heartbeat = now;
    }

    /// Whether the row counts as alive at time `now`.
    pub fn is_alive(&self, timeout_secs: u64, now: u64) -> (r: bool)
        ensures
            r == alive_at(self@.last_heartbeat, timeout_secs as int, now as int),
    {
        if now >= self.last_heartbeat {
            now - self.last_heartbeat < timeout_secs
        } else {
            true
        }
    }

    /// Value-preserving copy.
    pub fn duplicate(&self) -> (r: AgentInfo)
        ensures
            r@ == self@,
    {
        AgentInfo {
            id: self.id.clone(),
            agent_type: self.agent_type.duplicate(),
            capabilities: duplicate_capabilities(&self.capabilities),
            status: self.status,
            last_heartbeat: self.last_heartbeat,
            metadata: self.metadata.duplicate(),
        }
    }
}

/// Registry configuration.
#[derive(Debug, Clone, Copy, PartialEq, Eq, Structural)]
pub struct RegistryConfig {
    /// A row older than this many seconds is dead.
    pub heartbeat_timeout_secs: u64,
    /// How often the host should run the reaper.
    pub cleanup_interval_secs: u64,
}

impl core::default::Default for RegistryConfig {
    /// The conventional defaults.
    fn default() -> (r: RegistryConfig)
        ensures
            r.heartbeat_timeout_secs == 30,
            r.cleanup_interval_secs == 60,
    {
        RegistryConfig { heartbeat_timeout_secs: 30, cleanup_interval_secs: 60 }
    }
}

/// The registry: rows plus the two secondary indices.
pub struct AgentRegistry {
    agents: Vec<AgentInfo>,
    capability_index: Vec<(AgentCapability, Vec<String>)>,
    type_index: Vec<(AgentType, Vec<String>)>,
    config: RegistryConfig,
}

/// Ghost form of one index: keys with their id buckets.
pub open spec fn index_view<K: DeepView>(s: Seq<(K, Vec<String>)>) -> Seq<(K::V, Seq<Seq<char>>)> {
    Seq::new(
        s.len(),
        |i: int|
            if 0 <= i < s.len() {
                (s[i].0.deep_view(), s[i].1.deep_view())
            } else {
                (arbitrary(), Seq::<Seq<char>>::empty())
            },
    )
}

/// Whether some row in `s` carries the id.
pub open spec fn has_row(s: Seq<AgentInfoView>, id: Seq<char>) -> bool {
    exists|k: int| 0 <= k < s.len() && s[k].id == id
}

/// Whether a bucket sequence contains an id.
pub open spec fn bucket_has<K>(entries: Seq<(K, Seq<Seq<char>>)>, key: K, id: Seq<char>) -> bool {
    exists|e: int, x: int|
        0 <= e < entries.len() && entries[e].0 == key && 0 <= x < entries[e].1.len()
            && entries[e].1[x] == id
}

impl AgentRegistry {
    /// Ghost form of the rows.
    pub closed spec fn agents_v(&self) -> Seq<AgentInfoView> {
        self.agents.deep_view()
    }

    /// Ghost form of the capability index.
    pub closed spec fn cap_index_v(&self) -> Seq<(CapabilityView, Seq<Seq<char>>)> {
        index_view(self.capability_index@)
    }

    /// Ghost form of the type index.
    pub closed spec fn type_index_v(&self) -> Seq<(AgentTypeView, Seq<Seq<char>>)> {
        index_view(self.type_index@)
    }

    /// The configuration.
    pub closed spec fn config_v(&self) -> RegistryConfig {
        self.config
    }

    /// Whether an agent id is registered.
    pub open spec fn registered(&self, id: Seq<char>) -> bool {
        has_row(self.agents_v(), id)
    }

    /// The row registered under `id` (meaningful when `registered(id)`).
    pub open spec fn row_of(&self, id: Seq<char>) -> AgentInfoView {
        self.agents_v()[self.row_index_of(id)]
    }

    /// The position of the row registered under `id`.
    pub open spec fn row_index_of(&self, id: Seq<char>) -> int {
        choose|k: int| 0 <= k < self.agents_v().len() && self.agents_v()[k].id == id
    }

    /// One capability-index element resolves to a registered row declaring
    /// that capability.
    pub open spec fn cap_entry_resolves(&self, e: int, x: int) -> bool {
        exists|k: int|
            0 <= k < self.agents_v().len() && (#[trigger] self.agents_v()[k]).id
                == self.cap_index_v()[e].1[x] && self.agents_v()[k].capabilities.contains(
                self.cap_index_v()[e].0,
            )
    }

    /// One type-index element resolves to a registered row of that type.
    pub open spec fn type_entry_resolves(&self, e: int, x: int) -> bool {
        exists|k: int|
            0 <= k < self.agents_v().len() && (#[trigger] self.agents_v()[k]).id
                == self.type_index_v()[e].1[x] && self.agents_v()[k].agent_type
                == self.type_index_v()[e].0
    }

    /// Well-formedness. Rows have distinct ids; the capability index holds
    /// exactly the registered agents under each capability they declare; the
    /// type index holds exactly the registered agents under their type; and
    /// no index keeps an empty bucket or a duplicate key.
    pub open spec fn wf(&self) -> bool {
        &&& forall|i: int, j: int|
            0 <= i < j < self.agents_v().len() ==> self.agents_v()[i].id
                != self.agents_v()[j].id
        &&& forall|e: int, f: int|
            0 <= e < f < self.cap_index_v().len() ==> self.cap_index_v()[e].0
                != self.cap_index_v()[f].0
        &&& forall|e: int|
            0 <= e < self.cap_index_v().len() ==> (#[trigger] self.cap_index_v()[e]).1.len() > 0
        &&& forall|e: int, x: int|
            0 <= e < self.cap_index_v().len() && 0 <= x < self.cap_index_v()[e].1.len()
                ==> #[trigger] self.cap_entry_resolves(e, x)
        &&& forall|k: int, c: int|
            0 <= k < self.agents_v().len() && 0 <= c < self.agents_v()[k].capabilities.len()
                ==> bucket_has(
                self.cap_index_v(),
                (#[trigger] self.agents_v()[k].capabilities[c]),
                self.agents_v()[k].id,
            )
        &&& forall|e: int, f: int|
            0 <= e < f < self.type_index_v().len() ==> self.type_index_v()[e].0
                != self.type_index_v()[f].0
        &&& forall|e: int|
            0 <= e < self.type_index_v().len() ==> (#[trigger] self.type_index_v()[e]).1.len()
                > 0
        &&& forall|e: int, x: int|
            0 <= e < self.type_index_v().len() && 0 <= x < self.type_index_v()[e].1.len()
                ==> #[trigger] self.type_entry_resolves(e, x)
        &&& forall|k: int|
            0 <= k < self.agents_v().len() ==> bucket_has(
                self.type_index_v(),
                (#[trigger] self.agents_v()[k]).agent_type,
                self.agents_v()[k].id,
            )
    }

    /// A fresh empty registry.
    pub fn new(config: RegistryConfig) -> (r: AgentRegistry)
        ensures
            r.wf(),
            r.agents_v() =~= Seq::<AgentInfoView>::empty(),
            r.cap_index_v() =~= Seq::<(CapabilityView, Seq<Seq<char>>)>::empty(),
            r.type_index_v() =~= Seq::<(AgentTypeView, Seq<Seq<char>>)>::empty(),
            r.config_v() == config,
    {
        let r = AgentRegistry {
            agents: Vec::new(),
            capability_index: Vec::new(),
            type_index: Vec::new(),
            config,
        };
        proof {
            assert(r.agents_v() =~= Seq::<AgentInfoView>::empty());
            assert(r.cap_index_v() =~= Seq::<(CapabilityView, Seq<Seq<char>>)>::empty());
            assert(r.type_index_v() =~= Seq::<(AgentTypeView, Seq<Seq<char>>)>::empty());
        }
        r
    }
}

/// The position of the row with this id.
#[verifier::loop_isolation(false)]
fn find_row(agents: &Vec<AgentInfo>, id: &str) -> (r: Option<usize>)
    ensures
        match r {
            Some(j) => j < agents.deep_view().len() && agents.deep_view()[j as int].id == id@,
            None => !has_row(agents.deep_view(), id@),
        },
{
    let id_owned = id.to_owned();
    let mut k: usize = 0;
    while k < agents.len()
        invariant
            k <= agents.len(),
            forall|j: int| 0 <= j < k ==> agents.deep_view()[j].id != id@,
        decreases agents.len() - k,
    {
        if agents[k].id == id_owned {
            return Some(k);
        }
        k += 1;
    }
    None
}

/// Adds `id` under `cap`: into the existing bucket, or as a fresh entry.
#[verifier::loop_isolation(false)]
fn index_add_cap(index: &mut Vec<(AgentCapability, Vec<String>)>, cap: &AgentCapability, id: &String)
    ensures
        ({
            let pre = index_view(old(index)@);
            let post = index_view(final(index)@);
            if exists|e: int| 0 <= e < pre.len() && pre[e].0 == cap@ {
                exists|e: int|
                    0 <= e < pre.len() && pre[e].0 == cap@ && post =~= pre.update(
                        e,
                        (cap@, pre[e].1.push(id@)),
                    )
            } else {
                post =~= pre.push((cap@, seq![id@]))
            }
        }),
{
    let ghost pre = index_view(index@);
    let mut k: usize = 0;
    while k < index.len()
        invariant
            k <= index.len(),
            index_view(index@) == pre,
            forall|e: int| 0 <= e < k ==> pre[e].0 != cap@,
        decreases index.len() - k,
    {
        proof {
            assert(pre[k as int].0 == index@[k as int].0.deep_view());
        }
        if index[k].0.same_as(cap) {
            let ghost bucket = pre[k as int].1;
            index[k].1.push(id.clone());
            proof {
                assert(index_view(index@)[k as int].1 =~= bucket.push(id@));
                assert(index_view(index@) =~= pre.update(
                    k as int,
                    (cap@, bucket.push(id@)),
                ));
            }
            return ;
        }
        k += 1;
    }
    let mut fresh: Vec<String> = Vec::new();
    fresh.push(id.clone());
    index.push((cap.duplicate(), fresh));
    proof {
        assert(index_view(index@)[pre.len() as int].1 =~= seq![id@]);
        assert(index_view(index@) =~= pre.push((cap@, seq![id@])));
    }
}

/// Adds `id` under `t`: into the existing bucket, or as a fresh entry.
#[verifier::loop_isolation(false)]
fn index_add_type(index: &mut Vec<(AgentType, Vec<String>)>, t: &AgentType, id: &String)
    ensures
        ({
            let pre = index_view(old(index)@);
            let post = index_view(final(index)@);
            if exists|e: int| 0 <= e < pre.len() && pre[e].0 == t@ {
                exists|e: int|
                    0 <= e < pre.len() && pre[e].0 == t@ && post =~= pre.update(
                        e,
                        (t@, pre[e].1.push(id@)),
                    )
            } else {
                post =~= pre.push((t@, seq![id@]))
            }
        }),
{
    let ghost pre = index_view(index@);
    let mut k: usize = 0;
    while k < index.len()
        invariant
            k <= index.len(),
            index_view(index@) == pre,
            forall|e: int| 0 <= e < k ==> pre[e].0 != t@,
        decreases index.len() - k,
    {
        proof {
            assert(pre[k as int].0 == index@[k as int].0.deep_view());
        }
        if index[k].0.same_as(t) {
            let ghost bucket = pre[k as int].1;
            index[k].1.push(id.clone());
            proof {
                assert(index_view(index@)[k as int].1 =~= bucket.push(id@));
                assert(index_view(index@) =~= pre.update(
                    k as int,
                    (t@, bucket.push(id@)),
                ));
            }
            return ;
        }
        k += 1;
    }
    let mut fresh: Vec<String> = Vec::new();
    fresh.push(id.clone());
    index.push((t.duplicate(), fresh));
    proof {
        assert(index_view(index@)[pre.len() as int].1 =~= seq![id@]);
        assert(index_view(index@) =~= pre.push((t@, seq![id@])));
    }
}

impl AgentRegistry {
    /// Inserts a row and indexes its id under each declared capability and
    /// under its type. An id that is already registered is rejected and
    /// nothing changes.
    #[verifier::loop_isolation(false)]
    #[verifier::rlimit(100)]
    pub fn register(&mut self, info: AgentInfo) -> (r: Result<(), AgentError>)
        requires
            old(self).wf(),
        ensures
            final(self).wf(),
            final(self).config_v() == old(self).config_v(),
            match r {
                Ok(()) => ({
                    &&& !old(self).registered(info@.id)
                    &&& final(self).agents_v() =~= old(self).agents_v().push(info@)
                }),
                Err(e) => ({
                    &&& old(self).registered(info@.id)
                    &&& e@ is InternalError
                    &&& final(self).agents_v() == old(self).agents_v()
                    &&& final(self).cap_index_v() == old(self).cap_index_v()
                    &&& final(self).type_index_v() == old(self).type_index_v()
                }),
            },
    {
        if find_row(&self.agents, self.id_of(&info)).is_some() {
            return Err(AgentError::InternalError("agent id already registered".to_owned()));
        }
        let ghost iv = info@;
        let ghost rows0 = self.agents_v();
        let AgentInfo { id, agent_type, capabilities, status, last_heartbeat, metadata } = info;
        let row = AgentInfo {
            id: id.clone(),
            agent_type: agent_type.duplicate(),
            capabilities: duplicate_capabilities(&capabilities),
            status,
            last_heartbeat,
            metadata,
        };
        proof {
            assert(row@ == iv);
        }
        self.agents.push(row);
        proof {
            assert(self.agents_v() =~= rows0.push(iv));
            assert(self.cap_index_v() == old(self).cap_index_v());
            assert(self.type_index_v() == old(self).type_index_v());
            assert(forall|k: int|
                0 <= k < rows0.len() ==> (#[trigger] self.agents_v()[k]) == rows0[k]);
            assert forall|e: int, x: int|
                0 <= e < self.cap_index_v().len() && 0 <= x
                    < self.cap_index_v()[e].1.len() implies ((#[trigger] self.cap_index_v()[
            e].1[x]) == iv.id && iv.capabilities.contains(self.cap_index_v()[e].0)) || (exists|
                k: int,
            |
                0 <= k < rows0.len() && (#[trigger] rows0[k]).id == self.cap_index_v()[e].1[x]
                    && rows0[k].capabilities.contains(self.cap_index_v()[e].0)) by {
                assert(old(self).cap_entry_resolves(e, x));
                let k0 = choose|k: int|
                    0 <= k < old(self).agents_v().len() && (#[trigger] old(self).agents_v()[
                    k]).id == old(self).cap_index_v()[e].1[x] && old(self).agents_v()[k].capabilities.contains(old(self).cap_index_v()[e].0);
                assert(rows0[k0] == old(self).agents_v()[k0]);
            }
        }
        let mut c: usize = 0;
        while c < capabilities.len()
            invariant
                c <= capabilities.len(),
                self.agents_v() == rows0.push(iv),
                self.config_v() == old(self).config_v(),
                self.type_index_v() == old(self).type_index_v(),
                iv.capabilities == capabilities.deep_view(),
                id@ == iv.id,
                forall|e: int, f: int|
                    0 <= e < f < self.cap_index_v().len() ==> self.cap_index_v()[e].0
                        != self.cap_index_v()[f].0,
                forall|e: int|
                    0 <= e < self.cap_index_v().len() ==> (#[trigger] self.cap_index_v()[
                    e]).1.len() > 0,
                forall|e: int, x: int|
                    0 <= e < self.cap_index_v().len() && 0 <= x < self.cap_index_v()[e].1.len()
                        ==> ((#[trigger] self.cap_index_v()[e].1[x]) == iv.id
                        && iv.capabilities.contains(self.cap_index_v()[e].0)) || (exists|k: int|
                        0 <= k < rows0.len() && (#[trigger] rows0[k]).id
                            == self.cap_index_v()[e].1[x] && rows0[k].capabilities.contains(
                            self.cap_index_v()[e].0,
                        )),
                forall|k: int, cc: int|
                    0 <= k < rows0.len() && 0 <= cc < rows0[k].capabilities.len() ==> bucket_has(
                        self.cap_index_v(),
                        (#[trigger] rows0[k].capabilities[cc]),
                        rows0[k].id,
                    ),
                forall|cc: int|
                    0 <= cc < c ==> bucket_has(
                        self.cap_index_v(),
                        (#[trigger] iv.capabilities[cc]),
                        iv.id,
                    ),
            decreases capabilities.len() - c,
        {
            let ghost pre_idx = self.cap_index_v();
            proof {
                assert(capabilities.deep_view()[c as int] == capabilities@[c as int].deep_view());
            }
            index_add_cap(&mut self.capability_index, &capabilities[c], &id);
            proof {
                lemma_index_grow(pre_idx, self.cap_index_v(), capabilities@[c as int]@, id@);
                assert(iv.capabilities.contains(iv.capabilities[c as int]));
            }
            c += 1;
        }
        let ghost pre_t = self.type_index_v();
        let ghost capx = self.cap_index_v();
        index_add_type(&mut self.type_index, &agent_type, &id);
        proof {
            lemma_index_grow(pre_t, self.type_index_v(), agent_type@, id@);
            assert(self.cap_index_v() == capx);
            assert forall|e: int, f: int|
                0 <= e < f < self.cap_index_v().len() implies self.cap_index_v()[e].0
                != self.cap_index_v()[f].0 by {
                assert(self.cap_index_v()[e] == capx[e] && self.cap_index_v()[f] == capx[f]);
            }
            assert forall|e: int|
                0 <= e < self.cap_index_v().len() implies (#[trigger] self.cap_index_v()[
            e]).1.len() > 0 by {
                assert(self.cap_index_v()[e] == capx[e]);
            }
            assert forall|e: int, x: int|
                0 <= e < self.cap_index_v().len() && 0 <= x
                    < self.cap_index_v()[e].1.len() implies ((#[trigger] self.cap_index_v()[
            e].1[x]) == iv.id && iv.capabilities.contains(self.cap_index_v()[e].0)) || (exists|
                k: int,
            |
                0 <= k < rows0.len() && (#[trigger] rows0[k]).id == self.cap_index_v()[e].1[x]
                    && rows0[k].capabilities.contains(self.cap_index_v()[e].0)) by {
                assert(self.cap_index_v()[e] == capx[e]);
                assert((capx[e].1[x] == iv.id && iv.capabilities.contains(capx[e].0)) || (
                exists|k: int|
                    0 <= k < rows0.len() && (#[trigger] rows0[k]).id == capx[e].1[x]
                        && rows0[k].capabilities.contains(capx[e].0)));
            }
            assert forall|k: int, cc: int|
                0 <= k < rows0.len() && 0 <= cc
                    < rows0[k].capabilities.len() implies bucket_has(
                self.cap_index_v(),
                (#[trigger] rows0[k].capabilities[cc]),
                rows0[k].id,
            ) by {
                assert(bucket_has(capx, rows0[k].capabilities[cc], rows0[k].id));
                let (e0, x0) = choose|e0: int, x0: int|
                    0 <= e0 < capx.len() && capx[e0].0 == rows0[k].capabilities[cc] && 0 <= x0
                        < capx[e0].1.len() && capx[e0].1[x0] == rows0[k].id;
                assert(self.cap_index_v()[e0] == capx[e0]);
            }
            assert forall|cc: int|
                0 <= cc < iv.capabilities.len() implies bucket_has(
                self.cap_index_v(),
                (#[trigger] iv.capabilities[cc]),
                iv.id,
            ) by {
                assert(bucket_has(capx, iv.capabilities[cc], iv.id));
                let (e0, x0) = choose|e0: int, x0: int|
                    0 <= e0 < capx.len() && capx[e0].0 == iv.capabilities[cc] && 0 <= x0 < capx[
                        e0].1.len() && capx[e0].1[x0] == iv.id;
                assert(self.cap_index_v()[e0] == capx[e0]);
            }
            assert forall|e: int, x: int|
                0 <= e < self.type_index_v().len() && 0 <= x
                    < self.type_index_v()[e].1.len() implies ((#[trigger] self.type_index_v()[
            e].1[x]) == iv.id && self.type_index_v()[e].0 == iv.agent_type) || (exists|k: int|
                0 <= k < rows0.len() && (#[trigger] rows0[k]).id == self.type_index_v()[e].1[x]
                    && rows0[k].agent_type == self.type_index_v()[e].0) by {
                if !(self.type_index_v()[e].1[x] == iv.id && self.type_index_v()[e].0
                    == iv.agent_type) {
                    let (e0, x0) = choose|e0: int, x0: int|
                        0 <= e0 < pre_t.len() && 0 <= x0 < pre_t[e0].1.len() && pre_t[e0].0
                            == self.type_index_v()[e].0 && pre_t[e0].1[x0]
                            == self.type_index_v()[e].1[x];
                    assert(old(self).type_entry_resolves(e0, x0));
                    let k0 = choose|k: int|
                        0 <= k < old(self).agents_v().len() && (#[trigger] old(self).agents_v()[
                        k]).id == old(self).type_index_v()[e0].1[x0] && old(self).agents_v()[k].agent_type == old(self).type_index_v()[e0].0;
                    assert(rows0[k0] == old(self).agents_v()[k0]);
                }
            }
            assert forall|k: int|
                0 <= k < rows0.len() implies bucket_has(
                self.type_index_v(),
                (#[trigger] rows0[k]).agent_type,
                rows0[k].id,
            ) by {
                assert(bucket_has(pre_t, rows0[k].agent_type, rows0[k].id));
            }
            assert(bucket_has(self.type_index_v(), iv.agent_type, iv.id));
            self.lemma_register_wf(rows0, iv);
        }
        Ok(())
    }

    /// Establishes well-formedness after a row push and index growth, from
    /// the invariants the growth left behind.
    #[verifier::rlimit(100)]
    proof fn lemma_register_wf(&self, rows0: Seq<AgentInfoView>, iv: AgentInfoView)
        requires
            self.agents_v() == rows0.push(iv),
            forall|i: int, k: int| 0 <= i < k < rows0.len() ==> rows0[i].id != rows0[k].id,
            !has_row(rows0, iv.id),
            forall|e: int, f: int|
                0 <= e < f < self.cap_index_v().len() ==> self.cap_index_v()[e].0
                    != self.cap_index_v()[f].0,
            forall|e: int|
                0 <= e < self.cap_index_v().len() ==> (#[trigger] self.cap_index_v()[e]).1.len()
                    > 0,
            forall|e: int, x: int|
                0 <= e < self.cap_index_v().len() && 0 <= x < self.cap_index_v()[e].1.len()
                    ==> ((#[trigger] self.cap_index_v()[e].1[x]) == iv.id
                    && iv.capabilities.contains(self.cap_index_v()[e].0)) || (exists|k: int|
                    0 <= k < rows0.len() && (#[trigger] rows0[k]).id == self.cap_index_v()[e].1[
                    x] && rows0[k].capabilities.contains(self.cap_index_v()[e].0)),
            forall|k: int, cc: int|
                0 <= k < rows0.len() && 0 <= cc < rows0[k].capabilities.len() ==> bucket_has(
                    self.cap_index_v(),
                    (#[trigger] rows0[k].capabilities[cc]),
                    rows0[k].id,
                ),
            forall|cc: int|
                0 <= cc < iv.capabilities.len() ==> bucket_has(
                    self.cap_index_v(),
                    (#[trigger] iv.capabilities[cc]),
                    iv.id,
                ),
            forall|e: int, f: int|
                0 <= e < f < self.type_index_v().len() ==> self.type_index_v()[e].0
                    != self.type_index_v()[f].0,
            forall|e: int|
                0 <= e < self.type_index_v().len() ==> (#[trigger] self.type_index_v()[
                e]).1.len() > 0,
            forall|e: int, x: int|
                0 <= e < self.type_index_v().len() && 0 <= x < self.type_index_v()[e].1.len()
                    ==> ((#[trigger] self.type_index_v()[e].1[x]) == iv.id
                    && self.type_index_v()[e].0 == iv.agent_type) || (exists|k: int|
                    0 <= k < rows0.len() && (#[trigger] rows0[k]).id == self.type_index_v()[
                    e].1[x] && rows0[k].agent_type == self.type_index_v()[e].0),
            forall|k: int|
                0 <= k < rows0.len() ==> bucket_has(
                    self.type_index_v(),
                    (#[trigger] rows0[k]).agent_type,
                    rows0[k].id,
                ),
            bucket_has(self.type_index_v(), iv.agent_type, iv.id),
        ensures
            self.wf(),
    {
        assert(forall|k: int|
            0 <= k < rows0.len() ==> (#[trigger] self.agents_v()[k]) == rows0[k]);
        assert(self.agents_v()[rows0.len() as int] == iv);
        assert forall|i: int, k: int|
            0 <= i < k < self.agents_v().len() implies self.agents_v()[i].id
            != self.agents_v()[k].id by {
            if k == rows0.len() {
                assert(self.agents_v()[i] == rows0[i]);
                assert(!has_row(rows0, iv.id));
            } else {
                assert(self.agents_v()[i] == rows0[i] && self.agents_v()[k] == rows0[k]);
            }
        }
        assert forall|e: int, x: int|
            0 <= e < self.cap_index_v().len() && 0 <= x
                < self.cap_index_v()[e].1.len() implies #[trigger] self.cap_entry_resolves(
            e,
            x,
        ) by {
            if self.cap_index_v()[e].1[x] == iv.id && iv.capabilities.contains(
                self.cap_index_v()[e].0,
            ) {
                assert(self.agents_v()[rows0.len() as int].id == self.cap_index_v()[e].1[x]);
            } else {
                let k0 = choose|k: int|
                    0 <= k < rows0.len() && (#[trigger] rows0[k]).id == self.cap_index_v()[e].1[
                    x] && rows0[k].capabilities.contains(self.cap_index_v()[e].0);
                assert(self.agents_v()[k0] == rows0[k0]);
            }
        }
        assert forall|k: int, cc: int|
            #![trigger self.agents_v()[k].capabilities[cc]]
            0 <= k < self.agents_v().len() && 0 <= cc
                < self.agents_v()[k].capabilities.len() implies bucket_has(
            self.cap_index_v(),
            (self.agents_v()[k].capabilities[cc]),
            self.agents_v()[k].id,
        ) by {
            if k < rows0.len() {
                assert(self.agents_v()[k] == rows0[k]);
                assert(bucket_has(self.cap_index_v(), rows0[k].capabilities[cc], rows0[k].id));
            } else {
                assert(self.agents_v()[k] == iv);
                assert(bucket_has(self.cap_index_v(), iv.capabilities[cc], iv.id));
            }
        }
        assert forall|e: int, x: int|
            0 <= e < self.type_index_v().len() && 0 <= x
                < self.type_index_v()[e].1.len() implies #[trigger] self.type_entry_resolves(
            e,
            x,
        ) by {
            if self.type_index_v()[e].1[x] == iv.id && self.type_index_v()[e].0
                == iv.agent_type {
                assert(self.agents_v()[rows0.len() as int].id == self.type_index_v()[e].1[x]);
            } else {
                let k0 = choose|k: int|
                    0 <= k < rows0.len() && (#[trigger] rows0[k]).id == self.type_index_v()[
                    e].1[x] && rows0[k].agent_type == self.type_index_v()[e].0;
                assert(self.agents_v()[k0] == rows0[k0]);
            }
        }
        assert forall|k: int|
            #![trigger self.agents_v()[k]]
            0 <= k < self.agents_v().len() implies bucket_has(
            self.type_index_v(),
            (self.agents_v()[k]).agent_type,
            self.agents_v()[k].id,
        ) by {
            if k < rows0.len() {
                assert(self.agents_v()[k] == rows0[k]);
                assert(bucket_has(self.type_index_v(), rows0[k].agent_type, rows0[k].id));
            } else {
                assert(self.agents_v()[k] == iv);
            }
        }
        assert(self.wf());
    }

    /// Reads the id out of a row.
    fn id_of<'a>(&self, info: &'a AgentInfo) -> (r: &'a str)
        ensures
            r@ == info@.id,
    {
        info.id.as_str()
    }
}

/// One index addition preserves buckets: everything indexed before stays
/// indexed, the new id is indexed under the new key, keys stay unique and
/// buckets stay non-empty; every bucket element is an old one or the new id.
pub proof fn lemma_index_grow<K>(
    pre: Seq<(K, Seq<Seq<char>>)>,
    post: Seq<(K, Seq<Seq<char>>)>,
    key: K,
    id: Seq<char>,
)
    requires
        if exists|e: int| 0 <= e < pre.len() && pre[e].0 == key {
            exists|e: int|
                0 <= e < pre.len() && pre[e].0 == key && post == pre.update(
                    e,
                    (key, pre[e].1.push(id)),
                )
        } else {
            post == pre.push((key, seq![id]))
        },
        forall|e: int, f: int| 0 <= e < f < pre.len() ==> pre[e].0 != pre[f].0,
        forall|e: int| 0 <= e < pre.len() ==> (#[trigger] pre[e]).1.len() > 0,
    ensures
        forall|k2: K, id2: Seq<char>|
            bucket_has(pre, k2, id2) ==> #[trigger] bucket_has(post, k2, id2),
        bucket_has(post, key, id),
        forall|e: int, f: int| 0 <= e < f < post.len() ==> post[e].0 != post[f].0,
        forall|e: int| 0 <= e < post.len() ==> (#[trigger] post[e]).1.len() > 0,
        forall|e: int, x: int|
            0 <= e < post.len() && 0 <= x < post[e].1.len() ==> ((#[trigger] post[e].1[x]) == id
                && post[e].0 == key) || (exists|e2: int, x2: int|
                0 <= e2 < pre.len() && 0 <= x2 < pre[e2].1.len() && pre[e2].0 == post[e].0
                    && pre[e2].1[x2] == post[e].1[x]),
{
    if exists|e: int| 0 <= e < pre.len() && pre[e].0 == key {
        let e0 = choose|e: int| 0 <= e < pre.len() && pre[e].0 == key;
        assert(post[e0].1 == pre[e0].1.push(id));
        assert(post[e0].1[pre[e0].1.len() as int] == id);
        assert forall|k2: K, id2: Seq<char>|
            bucket_has(pre, k2, id2) implies #[trigger] bucket_has(post, k2, id2) by {
            let (e, x) = choose|e: int, x: int|
                0 <= e < pre.len() && pre[e].0 == k2 && 0 <= x < pre[e].1.len() && pre[e].1[x]
                    == id2;
            assert(post[e].0 == k2 && post[e].1[x] == id2);
        }
    } else {
        assert(post[pre.len() as int].1[0] == id);
        assert forall|k2: K, id2: Seq<char>|
            bucket_has(pre, k2, id2) implies #[trigger] bucket_has(post, k2, id2) by {
            let (e, x) = choose|e: int, x: int|
                0 <= e < pre.len() && pre[e].0 == k2 && 0 <= x < pre[e].1.len() && pre[e].1[x]
                    == id2;
            assert(post[e].0 == k2 && post[e].1[x] == id2);
        }
    }
}


/// The ids of a bucket without `id`, in order.
pub open spec fn without_id(ids: Seq<Seq<char>>, id: Seq<char>) -> Seq<Seq<char>>
    decreases ids.len(),
{
    if ids.len() == 0 {
        Seq::empty()
    } else if ids.last() != id {
        without_id(ids.drop_last(), id).push(ids.last())
    } else {
        without_id(ids.drop_last(), id)
    }
}

/// An index after removing `id` everywhere; entries left empty fall away.
pub open spec fn purge_index<K>(s: Seq<(K, Seq<Seq<char>>)>, id: Seq<char>) -> Seq<(
    K,
    Seq<Seq<char>>,
)>
    decreases s.len(),
{
    if s.len() == 0 {
        Seq::empty()
    } else if without_id(s.last().1, id).len() > 0 {
        purge_index(s.drop_last(), id).push((s.last().0, without_id(s.last().1, id)))
    } else {
        purge_index(s.drop_last(), id)
    }
}

/// Filtering a bucket keeps exactly the other ids.
pub proof fn lemma_without_id(ids: Seq<Seq<char>>, id: Seq<char>)
    ensures
        forall|x: int|
            0 <= x < without_id(ids, id).len() ==> (#[trigger] without_id(ids, id)[x]) != id
                && ids.contains(without_id(ids, id)[x]),
        forall|y: int|
            0 <= y < ids.len() && ids[y] != id ==> without_id(ids, id).contains(
                #[trigger] ids[y],
            ),
    decreases ids.len(),
{
    if ids.len() > 0 {
        lemma_without_id(ids.drop_last(), id);
        assert(forall|y: int| 0 <= y < ids.len() - 1 ==> ids.drop_last()[y] == ids[y]);
        assert forall|y: int|
            0 <= y < ids.len() && ids[y] != id implies without_id(ids, id).contains(
            #[trigger] ids[y],
        ) by {
            if y < ids.len() - 1 {
                assert(without_id(ids.drop_last(), id).contains(ids[y]));
                let x0 = choose|x: int|
                    0 <= x < without_id(ids.drop_last(), id).len() && without_id(
                        ids.drop_last(),
                        id,
                    )[x] == ids[y];
                if ids.last() != id {
                    assert(without_id(ids, id)[x0] == ids[y]);
                }
            } else {
                assert(ids.last() == ids[y]);
                assert(without_id(ids, id).last() == ids[y]);
            }
        }
        assert forall|x: int|
            0 <= x < without_id(ids, id).len() implies (#[trigger] without_id(ids, id)[x]) != id
            && ids.contains(without_id(ids, id)[x]) by {
            if ids.last() != id && x == without_id(ids, id).len() - 1 {
                assert(without_id(ids, id)[x] == ids.last());
                assert(ids[ids.len() - 1] == ids.last());
            } else {
                assert(without_id(ids, id)[x] == without_id(ids.drop_last(), id)[x]);
                assert(ids.drop_last().contains(without_id(ids.drop_last(), id)[x]));
                let y0 = choose|y: int|
                    0 <= y < ids.drop_last().len() && ids.drop_last()[y] == without_id(
                        ids.drop_last(),
                        id,
                    )[x];
                assert(ids[y0] == without_id(ids, id)[x]);
            }
        }
    }
}

/// Purging an index removes `id` and nothing else: every surviving entry
/// comes from an old entry with the same key and its bucket filtered;
/// every old entry with another id left keeps a home; keys stay unique and
/// buckets non-empty.
pub proof fn lemma_purge<K>(s: Seq<(K, Seq<Seq<char>>)>, id: Seq<char>)
    ensures
        forall|k: int|
            0 <= k < purge_index(s, id).len() ==> exists|j: int|
                0 <= j < s.len() && (#[trigger] purge_index(s, id)[k]).0 == s[j].0 && purge_index(
                    s,
                    id,
                )[k].1 == without_id(s[j].1, id),
        forall|j: int|
            0 <= j < s.len() && without_id((#[trigger] s[j]).1, id).len() > 0 ==> exists|k: int|
                0 <= k < purge_index(s, id).len() && (#[trigger] purge_index(s, id)[k]).0 == s[
                    j].0 && purge_index(s, id)[k].1 == without_id(s[j].1, id),
        forall|k: int|
            0 <= k < purge_index(s, id).len() ==> (#[trigger] purge_index(s, id)[k]).1.len() > 0,
        (forall|e: int, f: int| 0 <= e < f < s.len() ==> s[e].0 != s[f].0) ==> (forall|
            e: int,
            f: int,
        | 0 <= e < f < purge_index(s, id).len() ==> purge_index(s, id)[e].0 != purge_index(
            s,
            id,
        )[f].0),
    decreases s.len(),
{
    if s.len() > 0 {
        lemma_purge(s.drop_last(), id);
        assert(forall|j: int| 0 <= j < s.len() - 1 ==> s.drop_last()[j] == s[j]);
        let p = purge_index(s, id);
        let pd = purge_index(s.drop_last(), id);
        assert forall|j: int|
            0 <= j < s.len() && without_id((#[trigger] s[j]).1, id).len() > 0 implies exists|
            k: int,
        |
            0 <= k < p.len() && (#[trigger] p[k]).0 == s[j].0 && p[k].1 == without_id(
                s[j].1,
                id,
            ) by {
            if j < s.len() - 1 {
                let k0 = choose|k: int|
                    0 <= k < pd.len() && (#[trigger] pd[k]).0 == s.drop_last()[j].0 && pd[k].1
                        == without_id(s.drop_last()[j].1, id);
                assert(p[k0] == pd[k0]);
            } else {
                assert(s[j] == s.last());
                assert(p.last().0 == s.last().0);
            }
        }
    }
}


/// Rebuilds a capability index without `id`.
#[verifier::loop_isolation(false)]
fn purge_cap_index(index: &mut Vec<(AgentCapability, Vec<String>)>, id: &str)
    ensures
        index_view(final(index)@) =~= purge_index(index_view(old(index)@), id@),
{
    let id_owned = id.to_owned();
    let ghost pre = index_view(index@);
    let mut out: Vec<(AgentCapability, Vec<String>)> = Vec::new();
    let mut k: usize = 0;
    while k < index.len()
        invariant
            k <= index.len(),
            id_owned@ == id@,
            index_view(index@) == pre,
            index_view(out@) =~= purge_index(pre.take(k as int), id@),
        decreases index.len() - k,
    {
        proof {
            assert(pre.take(k as int + 1).drop_last() =~= pre.take(k as int));
            assert(pre.take(k as int + 1).last() == pre[k as int]);
            assert(pre[k as int].1 == index@[k as int].1.deep_view());
            assert(pre[k as int].0 == index@[k as int].0.deep_view());
        }
        let mut ids: Vec<String> = Vec::new();
        let mut v: usize = 0;
        while v < bucket_len_cap(index, k)
            invariant
                k < index.len(),
                v <= index@[k as int].1.len(),
                ids.deep_view() =~= without_id(pre[k as int].1.take(v as int), id@),
                id_owned@ == id@,
                index_view(index@) == pre,
                pre[k as int].1 == index@[k as int].1.deep_view(),
            decreases index@[k as int].1.len() - v,
        {
            proof {
                assert(pre[k as int].1.take(v as int + 1).drop_last() =~= pre[k as int].1.take(
                    v as int,
                ));
                assert(pre[k as int].1.take(v as int + 1).last() == pre[k as int].1[v as int]);
            }
            if !(index[k].1[v] == id_owned) {
                let ghost isnap = ids.deep_view();
                ids.push(index[k].1[v].clone());
                proof {
                    assert(forall|z: int|
                        0 <= z < isnap.len() ==> (#[trigger] ids.deep_view()[z]) == isnap[z]);
                    assert(ids.deep_view() =~= isnap.push(pre[k as int].1[v as int]));
                }
            }
            v += 1;
        }
        proof {
            assert(pre[k as int].1.take(pre[k as int].1.len() as int) =~= pre[k as int].1);
        }
        if ids.len() > 0 {
            let ghost osnap = index_view(out@);
            let key = index[k].0.duplicate();
            out.push((key, ids));
            proof {
                assert(index_view(out@) =~= osnap.push(
                    (pre[k as int].0, without_id(pre[k as int].1, id@)),
                ));
            }
        }
        k += 1;
    }
    proof {
        assert(pre.take(pre.len() as int) =~= pre);
    }
    *index = out;
}

/// Rebuilds a type index without `id`.
#[verifier::loop_isolation(false)]
fn purge_type_index(index: &mut Vec<(AgentType, Vec<String>)>, id: &str)
    ensures
        index_view(final(index)@) =~= purge_index(index_view(old(index)@), id@),
{
    let id_owned = id.to_owned();
    let ghost pre = index_view(index@);
    let mut out: Vec<(AgentType, Vec<String>)> = Vec::new();
    let mut k: usize = 0;
    while k < index.len()
        invariant
            k <= index.len(),
            id_owned@ == id@,
            index_view(index@) == pre,
            index_view(out@) =~= purge_index(pre.take(k as int), id@),
        decreases index.len() - k,
    {
        proof {
            assert(pre.take(k as int + 1).drop_last() =~= pre.take(k as int));
            assert(pre.take(k as int + 1).last() == pre[k as int]);
            assert(pre[k as int].1 == index@[k as int].1.deep_view());
            assert(pre[k as int].0 == index@[k as int].0.deep_view());
        }
        let mut ids: Vec<String> = Vec::new();
        let mut v: usize = 0;
        while v < bucket_len_type(index, k)
            invariant
                k < index.len(),
                v <= index@[k as int].1.len(),
                ids.deep_view() =~= without_id(pre[k as int].1.take(v as int), id@),
                id_owned@ == id@,
                index_view(index@) == pre,
                pre[k as int].1 == index@[k as int].1.deep_view(),
            decreases index@[k as int].1.len() - v,
        {
            proof {
                assert(pre[k as int].1.take(v as int + 1).drop_last() =~= pre[k as int].1.take(
                    v as int,
                ));
                assert(pre[k as int].1.take(v as int + 1).last() == pre[k as int].1[v as int]);
            }
            if !(index[k].1[v] == id_owned) {
                let ghost isnap = ids.deep_view();
                ids.push(index[k].1[v].clone());
                proof {
                    assert(forall|z: int|
                        0 <= z < isnap.len() ==> (#[trigger] ids.deep_view()[z]) == isnap[z]);
                    assert(ids.deep_view() =~= isnap.push(pre[k as int].1[v as int]));
                }
            }
            v += 1;
        }
        proof {
            assert(pre[k as int].1.take(pre[k as int].1.len() as int) =~= pre[k as int].1);
        }
        if ids.len() > 0 {
            let ghost osnap = index_view(out@);
            let key = index[k].0.duplicate();
            out.push((key, ids));
            proof {
                assert(index_view(out@) =~= osnap.push(
                    (pre[k as int].0, without_id(pre[k as int].1, id@)),
                ));
            }
        }
        k += 1;
    }
    proof {
        assert(pre.take(pre.len() as int) =~= pre);
    }
    *index = out;
}

/// Bucket length of one capability-index entry.
fn bucket_len_cap(index: &Vec<(AgentCapability, Vec<String>)>, k: usize) -> (r: usize)
    requires
        k < index@.len(),
    ensures
        r == index@[k as int].1.len(),
{
    index[k].1.len()
}

/// Bucket length of one type-index entry.
fn bucket_len_type(index: &Vec<(AgentType, Vec<String>)>, k: usize) -> (r: usize)
    requires
        k < index@.len(),
    ensures
        r == index@[k as int].1.len(),
{
    index[k].1.len()
}

impl AgentRegistry {
    /// Removes a row and every reference to it from both indices; empty
    /// buckets fall away. An unknown id fails with `AgentNotFound`.
    #[verifier::loop_isolation(false)]
    #[verifier::rlimit(100)]
    pub fn unregister(&mut self, agent_id: &str) -> (r: Result<(), AgentError>)
        requires
            old(self).wf(),
        ensures
            final(self).wf(),
            final(self).config_v() == old(self).config_v(),
            !final(self).registered(agent_id@),
            match r {
                Ok(()) => ({
                    &&& old(self).registered(agent_id@)
                    &&& exists|j: int|
                        0 <= j < old(self).agents_v().len() && (#[trigger] old(self).agents_v()[
                        j]).id == agent_id@ && final(self).agents_v() =~= old(self).agents_v().remove(j)
                    &&& final(self).cap_index_v() =~= purge_index(
                        old(self).cap_index_v(),
                        agent_id@,
                    )
                    &&& final(self).type_index_v() =~= purge_index(
                        old(self).type_index_v(),
                        agent_id@,
                    )
                    &&& forall|e: int, x: int|
                        0 <= e < final(self).cap_index_v().len() && 0 <= x < final(self).cap_index_v()[e].1.len() ==> (#[trigger] final(self).cap_index_v()[
                        e].1[x]) != agent_id@
                    &&& forall|e: int, x: int|
                        0 <= e < final(self).type_index_v().len() && 0 <= x < final(self).type_index_v()[e].1.len() ==> (#[trigger] final(self).type_index_v()[
                        e].1[x]) != agent_id@
                }),
                Err(e) => ({
                    &&& !old(self).registered(agent_id@)
                    &&& e@ == AgentErrorView::AgentNotFound(agent_id@)
                    &&& final(self).agents_v() == old(self).agents_v()
                    &&& final(self).cap_index_v() == old(self).cap_index_v()
                    &&& final(self).type_index_v() == old(self).type_index_v()
                }),
            },
    {
        let j = match find_row(&self.agents, agent_id) {
            None => {
                return Err(AgentError::AgentNotFound(agent_id.to_owned()));
            },
            Some(j) => j,
        };
        let ghost rows0 = self.agents_v();
        let ghost cap0 = self.cap_index_v();
        let ghost type0 = self.type_index_v();
        self.agents.remove(j);
        purge_cap_index(&mut self.capability_index, agent_id);
        purge_type_index(&mut self.type_index, agent_id);
        proof {
            assert(self.agents_v() =~= rows0.remove(j as int));
            lemma_purge(cap0, agent_id@);
            lemma_purge(type0, agent_id@);
            assert forall|e: int, x: int|
                0 <= e < cap0.len() && 0 <= x < cap0[e].1.len() implies exists|k: int|
                0 <= k < rows0.len() && (#[trigger] rows0[k]).id == (#[trigger] cap0[e].1[x])
                    && rows0[k].capabilities.contains(cap0[e].0) by {
                assert(old(self).cap_entry_resolves(e, x));
            }
            assert forall|e: int, x: int|
                0 <= e < type0.len() && 0 <= x < type0[e].1.len() implies exists|k: int|
                0 <= k < rows0.len() && (#[trigger] rows0[k]).id == (#[trigger] type0[e].1[x])
                    && rows0[k].agent_type == type0[e].0 by {
                assert(old(self).type_entry_resolves(e, x));
            }
            self.lemma_unregister_wf(rows0, j as int, cap0, type0, agent_id@);
        }
        Ok(())
    }

    /// Re-establishes well-formedness after a row removal and index purge.
    #[verifier::rlimit(100)]
    proof fn lemma_unregister_wf(
        &self,
        rows0: Seq<AgentInfoView>,
        j: int,
        cap0: Seq<(CapabilityView, Seq<Seq<char>>)>,
        type0: Seq<(AgentTypeView, Seq<Seq<char>>)>,
        id: Seq<char>,
    )
        requires
            0 <= j < rows0.len(),
            rows0[j].id == id,
            forall|i: int, k: int| 0 <= i < k < rows0.len() ==> rows0[i].id != rows0[k].id,
            forall|e: int, f: int| 0 <= e < f < cap0.len() ==> cap0[e].0 != cap0[f].0,
            forall|e: int, x: int|
                0 <= e < cap0.len() && 0 <= x < cap0[e].1.len() ==> exists|k: int|
                    0 <= k < rows0.len() && (#[trigger] rows0[k]).id == (#[trigger] cap0[e].1[
                    x]) && rows0[k].capabilities.contains(cap0[e].0),
            forall|k: int, cc: int|
                0 <= k < rows0.len() && 0 <= cc < rows0[k].capabilities.len() ==> bucket_has(
                    cap0,
                    (#[trigger] rows0[k].capabilities[cc]),
                    rows0[k].id,
                ),
            forall|e: int, f: int| 0 <= e < f < type0.len() ==> type0[e].0 != type0[f].0,
            forall|e: int, x: int|
                0 <= e < type0.len() && 0 <= x < type0[e].1.len() ==> exists|k: int|
                    0 <= k < rows0.len() && (#[trigger] rows0[k]).id == (#[trigger] type0[e].1[
                    x]) && rows0[k].agent_type == type0[e].0,
            forall|k: int|
                0 <= k < rows0.len() ==> bucket_has(
                    type0,
                    (#[trigger] rows0[k]).agent_type,
                    rows0[k].id,
                ),
            self.agents_v() == rows0.remove(j),
            self.cap_index_v() == purge_index(cap0, id),
            self.type_index_v() == purge_index(type0, id),
        ensures
            self.wf(),
            !self.registered(id),
            forall|e: int, x: int|
                0 <= e < self.cap_index_v().len() && 0 <= x < self.cap_index_v()[e].1.len()
                    ==> (#[trigger] self.cap_index_v()[e].1[x]) != id,
            forall|e: int, x: int|
                0 <= e < self.type_index_v().len() && 0 <= x < self.type_index_v()[e].1.len()
                    ==> (#[trigger] self.type_index_v()[e].1[x]) != id,
    {
        lemma_purge(cap0, id);
        lemma_purge(type0, id);
        assert(forall|x: int|
            0 <= x < self.agents_v().len() ==> (#[trigger] self.agents_v()[x]) == if x < j {
                rows0[x]
            } else {
                rows0[x + 1]
            });
        assert forall|i: int, k: int|
            0 <= i < k < self.agents_v().len() implies self.agents_v()[i].id
            != self.agents_v()[k].id by {
            let oi: int = if i < j {
                i
            } else {
                i + 1
            };
            let ok: int = if k < j {
                k
            } else {
                k + 1
            };
            assert(self.agents_v()[i] == rows0[oi] && self.agents_v()[k] == rows0[ok]);
        }
        if self.registered(id) {
            let k = choose|k: int|
                0 <= k < self.agents_v().len() && self.agents_v()[k].id == id;
            let ok: int = if k < j {
                k
            } else {
                k + 1
            };
            assert(rows0[ok].id == rows0[j].id);
            assert(false);
        }
        lemma_unregister_cap(rows0, j, cap0, self.cap_index_v(), self.agents_v(), id);
        lemma_unregister_type(rows0, j, type0, self.type_index_v(), self.agents_v(), id);
        assert forall|e: int, x: int|
            0 <= e < self.cap_index_v().len() && 0 <= x
                < self.cap_index_v()[e].1.len() implies #[trigger] self.cap_entry_resolves(
            e,
            x,
        ) by {
            lemma_unregister_cap_member(
                rows0,
                j,
                cap0,
                self.cap_index_v(),
                self.agents_v(),
                id,
                e,
                x,
            );
        }
        assert forall|e: int, x: int|
            0 <= e < self.type_index_v().len() && 0 <= x
                < self.type_index_v()[e].1.len() implies #[trigger] self.type_entry_resolves(
            e,
            x,
        ) by {
            lemma_unregister_type_member(
                rows0,
                j,
                type0,
                self.type_index_v(),
                self.agents_v(),
                id,
                e,
                x,
            );
        }
        assert forall|e: int, x: int|
            0 <= e < self.cap_index_v().len() && 0 <= x
                < self.cap_index_v()[e].1.len() implies (#[trigger] self.cap_index_v()[e].1[x])
            != id by {
            lemma_unregister_cap_member(
                rows0,
                j,
                cap0,
                self.cap_index_v(),
                self.agents_v(),
                id,
                e,
                x,
            );
        }
        assert forall|e: int, x: int|
            0 <= e < self.type_index_v().len() && 0 <= x
                < self.type_index_v()[e].1.len() implies (#[trigger] self.type_index_v()[e].1[
        x]) != id by {
            lemma_unregister_type_member(
                rows0,
                j,
                type0,
                self.type_index_v(),
                self.agents_v(),
                id,
                e,
                x,
            );
        }
        assert(self.wf());
    }
}


/// After a row is removed and the capability index purged of its id, the
/// index again matches the rows exactly.
#[verifier::rlimit(100)]
pub proof fn lemma_unregister_cap(
    rows0: Seq<AgentInfoView>,
    j: int,
    cap0: Seq<(CapabilityView, Seq<Seq<char>>)>,
    capn: Seq<(CapabilityView, Seq<Seq<char>>)>,
    rowsn: Seq<AgentInfoView>,
    id: Seq<char>,
)
    requires
        0 <= j < rows0.len(),
        rows0[j].id == id,
        forall|i: int, k: int| 0 <= i < k < rows0.len() ==> rows0[i].id != rows0[k].id,
        forall|e: int, x: int|
            0 <= e < cap0.len() && 0 <= x < cap0[e].1.len() ==> exists|k: int|
                0 <= k < rows0.len() && (#[trigger] rows0[k]).id == (#[trigger] cap0[e].1[x])
                    && rows0[k].capabilities.contains(cap0[e].0),
        forall|k: int, cc: int|
            0 <= k < rows0.len() && 0 <= cc < rows0[k].capabilities.len() ==> bucket_has(
                cap0,
                (#[trigger] rows0[k].capabilities[cc]),
                rows0[k].id,
            ),
        capn == purge_index(cap0, id),
        rowsn == rows0.remove(j),
    ensures
        forall|e: int, x: int|
            0 <= e < capn.len() && 0 <= x < capn[e].1.len() ==> (#[trigger] capn[e].1[x]) != id
                && (exists|k: int|
                0 <= k < rowsn.len() && (#[trigger] rowsn[k]).id == capn[e].1[x]
                    && rowsn[k].capabilities.contains(capn[e].0)),
        forall|k: int, cc: int|
            0 <= k < rowsn.len() && 0 <= cc < rowsn[k].capabilities.len() ==> bucket_has(
                capn,
                (#[trigger] rowsn[k].capabilities[cc]),
                rowsn[k].id,
            ),
{
    assert forall|e: int, x: int|
        #![trigger capn[e].1[x]]
        0 <= e < capn.len() && 0 <= x < capn[e].1.len() implies capn[e].1[x] != id && (exists|
        k: int,
    |
        0 <= k < rowsn.len() && (#[trigger] rowsn[k]).id == capn[e].1[x]
            && rowsn[k].capabilities.contains(capn[e].0)) by {
        lemma_unregister_cap_member(rows0, j, cap0, capn, rowsn, id, e, x);
    }
    assert forall|k: int, cc: int|
        #![trigger rowsn[k].capabilities[cc]]
        0 <= k < rowsn.len() && 0 <= cc < rowsn[k].capabilities.len() implies bucket_has(
        capn,
        rowsn[k].capabilities[cc],
        rowsn[k].id,
    ) by {
        lemma_unregister_cap_complete(rows0, j, cap0, capn, rowsn, id, k, cc);
    }
}

/// One surviving capability-index element names a surviving row.
pub proof fn lemma_unregister_cap_member(
    rows0: Seq<AgentInfoView>,
    j: int,
    cap0: Seq<(CapabilityView, Seq<Seq<char>>)>,
    capn: Seq<(CapabilityView, Seq<Seq<char>>)>,
    rowsn: Seq<AgentInfoView>,
    id: Seq<char>,
    e: int,
    x: int,
)
    requires
        0 <= j < rows0.len(),
        rows0[j].id == id,
        forall|i: int, k: int| 0 <= i < k < rows0.len() ==> rows0[i].id != rows0[k].id,
        forall|e2: int, x2: int|
            0 <= e2 < cap0.len() && 0 <= x2 < cap0[e2].1.len() ==> exists|k: int|
                0 <= k < rows0.len() && (#[trigger] rows0[k]).id == (#[trigger] cap0[e2].1[x2])
                    && rows0[k].capabilities.contains(cap0[e2].0),
        capn == purge_index(cap0, id),
        rowsn == rows0.remove(j),
        0 <= e < capn.len(),
        0 <= x < capn[e].1.len(),
    ensures
        capn[e].1[x] != id,
        exists|k: int|
            0 <= k < rowsn.len() && (#[trigger] rowsn[k]).id == capn[e].1[x]
                && rowsn[k].capabilities.contains(capn[e].0),
{
    lemma_purge(cap0, id);
    assert(forall|y: int|
        0 <= y < rowsn.len() ==> (#[trigger] rowsn[y]) == if y < j {
            rows0[y]
        } else {
            rows0[y + 1]
        });
    let j2 = choose|j2: int|
        0 <= j2 < cap0.len() && (#[trigger] capn[e]).0 == cap0[j2].0 && capn[e].1 == without_id(
            cap0[j2].1,
            id,
        );
    lemma_without_id(cap0[j2].1, id);
    assert(cap0[j2].1.contains(capn[e].1[x]));
    let x2 = choose|x2: int| 0 <= x2 < cap0[j2].1.len() && cap0[j2].1[x2] == capn[e].1[x];
    let k0 = choose|k: int|
        0 <= k < rows0.len() && (#[trigger] rows0[k]).id == cap0[j2].1[x2]
            && rows0[k].capabilities.contains(cap0[j2].0);
    assert(rows0[k0].id != id);
    assert(k0 != j);
    if k0 < j {
        assert(rowsn[k0] == rows0[k0]);
    } else {
        assert(rowsn[k0 - 1] == rows0[k0]);
    }
}

/// Each capability of a surviving row stays indexed.
pub proof fn lemma_unregister_cap_complete(
    rows0: Seq<AgentInfoView>,
    j: int,
    cap0: Seq<(CapabilityView, Seq<Seq<char>>)>,
    capn: Seq<(CapabilityView, Seq<Seq<char>>)>,
    rowsn: Seq<AgentInfoView>,
    id: Seq<char>,
    k: int,
    cc: int,
)
    requires
        0 <= j < rows0.len(),
        rows0[j].id == id,
        forall|i: int, k2: int| 0 <= i < k2 < rows0.len() ==> rows0[i].id != rows0[k2].id,
        forall|k2: int, cc2: int|
            0 <= k2 < rows0.len() && 0 <= cc2 < rows0[k2].capabilities.len() ==> bucket_has(
                cap0,
                (#[trigger] rows0[k2].capabilities[cc2]),
                rows0[k2].id,
            ),
        capn == purge_index(cap0, id),
        rowsn == rows0.remove(j),
        0 <= k < rowsn.len(),
        0 <= cc < rowsn[k].capabilities.len(),
    ensures
        bucket_has(capn, rowsn[k].capabilities[cc], rowsn[k].id),
{
    lemma_purge(cap0, id);
    assert(forall|y: int|
        0 <= y < rowsn.len() ==> (#[trigger] rowsn[y]) == if y < j {
            rows0[y]
        } else {
            rows0[y + 1]
        });
    let orig: int = if k < j {
        k
    } else {
        k + 1
    };
    assert(rowsn[k] == rows0[orig]);
    assert(rows0[orig].id != rows0[j].id);
    assert(bucket_has(cap0, rows0[orig].capabilities[cc], rows0[orig].id));
    let (e0, x0) = choose|e0: int, x0: int|
        0 <= e0 < cap0.len() && cap0[e0].0 == rows0[orig].capabilities[cc] && 0 <= x0 < cap0[
            e0].1.len() && cap0[e0].1[x0] == rows0[orig].id;
    lemma_without_id(cap0[e0].1, id);
    assert(without_id(cap0[e0].1, id).contains(rows0[orig].id));
    let k1 = choose|k1: int|
        0 <= k1 < capn.len() && (#[trigger] capn[k1]).0 == cap0[e0].0 && capn[k1].1 == without_id(
            cap0[e0].1,
            id,
        );
    let x1 = choose|x1: int| 0 <= x1 < capn[k1].1.len() && capn[k1].1[x1] == rows0[orig].id;
    assert(capn[k1].0 == rowsn[k].capabilities[cc] && capn[k1].1[x1] == rowsn[k].id);
}

/// One surviving type-index element names a surviving row.
pub proof fn lemma_unregister_type_member(
    rows0: Seq<AgentInfoView>,
    j: int,
    type0: Seq<(AgentTypeView, Seq<Seq<char>>)>,
    typen: Seq<(AgentTypeView, Seq<Seq<char>>)>,
    rowsn: Seq<AgentInfoView>,
    id: Seq<char>,
    e: int,
    x: int,
)
    requires
        0 <= j < rows0.len(),
        rows0[j].id == id,
        forall|i: int, k: int| 0 <= i < k < rows0.len() ==> rows0[i].id != rows0[k].id,
        forall|e2: int, x2: int|
            0 <= e2 < type0.len() && 0 <= x2 < type0[e2].1.len() ==> exists|k: int|
                0 <= k < rows0.len() && (#[trigger] rows0[k]).id == (#[trigger] type0[e2].1[x2])
                    && rows0[k].agent_type == type0[e2].0,
        typen == purge_index(type0, id),
        rowsn == rows0.remove(j),
        0 <= e < typen.len(),
        0 <= x < typen[e].1.len(),
    ensures
        typen[e].1[x] != id,
        exists|k: int|
            0 <= k < rowsn.len() && (#[trigger] rowsn[k]).id == typen[e].1[x]
                && rowsn[k].agent_type == typen[e].0,
{
    lemma_purge(type0, id);
    assert(forall|y: int|
        0 <= y < rowsn.len() ==> (#[trigger] rowsn[y]) == if y < j {
            rows0[y]
        } else {
            rows0[y + 1]
        });
    let j2 = choose|j2: int|
        0 <= j2 < type0.len() && (#[trigger] typen[e]).0 == type0[j2].0 && typen[e].1
            == without_id(type0[j2].1, id);
    lemma_without_id(type0[j2].1, id);
    assert(type0[j2].1.contains(typen[e].1[x]));
    let x2 = choose|x2: int| 0 <= x2 < type0[j2].1.len() && type0[j2].1[x2] == typen[e].1[x];
    let k0 = choose|k: int|
        0 <= k < rows0.len() && (#[trigger] rows0[k]).id == type0[j2].1[x2]
            && rows0[k].agent_type == type0[j2].0;
    assert(rows0[k0].id != id);
    assert(k0 != j);
    if k0 < j {
        assert(rowsn[k0] == rows0[k0]);
    } else {
        assert(rowsn[k0 - 1] == rows0[k0]);
    }
}

/// After a row is removed and the type index purged of its id, the index
/// again matches the rows exactly.
/// One surviving type-index element names a surviving row (whole index).
pub proof fn lemma_unregister_type(
    rows0: Seq<AgentInfoView>,
    j: int,
    type0: Seq<(AgentTypeView, Seq<Seq<char>>)>,
    typen: Seq<(AgentTypeView, Seq<Seq<char>>)>,
    rowsn: Seq<AgentInfoView>,
    id: Seq<char>,
)
    requires
        0 <= j < rows0.len(),
        rows0[j].id == id,
        forall|i: int, k: int| 0 <= i < k < rows0.len() ==> rows0[i].id != rows0[k].id,
        forall|e: int, x: int|
            0 <= e < type0.len() && 0 <= x < type0[e].1.len() ==> exists|k: int|
                0 <= k < rows0.len() && (#[trigger] rows0[k]).id == (#[trigger] type0[e].1[x])
                    && rows0[k].agent_type == type0[e].0,
        forall|k: int|
            0 <= k < rows0.len() ==> bucket_has(
                type0,
                (#[trigger] rows0[k]).agent_type,
                rows0[k].id,
            ),
        typen == purge_index(type0, id),
        rowsn == rows0.remove(j),
    ensures
        forall|e: int, x: int|
            0 <= e < typen.len() && 0 <= x < typen[e].1.len() ==> (#[trigger] typen[e].1[x])
                != id && (exists|k: int|
                0 <= k < rowsn.len() && (#[trigger] rowsn[k]).id == typen[e].1[x]
                    && rowsn[k].agent_type == typen[e].0),
        forall|k: int|
            0 <= k < rowsn.len() ==> bucket_has(
                typen,
                (#[trigger] rowsn[k]).agent_type,
                rowsn[k].id,
            ),
{
    assert forall|e: int, x: int|
        #![trigger typen[e].1[x]]
        0 <= e < typen.len() && 0 <= x < typen[e].1.len() implies typen[e].1[x] != id && (exists|
        k: int,
    |
        0 <= k < rowsn.len() && (#[trigger] rowsn[k]).id == typen[e].1[x] && rowsn[k].agent_type
            == typen[e].0) by {
        lemma_unregister_type_member(rows0, j, type0, typen, rowsn, id, e, x);
    }
    assert forall|k: int|
        #![trigger rowsn[k]]
        0 <= k < rowsn.len() implies bucket_has(typen, rowsn[k].agent_type, rowsn[k].id) by {
        lemma_unregister_type_complete(rows0, j, type0, typen, rowsn, id, k);
    }
}

/// The type of a surviving row stays indexed.
pub proof fn lemma_unregister_type_complete(
    rows0: Seq<AgentInfoView>,
    j: int,
    type0: Seq<(AgentTypeView, Seq<Seq<char>>)>,
    typen: Seq<(AgentTypeView, Seq<Seq<char>>)>,
    rowsn: Seq<AgentInfoView>,
    id: Seq<char>,
    k: int,
)
    requires
        0 <= j < rows0.len(),
        rows0[j].id == id,
        forall|i: int, k2: int| 0 <= i < k2 < rows0.len() ==> rows0[i].id != rows0[k2].id,
        forall|k2: int|
            0 <= k2 < rows0.len() ==> bucket_has(
                type0,
                (#[trigger] rows0[k2]).agent_type,
                rows0[k2].id,
            ),
        typen == purge_index(type0, id),
        rowsn == rows0.remove(j),
        0 <= k < rowsn.len(),
    ensures
        bucket_has(typen, rowsn[k].agent_type, rowsn[k].id),
{
    lemma_purge(type0, id);
    assert(forall|y: int|
        0 <= y < rowsn.len() ==> (#[trigger] rowsn[y]) == if y < j {
            rows0[y]
        } else {
            rows0[y + 1]
        });
    let orig: int = if k < j {
        k
    } else {
        k + 1
    };
    assert(rowsn[k] == rows0[orig]);
    assert(rows0[orig].id != rows0[j].id);
    assert(bucket_has(type0, rows0[orig].agent_type, rows0[orig].id));
    let (e0, x0) = choose|e0: int, x0: int|
        0 <= e0 < type0.len() && type0[e0].0 == rows0[orig].agent_type && 0 <= x0 < type0[
            e0].1.len() && type0[e0].1[x0] == rows0[orig].id;
    lemma_without_id(type0[e0].1, id);
    assert(without_id(type0[e0].1, id).contains(rows0[orig].id));
    let k1 = choose|k1: int|
        0 <= k1 < typen.len() && (#[trigger] typen[k1]).0 == type0[e0].0 && typen[k1].1
            == without_id(type0[e0].1, id);
    let x1 = choose|x1: int| 0 <= x1 < typen[k1].1.len() && typen[k1].1[x1] == rows0[orig].id;
    assert(typen[k1].0 == rowsn[k].agent_type && typen[k1].1[x1] == rowsn[k].id);
}

/// Whether the capability list declares `cap`.
#[verifier::loop_isolation(false)]
fn caps_contain(caps: &Vec<AgentCapability>, cap: &AgentCapability) -> (r: bool)
    ensures
        r == caps.deep_view().contains(cap@),
{
    let mut k: usize = 0;
    while k < caps.len()
        invariant
            k <= caps.len(),
            forall|j: int| 0 <= j < k ==> caps.deep_view()[j] != cap@,
        decreases caps.len() - k,
    {
        if caps[k].same_as(cap) {
            proof {
                assert(caps.deep_view()[k as int] == cap@);
            }
            return true;
        }
        k += 1;
    }
    false
}

impl AgentRegistry {
    /// Refreshes one row's heartbeat to `now`. The row keeps its identity,
    /// capabilities and type, so both indices stay exact.
    pub fn heartbeat(&mut self, agent_id: &str, now: u64) -> (r: Result<(), AgentError>)
        requires
            old(self).wf(),
        ensures
            final(self).wf(),
            final(self).config_v() == old(self).config_v(),
            final(self).cap_index_v() == old(self).cap_index_v(),
            final(self).type_index_v() == old(self).type_index_v(),
            match r {
                Ok(()) => exists|j: int|
                    0 <= j < old(self).agents_v().len() && (#[trigger] old(self).agents_v()[
                    j]).id == agent_id@ && final(self).agents_v() =~= old(self).agents_v().update(
                        j,
                        AgentInfoView {
                            last_heartbeat: now as int,
                            ..old(self).agents_v()[j]
                        },
                    ),
                Err(e) => ({
                    &&& !old(self).registered(agent_id@)
                    &&& e@ == AgentErrorView::AgentNotFound(agent_id@)
                    &&& final(self).agents_v() == old(self).agents_v()
                }),
            },
    {
        let j = match find_row(&self.agents, agent_id) {
            None => {
                return Err(AgentError::AgentNotFound(agent_id.to_owned()));
            },
            Some(j) => j,
        };
        let ghost rows0 = self.agents_v();
        self.agents[j].update_heartbeat(now);
        proof {
            let ghost rv = AgentInfoView { last_heartbeat: now as int, ..rows0[j as int] };
            assert(self.agents_v() =~= rows0.update(j as int, rv));
            assert(self.cap_index_v() == old(self).cap_index_v());
            assert(self.type_index_v() == old(self).type_index_v());
            assert forall|e: int, x: int|
                0 <= e < self.cap_index_v().len() && 0 <= x
                    < self.cap_index_v()[e].1.len() implies exists|k: int|
                0 <= k < rows0.len() && (#[trigger] rows0[k]).id == (
                #[trigger] self.cap_index_v()[e].1[x]) && rows0[k].capabilities.contains(
                    self.cap_index_v()[e].0,
                ) by {
                assert(self.cap_index_v()[e] == old(self).cap_index_v()[e]);
                assert(old(self).cap_entry_resolves(e, x));
            }
            assert forall|e: int, x: int|
                0 <= e < self.type_index_v().len() && 0 <= x
                    < self.type_index_v()[e].1.len() implies exists|k: int|
                0 <= k < rows0.len() && (#[trigger] rows0[k]).id == (
                #[trigger] self.type_index_v()[e].1[x]) && rows0[k].agent_type
                == self.type_index_v()[e].0 by {
                assert(self.type_index_v()[e] == old(self).type_index_v()[e]);
                assert(old(self).type_entry_resolves(e, x));
            }
            assert forall|k: int, cc: int|
                0 <= k < rows0.len() && 0 <= cc
                    < rows0[k].capabilities.len() implies bucket_has(
                self.cap_index_v(),
                (#[trigger] rows0[k].capabilities[cc]),
                rows0[k].id,
            ) by {
                assert(bucket_has(
                    old(self).cap_index_v(),
                    rows0[k].capabilities[cc],
                    rows0[k].id,
                ));
            }
            assert forall|k: int|
                0 <= k < rows0.len() implies bucket_has(
                self.type_index_v(),
                (#[trigger] rows0[k]).agent_type,
                rows0[k].id,
            ) by {
                assert(bucket_has(old(self).type_index_v(), rows0[k].agent_type, rows0[k].id));
            }
            self.lemma_row_update_wf(rows0, j as int, rv);
        }
        Ok(())
    }

    /// Sets one row's status. The row keeps its identity, capabilities and
    /// type, so both indices stay exact.
    pub fn update_status(&mut self, agent_id: &str, status: AgentStatus) -> (r: Result<
        (),
        AgentError,
    >)
        requires
            old(self).wf(),
        ensures
            final(self).wf(),
            final(self).config_v() == old(self).config_v(),
            final(self).cap_index_v() == old(self).cap_index_v(),
            final(self).type_index_v() == old(self).type_index_v(),
            match r {
                Ok(()) => exists|j: int|
                    0 <= j < old(self).agents_v().len() && (#[trigger] old(self).agents_v()[
                    j]).id == agent_id@ && final(self).agents_v() =~= old(self).agents_v().update(
                        j,
                        AgentInfoView { status, ..old(self).agents_v()[j] },
                    ),
                Err(e) => ({
                    &&& !old(self).registered(agent_id@)
                    &&& e@ == AgentErrorView::AgentNotFound(agent_id@)
                    &&& final(self).agents_v() == old(self).agents_v()
                }),
            },
    {
        let j = match find_row(&self.agents, agent_id) {
            None => {
                return Err(AgentError::AgentNotFound(agent_id.to_owned()));
            },
            Some(j) => j,
        };
        let ghost rows0 = self.agents_v();
        self.agents[j].status = status;
        proof {
            let ghost rv = AgentInfoView { status, ..rows0[j as int] };
            assert(self.agents_v() =~= rows0.update(j as int, rv));
            assert(self.cap_index_v() == old(self).cap_index_v());
            assert(self.type_index_v() == old(self).type_index_v());
            assert forall|e: int, x: int|
                0 <= e < self.cap_index_v().len() && 0 <= x
                    < self.cap_index_v()[e].1.len() implies exists|k: int|
                0 <= k < rows0.len() && (#[trigger] rows0[k]).id == (
                #[trigger] self.cap_index_v()[e].1[x]) && rows0[k].capabilities.contains(
                    self.cap_index_v()[e].0,
                ) by {
                assert(self.cap_index_v()[e] == old(self).cap_index_v()[e]);
                assert(old(self).cap_entry_resolves(e, x));
            }
            assert forall|e: int, x: int|
                0 <= e < self.type_index_v().len() && 0 <= x
                    < self.type_index_v()[e].1.len() implies exists|k: int|
                0 <= k < rows0.len() && (#[trigger] rows0[k]).id == (
                #[trigger] self.type_index_v()[e].1[x]) && rows0[k].agent_type
                == self.type_index_v()[e].0 by {
                assert(self.type_index_v()[e] == old(self).type_index_v()[e]);
                assert(old(self).type_entry_resolves(e, x));
            }
            assert forall|k: int, cc: int|
                0 <= k < rows0.len() && 0 <= cc
                    < rows0[k].capabilities.len() implies bucket_has(
                self.cap_index_v(),
                (#[trigger] rows0[k].capabilities[cc]),
                rows0[k].id,
            ) by {
                assert(bucket_has(
                    old(self).cap_index_v(),
                    rows0[k].capabilities[cc],
                    rows0[k].id,
                ));
            }
            assert forall|k: int|
                0 <= k < rows0.len() implies bucket_has(
                self.type_index_v(),
                (#[trigger] rows0[k]).agent_type,
                rows0[k].id,
            ) by {
                assert(bucket_has(old(self).type_index_v(), rows0[k].agent_type, rows0[k].id));
            }
            self.lemma_row_update_wf(rows0, j as int, rv);
        }
        Ok(())
    }

    /// Touching a row without changing its id, capabilities or type keeps
    /// the registry well-formed.
    #[verifier::rlimit(100)]
    proof fn lemma_row_update_wf(&self, rows0: Seq<AgentInfoView>, j: int, rv: AgentInfoView)
        requires
            0 <= j < rows0.len(),
            rv.id == rows0[j].id,
            rv.capabilities == rows0[j].capabilities,
            rv.agent_type == rows0[j].agent_type,
            forall|i: int, k: int| 0 <= i < k < rows0.len() ==> rows0[i].id != rows0[k].id,
            forall|e: int, f: int|
                0 <= e < f < self.cap_index_v().len() ==> self.cap_index_v()[e].0
                    != self.cap_index_v()[f].0,
            forall|e: int|
                0 <= e < self.cap_index_v().len() ==> (#[trigger] self.cap_index_v()[e]).1.len()
                    > 0,
            forall|e: int, x: int|
                0 <= e < self.cap_index_v().len() && 0 <= x < self.cap_index_v()[e].1.len()
                    ==> exists|k: int|
                    0 <= k < rows0.len() && (#[trigger] rows0[k]).id == (
                    #[trigger] self.cap_index_v()[e].1[x]) && rows0[k].capabilities.contains(
                        self.cap_index_v()[e].0,
                    ),
            forall|k: int, cc: int|
                0 <= k < rows0.len() && 0 <= cc < rows0[k].capabilities.len() ==> bucket_has(
                    self.cap_index_v(),
                    (#[trigger] rows0[k].capabilities[cc]),
                    rows0[k].id,
                ),
            forall|e: int, f: int|
                0 <= e < f < self.type_index_v().len() ==> self.type_index_v()[e].0
                    != self.type_index_v()[f].0,
            forall|e: int|
                0 <= e < self.type_index_v().len() ==> (#[trigger] self.type_index_v()[
                e]).1.len() > 0,
            forall|e: int, x: int|
                0 <= e < self.type_index_v().len() && 0 <= x < self.type_index_v()[e].1.len()
                    ==> exists|k: int|
                    0 <= k < rows0.len() && (#[trigger] rows0[k]).id == (
                    #[trigger] self.type_index_v()[e].1[x]) && rows0[k].agent_type
                        == self.type_index_v()[e].0,
            forall|k: int|
                0 <= k < rows0.len() ==> bucket_has(
                    self.type_index_v(),
                    (#[trigger] rows0[k]).agent_type,
                    rows0[k].id,
                ),
            self.agents_v() == rows0.update(j, rv),
        ensures
            self.wf(),
    {
        assert(forall|k: int|
            0 <= k < rows0.len() ==> (#[trigger] self.agents_v()[k]) == if k == j {
                rv
            } else {
                rows0[k]
            });
        assert(forall|k: int|
            0 <= k < rows0.len() ==> (#[trigger] self.agents_v()[k]).id == rows0[k].id
                && self.agents_v()[k].capabilities == rows0[k].capabilities
                && self.agents_v()[k].agent_type == rows0[k].agent_type);
        assert forall|e: int, x: int|
            0 <= e < self.cap_index_v().len() && 0 <= x
                < self.cap_index_v()[e].1.len() implies #[trigger] self.cap_entry_resolves(
            e,
            x,
        ) by {
            let k0 = choose|k: int|
                0 <= k < rows0.len() && (#[trigger] rows0[k]).id == self.cap_index_v()[e].1[x]
                    && rows0[k].capabilities.contains(self.cap_index_v()[e].0);
            assert(self.agents_v()[k0].id == self.cap_index_v()[e].1[x]
                && self.agents_v()[k0].capabilities.contains(self.cap_index_v()[e].0));
        }
        assert forall|e: int, x: int|
            0 <= e < self.type_index_v().len() && 0 <= x
                < self.type_index_v()[e].1.len() implies #[trigger] self.type_entry_resolves(
            e,
            x,
        ) by {
            let k0 = choose|k: int|
                0 <= k < rows0.len() && (#[trigger] rows0[k]).id == self.type_index_v()[e].1[x]
                    && rows0[k].agent_type == self.type_index_v()[e].0;
            assert(self.agents_v()[k0].id == self.type_index_v()[e].1[x]
                && self.agents_v()[k0].agent_type == self.type_index_v()[e].0);
        }
        assert forall|k: int, cc: int|
            #![trigger self.agents_v()[k].capabilities[cc]]
            0 <= k < self.agents_v().len() && 0 <= cc
                < self.agents_v()[k].capabilities.len() implies bucket_has(
            self.cap_index_v(),
            (self.agents_v()[k].capabilities[cc]),
            self.agents_v()[k].id,
        ) by {
            assert(self.agents_v()[k].capabilities == rows0[k].capabilities);
            assert(bucket_has(self.cap_index_v(), rows0[k].capabilities[cc], rows0[k].id));
        }
        assert forall|k: int|
            #![trigger self.agents_v()[k]]
            0 <= k < self.agents_v().len() implies bucket_has(
            self.type_index_v(),
            (self.agents_v()[k]).agent_type,
            self.agents_v()[k].id,
        ) by {
            assert(bucket_has(self.type_index_v(), rows0[k].agent_type, rows0[k].id));
        }
        assert(self.wf());
    }

    /// A copy of the row registered under `agent_id`, if any.
    pub fn get_agent(&self, agent_id: &str) -> (r: Option<AgentInfo>)
        requires
            self.wf(),
        ensures
            match r {
                Some(info) => self.registered(agent_id@) && exists|j: int|
                    0 <= j < self.agents_v().len() && (#[trigger] self.agents_v()[j]).id
                        == agent_id@ && info@ == self.agents_v()[j],
                None => !self.registered(agent_id@),
            },
    {
        match find_row(&self.agents, agent_id) {
            None => None,
            Some(j) => Some(self.agents[j].duplicate()),
        }
    }

    /// Copies of all rows, in registration order.
    #[verifier::loop_isolation(false)]
    pub fn get_all_agents(&self) -> (r: Vec<AgentInfo>)
        ensures
            r.deep_view() =~= self.agents_v(),
    {
        let mut out: Vec<AgentInfo> = Vec::new();
        let mut k: usize = 0;
        while k < self.agents.len()
            invariant
                k <= self.agents.len(),
                out.len() == k,
                forall|i: int| 0 <= i < k ==> out.deep_view()[i] == self.agents_v()[i],
            decreases self.agents.len() - k,
        {
            let ghost osnap = out.deep_view();
            out.push(self.agents[k].duplicate());
            proof {
                assert(forall|i: int|
                    0 <= i < k ==> (#[trigger] out.deep_view()[i]) == osnap[i]);
            }
            k += 1;
        }
        out
    }
}


/// The rows declaring capability `c`, in registration order.
pub open spec fn rows_with_capability(s: Seq<AgentInfoView>, c: CapabilityView) -> Seq<
    AgentInfoView,
>
    decreases s.len(),
{
    if s.len() == 0 {
        Seq::empty()
    } else if s.last().capabilities.contains(c) {
        rows_with_capability(s.drop_last(), c).push(s.last())
    } else {
        rows_with_capability(s.drop_last(), c)
    }
}

/// The rows of type `t`, in registration order.
pub open spec fn rows_of_type(s: Seq<AgentInfoView>, t: AgentTypeView) -> Seq<AgentInfoView>
    decreases s.len(),
{
    if s.len() == 0 {
        Seq::empty()
    } else if s.last().agent_type == t {
        rows_of_type(s.drop_last(), t).push(s.last())
    } else {
        rows_of_type(s.drop_last(), t)
    }
}

/// The rows alive at `now`, in registration order.
pub open spec fn alive_rows(s: Seq<AgentInfoView>, timeout: int, now: int) -> Seq<AgentInfoView>
    decreases s.len(),
{
    if s.len() == 0 {
        Seq::empty()
    } else if alive_at(s.last().last_heartbeat, timeout, now) {
        alive_rows(s.drop_last(), timeout, now).push(s.last())
    } else {
        alive_rows(s.drop_last(), timeout, now)
    }
}

/// The rows whose status is `Idle`, in registration order.
pub open spec fn idle_rows(s: Seq<AgentInfoView>) -> Seq<AgentInfoView>
    decreases s.len(),
{
    if s.len() == 0 {
        Seq::empty()
    } else if s.last().status == AgentStatus::Idle {
        idle_rows(s.drop_last()).push(s.last())
    } else {
        idle_rows(s.drop_last())
    }
}

/// How many rows have status `st`.
pub open spec fn count_status(s: Seq<AgentInfoView>, st: AgentStatus) -> int
    decreases s.len(),
{
    if s.len() == 0 {
        0
    } else if s.last().status == st {
        count_status(s.drop_last(), st) + 1
    } else {
        count_status(s.drop_last(), st)
    }
}

/// One heartbeat as a transition on the row table: only row `j` changes,
/// and only its `last_heartbeat`.
pub open spec fn heartbeat_touch(rows: Seq<AgentInfoView>, j: int, now: int) -> Seq<
    AgentInfoView,
> {
    rows.update(j, AgentInfoView { last_heartbeat: now, ..rows[j] })
}

/// Heartbeat idempotence: repeating a heartbeat at the same instant changes
/// nothing more; membership (the rows' ids) never changes; and as long as
/// the clock does not step backwards, `last_heartbeat` advances
/// monotonically.
pub proof fn lemma_heartbeat_idempotent(rows: Seq<AgentInfoView>, j: int, now: int)
    requires
        0 <= j < rows.len(),
    ensures
        heartbeat_touch(heartbeat_touch(rows, j, now), j, now) == heartbeat_touch(rows, j, now),
        forall|k: int|
            0 <= k < rows.len() ==> (#[trigger] heartbeat_touch(rows, j, now)[k]).id == rows[
                k].id,
        now >= rows[j].last_heartbeat ==> heartbeat_touch(rows, j, now)[j].last_heartbeat
            >= rows[j].last_heartbeat,
{
    assert(heartbeat_touch(heartbeat_touch(rows, j, now), j, now) =~= heartbeat_touch(
        rows,
        j,
        now,
    ));
}

impl AgentRegistry {
    /// Copies of the rows declaring this capability, in registration order.
    #[verifier::loop_isolation(false)]
    pub fn find_by_capability(&self, capability: &AgentCapability) -> (r: Vec<AgentInfo>)
        ensures
            r.deep_view() =~= rows_with_capability(self.agents_v(), capability@),
    {
        let ghost rows = self.agents_v();
        let mut out: Vec<AgentInfo> = Vec::new();
        let mut k: usize = 0;
        while k < self.agents.len()
            invariant
                k <= self.agents.len(),
                out.deep_view() =~= rows_with_capability(rows.take(k as int), capability@),
            decreases self.agents.len() - k,
        {
            proof {
                assert(rows.take(k as int + 1).drop_last() =~= rows.take(k as int));
                assert(rows.take(k as int + 1).last() == rows[k as int]);
            }
            if caps_contain(&self.agents[k].capabilities, capability) {
                let ghost osnap = out.deep_view();
                out.push(self.agents[k].duplicate());
                proof {
                    assert(forall|i: int|
                        0 <= i < osnap.len() ==> (#[trigger] out.deep_view()[i]) == osnap[i]);
                    assert(out.deep_view() =~= rows_with_capability(
                        rows.take(k as int + 1),
                        capability@,
                    ));
                }
            }
            k += 1;
        }
        proof {
            assert(rows.take(rows.len() as int) =~= rows);
        }
        out
    }

    /// Copies of the rows of this type, in registration order.
    #[verifier::loop_isolation(false)]
    pub fn find_by_type(&self, agent_type: &AgentType) -> (r: Vec<AgentInfo>)
        ensures
            r.deep_view() =~= rows_of_type(self.agents_v(), agent_type@),
    {
        let ghost rows = self.agents_v();
        let mut out: Vec<AgentInfo> = Vec::new();
        let mut k: usize = 0;
        while k < self.agents.len()
            invariant
                k <= self.agents.len(),
                out.deep_view() =~= rows_of_type(rows.take(k as int), agent_type@),
            decreases self.agents.len() - k,
        {
            proof {
                assert(rows.take(k as int + 1).drop_last() =~= rows.take(k as int));
                assert(rows.take(k as int + 1).last() == rows[k as int]);
            }
            if self.agents[k].agent_type.same_as(agent_type) {
                let ghost osnap = out.deep_view();
                out.push(self.agents[k].duplicate());
                proof {
                    assert(forall|i: int|
                        0 <= i < osnap.len() ==> (#[trigger] out.deep_view()[i]) == osnap[i]);
                    assert(out.deep_view() =~= rows_of_type(
                        rows.take(k as int + 1),
                        agent_type@,
                    ));
                }
            }
            k += 1;
        }
        proof {
            assert(rows.take(rows.len() as int) =~= rows);
        }
        out
    }

    /// Copies of the rows alive at `now`, in registration order.
    #[verifier::loop_isolation(false)]
    pub fn find_alive_agents(&self, now: u64) -> (r: Vec<AgentInfo>)
        ensures
            r.deep_view() =~= alive_rows(
                self.agents_v(),
                self.config_v().heartbeat_timeout_secs as int,
                now as int,
            ),
    {
        let timeout = self.config.heartbeat_timeout_secs;
        let ghost rows = self.agents_v();
        let mut out: Vec<AgentInfo> = Vec::new();
        let mut k: usize = 0;
        while k < self.agents.len()
            invariant
                k <= self.agents.len(),
                timeout == self.config_v().heartbeat_timeout_secs,
                out.deep_view() =~= alive_rows(rows.take(k as int), timeout as int, now as int),
            decreases self.agents.len() - k,
        {
            proof {
                assert(rows.take(k as int + 1).drop_last() =~= rows.take(k as int));
                assert(rows.take(k as int + 1).last() == rows[k as int]);
            }
            if self.agents[k].is_alive(timeout, now) {
                let ghost osnap = out.deep_view();
                out.push(self.agents[k].duplicate());
                proof {
                    assert(forall|i: int|
                        0 <= i < osnap.len() ==> (#[trigger] out.deep_view()[i]) == osnap[i]);
                    assert(out.deep_view() =~= alive_rows(
                        rows.take(k as int + 1),
                        timeout as int,
                        now as int,
                    ));
                }
            }
            k += 1;
        }
        proof {
            assert(rows.take(rows.len() as int) =~= rows);
        }
        out
    }

    /// Copies of the rows whose status is `Idle`, in registration order.
    #[verifier::loop_isolation(false)]
    pub fn find_idle_agents(&self) -> (r: Vec<AgentInfo>)
        ensures
            r.deep_view() =~= idle_rows(self.agents_v()),
    {
        let ghost rows = self.agents_v();
        let mut out: Vec<AgentInfo> = Vec::new();
        let mut k: usize = 0;
        while k < self.agents.len()
            invariant
                k <= self.agents.len(),
                out.deep_view() =~= idle_rows(rows.take(k as int)),
            decreases self.agents.len() - k,
        {
            proof {
                assert(rows.take(k as int + 1).drop_last() =~= rows.take(k as int));
                assert(rows.take(k as int + 1).last() == rows[k as int]);
            }
            if self.agents[k].status == AgentStatus::Idle {
                let ghost osnap = out.deep_view();
                out.push(self.agents[k].duplicate());
                proof {
                    assert(forall|i: int|
                        0 <= i < osnap.len() ==> (#[trigger] out.deep_view()[i]) == osnap[i]);
                    assert(out.deep_view() =~= idle_rows(rows.take(k as int + 1)));
                }
            }
            k += 1;
        }
        proof {
            assert(rows.take(rows.len() as int) =~= rows);
        }
        out
    }

    /// Unregisters every row whose heartbeat is older than the timeout at
    /// `now`. The returned ids are exactly those of the stale rows, oldest
    /// position first; afterwards none of them is registered, while every
    /// row that was alive still is.
    #[verifier::loop_isolation(false)]
    pub fn cleanup_dead_agents(&mut self, now: u64) -> (r: Vec<String>)
        requires
            old(self).wf(),
        ensures
            final(self).wf(),
            final(self).config_v() == old(self).config_v(),
            r.deep_view() =~= dead_ids(
                old(self).agents_v(),
                old(self).config_v().heartbeat_timeout_secs as int,
                now as int,
            ),
            forall|x: int|
                0 <= x < r.deep_view().len() ==> !final(self).registered(
                    #[trigger] r.deep_view()[x],
                ),
            forall|k: int|
                0 <= k < old(self).agents_v().len() && alive_at(
                    (#[trigger] old(self).agents_v()[k]).last_heartbeat,
                    old(self).config_v().heartbeat_timeout_secs as int,
                    now as int,
                ) ==> final(self).registered(old(self).agents_v()[k].id),
    {
        let ghost rows0 = old(self).agents_v();
        let ghost tmo = old(self).config_v().heartbeat_timeout_secs as int;
        let dead = self.collect_dead(now);
        let ghost dv = dead.deep_view();
        proof {
            lemma_dead_ids_are_dead(rows0, tmo, now as int);
            assert forall|k: int|
                0 <= k < rows0.len() && alive_at(
                    (#[trigger] rows0[k]).last_heartbeat,
                    tmo,
                    now as int,
                ) implies self.registered(rows0[k].id) by {
                assert(self.agents_v()[k].id == rows0[k].id);
            }
        }
        let mut k: usize = 0;
        while k < dead.len()
            invariant
                self.wf(),
                self.config_v() == old(self).config_v(),
                k <= dead.len(),
                dv == dead.deep_view(),
                dv =~= dead_ids(rows0, tmo, now as int),
                forall|x: int| 0 <= x < k ==> !self.registered(#[trigger] dv[x]),
                forall|j: int|
                    0 <= j < rows0.len() && alive_at(
                        (#[trigger] rows0[j]).last_heartbeat,
                        tmo,
                        now as int,
                    ) ==> self.registered(rows0[j].id),
            decreases dead.len() - k,
        {
            let ghost pre = self.agents_v();
            let res = self.unregister(dead[k].as_str());
            proof {
                assert(!self.registered(dv[k as int]));
                if res is Ok {
                    let jj = choose|jj: int|
                        0 <= jj < pre.len() && (#[trigger] pre[jj]).id == dv[k as int]
                            && self.agents_v() =~= pre.remove(jj);
                    assert(forall|i: int|
                        0 <= i < self.agents_v().len() ==> (#[trigger] self.agents_v()[i])
                            == if i < jj {
                            pre[i]
                        } else {
                            pre[i + 1]
                        });
                    assert forall|x: int| 0 <= x < k + 1 implies !self.registered(
                        #[trigger] dv[x],
                    ) by {
                        if x < k && self.registered(dv[x]) {
                            let i0 = choose|i0: int|
                                0 <= i0 < self.agents_v().len() && self.agents_v()[i0].id
                                    == dv[x];
                            let oi: int = if i0 < jj {
                                i0
                            } else {
                                i0 + 1
                            };
                            assert(pre[oi].id == dv[x]);
                            assert(false);
                        }
                    }
                    assert forall|j: int|
                        0 <= j < rows0.len() && alive_at(
                            (#[trigger] rows0[j]).last_heartbeat,
                            tmo,
                            now as int,
                        ) implies self.registered(rows0[j].id) by {
                        let i0 = choose|i0: int|
                            0 <= i0 < pre.len() && pre[i0].id == rows0[j].id;
                        if i0 == jj {
                            let jd = choose|jd: int|
                                0 <= jd < rows0.len() && (#[trigger] rows0[jd]).id == dv[
                                    k as int] && !alive_at(
                                    rows0[jd].last_heartbeat,
                                    tmo,
                                    now as int,
                                );
                            assert(rows0[jd].id == rows0[j].id);
                            assert(jd == j);
                            assert(false);
                        } else if i0 < jj {
                            assert(self.agents_v()[i0].id == rows0[j].id);
                        } else {
                            assert(self.agents_v()[i0 - 1].id == rows0[j].id);
                        }
                    }
                }
            }
            k += 1;
        }
        dead
    }

    /// The ids of the rows whose heartbeat is stale at `now`, in row order.
    #[verifier::loop_isolation(false)]
    fn collect_dead(&self, now: u64) -> (r: Vec<String>)
        ensures
            r.deep_view() =~= dead_ids(
                self.agents_v(),
                self.config_v().heartbeat_timeout_secs as int,
                now as int,
            ),
    {
        let timeout = self.config.heartbeat_timeout_secs;
        let ghost rows = self.agents_v();
        let mut out: Vec<String> = Vec::new();
        let mut k: usize = 0;
        while k < self.agents.len()
            invariant
                k <= self.agents.len(),
                timeout == self.config_v().heartbeat_timeout_secs,
                out.deep_view() =~= dead_ids(rows.take(k as int), timeout as int, now as int),
            decreases self.agents.len() - k,
        {
            proof {
                assert(rows.take(k as int + 1).drop_last() =~= rows.take(k as int));
                assert(rows.take(k as int + 1).last() == rows[k as int]);
            }
            if !self.agents[k].is_alive(timeout, now) {
                let ghost osnap = out.deep_view();
                out.push(self.agents[k].id.clone());
                proof {
                    assert(forall|i: int|
                        0 <= i < osnap.len() ==> (#[trigger] out.deep_view()[i]) == osnap[i]);
                    assert(out.deep_view() =~= dead_ids(
                        rows.take(k as int + 1),
                        timeout as int,
                        now as int,
                    ));
                }
            }
            k += 1;
        }
        proof {
            assert(rows.take(rows.len() as int) =~= rows);
        }
        out
    }
}

/// The ids of the rows that are stale at `now`, in row order.
pub open spec fn dead_ids(s: Seq<AgentInfoView>, tmo: int, now: int) -> Seq<Seq<char>>
    decreases s.len(),
{
    if s.len() == 0 {
        Seq::empty()
    } else if !alive_at(s.last().last_heartbeat, tmo, now) {
        dead_ids(s.drop_last(), tmo, now).push(s.last().id)
    } else {
        dead_ids(s.drop_last(), tmo, now)
    }
}

/// Every id the reaper returns names a stale row.
pub proof fn lemma_dead_ids_are_dead(s: Seq<AgentInfoView>, tmo: int, now: int)
    ensures
        forall|x: int|
            0 <= x < dead_ids(s, tmo, now).len() ==> exists|k: int|
                0 <= k < s.len() && (#[trigger] s[k]).id == (#[trigger] dead_ids(
                    s,
                    tmo,
                    now,
                )[x]) && !alive_at(s[k].last_heartbeat, tmo, now),
    decreases s.len(),
{
    if s.len() > 0 {
        lemma_dead_ids_are_dead(s.drop_last(), tmo, now);
        assert(forall|k: int| 0 <= k < s.len() - 1 ==> s.drop_last()[k] == s[k]);
        let d = dead_ids(s, tmo, now);
        let dp = dead_ids(s.drop_last(), tmo, now);
        assert forall|x: int|
            0 <= x < d.len() implies exists|k: int|
            0 <= k < s.len() && (#[trigger] s[k]).id == (#[trigger] d[x]) && !alive_at(
                s[k].last_heartbeat,
                tmo,
                now,
            ) by {
            if x < dp.len() {
                assert(d[x] == dp[x]);
                let k0 = choose|k: int|
                    0 <= k < s.drop_last().len() && (#[trigger] s.drop_last()[k]).id == dp[x]
                        && !alive_at(s.drop_last()[k].last_heartbeat, tmo, now);
                assert(s[k0].id == d[x] && !alive_at(s[k0].last_heartbeat, tmo, now));
            } else {
                assert(d[x] == s.last().id);
                assert(s[s.len() - 1].id == d[x] && !alive_at(
                    s[s.len() - 1].last_heartbeat,
                    tmo,
                    now,
                ));
            }
        }
    }
}


/// Counts over the registry at time `now`.
#[derive(Debug)]
pub struct RegistryStats {
    pub total_agents: usize,
    pub alive_agents: usize,
    pub idle_agents: usize,
    pub busy_agents: usize,
    pub agents_by_type: Vec<(AgentType, usize)>,
}

impl AgentRegistry {
    /// Counts rows by liveness and status; the per-type counts mirror the
    /// type index's buckets.
    #[verifier::loop_isolation(false)]
    pub fn get_stats(&self, now: u64) -> (r: RegistryStats)
        ensures
            r.total_agents == self.agents_v().len(),
            r.alive_agents == alive_rows(
                self.agents_v(),
                self.config_v().heartbeat_timeout_secs as int,
                now as int,
            ).len(),
            r.idle_agents == idle_rows(self.agents_v()).len(),
            r.busy_agents == count_status(self.agents_v(), AgentStatus::Busy),
            r.agents_by_type@.len() == self.type_index_v().len(),
            forall|e: int|
                0 <= e < self.type_index_v().len() ==> (#[trigger] r.agents_by_type@[e]).0@
                    == self.type_index_v()[e].0 && r.agents_by_type@[e].1
                    == self.type_index_v()[e].1.len(),
    {
        let timeout = self.config.heartbeat_timeout_secs;
        let ghost rows = self.agents_v();
        let mut alive: usize = 0;
        let mut idle: usize = 0;
        let mut busy: usize = 0;
        let mut k: usize = 0;
        while k < self.agents.len()
            invariant
                k <= self.agents.len(),
                timeout == self.config_v().heartbeat_timeout_secs,
                alive == alive_rows(rows.take(k as int), timeout as int, now as int).len(),
                idle == idle_rows(rows.take(k as int)).len(),
                busy == count_status(rows.take(k as int), AgentStatus::Busy),
                alive <= k,
                idle <= k,
                busy <= k,
            decreases self.agents.len() - k,
        {
            proof {
                assert(rows.take(k as int + 1).drop_last() =~= rows.take(k as int));
                assert(rows.take(k as int + 1).last() == rows[k as int]);
            }
            if self.agents[k].is_alive(timeout, now) {
                alive = alive + 1;
            }
            if self.agents[k].status == AgentStatus::Idle {
                idle = idle + 1;
            }
            if self.agents[k].status == AgentStatus::Busy {
                busy = busy + 1;
            }
            k += 1;
        }
        proof {
            assert(rows.take(rows.len() as int) =~= rows);
        }
        let mut by_type: Vec<(AgentType, usize)> = Vec::new();
        let mut e: usize = 0;
        while e < self.type_index.len()
            invariant
                e <= self.type_index.len(),
                by_type@.len() == e,
                forall|i: int|
                    0 <= i < e ==> (#[trigger] by_type@[i]).0@ == self.type_index_v()[i].0
                        && by_type@[i].1 == self.type_index_v()[i].1.len(),
            decreases self.type_index.len() - e,
        {
            proof {
                assert(self.type_index_v()[e as int].0 == self.type_index@[e as int]
                    .0.deep_view());
                assert(self.type_index_v()[e as int].1 == self.type_index@[e as int]
                    .1.deep_view());
            }
            let key = self.type_index[e].0.duplicate();
            let n = self.type_index[e].1.len();
            by_type.push((key, n));
            e += 1;
        }
        RegistryStats {
            total_agents: self.agents.len(),
            alive_agents: alive,
            idle_agents: idle,
            busy_agents: busy,
            agents_by_type: by_type,
        }
    }
}


} // verus!
