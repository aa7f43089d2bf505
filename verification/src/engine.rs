//! Engine-level bookkeeping that holds no subsystem object: entity ids,
//! feature flags, the registry of frame stages with their dependencies,
//! and the plan of one tick (which stage runs after which).
use vstd::prelude::*;

verus! {

/// An opaque, generational entity id.
#[derive(Debug, Clone, Copy, PartialEq, Eq, Hash, Default, Structural)]
pub struct Entity {
    pub index: u32,
    pub generation: u32,
}

/// Marker for plain-data component types.
pub trait Component: 'static {
}

/// Marker every engine error type carries.
pub trait EngineError: core::fmt::Debug {
}

/// CPU feature flags detected once at startup.
#[derive(Debug, Clone, Copy, Default, PartialEq, Eq, Structural)]
pub struct FeatureFlags {
    pub simd128: bool,
    pub simd256: bool,
}

/// A scheduled compute workload.
#[derive(Debug, Clone, Default)]
pub struct ComputeTask {
    pub name: &'static str,
}

/// Handle to a stage registered with a `StageRegistry`; valid only for
/// the registry that returned it.
#[derive(Debug, Clone, Copy, PartialEq, Eq, Structural)]
pub struct StageId(usize);

impl StageId {
    pub closed spec fn id(self) -> usize {
        self.0
    }

    /// The stage's registration position.
    pub fn index(self) -> (r: usize)
        ensures
            r == self.id(),
    {
        self.0
    }
}

/// The registered stages: each one's name and the stages it runs after.
#[derive(Debug)]
pub struct StageRegistry {
    names: Vec<&'static str>,
    deps: Vec<Vec<StageId>>,
}

/// One job of a tick's plan: the stage it runs, and the positions in the
/// plan of the jobs it waits for.
#[derive(Debug, Clone)]
pub struct PlannedJob {
    pub stage: StageId,
    pub after: Vec<usize>,
}

/// Whether stage `s` is among `ids`.
pub open spec fn is_selected(ids: Seq<StageId>, s: usize) -> bool {
    exists|q: int| 0 <= q < ids.len() && #[trigger] ids[q].id() == s
}

/// The last position before `p` at which `ids` names stage `s`, or -1.
pub open spec fn latest_job(ids: Seq<StageId>, p: int, s: usize) -> int
    decreases p,
{
    if p <= 0 {
        -1
    } else if ids[p - 1].id() == s {
        p - 1
    } else {
        latest_job(ids, p - 1, s)
    }
}

/// The jobs the job at position `p` waits for: for each of its stage's
/// dependencies that is part of the tick, the latest job before `p`
/// running it; dependencies left out of the tick count as satisfied.
pub open spec fn waits_for(ds: Seq<StageId>, ids: Seq<StageId>, p: int) -> Seq<usize>
    decreases ds.len(),
{
    if ds.len() == 0 {
        Seq::empty()
    } else {
        let rest = waits_for(ds.drop_last(), ids, p);
        if is_selected(ids, ds.last().id()) {
            rest.push(latest_job(ids, p, ds.last().id()) as usize)
        } else {
            rest
        }
    }
}

pub open spec fn stage_ids(ds: Seq<StageId>) -> Seq<usize> {
    ds.map_values(|d: StageId| d.id())
}

proof fn lemma_latest_job(ids: Seq<StageId>, p: int, s: usize)
    requires
        p <= ids.len(),
    ensures
        latest_job(ids, p, s) >= 0 ==> latest_job(ids, p, s) < p && ids[latest_job(ids, p, s)].id() == s,
        latest_job(ids, p, s) >= -1,
    decreases p,
{
    if p > 0 && ids[p - 1].id() != s {
        lemma_latest_job(ids, p - 1, s);
    }
}

/// How a tick orders its jobs: the job at position `p` waits only for
/// earlier jobs, each running one of its stage's dependencies `ds`, and
/// for every dependency that is part of the tick it waits for a job
/// running it. With `ids` naming each stage once, every selected stage
/// therefore runs exactly once, after all of its selected dependencies,
/// and no other stage runs.
pub proof fn lemma_tick_order(ds: Seq<StageId>, ids: Seq<StageId>, p: int)
    requires
        0 <= p < ids.len() <= usize::MAX,
        forall|k: int|
            0 <= k < ds.len() && is_selected(ids, (#[trigger] ds[k]).id()) ==> latest_job(ids, p, ds[k].id()) >= 0,
    ensures
        forall|i: int|
            0 <= i < waits_for(ds, ids, p).len() ==> {
                let q = (#[trigger] waits_for(ds, ids, p)[i]) as int;
                &&& 0 <= q < p
                &&& exists|k: int| 0 <= k < ds.len() && ids[q].id() == #[trigger] ds[k].id()
            },
        forall|k: int|
            0 <= k < ds.len() && is_selected(ids, (#[trigger] ds[k]).id()) ==> exists|i: int|
                0 <= i < waits_for(ds, ids, p).len() && ids[#[trigger] waits_for(ds, ids, p)[i] as int].id()
                    == ds[k].id(),
    decreases ds.len(),
{
    if ds.len() > 0 {
        let front = ds.drop_last();
        assert forall|k: int|
            0 <= k < front.len() && is_selected(ids, (#[trigger] front[k]).id()) implies latest_job(
            ids,
            p,
            front[k].id(),
        ) >= 0 by {
            assert(front[k] == ds[k]);
        }
        lemma_tick_order(front, ids, p);
        let rest = waits_for(front, ids, p);
        let w = waits_for(ds, ids, p);
        let last = ds.last();
        lemma_latest_job(ids, p, last.id());
        let lj = latest_job(ids, p, last.id());
        assert(w == if is_selected(ids, last.id()) { rest.push(lj as usize) } else { rest });
        assert(ds[ds.len() - 1] == last);
        if is_selected(ids, last.id()) {
            assert(lj >= 0);
            assert(w[rest.len() as int] as int == lj);
        }
        assert forall|i: int| 0 <= i < w.len() implies {
            let q = (#[trigger] w[i]) as int;
            &&& 0 <= q < p
            &&& exists|k: int| 0 <= k < ds.len() && ids[q].id() == #[trigger] ds[k].id()
        } by {
            if i < rest.len() {
                assert(w[i] == rest[i]);
                let q = rest[i] as int;
                let k = choose|k: int| 0 <= k < front.len() && ids[q].id() == #[trigger] front[k].id();
                assert(front[k] == ds[k]);
            } else {
                assert(is_selected(ids, last.id()));
                assert(ids[w[i] as int].id() == ds[ds.len() - 1].id());
            }
        }
        assert forall|k: int|
            0 <= k < ds.len() && is_selected(ids, (#[trigger] ds[k]).id()) implies exists|i: int|
            0 <= i < w.len() && ids[#[trigger] w[i] as int].id() == ds[k].id() by {
            if k < front.len() {
                assert(front[k] == ds[k]);
                let i = choose|i: int| 0 <= i < rest.len() && ids[#[trigger] rest[i] as int].id() == front[k].id();
                assert(w[i] == rest[i]);
            } else {
                assert(ds[k] == last);
                assert(ids[w[rest.len() as int] as int].id() == ds[k].id());
            }
        }
    }
}

impl StageRegistry {
    /// The dependencies of every registered stage, by registration index.
    pub closed spec fn deps_spec(&self) -> Seq<Seq<StageId>> {
        self.deps@.map_values(|v: Vec<StageId>| v@)
    }

    /// The names of the registered stages, by registration index.
    pub closed spec fn names_spec(&self) -> Seq<&'static str> {
        self.names@
    }

    /// Registered stages only depend on stages registered before them.
    pub closed spec fn wf(&self) -> bool {
        &&& self.names@.len() == self.deps@.len()
        &&& forall|i: int, k: int|
            0 <= i < self.deps@.len() && 0 <= k < self.deps@[i]@.len() ==> (#[trigger] self.deps@[i]@[k]).id()
                < i
    }

    pub fn new() -> (r: Self)
        ensures
            r.wf(),
            r.deps_spec() == Seq::<Seq<StageId>>::empty(),
            r.names_spec() == Seq::<&'static str>::empty(),
    {
        let r = StageRegistry { names: Vec::new(), deps: Vec::new() };
        assert(r.deps_spec() =~= Seq::<Seq<StageId>>::empty());
        r
    }

    pub fn len(&self) -> (r: usize)
        requires
            self.wf(),
        ensures
            r == self.deps_spec().len(),
    {
        self.deps.len()
    }

    /// The name a stage was registered under.
    pub fn name(&self, id: StageId) -> (r: &'static str)
        requires
            self.wf(),
            id.id() < self.deps_spec().len(),
        ensures
            r == self.names_spec()[id.id() as int],
    {
        self.names[id.0]
    }

    /// Registers a stage that runs after every stage in `deps`, each of
    /// which must already be registered; its id is the next index.
    pub fn add_stage(&mut self, name: &'static str, deps: &[StageId]) -> (id: StageId)
        requires
            old(self).wf(),
            forall|k: int| 0 <= k < deps@.len() ==> (#[trigger] deps@[k]).id() < old(self).deps_spec().len(),
        ensures
            final(self).wf(),
            id.id() == old(self).deps_spec().len(),
            final(self).deps_spec() == old(self).deps_spec().push(deps@),
            final(self).names_spec() == old(self).names_spec().push(name),
    {
        let id = StageId(self.deps.len());
        let mut copy: Vec<StageId> = Vec::new();
        let mut k: usize = 0;
        while k < deps.len()
            invariant
                k <= deps@.len(),
                copy@ == deps@.take(k as int),
            decreases deps@.len() - k,
        {
            copy.push(deps[k]);
            k = k + 1;
            assert(copy@ =~= deps@.take(k as int));
        }
        assert(copy@ =~= deps@);
        let ghost before = self.deps@;
        self.names.push(name);
        self.deps.push(copy);
        assert(self.deps_spec() =~= old(self).deps_spec().push(deps@));
        assert forall|i: int, k: int|
            0 <= i < self.deps@.len() && 0 <= k < self.deps@[i]@.len() implies (#[trigger] self.deps@[i]@[k]).id()
                < i by {
            if i < before.len() {
                assert(self.deps@[i] == before[i]);
            }
        }
        id
    }

    /// The plan of a tick running the stages `ids`, in that order: job
    /// `p` runs `ids[p]` after the jobs `waits_for` names. Every
    /// dependency that is part of the tick must come before its
    /// dependent in `ids`.
    pub fn plan(&self, ids: &[StageId]) -> (r: Vec<PlannedJob>)
        requires
            self.wf(),
            forall|p: int| 0 <= p < ids@.len() ==> (#[trigger] ids@[p]).id() < self.deps_spec().len(),
            forall|p: int, k: int|
                0 <= p < ids@.len() && 0 <= k < self.deps_spec()[ids@[p].id() as int].len() && is_selected(
                    ids@,
                    (#[trigger] self.deps_spec()[ids@[p].id() as int][k]).id(),
                ) ==> latest_job(ids@, p, self.deps_spec()[ids@[p].id() as int][k].id()) >= 0,
        ensures
            r@.len() == ids@.len(),
            forall|p: int| 0 <= p < r@.len() ==> (#[trigger] r@[p]).stage == ids@[p] && r@[p].after@
                == waits_for(self.deps_spec()[ids@[p].id() as int], ids@, p),
    {
        let n = self.deps.len();
        let mut selected: Vec<bool> = Vec::new();
        let mut s: usize = 0;
        while s < n
            invariant
                n == self.deps@.len(),
                s <= n,
                selected@.len() == s,
                forall|t: int| 0 <= t < s ==> !(#[trigger] selected@[t]),
            decreases n - s,
        {
            selected.push(false);
            s = s + 1;
        }
        let mut q: usize = 0;
        while q < ids.len()
            invariant
                n == self.deps@.len(),
                selected@.len() == n,
                q <= ids@.len(),
                forall|p: int| 0 <= p < ids@.len() ==> (#[trigger] ids@[p]).id() < n,
                forall|t: int| 0 <= t < n ==> #[trigger] selected@[t] == exists|j: int|
                    0 <= j < q && #[trigger] ids@[j].id() == t,
            decreases ids@.len() - q,
        {
            let t = ids[q].0;
            selected.set(t, true);
            q = q + 1;
            assert forall|u: int| 0 <= u < n implies #[trigger] selected@[u] == exists|j: int|
                0 <= j < q && #[trigger] ids@[j].id() == u by {
                if u == t as int {
                    assert(ids@[q - 1].id() == u);
                }
                if exists|j: int| 0 <= j < q && #[trigger] ids@[j].id() == u {
                    let j = choose|j: int| 0 <= j < q && #[trigger] ids@[j].id() == u;
                    if j < q - 1 {
                    }
                }
            }
        }
        // latest[t]: the position of the last job so far running stage t.
        let mut latest: Vec<Option<usize>> = Vec::new();
        let mut s2: usize = 0;
        while s2 < n
            invariant
                s2 <= n,
                latest@.len() == s2,
                forall|t: int| 0 <= t < s2 ==> (#[trigger] latest@[t]) is None,
            decreases n - s2,
        {
            latest.push(None);
            s2 = s2 + 1;
        }
        let mut jobs: Vec<PlannedJob> = Vec::new();
        let mut p: usize = 0;
        while p < ids.len()
            invariant
                self.wf(),
                n == self.deps@.len(),
                selected@.len() == n,
                latest@.len() == n,
                p <= ids@.len(),
                jobs@.len() == p,
                forall|u: int| 0 <= u < ids@.len() ==> (#[trigger] ids@[u]).id() < n,
                forall|t: int| 0 <= t < n ==> #[trigger] selected@[t] == is_selected(ids@, t as usize),
                forall|t: int|
                    0 <= t < n ==> match #[trigger] latest@[t] {
                        Some(j) => latest_job(ids@, p as int, t as usize) == j,
                        None => latest_job(ids@, p as int, t as usize) == -1,
                    },
                forall|u: int, k: int|
                    0 <= u < ids@.len() && 0 <= k < self.deps_spec()[ids@[u].id() as int].len() && is_selected(
                        ids@,
                        (#[trigger] self.deps_spec()[ids@[u].id() as int][k]).id(),
                    ) ==> latest_job(ids@, u, self.deps_spec()[ids@[u].id() as int][k].id()) >= 0,
                forall|u: int| 0 <= u < p ==> (#[trigger] jobs@[u]).stage == ids@[u] && jobs@[u].after@
                    == waits_for(self.deps_spec()[ids@[u].id() as int], ids@, u),
            decreases ids@.len() - p,
        {
            let stage = ids[p];
            let ds = &self.deps[stage.0];
            let ghost dspec = self.deps_spec()[stage.id() as int];
            assert(ds@ == dspec);
            let mut after: Vec<usize> = Vec::new();
            let mut k: usize = 0;
            while k < ds.len()
                invariant
                    n == self.deps@.len(),
                    selected@.len() == n,
                    latest@.len() == n,
                    self.wf(),
                    stage.id() < n,
                    ds@ == dspec,
                    dspec == self.deps_spec()[stage.id() as int],
                    stage == ids@[p as int],
                    p < ids@.len(),
                    k <= ds@.len(),
                    forall|t: int| 0 <= t < n ==> #[trigger] selected@[t] == is_selected(ids@, t as usize),
                    forall|t: int|
                        0 <= t < n ==> match #[trigger] latest@[t] {
                            Some(j) => latest_job(ids@, p as int, t as usize) == j,
                            None => latest_job(ids@, p as int, t as usize) == -1,
                        },
                    forall|k2: int|
                        0 <= k2 < dspec.len() && is_selected(ids@, (#[trigger] dspec[k2]).id()) ==> latest_job(
                            ids@,
                            p as int,
                            dspec[k2].id(),
                        ) >= 0,
                    after@ == waits_for(dspec.take(k as int), ids@, p as int),
                decreases ds@.len() - k,
            {
                let d = ds[k];
                assert(d.id() < stage.id());
                assert(dspec.take(k + 1).drop_last() =~= dspec.take(k as int));
                if selected[d.0] {
                    match latest[d.0] {
                        Some(j) => {
                            after.push(j);
                        },
                        None => {
                            assert(false);
                        },
                    }
                }
                k = k + 1;
            }
            assert(dspec.take(ds@.len() as int) =~= dspec);
            let ghost old_latest = latest@;
            latest.set(stage.0, Some(p));
            jobs.push(PlannedJob { stage, after });
            p = p + 1;
            assert forall|t: int|
                0 <= t < n implies match #[trigger] latest@[t] {
                Some(j) => latest_job(ids@, p as int, t as usize) == j,
                None => latest_job(ids@, p as int, t as usize) == -1,
            } by {
                if t != stage.id() as int {
                    assert(latest@[t] == old_latest[t]);
                }
            }
            assert forall|u: int| 0 <= u < p implies (#[trigger] jobs@[u]).stage == ids@[u]
                && jobs@[u].after@ == waits_for(self.deps_spec()[ids@[u].id() as int], ids@, u) by {
            }
        }
        jobs
    }

    /// The plan of a full tick: every registered stage once, in
    /// registration order, each job waiting exactly for the jobs of its
    /// stage's dependencies, all of which come earlier.
    pub fn plan_all(&self) -> (r: Vec<PlannedJob>)
        requires
            self.wf(),
        ensures
            r@.len() == self.deps_spec().len(),
            forall|p: int| 0 <= p < r@.len() ==> (#[trigger] r@[p]).stage.id() == p && r@[p].after@
                == stage_ids(self.deps_spec()[p]),
            forall|p: int, k: int| 0 <= p < r@.len() && 0 <= k < r@[p].after@.len() ==> #[trigger] r@[p].after@[k] < p,
    {
        let n = self.deps.len();
        let mut ids: Vec<StageId> = Vec::new();
        let mut i: usize = 0;
        while i < n
            invariant
                n == self.deps@.len(),
                i <= n,
                ids@.len() == i,
                forall|j: int| 0 <= j < i ==> (#[trigger] ids@[j]).id() == j,
            decreases n - i,
        {
            ids.push(StageId(i));
            i = i + 1;
        }
        proof {
            self.lemma_in_order_plan(ids@);
        }
        let r = self.plan(ids.as_slice());
        proof {
            assert forall|p: int| 0 <= p < r@.len() implies (#[trigger] r@[p]).stage.id() == p && r@[p].after@
                == stage_ids(self.deps_spec()[p]) by {
                self.lemma_waits_in_order(ids@, p, self.deps_spec()[p]);
            }
            assert forall|p: int, k: int| 0 <= p < r@.len() && 0 <= k < r@[p].after@.len() implies #[trigger] r@[p].after@[k]
                < p by {
                assert(r@[p].after@ == stage_ids(self.deps_spec()[p]));
                assert(self.deps@[p]@[k] == self.deps_spec()[p][k]);
            }
        }
        r
    }

    proof fn lemma_latest_in_order(ids: Seq<StageId>, p: int, s: usize)
        requires
            forall|j: int| 0 <= j < ids.len() ==> (#[trigger] ids[j]).id() == j,
            0 <= s < p <= ids.len(),
        ensures
            latest_job(ids, p, s) == s,
        decreases p,
    {
        if ids[p - 1].id() != s {
            Self::lemma_latest_in_order(ids, p - 1, s);
        }
    }

    proof fn lemma_in_order_plan(&self, ids: Seq<StageId>)
        requires
            self.wf(),
            ids.len() == self.deps_spec().len(),
            forall|j: int| 0 <= j < ids.len() ==> (#[trigger] ids[j]).id() == j,
        ensures
            forall|p: int, k: int|
                0 <= p < ids.len() && 0 <= k < self.deps_spec()[ids[p].id() as int].len() && is_selected(
                    ids,
                    (#[trigger] self.deps_spec()[ids[p].id() as int][k]).id(),
                ) ==> latest_job(ids, p, self.deps_spec()[ids[p].id() as int][k].id()) >= 0,
    {
        assert forall|p: int, k: int|
            0 <= p < ids.len() && 0 <= k < self.deps_spec()[ids[p].id() as int].len() && is_selected(
                ids,
                (#[trigger] self.deps_spec()[ids[p].id() as int][k]).id(),
            ) implies latest_job(ids, p, self.deps_spec()[ids[p].id() as int][k].id()) >= 0 by {
            let d = self.deps_spec()[p][k].id();
            assert(self.deps@[p]@[k] == self.deps_spec()[p][k]);
            Self::lemma_latest_in_order(ids, p, d);
        }
    }

    proof fn lemma_waits_in_order(&self, ids: Seq<StageId>, p: int, ds: Seq<StageId>)
        requires
            forall|j: int| 0 <= j < ids.len() ==> (#[trigger] ids[j]).id() == j,
            0 <= p <= ids.len(),
            forall|k: int| 0 <= k < ds.len() ==> (#[trigger] ds[k]).id() < p,
        ensures
            waits_for(ds, ids, p) == stage_ids(ds),
        decreases ds.len(),
    {
        if ds.len() > 0 {
            let d = ds.last().id();
            assert(ds[ds.len() - 1].id() < p);
            assert(ids[d as int].id() == d);
            Self::lemma_latest_in_order(ids, p, d);
            self.lemma_waits_in_order(ids, p, ds.drop_last());
            assert(stage_ids(ds) =~= stage_ids(ds.drop_last()).push(d));
        } else {
            assert(stage_ids(ds) =~= Seq::<usize>::empty());
        }
    }
}

/// How a hybrid dispatch of `count` items runs once `gpu_count` of them
/// are given to the GPU: nothing, all on one backend, or the CPU taking
/// `0..count - gpu_count` while the GPU takes the rest, concurrently.
#[derive(Debug, Clone, Copy, PartialEq, Eq, Structural)]
pub enum HybridPlan {
    Nothing,
    CpuOnly { end: usize },
    GpuOnly { end: usize },
    Both { split: usize, end: usize },
}

pub fn plan_hybrid(count: usize, gpu_count: usize) -> (r: HybridPlan)
    requires
        gpu_count <= count,
    ensures
        r == if count == 0 {
            HybridPlan::Nothing
        } else if gpu_count == 0 {
            HybridPlan::CpuOnly { end: count }
        } else if gpu_count == count {
            HybridPlan::GpuOnly { end: count }
        } else {
            HybridPlan::Both { split: (count - gpu_count) as usize, end: count }
        },
{
    if count == 0 {
        return HybridPlan::Nothing;
    }
    let cpu_count = count - gpu_count;
    if gpu_count == 0 {
        HybridPlan::CpuOnly { end: cpu_count }
    } else if cpu_count == 0 {
        HybridPlan::GpuOnly { end: gpu_count }
    } else {
        HybridPlan::Both { split: cpu_count, end: count }
    }
}

} // verus!
