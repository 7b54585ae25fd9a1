//! The warm pool of containers and the life of the sandboxes made from it.

use std::collections::HashMap;
use std::sync::Arc;

use vstd::prelude::*;

#[allow(unused_imports)]
use crate::clock;
use crate::clock::Timestamp;
#[allow(unused_imports)]
use crate::config;
use crate::config::{DenConfig, TierConfig};
#[allow(unused_imports)]
use crate::docker;
#[allow(unused_imports)]
use crate::docker::ActionView;
use crate::docker::{stop_and_remove_of, DockerAction};
use crate::error::DenError;
#[allow(unused_imports)]
use crate::error;
#[allow(unused_imports)]
use crate::error::ErrorView;
#[allow(unused_imports)]
use crate::naming;
use crate::naming::{
    container_name, container_name_of, random_uuid, sandbox_id, volume_name, volume_name_of,
};
#[allow(unused_imports)]
use crate::registry;
use crate::registry::Registry;
#[allow(unused_imports)]
use crate::sandbox;
#[allow(unused_imports)]
use crate::sandbox::SandboxView;
use crate::sandbox::{Sandbox, SandboxState};
#[allow(unused_imports)]
use crate::scheduler;
use crate::scheduler::{HostInfo, Scheduler};
#[allow(unused_imports)]
use crate::text;
use crate::text::{copy_texts, join2};

verus! {

/// Seconds that a container gets to stop in.
pub const STOP_GRACE_SECS: i32 = 5;

// ---------------------------------------------------------------------------
// The pool
// ---------------------------------------------------------------------------

/// A container and its volume, made ahead and ready to be claimed.
#[derive(Debug)]
pub struct PoolEntry {
    pub container_id: String,
    pub volume_name: String,
}

/// The mathematical counterpart of [`PoolEntry`].
pub struct EntryView {
    pub container_id: Seq<char>,
    pub volume_name: Seq<char>,
}

impl View for PoolEntry {
    type V = EntryView;

    open spec fn view(&self) -> EntryView {
        EntryView { container_id: self.container_id@, volume_name: self.volume_name@ }
    }
}

/// What is ready of one tier.
#[derive(Debug)]
pub struct TierPool {
    pub available: Vec<PoolEntry>,
    pub target_size: usize,
}

/// A list of entries.
pub open spec fn entries(v: Seq<PoolEntry>) -> Seq<EntryView> {
    v.map_values(|e: PoolEntry| e@)
}

/// What is ready, tier by tier.
pub open spec fn shelves(tiers: Seq<TierPool>) -> Seq<Seq<EntryView>> {
    tiers.map_values(|t: TierPool| entries(t.available@))
}

/// The sandboxes and, for each tier of the configuration, the containers that
/// are ready.
pub struct Pool {
    tiers: Vec<TierPool>,
    pub config: Arc<DenConfig>,
    pub sandboxes: Registry,
    pub scheduler: Scheduler,
}

/// The mathematical counterpart of [`Pool`].
#[verifier::ext_equal]
pub struct PoolView {
    pub config: DenConfig,
    /// The configuration that the scheduler goes by.
    pub host: DenConfig,
    /// What is ready, in the order of the configuration's tiers.
    pub shelves: Seq<Seq<EntryView>>,
    pub sandboxes: Map<Seq<char>, SandboxView>,
}

impl View for Pool {
    type V = PoolView;

    closed spec fn view(&self) -> PoolView {
        PoolView {
            config: *self.config,
            host: *self.scheduler.config,
            shelves: shelves(self.tiers@),
            sandboxes: self.sandboxes@,
        }
    }
}

impl PoolView {
    /// Whether the tiers have different names, there is a shelf for each, and the
    /// sandboxes are consistent.
    pub open spec fn valid(self) -> bool {
        &&& config::distinct_names(self.config.tiers@)
        &&& self.shelves.len() == self.config.tiers@.len()
        &&& registry::consistent(self.sandboxes)
    }

    /// Position of the tier called `tier`.
    pub open spec fn index(self, tier: Seq<char>) -> Option<int> {
        config::tier_index(self.config.tiers@, tier)
    }

    /// What is ready of a tier.
    pub open spec fn ready(self, tier: Seq<char>) -> Seq<EntryView> {
        match self.index(tier) {
            Some(i) => self.shelves[i],
            None => Seq::empty(),
        }
    }

    /// The pool with other entries ready of a tier.
    pub open spec fn with_ready(self, tier: Seq<char>, ready: Seq<EntryView>) -> PoolView {
        match self.index(tier) {
            Some(i) => PoolView { shelves: self.shelves.update(i, ready), ..self },
            None => self,
        }
    }

    /// The pool with a sandbox entered under its id.
    pub open spec fn with_sandbox(self, s: SandboxView) -> PoolView {
        PoolView { sandboxes: self.sandboxes.insert(s.id, s), ..self }
    }

    /// How many entries a tier is short of its size.
    pub open spec fn deficit(self, tier: Seq<char>) -> nat {
        match self.index(tier) {
            Some(i) => if self.shelves[i].len() < self.config.tiers@[i].config.pool_size {
                (self.config.tiers@[i].config.pool_size - self.shelves[i].len()) as nat
            } else {
                0
            },
            None => 0,
        }
    }
}

/// The error for an id that names no sandbox.
pub open spec fn not_found(id: Seq<char>) -> ErrorView {
    ErrorView::SandboxNotFound { id }
}

/// The error for a sandbox that is not there.
pub fn missing(id: &str) -> (r: DenError)
    ensures
        r@ == not_found(id@),
{
    DenError::SandboxNotFound { id: id.to_string() }
}

// ---------------------------------------------------------------------------
// Claiming
// ---------------------------------------------------------------------------

/// What a claim has set aside.
#[derive(Debug)]
pub enum Reservation {
    /// A container from the pool; it is to be started.
    Pooled(PoolEntry),
    /// Names for a volume and a container that are to be made, and the container
    /// started, because the sandbox has bind mounts of its own.
    Dedicated { container_name: String, volume_name: String },
}

/// Why a claim is refused before anything is set aside, if it is.
pub open spec fn claim_fault(
    v: PoolView,
    tier: Seq<char>,
    info: Result<HostInfo, DenError>,
) -> Option<ErrorView> {
    if v.index(tier) is None {
        Some(ErrorView::TierNotFound { tier })
    } else {
        match config::tier_index(v.host.tiers@, tier) {
            None => Some(ErrorView::TierNotFound { tier }),
            Some(i) => match info {
                Err(e) => Some(e@),
                Ok(host) => if scheduler::has_room(v.host.tiers@[i].config, host) {
                    None
                } else {
                    Some(
                        ErrorView::InsufficientResources {
                            reason: "not enough resources for tier "@ + tier,
                        },
                    )
                },
            },
        }
    }
}

/// A sandbox as it is when it has been claimed and started at `now`.
pub open spec fn claimed(
    id: Seq<char>,
    tier: Seq<char>,
    t: TierConfig,
    entry: EntryView,
    metadata: Map<String, String>,
    bind_mounts: Seq<Seq<char>>,
    now: int,
) -> SandboxView {
    sandbox::new_sandbox(
        id,
        entry.container_id,
        entry.volume_name,
        tier,
        t.timeout_secs,
        metadata,
        bind_mounts,
        t.max_concurrent_execs,
        now,
    ).moved(SandboxState::Starting, now).moved(SandboxState::Running, now)
}

// ---------------------------------------------------------------------------
// Releasing, resuming and destroying
// ---------------------------------------------------------------------------

/// A sandbox after its release at `now`.
pub open spec fn released(s: SandboxView, now: int) -> SandboxView {
    if s.state == SandboxState::Running {
        s.moved(SandboxState::Completed, now)
    } else {
        s
    }
}

/// Why a sandbox cannot be resumed, if it cannot.
pub open spec fn resume_fault(v: PoolView, id: Seq<char>) -> Option<ErrorView> {
    if !v.sandboxes.contains_key(id) {
        Some(not_found(id))
    } else if v.sandboxes[id].state == SandboxState::Running {
        Some(
            ErrorView::InvalidState {
                id,
                current: SandboxState::Running,
                operation: "resume (already running)"@,
            },
        )
    } else if v.index(v.sandboxes[id].tier) is None {
        Some(ErrorView::TierNotFound { tier: v.sandboxes[id].tier })
    } else {
        None
    }
}

/// A sandbox while its new container is being made.
pub open spec fn resuming(s: SandboxView, now: int) -> SandboxView {
    SandboxView { state: SandboxState::Pending, ..s }.moved(SandboxState::Starting, now)
}

/// A sandbox in another container.
pub open spec fn in_container(s: SandboxView, container_id: Seq<char>) -> SandboxView {
    SandboxView { container_id, ..s }
}

/// The container that a resumed sandbox is to get.
#[derive(Debug)]
pub struct ResumePlan {
    pub tier: String,
    pub container_name: String,
    pub volume_name: String,
    pub bind_mounts: Vec<String>,
}

/// What destroying a sandbox asks of Docker.
pub open spec fn destruction(s: SandboxView) -> Seq<ActionView> {
    docker::stop_and_remove(s.container_id, STOP_GRACE_SECS as int).push(
        ActionView::RemoveVolume { name: s.volume_name },
    )
}

// ---------------------------------------------------------------------------
// Commands
// ---------------------------------------------------------------------------

/// Why no further command may run in a sandbox, if none may.
pub open spec fn exec_fault(m: Map<Seq<char>, SandboxView>, id: Seq<char>) -> Option<ErrorView> {
    if !m.contains_key(id) {
        Some(not_found(id))
    } else if m[id].state != SandboxState::Running {
        Some(ErrorView::InvalidState { id, current: m[id].state, operation: "exec"@ })
    } else if m[id].active_execs >= m[id].max_concurrent_execs {
        Some(ErrorView::TooManyExecs { id, limit: m[id].max_concurrent_execs as nat })
    } else {
        None
    }
}

/// A sandbox with one command more under way.
pub open spec fn one_more_exec(s: SandboxView) -> SandboxView {
    SandboxView { active_execs: (s.active_execs + 1) as usize, ..s }
}

/// A sandbox with one command fewer under way.
pub open spec fn one_exec_less(s: SandboxView) -> SandboxView {
    SandboxView {
        active_execs: if s.active_execs > 0 {
            (s.active_execs - 1) as usize
        } else {
            0
        },
        ..s
    }
}

// ---------------------------------------------------------------------------
// Stocking
// ---------------------------------------------------------------------------

/// A volume and a container that are to be made for the pool.
#[derive(Debug)]
pub struct PoolJob {
    pub tier: String,
    pub container_name: String,
    pub volume_name: String,
}

/// A job with the container that came of it.
#[derive(Debug)]
pub struct Built {
    pub job: PoolJob,
    pub container_id: Result<String, DenError>,
}

/// Whether a job makes a container and a volume for a tier.
pub open spec fn job_for(job: PoolJob, tier: Seq<char>) -> bool {
    &&& job.tier@ == tier
    &&& naming::names_container(job.container_name@, tier)
    &&& naming::names_volume(job.volume_name@)
}

/// The tiers that warming up makes containers for, each as often as its pool is
/// large.
pub open spec fn warm_up_tiers(tiers: Seq<config::NamedTier>) -> Seq<Seq<char>>
    decreases tiers.len(),
{
    if tiers.len() == 0 {
        Seq::empty()
    } else {
        warm_up_tiers(tiers.drop_last()) + Seq::new(
            tiers.last().config.pool_size as nat,
            |i: int| tiers.last().name@,
        )
    }
}

/// The pool after a job: its container is ready where there is one.
pub open spec fn stocked_one(v: PoolView, b: Built) -> PoolView {
    match b.container_id {
        Ok(c) => v.with_ready(
            b.job.tier@,
            v.ready(b.job.tier@).push(
                EntryView { container_id: c@, volume_name: b.job.volume_name@ },
            ),
        ),
        Err(_) => v,
    }
}

/// The pool after a series of jobs.
pub open spec fn stocked(v: PoolView, built: Seq<Built>) -> PoolView
    decreases built.len(),
{
    if built.len() == 0 {
        v
    } else {
        stocked_one(stocked(v, built.drop_last()), built.last())
    }
}

/// How many jobs succeeded before the first that failed.
pub open spec fn good_start(built: Seq<Built>) -> nat
    decreases built.len(),
{
    if built.len() == 0 || built[0].container_id is Err {
        0
    } else {
        1 + good_start(built.drop_first())
    }
}

proof fn lemma_good_start(built: Seq<Built>, k: int)
    requires
        0 <= k <= built.len(),
        forall|i: int| 0 <= i < k ==> (#[trigger] built[i]).container_id is Ok,
        k < built.len() ==> built[k].container_id is Err,
    ensures
        good_start(built) == k,
    decreases built.len(),
{
    if k > 0 {
        let rest = built.drop_first();
        assert(built[0].container_id is Ok);
        assert forall|i: int| 0 <= i < k - 1 implies (#[trigger] rest[i]).container_id is Ok by {
            assert(rest[i] == built[i + 1]);
        }
        lemma_good_start(rest, k - 1);
    }
}

/// Whether a pair of texts can have been drawn: two UUIDs, one for the container
/// and one for the volume.
pub open spec fn is_draw(draw: (String, String)) -> bool {
    naming::is_uuid(draw.0@) && naming::is_uuid(draw.1@)
}

/// Whether a job is the one that a draw gives a tier: its container is named by
/// the first UUID of the draw and its volume by the second.
pub open spec fn job_from(job: PoolJob, tier: Seq<char>, draw: (String, String)) -> bool {
    &&& job.tier@ == tier
    &&& job.container_name@ == naming::container_text(tier, draw.0@.take(8))
    &&& job.volume_name@ == naming::volume_text(draw.1@.take(8))
}

fn new_draw() -> (r: (String, String))
    ensures
        is_draw(r),
{
    (random_uuid(), random_uuid())
}

fn job_of(tier: &str, draw: &(String, String)) -> (r: PoolJob)
    requires
        is_draw(*draw),
    ensures
        job_from(r, tier@, *draw),
        job_for(r, tier@),
{
    PoolJob {
        tier: tier.to_string(),
        container_name: container_name_of(tier, draw.0.as_str()),
        volume_name: volume_name_of(draw.1.as_str()),
    }
}

/// The list for the first tiers is the beginning of the list for all.
proof fn lemma_warm_up_prefix(tiers: Seq<config::NamedTier>, i: int)
    requires
        0 <= i <= tiers.len(),
    ensures
        warm_up_tiers(tiers.take(i)).len() <= warm_up_tiers(tiers).len(),
        forall|k: int|
            0 <= k < warm_up_tiers(tiers.take(i)).len() ==> #[trigger] warm_up_tiers(
                tiers.take(i),
            )[k] == warm_up_tiers(tiers)[k],
    decreases tiers.len(),
{
    if i == tiers.len() {
        assert(tiers.take(i) =~= tiers);
    } else {
        let front = tiers.drop_last();
        assert(front.take(i) =~= tiers.take(i));
        lemma_warm_up_prefix(front, i);
    }
}

impl Pool {
    /// Whether the shelves are as large as the configuration says.
    pub closed spec fn sized(&self) -> bool {
        &&& self.tiers.len() == self.config.tiers.len()
        &&& forall|i: int|
            0 <= i < self.tiers.len() ==> (#[trigger] self.tiers@[i]).target_size
                == self.config.tiers@[i].config.pool_size
    }

    /// Whether the pool is as it should be.
    pub open spec fn wf(&self) -> bool {
        self.sized() && self@.valid()
    }

    /// A pool with nothing ready yet.
    pub fn new(config: Arc<DenConfig>, sandboxes: Registry, scheduler: Scheduler) -> (r: Pool)
        requires
            config::distinct_names(config.tiers@),
            sandboxes.wf(),
        ensures
            r.wf(),
            r@.config == *config,
            r@.host == *scheduler.config,
            r@.shelves == Seq::new(config.tiers@.len(), |i: int| Seq::<EntryView>::empty()),
            r@.sandboxes == sandboxes@,
    {
        let mut tiers: Vec<TierPool> = Vec::new();
        let mut i: usize = 0;
        while i < config.tiers.len()
            invariant
                i <= config.tiers.len(),
                tiers.len() == i,
                forall|k: int|
                    0 <= k < i ==> (#[trigger] tiers@[k]).target_size
                        == config.tiers@[k].config.pool_size && tiers@[k].available@.len() == 0,
            decreases config.tiers.len() - i,
        {
            tiers.push(
                TierPool { available: Vec::new(), target_size: config.tiers[i].config.pool_size },
            );
            i += 1;
        }
        let r = Pool { tiers, config, sandboxes, scheduler };
        assert forall|k: int| 0 <= k < r@.shelves.len() implies #[trigger] r@.shelves[k]
            == Seq::<EntryView>::empty() by {
            assert(entries(r.tiers@[k].available@) =~= Seq::empty());
        }
        assert(r@.shelves =~= Seq::new(config.tiers@.len(), |i: int| Seq::<EntryView>::empty()));
        r
    }

    /// The containers and volumes to make when the pool starts: as many of each
    /// tier as its pool is large, each named by a draw of its own.
    pub fn warm_up(&self) -> (r: Vec<PoolJob>)
        ensures
            r@.len() == warm_up_tiers(self@.config.tiers@).len(),
            forall|i: int|
                0 <= i < r@.len() ==> job_for(
                    #[trigger] r@[i],
                    warm_up_tiers(self@.config.tiers@)[i],
                ),
    {
        let mut draws: Vec<(String, String)> = Vec::new();
        let ghost tiers = self.config.tiers@;
        let mut i: usize = 0;
        assert(tiers.take(0) =~= Seq::empty());
        while i < self.config.tiers.len()
            invariant
                i <= self.config.tiers.len(),
                tiers == self.config.tiers@,
                draws@.len() == warm_up_tiers(tiers.take(i as int)).len(),
                forall|k: int| 0 <= k < draws@.len() ==> is_draw(#[trigger] draws@[k]),
            decreases self.config.tiers.len() - i,
        {
            let ghost done = draws@.len();
            let ghost next = tiers.take(i + 1);
            let size = self.config.tiers[i].config.pool_size;
            proof {
                assert(next.drop_last() =~= tiers.take(i as int));
                assert(next.last() == tiers[i as int]);
            }
            let mut n: usize = 0;
            while n < size
                invariant
                    n <= size,
                    draws@.len() == done + n,
                    forall|k: int| 0 <= k < draws@.len() ==> is_draw(#[trigger] draws@[k]),
                decreases size - n,
            {
                draws.push(new_draw());
                n += 1;
            }
            i += 1;
        }
        assert(tiers.take(i as int) =~= tiers);
        self.warm_up_from(&draws)
    }

    /// The containers and volumes to make when the pool starts, named by the given
    /// draws in their order.
    pub fn warm_up_from(&self, draws: &Vec<(String, String)>) -> (r: Vec<PoolJob>)
        requires
            draws@.len() == warm_up_tiers(self@.config.tiers@).len(),
            forall|i: int| 0 <= i < draws@.len() ==> is_draw(#[trigger] draws@[i]),
        ensures
            r@.len() == warm_up_tiers(self@.config.tiers@).len(),
            forall|i: int|
                #![trigger r@[i]]
                0 <= i < r@.len() ==> job_from(
                    r@[i],
                    warm_up_tiers(self@.config.tiers@)[i],
                    draws@[i],
                ) && job_for(r@[i], warm_up_tiers(self@.config.tiers@)[i]),
    {
        let mut out: Vec<PoolJob> = Vec::new();
        let ghost tiers = self.config.tiers@;
        let ghost all = warm_up_tiers(tiers);
        let mut i: usize = 0;
        assert(tiers.take(0) =~= Seq::empty());
        while i < self.config.tiers.len()
            invariant
                i <= self.config.tiers.len(),
                tiers == self.config.tiers@,
                all == warm_up_tiers(tiers),
                draws@.len() == all.len(),
                forall|k: int| 0 <= k < draws@.len() ==> is_draw(#[trigger] draws@[k]),
                out@.len() == warm_up_tiers(tiers.take(i as int)).len(),
                forall|k: int|
                    #![trigger out@[k]]
                    0 <= k < out@.len() ==> job_from(out@[k], all[k], draws@[k]) && job_for(
                        out@[k],
                        all[k],
                    ),
            decreases self.config.tiers.len() - i,
        {
            let ghost done = warm_up_tiers(tiers.take(i as int)).len();
            let ghost next = tiers.take(i + 1);
            let size = self.config.tiers[i].config.pool_size;
            proof {
                assert(next.drop_last() =~= tiers.take(i as int));
                assert(next.last() == tiers[i as int]);
                lemma_warm_up_prefix(tiers, i + 1);
                assert forall|k: int| done <= k < done + size implies #[trigger] all[k]
                    == tiers[i as int].name@ by {
                    assert(warm_up_tiers(next)[k] == tiers[i as int].name@);
                }
            }
            let mut n: usize = 0;
            while n < size
                invariant
                    n <= size,
                    i < self.config.tiers.len(),
                    tiers == self.config.tiers@,
                    size == tiers[i as int].config.pool_size,
                    draws@.len() == all.len(),
                    done + size <= all.len(),
                    forall|k: int| 0 <= k < draws@.len() ==> is_draw(#[trigger] draws@[k]),
                    forall|k: int|
                        done <= k < done + size ==> #[trigger] all[k] == tiers[i as int].name@,
                    out@.len() == done + n,
                    forall|k: int|
                        #![trigger out@[k]]
                        0 <= k < out@.len() ==> job_from(out@[k], all[k], draws@[k]) && job_for(
                            out@[k],
                            all[k],
                        ),
                decreases size - n,
            {
                let at: usize = out.len();
                assert(all[at as int] == tiers[i as int].name@);
                out.push(job_of(self.config.tiers[i].name.as_str(), &draws[at]));
                n += 1;
            }
            i += 1;
        }
        assert(tiers.take(i as int) =~= tiers);
        out
    }

    /// How many entries a tier is short of its size.
    pub fn shortfall(&self, tier: &str) -> (r: usize)
        requires
            self.wf(),
        ensures
            r == self@.deficit(tier@),
    {
        match self.config.tier_position(tier) {
            Some(i) => {
                let shelf = &self.tiers[i];
                assert(self@.shelves[i as int].len() == shelf.available.len());
                shelf.target_size.saturating_sub(shelf.available.len())
            },
            None => 0,
        }
    }

    /// The containers and volumes to make so that a tier is up to its size
    /// again, each named by a draw of its own.
    pub fn replenish(&self, tier: &str) -> (r: Vec<PoolJob>)
        requires
            self.wf(),
        ensures
            r@.len() == self@.deficit(tier@),
            forall|i: int| 0 <= i < r@.len() ==> job_for(#[trigger] r@[i], tier@),
    {
        let deficit: usize = self.shortfall(tier);
        let mut draws: Vec<(String, String)> = Vec::new();
        let mut n: usize = 0;
        while n < deficit
            invariant
                n <= deficit,
                draws@.len() == n,
                forall|k: int| 0 <= k < draws@.len() ==> is_draw(#[trigger] draws@[k]),
            decreases deficit - n,
        {
            draws.push(new_draw());
            n += 1;
        }
        self.replenish_from(tier, &draws)
    }

    /// The containers and volumes to make so that a tier is up to its size
    /// again, named by the given draws in their order.
    pub fn replenish_from(&self, tier: &str, draws: &Vec<(String, String)>) -> (r: Vec<PoolJob>)
        requires
            self.wf(),
            draws@.len() == self@.deficit(tier@),
            forall|i: int| 0 <= i < draws@.len() ==> is_draw(#[trigger] draws@[i]),
        ensures
            r@.len() == self@.deficit(tier@),
            forall|i: int|
                #![trigger r@[i]]
                0 <= i < r@.len() ==> job_from(r@[i], tier@, draws@[i]) && job_for(r@[i], tier@),
    {
        let mut out: Vec<PoolJob> = Vec::new();
        let mut n: usize = 0;
        while n < draws.len()
            invariant
                n <= draws.len(),
                out@.len() == n,
                forall|k: int| 0 <= k < draws@.len() ==> is_draw(#[trigger] draws@[k]),
                forall|k: int|
                    #![trigger out@[k]]
                    0 <= k < out@.len() ==> job_from(out@[k], tier@, draws@[k]) && job_for(
                        out@[k],
                        tier@,
                    ),
            decreases draws.len() - n,
        {
            out.push(job_of(tier, &draws[n]));
            n += 1;
        }
        out
    }

    /// Make the container of a job ready. A tier that is not configured has no
    /// place for it.
    fn stock(&mut self, b: &Built)
        requires
            old(self).wf(),
        ensures
            final(self).wf(),
            final(self)@ == stocked_one(old(self)@, *b),
    {
        if let Ok(c) = &b.container_id {
            if let Some(i) = self.config.tier_position(b.job.tier.as_str()) {
                let entry = PoolEntry {
                    container_id: c.clone(),
                    volume_name: b.job.volume_name.clone(),
                };
                let ghost before = self.tiers@;
                self.tiers[i].available.push(entry);
                proof {
                    config::lemma_tier_index(self.config.tiers@, b.job.tier@);
                    assert(entries(self.tiers@[i as int].available@) =~= entries(
                        before[i as int].available@,
                    ).push(entry@));
                    assert(shelves(self.tiers@) =~= shelves(before).update(
                        i as int,
                        shelves(before)[i as int].push(entry@),
                    ));
                }
            }
        }
    }

    /// Take in what came of warming up. The first job that failed is reported,
    /// and what comes after it is left out.
    pub fn warmed_up(&mut self, built: Vec<Built>) -> (r: Result<(), DenError>)
        requires
            old(self).wf(),
        ensures
            final(self).wf(),
            final(self)@ == stocked(old(self)@, built@.take(good_start(built@) as int)),
            r is Ok <==> good_start(built@) == built@.len(),
            r is Err ==> good_start(built@) < built@.len() && Err::<String, DenError>(
                r->Err_0,
            ) == built@[good_start(built@) as int].container_id,
    {
        let ghost all = built@;
        let mut outcomes = built;
        let mut i: usize = 0;
        assert(all.take(0) =~= Seq::empty());
        while i < outcomes.len()
            invariant
                i <= outcomes.len(),
                all == built@,
                all == outcomes@,
                self.wf(),
                self@ == stocked(old(self)@, all.take(i as int)),
                forall|k: int| 0 <= k < i ==> (#[trigger] all[k]).container_id is Ok,
            decreases outcomes.len() - i,
        {
            if outcomes[i].container_id.is_err() {
                proof {
                    lemma_good_start(all, i as int);
                }
                let failed = outcomes.swap_remove(i);
                return match failed.container_id {
                    Err(e) => Err(e),
                    Ok(_) => Ok(()),
                };
            }
            self.stock(&outcomes[i]);
            proof {
                let next = all.take(i + 1);
                assert(next.drop_last() =~= all.take(i as int));
                assert(next.last() == all[i as int]);
            }
            i += 1;
        }
        proof {
            lemma_good_start(all, i as int);
            assert(all.take(i as int) =~= all);
        }
        Ok(())
    }

    /// Take in what came of replenishing. Jobs that failed are passed over.
    pub fn replenished(&mut self, built: &Vec<Built>)
        requires
            old(self).wf(),
        ensures
            final(self).wf(),
            final(self)@ == stocked(old(self)@, built@),
    {
        let ghost start = self@;
        let mut i: usize = 0;
        assert(built@.take(0) =~= Seq::empty());
        while i < built.len()
            invariant
                i <= built.len(),
                self.wf(),
                self@ == stocked(start, built@.take(i as int)),
            decreases built.len() - i,
        {
            self.stock(&built[i]);
            proof {
                let next = built@.take(i + 1);
                assert(next.drop_last() =~= built@.take(i as int));
                assert(next.last() == built@[i as int]);
            }
            i += 1;
        }
        assert(built@.take(i as int) =~= built@);
    }

    /// Set aside what a new sandbox needs. A sandbox with bind mounts gets a
    /// container of its own, under drawn names; any other takes the newest ready
    /// one, and fails at once where none is. `info` is what Docker says of the host.
    pub fn claim(
        &mut self,
        tier: &str,
        info: Result<HostInfo, DenError>,
        bind_mounts: &Vec<String>,
    ) -> (r: Result<Reservation, DenError>)
        requires
            old(self).wf(),
        ensures
            final(self).wf(),
            claim_outcome(
                old(self)@,
                final(self)@,
                tier@,
                info,
                bind_mounts@.len() > 0,
                r,
            ),
    {
        if bind_mounts.len() > 0 {
            self.claim_named(tier, info, bind_mounts, container_name(tier), volume_name())
        } else {
            self.claim_named(tier, info, bind_mounts, String::new(), String::new())
        }
    }

    /// Set aside what a new sandbox needs, with the given names for a container and
    /// a volume that are to be made.
    pub fn claim_named(
        &mut self,
        tier: &str,
        info: Result<HostInfo, DenError>,
        bind_mounts: &Vec<String>,
        container_name: String,
        volume_name: String,
    ) -> (r: Result<Reservation, DenError>)
        requires
            old(self).wf(),
        ensures
            final(self).wf(),
            claim_named_outcome(
                old(self)@,
                final(self)@,
                tier@,
                info,
                bind_mounts@.len() > 0,
                container_name@,
                volume_name@,
                r,
            ),
    {
        let position = match self.config.tier_position(tier) {
            Some(i) => i,
            None => {
                return Err(DenError::TierNotFound { tier: tier.to_string() });
            },
        };
        if self.scheduler.config.tier_position(tier).is_none() {
            return Err(DenError::TierNotFound { tier: tier.to_string() });
        }
        let host = match info {
            Ok(h) => h,
            Err(e) => {
                return Err(e);
            },
        };
        match self.scheduler.can_schedule(tier, &host) {
            Ok(true) => {},
            Ok(false) => {
                return Err(
                    DenError::InsufficientResources {
                        reason: join2("not enough resources for tier ", tier),
                    },
                );
            },
            Err(e) => {
                return Err(e);
            },
        }
        if bind_mounts.len() > 0 {
            return Ok(Reservation::Dedicated { container_name, volume_name });
        }
        let ghost before = self.tiers@;
        assert(shelves(before)[position as int].len() == before[position as int].available.len());
        match self.tiers[position].available.pop() {
            Some(entry) => {
                proof {
                    assert(entries(self.tiers@[position as int].available@) =~= entries(
                        before[position as int].available@,
                    ).drop_last());
                    assert(shelves(self.tiers@) =~= shelves(before).update(
                        position as int,
                        shelves(before)[position as int].drop_last(),
                    ));
                }
                Ok(Reservation::Pooled(entry))
            },
            None => {
                assert forall|k: int| 0 <= k < before.len() implies shelves(self.tiers@)[k]
                    == #[trigger] shelves(before)[k] by {
                    assert(self.tiers@[k].available@ == before[k].available@);
                }
                assert(shelves(self.tiers@) =~= shelves(before));
                Err(DenError::PoolExhausted { tier: tier.to_string() })
            },
        }
    }

    /// Enter a sandbox whose container has been started, now and under a fresh
    /// id. It is running.
    pub fn register(
        &mut self,
        tier: &str,
        entry: PoolEntry,
        metadata: HashMap<String, String>,
        bind_mounts: Vec<String>,
    ) -> (r: Result<Sandbox, DenError>)
        requires
            old(self).wf(),
        ensures
            final(self).wf(),
            match old(self)@.index(tier@) {
                Some(i) => {
                    &&& r is Ok
                    &&& naming::names_sandbox(r->Ok_0.id@, tier@)
                    &&& clock::on_clock(r->Ok_0.created_at@)
                    &&& r->Ok_0@ == claimed(
                        r->Ok_0.id@,
                        tier@,
                        old(self)@.config.tiers@[i].config,
                        entry@,
                        metadata@,
                        text::texts(bind_mounts@),
                        r->Ok_0.created_at@,
                    )
                    &&& final(self)@ == old(self)@.with_sandbox(r->Ok_0@)
                },
                None => {
                    &&& r is Err
                    &&& r->Err_0@ == (ErrorView::TierNotFound { tier: tier@ })
                    &&& final(self)@ == old(self)@
                },
            },
    {
        self.register_at(sandbox_id(tier), tier, entry, metadata, bind_mounts, Timestamp::now())
    }

    /// Enter a sandbox whose container has been started at `now`.
    pub fn register_at(
        &mut self,
        id: String,
        tier: &str,
        entry: PoolEntry,
        metadata: HashMap<String, String>,
        bind_mounts: Vec<String>,
        now: Timestamp,
    ) -> (r: Result<Sandbox, DenError>)
        requires
            old(self).wf(),
        ensures
            final(self).wf(),
            match old(self)@.index(tier@) {
                Some(i) => {
                    &&& r is Ok
                    &&& r->Ok_0@ == claimed(
                        id@,
                        tier@,
                        old(self)@.config.tiers@[i].config,
                        entry@,
                        metadata@,
                        text::texts(bind_mounts@),
                        now@,
                    )
                    &&& final(self)@ == old(self)@.with_sandbox(r->Ok_0@)
                },
                None => {
                    &&& r is Err
                    &&& r->Err_0@ == (ErrorView::TierNotFound { tier: tier@ })
                    &&& final(self)@ == old(self)@
                },
            },
    {
        let t = match self.config.tier(tier) {
            Some(t) => t,
            None => {
                return Err(DenError::TierNotFound { tier: tier.to_string() });
            },
        };
        let mut s = Sandbox::new_at(
            id,
            entry.container_id,
            entry.volume_name,
            tier.to_string(),
            t.timeout_secs,
            metadata,
            bind_mounts,
            t.max_concurrent_execs,
            now,
        );
        assert(SandboxState::Pending.successors()[0] == SandboxState::Starting);
        let started = s.transition_at(SandboxState::Starting, now);
        if let Err(e) = started {
            return Err(e);
        }
        assert(SandboxState::Starting.successors()[0] == SandboxState::Running);
        let running = s.transition_at(SandboxState::Running, now);
        if let Err(e) = running {
            return Err(e);
        }
        self.sandboxes.put(s.clone());
        Ok(s)
    }

    /// Release a sandbox, now: its container is to be stopped and removed, its
    /// volume and the sandbox itself stay.
    pub fn release(&mut self, id: &str) -> (r: Result<Vec<DockerAction>, DenError>)
        requires
            old(self).wf(),
        ensures
            final(self).wf(),
            exists|now: int|
                clock::on_clock(now) && #[trigger] release_outcome(old(self)@, final(self)@, id@, r, now),
    {
        let now = Timestamp::now();
        let r = self.release_at(id, now);
        assert(release_outcome(old(self)@, self@, id@, r, now@));
        r
    }

    /// Release a sandbox at `now`.
    pub fn release_at(&mut self, id: &str, now: Timestamp) -> (r: Result<
        Vec<DockerAction>,
        DenError,
    >)
        requires
            old(self).wf(),
        ensures
            final(self).wf(),
            release_outcome(old(self)@, final(self)@, id@, r, now@),
    {
        let mut s = match self.sandboxes.get(id) {
            Some(s) => s,
            None => {
                return Err(missing(id));
            },
        };
        if s.state == SandboxState::Running {
            assert(SandboxState::Running.successors()[0] == SandboxState::Completed);
            let moved = s.transition_at(SandboxState::Completed, now);
            if let Err(e) = moved {
                return Err(e);
            }
        }
        let actions = stop_and_remove_of(s.container_id.as_str(), STOP_GRACE_SECS);
        self.sandboxes.put(s);
        Ok(actions)
    }

    /// Prepare to resume a sandbox, now: it gets a new container on its old
    /// volume, with its old bind mounts. Until then it is starting.
    pub fn resume(&mut self, id: &str) -> (r: Result<ResumePlan, DenError>)
        requires
            old(self).wf(),
        ensures
            final(self).wf(),
            exists|now: int|
                clock::on_clock(now) && #[trigger] resume_outcome(old(self)@, final(self)@, id@, r, now),
    {
        let now = Timestamp::now();
        let r = self.resume_at(id, now);
        assert(resume_outcome(old(self)@, self@, id@, r, now@));
        r
    }

    /// Prepare to resume a sandbox at `now`, in a container with a drawn name.
    pub fn resume_at(&mut self, id: &str, now: Timestamp) -> (r: Result<ResumePlan, DenError>)
        requires
            old(self).wf(),
        ensures
            final(self).wf(),
            resume_outcome(old(self)@, final(self)@, id@, r, now@),
    {
        match self.sandboxes.get(id) {
            Some(s) => self.resume_named(id, container_name(s.tier.as_str()), now),
            None => Err(missing(id)),
        }
    }

    /// Prepare to resume a sandbox at `now`, in a container with the given name.
    pub fn resume_named(&mut self, id: &str, container_name: String, now: Timestamp) -> (r: Result<
        ResumePlan,
        DenError,
    >)
        requires
            old(self).wf(),
        ensures
            final(self).wf(),
            resume_named_outcome(old(self)@, final(self)@, id@, container_name@, r, now@),
    {
        let mut s = match self.sandboxes.get(id) {
            Some(s) => s,
            None => {
                return Err(missing(id));
            },
        };
        if s.state == SandboxState::Running {
            return Err(
                DenError::InvalidState {
                    id: id.to_string(),
                    current: s.state,
                    operation: "resume (already running)".to_string(),
                },
            );
        }
        if self.config.tier_position(s.tier.as_str()).is_none() {
            return Err(DenError::TierNotFound { tier: s.tier.clone() });
        }
        s.state = SandboxState::Pending;
        assert(SandboxState::Pending.successors()[0] == SandboxState::Starting);
        let moved = s.transition_at(SandboxState::Starting, now);
        if let Err(e) = moved {
            return Err(e);
        }
        let plan = ResumePlan {
            tier: s.tier.clone(),
            container_name,
            volume_name: s.volume_name.clone(),
            bind_mounts: copy_texts(&s.bind_mounts),
        };
        self.sandboxes.put(s);
        Ok(plan)
    }

    /// Finish resuming a sandbox, now: its new container has been started.
    pub fn resumed(&mut self, id: &str, container_id: String) -> (r: Result<Sandbox, DenError>)
        requires
            old(self).wf(),
        ensures
            final(self).wf(),
            exists|now: int|
                clock::on_clock(now) && #[trigger] resumed_outcome(
                    old(self)@,
                    final(self)@,
                    id@,
                    container_id@,
                    r,
                    now,
                ),
    {
        let now = Timestamp::now();
        let ghost c = container_id@;
        let r = self.resumed_at(id, container_id, now);
        assert(resumed_outcome(old(self)@, self@, id@, c, r, now@));
        r
    }

    /// Finish resuming a sandbox at `now`.
    pub fn resumed_at(&mut self, id: &str, container_id: String, now: Timestamp) -> (r: Result<
        Sandbox,
        DenError,
    >)
        requires
            old(self).wf(),
        ensures
            final(self).wf(),
            resumed_outcome(old(self)@, final(self)@, id@, container_id@, r, now@),
    {
        let mut s = match self.sandboxes.get(id) {
            Some(s) => s,
            None => {
                return Err(missing(id));
            },
        };
        s.container_id = container_id;
        let moved = s.transition_at(SandboxState::Running, now);
        self.sandboxes.put(s.clone());
        match moved {
            Ok(_) => Ok(s),
            Err(e) => Err(e),
        }
    }

    /// Destroy a sandbox: container, volume and the sandbox itself go.
    pub fn destroy(&mut self, id: &str) -> (r: Result<Vec<DockerAction>, DenError>)
        requires
            old(self).wf(),
        ensures
            final(self).wf(),
            old(self)@.sandboxes.contains_key(id@) ==> {
                &&& r is Ok
                &&& docker::actions(r->Ok_0@) == destruction(old(self)@.sandboxes[id@])
                &&& final(self)@ == (PoolView {
                    sandboxes: old(self)@.sandboxes.remove(id@),
                    ..old(self)@
                })
            },
            !old(self)@.sandboxes.contains_key(id@) ==> {
                &&& r is Err
                &&& r->Err_0@ == not_found(id@)
                &&& final(self)@ == old(self)@
            },
    {
        match self.sandboxes.remove(id) {
            Some(s) => {
                let mut actions = stop_and_remove_of(s.container_id.as_str(), STOP_GRACE_SECS);
                let ghost before = docker::actions(actions@);
                actions.push(DockerAction::RemoveVolume { name: s.volume_name });
                assert(docker::actions(actions@) =~= before.push(
                    ActionView::RemoveVolume { name: s.volume_name@ },
                ));
                Ok(actions)
            },
            None => {
                assert(self@.sandboxes =~= old(self)@.sandboxes);
                Err(missing(id))
            },
        }
    }

    /// The container of a sandbox.
    pub fn container_of(&self, id: &str) -> (r: Result<String, DenError>)
        ensures
            self@.sandboxes.contains_key(id@) ==> r is Ok && r->Ok_0@
                == self@.sandboxes[id@].container_id,
            !self@.sandboxes.contains_key(id@) ==> r is Err && r->Err_0@ == not_found(id@),
    {
        match self.sandboxes.get(id) {
            Some(s) => Ok(s.container_id),
            None => Err(missing(id)),
        }
    }

    /// Let a command into a sandbox, which must be running and have a command less
    /// under way than it may, and tell its container.
    pub fn exec_begin(&mut self, id: &str) -> (r: Result<String, DenError>)
        requires
            old(self).wf(),
        ensures
            final(self).wf(),
            match exec_fault(old(self)@.sandboxes, id@) {
                Some(e) => r is Err && r->Err_0@ == e && final(self)@ == old(self)@,
                None => {
                    &&& r is Ok
                    &&& r->Ok_0@ == old(self)@.sandboxes[id@].container_id
                    &&& final(self)@ == old(self)@.with_sandbox(
                        one_more_exec(old(self)@.sandboxes[id@]),
                    )
                },
            },
    {
        let mut s = match self.sandboxes.get(id) {
            Some(s) => s,
            None => {
                return Err(missing(id));
            },
        };
        if !s.state.is_usable() {
            return Err(
                DenError::InvalidState {
                    id: id.to_string(),
                    current: s.state,
                    operation: "exec".to_string(),
                },
            );
        }
        if s.active_execs >= s.max_concurrent_execs {
            return Err(
                DenError::TooManyExecs { id: id.to_string(), limit: s.max_concurrent_execs },
            );
        }
        s.active_execs = s.active_execs + 1;
        let container = s.container_id.clone();
        self.sandboxes.put(s);
        Ok(container)
    }

    /// A command that was let in has ended.
    pub fn exec_end(&mut self, id: &str)
        requires
            old(self).wf(),
        ensures
            final(self).wf(),
            old(self)@.sandboxes.contains_key(id@) ==> final(self)@ == old(self)@.with_sandbox(
                one_exec_less(old(self)@.sandboxes[id@]),
            ),
            !old(self)@.sandboxes.contains_key(id@) ==> final(self)@ == old(self)@,
    {
        if let Some(s) = self.sandboxes.get(id) {
            let mut s = s;
            if s.active_execs > 0 {
                s.active_execs = s.active_execs - 1;
            }
            self.sandboxes.put(s);
        }
    }

    /// Record activity in a sandbox, now.
    pub fn touch(&mut self, id: &str)
        requires
            old(self).wf(),
        ensures
            final(self).wf(),
            exists|now: int|
                clock::on_clock(now) && #[trigger] touch_outcome(old(self)@, final(self)@, id@, now),
    {
        let now = Timestamp::now();
        self.touch_at(id, now);
        assert(touch_outcome(old(self)@, self@, id@, now@));
    }

    /// Record activity in a sandbox at `now`.
    pub fn touch_at(&mut self, id: &str, now: Timestamp)
        requires
            old(self).wf(),
        ensures
            final(self).wf(),
            touch_outcome(old(self)@, final(self)@, id@, now@),
    {
        if let Some(s) = self.sandboxes.get(id) {
            let mut s = s;
            s.touch_at(now);
            self.sandboxes.put(s);
        }
    }
}

/// What comes of a claim with the given names. A dedicated one hands out just
/// these and leaves the pool as it was; any other takes the newest ready entry of
/// the tier.
pub open spec fn claim_named_outcome(
    before: PoolView,
    after: PoolView,
    tier: Seq<char>,
    info: Result<HostInfo, DenError>,
    dedicated: bool,
    container_name: Seq<char>,
    volume_name: Seq<char>,
    r: Result<Reservation, DenError>,
) -> bool {
    match claim_fault(before, tier, info) {
        Some(e) => r is Err && r->Err_0@ == e && after == before,
        None => if dedicated {
            &&& r is Ok
            &&& r->Ok_0 is Dedicated
            &&& r->Ok_0->container_name@ == container_name
            &&& r->Ok_0->volume_name@ == volume_name
            &&& after == before
        } else if before.ready(tier).len() == 0 {
            &&& r is Err
            &&& r->Err_0@ == (ErrorView::PoolExhausted { tier })
            &&& after == before
        } else {
            &&& r is Ok
            &&& r->Ok_0 is Pooled
            &&& r->Ok_0->Pooled_0@ == before.ready(tier).last()
            &&& after == before.with_ready(tier, before.ready(tier).drop_last())
        },
    }
}

/// What comes of a claim, whatever names were drawn for it.
pub open spec fn claim_outcome(
    before: PoolView,
    after: PoolView,
    tier: Seq<char>,
    info: Result<HostInfo, DenError>,
    dedicated: bool,
    r: Result<Reservation, DenError>,
) -> bool {
    let container_name = r->Ok_0->container_name@;
    let volume_name = r->Ok_0->volume_name@;
    &&& claim_named_outcome(
        before,
        after,
        tier,
        info,
        dedicated,
        container_name,
        volume_name,
        r,
    )
    &&& r is Ok && r->Ok_0 is Dedicated ==> naming::names_container(container_name, tier)
        && naming::names_volume(volume_name)
}

/// What comes of releasing a sandbox at `now`.
pub open spec fn release_outcome(
    before: PoolView,
    after: PoolView,
    id: Seq<char>,
    r: Result<Vec<DockerAction>, DenError>,
    now: int,
) -> bool {
    if before.sandboxes.contains_key(id) {
        &&& r is Ok
        &&& docker::actions(r->Ok_0@) == docker::stop_and_remove(
            before.sandboxes[id].container_id,
            STOP_GRACE_SECS as int,
        )
        &&& after == before.with_sandbox(released(before.sandboxes[id], now))
    } else {
        &&& r is Err
        &&& r->Err_0@ == not_found(id)
        &&& after == before
    }
}

/// What comes of preparing to resume a sandbox at `now`, in a container with the
/// given name.
pub open spec fn resume_named_outcome(
    before: PoolView,
    after: PoolView,
    id: Seq<char>,
    container_name: Seq<char>,
    r: Result<ResumePlan, DenError>,
    now: int,
) -> bool {
    match resume_fault(before, id) {
        Some(e) => r is Err && r->Err_0@ == e && after == before,
        None => {
            let s = before.sandboxes[id];
            &&& r is Ok
            &&& r->Ok_0.tier@ == s.tier
            &&& r->Ok_0.container_name@ == container_name
            &&& r->Ok_0.volume_name@ == s.volume_name
            &&& text::texts(r->Ok_0.bind_mounts@) == s.bind_mounts
            &&& after == before.with_sandbox(resuming(s, now))
        },
    }
}

/// What comes of preparing to resume a sandbox at `now`, whatever name was drawn
/// for its container.
pub open spec fn resume_outcome(
    before: PoolView,
    after: PoolView,
    id: Seq<char>,
    r: Result<ResumePlan, DenError>,
    now: int,
) -> bool {
    &&& resume_named_outcome(before, after, id, r->Ok_0.container_name@, r, now)
    &&& r is Ok ==> naming::names_container(
        r->Ok_0.container_name@,
        before.sandboxes[id].tier,
    )
}

/// What comes of finishing to resume a sandbox at `now`. A sandbox that is no
/// longer starting keeps its state, but is in the new container all the same.
pub open spec fn resumed_outcome(
    before: PoolView,
    after: PoolView,
    id: Seq<char>,
    container_id: Seq<char>,
    r: Result<Sandbox, DenError>,
    now: int,
) -> bool {
    if !before.sandboxes.contains_key(id) {
        &&& r is Err
        &&& r->Err_0@ == not_found(id)
        &&& after == before
    } else {
        let s = in_container(before.sandboxes[id], container_id);
        if s.state.can_become(SandboxState::Running) {
            &&& r is Ok
            &&& r->Ok_0@ == s.moved(SandboxState::Running, now)
            &&& after == before.with_sandbox(r->Ok_0@)
        } else {
            &&& r is Err
            &&& r->Err_0@ == sandbox::refused_move(s, SandboxState::Running)
            &&& after == before.with_sandbox(s)
        }
    }
}

/// What comes of activity in a sandbox at `now`. One that is not there is passed
/// over.
pub open spec fn touch_outcome(before: PoolView, after: PoolView, id: Seq<char>, now: int) -> bool {
    if before.sandboxes.contains_key(id) {
        after == before.with_sandbox(before.sandboxes[id].touched(now))
    } else {
        after == before
    }
}

// ---------------------------------------------------------------------------
// Laws
// ---------------------------------------------------------------------------

/// Where nothing is ready of a tier, a claim from the pool fails at once and is
/// answered with status 503.
pub proof fn empty_pool_fails_fast(
    before: PoolView,
    after: PoolView,
    tier: Seq<char>,
    info: Result<HostInfo, DenError>,
    r: Result<Reservation, DenError>,
)
    requires
        claim_outcome(before, after, tier, info, false, r),
        claim_fault(before, tier, info) is None,
        before.ready(tier).len() == 0,
    ensures
        r is Err,
        error::status_of(r->Err_0@) == 503,
        after == before,
{
}

/// A claim from the pool takes exactly one entry, from the shelf of its tier,
/// and leaves every other shelf and every sandbox as it was.
pub proof fn claim_takes_one_entry(
    before: PoolView,
    after: PoolView,
    tier: Seq<char>,
    other: Seq<char>,
    info: Result<HostInfo, DenError>,
    r: Result<Reservation, DenError>,
)
    requires
        before.valid(),
        claim_outcome(before, after, tier, info, false, r),
        r is Ok,
        other != tier,
    ensures
        before.ready(tier) == after.ready(tier).push(r->Ok_0->Pooled_0@),
        after.ready(other) == before.ready(other),
        after.sandboxes == before.sandboxes,
{
    config::lemma_tier_index(before.config.tiers@, tier);
    config::lemma_tier_index(before.config.tiers@, other);
    assert(before.ready(tier) =~= after.ready(tier).push(before.ready(tier).last()));
}

/// A claimed sandbox runs, in the container and on the volume that were set
/// aside for it, from the moment it is made.
pub proof fn claimed_sandbox_runs(
    id: Seq<char>,
    tier: Seq<char>,
    t: TierConfig,
    entry: EntryView,
    metadata: Map<String, String>,
    bind_mounts: Seq<Seq<char>>,
    now: int,
)
    ensures
        ({
            let s = claimed(id, tier, t, entry, metadata, bind_mounts, now);
            &&& s.state == SandboxState::Running
            &&& s.started_at == Some(now)
            &&& s.last_activity == now
            &&& s.container_id == entry.container_id
            &&& s.volume_name == entry.volume_name
            &&& s.tier == tier
            &&& s.metadata == metadata
            &&& s.bind_mounts == bind_mounts
            &&& s.active_execs == 0
        }),
{
}

/// Whether a list of actions asks for no volume to be removed.
pub open spec fn keeps_volumes(a: Seq<ActionView>) -> bool {
    forall|i: int| 0 <= i < a.len() ==> !(#[trigger] a[i] is RemoveVolume)
}

/// Releasing keeps the volume and the sandbox, which runs no more.
pub proof fn release_keeps_the_volume(
    before: PoolView,
    after: PoolView,
    id: Seq<char>,
    r: Result<Vec<DockerAction>, DenError>,
    now: int,
)
    requires
        before.valid(),
        before.sandboxes.contains_key(id),
        release_outcome(before, after, id, r, now),
    ensures
        r is Ok,
        keeps_volumes(docker::actions(r->Ok_0@)),
        after.sandboxes.contains_key(id),
        after.sandboxes[id].volume_name == before.sandboxes[id].volume_name,
        after.sandboxes[id].state != SandboxState::Running,
        before.sandboxes[id].state == SandboxState::Running ==> after.sandboxes[id].state
            == SandboxState::Completed,
{
}

/// A sandbox that is released and then resumed runs again, in a new container on
/// its old volume and with its old bind mounts; all else about it is as before.
pub proof fn resume_undoes_release(
    running: PoolView,
    released: PoolView,
    starting: PoolView,
    resumed: PoolView,
    id: Seq<char>,
    container_id: Seq<char>,
    r1: Result<Vec<DockerAction>, DenError>,
    r2: Result<ResumePlan, DenError>,
    r3: Result<Sandbox, DenError>,
    t1: int,
    t2: int,
    t3: int,
)
    requires
        running.valid(),
        running.sandboxes.contains_key(id),
        running.index(running.sandboxes[id].tier) is Some,
        release_outcome(running, released, id, r1, t1),
        resume_outcome(released, starting, id, r2, t2),
        resumed_outcome(starting, resumed, id, container_id, r3, t3),
    ensures
        r1 is Ok,
        r2 is Ok,
        r2->Ok_0.volume_name@ == running.sandboxes[id].volume_name,
        text::texts(r2->Ok_0.bind_mounts@) == running.sandboxes[id].bind_mounts,
        r3 is Ok,
        r3->Ok_0@ == (SandboxView {
            container_id,
            state: SandboxState::Running,
            started_at: Some(t3),
            last_activity: t3,
            ..running.sandboxes[id]
        }),
        resumed == running.with_sandbox(r3->Ok_0@),
{
    assert(SandboxState::Starting.successors()[0] == SandboxState::Running);
    let s = running.sandboxes[id];
    assert(starting.sandboxes[id].state == SandboxState::Starting);
    assert(r3->Ok_0@ =~= (SandboxView {
        container_id,
        state: SandboxState::Running,
        started_at: Some(t3),
        last_activity: t3,
        ..s
    }));
    assert(resumed.sandboxes =~= running.with_sandbox(r3->Ok_0@).sandboxes);
}

/// Any sandbox that is not running, crashed ones among them, can be resumed as
/// long as its tier is configured; a running one cannot.
pub proof fn resumable_exactly_when_not_running(v: PoolView, id: Seq<char>)
    requires
        v.sandboxes.contains_key(id),
        v.index(v.sandboxes[id].tier) is Some,
    ensures
        resume_fault(v, id) is None <==> v.sandboxes[id].state != SandboxState::Running,
{
}

/// After a sandbox is destroyed its id names nothing: it can be neither resumed
/// nor used.
pub proof fn destroyed_sandbox_is_gone(v: PoolView, id: Seq<char>)
    ensures
        ({
            let after = PoolView { sandboxes: v.sandboxes.remove(id), ..v };
            &&& !after.sandboxes.contains_key(id)
            &&& resume_fault(after, id) == Some(not_found(id))
            &&& exec_fault(after.sandboxes, id) == Some(not_found(id))
        }),
{
}

/// Destroying asks for the removal of the sandbox's container and of its volume.
pub proof fn destruction_removes_everything(s: SandboxView)
    ensures
        destruction(s).contains(ActionView::RemoveContainer { id: s.container_id }),
        destruction(s).contains(ActionView::RemoveVolume { name: s.volume_name }),
{
    assert(destruction(s)[1] == (ActionView::RemoveContainer { id: s.container_id }));
    assert(destruction(s)[2] == (ActionView::RemoveVolume { name: s.volume_name }));
}

/// Only a running sandbox takes commands: in any other state, ended and crashed
/// sandboxes among them, a command is refused and answered with status 409.
pub proof fn only_running_sandboxes_take_commands(m: Map<Seq<char>, SandboxView>, id: Seq<char>)
    requires
        m.contains_key(id),
        m[id].state != SandboxState::Running,
    ensures
        exec_fault(m, id) is Some,
        error::status_of(exec_fault(m, id)->0) == 409,
{
}

/// A running sandbox with as many commands under way as it may have refuses a
/// further one, which is answered with status 429; one with fewer takes it and stays
/// within its limit.
pub proof fn execs_stay_within_the_limit(m: Map<Seq<char>, SandboxView>, id: Seq<char>)
    requires
        registry::consistent(m),
        m.contains_key(id),
        m[id].state == SandboxState::Running,
    ensures
        m[id].active_execs == m[id].max_concurrent_execs ==> exec_fault(m, id) is Some
            && error::status_of(exec_fault(m, id)->0) == 429,
        m[id].active_execs < m[id].max_concurrent_execs ==> exec_fault(m, id) is None
            && one_more_exec(m[id]).active_execs <= m[id].max_concurrent_execs,
{
}

/// A command that ends leaves the sandbox as it was before it was let in.
pub proof fn ended_exec_frees_its_place(m: Map<Seq<char>, SandboxView>, id: Seq<char>)
    requires
        exec_fault(m, id) is None,
    ensures
        one_exec_less(one_more_exec(m[id])) == m[id],
{
}

proof fn lemma_ready_after(v: PoolView, tier: Seq<char>, ready: Seq<EntryView>, other: Seq<char>)
    requires
        v.valid(),
        v.index(tier) is Some,
    ensures
        v.with_ready(tier, ready).valid(),
        v.with_ready(tier, ready).config == v.config,
        v.with_ready(tier, ready).ready(tier) == ready,
        other != tier ==> v.with_ready(tier, ready).ready(other) == v.ready(other),
{
    config::lemma_tier_index(v.config.tiers@, tier);
    config::lemma_tier_index(v.config.tiers@, other);
}

/// How many of a series of jobs made a container for a tier.
pub open spec fn made_for(built: Seq<Built>, tier: Seq<char>) -> nat
    decreases built.len(),
{
    if built.len() == 0 {
        0
    } else {
        made_for(built.drop_last(), tier) + if built.last().container_id is Ok
            && built.last().job.tier@ == tier {
            1nat
        } else {
            0
        }
    }
}

/// Stocking adds to each tier as many entries as were made for it, behind those
/// that were ready, and touches no sandbox.
pub proof fn stocking_adds_what_was_made(v: PoolView, built: Seq<Built>, tier: Seq<char>)
    requires
        v.valid(),
        v.index(tier) is Some,
    ensures
        stocked(v, built).valid(),
        stocked(v, built).config == v.config,
        stocked(v, built).sandboxes == v.sandboxes,
        v.ready(tier).is_prefix_of(stocked(v, built).ready(tier)),
        stocked(v, built).ready(tier).len() == v.ready(tier).len() + made_for(built, tier),
    decreases built.len(),
{
    if built.len() > 0 {
        let b = built.last();
        let w = stocked(v, built.drop_last());
        stocking_adds_what_was_made(v, built.drop_last(), tier);
        if let Ok(c) = b.container_id {
            if w.index(b.job.tier@) is Some {
                let entry = EntryView { container_id: c@, volume_name: b.job.volume_name@ };
                let more = w.ready(b.job.tier@).push(entry);
                lemma_ready_after(w, b.job.tier@, more, tier);
                if b.job.tier@ == tier {
                    assert(more.subrange(0, v.ready(tier).len() as int) =~= w.ready(
                        tier,
                    ).subrange(0, v.ready(tier).len() as int));
                }
            }
        }
    } else {
        assert(v.ready(tier).subrange(0, v.ready(tier).len() as int) =~= v.ready(tier));
    }
}

proof fn lemma_all_made(built: Seq<Built>, tier: Seq<char>)
    requires
        forall|i: int|
            0 <= i < built.len() ==> (#[trigger] built[i]).container_id is Ok && job_for(
                built[i].job,
                tier,
            ),
    ensures
        made_for(built, tier) == built.len(),
    decreases built.len(),
{
    if built.len() > 0 {
        let front = built.drop_last();
        assert forall|i: int| 0 <= i < front.len() implies (
        #[trigger] front[i]).container_id is Ok && job_for(front[i].job, tier) by {
            assert(front[i] == built[i]);
        }
        lemma_all_made(front, tier);
        assert(built.last() == built[built.len() - 1]);
    }
}

/// Where every job of replenishing a tier succeeds, the tier has as many entries
/// ready as its pool is large, or as many as it had where that was more.
pub proof fn replenishing_restores_the_size(v: PoolView, built: Seq<Built>, tier: Seq<char>, i: int)
    requires
        v.valid(),
        v.index(tier) == Some(i),
        built.len() == v.deficit(tier),
        forall|k: int|
            0 <= k < built.len() ==> (#[trigger] built[k]).container_id is Ok && job_for(
                built[k].job,
                tier,
            ),
    ensures
        stocked(v, built).ready(tier).len() >= v.config.tiers@[i].config.pool_size,
        v.ready(tier).len() <= v.config.tiers@[i].config.pool_size ==> stocked(v, built).ready(
            tier,
        ).len() == v.config.tiers@[i].config.pool_size,
        stocked(v, built).deficit(tier) == 0,
{
    stocking_adds_what_was_made(v, built, tier);
    lemma_all_made(built, tier);
}

/// Jobs from draws that end differently have each a volume and a container of
/// their own: no two share a volume name, and no two a container name.
pub proof fn jobs_share_nothing(
    jobs: Seq<PoolJob>,
    tiers: Seq<Seq<char>>,
    draws: Seq<(String, String)>,
    i: int,
    j: int,
)
    requires
        jobs.len() == tiers.len() == draws.len(),
        forall|k: int|
            #![trigger jobs[k]]
            0 <= k < jobs.len() ==> is_draw(draws[k]) && job_from(jobs[k], tiers[k], draws[k]),
        0 <= i < jobs.len(),
        0 <= j < jobs.len(),
        draws[i].0@.take(8) != draws[j].0@.take(8),
        draws[i].1@.take(8) != draws[j].1@.take(8),
    ensures
        jobs[i].container_name@ != jobs[j].container_name@,
        jobs[i].volume_name@ != jobs[j].volume_name@,
{
    let (a, b) = (draws[i], draws[j]);
    assert(job_from(jobs[i], tiers[i], a) && job_from(jobs[j], tiers[j], b));
    if jobs[i].volume_name@ == jobs[j].volume_name@ {
        naming::endings_tell_volumes(a.1@.take(8), b.1@.take(8));
    }
    if jobs[i].container_name@ == jobs[j].container_name@ {
        assert(naming::is_short(a.0@.take(8)) && naming::is_short(b.0@.take(8)));
        naming::container_name_tells_tier_and_ending(
            tiers[i],
            a.0@.take(8),
            tiers[j],
            b.0@.take(8),
        );
    }
}

/// How often a text occurs in a list.
pub open spec fn occurrences(s: Seq<Seq<char>>, x: Seq<char>) -> nat
    decreases s.len(),
{
    if s.len() == 0 {
        0
    } else {
        occurrences(s.drop_last(), x) + if s.last() == x {
            1nat
        } else {
            0
        }
    }
}

proof fn lemma_occurrences_append(s: Seq<Seq<char>>, x: Seq<char>, y: Seq<char>, n: nat)
    ensures
        occurrences(s + Seq::new(n, |i: int| y), x) == occurrences(s, x) + if x == y {
            n
        } else {
            0
        },
    decreases n,
{
    let t = s + Seq::new(n, |i: int| y);
    if n == 0 {
        assert(t =~= s);
    } else {
        let m = (n - 1) as nat;
        assert(t.drop_last() =~= s + Seq::new(m, |i: int| y));
        assert(t.last() == y);
        lemma_occurrences_append(s, x, y, m);
    }
}

/// Warming up makes, of every tier, as many containers as its pool is large.
pub proof fn warming_up_makes_each_size(tiers: Seq<config::NamedTier>, i: int)
    requires
        config::distinct_names(tiers),
        0 <= i < tiers.len(),
    ensures
        occurrences(warm_up_tiers(tiers), tiers[i].name@) == tiers[i].config.pool_size,
{
    lemma_warm_up_occurrences(tiers, tiers[i].name@);
}

/// A pool that starts empty and whose warming up succeeds in every job has, of
/// every tier, as many entries ready as its pool is large.
pub proof fn warmed_up_pool_is_full(v: PoolView, built: Seq<Built>, i: int)
    requires
        v.valid(),
        0 <= i < v.config.tiers@.len(),
        v.shelves[i].len() == 0,
        built.len() == warm_up_tiers(v.config.tiers@).len(),
        forall|k: int|
            0 <= k < built.len() ==> (#[trigger] built[k]).container_id is Ok && job_for(
                built[k].job,
                warm_up_tiers(v.config.tiers@)[k],
            ),
    ensures
        stocked(v, built).ready(v.config.tiers@[i].name@).len()
            == v.config.tiers@[i].config.pool_size,
{
    let tiers = v.config.tiers@;
    let name = tiers[i].name@;
    assert forall|k: int| 0 <= k < i implies #[trigger] tiers[k].name@ != name by {
        assert(tiers[k].name@ != tiers[i].name@);
    }
    config::lemma_tier_index_is(tiers, name, i);
    stocking_adds_what_was_made(v, built, name);
    warming_up_makes_each_size(tiers, i);
    lemma_made_by_order(built, warm_up_tiers(tiers), name);
}

proof fn lemma_made_by_order(built: Seq<Built>, order: Seq<Seq<char>>, name: Seq<char>)
    requires
        built.len() == order.len(),
        forall|k: int|
            0 <= k < built.len() ==> (#[trigger] built[k]).container_id is Ok && job_for(
                built[k].job,
                order[k],
            ),
    ensures
        made_for(built, name) == occurrences(order, name),
    decreases built.len(),
{
    if built.len() > 0 {
        let front = built.drop_last();
        assert forall|k: int| 0 <= k < front.len() implies (
        #[trigger] front[k]).container_id is Ok && job_for(front[k].job, order.drop_last()[k]) by {
            assert(front[k] == built[k]);
        }
        lemma_made_by_order(front, order.drop_last(), name);
        assert(built.last() == built[built.len() - 1]);
    }
}

proof fn lemma_warm_up_occurrences(tiers: Seq<config::NamedTier>, name: Seq<char>)
    requires
        config::distinct_names(tiers),
    ensures
        forall|i: int|
            0 <= i < tiers.len() && (#[trigger] tiers[i]).name@ == name ==> occurrences(
                warm_up_tiers(tiers),
                name,
            ) == tiers[i].config.pool_size,
        (forall|i: int| 0 <= i < tiers.len() ==> (#[trigger] tiers[i]).name@ != name)
            ==> occurrences(warm_up_tiers(tiers), name) == 0,
    decreases tiers.len(),
{
    if tiers.len() > 0 {
        let front = tiers.drop_last();
        let last = tiers.last();
        assert forall|i: int, j: int| 0 <= i < j < front.len() implies #[trigger] front[i].name@
            != #[trigger] front[j].name@ by {
            assert(tiers[i].name@ != tiers[j].name@);
        }
        lemma_warm_up_occurrences(front, name);
        lemma_occurrences_append(
            warm_up_tiers(front),
            name,
            last.name@,
            last.config.pool_size as nat,
        );
        assert(warm_up_tiers(tiers) =~= warm_up_tiers(front) + Seq::new(
            last.config.pool_size as nat,
            |i: int| last.name@,
        ));
        assert forall|i: int|
            0 <= i < tiers.len() && (#[trigger] tiers[i]).name@ == name implies occurrences(
            warm_up_tiers(tiers),
            name,
        ) == tiers[i].config.pool_size by {
            if i < front.len() {
                assert(front[i].name@ == name);
                assert(tiers[i].name@ != tiers[tiers.len() - 1].name@);
            } else {
                assert forall|k: int| 0 <= k < front.len() implies (#[trigger] front[k]).name@
                    != name by {
                    assert(tiers[k].name@ != tiers[i].name@);
                }
            }
        }
        if forall|i: int| 0 <= i < tiers.len() ==> (#[trigger] tiers[i]).name@ != name {
            assert(tiers[tiers.len() - 1].name@ != name);
            assert forall|k: int| 0 <= k < front.len() implies (#[trigger] front[k]).name@
                != name by {
                assert(tiers[k].name@ != name);
            }
        }
    }
}

// ---------------------------------------------------------------------------
// What is done, in terms of what goes in and comes out
// ---------------------------------------------------------------------------

/// What an entry shows is its container and its volume, and what a shelf shows are
/// its entries in their order.
pub proof fn the_view_shows_the_entries(tiers: Seq<TierPool>, i: int, k: int)
    requires
        0 <= i < tiers.len(),
        0 <= k < tiers[i].available@.len(),
    ensures
        shelves(tiers).len() == tiers.len(),
        shelves(tiers)[i].len() == tiers[i].available@.len(),
        shelves(tiers)[i][k].container_id == tiers[i].available@[k].container_id@,
        shelves(tiers)[i][k].volume_name == tiers[i].available@[k].volume_name@,
        tiers[i].available@[k]@.container_id == tiers[i].available@[k].container_id@,
        tiers[i].available@[k]@.volume_name == tiers[i].available@[k].volume_name@,
{
}

/// Stocking puts behind what is ready of a tier, in their order, the containers that
/// were made for it, each with the volume that its job named; and it changes nothing
/// else.
pub proof fn stocking_shelves_each_container_with_its_volume(
    v: PoolView,
    built: Seq<Built>,
    i: int,
)
    requires
        v.valid(),
        0 <= i < v.config.tiers@.len(),
    ensures
        stocked(v, built).shelves.len() == v.shelves.len(),
        stocked(v, built).shelves[i] == v.shelves[i] + built.filter_map(
            |b: Built|
                if b.container_id is Ok && b.job.tier@ == v.config.tiers@[i].name@ {
                    Some(
                        EntryView {
                            container_id: b.container_id->Ok_0@,
                            volume_name: b.job.volume_name@,
                        },
                    )
                } else {
                    None
                },
        ),
        stocked(v, built).config == v.config,
        stocked(v, built).host == v.host,
        stocked(v, built).sandboxes == v.sandboxes,
    decreases built.len(),
{
    if built.len() > 0 {
        let w = stocked(v, built.drop_last());
        let b = built.last();
        stocking_shelves_each_container_with_its_volume(v, built.drop_last(), i);
        config::lemma_tier_index(v.config.tiers@, b.job.tier@);
        if b.container_id is Ok && w.index(b.job.tier@) == Some(i) {
            assert(stocked(v, built).shelves[i] =~= w.shelves[i] + seq![
                EntryView { container_id: b.container_id->Ok_0@, volume_name: b.job.volume_name@ },
            ]);
        } else if b.job.tier@ == v.config.tiers@[i].name@ {
            config::tiers_are_found_by_name(v.config.tiers@, i, b.job.tier@);
        }
    }
}

/// Warming up takes in the jobs before the first that failed, and all of them where
/// none did.
pub proof fn the_good_start_ends_at_the_first_failure(built: Seq<Built>)
    ensures
        good_start(built) <= built.len(),
        forall|k: int| 0 <= k < good_start(built) ==> (#[trigger] built[k]).container_id is Ok,
        good_start(built) < built.len() ==> built[good_start(built) as int].container_id is Err,
    decreases built.len(),
{
    if built.len() > 0 && built[0].container_id is Ok {
        let rest = built.drop_first();
        the_good_start_ends_at_the_first_failure(rest);
        assert forall|k: int| 0 <= k < good_start(built) implies (
        #[trigger] built[k]).container_id is Ok by {
            if k > 0 {
                assert(built[k] == rest[k - 1]);
            }
        }
    }
}

/// The jobs of warming up come tier by tier, in the order of the configuration, as
/// many of each as its pool is large.
pub proof fn warming_up_goes_tier_by_tier(tiers: Seq<config::NamedTier>, last: config::NamedTier, k: int)
    ensures
        warm_up_tiers(Seq::empty()).len() == 0,
        warm_up_tiers(tiers.push(last)).len() == warm_up_tiers(tiers).len() + last.config.pool_size,
        0 <= k < warm_up_tiers(tiers).len() ==> warm_up_tiers(tiers.push(last))[k]
            == warm_up_tiers(tiers)[k],
        warm_up_tiers(tiers).len() <= k < warm_up_tiers(tiers.push(last)).len() ==> warm_up_tiers(
            tiers.push(last),
        )[k] == last.name@,
{
    assert(tiers.push(last).drop_last() =~= tiers);
}

/// A tier that has as much as its pool is large, or more, is short of nothing; one
/// that has less is short of the difference.
pub proof fn a_tier_is_short_of_the_difference(v: PoolView, i: int)
    requires
        v.valid(),
        0 <= i < v.config.tiers@.len(),
    ensures
        ({
            let name = v.config.tiers@[i].name@;
            let size = v.config.tiers@[i].config.pool_size;
            let ready = v.shelves[i].len();
            &&& v.ready(name) == v.shelves[i]
            &&& v.index(name) == Some(i)
            &&& ready >= size ==> v.deficit(name) == 0
            &&& ready < size ==> v.deficit(name) + ready == size
        }),
{
    config::tiers_are_found_by_name(v.config.tiers@, i, v.config.tiers@[i].name@);
}

/// A job that a draw gives a tier is for that tier, and is named `den-`, the tier, a
/// dash and the first eight characters of the first UUID, its volume `den-vol-` and
/// those of the second.
pub proof fn jobs_are_named_by_their_draw(job: PoolJob, tier: Seq<char>, draw: (String, String))
    ensures
        job_from(job, tier, draw) <==> {
            &&& job.tier@ == tier
            &&& job.container_name@ == "den-"@ + tier + seq!['-'] + draw.0@.take(8)
            &&& job.volume_name@ == "den-vol-"@ + draw.1@.take(8)
        },
        is_draw(draw) <==> naming::is_uuid(draw.0@) && naming::is_uuid(draw.1@),
        job_for(job, tier) ==> job.tier@ == tier && naming::names_container(
            job.container_name@,
            tier,
        ) && naming::names_volume(job.volume_name@),
{
    reveal_strlit("-");
    assert("-"@ =~= seq!['-']);
    assert("den-"@ + tier + "-"@ + draw.0@.take(8) =~= naming::container_text(
        tier,
        draw.0@.take(8),
    ));
}

/// A claim is refused first where its tier is not configured, for the pool or for the
/// scheduler, then where Docker does not tell of the host, then where the host has no
/// room: where the memory of one container more than run already is over all but a fifth
/// of what the host has, or the tier has more CPUs than the host.
pub proof fn why_claims_are_refused(
    v: PoolView,
    tier: Seq<char>,
    info: Result<HostInfo, DenError>,
    i: int,
    j: int,
)
    requires
        v.valid(),
    ensures
        (forall|k: int| 0 <= k < v.config.tiers@.len() ==> (#[trigger] v.config.tiers@[k]).name@ != tier)
            ==> claim_fault(v, tier, info) == Some(ErrorView::TierNotFound { tier }),
        (forall|k: int| 0 <= k < v.host.tiers@.len() ==> (#[trigger] v.host.tiers@[k]).name@ != tier)
            ==> claim_fault(v, tier, info) == Some(ErrorView::TierNotFound { tier }),
        0 <= i < v.config.tiers@.len() && v.config.tiers@[i].name@ == tier && 0 <= j
            < v.host.tiers@.len() && v.host.tiers@[j].name@ == tier && (forall|k: int|
            0 <= k < j ==> (#[trigger] v.host.tiers@[k]).name@ != tier) ==> match info {
            Err(e) => claim_fault(v, tier, info) == Some(e@),
            Ok(host) => {
                let t = v.host.tiers@[j].config;
                let total = scheduler::count(host.mem_total);
                let running = scheduler::count(host.containers_running);
                let room = (running + 1) * (t.memory_mb * 1048576) <= total - total / 5
                    && !t.cpus.exceeds(scheduler::host_cpus(scheduler::count(host.ncpu)));
                &&& room ==> claim_fault(v, tier, info) is None
                &&& !room ==> claim_fault(v, tier, info) == Some(
                    ErrorView::InsufficientResources {
                        reason: "not enough resources for tier "@ + tier,
                    },
                )
            },
        },
{
    config::lemma_tier_index(v.config.tiers@, tier);
    config::lemma_tier_index(v.host.tiers@, tier);
    if 0 <= i < v.config.tiers@.len() && v.config.tiers@[i].name@ == tier && 0 <= j
        < v.host.tiers@.len() && v.host.tiers@[j].name@ == tier && (forall|k: int|
        0 <= k < j ==> (#[trigger] v.host.tiers@[k]).name@ != tier) {
        config::tiers_are_found_by_name(v.config.tiers@, i, tier);
        config::lemma_tier_index_is(v.host.tiers@, tier, j);
        if let Ok(host) = info {
            scheduler::room_is_decided_exactly_on_any_host(v.host.tiers@[j].config, host);
        }
    }
}

/// A claim that is not refused takes the newest entry of its tier's shelf and leaves
/// the rest of the pool as it is; with bind mounts it takes none and hands out the
/// names it was given. Where the shelf is empty it fails.
pub proof fn what_a_claim_takes(
    before: PoolView,
    after: PoolView,
    i: int,
    info: Result<HostInfo, DenError>,
    dedicated: bool,
    container_name: Seq<char>,
    volume_name: Seq<char>,
    r: Result<Reservation, DenError>,
)
    requires
        before.valid(),
        0 <= i < before.config.tiers@.len(),
        claim_fault(before, before.config.tiers@[i].name@, info) is None,
        claim_named_outcome(
            before,
            after,
            before.config.tiers@[i].name@,
            info,
            dedicated,
            container_name,
            volume_name,
            r,
        ),
    ensures
        after.config == before.config,
        after.host == before.host,
        after.sandboxes == before.sandboxes,
        r is Ok <==> dedicated || before.shelves[i].len() > 0,
        r is Err ==> r->Err_0@ == (ErrorView::PoolExhausted { tier: before.config.tiers@[i].name@ })
            && after.shelves == before.shelves,
        dedicated ==> after.shelves == before.shelves && match r {
            Ok(Reservation::Dedicated { container_name: c, volume_name: w }) => c@ == container_name
                && w@ == volume_name,
            _ => false,
        },
        !dedicated && r is Ok ==> match r {
            Ok(Reservation::Pooled(entry)) => {
                &&& before.shelves[i] == after.shelves[i].push(entry@)
                &&& after.shelves.len() == before.shelves.len()
                &&& forall|k: int|
                    0 <= k < before.shelves.len() && k != i ==> #[trigger] after.shelves[k]
                        == before.shelves[k]
            },
            _ => false,
        },
{
    config::tiers_are_found_by_name(before.config.tiers@, i, before.config.tiers@[i].name@);
    if !dedicated && r is Ok {
        assert(before.shelves[i] =~= after.shelves[i].push(before.shelves[i].last()));
    }
}

/// A refused claim reports why and changes nothing.
pub proof fn a_refused_claim_changes_nothing(
    before: PoolView,
    after: PoolView,
    tier: Seq<char>,
    info: Result<HostInfo, DenError>,
    dedicated: bool,
    r: Result<Reservation, DenError>,
)
    requires
        claim_outcome(before, after, tier, info, dedicated, r),
    ensures
        claim_fault(before, tier, info) is Some ==> r is Err && Some(r->Err_0@) == claim_fault(
            before,
            tier,
            info,
        ),
        r is Err ==> after == before,
        r is Ok && dedicated ==> r->Ok_0 is Dedicated && naming::names_container(
            r->Ok_0->container_name@,
            tier,
        ) && naming::names_volume(r->Ok_0->volume_name@) && after == before,
{
}

/// A claimed sandbox is made of the id, the tier and its limits, the entry, the
/// metadata and the bind mounts, all as they are, and of the moment of its claim.
pub proof fn a_claimed_sandbox_holds_what_it_was_made_of(
    id: Seq<char>,
    tier: Seq<char>,
    t: TierConfig,
    entry: EntryView,
    metadata: Map<String, String>,
    bind_mounts: Seq<Seq<char>>,
    now: int,
)
    ensures
        claimed(id, tier, t, entry, metadata, bind_mounts, now) == (SandboxView {
            id,
            container_id: entry.container_id,
            volume_name: entry.volume_name,
            tier,
            state: SandboxState::Running,
            metadata,
            bind_mounts,
            active_execs: 0,
            max_concurrent_execs: t.max_concurrent_execs,
            created_at: now,
            started_at: Some(now),
            timeout_secs: t.timeout_secs,
            last_activity: now,
        }),
{
}

/// Entering a sandbox puts it under its own id and changes nothing else.
pub proof fn entering_a_sandbox_changes_only_this(v: PoolView, s: SandboxView)
    ensures
        v.with_sandbox(s).sandboxes.contains_key(s.id),
        v.with_sandbox(s).sandboxes[s.id] == s,
        v.with_sandbox(s).sandboxes.remove(s.id) == v.sandboxes.remove(s.id),
        v.with_sandbox(s).shelves == v.shelves,
        v.with_sandbox(s).config == v.config,
        v.with_sandbox(s).host == v.host,
{
    assert(v.with_sandbox(s).sandboxes.remove(s.id) =~= v.sandboxes.remove(s.id));
}

/// A running sandbox that is released at `now` is completed, and `now` is when it was
/// last active; any other stays as it is. Either way its container is to be stopped,
/// with five seconds of grace, and removed; and nothing else changes.
pub proof fn what_a_release_does(
    before: PoolView,
    after: PoolView,
    id: Seq<char>,
    r: Result<Vec<DockerAction>, DenError>,
    now: int,
)
    requires
        before.valid(),
        release_outcome(before, after, id, r, now),
    ensures
        after.shelves == before.shelves,
        after.config == before.config,
        after.host == before.host,
        after.sandboxes.remove(id) == before.sandboxes.remove(id),
        after.sandboxes.contains_key(id) == before.sandboxes.contains_key(id),
        before.sandboxes.contains_key(id) ==> {
            let s = before.sandboxes[id];
            &&& r is Ok
            &&& r->Ok_0@.len() == 2
            &&& r->Ok_0@[0]@ == (ActionView::StopContainer { id: s.container_id, timeout_secs: 5 })
            &&& r->Ok_0@[1]@ == (ActionView::RemoveContainer { id: s.container_id })
            &&& s.state is Running ==> after.sandboxes[id] == (SandboxView {
                state: SandboxState::Completed,
                last_activity: now,
                ..s
            })
            &&& !(s.state is Running) ==> after.sandboxes[id] == s
        },
        !before.sandboxes.contains_key(id) ==> r is Err && r->Err_0@
            == (ErrorView::SandboxNotFound { id }),
{
    if before.sandboxes.contains_key(id) {
        assert(after.sandboxes.remove(id) =~= before.sandboxes.remove(id));
        let a = docker::actions(r->Ok_0@);
        let asked = docker::stop_and_remove(before.sandboxes[id].container_id, 5);
        assert(a.len() == r->Ok_0@.len());
        assert(a[0] == r->Ok_0@[0]@ && a[1] == r->Ok_0@[1]@);
    }
}

/// Preparing to resume is refused exactly where there is no such sandbox, it runs
/// already, or its tier is not configured. Else the plan is for its tier, on its
/// volume and with its bind mounts, and meanwhile the sandbox is starting, active
/// just now, and else as it was.
pub proof fn what_preparing_to_resume_does(
    before: PoolView,
    after: PoolView,
    id: Seq<char>,
    container_name: Seq<char>,
    r: Result<ResumePlan, DenError>,
    now: int,
)
    requires
        before.valid(),
        resume_named_outcome(before, after, id, container_name, r, now),
    ensures
        r is Err ==> after == before,
        !before.sandboxes.contains_key(id) ==> r is Err && r->Err_0@
            == (ErrorView::SandboxNotFound { id }),
        before.sandboxes.contains_key(id) && before.sandboxes[id].state is Running ==> r is Err
            && r->Err_0@ == (ErrorView::InvalidState {
            id,
            current: SandboxState::Running,
            operation: "resume (already running)"@,
        }),
        before.sandboxes.contains_key(id) && !(before.sandboxes[id].state is Running) ==> {
            let s = before.sandboxes[id];
            let known = exists|k: int|
                0 <= k < before.config.tiers@.len() && (#[trigger] before.config.tiers@[k]).name@
                    == s.tier;
            &&& !known ==> r is Err && r->Err_0@ == (ErrorView::TierNotFound { tier: s.tier })
            &&& known ==> {
                &&& r is Ok
                &&& r->Ok_0.tier@ == s.tier
                &&& r->Ok_0.container_name@ == container_name
                &&& r->Ok_0.volume_name@ == s.volume_name
                &&& r->Ok_0.bind_mounts@.map_values(|b: String| b@) == s.bind_mounts
                &&& after.shelves == before.shelves
                &&& after.config == before.config
                &&& after.host == before.host
                &&& after.sandboxes.remove(id) == before.sandboxes.remove(id)
                &&& after.sandboxes.contains_key(id)
                &&& after.sandboxes[id] == (SandboxView {
                    state: SandboxState::Starting,
                    last_activity: now,
                    ..s
                })
            }
        },
{
    if before.sandboxes.contains_key(id) {
        config::lemma_tier_index(before.config.tiers@, before.sandboxes[id].tier);
        assert(after.sandboxes.remove(id) =~= before.sandboxes.remove(id));
    }
}

/// A sandbox that is starting runs, from now on and in the new container, once it
/// has been resumed. One that is in another state is reported, keeps that state and
/// is in the new container.
pub proof fn what_finishing_to_resume_does(
    before: PoolView,
    after: PoolView,
    id: Seq<char>,
    container_id: Seq<char>,
    r: Result<Sandbox, DenError>,
    now: int,
)
    requires
        before.valid(),
        resumed_outcome(before, after, id, container_id, r, now),
    ensures
        after.shelves == before.shelves,
        after.config == before.config,
        after.host == before.host,
        after.sandboxes.remove(id) == before.sandboxes.remove(id),
        after.sandboxes.contains_key(id) == before.sandboxes.contains_key(id),
        !before.sandboxes.contains_key(id) ==> r is Err && r->Err_0@
            == (ErrorView::SandboxNotFound { id }),
        before.sandboxes.contains_key(id) ==> {
            let s = before.sandboxes[id];
            &&& s.state is Starting ==> r is Ok && r->Ok_0@ == after.sandboxes[id]
                && after.sandboxes[id] == (SandboxView {
                container_id,
                state: SandboxState::Running,
                started_at: Some(now),
                last_activity: now,
                ..s
            })
            &&& !(s.state is Starting) ==> r is Err && after.sandboxes[id] == (SandboxView {
                container_id,
                ..s
            }) && r->Err_0@ is InvalidState && r->Err_0@->InvalidState_id == id
                && r->Err_0@->current == s.state
        },
{
    if before.sandboxes.contains_key(id) {
        let s = before.sandboxes[id];
        sandbox::running_comes_after_starting(s.state);
        assert(SandboxState::Starting.successors()[0] == SandboxState::Running);
        assert(after.sandboxes.remove(id) =~= before.sandboxes.remove(id));
    }
}

/// Activity in a sandbox sets the time of its last activity and nothing else.
pub proof fn what_activity_does(before: PoolView, after: PoolView, id: Seq<char>, now: int)
    requires
        before.valid(),
        touch_outcome(before, after, id, now),
    ensures
        after.shelves == before.shelves,
        after.config == before.config,
        after.host == before.host,
        after.sandboxes.remove(id) == before.sandboxes.remove(id),
        after.sandboxes.contains_key(id) == before.sandboxes.contains_key(id),
        before.sandboxes.contains_key(id) ==> after.sandboxes[id] == (SandboxView {
            last_activity: now,
            ..before.sandboxes[id]
        }),
{
    if before.sandboxes.contains_key(id) {
        assert(after.sandboxes.remove(id) =~= before.sandboxes.remove(id));
    }
}

/// Destroying stops the container, with five seconds of grace, removes it and then
/// removes the volume.
pub proof fn what_destroying_asks_for(s: SandboxView)
    ensures
        destruction(s) == seq![
            ActionView::StopContainer { id: s.container_id, timeout_secs: 5 },
            ActionView::RemoveContainer { id: s.container_id },
            ActionView::RemoveVolume { name: s.volume_name },
        ],
{
}

/// A command is let into a sandbox exactly where it is there, runs, and has fewer
/// commands under way than it may have; else the first of these that fails is told.
/// Being let in adds one to the commands, ending takes one away where there is any,
/// and neither changes anything else.
pub proof fn which_commands_are_let_in(
    m: Map<Seq<char>, SandboxView>,
    id: Seq<char>,
    s: SandboxView,
)
    ensures
        exec_fault(m, id) is None <==> m.contains_key(id) && m[id].state is Running
            && m[id].active_execs < m[id].max_concurrent_execs,
        !m.contains_key(id) ==> exec_fault(m, id) == Some(ErrorView::SandboxNotFound { id }),
        m.contains_key(id) && !(m[id].state is Running) ==> exec_fault(m, id) == Some(
            ErrorView::InvalidState { id, current: m[id].state, operation: "exec"@ },
        ),
        m.contains_key(id) && m[id].state is Running && m[id].active_execs
            >= m[id].max_concurrent_execs ==> exec_fault(m, id) == Some(
            ErrorView::TooManyExecs { id, limit: m[id].max_concurrent_execs as nat },
        ),
        s.active_execs < s.max_concurrent_execs ==> one_more_exec(s).active_execs
            == s.active_execs + 1,
        one_more_exec(s) == (SandboxView { active_execs: one_more_exec(s).active_execs, ..s }),
        s.active_execs > 0 ==> one_exec_less(s).active_execs == s.active_execs - 1,
        s.active_execs == 0 ==> one_exec_less(s) == s,
        one_exec_less(s) == (SandboxView { active_execs: one_exec_less(s).active_execs, ..s }),
{
}

// ---------------------------------------------------------------------------
// Laws on the operations
// ---------------------------------------------------------------------------

/// Replenishing puts on the shelf of a tier, behind what is there and in their order,
/// the containers that were made for it, each with the volume of its job. No sandbox
/// is touched.
pub proof fn replenishing_shelves_what_was_made(pool: &mut Pool, built: &Vec<Built>, i: int)
    requires
        old(pool)@.valid(),
        0 <= i < old(pool)@.config.tiers@.len(),
        call_ensures(Pool::replenished, (pool, built), ()),
    ensures
        final(pool)@.shelves[i] == old(pool)@.shelves[i] + built@.filter_map(
            |b: Built|
                if b.container_id is Ok && b.job.tier@ == old(pool)@.config.tiers@[i].name@ {
                    Some(
                        EntryView {
                            container_id: b.container_id->Ok_0@,
                            volume_name: b.job.volume_name@,
                        },
                    )
                } else {
                    None
                },
        ),
        final(pool)@.shelves.len() == old(pool)@.shelves.len(),
        final(pool)@.config == old(pool)@.config,
        final(pool)@.host == old(pool)@.host,
        final(pool)@.sandboxes == old(pool)@.sandboxes,
{
    stocking_shelves_each_container_with_its_volume(old(pool)@, built@, i);
}

/// Warming up succeeds exactly where every job did, and else reports the first that
/// failed. On the shelf of a tier it puts, behind what is there and in their order,
/// the containers that were made for it up to then, each with the volume of its job.
pub proof fn warming_up_shelves_what_was_made(
    pool: &mut Pool,
    built: Vec<Built>,
    r: Result<(), DenError>,
    i: int,
    n: int,
)
    requires
        old(pool)@.valid(),
        0 <= i < old(pool)@.config.tiers@.len(),
        0 <= n <= built@.len(),
        forall|k: int| 0 <= k < n ==> (#[trigger] built@[k]).container_id is Ok,
        n < built@.len() ==> built@[n].container_id is Err,
        call_ensures(Pool::warmed_up, (pool, built), r),
    ensures
        n == built@.len() ==> r is Ok,
        n < built@.len() ==> r is Err && built@[n].container_id == Err::<String, DenError>(
            r->Err_0,
        ),
        final(pool)@.shelves[i] == old(pool)@.shelves[i] + built@.take(n).filter_map(
            |b: Built|
                if b.container_id is Ok && b.job.tier@ == old(pool)@.config.tiers@[i].name@ {
                    Some(
                        EntryView {
                            container_id: b.container_id->Ok_0@,
                            volume_name: b.job.volume_name@,
                        },
                    )
                } else {
                    None
                },
        ),
        final(pool)@.shelves.len() == old(pool)@.shelves.len(),
        final(pool)@.config == old(pool)@.config,
        final(pool)@.host == old(pool)@.host,
        final(pool)@.sandboxes == old(pool)@.sandboxes,
{
    lemma_good_start(built@, n);
    stocking_shelves_each_container_with_its_volume(old(pool)@, built@.take(n), i);
}

/// A claim is decided by the room on the host and by the shelf of its tier: where
/// there is room it takes the newest entry of that shelf, or with bind mounts hands
/// out the given names, and changes nothing else.
pub proof fn claiming_takes_the_newest_entry(
    pool: &mut Pool,
    tier: &str,
    host: HostInfo,
    bind_mounts: &Vec<String>,
    container_name: String,
    volume_name: String,
    r: Result<Reservation, DenError>,
    i: int,
)
    requires
        old(pool)@.valid(),
        old(pool)@.host == old(pool)@.config,
        0 <= i < old(pool)@.config.tiers@.len(),
        old(pool)@.config.tiers@[i].name@ == tier@,
        call_ensures(
            Pool::claim_named,
            (pool, tier, Ok(host), bind_mounts, container_name, volume_name),
            r,
        ),
    ensures
        ({
            let t = old(pool)@.config.tiers@[i].config;
            let total = scheduler::count(host.mem_total);
            let running = scheduler::count(host.containers_running);
            let room = (running + 1) * (t.memory_mb * 1048576) <= total - total / 5
                && !t.cpus.exceeds(scheduler::host_cpus(scheduler::count(host.ncpu)));
            &&& r is Ok <==> room && (bind_mounts@.len() > 0 || old(pool)@.shelves[i].len() > 0)
            &&& !room ==> r is Err && r->Err_0@ == (ErrorView::InsufficientResources {
                reason: "not enough resources for tier "@ + tier@,
            })
            &&& room && r is Err ==> r->Err_0@ == (ErrorView::PoolExhausted { tier: tier@ })
        }),
        r is Err || bind_mounts@.len() > 0 ==> final(pool)@ == old(pool)@,
        r is Ok && bind_mounts@.len() > 0 ==> r->Ok_0 is Dedicated && r->Ok_0->container_name@
            == container_name@ && r->Ok_0->volume_name@ == volume_name@,
        r is Ok && bind_mounts@.len() == 0 ==> {
            &&& r->Ok_0 is Pooled
            &&& old(pool)@.shelves[i] == final(pool)@.shelves[i].push(r->Ok_0->Pooled_0@)
            &&& forall|k: int|
                0 <= k < old(pool)@.shelves.len() && k != i ==> #[trigger] final(pool)@.shelves[k]
                    == old(pool)@.shelves[k]
            &&& final(pool)@.shelves.len() == old(pool)@.shelves.len()
            &&& final(pool)@.sandboxes == old(pool)@.sandboxes
            &&& final(pool)@.config == old(pool)@.config
            &&& final(pool)@.host == old(pool)@.host
        },
{
    let info = Ok::<HostInfo, DenError>(host);
    assert forall|k: int| 0 <= k < i implies (#[trigger] old(pool)@.config.tiers@[k]).name@
        != tier@ by {
        assert(old(pool)@.config.tiers@[k].name@ != old(pool)@.config.tiers@[i].name@);
    }
    why_claims_are_refused(old(pool)@, tier@, info, i, i);
    if claim_fault(old(pool)@, tier@, info) is None {
        what_a_claim_takes(
            old(pool)@,
            final(pool)@,
            i,
            info,
            bind_mounts@.len() > 0,
            container_name@,
            volume_name@,
            r,
        );
    }
}

/// Registering makes a running sandbox of what it is given and of its tier's limits,
/// and enters it under its id.
pub proof fn registering_enters_a_running_sandbox(
    pool: &mut Pool,
    id: String,
    tier: &str,
    entry: PoolEntry,
    metadata: HashMap<String, String>,
    bind_mounts: Vec<String>,
    now: Timestamp,
    r: Result<Sandbox, DenError>,
    i: int,
)
    requires
        old(pool)@.valid(),
        call_ensures(
            Pool::register_at,
            (pool, id, tier, entry, metadata, bind_mounts, now),
            r,
        ),
    ensures
        (forall|k: int|
            0 <= k < old(pool)@.config.tiers@.len() ==> (#[trigger] old(
                pool,
            )@.config.tiers@[k]).name@ != tier@) ==> r is Err && r->Err_0@
            == (ErrorView::TierNotFound { tier: tier@ }) && final(pool)@ == old(pool)@,
        0 <= i < old(pool)@.config.tiers@.len() && old(pool)@.config.tiers@[i].name@ == tier@ ==> {
            &&& r is Ok
            &&& r->Ok_0@ == (SandboxView {
                id: id@,
                container_id: entry.container_id@,
                volume_name: entry.volume_name@,
                tier: tier@,
                state: SandboxState::Running,
                metadata: metadata@,
                bind_mounts: bind_mounts@.map_values(|b: String| b@),
                active_execs: 0,
                max_concurrent_execs: old(pool)@.config.tiers@[i].config.max_concurrent_execs,
                created_at: now@,
                started_at: Some(now@),
                timeout_secs: old(pool)@.config.tiers@[i].config.timeout_secs,
                last_activity: now@,
            })
            &&& final(pool)@.sandboxes == old(pool)@.sandboxes.insert(id@, r->Ok_0@)
            &&& final(pool)@.shelves == old(pool)@.shelves
            &&& final(pool)@.config == old(pool)@.config
            &&& final(pool)@.host == old(pool)@.host
        },
{
    config::lemma_tier_index(old(pool)@.config.tiers@, tier@);
    if 0 <= i < old(pool)@.config.tiers@.len() && old(pool)@.config.tiers@[i].name@ == tier@ {
        config::tiers_are_found_by_name(old(pool)@.config.tiers@, i, tier@);
    }
}

/// Releasing a running sandbox at `now` completes it, with `now` as the time of its
/// last activity; releasing any other leaves it as it is. The container is to be
/// stopped and removed, in this order, and nothing else is to be done or changes.
pub proof fn releasing_completes_the_sandbox(
    pool: &mut Pool,
    id: &str,
    now: Timestamp,
    r: Result<Vec<DockerAction>, DenError>,
)
    requires
        old(pool)@.valid(),
        old(pool)@.sandboxes.contains_key(id@),
        call_ensures(Pool::release_at, (pool, id, now), r),
    ensures
        final(pool)@.sandboxes == old(pool)@.sandboxes.insert(
            id@,
            if old(pool)@.sandboxes[id@].state is Running {
                SandboxView {
                    state: SandboxState::Completed,
                    last_activity: now@,
                    ..old(pool)@.sandboxes[id@]
                }
            } else {
                old(pool)@.sandboxes[id@]
            },
        ),
        final(pool)@.shelves == old(pool)@.shelves,
        final(pool)@.config == old(pool)@.config,
        final(pool)@.host == old(pool)@.host,
        r is Ok,
        r->Ok_0@.len() == 2,
        r->Ok_0@[0]@ == (ActionView::StopContainer {
            id: old(pool)@.sandboxes[id@].container_id,
            timeout_secs: 5,
        }),
        r->Ok_0@[1]@ == (ActionView::RemoveContainer {
            id: old(pool)@.sandboxes[id@].container_id,
        }),
{
    what_a_release_does(old(pool)@, final(pool)@, id@, r, now@);
    assert(final(pool)@.sandboxes[id@].id == id@);
}

/// What is there of a sandbox that is released by the clock is the same, at a time that
/// the clock can show.
pub proof fn releasing_by_the_clock_completes_the_sandbox(
    pool: &mut Pool,
    id: &str,
    r: Result<Vec<DockerAction>, DenError>,
)
    requires
        old(pool)@.valid(),
        old(pool)@.sandboxes.contains_key(id@),
        old(pool)@.sandboxes[id@].state is Running,
        call_ensures(Pool::release, (pool, id), r),
    ensures
        r is Ok,
        final(pool)@.sandboxes.contains_key(id@),
        final(pool)@.sandboxes[id@].state is Completed,
        final(pool)@.sandboxes[id@].volume_name == old(pool)@.sandboxes[id@].volume_name,
        clock::on_clock(final(pool)@.sandboxes[id@].last_activity),
        final(pool)@.sandboxes.remove(id@) == old(pool)@.sandboxes.remove(id@),
        final(pool)@.shelves == old(pool)@.shelves,
{
    let now = choose|now: int|
        clock::on_clock(now) && #[trigger] release_outcome(old(pool)@, final(pool)@, id@, r, now);
    what_a_release_does(old(pool)@, final(pool)@, id@, r, now);
}

/// Preparing to resume marks the sandbox as starting, active at `now`, and plans a
/// container for its tier on its own volume, with its own bind mounts.
pub proof fn resuming_keeps_the_volume_and_the_mounts(
    pool: &mut Pool,
    id: &str,
    container_name: String,
    now: Timestamp,
    r: Result<ResumePlan, DenError>,
    i: int,
)
    requires
        old(pool)@.valid(),
        old(pool)@.sandboxes.contains_key(id@),
        0 <= i < old(pool)@.config.tiers@.len(),
        old(pool)@.config.tiers@[i].name@ == old(pool)@.sandboxes[id@].tier,
        call_ensures(Pool::resume_named, (pool, id, container_name, now), r),
    ensures
        r is Ok <==> !(old(pool)@.sandboxes[id@].state is Running),
        r is Err ==> final(pool)@ == old(pool)@,
        r is Ok ==> {
            let s = old(pool)@.sandboxes[id@];
            &&& r->Ok_0.tier@ == s.tier
            &&& r->Ok_0.container_name@ == container_name@
            &&& r->Ok_0.volume_name@ == s.volume_name
            &&& r->Ok_0.bind_mounts@.map_values(|b: String| b@) == s.bind_mounts
            &&& final(pool)@.sandboxes == old(pool)@.sandboxes.insert(
                id@,
                SandboxView { state: SandboxState::Starting, last_activity: now@, ..s },
            )
            &&& final(pool)@.shelves == old(pool)@.shelves
        },
{
    assert(old(pool)@.config.tiers@[i].name@ == old(pool)@.sandboxes[id@].tier);
    what_preparing_to_resume_does(old(pool)@, final(pool)@, id@, container_name@, r, now@);
}

/// Finishing to resume puts a starting sandbox into the new container, where it runs
/// from `now` on.
pub proof fn a_resumed_sandbox_runs_in_the_new_container(
    pool: &mut Pool,
    id: &str,
    container_id: String,
    now: Timestamp,
    r: Result<Sandbox, DenError>,
)
    requires
        old(pool)@.valid(),
        old(pool)@.sandboxes.contains_key(id@),
        call_ensures(Pool::resumed_at, (pool, id, container_id, now), r),
    ensures
        r is Ok <==> old(pool)@.sandboxes[id@].state is Starting,
        r is Ok ==> r->Ok_0@ == (SandboxView {
            container_id: container_id@,
            state: SandboxState::Running,
            started_at: Some(now@),
            last_activity: now@,
            ..old(pool)@.sandboxes[id@]
        }) && final(pool)@.sandboxes == old(pool)@.sandboxes.insert(id@, r->Ok_0@),
        r is Err ==> final(pool)@.sandboxes == old(pool)@.sandboxes.insert(
            id@,
            SandboxView { container_id: container_id@, ..old(pool)@.sandboxes[id@] },
        ),
        final(pool)@.shelves == old(pool)@.shelves,
{
    what_finishing_to_resume_does(old(pool)@, final(pool)@, id@, container_id@, r, now@);
}

/// Destroying takes away the sandbox and nothing else, and asks Docker to stop its
/// container, to remove it, and to remove its volume.
pub proof fn destroying_takes_away_the_sandbox(
    pool: &mut Pool,
    id: &str,
    r: Result<Vec<DockerAction>, DenError>,
)
    requires
        call_ensures(Pool::destroy, (pool, id), r),
    ensures
        final(pool)@.sandboxes == old(pool)@.sandboxes.remove(id@),
        final(pool)@.shelves == old(pool)@.shelves,
        final(pool)@.config == old(pool)@.config,
        final(pool)@.host == old(pool)@.host,
        !old(pool)@.sandboxes.contains_key(id@) ==> r is Err && r->Err_0@
            == (ErrorView::SandboxNotFound { id: id@ }),
        old(pool)@.sandboxes.contains_key(id@) ==> {
            let s = old(pool)@.sandboxes[id@];
            &&& r is Ok
            &&& r->Ok_0@.len() == 3
            &&& r->Ok_0@[0]@ == (ActionView::StopContainer { id: s.container_id, timeout_secs: 5 })
            &&& r->Ok_0@[1]@ == (ActionView::RemoveContainer { id: s.container_id })
            &&& r->Ok_0@[2]@ == (ActionView::RemoveVolume { name: s.volume_name })
        },
{
    if old(pool)@.sandboxes.contains_key(id@) {
        let a = docker::actions(r->Ok_0@);
        assert(a.len() == 3);
        assert(a[0] == r->Ok_0@[0]@ && a[1] == r->Ok_0@[1]@ && a[2] == r->Ok_0@[2]@);
    } else {
        assert(final(pool)@.sandboxes =~= old(pool)@.sandboxes.remove(id@));
    }
}

/// A command is let into a running sandbox that has fewer commands under way than it
/// may have, which then has one more; its container is told.
pub proof fn letting_a_command_in_counts_it(pool: &mut Pool, id: &str, r: Result<String, DenError>)
    requires
        old(pool)@.valid(),
        call_ensures(Pool::exec_begin, (pool, id), r),
    ensures
        r is Ok <==> old(pool)@.sandboxes.contains_key(id@) && old(
            pool,
        )@.sandboxes[id@].state is Running && old(pool)@.sandboxes[id@].active_execs < old(
            pool,
        )@.sandboxes[id@].max_concurrent_execs,
        r is Err ==> final(pool)@ == old(pool)@,
        r is Ok ==> {
            let s = old(pool)@.sandboxes[id@];
            &&& r->Ok_0@ == s.container_id
            &&& final(pool)@.sandboxes.contains_key(id@)
            &&& final(pool)@.sandboxes[id@].active_execs == s.active_execs + 1
            &&& s == (SandboxView {
                active_execs: s.active_execs,
                ..final(pool)@.sandboxes[id@]
            })
            &&& final(pool)@.sandboxes.remove(id@) == old(pool)@.sandboxes.remove(id@)
            &&& final(pool)@.shelves == old(pool)@.shelves
        },
{
    if r is Ok {
        assert(final(pool)@.sandboxes.remove(id@) =~= old(pool)@.sandboxes.remove(id@));
    }
}

/// A command that ends takes itself off the count of its sandbox and changes nothing
/// else.
pub proof fn an_ended_command_is_counted_off(pool: &mut Pool, id: &str)
    requires
        old(pool)@.valid(),
        call_ensures(Pool::exec_end, (pool, id), ()),
    ensures
        !old(pool)@.sandboxes.contains_key(id@) ==> final(pool)@ == old(pool)@,
        old(pool)@.sandboxes.contains_key(id@) ==> {
            let s = old(pool)@.sandboxes[id@];
            &&& final(pool)@.sandboxes.contains_key(id@)
            &&& s.active_execs > 0 ==> final(pool)@.sandboxes[id@].active_execs == s.active_execs - 1
            &&& s.active_execs == 0 ==> final(pool)@.sandboxes[id@].active_execs == 0
            &&& s == (SandboxView {
                active_execs: s.active_execs,
                ..final(pool)@.sandboxes[id@]
            })
            &&& final(pool)@.sandboxes.remove(id@) == old(pool)@.sandboxes.remove(id@)
            &&& final(pool)@.shelves == old(pool)@.shelves
        },
{
    if old(pool)@.sandboxes.contains_key(id@) {
        assert(final(pool)@.sandboxes.remove(id@) =~= old(pool)@.sandboxes.remove(id@));
    }
}

/// Activity in a sandbox sets the time of its last activity, and changes nothing else.
pub proof fn activity_is_recorded(pool: &mut Pool, id: &str, now: Timestamp)
    requires
        old(pool)@.valid(),
        old(pool)@.sandboxes.contains_key(id@),
        call_ensures(Pool::touch_at, (pool, id, now), ()),
    ensures
        final(pool)@.sandboxes == old(pool)@.sandboxes.insert(
            id@,
            SandboxView { last_activity: now@, ..old(pool)@.sandboxes[id@] },
        ),
        final(pool)@.shelves == old(pool)@.shelves,
        final(pool)@.config == old(pool)@.config,
        final(pool)@.host == old(pool)@.host,
{
    what_activity_does(old(pool)@, final(pool)@, id@, now@);
}

/// The container of a sandbox is the one it is in.
pub proof fn containers_are_told_as_they_are(pool: &Pool, id: &str, r: Result<String, DenError>)
    requires
        call_ensures(Pool::container_of, (pool, id), r),
    ensures
        r is Ok <==> pool@.sandboxes.contains_key(id@),
        r is Ok ==> r->Ok_0@ == pool@.sandboxes[id@].container_id,
        r is Err ==> r->Err_0@ == (ErrorView::SandboxNotFound { id: id@ }),
{
}

/// A new pool has a shelf for each tier, with nothing on it, and the given sandboxes.
pub proof fn a_new_pool_is_empty(
    config: Arc<DenConfig>,
    sandboxes: Registry,
    scheduler: Scheduler,
    r: Pool,
    i: int,
)
    requires
        call_ensures(Pool::new, (config, sandboxes, scheduler), r),
        0 <= i < config.tiers@.len(),
    ensures
        r@.shelves.len() == config.tiers@.len(),
        r@.shelves[i].len() == 0,
        r@.sandboxes == sandboxes@,
        r@.config == *config,
        r@.host == *scheduler.config,
{
}

/// A pool is valid exactly when no two of its tiers share a name, it has a shelf for
/// each, and every sandbox stands under its own id with no more commands under way than
/// it may have. How much is on the shelves makes no difference.
pub proof fn what_validity_is(v: PoolView)
    ensures
        v.valid() <==> {
            &&& forall|i: int, j: int|
                0 <= i < j < v.config.tiers@.len() ==> #[trigger] v.config.tiers@[i].name@
                    != #[trigger] v.config.tiers@[j].name@
            &&& v.shelves.len() == v.config.tiers@.len()
            &&& forall|k: Seq<char>| #[trigger]
                v.sandboxes.contains_key(k) ==> v.sandboxes[k].id == k
                    && v.sandboxes[k].active_execs <= v.sandboxes[k].max_concurrent_execs
        },
{
}

/// The jobs of warming up are, tier by tier in the order of the configuration, as many
/// as each pool is large, each for its tier and named as containers and volumes are.
pub proof fn warming_up_asks_for_every_container(pool: &Pool, r: Vec<PoolJob>, i: int)
    requires
        pool@.valid(),
        0 <= i < pool@.config.tiers@.len(),
        call_ensures(Pool::warm_up, (pool,), r),
    ensures
        r@.filter(|job: PoolJob| job.tier@ == pool@.config.tiers@[i].name@).len()
            == pool@.config.tiers@[i].config.pool_size,
        forall|k: int|
            0 <= k < r@.len() ==> naming::names_container(
                (#[trigger] r@[k]).container_name@,
                r@[k].tier@,
            ) && naming::names_volume(r@[k].volume_name@),
{
    let name = pool@.config.tiers@[i].name@;
    warming_up_makes_each_size(pool@.config.tiers@, i);
    lemma_jobs_by_order(r@, warm_up_tiers(pool@.config.tiers@), name);
    let of_tier = |job: PoolJob| job.tier@ == pool@.config.tiers@[i].name@;
    assert(of_tier =~= (|job: PoolJob| job.tier@ == name));
}

proof fn lemma_jobs_by_order(jobs: Seq<PoolJob>, order: Seq<Seq<char>>, name: Seq<char>)
    requires
        jobs.len() == order.len(),
        forall|k: int| 0 <= k < jobs.len() ==> job_for(#[trigger] jobs[k], order[k]),
    ensures
        jobs.filter(|job: PoolJob| job.tier@ == name).len() == occurrences(order, name),
    decreases jobs.len(),
{
    reveal(Seq::filter);
    if jobs.len() > 0 {
        let front = jobs.drop_last();
        assert forall|k: int| 0 <= k < front.len() implies job_for(
            #[trigger] front[k],
            order.drop_last()[k],
        ) by {
            assert(front[k] == jobs[k]);
        }
        lemma_jobs_by_order(front, order.drop_last(), name);
        assert(job_for(jobs[jobs.len() - 1], order[order.len() - 1]));
    }
}

/// The jobs of replenishing a tier are as many as it is short of its size, all of them
/// for that tier.
pub proof fn replenishing_asks_for_what_is_missing(pool: &Pool, tier: &str, r: Vec<PoolJob>, i: int)
    requires
        pool@.valid(),
        0 <= i < pool@.config.tiers@.len(),
        pool@.config.tiers@[i].name@ == tier@,
        call_ensures(Pool::replenish, (pool, tier), r),
    ensures
        pool@.shelves[i].len() <= pool@.config.tiers@[i].config.pool_size ==> pool@.shelves[i].len()
            + r@.len() == pool@.config.tiers@[i].config.pool_size,
        pool@.shelves[i].len() >= pool@.config.tiers@[i].config.pool_size ==> r@.len() == 0,
        forall|k: int| 0 <= k < r@.len() ==> (#[trigger] r@[k]).tier@ == tier@,
{
    a_tier_is_short_of_the_difference(pool@, i);
}

/// A sandbox that is registered by the clock gets an id of its tier, runs from a time
/// that the clock can show, and is made of what it is given; it is entered under that
/// id.
pub proof fn registering_by_the_clock_enters_a_running_sandbox(
    pool: &mut Pool,
    tier: &str,
    entry: PoolEntry,
    metadata: HashMap<String, String>,
    bind_mounts: Vec<String>,
    r: Result<Sandbox, DenError>,
    i: int,
)
    requires
        old(pool)@.valid(),
        0 <= i < old(pool)@.config.tiers@.len(),
        old(pool)@.config.tiers@[i].name@ == tier@,
        call_ensures(Pool::register, (pool, tier, entry, metadata, bind_mounts), r),
    ensures
        r is Ok,
        naming::names_sandbox(r->Ok_0.id@, tier@),
        clock::on_clock(r->Ok_0.created_at@),
        r->Ok_0.container_id@ == entry.container_id@,
        r->Ok_0.volume_name@ == entry.volume_name@,
        r->Ok_0.tier@ == tier@,
        r->Ok_0.state is Running,
        r->Ok_0.metadata@ == metadata@,
        r->Ok_0.bind_mounts@.map_values(|b: String| b@) == bind_mounts@.map_values(|b: String| b@),
        r->Ok_0.last_activity@ == r->Ok_0.created_at@,
        r->Ok_0.started_at is Some && r->Ok_0.started_at->0@ == r->Ok_0.created_at@,
        r->Ok_0.timeout_secs == old(pool)@.config.tiers@[i].config.timeout_secs,
        r->Ok_0.max_concurrent_execs == old(pool)@.config.tiers@[i].config.max_concurrent_execs,
        r->Ok_0.active_execs == 0,
        final(pool)@.sandboxes == old(pool)@.sandboxes.insert(r->Ok_0.id@, r->Ok_0@),
        final(pool)@.shelves == old(pool)@.shelves,
        final(pool)@.config == old(pool)@.config,
{
    config::tiers_are_found_by_name(old(pool)@.config.tiers@, i, tier@);
    sandbox::the_view_shows_the_sandbox(r->Ok_0);
}

/// A claim under drawn names comes to the same as one under given names: the newest
/// entry of the shelf, or names of its tier's kind for a sandbox with bind mounts.
pub proof fn claiming_under_drawn_names(
    pool: &mut Pool,
    tier: &str,
    info: Result<HostInfo, DenError>,
    bind_mounts: &Vec<String>,
    r: Result<Reservation, DenError>,
    i: int,
)
    requires
        old(pool)@.valid(),
        0 <= i < old(pool)@.config.tiers@.len(),
        old(pool)@.config.tiers@[i].name@ == tier@,
        claim_fault(old(pool)@, tier@, info) is None,
        call_ensures(Pool::claim, (pool, tier, info, bind_mounts), r),
    ensures
        r is Ok <==> bind_mounts@.len() > 0 || old(pool)@.shelves[i].len() > 0,
        final(pool)@.sandboxes == old(pool)@.sandboxes,
        bind_mounts@.len() > 0 ==> r->Ok_0 is Dedicated && naming::names_container(
            r->Ok_0->container_name@,
            tier@,
        ) && naming::names_volume(r->Ok_0->volume_name@) && final(pool)@ == old(pool)@,
        bind_mounts@.len() == 0 && r is Ok ==> r->Ok_0 is Pooled && old(pool)@.shelves[i] == final(pool)@.shelves[i].push(r->Ok_0->Pooled_0@),
{
    what_a_claim_takes(
        old(pool)@,
        final(pool)@,
        i,
        info,
        bind_mounts@.len() > 0,
        r->Ok_0->container_name@,
        r->Ok_0->volume_name@,
        r,
    );
}

/// Preparing to resume under a drawn name plans a container that is named for the
/// sandbox's tier, on its volume and with its bind mounts.
pub proof fn resuming_under_a_drawn_name(
    pool: &mut Pool,
    id: &str,
    now: Timestamp,
    r: Result<ResumePlan, DenError>,
    i: int,
)
    requires
        old(pool)@.valid(),
        old(pool)@.sandboxes.contains_key(id@),
        0 <= i < old(pool)@.config.tiers@.len(),
        old(pool)@.config.tiers@[i].name@ == old(pool)@.sandboxes[id@].tier,
        call_ensures(Pool::resume_at, (pool, id, now), r),
    ensures
        r is Ok <==> !(old(pool)@.sandboxes[id@].state is Running),
        r is Ok ==> {
            let s = old(pool)@.sandboxes[id@];
            &&& naming::names_container(r->Ok_0.container_name@, s.tier)
            &&& r->Ok_0.tier@ == s.tier
            &&& r->Ok_0.volume_name@ == s.volume_name
            &&& r->Ok_0.bind_mounts@.map_values(|b: String| b@) == s.bind_mounts
            &&& final(pool)@.sandboxes == old(pool)@.sandboxes.insert(
                id@,
                SandboxView { state: SandboxState::Starting, last_activity: now@, ..s },
            )
        },
{
    assert(old(pool)@.config.tiers@[i].name@ == old(pool)@.sandboxes[id@].tier);
    what_preparing_to_resume_does(
        old(pool)@,
        final(pool)@,
        id@,
        r->Ok_0.container_name@,
        r,
        now@,
    );
}

/// How much a tier is short of is how much less is ready than its pool is large.
pub proof fn shortfalls_are_exact(pool: &Pool, tier: &str, r: usize, i: int)
    requires
        pool@.valid(),
        0 <= i < pool@.config.tiers@.len(),
        pool@.config.tiers@[i].name@ == tier@,
        call_ensures(Pool::shortfall, (pool, tier), r),
    ensures
        pool@.shelves[i].len() < pool@.config.tiers@[i].config.pool_size ==> r
            + pool@.shelves[i].len() == pool@.config.tiers@[i].config.pool_size,
        pool@.shelves[i].len() >= pool@.config.tiers@[i].config.pool_size ==> r == 0,
{
    a_tier_is_short_of_the_difference(pool@, i);
}

/// The jobs that given draws make for a tier are named by these, one for one.
pub proof fn replenishing_names_by_the_draws(
    pool: &Pool,
    tier: &str,
    draws: &Vec<(String, String)>,
    r: Vec<PoolJob>,
    k: int,
)
    requires
        draws@.len() == pool@.deficit(tier@),
        call_ensures(Pool::replenish_from, (pool, tier, draws), r),
        0 <= k < r@.len(),
    ensures
        r@.len() == draws@.len(),
        r@[k].tier@ == tier@,
        r@[k].container_name@ == "den-"@ + tier@ + seq!['-'] + draws@[k].0@.take(8),
        r@[k].volume_name@ == "den-vol-"@ + draws@[k].1@.take(8),
{
    assert(job_from(r@[k], tier@, draws@[k]));
    jobs_are_named_by_their_draw(r@[k], tier@, draws@[k]);
}

} // verus!
