//! Cleaning up: sandboxes that have run out of time, crashed containers, old
//! volumes and what an earlier run left behind.

use std::sync::Arc;

use vstd::prelude::*;

#[allow(unused_imports)]
use crate::clock;
use crate::clock::Timestamp;
use crate::config::DenConfig;
#[allow(unused_imports)]
use crate::docker;
#[allow(unused_imports)]
use crate::docker::ActionView;
use crate::docker::{stop_and_remove_of, DockerAction};
use crate::error::DenError;
#[allow(unused_imports)]
use crate::pool;
use crate::pool::STOP_GRACE_SECS;
#[allow(unused_imports)]
use crate::registry;
use crate::registry::Registry;
#[allow(unused_imports)]
use crate::sandbox;
use crate::sandbox::SandboxState;
#[allow(unused_imports)]
use crate::sandbox::SandboxView;
#[allow(unused_imports)]
use crate::text;
use crate::text::same_text;

verus! {

/// Seconds that a container left behind by an earlier run gets to stop in.
pub const ORPHAN_GRACE_SECS: i32 = 2;

/// A running sandbox that was looked at.
#[derive(Debug)]
pub struct Suspect {
    pub id: String,
    pub container_id: String,
    /// Whether its time is up. If not, its container is to be inspected.
    pub due: bool,
}

/// A sandbox whose container is to go, and the state it goes to.
#[derive(Debug)]
pub struct Doomed {
    pub id: String,
    pub container_id: String,
    pub target: SandboxState,
}

/// A sandbox whose volume has been kept for its time.
#[derive(Debug)]
pub struct Overdue {
    pub id: String,
    pub container_id: String,
    pub volume_name: String,
}

/// Whether a sandbox has run for its time or been idle for too long.
pub open spec fn is_due(s: SandboxView, idle_timeout: u64, now: int) -> bool {
    s.expired_at(now) || s.idle_at(now, idle_timeout)
}

/// Whether a sandbox has no container any more: it has ended or crashed.
pub open spec fn stopped(s: SandboxView) -> bool {
    s.state.terminal() || s.state is Defunct
}

/// Whether a sandbox has no container any more and its volume has been kept for
/// its time.
pub open spec fn is_overdue(s: SandboxView, volume_ttl: u64, now: int) -> bool {
    stopped(s) && clock::has_reached(now, s.last_activity, volume_ttl)
}

/// Whether `r` holds every running sandbox once, with what there is to say of it.
pub open spec fn surveys(
    r: Seq<Suspect>,
    m: Map<Seq<char>, SandboxView>,
    idle_timeout: u64,
    now: int,
) -> bool {
    &&& forall|i: int|
        #![trigger r[i]]
        0 <= i < r.len() ==> {
            let s = m[r[i].id@];
            &&& m.contains_key(r[i].id@)
            &&& s.state == SandboxState::Running
            &&& r[i].container_id@ == s.container_id
            &&& r[i].due == is_due(s, idle_timeout, now)
        }
    &&& forall|i: int, j: int| 0 <= i < j < r.len() ==> #[trigger] r[i].id@ != #[trigger] r[j].id@
    &&& forall|k: Seq<char>|
        #![trigger m.contains_key(k)]
        m.contains_key(k) && m[k].state == SandboxState::Running ==> exists|i: int|
            0 <= i < r.len() && #[trigger] r[i].id@ == k
}

/// Whether `r` holds every overdue sandbox once, with its container and volume.
pub open spec fn lists_overdue(
    r: Seq<Overdue>,
    m: Map<Seq<char>, SandboxView>,
    volume_ttl: u64,
    now: int,
) -> bool {
    &&& forall|i: int|
        #![trigger r[i]]
        0 <= i < r.len() ==> {
            let s = m[r[i].id@];
            &&& m.contains_key(r[i].id@)
            &&& is_overdue(s, volume_ttl, now)
            &&& r[i].container_id@ == s.container_id
            &&& r[i].volume_name@ == s.volume_name
        }
    &&& forall|i: int, j: int| 0 <= i < j < r.len() ==> #[trigger] r[i].id@ != #[trigger] r[j].id@
    &&& forall|k: Seq<char>|
        #![trigger m.contains_key(k)]
        m.contains_key(k) && is_overdue(m[k], volume_ttl, now) ==> exists|i: int|
            0 <= i < r.len() && #[trigger] r[i].id@ == k
}

/// The sandboxes after one of them, if it is there, has gone to `target` at
/// `now`. One that cannot go there stays as it is.
pub open spec fn reaped(
    m: Map<Seq<char>, SandboxView>,
    id: Seq<char>,
    target: SandboxState,
    now: int,
) -> Map<Seq<char>, SandboxView> {
    if m.contains_key(id) && m[id].state.can_become(target) {
        m.insert(id, m[id].moved(target, now))
    } else {
        m
    }
}

/// What reaping asks of Docker: to stop a container whose time is up, and to
/// remove it.
pub open spec fn reaping(container_id: Seq<char>, target: SandboxState) -> Seq<ActionView> {
    if target == SandboxState::Timeout {
        docker::stop_and_remove(container_id, STOP_GRACE_SECS as int)
    } else {
        seq![ActionView::RemoveContainer { id: container_id }]
    }
}

/// What forgetting a sandbox asks of Docker.
pub open spec fn clearing(container_id: Seq<char>, volume_name: Seq<char>) -> Seq<ActionView> {
    seq![
        ActionView::RemoveContainer { id: container_id },
        ActionView::RemoveVolume { name: volume_name },
    ]
}

/// Decides which containers and volumes have had their time.
pub struct Reaper {
    pub config: Arc<DenConfig>,
}

impl Reaper {
    pub fn new(config: Arc<DenConfig>) -> (r: Reaper)
        ensures
            *r.config == *config,
    {
        Reaper { config }
    }

    /// Look at every running sandbox at `now`.
    pub fn survey(&self, sandboxes: &Registry, now: &Timestamp) -> (r: Vec<Suspect>)
        requires
            sandboxes.wf(),
        ensures
            surveys(r@, sandboxes@, self.config.reaper.idle_timeout_secs, now@),
    {
        let idle_timeout = self.config.reaper.idle_timeout_secs;
        let ids = sandboxes.ids();
        let ghost all = text::texts(ids@);
        let ghost m = sandboxes@;
        let mut out: Vec<Suspect> = Vec::new();
        let mut i: usize = 0;
        while i < ids.len()
            invariant
                i <= ids.len(),
                all == text::texts(ids@),
                all.no_duplicates(),
                forall|k: Seq<char>| all.contains(k) <==> #[trigger] m.contains_key(k),
                m == sandboxes@,
                sandboxes.wf(),
                idle_timeout == self.config.reaper.idle_timeout_secs,
                forall|j: int|
                    #![trigger out@[j]]
                    0 <= j < out@.len() ==> {
                        let s = m[out@[j].id@];
                        &&& m.contains_key(out@[j].id@)
                        &&& s.state == SandboxState::Running
                        &&& out@[j].container_id@ == s.container_id
                        &&& out@[j].due == is_due(s, idle_timeout, now@)
                        &&& exists|k: int| 0 <= k < i && all[k] == out@[j].id@
                    },
                forall|a: int, b: int|
                    0 <= a < b < out@.len() ==> #[trigger] out@[a].id@ != #[trigger] out@[b].id@,
                forall|k: int|
                    #![trigger all[k]]
                    0 <= k < i && m[all[k]].state == SandboxState::Running ==> exists|j: int|
                        0 <= j < out@.len() && #[trigger] out@[j].id@ == all[k],
            decreases ids.len() - i,
        {
            let ghost before = out@;
            assert(all[i as int] == ids@[i as int]@);
            assert(all.contains(all[i as int]));
            if let Some(s) = sandboxes.get(ids[i].as_str()) {
                if s.state == SandboxState::Running {
                    let due = s.expired_by(now) || s.idle_by(now, idle_timeout);
                    let suspect = Suspect { id: s.id, container_id: s.container_id, due };
                    assert(suspect.id@ == all[i as int]);
                    out.push(suspect);
                    assert forall|j: int| 0 <= j < before.len() implies #[trigger] before[j].id@
                        != suspect.id@ by {
                        let k = choose|k: int| 0 <= k < i && all[k] == before[j].id@;
                        assert(all[k] != all[i as int]);
                    }
                    assert forall|j: int| 0 <= j < before.len() implies out@[j]
                        == #[trigger] before[j] by {}
                    assert(out@[before.len() as int].id@ == all[i as int]);
                    assert forall|j: int| #![trigger out@[j]] 0 <= j < out@.len() implies exists|
                        k: int,
                    | 0 <= k < i + 1 && all[k] == out@[j].id@ by {
                        if j < before.len() {
                            let k = choose|k: int| 0 <= k < i && all[k] == before[j].id@;
                            assert(all[k] == out@[j].id@);
                        } else {
                            assert(all[i as int] == out@[j].id@);
                        }
                    }
                    assert forall|k: int|
                        #![trigger all[k]]
                        0 <= k < i + 1 && m[all[k]].state
                            == SandboxState::Running implies exists|j: int|
                        0 <= j < out@.len() && #[trigger] out@[j].id@ == all[k] by {
                        if k < i {
                            let j = choose|j: int|
                                0 <= j < before.len() && #[trigger] before[j].id@ == all[k];
                            assert(out@[j].id@ == all[k]);
                        }
                    }
                }
            }
            i += 1;
        }
        assert forall|k: Seq<char>|
            #![trigger m.contains_key(k)]
            m.contains_key(k) && m[k].state == SandboxState::Running implies exists|j: int|
            0 <= j < out@.len() && #[trigger] out@[j].id@ == k by {
            assert(all.contains(k));
            let p = choose|p: int| 0 <= p < all.len() && all[p] == k;
            assert(m[all[p]].state == SandboxState::Running);
        }
        out
    }

    /// What becomes of a running sandbox, by whether its time is up and, if not,
    /// by what Docker says of its container: one that runs no more has crashed.
    /// A container that could not be inspected is left alone.
    pub fn judge(suspect: Suspect, running: Result<bool, DenError>) -> (r: Option<Doomed>)
        ensures
            r is Some <==> suspect.due || running == Ok::<bool, DenError>(false),
            r matches Some(d) ==> {
                &&& d.id@ == suspect.id@
                &&& d.container_id@ == suspect.container_id@
                &&& d.target == if suspect.due {
                    SandboxState::Timeout
                } else {
                    SandboxState::Defunct
                }
            },
    {
        if suspect.due {
            return Some(
                Doomed {
                    id: suspect.id,
                    container_id: suspect.container_id,
                    target: SandboxState::Timeout,
                },
            );
        }
        match running {
            Ok(false) => Some(
                Doomed {
                    id: suspect.id,
                    container_id: suspect.container_id,
                    target: SandboxState::Defunct,
                },
            ),
            _ => None,
        }
    }

    /// Reap a container at `now`. The sandbox and its volume stay.
    pub fn reap(sandboxes: &mut Registry, doomed: &Doomed, now: Timestamp) -> (r: Vec<
        DockerAction,
    >)
        requires
            old(sandboxes).wf(),
        ensures
            final(sandboxes).wf(),
            final(sandboxes)@ == reaped(old(sandboxes)@, doomed.id@, doomed.target, now@),
            docker::actions(r@) == reaping(doomed.container_id@, doomed.target),
    {
        if let Some(s) = sandboxes.get(doomed.id.as_str()) {
            let mut s = s;
            let moved = s.transition_at(doomed.target, now);
            if moved.is_ok() {
                sandboxes.put(s);
            }
        }
        if doomed.target == SandboxState::Timeout {
            stop_and_remove_of(doomed.container_id.as_str(), STOP_GRACE_SECS)
        } else {
            let mut out: Vec<DockerAction> = Vec::new();
            out.push(DockerAction::RemoveContainer { id: doomed.container_id.clone() });
            assert(docker::actions(out@) =~= reaping(doomed.container_id@, doomed.target));
            out
        }
    }

    /// The sandboxes without a container whose volumes have, at `now`, been kept
    /// for their time.
    pub fn overdue(&self, sandboxes: &Registry, now: &Timestamp) -> (r: Vec<Overdue>)
        requires
            sandboxes.wf(),
        ensures
            lists_overdue(r@, sandboxes@, self.config.reaper.volume_ttl_secs, now@),
    {
        let volume_ttl = self.config.reaper.volume_ttl_secs;
        let ids = sandboxes.ids();
        let ghost all = text::texts(ids@);
        let ghost m = sandboxes@;
        let mut out: Vec<Overdue> = Vec::new();
        let mut i: usize = 0;
        while i < ids.len()
            invariant
                i <= ids.len(),
                all == text::texts(ids@),
                all.no_duplicates(),
                forall|k: Seq<char>| all.contains(k) <==> #[trigger] m.contains_key(k),
                m == sandboxes@,
                sandboxes.wf(),
                volume_ttl == self.config.reaper.volume_ttl_secs,
                forall|j: int|
                    #![trigger out@[j]]
                    0 <= j < out@.len() ==> {
                        let s = m[out@[j].id@];
                        &&& m.contains_key(out@[j].id@)
                        &&& is_overdue(s, volume_ttl, now@)
                        &&& out@[j].container_id@ == s.container_id
                        &&& out@[j].volume_name@ == s.volume_name
                        &&& exists|k: int| 0 <= k < i && all[k] == out@[j].id@
                    },
                forall|a: int, b: int|
                    0 <= a < b < out@.len() ==> #[trigger] out@[a].id@ != #[trigger] out@[b].id@,
                forall|k: int|
                    #![trigger all[k]]
                    0 <= k < i && is_overdue(m[all[k]], volume_ttl, now@) ==> exists|j: int|
                        0 <= j < out@.len() && #[trigger] out@[j].id@ == all[k],
            decreases ids.len() - i,
        {
            let ghost before = out@;
            assert(all[i as int] == ids@[i as int]@);
            assert(all.contains(all[i as int]));
            if let Some(s) = sandboxes.get(ids[i].as_str()) {
                if (s.state.is_terminal() || s.state == SandboxState::Defunct) && now.reached(
                    &s.last_activity,
                    volume_ttl,
                ) {
                    let found = Overdue {
                        id: s.id,
                        container_id: s.container_id,
                        volume_name: s.volume_name,
                    };
                    assert(found.id@ == all[i as int]);
                    out.push(found);
                    assert forall|j: int| 0 <= j < before.len() implies #[trigger] before[j].id@
                        != found.id@ by {
                        let k = choose|k: int| 0 <= k < i && all[k] == before[j].id@;
                        assert(all[k] != all[i as int]);
                    }
                    assert forall|j: int| 0 <= j < before.len() implies out@[j]
                        == #[trigger] before[j] by {}
                    assert(out@[before.len() as int].id@ == all[i as int]);
                    assert forall|j: int| #![trigger out@[j]] 0 <= j < out@.len() implies exists|
                        k: int,
                    | 0 <= k < i + 1 && all[k] == out@[j].id@ by {
                        if j < before.len() {
                            let k = choose|k: int| 0 <= k < i && all[k] == before[j].id@;
                            assert(all[k] == out@[j].id@);
                        } else {
                            assert(all[i as int] == out@[j].id@);
                        }
                    }
                    assert forall|k: int|
                        #![trigger all[k]]
                        0 <= k < i + 1 && is_overdue(
                            m[all[k]],
                            volume_ttl,
                            now@,
                        ) implies exists|j: int|
                        0 <= j < out@.len() && #[trigger] out@[j].id@ == all[k] by {
                        if k < i {
                            let j = choose|j: int|
                                0 <= j < before.len() && #[trigger] before[j].id@ == all[k];
                            assert(out@[j].id@ == all[k]);
                        }
                    }
                }
            }
            i += 1;
        }
        assert forall|k: Seq<char>|
            #![trigger m.contains_key(k)]
            m.contains_key(k) && is_overdue(m[k], volume_ttl, now@) implies exists|j: int|
            0 <= j < out@.len() && #[trigger] out@[j].id@ == k by {
            assert(all.contains(k));
            let p = choose|p: int| 0 <= p < all.len() && all[p] == k;
            assert(is_overdue(m[all[p]], volume_ttl, now@));
        }
        out
    }

    /// Forget an overdue sandbox: what is left of its container, its volume and
    /// the sandbox itself go. One that has been resumed or destroyed meanwhile is
    /// left alone.
    pub fn forget(sandboxes: &mut Registry, overdue: &Overdue) -> (r: Option<Vec<DockerAction>>)
        requires
            old(sandboxes).wf(),
        ensures
            final(sandboxes).wf(),
            old(sandboxes)@.contains_key(overdue.id@) && stopped(old(sandboxes)@[overdue.id@])
                ==> {
                &&& r is Some
                &&& docker::actions(r->0@) == clearing(overdue.container_id@, overdue.volume_name@)
                &&& final(sandboxes)@ == old(sandboxes)@.remove(overdue.id@)
            },
            !(old(sandboxes)@.contains_key(overdue.id@) && stopped(old(sandboxes)@[overdue.id@]))
                ==> r is None && final(sandboxes)@ == old(sandboxes)@,
    {
        match sandboxes.get(overdue.id.as_str()) {
            Some(s) => {
                if !(s.state.is_terminal() || s.state == SandboxState::Defunct) {
                    return None;
                }
            },
            None => {
                return None;
            },
        }
        let _ = sandboxes.remove(overdue.id.as_str());
        let mut out: Vec<DockerAction> = Vec::new();
        out.push(DockerAction::RemoveContainer { id: overdue.container_id.clone() });
        out.push(DockerAction::RemoveVolume { name: overdue.volume_name.clone() });
        assert(docker::actions(out@) =~= clearing(overdue.container_id@, overdue.volume_name@));
        Some(out)
    }
}

// ---------------------------------------------------------------------------
// Orphans
// ---------------------------------------------------------------------------

/// Whether a container belongs to a known sandbox.
pub open spec fn tracks_container(m: Map<Seq<char>, SandboxView>, id: Seq<char>) -> bool {
    exists|k: Seq<char>| #[trigger] m.contains_key(k) && m[k].container_id == id
}

/// Whether a volume belongs to a known sandbox.
pub open spec fn tracks_volume(m: Map<Seq<char>, SandboxView>, name: Seq<char>) -> bool {
    exists|k: Seq<char>| #[trigger] m.contains_key(k) && m[k].volume_name == name
}

/// What is asked of Docker for a container that carries this runtime's label.
pub open spec fn orphan_container(
    m: Map<Seq<char>, SandboxView>,
    id: Option<String>,
) -> Seq<ActionView> {
    match id {
        Some(s) => if s@.len() == 0 || tracks_container(m, s@) {
            Seq::empty()
        } else {
            docker::stop_and_remove(s@, ORPHAN_GRACE_SECS as int)
        },
        None => Seq::empty(),
    }
}

/// What is asked of Docker for the containers that carry this runtime's label.
pub open spec fn orphan_containers(
    m: Map<Seq<char>, SandboxView>,
    ids: Seq<Option<String>>,
) -> Seq<ActionView>
    decreases ids.len(),
{
    if ids.len() == 0 {
        Seq::empty()
    } else {
        orphan_containers(m, ids.drop_last()) + orphan_container(m, ids.last())
    }
}

/// What is asked of Docker for the volumes that carry this runtime's label.
pub open spec fn orphan_volumes(m: Map<Seq<char>, SandboxView>, names: Seq<Seq<char>>) -> Seq<
    ActionView,
>
    decreases names.len(),
{
    if names.len() == 0 {
        Seq::empty()
    } else if tracks_volume(m, names.last()) {
        orphan_volumes(m, names.drop_last())
    } else {
        orphan_volumes(m, names.drop_last()).push(ActionView::RemoveVolume { name: names.last() })
    }
}

/// Whether a container (`volume` false) or a volume (`volume` true) belongs to a
/// known sandbox.
fn is_known(sandboxes: &Registry, name: &str, volume: bool) -> (r: bool)
    ensures
        !volume ==> r == tracks_container(sandboxes@, name@),
        volume ==> r == tracks_volume(sandboxes@, name@),
{
    let ids = sandboxes.ids();
    let ghost all = text::texts(ids@);
    let ghost m = sandboxes@;
    let mut i: usize = 0;
    while i < ids.len()
        invariant
            i <= ids.len(),
            m == sandboxes@,
            all == text::texts(ids@),
            forall|k: Seq<char>| all.contains(k) <==> #[trigger] m.contains_key(k),
            forall|j: int|
                0 <= j < i ==> if volume {
                    m[#[trigger] all[j]].volume_name != name@
                } else {
                    m[all[j]].container_id != name@
                },
        decreases ids.len() - i,
    {
        assert(all[i as int] == ids@[i as int]@);
        assert(all.contains(all[i as int]));
        if let Some(s) = sandboxes.get(ids[i].as_str()) {
            let found = if volume {
                same_text(s.volume_name.as_str(), name)
            } else {
                same_text(s.container_id.as_str(), name)
            };
            if found {
                assert(m.contains_key(all[i as int]));
                return true;
            }
        }
        i += 1;
    }
    assert forall|k: Seq<char>| #[trigger] m.contains_key(k) implies if volume {
        m[k].volume_name != name@
    } else {
        m[k].container_id != name@
    } by {
        assert(all.contains(k));
        let p = choose|p: int| 0 <= p < all.len() && all[p] == k;
        assert(m[all[p]] == m[k]);
    }
    false
}

/// Stop and remove the containers that belong to no known sandbox. An entry
/// without an id is passed over.
pub fn cleanup_containers(sandboxes: &Registry, ids: &Vec<Option<String>>) -> (r: Vec<
    DockerAction,
>)
    ensures
        docker::actions(r@) == orphan_containers(sandboxes@, ids@),
{
    let mut out: Vec<DockerAction> = Vec::new();
    let mut i: usize = 0;
    assert(ids@.take(0) =~= Seq::empty());
    assert(docker::actions(out@) =~= Seq::empty());
    while i < ids.len()
        invariant
            i <= ids.len(),
            docker::actions(out@) == orphan_containers(sandboxes@, ids@.take(i as int)),
        decreases ids.len() - i,
    {
        let ghost before = docker::actions(out@);
        let ghost next = ids@.take(i + 1);
        assert(next.drop_last() =~= ids@.take(i as int));
        assert(next.last() == ids@[i as int]);
        if let Some(id) = &ids[i] {
            if !id.as_str().is_empty() && !is_known(sandboxes, id.as_str(), false) {
                out.push(
                    DockerAction::StopContainer {
                        id: id.clone(),
                        timeout_secs: ORPHAN_GRACE_SECS,
                    },
                );
                out.push(DockerAction::RemoveContainer { id: id.clone() });
            }
        }
        assert(docker::actions(out@) =~= before + orphan_container(sandboxes@, ids@[i as int]));
        i += 1;
    }
    assert(ids@.take(i as int) =~= ids@);
    out
}

/// Remove the volumes that belong to no known sandbox.
pub fn cleanup_volumes(sandboxes: &Registry, names: &Vec<String>) -> (r: Vec<DockerAction>)
    ensures
        docker::actions(r@) == orphan_volumes(sandboxes@, text::texts(names@)),
{
    let mut out: Vec<DockerAction> = Vec::new();
    let ghost all = text::texts(names@);
    let mut i: usize = 0;
    assert(all.take(0) =~= Seq::empty());
    assert(docker::actions(out@) =~= Seq::empty());
    while i < names.len()
        invariant
            i <= names.len(),
            all == text::texts(names@),
            docker::actions(out@) == orphan_volumes(sandboxes@, all.take(i as int)),
        decreases names.len() - i,
    {
        let ghost before = docker::actions(out@);
        let ghost next = all.take(i + 1);
        assert(next.drop_last() =~= all.take(i as int));
        assert(next.last() == names@[i as int]@);
        if !is_known(sandboxes, names[i].as_str(), true) {
            out.push(DockerAction::RemoveVolume { name: names[i].clone() });
            assert(docker::actions(out@) =~= before.push(
                ActionView::RemoveVolume { name: names@[i as int]@ },
            ));
        }
        i += 1;
    }
    assert(all.take(i as int) =~= all);
    out
}

// ---------------------------------------------------------------------------
// Laws
// ---------------------------------------------------------------------------

/// Reaping a container keeps every sandbox with its volume, and asks for no
/// volume to be removed.
pub proof fn reaping_keeps_volumes(
    m: Map<Seq<char>, SandboxView>,
    id: Seq<char>,
    container_id: Seq<char>,
    target: SandboxState,
    now: int,
)
    requires
        registry::consistent(m),
    ensures
        registry::consistent(reaped(m, id, target, now)),
        reaped(m, id, target, now).dom() == m.dom(),
        forall|k: Seq<char>| #[trigger]
            m.contains_key(k) ==> reaped(m, id, target, now)[k].volume_name == m[k].volume_name,
        pool::keeps_volumes(reaping(container_id, target)),
{
    assert(reaped(m, id, target, now).dom() =~= m.dom());
}

/// A running sandbox whose time is up ends in `Timeout`, one whose container has
/// crashed in `Defunct`, and a sandbox in neither position is not touched by
/// reaping.
pub proof fn reaping_ends_running_sandboxes(
    m: Map<Seq<char>, SandboxView>,
    id: Seq<char>,
    target: SandboxState,
    now: int,
)
    requires
        m.contains_key(id),
        target == SandboxState::Timeout || target == SandboxState::Defunct,
    ensures
        m[id].state == SandboxState::Running ==> reaped(m, id, target, now)[id] == m[id].moved(
            target,
            now,
        ) && stopped(reaped(m, id, target, now)[id]),
        m[id].state != SandboxState::Running ==> reaped(m, id, target, now) == m,
{
    sandbox::running_comes_after_starting(m[id].state);
}

/// The sandboxes after a series of containers has been reaped at `now`.
pub open spec fn reaped_all(
    m: Map<Seq<char>, SandboxView>,
    doomed: Seq<Doomed>,
    now: int,
) -> Map<Seq<char>, SandboxView>
    decreases doomed.len(),
{
    if doomed.len() == 0 {
        m
    } else {
        reaped(
            reaped_all(m, doomed.drop_last(), now),
            doomed.last().id@,
            doomed.last().target,
            now,
        )
    }
}

/// Whether every verdict ends in `Timeout` or `Defunct`, as judgement has it.
pub open spec fn sound_verdicts(doomed: Seq<Doomed>) -> bool {
    forall|i: int|
        #![trigger doomed[i]]
        0 <= i < doomed.len() ==> doomed[i].target == SandboxState::Timeout || doomed[i].target
            == SandboxState::Defunct
}

proof fn lemma_reaped_all(
    m: Map<Seq<char>, SandboxView>,
    doomed: Seq<Doomed>,
    now: int,
    k: Seq<char>,
)
    requires
        sound_verdicts(doomed),
    ensures
        reaped_all(m, doomed, now).dom() == m.dom(),
        m.contains_key(k) && m[k].state != SandboxState::Running ==> reaped_all(
            m,
            doomed,
            now,
        )[k] == m[k],
        m.contains_key(k) && m[k].state == SandboxState::Running ==> {
            let s = reaped_all(m, doomed, now)[k];
            let hit = exists|i: int| 0 <= i < doomed.len() && #[trigger] doomed[i].id@ == k;
            &&& hit ==> stopped(s)
            &&& !hit ==> s == m[k]
        },
    decreases doomed.len(),
{
    if doomed.len() > 0 {
        let front = doomed.drop_last();
        let last = doomed.last();
        assert forall|i: int| 0 <= i < front.len() implies front[i].target
            == SandboxState::Timeout || front[i].target == SandboxState::Defunct by {
            assert(front[i] == doomed[i]);
        }
        lemma_reaped_all(m, front, now, k);
        let mid = reaped_all(m, front, now);
        assert(last == doomed[doomed.len() - 1]);
        if mid.contains_key(last.id@) {
            reaping_ends_running_sandboxes(mid, last.id@, last.target, now);
        }
        assert(reaped_all(m, doomed, now).dom() =~= m.dom());
        if m.contains_key(k) && m[k].state == SandboxState::Running {
            if exists|i: int| 0 <= i < front.len() && #[trigger] front[i].id@ == k {
                let i = choose|i: int| 0 <= i < front.len() && #[trigger] front[i].id@ == k;
                assert(doomed[i].id@ == k);
            }
            if last.id@ == k {
                assert(doomed[doomed.len() - 1].id@ == k);
            } else if exists|i: int| 0 <= i < doomed.len() && #[trigger] doomed[i].id@ == k {
                let i = choose|i: int| 0 <= i < doomed.len() && #[trigger] doomed[i].id@ == k;
                assert(front[i].id@ == k);
            }
        }
    }
}

/// After a sweep no sandbox runs that was due when the sweep looked, every other
/// sandbox that was not judged is as it was, and none is lost.
pub proof fn sweep_stops_what_is_due(
    m: Map<Seq<char>, SandboxView>,
    suspects: Seq<Suspect>,
    doomed: Seq<Doomed>,
    idle_timeout: u64,
    seen: int,
    now: int,
    k: Seq<char>,
)
    requires
        surveys(suspects, m, idle_timeout, seen),
        sound_verdicts(doomed),
        forall|i: int|
            #![trigger suspects[i]]
            0 <= i < suspects.len() && suspects[i].due ==> exists|j: int|
                0 <= j < doomed.len() && #[trigger] doomed[j].id@ == suspects[i].id@,
        m.contains_key(k),
    ensures
        reaped_all(m, doomed, now).contains_key(k),
        m[k].state == SandboxState::Running && is_due(m[k], idle_timeout, seen) ==> stopped(
            reaped_all(m, doomed, now)[k],
        ),
        m[k].state != SandboxState::Running ==> reaped_all(m, doomed, now)[k] == m[k],
        (forall|j: int| 0 <= j < doomed.len() ==> #[trigger] doomed[j].id@ != k) ==> reaped_all(
            m,
            doomed,
            now,
        )[k] == m[k],
{
    lemma_reaped_all(m, doomed, now, k);
    if m[k].state == SandboxState::Running && is_due(m[k], idle_timeout, seen) {
        let i = choose|i: int| 0 <= i < suspects.len() && #[trigger] suspects[i].id@ == k;
        assert(suspects[i].due);
    }
}

/// The sandboxes after a series of overdue ones has been forgotten.
pub open spec fn forgotten_all(
    m: Map<Seq<char>, SandboxView>,
    overdue: Seq<Overdue>,
) -> Map<Seq<char>, SandboxView>
    decreases overdue.len(),
{
    if overdue.len() == 0 {
        m
    } else {
        let mid = forgotten_all(m, overdue.drop_last());
        let id = overdue.last().id@;
        if mid.contains_key(id) && stopped(mid[id]) {
            mid.remove(id)
        } else {
            mid
        }
    }
}

proof fn lemma_forgotten_all(
    m: Map<Seq<char>, SandboxView>,
    overdue: Seq<Overdue>,
    k: Seq<char>,
)
    requires
        m.contains_key(k),
    ensures
        ({
            let after = forgotten_all(m, overdue);
            let listed = exists|i: int| 0 <= i < overdue.len() && #[trigger] overdue[i].id@ == k;
            &&& after.contains_key(k) <==> !(listed && stopped(m[k]))
            &&& after.contains_key(k) ==> after[k] == m[k]
        }),
    decreases overdue.len(),
{
    if overdue.len() > 0 {
        let front = overdue.drop_last();
        lemma_forgotten_all(m, front, k);
        if exists|i: int| 0 <= i < front.len() && #[trigger] front[i].id@ == k {
            let i = choose|i: int| 0 <= i < front.len() && #[trigger] front[i].id@ == k;
            assert(overdue[i].id@ == k);
        }
        if overdue.last().id@ == k {
            assert(overdue[overdue.len() - 1].id@ == k);
        } else if exists|i: int| 0 <= i < overdue.len() && #[trigger] overdue[i].id@ == k {
            let i = choose|i: int| 0 <= i < overdue.len() && #[trigger] overdue[i].id@ == k;
            assert(front[i].id@ == k);
        }
    }
}

/// Forgetting what is overdue leaves exactly the sandboxes that are not, as they
/// were.
pub proof fn overdue_sandboxes_are_forgotten(
    m: Map<Seq<char>, SandboxView>,
    overdue: Seq<Overdue>,
    volume_ttl: u64,
    now: int,
    k: Seq<char>,
)
    requires
        lists_overdue(overdue, m, volume_ttl, now),
        m.contains_key(k),
    ensures
        forgotten_all(m, overdue).contains_key(k) <==> !is_overdue(m[k], volume_ttl, now),
        forgotten_all(m, overdue).contains_key(k) ==> forgotten_all(m, overdue)[k] == m[k],
{
    lemma_forgotten_all(m, overdue, k);
    if exists|i: int| 0 <= i < overdue.len() && #[trigger] overdue[i].id@ == k {
        let i = choose|i: int| 0 <= i < overdue.len() && #[trigger] overdue[i].id@ == k;
        assert(is_overdue(m[overdue[i].id@], volume_ttl, now));
    }
}

/// A sandbox that is being resumed is safe from being forgotten.
pub proof fn resuming_sandbox_is_not_forgotten(s: SandboxView, now: int)
    ensures
        !stopped(pool::resuming(s, now)),
        !stopped(pool::resuming(s, now).moved(SandboxState::Running, now)),
{
}

/// A stopped sandbox in which nothing happens becomes overdue and stays so: no
/// volume is kept for ever.
pub proof fn stopped_sandboxes_become_overdue(s: SandboxView, volume_ttl: u64, now: int)
    requires
        stopped(s),
        now >= s.last_activity + volume_ttl * 1_000_000_000,
    ensures
        is_overdue(s, volume_ttl, now),
{
    assert((now - s.last_activity) / 1_000_000_000 >= volume_ttl) by (nonlinear_arith)
        requires
            now - s.last_activity >= volume_ttl * 1_000_000_000,
    ;
}

/// Cleaning up after an earlier run never asks for anything to be done to a
/// container of a known sandbox.
pub proof fn known_containers_are_spared(
    m: Map<Seq<char>, SandboxView>,
    ids: Seq<Option<String>>,
    i: int,
)
    requires
        0 <= i < orphan_containers(m, ids).len(),
    ensures
        match orphan_containers(m, ids)[i] {
            ActionView::StopContainer { id, .. } => !tracks_container(m, id),
            ActionView::RemoveContainer { id } => !tracks_container(m, id),
            ActionView::RemoveVolume { .. } => false,
        },
    decreases ids.len(),
{
    let front = orphan_containers(m, ids.drop_last());
    if i < front.len() {
        known_containers_are_spared(m, ids.drop_last(), i);
    }
}

/// Cleaning up after an earlier run never asks for the volume of a known sandbox
/// to be removed, and asks for every other one.
pub proof fn known_volumes_are_spared(
    m: Map<Seq<char>, SandboxView>,
    names: Seq<Seq<char>>,
    name: Seq<char>,
)
    ensures
        orphan_volumes(m, names).contains(ActionView::RemoveVolume { name })
            <==> names.contains(name) && !tracks_volume(m, name),
    decreases names.len(),
{
    let gone = ActionView::RemoveVolume { name };
    if names.len() > 0 {
        let front = names.drop_last();
        let last = names.last();
        known_volumes_are_spared(m, front, name);
        let before = orphan_volumes(m, front);
        let after = orphan_volumes(m, names);
        assert(names =~= front.push(last));
        if before.contains(gone) {
            let p = choose|p: int| 0 <= p < before.len() && before[p] == gone;
            assert(after[p] == gone);
        }
        if names.contains(name) && name != last {
            let p = choose|p: int| 0 <= p < names.len() && names[p] == name;
            assert(front[p] == name);
        }
        if front.contains(name) {
            let p = choose|p: int| 0 <= p < front.len() && front[p] == name;
            assert(names[p] == name);
        }
        if name == last {
            assert(names[names.len() - 1] == name);
            if !tracks_volume(m, last) {
                assert(after.last() == gone);
                assert(after[after.len() - 1] == gone);
            }
        }
        if after.contains(gone) && !before.contains(gone) {
            let p = choose|p: int| 0 <= p < after.len() && after[p] == gone;
            if p < before.len() {
                assert(before[p] == gone);
            }
        }
    }
}

// ---------------------------------------------------------------------------
// What is done, in terms of times and states
// ---------------------------------------------------------------------------

/// At any time from its last activity on, a stopped sandbox is overdue exactly when
/// so many seconds have passed since as its volume is kept; one that is not stopped
/// never is. Activity that lies in the future is as far back as the clock reads it.
pub proof fn volumes_are_kept_for_exactly_their_time(s: SandboxView, volume_ttl: u64, now: int)
    ensures
        s.last_activity <= now ==> (is_overdue(s, volume_ttl, now) <==> (s.state is Completed
            || s.state is Failed || s.state is Timeout || s.state is Defunct) && now
            - s.last_activity >= volume_ttl * 1_000_000_000),
        s.last_activity > now ==> (is_overdue(s, volume_ttl, now) <==> (s.state is Completed
            || s.state is Failed || s.state is Timeout || s.state is Defunct) && clock::has_reached(
            now,
            s.last_activity,
            volume_ttl,
        )),
        s.state is Pending || s.state is Starting || s.state is Running ==> !is_overdue(
            s,
            volume_ttl,
            now,
        ),
        stopped(s) <==> s.state is Completed || s.state is Failed || s.state is Timeout
            || s.state is Defunct,
{
    clock::deadlines_are_exact(now, s.last_activity, volume_ttl);
}

/// Less than its time after its last activity, a sandbox is not listed for removal,
/// stopped or not, and is still there as it was when all that are listed have been
/// forgotten. One that has been stopped for its time is listed, with its container
/// and its volume, and is gone then.
pub proof fn only_what_has_had_its_time_is_forgotten(
    m: Map<Seq<char>, SandboxView>,
    overdue: Seq<Overdue>,
    volume_ttl: u64,
    now: int,
    k: Seq<char>,
)
    requires
        lists_overdue(overdue, m, volume_ttl, now),
        m.contains_key(k),
        m[k].last_activity <= now,
    ensures
        now - m[k].last_activity < volume_ttl * 1_000_000_000 ==> {
            &&& forall|i: int| 0 <= i < overdue.len() ==> (#[trigger] overdue[i]).id@ != k
            &&& forgotten_all(m, overdue).contains_key(k)
            &&& forgotten_all(m, overdue)[k] == m[k]
        },
        now - m[k].last_activity >= volume_ttl * 1_000_000_000 && (m[k].state is Completed
            || m[k].state is Failed || m[k].state is Timeout || m[k].state is Defunct) ==> {
            &&& exists|i: int|
                0 <= i < overdue.len() && (#[trigger] overdue[i]).id@ == k
                    && overdue[i].container_id@ == m[k].container_id && overdue[i].volume_name@
                    == m[k].volume_name
            &&& !forgotten_all(m, overdue).contains_key(k)
        },
        m[k].state is Pending || m[k].state is Starting || m[k].state is Running ==> forgotten_all(
            m,
            overdue,
        ).contains_key(k),
{
    volumes_are_kept_for_exactly_their_time(m[k], volume_ttl, now);
    overdue_sandboxes_are_forgotten(m, overdue, volume_ttl, now, k);
    if !is_overdue(m[k], volume_ttl, now) {
        assert forall|i: int| 0 <= i < overdue.len() implies (#[trigger] overdue[i]).id@ != k by {
            assert(is_overdue(m[overdue[i].id@], volume_ttl, now));
        }
    } else {
        let i = choose|i: int| 0 <= i < overdue.len() && #[trigger] overdue[i].id@ == k;
        assert(m[overdue[i].id@].volume_name == overdue[i].volume_name@);
    }
}

/// What is listed for removal is there, is listed once, and is listed with its own
/// container and volume.
pub proof fn listed_sandboxes_are_told_as_they_are(
    overdue: Seq<Overdue>,
    m: Map<Seq<char>, SandboxView>,
    volume_ttl: u64,
    now: int,
    i: int,
    j: int,
)
    requires
        lists_overdue(overdue, m, volume_ttl, now),
        0 <= i < overdue.len(),
        0 <= j < overdue.len(),
    ensures
        m.contains_key(overdue[i].id@),
        overdue[i].container_id@ == m[overdue[i].id@].container_id,
        overdue[i].volume_name@ == m[overdue[i].id@].volume_name,
        i != j ==> overdue[i].id@ != overdue[j].id@,
{
    assert(overdue[i].id@ == overdue[i].id@ && overdue[j].id@ == overdue[j].id@);
}

/// A released volume is kept for its whole time: a running sandbox that is released
/// at `now` is last active then, and so is not overdue before its volume has been
/// kept for that time.
pub proof fn a_released_volume_is_kept_for_its_time(
    before: pool::PoolView,
    after: pool::PoolView,
    id: Seq<char>,
    r: Result<Vec<DockerAction>, DenError>,
    now: int,
    later: int,
    volume_ttl: u64,
)
    requires
        before.valid(),
        before.sandboxes.contains_key(id),
        before.sandboxes[id].state is Running,
        pool::release_outcome(before, after, id, r, now),
        now <= later,
    ensures
        after.sandboxes[id].last_activity == now,
        is_overdue(after.sandboxes[id], volume_ttl, later) <==> later - now >= volume_ttl
            * 1_000_000_000,
{
    pool::what_a_release_does(before, after, id, r, now);
    volumes_are_kept_for_exactly_their_time(after.sandboxes[id], volume_ttl, later);
}

/// So is the volume of a sandbox whose container was reaped at `now`.
pub proof fn a_reaped_volume_is_kept_for_its_time(
    m: Map<Seq<char>, SandboxView>,
    id: Seq<char>,
    target: SandboxState,
    now: int,
    later: int,
    volume_ttl: u64,
)
    requires
        m.contains_key(id),
        m[id].state is Running,
        target is Timeout || target is Defunct,
        now <= later,
    ensures
        reaped(m, id, target, now)[id].last_activity == now,
        is_overdue(reaped(m, id, target, now)[id], volume_ttl, later) <==> later - now >= volume_ttl
            * 1_000_000_000,
{
    reaping_ends_running_sandboxes(m, id, target, now);
    volumes_are_kept_for_exactly_their_time(reaped(m, id, target, now)[id], volume_ttl, later);
}

/// A running sandbox is due exactly when it has run for its time or nothing has
/// happened in it for the idle timeout.
pub proof fn sandboxes_are_due_at_exactly_their_time(s: SandboxView, idle_timeout: u64, now: int)
    ensures
        is_due(s, idle_timeout, now) <==> s.expired_at(now) || s.idle_at(now, idle_timeout),
        s.last_activity <= now && (s.started_at is Some ==> s.started_at->0 <= now) ==> (is_due(
            s,
            idle_timeout,
            now,
        ) <==> {
            ||| s.started_at is Some && now - s.started_at->0 >= s.timeout_secs * 1_000_000_000
            ||| now - s.last_activity >= idle_timeout * 1_000_000_000
        }),
{
    sandbox::expiry_and_idleness_are_exact(s, now, idle_timeout);
    clock::deadlines_are_exact(now, s.last_activity, idle_timeout);
    if s.started_at is Some {
        clock::deadlines_are_exact(now, s.started_at->0, s.timeout_secs);
    }
}

/// A survey tells of exactly the running sandboxes, of each once, with its container
/// and whether it is due.
pub proof fn a_survey_tells_of_the_running(
    suspects: Seq<Suspect>,
    m: Map<Seq<char>, SandboxView>,
    idle_timeout: u64,
    now: int,
    k: Seq<char>,
    i: int,
    j: int,
)
    requires
        surveys(suspects, m, idle_timeout, now),
        0 <= i < suspects.len(),
        0 <= j < suspects.len(),
    ensures
        m.contains_key(k) && m[k].state is Running <==> exists|p: int|
            0 <= p < suspects.len() && #[trigger] suspects[p].id@ == k,
        suspects[i].id@ == k ==> suspects[i].container_id@ == m[k].container_id && suspects[i].due
            == is_due(m[k], idle_timeout, now),
        i != j ==> suspects[i].id@ != suspects[j].id@,
{
    assert(suspects[i].id@ == suspects[i].id@ && suspects[j].id@ == suspects[j].id@);
    if exists|p: int| 0 <= p < suspects.len() && #[trigger] suspects[p].id@ == k {
        let p = choose|p: int| 0 <= p < suspects.len() && #[trigger] suspects[p].id@ == k;
        assert(m[suspects[p].id@].state == SandboxState::Running);
    }
}

/// Reaping a running sandbox moves it to its end at `now` and changes nothing else
/// about it or about any other sandbox.
pub proof fn reaping_changes_only_this(
    m: Map<Seq<char>, SandboxView>,
    id: Seq<char>,
    target: SandboxState,
    now: int,
)
    requires
        m.contains_key(id),
        target is Timeout || target is Defunct,
    ensures
        reaped(m, id, target, now).remove(id) == m.remove(id),
        m[id].state is Running ==> reaped(m, id, target, now)[id] == (SandboxView {
            state: target,
            last_activity: now,
            ..m[id]
        }),
        !(m[id].state is Running) ==> reaped(m, id, target, now) == m,
{
    reaping_ends_running_sandboxes(m, id, target, now);
    assert(reaped(m, id, target, now).remove(id) =~= m.remove(id));
}

/// A container whose time is up is stopped, with five seconds of grace, and removed;
/// one that has crashed is only removed. Forgetting removes the container, then the
/// volume.
pub proof fn what_reaping_asks_for(container_id: Seq<char>, volume_name: Seq<char>)
    ensures
        reaping(container_id, SandboxState::Timeout) == seq![
            ActionView::StopContainer { id: container_id, timeout_secs: 5 },
            ActionView::RemoveContainer { id: container_id },
        ],
        reaping(container_id, SandboxState::Defunct) == seq![
            ActionView::RemoveContainer { id: container_id },
        ],
        clearing(container_id, volume_name) == seq![
            ActionView::RemoveContainer { id: container_id },
            ActionView::RemoveVolume { name: volume_name },
        ],
{
}

/// Cleaning up goes through the labelled containers in their order: an unknown one is
/// stopped, with two seconds of grace, and removed, one of a known sandbox and one
/// without an id are passed over.
pub proof fn every_unknown_container_is_removed(
    m: Map<Seq<char>, SandboxView>,
    ids: Seq<Option<String>>,
    next: Option<String>,
)
    ensures
        orphan_containers(m, Seq::empty()).len() == 0,
        orphan_containers(m, ids.push(next)) == orphan_containers(m, ids) + if next is Some
            && next->0@.len() > 0 && !exists|k: Seq<char>| #[trigger]
            m.contains_key(k) && m[k].container_id == next->0@ {
            seq![
                ActionView::StopContainer { id: next->0@, timeout_secs: 2 },
                ActionView::RemoveContainer { id: next->0@ },
            ]
        } else {
            Seq::empty()
        },
{
    assert(ids.push(next).drop_last() =~= ids);
    if next is Some {
        assert(docker::stop_and_remove(next->0@, 2) =~= seq![
            ActionView::StopContainer { id: next->0@, timeout_secs: 2 },
            ActionView::RemoveContainer { id: next->0@ },
        ]);
    }
}

/// It goes through the labelled volumes in their order and removes each that is of no
/// known sandbox.
pub proof fn every_unknown_volume_is_removed(
    m: Map<Seq<char>, SandboxView>,
    names: Seq<Seq<char>>,
    next: Seq<char>,
)
    ensures
        orphan_volumes(m, Seq::empty()).len() == 0,
        orphan_volumes(m, names.push(next)) == orphan_volumes(m, names) + if exists|k: Seq<char>|
            #[trigger]
            m.contains_key(k) && m[k].volume_name == next {
            Seq::empty()
        } else {
            seq![ActionView::RemoveVolume { name: next }]
        },
{
    assert(names.push(next).drop_last() =~= names);
    assert(tracks_volume(m, next) <==> exists|k: Seq<char>| #[trigger]
        m.contains_key(k) && m[k].volume_name == next);
    assert(orphan_volumes(m, names) + Seq::<ActionView>::empty() =~= orphan_volumes(m, names));
    assert(orphan_volumes(m, names) + seq![ActionView::RemoveVolume { name: next }]
        =~= orphan_volumes(m, names).push(ActionView::RemoveVolume { name: next }));
}

// ---------------------------------------------------------------------------
// Laws on the operations
// ---------------------------------------------------------------------------

/// What is listed as overdue are just the stopped sandboxes that have been without
/// activity for as long as volumes are kept. Activity that lies in the future is left
/// out here.
pub proof fn overdue_is_what_has_had_its_time(
    reaper: &Reaper,
    sandboxes: &Registry,
    now: &Timestamp,
    r: Vec<Overdue>,
    k: Seq<char>,
)
    requires
        call_ensures(Reaper::overdue, (reaper, sandboxes, now), r),
        sandboxes@.contains_key(k),
        sandboxes@[k].last_activity <= now@,
    ensures
        (exists|i: int| 0 <= i < r@.len() && (#[trigger] r@[i]).id@ == k) <==> {
            let s = sandboxes@[k];
            &&& s.state is Completed || s.state is Failed || s.state is Timeout || s.state is Defunct
            &&& now@ - s.last_activity >= reaper.config.reaper.volume_ttl_secs * 1_000_000_000
        },
{
    let ttl = reaper.config.reaper.volume_ttl_secs;
    volumes_are_kept_for_exactly_their_time(sandboxes@[k], ttl, now@);
    if exists|i: int| 0 <= i < r@.len() && (#[trigger] r@[i]).id@ == k {
        let i = choose|i: int| 0 <= i < r@.len() && (#[trigger] r@[i]).id@ == k;
        assert(is_overdue(sandboxes@[r@[i].id@], ttl, now@));
    }
}

/// What is listed is there, and is told with its own container and volume.
pub proof fn overdue_is_told_as_it_is(
    reaper: &Reaper,
    sandboxes: &Registry,
    now: &Timestamp,
    r: Vec<Overdue>,
    i: int,
    j: int,
)
    requires
        call_ensures(Reaper::overdue, (reaper, sandboxes, now), r),
        0 <= i < r@.len(),
        0 <= j < r@.len(),
        i != j,
    ensures
        sandboxes@.contains_key(r@[i].id@),
        r@[i].container_id@ == sandboxes@[r@[i].id@].container_id,
        r@[i].volume_name@ == sandboxes@[r@[i].id@].volume_name,
        r@[i].id@ != r@[j].id@,
{
    listed_sandboxes_are_told_as_they_are(
        r@,
        sandboxes@,
        reaper.config.reaper.volume_ttl_secs,
        now@,
        i,
        j,
    );
}

/// A sandbox that ran, was released at `now` and has been left alone since is not
/// listed as overdue before its volume has been kept for its whole time.
pub proof fn released_sandboxes_keep_their_volume(
    pool: &mut pool::Pool,
    id: &str,
    now: Timestamp,
    released: Result<Vec<DockerAction>, DenError>,
    reaper: &Reaper,
    sandboxes: &Registry,
    later: &Timestamp,
    r: Vec<Overdue>,
)
    requires
        old(pool)@.valid(),
        old(pool)@.sandboxes.contains_key(id@),
        old(pool)@.sandboxes[id@].state is Running,
        call_ensures(pool::Pool::release_at, (pool, id, now), released),
        sandboxes@ == final(pool)@.sandboxes,
        now@ <= later@,
        call_ensures(Reaper::overdue, (reaper, sandboxes, later), r),
    ensures
        (exists|i: int| 0 <= i < r@.len() && (#[trigger] r@[i]).id@ == id@) <==> later@ - now@
            >= reaper.config.reaper.volume_ttl_secs * 1_000_000_000,
{
    pool::releasing_completes_the_sandbox(pool, id, now, released);
    overdue_is_what_has_had_its_time(reaper, sandboxes, later, r, id@);
}

/// A survey tells of just the running sandboxes, each with its container, and calls
/// those due that have run for their time or been idle for the idle timeout.
pub proof fn a_survey_tells_what_is_due(
    reaper: &Reaper,
    sandboxes: &Registry,
    now: &Timestamp,
    r: Vec<Suspect>,
    k: Seq<char>,
)
    requires
        call_ensures(Reaper::survey, (reaper, sandboxes, now), r),
        sandboxes@.contains_key(k),
        sandboxes@[k].last_activity <= now@,
        sandboxes@[k].started_at is Some ==> sandboxes@[k].started_at->0 <= now@,
    ensures
        (exists|i: int| 0 <= i < r@.len() && (#[trigger] r@[i]).id@ == k)
            <==> sandboxes@[k].state is Running,
        forall|i: int|
            0 <= i < r@.len() && (#[trigger] r@[i]).id@ == k ==> {
                let s = sandboxes@[k];
                &&& r@[i].container_id@ == s.container_id
                &&& r@[i].due <==> {
                    ||| s.started_at is Some && now@ - s.started_at->0 >= s.timeout_secs
                        * 1_000_000_000
                    ||| now@ - s.last_activity >= reaper.config.reaper.idle_timeout_secs
                        * 1_000_000_000
                }
            },
{
    let idle = reaper.config.reaper.idle_timeout_secs;
    sandboxes_are_due_at_exactly_their_time(sandboxes@[k], idle, now@);
    if exists|i: int| 0 <= i < r@.len() && (#[trigger] r@[i]).id@ == k {
        let i = choose|i: int| 0 <= i < r@.len() && (#[trigger] r@[i]).id@ == k;
        assert(sandboxes@[r@[i].id@].state == SandboxState::Running);
    }
}

/// A sandbox whose time is up ends in `Timeout`, whatever Docker says; one whose
/// container does not run any more ends in `Defunct`; any other goes on.
pub proof fn how_running_sandboxes_are_judged(
    suspect: Suspect,
    running: Result<bool, DenError>,
    r: Option<Doomed>,
)
    requires
        call_ensures(Reaper::judge, (suspect, running), r),
    ensures
        suspect.due ==> r is Some && r->0.target is Timeout,
        !suspect.due && running is Ok && !running->Ok_0 ==> r is Some && r->0.target is Defunct,
        !suspect.due && (running is Err || running->Ok_0) ==> r is None,
        r is Some ==> r->0.id@ == suspect.id@ && r->0.container_id@ == suspect.container_id@,
{
}

/// Reaping moves a running sandbox to the end that it was judged to come to, at `now`,
/// and leaves every other as it is; a container whose time is up is stopped and
/// removed, one that has crashed is removed.
pub proof fn reaping_ends_the_sandbox(
    sandboxes: &mut Registry,
    doomed: &Doomed,
    now: Timestamp,
    r: Vec<DockerAction>,
)
    requires
        old(sandboxes)@.contains_key(doomed.id@),
        doomed.target is Timeout || doomed.target is Defunct,
        call_ensures(Reaper::reap, (sandboxes, doomed, now), r),
    ensures
        old(sandboxes)@[doomed.id@].state is Running ==> final(sandboxes)@ == old(
            sandboxes,
        )@.insert(
            doomed.id@,
            SandboxView {
                state: doomed.target,
                last_activity: now@,
                ..old(sandboxes)@[doomed.id@]
            },
        ),
        !(old(sandboxes)@[doomed.id@].state is Running) ==> final(sandboxes)@ == old(sandboxes)@,
        doomed.target is Timeout ==> r@.len() == 2 && r@[0]@ == (ActionView::StopContainer {
            id: doomed.container_id@,
            timeout_secs: 5,
        }) && r@[1]@ == (ActionView::RemoveContainer { id: doomed.container_id@ }),
        doomed.target is Defunct ==> r@.len() == 1 && r@[0]@ == (ActionView::RemoveContainer {
            id: doomed.container_id@,
        }),
{
    reaping_changes_only_this(old(sandboxes)@, doomed.id@, doomed.target, now@);
    let a = docker::actions(r@);
    assert(a.len() == r@.len());
    if doomed.target is Timeout {
        assert(a.len() == 2);
        assert(a[0] == r@[0]@ && a[1] == r@[1]@);
    } else {
        assert(a.len() == 1);
        assert(a[0] == r@[0]@);
    }
}

/// Forgetting takes away a sandbox that is still stopped, with what is left of its
/// container and its volume, and leaves any other alone.
pub proof fn forgetting_takes_away_what_is_stopped(
    sandboxes: &mut Registry,
    overdue: &Overdue,
    r: Option<Vec<DockerAction>>,
)
    requires
        call_ensures(Reaper::forget, (sandboxes, overdue), r),
    ensures
        r is Some <==> old(sandboxes)@.contains_key(overdue.id@) && {
            let state = old(sandboxes)@[overdue.id@].state;
            state is Completed || state is Failed || state is Timeout || state is Defunct
        },
        r is None ==> final(sandboxes)@ == old(sandboxes)@,
        r is Some ==> {
            &&& final(sandboxes)@ == old(sandboxes)@.remove(overdue.id@)
            &&& r->0@.len() == 2
            &&& r->0@[0]@ == (ActionView::RemoveContainer { id: overdue.container_id@ })
            &&& r->0@[1]@ == (ActionView::RemoveVolume { name: overdue.volume_name@ })
        },
{
    if r is Some {
        let a = docker::actions(r->0@);
        assert(a.len() == 2);
        assert(a[0] == r->0@[0]@ && a[1] == r->0@[1]@);
    }
}

/// Cleaning up removes each labelled volume that is of no known sandbox, and no other.
pub proof fn cleaning_up_removes_unknown_volumes(
    sandboxes: &Registry,
    names: &Vec<String>,
    r: Vec<DockerAction>,
    name: Seq<char>,
)
    requires
        call_ensures(cleanup_volumes, (sandboxes, names), r),
    ensures
        (exists|i: int|
            0 <= i < r@.len() && (#[trigger] r@[i])@ == (ActionView::RemoveVolume { name })) <==> {
            &&& exists|j: int| 0 <= j < names@.len() && (#[trigger] names@[j])@ == name
            &&& !exists|k: Seq<char>| #[trigger]
                sandboxes@.contains_key(k) && sandboxes@[k].volume_name == name
        },
{
    let a = docker::actions(r@);
    let all = text::texts(names@);
    let gone = ActionView::RemoveVolume { name };
    known_volumes_are_spared(sandboxes@, all, name);
    assert(tracks_volume(sandboxes@, name) <==> exists|k: Seq<char>| #[trigger]
        sandboxes@.contains_key(k) && sandboxes@[k].volume_name == name);
    if a.contains(gone) {
        let i = choose|i: int| 0 <= i < a.len() && a[i] == gone;
        assert(r@[i]@ == gone);
    }
    if exists|i: int| 0 <= i < r@.len() && (#[trigger] r@[i])@ == gone {
        let i = choose|i: int| 0 <= i < r@.len() && (#[trigger] r@[i])@ == gone;
        assert(a[i] == gone);
    }
    if all.contains(name) {
        let j = choose|j: int| 0 <= j < all.len() && all[j] == name;
        assert(names@[j]@ == name);
    }
    if exists|j: int| 0 <= j < names@.len() && (#[trigger] names@[j])@ == name {
        let j = choose|j: int| 0 <= j < names@.len() && (#[trigger] names@[j])@ == name;
        assert(all[j] == name);
    }
}

} // verus!
