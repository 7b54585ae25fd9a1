//! A sandbox and the states it goes through.

use std::collections::HashMap;

use vstd::prelude::*;

#[allow(unused_imports)]
use crate::clock;
use crate::clock::Timestamp;
use crate::error::DenError;
#[allow(unused_imports)]
use crate::error::ErrorView;
#[allow(unused_imports)]
use crate::text;
use crate::text::{copy_texts, join2};

verus! {

#[derive(Debug, Clone, Copy, PartialEq, Eq, Structural)]
pub enum SandboxState {
    Pending,
    Starting,
    Running,
    /// The container died unexpectedly. The sandbox can be resumed, so this
    /// state is not terminal.
    Defunct,
    Completed,
    Failed,
    Timeout,
}

impl SandboxState {
    /// The states that `transition` may move to.
    pub open spec fn successors(self) -> Seq<SandboxState> {
        match self {
            SandboxState::Pending => seq![SandboxState::Starting, SandboxState::Failed],
            SandboxState::Starting => seq![SandboxState::Running, SandboxState::Failed],
            SandboxState::Running => seq![
                SandboxState::Completed,
                SandboxState::Failed,
                SandboxState::Timeout,
                SandboxState::Defunct,
            ],
            _ => seq![],
        }
    }

    /// Whether `transition` may move from this state to `to`.
    pub open spec fn can_become(self, to: SandboxState) -> bool {
        self.successors().contains(to)
    }

    /// Whether the sandbox has reached an end.
    pub open spec fn terminal(self) -> bool {
        self is Completed || self is Failed || self is Timeout
    }

    /// The state's name, as written in code.
    pub open spec fn name_text(self) -> Seq<char> {
        match self {
            SandboxState::Pending => "Pending"@,
            SandboxState::Starting => "Starting"@,
            SandboxState::Running => "Running"@,
            SandboxState::Defunct => "Defunct"@,
            SandboxState::Completed => "Completed"@,
            SandboxState::Failed => "Failed"@,
            SandboxState::Timeout => "Timeout"@,
        }
    }

    /// The state's name in lower case.
    pub open spec fn lower_text(self) -> Seq<char> {
        match self {
            SandboxState::Pending => "pending"@,
            SandboxState::Starting => "starting"@,
            SandboxState::Running => "running"@,
            SandboxState::Defunct => "defunct"@,
            SandboxState::Completed => "completed"@,
            SandboxState::Failed => "failed"@,
            SandboxState::Timeout => "timeout"@,
        }
    }

    /// The states that [`Sandbox::transition`] may move to from this one.
    pub fn valid_transitions(self) -> (r: &'static [SandboxState])
        ensures
            r@ == self.successors(),
    {
        match self {
            SandboxState::Pending => &[SandboxState::Starting, SandboxState::Failed],
            SandboxState::Starting => &[SandboxState::Running, SandboxState::Failed],
            SandboxState::Running => &[
                SandboxState::Completed,
                SandboxState::Failed,
                SandboxState::Timeout,
                SandboxState::Defunct,
            ],
            SandboxState::Defunct => &[],
            SandboxState::Completed => &[],
            SandboxState::Failed => &[],
            SandboxState::Timeout => &[],
        }
    }

    pub fn is_terminal(self) -> (r: bool)
        ensures
            r == self.terminal(),
    {
        match self {
            SandboxState::Completed => true,
            SandboxState::Failed => true,
            SandboxState::Timeout => true,
            _ => false,
        }
    }

    /// Whether the sandbox can accept exec requests.
    pub fn is_usable(self) -> (r: bool)
        ensures
            r == (self == SandboxState::Running),
    {
        self == SandboxState::Running
    }

    pub fn name(self) -> (r: &'static str)
        ensures
            r@ == self.name_text(),
    {
        match self {
            SandboxState::Pending => "Pending",
            SandboxState::Starting => "Starting",
            SandboxState::Running => "Running",
            SandboxState::Defunct => "Defunct",
            SandboxState::Completed => "Completed",
            SandboxState::Failed => "Failed",
            SandboxState::Timeout => "Timeout",
        }
    }

    pub fn lower_name(self) -> (r: &'static str)
        ensures
            r@ == self.lower_text(),
    {
        match self {
            SandboxState::Pending => "pending",
            SandboxState::Starting => "starting",
            SandboxState::Running => "running",
            SandboxState::Defunct => "defunct",
            SandboxState::Completed => "completed",
            SandboxState::Failed => "failed",
            SandboxState::Timeout => "timeout",
        }
    }
}

/// A claimed container with its volume.
#[derive(Debug)]
pub struct Sandbox {
    pub id: String,
    pub container_id: String,
    pub volume_name: String,
    pub tier: String,
    pub state: SandboxState,
    pub created_at: Timestamp,
    pub started_at: Option<Timestamp>,
    pub last_activity: Timestamp,
    pub timeout_secs: u64,
    pub metadata: HashMap<String, String>,
    /// Host bind mounts of a dedicated sandbox, kept so that resuming can
    /// recreate the container with the same mounts.
    pub bind_mounts: Vec<String>,
    /// Most exec requests at once, from the tier at claim time.
    pub max_concurrent_execs: usize,
    /// Exec requests under way.
    pub active_execs: usize,
}

/// The mathematical counterpart of [`Sandbox`], with points in time as
/// nanoseconds since the epoch.
#[verifier::ext_equal]
pub struct SandboxView {
    pub id: Seq<char>,
    pub container_id: Seq<char>,
    pub volume_name: Seq<char>,
    pub tier: Seq<char>,
    pub state: SandboxState,
    pub created_at: int,
    pub started_at: Option<int>,
    pub last_activity: int,
    pub timeout_secs: u64,
    pub metadata: Map<String, String>,
    pub bind_mounts: Seq<Seq<char>>,
    pub max_concurrent_execs: usize,
    pub active_execs: usize,
}

/// The instant that an optional timestamp holds.
pub open spec fn opt_instant(o: Option<Timestamp>) -> Option<int> {
    match o {
        Some(t) => Some(t@),
        None => None,
    }
}

impl View for Sandbox {
    type V = SandboxView;

    open spec fn view(&self) -> SandboxView {
        SandboxView {
            id: self.id@,
            container_id: self.container_id@,
            volume_name: self.volume_name@,
            tier: self.tier@,
            state: self.state,
            created_at: self.created_at@,
            started_at: opt_instant(self.started_at),
            last_activity: self.last_activity@,
            timeout_secs: self.timeout_secs,
            metadata: self.metadata@,
            bind_mounts: text::texts(self.bind_mounts@),
            max_concurrent_execs: self.max_concurrent_execs,
            active_execs: self.active_execs,
        }
    }
}

impl SandboxView {
    /// The sandbox after a permitted move to `to` at `now`.
    pub open spec fn moved(self, to: SandboxState, now: int) -> SandboxView {
        SandboxView {
            state: to,
            last_activity: now,
            started_at: if to == SandboxState::Running {
                Some(now)
            } else {
                self.started_at
            },
            ..self
        }
    }

    /// The sandbox after activity at `now`.
    pub open spec fn touched(self, now: int) -> SandboxView {
        SandboxView { last_activity: now, ..self }
    }

    /// Whether the sandbox has run for its time at `now`.
    pub open spec fn expired_at(self, now: int) -> bool {
        self.started_at is Some && clock::has_reached(now, self.started_at->0, self.timeout_secs)
    }

    /// Whether nothing has happened in the sandbox for `secs` seconds at `now`.
    pub open spec fn idle_at(self, now: int, secs: u64) -> bool {
        clock::has_reached(now, self.last_activity, secs)
    }
}

/// A sandbox as it is made at `now`, before it starts.
pub open spec fn new_sandbox(
    id: Seq<char>,
    container_id: Seq<char>,
    volume_name: Seq<char>,
    tier: Seq<char>,
    timeout_secs: u64,
    metadata: Map<String, String>,
    bind_mounts: Seq<Seq<char>>,
    max_concurrent_execs: usize,
    now: int,
) -> SandboxView {
    SandboxView {
        id,
        container_id,
        volume_name,
        tier,
        state: SandboxState::Pending,
        created_at: now,
        started_at: None,
        last_activity: now,
        timeout_secs,
        metadata,
        bind_mounts,
        max_concurrent_execs,
        active_execs: 0,
    }
}

impl Clone for Sandbox {
    fn clone(&self) -> (r: Self)
        ensures
            r@ == self@,
    {
        Sandbox {
            id: self.id.clone(),
            container_id: self.container_id.clone(),
            volume_name: self.volume_name.clone(),
            tier: self.tier.clone(),
            state: self.state,
            created_at: self.created_at,
            started_at: self.started_at,
            last_activity: self.last_activity,
            timeout_secs: self.timeout_secs,
            metadata: self.metadata.clone(),
            bind_mounts: copy_texts(&self.bind_mounts),
            max_concurrent_execs: self.max_concurrent_execs,
            active_execs: self.active_execs,
        }
    }
}

impl Sandbox {
    /// A sandbox that has not started, made now.
    pub fn new(
        id: String,
        container_id: String,
        volume_name: String,
        tier: String,
        timeout_secs: u64,
        metadata: HashMap<String, String>,
        bind_mounts: Vec<String>,
        max_concurrent_execs: usize,
    ) -> (r: Self)
        ensures
            clock::on_clock(r.created_at@),
            r@ == new_sandbox(
                id@,
                container_id@,
                volume_name@,
                tier@,
                timeout_secs,
                metadata@,
                text::texts(bind_mounts@),
                max_concurrent_execs,
                r.created_at@,
            ),
    {
        Self::new_at(
            id,
            container_id,
            volume_name,
            tier,
            timeout_secs,
            metadata,
            bind_mounts,
            max_concurrent_execs,
            Timestamp::now(),
        )
    }

    /// A sandbox that has not started, made at `now`.
    pub fn new_at(
        id: String,
        container_id: String,
        volume_name: String,
        tier: String,
        timeout_secs: u64,
        metadata: HashMap<String, String>,
        bind_mounts: Vec<String>,
        max_concurrent_execs: usize,
        now: Timestamp,
    ) -> (r: Self)
        ensures
            r.created_at == now,
            r@ == new_sandbox(
                id@,
                container_id@,
                volume_name@,
                tier@,
                timeout_secs,
                metadata@,
                text::texts(bind_mounts@),
                max_concurrent_execs,
                now@,
            ),
    {
        Sandbox {
            id,
            container_id,
            volume_name,
            tier,
            state: SandboxState::Pending,
            created_at: now,
            started_at: None,
            last_activity: now,
            timeout_secs,
            metadata,
            bind_mounts,
            max_concurrent_execs,
            active_execs: 0,
        }
    }

    /// Move to another state, now. A move that the state does not permit is an
    /// error and changes nothing.
    pub fn transition(&mut self, to: SandboxState) -> (r: Result<(), DenError>)
        ensures
            old(self).state.can_become(to) ==> {
                &&& r is Ok
                &&& clock::on_clock(final(self).last_activity@)
                &&& final(self)@ == old(self)@.moved(to, final(self).last_activity@)
            },
            !old(self).state.can_become(to) ==> {
                &&& final(self)@ == old(self)@
                &&& r is Err
                &&& r->Err_0@ == refused_move(old(self)@, to)
            },
    {
        self.transition_at(to, Timestamp::now())
    }

    /// Move to another state at `now`.
    pub fn transition_at(&mut self, to: SandboxState, now: Timestamp) -> (r: Result<(), DenError>)
        ensures
            old(self).state.can_become(to) ==> {
                &&& r is Ok
                &&& final(self).last_activity == now
                &&& final(self)@ == old(self)@.moved(to, now@)
            },
            !old(self).state.can_become(to) ==> {
                &&& final(self)@ == old(self)@
                &&& r is Err
                &&& r->Err_0@ == refused_move(old(self)@, to)
            },
    {
        if permits(self.state, to) {
            self.state = to;
            self.last_activity = now;
            if to == SandboxState::Running {
                self.started_at = Some(now);
            }
            Ok(())
        } else {
            Err(
                DenError::InvalidState {
                    id: self.id.clone(),
                    current: self.state,
                    operation: join2("transition to ", to.name()),
                },
            )
        }
    }

    /// Record activity, now.
    pub fn touch(&mut self)
        ensures
            clock::on_clock(final(self).last_activity@),
            final(self)@ == old(self)@.touched(final(self).last_activity@),
    {
        self.touch_at(Timestamp::now());
    }

    /// Record activity at `now`.
    pub fn touch_at(&mut self, now: Timestamp)
        ensures
            final(self).last_activity == now,
            final(self)@ == old(self)@.touched(now@),
    {
        self.last_activity = now;
    }

    /// Whether the sandbox has run for its time by now. One that has never
    /// started has not.
    pub fn is_expired(&self) -> (r: bool)
        ensures
            exists|now: int| clock::on_clock(now) && r == #[trigger] self@.expired_at(now),
    {
        let now = Timestamp::now();
        let r = self.expired_by(&now);
        assert(clock::on_clock(now@) && r == self@.expired_at(now@));
        r
    }

    /// Whether the sandbox has run for its time at `now`.
    pub fn expired_by(&self, now: &Timestamp) -> (r: bool)
        ensures
            r == self@.expired_at(now@),
    {
        match &self.started_at {
            Some(started) => now.reached(started, self.timeout_secs),
            None => false,
        }
    }

    /// Whether nothing has happened for `idle_timeout_secs` seconds by now.
    pub fn is_idle(&self, idle_timeout_secs: u64) -> (r: bool)
        ensures
            exists|now: int| clock::on_clock(now) && r == #[trigger] self@.idle_at(now, idle_timeout_secs),
    {
        let now = Timestamp::now();
        let r = self.idle_by(&now, idle_timeout_secs);
        assert(clock::on_clock(now@) && r == self@.idle_at(now@, idle_timeout_secs));
        r
    }

    /// Whether nothing has happened for `idle_timeout_secs` seconds at `now`.
    pub fn idle_by(&self, now: &Timestamp, idle_timeout_secs: u64) -> (r: bool)
        ensures
            r == self@.idle_at(now@, idle_timeout_secs),
    {
        now.reached(&self.last_activity, idle_timeout_secs)
    }
}

/// The error of a move that the state of `s` does not permit.
pub open spec fn refused_move(s: SandboxView, to: SandboxState) -> ErrorView {
    ErrorView::InvalidState {
        id: s.id,
        current: s.state,
        operation: "transition to "@ + to.name_text(),
    }
}

fn permits(from: SandboxState, to: SandboxState) -> (r: bool)
    ensures
        r == from.can_become(to),
{
    let allowed = from.valid_transitions();
    let mut i: usize = 0;
    while i < allowed.len()
        invariant
            i <= allowed.len(),
            allowed@ == from.successors(),
            forall|k: int| 0 <= k < i ==> allowed@[k] != to,
        decreases allowed.len() - i,
    {
        if allowed[i] == to {
            assert(allowed@[i as int] == to);
            return true;
        }
        i += 1;
    }
    false
}

/// How far a state is along the life of a sandbox.
pub open spec fn stage(state: SandboxState) -> int {
    match state {
        SandboxState::Pending => 0,
        SandboxState::Starting => 1,
        SandboxState::Running => 2,
        _ => 3,
    }
}

/// Every permitted move leads further along, so that no sequence of moves comes
/// back to where it began and none has more than three.
pub proof fn moves_lead_forward(from: SandboxState, to: SandboxState)
    requires
        from.can_become(to),
    ensures
        0 <= stage(from) < stage(to) <= 3,
{
}

/// No move leaves an ended or a crashed sandbox, and only these two kinds have
/// none to make.
pub proof fn ended_states_are_final(state: SandboxState)
    ensures
        state.terminal() || state is Defunct <==> forall|to: SandboxState| !state.can_become(to),
{
    match state {
        SandboxState::Pending => {
            assert(state.successors()[0] == SandboxState::Starting);
            assert(state.can_become(SandboxState::Starting));
        },
        SandboxState::Starting => {
            assert(state.successors()[0] == SandboxState::Running);
            assert(state.can_become(SandboxState::Running));
        },
        SandboxState::Running => {
            assert(state.successors()[0] == SandboxState::Completed);
            assert(state.can_become(SandboxState::Completed));
        },
        _ => {},
    }
}

/// A sandbox starts to run only from `Starting`, and crashes, completes or times
/// out only while it runs.
pub proof fn running_comes_after_starting(from: SandboxState)
    ensures
        from.can_become(SandboxState::Running) <==> from is Starting,
        from.can_become(SandboxState::Defunct) <==> from is Running,
        from.can_become(SandboxState::Completed) <==> from is Running,
        from.can_become(SandboxState::Timeout) <==> from is Running,
        !from.can_become(SandboxState::Pending),
{
    assert(SandboxState::Starting.successors()[0] == SandboxState::Running);
    assert(SandboxState::Running.successors()[0] == SandboxState::Completed);
    assert(SandboxState::Running.successors()[2] == SandboxState::Timeout);
    assert(SandboxState::Running.successors()[3] == SandboxState::Defunct);
}

/// A sandbox that has just started neither is expired nor idle, unless it was
/// given no time.
pub proof fn fresh_sandbox_is_not_due(s: SandboxView, now: int, secs: u64)
    requires
        s.timeout_secs > 0,
        secs > 0,
    ensures
        !s.moved(SandboxState::Running, now).expired_at(now),
        !s.moved(SandboxState::Running, now).idle_at(now, secs),
{
}

/// These moves are permitted, and no others.
pub proof fn permitted_moves(from: SandboxState, to: SandboxState)
    ensures
        from.can_become(to) <==> {
            ||| from is Pending && (to is Starting || to is Failed)
            ||| from is Starting && (to is Running || to is Failed)
            ||| from is Running && (to is Completed || to is Failed || to is Timeout
                || to is Defunct)
        },
        from.terminal() <==> from is Completed || from is Failed || from is Timeout,
{
    let next = from.successors();
    match from {
        SandboxState::Pending => {
            assert(next[0] is Starting && next[1] is Failed);
        },
        SandboxState::Starting => {
            assert(next[0] is Running && next[1] is Failed);
        },
        SandboxState::Running => {
            assert(next[0] is Completed && next[1] is Failed && next[2] is Timeout
                && next[3] is Defunct);
        },
        _ => {},
    }
}

/// A move sets the state and the time of the last activity, and the time of the
/// start where the sandbox comes to run. Nothing else about it changes.
pub proof fn a_move_changes_only_this(s: SandboxView, to: SandboxState, now: int)
    ensures
        s.moved(to, now).state == to,
        s.moved(to, now).last_activity == now,
        s.moved(to, now).started_at == if to is Running {
            Some(now)
        } else {
            s.started_at
        },
        s.moved(to, now).id == s.id,
        s.moved(to, now).container_id == s.container_id,
        s.moved(to, now).volume_name == s.volume_name,
        s.moved(to, now).tier == s.tier,
        s.moved(to, now).created_at == s.created_at,
        s.moved(to, now).timeout_secs == s.timeout_secs,
        s.moved(to, now).metadata == s.metadata,
        s.moved(to, now).bind_mounts == s.bind_mounts,
        s.moved(to, now).max_concurrent_execs == s.max_concurrent_execs,
        s.moved(to, now).active_execs == s.active_execs,
{
}

/// Activity sets the time of the last activity. Nothing else about the sandbox
/// changes: undoing that gives it back.
pub proof fn activity_changes_only_its_time(s: SandboxView, now: int)
    ensures
        s.touched(now).last_activity == now,
        (SandboxView { last_activity: s.last_activity, ..s.touched(now) }) == s,
{
}

/// A new sandbox holds what it was made of; it is pending, has not started, was
/// last active when it was made, and runs no command.
pub proof fn a_new_sandbox_holds_what_it_was_made_of(
    id: Seq<char>,
    container_id: Seq<char>,
    volume_name: Seq<char>,
    tier: Seq<char>,
    timeout_secs: u64,
    metadata: Map<String, String>,
    bind_mounts: Seq<Seq<char>>,
    max_concurrent_execs: usize,
    now: int,
)
    ensures
        ({
            let s = new_sandbox(
                id,
                container_id,
                volume_name,
                tier,
                timeout_secs,
                metadata,
                bind_mounts,
                max_concurrent_execs,
                now,
            );
            &&& s.id == id && s.container_id == container_id && s.volume_name == volume_name
            &&& s.tier == tier && s.timeout_secs == timeout_secs
            &&& s.metadata == metadata && s.bind_mounts == bind_mounts
            &&& s.max_concurrent_execs == max_concurrent_execs && s.active_execs == 0
            &&& s.state is Pending && s.started_at is None
            &&& s.created_at == now && s.last_activity == now
        }),
{
}

/// A started sandbox expires exactly when it has run for its time, and one that
/// never started does not; it is idle exactly when nothing has happened for the
/// given time. Times before the start or the last activity are as far off as the clock
/// reads them.
pub proof fn expiry_and_idleness_are_exact(s: SandboxView, now: int, secs: u64)
    ensures
        s.started_at is None ==> !s.expired_at(now),
        s.started_at is Some && s.started_at->0 <= now ==> (s.expired_at(now) <==> now
            - s.started_at->0 >= s.timeout_secs * 1_000_000_000),
        s.last_activity <= now ==> (s.idle_at(now, secs) <==> now - s.last_activity >= secs
            * 1_000_000_000),
        s.started_at is Some ==> (s.expired_at(now) <==> clock::has_reached(
            now,
            s.started_at->0,
            s.timeout_secs,
        )),
        s.idle_at(now, secs) <==> clock::has_reached(now, s.last_activity, secs),
{
}

/// Every state is told by its own name, and in lower case by the same name with a
/// small letter first.
pub proof fn states_are_told_by_name(s: SandboxState)
    ensures
        s.name_text() == (match s {
            SandboxState::Pending => "Pending"@,
            SandboxState::Starting => "Starting"@,
            SandboxState::Running => "Running"@,
            SandboxState::Defunct => "Defunct"@,
            SandboxState::Completed => "Completed"@,
            SandboxState::Failed => "Failed"@,
            SandboxState::Timeout => "Timeout"@,
        }),
        s.lower_text() == s.name_text().update(0, ((s.name_text()[0] as u32) + 32) as char),
{
    reveal_strlit("Pending");
    reveal_strlit("pending");
    reveal_strlit("Starting");
    reveal_strlit("starting");
    reveal_strlit("Running");
    reveal_strlit("running");
    reveal_strlit("Defunct");
    reveal_strlit("defunct");
    reveal_strlit("Completed");
    reveal_strlit("completed");
    reveal_strlit("Failed");
    reveal_strlit("failed");
    reveal_strlit("Timeout");
    reveal_strlit("timeout");
    assert(s.lower_text() =~= s.name_text().update(
        0,
        ((s.name_text()[0] as u32) + 32) as char,
    ));
}

/// A refused move is told with the sandbox, the state it is in and the state it
/// could not reach.
pub proof fn a_refusal_tells_both_states(s: SandboxView, to: SandboxState)
    ensures
        refused_move(s, to) is InvalidState,
        refused_move(s, to)->InvalidState_id == s.id,
        refused_move(s, to)->current == s.state,
        refused_move(s, to)->operation == "transition to "@ + to.name_text(),
{
}

/// The view of a sandbox shows each of its fields.
pub proof fn the_view_shows_the_sandbox(s: Sandbox)
    ensures
        s@.id == s.id@,
        s@.container_id == s.container_id@,
        s@.volume_name == s.volume_name@,
        s@.tier == s.tier@,
        s@.state == s.state,
        s@.created_at == s.created_at@,
        s.started_at is Some ==> s@.started_at == Some(s.started_at->0@),
        s.started_at is None ==> s@.started_at is None,
        s@.last_activity == s.last_activity@,
        s@.timeout_secs == s.timeout_secs,
        s@.metadata == s.metadata@,
        s@.bind_mounts.len() == s.bind_mounts@.len(),
        forall|i: int|
            0 <= i < s.bind_mounts@.len() ==> #[trigger] s@.bind_mounts[i] == s.bind_mounts@[i]@,
        s@.max_concurrent_execs == s.max_concurrent_execs,
        s@.active_execs == s.active_execs,
{
}

/// A permitted move takes place, at `now`; any other is refused and changes nothing.
pub proof fn only_permitted_moves_take_place(
    s: &mut Sandbox,
    to: SandboxState,
    now: Timestamp,
    r: Result<(), DenError>,
)
    requires
        call_ensures(Sandbox::transition_at, (s, to, now), r),
    ensures
        r is Ok <==> {
            let from = old(s).state;
            ||| from is Pending && (to is Starting || to is Failed)
            ||| from is Starting && (to is Running || to is Failed)
            ||| from is Running && (to is Completed || to is Failed || to is Timeout
                || to is Defunct)
        },
        r is Err ==> final(s)@ == old(s)@,
        r is Ok ==> final(s)@ == (SandboxView {
            state: to,
            last_activity: now@,
            started_at: if to is Running {
                Some(now@)
            } else {
                old(s)@.started_at
            },
            ..old(s)@
        }),
{
    permitted_moves(old(s).state, to);
    a_move_changes_only_this(old(s)@, to, now@);
}

/// At a time from its start and its last activity on, a sandbox has expired exactly when
/// it has run for its time, and is idle exactly when nothing has happened for the given
/// time.
pub proof fn sandboxes_expire_and_idle_exactly(
    s: &Sandbox,
    now: &Timestamp,
    secs: u64,
    expired: bool,
    idle: bool,
)
    requires
        call_ensures(Sandbox::expired_by, (s, now), expired),
        call_ensures(Sandbox::idle_by, (s, now, secs), idle),
        s.last_activity@ <= now@,
        s.started_at is Some ==> s.started_at->0@ <= now@,
    ensures
        expired <==> s.started_at is Some && now@ - s.started_at->0@ >= s.timeout_secs
            * 1_000_000_000,
        idle <==> now@ - s.last_activity@ >= secs * 1_000_000_000,
{
    the_view_shows_the_sandbox(*s);
    expiry_and_idleness_are_exact(s@, now@, secs);
}

/// Activity sets the time of the last activity, and nothing else.
pub proof fn activity_is_recorded(s: &mut Sandbox, now: Timestamp)
    requires
        call_ensures(Sandbox::touch_at, (s, now), ()),
    ensures
        final(s)@ == (SandboxView { last_activity: now@, ..old(s)@ }),
{
}

/// Only a running sandbox is usable, and only one that has ended is terminal.
pub proof fn what_states_mean(state: SandboxState, usable: bool, terminal: bool)
    requires
        call_ensures(SandboxState::is_usable, (state,), usable),
        call_ensures(SandboxState::is_terminal, (state,), terminal),
    ensures
        usable <==> state is Running,
        terminal <==> state is Completed || state is Failed || state is Timeout,
{
    permitted_moves(state, state);
}

} // verus!
