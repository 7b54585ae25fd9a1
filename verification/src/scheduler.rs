//! Whether the host has room for another container.

use std::sync::Arc;

use vstd::prelude::*;

#[allow(unused_imports)]
use crate::clock;
use crate::clock::as_unsigned;
#[allow(unused_imports)]
use crate::config;
use crate::config::DenConfig;
#[allow(unused_imports)]
use crate::cpus;
use crate::cpus::Cpus;
use crate::error::DenError;
#[allow(unused_imports)]
use crate::error::ErrorView;

verus! {

/// What the Docker daemon says of its host, as far as it says it.
pub struct HostInfo {
    pub mem_total: Option<i64>,
    pub ncpu: Option<i64>,
    pub containers_running: Option<i64>,
    pub containers: Option<i64>,
}

#[derive(Debug)]
pub struct ResourceSnapshot {
    pub total_memory_bytes: u64,
    pub used_memory_bytes: u64,
    pub cpus: u64,
    pub containers_running: u64,
    pub containers_total: u64,
}

/// A count that may be missing, read as an unsigned number; a missing one is 0.
pub open spec fn count(o: Option<i64>) -> int {
    match o {
        Some(n) => clock::unsigned_reading(n as int),
        None => 0,
    }
}

fn count_of(o: Option<i64>) -> (r: u64)
    ensures
        r == count(o),
{
    match o {
        Some(n) => as_unsigned(n),
        None => 0,
    }
}

/// Bytes that a tier's container needs.
pub open spec fn needed_bytes(memory_mb: u64) -> int {
    memory_mb * 1048576
}

/// Bytes of the host's memory that containers may use: all but a fifth, which
/// is kept for the host.
pub open spec fn usable_bytes(total: int) -> int {
    total - total / 5
}

/// Whether one more container fits beside `running` ones, all of them taken to
/// need as much as this one.
pub open spec fn memory_fits(memory_mb: u64, total: int, running: int) -> bool {
    running * needed_bytes(memory_mb) + needed_bytes(memory_mb) <= usable_bytes(total)
}

/// A whole number of CPUs as a double.
pub open spec fn host_cpus(n: int) -> Cpus {
    Cpus { bits: cpus::count_bits(n as nat) as u64 }
}

/// Whether the host has room for a container of a tier.
pub open spec fn has_room(tier: config::TierConfig, info: HostInfo) -> bool {
    &&& memory_fits(tier.memory_mb, count(info.mem_total), count(info.containers_running))
    &&& !tier.cpus.exceeds(host_cpus(count(info.ncpu)))
}

fn memory_fits_in(memory_mb: u64, total: u64, running: u64) -> (r: bool)
    ensures
        r == memory_fits(memory_mb, total as int, running as int),
{
    let needed: u128 = memory_mb as u128 * 1048576;
    let usable: u128 = (total - total / 5) as u128;
    if needed > usable {
        proof {
            assert(running * needed_bytes(memory_mb) >= 0) by (nonlinear_arith)
                requires
                    running >= 0,
                    needed_bytes(memory_mb) >= 0,
            ;
        }
        return false;
    }
    proof {
        assert(needed <= 0xFFFF_FFFF_FFFF_FFFF);
        assert(running * needed + needed <= 0x1_0000_0000_0000_0000 * 0xFFFF_FFFF_FFFF_FFFF)
            by (nonlinear_arith)
            requires
                0 <= running <= 0xFFFF_FFFF_FFFF_FFFF,
                0 <= needed <= 0xFFFF_FFFF_FFFF_FFFF,
        ;
    }
    (running as u128) * needed + needed <= usable
}

/// Decides whether containers fit on the host.
pub struct Scheduler {
    pub config: Arc<DenConfig>,
}

impl Scheduler {
    pub fn new(config: Arc<DenConfig>) -> (r: Scheduler)
        ensures
            *r.config == *config,
    {
        Scheduler { config }
    }

    /// Whether the host has room for a container of the given tier: enough
    /// memory beside the running containers, and as many CPUs as the tier asks.
    pub fn can_schedule(&self, tier: &str, info: &HostInfo) -> (r: Result<bool, DenError>)
        ensures
            match config::tier_index(self.config.tiers@, tier@) {
                Some(i) => r is Ok && r->Ok_0 == has_room(self.config.tiers@[i].config, *info),
                None => r is Err && r->Err_0@ == (ErrorView::TierNotFound { tier: tier@ }),
            },
    {
        match self.config.tier(tier) {
            None => Err(DenError::TierNotFound { tier: tier.to_string() }),
            Some(t) => {
                let total = count_of(info.mem_total);
                let running = count_of(info.containers_running);
                if !memory_fits_in(t.memory_mb, total, running) {
                    return Ok(false);
                }
                let host = Cpus::from_count(count_of(info.ncpu));
                if t.cpus.more_than(&host) {
                    return Ok(false);
                }
                Ok(true)
            },
        }
    }

    /// A snapshot of the host's resources. The daemon does not tell how much
    /// memory is in use, so that entry is 0.
    pub fn resource_snapshot(&self, info: &HostInfo) -> (r: ResourceSnapshot)
        ensures
            r.total_memory_bytes == count(info.mem_total),
            r.used_memory_bytes == 0,
            r.cpus == count(info.ncpu),
            r.containers_running == count(info.containers_running),
            r.containers_total == count(info.containers),
    {
        ResourceSnapshot {
            total_memory_bytes: count_of(info.mem_total),
            used_memory_bytes: 0,
            cpus: count_of(info.ncpu),
            containers_running: count_of(info.containers_running),
            containers_total: count_of(info.containers),
        }
    }
}

proof fn lemma_host_cpus(n: u64)
    ensures
        host_cpus(n as int).bits == cpus::count_bits(n as nat),
        !host_cpus(n as int).is_nan(),
        host_cpus(n as int).rank() == cpus::count_bits(n as nat),
{
    cpus::lemma_count_fits(n);
}

/// More memory, more CPUs or fewer running containers never take room away.
pub proof fn room_grows_with_the_host(tier: config::TierConfig, host: HostInfo, larger: HostInfo)
    requires
        has_room(tier, host),
        count(host.mem_total) <= count(larger.mem_total),
        count(host.ncpu) <= count(larger.ncpu),
        count(host.containers_running) >= count(larger.containers_running),
    ensures
        has_room(tier, larger),
{
    let running = count(host.containers_running);
    let fewer = count(larger.containers_running);
    assert(fewer * needed_bytes(tier.memory_mb) <= running * needed_bytes(tier.memory_mb))
        by (nonlinear_arith)
        requires
            0 <= fewer <= running,
            needed_bytes(tier.memory_mb) >= 0,
    ;
    let n = count(host.ncpu) as u64;
    let m = count(larger.ncpu) as u64;
    lemma_host_cpus(n);
    lemma_host_cpus(m);
    if n < m {
        cpus::counts_keep_their_order(n as nat, m as nat);
    }
}

/// A fifth of the host's memory is never given to containers: where a container
/// fits, all containers together leave at least that much.
pub proof fn host_keeps_a_fifth(memory_mb: u64, total: int, running: int)
    requires
        total >= 0,
        running >= 0,
        memory_fits(memory_mb, total, running),
    ensures
        total - (running + 1) * needed_bytes(memory_mb) >= total / 5,
{
    assert((running + 1) * needed_bytes(memory_mb) == running * needed_bytes(memory_mb)
        + needed_bytes(memory_mb)) by (nonlinear_arith);
}

/// A count reads as it is; a missing one as nothing, and a negative one as 2 to the
/// power of 64 more.
pub proof fn counts_read_as_they_are(n: i64)
    ensures
        count(None) == 0,
        n >= 0 ==> count(Some(n)) == n,
        n < 0 ==> count(Some(n)) == n + 0x1_0000_0000_0000_0000,
{
}

/// The host has room exactly when the memory of the running containers and of one
/// more, each taken to need what the tier needs, is within all but a fifth of the
/// host's memory, and the tier's CPUs do not exceed the host's. No host is too large
/// and none too small to be told.
pub proof fn room_is_decided_exactly(
    tier: config::TierConfig,
    info: HostInfo,
    total: int,
    running: int,
    cpus: int,
)
    requires
        info.mem_total == Some(total as i64) && 0 <= total <= i64::MAX,
        info.containers_running == Some(running as i64) && 0 <= running <= i64::MAX,
        info.ncpu == Some(cpus as i64) && 0 <= cpus <= i64::MAX,
    ensures
        has_room(tier, info) <==> {
            &&& (running + 1) * (tier.memory_mb * 1048576) <= total - total / 5
            &&& !tier.cpus.exceeds(Cpus { bits: cpus::count_bits(cpus as nat) as u64 })
        },
        needed_bytes(tier.memory_mb) == tier.memory_mb * 1048576,
{
    let needed = tier.memory_mb * 1048576;
    assert((running + 1) * needed == running * needed + needed) by (nonlinear_arith);
}

/// The same for whatever the daemon says of the host, with its counts read as above.
pub proof fn room_is_decided_exactly_on_any_host(tier: config::TierConfig, info: HostInfo)
    ensures
        has_room(tier, info) <==> {
            let total = count(info.mem_total);
            &&& (count(info.containers_running) + 1) * (tier.memory_mb * 1048576) <= total - total / 5
            &&& !tier.cpus.exceeds(Cpus { bits: cpus::count_bits(count(info.ncpu) as nat) as u64 })
        },
{
    let running = count(info.containers_running);
    let needed = tier.memory_mb * 1048576;
    assert((running + 1) * needed == running * needed + needed) by (nonlinear_arith);
}

/// The host has room for a tier exactly when the memory of one more of its containers
/// than run already is no more than the host's less a fifth, and its CPUs do not exceed
/// the host's. A tier that is not configured is an error.
pub proof fn scheduling_is_exact(
    scheduler: &Scheduler,
    tier: &str,
    info: &HostInfo,
    r: Result<bool, DenError>,
    i: int,
)
    requires
        config::distinct_names(scheduler.config.tiers@),
        call_ensures(Scheduler::can_schedule, (scheduler, tier, info), r),
    ensures
        (forall|k: int|
            0 <= k < scheduler.config.tiers@.len() ==> (
            #[trigger] scheduler.config.tiers@[k]).name@ != tier@) ==> r is Err && r->Err_0@ == (
        ErrorView::TierNotFound { tier: tier@ }),
        0 <= i < scheduler.config.tiers@.len() && scheduler.config.tiers@[i].name@ == tier@ ==> {
            let t = scheduler.config.tiers@[i].config;
            let total = count(info.mem_total);
            &&& r is Ok
            &&& r->Ok_0 <==> {
                &&& (count(info.containers_running) + 1) * (t.memory_mb * 1048576) <= total - total
                    / 5
                &&& !t.cpus.exceeds(Cpus { bits: cpus::count_bits(count(info.ncpu) as nat) as u64 })
            }
        },
{
    config::lemma_tier_index(scheduler.config.tiers@, tier@);
    if 0 <= i < scheduler.config.tiers@.len() && scheduler.config.tiers@[i].name@ == tier@ {
        config::tiers_are_found_by_name(scheduler.config.tiers@, i, tier@);
        room_is_decided_exactly_on_any_host(scheduler.config.tiers@[i].config, *info);
    }
}

/// A snapshot tells the counts of the host as they are; what is not told is 0.
pub proof fn snapshots_tell_the_counts(
    scheduler: &Scheduler,
    info: &HostInfo,
    r: ResourceSnapshot,
)
    requires
        call_ensures(Scheduler::resource_snapshot, (scheduler, info), r),
    ensures
        info.mem_total is Some && info.mem_total->0 >= 0 ==> r.total_memory_bytes
            == info.mem_total->0,
        info.ncpu is Some && info.ncpu->0 >= 0 ==> r.cpus == info.ncpu->0,
        info.containers_running is Some && info.containers_running->0 >= 0
            ==> r.containers_running == info.containers_running->0,
        info.containers is Some && info.containers->0 >= 0 ==> r.containers_total
            == info.containers->0,
        info.mem_total is None ==> r.total_memory_bytes == 0,
        info.ncpu is None ==> r.cpus == 0,
        info.containers_running is None ==> r.containers_running == 0,
        info.containers is None ==> r.containers_total == 0,
        r.used_memory_bytes == 0,
{
    if info.mem_total is Some {
        counts_read_as_they_are(info.mem_total->0);
    }
    if info.ncpu is Some {
        counts_read_as_they_are(info.ncpu->0);
    }
    if info.containers_running is Some {
        counts_read_as_they_are(info.containers_running->0);
    }
    if info.containers is Some {
        counts_read_as_they_are(info.containers->0);
    }
}

} // verus!
