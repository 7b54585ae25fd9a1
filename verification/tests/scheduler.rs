use std::sync::Arc;

use den::config::{
    DenConfig, DockerConfig, NamedTier, PoolConfig, ReaperConfig, ServerConfig, TierConfig,
};
use den::cpus::Cpus;
use den::scheduler::{HostInfo, Scheduler};

const GIB: i64 = 1024 * 1024 * 1024;

fn scheduler(memory_mb: u64, cpus: f64) -> Scheduler {
    Scheduler::new(Arc::new(DenConfig {
        server: ServerConfig { host: "h".into(), port: 1, api_key: None },
        docker: DockerConfig { socket: None, network: None },
        pool: PoolConfig { replenish_interval_secs: 5 },
        reaper: ReaperConfig { interval_secs: 10, idle_timeout_secs: 300, volume_ttl_secs: 9 },
        tiers: vec![NamedTier {
            name: "t".into(),
            config: TierConfig {
                image: "i".into(),
                memory_mb,
                cpus: Cpus { bits: cpus.to_bits() },
                pids: 256,
                timeout_secs: 60,
                pool_size: 1,
                readonly_rootfs: false,
                tmpfs: None,
                max_concurrent_execs: 4,
            },
        }],
    }))
}

fn host(mem: i64, ncpu: i64, running: i64) -> HostInfo {
    HostInfo {
        mem_total: Some(mem),
        ncpu: Some(ncpu),
        containers_running: Some(running),
        containers: Some(running + 2),
    }
}

#[test]
fn memory_decides() {
    let s = scheduler(1024, 1.0);
    // 10 GiB, of which 8 may be used
    assert!(s.can_schedule("t", &host(10 * GIB, 4, 7)).unwrap());
    assert!(!s.can_schedule("t", &host(10 * GIB, 4, 8)).unwrap());
    assert!(!s.can_schedule("t", &host(GIB, 4, 0)).unwrap());
    // the fifth is rounded down, in the containers' favour
    assert!(s.can_schedule("t", &host(GIB + GIB / 4, 4, 0)).unwrap());
    assert!(!s.can_schedule("t", &host(GIB + GIB / 4 - 2, 4, 0)).unwrap());
}

#[test]
fn cpus_decide() {
    let s = scheduler(1, 2.5);
    assert!(!s.can_schedule("t", &host(10 * GIB, 2, 0)).unwrap());
    assert!(s.can_schedule("t", &host(10 * GIB, 3, 0)).unwrap());
}

#[test]
fn an_unknown_tier_is_an_error() {
    let e = scheduler(1, 1.0).can_schedule("x", &host(GIB, 1, 0)).unwrap_err();
    assert_eq!(e.message(), "tier x not found");
}

#[test]
fn enormous_numbers_do_no_harm() {
    let s = scheduler(u64::MAX, 1.0);
    assert!(!s.can_schedule("t", &host(i64::MAX, 1, i64::MAX)).unwrap());
    let s = scheduler(1, 1.0);
    assert!(!s.can_schedule("t", &host(i64::MAX, 1, i64::MAX)).unwrap());
    assert!(!s.can_schedule("t", &host(i64::MAX, 1, -1)).unwrap());
}

#[test]
fn what_is_not_told_counts_as_nothing() {
    let info = HostInfo {
        mem_total: None,
        ncpu: None,
        containers_running: None,
        containers: None,
    };
    assert!(!scheduler(1, 1.0).can_schedule("t", &info).unwrap());
    let r = scheduler(1, 1.0).resource_snapshot(&info);
    assert_eq!(r.total_memory_bytes, 0);
    assert_eq!(r.cpus, 0);
    assert_eq!(r.containers_total, 0);
}

#[test]
fn a_snapshot_repeats_what_docker_says() {
    let r = scheduler(1, 1.0).resource_snapshot(&host(10 * GIB, 4, 7));
    assert_eq!(r.total_memory_bytes, 10 * GIB as u64);
    assert_eq!(r.used_memory_bytes, 0);
    assert_eq!(r.cpus, 4);
    assert_eq!(r.containers_running, 7);
    assert_eq!(r.containers_total, 9);
}
