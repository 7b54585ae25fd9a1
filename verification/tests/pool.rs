use std::collections::HashMap;
use std::sync::Arc;

use den::api::{begin_exec, create_sandbox, file_place, get_sandbox, list_sandboxes, CreateRequest};
use den::clock::Timestamp;
use den::config::{
    DenConfig, DockerConfig, NamedTier, PoolConfig, ReaperConfig, ServerConfig, TierConfig,
};
use den::cpus::Cpus;
use den::docker::DockerAction;
use den::error::DenError;
use den::pool::{Built, Pool, PoolEntry, PoolJob, Reservation};
use den::registry::Registry;
use den::sandbox::{Sandbox, SandboxState};
use den::scheduler::{HostInfo, Scheduler};

fn tier(name: &str, pool_size: usize) -> NamedTier {
    NamedTier {
        name: name.into(),
        config: TierConfig {
            image: "i".into(),
            memory_mb: 1,
            cpus: Cpus { bits: 1.0f64.to_bits() },
            pids: 256,
            timeout_secs: 60,
            pool_size,
            readonly_rootfs: false,
            tmpfs: None,
            max_concurrent_execs: 2,
        },
    }
}

fn new_pool() -> Pool {
    let config = Arc::new(DenConfig {
        server: ServerConfig { host: "h".into(), port: 1, api_key: None },
        docker: DockerConfig { socket: None, network: None },
        pool: PoolConfig { replenish_interval_secs: 5 },
        reaper: ReaperConfig { interval_secs: 10, idle_timeout_secs: 300, volume_ttl_secs: 9 },
        tiers: vec![tier("small", 2), tier("large", 1)],
    });
    Pool::new(config.clone(), Registry::new(), Scheduler::new(config))
}

fn room() -> Result<HostInfo, DenError> {
    Ok(HostInfo {
        mem_total: Some(1 << 40),
        ncpu: Some(8),
        containers_running: Some(0),
        containers: Some(0),
    })
}

fn no_room() -> Result<HostInfo, DenError> {
    Ok(HostInfo {
        mem_total: Some(1),
        ncpu: Some(8),
        containers_running: Some(0),
        containers: Some(0),
    })
}

fn built(jobs: Vec<PoolJob>) -> Vec<Built> {
    let mut out = Vec::new();
    for (i, job) in jobs.into_iter().enumerate() {
        out.push(Built { job, container_id: Ok(format!("c{i}")) });
    }
    out
}

fn warm_pool() -> Pool {
    let mut pool = new_pool();
    let jobs = pool.warm_up();
    pool.warmed_up(built(jobs)).unwrap();
    pool
}

fn entry(r: Result<Reservation, DenError>) -> PoolEntry {
    match r {
        Ok(Reservation::Pooled(e)) => e,
        _ => panic!("nothing from the pool"),
    }
}

fn claimed(pool: &mut Pool) -> Sandbox {
    let e = entry(pool.claim("small", room(), &vec![]));
    pool.register("small", e, HashMap::new(), vec![]).unwrap()
}

fn show(actions: &Vec<DockerAction>) -> Vec<String> {
    actions
        .iter()
        .map(|a| match a {
            DockerAction::StopContainer { id, timeout_secs } => format!("stop {id} {timeout_secs}"),
            DockerAction::RemoveContainer { id } => format!("rm {id}"),
            DockerAction::RemoveVolume { name } => format!("rmvol {name}"),
        })
        .collect()
}

#[test]
fn warming_up_fills_every_tier() {
    let pool = new_pool();
    let jobs = pool.warm_up();
    let tiers: Vec<&str> = jobs.iter().map(|j| j.tier.as_str()).collect();
    assert_eq!(tiers, vec!["small", "small", "large"]);
    assert!(jobs[0].container_name.starts_with("den-small-"));
    assert!(jobs[2].container_name.starts_with("den-large-"));
    assert!(jobs[0].volume_name.starts_with("den-vol-"));
    let pool = warm_pool();
    assert!(pool.replenish("small").is_empty());
    assert!(pool.replenish("large").is_empty());
}

#[test]
fn warming_up_stops_at_the_first_failure() {
    let mut pool = new_pool();
    let mut jobs = built(pool.warm_up());
    jobs[1].container_id = Err(DenError::Docker("no image".into()));
    let e = pool.warmed_up(jobs).unwrap_err();
    assert_eq!(e.message(), "docker: no image");
    assert_eq!(pool.replenish("small").len(), 1);
    assert_eq!(pool.replenish("large").len(), 1);
}

#[test]
fn replenishing_restores_the_size_and_passes_over_failures() {
    let mut pool = warm_pool();
    entry(pool.claim("small", room(), &vec![]));
    entry(pool.claim("small", room(), &vec![]));
    let jobs = pool.replenish("small");
    assert_eq!(jobs.len(), 2);
    assert!(jobs.iter().all(|j| j.tier == "small"));
    let mut done = built(jobs);
    done[0].container_id = Err(DenError::Docker("x".into()));
    pool.replenished(&done);
    assert_eq!(pool.replenish("small").len(), 1);
    let done = built(pool.replenish("small"));
    pool.replenished(&done);
    assert!(pool.replenish("small").is_empty());
    assert!(pool.replenish("nowhere").is_empty());
}

#[test]
fn claiming_takes_the_newest_entry() {
    let mut pool = warm_pool();
    assert_eq!(entry(pool.claim("small", room(), &vec![])).container_id, "c1");
    assert_eq!(entry(pool.claim("large", room(), &vec![])).container_id, "c2");
    assert_eq!(entry(pool.claim("small", room(), &vec![])).container_id, "c0");
}

#[test]
fn an_empty_pool_fails_fast() {
    let mut pool = new_pool();
    let e = pool.claim("small", room(), &vec![]).unwrap_err();
    assert_eq!(e.message(), "no sandboxes available for tier small");
    assert_eq!(e.status(), 503);
}

#[test]
fn claims_that_are_refused() {
    let mut pool = warm_pool();
    let e = pool.claim("huge", room(), &vec![]).unwrap_err();
    assert_eq!(e.message(), "tier huge not found");
    let e = pool.claim("huge", Err(DenError::Docker("down".into())), &vec![]).unwrap_err();
    assert_eq!(e.message(), "tier huge not found");
    let e = pool.claim("small", Err(DenError::Docker("down".into())), &vec![]).unwrap_err();
    assert_eq!(e.message(), "docker: down");
    let e = pool.claim("small", no_room(), &vec![]).unwrap_err();
    assert_eq!(e.message(), "insufficient resources: not enough resources for tier small");
    assert!(pool.replenish("small").is_empty());
}

#[test]
fn bind_mounts_get_a_container_of_their_own() {
    let mut pool = new_pool();
    match pool.claim("small", room(), &vec!["/a:/b".into()]).unwrap() {
        Reservation::Dedicated { container_name, volume_name } => {
            assert!(container_name.starts_with("den-small-"));
            assert!(volume_name.starts_with("den-vol-"));
        }
        _ => panic!("from the pool"),
    }
    let e = pool.claim("small", no_room(), &vec!["/a:/b".into()]).unwrap_err();
    assert_eq!(e.status(), 503);
}

#[test]
fn requests_are_checked_before_anything_is_claimed() {
    let mut pool = warm_pool();
    let req = |mounts: Vec<String>| CreateRequest {
        tier: "small".into(),
        metadata: HashMap::new(),
        bind_mounts: mounts,
    };
    let e = create_sandbox(&mut pool, &req(vec!["/etc:/x".into()]), no_room()).unwrap_err();
    assert_eq!(e.message(), "bind mount host path blocked (/etc): /etc:/x");
    assert_eq!(entry(create_sandbox(&mut pool, &req(vec![]), room())).container_id, "c1");
    let r = create_sandbox(&mut pool, &req(vec!["/a:/b:ro".into()]), room()).unwrap();
    assert!(matches!(r, Reservation::Dedicated { .. }));
}

#[test]
fn a_claimed_sandbox_runs() {
    let mut pool = warm_pool();
    let e = entry(pool.claim("small", room(), &vec![]));
    let volume = e.volume_name.clone();
    let mut metadata = HashMap::new();
    metadata.insert("user".to_string(), "ada".to_string());
    let s = pool.register("small", e, metadata, vec![]).unwrap();
    assert!(s.id.starts_with("small-"));
    assert_eq!(s.state, SandboxState::Running);
    assert_eq!(s.container_id, "c1");
    assert_eq!(s.volume_name, volume);
    assert_eq!(s.timeout_secs, 60);
    assert_eq!(s.max_concurrent_execs, 2);
    assert_eq!(s.started_at, Some(s.created_at));
    assert_eq!(s.metadata["user"], "ada");
    let found = pool.sandboxes.get(&s.id).unwrap();
    assert_eq!(found.container_id, "c1");
    assert_eq!(pool.container_of(&s.id).unwrap(), "c1");
    let lost = PoolEntry { container_id: "c".into(), volume_name: "v".into() };
    let e = pool.register("nowhere", lost, HashMap::new(), vec![]).unwrap_err();
    assert_eq!(e.message(), "tier nowhere not found");
}

#[test]
fn release_keeps_the_volume_and_resume_uses_it() {
    let mut pool = warm_pool();
    let e = entry(pool.claim("small", room(), &vec![]));
    let volume = e.volume_name.clone();
    let mounts = vec!["/data:/d".to_string()];
    let s = pool.register("small", e, HashMap::new(), mounts.clone()).unwrap();
    let actions = pool.release(&s.id).unwrap();
    assert_eq!(show(&actions), vec!["stop c1 5", "rm c1"]);
    let kept = pool.sandboxes.get(&s.id).unwrap();
    assert_eq!(kept.state, SandboxState::Completed);
    assert_eq!(kept.volume_name, volume);
    // releasing again asks for the same and changes nothing
    let again = pool.release(&s.id).unwrap();
    assert_eq!(show(&again), vec!["stop c1 5", "rm c1"]);

    let plan = pool.resume(&s.id).unwrap();
    assert_eq!(plan.tier, "small");
    assert_eq!(plan.volume_name, volume);
    assert_eq!(plan.bind_mounts, mounts);
    assert!(plan.container_name.starts_with("den-small-"));
    assert_eq!(pool.sandboxes.get(&s.id).unwrap().state, SandboxState::Starting);

    let r = pool.resumed(&s.id, "c9".into()).unwrap();
    assert_eq!(r.state, SandboxState::Running);
    assert_eq!(r.container_id, "c9");
    assert_eq!(r.id, s.id);
    assert_eq!(r.created_at, s.created_at);
    assert_eq!(r.volume_name, volume);
    assert_eq!(pool.container_of(&s.id).unwrap(), "c9");
}

#[test]
fn a_running_sandbox_cannot_be_resumed() {
    let mut pool = warm_pool();
    let s = claimed(&mut pool);
    let e = pool.resume(&s.id).unwrap_err();
    assert_eq!(e.status(), 409);
    assert_eq!(
        e.message(),
        format!("sandbox {} in state Running, cannot resume (already running)", s.id)
    );
    let e = pool.resumed(&s.id, "c7".into()).unwrap_err();
    assert_eq!(
        e.message(),
        format!("sandbox {} in state Running, cannot transition to Running", s.id)
    );
    assert_eq!(pool.container_of(&s.id).unwrap(), "c7");
}

#[test]
fn a_failed_resume_can_be_repeated() {
    let mut pool = warm_pool();
    let s = claimed(&mut pool);
    pool.release(&s.id).unwrap();
    pool.resume(&s.id).unwrap();
    pool.resume(&s.id).unwrap();
    assert_eq!(pool.resumed(&s.id, "c8".into()).unwrap().state, SandboxState::Running);
}

#[test]
fn a_sandbox_of_a_lost_tier_cannot_be_resumed() {
    let mut pool = new_pool();
    let mut s = Sandbox::new(
        "gone-1".into(),
        "c".into(),
        "v".into(),
        "gone".into(),
        1,
        HashMap::new(),
        vec![],
        1,
    );
    s.state = SandboxState::Failed;
    pool.sandboxes.put(s);
    let e = pool.resume("gone-1").unwrap_err();
    assert_eq!(e.message(), "tier gone not found");
    assert_eq!(pool.sandboxes.get("gone-1").unwrap().state, SandboxState::Failed);
}

#[test]
fn destroying_removes_everything() {
    let mut pool = warm_pool();
    let s = claimed(&mut pool);
    let actions = pool.destroy(&s.id).unwrap();
    assert_eq!(
        show(&actions),
        vec!["stop c1 5".to_string(), "rm c1".into(), format!("rmvol {}", s.volume_name)]
    );
    let text = format!("sandbox {} not found", s.id);
    assert_eq!(pool.destroy(&s.id).unwrap_err().message(), text);
    assert_eq!(pool.release(&s.id).unwrap_err().message(), text);
    assert_eq!(pool.resume(&s.id).unwrap_err().message(), text);
    assert_eq!(pool.resumed(&s.id, "c".into()).unwrap_err().message(), text);
    assert_eq!(pool.container_of(&s.id).unwrap_err().message(), text);
    assert_eq!(begin_exec(&mut pool, &s.id).unwrap_err().status(), 404);
    assert!(get_sandbox(&pool.sandboxes, &s.id).is_err());
}

#[test]
fn commands_are_limited() {
    let mut pool = warm_pool();
    let s = claimed(&mut pool);
    assert_eq!(begin_exec(&mut pool, &s.id).unwrap(), "c1");
    assert_eq!(pool.exec_begin(&s.id).unwrap(), "c1");
    let e = begin_exec(&mut pool, &s.id).unwrap_err();
    assert_eq!(e.status(), 429);
    assert!(matches!(e, DenError::TooManyExecs { limit: 2, .. }));
    pool.exec_end(&s.id);
    assert!(begin_exec(&mut pool, &s.id).is_ok());
    pool.exec_end(&s.id);
    pool.exec_end(&s.id);
    pool.exec_end(&s.id);
    assert_eq!(pool.sandboxes.get(&s.id).unwrap().active_execs, 0);
    pool.exec_end("nobody");
}

#[test]
fn commands_and_input_count_as_activity() {
    let mut pool = warm_pool();
    let s = claimed(&mut pool);
    let later = Timestamp::from_unix(4_000_000_000, 0).unwrap();
    pool.touch_at(&s.id, later);
    assert_eq!(pool.sandboxes.get(&s.id).unwrap().last_activity, later);
    let even_later = Timestamp::from_unix(4_000_000_001, 0).unwrap();
    den::api::begin_exec_at(&mut pool, &s.id, even_later).unwrap();
    let after = pool.sandboxes.get(&s.id).unwrap();
    assert_eq!(after.last_activity, even_later);
    assert_eq!(after.active_execs, 1);
    pool.touch("nobody");
    assert!(pool.sandboxes.get("nobody").is_none());
}

#[test]
fn sandboxes_are_listed_and_shown() {
    let mut pool = warm_pool();
    assert!(list_sandboxes(&pool.sandboxes).is_empty());
    let a = claimed(&mut pool);
    let b = claimed(&mut pool);
    pool.release(&b.id).unwrap();
    let mut ids: Vec<String> = list_sandboxes(&pool.sandboxes).into_iter().map(|r| r.id).collect();
    ids.sort();
    let mut expected = vec![a.id.clone(), b.id.clone()];
    expected.sort();
    assert_eq!(ids, expected);
    let r = get_sandbox(&pool.sandboxes, &a.id).unwrap();
    assert_eq!((r.state.as_str(), r.tier.as_str()), ("running", "small"));
    assert_eq!(r.container_id, a.container_id);
    assert_eq!(get_sandbox(&pool.sandboxes, &b.id).unwrap().state, "completed");
    let e = get_sandbox(&pool.sandboxes, "x").unwrap_err();
    assert_eq!(e.message(), "sandbox x not found");
}

#[test]
fn files_are_placed_in_the_home_of_a_sandbox() {
    let mut pool = warm_pool();
    let s = claimed(&mut pool);
    let p = file_place(&pool, &s.id, "dir/../script.py").unwrap();
    assert_eq!(p.container_id, "c1");
    assert_eq!(p.path, "/home/sandbox/script.py");
    // the path is looked at before the sandbox
    let e = file_place(&pool, "x", "../y").unwrap_err();
    assert_eq!(e.message(), "path traversal blocked");
    let e = file_place(&pool, "x", "y").unwrap_err();
    assert_eq!(e.message(), "sandbox x not found");
}

#[test]
fn the_registry_holds_what_was_put() {
    let mut r = Registry::new();
    assert!(r.ids().is_empty());
    let s = Sandbox::new(
        "a".into(),
        "c".into(),
        "v".into(),
        "t".into(),
        1,
        HashMap::new(),
        vec![],
        1,
    );
    r.put(s.clone());
    let mut t = s.clone();
    t.container_id = "d".into();
    r.put(t);
    assert_eq!(r.ids(), vec!["a".to_string()]);
    assert_eq!(r.get("a").unwrap().container_id, "d");
    assert_eq!(r.remove("a").unwrap().container_id, "d");
    assert!(r.remove("a").is_none());
    assert!(r.get("a").is_none());
}

fn draws(n: u32) -> Vec<(String, String)> {
    let uuid = |k: u32| format!("{k:08x}-89ab-4def-8123-456789abcdef");
    (0..n).map(|i| (uuid(2 * i), uuid(2 * i + 1))).collect()
}

#[test]
fn each_job_gets_the_names_of_its_draw() {
    let pool = new_pool();
    let show = |jobs: Vec<PoolJob>| -> Vec<(String, String)> {
        jobs.into_iter().map(|j| (j.container_name, j.volume_name)).collect()
    };
    let pair = |c: &str, v: &str| (c.to_string(), v.to_string());
    assert_eq!(
        show(pool.warm_up_from(&draws(3))),
        vec![
            pair("den-small-00000000", "den-vol-00000001"),
            pair("den-small-00000002", "den-vol-00000003"),
            pair("den-large-00000004", "den-vol-00000005"),
        ]
    );
    assert_eq!(pool.shortfall("small"), 2);
    assert_eq!(
        show(pool.replenish_from("small", &draws(2))),
        vec![
            pair("den-small-00000000", "den-vol-00000001"),
            pair("den-small-00000002", "den-vol-00000003"),
        ]
    );
}

#[test]
fn drawn_jobs_have_volumes_of_their_own() {
    let pool = new_pool();
    let jobs = pool.replenish("small");
    assert_ne!(jobs[0].volume_name, jobs[1].volume_name);
    assert_ne!(jobs[0].container_name, jobs[1].container_name);
    let jobs = pool.warm_up();
    assert_ne!(jobs[0].volume_name, jobs[1].volume_name);
    assert_ne!(jobs[1].volume_name, jobs[2].volume_name);
    assert_ne!(jobs[0].volume_name[8..], jobs[0].container_name["den-small-".len()..]);
}

#[test]
fn given_names_are_handed_out() {
    let mut pool = warm_pool();
    let mounts = vec!["/a:/b".to_string()];
    match pool.claim_named("small", room(), &mounts, "c".into(), "v".into()).unwrap() {
        Reservation::Dedicated { container_name, volume_name } => {
            assert_eq!((container_name.as_str(), volume_name.as_str()), ("c", "v"));
        }
        _ => panic!("from the pool"),
    }
    let e = entry(pool.claim_named("small", room(), &vec![], "c".into(), "v".into()));
    assert_eq!(e.container_id, "c1");
    let s = claimed(&mut pool);
    pool.release(&s.id).unwrap();
    let plan = pool.resume_named(&s.id, "again".into(), Timestamp::now()).unwrap();
    assert_eq!(plan.container_name, "again");
    assert_eq!(plan.volume_name, s.volume_name);
}

#[test]
fn only_a_running_sandbox_takes_commands() {
    let mut pool = warm_pool();
    let s = claimed(&mut pool);
    pool.release(&s.id).unwrap();
    let text = format!("sandbox {} in state Completed, cannot exec", s.id);
    let e = begin_exec(&mut pool, &s.id).unwrap_err();
    assert_eq!(e.message(), text);
    assert_eq!(e.status(), 409);
    assert_eq!(pool.exec_begin(&s.id).unwrap_err().message(), text);
    assert_eq!(pool.sandboxes.get(&s.id).unwrap().active_execs, 0);
    pool.resume(&s.id).unwrap();
    assert_eq!(begin_exec(&mut pool, &s.id).unwrap_err().status(), 409);
    pool.resumed(&s.id, "c5".into()).unwrap();
    assert_eq!(begin_exec(&mut pool, &s.id).unwrap(), "c5");
}
