use std::collections::HashMap;
use std::sync::Arc;

use den::clock::Timestamp;
use den::config::{DenConfig, DockerConfig, PoolConfig, ReaperConfig, ServerConfig};
use den::docker::DockerAction;
use den::error::DenError;
use den::reaper::{cleanup_containers, cleanup_volumes, Doomed, Reaper, Suspect};
use den::registry::Registry;
use den::sandbox::{Sandbox, SandboxState};

fn reaper() -> Reaper {
    Reaper::new(Arc::new(DenConfig {
        server: ServerConfig { host: "h".into(), port: 1, api_key: None },
        docker: DockerConfig { socket: None, network: None },
        pool: PoolConfig { replenish_interval_secs: 5 },
        reaper: ReaperConfig { interval_secs: 10, idle_timeout_secs: 300, volume_ttl_secs: 1000 },
        tiers: vec![],
    }))
}

fn at(secs: i64) -> Timestamp {
    Timestamp::from_unix(secs, 0).unwrap()
}

/// A sandbox that started at second 0 and was last used at `used`.
fn sandbox(id: &str, state: SandboxState, used: i64) -> Sandbox {
    let mut s = Sandbox::new_at(
        id.into(),
        format!("c-{id}"),
        format!("v-{id}"),
        "t".into(),
        3600,
        HashMap::new(),
        vec![],
        1,
        at(0),
    );
    s.state = state;
    s.started_at = Some(at(0));
    s.touch_at(at(used));
    s
}

fn registry(list: Vec<Sandbox>) -> Registry {
    let mut r = Registry::new();
    for s in list {
        r.put(s);
    }
    r
}

fn show(actions: &Vec<DockerAction>) -> Vec<String> {
    actions
        .iter()
        .map(|a| match a {
            DockerAction::StopContainer { id, timeout_secs } => format!("stop {id} {timeout_secs}"),
            DockerAction::RemoveContainer { id } => format!("rm {id}"),
            DockerAction::RemoveVolume { name } => format!("rmvol {name}"),
        })
        .collect()
}

fn doom(s: Suspect, running: Result<bool, DenError>) -> Option<Doomed> {
    Reaper::judge(s, running)
}

#[test]
fn only_running_sandboxes_are_suspects() {
    let r = registry(vec![
        sandbox("busy", SandboxState::Running, 1000),
        sandbox("idle", SandboxState::Running, 700),
        sandbox("done", SandboxState::Completed, 0),
        sandbox("starting", SandboxState::Starting, 0),
    ]);
    let mut found: Vec<(String, String, bool)> = reaper()
        .survey(&r, &at(1000))
        .into_iter()
        .map(|s| (s.id, s.container_id, s.due))
        .collect();
    found.sort();
    assert_eq!(
        found,
        vec![
            ("busy".to_string(), "c-busy".to_string(), false),
            ("idle".to_string(), "c-idle".to_string(), true)
        ]
    );
    // past its hour, even a busy sandbox is due
    let r = registry(vec![sandbox("busy", SandboxState::Running, 3600)]);
    assert!(reaper().survey(&r, &at(3600))[0].due);
}

fn suspect(due: bool) -> Suspect {
    Suspect { id: "a".into(), container_id: "c-a".into(), due }
}

#[test]
fn judgement() {
    assert_eq!(doom(suspect(true), Ok(true)).unwrap().target, SandboxState::Timeout);
    let d = doom(suspect(false), Ok(false)).unwrap();
    assert_eq!(d.target, SandboxState::Defunct);
    assert_eq!((d.id.as_str(), d.container_id.as_str()), ("a", "c-a"));
    assert!(doom(suspect(false), Ok(true)).is_none());
    assert!(doom(suspect(false), Err(DenError::Docker("x".into()))).is_none());
}

#[test]
fn reaping_keeps_the_volume() {
    let mut r = registry(vec![
        sandbox("a", SandboxState::Running, 0),
        sandbox("b", SandboxState::Running, 0),
    ]);
    let timed_out =
        Doomed { id: "a".into(), container_id: "c-a".into(), target: SandboxState::Timeout };
    let crashed =
        Doomed { id: "b".into(), container_id: "c-b".into(), target: SandboxState::Defunct };
    assert_eq!(show(&Reaper::reap(&mut r, &timed_out, at(50))), vec!["stop c-a 5", "rm c-a"]);
    assert_eq!(show(&Reaper::reap(&mut r, &crashed, at(50))), vec!["rm c-b"]);
    let a = r.get("a").unwrap();
    assert_eq!(a.state, SandboxState::Timeout);
    assert_eq!(a.volume_name, "v-a");
    assert_eq!(a.last_activity, at(50));
    assert_eq!(r.get("b").unwrap().state, SandboxState::Defunct);
    // a sandbox that has ended meanwhile keeps its state
    assert_eq!(show(&Reaper::reap(&mut r, &crashed, at(60))), vec!["rm c-b"]);
    assert_eq!(r.get("b").unwrap().last_activity, at(50));
    let gone = Doomed { id: "x".into(), container_id: "y".into(), target: SandboxState::Defunct };
    assert_eq!(show(&Reaper::reap(&mut r, &gone, at(60))), vec!["rm y"]);
}

#[test]
fn old_volumes_go_with_their_sandboxes() {
    let mut r = registry(vec![
        sandbox("done", SandboxState::Completed, 0),
        sandbox("failed", SandboxState::Failed, 0),
        sandbox("crashed", SandboxState::Defunct, 0),
        sandbox("fresh", SandboxState::Timeout, 500),
        sandbox("running", SandboxState::Running, 0),
    ]);
    assert!(reaper().overdue(&r, &at(999)).is_empty());
    let mut due = reaper().overdue(&r, &at(1000));
    due.sort_by(|a, b| a.id.cmp(&b.id));
    let ids: Vec<&str> = due.iter().map(|d| d.id.as_str()).collect();
    assert_eq!(ids, vec!["crashed", "done", "failed"]);
    let actions = Reaper::forget(&mut r, &due[0]).unwrap();
    assert_eq!(show(&actions), vec!["rm c-crashed", "rmvol v-crashed"]);
    assert!(r.get("crashed").is_none());
    // one that is being resumed is left alone
    let mut s = r.get("done").unwrap();
    s.state = SandboxState::Starting;
    r.put(s);
    assert!(Reaper::forget(&mut r, &due[1]).is_none());
    assert!(r.get("done").is_some());
    // and so is one that is gone
    r.remove("failed");
    assert!(Reaper::forget(&mut r, &due[2]).is_none());
}

#[test]
fn orphans_go_and_known_sandboxes_stay() {
    let r = registry(vec![sandbox("a", SandboxState::Completed, 0)]);
    let ids = vec![Some("x".to_string()), None, Some(String::new()), Some("c-a".to_string())];
    assert_eq!(show(&cleanup_containers(&r, &ids)), vec!["stop x 2", "rm x"]);
    let names = vec!["v-a".to_string(), "v-b".into(), "v-c".into()];
    assert_eq!(show(&cleanup_volumes(&r, &names)), vec!["rmvol v-b", "rmvol v-c"]);
    let none = Registry::new();
    assert_eq!(cleanup_volumes(&none, &names).len(), 3);
}
