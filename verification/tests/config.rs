use den::config::{
    default_host, default_idle_timeout, default_max_concurrent_execs, default_pids,
    default_pool_size, default_port, default_reaper_interval, default_replenish_interval,
    default_volume_ttl, load, validate, DenConfig, DockerConfig, NamedTier, PoolConfig,
    ReaperConfig, ServerConfig, TierConfig,
};
use den::cpus::Cpus;
use den::error::DenError;

fn text(t: &toml::Table, key: &str) -> Option<String> {
    t.get(key).and_then(|v| v.as_str()).map(|s| s.to_string())
}

fn number(t: &toml::Table, key: &str) -> Option<i64> {
    t.get(key).and_then(|v| v.as_integer())
}

fn parse(source: &str) -> DenConfig {
    let root: toml::Table = source.parse().unwrap();
    let section = |name: &str| root.get(name).and_then(|v| v.as_table());
    let server = section("server").unwrap();
    let pool = section("pool").unwrap();
    let reaper = section("reaper").unwrap();
    let mut tiers = Vec::new();
    if let Some(t) = section("tiers") {
        for (name, value) in t {
            let t = value.as_table().unwrap();
            tiers.push(NamedTier {
                name: name.clone(),
                config: TierConfig {
                    image: text(t, "image").unwrap(),
                    memory_mb: number(t, "memory_mb").unwrap() as u64,
                    cpus: Cpus {
                        bits: t.get("cpus").and_then(|v| v.as_float()).unwrap().to_bits(),
                    },
                    pids: number(t, "pids").unwrap_or(default_pids()),
                    timeout_secs: number(t, "timeout_secs").unwrap() as u64,
                    pool_size: number(t, "pool_size")
                        .map(|n| n as usize)
                        .unwrap_or(default_pool_size()),
                    readonly_rootfs: false,
                    tmpfs: None,
                    max_concurrent_execs: default_max_concurrent_execs(),
                },
            });
        }
    }
    DenConfig {
        server: ServerConfig {
            host: text(server, "host").unwrap_or(default_host()),
            port: number(server, "port").map(|n| n as u16).unwrap_or(default_port()),
            api_key: text(server, "api_key"),
        },
        docker: DockerConfig { socket: None, network: None },
        pool: PoolConfig {
            replenish_interval_secs: number(pool, "replenish_interval_secs")
                .map(|n| n as u64)
                .unwrap_or(default_replenish_interval()),
        },
        reaper: ReaperConfig {
            interval_secs: number(reaper, "interval_secs")
                .map(|n| n as u64)
                .unwrap_or(default_reaper_interval()),
            idle_timeout_secs: number(reaper, "idle_timeout_secs")
                .map(|n| n as u64)
                .unwrap_or(default_idle_timeout()),
            volume_ttl_secs: number(reaper, "volume_ttl_secs")
                .map(|n| n as u64)
                .unwrap_or(default_volume_ttl()),
        },
        tiers,
    }
}

#[test]
fn parse_valid_config() {
    let toml = r#"
[server]
host = "127.0.0.1"
port = 9090

[pool]
replenish_interval_secs = 3

[reaper]
interval_secs = 5
idle_timeout_secs = 60

[tiers.test]
image = "ubuntu:24.04"
memory_mb = 256
cpus = 0.5
timeout_secs = 300
pool_size = 2
"#;
    let config = parse(toml);
    assert_eq!(config.server.port, 9090);
    assert_eq!(config.tiers.len(), 1);
    assert_eq!(config.tier("test").unwrap().memory_mb, 256);
    assert!(validate(&config).is_ok());
}

#[test]
fn reject_zero_memory() {
    let toml = r#"
[server]
[pool]
replenish_interval_secs = 5
[reaper]
interval_secs = 10
idle_timeout_secs = 300
[tiers.bad]
image = "ubuntu:24.04"
memory_mb = 0
cpus = 1.0
timeout_secs = 60
"#;
    let config = parse(toml);
    assert!(validate(&config).is_err());
}

#[test]
fn reject_no_tiers() {
    let toml = r#"
[server]
[pool]
replenish_interval_secs = 5
[reaper]
interval_secs = 10
idle_timeout_secs = 300
"#;
    let config = parse(toml);
    assert!(validate(&config).is_err());
}

fn tier(image: &str, memory_mb: u64, cpus: f64) -> TierConfig {
    TierConfig {
        image: image.into(),
        memory_mb,
        cpus: Cpus { bits: cpus.to_bits() },
        pids: default_pids(),
        timeout_secs: 60,
        pool_size: default_pool_size(),
        readonly_rootfs: false,
        tmpfs: None,
        max_concurrent_execs: default_max_concurrent_execs(),
    }
}

fn config_with(tiers: Vec<(&str, TierConfig)>) -> DenConfig {
    DenConfig {
        server: ServerConfig { host: default_host(), port: default_port(), api_key: None },
        docker: DockerConfig { socket: None, network: None },
        pool: PoolConfig { replenish_interval_secs: default_replenish_interval() },
        reaper: ReaperConfig {
            interval_secs: default_reaper_interval(),
            idle_timeout_secs: default_idle_timeout(),
            volume_ttl_secs: default_volume_ttl(),
        },
        tiers: tiers
            .into_iter()
            .map(|(name, config)| NamedTier { name: name.into(), config })
            .collect(),
    }
}

fn refusal(c: &DenConfig) -> String {
    match validate(c) {
        Err(DenError::Config(m)) => m,
        _ => panic!("not refused"),
    }
}

#[test]
fn each_fault_has_its_message() {
    assert_eq!(refusal(&config_with(vec![])), "at least one tier required");
    assert_eq!(
        refusal(&config_with(vec![("a", tier("x", 0, 1.0))])),
        "tier a: memory_mb must be > 0"
    );
    assert_eq!(
        refusal(&config_with(vec![("a", tier("x", 1, 0.0))])),
        "tier a: cpus must be > 0"
    );
    assert_eq!(
        refusal(&config_with(vec![("a", tier("x", 1, -0.0))])),
        "tier a: cpus must be > 0"
    );
    assert_eq!(
        refusal(&config_with(vec![("a", tier("x", 1, -2.5))])),
        "tier a: cpus must be > 0"
    );
    assert_eq!(
        refusal(&config_with(vec![("a", tier("", 1, 1.0))])),
        "tier a: image required"
    );
    // a fault behind a sound tier is found too
    assert_eq!(
        refusal(&config_with(vec![("a", tier("x", 1, 1.0)), ("b", tier("x", 0, 1.0))])),
        "tier b: memory_mb must be > 0"
    );
}

#[test]
fn fractional_and_odd_cpu_numbers() {
    assert!(validate(&config_with(vec![("a", tier("x", 1, 0.25))])).is_ok());
    assert!(validate(&config_with(vec![("a", tier("x", 1, 5e-324))])).is_ok());
    // what is no number is not refused, as it is not below zero
    assert!(validate(&config_with(vec![("a", tier("x", 1, f64::NAN))])).is_ok());
    assert!(validate(&config_with(vec![("a", tier("x", 1, f64::NEG_INFINITY))])).is_err());
}

#[test]
fn cpu_numbers_compare_as_doubles_do() {
    let values = [
        f64::NEG_INFINITY,
        -2.0,
        -0.5,
        -5e-324,
        -0.0,
        0.0,
        5e-324,
        0.5,
        1.0,
        1.5,
        64.0,
        f64::INFINITY,
        f64::NAN,
    ];
    for a in values {
        let x = Cpus { bits: a.to_bits() };
        assert_eq!(x.not_positive(), a <= 0.0, "{a}");
        for b in values {
            let y = Cpus { bits: b.to_bits() };
            assert_eq!(x.more_than(&y), a > b, "{a} {b}");
        }
    }
}

#[test]
fn defaults_are_as_documented() {
    assert_eq!(default_host(), "0.0.0.0");
    assert_eq!(default_port(), 8080);
    assert_eq!(default_replenish_interval(), 5);
    assert_eq!(default_reaper_interval(), 10);
    assert_eq!(default_idle_timeout(), 300);
    assert_eq!(default_volume_ttl(), 86400);
    assert_eq!(default_pids(), 256);
    assert_eq!(default_pool_size(), 3);
    assert_eq!(default_max_concurrent_execs(), 4);
}

#[test]
fn loading_reports_what_is_wrong() {
    let e = load("den.toml", Err("no such file".into())).unwrap_err();
    assert_eq!(e.message(), "config: den.toml: no such file");
    let e = load("den.toml", Ok(config_with(vec![]))).unwrap_err();
    assert_eq!(e.message(), "config: at least one tier required");
    let c = load("den.toml", Ok(config_with(vec![("a", tier("x", 1, 1.0))]))).unwrap();
    assert_eq!(c.tiers[0].name, "a");
    assert_eq!(c.server.address(), "0.0.0.0:8080");
}

#[test]
fn tiers_are_found_by_name() {
    let c = config_with(vec![("a", tier("x", 1, 1.0)), ("b", tier("y", 2, 1.0))]);
    assert_eq!(c.tier_position("b"), Some(1));
    assert_eq!(c.tier("b").unwrap().image, "y");
    assert!(c.tier("c").is_none());
}

#[test]
fn a_tier_cannot_be_named_twice() {
    let twice = || {
        config_with(vec![
            ("a", tier("x", 1, 1.0)),
            ("b", tier("x", 1, 1.0)),
            ("a", tier("y", 1, 1.0)),
        ])
    };
    assert!(!twice().names_differ());
    let e = load("den.toml", Ok(twice())).unwrap_err();
    assert_eq!(e.message(), "config: den.toml: duplicate tier name");
    assert!(config_with(vec![("a", tier("x", 1, 1.0)), ("b", tier("x", 1, 1.0))]).names_differ());
}
