//! Configuration and what makes it acceptable.

use std::collections::HashMap;

use vstd::prelude::*;

use crate::cpus::Cpus;
use crate::error::DenError;
#[allow(unused_imports)]
use crate::error::ErrorView;
#[allow(unused_imports)]
use crate::text;
use crate::text::{join3, render_decimal, same_text};

verus! {

#[derive(Debug)]
pub struct DenConfig {
    pub server: ServerConfig,
    pub docker: DockerConfig,
    pub pool: PoolConfig,
    pub reaper: ReaperConfig,
    /// The tiers, in the order in which they are walked.
    pub tiers: Vec<NamedTier>,
}

#[derive(Debug)]
pub struct ServerConfig {
    pub host: String,
    pub port: u16,
    pub api_key: Option<String>,
}

#[derive(Debug)]
pub struct DockerConfig {
    pub socket: Option<String>,
    pub network: Option<String>,
}

#[derive(Debug)]
pub struct PoolConfig {
    pub replenish_interval_secs: u64,
}

#[derive(Debug)]
pub struct ReaperConfig {
    pub interval_secs: u64,
    pub idle_timeout_secs: u64,
    pub volume_ttl_secs: u64,
}

#[derive(Debug)]
pub struct NamedTier {
    pub name: String,
    pub config: TierConfig,
}

#[derive(Debug)]
pub struct TierConfig {
    pub image: String,
    pub memory_mb: u64,
    pub cpus: Cpus,
    pub pids: i64,
    pub timeout_secs: u64,
    pub pool_size: usize,
    pub readonly_rootfs: bool,
    pub tmpfs: Option<HashMap<String, String>>,
    /// Most exec requests at once per sandbox; one more is refused.
    pub max_concurrent_execs: usize,
}

pub fn default_host() -> (r: String)
    ensures
        r@ == "0.0.0.0"@,
{
    "0.0.0.0".to_string()
}

pub fn default_port() -> (r: u16)
    ensures
        r == 8080,
{
    8080
}

pub fn default_replenish_interval() -> (r: u64)
    ensures
        r == 5,
{
    5
}

pub fn default_reaper_interval() -> (r: u64)
    ensures
        r == 10,
{
    10
}

pub fn default_idle_timeout() -> (r: u64)
    ensures
        r == 300,
{
    300
}

/// A day.
pub fn default_volume_ttl() -> (r: u64)
    ensures
        r == 86400,
{
    86400
}

pub fn default_pids() -> (r: i64)
    ensures
        r == 256,
{
    256
}

pub fn default_pool_size() -> (r: usize)
    ensures
        r == 3,
{
    3
}

pub fn default_max_concurrent_execs() -> (r: usize)
    ensures
        r == 4,
{
    4
}

/// Position of the first tier called `name`.
pub open spec fn tier_index(tiers: Seq<NamedTier>, name: Seq<char>) -> Option<int>
    decreases tiers.len(),
{
    if tiers.len() == 0 {
        None
    } else if tiers[0].name@ == name {
        Some(0)
    } else {
        match tier_index(tiers.drop_first(), name) {
            Some(i) => Some(i + 1),
            None => None,
        }
    }
}

/// Whether no two tiers share a name.
pub open spec fn distinct_names(tiers: Seq<NamedTier>) -> bool {
    forall|i: int, j: int|
        0 <= i < j < tiers.len() ==> #[trigger] tiers[i].name@ != #[trigger] tiers[j].name@
}

pub proof fn lemma_tier_index(tiers: Seq<NamedTier>, name: Seq<char>)
    ensures
        match tier_index(tiers, name) {
            Some(i) => 0 <= i < tiers.len() && tiers[i].name@ == name && forall|k: int|
                0 <= k < i ==> #[trigger] tiers[k].name@ != name,
            None => forall|k: int| 0 <= k < tiers.len() ==> #[trigger] tiers[k].name@ != name,
        },
    decreases tiers.len(),
{
    if tiers.len() > 0 && tiers[0].name@ != name {
        let rest = tiers.drop_first();
        lemma_tier_index(rest, name);
        match tier_index(rest, name) {
            Some(i) => {
                assert(rest[i] == tiers[i + 1]);
                assert forall|k: int| 0 <= k < i + 1 implies #[trigger] tiers[k].name@ != name by {
                    if k > 0 {
                        assert(rest[k - 1] == tiers[k]);
                    }
                }
            },
            None => {
                assert forall|k: int| 0 <= k < tiers.len() implies #[trigger] tiers[k].name@
                    != name by {
                    if k > 0 {
                        assert(rest[k - 1] == tiers[k]);
                    }
                }
            },
        }
    }
}

/// The first position with the name is where the search ends.
pub proof fn lemma_tier_index_is(tiers: Seq<NamedTier>, name: Seq<char>, i: int)
    requires
        0 <= i < tiers.len(),
        tiers[i].name@ == name,
        forall|k: int| 0 <= k < i ==> #[trigger] tiers[k].name@ != name,
    ensures
        tier_index(tiers, name) == Some(i),
{
    lemma_tier_index(tiers, name);
}

impl DenConfig {
    /// Position of the tier called `name`.
    pub fn tier_position(&self, name: &str) -> (r: Option<usize>)
        ensures
            match r {
                Some(i) => tier_index(self.tiers@, name@) == Some(i as int) && i < self.tiers.len(),
                None => tier_index(self.tiers@, name@) is None,
            },
    {
        proof {
            lemma_tier_index(self.tiers@, name@);
        }
        let mut i: usize = 0;
        while i < self.tiers.len()
            invariant
                i <= self.tiers.len(),
                forall|k: int| 0 <= k < i ==> #[trigger] self.tiers@[k].name@ != name@,
            decreases self.tiers.len() - i,
        {
            if same_text(self.tiers[i].name.as_str(), name) {
                proof {
                    lemma_tier_index_is(self.tiers@, name@, i as int);
                }
                return Some(i);
            }
            i += 1;
        }
        proof {
            lemma_tier_index(self.tiers@, name@);
        }
        None
    }

    /// The tier called `name`.
    pub fn tier(&self, name: &str) -> (r: Option<&TierConfig>)
        ensures
            match tier_index(self.tiers@, name@) {
                Some(i) => r == Some(&self.tiers@[i].config),
                None => r is None,
            },
    {
        match self.tier_position(name) {
            Some(i) => Some(&self.tiers[i].config),
            None => None,
        }
    }
}

/// What is wrong with a tier, if anything.
pub open spec fn tier_fault(t: NamedTier) -> Option<Seq<char>> {
    if t.config.memory_mb == 0 {
        Some("tier "@ + t.name@ + ": memory_mb must be > 0"@)
    } else if t.config.cpus.at_most_zero() {
        Some("tier "@ + t.name@ + ": cpus must be > 0"@)
    } else if t.config.image@.len() == 0 {
        Some("tier "@ + t.name@ + ": image required"@)
    } else {
        None
    }
}

/// What is wrong with the first faulty tier, if there is one.
pub open spec fn first_fault(tiers: Seq<NamedTier>) -> Option<Seq<char>>
    decreases tiers.len(),
{
    if tiers.len() == 0 {
        None
    } else if tier_fault(tiers[0]) is Some {
        tier_fault(tiers[0])
    } else {
        first_fault(tiers.drop_first())
    }
}

/// What is wrong with a list of tiers, if anything.
pub open spec fn config_fault(tiers: Seq<NamedTier>) -> Option<Seq<char>> {
    if tiers.len() == 0 {
        Some("at least one tier required"@)
    } else {
        first_fault(tiers)
    }
}

/// Whether a tier is acceptable.
pub open spec fn sound_tier(t: NamedTier) -> bool {
    &&& t.config.memory_mb > 0
    &&& !t.config.cpus.at_most_zero()
    &&& t.config.image@.len() > 0
}

/// Refuse a configuration without tiers, or with a tier that has no memory, no
/// CPU or no image.
pub fn validate(config: &DenConfig) -> (r: Result<(), DenError>)
    ensures
        match config_fault(config.tiers@) {
            Some(m) => r is Err && r->Err_0@ == ErrorView::Config(m),
            None => r is Ok,
        },
{
    if config.tiers.len() == 0 {
        return Err(DenError::Config("at least one tier required".to_string()));
    }
    let mut i: usize = 0;
    assert(config.tiers@.skip(0) =~= config.tiers@);
    while i < config.tiers.len()
        invariant
            i <= config.tiers.len(),
            config.tiers.len() > 0,
            first_fault(config.tiers@) == first_fault(config.tiers@.skip(i as int)),
        decreases config.tiers.len() - i,
    {
        let named = &config.tiers[i];
        let tier = &named.config;
        assert(config.tiers@.skip(i as int)[0] == *named);
        assert(config.tiers@.skip(i as int).drop_first() =~= config.tiers@.skip(i + 1));
        if tier.memory_mb == 0 {
            return Err(
                DenError::Config(join3("tier ", named.name.as_str(), ": memory_mb must be > 0")),
            );
        }
        if tier.cpus.not_positive() {
            return Err(DenError::Config(join3("tier ", named.name.as_str(), ": cpus must be > 0")));
        }
        if tier.image.as_str().is_empty() {
            return Err(DenError::Config(join3("tier ", named.name.as_str(), ": image required")));
        }
        i += 1;
    }
    Ok(())
}

impl DenConfig {
    /// Whether no two tiers share a name.
    pub fn names_differ(&self) -> (r: bool)
        ensures
            r == distinct_names(self.tiers@),
    {
        let n = self.tiers.len();
        let mut i: usize = 0;
        while i < n
            invariant
                i <= n,
                n == self.tiers.len(),
                forall|a: int, b: int|
                    0 <= a < i && a < b < n ==> #[trigger] self.tiers@[a].name@
                        != #[trigger] self.tiers@[b].name@,
            decreases n - i,
        {
            let mut j: usize = i + 1;
            while j < n
                invariant
                    i < j <= n,
                    n == self.tiers.len(),
                    forall|b: int|
                        i < b < j ==> self.tiers@[i as int].name@ != #[trigger] self.tiers@[b].name@,
                decreases n - j,
            {
                if same_text(self.tiers[i].name.as_str(), self.tiers[j].name.as_str()) {
                    assert(self.tiers@[i as int].name@ == self.tiers@[j as int].name@);
                    return false;
                }
                j += 1;
            }
            i += 1;
        }
        true
    }
}

/// Take in the configuration that was read from `path`. One that could not be
/// read, for the reason given, that names a tier twice or that is not acceptable
/// is refused.
pub fn load(path: &str, parsed: Result<DenConfig, String>) -> (r: Result<DenConfig, DenError>)
    ensures
        match parsed {
            Err(m) => r is Err && r->Err_0@ == ErrorView::Config(path@ + ": "@ + m@),
            Ok(config) => if !distinct_names(config.tiers@) {
                r is Err && r->Err_0@ == ErrorView::Config(path@ + ": "@ + "duplicate tier name"@)
            } else {
                match config_fault(config.tiers@) {
                    Some(m) => r is Err && r->Err_0@ == ErrorView::Config(m),
                    None => r == Ok::<DenConfig, DenError>(config),
                }
            },
        },
        r is Ok ==> distinct_names(r->Ok_0.tiers@),
{
    match parsed {
        Err(m) => Err(DenError::Config(join3(path, ": ", m.as_str()))),
        Ok(config) => {
            if !config.names_differ() {
                return Err(DenError::Config(join3(path, ": ", "duplicate tier name")));
            }
            match validate(&config) {
                Ok(_) => Ok(config),
                Err(e) => Err(e),
            }
        },
    }
}

impl ServerConfig {
    /// The address to listen at: `{host}:{port}`.
    pub fn address(&self) -> (r: String)
        ensures
            r@ == self.host@ + ":"@ + text::decimal(self.port as nat),
    {
        join3(self.host.as_str(), ":", render_decimal(self.port as u64).as_str())
    }
}

/// A configuration is accepted exactly when it has a tier and every tier is
/// sound, in whatever order the tiers are walked.
pub proof fn accepted_exactly_when_sound(tiers: Seq<NamedTier>)
    ensures
        config_fault(tiers) is None <==> tiers.len() > 0 && forall|i: int|
            0 <= i < tiers.len() ==> sound_tier(#[trigger] tiers[i]),
{
    lemma_first_fault(tiers);
}

proof fn lemma_first_fault(tiers: Seq<NamedTier>)
    ensures
        first_fault(tiers) is None <==> forall|i: int|
            0 <= i < tiers.len() ==> sound_tier(#[trigger] tiers[i]),
    decreases tiers.len(),
{
    if tiers.len() > 0 {
        let rest = tiers.drop_first();
        lemma_first_fault(rest);
        if first_fault(tiers) is None {
            assert forall|i: int| 0 <= i < tiers.len() implies sound_tier(#[trigger] tiers[i]) by {
                if i > 0 {
                    assert(rest[i - 1] == tiers[i]);
                }
            }
        }
        if forall|i: int| 0 <= i < tiers.len() ==> sound_tier(#[trigger] tiers[i]) {
            assert(sound_tier(tiers[0]));
            assert forall|i: int| 0 <= i < rest.len() implies sound_tier(#[trigger] rest[i]) by {
                assert(rest[i] == tiers[i + 1]);
            }
        }
    }
}

/// A configuration is accepted exactly when it has a tier, and every tier has
/// memory, an image and a number of CPUs that is not zero or below; the bits of the
/// double tell that.
pub proof fn what_is_accepted(tiers: Seq<NamedTier>)
    ensures
        config_fault(tiers) is None <==> tiers.len() > 0 && forall|i: int|
            #![trigger tiers[i]]
            0 <= i < tiers.len() ==> {
                let t = tiers[i].config;
                &&& t.memory_mb > 0
                &&& t.image@.len() > 0
                &&& t.cpus.bits != 0
                &&& t.cpus.bits < 0x8000_0000_0000_0000 || t.cpus.bits > 0xFFF0_0000_0000_0000
            },
{
    lemma_first_fault(tiers);
    if first_fault(tiers) is None {
        assert forall|i: int| #![trigger tiers[i]] 0 <= i < tiers.len() implies {
            let t = tiers[i].config;
            &&& t.memory_mb > 0
            &&& t.image@.len() > 0
            &&& t.cpus.bits != 0
            &&& t.cpus.bits < 0x8000_0000_0000_0000 || t.cpus.bits > 0xFFF0_0000_0000_0000
        } by {
            assert(sound_tier(tiers[i]));
        }
    }
}

/// What is reported is the fault of the first faulty tier, and it names the tier.
pub proof fn the_first_fault_is_reported(tiers: Seq<NamedTier>, i: int)
    requires
        0 <= i < tiers.len(),
        !sound_tier(tiers[i]),
        forall|k: int| 0 <= k < i ==> sound_tier(#[trigger] tiers[k]),
    ensures
        config_fault(tiers) is Some,
        config_fault(tiers) == tier_fault(tiers[i]),
        ("tier "@ + tiers[i].name@).is_prefix_of(config_fault(tiers)->0),
    decreases i,
{
    if i > 0 {
        let rest = tiers.drop_first();
        assert(sound_tier(tiers[0]));
        assert(rest[i - 1] == tiers[i]);
        assert forall|k: int| 0 <= k < i - 1 implies sound_tier(#[trigger] rest[k]) by {
            assert(rest[k] == tiers[k + 1]);
        }
        the_first_fault_is_reported(rest, i - 1);
    }
    let head = "tier "@ + tiers[i].name@;
    let m = tier_fault(tiers[i])->0;
    assert(m.subrange(0, head.len() as int) =~= head);
}

/// The fault of a tier: no memory comes before no CPU, and that before no image.
pub proof fn faults_of_a_tier(t: NamedTier)
    ensures
        t.config.memory_mb == 0 ==> tier_fault(t) == Some(
            "tier "@ + t.name@ + ": memory_mb must be > 0"@,
        ),
        t.config.memory_mb > 0 && t.config.cpus.at_most_zero() ==> tier_fault(t) == Some(
            "tier "@ + t.name@ + ": cpus must be > 0"@,
        ),
        t.config.memory_mb > 0 && !t.config.cpus.at_most_zero() && t.config.image@.len() == 0
            ==> tier_fault(t) == Some("tier "@ + t.name@ + ": image required"@),
{
}

/// In a configuration that names no tier twice, a tier is found by its name and no
/// other name finds it.
pub proof fn tiers_are_found_by_name(tiers: Seq<NamedTier>, i: int, name: Seq<char>)
    requires
        distinct_names(tiers),
        0 <= i < tiers.len(),
    ensures
        tier_index(tiers, name) == Some(i) <==> tiers[i].name@ == name,
        tier_index(tiers, name) is None ==> tiers[i].name@ != name,
        forall|j: int| 0 <= j < tiers.len() && j != i ==> tiers[i].name@ != #[trigger] tiers[j].name@,
{
    lemma_tier_index(tiers, name);
}

/// What holds where a configuration does not say: port 8080 on every address, five
/// seconds between replenishings and ten between sweeps, five minutes of idleness, a
/// day for volumes, and for a tier 256 processes, three containers ready and four
/// commands at once.
pub proof fn what_holds_by_default(
    host: String,
    port: u16,
    replenish: u64,
    sweep: u64,
    idle: u64,
    ttl: u64,
    pids: i64,
    size: usize,
    execs: usize,
)
    requires
        call_ensures(default_host, (), host),
        call_ensures(default_port, (), port),
        call_ensures(default_replenish_interval, (), replenish),
        call_ensures(default_reaper_interval, (), sweep),
        call_ensures(default_idle_timeout, (), idle),
        call_ensures(default_volume_ttl, (), ttl),
        call_ensures(default_pids, (), pids),
        call_ensures(default_pool_size, (), size),
        call_ensures(default_max_concurrent_execs, (), execs),
    ensures
        host@ == "0.0.0.0"@,
        port == 8080,
        replenish == 5,
        sweep == 10,
        idle == 5 * 60,
        ttl == 24 * 60 * 60,
        pids == 256,
        size == 3,
        execs == 4,
{
}

/// A configuration that could be read is taken as it is where its tiers have different
/// names and each has memory, CPUs and an image, and there is one; else it is refused.
pub proof fn sound_configurations_are_taken_as_they_are(
    path: &str,
    config: DenConfig,
    r: Result<DenConfig, DenError>,
)
    requires
        call_ensures(load, (path, Ok(config)), r),
    ensures
        r is Ok <==> {
            &&& config.tiers@.len() > 0
            &&& forall|i: int, j: int|
                0 <= i < j < config.tiers@.len() ==> #[trigger] config.tiers@[i].name@
                    != #[trigger] config.tiers@[j].name@
            &&& forall|i: int|
                0 <= i < config.tiers@.len() ==> {
                    let t = (#[trigger] config.tiers@[i]).config;
                    t.memory_mb > 0 && !t.cpus.at_most_zero() && t.image@.len() > 0
                }
        },
        r is Ok ==> r->Ok_0 == config,
        r is Err ==> r->Err_0@ is Config,
{
    what_is_accepted(config.tiers@);
}

/// A configuration that could not be read is refused, with its path and the reason.
pub proof fn unreadable_configurations_are_refused(
    path: &str,
    reason: String,
    r: Result<DenConfig, DenError>,
)
    requires
        call_ensures(load, (path, Err(reason)), r),
    ensures
        r is Err,
        r->Err_0@ == ErrorView::Config(path@ + ": "@ + reason@),
{
}

/// A tier is found under its name, and nothing under a name that no tier has.
pub proof fn tiers_are_looked_up_by_name(
    config: &DenConfig,
    name: &str,
    r: Option<&TierConfig>,
    i: int,
)
    requires
        distinct_names(config.tiers@),
        call_ensures(DenConfig::tier, (config, name), r),
    ensures
        0 <= i < config.tiers@.len() && config.tiers@[i].name@ == name@ ==> r is Some && *r->0
            == config.tiers@[i].config,
        (forall|k: int| 0 <= k < config.tiers@.len() ==> (#[trigger] config.tiers@[k]).name@ != name@)
            ==> r is None,
{
    lemma_tier_index(config.tiers@, name@);
    if 0 <= i < config.tiers@.len() && config.tiers@[i].name@ == name@ {
        tiers_are_found_by_name(config.tiers@, i, name@);
    }
}

/// The address to listen at is the host, a colon and the port in decimal.
pub proof fn addresses_are_host_and_port(server: &ServerConfig, r: String)
    requires
        call_ensures(ServerConfig::address, (server,), r),
    ensures
        r@ == server.host@ + seq![':'] + text::decimal(server.port as nat),
{
    reveal_strlit(":");
    assert(":"@ =~= seq![':']);
}

/// A configuration without tiers is refused for that.
pub proof fn a_tier_is_required(tiers: Seq<NamedTier>)
    ensures
        tiers.len() == 0 ==> config_fault(tiers) == Some("at least one tier required"@),
{
}

} // verus!
