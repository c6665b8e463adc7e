//! The parts of the configuration that the logic reads.
use vstd::prelude::*;

use crate::collections::key_views;
use crate::domain::{KeyView, SignalKey};

verus! {

/// Where the signal service lives and the key to call it with.
#[derive(Debug, Clone, PartialEq, Eq)]
pub struct ApiConfig {
    pub base_url: String,
    pub api_key: String,
}

impl Default for ApiConfig {
    fn default() -> (c: Self)
        ensures
            c.base_url@ == "https://example.com"@,
            c.api_key@ == "replace-with-real-api-key"@,
    {
        ApiConfig {
            base_url: "https://example.com".to_string(),
            api_key: "replace-with-real-api-key".to_string(),
        }
    }
}

/// How often to poll and how many rows to ask for.
#[derive(Debug, Clone, Copy, PartialEq, Eq, Structural)]
pub struct PollConfig {
    pub interval_secs: u64,
    pub page_size: u32,
}

impl Default for PollConfig {
    fn default() -> (c: Self)
        ensures
            c.interval_secs == 8,
            c.page_size == 100,
    {
        PollConfig { interval_secs: 8, page_size: 100 }
    }
}

/// A watched symbol with the periods and signal types shown for it.
#[derive(Debug, Clone, PartialEq, Eq)]
pub struct GroupConfig {
    pub id: String,
    pub name: String,
    pub symbol: String,
    pub periods: Vec<String>,
    pub signal_types: Vec<String>,
    pub enabled: bool,
}

/// The mathematical value of a group: its texts and whether it is enabled.
pub struct GroupView {
    pub id: Seq<char>,
    pub name: Seq<char>,
    pub symbol: Seq<char>,
    pub periods: Seq<Seq<char>>,
    pub signal_types: Seq<Seq<char>>,
    pub enabled: bool,
}

impl View for GroupConfig {
    type V = GroupView;

    open spec fn view(&self) -> GroupView {
        GroupView {
            id: self.id@,
            name: self.name@,
            symbol: self.symbol@,
            periods: self.periods@.map_values(|p: String| p@),
            signal_types: self.signal_types@.map_values(|t: String| t@),
            enabled: self.enabled,
        }
    }
}

/// The view of every group of a list.
pub open spec fn groups_view(groups: Seq<GroupConfig>) -> Seq<GroupView> {
    groups.map_values(|g: GroupConfig| g@)
}

/// A copy of `v`, element by element.
pub fn copy_strings(v: &Vec<String>) -> (r: Vec<String>)
    ensures
        r@ == v@,
{
    let mut r: Vec<String> = Vec::new();
    let mut i: usize = 0;
    while i < v.len()
        invariant
            i <= v.len(),
            r@ == v@.subrange(0, i as int),
        decreases v.len() - i,
    {
        r.push(v[i].clone());
        i = i + 1;
        assert(r@ =~= v@.subrange(0, i as int));
    }
    assert(r@ =~= v@);
    r
}

impl GroupConfig {
    /// A copy of the group.
    pub fn duplicate(&self) -> (r: GroupConfig)
        ensures
            r@ == self@,
    {
        GroupConfig {
            id: self.id.clone(),
            name: self.name.clone(),
            symbol: self.symbol.clone(),
            periods: copy_strings(&self.periods),
            signal_types: copy_strings(&self.signal_types),
            enabled: self.enabled,
        }
    }
}

fn strings_of(items: &[&str]) -> (r: Vec<String>)
    ensures
        r@.len() == items@.len(),
        forall|i: int| 0 <= i < items@.len() ==> #[trigger] r@[i]@ == items@[i]@,
{
    let mut r: Vec<String> = Vec::new();
    let mut i: usize = 0;
    while i < items.len()
        invariant
            i <= items@.len(),
            r@.len() == i,
            forall|j: int| 0 <= j < i ==> #[trigger] r@[j]@ == items@[j]@,
        decreases items@.len() - i,
    {
        r.push(items[i].to_string());
        i = i + 1;
    }
    r
}

/// The two groups that a new configuration starts with: BTCUSDT with the
/// `vegas` signal and ETHUSDT with the `divMacd` signal, both at 15, 60, 4D
/// and W, both enabled.
pub fn default_groups() -> (g: Vec<GroupConfig>)
    ensures
        g@.len() == 2,
        g@[0].id@ == "group-1"@,
        g@[0].name@ == "BTC 主监控"@,
        g@[0].symbol@ == "BTCUSDT"@,
        g@[0]@.periods == seq!["15"@, "60"@, "4D"@, "W"@],
        g@[0]@.signal_types == seq!["vegas"@],
        g@[0].enabled,
        g@[1].id@ == "group-2"@,
        g@[1].name@ == "ETH 主监控"@,
        g@[1].symbol@ == "ETHUSDT"@,
        g@[1]@.periods == seq!["15"@, "60"@, "4D"@, "W"@],
        g@[1]@.signal_types == seq!["divMacd"@],
        g@[1].enabled,
{
    let btc = GroupConfig {
        id: "group-1".to_string(),
        name: "BTC 主监控".to_string(),
        symbol: "BTCUSDT".to_string(),
        periods: strings_of(&["15", "60", "4D", "W"]),
        signal_types: strings_of(&["vegas"]),
        enabled: true,
    };
    let eth = GroupConfig {
        id: "group-2".to_string(),
        name: "ETH 主监控".to_string(),
        symbol: "ETHUSDT".to_string(),
        periods: strings_of(&["15", "60", "4D", "W"]),
        signal_types: strings_of(&["divMacd"]),
        enabled: true,
    };
    assert(btc@.periods =~= seq!["15"@, "60"@, "4D"@, "W"@]);
    assert(btc@.signal_types =~= seq!["vegas"@]);
    assert(eth@.periods =~= seq!["15"@, "60"@, "4D"@, "W"@]);
    assert(eth@.signal_types =~= seq!["divMacd"@]);
    let mut g: Vec<GroupConfig> = Vec::new();
    g.push(btc);
    g.push(eth);
    g
}

/// The keys of `types` on `symbol` at `period`, in the order of `types`.
pub open spec fn period_keys(symbol: Seq<char>, period: Seq<char>, types: Seq<Seq<char>>) -> Seq<
    (Seq<char>, Seq<char>, Seq<char>),
> {
    types.map_values(|t: Seq<char>| (symbol, period, t))
}

/// The keys of every period and type on `symbol`: period by period, and
/// within a period type by type.
pub open spec fn keys_for(symbol: Seq<char>, periods: Seq<Seq<char>>, types: Seq<Seq<char>>) -> Seq<
    (Seq<char>, Seq<char>, Seq<char>),
>
    decreases periods.len(),
{
    if periods.len() == 0 {
        Seq::empty()
    } else {
        keys_for(symbol, periods.drop_last(), types) + period_keys(symbol, periods.last(), types)
    }
}

/// The keys that a group watches, in the order the group lists them.
pub open spec fn group_keys(g: GroupView) -> Seq<(Seq<char>, Seq<char>, Seq<char>)> {
    keys_for(g.symbol, g.periods, g.signal_types)
}

/// The keys that `group` watches, in order.
pub fn group_key_list(group: &GroupConfig) -> (r: Vec<SignalKey>)
    ensures
        key_views(r@) == group_keys(group@),
{
    let ghost g = group@;
    let mut r: Vec<SignalKey> = Vec::new();
    let mut i: usize = 0;
    assert(g.periods.take(0) =~= Seq::<Seq<char>>::empty());
    assert(key_views(r@) =~= Seq::<KeyView>::empty());
    while i < group.periods.len()
        invariant
            i <= group.periods@.len(),
            g == group@,
            key_views(r@) == keys_for(g.symbol, g.periods.take(i as int), g.signal_types),
        decreases group.periods@.len() - i,
    {
        let ghost done = keys_for(g.symbol, g.periods.take(i as int), g.signal_types);
        let ghost pk = period_keys(g.symbol, g.periods[i as int], g.signal_types);
        let mut j: usize = 0;
        assert(done + pk.take(0) =~= done);
        while j < group.signal_types.len()
            invariant
                i < group.periods@.len(),
                j <= group.signal_types@.len(),
                g == group@,
                pk == period_keys(g.symbol, g.periods[i as int], g.signal_types),
                key_views(r@) == done + pk.take(j as int),
            decreases group.signal_types@.len() - j,
        {
            let key = SignalKey::new(
                group.symbol.as_str(),
                group.periods[i].as_str(),
                group.signal_types[j].as_str(),
            );
            assert(key@ == pk[j as int]);
            let ghost before = key_views(r@);
            r.push(key);
            assert(key_views(r@) =~= before.push(pk[j as int]));
            assert((done + pk.take(j as int)).push(pk[j as int]) =~= done + pk.take(j + 1));
            j = j + 1;
        }
        assert(pk.take(j as int) =~= pk);
        assert(g.periods.take(i + 1).drop_last() =~= g.periods.take(i as int));
        assert(g.periods.take(i + 1).last() == g.periods[i as int]);
        i = i + 1;
    }
    assert(g.periods.take(i as int) =~= g.periods);
    r
}

/// Where the configuration file is kept.
#[derive(Debug, Clone, Copy, PartialEq, Eq, Structural)]
pub enum ConfigLocation {
    /// The path that the environment names, as it is.
    Explicit,
    /// The path that the environment names, under the working directory.
    ExplicitUnderWorkingDir,
    /// `config.yaml` in the working directory.
    WorkingDir,
    /// `signal-desk-v2/config.yaml` in the user's configuration directory.
    UserConfigDir,
    /// `signal-desk-v2/config.yaml` in the working directory, where the user
    /// has no configuration directory.
    WorkingDirFallback,
}

/// A path named by the environment wins (taken under the working directory
/// where it is relative); otherwise the working directory's `config.yaml`
/// where it, or its `.example`, exists; otherwise the user's configuration
/// directory, or the working directory where there is none.
/// `explicit_is_absolute` is `None` where the environment names no path.
pub fn config_location(
    explicit_is_absolute: Option<bool>,
    local_exists: bool,
    example_exists: bool,
    has_user_config_dir: bool,
) -> (r: ConfigLocation)
    ensures
        explicit_is_absolute == Some(true) ==> r == ConfigLocation::Explicit,
        explicit_is_absolute == Some(false) ==> r == ConfigLocation::ExplicitUnderWorkingDir,
        explicit_is_absolute is None && (local_exists || example_exists) ==> r
            == ConfigLocation::WorkingDir,
        explicit_is_absolute is None && !local_exists && !example_exists ==> r == (if has_user_config_dir {
            ConfigLocation::UserConfigDir
        } else {
            ConfigLocation::WorkingDirFallback
        }),
{
    match explicit_is_absolute {
        Some(true) => ConfigLocation::Explicit,
        Some(false) => ConfigLocation::ExplicitUnderWorkingDir,
        None => {
            if local_exists || example_exists {
                ConfigLocation::WorkingDir
            } else if has_user_config_dir {
                ConfigLocation::UserConfigDir
            } else {
                ConfigLocation::WorkingDirFallback
            }
        },
    }
}

} // verus!
