//! Reloading: which models a new configuration adds, keeps and removes, and what is drained.

use std::sync::Arc;

use vstd::prelude::*;

use crate::config::{Config, ConfigView, HostFacts, HostFactsView, ModelConfigView};
use crate::error::{BridgeError, ConfigError, ConfigErrorView};
use crate::ort_bridge::ModelBridge;
use crate::registry;
use crate::registry::{AtomicEntryState, EntryState, ModelEntry, ModelRegistry};
use crate::text;
use crate::views;

pub use crate::config_hash::config_hash_u64;

verus! {

/// How a reload ended.
#[derive(Debug, Clone, Copy, PartialEq, Eq, Structural)]
pub enum ReloadOutcome {
    /// The new configuration is in force.
    Applied,
    /// The new configuration did not parse, or broke a rule.
    Invalid,
    /// A model of the new configuration did not load.
    LoadFailed,
}

impl ReloadOutcome {
    /// The label under which the reload is counted.
    pub fn label(&self) -> (label: &'static str)
        ensures
            label@ == (match self {
                ReloadOutcome::Applied => "ok"@,
                ReloadOutcome::Invalid => "invalid"@,
                ReloadOutcome::LoadFailed => "load_failed"@,
            }),
    {
        match self {
            ReloadOutcome::Applied => "ok",
            ReloadOutcome::Invalid => "invalid",
            ReloadOutcome::LoadFailed => "load_failed",
        }
    }
}

/// A reload that left everything as it was.
#[derive(Debug)]
pub struct ReloadFailure {
    pub outcome: ReloadOutcome,
    pub error: ConfigError,
}

/// What a reload has to do: load the models at these indices of the configuration, keep these
/// entries, and drain those.
#[derive(Debug)]
pub struct ReloadPlan<H> {
    pub to_add: Vec<usize>,
    pub kept: Vec<Arc<ModelEntry<H>>>,
    pub to_remove: Vec<Arc<ModelEntry<H>>>,
}

/// What a successful reload brings into force.
#[derive(Debug)]
pub struct Reloaded<H> {
    pub registry: ModelRegistry<H>,
    pub models_loaded: usize,
    pub version_hash: u64,
    /// The entries that are no longer registered, to be drained.
    pub to_drain: Vec<Arc<ModelEntry<H>>>,
}

/// The configuration has a model with this name and version.
pub open spec fn configures(config: ConfigView, key: (Seq<char>, Seq<char>)) -> bool {
    exists|i: int| 0 <= i < config.models.len() && #[trigger] config.models[i].key() == key
}

/// The entries that the configuration still has.
pub open spec fn kept_entries<H>(entries: Seq<Arc<ModelEntry<H>>>, config: ConfigView) -> Seq<
    Arc<ModelEntry<H>>,
> {
    entries.filter(|entry: Arc<ModelEntry<H>>| configures(config, entry.key()))
}

/// The entries that the configuration no longer has.
pub open spec fn removed_entries<H>(entries: Seq<Arc<ModelEntry<H>>>, config: ConfigView) -> Seq<
    Arc<ModelEntry<H>>,
> {
    entries.filter(|entry: Arc<ModelEntry<H>>| !configures(config, entry.key()))
}

/// The indices, among the first `n` models of the configuration, of those that are not
/// registered, in ascending order.
pub open spec fn added_indices<E>(
    config: ConfigView,
    map: Map<(Seq<char>, Seq<char>), E>,
    n: int,
) -> Seq<usize>
    decreases n,
{
    if n <= 0 {
        Seq::empty()
    } else if map.contains_key(config.models[n - 1].key()) {
        added_indices(config, map, n - 1)
    } else {
        added_indices(config, map, n - 1).push((n - 1) as usize)
    }
}

fn config_has(config: &Config, name: &str, version: &str) -> (has: bool)
    ensures
        has == configures(config@, (name@, version@)),
{
    let mut i: usize = 0;
    while i < config.models.len()
        invariant
            i <= config.models.len(),
            forall|j: int| 0 <= j < i ==> #[trigger] config@.models[j].key() != (name@, version@),
        decreases config.models.len() - i,
    {
        assert(config@.models[i as int] == config.models@[i as int]@);
        if text::text_eq(&config.models[i].name, name) && text::text_eq(
            &config.models[i].version,
            version,
        ) {
            assert(config@.models[i as int].key() == (name@, version@));
            return true;
        }
        i = i + 1;
    }
    false
}

/// Compares a configuration with what is registered.
pub fn plan_reload<H>(current: &ModelRegistry<H>, config: &Config) -> (plan: ReloadPlan<H>)
    ensures
        plan.to_add@ == added_indices(config@, current@, config@.models.len() as int),
        plan.kept@ == kept_entries(current.list(), config@),
        plan.to_remove@ == removed_entries(current.list(), config@),
{
    let mut to_add: Vec<usize> = Vec::new();
    let mut i: usize = 0;
    while i < config.models.len()
        invariant
            i <= config.models.len(),
            to_add@ == added_indices(config@, current@, i as int),
        decreases config.models.len() - i,
    {
        assert(config@.models[i as int] == config.models@[i as int]@);
        if !current.contains(&config.models[i].name, &config.models[i].version) {
            to_add.push(i);
        }
        i = i + 1;
    }
    let entries = current.all_entries();
    let ghost keeps = |entry: Arc<ModelEntry<H>>| configures(config@, entry.key());
    let ghost drops = |entry: Arc<ModelEntry<H>>| !configures(config@, entry.key());
    let mut kept: Vec<Arc<ModelEntry<H>>> = Vec::new();
    let mut to_remove: Vec<Arc<ModelEntry<H>>> = Vec::new();
    let mut k: usize = 0;
    proof {
        reveal(Seq::filter);
    }
    while k < entries.len()
        invariant
            k <= entries.len(),
            keeps == (|entry: Arc<ModelEntry<H>>| configures(config@, entry.key())),
            drops == (|entry: Arc<ModelEntry<H>>| !configures(config@, entry.key())),
            kept@ == entries@.take(k as int).filter(keeps),
            to_remove@ == entries@.take(k as int).filter(drops),
        decreases entries.len() - k,
    {
        let entry = &entries[k];
        proof {
            reveal(Seq::filter);
            let next = entries@.take(k + 1);
            assert(next.drop_last() == entries@.take(k as int));
            assert(next.last() == *entry);
        }
        if config_has(config, &entry.name, &entry.version) {
            kept.push(entry.clone());
        } else {
            to_remove.push(entry.clone());
        }
        k = k + 1;
    }
    assert(entries@.take(k as int) == entries@);
    ReloadPlan { to_add, kept, to_remove }
}

/// The first half of a reload: the new configuration has to parse and to keep its rules; then it
/// is compared with what is registered. Nothing has changed yet.
pub fn begin_reload<H>(
    current: &ModelRegistry<H>,
    parsed: Result<Config, ConfigError>,
    facts: &HostFacts,
) -> (result: Result<(Config, ReloadPlan<H>), ReloadFailure>)
    ensures
        match result {
            Ok((config, plan)) => {
                &&& parsed == Ok::<Config, ConfigError>(config)
                &&& config@.validation(facts@) is Ok
                &&& plan.to_add@ == added_indices(
                    config@,
                    current@,
                    config@.models.len() as int,
                )
                &&& plan.kept@ == kept_entries(current.list(), config@)
                &&& plan.to_remove@ == removed_entries(current.list(), config@)
            },
            Err(failure) => {
                &&& failure.outcome == ReloadOutcome::Invalid
                &&& match parsed {
                    Err(error) => failure.error@ == error@,
                    Ok(config) => config@.validation(facts@) == Err::<(), ConfigErrorView>(
                        failure.error@,
                    ),
                }
            },
        },
{
    let config = match parsed {
        Ok(config) => config,
        Err(error) => {
            return Err(ReloadFailure { outcome: ReloadOutcome::Invalid, error });
        },
    };
    match config.validate(facts) {
        Ok(()) => {},
        Err(error) => {
            return Err(ReloadFailure { outcome: ReloadOutcome::Invalid, error });
        },
    }
    let plan = plan_reload(current, &config);
    Ok((config, plan))
}

/// The second half of a reload, once the added models have been loaded or one of them has not:
/// the kept entries and the new ones make up the new registry, or nothing changes.
pub fn finish_reload<H>(
    config: &Config,
    plan: ReloadPlan<H>,
    built: Result<Vec<Arc<ModelEntry<H>>>, ConfigError>,
) -> (result: Result<Reloaded<H>, ReloadFailure>)
    ensures
        match built {
            Ok(added) => {
                &&& result is Ok
                &&& result->Ok_0.registry@ == registry::entries_map(plan.kept@ + added@)
                &&& result->Ok_0.models_loaded == plan.kept@.len() + added@.len()
                &&& result->Ok_0.version_hash == crate::config_hash::config_hash(config@)
                &&& result->Ok_0.to_drain == plan.to_remove
            },
            Err(error) => {
                &&& result is Err
                &&& result->Err_0.outcome == ReloadOutcome::LoadFailed
                &&& result->Err_0.error == error
            },
        },
{
    let mut added = match built {
        Ok(added) => added,
        Err(error) => {
            return Err(ReloadFailure { outcome: ReloadOutcome::LoadFailed, error });
        },
    };
    let mut entries = plan.kept;
    entries.append(&mut added);
    let models_loaded = entries.len();
    Ok(
        Reloaded {
            registry: ModelRegistry::from_entries(entries),
            models_loaded,
            version_hash: config_hash_u64(config),
            to_drain: plan.to_remove,
        },
    )
}

/// What loading a model gave. `loaded` is the outcome of the task that did it; the text of its
/// panic, where it panicked.
pub fn load_outcome(loaded: Result<Result<ModelBridge, BridgeError>, String>) -> (result: Result<
    ModelBridge,
    ConfigError,
>)
    ensures
        match loaded {
            Ok(Ok(bridge)) => result == Ok::<ModelBridge, ConfigError>(bridge),
            Ok(Err(error)) => result is Err && result->Err_0@ == ConfigErrorView::ModelLoad(error@),
            Err(text) => result is Err && result->Err_0@ == ConfigErrorView::Validation(
                "session load task panicked: "@ + text@,
            ),
        },
{
    match loaded {
        Ok(Ok(bridge)) => Ok(bridge),
        Ok(Err(error)) => Err(ConfigError::from(error)),
        Err(text) => Err(
            ConfigError::Validation(text::joined("session load task panicked: ", &text)),
        ),
    }
}

/// Collects what loading the models of a configuration gave: the registry of all entries, or the
/// first error.
pub fn build_registry_from_config<H>(
    built: Vec<Result<Arc<ModelEntry<H>>, ConfigError>>,
) -> (result: Result<ModelRegistry<H>, ConfigError>)
    ensures
        match result {
            Ok(models) => {
                &&& forall|i: int| 0 <= i < built@.len() ==> #[trigger] built@[i] is Ok
                &&& models@ == registry::entries_map(
                    built@.map_values(|entry: Result<Arc<ModelEntry<H>>, ConfigError>| entry->Ok_0),
                )
            },
            Err(error) => exists|i: int|
                0 <= i < built@.len() && #[trigger] built@[i] == Err::<
                    Arc<ModelEntry<H>>,
                    ConfigError,
                >(error) && forall|j: int| 0 <= j < i ==> #[trigger] built@[j] is Ok,
        },
{
    let ghost values = built@.map_values(
        |entry: Result<Arc<ModelEntry<H>>, ConfigError>| entry->Ok_0,
    );
    let mut entries: Vec<Arc<ModelEntry<H>>> = Vec::new();
    for entry in iter: built
        invariant
            iter.seq() == built@,
            values == built@.map_values(
                |entry: Result<Arc<ModelEntry<H>>, ConfigError>| entry->Ok_0,
            ),
            entries@ == values.take(iter.index() as int),
            forall|i: int| 0 <= i < iter.index() ==> #[trigger] built@[i] is Ok,
    {
        assert(entry == built@[iter.index() as int]);
        match entry {
            Ok(entry) => {
                entries.push(entry);
                assert(values.take(iter.index() + 1) == values.take(iter.index() as int).push(
                    values[iter.index() as int],
                ));
            },
            Err(error) => {
                return Err(error);
            },
        }
    }
    assert(values.take(built@.len() as int) == values);
    Ok(ModelRegistry::from_entries(entries))
}

/// What a shutdown does first: the registry is emptied, so that no request finds a model, and
/// every entry is to be drained.
pub fn begin_shutdown<H>(current: &ModelRegistry<H>) -> (plan: (
    ModelRegistry<H>,
    Vec<Arc<ModelEntry<H>>>,
))
    ensures
        plan.0@ == Map::<(Seq<char>, Seq<char>), Arc<ModelEntry<H>>>::empty(),
        plan.1@ == current.list(),
{
    let entries = current.all_entries();
    let mut to_drain: Vec<Arc<ModelEntry<H>>> = Vec::new();
    let mut i: usize = 0;
    while i < entries.len()
        invariant
            i <= entries.len(),
            to_drain@ == entries@.take(i as int),
        decreases entries.len() - i,
    {
        to_drain.push(entries[i].clone());
        i = i + 1;
    }
    assert(entries@.take(i as int) == entries@);
    (ModelRegistry::empty(), to_drain)
}

/// How the wait for a draining model ended.
#[derive(Debug, Clone, Copy, PartialEq, Eq, Structural)]
pub enum DrainOutcome {
    /// Its task has finished.
    Completed,
    /// Its task has failed.
    TaskFailed,
    /// The grace period is over.
    TimedOut,
}

impl DrainOutcome {
    /// Whether the task has to be aborted.
    pub fn must_abort(&self) -> (abort: bool)
        ensures
            abort == (*self == DrainOutcome::TimedOut),
    {
        match self {
            DrainOutcome::TimedOut => true,
            _ => false,
        }
    }
}

/// The first step of a drain: the model takes no more requests. Gives the task to wait for, which
/// is there for the first drain only.
pub fn begin_drain<T>(state: &mut AtomicEntryState, task: &mut Option<T>) -> (to_wait: Option<T>)
    ensures
        final(state)@ == EntryState::Draining,
        to_wait == *old(task),
        *final(task) is None,
{
    state.store(EntryState::Draining);
    task.take()
}

/// The new entries are those of the models that were to be added, in order.
pub open spec fn built_for<H>(
    added: Seq<Arc<ModelEntry<H>>>,
    config: ConfigView,
    indices: Seq<usize>,
) -> bool {
    &&& added.len() == indices.len()
    &&& forall|k: int|
        0 <= k < added.len() ==> (#[trigger] added[k]).key()
            == config.models[indices[k] as int].key()
}

proof fn lemma_added_indices<E>(
    config: ConfigView,
    map: Map<(Seq<char>, Seq<char>), E>,
    n: int,
)
    requires
        0 <= n <= config.models.len() <= usize::MAX,
    ensures
        forall|k: int|
            #![trigger added_indices(config, map, n)[k]]
            0 <= k < added_indices(config, map, n).len() ==> {
                &&& added_indices(config, map, n)[k] < n
                &&& !map.contains_key(
                    config.models[added_indices(config, map, n)[k] as int].key(),
                )
            },
        forall|j: int|
            #![trigger config.models[j]]
            0 <= j < n && !map.contains_key(config.models[j].key()) ==> added_indices(
                config,
                map,
                n,
            ).contains(j as usize),
    decreases n,
{
    if n > 0 {
        lemma_added_indices(config, map, n - 1);
        let before = added_indices(config, map, n - 1);
        let all = added_indices(config, map, n);
        if !map.contains_key(config.models[n - 1].key()) {
            assert(all == before.push((n - 1) as usize));
            assert forall|k: int| #![trigger all[k]] 0 <= k < all.len() implies {
                &&& all[k] < n
                &&& !map.contains_key(config.models[all[k] as int].key())
            } by {
                if k < before.len() {
                    assert(all[k] == before[k]);
                }
            }
            assert forall|j: int|
                #![trigger config.models[j]]
                0 <= j < n && !map.contains_key(config.models[j].key()) implies all.contains(
                j as usize,
            ) by {
                if j < n - 1 {
                    let k = choose|k: int| 0 <= k < before.len() && before[k] == j as usize;
                    assert(all[k] == j as usize);
                } else {
                    assert(all[before.len() as int] == j as usize);
                }
            }
        }
    }
}

proof fn lemma_filter_selects<A>(items: Seq<A>, pred: spec_fn(A) -> bool, i: int)
    requires
        0 <= i < items.filter(pred).len(),
    ensures
        items.contains(items.filter(pred)[i]),
    decreases items.len(),
{
    reveal(Seq::filter);
    if items.len() > 0 {
        let init = items.drop_last();
        let last = items.last();
        assert(items[items.len() - 1] == last);
        if i < init.filter(pred).len() {
            lemma_filter_selects(init, pred, i);
            let k = choose|k: int| 0 <= k < init.len() && init[k] == init.filter(pred)[i];
            assert(items[k] == items.filter(pred)[i]);
        }
    }
}

/// A reload serves exactly the models of the new configuration; a model that was served before
/// and still is keeps its very entry; and every entry that is no longer served is drained.
pub proof fn lemma_reload_serves_exactly_the_config<H>(
    entries: Seq<Arc<ModelEntry<H>>>,
    config: ConfigView,
    added: Seq<Arc<ModelEntry<H>>>,
    key: (Seq<char>, Seq<char>),
)
    requires
        registry::distinct_keys(entries),
        config.models.len() <= usize::MAX,
        built_for(
            added,
            config,
            added_indices(config, registry::entries_map(entries), config.models.len() as int),
        ),
    ensures
        registry::entries_map(kept_entries(entries, config) + added).contains_key(key)
            <==> configures(config, key),
        registry::entries_map(entries).contains_key(key) && configures(config, key)
            ==> registry::entries_map(kept_entries(entries, config) + added)[key]
            == registry::entries_map(entries)[key],
        registry::entries_map(entries).contains_key(key) && !configures(config, key)
            ==> removed_entries(entries, config).contains(registry::entries_map(entries)[key]),
{
    let n = config.models.len() as int;
    let map = registry::entries_map(entries);
    let indices = added_indices(config, map, n);
    let keeps = |entry: Arc<ModelEntry<H>>| configures(config, entry.key());
    let drops = |entry: Arc<ModelEntry<H>>| !configures(config, entry.key());
    let kept = kept_entries(entries, config);
    let all = kept + added;
    let new_map = registry::entries_map(all);
    lemma_added_indices(config, map, n);
    registry::lemma_entries_map_keys(all, key);
    registry::lemma_entries_map_keys(entries, key);
    registry::lemma_entries_map_distinct(entries);
    if new_map.contains_key(key) {
        let i = choose|i: int| 0 <= i < all.len() && #[trigger] all[i].key() == key;
        if i < kept.len() {
            assert(all[i] == kept[i]);
            entries.lemma_filter_pred(keeps, i);
        } else {
            let k = i - kept.len();
            assert(all[i] == added[k]);
            assert(indices[k] < n);
            assert(config.models[indices[k] as int].key() == key);
        }
    }
    if configures(config, key) {
        if map.contains_key(key) {
            let i = choose|i: int| 0 <= i < entries.len() && #[trigger] entries[i].key() == key;
            assert(keeps(entries[i]));
            entries.lemma_filter_contains(keeps, i);
            let k = choose|k: int| 0 <= k < kept.len() && kept[k] == entries[i];
            assert(all[k].key() == key);
            registry::lemma_entry_stands_under_its_key(all, key);
            let found = new_map[key];
            let f = choose|f: int| 0 <= f < all.len() && all[f] == found;
            if f >= kept.len() {
                let g = f - kept.len();
                assert(all[f] == added[g]);
                assert(!map.contains_key(config.models[indices[g] as int].key()));
            } else {
                assert(all[f] == kept[f]);
                lemma_filter_selects(entries, keeps, f);
                let o = choose|o: int| 0 <= o < entries.len() && entries[o] == kept[f];
                assert(entries[o].key() == key);
                assert(map[entries[o].key()] == entries[o]);
            }
        } else {
            let j = choose|j: int|
                0 <= j < config.models.len() && #[trigger] config.models[j].key() == key;
            assert(indices.contains(j as usize));
            let k = choose|k: int| 0 <= k < indices.len() && indices[k] == j as usize;
            assert(added[k].key() == key);
            assert(all[kept.len() + k] == added[k]);
        }
    } else if map.contains_key(key) {
        let i = choose|i: int| 0 <= i < entries.len() && #[trigger] entries[i].key() == key;
        assert(drops(entries[i]));
        entries.lemma_filter_contains(drops, i);
        assert(map[entries[i].key()] == entries[i]);
    }
}

proof fn lemma_added_indices_ascend<E>(
    config: ConfigView,
    map: Map<(Seq<char>, Seq<char>), E>,
    n: int,
)
    requires
        0 <= n <= config.models.len() <= usize::MAX,
    ensures
        forall|k: int, l: int|
            0 <= k < l < added_indices(config, map, n).len() ==> added_indices(config, map, n)[k]
                < added_indices(config, map, n)[l],
    decreases n,
{
    if n > 0 {
        lemma_added_indices_ascend(config, map, n - 1);
        lemma_added_indices(config, map, n - 1);
        let before = added_indices(config, map, n - 1);
        let all = added_indices(config, map, n);
        assert forall|k: int, l: int| 0 <= k < l < all.len() implies all[k] < all[l] by {
            assert(all[k] == before[k]);
            if l < before.len() {
                assert(all[l] == before[l]);
            }
        }
    }
}

proof fn lemma_filter_keeps_keys_distinct<H>(
    entries: Seq<Arc<ModelEntry<H>>>,
    pred: spec_fn(Arc<ModelEntry<H>>) -> bool,
)
    requires
        registry::distinct_keys(entries),
    ensures
        registry::distinct_keys(entries.filter(pred)),
    decreases entries.len(),
{
    reveal(Seq::filter);
    if entries.len() > 0 {
        let init = entries.drop_last();
        let last = entries.last();
        assert forall|i: int, j: int| 0 <= i < j < init.len() implies #[trigger] init[i].key()
            != #[trigger] init[j].key() by {
            assert(entries[i].key() != entries[j].key());
        }
        lemma_filter_keeps_keys_distinct(init, pred);
        let before = init.filter(pred);
        let all = entries.filter(pred);
        assert forall|i: int, j: int| 0 <= i < j < all.len() implies #[trigger] all[i].key()
            != #[trigger] all[j].key() by {
            if j < before.len() {
                assert(before[i].key() != before[j].key());
            } else {
                lemma_filter_selects(init, pred, i);
                let k = choose|k: int| 0 <= k < init.len() && init[k] == before[i];
                assert(entries[k].key() != entries[entries.len() - 1].key());
            }
        }
    }
}

/// After a reload as many models are served as the configuration has, and that is the number
/// reported: no two entries of the new registry share name and version.
pub proof fn lemma_reload_counts_the_models_of_the_config<H>(
    entries: Seq<Arc<ModelEntry<H>>>,
    config: ConfigView,
    added: Seq<Arc<ModelEntry<H>>>,
    facts: HostFactsView,
)
    requires
        registry::distinct_keys(entries),
        config.models.len() <= usize::MAX,
        config.valid(facts),
        built_for(
            added,
            config,
            added_indices(config, registry::entries_map(entries), config.models.len() as int),
        ),
    ensures
        registry::distinct_keys(kept_entries(entries, config) + added),
        kept_entries(entries, config).len() + added.len() == config.models.len(),
        registry::entries_map(kept_entries(entries, config) + added).len() == config.models.len(),
{
    let n = config.models.len() as int;
    let map = registry::entries_map(entries);
    let indices = added_indices(config, map, n);
    let keeps = |entry: Arc<ModelEntry<H>>| configures(config, entry.key());
    let kept = kept_entries(entries, config);
    let all = kept + added;
    let new_map = registry::entries_map(all);
    lemma_added_indices(config, map, n);
    lemma_added_indices_ascend(config, map, n);
    lemma_filter_keeps_keys_distinct(entries, keeps);
    registry::lemma_entries_map_distinct(entries);
    assert forall|i: int, j: int| 0 <= i < j < all.len() implies #[trigger] all[i].key()
        != #[trigger] all[j].key() by {
        if j < kept.len() {
            assert(kept[i].key() != kept[j].key());
        } else {
            let l = j - kept.len();
            assert(all[j] == added[l]);
            assert(!map.contains_key(config.models[indices[l] as int].key()));
            if i < kept.len() {
                assert(all[i] == kept[i]);
                lemma_filter_selects(entries, keeps, i);
                let o = choose|o: int| 0 <= o < entries.len() && entries[o] == kept[i];
                assert(map.contains_key(entries[o].key()));
            } else {
                let k = i - kept.len();
                assert(all[i] == added[k]);
                assert(indices[k] < indices[l]);
                assert(config.models[indices[k] as int].key()
                    != config.models[indices[l] as int].key());
            }
        }
    }
    registry::lemma_entries_map_distinct(all);
    let keys = config.models.map_values(|model: ModelConfigView| model.key());
    assert forall|i: int, j: int|
        0 <= i < keys.len() && 0 <= j < keys.len() && i != j implies keys[i] != keys[j] by {
        if i < j {
            assert(config.models[i].key() != config.models[j].key());
        } else {
            assert(config.models[j].key() != config.models[i].key());
        }
    }
    keys.unique_seq_to_set();
    assert forall|key: (Seq<char>, Seq<char>)| keys.to_set().contains(key)
        <==> new_map.dom().contains(key) by {
        lemma_reload_serves_exactly_the_config(entries, config, added, key);
        if configures(config, key) {
            let i = choose|i: int|
                0 <= i < config.models.len() && #[trigger] config.models[i].key() == key;
            assert(keys[i] == key);
        }
        if keys.to_set().contains(key) {
            let i = choose|i: int| 0 <= i < keys.len() && keys[i] == key;
            assert(config.models[i].key() == key);
        }
    }
    assert(keys.to_set() =~= new_map.dom());
}

proof fn lemma_filter_all<A>(items: Seq<A>, pred: spec_fn(A) -> bool)
    requires
        forall|i: int| 0 <= i < items.len() ==> pred(#[trigger] items[i]),
    ensures
        items.filter(pred) == items,
    decreases items.len(),
{
    reveal(Seq::filter);
    if items.len() > 0 {
        let init = items.drop_last();
        assert forall|i: int| 0 <= i < init.len() implies pred(#[trigger] init[i]) by {
            assert(pred(items[i]));
        }
        lemma_filter_all(init, pred);
        assert(pred(items[items.len() - 1]));
        assert(items == init.push(items.last()));
    }
}

proof fn lemma_filter_none<A>(items: Seq<A>, pred: spec_fn(A) -> bool)
    requires
        forall|i: int| 0 <= i < items.len() ==> !pred(#[trigger] items[i]),
    ensures
        items.filter(pred).len() == 0,
    decreases items.len(),
{
    reveal(Seq::filter);
    if items.len() > 0 {
        let init = items.drop_last();
        assert forall|i: int| 0 <= i < init.len() implies !pred(#[trigger] init[i]) by {
            assert(!pred(items[i]));
        }
        lemma_filter_none(init, pred);
        assert(!pred(items[items.len() - 1]));
    }
}

/// A reload of a configuration whose models are all served, and no others, changes nothing: it
/// loads no model, keeps every entry and drains none.
pub proof fn lemma_reload_of_the_served_config_changes_nothing<H>(
    entries: Seq<Arc<ModelEntry<H>>>,
    config: ConfigView,
)
    requires
        registry::distinct_keys(entries),
        config.models.len() <= usize::MAX,
        forall|key: (Seq<char>, Seq<char>)|
            registry::entries_map(entries).contains_key(key) <==> configures(config, key),
    ensures
        added_indices(
            config,
            registry::entries_map(entries),
            config.models.len() as int,
        ).len() == 0,
        kept_entries(entries, config) == entries,
        removed_entries(entries, config).len() == 0,
{
    let n = config.models.len() as int;
    let map = registry::entries_map(entries);
    let keeps = |entry: Arc<ModelEntry<H>>| configures(config, entry.key());
    let drops = |entry: Arc<ModelEntry<H>>| !configures(config, entry.key());
    lemma_added_indices(config, map, n);
    registry::lemma_entries_map_distinct(entries);
    let indices = added_indices(config, map, n);
    if indices.len() > 0 {
        let j = indices[0] as int;
        assert(configures(config, config.models[j].key()));
    }
    assert forall|i: int| 0 <= i < entries.len() implies keeps(#[trigger] entries[i]) by {
        assert(map.contains_key(entries[i].key()));
    }
    assert forall|i: int| 0 <= i < entries.len() implies !drops(#[trigger] entries[i]) by {
        assert(map.contains_key(entries[i].key()));
    }
    lemma_filter_all(entries, keeps);
    lemma_filter_none(entries, drops);
}

/// The entries that a reload keeps are those whose name and version the configuration has; it
/// drains the others, and each entry is either kept or drained.
pub proof fn lemma_kept_or_drained<H>(
    entries: Seq<Arc<ModelEntry<H>>>,
    config: ConfigView,
    entry: Arc<ModelEntry<H>>,
)
    ensures
        ({
            let has = exists|i: int|
                0 <= i < config.models.len() && (#[trigger] config.models[i]).name == entry.name@
                    && config.models[i].version == entry.version@;
            &&& kept_entries(entries, config).contains(entry) <==> entries.contains(entry) && has
            &&& removed_entries(entries, config).contains(entry) <==> entries.contains(entry)
                && !has
        }),
        kept_entries(entries, config).len() + removed_entries(entries, config).len()
            == entries.len(),
{
    let keeps = |e: Arc<ModelEntry<H>>| configures(config, e.key());
    let drops = |e: Arc<ModelEntry<H>>| !configures(config, e.key());
    lemma_configures(config, entry.name@, entry.version@);
    lemma_filters_part(entries, keeps, drops);
    let kept = kept_entries(entries, config);
    let removed = removed_entries(entries, config);
    if kept.contains(entry) {
        let k = choose|k: int| 0 <= k < kept.len() && kept[k] == entry;
        lemma_filter_selects(entries, keeps, k);
        entries.lemma_filter_pred(keeps, k);
    }
    if removed.contains(entry) {
        let k = choose|k: int| 0 <= k < removed.len() && removed[k] == entry;
        lemma_filter_selects(entries, drops, k);
        entries.lemma_filter_pred(drops, k);
    }
    if entries.contains(entry) {
        let i = choose|i: int| 0 <= i < entries.len() && entries[i] == entry;
        if configures(config, entry.key()) {
            entries.lemma_filter_contains(keeps, i);
        } else {
            entries.lemma_filter_contains(drops, i);
        }
    }
}

/// A configuration has a model when one of its models has that name and that version.
pub proof fn lemma_configures(config: ConfigView, name: Seq<char>, version: Seq<char>)
    ensures
        configures(config, (name, version)) <==> exists|i: int|
            0 <= i < config.models.len() && (#[trigger] config.models[i]).name == name
                && config.models[i].version == version,
{
    if configures(config, (name, version)) {
        let i = choose|i: int|
            0 <= i < config.models.len() && #[trigger] config.models[i].key() == (name, version);
        assert(config.models[i].name == name);
    }
    if exists|i: int|
        0 <= i < config.models.len() && (#[trigger] config.models[i]).name == name
            && config.models[i].version == version {
        let i = choose|i: int|
            0 <= i < config.models.len() && (#[trigger] config.models[i]).name == name
                && config.models[i].version == version;
        assert(config.models[i].key() == (name, version));
    }
}

proof fn lemma_filters_part<A>(
    items: Seq<A>,
    pred: spec_fn(A) -> bool,
    other: spec_fn(A) -> bool,
)
    requires
        forall|a: A| #[trigger] pred(a) <==> !other(a),
    ensures
        items.filter(pred).len() + items.filter(other).len() == items.len(),
    decreases items.len(),
{
    reveal(Seq::filter);
    if items.len() > 0 {
        lemma_filters_part(items.drop_last(), pred, other);
        assert(pred(items.last()) <==> !other(items.last()));
    }
}

/// A reload loads exactly the models whose name and version are not registered, each once, in
/// the order of the configuration.
pub proof fn lemma_models_to_load<E>(
    config: ConfigView,
    map: Map<(Seq<char>, Seq<char>), E>,
    j: int,
)
    requires
        config.models.len() <= usize::MAX,
    ensures
        ({
            let indices = added_indices(config, map, config.models.len() as int);
            &&& 0 <= j < config.models.len() ==> (indices.contains(j as usize)
                <==> !map.contains_key((config.models[j].name, config.models[j].version)))
            &&& forall|k: int| 0 <= k < indices.len() ==> #[trigger] indices[k]
                < config.models.len()
            &&& forall|k: int, l: int| 0 <= k < l < indices.len() ==> indices[k] < indices[l]
        }),
{
    let n = config.models.len() as int;
    let indices = added_indices(config, map, n);
    lemma_added_indices(config, map, n);
    lemma_added_indices_ascend(config, map, n);
    if 0 <= j < n {
        let model = config.models[j];
        assert(model.key() == (model.name, model.version));
        if indices.contains(j as usize) {
            let k = choose|k: int| 0 <= k < indices.len() && indices[k] == j as usize;
            assert(!map.contains_key(config.models[indices[k] as int].key()));
        }
    }
}

} // verus!
