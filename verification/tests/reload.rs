use std::sync::Arc;

use apex::config::{BridgeRuntimeKind, Config, HostFacts, ModelConfig, ModelKind, ServerConfig};
use apex::config_hash::{leading_u64, render_config};
use apex::error::{BridgeError, ConfigError};
use apex::ort_bridge::session::{ElementType, Outlet, ValueType};
use apex::ort_bridge::{DType, ModelBridge, SessionInfo, TensorMeta};
use apex::registry::{AtomicEntryState, EntryState, ModelEntry, ModelRegistry};
use apex::reload::{
    begin_drain, begin_reload, begin_shutdown, build_registry_from_config, config_hash_u64,
    finish_reload, load_outcome, plan_reload, DrainOutcome, ReloadOutcome,
};

fn model(name: &str, version: &str) -> ModelConfig {
    ModelConfig {
        name: name.to_string(),
        version: version.to_string(),
        path: "/nonexistent.onnx".to_string(),
        kind: ModelKind::FixedShape,
        max_batch_size: 1,
        max_queue_delay_us: 1000,
        intra_op_threads: 1,
        queue_capacity: None,
        runtime: BridgeRuntimeKind::Blocking,
        seq_len_buckets: None,
        requires_attention_mask: false,
    }
}

fn config_of(models: Vec<ModelConfig>) -> Config {
    Config {
        server: ServerConfig {
            listen: "0.0.0.0:9000".to_string(),
            request_timeout_secs: 30,
            shutdown_grace_secs: 30,
            max_request_bytes: 64 * 1024 * 1024,
        },
        observability: Default::default(),
        admission: Default::default(),
        models,
    }
}

fn minimal_config() -> Config {
    config_of(vec![model("m", "1")])
}

fn facts() -> HostFacts {
    HostFacts { listen_error: None, existing_paths: vec!["/nonexistent.onnx".to_string()] }
}

fn entry(name: &str, version: &str, handle: u32) -> Arc<ModelEntry<u32>> {
    Arc::new(ModelEntry {
        name: name.to_string(),
        version: version.to_string(),
        input_meta: TensorMeta {
            name: "input".to_string(),
            dtype: DType::F32,
            shape: vec![-1, 3],
            bytes_per_request: 12,
        },
        output_meta: vec![],
        handle,
    })
}

fn handles(entries: &[Arc<ModelEntry<u32>>]) -> Vec<u32> {
    let mut all: Vec<u32> = entries.iter().map(|entry| entry.handle).collect();
    all.sort();
    all
}

#[test]
fn config_hash_is_stable_for_same_input() {
    let c = minimal_config();
    assert_eq!(config_hash_u64(&c), config_hash_u64(&c));
}

#[test]
fn config_hash_differs_when_config_changes() {
    let a = minimal_config();
    let mut b = minimal_config();
    b.models[0].max_batch_size = 2;
    assert_ne!(config_hash_u64(&a), config_hash_u64(&b));
}

#[test]
fn config_hash_has_a_known_value() {
    assert_eq!(config_hash_u64(&minimal_config()), 2_004_328_053_007_200_531);
}

#[test]
fn rendered_config_is_its_debug_text() {
    let mut config = minimal_config();
    assert_eq!(render_config(&config), format!("{config:?}"));
    config.server.listen = "quote \" backslash \\ tab \t accent é zero \u{0}".to_string();
    config.observability.metrics_listen = Some("127.0.0.1:9100".to_string());
    config.observability.otlp_endpoint = Some(String::new());
    config.observability.log_format = apex::config::LogFormat::Pretty;
    config.observability.log_level = "info".to_string();
    config.admission.max_rss_bytes = Some(u64::MAX);
    config.admission.max_queue_depth = Some(0);
    config.admission.rss_sample_interval_ms = 100;
    config.models[0].path = "/models/a \"b\".onnx".to_string();
    config.models[0].kind = ModelKind::Ragged;
    config.models[0].runtime = BridgeRuntimeKind::DedicatedThread;
    config.models[0].seq_len_buckets = Some(vec![64, 128, 256]);
    config.models[0].queue_capacity = Some(9);
    config.models[0].requires_attention_mask = true;
    config.models.push(model("n", "2"));
    config.models[1].seq_len_buckets = Some(vec![]);
    assert_eq!(render_config(&config), format!("{config:?}"));
    config.models.clear();
    assert_eq!(render_config(&config), format!("{config:?}"));
}

#[test]
fn hash_reads_the_first_eight_bytes_backwards() {
    assert_eq!(leading_u64(&[1, 0, 0, 0, 0, 0, 0, 0, 9]), 1);
    assert_eq!(leading_u64(&[8, 7, 6, 5, 4, 3, 2, 1]), 0x0102_0304_0506_0708);
    assert_eq!(leading_u64(&[255; 32]), u64::MAX);
}

#[test]
fn reload_adds_keeps_and_removes() {
    let current = ModelRegistry::from_entries(vec![entry("doubler", "1", 1), entry("old", "1", 2)]);
    let config = config_of(vec![model("doubler", "1"), model("tripler", "1"), model("old", "2")]);
    let plan = plan_reload(&current, &config);
    assert_eq!(plan.to_add, vec![1, 2]);
    assert_eq!(handles(&plan.kept), vec![1]);
    assert_eq!(handles(&plan.to_remove), vec![2]);

    let added = vec![entry("tripler", "1", 3), entry("old", "2", 4)];
    let reloaded = finish_reload(&config, plan, Ok(added)).expect("reload");
    assert_eq!(reloaded.models_loaded, 3);
    assert_eq!(reloaded.version_hash, config_hash_u64(&config));
    assert_eq!(handles(&reloaded.to_drain), vec![2]);
    assert_eq!(reloaded.registry.count(), 3);
    assert_eq!(reloaded.registry.get("doubler", None).expect("kept").handle, 1);
    assert_eq!(reloaded.registry.get("tripler", None).expect("added").handle, 3);
    assert_eq!(reloaded.registry.get("old", None).expect("new version").handle, 4);
    assert!(!reloaded.registry.contains("old", "1"));
}

#[test]
fn reload_of_the_same_models_changes_nothing() {
    let current = ModelRegistry::from_entries(vec![entry("a", "1", 1), entry("b", "1", 2)]);
    let config = config_of(vec![model("b", "1"), model("a", "1")]);
    let plan = plan_reload(&current, &config);
    assert!(plan.to_add.is_empty());
    assert_eq!(handles(&plan.kept), vec![1, 2]);
    assert!(plan.to_remove.is_empty());
}

#[test]
fn unparsed_and_invalid_configs_are_refused() {
    let current = ModelRegistry::from_entries(vec![entry("a", "1", 1)]);
    let failure = begin_reload(&current, Err(ConfigError::Parse("bad".to_string())), &facts())
        .expect_err("unparsed");
    assert_eq!(failure.outcome, ReloadOutcome::Invalid);
    assert_eq!(failure.error.message(), "parse error: bad");

    let config = config_of(vec![model("a", "1"), model("a", "1")]);
    let failure = begin_reload(&current, Ok(config), &facts()).expect_err("duplicate");
    assert_eq!(failure.outcome, ReloadOutcome::Invalid);
    assert_eq!(failure.error.message(), "validation error: duplicate (name, version): (a, 1)");

    let (config, plan) = begin_reload(&current, Ok(minimal_config()), &facts()).expect("valid");
    assert_eq!(config.models[0].name, "m");
    assert_eq!(plan.to_add, vec![0]);
    assert_eq!(handles(&plan.to_remove), vec![1]);
}

#[test]
fn model_that_does_not_load_fails_the_reload() {
    let current: ModelRegistry<u32> = ModelRegistry::empty();
    let config = minimal_config();
    let plan = plan_reload(&current, &config);
    let built = Err(ConfigError::from(BridgeError::ModelNotBatchable));
    let failure = finish_reload(&config, plan, built).expect_err("load failure");
    assert_eq!(failure.outcome, ReloadOutcome::LoadFailed);
    assert!(matches!(failure.error, ConfigError::ModelLoad(BridgeError::ModelNotBatchable)));
}

#[test]
fn failed_loads_become_config_errors() {
    let failed = load_outcome(Ok(Err(BridgeError::ModelLoadFailed("no file".to_string()))));
    assert_eq!(
        failed.expect_err("load failure").message(),
        "model load failed: model load failed: no file"
    );
    let panicked = load_outcome(Err("task 7 panicked".to_string()));
    assert_eq!(
        panicked.expect_err("panic").message(),
        "validation error: session load task panicked: task 7 panicked"
    );
    let info = SessionInfo {
        inputs: vec![Outlet {
            name: "input".to_string(),
            value: ValueType::Tensor {
                element: Some(ElementType::Float32),
                shape: Some(vec![-1, 3]),
            },
        }],
        outputs: vec![],
    };
    let loaded = load_outcome(Ok(ModelBridge::load(&model("m", "1"), Ok(info)))).expect("model");
    let entry = ModelEntry::new(&model("m", "1"), &loaded, 9u32);
    assert_eq!(entry.name, "m");
    assert_eq!(entry.version, "1");
    assert_eq!(entry.input_meta.bytes_per_request, 12);
    assert_eq!(entry.output_meta.len(), 0);
    assert_eq!(entry.handle, 9);
}

#[test]
fn outcome_labels() {
    assert_eq!(ReloadOutcome::Applied.label(), "ok");
    assert_eq!(ReloadOutcome::Invalid.label(), "invalid");
    assert_eq!(ReloadOutcome::LoadFailed.label(), "load_failed");
}

#[test]
fn registry_is_built_from_all_models_or_none() {
    let models = build_registry_from_config(vec![Ok(entry("a", "1", 1)), Ok(entry("b", "1", 2))])
        .expect("registry");
    assert_eq!(models.count(), 2);
    assert!(models.contains("b", "1"));
    let error = build_registry_from_config(vec![
        Ok(entry("a", "1", 1)),
        Err(ConfigError::Validation("first".to_string())),
        Err(ConfigError::Validation("second".to_string())),
    ])
    .expect_err("load failure");
    assert_eq!(error.message(), "validation error: first");
}

#[test]
fn shutdown_empties_the_registry_and_drains_everything() {
    let current = ModelRegistry::from_entries(vec![entry("a", "1", 1), entry("b", "1", 2)]);
    let (next, to_drain) = begin_shutdown(&current);
    assert_eq!(next.count(), 0);
    assert_eq!(handles(&to_drain), vec![1, 2]);
}

#[test]
fn drain_hands_out_the_task_once() {
    let mut state = AtomicEntryState::new(EntryState::Loaded);
    let mut task = Some("task");
    assert_eq!(begin_drain(&mut state, &mut task), Some("task"));
    assert_eq!(state.load(), EntryState::Draining);
    assert_eq!(begin_drain(&mut state, &mut task), None);
}

#[test]
fn only_a_drain_that_timed_out_is_aborted() {
    assert!(DrainOutcome::TimedOut.must_abort());
    assert!(!DrainOutcome::Completed.must_abort());
    assert!(!DrainOutcome::TaskFailed.must_abort());
}
