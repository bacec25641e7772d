use apex::config::{
    default_log_level, default_max_request_bytes, default_request_timeout_secs,
    default_rss_sample_interval_ms, default_shutdown_grace_secs, default_version, AdmissionConfig,
    BridgeRuntimeKind, Config, HostFacts, LogFormat, ModelConfig, ModelKind, ObservabilityConfig,
    ServerConfig, DEFAULT_RSS_BUDGET_BYTES,
};
use apex::error::{BridgeError, ConfigError};

const MODEL_FILE: &str = "/models/m.onnx";

struct Fixture {
    config: Config,
    facts: HostFacts,
}

impl Fixture {
    fn new() -> Self {
        let config = Config {
            server: ServerConfig {
                listen: "0.0.0.0:9000".to_string(),
                request_timeout_secs: 30,
                shutdown_grace_secs: 30,
                max_request_bytes: 64 * 1024 * 1024,
            },
            observability: ObservabilityConfig::default(),
            admission: AdmissionConfig::default(),
            models: vec![model("1")],
        };
        let facts = HostFacts { listen_error: None, existing_paths: vec![MODEL_FILE.to_string()] };
        Self { config, facts }
    }

    fn validate(&self) -> Result<(), ConfigError> {
        self.config.validate(&self.facts)
    }
}

fn model(version: &str) -> ModelConfig {
    ModelConfig {
        name: "m".to_string(),
        version: version.to_string(),
        path: MODEL_FILE.to_string(),
        kind: ModelKind::FixedShape,
        max_batch_size: 32,
        max_queue_delay_us: 4000,
        intra_op_threads: 4,
        queue_capacity: None,
        runtime: BridgeRuntimeKind::Blocking,
        seq_len_buckets: None,
        requires_attention_mask: false,
    }
}

fn assert_validation_err(result: Result<(), ConfigError>, needle: &str) {
    match result {
        Err(ConfigError::Validation(msg)) => {
            assert!(
                msg.contains(needle),
                "expected validation error containing {needle:?}, got: {msg}"
            );
        }
        other => panic!("expected validation error, got {other:?}"),
    }
}

fn validation_text(result: Result<(), ConfigError>) -> String {
    match result {
        Err(ConfigError::Validation(msg)) => msg,
        other => panic!("expected validation error, got {other:?}"),
    }
}

#[test]
fn valid_minimal_config_passes_validation() {
    let f = Fixture::new();
    f.validate().expect("valid config should validate");
}

#[test]
fn invalid_listen_address_fails() {
    let mut f = Fixture::new();
    f.config.server.listen = "not a socket addr".to_string();
    f.facts.listen_error = Some("invalid socket address syntax".to_string());
    assert_validation_err(f.validate(), "server.listen");
}

#[test]
fn zero_max_batch_size_fails() {
    let mut f = Fixture::new();
    f.config.models[0].max_batch_size = 0;
    assert_validation_err(f.validate(), "max_batch_size");
}

#[test]
fn max_batch_size_over_limit_fails() {
    let mut f = Fixture::new();
    f.config.models[0].max_batch_size = 2048;
    assert_validation_err(f.validate(), "max_batch_size");
}

#[test]
fn out_of_range_queue_delay_fails() {
    let mut f = Fixture::new();
    f.config.models[0].max_queue_delay_us = 50;
    assert_validation_err(f.validate(), "max_queue_delay_us");
}

#[test]
fn ragged_with_empty_buckets_fails() {
    let mut f = Fixture::new();
    f.config.models[0].kind = ModelKind::Ragged;
    f.config.models[0].seq_len_buckets = Some(vec![]);
    assert_validation_err(f.validate(), "seq_len_buckets");
}

#[test]
fn ragged_with_non_ascending_buckets_fails() {
    let mut f = Fixture::new();
    f.config.models[0].kind = ModelKind::Ragged;
    f.config.models[0].seq_len_buckets = Some(vec![128, 64, 256]);
    assert_validation_err(f.validate(), "ascending");
}

#[test]
fn ragged_with_oversized_bucket_fails() {
    let mut f = Fixture::new();
    f.config.models[0].kind = ModelKind::Ragged;
    f.config.models[0].seq_len_buckets = Some(vec![64, 128, 100_000]);
    assert_validation_err(f.validate(), "65536");
}

#[test]
fn fixed_shape_with_buckets_fails() {
    let mut f = Fixture::new();
    f.config.models[0].seq_len_buckets = Some(vec![64, 128]);
    assert_validation_err(f.validate(), "fixed_shape");
}

#[test]
fn nonexistent_model_path_fails() {
    let mut f = Fixture::new();
    f.config.models[0].path = "/this/does/not/exist.onnx".to_string();
    assert_validation_err(f.validate(), "does not exist");
}

#[test]
fn duplicate_name_version_pair_fails() {
    let mut f = Fixture::new();
    f.config.models.push(model("1"));
    assert_validation_err(f.validate(), "duplicate");
}

#[test]
fn same_name_different_version_is_allowed() {
    let mut f = Fixture::new();
    f.config.models.push(model("2"));
    f.validate().expect("(name, v1) and (name, v2) should validate");
}

#[test]
fn each_complaint_has_its_text() {
    let mut f = Fixture::new();
    f.facts.listen_error = Some("invalid socket address syntax".to_string());
    assert_eq!(validation_text(f.validate()), "server.listen: invalid socket address syntax");

    let mut f = Fixture::new();
    f.config.models[0].max_batch_size = 1025;
    assert_eq!(
        validation_text(f.validate()),
        "m/1: max_batch_size must be in [1, 1024], got 1025"
    );

    let mut f = Fixture::new();
    f.config.models[0].max_queue_delay_us = 1_000_001;
    assert_eq!(
        validation_text(f.validate()),
        "m/1: max_queue_delay_us must be in [100, 1_000_000], got 1000001"
    );

    let mut f = Fixture::new();
    f.config.models[0].seq_len_buckets = Some(vec![64]);
    assert_eq!(
        validation_text(f.validate()),
        "m/1: fixed_shape model must not declare seq_len_buckets"
    );

    let mut f = Fixture::new();
    f.config.models[0].kind = ModelKind::Ragged;
    assert_eq!(validation_text(f.validate()), "m/1: ragged model must declare seq_len_buckets");

    f.config.models[0].seq_len_buckets = Some(vec![]);
    assert_eq!(validation_text(f.validate()), "m/1: seq_len_buckets must be non-empty");

    f.config.models[0].seq_len_buckets = Some(vec![64, 64]);
    assert_eq!(validation_text(f.validate()), "m/1: seq_len_buckets must be strictly ascending");

    f.config.models[0].seq_len_buckets = Some(vec![64, 65_537]);
    assert_eq!(
        validation_text(f.validate()),
        "m/1: seq_len_buckets values must be ≤ 65536, got 65537"
    );

    let mut f = Fixture::new();
    f.facts.existing_paths.clear();
    assert_eq!(
        validation_text(f.validate()),
        "m/1: model file does not exist: /models/m.onnx"
    );

    let mut f = Fixture::new();
    f.config.models.push(model("1"));
    assert_eq!(validation_text(f.validate()), "duplicate (name, version): (m, 1)");
}

#[test]
fn bounds_themselves_are_valid() {
    let mut f = Fixture::new();
    f.config.models[0].max_batch_size = 1;
    f.config.models[0].max_queue_delay_us = 100;
    assert!(f.validate().is_ok());
    f.config.models[0].max_batch_size = 1024;
    f.config.models[0].max_queue_delay_us = 1_000_000;
    assert!(f.validate().is_ok());
    f.config.models[0].kind = ModelKind::Ragged;
    f.config.models[0].seq_len_buckets = Some(vec![1, 65_536]);
    assert!(f.validate().is_ok());
}

#[test]
fn first_broken_rule_is_reported() {
    let mut f = Fixture::new();
    f.config.models.push(model("1"));
    f.config.models[0].max_batch_size = 0;
    f.config.models[0].max_queue_delay_us = 0;
    assert_validation_err(f.validate(), "max_batch_size");
    f.config.models[0].max_batch_size = 1;
    assert_validation_err(f.validate(), "max_queue_delay_us");
    f.config.models[0].max_queue_delay_us = 100;
    assert_validation_err(f.validate(), "duplicate");
}

#[test]
fn config_without_models_is_valid() {
    let mut f = Fixture::new();
    f.config.models.clear();
    assert!(f.validate().is_ok());
}

#[test]
fn single_model_is_validated_on_its_own() {
    let m = model("7");
    assert_eq!(m.ident(), "m/7");
    assert!(m.validate(&vec![MODEL_FILE.to_string()]).is_ok());
    assert_validation_err(m.validate(&vec![]), "m/7: model file does not exist");
}

#[test]
fn defaults() {
    assert_eq!(default_request_timeout_secs(), 30);
    assert_eq!(default_shutdown_grace_secs(), 30);
    assert_eq!(default_max_request_bytes(), 64 * 1024 * 1024);
    assert_eq!(default_rss_sample_interval_ms(), 100);
    assert_eq!(default_log_level(), "info");
    assert_eq!(default_version(), "1");
    assert_eq!(LogFormat::default(), LogFormat::Json);
    assert_eq!(BridgeRuntimeKind::default(), BridgeRuntimeKind::Blocking);
    let observability = ObservabilityConfig::default();
    assert_eq!(observability.log_level, "");
    assert_eq!(observability.metrics_listen, None);
    assert_eq!(observability.otlp_endpoint, None);
    assert_eq!(AdmissionConfig::default().rss_sample_interval_ms, 0);
}

#[test]
fn admission_limits_come_from_the_config_or_the_models() {
    let mut f = Fixture::new();
    f.config.models.push(model("2"));
    assert_eq!(f.config.rss_limit(), DEFAULT_RSS_BUDGET_BYTES);
    assert_eq!(f.config.rss_limit(), 8 * 1024 * 1024 * 1024);
    assert_eq!(f.config.queue_depth_limit(), Some(640));
    f.config.admission.max_rss_bytes = Some(1);
    f.config.admission.max_queue_depth = Some(7);
    assert_eq!(f.config.rss_limit(), 1);
    assert_eq!(f.config.queue_depth_limit(), Some(7));
    f.config.admission.max_queue_depth = None;
    f.config.models[0].max_batch_size = usize::MAX;
    assert_eq!(f.config.queue_depth_limit(), None);
}

#[test]
fn queue_capacity_defaults_to_two_batches() {
    let mut m = model("1");
    assert_eq!(m.resolved_queue_capacity(), 64);
    m.queue_capacity = Some(5);
    assert_eq!(m.resolved_queue_capacity(), 5);
}

#[test]
fn error_messages() {
    assert_eq!(ConfigError::Parse("bad".to_string()).message(), "parse error: bad");
    assert_eq!(
        ConfigError::unreadable("/etc/apex.yaml", "not found").message(),
        "parse error: read /etc/apex.yaml: not found"
    );
    assert_eq!(ConfigError::Validation("bad".to_string()).message(), "validation error: bad");
    assert_eq!(
        ConfigError::from(BridgeError::ModelNotBatchable).message(),
        "model load failed: model has static batch dimension; engine requires dynamic"
    );
    assert_eq!(BridgeError::ModelLoadFailed("x".to_string()).message(), "model load failed: x");
    assert_eq!(
        BridgeError::UnsupportedDtype { dtype: "I64".to_string() }.message(),
        "unsupported tensor dtype in v1: I64 (v1 supports F32 only; I64/F16 planned for v1.1)"
    );
    assert_eq!(
        BridgeError::UnsupportedInputType { description: "map".to_string() }.message(),
        "unsupported input value type: map"
    );
    assert_eq!(
        BridgeError::InputSizeMismatch { expected: 128, actual: 100 }.message(),
        "input size mismatch: expected 128 bytes, got 100"
    );
    assert_eq!(BridgeError::RunFailed("x".to_string()).message(), "ort::Session::run failed: x");
    assert_eq!(BridgeError::OutputCopyFailed("x".to_string()).message(), "output copy failed: x");
    assert_eq!(BridgeError::DispatchPanic("x".to_string()).message(), "dispatch task panicked: x");
}
