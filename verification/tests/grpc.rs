use std::sync::Arc;
use std::time::{Duration, Instant};

use apex::admission::{AdmissionController, AdmissionDecision};
use apex::dispatcher::PerRequestOutput;
use apex::error::BridgeError;
use apex::grpc::{
    bridge_err_to_status, check_time, dtype_to_kserve, outcome_label, status_code_label,
    version_or_none, Code, InferInputTensor, InferenceService, ModelInferRequest, Reply, SendOutcome, Status,
};
use apex::ort_bridge::{DType, TensorMeta};
use apex::registry::{EntryState, ModelEntry, ModelRegistry};

const SERVICE: InferenceService = InferenceService { max_request_bytes: 64 };

fn tensor(name: &str, dtype: DType, shape: Vec<i64>, bytes_per_request: usize) -> TensorMeta {
    TensorMeta { name: name.to_string(), dtype, shape, bytes_per_request }
}

fn entry(name: &str, version: &str, handle: u32) -> Arc<ModelEntry<u32>> {
    Arc::new(ModelEntry {
        name: name.to_string(),
        version: version.to_string(),
        input_meta: tensor("input", DType::F32, vec![-1, 3], 12),
        output_meta: vec![
            tensor("output", DType::F32, vec![-1, 3], 12),
            tensor("flag", DType::Bool, vec![], 1),
        ],
        handle,
    })
}

fn models() -> ModelRegistry<u32> {
    ModelRegistry::from_entries(vec![
        entry("doubler", "1", 1),
        entry("doubler", "2", 2),
        entry("tripler", "1", 3),
    ])
}

fn admission() -> AdmissionController {
    AdmissionController::new(1000, 10)
}

fn input() -> InferInputTensor {
    InferInputTensor {
        name: "input".to_string(),
        datatype: "FP32".to_string(),
        shape: vec![1, 3],
    }
}

fn request(model: &str, version: &str) -> ModelInferRequest {
    ModelInferRequest {
        model_name: model.to_string(),
        model_version: version.to_string(),
        id: "test-001".to_string(),
        inputs: vec![input()],
        raw_input_contents: vec![vec![0; 12]],
    }
}

fn routed(request: &ModelInferRequest) -> Result<u32, Status> {
    let start = SERVICE.begin_infer(&admission(), &models(), request);
    assert_eq!(start.decision.expect("asked").reason_label(), "admit");
    start.result.map(|entry| entry.handle)
}

fn assert_status<T>(result: Result<T, Status>, code: Code, message: &str) {
    match result {
        Err(status) => {
            assert_eq!(status.code, code);
            assert_eq!(status.message, message);
        }
        Ok(_) => panic!("expected {code:?}: {message}"),
    }
}

#[test]
fn request_is_routed_to_its_model() {
    assert_eq!(routed(&request("doubler", "")).expect("last version"), 2);
    assert_eq!(routed(&request("doubler", "1")).expect("named version"), 1);
    assert_eq!(routed(&request("tripler", "")).expect("other model"), 3);
    assert_status(routed(&request("doubler", "3")), Code::NotFound, "model not found: doubler");
    assert_status(routed(&request("nobody", "")), Code::NotFound, "model not found: nobody");
}

#[test]
fn memory_pressure_is_answered_resource_exhausted() {
    let mut admission = admission();
    admission.record_sample(Some(1001));
    let start = SERVICE.begin_infer(&admission, &models(), &request("doubler", ""));
    assert!(matches!(
        start.decision,
        Some(AdmissionDecision::RejectMemory { rss: 1001, limit: 1000 })
    ));
    assert_status(start.result, Code::ResourceExhausted, "memory limit");
}

#[test]
fn queue_pressure_is_answered_resource_exhausted() {
    let mut admission = admission();
    for _ in 0..11 {
        admission.incr_queue();
    }
    let start = SERVICE.begin_infer(&admission, &models(), &request("nobody", ""));
    assert_status(start.result, Code::ResourceExhausted, "queue depth limit");
}

#[test]
fn oversized_request_is_refused_before_admission() {
    let mut admission = admission();
    admission.record_sample(Some(1001));
    let mut large = request("doubler", "");
    large.raw_input_contents = vec![vec![0; 60], vec![0; 5]];
    let start = SERVICE.begin_infer(&admission, &models(), &large);
    assert!(start.decision.is_none());
    assert_eq!(start.check_ns, 0);
    assert_status(
        start.result,
        Code::ResourceExhausted,
        "request exceeds max_request_bytes (65 > 64)",
    );
    large.raw_input_contents = vec![vec![0; 60], vec![0; 4]];
    let start = SERVICE.begin_infer(&admission, &models(), &large);
    assert!(start.decision.is_some());
}

#[test]
fn check_time_runs_from_start_to_end() {
    let started = Instant::now();
    let ended = started + Duration::from_nanos(1_500);
    assert_eq!(check_time(started, ended), 1_500);
    assert_eq!(check_time(ended, started), 0);
}

#[test]
fn request_brings_one_tensor_in_one_piece() {
    let mut two = request("nobody", "");
    two.inputs.push(input());
    assert_status(
        routed(&two),
        Code::InvalidArgument,
        "expected exactly one input tensor, got 2",
    );
    let mut none = request("nobody", "");
    none.inputs.clear();
    assert_status(
        routed(&none),
        Code::InvalidArgument,
        "expected exactly one input tensor, got 0",
    );
    let mut bare = request("nobody", "");
    bare.raw_input_contents.clear();
    assert_status(
        routed(&bare),
        Code::InvalidArgument,
        "use raw_input_contents (one entry per input)",
    );
}

#[test]
fn tensor_must_be_the_declared_one() {
    let model = entry("doubler", "1", 1);
    let bytes = vec![0u8; 12];
    let take = |input: &InferInputTensor, bytes: &Vec<u8>| {
        SERVICE.accept_infer(&model, EntryState::Loaded, input, bytes)
    };
    assert!(take(&input(), &bytes).is_ok());

    let mut other = input();
    other.name = "x".to_string();
    assert_status(
        take(&other, &bytes),
        Code::InvalidArgument,
        "input name mismatch: expected 'input', got 'x'",
    );

    let mut other = input();
    other.datatype = "INT64".to_string();
    assert_status(
        take(&other, &bytes),
        Code::InvalidArgument,
        "datatype mismatch: expected FP32, got INT64",
    );

    for shape in [vec![2, 3], vec![], vec![-1, 3]] {
        let mut other = input();
        other.shape = shape;
        assert_status(
            take(&other, &bytes),
            Code::InvalidArgument,
            "leading dim must be 1 (engine owns batching)",
        );
    }

    assert_status(
        take(&input(), &vec![0u8; 11]),
        Code::InvalidArgument,
        "input bytes mismatch: expected 12, got 11",
    );
}

#[test]
fn draining_model_takes_nothing() {
    let model = entry("doubler", "1", 1);
    assert_status(
        SERVICE.accept_infer(&model, EntryState::Draining, &input(), &vec![0u8; 12]),
        Code::ResourceExhausted,
        "model doubler is draining",
    );
}

#[test]
fn queued_request_carries_its_bytes() {
    let mut admission = admission();
    let mut request = request("doubler", "");
    request.raw_input_contents = vec![vec![1, 2, 3]];
    let (pending, id) = SERVICE.enqueue_infer(&mut admission, request, "way back");
    assert_eq!(pending.input_bytes, vec![1, 2, 3]);
    assert_eq!(pending.seq_len, None);
    assert_eq!(pending.responder, "way back");
    assert_eq!(id, "test-001");
    assert_eq!(admission.queue_depth(), 1);
}

#[test]
fn request_that_cannot_be_queued_is_counted_no_longer() {
    let model = entry("doubler", "1", 1);
    let mut admission = admission();
    admission.incr_queue();
    assert!(SERVICE.after_send(&mut admission, &model, SendOutcome::Sent).is_ok());
    assert_eq!(admission.queue_depth(), 1);
    assert_status(
        SERVICE.after_send(&mut admission, &model, SendOutcome::Full),
        Code::ResourceExhausted,
        "queue full for doubler",
    );
    assert_eq!(admission.queue_depth(), 0);
    admission.incr_queue();
    assert_status(
        SERVICE.after_send(&mut admission, &model, SendOutcome::Closed),
        Code::NotFound,
        "model doubler no longer accepting requests",
    );
    assert_eq!(admission.queue_depth(), 0);
}

#[test]
fn output_is_answered_as_a_single_item() {
    let model = entry("doubler", "1", 1);
    let mut admission = admission();
    admission.incr_queue();
    let reply = Reply::Output(PerRequestOutput { outputs: vec![vec![1, 2, 3], vec![1]] });
    let response = SERVICE
        .finish_infer(&mut admission, &model, "test-001".to_string(), reply)
        .expect("response");
    assert_eq!(admission.queue_depth(), 0);
    assert_eq!(response.model_name, "doubler");
    assert_eq!(response.model_version, "1");
    assert_eq!(response.id, "test-001");
    assert_eq!(response.raw_output_contents, vec![vec![1, 2, 3], vec![1]]);
    assert_eq!(response.outputs.len(), 2);
    assert_eq!(response.outputs[0].name, "output");
    assert_eq!(response.outputs[0].datatype, "FP32");
    assert_eq!(response.outputs[0].shape, vec![1, 3]);
    assert_eq!(response.outputs[1].datatype, "BOOL");
    assert_eq!(response.outputs[1].shape, vec![1]);
}

#[test]
fn answer_carries_the_name_and_id_of_the_request() {
    let models = models();
    for name in ["doubler", "tripler", "doubler"] {
        let mut admission = admission();
        let asked = request(name, "");
        let entry = SERVICE.begin_infer(&admission, &models, &asked).result.expect("routed");
        let (pending, id) = SERVICE.enqueue_infer(&mut admission, asked, ());
        let reply = Reply::Output(PerRequestOutput { outputs: vec![pending.input_bytes] });
        let response =
            SERVICE.finish_infer(&mut admission, &entry, id, reply).expect("response");
        assert_eq!(response.model_name, name);
        assert_eq!(response.id, "test-001");
        assert_eq!(response.raw_output_contents, vec![vec![0u8; 12]]);
    }
}

#[test]
fn failed_runs_are_answered_internal() {
    let model = entry("doubler", "1", 1);
    let mut admission = admission();
    admission.incr_queue();
    let failed = Reply::Failed(Arc::new(BridgeError::RunFailed("boom".to_string())));
    assert_status(
        SERVICE.finish_infer(&mut admission, &model, String::new(), failed),
        Code::Internal,
        "ort::Session::run failed: boom",
    );
    assert_eq!(admission.queue_depth(), 0);
    admission.incr_queue();
    assert_status(
        SERVICE.finish_infer(&mut admission, &model, String::new(), Reply::Dropped),
        Code::Internal,
        "dispatcher dropped responder",
    );
    assert_eq!(admission.queue_depth(), 0);
}

#[test]
fn server_answers() {
    assert!(SERVICE.server_live());
    assert!(!SERVICE.server_ready(&vec![]));
    assert!(SERVICE.server_ready(&vec![EntryState::Loaded, EntryState::Loaded]));
    assert!(!SERVICE.server_ready(&vec![EntryState::Loaded, EntryState::Draining]));
    assert!(SERVICE.model_ready(Some(EntryState::Loaded)));
    assert!(!SERVICE.model_ready(Some(EntryState::Draining)));
    assert!(!SERVICE.model_ready(None));
    let metadata = SERVICE.server_metadata("0.1.0");
    assert_eq!(metadata.name, "apex-inference");
    assert_eq!(metadata.version, "0.1.0");
    assert!(metadata.extensions.is_empty());
}

#[test]
fn model_metadata_describes_the_tensors() {
    let metadata = SERVICE.model_metadata(&models(), "doubler", "").expect("metadata");
    assert_eq!(metadata.name, "doubler");
    assert_eq!(metadata.versions, vec!["2".to_string()]);
    assert_eq!(metadata.platform, "onnxruntime");
    assert_eq!(metadata.inputs.len(), 1);
    assert_eq!(metadata.inputs[0].name, "input");
    assert_eq!(metadata.inputs[0].datatype, "FP32");
    assert_eq!(metadata.inputs[0].shape, vec![-1, 3]);
    assert_eq!(metadata.outputs.len(), 2);
    assert_eq!(metadata.outputs[1].name, "flag");
    assert_eq!(metadata.outputs[1].shape, Vec::<i64>::new());
    assert_status(
        SERVICE.model_metadata(&models(), "doubler", "9"),
        Code::NotFound,
        "model not found: doubler/9",
    );
}

#[test]
fn models_are_found_by_name_and_version() {
    let models = models();
    assert_eq!(SERVICE.find_model(&models, "doubler", "").expect("last").handle, 2);
    assert_eq!(SERVICE.find_model(&models, "doubler", "1").expect("named").handle, 1);
    assert!(SERVICE.find_model(&models, "nobody", "").is_none());
    assert_eq!(version_or_none(""), None);
    assert_eq!(version_or_none("1"), Some("1"));
}

#[test]
fn dtypes_have_protocol_names() {
    assert_eq!(dtype_to_kserve(DType::F32), "FP32");
    assert_eq!(dtype_to_kserve(DType::F16), "FP16");
    assert_eq!(dtype_to_kserve(DType::I64), "INT64");
    assert_eq!(dtype_to_kserve(DType::I32), "INT32");
    assert_eq!(dtype_to_kserve(DType::U8), "UINT8");
    assert_eq!(dtype_to_kserve(DType::Bool), "BOOL");
}

#[test]
fn codes_have_labels() {
    let labels = [
        (Code::Success, "ok"),
        (Code::Cancelled, "cancelled"),
        (Code::Unknown, "unknown"),
        (Code::InvalidArgument, "invalid_argument"),
        (Code::DeadlineExceeded, "deadline_exceeded"),
        (Code::NotFound, "not_found"),
        (Code::AlreadyExists, "already_exists"),
        (Code::PermissionDenied, "permission_denied"),
        (Code::ResourceExhausted, "resource_exhausted"),
        (Code::FailedPrecondition, "failed_precondition"),
        (Code::Aborted, "aborted"),
        (Code::OutOfRange, "out_of_range"),
        (Code::Unimplemented, "unimplemented"),
        (Code::Internal, "internal"),
        (Code::Unavailable, "unavailable"),
        (Code::DataLoss, "data_loss"),
        (Code::Unauthenticated, "unauthenticated"),
    ];
    for (code, label) in labels {
        assert_eq!(status_code_label(code), label);
    }
    assert_eq!(outcome_label(&Ok(())), "ok");
    let status = bridge_err_to_status(&BridgeError::ModelNotBatchable);
    assert_eq!(status.code, Code::Internal);
    assert_eq!(status.message, "model has static batch dimension; engine requires dynamic");
    assert_eq!(outcome_label(&Err(status)), "internal");
}
