use apex::config::{BridgeRuntimeKind, ModelConfig, ModelKind};
use apex::error::BridgeError;
use apex::ort_bridge::invoke::{invoke_error, plan_blocking, task_error, InvokeFailure};
use apex::ort_bridge::session::{
    bytes_per_request, element_type_to_dtype, input_to_meta, outlet_in_range, output_to_meta,
    validate_input_size, ElementType, Outlet, ValueType,
};
use apex::ort_bridge::{BatchRequest, DType, ModelBridge, SessionInfo, TensorMeta};

fn model(runtime: BridgeRuntimeKind) -> ModelConfig {
    ModelConfig {
        name: "m".to_string(),
        version: "1".to_string(),
        path: "/models/m.onnx".to_string(),
        kind: ModelKind::FixedShape,
        max_batch_size: 4,
        max_queue_delay_us: 200,
        intra_op_threads: 1,
        queue_capacity: None,
        runtime,
        seq_len_buckets: None,
        requires_attention_mask: false,
    }
}

fn outlet(name: &str, element: ElementType, shape: Vec<i64>) -> Outlet {
    Outlet {
        name: name.to_string(),
        value: ValueType::Tensor { element: Some(element), shape: Some(shape) },
    }
}

fn session(shape: Vec<i64>) -> SessionInfo {
    SessionInfo {
        inputs: vec![outlet("input", ElementType::Float32, shape)],
        outputs: vec![outlet("output", ElementType::Float32, vec![-1, 3])],
    }
}

fn batch(bytes: usize, batch_n: usize) -> BatchRequest {
    BatchRequest { input_bytes: vec![0; bytes], batch_n, seq_lens: None }
}

#[test]
fn dtype_bytes() {
    assert_eq!(DType::F32.bytes(), 4);
    assert_eq!(DType::F16.bytes(), 2);
    assert_eq!(DType::I64.bytes(), 8);
    assert_eq!(DType::I32.bytes(), 4);
    assert_eq!(DType::U8.bytes(), 1);
    assert_eq!(DType::Bool.bytes(), 1);
}

#[test]
fn validate_input_size_accepts_exact_match() {
    validate_input_size(32 * 4, 32, 4).expect("exact size should pass");
}

#[test]
fn validate_input_size_rejects_short() {
    let err = validate_input_size(100, 32, 4).expect_err("should reject");
    match err {
        BridgeError::InputSizeMismatch { expected, actual } => {
            assert_eq!(expected, 128);
            assert_eq!(actual, 100);
        }
        other => panic!("wrong error: {other:?}"),
    }
}

#[test]
fn validate_input_size_rejects_long() {
    let err = validate_input_size(200, 32, 4).expect_err("should reject");
    assert!(matches!(err, BridgeError::InputSizeMismatch { .. }));
}

#[test]
fn validate_input_size_rejects_a_size_out_of_range() {
    match validate_input_size(8, usize::MAX, 2).expect_err("should reject") {
        BridgeError::InputSizeMismatch { expected, actual } => {
            assert_eq!(expected, usize::MAX);
            assert_eq!(actual, 8);
        }
        other => panic!("wrong error: {other:?}"),
    }
}

#[test]
fn item_size_leaves_out_the_leading_dim() {
    assert_eq!(bytes_per_request(&vec![-1, 3, 2], DType::F32), Some(24));
    assert_eq!(bytes_per_request(&vec![-1], DType::F32), Some(0));
    assert_eq!(bytes_per_request(&vec![-1, 0, 4], DType::F32), Some(0));
    assert_eq!(bytes_per_request(&vec![-1, -1, 4], DType::F32), Some(0));
    assert_eq!(bytes_per_request(&vec![-1, i64::MAX, i64::MAX], DType::F32), None);
}

#[test]
fn element_types_map_to_dtypes() {
    assert!(matches!(element_type_to_dtype(&ElementType::Float32), Ok(DType::F32)));
    assert!(matches!(element_type_to_dtype(&ElementType::Float16), Ok(DType::F16)));
    assert!(matches!(element_type_to_dtype(&ElementType::Int64), Ok(DType::I64)));
    assert!(matches!(element_type_to_dtype(&ElementType::Int32), Ok(DType::I32)));
    assert!(matches!(element_type_to_dtype(&ElementType::Uint8), Ok(DType::U8)));
    assert!(matches!(element_type_to_dtype(&ElementType::Bool), Ok(DType::Bool)));
    match element_type_to_dtype(&ElementType::Other("String".to_string())) {
        Err(BridgeError::UnsupportedDtype { dtype }) => assert_eq!(dtype, "String"),
        other => panic!("wrong result: {other:?}"),
    }
}

#[test]
fn input_must_be_batchable() {
    let meta = input_to_meta(&outlet("x", ElementType::Float32, vec![-1, 3])).expect("meta");
    assert_eq!(meta.name, "x");
    assert_eq!(meta.shape, vec![-1, 3]);
    assert_eq!(meta.bytes_per_request, 12);
    for shape in [vec![1, 3], vec![0, 3], vec![]] {
        let fixed = input_to_meta(&outlet("x", ElementType::Float32, shape));
        assert!(matches!(fixed, Err(BridgeError::ModelNotBatchable)));
    }
    let output = output_to_meta(&outlet("y", ElementType::Int64, vec![1, 3])).expect("meta");
    assert_eq!(output.bytes_per_request, 24);
}

#[test]
fn unusable_outlets_say_why() {
    let cases = [
        (ValueType::NonTensor { debug: "Map".to_string() }, "non-tensor: Map"),
        (
            ValueType::Tensor { element: None, shape: Some(vec![-1]) },
            "missing tensor element type",
        ),
        (
            ValueType::Tensor { element: Some(ElementType::Float32), shape: None },
            "missing tensor shape",
        ),
    ];
    for (value, expected) in cases {
        let outlet = Outlet { name: "x".to_string(), value };
        match input_to_meta(&outlet) {
            Err(BridgeError::UnsupportedInputType { description }) => {
                assert_eq!(description, expected)
            }
            other => panic!("wrong result: {other:?}"),
        }
    }
}

#[test]
fn oversized_tensors_are_out_of_range() {
    let huge = outlet("x", ElementType::Float32, vec![-1, i64::MAX, 2]);
    assert!(!outlet_in_range(&huge, true));
    let fixed = outlet("x", ElementType::Float32, vec![1, i64::MAX, 2]);
    assert!(outlet_in_range(&fixed, true));
    assert!(!outlet_in_range(&fixed, false));
    assert!(!session(vec![-1, i64::MAX, 2]).in_range());
    assert!(session(vec![-1, 3]).in_range());
}

#[test]
fn loaded_model_records_its_tensors() {
    let bridge = ModelBridge::load(&model(BridgeRuntimeKind::Blocking), Ok(session(vec![-1, 3])))
        .expect("model loads");
    assert_eq!(bridge.input_meta().name, "input");
    assert_eq!(bridge.input_meta().bytes_per_request, 12);
    assert_eq!(bridge.output_meta().len(), 1);
    assert_eq!(bridge.output_meta()[0].name, "output");
}

#[test]
fn failed_loads_say_why() {
    let config = model(BridgeRuntimeKind::Blocking);
    match ModelBridge::load(&config, Err("no such file".to_string())) {
        Err(BridgeError::ModelLoadFailed(text)) => assert_eq!(text, "no such file"),
        other => panic!("wrong result: {other:?}"),
    }
    let mut two = session(vec![-1, 3]);
    two.inputs.push(outlet("mask", ElementType::Float32, vec![-1, 3]));
    match ModelBridge::load(&config, Ok(two)) {
        Err(BridgeError::ModelLoadFailed(text)) => {
            assert_eq!(text, "expected exactly one input tensor, found 2")
        }
        other => panic!("wrong result: {other:?}"),
    }
    let fixed = ModelBridge::load(&config, Ok(session(vec![4, 3])));
    assert!(matches!(fixed, Err(BridgeError::ModelNotBatchable)));
    let mut odd = session(vec![-1, 3]);
    odd.outputs.push(outlet("text", ElementType::Other("String".to_string()), vec![-1]));
    let odd = ModelBridge::load(&config, Ok(odd));
    assert!(matches!(odd, Err(BridgeError::UnsupportedDtype { .. })));
}

#[test]
fn run_is_planned_in_the_shape_of_the_batch() {
    let bridge = ModelBridge::load(&model(BridgeRuntimeKind::Blocking), Ok(session(vec![-1, 3])))
        .expect("model loads");
    let plan = bridge.plan_run(batch(24, 2)).expect("plan");
    assert_eq!(plan.shape, vec![2, 3]);
    assert_eq!(plan.input_bytes.len(), 4 * 2 * 3);
    let short = bridge.plan_run(batch(20, 2));
    assert!(matches!(short, Err(BridgeError::InputSizeMismatch { expected: 24, actual: 20 })));
}

#[test]
fn dedicated_thread_is_refused() {
    let config = model(BridgeRuntimeKind::DedicatedThread);
    let bridge = ModelBridge::load(&config, Ok(session(vec![-1, 3]))).expect("model loads");
    match bridge.plan_run(batch(24, 2)) {
        Err(BridgeError::RunFailed(text)) => assert_eq!(
            text,
            "DedicatedThread runtime not implemented in v1; see ort-bridge LLD"
        ),
        other => panic!("wrong result: {other:?}"),
    }
}

#[test]
fn only_static_floats_are_run() {
    let mut meta = TensorMeta {
        name: "x".to_string(),
        dtype: DType::I64,
        shape: vec![-1, 3],
        bytes_per_request: 24,
    };
    match plan_blocking(batch(24, 1), &meta) {
        Err(BridgeError::UnsupportedDtype { dtype }) => assert_eq!(dtype, "I64"),
        other => panic!("wrong result: {other:?}"),
    }
    meta.dtype = DType::F32;
    meta.shape = vec![-1, -1];
    meta.bytes_per_request = 0;
    match plan_blocking(batch(0, 1), &meta) {
        Err(BridgeError::RunFailed(text)) => {
            assert_eq!(text, "non-leading dimension is dynamic; not supported in v1")
        }
        other => panic!("wrong result: {other:?}"),
    }
}

#[test]
fn failures_of_a_run_are_reported() {
    let text = || "why".to_string();
    assert_eq!(
        invoke_error(InvokeFailure::Shape(text())).message(),
        "ort::Session::run failed: shape error: why"
    );
    assert_eq!(
        invoke_error(InvokeFailure::Tensor(text())).message(),
        "ort::Session::run failed: tensor construction: why"
    );
    assert_eq!(
        invoke_error(InvokeFailure::SessionPoisoned).message(),
        "ort::Session::run failed: session mutex poisoned"
    );
    assert_eq!(
        invoke_error(InvokeFailure::Session(text())).message(),
        "ort::Session::run failed: why"
    );
    assert_eq!(
        invoke_error(InvokeFailure::OutputCopy(text())).message(),
        "output copy failed: why"
    );
    assert_eq!(task_error(true, text()).message(), "dispatch task panicked: why");
    assert_eq!(
        task_error(false, text()).message(),
        "ort::Session::run failed: spawn_blocking failed: why"
    );
}
