//! The inference service: what each call is answered.

use std::sync::Arc;
use std::time::Instant;

use vstd::prelude::*;
use vstd::string::*;

use crate::admission;
use crate::admission::{AdmissionController, AdmissionDecision, AdmissionView};
use crate::dispatcher;
use crate::dispatcher::{PendingRequest, PerRequestOutput};
use crate::error::{BridgeError, BridgeErrorView};
use crate::ort_bridge::invoke;
use crate::ort_bridge::session::{copy_dims, TensorMetaView};
use crate::ort_bridge::{DType, TensorMeta};
use crate::registry;
use crate::registry::{EntryState, ModelEntry, ModelRegistry};
use crate::text;
use crate::views;

verus! {

/// The status codes of a call.
#[derive(Debug, Clone, Copy, PartialEq, Eq, Structural)]
pub enum Code {
    Success,
    Cancelled,
    Unknown,
    InvalidArgument,
    DeadlineExceeded,
    NotFound,
    AlreadyExists,
    PermissionDenied,
    ResourceExhausted,
    FailedPrecondition,
    Aborted,
    OutOfRange,
    Unimplemented,
    Internal,
    Unavailable,
    DataLoss,
    Unauthenticated,
}

/// Why a call was turned away.
#[derive(Debug)]
pub struct Status {
    pub code: Code,
    pub message: String,
}

/// The mathematical value of a [`Status`].
pub ghost struct StatusView {
    pub code: Code,
    pub message: Seq<char>,
}

impl View for Status {
    type V = StatusView;

    open spec fn view(&self) -> StatusView {
        StatusView { code: self.code, message: self.message@ }
    }
}

/// An input tensor as a caller describes it.
#[derive(Debug)]
pub struct InferInputTensor {
    pub name: String,
    pub datatype: String,
    pub shape: Vec<i64>,
}

/// A call for an inference.
#[derive(Debug)]
pub struct ModelInferRequest {
    pub model_name: String,
    pub model_version: String,
    pub id: String,
    pub inputs: Vec<InferInputTensor>,
    pub raw_input_contents: Vec<Vec<u8>>,
}

/// A tensor as the service describes it: an output of an inference, or a tensor of a model.
#[derive(Debug)]
pub struct TensorMetadata {
    pub name: String,
    pub datatype: String,
    pub shape: Vec<i64>,
}

/// The answer to a call for an inference.
#[derive(Debug)]
pub struct ModelInferResponse {
    pub model_name: String,
    pub model_version: String,
    pub id: String,
    pub outputs: Vec<TensorMetadata>,
    pub raw_output_contents: Vec<Vec<u8>>,
}

/// What is told of a model.
#[derive(Debug)]
pub struct ModelMetadataResponse {
    pub name: String,
    pub versions: Vec<String>,
    pub platform: String,
    pub inputs: Vec<TensorMetadata>,
    pub outputs: Vec<TensorMetadata>,
}

/// What is told of the server.
#[derive(Debug)]
pub struct ServerMetadataResponse {
    pub name: String,
    pub version: String,
    pub extensions: Vec<String>,
}

pub ghost struct TensorView {
    pub name: Seq<char>,
    pub datatype: Seq<char>,
    pub shape: Seq<i64>,
}

pub ghost struct InferRequestView {
    pub model_name: Seq<char>,
    pub model_version: Seq<char>,
    pub id: Seq<char>,
    pub inputs: Seq<TensorView>,
    pub raw_input_contents: Seq<Seq<u8>>,
}

pub ghost struct InferResponseView {
    pub model_name: Seq<char>,
    pub model_version: Seq<char>,
    pub id: Seq<char>,
    pub outputs: Seq<TensorView>,
    pub raw_output_contents: Seq<Seq<u8>>,
}

pub ghost struct ModelMetadataView {
    pub name: Seq<char>,
    pub versions: Seq<Seq<char>>,
    pub platform: Seq<char>,
    pub inputs: Seq<TensorView>,
    pub outputs: Seq<TensorView>,
}

impl View for InferInputTensor {
    type V = TensorView;

    open spec fn view(&self) -> TensorView {
        TensorView { name: self.name@, datatype: self.datatype@, shape: self.shape@ }
    }
}

impl View for TensorMetadata {
    type V = TensorView;

    open spec fn view(&self) -> TensorView {
        TensorView { name: self.name@, datatype: self.datatype@, shape: self.shape@ }
    }
}

impl View for ModelInferRequest {
    type V = InferRequestView;

    open spec fn view(&self) -> InferRequestView {
        InferRequestView {
            model_name: self.model_name@,
            model_version: self.model_version@,
            id: self.id@,
            inputs: views::view_all(self.inputs@),
            raw_input_contents: views::view_all(self.raw_input_contents@),
        }
    }
}

impl View for ModelInferResponse {
    type V = InferResponseView;

    open spec fn view(&self) -> InferResponseView {
        InferResponseView {
            model_name: self.model_name@,
            model_version: self.model_version@,
            id: self.id@,
            outputs: views::view_all(self.outputs@),
            raw_output_contents: views::view_all(self.raw_output_contents@),
        }
    }
}

impl View for ModelMetadataResponse {
    type V = ModelMetadataView;

    open spec fn view(&self) -> ModelMetadataView {
        ModelMetadataView {
            name: self.name@,
            versions: views::view_all(self.versions@),
            platform: self.platform@,
            inputs: views::view_all(self.inputs@),
            outputs: views::view_all(self.outputs@),
        }
    }
}

/// The label under which a code is counted.
pub open spec fn code_label(code: Code) -> Seq<char> {
    match code {
        Code::Success => "ok"@,
        Code::Cancelled => "cancelled"@,
        Code::Unknown => "unknown"@,
        Code::InvalidArgument => "invalid_argument"@,
        Code::DeadlineExceeded => "deadline_exceeded"@,
        Code::NotFound => "not_found"@,
        Code::AlreadyExists => "already_exists"@,
        Code::PermissionDenied => "permission_denied"@,
        Code::ResourceExhausted => "resource_exhausted"@,
        Code::FailedPrecondition => "failed_precondition"@,
        Code::Aborted => "aborted"@,
        Code::OutOfRange => "out_of_range"@,
        Code::Unimplemented => "unimplemented"@,
        Code::Internal => "internal"@,
        Code::Unavailable => "unavailable"@,
        Code::DataLoss => "data_loss"@,
        Code::Unauthenticated => "unauthenticated"@,
    }
}

/// The label under which a code is counted.
pub fn status_code_label(code: Code) -> (label: &'static str)
    ensures
        label@ == code_label(code),
{
    match code {
        Code::Success => "ok",
        Code::Cancelled => "cancelled",
        Code::Unknown => "unknown",
        Code::InvalidArgument => "invalid_argument",
        Code::DeadlineExceeded => "deadline_exceeded",
        Code::NotFound => "not_found",
        Code::AlreadyExists => "already_exists",
        Code::PermissionDenied => "permission_denied",
        Code::ResourceExhausted => "resource_exhausted",
        Code::FailedPrecondition => "failed_precondition",
        Code::Aborted => "aborted",
        Code::OutOfRange => "out_of_range",
        Code::Unimplemented => "unimplemented",
        Code::Internal => "internal",
        Code::Unavailable => "unavailable",
        Code::DataLoss => "data_loss",
        Code::Unauthenticated => "unauthenticated",
    }
}

/// The label under which the end of a call is counted.
pub fn outcome_label(status: &Result<(), Status>) -> (label: &'static str)
    ensures
        label@ == (match status {
            Ok(_) => "ok"@,
            Err(status) => code_label(status.code),
        }),
{
    match status {
        Ok(_) => "ok",
        Err(status) => status_code_label(status.code),
    }
}

/// A requested version; an empty one stands for none.
pub fn version_or_none(version: &str) -> (requested: Option<&str>)
    ensures
        views::view_option(requested) == requested_version(version@),
{
    if version.is_empty() {
        None
    } else {
        Some(version)
    }
}

/// A requested version; an empty one stands for none.
pub open spec fn requested_version(version: Seq<char>) -> Option<Seq<char>> {
    if version.len() == 0 {
        None
    } else {
        Some(version)
    }
}

/// The protocol's name for an element type.
pub open spec fn kserve_name(dtype: DType) -> Seq<char> {
    match dtype {
        DType::F32 => "FP32"@,
        DType::F16 => "FP16"@,
        DType::I64 => "INT64"@,
        DType::I32 => "INT32"@,
        DType::U8 => "UINT8"@,
        DType::Bool => "BOOL"@,
    }
}

/// The protocol's name for an element type.
pub fn dtype_to_kserve(dtype: DType) -> (name: String)
    ensures
        name@ == kserve_name(dtype),
{
    let name = match dtype {
        DType::F32 => "FP32",
        DType::F16 => "FP16",
        DType::I64 => "INT64",
        DType::I32 => "INT32",
        DType::U8 => "UINT8",
        DType::Bool => "BOOL",
    };
    name.to_string()
}

/// How an error of the bridge is answered: every one that comes while a model is served is a
/// fault of the server.
pub fn bridge_err_to_status(error: &BridgeError) -> (status: Status)
    ensures
        status@ == bridge_status(error@),
{
    Status { code: Code::Internal, message: error.message() }
}

pub open spec fn bridge_status(error: BridgeErrorView) -> StatusView {
    StatusView { code: Code::Internal, message: error.message() }
}

/// The bytes of all parts together.
pub open spec fn total_bytes(parts: Seq<Seq<u8>>) -> nat
    decreases parts.len(),
{
    if parts.len() == 0 {
        0
    } else {
        total_bytes(parts.drop_last()) + parts.last().len()
    }
}

proof fn lemma_total_bytes_prefix(parts: Seq<Seq<u8>>, n: int)
    requires
        0 <= n <= parts.len(),
    ensures
        total_bytes(parts.take(n)) <= total_bytes(parts),
    decreases parts.len(),
{
    if n < parts.len() {
        lemma_total_bytes_prefix(parts.drop_last(), n);
        assert(parts.drop_last().take(n) == parts.take(n));
    } else {
        assert(parts.take(n) == parts);
    }
}

fn sum_bytes(parts: &Vec<Vec<u8>>) -> (sum: usize)
    requires
        total_bytes(views::view_all(parts@)) <= usize::MAX,
    ensures
        sum == total_bytes(views::view_all(parts@)),
{
    let ghost all = views::view_all(parts@);
    let mut sum: usize = 0;
    let mut i: usize = 0;
    while i < parts.len()
        invariant
            i <= parts.len(),
            all == views::view_all(parts@),
            total_bytes(all) <= usize::MAX,
            sum == total_bytes(all.take(i as int)),
        decreases parts.len() - i,
    {
        proof {
            let next = all.take(i + 1);
            assert(next.drop_last() == all.take(i as int));
            assert(next.last() == parts@[i as int]@);
            lemma_total_bytes_prefix(all, i + 1);
        }
        sum = sum + parts[i].len();
        i = i + 1;
    }
    assert(all.take(i as int) == all);
    sum
}

/// The answer to a request whose payload is too large.
pub open spec fn too_large(total: nat, limit: nat) -> StatusView {
    StatusView {
        code: Code::ResourceExhausted,
        message: "request exceeds max_request_bytes ("@ + text::decimal(total) + " > "@
            + text::decimal(limit) + ")"@,
    }
}

/// The entry that an admitted request is for, or the answer to it: it has to bring exactly one
/// input tensor, with its bytes in one piece, for a registered model.
pub open spec fn routed<H>(
    map: Map<(Seq<char>, Seq<char>), Arc<ModelEntry<H>>>,
    request: InferRequestView,
) -> Result<Arc<ModelEntry<H>>, StatusView> {
    if request.inputs.len() != 1 {
        Err(
            StatusView {
                code: Code::InvalidArgument,
                message: "expected exactly one input tensor, got "@ + text::decimal(
                    request.inputs.len(),
                ),
            },
        )
    } else if request.raw_input_contents.len() != 1 {
        Err(
            StatusView {
                code: Code::InvalidArgument,
                message: "use raw_input_contents (one entry per input)"@,
            },
        )
    } else {
        match registry::resolve(
            map,
            request.model_name,
            requested_version(request.model_version),
        ) {
            None => Err(
                StatusView {
                    code: Code::NotFound,
                    message: "model not found: "@ + request.model_name,
                },
            ),
            Some(entry) => Ok(entry),
        }
    }
}

/// The first answer to a request: its size is checked, then the admission controller, then what
/// it asks for.
pub open spec fn first_answer<H>(
    max_request_bytes: nat,
    admission: AdmissionView,
    map: Map<(Seq<char>, Seq<char>), Arc<ModelEntry<H>>>,
    request: InferRequestView,
) -> Result<Arc<ModelEntry<H>>, StatusView> {
    if total_bytes(request.raw_input_contents) > max_request_bytes {
        Err(too_large(total_bytes(request.raw_input_contents), max_request_bytes))
    } else if admission.decision() != AdmissionDecision::Admit {
        Err(
            StatusView {
                code: Code::ResourceExhausted,
                message: admission.decision().told(),
            },
        )
    } else {
        routed(map, request)
    }
}

/// What is wrong with a request for a model in this state, if anything is: the model has to take
/// requests, and the tensor has to be the one that it declares, as a single item.
pub open spec fn tensor_problem(
    model: Seq<char>,
    meta: TensorMetaView,
    state: EntryState,
    input: TensorView,
    input_bytes: nat,
) -> Option<StatusView> {
    if state != EntryState::Loaded {
        Some(
            StatusView {
                code: Code::ResourceExhausted,
                message: "model "@ + model + " is draining"@,
            },
        )
    } else if input.name != meta.name {
        Some(
            StatusView {
                code: Code::InvalidArgument,
                message: "input name mismatch: expected '"@ + meta.name + "', got '"@ + input.name
                    + "'"@,
            },
        )
    } else if input.datatype != kserve_name(meta.dtype) {
        Some(
            StatusView {
                code: Code::InvalidArgument,
                message: "datatype mismatch: expected "@ + kserve_name(meta.dtype) + ", got "@
                    + input.datatype,
            },
        )
    } else if input.shape.len() == 0 || input.shape[0] != 1 {
        Some(
            StatusView {
                code: Code::InvalidArgument,
                message: "leading dim must be 1 (engine owns batching)"@,
            },
        )
    } else if input_bytes != meta.bytes_per_request {
        Some(
            StatusView {
                code: Code::InvalidArgument,
                message: "input bytes mismatch: expected "@ + text::decimal(
                    meta.bytes_per_request,
                ) + ", got "@ + text::decimal(input_bytes),
            },
        )
    } else {
        None
    }
}

/// The first answer to a request, with the decision of the admission controller where it was
/// asked, and the nanoseconds that it took to decide.
#[derive(Debug)]
pub struct InferStart<H> {
    pub decision: Option<AdmissionDecision>,
    pub check_ns: u128,
    pub result: Result<Arc<ModelEntry<H>>, Status>,
}

/// What became of a request that was put into the queue of its model.
#[derive(Debug, Clone, Copy, PartialEq, Eq, Structural)]
pub enum SendOutcome {
    Sent,
    Full,
    Closed,
}

/// What came back for a request.
#[derive(Debug)]
pub enum Reply {
    Output(PerRequestOutput),
    Failed(Arc<BridgeError>),
    Dropped,
}

/// The answer to a request that could not be queued.
pub open spec fn send_answer(model: Seq<char>, outcome: SendOutcome) -> Result<(), StatusView> {
    match outcome {
        SendOutcome::Sent => Ok(()),
        SendOutcome::Full => Err(
            StatusView { code: Code::ResourceExhausted, message: "queue full for "@ + model },
        ),
        SendOutcome::Closed => Err(
            StatusView {
                code: Code::NotFound,
                message: "model "@ + model + " no longer accepting requests"@,
            },
        ),
    }
}

/// The admission controller after a counted request was put into a queue, or was not.
pub open spec fn counted_after_send(
    admission: AdmissionView,
    outcome: SendOutcome,
) -> AdmissionView {
    match outcome {
        SendOutcome::Sent => admission,
        _ => admission.dequeued(1),
    }
}

/// A tensor of a model as the service describes it.
pub open spec fn described(meta: TensorMetaView) -> TensorView {
    TensorView { name: meta.name, datatype: kserve_name(meta.dtype), shape: meta.shape }
}

/// An output tensor of one request: the declared one, with a leading dim of 1.
pub open spec fn single_output(meta: TensorMetaView) -> TensorView {
    TensorView {
        name: meta.name,
        datatype: kserve_name(meta.dtype),
        shape: if meta.shape.len() == 0 {
            seq![1i64]
        } else {
            seq![1i64] + meta.shape.skip(1)
        },
    }
}

/// The answer to a request of this id that was queued for a model, by what came back for it.
pub open spec fn answered<H>(entry: ModelEntry<H>, id: Seq<char>, reply: Reply) -> Result<
    InferResponseView,
    StatusView,
> {
    match reply {
        Reply::Output(part) => Ok(
            InferResponseView {
                model_name: entry.name@,
                model_version: entry.version@,
                id,
                outputs: views::view_all(entry.output_meta@).map_values(
                    |meta: TensorMetaView| single_output(meta),
                ),
                raw_output_contents: views::view_all(part.outputs@),
            },
        ),
        Reply::Failed(error) => Err(bridge_status(error@)),
        Reply::Dropped => Err(
            StatusView { code: Code::Internal, message: "dispatcher dropped responder"@ },
        ),
    }
}

/// The nanoseconds that a check took.
pub fn check_time(started: Instant, ended: Instant) -> (ns: u128)
    ensures
        ns == admission::nanoseconds(admission::time_between(ended, started)),
{
    ended.saturating_duration_since(started).as_nanos()
}

fn answer(code: Code, message: &str) -> (status: Status)
    ensures
        status@ == (StatusView { code, message: message@ }),
{
    Status { code, message: message.to_string() }
}

fn single_output_tensor(meta: &TensorMeta) -> (tensor: TensorMetadata)
    ensures
        tensor@ == single_output(meta@),
{
    let mut shape: Vec<i64> = Vec::new();
    shape.push(1);
    if meta.shape.len() == 0 {
        assert(shape@ == seq![1i64]);
    } else {
        let mut i: usize = 1;
        while i < meta.shape.len()
            invariant
                1 <= i <= meta.shape.len(),
                shape@ == seq![1i64] + meta.shape@.subrange(1, i as int),
            decreases meta.shape.len() - i,
        {
            shape.push(meta.shape[i]);
            i = i + 1;
        }
        assert(meta.shape@.subrange(1, i as int) == meta.shape@.skip(1));
    }
    TensorMetadata { name: meta.name.clone(), datatype: dtype_to_kserve(meta.dtype), shape }
}

fn describe_tensor(meta: &TensorMeta) -> (tensor: TensorMetadata)
    ensures
        tensor@ == described(meta@),
{
    TensorMetadata {
        name: meta.name.clone(),
        datatype: dtype_to_kserve(meta.dtype),
        shape: copy_dims(&meta.shape),
    }
}

/// The service, with the largest payload that it takes.
#[derive(Debug, Clone, Copy)]
pub struct InferenceService {
    pub max_request_bytes: usize,
}

impl InferenceService {
    /// The server answers.
    pub fn server_live(&self) -> (live: bool)
        ensures
            live,
    {
        true
    }

    /// Whether the server is ready: it has models, and all of them take requests. `states` holds
    /// the state of each registered model.
    pub fn server_ready(&self, states: &Vec<EntryState>) -> (ready: bool)
        ensures
            ready == (states@.len() > 0 && forall|i: int|
                0 <= i < states@.len() ==> states@[i] == EntryState::Loaded),
    {
        let mut i: usize = 0;
        while i < states.len()
            invariant
                i <= states.len(),
                forall|j: int| 0 <= j < i ==> states@[j] == EntryState::Loaded,
            decreases states.len() - i,
        {
            if states[i] != EntryState::Loaded {
                return false;
            }
            i = i + 1;
        }
        states.len() > 0
    }

    /// What is told of the server.
    pub fn server_metadata(&self, version: &str) -> (response: ServerMetadataResponse)
        ensures
            response.name@ == "apex-inference"@,
            response.version@ == version@,
            response.extensions@.len() == 0,
    {
        ServerMetadataResponse {
            name: "apex-inference".to_string(),
            version: version.to_string(),
            extensions: Vec::new(),
        }
    }

    /// The entry that a call for this name and version is about.
    pub fn find_model<H>(&self, models: &ModelRegistry<H>, name: &str, version: &str) -> (found:
        Option<Arc<ModelEntry<H>>>)
        ensures
            found == registry::resolve(models@, name@, requested_version(version@)),
    {
        models.get(name, version_or_none(version))
    }

    /// Whether a model is ready, given the state of the entry that was found for it.
    pub fn model_ready(&self, state: Option<EntryState>) -> (ready: bool)
        ensures
            ready == (state == Some(EntryState::Loaded)),
    {
        match state {
            Some(EntryState::Loaded) => true,
            _ => false,
        }
    }

    /// What is told of a model.
    pub fn model_metadata<H>(&self, models: &ModelRegistry<H>, name: &str, version: &str) -> (
        result: Result<ModelMetadataResponse, Status>)
        ensures
            views::view_result(result) == (match registry::resolve(
                models@,
                name@,
                requested_version(version@),
            ) {
                None => Err(
                    StatusView {
                        code: Code::NotFound,
                        message: "model not found: "@ + name@ + "/"@ + version@,
                    },
                ),
                Some(entry) => Ok(
                    ModelMetadataView {
                        name: entry.name@,
                        versions: seq![entry.version@],
                        platform: "onnxruntime"@,
                        inputs: seq![described(entry.input_meta@)],
                        outputs: views::view_all(entry.output_meta@).map_values(
                            |meta: TensorMetaView| described(meta),
                        ),
                    },
                ),
            }),
    {
        let entry = match self.find_model(models, name, version) {
            Some(entry) => entry,
            None => {
                let mut message = text::joined("model not found: ", name);
                message.append("/");
                message.append(version);
                return Err(Status { code: Code::NotFound, message });
            },
        };
        let mut versions: Vec<String> = Vec::new();
        versions.push(entry.version.clone());
        assert(views::view_all(versions@) == seq![entry.version@]);
        let mut inputs: Vec<TensorMetadata> = Vec::new();
        inputs.push(describe_tensor(&entry.input_meta));
        assert(views::view_all(inputs@) == seq![described(entry.input_meta@)]);
        let ghost expected = views::view_all(entry.output_meta@).map_values(
            |meta: TensorMetaView| described(meta),
        );
        let mut outputs: Vec<TensorMetadata> = Vec::new();
        let mut i: usize = 0;
        assert(views::view_all(outputs@) == expected.take(0));
        while i < entry.output_meta.len()
            invariant
                i <= entry.output_meta.len(),
                expected == views::view_all(entry.output_meta@).map_values(
                    |meta: TensorMetaView| described(meta),
                ),
                views::view_all(outputs@) == expected.take(i as int),
            decreases entry.output_meta.len() - i,
        {
            let ghost before = views::view_all(outputs@);
            let tensor = describe_tensor(&entry.output_meta[i]);
            outputs.push(tensor);
            assert(views::view_all(outputs@) == before.push(tensor@));
            assert(expected.take(i + 1) == before.push(expected[i as int]));
            i = i + 1;
        }
        assert(expected.take(i as int) == expected);
        Ok(
            ModelMetadataResponse {
                name: entry.name.clone(),
                versions,
                platform: "onnxruntime".to_string(),
                inputs,
                outputs,
            },
        )
    }

    /// The first step of an inference: the entry that the request is for, or the answer to it.
    /// The admission controller is asked unless the payload is too large.
    pub fn begin_infer<H>(
        &self,
        admission: &AdmissionController,
        models: &ModelRegistry<H>,
        request: &ModelInferRequest,
    ) -> (start: InferStart<H>)
        requires
            total_bytes(request@.raw_input_contents) <= usize::MAX,
        ensures
            start.decision == (if total_bytes(request@.raw_input_contents)
                > self.max_request_bytes {
                None
            } else {
                Some(admission@.decision())
            }),
            start.decision is None ==> start.check_ns == 0,
            start.decision is Some ==> exists|started: Instant, ended: Instant|
                {
                    &&& call_ensures(Instant::now, (), started)
                    &&& call_ensures(Instant::now, (), ended)
                    &&& start.check_ns == admission::nanoseconds(
                        #[trigger] admission::time_between(ended, started),
                    )
                },
            match start.result {
                Ok(entry) => first_answer(
                    self.max_request_bytes as nat,
                    admission@,
                    models@,
                    request@,
                ) == Ok::<Arc<ModelEntry<H>>, StatusView>(entry),
                Err(status) => first_answer(
                    self.max_request_bytes as nat,
                    admission@,
                    models@,
                    request@,
                ) == Err::<Arc<ModelEntry<H>>, StatusView>(status@),
            },
    {
        let total = sum_bytes(&request.raw_input_contents);
        if total > self.max_request_bytes {
            let mut message = "request exceeds max_request_bytes (".to_string();
            text::append_decimal(&mut message, total as u64);
            message.append(" > ");
            text::append_decimal(&mut message, self.max_request_bytes as u64);
            message.append(")");
            return InferStart {
                decision: None,
                check_ns: 0,
                result: Err(Status { code: Code::ResourceExhausted, message }),
            };
        }
        let started = Instant::now();
        let decision = admission.check();
        let ended = Instant::now();
        let check_ns = check_time(started, ended);
        if !decision.is_admit() {
            return InferStart {
                decision: Some(decision),
                check_ns,
                result: Err(answer(Code::ResourceExhausted, decision.reject_message())),
            };
        }
        InferStart { decision: Some(decision), check_ns, result: self.route(models, request) }
    }

    fn route<H>(&self, models: &ModelRegistry<H>, request: &ModelInferRequest) -> (result: Result<
        Arc<ModelEntry<H>>,
        Status,
    >)
        ensures
            match result {
                Ok(entry) => routed(models@, request@) == Ok::<Arc<ModelEntry<H>>, StatusView>(
                    entry,
                ),
                Err(status) => routed(models@, request@) == Err::<
                    Arc<ModelEntry<H>>,
                    StatusView,
                >(status@),
            },
    {
        if request.inputs.len() != 1 {
            let mut message = "expected exactly one input tensor, got ".to_string();
            text::append_decimal(&mut message, request.inputs.len() as u64);
            return Err(Status { code: Code::InvalidArgument, message });
        }
        if request.raw_input_contents.len() != 1 {
            return Err(
                answer(Code::InvalidArgument, "use raw_input_contents (one entry per input)"),
            );
        }
        match self.find_model(models, &request.model_name, &request.model_version) {
            Some(entry) => Ok(entry),
            None => Err(
                Status {
                    code: Code::NotFound,
                    message: text::joined("model not found: ", &request.model_name),
                },
            ),
        }
    }

    /// The second step of an inference: whether the model, in the state that it is in, takes the
    /// tensor of the request.
    pub fn accept_infer<H>(
        &self,
        entry: &ModelEntry<H>,
        state: EntryState,
        input: &InferInputTensor,
        input_bytes: &Vec<u8>,
    ) -> (result: Result<(), Status>)
        ensures
            match tensor_problem(entry.name@, entry.input_meta@, state, input@, input_bytes@.len()) {
                None => result is Ok,
                Some(status) => result is Err && result->Err_0@ == status,
            },
    {
        if state != EntryState::Loaded {
            let mut message = text::joined("model ", &entry.name);
            message.append(" is draining");
            return Err(Status { code: Code::ResourceExhausted, message });
        }
        let meta = &entry.input_meta;
        if !text::text_eq(&input.name, &meta.name) {
            let mut message = text::joined("input name mismatch: expected '", &meta.name);
            message.append("', got '");
            message.append(&input.name);
            message.append("'");
            return Err(Status { code: Code::InvalidArgument, message });
        }
        let expected = dtype_to_kserve(meta.dtype);
        if !text::text_eq(&input.datatype, &expected) {
            let mut message = text::joined("datatype mismatch: expected ", &expected);
            message.append(", got ");
            message.append(&input.datatype);
            return Err(Status { code: Code::InvalidArgument, message });
        }
        if input.shape.len() == 0 || input.shape[0] != 1 {
            return Err(
                answer(Code::InvalidArgument, "leading dim must be 1 (engine owns batching)"),
            );
        }
        if input_bytes.len() != meta.bytes_per_request {
            let mut message = "input bytes mismatch: expected ".to_string();
            text::append_decimal(&mut message, meta.bytes_per_request as u64);
            message.append(", got ");
            text::append_decimal(&mut message, input_bytes.len() as u64);
            return Err(Status { code: Code::InvalidArgument, message });
        }
        Ok(())
    }

    /// The third step of an inference: the request is counted, and its bytes are made ready for
    /// the queue of its model. Gives its id too, for the answer.
    pub fn enqueue_infer<R>(
        &self,
        admission: &mut AdmissionController,
        request: ModelInferRequest,
        responder: R,
    ) -> (queued: (PendingRequest<R>, String))
        requires
            request@.raw_input_contents.len() > 0,
            old(admission)@.queue_depth < usize::MAX,
        ensures
            queued.0.input_bytes@ == request@.raw_input_contents[0],
            queued.0.seq_len is None,
            queued.0.responder == responder,
            queued.1@ == request@.id,
            final(admission)@ == old(admission)@.enqueued(),
    {
        let mut contents = request.raw_input_contents;
        let input_bytes = contents.remove(0);
        admission.incr_queue();
        (PendingRequest { input_bytes, seq_len: None, responder }, request.id)
    }

    /// The fourth step of an inference, after an attempt to put the request into the queue of its
    /// model: one that could not be queued is counted no longer, and answered.
    pub fn after_send<H>(
        &self,
        admission: &mut AdmissionController,
        entry: &ModelEntry<H>,
        outcome: SendOutcome,
    ) -> (result: Result<(), Status>)
        requires
            outcome != SendOutcome::Sent ==> old(admission)@.queue_depth >= 1,
        ensures
            views::view_result(result) == send_answer(entry.name@, outcome),
            final(admission)@ == counted_after_send(old(admission)@, outcome),
    {
        match outcome {
            SendOutcome::Sent => Ok(()),
            SendOutcome::Full => {
                admission.decr_queue(1);
                Err(
                    Status {
                        code: Code::ResourceExhausted,
                        message: text::joined("queue full for ", &entry.name),
                    },
                )
            },
            SendOutcome::Closed => {
                admission.decr_queue(1);
                let mut message = text::joined("model ", &entry.name);
                message.append(" no longer accepting requests");
                Err(Status { code: Code::NotFound, message })
            },
        }
    }

    /// The last step of an inference: the request is counted no longer, and what came back for
    /// it is answered.
    pub fn finish_infer<H>(
        &self,
        admission: &mut AdmissionController,
        entry: &ModelEntry<H>,
        id: String,
        reply: Reply,
    ) -> (result: Result<ModelInferResponse, Status>)
        requires
            old(admission)@.queue_depth >= 1,
        ensures
            final(admission)@ == old(admission)@.dequeued(1),
            views::view_result(result) == answered(*entry, id@, reply),
    {
        admission.decr_queue(1);
        let part = match reply {
            Reply::Output(part) => part,
            Reply::Failed(error) => {
                return Err(bridge_err_to_status(&error));
            },
            Reply::Dropped => {
                return Err(answer(Code::Internal, "dispatcher dropped responder"));
            },
        };
        let ghost expected = views::view_all(entry.output_meta@).map_values(
            |meta: TensorMetaView| single_output(meta),
        );
        let mut outputs: Vec<TensorMetadata> = Vec::new();
        let mut i: usize = 0;
        assert(views::view_all(outputs@) == expected.take(0));
        while i < entry.output_meta.len()
            invariant
                i <= entry.output_meta.len(),
                expected == views::view_all(entry.output_meta@).map_values(
                    |meta: TensorMetaView| single_output(meta),
                ),
                views::view_all(outputs@) == expected.take(i as int),
            decreases entry.output_meta.len() - i,
        {
            let ghost before = views::view_all(outputs@);
            let tensor = single_output_tensor(&entry.output_meta[i]);
            outputs.push(tensor);
            assert(views::view_all(outputs@) == before.push(tensor@));
            assert(expected.take(i + 1) == before.push(expected[i as int]));
            i = i + 1;
        }
        assert(expected.take(i as int) == expected);
        Ok(
            ModelInferResponse {
                model_name: entry.name.clone(),
                model_version: entry.version.clone(),
                id,
                outputs,
                raw_output_contents: part.outputs,
            },
        )
    }
}

/// A request that does not exceed the payload limit is told of an exceeded memory limit before
/// anything else, and of an exceeded queue limit before anything else but that, whatever it asks
/// for; within both limits the admission controller does not show in its answer.
pub proof fn lemma_limits_are_answered_first<H>(
    max_request_bytes: nat,
    admission: AdmissionView,
    map: Map<(Seq<char>, Seq<char>), Arc<ModelEntry<H>>>,
    request: InferRequestView,
)
    requires
        total_bytes(request.raw_input_contents) <= max_request_bytes,
    ensures
        admission.rss > admission.max_rss_bytes ==> first_answer(
            max_request_bytes,
            admission,
            map,
            request,
        ) == Err::<Arc<ModelEntry<H>>, StatusView>(
            StatusView { code: Code::ResourceExhausted, message: "memory limit"@ },
        ),
        admission.rss <= admission.max_rss_bytes && admission.queue_depth
            > admission.max_queue_depth ==> first_answer(max_request_bytes, admission, map, request)
            == Err::<Arc<ModelEntry<H>>, StatusView>(
            StatusView { code: Code::ResourceExhausted, message: "queue depth limit"@ },
        ),
        admission.rss <= admission.max_rss_bytes && admission.queue_depth
            <= admission.max_queue_depth ==> first_answer(
            max_request_bytes,
            admission,
            map,
            request,
        ) == routed(map, request),
{
}

/// A request that names a registered version is routed to exactly that entry.
pub proof fn lemma_request_reaches_the_named_version<H>(
    map: Map<(Seq<char>, Seq<char>), Arc<ModelEntry<H>>>,
    request: InferRequestView,
)
    requires
        request.inputs.len() == 1,
        request.raw_input_contents.len() == 1,
        request.model_version.len() > 0,
    ensures
        map.contains_key((request.model_name, request.model_version)) ==> routed(map, request)
            == Ok::<Arc<ModelEntry<H>>, StatusView>(
            map[(request.model_name, request.model_version)],
        ),
        !map.contains_key((request.model_name, request.model_version)) ==> routed(map, request)
            == Err::<Arc<ModelEntry<H>>, StatusView>(
            StatusView { code: Code::NotFound, message: "model not found: "@ + request.model_name },
        ),
{
}

/// A request, with a version or without, is routed to a model of the name that it asks for, and
/// by nothing else of it than its name and version.
pub proof fn lemma_routed_by_name_and_version<H>(
    entries: Seq<Arc<ModelEntry<H>>>,
    request: InferRequestView,
    other: InferRequestView,
)
    ensures
        routed(registry::entries_map(entries), request) matches Ok(entry) ==> entry.name@
            == request.model_name,
        request.inputs.len() == 1 && request.raw_input_contents.len() == 1 && other.inputs.len()
            == 1 && other.raw_input_contents.len() == 1 && request.model_name == other.model_name
            && request.model_version == other.model_version ==> routed(
            registry::entries_map(entries),
            request,
        ) == routed(registry::entries_map(entries), other),
{
    let map = registry::entries_map(entries);
    let name = request.model_name;
    if routed(map, request) is Ok {
        if request.model_version.len() > 0 {
            registry::lemma_versioned_request_is_exact(entries, name, request.model_version);
        } else {
            let last = choose|version: Seq<char>| registry::is_last_version(map, name, version);
            registry::lemma_unversioned_request_finds_last(entries, name, last);
        }
    }
}

/// The answer to a request carries the model name and the id of the request, the version too where
/// the request names one, and the bytes that came back for it.
pub proof fn lemma_answer_carries_the_request<H>(
    entries: Seq<Arc<ModelEntry<H>>>,
    request: InferRequestView,
    entry: Arc<ModelEntry<H>>,
    reply: Reply,
)
    requires
        routed(registry::entries_map(entries), request) == Ok::<Arc<ModelEntry<H>>, StatusView>(
            entry,
        ),
    ensures
        reply is Output <==> answered(*entry, request.id, reply) is Ok,
        reply matches Reply::Output(part) ==> {
            let response = answered(*entry, request.id, reply)->Ok_0;
            &&& response.model_name == request.model_name
            &&& request.model_version.len() > 0 ==> response.model_version
                == request.model_version
            &&& response.id == request.id
            &&& response.raw_output_contents == views::view_all(part.outputs@)
        },
{
    lemma_routed_by_name_and_version(entries, request, request);
    if request.model_version.len() > 0 {
        registry::lemma_versioned_request_is_exact(
            entries,
            request.model_name,
            request.model_version,
        );
    }
}

/// Of requests that one model has taken, every batch is packed without a change and, where the
/// model's elements are 32-bit floats and its item dims are static, passes all that is checked
/// before a run.
pub proof fn lemma_taken_requests_can_be_run(
    model: Seq<char>,
    meta: TensorMetaView,
    tensors: Seq<TensorView>,
    inputs: Seq<Seq<u8>>,
)
    requires
        tensors.len() == inputs.len(),
        inputs.len() * meta.bytes_per_request <= usize::MAX,
        inputs.len() <= usize::MAX,
        forall|i: int|
            0 <= i < inputs.len() ==> tensor_problem(
                model,
                meta,
                EntryState::Loaded,
                #[trigger] tensors[i],
                #[trigger] inputs[i].len(),
            ) is None,
    ensures
        dispatcher::packed(inputs, meta.bytes_per_request) == dispatcher::joined(inputs),
        meta.dtype == DType::F32 && !invoke::item_is_dynamic(meta.shape)
            ==> invoke::blocking_plan(
            dispatcher::joined(inputs),
            inputs.len() as usize,
            meta,
        ) is Ok,
{
    assert forall|i: int| 0 <= i < inputs.len() implies (#[trigger] inputs[i]).len()
        == meta.bytes_per_request by {
        assert(tensor_problem(
            model,
            meta,
            EntryState::Loaded,
            tensors[i],
            inputs[i].len(),
        ) is None);
    }
    dispatcher::lemma_exact_inputs_are_packed_unchanged(inputs, meta.bytes_per_request);
    dispatcher::lemma_packed_batch_passes_size_check(inputs, meta.bytes_per_request);
}

/// Of a model that gives its input back, each request that it has taken gets its own bytes back,
/// in whatever batch they were run.
pub proof fn lemma_taken_request_is_echoed(
    model: Seq<char>,
    meta: TensorMetaView,
    tensor: TensorView,
    inputs: Seq<Seq<u8>>,
    i: nat,
)
    requires
        i < inputs.len(),
        tensor_problem(
            model,
            meta,
            EntryState::Loaded,
            tensor,
            inputs[i as int].len(),
        ) is None,
    ensures
        dispatcher::shares(
            seq![dispatcher::packed(inputs, meta.bytes_per_request)],
            i,
            inputs.len(),
        ) == seq![inputs[i as int]],
{
    dispatcher::lemma_echo_returns_each_place(inputs, meta.bytes_per_request, i);
    assert(dispatcher::slot(inputs[i as int], meta.bytes_per_request) == inputs[i as int]);
}

/// A request is counted once, for as long as it is served: one that could not be queued, and one
/// that was queued and has been answered, leave the admission controller as they found it.
pub proof fn lemma_request_is_counted_while_served(admission: AdmissionView, outcome: SendOutcome)
    requires
        admission.queue_depth < usize::MAX,
    ensures
        outcome == SendOutcome::Sent ==> counted_after_send(
            admission.enqueued(),
            outcome,
        ).queue_depth == admission.queue_depth + 1,
        outcome != SendOutcome::Sent ==> counted_after_send(admission.enqueued(), outcome)
            == admission,
        outcome == SendOutcome::Sent ==> counted_after_send(
            admission.enqueued(),
            outcome,
        ).dequeued(1) == admission,
{
}

/// A model that drains turns every request away, and says so.
pub proof fn lemma_draining_model_takes_nothing(
    model: Seq<char>,
    meta: TensorMetaView,
    state: EntryState,
    input: TensorView,
    input_bytes: nat,
)
    requires
        state != EntryState::Loaded,
    ensures
        tensor_problem(model, meta, state, input, input_bytes) == Some(
            StatusView {
                code: Code::ResourceExhausted,
                message: "model "@ + model + " is draining"@,
            },
        ),
{
}

/// The label of each code.
pub proof fn lemma_labels_of_codes()
    ensures
        code_label(Code::Success) == "ok"@,
        code_label(Code::Cancelled) == "cancelled"@,
        code_label(Code::Unknown) == "unknown"@,
        code_label(Code::InvalidArgument) == "invalid_argument"@,
        code_label(Code::DeadlineExceeded) == "deadline_exceeded"@,
        code_label(Code::NotFound) == "not_found"@,
        code_label(Code::AlreadyExists) == "already_exists"@,
        code_label(Code::PermissionDenied) == "permission_denied"@,
        code_label(Code::ResourceExhausted) == "resource_exhausted"@,
        code_label(Code::FailedPrecondition) == "failed_precondition"@,
        code_label(Code::Aborted) == "aborted"@,
        code_label(Code::OutOfRange) == "out_of_range"@,
        code_label(Code::Unimplemented) == "unimplemented"@,
        code_label(Code::Internal) == "internal"@,
        code_label(Code::Unavailable) == "unavailable"@,
        code_label(Code::DataLoss) == "data_loss"@,
        code_label(Code::Unauthenticated) == "unauthenticated"@,
{
}

/// The protocol's name for each element type.
pub proof fn lemma_protocol_names()
    ensures
        kserve_name(DType::F32) == "FP32"@,
        kserve_name(DType::F16) == "FP16"@,
        kserve_name(DType::I64) == "INT64"@,
        kserve_name(DType::I32) == "INT32"@,
        kserve_name(DType::U8) == "UINT8"@,
        kserve_name(DType::Bool) == "BOOL"@,
{
}

/// An empty version asks for none, any other for itself; and every error of the bridge is
/// answered as a fault of the server, with its text.
pub proof fn lemma_versions_and_faults(version: Seq<char>, error: BridgeErrorView)
    ensures
        version.len() == 0 ==> requested_version(version) is None,
        version.len() > 0 ==> requested_version(version) == Some(version),
        bridge_status(error).code == Code::Internal,
        bridge_status(error).message == error.message(),
{
}

/// The value of a request is the value of each of its parts.
pub proof fn lemma_value_of_a_request(request: ModelInferRequest)
    ensures
        request@.model_name == request.model_name@,
        request@.model_version == request.model_version@,
        request@.id == request.id@,
        request@.inputs.len() == request.inputs@.len(),
        forall|i: int|
            0 <= i < request.inputs@.len() ==> {
                &&& (#[trigger] request@.inputs[i]).name == request.inputs@[i].name@
                &&& request@.inputs[i].datatype == request.inputs@[i].datatype@
                &&& request@.inputs[i].shape == request.inputs@[i].shape@
            },
        request@.raw_input_contents.len() == request.raw_input_contents@.len(),
        forall|i: int|
            0 <= i < request.raw_input_contents@.len() ==> #[trigger] request@.raw_input_contents[i]
                == request.raw_input_contents@[i]@,
{
}

/// The value of an answer is the value of each of its parts.
pub proof fn lemma_value_of_a_response(response: ModelInferResponse, status: Status)
    ensures
        response@.model_name == response.model_name@,
        response@.model_version == response.model_version@,
        response@.id == response.id@,
        response@.outputs.len() == response.outputs@.len(),
        forall|i: int|
            0 <= i < response.outputs@.len() ==> {
                &&& (#[trigger] response@.outputs[i]).name == response.outputs@[i].name@
                &&& response@.outputs[i].datatype == response.outputs@[i].datatype@
                &&& response@.outputs[i].shape == response.outputs@[i].shape@
            },
        response@.raw_output_contents.len() == response.raw_output_contents@.len(),
        forall|i: int|
            0 <= i < response.raw_output_contents@.len()
                ==> #[trigger] response@.raw_output_contents[i]
                == response.raw_output_contents@[i]@,
        status@.code == status.code,
        status@.message == status.message@,
{
}

/// The value of a model's description is the value of each of its parts.
pub proof fn lemma_value_of_model_metadata(response: ModelMetadataResponse, tensor: TensorMetadata)
    ensures
        response@.name == response.name@,
        response@.platform == response.platform@,
        response@.versions.len() == response.versions@.len(),
        forall|i: int|
            0 <= i < response.versions@.len() ==> #[trigger] response@.versions[i]
                == response.versions@[i]@,
        response@.inputs.len() == response.inputs@.len(),
        forall|i: int|
            0 <= i < response.inputs@.len() ==> #[trigger] response@.inputs[i]
                == response.inputs@[i]@,
        response@.outputs.len() == response.outputs@.len(),
        forall|i: int|
            0 <= i < response.outputs@.len() ==> #[trigger] response@.outputs[i]
                == response.outputs@[i]@,
        tensor@.name == tensor.name@,
        tensor@.datatype == tensor.datatype@,
        tensor@.shape == tensor.shape@,
{
}

/// No parts have no bytes, and each further part adds its own.
pub proof fn lemma_total_bytes_of_parts(parts: Seq<Seq<u8>>, part: Seq<u8>)
    ensures
        total_bytes(Seq::<Seq<u8>>::empty()) == 0,
        total_bytes(seq![part]) == part.len(),
        total_bytes(parts.push(part)) == total_bytes(parts) + part.len(),
{
    assert(parts.push(part).drop_last() == parts);
    assert(seq![part].drop_last() == Seq::<Seq<u8>>::empty());
    assert(total_bytes(Seq::<Seq<u8>>::empty()) == 0);
}

/// A request whose payload exceeds the limit is refused before anything else is looked at, with
/// both figures; one whose payload does not is not refused for it.
pub proof fn lemma_payload_limit<H>(
    max_request_bytes: nat,
    admission: AdmissionView,
    map: Map<(Seq<char>, Seq<char>), Arc<ModelEntry<H>>>,
    request: InferRequestView,
    part: Seq<u8>,
)
    ensures
        total_bytes(request.raw_input_contents) > max_request_bytes ==> first_answer(
            max_request_bytes,
            admission,
            map,
            request,
        ) == Err::<Arc<ModelEntry<H>>, StatusView>(
            (StatusView {
                code: Code::ResourceExhausted,
                message: "request exceeds max_request_bytes ("@ + text::decimal(
                    total_bytes(request.raw_input_contents),
                ) + " > "@ + text::decimal(max_request_bytes) + ")"@,
            }),
        ),
        request.raw_input_contents == seq![part] && part.len() > max_request_bytes ==> first_answer(
            max_request_bytes,
            admission,
            map,
            request,
        ) == Err::<Arc<ModelEntry<H>>, StatusView>(
            (StatusView {
                code: Code::ResourceExhausted,
                message: "request exceeds max_request_bytes ("@ + text::decimal(part.len())
                    + " > "@ + text::decimal(max_request_bytes) + ")"@,
            }),
        ),
        request.raw_input_contents == seq![part] && part.len() <= max_request_bytes
            && admission.rss <= admission.max_rss_bytes && admission.queue_depth
            <= admission.max_queue_depth ==> first_answer(
            max_request_bytes,
            admission,
            map,
            request,
        ) == routed(map, request),
{
    lemma_total_bytes_of_parts(Seq::<Seq<u8>>::empty(), part);
}

/// What an admitted request that cannot be routed is told: of the number of its tensors, then of
/// its bytes not being in one piece, then of a model that is not there.
pub proof fn lemma_requests_that_are_not_routed<H>(
    map: Map<(Seq<char>, Seq<char>), Arc<ModelEntry<H>>>,
    request: InferRequestView,
)
    ensures
        request.inputs.len() != 1 ==> routed(map, request) == Err::<
            Arc<ModelEntry<H>>,
            StatusView,
        >(
            (StatusView {
                code: Code::InvalidArgument,
                message: "expected exactly one input tensor, got "@ + text::decimal(
                    request.inputs.len(),
                ),
            }),
        ),
        request.inputs.len() == 1 && request.raw_input_contents.len() != 1 ==> routed(map, request)
            == Err::<Arc<ModelEntry<H>>, StatusView>(
            (StatusView {
                code: Code::InvalidArgument,
                message: "use raw_input_contents (one entry per input)"@,
            }),
        ),
        request.inputs.len() == 1 && request.raw_input_contents.len() == 1 ==> {
            let found = registry::resolve(
                map,
                request.model_name,
                if request.model_version.len() == 0 {
                    None
                } else {
                    Some(request.model_version)
                },
            );
            &&& found is None ==> routed(map, request) == Err::<Arc<ModelEntry<H>>, StatusView>(
                (StatusView {
                    code: Code::NotFound,
                    message: "model not found: "@ + request.model_name,
                }),
            )
            &&& found matches Some(entry) ==> routed(map, request) == Ok::<
                Arc<ModelEntry<H>>,
                StatusView,
            >(entry)
        },
{
}

/// A model takes a tensor exactly when it is loaded and the tensor has the name and the element
/// type that it declares, a leading dim of 1, and the bytes of one request.
pub proof fn lemma_tensor_is_taken(
    model: Seq<char>,
    meta: TensorMetaView,
    state: EntryState,
    input: TensorView,
    input_bytes: nat,
)
    ensures
        tensor_problem(model, meta, state, input, input_bytes) is None <==> {
            &&& state == EntryState::Loaded
            &&& input.name == meta.name
            &&& input.datatype == kserve_name(meta.dtype)
            &&& input.shape.len() > 0
            &&& input.shape[0] == 1
            &&& input_bytes == meta.bytes_per_request
        },
{
}

/// What a tensor that a loaded model does not take is told: the first mismatch, of its name, its
/// element type, its leading dim and its size, in this order.
pub proof fn lemma_tensor_is_refused(
    model: Seq<char>,
    meta: TensorMetaView,
    input: TensorView,
    input_bytes: nat,
)
    ensures
        ({
            let told = tensor_problem(model, meta, EntryState::Loaded, input, input_bytes);
            let named = input.name == meta.name;
            let typed = input.datatype == kserve_name(meta.dtype);
            let single = input.shape.len() > 0 && input.shape[0] == 1;
            &&& !named ==> told == Some(
                (StatusView {
                    code: Code::InvalidArgument,
                    message: "input name mismatch: expected '"@ + meta.name + "', got '"@
                        + input.name + "'"@,
                }),
            )
            &&& named && !typed ==> told == Some(
                (StatusView {
                    code: Code::InvalidArgument,
                    message: "datatype mismatch: expected "@ + kserve_name(meta.dtype)
                        + ", got "@ + input.datatype,
                }),
            )
            &&& named && typed && !single ==> told == Some(
                (StatusView {
                    code: Code::InvalidArgument,
                    message: "leading dim must be 1 (engine owns batching)"@,
                }),
            )
            &&& named && typed && single && input_bytes != meta.bytes_per_request ==> told == Some(
                (StatusView {
                    code: Code::InvalidArgument,
                    message: "input bytes mismatch: expected "@ + text::decimal(
                        meta.bytes_per_request,
                    ) + ", got "@ + text::decimal(input_bytes),
                }),
            )
        }),
{
}

/// What a request that could not be queued is told, and that one that was is not told anything
/// yet.
pub proof fn lemma_queueing_is_answered(model: Seq<char>)
    ensures
        send_answer(model, SendOutcome::Sent) is Ok,
        send_answer(model, SendOutcome::Full) == Err::<(), StatusView>(
            (StatusView { code: Code::ResourceExhausted, message: "queue full for "@ + model }),
        ),
        send_answer(model, SendOutcome::Closed) == Err::<(), StatusView>(
            (StatusView {
                code: Code::NotFound,
                message: "model "@ + model + " no longer accepting requests"@,
            }),
        ),
{
}

/// A tensor is described by its name, the protocol's name for its element type, and its dims; as
/// the output of one request its leading dim is 1, and the others are as declared.
pub proof fn lemma_descriptions_of_a_tensor(meta: TensorMetaView)
    ensures
        described(meta).name == meta.name,
        described(meta).datatype == kserve_name(meta.dtype),
        described(meta).shape == meta.shape,
        single_output(meta).name == meta.name,
        single_output(meta).datatype == kserve_name(meta.dtype),
        single_output(meta).shape.len() == (if meta.shape.len() == 0 {
            1
        } else {
            meta.shape.len()
        }),
        single_output(meta).shape[0] == 1,
        forall|i: int|
            1 <= i < meta.shape.len() ==> #[trigger] single_output(meta).shape[i] == meta.shape[i],
{
}

/// What a request that was queued is answered: the outputs of its model and the bytes that came
/// back for it, in order; or the fault that kept them from it.
pub proof fn lemma_answers_to_a_queued_request<H>(
    entry: ModelEntry<H>,
    id: Seq<char>,
    part: PerRequestOutput,
    error: Arc<BridgeError>,
)
    ensures
        answered(entry, id, Reply::Output(part)) matches Ok(response) && {
            &&& response.model_name == entry.name@
            &&& response.model_version == entry.version@
            &&& response.id == id
            &&& response.outputs.len() == entry.output_meta@.len()
            &&& forall|i: int|
                0 <= i < entry.output_meta@.len() ==> #[trigger] response.outputs[i]
                    == single_output(entry.output_meta@[i]@)
            &&& response.raw_output_contents.len() == part.outputs@.len()
            &&& forall|i: int|
                0 <= i < part.outputs@.len() ==> #[trigger] response.raw_output_contents[i]
                    == part.outputs@[i]@
        },
        answered(entry, id, Reply::Failed(error)) == Err::<InferResponseView, StatusView>(
            (StatusView { code: Code::Internal, message: error@.message() }),
        ),
        answered(entry, id, Reply::Dropped) == Err::<InferResponseView, StatusView>(
            (StatusView { code: Code::Internal, message: "dispatcher dropped responder"@ }),
        ),
{
}

} // verus!
