//! The boundary to the model runtime.

pub mod invoke;
pub mod runtime;
pub mod session;

use vstd::prelude::*;
use vstd::string::*;

use crate::config::{BridgeRuntimeKind, ModelConfig};
use crate::error::{BridgeError, BridgeErrorView};
use crate::text;
use crate::views;

pub use runtime::BridgeRuntime;
pub use session::{DType, TensorMeta};

use invoke::{RunPlan, RunPlanView};
use session::{Outlet, OutletView, TensorMetaView};

verus! {

/// A loaded model: the tensors that it declares, and how its session runs.
#[derive(Debug)]
pub struct ModelBridge {
    input_meta: TensorMeta,
    output_meta: Vec<TensorMeta>,
    runtime: BridgeRuntime,
}

/// The inputs and outputs that a loaded session declares.
#[derive(Debug)]
pub struct SessionInfo {
    pub inputs: Vec<Outlet>,
    pub outputs: Vec<Outlet>,
}

/// A batch of `batch_n` items in one buffer.
#[derive(Debug)]
pub struct BatchRequest {
    pub input_bytes: Vec<u8>,
    pub batch_n: usize,
    pub seq_lens: Option<Vec<u32>>,
}

/// What a run gave back: the bytes and the shape of each output tensor.
#[derive(Debug)]
pub struct BatchOutput {
    pub outputs: Vec<Vec<u8>>,
    pub output_shapes: Vec<Vec<i64>>,
}

/// The mathematical value of a [`ModelBridge`].
pub ghost struct ModelBridgeView {
    pub input_meta: TensorMetaView,
    pub output_meta: Seq<TensorMetaView>,
    pub runtime: BridgeRuntime,
}

pub ghost struct SessionInfoView {
    pub inputs: Seq<OutletView>,
    pub outputs: Seq<OutletView>,
}

impl View for ModelBridge {
    type V = ModelBridgeView;

    closed spec fn view(&self) -> ModelBridgeView {
        ModelBridgeView {
            input_meta: self.input_meta@,
            output_meta: views::view_all(self.output_meta@),
            runtime: self.runtime,
        }
    }
}

impl View for SessionInfo {
    type V = SessionInfoView;

    open spec fn view(&self) -> SessionInfoView {
        SessionInfoView {
            inputs: views::view_all(self.inputs@),
            outputs: views::view_all(self.outputs@),
        }
    }
}

/// The records of the outputs from `i` on, or the error of the first that has none.
pub open spec fn output_metas(outputs: Seq<OutletView>, i: int) -> Result<
    Seq<TensorMetaView>,
    BridgeErrorView,
>
    decreases outputs.len() - i,
{
    if i >= outputs.len() {
        Ok(Seq::empty())
    } else {
        match outputs[i].meta(false) {
            Err(error) => Err(error),
            Ok(meta) => match output_metas(outputs, i + 1) {
                Err(error) => Err(error),
                Ok(rest) => Ok(seq![meta] + rest),
            },
        }
    }
}

/// The item sizes of the outputs from `i` on can be computed, up to the first without a record.
pub open spec fn outputs_in_range(outputs: Seq<OutletView>, i: int) -> bool
    decreases outputs.len() - i,
{
    i < outputs.len() ==> {
        &&& outputs[i].in_range(false)
        &&& outputs[i].meta(false) is Ok ==> outputs_in_range(outputs, i + 1)
    }
}

/// The runtime that a configuration asks for.
pub open spec fn runtime_of(kind: BridgeRuntimeKind) -> BridgeRuntime {
    match kind {
        BridgeRuntimeKind::Blocking => BridgeRuntime::Blocking,
        BridgeRuntimeKind::DedicatedThread => BridgeRuntime::DedicatedThread,
    }
}

impl SessionInfoView {
    /// Every item size that loading has to compute can be held.
    pub open spec fn in_range(self) -> bool {
        self.inputs.len() == 1 ==> {
            &&& self.inputs[0].in_range(true)
            &&& self.inputs[0].meta(true) is Ok ==> outputs_in_range(self.outputs, 0)
        }
    }

    /// What loading a session with these tensors gives: a model has exactly one input, which has
    /// to be batchable, and all its tensors have to be of a known type.
    pub open spec fn loaded(self, kind: BridgeRuntimeKind) -> Result<
        ModelBridgeView,
        BridgeErrorView,
    > {
        if self.inputs.len() != 1 {
            Err(
                BridgeErrorView::ModelLoadFailed(
                    "expected exactly one input tensor, found "@ + text::decimal(
                        self.inputs.len(),
                    ),
                ),
            )
        } else {
            match self.inputs[0].meta(true) {
                Err(error) => Err(error),
                Ok(input_meta) => match output_metas(self.outputs, 0) {
                    Err(error) => Err(error),
                    Ok(output_meta) => Ok(
                        ModelBridgeView { input_meta, output_meta, runtime: runtime_of(kind) },
                    ),
                },
            }
        }
    }
}

impl SessionInfo {
    /// Whether every item size that loading has to compute can be held.
    pub fn in_range(&self) -> (in_range: bool)
        ensures
            in_range == self@.in_range(),
    {
        if self.inputs.len() != 1 {
            return true;
        }
        assert(self@.inputs[0] == self.inputs@[0]@);
        if !session::outlet_in_range(&self.inputs[0], true) {
            return false;
        }
        if session::input_to_meta(&self.inputs[0]).is_err() {
            return true;
        }
        let mut i: usize = 0;
        while i < self.outputs.len()
            invariant
                i <= self.outputs.len(),
                self@.inputs.len() == 1,
                self@.inputs[0].in_range(true),
                self@.inputs[0].meta(true) is Ok,
                outputs_in_range(self@.outputs, 0) == outputs_in_range(self@.outputs, i as int),
            decreases self.outputs.len() - i,
        {
            assert(self@.outputs[i as int] == self.outputs@[i as int]@);
            if !session::outlet_in_range(&self.outputs[i], false) {
                return false;
            }
            if session::output_to_meta(&self.outputs[i]).is_err() {
                return true;
            }
            i = i + 1;
        }
        true
    }
}

/// What a bridge answers when it is asked to run a batch.
pub open spec fn run_plan(bridge: ModelBridgeView, input_bytes: Seq<u8>, batch_n: usize) -> Result<
    RunPlanView,
    BridgeErrorView,
> {
    match bridge.runtime {
        BridgeRuntime::DedicatedThread => Err(
            BridgeErrorView::RunFailed(
                "DedicatedThread runtime not implemented in v1; see ort-bridge LLD"@,
            ),
        ),
        BridgeRuntime::Blocking => invoke::blocking_plan(input_bytes, batch_n, bridge.input_meta),
    }
}

impl ModelBridge {
    /// Takes a session into use. `session` is what building it gave: the tensors that it
    /// declares, or the text of the failure.
    pub fn load(config: &ModelConfig, session: Result<SessionInfo, String>) -> (result: Result<
        ModelBridge,
        BridgeError,
    >)
        requires
            session matches Ok(info) ==> info@.in_range(),
        ensures
            views::view_result(result) == (match session {
                Ok(info) => info@.loaded(config.runtime),
                Err(text) => Err(BridgeErrorView::ModelLoadFailed(text@)),
            }),
    {
        let info = match session {
            Ok(info) => info,
            Err(text) => {
                return Err(BridgeError::ModelLoadFailed(text));
            },
        };
        if info.inputs.len() != 1 {
            let mut text = "expected exactly one input tensor, found ".to_string();
            text::append_decimal(&mut text, info.inputs.len() as u64);
            return Err(BridgeError::ModelLoadFailed(text));
        }
        assert(info@.inputs[0] == info.inputs@[0]@);
        let input_meta = match session::input_to_meta(&info.inputs[0]) {
            Ok(meta) => meta,
            Err(error) => {
                return Err(error);
            },
        };
        let ghost outputs = info@.outputs;
        let mut output_meta: Vec<TensorMeta> = Vec::new();
        let mut i: usize = 0;
        assert(views::view_all(output_meta@) == Seq::<TensorMetaView>::empty());
        assert(output_metas(outputs, 0) matches Ok(rest) ==> Seq::<TensorMetaView>::empty() + rest
            == rest);
        while i < info.outputs.len()
            invariant
                i <= info.outputs.len(),
                outputs == info@.outputs,
                outputs_in_range(outputs, i as int),
                info@.inputs.len() == 1,
                info@.inputs[0].meta(true) == Ok::<TensorMetaView, BridgeErrorView>(input_meta@),
                session == Ok::<SessionInfo, String>(info),
                output_metas(outputs, 0) == (match output_metas(outputs, i as int) {
                    Err(error) => Err(error),
                    Ok(rest) => Ok(views::view_all(output_meta@) + rest),
                }),
            decreases info.outputs.len() - i,
        {
            assert(outputs[i as int] == info.outputs@[i as int]@);
            match session::output_to_meta(&info.outputs[i]) {
                Ok(meta) => {
                    let ghost before = views::view_all(output_meta@);
                    output_meta.push(meta);
                    proof {
                        assert(views::view_all(output_meta@) == before.push(meta@));
                        match output_metas(outputs, i + 1) {
                            Ok(rest) => {
                                assert(before + (seq![meta@] + rest) == before.push(meta@) + rest);
                            },
                            Err(_) => {},
                        }
                    }
                },
                Err(error) => {
                    return Err(error);
                },
            }
            i = i + 1;
        }
        assert(views::view_all(output_meta@) + Seq::<TensorMetaView>::empty() == views::view_all(
            output_meta@,
        ));
        let runtime = match config.runtime {
            BridgeRuntimeKind::Blocking => BridgeRuntime::Blocking,
            BridgeRuntimeKind::DedicatedThread => BridgeRuntime::DedicatedThread,
        };
        Ok(ModelBridge { input_meta, output_meta, runtime })
    }

    /// Checks a batch, and prepares its run.
    pub fn plan_run(&self, batch: BatchRequest) -> (result: Result<RunPlan, BridgeError>)
        ensures
            views::view_result(result) == run_plan(self@, batch.input_bytes@, batch.batch_n),
            result matches Ok(plan) ==> plan.input_bytes@ == batch.input_bytes@ && plan.shape@.len()
                > 0 && plan.shape@[0] == batch.batch_n,
    {
        match self.runtime {
            BridgeRuntime::Blocking => invoke::plan_blocking(batch, &self.input_meta),
            BridgeRuntime::DedicatedThread => Err(
                BridgeError::RunFailed(
                    "DedicatedThread runtime not implemented in v1; see ort-bridge LLD".to_string(),
                ),
            ),
        }
    }

    /// The record of the input tensor.
    pub fn input_meta(&self) -> (meta: &TensorMeta)
        ensures
            meta@ == self@.input_meta,
    {
        &self.input_meta
    }

    /// The records of the output tensors.
    pub fn output_meta(&self) -> (metas: &Vec<TensorMeta>)
        ensures
            views::view_all(metas@) == self@.output_meta,
    {
        &self.output_meta
    }
}

proof fn lemma_output_metas(outputs: Seq<OutletView>, i: int)
    requires
        0 <= i <= outputs.len(),
        output_metas(outputs, i) is Ok,
    ensures
        output_metas(outputs, i)->Ok_0.len() == outputs.len() - i,
        forall|k: int|
            #![trigger output_metas(outputs, i)->Ok_0[k]]
            0 <= k < outputs.len() - i ==> outputs[i + k].meta(false) == Ok::<
                TensorMetaView,
                BridgeErrorView,
            >(output_metas(outputs, i)->Ok_0[k]),
    decreases outputs.len() - i,
{
    if i < outputs.len() {
        lemma_output_metas(outputs, i + 1);
        let all = output_metas(outputs, i)->Ok_0;
        let rest = output_metas(outputs, i + 1)->Ok_0;
        assert forall|k: int| #![trigger all[k]] 0 <= k < outputs.len() - i implies outputs[i
            + k].meta(false) == Ok::<TensorMetaView, BridgeErrorView>(all[k]) by {
            if k > 0 {
                assert(all[k] == rest[k - 1]);
                assert(outputs[i + 1 + (k - 1)] == outputs[i + k]);
            }
        }
    }
}

/// A loaded model has a batchable input, whose leading dim is dynamic, and one record for each
/// declared output, in order; the recorded size of every item is the one its dims give.
pub proof fn lemma_loaded_model_is_batchable(session: SessionInfoView, kind: BridgeRuntimeKind)
    requires
        session.loaded(kind) is Ok,
    ensures
        session.loaded(kind)->Ok_0.input_meta.shape.len() > 0,
        session.loaded(kind)->Ok_0.input_meta.shape[0] < 0,
        session.loaded(kind)->Ok_0.input_meta.wf(),
        session.loaded(kind)->Ok_0.output_meta.len() == session.outputs.len(),
        forall|k: int|
            0 <= k < session.outputs.len() ==> {
                &&& (#[trigger] session.loaded(kind)->Ok_0.output_meta[k]).wf()
                &&& session.loaded(kind)->Ok_0.output_meta[k].name == session.outputs[k].name
            },
{
    let bridge = session.loaded(kind)->Ok_0;
    session::lemma_item_bytes_nonnegative(bridge.input_meta.shape, bridge.input_meta.dtype);
    lemma_output_metas(session.outputs, 0);
    assert forall|k: int| 0 <= k < session.outputs.len() implies {
        &&& (#[trigger] bridge.output_meta[k]).wf()
        &&& bridge.output_meta[k].name == session.outputs[k].name
    } by {
        let meta = bridge.output_meta[k];
        assert(session.outputs[0 + k].meta(false) == Ok::<TensorMetaView, BridgeErrorView>(meta));
        session::lemma_item_bytes_nonnegative(meta.shape, meta.dtype);
    }
}

/// A run takes place on the blocking pool, on the very bytes of the batch: the dims of its shape
/// are the batch size and the declared dims of an item. A model configured for a thread of its
/// own is refused.
pub proof fn lemma_run_uses_the_bytes_of_the_batch(
    bridge: ModelBridgeView,
    input_bytes: Seq<u8>,
    batch_n: usize,
)
    ensures
        run_plan(bridge, input_bytes, batch_n) is Ok <==> {
            &&& bridge.runtime == BridgeRuntime::Blocking
            &&& input_bytes.len() == batch_n * bridge.input_meta.bytes_per_request
            &&& input_bytes.len() <= usize::MAX
            &&& bridge.input_meta.dtype == DType::F32
            &&& forall|i: int|
                1 <= i < bridge.input_meta.shape.len() ==> bridge.input_meta.shape[i] >= 0
        },
        run_plan(bridge, input_bytes, batch_n) matches Ok(plan) ==> {
            &&& plan.input_bytes == input_bytes
            &&& plan.shape.len() == (if bridge.input_meta.shape.len() == 0 {
                1
            } else {
                bridge.input_meta.shape.len()
            })
            &&& plan.shape[0] == batch_n
            &&& forall|i: int|
                1 <= i < bridge.input_meta.shape.len() && bridge.input_meta.shape[i] <= usize::MAX
                    ==> #[trigger] plan.shape[i] == bridge.input_meta.shape[i]
        },
        bridge.runtime == BridgeRuntime::DedicatedThread ==> run_plan(bridge, input_bytes, batch_n)
            == Err::<RunPlanView, BridgeErrorView>(
            BridgeErrorView::RunFailed(
                "DedicatedThread runtime not implemented in v1; see ort-bridge LLD"@,
            ),
        ),
        bridge.runtime == BridgeRuntime::Blocking ==> run_plan(bridge, input_bytes, batch_n)
            == invoke::blocking_plan(input_bytes, batch_n, bridge.input_meta),
{
    invoke::lemma_batch_is_run_on_its_bytes(input_bytes, batch_n, bridge.input_meta);
}

proof fn lemma_first_output_without_record(outputs: Seq<OutletView>, i: int, bad: int)
    requires
        0 <= i <= bad < outputs.len(),
        forall|k: int| i <= k < bad ==> (#[trigger] outputs[k]).meta(false) is Ok,
        outputs[bad].meta(false) is Err,
    ensures
        output_metas(outputs, i) == Err::<Seq<TensorMetaView>, BridgeErrorView>(
            outputs[bad].meta(false)->Err_0,
        ),
    decreases bad - i,
{
    if i < bad {
        assert(outputs[i].meta(false) is Ok);
        lemma_first_output_without_record(outputs, i + 1, bad);
    }
}

proof fn lemma_all_outputs_have_records(outputs: Seq<OutletView>, i: int)
    requires
        0 <= i <= outputs.len(),
        forall|k: int| i <= k < outputs.len() ==> (#[trigger] outputs[k]).meta(false) is Ok,
    ensures
        output_metas(outputs, i) is Ok,
    decreases outputs.len() - i,
{
    if i < outputs.len() {
        assert(outputs[i].meta(false) is Ok);
        lemma_all_outputs_have_records(outputs, i + 1);
    }
}

/// A model is loaded exactly when it has one input with a record, and a record for each output.
/// It then holds those records, and runs as it is configured to.
pub proof fn lemma_loaded_model_holds_its_records(session: SessionInfoView, kind: BridgeRuntimeKind)
    ensures
        session.loaded(kind) is Ok <==> {
            &&& session.inputs.len() == 1
            &&& session.inputs[0].meta(true) is Ok
            &&& forall|k: int|
                0 <= k < session.outputs.len() ==> (#[trigger] session.outputs[k]).meta(false) is Ok
        },
        session.loaded(kind) matches Ok(bridge) ==> {
            &&& bridge.input_meta == session.inputs[0].meta(true)->Ok_0
            &&& bridge.output_meta.len() == session.outputs.len()
            &&& forall|k: int|
                0 <= k < session.outputs.len() ==> #[trigger] bridge.output_meta[k]
                    == session.outputs[k].meta(false)->Ok_0
            &&& kind == BridgeRuntimeKind::Blocking ==> bridge.runtime == BridgeRuntime::Blocking
            &&& kind == BridgeRuntimeKind::DedicatedThread ==> bridge.runtime
                == BridgeRuntime::DedicatedThread
        },
{
    if session.inputs.len() == 1 && session.inputs[0].meta(true) is Ok {
        if forall|k: int|
            0 <= k < session.outputs.len() ==> (#[trigger] session.outputs[k]).meta(false) is Ok {
            lemma_all_outputs_have_records(session.outputs, 0);
        }
        if output_metas(session.outputs, 0) is Ok {
            lemma_output_metas(session.outputs, 0);
            let metas = output_metas(session.outputs, 0)->Ok_0;
            assert forall|k: int| 0 <= k < session.outputs.len() implies (
            #[trigger] session.outputs[k]).meta(false) == Ok::<TensorMetaView, BridgeErrorView>(
                metas[k],
            ) by {
                assert(session.outputs[0 + k].meta(false) == Ok::<TensorMetaView, BridgeErrorView>(
                    metas[k],
                ));
            }
        }
    }
}

/// A model that is not loaded is refused for the number of its inputs first, then for its input,
/// then for the first output without a record.
pub proof fn lemma_model_is_refused(session: SessionInfoView, kind: BridgeRuntimeKind, bad: int)
    ensures
        session.inputs.len() != 1 ==> session.loaded(kind) == Err::<
            ModelBridgeView,
            BridgeErrorView,
        >(
            BridgeErrorView::ModelLoadFailed(
                "expected exactly one input tensor, found "@ + text::decimal(session.inputs.len()),
            ),
        ),
        session.inputs.len() == 1 ==> (session.inputs[0].meta(true) matches Err(error)
            ==> session.loaded(kind) == Err::<ModelBridgeView, BridgeErrorView>(error)),
        session.inputs.len() == 1 && session.inputs[0].meta(true) is Ok && 0 <= bad
            < session.outputs.len() && (forall|k: int|
            0 <= k < bad ==> (#[trigger] session.outputs[k]).meta(false) is Ok)
            && session.outputs[bad].meta(false) is Err ==> session.loaded(kind) == Err::<
            ModelBridgeView,
            BridgeErrorView,
        >(session.outputs[bad].meta(false)->Err_0),
{
    if session.inputs.len() == 1 && session.inputs[0].meta(true) is Ok && 0 <= bad
        < session.outputs.len() && (forall|k: int|
        0 <= k < bad ==> (#[trigger] session.outputs[k]).meta(false) is Ok)
        && session.outputs[bad].meta(false) is Err {
        lemma_first_output_without_record(session.outputs, 0, bad);
    }
}

proof fn lemma_outputs_in_range(outputs: Seq<OutletView>, i: int)
    requires
        0 <= i <= outputs.len(),
        forall|k: int| i <= k < outputs.len() ==> (#[trigger] outputs[k]).in_range(false),
    ensures
        outputs_in_range(outputs, i),
    decreases outputs.len() - i,
{
    if i < outputs.len() {
        assert(outputs[i].in_range(false));
        lemma_outputs_in_range(outputs, i + 1);
    }
}

/// A session whose tensors all have a size that can be held can be loaded, and so can one that is
/// refused before a size has to be known.
pub proof fn lemma_sizes_can_be_held(session: SessionInfoView)
    ensures
        session.inputs.len() != 1 ==> session.in_range(),
        session.inputs.len() == 1 && session.inputs[0].meta(true) is Err ==> session.in_range(),
        session.inputs.len() == 1 && session.inputs[0].in_range(true) && (forall|k: int|
            0 <= k < session.outputs.len() ==> (#[trigger] session.outputs[k]).in_range(false))
            ==> session.in_range(),
{
    if forall|k: int|
        0 <= k < session.outputs.len() ==> (#[trigger] session.outputs[k]).in_range(false) {
        lemma_outputs_in_range(session.outputs, 0);
    }
}

/// The value of a session, and of a plan, is the value of each of its parts.
pub proof fn lemma_value_of_sessions_and_plans(session: SessionInfo, plan: RunPlan)
    ensures
        session@.inputs.len() == session.inputs@.len(),
        forall|i: int|
            0 <= i < session.inputs@.len() ==> #[trigger] session@.inputs[i]
                == session.inputs@[i]@,
        session@.outputs.len() == session.outputs@.len(),
        forall|i: int|
            0 <= i < session.outputs@.len() ==> #[trigger] session@.outputs[i]
                == session.outputs@[i]@,
        plan@.shape == plan.shape@,
        plan@.input_bytes == plan.input_bytes@,
{
}

} // verus!
