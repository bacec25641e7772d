//! What a batch has to satisfy before it is run, and what each failure of a run is reported as.

use vstd::prelude::*;
use vstd::string::*;

use super::session;
use super::session::{validate_input_size, DType, TensorMeta, TensorMetaView};
use super::BatchRequest;
use crate::error::{BridgeError, BridgeErrorView};
use crate::text;
use crate::views;

verus! {

/// A batch that may be run: the input bytes, read as 32-bit floats, in this shape.
#[derive(Debug)]
pub struct RunPlan {
    pub shape: Vec<usize>,
    pub input_bytes: Vec<u8>,
}

/// The mathematical value of a [`RunPlan`].
pub ghost struct RunPlanView {
    pub shape: Seq<usize>,
    pub input_bytes: Seq<u8>,
}

impl View for RunPlan {
    type V = RunPlanView;

    open spec fn view(&self) -> RunPlanView {
        RunPlanView { shape: self.shape@, input_bytes: self.input_bytes@ }
    }
}

/// A step of a run that failed, with the text that came with it.
#[derive(Debug)]
pub enum InvokeFailure {
    Shape(String),
    Tensor(String),
    SessionPoisoned,
    Session(String),
    OutputCopy(String),
}

/// The shape of a batch: its size, then the dims of an item.
pub open spec fn batch_shape(dims: Seq<i64>, batch_n: usize) -> Seq<usize> {
    if dims.len() == 0 {
        seq![batch_n]
    } else {
        seq![batch_n] + dims.skip(1).map_values(|d: i64| d as usize)
    }
}

/// One of the dims after the leading one is dynamic.
pub open spec fn item_is_dynamic(dims: Seq<i64>) -> bool {
    exists|i: int| 1 <= i < dims.len() && dims[i] < 0
}

/// What is answered for a batch that is to be run on the blocking pool: it has the right size,
/// its elements are 32-bit floats, and its item dims are static, checked in this order.
pub open spec fn blocking_plan(
    input_bytes: Seq<u8>,
    batch_n: usize,
    meta: TensorMetaView,
) -> Result<RunPlanView, BridgeErrorView> {
    match session::size_check(input_bytes.len(), batch_n as nat, meta.bytes_per_request) {
        Err(error) => Err(error),
        Ok(()) => if meta.dtype != DType::F32 {
            Err(BridgeErrorView::UnsupportedDtype { dtype: meta.dtype.label() })
        } else if item_is_dynamic(meta.shape) {
            Err(
                BridgeErrorView::RunFailed(
                    "non-leading dimension is dynamic; not supported in v1"@,
                ),
            )
        } else {
            Ok(RunPlanView { shape: batch_shape(meta.shape, batch_n), input_bytes })
        },
    }
}

/// The shape in which a batch of 32-bit floats is run.
fn f32_shape(meta: &TensorMeta, batch_n: usize) -> (result: Result<Vec<usize>, BridgeError>)
    ensures
        match result {
            Ok(shape) => !item_is_dynamic(meta.shape@) && shape@ == batch_shape(
                meta.shape@,
                batch_n,
            ),
            Err(error) => item_is_dynamic(meta.shape@) && error@ == BridgeErrorView::RunFailed(
                "non-leading dimension is dynamic; not supported in v1"@,
            ),
        },
{
    let mut shape: Vec<usize> = Vec::new();
    shape.push(batch_n);
    if meta.shape.len() == 0 {
        assert(shape@ == batch_shape(meta.shape@, batch_n));
        return Ok(shape);
    }
    let ghost rest = meta.shape@.skip(1).map_values(|d: i64| d as usize);
    let mut i: usize = 1;
    while i < meta.shape.len()
        invariant
            1 <= i <= meta.shape.len(),
            rest == meta.shape@.skip(1).map_values(|d: i64| d as usize),
            shape@ == seq![batch_n] + rest.take(i - 1),
            forall|j: int| 1 <= j < i ==> meta.shape@[j] >= 0,
        decreases meta.shape.len() - i,
    {
        let d: i64 = meta.shape[i];
        if d < 0 {
            return Err(
                BridgeError::RunFailed(
                    "non-leading dimension is dynamic; not supported in v1".to_string(),
                ),
            );
        }
        assert(rest[i - 1] == d as usize);
        shape.push(
            #[verifier::truncate]
            (d as usize),
        );
        assert(rest.take(i as int) == rest.take(i - 1).push(rest[i - 1]));
        i = i + 1;
    }
    assert(rest.take(i - 1) == rest);
    Ok(shape)
}

/// Checks a batch against the input tensor of the model, and prepares its run.
pub fn plan_blocking(batch: BatchRequest, meta: &TensorMeta) -> (result: Result<
    RunPlan,
    BridgeError,
>)
    ensures
        views::view_result(result) == blocking_plan(batch.input_bytes@, batch.batch_n, meta@),
        result matches Ok(plan) ==> plan.input_bytes@ == batch.input_bytes@,
{
    match validate_input_size(batch.input_bytes.len(), batch.batch_n, meta.bytes_per_request) {
        Ok(()) => {},
        Err(error) => {
            return Err(error);
        },
    }
    match meta.dtype {
        DType::F32 => match f32_shape(meta, batch.batch_n) {
            Ok(shape) => Ok(RunPlan { shape, input_bytes: batch.input_bytes }),
            Err(error) => Err(error),
        },
        other => Err(BridgeError::UnsupportedDtype { dtype: other.name().to_string() }),
    }
}

/// How a failed step of a run is reported.
pub fn invoke_error(failure: InvokeFailure) -> (error: BridgeError)
    ensures
        error@ == (match failure {
            InvokeFailure::Shape(text) => BridgeErrorView::RunFailed("shape error: "@ + text@),
            InvokeFailure::Tensor(text) => BridgeErrorView::RunFailed(
                "tensor construction: "@ + text@,
            ),
            InvokeFailure::SessionPoisoned => BridgeErrorView::RunFailed(
                "session mutex poisoned"@,
            ),
            InvokeFailure::Session(text) => BridgeErrorView::RunFailed(text@),
            InvokeFailure::OutputCopy(text) => BridgeErrorView::OutputCopyFailed(text@),
        }),
{
    match failure {
        InvokeFailure::Shape(text) => BridgeError::RunFailed(
            text::joined("shape error: ", &text),
        ),
        InvokeFailure::Tensor(text) => BridgeError::RunFailed(
            text::joined("tensor construction: ", &text),
        ),
        InvokeFailure::SessionPoisoned => BridgeError::RunFailed(
            "session mutex poisoned".to_string(),
        ),
        InvokeFailure::Session(text) => BridgeError::RunFailed(text),
        InvokeFailure::OutputCopy(text) => BridgeError::OutputCopyFailed(text),
    }
}

/// How a run whose task did not finish is reported.
pub fn task_error(panicked: bool, text: String) -> (error: BridgeError)
    ensures
        error@ == (if panicked {
            BridgeErrorView::DispatchPanic(text@)
        } else {
            BridgeErrorView::RunFailed("spawn_blocking failed: "@ + text@)
        }),
{
    if panicked {
        BridgeError::DispatchPanic(text)
    } else {
        BridgeError::RunFailed(text::joined("spawn_blocking failed: ", &text))
    }
}

/// The number of elements in a tensor of this shape.
pub open spec fn element_count(shape: Seq<usize>) -> nat
    decreases shape.len(),
{
    if shape.len() == 0 {
        1
    } else {
        element_count(shape.drop_last()) * shape.last() as nat
    }
}

proof fn lemma_batch_element_count(dims: Seq<i64>, batch_n: usize, n: int)
    requires
        session::item_is_static(dims),
        session::product(dims.skip(1)) <= usize::MAX,
        0 <= n < dims.len(),
    ensures
        element_count(batch_shape(dims, batch_n).take(n + 1)) == batch_n * session::product(
            dims.skip(1).take(n),
        ),
    decreases n,
{
    let shape = batch_shape(dims, batch_n);
    let tail = dims.skip(1);
    let upto = shape.take(n + 1);
    assert forall|j: int| 0 <= j < tail.len() implies tail[j] > 0 by {
        assert(tail[j] == dims[j + 1]);
    }
    if n == 0 {
        assert(upto == seq![batch_n]);
        assert(upto.drop_last() == Seq::<usize>::empty());
        assert(element_count(upto) == element_count(upto.drop_last()) * (batch_n as nat));
        assert(tail.take(0) == Seq::<i64>::empty());
        assert(element_count(Seq::<usize>::empty()) == 1);
        assert(session::product(tail.take(0)) == 1);
        assert(element_count(upto) == batch_n);
        assert(batch_n * session::product(tail.take(0)) == batch_n);
    } else {
        lemma_batch_element_count(dims, batch_n, n - 1);
        assert(upto.drop_last() == shape.take(n));
        session::lemma_product_bounds_dims(tail, n - 1);
        assert(upto.last() == tail[n - 1] as usize);
        assert(tail.take(n).drop_last() == tail.take(n - 1));
        let rest = session::product(tail.take(n - 1));
        let last = tail[n - 1] as int;
        assert((batch_n * rest) * last == batch_n * (rest * last)) by (nonlinear_arith);
        assert(upto.last() as int == last);
        assert(element_count(upto) == element_count(shape.take(n)) * (upto.last() as nat));
        assert(session::product(tail.take(n)) == rest * last);
    }
}

/// A batch that may be run fills its shape exactly: wherever the recorded size of an item is
/// the one its positive dims give, the input bytes are four for each element of the shape.
pub proof fn lemma_planned_shape_covers_input(
    input_bytes: Seq<u8>,
    batch_n: usize,
    meta: TensorMetaView,
)
    requires
        meta.wf(),
        session::item_is_static(meta.shape),
        session::item_fits(meta.shape, meta.dtype),
        blocking_plan(input_bytes, batch_n, meta) is Ok,
    ensures
        input_bytes.len() == 4 * element_count(
            blocking_plan(input_bytes, batch_n, meta)->Ok_0.shape,
        ),
{
    let shape = batch_shape(meta.shape, batch_n);
    let tail = meta.shape.skip(1);
    lemma_batch_element_count(meta.shape, batch_n, meta.shape.len() - 1);
    assert(shape.take(meta.shape.len() as int) == shape);
    assert(tail.take(meta.shape.len() - 1) == tail);
    let p = session::product(tail);
    assert(batch_n * (p * 4) == 4 * (batch_n * p)) by (nonlinear_arith);
}

/// The shape of a batch: the batch size first, then each dim of an item as it is declared.
pub proof fn lemma_shape_of_a_batch(dims: Seq<i64>, batch_n: usize)
    ensures
        batch_shape(dims, batch_n).len() == (if dims.len() == 0 {
            1
        } else {
            dims.len()
        }),
        batch_shape(dims, batch_n)[0] == batch_n,
        forall|i: int|
            1 <= i < dims.len() && 0 <= dims[i] <= usize::MAX ==> #[trigger] batch_shape(
                dims,
                batch_n,
            )[i] == dims[i],
        item_is_dynamic(dims) <==> exists|i: int| 1 <= i < dims.len() && dims[i] < 0,
{
}

/// No dims make one element, and each further dim multiplies their number.
pub proof fn lemma_elements_of_a_shape(shape: Seq<usize>, d: usize)
    ensures
        element_count(Seq::<usize>::empty()) == 1,
        element_count(shape.push(d)) == element_count(shape) * d,
{
    assert(shape.push(d).drop_last() == shape);
}

/// A batch is run exactly when it has the right size, its elements are 32-bit floats and no item
/// dim is dynamic; it is then run on its own bytes, in the shape of the batch.
pub proof fn lemma_batch_is_run_on_its_bytes(
    input_bytes: Seq<u8>,
    batch_n: usize,
    meta: TensorMetaView,
)
    ensures
        blocking_plan(input_bytes, batch_n, meta) is Ok <==> {
            &&& input_bytes.len() == batch_n * meta.bytes_per_request
            &&& input_bytes.len() <= usize::MAX
            &&& meta.dtype == DType::F32
            &&& forall|i: int| 1 <= i < meta.shape.len() ==> meta.shape[i] >= 0
        },
        blocking_plan(input_bytes, batch_n, meta) matches Ok(plan) ==> {
            &&& plan.input_bytes == input_bytes
            &&& plan.shape.len() == (if meta.shape.len() == 0 {
                1
            } else {
                meta.shape.len()
            })
            &&& plan.shape[0] == batch_n
            &&& forall|i: int|
                1 <= i < meta.shape.len() && meta.shape[i] <= usize::MAX ==> #[trigger] plan.shape[i]
                    == meta.shape[i]
        },
{
    lemma_shape_of_a_batch(meta.shape, batch_n);
}

/// A batch that is not run is refused for its size first, then for its element type, then for a
/// dynamic dim.
pub proof fn lemma_batch_is_refused(input_bytes: Seq<u8>, batch_n: usize, meta: TensorMetaView)
    ensures
        session::size_check(input_bytes.len(), batch_n as nat, meta.bytes_per_request) matches Err(
            error,
        ) ==> blocking_plan(input_bytes, batch_n, meta) == Err::<RunPlanView, BridgeErrorView>(
            error,
        ),
        session::size_check(input_bytes.len(), batch_n as nat, meta.bytes_per_request) is Ok
            && meta.dtype != DType::F32 ==> blocking_plan(input_bytes, batch_n, meta) == Err::<
            RunPlanView,
            BridgeErrorView,
        >((BridgeErrorView::UnsupportedDtype { dtype: meta.dtype.label() })),
        session::size_check(input_bytes.len(), batch_n as nat, meta.bytes_per_request) is Ok
            && meta.dtype == DType::F32 && (exists|i: int|
            1 <= i < meta.shape.len() && meta.shape[i] < 0) ==> blocking_plan(
            input_bytes,
            batch_n,
            meta,
        ) == Err::<RunPlanView, BridgeErrorView>(
            BridgeErrorView::RunFailed("non-leading dimension is dynamic; not supported in v1"@),
        ),
{
}

} // verus!
