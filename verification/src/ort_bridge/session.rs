//! Tensor metadata: element types, shapes, and the bytes of one request.

use vstd::prelude::*;
use vstd::string::*;

use crate::error::{BridgeError, BridgeErrorView};
use crate::text;
use crate::views;

verus! {

/// The element types that the engine knows.
#[derive(Debug, Clone, Copy, PartialEq, Eq, Structural)]
pub enum DType {
    F32,
    F16,
    I64,
    I32,
    U8,
    Bool,
}

impl DType {
    /// The size of one element.
    pub open spec fn size(self) -> nat {
        match self {
            DType::F32 | DType::I32 => 4,
            DType::F16 => 2,
            DType::I64 => 8,
            DType::U8 | DType::Bool => 1,
        }
    }

    /// The name of the type.
    pub open spec fn label(self) -> Seq<char> {
        match self {
            DType::F32 => "F32"@,
            DType::F16 => "F16"@,
            DType::I64 => "I64"@,
            DType::I32 => "I32"@,
            DType::U8 => "U8"@,
            DType::Bool => "Bool"@,
        }
    }

    /// The size of one element.
    pub fn bytes(&self) -> (bytes: usize)
        ensures
            bytes == self.size(),
    {
        match self {
            DType::F32 | DType::I32 => 4,
            DType::F16 => 2,
            DType::I64 => 8,
            DType::U8 | DType::Bool => 1,
        }
    }

    /// The name of the type.
    pub fn name(&self) -> (name: &'static str)
        ensures
            name@ == self.label(),
    {
        match self {
            DType::F32 => "F32",
            DType::F16 => "F16",
            DType::I64 => "I64",
            DType::I32 => "I32",
            DType::U8 => "U8",
            DType::Bool => "Bool",
        }
    }
}

/// What is known of one tensor of a model.
#[derive(Debug)]
pub struct TensorMeta {
    pub name: String,
    pub dtype: DType,
    /// The dims; the leading one of an input is `-1`, for the dynamic batch.
    pub shape: Vec<i64>,
    /// Bytes of a single item without the batch dim; 0 where the tensor has no further dim, or
    /// one of those is not positive.
    pub bytes_per_request: usize,
}

/// The mathematical value of a [`TensorMeta`].
pub ghost struct TensorMetaView {
    pub name: Seq<char>,
    pub dtype: DType,
    pub shape: Seq<i64>,
    pub bytes_per_request: nat,
}

impl View for TensorMeta {
    type V = TensorMetaView;

    open spec fn view(&self) -> TensorMetaView {
        TensorMetaView {
            name: self.name@,
            dtype: self.dtype,
            shape: self.shape@,
            bytes_per_request: self.bytes_per_request as nat,
        }
    }
}

impl TensorMetaView {
    /// The recorded size of an item is the one that its dims and element type give.
    pub open spec fn wf(self) -> bool {
        self.bytes_per_request == item_bytes(self.shape, self.dtype)
    }
}

/// A copy of a list of dims.
pub fn copy_dims(dims: &Vec<i64>) -> (copy: Vec<i64>)
    ensures
        copy@ == dims@,
{
    let mut copy: Vec<i64> = Vec::new();
    let mut i: usize = 0;
    while i < dims.len()
        invariant
            i <= dims.len(),
            copy@ == dims@.take(i as int),
        decreases dims.len() - i,
    {
        copy.push(dims[i]);
        i = i + 1;
    }
    copy
}

impl Clone for TensorMeta {
    fn clone(&self) -> (copy: TensorMeta)
        ensures
            copy@ == self@,
    {
        TensorMeta {
            name: self.name.clone(),
            dtype: self.dtype,
            shape: copy_dims(&self.shape),
            bytes_per_request: self.bytes_per_request,
        }
    }
}

/// The element type that a model declares for a tensor; `Other` holds the name of one that the
/// engine does not know.
#[derive(Debug)]
pub enum ElementType {
    Float32,
    Float16,
    Int64,
    Int32,
    Uint8,
    Bool,
    Other(String),
}

/// The type that a model declares for one of its inputs or outputs.
#[derive(Debug)]
pub enum ValueType {
    /// Not a tensor; `debug` describes the type.
    NonTensor { debug: String },
    /// A tensor, with what is known of it.
    Tensor { element: Option<ElementType>, shape: Option<Vec<i64>> },
}

/// An input or output that a model declares.
#[derive(Debug)]
pub struct Outlet {
    pub name: String,
    pub value: ValueType,
}

pub ghost enum ElementTypeView {
    Float32,
    Float16,
    Int64,
    Int32,
    Uint8,
    Bool,
    Other(Seq<char>),
}

pub ghost enum ValueTypeView {
    NonTensor { debug: Seq<char> },
    Tensor { element: Option<ElementTypeView>, shape: Option<Seq<i64>> },
}

pub ghost struct OutletView {
    pub name: Seq<char>,
    pub value: ValueTypeView,
}

impl View for ElementType {
    type V = ElementTypeView;

    open spec fn view(&self) -> ElementTypeView {
        match self {
            ElementType::Float32 => ElementTypeView::Float32,
            ElementType::Float16 => ElementTypeView::Float16,
            ElementType::Int64 => ElementTypeView::Int64,
            ElementType::Int32 => ElementTypeView::Int32,
            ElementType::Uint8 => ElementTypeView::Uint8,
            ElementType::Bool => ElementTypeView::Bool,
            ElementType::Other(name) => ElementTypeView::Other(name@),
        }
    }
}

impl View for ValueType {
    type V = ValueTypeView;

    open spec fn view(&self) -> ValueTypeView {
        match self {
            ValueType::NonTensor { debug } => ValueTypeView::NonTensor { debug: debug@ },
            ValueType::Tensor { element, shape } => ValueTypeView::Tensor {
                element: views::view_option(*element),
                shape: views::view_option(*shape),
            },
        }
    }
}

impl View for Outlet {
    type V = OutletView;

    open spec fn view(&self) -> OutletView {
        OutletView { name: self.name@, value: self.value@ }
    }
}

impl ElementTypeView {
    /// The engine's type for a declared element type.
    pub open spec fn dtype(self) -> Result<DType, BridgeErrorView> {
        match self {
            ElementTypeView::Float32 => Ok(DType::F32),
            ElementTypeView::Float16 => Ok(DType::F16),
            ElementTypeView::Int64 => Ok(DType::I64),
            ElementTypeView::Int32 => Ok(DType::I32),
            ElementTypeView::Uint8 => Ok(DType::U8),
            ElementTypeView::Bool => Ok(DType::Bool),
            ElementTypeView::Other(name) => Err(BridgeErrorView::UnsupportedDtype { dtype: name }),
        }
    }
}

/// The product of a list of dims.
pub open spec fn product(dims: Seq<i64>) -> int
    decreases dims.len(),
{
    if dims.len() == 0 {
        1
    } else {
        product(dims.drop_last()) * dims.last()
    }
}

/// There is a dim after the leading one, and all those are positive.
pub open spec fn item_is_static(dims: Seq<i64>) -> bool {
    &&& dims.len() > 1
    &&& forall|i: int| 1 <= i < dims.len() ==> dims[i] > 0
}

/// The bytes of one item: the product of the dims after the leading one, times the size of an
/// element; 0 where the item has no static size.
pub open spec fn item_bytes(dims: Seq<i64>, dtype: DType) -> int {
    if item_is_static(dims) {
        product(dims.skip(1)) * dtype.size()
    } else {
        0
    }
}

/// The number of elements of one item fits in an `i64`, and its bytes fit in a `usize`.
pub open spec fn item_fits(dims: Seq<i64>, dtype: DType) -> bool {
    item_is_static(dims) ==> product(dims.skip(1)) <= i64::MAX && item_bytes(dims, dtype)
        <= usize::MAX
}

impl OutletView {
    /// The element type and dims, or why they cannot be used. An input has to be batchable: its
    /// leading dim has to be dynamic, that is negative.
    pub open spec fn tensor(self, require_dynamic_batch: bool) -> Result<
        (DType, Seq<i64>),
        BridgeErrorView,
    > {
        match self.value {
            ValueTypeView::NonTensor { debug } => Err(
                BridgeErrorView::UnsupportedInputType { description: "non-tensor: "@ + debug },
            ),
            ValueTypeView::Tensor { element: None, shape: _ } => Err(
                BridgeErrorView::UnsupportedInputType {
                    description: "missing tensor element type"@,
                },
            ),
            ValueTypeView::Tensor { element: Some(element), shape } => match element.dtype() {
                Err(error) => Err(error),
                Ok(dtype) => match shape {
                    None => Err(
                        BridgeErrorView::UnsupportedInputType {
                            description: "missing tensor shape"@,
                        },
                    ),
                    Some(dims) => if require_dynamic_batch && (dims.len() == 0 || dims[0] >= 0) {
                        Err(BridgeErrorView::ModelNotBatchable)
                    } else {
                        Ok((dtype, dims))
                    },
                },
            },
        }
    }

    /// What the engine records of the tensor.
    pub open spec fn meta(self, require_dynamic_batch: bool) -> Result<
        TensorMetaView,
        BridgeErrorView,
    > {
        match self.tensor(require_dynamic_batch) {
            Err(error) => Err(error),
            Ok((dtype, dims)) => Ok(
                TensorMetaView {
                    name: self.name,
                    dtype,
                    shape: dims,
                    bytes_per_request: item_bytes(dims, dtype) as nat,
                },
            ),
        }
    }

    /// The size of an item can be computed, where it has to be.
    pub open spec fn in_range(self, require_dynamic_batch: bool) -> bool {
        self.tensor(require_dynamic_batch) matches Ok((dtype, dims)) ==> item_fits(dims, dtype)
    }
}

proof fn lemma_product_prefix(dims: Seq<i64>, n: int)
    requires
        0 <= n <= dims.len(),
        forall|i: int| 0 <= i < dims.len() ==> dims[i] > 0,
    ensures
        1 <= product(dims.take(n)) <= product(dims),
    decreases dims.len(),
{
    if n < dims.len() {
        lemma_product_prefix(dims.drop_last(), n);
        assert(dims.drop_last().take(n) == dims.take(n));
        let rest = product(dims.drop_last());
        let last = dims.last() as int;
        assert(dims[dims.len() - 1] > 0);
        assert(rest <= rest * last) by (nonlinear_arith)
            requires
                1 <= rest,
                1 <= last,
        ;
    } else {
        assert(dims.take(n) == dims);
        if dims.len() > 0 {
            lemma_product_prefix(dims.drop_last(), dims.len() - 1);
            assert(dims.drop_last().take(dims.len() - 1) == dims.drop_last());
            let rest = product(dims.drop_last());
            let last = dims.last() as int;
            assert(dims[dims.len() - 1] > 0);
            assert(1 <= rest * last) by (nonlinear_arith)
                requires
                    1 <= rest,
                    1 <= last,
            ;
        }
    }
}

/// The product of positive dims is positive, and no smaller than any of them.
pub proof fn lemma_product_bounds_dims(dims: Seq<i64>, n: int)
    requires
        0 <= n < dims.len(),
        forall|i: int| 0 <= i < dims.len() ==> dims[i] > 0,
    ensures
        1 <= product(dims),
        dims[n] <= product(dims),
{
    lemma_product_prefix(dims, n);
    lemma_product_prefix(dims, n + 1);
    let upto = dims.take(n + 1);
    assert(upto.drop_last() == dims.take(n));
    assert(upto.last() == dims[n]);
    let rest = product(dims.take(n));
    let last = dims[n] as int;
    assert(last <= rest * last) by (nonlinear_arith)
        requires
            1 <= rest,
            1 <= last,
    ;
}

/// The size of an item is not negative, and it is positive where it is static.
pub proof fn lemma_item_bytes_nonnegative(dims: Seq<i64>, dtype: DType)
    ensures
        item_bytes(dims, dtype) >= 0,
        item_is_static(dims) ==> item_bytes(dims, dtype) > 0,
{
    if item_is_static(dims) {
        let tail = dims.skip(1);
        assert forall|j: int| 0 <= j < tail.len() implies tail[j] > 0 by {
            assert(tail[j] == dims[j + 1]);
        }
        lemma_product_prefix(tail, 0);
        let e = product(tail);
        let s = dtype.size() as int;
        assert(1 <= e * s) by (nonlinear_arith)
            requires
                1 <= e,
                1 <= s,
        ;
    }
}

/// The bytes of one item with these dims, or `None` where they cannot be held.
pub fn bytes_per_request(dims: &Vec<i64>, dtype: DType) -> (bytes: Option<usize>)
    ensures
        bytes == (if item_fits(dims@, dtype) {
            Some(item_bytes(dims@, dtype) as usize)
        } else {
            None
        }),
        dims@.len() <= 1 ==> bytes == Some(0usize),
        dims@.len() > 1 && (forall|i: int| 1 <= i < dims@.len() ==> dims@[i] > 0) ==> (
        bytes matches Some(n) ==> n == product(dims@.skip(1)) * dtype.size()),
{
    if dims.len() <= 1 {
        return Some(0);
    }
    let mut i: usize = 1;
    while i < dims.len()
        invariant
            1 <= i <= dims.len(),
            dims.len() > 1,
            forall|j: int| 1 <= j < i ==> dims@[j] > 0,
        decreases dims.len() - i,
    {
        if dims[i] <= 0 {
            assert(!item_is_static(dims@));
            return Some(0);
        }
        i = i + 1;
    }
    let ghost tail = dims@.skip(1);
    assert forall|j: int| 0 <= j < tail.len() implies tail[j] > 0 by {
        assert(tail[j] == dims@[j + 1]);
    }
    let mut elements: i64 = 1;
    let mut k: usize = 1;
    assert(tail.take(0) == Seq::<i64>::empty());
    while k < dims.len()
        invariant
            1 <= k <= dims.len(),
            item_is_static(dims@),
            tail == dims@.skip(1),
            forall|j: int| 0 <= j < tail.len() ==> tail[j] > 0,
            elements == product(tail.take(k - 1)),
            elements >= 1,
        decreases dims.len() - k,
    {
        proof {
            let next = tail.take(k as int);
            assert(next.drop_last() == tail.take(k - 1));
            assert(next.last() == dims@[k as int]);
            lemma_product_prefix(tail, k as int);
        }
        match elements.checked_mul(dims[k]) {
            Some(next) => {
                elements = next;
            },
            None => {
                assert(product(tail) > i64::MAX);
                return None;
            },
        }
        k = k + 1;
    }
    assert(tail.take(k - 1) == tail);
    if elements as u64 > usize::MAX as u64 {
        proof {
            let e = elements as int;
            let s = dtype.size() as int;
            assert(e <= e * s) by (nonlinear_arith)
                requires
                    1 <= e,
                    1 <= s,
            ;
        }
        return None;
    }
    (elements as usize).checked_mul(dtype.bytes())
}

/// The engine's type for a declared element type.
pub fn element_type_to_dtype(element: &ElementType) -> (result: Result<DType, BridgeError>)
    ensures
        match result {
            Ok(dtype) => element@.dtype() == Ok::<DType, BridgeErrorView>(dtype),
            Err(error) => element@.dtype() == Err::<DType, BridgeErrorView>(error@),
        },
{
    match element {
        ElementType::Float32 => Ok(DType::F32),
        ElementType::Float16 => Ok(DType::F16),
        ElementType::Int64 => Ok(DType::I64),
        ElementType::Int32 => Ok(DType::I32),
        ElementType::Uint8 => Ok(DType::U8),
        ElementType::Bool => Ok(DType::Bool),
        ElementType::Other(name) => Err(BridgeError::UnsupportedDtype { dtype: name.clone() }),
    }
}

fn outlet_tensor(outlet: &Outlet, require_dynamic_batch: bool) -> (result: Result<
    (DType, &Vec<i64>),
    BridgeError,
>)
    ensures
        match result {
            Ok((dtype, dims)) => outlet@.tensor(require_dynamic_batch) == Ok::<
                (DType, Seq<i64>),
                BridgeErrorView,
            >((dtype, dims@)),
            Err(error) => outlet@.tensor(require_dynamic_batch) == Err::<
                (DType, Seq<i64>),
                BridgeErrorView,
            >(error@),
        },
{
    match &outlet.value {
        ValueType::NonTensor { debug } => Err(
            BridgeError::UnsupportedInputType { description: text::joined("non-tensor: ", debug) },
        ),
        ValueType::Tensor { element, shape } => {
            let dtype = match element {
                None => {
                    return Err(
                        BridgeError::UnsupportedInputType {
                            description: "missing tensor element type".to_string(),
                        },
                    );
                },
                Some(element) => match element_type_to_dtype(element) {
                    Ok(dtype) => dtype,
                    Err(error) => {
                        return Err(error);
                    },
                },
            };
            match shape {
                None => Err(
                    BridgeError::UnsupportedInputType {
                        description: "missing tensor shape".to_string(),
                    },
                ),
                Some(dims) => {
                    if require_dynamic_batch && (dims.len() == 0 || dims[0] >= 0) {
                        return Err(BridgeError::ModelNotBatchable);
                    }
                    Ok((dtype, dims))
                },
            }
        },
    }
}

/// Whether the size of an item of this tensor can be held, where it has to be computed.
pub fn outlet_in_range(outlet: &Outlet, require_dynamic_batch: bool) -> (in_range: bool)
    ensures
        in_range == outlet@.in_range(require_dynamic_batch),
{
    match outlet_tensor(outlet, require_dynamic_batch) {
        Ok((dtype, dims)) => bytes_per_request(dims, dtype).is_some(),
        Err(_) => true,
    }
}

/// What the engine records of a model's input, whose batch dim has to be dynamic.
pub fn input_to_meta(outlet: &Outlet) -> (result: Result<TensorMeta, BridgeError>)
    requires
        outlet@.in_range(true),
    ensures
        views::view_result(result) == outlet@.meta(true),
{
    outlet_to_meta(outlet, true)
}

/// What the engine records of a model's output.
pub fn output_to_meta(outlet: &Outlet) -> (result: Result<TensorMeta, BridgeError>)
    requires
        outlet@.in_range(false),
    ensures
        views::view_result(result) == outlet@.meta(false),
{
    outlet_to_meta(outlet, false)
}

/// What the engine records of a model's input or output.
pub fn outlet_to_meta(outlet: &Outlet, require_dynamic_batch: bool) -> (result: Result<
    TensorMeta,
    BridgeError,
>)
    requires
        outlet@.in_range(require_dynamic_batch),
    ensures
        views::view_result(result) == outlet@.meta(require_dynamic_batch),
{
    match outlet_tensor(outlet, require_dynamic_batch) {
        Err(error) => Err(error),
        Ok((dtype, dims)) => {
            proof {
                lemma_item_bytes_nonnegative(dims@, dtype);
            }
            let bytes = bytes_per_request(dims, dtype).unwrap();
            Ok(
                TensorMeta {
                    name: outlet.name.clone(),
                    dtype,
                    shape: copy_dims(dims),
                    bytes_per_request: bytes,
                },
            )
        },
    }
}

/// What the check of a batch's size answers.
pub open spec fn size_check(actual: nat, batch_n: nat, bytes_per_request: nat) -> Result<
    (),
    BridgeErrorView,
> {
    if batch_n * bytes_per_request > usize::MAX {
        Err(BridgeErrorView::InputSizeMismatch { expected: usize::MAX as nat, actual })
    } else if actual != batch_n * bytes_per_request {
        Err(BridgeErrorView::InputSizeMismatch { expected: batch_n * bytes_per_request, actual })
    } else {
        Ok(())
    }
}

/// Accepts a batch of exactly `batch_n * bytes_per_request` bytes.
pub fn validate_input_size(actual: usize, batch_n: usize, bytes_per_request: usize) -> (result:
    Result<(), BridgeError>)
    ensures
        views::view_result(result) == size_check(
            actual as nat,
            batch_n as nat,
            bytes_per_request as nat,
        ),
        result is Ok <==> actual == batch_n * bytes_per_request,
{
    match batch_n.checked_mul(bytes_per_request) {
        None => Err(BridgeError::InputSizeMismatch { expected: usize::MAX, actual }),
        Some(expected) => {
            if actual != expected {
                return Err(BridgeError::InputSizeMismatch { expected, actual });
            }
            Ok(())
        },
    }
}

/// The size and the name of each element type.
pub proof fn lemma_element_types()
    ensures
        DType::F32.size() == 4,
        DType::F16.size() == 2,
        DType::I64.size() == 8,
        DType::I32.size() == 4,
        DType::U8.size() == 1,
        DType::Bool.size() == 1,
        DType::F32.label() == "F32"@,
        DType::F16.label() == "F16"@,
        DType::I64.label() == "I64"@,
        DType::I32.label() == "I32"@,
        DType::U8.label() == "U8"@,
        DType::Bool.label() == "Bool"@,
{
}

/// The product of no dims is one, and each further dim multiplies it.
pub proof fn lemma_product_of_dims(dims: Seq<i64>, d: i64)
    ensures
        product(Seq::<i64>::empty()) == 1,
        product(dims.push(d)) == product(dims) * d,
{
    assert(dims.push(d).drop_last() == dims);
}

/// The bytes of one request, however many dims its tensor has: where there are dims after the
/// leading one and all of those are positive, their product times the size of an element, which
/// is positive; otherwise none.
pub proof fn lemma_item_size(dims: Seq<i64>, dtype: DType)
    ensures
        dims.len() > 1 && (forall|i: int| 1 <= i < dims.len() ==> dims[i] > 0) ==> {
            &&& item_bytes(dims, dtype) == product(dims.skip(1)) * dtype.size()
            &&& item_bytes(dims, dtype) > 0
            &&& item_fits(dims, dtype) <==> product(dims.skip(1)) <= i64::MAX && product(
                dims.skip(1),
            ) * dtype.size() <= usize::MAX
        },
        dims.len() <= 1 || (exists|i: int| 1 <= i < dims.len() && dims[i] <= 0) ==> {
            &&& item_bytes(dims, dtype) == 0
            &&& item_fits(dims, dtype)
        },
{
    lemma_item_bytes_nonnegative(dims, dtype);
}

/// A further positive dim multiplies the bytes of one request.
pub proof fn lemma_further_dim_multiplies_item_size(dims: Seq<i64>, d: i64, dtype: DType)
    requires
        dims.len() > 1,
        forall|i: int| 1 <= i < dims.len() ==> dims[i] > 0,
        d > 0,
    ensures
        item_bytes(dims.push(d), dtype) == item_bytes(dims, dtype) * d,
        item_bytes(seq![dims[0], d], dtype) == d * dtype.size(),
{
    let tail = dims.skip(1);
    assert(dims.push(d).skip(1) == tail.push(d));
    lemma_product_of_dims(tail, d);
    assert forall|i: int| 1 <= i < dims.push(d).len() implies dims.push(d)[i] > 0 by {}
    let p = product(tail);
    let s = dtype.size() as int;
    assert((p * d) * s == (p * s) * d) by (nonlinear_arith);
    let none = Seq::<i64>::empty();
    let pair = seq![dims[0], d];
    assert(pair.skip(1) == none.push(d));
    lemma_product_of_dims(none, d);
    assert(1 * d == d);
}

/// The engine's type for each declared element type.
pub proof fn lemma_declared_element_types(name: Seq<char>)
    ensures
        ElementTypeView::Float32.dtype() == Ok::<DType, BridgeErrorView>(DType::F32),
        ElementTypeView::Float16.dtype() == Ok::<DType, BridgeErrorView>(DType::F16),
        ElementTypeView::Int64.dtype() == Ok::<DType, BridgeErrorView>(DType::I64),
        ElementTypeView::Int32.dtype() == Ok::<DType, BridgeErrorView>(DType::I32),
        ElementTypeView::Uint8.dtype() == Ok::<DType, BridgeErrorView>(DType::U8),
        ElementTypeView::Bool.dtype() == Ok::<DType, BridgeErrorView>(DType::Bool),
        ElementTypeView::Other(name).dtype() == Err::<DType, BridgeErrorView>(
            (BridgeErrorView::UnsupportedDtype { dtype: name }),
        ),
{
}

/// What is not a tensor, or is not known well enough, has no record: the error says what is
/// missing.
pub proof fn lemma_unusable_outlets_have_no_record(
    outlet: OutletView,
    debug: Seq<char>,
    element: ElementTypeView,
    shape: Option<Seq<i64>>,
    require_dynamic_batch: bool,
)
    ensures
        outlet.value == (ValueTypeView::NonTensor { debug }) ==> outlet.meta(
            require_dynamic_batch,
        ) == Err::<TensorMetaView, BridgeErrorView>(
            (BridgeErrorView::UnsupportedInputType { description: "non-tensor: "@ + debug }),
        ),
        outlet.value == (ValueTypeView::Tensor { element: None, shape }) ==> outlet.meta(
            require_dynamic_batch,
        ) == Err::<TensorMetaView, BridgeErrorView>(
            (BridgeErrorView::UnsupportedInputType {
                description: "missing tensor element type"@,
            }),
        ),
        outlet.value == (ValueTypeView::Tensor { element: Some(element), shape }) && element.dtype()
            is Err ==> outlet.meta(require_dynamic_batch) == Err::<TensorMetaView, BridgeErrorView>(
            element.dtype()->Err_0,
        ),
        outlet.value == (ValueTypeView::Tensor { element: Some(element), shape: None })
            && element.dtype() is Ok ==> outlet.meta(require_dynamic_batch) == Err::<
            TensorMetaView,
            BridgeErrorView,
        >((BridgeErrorView::UnsupportedInputType { description: "missing tensor shape"@ })),
        outlet.meta(require_dynamic_batch) is Err ==> outlet.in_range(require_dynamic_batch),
{
}

/// The record of a tensor holds its name, its element type, its dims and the bytes of one
/// request. An input whose leading dim is not negative is refused; an output is not.
pub proof fn lemma_record_of_a_tensor(
    outlet: OutletView,
    element: ElementTypeView,
    dtype: DType,
    dims: Seq<i64>,
    require_dynamic_batch: bool,
)
    requires
        outlet.value == (ValueTypeView::Tensor { element: Some(element), shape: Some(dims) }),
        element.dtype() == Ok::<DType, BridgeErrorView>(dtype),
    ensures
        require_dynamic_batch && (dims.len() == 0 || dims[0] >= 0) ==> outlet.meta(
            require_dynamic_batch,
        ) == Err::<TensorMetaView, BridgeErrorView>(BridgeErrorView::ModelNotBatchable),
        !require_dynamic_batch || (dims.len() > 0 && dims[0] < 0) ==> {
            &&& outlet.meta(require_dynamic_batch) matches Ok(meta) && meta.name == outlet.name
                && meta.dtype == dtype && meta.shape == dims && meta.bytes_per_request
                == item_bytes(dims, dtype)
            &&& outlet.in_range(require_dynamic_batch) <==> item_fits(dims, dtype)
        },
{
    lemma_item_bytes_nonnegative(dims, dtype);
}

/// A batch has the right size exactly when it has the bytes of one request for each of its
/// requests; otherwise the error says how many were expected, as far as a `usize` counts them,
/// and how many there were.
pub proof fn lemma_size_of_a_batch(actual: nat, batch_n: nat, bytes_per_request: nat)
    ensures
        size_check(actual, batch_n, bytes_per_request) is Ok <==> actual == batch_n
            * bytes_per_request && batch_n * bytes_per_request <= usize::MAX,
        actual != batch_n * bytes_per_request && batch_n * bytes_per_request <= usize::MAX
            ==> size_check(actual, batch_n, bytes_per_request) == Err::<(), BridgeErrorView>(
            (BridgeErrorView::InputSizeMismatch {
                expected: batch_n * bytes_per_request,
                actual,
            }),
        ),
        batch_n * bytes_per_request > usize::MAX ==> size_check(actual, batch_n, bytes_per_request)
            == Err::<(), BridgeErrorView>(
            (BridgeErrorView::InputSizeMismatch { expected: usize::MAX as nat, actual }),
        ),
{
}

/// The value of a record, and of an outlet, is the value of each of its parts.
pub proof fn lemma_value_of_records(meta: TensorMeta, outlet: Outlet, name: String)
    ensures
        meta@.name == meta.name@,
        meta@.dtype == meta.dtype,
        meta@.shape == meta.shape@,
        meta@.bytes_per_request == meta.bytes_per_request,
        outlet@.name == outlet.name@,
        outlet.value matches ValueType::NonTensor { debug } ==> outlet@.value == (
        ValueTypeView::NonTensor { debug: debug@ }),
        outlet.value matches ValueType::Tensor { element, shape } ==> outlet@.value == (
        ValueTypeView::Tensor {
            element: views::view_option(element),
            shape: views::view_option(shape),
        }),
        ElementType::Float32@ == ElementTypeView::Float32,
        ElementType::Float16@ == ElementTypeView::Float16,
        ElementType::Int64@ == ElementTypeView::Int64,
        ElementType::Int32@ == ElementTypeView::Int32,
        ElementType::Uint8@ == ElementTypeView::Uint8,
        ElementType::Bool@ == ElementTypeView::Bool,
        ElementType::Other(name)@ == ElementTypeView::Other(name@),
{
}

} // verus!
