//! Batching: when waiting requests are dispatched, how their bytes are packed into one buffer,
//! and how the outputs of a run are handed back.

use std::sync::Arc;

use vstd::prelude::*;

use crate::config::ModelConfig;
use crate::error::BridgeError;
use crate::ort_bridge::session;
use crate::ort_bridge::{BatchOutput, BatchRequest};
use crate::views;

verus! {

/// A request that waits for its batch. `responder` is the way back to its caller.
#[derive(Debug)]
pub struct PendingRequest<R> {
    pub input_bytes: Vec<u8>,
    pub seq_len: Option<u32>,
    pub responder: R,
}

/// The share of one request in the outputs of its batch.
#[derive(Debug)]
pub struct PerRequestOutput {
    pub outputs: Vec<Vec<u8>>,
}

/// How the requests of one model are batched.
#[derive(Debug, Clone, Copy)]
pub struct BucketConfig {
    pub max_batch_size: usize,
    pub max_queue_delay_us: u64,
    /// The depth of the request queue; a request that finds it full is turned away.
    pub queue_capacity: usize,
}

impl BucketConfig {
    /// The batching that a model is configured with.
    pub fn for_model(config: &ModelConfig) -> (bucket: BucketConfig)
        ensures
            bucket.max_batch_size == config@.max_batch_size,
            bucket.max_queue_delay_us == config@.max_queue_delay_us,
            bucket.queue_capacity == config@.resolved_queue_capacity(),
            bucket.max_batch_size == config.max_batch_size,
            bucket.max_queue_delay_us == config.max_queue_delay_us,
            config.queue_capacity matches Some(capacity) ==> bucket.queue_capacity == capacity,
    {
        BucketConfig {
            max_batch_size: config.max_batch_size,
            max_queue_delay_us: config.max_queue_delay_us,
            queue_capacity: config.resolved_queue_capacity(),
        }
    }

    /// The depth of the queue that is opened: at least one batch.
    pub fn channel_depth(&self) -> (depth: usize)
        ensures
            depth == (if self.queue_capacity >= self.max_batch_size {
                self.queue_capacity
            } else {
                self.max_batch_size
            }),
    {
        if self.queue_capacity >= self.max_batch_size {
            self.queue_capacity
        } else {
            self.max_batch_size
        }
    }
}

/// Why a batch is dispatched.
#[derive(Debug, Clone, Copy, PartialEq, Eq, Structural)]
pub enum DispatchReason {
    /// The oldest request has waited long enough.
    Time,
    /// The batch is full.
    Size,
    /// No more requests will come.
    Closed,
}

impl DispatchReason {
    /// The label under which the dispatch is counted; the one on closing is not counted.
    pub fn label(&self) -> (label: Option<&'static str>)
        ensures
            views::view_option(label) == (match self {
                DispatchReason::Time => Some("time"@),
                DispatchReason::Size => Some("size"@),
                DispatchReason::Closed => None,
            }),
    {
        match self {
            DispatchReason::Time => Some("time"),
            DispatchReason::Size => Some("size"),
            DispatchReason::Closed => None,
        }
    }
}

/// What becomes of the timer that limits how long a batch gathers.
#[derive(Debug, Clone, Copy, PartialEq, Eq, Structural)]
pub enum TimerAction {
    Keep,
    Start,
    Stop,
}

/// Whether the timer runs after an action on it.
pub open spec fn timer_after(running: bool, action: TimerAction) -> bool {
    match action {
        TimerAction::Keep => running,
        TimerAction::Start => true,
        TimerAction::Stop => false,
    }
}

/// What the scheduler has to do after an event.
#[derive(Debug)]
pub struct Step<R> {
    pub timer: TimerAction,
    /// The number of gathered requests, where it is to be reported.
    pub depth: Option<usize>,
    pub dispatch: Option<(DispatchReason, Vec<PendingRequest<R>>)>,
    /// The scheduler ends.
    pub stop: bool,
}

/// An event that the scheduler reacts to.
pub ghost enum BatchEvent<R> {
    TimerFired,
    Received(PendingRequest<R>),
    Closed,
}

/// The mathematical value of a [`Batcher`].
pub ghost struct BatcherView<R> {
    pub max_batch_size: nat,
    pub pending: Seq<PendingRequest<R>>,
}

impl<R> BatcherView<R> {
    /// A batch that gathers is not full.
    pub open spec fn wf(self) -> bool {
        self.pending.len() == 0 || self.pending.len() < self.max_batch_size
    }

    /// The timer runs exactly while requests gather.
    pub open spec fn timer_runs(self) -> bool {
        self.pending.len() > 0
    }

    /// The event can come: the timer fires only while it runs.
    pub open spec fn expects(self, event: BatchEvent<R>) -> bool {
        event is TimerFired ==> self.timer_runs()
    }

    /// The batch that an event releases, with the reason.
    pub open spec fn released(self, event: BatchEvent<R>) -> Option<
        (DispatchReason, Seq<PendingRequest<R>>),
    > {
        match event {
            BatchEvent::TimerFired => Some((DispatchReason::Time, self.pending)),
            BatchEvent::Received(request) => if self.pending.len() + 1 >= self.max_batch_size {
                Some((DispatchReason::Size, self.pending.push(request)))
            } else {
                None
            },
            BatchEvent::Closed => if self.pending.len() > 0 {
                Some((DispatchReason::Closed, self.pending))
            } else {
                None
            },
        }
    }

    /// The scheduler after an event.
    pub open spec fn next(self, event: BatchEvent<R>) -> BatcherView<R> {
        match event {
            BatchEvent::Received(request) if self.released(event) is None => BatcherView {
                pending: self.pending.push(request),
                ..self
            },
            _ => BatcherView { pending: Seq::empty(), ..self },
        }
    }
}

/// The batch in a step, by its view.
pub open spec fn view_dispatch<R>(
    dispatch: Option<(DispatchReason, Vec<PendingRequest<R>>)>,
) -> Option<(DispatchReason, Seq<PendingRequest<R>>)> {
    match dispatch {
        Some((reason, batch)) => Some((reason, batch@)),
        None => None,
    }
}

/// The scheduler of one model: it gathers requests until the batch is full or its oldest request
/// has waited long enough.
#[derive(Debug)]
pub struct Batcher<R> {
    max_batch_size: usize,
    pending: Vec<PendingRequest<R>>,
}

impl<R> View for Batcher<R> {
    type V = BatcherView<R>;

    closed spec fn view(&self) -> BatcherView<R> {
        BatcherView { max_batch_size: self.max_batch_size as nat, pending: self.pending@ }
    }
}

impl<R> Batcher<R> {
    #[verifier::type_invariant]
    spec fn inv(self) -> bool {
        self.pending@.len() == 0 || self.pending@.len() < self.max_batch_size
    }

    /// A scheduler that has gathered nothing.
    pub fn new(max_batch_size: usize) -> (batcher: Batcher<R>)
        ensures
            batcher@.wf(),
            batcher@.max_batch_size == max_batch_size,
            batcher@.pending.len() == 0,
    {
        Batcher { max_batch_size, pending: Vec::new() }
    }

    /// Whether the timer runs.
    pub fn timer_runs(&self) -> (runs: bool)
        ensures
            runs == self@.timer_runs(),
            runs == (self@.pending.len() > 0),
    {
        self.pending.len() > 0
    }

    fn take_pending(&mut self) -> (batch: Vec<PendingRequest<R>>)
        ensures
            batch@ == old(self)@.pending,
            final(self)@ == (BatcherView { pending: Seq::empty(), ..old(self)@ }),
    {
        let mut batch: Vec<PendingRequest<R>> = Vec::new();
        std::mem::swap(&mut batch, &mut self.pending);
        batch
    }

    /// A request has come. The first of a batch starts the timer; the one that fills the batch
    /// releases it and stops the timer.
    pub fn on_request(&mut self, request: PendingRequest<R>) -> (step: Step<R>)
        ensures
            final(self)@.wf(),
            final(self)@ == old(self)@.next(BatchEvent::Received(request)),
            view_dispatch(step.dispatch) == old(self)@.released(BatchEvent::Received(request)),
            timer_after(old(self)@.timer_runs(), step.timer) == final(self)@.timer_runs(),
            step.timer == (if step.dispatch is Some {
                TimerAction::Stop
            } else if old(self)@.timer_runs() {
                TimerAction::Keep
            } else {
                TimerAction::Start
            }),
            step.depth == Some(final(self)@.pending.len() as usize),
            !step.stop,
            final(self)@.max_batch_size == old(self)@.max_batch_size,
            old(self)@.pending.len() + 1 < old(self)@.max_batch_size ==> {
                &&& step.dispatch is None
                &&& final(self)@.pending == old(self)@.pending.push(request)
                &&& step.timer == (if old(self)@.pending.len() == 0 {
                    TimerAction::Start
                } else {
                    TimerAction::Keep
                })
            },
            old(self)@.pending.len() + 1 >= old(self)@.max_batch_size ==> {
                &&& step.dispatch matches Some((reason, batch)) && reason == DispatchReason::Size
                    && batch@ == old(self)@.pending.push(request)
                &&& final(self)@.pending.len() == 0
                &&& step.timer == TimerAction::Stop
            },
    {
        proof {
            use_type_invariant(&*self);
        }
        let first = self.pending.len() == 0;
        let mut batch = self.take_pending();
        batch.push(request);
        if batch.len() >= self.max_batch_size {
            return Step {
                timer: TimerAction::Stop,
                depth: Some(0),
                dispatch: Some((DispatchReason::Size, batch)),
                stop: false,
            };
        }
        let depth = batch.len();
        self.pending = batch;
        Step {
            timer: if first {
                TimerAction::Start
            } else {
                TimerAction::Keep
            },
            depth: Some(depth),
            dispatch: None,
            stop: false,
        }
    }

    /// The timer has fired: what has gathered is released.
    pub fn on_timer(&mut self) -> (step: Step<R>)
        requires
            old(self)@.timer_runs(),
        ensures
            final(self)@.wf(),
            final(self)@ == old(self)@.next(BatchEvent::TimerFired),
            view_dispatch(step.dispatch) == old(self)@.released(BatchEvent::TimerFired),
            timer_after(old(self)@.timer_runs(), step.timer) == final(self)@.timer_runs(),
            step.timer == TimerAction::Stop,
            step.depth == Some(0usize),
            !step.stop,
            final(self)@.max_batch_size == old(self)@.max_batch_size,
            final(self)@.pending.len() == 0,
            step.dispatch matches Some((reason, batch)) && reason == DispatchReason::Time && batch@
                == old(self)@.pending,
    {
        let batch = self.take_pending();
        Step {
            timer: TimerAction::Stop,
            depth: Some(0),
            dispatch: Some((DispatchReason::Time, batch)),
            stop: false,
        }
    }

    /// No more requests will come: what has gathered is released, and the scheduler ends.
    pub fn on_close(&mut self) -> (step: Step<R>)
        ensures
            final(self)@.wf(),
            final(self)@ == old(self)@.next(BatchEvent::Closed),
            view_dispatch(step.dispatch) == old(self)@.released(BatchEvent::Closed),
            timer_after(old(self)@.timer_runs(), step.timer) == final(self)@.timer_runs(),
            step.timer == TimerAction::Stop,
            step.depth == (if old(self)@.pending.len() > 0 {
                Some(0usize)
            } else {
                None
            }),
            step.stop,
            final(self)@.pending.len() == 0,
            old(self)@.pending.len() == 0 ==> step.dispatch is None,
            old(self)@.pending.len() > 0 ==> (step.dispatch matches Some((reason, batch)) && reason
                == DispatchReason::Closed && batch@ == old(self)@.pending),
    {
        let batch = self.take_pending();
        if batch.len() == 0 {
            return Step { timer: TimerAction::Stop, depth: None, dispatch: None, stop: true };
        }
        Step {
            timer: TimerAction::Stop,
            depth: Some(0),
            dispatch: Some((DispatchReason::Closed, batch)),
            stop: true,
        }
    }
}

/// The requests that a run of events brought, in order.
pub open spec fn received<R>(events: Seq<BatchEvent<R>>) -> Seq<PendingRequest<R>>
    decreases events.len(),
{
    if events.len() == 0 {
        Seq::empty()
    } else {
        let before = received(events.drop_last());
        match events.last() {
            BatchEvent::Received(request) => before.push(request),
            _ => before,
        }
    }
}

/// The scheduler after a run of events.
pub open spec fn batcher_after<R>(batcher: BatcherView<R>, events: Seq<BatchEvent<R>>) ->
    BatcherView<R>
    decreases events.len(),
{
    if events.len() == 0 {
        batcher
    } else {
        batcher_after(batcher, events.drop_last()).next(events.last())
    }
}

/// The batches that a run of events released, in order.
pub open spec fn batches<R>(batcher: BatcherView<R>, events: Seq<BatchEvent<R>>) -> Seq<
    Seq<PendingRequest<R>>,
>
    decreases events.len(),
{
    if events.len() == 0 {
        Seq::empty()
    } else {
        let before = batches(batcher, events.drop_last());
        match batcher_after(batcher, events.drop_last()).released(events.last()) {
            Some((_, batch)) => before.push(batch),
            None => before,
        }
    }
}

/// Every event of a run can come when it comes.
pub open spec fn plausible<R>(batcher: BatcherView<R>, events: Seq<BatchEvent<R>>) -> bool
    decreases events.len(),
{
    events.len() > 0 ==> {
        &&& plausible(batcher, events.drop_last())
        &&& batcher_after(batcher, events.drop_last()).expects(events.last())
    }
}

/// All elements of a sequence of sequences, in order.
pub open spec fn joined<A>(parts: Seq<Seq<A>>) -> Seq<A>
    decreases parts.len(),
{
    if parts.len() == 0 {
        Seq::empty()
    } else {
        joined(parts.drop_last()) + parts.last()
    }
}

/// No request is lost, repeated or overtaken: over any run of events, the released batches in
/// order, followed by what still gathers, are what had gathered before, followed by what came.
pub proof fn lemma_every_request_once_in_order<R>(
    batcher: BatcherView<R>,
    events: Seq<BatchEvent<R>>,
)
    ensures
        joined(batches(batcher, events)) + batcher_after(batcher, events).pending
            == batcher.pending + received(events),
    decreases events.len(),
{
    if events.len() == 0 {
        assert(joined(batches(batcher, events)) + batcher.pending == batcher.pending + received(
            events,
        ));
    } else {
        let init = events.drop_last();
        let event = events.last();
        lemma_every_request_once_in_order(batcher, init);
        let mid = batcher_after(batcher, init);
        let done = batches(batcher, init);
        match mid.released(event) {
            Some((_, batch)) => {
                assert(done.push(batch).drop_last() == done);
                assert(joined(done.push(batch)) == joined(done) + batch);
            },
            None => {},
        }
        match event {
            BatchEvent::Received(request) => {
                assert(joined(done) + mid.pending.push(request) == (joined(done)
                    + mid.pending).push(request));
                assert((batcher.pending + received(init)).push(request) == batcher.pending
                    + received(init).push(request));
            },
            _ => {},
        }
        assert(joined(batches(batcher, events)) + batcher_after(batcher, events).pending
            == batcher.pending + received(events));
    }
}

/// Once the queue has closed, every request that ever came has been released.
pub proof fn lemma_close_releases_everything<R>(
    batcher: BatcherView<R>,
    events: Seq<BatchEvent<R>>,
)
    requires
        events.len() > 0,
        events.last() is Closed,
    ensures
        joined(batches(batcher, events)) == batcher.pending + received(events),
{
    lemma_every_request_once_in_order(batcher, events);
    assert(batcher_after(batcher, events).pending == Seq::<PendingRequest<R>>::empty());
    assert(joined(batches(batcher, events)) + Seq::<PendingRequest<R>>::empty() == joined(
        batches(batcher, events),
    ));
}

/// Every released batch holds at least one request and at most the batch size, and what gathers
/// is never a full batch. (A batch size of zero releases requests one by one.)
pub proof fn lemma_batch_sizes<R>(batcher: BatcherView<R>, events: Seq<BatchEvent<R>>)
    requires
        batcher.wf(),
        plausible(batcher, events),
    ensures
        batcher_after(batcher, events).wf(),
        batcher_after(batcher, events).max_batch_size == batcher.max_batch_size,
        forall|i: int|
            0 <= i < batches(batcher, events).len() ==> {
                &&& 1 <= (#[trigger] batches(batcher, events)[i]).len()
                &&& batches(batcher, events)[i].len() <= batcher.max_batch_size
                    || batches(batcher, events)[i].len() == 1
            },
    decreases events.len(),
{
    if events.len() > 0 {
        let init = events.drop_last();
        lemma_batch_sizes(batcher, init);
        let mid = batcher_after(batcher, init);
        let before = batches(batcher, init);
        let all = batches(batcher, events);
        assert forall|i: int| 0 <= i < all.len() implies {
            &&& 1 <= (#[trigger] all[i]).len()
            &&& all[i].len() <= batcher.max_batch_size || all[i].len() == 1
        } by {
            if i < before.len() {
                assert(all[i] == before[i]);
            } else {
                assert(mid.released(events.last()) is Some);
                let (_, batch) = mid.released(events.last())->0;
                assert(all[i] == batch);
                assert(mid.expects(events.last()));
            }
        }
    }
}

/// The place of one request in a batch buffer: its bytes, cut to the size of the place or padded
/// with zeros up to it.
pub open spec fn slot(input: Seq<u8>, bytes_per_request: nat) -> Seq<u8> {
    Seq::new(
        bytes_per_request,
        |k: int|
            if k < input.len() {
                input[k]
            } else {
                0
            },
    )
}

/// The input bytes of the requests of a batch.
pub open spec fn inputs<R>(batch: Seq<PendingRequest<R>>) -> Seq<Seq<u8>> {
    batch.map_values(|request: PendingRequest<R>| request.input_bytes@)
}

/// The places of all requests of a batch, one after the other.
pub open spec fn packed(inputs: Seq<Seq<u8>>, bytes_per_request: nat) -> Seq<u8>
    decreases inputs.len(),
{
    if inputs.len() == 0 {
        Seq::empty()
    } else {
        packed(inputs.drop_last(), bytes_per_request) + slot(inputs.last(), bytes_per_request)
    }
}

/// A batch buffer has one place for each request, at its index.
pub proof fn lemma_packed_places(inputs: Seq<Seq<u8>>, bytes_per_request: nat)
    ensures
        packed(inputs, bytes_per_request).len() == inputs.len() * bytes_per_request,
        forall|i: int|
            0 <= i < inputs.len() ==> packed(inputs, bytes_per_request).subrange(
                i * bytes_per_request,
                (i + 1) * bytes_per_request,
            ) == slot(#[trigger] inputs[i], bytes_per_request),
    decreases inputs.len(),
{
    let size = bytes_per_request as int;
    if inputs.len() > 0 {
        let init = inputs.drop_last();
        let n = init.len() as int;
        lemma_packed_places(init, bytes_per_request);
        assert((n + 1) * size == n * size + size) by (nonlinear_arith);
        let before = packed(init, bytes_per_request);
        let all = packed(inputs, bytes_per_request);
        assert forall|i: int| 0 <= i < inputs.len() implies all.subrange(
            i * bytes_per_request,
            (i + 1) * bytes_per_request,
        ) == slot(#[trigger] inputs[i], bytes_per_request) by {
            assert((i + 1) * size == i * size + size) by (nonlinear_arith);
            if i < n {
                assert(0 <= i * size && (i + 1) * size <= n * size) by (nonlinear_arith)
                    requires
                        0 <= i < n,
                        0 <= size,
                ;
                assert(init[i] == inputs[i]);
                assert(all.subrange(i * size, (i + 1) * size) == before.subrange(
                    i * size,
                    (i + 1) * size,
                ));
            } else {
                assert(all.subrange(n * size, n * size + size) == slot(
                    inputs.last(),
                    bytes_per_request,
                ));
            }
        }
    }
}

/// Packs the bytes of a batch into one buffer, one place of `bytes_per_request` for each request
/// in order.
pub fn build_batch_buffer<R>(batch: &[PendingRequest<R>], bytes_per_request: usize) -> (buffer:
    Vec<u8>)
    requires
        batch.len() * bytes_per_request <= isize::MAX,
    ensures
        buffer@ == packed(inputs(batch@), bytes_per_request as nat),
        buffer@.len() == batch.len() * bytes_per_request,
{
    let mut buffer: Vec<u8> = Vec::new();
    let mut i: usize = 0;
    assert(inputs(batch@).take(0) == Seq::<Seq<u8>>::empty());
    while i < batch.len()
        invariant
            i <= batch.len(),
            buffer@ == packed(inputs(batch@).take(i as int), bytes_per_request as nat),
        decreases batch.len() - i,
    {
        let input = &batch[i].input_bytes;
        let ghost before = buffer@;
        let ghost place = slot(input@, bytes_per_request as nat);
        let mut k: usize = 0;
        while k < bytes_per_request
            invariant
                k <= bytes_per_request,
                place == slot(input@, bytes_per_request as nat),
                buffer@ == before + place.take(k as int),
            decreases bytes_per_request - k,
        {
            let byte: u8 = if k < input.len() {
                input[k]
            } else {
                0
            };
            buffer.push(byte);
            assert(place.take(k + 1) == place.take(k as int).push(byte));
            k = k + 1;
        }
        proof {
            let next = inputs(batch@).take(i + 1);
            assert(next.drop_last() == inputs(batch@).take(i as int));
            assert(next.last() == input@);
            assert(place.take(k as int) == place);
        }
        i = i + 1;
    }
    proof {
        assert(inputs(batch@).take(i as int) == inputs(batch@));
        lemma_packed_places(inputs(batch@), bytes_per_request as nat);
    }
    buffer
}

/// The batch as it is handed to the bridge.
pub fn assemble_batch<R>(batch: &[PendingRequest<R>], bytes_per_request: usize) -> (request:
    BatchRequest)
    requires
        batch.len() * bytes_per_request <= isize::MAX,
    ensures
        request.input_bytes@ == packed(inputs(batch@), bytes_per_request as nat),
        request.batch_n == batch.len(),
        request.seq_lens is None,
{
    BatchRequest {
        input_bytes: build_batch_buffer(batch, bytes_per_request),
        batch_n: batch.len(),
        seq_lens: None,
    }
}

/// The bytes can be shared out evenly among `batch_n` requests.
pub open spec fn divides(bytes: Seq<u8>, batch_n: nat) -> bool {
    batch_n > 0 && bytes.len() % batch_n == 0
}

/// The share of request `i` of `batch_n` in the bytes of one output; nothing where the bytes do
/// not divide evenly.
pub open spec fn share(bytes: Seq<u8>, i: nat, batch_n: nat) -> Seq<u8> {
    if divides(bytes, batch_n) && bytes.len() > 0 {
        let per = bytes.len() / batch_n;
        bytes.subrange((i * per) as int, ((i + 1) * per) as int)
    } else {
        Seq::empty()
    }
}

/// The share of request `i` of `batch_n` in each output.
pub open spec fn shares(outputs: Seq<Seq<u8>>, i: nat, batch_n: nat) -> Seq<Seq<u8>> {
    outputs.map_values(|bytes: Seq<u8>| share(bytes, i, batch_n))
}

/// Request `i` has a share: it is one of the batch, unless no output has bytes to share out.
pub open spec fn has_share(outputs: Seq<Seq<u8>>, i: nat, batch_n: nat) -> bool {
    forall|k: int|
        0 <= k < outputs.len() && divides(#[trigger] outputs[k], batch_n) && outputs[k].len() > 0
            ==> i < batch_n
}

proof fn lemma_share_bounds(len: nat, i: nat, batch_n: nat)
    requires
        i < batch_n,
        len % batch_n == 0,
    ensures
        batch_n * (len / batch_n) == len,
        (i + 1) * (len / batch_n) == i * (len / batch_n) + len / batch_n,
        (i + 1) * (len / batch_n) <= len,
{
    vstd::arithmetic::div_mod::lemma_fundamental_div_mod(len as int, batch_n as int);
    let per = len / batch_n;
    assert((i + 1) * per == i * per + per) by (nonlinear_arith);
    assert((i + 1) * per <= batch_n * per) by (nonlinear_arith)
        requires
            i + 1 <= batch_n,
    ;
}

fn copy_share(bytes: &Vec<u8>, i: usize, batch_n: usize) -> (part: Vec<u8>)
    requires
        divides(bytes@, batch_n as nat) && bytes.len() > 0 ==> i < batch_n,
    ensures
        part@ == share(bytes@, i as nat, batch_n as nat),
{
    let mut part: Vec<u8> = Vec::new();
    if batch_n == 0 || bytes.len() % batch_n != 0 || bytes.len() == 0 {
        return part;
    }
    let per: usize = bytes.len() / batch_n;
    proof {
        lemma_share_bounds(bytes@.len(), i as nat, batch_n as nat);
    }
    let start: usize = i * per;
    let mut k: usize = 0;
    while k < per
        invariant
            k <= per,
            start + per <= bytes.len(),
            part@ == bytes@.subrange(start as int, start + k),
        decreases per - k,
    {
        part.push(bytes[start + k]);
        k = k + 1;
    }
    part
}

/// The share of request `i` in the outputs of a batch of `batch_n`. Each output is split evenly
/// along its leading dim; one that does not divide gives no bytes.
pub fn slice_per_request(out: &BatchOutput, i: usize, batch_n: usize) -> (part: PerRequestOutput)
    requires
        has_share(views::view_all(out.outputs@), i as nat, batch_n as nat),
    ensures
        views::view_all(part.outputs@) == shares(
            views::view_all(out.outputs@),
            i as nat,
            batch_n as nat,
        ),
{
    let ghost all = views::view_all(out.outputs@);
    let ghost expected = shares(all, i as nat, batch_n as nat);
    let mut outputs: Vec<Vec<u8>> = Vec::new();
    let mut k: usize = 0;
    assert(views::view_all(outputs@) == expected.take(0));
    while k < out.outputs.len()
        invariant
            k <= out.outputs.len(),
            all == views::view_all(out.outputs@),
            expected == shares(all, i as nat, batch_n as nat),
            has_share(all, i as nat, batch_n as nat),
            views::view_all(outputs@) == expected.take(k as int),
        decreases out.outputs.len() - k,
    {
        assert(all[k as int] == out.outputs@[k as int]@);
        let ghost before = views::view_all(outputs@);
        let part = copy_share(&out.outputs[k], i, batch_n);
        outputs.push(part);
        assert(views::view_all(outputs@) == before.push(part@));
        assert(expected.take(k + 1) == before.push(part@));
        k = k + 1;
    }
    assert(expected.take(k as int) == expected);
    PerRequestOutput { outputs }
}

/// What one caller is sent: its share of the outputs, or the error of the whole batch.
#[derive(Debug)]
pub struct Delivery<R> {
    pub responder: R,
    pub result: Result<PerRequestOutput, Arc<BridgeError>>,
}

/// Each caller of a batch that ran is sent its share of the outputs.
pub fn scatter_success<R>(batch: Vec<PendingRequest<R>>, out: &BatchOutput, batch_n: usize) -> (
    deliveries: Vec<Delivery<R>>)
    requires
        forall|i: nat|
            i < batch@.len() ==> #[trigger] has_share(
                views::view_all(out.outputs@),
                i,
                batch_n as nat,
            ),
    ensures
        deliveries.len() == batch.len(),
        forall|i: int|
            0 <= i < batch.len() ==> {
                &&& (#[trigger] deliveries@[i]).responder == batch@[i].responder
                &&& deliveries@[i].result matches Ok(part) && views::view_all(part.outputs@)
                    == shares(views::view_all(out.outputs@), i as nat, batch_n as nat)
            },
{
    let mut deliveries: Vec<Delivery<R>> = Vec::new();
    for request in iter: batch
        invariant
            iter.seq() == batch@,
            forall|i: nat|
                i < batch@.len() ==> #[trigger] has_share(
                    views::view_all(out.outputs@),
                    i,
                    batch_n as nat,
                ),
            deliveries.len() == iter.index(),
            forall|i: int|
                0 <= i < deliveries.len() ==> {
                    &&& (#[trigger] deliveries@[i]).responder == batch@[i].responder
                    &&& deliveries@[i].result matches Ok(part) && views::view_all(part.outputs@)
                        == shares(views::view_all(out.outputs@), i as nat, batch_n as nat)
                },
    {
        let i = deliveries.len();
        let part = slice_per_request(out, i, batch_n);
        deliveries.push(Delivery { responder: request.responder, result: Ok(part) });
    }
    deliveries
}

/// Each caller of a batch that failed is sent the same error.
pub fn scatter_error<R>(batch: Vec<PendingRequest<R>>, error: BridgeError) -> (deliveries: Vec<
    Delivery<R>,
>)
    ensures
        deliveries.len() == batch.len(),
        forall|i: int|
            0 <= i < batch.len() ==> {
                &&& (#[trigger] deliveries@[i]).responder == batch@[i].responder
                &&& deliveries@[i].result matches Err(shared) && *shared == error
            },
{
    let shared = Arc::new(error);
    let mut deliveries: Vec<Delivery<R>> = Vec::new();
    for request in iter: batch
        invariant
            iter.seq() == batch@,
            *shared == error,
            deliveries.len() == iter.index(),
            forall|i: int|
                0 <= i < deliveries.len() ==> {
                    &&& (#[trigger] deliveries@[i]).responder == batch@[i].responder
                    &&& deliveries@[i].result matches Err(e) && *e == error
                },
    {
        deliveries.push(Delivery { responder: request.responder, result: Err(shared.clone()) });
    }
    deliveries
}

/// Packing and sharing out are inverse: of a model that gives its input back, each request gets
/// what it had put into its place of the buffer.
pub proof fn lemma_echo_returns_each_place(
    inputs: Seq<Seq<u8>>,
    bytes_per_request: nat,
    i: nat,
)
    requires
        i < inputs.len(),
    ensures
        share(packed(inputs, bytes_per_request), i, inputs.len()) == slot(
            inputs[i as int],
            bytes_per_request,
        ),
{
    lemma_packed_places(inputs, bytes_per_request);
    let n = inputs.len();
    let all = packed(inputs, bytes_per_request);
    if bytes_per_request == 0 {
        assert(all.len() == 0) by (nonlinear_arith)
            requires
                all.len() == n * bytes_per_request,
                bytes_per_request == 0,
        ;
        assert(slot(inputs[i as int], 0) == Seq::<u8>::empty());
    } else {
        assert(n * bytes_per_request == bytes_per_request * n) by (nonlinear_arith);
        vstd::arithmetic::div_mod::lemma_mod_multiples_basic(bytes_per_request as int, n as int);
        vstd::arithmetic::div_mod::lemma_div_multiples_vanish(bytes_per_request as int, n as int);
        assert(all.len() > 0) by (nonlinear_arith)
            requires
                all.len() == n * bytes_per_request,
                n > 0,
                bytes_per_request > 0,
        ;
        let k = i as int;
        assert(all.subrange(k * bytes_per_request, (k + 1) * bytes_per_request) == slot(
            inputs[k],
            bytes_per_request,
        ));
    }
}

/// A batch of requests that each have exactly the size of a place is packed without a change:
/// the buffer is the inputs one after the other.
pub proof fn lemma_exact_inputs_are_packed_unchanged(
    inputs: Seq<Seq<u8>>,
    bytes_per_request: nat,
)
    requires
        forall|i: int| 0 <= i < inputs.len() ==> (#[trigger] inputs[i]).len() == bytes_per_request,
    ensures
        packed(inputs, bytes_per_request) == joined(inputs),
    decreases inputs.len(),
{
    if inputs.len() > 0 {
        let init = inputs.drop_last();
        assert forall|i: int| 0 <= i < init.len() implies (#[trigger] init[i]).len()
            == bytes_per_request by {
            assert(inputs[i].len() == bytes_per_request);
        }
        lemma_exact_inputs_are_packed_unchanged(init, bytes_per_request);
        assert(inputs[inputs.len() - 1].len() == bytes_per_request);
        assert(slot(inputs.last(), bytes_per_request) == inputs.last());
    }
}

/// A packed batch always has the size that the bridge asks of it.
pub proof fn lemma_packed_batch_passes_size_check(
    inputs: Seq<Seq<u8>>,
    bytes_per_request: nat,
)
    requires
        inputs.len() * bytes_per_request <= usize::MAX,
    ensures
        session::size_check(
            packed(inputs, bytes_per_request).len(),
            inputs.len(),
            bytes_per_request,
        ) is Ok,
{
    lemma_packed_places(inputs, bytes_per_request);
}

/// What each event does. A request joins those that gather; it releases them only when the batch
/// is full, and otherwise nothing is released and it stays. The timer, which runs exactly while
/// requests gather, and the close of the queue release what has gathered.
pub proof fn lemma_events_of_a_batch<R>(batcher: BatcherView<R>, request: PendingRequest<R>)
    ensures
        batcher.pending.len() + 1 < batcher.max_batch_size ==> {
            &&& batcher.released(BatchEvent::Received(request)) is None
            &&& batcher.next(BatchEvent::Received(request)).pending == batcher.pending.push(request)
        },
        batcher.pending.len() + 1 >= batcher.max_batch_size ==> {
            &&& batcher.released(BatchEvent::Received(request)) == Some(
                (DispatchReason::Size, batcher.pending.push(request)),
            )
            &&& batcher.next(BatchEvent::Received(request)).pending.len() == 0
        },
        batcher.expects(BatchEvent::TimerFired) <==> batcher.pending.len() > 0,
        batcher.released(BatchEvent::TimerFired) == Some((DispatchReason::Time, batcher.pending)),
        batcher.next(BatchEvent::TimerFired).pending.len() == 0,
        batcher.pending.len() > 0 ==> batcher.released(BatchEvent::Closed) == Some(
            (DispatchReason::Closed, batcher.pending),
        ),
        batcher.pending.len() == 0 ==> batcher.released(BatchEvent::Closed) is None,
        batcher.next(BatchEvent::Closed).pending.len() == 0,
{
}

/// In any run of events, a batch that is released for its size is full, and one that is not full
/// was released by the timer or by the close of the queue.
pub proof fn lemma_only_time_and_close_cut_a_batch_short<R>(
    batcher: BatcherView<R>,
    events: Seq<BatchEvent<R>>,
    i: int,
)
    requires
        0 <= i < events.len(),
    ensures
        batcher_after(batcher, events.take(i)).released(events[i]) matches Some(
            (reason, batch),
        ) ==> {
            &&& reason == DispatchReason::Size ==> batch.len() >= batcher.max_batch_size
                && events[i] is Received
            &&& batch.len() < batcher.max_batch_size ==> events[i] is TimerFired
                || events[i] is Closed
        },
{
    lemma_batch_size_never_changes(batcher, events.take(i));
}

proof fn lemma_batch_size_never_changes<R>(batcher: BatcherView<R>, events: Seq<BatchEvent<R>>)
    ensures
        batcher_after(batcher, events).max_batch_size == batcher.max_batch_size,
    decreases events.len(),
{
    if events.len() > 0 {
        lemma_batch_size_never_changes(batcher, events.drop_last());
    }
}

/// While only requests come, every batch is full: there is one for each batch size of requests,
/// and what is left over gathers.
pub proof fn lemma_steady_requests_make_full_batches<R>(
    batcher: BatcherView<R>,
    events: Seq<BatchEvent<R>>,
)
    requires
        batcher.max_batch_size > 0,
        batcher.pending.len() < batcher.max_batch_size,
        forall|i: int| 0 <= i < events.len() ==> #[trigger] events[i] is Received,
    ensures
        batches(batcher, events).len() == (batcher.pending.len() + events.len())
            / batcher.max_batch_size,
        batcher_after(batcher, events).pending.len() == (batcher.pending.len() + events.len())
            % batcher.max_batch_size,
        forall|i: int|
            0 <= i < batches(batcher, events).len() ==> (#[trigger] batches(
                batcher,
                events,
            )[i]).len() == batcher.max_batch_size,
    decreases events.len(),
{
    let max = batcher.max_batch_size;
    let all = batcher.pending.len() + events.len();
    if events.len() == 0 {
        vstd::arithmetic::div_mod::lemma_small_mod(all, max);
        vstd::arithmetic::div_mod::lemma_basic_div(all as int, max as int);
    } else {
        let init = events.drop_last();
        assert forall|i: int| 0 <= i < init.len() implies #[trigger] init[i] is Received by {
            assert(events[i] is Received);
        }
        lemma_steady_requests_make_full_batches(batcher, init);
        lemma_batch_size_never_changes(batcher, init);
        assert(events[events.len() - 1] is Received);
        let mid = batcher_after(batcher, init);
        let before = batches(batcher, init);
        let q = before.len() as int;
        let r = mid.pending.len() as int;
        vstd::arithmetic::div_mod::lemma_fundamental_div_mod((all - 1) as int, max as int);
        assert(all == max * q + r + 1);
        assert(q * max == max * q) by (nonlinear_arith);
        assert(r < max) by {
            vstd::arithmetic::div_mod::lemma_mod_bound((all - 1) as int, max as int);
        }
        if r + 1 == max {
            assert(all == max * (q + 1)) by (nonlinear_arith)
                requires
                    all == max * q + r + 1,
                    r + 1 == max,
            ;
            vstd::arithmetic::div_mod::lemma_fundamental_div_mod_converse(
                all as int,
                max as int,
                q + 1,
                0,
            );
        } else {
            vstd::arithmetic::div_mod::lemma_fundamental_div_mod_converse(
                all as int,
                max as int,
                q,
                r + 1,
            );
        }
        assert forall|i: int| 0 <= i < batches(batcher, events).len() implies (
        #[trigger] batches(batcher, events)[i]).len() == max by {
            if i < before.len() {
                assert(batches(batcher, events)[i] == before[i]);
            }
        }
    }
}

/// Joining is one after the other.
pub proof fn lemma_joined<A>(a: Seq<Seq<A>>, part: Seq<A>)
    ensures
        joined(Seq::<Seq<A>>::empty()) == Seq::<A>::empty(),
        joined(a.push(part)) == joined(a) + part,
{
    assert(a.push(part).drop_last() == a);
}

/// The inputs of a batch are the bytes of its requests.
pub proof fn lemma_inputs_of_batch<R>(batch: Seq<PendingRequest<R>>)
    ensures
        inputs(batch).len() == batch.len(),
        forall|i: int| 0 <= i < batch.len() ==> #[trigger] inputs(batch)[i] == batch[i].input_bytes@,
{
}

/// Byte `k` of place `i` in a batch buffer is byte `k` of request `i`, or zero where the request
/// has no such byte; the buffer has no other bytes.
pub proof fn lemma_packed_bytes(inputs: Seq<Seq<u8>>, bytes_per_request: nat, i: int, k: int)
    ensures
        packed(inputs, bytes_per_request).len() == inputs.len() * bytes_per_request,
        0 <= i < inputs.len() && 0 <= k < bytes_per_request ==> 0 <= i * bytes_per_request + k
            < packed(inputs, bytes_per_request).len() && packed(inputs, bytes_per_request)[i
            * bytes_per_request + k] == (if k < inputs[i].len() {
            inputs[i][k]
        } else {
            0
        }),
{
    lemma_packed_places(inputs, bytes_per_request);
    if 0 <= i < inputs.len() && 0 <= k < bytes_per_request {
        let size = bytes_per_request as int;
        assert((i + 1) * size == i * size + size) by (nonlinear_arith);
        assert(0 <= i * size && (i + 1) * size <= inputs.len() * size) by (nonlinear_arith)
            requires
                0 <= i < inputs.len(),
                0 <= size,
        ;
        let place = packed(inputs, bytes_per_request).subrange(i * size, (i + 1) * size);
        assert(place == slot(inputs[i], bytes_per_request));
        assert(place[k] == packed(inputs, bytes_per_request)[i * size + k]);
    }
}

/// An output of `per` bytes for each of `batch_n` requests is cut into those: request `i` gets
/// the `per` bytes from `i * per` on. An output that does not divide evenly gives nobody a byte.
pub proof fn lemma_share_of_an_output(bytes: Seq<u8>, i: nat, batch_n: nat, per: nat)
    ensures
        i < batch_n && bytes.len() == batch_n * per ==> {
            &&& share(bytes, i, batch_n).len() == per
            &&& share(bytes, i, batch_n) == bytes.subrange(
                (i * per) as int,
                (i * per + per) as int,
            )
        },
        batch_n > 0 && bytes.len() % batch_n != 0 ==> share(bytes, i, batch_n).len() == 0,
        batch_n == 0 ==> share(bytes, i, batch_n).len() == 0,
{
    if i < batch_n && bytes.len() == batch_n * per {
        assert(batch_n * per == per * batch_n) by (nonlinear_arith);
        vstd::arithmetic::div_mod::lemma_mod_multiples_basic(per as int, batch_n as int);
        vstd::arithmetic::div_mod::lemma_div_multiples_vanish(per as int, batch_n as int);
        assert(bytes.len() % batch_n == 0 && bytes.len() / batch_n == per);
        lemma_share_bounds(bytes.len(), i, batch_n);
        if bytes.len() == 0 {
            assert(per == 0) by (nonlinear_arith)
                requires
                    batch_n * per == 0,
                    batch_n > 0,
            ;
            assert(i * per == 0) by (nonlinear_arith)
                requires
                    per == 0,
            ;
            assert(bytes.subrange(0, 0) == Seq::<u8>::empty());
        }
    }
}

/// A request has a share of every output, and has it wherever there is one to have.
pub proof fn lemma_shares_of_all_outputs(outputs: Seq<Seq<u8>>, i: nat, batch_n: nat)
    ensures
        shares(outputs, i, batch_n).len() == outputs.len(),
        forall|k: int|
            0 <= k < outputs.len() ==> #[trigger] shares(outputs, i, batch_n)[k] == share(
                outputs[k],
                i,
                batch_n,
            ),
        i < batch_n ==> has_share(outputs, i, batch_n),
        batch_n == 0 ==> has_share(outputs, i, batch_n),
        batch_n > 0 && (forall|k: int|
            0 <= k < outputs.len() ==> (#[trigger] outputs[k]).len() % batch_n != 0
                || outputs[k].len() == 0) ==> has_share(outputs, i, batch_n),
{
}

} // verus!
