use std::sync::Arc;

use apex::config::{BridgeRuntimeKind, ModelConfig, ModelKind};
use apex::dispatcher::{
    assemble_batch, build_batch_buffer, scatter_error, scatter_success, slice_per_request, Batcher,
    BucketConfig, DispatchReason, PendingRequest, TimerAction,
};
use apex::error::BridgeError;
use apex::ort_bridge::BatchOutput;

fn req_with_bytes(bytes: Vec<u8>) -> PendingRequest<()> {
    PendingRequest { input_bytes: bytes, seq_len: None, responder: () }
}

fn numbered(n: u32) -> PendingRequest<u32> {
    PendingRequest { input_bytes: vec![n as u8], seq_len: None, responder: n }
}

fn numbers(batch: &[PendingRequest<u32>]) -> Vec<u32> {
    batch.iter().map(|request| request.responder).collect()
}

#[test]
fn batch_buffer_packs_requests_in_order() {
    let bpr = 4;
    let batch = vec![
        req_with_bytes(vec![1, 2, 3, 4]),
        req_with_bytes(vec![5, 6, 7, 8]),
        req_with_bytes(vec![9, 10, 11, 12]),
    ];
    let buf = build_batch_buffer(&batch, bpr);
    assert_eq!(buf, vec![1, 2, 3, 4, 5, 6, 7, 8, 9, 10, 11, 12]);
}

#[test]
fn batch_buffer_pads_short_requests_with_zero() {
    let bpr = 4;
    let batch = vec![req_with_bytes(vec![1, 2]), req_with_bytes(vec![5, 6, 7, 8])];
    let buf = build_batch_buffer(&batch, bpr);
    assert_eq!(buf, vec![1, 2, 0, 0, 5, 6, 7, 8]);
}

#[test]
fn batch_buffer_truncates_overlength_requests() {
    let bpr = 4;
    let batch = vec![req_with_bytes(vec![1, 2, 3, 4, 5, 6])];
    let buf = build_batch_buffer(&batch, bpr);
    assert_eq!(buf, vec![1, 2, 3, 4]);
}

#[test]
fn slice_per_request_slices_along_leading_dim() {
    let out = BatchOutput {
        outputs: vec![
            vec![10, 20, 30, 40, 50, 60, 70, 80], // batch_n=4, 2 bytes per req
            vec![1, 2, 3, 4],                     // batch_n=4, 1 byte per req
        ],
        output_shapes: vec![vec![4, 2], vec![4, 1]],
    };
    let r0 = slice_per_request(&out, 0, 4);
    assert_eq!(r0.outputs, vec![vec![10, 20], vec![1]]);
    let r2 = slice_per_request(&out, 2, 4);
    assert_eq!(r2.outputs, vec![vec![50, 60], vec![3]]);
}

#[test]
fn slice_per_request_yields_empty_when_batch_size_mismatches_output() {
    let out = BatchOutput {
        outputs: vec![vec![1, 2, 3, 4, 5]], // not divisible by 2
        output_shapes: vec![vec![2, 2]],
    };
    let r = slice_per_request(&out, 0, 2);
    assert_eq!(r.outputs, vec![Vec::<u8>::new()]);
}

#[test]
fn slice_of_an_empty_batch_is_empty() {
    let out = BatchOutput { outputs: vec![vec![1, 2]], output_shapes: vec![vec![2]] };
    assert_eq!(slice_per_request(&out, 0, 0).outputs, vec![Vec::<u8>::new()]);
}

#[test]
fn echoed_batch_gives_each_request_its_place() {
    let batch = vec![
        req_with_bytes(vec![1, 2, 3, 4]),
        req_with_bytes(vec![5, 6]),
        req_with_bytes(vec![7, 8, 9, 10, 11]),
    ];
    let packed = build_batch_buffer(&batch, 4);
    let out = BatchOutput { outputs: vec![packed], output_shapes: vec![vec![3, 4]] };
    assert_eq!(slice_per_request(&out, 0, 3).outputs, vec![vec![1, 2, 3, 4]]);
    assert_eq!(slice_per_request(&out, 1, 3).outputs, vec![vec![5, 6, 0, 0]]);
    assert_eq!(slice_per_request(&out, 2, 3).outputs, vec![vec![7, 8, 9, 10]]);
}

#[test]
fn empty_batch_has_an_empty_buffer() {
    let batch: Vec<PendingRequest<()>> = vec![];
    assert_eq!(build_batch_buffer(&batch, 4), Vec::<u8>::new());
}

#[test]
fn assembled_batch_has_its_size_and_no_sequence_lengths() {
    let batch = vec![req_with_bytes(vec![1]), req_with_bytes(vec![2, 3])];
    let request = assemble_batch(&batch, 2);
    assert_eq!(request.input_bytes, vec![1, 0, 2, 3]);
    assert_eq!(request.batch_n, 2);
    assert_eq!(request.seq_lens, None);
}

#[test]
fn first_request_starts_the_timer_and_the_last_fills_the_batch() {
    let mut batcher: Batcher<u32> = Batcher::new(3);
    assert!(!batcher.timer_runs());

    let step = batcher.on_request(numbered(1));
    assert_eq!(step.timer, TimerAction::Start);
    assert_eq!(step.depth, Some(1));
    assert!(step.dispatch.is_none());
    assert!(!step.stop);
    assert!(batcher.timer_runs());

    let step = batcher.on_request(numbered(2));
    assert_eq!(step.timer, TimerAction::Keep);
    assert_eq!(step.depth, Some(2));
    assert!(step.dispatch.is_none());

    let step = batcher.on_request(numbered(3));
    assert_eq!(step.timer, TimerAction::Stop);
    assert_eq!(step.depth, Some(0));
    let (reason, batch) = step.dispatch.expect("full batch");
    assert_eq!(reason, DispatchReason::Size);
    assert_eq!(numbers(&batch), vec![1, 2, 3]);
    assert!(!batcher.timer_runs());
}

#[test]
fn timer_releases_what_has_gathered() {
    let mut batcher: Batcher<u32> = Batcher::new(8);
    batcher.on_request(numbered(1));
    batcher.on_request(numbered(2));
    let step = batcher.on_timer();
    assert_eq!(step.timer, TimerAction::Stop);
    assert_eq!(step.depth, Some(0));
    assert!(!step.stop);
    let (reason, batch) = step.dispatch.expect("gathered batch");
    assert_eq!(reason, DispatchReason::Time);
    assert_eq!(numbers(&batch), vec![1, 2]);
    assert!(!batcher.timer_runs());
}

#[test]
fn close_releases_the_rest_and_ends() {
    let mut batcher: Batcher<u32> = Batcher::new(8);
    batcher.on_request(numbered(1));
    let step = batcher.on_close();
    assert!(step.stop);
    assert_eq!(step.depth, Some(0));
    let (reason, batch) = step.dispatch.expect("remaining batch");
    assert_eq!(reason, DispatchReason::Closed);
    assert_eq!(numbers(&batch), vec![1]);

    let mut idle: Batcher<u32> = Batcher::new(8);
    let step = idle.on_close();
    assert!(step.stop);
    assert_eq!(step.depth, None);
    assert!(step.dispatch.is_none());
}

#[test]
fn batch_size_of_one_dispatches_each_request() {
    let mut batcher: Batcher<u32> = Batcher::new(1);
    for n in 0..3 {
        let (reason, batch) = batcher.on_request(numbered(n)).dispatch.expect("full batch");
        assert_eq!(reason, DispatchReason::Size);
        assert_eq!(numbers(&batch), vec![n]);
    }
}

#[test]
fn every_request_is_dispatched_once_in_order() {
    let mut batcher: Batcher<u32> = Batcher::new(4);
    let mut dispatched: Vec<u32> = vec![];
    let mut sizes: Vec<usize> = vec![];
    for n in 0..11 {
        let step = batcher.on_request(numbered(n));
        if let Some((_, batch)) = step.dispatch {
            sizes.push(batch.len());
            dispatched.extend(numbers(&batch));
        }
        if n == 5 {
            let (_, batch) = batcher.on_timer().dispatch.expect("gathered batch");
            sizes.push(batch.len());
            dispatched.extend(numbers(&batch));
        }
    }
    let (_, batch) = batcher.on_close().dispatch.expect("remaining batch");
    sizes.push(batch.len());
    dispatched.extend(numbers(&batch));
    assert_eq!(dispatched, (0..11).collect::<Vec<u32>>());
    assert_eq!(sizes, vec![4, 2, 4, 1]);
}

#[test]
fn dispatch_labels() {
    assert_eq!(DispatchReason::Time.label(), Some("time"));
    assert_eq!(DispatchReason::Size.label(), Some("size"));
    assert_eq!(DispatchReason::Closed.label(), None);
}

#[test]
fn success_is_scattered_in_order() {
    let batch = vec![numbered(7), numbered(8)];
    let out = BatchOutput { outputs: vec![vec![1, 2, 3, 4]], output_shapes: vec![vec![2, 2]] };
    let deliveries = scatter_success(batch, &out, 2);
    assert_eq!(deliveries.len(), 2);
    assert_eq!(deliveries[0].responder, 7);
    assert_eq!(deliveries[0].result.as_ref().expect("share").outputs, vec![vec![1, 2]]);
    assert_eq!(deliveries[1].responder, 8);
    assert_eq!(deliveries[1].result.as_ref().expect("share").outputs, vec![vec![3, 4]]);
}

#[test]
fn outputs_that_do_not_divide_are_scattered_empty() {
    let odd = BatchOutput { outputs: vec![vec![1, 2, 3]], output_shapes: vec![vec![3]] };
    for delivery in scatter_success(vec![numbered(7), numbered(8), numbered(9)], &odd, 2) {
        assert_eq!(delivery.result.expect("share").outputs, vec![Vec::<u8>::new()]);
    }
    for delivery in scatter_success(vec![numbered(7)], &odd, 0) {
        assert_eq!(delivery.result.expect("share").outputs, vec![Vec::<u8>::new()]);
    }
}

#[test]
fn error_is_sent_to_every_request() {
    let batch = vec![numbered(7), numbered(8)];
    let deliveries = scatter_error(batch, BridgeError::RunFailed("boom".to_string()));
    assert_eq!(deliveries.len(), 2);
    let first: &Arc<BridgeError> = deliveries[0].result.as_ref().expect_err("error");
    let second: &Arc<BridgeError> = deliveries[1].result.as_ref().expect_err("error");
    assert_eq!(first.message(), "ort::Session::run failed: boom");
    assert!(Arc::ptr_eq(first, second));
    assert_eq!(deliveries[1].responder, 8);
}

#[test]
fn bucket_follows_the_model() {
    let mut model = ModelConfig {
        name: "m".to_string(),
        version: "1".to_string(),
        path: "/models/m.onnx".to_string(),
        kind: ModelKind::FixedShape,
        max_batch_size: 8,
        max_queue_delay_us: 2000,
        intra_op_threads: 1,
        queue_capacity: Some(256),
        runtime: BridgeRuntimeKind::Blocking,
        seq_len_buckets: None,
        requires_attention_mask: false,
    };
    let bucket = BucketConfig::for_model(&model);
    assert_eq!(bucket.max_batch_size, 8);
    assert_eq!(bucket.max_queue_delay_us, 2000);
    assert_eq!(bucket.queue_capacity, 256);
    assert_eq!(bucket.channel_depth(), 256);
    model.queue_capacity = Some(2);
    assert_eq!(BucketConfig::for_model(&model).channel_depth(), 8);
}
