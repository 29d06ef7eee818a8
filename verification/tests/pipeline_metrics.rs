use mempool_listener::dedup::DedupCache;
use mempool_listener::metrics::{bump, init, update_dedup_ratio, PipelineStage};
use mempool_listener::processor::{process_decoded_tx, record_queue_depth, record_redis_push};

#[test]
fn init_starts_everything_at_zero() {
    let m = init();
    assert_eq!(m.p2p_peers_connected, 0);
    assert_eq!(m.mempool_tx_seen_total, 0);
    assert_eq!(m.mempool_tx_unique_total, 0);
    assert_eq!(m.mempool_tx_duplicates_total, 0);
    assert_eq!(m.dedup_ratio.numerator, 0);
    assert_eq!(m.dedup_ratio.denominator, 1);
    assert_eq!(m.redis_push_total, 0);
    assert_eq!(m.redis_queue_depth, 0);
    let e = &m.pipeline_errors_total;
    assert_eq!(
        (e.tx_forward, e.pool_request, e.hash_mismatch, e.redis_push, e.redis_queue_depth),
        (0, 0, 0, 0, 0)
    );
}

#[test]
fn ratio_with_nothing_seen_is_zero() {
    let mut m = init();
    m.mempool_tx_duplicates_total = 3;
    update_dedup_ratio(&mut m);
    assert_eq!((m.dedup_ratio.numerator, m.dedup_ratio.denominator), (0, 1));
}

#[test]
fn ratio_is_duplicates_over_seen() {
    let mut m = init();
    m.mempool_tx_seen_total = 4;
    m.mempool_tx_duplicates_total = 1;
    update_dedup_ratio(&mut m);
    assert_eq!((m.dedup_ratio.numerator, m.dedup_ratio.denominator), (1, 4));
    assert_eq!(m.mempool_tx_seen_total, 4);
}

#[test]
fn counters_wrap_past_max() {
    assert_eq!(bump(0), 1);
    assert_eq!(bump(41), 42);
    assert_eq!(bump(u64::MAX), 0);
}

#[test]
fn stage_labels() {
    assert_eq!(PipelineStage::TxForward.label(), "tx_forward");
    assert_eq!(PipelineStage::PoolRequest.label(), "pool_request");
    assert_eq!(PipelineStage::HashMismatch.label(), "hash_mismatch");
    assert_eq!(PipelineStage::RedisPush.label(), "redis_push");
    assert_eq!(PipelineStage::RedisQueueDepth.label(), "redis_queue_depth");
}

#[test]
fn each_stage_counts_its_own_errors() {
    let mut m = init();
    m.record_error(PipelineStage::TxForward);
    m.record_error(PipelineStage::PoolRequest);
    m.record_error(PipelineStage::PoolRequest);
    m.record_error(PipelineStage::HashMismatch);
    m.record_error(PipelineStage::RedisPush);
    m.record_error(PipelineStage::RedisQueueDepth);
    m.record_error(PipelineStage::RedisQueueDepth);
    m.record_error(PipelineStage::RedisQueueDepth);
    let e = &m.pipeline_errors_total;
    assert_eq!(
        (e.tx_forward, e.pool_request, e.hash_mismatch, e.redis_push, e.redis_queue_depth),
        (1, 2, 1, 1, 3)
    );
    assert_eq!(m.mempool_tx_seen_total, 0);
}

#[test]
fn processor_counts_unique_and_duplicate() {
    let mut cache = DedupCache::new(100, 1_000);
    let mut m = init();
    assert!(process_decoded_tx(&mut cache, &mut m, (1, 1), 0));
    assert!(!process_decoded_tx(&mut cache, &mut m, (1, 1), 1));
    assert!(process_decoded_tx(&mut cache, &mut m, (2, 2), 2));
    assert!(!process_decoded_tx(&mut cache, &mut m, (1, 1), 3));
    assert_eq!(m.mempool_tx_seen_total, 4);
    assert_eq!(m.mempool_tx_unique_total, 2);
    assert_eq!(m.mempool_tx_duplicates_total, 2);
    assert_eq!(
        m.mempool_tx_seen_total,
        m.mempool_tx_unique_total + m.mempool_tx_duplicates_total
    );
    assert_eq!((m.dedup_ratio.numerator, m.dedup_ratio.denominator), (2, 4));
}

#[test]
fn processor_ratio_after_single_unique_is_zero_over_one() {
    let mut cache = DedupCache::new(100, 1_000);
    let mut m = init();
    assert!(process_decoded_tx(&mut cache, &mut m, (9, 9), 0));
    assert_eq!((m.dedup_ratio.numerator, m.dedup_ratio.denominator), (0, 1));
}

#[test]
fn redis_push_success_counts_delivery() {
    let mut m = init();
    assert!(record_redis_push(&mut m, true));
    assert_eq!(m.redis_push_total, 1);
    assert_eq!(m.pipeline_errors_total.redis_push, 0);
}

#[test]
fn redis_push_failure_counts_error() {
    let mut m = init();
    assert!(!record_redis_push(&mut m, false));
    assert_eq!(m.redis_push_total, 0);
    assert_eq!(m.pipeline_errors_total.redis_push, 1);
}

#[test]
fn queue_depth_is_recorded_or_error_counted() {
    let mut m = init();
    record_queue_depth(&mut m, Some(17));
    assert_eq!(m.redis_queue_depth, 17);
    record_queue_depth(&mut m, None);
    assert_eq!(m.redis_queue_depth, 17);
    assert_eq!(m.pipeline_errors_total.redis_queue_depth, 1);
}
