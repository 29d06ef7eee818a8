//! Decisions of the decoded-transaction processor: deduplication before any
//! delivery downstream, and the counters kept on the way.
use crate::dedup::{observe_spec, DedupCache, TxHash};
use crate::metrics::{
    counter_inc, errors_after, ratio_of, update_dedup_ratio, PipelineMetrics, PipelineStage, bump,
};
use vstd::prelude::*;

verus! {

/// Handles one decoded transaction with hash `hash`, received at time `now`
/// (nanoseconds). It is counted as seen; a hash already cached is counted as
/// a duplicate and skipped; a new one is cached, counted as unique, and is to
/// be delivered downstream (the result is `true` exactly then). The duplicate
/// ratio is brought up to date either way.
pub fn process_decoded_tx(
    cache: &mut DedupCache,
    metrics: &mut PipelineMetrics,
    hash: TxHash,
    now: u64,
) -> (deliver: bool)
    requires
        old(cache).wf(),
    ensures
        final(cache).wf(),
        (final(cache)@, deliver) == observe_spec(old(cache)@, hash, now),
        final(metrics).mempool_tx_seen_total == counter_inc(old(metrics).mempool_tx_seen_total),
        final(metrics).mempool_tx_unique_total == if deliver {
            counter_inc(old(metrics).mempool_tx_unique_total)
        } else {
            old(metrics).mempool_tx_unique_total
        },
        final(metrics).mempool_tx_duplicates_total == if deliver {
            old(metrics).mempool_tx_duplicates_total
        } else {
            counter_inc(old(metrics).mempool_tx_duplicates_total)
        },
        final(metrics).dedup_ratio == ratio_of(
            final(metrics).mempool_tx_seen_total,
            final(metrics).mempool_tx_duplicates_total,
        ),
        *final(metrics) == (PipelineMetrics {
            mempool_tx_seen_total: final(metrics).mempool_tx_seen_total,
            mempool_tx_unique_total: final(metrics).mempool_tx_unique_total,
            mempool_tx_duplicates_total: final(metrics).mempool_tx_duplicates_total,
            dedup_ratio: final(metrics).dedup_ratio,
            ..*old(metrics)
        }),
        (old(metrics).mempool_tx_seen_total == old(metrics).mempool_tx_unique_total
            + old(metrics).mempool_tx_duplicates_total
            && old(metrics).mempool_tx_seen_total < u64::MAX)
            ==> final(metrics).mempool_tx_seen_total == final(metrics).mempool_tx_unique_total
            + final(metrics).mempool_tx_duplicates_total,
{
    metrics.mempool_tx_seen_total = bump(metrics.mempool_tx_seen_total);
    if !cache.observe(hash, now) {
        metrics.mempool_tx_duplicates_total = bump(metrics.mempool_tx_duplicates_total);
        update_dedup_ratio(metrics);
        return false;
    }
    metrics.mempool_tx_unique_total = bump(metrics.mempool_tx_unique_total);
    update_dedup_ratio(metrics);
    true
}

/// Records the outcome of delivering one transaction downstream: a delivery
/// is counted, a failure is counted as a `redis_push` error. The result tells
/// whether the queue depth is to be read next (after a delivery only).
pub fn record_redis_push(metrics: &mut PipelineMetrics, delivered: bool) -> (read_depth: bool)
    ensures
        read_depth == delivered,
        delivered ==> *final(metrics) == (PipelineMetrics {
            redis_push_total: counter_inc(old(metrics).redis_push_total),
            ..*old(metrics)
        }),
        !delivered ==> *final(metrics) == (PipelineMetrics {
            pipeline_errors_total: errors_after(
                old(metrics).pipeline_errors_total,
                PipelineStage::RedisPush,
            ),
            ..*old(metrics)
        }),
{
    if delivered {
        metrics.redis_push_total = bump(metrics.redis_push_total);
        true
    } else {
        metrics.record_error(PipelineStage::RedisPush);
        false
    }
}

/// Records the result of reading the downstream queue's length: a length
/// read becomes the queue depth; a failed read is counted as a
/// `redis_queue_depth` error and leaves the depth as it was.
pub fn record_queue_depth(metrics: &mut PipelineMetrics, depth: Option<i64>)
    ensures
        depth matches Some(d) ==> *final(metrics) == (PipelineMetrics {
            redis_queue_depth: d,
            ..*old(metrics)
        }),
        depth is None ==> *final(metrics) == (PipelineMetrics {
            pipeline_errors_total: errors_after(
                old(metrics).pipeline_errors_total,
                PipelineStage::RedisQueueDepth,
            ),
            ..*old(metrics)
        }),
{
    match depth {
        Some(d) => {
            metrics.redis_queue_depth = d;
        },
        None => {
            metrics.record_error(PipelineStage::RedisQueueDepth);
        },
    }
}

} // verus!
