//! The listener's pipeline counters: connected peers, transactions seen,
//! unique and duplicate transactions, the duplicate ratio, deliveries to the
//! downstream queue, its depth, and errors by pipeline stage.
//!
//! Counters wrap around at `u64::MAX`, as Prometheus integer counters do.
use vstd::prelude::*;

verus! {

/// A counter after one increment: it wraps to zero past `u64::MAX`.
pub open spec fn counter_inc(c: u64) -> u64 {
    if c == u64::MAX {
        0
    } else {
        (c + 1) as u64
    }
}

/// Increments a counter, wrapping to zero past `u64::MAX`.
pub fn bump(c: u64) -> (r: u64)
    ensures
        r == counter_inc(c),
{
    if c == u64::MAX {
        0
    } else {
        c + 1
    }
}

/// The duplicate ratio `duplicates / seen` as a fraction whose denominator is
/// never zero; with nothing seen yet it is `0 / 1`.
pub struct DedupRatio {
    pub numerator: u64,
    pub denominator: u64,
}

/// The stages of the pipeline at which errors are counted.
#[derive(PartialEq, Eq, Structural, Clone, Copy, Debug)]
pub enum PipelineStage {
    TxForward,
    PoolRequest,
    HashMismatch,
    RedisPush,
    RedisQueueDepth,
}

/// Error counts, one per pipeline stage.
pub struct PipelineErrors {
    pub tx_forward: u64,
    pub pool_request: u64,
    pub hash_mismatch: u64,
    pub redis_push: u64,
    pub redis_queue_depth: u64,
}

pub struct PipelineMetrics {
    /// Number of currently connected peers.
    pub p2p_peers_connected: i64,
    /// Transactions seen before deduplication.
    pub mempool_tx_seen_total: u64,
    /// Transactions found new by deduplication.
    pub mempool_tx_unique_total: u64,
    /// Transactions skipped as duplicates.
    pub mempool_tx_duplicates_total: u64,
    /// Current `duplicates / seen`.
    pub dedup_ratio: DedupRatio,
    /// Transactions delivered to the downstream queue.
    pub redis_push_total: u64,
    /// Last known length of the downstream queue.
    pub redis_queue_depth: i64,
    /// Errors by pipeline stage.
    pub pipeline_errors_total: PipelineErrors,
}

/// The duplicate ratio for the given counts: `0 / 1` when nothing was seen.
pub open spec fn ratio_of(seen: u64, duplicates: u64) -> DedupRatio {
    if seen == 0 {
        DedupRatio { numerator: 0, denominator: 1 }
    } else {
        DedupRatio { numerator: duplicates, denominator: seen }
    }
}

/// The error counts with the count of `stage` incremented.
pub open spec fn errors_after(e: PipelineErrors, stage: PipelineStage) -> PipelineErrors {
    match stage {
        PipelineStage::TxForward => PipelineErrors { tx_forward: counter_inc(e.tx_forward), ..e },
        PipelineStage::PoolRequest => PipelineErrors {
            pool_request: counter_inc(e.pool_request),
            ..e
        },
        PipelineStage::HashMismatch => PipelineErrors {
            hash_mismatch: counter_inc(e.hash_mismatch),
            ..e
        },
        PipelineStage::RedisPush => PipelineErrors { redis_push: counter_inc(e.redis_push), ..e },
        PipelineStage::RedisQueueDepth => PipelineErrors {
            redis_queue_depth: counter_inc(e.redis_queue_depth),
            ..e
        },
    }
}

/// A counter steps up by one, and only `u64::MAX` wraps, to zero.
pub proof fn lemma_counter_inc(c: u64)
    ensures
        c < u64::MAX ==> counter_inc(c) == c + 1,
        c == u64::MAX ==> counter_inc(c) == 0,
{
}

/// The duplicate ratio is `duplicates / seen` once something was seen, and
/// `0 / 1` before: its value lies in `[0, 1]` whenever the duplicates are
/// among the seen, and its denominator is never zero.
pub proof fn lemma_ratio(seen: u64, duplicates: u64)
    ensures
        seen == 0 ==> ratio_of(seen, duplicates).numerator == 0 && ratio_of(
            seen,
            duplicates,
        ).denominator == 1,
        seen > 0 ==> ratio_of(seen, duplicates).numerator == duplicates && ratio_of(
            seen,
            duplicates,
        ).denominator == seen,
        ratio_of(seen, duplicates).denominator > 0,
        duplicates <= seen ==> ratio_of(seen, duplicates).numerator <= ratio_of(
            seen,
            duplicates,
        ).denominator,
{
}

/// Counting an error at one stage steps that stage's count and leaves the
/// other four as they were.
pub proof fn lemma_errors_after(e: PipelineErrors, stage: PipelineStage)
    ensures
        errors_after(e, stage).tx_forward == if stage == PipelineStage::TxForward {
            counter_inc(e.tx_forward)
        } else {
            e.tx_forward
        },
        errors_after(e, stage).pool_request == if stage == PipelineStage::PoolRequest {
            counter_inc(e.pool_request)
        } else {
            e.pool_request
        },
        errors_after(e, stage).hash_mismatch == if stage == PipelineStage::HashMismatch {
            counter_inc(e.hash_mismatch)
        } else {
            e.hash_mismatch
        },
        errors_after(e, stage).redis_push == if stage == PipelineStage::RedisPush {
            counter_inc(e.redis_push)
        } else {
            e.redis_push
        },
        errors_after(e, stage).redis_queue_depth == if stage == PipelineStage::RedisQueueDepth {
            counter_inc(e.redis_queue_depth)
        } else {
            e.redis_queue_depth
        },
{
}

impl PipelineStage {
    /// The label under which the stage's errors are exported.
    pub fn label(&self) -> (s: &'static str)
        ensures
            *self == PipelineStage::TxForward ==> s@ == "tx_forward"@,
            *self == PipelineStage::PoolRequest ==> s@ == "pool_request"@,
            *self == PipelineStage::HashMismatch ==> s@ == "hash_mismatch"@,
            *self == PipelineStage::RedisPush ==> s@ == "redis_push"@,
            *self == PipelineStage::RedisQueueDepth ==> s@ == "redis_queue_depth"@,
    {
        match self {
            PipelineStage::TxForward => "tx_forward",
            PipelineStage::PoolRequest => "pool_request",
            PipelineStage::HashMismatch => "hash_mismatch",
            PipelineStage::RedisPush => "redis_push",
            PipelineStage::RedisQueueDepth => "redis_queue_depth",
        }
    }
}

/// All metrics at their starting values: every counter and gauge at zero,
/// the duplicate ratio at `0 / 1`, and a zero error count for each of the
/// five pipeline stages.
pub fn init() -> (m: PipelineMetrics)
    ensures
        m.p2p_peers_connected == 0,
        m.mempool_tx_seen_total == 0,
        m.mempool_tx_unique_total == 0,
        m.mempool_tx_duplicates_total == 0,
        m.dedup_ratio == ratio_of(0, 0),
        m.redis_push_total == 0,
        m.redis_queue_depth == 0,
        m.pipeline_errors_total == (PipelineErrors {
            tx_forward: 0,
            pool_request: 0,
            hash_mismatch: 0,
            redis_push: 0,
            redis_queue_depth: 0,
        }),
{
    PipelineMetrics {
        p2p_peers_connected: 0,
        mempool_tx_seen_total: 0,
        mempool_tx_unique_total: 0,
        mempool_tx_duplicates_total: 0,
        dedup_ratio: DedupRatio { numerator: 0, denominator: 1 },
        redis_push_total: 0,
        redis_queue_depth: 0,
        pipeline_errors_total: PipelineErrors {
            tx_forward: 0,
            pool_request: 0,
            hash_mismatch: 0,
            redis_push: 0,
            redis_queue_depth: 0,
        },
    }
}

/// Sets the duplicate ratio from the seen and duplicate counts: `0 / 1` when
/// nothing was seen, else `duplicates / seen`. Nothing else changes.
pub fn update_dedup_ratio(metrics: &mut PipelineMetrics)
    ensures
        final(metrics).dedup_ratio == ratio_of(
            old(metrics).mempool_tx_seen_total,
            old(metrics).mempool_tx_duplicates_total,
        ),
        final(metrics).dedup_ratio.denominator > 0,
        old(metrics).mempool_tx_duplicates_total <= old(metrics).mempool_tx_seen_total
            ==> final(metrics).dedup_ratio.numerator <= final(metrics).dedup_ratio.denominator,
        *final(metrics) == (PipelineMetrics { dedup_ratio: final(metrics).dedup_ratio, ..*old(metrics) }),
{
    let seen = metrics.mempool_tx_seen_total;
    if seen == 0 {
        metrics.dedup_ratio = DedupRatio { numerator: 0, denominator: 1 };
        return ;
    }
    let duplicates = metrics.mempool_tx_duplicates_total;
    metrics.dedup_ratio = DedupRatio { numerator: duplicates, denominator: seen };
}

impl PipelineMetrics {
    /// Counts one error at `stage`; nothing else changes.
    pub fn record_error(&mut self, stage: PipelineStage)
        ensures
            *final(self) == (PipelineMetrics {
                pipeline_errors_total: errors_after(old(self).pipeline_errors_total, stage),
                ..*old(self)
            }),
    {
        match stage {
            PipelineStage::TxForward => {
                self.pipeline_errors_total.tx_forward = bump(self.pipeline_errors_total.tx_forward);
            },
            PipelineStage::PoolRequest => {
                self.pipeline_errors_total.pool_request = bump(
                    self.pipeline_errors_total.pool_request,
                );
            },
            PipelineStage::HashMismatch => {
                self.pipeline_errors_total.hash_mismatch = bump(
                    self.pipeline_errors_total.hash_mismatch,
                );
            },
            PipelineStage::RedisPush => {
                self.pipeline_errors_total.redis_push = bump(self.pipeline_errors_total.redis_push);
            },
            PipelineStage::RedisQueueDepth => {
                self.pipeline_errors_total.redis_queue_depth = bump(
                    self.pipeline_errors_total.redis_queue_depth,
                );
            },
        }
    }
}

} // verus!
