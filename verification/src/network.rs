//! Decisions of the P2P event handler: the table of connected peers, and
//! what to do with each transaction event that a peer sends.
use crate::dedup::TxHash;
use crate::metrics::{counter_inc, errors_after, PipelineErrors, PipelineMetrics, PipelineStage};
use dashmap::DashMap;
use vstd::prelude::*;

verus! {

/// A 512-bit node id, as four 128-bit words, most significant first.
pub type PeerId = (u128, u128, u128, u128);

/// What the handler keeps of an established session.
pub struct SessionInfo {
    pub peer_id: PeerId,
    pub client_version: String,
}

/// The entry kept for a connected peer.
pub struct PeerSessionInfo {
    pub session_info: SessionInfo,
}

/// `dashmap::DashMap`, the concurrent map that holds the connected peers; its
/// contents are known only through `peer_table` and the three calls below.
#[verifier::external_type_specification]
#[verifier::external_body]
#[verifier::reject_recursive_types(K)]
#[verifier::reject_recursive_types(V)]
#[verifier::reject_recursive_types(S)]
pub struct ExDashMap<K, V, S>(DashMap<K, V, S>);

/// The entries of a peer table, by node id: what `DashMap` holds.
pub uninterp spec fn peer_table(table: DashMap<PeerId, PeerSessionInfo>) -> Map<PeerId, PeerSessionInfo>;

/// Calls `DashMap::insert`: the table afterwards maps `peer` to `info` and
/// is otherwise unchanged; the value replaced, if any, is returned.
#[verifier::external_body]
fn peer_table_insert(
    table: &mut DashMap<PeerId, PeerSessionInfo>,
    peer: PeerId,
    info: PeerSessionInfo,
) -> (replaced: Option<PeerSessionInfo>)
    ensures
        peer_table(*final(table)) == peer_table(*old(table)).insert(peer, info),
        peer_table(*final(table)).dom().finite(),
        replaced == (if peer_table(*old(table)).contains_key(peer) {
            Some(peer_table(*old(table))[peer])
        } else {
            None
        }),
{
    table.insert(peer, info)
}

/// Calls `DashMap::remove`: the table afterwards has no entry for `peer`
/// and is otherwise unchanged; the entry removed, if any, is returned.
#[verifier::external_body]
fn peer_table_remove(table: &mut DashMap<PeerId, PeerSessionInfo>, peer: &PeerId) -> (removed:
    Option<(PeerId, PeerSessionInfo)>)
    ensures
        peer_table(*final(table)) == peer_table(*old(table)).remove(*peer),
        peer_table(*final(table)).dom().finite(),
        removed == (if peer_table(*old(table)).contains_key(*peer) {
            Some((*peer, peer_table(*old(table))[*peer]))
        } else {
            None
        }),
{
    table.remove(peer)
}

/// Calls `DashMap::new`: a table with no entries.
#[verifier::external_body]
fn peer_table_new() -> (fresh: DashMap<PeerId, PeerSessionInfo>)
    ensures
        peer_table(fresh).dom().finite(),
        peer_table(fresh).len() == 0,
{
    DashMap::new()
}

/// Calls `DashMap::len`: the number of entries in the table.
#[verifier::external_body]
fn peer_table_len(table: &DashMap<PeerId, PeerSessionInfo>) -> (n: usize)
    ensures
        n == peer_table(*table).len(),
{
    table.len()
}

/// Peer events the handler listens to.
pub enum PeerEvent {
    SessionClosed { peer_id: PeerId },
    SessionEstablished(SessionInfo),
    PeerAdded(PeerId),
    PeerRemoved(PeerId),
}

/// Network events the handler listens to.
pub enum NetworkEvent {
    Peer(PeerEvent),
    ActivePeerSession { info: SessionInfo },
}

/// The peer table after a session with `info` is established.
pub open spec fn table_after_session(
    table: Map<PeerId, PeerSessionInfo>,
    info: SessionInfo,
) -> Map<PeerId, PeerSessionInfo> {
    table.insert(info.peer_id, PeerSessionInfo { session_info: info })
}

/// The peer table after a peer event: an established session adds (or
/// replaces) the peer's entry, a closed session removes it, and the other
/// events change nothing.
pub open spec fn table_after_peer_event(
    table: Map<PeerId, PeerSessionInfo>,
    event: PeerEvent,
) -> Map<PeerId, PeerSessionInfo> {
    match event {
        PeerEvent::SessionEstablished(info) => table_after_session(table, info),
        PeerEvent::SessionClosed { peer_id } => table.remove(peer_id),
        _ => table,
    }
}

/// The number of peers after a session with `peer` is established: one
/// more exactly when the peer was not yet connected.
pub open spec fn count_after_session(table: Map<PeerId, PeerSessionInfo>, peer: PeerId) -> int {
    table.len() + if table.contains_key(peer) {
        0int
    } else {
        1int
    }
}

/// The number of peers after the session with `peer` is closed: one fewer
/// exactly when the peer was connected.
pub open spec fn count_after_close(table: Map<PeerId, PeerSessionInfo>, peer: PeerId) -> int {
    table.len() - if table.contains_key(peer) {
        1int
    } else {
        0int
    }
}

/// The number of peers after a peer event.
pub open spec fn count_after_peer_event(table: Map<PeerId, PeerSessionInfo>, event: PeerEvent) -> int {
    match event {
        PeerEvent::SessionEstablished(info) => count_after_session(table, info.peer_id),
        PeerEvent::SessionClosed { peer_id } => count_after_close(table, peer_id),
        _ => table.len() as int,
    }
}

/// The number of peers after a network event.
pub open spec fn count_after_network_event(table: Map<PeerId, PeerSessionInfo>, event: NetworkEvent) -> int {
    match event {
        NetworkEvent::Peer(pe) => count_after_peer_event(table, pe),
        NetworkEvent::ActivePeerSession { info } => count_after_session(table, info.peer_id),
    }
}

/// Whether a peer event is about a session (and so updates the peer count).
pub open spec fn is_session_event(event: PeerEvent) -> bool {
    event is SessionEstablished || event is SessionClosed
}

/// The peer table after a network event.
pub open spec fn table_after_network_event(
    table: Map<PeerId, PeerSessionInfo>,
    event: NetworkEvent,
) -> Map<PeerId, PeerSessionInfo> {
    match event {
        NetworkEvent::Peer(pe) => table_after_peer_event(table, pe),
        NetworkEvent::ActivePeerSession { info } => table_after_session(table, info),
    }
}

/// Whether a network event updates the peer count.
pub open spec fn network_event_counts_peers(event: NetworkEvent) -> bool {
    match event {
        NetworkEvent::Peer(pe) => is_session_event(pe),
        NetworkEvent::ActivePeerSession { .. } => true,
    }
}

/// Announcement of new pooled transactions, by hash.
pub enum NewPooledTransactionHashes {
    Eth66(Vec<TxHash>),
    Eth68 { hashes: Vec<TxHash> },
}

/// Transaction events the handler listens to. Full transactions are held by
/// the caller; here each is known by its hash, in the order received.
pub enum NetworkTransactionEvent {
    IncomingTransactions { peer_id: PeerId, transactions: Vec<TxHash> },
    IncomingPooledTransactionHashes { peer_id: PeerId, msg: NewPooledTransactionHashes },
    GetPooledTransactions { peer_id: PeerId, request: Vec<TxHash> },
    GetTransactionsHandle,
}

/// What the caller is to do after a transaction event.
pub enum TransactionAction {
    /// Forward each of the `count` transactions received from the peer to
    /// the processor, in order.
    ForwardAll { peer_id: PeerId, count: usize },
    /// Ask the peer for the full transactions with these hashes.
    RequestPooled { peer_id: PeerId, hashes: Vec<TxHash> },
    /// Answer the peer's request with no transactions.
    RespondEmpty { peer_id: PeerId },
    /// Nothing to do.
    Ignore,
}

/// The outcome of asking a peer for pooled transactions: for each
/// transaction received, the hash the peer gave and the hash computed from
/// the transaction itself; or a failed request; or an answer that never came.
pub enum PooledTransactionsResponse {
    Received(Vec<(TxHash, TxHash)>),
    RequestFailed,
    ResponseDropped,
}

/// The hashes announced in `msg`.
pub open spec fn announced_hashes(msg: NewPooledTransactionHashes) -> Seq<TxHash> {
    match msg {
        NewPooledTransactionHashes::Eth66(h) => h@,
        NewPooledTransactionHashes::Eth68 { hashes } => hashes@,
    }
}

/// The action owed for a transaction event: received transactions are all
/// forwarded; announced hashes are requested from the announcing peer, unless
/// there are none; a peer's request for pooled transactions is answered with
/// none; any other event is ignored.
pub open spec fn action_for(event: NetworkTransactionEvent, action: TransactionAction) -> bool {
    match event {
        NetworkTransactionEvent::IncomingTransactions { peer_id, transactions } => action
            == TransactionAction::ForwardAll { peer_id, count: transactions.len() },
        NetworkTransactionEvent::IncomingPooledTransactionHashes { peer_id, msg } => {
            if announced_hashes(msg).len() == 0 {
                action is Ignore
            } else {
                action matches TransactionAction::RequestPooled { peer_id: p, hashes } && p
                    == peer_id && hashes@ == announced_hashes(msg)
            }
        },
        NetworkTransactionEvent::GetPooledTransactions { peer_id, .. } => action
            == TransactionAction::RespondEmpty { peer_id },
        NetworkTransactionEvent::GetTransactionsHandle => action is Ignore,
    }
}

/// The number of `false` entries in `results`.
pub open spec fn failures(results: Seq<bool>) -> nat
    decreases results.len(),
{
    if results.len() == 0 {
        0
    } else {
        failures(results.drop_last()) + if results.last() {
            0nat
        } else {
            1nat
        }
    }
}

/// The number of pairs whose two hashes differ.
pub open spec fn mismatches(pairs: Seq<(TxHash, TxHash)>) -> nat
    decreases pairs.len(),
{
    if pairs.len() == 0 {
        0
    } else {
        mismatches(pairs.drop_last()) + if pairs.last().0 == pairs.last().1 {
            0nat
        } else {
            1nat
        }
    }
}

/// A counter after `n` increments.
pub open spec fn counter_add(c: u64, n: nat) -> u64
    decreases n,
{
    if n == 0 {
        c
    } else {
        counter_inc(counter_add(c, (n - 1) as nat))
    }
}

/// An active session acts exactly as an established one, and each peer
/// event changes the table as a map: an established session maps the peer
/// to its new session (replacing any earlier one), a closed session removes
/// the peer, and the other events leave the table as it was.
pub proof fn lemma_peer_table_updates(table: Map<PeerId, PeerSessionInfo>, info: SessionInfo, peer_id: PeerId)
    ensures
        table_after_network_event(table, NetworkEvent::ActivePeerSession { info })
            == table_after_network_event(table, NetworkEvent::Peer(PeerEvent::SessionEstablished(info))),
        table_after_network_event(table, NetworkEvent::ActivePeerSession { info }) == table.insert(
            info.peer_id,
            PeerSessionInfo { session_info: info },
        ),
        table_after_peer_event(table, PeerEvent::SessionEstablished(info)) == table.insert(
            info.peer_id,
            PeerSessionInfo { session_info: info },
        ),
        table_after_peer_event(table, PeerEvent::SessionClosed { peer_id }) == table.remove(peer_id),
        table_after_peer_event(table, PeerEvent::PeerAdded(peer_id)) == table,
        table_after_peer_event(table, PeerEvent::PeerRemoved(peer_id)) == table,
{
}

/// The action for each transaction event, in terms of the event's own
/// fields: received transactions are all forwarded to the processor; the
/// hashes announced by a peer, under either protocol version, are requested
/// from that peer exactly as announced, unless there are none; a peer's
/// request is answered with none; the transactions handle is ignored.
pub proof fn lemma_transaction_actions(event: NetworkTransactionEvent, action: TransactionAction)
    requires
        action_for(event, action),
    ensures
        event matches NetworkTransactionEvent::IncomingTransactions { peer_id, transactions }
            ==> action == (TransactionAction::ForwardAll { peer_id, count: transactions.len() }),
        event matches NetworkTransactionEvent::IncomingPooledTransactionHashes {
            peer_id,
            msg: NewPooledTransactionHashes::Eth66(h),
        } ==> if h.len() == 0 {
            action is Ignore
        } else {
            action matches TransactionAction::RequestPooled { peer_id: p, hashes } && p == peer_id
                && hashes@ == h@
        },
        event matches NetworkTransactionEvent::IncomingPooledTransactionHashes {
            peer_id,
            msg: NewPooledTransactionHashes::Eth68 { hashes: h },
        } ==> if h.len() == 0 {
            action is Ignore
        } else {
            action matches TransactionAction::RequestPooled { peer_id: p, hashes } && p == peer_id
                && hashes@ == h@
        },
        event matches NetworkTransactionEvent::GetPooledTransactions { peer_id, .. } ==> action
            == (TransactionAction::RespondEmpty { peer_id }),
        event is GetTransactionsHandle ==> action is Ignore,
{
}

/// `failures` counts every `false` entry, wherever it stands.
pub proof fn lemma_failures_count(results: Seq<bool>)
    ensures
        failures(results) == results.filter(|b: bool| !b).len(),
    decreases results.len(),
{
    reveal(Seq::filter);
    let pred = |b: bool| !b;
    if results.len() > 0 {
        lemma_failures_count(results.drop_last());
        assert(results.filter(pred) == if pred(results.last()) {
            results.drop_last().filter(pred).push(results.last())
        } else {
            results.drop_last().filter(pred)
        });
    } else {
        assert(results.filter(pred) == results);
    }
}

/// `mismatches` counts every pair whose hashes differ, wherever it stands.
pub proof fn lemma_mismatches_count(pairs: Seq<(TxHash, TxHash)>)
    ensures
        mismatches(pairs) == pairs.filter(|p: (TxHash, TxHash)| p.0 != p.1).len(),
    decreases pairs.len(),
{
    reveal(Seq::filter);
    let pred = |p: (TxHash, TxHash)| p.0 != p.1;
    if pairs.len() > 0 {
        lemma_mismatches_count(pairs.drop_last());
        assert(pairs.filter(pred) == if pred(pairs.last()) {
            pairs.drop_last().filter(pred).push(pairs.last())
        } else {
            pairs.drop_last().filter(pred)
        });
    } else {
        assert(pairs.filter(pred) == pairs);
    }
}

/// A counter increased `n` times that does not pass `u64::MAX` is `c + n`.
pub proof fn lemma_counter_add_exact(c: u64, n: nat)
    requires
        c + n <= u64::MAX,
    ensures
        counter_add(c, n) == c + n,
    decreases n,
{
    if n > 0 {
        lemma_counter_add_exact(c, (n - 1) as nat);
    }
}

/// An established session records its peer with the session's details.
pub proof fn lemma_established_peer_is_connected(table: Map<PeerId, PeerSessionInfo>, info: SessionInfo)
    ensures
        table_after_peer_event(table, PeerEvent::SessionEstablished(info)).contains_key(info.peer_id),
        table_after_peer_event(table, PeerEvent::SessionEstablished(info))[info.peer_id].session_info
            == info,
{
}

/// A closed session leaves its peer out of the table, whatever the table held.
pub proof fn lemma_closed_peer_is_gone(table: Map<PeerId, PeerSessionInfo>, peer_id: PeerId)
    ensures
        !table_after_peer_event(table, PeerEvent::SessionClosed { peer_id }).contains_key(peer_id),
{
}

/// Establishing a session and then closing it leaves the table as it was,
/// without that peer.
pub proof fn lemma_session_then_close(table: Map<PeerId, PeerSessionInfo>, info: SessionInfo)
    ensures
        table_after_peer_event(
            table_after_peer_event(table, PeerEvent::SessionEstablished(info)),
            PeerEvent::SessionClosed { peer_id: info.peer_id },
        ) == table.remove(info.peer_id),
{
    assert(table_after_session(table, info).remove(info.peer_id) =~= table.remove(info.peer_id));
}

/// Counting: in a finite table, an established session adds one peer
/// exactly when the peer was new, and a closed session removes one exactly
/// when the peer was connected.
pub proof fn lemma_session_counts(table: Map<PeerId, PeerSessionInfo>, info: SessionInfo)
    requires
        table.dom().finite(),
    ensures
        table_after_session(table, info).dom().finite(),
        table_after_session(table, info).len() == count_after_session(table, info.peer_id),
        table_after_peer_event(table, PeerEvent::SessionClosed { peer_id: info.peer_id }).len()
            == count_after_close(table, info.peer_id),
{
}

proof fn lemma_close_count(table: Map<PeerId, PeerSessionInfo>, peer_id: PeerId)
    requires
        table.dom().finite(),
    ensures
        table.remove(peer_id).len() == count_after_close(table, peer_id),
{
}

/// Two sessions established for the same peer leave the same table as the
/// later one alone: the later session's details win.
pub proof fn lemma_later_session_wins(
    table: Map<PeerId, PeerSessionInfo>,
    first: SessionInfo,
    second: SessionInfo,
)
    requires
        first.peer_id == second.peer_id,
    ensures
        table_after_session(table_after_session(table, first), second) == table_after_session(
            table,
            second,
        ),
        table_after_session(table, second)[second.peer_id].session_info == second,
{
    assert(table_after_session(table_after_session(table, first), second) =~= table_after_session(
        table,
        second,
    ));
}

/// A table with no peers, to hand to `EthP2PHandler::new`.
pub fn new_peer_table() -> (table: DashMap<PeerId, PeerSessionInfo>)
    ensures
        peer_table(table) == Map::<PeerId, PeerSessionInfo>::empty(),
{
    peer_table_new()
}

pub struct EthP2PHandler {
    pub peers: DashMap<PeerId, PeerSessionInfo>,
}

impl EthP2PHandler {
    /// A handler that keeps its connected peers in `peers`.
    pub fn new(peers: DashMap<PeerId, PeerSessionInfo>) -> (h: EthP2PHandler)
        ensures
            peer_table(h.peers) == peer_table(peers),
    {
        EthP2PHandler { peers }
    }

    fn on_session_established(&mut self, metrics: &mut PipelineMetrics, session_info: SessionInfo)
        ensures
            peer_table(final(self).peers) == table_after_session(
                peer_table(old(self).peers),
                session_info,
            ),
            peer_table(final(self).peers).len() == count_after_session(
                peer_table(old(self).peers),
                session_info.peer_id,
            ),
            *final(metrics) == (PipelineMetrics {
                p2p_peers_connected: peer_table(final(self).peers).len() as i64,
                ..*old(metrics)
            }),
    {
        let peer_id = session_info.peer_id;
        let peer_info_struct = PeerSessionInfo { session_info };
        let ghost before = peer_table(self.peers);
        peer_table_insert(&mut self.peers, peer_id, peer_info_struct);
        proof {
            assert(before.dom().insert(peer_id) == peer_table(self.peers).dom());
            vstd::set_lib::lemma_set_insert_finite_iff(before.dom(), peer_id);
            lemma_session_counts(before, session_info);
        }
        metrics.p2p_peers_connected = peer_table_len(&self.peers) as i64;
    }

    /// Handles a peer event: an established session records the peer, a
    /// closed session forgets it, and after either the peer count is set to
    /// the number of peers in the table. Other events change nothing.
    pub fn handle_peer_event(&mut self, metrics: &mut PipelineMetrics, event: PeerEvent)
        ensures
            peer_table(final(self).peers) == table_after_peer_event(
                peer_table(old(self).peers),
                event,
            ),
            is_session_event(event) ==> peer_table(final(self).peers).len()
                == count_after_peer_event(peer_table(old(self).peers), event),
            event matches PeerEvent::SessionEstablished(info) ==> peer_table(final(self).peers)
                == peer_table(old(self).peers).insert(
                info.peer_id,
                PeerSessionInfo { session_info: info },
            ),
            event matches PeerEvent::SessionClosed { peer_id } ==> peer_table(final(self).peers)
                == peer_table(old(self).peers).remove(peer_id),
            is_session_event(event) ==> *final(metrics) == (PipelineMetrics {
                p2p_peers_connected: peer_table(final(self).peers).len() as i64,
                ..*old(metrics)
            }),
            !is_session_event(event) ==> *final(metrics) == *old(metrics),
    {
        match event {
            PeerEvent::SessionEstablished(session_info) => {
                self.on_session_established(metrics, session_info);
            },
            PeerEvent::SessionClosed { peer_id } => {
                let ghost before = peer_table(self.peers);
                peer_table_remove(&mut self.peers, &peer_id);
                proof {
                    assert(before.dom().remove(peer_id) == peer_table(self.peers).dom());
                    vstd::set_lib::lemma_set_remove_finite_iff(before.dom(), peer_id);
                    lemma_close_count(before, peer_id);
                }
                metrics.p2p_peers_connected = peer_table_len(&self.peers) as i64;
            },
            _ => {},
        }
    }

    /// Handles a network event: a peer event as `handle_peer_event` does, an
    /// active session as an established one.
    pub fn handle_network_event_wrapper(&mut self, metrics: &mut PipelineMetrics, event: NetworkEvent)
        ensures
            peer_table(final(self).peers) == table_after_network_event(
                peer_table(old(self).peers),
                event,
            ),
            network_event_counts_peers(event) ==> peer_table(final(self).peers).len()
                == count_after_network_event(peer_table(old(self).peers), event),
            event matches NetworkEvent::ActivePeerSession { info } ==> peer_table(final(self).peers)
                == peer_table(old(self).peers).insert(
                info.peer_id,
                PeerSessionInfo { session_info: info },
            ),
            event matches NetworkEvent::Peer(PeerEvent::SessionEstablished(info)) ==> peer_table(
                final(self).peers,
            ) == peer_table(old(self).peers).insert(
                info.peer_id,
                PeerSessionInfo { session_info: info },
            ),
            network_event_counts_peers(event) ==> *final(metrics) == (PipelineMetrics {
                p2p_peers_connected: peer_table(final(self).peers).len() as i64,
                ..*old(metrics)
            }),
            !network_event_counts_peers(event) ==> *final(metrics) == *old(metrics),
    {
        match event {
            NetworkEvent::Peer(peer_event) => {
                self.handle_peer_event(metrics, peer_event);
            },
            NetworkEvent::ActivePeerSession { info } => {
                self.on_session_established(metrics, info);
            },
        }
    }

    /// Decides what to do with a transaction event (see `action_for`).
    pub fn handle_transaction_event(&self, event: NetworkTransactionEvent) -> (action:
        TransactionAction)
        ensures
            action_for(event, action),
            event matches NetworkTransactionEvent::IncomingPooledTransactionHashes {
                peer_id,
                msg: NewPooledTransactionHashes::Eth68 { hashes: h },
            } ==> (h.len() > 0 ==> (action matches TransactionAction::RequestPooled {
                peer_id: p,
                hashes,
            } && p == peer_id && hashes@ == h@)),
            event matches NetworkTransactionEvent::IncomingPooledTransactionHashes {
                peer_id,
                msg: NewPooledTransactionHashes::Eth66(h),
            } ==> (h.len() > 0 ==> (action matches TransactionAction::RequestPooled {
                peer_id: p,
                hashes,
            } && p == peer_id && hashes@ == h@)),
    {
        let ghost ev = event;
        let action = self.handle_transaction_event_inner(event);
        proof {
            lemma_transaction_actions(ev, action);
        }
        action
    }

    fn handle_transaction_event_inner(&self, event: NetworkTransactionEvent) -> (action:
        TransactionAction)
        ensures
            action_for(event, action),
    {
        match event {
            NetworkTransactionEvent::IncomingTransactions { peer_id, transactions } => {
                TransactionAction::ForwardAll { peer_id, count: transactions.len() }
            },
            NetworkTransactionEvent::IncomingPooledTransactionHashes { peer_id, msg } => {
                let hashes: Vec<TxHash> = match msg {
                    NewPooledTransactionHashes::Eth66(h) => h,
                    NewPooledTransactionHashes::Eth68 { hashes } => hashes,
                };
                if hashes.len() != 0 {
                    TransactionAction::RequestPooled { peer_id, hashes }
                } else {
                    TransactionAction::Ignore
                }
            },
            NetworkTransactionEvent::GetPooledTransactions { peer_id, .. } => {
                TransactionAction::RespondEmpty { peer_id }
            },
            _ => TransactionAction::Ignore,
        }
    }

    /// Counts, as `tx_forward` errors, the received transactions that could
    /// not be forwarded to the processor (`results[i]` tells whether the
    /// `i`-th was). Nothing else changes.
    pub fn record_forward_results(metrics: &mut PipelineMetrics, results: &Vec<bool>)
        ensures
            *final(metrics) == (PipelineMetrics {
                pipeline_errors_total: PipelineErrors {
                    tx_forward: counter_add(
                        old(metrics).pipeline_errors_total.tx_forward,
                        failures(results@),
                    ),
                    ..old(metrics).pipeline_errors_total
                },
                ..*old(metrics)
            }),
            final(metrics).pipeline_errors_total.tx_forward == counter_add(
                old(metrics).pipeline_errors_total.tx_forward,
                results@.filter(|b: bool| !b).len(),
            ),
    {
        proof {
            lemma_failures_count(results@);
        }
        let mut i: usize = 0;
        while i < results.len()
            invariant
                i <= results.len(),
                *metrics == (PipelineMetrics {
                    pipeline_errors_total: PipelineErrors {
                        tx_forward: counter_add(
                            old(metrics).pipeline_errors_total.tx_forward,
                            failures(results@.take(i as int)),
                        ),
                        ..old(metrics).pipeline_errors_total
                    },
                    ..*old(metrics)
                }),
            decreases results.len() - i,
        {
            proof {
                assert(results@.take(i + 1 as int).drop_last() =~= results@.take(i as int));
            }
            if !results[i] {
                metrics.record_error(PipelineStage::TxForward);
            }
            i = i + 1;
        }
        proof {
            assert(results@.take(i as int) =~= results@);
        }
    }

    /// Handles the answer to a request for pooled transactions. For each
    /// transaction received whose computed hash differs from the hash the
    /// peer gave, a `hash_mismatch` error is counted; every transaction
    /// received is still to be forwarded, and their number is returned. A
    /// failed request, or an answer that never came, counts one
    /// `pool_request` error and forwards nothing.
    pub fn handle_pooled_transactions_response(
        metrics: &mut PipelineMetrics,
        response: &PooledTransactionsResponse,
    ) -> (forward: usize)
        ensures
            response matches PooledTransactionsResponse::Received(pairs)
                ==> final(metrics).pipeline_errors_total.hash_mismatch == counter_add(
                old(metrics).pipeline_errors_total.hash_mismatch,
                pairs@.filter(|p: (TxHash, TxHash)| p.0 != p.1).len(),
            ),
            response matches PooledTransactionsResponse::Received(pairs) ==> {
                &&& forward == pairs.len()
                &&& *final(metrics) == (PipelineMetrics {
                    pipeline_errors_total: PipelineErrors {
                        hash_mismatch: counter_add(
                            old(metrics).pipeline_errors_total.hash_mismatch,
                            mismatches(pairs@),
                        ),
                        ..old(metrics).pipeline_errors_total
                    },
                    ..*old(metrics)
                })
            },
            !(response is Received) ==> {
                &&& forward == 0
                &&& *final(metrics) == (PipelineMetrics {
                    pipeline_errors_total: errors_after(
                        old(metrics).pipeline_errors_total,
                        PipelineStage::PoolRequest,
                    ),
                    ..*old(metrics)
                })
            },
    {
        match response {
            PooledTransactionsResponse::Received(pairs) => {
                proof {
                    lemma_mismatches_count(pairs@);
                }
                let mut i: usize = 0;
                while i < pairs.len()
                    invariant
                        i <= pairs.len(),
                        *metrics == (PipelineMetrics {
                            pipeline_errors_total: PipelineErrors {
                                hash_mismatch: counter_add(
                                    old(metrics).pipeline_errors_total.hash_mismatch,
                                    mismatches(pairs@.take(i as int)),
                                ),
                                ..old(metrics).pipeline_errors_total
                            },
                            ..*old(metrics)
                        }),
                    decreases pairs.len() - i,
                {
                    proof {
                        assert(pairs@.take(i + 1 as int).drop_last() =~= pairs@.take(i as int));
                    }
                    let (received_hash, computed_hash) = pairs[i];
                    if computed_hash.0 != received_hash.0 || computed_hash.1 != received_hash.1 {
                        metrics.record_error(PipelineStage::HashMismatch);
                    }
                    i = i + 1;
                }
                proof {
                    assert(pairs@.take(i as int) =~= pairs@);
                }
                pairs.len()
            },
            _ => {
                metrics.record_error(PipelineStage::PoolRequest);
                0
            },
        }
    }
}

} // verus!
