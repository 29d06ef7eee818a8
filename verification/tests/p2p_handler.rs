use mempool_listener::metrics::init;
use mempool_listener::network::{
    new_peer_table, EthP2PHandler, NetworkEvent, NetworkTransactionEvent, NewPooledTransactionHashes, PeerEvent,
    PeerId, PooledTransactionsResponse, SessionInfo, TransactionAction,
};

fn peer(n: u128) -> PeerId {
    (n, 0, 0, n)
}

fn session(n: u128, client: &str) -> SessionInfo {
    SessionInfo { peer_id: peer(n), client_version: client.to_string() }
}

fn handler() -> EthP2PHandler {
    EthP2PHandler::new(new_peer_table())
}

#[test]
fn established_session_adds_peer_and_sets_count() {
    let mut h = handler();
    let mut m = init();
    h.handle_peer_event(&mut m, PeerEvent::SessionEstablished(session(1, "reth/v1")));
    assert_eq!(h.peers.len(), 1);
    assert_eq!(m.p2p_peers_connected, 1);
    let entry = h.peers.get(&peer(1)).unwrap();
    assert_eq!(entry.session_info.client_version, "reth/v1");
    assert_eq!(entry.session_info.peer_id, peer(1));
}

#[test]
fn same_peer_twice_is_counted_once() {
    let mut h = handler();
    let mut m = init();
    h.handle_peer_event(&mut m, PeerEvent::SessionEstablished(session(1, "a")));
    h.handle_peer_event(&mut m, PeerEvent::SessionEstablished(session(1, "b")));
    assert_eq!(m.p2p_peers_connected, 1);
    assert_eq!(h.peers.get(&peer(1)).unwrap().session_info.client_version, "b");
}

#[test]
fn closed_session_removes_peer_and_sets_count() {
    let mut h = handler();
    let mut m = init();
    h.handle_peer_event(&mut m, PeerEvent::SessionEstablished(session(1, "a")));
    h.handle_peer_event(&mut m, PeerEvent::SessionEstablished(session(2, "b")));
    assert_eq!(m.p2p_peers_connected, 2);
    h.handle_peer_event(&mut m, PeerEvent::SessionClosed { peer_id: peer(1) });
    assert_eq!(m.p2p_peers_connected, 1);
    assert!(h.peers.get(&peer(1)).is_none());
    assert!(h.peers.get(&peer(2)).is_some());
}

#[test]
fn closing_unknown_peer_keeps_table() {
    let mut h = handler();
    let mut m = init();
    h.handle_peer_event(&mut m, PeerEvent::SessionEstablished(session(1, "a")));
    h.handle_peer_event(&mut m, PeerEvent::SessionClosed { peer_id: peer(9) });
    assert_eq!(m.p2p_peers_connected, 1);
    assert_eq!(h.peers.len(), 1);
}

#[test]
fn session_then_close_leaves_no_peer() {
    let mut h = handler();
    let mut m = init();
    h.handle_peer_event(&mut m, PeerEvent::SessionEstablished(session(5, "x")));
    h.handle_peer_event(&mut m, PeerEvent::SessionClosed { peer_id: peer(5) });
    assert_eq!(h.peers.len(), 0);
    assert_eq!(m.p2p_peers_connected, 0);
}

#[test]
fn added_and_removed_peers_change_nothing() {
    let mut h = handler();
    let mut m = init();
    m.p2p_peers_connected = 7;
    h.handle_peer_event(&mut m, PeerEvent::PeerAdded(peer(1)));
    h.handle_peer_event(&mut m, PeerEvent::PeerRemoved(peer(1)));
    assert_eq!(h.peers.len(), 0);
    assert_eq!(m.p2p_peers_connected, 7);
}

#[test]
fn active_session_counts_as_established() {
    let mut h = handler();
    let mut m = init();
    h.handle_network_event_wrapper(&mut m, NetworkEvent::ActivePeerSession { info: session(3, "c") });
    assert_eq!(m.p2p_peers_connected, 1);
    h.handle_network_event_wrapper(
        &mut m,
        NetworkEvent::Peer(PeerEvent::SessionClosed { peer_id: peer(3) }),
    );
    assert_eq!(m.p2p_peers_connected, 0);
}

#[test]
fn incoming_transactions_are_all_forwarded() {
    let h = handler();
    let a = h.handle_transaction_event(NetworkTransactionEvent::IncomingTransactions {
        peer_id: peer(1),
        transactions: vec![(1, 1), (2, 2), (3, 3)],
    });
    match a {
        TransactionAction::ForwardAll { peer_id, count } => {
            assert_eq!(peer_id, peer(1));
            assert_eq!(count, 3);
        }
        _ => panic!("expected ForwardAll"),
    }
}

#[test]
fn announced_hashes_are_requested_eth66() {
    let h = handler();
    let a = h.handle_transaction_event(NetworkTransactionEvent::IncomingPooledTransactionHashes {
        peer_id: peer(2),
        msg: NewPooledTransactionHashes::Eth66(vec![(4, 4), (5, 5)]),
    });
    match a {
        TransactionAction::RequestPooled { peer_id, hashes } => {
            assert_eq!(peer_id, peer(2));
            assert_eq!(hashes, vec![(4, 4), (5, 5)]);
        }
        _ => panic!("expected RequestPooled"),
    }
}

#[test]
fn announced_hashes_are_requested_eth68() {
    let h = handler();
    let a = h.handle_transaction_event(NetworkTransactionEvent::IncomingPooledTransactionHashes {
        peer_id: peer(2),
        msg: NewPooledTransactionHashes::Eth68 { hashes: vec![(6, 6)] },
    });
    match a {
        TransactionAction::RequestPooled { hashes, .. } => assert_eq!(hashes, vec![(6, 6)]),
        _ => panic!("expected RequestPooled"),
    }
}

#[test]
fn empty_announcement_is_ignored() {
    let h = handler();
    let a = h.handle_transaction_event(NetworkTransactionEvent::IncomingPooledTransactionHashes {
        peer_id: peer(2),
        msg: NewPooledTransactionHashes::Eth68 { hashes: vec![] },
    });
    assert!(matches!(a, TransactionAction::Ignore));
}

#[test]
fn pooled_request_from_peer_is_answered_empty() {
    let h = handler();
    let a = h.handle_transaction_event(NetworkTransactionEvent::GetPooledTransactions {
        peer_id: peer(8),
        request: vec![(1, 2)],
    });
    match a {
        TransactionAction::RespondEmpty { peer_id } => assert_eq!(peer_id, peer(8)),
        _ => panic!("expected RespondEmpty"),
    }
}

#[test]
fn other_transaction_events_are_ignored() {
    let h = handler();
    let a = h.handle_transaction_event(NetworkTransactionEvent::GetTransactionsHandle);
    assert!(matches!(a, TransactionAction::Ignore));
}

#[test]
fn forward_failures_are_counted() {
    let mut m = init();
    EthP2PHandler::record_forward_results(&mut m, &vec![true, false, true, false, false]);
    assert_eq!(m.pipeline_errors_total.tx_forward, 3);
    EthP2PHandler::record_forward_results(&mut m, &vec![]);
    assert_eq!(m.pipeline_errors_total.tx_forward, 3);
}

#[test]
fn hash_mismatches_are_counted_and_all_forwarded() {
    let mut m = init();
    let response = PooledTransactionsResponse::Received(vec![
        ((1, 1), (1, 1)),
        ((2, 2), (2, 3)),
        ((3, 3), (4, 3)),
    ]);
    let n = EthP2PHandler::handle_pooled_transactions_response(&mut m, &response);
    assert_eq!(n, 3);
    assert_eq!(m.pipeline_errors_total.hash_mismatch, 2);
    assert_eq!(m.pipeline_errors_total.pool_request, 0);
}

#[test]
fn failed_pool_request_is_counted() {
    let mut m = init();
    let n = EthP2PHandler::handle_pooled_transactions_response(
        &mut m,
        &PooledTransactionsResponse::RequestFailed,
    );
    assert_eq!(n, 0);
    let n = EthP2PHandler::handle_pooled_transactions_response(
        &mut m,
        &PooledTransactionsResponse::ResponseDropped,
    );
    assert_eq!(n, 0);
    assert_eq!(m.pipeline_errors_total.pool_request, 2);
    assert_eq!(m.pipeline_errors_total.hash_mismatch, 0);
}

#[test]
fn new_peer_table_is_empty() {
    let t = new_peer_table();
    assert_eq!(t.len(), 0);
    assert!(t.get(&peer(1)).is_none());
}

#[test]
fn later_session_for_same_peer_wins_and_counts_once() {
    let mut h = handler();
    let mut m = init();
    h.handle_network_event_wrapper(&mut m, NetworkEvent::ActivePeerSession { info: session(4, "old") });
    h.handle_peer_event(&mut m, PeerEvent::SessionEstablished(session(4, "new")));
    assert_eq!(h.peers.len(), 1);
    assert_eq!(m.p2p_peers_connected, 1);
    assert_eq!(h.peers.get(&peer(4)).unwrap().session_info.client_version, "new");
}
