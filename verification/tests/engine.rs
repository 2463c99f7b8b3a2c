use valkeeper::engine::requires_signature_id;
use valkeeper::engine::signature_id_with;
use valkeeper::engine::McBlockRef;
use valkeeper::engine::SendError;
use valkeeper::engine::SubscriptionState;
use valkeeper::engine::TxRecord;
use valkeeper::types::ShardIdent;
use valkeeper::types::Uint256;
use valkeeper::types::BASE_WORKCHAIN_ID;
use valkeeper::types::MASTERCHAIN_ID;

fn uint(x: u64) -> Uint256 {
    Uint256 { w0: x, w1: 0, w2: 0, w3: 0 }
}

#[test]
fn register_and_match_reply() {
    let mut st = SubscriptionState::new();
    assert!(!st.has_subscriptions());

    let dst = uint(7);
    let hash = uint(100);
    let ticket = st.register_pending(BASE_WORKCHAIN_ID, dst, hash, 1_000).unwrap();
    assert_eq!(ticket, 0);
    assert!(st.has_subscriptions());
    assert_eq!(st.count, 1);

    // A transaction of that account whose inbound message matches: the reply
    // goes to the waiting ticket and the message leaves the map.
    let tx = TxRecord { account: dst, tx_hash: uint(555), in_msg_hash: Some(hash) };
    let effects = st.process_tx(false, &tx);
    assert_eq!(effects.reply, Some(ticket));
    assert_eq!(st.count, 0);

    // The hash is free again afterwards.
    let again = st.register_pending(BASE_WORKCHAIN_ID, dst, hash, 2_000);
    assert!(again.is_ok());
}

#[test]
fn register_refuses_duplicates_and_foreign_workchains() {
    let mut st = SubscriptionState::new();
    let dst = uint(1);
    let hash = uint(2);
    st.register_pending(MASTERCHAIN_ID, dst, hash, 10).unwrap();
    assert_eq!(
        st.register_pending(MASTERCHAIN_ID, dst, hash, 10),
        Err(SendError::AlreadyPending)
    );
    assert_eq!(
        st.register_pending(5, dst, hash, 10),
        Err(SendError::UnsupportedWorkchain)
    );
    // The two workchains keep separate maps: the same hash is fine on the
    // other side.
    assert!(st.register_pending(BASE_WORKCHAIN_ID, dst, hash, 10).is_ok());
    assert_eq!(st.count, 2);
}

#[test]
fn transaction_without_match_changes_nothing() {
    let mut st = SubscriptionState::new();
    let dst = uint(3);
    st.register_pending(BASE_WORKCHAIN_ID, dst, uint(4), 10).unwrap();
    let tx = TxRecord { account: dst, tx_hash: uint(9), in_msg_hash: Some(uint(99)) };
    let effects = st.process_tx(false, &tx);
    assert_eq!(effects.reply, None);
    assert_eq!(st.count, 1);
    // A transaction of an unknown account is skipped entirely.
    let tx = TxRecord { account: uint(77), tx_hash: uint(9), in_msg_hash: Some(uint(4)) };
    let effects = st.process_tx(false, &tx);
    assert_eq!(effects.reply, None);
    assert!(effects.broadcast.is_empty());
}

#[test]
fn broadcast_lists_subscribed_channels() {
    let mut st = SubscriptionState::new();
    let acc = uint(12);
    let ch1 = st.subscribe(BASE_WORKCHAIN_ID, acc);
    let ch2 = st.subscribe(BASE_WORKCHAIN_ID, acc);
    assert_ne!(ch1, ch2);
    assert_eq!(st.count, 2);

    let tx = TxRecord { account: acc, tx_hash: uint(9), in_msg_hash: None };
    let effects = st.process_tx(false, &tx);
    assert_eq!(effects.broadcast, vec![ch1, ch2]);
    assert_eq!(effects.reply, None);
}

#[test]
fn process_block_in_order() {
    let mut st = SubscriptionState::new();
    let a = uint(20);
    let b = uint(21);
    let t1 = st.register_pending(BASE_WORKCHAIN_ID, a, uint(200), 50).unwrap();
    let t2 = st.register_pending(BASE_WORKCHAIN_ID, b, uint(201), 50).unwrap();
    let txs = vec![
        TxRecord { account: a, tx_hash: uint(300), in_msg_hash: Some(uint(200)) },
        TxRecord { account: a, tx_hash: uint(301), in_msg_hash: Some(uint(200)) },
        TxRecord { account: b, tx_hash: uint(302), in_msg_hash: Some(uint(201)) },
    ];
    let effects = st.process_block(false, &txs);
    assert_eq!(effects.len(), 3);
    assert_eq!(effects[0].reply, Some(t1));
    // The second transaction carries an already-consumed hash: no reply.
    assert_eq!(effects[1].reply, None);
    assert_eq!(effects[2].reply, Some(t2));
    assert_eq!(st.count, 0);
}

#[test]
fn block_processing_broadcasts_and_replies() {
    // One account with a live channel and a pending message: the matching
    // transaction of a block is broadcast to the channel and answers the
    // pending ticket at once.
    let mut st = SubscriptionState::new();
    let acc = uint(60);
    let ch = st.subscribe(BASE_WORKCHAIN_ID, acc);
    let ticket = st.register_pending(BASE_WORKCHAIN_ID, acc, uint(61), 99).unwrap();
    let txs = vec![
        TxRecord { account: acc, tx_hash: uint(62), in_msg_hash: Some(uint(61)) },
        TxRecord { account: acc, tx_hash: uint(63), in_msg_hash: None },
    ];
    let effects = st.process_block(false, &txs);
    assert_eq!(effects[0].broadcast, vec![ch]);
    assert_eq!(effects[0].reply, Some(ticket));
    assert_eq!(effects[1].broadcast, vec![ch]);
    assert_eq!(effects[1].reply, None);
    assert_eq!(st.count, 1);
}

#[test]
fn expired_message_is_collected() {
    // A message expiring at t survives a pass at clock t and dies at t + 1,
    // mirroring the strict "expiry below the clock" rule.
    let mut st = SubscriptionState::new();
    let dst = uint(30);
    let hash = uint(31);
    let ticket = st.register_pending(BASE_WORKCHAIN_ID, dst, hash, 500).unwrap();

    let expired = st.collect_garbage(500);
    assert!(expired.is_empty());
    assert_eq!(st.count, 1);

    let expired = st.collect_garbage(501);
    assert_eq!(expired, vec![ticket]);
    assert_eq!(st.count, 0);

    // The hash is registrable again: the entry is gone, and the sender that
    // held the ticket is told through the expiry list.
    assert!(st.register_pending(BASE_WORKCHAIN_ID, dst, hash, 1_000).is_ok());
}

#[test]
fn closed_channels_are_collected() {
    let mut st = SubscriptionState::new();
    let acc = uint(40);
    let ch = st.subscribe(BASE_WORKCHAIN_ID, acc);
    assert_eq!(st.count, 1);
    // Closing succeeds exactly when the account holds that channel id.
    assert!(!st.mark_channel_closed(false, acc, ch + 1));
    assert!(!st.mark_channel_closed(false, uint(41), ch));
    assert!(!st.mark_channel_closed(true, acc, ch));
    assert!(st.mark_channel_closed(false, acc, ch));
    // The slot is now closed but still present: marking again finds it, and
    // the count only changes on the collection pass.
    assert!(st.mark_channel_closed(false, acc, ch));
    assert_eq!(st.count, 1);
    let expired = st.collect_garbage(0);
    assert!(expired.is_empty());
    assert_eq!(st.count, 0);
    // Collected for good: the slot is gone.
    assert!(!st.mark_channel_closed(false, acc, ch));
}

#[test]
fn signature_id_capability() {
    assert!(requires_signature_id(0x4000000));
    assert!(requires_signature_id(0x4000001));
    assert!(!requires_signature_id(0));
    assert!(!requires_signature_id(0x2000000));
    assert_eq!(signature_id_with(0x4000000, -3), Some(-3));
    assert_eq!(signature_id_with(0, -3), None);
}

#[test]
fn global_id_is_cached_once() {
    let mut st = SubscriptionState::new();
    assert_eq!(st.cached_global_id(), None);
    st.store_global_id(42);
    assert_eq!(st.cached_global_id(), Some(42));
    st.store_global_id(7);
    assert_eq!(st.cached_global_id(), Some(42));
}

#[test]
fn last_block_edge_mentions_every_shard() {
    let mut st = SubscriptionState::new();
    let s1 = ShardIdent { workchain: 0, prefix_lo: 0, prefix_hi: u64::MAX / 2 };
    let s2 = ShardIdent { workchain: 0, prefix_lo: u64::MAX / 2 + 1, prefix_hi: u64::MAX };
    let block = McBlockRef { seq_no: 10_000, gen_utime: 1_700_000_000 };
    st.store_last_mc_block(block, vec![(s1, 500), (s2, 600)]);
    let cache = st.last_mc_block.as_ref().unwrap();
    assert_eq!(cache.block, block);
    assert_eq!(cache.edge.shards.len(), 2);
    assert_eq!(cache.edge.shards[0], (s1, 500));
    assert_eq!(cache.edge.shards[1], (s2, 600));
}
