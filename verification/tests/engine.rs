use ever_subscription::backoff::DownloaderTimeouts;
use ever_subscription::edge::Edge;
use ever_subscription::fetcher::BlockFetch;
use ever_subscription::fetcher::FetchStep;
use ever_subscription::fetcher::NextBlockFetch;
use ever_subscription::fetcher::NextBlockResponse;
use ever_subscription::fetcher::Prepared;
use ever_subscription::subscription::MessageDst;
use ever_subscription::subscription::MessageInfo;
use ever_subscription::subscription::SendMessageError;
use ever_subscription::subscription::Subscription;
use ever_subscription::types::AccountBlock;
use ever_subscription::types::BlockData;
use ever_subscription::types::BlockId;
use ever_subscription::types::ShardIdent;
use ever_subscription::types::TransactionWithHash;
use ever_subscription::types::Uint256;
use ever_subscription::types::shards_intersect;
use ever_subscription::udp_rpc::ResolveIpRetry;
use ever_subscription::udp_rpc::fold_roundtrip;
use ever_subscription::udp_rpc::rldp_roundtrip_budget;
use ever_subscription::udp_rpc::update_roundtrip;
use ever_subscription::walker::ShardWalk;

fn u256(x: u64) -> Uint256 {
    Uint256 { w0: 0, w1: 0, w2: 0, w3: x }
}

fn base_shard() -> ShardIdent {
    ShardIdent { workchain: 0, prefix: 0x8000_0000_0000_0000 }
}

fn shard_block(seq_no: u32, gen_utime: u32, prev1_seq: u32, prev2_seq: Option<u32>, account_blocks: Vec<AccountBlock>) -> BlockData {
    BlockData {
        id: BlockId { shard: base_shard(), seq_no },
        gen_utime,
        prev1: BlockId { shard: base_shard(), seq_no: prev1_seq },
        prev2: prev2_seq.map(|s| BlockId { shard: base_shard(), seq_no: s }),
        account_blocks,
        shard_tops: Vec::new(),
    }
}

fn mc_block(seq_no: u32, gen_utime: u32, account_blocks: Vec<AccountBlock>) -> BlockData {
    BlockData {
        id: BlockId { shard: ShardIdent { workchain: -1, prefix: 0x8000_0000_0000_0000 }, seq_no },
        gen_utime,
        prev1: BlockId { shard: ShardIdent { workchain: -1, prefix: 0x8000_0000_0000_0000 }, seq_no: seq_no - 1 },
        prev2: None,
        account_blocks,
        shard_tops: vec![(base_shard(), BlockId { shard: base_shard(), seq_no: 1 })],
    }
}

fn ext_in(account: Uint256, hash: Uint256) -> MessageInfo {
    MessageInfo { dst: MessageDst::ExtIn { workchain: 0, account }, hash }
}

#[test]
fn register_counts_and_rejects_duplicates() {
    let mut sub = Subscription::new();
    assert_eq!(sub.pending_count(), 0);
    let msg = ext_in(u256(1), u256(10));
    let (tx1, _rx1) = tokio::sync::oneshot::channel();
    assert!(sub.register_message(&msg, 1000, tx1).is_ok());
    assert_eq!(sub.pending_count(), 1);
    let (tx2, _rx2) = tokio::sync::oneshot::channel();
    assert_eq!(
        sub.register_message(&msg, 1000, tx2),
        Err(SendMessageError::AlreadySent)
    );
    assert_eq!(sub.pending_count(), 1);
}

#[test]
fn register_rejects_wrong_kind_and_workchain() {
    let mut sub = Subscription::new();
    let other = MessageInfo { dst: MessageDst::Other, hash: u256(1) };
    let (tx, _rx) = tokio::sync::oneshot::channel();
    assert_eq!(sub.register_message(&other, 10, tx), Err(SendMessageError::NotExternalIn));
    let weird = MessageInfo { dst: MessageDst::ExtIn { workchain: 7, account: u256(2) }, hash: u256(3) };
    let (tx, _rx) = tokio::sync::oneshot::channel();
    assert_eq!(sub.register_message(&weird, 10, tx), Err(SendMessageError::UnsupportedWorkchain));
    assert_eq!(sub.pending_count(), 0);
}

#[test]
fn rollback_removes_entry_and_answers_none() {
    let mut sub = Subscription::new();
    let msg = ext_in(u256(1), u256(10));
    let (tx, mut rx) = tokio::sync::oneshot::channel();
    assert!(sub.register_message(&msg, 1000, tx).is_ok());
    assert_eq!(sub.pending_count(), 1);
    assert!(sub.rollback_message(0, &u256(1), &u256(10)));
    assert_eq!(sub.pending_count(), 0);
    assert_eq!(rx.try_recv().unwrap(), None);
    // The key is free again after the rollback.
    let (tx, _rx) = tokio::sync::oneshot::channel();
    assert!(sub.register_message(&msg, 1000, tx).is_ok());
    assert_eq!(sub.pending_count(), 1);
    // Rolling back a missing entry reports that nothing was pending.
    assert!(!sub.rollback_message(0, &u256(9), &u256(9)));
}

#[test]
fn walker_step_delivers_matched_transaction() {
    let mut sub = Subscription::new();
    let account = u256(5);
    let msg_hash = u256(77);
    let (tx, mut rx) = tokio::sync::oneshot::channel();
    assert!(sub.register_message(&ext_in(account, msg_hash), 1000, tx).is_ok());

    let observed = TransactionWithHash { hash: u256(900), in_msg_hash: Some(msg_hash) };
    let blocks = vec![shard_block(
        3,
        500,
        2,
        None,
        vec![AccountBlock { address: account, transactions: vec![observed] }],
    )];
    let (more, delivered) = sub.finish_step(mc_block(10, 500, Vec::new()), &blocks);
    assert_eq!(delivered.len(), 1);
    assert_eq!(delivered[0].workchain, 0);
    assert_eq!(delivered[0].account, account);
    assert_eq!(delivered[0].message_hash, msg_hash);
    assert_eq!(delivered[0].transaction.hash, u256(900));
    assert_eq!(delivered[0].transaction.in_msg_hash, Some(msg_hash));
    assert_eq!(rx.try_recv().unwrap(), Some(observed));
    assert_eq!(sub.pending_count(), 0);
    assert!(!more);
}

#[test]
fn walker_step_expires_old_messages() {
    let mut sub = Subscription::new();
    let account = u256(5);
    let (tx, mut rx) = tokio::sync::oneshot::channel();
    assert!(sub.register_message(&ext_in(account, u256(77)), 400, tx).is_ok());
    let (more, delivered) = sub.finish_step(mc_block(10, 401, Vec::new()), &Vec::new());
    assert_eq!(delivered.len(), 0);
    assert_eq!(rx.try_recv().unwrap(), None);
    assert_eq!(sub.pending_count(), 0);
    assert!(!more);
    // The key is free again after the expiry.
    let (tx, _rx) = tokio::sync::oneshot::channel();
    assert!(sub.register_message(&ext_in(account, u256(77)), 1000, tx).is_ok());
}

#[test]
fn walker_step_keeps_unexpired_unmatched_messages() {
    let mut sub = Subscription::new();
    let (tx, mut rx) = tokio::sync::oneshot::channel();
    assert!(sub.register_message(&ext_in(u256(5), u256(77)), 1000, tx).is_ok());
    let (more, delivered) = sub.finish_step(mc_block(10, 500, Vec::new()), &Vec::new());
    assert_eq!(delivered.len(), 0);
    assert!(rx.try_recv().is_err());
    assert_eq!(sub.pending_count(), 1);
    assert!(more);
}

#[test]
fn walker_step_delivers_each_key_once() {
    let mut sub = Subscription::new();
    let account = u256(5);
    let msg_hash = u256(77);
    let (tx, _rx) = tokio::sync::oneshot::channel();
    assert!(sub.register_message(&ext_in(account, msg_hash), 1000, tx).is_ok());
    // Two transactions in the same block carry the same inbound hash.
    let t1 = TransactionWithHash { hash: u256(900), in_msg_hash: Some(msg_hash) };
    let t2 = TransactionWithHash { hash: u256(901), in_msg_hash: Some(msg_hash) };
    let blocks = vec![shard_block(
        3,
        500,
        2,
        None,
        vec![AccountBlock { address: account, transactions: vec![t1, t2] }],
    )];
    let (_, delivered) = sub.finish_step(mc_block(10, 500, Vec::new()), &blocks);
    assert_eq!(delivered.len(), 1);
    assert_eq!(sub.pending_count(), 0);
}

#[test]
fn masterchain_messages_match_masterchain_blocks() {
    let mut sub = Subscription::new();
    let account = u256(6);
    let msg_hash = u256(88);
    let msg = MessageInfo { dst: MessageDst::ExtIn { workchain: -1, account }, hash: msg_hash };
    let (tx, mut rx) = tokio::sync::oneshot::channel();
    assert!(sub.register_message(&msg, 1000, tx).is_ok());
    let observed = TransactionWithHash { hash: u256(901), in_msg_hash: Some(msg_hash) };
    let mc = mc_block(
        10,
        500,
        vec![AccountBlock { address: account, transactions: vec![observed] }],
    );
    let (_, delivered) = sub.finish_step(mc, &Vec::new());
    assert_eq!(delivered.len(), 1);
    assert_eq!(rx.try_recv().unwrap(), Some(observed));
    assert_eq!(sub.pending_count(), 0);
}

#[test]
fn tip_cache_freshness_window() {
    let mut sub = Subscription::new();
    assert!(!sub.cached_tip_fresh(0));
    let (_, _) = sub.finish_step(mc_block(10, 500, Vec::new()), &Vec::new());
    // Fresh strictly less than ten seconds after generation.
    assert!(sub.cached_tip_fresh(505));
    assert!(sub.cached_tip_fresh(509));
    assert!(!sub.cached_tip_fresh(510));
    let tip = sub.last_tip().as_ref().unwrap();
    assert_eq!(tip.gen_utime, 500);
    assert_eq!(tip.data.id.seq_no, 10);
}

#[test]
fn backoff_sleeps_follow_the_block_policy() {
    // Stage one finds the block at once; stage two times out five times.
    let mut fetch = BlockFetch::new();
    assert_eq!(fetch.on_prepared(Prepared::Found), None);
    let mut sleeps = Vec::new();
    for _ in 0..5 {
        match fetch.on_block(None) {
            FetchStep::Retry(ms) => sleeps.push(ms),
            _ => panic!("expected a retry"),
        }
    }
    assert_eq!(sleeps, vec![200, 240, 288, 345, 414]);
}

#[test]
fn prepare_stage_backs_off_until_found() {
    let mut fetch = BlockFetch::new();
    assert_eq!(fetch.on_prepared(Prepared::NotFound), Some(200));
    assert_eq!(fetch.on_prepared(Prepared::NotFound), Some(240));
    assert_eq!(fetch.on_prepared(Prepared::Found), None);
    // The download stage starts from a fresh policy.
    match fetch.on_block(None) {
        FetchStep::Retry(ms) => assert_eq!(ms, 200),
        _ => panic!("expected a retry"),
    }
}

#[test]
fn next_block_fetch_decisions() {
    let mut fetch = NextBlockFetch::new();
    match fetch.on_response(None) {
        FetchStep::Retry(ms) => assert_eq!(ms, 200),
        _ => panic!("expected a retry"),
    }
    assert_eq!(fetch.attempt, 1);
    match fetch.on_response(Some(NextBlockResponse::Empty)) {
        FetchStep::Retry(ms) => assert_eq!(ms, 240),
        _ => panic!("expected a retry"),
    }
    match fetch.on_response(Some(NextBlockResponse::Invalid)) {
        FetchStep::Fail => {}
        _ => panic!("expected a failure"),
    }
    let block = shard_block(1, 1, 0, None, Vec::new());
    match fetch.on_response(Some(NextBlockResponse::Found(block))) {
        FetchStep::Done(b) => assert_eq!(b.id.seq_no, 1),
        _ => panic!("expected the block"),
    }
}

#[test]
fn backoff_caps_at_max() {
    let mut t = DownloaderTimeouts { initial: 200, max: 1000, multiplier_permille: 1200 };
    let expected = [240, 288, 345, 414, 496, 595, 714, 856, 1000, 1000];
    for e in expected {
        assert_eq!(t.update(), e);
    }
}

#[test]
fn roundtrip_estimate_nested_mean() {
    // First observation sets the estimate; later ones average in.
    let mut est: u64 = 0;
    est = update_roundtrip(est, 100);
    assert_eq!(est, 100);
    est = update_roundtrip(est, 50);
    assert_eq!(est, 75);
    est = update_roundtrip(est, 25);
    assert_eq!(est, 50);
}

#[test]
fn roundtrip_budget_per_attempt() {
    assert_eq!(rldp_roundtrip_budget(0, 3), None);
    assert_eq!(rldp_roundtrip_budget(100, 0), Some(100));
    assert_eq!(rldp_roundtrip_budget(100, 2), Some(200));
}

#[test]
fn edge_exact_lookup_decides() {
    let e = Edge::new(vec![(base_shard(), 100)]);
    assert!(e.is_before(&BlockId { shard: base_shard(), seq_no: 101 }));
    assert!(!e.is_before(&BlockId { shard: base_shard(), seq_no: 100 }));
    assert!(!e.is_before(&BlockId { shard: base_shard(), seq_no: 99 }));
}

#[test]
fn edge_falls_back_to_intersecting_shard() {
    // The edge knows the left child of the full shard; the query comes
    // for the full shard, which intersects it.
    let left = ShardIdent { workchain: 0, prefix: 0x4000_0000_0000_0000 };
    let right = ShardIdent { workchain: 0, prefix: 0xC000_0000_0000_0000 };
    assert!(shards_intersect(&base_shard(), &left));
    assert!(!shards_intersect(&left, &right));
    assert!(!shards_intersect(&left, &ShardIdent { workchain: 1, prefix: 0x4000_0000_0000_0000 }));
    let e = Edge::new(vec![(left, 100)]);
    assert!(e.is_before(&BlockId { shard: base_shard(), seq_no: 101 }));
    assert!(!e.is_before(&BlockId { shard: base_shard(), seq_no: 100 }));
    // No entry of an intersecting shard: not after the edge.
    let e2 = Edge::new(vec![(ShardIdent { workchain: 1, prefix: 0x8000_0000_0000_0000 }, 1)]);
    assert!(!e2.is_before(&BlockId { shard: base_shard(), seq_no: 100 }));
}

#[test]
fn shard_walk_stops_at_the_edge() {
    // Previous edge: sequence number 100. The fetched top block 103 has
    // previous blocks 102 and 100; the walk visits 103 and 102 and
    // stops before 100.
    let edge = Edge::new(vec![(base_shard(), 100)]);
    let top = BlockId { shard: base_shard(), seq_no: 103 };
    let mut walk = ShardWalk::new(edge, top);

    let first = walk.next_to_fetch().unwrap();
    assert_eq!(first.seq_no, 103);
    walk.on_block(shard_block(103, 510, 102, Some(100), Vec::new()));

    let second = walk.next_to_fetch().unwrap();
    assert_eq!(second.seq_no, 102);
    walk.on_block(shard_block(102, 505, 100, None, Vec::new()));

    assert!(walk.next_to_fetch().is_none());
    let collected = walk.finish();
    let seqs: Vec<u32> = collected.iter().map(|b| b.id.seq_no).collect();
    assert_eq!(seqs, vec![102, 103]);
}

#[test]
fn walk_result_sorted_by_time_then_seq_no() {
    let edge = Edge::new(vec![(base_shard(), 0)]);
    let mut walk = ShardWalk::new(edge, BlockId { shard: base_shard(), seq_no: 3 });
    let _ = walk.next_to_fetch();
    walk.on_block(shard_block(3, 500, 2, None, Vec::new()));
    let _ = walk.next_to_fetch();
    walk.on_block(shard_block(2, 500, 1, None, Vec::new()));
    let _ = walk.next_to_fetch();
    walk.on_block(shard_block(1, 490, 0, None, Vec::new()));
    let _ = walk.next_to_fetch();
    // Block 0 is not after an edge at 0? Sequence 0 is not strictly
    // after the edge, so the walk has already stopped.
    let collected = walk.finish();
    let seqs: Vec<u32> = collected.iter().map(|b| b.id.seq_no).collect();
    assert_eq!(seqs, vec![1, 2, 3]);
}

#[test]
fn purge_answers_every_waiter_with_none() {
    let mut sub = Subscription::new();
    let (tx1, mut rx1) = tokio::sync::oneshot::channel();
    let (tx2, mut rx2) = tokio::sync::oneshot::channel();
    assert!(sub.register_message(&ext_in(u256(1), u256(10)), 1000, tx1).is_ok());
    assert!(sub.register_message(&ext_in(u256(2), u256(20)), 2000, tx2).is_ok());
    assert_eq!(sub.pending_count(), 2);
    sub.purge();
    assert_eq!(sub.pending_count(), 0);
    assert_eq!(rx1.try_recv().unwrap(), None);
    assert_eq!(rx2.try_recv().unwrap(), None);
}

#[test]
fn edge_fallback_uses_the_first_intersecting_entry() {
    // Both entries intersect the queried shard; the first one in edge
    // order decides, which keeps the traversal reproducible.
    let left = ShardIdent { workchain: 0, prefix: 0x4000_0000_0000_0000 };
    let left_left = ShardIdent { workchain: 0, prefix: 0x2000_0000_0000_0000 };
    let e = Edge::new(vec![(left, 100), (base_shard(), 200)]);
    assert!(e.is_before(&BlockId { shard: left_left, seq_no: 150 }));
    let e2 = Edge::new(vec![(base_shard(), 200), (left, 100)]);
    assert!(!e2.is_before(&BlockId { shard: left_left, seq_no: 150 }));
}

#[test]
fn roundtrip_budget_saturates() {
    assert_eq!(rldp_roundtrip_budget(u64::MAX, 1), Some(u64::MAX));
    assert_eq!(rldp_roundtrip_budget(1, u64::MAX), Some(u64::MAX));
}

#[test]
fn unanswered_queries_keep_the_estimate() {
    assert_eq!(fold_roundtrip(100, false, 999), 100);
    assert_eq!(fold_roundtrip(100, true, 50), 75);
    assert_eq!(fold_roundtrip(0, true, 120), 120);
}

#[test]
fn ip_resolution_retries_ten_times() {
    let mut retry = ResolveIpRetry::new();
    for _ in 0..10 {
        assert!(retry.on_failure());
    }
    // The eleventh failure is surfaced.
    assert!(!retry.on_failure());
}

#[test]
fn installed_edge_is_sorted_by_shard() {
    let mut sub = Subscription::new();
    let s_right = ShardIdent { workchain: 0, prefix: 0xC000_0000_0000_0000 };
    let s_left = ShardIdent { workchain: 0, prefix: 0x4000_0000_0000_0000 };
    let mc = BlockData {
        id: BlockId { shard: ShardIdent { workchain: -1, prefix: 0x8000_0000_0000_0000 }, seq_no: 10 },
        gen_utime: 500,
        prev1: BlockId { shard: ShardIdent { workchain: -1, prefix: 0x8000_0000_0000_0000 }, seq_no: 9 },
        prev2: None,
        account_blocks: Vec::new(),
        shard_tops: vec![
            (s_right, BlockId { shard: s_right, seq_no: 7 }),
            (s_left, BlockId { shard: s_left, seq_no: 5 }),
        ],
    };
    let (_, _) = sub.finish_step(mc, &Vec::new());
    let tip = sub.last_tip().as_ref().unwrap();
    assert_eq!(tip.shards_edge.entries().as_slice(), &[(s_left, 5), (s_right, 7)]);
}
