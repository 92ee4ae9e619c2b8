//! The subscription state: the pending-message registry over its two
//! workchain buckets, the pending-message counter, and the cached
//! masterchain tip.
//!
//! The surrounding runtime submits messages over its control channel,
//! drives the chain walker, and awaits the reply channels; every decision
//! about the registry and the walk itself is made here.

use vstd::prelude::*;

use crate::edge::Edge;
use crate::edge::edge_distinct;
use crate::edge::edge_sorted;
use crate::edge::sorted_edge;
use crate::registry::PendingMessage;
use crate::registry::PendingMessages;
use crate::registry::ReplySender;
use crate::registry::send_reply;
use crate::types::AccountBlock;
use crate::types::BASE_WORKCHAIN_ID;
use crate::types::BlockData;
use crate::types::BlockId;
use crate::types::MASTERCHAIN_ID;
use crate::types::ShardIdent;
use crate::types::TransactionWithHash;
use crate::types::Uint256;
use crate::types::spec_matched_in;

verus! {

/// The cached masterchain tip is reused while it is younger than this
/// many seconds of chain time.
pub const LAST_MC_BLOCK_TTL_SEC: u32 = 10;

/// Where an external-in message is headed: a workchain and an account
/// address, or somewhere this engine does not deliver to.
#[derive(Clone, Copy, Debug, PartialEq, Eq, Structural)]
pub enum MessageDst {
    ExtIn { workchain: i32, account: Uint256 },
    Other,
}

/// The engine's view of a message to submit: its destination and the
/// representation hash of its serialized cell.
#[derive(Clone, Copy, Debug, PartialEq, Eq, Structural)]
pub struct MessageInfo {
    pub dst: MessageDst,
    pub hash: Uint256,
}

/// Why a message was refused at registration.
#[derive(Clone, Copy, Debug, PartialEq, Eq, Structural)]
pub enum SendMessageError {
    /// The message is not an external-in message.
    NotExternalIn,
    /// The destination workchain is neither the masterchain nor the base
    /// workchain.
    UnsupportedWorkchain,
    /// A message with this hash is already pending for this account.
    AlreadySent,
}

impl SendMessageError {
    /// A short description of the refusal.
    pub fn describe(&self) -> (r: &'static str)
        ensures
            r@ == (match self {
                SendMessageError::NotExternalIn => "expected external message"@,
                SendMessageError::UnsupportedWorkchain => "unsupported workchain"@,
                SendMessageError::AlreadySent => "message already sent"@,
            }),
    {
        match self {
            SendMessageError::NotExternalIn => "expected external message",
            SendMessageError::UnsupportedWorkchain => "unsupported workchain",
            SendMessageError::AlreadySent => "message already sent",
        }
    }
}

/// One delivery made while scanning a block: the account, the pending
/// message hash, and the transaction handed to the waiter.
#[derive(Clone, Copy, Debug, PartialEq, Eq, Structural)]
pub struct DeliveredMessage {
    pub workchain: i32,
    pub account: Uint256,
    pub message_hash: Uint256,
    pub transaction: TransactionWithHash,
}

/// The cached "last masterchain block": its generation time, the block
/// itself, and the shards edge at its height.
pub struct StoredMcBlock {
    pub gen_utime: u32,
    pub data: BlockData,
    pub shards_edge: Edge,
}

/// The subscription state: one pending bucket per supported workchain, a
/// counter of all pending messages, and the cached masterchain tip.
pub struct Subscription {
    mc_pending_messages: PendingMessages,
    sc_pending_messages: PendingMessages,
    pending_message_count: usize,
    last_mc_block: Option<StoredMcBlock>,
}

impl Subscription {
    /// The masterchain bucket, for specification purposes.
    pub closed spec fn mc(self) -> PendingMessages {
        self.mc_pending_messages
    }

    /// The base-workchain bucket, for specification purposes.
    pub closed spec fn sc(self) -> PendingMessages {
        self.sc_pending_messages
    }

    /// The pending-message counter, for specification purposes.
    pub closed spec fn count(self) -> nat {
        self.pending_message_count as nat
    }

    /// The cached masterchain tip, for specification purposes.
    pub closed spec fn tip(self) -> Option<StoredMcBlock> {
        self.last_mc_block
    }

    /// The bucket that serves `workchain`.
    pub open spec fn bucket(self, workchain: i32) -> PendingMessages {
        if workchain == MASTERCHAIN_ID {
            self.mc()
        } else {
            self.sc()
        }
    }

    /// Whether two workchain ids are served by the same bucket: the
    /// masterchain has a bucket of its own, every other id shares the
    /// shard-chain bucket.
    pub open spec fn same_bucket(wc1: i32, wc2: i32) -> bool {
        (wc1 == MASTERCHAIN_ID) <==> (wc2 == MASTERCHAIN_ID)
    }

    /// The expiry pending under `(workchain, account, hash)`.
    pub open spec fn spec_pending(self, workchain: i32, a: Uint256, h: Uint256) -> Option<u32> {
        self.bucket(workchain).spec_get(a, h)
    }

    /// The invariant of the subscription: both buckets are well formed
    /// and the counter equals the number of pending messages over all
    /// inner maps of both buckets.
    pub open spec fn inv(self) -> bool {
        &&& self.mc().wf()
        &&& self.sc().wf()
        &&& self.count() == self.mc().total() + self.sc().total()
        &&& match self.tip() {
            Some(b) => b.shards_edge.wf(),
            None => true,
        }
    }

    /// A fresh subscription: nothing pending, no cached tip.
    pub fn new() -> (r: Subscription)
        ensures
            r.inv(),
            r.count() == 0,
            r.tip() is None,
            forall|wc: i32, a: Uint256, h: Uint256| #[trigger] r.spec_pending(wc, a, h) is None,
    {
        Subscription {
            mc_pending_messages: PendingMessages::new(),
            sc_pending_messages: PendingMessages::new(),
            pending_message_count: 0,
            last_mc_block: None,
        }
    }

    /// The number of messages currently pending.
    pub fn pending_count(&self) -> (r: usize)
        ensures
            r == self.count(),
    {
        self.pending_message_count
    }

    /// Registers a message: checks that it is an external-in message to
    /// a supported workchain and not yet pending, then stores the expiry
    /// and the waiter's sender under its destination and hash, counting
    /// it. The caller submits the serialized message afterwards and
    /// rolls the registration back if submission fails.
    pub fn register_message(
        &mut self,
        msg: &MessageInfo,
        expire_at: u32,
        tx: ReplySender,
    ) -> (r: Result<(), SendMessageError>)
        requires
            old(self).inv(),
            old(self).count() < usize::MAX,
        ensures
            final(self).inv(),
            final(self).tip() == old(self).tip(),
            match r {
                Ok(()) => {
                    &&& msg.dst matches MessageDst::ExtIn { workchain, account } && (workchain
                        == MASTERCHAIN_ID || workchain == BASE_WORKCHAIN_ID) && old(self).spec_pending(workchain, account, msg.hash) is None && final(self).spec_pending(workchain, account, msg.hash) == Some(expire_at)
                    &&& final(self).count() == old(self).count() + 1
                    &&& forall|wc: i32, a2: Uint256, h2: Uint256|
                        !(Subscription::same_bucket(wc, msg.dst->ExtIn_workchain) && a2
                            == msg.dst->ExtIn_account && h2 == msg.hash)
                            ==> #[trigger] final(self).spec_pending(wc, a2, h2) == old(self).spec_pending(wc, a2, h2)
                },
                Err(e) => {
                    &&& *final(self) == *old(self)
                    &&& (e == SendMessageError::NotExternalIn <==> msg.dst is Other)
                    &&& (e == SendMessageError::UnsupportedWorkchain <==> (
                    msg.dst matches MessageDst::ExtIn { workchain, .. } && workchain
                        != MASTERCHAIN_ID && workchain != BASE_WORKCHAIN_ID))
                    &&& (e == SendMessageError::AlreadySent <==> (
                    msg.dst matches MessageDst::ExtIn { workchain, account } && (workchain
                        == MASTERCHAIN_ID || workchain == BASE_WORKCHAIN_ID) && old(self).spec_pending(workchain, account, msg.hash) is Some))
                },
            },
    {
        let (workchain, account) = match msg.dst {
            MessageDst::ExtIn { workchain, account } => (workchain, account),
            MessageDst::Other => {
                return Err(SendMessageError::NotExternalIn);
            },
        };
        if workchain == MASTERCHAIN_ID {
            if self.mc_pending_messages.has_pending(&account, &msg.hash) {
                return Err(SendMessageError::AlreadySent);
            }
            self.mc_pending_messages.insert(account, msg.hash, PendingMessage { expire_at, tx });
        } else if workchain == BASE_WORKCHAIN_ID {
            if self.sc_pending_messages.has_pending(&account, &msg.hash) {
                return Err(SendMessageError::AlreadySent);
            }
            self.sc_pending_messages.insert(account, msg.hash, PendingMessage { expire_at, tx });
        } else {
            return Err(SendMessageError::UnsupportedWorkchain);
        }
        self.pending_message_count = self.pending_message_count + 1;
        Ok(())
    }

    /// Undoes a registration after the message could not be submitted:
    /// removes the entry, prunes the account when it was the last one,
    /// and — unlike a match — counts the message out again. The waiter
    /// is told that the message was dropped without observation.
    pub fn rollback_message(&mut self, workchain: i32, account: &Uint256, hash: &Uint256) -> (r:
        bool)
        requires
            old(self).inv(),
            workchain == MASTERCHAIN_ID || workchain == BASE_WORKCHAIN_ID,
        ensures
            final(self).inv(),
            final(self).tip() == old(self).tip(),
            r == old(self).spec_pending(workchain, *account, *hash) is Some,
            final(self).spec_pending(workchain, *account, *hash) is None,
            r ==> final(self).count() + 1 == old(self).count(),
            !r ==> *final(self) == *old(self),
            forall|wc: i32, a2: Uint256, h2: Uint256|
                !(Subscription::same_bucket(wc, workchain) && a2 == *account && h2 == *hash)
                    ==> #[trigger] final(self).spec_pending(wc, a2, h2) == old(self).spec_pending(
                    wc,
                    a2,
                    h2,
                ),
    {
        let taken = if workchain == MASTERCHAIN_ID {
            self.mc_pending_messages.take_message(account, hash)
        } else {
            self.sc_pending_messages.take_message(account, hash)
        };
        match taken {
            Some(m) => {
                self.pending_message_count = self.pending_message_count - 1;
                send_reply(m.tx, None);
                true
            },
            None => false,
        }
    }

    /// Drops every pending message, in both buckets: each waiter
    /// receives the "dropped without observation" answer, so that no
    /// caller hangs when the subscription goes away.
    pub fn purge(&mut self)
        requires
            old(self).inv(),
        ensures
            final(self).inv(),
            final(self).count() == 0,
            final(self).tip() == old(self).tip(),
            forall|wc: i32, a: Uint256, h: Uint256|
                #[trigger] final(self).spec_pending(wc, a, h) is None,
    {
        let removed_mc = self.mc_pending_messages.drain_all();
        let removed_sc = self.sc_pending_messages.drain_all();
        self.pending_message_count = 0;
        deliver_dropped(removed_mc);
        deliver_dropped(removed_sc);
    }

    /// Removes every pending message, in both buckets, whose expiry lies
    /// strictly before `utime`, counting them out; each removed waiter
    /// receives the "dropped without observation" answer.
    pub fn remove_expired_messages(&mut self, utime: u32)
        requires
            old(self).inv(),
        ensures
            final(self).inv(),
            final(self).tip() == old(self).tip(),
            forall|wc: i32, a: Uint256, h: Uint256| #[trigger] final(self).spec_pending(wc, a, h)
                == (match old(self).spec_pending(wc, a, h) {
                Some(e) => if e >= utime {
                    Some(e)
                } else {
                    None::<u32>
                },
                None => None::<u32>,
            }),
    {
        let removed_mc = self.mc_pending_messages.remove_expired(utime);
        let removed_sc = self.sc_pending_messages.remove_expired(utime);
        self.pending_message_count = self.pending_message_count - removed_mc.len()
            - removed_sc.len();
        deliver_dropped(removed_mc);
        deliver_dropped(removed_sc);
    }
}

/// Whether some transaction among the first `bi` account blocks — or
/// among the first `tj` transactions of account block `bi` — carries `h`
/// as its inbound-message hash for account `a`.
pub open spec fn spec_matched_upto(
    blocks: Seq<AccountBlock>,
    bi: int,
    tj: int,
    a: Uint256,
    h: Uint256,
) -> bool {
    (exists|i: int, j: int|
        0 <= i < bi && i < blocks.len() && blocks[i].address == a && 0 <= j
            < blocks[i].transactions@.len() && blocks[i].transactions@[j].in_msg_hash == Some(h))
        || (0 <= bi < blocks.len() && blocks[bi].address == a && exists|j: int|
        0 <= j < tj && j < blocks[bi].transactions@.len() && blocks[bi].transactions@[j].in_msg_hash
            == Some(h))
}

impl Subscription {
    /// Takes the pending message under `(workchain, account, hash)` out
    /// of its bucket and counts it out.
    fn take_pending(&mut self, workchain: i32, account: &Uint256, hash: &Uint256) -> (r: Option<
        PendingMessage,
    >)
        requires
            old(self).mc().wf(),
            old(self).sc().wf(),
            old(self).count() == old(self).mc().total() + old(self).sc().total(),
            workchain == MASTERCHAIN_ID || workchain == BASE_WORKCHAIN_ID,
        ensures
            final(self).mc().wf(),
            final(self).sc().wf(),
            final(self).tip() == old(self).tip(),
            final(self).count() == final(self).mc().total() + final(self).sc().total(),
            match r {
                Some(m) => {
                    &&& old(self).spec_pending(workchain, *account, *hash) == Some(m.expire_at)
                    &&& final(self).spec_pending(workchain, *account, *hash) is None
                    &&& old(self).count() == final(self).count() + 1
                },
                None => {
                    &&& old(self).spec_pending(workchain, *account, *hash) is None
                    &&& *final(self) == *old(self)
                },
            },
            forall|wc: i32, a2: Uint256, h2: Uint256|
                !(Subscription::same_bucket(wc, workchain) && a2 == *account && h2 == *hash)
                    ==> #[trigger] final(self).spec_pending(wc, a2, h2) == old(self).spec_pending(
                    wc,
                    a2,
                    h2,
                ),
    {
        let taken = if workchain == MASTERCHAIN_ID {
            self.mc_pending_messages.take_message(account, hash)
        } else {
            self.sc_pending_messages.take_message(account, hash)
        };
        if taken.is_some() {
            self.pending_message_count = self.pending_message_count - 1;
        }
        taken
    }

    /// Scans a block's account blocks against one bucket: every
    /// transaction whose inbound-message hash is pending for its account
    /// removes the entry, counts it out, and hands the waiter the
    /// transaction. Returns the deliveries that were made; each pending
    /// key is delivered at most once.
    pub fn process_block(&mut self, workchain: i32, account_blocks: &Vec<AccountBlock>) -> (
        delivered: Vec<DeliveredMessage>)
        requires
            old(self).inv(),
            workchain == MASTERCHAIN_ID || workchain == BASE_WORKCHAIN_ID,
        ensures
            final(self).inv(),
            final(self).tip() == old(self).tip(),
            forall|wc: i32, a: Uint256, h: Uint256| #[trigger] final(self).spec_pending(wc, a, h)
                == (if Subscription::same_bucket(wc, workchain) && spec_matched_in(
                account_blocks@,
                a,
                h,
            ) {
                None::<u32>
            } else {
                old(self).spec_pending(wc, a, h)
            }),
            old(self).count() == final(self).count() + delivered@.len(),
            forall|k: int|
                0 <= k < delivered@.len() ==> {
                    let d = #[trigger] delivered@[k];
                    &&& d.workchain == workchain
                    &&& d.transaction.in_msg_hash == Some(d.message_hash)
                    &&& spec_matched_in(account_blocks@, d.account, d.message_hash)
                    &&& old(self).spec_pending(workchain, d.account, d.message_hash) is Some
                },
            forall|k1: int, k2: int|
                0 <= k1 < k2 < delivered@.len() ==> !(#[trigger] delivered@[k1].account
                    == #[trigger] delivered@[k2].account && delivered@[k1].message_hash
                    == delivered@[k2].message_hash),
            forall|a: Uint256, h: Uint256|
                (#[trigger] old(self).spec_pending(workchain, a, h) is Some && spec_matched_in(
                    account_blocks@,
                    a,
                    h,
                )) ==> exists|k: int|
                    0 <= k < delivered@.len() && #[trigger] delivered@[k].account == a
                        && delivered@[k].message_hash == h,
    {
        let ghost pre = *self;
        let ghost blocks = account_blocks@;
        let mut delivered: Vec<DeliveredMessage> = Vec::new();
        let n = account_blocks.len();
        let mut i: usize = 0;
        while i < n
            invariant
                pre.inv(),
                self.mc().wf(),
                self.sc().wf(),
                self.tip() == pre.tip(),
                workchain == MASTERCHAIN_ID || workchain == BASE_WORKCHAIN_ID,
                blocks == account_blocks@,
                n == blocks.len(),
                i <= n,
                pre.count() == self.count() + delivered@.len(),
                self.count() == self.mc().total() + self.sc().total(),
                forall|k1: int, k2: int|
                    0 <= k1 < k2 < delivered@.len() ==> !(#[trigger] delivered@[k1].account
                        == #[trigger] delivered@[k2].account && delivered@[k1].message_hash
                        == delivered@[k2].message_hash),
                forall|wc: i32, a: Uint256, h: Uint256| #[trigger] self.spec_pending(wc, a, h) == (
                if Subscription::same_bucket(wc, workchain) && spec_matched_upto(
                    blocks,
                    i as int,
                    0,
                    a,
                    h,
                ) {
                    None::<u32>
                } else {
                    pre.spec_pending(wc, a, h)
                }),
                forall|k: int|
                    0 <= k < delivered@.len() ==> {
                        let d = #[trigger] delivered@[k];
                        &&& d.workchain == workchain
                        &&& d.transaction.in_msg_hash == Some(d.message_hash)
                        &&& spec_matched_upto(blocks, i as int, 0, d.account, d.message_hash)
                        &&& pre.spec_pending(workchain, d.account, d.message_hash) is Some
                        &&& self.spec_pending(workchain, d.account, d.message_hash) is None
                    },
                forall|a: Uint256, h: Uint256|
                    (#[trigger] pre.spec_pending(workchain, a, h) is Some && spec_matched_upto(
                        blocks,
                        i as int,
                        0,
                        a,
                        h,
                    )) ==> exists|k: int|
                        0 <= k < delivered@.len() && #[trigger] delivered@[k].account == a
                            && delivered@[k].message_hash == h,
            decreases n - i,
        {
            let ab = &account_blocks[i];
            let m = ab.transactions.len();
            let mut j: usize = 0;
            while j < m
                invariant
                    pre.inv(),
                    self.mc().wf(),
                    self.sc().wf(),
                    self.tip() == pre.tip(),
                    workchain == MASTERCHAIN_ID || workchain == BASE_WORKCHAIN_ID,
                    blocks == account_blocks@,
                    n == blocks.len(),
                    i < n,
                    ab == account_blocks@[i as int],
                    m == ab.transactions@.len(),
                    j <= m,
                    pre.count() == self.count() + delivered@.len(),
                    self.count() == self.mc().total() + self.sc().total(),
                    forall|k1: int, k2: int|
                        0 <= k1 < k2 < delivered@.len() ==> !(#[trigger] delivered@[k1].account
                            == #[trigger] delivered@[k2].account && delivered@[k1].message_hash
                            == delivered@[k2].message_hash),
                    forall|wc: i32, a: Uint256, h: Uint256| #[trigger] self.spec_pending(wc, a, h)
                        == (if Subscription::same_bucket(wc, workchain) && spec_matched_upto(
                        blocks,
                        i as int,
                        j as int,
                        a,
                        h,
                    ) {
                        None::<u32>
                    } else {
                        pre.spec_pending(wc, a, h)
                    }),
                    forall|k: int|
                        0 <= k < delivered@.len() ==> {
                            let d = #[trigger] delivered@[k];
                            &&& d.workchain == workchain
                            &&& d.transaction.in_msg_hash == Some(d.message_hash)
                            &&& spec_matched_upto(blocks, i as int, j as int, d.account, d.message_hash)
                            &&& pre.spec_pending(workchain, d.account, d.message_hash) is Some
                            &&& self.spec_pending(workchain, d.account, d.message_hash) is None
                        },
                    forall|a: Uint256, h: Uint256|
                        (#[trigger] pre.spec_pending(workchain, a, h) is Some && spec_matched_upto(
                            blocks,
                            i as int,
                            j as int,
                            a,
                            h,
                        )) ==> exists|k: int|
                            0 <= k < delivered@.len() && #[trigger] delivered@[k].account == a
                                && delivered@[k].message_hash == h,
                decreases m - j,
            {
                let ghost cur0 = *self;
                let ghost dpre = delivered@;
                let t = ab.transactions[j];
                match t.in_msg_hash {
                    Some(h0) => {
                        match self.take_pending(workchain, &ab.address, &h0) {
                            Some(msg) => {
                                send_reply(msg.tx, Some(t));
                                delivered.push(
                                    DeliveredMessage {
                                        workchain,
                                        account: ab.address,
                                        message_hash: h0,
                                        transaction: t,
                                    },
                                );
                            },
                            None => {},
                        }
                    },
                    None => {},
                }
                proof {
                    assert forall|a: Uint256, h: Uint256|
                        spec_matched_upto(blocks, i as int, j + 1, a, h) == (spec_matched_upto(
                            blocks,
                            i as int,
                            j as int,
                            a,
                            h,
                        ) || (blocks[i as int].address == a
                            && blocks[i as int].transactions@[j as int].in_msg_hash == Some(
                            h,
                        ))) by {}
                    assert forall|wc: i32, a: Uint256, h: Uint256| #[trigger] self.spec_pending(
                        wc,
                        a,
                        h,
                    ) == (if Subscription::same_bucket(wc, workchain) && spec_matched_upto(
                        blocks,
                        i as int,
                        j + 1,
                        a,
                        h,
                    ) {
                        None::<u32>
                    } else {
                        pre.spec_pending(wc, a, h)
                    }) by {
                        // Bring the pre-call lookup into scope so that the
                        // loop invariant instantiates at this key.
                        let hit = cur0.spec_pending(wc, a, h);
                        if Subscription::same_bucket(wc, workchain) && a == account_blocks@[i as int].address
                            && blocks[i as int].transactions@[j as int].in_msg_hash == Some(h) {
                            assert(self.spec_pending(wc, a, h) == self.spec_pending(
                                workchain,
                                a,
                                h,
                            ));
                            assert(self.spec_pending(workchain, a, h) is None);
                        } else {
                            assert(self.spec_pending(wc, a, h) == cur0.spec_pending(wc, a, h));
                            if Subscription::same_bucket(wc, workchain) {
                                assert(spec_matched_upto(blocks, i as int, j + 1, a, h)
                                    == spec_matched_upto(blocks, i as int, j as int, a, h));
                            }
                        }
                    }
                }
                proof {
                    assert forall|a: Uint256, h: Uint256|
                        (pre.spec_pending(workchain, a, h) is Some && spec_matched_upto(
                            blocks,
                            i as int,
                            j + 1,
                            a,
                            h,
                        )) implies exists|k: int|
                            0 <= k < delivered@.len() && #[trigger] delivered@[k].account == a
                                && delivered@[k].message_hash == h by {
                        if spec_matched_upto(blocks, i as int, j as int, a, h) {
                            let k0 = choose|k0: int|
                                0 <= k0 < dpre.len() && #[trigger] dpre[k0].account == a
                                    && dpre[k0].message_hash == h;
                            assert(delivered@[k0] == dpre[k0]);
                        } else {
                            assert(blocks[i as int].address == a
                                && blocks[i as int].transactions@[j as int].in_msg_hash == Some(
                                h,
                            ));
                            assert(cur0.spec_pending(workchain, a, h) == pre.spec_pending(
                                workchain,
                                a,
                                h,
                            ));
                            assert(delivered@.last().account == a && delivered@.last().message_hash
                                == h);
                            assert(delivered@[delivered@.len() - 1] == delivered@.last());
                        }
                    }
                }
                j = j + 1;
            }
            proof {
                assert forall|a: Uint256, h: Uint256|
                    spec_matched_upto(blocks, i + 1, 0, a, h) == spec_matched_upto(
                        blocks,
                        i as int,
                        m as int,
                        a,
                        h,
                    ) by {
                    if spec_matched_upto(blocks, i + 1, 0, a, h) {
                        let (i0, j0) = choose|i0: int, j0: int|
                            0 <= i0 < i + 1 && i0 < blocks.len() && blocks[i0].address == a && 0
                                <= j0 < blocks[i0].transactions@.len()
                                && blocks[i0].transactions@[j0].in_msg_hash == Some(h);
                        if i0 < i {
                            assert(spec_matched_upto(blocks, i as int, m as int, a, h));
                        } else {
                            assert(spec_matched_upto(blocks, i as int, m as int, a, h));
                        }
                    }
                }
            }
            i = i + 1;
        }
        proof {
            assert forall|a: Uint256, h: Uint256|
                spec_matched_upto(blocks, n as int, 0, a, h) == spec_matched_in(blocks, a, h) by {
                if spec_matched_in(blocks, a, h) {
                    let (i0, j0) = choose|i0: int, j0: int|
                        0 <= i0 < blocks.len() && blocks[i0].address == a && 0 <= j0
                            < blocks[i0].transactions@.len()
                            && blocks[i0].transactions@[j0].in_msg_hash == Some(h);
                    assert(spec_matched_upto(blocks, n as int, 0, a, h));
                }
            }
        }
        delivered
    }

    /// Whether the cached masterchain tip is still fresh at chain time
    /// `now`: present and generated less than the cache lifetime ago.
    /// When it is not, the caller fetches the node's current tip and
    /// installs it with [`Subscription::install_tip`].
    pub fn cached_tip_fresh(&self, now: u32) -> (r: bool)
        ensures
            r == match self.tip() {
                Some(b) => b.gen_utime + LAST_MC_BLOCK_TTL_SEC > now,
                None => false,
            },
    {
        match &self.last_mc_block {
            Some(b) => (b.gen_utime as u64) + (LAST_MC_BLOCK_TTL_SEC as u64) > (now as u64),
            None => false,
        }
    }

    /// The cached masterchain tip.
    pub fn last_tip(&self) -> (r: &Option<StoredMcBlock>)
        ensures
            *r == self.tip(),
    {
        &self.last_mc_block
    }

    /// Installs a freshly fetched masterchain tip. The generation time
    /// never goes backwards: within a run the chain only moves forward,
    /// and the new tip must not predate the cached one.
    pub fn install_tip(&mut self, block: StoredMcBlock)
        requires
            old(self).inv(),
            block.shards_edge.wf(),
            match old(self).tip() {
                Some(b) => block.gen_utime >= b.gen_utime,
                None => true,
            },
        ensures
            final(self).inv(),
            final(self).tip() == Some(block),
            final(self).mc() == old(self).mc(),
            final(self).sc() == old(self).sc(),
            final(self).count() == old(self).count(),
            match old(self).tip() {
                Some(b) => final(self).tip()->Some_0.gen_utime >= b.gen_utime,
                None => true,
            },
    {
        self.last_mc_block = Some(block);
    }
}

/// Whether some collected shard block carries a transaction with `h` as
/// its inbound-message hash for account `a`.
pub open spec fn spec_matched_any(bs: Seq<BlockData>, a: Uint256, h: Uint256) -> bool {
    exists|b: int| 0 <= b < bs.len() && spec_matched_in(bs[b].account_blocks@, a, h)
}

/// The same, restricted to the first `bi` collected blocks.
pub open spec fn spec_matched_any_upto(bs: Seq<BlockData>, bi: int, a: Uint256, h: Uint256) -> bool {
    exists|b: int| 0 <= b < bi && b < bs.len() && spec_matched_in(bs[b].account_blocks@, a, h)
}

/// The shard tops of a masterchain block reduced to sequence numbers:
/// the entries of the new shards edge.
pub open spec fn spec_reduced_tops(tops: Seq<(ShardIdent, BlockId)>) -> Seq<(ShardIdent, u32)> {
    tops.map_values(|t: (ShardIdent, BlockId)| (t.0, t.1.seq_no))
}

/// What one walker step leaves of a pending entry: it survives exactly
/// when it was pending, was not matched by any processed block, and has
/// not expired at the new chain time.
pub open spec fn spec_step_survivor(old_val: Option<u32>, matched: bool, utime: u32) -> Option<
    u32,
> {
    match old_val {
        Some(e) => if !matched && e >= utime {
            Some(e)
        } else {
            None::<u32>
        },
        None => None::<u32>,
    }
}

impl Subscription {
    /// Finishes one walker step once the next masterchain block and the
    /// shard blocks between the old and new tips have been fetched:
    /// processes the shard blocks against the shard-chain bucket and the
    /// masterchain block against its own, removes everything expired at
    /// the new chain time, installs the new cached tip with the shards
    /// edge reduced to sequence numbers, and reports whether messages
    /// remain pending. Every pending message that a processed block
    /// matches is delivered in this step.
    pub fn finish_step(&mut self, next_mc: BlockData, shard_blocks: &Vec<BlockData>) -> (r: (
        bool,
        Vec<DeliveredMessage>,
    ))
        requires
            old(self).inv(),
            forall|i: int, j: int|
                0 <= i < j < next_mc.shard_tops@.len() ==> next_mc.shard_tops@[i].0
                    != next_mc.shard_tops@[j].0,
            match old(self).tip() {
                Some(b) => next_mc.gen_utime >= b.gen_utime,
                None => true,
            },
        ensures
            final(self).inv(),
            match final(self).tip() {
                Some(b) => {
                    &&& b.gen_utime == next_mc.gen_utime
                    &&& b.data == next_mc
                    &&& edge_sorted(b.shards_edge@)
                    &&& b.shards_edge@.to_multiset() == spec_reduced_tops(
                        next_mc.shard_tops@,
                    ).to_multiset()
                },
                None => false,
            },
            match old(self).tip() {
                Some(b) => final(self).tip()->Some_0.gen_utime >= b.gen_utime,
                None => true,
            },
            forall|wc: i32, a: Uint256, h: Uint256| #[trigger] final(self).spec_pending(wc, a, h)
                == spec_step_survivor(
                old(self).spec_pending(wc, a, h),
                if wc == MASTERCHAIN_ID {
                    spec_matched_in(next_mc.account_blocks@, a, h)
                } else {
                    spec_matched_any(shard_blocks@, a, h)
                },
                next_mc.gen_utime,
            ),
            r.0 == (final(self).count() > 0),
            forall|k: int|
                0 <= k < r.1@.len() ==> {
                    let d = #[trigger] r.1@[k];
                    &&& d.transaction.in_msg_hash == Some(d.message_hash)
                    &&& (d.workchain == MASTERCHAIN_ID || d.workchain == BASE_WORKCHAIN_ID)
                    &&& old(self).spec_pending(d.workchain, d.account, d.message_hash) is Some
                },
            forall|k1: int, k2: int|
                0 <= k1 < k2 < r.1@.len() ==> !(#[trigger] r.1@[k1].workchain
                    == #[trigger] r.1@[k2].workchain && r.1@[k1].account == r.1@[k2].account
                    && r.1@[k1].message_hash == r.1@[k2].message_hash),
            forall|a: Uint256, h: Uint256|
                (#[trigger] old(self).spec_pending(BASE_WORKCHAIN_ID, a, h) is Some
                    && spec_matched_any(shard_blocks@, a, h)) ==> exists|k: int|
                    0 <= k < r.1@.len() && #[trigger] r.1@[k].account == a
                        && r.1@[k].message_hash == h,
            forall|a: Uint256, h: Uint256|
                (#[trigger] old(self).spec_pending(MASTERCHAIN_ID, a, h) is Some
                    && spec_matched_in(next_mc.account_blocks@, a, h)) ==> exists|k: int|
                    0 <= k < r.1@.len() && #[trigger] r.1@[k].account == a
                        && r.1@[k].message_hash == h,
    {
        let ghost pre = *self;
        let mut delivered: Vec<DeliveredMessage> = Vec::new();
        let ghost bs = shard_blocks@;
        let nb = shard_blocks.len();
        let mut bi: usize = 0;
        while bi < nb
            invariant
                pre.inv(),
                self.inv(),
                self.tip() == pre.tip(),
                bs == shard_blocks@,
                nb == bs.len(),
                bi <= nb,
                forall|wc: i32, a: Uint256, h: Uint256| #[trigger] self.spec_pending(wc, a, h) == (
                if wc != MASTERCHAIN_ID && spec_matched_any_upto(bs, bi as int, a, h) {
                    None::<u32>
                } else {
                    pre.spec_pending(wc, a, h)
                }),
                forall|k: int|
                    0 <= k < delivered@.len() ==> #[trigger] delivered@[k].transaction.in_msg_hash
                        == Some(delivered@[k].message_hash),
                forall|a: Uint256, h: Uint256|
                    (#[trigger] pre.spec_pending(BASE_WORKCHAIN_ID, a, h) is Some
                        && spec_matched_any_upto(bs, bi as int, a, h)) ==> exists|k: int|
                        0 <= k < delivered@.len() && #[trigger] delivered@[k].account == a
                            && delivered@[k].message_hash == h,
                forall|k: int|
                    0 <= k < delivered@.len() ==> {
                        let d = #[trigger] delivered@[k];
                        &&& d.workchain == BASE_WORKCHAIN_ID
                        &&& pre.spec_pending(BASE_WORKCHAIN_ID, d.account, d.message_hash) is Some
                        &&& self.spec_pending(BASE_WORKCHAIN_ID, d.account, d.message_hash) is None
                    },
                forall|k1: int, k2: int|
                    0 <= k1 < k2 < delivered@.len() ==> !(#[trigger] delivered@[k1].account
                        == #[trigger] delivered@[k2].account && delivered@[k1].message_hash
                        == delivered@[k2].message_hash),
            decreases nb - bi,
        {
            let ghost cur0 = *self;
            let ghost dpre = delivered@;
            let block = &shard_blocks[bi];
            let mut d = self.process_block(BASE_WORKCHAIN_ID, &block.account_blocks);
            let ghost dnew = d@;
            delivered.append(&mut d);
            proof {
                assert forall|a: Uint256, h: Uint256|
                    spec_matched_any_upto(bs, bi + 1, a, h) == (spec_matched_any_upto(
                        bs,
                        bi as int,
                        a,
                        h,
                    ) || spec_matched_in(bs[bi as int].account_blocks@, a, h)) by {
                    if spec_matched_any_upto(bs, bi + 1, a, h) {
                        let b0 = choose|b0: int|
                            0 <= b0 < bi + 1 && b0 < bs.len() && spec_matched_in(
                                bs[b0].account_blocks@,
                                a,
                                h,
                            );
                        if b0 < bi {
                            assert(spec_matched_any_upto(bs, bi as int, a, h));
                        }
                    }
                }
                assert forall|wc: i32, a: Uint256, h: Uint256| #[trigger] self.spec_pending(
                    wc,
                    a,
                    h,
                ) == (if wc != MASTERCHAIN_ID && spec_matched_any_upto(bs, bi + 1, a, h) {
                    None::<u32>
                } else {
                    pre.spec_pending(wc, a, h)
                }) by {
                    // Bring the pre-call lookup into scope so that the
                    // loop invariant instantiates at this key.
                    let step = cur0.spec_pending(wc, a, h);
                    if Subscription::same_bucket(wc, BASE_WORKCHAIN_ID) && spec_matched_in(
                        bs[bi as int].account_blocks@,
                        a,
                        h,
                    ) {
                        assert(self.spec_pending(wc, a, h) is None);
                    } else {
                        assert(self.spec_pending(wc, a, h) == cur0.spec_pending(wc, a, h));
                    }
                }
                assert forall|a: Uint256, h: Uint256|
                    (pre.spec_pending(BASE_WORKCHAIN_ID, a, h) is Some && spec_matched_any_upto(
                        bs,
                        bi + 1,
                        a,
                        h,
                    )) implies exists|k: int|
                        0 <= k < delivered@.len() && #[trigger] delivered@[k].account == a
                            && delivered@[k].message_hash == h by {
                    if spec_matched_any_upto(bs, bi as int, a, h) {
                        let k0 = choose|k0: int|
                            0 <= k0 < dpre.len() && #[trigger] dpre[k0].account == a
                                && dpre[k0].message_hash == h;
                        assert(delivered@[k0] == dpre[k0]);
                    } else {
                        assert(spec_matched_in(bs[bi as int].account_blocks@, a, h));
                        assert(cur0.spec_pending(BASE_WORKCHAIN_ID, a, h) == pre.spec_pending(
                            BASE_WORKCHAIN_ID,
                            a,
                            h,
                        ));
                        let k0 = choose|k0: int|
                            0 <= k0 < dnew.len() && #[trigger] dnew[k0].account == a
                                && dnew[k0].message_hash == h;
                        assert(delivered@[dpre.len() + k0] == dnew[k0]);
                    }
                }
                assert forall|k: int|
                    0 <= k < delivered@.len() implies {
                        let d = #[trigger] delivered@[k];
                        &&& d.workchain == BASE_WORKCHAIN_ID
                        &&& pre.spec_pending(BASE_WORKCHAIN_ID, d.account, d.message_hash) is Some
                        &&& self.spec_pending(BASE_WORKCHAIN_ID, d.account, d.message_hash) is None
                    } by {
                    if k < dpre.len() {
                        assert(delivered@[k] == dpre[k]);
                        assert(cur0.spec_pending(
                            BASE_WORKCHAIN_ID,
                            dpre[k].account,
                            dpre[k].message_hash,
                        ) is None);
                    } else {
                        let d = dnew[k - dpre.len()];
                        assert(delivered@[k] == d);
                        assert(cur0.spec_pending(
                            BASE_WORKCHAIN_ID,
                            d.account,
                            d.message_hash,
                        ) is Some);
                        assert(!spec_matched_any_upto(bs, bi as int, d.account, d.message_hash));
                        assert(pre.spec_pending(
                            BASE_WORKCHAIN_ID,
                            d.account,
                            d.message_hash,
                        ) is Some);
                    }
                }
                assert forall|k1: int, k2: int|
                    0 <= k1 < k2 < delivered@.len() implies !(#[trigger] delivered@[k1].account
                        == #[trigger] delivered@[k2].account && delivered@[k1].message_hash
                        == delivered@[k2].message_hash) by {
                    if k1 < dpre.len() && k2 < dpre.len() {
                        assert(delivered@[k1] == dpre[k1]);
                        assert(delivered@[k2] == dpre[k2]);
                    } else if k1 < dpre.len() {
                        // An earlier delivery left its key absent; this
                        // block's delivery found its key present.
                        assert(delivered@[k1] == dpre[k1]);
                        assert(delivered@[k2] == dnew[k2 - dpre.len()]);
                        assert(cur0.spec_pending(
                            BASE_WORKCHAIN_ID,
                            dpre[k1].account,
                            dpre[k1].message_hash,
                        ) is None);
                        assert(cur0.spec_pending(
                            BASE_WORKCHAIN_ID,
                            dnew[k2 - dpre.len()].account,
                            dnew[k2 - dpre.len()].message_hash,
                        ) is Some);
                    } else {
                        assert(delivered@[k1] == dnew[k1 - dpre.len()]);
                        assert(delivered@[k2] == dnew[k2 - dpre.len()]);
                    }
                }
            }
            bi = bi + 1;
        }
        let ghost s1 = *self;
        let ghost d_sc = delivered@;
        let mut d = self.process_block(MASTERCHAIN_ID, &next_mc.account_blocks);
        let ghost d_mc = d@;
        delivered.append(&mut d);
        let ghost s2 = *self;
        proof {
            assert forall|a: Uint256, h: Uint256|
                (pre.spec_pending(BASE_WORKCHAIN_ID, a, h) is Some && spec_matched_any(
                    bs,
                    a,
                    h,
                )) implies exists|k: int|
                    0 <= k < delivered@.len() && #[trigger] delivered@[k].account == a
                        && delivered@[k].message_hash == h by {
                assert(spec_matched_any_upto(bs, nb as int, a, h));
                let k0 = choose|k0: int|
                    0 <= k0 < d_sc.len() && #[trigger] d_sc[k0].account == a
                        && d_sc[k0].message_hash == h;
                assert(delivered@[k0] == d_sc[k0]);
            }
            assert forall|a: Uint256, h: Uint256|
                (pre.spec_pending(MASTERCHAIN_ID, a, h) is Some && spec_matched_in(
                    next_mc.account_blocks@,
                    a,
                    h,
                )) implies exists|k: int|
                    0 <= k < delivered@.len() && #[trigger] delivered@[k].account == a
                        && delivered@[k].message_hash == h by {
                assert(s1.spec_pending(MASTERCHAIN_ID, a, h) == pre.spec_pending(
                    MASTERCHAIN_ID,
                    a,
                    h,
                ));
                let k0 = choose|k0: int|
                    0 <= k0 < d_mc.len() && #[trigger] d_mc[k0].account == a
                        && d_mc[k0].message_hash == h;
                assert(delivered@[d_sc.len() + k0] == d_mc[k0]);
            }
            assert forall|k: int|
                0 <= k < delivered@.len() implies {
                    let d = #[trigger] delivered@[k];
                    &&& d.transaction.in_msg_hash == Some(d.message_hash)
                    &&& (d.workchain == MASTERCHAIN_ID || d.workchain == BASE_WORKCHAIN_ID)
                    &&& pre.spec_pending(d.workchain, d.account, d.message_hash) is Some
                } by {
                if k < d_sc.len() {
                    assert(delivered@[k] == d_sc[k]);
                } else {
                    let d = d_mc[k - d_sc.len()];
                    assert(delivered@[k] == d);
                    assert(s1.spec_pending(MASTERCHAIN_ID, d.account, d.message_hash) is Some);
                    assert(s1.spec_pending(MASTERCHAIN_ID, d.account, d.message_hash)
                        == pre.spec_pending(MASTERCHAIN_ID, d.account, d.message_hash));
                }
            }
            assert forall|k1: int, k2: int|
                0 <= k1 < k2 < delivered@.len() implies !(#[trigger] delivered@[k1].workchain
                    == #[trigger] delivered@[k2].workchain && delivered@[k1].account
                    == delivered@[k2].account && delivered@[k1].message_hash
                    == delivered@[k2].message_hash) by {
                if k1 < d_sc.len() && k2 < d_sc.len() {
                    assert(delivered@[k1] == d_sc[k1]);
                    assert(delivered@[k2] == d_sc[k2]);
                } else if k1 < d_sc.len() {
                    // One delivery is from the shard bucket, the other
                    // from the masterchain bucket.
                    assert(delivered@[k1] == d_sc[k1]);
                    assert(delivered@[k2] == d_mc[k2 - d_sc.len()]);
                    assert(d_sc[k1].workchain == BASE_WORKCHAIN_ID);
                    assert(d_mc[k2 - d_sc.len()].workchain == MASTERCHAIN_ID);
                } else {
                    assert(delivered@[k1] == d_mc[k1 - d_sc.len()]);
                    assert(delivered@[k2] == d_mc[k2 - d_sc.len()]);
                }
            }
        }
        proof {
            assert forall|wc: i32, a: Uint256, h: Uint256| #[trigger] s2.spec_pending(wc, a, h)
                == (if (wc == MASTERCHAIN_ID && spec_matched_in(next_mc.account_blocks@, a, h)) || (
            wc != MASTERCHAIN_ID && spec_matched_any(bs, a, h)) {
                None::<u32>
            } else {
                pre.spec_pending(wc, a, h)
            }) by {
                // Bring the intermediate lookups into scope so that the
                // previous stages' frames instantiate at this key.
                let step = s1.spec_pending(wc, a, h);
                assert(spec_matched_any_upto(bs, nb as int, a, h) == spec_matched_any(bs, a, h));
            }
        }
        self.remove_expired_messages(next_mc.gen_utime);
        let ghost s3 = *self;
        proof {
            assert forall|wc: i32, a: Uint256, h: Uint256| #[trigger] s3.spec_pending(wc, a, h)
                == spec_step_survivor(
                pre.spec_pending(wc, a, h),
                if wc == MASTERCHAIN_ID {
                    spec_matched_in(next_mc.account_blocks@, a, h)
                } else {
                    spec_matched_any(bs, a, h)
                },
                next_mc.gen_utime,
            ) by {
                // Bring the intermediate lookup into scope so that the
                // expiry stage's frame instantiates at this key.
                let step = s2.spec_pending(wc, a, h);
            }
        }
        // Reduce the shard tops to sequence numbers: the new shards edge.
        let mut entries: Vec<(ShardIdent, u32)> = Vec::new();
        let nt = next_mc.shard_tops.len();
        let mut k: usize = 0;
        while k < nt
            invariant
                nt == next_mc.shard_tops@.len(),
                k <= nt,
                entries@.len() == k,
                forall|x: int|
                    0 <= x < k ==> #[trigger] entries@[x] == (
                        next_mc.shard_tops@[x].0,
                        next_mc.shard_tops@[x].1.seq_no,
                    ),
                forall|i: int, j: int|
                    0 <= i < j < next_mc.shard_tops@.len() ==> next_mc.shard_tops@[i].0
                        != next_mc.shard_tops@[j].0,
            decreases nt - k,
        {
            let top = next_mc.shard_tops[k];
            entries.push((top.0, top.1.seq_no));
            k = k + 1;
        }
        proof {
            assert(edge_distinct(entries@));
            assert(entries@ =~= spec_reduced_tops(next_mc.shard_tops@));
        }
        let shards_edge = sorted_edge(entries);
        let gen_utime = next_mc.gen_utime;
        self.last_mc_block = Some(StoredMcBlock { gen_utime, data: next_mc, shards_edge });
        proof {
            assert(self.mc() == s3.mc());
            assert(self.sc() == s3.sc());
            assert forall|wc: i32, a: Uint256, h: Uint256| #[trigger] self.spec_pending(wc, a, h)
                == s3.spec_pending(wc, a, h) by {}
        }
        let more = self.pending_message_count > 0;
        (more, delivered)
    }
}

/// Answers every surrendered waiter with the "dropped without
/// observation" outcome.
fn deliver_dropped(removed: Vec<PendingMessage>)
{
    let mut removed = removed;
    loop
        decreases removed@.len(),
    {
        match removed.pop() {
            Some(m) => {
                send_reply(m.tx, None);
            },
            None => {
                break ;
            },
        }
    }
}

/// Counter law: in every well-formed subscription state the counter
/// equals the sum, over both buckets, of the sizes of the per-account
/// message maps.
pub proof fn lemma_counter_matches_pending(s: Subscription)
    requires
        s.inv(),
    ensures
        s.count() == s.mc().total() + s.sc().total(),
{
}

/// No-empty-entry law: in every well-formed subscription state, neither
/// bucket holds an account entry without messages.
pub proof fn lemma_no_empty_account_entry(s: Subscription)
    requires
        s.inv(),
    ensures
        forall|i: int|
            0 <= i < s.mc()@.len() ==> #[trigger] s.mc()@[i].messages@.len() > 0,
        forall|i: int|
            0 <= i < s.sc()@.len() ==> #[trigger] s.sc()@[i].messages@.len() > 0,
{
}

} // verus!
