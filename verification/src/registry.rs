//! One bucket of the pending-message registry: a two-level mapping from
//! account address to message hash to a pending entry.
//!
//! Each pending entry holds its chain-time expiry and the single-shot
//! sender through which the waiter is answered. An entry holds its sender
//! for as long as it is stored; the only ways to a stored sender are
//! [`PendingMessages::take_message`], [`PendingMessages::remove_expired`]
//! and [`PendingMessages::drain_all`], each of which deletes the entry,
//! and a send consumes the sender by value, so every sender is consumed
//! at most once, and exactly once when the entry leaves the bucket.

use vstd::prelude::*;

use crate::types::TransactionWithHash;
use crate::types::Uint256;

verus! {

/// The single-shot sender of tokio, used to answer the waiter of a
/// pending message. Declared so that it can stand in fields; nothing of
/// its inside is visible here.
#[verifier::external_type_specification]
#[verifier::external_body]
#[verifier::reject_recursive_types(T)]
pub struct ExOneshotSender<T>(tokio::sync::oneshot::Sender<T>);

/// The outcome delivered to a waiter: the transaction that executed its
/// message, or nothing when the entry was dropped without observation.
pub type Reply = Option<TransactionWithHash>;

/// The sender half of a waiter's reply channel.
pub type ReplySender = tokio::sync::oneshot::Sender<Reply>;

/// Relies on tokio::sync::oneshot::Sender::send: consumes the sender and
/// hands the value to the receiver; returns false when the receiver is
/// already gone, in which case the value is discarded.
#[verifier::external_body]
pub(crate) fn send_reply(tx: ReplySender, value: Reply) -> bool {
    tx.send(value).is_ok()
}

/// A pending message: its chain-time expiry (seconds since epoch) and the
/// sender through which its waiter is answered.
pub struct PendingMessage {
    /// Chain time after which the entry is expired.
    pub expire_at: u32,
    /// The waiter's reply channel. Held for as long as the entry is
    /// stored; surrendered exactly when the entry is removed.
    pub tx: ReplySender,
}

/// One message under an account: the message hash and its pending entry.
pub struct MessageEntry {
    pub hash: Uint256,
    pub message: PendingMessage,
}

/// All pending messages of one account.
pub struct AccountEntry {
    pub address: Uint256,
    pub messages: Vec<MessageEntry>,
}

/// The pending messages under `h`, searched from the back.
pub open spec fn msgs_get(s: Seq<MessageEntry>, h: Uint256) -> Option<u32>
    decreases s.len(),
{
    if s.len() == 0 {
        None
    } else if s.last().hash == h {
        Some(s.last().message.expire_at)
    } else {
        msgs_get(s.drop_last(), h)
    }
}

/// The message list of account `a`, searched from the back.
pub open spec fn accounts_get(s: Seq<AccountEntry>, a: Uint256) -> Option<Seq<MessageEntry>>
    decreases s.len(),
{
    if s.len() == 0 {
        None
    } else if s.last().address == a {
        Some(s.last().messages@)
    } else {
        accounts_get(s.drop_last(), a)
    }
}

/// The number of pending messages in all accounts together.
pub open spec fn accounts_total(s: Seq<AccountEntry>) -> nat
    decreases s.len(),
{
    if s.len() == 0 {
        0
    } else {
        (accounts_total(s.drop_last()) + s.last().messages.len()) as nat
    }
}

/// No two message entries share a hash.
pub open spec fn msgs_distinct(s: Seq<MessageEntry>) -> bool {
    forall|j: int, k: int| 0 <= j < k < s.len() ==> s[j].hash != s[k].hash
}

/// No two account entries share an address.
pub open spec fn accounts_distinct(s: Seq<AccountEntry>) -> bool {
    forall|i: int, j: int| 0 <= i < j < s.len() ==> s[i].address != s[j].address
}

pub proof fn lemma_msgs_get_at(s: Seq<MessageEntry>, h: Uint256, j: int)
    requires
        msgs_distinct(s),
        0 <= j < s.len(),
        s[j].hash == h,
    ensures
        msgs_get(s, h) == Some(s[j].message.expire_at),
    decreases s.len(),
{
    if j < s.len() - 1 {
        assert(s.drop_last()[j] == s[j]);
        lemma_msgs_get_at(s.drop_last(), h, j);
    }
}

pub proof fn lemma_msgs_get_absent(s: Seq<MessageEntry>, h: Uint256)
    requires
        forall|j: int| 0 <= j < s.len() ==> s[j].hash != h,
    ensures
        msgs_get(s, h) is None,
    decreases s.len(),
{
    if s.len() > 0 {
        lemma_msgs_get_absent(s.drop_last(), h);
    }
}

pub proof fn lemma_accounts_get_at(s: Seq<AccountEntry>, a: Uint256, i: int)
    requires
        accounts_distinct(s),
        0 <= i < s.len(),
        s[i].address == a,
    ensures
        accounts_get(s, a) == Some(s[i].messages@),
    decreases s.len(),
{
    if i < s.len() - 1 {
        assert(s.drop_last()[i] == s[i]);
        lemma_accounts_get_at(s.drop_last(), a, i);
    }
}

pub proof fn lemma_accounts_get_absent(s: Seq<AccountEntry>, a: Uint256)
    requires
        forall|i: int| 0 <= i < s.len() ==> s[i].address != a,
    ensures
        accounts_get(s, a) is None,
    decreases s.len(),
{
    if s.len() > 0 {
        lemma_accounts_get_absent(s.drop_last(), a);
    }
}

pub proof fn lemma_accounts_get_present(s: Seq<AccountEntry>, a: Uint256)
    requires
        accounts_get(s, a) is Some,
    ensures
        exists|i: int| 0 <= i < s.len() && s[i].address == a,
    decreases s.len(),
{
    if s.len() > 0 && s.last().address != a {
        lemma_accounts_get_present(s.drop_last(), a);
        let i = choose|i: int|
            0 <= i < s.drop_last().len() && s.drop_last()[i].address == a;
        assert(s[i].address == a);
    }
}

/// The total is the sum over the entries; adding or dropping the last
/// entry changes it by that entry's share.
pub proof fn lemma_accounts_total_update(s: Seq<AccountEntry>, i: int, e: AccountEntry)
    requires
        0 <= i < s.len(),
    ensures
        accounts_total(s.update(i, e)) + s[i].messages.len() == accounts_total(s)
            + e.messages.len(),
    decreases s.len(),
{
    if i == s.len() - 1 {
        assert(s.update(i, e).drop_last() =~= s.drop_last());
        assert(s.update(i, e).last() == e);
    } else {
        assert(s.update(i, e).drop_last() =~= s.drop_last().update(i, e));
        assert(s.update(i, e).last() == s.last());
        lemma_accounts_total_update(s.drop_last(), i, e);
    }
}

/// A lookup for another address is unchanged when the entry at `i` is
/// replaced by one with the same address.
pub proof fn lemma_accounts_get_update_other(s: Seq<AccountEntry>, i: int, e: AccountEntry, a2: Uint256)
    requires
        0 <= i < s.len(),
        e.address == s[i].address,
        a2 != s[i].address,
    ensures
        accounts_get(s.update(i, e), a2) == accounts_get(s, a2),
    decreases s.len(),
{
    let t = s.update(i, e);
    if i == s.len() - 1 {
        assert(t.last() == e);
        assert(t.drop_last() =~= s.drop_last());
    } else {
        assert(t.last() == s.last());
        assert(t.drop_last() =~= s.drop_last().update(i, e));
        if s.last().address != a2 {
            lemma_accounts_get_update_other(s.drop_last(), i, e, a2);
        }
    }
}

/// A lookup for another address is unchanged when the entry at `i` is
/// removed.
pub proof fn lemma_accounts_get_remove_other(s: Seq<AccountEntry>, i: int, a2: Uint256)
    requires
        0 <= i < s.len(),
        a2 != s[i].address,
    ensures
        accounts_get(s.remove(i), a2) == accounts_get(s, a2),
    decreases s.len(),
{
    let t = s.remove(i);
    if i == s.len() - 1 {
        assert(t =~= s.drop_last());
    } else {
        assert(t.last() == s.last());
        assert(t.drop_last() =~= s.drop_last().remove(i));
        if s.last().address != a2 {
            lemma_accounts_get_remove_other(s.drop_last(), i, a2);
        }
    }
}

/// A lookup for another hash is unchanged when the entry at `j` is
/// removed.
pub proof fn lemma_msgs_get_remove_other(s: Seq<MessageEntry>, j: int, h2: Uint256)
    requires
        0 <= j < s.len(),
        h2 != s[j].hash,
    ensures
        msgs_get(s.remove(j), h2) == msgs_get(s, h2),
    decreases s.len(),
{
    let t = s.remove(j);
    if j == s.len() - 1 {
        assert(t =~= s.drop_last());
    } else {
        assert(t.last() == s.last());
        assert(t.drop_last() =~= s.drop_last().remove(j));
        if s.last().hash != h2 {
            lemma_msgs_get_remove_other(s.drop_last(), j, h2);
        }
    }
}

/// Removing the entry at `i` subtracts its share from the total.
pub proof fn lemma_accounts_total_remove(s: Seq<AccountEntry>, i: int)
    requires
        0 <= i < s.len(),
    ensures
        accounts_total(s.remove(i)) + s[i].messages.len() == accounts_total(s),
    decreases s.len(),
{
    if i == s.len() - 1 {
        assert(s.remove(i) =~= s.drop_last());
    } else {
        assert(s.remove(i).drop_last() =~= s.drop_last().remove(i));
        assert(s.remove(i).last() == s.last());
        lemma_accounts_total_remove(s.drop_last(), i);
    }
}

/// The messages that survive an expiry sweep at chain time `utime`.
pub open spec fn spec_keep(utime: u32) -> spec_fn(MessageEntry) -> bool {
    |e: MessageEntry| e.message.expire_at >= utime
}

/// Every element of a filtered sequence comes from the unfiltered one.
pub proof fn lemma_filter_subset(s: Seq<MessageEntry>, pred: spec_fn(MessageEntry) -> bool, e: MessageEntry)
    requires
        s.filter(pred).contains(e),
    ensures
        s.contains(e),
    decreases s.len(),
{
    reveal(Seq::filter);
    if s.len() > 0 {
        let dl = s.drop_last();
        if pred(s.last()) && e == s.last() {
            assert(s[s.len() - 1] == e);
        } else {
            if pred(s.last()) {
                let f = dl.filter(pred).push(s.last());
                let k = choose|k: int| 0 <= k < f.len() && f[k] == e;
                assert(dl.filter(pred)[k] == e);
            }
            lemma_filter_subset(dl, pred, e);
            let k = choose|k: int| 0 <= k < dl.len() && dl[k] == e;
            assert(s[k] == e);
        }
    }
}

/// Filtering keeps hashes distinct.
pub proof fn lemma_filter_distinct(s: Seq<MessageEntry>, pred: spec_fn(MessageEntry) -> bool)
    requires
        msgs_distinct(s),
    ensures
        msgs_distinct(s.filter(pred)),
    decreases s.len(),
{
    reveal(Seq::filter);
    if s.len() > 0 {
        let dl = s.drop_last();
        lemma_filter_distinct(dl, pred);
        if pred(s.last()) {
            let f = dl.filter(pred).push(s.last());
            assert forall|j: int, k: int| 0 <= j < k < f.len() implies f[j].hash != f[k].hash by {
                if k == f.len() - 1 {
                    lemma_filter_subset(dl, pred, f[j]);
                    let x = choose|x: int| 0 <= x < dl.len() && dl[x] == f[j];
                    assert(s[x] == f[j]);
                    assert(s[x].hash != s.last().hash);
                }
            }
        }
    }
}

/// A hash absent from the unfiltered sequence is absent from the
/// filtered one.
pub proof fn lemma_filter_hash_absent(s: Seq<MessageEntry>, pred: spec_fn(MessageEntry) -> bool, h: Uint256)
    requires
        forall|j: int| 0 <= j < s.len() ==> s[j].hash != h,
    ensures
        forall|j: int| 0 <= j < s.filter(pred).len() ==> s.filter(pred)[j].hash != h,
{
    assert forall|j: int| 0 <= j < s.filter(pred).len() implies s.filter(pred)[j].hash != h by {
        lemma_filter_subset(s, pred, s.filter(pred)[j]);
        let x = choose|x: int| 0 <= x < s.len() && s[x] == s.filter(pred)[j];
    }
}

/// What an expiry sweep leaves under each hash: the entry survives
/// exactly when it was present and not yet expired.
pub proof fn lemma_msgs_get_filter(s: Seq<MessageEntry>, utime: u32, h: Uint256)
    requires
        msgs_distinct(s),
    ensures
        msgs_get(s.filter(spec_keep(utime)), h) == (match msgs_get(s, h) {
            Some(e) => if e >= utime {
                Some(e)
            } else {
                None
            },
            None => None,
        }),
    decreases s.len(),
{
    reveal(Seq::filter);
    let pred = spec_keep(utime);
    if s.len() == 0 {
        assert(s.filter(pred).len() == 0);
    } else {
        let dl = s.drop_last();
        lemma_msgs_get_filter(dl, utime, h);
        if s.last().hash == h {
            if pred(s.last()) {
                assert(s.filter(pred).last() == s.last());
            } else {
                assert(s.filter(pred) == dl.filter(pred));
                assert forall|j: int| 0 <= j < dl.len() implies dl[j].hash != h by {
                    assert(s[j] == dl[j]);
                }
                lemma_filter_hash_absent(dl, pred, h);
                lemma_msgs_get_absent(dl.filter(pred), h);
            }
        } else {
            if pred(s.last()) {
                let f = dl.filter(pred).push(s.last());
                assert(f.drop_last() =~= dl.filter(pred));
            }
        }
    }
}

/// The account entries that survive pruning: those that still hold at
/// least one message.
pub open spec fn spec_nonempty() -> spec_fn(AccountEntry) -> bool {
    |e: AccountEntry| e.messages@.len() > 0
}

/// Every element of a pruned account sequence comes from the unpruned
/// one.
pub proof fn lemma_accounts_filter_subset(
    s: Seq<AccountEntry>,
    pred: spec_fn(AccountEntry) -> bool,
    e: AccountEntry,
)
    requires
        s.filter(pred).contains(e),
    ensures
        s.contains(e),
    decreases s.len(),
{
    reveal(Seq::filter);
    if s.len() > 0 {
        let dl = s.drop_last();
        if pred(s.last()) && e == s.last() {
            assert(s[s.len() - 1] == e);
        } else {
            if pred(s.last()) {
                let f = dl.filter(pred).push(s.last());
                let k = choose|k: int| 0 <= k < f.len() && f[k] == e;
                assert(dl.filter(pred)[k] == e);
            }
            lemma_accounts_filter_subset(dl, pred, e);
            let k = choose|k: int| 0 <= k < dl.len() && dl[k] == e;
            assert(s[k] == e);
        }
    }
}

/// Pruning keeps addresses distinct.
pub proof fn lemma_accounts_filter_distinct(s: Seq<AccountEntry>, pred: spec_fn(AccountEntry) -> bool)
    requires
        accounts_distinct(s),
    ensures
        accounts_distinct(s.filter(pred)),
    decreases s.len(),
{
    reveal(Seq::filter);
    if s.len() > 0 {
        let dl = s.drop_last();
        lemma_accounts_filter_distinct(dl, pred);
        if pred(s.last()) {
            let f = dl.filter(pred).push(s.last());
            assert forall|j: int, k: int|
                0 <= j < k < f.len() implies f[j].address != f[k].address by {
                if k == f.len() - 1 {
                    lemma_accounts_filter_subset(dl, pred, f[j]);
                    let x = choose|x: int| 0 <= x < dl.len() && dl[x] == f[j];
                    assert(s[x] == f[j]);
                    assert(s[x].address != s.last().address);
                }
            }
        }
    }
}

/// What pruning leaves under each address: a non-empty account entry
/// stays as it is, an empty one disappears.
pub proof fn lemma_accounts_get_prune(s: Seq<AccountEntry>, a: Uint256)
    requires
        accounts_distinct(s),
    ensures
        accounts_get(s.filter(spec_nonempty()), a) == (match accounts_get(s, a) {
            Some(m) => if m.len() > 0 {
                Some(m)
            } else {
                None::<Seq<MessageEntry>>
            },
            None => None::<Seq<MessageEntry>>,
        }),
    decreases s.len(),
{
    reveal(Seq::filter);
    let pred = spec_nonempty();
    if s.len() == 0 {
        assert(s.filter(pred).len() == 0);
    } else {
        let dl = s.drop_last();
        lemma_accounts_get_prune(dl, a);
        if s.last().address == a {
            if pred(s.last()) {
                assert(s.filter(pred).last() == s.last());
            } else {
                assert(s.filter(pred) == dl.filter(pred));
                assert forall|j: int|
                    0 <= j < dl.filter(pred).len() implies dl.filter(pred)[j].address != a by {
                    lemma_accounts_filter_subset(dl, pred, dl.filter(pred)[j]);
                    let x = choose|x: int| 0 <= x < dl.len() && dl[x] == dl.filter(pred)[j];
                    assert(s[x] == dl[x]);
                }
                lemma_accounts_get_absent(dl.filter(pred), a);
            }
        } else {
            if pred(s.last()) {
                let f = dl.filter(pred).push(s.last());
                assert(f.drop_last() =~= dl.filter(pred));
            }
        }
    }
}

/// Pruning empty account entries does not change the message total.
pub proof fn lemma_accounts_total_prune(s: Seq<AccountEntry>)
    ensures
        accounts_total(s.filter(spec_nonempty())) == accounts_total(s),
    decreases s.len(),
{
    reveal(Seq::filter);
    let pred = spec_nonempty();
    if s.len() > 0 {
        let dl = s.drop_last();
        lemma_accounts_total_prune(dl);
        if pred(s.last()) {
            let f = dl.filter(pred).push(s.last());
            assert(f.drop_last() =~= dl.filter(pred));
            assert(f.last() == s.last());
        }
    }
}

/// One bucket of the registry: the pending messages of one workchain,
/// keyed by account address and then by message hash.
pub struct PendingMessages {
    entries: Vec<AccountEntry>,
}

impl PendingMessages {
    /// The account entries, for specification purposes.
    pub closed spec fn view(self) -> Seq<AccountEntry> {
        self.entries@
    }

    /// Well-formed: addresses unique, hashes unique within an account,
    /// and no account entry left empty.
    pub open spec fn wf(self) -> bool {
        &&& accounts_distinct(self@)
        &&& forall|i: int|
            0 <= i < self@.len() ==> msgs_distinct(#[trigger] self@[i].messages@)
        &&& forall|i: int| 0 <= i < self@.len() ==> #[trigger] self@[i].messages@.len() > 0
    }

    /// The expiry stored under `(a, h)`, or nothing.
    pub open spec fn spec_get(self, a: Uint256, h: Uint256) -> Option<u32> {
        match accounts_get(self@, a) {
            Some(msgs) => msgs_get(msgs, h),
            None => None,
        }
    }

    /// Whether a message is pending under `(a, h)`.
    pub open spec fn spec_contains(self, a: Uint256, h: Uint256) -> bool {
        self.spec_get(a, h) is Some
    }

    /// The number of pending messages in the bucket.
    pub open spec fn total(self) -> nat {
        accounts_total(self@)
    }

    /// An empty bucket.
    pub fn new() -> (r: PendingMessages)
        ensures
            r.wf(),
            r.total() == 0,
            forall|a: Uint256, h: Uint256| !(#[trigger] r.spec_contains(a, h)),
    {
        let r = PendingMessages { entries: Vec::new() };
        proof {
            assert forall|a: Uint256, h: Uint256| !(#[trigger] r.spec_contains(a, h)) by {
                assert(accounts_get(r@, a) is None);
            }
        }
        r
    }

    /// The index of the account entry for `a`, if any.
    fn find_account(&self, a: &Uint256) -> (r: Option<usize>)
        ensures
            match r {
                Some(i) => i < self@.len() && self@[i as int].address == *a,
                None => forall|i: int| 0 <= i < self@.len() ==> self@[i].address != *a,
            },
    {
        let n = self.entries.len();
        let mut i: usize = 0;
        while i < n
            invariant
                n == self@.len(),
                i <= n,
                forall|j: int| 0 <= j < i ==> self@[j].address != *a,
            decreases n - i,
        {
            if self.entries[i].address == *a {
                return Some(i);
            }
            i = i + 1;
        }
        None
    }

    /// Stores a pending message under `(a, h)`. The caller has checked
    /// that the key is free; the account entry is created on demand.
    pub fn insert(&mut self, a: Uint256, h: Uint256, message: PendingMessage)
        requires
            old(self).wf(),
            !old(self).spec_contains(a, h),
        ensures
            final(self).wf(),
            final(self).spec_get(a, h) == Some(message.expire_at),
            forall|a2: Uint256, h2: Uint256|
                !(a2 == a && h2 == h) ==> #[trigger] final(self).spec_get(a2, h2) == old(
                    self,
                ).spec_get(a2, h2),
            final(self).total() == old(self).total() + 1,
    {
        let ghost pre = *self;
        let entry = MessageEntry { hash: h, message };
        match self.find_account(&a) {
            Some(i) => {
                proof {
                    lemma_accounts_get_at(pre@, a, i as int);
                    // The hash is absent from this account's list.
                    assert forall|j: int|
                        0 <= j < pre@[i as int].messages@.len() implies pre@[i as int].messages@[j].hash
                        != h by {
                        if pre@[i as int].messages@[j].hash == h {
                            lemma_msgs_get_at(pre@[i as int].messages@, h, j);
                        }
                    }
                }
                let acct = &mut self.entries[i];
                acct.messages.push(entry);
                proof {
                    let post = self@;
                    let msgs = pre@[i as int].messages@;
                    assert(post == pre@.update(i as int, post[i as int]));
                    assert(post[i as int].messages@ == msgs.push(entry));
                    assert(post[i as int].address == a);
                    assert forall|j: int| 0 <= j < post.len() implies #[trigger] post[j].address
                        == pre@[j].address by {}
                    assert(accounts_distinct(post));
                    assert(msgs_distinct(msgs.push(entry))) by {
                        assert(forall|j: int|
                            0 <= j < msgs.len() ==> msgs.push(entry)[j] == msgs[j]);
                    }
                    lemma_accounts_get_at(post, a, i as int);
                    assert(msgs.push(entry).last() == entry);
                    assert(self.spec_get(a, h) == Some(message.expire_at));
                    lemma_accounts_total_update(pre@, i as int, post[i as int]);
                    assert forall|a2: Uint256, h2: Uint256|
                        !(a2 == a && h2 == h) implies #[trigger] self.spec_get(a2, h2)
                        == pre.spec_get(a2, h2) by {
                        if a2 == a {
                            assert(accounts_get(post, a2) == Some(msgs.push(entry)));
                            assert(accounts_get(pre@, a2) == Some(msgs));
                            assert(msgs.push(entry).last() == entry);
                            assert(msgs.push(entry).drop_last() =~= msgs);
                            assert(msgs_get(msgs.push(entry), h2) == msgs_get(msgs, h2));
                            assert(self.spec_get(a2, h2) == msgs_get(msgs.push(entry), h2));
                            assert(pre.spec_get(a2, h2) == msgs_get(msgs, h2));
                        } else {
                            lemma_accounts_get_update_other(pre@, i as int, post[i as int], a2);
                            assert(accounts_get(post, a2) == accounts_get(pre@, a2));
                            assert(self.spec_get(a2, h2) == pre.spec_get(a2, h2));
                        }
                    }
                }
            },
            None => {
                proof {
                    lemma_accounts_get_absent(pre@, a);
                }
                let mut msgs: Vec<MessageEntry> = Vec::new();
                msgs.push(entry);
                self.entries.push(AccountEntry { address: a, messages: msgs });
                proof {
                    let post = self@;
                    assert(post.drop_last() =~= pre@);
                    assert(post.last().address == a);
                    assert(post.last().messages@ =~= seq![entry]);
                    assert(accounts_distinct(post)) by {
                        assert(forall|j: int| 0 <= j < pre@.len() ==> post[j] == pre@[j]);
                    }
                    assert(self.spec_get(a, h) == Some(message.expire_at));
                    assert forall|a2: Uint256, h2: Uint256|
                        !(a2 == a && h2 == h) implies #[trigger] self.spec_get(a2, h2)
                        == pre.spec_get(a2, h2) by {
                        if a2 == a {
                            assert(accounts_get(post, a2) == Some(seq![entry]));
                            assert(seq![entry].last() == entry);
                            assert(seq![entry].drop_last() =~= Seq::<MessageEntry>::empty());
                            assert(msgs_get(Seq::<MessageEntry>::empty(), h2) is None);
                            assert(msgs_get(seq![entry], h2) is None);
                            assert(self.spec_get(a2, h2) is None);
                            assert(pre.spec_get(a2, h2) is None);
                        } else {
                            assert(accounts_get(post, a2) == accounts_get(post.drop_last(), a2));
                            assert(accounts_get(post, a2) == accounts_get(pre@, a2));
                            assert(self.spec_get(a2, h2) == pre.spec_get(a2, h2));
                        }
                    }
                }
            },
        }
    }

    /// Removes and surrenders the pending message under `(a, h)`, if one
    /// is stored. The account entry is pruned when its last message
    /// leaves. The surrendered entry carries the waiter's sender; the key
    /// is gone afterwards, so the sender cannot be reached twice.
    pub fn take_message(&mut self, a: &Uint256, h: &Uint256) -> (r: Option<PendingMessage>)
        requires
            old(self).wf(),
        ensures
            final(self).wf(),
            match r {
                Some(m) => {
                    &&& old(self).spec_get(*a, *h) == Some(m.expire_at)
                    &&& final(self).spec_get(*a, *h) is None
                    &&& old(self).total() == final(self).total() + 1
                },
                None => {
                    &&& old(self).spec_get(*a, *h) is None
                    &&& *final(self) == *old(self)
                },
            },
            forall|a2: Uint256, h2: Uint256|
                !(a2 == *a && h2 == *h) ==> #[trigger] final(self).spec_get(a2, h2) == old(
                    self,
                ).spec_get(a2, h2),
    {
        let ghost pre = *self;
        let i = match self.find_account(a) {
            Some(i) => i,
            None => {
                proof {
                    lemma_accounts_get_absent(pre@, *a);
                }
                return None;
            },
        };
        proof {
            lemma_accounts_get_at(pre@, *a, i as int);
        }
        let j = match find_msg(&self.entries[i].messages, h) {
            Some(j) => j,
            None => {
                proof {
                    lemma_msgs_get_absent(pre@[i as int].messages@, *h);
                }
                return None;
            },
        };
        let ghost msgs = pre@[i as int].messages@;
        proof {
            lemma_msgs_get_at(msgs, *h, j as int);
        }
        let acct = &mut self.entries[i];
        let taken = acct.messages.remove(j);
        let now_empty = acct.messages.len() == 0;
        let ghost mid = self@;
        proof {
            assert(mid == pre@.update(i as int, mid[i as int]));
            assert(mid[i as int].messages@ == msgs.remove(j as int));
            assert(mid[i as int].address == *a);
            assert(taken == msgs[j as int]);
            lemma_accounts_total_update(pre@, i as int, mid[i as int]);
            assert(msgs_distinct(msgs.remove(j as int)));
            assert forall|y: int|
                0 <= y < msgs.remove(j as int).len() implies #[trigger] msgs.remove(
                j as int,
            )[y].hash != *h by {}
            lemma_msgs_get_absent(msgs.remove(j as int), *h);
        }
        if now_empty {
            let _ = self.entries.remove(i);
            proof {
                let post = self@;
                assert(post == mid.remove(i as int));
                assert(accounts_distinct(post)) by {
                    assert(forall|x: int|
                        0 <= x < post.len() ==> #[trigger] post[x] == (if x < i as int {
                            pre@[x]
                        } else {
                            pre@[x + 1]
                        }));
                }
                assert forall|x: int| 0 <= x < post.len() implies #[trigger] post[x].address
                    != *a by {}
                lemma_accounts_get_absent(post, *a);
                lemma_accounts_total_remove(mid, i as int);
                assert forall|a2: Uint256, h2: Uint256|
                    !(a2 == *a && h2 == *h) implies #[trigger] self.spec_get(a2, h2)
                    == pre.spec_get(a2, h2) by {
                    if a2 == *a {
                        assert(msgs.len() == 1);
                        assert forall|y: int| 0 <= y < msgs.len() implies #[trigger] msgs[y].hash
                            != h2 by {
                            assert(msgs[0].hash == *h);
                        }
                        lemma_msgs_get_absent(msgs, h2);
                        assert(pre.spec_get(a2, h2) is None);
                        assert(self.spec_get(a2, h2) is None);
                    } else {
                        lemma_accounts_get_remove_other(mid, i as int, a2);
                        lemma_accounts_get_update_other(pre@, i as int, mid[i as int], a2);
                        assert(self.spec_get(a2, h2) == pre.spec_get(a2, h2));
                    }
                }
            }
        } else {
            proof {
                let post = self@;
                lemma_accounts_get_at(post, *a, i as int);
                assert(self.spec_get(*a, *h) is None);
                assert forall|a2: Uint256, h2: Uint256|
                    !(a2 == *a && h2 == *h) implies #[trigger] self.spec_get(a2, h2)
                    == pre.spec_get(a2, h2) by {
                    if a2 == *a {
                        lemma_msgs_get_remove_other(msgs, j as int, h2);
                        assert(self.spec_get(a2, h2) == msgs_get(msgs.remove(j as int), h2));
                        assert(pre.spec_get(a2, h2) == msgs_get(msgs, h2));
                    } else {
                        lemma_accounts_get_update_other(pre@, i as int, post[i as int], a2);
                        assert(self.spec_get(a2, h2) == pre.spec_get(a2, h2));
                    }
                }
            }
        }
        Some(taken.message)
    }

    /// Removes every pending message whose expiry lies strictly before
    /// `utime` and prunes accounts left empty. The removed entries are
    /// surrendered so that their waiters can be told that the message was
    /// dropped without observation.
    pub fn remove_expired(&mut self, utime: u32) -> (removed: Vec<PendingMessage>)
        requires
            old(self).wf(),
        ensures
            final(self).wf(),
            forall|a: Uint256, h: Uint256|
                #[trigger] final(self).spec_get(a, h) == (match old(self).spec_get(a, h) {
                    Some(e) => if e >= utime {
                        Some(e)
                    } else {
                        None::<u32>
                    },
                    None => None::<u32>,
                }),
            final(self).total() + removed@.len() == old(self).total(),
            forall|k: int| 0 <= k < removed@.len() ==> #[trigger] removed@[k].expire_at < utime,
    {
        let ghost pre = *self;
        let mut removed: Vec<PendingMessage> = Vec::new();
        // First pass: sweep each account's list, keeping the account
        // entries in place even when they run empty.
        let n = self.entries.len();
        let mut i: usize = 0;
        while i < n
            invariant
                n == self@.len(),
                n == pre@.len(),
                i <= n,
                pre.wf(),
                forall|x: int| 0 <= x < n ==> #[trigger] self@[x].address == pre@[x].address,
                forall|x: int| i <= x < n ==> #[trigger] self@[x] == pre@[x],
                forall|x: int|
                    0 <= x < i ==> #[trigger] self@[x].messages@ == pre@[x].messages@.filter(
                        spec_keep(utime),
                    ),
                forall|x: int| 0 <= x < n ==> msgs_distinct(#[trigger] self@[x].messages@),
                removed@.len() + accounts_total(self@) == accounts_total(pre@),
                forall|k: int|
                    0 <= k < removed@.len() ==> #[trigger] removed@[k].expire_at < utime,
            decreases n - i,
        {
            let ghost before = self@;
            let ghost r_before = removed@;
            let acct = &mut self.entries[i];
            filter_messages(&mut acct.messages, utime, &mut removed);
            proof {
                let after = self@;
                assert(after == before.update(i as int, after[i as int]));
                lemma_accounts_total_update(before, i as int, after[i as int]);
                lemma_filter_distinct(pre@[i as int].messages@, spec_keep(utime));
                assert forall|k: int|
                    0 <= k < removed@.len() implies #[trigger] removed@[k].expire_at
                    < utime by {
                    if k < r_before.len() {
                        assert(removed@.subrange(0, r_before.len() as int)[k] == removed@[k]);
                    }
                }
            }
            i = i + 1;
        }
        // Second pass: prune the account entries that ran empty.
        let ghost mid = self@;
        proof {
            reveal(Seq::filter);
            assert(mid.skip(mid.len() as int) =~= Seq::<AccountEntry>::empty());
            assert(self@ =~= mid.take(mid.len() as int) + mid.skip(mid.len() as int).filter(
                spec_nonempty(),
            ));
        }
        let mut k = self.entries.len();
        while k > 0
            invariant
                k <= mid.len(),
                self@ == mid.take(k as int) + mid.skip(k as int).filter(spec_nonempty()),
            decreases k,
        {
            k = k - 1;
            proof {
                reveal(Seq::filter);
                assert(mid.skip(k as int) =~= seq![mid[k as int]] + mid.skip(k as int + 1));
                Seq::filter_distributes_over_add(
                    seq![mid[k as int]],
                    mid.skip(k as int + 1),
                    spec_nonempty(),
                );
                assert(seq![mid[k as int]].drop_last() =~= Seq::<AccountEntry>::empty());
                assert(Seq::<AccountEntry>::empty().filter(spec_nonempty()) =~= Seq::<
                    AccountEntry,
                >::empty());
                assert(self@[k as int] == mid[k as int]);
            }
            if self.entries[k].messages.len() == 0 {
                let _ = self.entries.remove(k);
                proof {
                    assert(seq![mid[k as int]].filter(spec_nonempty()) =~= Seq::<
                        AccountEntry,
                    >::empty());
                    assert(self@ =~= mid.take(k as int) + mid.skip(k as int).filter(
                        spec_nonempty(),
                    ));
                }
            } else {
                proof {
                    assert(seq![mid[k as int]].filter(spec_nonempty()) =~= seq![mid[k as int]]);
                    assert(self@ =~= mid.take(k as int) + mid.skip(k as int).filter(
                        spec_nonempty(),
                    ));
                }
            }
        }
        proof {
            assert(mid.take(0) =~= Seq::<AccountEntry>::empty());
            assert(mid.skip(0) =~= mid);
            assert(self@ =~= mid.filter(spec_nonempty()));
            assert(accounts_distinct(mid));
            lemma_accounts_filter_distinct(mid, spec_nonempty());
            lemma_accounts_total_prune(mid);
            let post = self@;
            // Well-formedness of the survivors.
            assert forall|x: int| 0 <= x < post.len() implies #[trigger] post[x].messages@.len()
                > 0 && msgs_distinct(post[x].messages@) by {
                mid.lemma_filter_pred(spec_nonempty(), x);
                lemma_accounts_filter_subset(mid, spec_nonempty(), post[x]);
                let y = choose|y: int| 0 <= y < mid.len() && mid[y] == post[x];
            }
            // What each key maps to afterwards.
            assert forall|a: Uint256, h: Uint256| #[trigger] self.spec_get(a, h) == (
            match pre.spec_get(a, h) {
                Some(e) => if e >= utime {
                    Some(e)
                } else {
                    None::<u32>
                },
                None => None::<u32>,
            }) by {
                lemma_accounts_get_prune(mid, a);
                if accounts_get(pre@, a) is Some {
                    lemma_accounts_get_present(pre@, a);
                    let x = choose|x: int| 0 <= x < pre@.len() && pre@[x].address == a;
                    lemma_accounts_get_at(pre@, a, x);
                    let m = pre@[x].messages@;
                    assert(mid[x].messages@ == m.filter(spec_keep(utime)));
                    lemma_accounts_get_at(mid, a, x);
                    lemma_msgs_get_filter(m, utime, h);
                    if m.filter(spec_keep(utime)).len() == 0 {
                        assert(msgs_get(m.filter(spec_keep(utime)), h) is None);
                    }
                } else {
                    assert forall|x: int| 0 <= x < pre@.len() implies #[trigger] pre@[x].address
                        != a by {
                        if pre@[x].address == a {
                            lemma_accounts_get_at(pre@, a, x);
                        }
                    }
                    lemma_accounts_get_absent(mid, a);
                }
            }
        }
        removed
    }

    /// Empties the bucket, surrendering every pending entry so that
    /// each waiter can be told that its message was dropped without
    /// observation.
    pub fn drain_all(&mut self) -> (removed: Vec<PendingMessage>)
        requires
            old(self).wf(),
        ensures
            final(self).wf(),
            final(self).total() == 0,
            forall|a: Uint256, h: Uint256| !(#[trigger] final(self).spec_contains(a, h)),
            removed@.len() == old(self).total(),
    {
        let ghost pre = *self;
        let mut removed: Vec<PendingMessage> = Vec::new();
        while self.entries.len() > 0
            invariant
                removed@.len() + accounts_total(self@) == pre.total(),
            decreases self@.len(),
        {
            let ghost prepop = self@;
            let mut acct = self.entries.pop().unwrap();
            proof {
                assert(self@ =~= prepop.drop_last());
                assert(acct == prepop.last());
                assert(accounts_total(prepop) == accounts_total(self@) + acct.messages@.len());
            }
            while acct.messages.len() > 0
                invariant
                    removed@.len() + accounts_total(self@) + acct.messages@.len() == pre.total(),
                decreases acct.messages@.len(),
            {
                let e = acct.messages.pop().unwrap();
                removed.push(e.message);
            }
        }
        proof {
            assert(self@.len() == 0);
            assert forall|a: Uint256, h: Uint256| !(#[trigger] self.spec_contains(a, h)) by {
                assert(accounts_get(self@, a) is None);
            }
        }
        removed
    }

    /// Whether a message is pending under `(a, h)`.
    pub fn has_pending(&self, a: &Uint256, h: &Uint256) -> (r: bool)
        requires
            self.wf(),
        ensures
            r == self.spec_contains(*a, *h),
    {
        match self.find_account(a) {
            Some(i) => {
                proof {
                    lemma_accounts_get_at(self@, *a, i as int);
                }
                let r = find_msg(&self.entries[i].messages, h);
                proof {
                    let msgs = self@[i as int].messages@;
                    match r {
                        Some(j) => {
                            lemma_msgs_get_at(msgs, *h, j as int);
                        },
                        None => {
                            lemma_msgs_get_absent(msgs, *h);
                        },
                    }
                }
                r.is_some()
            },
            None => {
                proof {
                    lemma_accounts_get_absent(self@, *a);
                }
                false
            },
        }
    }
}

/// Removes the expired messages from one account's list, appending their
/// pending entries to `removed`. What stays is exactly the filter of the
/// list by the expiry sweep.
fn filter_messages(msgs: &mut Vec<MessageEntry>, utime: u32, removed: &mut Vec<PendingMessage>)
    ensures
        final(msgs)@ == old(msgs)@.filter(spec_keep(utime)),
        final(removed)@.len() + final(msgs)@.len() == old(removed)@.len() + old(msgs)@.len(),
        final(removed)@.subrange(0, old(removed)@.len() as int) == old(removed)@,
        forall|k: int|
            old(removed)@.len() <= k < final(removed)@.len()
                ==> #[trigger] final(removed)@[k].expire_at < utime,
{
    let ghost orig = msgs@;
    let ghost r0 = removed@;
    let ghost pred = spec_keep(utime);
    proof {
        reveal(Seq::filter);
        assert(orig.skip(orig.len() as int) =~= Seq::<MessageEntry>::empty());
        assert(msgs@ =~= orig.take(orig.len() as int) + orig.skip(orig.len() as int).filter(pred));
        assert(removed@.subrange(0, r0.len() as int) =~= r0);
    }
    let mut j = msgs.len();
    while j > 0
        invariant
            j <= orig.len(),
            msgs@ == orig.take(j as int) + orig.skip(j as int).filter(spec_keep(utime)),
            removed@.len() + msgs@.len() == r0.len() + orig.len(),
            removed@.subrange(0, r0.len() as int) == r0,
            forall|k: int|
                r0.len() <= k < removed@.len() ==> #[trigger] removed@[k].expire_at < utime,
        decreases j,
    {
        j = j - 1;
        proof {
            reveal(Seq::filter);
            assert(orig.skip(j as int) =~= seq![orig[j as int]] + orig.skip(j as int + 1));
            Seq::filter_distributes_over_add(
                seq![orig[j as int]],
                orig.skip(j as int + 1),
                spec_keep(utime),
            );
            assert(seq![orig[j as int]].drop_last() =~= Seq::<MessageEntry>::empty());
            assert(msgs@[j as int] == orig[j as int]);
        }
        if msgs[j].message.expire_at < utime {
            let e = msgs.remove(j);
            removed.push(e.message);
            proof {
                reveal(Seq::filter);
                assert(Seq::<MessageEntry>::empty().filter(spec_keep(utime)) =~= Seq::<
                    MessageEntry,
                >::empty());
                assert(seq![orig[j as int]].filter(spec_keep(utime)) =~= Seq::<
                    MessageEntry,
                >::empty());
                assert(msgs@ =~= orig.take(j as int) + orig.skip(j as int).filter(
                    spec_keep(utime),
                ));
                assert(removed@.subrange(0, r0.len() as int) =~= r0);
            }
        } else {
            proof {
                reveal(Seq::filter);
                assert(Seq::<MessageEntry>::empty().filter(spec_keep(utime)) =~= Seq::<
                    MessageEntry,
                >::empty());
                assert(seq![orig[j as int]].filter(spec_keep(utime)) =~= seq![orig[j as int]]);
                assert(msgs@ =~= orig.take(j as int) + orig.skip(j as int).filter(
                    spec_keep(utime),
                ));
            }
        }
    }
    proof {
        assert(orig.take(0) =~= Seq::<MessageEntry>::empty());
        assert(orig.skip(0) =~= orig);
        assert(msgs@ =~= orig.filter(spec_keep(utime)));
    }
}

/// Single-holder law: in a well-formed bucket, each pending key is held
/// by exactly one entry, and that entry holds the waiter's sender. The
/// operations that surrender an entry delete its key in the same step,
/// and a send consumes the sender by value, so each waiter is answered
/// at most once — and exactly once when its entry leaves the bucket.
pub proof fn lemma_pending_entry_unique(
    pm: PendingMessages,
    i1: int,
    j1: int,
    i2: int,
    j2: int,
)
    requires
        pm.wf(),
        0 <= i1 < pm@.len(),
        0 <= j1 < pm@[i1].messages@.len(),
        0 <= i2 < pm@.len(),
        0 <= j2 < pm@[i2].messages@.len(),
        pm@[i1].address == pm@[i2].address,
        pm@[i1].messages@[j1].hash == pm@[i2].messages@[j2].hash,
    ensures
        i1 == i2,
        j1 == j2,
{
}

/// The index of the message entry for `h`, if any.
fn find_msg(msgs: &Vec<MessageEntry>, h: &Uint256) -> (r: Option<usize>)
    ensures
        match r {
            Some(j) => j < msgs@.len() && msgs@[j as int].hash == *h,
            None => forall|j: int| 0 <= j < msgs@.len() ==> msgs@[j].hash != *h,
        },
{
    let n = msgs.len();
    let mut j: usize = 0;
    while j < n
        invariant
            n == msgs@.len(),
            j <= n,
            forall|k: int| 0 <= k < j ==> msgs@[k].hash != *h,
        decreases n - j,
    {
        if msgs[j].hash == *h {
            return Some(j);
        }
        j = j + 1;
    }
    None
}

} // verus!
