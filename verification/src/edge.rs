//! The shards edge: the set of shard-top sequence numbers at a specific
//! masterchain height, used to bound backward DAG traversal.

use vstd::prelude::*;

use crate::types::BlockId;
use crate::types::ShardIdent;
use crate::types::shards_intersect;
use crate::types::spec_shards_intersect;

verus! {

/// No two edge entries name the same shard.
pub open spec fn edge_distinct(s: Seq<(ShardIdent, u32)>) -> bool {
    forall|i: int, j: int| 0 <= i < j < s.len() ==> s[i].0 != s[j].0
}

/// The top sequence number recorded for exactly this shard, if any.
pub open spec fn lookup_exact(s: Seq<(ShardIdent, u32)>, shard: ShardIdent) -> Option<u32>
    decreases s.len(),
{
    if s.len() == 0 {
        None
    } else if s.last().0 == shard {
        Some(s.last().1)
    } else {
        lookup_exact(s.drop_last(), shard)
    }
}

/// The top sequence number of the first entry, in edge order, whose
/// shard intersects the queried one.
pub open spec fn first_intersecting(s: Seq<(ShardIdent, u32)>, shard: ShardIdent) -> Option<u32>
    decreases s.len(),
{
    if s.len() == 0 {
        None
    } else if spec_shards_intersect(s[0].0, shard) {
        Some(s[0].1)
    } else {
        first_intersecting(s.skip(1), shard)
    }
}

pub proof fn lemma_lookup_exact_at(s: Seq<(ShardIdent, u32)>, shard: ShardIdent, i: int)
    requires
        edge_distinct(s),
        0 <= i < s.len(),
        s[i].0 == shard,
    ensures
        lookup_exact(s, shard) == Some(s[i].1),
    decreases s.len(),
{
    if i < s.len() - 1 {
        assert(s.drop_last()[i] == s[i]);
        lemma_lookup_exact_at(s.drop_last(), shard, i);
    }
}

pub proof fn lemma_lookup_exact_absent(s: Seq<(ShardIdent, u32)>, shard: ShardIdent)
    requires
        forall|i: int| 0 <= i < s.len() ==> s[i].0 != shard,
    ensures
        lookup_exact(s, shard) is None,
    decreases s.len(),
{
    if s.len() > 0 {
        lemma_lookup_exact_absent(s.drop_last(), shard);
    }
}

/// A shards edge: for each shard, the sequence number included at the
/// masterchain height the edge was taken from. Entries are kept in the
/// deterministic order they were built in, so the intersecting fallback
/// of [`Edge::is_before`] is reproducible.
pub struct Edge {
    entries: Vec<(ShardIdent, u32)>,
}

impl Edge {
    /// The edge entries, for specification purposes.
    pub closed spec fn view(self) -> Seq<(ShardIdent, u32)> {
        self.entries@
    }

    /// Well-formed: one entry per shard.
    pub open spec fn wf(self) -> bool {
        edge_distinct(self@)
    }

    /// Whether `id` lies strictly after this edge in its shard: by the
    /// exact entry for its shard when there is one, else by the first
    /// entry of an intersecting shard (shards split and merge), else not
    /// at all.
    pub open spec fn spec_is_before(self, id: BlockId) -> bool {
        match lookup_exact(self@, id.shard) {
            Some(top) => top < id.seq_no,
            None => match first_intersecting(self@, id.shard) {
                Some(top) => top < id.seq_no,
                None => false,
            },
        }
    }

    /// Builds an edge from one entry per shard.
    pub fn new(entries: Vec<(ShardIdent, u32)>) -> (r: Edge)
        requires
            edge_distinct(entries@),
        ensures
            r@ == entries@,
            r.wf(),
    {
        Edge { entries }
    }

    /// An empty edge: no block lies after it.
    pub fn empty() -> (r: Edge)
        ensures
            r@.len() == 0,
            r.wf(),
    {
        Edge { entries: Vec::new() }
    }

    /// The entries of the edge, in edge order.
    pub fn entries(&self) -> (r: &Vec<(ShardIdent, u32)>)
        ensures
            r@ == self@,
    {
        &self.entries
    }

    /// Whether the block lies strictly after the edge in its shard. The
    /// lookup is by exact shard; on a miss, the first entry whose shard
    /// intersects the block's shard decides; with no intersecting entry
    /// the block is not after the edge.
    pub fn is_before(&self, id: &BlockId) -> (r: bool)
        requires
            self.wf(),
        ensures
            r == self.spec_is_before(*id),
    {
        let n = self.entries.len();
        let mut i: usize = 0;
        while i < n
            invariant
                self.wf(),
                n == self@.len(),
                i <= n,
                forall|j: int| 0 <= j < i ==> self@[j].0 != id.shard,
            decreases n - i,
        {
            if self.entries[i].0 == id.shard {
                proof {
                    lemma_lookup_exact_at(self@, id.shard, i as int);
                }
                return self.entries[i].1 < id.seq_no;
            }
            i = i + 1;
        }
        proof {
            lemma_lookup_exact_absent(self@, id.shard);
        }
        let mut i: usize = 0;
        proof {
            assert(self@.skip(0) =~= self@);
        }
        while i < n
            invariant
                self.wf(),
                lookup_exact(self@, id.shard) is None,
                n == self@.len(),
                i <= n,
                first_intersecting(self@, id.shard) == first_intersecting(
                    self@.skip(i as int),
                    id.shard,
                ),
                forall|j: int| 0 <= j < i ==> !spec_shards_intersect(self@[j].0, id.shard),
            decreases n - i,
        {
            let entry = self.entries[i];
            proof {
                assert(self@.skip(i as int)[0] == self@[i as int]);
            }
            if shards_intersect(&entry.0, &id.shard) {
                return entry.1 < id.seq_no;
            }
            proof {
                assert(self@.skip(i as int).skip(1) =~= self@.skip(i as int + 1));
            }
            i = i + 1;
        }
        proof {
            assert(self@.skip(n as int).len() == 0);
        }
        false
    }
}

/// The order edge entries are kept in: by workchain, then by shard
/// prefix.
pub open spec fn spec_shard_lt(a: ShardIdent, b: ShardIdent) -> bool {
    a.workchain < b.workchain || (a.workchain == b.workchain && a.prefix < b.prefix)
}

/// Whether edge entries stand in strictly ascending shard order.
pub open spec fn edge_sorted(s: Seq<(ShardIdent, u32)>) -> bool {
    forall|i: int, j: int| 0 <= i < j < s.len() ==> spec_shard_lt(s[i].0, s[j].0)
}

/// Compares two shards in edge order.
fn shard_lt(a: &ShardIdent, b: &ShardIdent) -> (r: bool)
    ensures
        r == spec_shard_lt(*a, *b),
{
    a.workchain < b.workchain || (a.workchain == b.workchain && a.prefix < b.prefix)
}

/// Builds an edge from one entry per shard, sorted by shard, so that
/// the intersecting fallback of [`Edge::is_before`] walks the entries
/// in a reproducible order whatever order they arrived in.
pub fn sorted_edge(entries: Vec<(ShardIdent, u32)>) -> (r: Edge)
    requires
        edge_distinct(entries@),
    ensures
        r.wf(),
        edge_sorted(r@),
        r@.to_multiset() == entries@.to_multiset(),
{
    let ghost orig = entries@;
    let n = entries.len();
    let mut out: Vec<(ShardIdent, u32)> = Vec::new();
    let mut k: usize = 0;
    proof {
        broadcast use vstd::seq_lib::group_to_multiset_ensures;

        assert(orig.take(0) =~= Seq::<(ShardIdent, u32)>::empty());
        assert(out@.to_multiset() =~= orig.take(0).to_multiset());
    }
    while k < n
        invariant
            n == orig.len(),
            orig == entries@,
            edge_distinct(orig),
            k <= n,
            edge_sorted(out@),
            out@.len() == k,
            out@.to_multiset() == orig.take(k as int).to_multiset(),
        decreases n - k,
    {
        let e = entries[k];
        proof {
            broadcast use vstd::seq_lib::group_to_multiset_ensures;

            // Every entry placed so far came from the first `k` inputs,
            // whose shards all differ from this entry's shard.
            assert forall|x: int| 0 <= x < out@.len() implies #[trigger] out@[x].0 != e.0 by {
                assert(out@.to_multiset().count(out@[x]) > 0);
                assert(orig.take(k as int).contains(out@[x]));
                let idx = choose|idx: int|
                    0 <= idx < orig.take(k as int).len() && orig.take(k as int)[idx] == out@[x];
                assert(orig[idx] == out@[x]);
            }
        }
        let m = out.len();
        let mut p: usize = 0;
        while p < m && shard_lt(&out[p].0, &e.0)
            invariant
                m == out@.len(),
                p <= m,
                forall|x: int| 0 <= x < p ==> spec_shard_lt(#[trigger] out@[x].0, e.0),
            decreases m - p,
        {
            p = p + 1;
        }
        let ghost before = out@;
        out.insert(p, e);
        proof {
            broadcast use vstd::seq_lib::group_to_multiset_ensures;
            vstd::seq_lib::lemma_multiset_commutative(before.take(p as int), before.skip(p as int));
            vstd::seq_lib::lemma_multiset_commutative(
                before.take(p as int).push(e),
                before.skip(p as int),
            );

            assert(before.take(p as int) + before.skip(p as int) =~= before);
            assert(out@ =~= before.take(p as int).push(e) + before.skip(p as int));
            assert(before.take(p as int).push(e).to_multiset() =~= before.take(
                p as int,
            ).to_multiset().insert(e));
            assert(out@.to_multiset() =~= before.to_multiset().insert(e));
            assert(orig.take(k as int).push(e) =~= orig.take(k as int + 1));
            assert(out@.to_multiset() =~= orig.take(k as int + 1).to_multiset());
            assert forall|x: int, y: int|
                0 <= x < y < out@.len() implies spec_shard_lt(out@[x].0, out@[y].0) by {
                assert(forall|z: int|
                    0 <= z < p ==> #[trigger] out@[z] == before[z]);
                assert(out@[p as int] == e);
                assert(forall|z: int|
                    p < z < out@.len() ==> #[trigger] out@[z] == before[z - 1]);
                if x < p && y == p {
                    assert(spec_shard_lt(before[x].0, e.0));
                } else if x == p && y > p {
                    // The scan stopped because this entry does not come
                    // before the insertion point; distinct shards make
                    // the order strict.
                    assert(!spec_shard_lt(before[p as int].0, e.0));
                    assert(before[p as int].0 != e.0);
                    assert(spec_shard_lt(e.0, before[p as int].0));
                    if y > p + 1 {
                        assert(spec_shard_lt(before[p as int].0, before[y - 1].0));
                        assert(spec_shard_lt(e.0, before[y - 1].0));
                    }
                }
            }
        }
        k = k + 1;
    }
    proof {
        assert(orig.take(n as int) =~= orig);
        assert forall|i: int, j: int|
            0 <= i < j < out@.len() implies #[trigger] out@[i].0 != #[trigger] out@[j].0 by {
            assert(spec_shard_lt(out@[i].0, out@[j].0));
        }
    }
    Edge { entries: out }
}

/// Exact-shard law: when the edge holds an entry for precisely the
/// block's shard, the block is after the edge exactly when that entry's
/// top sequence number is below the block's.
pub proof fn lemma_is_before_exact(e: Edge, id: BlockId, i: int)
    requires
        e.wf(),
        0 <= i < e@.len(),
        e@[i].0 == id.shard,
    ensures
        e.spec_is_before(id) <==> e@[i].1 < id.seq_no,
{
    lemma_lookup_exact_at(e@, id.shard, i);
}

} // verus!
