//! The shard-chain DAG walk: starting from one shard's top block, walk
//! backward through previous-block links, bounded by the previous
//! masterchain's shards edge, and hand the collected blocks back sorted
//! by generation time and sequence number.
//!
//! The runtime drives the walk: it fetches the block the walk asks for
//! next and feeds it back in. The decisions — which previous blocks to
//! visit, where the edge cuts the walk off, and the processing order —
//! are made and proved here.

use vstd::prelude::*;

use crate::edge::Edge;
use crate::types::BlockData;
use crate::types::BlockId;

verus! {

/// The processing order of collected shard blocks: ascending by
/// generation time, then by sequence number, to increase locality when
/// the blocks are scanned against the pending messages.
pub open spec fn spec_block_le(a: BlockData, b: BlockData) -> bool {
    a.gen_utime < b.gen_utime || (a.gen_utime == b.gen_utime && a.id.seq_no <= b.id.seq_no)
}

/// Whether a run of blocks is in processing order.
pub open spec fn spec_blocks_sorted(s: Seq<BlockData>) -> bool {
    forall|k1: int, k2: int| 0 <= k1 < k2 < s.len() ==> spec_block_le(s[k1], s[k2])
}

/// Compares two blocks in processing order.
fn block_le(a: &BlockData, b: &BlockData) -> (r: bool)
    ensures
        r == spec_block_le(*a, *b),
{
    a.gen_utime < b.gen_utime || (a.gen_utime == b.gen_utime && a.id.seq_no <= b.id.seq_no)
}

/// One shard's backward walk: the shards edge of the previous
/// masterchain block, the blocks still to fetch, and the blocks
/// collected so far.
pub struct ShardWalk {
    edge: Edge,
    stack: Vec<BlockId>,
    collected: Vec<BlockData>,
}

impl ShardWalk {
    /// The edge bounding this walk.
    pub closed spec fn spec_edge(self) -> Edge {
        self.edge
    }

    /// The block ids still to fetch.
    pub closed spec fn spec_stack(self) -> Seq<BlockId> {
        self.stack@
    }

    /// The blocks collected so far, in visit order.
    pub closed spec fn spec_collected(self) -> Seq<BlockData> {
        self.collected@
    }

    pub open spec fn wf(self) -> bool {
        self.spec_edge().wf()
    }

    /// Starts a walk at one shard's top block.
    pub fn new(edge: Edge, top: BlockId) -> (r: ShardWalk)
        requires
            edge.wf(),
        ensures
            r.wf(),
            r.spec_edge() == edge,
            r.spec_stack() == seq![top],
            r.spec_collected().len() == 0,
    {
        let mut stack: Vec<BlockId> = Vec::new();
        stack.push(top);
        proof {
            assert(stack@ =~= seq![top]);
        }
        ShardWalk { edge, stack, collected: Vec::new() }
    }

    /// The next block to fetch, if the walk is not finished.
    pub fn next_to_fetch(&mut self) -> (r: Option<BlockId>)
        requires
            old(self).wf(),
        ensures
            final(self).wf(),
            final(self).spec_edge() == old(self).spec_edge(),
            final(self).spec_collected() == old(self).spec_collected(),
            match r {
                Some(id) => old(self).spec_stack().len() > 0 && id == old(
                    self,
                ).spec_stack().last() && final(self).spec_stack() == old(
                    self,
                ).spec_stack().drop_last(),
                None => old(self).spec_stack().len() == 0 && final(self).spec_stack() == old(
                    self,
                ).spec_stack(),
            },
    {
        let r = self.stack.pop();
        proof {
            if old(self).spec_stack().len() > 0 {
                assert(self.stack@ =~= old(self).spec_stack().drop_last());
            }
        }
        r
    }

    /// Takes one fetched block in: collects it and queues each previous
    /// block that lies strictly after the edge — a previous block at or
    /// before the edge was already covered by the previous masterchain
    /// tip, and the walk stops there.
    pub fn on_block(&mut self, block: BlockData)
        requires
            old(self).wf(),
        ensures
            final(self).wf(),
            final(self).spec_edge() == old(self).spec_edge(),
            final(self).spec_collected() == old(self).spec_collected().push(block),
            final(self).spec_stack() == old(self).spec_stack() + (if old(
                self,
            ).spec_edge().spec_is_before(block.prev1) {
                seq![block.prev1]
            } else {
                Seq::<BlockId>::empty()
            }) + (match block.prev2 {
                Some(p2) => if old(self).spec_edge().spec_is_before(p2) {
                    seq![p2]
                } else {
                    Seq::<BlockId>::empty()
                },
                None => Seq::<BlockId>::empty(),
            }),
    {
        let ghost stack0 = self.stack@;
        let prev1 = block.prev1;
        let prev2 = block.prev2;
        self.collected.push(block);
        let ghost mid = if self.edge.spec_is_before(prev1) {
            stack0 + seq![prev1]
        } else {
            stack0 + Seq::<BlockId>::empty()
        };
        if self.edge.is_before(&prev1) {
            self.stack.push(prev1);
        }
        proof {
            assert(self.stack@ =~= mid);
        }
        match prev2 {
            Some(p2) => {
                if self.edge.is_before(&p2) {
                    self.stack.push(p2);
                    proof {
                        assert(self.stack@ =~= mid + seq![p2]);
                    }
                } else {
                    proof {
                        assert(self.stack@ =~= mid + Seq::<BlockId>::empty());
                    }
                }
            },
            None => {
                proof {
                    assert(self.stack@ =~= mid + Seq::<BlockId>::empty());
                }
            },
        }
    }

    /// Ends the walk: the collected blocks, sorted into processing
    /// order. The result holds exactly the collected blocks.
    pub fn finish(self) -> (r: Vec<BlockData>)
        ensures
            spec_blocks_sorted(r@),
            r@.to_multiset() == self.spec_collected().to_multiset(),
    {
        sort_blocks(self.collected)
    }
}

/// Sorts blocks into processing order, keeping exactly the same blocks.
fn sort_blocks(blocks: Vec<BlockData>) -> (r: Vec<BlockData>)
    ensures
        spec_blocks_sorted(r@),
        r@.to_multiset() == blocks@.to_multiset(),
{
    let ghost orig = blocks@;
    let mut rest = blocks;
    let mut out: Vec<BlockData> = Vec::new();
    proof {
        broadcast use vstd::seq_lib::group_to_multiset_ensures;

        assert(out@.to_multiset().add(rest@.to_multiset()) =~= orig.to_multiset());
    }
    while rest.len() > 0
        invariant
            out@.to_multiset().add(rest@.to_multiset()) == orig.to_multiset(),
            spec_blocks_sorted(out@),
            forall|x: int, y: int|
                0 <= x < out@.len() && 0 <= y < rest@.len() ==> spec_block_le(
                    out@[x],
                    rest@[y],
                ),
        decreases rest@.len(),
    {
        // Find the least remaining block.
        let n = rest.len();
        let mut best: usize = 0;
        let mut m: usize = 1;
        while m < n
            invariant
                n == rest@.len(),
                best < m <= n,
                forall|x: int| 0 <= x < m ==> spec_block_le(rest@[best as int], rest@[x]),
            decreases n - m,
        {
            if block_le(&rest[m], &rest[best]) {
                best = m;
            }
            m = m + 1;
        }
        let item = rest.remove(best);
        out.push(item);
        proof {
            broadcast use vstd::seq_lib::group_to_multiset_ensures;

            assert(out@.to_multiset().add(rest@.to_multiset()) =~= orig.to_multiset());
        }
    }
    out
}

} // verus!
