//! Plain value types shared by the engine: 256-bit hashes, shard
//! identifiers and block identifiers.

use vstd::prelude::*;

verus! {

/// Workchain id of the masterchain.
pub const MASTERCHAIN_ID: i32 = -1;

/// Workchain id of the base workchain.
pub const BASE_WORKCHAIN_ID: i32 = 0;

/// A 256-bit value (an account address or a representation hash), held as
/// four 64-bit limbs, most significant first.
#[derive(Clone, Copy, Debug, PartialEq, Eq, Structural, Hash)]
pub struct Uint256 {
    pub w0: u64,
    pub w1: u64,
    pub w2: u64,
    pub w3: u64,
}

/// A shard identifier: a workchain id and the shard prefix in its
/// tag-encoded form (the bits of the prefix, followed by a single one bit,
/// padded with zeros to 64 bits). The full shard of a workchain is
/// `0x8000_0000_0000_0000`.
#[derive(Clone, Copy, Debug, PartialEq, Eq, Structural, Hash)]
pub struct ShardIdent {
    pub workchain: i32,
    pub prefix: u64,
}

/// A block identifier: the shard the block belongs to and its sequence
/// number within that shard.
#[derive(Clone, Copy, Debug, PartialEq, Eq, Structural)]
pub struct BlockId {
    pub shard: ShardIdent,
    pub seq_no: u32,
}

/// A transaction observed in a block: the representation hash of the
/// transaction cell and the representation hash of its inbound message,
/// when it has one. The inbound-message hash is the join key between
/// submitted messages and observed transactions.
#[derive(Clone, Copy, Debug, PartialEq, Eq, Structural)]
pub struct TransactionWithHash {
    pub hash: Uint256,
    pub in_msg_hash: Option<Uint256>,
}

/// The transactions a block holds for one account, keyed by the account
/// address.
pub struct AccountBlock {
    pub address: Uint256,
    pub transactions: Vec<TransactionWithHash>,
}

/// The decoded view of a block, as the engine reads it: its identifier,
/// its generation time, its one or two previous blocks, its per-account
/// transactions, and — for a masterchain block — the latest shard block
/// of each shard.
pub struct BlockData {
    pub id: BlockId,
    pub gen_utime: u32,
    pub prev1: BlockId,
    pub prev2: Option<BlockId>,
    pub account_blocks: Vec<AccountBlock>,
    /// For a masterchain block, the latest shard block ids; empty for a
    /// shard block.
    pub shard_tops: Vec<(ShardIdent, BlockId)>,
}

/// Whether some transaction of some account block carries `h` as the
/// hash of its inbound message for account `a`.
pub open spec fn spec_matched_in(blocks: Seq<AccountBlock>, a: Uint256, h: Uint256) -> bool {
    exists|i: int, j: int|
        0 <= i < blocks.len() && blocks[i].address == a && 0 <= j
            < blocks[i].transactions@.len() && blocks[i].transactions@[j].in_msg_hash == Some(h)
}

/// The lowest set bit of `p`, or zero when `p` is zero. For a tag-encoded
/// shard prefix this is the tag bit, whose position gives the prefix depth.
pub open spec fn spec_low_bit(p: u64) -> u64 {
    if p == 0 {
        0u64
    } else {
        p & ((!p + 1) as u64)
    }
}

/// The lowest set bit of `p` (the tag bit of a tag-encoded shard prefix).
pub fn low_bit(p: u64) -> (r: u64)
    ensures
        r == spec_low_bit(p),
{
    if p == 0 {
        0
    } else {
        assert((!p) < u64::MAX) by (bit_vector)
            requires
                p != 0,
        ;
        p & (!p + 1)
    }
}

/// Whether two shards intersect: they lie in the same workchain and one
/// prefix is an ancestor of the other, which holds exactly when the two
/// tag-encoded prefixes agree above the coarser tag bit.
pub open spec fn spec_shards_intersect(a: ShardIdent, b: ShardIdent) -> bool {
    &&& a.workchain == b.workchain
    &&& {
        let ta = spec_low_bit(a.prefix);
        let tb = spec_low_bit(b.prefix);
        let m = if ta >= tb {
            ta
        } else {
            tb
        };
        if m == 0 {
            a.prefix == b.prefix
        } else {
            (a.prefix | (m | ((m - 1) as u64))) == (b.prefix | (m | ((m - 1) as u64)))
        }
    }
}

/// Whether two shards intersect. Shards split and merge over time; a
/// shard intersects another exactly when one covers the other, that is,
/// when the shorter prefix is a prefix of the longer one.
pub fn shards_intersect(a: &ShardIdent, b: &ShardIdent) -> (r: bool)
    ensures
        r == spec_shards_intersect(*a, *b),
{
    if a.workchain != b.workchain {
        return false;
    }
    let ta = low_bit(a.prefix);
    let tb = low_bit(b.prefix);
    let m = if ta >= tb {
        ta
    } else {
        tb
    };
    if m == 0 {
        a.prefix == b.prefix
    } else {
        let mask = m | (m - 1);
        (a.prefix | mask) == (b.prefix | mask)
    }
}

} // verus!
