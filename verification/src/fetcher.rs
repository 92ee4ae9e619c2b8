//! The block fetcher's decisions: retry state machines for "next
//! masterchain block" and "specific block" downloads.
//!
//! The surrounding runtime performs the queries and the sleeps; it
//! feeds every outcome into these machines and follows the step they
//! return. Recoverable emptiness — a peer that has not seen the block
//! yet, or a transport timeout — is retried with exponential backoff;
//! only an unparseable response fails a download for good.

use vstd::prelude::*;

use crate::backoff::DownloaderTimeouts;
use crate::types::BlockData;

verus! {

/// The ADNL timeout for a "prepare block" query, in milliseconds.
pub const PREPARE_BLOCK_TIMEOUT_MS: u64 = 1000;

/// A "download next block" response, once parsed: the full block after
/// the given one, an explicit "nothing yet", or garbage.
pub enum NextBlockResponse {
    /// The peer sent the next block.
    Found(BlockData),
    /// The peer answered, but has no next block yet.
    Empty,
    /// The response failed to parse.
    Invalid,
}

/// A "prepare block" response: whether the peer holds the block.
#[derive(Clone, Copy, Debug, PartialEq, Eq, Structural)]
pub enum Prepared {
    Found,
    NotFound,
}

/// What a download loop does next.
pub enum FetchStep {
    /// The block is downloaded; the loop ends.
    Done(BlockData),
    /// Sleep this many milliseconds, then retry.
    Retry(u64),
    /// The response was invalid; the download fails for good.
    Fail,
}

/// The state of a "next masterchain block" download: the backoff policy
/// and the attempt counter that widens the roundtrip budget.
pub struct NextBlockFetch {
    pub timeouts: DownloaderTimeouts,
    pub attempt: u64,
}

impl NextBlockFetch {
    pub open spec fn wf(self) -> bool {
        self.timeouts.wf()
    }

    /// A fresh download: the block policy, no attempts made.
    pub fn new() -> (r: NextBlockFetch)
        ensures
            r.wf(),
            r.timeouts == DownloaderTimeouts::spec_block_download_policy(),
            r.attempt == 0,
    {
        NextBlockFetch { timeouts: DownloaderTimeouts::for_block_download(), attempt: 0 }
    }

    /// Decides on one outcome of the RLDP query: a parsed block ends the
    /// loop, an invalid response fails it, and an empty response or a
    /// transport timeout sleeps the current delay, grows it, and counts
    /// the attempt.
    pub fn on_response(&mut self, response: Option<NextBlockResponse>) -> (r: FetchStep)
        requires
            old(self).wf(),
            old(self).attempt < u64::MAX,
        ensures
            final(self).wf(),
            match response {
                Some(NextBlockResponse::Found(b)) => r == FetchStep::Done(b) && *final(self)
                    == *old(self),
                Some(NextBlockResponse::Invalid) => r == FetchStep::Fail && *final(self) == *old(
                    self,
                ),
                _ => {
                    &&& r == FetchStep::Retry(old(self).timeouts.initial)
                    &&& final(self).timeouts == old(self).timeouts.spec_step()
                    &&& final(self).attempt == old(self).attempt + 1
                },
            },
    {
        match response {
            Some(NextBlockResponse::Found(b)) => FetchStep::Done(b),
            Some(NextBlockResponse::Invalid) => FetchStep::Fail,
            Some(NextBlockResponse::Empty) | None => {
                let delay = self.timeouts.initial;
                self.timeouts.update();
                self.attempt = self.attempt + 1;
                FetchStep::Retry(delay)
            },
        }
    }
}

/// The stage a "specific block" download is in: asking the peer to
/// prepare the block over ADNL, or downloading it over RLDP.
#[derive(Clone, Copy, Debug, PartialEq, Eq, Structural)]
pub enum BlockFetchStage {
    Prepare,
    Download,
}

/// The state of a "specific block" download.
pub struct BlockFetch {
    pub stage: BlockFetchStage,
    pub timeouts: DownloaderTimeouts,
    pub attempt: u64,
}

impl BlockFetch {
    pub open spec fn wf(self) -> bool {
        self.timeouts.wf()
    }

    /// A fresh download, starting in the prepare stage.
    pub fn new() -> (r: BlockFetch)
        ensures
            r.wf(),
            r.stage == BlockFetchStage::Prepare,
            r.timeouts == DownloaderTimeouts::spec_block_download_policy(),
            r.attempt == 0,
    {
        BlockFetch {
            stage: BlockFetchStage::Prepare,
            timeouts: DownloaderTimeouts::for_block_download(),
            attempt: 0,
        }
    }

    /// Decides on one "prepare block" answer: once the peer holds the
    /// block, the download stage begins with a fresh policy; otherwise
    /// sleep the current delay and ask again. Returns the sleep, when
    /// one is due.
    pub fn on_prepared(&mut self, response: Prepared) -> (r: Option<u64>)
        requires
            old(self).wf(),
            old(self).stage == BlockFetchStage::Prepare,
        ensures
            final(self).wf(),
            match response {
                Prepared::Found => {
                    &&& r is None
                    &&& final(self).stage == BlockFetchStage::Download
                    &&& final(self).timeouts == DownloaderTimeouts::spec_block_download_policy()
                    &&& final(self).attempt == 0
                },
                Prepared::NotFound => {
                    &&& r == Some(old(self).timeouts.initial)
                    &&& final(self).stage == BlockFetchStage::Prepare
                    &&& final(self).timeouts == old(self).timeouts.spec_step()
                    &&& final(self).attempt == old(self).attempt
                },
            },
    {
        match response {
            Prepared::Found => {
                self.stage = BlockFetchStage::Download;
                self.timeouts = DownloaderTimeouts::for_block_download();
                self.attempt = 0;
                None
            },
            Prepared::NotFound => {
                let delay = self.timeouts.initial;
                self.timeouts.update();
                Some(delay)
            },
        }
    }

    /// Decides on one RLDP download outcome: block bytes that parsed
    /// end the loop; a timeout sleeps the current delay, grows it, and
    /// counts the attempt.
    pub fn on_block(&mut self, response: Option<BlockData>) -> (r: FetchStep)
        requires
            old(self).wf(),
            old(self).stage == BlockFetchStage::Download,
            old(self).attempt < u64::MAX,
        ensures
            final(self).wf(),
            final(self).stage == BlockFetchStage::Download,
            match response {
                Some(b) => r == FetchStep::Done(b) && *final(self) == *old(self),
                None => {
                    &&& r == FetchStep::Retry(old(self).timeouts.initial)
                    &&& final(self).timeouts == old(self).timeouts.spec_step()
                    &&& final(self).attempt == old(self).attempt + 1
                },
            },
    {
        match response {
            Some(b) => FetchStep::Done(b),
            None => {
                let delay = self.timeouts.initial;
                self.timeouts.update();
                self.attempt = self.attempt + 1;
                FetchStep::Retry(delay)
            },
        }
    }
}

} // verus!
