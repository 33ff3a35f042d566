//! The configuration of a client and the account of a transfer.

use crate::options::Negotiation;
use crate::{DEFAULT_BLOCK_SIZE, DEFAULT_TIMEOUT_SECS, DEFAULT_WINDOW_SIZE};
use vstd::prelude::*;

verus! {

/// What a client asks for. `resume_from_block` is the number of blocks that an
/// earlier transfer already fetched; 0 starts from the beginning.
#[derive(Debug, Clone, Copy, PartialEq, Eq, Structural)]
pub struct ClientConfig {
    pub blksize: u16,
    pub timeout_secs: u16,
    pub windowsize: u16,
    pub retries: u32,
    pub resume_from_block: u64,
}

impl Default for ClientConfig {
    fn default() -> (cfg: Self)
        ensures
            cfg == (ClientConfig {
                blksize: DEFAULT_BLOCK_SIZE,
                timeout_secs: DEFAULT_TIMEOUT_SECS,
                windowsize: DEFAULT_WINDOW_SIZE,
                retries: 6,
                resume_from_block: 0,
            }),
    {
        Self {
            blksize: DEFAULT_BLOCK_SIZE,
            timeout_secs: DEFAULT_TIMEOUT_SECS,
            windowsize: DEFAULT_WINDOW_SIZE,
            retries: 6,
            resume_from_block: 0,
        }
    }
}

/// The account of one transfer. `total_bytes` is the size of the file where it
/// is known, `duration_ms` the time that the transfer took in milliseconds.
#[derive(Debug, Clone, Copy, PartialEq, Eq, Structural)]
pub struct TransferStats {
    pub bytes: u64,
    pub blocks: u64,
    pub total_bytes: Option<u64>,
    pub duration_ms: u64,
}

/// The account of a transfer that moved nothing.
pub open spec fn no_stats() -> TransferStats {
    TransferStats { bytes: 0, blocks: 0, total_bytes: None, duration_ms: 0 }
}

impl Default for TransferStats {
    fn default() -> (s: Self)
        ensures
            s == no_stats(),
    {
        Self { bytes: 0, blocks: 0, total_bytes: None, duration_ms: 0 }
    }
}

impl TransferStats {
    /// The account of a transfer that took so many milliseconds.
    pub fn timed(self, millis: u64) -> (s: Self)
        ensures
            s == (TransferStats { duration_ms: millis, ..self }),
    {
        Self { duration_ms: millis, ..self }
    }
}

/// The configuration with the negotiated parameters in place of the requested
/// ones. Retries and resumption stay as they were.
pub fn apply_negotiation(cfg: &ClientConfig, neg: Negotiation) -> (out: ClientConfig)
    ensures
        out == (ClientConfig {
            blksize: neg.blksize,
            timeout_secs: neg.timeout,
            windowsize: neg.windowsize,
            ..*cfg
        }),
{
    let mut out = *cfg;
    out.blksize = neg.blksize;
    out.timeout_secs = neg.timeout;
    out.windowsize = neg.windowsize;
    out
}

} // verus!
